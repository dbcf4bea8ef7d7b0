use sp1_core::field::Felt;
use sp1_core::memory::{
    is_valid_access_order, ByteLookupEvent, ByteOpcode, MemoryAccessCols, MemoryReadCols,
    MemoryReadRecord, MemoryReadWriteCols, MemoryRecord, MemoryRecordEnum, MemoryWriteCols,
    MemoryWriteRecord,
};

fn rec(value: u32, shard: u32, timestamp: u32) -> MemoryRecord {
    MemoryRecord { value, shard, timestamp }
}

#[test]
fn same_shard_uses_timestamps() {
    let mut cols = MemoryAccessCols::new();
    let mut events = Vec::new();
    let current = rec(0xdead_beef, 3, 1000);
    let prev = rec(7, 3, 10);
    cols.populate_access(current, prev, &mut events);
    let diff = 1000 - 10 - 1;
    assert_eq!(cols.compare_clk.value(), 1);
    assert_eq!(cols.diff_16bit_limb.value(), diff & 0xffff);
    assert_eq!(cols.diff_8bit_limb.value(), (diff >> 16) & 0xff);
    assert_eq!(
        cols.diff_16bit_limb.value() | (cols.diff_8bit_limb.value() << 16),
        diff
    );
    assert_eq!(cols.prev_shard.value(), 3);
    assert_eq!(cols.prev_clk.value(), 10);
    let bytes: Vec<u32> = cols.value.0.iter().map(|f| f.value()).collect();
    assert_eq!(bytes, vec![0xef, 0xbe, 0xad, 0xde]);
    assert_eq!(
        events,
        vec![
            ByteLookupEvent::new(3, ByteOpcode::U16Range, diff & 0xffff, 0, 0, 0),
            ByteLookupEvent::new(3, ByteOpcode::U8Range, 0, 0, 0, (diff >> 16) & 0xff),
        ]
    );
}

#[test]
fn other_shard_uses_shards() {
    let mut cols = MemoryAccessCols::new();
    let mut events = Vec::new();
    let current = rec(1, 9, 5);
    let prev = rec(1, 4, 70000);
    cols.populate_access(current, prev, &mut events);
    assert_eq!(cols.compare_clk.value(), 0);
    assert_eq!(cols.diff_16bit_limb.value(), 4);
    assert_eq!(cols.diff_8bit_limb.value(), 0);
    assert_eq!(cols.prev_clk.value(), 70000);
    assert_eq!(events.len(), 2);
    assert_eq!(events[0].shard, 9);
}

#[test]
fn large_gap_splits_into_limbs() {
    let mut cols = MemoryAccessCols::new();
    let mut events = Vec::new();
    let diff: u32 = 0x12_3456;
    cols.populate_access(rec(0, 1, 100 + diff + 1), rec(0, 1, 100), &mut events);
    assert_eq!(cols.diff_16bit_limb.value(), 0x3456);
    assert_eq!(cols.diff_8bit_limb.value(), 0x12);
    assert_eq!(events[0].a1, 0x3456);
    assert_eq!(events[1].c, 0x12);
}

#[test]
fn minimum_gap_gives_zero_limbs() {
    let mut cols = MemoryAccessCols::new();
    let mut events = Vec::new();
    cols.populate_access(rec(0, 2, 51), rec(0, 2, 50), &mut events);
    assert_eq!(cols.diff_16bit_limb.value(), 0);
    assert_eq!(cols.diff_8bit_limb.value(), 0);
    let mut cols = MemoryAccessCols::new();
    cols.populate_access(rec(0, 6, 0), rec(0, 5, 900), &mut events);
    assert_eq!(cols.diff_16bit_limb.value(), 0);
    assert_eq!(cols.diff_8bit_limb.value(), 0);
    assert_eq!(events.len(), 4);
}

#[test]
fn maximum_gap_gives_full_limbs() {
    let mut cols = MemoryAccessCols::new();
    let mut events = Vec::new();
    let prev_ts: u32 = 17;
    let current_ts = prev_ts + (1 << 24);
    cols.populate_access(rec(0, 1, current_ts), rec(0, 1, prev_ts), &mut events);
    assert_eq!(cols.diff_16bit_limb.value(), 0xffff);
    assert_eq!(cols.diff_8bit_limb.value(), 0xff);
}

#[test]
fn gap_past_limbs_is_rejected() {
    assert!(is_valid_access_order(rec(0, 1, 18 + (1 << 24)), rec(0, 1, 17)) == false);
    assert!(is_valid_access_order(rec(0, 1, 17 + (1 << 24)), rec(0, 1, 17)));
    assert!(!is_valid_access_order(rec(0, 1, 17), rec(0, 1, 17)));
    assert!(!is_valid_access_order(rec(0, 1, 16), rec(0, 1, 17)));
    assert!(!is_valid_access_order(rec(0, 1, 500), rec(0, 2, 17)));
    assert!(is_valid_access_order(rec(0, 2, 5), rec(0, 1, 17)));
}

#[test]
fn write_cols_record_previous_value() {
    let mut cols = MemoryWriteCols::new();
    let mut events = Vec::new();
    let record = MemoryWriteRecord {
        value: 0x0102_0304,
        shard: 1,
        timestamp: 20,
        prev_value: 0x0a0b_0c0d,
        prev_shard: 1,
        prev_timestamp: 12,
    };
    cols.populate(record, &mut events);
    let prev: Vec<u32> = cols.prev_value.0.iter().map(|f| f.value()).collect();
    assert_eq!(prev, vec![0x0d, 0x0c, 0x0b, 0x0a]);
    let now: Vec<u32> = cols.access.value.0.iter().map(|f| f.value()).collect();
    assert_eq!(now, vec![0x04, 0x03, 0x02, 0x01]);
    assert_eq!(cols.access.diff_16bit_limb.value(), 7);
}

#[test]
fn read_cols_keep_value() {
    let mut cols = MemoryReadCols::new();
    let mut events = Vec::new();
    let record = MemoryReadRecord {
        value: 255,
        shard: 2,
        timestamp: 9,
        prev_shard: 1,
        prev_timestamp: 30,
    };
    cols.populate(record, &mut events);
    assert_eq!(cols.access.value.0[0].value(), 255);
    assert_eq!(cols.access.compare_clk.value(), 0);
    assert_eq!(cols.access.diff_16bit_limb.value(), 0);
    assert_eq!(cols.access.prev_shard.value(), 1);
}

#[test]
fn read_write_cols_dispatch() {
    let mut events = Vec::new();
    let mut cols = MemoryReadWriteCols::new();
    let read = MemoryReadRecord {
        value: 0x11,
        shard: 1,
        timestamp: 40,
        prev_shard: 1,
        prev_timestamp: 8,
    };
    cols.populate(MemoryRecordEnum::Read(read), &mut events);
    assert_eq!(cols.prev_value.0[0].value(), 0x11);
    assert_eq!(cols.access.diff_16bit_limb.value(), 31);
    let mut cols = MemoryReadWriteCols::new();
    let write = MemoryWriteRecord {
        value: 0x22,
        shard: 1,
        timestamp: 41,
        prev_value: 0x11,
        prev_shard: 1,
        prev_timestamp: 40,
    };
    cols.populate(MemoryRecordEnum::Write(write), &mut events);
    assert_eq!(cols.prev_value.0[0].value(), 0x11);
    assert_eq!(cols.access.value.0[0].value(), 0x22);
    assert_eq!(cols.access.diff_16bit_limb.value(), 0);
    assert_eq!(events.len(), 4);
    let _ = Felt::zero();
}
