//! Memory access columns: each access proves that it comes after the previous
//! access to the same address, by a difference that range checks bound.
use vstd::prelude::*;
use crate::field::{Felt, p};

verus! {

/// Largest difference a single access may prove, plus one: `2^24`.
pub const MAX_DIFF: u32 = 0x100_0000;

/// The observed state at one access.
#[derive(Clone, Copy, Debug, PartialEq, Eq)]
pub struct MemoryRecord {
    pub value: u32,
    pub shard: u32,
    pub timestamp: u32,
}

/// A read: the value is unchanged by the access.
#[derive(Clone, Copy, Debug, PartialEq, Eq)]
pub struct MemoryReadRecord {
    pub value: u32,
    pub shard: u32,
    pub timestamp: u32,
    pub prev_shard: u32,
    pub prev_timestamp: u32,
}

/// A write of `value` over `prev_value`.
#[derive(Clone, Copy, Debug, PartialEq, Eq)]
pub struct MemoryWriteRecord {
    pub value: u32,
    pub shard: u32,
    pub timestamp: u32,
    pub prev_value: u32,
    pub prev_shard: u32,
    pub prev_timestamp: u32,
}

#[derive(Clone, Copy, Debug, PartialEq, Eq)]
pub enum MemoryRecordEnum {
    Read(MemoryReadRecord),
    Write(MemoryWriteRecord),
}

/// The range checks that the byte-lookup table proves.
#[derive(Clone, Copy, Debug, PartialEq, Eq)]
pub enum ByteOpcode {
    /// The operand `a1` lies in `[0, 2^16)`.
    U16Range,
    /// The operand `c` lies in `[0, 2^8)`.
    U8Range,
}

/// A range-check obligation handed to the byte-lookup table.
#[derive(Clone, Copy, Debug, PartialEq, Eq)]
pub struct ByteLookupEvent {
    pub shard: u32,
    pub opcode: ByteOpcode,
    pub a1: u32,
    pub a2: u32,
    pub b: u32,
    pub c: u32,
}

impl ByteLookupEvent {
    pub fn new(shard: u32, opcode: ByteOpcode, a1: u32, a2: u32, b: u32, c: u32) -> (r: Self)
        ensures
            r == (ByteLookupEvent { shard, opcode, a1, a2, b, c }),
    {
        ByteLookupEvent { shard, opcode, a1, a2, b, c }
    }
}

/// A 32-bit value as four little-endian bytes, each a field element.
#[derive(Clone, Copy, Debug, PartialEq, Eq)]
pub struct Word(pub [Felt; 4]);

/// The little-endian bytes of `x`.
pub open spec fn word_of(x: u32) -> Seq<int> {
    seq![
        (x as int) % 256,
        ((x as int) / 256) % 256,
        ((x as int) / 65536) % 256,
        (x as int) / 16777216,
    ]
}

impl View for Word {
    type V = Seq<int>;

    open spec fn view(&self) -> Seq<int> {
        self.0@.map_values(|f: Felt| f@)
    }
}

impl Word {
    pub fn zero() -> (r: Word)
        ensures
            r@ == seq![0int, 0, 0, 0],
    {
        let r = Word([Felt::zero(), Felt::zero(), Felt::zero(), Felt::zero()]);
        assert(r@ =~= seq![0int, 0, 0, 0]);
        r
    }

    pub fn from_u32(x: u32) -> (r: Word)
        ensures
            r@ == word_of(x),
    {
        let r = Word(
            [
                Felt::new(x % 256),
                Felt::new((x / 256) % 256),
                Felt::new((x / 65536) % 256),
                Felt::new(x / 16777216),
            ],
        );
        proof {
            crate::field::lemma_canon_mod((x as int) % 256);
            crate::field::lemma_canon_mod(((x as int) / 256) % 256);
            crate::field::lemma_canon_mod(((x as int) / 65536) % 256);
            crate::field::lemma_canon_mod((x as int) / 16777216);
        }
        assert(r@ =~= word_of(x));
        r
    }
}

/// The timestamp is compared within a shard, the shard number across shards.
pub open spec fn compare_clk(current: MemoryRecord, prev: MemoryRecord) -> bool {
    prev.shard == current.shard
}

/// The ordering key of `r` under the comparison chosen for the pair.
pub open spec fn time_key(r: MemoryRecord, use_clk: bool) -> int {
    if use_clk {
        r.timestamp as int
    } else {
        r.shard as int
    }
}

/// `key(current) - key(prev) - 1`.
pub open spec fn access_diff(current: MemoryRecord, prev: MemoryRecord) -> int {
    let c = compare_clk(current, prev);
    time_key(current, c) - time_key(prev, c) - 1
}

/// The access is strictly later, by a gap that two limbs can represent.
pub open spec fn valid_access_order(current: MemoryRecord, prev: MemoryRecord) -> bool {
    0 <= access_diff(current, prev) < MAX_DIFF
}

/// The low 16 bits of the difference.
pub open spec fn diff_low(current: MemoryRecord, prev: MemoryRecord) -> int {
    access_diff(current, prev) % 65536
}

/// Bits 16 to 23 of the difference.
pub open spec fn diff_high(current: MemoryRecord, prev: MemoryRecord) -> int {
    (access_diff(current, prev) / 65536) % 256
}

/// The two range checks an access emits, in this order.
pub open spec fn access_events(current: MemoryRecord, prev: MemoryRecord) -> Seq<ByteLookupEvent> {
    seq![
        ByteLookupEvent {
            shard: current.shard,
            opcode: ByteOpcode::U16Range,
            a1: diff_low(current, prev) as u32,
            a2: 0,
            b: 0,
            c: 0,
        },
        ByteLookupEvent {
            shard: current.shard,
            opcode: ByteOpcode::U8Range,
            a1: 0,
            a2: 0,
            b: 0,
            c: diff_high(current, prev) as u32,
        },
    ]
}

/// The two limbs put the difference back together exactly, each within its
/// range: `diff == diff_16bit_limb | (diff_8bit_limb << 16)`, where `diff` is
/// the timestamp gap within a shard and the shard gap across shards.
pub proof fn lemma_diff_limbs(current: MemoryRecord, prev: MemoryRecord)
    requires
        valid_access_order(current, prev),
    ensures
        0 <= diff_low(current, prev) < 65536,
        0 <= diff_high(current, prev) < 256,
        diff_low(current, prev) + diff_high(current, prev) * 65536 == access_diff(current, prev),
        prev.shard == current.shard ==> access_diff(current, prev) == current.timestamp
            - prev.timestamp - 1,
        prev.shard != current.shard ==> access_diff(current, prev) == current.shard - prev.shard
            - 1,
{
    let d = access_diff(current, prev);
    assert(d / 65536 < 256);
    assert((d / 65536) % 256 == d / 65536);
}

/// The access at `current` may follow `prev` under `valid_access_order`.
pub fn is_valid_access_order(current: MemoryRecord, prev: MemoryRecord) -> (r: bool)
    ensures
        r == valid_access_order(current, prev),
{
    let (c, q) = if prev.shard == current.shard {
        (current.timestamp, prev.timestamp)
    } else {
        (current.shard, prev.shard)
    };
    c > q && c - q - 1 < MAX_DIFF
}

/// The access seen by a write: its new value now, its previous value before.
pub open spec fn write_current(r: MemoryWriteRecord) -> MemoryRecord {
    MemoryRecord { value: r.value, shard: r.shard, timestamp: r.timestamp }
}

pub open spec fn write_prev(r: MemoryWriteRecord) -> MemoryRecord {
    MemoryRecord { value: r.prev_value, shard: r.prev_shard, timestamp: r.prev_timestamp }
}

/// The access seen by a read: the same value before and now.
pub open spec fn read_current(r: MemoryReadRecord) -> MemoryRecord {
    MemoryRecord { value: r.value, shard: r.shard, timestamp: r.timestamp }
}

pub open spec fn read_prev(r: MemoryReadRecord) -> MemoryRecord {
    MemoryRecord { value: r.value, shard: r.prev_shard, timestamp: r.prev_timestamp }
}

pub open spec fn valid_write(r: MemoryWriteRecord) -> bool {
    valid_access_order(write_current(r), write_prev(r))
}

pub open spec fn valid_read(r: MemoryReadRecord) -> bool {
    valid_access_order(read_current(r), read_prev(r))
}

pub open spec fn valid_record(r: MemoryRecordEnum) -> bool {
    match r {
        MemoryRecordEnum::Read(x) => valid_read(x),
        MemoryRecordEnum::Write(x) => valid_write(x),
    }
}

/// The columns that certify one access.
#[derive(Clone, Copy, Debug, PartialEq, Eq)]
pub struct MemoryAccessCols {
    pub value: Word,
    pub prev_shard: Felt,
    pub prev_clk: Felt,
    pub compare_clk: Felt,
    pub diff_16bit_limb: Felt,
    pub diff_8bit_limb: Felt,
}

impl MemoryAccessCols {
    /// The columns hold exactly what `populate_access` writes for the pair.
    pub open spec fn matches(&self, current: MemoryRecord, prev: MemoryRecord) -> bool {
        &&& self.value@ == word_of(current.value)
        &&& self.prev_shard@ == (prev.shard as int) % p()
        &&& self.prev_clk@ == (prev.timestamp as int) % p()
        &&& self.compare_clk@ == (if compare_clk(current, prev) { 1int } else { 0int })
        &&& self.diff_16bit_limb@ == diff_low(current, prev)
        &&& self.diff_8bit_limb@ == diff_high(current, prev)
    }

    /// Every column is zero, as in a fresh row.
    pub open spec fn is_zeroed(&self) -> bool {
        &&& self.value@ == seq![0int, 0, 0, 0]
        &&& self.prev_shard@ == 0
        &&& self.prev_clk@ == 0
        &&& self.compare_clk@ == 0
        &&& self.diff_16bit_limb@ == 0
        &&& self.diff_8bit_limb@ == 0
    }

    pub fn new() -> (r: Self)
        ensures
            r.is_zeroed(),
    {
        MemoryAccessCols {
            value: Word::zero(),
            prev_shard: Felt::zero(),
            prev_clk: Felt::zero(),
            compare_clk: Felt::zero(),
            diff_16bit_limb: Felt::zero(),
            diff_8bit_limb: Felt::zero(),
        }
    }

    /// Fills the columns for an access at `current` whose predecessor on the
    /// same address is `prev`, and appends its two range checks.
    pub fn populate_access(
        &mut self,
        current_record: MemoryRecord,
        prev_record: MemoryRecord,
        new_blu_events: &mut Vec<ByteLookupEvent>,
    )
        requires
            valid_access_order(current_record, prev_record),
        ensures
            final(self).matches(current_record, prev_record),
            final(self).diff_16bit_limb@ + final(self).diff_8bit_limb@ * 65536 == access_diff(
                current_record,
                prev_record,
            ),
            final(new_blu_events)@ == old(new_blu_events)@ + access_events(
                current_record,
                prev_record,
            ),
    {
        self.value = Word::from_u32(current_record.value);
        self.prev_shard = Felt::new(prev_record.shard);
        self.prev_clk = Felt::new(prev_record.timestamp);

        let use_clk_comparison = prev_record.shard == current_record.shard;
        self.compare_clk = Felt::from_bool(use_clk_comparison);
        let prev_time_value = if use_clk_comparison {
            prev_record.timestamp
        } else {
            prev_record.shard
        };
        let current_time_value = if use_clk_comparison {
            current_record.timestamp
        } else {
            current_record.shard
        };

        let diff_minus_one = current_time_value - prev_time_value - 1;
        let diff_16bit_limb = diff_minus_one % 0x10000;
        self.diff_16bit_limb = Felt::new(diff_16bit_limb);
        let diff_8bit_limb = (diff_minus_one / 0x10000) % 0x100;
        self.diff_8bit_limb = Felt::new(diff_8bit_limb);
        proof {
            lemma_diff_limbs(current_record, prev_record);
            crate::field::lemma_canon_mod(diff_16bit_limb as int);
            crate::field::lemma_canon_mod(diff_8bit_limb as int);
        }

        let shard = current_record.shard;
        new_blu_events.push(ByteLookupEvent::new(shard, ByteOpcode::U16Range, diff_16bit_limb, 0, 0, 0));
        new_blu_events.push(ByteLookupEvent::new(shard, ByteOpcode::U8Range, 0, 0, 0, diff_8bit_limb));
        assert(new_blu_events@ =~= old(new_blu_events)@ + access_events(current_record, prev_record));
    }
}

/// The columns of a read.
#[derive(Clone, Copy, Debug, PartialEq, Eq)]
pub struct MemoryReadCols {
    pub access: MemoryAccessCols,
}

/// The columns of a write, with the value it overwrote.
#[derive(Clone, Copy, Debug, PartialEq, Eq)]
pub struct MemoryWriteCols {
    pub prev_value: Word,
    pub access: MemoryAccessCols,
}

/// The columns of an access that may be a read or a write.
#[derive(Clone, Copy, Debug, PartialEq, Eq)]
pub struct MemoryReadWriteCols {
    pub prev_value: Word,
    pub access: MemoryAccessCols,
}

impl MemoryWriteCols {
    pub fn new() -> (r: Self)
        ensures
            r.prev_value@ == seq![0int, 0, 0, 0],
            r.access.is_zeroed(),
    {
        MemoryWriteCols { prev_value: Word::zero(), access: MemoryAccessCols::new() }
    }

    pub fn populate(&mut self, record: MemoryWriteRecord, new_blu_events: &mut Vec<ByteLookupEvent>)
        requires
            valid_write(record),
        ensures
            final(self).prev_value@ == word_of(record.prev_value),
            final(self).access.matches(write_current(record), write_prev(record)),
            final(new_blu_events)@ == old(new_blu_events)@ + access_events(
                write_current(record),
                write_prev(record),
            ),
    {
        let current_record = MemoryRecord {
            value: record.value,
            shard: record.shard,
            timestamp: record.timestamp,
        };
        let prev_record = MemoryRecord {
            value: record.prev_value,
            shard: record.prev_shard,
            timestamp: record.prev_timestamp,
        };
        self.prev_value = Word::from_u32(prev_record.value);
        self.access.populate_access(current_record, prev_record, new_blu_events);
    }
}

impl MemoryReadCols {
    pub fn new() -> (r: Self)
        ensures
            r.access.is_zeroed(),
    {
        MemoryReadCols { access: MemoryAccessCols::new() }
    }

    pub fn populate(&mut self, record: MemoryReadRecord, new_blu_events: &mut Vec<ByteLookupEvent>)
        requires
            valid_read(record),
        ensures
            final(self).access.matches(read_current(record), read_prev(record)),
            final(new_blu_events)@ == old(new_blu_events)@ + access_events(
                read_current(record),
                read_prev(record),
            ),
    {
        let current_record = MemoryRecord {
            value: record.value,
            shard: record.shard,
            timestamp: record.timestamp,
        };
        let prev_record = MemoryRecord {
            value: record.value,
            shard: record.prev_shard,
            timestamp: record.prev_timestamp,
        };
        self.access.populate_access(current_record, prev_record, new_blu_events);
    }
}

impl MemoryReadWriteCols {
    pub fn new() -> (r: Self)
        ensures
            r.prev_value@ == seq![0int, 0, 0, 0],
            r.access.is_zeroed(),
    {
        MemoryReadWriteCols { prev_value: Word::zero(), access: MemoryAccessCols::new() }
    }

    /// Fills the columns of a read or a write, whichever the record holds.
    pub fn populate(&mut self, record: MemoryRecordEnum, new_blu_events: &mut Vec<ByteLookupEvent>)
        requires
            valid_record(record),
        ensures
            match record {
                MemoryRecordEnum::Read(r) => {
                    &&& final(self).prev_value@ == word_of(r.value)
                    &&& final(self).access.matches(read_current(r), read_prev(r))
                    &&& final(new_blu_events)@ == old(new_blu_events)@ + access_events(
                        read_current(r),
                        read_prev(r),
                    )
                },
                MemoryRecordEnum::Write(r) => {
                    &&& final(self).prev_value@ == word_of(r.prev_value)
                    &&& final(self).access.matches(write_current(r), write_prev(r))
                    &&& final(new_blu_events)@ == old(new_blu_events)@ + access_events(
                        write_current(r),
                        write_prev(r),
                    )
                },
            },
    {
        match record {
            MemoryRecordEnum::Read(read_record) => {
                self.populate_read(read_record, new_blu_events);
            },
            MemoryRecordEnum::Write(write_record) => {
                self.populate_write(write_record, new_blu_events);
            },
        }
    }

    pub fn populate_write(
        &mut self,
        record: MemoryWriteRecord,
        new_blu_events: &mut Vec<ByteLookupEvent>,
    )
        requires
            valid_write(record),
        ensures
            final(self).prev_value@ == word_of(record.prev_value),
            final(self).access.matches(write_current(record), write_prev(record)),
            final(new_blu_events)@ == old(new_blu_events)@ + access_events(
                write_current(record),
                write_prev(record),
            ),
    {
        let current_record = MemoryRecord {
            value: record.value,
            shard: record.shard,
            timestamp: record.timestamp,
        };
        let prev_record = MemoryRecord {
            value: record.prev_value,
            shard: record.prev_shard,
            timestamp: record.prev_timestamp,
        };
        self.prev_value = Word::from_u32(prev_record.value);
        self.access.populate_access(current_record, prev_record, new_blu_events);
    }

    /// A read records its own value as the previous one.
    pub fn populate_read(
        &mut self,
        record: MemoryReadRecord,
        new_blu_events: &mut Vec<ByteLookupEvent>,
    )
        requires
            valid_read(record),
        ensures
            final(self).prev_value@ == word_of(record.value),
            final(self).access.matches(read_current(record), read_prev(record)),
            final(new_blu_events)@ == old(new_blu_events)@ + access_events(
                read_current(record),
                read_prev(record),
            ),
    {
        let current_record = MemoryRecord {
            value: record.value,
            shard: record.shard,
            timestamp: record.timestamp,
        };
        let prev_record = MemoryRecord {
            value: record.value,
            shard: record.prev_shard,
            timestamp: record.prev_timestamp,
        };
        self.prev_value = Word::from_u32(prev_record.value);
        self.access.populate_access(current_record, prev_record, new_blu_events);
    }
}

} // verus!
