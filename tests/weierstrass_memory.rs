//! The memory accesses of an elliptic-curve add syscall: 16 words of `q` are
//! read at `clk`, then 16 words of `p` are written at `clk + 1`.
use sp1_core::memory::{
    ByteOpcode, MemoryReadCols, MemoryReadRecord, MemoryWriteCols, MemoryWriteRecord,
};

const WORDS_CURVE_POINT: usize = 16;

struct AddAccesses {
    q_access: Vec<MemoryReadCols>,
    p_access: Vec<MemoryWriteCols>,
    events: Vec<sp1_core::memory::ByteLookupEvent>,
}

fn populate_add(
    shard: u32,
    clk: u32,
    q_words: &[u32],
    p_before: &[u32],
    p_after: &[u32],
    q_prev: (u32, u32),
    p_prev: (u32, u32),
) -> AddAccesses {
    let mut events = Vec::new();
    let mut q_access = Vec::new();
    for i in 0..WORDS_CURVE_POINT {
        let mut cols = MemoryReadCols::new();
        cols.populate(
            MemoryReadRecord {
                value: q_words[i],
                shard,
                timestamp: clk,
                prev_shard: q_prev.0,
                prev_timestamp: q_prev.1,
            },
            &mut events,
        );
        q_access.push(cols);
    }
    let mut p_access = Vec::new();
    for i in 0..WORDS_CURVE_POINT {
        let mut cols = MemoryWriteCols::new();
        cols.populate(
            MemoryWriteRecord {
                value: p_after[i],
                shard,
                timestamp: clk + 1,
                prev_value: p_before[i],
                prev_shard: p_prev.0,
                prev_timestamp: p_prev.1,
            },
            &mut events,
        );
        p_access.push(cols);
    }
    AddAccesses { q_access, p_access, events }
}

fn words(seed: u32) -> Vec<u32> {
    (0..WORDS_CURVE_POINT as u32)
        .map(|i| seed.wrapping_mul(2654435761).wrapping_add(i * 0x0101_0101))
        .collect()
}

fn check_add(shard: u32, clk: u32, q_prev: (u32, u32), p_prev: (u32, u32), q_diff: u32, p_diff: u32) {
    let q = words(1);
    let p = words(2);
    let r = words(3);
    let acc = populate_add(shard, clk, &q, &p, &r, q_prev, p_prev);
    assert_eq!(acc.events.len(), 4 * WORDS_CURVE_POINT);
    for i in 0..WORDS_CURVE_POINT {
        let qa = &acc.q_access[i].access;
        assert_eq!(qa.diff_16bit_limb.value() | (qa.diff_8bit_limb.value() << 16), q_diff);
        assert_eq!(qa.value.0[0].value(), q[i] & 0xff);
        let pa = &acc.p_access[i];
        assert_eq!(pa.access.diff_16bit_limb.value() | (pa.access.diff_8bit_limb.value() << 16), p_diff);
        assert_eq!(pa.prev_value.0[3].value(), p[i] >> 24);
        assert_eq!(pa.access.value.0[3].value(), r[i] >> 24);
    }
    for pair in acc.events.chunks(2) {
        assert_eq!(pair[0].opcode, ByteOpcode::U16Range);
        assert_eq!(pair[1].opcode, ByteOpcode::U8Range);
        assert_eq!(pair[0].shard, shard);
    }
}

#[test]
fn test_secp256k1_add_simple() {
    // Both points were last touched earlier in the same shard.
    check_add(1, 100, (1, 40), (1, 40), 59, 60);
}

#[test]
fn test_bn254_add_simple() {
    // Both points were last touched in an earlier shard.
    check_add(2, 8, (1, 900), (0, 77), 0, 1);
}

fn check_repeated_adds(shard: u32, start_clk: u32, step: u32, rounds: u32) {
    let q = words(5);
    let mut p = words(6);
    let mut p_prev = (shard, 1u32);
    let mut q_prev = (shard, 1u32);
    for k in 0..rounds {
        let clk = start_clk + k * step;
        let next = words(100 + k);
        let acc = populate_add(shard, clk, &q, &p, &next, q_prev, p_prev);
        for i in 0..WORDS_CURVE_POINT {
            let pa = &acc.p_access[i].access;
            let d = pa.diff_16bit_limb.value() | (pa.diff_8bit_limb.value() << 16);
            assert_eq!(d, clk + 1 - p_prev.1 - 1);
            assert_eq!(pa.prev_clk.value(), p_prev.1);
            let qa = &acc.q_access[i].access;
            let d = qa.diff_16bit_limb.value() | (qa.diff_8bit_limb.value() << 16);
            assert_eq!(d, clk - q_prev.1 - 1);
        }
        p = next;
        p_prev = (shard, clk + 1);
        q_prev = (shard, clk);
    }
    assert_eq!(p, words(100 + rounds - 1));
}

#[test]
fn test_bn254_mul_simple() {
    check_repeated_adds(1, 20, 8, 12);
}

#[test]
fn test_secp256k1_mul_simple() {
    check_repeated_adds(3, 1000, 70000, 6);
}
