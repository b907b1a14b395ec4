use zkmemory::engine::{AccessError, Memory, MemoryRaw};
use zkmemory::trace::{MemoryAction, MemoryCommitment, MemoryTrace, UntypedValue};
use zkmemory::word::{decode_word, encode_word, CELL_SIZE};

fn engine(size: usize) -> Memory {
    Memory::new(MemoryRaw::new(vec![0u8; size]))
}

fn ok(bits: u64) -> Result<MemoryCommitment, AccessError> {
    Ok(MemoryCommitment { bits })
}

#[test]
fn write_then_read_in_one_cell_store() {
    let mut m = engine(8);
    assert_eq!(m.write(0, 0x123456789ABCDEF0), ok(0x123456789ABCDEF0));
    assert_eq!(m.read(0), ok(0x123456789ABCDEF0));
    assert_eq!(m.write(1, 7), Err(AccessError::Misaligned));
    assert_eq!(m.read(8), Err(AccessError::OutOfRange));
}

#[test]
fn big_endian_layout_of_a_written_word() {
    let mut m = engine(8);
    assert_eq!(m.write(0, 0x00000000000000FF), ok(0xFF));
    assert_eq!(m.memory(), &vec![0, 0, 0, 0, 0, 0, 0, 0xFF]);
    let mut m = engine(16);
    m.write(8, 0x0102030405060708).unwrap();
    assert_eq!(m.memory(), &vec![0, 0, 0, 0, 0, 0, 0, 0, 1, 2, 3, 4, 5, 6, 7, 8]);
}

#[test]
fn read_decodes_initial_image_big_endian() {
    let mut m = Memory::new(MemoryRaw::new(vec![0xDE, 0xAD, 0xBE, 0xEF, 0, 0, 0, 1]));
    assert_eq!(m.read(0), ok(0xDEADBEEF00000001));
}

#[test]
fn misaligned_accesses_fail_and_leave_store_unchanged() {
    let mut m = Memory::new(MemoryRaw::new((0u8..32).collect()));
    let before = m.memory().clone();
    for a in [1u64, 2, 3, 7, 9, 15, 17, 23, 25, 31] {
        assert_eq!(m.read(a), Err(AccessError::Misaligned));
        assert_eq!(m.write(a, 0xFFFF_FFFF_FFFF_FFFF), Err(AccessError::Misaligned));
        assert_eq!(m.memory(), &before);
    }
    assert!(m.memory_trace().is_empty());
    assert_eq!(m.write(1000001, 5), Err(AccessError::Misaligned));
}

#[test]
fn out_of_range_accesses_fail() {
    let mut m = engine(32);
    for a in [32u64, 33, 40, 64, 1000, u64::MAX] {
        assert_eq!(m.read(a), Err(AccessError::OutOfRange));
    }
    for a in [32u64, 40, 1 << 40, u64::MAX - 7] {
        assert_eq!(m.write(a, 1), Err(AccessError::OutOfRange));
    }
    assert_eq!(m.memory(), &vec![0u8; 32]);
    assert!(m.memory_trace().is_empty());
}

#[test]
fn last_cell_is_writable() {
    let mut m = engine(64);
    assert_eq!(m.write(56, 0xAB), ok(0xAB));
    assert_eq!(m.read(56), ok(0xAB));
    assert_eq!(m.write(64, 1), Err(AccessError::OutOfRange));
}

#[test]
fn partial_cell_is_out_of_range() {
    let mut m = engine(12);
    assert_eq!(m.read(8), Err(AccessError::OutOfRange));
    assert_eq!(m.read(9), Err(AccessError::Misaligned));
    assert_eq!(m.read(12), Err(AccessError::OutOfRange));
    assert_eq!(m.write(8, 1), Err(AccessError::OutOfRange));
    assert_eq!(m.write(0, 3), ok(3));
    assert_eq!(m.read(0), ok(3));
}

#[test]
fn empty_store_refuses_everything() {
    let mut m = engine(0);
    assert_eq!(m.read(0), Err(AccessError::OutOfRange));
    assert_eq!(m.write(0, 0), Err(AccessError::OutOfRange));
    assert_eq!(m.time_count(), 2);
}

#[test]
fn round_trip_of_many_values() {
    let mut m = engine(64);
    let values = [0u64, 1, 0xFF, 0x100, 0x8000_0000_0000_0000, u64::MAX, 0x0123_4567_89AB_CDEF];
    for (k, v) in values.iter().enumerate() {
        let a = (k as u64 % 8) * CELL_SIZE;
        assert_eq!(m.write(a, *v), ok(*v));
        assert_eq!(m.read(a), ok(*v));
    }
}

#[test]
fn writes_do_not_overlap_neighbours() {
    let mut m = engine(24);
    m.write(0, u64::MAX).unwrap();
    m.write(16, u64::MAX).unwrap();
    m.write(8, 0x1122334455667788).unwrap();
    assert_eq!(m.read(0), ok(u64::MAX));
    assert_eq!(m.read(8), ok(0x1122334455667788));
    assert_eq!(m.read(16), ok(u64::MAX));
}

#[test]
fn clock_counts_every_call() {
    let mut m = engine(16);
    assert_eq!(m.time_count(), 0);
    let _ = m.write(0, 1);
    let _ = m.read(3);
    let _ = m.write(100, 2);
    let _ = m.read(8);
    let _ = m.write(9, 2);
    assert_eq!(m.time_count(), 5);
    let times: Vec<u64> = m.memory_trace().iter().map(|t| t.time_log).collect();
    assert_eq!(times, vec![0, 3]);
}

#[test]
fn trace_records_successful_calls_in_order() {
    let mut m = engine(64);
    let _ = m.write(8, 0xffaabbcc11002299);
    let _ = m.write(32, 0x123456789abcdef0);
    let _ = m.write(48, 0x9301728932823444);
    assert_eq!(m.read(30), Err(AccessError::Misaligned));
    let _ = m.write(16, 0x1809304287889100);
    assert_eq!(m.read(31), Err(AccessError::Misaligned));
    assert_eq!(m.read(33), Err(AccessError::Misaligned));
    assert_eq!(m.read(32), ok(0x123456789abcdef0));
    assert_eq!(m.time_count(), 8);
    let commits: Vec<u64> = m.commitment().iter().map(|c| c.bits).collect();
    assert_eq!(
        commits,
        vec![0xffaabbcc11002299, 0x123456789abcdef0, 0x9301728932823444, 0x1809304287889100, 0x123456789abcdef0]
    );
    let trace = m.extract_trace();
    let entry = |t: u64, action: MemoryAction, a: u64, v: u64| MemoryTrace {
        time_log: t,
        action,
        address: UntypedValue { bits: a },
        value: UntypedValue { bits: v },
    };
    assert_eq!(
        trace,
        vec![
            entry(0, MemoryAction::Write, 8, 0xffaabbcc11002299),
            entry(1, MemoryAction::Write, 32, 0x123456789abcdef0),
            entry(2, MemoryAction::Write, 48, 0x9301728932823444),
            entry(4, MemoryAction::Write, 16, 0x1809304287889100),
            entry(7, MemoryAction::Read, 32, 0x123456789abcdef0),
        ]
    );
}

#[test]
fn word_codec() {
    assert_eq!(encode_word(0x0102030405060708), vec![1, 2, 3, 4, 5, 6, 7, 8]);
    assert_eq!(encode_word(0), vec![0; 8]);
    let bytes = vec![9, 1, 2, 3, 4, 5, 6, 7, 8, 9];
    assert_eq!(decode_word(&bytes, 1), 0x0102030405060708);
    assert_eq!(decode_word(&bytes, 2), 0x0203040506070809);
    assert_eq!(decode_word(&encode_word(u64::MAX), 0), u64::MAX);
}

#[test]
fn action_codes_and_trace_record() {
    assert_eq!(MemoryAction::Init.code(), 0);
    assert_eq!(MemoryAction::Read.code(), 1);
    assert_eq!(MemoryAction::Write.code(), 2);
    let t = MemoryTrace {
        time_log: 3,
        action: MemoryAction::Write,
        address: UntypedValue { bits: 0x10 },
        value: UntypedValue { bits: 0x0A0B },
    };
    let r = t.to_bytes();
    assert_eq!(r.len(), 3 * CELL_SIZE as usize + 1);
    assert_eq!(
        r,
        vec![0, 0, 0, 0, 0, 0, 0, 3, 2, 0, 0, 0, 0, 0, 0, 0, 0x10, 0, 0, 0, 0, 0, 0, 0x0A, 0x0B]
    );
}

#[test]
fn commitment_carries_the_word() {
    assert_eq!(MemoryCommitment::commit(42), MemoryCommitment { bits: 42 });
}
