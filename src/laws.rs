//! Laws of the memory engine, stated over the same spec functions as the
//! contracts of `Memory::read` and `Memory::write`.
use vstd::prelude::*;
use crate::engine::{access_step, cell_value, read_error, store_word, write_error, AccessError, Memory};
use crate::word::{be_bytes, lemma_word_round_trip, CELL_SIZE};

verus! {

/// A write at an address that is not a multiple of `CELL_SIZE` is refused as
/// misaligned, whatever the capacity of the store.
pub proof fn lemma_misaligned_write_refused(capacity: nat, address: u64)
    requires
        address % CELL_SIZE != 0,
    ensures
        write_error(capacity, address) == Some(AccessError::Misaligned),
{
}

/// A read at a misaligned address inside the store is refused as misaligned.
pub proof fn lemma_misaligned_read_refused(capacity: nat, address: u64)
    requires
        address % CELL_SIZE != 0,
        address < capacity,
    ensures
        read_error(capacity, address) == Some(AccessError::Misaligned),
{
}

/// A read at or beyond the end of the store is refused as out of range.
pub proof fn lemma_read_past_end_refused(capacity: nat, address: u64)
    requires
        address >= capacity,
    ensures
        read_error(capacity, address) == Some(AccessError::OutOfRange),
{
}

/// An aligned write whose cell would run past the end of the store is refused
/// as out of range.
pub proof fn lemma_write_overrun_refused(capacity: nat, address: u64)
    requires
        address % CELL_SIZE == 0,
        address + CELL_SIZE > capacity,
    ensures
        write_error(capacity, address) == Some(AccessError::OutOfRange),
{
}

/// Writing a word into an aligned cell that lies inside the store and then
/// reading that cell back succeeds both times and yields the word written.
pub proof fn lemma_write_then_read(bytes: Seq<u8>, address: u64, value: u64)
    requires
        address % CELL_SIZE == 0,
        address + CELL_SIZE <= bytes.len(),
    ensures
        write_error(bytes.len(), address) == None::<AccessError>,
        store_word(bytes, address, value).len() == bytes.len(),
        read_error(store_word(bytes, address, value).len(), address) == None::<AccessError>,
        cell_value(store_word(bytes, address, value), address) == value,
{
    lemma_word_round_trip(value);
    let w = store_word(bytes, address, value);
    assert(w.subrange(address as int, address + CELL_SIZE) =~= be_bytes(
        value as nat,
        CELL_SIZE as nat,
    ));
}

/// A write touches only its own cell: every byte outside it keeps its value.
pub proof fn lemma_write_keeps_other_bytes(bytes: Seq<u8>, address: u64, value: u64, i: int)
    requires
        address + CELL_SIZE <= bytes.len(),
        0 <= i < bytes.len(),
        i < address || address + CELL_SIZE <= i,
    ensures
        store_word(bytes, address, value)[i] == bytes[i],
{
    lemma_word_round_trip(value);
}

/// `run` is a sequence of engine states, each reached from the one before by
/// one access.
pub open spec fn run_of_accesses(run: Seq<Memory>) -> bool {
    forall|i: int| 0 <= i < run.len() - 1 ==> access_step(#[trigger] run[i], run[i + 1])
}

proof fn lemma_run_clock_at(run: Seq<Memory>, k: int)
    requires
        run_of_accesses(run),
        run[0].clock() == 0,
        0 <= k < run.len(),
    ensures
        run[k].clock() == k,
    decreases k,
{
    if k > 0 {
        lemma_run_clock_at(run, k - 1);
        assert(access_step(run[k - 1], run[k]));
    }
}

proof fn lemma_run_prefix_at(run: Seq<Memory>, i: int, j: int)
    requires
        run_of_accesses(run),
        0 <= i <= j < run.len(),
    ensures
        run[i].trace().is_prefix_of(run[j].trace()),
    decreases j - i,
{
    if i < j {
        lemma_run_prefix_at(run, i, j - 1);
        assert(access_step(run[j - 1], run[j]));
        let a = run[i].trace();
        let b = run[j - 1].trace();
        let c = run[j].trace();
        assert(a =~= c.subrange(0, a.len() as int)) by {
            assert(b =~= c.subrange(0, b.len() as int));
        }
    } else {
        assert(run[i].trace() =~= run[j].trace().subrange(0, run[i].trace().len() as int));
    }
}

/// Over a run of accesses that starts with the clock at zero, as a fresh
/// engine's is, the clock before
/// the `i`-th access is `i`, successful or not; the trace only ever grows at
/// its end, so earlier entries keep their place; and an entry added by the
/// `i`-th access is stamped with time `i`.
pub proof fn lemma_run_clock_and_trace(run: Seq<Memory>)
    requires
        run.len() > 0,
        run[0].clock() == 0,
        run_of_accesses(run),
    ensures
        forall|i: int| 0 <= i < run.len() ==> (#[trigger] run[i]).clock() == i,
        forall|i: int, j: int|
            0 <= i <= j < run.len() ==> (#[trigger] run[i]).trace().is_prefix_of(
                (#[trigger] run[j]).trace(),
            ),
        forall|i: int|
            0 <= i < run.len() - 1 && (#[trigger] run[i + 1]).trace().len() > run[i].trace().len()
                ==> run[i + 1].trace().last().time_log == i,
{
    assert forall|i: int| 0 <= i < run.len() implies (#[trigger] run[i]).clock() == i by {
        lemma_run_clock_at(run, i);
    }
    assert forall|i: int, j: int| 0 <= i <= j < run.len() implies (
    #[trigger] run[i]).trace().is_prefix_of((#[trigger] run[j]).trace()) by {
        lemma_run_prefix_at(run, i, j);
    }
    assert forall|i: int|
        0 <= i < run.len() - 1 && (#[trigger] run[i + 1]).trace().len() > run[i].trace().len()
        implies run[i + 1].trace().last().time_log == i by {
        lemma_run_clock_at(run, i);
        assert(access_step(run[i], run[i + 1]));
    }
}

} // verus!
