//! The values that an access hands back and the entries of the access trace.
use vstd::prelude::*;
use crate::word::{be_bytes, encode_word, CELL_SIZE};

verus! {

/// A machine word, used alike for addresses and for data.
#[derive(Clone, Copy, Debug, PartialEq, Eq, Structural)]
pub struct UntypedValue {
    pub bits: u64,
}

/// The kinds of memory access that a trace can record.
#[derive(Clone, Copy, Debug, PartialEq, Eq, Structural)]
pub enum MemoryAction {
    Init,
    Read,
    Write,
}

/// The one-byte code of an action in a serialized trace record.
pub open spec fn action_code(a: MemoryAction) -> u8 {
    match a {
        MemoryAction::Init => 0,
        MemoryAction::Read => 1,
        MemoryAction::Write => 2,
    }
}

impl MemoryAction {
    /// The one-byte code of this action: `0` for `Init`, `1` for `Read`, `2` for `Write`.
    pub fn code(&self) -> (r: u8)
        ensures
            r == action_code(*self),
    {
        match self {
            MemoryAction::Init => 0,
            MemoryAction::Read => 1,
            MemoryAction::Write => 2,
        }
    }
}

/// One recorded access: when it happened, what it was, where, and which word moved.
#[derive(Clone, Copy, Debug, PartialEq, Eq, Structural)]
pub struct MemoryTrace {
    pub time_log: u64,
    pub action: MemoryAction,
    pub address: UntypedValue,
    pub value: UntypedValue,
}

/// The fixed-width record of a trace entry: time, action code, address and value,
/// each word big-endian.
pub open spec fn trace_record(t: MemoryTrace) -> Seq<u8> {
    be_bytes(t.time_log as nat, CELL_SIZE as nat)
        + seq![action_code(t.action)]
        + be_bytes(t.address.bits as nat, CELL_SIZE as nat)
        + be_bytes(t.value.bits as nat, CELL_SIZE as nat)
}

fn append_bytes(out: &mut Vec<u8>, src: Vec<u8>)
    ensures
        final(out)@ == old(out)@ + src@,
{
    let mut i: usize = 0;
    while i < src.len()
        invariant
            i <= src@.len(),
            out@ == old(out)@ + src@.subrange(0, i as int),
        decreases src@.len() - i,
    {
        out.push(src[i]);
        i = i + 1;
        assert(out@ =~= old(out)@ + src@.subrange(0, i as int));
    }
    assert(src@.subrange(0, src@.len() as int) =~= src@);
}

impl MemoryTrace {
    /// Serializes this entry as a fixed-width record of `3 * CELL_SIZE + 1` bytes.
    pub fn to_bytes(&self) -> (r: Vec<u8>)
        ensures
            r@ == trace_record(*self),
    {
        let mut out: Vec<u8> = encode_word(self.time_log);
        out.push(self.action.code());
        append_bytes(&mut out, encode_word(self.address.bits));
        append_bytes(&mut out, encode_word(self.value.bits));
        assert(out@ =~= trace_record(*self));
        out
    }
}

/// A stand-in for a cryptographic digest of a memory access. In this design it
/// carries the word that the access read or wrote.
#[derive(Clone, Copy, Debug, PartialEq, Eq, Structural)]
pub struct MemoryCommitment {
    pub bits: u64,
}

impl MemoryCommitment {
    /// The commitment to an access that moved the word `value`.
    pub fn commit(value: u64) -> (r: MemoryCommitment)
        ensures
            r == commitment_of(value),
    {
        MemoryCommitment { bits: value }
    }
}

/// The commitment that an access moving the word `value` yields.
pub open spec fn commitment_of(value: u64) -> MemoryCommitment {
    MemoryCommitment { bits: value }
}

} // verus!
