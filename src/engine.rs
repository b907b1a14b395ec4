//! The memory engine: validated word reads and writes over a byte store, a
//! logical clock, and the trace of every successful access.
use vstd::prelude::*;
use crate::trace::{commitment_of, MemoryAction, MemoryCommitment, MemoryTrace, UntypedValue};
use crate::word::{be_bytes, be_value, decode_word, encode_word, lemma_be_bytes_len, CELL_SIZE};

verus! {

/// Why an access was refused.
#[derive(Clone, Copy, Debug, PartialEq, Eq, Structural)]
pub enum AccessError {
    /// The cell lies wholly or partly outside the store.
    OutOfRange,
    /// The address is not a multiple of `CELL_SIZE`.
    Misaligned,
}

/// The error, if any, of a read at `address` from a store of `capacity` bytes.
/// Bounds are tested before alignment; a cell that starts inside the store
/// but runs past its end is out of range as well.
pub open spec fn read_error(capacity: nat, address: u64) -> Option<AccessError> {
    if address >= capacity {
        Some(AccessError::OutOfRange)
    } else if address % CELL_SIZE != 0 {
        Some(AccessError::Misaligned)
    } else if address + CELL_SIZE > capacity {
        Some(AccessError::OutOfRange)
    } else {
        None
    }
}

/// The error, if any, of a write at `address` into a store of `capacity` bytes.
/// Alignment is tested before bounds; the whole cell must fit, so the last
/// cell of the store is writable.
pub open spec fn write_error(capacity: nat, address: u64) -> Option<AccessError> {
    if address % CELL_SIZE != 0 {
        Some(AccessError::Misaligned)
    } else if address + CELL_SIZE > capacity {
        Some(AccessError::OutOfRange)
    } else {
        None
    }
}

/// The number spelled big-endian by the cell of `bytes` at `address`.
pub open spec fn cell_value(bytes: Seq<u8>, address: u64) -> nat {
    be_value(bytes.subrange(address as int, address + CELL_SIZE))
}

/// `bytes` with the cell at `address` overwritten by the big-endian encoding of `value`.
pub open spec fn store_word(bytes: Seq<u8>, address: u64, value: u64) -> Seq<u8> {
    bytes.subrange(0, address as int) + be_bytes(value as nat, CELL_SIZE as nat)
        + bytes.subrange(address + CELL_SIZE, bytes.len() as int)
}

/// The trace entry of an access at logical time `time`.
pub open spec fn trace_entry(time: nat, action: MemoryAction, address: u64, value: u64) -> MemoryTrace {
    MemoryTrace {
        time_log: time as u64,
        action,
        address: UntypedValue { bits: address },
        value: UntypedValue { bits: value },
    }
}

/// One access as the engine performs it, whatever its outcome: the clock
/// advances by one, and the trace either stays as it was or gains one entry
/// stamped with the time before the access.
pub open spec fn access_step(pre: Memory, post: Memory) -> bool {
    &&& post.clock() == pre.clock() + 1
    &&& post.trace().len() <= pre.trace().len() + 1
    &&& pre.trace().is_prefix_of(post.trace())
    &&& post.trace().len() > pre.trace().len() ==> post.trace().last().time_log == pre.clock()
}

/// The backing bytes of a memory together with its append-only access trace.
pub struct MemoryRaw {
    memory_raw: Vec<u8>,
    memory_trace: Vec<MemoryTrace>,
}

impl MemoryRaw {
    /// The current contents of the store.
    pub closed spec fn bytes(&self) -> Seq<u8> {
        self.memory_raw@
    }

    /// The entries recorded so far, oldest first.
    pub closed spec fn trace(&self) -> Seq<MemoryTrace> {
        self.memory_trace@
    }

    /// A store holding `memory` as its initial image, with an empty trace.
    /// Its capacity is the length of `memory`.
    pub fn new(memory: Vec<u8>) -> (r: MemoryRaw)
        ensures
            r.bytes() == memory@,
            r.trace() == Seq::<MemoryTrace>::empty(),
    {
        MemoryRaw { memory_raw: memory, memory_trace: Vec::new() }
    }

    fn store_cell(&mut self, start: usize, value: u64)
        requires
            start + CELL_SIZE <= old(self).bytes().len(),
        ensures
            final(self).bytes() == store_word(old(self).bytes(), start as u64, value),
            final(self).trace() == old(self).trace(),
    {
        let cell = encode_word(value);
        proof {
            lemma_be_bytes_len(value as nat, CELL_SIZE as nat);
        }
        let len: usize = self.memory_raw.len();
        let mut k: usize = 0;
        while k < 8
            invariant
                k <= 8,
                len == self.memory_raw@.len(),
                cell@.len() == 8,
                cell@ == be_bytes(value as nat, CELL_SIZE as nat),
                start + 8 <= old(self).bytes().len(),
                self.memory_trace@ == old(self).memory_trace@,
                self.memory_raw@.len() == old(self).memory_raw@.len(),
                forall|i: int|
                    0 <= i < self.memory_raw@.len() ==> #[trigger] self.memory_raw@[i] == if start <= i
                        < start + k {
                        cell@[i - start]
                    } else {
                        old(self).memory_raw@[i]
                    },
            decreases 8 - k,
        {
            self.memory_raw.set(start + k, cell[k]);
            k = k + 1;
        }
        assert(self.memory_raw@ =~= store_word(old(self).bytes(), start as u64, value));
    }

    fn load_cell(&self, start: usize) -> (r: u64)
        requires
            start + CELL_SIZE <= self.bytes().len(),
        ensures
            r == cell_value(self.bytes(), start as u64),
    {
        decode_word(&self.memory_raw, start)
    }
}

/// The memory engine. It owns its store, a logical clock that every access
/// advances, and one commitment for each successful access.
pub struct Memory {
    time_count: u64,
    raw: MemoryRaw,
    commitment: Vec<MemoryCommitment>,
}

impl Memory {
    /// The logical time that the next access will take.
    pub closed spec fn clock(&self) -> nat {
        self.time_count as nat
    }

    /// The current contents of the store.
    pub closed spec fn bytes(&self) -> Seq<u8> {
        self.raw.bytes()
    }

    /// The trace of successful accesses, oldest first.
    pub closed spec fn trace(&self) -> Seq<MemoryTrace> {
        self.raw.trace()
    }

    /// The commitments of successful accesses, oldest first.
    pub closed spec fn commitments(&self) -> Seq<MemoryCommitment> {
        self.commitment@
    }

    /// The engine's invariant: trace times are strictly increasing and all
    /// earlier than the clock, and each trace entry has its commitment.
    pub open spec fn wf(&self) -> bool {
        &&& forall|i: int, j: int|
            0 <= i < j < self.trace().len() ==> (#[trigger] self.trace()[i]).time_log
                < (#[trigger] self.trace()[j]).time_log
        &&& forall|i: int|
            0 <= i < self.trace().len() ==> (#[trigger] self.trace()[i]).time_log < self.clock()
        &&& self.commitments().len() == self.trace().len()
        &&& forall|i: int|
            0 <= i < self.trace().len() ==> #[trigger] self.commitments()[i] == commitment_of(
                self.trace()[i].value.bits,
            )
    }

    /// An engine over the bytes of `raw_memory`, with its clock at zero and an
    /// empty trace.
    pub fn new(raw_memory: MemoryRaw) -> (r: Memory)
        ensures
            r.wf(),
            r.clock() == 0,
            r.bytes() == raw_memory.bytes(),
            r.trace() == Seq::<MemoryTrace>::empty(),
            r.commitments() == Seq::<MemoryCommitment>::empty(),
    {
        let raw = MemoryRaw { memory_raw: raw_memory.memory_raw, memory_trace: Vec::new() };
        Memory { time_count: 0u64, raw, commitment: Vec::new() }
    }

    /// Records a successful access at the current time and advances the clock.
    fn log_access(&mut self, action: MemoryAction, address: u64, value: u64) -> (r: MemoryCommitment)
        requires
            old(self).wf(),
            old(self).clock() < u64::MAX,
        ensures
            final(self).wf(),
            r == commitment_of(value),
            final(self).clock() == old(self).clock() + 1,
            access_step(*old(self), *final(self)),
            final(self).bytes() == old(self).bytes(),
            final(self).trace() == old(self).trace().push(
                trace_entry(old(self).clock(), action, address, value),
            ),
            final(self).commitments() == old(self).commitments().push(commitment_of(value)),
    {
        let entry = MemoryTrace {
            time_log: self.time_count,
            action,
            address: UntypedValue { bits: address },
            value: UntypedValue { bits: value },
        };
        self.raw.memory_trace.push(entry);
        let c = MemoryCommitment::commit(value);
        self.commitment.push(c);
        self.time_count = self.time_count + 1;
        assert(old(self).trace().is_prefix_of(self.trace()));
        c
    }

    /// Advances the clock for an access that was refused.
    fn tick(&mut self)
        requires
            old(self).wf(),
            old(self).clock() < u64::MAX,
        ensures
            final(self).wf(),
            final(self).clock() == old(self).clock() + 1,
            access_step(*old(self), *final(self)),
            final(self).bytes() == old(self).bytes(),
            final(self).trace() == old(self).trace(),
            final(self).commitments() == old(self).commitments(),
    {
        self.time_count = self.time_count + 1;
        assert(old(self).trace().is_prefix_of(self.trace()));
    }

    /// Reads the word in the cell at `address`. The access takes one step of
    /// the clock whether or not it succeeds; a successful read is traced.
    pub fn read(&mut self, address: u64) -> (r: Result<MemoryCommitment, AccessError>)
        requires
            old(self).wf(),
            old(self).clock() < u64::MAX,
        ensures
            final(self).wf(),
            final(self).clock() == old(self).clock() + 1,
            access_step(*old(self), *final(self)),
            final(self).bytes() == old(self).bytes(),
            match read_error(old(self).bytes().len(), address) {
                Some(e) => {
                    &&& r == Err::<MemoryCommitment, AccessError>(e)
                    &&& final(self).trace() == old(self).trace()
                    &&& final(self).commitments() == old(self).commitments()
                },
                None => {
                    let v = cell_value(old(self).bytes(), address) as u64;
                    &&& r == Ok::<MemoryCommitment, AccessError>(commitment_of(v))
                    &&& final(self).trace() == old(self).trace().push(
                        trace_entry(old(self).clock(), MemoryAction::Read, address, v),
                    )
                    &&& final(self).commitments() == old(self).commitments().push(
                        commitment_of(v),
                    )
                },
            },
    {
        let capacity: u64 = self.raw.memory_raw.len() as u64;
        if address >= capacity {
            self.tick();
            return Err(AccessError::OutOfRange);
        }
        if address % CELL_SIZE != 0 {
            self.tick();
            return Err(AccessError::Misaligned);
        }
        if capacity - address < CELL_SIZE {
            self.tick();
            return Err(AccessError::OutOfRange);
        }
        let value = self.raw.load_cell(address as usize);
        let c = self.log_access(MemoryAction::Read, address, value);
        Ok(c)
    }

    /// Writes `value` big-endian into the cell at `address`. The access takes
    /// one step of the clock whether or not it succeeds; a refused write leaves
    /// the store as it was, and a successful one is traced.
    pub fn write(&mut self, address: u64, value: u64) -> (r: Result<MemoryCommitment, AccessError>)
        requires
            old(self).wf(),
            old(self).clock() < u64::MAX,
        ensures
            final(self).wf(),
            final(self).clock() == old(self).clock() + 1,
            access_step(*old(self), *final(self)),
            match write_error(old(self).bytes().len(), address) {
                Some(e) => {
                    &&& r == Err::<MemoryCommitment, AccessError>(e)
                    &&& final(self).bytes() == old(self).bytes()
                    &&& final(self).trace() == old(self).trace()
                    &&& final(self).commitments() == old(self).commitments()
                },
                None => {
                    &&& r == Ok::<MemoryCommitment, AccessError>(commitment_of(value))
                    &&& final(self).bytes() == store_word(old(self).bytes(), address, value)
                    &&& final(self).trace() == old(self).trace().push(
                        trace_entry(old(self).clock(), MemoryAction::Write, address, value),
                    )
                    &&& final(self).commitments() == old(self).commitments().push(
                        commitment_of(value),
                    )
                },
            },
    {
        let capacity: u64 = self.raw.memory_raw.len() as u64;
        if address % CELL_SIZE != 0 {
            self.tick();
            return Err(AccessError::Misaligned);
        }
        if address > capacity || capacity - address < CELL_SIZE {
            self.tick();
            return Err(AccessError::OutOfRange);
        }
        self.raw.store_cell(address as usize, value);
        let c = self.log_access(MemoryAction::Write, address, value);
        Ok(c)
    }

    /// Hands over the trace of successful accesses, oldest first, and gives
    /// up the engine.
    pub fn extract_trace(self) -> (r: Vec<MemoryTrace>)
        ensures
            r@ == self.trace(),
    {
        self.raw.memory_trace
    }

    /// The trace of successful accesses so far, oldest first.
    pub fn memory_trace(&self) -> (r: &Vec<MemoryTrace>)
        ensures
            r@ == self.trace(),
    {
        &self.raw.memory_trace
    }

    /// The current contents of the store.
    pub fn memory(&self) -> (r: &Vec<u8>)
        ensures
            r@ == self.bytes(),
    {
        &self.raw.memory_raw
    }

    /// The logical time that the next access will take.
    pub fn time_count(&self) -> (r: u64)
        ensures
            r == self.clock(),
    {
        self.time_count
    }

    /// The commitments of successful accesses so far, oldest first.
    pub fn commitment(&self) -> (r: &Vec<MemoryCommitment>)
        ensures
            r@ == self.commitments(),
    {
        &self.commitment
    }
}

} // verus!
