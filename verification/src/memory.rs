//! The sandbox boundary: linear memory, the arena allocator, and the
//! transport adapter that marshals raw request and response buffers.
//!
//! Memory is an addressable byte buffer the host reads and writes by offset.
//! `allocate` hands out fresh regions from a bump arena and records each
//! allocation with its size; `deallocate` accepts exactly a recorded
//! pointer/size pair, so mismatched sizes are ruled out by contract.
//! `apply` reads the request bytes, runs the executor, writes the response
//! into a fresh buffer, and publishes its address and length through two
//! 32-bit little-endian out-slots; ownership of that buffer passes to the
//! caller, and the input buffer is never freed by the adapter.

use vstd::prelude::*;

use vstd::pervasive::VecAdditionalExecFns;

use crate::executor::{spec_execute, UPDATE_LIMIT};

verus! {

/// Value of four little-endian bytes.
pub open spec fn word_of(b: Seq<u8>) -> int {
    b[0] + 256 * (b[1] + 256 * (b[2] + 256 * b[3]))
}

/// The four little-endian bytes of a 32-bit value.
pub open spec fn le_bytes(w: u32) -> Seq<u8> {
    seq![
        (w % 256) as u8,
        ((w / 256) % 256) as u8,
        ((w / 65536) % 256) as u8,
        ((w / 16777216) % 256) as u8,
    ]
}

/// Little-endian bytes decode back to the value they encode.
pub proof fn lemma_word_le(w: u32)
    ensures
        word_of(le_bytes(w)) == w,
{
    let b = le_bytes(w);
    assert(b[0] == (w % 256) as u8);
    assert(word_of(b) == (w % 256) + 256 * (((w / 256) % 256) + 256 * (((w / 65536) % 256) + 256
        * ((w / 16777216) % 256))));
    assert((w % 256) + 256 * (((w / 256) % 256) + 256 * (((w / 65536) % 256) + 256 * ((w
        / 16777216) % 256))) == w) by (nonlinear_arith);
}

/// The sandbox-side transport: allocate, release, and apply over one linear
/// memory.
pub trait GuestInterface: Sized {
    /// The allocator and memory are in a usable state.
    spec fn abi_ok(&self) -> bool;

    /// The bytes of linear memory.
    spec fn abi_mem(&self) -> Seq<u8>;

    /// The arena's bump offset: everything below it is handed out or was.
    spec fn abi_next(&self) -> int;

    /// The live allocations: pointer to size.
    spec fn abi_live(&self) -> Map<int, int>;

    /// The response this sandbox computes for a request payload.
    spec fn abi_response(input: Seq<u8>) -> Seq<u8>;

    /// Reserve `size` fresh bytes at the bump offset; success is owed
    /// whenever the offset plus `size` fits the machine word, and failure
    /// changes nothing.
    fn allocate(&mut self, size: usize) -> (r: Option<usize>)
        requires
            old(self).abi_ok(),
            size >= 1,
        ensures
            final(self).abi_ok(),
            match r {
                Some(p) => {
                    &&& p == old(self).abi_next()
                    &&& p + size <= usize::MAX
                    &&& final(self).abi_next() == p + size
                    &&& p + size <= final(self).abi_mem().len()
                    &&& final(self).abi_mem().len() >= old(self).abi_mem().len()
                    &&& forall|i: int|
                        0 <= i < old(self).abi_mem().len() ==> final(self).abi_mem()[i] == old(self).abi_mem()[i]
                    &&& final(self).abi_live() == old(self).abi_live().insert(
                        p as int,
                        size as int,
                    )
                },
                None => *final(self) == *old(self) && old(self).abi_next() + size
                    > usize::MAX,
            },
    ;

    /// Release a region previously returned by `allocate`, with the identical
    /// size.  Memory contents are untouched; only the record is dropped.
    fn deallocate(&mut self, ptr: usize, size: usize)
        requires
            old(self).abi_ok(),
            old(self).abi_live().contains_pair(ptr as int, size as int),
        ensures
            final(self).abi_ok(),
            final(self).abi_mem() == old(self).abi_mem(),
            final(self).abi_next() == old(self).abi_next(),
            final(self).abi_live() == old(self).abi_live().remove(ptr as int),
    ;

    /// Run one request: read `in_size` bytes at `in_ptr`, compute the
    /// response, allocate a fresh output buffer, write the response into
    /// it, and publish its address and length through the two out-slots.
    /// Failure changes nothing, and success is owed whenever the response
    /// is non-empty and the arena offset plus its length fits the 32-bit
    /// publishing convention.  The input buffer and the live-allocation
    /// record of every caller-held region are untouched either way.
    fn apply(&mut self, in_ptr: usize, in_size: usize, out_ptr_slot: usize, out_size_slot: usize)
        -> (ok: bool)
        requires
            old(self).abi_ok(),
            in_ptr + in_size <= old(self).abi_mem().len(),
            out_ptr_slot + 4 <= old(self).abi_next(),
            out_size_slot + 4 <= old(self).abi_next(),
            old(self).abi_next() <= old(self).abi_mem().len(),
            out_ptr_slot + 4 <= out_size_slot || out_size_slot + 4 <= out_ptr_slot,
        ensures
            final(self).abi_ok(),
            ({
                let input = old(self).abi_mem().subrange(in_ptr as int, in_ptr + in_size);
                let out = Self::abi_response(input);
                let p = old(self).abi_next();
                &&& (!ok ==> *final(self) == *old(self))
                &&& (1 <= out.len() && p + out.len() <= u32::MAX ==> ok)
                &&& ok ==> {
                    &&& 0 <= p <= u32::MAX
                    &&& out.len() <= u32::MAX
                    &&& p + out.len() <= usize::MAX
                    &&& p + out.len() <= final(self).abi_mem().len()
                    &&& final(self).abi_next() == p + out.len()
                    &&& final(self).abi_mem().subrange(p, p + out.len()) == out
                    &&& word_of(
                        final(self).abi_mem().subrange(out_ptr_slot as int, out_ptr_slot + 4),
                    ) == p
                    &&& word_of(
                        final(self).abi_mem().subrange(out_size_slot as int, out_size_slot + 4),
                    ) == out.len()
                    &&& final(self).abi_live() == old(self).abi_live().insert(p, out.len() as int)
                    &&& forall|i: int|
                        0 <= i < old(self).abi_next() && !(out_ptr_slot <= i < out_ptr_slot + 4)
                            && !(out_size_slot <= i < out_size_slot + 4)
                            ==> final(self).abi_mem()[i] == old(self).abi_mem()[i]
                }
            }),
    ;

    /// Copy `data` into memory at `ptr`.
    fn write(&mut self, ptr: usize, data: &Vec<u8>)
        requires
            old(self).abi_ok(),
            ptr + data@.len() <= old(self).abi_mem().len(),
        ensures
            final(self).abi_ok(),
            final(self).abi_mem().len() == old(self).abi_mem().len(),
            final(self).abi_next() == old(self).abi_next(),
            final(self).abi_live() == old(self).abi_live(),
            final(self).abi_mem().subrange(ptr as int, ptr + data@.len()) == data@,
            forall|i: int|
                0 <= i < old(self).abi_mem().len() && !(ptr <= i < ptr + data@.len())
                    ==> final(self).abi_mem()[i] == old(self).abi_mem()[i],
    ;

    /// Copy `len` bytes out of memory at `ptr`.
    fn read(&self, ptr: usize, len: usize) -> (r: Vec<u8>)
        requires
            self.abi_ok(),
            ptr + len <= self.abi_mem().len(),
        ensures
            r@ == self.abi_mem().subrange(ptr as int, ptr + len),
    ;

    /// Read a 32-bit little-endian word at `ptr`.
    fn read_word(&self, ptr: usize) -> (r: u32)
        requires
            self.abi_ok(),
            ptr + 4 <= self.abi_mem().len(),
        ensures
            r == word_of(self.abi_mem().subrange(ptr as int, ptr + 4)),
    ;
}

/// One sandbox instance: a linear memory with a bump arena.
pub struct SandboxMemory {
    mem: Vec<u8>,
    next: usize,
    live: Ghost<Map<int, int>>,
}

impl SandboxMemory {
    /// A fresh instance with `size` bytes of zeroed memory.
    pub fn new(size: usize) -> (r: SandboxMemory)
        ensures
            r.abi_ok(),
            r.abi_mem().len() == size,
            r.abi_next() == 0,
            r.abi_live() == Map::<int, int>::empty(),
    {
        let mut mem: Vec<u8> = Vec::new();
        mem.resize(size, 0);
        SandboxMemory { mem, next: 0, live: Ghost(Map::empty()) }
    }



    /// Write a 32-bit little-endian word at `ptr`.
    pub fn write_word(&mut self, ptr: usize, w: u32)
        requires
            old(self).abi_ok(),
            ptr + 4 <= old(self).abi_mem().len(),
        ensures
            final(self).abi_ok(),
            final(self).abi_mem().len() == old(self).abi_mem().len(),
            final(self).abi_next() == old(self).abi_next(),
            final(self).abi_live() == old(self).abi_live(),
            final(self).abi_mem().subrange(ptr as int, ptr + 4) == le_bytes(w),
            word_of(final(self).abi_mem().subrange(ptr as int, ptr + 4)) == w,
            forall|i: int|
                0 <= i < old(self).abi_mem().len() && !(ptr <= i < ptr + 4) ==> final(self).abi_mem()[i] == old(self).abi_mem()[i],
    {
        let mut bytes: Vec<u8> = Vec::new();
        bytes.push((w % 256) as u8);
        bytes.push(((w / 256) % 256) as u8);
        bytes.push(((w / 65536) % 256) as u8);
        bytes.push(((w / 16777216) % 256) as u8);
        proof {
            assert(bytes@ =~= le_bytes(w));
            lemma_word_le(w);
        }
        self.write(ptr, &bytes);
    }

}

impl GuestInterface for SandboxMemory {
    closed spec fn abi_ok(&self) -> bool {
        self.next <= self.mem@.len()
    }

    closed spec fn abi_mem(&self) -> Seq<u8> {
        self.mem@
    }

    closed spec fn abi_next(&self) -> int {
        self.next as int
    }

    closed spec fn abi_live(&self) -> Map<int, int> {
        self.live@
    }

    open spec fn abi_response(input: Seq<u8>) -> Seq<u8> {
        spec_execute(input, UPDATE_LIMIT as nat)
    }

    fn allocate(&mut self, size: usize) -> (r: Option<usize>) {
        if size > usize::MAX - self.next {
            return None;
        }
        let p = self.next;
        let new_end = self.next + size;
        if new_end > self.mem.len() {
            self.mem.resize(new_end, 0);
        }
        self.next = new_end;
        proof {
            self.live@ = self.live@.insert(p as int, size as int);
        }
        Some(p)
    }

    fn deallocate(&mut self, ptr: usize, size: usize) {
        proof {
            self.live@ = self.live@.remove(ptr as int);
        }
    }

    fn write(&mut self, ptr: usize, data: &Vec<u8>)
    {
        proof {
            assert(self.mem.len() == self.mem@.len());
        }
        let mut i: usize = 0;
        while i < data.len()
            invariant
                i <= data@.len(),
                ptr + data@.len() <= self.mem@.len(),
                self.mem@.len() == old(self).mem@.len(),
                self.next == old(self).next,
                self.live == old(self).live,
                self.mem.len() == self.mem@.len(),
                forall|j: int| 0 <= j < i ==> self.mem@[ptr + j] == data@[j],
                forall|j: int|
                    0 <= j < self.mem@.len() && !(ptr <= j < ptr + i) ==> self.mem@[j] == old(self).mem@[j],
            decreases data.len() - i,
        {
            let b = data[i];
            self.mem.set(ptr + i, b);
            i = i + 1;
        }
        proof {
            assert(self.mem@.subrange(ptr as int, ptr + data@.len()) =~= data@);
        }
    }

    fn read(&self, ptr: usize, len: usize) -> (r: Vec<u8>)
    {
        proof {
            assert(self.mem.len() == self.mem@.len());
        }
        let mut out: Vec<u8> = Vec::new();
        let mut i: usize = 0;
        while i < len
            invariant
                i <= len,
                ptr + len <= self.mem@.len(),
                self.mem.len() == self.mem@.len(),
                out@ =~= self.mem@.subrange(ptr as int, ptr + i),
            decreases len - i,
        {
            out.push(self.mem[ptr + i]);
            proof {
                assert(out@ =~= self.mem@.subrange(ptr as int, ptr + i + 1));
            }
            i = i + 1;
        }
        proof {
            assert(out@ =~= self.mem@.subrange(ptr as int, ptr + len));
        }
        out
    }

    fn read_word(&self, ptr: usize) -> (r: u32)
    {
        proof {
            assert(self.mem.len() == self.mem@.len());
        }
        let b0 = self.mem[ptr] as u32;
        let b1 = self.mem[ptr + 1] as u32;
        let b2 = self.mem[ptr + 2] as u32;
        let b3 = self.mem[ptr + 3] as u32;
        let r = b0 + 256 * (b1 + 256 * (b2 + 256 * b3));
        proof {
            let s = self.abi_mem().subrange(ptr as int, ptr + 4);
            assert(s[0] == self.mem@[ptr as int]);
            assert(s[1] == self.mem@[ptr + 1]);
            assert(s[2] == self.mem@[ptr + 2]);
            assert(s[3] == self.mem@[ptr + 3]);
        }
        r
    }

    fn apply(&mut self, in_ptr: usize, in_size: usize, out_ptr_slot: usize, out_size_slot: usize)
        -> (ok: bool) {
        let input = self.read(in_ptr, in_size);
        let out = crate::executor::execute(&input);
        // every failure test precedes every mutation, so a false return
        // leaves the instance exactly as it was
        if out.len() == 0 {
            return false;
        }
        if self.next > u32::MAX as usize || out.len() > u32::MAX as usize {
            return false;
        }
        if out.len() > usize::MAX - self.next {
            return false;
        }
        let p = match self.allocate(out.len()) {
            Some(p) => p,
            None => {
                return false;
            },
        };
        self.write(p, &out);
        let ghost after_write = self.mem@;
        self.write_word(out_ptr_slot, p as u32);
        self.write_word(out_size_slot, out.len() as u32);
        proof {
            lemma_word_le(p as u32);
            lemma_word_le(out.len() as u32);
            assert(self.mem@.subrange(p as int, p + out@.len()) =~= after_write.subrange(
                p as int,
                p + out@.len(),
            ));
        }
        true
    }
}

} // verus!