//! Rules of the per-file streaming pipeline: how a file is cut into chunks,
//! and the process-wide budget of bytes buffered between reader and writer.
use vstd::prelude::*;

verus! {

/// Bytes per chunk read from a source file.
pub const CHUNK_SIZE: u64 = 262144;

/// Chunks each of the writer and hasher queues holds.
pub const MAX_QUEUE_CHUNKS: u64 = 32;

/// Bytes that may be buffered across all files at once.
pub const GLOBAL_MAX_BUFFER: u64 = 4294967296;

/// Number of chunks of `chunk` bytes that cover `size` bytes: the size
/// divided by the chunk size, rounded up.
pub fn chunk_count(size: u64, chunk: u64) -> (r: u64)
    requires
        chunk > 0,
    ensures
        r as int == (size as int + chunk as int - 1) / chunk as int,
{
    let q = size / chunk;
    let rem = size % chunk;
    assert(size as int == q as int * chunk as int + rem as int) by (nonlinear_arith)
        requires
            q == size / chunk,
            rem == size % chunk,
            chunk > 0,
    ;
    if rem == 0 {
        assert((size as int + chunk as int - 1) / chunk as int == q as int) by (nonlinear_arith)
            requires
                size as int == q as int * chunk as int,
                chunk > 0,
        ;
        q
    } else {
        assert((size as int + chunk as int - 1) / chunk as int == q as int + 1) by (nonlinear_arith)
            requires
                size as int == q as int * chunk as int + rem as int,
                chunk > 0,
                0 < rem < chunk,
        ;
        assert(q < u64::MAX) by (nonlinear_arith)
            requires
                size as int == q as int * chunk as int + rem as int,
                chunk > 0,
                0 < rem < chunk,
                size <= u64::MAX,
        ;
        q + 1
    }
}

/// Length of chunk number `index` of a `size`-byte file: a full chunk but
/// for the last, which holds the rest.
pub open spec fn chunk_len_of(size: nat, chunk: nat, index: nat) -> nat {
    if (index + 1) * chunk <= size {
        chunk
    } else if index * chunk < size {
        (size - index * chunk) as nat
    } else {
        0
    }
}

/// Length of chunk number `index` (zero past the end).
pub fn chunk_len(size: u64, chunk: u64, index: u64) -> (r: u64)
    requires
        chunk > 0,
    ensures
        r as nat == chunk_len_of(size as nat, chunk as nat, index as nat),
{
    assert(index as int * chunk as int <= 0xffff_ffff_ffff_ffffu64 as int * 0xffff_ffff_ffff_ffffu64 as int) by (nonlinear_arith)
        requires index <= 0xffff_ffff_ffff_ffffu64, chunk <= 0xffff_ffff_ffff_ffffu64;
    let start = index as u128 * chunk as u128;
    if start + chunk as u128 <= size as u128 {
        assert((index + 1) * chunk == start + chunk) by (nonlinear_arith)
            requires start == index * chunk;
        chunk
    } else if start < size as u128 {
        assert((index + 1) * chunk == start + chunk) by (nonlinear_arith)
            requires start == index * chunk;
        (size as u128 - start) as u64
    } else {
        assert((index + 1) * chunk == start + chunk) by (nonlinear_arith)
            requires start == index * chunk;
        0
    }
}

/// The bytes buffered in flight, against the ceiling. A chunk is admitted
/// while it fits under the ceiling, or alone when nothing is buffered, so the
/// total never exceeds the ceiling plus one chunk.
pub struct MemoryGate {
    in_flight: u64,
    ceiling: u64,
    max_chunk: u64,
}

impl MemoryGate {
    pub closed spec fn buffered(&self) -> nat {
        self.in_flight as nat
    }

    pub closed spec fn limit(&self) -> nat {
        self.ceiling as nat
    }

    /// Largest chunk size accepted.
    pub closed spec fn chunk_limit(&self) -> nat {
        self.max_chunk as nat
    }

    /// Buffered bytes stay within the ceiling plus one chunk.
    pub open spec fn wf(&self) -> bool {
        self.buffered() <= self.limit() + self.chunk_limit()
    }

    /// An empty gate with the given ceiling, for chunks of at most `max_chunk` bytes.
    pub fn new(ceiling: u64, max_chunk: u64) -> (r: Self)
        requires
            ceiling as int + max_chunk as int <= u64::MAX,
        ensures
            r.wf(),
            r.buffered() == 0,
            r.limit() == ceiling,
            r.chunk_limit() == max_chunk,
    {
        MemoryGate { in_flight: 0, ceiling, max_chunk }
    }

    /// Bytes buffered now.
    pub fn in_flight(&self) -> (r: u64)
        ensures
            r == self.buffered(),
    {
        self.in_flight
    }

    /// Admits a chunk of `len` bytes if it fits under the ceiling or nothing
    /// is buffered; otherwise the reader must wait.
    pub fn try_admit(&mut self, len: u64) -> (r: bool)
        requires
            old(self).wf(),
            len <= old(self).chunk_limit(),
            old(self).limit() + old(self).chunk_limit() <= u64::MAX,
        ensures
            final(self).wf(),
            r == (old(self).buffered() + len <= old(self).limit() || old(self).buffered() == 0),
            r ==> final(self).buffered() == old(self).buffered() + len,
            !r ==> final(self).buffered() == old(self).buffered(),
            final(self).limit() == old(self).limit(),
            final(self).chunk_limit() == old(self).chunk_limit(),
    {
        if self.in_flight == 0 || self.in_flight <= self.ceiling && len <= self.ceiling - self.in_flight {
            self.in_flight = self.in_flight + len;
            true
        } else {
            false
        }
    }

    /// A chunk of `len` bytes was written (or dropped) and leaves the budget.
    pub fn release(&mut self, len: u64)
        requires
            old(self).wf(),
            len <= old(self).buffered(),
        ensures
            final(self).wf(),
            final(self).buffered() == old(self).buffered() - len,
            final(self).limit() == old(self).limit(),
            final(self).chunk_limit() == old(self).chunk_limit(),
    {
        self.in_flight = self.in_flight - len;
    }
}

/// A file is delivered in exactly as many non-empty chunks as the size
/// divided by the chunk size, rounded up: chunk `i` holds bytes exactly when
/// `i` is below that count, and every chunk but the last is full.
pub proof fn law_chunk_count(size: nat, chunk: nat, i: nat)
    requires
        chunk > 0,
    ensures
        chunk_len_of(size, chunk, i) > 0 <==> i < (size + chunk - 1) / chunk as int,
        chunk_len_of(size, chunk, i) <= chunk,
        i + 1 < (size + chunk - 1) / chunk as int ==> chunk_len_of(size, chunk, i) == chunk,
{
    let c = (size + chunk - 1) / chunk as int;
    assert(i * chunk < size <==> i < c) by (nonlinear_arith)
        requires
            c == (size + chunk - 1) / chunk as int,
            chunk > 0,
    ;
    assert((i + 1) * chunk == i * chunk + chunk) by (nonlinear_arith);
    assert(i + 1 < c ==> (i + 1) * chunk <= size) by (nonlinear_arith)
        requires
            c == (size + chunk - 1) / chunk as int,
            chunk > 0,
    ;
}

} // verus!
