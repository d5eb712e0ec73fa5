//! Buffers and buffer builders.
//!
//! A [`Buffer`] is an immutable, size-and-capacity-tracked owned region of
//! bytes.  A [`BufferBuilder`] is an append-only accumulator that draws its
//! backing storage from a [`MemoryPool`] and seals a `Buffer` when finished.

use vstd::prelude::*;

use crate::error::{ArrowError, ErrorKind};
use crate::pool::MemoryPool;

verus! {

/// Smallest capacity any backing region is grown to.
pub const MIN_BUFFER_CAPACITY: usize = 64;

/// Largest size a buffer may be asked to hold; larger requests fail with
/// an allocation error.
pub const MAX_BUFFER_CAPACITY: usize = 0x4000_0000;

/// The capacity reached by doubling `cap` until it holds `n` bytes.
pub open spec fn grown_capacity(cap: nat, n: nat) -> nat
    decreases n - cap,
        when 0 < cap
{
    if n <= cap {
        cap
    } else if n <= 2 * cap {
        2 * cap
    } else {
        grown_capacity(2 * cap, n)
    }
}

/// The growth rule: capacity requests round up to the next value that is
/// both a power of two and at least 64 bytes.
pub open spec fn round_up_capacity(n: nat) -> nat {
    grown_capacity(MIN_BUFFER_CAPACITY as nat, n)
}

/// Whether a pool whose counter stands at `pool_bytes` can regrow a
/// region of `cap` bytes to hold `need` bytes under the rounding rule.
pub open spec fn growth_fits(pool_bytes: int, cap: nat, need: nat) -> bool {
    &&& need <= MAX_BUFFER_CAPACITY
    &&& pool_bytes - cap + round_up_capacity(need) <= i64::MAX
}

/// Computes `round_up_capacity(n)` for requests within the supported range.
fn compute_capacity(n: usize) -> (r: usize)
    requires
        n <= MAX_BUFFER_CAPACITY,
    ensures
        r == round_up_capacity(n as nat),
        MIN_BUFFER_CAPACITY <= r <= 2 * MAX_BUFFER_CAPACITY,
        n <= r,
{
    let mut cap: usize = MIN_BUFFER_CAPACITY;
    while cap < n
        invariant
            MIN_BUFFER_CAPACITY <= cap,
            cap == MIN_BUFFER_CAPACITY || cap < 2 * n,
            n <= MAX_BUFFER_CAPACITY,
            grown_capacity(cap as nat, n as nat) == round_up_capacity(n as nat),
        decreases 2 * n - cap,
    {
        cap = cap * 2;
    }
    cap
}

/// An immutable region of bytes with a reported size, a capacity, and a
/// record of how many bytes of a pool it holds.
///
/// Buffers sealed by a builder hold exactly their capacity in pool bytes;
/// buffers that are views over foreign storage hold none.
#[derive(Debug)]
pub struct Buffer {
    data: Vec<u8>,
    size: usize,
    pool_bytes: usize,
}

impl Buffer {
    /// The bytes this buffer reports: the first `size` bytes of its
    /// backing region.
    pub closed spec fn view(self) -> Seq<u8> {
        self.data@.take(self.size as int)
    }

    /// The whole backing region, capacity included.
    pub closed spec fn backing(self) -> Seq<u8> {
        self.data@
    }

    /// The reported size in bytes.
    pub closed spec fn spec_size(self) -> nat {
        self.size as nat
    }

    /// The capacity in bytes.
    pub closed spec fn spec_capacity(self) -> nat {
        self.data@.len()
    }

    /// The bytes of pool accounting this buffer carries.
    pub closed spec fn spec_footprint(self) -> nat {
        self.pool_bytes as nat
    }

    /// Size never exceeds capacity, and the pool charge is either the
    /// whole capacity (pool-backed) or nothing (a view).
    pub closed spec fn wf(self) -> bool {
        &&& self.size <= self.data@.len()
        &&& (self.pool_bytes == self.data@.len() || self.pool_bytes == 0)
    }

    pub broadcast proof fn lemma_view_len(self)
        requires
            self.wf(),
        ensures
            (#[trigger] self@).len() == self.spec_size(),
            self@ == self.backing().take(self.spec_size() as int),
    {
    }

    /// Wraps an owned region that is not charged to any pool, reporting
    /// all of it: a zero-copy view in the sense of the reader protocol.
    pub fn from_bytes(data: Vec<u8>) -> (b: Buffer)
        ensures
            b.wf(),
            b@ == data@,
            b.spec_size() == data@.len(),
            b.spec_capacity() == data@.len(),
            b.spec_footprint() == 0,
    {
        let size = data.len();
        let b = Buffer { data, size, pool_bytes: 0 };
        proof {
            assert(b@ =~= b.backing());
        }
        b
    }

    /// Wraps a region drawn from a pool, charging the buffer with its
    /// whole length; the counterpart of `release` for adopted regions.
    pub(crate) fn from_pool_region(data: Vec<u8>) -> (b: Buffer)
        ensures
            b.wf(),
            b@ == data@,
            b.spec_size() == data@.len(),
            b.spec_capacity() == data@.len(),
            b.spec_footprint() == data@.len(),
    {
        let size = data.len();
        let pool_bytes = data.len();
        let b = Buffer { data, size, pool_bytes };
        proof {
            assert(b@ =~= b.backing());
        }
        b
    }

    /// The reported size.
    pub fn size(&self) -> (n: usize)
        requires
            self.wf(),
        ensures
            n == self.spec_size(),
            n == self@.len(),
    {
        self.size
    }

    /// The capacity of the backing region.
    pub fn capacity(&self) -> (n: usize)
        ensures
            n == self.spec_capacity(),
    {
        self.data.len()
    }

    /// The byte at position `i`.
    pub fn data_at(&self, i: usize) -> (b: u8)
        requires
            self.wf(),
            i < self@.len(),
        ensures
            b == self@[i as int],
    {
        self.data[i]
    }

    /// Copies the reported bytes out as a vector.
    pub fn to_vec(&self) -> (v: Vec<u8>)
        requires
            self.wf(),
        ensures
            v@ == self@,
    {
        let mut v: Vec<u8> = Vec::new();
        let mut i: usize = 0;
        while i < self.size
            invariant
                self.wf(),
                i <= self.size,
                v@ == self@.take(i as int),
            decreases self.size - i,
        {
            v.push(self.data[i]);
            proof {
                assert(v@ =~= self@.take(i + 1 as int));
            }
            i = i + 1;
        }
        proof {
            assert(self@.take(self.size as int) =~= self@);
        }
        v
    }

    /// Sets the reported size.
    ///
    /// Within the current capacity this only moves the size, without
    /// reallocating; growing past the capacity reallocates under the
    /// rounding rule, which requires the buffer to be pool-backed.
    pub fn resize(&mut self, pool: &mut MemoryPool, new_size: usize) -> (r: Result<
        (),
        ArrowError,
    >)
        requires
            old(self).wf(),
            new_size > old(self).spec_capacity() ==> {
                &&& old(self).spec_footprint() == old(self).spec_capacity()
                &&& old(self).spec_capacity() <= old(pool).bytes()
            },
        ensures
            final(self).wf(),
            r is Ok <==> (new_size <= old(self).spec_capacity() || growth_fits(
                old(pool).bytes(),
                old(self).spec_capacity(),
                new_size as nat,
            )),
            match r {
                Ok(()) => {
                    &&& final(self).spec_size() == new_size
                    &&& new_size <= old(self).spec_capacity() ==> {
                        &&& final(self).spec_capacity() == old(self).spec_capacity()
                        &&& final(self).backing() == old(self).backing()
                        &&& final(self).spec_footprint() == old(self).spec_footprint()
                        &&& final(pool).bytes() == old(pool).bytes()
                    }
                    &&& new_size > old(self).spec_capacity() ==> {
                        &&& final(self).spec_capacity() == round_up_capacity(new_size as nat)
                        &&& final(self).backing().take(old(self).spec_capacity() as int) == old(
                            self,
                        ).backing()
                        &&& forall|i: int|
                            old(self).spec_capacity() <= i < final(self).spec_capacity()
                                ==> final(self).backing()[i] == 0u8
                        &&& final(self).spec_footprint() == final(self).spec_capacity()
                        &&& final(pool).bytes() == old(pool).bytes() - old(self).spec_capacity()
                            + final(self).spec_capacity()
                    }
                },
                Err(e) => {
                    &&& e.kind == ErrorKind::Allocation
                    &&& new_size > old(self).spec_capacity()
                    &&& final(self).spec_size() == old(self).spec_size()
                    &&& final(self).backing() == old(self).backing()
                    &&& final(self).spec_footprint() == old(self).spec_footprint()
                    &&& final(pool).bytes() == old(pool).bytes()
                },
            },
    {
        if new_size <= self.data.len() {
            self.size = new_size;
            return Ok(());
        }
        if new_size > MAX_BUFFER_CAPACITY {
            return Err(ArrowError::new(ErrorKind::Allocation, "buffer size over the limit"));
        }
        let new_capacity = compute_capacity(new_size);
        match pool.reallocate(&mut self.data, new_capacity) {
            Ok(()) => {
                proof {
                    assert(self.data@.take(old(self).spec_capacity() as int) =~= old(
                        self,
                    ).backing());
                }
                self.size = new_size;
                self.pool_bytes = new_capacity;
                Ok(())
            },
            Err(e) => Err(e),
        }
    }

    /// Returns the buffer's storage to the pool it was drawn from.
    pub fn release(self, pool: &mut MemoryPool)
        requires
            self.wf(),
            self.spec_footprint() <= old(pool).bytes(),
        ensures
            final(pool).bytes() == old(pool).bytes() - self.spec_footprint(),
    {
        let Buffer { data, size: _, pool_bytes } = self;
        if pool_bytes > 0 {
            pool.free(data);
        }
    }
}

/// An append-only accumulator of bytes bound to a memory pool.
///
/// It tracks a logical length (bytes appended) and a requested size
/// (what `resize` last asked for) separately from the allocated
/// capacity.  Finishing seals a [`Buffer`] at the requested size.
pub struct BufferBuilder {
    data: Vec<u8>,
    len: usize,
    size: usize,
}

impl BufferBuilder {
    /// Bytes appended so far.
    pub closed spec fn spec_len(self) -> nat {
        self.len as nat
    }

    /// The size the sealed buffer will report.
    pub closed spec fn spec_size(self) -> nat {
        self.size as nat
    }

    /// Allocated capacity in bytes; all of it is charged to the pool.
    pub closed spec fn spec_capacity(self) -> nat {
        self.data@.len()
    }

    /// The whole backing region of the builder.
    pub closed spec fn backing_bytes(self) -> Seq<u8> {
        self.data@
    }

    /// The bytes appended so far, in order.
    pub open spec fn written(self) -> Seq<u8> {
        self.backing_bytes().take(self.spec_len() as int)
    }

    pub closed spec fn wf(self) -> bool {
        &&& self.len <= self.data@.len()
        &&& self.size <= self.data@.len()
        &&& self.data@.len() <= 2 * MAX_BUFFER_CAPACITY
    }

    pub broadcast proof fn lemma_builder_wf(self)
        requires
            #[trigger] self.wf(),
        ensures
            self.written().len() == self.spec_len(),
            self.spec_len() <= self.spec_capacity(),
            self.spec_size() <= self.spec_capacity(),
            self.backing_bytes().len() == self.spec_capacity(),
            self.spec_capacity() <= 2 * MAX_BUFFER_CAPACITY,
    {
    }

    /// A fresh builder with no storage allocated yet.
    pub fn new() -> (b: BufferBuilder)
        ensures
            b.wf(),
            b.spec_len() == 0,
            b.spec_size() == 0,
            b.spec_capacity() == 0,
            b.written() == Seq::<u8>::empty(),
    {
        let b = BufferBuilder { data: Vec::new(), len: 0, size: 0 };
        proof {
            assert(b.written() =~= Seq::<u8>::empty());
        }
        b
    }

    /// Bytes appended so far.
    pub fn len(&self) -> (n: usize)
        ensures
            n == self.spec_len(),
    {
        self.len
    }

    /// Current allocated capacity.
    pub fn capacity(&self) -> (n: usize)
        ensures
            n == self.spec_capacity(),
    {
        self.data.len()
    }

    /// Appends `values` after the bytes already appended, growing the
    /// backing region under the rounding rule when needed.
    ///
    /// The requested size follows the logical length whenever appending
    /// moves the length past it.
    pub fn append(&mut self, pool: &mut MemoryPool, values: &[u8]) -> (r: Result<(), ArrowError>)
        requires
            old(self).wf(),
            old(self).spec_capacity() <= old(pool).bytes(),
        ensures
            final(self).wf(),
            r is Ok <==> (old(self).spec_len() + values@.len() <= old(self).spec_capacity()
                || growth_fits(
                old(pool).bytes(),
                old(self).spec_capacity(),
                (old(self).spec_len() + values@.len()) as nat,
            )),
            match r {
                Ok(()) => {
                    &&& final(self).spec_len() == old(self).spec_len() + values@.len()
                    &&& final(self).written() == old(self).written() + values@
                    &&& final(self).spec_size() == vstd::math::max(
                        old(self).spec_size() as int,
                        final(self).spec_len() as int,
                    )
                    &&& final(self).spec_capacity() == (if old(self).spec_len() + values@.len()
                        <= old(self).spec_capacity() {
                        old(self).spec_capacity()
                    } else {
                        round_up_capacity((old(self).spec_len() + values@.len()) as nat)
                    })
                    &&& final(pool).bytes() == old(pool).bytes() - old(self).spec_capacity()
                        + final(self).spec_capacity()
                },
                Err(e) => {
                    &&& e.kind == ErrorKind::Allocation
                    &&& final(self).spec_len() == old(self).spec_len()
                    &&& final(self).spec_size() == old(self).spec_size()
                    &&& final(self).backing_bytes() == old(self).backing_bytes()
                    &&& final(pool).bytes() == old(pool).bytes()
                },
            },
    {
        if values.len() > 2 * MAX_BUFFER_CAPACITY - self.len {
            return Err(ArrowError::new(ErrorKind::Allocation, "buffer size over the limit"));
        }
        let need = self.len + values.len();
        if need > self.data.len() {
            if need > MAX_BUFFER_CAPACITY {
                return Err(ArrowError::new(ErrorKind::Allocation, "buffer size over the limit"));
            }
            let new_capacity = compute_capacity(need);
            match pool.reallocate(&mut self.data, new_capacity) {
                Ok(()) => {},
                Err(e) => {
                    return Err(e);
                },
            }
        }
        proof {
            assert(self.data@.take(self.len as int) =~= old(self).written());
            assert(self.data@.subrange(self.len as int, self.len as int) =~= values@.take(0));
        }
        let mut i: usize = 0;
        while i < values.len()
            invariant
                i <= values@.len(),
                self.len + values@.len() <= self.data@.len(),
                self.len == old(self).len,
                self.size == old(self).size,
                self.size <= self.data@.len(),
                self.data@.len() <= 2 * MAX_BUFFER_CAPACITY,
                self.data@.len() == (if old(self).spec_len() + values@.len() <= old(
                    self,
                ).spec_capacity() {
                    old(self).spec_capacity()
                } else {
                    round_up_capacity((old(self).spec_len() + values@.len()) as nat)
                }),
                pool.bytes() == old(pool).bytes() - old(self).spec_capacity()
                    + self.data@.len(),
                self.data@.take(self.len as int) == old(self).written(),
                self.data@.subrange(self.len as int, self.len + i) == values@.take(i as int),
            decreases values@.len() - i,
        {
            self.data[self.len + i] = values[i];
            proof {
                assert(self.data@.take(self.len as int) =~= old(self).written());
                assert(self.data@.subrange(self.len as int, self.len + i + 1) =~= values@.take(
                    i + 1,
                ));
            }
            i = i + 1;
        }
        self.len = self.len + values.len();
        if self.size < self.len {
            self.size = self.len;
        }
        proof {
            let pre = old(self).written();
            let post = self.data@.take(self.len as int);
            assert forall|j: int| 0 <= j < post.len() implies post[j] == (pre + values@)[j] by {
                if j < pre.len() {
                    assert(post[j] == self.data@.take(old(self).len as int)[j]);
                } else {
                    assert(post[j] == self.data@.subrange(
                        old(self).len as int,
                        old(self).len + values@.len(),
                    )[j - pre.len()]);
                    assert((pre + values@)[j] == values@.take(values@.len() as int)[j
                        - pre.len()]);
                }
            }
            assert(self.written() =~= old(self).written() + values@);
        }
        Ok(())
    }

    /// Sets the requested size, growing the capacity under the rounding
    /// rule when the request exceeds it.  The logical length is untouched.
    pub fn resize(&mut self, pool: &mut MemoryPool, new_size: usize) -> (r: Result<
        (),
        ArrowError,
    >)
        requires
            old(self).wf(),
            old(self).spec_capacity() <= old(pool).bytes(),
        ensures
            final(self).wf(),
            r is Ok <==> (new_size <= old(self).spec_capacity() || growth_fits(
                old(pool).bytes(),
                old(self).spec_capacity(),
                new_size as nat,
            )),
            match r {
                Ok(()) => {
                    &&& final(self).spec_size() == new_size
                    &&& final(self).spec_len() == old(self).spec_len()
                    &&& final(self).written() == old(self).written()
                    &&& final(self).spec_capacity() == (if new_size <= old(self).spec_capacity() {
                        old(self).spec_capacity()
                    } else {
                        round_up_capacity(new_size as nat)
                    })
                    &&& final(pool).bytes() == old(pool).bytes() - old(self).spec_capacity()
                        + final(self).spec_capacity()
                },
                Err(e) => {
                    &&& e.kind == ErrorKind::Allocation
                    &&& final(self).spec_len() == old(self).spec_len()
                    &&& final(self).spec_size() == old(self).spec_size()
                    &&& final(self).backing_bytes() == old(self).backing_bytes()
                    &&& final(pool).bytes() == old(pool).bytes()
                },
            },
    {
        if new_size <= self.data.len() {
            self.size = new_size;
            proof {
                assert(self.written() =~= old(self).written());
            }
            return Ok(());
        }
        if new_size > MAX_BUFFER_CAPACITY {
            return Err(ArrowError::new(ErrorKind::Allocation, "buffer size over the limit"));
        }
        let new_capacity = compute_capacity(new_size);
        match pool.reallocate(&mut self.data, new_capacity) {
            Ok(()) => {
                self.size = new_size;
                proof {
                    assert(self.written() =~= old(self).written());
                }
                Ok(())
            },
            Err(e) => Err(e),
        }
    }

    /// Seals the accumulated bytes into a buffer that reports the
    /// requested size and keeps the builder's capacity and pool charge.
    pub fn finish(self) -> (b: Buffer)
        requires
            self.wf(),
        ensures
            b.wf(),
            b.spec_size() == self.spec_size(),
            b.spec_capacity() == self.spec_capacity(),
            b.spec_footprint() == self.spec_capacity(),
            b.backing() == self.backing_bytes(),
            b@ == self.backing_bytes().take(self.spec_size() as int),
    {
        let BufferBuilder { data, len: _, size } = self;
        let pool_bytes = data.len();
        Buffer { data, size, pool_bytes }
    }

    /// Returns the builder's storage to the pool without sealing a buffer.
    pub fn release(self, pool: &mut MemoryPool)
        requires
            self.spec_capacity() <= old(pool).bytes(),
        ensures
            final(pool).bytes() == old(pool).bytes() - self.spec_capacity(),
    {
        let BufferBuilder { data, len: _, size: _ } = self;
        pool.free(data);
    }
}

} // verus!
