//! Memory pool: byte-for-byte accounting of every region the columnar
//! structures draw from it.
//!
//! The pool hands out owned, zeroed byte regions and keeps a running
//! counter of the bytes it has handed out.  Every component that draws
//! memory from a pool must return it through the same pool; the counter
//! then returns exactly to its earlier value once every region drawn
//! since is returned.

use vstd::prelude::*;

use crate::error::{ArrowError, ErrorKind};

verus! {

/// Accounting state for one pool of memory.
///
/// The pool is an explicit handle: every allocating operation of the
/// crate takes the pool it draws from as an argument, so independent
/// pools isolate their accounting completely.
pub struct MemoryPool {
    allocated: i64,
}

impl MemoryPool {
    /// The number of live bytes drawn from this pool, as a mathematical
    /// integer.
    pub closed spec fn bytes(self) -> int {
        self.allocated as int
    }

    #[verifier::type_invariant]
    closed spec fn inv(self) -> bool {
        0 <= self.allocated
    }

    /// A fresh pool with nothing allocated.
    pub fn new() -> (p: MemoryPool)
        ensures
            p.bytes() == 0,
    {
        MemoryPool { allocated: 0 }
    }

    /// The current byte counter.
    pub fn bytes_allocated(&self) -> (n: i64)
        ensures
            n as int == self.bytes(),
    {
        self.allocated
    }

    /// Draws a zeroed region of `nbytes` bytes from the pool.
    ///
    /// Succeeds exactly when the byte counter can absorb the request;
    /// on success the counter rises by `nbytes` and the returned region
    /// is all zeroes.
    pub fn allocate(&mut self, nbytes: usize) -> (r: Result<Vec<u8>, ArrowError>)
        ensures
            match r {
                Ok(region) => {
                    &&& old(self).bytes() + nbytes <= i64::MAX
                    &&& final(self).bytes() == old(self).bytes() + nbytes
                    &&& region@.len() == nbytes
                    &&& forall|i: int| 0 <= i < nbytes ==> region@[i] == 0u8
                },
                Err(e) => {
                    &&& old(self).bytes() + nbytes > i64::MAX
                    &&& final(self).bytes() == old(self).bytes()
                    &&& e.kind == ErrorKind::Allocation
                },
            },
    {
        proof {
            use_type_invariant(&*self);
        }
        if nbytes as u64 > (i64::MAX - self.allocated) as u64 {
            return Err(ArrowError::new(ErrorKind::Allocation, "memory pool counter exhausted"));
        }
        let mut region: Vec<u8> = Vec::new();
        while region.len() < nbytes
            invariant
                region@.len() <= nbytes,
                forall|i: int| 0 <= i < region@.len() ==> region@[i] == 0u8,
            decreases nbytes - region@.len(),
        {
            region.push(0u8);
        }
        self.allocated = self.allocated + nbytes as i64;
        Ok(region)
    }

    /// Grows or shrinks a region drawn from this pool to `new_len` bytes,
    /// in place.
    ///
    /// The common prefix is preserved; bytes gained by growth are zero.
    /// The counter moves by the difference in length.
    pub fn reallocate(&mut self, region: &mut Vec<u8>, new_len: usize) -> (r: Result<
        (),
        ArrowError,
    >)
        requires
            old(region)@.len() <= old(self).bytes(),
        ensures
            match r {
                Ok(()) => {
                    &&& old(self).bytes() - old(region)@.len() + new_len <= i64::MAX
                    &&& final(self).bytes() == old(self).bytes() - old(region)@.len() + new_len
                    &&& final(region)@.len() == new_len
                    &&& forall|i: int|
                        0 <= i < new_len && i < old(region)@.len() ==> final(region)@[i] == old(
                            region,
                        )@[i]
                    &&& forall|i: int|
                        old(region)@.len() <= i < new_len ==> final(region)@[i] == 0u8
                },
                Err(e) => {
                    &&& old(self).bytes() - old(region)@.len() + new_len > i64::MAX
                    &&& final(self).bytes() == old(self).bytes()
                    &&& final(region)@ == old(region)@
                    &&& e.kind == ErrorKind::Allocation
                },
            },
    {
        proof {
            use_type_invariant(&*self);
        }
        let old_len = region.len();
        if new_len <= old_len {
            region.truncate(new_len);
            assert(region@ =~= old(region)@.subrange(0, new_len as int));
            self.allocated = self.allocated - (old_len - new_len) as i64;
            return Ok(());
        }
        if (new_len - old_len) as u64 > (i64::MAX - self.allocated) as u64 {
            return Err(ArrowError::new(ErrorKind::Allocation, "memory pool counter exhausted"));
        }
        while region.len() < new_len
            invariant
                old(region)@.len() <= region@.len() <= new_len,
                region@.subrange(0, old(region)@.len() as int) == old(region)@,
                forall|i: int| old(region)@.len() <= i < region@.len() ==> region@[i] == 0u8,
            decreases new_len - region@.len(),
        {
            region.push(0u8);
            assert(region@.subrange(0, old(region)@.len() as int) =~= old(region)@);
        }
        self.allocated = self.allocated + (new_len - old_len) as i64;
        assert(forall|i: int|
            0 <= i < old(region)@.len() ==> region@[i] == #[trigger] old(region)@.subrange(
                0,
                old(region)@.len() as int,
            )[i]);
        Ok(())
    }

    /// Returns a region to the pool, lowering the counter by its length.
    ///
    /// The region must have been drawn from this pool, which is what the
    /// precondition on the counter expresses.
    pub fn free(&mut self, region: Vec<u8>) -> (r: ())
        requires
            region@.len() <= old(self).bytes(),
        ensures
            final(self).bytes() == old(self).bytes() - region@.len(),
    {
        proof {
            use_type_invariant(&*self);
        }
        self.allocated = self.allocated - region.len() as i64;
    }
}

} // verus!
