//! An in-memory, byte-addressable source with positioned reads and
//! writes, an access mode and an open/closed state.
//!
//! It models a memory-mapped region: whoever holds one may write at
//! byte positions while it is open for writing, close it, and hand the
//! bytes on for reopening.  Loading bytes from and storing them back to
//! a file is the caller's concern.

use vstd::prelude::*;

use crate::buffer::Buffer;
use crate::error::{ArrowError, ErrorKind};

verus! {

/// How a source may be accessed.
#[allow(non_camel_case_types)]
#[derive(Clone, Copy, PartialEq, Eq, Structural, Debug)]
pub enum AccessMode {
    READ_ONLY,
    READ_WRITE,
}

/// A byte-addressable source over owned storage.
pub struct MemorySource {
    data: Vec<u8>,
    mode: AccessMode,
    open: bool,
}

impl MemorySource {
    /// The bytes the source addresses.
    pub closed spec fn view(self) -> Seq<u8> {
        self.data@
    }

    pub closed spec fn spec_mode(self) -> AccessMode {
        self.mode
    }

    pub closed spec fn is_open(self) -> bool {
        self.open
    }

    pub closed spec fn wf(self) -> bool {
        self.data@.len() <= i64::MAX
    }

    pub broadcast proof fn lemma_source_wf(self)
        requires
            #[trigger] self.wf(),
        ensures
            self@.len() <= i64::MAX,
    {
    }

    /// A freshly sized, zeroed source, open in the given mode.
    pub fn create(size: usize, mode: AccessMode) -> (r: Result<MemorySource, ArrowError>)
        ensures
            r is Ok <==> size <= i64::MAX,
            match r {
                Ok(s) => {
                    &&& s.wf()
                    &&& s@.len() == size
                    &&& forall|i: int| 0 <= i < size ==> s@[i] == 0u8
                    &&& s.spec_mode() == mode
                    &&& s.is_open()
                },
                Err(e) => e.kind == ErrorKind::Io,
            },
    {
        if size as u64 > i64::MAX as u64 {
            return Err(ArrowError::new(ErrorKind::Io, "source size over the limit"));
        }
        let mut data: Vec<u8> = Vec::new();
        while data.len() < size
            invariant
                data@.len() <= size,
                forall|i: int| 0 <= i < data@.len() ==> data@[i] == 0u8,
            decreases size - data@.len(),
        {
            data.push(0u8);
        }
        Ok(MemorySource { data, mode, open: true })
    }

    /// Opens existing bytes as a source in the given mode: reopening
    /// what an earlier source handed out through `into_bytes`.
    pub fn from_bytes(data: Vec<u8>, mode: AccessMode) -> (r: Result<MemorySource, ArrowError>)
        ensures
            r is Ok <==> data@.len() <= i64::MAX,
            match r {
                Ok(s) => {
                    &&& s.wf()
                    &&& s@ == data@
                    &&& s.spec_mode() == mode
                    &&& s.is_open()
                },
                Err(e) => e.kind == ErrorKind::Io,
            },
    {
        if data.len() as u64 > i64::MAX as u64 {
            return Err(ArrowError::new(ErrorKind::Io, "source size over the limit"));
        }
        Ok(MemorySource { data, mode, open: true })
    }

    /// The source's size in bytes.
    pub fn size(&self) -> (n: i64)
        requires
            self.wf(),
        ensures
            n == self@.len(),
    {
        self.data.len() as i64
    }

    /// Whether the source is still open.
    pub fn is_open_now(&self) -> (r: bool)
        ensures
            r == self.is_open(),
    {
        self.open
    }

    /// The source's access mode.
    pub fn mode(&self) -> (m: AccessMode)
        ensures
            m == self.spec_mode(),
    {
        self.mode
    }

    /// Writes `bytes` at position `pos`.
    ///
    /// Succeeds exactly when the source is open for writing and the
    /// range lies within it; the write replaces that range and touches
    /// nothing else.
    pub fn write(&mut self, pos: i64, bytes: &[u8]) -> (r: Result<(), ArrowError>)
        requires
            old(self).wf(),
        ensures
            final(self).wf(),
            final(self).spec_mode() == old(self).spec_mode(),
            final(self).is_open() == old(self).is_open(),
            r is Ok <==> (old(self).is_open() && old(self).spec_mode() == AccessMode::READ_WRITE
                && 0 <= pos && pos + bytes@.len() <= old(self)@.len()),
            match r {
                Ok(()) => {
                    &&& final(self)@.len() == old(self)@.len()
                    &&& final(self)@.subrange(pos as int, pos + bytes@.len()) == bytes@
                    &&& forall|i: int|
                        0 <= i < old(self)@.len() && !(pos <= i < pos + bytes@.len())
                            ==> final(self)@[i] == old(self)@[i]
                },
                Err(e) => {
                    &&& e.kind == ErrorKind::Io
                    &&& final(self)@ == old(self)@
                },
            },
    {
        if !self.open {
            return Err(ArrowError::new(ErrorKind::Io, "source is closed"));
        }
        if !matches!(self.mode, AccessMode::READ_WRITE) {
            return Err(ArrowError::new(ErrorKind::Io, "source is not open for writing"));
        }
        if pos < 0 {
            return Err(ArrowError::new(ErrorKind::Io, "position out of range"));
        }
        if bytes.len() as u64 > self.data.len() as u64 || pos as u64 > self.data.len() as u64
            - bytes.len() as u64 {
            return Err(ArrowError::new(ErrorKind::Io, "write past the end of the source"));
        }
        let upos = pos as usize;
        let mut i: usize = 0;
        while i < bytes.len()
            invariant
                i <= bytes@.len(),
                upos + bytes@.len() <= self.data@.len(),
                self.data@.len() <= usize::MAX,
                self.data@.len() == old(self)@.len(),
                self.mode == old(self).mode,
                self.open == old(self).open,
                self.data@.subrange(upos as int, upos + i) == bytes@.take(i as int),
                forall|j: int|
                    0 <= j < self.data@.len() && !(upos <= j < upos + i) ==> self.data@[j] == old(
                        self,
                    )@[j],
            decreases bytes@.len() - i,
        {
            self.data[upos + i] = bytes[i];
            proof {
                assert(self.data@.subrange(upos as int, upos + i + 1) =~= bytes@.take(i + 1));
            }
            i = i + 1;
        }
        proof {
            assert(bytes@.take(bytes@.len() as int) =~= bytes@);
        }
        Ok(())
    }

    /// Reads `nbytes` bytes at position `pos` into a fresh buffer that
    /// carries no pool charge: the reader-side view of the source.
    ///
    /// Succeeds exactly when the source is open and the range lies
    /// within it.
    pub fn read_at(&self, pos: i64, nbytes: i64) -> (r: Result<Buffer, ArrowError>)
        requires
            self.wf(),
        ensures
            r is Ok <==> (self.is_open() && 0 <= pos && 0 <= nbytes && pos + nbytes
                <= self@.len()),
            match r {
                Ok(buf) => {
                    &&& buf.wf()
                    &&& buf@ == self@.subrange(pos as int, pos + nbytes)
                    &&& buf.spec_footprint() == 0
                },
                Err(e) => e.kind == ErrorKind::Io,
            },
    {
        if !self.open {
            return Err(ArrowError::new(ErrorKind::Io, "source is closed"));
        }
        if pos < 0 || nbytes < 0 {
            return Err(ArrowError::new(ErrorKind::Io, "position out of range"));
        }
        if nbytes as u64 > self.data.len() as u64 || pos as u64 > self.data.len() as u64
            - nbytes as u64 {
            return Err(ArrowError::new(ErrorKind::Io, "read past the end of the source"));
        }
        let upos = pos as usize;
        let n = nbytes as usize;
        let mut out: Vec<u8> = Vec::new();
        let mut i: usize = 0;
        while i < n
            invariant
                i <= n,
                upos + n <= self.data@.len(),
                self.data@.len() <= usize::MAX,
                out@ == self.data@.subrange(upos as int, upos + i),
            decreases n - i,
        {
            out.push(self.data[upos + i]);
            proof {
                assert(out@ =~= self.data@.subrange(upos as int, upos + i + 1));
            }
            i = i + 1;
        }
        Ok(Buffer::from_bytes(out))
    }

    /// Closes the source; reads and writes fail afterwards.
    ///
    /// Closing an already-closed source is an error.
    pub fn close(&mut self) -> (r: Result<(), ArrowError>)
        requires
            old(self).wf(),
        ensures
            final(self).wf(),
            final(self)@ == old(self)@,
            final(self).spec_mode() == old(self).spec_mode(),
            !final(self).is_open(),
            r is Ok <==> old(self).is_open(),
            r matches Err(e) ==> e.kind == ErrorKind::Io,
    {
        if !self.open {
            return Err(ArrowError::new(ErrorKind::Io, "source is already closed"));
        }
        self.open = false;
        Ok(())
    }

    /// Releases the source, handing its bytes back; the counterpart of
    /// `from_bytes`.
    pub fn into_bytes(self) -> (data: Vec<u8>)
        ensures
            data@ == self@,
    {
        let MemorySource { data, mode: _, open: _ } = self;
        data
    }
}

} // verus!
