//! A bounds-checked cursor over borrowed bytes.
use vstd::prelude::*;

use crate::bytes::{le_u32, read_le_u32};

verus! {

/// A read went past the end of the buffer.
pub enum Error {
    Truncated,
}

/// Sequential reads over `buffer`, starting at `offset`.
pub struct Reader<'a> {
    buffer: &'a [u8],
    offset: usize,
}

impl<'a> Reader<'a> {
    /// The bytes the reader walks over.
    pub closed spec fn data(&self) -> Seq<u8> {
        self.buffer@
    }

    /// How many bytes have been read so far.
    pub closed spec fn pos(&self) -> int {
        self.offset as int
    }

    pub closed spec fn wf(&self) -> bool {
        self.offset <= self.buffer@.len()
    }

    pub fn new(buffer: &'a [u8]) -> (r: Reader<'a>)
        ensures
            r.wf(),
            r.data() == buffer@,
            r.pos() == 0,
    {
        Reader { buffer, offset: 0 }
    }

    pub fn read_u8(&mut self) -> (r: Result<u8, Error>)
        requires
            old(self).wf(),
        ensures
            final(self).wf(),
            final(self).data() == old(self).data(),
            old(self).pos() + 1 <= old(self).data().len() ==> r == Ok::<u8, Error>(
                old(self).data()[old(self).pos()],
            ) && final(self).pos() == old(self).pos() + 1,
            old(self).pos() + 1 > old(self).data().len() ==> r is Err && final(self).pos()
                == old(self).pos(),
    {
        if self.buffer.len() - self.offset < 1 {
            return Err(Error::Truncated);
        }
        let value = self.buffer[self.offset];
        self.offset = self.offset + 1;
        Ok(value)
    }

    pub fn read_u32(&mut self) -> (r: Result<u32, Error>)
        requires
            old(self).wf(),
        ensures
            final(self).wf(),
            final(self).data() == old(self).data(),
            old(self).pos() + 4 <= old(self).data().len() ==> r == Ok::<u32, Error>(
                le_u32(old(self).data(), old(self).pos()),
            ) && final(self).pos() == old(self).pos() + 4,
            old(self).pos() + 4 > old(self).data().len() ==> r is Err && final(self).pos()
                == old(self).pos(),
    {
        if self.buffer.len() - self.offset < 4 {
            return Err(Error::Truncated);
        }
        let value = read_le_u32(self.buffer, self.offset);
        self.offset = self.offset + 4;
        Ok(value)
    }

    pub fn read_buffer(&mut self, len: usize) -> (r: Result<&'a [u8], Error>)
        requires
            old(self).wf(),
        ensures
            final(self).wf(),
            final(self).data() == old(self).data(),
            old(self).pos() + len <= old(self).data().len() ==> (r matches Ok(b) && b@
                == old(self).data().subrange(old(self).pos(), old(self).pos() + len)
                && final(self).pos() == old(self).pos() + len),
            old(self).pos() + len > old(self).data().len() ==> r is Err && final(self).pos()
                == old(self).pos(),
    {
        if self.buffer.len() - self.offset < len {
            return Err(Error::Truncated);
        }
        let buf = vstd::slice::slice_subrange(self.buffer, self.offset, self.offset + len);
        self.offset = self.offset + len;
        Ok(buf)
    }
}

} // verus!
