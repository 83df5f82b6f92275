//! A byte source over bytes in memory.
use crate::data_provider::{ByteSource, SourceError};
use vstd::prelude::*;

verus! {

/// A byte source that hands out the bytes it was made with, or fails on
/// every read.
pub struct FakeDataReader {
    buffer: Vec<u8>,
    pointer: usize,
    failing: bool,
}

impl FakeDataReader {
    #[verifier::type_invariant]
    spec fn pointer_in_buffer(self) -> bool {
        self.pointer <= self.buffer@.len()
    }

    /// A source of the bytes of `buffer`.  Where `failing` is set the source
    /// hands out none of them and fails on every read.
    pub fn new(buffer: Vec<u8>, failing: bool) -> (reader: FakeDataReader)
        ensures
            reader.failure() == if failing {
                Some("Fail"@)
            } else {
                None
            },
            reader.pending() == if failing {
                Seq::<u8>::empty()
            } else {
                buffer@
            },
    {
        FakeDataReader { buffer, pointer: 0, failing }
    }
}

impl ByteSource for FakeDataReader {
    closed spec fn pending(&self) -> Seq<u8> {
        if self.failing {
            Seq::empty()
        } else {
            self.buffer@.skip(self.pointer as int)
        }
    }

    closed spec fn failure(&self) -> Option<Seq<char>> {
        if self.failing {
            Some("Fail"@)
        } else {
            None
        }
    }

    /// Hands out as many of the pending bytes as `buf` takes.
    fn read(&mut self, buf: &mut [u8]) -> (count: Result<usize, SourceError>)
        ensures
            count is Ok ==> count->Ok_0 == if old(buf)@.len() < old(self).pending().len() {
                old(buf)@.len()
            } else {
                old(self).pending().len()
            },
            count is Err ==> final(buf)@ == old(buf)@,
    {
        proof {
            use_type_invariant(&*self);
        }
        if self.failing {
            return Err(SourceError { message: "Fail".to_owned() });
        }
        let total = self.buffer.len();
        let left = total - self.pointer;
        let copy_size = if buf.len() < left {
            buf.len()
        } else {
            left
        };
        let mut i: usize = 0;
        while i < copy_size
            invariant
                i <= copy_size,
                copy_size <= buf@.len(),
                self.pointer + copy_size <= total == self.buffer@.len(),
                buf@.len() == old(buf)@.len(),
                *self == *old(self),
                forall|j: int| 0 <= j < i ==> buf@[j] == self.buffer@[self.pointer + j],
            decreases copy_size - i,
        {
            buf[i] = self.buffer[self.pointer + i];
            i += 1;
        }
        self.pointer = self.pointer + copy_size;
        Ok(copy_size)
    }
}

} // verus!
