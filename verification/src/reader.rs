//! A seekable byte source that is held in memory.

use vstd::prelude::*;
use vstd::slice::{slice_subrange, slice_to_vec};

verus! {

/// The bytes of a source together with a read position, which never lies
/// past the end of the bytes.
#[derive(Debug)]
pub struct Reader {
    data: Vec<u8>,
    position: usize,
}

impl Reader {
    #[verifier::type_invariant]
    spec fn position_in_bounds(self) -> bool {
        self.position <= self.data@.len()
    }

    /// All bytes of the source, whatever the read position.
    pub closed spec fn bytes(self) -> Seq<u8> {
        self.data@
    }

    /// The read position, counted from the start of the source.
    pub closed spec fn position(self) -> int {
        self.position as int
    }

    /// The bytes and the position of a source can be counted in a `usize`.
    pub proof fn lemma_fits_usize(self)
        ensures
            self.bytes().len() <= usize::MAX,
            0 <= self.position() <= usize::MAX,
    {
        assert(self.data@.len() == self.data.len());
    }

    /// A source over `data`, positioned at its start.
    pub fn new(data: Vec<u8>) -> (reader: Reader)
        ensures
            reader.bytes() == data@,
            reader.position() == 0,
    {
        Reader { data, position: 0 }
    }

    /// The read position.
    pub fn stream_position(&self) -> (position: u64)
        ensures
            position == self.position(),
            self.position() <= self.bytes().len(),
    {
        proof {
            use_type_invariant(self);
        }
        self.position as u64
    }

    /// The number of bytes between the read position and the end.
    pub fn remaining(&self) -> (count: usize)
        ensures
            count == self.bytes().len() - self.position(),
    {
        proof {
            use_type_invariant(self);
        }
        self.data.len() - self.position
    }

    /// Reads up to `count` bytes: fewer only where the source ends before,
    /// and then all that are left. The position moves past what was read.
    pub fn read(&mut self, count: u64) -> (chunk: Vec<u8>)
        ensures
            final(self).bytes() == old(self).bytes(),
            final(self).position() == old(self).position() + chunk@.len(),
            final(self).position() <= old(self).bytes().len(),
            chunk@.len() == count || (chunk@.len() < count && final(self).position() == old(
                self,
            ).bytes().len()),
            chunk@ == old(self).bytes().subrange(old(self).position(), final(self).position()),
    {
        proof {
            use_type_invariant(&*self);
        }
        let left = self.data.len() - self.position;
        let taken = if count > left as u64 {
            left
        } else {
            count as usize
        };
        let end = self.position + taken;
        let chunk = slice_to_vec(slice_subrange(self.data.as_slice(), self.position, end));
        self.position = end;
        chunk
    }

    /// Reads all bytes from the position to the end of the source.
    pub fn read_to_end(&mut self) -> (rest: Vec<u8>)
        ensures
            final(self).bytes() == old(self).bytes(),
            final(self).position() == old(self).bytes().len(),
            rest@ == old(self).bytes().skip(old(self).position()),
    {
        proof {
            use_type_invariant(&*self);
        }
        let end = self.data.len();
        let rest = slice_to_vec(slice_subrange(self.data.as_slice(), self.position, end));
        self.position = end;
        rest
    }

    /// Moves the position to `target`, counted from the start of the source,
    /// unless `target` lies past the end: then nothing moves.
    pub fn seek(&mut self, target: u64) -> (moved: bool)
        ensures
            final(self).bytes() == old(self).bytes(),
            moved == (target <= old(self).bytes().len()),
            final(self).position() == if moved {
                target as int
            } else {
                old(self).position()
            },
    {
        if target <= self.data.len() as u64 {
            self.position = target as usize;
            true
        } else {
            false
        }
    }

    /// Moves the position forward by `count` bytes, unless fewer are left:
    /// then nothing moves.
    pub fn skip(&mut self, count: u64) -> (moved: bool)
        ensures
            final(self).bytes() == old(self).bytes(),
            moved == (old(self).position() + count <= old(self).bytes().len()),
            final(self).position() == if moved {
                old(self).position() + count
            } else {
                old(self).position()
            },
    {
        proof {
            use_type_invariant(&*self);
        }
        let left = self.data.len() - self.position;
        if count <= left as u64 {
            self.position = self.position + count as usize;
            true
        } else {
            false
        }
    }
}

} // verus!
