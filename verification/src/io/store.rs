use vstd::prelude::*;

verus! {

/// A seekable source of bytes that a reader can fetch ranges from: a file,
/// or a buffer in memory.
///
/// A store that is `reliable` stands for a fixed sequence of bytes, `bytes`,
/// and answers for it: a fetch succeeds exactly when the requested range
/// lies within the bytes, and then delivers them. Of a store that is not,
/// nothing is known; that is what a store says of itself unless it states
/// otherwise.
pub trait ByteStore {
    /// The bytes that the store holds.
    open spec fn bytes(&self) -> Seq<u8> {
        Seq::empty()
    }

    /// Whether the store answers every fetch as `bytes` has it.
    open spec fn reliable(&self) -> bool {
        false
    }

    /// Fetches as many bytes as `buf` is long, starting `offset` bytes into
    /// the store, into `buf`. Returns whether all of them were delivered;
    /// if not, the contents of `buf` are unspecified.
    fn read_at(&mut self, offset: u64, buf: &mut [u8]) -> (ok: bool)
        ensures
            final(self).bytes() == old(self).bytes(),
            final(self).reliable() == old(self).reliable(),
            final(buf)@.len() == old(buf)@.len(),
            old(self).reliable() ==> (ok <==> offset + old(buf)@.len() <= old(self).bytes().len()),
            old(self).reliable() && ok ==> forall|i: int|
                0 <= i < old(buf)@.len() ==> #[trigger] final(buf)@[i] == old(self).bytes()[offset
                    + i],
    ;
}

/// A byte store held in memory.
#[derive(Debug)]
pub struct MemoryStore {
    bytes: Vec<u8>,
}

impl MemoryStore {
    /// A store that holds `bytes`.
    pub fn new(bytes: Vec<u8>) -> (r: Self)
        ensures
            r.bytes() == bytes@,
            r.reliable(),
    {
        MemoryStore { bytes }
    }

    /// Gives the bytes back.
    pub fn into_inner(self) -> (r: Vec<u8>)
        ensures
            r@ == self.bytes(),
    {
        self.bytes
    }
}

impl ByteStore for MemoryStore {
    closed spec fn bytes(&self) -> Seq<u8> {
        self.bytes@
    }

    closed spec fn reliable(&self) -> bool {
        true
    }

    fn read_at(&mut self, offset: u64, buf: &mut [u8]) -> (ok: bool) {
        let size = self.bytes.len();
        let len = buf.len();
        if offset > size as u64 || len as u64 > size as u64 - offset {
            return false;
        }
        let start = offset as usize;
        let mut i: usize = 0;
        while i < len
            invariant
                i <= len,
                len == buf@.len(),
                buf@.len() == old(buf)@.len(),
                start + len <= self.bytes.len(),
                start == offset,
                self.bytes() == old(self).bytes(),
                forall|k: int| 0 <= k < i ==> #[trigger] buf@[k] == self.bytes@[start + k],
            decreases len - i,
        {
            buf[i] = self.bytes[start + i];
            i = i + 1;
        }
        true
    }
}

} // verus!
