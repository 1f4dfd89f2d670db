//! The buffer for sequential reads and writes of one worker.

use vstd::prelude::*;

verus! {

/// The size of a buffer.
pub const BLOCKING_IO_BUFFER_BYTES: usize = 1_048_576;

/// A buffer that is kept between uses. While it is in use, further uses get
/// buffers of their own.
pub struct BlockingBuffer {
    kept: Option<Vec<u8>>,
    lent: bool,
}

impl BlockingBuffer {
    /// Whether the kept buffer is in use.
    pub closed spec fn in_use(&self) -> bool {
        self.lent
    }

    /// The kept buffer, where there is one at hand.
    pub closed spec fn at_hand(&self) -> Option<Seq<u8>> {
        match self.kept {
            Some(buffer) => Some(buffer@),
            None => None,
        }
    }

    pub fn new() -> (slot: BlockingBuffer)
        ensures
            !slot.in_use(),
            slot.at_hand() is None,
    {
        BlockingBuffer { kept: None, lent: false }
    }

    /// Lends a buffer: the kept one, unless it is in use. Says whether it is to
    /// be given back.
    pub fn lend(&mut self) -> (lent: (Vec<u8>, bool))
        ensures
            lent.0@.len() == BLOCKING_IO_BUFFER_BYTES,
            lent.1 == !old(self).in_use(),
            final(self).in_use(),
            old(self).in_use() ==> final(self).at_hand() == old(self).at_hand(),
            !old(self).in_use() ==> final(self).at_hand() is None,
            !old(self).in_use() && old(self).at_hand() is Some && old(self).at_hand()->0.len()
                == BLOCKING_IO_BUFFER_BYTES ==> old(self).at_hand() == Some(lent.0@),
    {
        if self.lent {
            return (vec![0u8; BLOCKING_IO_BUFFER_BYTES], false);
        }
        self.lent = true;
        match self.kept.take() {
            Some(buffer) => {
                if buffer.len() == BLOCKING_IO_BUFFER_BYTES {
                    (buffer, true)
                } else {
                    (vec![0u8; BLOCKING_IO_BUFFER_BYTES], true)
                }
            },
            None => (vec![0u8; BLOCKING_IO_BUFFER_BYTES], true),
        }
    }

    /// Takes the kept buffer back.
    pub fn give_back(&mut self, buffer: Vec<u8>)
        ensures
            !final(self).in_use(),
            final(self).at_hand() == Some(buffer@),
    {
        self.kept = Some(buffer);
        self.lent = false;
    }
}

} // verus!
