//! The chunk-then-flush discipline shared by the textual output paths: output
//! bytes accumulate in memory and are handed out for writing once a fixed
//! high-water mark is reached, with whatever remains handed out at the end.

use vstd::prelude::*;
use vstd::string::StrSliceExecFns;
use vstd::string::StringSliceAdditionalSpecFns;

verus! {

/// The high-water mark of the CSV output buffers, in bytes.
pub const CSV_BUF_SIZE: usize = 150000;

/// How many frames the reconstruction queues before flushing them to the
/// image store.
pub const FRAME_BUF_SIZE: usize = 150;

/// An in-memory accumulator for output bytes with a fixed high-water mark.
pub struct WriteBuffer {
    pub data: Vec<u8>,
    pub high_water: usize,
}

impl WriteBuffer {
    /// An empty buffer with the given high-water mark.
    pub fn new(high_water: usize) -> (w: WriteBuffer)
        ensures
            w.data@ == Seq::<u8>::empty(),
            w.high_water == high_water,
    {
        let data: Vec<u8> = Vec::new();
        proof {
            assert(data@ =~= Seq::<u8>::empty());
        }
        WriteBuffer { data, high_water }
    }

    /// Appends the bytes of a piece of text to the buffer.
    pub fn push(&mut self, s: &str)
        ensures
            final(self).data@ == old(self).data@ + s.spec_bytes(),
            final(self).high_water == old(self).high_water,
    {
        let mut bytes = s.as_bytes_vec();
        self.data.append(&mut bytes);
    }

    /// Whether the buffer has reached its high-water mark and is due to be
    /// flushed.
    pub fn needs_flush(&self) -> (b: bool)
        ensures
            b == (self.data@.len() >= self.high_water),
    {
        self.data.len() >= self.high_water
    }

    /// Hands the accumulated bytes out for writing and empties the buffer.
    pub fn take(&mut self) -> (out: Vec<u8>)
        ensures
            out@ == old(self).data@,
            final(self).data@ == Seq::<u8>::empty(),
            final(self).high_water == old(self).high_water,
    {
        let out = self.data.split_off(0);
        proof {
            assert(out@ =~= old(self).data@);
            assert(final(self).data@ =~= Seq::<u8>::empty());
        }
        out
    }
}

} // verus!
