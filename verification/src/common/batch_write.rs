//! A writer that gathers small writes and hands them on in batches: when
//! its buffer is full, and whenever it is flushed.

use vstd::prelude::*;

verus! {

/// The size of the write buffer of a connection.
pub const WRITE_BUF_SIZE: usize = 16384;

/// The bytes that are written and not handed on yet.
pub struct CircularBufWriter {
    buf: Vec<u8>,
    capacity: usize,
}

impl CircularBufWriter {
    /// The bytes that wait to be handed on.
    pub closed spec fn buffered(&self) -> Seq<u8> {
        self.buf@
    }

    /// The number of bytes from which on the writer hands on by itself.
    pub closed spec fn capacity(&self) -> usize {
        self.capacity
    }

    /// A writer with an empty buffer.
    pub fn new(capacity: usize) -> (writer: CircularBufWriter)
        ensures
            writer.buffered() == Seq::<u8>::empty(),
            writer.capacity() == capacity,
    {
        CircularBufWriter { buf: Vec::new(), capacity }
    }

    /// Takes `bytes`. While the buffer holds less than its capacity the
    /// bytes wait and nothing is handed on; once it holds that much, all of
    /// it is handed on. No byte is lost and none changes its place.
    pub fn write(&mut self, bytes: &[u8]) -> (out: Vec<u8>)
        ensures
            final(self).capacity() == old(self).capacity(),
            out@ + final(self).buffered() == old(self).buffered() + bytes@,
            if old(self).buffered().len() + bytes@.len() < old(self).capacity() {
                out@.len() == 0
            } else {
                final(self).buffered().len() == 0
            },
    {
        let mut i: usize = 0;
        while i < bytes.len()
            invariant
                i <= bytes.len(),
                self.capacity == old(self).capacity,
                self.buf@ == old(self).buf@ + bytes@.take(i as int),
            decreases bytes.len() - i,
        {
            self.buf.push(bytes[i]);
            i += 1;
        }
        assert(bytes@.take(i as int) =~= bytes@);
        if self.buf.len() >= self.capacity {
            self.flush()
        } else {
            let out: Vec<u8> = Vec::new();
            assert(out@ + self.buf@ =~= self.buf@);
            out
        }
    }

    /// Hands on all that waits; the buffer is empty behind it. Flushing an
    /// empty buffer hands on nothing and is harmless.
    pub fn flush(&mut self) -> (out: Vec<u8>)
        ensures
            final(self).capacity() == old(self).capacity(),
            out@ == old(self).buffered(),
            final(self).buffered() == Seq::<u8>::empty(),
    {
        let mut out: Vec<u8> = Vec::new();
        std::mem::swap(&mut out, &mut self.buf);
        out
    }

    /// The number of bytes that wait.
    pub fn len(&self) -> (n: usize)
        ensures
            n == self.buffered().len(),
    {
        self.buf.len()
    }
}

} // verus!
