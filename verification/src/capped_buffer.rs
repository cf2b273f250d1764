//! A byte buffer that never grows past a fixed maximum capacity.

use vstd::prelude::*;

use crate::result::{Error, Kind};

verus! {

/// A wrapper around `Vec<u8>` whose write operations never let the buffer
/// exceed a maximum capacity fixed at construction.
pub struct CappedBuffer {
    buf: Vec<u8>,
    max: usize,
}

impl View for CappedBuffer {
    type V = Seq<u8>;

    closed spec fn view(&self) -> Seq<u8> {
        self.buf@
    }
}

impl CappedBuffer {
    /// The maximum number of bytes this buffer will ever hold.
    pub closed spec fn spec_max(&self) -> usize {
        self.max
    }

    /// The buffer never holds more than its maximum.
    pub open spec fn wf(&self) -> bool {
        self@.len() <= self.spec_max()
    }

    /// Create a new buffer with initial `capacity` (clamped to `max`) and a
    /// hard limit of `max` bytes.
    pub fn new(capacity: usize, max: usize) -> (r: Self)
        ensures
            r@ == Seq::<u8>::empty(),
            r.spec_max() == max,
            r.wf(),
    {
        let cap = if capacity > max {
            max
        } else {
            capacity
        };
        CappedBuffer { buf: Vec::with_capacity(cap), max }
    }

    /// How many more bytes can be written before the maximum is reached.
    pub fn remaining(&self) -> (r: usize)
        requires
            self.wf(),
        ensures
            r == self.spec_max() - self@.len(),
    {
        self.max - self.buf.len()
    }

    /// Drop the first `shift` bytes, moving the rest to the front; shifting
    /// by the whole length or more empties the buffer.
    pub fn shift(&mut self, shift: usize)
        ensures
            final(self)@ == (if shift >= old(self)@.len() {
                Seq::<u8>::empty()
            } else {
                old(self)@.skip(shift as int)
            }),
            final(self).spec_max() == old(self).spec_max(),
    {
        if shift >= self.buf.len() {
            self.buf.clear();
            return ;
        }
        let new_len = self.buf.len() - shift;
        for j in 0..new_len
            invariant
                new_len == old(self)@.len() - shift,
                shift + new_len <= self.buf@.len(),
                shift + new_len <= usize::MAX,
                self.buf@.len() == old(self)@.len(),
                self.max == old(self).spec_max(),
                forall|k: int| 0 <= k < j ==> self.buf@[k] == old(self)@[shift + k],
                forall|k: int| j <= k < self.buf@.len() ==> self.buf@[k] == old(self)@[k],
        {
            let b = self.buf[shift + j];
            self.buf[j] = b;
        }
        self.buf.truncate(new_len);
        proof {
            assert(self.buf@ =~= old(self)@.skip(shift as int));
        }
    }

    /// Append as much of `data` as fits under the maximum; the number of
    /// bytes actually appended is returned.
    pub fn write(&mut self, data: &[u8]) -> (r: usize)
        requires
            old(self).wf(),
        ensures
            final(self).wf(),
            final(self).spec_max() == old(self).spec_max(),
            r == (if data@.len() <= old(self).spec_max() - old(self)@.len() {
                data@.len() as int
            } else {
                old(self).spec_max() - old(self)@.len()
            }),
            final(self)@ == old(self)@ + data@.subrange(0, r as int),
    {
        let room = self.max - self.buf.len();
        let take = if data.len() > room {
            room
        } else {
            data.len()
        };
        let mut j: usize = 0;
        while j < take
            invariant
                j <= take,
                take <= data@.len(),
                self.buf@.len() == old(self)@.len() + j,
                take + old(self)@.len() <= self.max,
                self.max == old(self).spec_max(),
                self.buf@ =~= old(self)@ + data@.subrange(0, j as int),
            decreases take - j,
        {
            self.buf.push(data[j]);
            j = j + 1;
            proof {
                assert(self.buf@ =~= old(self)@ + data@.subrange(0, j as int));
            }
        }
        take
    }

    /// Append all of `data`, or fail with a capacity error, leaving the
    /// buffer unchanged, when it does not fit under the maximum.
    pub fn write_all(&mut self, data: &[u8]) -> (r: Result<(), Error>)
        requires
            old(self).wf(),
        ensures
            final(self).wf(),
            final(self).spec_max() == old(self).spec_max(),
            match r {
                Ok(()) => data@.len() <= old(self).spec_max() - old(self)@.len() && final(self)@
                    == old(self)@ + data@,
                Err(e) => data@.len() > old(self).spec_max() - old(self)@.len() && final(self)@
                    == old(self)@ && e.kind == Kind::Capacity,
            },
    {
        let room = self.max - self.buf.len();
        if data.len() <= room {
            let n = self.write(data);
            proof {
                assert(data@.subrange(0, n as int) =~= data@);
            }
            Ok(())
        } else {
            Err(Error::new(Kind::Capacity, "Exceeded maximum buffer capacity"))
        }
    }

    /// Borrow the buffered bytes.
    pub fn as_vec(&self) -> (r: &Vec<u8>)
        ensures
            r@ == self@,
    {
        &self.buf
    }
}

} // verus!
