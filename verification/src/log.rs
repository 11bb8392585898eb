//! A log that keeps the latest bytes.

use bytes::Bytes;
use vstd::prelude::*;

use crate::arena::{bytes_from, bytes_to_vec};
use crate::vfs::{VfsCtx, WriteOutcome};
use crate::vfs_path::VfsResult;

verus! {

/// The capacity of a log where none is given.
pub const DEFAULT_LOG_BUFFER_BYTES: usize = 131072;

/// A ring of bytes: what is appended pushes the oldest bytes out.
#[derive(Debug)]
pub struct LogBuffer {
    buf: Vec<u8>,
    start: usize,
    len: usize,
}

/// The place in a ring of `capacity` bytes that lies `i` behind `start`.
spec fn ring_index(start: int, i: int, capacity: int) -> int {
    if start + i < capacity {
        start + i
    } else {
        start + i - capacity
    }
}

/// The last `n` bytes of `s`, or all of them where there are fewer.
pub open spec fn tail(s: Seq<u8>, n: int) -> Seq<u8> {
    if s.len() <= n {
        s
    } else {
        s.skip(s.len() - n)
    }
}

impl View for LogBuffer {
    type V = Seq<u8>;

    closed spec fn view(&self) -> Seq<u8> {
        Seq::new(
            self.len as nat,
            |i: int| self.buf@[ring_index(self.start as int, i, self.buf@.len() as int)],
        )
    }
}

impl LogBuffer {
    pub closed spec fn wf(&self) -> bool {
        &&& self.len <= self.buf@.len()
        &&& self.buf@.len() > 0 ==> self.start < self.buf@.len()
    }

    /// How many bytes the log keeps.
    pub closed spec fn capacity(&self) -> nat {
        self.buf@.len()
    }

    /// An empty log that keeps `capacity` bytes.
    pub fn new(capacity: usize) -> (r: LogBuffer)
        requires
            capacity <= isize::MAX,
        ensures
            r.wf(),
            r.capacity() == capacity,
            r@ == Seq::<u8>::empty(),
    {
        let r = LogBuffer { buf: vec![0u8; capacity], start: 0, len: 0 };
        proof {
            assert(r@ =~= Seq::<u8>::empty());
        }
        r
    }

    /// Appends bytes; the oldest give way where there is no room.
    pub fn append(&mut self, data: &[u8])
        requires
            old(self).wf(),
        ensures
            final(self).wf(),
            final(self).capacity() == old(self).capacity(),
            final(self)@ == tail(old(self)@ + data@, old(self).capacity() as int),
    {
        let capacity: usize = self.buf.len();
        if capacity == 0 || data.len() == 0 {
            proof {
                assert(self@ =~= tail(old(self)@ + data@, capacity as int));
            }
            return ;
        }
        if data.len() >= capacity {
            let first: usize = data.len() - capacity;
            let mut k: usize = 0;
            while k < capacity
                invariant
                    k <= capacity,
                    capacity == self.buf@.len(),
                    first + capacity == data@.len(),
                    forall|j: int| 0 <= j < k ==> self.buf@[j] == data@[first + j],
                decreases capacity - k,
            {
                proof {
                    assert(first + k < data.len());
                }
                self.buf.set(k, data[first + k]);
                k = k + 1;
            }
            self.start = 0;
            self.len = capacity;
            proof {
                assert(self@ =~= tail(old(self)@ + data@, capacity as int));
            }
            return ;
        }
        let mut i: usize = 0;
        proof {
            assert(old(self)@ + data@.take(0) =~= old(self)@);
        }
        while i < data.len()
            invariant
                i <= data.len(),
                self.wf(),
                capacity > 0,
                capacity == self.buf@.len(),
                capacity == old(self).capacity(),
                old(self).wf(),
                self@ == tail(old(self)@ + data@.take(i as int), capacity as int),
            decreases data.len() - i,
        {
            let byte = data[i];
            let ghost before = self@;
            if self.len < capacity {
                let idx: usize = if self.len < capacity - self.start {
                    self.start + self.len
                } else {
                    self.len - (capacity - self.start)
                };
                self.buf.set(idx, byte);
                self.len = self.len + 1;
                proof {
                    assert(self@ =~= before.push(byte));
                }
            } else {
                self.buf.set(self.start, byte);
                self.start = if self.start + 1 < capacity {
                    self.start + 1
                } else {
                    0
                };
                proof {
                    assert(self@ =~= before.skip(1).push(byte));
                }
            }
            proof {
                let so_far = old(self)@ + data@.take(i as int);
                assert(old(self)@ + data@.take(i + 1) =~= so_far.push(byte));
                assert(self@ =~= tail(so_far.push(byte), capacity as int));
            }
            i = i + 1;
        }
        proof {
            assert(data@.take(data@.len() as int) =~= data@);
        }
    }

    /// The bytes that the log keeps, oldest first.
    pub fn snapshot(&self) -> (r: Bytes)
        requires
            self.wf(),
        ensures
            crate::arena::bytes_contents(r) == self@,
    {
        let capacity: usize = self.buf.len();
        let mut out: Vec<u8> = Vec::new();
        let mut i: usize = 0;
        while i < self.len
            invariant
                i <= self.len,
                self.wf(),
                capacity == self.buf@.len(),
                out@ == self@.take(i as int),
            decreases self.len - i,
        {
            let idx: usize = if i < capacity - self.start {
                self.start + i
            } else {
                i - (capacity - self.start)
            };
            out.push(self.buf[idx]);
            proof {
                assert(self@.take(i + 1) =~= self@.take(i as int).push(self@[i as int]));
            }
            i = i + 1;
        }
        proof {
            assert(self@.take(self@.len() as int) =~= self@);
        }
        bytes_from(out)
    }

    /// Reads the log as a file: its snapshot.
    pub fn read(&self, _ctx: &VfsCtx) -> (r: VfsResult<Bytes>)
        requires
            self.wf(),
        ensures
            r matches Ok(b) && crate::arena::bytes_contents(b) == self@,
    {
        Ok(self.snapshot())
    }

    /// Writes to the log as a file: the bytes are appended, and nothing is
    /// announced.
    pub fn write(&mut self, _ctx: &VfsCtx, data: Bytes) -> (r: VfsResult<WriteOutcome>)
        requires
            old(self).wf(),
        ensures
            final(self).wf(),
            final(self).capacity() == old(self).capacity(),
            final(self)@ == tail(
                old(self)@ + crate::arena::bytes_contents(data),
                old(self).capacity() as int,
            ),
            r == Ok::<WriteOutcome, crate::vfs_path::VfsError>(WriteOutcome::Stored),
    {
        let bytes = bytes_to_vec(&data);
        self.append(bytes.as_slice());
        Ok(WriteOutcome::Stored)
    }
}

impl Default for LogBuffer {
    fn default() -> (r: LogBuffer)
        ensures
            r.wf(),
            r.capacity() == DEFAULT_LOG_BUFFER_BYTES,
            r@ == Seq::<u8>::empty(),
    {
        LogBuffer::new(DEFAULT_LOG_BUFFER_BYTES)
    }
}

/// However the bytes come in, a log keeps the last of all that were ever
/// appended: appending twice is appending once.
pub proof fn lemma_appends_compose(s: Seq<u8>, a: Seq<u8>, b: Seq<u8>, capacity: int)
    requires
        capacity >= 0,
    ensures
        tail(tail(s + a, capacity) + b, capacity) == tail(s + (a + b), capacity),
{
    let one = tail(s + a, capacity);
    assert(tail(one + b, capacity) =~= tail(s + (a + b), capacity));
}

} // verus!
