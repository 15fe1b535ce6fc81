//! A pool that recycles line buffers from one source to the next.

use crate::line_buffer::{AsyncLineBuffer, AsyncLineBufferBuilder};
use vstd::prelude::*;

verus! {

/// The longest storage a buffer is created with, however large the source
/// it is meant for.
pub const MAX_START_CAPACITY: usize = 1048576;

/// The number of buffers a new pool holds ready.
pub const WARM_BUFFERS: usize = 4;

/// The length of the storage a buffer is created with for a source of
/// `size_hint` bytes.
pub open spec fn start_capacity(size_hint: usize) -> usize {
    if size_hint < MAX_START_CAPACITY {
        size_hint
    } else {
        MAX_START_CAPACITY
    }
}

/// Line buffers that are idle. A buffer taken out belongs to the taker alone
/// until it is handed back; every buffer in the pool is clean.
#[derive(Debug)]
pub struct BufferPool {
    pool: Vec<AsyncLineBuffer>,
}

impl BufferPool {
    /// The idle buffers; the one handed back last is the last.
    pub closed spec fn idle(&self) -> Seq<AsyncLineBuffer> {
        self.pool@
    }

    /// The invariant of the pool: every idle buffer is well formed and clean.
    pub open spec fn wf(&self) -> bool {
        forall|i: int|
            0 <= i < self.idle().len() ==> {
                &&& (#[trigger] self.idle()[i]).wf()
                &&& self.idle()[i].is_clean()
                &&& self.idle()[i].pending() == Seq::<u8>::empty()
            }
    }

    /// A pool with a few buffers of the default size ready.
    pub fn new() -> (pool: Self)
        ensures
            pool.wf(),
            pool.idle().len() == WARM_BUFFERS,
            forall|i: int|
                0 <= i < pool.idle().len() ==> (#[trigger] pool.idle()[i]).capacity() == 8192
                    && pool.idle()[i].newline_byte() == 0x0a,
    {
        let mut pool: Vec<AsyncLineBuffer> = Vec::new();
        let mut made: usize = 0;
        while made < WARM_BUFFERS
            invariant
                made <= WARM_BUFFERS,
                pool@.len() == made,
                forall|i: int|
                    0 <= i < pool@.len() ==> {
                        &&& (#[trigger] pool@[i]).wf()
                        &&& pool@[i].is_clean()
                        &&& pool@[i].pending() == Seq::<u8>::empty()
                        &&& pool@[i].capacity() == 8192
                        &&& pool@[i].newline_byte() == 0x0a
                    },
            decreases WARM_BUFFERS - made,
        {
            pool.push(AsyncLineBufferBuilder::new().build());
            made += 1;
        }
        Self { pool }
    }

    /// A clean buffer for a source of `size_hint` bytes: the idle buffer
    /// handed back last, whatever its size, or, where none is idle, a new
    /// one sized by the hint.
    pub fn acquire(&mut self, size_hint: usize) -> (buffer: AsyncLineBuffer)
        requires
            old(self).wf(),
        ensures
            final(self).wf(),
            buffer.wf(),
            buffer.is_clean(),
            buffer.pending() == Seq::<u8>::empty(),
            old(self).idle().len() > 0 ==> {
                &&& buffer == old(self).idle().last()
                &&& final(self).idle() == old(self).idle().drop_last()
            },
            old(self).idle().len() == 0 ==> {
                &&& buffer.capacity() == start_capacity(size_hint)
                &&& buffer.newline_byte() == 0x0a
                &&& final(self).idle() == old(self).idle()
            },
    {
        match self.try_get_existing() {
            Some(buffer) => buffer,
            None => Self::generate_new(size_hint),
        }
    }

    /// Cleans `buffer` and puts it among the idle ones.
    pub fn return_to_pool(&mut self, buffer: AsyncLineBuffer)
        requires
            old(self).wf(),
        ensures
            final(self).wf(),
            final(self).idle().len() == old(self).idle().len() + 1,
            final(self).idle().drop_last() == old(self).idle(),
            final(self).idle().last().capacity() == buffer.capacity(),
            final(self).idle().last().newline_byte() == buffer.newline_byte(),
    {
        let mut buffer = buffer;
        buffer.refresh();
        self.pool.push(buffer);
        proof {
            assert(self.pool@.drop_last() =~= old(self).pool@);
            assert forall|i: int| 0 <= i < self.idle().len() implies {
                &&& (#[trigger] self.idle()[i]).wf()
                &&& self.idle()[i].is_clean()
                &&& self.idle()[i].pending() == Seq::<u8>::empty()
            } by {
                if i < old(self).idle().len() {
                    assert(self.idle()[i] == old(self).idle()[i]);
                }
            }
        }
    }

    /// The number of idle buffers.
    pub fn pool_size(&self) -> (n: usize)
        ensures
            n == self.idle().len(),
    {
        self.pool.len()
    }

    /// A new buffer for a source of `size_hint` bytes.
    pub fn generate_new(size_hint: usize) -> (buffer: AsyncLineBuffer)
        ensures
            buffer.wf(),
            buffer.is_clean(),
            buffer.pending() == Seq::<u8>::empty(),
            buffer.capacity() == start_capacity(size_hint),
            buffer.newline_byte() == 0x0a,
    {
        let capacity: usize = if size_hint < MAX_START_CAPACITY {
            size_hint
        } else {
            MAX_START_CAPACITY
        };
        AsyncLineBufferBuilder::new().with_read_capacity(capacity).build()
    }

    /// The idle buffer handed back last, if any is idle.
    pub fn try_get_existing(&mut self) -> (buffer: Option<AsyncLineBuffer>)
        requires
            old(self).wf(),
        ensures
            final(self).wf(),
            buffer is Some == (old(self).idle().len() > 0),
            buffer matches Some(found) ==> {
                &&& found == old(self).idle().last()
                &&& found.wf()
                &&& found.is_clean()
                &&& found.pending() == Seq::<u8>::empty()
                &&& final(self).idle() == old(self).idle().drop_last()
            },
            buffer is None ==> final(self).idle() == old(self).idle(),
    {
        let found = self.pool.pop();
        proof {
            if old(self).pool@.len() > 0 {
                assert(self.pool@ =~= old(self).pool@.drop_last());
                assert forall|i: int| 0 <= i < self.idle().len() implies {
                    &&& (#[trigger] self.idle()[i]).wf()
                    &&& self.idle()[i].is_clean()
                    &&& self.idle()[i].pending() == Seq::<u8>::empty()
                } by {
                    assert(self.idle()[i] == old(self).idle()[i]);
                }
            }
        }
        found
    }
}

} // verus!
