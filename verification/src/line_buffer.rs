//! A growable byte buffer that hands out complete lines from a stream of bytes.

use std::collections::VecDeque;
use vstd::prelude::*;

verus! {

/// Where every occurrence of `byte` in `bytes[start..end)` is listed in
/// `breaks`, in ascending order and with nothing else.
pub open spec fn breaks_mark_newlines(
    breaks: Seq<usize>,
    bytes: Seq<u8>,
    start: int,
    end: int,
    byte: u8,
) -> bool {
    &&& forall|i: int|
        0 <= i < breaks.len() ==> start <= #[trigger] breaks[i] < end && bytes[breaks[i] as int]
            == byte
    &&& forall|i: int, j: int| 0 <= i < j < breaks.len() ==> breaks[i] < breaks[j]
    &&& forall|p: int|
        start <= p < end && #[trigger] bytes[p] == byte ==> exists|i: int|
            0 <= i < breaks.len() && breaks[i] == p
}

/// Breaks recorded for one storage hold for any other that agrees with it on
/// `[start, end)`.
proof fn lemma_breaks_survive_equal_bytes(
    breaks: Seq<usize>,
    a: Seq<u8>,
    b: Seq<u8>,
    start: int,
    end: int,
    byte: u8,
)
    requires
        breaks_mark_newlines(breaks, a, start, end, byte),
        forall|p: int| start <= p < end ==> a[p] == b[p],
    ensures
        breaks_mark_newlines(breaks, b, start, end, byte),
{
    assert forall|p: int| start <= p < end && #[trigger] b[p] == byte implies exists|i: int|
        0 <= i < breaks.len() && breaks[i] == p by {
        assert(a[p] == byte);
    }
}

/// A source of bytes held in memory. It hands its bytes out front to back, at
/// most `chunk_len` of them at a time, and offers nothing once all are read.
#[derive(Debug)]
pub struct MemoryReader {
    bytes: Vec<u8>,
    position: usize,
    chunk_len: usize,
}

impl MemoryReader {
    /// The invariant of the source: the position lies inside the bytes, and a
    /// read hands out at least one byte while any is left.
    pub closed spec fn wf(&self) -> bool {
        self.position <= self.bytes@.len() && self.chunk_len > 0
    }

    /// The bytes not yet read.
    pub closed spec fn remaining(&self) -> Seq<u8> {
        self.bytes@.subrange(self.position as int, self.bytes@.len() as int)
    }

    /// The most bytes one read hands out.
    pub closed spec fn chunk_len(&self) -> usize {
        self.chunk_len
    }

    /// A source over `bytes` that hands out as much as each read asks for.
    pub fn new(bytes: Vec<u8>) -> (reader: Self)
        ensures
            reader.wf(),
            reader.remaining() == bytes@,
            reader.chunk_len() == usize::MAX,
    {
        assert(bytes@.subrange(0, bytes@.len() as int) =~= bytes@);
        Self { bytes, position: 0, chunk_len: usize::MAX }
    }

    /// Bounds what one read hands out.
    pub fn with_chunk_len(self, chunk_len: usize) -> (reader: Self)
        requires
            self.wf(),
            chunk_len > 0,
        ensures
            reader.wf(),
            reader.remaining() == self.remaining(),
            reader.chunk_len() == chunk_len,
    {
        Self { bytes: self.bytes, position: self.position, chunk_len }
    }

    /// How many bytes are not yet read.
    pub fn remaining_len(&self) -> (n: usize)
        requires
            self.wf(),
        ensures
            n == self.remaining().len(),
    {
        self.bytes.len() - self.position
    }

    /// The bytes that a read into `room` bytes of space would receive.
    pub fn offer(&self, room: usize) -> (offered: &[u8])
        requires
            self.wf(),
        ensures
            offered@ == self.remaining().subrange(0, offered@.len() as int),
            offered@.len() == vstd::math::min(
                vstd::math::min(room as int, self.chunk_len() as int),
                self.remaining().len() as int,
            ),
    {
        let left: usize = self.bytes.len() - self.position;
        let bound: usize = if room < self.chunk_len {
            room
        } else {
            self.chunk_len
        };
        let count: usize = if left < bound {
            left
        } else {
            bound
        };
        let offered = vstd::slice::slice_subrange(
            self.bytes.as_slice(),
            self.position,
            self.position + count,
        );
        assert(offered@ =~= self.remaining().subrange(0, count as int));
        offered
    }

    /// Marks the first `count` of the remaining bytes as read.
    pub fn advance(&mut self, count: usize)
        requires
            old(self).wf(),
            count <= old(self).remaining().len(),
        ensures
            final(self).wf(),
            final(self).chunk_len() == old(self).chunk_len(),
            final(self).remaining() == old(self).remaining().skip(count as int),
    {
        assert(self.bytes@.len() == self.bytes.len());
        self.position = self.position + count;
        assert(self.remaining() =~= old(self).remaining().skip(count as int));
    }
}

/// What the read loop does next.
#[derive(Clone, Copy, Debug, PartialEq, Eq, Structural)]
pub enum ReadAction {
    /// A complete line is waiting: take it.
    ConsumeLine,
    /// No complete line is waiting and the source may hold more: roll the
    /// buffer to its front and fill it.
    Fill,
    /// No complete line is waiting and the source is exhausted: take what is
    /// left as the last line.
    ConsumeRemaining,
}

/// Configures and creates an [`AsyncLineBuffer`].
#[derive(Debug)]
pub struct AsyncLineBufferBuilder {
    newline_byte: u8,
    read_capacity: usize,
}

impl AsyncLineBufferBuilder {
    /// The line terminator the built buffer will look for.
    pub closed spec fn newline_byte(&self) -> u8 {
        self.newline_byte
    }

    /// The length the built buffer starts with.
    pub closed spec fn read_capacity(&self) -> usize {
        self.read_capacity
    }

    /// A builder for a buffer of 8 KiB that splits at `\n`.
    pub fn new() -> (builder: Self)
        ensures
            builder.newline_byte() == 0x0a,
            builder.read_capacity() == 8192,
    {
        Self { newline_byte: 0x0a, read_capacity: 8192 }
    }

    /// A builder for a buffer that owns no memory until it is first filled.
    pub fn empty() -> (builder: Self)
        ensures
            builder.newline_byte() == 0x0a,
            builder.read_capacity() == 0,
    {
        Self { newline_byte: 0x0a, read_capacity: 0 }
    }

    /// Sets the length the buffer starts with.
    pub fn with_read_capacity(self, read_capacity: usize) -> (builder: Self)
        ensures
            builder.newline_byte() == self.newline_byte(),
            builder.read_capacity() == read_capacity,
    {
        Self { newline_byte: self.newline_byte, read_capacity }
    }

    /// Sets the byte that ends a line.
    pub fn with_newline_byte(self, newline_byte: u8) -> (builder: Self)
        ensures
            builder.newline_byte() == newline_byte,
            builder.read_capacity() == self.read_capacity(),
    {
        Self { newline_byte, read_capacity: self.read_capacity }
    }

    /// Creates the buffer: zeroed, of the configured length, holding nothing.
    pub fn build(self) -> (buffer: AsyncLineBuffer)
        ensures
            buffer.wf(),
            buffer.capacity() == self.read_capacity(),
            buffer.newline_byte() == self.newline_byte(),
            buffer.is_clean(),
            buffer.pending() == Seq::<u8>::empty(),
    {
        let mut bytes: Vec<u8> = Vec::new();
        bytes.resize(self.read_capacity, 0u8);
        let buffer = AsyncLineBuffer {
            buffer: bytes,
            line_break_byte: self.newline_byte,
            line_break_idxs: VecDeque::new(),
            start: 0,
            end: 0,
        };
        assert(buffer.pending() =~= Seq::<u8>::empty());
        buffer
    }
}

/// A window onto a stream of bytes, from which whole lines are taken.
///
/// The bytes in `[start, end)` of the backing storage have been received and
/// not yet consumed; the positions of the line terminators among them are kept
/// in a queue, earliest first.
#[derive(Debug)]
pub struct AsyncLineBuffer {
    buffer: Vec<u8>,
    line_break_byte: u8,
    line_break_idxs: VecDeque<usize>,
    start: usize,
    end: usize,
}

impl AsyncLineBuffer {
    /// The invariant of the buffer: the cursors are ordered and inside the
    /// storage, and the queue lists exactly the terminators still unconsumed,
    /// in ascending order.
    pub open spec fn wf(&self) -> bool {
        &&& self.start() <= self.end() <= self.capacity()
        &&& breaks_mark_newlines(
            self.breaks(),
            self.storage(),
            self.start() as int,
            self.end() as int,
            self.newline_byte(),
        )
    }

    /// The backing storage, all of it.
    pub closed spec fn storage(&self) -> Seq<u8> {
        self.buffer@
    }

    /// The length of the backing storage.
    pub open spec fn capacity(&self) -> nat {
        self.storage().len()
    }

    /// The byte that ends a line.
    pub closed spec fn newline_byte(&self) -> u8 {
        self.line_break_byte
    }

    /// The index of the first unconsumed byte.
    pub closed spec fn start(&self) -> nat {
        self.start as nat
    }

    /// The index one past the last received byte.
    pub closed spec fn end(&self) -> nat {
        self.end as nat
    }

    /// The recorded positions of line terminators, earliest first.
    pub closed spec fn breaks(&self) -> Seq<usize> {
        self.line_break_idxs@
    }

    /// The bytes received and not yet consumed.
    pub open spec fn pending(&self) -> Seq<u8> {
        self.storage().subrange(self.start() as int, self.end() as int)
    }

    /// Both cursors at zero and no terminator recorded.
    pub open spec fn is_clean(&self) -> bool {
        self.start() == 0 && self.end() == 0 && self.breaks().len() == 0
    }

    /// The length of the backing storage.
    pub fn len(&self) -> (n: usize)
        ensures
            n == self.capacity(),
    {
        self.buffer.len()
    }

    /// Whether a complete line is waiting in the buffer.
    pub fn has_line(&self) -> (b: bool)
        requires
            self.wf(),
        ensures
            b == (self.breaks().len() > 0),
            b == self.pending().contains(self.newline_byte()),
    {
        proof {
            self.lemma_breaks_iff_newline_pending();
        }
        self.line_break_idxs.len() > 0
    }

    /// Puts the buffer back into its clean state, keeping its storage.
    pub fn refresh(&mut self)
        ensures
            final(self).wf(),
            final(self).is_clean(),
            final(self).pending() == Seq::<u8>::empty(),
            final(self).capacity() == old(self).capacity(),
            final(self).newline_byte() == old(self).newline_byte(),
    {
        self.start = 0;
        self.end = 0;
        self.line_break_idxs.clear();
        assert(self.pending() =~= Seq::<u8>::empty());
    }

    /// The number of bytes that can be received before the storage must grow.
    pub fn writable_len(&self) -> (n: usize)
        requires
            self.wf(),
        ensures
            n == self.capacity() - self.end(),
    {
        self.buffer.len() - self.end
    }

    /// How many bytes are received and not yet consumed.
    pub fn pending_len(&self) -> (n: usize)
        requires
            self.wf(),
        ensures
            n == self.pending().len(),
    {
        self.end - self.start
    }

    /// Whether the buffer can make room for one more byte: it has room, or
    /// twice its length still fits a `usize`.
    pub fn can_grow(&self) -> (fits: bool)
        requires
            self.wf(),
        ensures
            fits == (self.end() < self.capacity() || 2 * self.capacity() <= usize::MAX),
    {
        self.end < self.buffer.len() || self.buffer.len() <= usize::MAX / 2
    }

    /// Whether lines can be read from `reader` through this buffer: what is
    /// pending and what the source still holds, taken twice, fits a `usize`,
    /// so that the buffer can grow to hold all of it.
    pub fn can_read_from(&self, reader: &MemoryReader) -> (fits: bool)
        requires
            self.wf(),
            reader.wf(),
        ensures
            fits == (2 * (self.pending().len() + reader.remaining().len()) <= usize::MAX),
    {
        let pending: usize = self.pending_len();
        let remaining: usize = reader.remaining_len();
        pending <= usize::MAX / 2 && remaining <= usize::MAX / 2 - pending
    }

    /// Makes room for at least one more byte: where the writable tail is
    /// empty the storage doubles (an empty storage grows to two bytes);
    /// where it is not, nothing happens.
    pub fn ensure_capacity(&mut self)
        requires
            old(self).wf(),
            old(self).end() < old(self).capacity() || 2 * old(self).capacity() <= usize::MAX,
        ensures
            final(self).wf(),
            final(self).capacity() == grown_capacity(old(self).capacity(), old(self).end()),
            final(self).capacity() >= old(self).capacity(),
            final(self).capacity() > final(self).end(),
            final(self).pending() == old(self).pending(),
            final(self).breaks() == old(self).breaks(),
            final(self).start() == old(self).start(),
            final(self).end() == old(self).end(),
            final(self).newline_byte() == old(self).newline_byte(),
    {
        if self.end < self.buffer.len() {
            return ;
        }
        let cur_factor: usize = if self.buffer.len() < 1 {
            1
        } else {
            self.buffer.len()
        };
        let grow_to: usize = cur_factor * 2;
        self.buffer.resize(grow_to, 0u8);
        proof {
            let before = old(self).buffer@;
            assert forall|i: int| 0 <= i < before.len() implies self.buffer@[i] == before[i] by {
                assert(self.buffer@.subrange(0, before.len() as int)[i] == self.buffer@[i]);
            }
            lemma_breaks_survive_equal_bytes(
                self.line_break_idxs@,
                before,
                self.buffer@,
                self.start as int,
                self.end as int,
                self.line_break_byte,
            );
            assert(self.pending() =~= old(self).pending());
        }
    }

    /// Receives into the writable tail as many of the bytes that the source
    /// offers as fit there, after making room for at least one, and records
    /// where the line terminators among them lie. Returns how many bytes were
    /// taken: zero only where the source offered none.
    pub fn fill(&mut self, offered: &[u8]) -> (taken: usize)
        requires
            old(self).wf(),
            old(self).end() < old(self).capacity() || 2 * old(self).capacity() <= usize::MAX,
        ensures
            final(self).wf(),
            final(self).capacity() == grown_capacity(old(self).capacity(), old(self).end()),
            final(self).capacity() >= old(self).capacity(),
            final(self).newline_byte() == old(self).newline_byte(),
            taken == vstd::math::min(
                offered@.len() as int,
                final(self).capacity() - old(self).end(),
            ),
            (taken == 0) == (offered@.len() == 0),
            final(self).pending() == old(self).pending() + offered@.subrange(0, taken as int),
            final(self).start() == old(self).start(),
            final(self).end() == old(self).end() + taken,
    {
        self.ensure_capacity();
        let room: usize = self.buffer.len() - self.end;
        let bytes_count: usize = if offered.len() < room {
            offered.len()
        } else {
            room
        };
        let ghost staged = self.pending();
        let ghost first_free = self.end;
        assert(self.buffer@.len() == self.buffer.len());
        assert(staged =~= staged + offered@.subrange(0, 0));
        let mut i: usize = 0;
        while i < bytes_count
            invariant
                i <= bytes_count <= offered@.len(),
                self.wf(),
                self.end == first_free + i,
                first_free + bytes_count <= self.buffer@.len() <= usize::MAX,
                self.start == old(self).start,
                self.line_break_byte == old(self).line_break_byte,
                self.buffer@.len() == grown_capacity(old(self).capacity(), old(self).end()),
                self.pending() == staged + offered@.subrange(0, i as int),
            decreases bytes_count - i,
        {
            let ghost bytes = self.buffer@;
            let ghost marks = self.line_break_idxs@;
            let ghost received = self.pending();
            let byte: u8 = offered[i];
            let absolute_pos: usize = self.end;
            self.buffer.set(absolute_pos, byte);
            proof {
                lemma_breaks_survive_equal_bytes(
                    marks,
                    bytes,
                    self.buffer@,
                    self.start as int,
                    absolute_pos as int,
                    self.line_break_byte,
                );
            }
            if byte == self.line_break_byte {
                self.line_break_idxs.push_back(absolute_pos);
            }
            self.end = absolute_pos + 1;
            proof {
                let grown = self.line_break_idxs@;
                assert forall|q: int|
                    self.start <= q < self.end && #[trigger] self.buffer@[q]
                        == self.line_break_byte implies exists|m: int|
                    0 <= m < grown.len() && grown[m] == q by {
                    if q < absolute_pos {
                        let m = choose|m: int| 0 <= m < marks.len() && marks[m] == q;
                        assert(grown[m] == q);
                    } else {
                        assert(grown[grown.len() - 1] == q);
                    }
                }
                assert(self.pending() =~= received.push(byte));
                assert(offered@.subrange(0, i + 1) =~= offered@.subrange(0, i as int).push(byte));
            }
            i += 1;
        }
        bytes_count
    }

    /// Decides the next step of the read loop. `last_fill` is the number of
    /// bytes that the latest `fill` of this read took, `None` before the first.
    pub fn next_action(&self, last_fill: Option<usize>) -> (action: ReadAction)
        requires
            self.wf(),
        ensures
            action == read_action(self.pending().contains(self.newline_byte()), last_fill),
    {
        if self.has_line() {
            ReadAction::ConsumeLine
        } else {
            match last_fill {
                Some(taken) => if taken == 0 {
                    ReadAction::ConsumeRemaining
                } else {
                    ReadAction::Fill
                },
                None => ReadAction::Fill,
            }
        }
    }

    /// Runs the read loop on a source in memory until a complete line is
    /// waiting or the source is exhausted, and says which: `true` for a line.
    /// Nothing is consumed; what the source gave up stands behind what was
    /// pending, in order.
    pub fn stage_line(&mut self, reader: &mut MemoryReader) -> (staged: bool)
        requires
            old(self).wf(),
            old(reader).wf(),
            2 * (old(self).pending().len() + old(reader).remaining().len()) <= usize::MAX,
        ensures
            final(self).wf(),
            final(reader).wf(),
            final(reader).chunk_len() == old(reader).chunk_len(),
            final(self).newline_byte() == old(self).newline_byte(),
            final(self).capacity() >= old(self).capacity(),
            final(self).pending() + final(reader).remaining() == old(self).pending() + old(
                reader,
            ).remaining(),
            old(self).pending().is_prefix_of(final(self).pending()),
            staged == final(self).pending().contains(final(self).newline_byte()),
            !staged ==> final(reader).remaining().len() == 0,
            old(self).pending().contains(old(self).newline_byte()) ==> final(self).pending()
                == old(self).pending(),
    {
        let ghost unread = self.pending() + reader.remaining();
        let ghost staged_before = self.pending();
        let mut last_fill: Option<usize> = None;
        loop
            invariant
                self.wf(),
                reader.wf(),
                reader.chunk_len() == old(reader).chunk_len(),
                self.newline_byte() == old(self).newline_byte(),
                self.capacity() >= old(self).capacity(),
                unread == old(self).pending() + old(reader).remaining(),
                staged_before == old(self).pending(),
                self.pending() + reader.remaining() == unread,
                2 * unread.len() <= usize::MAX,
                staged_before.is_prefix_of(self.pending()),
                last_fill == Some(0usize) ==> reader.remaining().len() == 0,
                last_fill is None ==> self.pending() == staged_before,
                last_fill is Some ==> !staged_before.contains(self.newline_byte()),
            decreases
                    reader.remaining().len(),
                    (if last_fill == Some(0usize) {
                        0nat
                    } else {
                        1nat
                    }),
        {
            match self.next_action(last_fill) {
                ReadAction::ConsumeLine => {
                    return true;
                },
                ReadAction::ConsumeRemaining => {
                    return false;
                },
                ReadAction::Fill => {
                    let ghost held = self.pending();
                    let ghost left = reader.remaining();
                    self.roll_to_front();
                    self.ensure_capacity();
                    let room: usize = self.writable_len();
                    let offered = reader.offer(room);
                    let taken: usize = self.fill(offered);
                    reader.advance(taken);
                    proof {
                        assert(self.pending() + reader.remaining() =~= held + left);
                        assert(held.is_prefix_of(self.pending()));
                    }
                    last_fill = Some(taken);
                },
            }
        }
    }

    /// Reads the next line from a source in memory into a vector of its own:
    /// the bytes up to and including the next terminator, or, where the
    /// source ends without one, whatever is left. `None` once nothing is left.
    pub fn read_next_line(&mut self, reader: &mut MemoryReader) -> (line: Option<Vec<u8>>)
        requires
            old(self).wf(),
            old(reader).wf(),
            2 * (old(self).pending().len() + old(reader).remaining().len()) <= usize::MAX,
        ensures
            final(self).wf(),
            final(reader).wf(),
            final(reader).chunk_len() == old(reader).chunk_len(),
            final(self).newline_byte() == old(self).newline_byte(),
            final(self).capacity() >= old(self).capacity(),
            line is Some == (old(self).pending().len() + old(reader).remaining().len() > 0),
            line matches Some(bytes) ==> bytes@ == first_line(
                old(self).pending() + old(reader).remaining(),
                old(self).newline_byte(),
            ),
            final(self).pending() + final(reader).remaining() == (old(self).pending() + old(
                reader,
            ).remaining()).skip(
                first_line_len(
                    old(self).pending() + old(reader).remaining(),
                    old(self).newline_byte(),
                ),
            ),
    {
        let ghost unread = self.pending() + reader.remaining();
        let ghost byte = self.newline_byte();
        let staged = self.stage_line(reader);
        let ghost held = self.pending();
        let ghost left = reader.remaining();
        let next = if staged {
            self.consume_line()
        } else {
            self.consume_remaining()
        };
        let line: Option<Vec<u8>> = match next {
            Some(bytes) => Some(vstd::slice::slice_to_vec(bytes)),
            None => None,
        };
        proof {
            match &line {
                Some(bytes) => {
                    if staged {
                        lemma_first_line_terminated(bytes@, self.pending() + left, byte);
                        assert(unread =~= bytes@ + (self.pending() + left));
                    } else {
                        lemma_first_line_unterminated(unread, byte);
                        assert(unread =~= bytes@);
                    }
                    assert(self.pending() + left =~= unread.skip(bytes@.len() as int));
                },
                None => {
                    assert(unread =~= Seq::<u8>::empty());
                    assert(self.pending() + left =~= unread.skip(0));
                },
            }
        }
        line
    }

    /// Takes the next complete line, terminator included, if one is waiting.
    pub fn consume_line(&mut self) -> (line: Option<&[u8]>)
        requires
            old(self).wf(),
        ensures
            final(self).wf(),
            final(self).capacity() == old(self).capacity(),
            final(self).newline_byte() == old(self).newline_byte(),
            final(self).end() == old(self).end(),
            line is Some == old(self).pending().contains(old(self).newline_byte()),
            match line {
                Some(bytes) => {
                    &&& is_terminated_line(bytes@, old(self).newline_byte())
                    &&& bytes@ == first_line(old(self).pending(), old(self).newline_byte())
                    &&& old(self).pending() == bytes@ + final(self).pending()
                    &&& final(self).pending() == old(self).pending().skip(bytes@.len() as int)
                    &&& final(self).start() == old(self).start() + bytes@.len()
                    &&& final(self).breaks() == old(self).breaks().drop_first()
                },
                None => {
                    &&& final(self).pending() == old(self).pending()
                    &&& final(self).start() == old(self).start()
                    &&& final(self).breaks() == old(self).breaks()
                },
            },
    {
        proof {
            self.lemma_breaks_iff_newline_pending();
        }
        let ghost breaks = self.line_break_idxs@;
        match self.line_break_idxs.pop_front() {
            Some(line_break_pos) => {
                let line = vstd::slice::slice_subrange(
                    self.buffer.as_slice(),
                    self.start,
                    line_break_pos + 1,
                );
                self.start = line_break_pos + 1;
                proof {
                    let rest = self.line_break_idxs@;
                    assert forall|i: int| 0 <= i < rest.len() implies self.start <= #[trigger] rest[i]
                        < self.end && self.buffer@[rest[i] as int] == self.line_break_byte by {
                        assert(rest[i] == breaks[i + 1]);
                    }
                    assert forall|i: int, j: int| 0 <= i < j < rest.len() implies rest[i]
                        < rest[j] by {
                        assert(rest[i] == breaks[i + 1] && rest[j] == breaks[j + 1]);
                    }
                    assert forall|q: int|
                        self.start <= q < self.end && #[trigger] self.buffer@[q]
                            == self.line_break_byte implies exists|i: int|
                        0 <= i < rest.len() && rest[i] == q by {
                        let k = choose|k: int| 0 <= k < breaks.len() && breaks[k] == q;
                        assert(rest[k - 1] == q);
                    }
                    assert forall|i: int| 0 <= i < line@.len() - 1 implies line@[i]
                        != self.line_break_byte by {
                        let q = old(self).start + i;
                        if self.buffer@[q] == self.line_break_byte {
                            let k = choose|k: int| 0 <= k < breaks.len() && breaks[k] == q;
                            assert(breaks[0] <= breaks[k]);
                        }
                    }
                    assert(old(self).pending() =~= line@ + self.pending());
                    assert(self.pending() =~= old(self).pending().skip(line@.len() as int));
                    lemma_first_line_terminated(line@, self.pending(), self.line_break_byte);
                }
                Some(line)
            },
            None => None,
        }
    }

    /// Takes everything that is left as the final line, if anything is left.
    /// Meant for the moment the source is exhausted and no complete line is
    /// waiting; whatever terminators were still recorded are dropped with it.
    pub fn consume_remaining(&mut self) -> (rest: Option<&[u8]>)
        requires
            old(self).wf(),
        ensures
            final(self).wf(),
            final(self).capacity() == old(self).capacity(),
            final(self).newline_byte() == old(self).newline_byte(),
            final(self).end() == old(self).end(),
            final(self).start() == old(self).end(),
            final(self).breaks().len() == 0,
            final(self).pending() == Seq::<u8>::empty(),
            rest is Some == (old(self).pending().len() > 0),
            rest matches Some(bytes) ==> bytes@ == old(self).pending(),
    {
        if self.start >= self.end {
            assert(self.line_break_idxs@.len() > 0 ==> self.start <= self.line_break_idxs@[0]
                < self.end);
            assert(self.pending() =~= Seq::<u8>::empty());
            return None;
        }
        let remaining = vstd::slice::slice_subrange(self.buffer.as_slice(), self.start, self.end);
        self.start = self.end;
        self.line_break_idxs.clear();
        assert(self.pending() =~= Seq::<u8>::empty());
        Some(remaining)
    }

    /// Moves the unconsumed bytes to the front of the storage, so that the
    /// space of the lines already consumed can be written again.
    pub fn roll_to_front(&mut self)
        requires
            old(self).wf(),
        ensures
            final(self).wf(),
            final(self).capacity() == old(self).capacity(),
            final(self).newline_byte() == old(self).newline_byte(),
            final(self).pending() == old(self).pending(),
            final(self).start() == 0,
            final(self).end() == old(self).end() - old(self).start(),
            final(self).breaks() == shifted_left(old(self).breaks(), old(self).start()),
    {
        if self.start == self.end {
            assert(self.line_break_idxs@.len() > 0 ==> self.start <= self.line_break_idxs@[0]
                < self.end);
            self.start = 0;
            self.end = 0;
            self.line_break_idxs.clear();
            assert(self.pending() =~= old(self).pending());
            assert(self.breaks() =~= shifted_left(old(self).breaks(), old(self).start()));
            return ;
        }
        if self.start == 0 {
            assert(self.breaks() =~= shifted_left(old(self).breaks(), 0));
            return ;
        }
        let left_shift_len: usize = self.start;
        let unconsumed: usize = self.end - self.start;
        let ghost before = self.buffer@;
        assert(before.len() == self.buffer.len());
        let mut i: usize = 0;
        while i < unconsumed
            invariant
                i <= unconsumed,
                left_shift_len + unconsumed <= before.len() <= usize::MAX,
                self.buffer@.len() == before.len(),
                self.start == old(self).start,
                self.end == old(self).end,
                self.line_break_byte == old(self).line_break_byte,
                self.line_break_idxs == old(self).line_break_idxs,
                forall|j: int| 0 <= j < i ==> self.buffer@[j] == before[left_shift_len + j],
                forall|j: int| i <= j < before.len() ==> self.buffer@[j] == before[j],
            decreases unconsumed - i,
        {
            let byte: u8 = self.buffer[left_shift_len + i];
            self.buffer.set(i, byte);
            i += 1;
        }
        self.end = unconsumed;
        let ghost marks = self.line_break_idxs@;
        let count: usize = self.line_break_idxs.len();
        let mut k: usize = 0;
        while k < count
            invariant
                k <= count,
                count == marks.len(),
                left_shift_len + unconsumed <= before.len(),
                self.buffer@.len() == before.len(),
                self.start == old(self).start,
                self.end == unconsumed,
                self.line_break_byte == old(self).line_break_byte,
                forall|j: int| 0 <= j < marks.len() ==> left_shift_len <= #[trigger] marks[j],
                forall|j: int| 0 <= j < unconsumed ==> self.buffer@[j] == before[left_shift_len + j],
                self.line_break_idxs@ =~= marks.subrange(k as int, count as int) + shifted_left(
                    marks.subrange(0, k as int),
                    left_shift_len as nat,
                ),
            decreases count - k,
        {
            match self.line_break_idxs.pop_front() {
                Some(idx) => {
                    assert(idx == marks[k as int]);
                    self.line_break_idxs.push_back(idx - left_shift_len);
                },
                None => {},
            }
            k += 1;
        }
        self.start = 0;
        proof {
            let rolled = self.line_break_idxs@;
            assert(rolled =~= shifted_left(marks, left_shift_len as nat));
            assert forall|q: int|
                0 <= q < unconsumed && #[trigger] self.buffer@[q]
                    == self.line_break_byte implies exists|m: int|
                0 <= m < rolled.len() && rolled[m] == q by {
                assert(before[left_shift_len + q] == self.line_break_byte);
                let m = choose|m: int| 0 <= m < marks.len() && marks[m] == left_shift_len + q;
                assert(rolled[m] == q);
            }
            assert(self.pending() =~= old(self).pending());
        }
    }

    /// The storage is a vector: its length fits a `usize`.
    pub proof fn lemma_capacity_fits(&self)
        ensures
            self.capacity() <= usize::MAX,
    {
        assert(self.buffer@.len() == self.buffer.len());
    }

    proof fn lemma_breaks_iff_newline_pending(&self)
        requires
            self.wf(),
        ensures
            (self.breaks().len() > 0) == self.pending().contains(self.newline_byte()),
    {
        let pending = self.pending();
        let byte = self.line_break_byte;
        if self.line_break_idxs@.len() > 0 {
            let p = self.line_break_idxs@[0] as int;
            assert(pending[p - self.start] == byte);
        }
        if pending.contains(byte) {
            let k = choose|k: int| 0 <= k < pending.len() && pending[k] == byte;
            assert(self.buffer@[self.start + k] == byte);
        }
    }
}

/// The length of the storage once room for one more byte is ensured: unchanged
/// while `end` lies inside it, else doubled, with two bytes as the least.
pub open spec fn grown_capacity(capacity: nat, end: nat) -> nat {
    if end < capacity {
        capacity
    } else if capacity == 0 {
        2
    } else {
        2 * capacity
    }
}

/// A line that ends in the terminator and holds it nowhere else.
pub open spec fn is_terminated_line(line: Seq<u8>, byte: u8) -> bool {
    &&& line.len() > 0
    &&& line.last() == byte
    &&& forall|i: int| 0 <= i < line.len() - 1 ==> line[i] != byte
}

/// The recorded positions after the storage moved `by` bytes to the left.
pub open spec fn shifted_left(breaks: Seq<usize>, by: nat) -> Seq<usize> {
    Seq::new(breaks.len(), |i: int| (breaks[i] - by) as usize)
}

/// The step of the read loop, given whether a complete line is waiting and
/// what the latest fill of this read took.
pub open spec fn read_action(line_waiting: bool, last_fill: Option<usize>) -> ReadAction {
    if line_waiting {
        ReadAction::ConsumeLine
    } else if last_fill == Some(0usize) {
        ReadAction::ConsumeRemaining
    } else {
        ReadAction::Fill
    }
}

/// The length of the first line of `bytes`: up to and including the first
/// terminator, or all of `bytes` where none occurs.
pub open spec fn first_line_len(bytes: Seq<u8>, byte: u8) -> int
    decreases bytes.len(),
{
    if bytes.len() == 0 {
        0
    } else if bytes[0] == byte {
        1
    } else {
        1 + first_line_len(bytes.drop_first(), byte)
    }
}

/// The first line of `bytes`, terminator included.
pub open spec fn first_line(bytes: Seq<u8>, byte: u8) -> Seq<u8> {
    bytes.subrange(0, first_line_len(bytes, byte))
}

/// The first line is never longer than the bytes it is taken from, and is
/// empty only where they are.
pub proof fn lemma_first_line_len_bounds(bytes: Seq<u8>, byte: u8)
    ensures
        0 <= first_line_len(bytes, byte) <= bytes.len(),
        bytes.len() > 0 ==> first_line_len(bytes, byte) > 0,
    decreases bytes.len(),
{
    if bytes.len() > 0 && bytes[0] != byte {
        lemma_first_line_len_bounds(bytes.drop_first(), byte);
    }
}

/// A terminated line followed by anything is the first line of the whole.
pub proof fn lemma_first_line_terminated(line: Seq<u8>, rest: Seq<u8>, byte: u8)
    requires
        is_terminated_line(line, byte),
    ensures
        first_line_len(line + rest, byte) == line.len(),
        first_line(line + rest, byte) == line,
    decreases line.len(),
{
    let whole = line + rest;
    if line.len() > 1 {
        assert(whole[0] == line[0]);
        let shorter = line.drop_first();
        assert(shorter.last() == line.last());
        assert forall|i: int| 0 <= i < shorter.len() - 1 implies shorter[i] != byte by {
            assert(shorter[i] == line[i + 1]);
        }
        lemma_first_line_terminated(shorter, rest, byte);
        assert(whole.drop_first() =~= shorter + rest);
    } else {
        assert(whole[0] == line[0]);
    }
    assert(whole.subrange(0, line.len() as int) =~= line);
}

/// Bytes without a terminator are one line.
pub proof fn lemma_first_line_unterminated(bytes: Seq<u8>, byte: u8)
    requires
        !bytes.contains(byte),
    ensures
        first_line_len(bytes, byte) == bytes.len(),
        first_line(bytes, byte) == bytes,
    decreases bytes.len(),
{
    if bytes.len() > 0 {
        assert(bytes[0] != byte);
        let shorter = bytes.drop_first();
        assert forall|i: int| 0 <= i < shorter.len() implies shorter[i] != byte by {
            assert(shorter[i] == bytes[i + 1]);
        }
        lemma_first_line_unterminated(shorter, byte);
    }
    assert(bytes.subrange(0, bytes.len() as int) =~= bytes);
}

/// Where the bytes hold a terminator, what follows them does not change
/// their first line.
pub proof fn lemma_first_line_prefix(bytes: Seq<u8>, rest: Seq<u8>, byte: u8)
    requires
        bytes.contains(byte),
    ensures
        first_line_len(bytes + rest, byte) == first_line_len(bytes, byte),
        first_line(bytes + rest, byte) == first_line(bytes, byte),
        0 < first_line_len(bytes, byte) <= bytes.len(),
    decreases bytes.len(),
{
    let whole = bytes + rest;
    assert(bytes.len() > 0);
    assert(whole[0] == bytes[0]);
    if bytes[0] != byte {
        let shorter = bytes.drop_first();
        let k = choose|k: int| 0 <= k < bytes.len() && bytes[k] == byte;
        assert(shorter[k - 1] == byte);
        lemma_first_line_prefix(shorter, rest, byte);
        assert(whole.drop_first() =~= shorter + rest);
    }
    assert(whole.subrange(0, first_line_len(bytes, byte)) =~= bytes.subrange(
        0,
        first_line_len(bytes, byte),
    ));
}

/// The lines of `bytes`, in order: each ends with its terminator, but for the
/// last where the bytes end without one.
pub open spec fn split_lines(bytes: Seq<u8>, byte: u8) -> Seq<Seq<u8>>
    decreases bytes.len(),
{
    let n = first_line_len(bytes, byte);
    if 0 < n <= bytes.len() {
        seq![first_line(bytes, byte)] + split_lines(bytes.skip(n), byte)
    } else {
        Seq::empty()
    }
}

/// The lines put one behind the other.
pub open spec fn join_lines(lines: Seq<Seq<u8>>) -> Seq<u8>
    decreases lines.len(),
{
    if lines.len() == 0 {
        Seq::empty()
    } else {
        lines[0] + join_lines(lines.drop_first())
    }
}

/// Buffering loses nothing: the lines of a source, which are what successive
/// reads hand out whatever the size of the buffer and of the chunks the
/// source gives, are the source again once joined.
pub proof fn lemma_lines_join_to_source(bytes: Seq<u8>, byte: u8)
    ensures
        join_lines(split_lines(bytes, byte)) == bytes,
    decreases bytes.len(),
{
    lemma_first_line_len_bounds(bytes, byte);
    let n = first_line_len(bytes, byte);
    if bytes.len() > 0 {
        let lines = split_lines(bytes, byte);
        lemma_lines_join_to_source(bytes.skip(n), byte);
        assert(lines.drop_first() =~= split_lines(bytes.skip(n), byte));
        assert(lines[0] == first_line(bytes, byte));
        assert(first_line(bytes, byte) + bytes.skip(n) =~= bytes);
    } else {
        assert(bytes =~= Seq::<u8>::empty());
    }
}

/// What is left unread of `bytes` after `k` reads, each of which takes the
/// first line of what it finds.
pub open spec fn unread_after(bytes: Seq<u8>, byte: u8, k: nat) -> Seq<u8>
    decreases k,
{
    if k == 0 {
        bytes
    } else {
        let before = unread_after(bytes, byte, (k - 1) as nat);
        before.skip(first_line_len(before, byte))
    }
}

/// A run of reads hands out the lines of the source, one after the other,
/// and ends with them. Each read takes the first line of what is unread and
/// leaves the rest, whatever the size of the buffer and of the chunks that
/// the source gives: so read `k` of a run finds line `k` of the source, as
/// long as there is one, and the read after the last line finds nothing.
/// With [`lemma_lines_join_to_source`], what a run of reads hands out is,
/// joined, the source, and two runs over the same bytes hand out the same
/// lines.
pub proof fn lemma_reads_hand_out_the_lines(bytes: Seq<u8>, byte: u8, k: nat)
    requires
        k <= split_lines(bytes, byte).len(),
    ensures
        split_lines(unread_after(bytes, byte, k), byte) == split_lines(bytes, byte).skip(k as int),
        k < split_lines(bytes, byte).len() ==> {
            &&& unread_after(bytes, byte, k).len() > 0
            &&& first_line(unread_after(bytes, byte, k), byte) == split_lines(bytes, byte)[k as int]
        },
        k == split_lines(bytes, byte).len() ==> unread_after(bytes, byte, k).len() == 0,
    decreases k,
{
    let lines = split_lines(bytes, byte);
    let unread = unread_after(bytes, byte, k);
    if k == 0 {
        assert(lines.skip(0) =~= lines);
    } else {
        lemma_reads_hand_out_the_lines(bytes, byte, (k - 1) as nat);
        let before = unread_after(bytes, byte, (k - 1) as nat);
        let n = first_line_len(before, byte);
        lemma_first_line_len_bounds(before, byte);
        assert(split_lines(before, byte).drop_first() =~= split_lines(unread, byte));
        assert(lines.skip(k - 1).drop_first() =~= lines.skip(k as int));
    }
    lemma_first_line_len_bounds(unread, byte);
    if k < lines.len() {
        assert(lines.skip(k as int)[0] == lines[k as int]);
        assert(split_lines(unread, byte).len() > 0);
    } else {
        assert(lines.skip(k as int).len() == 0);
    }
}

/// Every line of a source but the last ends with the terminator and holds it
/// nowhere else; the last holds it at most at its end.
pub proof fn lemma_lines_are_terminated(bytes: Seq<u8>, byte: u8, i: int)
    requires
        0 <= i < split_lines(bytes, byte).len(),
    ensures
        split_lines(bytes, byte)[i].len() > 0,
        i + 1 < split_lines(bytes, byte).len() ==> is_terminated_line(
            split_lines(bytes, byte)[i],
            byte,
        ),
        forall|k: int|
            0 <= k < split_lines(bytes, byte)[i].len() - 1 ==> split_lines(bytes, byte)[i][k]
                != byte,
    decreases bytes.len(),
{
    lemma_first_line_len_bounds(bytes, byte);
    lemma_first_line_shape(bytes, byte);
    let n = first_line_len(bytes, byte);
    let lines = split_lines(bytes, byte);
    let rest = split_lines(bytes.skip(n), byte);
    assert(lines.drop_first() =~= rest);
    if i > 0 {
        lemma_lines_are_terminated(bytes.skip(n), byte, i - 1);
        assert(lines[i] == rest[i - 1]);
    } else if lines.len() > 1 {
        lemma_first_line_len_bounds(bytes.skip(n), byte);
        assert(bytes.skip(n).len() > 0);
    }
}

/// The first line holds the terminator at most at its end, and does end with
/// it where anything follows the line.
pub proof fn lemma_first_line_shape(bytes: Seq<u8>, byte: u8)
    ensures
        forall|k: int| 0 <= k < first_line_len(bytes, byte) - 1 ==> bytes[k] != byte,
        0 < first_line_len(bytes, byte) < bytes.len() ==> bytes[first_line_len(bytes, byte) - 1]
            == byte,
    decreases bytes.len(),
{
    lemma_first_line_len_bounds(bytes, byte);
    if bytes.len() > 0 && bytes[0] != byte {
        let shorter = bytes.drop_first();
        lemma_first_line_shape(shorter, byte);
        lemma_first_line_len_bounds(shorter, byte);
        assert forall|k: int| 0 <= k < first_line_len(bytes, byte) - 1 implies bytes[k]
            != byte by {
            if k > 0 {
                assert(bytes[k] == shorter[k - 1]);
            }
        }
        if first_line_len(bytes, byte) < bytes.len() {
            assert(bytes[first_line_len(bytes, byte) - 1] == shorter[first_line_len(
                shorter,
                byte,
            ) - 1]);
        }
    }
}

} // verus!
