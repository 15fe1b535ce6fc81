//! Reading numbered lines from a source through a line buffer.

use crate::line_buffer::{first_line, first_line_len, AsyncLineBuffer, MemoryReader};
use crate::line_buffer::{lemma_first_line_prefix, lemma_first_line_unterminated};
use vstd::prelude::*;

verus! {

/// One line of a source: its bytes, terminator included, and its number.
#[derive(Debug, Clone, Copy)]
pub struct LineResult<'a> {
    line_num: usize,
    text: &'a [u8],
}

impl<'a> LineResult<'a> {
    /// The number of the line.
    pub closed spec fn spec_line_num(&self) -> usize {
        self.line_num
    }

    /// The bytes of the line.
    pub closed spec fn spec_text(&self) -> &'a [u8] {
        self.text
    }

    /// A line of the given bytes and number.
    pub fn new(text: &'a [u8], line_num: usize) -> (line: Self)
        ensures
            line.line_num() == line_num,
            line.text()@ == text@,
    {
        Self { line_num, text }
    }

    /// The number of the line; the first line of a source has number one.
    #[verifier::when_used_as_spec(spec_line_num)]
    pub fn line_num(&self) -> (n: usize)
        ensures
            n == self.line_num(),
    {
        self.line_num
    }

    /// The bytes of the line, terminator included.
    #[verifier::when_used_as_spec(spec_text)]
    pub fn text(&self) -> (bytes: &'a [u8])
        ensures
            bytes@ == self.text()@,
    {
        self.text
    }
}

/// Reads a source held in memory line by line, through a line buffer, and
/// numbers the lines it hands out.
#[derive(Debug)]
pub struct AsyncLineBufferReader {
    line_buffer: AsyncLineBuffer,
    reader: MemoryReader,
    lines_read: usize,
    is_line_nums_enabled: bool,
}

impl AsyncLineBufferReader {
    /// The invariant of the reader: that of its buffer and of its source.
    pub closed spec fn wf(&self) -> bool {
        self.line_buffer.wf() && self.reader.wf()
    }

    /// The bytes not yet handed out as lines: those staged in the buffer,
    /// then those still in the source.
    pub closed spec fn unread(&self) -> Seq<u8> {
        self.line_buffer.pending() + self.reader.remaining()
    }

    /// How many reads were made, the ones that found nothing included.
    pub closed spec fn lines_read(&self) -> usize {
        self.lines_read
    }

    /// Whether line numbers are asked for.
    pub closed spec fn line_nums_enabled(&self) -> bool {
        self.is_line_nums_enabled
    }

    /// The byte that ends a line.
    pub open spec fn newline_byte(&self) -> u8 {
        self.line_buffer().newline_byte()
    }

    /// The buffer the reader works through.
    pub closed spec fn line_buffer(&self) -> AsyncLineBuffer {
        self.line_buffer
    }

    /// A reader of `reader` through `line_buffer`, with nothing read yet.
    pub fn new(reader: MemoryReader, line_buffer: AsyncLineBuffer) -> (line_reader: Self)
        requires
            reader.wf(),
            line_buffer.wf(),
        ensures
            line_reader.wf(),
            line_reader.unread() == line_buffer.pending() + reader.remaining(),
            line_reader.lines_read() == 0,
            line_reader.line_nums_enabled(),
            line_reader.newline_byte() == line_buffer.newline_byte(),
            line_reader.line_buffer() == line_buffer,
    {
        Self { reader, line_buffer, lines_read: 0, is_line_nums_enabled: true }
    }

    /// Says whether line numbers are asked for.
    pub fn line_nums(self, enabled: bool) -> (line_reader: Self)
        ensures
            line_reader.wf() == self.wf(),
            line_reader.unread() == self.unread(),
            line_reader.lines_read() == self.lines_read(),
            line_reader.line_nums_enabled() == enabled,
            line_reader.newline_byte() == self.newline_byte(),
            line_reader.line_buffer() == self.line_buffer(),
    {
        Self {
            reader: self.reader,
            line_buffer: self.line_buffer,
            lines_read: self.lines_read,
            is_line_nums_enabled: enabled,
        }
    }

    /// The length of the buffer's storage.
    pub fn inner_buf_len(&self) -> (n: usize)
        ensures
            n == self.line_buffer().capacity(),
    {
        self.line_buffer.len()
    }

    /// Whether a line can be read: the count of reads can go up by one, and
    /// the buffer can grow to hold what is unread.
    pub fn can_read(&self) -> (fits: bool)
        requires
            self.wf(),
        ensures
            fits == (self.lines_read() < usize::MAX && 2 * self.unread().len() <= usize::MAX),
    {
        self.lines_read < usize::MAX && self.line_buffer.can_read_from(&self.reader)
    }

    /// Whether what is unread can be searched to its end: a line can be read,
    /// and the count of reads can go up by one for every byte that is unread.
    pub fn can_search(&self) -> (fits: bool)
        requires
            self.wf(),
        ensures
            fits == (2 * self.unread().len() <= usize::MAX && self.lines_read()
                + self.unread().len() < usize::MAX),
    {
        if !self.line_buffer.can_read_from(&self.reader) {
            return false;
        }
        let unread: usize = self.line_buffer.pending_len() + self.reader.remaining_len();
        self.lines_read < usize::MAX - unread
    }

    /// Reads the next line: the bytes up to and including the next
    /// terminator, or, where the source ends without one, whatever is left.
    /// `None` once nothing is left. Every call counts as a read, and a line
    /// carries the number of the read that found it.
    pub fn read_line(&mut self) -> (line: Option<LineResult<'_>>)
        requires
            old(self).wf(),
            old(self).lines_read() < usize::MAX,
            2 * old(self).unread().len() <= usize::MAX,
        ensures
            final(self).wf(),
            final(self).newline_byte() == old(self).newline_byte(),
            final(self).line_nums_enabled() == old(self).line_nums_enabled(),
            final(self).lines_read() == old(self).lines_read() + 1,
            final(self).line_buffer().capacity() >= old(self).line_buffer().capacity(),
            line is Some == (old(self).unread().len() > 0),
            line matches Some(found) ==> {
                &&& found.line_num() == old(self).lines_read() + 1
                &&& found.text()@ == first_line(old(self).unread(), old(self).newline_byte())
            },
            final(self).unread() == old(self).unread().skip(
                first_line_len(old(self).unread(), old(self).newline_byte()),
            ),
    {
        self.lines_read += 1;
        let line_num: usize = self.lines_read;
        let staged = self.line_buffer.stage_line(&mut self.reader);
        let ghost unread = self.unread();
        let ghost held = self.line_buffer.pending();
        let ghost left = self.reader.remaining();
        let ghost byte = self.line_buffer.newline_byte();
        if staged {
            proof {
                lemma_first_line_prefix(held, left, byte);
                let n = first_line_len(held, byte);
                assert(held.skip(n) + left =~= unread.skip(n));
            }
            match self.line_buffer.consume_line() {
                Some(text) => Some(LineResult::new(text, line_num)),
                None => None,
            }
        } else {
            proof {
                lemma_first_line_unterminated(unread, byte);
                assert(unread =~= held);
                assert(Seq::<u8>::empty() + left =~= unread.skip(unread.len() as int));
            }
            match self.line_buffer.consume_remaining() {
                Some(text) => Some(LineResult::new(text, line_num)),
                None => None,
            }
        }
    }

    /// Gives the buffer back, so that it can serve another source.
    pub fn take_line_buffer(self) -> (line_buffer: AsyncLineBuffer)
        ensures
            line_buffer == self.line_buffer(),
    {
        self.line_buffer
    }
}

} // verus!
