//! Searching sources line by line: which lines match, which files are taken
//! for binary, what is counted, and what a run of several targets comes to.

use crate::buffer_pool::BufferPool;
use crate::crawl::{
    crawl_order, crawl_tree, files_found, files_of, found_bytes, node_count, tree_bytes,
    MemoryFile, TreeNode,
};
use crate::error::SearchError;
use crate::line_buffer::{first_line_len, lemma_first_line_len_bounds, MemoryReader};
use crate::line_reader::AsyncLineBufferReader;
use crate::matcher::Matcher;
use crate::print::{
    check_utf8, PrintEvent, PrintMessage, PrintableLine, PrintableResult, PrinterSender,
};
use crate::stats::ReadStats;
use crate::target::{Target, TargetKind};
use vstd::prelude::*;
use vstd::slice::slice_to_vec;
use vstd::utf8::valid_utf8;

verus! {

/// How many bytes of a source are checked before it is taken for text.
pub const BINARY_CHECK_LEN_BYTES: usize = 512;

/// Whether a line is still inside the window in which a source is checked
/// for being text, `checked` bytes having been checked before it.
pub open spec fn in_sample_window(checked: nat) -> bool {
    checked < BINARY_CHECK_LEN_BYTES
}

/// The count of checked bytes after a line.
pub open spec fn checked_after(checked: nat, text: Seq<u8>) -> nat {
    if in_sample_window(checked) {
        checked + text.len()
    } else {
        checked
    }
}

/// Whether a line shows its source to be binary: it lies inside the window
/// and is no UTF-8.
pub open spec fn line_is_binary(checked: nat, text: Seq<u8>) -> bool {
    in_sample_window(checked) && !valid_utf8(text)
}

/// The name of a target, which is empty for a target without one.
pub open spec fn name_or_empty(name: Option<String>) -> Seq<char> {
    match name {
        Some(given) => given@,
        None => Seq::empty(),
    }
}

/// What the search of one line comes to.
#[derive(Debug, Clone, PartialEq, Eq)]
pub enum LineVerdict {
    /// The line does not match.
    NoMatch,
    /// The line matches; this is what the printer gets.
    Match(PrintableResult),
    /// The line shows the source to be binary: the search of it ends here.
    Binary,
}

/// The search of one source, as far as it has come.
#[derive(Debug)]
pub struct FileSearch {
    name: String,
    binary_bytes_checked: usize,
    stats: ReadStats,
}

impl FileSearch {
    /// The name under which matches are reported.
    pub closed spec fn name(&self) -> Seq<char> {
        self.name@
    }

    /// How many bytes were checked for being text.
    pub closed spec fn checked(&self) -> nat {
        self.binary_bytes_checked as nat
    }

    /// The counters so far.
    pub closed spec fn stats(&self) -> ReadStats {
        self.stats
    }

    /// Whether a line of `len` bytes can be counted without a counter
    /// leaving its type.
    pub open spec fn can_take(&self, len: nat) -> bool {
        &&& self.checked() + len <= usize::MAX
        &&& self.stats().lines_matched_count < usize::MAX
        &&& self.stats().lines_matched_bytes + len <= usize::MAX
    }

    /// The search of a source named `name` (or of a nameless one), before
    /// its first line: one file visited, nothing else counted.
    pub fn new(name: Option<String>) -> (search: Self)
        ensures
            search.name() == name_or_empty(name),
            search.checked() == 0,
            search.stats() == (ReadStats { total_files_visited: 1, ..crate::stats::zero_stats() }),
    {
        let name = match name {
            Some(given) => given,
            None => String::new(),
        };
        let mut stats = ReadStats::default();
        stats.total_files_visited = 1;
        Self { name, binary_bytes_checked: 0, stats }
    }

    /// Whether a line of `len` bytes can be counted without a counter
    /// leaving its type.
    pub fn has_room_for(&self, len: usize) -> (fits: bool)
        ensures
            fits == self.can_take(len as nat),
    {
        self.binary_bytes_checked <= usize::MAX - len && self.stats.lines_matched_count
            < usize::MAX && self.stats.lines_matched_bytes <= usize::MAX - len
    }

    /// Searches one line. Inside the sample window the line is first checked
    /// for being UTF-8: where it is not, the source is binary, which is
    /// counted, and nothing more. Otherwise the line is matched, and a match
    /// is counted and handed out for printing.
    pub fn search_line<M: Matcher>(&mut self, matcher: &M, line_num: usize, text: &[u8]) -> (verdict:
        LineVerdict)
        requires
            old(self).can_take(text@.len()),
        ensures
            final(self).name() == old(self).name(),
            final(self).checked() == checked_after(old(self).checked(), text@),
            line_is_binary(old(self).checked(), text@) ==> {
                &&& verdict is Binary
                &&& final(self).stats() == (ReadStats {
                    non_utf8_bytes_checked: final(self).checked() as usize,
                    skipped_files_non_utf8: 1,
                    ..old(self).stats()
                })
            },
            !line_is_binary(old(self).checked(), text@) && matcher.match_ranges(text@).len() > 0
                ==> {
                &&& verdict matches LineVerdict::Match(printable) && printable@ == (PrintableLine {
                    target_name: old(self).name(),
                    line_num,
                    text: text@,
                })
                &&& final(self).stats() == (ReadStats {
                    lines_matched_count: (old(self).stats().lines_matched_count + 1) as usize,
                    lines_matched_bytes: (old(self).stats().lines_matched_bytes
                        + text@.len()) as usize,
                    ..old(self).stats()
                })
            },
            !line_is_binary(old(self).checked(), text@) && matcher.match_ranges(text@).len() == 0
                ==> {
                &&& verdict is NoMatch
                &&& final(self).stats() == old(self).stats()
            },
    {
        if self.binary_bytes_checked < BINARY_CHECK_LEN_BYTES {
            self.binary_bytes_checked += text.len();
            if !check_utf8(text) {
                self.stats.non_utf8_bytes_checked = self.binary_bytes_checked;
                self.stats.skipped_files_non_utf8 = 1;
                return LineVerdict::Binary;
            }
        }
        if matcher.is_match(text) {
            self.stats.lines_matched_count += 1;
            self.stats.lines_matched_bytes += text.len();
            let printable = PrintableResult::new(self.name.clone(), line_num, slice_to_vec(text));
            LineVerdict::Match(printable)
        } else {
            LineVerdict::NoMatch
        }
    }

    /// Ends the search of a source that was read to its end: gives the
    /// final counters, and the message that tells the printer that the
    /// source has ended.
    pub fn finish(self, max_buffer_size: usize) -> (end: (ReadStats, PrintMessage))
        ensures
            end.0 == (ReadStats {
                non_utf8_bytes_checked: self.checked() as usize,
                max_buffer_size,
                ..self.stats()
            }),
            end.1@ == (PrintEvent::EndOfReading { target_name: self.name() }),
    {
        let mut stats = self.stats;
        stats.non_utf8_bytes_checked = self.binary_bytes_checked;
        stats.max_buffer_size = max_buffer_size;
        (stats, PrintMessage::EndOfReading { target_name: self.name })
    }

    /// Ends the search of a source that turned out to be binary: gives the
    /// counters as they stand, and the message that tells the printer that
    /// the source has ended.
    pub fn abandon(self) -> (end: (ReadStats, PrintMessage))
        ensures
            end.0 == self.stats(),
            end.1@ == (PrintEvent::EndOfReading { target_name: self.name() }),
    {
        (self.stats, PrintMessage::EndOfReading { target_name: self.name })
    }
}

/// What the search of a source has come to, after some of its lines.
pub struct Outcome {
    /// How many bytes were checked for being text.
    pub checked: nat,
    /// How many lines matched.
    pub matched_count: nat,
    /// The summed length of the lines that matched.
    pub matched_bytes: nat,
    /// Whether the source was found to be binary.
    pub skipped: bool,
    /// The lines that matched, in order.
    pub found: Seq<PrintableLine>,
    /// How many lines were searched.
    pub lines: nat,
    /// How many bytes the lines searched hold together.
    pub consumed: nat,
}

/// The outcome before the first line.
pub open spec fn no_outcome() -> Outcome {
    Outcome {
        checked: 0,
        matched_count: 0,
        matched_bytes: 0,
        skipped: false,
        found: Seq::empty(),
        lines: 0,
        consumed: 0,
    }
}

/// The outcome after one more line, `text`, with number `line_num`.
pub open spec fn after_line<M: Matcher>(
    matcher: M,
    name: Seq<char>,
    so_far: Outcome,
    line_num: nat,
    text: Seq<u8>,
) -> Outcome {
    let checked = checked_after(so_far.checked, text);
    let lines = so_far.lines + 1;
    let consumed = so_far.consumed + text.len();
    if line_is_binary(so_far.checked, text) {
        Outcome { checked, lines, consumed, skipped: true, ..so_far }
    } else if matcher.match_ranges(text).len() > 0 {
        Outcome {
            checked,
            lines,
            consumed,
            matched_count: so_far.matched_count + 1,
            matched_bytes: so_far.matched_bytes + text.len(),
            found: so_far.found.push(
                PrintableLine { target_name: name, line_num: line_num as usize, text },
            ),
            ..so_far
        }
    } else {
        Outcome { checked, lines, consumed, ..so_far }
    }
}

/// The outcome of searching the lines of `unread`, the first of which has
/// number `line_num`, on top of `so_far`. The search goes line by line and
/// ends with the bytes, or at the first line that shows them to be binary.
pub open spec fn search_from<M: Matcher>(
    matcher: M,
    name: Seq<char>,
    newline: u8,
    unread: Seq<u8>,
    line_num: nat,
    so_far: Outcome,
) -> Outcome
    decreases unread.len(),
{
    let n = first_line_len(unread, newline);
    if so_far.skipped || !(0 < n <= unread.len()) {
        so_far
    } else {
        search_from(
            matcher,
            name,
            newline,
            unread.skip(n),
            line_num + 1,
            after_line(matcher, name, so_far, line_num, unread.subrange(0, n)),
        )
    }
}

/// The messages as values.
pub open spec fn events_of(messages: Seq<PrintMessage>) -> Seq<PrintEvent> {
    Seq::new(messages.len(), |i: int| messages[i]@)
}

/// The lines as messages to the printer.
pub open spec fn lines_as_events(lines: Seq<PrintableLine>) -> Seq<PrintEvent> {
    Seq::new(lines.len(), |i: int| PrintEvent::Printable(lines[i]))
}

/// The counters that an outcome comes to, for a buffer that ended with
/// `buffer_len` bytes of storage. A source found to be binary reports no
/// buffer size.
pub open spec fn stats_of(outcome: Outcome, buffer_len: nat) -> ReadStats {
    ReadStats {
        total_files_visited: 1,
        skipped_files_non_utf8: if outcome.skipped {
            1
        } else {
            0
        },
        non_utf8_bytes_checked: outcome.checked as usize,
        lines_matched_count: outcome.matched_count as usize,
        lines_matched_bytes: outcome.matched_bytes as usize,
        max_buffer_size: if outcome.skipped {
            0
        } else {
            buffer_len as usize
        },
        ..crate::stats::zero_stats()
    }
}

/// Whether a search took the reader from `before` to `after` and came to
/// `stats` and `events`: the counters and the messages are those of the
/// outcome of searching what was unread; what is unread afterwards is what
/// follows the lines searched, which is nothing unless the source was found
/// to be binary; every line searched counts as a read, and so does the read
/// that found the end; the buffer still splits at the same byte and has not
/// shrunk.
pub open spec fn searched_through<M: Matcher>(
    matcher: M,
    name: Seq<char>,
    before: AsyncLineBufferReader,
    after: AsyncLineBufferReader,
    stats: ReadStats,
    events: Seq<PrintEvent>,
) -> bool {
    let outcome = search_from(
        matcher,
        name,
        before.newline_byte(),
        before.unread(),
        before.lines_read() as nat + 1,
        no_outcome(),
    );
    &&& stats == stats_of(outcome, after.line_buffer().capacity())
    &&& events == lines_as_events(outcome.found).push(
        PrintEvent::EndOfReading { target_name: name },
    )
    &&& after.unread() == before.unread().skip(outcome.consumed as int)
    &&& !outcome.skipped ==> after.unread().len() == 0
    &&& after.lines_read() == before.lines_read() + outcome.lines + if outcome.skipped {
        0nat
    } else {
        1nat
    }
    &&& after.newline_byte() == before.newline_byte()
    &&& after.line_nums_enabled() == before.line_nums_enabled()
    &&& after.line_buffer().capacity() >= before.line_buffer().capacity()
}

/// Searches what is left of a source, line by line, up to its end or to the
/// first line that shows it to be binary. Gives the counters and the
/// messages for the printer: one for each matching line, in order, then
/// the one that ends the target.
pub fn search_via_reader<M: Matcher>(
    matcher: &M,
    buffer: &mut AsyncLineBufferReader,
    name: Option<String>,
) -> (result: (ReadStats, Vec<PrintMessage>))
    requires
        old(buffer).wf(),
        2 * old(buffer).unread().len() <= usize::MAX,
        old(buffer).lines_read() + old(buffer).unread().len() < usize::MAX,
    ensures
        final(buffer).wf(),
        searched_through(
            *matcher,
            name_or_empty(name),
            *old(buffer),
            *final(buffer),
            result.0,
            events_of(result.1@),
        ),
{
    let ghost target_name = name_or_empty(name);
    let ghost newline = buffer.newline_byte();
    let ghost source = buffer.unread();
    let ghost first_num = buffer.lines_read() as nat + 1;
    let ghost goal = search_from(*matcher, target_name, newline, source, first_num, no_outcome());
    let mut search = FileSearch::new(name);
    let mut messages: Vec<PrintMessage> = Vec::new();
    let mut binary = false;
    let ghost mut so_far = no_outcome();
    assert(events_of(messages@) =~= lines_as_events(so_far.found));
    loop
        invariant_except_break
            buffer.wf(),
            buffer.newline_byte() == newline,
            buffer.line_nums_enabled() == old(buffer).line_nums_enabled(),
            buffer.line_buffer().capacity() >= old(buffer).line_buffer().capacity(),
            search.name() == target_name,
            source == old(buffer).unread(),
            so_far.consumed <= source.len(),
            buffer.unread() == source.skip(so_far.consumed as int),
            buffer.lines_read() == old(buffer).lines_read() + so_far.lines,
            2 * source.len() <= usize::MAX,
            buffer.unread().len() <= source.len(),
            buffer.lines_read() + buffer.unread().len() < usize::MAX,
            so_far.checked == search.checked(),
            so_far.checked <= BINARY_CHECK_LEN_BYTES + source.len() - buffer.unread().len(),
            so_far.matched_count + buffer.unread().len() <= source.len(),
            so_far.matched_bytes + buffer.unread().len() <= source.len(),
            so_far.skipped == binary,
            search.stats() == (ReadStats {
                total_files_visited: 1,
                lines_matched_count: so_far.matched_count as usize,
                lines_matched_bytes: so_far.matched_bytes as usize,
                skipped_files_non_utf8: if binary {
                    1
                } else {
                    0
                },
                non_utf8_bytes_checked: if binary {
                    so_far.checked as usize
                } else {
                    0
                },
                ..crate::stats::zero_stats()
            }),
            events_of(messages@) == lines_as_events(so_far.found),
            goal == search_from(
                *matcher,
                target_name,
                newline,
                buffer.unread(),
                buffer.lines_read() as nat + 1,
                so_far,
            ),
            !binary,
        ensures
            buffer.wf(),
            buffer.newline_byte() == newline,
            buffer.line_nums_enabled() == old(buffer).line_nums_enabled(),
            buffer.line_buffer().capacity() >= old(buffer).line_buffer().capacity(),
            search.name() == target_name,
            buffer.unread() == old(buffer).unread().skip(so_far.consumed as int),
            buffer.lines_read() == old(buffer).lines_read() + so_far.lines + if binary {
                0nat
            } else {
                1nat
            },
            so_far == goal,
            so_far.checked == search.checked(),
            so_far.skipped == binary,
            !binary ==> buffer.unread().len() == 0,
            search.stats() == (ReadStats {
                total_files_visited: 1,
                lines_matched_count: so_far.matched_count as usize,
                lines_matched_bytes: so_far.matched_bytes as usize,
                skipped_files_non_utf8: if binary {
                    1
                } else {
                    0
                },
                non_utf8_bytes_checked: if binary {
                    so_far.checked as usize
                } else {
                    0
                },
                ..crate::stats::zero_stats()
            }),
            events_of(messages@) == lines_as_events(so_far.found),
        decreases buffer.unread().len(),
    {
        let ghost unread = buffer.unread();
        let ghost line_num = buffer.lines_read() as nat + 1;
        proof {
            lemma_first_line_len_bounds(unread, newline);
        }
        let verdict = match buffer.read_line() {
            Some(line_result) => Some(
                search.search_line(matcher, line_result.line_num(), line_result.text()),
            ),
            None => None,
        };
        let ghost text = unread.subrange(0, first_line_len(unread, newline));
        let ghost before = so_far;
        match verdict {
            None => {
                break ;
            },
            Some(LineVerdict::Binary) => {
                proof {
                    so_far = after_line(*matcher, target_name, before, line_num, text);
                    let n = first_line_len(unread, newline);
                    assert(search_from(
                        *matcher,
                        target_name,
                        newline,
                        unread.skip(n),
                        line_num + 1,
                        so_far,
                    ) == so_far);
                }
                binary = true;
                break ;
            },
            Some(LineVerdict::Match(printable)) => {
                let ghost held = events_of(messages@);
                messages.push(PrintMessage::Printable(printable));
                proof {
                    so_far = after_line(*matcher, target_name, before, line_num, text);
                    assert(events_of(messages@) =~= held.push(PrintEvent::Printable(printable@)));
                    assert(lines_as_events(so_far.found) =~= lines_as_events(before.found).push(
                        PrintEvent::Printable(printable@),
                    ));
                }
            },
            Some(LineVerdict::NoMatch) => {
                proof {
                    so_far = after_line(*matcher, target_name, before, line_num, text);
                }
            },
        }
    }
    let ghost held = events_of(messages@);
    let (stats, end) = if binary {
        search.abandon()
    } else {
        search.finish(buffer.inner_buf_len())
    };
    messages.push(end);
    assert(events_of(messages@) =~= held.push(
        PrintEvent::EndOfReading { target_name },
    ));
    (stats, messages)
}

/// The terminator of the buffer that the pool hands out next.
pub open spec fn next_newline(pool: BufferPool) -> u8 {
    if pool.idle().len() > 0 {
        pool.idle().last().newline_byte()
    } else {
        0x0a
    }
}

/// How searching leaves the pool. Where nothing was searched the pool is as
/// it was. Where something was, one buffer served: the idle buffer handed
/// back last, or, where none was idle, a new one. It is back in the pool as
/// the last, no smaller than it was, and the other buffers are as they were:
/// so the pool holds as many buffers as before, or one where it held none.
/// The next buffer to be handed out splits lines as the one before did.
pub open spec fn pool_served(before: BufferPool, after: BufferPool, searched: bool) -> bool {
    &&& next_newline(after) == next_newline(before)
    &&& !searched ==> after.idle() == before.idle()
    &&& searched ==> {
        &&& after.idle().len() == (if before.idle().len() > 0 {
            before.idle().len()
        } else {
            1
        })
        &&& after.idle().drop_last() == (if before.idle().len() > 0 {
            before.idle().drop_last()
        } else {
            before.idle()
        })
        &&& before.idle().len() > 0 ==> after.idle().last().capacity() >= before.idle().last().capacity()
    }
}

/// Searches a file held in memory, through a buffer of the pool that is
/// sized by the length of the file and goes back to the pool afterwards.
/// Matches are reported under the path of the file, and lines are numbered
/// from one.
pub fn search_file<M: Matcher>(matcher: &M, file: &MemoryFile, buf_pool: &mut BufferPool) -> (result:
    (ReadStats, Vec<PrintMessage>))
    requires
        old(buf_pool).wf(),
        2 * file.bytes@.len() <= usize::MAX,
    ensures
        final(buf_pool).wf(),
        pool_served(*old(buf_pool), *final(buf_pool), true),
        ({
            let outcome = search_from(
                *matcher,
                file.path@,
                next_newline(*old(buf_pool)),
                file.bytes@,
                1,
                no_outcome(),
            );
            &&& result.0 == stats_of(outcome, final(buf_pool).idle().last().capacity())
            &&& events_of(result.1@) == lines_as_events(outcome.found).push(
                PrintEvent::EndOfReading { target_name: file.path@ },
            )
        }),
{
    let reader = MemoryReader::new(slice_to_vec(file.bytes.as_slice()));
    let line_buf = buf_pool.acquire(file.bytes.len());
    let mut line_buf_rdr = AsyncLineBufferReader::new(reader, line_buf).line_nums(true);
    assert(line_buf_rdr.unread() =~= file.bytes@);
    let target_name = Some(file.path.clone());
    let search_result = search_via_reader(matcher, &mut line_buf_rdr, target_name);
    buf_pool.return_to_pool(line_buf_rdr.take_line_buffer());
    search_result
}

/// A search counts no more than its source holds: the lines that match and
/// their bytes are bounded by the bytes searched, and the bytes checked for
/// being text by those bytes and the sample window.
pub proof fn lemma_search_is_bounded<M: Matcher>(
    matcher: M,
    name: Seq<char>,
    newline: u8,
    unread: Seq<u8>,
    line_num: nat,
    so_far: Outcome,
)
    ensures
        ({
            let outcome = search_from(matcher, name, newline, unread, line_num, so_far);
            &&& outcome.matched_count <= so_far.matched_count + unread.len()
            &&& outcome.matched_bytes <= so_far.matched_bytes + unread.len()
            &&& in_sample_window(so_far.checked) ==> outcome.checked < BINARY_CHECK_LEN_BYTES
                + unread.len()
            &&& !in_sample_window(so_far.checked) ==> outcome.checked == so_far.checked
        }),
    decreases unread.len(),
{
    let n = first_line_len(unread, newline);
    if !so_far.skipped && 0 < n <= unread.len() {
        let text = unread.subrange(0, n);
        let next = after_line(matcher, name, so_far, line_num, text);
        lemma_search_is_bounded(matcher, name, newline, unread.skip(n), line_num + 1, next);
    }
}

/// What the searches of several files come to together.
pub struct Tally {
    /// How many files were searched.
    pub files: nat,
    /// How many of them were found to be binary.
    pub skipped: nat,
    /// How many bytes were checked for being text.
    pub checked: nat,
    /// How many lines matched.
    pub matched_count: nat,
    /// The summed length of the lines that matched.
    pub matched_bytes: nat,
}

/// The outcome of searching one file from its first line, with lines ending
/// in `newline`.
pub open spec fn file_outcome<M: Matcher>(matcher: M, newline: u8, file: MemoryFile) -> Outcome {
    search_from(matcher, file.path@, newline, file.bytes@, 1, no_outcome())
}

/// The tally of searching the first `k` of `files`.
pub open spec fn tally_of<M: Matcher>(
    matcher: M,
    newline: u8,
    files: Seq<&MemoryFile>,
    k: int,
) -> Tally
    decreases k,
{
    if k <= 0 {
        Tally { files: 0, skipped: 0, checked: 0, matched_count: 0, matched_bytes: 0 }
    } else {
        let before = tally_of(matcher, newline, files, k - 1);
        let outcome = file_outcome(matcher, newline, *files[k - 1]);
        Tally {
            files: before.files + 1,
            skipped: before.skipped + if outcome.skipped {
                1nat
            } else {
                0nat
            },
            checked: before.checked + outcome.checked,
            matched_count: before.matched_count + outcome.matched_count,
            matched_bytes: before.matched_bytes + outcome.matched_bytes,
        }
    }
}

/// The messages of searching the first `k` of `files`, one file after the
/// other: for each file its matching lines, then the end of the file.
pub open spec fn events_for<M: Matcher>(
    matcher: M,
    newline: u8,
    files: Seq<&MemoryFile>,
    k: int,
) -> Seq<PrintEvent>
    decreases k,
{
    if k <= 0 {
        Seq::empty()
    } else {
        events_for(matcher, newline, files, k - 1) + lines_as_events(
            file_outcome(matcher, newline, *files[k - 1]).found,
        ).push(PrintEvent::EndOfReading { target_name: files[k - 1].path@ })
    }
}

/// What the first `k` of `files` weigh on the counters at most: their bytes,
/// and the sample window once for each.
pub open spec fn files_weight(files: Seq<&MemoryFile>, k: int) -> nat
    decreases k,
{
    if k <= 0 {
        0
    } else {
        files_weight(files, k - 1) + files[k - 1].bytes@.len() + BINARY_CHECK_LEN_BYTES as nat
    }
}

/// No prefix of the files weighs more than all of them.
proof fn lemma_files_weight_grows(files: Seq<&MemoryFile>, k: int)
    requires
        0 <= k <= files.len(),
    ensures
        files_weight(files, k) <= files_weight(files, files.len() as int),
    decreases files.len() - k,
{
    if k < files.len() {
        lemma_files_weight_grows(files, k + 1);
    }
}

/// The tally of some files is bounded by their weight.
proof fn lemma_tally_is_bounded<M: Matcher>(
    matcher: M,
    newline: u8,
    files: Seq<&MemoryFile>,
    k: int,
)
    requires
        0 <= k <= files.len(),
    ensures
        ({
            let tally = tally_of(matcher, newline, files, k);
            let weight = files_weight(files, k);
            &&& tally.files <= weight
            &&& tally.skipped <= tally.files
            &&& tally.checked <= weight
            &&& tally.matched_count <= weight
            &&& tally.matched_bytes <= weight
        }),
    decreases k,
{
    if k > 0 {
        lemma_tally_is_bounded(matcher, newline, files, k - 1);
        let file = *files[k - 1];
        lemma_search_is_bounded(matcher, file.path@, newline, file.bytes@, 1, no_outcome());
    }
}

/// Whether `stats` and `events` are what searching the files of `order`, one
/// after the other, comes to: each counter the sum over the files, no time
/// measured, no buffer counted, and the messages of each file in turn.
pub open spec fn searched_in_order<M: Matcher>(
    matcher: M,
    newline: u8,
    order: Seq<&MemoryFile>,
    stats: ReadStats,
    events: Seq<PrintEvent>,
) -> bool {
    let tally = tally_of(matcher, newline, order, order.len() as int);
    &&& stats.total_files_visited == tally.files
    &&& stats.skipped_files_non_utf8 == tally.skipped
    &&& stats.non_utf8_bytes_checked == tally.checked
    &&& stats.lines_matched_count == tally.matched_count
    &&& stats.lines_matched_bytes == tally.matched_bytes
    &&& stats.filesystem_walk_dur == 0
    &&& stats.reader_search_dur == 0
    &&& stats.buffers_created == 0
    &&& events == events_for(matcher, newline, order, order.len() as int)
}

/// The first `k` files weigh their bytes and the sample window once for each.
proof fn lemma_files_weight_is_bytes(files: Seq<&MemoryFile>, k: int)
    requires
        0 <= k <= files.len(),
    ensures
        files_weight(files, k) == found_bytes(files.subrange(0, k)) + BINARY_CHECK_LEN_BYTES * k,
    decreases k,
{
    if k > 0 {
        lemma_files_weight_is_bytes(files, k - 1);
        assert(files.subrange(0, k).drop_last() =~= files.subrange(0, k - 1));
        assert(files.subrange(0, k).last() == files[k - 1]);
    }
}

/// No file found is longer than all of them together, and the bag of the
/// files found holds as many as were found.
proof fn lemma_found_files(files: Seq<&MemoryFile>)
    ensures
        forall|i: int| 0 <= i < files.len() ==> (#[trigger] files[i]).bytes@.len() <= found_bytes(files),
        files_found(files).len() == files.len(),
    decreases files.len(),
{
    if files.len() > 0 {
        let shorter = files.drop_last();
        lemma_found_files(shorter);
        assert forall|i: int| 0 <= i < files.len() implies (#[trigger] files[i]).bytes@.len()
            <= found_bytes(files) by {
            if i < shorter.len() {
                assert(files[i] == shorter[i]);
            }
        }
    }
}

/// The tally of some files counts each of them.
proof fn lemma_tally_counts_files<M: Matcher>(
    matcher: M,
    newline: u8,
    files: Seq<&MemoryFile>,
    k: int,
)
    requires
        0 <= k,
    ensures
        tally_of(matcher, newline, files, k).files == k,
    decreases k,
{
    if k > 0 {
        lemma_tally_counts_files(matcher, newline, files, k - 1);
    }
}

/// Searches every file of a tree held in memory: the tree is crawled, and
/// the files found are searched in the order in which the crawl found them.
/// Every file within reach is searched exactly once, and only those.
pub fn search_directory<M: Matcher>(matcher: &M, root: &TreeNode, buf_pool: &mut BufferPool) -> (result:
    (ReadStats, Vec<PrintMessage>))
    requires
        old(buf_pool).wf(),
        node_count(*root) <= usize::MAX,
        2 * tree_bytes(*root) + BINARY_CHECK_LEN_BYTES * files_of(*root).len() <= usize::MAX,
    ensures
        final(buf_pool).wf(),
        pool_served(*old(buf_pool), *final(buf_pool), files_of(*root).len() > 0),
        result.0.total_files_visited == files_of(*root).len(),
        searched_in_order(
            *matcher,
            next_newline(*old(buf_pool)),
            crawl_order(seq![root]),
            result.0,
            events_of(result.1@),
        ),
        largest_buffer(
            *matcher,
            next_newline(*old(buf_pool)),
            crawl_order(seq![root]),
            crawl_order(seq![root]).len() as int,
            result.0.max_buffer_size,
            *final(buf_pool),
        ),
{
    let report = crawl_tree(root);
    proof {
        let order = report.files@;
        lemma_found_files(order);
        lemma_files_weight_is_bytes(order, order.len() as int);
        assert(order.subrange(0, order.len() as int) =~= order);
        lemma_tally_counts_files(*matcher, next_newline(*buf_pool), order, order.len() as int);
        assert(BINARY_CHECK_LEN_BYTES * order.len() == BINARY_CHECK_LEN_BYTES * files_of(
            *root,
        ).len());
    }
    search_files(matcher, &report.files, buf_pool)
}

/// Whether `largest` is the size of the largest buffer that the searches of
/// the first `k` of `files` ended with, `pool` being the pool after them. A file found to be
/// binary reports no buffer, so the size is zero where every file is
/// binary; else it is that of the buffer that served the files, which never
/// shrinks: as it is in the pool where the last file is text, and no more
/// than that where later files are binary.
pub open spec fn largest_buffer<M: Matcher>(
    matcher: M,
    newline: u8,
    files: Seq<&MemoryFile>,
    k: int,
    largest: usize,
    pool: BufferPool,
) -> bool {
    let tally = tally_of(matcher, newline, files, k);
    &&& tally.skipped == tally.files ==> largest == 0
    &&& k > 0 ==> pool.idle().len() > 0 && largest <= pool.idle().last().capacity()
    &&& k > 0 && !file_outcome(matcher, newline, *files[k - 1]).skipped ==> largest
        == pool.idle().last().capacity()
}

/// Searches files held in memory, one after the other, each through a buffer
/// of the pool. Gives the counters of all of them together and the messages
/// for the printer: for each file its matching lines, then its end.
pub fn search_files<M: Matcher>(
    matcher: &M,
    files: &Vec<&MemoryFile>,
    buf_pool: &mut BufferPool,
) -> (result: (ReadStats, Vec<PrintMessage>))
    requires
        old(buf_pool).wf(),
        forall|i: int| 0 <= i < files@.len() ==> 2 * (#[trigger] files@[i]).bytes@.len() <= usize::MAX,
        files_weight(files@, files@.len() as int) <= usize::MAX,
    ensures
        final(buf_pool).wf(),
        pool_served(*old(buf_pool), *final(buf_pool), files@.len() > 0),
        searched_in_order(
            *matcher,
            next_newline(*old(buf_pool)),
            files@,
            result.0,
            events_of(result.1@),
        ),
        largest_buffer(
            *matcher,
            next_newline(*old(buf_pool)),
            files@,
            files@.len() as int,
            result.0.max_buffer_size,
            *final(buf_pool),
        ),
{
    let ghost newline = next_newline(*buf_pool);
    let mut agg_stats = ReadStats::default();
    let mut messages: Vec<PrintMessage> = Vec::new();
    let mut k: usize = 0;
    assert(events_of(messages@) =~= events_for(*matcher, newline, files@, 0));
    while k < files.len()
        invariant
            k <= files@.len(),
            buf_pool.wf(),
            newline == next_newline(*old(buf_pool)),
            pool_served(*old(buf_pool), *buf_pool, k > 0),
            forall|i: int|
                0 <= i < files@.len() ==> 2 * (#[trigger] files@[i]).bytes@.len() <= usize::MAX,
            files_weight(files@, files@.len() as int) <= usize::MAX,
            agg_stats.total_files_visited == tally_of(*matcher, newline, files@, k as int).files,
            agg_stats.skipped_files_non_utf8 == tally_of(
                *matcher,
                newline,
                files@,
                k as int,
            ).skipped,
            agg_stats.non_utf8_bytes_checked == tally_of(
                *matcher,
                newline,
                files@,
                k as int,
            ).checked,
            agg_stats.lines_matched_count == tally_of(
                *matcher,
                newline,
                files@,
                k as int,
            ).matched_count,
            agg_stats.lines_matched_bytes == tally_of(
                *matcher,
                newline,
                files@,
                k as int,
            ).matched_bytes,
            agg_stats.filesystem_walk_dur == 0,
            agg_stats.reader_search_dur == 0,
            agg_stats.buffers_created == 0,
            largest_buffer(
                *matcher,
                newline,
                files@,
                k as int,
                agg_stats.max_buffer_size,
                *buf_pool,
            ),
            events_of(messages@) == events_for(*matcher, newline, files@, k as int),
        decreases files@.len() - k,
    {
        let ghost sent = events_of(messages@);
        proof {
            lemma_tally_is_bounded(*matcher, newline, files@, k as int);
            lemma_tally_is_bounded(*matcher, newline, files@, k + 1);
            lemma_files_weight_grows(files@, k + 1);
        }
        let ghost largest = agg_stats.max_buffer_size;
        let ghost pool_before = *buf_pool;
        let (stats, mut found) = search_file(matcher, files[k], buf_pool);
        let ghost added = events_of(found@);
        agg_stats.fold_in(&stats);
        messages.append(&mut found);
        proof {
            assert(events_of(messages@) =~= sent + added);
            let outcome = file_outcome(*matcher, newline, *files@[k as int]);
            let before = tally_of(*matcher, newline, files@, k as int);
            let after = tally_of(*matcher, newline, files@, k + 1);
            assert(after.files == before.files + 1);
            assert(after.skipped == before.skipped + if outcome.skipped {
                1nat
            } else {
                0nat
            });
            assert(before.skipped <= before.files);
            buf_pool.idle().last().lemma_capacity_fits();
            assert(stats.max_buffer_size == if outcome.skipped {
                0
            } else {
                buf_pool.idle().last().capacity() as usize
            });
            if k == 0 {
                assert(before.skipped == before.files);
                assert(largest == 0);
            } else {
                assert(largest <= pool_before.idle().last().capacity());
            }
            assert(agg_stats.max_buffer_size == crate::stats::larger(
                largest,
                stats.max_buffer_size,
            ));
        }
        k += 1;
    }
    (agg_stats, messages)
}

/// What is done about one target of a run.
#[derive(Debug, Clone, PartialEq, Eq)]
pub enum SearchAction {
    /// Search standard input.
    Stdin,
    /// Search the file at this path.
    File(String),
    /// Search every file below the directory at this path.
    Directory(String),
    /// Nothing: this path is neither a file nor a directory.
    Unreachable(String),
}

/// What is done about `target`, which turned out to be of `kind`.
pub open spec fn action_for(target: Target, kind: TargetKind) -> SearchAction {
    match target {
        Target::Stdin => SearchAction::Stdin,
        Target::Path(path) => match kind {
            TargetKind::File => SearchAction::File(path),
            TargetKind::Directory => SearchAction::Directory(path),
            _ => SearchAction::Unreachable(path),
        },
    }
}

/// The paths as values.
pub open spec fn paths_view(paths: Seq<String>) -> Seq<Seq<char>> {
    Seq::new(paths.len(), |i: int| paths[i]@)
}

/// What a run has come to so far: the counters of the targets searched, and
/// the targets that could not be reached.
#[derive(Debug)]
pub struct SearchRun {
    agg_stats: ReadStats,
    error_paths: Vec<String>,
}

impl SearchRun {
    /// The counters of the targets searched so far, folded.
    pub closed spec fn stats(&self) -> ReadStats {
        self.agg_stats
    }

    /// The paths found to be neither file nor directory, in order.
    pub closed spec fn unreachable(&self) -> Seq<Seq<char>> {
        paths_view(self.error_paths@)
    }

    /// A run that has searched nothing yet.
    pub fn new() -> (run: Self)
        ensures
            run.stats() == crate::stats::zero_stats(),
            run.unreachable() == Seq::<Seq<char>>::empty(),
    {
        let run = SearchRun { agg_stats: ReadStats::default(), error_paths: Vec::new() };
        assert(run.unreachable() =~= Seq::<Seq<char>>::empty());
        run
    }

    /// Decides what is done about a target, given what it turned out to be:
    /// standard input is searched as it is, a file is searched, a directory
    /// is crawled, and anything else is set down as unreachable.
    pub fn next_action(target: Target, kind: TargetKind) -> (action: SearchAction)
        ensures
            action == action_for(target, kind),
    {
        match target {
            Target::Stdin => SearchAction::Stdin,
            Target::Path(path) => match kind {
                TargetKind::File => SearchAction::File(path),
                TargetKind::Directory => SearchAction::Directory(path),
                _ => SearchAction::Unreachable(path),
            },
        }
    }

    /// Folds the counters of one searched target into those of the run.
    pub fn record(&mut self, stats: &ReadStats)
        requires
            old(self).stats().can_fold(stats),
        ensures
            final(self).stats() == old(self).stats().folded(stats),
            final(self).unreachable() == old(self).unreachable(),
    {
        self.agg_stats.fold_in(stats);
    }

    /// Folds the counters of one searched target into those of the run
    /// where every sum fits, and says whether it did; where one does not,
    /// the run stays as it is.
    pub fn try_record(&mut self, stats: &ReadStats) -> (recorded: bool)
        ensures
            recorded == old(self).stats().can_fold(stats),
            recorded ==> final(self).stats() == old(self).stats().folded(stats),
            !recorded ==> final(self).stats() == old(self).stats(),
            final(self).unreachable() == old(self).unreachable(),
    {
        self.agg_stats.try_fold_in(stats)
    }

    /// Sets a target down as unreachable. The run goes on.
    pub fn record_unreachable(&mut self, path: String)
        ensures
            final(self).stats() == old(self).stats(),
            final(self).unreachable() == old(self).unreachable().push(path@),
    {
        self.error_paths.push(path);
        assert(self.unreachable() =~= old(self).unreachable().push(path@));
    }

    /// Ends the run. The caller gets both what was counted and what could
    /// not be reached: the folded counters, with the count of buffers that
    /// were created, and the unreachable targets in the order in which
    /// they were met.
    pub fn conclude(self, buffers_created: usize) -> (report: RunReport)
        ensures
            report.stats == (ReadStats { buffers_created, ..self.stats() }),
            paths_view(report.unreachable@) == self.unreachable(),
    {
        let mut agg_stats = self.agg_stats;
        agg_stats.buffers_created = buffers_created;
        RunReport { stats: agg_stats, unreachable: self.error_paths }
    }
}

/// What a run came to: the counters of every target that was searched, and
/// the targets that are neither a file nor a directory.
#[derive(Debug, Clone, PartialEq, Eq)]
pub struct RunReport {
    /// The folded counters of the targets searched.
    pub stats: ReadStats,
    /// The paths that could not be reached, in the order of the targets.
    pub unreachable: Vec<String>,
}

impl RunReport {
    /// The failure to report with the counters: none where every target
    /// could be reached, else the targets that could not.
    pub fn error(&self) -> (error: Option<SearchError>)
        ensures
            error is Some == (self.unreachable@.len() > 0),
            error matches Some(found) ==> (found matches SearchError::TargetsNotFound(paths)
                && paths_view(paths@) == paths_view(self.unreachable@)),
    {
        if self.unreachable.len() == 0 {
            return None;
        }
        let mut paths: Vec<String> = Vec::new();
        let mut i: usize = 0;
        while i < self.unreachable.len()
            invariant
                i <= self.unreachable@.len(),
                paths_view(paths@) == paths_view(self.unreachable@.subrange(0, i as int)),
            decreases self.unreachable@.len() - i,
        {
            let ghost held = paths@;
            let path = self.unreachable[i].clone();
            paths.push(path);
            proof {
                let upto = self.unreachable@.subrange(0, i + 1);
                assert(upto.drop_last() =~= self.unreachable@.subrange(0, i as int));
                assert(upto.last() == self.unreachable@[i as int]);
                assert(paths_view(paths@) =~= paths_view(held).push(path@));
                assert(paths_view(upto) =~= paths_view(upto.drop_last()).push(upto.last()@));
            }
            i += 1;
        }
        assert(self.unreachable@.subrange(0, i as int) =~= self.unreachable@);
        Some(SearchError::TargetsNotFound(paths))
    }
}

/// Collects what a searcher needs.
pub struct SearcherBuilder<M: Matcher, P: PrinterSender> {
    matcher: M,
    printer: P,
}

impl<M: Matcher, P: PrinterSender> SearcherBuilder<M, P> {
    /// The matcher collected.
    pub closed spec fn matcher(&self) -> M {
        self.matcher
    }

    /// The sender collected.
    pub closed spec fn printer(&self) -> P {
        self.printer
    }

    /// A builder with the matcher that finds the lines and the sender that
    /// takes them.
    pub fn new(matcher: M, printer: P) -> (builder: Self)
        ensures
            builder.matcher() == matcher,
            builder.printer() == printer,
    {
        Self { matcher, printer }
    }

    /// The searcher.
    pub fn build(self) -> (searcher: Searcher<M, P>)
        ensures
            searcher.matcher() == self.matcher(),
            searcher.printer() == self.printer(),
    {
        Searcher::new(self.matcher, self.printer)
    }
}

/// A matcher and the sender that takes what it finds.
pub struct Searcher<M: Matcher, P: PrinterSender> {
    matcher: M,
    printer: P,
}

impl<M: Matcher, P: PrinterSender> Searcher<M, P> {
    /// The matcher that finds the lines.
    pub closed spec fn matcher(&self) -> M {
        self.matcher
    }

    /// The sender that takes the lines.
    pub closed spec fn printer(&self) -> P {
        self.printer
    }

    /// A searcher of the given matcher and sender.
    pub fn new(matcher: M, printer: P) -> (searcher: Self)
        ensures
            searcher.matcher() == matcher,
            searcher.printer() == printer,
    {
        Self { matcher, printer }
    }

    /// The matcher, for a task to search with.
    pub fn matcher_ref(&self) -> (matcher: &M)
        ensures
            *matcher == self.matcher(),
    {
        &self.matcher
    }

    /// The sender, for a task to send its messages to.
    pub fn printer_ref(&self) -> (printer: &P)
        ensures
            *printer == self.printer(),
    {
        &self.printer
    }

    /// Searches what is left of a source with the matcher of this searcher;
    /// see [`search_via_reader`].
    pub fn search_via_reader(&self, buffer: &mut AsyncLineBufferReader, name: Option<String>) -> (result:
        (ReadStats, Vec<PrintMessage>))
        requires
            old(buffer).wf(),
            2 * old(buffer).unread().len() <= usize::MAX,
            old(buffer).lines_read() + old(buffer).unread().len() < usize::MAX,
        ensures
            final(buffer).wf(),
            searched_through(
                self.matcher(),
                name_or_empty(name),
                *old(buffer),
                *final(buffer),
                result.0,
                events_of(result.1@),
            ),
    {
        search_via_reader(&self.matcher, buffer, name)
    }

    /// Searches every file of a tree held in memory with the matcher of
    /// this searcher; see [`search_directory`].
    pub fn search_directory(&self, root: &TreeNode, buf_pool: &mut BufferPool) -> (result: (
        ReadStats,
        Vec<PrintMessage>,
    ))
        requires
            old(buf_pool).wf(),
            node_count(*root) <= usize::MAX,
            2 * tree_bytes(*root) + BINARY_CHECK_LEN_BYTES * files_of(*root).len() <= usize::MAX,
        ensures
            final(buf_pool).wf(),
            pool_served(*old(buf_pool), *final(buf_pool), files_of(*root).len() > 0),
            result.0.total_files_visited == files_of(*root).len(),
            searched_in_order(
                self.matcher(),
                next_newline(*old(buf_pool)),
                crawl_order(seq![root]),
                result.0,
                events_of(result.1@),
            ),
            largest_buffer(
                self.matcher(),
                next_newline(*old(buf_pool)),
                crawl_order(seq![root]),
                crawl_order(seq![root]).len() as int,
                result.0.max_buffer_size,
                *final(buf_pool),
            ),
    {
        search_directory(&self.matcher, root, buf_pool)
    }

    /// Searches a file held in memory with the matcher of this searcher;
    /// see [`search_file`].
    pub fn search_file(&self, file: &MemoryFile, buf_pool: &mut BufferPool) -> (result: (
        ReadStats,
        Vec<PrintMessage>,
    ))
        requires
            old(buf_pool).wf(),
            2 * file.bytes@.len() <= usize::MAX,
        ensures
            final(buf_pool).wf(),
            pool_served(*old(buf_pool), *final(buf_pool), true),
            ({
                let outcome = search_from(
                    self.matcher(),
                    file.path@,
                    next_newline(*old(buf_pool)),
                    file.bytes@,
                    1,
                    no_outcome(),
                );
                &&& result.0 == stats_of(outcome, final(buf_pool).idle().last().capacity())
                &&& events_of(result.1@) == lines_as_events(outcome.found).push(
                    PrintEvent::EndOfReading { target_name: file.path@ },
                )
            }),
    {
        search_file(&self.matcher, file, buf_pool)
    }
}

} // verus!
