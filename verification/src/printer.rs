//! The printer: what is written for each message, grouped by target or at
//! once, with the matches of a line set off in colour.

use crate::matcher::{matches_ordered, Match, Matcher};
use crate::print::{
    check_utf8, NullPrinter, PrintEvent, PrintMessage, PrintableLine, PrintableResult,
};
use crate::target::TargetKind;
use vstd::prelude::*;
use vstd::slice::slice_subrange;
use vstd::slice::slice_to_vec;
use vstd::string::{StrSliceExecFns, StringSliceAdditionalSpecFns};
use vstd::utf8::{encode_utf8, valid_utf8};

verus! {

/// A colour of the terminal.
#[derive(Debug, Clone, Copy, PartialEq, Eq, Structural)]
pub enum Color {
    /// The colour of line numbers.
    Green,
    /// The colour of matches.
    Red,
}

/// One step of rendering, as a value.
pub enum RenderStep {
    /// Switch the foreground colour.
    SetColor(Color),
    /// Go back to the default colour.
    Reset,
    /// Write these bytes to the terminal.
    Write(Seq<u8>),
    /// Report that bytes of the named target could not be decoded.
    Report(Seq<char>),
    /// Write this text to standard output as it is.
    Show(Seq<char>),
}

/// One step of rendering, for whoever owns the terminal to carry out.
#[derive(Debug, Clone, PartialEq, Eq)]
pub enum PrintOp {
    /// Switch the foreground colour.
    SetColor(Color),
    /// Go back to the default colour.
    Reset,
    /// Write these bytes to the terminal.
    Write(Vec<u8>),
    /// Report that bytes of the named target could not be decoded.
    Report(String),
    /// Write this text to standard output as it is.
    Show(String),
}

impl View for PrintOp {
    type V = RenderStep;

    open spec fn view(&self) -> RenderStep {
        match self {
            PrintOp::SetColor(color) => RenderStep::SetColor(*color),
            PrintOp::Reset => RenderStep::Reset,
            PrintOp::Write(bytes) => RenderStep::Write(bytes@),
            PrintOp::Report(name) => RenderStep::Report(name@),
            PrintOp::Show(text) => RenderStep::Show(text@),
        }
    }
}

/// The steps that a list of operations stands for.
pub open spec fn rendered(ops: Seq<PrintOp>) -> Seq<RenderStep> {
    Seq::new(ops.len(), |i: int| ops[i]@)
}

/// The decimal digits of `n`, in ASCII.
pub open spec fn decimal_digits(n: nat) -> Seq<u8>
    decreases n,
{
    if n < 10 {
        seq![(48 + n) as u8]
    } else {
        decimal_digits(n / 10).push((48 + n % 10) as u8)
    }
}

/// What stands before a line: its number and a colon, or, where numbers are
/// not printed, nothing.
pub open spec fn line_num_chunk(print_line_num: bool, line_num: usize) -> Seq<u8> {
    if print_line_num {
        decimal_digits(line_num as nat).push(58u8)
    } else {
        Seq::empty()
    }
}

/// The step for a piece of a line: written where it is UTF-8, else reported
/// under the name of its target.
pub open spec fn text_step(bytes: Seq<u8>, target_name: Seq<char>) -> RenderStep {
    if valid_utf8(bytes) {
        RenderStep::Write(bytes)
    } else {
        RenderStep::Report(target_name)
    }
}

/// Where the text before match `k` begins: at the end of the match before
/// it, or at the start of the line.
pub open spec fn segment_start(found: Seq<Match>, k: int) -> int {
    if k <= 0 {
        0
    } else {
        found[k - 1].stop as int
    }
}

/// The steps for the first `k` matches of a line: for each, the text since
/// the match before it in the default colour, then the match itself in red.
pub open spec fn match_steps(found: Seq<Match>, line: PrintableLine, k: int) -> Seq<RenderStep>
    decreases k,
{
    if k <= 0 {
        Seq::empty()
    } else {
        let m = found[k - 1];
        match_steps(found, line, k - 1) + seq![
            text_step(
                line.text.subrange(segment_start(found, k - 1), m.start as int),
                line.target_name,
            ),
            RenderStep::SetColor(Color::Red),
            text_step(line.text.subrange(m.start as int, m.stop as int), line.target_name),
            RenderStep::Reset,
        ]
    }
}

/// The steps for a line whose matches are `found`: the number chunk in
/// green, the line with each match in red, then what follows the last match.
pub open spec fn colorized_steps(chunk: Seq<u8>, found: Seq<Match>, line: PrintableLine) -> Seq<
    RenderStep,
> {
    seq![RenderStep::SetColor(Color::Green), RenderStep::Write(chunk), RenderStep::Reset]
        + match_steps(found, line, found.len() as int) + seq![
        text_step(
            line.text.subrange(segment_start(found, found.len() as int), line.text.len() as int),
            line.target_name,
        ),
    ]
}

/// The steps for a line printed without a matcher: the number chunk and the
/// line in one write, or a report where the line is no UTF-8.
pub open spec fn plain_steps(chunk: Seq<u8>, line: PrintableLine) -> Seq<RenderStep> {
    if valid_utf8(line.text) {
        seq![RenderStep::Write(chunk + line.text)]
    } else {
        seq![RenderStep::Report(line.target_name)]
    }
}

/// The decimal digits of `n`.
pub fn decimal_text(n: usize) -> (digits: Vec<u8>)
    ensures
        digits@ == decimal_digits(n as nat),
    decreases n,
{
    if n < 10 {
        let mut digits: Vec<u8> = Vec::new();
        digits.push(48u8 + n as u8);
        assert(digits@ =~= decimal_digits(n as nat));
        digits
    } else {
        let mut digits = decimal_text(n / 10);
        digits.push(48u8 + (n % 10) as u8);
        digits
    }
}

/// The operation for a piece of a line of the named target.
pub fn text_op(bytes: &[u8], target_name: &String) -> (op: PrintOp)
    ensures
        op@ == text_step(bytes@, target_name@),
{
    if check_utf8(bytes) {
        PrintOp::Write(slice_to_vec(bytes))
    } else {
        PrintOp::Report(target_name.clone())
    }
}

/// The operations that print `printable` with the matches `found` set off.
pub fn colorize(line_num_chunk: &[u8], found: &Vec<Match>, printable: &PrintableResult) -> (ops:
    Vec<PrintOp>)
    requires
        matches_ordered(found@, printable@.text.len()),
    ensures
        rendered(ops@) == colorized_steps(line_num_chunk@, found@, printable@),
{
    let text = printable.text().as_slice();
    let name = printable.target_name();
    let mut ops: Vec<PrintOp> = Vec::new();
    ops.push(PrintOp::SetColor(Color::Green));
    ops.push(PrintOp::Write(slice_to_vec(line_num_chunk)));
    ops.push(PrintOp::Reset);
    let ghost head = rendered(ops@);
    let mut start: usize = 0;
    let mut k: usize = 0;
    while k < found.len()
        invariant
            k <= found@.len(),
            matches_ordered(found@, printable@.text.len()),
            text@ == printable@.text,
            name@ == printable@.target_name,
            start == segment_start(found@, k as int),
            start <= text@.len(),
            head == seq![
                RenderStep::SetColor(Color::Green),
                RenderStep::Write(line_num_chunk@),
                RenderStep::Reset,
            ],
            rendered(ops@) == head + match_steps(found@, printable@, k as int),
        decreases found@.len() - k,
    {
        let match_range = found[k];
        proof {
            if k > 0 {
                assert(found@[k - 1].stop <= found@[k as int].start);
            }
        }
        let until_match = slice_subrange(text, start, match_range.start);
        let during_match = slice_subrange(text, match_range.start, match_range.stop);
        let ghost before = rendered(ops@);
        ops.push(text_op(until_match, name));
        ops.push(PrintOp::SetColor(Color::Red));
        ops.push(text_op(during_match, name));
        ops.push(PrintOp::Reset);
        start = match_range.stop;
        k += 1;
        proof {
            assert(rendered(ops@) =~= before + seq![
                text_step(until_match@, name@),
                RenderStep::SetColor(Color::Red),
                text_step(during_match@, name@),
                RenderStep::Reset,
            ]);
        }
    }
    let remainder = slice_subrange(text, start, text.len());
    let ghost before = rendered(ops@);
    ops.push(text_op(remainder, name));
    assert(rendered(ops@) =~= before + seq![text_step(remainder@, name@)]);
    ops
}

/// The operations that print `printable` with the matches that `matcher`
/// finds in it set off.
pub fn print_colorized<M: Matcher>(
    line_num_chunk: &[u8],
    matcher: &M,
    printable: &PrintableResult,
) -> (ops: Vec<PrintOp>)
    ensures
        rendered(ops@) == colorized_steps(
            line_num_chunk@,
            matcher.match_ranges(printable@.text),
            printable@,
        ),
{
    let found = matcher.find_matches(printable.text().as_slice());
    colorize(line_num_chunk, &found, printable)
}

/// How the printer prints.
#[derive(Debug, Clone, Copy)]
pub struct Config {
    /// Whether each line is preceded by its number.
    pub print_line_num: bool,
    /// Whether the lines of a target are held back until the target ends and
    /// then printed as one block.
    pub group_by_target: bool,
    /// Whether the caller wants each line printed as soon as it arrives.
    pub print_immediately: bool,
}

/// The lines that arrived for `name` since the last end of that target, in
/// the order of their arrival.
pub open spec fn lines_for(events: Seq<PrintEvent>, name: Seq<char>) -> Seq<PrintableLine>
    decreases events.len(),
{
    if events.len() == 0 {
        Seq::empty()
    } else {
        let earlier = lines_for(events.drop_last(), name);
        match events.last() {
            PrintEvent::Printable(line) => if line.target_name == name {
                earlier.push(line)
            } else {
                earlier
            },
            PrintEvent::EndOfReading { target_name } => if target_name == name {
                Seq::empty()
            } else {
                earlier
            },
            PrintEvent::Display(_) => earlier,
        }
    }
}

/// The line that heads the block of a target: an empty line, then the name.
pub open spec fn header_bytes(name: Seq<char>) -> Seq<u8> {
    seq![10u8] + encode_utf8(name) + seq![10u8]
}

/// The lines as values.
pub open spec fn lines_view(lines: Seq<PrintableResult>) -> Seq<PrintableLine> {
    Seq::new(lines.len(), |i: int| lines[i]@)
}

/// The steps that print one line.
pub open spec fn line_steps<M: Matcher>(
    print_line_num: bool,
    matcher: Option<M>,
    line: PrintableLine,
) -> Seq<RenderStep> {
    let chunk = line_num_chunk(print_line_num, line.line_num);
    match matcher {
        Some(matcher) => colorized_steps(chunk, matcher.match_ranges(line.text), line),
        None => plain_steps(chunk, line),
    }
}

/// The steps that print the first `k` of `lines`, one line after the other.
pub open spec fn lines_steps<M: Matcher>(
    print_line_num: bool,
    matcher: Option<M>,
    lines: Seq<PrintableLine>,
    k: int,
) -> Seq<RenderStep>
    decreases k,
{
    if k <= 0 {
        Seq::empty()
    } else {
        lines_steps(print_line_num, matcher, lines, k - 1) + line_steps(
            print_line_num,
            matcher,
            lines[k - 1],
        )
    }
}

/// The steps that print the block of a target: its header, then its lines.
/// A target without lines has no block.
pub open spec fn block_steps<M: Matcher>(
    print_line_num: bool,
    matcher: Option<M>,
    name: Seq<char>,
    lines: Seq<PrintableLine>,
) -> Seq<RenderStep> {
    if lines.len() == 0 {
        Seq::empty()
    } else {
        seq![RenderStep::Write(header_bytes(name))] + lines_steps(
            print_line_num,
            matcher,
            lines,
            lines.len() as int,
        )
    }
}

/// The steps with which a printer of the given settings answers `event`,
/// having received `before`. Grouped by target, a line prints nothing, the
/// end of a target prints the block of its lines, and a text is shown. Not
/// grouped, a line is printed at once and nothing else prints anything.
pub open spec fn step_output<M: Matcher>(
    config: Config,
    matcher: Option<M>,
    before: Seq<PrintEvent>,
    event: PrintEvent,
) -> Seq<RenderStep> {
    if config.group_by_target {
        match event {
            PrintEvent::Printable(_) => Seq::empty(),
            PrintEvent::EndOfReading { target_name } => block_steps(
                config.print_line_num,
                matcher,
                target_name,
                lines_for(before, target_name),
            ),
            PrintEvent::Display(text) => seq![RenderStep::Show(text)],
        }
    } else {
        match event {
            PrintEvent::Printable(line) => line_steps(config.print_line_num, matcher, line),
            _ => Seq::empty(),
        }
    }
}

/// The lines held back for one target.
struct TargetLines {
    name: String,
    lines: Vec<PrintableResult>,
}

/// Whether the entries hold, each under a name of its own, exactly the lines
/// that arrived for each target since it last ended.
spec fn holds_lines(entries: Seq<TargetLines>, events: Seq<PrintEvent>) -> bool {
    &&& forall|i: int|
        0 <= i < entries.len() ==> (#[trigger] entries[i]).lines@.len() > 0 && lines_view(
            entries[i].lines@,
        ) == lines_for(events, entries[i].name@)
    &&& forall|i: int, j: int|
        0 <= i < entries.len() && 0 <= j < entries.len() && i != j ==> (#[trigger] entries[i]).name@
            != (#[trigger] entries[j]).name@
    &&& forall|name: Seq<char>|
        (#[trigger] lines_for(events, name)).len() > 0 ==> exists|i: int|
            0 <= i < entries.len() && (#[trigger] entries[i]).name@ == name
}

/// Whether the entries hold, each under a name of its own, exactly the lines
/// of every target but `name`, of which they hold nothing.
spec fn holds_other_lines(
    entries: Seq<TargetLines>,
    events: Seq<PrintEvent>,
    name: Seq<char>,
) -> bool {
    &&& forall|i: int|
        0 <= i < entries.len() ==> (#[trigger] entries[i]).name@ != name && entries[i].lines@.len()
            > 0 && lines_view(entries[i].lines@) == lines_for(events, entries[i].name@)
    &&& forall|i: int, j: int|
        0 <= i < entries.len() && 0 <= j < entries.len() && i != j ==> (#[trigger] entries[i]).name@
            != (#[trigger] entries[j]).name@
    &&& forall|other: Seq<char>|
        other != name && (#[trigger] lines_for(events, other)).len() > 0 ==> exists|i: int|
            0 <= i < entries.len() && (#[trigger] entries[i]).name@ == other
}

/// Without the entry of a target, the entries hold the lines of all the
/// others, also after a message that concerns that target alone.
proof fn lemma_entry_set_aside(
    entries: Seq<TargetLines>,
    found: Option<usize>,
    name: Seq<char>,
    before: Seq<PrintEvent>,
    after: Seq<PrintEvent>,
)
    requires
        holds_lines(entries, before),
        found matches Some(i) ==> i < entries.len() && entries[i as int].name@ == name,
        found is None ==> forall|i: int| 0 <= i < entries.len() ==> entries[i].name@ != name,
        forall|other: Seq<char>|
            other != name ==> #[trigger] lines_for(after, other) == lines_for(before, other),
    ensures
        found matches Some(i) ==> holds_other_lines(entries.remove(i as int), after, name),
        found is None ==> holds_other_lines(entries, after, name) && lines_for(before, name).len()
            == 0,
{
    match found {
        Some(at) => {
            let i = at as int;
            let kept = entries.remove(i);
            assert forall|j: int| 0 <= j < kept.len() implies (#[trigger] kept[j]).name@ != name
                && kept[j].lines@.len() > 0 && lines_view(kept[j].lines@) == lines_for(
                after,
                kept[j].name@,
            ) by {
                let from = if j < i {
                    j
                } else {
                    j + 1
                };
                assert(kept[j] == entries[from]);
            }
            assert forall|a: int, b: int|
                0 <= a < kept.len() && 0 <= b < kept.len() && a != b implies (#[trigger] kept[a]).name@
                != (#[trigger] kept[b]).name@ by {
                let from_a = if a < i {
                    a
                } else {
                    a + 1
                };
                let from_b = if b < i {
                    b
                } else {
                    b + 1
                };
                assert(kept[a] == entries[from_a] && kept[b] == entries[from_b]);
            }
            assert forall|other: Seq<char>|
                other != name && (#[trigger] lines_for(after, other)).len() > 0 implies exists|
                j: int,
            | 0 <= j < kept.len() && (#[trigger] kept[j]).name@ == other by {
                assert(lines_for(before, other).len() > 0);
                let from = choose|from: int|
                    0 <= from < entries.len() && (#[trigger] entries[from]).name@ == other;
                let j = if from < i {
                    from
                } else {
                    from - 1
                };
                assert(kept[j] == entries[from]);
            }
        },
        None => {
            if lines_for(before, name).len() > 0 {
                let from = choose|from: int|
                    0 <= from < entries.len() && (#[trigger] entries[from]).name@ == name;
                assert(false);
            }
            assert forall|other: Seq<char>|
                other != name && (#[trigger] lines_for(after, other)).len() > 0 implies exists|
                j: int,
            | 0 <= j < entries.len() && (#[trigger] entries[j]).name@ == other by {
                assert(lines_for(before, other).len() > 0);
            }
            assert forall|j: int| 0 <= j < entries.len() implies lines_view(
                (#[trigger] entries[j]).lines@,
            ) == lines_for(after, entries[j].name@) by {
                assert(entries[j].name@ != name);
            }
        },
    }
}

/// The index of the entry for `name`, if there is one.
fn find_target(entries: &Vec<TargetLines>, name: &String) -> (found: Option<usize>)
    ensures
        found matches Some(i) ==> i < entries@.len() && entries@[i as int].name@ == name@,
        found is None ==> forall|i: int| 0 <= i < entries@.len() ==> entries@[i].name@ != name@,
{
    let mut i: usize = 0;
    while i < entries.len()
        invariant
            i <= entries@.len(),
            forall|j: int| 0 <= j < i ==> entries@[j].name@ != name@,
        decreases entries@.len() - i,
    {
        if entries[i].name == *name {
            return Some(i);
        }
        i += 1;
    }
    None
}

/// The printer proper: it turns each message into the operations that print
/// it, holding lines back where they are grouped by target.
pub struct PrettyPrinter<M: Matcher> {
    file_to_matches: Vec<TargetLines>,
    config: Config,
    matcher: Option<M>,
    received: Ghost<Seq<PrintEvent>>,
}

impl<M: Matcher> PrettyPrinter<M> {
    /// How the printer prints.
    pub closed spec fn config(&self) -> Config {
        self.config
    }

    /// The matcher whose matches are set off, if there is one.
    pub closed spec fn matcher(&self) -> Option<M> {
        self.matcher
    }

    /// The messages received so far.
    pub closed spec fn received(&self) -> Seq<PrintEvent> {
        self.received@
    }

    /// The invariant of the printer: where lines are grouped, it holds for
    /// each target exactly the lines that arrived since that target last
    /// ended; where they are not, it holds none.
    pub closed spec fn wf(&self) -> bool {
        if self.config.group_by_target {
            holds_lines(self.file_to_matches@, self.received@)
        } else {
            self.file_to_matches@.len() == 0
        }
    }

    /// A printer that has received nothing.
    pub fn new(matcher: Option<M>, config: Config) -> (printer: Self)
        ensures
            printer.wf(),
            printer.config() == config,
            printer.matcher() == matcher,
            printer.received() == Seq::<PrintEvent>::empty(),
    {
        let printer = Self {
            matcher,
            config,
            file_to_matches: Vec::new(),
            received: Ghost(Seq::empty()),
        };
        assert forall|name: Seq<char>|
            (#[trigger] lines_for(printer.received@, name)).len() > 0 implies false by {}
        printer
    }

    /// The operations that print one line: its number chunk, then the line,
    /// with its matches set off where the printer has a matcher.
    pub fn print_line_result(&self, printable: &PrintableResult) -> (ops: Vec<PrintOp>)
        ensures
            rendered(ops@) == line_steps(self.config().print_line_num, self.matcher(), printable@),
    {
        let mut chunk: Vec<u8> = if self.config.print_line_num {
            let mut digits = decimal_text(printable.line_num());
            digits.push(58u8);
            digits
        } else {
            Vec::new()
        };
        match &self.matcher {
            Some(matcher) => print_colorized(chunk.as_slice(), matcher, printable),
            None => {
                let mut ops: Vec<PrintOp> = Vec::new();
                if check_utf8(printable.text().as_slice()) {
                    let mut text = slice_to_vec(printable.text().as_slice());
                    chunk.append(&mut text);
                    ops.push(PrintOp::Write(chunk));
                } else {
                    ops.push(PrintOp::Report(printable.target_name().clone()));
                }
                assert(rendered(ops@) =~= line_steps(
                    self.config.print_line_num,
                    self.matcher,
                    printable@,
                ));
                ops
            },
        }
    }

    /// The operations that print the block of `name` with the given lines.
    fn render_block(&self, name: &String, lines: &Vec<PrintableResult>) -> (ops: Vec<PrintOp>)
        ensures
            rendered(ops@) == block_steps(
                self.config().print_line_num,
                self.matcher(),
                name@,
                lines_view(lines@),
            ),
    {
        let mut ops: Vec<PrintOp> = Vec::new();
        if lines.len() == 0 {
            assert(rendered(ops@) =~= Seq::<RenderStep>::empty());
            return ops;
        }
        let mut header: Vec<u8> = Vec::new();
        header.push(10u8);
        let mut name_bytes = name.as_str().as_bytes_vec();
        header.append(&mut name_bytes);
        header.push(10u8);
        assert(header@ =~= header_bytes(name@));
        ops.push(PrintOp::Write(header));
        let ghost head = rendered(ops@);
        assert(head =~= seq![RenderStep::Write(header_bytes(name@))]);
        let mut k: usize = 0;
        while k < lines.len()
            invariant
                k <= lines@.len(),
                rendered(ops@) == head + lines_steps(
                    self.config().print_line_num,
                    self.matcher(),
                    lines_view(lines@),
                    k as int,
                ),
            decreases lines@.len() - k,
        {
            let ghost before = rendered(ops@);
            let mut line_ops = self.print_line_result(&lines[k]);
            let ghost added = rendered(line_ops@);
            ops.append(&mut line_ops);
            assert(rendered(ops@) =~= before + added);
            assert(lines_view(lines@)[k as int] == lines@[k as int]@);
            k += 1;
        }
        ops
    }

    /// Prints the block of the target that ended: its header and the lines
    /// held back for it, which are then forgotten.
    pub fn print_target_results(&mut self, name: &String) -> (ops: Vec<PrintOp>)
        requires
            old(self).wf(),
            old(self).config().group_by_target,
        ensures
            final(self).wf(),
            final(self).config() == old(self).config(),
            final(self).matcher() == old(self).matcher(),
            final(self).received() == old(self).received().push(
                PrintEvent::EndOfReading { target_name: name@ },
            ),
            rendered(ops@) == block_steps(
                old(self).config().print_line_num,
                old(self).matcher(),
                name@,
                lines_for(old(self).received(), name@),
            ),
    {
        let ghost before = self.received@;
        let ghost after = before.push(PrintEvent::EndOfReading { target_name: name@ });
        let ghost entries = self.file_to_matches@;
        let found = find_target(&self.file_to_matches, name);
        proof {
            assert(after.drop_last() =~= before);
            assert forall|other: Seq<char>| other != name@ implies #[trigger] lines_for(after, other)
                == lines_for(before, other) by {}
            assert(lines_for(after, name@) =~= Seq::<PrintableLine>::empty());
            lemma_entry_set_aside(entries, found, name@, before, after);
        }
        let ops = match found {
            Some(i) => {
                let entry = self.file_to_matches.remove(i);
                self.render_block(name, &entry.lines)
            },
            None => {
                let ops: Vec<PrintOp> = Vec::new();
                assert(rendered(ops@) =~= Seq::<RenderStep>::empty());
                ops
            },
        };
        self.received = Ghost(after);
        assert(holds_lines(self.file_to_matches@, after));
        ops
    }

    /// Holds `printable` back until its target ends.
    fn hold_back(&mut self, printable: PrintableResult)
        requires
            old(self).wf(),
            old(self).config().group_by_target,
        ensures
            final(self).wf(),
            final(self).config() == old(self).config(),
            final(self).matcher() == old(self).matcher(),
            final(self).received() == old(self).received().push(PrintEvent::Printable(printable@)),
    {
        let ghost before = self.received@;
        let ghost line = printable@;
        let ghost name = line.target_name;
        let ghost after = before.push(PrintEvent::Printable(line));
        let ghost entries = self.file_to_matches@;
        let target_name = printable.target_name().clone();
        let found = find_target(&self.file_to_matches, &target_name);
        proof {
            assert(after.drop_last() =~= before);
            assert forall|other: Seq<char>| other != name implies #[trigger] lines_for(after, other)
                == lines_for(before, other) by {}
            assert(lines_for(after, name) == lines_for(before, name).push(line));
            lemma_entry_set_aside(entries, found, name, before, after);
        }
        let mut entry = match found {
            Some(i) => self.file_to_matches.remove(i),
            None => {
                assert(lines_view(Seq::<PrintableResult>::empty()) =~= lines_for(before, name));
                TargetLines { name: target_name, lines: Vec::new() }
            },
        };
        let ghost kept = self.file_to_matches@;
        let ghost held = entry.lines@;
        entry.lines.push(printable);
        assert(lines_view(entry.lines@) =~= lines_view(held).push(line));
        self.file_to_matches.push(entry);
        self.received = Ghost(after);
        proof {
            let all = self.file_to_matches@;
            assert forall|j: int| 0 <= j < all.len() implies (#[trigger] all[j]).lines@.len() > 0
                && lines_view(all[j].lines@) == lines_for(after, all[j].name@) by {
                if j < kept.len() {
                    assert(all[j] == kept[j]);
                }
            }
            assert forall|a: int, b: int|
                0 <= a < all.len() && 0 <= b < all.len() && a != b implies (#[trigger] all[a]).name@
                != (#[trigger] all[b]).name@ by {
                if a < kept.len() {
                    assert(all[a] == kept[a]);
                }
                if b < kept.len() {
                    assert(all[b] == kept[b]);
                }
            }
            assert forall|other: Seq<char>|
                (#[trigger] lines_for(after, other)).len() > 0 implies exists|j: int|
                0 <= j < all.len() && (#[trigger] all[j]).name@ == other by {
                if other == name {
                    assert(all[all.len() - 1].name@ == name);
                } else {
                    let j = choose|j: int| 0 <= j < kept.len() && (#[trigger] kept[j]).name@ == other;
                    assert(all[j] == kept[j]);
                }
            }
            assert(holds_lines(all, after));
        }
    }

    /// Takes one message and gives the operations that print what it calls
    /// for. Grouped by target, a line is held back, the end of a target
    /// prints the block of that target, and a text is shown; not grouped, a
    /// line is printed at once and every other message is passed over.
    pub fn print(&mut self, message: PrintMessage) -> (ops: Vec<PrintOp>)
        requires
            old(self).wf(),
        ensures
            final(self).wf(),
            final(self).config() == old(self).config(),
            final(self).matcher() == old(self).matcher(),
            final(self).received() == old(self).received().push(message@),
            rendered(ops@) == step_output(
                old(self).config(),
                old(self).matcher(),
                old(self).received(),
                message@,
            ),
    {
        let ghost before = self.received@;
        let ghost after = before.push(message@);
        if self.config.group_by_target {
            match message {
                PrintMessage::Display(text) => {
                    let mut ops: Vec<PrintOp> = Vec::new();
                    proof {
                        assert(after.drop_last() =~= before);
                        assert forall|name: Seq<char>| #[trigger]
                            lines_for(after, name) == lines_for(before, name) by {}
                    }
                    ops.push(PrintOp::Show(text));
                    self.received = Ghost(after);
                    assert(rendered(ops@) =~= seq![RenderStep::Show(text@)]);
                    assert(self.wf());
                    ops
                },
                PrintMessage::Printable(printable) => {
                    self.hold_back(printable);
                    let ops: Vec<PrintOp> = Vec::new();
                    assert(rendered(ops@) =~= Seq::<RenderStep>::empty());
                    ops
                },
                PrintMessage::EndOfReading { target_name } => self.print_target_results(
                    &target_name,
                ),
            }
        } else {
            let ops = match message {
                PrintMessage::Printable(printable) => self.print_line_result(&printable),
                _ => {
                    let ops: Vec<PrintOp> = Vec::new();
                    assert(rendered(ops@) =~= Seq::<RenderStep>::empty());
                    ops
                },
            };
            self.received = Ghost(after);
            ops
        }
    }
}

/// Everything that a printer of the given settings prints for a stream of
/// messages, from the first message to the last.
pub open spec fn stream_output<M: Matcher>(
    config: Config,
    matcher: Option<M>,
    events: Seq<PrintEvent>,
) -> Seq<RenderStep>
    decreases events.len(),
{
    if events.len() == 0 {
        Seq::empty()
    } else {
        stream_output(config, matcher, events.drop_last()) + step_output(
            config,
            matcher,
            events.drop_last(),
            events.last(),
        )
    }
}

/// The lines held back for a target all belong to it, and each arrived in a
/// message of the stream.
pub proof fn lemma_held_lines_belong_to_target(events: Seq<PrintEvent>, name: Seq<char>, k: int)
    requires
        0 <= k < lines_for(events, name).len(),
    ensures
        lines_for(events, name)[k].target_name == name,
        events.contains(PrintEvent::Printable(lines_for(events, name)[k])),
    decreases events.len(),
{
    let earlier = events.drop_last();
    let line = lines_for(events, name)[k];
    if k < lines_for(earlier, name).len() {
        assert(lines_for(earlier, name)[k] == line);
        lemma_held_lines_belong_to_target(earlier, name, k);
        let at = choose|at: int|
            0 <= at < earlier.len() && earlier[at] == PrintEvent::Printable(line);
        assert(events[at] == PrintEvent::Printable(line));
    } else {
        assert(events[events.len() - 1] == PrintEvent::Printable(line));
    }
}

/// Blocks never interleave. Grouped by target, whatever the order in which
/// the messages of several targets arrive: a line prints nothing when it
/// arrives; the end of a target adds to the output, in one piece, the block
/// of that target; and the lines of that block are those that arrived for
/// the target since it last ended, all of them of that target.
pub proof fn lemma_blocks_never_interleave<M: Matcher>(
    config: Config,
    matcher: Option<M>,
    events: Seq<PrintEvent>,
    i: int,
)
    requires
        config.group_by_target,
        0 <= i < events.len(),
    ensures
        events[i] is Printable ==> stream_output(config, matcher, events.subrange(0, i + 1))
            == stream_output(config, matcher, events.subrange(0, i)),
        events[i] matches PrintEvent::EndOfReading { target_name } ==> {
            let held = lines_for(events.subrange(0, i), target_name);
            &&& stream_output(config, matcher, events.subrange(0, i + 1)) == stream_output(
                config,
                matcher,
                events.subrange(0, i),
            ) + block_steps(config.print_line_num, matcher, target_name, held)
            &&& forall|k: int| 0 <= k < held.len() ==> (#[trigger] held[k]).target_name == target_name
            &&& lines_for(events.subrange(0, i + 1), target_name).len() == 0
        },
{
    let upto = events.subrange(0, i + 1);
    let before = events.subrange(0, i);
    assert(upto.drop_last() =~= before);
    assert(upto.last() == events[i]);
    match events[i] {
        PrintEvent::Printable(_) => {
            assert(stream_output(config, matcher, upto) =~= stream_output(
                config,
                matcher,
                before,
            ));
        },
        PrintEvent::EndOfReading { target_name } => {
            let held = lines_for(before, target_name);
            assert forall|k: int| 0 <= k < held.len() implies (#[trigger] held[k]).target_name
                == target_name by {
                lemma_held_lines_belong_to_target(before, target_name, k);
            }
        },
        PrintEvent::Display(_) => {},
    }
}

/// Whether lines are printed as they arrive: where the one target is a file.
pub open spec fn prints_immediately(kinds: Seq<TargetKind>) -> bool {
    kinds.len() == 1 && kinds[0] == TargetKind::File
}

/// Whether lines are grouped by target: where there are several targets, or
/// the one target is a directory.
pub open spec fn groups_by_target(kinds: Seq<TargetKind>) -> bool {
    kinds.len() > 1 || (kinds.len() == 1 && kinds[0] == TargetKind::Directory)
}

/// Collects the settings of a printer.
pub struct Printer<M: Matcher> {
    config: Config,
    matcher: Option<M>,
}

impl<M: Matcher> Printer<M> {
    /// The settings collected so far.
    pub closed spec fn config(&self) -> Config {
        self.config
    }

    /// The matcher collected so far.
    pub closed spec fn matcher(&self) -> Option<M> {
        self.matcher
    }

    /// Settings for a printer that numbers lines and groups them by target,
    /// without a matcher.
    pub fn new() -> (printer: Self)
        ensures
            printer.config().print_line_num,
            printer.config().group_by_target,
            !printer.config().print_immediately,
            printer.matcher() is None,
    {
        Self {
            config: Config {
                print_line_num: true,
                group_by_target: true,
                print_immediately: false,
            },
            matcher: None,
        }
    }

    /// Says whether lines are grouped by target.
    pub fn group_by_target(self, should_group: bool) -> (printer: Self)
        ensures
            printer.config() == (Config { group_by_target: should_group, ..self.config() }),
            printer.matcher() == self.matcher(),
    {
        Self {
            config: Config {
                print_line_num: self.config.print_line_num,
                group_by_target: should_group,
                print_immediately: self.config.print_immediately,
            },
            matcher: self.matcher,
        }
    }

    /// Says whether each line is to be printed as soon as it arrives.
    pub fn print_immediately(self, should_print_immediately: bool) -> (printer: Self)
        ensures
            printer.config() == (Config {
                print_immediately: should_print_immediately,
                ..self.config()
            }),
            printer.matcher() == self.matcher(),
    {
        Self {
            config: Config {
                print_line_num: self.config.print_line_num,
                group_by_target: self.config.group_by_target,
                print_immediately: should_print_immediately,
            },
            matcher: self.matcher,
        }
    }

    /// Sets the matcher whose matches are set off in colour.
    pub fn with_matcher(self, matcher: M) -> (printer: Self)
        ensures
            printer.config() == self.config(),
            printer.matcher() == Some(matcher),
    {
        Self { config: self.config, matcher: Some(matcher) }
    }

    /// Chooses how to print from what the targets of the run are: lines are
    /// printed as they arrive where the one target is a file, and grouped
    /// where there are several targets or the one target is a directory.
    pub fn for_targets(self, kinds: &Vec<TargetKind>) -> (printer: Self)
        ensures
            printer.config() == (Config {
                group_by_target: groups_by_target(kinds@),
                print_immediately: prints_immediately(kinds@),
                ..self.config()
            }),
            printer.matcher() == self.matcher(),
    {
        let print_immediately = kinds.len() == 1 && kinds[0] == TargetKind::File;
        let group_by_target = kinds.len() > 1 || (kinds.len() == 1 && kinds[0]
            == TargetKind::Directory);
        self.group_by_target(group_by_target).print_immediately(print_immediately)
    }

    /// A sender that prints nothing, whatever the settings.
    pub fn make_null(self) -> NullPrinter {
        NullPrinter
    }

    /// The printer with the settings collected.
    pub fn build(self) -> (printer: PrettyPrinter<M>)
        ensures
            printer.wf(),
            printer.config() == self.config(),
            printer.matcher() == self.matcher(),
            printer.received() == Seq::<PrintEvent>::empty(),
    {
        PrettyPrinter::new(self.matcher, self.config)
    }
}

} // verus!
