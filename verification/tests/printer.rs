use toygrep::error::SearchError;
use toygrep::matcher::{DummyMatcher, Match, RegexMatcher, RegexMatcherBuilder};
use toygrep::print::{make_printer_sender, PrintMessage, PrintableResult, PrinterSender};
use toygrep::printer::{
    colorize, decimal_text, print_colorized, text_op, Color, Config, PrettyPrinter, PrintOp,
    Printer,
};
use toygrep::target::TargetKind;

fn grouped() -> Config {
    Config {
        print_line_num: true,
        group_by_target: true,
        print_immediately: false,
    }
}

fn immediate() -> Config {
    Config {
        print_line_num: true,
        group_by_target: false,
        print_immediately: true,
    }
}

fn line(target: &str, line_num: usize, text: &[u8]) -> PrintMessage {
    PrintMessage::Printable(PrintableResult::new(
        target.to_string(),
        line_num,
        text.to_vec(),
    ))
}

fn end(target: &str) -> PrintMessage {
    PrintMessage::EndOfReading {
        target_name: target.to_string(),
    }
}

fn write(text: &str) -> PrintOp {
    PrintOp::Write(text.as_bytes().to_vec())
}

fn matcher_for(pattern: &str) -> RegexMatcher {
    RegexMatcherBuilder::new()
        .for_pattern(pattern)
        .case_insensitive(false)
        .build()
        .unwrap()
}

fn plain_printer(config: Config) -> PrettyPrinter<DummyMatcher> {
    PrettyPrinter::new(None, config)
}

#[test]
fn decimal_text_writes_digits() {
    assert_eq!(b"0".to_vec(), decimal_text(0));
    assert_eq!(b"7".to_vec(), decimal_text(7));
    assert_eq!(b"10".to_vec(), decimal_text(10));
    assert_eq!(b"4096".to_vec(), decimal_text(4096));
    assert_eq!(usize::MAX.to_string().into_bytes(), decimal_text(usize::MAX));
}

#[test]
fn text_op_writes_text_and_reports_the_rest() {
    let name = "some/file".to_string();
    assert_eq!(write("héllo"), text_op("héllo".as_bytes(), &name));
    assert_eq!(write(""), text_op(b"", &name));
    assert_eq!(
        PrintOp::Report("some/file".to_string()),
        text_op(b"ab\xffcd", &name)
    );
}

#[test]
fn printable_text_as_string() {
    let good = PrintableResult::new("t".to_string(), 3, "grüß\n".as_bytes().to_vec());
    assert_eq!(Ok("grüß\n".to_string()), good.text_as_string());

    let bad = PrintableResult::new("the target".to_string(), 3, vec![b'a', 0xc3, b'b']);
    assert_eq!(
        Err(SearchError::Utf8PrintFail("the target".to_string())),
        bad.text_as_string()
    );
}

#[test]
fn printable_result_keeps_what_it_was_given() {
    let printable = PrintableResult::new("name".to_string(), 12, b"text\n".to_vec());
    assert_eq!("name", printable.target_name());
    assert_eq!(12, printable.line_num());
    assert_eq!(&b"text\n".to_vec(), printable.text());
}

#[test]
fn colorize_sets_matches_off() {
    let printable = PrintableResult::new("f".to_string(), 2, b"a beta and beta\n".to_vec());
    let found = vec![Match { start: 2, stop: 6 }, Match { start: 11, stop: 15 }];
    let ops = colorize(b"2:", &found, &printable);
    assert_eq!(
        vec![
            PrintOp::SetColor(Color::Green),
            write("2:"),
            PrintOp::Reset,
            write("a "),
            PrintOp::SetColor(Color::Red),
            write("beta"),
            PrintOp::Reset,
            write(" and "),
            PrintOp::SetColor(Color::Red),
            write("beta"),
            PrintOp::Reset,
            write("\n"),
        ],
        ops
    );
}

#[test]
fn colorize_without_matches_writes_the_line() {
    let printable = PrintableResult::new("f".to_string(), 2, b"plain\n".to_vec());
    let ops = colorize(b"", &Vec::new(), &printable);
    assert_eq!(
        vec![
            PrintOp::SetColor(Color::Green),
            write(""),
            PrintOp::Reset,
            write("plain\n"),
        ],
        ops
    );
}

#[test]
fn colorize_reports_pieces_that_are_no_utf8() {
    let printable = PrintableResult::new("bin".to_string(), 1, b"\xff beta \xfe".to_vec());
    let found = vec![Match { start: 2, stop: 6 }];
    let ops = colorize(b"1:", &found, &printable);
    assert_eq!(
        vec![
            PrintOp::SetColor(Color::Green),
            write("1:"),
            PrintOp::Reset,
            PrintOp::Report("bin".to_string()),
            PrintOp::SetColor(Color::Red),
            write("beta"),
            PrintOp::Reset,
            PrintOp::Report("bin".to_string()),
        ],
        ops
    );
}

#[test]
fn print_colorized_uses_the_matcher() {
    let matcher = matcher_for("beta");
    let printable = PrintableResult::new("f".to_string(), 2, b"beta\n".to_vec());
    let ops = print_colorized(b"2:", &matcher, &printable);
    assert_eq!(
        vec![
            PrintOp::SetColor(Color::Green),
            write("2:"),
            PrintOp::Reset,
            write(""),
            PrintOp::SetColor(Color::Red),
            write("beta"),
            PrintOp::Reset,
            write("\n"),
        ],
        ops
    );
}

#[test]
fn immediate_mode_prints_each_line_at_once() {
    let mut printer = plain_printer(immediate());
    assert_eq!(vec![write("1:first\n")], printer.print(line("a", 1, b"first\n")));
    assert_eq!(vec![write("9:other\n")], printer.print(line("b", 9, b"other\n")));
    assert!(printer.print(end("a")).is_empty());
    assert!(printer.print(end("b")).is_empty());
    assert!(printer
        .print(PrintMessage::Display("shown".to_string()))
        .is_empty());
}

#[test]
fn line_numbers_can_be_left_out() {
    let config = Config {
        print_line_num: false,
        group_by_target: false,
        print_immediately: true,
    };
    let mut printer = plain_printer(config);
    assert_eq!(vec![write("first\n")], printer.print(line("a", 1, b"first\n")));
}

#[test]
fn a_line_that_is_no_utf8_is_reported() {
    let mut printer = plain_printer(immediate());
    assert_eq!(
        vec![PrintOp::Report("a".to_string())],
        printer.print(line("a", 1, b"\xff\n"))
    );
}

#[test]
fn grouped_mode_holds_lines_until_the_target_ends() {
    let mut printer = plain_printer(grouped());
    assert!(printer.print(line("a.txt", 1, b"one\n")).is_empty());
    assert!(printer.print(line("a.txt", 4, b"four\n")).is_empty());
    assert_eq!(
        vec![write("\na.txt\n"), write("1:one\n"), write("4:four\n")],
        printer.print(end("a.txt"))
    );
    assert!(printer.print(end("a.txt")).is_empty());
}

#[test]
fn a_target_without_lines_has_no_block() {
    let mut printer = plain_printer(grouped());
    assert!(printer.print(end("empty.txt")).is_empty());
}

#[test]
fn grouped_mode_shows_display_text() {
    let mut printer = plain_printer(grouped());
    assert_eq!(
        vec![PrintOp::Show("hello".to_string())],
        printer.print(PrintMessage::Display("hello".to_string()))
    );
}

#[test]
fn blocks_of_two_targets_never_interleave() {
    let a_block = vec![write("\nA\n"), write("1:a1\n"), write("2:a2\n"), write("3:a3\n")];
    let b_block = vec![write("\nB\n"), write("1:b1\n"), write("2:b2\n")];
    let a = [
        line("A", 1, b"a1\n"),
        line("A", 2, b"a2\n"),
        line("A", 3, b"a3\n"),
        end("A"),
    ];
    let b = [line("B", 1, b"b1\n"), line("B", 2, b"b2\n"), end("B")];

    // Every way of merging the two streams that keeps the order of each.
    for mask in 0u32..(1 << 7) {
        if mask.count_ones() != 3 {
            continue;
        }
        let mut printer = plain_printer(grouped());
        let mut output = Vec::new();
        let (mut next_a, mut next_b) = (0, 0);
        let mut a_ended_first = false;
        for position in 0..7 {
            let message = if mask & (1 << position) != 0 {
                next_b += 1;
                b[next_b - 1].clone()
            } else {
                next_a += 1;
                a[next_a - 1].clone()
            };
            if next_a == 4 && next_b < 3 {
                a_ended_first = true;
            }
            output.extend(printer.print(message));
        }
        let expected = if a_ended_first {
            [a_block.clone(), b_block.clone()].concat()
        } else {
            [b_block.clone(), a_block.clone()].concat()
        };
        assert_eq!(expected, output);
    }
}

#[test]
fn a_target_can_be_read_again_after_it_ended() {
    let mut printer = plain_printer(grouped());
    printer.print(line("a", 1, b"x\n"));
    assert_eq!(vec![write("\na\n"), write("1:x\n")], printer.print(end("a")));
    printer.print(line("a", 2, b"y\n"));
    assert_eq!(vec![write("\na\n"), write("2:y\n")], printer.print(end("a")));
}

#[test]
fn grouped_mode_with_a_matcher_colours_each_line() {
    let mut printer = PrettyPrinter::new(Some(matcher_for("b")), grouped());
    printer.print(line("t", 7, b"abc\n"));
    assert_eq!(
        vec![
            write("\nt\n"),
            PrintOp::SetColor(Color::Green),
            write("7:"),
            PrintOp::Reset,
            write("a"),
            PrintOp::SetColor(Color::Red),
            write("b"),
            PrintOp::Reset,
            write("c\n"),
        ],
        printer.print(end("t"))
    );
}

#[test]
fn print_line_result_and_target_results() {
    let mut printer = plain_printer(grouped());
    let printable = PrintableResult::new("t".to_string(), 30, b"thirty\n".to_vec());
    assert_eq!(vec![write("30:thirty\n")], printer.print_line_result(&printable));

    printer.print(line("t", 1, b"x\n"));
    assert_eq!(
        vec![write("\nt\n"), write("1:x\n")],
        printer.print_target_results(&"t".to_string())
    );
    assert!(printer.print_target_results(&"t".to_string()).is_empty());
}

#[test]
fn printer_builder_collects_settings() {
    let mut by_default = Printer::<DummyMatcher>::new().build();
    assert!(by_default.print(line("a", 1, b"x\n")).is_empty());
    assert_eq!(
        vec![write("\na\n"), write("1:x\n")],
        by_default.print(end("a"))
    );

    let mut flat = Printer::<DummyMatcher>::new()
        .group_by_target(false)
        .print_immediately(true)
        .build();
    assert_eq!(vec![write("1:x\n")], flat.print(line("a", 1, b"x\n")));

    let mut coloured = Printer::new()
        .with_matcher(matcher_for("x"))
        .group_by_target(false)
        .build();
    assert_eq!(8, coloured.print(line("a", 1, b"x\n")).len());
}

#[test]
fn printer_mode_follows_the_targets() {
    let one_file = Printer::<DummyMatcher>::new().for_targets(&vec![TargetKind::File]);
    let mut printer = one_file.build();
    assert_eq!(vec![write("1:x\n")], printer.print(line("a", 1, b"x\n")));

    let one_dir = Printer::<DummyMatcher>::new().for_targets(&vec![TargetKind::Directory]);
    let mut printer = one_dir.build();
    assert!(printer.print(line("a", 1, b"x\n")).is_empty());

    let many =
        Printer::<DummyMatcher>::new().for_targets(&vec![TargetKind::File, TargetKind::File]);
    let mut printer = many.build();
    assert!(printer.print(line("a", 1, b"x\n")).is_empty());

    let stdin = Printer::<DummyMatcher>::new().for_targets(&vec![TargetKind::Stdin]);
    let mut printer = stdin.build();
    assert_eq!(vec![write("1:x\n")], printer.print(line("a", 1, b"x\n")));

    let none = Printer::<DummyMatcher>::new().for_targets(&Vec::new());
    let mut printer = none.build();
    assert_eq!(vec![write("1:x\n")], printer.print(line("a", 1, b"x\n")));
}

#[test]
fn null_senders_take_any_message() {
    let sender = make_printer_sender();
    sender.send(line("a", 1, b"x\n"));
    sender.send(end("a"));
    let null = Printer::<DummyMatcher>::new().make_null();
    null.send(PrintMessage::Display("dropped".to_string()));
    null.clone().send(end("b"));
}
