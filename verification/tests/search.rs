use toygrep::buffer_pool::BufferPool;
use toygrep::crawl::{crawl_tree, MemoryFile, TreeNode};
use toygrep::error::SearchError;
use toygrep::line_buffer::{AsyncLineBufferBuilder, MemoryReader};
use toygrep::line_reader::AsyncLineBufferReader;
use toygrep::matcher::{DummyMatcher, Matcher, RegexMatcher, RegexMatcherBuilder};
use toygrep::print::{make_printer_sender, PrintMessage, PrintableResult};
use toygrep::search::{
    search_directory, search_file, search_files, search_via_reader, FileSearch, LineVerdict,
    RunReport, SearchAction, SearchRun, SearcherBuilder, BINARY_CHECK_LEN_BYTES,
};
use toygrep::stats::ReadStats;
use toygrep::target::{Target, TargetKind};

fn matcher_for(pattern: &str) -> RegexMatcher {
    RegexMatcherBuilder::new()
        .for_pattern(pattern)
        .case_insensitive(false)
        .build()
        .unwrap()
}

fn reader_over(text: &[u8], capacity: usize) -> AsyncLineBufferReader {
    let line_buf = AsyncLineBufferBuilder::new()
        .with_read_capacity(capacity)
        .build();
    AsyncLineBufferReader::new(MemoryReader::new(text.to_vec()), line_buf)
}

fn printable(target: &str, line_num: usize, text: &[u8]) -> PrintMessage {
    PrintMessage::Printable(PrintableResult::new(
        target.to_string(),
        line_num,
        text.to_vec(),
    ))
}

fn end(target: &str) -> PrintMessage {
    PrintMessage::EndOfReading {
        target_name: target.to_string(),
    }
}

fn file(path: &str, bytes: &[u8]) -> MemoryFile {
    MemoryFile {
        path: path.to_string(),
        bytes: bytes.to_vec(),
    }
}

#[test]
fn one_match_in_the_second_line_with_a_small_buffer() {
    let mut reader = reader_over(b"alpha\nbeta\ngamma", 4);
    let (stats, messages) =
        search_via_reader(&matcher_for("beta"), &mut reader, Some("greek".to_string()));
    assert_eq!(vec![printable("greek", 2, b"beta\n"), end("greek")], messages);
    assert_eq!(1, stats.total_files_visited);
    assert_eq!(0, stats.skipped_files_non_utf8);
    assert_eq!(1, stats.lines_matched_count);
    assert_eq!(5, stats.lines_matched_bytes);
    assert_eq!(16, stats.non_utf8_bytes_checked);
    assert_eq!(reader.inner_buf_len(), stats.max_buffer_size);
    assert!(stats.max_buffer_size >= 6);
    assert_eq!(0, stats.buffers_created);
    assert_eq!(0, stats.reader_search_dur);
}

#[test]
fn every_line_of_newlines_matches_the_newline() {
    let mut reader = reader_over(b"\n\n\n", 128);
    let (stats, messages) = search_via_reader(&matcher_for("\n"), &mut reader, None);
    assert_eq!(
        vec![
            printable("", 1, b"\n"),
            printable("", 2, b"\n"),
            printable("", 3, b"\n"),
            end(""),
        ],
        messages
    );
    assert_eq!(3, stats.lines_matched_count);
    assert_eq!(3, stats.lines_matched_bytes);
}

#[test]
fn an_empty_source_ends_at_once() {
    let mut reader = reader_over(b"", 16);
    let (stats, messages) = search_via_reader(&matcher_for("x"), &mut reader, Some("e".into()));
    assert_eq!(vec![end("e")], messages);
    assert_eq!(
        ReadStats {
            total_files_visited: 1,
            max_buffer_size: 16,
            ..ReadStats::default()
        },
        stats
    );
}

#[test]
fn a_binary_file_is_skipped_and_counted() {
    let mut reader = reader_over(b"match\n\xff\xfe\nmatch\n", 64);
    let (stats, messages) =
        search_via_reader(&matcher_for("match"), &mut reader, Some("b.bin".to_string()));
    assert_eq!(vec![printable("b.bin", 1, b"match\n"), end("b.bin")], messages);
    assert_eq!(
        ReadStats {
            total_files_visited: 1,
            skipped_files_non_utf8: 1,
            non_utf8_bytes_checked: 9,
            lines_matched_count: 1,
            lines_matched_bytes: 6,
            ..ReadStats::default()
        },
        stats
    );
}

#[test]
fn bytes_past_the_sample_window_are_not_checked() {
    let mut text = vec![b'a'; BINARY_CHECK_LEN_BYTES];
    text.push(b'\n');
    text.extend_from_slice(b"\xff match\n");
    let mut reader = reader_over(&text, 64);
    let (stats, messages) = search_via_reader(&matcher_for("match"), &mut reader, None);
    assert_eq!(vec![printable("", 2, b"\xff match\n"), end("")], messages);
    assert_eq!(0, stats.skipped_files_non_utf8);
    assert_eq!(513, stats.non_utf8_bytes_checked);
    assert_eq!(1, stats.lines_matched_count);
    assert_eq!(8, stats.lines_matched_bytes);
}

#[test]
fn the_sample_window_is_512_bytes() {
    assert_eq!(512, BINARY_CHECK_LEN_BYTES);
    let mut text = vec![b'a'; 510];
    text.push(b'\n');
    text.extend_from_slice(b"\xff\n");
    let mut reader = reader_over(&text, 64);
    let (stats, _) = search_via_reader(&DummyMatcher, &mut reader, None);
    assert_eq!(1, stats.skipped_files_non_utf8);
    assert_eq!(513, stats.non_utf8_bytes_checked);
}

#[test]
fn search_line_by_line() {
    let matcher = matcher_for("b");
    let mut search = FileSearch::new(Some("t".to_string()));
    assert_eq!(LineVerdict::NoMatch, search.search_line(&matcher, 1, b"aaa\n"));
    assert_eq!(
        LineVerdict::Match(PrintableResult::new("t".to_string(), 2, b"abc\n".to_vec())),
        search.search_line(&matcher, 2, b"abc\n")
    );
    assert_eq!(LineVerdict::Binary, search.search_line(&matcher, 3, b"b\xff\n"));
    let (stats, message) = search.abandon();
    assert_eq!(end("t"), message);
    assert_eq!(
        ReadStats {
            total_files_visited: 1,
            skipped_files_non_utf8: 1,
            non_utf8_bytes_checked: 11,
            lines_matched_count: 1,
            lines_matched_bytes: 4,
            ..ReadStats::default()
        },
        stats
    );
}

#[test]
fn finish_sets_the_buffer_size() {
    let mut search = FileSearch::new(None);
    assert_eq!(LineVerdict::NoMatch, search.search_line(&DummyMatcher, 1, b"abc\n"));
    let (stats, message) = search.finish(77);
    assert_eq!(end(""), message);
    assert_eq!(
        ReadStats {
            total_files_visited: 1,
            non_utf8_bytes_checked: 4,
            max_buffer_size: 77,
            ..ReadStats::default()
        },
        stats
    );
}

#[test]
fn search_file_borrows_a_buffer_and_gives_it_back() {
    let mut pool = BufferPool::new();
    let (stats, messages) = search_file(
        &matcher_for("two"),
        &file("dir/f.txt", b"one\ntwo\nthree\ntwo"),
        &mut pool,
    );
    assert_eq!(4, pool.pool_size());
    assert_eq!(
        vec![
            printable("dir/f.txt", 2, b"two\n"),
            printable("dir/f.txt", 4, b"two"),
            end("dir/f.txt"),
        ],
        messages
    );
    assert_eq!(2, stats.lines_matched_count);
    assert_eq!(7, stats.lines_matched_bytes);
    assert_eq!(8192, stats.max_buffer_size);
}

#[test]
fn search_file_creates_a_buffer_when_none_is_idle() {
    let mut pool = BufferPool::new();
    for _ in 0..4 {
        pool.acquire(0);
    }
    let (stats, _) = search_file(&matcher_for("x"), &file("f", b"0123456789"), &mut pool);
    assert_eq!(1, pool.pool_size());
    assert_eq!(20, stats.max_buffer_size);
    let recycled = pool.acquire(0);
    assert_eq!(20, recycled.len());
    assert_eq!(20, recycled.writable_len());
}

#[test]
fn a_directory_of_three_files() {
    let tree = TreeNode::Directory(vec![
        TreeNode::File(file("a.txt", b"nothing\nneedle here\n")),
        TreeNode::File(file("b.bin", b"\xff\xfe\x00needle\n")),
        TreeNode::File(file("c.txt", b"nothing\nat all\n")),
    ]);
    let searcher = SearcherBuilder::new(matcher_for("needle"), make_printer_sender()).build();
    let mut pool = BufferPool::new();
    let mut run = SearchRun::new();
    let mut sent = Vec::new();
    for found in crawl_tree(&tree).files {
        let (stats, messages) = searcher.search_file(found, &mut pool);
        run.record(&stats);
        sent.extend(messages);
    }
    let report = run.conclude(pool.pool_size());
    assert!(report.unreachable.is_empty());
    assert_eq!(None, report.error());
    let stats = report.stats;
    assert_eq!(3, stats.total_files_visited);
    assert_eq!(1, stats.skipped_files_non_utf8);
    assert_eq!(1, stats.lines_matched_count);
    assert_eq!(12, stats.lines_matched_bytes);
    assert_eq!(4, stats.buffers_created);
    assert_eq!(
        vec![
            printable("a.txt", 2, b"needle here\n"),
            end("a.txt"),
            end("b.bin"),
            end("c.txt"),
        ],
        sent
    );
}

#[test]
fn searcher_searches_through_a_reader() {
    let searcher = SearcherBuilder::new(matcher_for("b"), make_printer_sender()).build();
    let mut reader = reader_over(b"a\nb\n", 8);
    let (stats, messages) = searcher.search_via_reader(&mut reader, Some("s".to_string()));
    assert_eq!(vec![printable("s", 2, b"b\n"), end("s")], messages);
    assert_eq!(1, stats.lines_matched_count);
    assert!(searcher.matcher_ref().is_match(b"abc"));
    assert!(!searcher.matcher_ref().is_match(b"acd"));
    searcher.printer_ref();
}

#[test]
fn next_action_goes_by_what_the_target_is() {
    let path = || Target::for_path("some/path".to_string());
    assert_eq!(
        SearchAction::File("some/path".to_string()),
        SearchRun::next_action(path(), TargetKind::File)
    );
    assert_eq!(
        SearchAction::Directory("some/path".to_string()),
        SearchRun::next_action(path(), TargetKind::Directory)
    );
    assert_eq!(
        SearchAction::Unreachable("some/path".to_string()),
        SearchRun::next_action(path(), TargetKind::Missing)
    );
    assert_eq!(
        SearchAction::Unreachable("some/path".to_string()),
        SearchRun::next_action(path(), TargetKind::Stdin)
    );
    assert_eq!(
        SearchAction::Stdin,
        SearchRun::next_action(Target::Stdin, TargetKind::Stdin)
    );
    assert_eq!(
        SearchAction::Stdin,
        SearchRun::next_action(Target::Stdin, TargetKind::Missing)
    );
}

#[test]
fn a_run_folds_the_counters_of_its_targets() {
    let mut run = SearchRun::new();
    run.record(&ReadStats {
        total_files_visited: 1,
        lines_matched_count: 2,
        max_buffer_size: 10,
        ..ReadStats::default()
    });
    run.record(&ReadStats {
        total_files_visited: 3,
        lines_matched_count: 5,
        max_buffer_size: 7,
        ..ReadStats::default()
    });
    assert_eq!(
        RunReport {
            stats: ReadStats {
                total_files_visited: 4,
                lines_matched_count: 7,
                max_buffer_size: 10,
                buffers_created: 6,
                ..ReadStats::default()
            },
            unreachable: Vec::new(),
        },
        run.conclude(6)
    );
}

#[test]
fn unreachable_targets_are_reported_with_the_counters() {
    let mut run = SearchRun::new();
    run.record_unreachable("nowhere".to_string());
    run.record(&ReadStats {
        total_files_visited: 1,
        ..ReadStats::default()
    });
    run.record_unreachable("gone".to_string());
    let report = run.conclude(4);
    assert_eq!(
        ReadStats {
            total_files_visited: 1,
            buffers_created: 4,
            ..ReadStats::default()
        },
        report.stats
    );
    assert_eq!(vec!["nowhere".to_string(), "gone".to_string()], report.unreachable);
    assert_eq!(
        Some(SearchError::TargetsNotFound(vec![
            "nowhere".to_string(),
            "gone".to_string()
        ])),
        report.error()
    );
}

#[test]
fn a_missing_target_does_not_keep_a_file_from_being_searched() {
    let targets = vec![
        (Target::for_path("missing".to_string()), TargetKind::Missing),
        (Target::for_path("f.txt".to_string()), TargetKind::File),
    ];
    let found = file("f.txt", b"nothing\nthe needle\n");
    let matcher = matcher_for("needle");
    let mut pool = BufferPool::new();
    let mut run = SearchRun::new();
    let mut sent = Vec::new();
    for (target, kind) in targets {
        match SearchRun::next_action(target, kind) {
            SearchAction::File(path) => {
                assert_eq!("f.txt", path);
                let (stats, messages) = search_file(&matcher, &found, &mut pool);
                assert!(run.try_record(&stats));
                sent.extend(messages);
            }
            SearchAction::Unreachable(path) => run.record_unreachable(path),
            other => panic!("unexpected action {:?}", other),
        }
    }
    let report = run.conclude(pool.pool_size());
    assert_eq!(vec!["missing".to_string()], report.unreachable);
    assert_eq!(1, report.stats.total_files_visited);
    assert_eq!(1, report.stats.lines_matched_count);
    assert_eq!(
        vec![printable("f.txt", 2, b"the needle\n"), end("f.txt")],
        sent
    );
}

#[test]
fn try_record_refuses_counters_that_do_not_fit() {
    let mut run = SearchRun::new();
    assert!(run.try_record(&ReadStats {
        total_files_visited: usize::MAX,
        ..ReadStats::default()
    }));
    assert!(!run.try_record(&ReadStats {
        total_files_visited: 1,
        lines_matched_count: 5,
        ..ReadStats::default()
    }));
    assert_eq!(
        ReadStats {
            total_files_visited: usize::MAX,
            buffers_created: 1,
            ..ReadStats::default()
        },
        run.conclude(1).stats
    );
}

#[test]
fn a_search_has_room_for_lines_that_fit_its_counters() {
    let mut search = FileSearch::new(None);
    assert!(search.has_room_for(0));
    assert!(search.has_room_for(usize::MAX));
    assert_eq!(
        LineVerdict::Match(PrintableResult::new(String::new(), 1, b"ab\n".to_vec())),
        search.search_line(&matcher_for("a"), 1, b"ab\n")
    );
    assert!(search.has_room_for(usize::MAX - 3));
    assert!(!search.has_room_for(usize::MAX - 2));
}

#[test]
fn search_files_folds_the_counters_in_order() {
    let a = file("a.txt", b"nothing\nneedle here\n");
    let b = file("b.bin", b"\xff\xfe\x00needle\n");
    let c = file("c.txt", b"needle\nneedle");
    let mut pool = BufferPool::new();
    let (stats, messages) = search_files(&matcher_for("needle"), &vec![&a, &b, &c], &mut pool);
    assert_eq!(
        ReadStats {
            total_files_visited: 3,
            skipped_files_non_utf8: 1,
            non_utf8_bytes_checked: 20 + 10 + 13,
            lines_matched_count: 3,
            lines_matched_bytes: 12 + 7 + 6,
            max_buffer_size: 8192,
            ..ReadStats::default()
        },
        stats
    );
    assert_eq!(
        vec![
            printable("a.txt", 2, b"needle here\n"),
            end("a.txt"),
            end("b.bin"),
            printable("c.txt", 1, b"needle\n"),
            printable("c.txt", 2, b"needle"),
            end("c.txt"),
        ],
        messages
    );
    assert_eq!(4, pool.pool_size());
}

#[test]
fn search_files_of_nothing_counts_nothing() {
    let mut pool = BufferPool::new();
    let (stats, messages) = search_files(&DummyMatcher, &Vec::new(), &mut pool);
    assert_eq!(ReadStats::default(), stats);
    assert!(messages.is_empty());
}

#[test]
fn search_directory_searches_every_file_once() {
    let tree = TreeNode::Directory(vec![
        TreeNode::File(file("a.txt", b"nothing\nneedle here\n")),
        TreeNode::Directory(vec![
            TreeNode::File(file("sub/b.bin", b"\xff\xfe\x00needle\n")),
            TreeNode::Unreadable,
        ]),
        TreeNode::File(file("c.txt", b"nothing\nat all\n")),
    ]);
    let mut pool = BufferPool::new();
    let (stats, messages) = search_directory(&matcher_for("needle"), &tree, &mut pool);
    assert_eq!(3, stats.total_files_visited);
    assert_eq!(1, stats.skipped_files_non_utf8);
    assert_eq!(1, stats.lines_matched_count);
    assert_eq!(12, stats.lines_matched_bytes);
    assert_eq!(
        vec![
            printable("a.txt", 2, b"needle here\n"),
            end("a.txt"),
            end("c.txt"),
            end("sub/b.bin"),
        ],
        messages
    );

    let searcher = SearcherBuilder::new(matcher_for("needle"), make_printer_sender()).build();
    let (again, _) = searcher.search_directory(&tree, &mut pool);
    assert_eq!(stats, again);
}

#[test]
fn search_directory_of_an_empty_directory_visits_nothing() {
    let tree = TreeNode::Directory(Vec::new());
    let mut pool = BufferPool::new();
    let (stats, messages) = search_directory(&matcher_for("needle"), &tree, &mut pool);
    assert_eq!(ReadStats::default(), stats);
    assert!(messages.is_empty());
    assert_eq!(4, pool.pool_size());
}

#[test]
fn the_largest_buffer_is_that_of_the_files_that_are_text() {
    let mut pool = BufferPool::new();
    for _ in 0..4 {
        pool.acquire(0);
    }
    let text = file("t", b"0123456789");
    let binary = file("b", b"\xff\xff\xff\xff\xff\xff\xff\xff\xff\xff\xff\xff\xff\xff\xff\xff\xff\xff\xff\xff\xff");
    let (stats, _) = search_files(&DummyMatcher, &vec![&binary], &mut pool);
    assert_eq!(0, stats.max_buffer_size);

    let mut pool = BufferPool::new();
    for _ in 0..4 {
        pool.acquire(0);
    }
    let (stats, _) = search_files(&DummyMatcher, &vec![&text, &binary], &mut pool);
    assert_eq!(20, stats.max_buffer_size);
    let served = pool.acquire(0);
    assert!(stats.max_buffer_size <= served.len());
    pool.return_to_pool(served);

    let (stats, _) = search_files(&DummyMatcher, &vec![&binary, &text], &mut pool);
    let served = pool.acquire(0);
    assert_eq!(served.len(), stats.max_buffer_size);
}

#[test]
fn a_search_leaves_the_pool_as_large_as_it_was() {
    let searcher = SearcherBuilder::new(matcher_for("x"), make_printer_sender()).build();
    let mut pool = BufferPool::new();
    searcher.search_file(&file("empty", b""), &mut pool);
    assert_eq!(4, pool.pool_size());
    searcher.search_directory(&TreeNode::Directory(Vec::new()), &mut pool);
    assert_eq!(4, pool.pool_size());
    search_files(&DummyMatcher, &vec![&file("a", b"x"), &file("b", b"y")], &mut pool);
    assert_eq!(4, pool.pool_size());

    for _ in 0..4 {
        pool.acquire(0);
    }
    searcher.search_directory(&TreeNode::Unreadable, &mut pool);
    assert_eq!(0, pool.pool_size());
    searcher.search_file(&file("f", b"x\n"), &mut pool);
    assert_eq!(1, pool.pool_size());
    search_files(&DummyMatcher, &vec![&file("a", b"x"), &file("b", b"y")], &mut pool);
    assert_eq!(1, pool.pool_size());
}

#[test]
fn a_binary_line_ends_the_search_where_it_stands() {
    let mut reader = reader_over(b"one\n\xff\ntwo\nthree", 64);
    let (stats, _) = search_via_reader(&matcher_for("t"), &mut reader, None);
    assert_eq!(1, stats.skipped_files_non_utf8);
    // The two lines searched were read, the rest was not.
    let next = reader.read_line().unwrap();
    assert_eq!(3, next.line_num());
    assert_eq!(b"two\n", next.text());
}

#[test]
fn a_search_to_the_end_reads_once_more_than_there_are_lines() {
    let mut reader = reader_over(b"one\ntwo", 64);
    search_via_reader(&DummyMatcher, &mut reader, None);
    assert!(reader.read_line().is_none());
    let mut again = reader_over(b"x", 64);
    assert!(reader.read_line().is_none());
    assert_eq!(1, again.read_line().unwrap().line_num());
}
