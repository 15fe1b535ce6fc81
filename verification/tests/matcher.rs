use toygrep::error::SearchError;
use toygrep::matcher::{
    format_word_match, DummyMatcher, Match, Matcher, RegexMatcher, RegexMatcherBuilder,
};

fn matcher_for(pattern: &str) -> RegexMatcher {
    RegexMatcherBuilder::new()
        .for_pattern(pattern)
        .case_insensitive(false)
        .build()
        .unwrap()
}

fn ranges(found: &[Match]) -> Vec<(usize, usize)> {
    found.iter().map(|m| (m.start, m.stop)).collect()
}

#[test]
fn dummy_matcher_never_matches() {
    let matcher = DummyMatcher;
    assert!(!matcher.is_match(b"anything at all"));
    assert!(matcher.find_matches(b"anything at all").is_empty());
    assert!(!matcher.is_match(b""));
}

#[test]
fn regex_matcher_finds_every_occurrence_in_order() {
    let matcher = matcher_for("ab");
    let found = matcher.find_matches(b"ab-ab--ab");
    assert_eq!(vec![(0, 2), (3, 5), (7, 9)], ranges(&found));
    assert!(matcher.is_match(b"ab-ab--ab"));
}

#[test]
fn regex_matcher_reports_no_match() {
    let matcher = matcher_for("beta");
    assert!(!matcher.is_match(b"alpha\n"));
    assert!(matcher.find_matches(b"alpha\n").is_empty());
    assert!(matcher.is_match(b"beta\n"));
    assert_eq!(vec![(0, 4)], ranges(&matcher.find_matches(b"beta\n")));
}

#[test]
fn matches_are_ascending_and_do_not_overlap() {
    let patterns = ["a", "aa", "a*", "[ab]+", "", "b|ab", "\\w+"];
    let lines: [&[u8]; 5] = [b"", b"aaaa", b"abab ba aab", b"xyz", b"a\xffb aa"];
    for pattern in patterns.iter() {
        let matcher = matcher_for(pattern);
        for line in lines.iter() {
            let found = matcher.find_matches(line);
            for m in found.iter() {
                assert!(m.start < m.stop);
                assert!(m.stop <= line.len());
            }
            for pair in found.windows(2) {
                assert!(pair[0].stop <= pair[1].start);
                assert!(pair[0].start < pair[1].start);
            }
            assert_eq!(matcher.is_match(line), !found.is_empty());
        }
    }
}

#[test]
fn an_occurrence_without_a_byte_is_no_match() {
    let matcher = matcher_for("a*");
    assert!(matcher.find_matches(b"b").is_empty());
    assert!(!matcher.is_match(b"b"));
    assert!(!matcher.is_match(b""));

    assert_eq!(vec![(1, 3), (4, 5)], ranges(&matcher.find_matches(b"baaba")));
    assert!(matcher.is_match(b"baaba"));

    let anchors = matcher_for("^|$");
    assert!(anchors.find_matches(b"some line\n").is_empty());
    assert!(!anchors.is_match(b"some line\n"));
}

#[test]
fn builder_ignores_case_unless_told_otherwise() {
    let by_default = RegexMatcherBuilder::new()
        .for_pattern("beta")
        .build()
        .unwrap();
    assert!(by_default.is_match(b"BeTa"));

    let exact = RegexMatcherBuilder::new()
        .for_pattern("beta")
        .case_insensitive(false)
        .build()
        .unwrap();
    assert!(!exact.is_match(b"BeTa"));
    assert!(exact.is_match(b"beta"));
}

#[test]
fn builder_without_pattern_matches_nothing() {
    let matcher = RegexMatcherBuilder::new().build().unwrap();
    assert!(!matcher.is_match(b""));
    assert!(!matcher.is_match(b"anything"));
    assert!(matcher.find_matches(b"anything").is_empty());
}

#[test]
fn the_matcher_goes_by_the_pattern_and_the_flag_it_was_built_with() {
    let exact = RegexMatcherBuilder::new()
        .for_pattern("Beta")
        .case_insensitive(false)
        .match_whole_word(true)
        .build()
        .unwrap();
    assert_eq!(vec![(5, 11)], ranges(&exact.find_matches(b"alpha Beta gamma beta")));
    assert!(!exact.is_match(b"alphaBeta beta"));

    let loose = RegexMatcherBuilder::new()
        .for_pattern("Beta")
        .case_insensitive(true)
        .match_whole_word(false)
        .build()
        .unwrap();
    assert_eq!(
        vec![(5, 9), (10, 14)],
        ranges(&loose.find_matches(b"alphaBeta beta"))
    );
}

#[test]
fn whole_word_matches_words_only() {
    let words = RegexMatcherBuilder::new()
        .for_pattern("cat")
        .match_whole_word(true)
        .build()
        .unwrap();
    assert!(words.is_match(b"a cat sat"));
    assert!(words.is_match(b"cat"));
    assert!(!words.is_match(b"concatenate"));

    let anywhere = RegexMatcherBuilder::new()
        .for_pattern("cat")
        .match_whole_word(false)
        .build()
        .unwrap();
    assert!(anywhere.is_match(b"concatenate"));
}

#[test]
fn whole_word_match_includes_the_boundaries() {
    let words = RegexMatcherBuilder::new()
        .for_pattern("cat")
        .match_whole_word(true)
        .build()
        .unwrap();
    assert_eq!(vec![(1, 6)], ranges(&words.find_matches(b"a cat sat")));
}

#[test]
fn format_word_match_wraps_the_pattern() {
    assert_eq!(
        "(?:(?m:^)|\\W)(beta)(?:(?m:$)|\\W)",
        format_word_match("beta")
    );
    assert_eq!("(?:(?m:^)|\\W)()(?:(?m:$)|\\W)", format_word_match(""));
}

#[test]
fn an_invalid_pattern_is_refused() {
    let built = RegexMatcherBuilder::new().for_pattern("(unclosed").build();
    match built {
        Err(SearchError::InvalidPattern(message)) => assert!(!message.is_empty()),
        other => panic!("expected an invalid pattern, got {:?}", other.map(|_| ())),
    }
}

#[test]
fn a_cloned_matcher_matches_alike() {
    let matcher = matcher_for("b+");
    let copy = matcher.clone();
    let line = b"abbb cb";
    assert_eq!(
        ranges(&matcher.find_matches(line)),
        ranges(&copy.find_matches(line))
    );
    assert_eq!(vec![(1, 4), (6, 7)], ranges(&copy.find_matches(line)));
}
