//! Matching a pattern against the bytes of a line.

use crate::error::SearchError;
use regex::bytes::{Regex, RegexBuilder};
use vstd::prelude::*;
use vstd::string::StringExecFns;

verus! {

/// One occurrence of the pattern: the bytes `[start, stop)` of the line.
#[derive(Debug, Clone, Copy, PartialEq, Eq, Structural)]
pub struct Match {
    pub start: usize,
    pub stop: usize,
}

/// Ranges that lie inside a line of `len` bytes, none of them empty, in
/// ascending order and without overlap: each begins no earlier than the one
/// before it ends.
pub open spec fn matches_ordered(found: Seq<Match>, len: nat) -> bool {
    &&& forall|i: int| 0 <= i < found.len() ==> (#[trigger] found[i]).start < found[i].stop <= len
    &&& forall|i: int, j: int|
        0 <= i < j < found.len() ==> (#[trigger] found[i]).stop <= (#[trigger] found[j]).start
}

/// The ability to say whether bytes match a pattern, and where.
pub trait Matcher: Clone + Send {
    /// The occurrences of the pattern in `bytes`, in order.
    spec fn match_ranges(&self, bytes: Seq<u8>) -> Seq<Match>;

    /// Whether the pattern occurs in `bytes`: exactly when `find_matches`
    /// finds an occurrence.
    fn is_match(&self, bytes: &[u8]) -> (matched: bool)
        ensures
            matched == (self.match_ranges(bytes@).len() > 0),
    ;

    /// The occurrences of the pattern in `bytes`: inside the line, at least
    /// one byte long each, ascending and without overlap.
    fn find_matches(&self, bytes: &[u8]) -> (found: Vec<Match>)
        ensures
            found@ == self.match_ranges(bytes@),
            matches_ordered(found@, bytes@.len()),
    ;
}

/// A matcher that never finds anything.
#[derive(Debug, Clone, Copy)]
pub struct DummyMatcher;

impl Matcher for DummyMatcher {
    open spec fn match_ranges(&self, bytes: Seq<u8>) -> Seq<Match> {
        Seq::empty()
    }

    fn is_match(&self, _bytes: &[u8]) -> (matched: bool) {
        false
    }

    fn find_matches(&self, _bytes: &[u8]) -> (found: Vec<Match>) {
        Vec::new()
    }
}

/// A compiled regular expression of the `regex` crate, for bytes.
#[verifier::external_type_specification]
#[verifier::external_body]
pub struct ExRegex(Regex);

/// The error with which the `regex` crate refuses a pattern.
#[verifier::external_type_specification]
#[verifier::external_body]
pub struct ExRegexError(regex::Error);

/// Whether `regex::bytes::RegexBuilder::build` accepts the pattern with the
/// given case sensitivity and otherwise default settings.
pub uninterp spec fn pattern_compiles(pattern: Seq<char>, case_insensitive: bool) -> bool;

/// The ranges `(start, end)` that `regex::bytes::Regex::find_iter` yields for
/// the haystack, in the order in which it yields them.
pub uninterp spec fn regex_match_ranges(regex: Regex, haystack: Seq<u8>) -> Seq<(usize, usize)>;

/// The ranges `(start, end)` that the expression which
/// `regex::bytes::RegexBuilder::build` compiles from the pattern, with the
/// given case sensitivity and otherwise default settings, finds in the
/// haystack.
pub uninterp spec fn pattern_ranges(
    pattern: Seq<char>,
    case_insensitive: bool,
    haystack: Seq<u8>,
) -> Seq<(usize, usize)>;

/// Ranges as the search yields them: each inside a haystack of `len` bytes
/// and not reversed, and each beginning no earlier than its predecessor ends.
pub open spec fn ranges_successive(ranges: Seq<(usize, usize)>, len: nat) -> bool {
    &&& forall|i: int| 0 <= i < ranges.len() ==> (#[trigger] ranges[i]).0 <= ranges[i].1 <= len
    &&& forall|i: int| 0 <= i < ranges.len() - 1 ==> (#[trigger] ranges[i]).1 <= ranges[i + 1].0
}

/// `Clone` for `regex::bytes::Regex`. Trusted: the copy finds the same matches
/// as the expression it was made from.
pub assume_specification[ <Regex as Clone>::clone ](regex: &Regex) -> (copy: Regex)
    ensures
        forall|haystack: Seq<u8>| #[trigger]
            regex_match_ranges(copy, haystack) == regex_match_ranges(*regex, haystack),
;

/// Calls `regex::bytes::RegexBuilder::new`, `case_insensitive` and `build`.
/// Trusted: the pattern is accepted or refused by its text and the flag
/// alone, and what the compiled expression finds depends on them alone.
#[verifier::external_body]
fn compile_pattern(pattern: &str, case_insensitive: bool) -> (compiled: Result<Regex, regex::Error>)
    ensures
        compiled is Ok == pattern_compiles(pattern@, case_insensitive),
        compiled matches Ok(regex) ==> forall|haystack: Seq<u8>| #[trigger]
            regex_match_ranges(regex, haystack) == pattern_ranges(
                pattern@,
                case_insensitive,
                haystack,
            ),
{
    RegexBuilder::new(pattern).case_insensitive(case_insensitive).build()
}

/// Renders a `regex::Error` as text, through its `Debug` form. Nothing is
/// claimed of the text.
#[verifier::external_body]
fn pattern_error_message(error: &regex::Error) -> String {
    format!("{:?}", error)
}

/// Calls `regex::bytes::Regex::is_match`. Trusted: it answers `true` exactly
/// when the haystack holds a match, that is when `find_iter` yields one.
#[verifier::external_body]
fn regex_is_match(regex: &Regex, haystack: &[u8]) -> (matched: bool)
    ensures
        matched == (regex_match_ranges(*regex, haystack@).len() > 0),
{
    regex.is_match(haystack)
}

/// Calls `regex::bytes::Regex::find_iter` and collects the offsets of each
/// match. Trusted: the matches depend on the expression and the haystack
/// alone; each lies inside the haystack with its start no later than its end;
/// each search starts where the match before ended.
#[verifier::external_body]
fn regex_find_ranges(regex: &Regex, haystack: &[u8]) -> (ranges: Vec<(usize, usize)>)
    ensures
        ranges@ == regex_match_ranges(*regex, haystack@),
        ranges_successive(ranges@, haystack@.len()),
{
    regex.find_iter(haystack).map(|m| (m.start(), m.end())).collect()
}

/// The ranges that hold at least one byte, as matches, in their order.
pub open spec fn proper_matches(ranges: Seq<(usize, usize)>) -> Seq<Match>
    decreases ranges.len(),
{
    if ranges.len() == 0 {
        Seq::empty()
    } else {
        let earlier = proper_matches(ranges.drop_last());
        let last = ranges.last();
        if last.0 < last.1 {
            earlier.push(Match { start: last.0, stop: last.1 })
        } else {
            earlier
        }
    }
}

/// Successive ranges are ordered pairwise, not only neighbour to neighbour.
proof fn lemma_successive_ranges_ordered(ranges: Seq<(usize, usize)>, len: nat, i: int, j: int)
    requires
        ranges_successive(ranges, len),
        0 <= i < j < ranges.len(),
    ensures
        ranges[i].1 <= ranges[j].0,
    decreases j - i,
{
    if i + 1 < j {
        lemma_successive_ranges_ordered(ranges, len, i, j - 1);
        assert(ranges[j - 1].0 <= ranges[j - 1].1);
        assert(ranges[j - 1].1 <= ranges[j - 1 + 1].0);
    }
}

/// The matches kept of successive ranges are ordered, and none ends behind
/// the last of the ranges.
proof fn lemma_proper_matches_ordered(ranges: Seq<(usize, usize)>, len: nat)
    requires
        ranges_successive(ranges, len),
    ensures
        matches_ordered(proper_matches(ranges), len),
        forall|i: int|
            0 <= i < proper_matches(ranges).len() ==> ranges.len() > 0 && (
            #[trigger] proper_matches(ranges)[i]).stop <= ranges.last().1,
    decreases ranges.len(),
{
    if ranges.len() > 0 {
        let shorter = ranges.drop_last();
        let last = ranges.last();
        assert forall|i: int| 0 <= i < shorter.len() implies (#[trigger] shorter[i]).0
            <= shorter[i].1 <= len by {
            assert(shorter[i] == ranges[i]);
        }
        assert forall|i: int| 0 <= i < shorter.len() - 1 implies (#[trigger] shorter[i]).1
            <= shorter[i + 1].0 by {
            assert(shorter[i] == ranges[i] && shorter[i + 1] == ranges[i + 1]);
        }
        lemma_proper_matches_ordered(shorter, len);
        let earlier = proper_matches(shorter);
        let kept = proper_matches(ranges);
        assert(last.0 <= last.1 <= len);
        if shorter.len() > 0 {
            lemma_successive_ranges_ordered(ranges, len, ranges.len() - 2, ranges.len() - 1);
            assert(shorter.last() == ranges[ranges.len() - 2]);
        }
        assert forall|i: int| 0 <= i < kept.len() implies (#[trigger] kept[i]).start
            < kept[i].stop <= len && kept[i].stop <= last.1 by {
            if i < earlier.len() {
                assert(kept[i] == earlier[i]);
            }
        }
        assert forall|i: int, j: int| 0 <= i < j < kept.len() implies (#[trigger] kept[i]).stop <= (
        #[trigger] kept[j]).start by {
            assert(kept[i] == earlier[i]);
            if j < earlier.len() {
                assert(kept[j] == earlier[j]);
            }
        }
    }
}

/// A matcher for a regular expression.
#[derive(Debug, Clone)]
pub struct RegexMatcher {
    regex: Regex,
}

impl RegexMatcher {
    /// The compiled expression.
    pub closed spec fn regex(&self) -> Regex {
        self.regex
    }
}

impl Matcher for RegexMatcher {
    open spec fn match_ranges(&self, bytes: Seq<u8>) -> Seq<Match> {
        proper_matches(regex_match_ranges(self.regex(), bytes))
    }

    fn is_match(&self, bytes: &[u8]) -> (matched: bool) {
        if !regex_is_match(&self.regex, bytes) {
            return false;
        }
        self.find_matches(bytes).len() > 0
    }

    fn find_matches(&self, bytes: &[u8]) -> (found: Vec<Match>) {
        let ranges = regex_find_ranges(&self.regex, bytes);
        let mut found: Vec<Match> = Vec::new();
        let mut i: usize = 0;
        assert(ranges@.subrange(0, 0) =~= Seq::<(usize, usize)>::empty());
        while i < ranges.len()
            invariant
                i <= ranges@.len(),
                found@ == proper_matches(ranges@.subrange(0, i as int)),
            decreases ranges@.len() - i,
        {
            let range = ranges[i];
            proof {
                let longer = ranges@.subrange(0, i + 1);
                assert(longer.drop_last() =~= ranges@.subrange(0, i as int));
                assert(longer.last() == range);
            }
            if range.0 < range.1 {
                found.push(Match { start: range.0, stop: range.1 });
            }
            i += 1;
        }
        proof {
            assert(ranges@.subrange(0, i as int) =~= ranges@);
            lemma_proper_matches_ordered(ranges@, bytes@.len());
        }
        found
    }
}

/// The pattern that matches `pattern` as a whole word: the pattern as a
/// group, between a line start or a non-word character and a line end or a
/// non-word character.
pub open spec fn word_pattern(pattern: Seq<char>) -> Seq<char> {
    "(?:(?m:^)|\\W)("@ + pattern + ")(?:(?m:$)|\\W)"@
}

/// Wraps `pattern` so that it matches whole words only.
pub fn format_word_match(pattern: &str) -> (wrapped: String)
    ensures
        wrapped@ == word_pattern(pattern@),
{
    let mut wrapped = String::from_str("(?:(?m:^)|\\W)(");
    wrapped.append(pattern);
    wrapped.append(")(?:(?m:$)|\\W)");
    wrapped
}

/// Collects the settings of a [`RegexMatcher`] and builds it.
pub struct RegexMatcherBuilder<'a> {
    pattern: &'a str,
    is_case_insensitive: bool,
    match_whole_word: bool,
}

impl<'a> RegexMatcherBuilder<'a> {
    /// The pattern to match.
    pub closed spec fn pattern(&self) -> Seq<char> {
        self.pattern@
    }

    /// Whether the case of letters is ignored.
    pub closed spec fn is_case_insensitive(&self) -> bool {
        self.is_case_insensitive
    }

    /// Whether only whole words match.
    pub closed spec fn is_whole_word(&self) -> bool {
        self.match_whole_word
    }

    /// The text that is compiled: the pattern, wrapped where only whole
    /// words are to match.
    pub open spec fn effective_pattern(&self) -> Seq<char> {
        if self.is_whole_word() {
            word_pattern(self.pattern())
        } else {
            self.pattern()
        }
    }

    /// A builder for the empty pattern, ignoring case, matching anywhere.
    pub fn new() -> (builder: Self)
        ensures
            builder.pattern() == ""@,
            builder.is_case_insensitive(),
            !builder.is_whole_word(),
    {
        Self { is_case_insensitive: true, match_whole_word: false, pattern: "" }
    }

    /// Sets the pattern.
    pub fn for_pattern(self, pattern: &'a str) -> (builder: Self)
        ensures
            builder.pattern() == pattern@,
            builder.is_case_insensitive() == self.is_case_insensitive(),
            builder.is_whole_word() == self.is_whole_word(),
    {
        Self {
            pattern,
            is_case_insensitive: self.is_case_insensitive,
            match_whole_word: self.match_whole_word,
        }
    }

    /// Says whether the case of letters is ignored.
    pub fn case_insensitive(self, is_case_insensitive: bool) -> (builder: Self)
        ensures
            builder.pattern() == self.pattern(),
            builder.is_case_insensitive() == is_case_insensitive,
            builder.is_whole_word() == self.is_whole_word(),
    {
        Self {
            pattern: self.pattern,
            is_case_insensitive,
            match_whole_word: self.match_whole_word,
        }
    }

    /// Says whether only whole words match.
    pub fn match_whole_word(self, match_whole_word: bool) -> (builder: Self)
        ensures
            builder.pattern() == self.pattern(),
            builder.is_case_insensitive() == self.is_case_insensitive(),
            builder.is_whole_word() == match_whole_word,
    {
        Self {
            pattern: self.pattern,
            is_case_insensitive: self.is_case_insensitive,
            match_whole_word,
        }
    }

    /// Compiles the effective pattern. Fails exactly when it is no regular
    /// expression that the engine accepts. The matcher built finds in a line
    /// what the engine finds there for the effective pattern and the case
    /// sensitivity asked for, less the occurrences without a byte.
    pub fn build(self) -> (built: Result<RegexMatcher, SearchError>)
        ensures
            built is Ok == pattern_compiles(self.effective_pattern(), self.is_case_insensitive()),
            built matches Ok(matcher) ==> forall|bytes: Seq<u8>| #[trigger]
                matcher.match_ranges(bytes) == proper_matches(
                    pattern_ranges(self.effective_pattern(), self.is_case_insensitive(), bytes),
                ),
            built matches Err(error) ==> error is InvalidPattern,
    {
        let with_whole_word: String = if self.match_whole_word {
            format_word_match(self.pattern)
        } else {
            self.pattern.to_owned()
        };
        match compile_pattern(with_whole_word.as_str(), self.is_case_insensitive) {
            Ok(regex) => Ok(RegexMatcher { regex }),
            Err(error) => Err(SearchError::InvalidPattern(pattern_error_message(&error))),
        }
    }
}

} // verus!
