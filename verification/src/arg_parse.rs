//! Reading the arguments of the command line: options first, then the
//! pattern, then the targets.

use crate::error::SearchError;
use crate::target::Target;
use vstd::prelude::*;
use vstd::string::{StrSliceExecFns, StringExecFns};

verus! {

/// What the user asked for.
#[derive(Debug)]
pub struct UserInput {
    /// The pattern to search for; empty where none was given.
    pub search_pattern: String,
    /// Whether only whole words match.
    pub whole_word: bool,
    /// Whether the case of letters is ignored.
    pub case_insensitive: bool,
    /// Whether results are printed by the searching tasks themselves.
    pub synchronous_printer: bool,
    /// What to search.
    pub targets: Vec<Target>,
    /// Whether statistics are printed at the end.
    pub stats: bool,
}

/// Whether `text` begins with the character `first`.
fn starts_with_char(text: &str, first: char) -> (starts: bool)
    ensures
        starts == (text@.len() > 0 && text@[0] == first),
{
    text.unicode_len() > 0 && text.get_char(0) == first
}

/// Whether an argument looks like an option: it begins with a dash.
pub open spec fn is_option(arg: Seq<char>) -> bool {
    arg.len() > 0 && arg[0] == '-'
}

/// Whether an argument asks to ignore the case of letters.
pub open spec fn is_case_flag(arg: Seq<char>) -> bool {
    arg == "-i"@ || arg == "--case-insensitive"@
}

/// Whether an argument asks to match whole words only.
pub open spec fn is_word_flag(arg: Seq<char>) -> bool {
    arg == "-w"@ || arg == "--whole-word"@
}

/// Whether an argument asks for statistics.
pub open spec fn is_stats_flag(arg: Seq<char>) -> bool {
    arg == "-t"@ || arg == "--stats"@
}

/// Whether an argument asks for printing in step with the search.
pub open spec fn is_sync_flag(arg: Seq<char>) -> bool {
    arg == "-p"@ || arg == "--sync-print"@
}

/// Whether an argument is a known option.
pub open spec fn is_known_flag(arg: Seq<char>) -> bool {
    is_case_flag(arg) || is_word_flag(arg) || is_stats_flag(arg) || is_sync_flag(arg)
}

/// Where the options end: the index of the first argument after the name of
/// the program that does not look like an option, or the count of arguments
/// where every one does.
pub open spec fn options_end(args: Seq<String>) -> int
    decreases args.len(),
{
    if args.len() <= 1 {
        args.len() as int
    } else if is_option(args.last()@) && options_end(args.drop_last()) == args.len() - 1 {
        args.len() as int
    } else {
        options_end(args.drop_last())
    }
}

/// The options end after the name of the program, every argument before
/// their end looks like an option, and the one at their end does not.
pub proof fn lemma_options_end(args: Seq<String>)
    ensures
        args.len() <= 1 ==> options_end(args) == args.len(),
        args.len() >= 1 ==> 1 <= options_end(args) <= args.len(),
        forall|i: int| 1 <= i < options_end(args) ==> is_option(#[trigger] args[i]@),
        options_end(args) < args.len() ==> !is_option(args[options_end(args)]@),
    decreases args.len(),
{
    if args.len() > 1 {
        let shorter = args.drop_last();
        lemma_options_end(shorter);
        assert forall|i: int| 1 <= i < options_end(args) implies is_option(
            #[trigger] args[i]@,
        ) by {
            if i < shorter.len() {
                assert(args[i] == shorter[i]);
            }
        }
        if options_end(shorter) < shorter.len() {
            assert(args[options_end(shorter)] == shorter[options_end(shorter)]);
        }
    }
}

/// No argument is two options at once.
pub proof fn lemma_flags_exclude_each_other(arg: Seq<char>)
    ensures
        !(is_case_flag(arg) && is_word_flag(arg)),
        !(is_case_flag(arg) && is_stats_flag(arg)),
        !(is_case_flag(arg) && is_sync_flag(arg)),
        !(is_word_flag(arg) && is_stats_flag(arg)),
        !(is_word_flag(arg) && is_sync_flag(arg)),
        !(is_stats_flag(arg) && is_sync_flag(arg)),
{
    reveal_strlit("-i");
    reveal_strlit("--case-insensitive");
    reveal_strlit("-w");
    reveal_strlit("--whole-word");
    reveal_strlit("-t");
    reveal_strlit("--stats");
    reveal_strlit("-p");
    reveal_strlit("--sync-print");
    assert("-i"@.len() == 2 && "-i"@[1] == 'i');
    assert("-w"@.len() == 2 && "-w"@[1] == 'w');
    assert("-t"@.len() == 2 && "-t"@[1] == 't');
    assert("-p"@.len() == 2 && "-p"@[1] == 'p');
    assert("--case-insensitive"@.len() == 18 && "--case-insensitive"@[2] == 'c');
    assert("--whole-word"@.len() == 12 && "--whole-word"@[2] == 'w');
    assert("--stats"@.len() == 7 && "--stats"@[3] == 't');
    assert("--sync-print"@.len() == 12 && "--sync-print"@[2] == 's');
}

/// The targets named by the arguments from `from` on.
pub open spec fn path_targets(args: Seq<String>, from: int) -> Seq<Target> {
    Seq::new((args.len() - from) as nat, |k: int| Target::Path(args[from + k]))
}

/// Whether the current directory is the target of the run: where the
/// options are all known, no input is piped in and no argument follows the
/// pattern.
pub open spec fn targets_current_dir(args: Seq<String>, stdin_provided: bool) -> bool {
    &&& !stdin_provided
    &&& forall|i: int| 1 <= i < options_end(args) ==> is_known_flag(#[trigger] args[i]@)
    &&& options_end(args) + 1 >= args.len()
}

/// Says whether the current directory is the target of the run, so that it
/// need only be found out where it is.
pub fn needs_current_dir(args: &Vec<String>, stdin_provided: bool) -> (needed: bool)
    ensures
        needed == targets_current_dir(args@, stdin_provided),
{
    if stdin_provided {
        return false;
    }
    let mut i: usize = if args.len() == 0 {
        0
    } else {
        1
    };
    proof {
        lemma_options_end(args@);
    }
    while i < args.len() && starts_with_char(args[i].as_str(), '-')
        invariant
            i <= args@.len(),
            args@.len() >= 1 ==> 1 <= i <= options_end(args@),
            args@.len() == 0 ==> i == 0,
            forall|j: int| 1 <= j < i ==> is_known_flag(#[trigger] args@[j]@),
        decreases args@.len() - i,
    {
        let arg = &args[i];
        proof {
            lemma_options_end(args@);
            if i as int == options_end(args@) {
                assert(!is_option(args@[i as int]@));
            }
        }
        let known = is_either(arg, "-i", "--case-insensitive") || is_either(arg, "-w", "--whole-word")
            || is_either(arg, "-t", "--stats") || is_either(arg, "-p", "--sync-print");
        if !known {
            return false;
        }
        i += 1;
    }
    proof {
        lemma_options_end(args@);
        if i < args@.len() {
            assert(!is_option(args@[i as int]@));
            if (i as int) < options_end(args@) {
                assert(is_option(args@[i as int]@));
            }
        }
    }
    args.len() - i <= 1
}

/// Whether `arg` is `short` or `long`.
fn is_either(arg: &String, short: &str, long: &str) -> (either: bool)
    ensures
        either == (arg@ == short@ || arg@ == long@),
{
    *arg == String::from_str(short) || *arg == String::from_str(long)
}

/// Reads the arguments of the command line: the name of the program, then
/// options, then the pattern, then the targets.
///
/// Every argument that begins with a dash, up to the first that does not,
/// is an option; one that is not known fails the reading. The argument
/// after the options is the pattern. Where input is piped in, standard
/// input is the one target; else the arguments after the pattern are, or,
/// where there are none, the current directory.
pub fn capture_input(args: &Vec<String>, stdin_provided: bool, current_dir: String) -> (input:
    Result<UserInput, SearchError>)
    ensures
        ({
            let end = options_end(args@);
            let unknown = exists|i: int| 1 <= i < end && !is_known_flag(#[trigger] args@[i]@);
            &&& input is Err == unknown
            &&& input matches Err(error) ==> exists|i: int|
                1 <= i < end && !is_known_flag(#[trigger] args@[i]@) && error
                    == SearchError::UnknownFlag(args@[i]) && forall|j: int|
                    1 <= j < i ==> is_known_flag(#[trigger] args@[j]@)
            &&& input matches Ok(given) ==> {
                &&& given.case_insensitive == exists|i: int|
                    1 <= i < end && is_case_flag(#[trigger] args@[i]@)
                &&& given.whole_word == exists|i: int|
                    1 <= i < end && is_word_flag(#[trigger] args@[i]@)
                &&& given.stats == exists|i: int|
                    1 <= i < end && is_stats_flag(#[trigger] args@[i]@)
                &&& given.synchronous_printer == exists|i: int|
                    1 <= i < end && is_sync_flag(#[trigger] args@[i]@)
                &&& given.search_pattern@ == (if end < args@.len() {
                    args@[end]@
                } else {
                    Seq::<char>::empty()
                })
                &&& given.targets@ == (if stdin_provided {
                    seq![Target::Stdin]
                } else if end + 1 < args@.len() {
                    path_targets(args@, end + 1)
                } else {
                    seq![Target::Path(current_dir)]
                })
            }
        }),
{
    let mut case_insensitive = false;
    let mut whole_word = false;
    let mut stats = false;
    let mut synchronous_printer = false;
    let mut i: usize = if args.len() == 0 {
        0
    } else {
        1
    };
    proof {
        lemma_options_end(args@);
    }
    while i < args.len() && starts_with_char(args[i].as_str(), '-')
        invariant
            i <= args@.len(),
            args@.len() >= 1 ==> 1 <= i <= options_end(args@),
            args@.len() == 0 ==> i == 0,
            forall|j: int| 1 <= j < i ==> is_known_flag(#[trigger] args@[j]@),
            case_insensitive == exists|j: int| 1 <= j < i && is_case_flag(#[trigger] args@[j]@),
            whole_word == exists|j: int| 1 <= j < i && is_word_flag(#[trigger] args@[j]@),
            stats == exists|j: int| 1 <= j < i && is_stats_flag(#[trigger] args@[j]@),
            synchronous_printer == exists|j: int|
                1 <= j < i && is_sync_flag(#[trigger] args@[j]@),
        decreases args@.len() - i,
    {
        let arg = &args[i];
        proof {
            lemma_options_end(args@);
            if i as int == options_end(args@) {
                assert(!is_option(args@[i as int]@));
            }
            lemma_flags_exclude_each_other(args@[i as int]@);
        }
        let ghost at = i as int;
        if is_either(arg, "-i", "--case-insensitive") {
            case_insensitive = true;
        } else if is_either(arg, "-w", "--whole-word") {
            whole_word = true;
        } else if is_either(arg, "-t", "--stats") {
            stats = true;
        } else if is_either(arg, "-p", "--sync-print") {
            synchronous_printer = true;
        } else {
            return Err(SearchError::UnknownFlag(arg.clone()));
        }
        i += 1;
        proof {
            assert((exists|j: int| 1 <= j < i && is_case_flag(#[trigger] args@[j]@)) == ((exists|
                j: int,
            | 1 <= j < at && is_case_flag(#[trigger] args@[j]@)) || is_case_flag(args@[at]@)));
            assert((exists|j: int| 1 <= j < i && is_word_flag(#[trigger] args@[j]@)) == ((exists|
                j: int,
            | 1 <= j < at && is_word_flag(#[trigger] args@[j]@)) || is_word_flag(args@[at]@)));
            assert((exists|j: int| 1 <= j < i && is_stats_flag(#[trigger] args@[j]@)) == ((exists|
                j: int,
            | 1 <= j < at && is_stats_flag(#[trigger] args@[j]@)) || is_stats_flag(args@[at]@)));
            assert((exists|j: int| 1 <= j < i && is_sync_flag(#[trigger] args@[j]@)) == ((exists|
                j: int,
            | 1 <= j < at && is_sync_flag(#[trigger] args@[j]@)) || is_sync_flag(args@[at]@)));
        }
    }
    proof {
        lemma_options_end(args@);
        if i < args@.len() {
            assert(!is_option(args@[i as int]@));
            if (i as int) < options_end(args@) {
                assert(is_option(args@[i as int]@));
            }
        }
        assert(i as int == options_end(args@));
    }
    let search_pattern = if i < args.len() {
        args[i].clone()
    } else {
        String::new()
    };
    let mut targets: Vec<Target> = Vec::new();
    if stdin_provided {
        targets.push(Target::Stdin);
        assert(targets@ =~= seq![Target::Stdin]);
    } else {
        if args.len() - i > 1 {
            let first: usize = i + 1;
            let mut k: usize = first;
            while k < args.len()
                invariant
                    first <= k <= args@.len(),
                    targets@ == path_targets(args@.subrange(0, k as int), first as int),
                decreases args@.len() - k,
            {
                targets.push(Target::for_path(args[k].clone()));
                assert(targets@ =~= path_targets(args@.subrange(0, k + 1), first as int));
                k += 1;
            }
            assert(args@.subrange(0, k as int) =~= args@);
        } else {
            targets.push(Target::for_path(current_dir));
            assert(targets@ =~= seq![Target::Path(current_dir)]);
        }
    }
    Ok(
        UserInput {
            search_pattern,
            whole_word,
            case_insensitive,
            synchronous_printer,
            targets,
            stats,
        },
    )
}

} // verus!
