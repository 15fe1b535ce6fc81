use toygrep::arg_parse::{capture_input, needs_current_dir};
use toygrep::error::SearchError;
use toygrep::target::{SearchTarget, Target};

fn args(list: &[&str]) -> Vec<String> {
    list.iter().map(|a| a.to_string()).collect()
}

fn path(p: &str) -> Target {
    Target::for_path(p.to_string())
}

#[test]
fn pattern_and_targets() {
    let input = capture_input(&args(&["grep", "needle", "a.txt", "dir"]), false, "cwd".into())
        .unwrap();
    assert_eq!("needle", input.search_pattern);
    assert_eq!(vec![path("a.txt"), path("dir")], input.targets);
    assert!(!input.case_insensitive);
    assert!(!input.whole_word);
    assert!(!input.stats);
    assert!(!input.synchronous_printer);
}

#[test]
fn options_come_first() {
    let input = capture_input(
        &args(&["grep", "-i", "--whole-word", "-t", "-p", "needle", "f"]),
        false,
        "cwd".into(),
    )
    .unwrap();
    assert!(input.case_insensitive);
    assert!(input.whole_word);
    assert!(input.stats);
    assert!(input.synchronous_printer);
    assert_eq!("needle", input.search_pattern);
    assert_eq!(vec![path("f")], input.targets);

    let long = capture_input(
        &args(&["grep", "--case-insensitive", "-w", "--stats", "--sync-print", "x"]),
        false,
        "cwd".into(),
    )
    .unwrap();
    assert!(long.case_insensitive && long.whole_word && long.stats && long.synchronous_printer);
}

#[test]
fn each_option_sets_its_own_flag() {
    let only = |flag: &str| capture_input(&args(&["grep", flag, "x"]), false, "cwd".into()).unwrap();
    let i = only("-i");
    assert!(i.case_insensitive && !i.whole_word && !i.stats && !i.synchronous_printer);
    let w = only("-w");
    assert!(!w.case_insensitive && w.whole_word && !w.stats && !w.synchronous_printer);
    let t = only("-t");
    assert!(!t.case_insensitive && !t.whole_word && t.stats && !t.synchronous_printer);
    let p = only("-p");
    assert!(!p.case_insensitive && !p.whole_word && !p.stats && p.synchronous_printer);
}

#[test]
fn without_targets_the_current_directory_is_searched() {
    let input = capture_input(&args(&["grep", "needle"]), false, "/here".into()).unwrap();
    assert_eq!(vec![path("/here")], input.targets);
}

#[test]
fn piped_input_is_the_one_target() {
    let input = capture_input(&args(&["grep", "needle", "a.txt"]), true, "cwd".into()).unwrap();
    assert_eq!(vec![Target::Stdin], input.targets);
    assert!(input.targets[0].is_stdin());
    assert!(!path("a").is_stdin());
}

#[test]
fn without_a_pattern_the_pattern_is_empty() {
    let input = capture_input(&args(&["grep"]), false, "cwd".into()).unwrap();
    assert_eq!("", input.search_pattern);
    assert_eq!(vec![path("cwd")], input.targets);

    let flags_only = capture_input(&args(&["grep", "-i"]), false, "cwd".into()).unwrap();
    assert_eq!("", flags_only.search_pattern);
    assert!(flags_only.case_insensitive);

    let nothing = capture_input(&Vec::new(), false, "cwd".into()).unwrap();
    assert_eq!("", nothing.search_pattern);
    assert_eq!(vec![path("cwd")], nothing.targets);
}

#[test]
fn an_unknown_option_is_refused() {
    assert_eq!(
        Err(SearchError::UnknownFlag("-x".to_string())),
        capture_input(&args(&["grep", "-i", "-x", "--nope", "p"]), false, "cwd".into())
            .map(|_| ())
    );
}

#[test]
fn a_dash_after_the_pattern_is_a_target() {
    let input = capture_input(&args(&["grep", "needle", "-i", "f"]), false, "cwd".into())
        .unwrap();
    assert!(!input.case_insensitive);
    assert_eq!(vec![path("-i"), path("f")], input.targets);
}

#[test]
fn the_name_of_the_program_is_no_option() {
    let input = capture_input(&args(&["-i", "needle"]), false, "cwd".into()).unwrap();
    assert!(!input.case_insensitive);
    assert_eq!("needle", input.search_pattern);
}

#[test]
fn the_default_search_target_is_the_current_directory() {
    assert_eq!(SearchTarget::CurrentDir, SearchTarget::default());
}

#[test]
fn the_current_directory_is_needed_only_without_targets() {
    assert!(needs_current_dir(&args(&["grep", "needle"]), false));
    assert!(needs_current_dir(&args(&["grep", "-i", "-w", "needle"]), false));
    assert!(needs_current_dir(&args(&["grep"]), false));
    assert!(needs_current_dir(&args(&["grep", "-t"]), false));
    assert!(needs_current_dir(&Vec::new(), false));

    assert!(!needs_current_dir(&args(&["grep", "needle"]), true));
    assert!(!needs_current_dir(&args(&["grep", "needle", "f"]), false));
    assert!(!needs_current_dir(&args(&["grep", "-i", "needle", "f", "g"]), false));
    assert!(!needs_current_dir(&args(&["grep", "-x", "needle"]), false));
}
