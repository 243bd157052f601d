use turbogrep::file_changes::{ChangeContents, FileChanges, ParsedLine, WantedChanges};
use turbogrep::file_io::{plan_for_file, FileData, RunCounters};
use turbogrep::highlight::{replace_terms_and_highlight, Highlight};
use turbogrep::text::{contains_term, decimal_string, join_strings, replace_term, right_align};
use turbogrep::UserInput;

const RED: &str = "\u{1b}[31m";
const GREEN: &str = "\u{1b}[32m";
const RESET: &str = "\u{1b}[0m";

fn lines(items: &[&str]) -> Vec<String> {
    items.iter().map(|s| s.to_string()).collect()
}

fn wanted(old: &str, new: &str) -> WantedChanges {
    WantedChanges {
        old: old.to_string(),
        new: new.to_string(),
    }
}

fn build(items: &[&str], old: &str, new: &str) -> (FileData, FileChanges) {
    let data = FileData::from_lines("f.txt".to_string(), lines(items), old).expect("a match");
    let changes = FileChanges::from_file_data(&data, &wanted(old, new));
    (data, changes)
}

fn numbers(changes: &FileChanges) -> Vec<usize> {
    changes.lines.iter().map(|l| l.num).collect()
}

fn input(dry_run: bool, silent: bool) -> UserInput {
    UserInput {
        pattern_string: "*.txt".to_string(),
        old_term: "foo".to_string(),
        new_term: "bar".to_string(),
        dry_run,
        silent,
    }
}

#[test]
fn overlapping_windows_merge_into_one_run() {
    let (data, changes) = build(&["a", "foo bar", "c", "d", "e", "foo baz", "g"], "foo", "FOO");
    assert_eq!(data.term_containing_lines, vec![1, 5]);
    assert_eq!(numbers(&changes), vec![0, 1, 2, 3, 4, 5, 6]);
    let marked: Vec<usize> = changes.lines.iter().filter(|l| l.has_term).map(|l| l.num).collect();
    assert_eq!(marked, vec![1, 5]);
    assert_eq!(changes.lines[1].contents.new.as_ref().unwrap().1, "FOO bar");
    assert_eq!(changes.lines[5].contents.new.as_ref().unwrap().1, "FOO baz");
    assert_eq!(changes.lines[3].contents.new, None);
    assert_eq!(changes.lines[3].contents.old, "d");
}

#[test]
fn every_occurrence_on_a_line_is_replaced() {
    let (_, changes) = build(&["foo foo"], "foo", "bar");
    assert_eq!(changes.lines.len(), 1);
    assert_eq!(changes.lines[0].contents.new.as_ref().unwrap().1, "bar bar");
}

#[test]
fn window_at_first_line_is_clipped() {
    let (_, changes) = build(&["foo", "b", "c", "d", "e", "f"], "foo", "x");
    assert_eq!(numbers(&changes), vec![0, 1, 2]);
}

#[test]
fn window_at_last_line_is_clipped() {
    let (_, changes) = build(&["a", "b", "c", "d", "foo"], "foo", "x");
    assert_eq!(numbers(&changes), vec![2, 3, 4]);
}

#[test]
fn separate_windows_leave_a_gap() {
    let items = ["foo", "1", "2", "3", "4", "5", "6", "foo", "8"];
    let (_, changes) = build(&items, "foo", "x");
    assert_eq!(numbers(&changes), vec![0, 1, 2, 5, 6, 7, 8]);
}

#[test]
fn line_numbers_rise_strictly() {
    let items = ["x foo", "foo", "b", "foo", "c", "d", "e", "f", "foo", "g"];
    let (_, changes) = build(&items, "foo", "bar");
    let nums = numbers(&changes);
    assert!(nums.windows(2).all(|w| w[0] < w[1]));
    assert_eq!(nums, vec![0, 1, 2, 3, 4, 5, 6, 7, 8, 9]);
}

#[test]
fn context_lines_are_checked_on_their_own() {
    // Line 2 holds the term but is not listed as a match: it is still marked.
    let data = FileData {
        file_path: "f.txt".to_string(),
        contents: lines(&["a", "foo", "foo too"]),
        term_containing_lines: vec![1],
    };
    let changes = FileChanges::from_file_data(&data, &wanted("foo", "bar"));
    assert_eq!(numbers(&changes), vec![0, 1, 2]);
    assert!(changes.lines[2].has_term);
    assert_eq!(changes.lines[2].contents.new.as_ref().unwrap().1, "bar too");
}

#[test]
fn match_beyond_the_file_adds_nothing() {
    let data = FileData {
        file_path: "f.txt".to_string(),
        contents: lines(&["a", "b"]),
        term_containing_lines: vec![9],
    };
    let changes = FileChanges::from_file_data(&data, &wanted("foo", "bar"));
    assert!(changes.lines.is_empty());
}

#[test]
fn building_twice_gives_the_same_change_set() {
    let items = ["foo", "a", "b foo", "c"];
    let (data, first) = build(&items, "foo", "bar");
    let second = FileChanges::from_file_data(&data, &wanted("foo", "bar"));
    assert_eq!(first, second);
    assert_eq!(first.to_string(), second.to_string());
}

#[test]
fn rewritten_line_no_longer_holds_the_term() {
    let (_, changes) = build(&["aab foo", "ab ab"], "ab", "x");
    for line in changes.lines.iter().filter(|l| l.has_term) {
        let literal = &line.contents.new.as_ref().unwrap().1;
        assert!(!literal.contains("ab"));
    }
    assert_eq!(changes.lines[0].contents.new.as_ref().unwrap().1, "ax foo");
    assert_eq!(changes.lines[1].contents.new.as_ref().unwrap().1, "x x");
}

#[test]
fn rendering_marks_old_and_new_terms() {
    let c = ChangeContents::from_line("foo bar", &wanted("foo", "FOO"), true);
    assert_eq!(c.old, format!("{}foo{} bar", RED, RESET));
    let (shown, literal) = c.new.clone().unwrap();
    assert_eq!(shown, format!("{}FOO{} bar", GREEN, RESET));
    assert_eq!(literal, "FOO bar");
    assert_eq!(
        c.to_string(),
        format!("{}foo{} bar -> {}FOO{} bar", RED, RESET, GREEN, RESET)
    );
}

#[test]
fn rendering_without_term_is_the_line() {
    let c = ChangeContents::from_line("plain", &wanted("foo", "bar"), false);
    assert_eq!(c.old, "plain");
    assert_eq!(c.new, None);
    assert_eq!(c.to_string(), "plain");
}

#[test]
fn parsed_line_text_is_right_aligned() {
    let line = ParsedLine {
        num: 7,
        has_term: false,
        contents: ChangeContents::from_line("ctx", &wanted("foo", "bar"), false),
    };
    assert_eq!(line.to_string(), "  7|  ctx");
    let wide = ParsedLine {
        num: 12345,
        has_term: false,
        contents: ChangeContents::from_line("", &wanted("foo", "bar"), false),
    };
    assert_eq!(wide.to_string(), "12345|  ");
}

#[test]
fn change_set_text_joins_lines() {
    let (_, changes) = build(&["a", "foo"], "foo", "bar");
    let expected = format!(
        "  0|  a\n  1|  {}foo{} -> {}bar{}\n",
        RED, RESET, GREEN, RESET
    );
    assert_eq!(changes.to_string(), expected);
}

#[test]
fn apply_rewrites_only_marked_lines() {
    let (mut data, changes) = build(&["a", "foo bar", "c", "d", "e", "foo baz", "g"], "foo", "FOO");
    let before = data.contents.clone();
    data.apply_changes(&changes);
    assert_eq!(
        data.contents,
        lines(&["a", "FOO bar", "c", "d", "e", "FOO baz", "g"])
    );
    for (i, line) in data.contents.iter().enumerate() {
        if i != 1 && i != 5 {
            assert_eq!(line, &before[i]);
        }
    }
    assert_eq!(data.joined_contents(), "a\nFOO bar\nc\nd\ne\nFOO baz\ng");
}

#[test]
fn no_match_means_no_file_data_and_no_rewrite() {
    assert!(FileData::from_lines("f".to_string(), lines(&["a", "b"]), "foo").is_none());
    let plan = plan_for_file(&input(false, false), false);
    assert!(!plan.rewrite);
    assert!(!plan.print);
    let mut counters = RunCounters::new();
    counters.record(&plan);
    assert_eq!(counters.files_seen, 1);
    assert_eq!(counters.files_changed, 0);
}

#[test]
fn dry_run_prints_but_never_rewrites() {
    let plan = plan_for_file(&input(true, false), true);
    assert!(plan.print);
    assert!(!plan.rewrite);
    let silent = plan_for_file(&input(true, true), true);
    assert!(!silent.print);
    assert!(!silent.rewrite);
    let full = plan_for_file(&input(false, true), true);
    assert!(!full.print);
    assert!(full.rewrite);
    let (_, changes) = build(&["foo"], "foo", "bar");
    assert_eq!(changes.to_string(), changes.to_string());
}

#[test]
fn counters_count_and_read() {
    let mut counters = RunCounters::new();
    let rewrite = plan_for_file(&input(false, false), true);
    let skip = plan_for_file(&input(false, false), false);
    counters.record(&rewrite);
    counters.record(&skip);
    counters.record(&skip);
    assert_eq!(counters.to_string(), "files seen: 3, files changed: 1...");
}

#[test]
fn from_user_input_takes_the_terms() {
    let w = WantedChanges::from_user_input(&input(false, false));
    assert_eq!(w.old, "foo");
    assert_eq!(w.new, "bar");
}

#[test]
fn text_operations_match_std() {
    assert_eq!(replace_term("abc", "", "X"), "abc".replace("", "X"));
    assert_eq!(replace_term("", "", "X"), "X");
    assert_eq!(replace_term("aaa", "aa", "b"), "ba");
    assert_eq!(replace_term("héllo wörld", "ö", "o"), "héllo world");
    assert!(contains_term("hello", "ll"));
    assert!(contains_term("hello", ""));
    assert!(!contains_term("he", "hello"));
    assert_eq!(decimal_string(0), "0");
    assert_eq!(decimal_string(1907), "1907");
    assert_eq!(right_align("42", 3), " 42");
    assert_eq!(right_align("4242", 3), "4242");
    assert_eq!(join_strings(&lines(&["a", "b", "c"]), "\n"), "a\nb\nc");
    assert_eq!(join_strings(&lines(&[]), "\n"), "");
}

#[test]
fn highlight_wraps_the_replacement() {
    let r = replace_terms_and_highlight("x-y-x", "x", "z", Highlight::Added);
    assert_eq!(r, format!("{g}z{r}-y-{g}z{r}", g = GREEN, r = RESET));
}
