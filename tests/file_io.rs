use ansi_term::Color;
use std::collections::HashSet;
use turbogrep::file_io::{FileChanges, FileData, ParsedLine, WantedChanges};

// The lines of this crate's manifest, as the file reader hands them over.
const CARGO_TOML: &str = r#"[package]
name = "turbogrep"
version = "0.1.0"
edition = "2021"
publish = false

[dependencies]
ansi_term = "0.12"
clap = "2.33"
glob = "0.3"
"#;

fn read_file_data(path: &str, term: &str) -> Option<FileData> {
    let contents = CARGO_TOML.lines().map(|l| l.to_string()).collect();
    FileData::from_lines(path.to_string(), contents, term)
}

fn mock_wanted_changes(old: &str, new: &str) -> WantedChanges {
    WantedChanges {
        old: old.to_string(),
        new: new.to_string(),
    }
}

fn valid_file_data(term: &str) -> FileData {
    read_file_data("Cargo.toml", term).expect("should not be none with valid path and term")
}

#[test]
fn data_from_file_should_be_some() {
    let statement_to_find = " ";
    let some_lines = read_file_data("Cargo.toml", statement_to_find);

    assert!(some_lines.is_some());

    let lines = some_lines.unwrap();
    assert!(!lines.contents.is_empty());
    assert!(!lines.term_containing_lines.is_empty());
}

#[test]
fn data_from_file_with_non_match_should_be_none() {
    let nonexistent_statement = "nonexistent_substring".repeat(10);
    let lines = read_file_data("Cargo.toml", &nonexistent_statement);

    assert!(lines.is_none());
}

#[test]
fn should_be_able_to_create_from_file_data() {
    let changes_requested = mock_wanted_changes(" ", " ");
    let file_data = valid_file_data(&changes_requested.old);
    let changes = FileChanges::from_file_data(&file_data, &changes_requested);

    assert!(!changes.lines.is_empty());
}

#[test]
fn number_of_lines_with_term_should_match() {
    // "[package]" is only present on one line in Cargo.toml by definition
    let changes_requested = mock_wanted_changes("[package]", " ");
    let file_data = valid_file_data(&changes_requested.old);
    let changes = FileChanges::from_file_data(&file_data, &changes_requested);

    assert!(!changes.lines.is_empty());
    assert_eq!(
        changes
            .lines
            .into_iter()
            .filter(|line| line.has_term)
            .collect::<Vec<ParsedLine>>()
            .len(),
        1,
        "should be exactly one matching element in list"
    );
}

#[test]
fn changes_should_represent_old_and_new_terms() {
    let old = "=";
    let new = "+";
    let changes_requested = mock_wanted_changes(&old, &new);
    let file_data = valid_file_data(&changes_requested.old);
    let changes = FileChanges::from_file_data(&file_data, &changes_requested);

    assert!(!changes.lines.is_empty());
    assert!(
        changes.lines.iter().all(|line| {
            if let Some(new_term) = &line.contents.new.as_ref() {
                let old_is_ok = line.contents.old.contains(&old);
                let new_is_ok = new_term.1
                    == line
                        .contents
                        .old
                        .replace(&Color::Red.paint(old).to_string(), &new);
                println!(
                    ";;;: {}, {}",
                    new_term.1,
                    line.contents.old.replace(&old, &new)
                );
                old_is_ok && new_is_ok
            } else {
                true
            }
        }),
        "old and new terms from changes should match wanted changes"
    );
}

#[test]
fn should_not_have_any_duplicate_lines() {
    let changes_requested = mock_wanted_changes(" ", " ");
    let file_data = valid_file_data(&changes_requested.old);
    let changes = FileChanges::from_file_data(&file_data, &changes_requested);

    assert!(!changes.lines.is_empty());
    let mut line_set = HashSet::new();
    let all_lines_inserted_non_dupe = changes
        .lines
        .into_iter()
        // HashSet.insert() returns false if no insert happened,
        // meaning that there was a duplicate entry.
        .all(|line| line_set.insert(line));
    assert!(all_lines_inserted_non_dupe);
}
