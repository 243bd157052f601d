//! A file's lines in memory, the rewrite of its changed lines, and the
//! decisions taken for each file of a run.

use crate::commands::UserInput;
pub use crate::file_changes::{ChangeContents, FileChanges, ParsedLine, WantedChanges};
use crate::file_changes::{strictly_ascending, LineView};
use crate::text::{contains, contains_term, decimal, decimal_string, join, join_strings, views};
use vstd::prelude::*;

verus! {

/// One file read into memory: its path, its lines in order, and the positions
/// of the lines that hold the term looked for.
pub struct FileData {
    pub file_path: String,
    pub contents: Vec<String>,
    pub term_containing_lines: Vec<usize>,
}

/// The positions, in ascending order, of those of the first `k` lines that
/// hold `term`.
pub open spec fn term_lines_upto(contents: Seq<Seq<char>>, term: Seq<char>, k: int) -> Seq<usize>
    decreases k,
{
    if k <= 0 {
        Seq::empty()
    } else if contains(contents[k - 1], term) {
        term_lines_upto(contents, term, k - 1).push((k - 1) as usize)
    } else {
        term_lines_upto(contents, term, k - 1)
    }
}

/// The positions, in ascending order, of the lines that hold `term`.
pub open spec fn term_lines(contents: Seq<Seq<char>>, term: Seq<char>) -> Seq<usize> {
    term_lines_upto(contents, term, contents.len() as int)
}

/// Some line of `contents` holds `term`.
pub open spec fn has_match(contents: Seq<Seq<char>>, term: Seq<char>) -> bool {
    exists|p: int| 0 <= p < contents.len() && contains(#[trigger] contents[p], term)
}

/// Some line of `lines` that holds the term has the number `p`: the rewrite
/// replaces line `p`.
pub open spec fn rewrites(lines: Seq<LineView>, p: int) -> bool {
    exists|k: int| 0 <= k < lines.len() && #[trigger] lines[k].num == p && lines[k].has_term
}

/// `changes` can be applied to a file of `n` lines: its line numbers rise
/// strictly, and each line that holds the term lies in the file and has its
/// rewritten text.
pub open spec fn fits(changes: Seq<LineView>, n: int) -> bool {
    &&& strictly_ascending(changes)
    &&& forall|k: int|
        0 <= k < changes.len() && #[trigger] changes[k].has_term ==> changes[k].num < n
            && changes[k].contents.new is Some
}

impl FileData {
    /// The file at `file_path` with lines `contents`, if some line holds
    /// `statement_to_find`; `None` if none does.
    pub fn from_lines(file_path: String, contents: Vec<String>, statement_to_find: &str) -> (r:
        Option<FileData>)
        ensures
            r is None <==> !has_match(views(contents@), statement_to_find@),
            r matches Some(d) ==> {
                &&& d.file_path == file_path
                &&& d.contents@ == contents@
                &&& d.term_containing_lines@ == term_lines(views(contents@), statement_to_find@)
            },
    {
        let ghost cv = views(contents@);
        let mut term_containing_lines: Vec<usize> = Vec::new();
        let mut p: usize = 0;
        while p < contents.len()
            invariant
                p <= contents@.len(),
                cv == views(contents@),
                term_containing_lines@ == term_lines_upto(cv, statement_to_find@, p as int),
                term_containing_lines@.len() == 0 <==> forall|q: int|
                    0 <= q < p ==> !contains(#[trigger] cv[q], statement_to_find@),
            decreases contents@.len() - p,
        {
            if contains_term(contents[p].as_str(), statement_to_find) {
                term_containing_lines.push(p);
            }
            proof {
                if term_containing_lines@.len() == 0 {
                    assert forall|q: int| 0 <= q < p + 1 implies !contains(
                        #[trigger] cv[q],
                        statement_to_find@,
                    ) by {
                        if q == p {
                        }
                    }
                } else if !contains(cv[p as int], statement_to_find@) {
                    assert(!contains(cv[p as int], statement_to_find@));
                }
            }
            p = p + 1;
        }
        if term_containing_lines.len() == 0 {
            None
        } else {
            Some(FileData { file_path, contents, term_containing_lines })
        }
    }

    /// Writes into the lines of the file the rewritten text of each line of
    /// `changes` that holds the term; every other line stays as it was.
    pub fn apply_changes(&mut self, changes: &FileChanges)
        requires
            fits(changes@, old(self).contents@.len() as int),
        ensures
            final(self).file_path == old(self).file_path,
            final(self).term_containing_lines == old(self).term_containing_lines,
            final(self).contents@.len() == old(self).contents@.len(),
            forall|k: int|
                0 <= k < changes@.len() && #[trigger] changes@[k].has_term
                    ==> final(self).contents@[changes@[k].num]@
                    == changes@[k].contents.new.unwrap().1,
            forall|p: int|
                0 <= p < old(self).contents@.len() && !rewrites(changes@, p)
                    ==> #[trigger] final(self).contents@[p] == old(self).contents@[p],
    {
        let ghost before = self.contents@;
        let mut k: usize = 0;
        while k < changes.lines.len()
            invariant
                fits(changes@, before.len() as int),
                self.contents@.len() == before.len(),
                self.file_path == old(self).file_path,
                self.term_containing_lines == old(self).term_containing_lines,
                before == old(self).contents@,
                k <= changes@.len(),
                forall|j: int|
                    0 <= j < k && #[trigger] changes@[j].has_term
                        ==> self.contents@[changes@[j].num]@ == changes@[j].contents.new.unwrap().1,
                forall|p: int|
                    0 <= p < before.len() && !(exists|j: int|
                        0 <= j < k && #[trigger] changes@[j].num == p && changes@[j].has_term)
                        ==> #[trigger] self.contents@[p] == before[p],
            decreases changes@.len() - k,
        {
            let line = &changes.lines[k];
            assert(changes@[k as int] == line@);
            if line.has_term {
                assert(changes@[k as int].has_term);
                match &line.contents.new {
                    Some(n) => {
                        let text = n.1.clone();
                        assert(text@ == changes@[k as int].contents.new.unwrap().1);
                        self.contents.set(line.num, text);
                        assert forall|j: int|
                            0 <= j < k + 1 && #[trigger] changes@[j].has_term
                            implies self.contents@[changes@[j].num]@
                                == changes@[j].contents.new.unwrap().1 by {
                            if j < k {
                                assert(changes@[j].num < changes@[k as int].num);
                            }
                        }
                    },
                    None => {},
                }
            }
            assert forall|p: int|
                0 <= p < before.len() && !(exists|j: int|
                    0 <= j < k + 1 && #[trigger] changes@[j].num == p && changes@[j].has_term)
                    implies #[trigger] self.contents@[p] == before[p] by {
                assert(!(changes@[k as int].num == p && changes@[k as int].has_term));
            }
            k = k + 1;
        }
        assert forall|p: int|
            0 <= p < before.len() && !rewrites(changes@, p) implies #[trigger] self.contents@[p]
            == before[p] by {
            assert(!(exists|j: int|
                0 <= j < k && #[trigger] changes@[j].num == p && changes@[j].has_term));
        }
    }

    /// The text of the whole file: its lines joined by newlines, with no
    /// newline after the last one.
    pub fn joined_contents(&self) -> (r: String)
        ensures
            r@ == join(views(self.contents@), seq!['\n']),
    {
        let sep = "\n";
        proof {
            reveal_strlit("\n");
        }
        assert(sep@ =~= seq!['\n']);
        join_strings(&self.contents, sep)
    }
}

/// What a run does with one file.
#[derive(Clone, Copy, Debug, PartialEq, Eq, Structural)]
pub struct FilePlan {
    /// Show the file's path and its change set.
    pub print: bool,
    /// Write the changed lines back to the file.
    pub rewrite: bool,
}

/// What a run does with a file: a file without a match is passed over; one
/// with a match is shown unless the run is silent, and rewritten unless it is
/// a dry run.
pub open spec fn file_plan(user_input: &UserInput, file_has_match: bool) -> FilePlan {
    FilePlan {
        print: file_has_match && !user_input.silent,
        rewrite: file_has_match && !user_input.dry_run,
    }
}

/// The plan for a file, as [`file_plan`] gives it.
pub fn plan_for_file(user_input: &UserInput, file_has_match: bool) -> (r: FilePlan)
    ensures
        r == file_plan(user_input, file_has_match),
{
    FilePlan {
        print: file_has_match && !user_input.silent,
        rewrite: file_has_match && !user_input.dry_run,
    }
}

/// A dry run rewrites no file, whatever the file holds: the files read by a
/// second dry run are those read by the first, and as change sets are built
/// from the lines and terms alone, what it shows is the same.
pub proof fn lemma_dry_run_writes_nothing(user_input: &UserInput, file_has_match: bool)
    requires
        user_input.dry_run,
    ensures
        !file_plan(user_input, file_has_match).rewrite,
{
}

/// How many files a run has reached, and how many it has rewritten.
#[derive(Clone, Copy, Debug, PartialEq, Eq, Structural)]
pub struct RunCounters {
    pub files_seen: u32,
    pub files_changed: u32,
}

/// The text of the counters: `files seen: S, files changed: C...`.
pub open spec fn counters_text(seen: nat, changed: nat) -> Seq<char> {
    seq!['f', 'i', 'l', 'e', 's', ' ', 's', 'e', 'e', 'n', ':', ' '] + decimal(seen) + seq![
        ',',
        ' ',
        'f',
        'i',
        'l',
        'e',
        's',
        ' ',
        'c',
        'h',
        'a',
        'n',
        'g',
        'e',
        'd',
        ':',
        ' ',
    ] + decimal(changed) + seq!['.', '.', '.']
}

impl RunCounters {
    /// No file seen, none changed.
    pub fn new() -> (r: Self)
        ensures
            r.files_seen == 0,
            r.files_changed == 0,
    {
        RunCounters { files_seen: 0, files_changed: 0 }
    }

    /// Counts one more file reached, and one more changed if `plan` rewrites it.
    pub fn record(&mut self, plan: &FilePlan)
        requires
            old(self).files_seen < u32::MAX,
            old(self).files_changed < u32::MAX,
        ensures
            final(self).files_seen == old(self).files_seen + 1,
            final(self).files_changed == old(self).files_changed + if plan.rewrite {
                1int
            } else {
                0int
            },
    {
        self.files_seen = self.files_seen + 1;
        if plan.rewrite {
            self.files_changed = self.files_changed + 1;
        }
    }

    /// `files seen: S, files changed: C...`
    pub fn to_string(&self) -> (r: String)
        ensures
            r@ == counters_text(self.files_seen as nat, self.files_changed as nat),
    {
        proof {
            reveal_strlit("files seen: ");
            reveal_strlit(", files changed: ");
            reveal_strlit("...");
        }
        let mut r = String::from_str("files seen: ");
        let seen = decimal_string(self.files_seen as usize);
        r.append(seen.as_str());
        r.append(", files changed: ");
        let changed = decimal_string(self.files_changed as usize);
        r.append(changed.as_str());
        r.append("...");
        assert(r@ =~= counters_text(self.files_seen as nat, self.files_changed as nat));
        r
    }
}

} // verus!
