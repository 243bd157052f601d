//! The change set of a file: the lines around each match, each with how it
//! reads now and, where it holds the term, how it will read.

use crate::commands::UserInput;
use crate::file_io::{fits, FileData};
use crate::highlight::{painted, replace_terms_and_highlight, Highlight};
use crate::text::{
    contains, contains_term, decimal, decimal_string, join, join_strings,
    lemma_replace_all_leaves_no_term, pad_left, replace_all, replace_term, right_align,
    shares_no_char, views,
};
use vstd::prelude::*;

verus! {

/// How many lines are shown on each side of a matched line.
pub const HALF_WINDOW: usize = 2;

/// The term to replace and its replacement.
pub struct WantedChanges {
    pub old: String,
    pub new: String,
}

impl WantedChanges {
    /// The terms that the user gave.
    pub fn from_user_input(user_input: &UserInput) -> (r: Self)
        ensures
            r.old@ == user_input.old_term@,
            r.new@ == user_input.new_term@,
    {
        Self { old: user_input.old_term.clone(), new: user_input.new_term.clone() }
    }
}

/// How one line reads: `old` is the line as it is, with the term marked where
/// it occurs; `new`, where the line holds the term, is the marked line as it
/// will read, and the plain text that will be written.
#[derive(Debug, PartialEq, Eq, Hash)]
pub struct ChangeContents {
    pub old: String,
    pub new: Option<(String, String)>,
}

/// The model of a [`ChangeContents`].
pub struct ContentsView {
    pub old: Seq<char>,
    pub new: Option<(Seq<char>, Seq<char>)>,
}

impl View for ChangeContents {
    type V = ContentsView;

    open spec fn view(&self) -> ContentsView {
        ContentsView {
            old: self.old@,
            new: match self.new {
                Some(n) => Some((n.0@, n.1@)),
                None => None,
            },
        }
    }
}

/// How `line` is shown and rewritten when `old` is replaced by `new`.
pub open spec fn rendering(
    line: Seq<char>,
    old: Seq<char>,
    new: Seq<char>,
    has_term: bool,
) -> ContentsView {
    if has_term {
        ContentsView {
            old: replace_all(line, old, painted(Highlight::Removed, old)),
            new: Some(
                (
                    replace_all(line, old, painted(Highlight::Added, new)),
                    replace_all(line, old, new),
                ),
            ),
        }
    } else {
        ContentsView { old: line, new: None }
    }
}

/// The text of a rendering: the line as it is, then an arrow and the line as
/// it will read, if it changes.
pub open spec fn contents_text(c: ContentsView) -> Seq<char> {
    match c.new {
        Some(n) => c.old + seq![' ', '-', '>', ' '] + n.0,
        None => c.old,
    }
}

impl ChangeContents {
    /// The rendering of `line`: with the term marked and replaced where
    /// `has_term` says the line holds it, the line unchanged otherwise.
    pub fn from_line(line: &str, changes_requested: &WantedChanges, has_term: bool) -> (r: Self)
        ensures
            r@ == rendering(line@, changes_requested.old@, changes_requested.new@, has_term),
    {
        let old = changes_requested.old.as_str();
        let new = changes_requested.new.as_str();
        if has_term {
            Self {
                old: replace_terms_and_highlight(line, old, old, Highlight::Removed),
                new: Some(
                    (
                        replace_terms_and_highlight(line, old, new, Highlight::Added),
                        replace_term(line, old, new),
                    ),
                ),
            }
        } else {
            Self { old: String::from_str(line), new: None }
        }
    }

    /// The line as it is, then ` -> ` and the line as it will read, if it changes.
    pub fn to_string(&self) -> (r: String)
        ensures
            r@ == contents_text(self@),
    {
        let mut r = self.old.clone();
        match &self.new {
            Some(n) => {
                proof {
                    reveal_strlit(" -> ");
                }
                r.append(" -> ");
                r.append(n.0.as_str());
            },
            None => {},
        }
        r
    }
}

/// One line of a change set: its position in the file, whether it holds the
/// term, and how it is shown and rewritten.
#[derive(Debug, PartialEq, Eq, Hash)]
pub struct ParsedLine {
    pub num: usize,
    pub has_term: bool,
    pub contents: ChangeContents,
}

/// The model of a [`ParsedLine`].
pub struct LineView {
    pub num: int,
    pub has_term: bool,
    pub contents: ContentsView,
}

impl View for ParsedLine {
    type V = LineView;

    open spec fn view(&self) -> LineView {
        LineView { num: self.num as int, has_term: self.has_term, contents: self.contents@ }
    }
}

/// The text of a line of a change set: its position right-aligned in three
/// columns, a bar, two spaces, and its rendering.
pub open spec fn line_text(l: LineView) -> Seq<char> {
    pad_left(decimal(l.num as nat), 3) + seq!['|', ' ', ' '] + contents_text(l.contents)
}

impl ParsedLine {
    /// The position, right-aligned in three columns, `|`, two spaces, and the rendering.
    pub fn to_string(&self) -> (r: String)
        ensures
            r@ == line_text(self@),
    {
        let num = decimal_string(self.num);
        let mut r = right_align(num.as_str(), 3);
        proof {
            reveal_strlit("|  ");
        }
        r.append("|  ");
        let contents = self.contents.to_string();
        r.append(contents.as_str());
        r
    }
}

/// Line `p` lies in the window around the matched line `m`.
pub open spec fn in_window(m: int, p: int) -> bool {
    m - HALF_WINDOW <= p <= m + HALF_WINDOW
}

/// Line `p` of a file of `n` lines lies in the window of one of `matches`.
pub open spec fn covered(matches: Seq<usize>, n: int, p: int) -> bool {
    0 <= p < n && exists|i: int| 0 <= i < matches.len() && in_window(matches[i] as int, p)
}

/// The annotated line `p` of `contents` for the replacement of `old` by `new`.
/// Whether it holds the term is found from the line itself.
pub open spec fn annotated(
    contents: Seq<Seq<char>>,
    p: int,
    old: Seq<char>,
    new: Seq<char>,
) -> LineView {
    LineView {
        num: p,
        has_term: contains(contents[p], old),
        contents: rendering(contents[p], old, new, contains(contents[p], old)),
    }
}

/// The annotated lines among the first `k` lines that some window covers, in
/// the order of the file.
pub open spec fn change_set_upto(
    contents: Seq<Seq<char>>,
    matches: Seq<usize>,
    old: Seq<char>,
    new: Seq<char>,
    k: int,
) -> Seq<LineView>
    decreases k,
{
    if k <= 0 {
        Seq::empty()
    } else {
        let before = change_set_upto(contents, matches, old, new, k - 1);
        if covered(matches, contents.len() as int, k - 1) {
            before.push(annotated(contents, k - 1, old, new))
        } else {
            before
        }
    }
}

/// The change set of a file with lines `contents` and matched lines
/// `matches`, for the replacement of `old` by `new`.
pub open spec fn change_set(
    contents: Seq<Seq<char>>,
    matches: Seq<usize>,
    old: Seq<char>,
    new: Seq<char>,
) -> Seq<LineView> {
    change_set_upto(contents, matches, old, new, contents.len() as int)
}

/// The lines of a file that change, with the lines around them, in the order
/// of the file and each once.
#[derive(Debug, PartialEq, Eq, Hash)]
pub struct FileChanges {
    pub lines: Vec<ParsedLine>,
}

impl View for FileChanges {
    type V = Seq<LineView>;

    open spec fn view(&self) -> Seq<LineView> {
        self.lines@.map_values(|l: ParsedLine| l@)
    }
}

/// The line numbers of `lines` rise strictly.
pub open spec fn strictly_ascending(lines: Seq<LineView>) -> bool {
    forall|i: int, j: int| 0 <= i < j < lines.len() ==> lines[i].num < lines[j].num
}

/// The text of a change set: the text of each line, each followed by a newline.
pub open spec fn change_set_text(lines: Seq<LineView>) -> Seq<char> {
    join(lines.map_values(|l: LineView| line_text(l)), seq!['\n']) + seq!['\n']
}

impl FileChanges {
    /// The change set of `file_data` for `changes_requested`: every line that
    /// lies within two lines of a matched line, annotated afresh from its own
    /// text, in the order of the file and each once.
    pub fn from_file_data(file_data: &FileData, changes_requested: &WantedChanges) -> (r: Self)
        ensures
            r@ == change_set(
                views(file_data.contents@),
                file_data.term_containing_lines@,
                changes_requested.old@,
                changes_requested.new@,
            ),
            fits(r@, file_data.contents@.len() as int),
    {
        let contents = &file_data.contents;
        let matches = &file_data.term_containing_lines;
        let n = contents.len();
        let mut marks: Vec<bool> = Vec::new();
        while marks.len() < n
            invariant
                marks@.len() <= n,
                forall|q: int| 0 <= q < marks@.len() ==> !marks@[q],
            decreases n - marks@.len(),
        {
            marks.push(false);
        }
        let mut i: usize = 0;
        while i < matches.len()
            invariant
                n == contents@.len(),
                marks@.len() == n,
                i <= matches@.len(),
                forall|q: int|
                    0 <= q < n ==> (marks@[q] <==> exists|j: int|
                        0 <= j < i && in_window(matches@[j] as int, q)),
            decreases matches@.len() - i,
        {
            let m = matches[i];
            let mut p: usize = if m >= HALF_WINDOW {
                m - HALF_WINDOW
            } else {
                0
            };
            let start = p;
            while p < n && (p <= m || p - m <= HALF_WINDOW)
                invariant
                    n == contents@.len(),
                    marks@.len() == n,
                    i < matches@.len(),
                    m == matches@[i as int],
                    start == (if m >= HALF_WINDOW { m - HALF_WINDOW } else { 0 }),
                    start <= p,
                    forall|q: int| start <= q < p ==> in_window(m as int, q),
                    forall|q: int|
                        0 <= q < n ==> (marks@[q] <==> (exists|j: int|
                            0 <= j < i && in_window(matches@[j] as int, q)) || (start <= q < p)),
                decreases n - p,
            {
                marks.set(p, true);
                p = p + 1;
            }
            assert forall|q: int|
                0 <= q < n implies (marks@[q] <==> exists|j: int|
                    0 <= j < i + 1 && in_window(matches@[j] as int, q)) by {
                if in_window(m as int, q) {
                    assert(start <= q < p);
                }
                if start <= q < p {
                    assert(in_window(matches@[i as int] as int, q));
                }
                if exists|j: int| 0 <= j < i + 1 && in_window(matches@[j] as int, q) {
                    let j = choose|j: int| 0 <= j < i + 1 && in_window(matches@[j] as int, q);
                    if j < i {
                    } else {
                        assert(start <= q < p);
                    }
                }
            }
            i = i + 1;
        }
        let ghost cv = views(contents@);
        let ghost old = changes_requested.old@;
        let ghost new = changes_requested.new@;
        let mut lines: Vec<ParsedLine> = Vec::new();
        let mut p: usize = 0;
        while p < n
            invariant
                n == contents@.len(),
                cv == views(contents@),
                old == changes_requested.old@,
                new == changes_requested.new@,
                marks@.len() == n,
                p <= n,
                forall|q: int| 0 <= q < n ==> (marks@[q] <==> covered(matches@, n as int, q)),
                lines@.map_values(|l: ParsedLine| l@) == change_set_upto(
                    cv,
                    matches@,
                    old,
                    new,
                    p as int,
                ),
            decreases n - p,
        {
            if marks[p] {
                let line = contents[p].as_str();
                let has_term = contains_term(line, changes_requested.old.as_str());
                let contents = ChangeContents::from_line(line, changes_requested, has_term);
                let ghost before = lines@;
                lines.push(ParsedLine { num: p, has_term, contents });
                assert(lines@.map_values(|l: ParsedLine| l@) =~= before.map_values(
                    |l: ParsedLine| l@,
                ).push(annotated(cv, p as int, old, new)));
            }
            p = p + 1;
        }
        proof {
            lemma_change_set_upto(cv, matches@, old, new, n as int);
        }
        Self { lines }
    }

    /// Whether the change set can be applied to a file of `n` lines: see [`fits`].
    pub fn fits_file(&self, n: usize) -> (r: bool)
        ensures
            r == fits(self@, n as int),
    {
        let mut i: usize = 0;
        while i < self.lines.len()
            invariant
                i <= self@.len(),
                forall|a: int, b: int| 0 <= a < b < i ==> self@[a].num < self@[b].num,
                forall|k: int|
                    0 <= k < i && #[trigger] self@[k].has_term ==> self@[k].num < n
                        && self@[k].contents.new is Some,
            decreases self@.len() - i,
        {
            let line = &self.lines[i];
            assert(self@[i as int] == line@);
            if i > 0 && self.lines[i - 1].num >= line.num {
                assert(!strictly_ascending(self@));
                return false;
            }
            if line.has_term && (line.num >= n || line.contents.new.is_none()) {
                assert(self@[i as int].has_term);
                return false;
            }
            assert forall|a: int, b: int| 0 <= a < b < i + 1 implies self@[a].num
                < self@[b].num by {
                if b == i && a < i - 1 {
                    assert(self@[a].num < self@[i - 1].num);
                }
            }
            i = i + 1;
        }
        true
    }
}

impl FileChanges {
    /// The text of each line, each followed by a newline.
    pub fn to_string(&self) -> (r: String)
        ensures
            r@ == change_set_text(self@),
    {
        let mut texts: Vec<String> = Vec::new();
        let mut i: usize = 0;
        while i < self.lines.len()
            invariant
                i <= self.lines@.len(),
                views(texts@) == self@.subrange(0, i as int).map_values(|l: LineView| line_text(l)),
            decreases self.lines@.len() - i,
        {
            let t = self.lines[i].to_string();
            let ghost before = texts@;
            texts.push(t);
            assert(views(texts@) =~= views(before).push(t@));
            assert(self@.subrange(0, i + 1) =~= self@.subrange(0, i as int).push(self@[i as int]));
            i = i + 1;
        }
        assert(self@.subrange(0, self@.len() as int) =~= self@);
        proof {
            reveal_strlit("\n");
        }
        let sep = "\n";
        assert(sep@ =~= seq!['\n']);
        let mut r = join_strings(&texts, sep);
        r.append(sep);
        r
    }
}

/// What is known of the first `k` lines' part of a change set: its line
/// numbers rise strictly and lie below `k`, a line is in it exactly when a
/// window covers it, and each entry is that line annotated.
proof fn lemma_change_set_upto(
    contents: Seq<Seq<char>>,
    matches: Seq<usize>,
    old: Seq<char>,
    new: Seq<char>,
    k: int,
)
    requires
        k <= contents.len(),
    ensures
        strictly_ascending(change_set_upto(contents, matches, old, new, k)),
        forall|i: int|
            0 <= i < change_set_upto(contents, matches, old, new, k).len() ==> {
                let l = #[trigger] change_set_upto(contents, matches, old, new, k)[i];
                &&& 0 <= l.num < k
                &&& covered(matches, contents.len() as int, l.num)
                &&& l == annotated(contents, l.num, old, new)
            },
        forall|p: int|
            0 <= p < k && covered(matches, contents.len() as int, p) ==> exists|i: int|
                0 <= i < change_set_upto(contents, matches, old, new, k).len()
                    && #[trigger] change_set_upto(contents, matches, old, new, k)[i].num == p,
    decreases k,
{
    if k > 0 {
        lemma_change_set_upto(contents, matches, old, new, k - 1);
        let before = change_set_upto(contents, matches, old, new, k - 1);
        let now = change_set_upto(contents, matches, old, new, k);
        if covered(matches, contents.len() as int, k - 1) {
            assert(now == before.push(annotated(contents, k - 1, old, new)));
            assert forall|p: int|
                0 <= p < k && covered(matches, contents.len() as int, p) implies exists|i: int|
                0 <= i < now.len() && #[trigger] now[i].num == p by {
                if p == k - 1 {
                    assert(now[before.len() as int].num == p);
                } else {
                    let i = choose|i: int| 0 <= i < before.len() && #[trigger] before[i].num == p;
                    assert(now[i].num == p);
                }
            }
        } else {
            assert forall|p: int|
                0 <= p < k && covered(matches, contents.len() as int, p) implies exists|i: int|
                0 <= i < now.len() && #[trigger] now[i].num == p by {
                let i = choose|i: int| 0 <= i < before.len() && #[trigger] before[i].num == p;
                assert(now[i].num == p);
            }
        }
    }
}

/// Building a change set twice from the same lines, matches and terms gives
/// the same lines in the same order.
pub proof fn lemma_build_deterministic(
    file_data: &FileData,
    changes_requested: &WantedChanges,
    first: FileChanges,
    second: FileChanges,
)
    requires
        first@ == change_set(
            views(file_data.contents@),
            file_data.term_containing_lines@,
            changes_requested.old@,
            changes_requested.new@,
        ),
        second@ == change_set(
            views(file_data.contents@),
            file_data.term_containing_lines@,
            changes_requested.old@,
            changes_requested.new@,
        ),
    ensures
        first@ == second@,
{
}

/// In every change set each line number is smaller than the next one's.
pub proof fn lemma_change_set_ordered(
    contents: Seq<Seq<char>>,
    matches: Seq<usize>,
    old: Seq<char>,
    new: Seq<char>,
)
    ensures
        forall|i: int|
            0 <= i < change_set(contents, matches, old, new).len() - 1 ==> #[trigger] change_set(
                contents,
                matches,
                old,
                new,
            )[i].num < change_set(contents, matches, old, new)[i + 1].num,
{
    lemma_change_set_upto(contents, matches, old, new, contents.len() as int);
}

/// In every change set no two lines have the same line number.
pub proof fn lemma_change_set_no_duplicates(
    contents: Seq<Seq<char>>,
    matches: Seq<usize>,
    old: Seq<char>,
    new: Seq<char>,
)
    ensures
        forall|i: int, j: int|
            0 <= i < change_set(contents, matches, old, new).len() && 0 <= j < change_set(
                contents,
                matches,
                old,
                new,
            ).len() && i != j ==> #[trigger] change_set(contents, matches, old, new)[i].num
                != #[trigger] change_set(contents, matches, old, new)[j].num,
{
    lemma_change_set_upto(contents, matches, old, new, contents.len() as int);
    let cs = change_set(contents, matches, old, new);
    assert forall|i: int, j: int|
        0 <= i < cs.len() && 0 <= j < cs.len() && i != j implies #[trigger] cs[i].num
        != #[trigger] cs[j].num by {
        if i < j {
            assert(cs[i].num < cs[j].num);
        } else {
            assert(cs[j].num < cs[i].num);
        }
    }
}

/// Some line of `lines` has the number `p`.
pub open spec fn has_line(lines: Seq<LineView>, p: int) -> bool {
    exists|i: int| 0 <= i < lines.len() && #[trigger] lines[i].num == p
}

/// A change set holds line `p` exactly when `p` is a line of the file within
/// two lines of some matched line, and then holds it annotated from its own
/// text.
pub proof fn lemma_change_set_windows(
    contents: Seq<Seq<char>>,
    matches: Seq<usize>,
    old: Seq<char>,
    new: Seq<char>,
)
    ensures
        forall|p: int|
            #[trigger] has_line(change_set(contents, matches, old, new), p) <==> (0 <= p
                < contents.len() && exists|m: int|
                0 <= m < matches.len() && #[trigger] matches[m] - 2 <= p <= matches[m] + 2),
        forall|i: int|
            0 <= i < change_set(contents, matches, old, new).len() ==> #[trigger] change_set(
                contents,
                matches,
                old,
                new,
            )[i] == annotated(contents, change_set(contents, matches, old, new)[i].num, old, new),
{
    lemma_change_set_upto(contents, matches, old, new, contents.len() as int);
    let cs = change_set(contents, matches, old, new);
    assert forall|p: int| #[trigger] has_line(cs, p) implies (0 <= p < contents.len()
        && exists|m: int| 0 <= m < matches.len() && #[trigger] matches[m] - 2 <= p <= matches[m] + 2) by {
        let i = choose|i: int| 0 <= i < cs.len() && #[trigger] cs[i].num == p;
        assert(covered(matches, contents.len() as int, cs[i].num));
    }
    assert forall|p: int|
        (0 <= p < contents.len() && exists|m: int|
            0 <= m < matches.len() && #[trigger] matches[m] - 2 <= p <= matches[m] + 2)
        implies #[trigger] has_line(cs, p) by {
        let m = choose|m: int|
            0 <= m < matches.len() && #[trigger] matches[m] - 2 <= p <= matches[m] + 2;
        assert(in_window(matches[m] as int, p));
        assert(covered(matches, contents.len() as int, p));
    }
}

/// Every line of a change set that holds the term is rewritten as the line
/// with each occurrence of `old` replaced by `new`; when both terms are
/// non-empty and share no character, the rewritten line no longer holds `old`.
pub proof fn lemma_replacement_fidelity(
    contents: Seq<Seq<char>>,
    matches: Seq<usize>,
    old: Seq<char>,
    new: Seq<char>,
    i: int,
)
    requires
        0 <= i < change_set(contents, matches, old, new).len(),
        change_set(contents, matches, old, new)[i].has_term,
    ensures
        ({
            let l = change_set(contents, matches, old, new)[i];
            &&& l.contents.new is Some
            &&& l.contents.new.unwrap().1 == replace_all(contents[l.num], old, new)
            &&& (old.len() > 0 && new.len() > 0 && shares_no_char(old, new)) ==> !contains(
                l.contents.new.unwrap().1,
                old,
            )
        }),
{
    lemma_change_set_upto(contents, matches, old, new, contents.len() as int);
    let l = change_set(contents, matches, old, new)[i];
    if old.len() > 0 && new.len() > 0 && shares_no_char(old, new) {
        lemma_replace_all_leaves_no_term(contents[l.num], old, new);
    }
}

} // verus!
