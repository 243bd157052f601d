//! Literal text operations on lines: search, replace-all, decimal numbers,
//! padding and joining.

use vstd::prelude::*;
use vstd::std_specs::iter::IteratorSpec;

verus! {

/// `t` occurs in `s` starting at position `i`.
pub open spec fn occurs_at(s: Seq<char>, t: Seq<char>, i: int) -> bool {
    0 <= i && i + t.len() <= s.len() && s.subrange(i, i + t.len()) == t
}

/// `t` is a literal substring of `s`.
pub open spec fn contains(s: Seq<char>, t: Seq<char>) -> bool {
    exists|i: int| occurs_at(s, t, i)
}

/// The characters of a string slice, in order.
pub fn chars_of(s: &str) -> (v: Vec<char>)
    ensures
        v@ == s@,
{
    let mut it = s.chars();
    let mut v: Vec<char> = Vec::new();
    loop
        invariant
            v@ + it.remaining() == s@,
            it.decrease() is Some,
        decreases it.decrease()->0,
    {
        match it.next() {
            Some(c) => {
                v.push(c);
            },
            None => {
                return v;
            },
        }
    }
}

/// Whether `t` occurs in `s` starting at position `i`.
fn occurs_at_exec(s: &Vec<char>, t: &Vec<char>, i: usize) -> (r: bool)
    ensures
        r == occurs_at(s@, t@, i as int),
{
    if i > s.len() || s.len() - i < t.len() {
        return false;
    }
    let mut j: usize = 0;
    while j < t.len()
        invariant
            i + t@.len() <= s@.len(),
            s@.len() <= usize::MAX,
            j <= t@.len(),
            forall|k: int| 0 <= k < j ==> s@[i + k] == t@[k],
        decreases t@.len() - j,
    {
        if s[i + j] != t[j] {
            assert(s@.subrange(i as int, i + t@.len())[j as int] != t@[j as int]);
            return false;
        }
        j = j + 1;
    }
    assert(s@.subrange(i as int, i + t@.len()) =~= t@);
    true
}

/// Whether the line `line` holds `term` as a literal substring.
pub fn contains_term(line: &str, term: &str) -> (r: bool)
    ensures
        r == contains(line@, term@),
{
    let s = chars_of(line);
    let t = chars_of(term);
    if s.len() < t.len() {
        assert forall|i: int| !occurs_at(line@, term@, i) by {}
        return false;
    }
    let last = s.len() - t.len();
    let mut i: usize = 0;
    loop
        invariant
            s@ == line@,
            t@ == term@,
            last == s@.len() - t@.len(),
            i <= last,
            forall|k: int| 0 <= k < i ==> !occurs_at(line@, term@, k),
        decreases last - i,
    {
        if occurs_at_exec(&s, &t, i) {
            return true;
        }
        if i == last {
            assert forall|k: int| !occurs_at(line@, term@, k) by {
                if 0 <= k <= i {
                }
            }
            return false;
        }
        i = i + 1;
    }
}

/// `s` with every occurrence of `old` replaced by `new`. Occurrences are
/// taken from left to right and do not overlap. An empty `old` occurs before
/// every character and once more at the end.
pub open spec fn replace_all(s: Seq<char>, old: Seq<char>, new: Seq<char>) -> Seq<char>
    decreases s.len(),
{
    if old.len() == 0 {
        if s.len() == 0 {
            new
        } else {
            new + seq![s[0]] + replace_all(s.drop_first(), old, new)
        }
    } else if s.len() < old.len() {
        s
    } else if s.subrange(0, old.len() as int) == old {
        new + replace_all(s.subrange(old.len() as int, s.len() as int), old, new)
    } else {
        seq![s[0]] + replace_all(s.drop_first(), old, new)
    }
}

/// `line` with every literal occurrence of `term` replaced by `by`.
pub fn replace_term(line: &str, term: &str, by: &str) -> (r: String)
    ensures
        r@ == replace_all(line@, term@, by@),
{
    let s = chars_of(line);
    let t = chars_of(term);
    let n = s.len();
    let mut out = String::new();
    let mut i: usize = 0;
    assert(line@.subrange(0, n as int) =~= line@);
    assert(out@ + line@ =~= line@);
    if t.len() == 0 {
        assert(out@ + replace_all(line@, term@, by@) =~= replace_all(line@, term@, by@));
        while i < n
            invariant
                s@ == line@,
                n == s@.len(),
                i <= n,
                term@.len() == 0,
                out@ + replace_all(line@.subrange(i as int, n as int), term@, by@) == replace_all(
                    line@,
                    term@,
                    by@,
                ),
            decreases n - i,
        {
            let ghost rest = line@.subrange(i as int, n as int);
            let ghost before = out@;
            assert(rest.drop_first() =~= line@.subrange(i + 1, n as int));
            out.append(by);
            out.append(line.substring_char(i, i + 1));
            assert(line@.subrange(i as int, i + 1) =~= seq![rest[0]]);
            assert(out@ + replace_all(line@.subrange(i + 1, n as int), term@, by@) =~= before
                + replace_all(rest, term@, by@));
            i = i + 1;
        }
        out.append(by);
        return out;
    }
    let mut seg: usize = 0;
    assert(out@ + line@.subrange(0, 0) + replace_all(line@, term@, by@) =~= replace_all(
        line@,
        term@,
        by@,
    ));
    loop
        invariant
            s@ == line@,
            t@ == term@,
            n == s@.len(),
            t@.len() > 0,
            seg <= i <= n,
            out@ + line@.subrange(seg as int, i as int) + replace_all(
                line@.subrange(i as int, n as int),
                term@,
                by@,
            ) == replace_all(line@, term@, by@),
        decreases n - i,
    {
        let ghost rest = line@.subrange(i as int, n as int);
        if n - i < t.len() {
            out.append(line.substring_char(seg, n));
            assert(line@.subrange(seg as int, i as int) + rest =~= line@.subrange(
                seg as int,
                n as int,
            ));
            return out;
        }
        if occurs_at_exec(&s, &t, i) {
            out.append(line.substring_char(seg, i));
            out.append(by);
            assert(rest.subrange(0, term@.len() as int) =~= term@);
            assert(rest.subrange(term@.len() as int, rest.len() as int) =~= line@.subrange(
                i + t@.len(),
                n as int,
            ));
            i = i + t.len();
            seg = i;
            assert(line@.subrange(seg as int, i as int) =~= Seq::<char>::empty());
        } else {
            assert(rest.subrange(0, term@.len() as int) != term@) by {
                assert(rest.subrange(0, term@.len() as int) =~= line@.subrange(
                    i as int,
                    i + term@.len(),
                ));
            }
            assert(rest.drop_first() =~= line@.subrange(i + 1, n as int));
            assert(line@.subrange(seg as int, i + 1) =~= line@.subrange(seg as int, i as int)
                + seq![rest[0]]);
            i = i + 1;
        }
    }
}

/// No character of `a` is a character of `b`.
pub open spec fn shares_no_char(a: Seq<char>, b: Seq<char>) -> bool {
    forall|i: int, j: int| 0 <= i < a.len() && 0 <= j < b.len() ==> a[i] != b[j]
}

/// Where the first `i + 1` characters of a replacement hold no character of
/// `new`, no replacement has happened yet: they are the first characters of `s`.
proof fn lemma_replace_all_unchanged_prefix(s: Seq<char>, old: Seq<char>, new: Seq<char>, i: int)
    requires
        old.len() > 0,
        new.len() > 0,
        0 <= i < replace_all(s, old, new).len(),
        forall|j: int, k: int|
            0 <= j <= i && 0 <= k < new.len() ==> replace_all(s, old, new)[j] != new[k],
    ensures
        i < s.len(),
        forall|j: int| 0 <= j <= i ==> replace_all(s, old, new)[j] == s[j],
    decreases s.len(),
{
    let r = replace_all(s, old, new);
    if s.len() < old.len() {
    } else if s.subrange(0, old.len() as int) == old {
        assert(r[0] == new[0]);
    } else {
        let rest = replace_all(s.drop_first(), old, new);
        assert(r == seq![s[0]] + rest);
        if i > 0 {
            assert forall|j: int, k: int| 0 <= j <= i - 1 && 0 <= k < new.len() implies rest[j]
                != new[k] by {
                assert(rest[j] == r[j + 1]);
            }
            lemma_replace_all_unchanged_prefix(s.drop_first(), old, new, i - 1);
            assert forall|j: int| 0 <= j <= i implies r[j] == s[j] by {
                if j > 0 {
                    assert(r[j] == rest[j - 1]);
                    assert(rest[j - 1] == s.drop_first()[j - 1]);
                }
            }
        }
    }
}

/// Replacing every occurrence of a non-empty `old` by a non-empty `new` that
/// shares no character with it leaves no occurrence of `old`.
pub proof fn lemma_replace_all_leaves_no_term(s: Seq<char>, old: Seq<char>, new: Seq<char>)
    requires
        old.len() > 0,
        new.len() > 0,
        shares_no_char(old, new),
    ensures
        !contains(replace_all(s, old, new), old),
    decreases s.len(),
{
    let r = replace_all(s, old, new);
    let n = old.len() as int;
    if s.len() < old.len() {
        assert forall|p: int| !occurs_at(r, old, p) by {}
    } else if s.subrange(0, n) == old {
        let rest = replace_all(s.subrange(n, s.len() as int), old, new);
        assert(r == new + rest);
        lemma_replace_all_leaves_no_term(s.subrange(n, s.len() as int), old, new);
        assert forall|p: int| !occurs_at(r, old, p) by {
            if occurs_at(r, old, p) {
                if p >= new.len() {
                    let q = p - new.len();
                    assert(rest.subrange(q, q + n) =~= r.subrange(p, p + n));
                    assert(occurs_at(rest, old, p - new.len()));
                } else {
                    assert(r.subrange(p, p + n)[0] == old[0]);
                    assert(r[p] == new[p]);
                }
            }
        }
    } else {
        let rest = replace_all(s.drop_first(), old, new);
        assert(r == seq![s[0]] + rest);
        lemma_replace_all_leaves_no_term(s.drop_first(), old, new);
        assert forall|p: int| !occurs_at(r, old, p) by {
            if occurs_at(r, old, p) {
                if p >= 1 {
                    assert(rest.subrange(p - 1, p - 1 + n) =~= r.subrange(p, p + n));
                    assert(occurs_at(rest, old, p - 1));
                } else {
                    assert forall|j: int, k: int| 0 <= j <= n - 1 && 0 <= k < new.len() implies r[j]
                        != new[k] by {
                        assert(r.subrange(0, n)[j] == old[j]);
                    }
                    lemma_replace_all_unchanged_prefix(s, old, new, n - 1);
                    assert(s.subrange(0, n) =~= r.subrange(0, n));
                }
            }
        }
    }
}

/// The decimal digit for `d`, which is below ten.
pub open spec fn digit(d: nat) -> char {
    seq!['0', '1', '2', '3', '4', '5', '6', '7', '8', '9'][d as int]
}

/// The decimal notation of `n`, without leading zeros.
pub open spec fn decimal(n: nat) -> Seq<char>
    decreases n,
{
    if n < 10 {
        seq![digit(n)]
    } else {
        decimal(n / 10) + seq![digit(n % 10)]
    }
}

/// `s` preceded by as many spaces as bring it to `width` characters.
pub open spec fn pad_left(s: Seq<char>, width: nat) -> Seq<char> {
    if s.len() >= width {
        s
    } else {
        Seq::new((width - s.len()) as nat, |i: int| ' ') + s
    }
}

/// The items of `parts`, with `sep` between each two neighbours.
pub open spec fn join(parts: Seq<Seq<char>>, sep: Seq<char>) -> Seq<char>
    decreases parts.len(),
{
    if parts.len() == 0 {
        Seq::empty()
    } else if parts.len() == 1 {
        parts[0]
    } else {
        join(parts.drop_last(), sep) + sep + parts.last()
    }
}

/// The views of a sequence of strings.
pub open spec fn views(v: Seq<String>) -> Seq<Seq<char>> {
    v.map_values(|s: String| s@)
}

fn digit_str(d: usize) -> (r: &'static str)
    requires
        d < 10,
    ensures
        r@ == seq![digit(d as nat)],
{
    proof {
        reveal_strlit("0");
        reveal_strlit("1");
        reveal_strlit("2");
        reveal_strlit("3");
        reveal_strlit("4");
        reveal_strlit("5");
        reveal_strlit("6");
        reveal_strlit("7");
        reveal_strlit("8");
        reveal_strlit("9");
    }
    match d {
        0 => "0",
        1 => "1",
        2 => "2",
        3 => "3",
        4 => "4",
        5 => "5",
        6 => "6",
        7 => "7",
        8 => "8",
        _ => "9",
    }
}

/// The decimal notation of `n`.
pub fn decimal_string(n: usize) -> (r: String)
    ensures
        r@ == decimal(n as nat),
    decreases n,
{
    if n < 10 {
        String::from_str(digit_str(n))
    } else {
        let mut r = decimal_string(n / 10);
        r.append(digit_str(n % 10));
        r
    }
}

/// `s` preceded by spaces up to `width` characters.
pub fn right_align(s: &str, width: usize) -> (r: String)
    ensures
        r@ == pad_left(s@, width as nat),
{
    let len = s.unicode_len();
    let mut r = String::new();
    if len < width {
        let mut k: usize = 0;
        while k < width - len
            invariant
                len < width,
                k <= width - len,
                r@ == Seq::new(k as nat, |i: int| ' '),
            decreases width - len - k,
        {
            proof {
                reveal_strlit(" ");
            }
            r.append(" ");
            assert(r@ =~= Seq::new((k + 1) as nat, |i: int| ' '));
            k = k + 1;
        }
    }
    r.append(s);
    proof {
        if len >= width {
            assert(r@ =~= s@);
        }
    }
    r
}

/// The strings of `parts`, with `sep` between each two neighbours.
pub fn join_strings(parts: &Vec<String>, sep: &str) -> (r: String)
    ensures
        r@ == join(views(parts@), sep@),
{
    let mut r = String::new();
    let mut i: usize = 0;
    while i < parts.len()
        invariant
            i <= parts@.len(),
            r@ == join(views(parts@.subrange(0, i as int)), sep@),
        decreases parts@.len() - i,
    {
        let ghost before = views(parts@.subrange(0, i as int));
        if i > 0 {
            r.append(sep);
        }
        r.append(parts[i].as_str());
        proof {
            let now = views(parts@.subrange(0, i + 1));
            assert(now.drop_last() =~= before);
            assert(now.last() == parts@[i as int]@);
            if i == 0 {
                assert(r@ =~= now[0]);
            }
        }
        i = i + 1;
    }
    assert(parts@.subrange(0, parts@.len() as int) =~= parts@);
    r
}

} // verus!
