//! Selection of files by a glob pattern over their paths.

use crate::text::views;
use vstd::prelude::*;

verus! {

#[verifier::external_type_specification]
#[verifier::external_body]
pub struct ExGlobPattern(glob::Pattern);

#[verifier::external_type_specification]
#[verifier::external_body]
pub struct ExGlobPatternError(glob::PatternError);

/// Whether glob accepts `pattern` as a pattern.
pub uninterp spec fn glob_accepts(pattern: Seq<char>) -> bool;

/// Whether glob's pattern `pattern` matches the whole of `text`.
pub uninterp spec fn glob_matches(pattern: Seq<char>, text: Seq<char>) -> bool;

/// Relies on glob's `Pattern::new`: it compiles `expr`, and fails exactly on
/// the patterns that it does not accept.
#[verifier::external_body]
fn compile_glob(expr: &str) -> (r: Result<glob::Pattern, glob::PatternError>)
    ensures
        r is Ok <==> glob_accepts(expr@),
{
    glob::Pattern::new(expr)
}

/// Relies on glob's `Pattern::matches`: whether the pattern, compiled from
/// the source held beside it, matches `text` with the default options.
#[verifier::external_body]
fn glob_match(pattern: &PathPattern, text: &str) -> (r: bool)
    ensures
        r == glob_matches(pattern.source(), text@),
{
    pattern.compiled.matches(text)
}

/// A glob pattern, compiled, together with the text it was compiled from.
pub struct PathPattern {
    source: String,
    compiled: glob::Pattern,
}

impl PathPattern {
    /// The text that the pattern was compiled from.
    pub closed spec fn source(&self) -> Seq<char> {
        self.source@
    }

    /// The pattern `expr`, or glob's error where `expr` is no valid pattern.
    pub fn new(expr: &str) -> (r: Result<PathPattern, glob::PatternError>)
        ensures
            r is Ok <==> glob_accepts(expr@),
            r matches Ok(p) ==> p.source() == expr@,
    {
        match compile_glob(expr) {
            Ok(compiled) => Ok(PathPattern { source: String::from_str(expr), compiled }),
            Err(e) => Err(e),
        }
    }

    /// Whether the pattern matches the whole of `path`.
    pub fn matches(&self, path: &str) -> (r: bool)
        ensures
            r == glob_matches(self.source(), path@),
    {
        glob_match(self, path)
    }

    /// The paths among `paths` that the pattern matches, in their order.
    pub fn select(&self, paths: Vec<String>) -> (r: Vec<String>)
        ensures
            views(r@) == views(paths@).filter(|p: Seq<char>| glob_matches(self.source(), p)),
    {
        let ghost pred = |p: Seq<char>| glob_matches(self.source(), p);
        let mut r: Vec<String> = Vec::new();
        let mut i: usize = 0;
        while i < paths.len()
            invariant
                i <= paths@.len(),
                pred == (|p: Seq<char>| glob_matches(self.source(), p)),
                views(r@) == views(paths@).subrange(0, i as int).filter(pred),
            decreases paths@.len() - i,
        {
            let ghost before = r@;
            assert(views(paths@).subrange(0, i + 1).drop_last() =~= views(paths@).subrange(
                0,
                i as int,
            ));
            let ghost upto = views(paths@).subrange(0, i + 1);
            assert(upto.last() == paths@[i as int]@);
            let keep = self.matches(paths[i].as_str());
            assert(keep == pred(upto.last()));
            if keep {
                r.push(paths[i].clone());
                assert(views(r@) =~= views(before).push(paths@[i as int]@));
            }
            reveal(Seq::filter);
            assert(upto.filter(pred) == if pred(upto.last()) {
                upto.drop_last().filter(pred).push(upto.last())
            } else {
                upto.drop_last().filter(pred)
            });
            i = i + 1;
        }
        assert(views(paths@).subrange(0, paths@.len() as int) =~= views(paths@));
        r
    }
}

} // verus!
