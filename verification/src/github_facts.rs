//! The one door to facts about GitHub.
//!
//! Every online rule asks only through [`GithubFacts`]; a test answers with a
//! fake, the program answers by running `git ls-remote`. What the rules do with
//! each possible answer is stated and proved; the answers themselves are not.
use vstd::prelude::*;
use crate::text::{chars_of, ends_with, ends_with_str, lines, lines_v, split_once, split_once_v,
    starts_with, starts_with_str, string_of, vviews};

verus! {

#[verifier::external_type_specification]
#[verifier::external_body]
pub struct ExIoError(std::io::Error);

/// Facts about repositories on GitHub.
pub trait GithubFacts {
    /// The commit SHA that `git_ref` (a tag or branch) of `owner/repo` points at
    /// now; `Ok(None)` when there is no such ref.
    fn resolve_ref(&self, owner_repo: &str, git_ref: &str) -> std::io::Result<Option<String>>;

    /// Whether `sha` is reachable from the repository's own history; `Ok(None)`
    /// when this source cannot tell.
    fn commit_reachable(&self, owner_repo: &str, sha: &str) -> (r: std::io::Result<Option<bool>>)
        default_ensures
            r matches Ok(None),
    {
        Ok(None)
    }

    /// How many version tags the repository has; `Ok(None)` when unknown.
    fn ref_count(&self, owner_repo: &str) -> (r: std::io::Result<Option<usize>>)
        default_ensures
            r matches Ok(None),
    {
        Ok(None)
    }

    /// When `git_ref` was published (unix seconds); `Ok(None)` when unknown.
    fn ref_timestamp(&self, owner_repo: &str, git_ref: &str) -> (r: std::io::Result<Option<i64>>)
        default_ensures
            r matches Ok(None),
    {
        Ok(None)
    }
}

/// `Display` of `std::io::Error`: the error's message, for reporting why a
/// lookup failed. Nothing is stated of the text: it may come from the
/// operating system.
#[verifier::external_body]
pub(crate) fn io_error_text(e: &std::io::Error) -> String {
    format!("{e}")
}

/// An answer of [`GithubFacts`], seen as a value: known, unknown, or failed.
pub enum Answer<T> {
    Known(T),
    Unknown,
    Failed,
}

/// The answer that a result stands for.
pub open spec fn answer_of<T>(r: std::io::Result<Option<T>>) -> Answer<T> {
    match r {
        Ok(Some(x)) => Answer::Known(x),
        Ok(None) => Answer::Unknown,
        Err(_) => Answer::Failed,
    }
}

/// The answer that a result holding a text stands for.
pub open spec fn answer_text(r: std::io::Result<Option<String>>) -> Answer<Seq<char>> {
    match r {
        Ok(Some(x)) => Answer::Known(x@),
        Ok(None) => Answer::Unknown,
        Err(_) => Answer::Failed,
    }
}

/// A line of `git ls-remote` output: the SHA and the ref name, split at the tab.
pub open spec fn ls_line(line: Seq<char>) -> Option<(Seq<char>, Seq<char>)> {
    split_once(line, '\t')
}

/// Searches lines `i..` with the first tag SHA and the first other SHA seen so
/// far: a peeled tag (`^{}`) wins at once, then a tag, then anything else.
pub open spec fn pick_from(
    ls: Seq<Seq<char>>,
    i: int,
    tag: Option<Seq<char>>,
    other: Option<Seq<char>>,
) -> Option<Seq<char>>
    decreases ls.len() - i,
{
    if i < 0 || i >= ls.len() {
        if tag is Some {
            tag
        } else {
            other
        }
    } else {
        match ls_line(ls[i]) {
            None => pick_from(ls, i + 1, tag, other),
            Some((sha, name)) => if ends_with(name, "^{}"@) {
                Some(sha)
            } else if starts_with(name, "refs/tags/"@) {
                pick_from(ls, i + 1, if tag is Some { tag } else { Some(sha) }, other)
            } else {
                pick_from(ls, i + 1, tag, if other is Some { other } else { Some(sha) })
            },
        }
    }
}

/// The most exact SHA in `git ls-remote` output: peeled (`^{}`) over tags over
/// the rest.
pub open spec fn pick_best_spec(output: Seq<char>) -> Option<Seq<char>> {
    pick_from(lines(output), 0, None, None)
}

fn opt_view(o: &Option<Vec<char>>) -> (r: Option<String>)
    ensures
        match o {
            Some(v) => r matches Some(s) && s@ == v@,
            None => r is None,
        },
{
    match o {
        Some(v) => Some(string_of(v)),
        None => None,
    }
}

/// Picks the most exact SHA out of `git ls-remote` output.
pub fn pick_best(output: &str) -> (r: Option<String>)
    ensures
        match r {
            Some(s) => pick_best_spec(output@) == Some(s@),
            None => pick_best_spec(output@) is None,
        },
{
    let cv = chars_of(output);
    let ls = lines_v(&cv);
    let ghost lv = vviews(ls@);
    let mut tag: Option<Vec<char>> = None;
    let mut other: Option<Vec<char>> = None;
    let mut i: usize = 0;
    while i < ls.len()
        invariant
            lv == vviews(ls@),
            lv == lines(output@),
            i <= ls@.len(),
            pick_best_spec(output@) == pick_from(
                lv,
                i as int,
                match tag {
                    Some(t) => Some(t@),
                    None => None,
                },
                match other {
                    Some(t) => Some(t@),
                    None => None,
                },
            ),
        decreases ls@.len() - i,
    {
        match split_once_v(&ls[i], '\t') {
            None => {},
            Some((sha, name)) => {
                if ends_with_str(&name, "^{}") {
                    return Some(string_of(&sha));
                }
                if starts_with_str(&name, "refs/tags/") {
                    if tag.is_none() {
                        tag = Some(sha);
                    }
                } else {
                    if other.is_none() {
                        other = Some(sha);
                    }
                }
            },
        }
        i = i + 1;
    }
    if tag.is_some() {
        opt_view(&tag)
    } else {
        opt_view(&other)
    }
}

} // verus!
