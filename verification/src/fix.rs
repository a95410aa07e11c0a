//! `fix`: replacing mutable refs by commit SHAs.
//!
//! This is the one place where the tool rewrites a user's file, so it is as
//! careful as it can be: no YAML is re-serialised, only the ref inside the
//! `uses:` line is replaced, so comments, layout and key order stay byte for
//! byte, and each line keeps its own line ending (CRLF or LF). A ref that cannot
//! be resolved is never touched; the reason is reported instead.
use vstd::prelude::*;
use crate::github_facts::{answer_text, Answer, GithubFacts};
use crate::lockfile::key_spec;
use crate::sorted::{keys, map_get, map_get_from, map_insert, StrMap};
use crate::text::{
    chars_of, ends_with, ends_with_str, extend, extend_str, find_sub_from, index_of, index_of_v,
    is_ws, starts_with, string_of, subvec,
};
use crate::trust::{classify_spec, Trust, TrustContext, TrustContextV};
use crate::uses_ref::{parse_spec, repo_root_spec, RefKind, RefKindV, UsesRef, UsesRefV};
use crate::workflow::uses_value_spec;

verus! {

/// One replacement.
pub struct FixChange {
    pub file: String,
    pub line: usize,
    pub from: String,
    pub to: String,
}

pub struct FixChangeV {
    pub file: Seq<char>,
    pub line: int,
    pub from: Seq<char>,
    pub to: Seq<char>,
}

impl DeepView for FixChange {
    type V = FixChangeV;

    open spec fn deep_view(&self) -> FixChangeV {
        FixChangeV { file: self.file@, line: self.line as int, from: self.from@, to: self.to@ }
    }
}

/// What a `fix` run did.
pub struct FixOutcome {
    pub changes: Vec<FixChange>,
    /// Refs left alone because they could not be resolved, with the reason.
    pub skipped: Vec<(String, String)>,
    /// `false` for a dry run: no file was changed.
    pub applied: bool,
}

pub const NOT_FOUND: &'static str = "참조를 찾을 수 없음 — 변경하지 않음";
pub const FAILED: &'static str = "해석 실패 — 변경하지 않음: ";

// ------------------------------------------------------------------
// Line endings
// ------------------------------------------------------------------
/// The pieces that `str::split_inclusive('\n')` gives from `start` on: each
/// ends with its line break, but the last one may have none.
pub open spec fn segments_from(s: Seq<char>, start: int) -> Seq<Seq<char>>
    decreases s.len() - start,
{
    if start < 0 || start >= s.len() {
        Seq::empty()
    } else {
        let k = index_of(s, '\n', start);
        proof {
            crate::text::lemma_index_of(s, '\n', start);
        }
        if k >= s.len() {
            seq![s.subrange(start, s.len() as int)]
        } else {
            seq![s.subrange(start, k + 1)] + segments_from(s, k + 1)
        }
    }
}

/// A piece split into its body and its own line ending (`"\r\n"`, `"\n"` or
/// none), so that the ending can be written back unchanged.
pub open spec fn split_ending_spec(seg: Seq<char>) -> (Seq<char>, Seq<char>) {
    if ends_with(seg, "\r\n"@) {
        (seg.take(seg.len() - 2), "\r\n"@)
    } else if ends_with(seg, "\n"@) {
        (seg.take(seg.len() - 1), "\n"@)
    } else {
        (seg, Seq::empty())
    }
}

fn split_ending(seg: &Vec<char>) -> (r: (Vec<char>, &'static str))
    ensures
        (r.0@, r.1@) == split_ending_spec(seg@),
{
    if ends_with_str(seg, "\r\n") {
        proof {
            reveal_strlit("\r\n");
        }
        (subvec(seg, 0, seg.len() - 2), "\r\n")
    } else if ends_with_str(seg, "\n") {
        proof {
            reveal_strlit("\n");
        }
        (subvec(seg, 0, seg.len() - 1), "\n")
    } else {
        let v = subvec(seg, 0, seg.len());
        assert(v@ =~= seg@);
        proof {
            reveal_strlit("");
        }
        (v, "")
    }
}

fn segments(s: &Vec<char>) -> (r: Vec<Vec<char>>)
    ensures
        crate::text::vviews(r@) == segments_from(s@, 0),
{
    let mut out: Vec<Vec<char>> = Vec::new();
    let mut start: usize = 0;
    while start < s.len()
        invariant
            start <= s@.len(),
            segments_from(s@, 0) == crate::text::vviews(out@) + segments_from(s@, start as int),
        decreases s@.len() - start,
    {
        let k = index_of_v(s, '\n', start);
        proof {
            crate::text::lemma_index_of(s@, '\n', start as int);
        }
        let ghost before = crate::text::vviews(out@);
        if k >= s.len() {
            let seg = subvec(s, start, s.len());
            out.push(seg);
            assert(crate::text::vviews(out@) =~= before.push(seg@));
            assert(segments_from(s@, s@.len() as int) =~= Seq::<Seq<char>>::empty());
            start = s.len();
        } else {
            let seg = subvec(s, start, k + 1);
            out.push(seg);
            assert(crate::text::vviews(out@) =~= before.push(seg@));
            start = k + 1;
        }
        assert(segments_from(s@, 0) =~= crate::text::vviews(out@) + segments_from(s@, start as int));
    }
    assert(segments_from(s@, start as int) =~= Seq::<Seq<char>>::empty());
    assert(crate::text::vviews(out@) + Seq::<Seq<char>>::empty() =~= crate::text::vviews(out@));
    out
}

// ------------------------------------------------------------------
// One line
// ------------------------------------------------------------------
/// What a line offers to fix: its `uses:` value, and the `owner/repo` and the
/// mutable ref in it, for an action that is not first party.
pub open spec fn fix_target(line: Seq<char>, ctx: TrustContextV) -> Option<
    (Seq<char>, Seq<char>, Seq<char>),
> {
    match uses_value_spec(line) {
        Some(value) => match parse_spec(value) {
            UsesRefV::Repository { owner_repo, git_ref: Some(RefKindV::Mutable(r)) } => {
                if classify_spec(ctx, owner_repo) == Trust::FirstParty {
                    None
                } else {
                    Some((value, owner_repo, r))
                }
            },
            _ => None,
        },
        None => None,
    }
}

/// The line with `value` (where it first occurs) replaced by
/// `owner_repo@sha`, followed by ` # <ref>` unless the rest of the line holds a
/// comment already; with the old and the new value. `None` when the value
/// cannot be found in the line.
pub open spec fn rewrite_spec(
    line: Seq<char>,
    value: Seq<char>,
    owner_repo: Seq<char>,
    git_ref: Seq<char>,
    sha: Seq<char>,
) -> Option<(Seq<char>, Seq<char>, Seq<char>)> {
    let new_value = owner_repo + "@"@ + sha;
    let pos = find_sub_from(line, value, 0);
    if pos < 0 {
        None
    } else {
        let rest = line.skip(pos + value.len());
        Some(
            (
                line.take(pos) + new_value + rest + (if rest.contains('#') {
                    Seq::empty()
                } else {
                    " # "@ + git_ref
                }),
                value,
                new_value,
            ),
        )
    }
}

/// The model of the resolution cache.
pub open spec fn cache_view(m: Seq<(Seq<char>, Option<String>)>) -> Seq<
    (Seq<char>, Option<Seq<char>>),
> {
    m.map_values(
        |e: (Seq<char>, Option<String>)|
            (
                e.0,
                match e.1 {
                    Some(s) => Some(s@),
                    None => None,
                },
            ),
    )
}

/// The model of the skipped refs.
pub open spec fn skipped_view(m: Seq<(Seq<char>, String)>) -> Seq<(Seq<char>, Seq<char>)> {
    m.map_values(|e: (Seq<char>, String)| (e.0, e.1@))
}

/// Resolving `key`: a cached answer is reused; otherwise the lookup's answer is
/// cached, and a ref that was not found or could not be looked up is recorded
/// as skipped with its reason (`err` is the text of the lookup's error).
pub open spec fn resolve_spec(
    cache: Seq<(Seq<char>, Option<Seq<char>>)>,
    skipped: Seq<(Seq<char>, Seq<char>)>,
    key: Seq<char>,
    ans: Answer<Seq<char>>,
    err: Seq<char>,
) -> (Option<Seq<char>>, Seq<(Seq<char>, Option<Seq<char>>)>, Seq<(Seq<char>, Seq<char>)>) {
    match map_get(cache, key) {
        Some(c) => (c, cache, skipped),
        None => match ans {
            Answer::Known(s) => (Some(s), map_insert(cache, key, Some(s)), skipped),
            Answer::Unknown => (
                None,
                map_insert(cache, key, None),
                map_insert(skipped, key, NOT_FOUND@),
            ),
            Answer::Failed => (
                None,
                map_insert(cache, key, None),
                map_insert(skipped, key, FAILED@ + err),
            ),
        },
    }
}

/// Fixing one line: the replacement (if any), the cache and the skipped refs
/// after it.
pub open spec fn line_fix_spec(
    line: Seq<char>,
    ctx: TrustContextV,
    cache: Seq<(Seq<char>, Option<Seq<char>>)>,
    skipped: Seq<(Seq<char>, Seq<char>)>,
    ans: Answer<Seq<char>>,
    err: Seq<char>,
) -> (
    Option<(Seq<char>, Seq<char>, Seq<char>)>,
    Seq<(Seq<char>, Option<Seq<char>>)>,
    Seq<(Seq<char>, Seq<char>)>,
) {
    match fix_target(line, ctx) {
        None => (None, cache, skipped),
        Some((value, owner_repo, git_ref)) => {
            let key = key_spec(repo_root_spec(owner_repo), git_ref);
            let (sha, c2, s2) = resolve_spec(cache, skipped, key, ans, err);
            (
                match sha {
                    Some(s) => rewrite_spec(line, value, owner_repo, git_ref, s),
                    None => None,
                },
                c2,
                s2,
            )
        },
    }
}

/// A line's `uses:` value occurs in the line, so a line with a fix target can
/// always be rewritten once its ref has a SHA.
proof fn lemma_target_rewritable(line: Seq<char>, ctx: TrustContextV, sha: Seq<char>)
    requires
        fix_target(line, ctx) is Some,
    ensures
        fix_target(line, ctx) matches Some((value, owner_repo, git_ref)) && rewrite_spec(
            line,
            value,
            owner_repo,
            git_ref,
            sha,
        ) is Some,
{
    let (value, owner_repo, git_ref) = fix_target(line, ctx)->0;
    let (start, mode) = crate::workflow::lemma_uses_layout(line);
    let w = line.skip(start);
    let m = if mode == 1 {
        crate::text::lemma_index_of(w, '"', 0);
        index_of(w, '"', 0)
    } else if mode == 2 {
        crate::text::lemma_index_of(w, '\'', 0);
        index_of(w, '\'', 0)
    } else {
        crate::workflow::lemma_value_end_all(w, 0);
        crate::workflow::value_end(w, 0)
    };
    assert(value == w.take(m));
    assert(line.subrange(start, start + value.len()) =~= value);
    assert(crate::text::occurs_at(line, value, start));
    crate::text::lemma_find_sub(line, value, 0);
}

/// How `fix` resolves refs through its cache. A line that offers nothing to
/// fix changes nothing. Otherwise, after the line its ref is in the cache; a
/// ref that was already there is taken from it, whatever a lookup would have
/// answered, and nothing changes; a new ref is added to the skipped refs when
/// it did not resolve to a SHA, and they stay as they were when it did; no
/// other ref changes in the cache or in
/// the skipped refs; and the line is rewritten exactly when its ref has a SHA.
pub proof fn refs_are_resolved_once(
    line: Seq<char>,
    ctx: TrustContextV,
    cache: Seq<(Seq<char>, Option<Seq<char>>)>,
    skipped: Seq<(Seq<char>, Seq<char>)>,
    ans: Answer<Seq<char>>,
    err: Seq<char>,
    ans2: Answer<Seq<char>>,
    err2: Seq<char>,
)
    ensures
        ({
            let (r, c2, s2) = line_fix_spec(line, ctx, cache, skipped, ans, err);
            match fix_target(line, ctx) {
                None => r is None && c2 == cache && s2 == skipped,
                Some((value, owner_repo, git_ref)) => {
                    let key = key_spec(repo_root_spec(owner_repo), git_ref);
                    &&& map_get(c2, key) is Some
                    &&& (map_get(cache, key) is Some ==> c2 == cache && s2 == skipped && line_fix_spec(
                        line,
                        ctx,
                        cache,
                        skipped,
                        ans2,
                        err2,
                    ) == (r, c2, s2))
                    &&& (map_get(cache, key) is None ==> (map_get(c2, key) == Some(None::<Seq<char>>)
                        ==> map_get(s2, key) is Some) && (map_get(c2, key) != Some(None::<Seq<char>>)
                        ==> s2 == skipped))
                    &&& forall|k: Seq<char>|
                        k != key ==> #[trigger] map_get(c2, k) == map_get(cache, k) && map_get(s2, k)
                            == map_get(skipped, k)
                    &&& (r is Some <==> map_get(c2, key) matches Some(Some(_)))
                },
            }
        }),
{
    match fix_target(line, ctx) {
        None => {},
        Some((value, owner_repo, git_ref)) => {
            let key = key_spec(repo_root_spec(owner_repo), git_ref);
            let (r, c2, s2) = line_fix_spec(line, ctx, cache, skipped, ans, err);
            match resolve_spec(cache, skipped, key, ans, err).0 {
                Some(sh) => lemma_target_rewritable(line, ctx, sh),
                None => {},
            }
            match map_get(cache, key) {
                Some(_) => {},
                None => {
                    let v: Option<Seq<char>> = match ans {
                        Answer::Known(x) => Some(x),
                        _ => None,
                    };
                    crate::sorted::lemma_map_insert_get(cache, key, v, key);
                    match ans {
                        Answer::Known(_) => {},
                        Answer::Unknown => {
                            crate::sorted::lemma_map_insert_get(skipped, key, NOT_FOUND@, key);
                        },
                        Answer::Failed => {
                            crate::sorted::lemma_map_insert_get(skipped, key, FAILED@ + err, key);
                        },
                    }
                    assert forall|k: Seq<char>| k != key implies #[trigger] map_get(c2, k) == map_get(
                        cache,
                        k,
                    ) && map_get(s2, k) == map_get(skipped, k) by {
                        crate::sorted::lemma_map_insert_get(cache, key, v, k);
                        match ans {
                            Answer::Known(_) => {},
                            Answer::Unknown => {
                                crate::sorted::lemma_map_insert_get(skipped, key, NOT_FOUND@, k);
                            },
                            Answer::Failed => {
                                crate::sorted::lemma_map_insert_get(skipped, key, FAILED@ + err, k);
                            },
                        }
                    }
                },
            }
        },
    }
}

proof fn lemma_cache_insert(m: Seq<(Seq<char>, Option<String>)>, k: Seq<char>, x: Option<String>)
    ensures
        cache_view(map_insert(m, k, x)) == map_insert(
            cache_view(m),
            k,
            match x {
                Some(s) => Some(s@),
                None => None,
            },
        ),
{
    let t = cache_view(m);
    let xv: Option<Seq<char>> = match x {
        Some(s) => Some(s@),
        None => None,
    };
    assert(keys(t) =~= keys(m));
    let p = crate::sorted::insert_pos(keys(m), k, 0);
    crate::sorted::lemma_insert_pos(keys(m), k, 0);
    if p < m.len() && m[p].0 == k {
        assert(cache_view(m.update(p, (k, x))) =~= t.update(p, (k, xv)));
    } else {
        assert(cache_view(m.insert(p, (k, x))) =~= t.insert(p, (k, xv)));
    }
}

proof fn lemma_cache_get(m: Seq<(Seq<char>, Option<String>)>, k: Seq<char>, i: int)
    requires
        0 <= i,
    ensures
        match map_get_from(m, k, i) {
            Some(x) => map_get_from(cache_view(m), k, i) == Some(
                match x {
                    Some(s) => Some(s@),
                    None => None::<Seq<char>>,
                },
            ),
            None => map_get_from(cache_view(m), k, i) is None,
        },
    decreases m.len() - i,
{
    if i < m.len() && m[i].0 != k {
        lemma_cache_get(m, k, i + 1);
    }
}

proof fn lemma_skipped_insert(m: Seq<(Seq<char>, String)>, k: Seq<char>, x: String)
    ensures
        skipped_view(map_insert(m, k, x)) == map_insert(skipped_view(m), k, x@),
{
    let t = skipped_view(m);
    assert(keys(t) =~= keys(m));
    let p = crate::sorted::insert_pos(keys(m), k, 0);
    crate::sorted::lemma_insert_pos(keys(m), k, 0);
    if p < m.len() && m[p].0 == k {
        assert(skipped_view(m.update(p, (k, x))) =~= t.update(p, (k, x@)));
    } else {
        assert(skipped_view(m.insert(p, (k, x))) =~= t.insert(p, (k, x@)));
    }
}

fn fix_target_exec(line: &str, ctx: &TrustContext) -> (r: Option<(String, String, String)>)
    ensures
        match r {
            Some((v, o, g)) => fix_target(line@, ctx@) == Some((v@, o@, g@)),
            None => fix_target(line@, ctx@) is None,
        },
{
    match crate::workflow::extract_uses_value(line) {
        Some(value) => match crate::uses_ref::parse(value.as_str()) {
            UsesRef::Repository { owner_repo, git_ref: Some(RefKind::Mutable(r)) } => {
                if ctx.classify(owner_repo.as_str()) == Trust::FirstParty {
                    None
                } else {
                    Some((value, owner_repo, r))
                }
            },
            _ => None,
        },
        None => None,
    }
}

/// Rewrites `line` for a resolved SHA (see [`rewrite_spec`]).
pub fn rewrite_line(line: &str, value: &str, owner_repo: &str, git_ref: &str, sha: &str) -> (r:
    Option<(String, String, String)>)
    ensures
        match r {
            Some((a, b, c)) => rewrite_spec(line@, value@, owner_repo@, git_ref@, sha@) == Some(
                (a@, b@, c@),
            ),
            None => rewrite_spec(line@, value@, owner_repo@, git_ref@, sha@) is None,
        },
{
    let lv = chars_of(line);
    let vv = chars_of(value);
    let mut nv = chars_of(owner_repo);
    extend_str(&mut nv, "@");
    extend_str(&mut nv, sha);
    let pos = match crate::text::find_sub_v(&lv, &vv) {
        Some(p) => p,
        None => {
            return None;
        },
    };
    proof {
        crate::text::lemma_find_sub(lv@, vv@, 0);
        assert(crate::text::occurs_at(lv@, vv@, pos as int));
    }
    assert(pos + vv.len() <= lv.len());
    let end = pos + vv.len();
    let rest = subvec(&lv, end, lv.len());
    assert(rest@ =~= lv@.skip(end as int));
    let mut out = subvec(&lv, 0, pos);
    assert(out@ =~= lv@.take(pos as int));
    extend(&mut out, &nv);
    extend(&mut out, &rest);
    let has_hash = index_of_v(&rest, '#', 0) < rest.len();
    proof {
        crate::text::lemma_index_of_contains(rest@, '#');
    }
    if !has_hash {
        extend_str(&mut out, " # ");
        extend_str(&mut out, git_ref);
    }
    let ghost ov = out@;
    let r = (string_of(&out), string_of(&vv), string_of(&nv));
    assert(rewrite_spec(line@, value@, owner_repo@, git_ref@, sha@) == Some((ov, vv@, nv@)));
    Some(r)
}

/// Fixes one line: resolves its ref through the cache (asking `facts` only for
/// a ref not seen before) and rewrites the line when a SHA was found. For
/// whatever the lookup answered, the result, the cache and the skipped refs are
/// those of [`line_fix_spec`].
pub fn try_fix_line<F: GithubFacts>(
    line: &str,
    ctx: &TrustContext,
    facts: &F,
    cache: &mut StrMap<Option<String>>,
    skipped: &mut StrMap<String>,
) -> (r: Option<(String, String, String)>)
    ensures
        exists|ans: Answer<Seq<char>>, err: Seq<char>|
            #[trigger] line_fix_spec(
                line@,
                ctx@,
                cache_view(old(cache).view()),
                skipped_view(old(skipped).view()),
                ans,
                err,
            ) == (
                match r {
                    Some((a, b, c)) => Some((a@, b@, c@)),
                    None => None,
                },
                cache_view(final(cache).view()),
                skipped_view(final(skipped).view()),
            ),
{
    let ghost c0 = cache_view(cache.view());
    let ghost s0 = skipped_view(skipped.view());
    let ghost mut ans: Answer<Seq<char>> = Answer::Unknown;
    let ghost mut err: Seq<char> = Seq::empty();
    let (value, owner_repo, git_ref) = match fix_target_exec(line, ctx) {
        Some(t) => t,
        None => {
            assert(line_fix_spec(line@, ctx@, c0, s0, ans, err) == (
                None::<(Seq<char>, Seq<char>, Seq<char>)>,
                c0,
                s0,
            ));
            return None;
        },
    };
    let repo = crate::uses_ref::repo_root(owner_repo.as_str());
    let key = crate::lockfile::Lockfile::key(repo.as_str(), git_ref.as_str());
    proof {
        lemma_cache_get(cache.view(), key@, 0);
    }
    let sha: Option<String> = match cache.get(key.as_str()) {
        Some(cached) => match cached {
            Some(s) => Some(string_of(&chars_of(s.as_str()))),
            None => None,
        },
        None => {
            let answer = facts.resolve_ref(repo.as_str(), git_ref.as_str());
            proof {
                ans = answer_text(answer);
            }
            let resolved: Option<String> = match answer {
                Ok(Some(s)) => Some(s),
                Ok(None) => {
                    let k2 = string_of(&chars_of(key.as_str()));
                    let reason = string_of(&chars_of(NOT_FOUND));
                    proof {
                        lemma_skipped_insert(skipped.view(), k2@, reason);
                    }
                    skipped.insert(k2, reason);
                    None
                },
                Err(e) => {
                    let t = crate::github_facts::io_error_text(&e);
                    proof {
                        err = t@;
                    }
                    let mut rv = chars_of(FAILED);
                    extend_str(&mut rv, t.as_str());
                    let k2 = string_of(&chars_of(key.as_str()));
                    let reason = string_of(&rv);
                    proof {
                        lemma_skipped_insert(skipped.view(), k2@, reason);
                    }
                    skipped.insert(k2, reason);
                    None
                },
            };
            let stored: Option<String> = match &resolved {
                Some(s) => Some(string_of(&chars_of(s.as_str()))),
                None => None,
            };
            proof {
                lemma_cache_insert(cache.view(), key@, stored);
            }
            cache.insert(string_of(&chars_of(key.as_str())), stored);
            resolved
        },
    };
    let ghost sv: Option<Seq<char>> = match &sha {
        Some(s) => Some(s@),
        None => None,
    };
    assert(resolve_spec(c0, s0, key@, ans, err) == (
        sv,
        cache_view(cache.view()),
        skipped_view(skipped.view()),
    ));
    let r = match sha {
        Some(s) => rewrite_line(line, value.as_str(), owner_repo.as_str(), git_ref.as_str(), s.as_str()),
        None => None,
    };
    assert(line_fix_spec(line@, ctx@, c0, s0, ans, err) == (
        match r {
            Some((a, b, c)) => Some((a@, b@, c@)),
            None => None,
        },
        cache_view(cache.view()),
        skipped_view(skipped.view()),
    ));
    r
}

// ------------------------------------------------------------------
// One file
// ------------------------------------------------------------------
/// Where a fix run stands: the cache, the skipped refs, the changes so far, the
/// text written so far and whether any line changed.
pub struct FixStateV {
    pub cache: Seq<(Seq<char>, Option<Seq<char>>)>,
    pub skipped: Seq<(Seq<char>, Seq<char>)>,
    pub changes: Seq<FixChangeV>,
    pub out: Seq<char>,
    pub changed: bool,
}

/// One piece of the file handled: its body fixed or kept, its line ending
/// written back as it was.
pub open spec fn line_step(
    st: FixStateV,
    file: Seq<char>,
    idx: int,
    seg: Seq<char>,
    ctx: TrustContextV,
    ans: (Answer<Seq<char>>, Seq<char>),
) -> FixStateV {
    let (body, ending) = split_ending_spec(seg);
    let (r, c2, s2) = line_fix_spec(body, ctx, st.cache, st.skipped, ans.0, ans.1);
    match r {
        Some((nl, from, to)) => FixStateV {
            cache: c2,
            skipped: s2,
            changes: st.changes.push(FixChangeV { file, line: idx + 1, from, to }),
            out: st.out + nl + ending,
            changed: true,
        },
        None => FixStateV {
            cache: c2,
            skipped: s2,
            changes: st.changes,
            out: st.out + body + ending,
            changed: st.changed,
        },
    }
}

/// The state after the first `i` pieces, given the lookup answer of each.
pub open spec fn fix_upto(
    init: FixStateV,
    file: Seq<char>,
    segs: Seq<Seq<char>>,
    ctx: TrustContextV,
    anss: Seq<(Answer<Seq<char>>, Seq<char>)>,
    i: int,
) -> FixStateV
    decreases i,
{
    if i <= 0 {
        init
    } else {
        line_step(fix_upto(init, file, segs, ctx, anss, i - 1), file, i - 1, segs[i - 1], ctx, anss[i - 1])
    }
}

/// The state after a whole file.
pub open spec fn fix_file_spec(
    init: FixStateV,
    file: Seq<char>,
    content: Seq<char>,
    ctx: TrustContextV,
    anss: Seq<(Answer<Seq<char>>, Seq<char>)>,
) -> FixStateV {
    let segs = segments_from(content, 0);
    fix_upto(init, file, segs, ctx, anss, segs.len() as int)
}

proof fn lemma_fix_upto_prefix(
    init: FixStateV,
    file: Seq<char>,
    segs: Seq<Seq<char>>,
    ctx: TrustContextV,
    a1: Seq<(Answer<Seq<char>>, Seq<char>)>,
    a2: Seq<(Answer<Seq<char>>, Seq<char>)>,
    i: int,
)
    requires
        0 <= i <= a1.len(),
        i <= a2.len(),
        forall|j: int| 0 <= j < i ==> a1[j] == a2[j],
    ensures
        fix_upto(init, file, segs, ctx, a1, i) == fix_upto(init, file, segs, ctx, a2, i),
    decreases i,
{
    if i > 0 {
        lemma_fix_upto_prefix(init, file, segs, ctx, a1, a2, i - 1);
    }
}

/// Fixes the text of one workflow file, piece by piece as
/// `split_inclusive('\n')` gives them, recording each replacement in
/// `changes`. Returns the new text and whether any line changed. For whatever
/// the lookups answered, everything is as [`fix_file_spec`] says.
pub fn fix_content<F: GithubFacts>(
    file: &str,
    content: &str,
    ctx: &TrustContext,
    facts: &F,
    cache: &mut StrMap<Option<String>>,
    skipped: &mut StrMap<String>,
    changes: &mut Vec<FixChange>,
) -> (r: (String, bool))
    ensures
        exists|anss: Seq<(Answer<Seq<char>>, Seq<char>)>|
            anss.len() == segments_from(content@, 0).len() && #[trigger] fix_file_spec(
                FixStateV {
                    cache: cache_view(old(cache).view()),
                    skipped: skipped_view(old(skipped).view()),
                    changes: old(changes).deep_view(),
                    out: Seq::empty(),
                    changed: false,
                },
                file@,
                content@,
                ctx@,
                anss,
            ) == (FixStateV {
                cache: cache_view(final(cache).view()),
                skipped: skipped_view(final(skipped).view()),
                changes: final(changes).deep_view(),
                out: r.0@,
                changed: r.1,
            }),
{
    let ghost init = FixStateV {
        cache: cache_view(cache.view()),
        skipped: skipped_view(skipped.view()),
        changes: changes.deep_view(),
        out: Seq::empty(),
        changed: false,
    };
    let cv = chars_of(content);
    let segs = segments(&cv);
    let ghost sv = crate::text::vviews(segs@);
    let ghost mut anss: Seq<(Answer<Seq<char>>, Seq<char>)> = Seq::empty();
    let mut out: Vec<char> = Vec::new();
    let mut changed = false;
    let mut i: usize = 0;
    while i < segs.len()
        invariant
            sv == crate::text::vviews(segs@),
            sv == segments_from(content@, 0),
            i <= segs@.len(),
            anss.len() == i,
            fix_upto(init, file@, sv, ctx@, anss, i as int) == (FixStateV {
                cache: cache_view(cache.view()),
                skipped: skipped_view(skipped.view()),
                changes: changes.deep_view(),
                out: out@,
                changed,
            }),
        decreases segs@.len() - i,
    {
        let (body, ending) = split_ending(&segs[i]);
        let line = string_of(&body);
        let ghost c0 = cache_view(cache.view());
        let ghost s0 = skipped_view(skipped.view());
        let r = try_fix_line(line.as_str(), ctx, facts, cache, skipped);
        let ghost rv = match &r {
            Some((a, b, c)) => Some((a@, b@, c@)),
            None => None::<(Seq<char>, Seq<char>, Seq<char>)>,
        };
        let ghost pick = choose|ae: (Answer<Seq<char>>, Seq<char>)|
            #[trigger] line_fix_spec(line@, ctx@, c0, s0, ae.0, ae.1) == (
                rv,
                cache_view(cache.view()),
                skipped_view(skipped.view()),
            );
        proof {
            let (a, e) = choose|a: Answer<Seq<char>>, e: Seq<char>|
                #[trigger] line_fix_spec(line@, ctx@, c0, s0, a, e) == (
                    rv,
                    cache_view(cache.view()),
                    skipped_view(skipped.view()),
                );
            assert(line_fix_spec(line@, ctx@, c0, s0, (a, e).0, (a, e).1) == (
                rv,
                cache_view(cache.view()),
                skipped_view(skipped.view()),
            ));
        }
        let ghost old_anss = anss;
        let ghost before_changes = changes.deep_view();
        let ghost before_out = out@;
        match r {
            Some((new_line, from, to)) => {
                extend_str(&mut out, new_line.as_str());
                changes.push(FixChange { file: string_of(&chars_of(file)), line: i + 1, from, to });
                changed = true;
            },
            None => {
                extend(&mut out, &body);
            },
        }
        extend_str(&mut out, ending);
        proof {
            anss = anss.push(pick);
            lemma_fix_upto_prefix(init, file@, sv, ctx@, anss, old_anss, i as int);
            assert(sv[i as int] == segs@[i as int]@);
            let st = fix_upto(init, file@, sv, ctx@, anss, i as int + 1);
            assert(st == line_step(
                fix_upto(init, file@, sv, ctx@, old_anss, i as int),
                file@,
                i as int,
                sv[i as int],
                ctx@,
                pick,
            ));
            match rv {
                Some((a, b, c)) => {
                    assert(changes.deep_view() =~= before_changes.push(
                        FixChangeV { file: file@, line: i + 1, from: b, to: c },
                    ));
                },
                None => {},
            }
            assert(st.out =~= out@);
            assert(st.changes =~= changes.deep_view());
        }
        i = i + 1;
    }
    let r = (string_of(&out), changed);
    assert(fix_file_spec(init, file@, content@, ctx@, anss) == (FixStateV {
        cache: cache_view(cache.view()),
        skipped: skipped_view(skipped.view()),
        changes: changes.deep_view(),
        out: r.0@,
        changed: r.1,
    }));
    r
}

// ------------------------------------------------------------------
// What fix leaves alone
// ------------------------------------------------------------------
proof fn lemma_segments_concat(s: Seq<char>, start: int)
    requires
        0 <= start <= s.len(),
    ensures
        crate::rules::concat(segments_from(s, start)) == s.skip(start),
    decreases s.len() - start,
{
    if start >= s.len() {
        assert(s.skip(start) =~= Seq::<char>::empty());
    } else {
        crate::text::lemma_index_of(s, '\n', start);
        let k = index_of(s, '\n', start);
        let segs = segments_from(s, start);
        crate::rules::lemma_concat_first(segs);
        if k >= s.len() {
            assert(segs.skip(1) =~= Seq::<Seq<char>>::empty());
            assert(crate::rules::concat(segs.skip(1)) =~= Seq::<char>::empty());
            assert(s.subrange(start, s.len() as int) =~= s.skip(start));
        } else {
            assert(segs.skip(1) =~= segments_from(s, k + 1));
            lemma_segments_concat(s, k + 1);
            assert(s.subrange(start, k + 1) + s.skip(k + 1) =~= s.skip(start));
        }
    }
}

proof fn lemma_split_ending(seg: Seq<char>)
    ensures
        split_ending_spec(seg).0 + split_ending_spec(seg).1 == seg,
{
    reveal_strlit("\r\n");
    reveal_strlit("\n");
    if ends_with(seg, "\r\n"@) {
        assert(seg.take(seg.len() - 2) + "\r\n"@ =~= seg);
    } else if ends_with(seg, "\n"@) {
        assert(seg.take(seg.len() - 1) + "\n"@ =~= seg);
    } else {
        assert(seg + Seq::<char>::empty() =~= seg);
    }
}

proof fn lemma_untouched_upto(
    init: FixStateV,
    file: Seq<char>,
    segs: Seq<Seq<char>>,
    ctx: TrustContextV,
    anss: Seq<(Answer<Seq<char>>, Seq<char>)>,
    i: int,
)
    requires
        0 <= i <= segs.len(),
        forall|q: int| 0 <= q < segs.len() ==> fix_target(#[trigger] split_ending_spec(segs[q]).0, ctx) is None,
    ensures
        fix_upto(init, file, segs, ctx, anss, i) == (FixStateV {
            out: init.out + crate::rules::concat(segs.take(i)),
            ..init
        }),
    decreases i,
{
    if i == 0 {
        assert(segs.take(0) =~= Seq::<Seq<char>>::empty());
        assert(init.out + Seq::<char>::empty() =~= init.out);
    } else {
        lemma_untouched_upto(init, file, segs, ctx, anss, i - 1);
        let seg = segs[i - 1];
        assert(fix_target(split_ending_spec(seg).0, ctx) is None);
        lemma_split_ending(seg);
        crate::rules::lemma_concat_step(segs, i - 1);
        assert(init.out + crate::rules::concat(segs.take(i - 1)) + split_ending_spec(seg).0
            + split_ending_spec(seg).1 =~= init.out + crate::rules::concat(segs.take(i)));
    }
}

/// A file in which no line offers a ref to fix comes back byte for byte (line
/// endings included), and nothing else changes: fix only ever rewrites the
/// `uses:` lines of mutable third-party refs.
pub proof fn untouched_files_come_back_unchanged(
    init: FixStateV,
    file: Seq<char>,
    content: Seq<char>,
    ctx: TrustContextV,
    anss: Seq<(Answer<Seq<char>>, Seq<char>)>,
)
    requires
        forall|q: int|
            0 <= q < segments_from(content, 0).len() ==> fix_target(
                #[trigger] split_ending_spec(segments_from(content, 0)[q]).0,
                ctx,
            ) is None,
    ensures
        fix_file_spec(init, file, content, ctx, anss) == (FixStateV {
            out: init.out + content,
            ..init
        }),
{
    let segs = segments_from(content, 0);
    lemma_untouched_upto(init, file, segs, ctx, anss, segs.len() as int);
    lemma_segments_concat(content, 0);
    assert(segs.take(segs.len() as int) =~= segs);
    assert(content.skip(0) =~= content);
}

/// The body that `fix` writes for piece `k`: the rewritten line when the line
/// was fixed, the line as it was otherwise.
pub open spec fn piece_body(
    init: FixStateV,
    file: Seq<char>,
    segs: Seq<Seq<char>>,
    ctx: TrustContextV,
    anss: Seq<(Answer<Seq<char>>, Seq<char>)>,
    k: int,
) -> Seq<char> {
    let st = fix_upto(init, file, segs, ctx, anss, k);
    let body = split_ending_spec(segs[k]).0;
    match line_fix_spec(body, ctx, st.cache, st.skipped, anss[k].0, anss[k].1).0 {
        Some((nl, _, _)) => nl,
        None => body,
    }
}

/// What `fix` writes for pieces `0..i`: each body, fixed or kept, followed by
/// the piece's own line ending.
pub open spec fn pieces_out(
    init: FixStateV,
    file: Seq<char>,
    segs: Seq<Seq<char>>,
    ctx: TrustContextV,
    anss: Seq<(Answer<Seq<char>>, Seq<char>)>,
    i: int,
) -> Seq<char>
    decreases i,
{
    if i <= 0 {
        Seq::empty()
    } else {
        pieces_out(init, file, segs, ctx, anss, i - 1) + piece_body(init, file, segs, ctx, anss, i - 1)
            + split_ending_spec(segs[i - 1]).1
    }
}

proof fn lemma_pieces_upto(
    init: FixStateV,
    file: Seq<char>,
    segs: Seq<Seq<char>>,
    ctx: TrustContextV,
    anss: Seq<(Answer<Seq<char>>, Seq<char>)>,
    i: int,
)
    requires
        0 <= i <= segs.len(),
    ensures
        fix_upto(init, file, segs, ctx, anss, i).out == init.out + pieces_out(init, file, segs, ctx, anss, i),
    decreases i,
{
    if i == 0 {
        assert(init.out + Seq::<char>::empty() =~= init.out);
    } else {
        lemma_pieces_upto(init, file, segs, ctx, anss, i - 1);
        let prev = fix_upto(init, file, segs, ctx, anss, i - 1);
        assert(fix_upto(init, file, segs, ctx, anss, i).out =~= prev.out + piece_body(
            init,
            file,
            segs,
            ctx,
            anss,
            i - 1,
        ) + split_ending_spec(segs[i - 1]).1);
    }
}

/// `fix` rewrites a file line by line and keeps each line's ending (`\r\n`,
/// `\n` or none): what it writes is, for each piece of the text in order, the
/// piece's body (rewritten only when that line was fixed) followed by that
/// piece's own ending; and the pieces, bodies with their endings, make up the
/// text.
pub proof fn fix_keeps_each_line_ending(
    init: FixStateV,
    file: Seq<char>,
    content: Seq<char>,
    ctx: TrustContextV,
    anss: Seq<(Answer<Seq<char>>, Seq<char>)>,
)
    ensures
        fix_file_spec(init, file, content, ctx, anss).out == init.out + pieces_out(
            init,
            file,
            segments_from(content, 0),
            ctx,
            anss,
            segments_from(content, 0).len() as int,
        ),
        crate::rules::concat(segments_from(content, 0)) == content,
        forall|k: int|
            0 <= k < segments_from(content, 0).len() ==> #[trigger] segments_from(content, 0)[k] == split_ending_spec(
                segments_from(content, 0)[k],
            ).0 + split_ending_spec(segments_from(content, 0)[k]).1,
{
    let segs = segments_from(content, 0);
    lemma_pieces_upto(init, file, segs, ctx, anss, segs.len() as int);
    lemma_segments_concat(content, 0);
    assert(content.skip(0) =~= content);
    assert forall|k: int| 0 <= k < segs.len() implies #[trigger] segs[k] == split_ending_spec(segs[k]).0
        + split_ending_spec(segs[k]).1 by {
        lemma_split_ending(segs[k]);
    }
}

// ------------------------------------------------------------------
// A fixed line stays fixed
// ------------------------------------------------------------------
/// The quote character of a quoting mode (see `crate::workflow::uses_shape`).
pub open spec fn quote_of(mode: int) -> char {
    if mode == 1 {
        '"'
    } else {
        '\''
    }
}

/// The `uses:` value of the line is unquoted, or its closing quote is there.
pub open spec fn value_quote_closed(line: Seq<char>) -> bool {
    let (p0, mode) = crate::workflow::uses_value_start(line);
    mode == 0 || index_of(line.skip(p0), quote_of(mode), 0) < line.len() - p0
}

proof fn lemma_first_occurrence(line: Seq<char>, v: Seq<char>, p0: int)
    requires
        crate::text::occurs_at(line, v, p0),
        forall|k: int| 0 <= k < p0 ==> !crate::text::occurs_at(line, v, k),
    ensures
        find_sub_from(line, v, 0) == p0,
{
    crate::text::lemma_find_sub(line, v, 0);
    let f = find_sub_from(line, v, 0);
    if f == -1 {
        assert(!crate::text::occurs_at(line, v, p0));
    } else if f > p0 {
        assert(!crate::text::occurs_at(line, v, p0));
    }
}

proof fn lemma_not_local(v: Seq<char>, nv: Seq<char>, o: Seq<char>, p: Seq<char>)
    requires
        v.take(o.len() as int) == o,
        nv.take(o.len() as int) == o,
        o.len() < v.len() && v[o.len() as int] == '@',
        o.len() < nv.len() && nv[o.len() as int] == '@',
        !starts_with(v, p),
        forall|k: int| 0 <= k < p.len() ==> #[trigger] p[k] != '@',
    ensures
        !starts_with(nv, p),
{
    if starts_with(nv, p) {
        if p.len() <= o.len() {
            assert forall|k: int| 0 <= k < p.len() implies v[k] == #[trigger] p[k] by {
                assert(v.take(o.len() as int)[k] == nv.take(o.len() as int)[k]);
                assert(nv.take(p.len() as int)[k] == nv[k]);
            }
            assert(v.take(p.len() as int) =~= p);
        } else {
            assert(nv.take(p.len() as int)[o.len() as int] == nv[o.len() as int]);
        }
    }
}

/// Fixing is idempotent: a line whose mutable ref was replaced by a commit
/// SHA offers nothing more to fix, so a second run changes nothing. (A quoted
/// value must have its closing quote: with none, the added ` # <ref>` comment
/// would be read as part of the value.)
pub proof fn fixed_lines_offer_nothing_more(line: Seq<char>, ctx: TrustContextV, sha: Seq<char>)
    requires
        fix_target(line, ctx) is Some,
        crate::uses_ref::is_sha(sha),
        value_quote_closed(line),
    ensures
        ({
            let (v, o, r) = fix_target(line, ctx)->0;
            rewrite_spec(line, v, o, r, sha) matches Some((nl, _, _)) && fix_target(nl, ctx) is None
        }),
{
    reveal_strlit("@");
    reveal_strlit("./");
    reveal_strlit(".\\");
    reveal_strlit("docker://");
    reveal_strlit("#");
    let (v, o, r) = fix_target(line, ctx)->0;
    let (p0, mode) = crate::workflow::lemma_uses_layout(line);
    let w0 = line.skip(p0);
    assert(uses_value_spec(line) == Some(v));
    // The value, its end, and what it holds.
    let k: int = if mode == 0 {
        crate::workflow::value_end(w0, 0)
    } else {
        index_of(w0, quote_of(mode), 0)
    };
    if mode == 0 {
        crate::workflow::lemma_value_end_all(w0, 0);
    } else {
        crate::text::lemma_index_of(w0, quote_of(mode), 0);
    }
    assert(v == w0.take(k));
    assert(0 < k <= w0.len());
    assert(mode != 0 ==> k < w0.len());
    assert(forall|q: int| 0 <= q < v.len() ==> #[trigger] v[q] == line[p0 + q]);
    // `v` splits at its first `@`.
    let j = index_of(v, '@', 0);
    crate::text::lemma_index_of(v, '@', 0);
    assert(crate::text::split_once(v, '@') is Some);
    assert(o == v.take(j));
    assert(r == v.skip(j + 1));
    assert(j < v.len() && v[j] == '@');
    // The value is found where it stands.
    assert(crate::text::occurs_at(line, v, p0)) by {
        assert(line.subrange(p0, p0 + v.len()) =~= v);
    }
    assert forall|k2: int| 0 <= k2 < p0 implies !crate::text::occurs_at(line, v, k2) by {
        if crate::text::occurs_at(line, v, k2) {
            assert(line.subrange(k2, k2 + v.len())[j] == line[k2 + j]);
            assert(line[k2 + j] == '@');
            assert(k2 + j >= p0);
            let q = p0 - 1 - k2;
            assert(line.subrange(k2, k2 + v.len())[q] == line[p0 - 1]);
            assert(v[q] == line[p0 - 1]);
            assert(v[q] == w0[q]);
        }
    }
    lemma_first_occurrence(line, v, p0);
    // The rewritten line.
    let nv = o + "@"@ + sha;
    let rest = line.skip(p0 + v.len());
    let cm: Seq<char> = if rest.contains('#') {
        Seq::empty()
    } else {
        " # "@ + r
    };
    reveal_strlit(" # ");
    let nl = line.take(p0) + nv + rest + cm;
    assert(rewrite_spec(line, v, o, r, sha) == Some((nl, v, nv)));
    let w = nv + rest + cm;
    assert(nl =~= line.take(p0) + w);
    assert(nv.len() == o.len() + 1 + sha.len());
    assert(nv[o.len() as int] == '@');
    assert(forall|q: int| 0 <= q < o.len() ==> #[trigger] nv[q] == v[q]);
    if mode == 0 {
        if o.len() > 0 {
            assert(w[0] == v[0]);
        } else {
            assert(w[0] == '@' && v[0] == '@');
        }
        assert(w[0] == line[p0]);
    }
    assert(uses_value_spec(nl) == crate::workflow::scalar_tail(mode, w));
    // The new value is read back whole.
    assert(forall|q: int| 0 <= q < rest.len() ==> #[trigger] rest[q] == w0[k + q]);
    if mode == 0 {
        assert forall|q: int| 0 <= q < nv.len() implies !is_ws(#[trigger] w[q]) && w[q] != '#' by {
            assert(w[q] == nv[q]);
            if q < o.len() {
                assert(nv[q] == v[q]);
                assert(v[q] == w0[q]);
            } else if q > o.len() {
                assert(nv[q] == sha[q - o.len() - 1]);
                assert(crate::text::is_ascii_hex(sha[q - o.len() - 1]));
            }
        }
        if rest.len() > 0 {
            assert(w[nv.len() as int] == rest[0]);
            assert(rest[0] == w0[k]);
        } else if cm.len() > 0 {
            assert(w[nv.len() as int] == ' ');
        }
        crate::workflow::lemma_value_end_at(w, 0, nv.len() as int);
    } else {
        let qc = quote_of(mode);
        assert forall|q: int| 0 <= q < nv.len() implies #[trigger] w[q] != qc by {
            assert(w[q] == nv[q]);
            if q < o.len() {
                assert(nv[q] == v[q]);
                assert(v[q] == w0[q]);
            } else if q > o.len() {
                assert(nv[q] == sha[q - o.len() - 1]);
                assert(crate::text::is_ascii_hex(sha[q - o.len() - 1]));
            }
        }
        assert(rest.len() > 0);
        assert(w[nv.len() as int] == rest[0]);
        assert(rest[0] == w0[k]);
        crate::text::lemma_index_of_at(w, qc, 0, nv.len() as int);
    }
    assert(w.take(nv.len() as int) =~= nv);
    assert(uses_value_spec(nl) == Some(nv));
    // And it is a commit SHA.
    assert(v.take(o.len() as int) =~= o);
    assert(nv.take(o.len() as int) =~= o);
    assert(!starts_with(v, "./"@) && !starts_with(v, ".\\"@) && !starts_with(v, "docker://"@));
    lemma_not_local(v, nv, o, "./"@);
    lemma_not_local(v, nv, o, ".\\"@);
    lemma_not_local(v, nv, o, "docker://"@);
    assert forall|q: int| 0 <= q < o.len() implies #[trigger] nv[q] != '@' by {
        assert(nv[q] == v[q]);
    }
    crate::text::lemma_index_of_at(nv, '@', 0, o.len() as int);
    assert(nv.take(o.len() as int) =~= o);
    assert(nv.skip(o.len() as int + 1) =~= sha);
    assert(parse_spec(nv) == UsesRefV::Repository { owner_repo: o, git_ref: Some(RefKindV::CommitSha(sha)) });
}

} // verus!
