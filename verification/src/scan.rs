//! Scanning a repository's workflows, once they have been read: the offline
//! rules over every file, and the findings in a fixed order.
use vstd::prelude::*;
use crate::github_facts::{Answer, GithubFacts};
use crate::rules::{
    check_lock_spec, check_r10_spec, check_r1_spec, check_r2_spec, check_r3_spec, check_r4_spec,
    check_r5_spec, check_r6_spec, check_r7_spec, check_r8_spec, check_r9_spec, concat, somes,
    Finding, FindingV, Suppressed, SuppressedV,
};
use crate::suppress::DirectiveV;
use crate::sorted::{lex_less, lex_lt};
use crate::text::{chars_of, string_of};
use crate::trust::{TrustContext, TrustContextV};
use crate::workflow::{image_refs_spec, uses_entries_spec, workflow_spec};
use crate::{ScanResult, ScanResultV};

verus! {

/// Whether `a` comes strictly before `b` in the order of a report: by file,
/// then line, then rule.
pub open spec fn finding_before(a: FindingV, b: FindingV) -> bool {
    ||| lex_lt(a.file, b.file)
    ||| (a.file == b.file && a.line < b.line)
    ||| (a.file == b.file && a.line == b.line && lex_lt(a.rule, b.rule))
}

/// The first index at or after `i` whose finding comes strictly after `x`.
pub open spec fn place_of(s: Seq<FindingV>, x: FindingV, i: int) -> int
    decreases s.len() - i,
{
    if 0 <= i < s.len() && !finding_before(x, s[i]) {
        place_of(s, x, i + 1)
    } else {
        i
    }
}

/// `x` put after every finding of `s` that does not come after it.
pub open spec fn insert_finding(s: Seq<FindingV>, x: FindingV) -> Seq<FindingV> {
    s.insert(place_of(s, x, 0), x)
}

/// The findings in report order; findings with the same file, line and rule
/// keep their order (a stable sort).
pub open spec fn sort_findings_spec(s: Seq<FindingV>) -> Seq<FindingV>
    decreases s.len(),
{
    if s.len() == 0 {
        s
    } else {
        insert_finding(sort_findings_spec(s.drop_last()), s.last())
    }
}

proof fn lemma_place_of(s: Seq<FindingV>, x: FindingV, i: int)
    requires
        0 <= i <= s.len(),
    ensures
        i <= place_of(s, x, i) <= s.len(),
    decreases s.len() - i,
{
    if i < s.len() && !finding_before(x, s[i]) {
        lemma_place_of(s, x, i + 1);
    }
}

/// No finding comes strictly before one that precedes it.
pub open spec fn in_report_order(s: Seq<FindingV>) -> bool {
    forall|i: int, j: int| 0 <= i < j < s.len() ==> !finding_before(#[trigger] s[j], #[trigger] s[i])
}

proof fn lemma_before_irrefl(a: FindingV)
    ensures
        !finding_before(a, a),
{
    crate::sorted::lemma_lex_irrefl(a.file);
    crate::sorted::lemma_lex_irrefl(a.rule);
}

proof fn lemma_before_trans(a: FindingV, b: FindingV, c: FindingV)
    requires
        finding_before(a, b),
        finding_before(b, c),
    ensures
        finding_before(a, c),
{
    if lex_lt(a.file, b.file) && lex_lt(b.file, c.file) {
        crate::sorted::lemma_lex_trans(a.file, b.file, c.file);
    }
    if a.file == b.file && b.file == c.file && a.line == b.line && b.line == c.line && lex_lt(
        a.rule,
        b.rule,
    ) && lex_lt(b.rule, c.rule) {
        crate::sorted::lemma_lex_trans(a.rule, b.rule, c.rule);
    }
}

proof fn lemma_place_of_before(s: Seq<FindingV>, x: FindingV, i: int)
    requires
        0 <= i <= s.len(),
    ensures
        forall|k: int| i <= k < place_of(s, x, i) ==> !finding_before(x, #[trigger] s[k]),
        place_of(s, x, i) < s.len() ==> finding_before(x, s[place_of(s, x, i)]),
    decreases s.len() - i,
{
    if i < s.len() && !finding_before(x, s[i]) {
        lemma_place_of_before(s, x, i + 1);
    }
}

proof fn lemma_insert_in_order(s: Seq<FindingV>, x: FindingV)
    requires
        in_report_order(s),
    ensures
        in_report_order(insert_finding(s, x)),
        insert_finding(s, x).to_multiset() == s.to_multiset().insert(x),
{
    let p = place_of(s, x, 0);
    lemma_place_of(s, x, 0);
    lemma_place_of_before(s, x, 0);
    let t = s.insert(p, x);
    assert forall|i: int, j: int| 0 <= i < j < t.len() implies !finding_before(
        #[trigger] t[j],
        #[trigger] t[i],
    ) by {
        if j == p {
            assert(t[i] == s[i]);
        } else if i == p {
            assert(t[j] == s[j - 1]);
            if finding_before(s[j - 1], x) {
                lemma_before_trans(s[j - 1], x, s[p]);
                if j - 1 == p {
                    lemma_before_irrefl(s[p]);
                }
            }
        } else if j < p {
            assert(t[i] == s[i] && t[j] == s[j]);
        } else if i < p {
            assert(t[i] == s[i] && t[j] == s[j - 1]);
        } else {
            assert(t[i] == s[i - 1] && t[j] == s[j - 1]);
        }
    }
    vstd::seq_lib::to_multiset_insert(s, p, x);
}

/// Sorting findings puts them in report order (by file, then line, then
/// rule) and keeps every one of them: the result holds the same findings, as
/// many times each.
pub proof fn sorted_findings_are_in_order(s: Seq<FindingV>)
    ensures
        in_report_order(sort_findings_spec(s)),
        sort_findings_spec(s).to_multiset() == s.to_multiset(),
    decreases s.len(),
{
    if s.len() == 0 {
        assert(s.to_multiset() =~= vstd::multiset::Multiset::<FindingV>::empty()) by {
            vstd::seq_lib::to_multiset_len(s);
        }
        vstd::seq_lib::to_multiset_len(sort_findings_spec(s));
    } else {
        let d = s.drop_last();
        sorted_findings_are_in_order(d);
        lemma_insert_in_order(sort_findings_spec(d), s.last());
        assert(d.push(s.last()) =~= s);
        vstd::seq_lib::to_multiset_build(d, s.last());
    }
}

fn before(a: &Finding, b: &Finding) -> (r: bool)
    ensures
        r == finding_before(a.deep_view(), b.deep_view()),
{
    let af = chars_of(a.file.as_str());
    let bf = chars_of(b.file.as_str());
    if lex_less(&af, &bf) {
        return true;
    }
    if !crate::text::vec_eq(&af, &bf) {
        return false;
    }
    if a.line < b.line {
        return true;
    }
    if a.line != b.line {
        return false;
    }
    let ar = chars_of(a.rule);
    let br = chars_of(b.rule);
    lex_less(&ar, &br)
}

/// Sorts findings by file, line and rule, keeping the order of equal keys.
pub fn sort_findings(v: Vec<Finding>) -> (r: Vec<Finding>)
    ensures
        r.deep_view() == sort_findings_spec(v.deep_view()),
{
    let ghost vv = v.deep_view();
    let mut out: Vec<Finding> = Vec::new();
    let mut rest = v;
    let n = rest.len();
    assert(rest.deep_view() =~= vv.skip(0));
    let mut i: usize = 0;
    while i < n
        invariant
            n == vv.len(),
            rest.deep_view() == vv.skip(i as int),
            i <= n,
            out.deep_view() == sort_findings_spec(vv.take(i as int)),
        decreases n - i,
    {
        assert(rest.deep_view().len() == rest@.len());
        assert(rest.deep_view()[0] == vv[i as int]);
        assert(rest.deep_view()[0] == rest@[0].deep_view());
        let ghost before_rest = rest@;
        let x = rest.remove(0);
        assert(rest@ =~= before_rest.skip(1));
        assert forall|k: int| 0 <= k < rest@.len() implies #[trigger] rest.deep_view()[k]
            == vv[i + 1 + k] by {
            assert(rest.deep_view()[k] == rest@[k].deep_view());
            assert(rest@[k] == before_rest[k + 1]);
            assert(vv.skip(i as int)[k + 1] == vv[i + 1 + k]);
        }
        proof {
            assert(x.deep_view() == vv[i as int]);
            assert(rest.deep_view() =~= vv.skip(i as int + 1));
            assert(vv.take(i as int + 1).drop_last() =~= vv.take(i as int));
            assert(vv.take(i as int + 1).last() == vv[i as int]);
        }
        let ghost ov = out.deep_view();
        let mut p: usize = 0;
        while p < out.len() && !before(&x, &out[p])
            invariant
                ov == out.deep_view(),
                p <= ov.len(),
                place_of(ov, x.deep_view(), 0) == place_of(ov, x.deep_view(), p as int),
            decreases ov.len() - p,
        {
            p = p + 1;
        }
        proof {
            lemma_place_of(ov, x.deep_view(), p as int);
        }
        out.insert(p, x);
        assert(out.deep_view() =~= ov.insert(p as int, vv[i as int]));
        i = i + 1;
    }
    assert(vv.take(n as int) =~= vv);
    out
}

// ------------------------------------------------------------------
// Scanning
// ------------------------------------------------------------------
/// What a scan may look up, and the cooldown of R10.
pub struct ScanOptions<'a, F> {
    /// Where facts about GitHub come from; `None` scans offline.
    pub facts: Option<&'a F>,
    /// The cooldown of R10 in days; 7 when not given.
    pub cooldown_days: Option<u32>,
}

pub const DEFAULT_COOLDOWN_DAYS: u32 = 7;

/// The cooldown asked for, or the default.
pub open spec fn cooldown_of(days: Option<u32>) -> u32 {
    match days {
        Some(d) => d,
        None => DEFAULT_COOLDOWN_DAYS,
    }
}

/// The answers the lookups gave while one file was checked.
pub struct FileAnswers {
    pub r2: Seq<(Answer<usize>, Answer<usize>)>,
    pub r5: Seq<Answer<bool>>,
    pub r10: Seq<Answer<i64>>,
    pub lock: Seq<Answer<Seq<char>>>,
}

/// The findings of every rule on one workflow file. R5 and R10 run only
/// online; LOCK runs when there is a shield.lock. Last come the notices for
/// ignore comments that give no reason.
pub open spec fn file_findings(
    file: Seq<char>,
    content: Seq<char>,
    ctx: TrustContextV,
    online: bool,
    lock: Option<Seq<(Seq<char>, Seq<char>)>>,
    cooldown_days: u32,
    now: i64,
    a: FileAnswers,
) -> Seq<FindingV> {
    let es = uses_entries_spec(content);
    let doc = workflow_spec(content);
    let db = crate::advisory::parse_spec(crate::advisory::BUNDLED@);
    check_r1_spec(file, es, ctx) + check_r2_spec(file, es, ctx, online, a.r2) + check_r3_spec(
        file,
        doc,
    ) + check_r4_spec(file, es, image_refs_spec(content)) + (if online {
        check_r5_spec(file, es, ctx, a.r5)
    } else {
        Seq::empty()
    }) + check_r6_spec(file, doc, ctx) + check_r7_spec(file, doc) + check_r8_spec(file, doc)
        + check_r9_spec(file, es, db) + (if online {
        check_r10_spec(file, es, ctx, cooldown_days, now, a.r10)
    } else {
        Seq::empty()
    }) + match lock {
        Some(l) => check_lock_spec(file, es, l, online, ctx, a.lock),
        None => Seq::empty(),
    } + crate::suppress::no_reason_notices(file, crate::suppress::parse_spec(content))
}

/// The directives of the first source named `file`.
pub open spec fn directives_for(sources: Seq<(Seq<char>, Seq<char>)>, file: Seq<char>, i: int) -> Seq<
    DirectiveV,
>
    decreases sources.len() - i,
{
    if i < 0 || i >= sources.len() {
        Seq::empty()
    } else if sources[i].0 == file {
        crate::suppress::parse_spec(sources[i].1)
    } else {
        directives_for(sources, file, i + 1)
    }
}

/// The reason of the first directive that ignores this finding: one that
/// targets its line, names its rule and gives a reason.
pub open spec fn ignore_reason(dirs: Seq<DirectiveV>, f: FindingV, i: int) -> Option<Seq<char>>
    decreases dirs.len() - i,
{
    if i < 0 || i >= dirs.len() {
        None
    } else if dirs[i].target_line == Some(f.line) && dirs[i].rules.contains(f.rule)
        && dirs[i].reason is Some {
        dirs[i].reason
    } else {
        ignore_reason(dirs, f, i + 1)
    }
}

pub open spec fn reason_in(sources: Seq<(Seq<char>, Seq<char>)>, f: FindingV) -> Option<Seq<char>> {
    ignore_reason(directives_for(sources, f.file, 0), f, 0)
}

/// Every finding of every file, in report order, before ignore comments are
/// looked at.
pub open spec fn all_findings_spec(
    sources: Seq<(Seq<char>, Seq<char>)>,
    ctx: TrustContextV,
    online: bool,
    lock: Option<Seq<(Seq<char>, Seq<char>)>>,
    cooldown_days: u32,
    now: i64,
    answers: Seq<FileAnswers>,
) -> Seq<FindingV> {
    sort_findings_spec(
        concat(
            Seq::new(
                sources.len(),
                |i: int|
                    file_findings(
                        sources[i].0,
                        sources[i].1,
                        ctx,
                        online,
                        lock,
                        cooldown_days,
                        now,
                        answers[i],
                    ),
            ),
        ),
    )
}

/// The findings that no ignore comment accepts, in their order.
pub open spec fn kept_findings(all: Seq<FindingV>, rf: spec_fn(FindingV) -> Option<Seq<char>>) -> Seq<
    FindingV,
> {
    somes(
        all.map_values(
            |f: FindingV|
                if rf(f) is None {
                    Some(f)
                } else {
                    None
                },
        ),
    )
}

/// The findings that an ignore comment accepts, each with its reason, in
/// their order.
pub open spec fn set_apart(all: Seq<FindingV>, rf: spec_fn(FindingV) -> Option<Seq<char>>) -> Seq<
    SuppressedV,
> {
    somes(
        all.map_values(
            |f: FindingV|
                match rf(f) {
                    Some(r) => Some(SuppressedV { finding: f, reason: r }),
                    None => None,
                },
        ),
    )
}

/// The result of scanning workflow files given as (path relative to the
/// repository root, content), for the answers the lookups gave: the findings
/// of every file in report order, those that an ignore comment with a reason
/// accepts set apart with that reason.
pub open spec fn scan_spec(
    sources: Seq<(Seq<char>, Seq<char>)>,
    ctx: TrustContextV,
    online: bool,
    lock: Option<Seq<(Seq<char>, Seq<char>)>>,
    cooldown_days: u32,
    now: i64,
    answers: Seq<FileAnswers>,
) -> ScanResultV {
    let all = all_findings_spec(sources, ctx, online, lock, cooldown_days, now, answers);
    ScanResultV {
        workflows_scanned: sources.len() as usize,
        findings: kept_findings(all, |f: FindingV| reason_in(sources, f)),
        suppressed: set_apart(all, |f: FindingV| reason_in(sources, f)),
        online_rules_skipped: !online,
    }
}

proof fn lemma_set_apart(all: Seq<FindingV>, rf: spec_fn(FindingV) -> Option<Seq<char>>)
    ensures
        kept_findings(all, rf).to_multiset().add(
            set_apart(all, rf).map_values(|s: SuppressedV| s.finding).to_multiset(),
        ) =~= all.to_multiset(),
        forall|k: int| 0 <= k < kept_findings(all, rf).len() ==> rf(#[trigger] kept_findings(all, rf)[k]) is None,
        forall|k: int|
            0 <= k < set_apart(all, rf).len() ==> rf((#[trigger] set_apart(all, rf)[k]).finding) == Some(
                set_apart(all, rf)[k].reason,
            ),
    decreases all.len(),
{
    broadcast use vstd::multiset::group_multiset_axioms;

    let kc = |f: FindingV|
        if rf(f) is None {
            Some(f)
        } else {
            None
        };
    let sc = |f: FindingV|
        match rf(f) {
            Some(r) => Some(SuppressedV { finding: f, reason: r }),
            None => None,
        };
    let fin = |s: SuppressedV| s.finding;
    if all.len() == 0 {
        assert(all.map_values(kc) =~= Seq::<Option<FindingV>>::empty());
        assert(all.map_values(sc) =~= Seq::<Option<SuppressedV>>::empty());
        vstd::seq_lib::to_multiset_len(all);
        vstd::seq_lib::to_multiset_len(kept_findings(all, rf));
        vstd::seq_lib::to_multiset_len(set_apart(all, rf).map_values(fin));
        assert(all.to_multiset() =~= vstd::multiset::Multiset::<FindingV>::empty());
    } else {
        let d = all.drop_last();
        let x = all.last();
        lemma_set_apart(d, rf);
        assert(all.map_values(kc).drop_last() =~= d.map_values(kc));
        assert(all.map_values(sc).drop_last() =~= d.map_values(sc));
        let kd = kept_findings(d, rf);
        let ad = set_apart(d, rf);
        let k = kept_findings(all, rf);
        let a = set_apart(all, rf);
        assert(d.push(x) =~= all);
        vstd::seq_lib::to_multiset_build(d, x);
        if rf(x) is None {
            assert(k =~= kd.push(x));
            assert(a =~= ad);
            vstd::seq_lib::to_multiset_build(kd, x);
            assert(k.to_multiset().add(a.map_values(fin).to_multiset()) =~= all.to_multiset());
            assert forall|j: int| 0 <= j < k.len() implies rf(#[trigger] k[j]) is None by {
                if j < kd.len() {
                    assert(k[j] == kd[j]);
                }
            }
        } else {
            let sx = SuppressedV { finding: x, reason: rf(x)->0 };
            assert(k =~= kd);
            assert(a =~= ad.push(sx));
            assert(a.map_values(fin) =~= ad.map_values(fin).push(x));
            vstd::seq_lib::to_multiset_build(ad.map_values(fin), x);
            assert(k.to_multiset().add(a.map_values(fin).to_multiset()) =~= all.to_multiset());
            assert forall|j: int| 0 <= j < a.len() implies rf((#[trigger] a[j]).finding) == Some(a[j].reason) by {
                if j < ad.len() {
                    assert(a[j] == ad[j]);
                }
            }
        }
    }
}

proof fn lemma_kept_in_order(all: Seq<FindingV>, rf: spec_fn(FindingV) -> Option<Seq<char>>)
    requires
        in_report_order(all),
    ensures
        in_report_order(kept_findings(all, rf)),
        forall|k: int|
            0 <= k < kept_findings(all, rf).len() ==> exists|i: int|
                0 <= i < all.len() && all[i] == #[trigger] kept_findings(all, rf)[k],
    decreases all.len(),
{
    let kc = |f: FindingV|
        if rf(f) is None {
            Some(f)
        } else {
            None
        };
    if all.len() > 0 {
        let d = all.drop_last();
        let x = all.last();
        assert(in_report_order(d)) by {
            assert forall|i: int, j: int| 0 <= i < j < d.len() implies !finding_before(
                #[trigger] d[j],
                #[trigger] d[i],
            ) by {
                assert(d[i] == all[i] && d[j] == all[j]);
            }
        }
        lemma_kept_in_order(d, rf);
        assert(all.map_values(kc).drop_last() =~= d.map_values(kc));
        let kd = kept_findings(d, rf);
        let k = kept_findings(all, rf);
        if rf(x) is None {
            assert(k =~= kd.push(x));
            assert forall|a: int, b: int| 0 <= a < b < k.len() implies !finding_before(
                #[trigger] k[b],
                #[trigger] k[a],
            ) by {
                if b < kd.len() {
                    assert(k[a] == kd[a] && k[b] == kd[b]);
                } else {
                    assert(k[a] == kd[a]);
                    let m = choose|m: int| 0 <= m < d.len() && d[m] == #[trigger] kd[a];
                    assert(all[m] == d[m]);
                    assert(all[all.len() - 1] == x);
                }
            }
            assert forall|q: int| 0 <= q < k.len() implies exists|i: int|
                0 <= i < all.len() && all[i] == #[trigger] k[q] by {
                if q < kd.len() {
                    assert(k[q] == kd[q]);
                    let m = choose|m: int| 0 <= m < d.len() && d[m] == #[trigger] kd[q];
                    assert(all[m] == d[m]);
                } else {
                    assert(all[all.len() - 1] == k[q]);
                }
            }
        } else {
            assert(k =~= kd);
            assert forall|q: int| 0 <= q < k.len() implies exists|i: int|
                0 <= i < all.len() && all[i] == #[trigger] k[q] by {
                let m = choose|m: int| 0 <= m < d.len() && d[m] == #[trigger] kd[q];
                assert(all[m] == d[m]);
            }
        }
    } else {
        assert(all.map_values(kc) =~= Seq::<Option<FindingV>>::empty());
    }
}

/// A scan reports its findings in report order (by file, line and rule),
/// counts the workflow files it was given, and says whether the online rules
/// were skipped.
pub proof fn scan_results_are_ordered_and_counted(
    sources: Seq<(Seq<char>, Seq<char>)>,
    ctx: TrustContextV,
    online: bool,
    lock: Option<Seq<(Seq<char>, Seq<char>)>>,
    cooldown_days: u32,
    now: i64,
    answers: Seq<FileAnswers>,
)
    requires
        sources.len() <= usize::MAX,
    ensures
        in_report_order(scan_spec(sources, ctx, online, lock, cooldown_days, now, answers).findings),
        scan_spec(sources, ctx, online, lock, cooldown_days, now, answers).workflows_scanned == sources.len(),
        scan_spec(sources, ctx, online, lock, cooldown_days, now, answers).online_rules_skipped == !online,
{
    let all = all_findings_spec(sources, ctx, online, lock, cooldown_days, now, answers);
    let c = concat(
        Seq::new(
            sources.len(),
            |i: int| file_findings(sources[i].0, sources[i].1, ctx, online, lock, cooldown_days, now, answers[i]),
        ),
    );
    sorted_findings_are_in_order(c);
    lemma_kept_in_order(all, |f: FindingV| reason_in(sources, f));
}

/// An ignore comment hides nothing: every finding of a scan is either
/// reported or set apart with its reason, none is lost and none is added, a
/// reported finding is one that no ignore comment accepts, and one set apart
/// carries the reason of the comment that accepts it.
pub proof fn ignored_findings_are_set_apart_not_dropped(
    sources: Seq<(Seq<char>, Seq<char>)>,
    ctx: TrustContextV,
    online: bool,
    lock: Option<Seq<(Seq<char>, Seq<char>)>>,
    cooldown_days: u32,
    now: i64,
    answers: Seq<FileAnswers>,
)
    ensures
        ({
            let r = scan_spec(sources, ctx, online, lock, cooldown_days, now, answers);
            let all = all_findings_spec(sources, ctx, online, lock, cooldown_days, now, answers);
            &&& r.findings.to_multiset().add(
                r.suppressed.map_values(|s: SuppressedV| s.finding).to_multiset(),
            ) == all.to_multiset()
            &&& forall|k: int| 0 <= k < r.findings.len() ==> reason_in(sources, #[trigger] r.findings[k]) is None
            &&& forall|k: int|
                0 <= k < r.suppressed.len() ==> reason_in(sources, (#[trigger] r.suppressed[k]).finding)
                    == Some(r.suppressed[k].reason)
        }),
{
    let all = all_findings_spec(sources, ctx, online, lock, cooldown_days, now, answers);
    let rf = |f: FindingV| reason_in(sources, f);
    lemma_set_apart(all, rf);
}

/// An ignore comment accepts a finding only on the line it targets, only for
/// the rules it names, and only when it gives a reason: a finding has an
/// ignore reason exactly when one of its file's comments is such a comment,
/// and the reason is that comment's.
pub proof fn ignores_apply_only_to_their_line_and_rules(sources: Seq<(Seq<char>, Seq<char>)>, f: FindingV)
    ensures
        ({
            let dirs = directives_for(sources, f.file, 0);
            &&& reason_in(sources, f) is Some <==> exists|i: int|
                0 <= i < dirs.len() && (#[trigger] dirs[i]).target_line == Some(f.line)
                    && dirs[i].rules.contains(f.rule) && dirs[i].reason is Some
            &&& reason_in(sources, f) is Some ==> exists|i: int|
                0 <= i < dirs.len() && (#[trigger] dirs[i]).target_line == Some(f.line)
                    && dirs[i].rules.contains(f.rule) && dirs[i].reason == reason_in(sources, f)
        }),
{
    lemma_ignore_reason(directives_for(sources, f.file, 0), f, 0);
}

proof fn lemma_ignore_reason(dirs: Seq<DirectiveV>, f: FindingV, i: int)
    requires
        0 <= i,
    ensures
        ignore_reason(dirs, f, i) is Some <==> exists|j: int|
            i <= j < dirs.len() && (#[trigger] dirs[j]).target_line == Some(f.line)
                && dirs[j].rules.contains(f.rule) && dirs[j].reason is Some,
        ignore_reason(dirs, f, i) is Some ==> exists|j: int|
            i <= j < dirs.len() && (#[trigger] dirs[j]).target_line == Some(f.line)
                && dirs[j].rules.contains(f.rule) && dirs[j].reason == ignore_reason(dirs, f, i),
    decreases dirs.len() - i,
{
    if i < dirs.len() {
        lemma_ignore_reason(dirs, f, i + 1);
        if dirs[i].target_line == Some(f.line) && dirs[i].rules.contains(f.rule) && dirs[i].reason is Some {
            assert(dirs[i].target_line == Some(f.line));
        } else {
            assert forall|j: int|
                i <= j < dirs.len() && (#[trigger] dirs[j]).target_line == Some(f.line)
                    && dirs[j].rules.contains(f.rule) && dirs[j].reason is Some implies i + 1 <= j by {
                if j == i {
                    assert(false);
                }
            }
        }
    }
}

pub open spec fn sources_view(v: Seq<(String, String)>) -> Seq<(Seq<char>, Seq<char>)> {
    v.map_values(|s: (String, String)| (s.0@, s.1@))
}

pub open spec fn lock_view(l: Option<&crate::lockfile::Lockfile>) -> Option<Seq<(Seq<char>, Seq<char>)>> {
    match l {
        Some(x) => Some(x.view()),
        None => None,
    }
}

fn append_findings(out: &mut Vec<Finding>, more: Vec<Finding>)
    ensures
        final(out).deep_view() == old(out).deep_view() + more.deep_view(),
{
    let ghost b = out.deep_view();
    let ghost m = more.deep_view();
    let mut more = more;
    out.append(&mut more);
    assert(out.deep_view() =~= b + m);
}

#[verifier::rlimit(40)]
fn findings_of_file<F: GithubFacts>(
    file: &str,
    content: &str,
    ctx: &TrustContext,
    facts: Option<&F>,
    lockfile: Option<&crate::lockfile::Lockfile>,
    db: &crate::advisory::AdvisoryDb,
    cooldown_days: u32,
    now: i64,
) -> (r: Vec<Finding>)
    requires
        db.entries_view() == crate::advisory::parse_spec(crate::advisory::BUNDLED@),
    ensures
        exists|a: FileAnswers|
            r.deep_view() == #[trigger] file_findings(
                file@,
                content@,
                ctx@,
                facts is Some,
                lock_view(lockfile),
                cooldown_days,
                now,
                a,
            ),
{
    let entries = crate::workflow::extract_uses_entries(content);
    let doc = crate::workflow::parse_workflow(content);
    let images = crate::workflow::extract_image_refs(content);
    let ghost es = entries.deep_view();
    let ghost online = facts is Some;
    let mut out = crate::rules::check_r1(file, entries.as_slice(), ctx);
    let f2 = crate::rules::check_r2(file, entries.as_slice(), ctx, facts);
    let ghost a2 = choose|x: Seq<(Answer<usize>, Answer<usize>)>|
        x.len() == es.len() && f2.deep_view() == #[trigger] check_r2_spec(file@, es, ctx@, online, x);
    append_findings(&mut out, f2);
    append_findings(&mut out, crate::rules::check_r3(file, &doc));
    append_findings(&mut out, crate::rules::check_r4(file, entries.as_slice(), images.as_slice()));
    let ghost mut a5: Seq<Answer<bool>> = Seq::empty();
    match facts {
        Some(fa) => {
            let f5 = crate::rules::check_r5(file, entries.as_slice(), fa, ctx);
            proof {
                a5 = choose|x: Seq<Answer<bool>>|
                    x.len() == es.len() && f5.deep_view() == check_r5_spec(file@, es, ctx@, x);
            }
            append_findings(&mut out, f5);
        },
        None => {},
    }
    append_findings(&mut out, crate::rules::check_r6(file, &doc, ctx));
    append_findings(&mut out, crate::rules::check_r7(file, &doc));
    append_findings(&mut out, crate::rules::check_r8(file, &doc));
    append_findings(&mut out, crate::rules::check_r9(file, entries.as_slice(), db));
    let ghost mut a10: Seq<Answer<i64>> = Seq::empty();
    match facts {
        Some(fa) => {
            let f10 = crate::rules::check_r10(file, entries.as_slice(), fa, ctx, cooldown_days, now);
            proof {
                a10 = choose|x: Seq<Answer<i64>>|
                    x.len() == es.len() && f10.deep_view() == check_r10_spec(
                        file@,
                        es,
                        ctx@,
                        cooldown_days,
                        now,
                        x,
                    );
            }
            append_findings(&mut out, f10);
        },
        None => {},
    }
    let ghost mut al: Seq<Answer<Seq<char>>> = Seq::empty();
    match lockfile {
        Some(l) => {
            let fl = crate::rules::check_lock(file, entries.as_slice(), l, facts, ctx);
            proof {
                al = choose|x: Seq<Answer<Seq<char>>>|
                    x.len() == es.len() && fl.deep_view() == #[trigger] check_lock_spec(
                        file@,
                        es,
                        l.view(),
                        online,
                        ctx@,
                        x,
                    );
            }
            append_findings(&mut out, fl);
        },
        None => {},
    }
    let dirs = crate::suppress::parse(content);
    append_findings(&mut out, crate::suppress::no_reason_findings(file, &dirs));
    let ghost a = FileAnswers { r2: a2, r5: a5, r10: a10, lock: al };
    assert(out.deep_view() =~= file_findings(
        file@,
        content@,
        ctx@,
        online,
        lock_view(lockfile),
        cooldown_days,
        now,
        a,
    ));
    out
}

fn names_rule(rules: &Vec<String>, rule: &str) -> (b: bool)
    ensures
        b == rules.deep_view().contains(rule@),
{
    let ghost rv = rules.deep_view();
    let mut i: usize = 0;
    while i < rules.len()
        invariant
            rv == rules.deep_view(),
            i <= rv.len(),
            forall|k: int| 0 <= k < i ==> rv[k] != rule@,
        decreases rv.len() - i,
    {
        if crate::text::str_eq(rules[i].as_str(), rule) {
            assert(rv[i as int] == rule@);
            return true;
        }
        i = i + 1;
    }
    false
}

fn ignore_reason_exec(dirs: &Vec<crate::suppress::Directive>, f: &Finding) -> (r: Option<String>)
    ensures
        r.deep_view() == ignore_reason(dirs.deep_view(), f.deep_view(), 0),
{
    let ghost dv = dirs.deep_view();
    let mut i: usize = 0;
    while i < dirs.len()
        invariant
            dv == dirs.deep_view(),
            i <= dv.len(),
            ignore_reason(dv, f.deep_view(), 0) == ignore_reason(dv, f.deep_view(), i as int),
        decreases dv.len() - i,
    {
        let d = &dirs[i];
        assert(d.deep_view() == dv[i as int]);
        let on_line = match d.target_line {
            Some(t) => t == f.line,
            None => false,
        };
        if on_line && names_rule(&d.rules, f.rule) {
            match &d.reason {
                Some(why) => {
                    return Some(string_of(&chars_of(why.as_str())));
                },
                None => {},
            }
        }
        i = i + 1;
    }
    None
}

fn directives_index(sources: &Vec<(String, String)>, file: &str) -> (r: Option<usize>)
    ensures
        match r {
            Some(i) => i < sources@.len() && directives_for(sources_view(sources@), file@, 0)
                == crate::suppress::parse_spec(sources@[i as int].1@),
            None => directives_for(sources_view(sources@), file@, 0) == Seq::<DirectiveV>::empty(),
        },
{
    let ghost sv = sources_view(sources@);
    let mut i: usize = 0;
    while i < sources.len()
        invariant
            sv == sources_view(sources@),
            i <= sources@.len(),
            directives_for(sv, file@, 0) == directives_for(sv, file@, i as int),
        decreases sources@.len() - i,
    {
        if crate::text::str_eq(sources[i].0.as_str(), file) {
            return Some(i);
        }
        i = i + 1;
    }
    None
}

/// Scans workflow files that have been read, given as (path relative to the
/// repository root, content): every rule on every file (R5 and R10 only with
/// `facts`, LOCK only with a shield.lock), the findings in report order, and
/// those accepted by an ignore comment with a reason set apart. `now` is the
/// time (unix seconds) that R10 measures ages against. For whatever the
/// lookups answered, the result is [`scan_spec`].
pub fn scan_sources<F: GithubFacts>(
    sources: &Vec<(String, String)>,
    ctx: &TrustContext,
    lockfile: Option<&crate::lockfile::Lockfile>,
    options: &ScanOptions<F>,
    now: i64,
) -> (r: ScanResult)
    ensures
        exists|answers: Seq<FileAnswers>|
            answers.len() == sources@.len() && r.deep_view() == #[trigger] scan_spec(
                sources_view(sources@),
                ctx@,
                options.facts is Some,
                lock_view(lockfile),
                cooldown_of(options.cooldown_days),
                now,
                answers,
            ),
{
    let ghost sv = sources_view(sources@);
    let ghost online = options.facts is Some;
    let ghost lv = lock_view(lockfile);
    let cooldown_days = match options.cooldown_days {
        Some(d) => d,
        None => DEFAULT_COOLDOWN_DAYS,
    };
    let db = crate::advisory::AdvisoryDb::bundled();
    let ghost mut answers: Seq<FileAnswers> = Seq::empty();
    let mut all: Vec<Finding> = Vec::new();
    let mut i: usize = 0;
    while i < sources.len()
        invariant
            sv == sources_view(sources@),
            online == options.facts is Some,
            lv == lock_view(lockfile),
            db.entries_view() == crate::advisory::parse_spec(crate::advisory::BUNDLED@),
            i <= sources@.len(),
            answers.len() == i,
            all.deep_view() == concat(
                Seq::new(
                    i as nat,
                    |q: int|
                        file_findings(sv[q].0, sv[q].1, ctx@, online, lv, cooldown_days, now, answers[q]),
                ),
            ),
        decreases sources@.len() - i,
    {
        let file = sources[i].0.as_str();
        let content = sources[i].1.as_str();
        let more = findings_of_file(file, content, ctx, options.facts, lockfile, &db, cooldown_days, now);
        let ghost a = choose|a: FileAnswers|
            more.deep_view() == #[trigger] file_findings(file@, content@, ctx@, online, lv, cooldown_days, now, a);
        let ghost old_answers = answers;
        let ghost b = all.deep_view();
        let ghost mv = more.deep_view();
        append_findings(&mut all, more);
        proof {
            answers = answers.push(a);
            let s1 = Seq::new(
                (i + 1) as nat,
                |q: int| file_findings(sv[q].0, sv[q].1, ctx@, online, lv, cooldown_days, now, answers[q]),
            );
            let s0 = Seq::new(
                i as nat,
                |q: int| file_findings(sv[q].0, sv[q].1, ctx@, online, lv, cooldown_days, now, old_answers[q]),
            );
            assert(s1.take(i as int) =~= s0);
            crate::rules::lemma_concat_step(s1, i as int);
            assert(s1.take(i as int + 1) =~= s1);
            assert(sv[i as int] == (file@, content@));
            assert(s1[i as int] == mv);
        }
        i = i + 1;
    }
    let sorted = sort_findings(all);
    let ghost srt = sorted.deep_view();
    let mut dirs: Vec<Vec<crate::suppress::Directive>> = Vec::new();
    let mut k: usize = 0;
    while k < sources.len()
        invariant
            k <= sources@.len(),
            dirs@.len() == k,
            forall|q: int| 0 <= q < k ==> (#[trigger] dirs@[q]).deep_view() == crate::suppress::parse_spec(
                sources@[q].1@,
            ),
        decreases sources@.len() - k,
    {
        dirs.push(crate::suppress::parse(sources[k].1.as_str()));
        k = k + 1;
    }
    let ghost kept_m = srt.map_values(
        |f: FindingV|
            if reason_in(sv, f) is None {
                Some(f)
            } else {
                None
            },
    );
    let ghost supp_m = srt.map_values(
        |f: FindingV|
            match reason_in(sv, f) {
                Some(r) => Some(SuppressedV { finding: f, reason: r }),
                None => None,
            },
    );
    let mut rest = sorted;
    let mut findings: Vec<Finding> = Vec::new();
    let mut suppressed: Vec<Suppressed> = Vec::new();
    let n = rest.len();
    assert(rest.deep_view() =~= srt.skip(0));
    let mut j: usize = 0;
    while j < n
        invariant
            n == srt.len(),
            sv == sources_view(sources@),
            dirs@.len() == sources@.len(),
            forall|q: int| 0 <= q < dirs@.len() ==> (#[trigger] dirs@[q]).deep_view() == crate::suppress::parse_spec(
                sources@[q].1@,
            ),
            rest.deep_view() == srt.skip(j as int),
            j <= n,
            kept_m == srt.map_values(
                |f: FindingV|
                    if reason_in(sv, f) is None {
                        Some(f)
                    } else {
                        None
                    },
            ),
            supp_m == srt.map_values(
                |f: FindingV|
                    match reason_in(sv, f) {
                        Some(r) => Some(SuppressedV { finding: f, reason: r }),
                        None => None,
                    },
            ),
            findings.deep_view() == somes(kept_m.take(j as int)),
            suppressed.deep_view() == somes(supp_m.take(j as int)),
        decreases n - j,
    {
        assert(rest.deep_view().len() == rest@.len());
        assert(rest.deep_view()[0] == srt[j as int]);
        assert(rest.deep_view()[0] == rest@[0].deep_view());
        let ghost before_rest = rest@;
        let f = rest.remove(0);
        proof {
            assert(rest@ =~= before_rest.skip(1));
            assert forall|q: int| 0 <= q < rest@.len() implies #[trigger] rest.deep_view()[q]
                == srt[j + 1 + q] by {
                assert(rest.deep_view()[q] == rest@[q].deep_view());
                assert(rest@[q] == before_rest[q + 1]);
                assert(srt.skip(j as int)[q + 1] == srt[j + 1 + q]);
            }
            assert(rest.deep_view() =~= srt.skip(j as int + 1));
            crate::rules::lemma_somes_step(kept_m, j as int);
            crate::rules::lemma_somes_step(supp_m, j as int);
        }
        let ghost fv = f.deep_view();
        let reason = match directives_index(sources, f.file.as_str()) {
            Some(q) => ignore_reason_exec(&dirs[q], &f),
            None => None,
        };
        assert(reason.deep_view() == reason_in(sv, fv));
        let ghost bk = findings.deep_view();
        let ghost bs = suppressed.deep_view();
        match reason {
            Some(why) => {
                suppressed.push(Suppressed { finding: f, reason: why });
                assert(suppressed.deep_view() =~= bs + seq![SuppressedV { finding: fv, reason: why@ }]);
                assert(findings.deep_view() =~= bk + Seq::<FindingV>::empty());
            },
            None => {
                findings.push(f);
                assert(findings.deep_view() =~= bk + seq![fv]);
                assert(suppressed.deep_view() =~= bs + Seq::<SuppressedV>::empty());
            },
        }
        j = j + 1;
    }
    assert(kept_m.take(n as int) =~= kept_m);
    assert(supp_m.take(n as int) =~= supp_m);
    let r = ScanResult {
        workflows_scanned: sources.len(),
        findings,
        suppressed,
        online_rules_skipped: options.facts.is_none(),
    };
    assert(cooldown_days == cooldown_of(options.cooldown_days));
    assert(answers.len() == sources@.len());
    proof {
        let rf = |f: FindingV| reason_in(sv, f);
        assert(srt.map_values(
            |f: FindingV|
                if rf(f) is None {
                    Some(f)
                } else {
                    None
                },
        ) =~= kept_m);
        assert(srt.map_values(
            |f: FindingV|
                match rf(f) {
                    Some(r) => Some(SuppressedV { finding: f, reason: r }),
                    None => None,
                },
        ) =~= supp_m);
        assert(srt == all_findings_spec(sv, ctx@, online, lv, cooldown_days, now, answers));
    }
    assert(r.deep_view() == scan_spec(sv, ctx@, online, lv, cooldown_of(options.cooldown_days), now, answers));
    r
}

} // verus!
