//! The checking rules: mutable references (R1), typosquatting (R2), unverified
//! pipe installs (R3), image digests (R4), impostor commits (R5), secrets next to
//! third-party actions (R6), broad permissions (R7), dangerous triggers (R8),
//! known-bad versions (R9), cooldown (R10) and moved tags (LOCK).
use vstd::prelude::*;
use crate::text::{
    chars_of, contains_str, contains_sub, dec, dec_int, dec_i64, dec_u64, dec_usize, ends_with,
    ends_with_str, extend, extend_str, index_of, index_of_v, is_whitespace, is_ws, lines, lines_v,
    push_chars, skip_ws, skip_ws_from, starts_with, starts_with_str, string_of,
    strip_prefix, strip_prefix_str, subvec, vviews, split_char, split_char_v, first_token,
    first_token_v, eq_str,
};
use crate::trust::{classify_spec, Trust, TrustContext};
use crate::uses_ref::{parse_spec, RefKind, RefKindV, UsesRef, UsesRefV};
use crate::workflow::{JobV, StepV, UsesEntry, UsesEntryV, WorkflowDoc, WorkflowDocV};

verus! {

/// Severity levels. Only fact-based rules may report `High`.
#[derive(Debug, Clone, Copy, PartialEq, Eq, Structural)]
pub enum Severity {
    /// An attack path is open: fails the build.
    High,
    /// Widens the damage: a warning, a failure under `--strict`.
    Medium,
    /// Guidance only: never fails.
    Info,
}

/// One rule violation, always with its evidence and a fix hint.
pub struct Finding {
    pub rule: &'static str,
    pub severity: Severity,
    pub file: String,
    pub line: usize,
    /// The `uses:` value concerned; empty for rules about no reference.
    pub uses: String,
    pub evidence: String,
    pub fix_hint: String,
}

/// A finding accepted by an ignore comment: kept, with its reason.
pub struct Suppressed {
    pub finding: Finding,
    pub reason: String,
}

pub struct FindingV {
    pub rule: Seq<char>,
    pub severity: Severity,
    pub file: Seq<char>,
    pub line: usize,
    pub uses: Seq<char>,
    pub evidence: Seq<char>,
    pub fix_hint: Seq<char>,
}

pub struct SuppressedV {
    pub finding: FindingV,
    pub reason: Seq<char>,
}

impl DeepView for Finding {
    type V = FindingV;

    open spec fn deep_view(&self) -> FindingV {
        FindingV {
            rule: self.rule@,
            severity: self.severity,
            file: self.file@,
            line: self.line,
            uses: self.uses@,
            evidence: self.evidence@,
            fix_hint: self.fix_hint@,
        }
    }
}

impl DeepView for Suppressed {
    type V = SuppressedV;

    open spec fn deep_view(&self) -> SuppressedV {
        SuppressedV { finding: self.finding.deep_view(), reason: self.reason@ }
    }
}

// ------------------------------------------------------------------
// Sequence helpers
// ------------------------------------------------------------------
/// The values held by the `Some`s, in order.
pub open spec fn somes<A>(s: Seq<Option<A>>) -> Seq<A>
    decreases s.len(),
{
    if s.len() == 0 {
        Seq::empty()
    } else {
        somes(s.drop_last()) + match s.last() {
            Some(a) => seq![a],
            None => Seq::empty(),
        }
    }
}

/// The sequences concatenated in order.
pub open spec fn concat<A>(s: Seq<Seq<A>>) -> Seq<A>
    decreases s.len(),
{
    if s.len() == 0 {
        Seq::empty()
    } else {
        concat(s.drop_last()) + s.last()
    }
}

/// Lines each followed by a line break, joined, are the text of those lines.
pub proof fn lemma_concat_lines(xs: Seq<Seq<char>>)
    ensures
        concat(xs.map_values(|x: Seq<char>| x.push('\n'))) == crate::text::text_of_lines(xs),
    decreases xs.len(),
{
    if xs.len() > 0 {
        let d = xs.drop_last();
        lemma_concat_lines(d);
        let m = xs.map_values(|x: Seq<char>| x.push('\n'));
        assert(m.drop_last() =~= d.map_values(|x: Seq<char>| x.push('\n')));
        crate::text::lemma_text_of_lines_step(xs, xs.len() - 1);
        assert(xs.take(xs.len() - 1) =~= d);
        assert(xs.take(xs.len() as int) =~= xs);
    }
}

/// The first part, then the rest.
pub proof fn lemma_concat_first<A>(s: Seq<Seq<A>>)
    requires
        s.len() > 0,
    ensures
        concat(s) == s[0] + concat(s.skip(1)),
    decreases s.len(),
{
    if s.len() == 1 {
        assert(s.drop_last() =~= Seq::<Seq<A>>::empty());
        assert(s.skip(1) =~= Seq::<Seq<A>>::empty());
        assert(concat(s) =~= s[0]);
        assert(s[0] + concat(s.skip(1)) =~= s[0]);
    } else {
        let d = s.drop_last();
        lemma_concat_first(d);
        assert(s.skip(1).drop_last() =~= d.skip(1));
        assert(s.skip(1).last() == s.last());
        assert(d[0] == s[0]);
        assert(concat(s) =~= s[0] + concat(s.skip(1)));
    }
}

pub proof fn lemma_somes_step<A>(s: Seq<Option<A>>, i: int)
    requires
        0 <= i < s.len(),
    ensures
        somes(s.take(i + 1)) == somes(s.take(i)) + match s[i] {
            Some(a) => seq![a],
            None => Seq::<A>::empty(),
        },
{
    assert(s.take(i + 1).drop_last() =~= s.take(i));
}

pub proof fn lemma_concat_step<A>(s: Seq<Seq<A>>, i: int)
    requires
        0 <= i < s.len(),
    ensures
        concat(s.take(i + 1)) == concat(s.take(i)) + s[i],
{
    assert(s.take(i + 1).drop_last() =~= s.take(i));
}

/// Every value kept by `somes` satisfies what every `Some` of `s` satisfies.
pub proof fn lemma_somes_all<A>(s: Seq<Option<A>>, p: spec_fn(A) -> bool)
    requires
        forall|i: int| 0 <= i < s.len() && (#[trigger] s[i]) is Some ==> p(s[i]->0),
    ensures
        forall|k: int| 0 <= k < somes(s).len() ==> p(#[trigger] somes(s)[k]),
    decreases s.len(),
{
    if s.len() > 0 {
        let d = s.drop_last();
        assert forall|i: int| 0 <= i < d.len() && (#[trigger] d[i]) is Some implies p(d[i]->0) by {
            assert(d[i] == s[i]);
        }
        lemma_somes_all(d, p);
        let t = somes(s);
        let h = somes(d);
        assert forall|k: int| 0 <= k < t.len() implies p(#[trigger] t[k]) by {
            if k < h.len() {
                assert(t[k] == h[k]);
            } else {
                assert(s[s.len() - 1] is Some);
            }
        }
    }
}

/// Every item of the concatenation satisfies what every item of every part
/// satisfies.
pub proof fn lemma_concat_all<A>(s: Seq<Seq<A>>, p: spec_fn(A) -> bool)
    requires
        forall|i: int, j: int| 0 <= i < s.len() && 0 <= j < s[i].len() ==> p(#[trigger] s[i][j]),
    ensures
        forall|k: int| 0 <= k < concat(s).len() ==> p(#[trigger] concat(s)[k]),
    decreases s.len(),
{
    if s.len() > 0 {
        let d = s.drop_last();
        assert forall|i: int, j: int| 0 <= i < d.len() && 0 <= j < d[i].len() implies p(
            #[trigger] d[i][j],
        ) by {
            assert(d[i] == s[i]);
        }
        lemma_concat_all(d, p);
        let t = concat(s);
        let h = concat(d);
        assert forall|k: int| 0 <= k < t.len() implies p(#[trigger] t[k]) by {
            if k < h.len() {
                assert(t[k] == h[k]);
            } else {
                assert(t[k] == s[s.len() - 1][k - h.len()]);
            }
        }
    }
}

/// Appends the finding to `out` when there is one.
fn push_opt(out: &mut Vec<Finding>, f: Option<Finding>)
    ensures
        final(out).deep_view() == old(out).deep_view() + match f.deep_view() {
            Some(a) => seq![a],
            None => Seq::<FindingV>::empty(),
        },
{
    let ghost before = out.deep_view();
    match f {
        Some(x) => {
            out.push(x);
            assert(out.deep_view() =~= before + seq![x.deep_view()]);
        },
        None => {
            assert(out.deep_view() =~= before + Seq::<FindingV>::empty());
        },
    }
}

/// Appends all of `more` to `out`.
fn append_all(out: &mut Vec<Finding>, more: Vec<Finding>)
    ensures
        final(out).deep_view() == old(out).deep_view() + more.deep_view(),
{
    let ghost before = out.deep_view();
    let ghost mv = more.deep_view();
    let mut more = more;
    out.append(&mut more);
    assert(out.deep_view() =~= before + mv);
}

// ------------------------------------------------------------------
// R1: mutable references
// ------------------------------------------------------------------
pub const R1_MUTABLE_A: &'static str = "`@";
pub const R1_MUTABLE_B: &'static str = "`은(는) 태그/브랜치 — 공격자가 다른 커밋으로 옮겨 꽂을 수 있는 가변 참조입니다";
pub const R1_NO_REF: &'static str = "참조(@버전)가 없습니다 — 기본 브랜치를 그대로 따라가는 가변 참조입니다";
pub const R1_OFFICIAL: &'static str = " (GitHub 공식 액션이라 완화 등급 — 그래도 SHA 핀 고정을 권고합니다)";
pub const R1_THIRD: &'static str = " (TeamPCP는 이 방식으로 Trivy 태그 76개를 하이재킹했습니다)";
pub const R1_FIX_A: &'static str = "커밋 SHA로 핀 고정 — uses: ";
pub const R1_FIX_B: &'static str = "@<40자리 커밋 SHA>  # 원래 버전을 주석으로";

/// What is wrong with a mutable (or missing) reference.
pub open spec fn r1_problem(git_ref: Option<RefKindV>) -> Seq<char> {
    match git_ref {
        Some(RefKindV::Mutable(r)) => R1_MUTABLE_A@ + r + R1_MUTABLE_B@,
        _ => R1_NO_REF@,
    }
}

/// The R1 finding of one entry, if any: a non-first-party repository action that
/// is not pinned to a commit SHA; official actions get `Info`, others `High`.
pub open spec fn r1_entry(file: Seq<char>, e: UsesEntryV, ctx: crate::trust::TrustContextV) -> Option<
    FindingV,
> {
    match parse_spec(e.value) {
        UsesRefV::Repository { owner_repo, git_ref } => {
            let trust = classify_spec(ctx, owner_repo);
            if trust == Trust::FirstParty {
                None
            } else if git_ref matches Some(RefKindV::CommitSha(_)) {
                None
            } else {
                let problem = r1_problem(git_ref);
                Some(
                    FindingV {
                        rule: "R1"@,
                        severity: if trust == Trust::Official {
                            Severity::Info
                        } else {
                            Severity::High
                        },
                        file,
                        line: e.line,
                        uses: e.value,
                        evidence: if trust == Trust::Official {
                            problem + R1_OFFICIAL@
                        } else {
                            problem + R1_THIRD@
                        },
                        fix_hint: R1_FIX_A@ + owner_repo + R1_FIX_B@,
                    },
                )
            }
        },
        _ => None,
    }
}

pub open spec fn check_r1_spec(
    file: Seq<char>,
    entries: Seq<UsesEntryV>,
    ctx: crate::trust::TrustContextV,
) -> Seq<FindingV> {
    somes(entries.map_values(|e: UsesEntryV| r1_entry(file, e, ctx)))
}

fn r1_entry_exec(file: &str, e: &UsesEntry, ctx: &TrustContext) -> (r: Option<Finding>)
    ensures
        r.deep_view() == r1_entry(file@, e.deep_view(), ctx@),
{
    let parsed = crate::uses_ref::parse(e.value.as_str());
    match parsed {
        UsesRef::Repository { owner_repo, git_ref } => {
            let trust = ctx.classify(owner_repo.as_str());
            if trust == Trust::FirstParty {
                return None;
            }
            let mut problem: Vec<char> = Vec::new();
            match &git_ref {
                Some(RefKind::CommitSha(_)) => {
                    return None;
                },
                Some(RefKind::Mutable(r)) => {
                    extend_str(&mut problem, R1_MUTABLE_A);
                    extend_str(&mut problem, r.as_str());
                    extend_str(&mut problem, R1_MUTABLE_B);
                },
                None => {
                    extend_str(&mut problem, R1_NO_REF);
                },
            }
            let official = trust == Trust::Official;
            if official {
                extend_str(&mut problem, R1_OFFICIAL);
            } else {
                extend_str(&mut problem, R1_THIRD);
            }
            let mut fix: Vec<char> = Vec::new();
            extend_str(&mut fix, R1_FIX_A);
            extend_str(&mut fix, owner_repo.as_str());
            extend_str(&mut fix, R1_FIX_B);
            Some(
                Finding {
                    rule: "R1",
                    severity: if official {
                        Severity::Info
                    } else {
                        Severity::High
                    },
                    file: string_of(&chars_of(file)),
                    line: e.line,
                    uses: string_of(&chars_of(e.value.as_str())),
                    evidence: string_of(&problem),
                    fix_hint: string_of(&fix),
                },
            )
        },
        _ => None,
    }
}

/// R1: mutable references (tag, branch, or none) of actions.
///
/// First-party actions are silent, GitHub's own get `Info`, every other third
/// party `High`, whatever its reputation.
pub fn check_r1(file: &str, entries: &[UsesEntry], ctx: &TrustContext) -> (r: Vec<Finding>)
    ensures
        r.deep_view() == check_r1_spec(file@, entries.deep_view(), ctx@),
{
    let ghost es = entries.deep_view();
    let ghost m = es.map_values(|e: UsesEntryV| r1_entry(file@, e, ctx@));
    let mut out: Vec<Finding> = Vec::new();
    let n = entries.len();
    let mut i: usize = 0;
    while i < n
        invariant
            n == entries@.len(),
            es == entries.deep_view(),
            m == es.map_values(|e: UsesEntryV| r1_entry(file@, e, ctx@)),
            i <= n,
            out.deep_view() == somes(m.take(i as int)),
        decreases n - i,
    {
        let f = r1_entry_exec(file, &entries[i], ctx);
        proof {
            lemma_somes_step(m, i as int);
        }
        push_opt(&mut out, f);
        i = i + 1;
    }
    assert(m.take(n as int) =~= m);
    out
}

fn empty_string() -> (s: String)
    ensures
        s@ == Seq::<char>::empty(),
{
    String::new()
}

// ------------------------------------------------------------------
// R6: secrets next to third-party actions
// ------------------------------------------------------------------
pub const R6_A: &'static str = "잡 '";
pub const R6_B: &'static str = "'은(는) 시크릿을 사용하는데 같은 잡에서 서드파티 액션이 실행됩니다 — 액션이 오염되면 시크릿이 함께 털립니다 (TeamPCP의 자격증명 수확 방식)";
pub const R6_FIX: &'static str = "시크릿이 필요한 스텝과 서드파티 액션을 별도 잡으로 분리하세요";

/// The R6 finding of one step of a job that uses secrets: a third-party action.
pub open spec fn r6_step(
    file: Seq<char>,
    job: JobV,
    s: StepV,
    ctx: crate::trust::TrustContextV,
) -> Option<FindingV> {
    match s.uses {
        None => None,
        Some(u) => match parse_spec(u) {
            UsesRefV::Repository { owner_repo, .. } => if classify_spec(ctx, owner_repo)
                == Trust::ThirdParty {
                Some(
                    FindingV {
                        rule: "R6"@,
                        severity: Severity::Medium,
                        file,
                        line: s.line,
                        uses: u,
                        evidence: R6_A@ + job.name + R6_B@,
                        fix_hint: R6_FIX@,
                    },
                )
            } else {
                None
            },
            _ => None,
        },
    }
}

pub open spec fn r6_job(file: Seq<char>, job: JobV, ctx: crate::trust::TrustContextV) -> Seq<
    FindingV,
> {
    if job.uses_secrets {
        somes(job.steps.map_values(|s: StepV| r6_step(file, job, s, ctx)))
    } else {
        Seq::empty()
    }
}

pub open spec fn check_r6_spec(
    file: Seq<char>,
    doc: WorkflowDocV,
    ctx: crate::trust::TrustContextV,
) -> Seq<FindingV> {
    concat(doc.jobs.map_values(|j: JobV| r6_job(file, j, ctx)))
}

fn r6_job_exec(file: &str, job: &crate::workflow::Job, ctx: &TrustContext) -> (r: Vec<Finding>)
    ensures
        r.deep_view() == r6_job(file@, job.deep_view(), ctx@),
{
    let mut out: Vec<Finding> = Vec::new();
    if !job.uses_secrets {
        assert(out.deep_view() =~= Seq::<FindingV>::empty());
        return out;
    }
    let ghost jv = job.deep_view();
    let ghost m = jv.steps.map_values(|s: StepV| r6_step(file@, jv, s, ctx@));
    let n = job.steps.len();
    let mut i: usize = 0;
    while i < n
        invariant
            n == job.steps@.len(),
            jv == job.deep_view(),
            m == jv.steps.map_values(|s: StepV| r6_step(file@, jv, s, ctx@)),
            i <= n,
            out.deep_view() == somes(m.take(i as int)),
        decreases n - i,
    {
        let step = &job.steps[i];
        let mut f: Option<Finding> = None;
        match &step.uses {
            Some(u) => {
                match crate::uses_ref::parse(u.as_str()) {
                    UsesRef::Repository { owner_repo, .. } => {
                        if ctx.classify(owner_repo.as_str()) == Trust::ThirdParty {
                            let mut ev: Vec<char> = Vec::new();
                            extend_str(&mut ev, R6_A);
                            extend_str(&mut ev, job.name.as_str());
                            extend_str(&mut ev, R6_B);
                            f = Some(
                                Finding {
                                    rule: "R6",
                                    severity: Severity::Medium,
                                    file: string_of(&chars_of(file)),
                                    line: step.line,
                                    uses: string_of(&chars_of(u.as_str())),
                                    evidence: string_of(&ev),
                                    fix_hint: string_of(&chars_of(R6_FIX)),
                                },
                            );
                        }
                    },
                    _ => {},
                }
            },
            None => {},
        }
        assert(f.deep_view() == m[i as int]);
        proof {
            lemma_somes_step(m, i as int);
        }
        push_opt(&mut out, f);
        i = i + 1;
    }
    assert(m.take(n as int) =~= m);
    out
}

/// R6: a job that uses secrets also runs a third-party action.
pub fn check_r6(file: &str, doc: &WorkflowDoc, ctx: &TrustContext) -> (r: Vec<Finding>)
    ensures
        r.deep_view() == check_r6_spec(file@, doc.deep_view(), ctx@),
{
    let ghost dv = doc.deep_view();
    let ghost m = dv.jobs.map_values(|j: JobV| r6_job(file@, j, ctx@));
    let mut out: Vec<Finding> = Vec::new();
    let n = doc.jobs.len();
    let mut i: usize = 0;
    while i < n
        invariant
            n == doc.jobs@.len(),
            dv == doc.deep_view(),
            m == dv.jobs.map_values(|j: JobV| r6_job(file@, j, ctx@)),
            i <= n,
            out.deep_view() == concat(m.take(i as int)),
        decreases n - i,
    {
        let more = r6_job_exec(file, &doc.jobs[i], ctx);
        proof {
            lemma_concat_step(m, i as int);
        }
        append_all(&mut out, more);
        i = i + 1;
    }
    assert(m.take(n as int) =~= m);
    out
}

// ------------------------------------------------------------------
// R7: missing or broad permissions
// ------------------------------------------------------------------
pub const R7_HINT: &'static str = "워크플로 상단에 `permissions: contents: read`를 선언하고, 필요한 잡에만 추가 권한을 부여하세요";
pub const R7_WORKFLOW: &'static str = "`permissions: write-all` — 토큰이 모든 쓰기 권한을 가집니다. 탈취 시 저장소 변조·2차 감염까지 가능해집니다";
pub const R7_JOB_A: &'static str = "잡 '";
pub const R7_JOB_B: &'static str = "'의 `permissions: write-all` — 토큰이 모든 쓰기 권한을 가집니다";
pub const R7_NONE_A: &'static str = "잡 '";
pub const R7_NONE_B: &'static str = "'에 `permissions` 선언이 없습니다 — 기본 GITHUB_TOKEN은 권한이 넓어 탈취 시 피해 반경을 키웁니다 (TeamPCP는 과잉 권한 토큰으로 48개 패키지를 2차 감염시켰습니다)";

pub open spec fn r7_finding(file: Seq<char>, line: usize, evidence: Seq<char>) -> FindingV {
    FindingV {
        rule: "R7"@,
        severity: Severity::Medium,
        file,
        line,
        uses: Seq::empty(),
        evidence,
        fix_hint: R7_HINT@,
    }
}

/// The R7 finding of a job when the workflow declares no permissions.
pub open spec fn r7_job(file: Seq<char>, j: JobV) -> Option<FindingV> {
    match j.permissions {
        Some((l, v)) => if contains_sub(v, "write-all"@) {
            Some(r7_finding(file, l, R7_JOB_A@ + j.name + R7_JOB_B@))
        } else {
            None
        },
        None => Some(r7_finding(file, j.line, R7_NONE_A@ + j.name + R7_NONE_B@)),
    }
}

/// R7: a workflow-level `write-all` is reported alone; without workflow-level
/// permissions every job lacking them, or granting `write-all`, is reported.
pub open spec fn check_r7_spec(file: Seq<char>, doc: WorkflowDocV) -> Seq<FindingV> {
    match doc.workflow_permissions {
        Some((line, v)) => if contains_sub(v, "write-all"@) {
            seq![r7_finding(file, line, R7_WORKFLOW@)]
        } else {
            Seq::empty()
        },
        None => somes(doc.jobs.map_values(|j: JobV| r7_job(file, j))),
    }
}

fn r7_make(file: &Vec<char>, line: usize, evidence: Vec<char>) -> (f: Finding)
    ensures
        f.deep_view() == r7_finding(file@, line, evidence@),
{
    Finding {
        rule: "R7",
        severity: Severity::Medium,
        file: string_of(file),
        line,
        uses: empty_string(),
        evidence: string_of(&evidence),
        fix_hint: string_of(&chars_of(R7_HINT)),
    }
}

/// R7: missing `permissions` or `write-all`.
pub fn check_r7(file: &str, doc: &WorkflowDoc) -> (r: Vec<Finding>)
    ensures
        r.deep_view() == check_r7_spec(file@, doc.deep_view()),
{
    let fv = chars_of(file);
    let mut out: Vec<Finding> = Vec::new();
    if let Some((line, value)) = &doc.workflow_permissions {
        let vv = chars_of(value.as_str());
        if contains_str(&vv, "write-all") {
            out.push(r7_make(&fv, *line, chars_of(R7_WORKFLOW)));
            assert(out.deep_view() =~= seq![r7_finding(file@, *line, R7_WORKFLOW@)]);
        } else {
            assert(out.deep_view() =~= Seq::<FindingV>::empty());
        }
        return out;
    }
    let ghost dv = doc.deep_view();
    let ghost m = dv.jobs.map_values(|j: JobV| r7_job(file@, j));
    let n = doc.jobs.len();
    let mut i: usize = 0;
    while i < n
        invariant
            n == doc.jobs@.len(),
            dv == doc.deep_view(),
            fv@ == file@,
            m == dv.jobs.map_values(|j: JobV| r7_job(file@, j)),
            i <= n,
            out.deep_view() == somes(m.take(i as int)),
        decreases n - i,
    {
        let job = &doc.jobs[i];
        let f = match &job.permissions {
            Some((line, value)) => {
                let vv = chars_of(value.as_str());
                if contains_str(&vv, "write-all") {
                    let mut ev: Vec<char> = Vec::new();
                    extend_str(&mut ev, R7_JOB_A);
                    extend_str(&mut ev, job.name.as_str());
                    extend_str(&mut ev, R7_JOB_B);
                    Some(r7_make(&fv, *line, ev))
                } else {
                    None
                }
            },
            None => {
                let mut ev: Vec<char> = Vec::new();
                extend_str(&mut ev, R7_NONE_A);
                extend_str(&mut ev, job.name.as_str());
                extend_str(&mut ev, R7_NONE_B);
                Some(r7_make(&fv, job.line, ev))
            },
        };
        assert(f.deep_view() == m[i as int]);
        proof {
            lemma_somes_step(m, i as int);
        }
        push_opt(&mut out, f);
        i = i + 1;
    }
    assert(m.take(n as int) =~= m);
    out
}

// ------------------------------------------------------------------
// R8: dangerous trigger with a checkout of external PR code
// ------------------------------------------------------------------
pub const R8_EVIDENCE: &'static str = "위험 트리거는 시크릿 접근 권한으로 실행되는데, 이 스텝이 외부 PR의 코드를 체크아웃합니다 — 외부인이 시크릿 있는 환경에서 코드를 실행할 수 있게 됩니다";
pub const R8_FIX: &'static str = "`pull_request` 트리거로 바꾸거나, 외부 PR head 체크아웃을 제거하세요";

pub open spec fn dangerous_trigger(on_text: Seq<char>) -> bool {
    contains_sub(on_text, "pull_request_target"@) || contains_sub(on_text, "workflow_run"@)
}

pub open spec fn checks_out_pr(text: Seq<char>) -> bool {
    contains_sub(text, "github.event.pull_request.head"@) || contains_sub(text, "github.head_ref"@)
}

pub open spec fn r8_step(file: Seq<char>, s: StepV) -> Option<FindingV> {
    if checks_out_pr(s.text) {
        Some(
            FindingV {
                rule: "R8"@,
                severity: Severity::High,
                file,
                line: s.line,
                uses: match s.uses {
                    Some(u) => u,
                    None => Seq::empty(),
                },
                evidence: R8_EVIDENCE@,
                fix_hint: R8_FIX@,
            },
        )
    } else {
        None
    }
}

pub open spec fn r8_job(file: Seq<char>, j: JobV) -> Seq<FindingV> {
    somes(j.steps.map_values(|s: StepV| r8_step(file, s)))
}

/// R8: under `pull_request_target`/`workflow_run`, every step that checks out
/// the external PR head.
pub open spec fn check_r8_spec(file: Seq<char>, doc: WorkflowDocV) -> Seq<FindingV> {
    if dangerous_trigger(doc.on_text) {
        concat(doc.jobs.map_values(|j: JobV| r8_job(file, j)))
    } else {
        Seq::empty()
    }
}

fn r8_job_exec(file: &str, job: &crate::workflow::Job) -> (r: Vec<Finding>)
    ensures
        r.deep_view() == r8_job(file@, job.deep_view()),
{
    let ghost jv = job.deep_view();
    let ghost m = jv.steps.map_values(|s: StepV| r8_step(file@, s));
    let mut out: Vec<Finding> = Vec::new();
    let n = job.steps.len();
    let mut i: usize = 0;
    while i < n
        invariant
            n == job.steps@.len(),
            jv == job.deep_view(),
            m == jv.steps.map_values(|s: StepV| r8_step(file@, s)),
            i <= n,
            out.deep_view() == somes(m.take(i as int)),
        decreases n - i,
    {
        let step = &job.steps[i];
        let tv = chars_of(step.text.as_str());
        let f = if contains_str(&tv, "github.event.pull_request.head") || contains_str(
            &tv,
            "github.head_ref",
        ) {
            Some(
                Finding {
                    rule: "R8",
                    severity: Severity::High,
                    file: string_of(&chars_of(file)),
                    line: step.line,
                    uses: match &step.uses {
                        Some(u) => string_of(&chars_of(u.as_str())),
                        None => empty_string(),
                    },
                    evidence: string_of(&chars_of(R8_EVIDENCE)),
                    fix_hint: string_of(&chars_of(R8_FIX)),
                },
            )
        } else {
            None
        };
        assert(f.deep_view() == m[i as int]);
        proof {
            lemma_somes_step(m, i as int);
        }
        push_opt(&mut out, f);
        i = i + 1;
    }
    assert(m.take(n as int) =~= m);
    out
}

/// R8: dangerous triggers (`pull_request_target`/`workflow_run`) together with a
/// checkout of external PR code.
pub fn check_r8(file: &str, doc: &WorkflowDoc) -> (r: Vec<Finding>)
    ensures
        r.deep_view() == check_r8_spec(file@, doc.deep_view()),
{
    let on = chars_of(doc.on_text.as_str());
    let mut out: Vec<Finding> = Vec::new();
    if !(contains_str(&on, "pull_request_target") || contains_str(&on, "workflow_run")) {
        assert(out.deep_view() =~= Seq::<FindingV>::empty());
        return out;
    }
    let ghost dv = doc.deep_view();
    let ghost m = dv.jobs.map_values(|j: JobV| r8_job(file@, j));
    let n = doc.jobs.len();
    let mut i: usize = 0;
    while i < n
        invariant
            n == doc.jobs@.len(),
            dv == doc.deep_view(),
            dangerous_trigger(dv.on_text),
            m == dv.jobs.map_values(|j: JobV| r8_job(file@, j)),
            i <= n,
            out.deep_view() == concat(m.take(i as int)),
        decreases n - i,
    {
        let more = r8_job_exec(file, &doc.jobs[i]);
        proof {
            lemma_concat_step(m, i as int);
        }
        append_all(&mut out, more);
        i = i + 1;
    }
    assert(m.take(n as int) =~= m);
    out
}

// ------------------------------------------------------------------
// R3: unverified pipe installs
// ------------------------------------------------------------------
pub const R3_EVIDENCE: &'static str = "다운로드한 스크립트를 검증 없이 바로 실행하는 패턴으로 보입니다 —                            배포 서버가 오염되면 그대로 악성 코드가 실행됩니다 (Trivy식 바이너리 교체 통로).                            셸 해석은 휴리스틱이므로 안내 등급에 머뭅니다";
pub const R3_FIX: &'static str = "다운로드 후 sha256sum 등으로 체크섬을 검증하고 실행하세요";

/// A command that runs a shell.
pub open spec fn is_shell_cmd(cmd: Seq<char>) -> bool {
    ||| cmd == "sh"@
    ||| cmd == "bash"@
    ||| cmd == "sudo"@
    ||| ends_with(cmd, "/sh"@)
    ||| ends_with(cmd, "/bash"@)
}

/// Whether the first command after some `|` is a shell.
pub open spec fn pipes_to_shell_spec(line: Seq<char>) -> bool {
    let segs = split_char(line, '|');
    exists|k: int| 1 <= k < segs.len() && is_shell_cmd(first_token(#[trigger] segs[k]))
}

/// A line that downloads and pipes into a shell.
pub open spec fn pipe_install_line(l: Seq<char>) -> bool {
    (contains_sub(l, "curl"@) || contains_sub(l, "wget"@)) && pipes_to_shell_spec(l)
}

/// Whether some line of a step's text is a pipe install.
pub open spec fn has_pipe_install(text: Seq<char>) -> bool {
    exists|k: int| 0 <= k < lines(text).len() && pipe_install_line(#[trigger] lines(text)[k])
}

pub open spec fn r3_step(file: Seq<char>, s: StepV) -> Option<FindingV> {
    let pipe_install = has_pipe_install(s.text);
    let verified = contains_sub(s.text, "sha256sum"@) || contains_sub(s.text, "shasum"@);
    if pipe_install && !verified {
        Some(
            FindingV {
                rule: "R3"@,
                severity: Severity::Info,
                file,
                line: s.line,
                uses: Seq::empty(),
                evidence: R3_EVIDENCE@,
                fix_hint: R3_FIX@,
            },
        )
    } else {
        None
    }
}

pub open spec fn r3_job(file: Seq<char>, j: JobV) -> Seq<FindingV> {
    somes(j.steps.map_values(|s: StepV| r3_step(file, s)))
}

/// R3: steps that pipe a download into a shell without a checksum check.
pub open spec fn check_r3_spec(file: Seq<char>, doc: WorkflowDocV) -> Seq<FindingV> {
    concat(doc.jobs.map_values(|j: JobV| r3_job(file, j)))
}

/// Whether the first command after some `|` is a shell: `| shasum` (a check) is
/// not mistaken for `| sh`, commands are compared as whole tokens.
pub fn pipes_to_shell(line: &Vec<char>) -> (b: bool)
    ensures
        b == pipes_to_shell_spec(line@),
{
    let segs = split_char_v(line, '|');
    let ghost sv = vviews(segs@);
    let mut k: usize = 1;
    while k < segs.len()
        invariant
            sv == vviews(segs@),
            sv == split_char(line@, '|'),
            1 <= k,
            forall|j: int| 1 <= j < k && j < sv.len() ==> !is_shell_cmd(first_token(#[trigger] sv[j])),
        decreases segs@.len() - k,
    {
        let cmd = first_token_v(&segs[k]);
        assert(cmd@ == first_token(sv[k as int]));
        if eq_str(&cmd, "sh") || eq_str(&cmd, "bash") || eq_str(&cmd, "sudo") || ends_with_str(
            &cmd,
            "/sh",
        ) || ends_with_str(&cmd, "/bash") {
            return true;
        }
        k = k + 1;
    }
    false
}

fn pipe_install(text: &Vec<char>) -> (b: bool)
    ensures
        b == has_pipe_install(text@),
{
    let ls = lines_v(text);
    let ghost lv = vviews(ls@);
    let mut i: usize = 0;
    while i < ls.len()
        invariant
            lv == vviews(ls@),
            lv == lines(text@),
            i <= ls@.len(),
            forall|k: int| 0 <= k < i ==> !pipe_install_line(#[trigger] lv[k]),
        decreases ls@.len() - i,
    {
        let l = &ls[i];
        if (contains_str(l, "curl") || contains_str(l, "wget")) && pipes_to_shell(l) {
            assert(pipe_install_line(lv[i as int]));
            return true;
        }
        i = i + 1;
    }
    false
}

fn r3_job_exec(file: &str, job: &crate::workflow::Job) -> (r: Vec<Finding>)
    ensures
        r.deep_view() == r3_job(file@, job.deep_view()),
{
    let ghost jv = job.deep_view();
    let ghost m = jv.steps.map_values(|s: StepV| r3_step(file@, s));
    let mut out: Vec<Finding> = Vec::new();
    let n = job.steps.len();
    let mut i: usize = 0;
    while i < n
        invariant
            n == job.steps@.len(),
            jv == job.deep_view(),
            m == jv.steps.map_values(|s: StepV| r3_step(file@, s)),
            i <= n,
            out.deep_view() == somes(m.take(i as int)),
        decreases n - i,
    {
        let step = &job.steps[i];
        let tv = chars_of(step.text.as_str());
        let piped = pipe_install(&tv);
        let verified = contains_str(&tv, "sha256sum") || contains_str(&tv, "shasum");
        let f = if piped && !verified {
            Some(
                Finding {
                    rule: "R3",
                    severity: Severity::Info,
                    file: string_of(&chars_of(file)),
                    line: step.line,
                    uses: empty_string(),
                    evidence: string_of(&chars_of(R3_EVIDENCE)),
                    fix_hint: string_of(&chars_of(R3_FIX)),
                },
            )
        } else {
            None
        };
        assert(f.deep_view() == m[i as int]);
        proof {
            lemma_somes_step(m, i as int);
        }
        push_opt(&mut out, f);
        i = i + 1;
    }
    assert(m.take(n as int) =~= m);
    out
}

/// R3: pipe installs (`curl ... | sh`) without an integrity check.
///
/// Reading shell commands is a heuristic, so this rule never goes above `Info`;
/// a step that also runs `sha256sum`/`shasum` is silent.
pub fn check_r3(file: &str, doc: &WorkflowDoc) -> (r: Vec<Finding>)
    ensures
        r.deep_view() == check_r3_spec(file@, doc.deep_view()),
{
    let ghost dv = doc.deep_view();
    let ghost m = dv.jobs.map_values(|j: JobV| r3_job(file@, j));
    let mut out: Vec<Finding> = Vec::new();
    let n = doc.jobs.len();
    let mut i: usize = 0;
    while i < n
        invariant
            n == doc.jobs@.len(),
            dv == doc.deep_view(),
            m == dv.jobs.map_values(|j: JobV| r3_job(file@, j)),
            i <= n,
            out.deep_view() == concat(m.take(i as int)),
        decreases n - i,
    {
        let more = r3_job_exec(file, &doc.jobs[i]);
        proof {
            lemma_concat_step(m, i as int);
        }
        append_all(&mut out, more);
        i = i + 1;
    }
    assert(m.take(n as int) =~= m);
    out
}

// ------------------------------------------------------------------
// R4: container images without a digest
// ------------------------------------------------------------------
pub const R4_A: &'static str = "`";
pub const R4_B: &'static str = "`은(는) 다이제스트 없는 이미지 참조 — 태그는 같은 이름으로 내용물이                  바뀔 수 있는 가변 참조입니다";
pub const R4_FIX_A: &'static str = "다이제스트로 고정 — ";
pub const R4_FIX_B: &'static str = "@sha256:<다이제스트>";

pub open spec fn r4_item(file: Seq<char>, line: usize, image: Seq<char>, raw: Seq<char>) -> Option<
    FindingV,
> {
    if contains_sub(image, "@sha256:"@) {
        None
    } else {
        Some(
            FindingV {
                rule: "R4"@,
                severity: Severity::Medium,
                file,
                line,
                uses: raw,
                evidence: R4_A@ + image + R4_B@,
                fix_hint: R4_FIX_A@ + image + R4_FIX_B@,
            },
        )
    }
}

pub open spec fn r4_docker(file: Seq<char>, e: UsesEntryV) -> Option<FindingV> {
    match strip_prefix(e.value, "docker://"@) {
        Some(img) => r4_item(file, e.line, img, e.value),
        None => None,
    }
}

/// R4: `docker://` actions, then `image:`/`container:` references, without a
/// `@sha256:` digest.
pub open spec fn check_r4_spec(
    file: Seq<char>,
    entries: Seq<UsesEntryV>,
    images: Seq<UsesEntryV>,
) -> Seq<FindingV> {
    somes(entries.map_values(|e: UsesEntryV| r4_docker(file, e))) + somes(
        images.map_values(|e: UsesEntryV| r4_item(file, e.line, e.value, e.value)),
    )
}

fn r4_make(file: &str, line: usize, image: &Vec<char>, raw: &str) -> (r: Option<Finding>)
    ensures
        r.deep_view() == r4_item(file@, line, image@, raw@),
{
    if contains_str(image, "@sha256:") {
        return None;
    }
    let mut ev: Vec<char> = Vec::new();
    extend_str(&mut ev, R4_A);
    extend(&mut ev, image);
    extend_str(&mut ev, R4_B);
    let mut fix: Vec<char> = Vec::new();
    extend_str(&mut fix, R4_FIX_A);
    extend(&mut fix, image);
    extend_str(&mut fix, R4_FIX_B);
    Some(
        Finding {
            rule: "R4",
            severity: Severity::Medium,
            file: string_of(&chars_of(file)),
            line,
            uses: string_of(&chars_of(raw)),
            evidence: string_of(&ev),
            fix_hint: string_of(&fix),
        },
    )
}

/// R4: container image references without a digest.
///
/// Whether a digest (`@sha256:`) is present is a syntactic fact; a tag can be
/// re-pointed at other contents.
pub fn check_r4(file: &str, entries: &[UsesEntry], images: &[UsesEntry]) -> (r: Vec<Finding>)
    ensures
        r.deep_view() == check_r4_spec(file@, entries.deep_view(), images.deep_view()),
{
    let ghost es = entries.deep_view();
    let ghost m1 = es.map_values(|e: UsesEntryV| r4_docker(file@, e));
    let mut out: Vec<Finding> = Vec::new();
    let n = entries.len();
    let mut i: usize = 0;
    while i < n
        invariant
            n == entries@.len(),
            es == entries.deep_view(),
            m1 == es.map_values(|e: UsesEntryV| r4_docker(file@, e)),
            i <= n,
            out.deep_view() == somes(m1.take(i as int)),
        decreases n - i,
    {
        let e = &entries[i];
        let vv = chars_of(e.value.as_str());
        let f = match strip_prefix_str(&vv, "docker://") {
            Some(img) => r4_make(file, e.line, &img, e.value.as_str()),
            None => None,
        };
        assert(f.deep_view() == m1[i as int]);
        proof {
            lemma_somes_step(m1, i as int);
        }
        push_opt(&mut out, f);
        i = i + 1;
    }
    assert(m1.take(n as int) =~= m1);
    let ghost first = out.deep_view();
    let ghost is = images.deep_view();
    let ghost m2 = is.map_values(|e: UsesEntryV| r4_item(file@, e.line, e.value, e.value));
    let n2 = images.len();
    let mut j: usize = 0;
    while j < n2
        invariant
            n2 == images@.len(),
            is == images.deep_view(),
            m2 == is.map_values(|e: UsesEntryV| r4_item(file@, e.line, e.value, e.value)),
            j <= n2,
            out.deep_view() == first + somes(m2.take(j as int)),
        decreases n2 - j,
    {
        let e = &images[j];
        let vv = chars_of(e.value.as_str());
        let f = r4_make(file, e.line, &vv, e.value.as_str());
        assert(f.deep_view() == m2[j as int]);
        proof {
            lemma_somes_step(m2, j as int);
        }
        let ghost b = out.deep_view();
        push_opt(&mut out, f);
        assert(out.deep_view() =~= first + somes(m2.take(j + 1)));
        j = j + 1;
    }
    assert(m2.take(n2 as int) =~= m2);
    out
}

// ------------------------------------------------------------------
// R9: known-bad versions
// ------------------------------------------------------------------
pub const R9_EV: &'static str = "이 버전은 공개 보안 권고에 악성으로 등재되어 있습니다 — ";
pub const R9_FIX: &'static str = "즉시 제거/교체하고, 이 버전이 실행된 기간의 CI 로그와 시크릿 노출을 점검하세요 (이미 실행됐다면 사후 대응 필요)";

/// The text of a ref, pinned or not.
pub open spec fn ref_text(r: RefKindV) -> Seq<char> {
    match r {
        RefKindV::CommitSha(s) => s,
        RefKindV::Mutable(m) => m,
    }
}

/// The R9 finding of one entry: a repository action at a version that the
/// advisory database lists, whoever owns it.
pub open spec fn r9_entry(
    file: Seq<char>,
    e: UsesEntryV,
    db: Seq<(Seq<char>, crate::advisory::AdvisoryV)>,
) -> Option<FindingV> {
    match parse_spec(e.value) {
        UsesRefV::Repository { owner_repo, git_ref: Some(r) } => {
            let repo = crate::uses_ref::repo_root_spec(owner_repo);
            match crate::advisory::assoc_get(
                db,
                crate::typosquat::unicode_lower(repo + "@"@ + ref_text(r)),
            ) {
                Some(adv) => Some(
                    FindingV {
                        rule: "R9"@,
                        severity: Severity::High,
                        file,
                        line: e.line,
                        uses: e.value,
                        evidence: R9_EV@ + adv.source + ": "@ + adv.note,
                        fix_hint: R9_FIX@,
                    },
                ),
                None => None,
            }
        },
        _ => None,
    }
}

pub open spec fn check_r9_spec(
    file: Seq<char>,
    entries: Seq<UsesEntryV>,
    db: Seq<(Seq<char>, crate::advisory::AdvisoryV)>,
) -> Seq<FindingV> {
    somes(entries.map_values(|e: UsesEntryV| r9_entry(file, e, db)))
}

fn r9_entry_exec(file: &str, e: &UsesEntry, db: &crate::advisory::AdvisoryDb) -> (r: Option<Finding>)
    ensures
        r.deep_view() == r9_entry(file@, e.deep_view(), db.entries_view()),
{
    match crate::uses_ref::parse(e.value.as_str()) {
        UsesRef::Repository { owner_repo, git_ref: Some(r) } => {
            let git_ref = match &r {
                RefKind::CommitSha(x) => x,
                RefKind::Mutable(x) => x,
            };
            assert(git_ref@ == ref_text(r@));
            let repo = crate::uses_ref::repo_root(owner_repo.as_str());
            match db.lookup(repo.as_str(), git_ref.as_str()) {
                Some(adv) => {
                    let mut ev: Vec<char> = Vec::new();
                    extend_str(&mut ev, R9_EV);
                    extend_str(&mut ev, adv.source.as_str());
                    extend_str(&mut ev, ": ");
                    extend_str(&mut ev, adv.note.as_str());
                    Some(
                        Finding {
                            rule: "R9",
                            severity: Severity::High,
                            file: string_of(&chars_of(file)),
                            line: e.line,
                            uses: string_of(&chars_of(e.value.as_str())),
                            evidence: string_of(&ev),
                            fix_hint: string_of(&chars_of(R9_FIX)),
                        },
                    )
                },
                None => None,
            }
        },
        _ => None,
    }
}

/// R9: versions that a public advisory lists as malicious (bundled database,
/// offline, `High`). A known-bad version is dangerous whoever owns it, so no
/// trust class applies.
pub fn check_r9(file: &str, entries: &[UsesEntry], db: &crate::advisory::AdvisoryDb) -> (r: Vec<
    Finding,
>)
    ensures
        r.deep_view() == check_r9_spec(file@, entries.deep_view(), db.entries_view()),
{
    let ghost es = entries.deep_view();
    let ghost m = es.map_values(|e: UsesEntryV| r9_entry(file@, e, db.entries_view()));
    let mut out: Vec<Finding> = Vec::new();
    let n = entries.len();
    let mut i: usize = 0;
    while i < n
        invariant
            n == entries@.len(),
            es == entries.deep_view(),
            m == es.map_values(|e: UsesEntryV| r9_entry(file@, e, db.entries_view())),
            i <= n,
            out.deep_view() == somes(m.take(i as int)),
        decreases n - i,
    {
        let f = r9_entry_exec(file, &entries[i], db);
        proof {
            lemma_somes_step(m, i as int);
        }
        push_opt(&mut out, f);
        i = i + 1;
    }
    assert(m.take(n as int) =~= m);
    out
}

// ------------------------------------------------------------------
// R5: impostor commits (online)
// ------------------------------------------------------------------
pub const R5_IMPOSTOR_A: &'static str = "핀된 커밋 ";
pub const R5_IMPOSTOR_B: &'static str = "이(가) `";
pub const R5_IMPOSTOR_C: &'static str = "`의 정식 히스토리에서 도달 불가합니다 — 포크에 숨긴 커밋을 꽂은 임포스터 커밋 신호 (TeamPCP의 Trivy 공격이 이 수법)";
pub const R5_IMPOSTOR_FIX: &'static str = "이 SHA의 출처를 확인하고, 업스트림 정식 릴리스의 SHA로 교체하세요";
pub const R5_UNKNOWN: &'static str = "`의 도달 가능성을 확인하지 못했습니다 — 판정 보류 (확인 불가는 오탐을 만들지 않습니다)";
pub const RETRY_FIX: &'static str = "네트워크 상태를 확인하고 다시 시도하세요";

/// What R5 asks about an entry: the repository and the pinned SHA of a
/// non-first-party action pinned to a commit.
pub open spec fn r5_target(e: UsesEntryV, ctx: crate::trust::TrustContextV) -> Option<
    (Seq<char>, Seq<char>),
> {
    match parse_spec(e.value) {
        UsesRefV::Repository { owner_repo, git_ref: Some(RefKindV::CommitSha(sha)) } => {
            if classify_spec(ctx, owner_repo) == Trust::FirstParty {
                None
            } else {
                Some((crate::uses_ref::repo_root_spec(owner_repo), sha))
            }
        },
        _ => None,
    }
}

/// The R5 finding for an answer about whether the pinned commit is reachable:
/// unreachable is `High`; a failed lookup is `Info` (no verdict); reachable or
/// unknown is silent.
pub open spec fn r5_verdict_spec(
    file: Seq<char>,
    e: UsesEntryV,
    repo: Seq<char>,
    sha: Seq<char>,
    ans: crate::github_facts::Answer<bool>,
) -> Option<FindingV> {
    match ans {
        crate::github_facts::Answer::Known(false) => Some(
            FindingV {
                rule: "R5"@,
                severity: Severity::High,
                file,
                line: e.line,
                uses: e.value,
                evidence: R5_IMPOSTOR_A@ + sha + R5_IMPOSTOR_B@ + repo + R5_IMPOSTOR_C@,
                fix_hint: R5_IMPOSTOR_FIX@,
            },
        ),
        crate::github_facts::Answer::Failed => Some(
            FindingV {
                rule: "R5"@,
                severity: Severity::Info,
                file,
                line: e.line,
                uses: e.value,
                evidence: "`"@ + repo + "@"@ + sha + R5_UNKNOWN@,
                fix_hint: RETRY_FIX@,
            },
        ),
        _ => None,
    }
}

pub open spec fn r5_at(
    file: Seq<char>,
    e: UsesEntryV,
    ctx: crate::trust::TrustContextV,
    ans: crate::github_facts::Answer<bool>,
) -> Option<FindingV> {
    match r5_target(e, ctx) {
        Some((repo, sha)) => r5_verdict_spec(file, e, repo, sha, ans),
        None => None,
    }
}

/// R5 over all entries, given the answer obtained for each of them.
pub open spec fn check_r5_spec(
    file: Seq<char>,
    entries: Seq<UsesEntryV>,
    ctx: crate::trust::TrustContextV,
    ans: Seq<crate::github_facts::Answer<bool>>,
) -> Seq<FindingV> {
    somes(Seq::new(entries.len(), |i: int| r5_at(file, entries[i], ctx, ans[i])))
}

fn r5_target_exec(e: &UsesEntry, ctx: &TrustContext) -> (r: Option<(String, String)>)
    ensures
        match r {
            Some((repo, sha)) => r5_target(e.deep_view(), ctx@) == Some((repo@, sha@)),
            None => r5_target(e.deep_view(), ctx@) is None,
        },
{
    match crate::uses_ref::parse(e.value.as_str()) {
        UsesRef::Repository { owner_repo, git_ref: Some(RefKind::CommitSha(sha)) } => {
            if ctx.classify(owner_repo.as_str()) == Trust::FirstParty {
                None
            } else {
                Some((crate::uses_ref::repo_root(owner_repo.as_str()), sha))
            }
        },
        _ => None,
    }
}

/// The R5 finding of an entry pinned to `sha` in `repo`, for what the
/// reachability lookup answered.
pub fn r5_verdict(
    file: &str,
    e: &UsesEntry,
    repo: &str,
    sha: &str,
    answer: &std::io::Result<Option<bool>>,
) -> (r: Option<Finding>)
    ensures
        r.deep_view() == r5_verdict_spec(
            file@,
            e.deep_view(),
            repo@,
            sha@,
            crate::github_facts::answer_of(*answer),
        ),
{
    match answer {
        Ok(Some(false)) => {
            let mut ev: Vec<char> = Vec::new();
            extend_str(&mut ev, R5_IMPOSTOR_A);
            extend_str(&mut ev, sha);
            extend_str(&mut ev, R5_IMPOSTOR_B);
            extend_str(&mut ev, repo);
            extend_str(&mut ev, R5_IMPOSTOR_C);
            Some(
                Finding {
                    rule: "R5",
                    severity: Severity::High,
                    file: string_of(&chars_of(file)),
                    line: e.line,
                    uses: string_of(&chars_of(e.value.as_str())),
                    evidence: string_of(&ev),
                    fix_hint: string_of(&chars_of(R5_IMPOSTOR_FIX)),
                },
            )
        },
        Err(_) => {
            let mut ev: Vec<char> = Vec::new();
            extend_str(&mut ev, "`");
            extend_str(&mut ev, repo);
            extend_str(&mut ev, "@");
            extend_str(&mut ev, sha);
            extend_str(&mut ev, R5_UNKNOWN);
            Some(
                Finding {
                    rule: "R5",
                    severity: Severity::Info,
                    file: string_of(&chars_of(file)),
                    line: e.line,
                    uses: string_of(&chars_of(e.value.as_str())),
                    evidence: string_of(&ev),
                    fix_hint: string_of(&chars_of(RETRY_FIX)),
                },
            )
        },
        _ => None,
    }
}

/// R5: impostor commits (online, `High`).
///
/// Whether a pinned SHA is reachable from the repository's own history is a
/// fact that can be looked up; an unreachable one was slipped in from a fork.
/// For every answer the lookups give, the findings are those of
/// [`check_r5_spec`].
pub fn check_r5<F: crate::github_facts::GithubFacts>(
    file: &str,
    entries: &[UsesEntry],
    facts: &F,
    ctx: &TrustContext,
) -> (r: Vec<Finding>)
    ensures
        exists|ans: Seq<crate::github_facts::Answer<bool>>|
            ans.len() == entries@.len() && r.deep_view() == check_r5_spec(
                file@,
                entries.deep_view(),
                ctx@,
                ans,
            ),
{
    let ghost es = entries.deep_view();
    let ghost mut ans: Seq<crate::github_facts::Answer<bool>> = Seq::empty();
    let mut out: Vec<Finding> = Vec::new();
    let n = entries.len();
    let mut i: usize = 0;
    while i < n
        invariant
            n == entries@.len(),
            es == entries.deep_view(),
            i <= n,
            ans.len() == i,
            out.deep_view() == somes(Seq::new(i as nat, |j: int| r5_at(file@, es[j], ctx@, ans[j]))),
        decreases n - i,
    {
        let e = &entries[i];
        let ghost a: crate::github_facts::Answer<bool> = crate::github_facts::Answer::Unknown;
        let f = match r5_target_exec(e, ctx) {
            Some((repo, sha)) => {
                let answer = facts.commit_reachable(repo.as_str(), sha.as_str());
                proof {
                    a = crate::github_facts::answer_of(answer);
                }
                r5_verdict(file, e, repo.as_str(), sha.as_str(), &answer)
            },
            None => None,
        };
        let ghost old_ans = ans;
        proof {
            ans = ans.push(a);
            let s1 = Seq::new((i + 1) as nat, |j: int| r5_at(file@, es[j], ctx@, ans[j]));
            let s0 = Seq::new(i as nat, |j: int| r5_at(file@, es[j], ctx@, old_ans[j]));
            assert(s1.take(i as int) =~= s0);
            lemma_somes_step(s1, i as int);
            assert(s1.take(i as int + 1) =~= s1);
            assert(s1[i as int] == f.deep_view());
        }
        push_opt(&mut out, f);
        i = i + 1;
    }
    assert(es.len() == n);
    assert(out.deep_view() == check_r5_spec(file@, es, ctx@, ans));
    out
}

// ------------------------------------------------------------------
// R10: cooldown (online)
// ------------------------------------------------------------------
pub const R10_A: &'static str = "이 참조는 발행된 지 ";
pub const R10_B: &'static str = "일밖에 안 됐습니다 (기준 ";
pub const R10_C: &'static str = "일) — 갓 나온 버전은 아직 아무도 검증하지 않은 버전입니다. 오염은 보통 며칠 내 발각되므로, 숙성 기간은 미검증 창(제로데이 창)을 회피하는 전략입니다";
pub const R10_FIX: &'static str = "일이 지난 뒤 도입하거나, 검증된 이전 버전을 사용하세요 (기준 조정: --cooldown-days)";
pub const SECONDS_PER_DAY: i128 = 86400;

/// Division that rounds toward zero, as Rust's integer `/` does.
pub open spec fn trunc_div(a: int, b: int) -> int {
    if a >= 0 {
        a / b
    } else {
        -((-a) / b)
    }
}

/// What R10 asks about an entry: the repository and the text after the first
/// `@` of a non-first-party action with a ref.
pub open spec fn r10_target(e: UsesEntryV, ctx: crate::trust::TrustContextV) -> Option<
    (Seq<char>, Seq<char>),
> {
    match parse_spec(e.value) {
        UsesRefV::Repository { owner_repo, git_ref: Some(_) } => {
            if classify_spec(ctx, owner_repo) == Trust::FirstParty {
                None
            } else {
                Some(
                    (
                        crate::uses_ref::repo_root_spec(owner_repo),
                        match crate::text::split_once(e.value, '@') {
                            Some((_, r)) => r,
                            None => Seq::empty(),
                        },
                    ),
                )
            }
        },
        _ => None,
    }
}

/// The R10 finding for an answer about when the ref was published: younger
/// than the cooldown is `Medium`; an unknown time gives no verdict.
pub open spec fn r10_verdict_spec(
    file: Seq<char>,
    e: UsesEntryV,
    cooldown_days: u32,
    now: i64,
    ans: crate::github_facts::Answer<i64>,
) -> Option<FindingV> {
    match ans {
        crate::github_facts::Answer::Known(ts) => {
            let age = now - ts;
            if age >= cooldown_days * 86400 {
                None
            } else {
                Some(
                    FindingV {
                        rule: "R10"@,
                        severity: Severity::Medium,
                        file,
                        line: e.line,
                        uses: e.value,
                        evidence: R10_A@ + dec_int(trunc_div(age, 86400)) + R10_B@ + dec(
                            cooldown_days as nat,
                        ) + R10_C@,
                        fix_hint: dec(cooldown_days as nat) + R10_FIX@,
                    },
                )
            }
        },
        _ => None,
    }
}

pub open spec fn r10_at(
    file: Seq<char>,
    e: UsesEntryV,
    ctx: crate::trust::TrustContextV,
    cooldown_days: u32,
    now: i64,
    ans: crate::github_facts::Answer<i64>,
) -> Option<FindingV> {
    match r10_target(e, ctx) {
        Some(_) => r10_verdict_spec(file, e, cooldown_days, now, ans),
        None => None,
    }
}

/// R10 over all entries, given the answer obtained for each of them.
pub open spec fn check_r10_spec(
    file: Seq<char>,
    entries: Seq<UsesEntryV>,
    ctx: crate::trust::TrustContextV,
    cooldown_days: u32,
    now: i64,
    ans: Seq<crate::github_facts::Answer<i64>>,
) -> Seq<FindingV> {
    somes(
        Seq::new(entries.len(), |i: int| r10_at(file, entries[i], ctx, cooldown_days, now, ans[i])),
    )
}

fn r10_target_exec(e: &UsesEntry, ctx: &TrustContext) -> (r: Option<(String, String)>)
    ensures
        match r {
            Some((repo, gr)) => r10_target(e.deep_view(), ctx@) == Some((repo@, gr@)),
            None => r10_target(e.deep_view(), ctx@) is None,
        },
{
    match crate::uses_ref::parse(e.value.as_str()) {
        UsesRef::Repository { owner_repo, git_ref: Some(_) } => {
            if ctx.classify(owner_repo.as_str()) == Trust::FirstParty {
                None
            } else {
                let v = chars_of(e.value.as_str());
                let gr = match crate::text::split_once_v(&v, '@') {
                    Some((_, r)) => string_of(&r),
                    None => empty_string(),
                };
                Some((crate::uses_ref::repo_root(owner_repo.as_str()), gr))
            }
        },
        _ => None,
    }
}

/// The R10 finding of an entry for what the publication-time lookup answered.
pub fn r10_verdict(
    file: &str,
    e: &UsesEntry,
    cooldown_days: u32,
    now: i64,
    answer: &std::io::Result<Option<i64>>,
) -> (r: Option<Finding>)
    ensures
        r.deep_view() == r10_verdict_spec(
            file@,
            e.deep_view(),
            cooldown_days,
            now,
            crate::github_facts::answer_of(*answer),
        ),
{
    match answer {
        Ok(Some(ts)) => {
            let age: i128 = now as i128 - *ts as i128;
            let threshold: i128 = cooldown_days as i128 * SECONDS_PER_DAY;
            if age >= threshold {
                return None;
            }
            let days: i128 = if age >= 0 {
                age / SECONDS_PER_DAY
            } else {
                -((-age) / SECONDS_PER_DAY)
            };
            assert(-0x1_0000_0000_0000_0000 <= days <= 0x1_0000_0000_0000_0000);
            assert(days == trunc_div(age as int, 86400));
            let days64: i64 = days as i64;
            let mut ev: Vec<char> = Vec::new();
            extend_str(&mut ev, R10_A);
            extend(&mut ev, &dec_i64(days64));
            extend_str(&mut ev, R10_B);
            let cd = dec_u64(cooldown_days as u64);
            extend(&mut ev, &cd);
            extend_str(&mut ev, R10_C);
            let mut fix: Vec<char> = Vec::new();
            extend(&mut fix, &cd);
            extend_str(&mut fix, R10_FIX);
            Some(
                Finding {
                    rule: "R10",
                    severity: Severity::Medium,
                    file: string_of(&chars_of(file)),
                    line: e.line,
                    uses: string_of(&chars_of(e.value.as_str())),
                    evidence: string_of(&ev),
                    fix_hint: string_of(&fix),
                },
            )
        },
        _ => None,
    }
}

/// R10: cooldown, a warning for refs published fewer than `cooldown_days`
/// days before `now` (online, `Medium`). A ref whose time is unknown gets no
/// verdict. For every answer the lookups give, the findings are those of
/// [`check_r10_spec`].
pub fn check_r10<F: crate::github_facts::GithubFacts>(
    file: &str,
    entries: &[UsesEntry],
    facts: &F,
    ctx: &TrustContext,
    cooldown_days: u32,
    now: i64,
) -> (r: Vec<Finding>)
    ensures
        exists|ans: Seq<crate::github_facts::Answer<i64>>|
            ans.len() == entries@.len() && r.deep_view() == check_r10_spec(
                file@,
                entries.deep_view(),
                ctx@,
                cooldown_days,
                now,
                ans,
            ),
{
    let ghost es = entries.deep_view();
    let ghost mut ans: Seq<crate::github_facts::Answer<i64>> = Seq::empty();
    let mut out: Vec<Finding> = Vec::new();
    let n = entries.len();
    let mut i: usize = 0;
    while i < n
        invariant
            n == entries@.len(),
            es == entries.deep_view(),
            i <= n,
            ans.len() == i,
            out.deep_view() == somes(
                Seq::new(i as nat, |j: int| r10_at(file@, es[j], ctx@, cooldown_days, now, ans[j])),
            ),
        decreases n - i,
    {
        let e = &entries[i];
        let ghost a: crate::github_facts::Answer<i64> = crate::github_facts::Answer::Unknown;
        let f = match r10_target_exec(e, ctx) {
            Some((repo, gr)) => {
                let answer = facts.ref_timestamp(repo.as_str(), gr.as_str());
                proof {
                    a = crate::github_facts::answer_of(answer);
                }
                r10_verdict(file, e, cooldown_days, now, &answer)
            },
            None => None,
        };
        let ghost old_ans = ans;
        proof {
            ans = ans.push(a);
            let s1 = Seq::new(
                (i + 1) as nat,
                |j: int| r10_at(file@, es[j], ctx@, cooldown_days, now, ans[j]),
            );
            let s0 = Seq::new(
                i as nat,
                |j: int| r10_at(file@, es[j], ctx@, cooldown_days, now, old_ans[j]),
            );
            assert(s1.take(i as int) =~= s0);
            lemma_somes_step(s1, i as int);
            assert(s1.take(i as int + 1) =~= s1);
            assert(s1[i as int] == f.deep_view());
        }
        push_opt(&mut out, f);
        i = i + 1;
    }
    assert(es.len() == n);
    assert(out.deep_view() == check_r10_spec(file@, es, ctx@, cooldown_days, now, ans));
    out
}

// ------------------------------------------------------------------
// LOCK: moved tags
// ------------------------------------------------------------------
pub const LOCK_UNLOCKED_A: &'static str = "가변 참조 `";
pub const LOCK_UNLOCKED_B: &'static str = "`이(가) shield.lock에 박제되어 있지 않습니다 — 이동 감시 대상에서 빠져 있습니다";
pub const LOCK_UNLOCKED_FIX: &'static str = "`just-shield lock`을 실행해 박제본을 갱신하세요";
pub const LOCK_UNKNOWN: &'static str = "`의 현재 SHA를 확인하지 못했습니다 — 판정 보류 (확인 불가는 오탐을 만들지 않습니다)";
pub const LOCK_HIJACK: &'static str = "태그 하이재킹 신호";
pub const LOCK_ALIAS: &'static str = "이동 감지 — 메이저 별칭/브랜치는 정상 릴리스로도 이동합니다";
pub const LOCK_MOVED_A: &'static str = "박제 시점의 `";
pub const LOCK_MOVED_B: &'static str = "`은(는) ";
pub const LOCK_MOVED_C: &'static str = "였는데 지금은 ";
pub const LOCK_MOVED_D: &'static str = "를 가리킵니다 — ";
pub const LOCK_MOVED_E: &'static str = " (TeamPCP가 Trivy/KICS에 쓴 수법)";
pub const LOCK_MOVED_FIX: &'static str = "업스트림 릴리스 노트로 의도된 변경인지 확인하고, 맞다면 `just-shield lock`을 재실행하세요";

/// What LOCK checks for an entry: the repository and the mutable ref of a
/// non-first-party action.
pub open spec fn lock_target(e: UsesEntryV, ctx: crate::trust::TrustContextV) -> Option<
    (Seq<char>, Seq<char>),
> {
    match parse_spec(e.value) {
        UsesRefV::Repository { owner_repo, git_ref: Some(RefKindV::Mutable(r)) } => {
            if classify_spec(ctx, owner_repo) == Trust::FirstParty {
                None
            } else {
                Some((crate::uses_ref::repo_root_spec(owner_repo), r))
            }
        },
        _ => None,
    }
}

/// An exact version tag holds a dot (`1.2.3`); a major alias (`v4`) or a
/// branch does not.
pub open spec fn exact_version(git_ref: Seq<char>) -> bool {
    git_ref.contains('.')
}

pub open spec fn lock_finding(
    file: Seq<char>,
    e: UsesEntryV,
    severity: Severity,
    evidence: Seq<char>,
    fix_hint: Seq<char>,
) -> FindingV {
    FindingV { rule: "LOCK"@, severity, file, line: e.line, uses: e.value, evidence, fix_hint }
}

/// The LOCK finding of an entry: a ref missing from the lock is `Info`; when
/// online, a ref that now points elsewhere than recorded is `High` for an
/// exact version tag and `Info` otherwise, and a failed lookup is `Info`.
/// Offline a recorded ref is not compared.
pub open spec fn lock_verdict_spec(
    file: Seq<char>,
    e: UsesEntryV,
    repo: Seq<char>,
    git_ref: Seq<char>,
    locked: Option<Seq<char>>,
    online: bool,
    ans: crate::github_facts::Answer<Seq<char>>,
) -> Option<FindingV> {
    let reference = repo + "@"@ + git_ref;
    match locked {
        None => Some(
            lock_finding(
                file,
                e,
                Severity::Info,
                LOCK_UNLOCKED_A@ + reference + LOCK_UNLOCKED_B@,
                LOCK_UNLOCKED_FIX@,
            ),
        ),
        Some(sha) => if !online {
            None
        } else {
            match ans {
                crate::github_facts::Answer::Known(current) => if current == sha {
                    None
                } else {
                    Some(
                        lock_finding(
                            file,
                            e,
                            if exact_version(git_ref) {
                                Severity::High
                            } else {
                                Severity::Info
                            },
                            LOCK_MOVED_A@ + reference + LOCK_MOVED_B@ + sha + LOCK_MOVED_C@ + current
                                + LOCK_MOVED_D@ + (if exact_version(git_ref) {
                                LOCK_HIJACK@
                            } else {
                                LOCK_ALIAS@
                            }) + LOCK_MOVED_E@,
                            LOCK_MOVED_FIX@,
                        ),
                    )
                },
                _ => Some(
                    lock_finding(
                        file,
                        e,
                        Severity::Info,
                        "`"@ + reference + LOCK_UNKNOWN@,
                        RETRY_FIX@,
                    ),
                ),
            }
        },
    }
}

pub open spec fn lock_at(
    file: Seq<char>,
    e: UsesEntryV,
    ctx: crate::trust::TrustContextV,
    lock: Seq<(Seq<char>, Seq<char>)>,
    online: bool,
    ans: crate::github_facts::Answer<Seq<char>>,
) -> Option<FindingV> {
    match lock_target(e, ctx) {
        Some((repo, r)) => lock_verdict_spec(
            file,
            e,
            repo,
            r,
            crate::sorted::map_get(lock, crate::lockfile::key_spec(repo, r)),
            online,
            ans,
        ),
        None => None,
    }
}

/// LOCK over all entries, given the answer obtained for each of them.
pub open spec fn check_lock_spec(
    file: Seq<char>,
    entries: Seq<UsesEntryV>,
    lock: Seq<(Seq<char>, Seq<char>)>,
    online: bool,
    ctx: crate::trust::TrustContextV,
    ans: Seq<crate::github_facts::Answer<Seq<char>>>,
) -> Seq<FindingV> {
    somes(Seq::new(entries.len(), |i: int| lock_at(file, entries[i], ctx, lock, online, ans[i])))
}

pub(crate) fn lock_target_exec(e: &UsesEntry, ctx: &TrustContext) -> (r: Option<(String, String)>)
    ensures
        match r {
            Some((repo, gr)) => lock_target(e.deep_view(), ctx@) == Some((repo@, gr@)),
            None => lock_target(e.deep_view(), ctx@) is None,
        },
{
    match crate::uses_ref::parse(e.value.as_str()) {
        UsesRef::Repository { owner_repo, git_ref: Some(RefKind::Mutable(r)) } => {
            if ctx.classify(owner_repo.as_str()) == Trust::FirstParty {
                None
            } else {
                Some((crate::uses_ref::repo_root(owner_repo.as_str()), r))
            }
        },
        _ => None,
    }
}

fn make_lock_finding(file: &str, e: &UsesEntry, severity: Severity, ev: &Vec<char>, fix: &str) -> (r:
    Finding)
    ensures
        r.deep_view() == lock_finding(file@, e.deep_view(), severity, ev@, fix@),
{
    Finding {
        rule: "LOCK",
        severity,
        file: string_of(&chars_of(file)),
        line: e.line,
        uses: string_of(&chars_of(e.value.as_str())),
        evidence: string_of(ev),
        fix_hint: string_of(&chars_of(fix)),
    }
}

fn reference_text(repo: &str, git_ref: &str) -> (r: Vec<char>)
    ensures
        r@ == repo@ + "@"@ + git_ref@,
{
    let mut v = chars_of(repo);
    extend_str(&mut v, "@");
    extend_str(&mut v, git_ref);
    v
}

/// The finding of a recorded ref that now points at `current`.
fn moved_finding(file: &str, e: &UsesEntry, repo: &str, git_ref: &str, sha: &str, current: &str) -> (r:
    Finding)
    ensures
        r.deep_view() == lock_finding(
            file@,
            e.deep_view(),
            if exact_version(git_ref@) {
                Severity::High
            } else {
                Severity::Info
            },
            LOCK_MOVED_A@ + (repo@ + "@"@ + git_ref@) + LOCK_MOVED_B@ + sha@ + LOCK_MOVED_C@ + current@
                + LOCK_MOVED_D@ + (if exact_version(git_ref@) {
                LOCK_HIJACK@
            } else {
                LOCK_ALIAS@
            }) + LOCK_MOVED_E@,
            LOCK_MOVED_FIX@,
        ),
{
    let gv = chars_of(git_ref);
    let exact = crate::text::index_of_v(&gv, '.', 0) < gv.len();
    proof {
        crate::text::lemma_index_of_contains(gv@, '.');
    }
    let mut ev: Vec<char> = Vec::new();
    extend_str(&mut ev, LOCK_MOVED_A);
    extend(&mut ev, &reference_text(repo, git_ref));
    extend_str(&mut ev, LOCK_MOVED_B);
    extend_str(&mut ev, sha);
    extend_str(&mut ev, LOCK_MOVED_C);
    extend_str(&mut ev, current);
    extend_str(&mut ev, LOCK_MOVED_D);
    if exact {
        extend_str(&mut ev, LOCK_HIJACK);
    } else {
        extend_str(&mut ev, LOCK_ALIAS);
    }
    extend_str(&mut ev, LOCK_MOVED_E);
    make_lock_finding(
        file,
        e,
        if exact {
            Severity::High
        } else {
            Severity::Info
        },
        &ev,
        LOCK_MOVED_FIX,
    )
}

/// The LOCK finding of an entry for `repo@git_ref`, given the SHA the lock
/// records for it (if any), whether lookups are made, and what the lookup of
/// the current SHA answered (unused offline or when nothing is recorded).
pub fn lock_verdict(
    file: &str,
    e: &UsesEntry,
    repo: &str,
    git_ref: &str,
    locked: Option<&str>,
    online: bool,
    answer: &std::io::Result<Option<String>>,
) -> (r: Option<Finding>)
    ensures
        r.deep_view() == lock_verdict_spec(
            file@,
            e.deep_view(),
            repo@,
            git_ref@,
            match locked {
                Some(s) => Some(s@),
                None => None,
            },
            online,
            crate::github_facts::answer_text(*answer),
        ),
{
    match locked {
        None => {
            let mut ev: Vec<char> = Vec::new();
            extend_str(&mut ev, LOCK_UNLOCKED_A);
            extend(&mut ev, &reference_text(repo, git_ref));
            extend_str(&mut ev, LOCK_UNLOCKED_B);
            Some(make_lock_finding(file, e, Severity::Info, &ev, LOCK_UNLOCKED_FIX))
        },
        Some(sha) => {
            if !online {
                return None;
            }
            match answer {
                Ok(Some(current)) => {
                    if crate::text::str_eq(current.as_str(), sha) {
                        None
                    } else {
                        Some(moved_finding(file, e, repo, git_ref, sha, current.as_str()))
                    }
                },
                _ => {
                    let mut ev: Vec<char> = Vec::new();
                    extend_str(&mut ev, "`");
                    extend(&mut ev, &reference_text(repo, git_ref));
                    extend_str(&mut ev, LOCK_UNKNOWN);
                    Some(make_lock_finding(file, e, Severity::Info, &ev, RETRY_FIX))
                },
            }
        },
    }
}

/// LOCK: tags that moved since shield.lock recorded them.
///
/// A recorded SHA that differs from the current one is a fact. Major aliases
/// and branches move in normal releases too, so they stay `Info`; only a moved
/// exact version tag is `High`. Without `facts` (offline) recorded refs are not
/// compared. For every answer the lookups give, the findings are those of
/// [`check_lock_spec`].
pub fn check_lock<F: crate::github_facts::GithubFacts>(
    file: &str,
    entries: &[UsesEntry],
    lockfile: &crate::lockfile::Lockfile,
    facts: Option<&F>,
    ctx: &TrustContext,
) -> (r: Vec<Finding>)
    ensures
        exists|ans: Seq<crate::github_facts::Answer<Seq<char>>>|
            ans.len() == entries@.len() && r.deep_view() == #[trigger] check_lock_spec(
                file@,
                entries.deep_view(),
                lockfile.view(),
                facts is Some,
                ctx@,
                ans,
            ),
{
    let ghost es = entries.deep_view();
    let ghost lv = lockfile.view();
    let ghost online = facts is Some;
    let ghost mut ans: Seq<crate::github_facts::Answer<Seq<char>>> = Seq::empty();
    let mut out: Vec<Finding> = Vec::new();
    let n = entries.len();
    let mut i: usize = 0;
    while i < n
        invariant
            n == entries@.len(),
            es == entries.deep_view(),
            lv == lockfile.view(),
            online == facts is Some,
            i <= n,
            ans.len() == i,
            out.deep_view() == somes(
                Seq::new(i as nat, |j: int| lock_at(file@, es[j], ctx@, lv, online, ans[j])),
            ),
        decreases n - i,
    {
        let e = &entries[i];
        let ghost a: crate::github_facts::Answer<Seq<char>> = crate::github_facts::Answer::Unknown;
        let f = match lock_target_exec(e, ctx) {
            Some((repo, gr)) => {
                let locked = lockfile.get(repo.as_str(), gr.as_str());
                match (locked, facts) {
                    (Some(sha), Some(fa)) => {
                        let answer = fa.resolve_ref(repo.as_str(), gr.as_str());
                        proof {
                            a = crate::github_facts::answer_text(answer);
                        }
                        lock_verdict(file, e, repo.as_str(), gr.as_str(), Some(sha), true, &answer)
                    },
                    _ => {
                        let nothing: std::io::Result<Option<String>> = Ok(None);
                        lock_verdict(
                            file,
                            e,
                            repo.as_str(),
                            gr.as_str(),
                            locked,
                            facts.is_some(),
                            &nothing,
                        )
                    },
                }
            },
            None => None,
        };
        let ghost old_ans = ans;
        proof {
            ans = ans.push(a);
            let s1 = Seq::new(
                (i + 1) as nat,
                |j: int| lock_at(file@, es[j], ctx@, lv, online, ans[j]),
            );
            let s0 = Seq::new(i as nat, |j: int| lock_at(file@, es[j], ctx@, lv, online, old_ans[j]));
            assert(s1.take(i as int) =~= s0);
            lemma_somes_step(s1, i as int);
            assert(s1.take(i as int + 1) =~= s1);
            assert(s1[i as int] == f.deep_view());
        }
        push_opt(&mut out, f);
        i = i + 1;
    }
    assert(es.len() == n);
    assert(out.deep_view() == check_lock_spec(file@, es, lv, online, ctx@, ans));
    out
}

// ------------------------------------------------------------------
// R2: typosquatting
// ------------------------------------------------------------------
pub const R2_A: &'static str = "`은(는) 유명 액션 `";
pub const R2_B: &'static str = "`과(와) 한 글자 차이입니다 —              타이포스쿼팅 위장의 흔한 형태 (TeamPCP는 aquasecurtiy.org 도메인을 썼습니다)";
pub const R2_C: &'static str = ". 교차 검증: 의심 저장소는 버전 태그 ";
pub const R2_D: &'static str = "개(무명),                      `";
pub const R2_E: &'static str = "`은 ";
pub const R2_F: &'static str = "개 — 증거가 모여 격상";
pub const R2_HEURISTIC: &'static str = ". 이름 유사도는 휴리스틱이므로 안내 등급입니다";
pub const R2_FIX_A: &'static str = "의도한 액션이 `";
pub const R2_FIX_B: &'static str = "`인지 철자를 확인하세요";

/// What R2 flags: the repository of a non-first-party action and the popular
/// action its name is one edit away from.
pub open spec fn r2_target(e: UsesEntryV, ctx: crate::trust::TrustContextV, popular: Seq<Seq<char>>) -> Option<
    (Seq<char>, Seq<char>),
> {
    match parse_spec(e.value) {
        UsesRefV::Repository { owner_repo, .. } => {
            if classify_spec(ctx, owner_repo) == Trust::FirstParty {
                None
            } else {
                let repo = crate::uses_ref::repo_root_spec(owner_repo);
                match crate::typosquat::similar_popular_spec(repo, popular) {
                    Some(original) => Some((repo, original)),
                    None => None,
                }
            }
        },
        _ => None,
    }
}

/// The corroboration: online, the suspect has at most 2 version tags and the
/// original at least 10. Anything unknown leaves it uncorroborated.
pub open spec fn corroborated_spec(
    online: bool,
    suspect: crate::github_facts::Answer<usize>,
    orig: crate::github_facts::Answer<usize>,
) -> Option<(usize, usize)> {
    match (suspect, orig) {
        (crate::github_facts::Answer::Known(s), crate::github_facts::Answer::Known(o)) => if online
            && s <= 2 && o >= 10 {
            Some((s, o))
        } else {
            None
        },
        _ => None,
    }
}

/// The R2 finding: `High` when corroborated, `Info` otherwise (name similarity
/// alone is a heuristic).
pub open spec fn r2_verdict_spec(
    file: Seq<char>,
    e: UsesEntryV,
    repo: Seq<char>,
    original: Seq<char>,
    corroborated: Option<(usize, usize)>,
) -> FindingV {
    let base = "`"@ + repo + R2_A@ + original + R2_B@;
    FindingV {
        rule: "R2"@,
        severity: if corroborated is Some {
            Severity::High
        } else {
            Severity::Info
        },
        file,
        line: e.line,
        uses: e.value,
        evidence: match corroborated {
            Some((s, o)) => base + R2_C@ + dec(s as nat) + R2_D@ + original + R2_E@ + dec(o as nat)
                + R2_F@,
            None => base + R2_HEURISTIC@,
        },
        fix_hint: R2_FIX_A@ + original + R2_FIX_B@,
    }
}

pub open spec fn r2_at(
    file: Seq<char>,
    e: UsesEntryV,
    ctx: crate::trust::TrustContextV,
    popular: Seq<Seq<char>>,
    online: bool,
    ans: (crate::github_facts::Answer<usize>, crate::github_facts::Answer<usize>),
) -> Option<FindingV> {
    match r2_target(e, ctx, popular) {
        Some((repo, original)) => Some(
            r2_verdict_spec(file, e, repo, original, corroborated_spec(online, ans.0, ans.1)),
        ),
        None => None,
    }
}

/// R2 over all entries against the bundled list, given the answers obtained
/// for the suspect and the original of each of them.
pub open spec fn check_r2_spec(
    file: Seq<char>,
    entries: Seq<UsesEntryV>,
    ctx: crate::trust::TrustContextV,
    online: bool,
    ans: Seq<(crate::github_facts::Answer<usize>, crate::github_facts::Answer<usize>)>,
) -> Seq<FindingV> {
    somes(
        Seq::new(
            entries.len(),
            |i: int|
                r2_at(
                    file,
                    entries[i],
                    ctx,
                    crate::typosquat::popular_list(crate::typosquat::BUNDLED@),
                    online,
                    ans[i],
                ),
        ),
    )
}

fn r2_target_exec(e: &UsesEntry, ctx: &TrustContext, popular: &Vec<String>) -> (r: Option<
    (String, String),
>)
    ensures
        match r {
            Some((repo, o)) => r2_target(e.deep_view(), ctx@, popular.deep_view()) == Some(
                (repo@, o@),
            ),
            None => r2_target(e.deep_view(), ctx@, popular.deep_view()) is None,
        },
{
    match crate::uses_ref::parse(e.value.as_str()) {
        UsesRef::Repository { owner_repo, .. } => {
            if ctx.classify(owner_repo.as_str()) == Trust::FirstParty {
                None
            } else {
                let repo = crate::uses_ref::repo_root(owner_repo.as_str());
                match crate::typosquat::similar_popular(repo.as_str(), popular.as_slice()) {
                    Some(original) => Some((repo, original)),
                    None => None,
                }
            }
        },
        _ => None,
    }
}

/// The R2 finding of an entry in `repo` that looks like `original`, given the
/// tag counts when they corroborate the suspicion.
pub fn r2_verdict(
    file: &str,
    e: &UsesEntry,
    repo: &str,
    original: &str,
    corroborated: Option<(usize, usize)>,
) -> (r: Finding)
    ensures
        r.deep_view() == r2_verdict_spec(file@, e.deep_view(), repo@, original@, corroborated),
{
    let mut ev: Vec<char> = Vec::new();
    extend_str(&mut ev, "`");
    extend_str(&mut ev, repo);
    extend_str(&mut ev, R2_A);
    extend_str(&mut ev, original);
    extend_str(&mut ev, R2_B);
    match corroborated {
        Some((s, o)) => {
            extend_str(&mut ev, R2_C);
            extend(&mut ev, &dec_usize(s));
            extend_str(&mut ev, R2_D);
            extend_str(&mut ev, original);
            extend_str(&mut ev, R2_E);
            extend(&mut ev, &dec_usize(o));
            extend_str(&mut ev, R2_F);
        },
        None => {
            extend_str(&mut ev, R2_HEURISTIC);
        },
    }
    let mut fix: Vec<char> = Vec::new();
    extend_str(&mut fix, R2_FIX_A);
    extend_str(&mut fix, original);
    extend_str(&mut fix, R2_FIX_B);
    Finding {
        rule: "R2",
        severity: if corroborated.is_some() {
            Severity::High
        } else {
            Severity::Info
        },
        file: string_of(&chars_of(file)),
        line: e.line,
        uses: string_of(&chars_of(e.value.as_str())),
        evidence: string_of(&ev),
        fix_hint: string_of(&fix),
    }
}

/// R2: typosquatting, names one edit away from a well-known action.
///
/// Name similarity is a heuristic, so offline the finding is `Info`. It is
/// promoted to `High` only when the tag counts corroborate it: the suspect has
/// at most 2 version tags and the original at least 10. For every answer the
/// lookups give, the findings are those of [`check_r2_spec`].
pub fn check_r2<F: crate::github_facts::GithubFacts>(
    file: &str,
    entries: &[UsesEntry],
    ctx: &TrustContext,
    facts: Option<&F>,
) -> (r: Vec<Finding>)
    ensures
        exists|ans: Seq<(crate::github_facts::Answer<usize>, crate::github_facts::Answer<usize>)>|
            ans.len() == entries@.len() && r.deep_view() == #[trigger] check_r2_spec(
                file@,
                entries.deep_view(),
                ctx@,
                facts is Some,
                ans,
            ),
{
    let popular = crate::typosquat::bundled_popular();
    let ghost pv = popular.deep_view();
    let ghost es = entries.deep_view();
    let ghost online = facts is Some;
    let ghost mut ans: Seq<(crate::github_facts::Answer<usize>, crate::github_facts::Answer<usize>)> =
        Seq::empty();
    let mut out: Vec<Finding> = Vec::new();
    let n = entries.len();
    let mut i: usize = 0;
    while i < n
        invariant
            n == entries@.len(),
            es == entries.deep_view(),
            pv == popular.deep_view(),
            pv == crate::typosquat::popular_list(crate::typosquat::BUNDLED@),
            online == facts is Some,
            i <= n,
            ans.len() == i,
            out.deep_view() == somes(
                Seq::new(i as nat, |j: int| r2_at(file@, es[j], ctx@, pv, online, ans[j])),
            ),
        decreases n - i,
    {
        let e = &entries[i];
        let ghost mut a1: crate::github_facts::Answer<usize> = crate::github_facts::Answer::Unknown;
        let ghost mut a2: crate::github_facts::Answer<usize> = crate::github_facts::Answer::Unknown;
        let f = match r2_target_exec(e, ctx, &popular) {
            Some((repo, original)) => {
                let mut corroborated: Option<(usize, usize)> = None;
                match facts {
                    Some(fa) => {
                        let s1 = fa.ref_count(repo.as_str());
                        proof {
                            a1 = crate::github_facts::answer_of(s1);
                        }
                        match s1 {
                            Ok(Some(suspect)) => {
                                let s2 = fa.ref_count(original.as_str());
                                proof {
                                    a2 = crate::github_facts::answer_of(s2);
                                }
                                match s2 {
                                    Ok(Some(orig)) => {
                                        if suspect <= 2 && orig >= 10 {
                                            corroborated = Some((suspect, orig));
                                        }
                                    },
                                    _ => {},
                                }
                            },
                            _ => {},
                        }
                    },
                    None => {},
                }
                assert(corroborated == corroborated_spec(online, a1, a2));
                Some(r2_verdict(file, e, repo.as_str(), original.as_str(), corroborated))
            },
            None => None,
        };
        let ghost old_ans = ans;
        proof {
            ans = ans.push((a1, a2));
            let s1 = Seq::new((i + 1) as nat, |j: int| r2_at(file@, es[j], ctx@, pv, online, ans[j]));
            let s0 = Seq::new(i as nat, |j: int| r2_at(file@, es[j], ctx@, pv, online, old_ans[j]));
            assert(s1.take(i as int) =~= s0);
            lemma_somes_step(s1, i as int);
            assert(s1.take(i as int + 1) =~= s1);
            assert(s1[i as int] == f.deep_view());
        }
        push_opt(&mut out, f);
        i = i + 1;
    }
    assert(es.len() == n);
    assert(out.deep_view() == check_r2_spec(file@, es, ctx@, online, ans));
    out
}

/// R4 only warns: every finding it gives is a `Medium` R4 finding, and an
/// image reference pinned by `@sha256:` gives none.
pub proof fn unpinned_images_are_medium(file: Seq<char>, entries: Seq<UsesEntryV>, images: Seq<UsesEntryV>)
    ensures
        forall|k: int|
            0 <= k < check_r4_spec(file, entries, images).len() ==> (#[trigger] check_r4_spec(
                file,
                entries,
                images,
            )[k]).severity == Severity::Medium && check_r4_spec(file, entries, images)[k].rule == "R4"@,
        forall|e: UsesEntryV| contains_sub(e.value, "@sha256:"@) ==> #[trigger] r4_item(file, e.line, e.value, e.value) is None,
{
    let p = |f: FindingV| f.severity == Severity::Medium && f.rule == "R4"@;
    let a = entries.map_values(|e: UsesEntryV| r4_docker(file, e));
    let b = images.map_values(|e: UsesEntryV| r4_item(file, e.line, e.value, e.value));
    assert forall|q: int| 0 <= q < a.len() && (#[trigger] a[q]) is Some implies p(a[q]->0) by {
        assert(a[q] == r4_docker(file, entries[q]));
    }
    assert forall|q: int| 0 <= q < b.len() && (#[trigger] b[q]) is Some implies p(b[q]->0) by {
        assert(b[q] == r4_item(file, images[q].line, images[q].value, images[q].value));
    }
    lemma_somes_all(a, p);
    lemma_somes_all(b, p);
    let r = check_r4_spec(file, entries, images);
    assert forall|k: int| 0 <= k < r.len() implies p(#[trigger] r[k]) by {
        if k < somes(a).len() {
            assert(r[k] == somes(a)[k]);
        } else {
            assert(r[k] == somes(b)[k - somes(a).len()]);
        }
    }
}

/// R3 per step: a step is reported only when it pipes a download into a
/// shell and checks no checksum (`sha256sum`, `shasum`), and then as `Info` on
/// the step's line, with no `uses:` value.
pub proof fn checksummed_installs_are_silent(file: Seq<char>, s: StepV)
    ensures
        contains_sub(s.text, "sha256sum"@) || contains_sub(s.text, "shasum"@) ==> r3_step(file, s) is None,
        !has_pipe_install(s.text) ==> r3_step(file, s) is None,
        r3_step(file, s) matches Some(f) ==> f.rule == "R3"@ && f.severity == Severity::Info && f.line
            == s.line && f.uses.len() == 0,
{
}

// ------------------------------------------------------------------
// What every rule keeps to
// ------------------------------------------------------------------
/// Shell parsing is a heuristic, so a pipe install is only ever reported as
/// `Info`: R3 never fails a build.
pub proof fn pipe_installs_are_only_info(file: Seq<char>, doc: WorkflowDocV)
    ensures
        forall|k: int|
            0 <= k < check_r3_spec(file, doc).len() ==> (#[trigger] check_r3_spec(file, doc)[k]).severity
                == Severity::Info,
{
    let p = |f: FindingV| f.severity == Severity::Info;
    let m = doc.jobs.map_values(|j: JobV| r3_job(file, j));
    assert forall|i: int, j: int| 0 <= i < m.len() && 0 <= j < m[i].len() implies p(
        #[trigger] m[i][j],
    ) by {
        let job = doc.jobs[i];
        let steps = job.steps.map_values(|st: StepV| r3_step(file, st));
        assert forall|q: int| 0 <= q < steps.len() && (#[trigger] steps[q]) is Some implies p(
            steps[q]->0,
        ) by {
            assert(steps[q] == r3_step(file, job.steps[q]));
        }
        lemma_somes_all(steps, p);
        assert(m[i] == somes(steps));
    }
    lemma_concat_all(m, p);
}

/// R2 per entry: exactly a non-first-party action one edit away from a
/// well-known one is reported, as an R2 finding on its line with its `uses:`
/// value. It is `High` exactly when corroborated online (the suspect has at
/// most 2 version tags and the original at least 10, both known), otherwise
/// `Info`; offline it is always `Info`.
pub proof fn typosquats_are_high_only_when_corroborated(
    file: Seq<char>,
    e: UsesEntryV,
    ctx: crate::trust::TrustContextV,
    popular: Seq<Seq<char>>,
    online: bool,
    ans: (crate::github_facts::Answer<usize>, crate::github_facts::Answer<usize>),
)
    ensures
        r2_at(file, e, ctx, popular, online, ans) is Some <==> r2_target(e, ctx, popular) is Some,
        r2_at(file, e, ctx, popular, online, ans) matches Some(f) ==> {
            &&& f.rule == "R2"@
            &&& f.line == e.line
            &&& f.uses == e.value
            &&& (!online ==> f.severity == Severity::Info)
            &&& (f.severity == Severity::High || f.severity == Severity::Info)
            &&& (f.severity == Severity::High <==> online && exists|s: usize, o: usize|
                ans == (crate::github_facts::Answer::Known(s), crate::github_facts::Answer::Known(o)) && s
                    <= 2 && o >= 10)
        },
{
    match (ans.0, ans.1) {
        (crate::github_facts::Answer::Known(s), crate::github_facts::Answer::Known(o)) => {
            assert(ans == (crate::github_facts::Answer::Known(s), crate::github_facts::Answer::Known(o)));
        },
        _ => {},
    }
}

/// R1 per entry: exactly a non-first-party repository action that is not
/// pinned to a commit SHA is reported, as an R1 finding on its line with its
/// `uses:` value and a non-empty evidence and fix hint; it is `Info` for an
/// official action and `High` otherwise. Local actions, `docker://` images and
/// SHA pins give none.
pub proof fn r1_reports_unpinned_third_party_actions(
    file: Seq<char>,
    e: UsesEntryV,
    ctx: crate::trust::TrustContextV,
)
    ensures
        r1_entry(file, e, ctx) is Some <==> (parse_spec(e.value) matches UsesRefV::Repository {
            owner_repo,
            git_ref,
        } && classify_spec(ctx, owner_repo) != Trust::FirstParty && !(git_ref matches Some(
            RefKindV::CommitSha(_),
        ))),
        r1_entry(file, e, ctx) matches Some(f) ==> {
            &&& f.rule == "R1"@
            &&& f.line == e.line
            &&& f.uses == e.value
            &&& f.evidence.len() > 0
            &&& f.fix_hint.len() > 0
            &&& parse_spec(e.value) matches UsesRefV::Repository { owner_repo, .. } && (f.severity
                == Severity::Info <==> classify_spec(ctx, owner_repo) == Trust::Official) && (f.severity
                == Severity::Info || f.severity == Severity::High)
        },
{
    reveal_strlit("커밋 SHA로 핀 고정 — uses: ");
    reveal_strlit(" (TeamPCP는 이 방식으로 Trivy 태그 76개를 하이재킹했습니다)");
    reveal_strlit(" (GitHub 공식 액션이라 완화 등급 — 그래도 SHA 핀 고정을 권고합니다)");
}

/// R5 per entry: only a non-first-party action pinned to a commit SHA is
/// checked. An unreachable commit is a `High` R5 finding whose evidence names
/// the SHA; a failed lookup is an `Info` R5 finding; a reachable commit, or an
/// answer that cannot tell, gives none; and so does every other entry.
pub proof fn r5_reports_only_unreachable_pins(
    file: Seq<char>,
    e: UsesEntryV,
    ctx: crate::trust::TrustContextV,
    ans: crate::github_facts::Answer<bool>,
)
    ensures
        r5_target(e, ctx) is None ==> r5_at(file, e, ctx, ans) is None,
        r5_target(e, ctx) matches Some((repo, sha)) ==> {
            &&& (ans == crate::github_facts::Answer::Known(true) || ans
                == crate::github_facts::Answer::<bool>::Unknown) ==> r5_at(file, e, ctx, ans) is None
            &&& ans == crate::github_facts::Answer::Known(false) ==> (r5_at(file, e, ctx, ans) matches Some(
                f,
            ) && f.rule == "R5"@ && f.severity == Severity::High && f.line == e.line && f.uses == e.value
                && exists|pre: Seq<char>, post: Seq<char>| f.evidence == #[trigger] ((pre + sha) + post))
            &&& ans == crate::github_facts::Answer::<bool>::Failed ==> (r5_at(file, e, ctx, ans) matches Some(
                f,
            ) && f.rule == "R5"@ && f.severity == Severity::Info && f.line == e.line)
        },
{
    match r5_target(e, ctx) {
        Some((repo, sha)) => {
            if ans == crate::github_facts::Answer::Known(false) {
                let f = r5_at(file, e, ctx, ans)->0;
                let post = R5_IMPOSTOR_B@ + repo + R5_IMPOSTOR_C@;
                assert(f.evidence =~= (R5_IMPOSTOR_A@ + sha) + post);
            }
        },
        None => {},
    }
}

/// LOCK per entry: a SHA pin, a local action, a `docker://` image or a
/// first-party action is not checked and gives none; offline a ref recorded in
/// shield.lock is not compared and gives none; and every finding is a `High`
/// or `Info` LOCK finding on the entry's line, `High` only online for an exact
/// version that now points elsewhere than recorded.
pub proof fn lock_checks_only_recorded_mutable_refs(
    file: Seq<char>,
    e: UsesEntryV,
    ctx: crate::trust::TrustContextV,
    lock: Seq<(Seq<char>, Seq<char>)>,
    online: bool,
    ans: crate::github_facts::Answer<Seq<char>>,
)
    ensures
        lock_target(e, ctx) is None ==> lock_at(file, e, ctx, lock, online, ans) is None,
        lock_target(e, ctx) matches Some((repo, r)) && !online && crate::sorted::map_get(
            lock,
            crate::lockfile::key_spec(repo, r),
        ) is Some ==> lock_at(file, e, ctx, lock, online, ans) is None,
        lock_at(file, e, ctx, lock, online, ans) matches Some(f) ==> {
            &&& f.rule == "LOCK"@
            &&& f.line == e.line
            &&& f.uses == e.value
            &&& (f.severity == Severity::High || f.severity == Severity::Info)
            &&& (f.severity == Severity::High ==> online && (lock_target(e, ctx) matches Some((repo, r))
                && exact_version(r) && (ans matches crate::github_facts::Answer::Known(cur)
                && (crate::sorted::map_get(lock, crate::lockfile::key_spec(repo, r)) matches Some(sha)
                && cur != sha))))
        },
{
}

/// Name similarity alone is a heuristic: offline (no lookups), every R2
/// finding is `Info`, whatever the answers would have been.
pub proof fn offline_typosquats_are_only_info(
    file: Seq<char>,
    entries: Seq<UsesEntryV>,
    ctx: crate::trust::TrustContextV,
    ans: Seq<(crate::github_facts::Answer<usize>, crate::github_facts::Answer<usize>)>,
)
    requires
        ans.len() == entries.len(),
    ensures
        forall|k: int|
            0 <= k < check_r2_spec(file, entries, ctx, false, ans).len() ==> (#[trigger] check_r2_spec(
                file,
                entries,
                ctx,
                false,
                ans,
            )[k]).severity == Severity::Info,
{
    let p = |f: FindingV| f.severity == Severity::Info;
    let pop = crate::typosquat::popular_list(crate::typosquat::BUNDLED@);
    let m = Seq::new(entries.len(), |i: int| r2_at(file, entries[i], ctx, pop, false, ans[i]));
    assert forall|i: int| 0 <= i < m.len() && (#[trigger] m[i]) is Some implies p(m[i]->0) by {
        assert(m[i] == r2_at(file, entries[i], ctx, pop, false, ans[i]));
    }
    lemma_somes_all(m, p);
}

/// The owner/repo of an entry that names a repository action.
pub open spec fn entry_repo(e: UsesEntryV) -> Option<Seq<char>> {
    match parse_spec(e.value) {
        UsesRefV::Repository { owner_repo, .. } => Some(owner_repo),
        _ => None,
    }
}

/// First-party actions (this repository's owner and the trusted owners) are
/// outside what these rules check: R1, R2, R5, R10 and LOCK never report them,
/// whatever the lookups answer.
pub proof fn first_party_actions_are_never_reported(
    file: Seq<char>,
    e: UsesEntryV,
    ctx: crate::trust::TrustContextV,
    lock: Seq<(Seq<char>, Seq<char>)>,
    online: bool,
    cooldown_days: u32,
    now: i64,
    a2: (crate::github_facts::Answer<usize>, crate::github_facts::Answer<usize>),
    a5: crate::github_facts::Answer<bool>,
    a10: crate::github_facts::Answer<i64>,
    al: crate::github_facts::Answer<Seq<char>>,
)
    requires
        entry_repo(e) matches Some(o) && classify_spec(ctx, o) == Trust::FirstParty,
    ensures
        r1_entry(file, e, ctx) is None,
        r2_at(file, e, ctx, crate::typosquat::popular_list(crate::typosquat::BUNDLED@), online, a2)
            is None,
        r5_at(file, e, ctx, a5) is None,
        r10_at(file, e, ctx, cooldown_days, now, a10) is None,
        lock_at(file, e, ctx, lock, online, al) is None,
{
}

/// GitHub's own actions are trusted less than first party but more than other
/// third parties: R1 reports their mutable refs as `Info` only, so they never
/// fail a build.
pub proof fn official_actions_are_only_info_in_r1(
    file: Seq<char>,
    e: UsesEntryV,
    ctx: crate::trust::TrustContextV,
)
    requires
        entry_repo(e) matches Some(o) && classify_spec(ctx, o) == Trust::Official,
    ensures
        r1_entry(file, e, ctx) matches Some(f) ==> f.severity == Severity::Info,
{
}

/// What cannot be confirmed makes no false alarm: a lookup that failed or
/// found nothing never gives a `High` finding (R5 and LOCK report it as
/// `Info`, R10 stays silent), and offline LOCK never gives `High` either.
pub proof fn unconfirmed_lookups_never_give_high(
    file: Seq<char>,
    e: UsesEntryV,
    ctx: crate::trust::TrustContextV,
    lock: Seq<(Seq<char>, Seq<char>)>,
    online: bool,
    cooldown_days: u32,
    now: i64,
    a5: crate::github_facts::Answer<bool>,
    a10: crate::github_facts::Answer<i64>,
    al: crate::github_facts::Answer<Seq<char>>,
)
    requires
        !(a5 is Known),
        !(a10 is Known),
        !(al is Known),
    ensures
        r5_at(file, e, ctx, a5) matches Some(f) ==> f.severity == Severity::Info,
        r10_at(file, e, ctx, cooldown_days, now, a10) is None,
        lock_at(file, e, ctx, lock, online, al) matches Some(f) ==> f.severity == Severity::Info,
        forall|a: crate::github_facts::Answer<Seq<char>>|
            #[trigger] lock_at(file, e, ctx, lock, false, a) matches Some(f) ==> f.severity
                == Severity::Info,
{
}

/// A moved tag is `High` only when it is an exact version tag (it holds a
/// dot): major aliases and branches move in normal releases.
pub proof fn only_moved_exact_versions_are_high(
    file: Seq<char>,
    e: UsesEntryV,
    ctx: crate::trust::TrustContextV,
    lock: Seq<(Seq<char>, Seq<char>)>,
    online: bool,
    al: crate::github_facts::Answer<Seq<char>>,
)
    ensures
        match lock_at(file, e, ctx, lock, online, al) {
            Some(f) => f.severity == Severity::High ==> match lock_target(e, ctx) {
                Some((repo, r)) => exact_version(r) && online && match al {
                    crate::github_facts::Answer::Known(current) => match crate::sorted::map_get(
                        lock,
                        crate::lockfile::key_spec(repo, r),
                    ) {
                        Some(sha) => current != sha,
                        None => false,
                    },
                    _ => false,
                },
                None => false,
            },
            None => true,
        },
{
}

/// A version listed as malicious is `High` whoever owns it: R9 applies no
/// trust class.
pub proof fn known_bad_versions_are_high(
    file: Seq<char>,
    e: UsesEntryV,
    db: Seq<(Seq<char>, crate::advisory::AdvisoryV)>,
)
    ensures
        r9_entry(file, e, db) matches Some(f) ==> f.severity == Severity::High,
{
}

// ------------------------------------------------------------------
// What each rule reports, over all inputs
// ------------------------------------------------------------------
/// A value kept by `somes` is in its result.
pub proof fn lemma_somes_has<A>(s: Seq<Option<A>>, q: int)
    requires
        0 <= q < s.len(),
        s[q] is Some,
    ensures
        somes(s).contains(s[q]->0),
    decreases s.len(),
{
    let d = s.drop_last();
    let h = somes(d);
    if q == s.len() - 1 {
        assert(somes(s) == h + seq![s[q]->0]);
        assert(somes(s)[h.len() as int] == s[q]->0);
    } else {
        assert(d[q] == s[q]);
        lemma_somes_has(d, q);
        let j = choose|j: int| 0 <= j < h.len() && h[j] == s[q]->0;
        assert(somes(s)[j] == h[j]);
    }
}

/// A value of one of the concatenated sequences is in the concatenation.
pub proof fn lemma_concat_has<A>(s: Seq<Seq<A>>, i: int, x: A)
    requires
        0 <= i < s.len(),
        s[i].contains(x),
    ensures
        concat(s).contains(x),
    decreases s.len(),
{
    let d = s.drop_last();
    let h = concat(d);
    assert(concat(s) == h + s.last());
    if i == s.len() - 1 {
        let j = choose|j: int| 0 <= j < s[i].len() && s[i][j] == x;
        assert(concat(s)[h.len() + j] == x);
    } else {
        assert(d[i] == s[i]);
        lemma_concat_has(d, i, x);
        let j = choose|j: int| 0 <= j < h.len() && h[j] == x;
        assert(concat(s)[j] == h[j]);
    }
}

/// R8 flags the external PR checkouts of a dangerous trigger, and nothing
/// else. When the `on:` text names `pull_request_target` or `workflow_run`,
/// every step whose text refers to `github.head_ref` or
/// `github.event.pull_request.head` gives a `High` R8 finding on its line;
/// without such a trigger there is no R8 finding at all; and every R8 finding
/// is `High`, on the line of a step with such a reference.
pub proof fn r8_flags_pr_head_checkouts_under_dangerous_triggers(
    file: Seq<char>,
    doc: WorkflowDocV,
    i: int,
    k: int,
)
    ensures
        (contains_sub(doc.on_text, "pull_request_target"@) || contains_sub(doc.on_text, "workflow_run"@))
            && 0 <= i < doc.jobs.len() && 0 <= k < doc.jobs[i].steps.len() && (contains_sub(
            doc.jobs[i].steps[k].text,
            "github.head_ref"@,
        ) || contains_sub(doc.jobs[i].steps[k].text, "github.event.pull_request.head"@)) ==> exists|f: FindingV|
            #[trigger] check_r8_spec(file, doc).contains(f) && f.rule == "R8"@ && f.severity == Severity::High
                && f.line == doc.jobs[i].steps[k].line,
        !(contains_sub(doc.on_text, "pull_request_target"@) || contains_sub(doc.on_text, "workflow_run"@))
            ==> check_r8_spec(file, doc).len() == 0,
        forall|m: int|
            0 <= m < check_r8_spec(file, doc).len() ==> (#[trigger] check_r8_spec(file, doc)[m]).rule == "R8"@
                && check_r8_spec(file, doc)[m].severity == Severity::High && exists|a: int, b: int|
                0 <= a < doc.jobs.len() && 0 <= b < doc.jobs[a].steps.len() && doc.jobs[a].steps[b].line
                    == check_r8_spec(file, doc)[m].line && (contains_sub(
                    #[trigger] doc.jobs[a].steps[b].text,
                    "github.head_ref"@,
                ) || contains_sub(doc.jobs[a].steps[b].text, "github.event.pull_request.head"@)),
{
    let jobs = doc.jobs.map_values(|j: JobV| r8_job(file, j));
    if dangerous_trigger(doc.on_text) {
        if 0 <= i < doc.jobs.len() && 0 <= k < doc.jobs[i].steps.len() && checks_out_pr(
            doc.jobs[i].steps[k].text,
        ) {
            let st = doc.jobs[i].steps.map_values(|s: StepV| r8_step(file, s));
            assert(st[k] == r8_step(file, doc.jobs[i].steps[k]));
            lemma_somes_has(st, k);
            assert(jobs[i] == somes(st));
            lemma_concat_has(jobs, i, st[k]->0);
        }
        let p = |f: FindingV|
            f.rule == "R8"@ && f.severity == Severity::High && exists|a: int, b: int|
                0 <= a < doc.jobs.len() && 0 <= b < doc.jobs[a].steps.len() && doc.jobs[a].steps[b].line
                    == f.line && (contains_sub(#[trigger] doc.jobs[a].steps[b].text, "github.head_ref"@)
                    || contains_sub(doc.jobs[a].steps[b].text, "github.event.pull_request.head"@));
        assert forall|a: int, j: int| 0 <= a < jobs.len() && 0 <= j < jobs[a].len() implies p(
            #[trigger] jobs[a][j],
        ) by {
            let st = doc.jobs[a].steps.map_values(|s: StepV| r8_step(file, s));
            assert forall|b: int| 0 <= b < st.len() && (#[trigger] st[b]) is Some implies p(st[b]->0) by {
                assert(st[b] == r8_step(file, doc.jobs[a].steps[b]));
                assert(doc.jobs[a].steps[b].line == (st[b]->0).line);
            }
            lemma_somes_all(st, p);
            assert(jobs[a] == somes(st));
        }
        lemma_concat_all(jobs, p);
    }
}

/// R6 names only third-party actions, and every one that runs where secrets
/// are used: each R6 finding is `Medium` and its `uses:` value is a
/// repository action that the trust context classifies as third party (so an
/// official or first-party action never gives one); and in a job that uses
/// secrets, every step running a third-party repository action gives an R6
/// finding on its line with its `uses:` value.
pub proof fn r6_names_only_third_party_actions(
    file: Seq<char>,
    doc: WorkflowDocV,
    ctx: crate::trust::TrustContextV,
    i: int,
    k: int,
)
    ensures
        forall|m: int|
            0 <= m < check_r6_spec(file, doc, ctx).len() ==> (#[trigger] check_r6_spec(file, doc, ctx)[m]).rule
                == "R6"@ && check_r6_spec(file, doc, ctx)[m].severity == Severity::Medium && (parse_spec(
                check_r6_spec(file, doc, ctx)[m].uses,
            ) matches UsesRefV::Repository { owner_repo, .. } && classify_spec(ctx, owner_repo)
                == Trust::ThirdParty),
        0 <= i < doc.jobs.len() && doc.jobs[i].uses_secrets && 0 <= k < doc.jobs[i].steps.len() && (
        doc.jobs[i].steps[k].uses matches Some(u) && (parse_spec(u) matches UsesRefV::Repository {
            owner_repo,
            ..
        } && classify_spec(ctx, owner_repo) == Trust::ThirdParty)) ==> exists|f: FindingV|
            #[trigger] check_r6_spec(file, doc, ctx).contains(f) && f.rule == "R6"@ && f.line
                == doc.jobs[i].steps[k].line && Some(f.uses) == doc.jobs[i].steps[k].uses,
{
    let jobs = doc.jobs.map_values(|j: JobV| r6_job(file, j, ctx));
    let p = |f: FindingV|
        f.rule == "R6"@ && f.severity == Severity::Medium && (parse_spec(f.uses) matches UsesRefV::Repository {
            owner_repo,
            ..
        } && classify_spec(ctx, owner_repo) == Trust::ThirdParty);
    assert forall|a: int, j: int| 0 <= a < jobs.len() && 0 <= j < jobs[a].len() implies p(#[trigger] jobs[a][j]) by {
        let job = doc.jobs[a];
        let st = job.steps.map_values(|s: StepV| r6_step(file, job, s, ctx));
        assert forall|b: int| 0 <= b < st.len() && (#[trigger] st[b]) is Some implies p(st[b]->0) by {
            assert(st[b] == r6_step(file, job, job.steps[b], ctx));
        }
        lemma_somes_all(st, p);
        assert(jobs[a] == r6_job(file, job, ctx));
    }
    lemma_concat_all(jobs, p);
    if 0 <= i < doc.jobs.len() && doc.jobs[i].uses_secrets && 0 <= k < doc.jobs[i].steps.len() {
        let job = doc.jobs[i];
        let st = job.steps.map_values(|s: StepV| r6_step(file, job, s, ctx));
        assert(st[k] == r6_step(file, job, job.steps[k], ctx));
        if st[k] is Some {
            lemma_somes_has(st, k);
            assert(jobs[i] == somes(st));
            lemma_concat_has(jobs, i, st[k]->0);
        }
    }
}

/// R4 is silent exactly for digests: every `image:`/`container:` reference
/// without `@sha256:`, and every `docker://` action whose image has none,
/// gives a `Medium` R4 finding on its line with its value; one with a digest
/// gives none.
pub proof fn r4_flags_every_image_without_digest(
    file: Seq<char>,
    entries: Seq<UsesEntryV>,
    images: Seq<UsesEntryV>,
    q: int,
    line: usize,
    image: Seq<char>,
    raw: Seq<char>,
)
    ensures
        !contains_sub(image, "@sha256:"@) ==> (r4_item(file, line, image, raw) matches Some(f) && f.rule == "R4"@
            && f.severity == Severity::Medium && f.line == line && f.uses == raw),
        contains_sub(image, "@sha256:"@) ==> r4_item(file, line, image, raw) is None,
        0 <= q < images.len() && !contains_sub(images[q].value, "@sha256:"@) ==> exists|f: FindingV|
            #[trigger] check_r4_spec(file, entries, images).contains(f) && f.rule == "R4"@ && f.severity
                == Severity::Medium && f.line == images[q].line && f.uses == images[q].value,
        0 <= q < entries.len() && starts_with(entries[q].value, "docker://"@) && !contains_sub(
            entries[q].value.skip(9),
            "@sha256:"@,
        ) ==> exists|f: FindingV|
            #[trigger] check_r4_spec(file, entries, images).contains(f) && f.rule == "R4"@ && f.severity
                == Severity::Medium && f.line == entries[q].line && f.uses == entries[q].value,
{
    reveal_strlit("docker://");
    let a = entries.map_values(|e: UsesEntryV| r4_docker(file, e));
    let b = images.map_values(|e: UsesEntryV| r4_item(file, e.line, e.value, e.value));
    let r = check_r4_spec(file, entries, images);
    if 0 <= q < images.len() && !contains_sub(images[q].value, "@sha256:"@) {
        assert(b[q] == r4_item(file, images[q].line, images[q].value, images[q].value));
        lemma_somes_has(b, q);
        let x = b[q]->0;
        let j = choose|j: int| 0 <= j < somes(b).len() && somes(b)[j] == x;
        assert(r[somes(a).len() + j] == x);
        assert(r.contains(x));
    }
    if 0 <= q < entries.len() && starts_with(entries[q].value, "docker://"@) && !contains_sub(
        entries[q].value.skip(9),
        "@sha256:"@,
    ) {
        assert(a[q] == r4_docker(file, entries[q]));
        lemma_somes_has(a, q);
        let x = a[q]->0;
        let j = choose|j: int| 0 <= j < somes(a).len() && somes(a)[j] == x;
        assert(r[j] == x);
        assert(r.contains(x));
    }
}

/// R9 flags every listed version, pinned by tag or by commit SHA, whoever owns
/// it: when the advisory table holds the lowercased `repo@ref` of a
/// repository entry (the ref being the tag or the SHA as written), the entry
/// gives a `High` R9 finding on its line with its value and the advisory's
/// source in the evidence; an entry whose reference the table does not hold
/// gives none.
pub proof fn r9_flags_every_listed_version(
    file: Seq<char>,
    entries: Seq<UsesEntryV>,
    db: Seq<(Seq<char>, crate::advisory::AdvisoryV)>,
    q: int,
    owner_repo: Seq<char>,
    r: RefKindV,
    written: Seq<char>,
)
    requires
        0 <= q < entries.len(),
        parse_spec(entries[q].value) == (UsesRefV::Repository { owner_repo, git_ref: Some(r) }),
        r == RefKindV::CommitSha(written) || r == RefKindV::Mutable(written),
    ensures
        crate::advisory::assoc_get(
            db,
            crate::typosquat::unicode_lower(crate::uses_ref::repo_root_spec(owner_repo) + "@"@ + written),
        ) matches Some(adv) ==> exists|f: FindingV|
            #[trigger] check_r9_spec(file, entries, db).contains(f) && f.rule == "R9"@ && f.severity
                == Severity::High && f.line == entries[q].line && f.uses == entries[q].value && exists|
                pre: Seq<char>,
                post: Seq<char>,
            | f.evidence == #[trigger] ((pre + adv.source) + post),
        crate::advisory::assoc_get(
            db,
            crate::typosquat::unicode_lower(crate::uses_ref::repo_root_spec(owner_repo) + "@"@ + written),
        ) is None ==> r9_entry(file, entries[q], db) is None,
{
    let m = entries.map_values(|e: UsesEntryV| r9_entry(file, e, db));
    assert(m[q] == r9_entry(file, entries[q], db));
    assert(ref_text(r) == written);
    let key = crate::typosquat::unicode_lower(crate::uses_ref::repo_root_spec(owner_repo) + "@"@ + written);
    match crate::advisory::assoc_get(db, key) {
        Some(adv) => {
            lemma_somes_has(m, q);
            let f = m[q]->0;
            assert(check_r9_spec(file, entries, db) == somes(m));
            assert(check_r9_spec(file, entries, db).contains(f));
            let pre = R9_EV@;
            let post = ": "@ + adv.note;
            assert(f.evidence =~= (pre + adv.source) + post);
        },
        None => {},
    }
}

} // verus!
