//! From an observation record to a verdict (the decision core of the egress
//! layer).
//!
//! The observer (a DNS relay) and the verdict meet only through a record file,
//! so every verdict here is made without network access.
//!
//! Policy: a job that the lock does not list is reported with a draft section
//! and never fails; for a listed job every destination outside its patterns is
//! `High`, since "it was looked up" and "it is not in the lock" are both facts.
use vstd::prelude::*;
use crate::egress_lockfile::{
    content_of, matches_spec, normalize_spec, normalize_v, EgressLock, JobSection,
    JobSectionV, FILE_NAME,
};
use crate::rules::{concat, somes, Finding, FindingV, Severity};
use crate::sorted::{map_get, set_insert, strictly_sorted, StrSet};
use crate::text::{
    chars_of, dec, dec_usize, extend, extend_str, index_of_v, is_ws, is_whitespace, lines,
    lines_v, string_of, strip_prefix, strip_prefix_str, subvec, trim, trim_v, vviews,
};

verus! {

/// An observation record: the job and the set of domains it looked up.
pub struct Record {
    pub job: String,
    pub domains: StrSet,
}

pub struct RecordV {
    pub job: Seq<char>,
    pub domains: Seq<Seq<char>>,
}

impl Record {
    pub open spec fn view(&self) -> RecordV {
        RecordV { job: self.job@, domains: self.domains.view() }
    }
}

pub const DUP_JOB: &'static str = "행: job 줄이 중복됩니다";
pub const EMPTY_JOB: &'static str = "행: 잡 이름이 비었습니다";
pub const NEED_JOB: &'static str = "행: 첫 유효 줄은 `job <이름>`이어야 합니다";
pub const ONE_DOMAIN: &'static str = "행: 도메인은 한 줄에 하나입니다";
pub const NO_JOB: &'static str = "기록에 `job <이름>` 줄이 없습니다";

/// Whether a (trimmed) line holds whitespace, i.e. more than one token.
pub open spec fn has_ws(s: Seq<char>) -> bool {
    exists|i: int| 0 <= i < s.len() && is_ws(#[trigger] s[i])
}

/// Reads lines `i..` of a record with the job seen so far and the domains.
pub open spec fn record_from(
    ls: Seq<Seq<char>>,
    i: int,
    job: Option<Seq<char>>,
    domains: Seq<Seq<char>>,
) -> Result<RecordV, Seq<char>>
    decreases ls.len() - i,
{
    if i < 0 || i >= ls.len() {
        match job {
            Some(j) => Ok(RecordV { job: j, domains }),
            None => Err(NO_JOB@),
        }
    } else {
        let line = content_of(ls[i]);
        let no = dec((i + 1) as nat);
        if line.len() == 0 {
            record_from(ls, i + 1, job, domains)
        } else {
            match strip_prefix(line, "job "@) {
                Some(name) => if job is Some {
                    Err(no + DUP_JOB@)
                } else if trim(name).len() == 0 {
                    Err(no + EMPTY_JOB@)
                } else {
                    record_from(ls, i + 1, Some(trim(name)), domains)
                },
                None => if job is None {
                    Err(no + NEED_JOB@)
                } else if has_ws(line) {
                    Err(no + ONE_DOMAIN@)
                } else {
                    record_from(ls, i + 1, job, set_insert(domains, normalize_spec(line)))
                },
            }
        }
    }
}

/// The record read from a text: the first meaningful line is `job <name>`, then
/// one domain per line; `#` starts a comment.
pub open spec fn parse_record_spec(content: Seq<char>) -> Result<RecordV, Seq<char>> {
    record_from(lines(content), 0, None, Seq::empty())
}

fn err_line(line_no: usize, msg: &str) -> (e: String)
    ensures
        e@ == dec(line_no as nat) + msg@,
{
    let mut v = dec_usize(line_no);
    extend_str(&mut v, msg);
    string_of(&v)
}

fn any_ws(v: &Vec<char>) -> (b: bool)
    ensures
        b == has_ws(v@),
{
    let mut i: usize = 0;
    while i < v.len()
        invariant
            i <= v@.len(),
            forall|k: int| 0 <= k < i ==> !is_ws(#[trigger] v@[k]),
        decreases v@.len() - i,
    {
        if is_whitespace(v[i]) {
            return true;
        }
        i = i + 1;
    }
    false
}

/// Parses a record file.
pub fn parse_record(content: &str) -> (r: Result<Record, String>)
    ensures
        match r {
            Ok(rec) => parse_record_spec(content@) == Ok::<_, Seq<char>>(rec.view()),
            Err(e) => parse_record_spec(content@) == Err::<RecordV, _>(e@),
        },
{
    let cv = chars_of(content);
    let ls = lines_v(&cv);
    let ghost lv = vviews(ls@);
    let mut job: Option<String> = None;
    let mut domains = StrSet::new();
    let mut i: usize = 0;
    while i < ls.len()
        invariant
            lv == vviews(ls@),
            lv == lines(content@),
            i <= ls@.len(),
            parse_record_spec(content@) == record_from(
                lv,
                i as int,
                match job {
                    Some(j) => Some(j@),
                    None => None,
                },
                domains.view(),
            ),
        decreases ls@.len() - i,
    {
        let raw = &ls[i];
        let k = index_of_v(raw, '#', 0);
        let before = subvec(raw, 0, k);
        assert(before@ =~= raw@.take(k as int));
        let line = trim_v(&before);
        let line_no = i + 1;
        if line.len() == 0 {
            i = i + 1;
            continue;
        }
        match strip_prefix_str(&line, "job ") {
            Some(name) => {
                if job.is_some() {
                    return Err(err_line(line_no, DUP_JOB));
                }
                let n = trim_v(&name);
                if n.len() == 0 {
                    return Err(err_line(line_no, EMPTY_JOB));
                }
                job = Some(string_of(&n));
            },
            None => {
                if job.is_none() {
                    return Err(err_line(line_no, NEED_JOB));
                }
                if any_ws(&line) {
                    return Err(err_line(line_no, ONE_DOMAIN));
                }
                let d = normalize_v(&line);
                domains.insert(string_of(&d));
            },
        }
        i = i + 1;
    }
    match job {
        Some(j) => Ok(Record { job: j, domains }),
        None => Err(string_of(&chars_of(NO_JOB))),
    }
}

// ------------------------------------------------------------------
// Verdict
// ------------------------------------------------------------------
/// The verdict.
pub struct ObserveOutcome {
    pub job: String,
    pub observed: StrSet,
    /// Whether the job was listed in egress.lock (locking is opt-in).
    pub locked: bool,
    /// Destinations of a locked job missing from its section: `High` EGRESS.
    pub findings: Vec<Finding>,
    /// A ready-to-paste section proposed for a job that is not locked.
    pub draft: Option<String>,
}

pub struct ObserveOutcomeV {
    pub job: Seq<char>,
    pub observed: Seq<Seq<char>>,
    pub locked: bool,
    pub findings: Seq<FindingV>,
    pub draft: Option<Seq<char>>,
}

impl ObserveOutcome {
    pub open spec fn view(&self) -> ObserveOutcomeV {
        ObserveOutcomeV {
            job: self.job@,
            observed: self.observed.view(),
            locked: self.locked,
            findings: self.findings.deep_view(),
            draft: self.draft.deep_view(),
        }
    }
}

pub const EV_A: &'static str = "잡 '";
pub const EV_B: &'static str = "'이(가) egress.lock [";
pub const EV_C: &'static str = "] 구획에 없는 '";
pub const EV_D: &'static str = "'을(를) 조회했습니다 — 유출 신호일 수 있습니다. 이 잡이 쓰는 시크릿·토큰을 회전하고 통신 경위를 확인하세요 (TeamPCP류 사건의 피해자들은 유출을 몇 주 뒤에야 알았습니다)";
pub const FIX_A: &'static str = "의도된 통신이라면 egress.lock [";
pub const FIX_B: &'static str = "] 구획에 다음 한 줄을 추가하세요: ";

/// Whether some pattern allows the domain.
pub open spec fn allowed(patterns: Seq<Seq<char>>, domain: Seq<char>) -> bool {
    exists|i: int| 0 <= i < patterns.len() && matches_spec(#[trigger] patterns[i], domain)
}

/// The finding for a domain of a locked job, if its section does not allow it.
pub open spec fn egress_finding(job: Seq<char>, sec: JobSectionV, domain: Seq<char>) -> Option<
    FindingV,
> {
    if allowed(sec.patterns, domain) {
        None
    } else {
        Some(
            FindingV {
                rule: "EGRESS"@,
                severity: Severity::High,
                file: FILE_NAME@,
                line: sec.line,
                uses: domain,
                evidence: EV_A@ + job + EV_B@ + job + EV_C@ + domain + EV_D@,
                fix_hint: FIX_A@ + job + FIX_B@ + domain,
            },
        )
    }
}

/// The section proposed for an unlocked job.
pub open spec fn draft_spec(job: Seq<char>, domains: Seq<Seq<char>>) -> Seq<char> {
    seq!['['] + job + seq![']', '\n'] + concat(domains.map_values(|d: Seq<char>| d.push('\n')))
}

/// The verdict for a record, given the section of its job in the lock, if any.
pub open spec fn verdict_spec(r: RecordV, section: Option<JobSectionV>) -> ObserveOutcomeV {
    match section {
        None => ObserveOutcomeV {
            job: r.job,
            observed: r.domains,
            locked: false,
            findings: Seq::empty(),
            draft: Some(draft_spec(r.job, r.domains)),
        },
        Some(sec) => ObserveOutcomeV {
            job: r.job,
            observed: r.domains,
            locked: true,
            findings: somes(r.domains.map_values(|d: Seq<char>| egress_finding(r.job, sec, d))),
            draft: None,
        },
    }
}

/// The section of `job` in an optional lock.
pub open spec fn lock_section(lock: Option<Seq<(Seq<char>, JobSectionV)>>, job: Seq<char>) -> Option<
    JobSectionV,
> {
    match lock {
        None => None,
        Some(l) => map_get(l, job),
    }
}

/// A job that the lock does not list never fails, whatever it looked up: it
/// gets no finding and a draft section to lock it with.
pub proof fn unlocked_jobs_never_fail(
    r: RecordV,
    lock: Option<Seq<(Seq<char>, JobSectionV)>>,
)
    requires
        lock_section(lock, r.job) is None,
    ensures
        verdict_spec(r, lock_section(lock, r.job)).findings.len() == 0,
        verdict_spec(r, lock_section(lock, r.job)).draft == Some(draft_spec(r.job, r.domains)),
        !verdict_spec(r, lock_section(lock, r.job)).locked,
{
}

/// For a locked job the lock is the whole truth: every observed domain that no
/// pattern of its section allows gives a `High` EGRESS finding, and an allowed
/// domain gives none.
pub proof fn locked_jobs_report_exactly_unlisted_domains(r: RecordV, sec: JobSectionV, d: Seq<char>)
    ensures
        allowed(sec.patterns, d) ==> egress_finding(r.job, sec, d) is None,
        !allowed(sec.patterns, d) ==> (egress_finding(r.job, sec, d) matches Some(f) && f.severity
            == Severity::High && f.uses == d && f.rule == "EGRESS"@),
        verdict_spec(r, Some(sec)).findings == somes(
            r.domains.map_values(|x: Seq<char>| egress_finding(r.job, sec, x)),
        ),
        verdict_spec(r, Some(sec)).draft is None,
{
}

fn is_allowed(sec: &JobSection, domain: &str) -> (b: bool)
    ensures
        b == allowed(sec.patterns.view(), domain@),
{
    let ghost pv = sec.patterns.view();
    let mut i: usize = 0;
    while i < sec.patterns.len()
        invariant
            pv == sec.patterns.view(),
            i <= pv.len(),
            forall|k: int| 0 <= k < i ==> !matches_spec(#[trigger] pv[k], domain@),
        decreases pv.len() - i,
    {
        if crate::egress_lockfile::matches(sec.patterns.get(i).as_str(), domain) {
            assert(matches_spec(pv[i as int], domain@));
            return true;
        }
        i = i + 1;
    }
    false
}

fn egress_finding_v(job: &str, sec: &JobSection, domain: &str) -> (r: Option<Finding>)
    ensures
        r.deep_view() == egress_finding(job@, sec.view(), domain@),
{
    if is_allowed(sec, domain) {
        return None;
    }
    let mut ev: Vec<char> = Vec::new();
    extend_str(&mut ev, EV_A);
    extend_str(&mut ev, job);
    extend_str(&mut ev, EV_B);
    extend_str(&mut ev, job);
    extend_str(&mut ev, EV_C);
    extend_str(&mut ev, domain);
    extend_str(&mut ev, EV_D);
    let mut fix: Vec<char> = Vec::new();
    extend_str(&mut fix, FIX_A);
    extend_str(&mut fix, job);
    extend_str(&mut fix, FIX_B);
    extend_str(&mut fix, domain);
    Some(
        Finding {
            rule: "EGRESS",
            severity: Severity::High,
            file: string_of(&chars_of(FILE_NAME)),
            line: sec.line,
            uses: string_of(&chars_of(domain)),
            evidence: string_of(&ev),
            fix_hint: string_of(&fix),
        },
    )
}

/// Record plus (when there is one) lock gives the verdict.
pub fn verdict(record: &Record, lock: Option<&EgressLock>) -> (r: ObserveOutcome)
    ensures
        strictly_sorted(record.view().domains),
        r.view() == verdict_spec(
            record.view(),
            lock_section(
                match lock {
                    Some(l) => Some(l.view()),
                    None => None,
                },
                record.job@,
            ),
        ),
{
    proof {
        use_type_invariant(&record.domains);
    }
    let section = match lock {
        Some(l) => l.job(record.job.as_str()),
        None => None,
    };
    let ghost rv = record.view();
    let ghost lv = match lock {
        Some(l) => Some(l.view()),
        None => None,
    };
    proof {
        match section {
            Some(sec) => assert(lock_section(lv, record.job@) == Some(sec.view())),
            None => assert(lock_section(lv, record.job@) is None),
        }
    }
    match section {
        None => {
            let mut draft: Vec<char> = Vec::new();
            draft.push('[');
            extend_str(&mut draft, record.job.as_str());
            draft.push(']');
            draft.push('\n');
            let ghost head = draft@;
            let ghost m = rv.domains.map_values(|d: Seq<char>| d.push('\n'));
            let mut i: usize = 0;
            while i < record.domains.len()
                invariant
                    rv == record.view(),
                    m == rv.domains.map_values(|d: Seq<char>| d.push('\n')),
                    i <= rv.domains.len(),
                    draft@ == head + concat(m.take(i as int)),
                decreases rv.domains.len() - i,
            {
                proof {
                    crate::rules::lemma_concat_step(m, i as int);
                }
                extend_str(&mut draft, record.domains.get(i).as_str());
                draft.push('\n');
                i = i + 1;
                assert(draft@ =~= head + concat(m.take(i as int)));
            }
            assert(m.take(rv.domains.len() as int) =~= m);
            let findings: Vec<Finding> = Vec::new();
            assert(findings.deep_view() =~= Seq::<FindingV>::empty());
            let d = string_of(&draft);
            let dr = Some(d);
            assert(dr.deep_view() == Some(d@));
            assert(d@ == draft_spec(rv.job, rv.domains));
            ObserveOutcome {
                job: string_of(&chars_of(record.job.as_str())),
                observed: record.domains.copy(),
                locked: false,
                findings,
                draft: dr,
            }
        },
        Some(sec) => {
            let ghost m = rv.domains.map_values(
                |d: Seq<char>| egress_finding(rv.job, sec.view(), d),
            );
            let mut findings: Vec<Finding> = Vec::new();
            let mut i: usize = 0;
            while i < record.domains.len()
                invariant
                    rv == record.view(),
                    m == rv.domains.map_values(|d: Seq<char>| egress_finding(rv.job, sec.view(), d)),
                    i <= rv.domains.len(),
                    findings.deep_view() == somes(m.take(i as int)),
                decreases rv.domains.len() - i,
            {
                let f = egress_finding_v(record.job.as_str(), sec, record.domains.get(i).as_str());
                proof {
                    crate::rules::lemma_somes_step(m, i as int);
                }
                let ghost b = findings.deep_view();
                match f {
                    Some(x) => {
                        findings.push(x);
                        assert(findings.deep_view() =~= b + seq![x.deep_view()]);
                    },
                    None => {
                        assert(findings.deep_view() =~= b + Seq::<FindingV>::empty());
                    },
                }
                i = i + 1;
            }
            assert(m.take(rv.domains.len() as int) =~= m);
            ObserveOutcome {
                job: string_of(&chars_of(record.job.as_str())),
                observed: record.domains.copy(),
                locked: true,
                findings,
                draft: None,
            }
        },
    }
}

// ------------------------------------------------------------------
// Human report
// ------------------------------------------------------------------
pub const OBS_HEAD_A: &'static str = "just-shield observe — 잡 '";
pub const OBS_HEAD_B: &'static str = "'의 통신 기록 (도메인 ";
pub const OBS_HEAD_C: &'static str = "개)\n\n";
pub const UNLOCKED_NOTE: &'static str = "이 잡은 egress.lock에 없습니다 — 관찰 보고만 합니다 (실패하지 않음)\n잠그려면 아래 초안을 검토해 egress.lock에 추가하세요:\n\n";
pub const MATCH_A: &'static str = "✅ egress.lock [";
pub const MATCH_B: &'static str = "] 박제본과 일치 — 평소와 같은 통신입니다\n";
pub const SUM_A: &'static str = "요약: 🔴 미등재 목적지 ";
pub const SUM_B: &'static str = "건 — 빌드 실패\n";

/// The block of one finding in the observation report.
pub open spec fn observe_block(f: FindingV) -> Seq<char> {
    "🔴 "@ + f.rule + "  "@ + f.file + ":"@ + dec(f.line as nat) + "\n"@ + "   목적지: "@ + f.uses
        + "\n"@ + "   근거: "@ + f.evidence + "\n"@ + "   해결: "@ + f.fix_hint + "\n\n"@
}

/// The human report of a verdict.
pub open spec fn render_text_spec(o: ObserveOutcomeV) -> Seq<char> {
    let head = OBS_HEAD_A@ + o.job + OBS_HEAD_B@ + dec(o.observed.len()) + OBS_HEAD_C@ + concat(
        o.observed.map_values(|d: Seq<char>| "  "@ + d + "\n"@),
    ) + "\n"@;
    if !o.locked {
        head + UNLOCKED_NOTE@ + match o.draft {
            Some(d) => d,
            None => Seq::empty(),
        }
    } else if o.findings.len() == 0 {
        head + MATCH_A@ + o.job + MATCH_B@
    } else {
        head + concat(o.findings.map_values(|f: FindingV| observe_block(f))) + SUM_A@ + dec(
            o.findings.len(),
        ) + SUM_B@
    }
}

/// How the observation report ends: for a job that is not locked, the note
/// that it does not fail and then the draft; for a locked job with nothing
/// unlisted, the match message naming the job; otherwise the summary line with
/// the count of unlisted destinations.
pub open spec fn observe_tail(o: ObserveOutcomeV) -> Seq<char> {
    if !o.locked {
        UNLOCKED_NOTE@ + match o.draft {
            Some(d) => d,
            None => Seq::empty(),
        }
    } else if o.findings.len() == 0 {
        MATCH_A@ + o.job + MATCH_B@
    } else {
        SUM_A@ + dec(o.findings.len()) + SUM_B@
    }
}

/// The blocks of the findings of an observation, in order.
pub open spec fn observe_blocks(o: ObserveOutcomeV) -> Seq<char> {
    concat(o.findings.map_values(|g: FindingV| observe_block(g)))
}

/// The observation report opens with the job's name and the number of
/// domains it looked up, and closes as [`observe_tail`] says; a locked job with
/// unlisted destinations has one block per finding, in order, just before the
/// summary line, and each block shows the destination and the fix hint.
pub proof fn observation_report_names_job_and_outcome(o: ObserveOutcomeV, f: FindingV)
    ensures
        exists|mid: Seq<char>|
            render_text_spec(o) == OBS_HEAD_A@ + o.job + OBS_HEAD_B@ + dec(o.observed.len()) + #[trigger] (mid
                + observe_tail(o)),
        o.locked && o.findings.len() > 0 ==> exists|pre: Seq<char>|
            render_text_spec(o) == #[trigger] (pre + observe_blocks(o)) + SUM_A@ + dec(o.findings.len()) + SUM_B@,
        exists|a: Seq<char>, b: Seq<char>, c: Seq<char>|
            observe_block(f) == #[trigger] (a + f.uses + b + f.fix_hint + c),
{
    let a = "🔴 "@ + f.rule + "  "@ + f.file + ":"@ + dec(f.line as nat) + "\n"@ + "   목적지: "@;
    let b = "\n"@ + "   근거: "@ + f.evidence + "\n"@ + "   해결: "@;
    let c = "\n\n"@;
    assert(observe_block(f) =~= a + f.uses + b + f.fix_hint + c);
    let list = concat(o.observed.map_values(|d: Seq<char>| "  "@ + d + "\n"@));
    let blocks = concat(o.findings.map_values(|f: FindingV| observe_block(f)));
    let mid = if o.locked && o.findings.len() > 0 {
        OBS_HEAD_C@ + list + "\n"@ + blocks
    } else {
        OBS_HEAD_C@ + list + "\n"@
    };
    assert(render_text_spec(o) =~= OBS_HEAD_A@ + o.job + OBS_HEAD_B@ + dec(o.observed.len()) + (mid
        + observe_tail(o)));
    if o.locked && o.findings.len() > 0 {
        let pre = OBS_HEAD_A@ + o.job + OBS_HEAD_B@ + dec(o.observed.len()) + OBS_HEAD_C@ + list + "\n"@;
        assert(blocks == observe_blocks(o));
        assert(render_text_spec(o) =~= (pre + blocks) + SUM_A@ + dec(o.findings.len()) + SUM_B@);
    }
}

fn observe_block_v(out: &mut Vec<char>, f: &Finding)
    ensures
        final(out)@ == old(out)@ + observe_block(f.deep_view()),
{
    let ghost o = out@;
    extend_str(out, "🔴 ");
    extend_str(out, f.rule);
    extend_str(out, "  ");
    extend_str(out, f.file.as_str());
    extend_str(out, ":");
    extend(out, &dec_usize(f.line));
    extend_str(out, "\n");
    extend_str(out, "   목적지: ");
    extend_str(out, f.uses.as_str());
    extend_str(out, "\n");
    extend_str(out, "   근거: ");
    extend_str(out, f.evidence.as_str());
    extend_str(out, "\n");
    extend_str(out, "   해결: ");
    extend_str(out, f.fix_hint.as_str());
    extend_str(out, "\n\n");
    assert(out@ =~= o + observe_block(f.deep_view()));
}

fn observed_lines(out: &mut Vec<char>, set: &StrSet)
    ensures
        final(out)@ == old(out)@ + concat(set.view().map_values(|d: Seq<char>| "  "@ + d + "\n"@)),
{
    let ghost o = out@;
    let ghost m = set.view().map_values(|d: Seq<char>| "  "@ + d + "\n"@);
    let mut i: usize = 0;
    while i < set.len()
        invariant
            m == set.view().map_values(|d: Seq<char>| "  "@ + d + "\n"@),
            i <= set.view().len(),
            out@ == o + concat(m.take(i as int)),
        decreases set.view().len() - i,
    {
        proof {
            crate::rules::lemma_concat_step(m, i as int);
        }
        let ghost b = out@;
        extend_str(out, "  ");
        extend_str(out, set.get(i).as_str());
        extend_str(out, "\n");
        assert(out@ =~= b + m[i as int]);
        i = i + 1;
    }
    assert(m.take(set.view().len() as int) =~= m);
}

fn finding_blocks(out: &mut Vec<char>, fs: &Vec<Finding>)
    ensures
        final(out)@ == old(out)@ + concat(fs.deep_view().map_values(|f: FindingV| observe_block(f))),
{
    let ghost o = out@;
    let ghost m = fs.deep_view().map_values(|f: FindingV| observe_block(f));
    let mut i: usize = 0;
    while i < fs.len()
        invariant
            m == fs.deep_view().map_values(|f: FindingV| observe_block(f)),
            i <= fs.len(),
            out@ == o + concat(m.take(i as int)),
        decreases fs.len() - i,
    {
        proof {
            crate::rules::lemma_concat_step(m, i as int);
        }
        observe_block_v(out, &fs[i]);
        i = i + 1;
        assert(out@ =~= o + concat(m.take(i as int)));
    }
    assert(m.take(fs.len() as int) =~= m);
}

/// The human observation report.
pub fn render_text(outcome: &ObserveOutcome) -> (s: String)
    ensures
        s@ == render_text_spec(outcome.view()),
{
    let ghost ov = outcome.view();
    let mut out: Vec<char> = Vec::new();
    extend_str(&mut out, OBS_HEAD_A);
    extend_str(&mut out, outcome.job.as_str());
    extend_str(&mut out, OBS_HEAD_B);
    extend(&mut out, &dec_usize(outcome.observed.len()));
    extend_str(&mut out, OBS_HEAD_C);
    observed_lines(&mut out, &outcome.observed);
    extend_str(&mut out, "\n");
    let ghost head = out@;
    if !outcome.locked {
        extend_str(&mut out, UNLOCKED_NOTE);
        match &outcome.draft {
            Some(d) => {
                extend_str(&mut out, d.as_str());
            },
            None => {},
        }
        return string_of(&out);
    }
    if outcome.findings.len() == 0 {
        extend_str(&mut out, MATCH_A);
        extend_str(&mut out, outcome.job.as_str());
        extend_str(&mut out, MATCH_B);
        return string_of(&out);
    }
    finding_blocks(&mut out, &outcome.findings);
    extend_str(&mut out, SUM_A);
    extend(&mut out, &dec_usize(outcome.findings.len()));
    extend_str(&mut out, SUM_B);
    string_of(&out)
}

} // verus!
