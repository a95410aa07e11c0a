//! Reports (terminal text, JSON, SARIF) and the exit-code policy.
//!
//! By default only `High` fails the build; `--strict` also fails on `Medium`;
//! `Info` never fails.
use vstd::prelude::*;
use crate::rules::{Finding, FindingV, Severity, Suppressed, SuppressedV, concat};
use crate::text::{chars_of, dec, dec_usize, extend, extend_str, string_of};
use crate::{ScanResult, ScanResultV};

verus! {

// ------------------------------------------------------------------
// Counting and the exit code
// ------------------------------------------------------------------
/// How many findings have severity `sev`.
pub open spec fn count_sev(fs: Seq<FindingV>, sev: Severity) -> nat
    decreases fs.len(),
{
    if fs.len() == 0 {
        0
    } else {
        count_sev(fs.drop_last(), sev) + if fs.last().severity == sev {
            1nat
        } else {
            0nat
        }
    }
}

pub proof fn lemma_count_sev_le(fs: Seq<FindingV>, sev: Severity)
    ensures
        count_sev(fs, sev) <= fs.len(),
    decreases fs.len(),
{
    if fs.len() > 0 {
        lemma_count_sev_le(fs.drop_last(), sev);
    }
}

/// 1 when there is a `High` finding, or a `Medium` one under `strict`; else 0.
pub open spec fn exit_code_spec(r: ScanResultV, strict: bool) -> u8 {
    if count_sev(r.findings, Severity::High) > 0 || (strict && count_sev(
        r.findings,
        Severity::Medium,
    ) > 0) {
        1
    } else {
        0
    }
}

/// An `Info` finding never changes the exit code: guidance never fails a build.
pub proof fn info_findings_never_fail(r: ScanResultV, strict: bool, f: FindingV)
    requires
        f.severity == Severity::Info,
    ensures
        exit_code_spec(ScanResultV { findings: r.findings.push(f), ..r }, strict) == exit_code_spec(
            r,
            strict,
        ),
{
    let fs = r.findings.push(f);
    assert(fs.drop_last() =~= r.findings);
}

/// Suppressed findings never fail a run: whatever they are, the result of
/// `exit_code_spec` does not change.
pub proof fn suppressed_findings_never_fail(r: ScanResultV, strict: bool, other: Seq<SuppressedV>)
    ensures
        exit_code_spec(ScanResultV { suppressed: other, ..r }, strict) == exit_code_spec(r, strict),
{
}

/// `--strict` only adds failures: what fails without it fails with it, and it
/// fails exactly when there is a `High` or a `Medium` finding.
pub proof fn strict_only_adds_failures(r: ScanResultV)
    ensures
        exit_code_spec(r, false) == 1 ==> exit_code_spec(r, true) == 1,
        exit_code_spec(r, false) == 1 <==> count_sev(r.findings, Severity::High) > 0,
        exit_code_spec(r, true) == 1 <==> count_sev(r.findings, Severity::High) + count_sev(
            r.findings,
            Severity::Medium,
        ) > 0,
{
}

fn count_severity(fs: &Vec<Finding>, sev: Severity) -> (n: usize)
    ensures
        n == count_sev(fs.deep_view(), sev),
{
    let ghost fv = fs.deep_view();
    let mut n: usize = 0;
    let mut i: usize = 0;
    while i < fs.len()
        invariant
            fv == fs.deep_view(),
            i <= fs@.len(),
            n == count_sev(fv.take(i as int), sev),
            n <= i,
        decreases fs@.len() - i,
    {
        assert(fv.take(i + 1).drop_last() =~= fv.take(i as int));
        if fs[i].severity == sev {
            n = n + 1;
        }
        i = i + 1;
    }
    assert(fv.take(fs@.len() as int) =~= fv);
    n
}

/// The number of findings per level: (high, medium, info).
fn tier_counts(result: &ScanResult) -> (r: (usize, usize, usize))
    ensures
        r.0 == count_sev(result.deep_view().findings, Severity::High),
        r.1 == count_sev(result.deep_view().findings, Severity::Medium),
        r.2 == count_sev(result.deep_view().findings, Severity::Info),
{
    (
        count_severity(&result.findings, Severity::High),
        count_severity(&result.findings, Severity::Medium),
        count_severity(&result.findings, Severity::Info),
    )
}

/// The exit code: 1 with a `High` finding, or with a `Medium` one under
/// `strict`; 0 otherwise. (Usage errors give 2, decided by the program.)
pub fn exit_code(result: &ScanResult, strict: bool) -> (c: u8)
    ensures
        c == exit_code_spec(result.deep_view(), strict),
{
    let (high, medium, _) = tier_counts(result);
    if high > 0 || (strict && medium > 0) {
        1
    } else {
        0
    }
}

// ------------------------------------------------------------------
// Terminal text
// ------------------------------------------------------------------
pub open spec fn marker(s: Severity) -> Seq<char> {
    match s {
        Severity::High => "🔴"@,
        Severity::Medium => "🟡"@,
        Severity::Info => "🔵"@,
    }
}

fn marker_v(s: Severity) -> (r: &'static str)
    ensures
        r@ == marker(s),
{
    match s {
        Severity::High => "🔴",
        Severity::Medium => "🟡",
        Severity::Info => "🔵",
    }
}

pub const HEAD_A: &'static str = "just-shield scan — 워크플로 ";
pub const HEAD_B: &'static str = "개 검사\n\n";
pub const CLEAN: &'static str = "✅ 위반 없음 — 모든 액션 참조가 안전하게 핀 고정되어 있습니다\n";
pub const ONLINE_NOTE: &'static str = "참고: 온라인 검사(R5 임포스터 커밋 · R10 쿨다운 · LOCK 태그 대조)는 --online 옵션에서 수행됩니다\n";
pub const SUPPRESSED_HEAD: &'static str = "무시됨 (사유 필수 주석으로 수용):\n";
pub const PASS: &'static str = "통과";
pub const FAIL: &'static str = "빌드 실패";

/// The `uses:` line of a block, present only for a non-empty value.
pub open spec fn uses_line(uses: Seq<char>) -> Seq<char> {
    if uses.len() > 0 {
        "   uses: "@ + uses + "\n"@
    } else {
        Seq::empty()
    }
}

/// The text block of one finding.
pub open spec fn text_block(f: FindingV) -> Seq<char> {
    marker(f.severity) + " "@ + f.rule + "  "@ + f.file + ":"@ + dec(f.line as nat) + "\n"@
        + uses_line(f.uses) + "   근거: "@ + f.evidence + "\n"@ + "   해결: "@ + f.fix_hint
        + "\n\n"@
}

/// The text block of one suppressed finding.
pub open spec fn suppressed_block(sp: SuppressedV) -> Seq<char> {
    "⚪ "@ + sp.finding.rule + "  "@ + sp.finding.file + ":"@ + dec(sp.finding.line as nat)
        + "\n"@ + uses_line(sp.finding.uses) + "   사유: "@ + sp.reason + "\n\n"@
}

/// The summary line.
pub open spec fn summary_line(r: ScanResultV, strict: bool) -> Seq<char> {
    "요약: 🔴 "@ + dec(count_sev(r.findings, Severity::High)) + "건 · 🟡 "@ + dec(
        count_sev(r.findings, Severity::Medium),
    ) + "건 · 🔵 "@ + dec(count_sev(r.findings, Severity::Info)) + "건 · ⚪ 무시 "@ + dec(
        r.suppressed.len(),
    ) + "건 — "@ + (if exit_code_spec(r, strict) == 0 {
        PASS@
    } else {
        FAIL@
    }) + "\n"@
}

pub open spec fn online_note(r: ScanResultV) -> Seq<char> {
    if r.online_rules_skipped {
        ONLINE_NOTE@
    } else {
        Seq::empty()
    }
}

/// The terminal report.
pub open spec fn render_spec(r: ScanResultV, strict: bool) -> Seq<char> {
    let head = HEAD_A@ + dec(r.workflows_scanned as nat) + HEAD_B@;
    if r.findings.len() == 0 {
        head + CLEAN@ + online_note(r)
    } else {
        head + concat(r.findings.map_values(|f: FindingV| text_block(f))) + (if r.suppressed.len()
            > 0 {
            SUPPRESSED_HEAD@ + concat(r.suppressed.map_values(|sp: SuppressedV| suppressed_block(sp)))
        } else {
            Seq::empty()
        }) + summary_line(r, strict) + online_note(r)
    }
}

/// The end of a report with findings: the verdict word of the summary line,
/// then the online note.
pub open spec fn verdict_tail(r: ScanResultV, strict: bool) -> Seq<char> {
    (if exit_code_spec(r, strict) == 0 {
        PASS@
    } else {
        FAIL@
    }) + "\n"@ + online_note(r)
}

/// The terminal report ends with its outcome. With no finding it ends with the
/// clean message (and the online note); otherwise it ends with the summary
/// line, whose last word is `통과` exactly when `exit_code_spec` gives 0 and
/// `빌드 실패` otherwise (then the online note); and when the online rules were
/// skipped, it ends with the note that says so.
pub proof fn report_ends_with_its_verdict(r: ScanResultV, strict: bool)
    ensures
        r.findings.len() == 0 ==> exists|pre: Seq<char>| render_spec(r, strict) == pre + CLEAN@ + online_note(r),
        r.findings.len() > 0 ==> exists|pre: Seq<char>|
            render_spec(r, strict) == pre + verdict_tail(r, strict),
        r.online_rules_skipped ==> exists|pre: Seq<char>| render_spec(r, strict) == pre + ONLINE_NOTE@,
        !r.online_rules_skipped ==> online_note(r) == Seq::<char>::empty(),
{
    let head = HEAD_A@ + dec(r.workflows_scanned as nat) + HEAD_B@;
    let out = render_spec(r, strict);
    let verdict = if exit_code_spec(r, strict) == 0 {
        PASS@
    } else {
        FAIL@
    };
    if r.findings.len() == 0 {
        assert(out == head + CLEAN@ + online_note(r));
        let body = head + CLEAN@;
        if r.online_rules_skipped {
            assert(out == body + ONLINE_NOTE@);
        }
    } else {
        let supp = if r.suppressed.len() > 0 {
            SUPPRESSED_HEAD@ + concat(r.suppressed.map_values(|sp: SuppressedV| suppressed_block(sp)))
        } else {
            Seq::empty()
        };
        let blocks = concat(r.findings.map_values(|f: FindingV| text_block(f)));
        let pre_sum = "요약: 🔴 "@ + dec(count_sev(r.findings, Severity::High)) + "건 · 🟡 "@ + dec(
            count_sev(r.findings, Severity::Medium),
        ) + "건 · 🔵 "@ + dec(count_sev(r.findings, Severity::Info)) + "건 · ⚪ 무시 "@ + dec(
            r.suppressed.len(),
        ) + "건 — "@;
        assert(summary_line(r, strict) =~= pre_sum + verdict + "\n"@);
        let pre = head + blocks + supp + pre_sum;
        assert(out =~= pre + verdict_tail(r, strict));
        if r.online_rules_skipped {
            assert(out =~= (pre + verdict + "\n"@) + ONLINE_NOTE@);
        }
    }
}

/// The first line of a finding's block: marker, rule, file and line.
pub open spec fn finding_heading(f: FindingV) -> Seq<char> {
    marker(f.severity) + " "@ + f.rule + "  "@ + f.file + ":"@ + dec(f.line as nat) + "\n"@
}

/// The part of the report that lists suppressed findings, when there are any.
pub open spec fn suppressed_part(r: ScanResultV) -> Seq<char> {
    if r.suppressed.len() > 0 {
        SUPPRESSED_HEAD@ + concat(r.suppressed.map_values(|sp: SuppressedV| suppressed_block(sp)))
    } else {
        Seq::empty()
    }
}

/// The layout of the terminal report with findings: the head, one block per
/// finding in order (each opening with its marker, rule, file and line), the
/// suppressed findings in order (each opening with `⚪`), the summary line and
/// the online note. The markers are 🔴, 🟡 and 🔵 for `High`, `Medium` and
/// `Info`.
pub proof fn report_lists_each_finding_in_order(r: ScanResultV, strict: bool, f: FindingV, sp: SuppressedV)
    ensures
        r.findings.len() > 0 ==> render_spec(r, strict) == HEAD_A@ + dec(r.workflows_scanned as nat) + HEAD_B@
            + concat(r.findings.map_values(|g: FindingV| text_block(g))) + suppressed_part(r) + summary_line(
            r,
            strict,
        ) + online_note(r),
        exists|rest: Seq<char>| text_block(f) == #[trigger] (finding_heading(f) + rest),
        exists|rest: Seq<char>| suppressed_block(sp) == #[trigger] ("⚪ "@ + rest),
        marker(Severity::High) == "🔴"@ && marker(Severity::Medium) == "🟡"@ && marker(Severity::Info) == "🔵"@,
{
    let rest = uses_line(f.uses) + "   근거: "@ + f.evidence + "\n"@ + "   해결: "@ + f.fix_hint + "\n\n"@;
    assert(text_block(f) =~= finding_heading(f) + rest);
    let rest2 = sp.finding.rule + "  "@ + sp.finding.file + ":"@ + dec(sp.finding.line as nat) + "\n"@
        + uses_line(sp.finding.uses) + "   사유: "@ + sp.reason + "\n\n"@;
    assert(suppressed_block(sp) =~= "⚪ "@ + rest2);
}

fn uses_line_v(out: &mut Vec<char>, uses: &str)
    ensures
        final(out)@ == old(out)@ + uses_line(uses@),
{
    let u = chars_of(uses);
    if u.len() > 0 {
        extend_str(out, "   uses: ");
        extend(out, &u);
        extend_str(out, "\n");
    }
}

fn text_block_v(out: &mut Vec<char>, f: &Finding)
    ensures
        final(out)@ == old(out)@ + text_block(f.deep_view()),
{
    let ghost o = out@;
    extend_str(out, marker_v(f.severity));
    extend_str(out, " ");
    extend_str(out, f.rule);
    extend_str(out, "  ");
    extend_str(out, f.file.as_str());
    extend_str(out, ":");
    extend(out, &dec_usize(f.line));
    extend_str(out, "\n");
    uses_line_v(out, f.uses.as_str());
    extend_str(out, "   근거: ");
    extend_str(out, f.evidence.as_str());
    extend_str(out, "\n");
    extend_str(out, "   해결: ");
    extend_str(out, f.fix_hint.as_str());
    extend_str(out, "\n\n");
    assert(out@ =~= o + text_block(f.deep_view()));
}

fn suppressed_block_v(out: &mut Vec<char>, sp: &Suppressed)
    ensures
        final(out)@ == old(out)@ + suppressed_block(sp.deep_view()),
{
    let ghost o = out@;
    let f = &sp.finding;
    extend_str(out, "⚪ ");
    extend_str(out, f.rule);
    extend_str(out, "  ");
    extend_str(out, f.file.as_str());
    extend_str(out, ":");
    extend(out, &dec_usize(f.line));
    extend_str(out, "\n");
    uses_line_v(out, f.uses.as_str());
    extend_str(out, "   사유: ");
    extend_str(out, sp.reason.as_str());
    extend_str(out, "\n\n");
    assert(out@ =~= o + suppressed_block(sp.deep_view()));
}

fn findings_text(out: &mut Vec<char>, fs: &Vec<Finding>)
    ensures
        final(out)@ == old(out)@ + concat(fs.deep_view().map_values(|f: FindingV| text_block(f))),
{
    let ghost head = out@;
    let ghost m = fs.deep_view().map_values(|f: FindingV| text_block(f));
    let mut i: usize = 0;
    while i < fs.len()
        invariant
            m == fs.deep_view().map_values(|f: FindingV| text_block(f)),
            i <= fs@.len(),
            out@ == head + concat(m.take(i as int)),
        decreases fs@.len() - i,
    {
        proof {
            crate::rules::lemma_concat_step(m, i as int);
        }
        text_block_v(out, &fs[i]);
        i = i + 1;
        assert(out@ =~= head + concat(m.take(i as int)));
    }
    assert(m.take(fs@.len() as int) =~= m);
}

fn suppressed_text(out: &mut Vec<char>, sps: &Vec<Suppressed>)
    ensures
        final(out)@ == old(out)@ + concat(
            sps.deep_view().map_values(|sp: SuppressedV| suppressed_block(sp)),
        ),
{
    let ghost head = out@;
    let ghost m = sps.deep_view().map_values(|sp: SuppressedV| suppressed_block(sp));
    let mut i: usize = 0;
    while i < sps.len()
        invariant
            m == sps.deep_view().map_values(|sp: SuppressedV| suppressed_block(sp)),
            i <= sps@.len(),
            out@ == head + concat(m.take(i as int)),
        decreases sps@.len() - i,
    {
        proof {
            crate::rules::lemma_concat_step(m, i as int);
        }
        suppressed_block_v(out, &sps[i]);
        i = i + 1;
        assert(out@ =~= head + concat(m.take(i as int)));
    }
    assert(m.take(sps@.len() as int) =~= m);
}

fn summary_v(out: &mut Vec<char>, result: &ScanResult, strict: bool)
    ensures
        final(out)@ == old(out)@ + summary_line(result.deep_view(), strict),
{
    let ghost o = out@;
    let (high, medium, info) = tier_counts(result);
    let code = exit_code(result, strict);
    extend_str(out, "요약: 🔴 ");
    extend(out, &dec_usize(high));
    extend_str(out, "건 · 🟡 ");
    extend(out, &dec_usize(medium));
    extend_str(out, "건 · 🔵 ");
    extend(out, &dec_usize(info));
    extend_str(out, "건 · ⚪ 무시 ");
    extend(out, &dec_usize(result.suppressed.len()));
    extend_str(out, "건 — ");
    if code == 0 {
        extend_str(out, PASS);
    } else {
        extend_str(out, FAIL);
    }
    extend_str(out, "\n");
    assert(out@ =~= o + summary_line(result.deep_view(), strict));
}

/// Renders the human report.
pub fn render(result: &ScanResult, strict: bool) -> (s: String)
    ensures
        s@ == render_spec(result.deep_view(), strict),
{
    let ghost rv = result.deep_view();
    let mut out: Vec<char> = Vec::new();
    extend_str(&mut out, HEAD_A);
    extend(&mut out, &dec_usize(result.workflows_scanned));
    extend_str(&mut out, HEAD_B);
    let ghost head = out@;
    assert(head =~= HEAD_A@ + dec(rv.workflows_scanned as nat) + HEAD_B@);
    if result.findings.len() == 0 {
        extend_str(&mut out, CLEAN);
        if result.online_rules_skipped {
            extend_str(&mut out, ONLINE_NOTE);
        }
        assert(out@ =~= render_spec(rv, strict));
        return string_of(&out);
    }
    findings_text(&mut out, &result.findings);
    let ghost body = out@;
    if result.suppressed.len() > 0 {
        extend_str(&mut out, SUPPRESSED_HEAD);
        suppressed_text(&mut out, &result.suppressed);
    }
    let ghost body2 = out@;
    summary_v(&mut out, result, strict);
    if result.online_rules_skipped {
        extend_str(&mut out, ONLINE_NOTE);
    }
    assert(out@ =~= render_spec(rv, strict));
    string_of(&out)
}

// ------------------------------------------------------------------
// JSON
// ------------------------------------------------------------------
/// A lowercase hexadecimal digit.
pub open spec fn hex_digit(d: nat) -> char {
    if d < 10 {
        ((d + 48) as u32) as char
    } else {
        ((d - 10 + 97) as u32) as char
    }
}

/// The JSON escape of one character: quote, backslash and control characters.
pub open spec fn esc_char(c: char) -> Seq<char> {
    if c == '"' {
        seq!['\\', '"']
    } else if c == '\\' {
        seq!['\\', '\\']
    } else if c == '\n' {
        seq!['\\', 'n']
    } else if c == '\r' {
        seq!['\\', 'r']
    } else if c == '\t' {
        seq!['\\', 't']
    } else if (c as u32) < 0x20 {
        seq!['\\', 'u', '0', '0', hex_digit((c as u32 / 16) as nat), hex_digit((c as u32 % 16) as nat)]
    } else {
        seq![c]
    }
}

/// JSON string escaping.
pub open spec fn esc(s: Seq<char>) -> Seq<char> {
    concat(s.map_values(|c: char| esc_char(c)))
}

/// Path separators normalized to `/`.
pub open spec fn slashes(s: Seq<char>) -> Seq<char> {
    s.map_values(|c: char| if c == '\\' { '/' } else { c })
}

fn hex_digit_v(d: u32) -> (c: char)
    requires
        d < 16,
    ensures
        c == hex_digit(d as nat),
{
    let u: u8 = if d < 10 {
        (d + 48) as u8
    } else {
        (d - 10 + 97) as u8
    };
    u as char
}

fn esc_char_v(out: &mut Vec<char>, c: char)
    ensures
        final(out)@ == old(out)@ + esc_char(c),
{
    let ghost o = out@;
    if c == '"' {
        out.push('\\');
        out.push('"');
    } else if c == '\\' {
        out.push('\\');
        out.push('\\');
    } else if c == '\n' {
        out.push('\\');
        out.push('n');
    } else if c == '\r' {
        out.push('\\');
        out.push('r');
    } else if c == '\t' {
        out.push('\\');
        out.push('t');
    } else if (c as u32) < 0x20 {
        let u = c as u32;
        out.push('\\');
        out.push('u');
        out.push('0');
        out.push('0');
        out.push(hex_digit_v(u / 16));
        out.push(hex_digit_v(u % 16));
    } else {
        out.push(c);
    }
    assert(out@ =~= o + esc_char(c));
}

/// Appends the JSON escape of `s`.
fn esc_v(out: &mut Vec<char>, s: &str)
    ensures
        final(out)@ == old(out)@ + esc(s@),
{
    let v = chars_of(s);
    let ghost o = out@;
    let ghost m = v@.map_values(|c: char| esc_char(c));
    let mut i: usize = 0;
    while i < v.len()
        invariant
            m == v@.map_values(|c: char| esc_char(c)),
            v@ == s@,
            i <= v@.len(),
            out@ == o + concat(m.take(i as int)),
        decreases v@.len() - i,
    {
        proof {
            crate::rules::lemma_concat_step(m, i as int);
        }
        esc_char_v(out, v[i]);
        i = i + 1;
        assert(out@ =~= o + concat(m.take(i as int)));
    }
    assert(m.take(v@.len() as int) =~= m);
}

/// Appends the JSON escape of `s` with `\` turned into `/`.
fn esc_path_v(out: &mut Vec<char>, s: &str)
    ensures
        final(out)@ == old(out)@ + esc(slashes(s@)),
{
    let v = chars_of(s);
    let mut w: Vec<char> = Vec::new();
    let mut i: usize = 0;
    while i < v.len()
        invariant
            v@ == s@,
            i <= v@.len(),
            w@ == slashes(v@.take(i as int)),
        decreases v@.len() - i,
    {
        w.push(if v[i] == '\\' { '/' } else { v[i] });
        i = i + 1;
        assert(w@ =~= slashes(v@.take(i as int)));
    }
    assert(v@.take(v@.len() as int) =~= v@);
    let ws = string_of(&w);
    esc_v(out, ws.as_str());
}

/// The lowercase name of a severity.
pub open spec fn severity_name(s: Severity) -> Seq<char> {
    match s {
        Severity::High => "high"@,
        Severity::Medium => "medium"@,
        Severity::Info => "info"@,
    }
}

fn severity_name_v(s: Severity) -> (r: &'static str)
    ensures
        r@ == severity_name(s),
{
    match s {
        Severity::High => "high",
        Severity::Medium => "medium",
        Severity::Info => "info",
    }
}

/// The blocks joined by commas.
pub open spec fn comma_join(s: Seq<Seq<char>>) -> Seq<char>
    decreases s.len(),
{
    if s.len() == 0 {
        Seq::empty()
    } else if s.len() == 1 {
        s[0]
    } else {
        comma_join(s.drop_last()).push(',') + s.last()
    }
}

/// The JSON object of one finding.
pub open spec fn json_finding(f: FindingV) -> Seq<char> {
    "\n    {\n"@ + "      \"rule\": \""@ + esc(f.rule) + "\",\n"@ + "      \"severity\": \""@
        + severity_name(f.severity) + "\",\n"@ + "      \"file\": \""@ + esc(slashes(f.file))
        + "\",\n"@ + "      \"line\": "@ + dec(f.line as nat) + ",\n"@ + "      \"uses\": \""@
        + esc(f.uses) + "\",\n"@ + "      \"evidence\": \""@ + esc(f.evidence) + "\",\n"@
        + "      \"fix_hint\": \""@ + esc(f.fix_hint) + "\"\n"@ + "    }"@
}

/// The JSON object of one suppressed finding.
pub open spec fn json_suppressed(sp: SuppressedV) -> Seq<char> {
    "\n    {\n"@ + "      \"rule\": \""@ + esc(sp.finding.rule) + "\",\n"@ + "      \"file\": \""@
        + esc(slashes(sp.finding.file)) + "\",\n"@ + "      \"line\": "@ + dec(
        sp.finding.line as nat,
    ) + ",\n"@ + "      \"uses\": \""@ + esc(sp.finding.uses) + "\",\n"@
        + "      \"reason\": \""@ + esc(sp.reason) + "\"\n"@ + "    }"@
}

/// The machine report. Paths use `/` whatever the platform.
pub open spec fn render_json_spec(r: ScanResultV, strict: bool) -> Seq<char> {
    "{\n"@ + "  \"version\": 1,\n"@ + "  \"workflows_scanned\": "@ + dec(
        r.workflows_scanned as nat,
    ) + ",\n"@ + "  \"summary\": { \"high\": "@ + dec(count_sev(r.findings, Severity::High))
        + ", \"medium\": "@ + dec(count_sev(r.findings, Severity::Medium)) + ", \"info\": "@ + dec(
        count_sev(r.findings, Severity::Info),
    ) + ", \"suppressed\": "@ + dec(r.suppressed.len()) + " },\n"@ + "  \"exit_code\": "@ + dec(
        exit_code_spec(r, strict) as nat,
    ) + ",\n"@ + "  \"findings\": ["@ + comma_join(
        r.findings.map_values(|f: FindingV| json_finding(f)),
    ) + (if r.findings.len() == 0 {
        "],\n"@
    } else {
        "\n  ],\n"@
    }) + "  \"suppressed\": ["@ + comma_join(
        r.suppressed.map_values(|sp: SuppressedV| json_suppressed(sp)),
    ) + (if r.suppressed.len() == 0 {
        "]\n"@
    } else {
        "\n  ]\n"@
    }) + "}\n"@
}

/// The fields of a finding's JSON object up to its line.
pub open spec fn json_finding_head(f: FindingV) -> Seq<char> {
    "\n    {\n"@ + "      \"rule\": \""@ + esc(f.rule) + "\",\n"@ + "      \"severity\": \""@
        + severity_name(f.severity) + "\",\n"@ + "      \"file\": \""@ + esc(slashes(f.file))
        + "\",\n"@ + "      \"line\": "@ + dec(f.line as nat) + ",\n"@
}

/// The rest of a finding's JSON object.
pub open spec fn json_finding_tail(f: FindingV) -> Seq<char> {
    "      \"uses\": \""@ + esc(f.uses) + "\",\n"@ + "      \"evidence\": \""@ + esc(f.evidence)
        + "\",\n"@ + "      \"fix_hint\": \""@ + esc(f.fix_hint) + "\"\n"@ + "    }"@
}

fn json_finding_head_v(out: &mut Vec<char>, f: &Finding)
    ensures
        final(out)@ == old(out)@ + json_finding_head(f.deep_view()),
{
    let ghost o = out@;
    extend_str(out, "\n    {\n");
    extend_str(out, "      \"rule\": \"");
    esc_v(out, f.rule);
    extend_str(out, "\",\n");
    extend_str(out, "      \"severity\": \"");
    extend_str(out, severity_name_v(f.severity));
    extend_str(out, "\",\n");
    extend_str(out, "      \"file\": \"");
    esc_path_v(out, f.file.as_str());
    extend_str(out, "\",\n");
    extend_str(out, "      \"line\": ");
    extend(out, &dec_usize(f.line));
    extend_str(out, ",\n");
    assert(out@ =~= o + json_finding_head(f.deep_view()));
}

fn json_finding_tail_v(out: &mut Vec<char>, f: &Finding)
    ensures
        final(out)@ == old(out)@ + json_finding_tail(f.deep_view()),
{
    let ghost o = out@;
    extend_str(out, "      \"uses\": \"");
    esc_v(out, f.uses.as_str());
    extend_str(out, "\",\n");
    extend_str(out, "      \"evidence\": \"");
    esc_v(out, f.evidence.as_str());
    extend_str(out, "\",\n");
    extend_str(out, "      \"fix_hint\": \"");
    esc_v(out, f.fix_hint.as_str());
    extend_str(out, "\"\n");
    extend_str(out, "    }");
    assert(out@ =~= o + json_finding_tail(f.deep_view()));
}

fn json_finding_v(out: &mut Vec<char>, f: &Finding)
    ensures
        final(out)@ == old(out)@ + json_finding(f.deep_view()),
{
    let ghost o = out@;
    json_finding_head_v(out, f);
    json_finding_tail_v(out, f);
    assert(json_finding(f.deep_view()) =~= json_finding_head(f.deep_view()) + json_finding_tail(
        f.deep_view(),
    ));
    assert(out@ =~= o + json_finding(f.deep_view()));
}

#[verifier::rlimit(50)]
fn json_suppressed_v(out: &mut Vec<char>, sp: &Suppressed)
    ensures
        final(out)@ == old(out)@ + json_suppressed(sp.deep_view()),
{
    let ghost o = out@;
    let f = &sp.finding;
    extend_str(out, "\n    {\n");
    extend_str(out, "      \"rule\": \"");
    esc_v(out, f.rule);
    extend_str(out, "\",\n");
    extend_str(out, "      \"file\": \"");
    esc_path_v(out, f.file.as_str());
    extend_str(out, "\",\n");
    extend_str(out, "      \"line\": ");
    extend(out, &dec_usize(f.line));
    extend_str(out, ",\n");
    extend_str(out, "      \"uses\": \"");
    esc_v(out, f.uses.as_str());
    extend_str(out, "\",\n");
    extend_str(out, "      \"reason\": \"");
    esc_v(out, sp.reason.as_str());
    extend_str(out, "\"\n");
    extend_str(out, "    }");
    assert(out@ =~= o + json_suppressed(sp.deep_view()));
}

pub proof fn lemma_comma_join_step(s: Seq<Seq<char>>, i: int)
    requires
        0 <= i < s.len(),
    ensures
        comma_join(s.take(i + 1)) == if i == 0 {
            s[0]
        } else {
            comma_join(s.take(i)).push(',') + s[i]
        },
{
    assert(s.take(i + 1).drop_last() =~= s.take(i));
}

fn json_findings_v(out: &mut Vec<char>, fs: &Vec<Finding>)
    ensures
        final(out)@ == old(out)@ + comma_join(fs.deep_view().map_values(|f: FindingV| json_finding(f))),
{
    let ghost o = out@;
    let ghost m = fs.deep_view().map_values(|f: FindingV| json_finding(f));
    let mut i: usize = 0;
    while i < fs.len()
        invariant
            m == fs.deep_view().map_values(|f: FindingV| json_finding(f)),
            i <= fs@.len(),
            out@ == o + comma_join(m.take(i as int)),
        decreases fs@.len() - i,
    {
        proof {
            lemma_comma_join_step(m, i as int);
        }
        if i > 0 {
            out.push(',');
        }
        json_finding_v(out, &fs[i]);
        i = i + 1;
        assert(out@ =~= o + comma_join(m.take(i as int)));
    }
    assert(m.take(fs@.len() as int) =~= m);
}

fn json_suppressed_list_v(out: &mut Vec<char>, sps: &Vec<Suppressed>)
    ensures
        final(out)@ == old(out)@ + comma_join(
            sps.deep_view().map_values(|sp: SuppressedV| json_suppressed(sp)),
        ),
{
    let ghost o = out@;
    let ghost m = sps.deep_view().map_values(|sp: SuppressedV| json_suppressed(sp));
    let mut i: usize = 0;
    while i < sps.len()
        invariant
            m == sps.deep_view().map_values(|sp: SuppressedV| json_suppressed(sp)),
            i <= sps@.len(),
            out@ == o + comma_join(m.take(i as int)),
        decreases sps@.len() - i,
    {
        proof {
            lemma_comma_join_step(m, i as int);
        }
        if i > 0 {
            out.push(',');
        }
        json_suppressed_v(out, &sps[i]);
        i = i + 1;
        assert(out@ =~= o + comma_join(m.take(i as int)));
    }
    assert(m.take(sps@.len() as int) =~= m);
}

fn json_head_v(out: &mut Vec<char>, result: &ScanResult, strict: bool)
    ensures
        final(out)@ == old(out)@ + "{\n"@ + "  \"version\": 1,\n"@ + "  \"workflows_scanned\": "@
            + dec(result.deep_view().workflows_scanned as nat) + ",\n"@
            + "  \"summary\": { \"high\": "@ + dec(
            count_sev(result.deep_view().findings, Severity::High),
        ) + ", \"medium\": "@ + dec(count_sev(result.deep_view().findings, Severity::Medium))
            + ", \"info\": "@ + dec(count_sev(result.deep_view().findings, Severity::Info))
            + ", \"suppressed\": "@ + dec(result.deep_view().suppressed.len()) + " },\n"@
            + "  \"exit_code\": "@ + dec(exit_code_spec(result.deep_view(), strict) as nat)
            + ",\n"@,
{
    let ghost o = out@;
    let (high, medium, info) = tier_counts(result);
    let code = exit_code(result, strict);
    extend_str(out, "{\n");
    extend_str(out, "  \"version\": 1,\n");
    extend_str(out, "  \"workflows_scanned\": ");
    extend(out, &dec_usize(result.workflows_scanned));
    extend_str(out, ",\n");
    extend_str(out, "  \"summary\": { \"high\": ");
    extend(out, &dec_usize(high));
    extend_str(out, ", \"medium\": ");
    extend(out, &dec_usize(medium));
    extend_str(out, ", \"info\": ");
    extend(out, &dec_usize(info));
    extend_str(out, ", \"suppressed\": ");
    extend(out, &dec_usize(result.suppressed.len()));
    extend_str(out, " },\n");
    extend_str(out, "  \"exit_code\": ");
    extend(out, &dec_usize(code as usize));
    extend_str(out, ",\n");
}

/// Renders the machine (JSON) report; its schema is version 1.
pub fn render_json(result: &ScanResult, strict: bool) -> (s: String)
    ensures
        s@ == render_json_spec(result.deep_view(), strict),
{
    let mut out: Vec<char> = Vec::new();
    json_head_v(&mut out, result, strict);
    extend_str(&mut out, "  \"findings\": [");
    json_findings_v(&mut out, &result.findings);
    if result.findings.len() == 0 {
        extend_str(&mut out, "],\n");
    } else {
        extend_str(&mut out, "\n  ],\n");
    }
    extend_str(&mut out, "  \"suppressed\": [");
    json_suppressed_list_v(&mut out, &result.suppressed);
    if result.suppressed.len() == 0 {
        extend_str(&mut out, "]\n");
    } else {
        extend_str(&mut out, "\n  ]\n");
    }
    extend_str(&mut out, "}\n");
    assert(out@ =~= render_json_spec(result.deep_view(), strict));
    string_of(&out)
}

// ------------------------------------------------------------------
// SARIF
// ------------------------------------------------------------------
/// The version written into SARIF reports.
pub const TOOL_VERSION: &'static str = "0.1.2";

/// Rule metadata: id and short description. `ruleIndex` is a position in this
/// list, which always holds every rule so the output does not depend on input.
pub open spec fn rule_metadata_spec() -> Seq<(Seq<char>, Seq<char>)> {
    seq![
        ("R1"@, "서드파티 액션의 가변 참조(태그/브랜치) — 태그 하이재킹에 노출"@),
        ("R2"@, "유명 액션과 한 글자 차이 — 타이포스쿼팅 의심"@),
        ("R3"@, "curl | sh류 미검증 파이프 설치"@),
        ("R4"@, "다이제스트 없는 컨테이너 이미지 참조"@),
        ("R5"@, "핀된 SHA가 저장소 정식 히스토리에서 도달 불가 — 임포스터 커밋"@),
        ("R6"@, "시크릿을 쓰는 잡에서 서드파티 액션 실행"@),
        ("R7"@, "permissions 미선언 또는 write-all"@),
        ("R8"@, "위험 트리거(pull_request_target 등)와 외부 PR 체크아웃 조합"@),
        ("R9"@, "공개 권고에 악성으로 등재된 버전/커밋 사용"@),
        ("R10"@, "발행 후 쿨다운(검증 기간) 미경과 참조"@),
        ("LOCK"@, "shield.lock 박제본 대비 태그 이동"@),
        ("EGRESS"@, "잠근 잡이 egress.lock에 없는 목적지를 조회 — 유출 신호"@),
    ]
}

pub fn rule_metadata() -> (r: Vec<(&'static str, &'static str)>)
    ensures
        r@.len() == rule_metadata_spec().len(),
        forall|i: int|
            0 <= i < r@.len() ==> (#[trigger] r@[i]).0@ == rule_metadata_spec()[i].0 && r@[i].1@
                == rule_metadata_spec()[i].1,
{
    let mut r: Vec<(&'static str, &'static str)> = Vec::new();
    r.push(("R1", "서드파티 액션의 가변 참조(태그/브랜치) — 태그 하이재킹에 노출"));
    r.push(("R2", "유명 액션과 한 글자 차이 — 타이포스쿼팅 의심"));
    r.push(("R3", "curl | sh류 미검증 파이프 설치"));
    r.push(("R4", "다이제스트 없는 컨테이너 이미지 참조"));
    r.push(("R5", "핀된 SHA가 저장소 정식 히스토리에서 도달 불가 — 임포스터 커밋"));
    r.push(("R6", "시크릿을 쓰는 잡에서 서드파티 액션 실행"));
    r.push(("R7", "permissions 미선언 또는 write-all"));
    r.push(("R8", "위험 트리거(pull_request_target 등)와 외부 PR 체크아웃 조합"));
    r.push(("R9", "공개 권고에 악성으로 등재된 버전/커밋 사용"));
    r.push(("R10", "발행 후 쿨다운(검증 기간) 미경과 참조"));
    r.push(("LOCK", "shield.lock 박제본 대비 태그 이동"));
    r.push(("EGRESS", "잠근 잡이 egress.lock에 없는 목적지를 조회 — 유출 신호"));
    r
}

/// The position of `rule` in the metadata from `i` on, or 0 when absent.
pub open spec fn rule_index_from(rule: Seq<char>, i: int) -> nat
    decreases rule_metadata_spec().len() - i,
{
    if 0 <= i < rule_metadata_spec().len() {
        if rule_metadata_spec()[i].0 == rule {
            i as nat
        } else {
            rule_index_from(rule, i + 1)
        }
    } else {
        0
    }
}

pub open spec fn rule_index(rule: Seq<char>) -> nat {
    rule_index_from(rule, 0)
}

fn rule_index_v(rule: &str) -> (r: usize)
    ensures
        r == rule_index(rule@),
{
    let meta = rule_metadata();
    let mut i: usize = 0;
    while i < meta.len()
        invariant
            meta@.len() == rule_metadata_spec().len(),
            forall|k: int|
                0 <= k < meta@.len() ==> (#[trigger] meta@[k]).0@ == rule_metadata_spec()[k].0,
            i <= meta@.len(),
            rule_index(rule@) == rule_index_from(rule@, i as int),
        decreases meta@.len() - i,
    {
        if crate::text::str_eq(meta[i].0, rule) {
            return i;
        }
        i = i + 1;
    }
    0
}

pub open spec fn sarif_level(s: Severity) -> Seq<char> {
    match s {
        Severity::High => "error"@,
        Severity::Medium => "warning"@,
        Severity::Info => "note"@,
    }
}

fn sarif_level_v(s: Severity) -> (r: &'static str)
    ensures
        r@ == sarif_level(s),
{
    match s {
        Severity::High => "error",
        Severity::Medium => "warning",
        Severity::Info => "note",
    }
}

/// The message of a SARIF result.
pub open spec fn sarif_message(f: FindingV) -> Seq<char> {
    if f.uses.len() == 0 {
        f.evidence + " — 해결: "@ + f.fix_hint
    } else {
        "uses: "@ + f.uses + " — "@ + f.evidence + " — 해결: "@ + f.fix_hint
    }
}

/// One SARIF result; a suppressed finding carries its justification.
pub open spec fn sarif_result(f: FindingV, reason: Option<Seq<char>>) -> Seq<char> {
    "\n        {\n"@ + "          \"ruleId\": \""@ + esc(f.rule) + "\",\n"@
        + "          \"ruleIndex\": "@ + dec(rule_index(f.rule)) + ",\n"@
        + "          \"level\": \""@ + sarif_level(f.severity) + "\",\n"@
        + "          \"message\": { \"text\": \""@ + esc(sarif_message(f)) + "\" },\n"@
        + "          \"locations\": [{ \"physicalLocation\": { \"artifactLocation\": { \"uri\": \""@
        + esc(slashes(f.file)) + "\" }, \"region\": { \"startLine\": "@ + dec(
        if f.line >= 1 {
            f.line as nat
        } else {
            1nat
        },
    ) + " } } }]"@ + match reason {
        Some(r) => ",\n          \"suppressions\": [{ \"kind\": \"inSource\", \"justification\": \""@
            + esc(r) + "\" }]"@,
        None => Seq::empty(),
    } + "\n        }"@
}

/// One entry of the SARIF rule list.
pub open spec fn sarif_rule(m: (Seq<char>, Seq<char>)) -> Seq<char> {
    "\n            { \"id\": \""@ + esc(m.0) + "\", \"shortDescription\": { \"text\": \""@ + esc(m.1)
        + "\" } }"@
}

pub open spec fn sarif_head() -> Seq<char> {
    "{\n"@ + "  \"$schema\": \"https://json.schemastore.org/sarif-2.1.0.json\",\n"@
        + "  \"version\": \"2.1.0\",\n"@ + "  \"runs\": [\n    {\n"@
        + "      \"tool\": {\n        \"driver\": {\n"@ + "          \"name\": \"just-shield\",\n"@
        + "          \"version\": \""@ + TOOL_VERSION@ + "\",\n"@
        + "          \"informationUri\": \"https://github.com/kihyun1998/just-shield\",\n"@
        + "          \"rules\": ["@ + comma_join(
        rule_metadata_spec().map_values(|m: (Seq<char>, Seq<char>)| sarif_rule(m)),
    ) + "\n          ]\n        }\n      },\n"@
}

/// SARIF 2.1.0 for code scanning. Suppressed findings stay, marked with
/// `suppressions`.
pub open spec fn render_sarif_spec(r: ScanResultV) -> Seq<char> {
    let results = sarif_results(r);
    sarif_head() + "      \"results\": ["@ + comma_join(results) + (if results.len() == 0 {
        "]\n"@
    } else {
        "\n      ]\n"@
    }) + "    }\n  ]\n}\n"@
}

fn sarif_message_v(f: &Finding) -> (m: String)
    ensures
        m@ == sarif_message(f.deep_view()),
{
    let mut message: Vec<char> = Vec::new();
    if f.uses.as_str().unicode_len() == 0 {
        extend_str(&mut message, f.evidence.as_str());
        extend_str(&mut message, " — 해결: ");
        extend_str(&mut message, f.fix_hint.as_str());
    } else {
        extend_str(&mut message, "uses: ");
        extend_str(&mut message, f.uses.as_str());
        extend_str(&mut message, " — ");
        extend_str(&mut message, f.evidence.as_str());
        extend_str(&mut message, " — 해결: ");
        extend_str(&mut message, f.fix_hint.as_str());
    }
    assert(message@ =~= sarif_message(f.deep_view()));
    string_of(&message)
}

/// The part of a SARIF result before its location.
pub open spec fn sarif_result_head(f: FindingV) -> Seq<char> {
    "\n        {\n"@ + "          \"ruleId\": \""@ + esc(f.rule) + "\",\n"@
        + "          \"ruleIndex\": "@ + dec(rule_index(f.rule)) + ",\n"@
        + "          \"level\": \""@ + sarif_level(f.severity) + "\",\n"@
        + "          \"message\": { \"text\": \""@ + esc(sarif_message(f)) + "\" },\n"@
}

/// The location of a SARIF result.
pub open spec fn sarif_location(f: FindingV) -> Seq<char> {
    "          \"locations\": [{ \"physicalLocation\": { \"artifactLocation\": { \"uri\": \""@
        + esc(slashes(f.file)) + "\" }, \"region\": { \"startLine\": "@ + dec(
        if f.line >= 1 {
            f.line as nat
        } else {
            1nat
        },
    ) + " } } }]"@
}

pub open spec fn sarif_suppression(reason: Option<Seq<char>>) -> Seq<char> {
    match reason {
        Some(r) => ",\n          \"suppressions\": [{ \"kind\": \"inSource\", \"justification\": \""@
            + esc(r) + "\" }]"@,
        None => Seq::empty(),
    }
}

proof fn lemma_sarif_result(f: FindingV, reason: Option<Seq<char>>)
    ensures
        sarif_result(f, reason) == sarif_result_head(f) + sarif_location(f) + sarif_suppression(
            reason,
        ) + "\n        }"@,
{
    assert(sarif_result(f, reason) =~= sarif_result_head(f) + sarif_location(f)
        + sarif_suppression(reason) + "\n        }"@);
}

fn sarif_result_head_v(out: &mut Vec<char>, f: &Finding)
    ensures
        final(out)@ == old(out)@ + sarif_result_head(f.deep_view()),
{
    let ghost o = out@;
    let message = sarif_message_v(f);
    extend_str(out, "\n        {\n");
    extend_str(out, "          \"ruleId\": \"");
    esc_v(out, f.rule);
    extend_str(out, "\",\n");
    extend_str(out, "          \"ruleIndex\": ");
    extend(out, &dec_usize(rule_index_v(f.rule)));
    extend_str(out, ",\n");
    extend_str(out, "          \"level\": \"");
    extend_str(out, sarif_level_v(f.severity));
    extend_str(out, "\",\n");
    extend_str(out, "          \"message\": { \"text\": \"");
    esc_v(out, message.as_str());
    extend_str(out, "\" },\n");
    assert(out@ =~= o + sarif_result_head(f.deep_view()));
}

fn sarif_location_v(out: &mut Vec<char>, f: &Finding)
    ensures
        final(out)@ == old(out)@ + sarif_location(f.deep_view()),
{
    let ghost o = out@;
    extend_str(
        out,
        "          \"locations\": [{ \"physicalLocation\": { \"artifactLocation\": { \"uri\": \"",
    );
    esc_path_v(out, f.file.as_str());
    extend_str(out, "\" }, \"region\": { \"startLine\": ");
    let line = if f.line >= 1 {
        f.line
    } else {
        1
    };
    extend(out, &dec_usize(line));
    extend_str(out, " } } }]");
    assert(out@ =~= o + sarif_location(f.deep_view()));
}

fn sarif_result_v(out: &mut Vec<char>, f: &Finding, reason: Option<&str>)
    ensures
        final(out)@ == old(out)@ + sarif_result(
            f.deep_view(),
            match reason {
                Some(r) => Some(r@),
                None => None,
            },
        ),
{
    let ghost o = out@;
    let ghost rs = match reason {
        Some(r) => Some(r@),
        None => None::<Seq<char>>,
    };
    sarif_result_head_v(out, f);
    sarif_location_v(out, f);
    let ghost mid = out@;
    match reason {
        Some(r) => {
            extend_str(
                out,
                ",\n          \"suppressions\": [{ \"kind\": \"inSource\", \"justification\": \"",
            );
            esc_v(out, r);
            extend_str(out, "\" }]");
        },
        None => {},
    }
    assert(out@ =~= mid + sarif_suppression(rs));
    extend_str(out, "\n        }");
    proof {
        lemma_sarif_result(f.deep_view(), rs);
    }
    assert(out@ =~= o + sarif_result(f.deep_view(), rs));
}

fn sarif_head_v(out: &mut Vec<char>)
    ensures
        final(out)@ == old(out)@ + sarif_head(),
{
    let ghost o = out@;
    extend_str(out, "{\n");
    extend_str(out, "  \"$schema\": \"https://json.schemastore.org/sarif-2.1.0.json\",\n");
    extend_str(out, "  \"version\": \"2.1.0\",\n");
    extend_str(out, "  \"runs\": [\n    {\n");
    extend_str(out, "      \"tool\": {\n        \"driver\": {\n");
    extend_str(out, "          \"name\": \"just-shield\",\n");
    extend_str(out, "          \"version\": \"");
    extend_str(out, TOOL_VERSION);
    extend_str(out, "\",\n");
    extend_str(out, "          \"informationUri\": \"https://github.com/kihyun1998/just-shield\",\n");
    extend_str(out, "          \"rules\": [");
    let ghost pre = out@;
    let meta = rule_metadata();
    let ghost m = rule_metadata_spec().map_values(|x: (Seq<char>, Seq<char>)| sarif_rule(x));
    let mut i: usize = 0;
    while i < meta.len()
        invariant
            meta@.len() == rule_metadata_spec().len(),
            forall|k: int|
                0 <= k < meta@.len() ==> (#[trigger] meta@[k]).0@ == rule_metadata_spec()[k].0
                    && meta@[k].1@ == rule_metadata_spec()[k].1,
            m == rule_metadata_spec().map_values(|x: (Seq<char>, Seq<char>)| sarif_rule(x)),
            i <= meta@.len(),
            out@ == pre + comma_join(m.take(i as int)),
        decreases meta@.len() - i,
    {
        proof {
            lemma_comma_join_step(m, i as int);
        }
        let ghost b = out@;
        if i > 0 {
            out.push(',');
        }
        let (id, desc) = meta[i];
        extend_str(out, "\n            { \"id\": \"");
        esc_v(out, id);
        extend_str(out, "\", \"shortDescription\": { \"text\": \"");
        esc_v(out, desc);
        extend_str(out, "\" } }");
        i = i + 1;
        assert(out@ =~= pre + comma_join(m.take(i as int)));
    }
    assert(m.take(meta@.len() as int) =~= m);
    extend_str(out, "\n          ]\n        }\n      },\n");
    assert(out@ =~= o + sarif_head());
}

pub open spec fn sarif_results(r: ScanResultV) -> Seq<Seq<char>> {
    r.findings.map_values(|f: FindingV| sarif_result(f, None)) + r.suppressed.map_values(
        |sp: SuppressedV| sarif_result(sp.finding, Some(sp.reason)),
    )
}

/// The ids of the SARIF rule list, in order.
pub open spec fn sarif_rule_ids() -> Seq<Seq<char>> {
    seq!["R1"@, "R2"@, "R3"@, "R4"@, "R5"@, "R6"@, "R7"@, "R8"@, "R9"@, "R10"@, "LOCK"@, "EGRESS"@]
}

proof fn lemma_rule_index_from(rule: Seq<char>, i: int, k: int)
    requires
        0 <= i <= k < rule_metadata_spec().len(),
        rule_metadata_spec()[k].0 == rule,
        forall|j: int| i <= j < k ==> (#[trigger] rule_metadata_spec()[j]).0 != rule,
    ensures
        rule_index_from(rule, i) == k,
    decreases k - i,
{
    if i < k {
        lemma_rule_index_from(rule, i + 1, k);
    }
}

proof fn lemma_rule_index_absent(rule: Seq<char>, i: int)
    requires
        0 <= i,
        forall|j: int| i <= j < rule_metadata_spec().len() ==> (#[trigger] rule_metadata_spec()[j]).0 != rule,
    ensures
        rule_index_from(rule, i) == 0,
    decreases rule_metadata_spec().len() - i,
{
    if i < rule_metadata_spec().len() {
        lemma_rule_index_absent(rule, i + 1);
    }
}

/// The SARIF output: the same head whatever the result, whose rule list is
/// R1 to R10, LOCK and EGRESS in that order, each result's `ruleIndex` being its
/// rule's place there (0 for an id not in it); then one result per finding in
/// order, then one per suppressed finding in order, only these carrying a
/// `suppressions` entry with the reason; and `"results": []` when there is
/// neither.
pub proof fn sarif_lists_results_against_a_fixed_rule_table(r: ScanResultV, rule: Seq<char>)
    ensures
        exists|rest: Seq<char>| render_sarif_spec(r) == #[trigger] (sarif_head() + rest),
        rule_metadata_spec().map_values(|m: (Seq<char>, Seq<char>)| m.0) == sarif_rule_ids(),
        forall|k: int| 0 <= k < sarif_rule_ids().len() ==> rule_index(#[trigger] sarif_rule_ids()[k]) == k,
        !sarif_rule_ids().contains(rule) ==> rule_index(rule) == 0,
        sarif_results(r).len() == r.findings.len() + r.suppressed.len(),
        forall|k: int|
            0 <= k < r.findings.len() ==> #[trigger] sarif_results(r)[k] == sarif_result(r.findings[k], None),
        forall|k: int|
            0 <= k < r.suppressed.len() ==> #[trigger] sarif_results(r)[r.findings.len() + k] == sarif_result(
                r.suppressed[k].finding,
                Some(r.suppressed[k].reason),
            ),
        r.findings.len() == 0 && r.suppressed.len() == 0 ==> render_sarif_spec(r) == sarif_head()
            + "      \"results\": ["@ + "]\n"@ + "    }\n  ]\n}\n"@,
{
    reveal_strlit("R1");
    reveal_strlit("R2");
    reveal_strlit("R3");
    reveal_strlit("R4");
    reveal_strlit("R5");
    reveal_strlit("R6");
    reveal_strlit("R7");
    reveal_strlit("R8");
    reveal_strlit("R9");
    reveal_strlit("R10");
    reveal_strlit("LOCK");
    reveal_strlit("EGRESS");
    let meta = rule_metadata_spec();
    let ids = sarif_rule_ids();
    assert(meta.map_values(|m: (Seq<char>, Seq<char>)| m.0) =~= ids);
    assert forall|a: int, b: int| 0 <= a < ids.len() && 0 <= b < ids.len() && a != b implies #[trigger] ids[a]
        != #[trigger] ids[b] by {
        if ids[a] == ids[b] {
            assert(ids[a].len() == ids[b].len());
            assert(ids[a][0] == ids[b][0]);
            if ids[a].len() >= 2 {
                assert(ids[a][1] == ids[b][1]);
            }
            if ids[a].len() >= 3 {
                assert(ids[a][2] == ids[b][2]);
            }
        }
    }
    assert forall|k: int| 0 <= k < ids.len() implies rule_index(#[trigger] ids[k]) == k by {
        assert(meta[k].0 == ids[k]);
        assert forall|j: int| 0 <= j < k implies (#[trigger] meta[j]).0 != ids[k] by {
            assert(meta[j].0 == ids[j]);
        }
        lemma_rule_index_from(ids[k], 0, k);
    }
    if !ids.contains(rule) {
        assert forall|j: int| 0 <= j < meta.len() implies (#[trigger] meta[j]).0 != rule by {
            assert(meta[j].0 == ids[j]);
        }
        lemma_rule_index_absent(rule, 0);
    }
    let results = sarif_results(r);
    let rest = "      \"results\": ["@ + comma_join(results) + (if results.len() == 0 {
        "]\n"@
    } else {
        "\n      ]\n"@
    }) + "    }\n  ]\n}\n"@;
    assert(render_sarif_spec(r) =~= sarif_head() + rest);
    if r.findings.len() == 0 && r.suppressed.len() == 0 {
        assert(results.len() == 0);
        assert(comma_join(results) =~= Seq::<char>::empty());
        assert(render_sarif_spec(r) =~= sarif_head() + "      \"results\": ["@ + "]\n"@ + "    }\n  ]\n}\n"@);
    }
}

/// An accepted finding stays visible as accepted in SARIF: the result of the
/// `k`-th suppressed finding ends with a `suppressions` entry of kind
/// `inSource` whose justification is that finding's (escaped) reason, right
/// before the result closes; the result of a finding that is not suppressed
/// closes right after its location, with no such entry.
pub proof fn sarif_suppressed_results_carry_their_reason(r: ScanResultV, k: int)
    ensures
        0 <= k < r.suppressed.len() ==> exists|pre: Seq<char>|
            sarif_results(r)[r.findings.len() + k] == #[trigger] (pre + (",\n          \"suppressions\": [{ \"kind\": \"inSource\", \"justification\": \""@
                + esc(r.suppressed[k].reason) + "\" }]"@ + "\n        }"@)),
        0 <= k < r.findings.len() ==> exists|pre: Seq<char>|
            sarif_results(r)[k] == #[trigger] (pre + (" } } }]"@ + "\n        }"@)),
{
    if 0 <= k < r.suppressed.len() {
        let sp = r.suppressed[k];
        let res = sarif_results(r)[r.findings.len() + k];
        assert(res == sarif_result(sp.finding, Some(sp.reason)));
        let f = sp.finding;
        let pre = "\n        {\n"@ + "          \"ruleId\": \""@ + esc(f.rule) + "\",\n"@
            + "          \"ruleIndex\": "@ + dec(rule_index(f.rule)) + ",\n"@
            + "          \"level\": \""@ + sarif_level(f.severity) + "\",\n"@
            + "          \"message\": { \"text\": \""@ + esc(sarif_message(f)) + "\" },\n"@
            + "          \"locations\": [{ \"physicalLocation\": { \"artifactLocation\": { \"uri\": \""@
            + esc(slashes(f.file)) + "\" }, \"region\": { \"startLine\": "@ + dec(
            if f.line >= 1 {
                f.line as nat
            } else {
                1nat
            },
        ) + " } } }]"@;
        assert(res =~= pre + (",\n          \"suppressions\": [{ \"kind\": \"inSource\", \"justification\": \""@
            + esc(sp.reason) + "\" }]"@ + "\n        }"@));
    }
    if 0 <= k < r.findings.len() {
        let f = r.findings[k];
        let res = sarif_results(r)[k];
        assert(res == sarif_result(f, None));
        let pre = "\n        {\n"@ + "          \"ruleId\": \""@ + esc(f.rule) + "\",\n"@
            + "          \"ruleIndex\": "@ + dec(rule_index(f.rule)) + ",\n"@
            + "          \"level\": \""@ + sarif_level(f.severity) + "\",\n"@
            + "          \"message\": { \"text\": \""@ + esc(sarif_message(f)) + "\" },\n"@
            + "          \"locations\": [{ \"physicalLocation\": { \"artifactLocation\": { \"uri\": \""@
            + esc(slashes(f.file)) + "\" }, \"region\": { \"startLine\": "@ + dec(
            if f.line >= 1 {
                f.line as nat
            } else {
                1nat
            },
        );
        assert(res =~= pre + (" } } }]"@ + "\n        }"@));
    }
}

/// The head of the JSON report: the schema version, the number of workflow
/// files, the counts of findings by severity and of suppressed ones, and the
/// code the run exits with.
pub open spec fn json_head(r: ScanResultV, strict: bool) -> Seq<char> {
    "{\n"@ + "  \"version\": 1,\n"@ + "  \"workflows_scanned\": "@ + dec(r.workflows_scanned as nat)
        + ",\n"@ + "  \"summary\": { \"high\": "@ + dec(count_sev(r.findings, Severity::High))
        + ", \"medium\": "@ + dec(count_sev(r.findings, Severity::Medium)) + ", \"info\": "@ + dec(
        count_sev(r.findings, Severity::Info),
    ) + ", \"suppressed\": "@ + dec(r.suppressed.len()) + " },\n"@ + "  \"exit_code\": "@ + dec(
        exit_code_spec(r, strict) as nat,
    ) + ",\n"@
}

/// The lists of the JSON report: the findings in order, then the suppressed
/// findings in order.
pub open spec fn json_lists(r: ScanResultV) -> Seq<char> {
    "  \"findings\": ["@ + comma_join(r.findings.map_values(|f: FindingV| json_finding(f))) + (if r.findings.len()
        == 0 {
        "],\n"@
    } else {
        "\n  ],\n"@
    }) + "  \"suppressed\": ["@ + comma_join(
        r.suppressed.map_values(|sp: SuppressedV| json_suppressed(sp)),
    ) + (if r.suppressed.len() == 0 {
        "]\n"@
    } else {
        "\n  ]\n"@
    }) + "}\n"@
}

/// The JSON report opens with [`json_head`] (version, file count, counts by
/// severity and of suppressed findings, exit code), then [`json_lists`].
#[verifier::rlimit(40)]
pub proof fn json_report_follows_its_schema(r: ScanResultV, strict: bool)
    ensures
        render_json_spec(r, strict) == json_head(r, strict) + json_lists(r),
{
    assert(render_json_spec(r, strict) =~= json_head(r, strict) + json_lists(r));
}

/// A finding's JSON object names its rule, its severity (`high`, `medium` or
/// `info`) and its file written with `/`; a suppressed one ends with its
/// reason.
#[verifier::rlimit(40)]
pub proof fn json_objects_carry_severity_file_and_reason(f: FindingV, sp: SuppressedV)
    ensures
        json_finding(f) == "\n    {\n"@ + "      \"rule\": \""@ + esc(f.rule) + "\",\n"@ + "      \"severity\": \""@
            + severity_name(f.severity) + "\",\n"@ + "      \"file\": \""@ + esc(slashes(f.file)) + "\",\n"@
            + json_finding_rest(f),
        exists|pre: Seq<char>| #[trigger] json_suppressed(sp) == pre + ("      \"reason\": \""@ + esc(sp.reason)
            + "\"\n"@ + "    }"@),
{
    assert(json_finding(f) =~= "\n    {\n"@ + "      \"rule\": \""@ + esc(f.rule) + "\",\n"@
        + "      \"severity\": \""@ + severity_name(f.severity) + "\",\n"@ + "      \"file\": \""@
        + esc(slashes(f.file)) + "\",\n"@ + json_finding_rest(f));
    let pre = "\n    {\n"@ + "      \"rule\": \""@ + esc(sp.finding.rule) + "\",\n"@ + "      \"file\": \""@
        + esc(slashes(sp.finding.file)) + "\",\n"@ + "      \"line\": "@ + dec(sp.finding.line as nat)
        + ",\n"@ + "      \"uses\": \""@ + esc(sp.finding.uses) + "\",\n"@;
    assert(json_suppressed(sp) =~= pre + ("      \"reason\": \""@ + esc(sp.reason) + "\"\n"@ + "    }"@));
}

/// The fields of a finding's JSON object after its file.
pub open spec fn json_finding_rest(f: FindingV) -> Seq<char> {
    "      \"line\": "@ + dec(f.line as nat) + ",\n"@ + "      \"uses\": \""@ + esc(f.uses) + "\",\n"@
        + "      \"evidence\": \""@ + esc(f.evidence) + "\",\n"@ + "      \"fix_hint\": \""@ + esc(
        f.fix_hint,
    ) + "\"\n"@ + "    }"@
}

fn sarif_results_v(out: &mut Vec<char>, result: &ScanResult)
    ensures
        final(out)@ == old(out)@ + comma_join(sarif_results(result.deep_view())),
{
    let ghost rv = result.deep_view();
    let ghost results = sarif_results(rv);
    let ghost pre = out@;
    let nf = result.findings.len();
    let mut i: usize = 0;
    while i < nf
        invariant
            rv == result.deep_view(),
            results == sarif_results(rv),
            nf == rv.findings.len(),
            i <= nf,
            out@ == pre + comma_join(results.take(i as int)),
        decreases nf - i,
    {
        proof {
            lemma_comma_join_step(results, i as int);
        }
        if i > 0 {
            out.push(',');
        }
        sarif_result_v(out, &result.findings[i], None);
        i = i + 1;
        assert(out@ =~= pre + comma_join(results.take(i as int)));
    }
    let ns = result.suppressed.len();
    let mut j: usize = 0;
    while j < ns
        invariant
            rv == result.deep_view(),
            results == sarif_results(rv),
            nf == rv.findings.len(),
            ns == rv.suppressed.len(),
            j <= ns,
            out@ == pre + comma_join(results.take(nf + j)),
        decreases ns - j,
    {
        proof {
            lemma_comma_join_step(results, nf + j);
        }
        if nf > 0 || j > 0 {
            out.push(',');
        }
        let sp = &result.suppressed[j];
        sarif_result_v(out, &sp.finding, Some(sp.reason.as_str()));
        j = j + 1;
        assert(out@ =~= pre + comma_join(results.take(nf + j)));
    }
    assert(results.take(nf + ns) =~= results);
}

/// Renders the SARIF 2.1.0 report, for upload to code scanning.
pub fn render_sarif(result: &ScanResult) -> (s: String)
    ensures
        s@ == render_sarif_spec(result.deep_view()),
{
    let ghost rv = result.deep_view();
    let mut out: Vec<char> = Vec::new();
    sarif_head_v(&mut out);
    extend_str(&mut out, "      \"results\": [");
    sarif_results_v(&mut out, result);
    if result.findings.len() == 0 && result.suppressed.len() == 0 {
        extend_str(&mut out, "]\n");
    } else {
        extend_str(&mut out, "\n      ]\n");
    }
    extend_str(&mut out, "    }\n  ]\n}\n");
    assert(out@ =~= render_sarif_spec(rv));
    string_of(&out)
}

} // verus!
