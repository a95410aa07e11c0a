//! Ignore comments: deliberately accepting a warning.
//!
//! Form: `# just-shield: ignore R1 -- reason`. A comment on a line of its own
//! applies to the next meaningful line, a trailing comment to its own line.
//! Without a reason after `--` the ignore does not apply, and that is reported
//! as an `Info` finding on the comment's line.
use vstd::prelude::*;
use crate::text::{
    chars_of, find_sub_from, find_sub_v, index_of, lemma_find_sub, lines, lines_v, skip_ws,
    starts_with, starts_with_str, string_of, strip_prefix, strip_prefix_str, subvec, trim,
    trim_start, trim_start_v, trim_v, vviews, contains_char_v,
};

use crate::rules::{somes, Finding, FindingV, Severity};

verus! {

pub const MARKER: &'static str = "just-shield:";

/// One ignore comment.
pub struct Directive {
    /// The rule ids to ignore (for example `["R1", "R7"]`).
    pub rules: Vec<String>,
    /// The reason after `--`; without one the ignore does not apply.
    pub reason: Option<String>,
    /// The line of the comment, from 1.
    pub comment_line: usize,
    /// The line the ignore applies to; `None` for a comment line with no
    /// meaningful line after it.
    pub target_line: Option<usize>,
}

pub struct DirectiveV {
    pub rules: Seq<Seq<char>>,
    pub reason: Option<Seq<char>>,
    pub comment_line: usize,
    pub target_line: Option<usize>,
}

impl DeepView for Directive {
    type V = DirectiveV;

    open spec fn deep_view(&self) -> DirectiveV {
        DirectiveV {
            rules: self.rules.deep_view(),
            reason: self.reason.deep_view(),
            comment_line: self.comment_line,
            target_line: self.target_line,
        }
    }
}

/// The first index at or after `i` holding `,` or a space, or `s.len()`.
pub open spec fn sep_index(s: Seq<char>, i: int) -> int
    decreases s.len() - i,
{
    if 0 <= i < s.len() {
        if s[i] == ',' || s[i] == ' ' {
            i
        } else {
            sep_index(s, i + 1)
        }
    } else {
        s.len() as int
    }
}

pub proof fn lemma_sep_index(s: Seq<char>, i: int)
    requires
        0 <= i <= s.len(),
    ensures
        i <= sep_index(s, i) <= s.len(),
    decreases s.len() - i,
{
    if i < s.len() && !(s[i] == ',' || s[i] == ' ') {
        lemma_sep_index(s, i + 1);
    }
}

/// The pieces of `s` from `start` split at `,` and spaces, trimmed, empty ones
/// dropped.
pub open spec fn rule_tokens_from(s: Seq<char>, start: int) -> Seq<Seq<char>>
    decreases s.len() - start,
{
    if start < 0 || start > s.len() {
        Seq::empty()
    } else {
        let k = sep_index(s, start);
        proof {
            lemma_sep_index(s, start);
        }
        let piece = trim(s.subrange(start, k));
        let rest = if k >= s.len() {
            Seq::empty()
        } else {
            rule_tokens_from(s, k + 1)
        };
        if piece.len() > 0 {
            seq![piece] + rest
        } else {
            rest
        }
    }
}

/// A meaningful line: not blank and not a comment.
pub open spec fn meaningful(l: Seq<char>) -> bool {
    let t = trim(l);
    t.len() > 0 && !starts_with(t, "#"@)
}

/// The first meaningful line at or after index `k`.
pub open spec fn next_meaningful(ls: Seq<Seq<char>>, k: int) -> Option<int>
    decreases ls.len() - k,
{
    if 0 <= k < ls.len() {
        if meaningful(ls[k]) {
            Some(k)
        } else {
            next_meaningful(ls, k + 1)
        }
    } else {
        None
    }
}

/// The rule list and the reason of the text after `ignore`.
pub open spec fn rules_and_reason(rest: Seq<char>) -> (Seq<char>, Option<Seq<char>>) {
    let k = find_sub_from(rest, "--"@, 0);
    if k >= 0 {
        let why = trim(rest.skip(k + "--"@.len()));
        (trim(rest.take(k)), if why.len() == 0 {
            None
        } else {
            Some(why)
        })
    } else {
        (trim(rest), None)
    }
}

/// The directive on line `i` of `ls`, if that line holds one.
pub open spec fn directive_at(ls: Seq<Seq<char>>, i: int) -> Option<DirectiveV> {
    let raw = ls[i];
    let pos = find_sub_from(raw, MARKER@, 0);
    if pos < 0 {
        None
    } else if !raw.take(pos).contains('#') {
        None
    } else {
        let after = trim_start(raw.skip(pos + MARKER@.len()));
        match strip_prefix(after, "ignore"@) {
            None => None,
            Some(rest) => {
                let (rules_part, reason) = rules_and_reason(rest);
                let rules = rule_tokens_from(rules_part, 0);
                if rules.len() == 0 {
                    None
                } else {
                    Some(
                        DirectiveV {
                            rules,
                            reason,
                            comment_line: (i + 1) as usize,
                            target_line: if starts_with(trim_start(raw), "#"@) {
                                match next_meaningful(ls, i + 1) {
                                    Some(j) => Some((j + 1) as usize),
                                    None => None,
                                }
                            } else {
                                Some((i + 1) as usize)
                            },
                        },
                    )
                }
            },
        }
    }
}

/// The directives of lines `i..`.
pub open spec fn directives_from(ls: Seq<Seq<char>>, i: int) -> Seq<DirectiveV>
    decreases ls.len() - i,
{
    if 0 <= i < ls.len() {
        match directive_at(ls, i) {
            Some(d) => seq![d] + directives_from(ls, i + 1),
            None => directives_from(ls, i + 1),
        }
    } else {
        Seq::empty()
    }
}

/// Every ignore comment of a file.
pub open spec fn parse_spec(content: Seq<char>) -> Seq<DirectiveV> {
    directives_from(lines(content), 0)
}

fn rule_tokens(s: &Vec<char>) -> (r: Vec<String>)
    ensures
        r.deep_view() == rule_tokens_from(s@, 0),
{
    let mut out: Vec<String> = Vec::new();
    let mut start: usize = 0;
    loop
        invariant
            start <= s@.len(),
            rule_tokens_from(s@, 0) == out.deep_view() + rule_tokens_from(s@, start as int),
        decreases s@.len() - start,
    {
        let mut k = start;
        while k < s.len() && !(s[k] == ',' || s[k] == ' ')
            invariant
                start <= k <= s@.len(),
                sep_index(s@, start as int) == sep_index(s@, k as int),
            decreases s@.len() - k,
        {
            k = k + 1;
        }
        let seg = subvec(s, start, k);
        let piece = trim_v(&seg);
        let ghost before = out.deep_view();
        if piece.len() > 0 {
            out.push(string_of(&piece));
            assert(out.deep_view() =~= before + seq![piece@]);
        }
        if k >= s.len() {
            assert(out.deep_view() =~= out.deep_view() + Seq::<Seq<char>>::empty());
            return out;
        }
        start = k + 1;
        assert(rule_tokens_from(s@, 0) =~= out.deep_view() + rule_tokens_from(s@, start as int));
    }
}

fn next_meaningful_v(ls: &Vec<Vec<char>>, k: usize) -> (r: Option<usize>)
    requires
        k <= ls@.len(),
    ensures
        match r {
            Some(j) => next_meaningful(vviews(ls@), k as int) == Some(j as int) && j < ls@.len(),
            None => next_meaningful(vviews(ls@), k as int) is None,
        },
{
    let ghost lv = vviews(ls@);
    let mut j = k;
    while j < ls.len()
        invariant
            lv == vviews(ls@),
            k <= j <= ls@.len(),
            next_meaningful(lv, k as int) == next_meaningful(lv, j as int),
        decreases ls@.len() - j,
    {
        let t = trim_v(&ls[j]);
        if t.len() > 0 && !starts_with_str(&t, "#") {
            return Some(j);
        }
        j = j + 1;
    }
    None
}

fn directive_v(ls: &Vec<Vec<char>>, i: usize) -> (r: Option<Directive>)
    requires
        i < ls@.len(),
    ensures
        r.deep_view() == directive_at(vviews(ls@), i as int),
{
    let ghost lv = vviews(ls@);
    let raw = &ls[i];
    let marker = chars_of(MARKER);
    let pos = match find_sub_v(raw, &marker) {
        None => {
            return None;
        },
        Some(p) => p,
    };
    proof {
        lemma_find_sub(raw@, marker@, 0);
    }
    let before = subvec(raw, 0, pos);
    assert(before@ =~= raw@.take(pos as int));
    if !contains_char_v(&before, '#') {
        return None;
    }
    assert(pos + marker.len() <= raw.len());
    let tail = subvec(raw, pos + marker.len(), raw.len());
    assert(tail@ =~= raw@.skip(pos + MARKER@.len()));
    let after = trim_start_v(&tail);
    let rest = match strip_prefix_str(&after, "ignore") {
        None => {
            return None;
        },
        Some(r) => r,
    };
    let dashes = chars_of("--");
    let (rules_part, reason) = match find_sub_v(&rest, &dashes) {
        Some(k) => {
            proof {
                lemma_find_sub(rest@, dashes@, 0);
            }
            let left = subvec(&rest, 0, k);
            assert(left@ =~= rest@.take(k as int));
            assert(k + dashes.len() <= rest.len());
            let right = subvec(&rest, k + dashes.len(), rest.len());
            assert(right@ =~= rest@.skip(k + dashes@.len()));
            let why = trim_v(&right);
            (trim_v(&left), if why.len() == 0 {
                None
            } else {
                Some(string_of(&why))
            })
        },
        None => (trim_v(&rest), None),
    };
    let rules = rule_tokens(&rules_part);
    if rules.len() == 0 {
        return None;
    }
    let t0 = trim_start_v(raw);
    assert(i < ls.len());
    let target_line = if starts_with_str(&t0, "#") {
        match next_meaningful_v(ls, i + 1) {
            Some(j) => {
                assert(j < ls.len());
                Some(j + 1)
            },
            None => None,
        }
    } else {
        Some(i + 1)
    };
    Some(Directive { rules, reason, comment_line: i + 1, target_line })
}

/// Finds every ignore comment in a file.
pub fn parse(content: &str) -> (r: Vec<Directive>)
    ensures
        r.deep_view() == parse_spec(content@),
{
    let cv = chars_of(content);
    let ls = lines_v(&cv);
    let ghost lv = vviews(ls@);
    let mut out: Vec<Directive> = Vec::new();
    let n = ls.len();
    let mut i: usize = 0;
    while i < n
        invariant
            n == ls@.len(),
            lv == vviews(ls@),
            lv == lines(content@),
            i <= n,
            parse_spec(content@) == out.deep_view() + directives_from(lv, i as int),
        decreases n - i,
    {
        let ghost before = out.deep_view();
        match directive_v(&ls, i) {
            Some(d) => {
                out.push(d);
                assert(out.deep_view() =~= before + seq![d.deep_view()]);
            },
            None => {},
        }
        i = i + 1;
        assert(parse_spec(content@) =~= out.deep_view() + directives_from(lv, i as int));
    }
    assert(out.deep_view() + directives_from(lv, n as int) =~= out.deep_view());
    out
}

// ------------------------------------------------------------------
// Ignore comments without a reason
// ------------------------------------------------------------------
pub const NO_REASON_EVIDENCE: &'static str = "무시 주석에 `--` 뒤 사유가 없어 적용되지 않았습니다 — 해당 경고는 그대로 보고됩니다";
pub const NO_REASON_FIX: &'static str = "`# just-shield: ignore <규칙> -- <사유>`처럼 `--` 뒤에 사유를 적으세요";

/// The rule ids that scans report.
pub open spec fn rule_ids() -> Seq<Seq<char>> {
    seq!["R1"@, "R2"@, "R3"@, "R4"@, "R5"@, "R6"@, "R7"@, "R8"@, "R9"@, "R10"@, "LOCK"@]
}

/// The first of `rules[i..]` that is a rule id.
pub open spec fn first_known(rules: Seq<Seq<char>>, i: int) -> Option<Seq<char>>
    decreases rules.len() - i,
{
    if 0 <= i < rules.len() {
        if rule_ids().contains(rules[i]) {
            Some(rules[i])
        } else {
            first_known(rules, i + 1)
        }
    } else {
        None
    }
}

/// The `Info` notice for an ignore comment without a reason: on the comment's
/// line, under the first rule id it names. A comment with a reason, or one
/// naming no rule id, gives none.
pub open spec fn no_reason_notice(file: Seq<char>, d: DirectiveV) -> Option<FindingV> {
    if d.reason is None {
        match first_known(d.rules, 0) {
            Some(id) => Some(
                FindingV {
                    rule: id,
                    severity: Severity::Info,
                    file,
                    line: d.comment_line,
                    uses: Seq::empty(),
                    evidence: NO_REASON_EVIDENCE@,
                    fix_hint: NO_REASON_FIX@,
                },
            ),
            None => None,
        }
    } else {
        None
    }
}

/// The notices for the ignore comments of a file, in their order.
pub open spec fn no_reason_notices(file: Seq<char>, dirs: Seq<DirectiveV>) -> Seq<FindingV> {
    somes(dirs.map_values(|d: DirectiveV| no_reason_notice(file, d)))
}

/// The rule id that `name` is, as a constant.
fn rule_id(name: &str) -> (r: Option<&'static str>)
    ensures
        match r {
            Some(id) => id@ == name@ && rule_ids().contains(name@),
            None => !rule_ids().contains(name@),
        },
{
    let ids: [&'static str; 11] = ["R1", "R2", "R3", "R4", "R5", "R6", "R7", "R8", "R9", "R10", "LOCK"];
    assert(ids@.map_values(|x: &'static str| x@) =~= rule_ids());
    let mut i: usize = 0;
    while i < 11
        invariant
            i <= 11,
            ids@.map_values(|x: &'static str| x@) == rule_ids(),
            forall|j: int| 0 <= j < i ==> rule_ids()[j] != name@,
        decreases 11 - i,
    {
        let id = ids[i];
        assert(id@ == rule_ids()[i as int]);
        if crate::text::str_eq(id, name) {
            return Some(id);
        }
        i = i + 1;
    }
    None
}

/// The `Info` notices for the ignore comments of `file` that give no reason:
/// such a comment is not applied, and this says so.
pub fn no_reason_findings(file: &str, dirs: &Vec<Directive>) -> (r: Vec<Finding>)
    ensures
        r.deep_view() == no_reason_notices(file@, dirs.deep_view()),
{
    let ghost dv = dirs.deep_view();
    let ghost m = dv.map_values(|d: DirectiveV| no_reason_notice(file@, d));
    let mut out: Vec<Finding> = Vec::new();
    let mut i: usize = 0;
    while i < dirs.len()
        invariant
            dv == dirs.deep_view(),
            m == dv.map_values(|d: DirectiveV| no_reason_notice(file@, d)),
            i <= dv.len(),
            out.deep_view() == somes(m.take(i as int)),
        decreases dv.len() - i,
    {
        proof {
            crate::rules::lemma_somes_step(m, i as int);
        }
        let d = &dirs[i];
        let ghost before = out.deep_view();
        assert(d.deep_view() == dv[i as int]);
        if d.reason.is_none() {
            let mut k: usize = 0;
            let mut found: Option<&'static str> = None;
            while k < d.rules.len()
                invariant_except_break
                    found is None,
                invariant
                    dv == dirs.deep_view(),
                    i < dv.len(),
                    d.deep_view() == dv[i as int],
                    k <= d.rules@.len(),
                    first_known(d.rules.deep_view(), 0) == first_known(d.rules.deep_view(), k as int),
                ensures
                    match found {
                        Some(id) => first_known(d.rules.deep_view(), 0) == Some(id@),
                        None => first_known(d.rules.deep_view(), 0) is None,
                    },
                decreases d.rules@.len() - k,
            {
                assert(d.rules.deep_view()[k as int] == d.rules@[k as int]@);
                match rule_id(d.rules[k].as_str()) {
                    Some(id) => {
                        found = Some(id);
                        break;
                    },
                    None => {},
                }
                k = k + 1;
            }
            match found {
                Some(id) => {
                    out.push(
                        Finding {
                            rule: id,
                            severity: Severity::Info,
                            file: string_of(&chars_of(file)),
                            line: d.comment_line,
                            uses: String::new(),
                            evidence: string_of(&chars_of(NO_REASON_EVIDENCE)),
                            fix_hint: string_of(&chars_of(NO_REASON_FIX)),
                        },
                    );
                    assert(out.deep_view() =~= before + seq![no_reason_notice(file@, dv[i as int])->0]);
                },
                None => {
                    assert(out.deep_view() =~= before + Seq::<FindingV>::empty());
                },
            }
        } else {
            assert(out.deep_view() =~= before + Seq::<FindingV>::empty());
        }
        i = i + 1;
    }
    assert(m.take(dv.len() as int) =~= m);
    out
}

proof fn lemma_next_meaningful(ls: Seq<Seq<char>>, k: int)
    requires
        0 <= k,
    ensures
        match next_meaningful(ls, k) {
            Some(j) => k <= j < ls.len() && meaningful(ls[j]),
            None => true,
        },
    decreases ls.len() - k,
{
    if k < ls.len() && !meaningful(ls[k]) {
        lemma_next_meaningful(ls, k + 1);
    }
}

/// What a well-placed directive of `ls` satisfies: it names at least one rule,
/// sits on a line of the text, and targets its own line (a trailing comment)
/// or a later meaningful line.
pub open spec fn well_placed(ls: Seq<Seq<char>>, d: DirectiveV) -> bool {
    &&& d.rules.len() > 0
    &&& 1 <= d.comment_line <= ls.len()
    &&& match d.target_line {
        Some(t) => d.comment_line <= t <= ls.len() && (t == d.comment_line || (t > d.comment_line
            && meaningful(ls[t - 1]))),
        None => true,
    }
}

proof fn lemma_directives_from(ls: Seq<Seq<char>>, i: int)
    requires
        0 <= i,
        ls.len() < usize::MAX,
    ensures
        forall|k: int|
            0 <= k < directives_from(ls, i).len() ==> i + 1 <= (#[trigger] directives_from(ls, i)[k]).comment_line
                && well_placed(ls, directives_from(ls, i)[k]),
        forall|j: int, k: int|
            0 <= j < k < directives_from(ls, i).len() ==> (#[trigger] directives_from(ls, i)[j]).comment_line
                < (#[trigger] directives_from(ls, i)[k]).comment_line,
    decreases ls.len() - i,
{
    if i < ls.len() {
        lemma_directives_from(ls, i + 1);
        let rest = directives_from(ls, i + 1);
        match directive_at(ls, i) {
            Some(d) => {
                lemma_next_meaningful(ls, i + 1);
                assert(d.comment_line == i + 1);
                assert(well_placed(ls, d));
                let ds = directives_from(ls, i);
                assert(ds == seq![d] + rest);
                assert forall|k: int| 0 <= k < ds.len() implies i + 1 <= (#[trigger] ds[k]).comment_line
                    && well_placed(ls, ds[k]) by {
                    if k > 0 {
                        assert(ds[k] == rest[k - 1]);
                    }
                }
                assert forall|j: int, k: int| 0 <= j < k < ds.len() implies (#[trigger] ds[j]).comment_line
                    < (#[trigger] ds[k]).comment_line by {
                    assert(ds[k] == rest[k - 1]);
                    if j > 0 {
                        assert(ds[j] == rest[j - 1]);
                    }
                }
            },
            None => {},
        }
    }
}

/// Every ignore comment that `parse` reads names at least one rule, sits on a
/// line of the file and targets its own line or a later meaningful line; the
/// comments come in the order of their lines, each line at most once.
pub proof fn directives_are_well_placed_and_in_order(content: Seq<char>)
    requires
        lines(content).len() < usize::MAX,
    ensures
        forall|k: int|
            0 <= k < parse_spec(content).len() ==> well_placed(lines(content), #[trigger] parse_spec(content)[k]),
        forall|j: int, k: int|
            0 <= j < k < parse_spec(content).len() ==> (#[trigger] parse_spec(content)[j]).comment_line
                < (#[trigger] parse_spec(content)[k]).comment_line,
{
    lemma_directives_from(lines(content), 0);
}

proof fn lemma_directives_found(ls: Seq<Seq<char>>, i: int)
    requires
        0 <= i,
        ls.len() < usize::MAX,
    ensures
        forall|k: int|
            0 <= k < directives_from(ls, i).len() ==> directive_at(ls, (#[trigger] directives_from(ls, i)[k]).comment_line
                - 1) == Some(directives_from(ls, i)[k]),
        forall|j: int|
            i <= j < ls.len() && (#[trigger] directive_at(ls, j)) is Some ==> directives_from(ls, i).contains(
                directive_at(ls, j)->0,
            ),
    decreases ls.len() - i,
{
    if i < ls.len() {
        lemma_directives_found(ls, i + 1);
        let rest = directives_from(ls, i + 1);
        let ds = directives_from(ls, i);
        match directive_at(ls, i) {
            Some(d) => {
                assert(ds == seq![d] + rest);
                assert(d.comment_line == i + 1);
                assert forall|k: int| 0 <= k < ds.len() implies directive_at(ls, (#[trigger] ds[k]).comment_line - 1)
                    == Some(ds[k]) by {
                    if k > 0 {
                        assert(ds[k] == rest[k - 1]);
                    }
                }
                assert forall|j: int| i <= j < ls.len() && (#[trigger] directive_at(ls, j)) is Some implies ds.contains(
                    directive_at(ls, j)->0,
                ) by {
                    if j == i {
                        assert(ds[0] == d);
                    } else {
                        let q = choose|q: int| 0 <= q < rest.len() && rest[q] == directive_at(ls, j)->0;
                        assert(ds[q + 1] == rest[q]);
                    }
                }
            },
            None => {
                assert forall|j: int| i <= j < ls.len() && (#[trigger] directive_at(ls, j)) is Some implies ds.contains(
                    directive_at(ls, j)->0,
                ) by {
                    assert(j != i);
                }
            },
        }
    }
}

/// `parse` finds exactly the ignore comments of a text, each once, in line
/// order: every directive it returns is the one that [`directive_at`] reads
/// on its comment line (a `#` before the first `just-shield:`, then `ignore`,
/// rule ids up to `--` split at commas and spaces, the reason after `--` when
/// not blank, the target line), and every line that holds such a comment gives
/// one of them.
pub proof fn parse_finds_each_ignore_comment(content: Seq<char>)
    requires
        lines(content).len() < usize::MAX,
    ensures
        forall|k: int|
            0 <= k < parse_spec(content).len() ==> directive_at(
                lines(content),
                (#[trigger] parse_spec(content)[k]).comment_line - 1,
            ) == Some(parse_spec(content)[k]),
        forall|j: int|
            0 <= j < lines(content).len() && (#[trigger] directive_at(lines(content), j)) is Some
                ==> parse_spec(content).contains(directive_at(lines(content), j)->0),
{
    lemma_directives_found(lines(content), 0);
}

} // verus!
