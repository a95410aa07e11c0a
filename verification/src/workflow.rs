//! Workflow structure: `uses:` entries, triggers, permissions, jobs and steps.
//!
//! Only the idiomatic shape of workflow YAML (block mappings and indentation) is
//! read. The mutable-reference rule works on the extracted `uses:` lines, the
//! blast-radius rules on the structure returned by `parse_workflow`.
use vstd::prelude::*;
use crate::text::{
    rstrip_char, rstrip_char_v,
    byte_len, prefix_bytes,
    chars_of, contains_str, contains_sub, ends_with, ends_with_str, extend, index_of, index_of_v,
    is_whitespace, is_ws, lines, lines_v, push_chars, skip_ws, skip_ws_from, starts_with,
    starts_with_str, string_of, strip_prefix, strip_prefix_str, subvec, trim, trim_start,
    trim_start_v, trim_v, vviews,
};

verus! {

/// One `uses:` found in a workflow file.
pub struct UsesEntry {
    /// Line number, from 1.
    pub line: usize,
    /// The reference value with quotes and comments removed.
    pub value: String,
}

/// The workflow structure the blast-radius rules need.
pub struct WorkflowDoc {
    /// The whole `on:` value joined into one text, for trigger tokens.
    pub on_text: String,
    /// Workflow-level `permissions:` (line, value text), if declared.
    pub workflow_permissions: Option<(usize, String)>,
    pub jobs: Vec<Job>,
}

/// The structure of one job.
pub struct Job {
    pub name: String,
    pub line: usize,
    /// Job-level `permissions:` (line, value text), if declared.
    pub permissions: Option<(usize, String)>,
    /// Whether the job block refers to `${{ secrets.* }}` or `secrets:` anywhere.
    pub uses_secrets: bool,
    pub steps: Vec<Step>,
}

/// One step.
pub struct Step {
    pub line: usize,
    pub uses: Option<String>,
    /// The step block's lines (leading whitespace removed) joined by newlines.
    pub text: String,
}

pub struct UsesEntryV {
    pub line: usize,
    pub value: Seq<char>,
}

pub struct StepV {
    pub line: usize,
    pub uses: Option<Seq<char>>,
    pub text: Seq<char>,
}

pub struct JobV {
    pub name: Seq<char>,
    pub line: usize,
    pub permissions: Option<(usize, Seq<char>)>,
    pub uses_secrets: bool,
    pub steps: Seq<StepV>,
}

pub struct WorkflowDocV {
    pub on_text: Seq<char>,
    pub workflow_permissions: Option<(usize, Seq<char>)>,
    pub jobs: Seq<JobV>,
}

impl DeepView for UsesEntry {
    type V = UsesEntryV;

    open spec fn deep_view(&self) -> UsesEntryV {
        UsesEntryV { line: self.line, value: self.value@ }
    }
}

impl DeepView for Step {
    type V = StepV;

    open spec fn deep_view(&self) -> StepV {
        StepV { line: self.line, uses: self.uses.deep_view(), text: self.text@ }
    }
}

impl DeepView for Job {
    type V = JobV;

    open spec fn deep_view(&self) -> JobV {
        JobV {
            name: self.name@,
            line: self.line,
            permissions: self.permissions.deep_view(),
            uses_secrets: self.uses_secrets,
            steps: self.steps.deep_view(),
        }
    }
}

impl DeepView for WorkflowDoc {
    type V = WorkflowDocV;

    open spec fn deep_view(&self) -> WorkflowDocV {
        WorkflowDocV {
            on_text: self.on_text@,
            workflow_permissions: self.workflow_permissions.deep_view(),
            jobs: self.jobs.deep_view(),
        }
    }
}

// ------------------------------------------------------------------
// Scalar values on one line
// ------------------------------------------------------------------
/// The first index at or after `i` holding whitespace or `#`, or `s.len()`.
pub open spec fn value_end(s: Seq<char>, i: int) -> int
    decreases s.len() - i,
{
    if 0 <= i < s.len() {
        if is_ws(s[i]) || s[i] == '#' {
            i
        } else {
            value_end(s, i + 1)
        }
    } else {
        s.len() as int
    }
}

/// The scalar at the start of `rest`: a quoted value up to its closing quote,
/// or an unquoted value up to whitespace or a line-end comment.
pub open spec fn scalar_value_spec(rest: Seq<char>) -> Option<Seq<char>> {
    if rest.len() == 0 {
        None
    } else {
        let value = if starts_with(rest, "\""@) {
            let q = rest.skip(1);
            q.take(index_of(q, '"', 0))
        } else if starts_with(rest, "'"@) {
            let q = rest.skip(1);
            q.take(index_of(q, '\'', 0))
        } else {
            rest.take(value_end(rest, 0))
        };
        if value.len() == 0 {
            None
        } else {
            Some(value)
        }
    }
}

/// Where a value that starts at `i` ends, told by the characters.
pub proof fn lemma_value_end_at(s: Seq<char>, i: int, k: int)
    requires
        0 <= i <= k <= s.len(),
        forall|j: int| i <= j < k ==> !is_ws(#[trigger] s[j]) && s[j] != '#',
        k == s.len() || is_ws(s[k]) || s[k] == '#',
    ensures
        value_end(s, i) == k,
    decreases k - i,
{
    if i < k {
        lemma_value_end_at(s, i + 1, k);
    }
}

/// What a value that starts at `i` holds, and what stops it.
pub proof fn lemma_value_end_all(s: Seq<char>, i: int)
    requires
        0 <= i <= s.len(),
    ensures
        i <= value_end(s, i) <= s.len(),
        forall|j: int| i <= j < value_end(s, i) ==> !is_ws(#[trigger] s[j]) && s[j] != '#',
        value_end(s, i) < s.len() ==> is_ws(s[value_end(s, i)]) || s[value_end(s, i)] == '#',
    decreases s.len() - i,
{
    if i < s.len() && !(is_ws(s[i]) || s[i] == '#') {
        lemma_value_end_all(s, i + 1);
    }
}

/// The scalar that starts a text `w`, read unquoted (`mode` 0), inside double
/// quotes (1) or inside single quotes (2), the opening quote already passed.
pub open spec fn scalar_tail(mode: int, w: Seq<char>) -> Option<Seq<char>> {
    let value = if mode == 1 {
        w.take(index_of(w, '"', 0))
    } else if mode == 2 {
        w.take(index_of(w, '\'', 0))
    } else {
        w.take(value_end(w, 0))
    };
    if value.len() == 0 {
        None
    } else {
        Some(value)
    }
}

/// `t` with one leading `-` removed and the whitespace after it, when it starts
/// with `-`.
pub open spec fn after_dash(t: Seq<char>) -> Seq<char> {
    match strip_prefix(t, "-"@) {
        Some(r) => trim_start(r),
        None => t,
    }
}

/// The value of a key whose text after the key is `r`: a key is followed by
/// whitespace or nothing.
pub open spec fn key_value(r: Seq<char>) -> Option<Seq<char>> {
    if r.len() > 0 && !is_ws(r[0]) {
        None
    } else {
        scalar_value_spec(trim_start(r))
    }
}

/// The `uses:` value of one line; `None` for comment lines and other keys.
pub open spec fn uses_value_spec(line: Seq<char>) -> Option<Seq<char>> {
    let t = trim_start(line);
    if starts_with(t, "#"@) {
        None
    } else {
        match strip_prefix(after_dash(t), "uses:"@) {
            None => None,
            Some(r) => key_value(r),
        }
    }
}

/// The image reference of one line (`image:` or inline `container:`); values
/// with `${{ ... }}` expressions are unknown and skipped.
pub open spec fn image_value_spec(line: Seq<char>) -> Option<Seq<char>> {
    let t = trim_start(line);
    if starts_with(t, "#"@) {
        None
    } else {
        let rest = after_dash(t);
        let r = match strip_prefix(rest, "image:"@) {
            Some(r) => Some(r),
            None => strip_prefix(rest, "container:"@),
        };
        match r {
            None => None,
            Some(r) => if r.len() > 0 && !is_ws(r[0]) {
                None
            } else if contains_sub(r, "${{"@) {
                None
            } else {
                scalar_value_spec(trim_start(r))
            },
        }
    }
}

fn value_end_v(s: &Vec<char>) -> (r: usize)
    ensures
        r as int == value_end(s@, 0),
        r <= s@.len(),
{
    let mut k: usize = 0;
    while k < s.len() && !(is_whitespace(s[k]) || s[k] == '#')
        invariant
            k <= s@.len(),
            value_end(s@, 0) == value_end(s@, k as int),
        decreases s@.len() - k,
    {
        k = k + 1;
    }
    k
}

fn quoted(rest: &Vec<char>, q: char) -> (r: Vec<char>)
    requires
        rest@.len() >= 1,
    ensures
        r@ == rest@.skip(1).take(index_of(rest@.skip(1), q, 0)),
{
    let body = subvec(rest, 1, rest.len());
    assert(body@ =~= rest@.skip(1));
    let k = index_of_v(&body, q, 0);
    let r = subvec(&body, 0, k);
    assert(r@ =~= body@.take(k as int));
    r
}

fn scalar_value(rest: &Vec<char>) -> (r: Option<Vec<char>>)
    ensures
        match r {
            Some(v) => scalar_value_spec(rest@) == Some(v@),
            None => scalar_value_spec(rest@) is None,
        },
{
    if rest.len() == 0 {
        return None;
    }
    proof {
        reveal_strlit("\"");
        reveal_strlit("'");
    }
    let value = if starts_with_str(rest, "\"") {
        quoted(rest, '"')
    } else if starts_with_str(rest, "'") {
        quoted(rest, '\'')
    } else {
        let k = value_end_v(rest);
        let v = subvec(rest, 0, k);
        assert(v@ =~= rest@.take(k as int));
        v
    };
    if value.len() == 0 {
        None
    } else {
        Some(value)
    }
}

fn after_dash_v(t: &Vec<char>) -> (r: Vec<char>)
    ensures
        r@ == after_dash(t@),
{
    match strip_prefix_str(t, "-") {
        Some(r) => trim_start_v(&r),
        None => crate::uses_ref::subvec_all(t),
    }
}

fn key_value_v(r: &Vec<char>) -> (o: Option<Vec<char>>)
    ensures
        match o {
            Some(v) => key_value(r@) == Some(v@),
            None => key_value(r@) is None,
        },
{
    if r.len() > 0 && !is_whitespace(r[0]) {
        return None;
    }
    let t = trim_start_v(r);
    scalar_value(&t)
}

/// The `uses:` value of one line. Comment lines and other keys give `None`.
pub fn extract_uses_value(line: &str) -> (r: Option<String>)
    ensures
        r.deep_view() == uses_value_spec(line@),
{
    let v = chars_of(line);
    match uses_value_v(&v) {
        Some(x) => Some(string_of(&x)),
        None => None,
    }
}

pub fn uses_value_v(line: &Vec<char>) -> (r: Option<Vec<char>>)
    ensures
        match r {
            Some(v) => uses_value_spec(line@) == Some(v@),
            None => uses_value_spec(line@) is None,
        },
{
    let t = trim_start_v(line);
    if starts_with_str(&t, "#") {
        return None;
    }
    let rest = after_dash_v(&t);
    match strip_prefix_str(&rest, "uses:") {
        None => None,
        Some(r) => key_value_v(&r),
    }
}

fn image_value_v(line: &Vec<char>) -> (r: Option<Vec<char>>)
    ensures
        match r {
            Some(v) => image_value_spec(line@) == Some(v@),
            None => image_value_spec(line@) is None,
        },
{
    let t = trim_start_v(line);
    if starts_with_str(&t, "#") {
        return None;
    }
    let rest = after_dash_v(&t);
    let r = match strip_prefix_str(&rest, "image:") {
        Some(r) => r,
        None => match strip_prefix_str(&rest, "container:") {
            Some(r) => r,
            None => {
                return None;
            },
        },
    };
    if r.len() > 0 && !is_whitespace(r[0]) {
        return None;
    }
    if contains_str(&r, "${{") {
        return None;
    }
    let t2 = trim_start_v(&r);
    scalar_value(&t2)
}

// ------------------------------------------------------------------
// Per-line extraction over a whole file
// ------------------------------------------------------------------
/// The entries of lines `i..` whose value `f` extracts, numbered from 1.
pub open spec fn entries_from(
    ls: Seq<Seq<char>>,
    i: int,
    f: spec_fn(Seq<char>) -> Option<Seq<char>>,
) -> Seq<UsesEntryV>
    decreases ls.len() - i,
{
    if i < 0 || i >= ls.len() {
        Seq::empty()
    } else {
        match f(ls[i]) {
            Some(v) => seq![UsesEntryV { line: (i + 1) as usize, value: v }] + entries_from(
                ls,
                i + 1,
                f,
            ),
            None => entries_from(ls, i + 1, f),
        }
    }
}

/// Every `uses:` reference of a file, with its line number.
pub open spec fn uses_entries_spec(content: Seq<char>) -> Seq<UsesEntryV> {
    entries_from(lines(content), 0, |l: Seq<char>| uses_value_spec(l))
}

/// Every container image reference of a file, with its line number.
pub open spec fn image_refs_spec(content: Seq<char>) -> Seq<UsesEntryV> {
    entries_from(lines(content), 0, |l: Seq<char>| image_value_spec(l))
}

/// Extracts every `uses:` reference of a file, with its line number.
pub fn extract_uses_entries(content: &str) -> (r: Vec<UsesEntry>)
    ensures
        r.deep_view() == uses_entries_spec(content@),
{
    let cv = chars_of(content);
    let ls = lines_v(&cv);
    let ghost lsv = vviews(ls@);
    let ghost f = |l: Seq<char>| uses_value_spec(l);
    let mut out: Vec<UsesEntry> = Vec::new();
    let n = ls.len();
    let mut i: usize = 0;
    while i < n
        invariant
            n == ls@.len(),
            lsv == vviews(ls@),
            lsv == lines(content@),
            i <= n,
            f == (|l: Seq<char>| uses_value_spec(l)),
            uses_entries_spec(content@) == out.deep_view() + entries_from(lsv, i as int, f),
        decreases n - i,
    {
        let ghost before = out.deep_view();
        match uses_value_v(&ls[i]) {
            Some(v) => {
                out.push(UsesEntry { line: i + 1, value: string_of(&v) });
                assert(out.deep_view() =~= before.push(UsesEntryV { line: (i + 1) as usize, value: v@ }));
            },
            None => {},
        }
        i = i + 1;
        assert(uses_entries_spec(content@) =~= out.deep_view() + entries_from(lsv, i as int, f));
    }
    assert(out.deep_view() + entries_from(lsv, n as int, f) =~= out.deep_view());
    out
}

/// Extracts container image references (`image:` values and inline `container:`
/// values) with their line numbers.
pub fn extract_image_refs(content: &str) -> (r: Vec<UsesEntry>)
    ensures
        r.deep_view() == image_refs_spec(content@),
{
    let cv = chars_of(content);
    let ls = lines_v(&cv);
    let ghost lsv = vviews(ls@);
    let ghost f = |l: Seq<char>| image_value_spec(l);
    let mut out: Vec<UsesEntry> = Vec::new();
    let n = ls.len();
    let mut i: usize = 0;
    while i < n
        invariant
            n == ls@.len(),
            lsv == vviews(ls@),
            lsv == lines(content@),
            i <= n,
            f == (|l: Seq<char>| image_value_spec(l)),
            image_refs_spec(content@) == out.deep_view() + entries_from(lsv, i as int, f),
        decreases n - i,
    {
        let ghost before = out.deep_view();
        match image_value_v(&ls[i]) {
            Some(v) => {
                out.push(UsesEntry { line: i + 1, value: string_of(&v) });
                assert(out.deep_view() =~= before.push(UsesEntryV { line: (i + 1) as usize, value: v@ }));
            },
            None => {},
        }
        i = i + 1;
        assert(image_refs_spec(content@) =~= out.deep_view() + entries_from(lsv, i as int, f));
    }
    assert(out.deep_view() + entries_from(lsv, n as int, f) =~= out.deep_view());
    out
}

// ------------------------------------------------------------------
// Structure: meaningful lines, blocks, jobs, steps
// ------------------------------------------------------------------
/// A meaningful line: neither blank nor a comment.
pub struct LineV {
    pub no: usize,
    /// Bytes of leading whitespace.
    pub indent: nat,
    /// The line without its leading whitespace.
    pub text: Seq<char>,
}

pub struct Line {
    no: usize,
    indent: u128,
    text: Vec<char>,
}

impl View for Line {
    type V = LineV;

    closed spec fn view(&self) -> LineV {
        LineV { no: self.no, indent: self.indent as nat, text: self.text@ }
    }
}

pub open spec fn lviews(s: Seq<Line>) -> Seq<LineV> {
    s.map_values(|l: Line| l@)
}

/// The meaningful lines among lines `i..` of a file.
pub open spec fn meaningful_from(ls: Seq<Seq<char>>, i: int) -> Seq<LineV>
    decreases ls.len() - i,
{
    if i < 0 || i >= ls.len() {
        Seq::empty()
    } else {
        let raw = ls[i];
        let t = trim_start(raw);
        if t.len() == 0 || starts_with(t, "#"@) {
            meaningful_from(ls, i + 1)
        } else {
            seq![
                LineV {
                    no: (i + 1) as usize,
                    indent: byte_len(raw.take(skip_ws(raw, 0))),
                    text: t,
                },
            ] + meaningful_from(ls, i + 1)
        }
    }
}

/// The first index at or after `k` whose indent is not deeper than `parent`.
pub open spec fn block_end_spec(ls: Seq<LineV>, k: int, parent: nat) -> int
    decreases ls.len() - k,
{
    if 0 <= k < ls.len() && ls[k].indent > parent {
        block_end_spec(ls, k + 1, parent)
    } else {
        k
    }
}

pub proof fn lemma_block_end(ls: Seq<LineV>, k: int, parent: nat)
    requires
        0 <= k,
    ensures
        k <= block_end_spec(ls, k, parent),
        k <= ls.len() ==> block_end_spec(ls, k, parent) <= ls.len(),
    decreases ls.len() - k,
{
    if 0 <= k < ls.len() && ls[k].indent > parent {
        lemma_block_end(ls, k + 1, parent);
    }
}

/// Appends the texts of the deeper-indented lines from `j` to `text`, separated
/// by spaces; returns the text and the index where the block ends.
pub open spec fn collect_from(ls: Seq<LineV>, j: int, base: nat, text: Seq<char>) -> (
    Seq<char>,
    int,
)
    decreases ls.len() - j,
{
    if 0 <= j < ls.len() && ls[j].indent > base {
        let t2 = if text.len() == 0 {
            ls[j].text
        } else {
            text.push(' ') + ls[j].text
        };
        collect_from(ls, j + 1, base, t2)
    } else {
        (text, j)
    }
}

pub proof fn lemma_collect_from(ls: Seq<LineV>, j: int, base: nat, text: Seq<char>)
    requires
        0 <= j,
    ensures
        j <= collect_from(ls, j, base, text).1,
        j <= ls.len() ==> collect_from(ls, j, base, text).1 <= ls.len(),
    decreases ls.len() - j,
{
    if 0 <= j < ls.len() && ls[j].indent > base {
        let t2 = if text.len() == 0 {
            ls[j].text
        } else {
            text.push(' ') + ls[j].text
        };
        lemma_collect_from(ls, j + 1, base, t2);
    }
}

/// The inline value after a key (the first `keylen` characters of the line)
/// together with the texts of the deeper child lines, and the next index.
pub open spec fn collect_spec(ls: Seq<LineV>, start: int, keylen: int) -> (Seq<char>, int) {
    collect_from(ls, start + 1, ls[start].indent, trim(ls[start].text.skip(keylen)))
}

/// A fold that keeps the smallest indent of lines `i..`.
pub open spec fn min_indent_from(ls: Seq<LineV>, i: int, m: nat) -> nat
    decreases ls.len() - i,
{
    if 0 <= i < ls.len() {
        min_indent_from(ls, i + 1, if ls[i].indent < m { ls[i].indent } else { m })
    } else {
        m
    }
}

/// The smallest indent of the lines, or 0 when there are none.
pub open spec fn min_indent(ls: Seq<LineV>) -> nat {
    if ls.len() == 0 {
        0
    } else {
        min_indent_from(ls, 1, ls[0].indent)
    }
}

/// Whether a line of a job block refers to secrets.
pub open spec fn secret_line(t: Seq<char>) -> bool {
    (contains_sub(t, "${{"@) && contains_sub(t, "secrets."@)) || starts_with(t, "secrets:"@)
}

/// Whether a line is a list item.
pub open spec fn is_item(t: Seq<char>) -> bool {
    starts_with(t, "-"@)
}

/// The smallest indent among list-item lines `i..`, folded into `m`.
pub open spec fn item_indent_from(ls: Seq<LineV>, i: int, m: Option<nat>) -> Option<nat>
    decreases ls.len() - i,
{
    if 0 <= i < ls.len() {
        let m2 = if is_item(ls[i].text) {
            match m {
                Some(x) => if ls[i].indent < x {
                    Some(ls[i].indent)
                } else {
                    Some(x)
                },
                None => Some(ls[i].indent),
            }
        } else {
            m
        };
        item_indent_from(ls, i + 1, m2)
    } else {
        m
    }
}

/// The end of the step block that starts just before `k`.
pub open spec fn step_end_spec(ls: Seq<LineV>, k: int, ii: nat) -> int
    decreases ls.len() - k,
{
    if 0 <= k < ls.len() && !(ls[k].indent == ii && is_item(ls[k].text)) && ls[k].indent >= ii {
        step_end_spec(ls, k + 1, ii)
    } else {
        k
    }
}

pub proof fn lemma_step_end(ls: Seq<LineV>, k: int, ii: nat)
    requires
        0 <= k,
    ensures
        k <= step_end_spec(ls, k, ii),
        k <= ls.len() ==> step_end_spec(ls, k, ii) <= ls.len(),
    decreases ls.len() - k,
{
    if 0 <= k < ls.len() && !(ls[k].indent == ii && is_item(ls[k].text)) && ls[k].indent >= ii {
        lemma_step_end(ls, k + 1, ii);
    }
}

/// The first `uses:` value among lines `k..` of a block.
pub open spec fn first_uses_from(b: Seq<LineV>, k: int) -> Option<Seq<char>>
    decreases b.len() - k,
{
    if 0 <= k < b.len() {
        match uses_value_spec(b[k].text) {
            Some(v) => Some(v),
            None => first_uses_from(b, k + 1),
        }
    } else {
        None
    }
}

/// The texts of the lines joined by newlines.
pub open spec fn join_texts(b: Seq<LineV>) -> Seq<char>
    decreases b.len(),
{
    if b.len() == 0 {
        Seq::empty()
    } else if b.len() == 1 {
        b[0].text
    } else {
        join_texts(b.drop_last()).push('\n') + b.last().text
    }
}

/// One step block (its first line is the list item).
pub open spec fn step_spec(b: Seq<LineV>) -> StepV {
    StepV { line: b[0].no, uses: first_uses_from(b, 0), text: join_texts(b) }
}

/// The steps among lines `i..` of a `steps:` block whose items sit at `ii`.
pub open spec fn steps_from(ls: Seq<LineV>, i: int, ii: nat) -> Seq<StepV>
    decreases ls.len() - i,
{
    if 0 <= i < ls.len() {
        if ls[i].indent == ii && is_item(ls[i].text) {
            let e = step_end_spec(ls, i + 1, ii);
            proof {
                lemma_step_end(ls, i + 1, ii);
            }
            seq![step_spec(ls.subrange(i, e))] + steps_from(ls, e, ii)
        } else {
            steps_from(ls, i + 1, ii)
        }
    } else {
        Seq::empty()
    }
}

/// The steps of a `steps:` block.
pub open spec fn steps_spec(ls: Seq<LineV>) -> Seq<StepV> {
    match item_indent_from(ls, 0, None) {
        None => Seq::empty(),
        Some(ii) => steps_from(ls, 0, ii),
    }
}

/// Reads a job body from line `i`, whose keys sit at indent `ci`; the last
/// `permissions:` and the last `steps:` win.
pub open spec fn job_body_from(
    ls: Seq<LineV>,
    i: int,
    ci: nat,
    perm: Option<(usize, Seq<char>)>,
    steps: Seq<StepV>,
) -> (Option<(usize, Seq<char>)>, Seq<StepV>)
    decreases ls.len() - i,
{
    if 0 <= i < ls.len() {
        let l = ls[i];
        if l.indent == ci && starts_with(l.text, "permissions:"@) {
            let (t, nx) = collect_spec(ls, i, "permissions:"@.len() as int);
            proof {
                lemma_collect_from(ls, i + 1, ls[i].indent, trim(ls[i].text.skip("permissions:"@.len() as int)));
            }
            job_body_from(ls, nx, ci, Some((l.no, t)), steps)
        } else if l.indent == ci && starts_with(l.text, "steps:"@) {
            let e = block_end_spec(ls, i + 1, ci);
            proof {
                lemma_block_end(ls, i + 1, ci);
            }
            job_body_from(ls, e, ci, perm, steps_spec(ls.subrange(i + 1, e)))
        } else {
            job_body_from(ls, i + 1, ci, perm, steps)
        }
    } else {
        (perm, steps)
    }
}

/// One job: its name, header line and body lines.
pub open spec fn job_spec(name: Seq<char>, line: usize, ls: Seq<LineV>) -> JobV {
    let body = job_body_from(ls, 0, min_indent(ls), None, Seq::empty());
    JobV {
        name,
        line,
        permissions: body.0,
        uses_secrets: exists|k: int| 0 <= k < ls.len() && secret_line(#[trigger] ls[k].text),
        steps: body.1,
    }
}

/// The jobs among lines `i..` of a `jobs:` block whose names sit at `ji`.
pub open spec fn jobs_from(ls: Seq<LineV>, i: int, ji: nat) -> Seq<JobV>
    decreases ls.len() - i,
{
    if 0 <= i < ls.len() {
        let l = ls[i];
        if l.indent == ji && ends_with(l.text, ":"@) {
            let e = block_end_spec(ls, i + 1, ji);
            proof {
                lemma_block_end(ls, i + 1, ji);
            }
            seq![job_spec(rstrip_char(l.text, ':'), l.no, ls.subrange(i + 1, e))] + jobs_from(
                ls,
                e,
                ji,
            )
        } else {
            jobs_from(ls, i + 1, ji)
        }
    } else {
        Seq::empty()
    }
}

/// The jobs of a `jobs:` block; job names sit at the indent of its first line.
pub open spec fn jobs_spec(ls: Seq<LineV>) -> Seq<JobV> {
    if ls.len() == 0 {
        Seq::empty()
    } else {
        jobs_from(ls, 0, ls[0].indent)
    }
}

/// Reads the top level from line `i`: `on:`, `permissions:` and `jobs:` at
/// indent 0; the last of each wins.
pub open spec fn doc_from(ls: Seq<LineV>, i: int, acc: WorkflowDocV) -> WorkflowDocV
    decreases ls.len() - i,
{
    if 0 <= i < ls.len() {
        let l = ls[i];
        if l.indent != 0 {
            doc_from(ls, i + 1, acc)
        } else if starts_with(l.text, "on:"@) {
            let (t, nx) = collect_spec(ls, i, "on:"@.len() as int);
            proof {
                lemma_collect_from(ls, i + 1, ls[i].indent, trim(ls[i].text.skip("on:"@.len() as int)));
            }
            doc_from(ls, nx, WorkflowDocV { on_text: t, ..acc })
        } else if starts_with(l.text, "permissions:"@) {
            let (t, nx) = collect_spec(ls, i, "permissions:"@.len() as int);
            proof {
                lemma_collect_from(ls, i + 1, ls[i].indent, trim(ls[i].text.skip("permissions:"@.len() as int)));
            }
            doc_from(ls, nx, WorkflowDocV { workflow_permissions: Some((l.no, t)), ..acc })
        } else if starts_with(l.text, "jobs:"@) {
            let e = block_end_spec(ls, i + 1, 0);
            proof {
                lemma_block_end(ls, i + 1, 0);
            }
            doc_from(ls, e, WorkflowDocV { jobs: jobs_spec(ls.subrange(i + 1, e)), ..acc })
        } else {
            doc_from(ls, i + 1, acc)
        }
    } else {
        acc
    }
}

/// The structure of a workflow file.
pub open spec fn workflow_spec(content: Seq<char>) -> WorkflowDocV {
    doc_from(
        meaningful_from(lines(content), 0),
        0,
        WorkflowDocV { on_text: Seq::empty(), workflow_permissions: None, jobs: Seq::empty() },
    )
}

/// The meaningful lines of a file.
fn meaningful_lines(content: &Vec<char>) -> (r: Vec<Line>)
    ensures
        lviews(r@) == meaningful_from(lines(content@), 0),
{
    let ls = lines_v(content);
    let ghost lsv = vviews(ls@);
    let mut out: Vec<Line> = Vec::new();
    let n = ls.len();
    let mut i: usize = 0;
    while i < n
        invariant
            n == ls@.len(),
            lsv == vviews(ls@),
            lsv == lines(content@),
            i <= n,
            meaningful_from(lsv, 0) == lviews(out@) + meaningful_from(lsv, i as int),
        decreases n - i,
    {
        let raw = &ls[i];
        let k = skip_ws_from(raw, 0);
        let t = subvec(raw, k, raw.len());
        assert(t@ =~= trim_start(raw@));
        if t.len() == 0 || starts_with_str(&t, "#") {
        } else {
            let indent = prefix_bytes(raw, k);
            let ghost before = lviews(out@);
            out.push(Line { no: i + 1, indent, text: t });
            assert(lviews(out@) =~= before.push(out@[out@.len() - 1]@));
        }
        i = i + 1;
        assert(meaningful_from(lsv, 0) =~= lviews(out@) + meaningful_from(lsv, i as int));
    }
    assert(lviews(out@) + meaningful_from(lsv, n as int) =~= lviews(out@));
    out
}

fn copy_line(l: &Line) -> (r: Line)
    ensures
        r@ == l@,
{
    Line { no: l.no, indent: l.indent, text: crate::uses_ref::subvec_all(&l.text) }
}

/// A copy of lines `a..b`.
fn slice_lines(v: &Vec<Line>, a: usize, b: usize) -> (r: Vec<Line>)
    requires
        a <= b <= v@.len(),
    ensures
        lviews(r@) == lviews(v@).subrange(a as int, b as int),
{
    let mut r: Vec<Line> = Vec::new();
    let mut i = a;
    while i < b
        invariant
            a <= i <= b <= v@.len(),
            lviews(r@) == lviews(v@).subrange(a as int, i as int),
        decreases b - i,
    {
        let ghost before = lviews(r@);
        let l = copy_line(&v[i]);
        r.push(l);
        assert(lviews(r@) =~= before.push(v@[i as int]@));
        i = i + 1;
        assert(lviews(r@) =~= lviews(v@).subrange(a as int, i as int));
    }
    r
}

/// The first index at or after `from` whose indent is not deeper than `parent`.
fn block_end(ls: &Vec<Line>, from: usize, parent: u128) -> (r: usize)
    requires
        from <= ls@.len(),
    ensures
        r as int == block_end_spec(lviews(ls@), from as int, parent as nat),
        from <= r <= ls@.len(),
{
    let mut k = from;
    while k < ls.len() && ls[k].indent > parent
        invariant
            from <= k <= ls@.len(),
            block_end_spec(lviews(ls@), from as int, parent as nat) == block_end_spec(
                lviews(ls@),
                k as int,
                parent as nat,
            ),
        decreases ls@.len() - k,
    {
        k = k + 1;
    }
    k
}

/// The inline value after `key` on line `start` together with the deeper child
/// lines joined by spaces; returns the text and the next index.
fn collect_block_text(ls: &Vec<Line>, start: usize, key: &str) -> (r: (Vec<char>, usize))
    requires
        start < ls@.len(),
        starts_with(lviews(ls@)[start as int].text, key@),
    ensures
        (r.0@, r.1 as int) == collect_spec(lviews(ls@), start as int, key@.len() as int),
        start < r.1 <= ls@.len(),
{
    let ghost lv = lviews(ls@);
    let base = ls[start].indent;
    let kv = chars_of(key);
    let rest = subvec(&ls[start].text, kv.len(), ls[start].text.len());
    assert(rest@ =~= lv[start as int].text.skip(key@.len() as int));
    let mut text = trim_v(&rest);
    assert(start < ls.len());
    let mut j = start + 1;
    while j < ls.len() && ls[j].indent > base
        invariant
            lv == lviews(ls@),
            start < j <= ls@.len(),
            base as nat == lv[start as int].indent,
            collect_spec(lv, start as int, key@.len() as int) == collect_from(
                lv,
                j as int,
                base as nat,
                text@,
            ),
        decreases ls@.len() - j,
    {
        if text.len() != 0 {
            text.push(' ');
        }
        extend(&mut text, &ls[j].text);
        j = j + 1;
    }
    (text, j)
}

/// The smallest indent of the lines, or 0.
fn min_indent_v(ls: &Vec<Line>) -> (m: u128)
    ensures
        m as nat == min_indent(lviews(ls@)),
{
    if ls.len() == 0 {
        return 0;
    }
    let mut m = ls[0].indent;
    let mut i: usize = 1;
    while i < ls.len()
        invariant
            1 <= i <= ls@.len(),
            min_indent(lviews(ls@)) == min_indent_from(lviews(ls@), i as int, m as nat),
        decreases ls@.len() - i,
    {
        if ls[i].indent < m {
            m = ls[i].indent;
        }
        i = i + 1;
    }
    m
}

fn item_indent_v(ls: &Vec<Line>) -> (r: Option<u128>)
    ensures
        match r {
            Some(x) => item_indent_from(lviews(ls@), 0, None) == Some(x as nat),
            None => item_indent_from(lviews(ls@), 0, None) is None,
        },
{
    let mut m: Option<u128> = None;
    let mut i: usize = 0;
    while i < ls.len()
        invariant
            i <= ls@.len(),
            item_indent_from(lviews(ls@), 0, None) == item_indent_from(
                lviews(ls@),
                i as int,
                match m {
                    Some(x) => Some(x as nat),
                    None => None,
                },
            ),
        decreases ls@.len() - i,
    {
        if starts_with_str(&ls[i].text, "-") {
            m = match m {
                Some(x) => if ls[i].indent < x {
                    Some(ls[i].indent)
                } else {
                    Some(x)
                },
                None => Some(ls[i].indent),
            };
        }
        i = i + 1;
    }
    m
}

fn step_end(ls: &Vec<Line>, from: usize, ii: u128) -> (r: usize)
    requires
        from <= ls@.len(),
    ensures
        r as int == step_end_spec(lviews(ls@), from as int, ii as nat),
        from <= r <= ls@.len(),
{
    let mut k = from;
    while k < ls.len() && !(ls[k].indent == ii && starts_with_str(&ls[k].text, "-"))
        && ls[k].indent >= ii
        invariant
            from <= k <= ls@.len(),
            step_end_spec(lviews(ls@), from as int, ii as nat) == step_end_spec(
                lviews(ls@),
                k as int,
                ii as nat,
            ),
        decreases ls@.len() - k,
    {
        k = k + 1;
    }
    k
}

/// The first `uses:` value of a block.
fn first_uses(b: &Vec<Line>) -> (r: Option<Vec<char>>)
    ensures
        match r {
            Some(v) => first_uses_from(lviews(b@), 0) == Some(v@),
            None => first_uses_from(lviews(b@), 0) is None,
        },
{
    let ghost bv = lviews(b@);
    let mut k: usize = 0;
    while k < b.len()
        invariant
            bv == lviews(b@),
            k <= b@.len(),
            first_uses_from(bv, 0) == first_uses_from(bv, k as int),
        decreases b@.len() - k,
    {
        match uses_value_v(&b[k].text) {
            Some(v) => {
                return Some(v);
            },
            None => {},
        }
        k = k + 1;
    }
    None
}

/// Builds the step whose block is `b`.
fn make_step(b: &Vec<Line>) -> (r: Step)
    requires
        b@.len() > 0,
    ensures
        r.deep_view() == step_spec(lviews(b@)),
{
    let ghost bv = lviews(b@);
    let uses = first_uses(b);
    // Texts joined by newlines.
    let mut text: Vec<char> = crate::uses_ref::subvec_all(&b[0].text);
    let mut j: usize = 1;
    assert(bv.take(1).drop_last() =~= Seq::<LineV>::empty());
    while j < b.len()
        invariant
            bv == lviews(b@),
            1 <= j <= b@.len(),
            text@ == join_texts(bv.take(j as int)),
        decreases b@.len() - j,
    {
        assert(bv.take(j + 1).drop_last() =~= bv.take(j as int));
        text.push('\n');
        extend(&mut text, &b[j].text);
        j = j + 1;
    }
    assert(bv.take(b@.len() as int) =~= bv);
    Step {
        line: b[0].no,
        uses: match uses {
            Some(v) => Some(string_of(&v)),
            None => None,
        },
        text: string_of(&text),
    }
}

/// The steps of a `steps:` block.
fn parse_steps(ls: &Vec<Line>) -> (r: Vec<Step>)
    ensures
        r.deep_view() == steps_spec(lviews(ls@)),
{
    let ghost lv = lviews(ls@);
    let ii = match item_indent_v(ls) {
        None => {
            return Vec::new();
        },
        Some(x) => x,
    };
    let mut steps: Vec<Step> = Vec::new();
    let mut i: usize = 0;
    while i < ls.len()
        invariant
            lv == lviews(ls@),
            item_indent_from(lv, 0, None) == Some(ii as nat),
            i <= ls@.len(),
            steps_spec(lv) == steps.deep_view() + steps_from(lv, i as int, ii as nat),
        decreases ls@.len() - i,
    {
        if ls[i].indent == ii && starts_with_str(&ls[i].text, "-") {
            let end = step_end(ls, i + 1, ii);
            let block = slice_lines(ls, i, end);
            let st = make_step(&block);
            let ghost before = steps.deep_view();
            steps.push(st);
            assert(steps.deep_view() =~= before.push(step_spec(lv.subrange(i as int, end as int))));
            i = end;
        } else {
            i = i + 1;
        }
    }
    assert(steps.deep_view() + steps_from(lv, i as int, ii as nat) =~= steps.deep_view());
    steps
}

/// Whether any line refers to secrets.
fn any_secret_line(ls: &Vec<Line>) -> (b: bool)
    ensures
        b == exists|k: int|
            0 <= k < lviews(ls@).len() && secret_line(#[trigger] lviews(ls@)[k].text),
{
    let ghost lv = lviews(ls@);
    let mut i: usize = 0;
    while i < ls.len()
        invariant
            lv == lviews(ls@),
            i <= ls@.len(),
            forall|k: int| 0 <= k < i ==> !secret_line(#[trigger] lv[k].text),
        decreases ls@.len() - i,
    {
        let t = &ls[i].text;
        if (contains_str(t, "${{") && contains_str(t, "secrets.")) || starts_with_str(
            t,
            "secrets:",
        ) {
            assert(secret_line(lv[i as int].text));
            return true;
        }
        i = i + 1;
    }
    false
}

/// One job from its name, header line and body lines.
fn parse_job(name: String, line: usize, ls: &Vec<Line>) -> (r: Job)
    ensures
        r.deep_view() == job_spec(name@, line, lviews(ls@)),
{
    let ghost lv = lviews(ls@);
    let uses_secrets = any_secret_line(ls);
    let ci = min_indent_v(ls);
    let mut permissions: Option<(usize, String)> = None;
    let mut steps: Vec<Step> = Vec::new();
    assert(steps.deep_view() =~= Seq::<StepV>::empty());
    let mut i: usize = 0;
    while i < ls.len()
        invariant
            lv == lviews(ls@),
            i <= ls@.len(),
            ci as nat == min_indent(lv),
            job_body_from(lv, 0, ci as nat, None, Seq::empty()) == job_body_from(
                lv,
                i as int,
                ci as nat,
                permissions.deep_view(),
                steps.deep_view(),
            ),
        decreases ls@.len() - i,
    {
        if ls[i].indent == ci && starts_with_str(&ls[i].text, "permissions:") {
            let (text, next) = collect_block_text(ls, i, "permissions:");
            permissions = Some((ls[i].no, string_of(&text)));
            i = next;
        } else if ls[i].indent == ci && starts_with_str(&ls[i].text, "steps:") {
            let end = block_end(ls, i + 1, ci);
            let block = slice_lines(ls, i + 1, end);
            steps = parse_steps(&block);
            i = end;
        } else {
            i = i + 1;
        }
    }
    Job { name, line, permissions, uses_secrets, steps }
}

/// The jobs of a `jobs:` block.
fn parse_jobs(ls: &Vec<Line>) -> (r: Vec<Job>)
    ensures
        r.deep_view() == jobs_spec(lviews(ls@)),
{
    let ghost lv = lviews(ls@);
    if ls.len() == 0 {
        return Vec::new();
    }
    let ji = ls[0].indent;
    let mut jobs: Vec<Job> = Vec::new();
    let mut i: usize = 0;
    while i < ls.len()
        invariant
            lv == lviews(ls@),
            ls@.len() > 0,
            ji as nat == lv[0].indent,
            i <= ls@.len(),
            jobs_spec(lv) == jobs.deep_view() + jobs_from(lv, i as int, ji as nat),
        decreases ls@.len() - i,
    {
        if ls[i].indent == ji && ends_with_str(&ls[i].text, ":") {
            let end = block_end(ls, i + 1, ji);
            let block = slice_lines(ls, i + 1, end);
            let name = rstrip_char_v(&ls[i].text, ':');
            let job = parse_job(string_of(&name), ls[i].no, &block);
            let ghost before = jobs.deep_view();
            jobs.push(job);
            assert(jobs.deep_view() =~= before.push(
                job_spec(rstrip_char(lv[i as int].text, ':'), lv[i as int].no, lv.subrange(i + 1, end as int)),
            ));
            i = end;
        } else {
            i = i + 1;
        }
    }
    assert(jobs.deep_view() + jobs_from(lv, i as int, ji as nat) =~= jobs.deep_view());
    jobs
}

/// Extracts the structure of a workflow: triggers, permissions, jobs, steps.
pub fn parse_workflow(content: &str) -> (r: WorkflowDoc)
    ensures
        r.deep_view() == workflow_spec(content@),
{
    let cv = chars_of(content);
    let ls = meaningful_lines(&cv);
    let ghost lv = lviews(ls@);
    let mut on_text: Vec<char> = Vec::new();
    let mut workflow_permissions: Option<(usize, String)> = None;
    let mut jobs: Vec<Job> = Vec::new();
    assert(jobs.deep_view() =~= Seq::<JobV>::empty());
    assert(on_text@ =~= Seq::<char>::empty());
    let mut i: usize = 0;
    while i < ls.len()
        invariant
            lv == lviews(ls@),
            lv == meaningful_from(lines(content@), 0),
            i <= ls@.len(),
            workflow_spec(content@) == doc_from(
                lv,
                i as int,
                WorkflowDocV {
                    on_text: on_text@,
                    workflow_permissions: workflow_permissions.deep_view(),
                    jobs: jobs.deep_view(),
                },
            ),
        decreases ls@.len() - i,
    {
        if ls[i].indent != 0 {
            i = i + 1;
        } else if starts_with_str(&ls[i].text, "on:") {
            let (text, next) = collect_block_text(&ls, i, "on:");
            on_text = text;
            i = next;
        } else if starts_with_str(&ls[i].text, "permissions:") {
            let (text, next) = collect_block_text(&ls, i, "permissions:");
            workflow_permissions = Some((ls[i].no, string_of(&text)));
            i = next;
        } else if starts_with_str(&ls[i].text, "jobs:") {
            let end = block_end(&ls, i + 1, 0);
            let block = slice_lines(&ls, i + 1, end);
            jobs = parse_jobs(&block);
            i = end;
        } else {
            i = i + 1;
        }
    }
    WorkflowDoc { on_text: string_of(&on_text), workflow_permissions, jobs }
}

// ------------------------------------------------------------------
// Where the value of a `uses:` line stands
// ------------------------------------------------------------------
/// The shape of a `uses:` line up to its value: whitespace up to `a`, an
/// optional `-` and whitespace up to `b`, `uses:`, whitespace up to `c`, then
/// the value, in double quotes (`mode` 1), single quotes (2) or none (0).
pub open spec fn uses_shape(line: Seq<char>, a: int, b: int, c: int, mode: int) -> bool {
    &&& 0 <= a <= b
    &&& b + 5 < c < line.len()
    &&& forall|j: int| 0 <= j < a ==> is_ws(#[trigger] line[j])
    &&& line[a] != '#'
    &&& !is_ws(line[a])
    &&& (line[a] == '-' ==> a < b && (forall|j: int| a < j < b ==> is_ws(#[trigger] line[j]))
        && (b < line.len() ==> !is_ws(line[b])))
    &&& (line[a] != '-' ==> b == a)
    &&& line.subrange(b, b + 5) == "uses:"@
    &&& forall|j: int| b + 5 <= j < c ==> is_ws(#[trigger] line[j])
    &&& !is_ws(line[c])
    &&& mode == (if line[c] == '"' {
        1int
    } else if line[c] == '\'' {
        2int
    } else {
        0int
    })
}

/// Where the value of a `uses:` line starts, and how it is quoted (see
/// [`uses_shape`]), computed from the line.
pub open spec fn uses_value_start(line: Seq<char>) -> (int, int) {
    let a = skip_ws(line, 0);
    let t = line.skip(a);
    let b = if line[a] == '-' {
        a + 1 + skip_ws(t.skip(1), 0)
    } else {
        a
    };
    let c = b + 5 + skip_ws(line.skip(b + 5), 0);
    let mode: int = if line[c] == '"' {
        1
    } else if line[c] == '\'' {
        2
    } else {
        0
    };
    (value_start(c, mode), mode)
}

pub open spec fn value_start(c: int, mode: int) -> int {
    if mode == 0 {
        c
    } else {
        c + 1
    }
}

/// A line of that shape is read as its value's text says.
proof fn lemma_uses_shape_read(line: Seq<char>, a: int, b: int, c: int, mode: int)
    requires
        uses_shape(line, a, b, c, mode),
    ensures
        uses_value_spec(line) == scalar_tail(mode, line.skip(value_start(c, mode))),
{
    reveal_strlit("#");
    reveal_strlit("-");
    reveal_strlit("uses:");
    reveal_strlit("\"");
    reveal_strlit("'");
    crate::text::lemma_skip_ws_at(line, 0, a);
    let t = line.skip(a);
    assert(trim_start(line) == t);
    assert(t[0] == line[a]);
    assert(!starts_with(t, "#"@)) by {
        if starts_with(t, "#"@) {
            assert(t.take(1)[0] == t[0]);
        }
    }
    if line[a] == '-' {
        assert(t.take(1) =~= "-"@);
        let u = t.skip(1);
        assert forall|j: int| 0 <= j < b - a - 1 implies crate::text::is_ws(#[trigger] u[j]) by {
            assert(u[j] == line[a + 1 + j]);
        }
        if b < line.len() {
            assert(u[b - a - 1] == line[b]);
        }
        crate::text::lemma_skip_ws_at(u, 0, b - a - 1);
        assert(after_dash(t) =~= line.skip(b));
    } else {
        if starts_with(t, "-"@) {
            assert(t.take(1)[0] == t[0]);
        }
        assert(after_dash(t) =~= line.skip(b));
    }
    let rb = line.skip(b);
    assert(rb.take(5) =~= line.subrange(b, b + 5));
    let r = line.skip(b + 5);
    assert(rb.skip(5) =~= r);
    assert(r[0] == line[b + 5]);
    assert forall|j: int| 0 <= j < c - b - 5 implies crate::text::is_ws(#[trigger] r[j]) by {
        assert(r[j] == line[b + 5 + j]);
    }
    assert(r[c - b - 5] == line[c]);
    crate::text::lemma_skip_ws_at(r, 0, c - b - 5);
    let sc = line.skip(c);
    assert(trim_start(r) =~= sc);
    assert(sc[0] == line[c]);
    if mode != 0 {
        assert(sc.skip(1) =~= line.skip(c + 1));
        if mode == 1 {
            assert(sc.take(1) =~= "\""@);
        } else {
            assert(sc.take(1) =~= "'"@);
            if starts_with(sc, "\""@) {
                assert(sc.take(1)[0] == sc[0]);
            }
        }
    } else {
        if starts_with(sc, "\""@) {
            assert(sc.take(1)[0] == sc[0]);
        }
        if starts_with(sc, "'"@) {
            assert(sc.take(1)[0] == sc[0]);
        }
    }
}

/// The shape of a line that has a `uses:` value.
proof fn lemma_uses_shape_of(line: Seq<char>) -> (res: (int, int, int, int))
    requires
        uses_value_spec(line) is Some,
    ensures
        uses_shape(line, res.0, res.1, res.2, res.3),
        uses_value_start(line) == (value_start(res.2, res.3), res.3),
{
    reveal_strlit("#");
    reveal_strlit("-");
    reveal_strlit("uses:");
    reveal_strlit("\"");
    reveal_strlit("'");
    crate::text::lemma_skip_ws_all(line, 0);
    let a = skip_ws(line, 0);
    let t = line.skip(a);
    assert(trim_start(line) == t);
    assert(t.len() > 0) by {
        if t.len() == 0 {
            assert(after_dash(t) == t);
        }
    }
    assert(t[0] == line[a]);
    if line[a] == '#' {
        assert(t.take(1) =~= "#"@);
    }
    let t1 = t.skip(1);
    crate::text::lemma_skip_ws_all(t1, 0);
    let e = skip_ws(t1, 0);
    let dash = line[a] == '-';
    if dash {
        assert(t.take(1) =~= "-"@);
    } else if starts_with(t, "-"@) {
        assert(t.take(1)[0] == t[0]);
    }
    let b: int = if dash {
        a + 1 + e
    } else {
        a
    };
    assert(after_dash(t) =~= line.skip(b));
    if dash {
        assert forall|j: int| a < j < b implies is_ws(#[trigger] line[j]) by {
            assert(t1[j - a - 1] == line[j]);
        }
        if b < line.len() {
            assert(t1[e] == line[b]);
        }
    }
    let rb = line.skip(b);
    assert(starts_with(rb, "uses:"@));
    assert(rb.take(5) =~= line.subrange(b, b + 5));
    let r = line.skip(b + 5);
    assert(rb.skip(5) =~= r);
    assert(r.len() > 0 && is_ws(r[0]));
    crate::text::lemma_skip_ws_all(r, 0);
    let f = skip_ws(r, 0);
    let c = b + 5 + f;
    let sc = line.skip(c);
    assert(trim_start(r) =~= sc);
    assert(sc.len() > 0);
    assert(sc[0] == line[c]);
    assert(r[f] == line[c]);
    assert forall|j: int| b + 5 <= j < c implies is_ws(#[trigger] line[j]) by {
        assert(r[j - b - 5] == line[j]);
    }
    let mode: int = if line[c] == '"' {
        1
    } else if line[c] == '\'' {
        2
    } else {
        0
    };
    (a, b, c, mode)
}

/// Where the `uses:` value of a line starts (`res.0`) and how it is quoted
/// (`res.1`): the text before it holds no `@`, the value is read from there as
/// [`scalar_tail`] says, and any line with the same text up to there is read
/// the same way.
pub proof fn lemma_uses_layout(line: Seq<char>) -> (res: (int, int))
    requires
        uses_value_spec(line) is Some,
    ensures
        0 <= res.1 <= 2,
        0 < res.0 <= line.len(),
        uses_value_spec(line) == scalar_tail(res.1, line.skip(res.0)),
        forall|j: int| 0 <= j < res.0 ==> #[trigger] line[j] != '@',
        res.1 == 0 ==> res.0 < line.len() && is_ws(line[res.0 - 1]) && !is_ws(line[res.0])
            && line[res.0] != '"' && line[res.0] != '\'',
        res.1 == 1 ==> line[res.0 - 1] == '"',
        res.1 == 2 ==> line[res.0 - 1] == '\'',
        res == uses_value_start(line),
        forall|w: Seq<char>|
            (res.1 != 0 || (w.len() > 0 && w[0] == line[res.0])) ==> #[trigger] uses_value_spec(
                line.take(res.0) + w,
            ) == scalar_tail(res.1, w),
{
    reveal_strlit("uses:");
    let (a, b, c, mode) = lemma_uses_shape_of(line);
    let p0 = value_start(c, mode);
    lemma_uses_shape_read(line, a, b, c, mode);
    assert forall|j: int| 0 <= j < p0 implies #[trigger] line[j] != '@' by {
        if b <= j < b + 5 {
            assert(line.subrange(b, b + 5)[j - b] == line[j]);
        }
    }
    if mode == 0 {
        assert(is_ws(line[c - 1]));
    }
    assert forall|w: Seq<char>| (mode != 0 || (w.len() > 0 && w[0] == line[p0])) implies #[trigger] uses_value_spec(
        line.take(p0) + w,
    ) == scalar_tail(mode, w) by {
        let l2 = line.take(p0) + w;
        assert forall|j: int| 0 <= j < p0 implies #[trigger] l2[j] == line[j] by {}
        if mode == 0 {
            assert(l2[p0] == line[p0]);
        }
        assert(l2[c] == line[c]);
        assert(l2.subrange(b, b + 5) =~= line.subrange(b, b + 5));
        assert(uses_shape(l2, a, b, c, mode)) by {
            assert(l2[a] == line[a]);
            if b < p0 {
                assert(l2[b] == line[b]);
            }
            assert forall|j: int| 0 <= j < a implies is_ws(#[trigger] l2[j]) by {
                assert(l2[j] == line[j]);
            }
            assert forall|j: int| a < j < b implies is_ws(#[trigger] l2[j]) by {
                assert(l2[j] == line[j]);
            }
            assert forall|j: int| b + 5 <= j < c implies is_ws(#[trigger] l2[j]) by {
                assert(l2[j] == line[j]);
            }
        }
        lemma_uses_shape_read(l2, a, b, c, mode);
        assert(l2.skip(p0) =~= w);
    }
    (p0, mode)
}

} // verus!
