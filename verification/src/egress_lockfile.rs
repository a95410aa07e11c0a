//! egress.lock: the allowed network destinations of each job.
//!
//! Locking is per job and opt-in: only the jobs listed are compared, the others
//! are only reported. Wildcards are written by people, explicitly; the library
//! never produces one.
use vstd::prelude::*;
use crate::sorted::{map_get, map_insert, set_insert, StrMap, StrSet, keys, insert_pos};
use crate::text::{
    ascii_lower, ascii_lower_v, chars_of, contains_char_v, dec, dec_usize, extend, extend_str,
    index_of, index_of_v, is_ascii_alnum, is_ascii_alphanumeric, lines, lines_v, rstrip_char,
    rstrip_char_v, string_of, strip_prefix, strip_prefix_str, strip_suffix, strip_suffix_str,
    subvec, trim, trim_v, vviews, vec_eq,
};

verus! {

pub const FILE_NAME: &'static str = "egress.lock";

/// One job section of the lock: the line of its `[name]` header and its
/// allowed patterns.
pub struct JobSection {
    pub line: usize,
    pub patterns: StrSet,
}

pub struct JobSectionV {
    pub line: usize,
    pub patterns: Seq<Seq<char>>,
}

impl JobSection {
    pub open spec fn view(&self) -> JobSectionV {
        JobSectionV { line: self.line, patterns: self.patterns.view() }
    }
}

/// The lock; keys are job names.
pub struct EgressLock {
    pub jobs: StrMap<JobSection>,
}

/// The sections with their models.
pub open spec fn sections_view(s: Seq<(Seq<char>, JobSection)>) -> Seq<(Seq<char>, JobSectionV)> {
    s.map_values(|e: (Seq<char>, JobSection)| (e.0, e.1.view()))
}

impl EgressLock {
    pub open spec fn view(&self) -> Seq<(Seq<char>, JobSectionV)> {
        sections_view(self.jobs.view())
    }
}

pub proof fn lemma_sections_insert(s: Seq<(Seq<char>, JobSection)>, k: Seq<char>, x: JobSection)
    ensures
        sections_view(map_insert(s, k, x)) == map_insert(sections_view(s), k, x.view()),
{
    let t = sections_view(s);
    assert(keys(t) =~= keys(s));
    let p = insert_pos(keys(s), k, 0);
    crate::sorted::lemma_insert_pos(keys(s), k, 0);
    if p < s.len() && s[p].0 == k {
        assert(map_insert(s, k, x) == s.update(p, (k, x)));
        assert(map_insert(t, k, x.view()) == t.update(p, (k, x.view())));
        assert(sections_view(s.update(p, (k, x))) =~= t.update(p, (k, x.view())));
    } else {
        assert(map_insert(s, k, x) == s.insert(p, (k, x)));
        assert(map_insert(t, k, x.view()) == t.insert(p, (k, x.view())));
        assert(sections_view(s.insert(p, (k, x))) =~= t.insert(p, (k, x.view())));
    }
}

// ------------------------------------------------------------------
// Domains and patterns
// ------------------------------------------------------------------
/// Domain normalization: trimmed, trailing dots removed, ASCII lowercase.
pub open spec fn normalize_spec(d: Seq<char>) -> Seq<char> {
    ascii_lower(rstrip_char(trim(d), '.'))
}

/// Normalizes a domain: lowercase, no trailing dot.
pub fn normalize(domain: &str) -> (r: String)
    ensures
        r@ == normalize_spec(domain@),
{
    let v = chars_of(domain);
    string_of(&normalize_v(&v))
}

pub fn normalize_v(v: &Vec<char>) -> (r: Vec<char>)
    ensures
        r@ == normalize_spec(v@),
{
    let t = trim_v(v);
    let s = rstrip_char_v(&t, '.');
    ascii_lower_v(&s)
}

pub const BAD_WILDCARD: &'static str = "' — 와일드카드는 선행 라벨 1개(`*.example.com`)만 허용됩니다";
pub const NOT_A_DOMAIN: &'static str = "' — 도메인으로 보이지 않습니다";

/// A character a domain may hold.
pub open spec fn domain_char(c: char) -> bool {
    is_ascii_alnum(c) || c == '-' || c == '.' || c == '_'
}

/// A pattern without its leading `*.`, if any.
pub open spec fn wildcard_rest(p: Seq<char>) -> Seq<char> {
    match strip_prefix(p, "*."@) {
        Some(r) => r,
        None => p,
    }
}

pub open spec fn all_domain_chars(s: Seq<char>) -> bool {
    forall|i: int| 0 <= i < s.len() ==> domain_char(#[trigger] s[i])
}

/// Pattern check: a plain domain, or one leading wildcard label (`*.example.com`).
pub open spec fn validate_spec(p: Seq<char>) -> Result<(), Seq<char>> {
    let rest = wildcard_rest(p);
    if rest.contains('*') {
        Err("'"@ + p + BAD_WILDCARD@)
    } else if rest.len() == 0 || !all_domain_chars(rest) {
        Err("'"@ + p + NOT_A_DOMAIN@)
    } else {
        Ok(())
    }
}

fn validate_pattern(p: &Vec<char>) -> (r: Result<(), String>)
    ensures
        match r {
            Ok(()) => validate_spec(p@) is Ok,
            Err(e) => validate_spec(p@) == Err::<(), Seq<char>>(e@),
        },
{
    let rest = match strip_prefix_str(p, "*.") {
        Some(r) => r,
        None => crate::uses_ref::subvec_all(p),
    };
    if contains_char_v(&rest, '*') {
        let mut e: Vec<char> = Vec::new();
        extend_str(&mut e, "'");
        extend(&mut e, p);
        extend_str(&mut e, BAD_WILDCARD);
        assert(e@ =~= "'"@ + p@ + BAD_WILDCARD@);
        let es = string_of(&e);
        assert(validate_spec(p@) == Err::<(), Seq<char>>(es@));
        return Err(es);
    }
    assert(rest@ == wildcard_rest(p@));
    let mut bad = rest.len() == 0;
    let mut i: usize = 0;
    while i < rest.len() && !bad
        invariant
            i <= rest@.len(),
            bad ==> (rest@.len() == 0 || !all_domain_chars(rest@)),
            rest@.len() == 0 ==> bad,
            !bad ==> forall|k: int| 0 <= k < i ==> domain_char(#[trigger] rest@[k]),
        decreases rest@.len() - i,
    {
        let c = rest[i];
        if !(is_ascii_alphanumeric(c) || c == '-' || c == '.' || c == '_') {
            bad = true;
        }
        i = i + 1;
    }
    if bad {
        let mut e: Vec<char> = Vec::new();
        extend_str(&mut e, "'");
        extend(&mut e, p);
        extend_str(&mut e, NOT_A_DOMAIN);
        assert(e@ =~= "'"@ + p@ + NOT_A_DOMAIN@);
        let es = string_of(&e);
        assert(validate_spec(p@) == Err::<(), Seq<char>>(es@));
        return Err(es);
    }
    assert(all_domain_chars(rest@));
    Ok(())
}

/// Whether an observed domain matches a pattern. A wildcard stands for exactly
/// one label: `*.example.com` matches `a.example.com`, not `a.b.example.com`
/// nor `example.com`.
pub open spec fn matches_spec(pattern: Seq<char>, domain: Seq<char>) -> bool {
    let d = normalize_spec(domain);
    match strip_prefix(pattern, "*."@) {
        Some(suffix) => match strip_suffix(d, suffix) {
            None => false,
            Some(head) => match strip_suffix(head, "."@) {
                None => false,
                Some(label) => label.len() > 0 && !label.contains('.'),
            },
        },
        None => d == pattern,
    }
}

/// Whether an observed domain matches a lock pattern.
pub fn matches(pattern: &str, domain: &str) -> (b: bool)
    ensures
        b == matches_spec(pattern@, domain@),
{
    let dv = chars_of(domain);
    let d = normalize_v(&dv);
    let pv = chars_of(pattern);
    match strip_prefix_str(&pv, "*.") {
        Some(suffix) => {
            let head = match crate::text::strip_suffix_v(&d, &suffix) {
                None => {
                    return false;
                },
                Some(h) => h,
            };
            let label = match strip_suffix_str(&head, ".") {
                None => {
                    return false;
                },
                Some(l) => l,
            };
            label.len() > 0 && !contains_char_v(&label, '.')
        },
        None => vec_eq(&d, &pv),
    }
}

// ------------------------------------------------------------------
// Parsing
// ------------------------------------------------------------------
pub const EMPTY_NAME: &'static str = "행: 잡 이름이 빈 구획입니다";
pub const DUP_A: &'static str = "행: 잡 '";
pub const DUP_B: &'static str = "' 구획이 중복됩니다";
pub const ORPHAN: &'static str = "행: 잡 구획(`[이름]`) 앞에 도메인이 나왔습니다";
pub const LINE_SEP: &'static str = "행: ";

/// A line with its end-of-line comment removed, trimmed.
pub open spec fn content_of(raw: Seq<char>) -> Seq<char> {
    trim(raw.take(index_of(raw, '#', 0)))
}

/// The name inside `[...]`, untrimmed, if the line is a section header.
pub open spec fn section_name(line: Seq<char>) -> Option<Seq<char>> {
    match strip_prefix(line, "["@) {
        Some(r) => strip_suffix(r, "]"@),
        None => None,
    }
}

/// The sections with the open section added.
pub open spec fn flush(
    jobs: Seq<(Seq<char>, JobSectionV)>,
    cur: Option<(Seq<char>, JobSectionV)>,
) -> Seq<(Seq<char>, JobSectionV)> {
    match cur {
        Some((n, s)) => map_insert(jobs, n, s),
        None => jobs,
    }
}

/// Whether a section name is taken (by a closed section or the open one).
pub open spec fn taken(
    jobs: Seq<(Seq<char>, JobSectionV)>,
    cur: Option<(Seq<char>, JobSectionV)>,
    name: Seq<char>,
) -> bool {
    (cur matches Some((n, _)) && n == name) || map_get(jobs, name) is Some
}

/// Reads lines `i..` with the closed sections `jobs` and the open one `cur`.
pub open spec fn lock_from(
    ls: Seq<Seq<char>>,
    i: int,
    jobs: Seq<(Seq<char>, JobSectionV)>,
    cur: Option<(Seq<char>, JobSectionV)>,
) -> Result<Seq<(Seq<char>, JobSectionV)>, Seq<char>>
    decreases ls.len() - i,
{
    if i < 0 || i >= ls.len() {
        Ok(flush(jobs, cur))
    } else {
        let line = content_of(ls[i]);
        let no = dec((i + 1) as nat);
        if line.len() == 0 {
            lock_from(ls, i + 1, jobs, cur)
        } else {
            match section_name(line) {
                Some(raw_name) => {
                    let name = trim(raw_name);
                    if name.len() == 0 {
                        Err(no + EMPTY_NAME@)
                    } else if taken(jobs, cur, name) {
                        Err(no + DUP_A@ + name + DUP_B@)
                    } else {
                        lock_from(
                            ls,
                            i + 1,
                            flush(jobs, cur),
                            Some((name, JobSectionV { line: (i + 1) as usize, patterns: Seq::empty() })),
                        )
                    }
                },
                None => match cur {
                    None => Err(no + ORPHAN@),
                    Some((n, sec)) => {
                        let p = normalize_spec(line);
                        match validate_spec(p) {
                            Err(e) => Err(no + LINE_SEP@ + e),
                            Ok(()) => lock_from(
                                ls,
                                i + 1,
                                jobs,
                                Some((n, JobSectionV { line: sec.line, patterns: set_insert(sec.patterns, p) })),
                            ),
                        }
                    },
                },
            }
        }
    }
}

/// The lock read from a text, or the first error (`"<line>행: ..."`).
pub open spec fn parse_spec(content: Seq<char>) -> Result<Seq<(Seq<char>, JobSectionV)>, Seq<char>> {
    lock_from(lines(content), 0, Seq::empty(), None)
}

/// The open section of the exec parser, and its model.
pub open spec fn cur_view(cur: Option<(String, JobSection)>) -> Option<(Seq<char>, JobSectionV)> {
    match cur {
        Some((n, s)) => Some((n@, s.view())),
        None => None,
    }
}

fn line_error(line_no: usize, a: &str, mid: &Vec<char>, b: &str) -> (e: String)
    ensures
        e@ == dec(line_no as nat) + a@ + mid@ + b@,
{
    let mut v = dec_usize(line_no);
    extend_str(&mut v, a);
    extend(&mut v, mid);
    extend_str(&mut v, b);
    string_of(&v)
}

impl EgressLock {
    fn flush_exec(jobs: &mut StrMap<JobSection>, cur: Option<(String, JobSection)>)
        ensures
            sections_view(final(jobs).view()) == flush(sections_view(old(jobs).view()), cur_view(cur)),
    {
        match cur {
            Some((n, s)) => {
                proof {
                    lemma_sections_insert(jobs.view(), n@, s);
                }
                jobs.insert(n, s);
            },
            None => {},
        }
    }

    /// Strict parsing: this is a policy file, so an unknown line is an error,
    /// never skipped.
    pub fn parse(content: &str) -> (r: Result<Self, String>)
        ensures
            match r {
                Ok(lock) => parse_spec(content@) == Ok::<_, Seq<char>>(lock.view()),
                Err(e) => parse_spec(content@) == Err::<Seq<(Seq<char>, JobSectionV)>, _>(e@),
            },
    {
        let cv = chars_of(content);
        let ls = lines_v(&cv);
        let ghost lv = vviews(ls@);
        let mut jobs: StrMap<JobSection> = StrMap::new();
        assert(sections_view(jobs.view()) =~= Seq::<(Seq<char>, JobSectionV)>::empty());
        let mut cur: Option<(String, JobSection)> = None;
        let mut i: usize = 0;
        while i < ls.len()
            invariant
                lv == vviews(ls@),
                lv == lines(content@),
                i <= ls@.len(),
                parse_spec(content@) == lock_from(lv, i as int, sections_view(jobs.view()), cur_view(cur)),
            decreases ls@.len() - i,
        {
            let raw = &ls[i];
            let k = index_of_v(raw, '#', 0);
            let before = subvec(raw, 0, k);
            assert(before@ =~= raw@.take(k as int));
            let line = trim_v(&before);
            let line_no = i + 1;
            if line.len() == 0 {
                i = i + 1;
                continue;
            }
            let header = match strip_prefix_str(&line, "[") {
                Some(r) => strip_suffix_str(&r, "]"),
                None => None,
            };
            match header {
                Some(raw_name) => {
                    let name = trim_v(&raw_name);
                    if name.len() == 0 {
                        let empty: Vec<char> = Vec::new();
                        let e = line_error(line_no, EMPTY_NAME, &empty, "");
                        proof {
                            reveal_strlit("");
                        }
                        assert(e@ =~= dec(line_no as nat) + EMPTY_NAME@);
                        return Err(e);
                    }
                    let ns = string_of(&name);
                    let dup = match &cur {
                        Some((n, _)) => crate::text::str_eq(n.as_str(), ns.as_str()),
                        None => false,
                    } || jobs.contains_key(ns.as_str());
                    assert(jobs.view().map_values(|e: (Seq<char>, JobSection)| e.0) =~= keys(
                        sections_view(jobs.view()),
                    ));
                    proof {
                        lemma_map_get_sections(jobs.view(), ns@);
                    }
                    if dup {
                        return Err(line_error(line_no, DUP_A, &name, DUP_B));
                    }
                    Self::flush_exec(&mut jobs, cur);
                    cur = Some((ns, JobSection { line: line_no, patterns: StrSet::new() }));
                },
                None => {
                    match cur {
                        None => {
                            let empty: Vec<char> = Vec::new();
                            let e = line_error(line_no, ORPHAN, &empty, "");
                            proof {
                                reveal_strlit("");
                            }
                            assert(e@ =~= dec(line_no as nat) + ORPHAN@);
                            return Err(e);
                        },
                        Some((n, sec)) => {
                            let p = normalize_v(&line);
                            match validate_pattern(&p) {
                                Err(e) => {
                                    let ev = chars_of(e.as_str());
                                    let r = line_error(line_no, LINE_SEP, &ev, "");
                                    proof {
                                        reveal_strlit("");
                                    }
                                    assert(r@ =~= dec(line_no as nat) + LINE_SEP@ + e@);
                                    return Err(r);
                                },
                                Ok(()) => {
                                    let mut patterns = sec.patterns;
                                    patterns.insert(string_of(&p));
                                    cur = Some((n, JobSection { line: sec.line, patterns }));
                                },
                            }
                        },
                    }
                },
            }
            i = i + 1;
        }
        Self::flush_exec(&mut jobs, cur);
        Ok(EgressLock { jobs })
    }

    /// The section of job `name`.
    pub fn job(&self, name: &str) -> (r: Option<&JobSection>)
        ensures
            match r {
                Some(s) => map_get(self.view(), name@) == Some(s.view()),
                None => map_get(self.view(), name@) is None,
            },
    {
        proof {
            lemma_map_get_sections(self.jobs.view(), name@);
        }
        self.jobs.get(name)
    }
}

pub proof fn lemma_map_get_sections_from(s: Seq<(Seq<char>, JobSection)>, k: Seq<char>, i: int)
    ensures
        crate::sorted::map_get_from(sections_view(s), k, i) == match crate::sorted::map_get_from(
            s,
            k,
            i,
        ) {
            Some(x) => Some(x.view()),
            None => None,
        },
    decreases s.len() - i,
{
    if 0 <= i < s.len() && s[i].0 != k {
        lemma_map_get_sections_from(s, k, i + 1);
    }
}

pub proof fn lemma_map_get_sections(s: Seq<(Seq<char>, JobSection)>, k: Seq<char>)
    ensures
        map_get(sections_view(s), k) == match map_get(s, k) {
            Some(x) => Some(x.view()),
            None => None,
        },
{
    lemma_map_get_sections_from(s, k, 0);
}

// ------------------------------------------------------------------
// Rendering
// ------------------------------------------------------------------
pub const LOCK_HEADER: &'static str = "# egress.lock — 잡별 허용 통신 목적지 (just-shield 층 ⓒ, ADR-0006).\n# 여기 적힌 잡만 대조 대상 — 미등재 목적지 관찰 = 🔴. 와일드카드는 사람이 명시적으로만.\n";

/// One section of the rendered lock: a blank line, `[name]`, then one pattern
/// per line.
pub open spec fn section_text(name: Seq<char>, patterns: Seq<Seq<char>>) -> Seq<char> {
    seq!['\n', '['] + name + seq![']', '\n'] + crate::rules::concat(
        patterns.map_values(|p: Seq<char>| p.push('\n')),
    )
}

/// The rendered lock: the header comment, then the sections in name order.
pub open spec fn render_spec(jobs: Seq<(Seq<char>, JobSectionV)>) -> Seq<char> {
    LOCK_HEADER@ + crate::rules::concat(
        jobs.map_values(|e: (Seq<char>, JobSectionV)| section_text(e.0, e.1.patterns)),
    )
}

fn section_text_v(out: &mut Vec<char>, name: &String, sec: &JobSection)
    ensures
        final(out)@ == old(out)@ + section_text(name@, sec.patterns.view()),
{
    let ghost o = out@;
    out.push('\n');
    out.push('[');
    extend_str(out, name.as_str());
    out.push(']');
    out.push('\n');
    let ghost head = out@;
    let ghost m = sec.patterns.view().map_values(|p: Seq<char>| p.push('\n'));
    let mut i: usize = 0;
    while i < sec.patterns.len()
        invariant
            m == sec.patterns.view().map_values(|p: Seq<char>| p.push('\n')),
            i <= sec.patterns.view().len(),
            out@ == head + crate::rules::concat(m.take(i as int)),
        decreases sec.patterns.view().len() - i,
    {
        proof {
            crate::rules::lemma_concat_step(m, i as int);
        }
        extend_str(out, sec.patterns.get(i).as_str());
        out.push('\n');
        i = i + 1;
        assert(out@ =~= head + crate::rules::concat(m.take(i as int)));
    }
    assert(m.take(sec.patterns.view().len() as int) =~= m);
    assert(out@ =~= o + section_text(name@, sec.patterns.view()));
}

impl EgressLock {
    /// Renders the lock: sections sorted by job name, patterns sorted, so the
    /// same lock always renders to the same bytes.
    pub fn render(&self) -> (s: String)
        ensures
            s@ == render_spec(self.view()),
    {
        let mut out: Vec<char> = Vec::new();
        extend_str(&mut out, LOCK_HEADER);
        let ghost head = out@;
        let ghost m = self.view().map_values(
            |e: (Seq<char>, JobSectionV)| section_text(e.0, e.1.patterns),
        );
        let mut i: usize = 0;
        while i < self.jobs.len()
            invariant
                m == self.view().map_values(
                    |e: (Seq<char>, JobSectionV)| section_text(e.0, e.1.patterns),
                ),
                i <= self.view().len(),
                self.view().len() == self.jobs.view().len(),
                out@ == head + crate::rules::concat(m.take(i as int)),
            decreases self.view().len() - i,
        {
            proof {
                crate::rules::lemma_concat_step(m, i as int);
            }
            let (name, sec) = self.jobs.entry(i);
            section_text_v(&mut out, name, sec);
            i = i + 1;
            assert(out@ =~= head + crate::rules::concat(m.take(i as int)));
        }
        assert(m.take(self.view().len() as int) =~= m);
        string_of(&out)
    }
}

// ------------------------------------------------------------------
// A rendered lock reads back
// ------------------------------------------------------------------
/// The names and patterns of a lock, without the line numbers it was read at.
pub open spec fn shape(jobs: Seq<(Seq<char>, JobSectionV)>) -> Seq<(Seq<char>, Seq<Seq<char>>)> {
    jobs.map_values(|e: (Seq<char>, JobSectionV)| (e.0, e.1.patterns))
}

/// A job name that the format can carry: not empty, no whitespace at either
/// end, no `#` and no line break in it.
pub open spec fn clean_name(n: Seq<char>) -> bool {
    &&& n.len() > 0
    &&& !crate::text::is_ws(n[0])
    &&& !crate::text::is_ws(n.last())
    &&& forall|k: int| 0 <= k < n.len() ==> #[trigger] n[k] != '#' && n[k] != '\n'
}

/// A pattern as the parser keeps it: valid and normalized.
pub open spec fn clean_pattern(p: Seq<char>) -> bool {
    validate_spec(p) is Ok && normalize_spec(p) == p
}

/// A lock as the parser builds it: sections in strict name order with clean
/// names, and in each of them clean patterns in strict order.
pub open spec fn valid_lock(jobs: Seq<(Seq<char>, JobSectionV)>) -> bool {
    &&& crate::sorted::strictly_sorted(keys(jobs))
    &&& forall|i: int| 0 <= i < jobs.len() ==> clean_name(#[trigger] jobs[i].0)
    &&& forall|i: int|
        0 <= i < jobs.len() ==> crate::sorted::strictly_sorted(#[trigger] jobs[i].1.patterns)
    &&& forall|i: int, j: int|
        0 <= i < jobs.len() && 0 <= j < jobs[i].1.patterns.len() ==> clean_pattern(
            #[trigger] jobs[i].1.patterns[j],
        )
}

/// The `[name]` line of a section.
pub open spec fn header_line(n: Seq<char>) -> Seq<char> {
    seq!['['] + n + seq![']']
}

/// The lines of one rendered section: a blank line, `[name]`, the patterns.
pub open spec fn section_lines(n: Seq<char>, ps: Seq<Seq<char>>) -> Seq<Seq<char>> {
    seq![Seq::<char>::empty(), header_line(n)] + ps
}

/// The lines of all rendered sections, in order.
pub open spec fn lock_lines(jobs: Seq<(Seq<char>, JobSectionV)>) -> Seq<Seq<char>>
    decreases jobs.len(),
{
    if jobs.len() == 0 {
        Seq::empty()
    } else {
        section_lines(jobs[0].0, jobs[0].1.patterns) + lock_lines(jobs.skip(1))
    }
}

proof fn lemma_domain_char_plain(c: char)
    requires
        domain_char(c) || c == '*',
    ensures
        !crate::text::is_ws(c),
        c != '#',
        c != '\n',
        c != '[',
{
}

proof fn lemma_clean_pattern(p: Seq<char>)
    requires
        validate_spec(p) is Ok,
    ensures
        p.len() > 0,
        forall|k: int| 0 <= k < p.len() ==> !crate::text::is_ws(#[trigger] p[k]) && p[k] != '#'
            && p[k] != '\n' && p[k] != '[',
{
    reveal_strlit("*.");
    let rest = wildcard_rest(p);
    if crate::text::starts_with(p, "*."@) {
        assert(rest =~= p.skip(2));
        assert forall|k: int| 0 <= k < p.len() implies !crate::text::is_ws(#[trigger] p[k]) && p[k]
            != '#' && p[k] != '\n' && p[k] != '[' by {
            if k < 2 {
                assert(p.take(2)[k] == p[k]);
                lemma_domain_char_plain(p[k]);
            } else {
                assert(p[k] == rest[k - 2]);
                lemma_domain_char_plain(p[k]);
            }
        }
    } else {
        assert forall|k: int| 0 <= k < p.len() implies !crate::text::is_ws(#[trigger] p[k]) && p[k]
            != '#' && p[k] != '\n' && p[k] != '[' by {
            lemma_domain_char_plain(p[k]);
        }
    }
}

proof fn lemma_no_hash_content(s: Seq<char>)
    requires
        s.len() > 0,
        !crate::text::is_ws(s[0]),
        !crate::text::is_ws(s.last()),
        forall|k: int| 0 <= k < s.len() ==> #[trigger] s[k] != '#',
    ensures
        content_of(s) == s,
{
    crate::text::lemma_index_of(s, '#', 0);
    let k = index_of(s, '#', 0);
    if k < s.len() {
        assert(s[k] == '#');
    }
    assert(s.take(k) =~= s);
    crate::text::lemma_trim_id(s);
}

proof fn lemma_section_text(n: Seq<char>, ps: Seq<Seq<char>>)
    ensures
        section_text(n, ps) == crate::text::text_of_lines(section_lines(n, ps)),
{
    let hs = seq![Seq::<char>::empty(), header_line(n)];
    crate::rules::lemma_concat_lines(ps);
    crate::text::lemma_text_of_lines_step(hs, 0);
    crate::text::lemma_text_of_lines_step(hs, 1);
    assert(hs.take(0) =~= Seq::<Seq<char>>::empty());
    assert(hs.take(2) =~= hs);
    crate::text::lemma_text_of_lines_append(hs, ps);
    assert(section_text(n, ps) =~= crate::text::text_of_lines(hs) + crate::text::text_of_lines(ps));
}

proof fn lemma_sections_text(jobs: Seq<(Seq<char>, JobSectionV)>)
    ensures
        crate::rules::concat(
            jobs.map_values(|e: (Seq<char>, JobSectionV)| section_text(e.0, e.1.patterns)),
        ) == crate::text::text_of_lines(lock_lines(jobs)),
    decreases jobs.len(),
{
    let m = jobs.map_values(|e: (Seq<char>, JobSectionV)| section_text(e.0, e.1.patterns));
    if jobs.len() == 0 {
        assert(crate::text::text_of_lines(Seq::<Seq<char>>::empty()) =~= Seq::<char>::empty());
    } else {
        crate::rules::lemma_concat_first(m);
        let r = jobs.skip(1);
        assert(m.skip(1) =~= r.map_values(
            |e: (Seq<char>, JobSectionV)| section_text(e.0, e.1.patterns),
        ));
        lemma_sections_text(r);
        lemma_section_text(jobs[0].0, jobs[0].1.patterns);
        crate::text::lemma_text_of_lines_append(
            section_lines(jobs[0].0, jobs[0].1.patterns),
            lock_lines(r),
        );
    }
}

proof fn lemma_lock_lines_plain(jobs: Seq<(Seq<char>, JobSectionV)>)
    requires
        valid_lock(jobs),
    ensures
        forall|t: int|
            0 <= t < lock_lines(jobs).len() ==> crate::text::plain_line(#[trigger] lock_lines(jobs)[t]),
    decreases jobs.len(),
{
    if jobs.len() > 0 {
        let r = jobs.skip(1);
        assert(valid_lock(r)) by {
            assert forall|i: int, j: int| 0 <= i < j < keys(r).len() implies crate::sorted::lex_lt(
                #[trigger] keys(r)[i],
                #[trigger] keys(r)[j],
            ) by {
                assert(keys(r)[i] == keys(jobs)[i + 1] && keys(r)[j] == keys(jobs)[j + 1]);
            }
            assert forall|i: int| 0 <= i < r.len() implies clean_name(#[trigger] r[i].0) by {
                assert(r[i] == jobs[i + 1]);
            }
            assert forall|i: int| 0 <= i < r.len() implies crate::sorted::strictly_sorted(
                #[trigger] r[i].1.patterns,
            ) by {
                assert(r[i] == jobs[i + 1]);
            }
            assert forall|i: int, j: int|
                0 <= i < r.len() && 0 <= j < r[i].1.patterns.len() implies clean_pattern(
                #[trigger] r[i].1.patterns[j],
            ) by {
                assert(r[i] == jobs[i + 1]);
            }
        }
        lemma_lock_lines_plain(r);
        let n = jobs[0].0;
        let ps = jobs[0].1.patterns;
        let sl = section_lines(n, ps);
        assert(clean_name(n));
        assert forall|t: int| 0 <= t < sl.len() implies crate::text::plain_line(#[trigger] sl[t]) by {
            if t == 1 {
                let h = header_line(n);
                assert forall|k: int| 0 <= k < h.len() implies #[trigger] h[k] != '\n' by {
                    if 1 <= k <= n.len() {
                        assert(h[k] == n[k - 1]);
                    }
                }
            } else if t >= 2 {
                assert(sl[t] == ps[t - 2]);
                assert(clean_pattern(ps[t - 2]));
                lemma_clean_pattern(ps[t - 2]);
                assert(!crate::text::is_ws(ps[t - 2].last()));
            }
        }
        let all = lock_lines(jobs);
        assert forall|t: int| 0 <= t < all.len() implies crate::text::plain_line(#[trigger] all[t]) by {
            if t < sl.len() {
                assert(all[t] == sl[t]);
            } else {
                assert(all[t] == lock_lines(r)[t - sl.len()]);
            }
        }
    }
}

proof fn lemma_read_patterns(
    ls: Seq<Seq<char>>,
    i: int,
    acc: Seq<(Seq<char>, JobSectionV)>,
    n: Seq<char>,
    line: usize,
    ps: Seq<Seq<char>>,
    j: int,
)
    requires
        0 <= j <= ps.len(),
        0 <= i,
        ls.len() >= i + (ps.len() - j),
        forall|t: int| 0 <= t < ps.len() - j ==> #[trigger] ls[i + t] == ps[j + t],
        crate::sorted::strictly_sorted(ps),
        forall|q: int| 0 <= q < ps.len() ==> clean_pattern(#[trigger] ps[q]),
    ensures
        lock_from(ls, i, acc, Some((n, JobSectionV { line, patterns: ps.take(j) }))) == lock_from(
            ls,
            i + (ps.len() - j),
            acc,
            Some((n, JobSectionV { line, patterns: ps })),
        ),
    decreases ps.len() - j,
{
    if j == ps.len() {
        assert(ps.take(j) =~= ps);
    } else {
        let p = ps[j];
        assert(ls[i + 0] == ps[j + 0]);
        assert(clean_pattern(p));
        lemma_clean_pattern(p);
        lemma_no_hash_content(p);
        assert(content_of(ls[i]) == p);
        reveal_strlit("[");
        if crate::text::starts_with(p, "["@) {
            assert(p.take(1)[0] == p[0]);
        }
        assert(section_name(p) is None);
        assert forall|q: int| 0 <= q < ps.take(j).len() implies crate::sorted::lex_lt(
            #[trigger] ps.take(j)[q],
            p,
        ) by {
            assert(ps.take(j)[q] == ps[q]);
        }
        crate::sorted::lemma_set_insert_last(ps.take(j), p);
        assert(ps.take(j).push(p) =~= ps.take(j + 1));
        assert forall|t: int| 0 <= t < ps.len() - (j + 1) implies #[trigger] ls[(i + 1) + t] == ps[(j
            + 1) + t] by {
            assert(ls[i + (t + 1)] == ps[j + (t + 1)]);
        }
        lemma_read_patterns(ls, i + 1, acc, n, line, ps, j + 1);
    }
}

proof fn lemma_get_below(s: Seq<(Seq<char>, JobSectionV)>, n: Seq<char>, i: int)
    requires
        0 <= i,
        forall|q: int| 0 <= q < s.len() ==> crate::sorted::lex_lt(#[trigger] s[q].0, n),
    ensures
        crate::sorted::map_get_from(s, n, i) is None,
    decreases s.len() - i,
{
    if i < s.len() {
        crate::sorted::lemma_lex_irrefl(n);
        assert(crate::sorted::lex_lt(s[i].0, n));
        lemma_get_below(s, n, i + 1);
    }
}

proof fn lemma_read_sections(
    ls: Seq<Seq<char>>,
    i: int,
    acc: Seq<(Seq<char>, JobSectionV)>,
    cur: Option<(Seq<char>, JobSectionV)>,
    jobs: Seq<(Seq<char>, JobSectionV)>,
)
    requires
        0 <= i,
        ls.len() == i + lock_lines(jobs).len(),
        forall|t: int| 0 <= t < lock_lines(jobs).len() ==> #[trigger] ls[i + t] == lock_lines(jobs)[t],
        valid_lock(jobs),
        forall|q: int, x: int|
            0 <= q < acc.len() && 0 <= x < jobs.len() ==> crate::sorted::lex_lt(
                #[trigger] acc[q].0,
                #[trigger] jobs[x].0,
            ),
        forall|q: int|
            0 <= q < acc.len() ==> (cur matches Some((cn, _)) ==> crate::sorted::lex_lt(
                #[trigger] acc[q].0,
                cn,
            )),
        forall|x: int|
            0 <= x < jobs.len() ==> (cur matches Some((cn, _)) ==> crate::sorted::lex_lt(
                cn,
                #[trigger] jobs[x].0,
            )),
    ensures
        lock_from(ls, i, acc, cur) matches Ok(r) && shape(r) == shape(flush(acc, cur)) + shape(jobs),
    decreases jobs.len(),
{
    let f = flush(acc, cur);
    match cur {
        Some((cn, cs)) => {
            crate::sorted::lemma_map_insert_last(acc, cn, cs);
        },
        None => {},
    }
    if jobs.len() == 0 {
        assert(shape(jobs) =~= Seq::<(Seq<char>, Seq<Seq<char>>)>::empty());
        assert(shape(f) + shape(jobs) =~= shape(f));
    } else {
        let n = jobs[0].0;
        let ps = jobs[0].1.patterns;
        let rest = jobs.skip(1);
        let sl = section_lines(n, ps);
        assert(lock_lines(jobs) == sl + lock_lines(rest));
        assert(ls[i + 0] == sl[0]);
        assert(ls[i + 1] == sl[1]);
        // The blank line.
        assert(content_of(Seq::<char>::empty()) =~= Seq::<char>::empty());
        // The header line.
        assert(clean_name(n));
        let h = header_line(n);
        assert forall|k: int| 0 <= k < h.len() implies #[trigger] h[k] != '#' by {
            if 1 <= k <= n.len() {
                assert(h[k] == n[k - 1]);
            }
        }
        lemma_no_hash_content(h);
        reveal_strlit("[");
        reveal_strlit("]");
        assert(h.take(1) =~= "["@);
        assert(h.skip(1) =~= n + seq![']']);
        assert((n + seq![']']).skip(n.len() as int) =~= "]"@);
        assert((n + seq![']']).take(n.len() as int) =~= n);
        assert(section_name(h) == Some(n));
        crate::text::lemma_trim_id(n);
        // The name is not taken.
        assert forall|q: int| 0 <= q < acc.len() implies crate::sorted::lex_lt(#[trigger] acc[q].0, n) by {
            assert(crate::sorted::lex_lt(acc[q].0, jobs[0].0));
        }
        lemma_get_below(acc, n, 0);
        match cur {
            Some((cn, cs)) => {
                assert(crate::sorted::lex_lt(cn, jobs[0].0));
                crate::sorted::lemma_lex_irrefl(n);
            },
            None => {},
        }
        assert(!taken(acc, cur, n));
        let line0: usize = (i + 2) as usize;
        let e = Seq::<Seq<char>>::empty();
        assert(lock_from(ls, i, acc, cur) == lock_from(ls, i + 1, acc, cur));
        assert(lock_from(ls, i + 1, acc, cur) == lock_from(
            ls,
            i + 2,
            f,
            Some((n, JobSectionV { line: line0, patterns: e })),
        ));
        // The patterns.
        assert(valid_lock(jobs));
        assert(crate::sorted::strictly_sorted(jobs[0].1.patterns));
        assert forall|q: int| 0 <= q < ps.len() implies clean_pattern(#[trigger] ps[q]) by {
            assert(clean_pattern(jobs[0].1.patterns[q]));
        }
        assert forall|t: int| 0 <= t < ps.len() - 0 implies #[trigger] ls[(i + 2) + t] == ps[0 + t] by {
            assert(ls[i + (t + 2)] == lock_lines(jobs)[t + 2]);
            assert(lock_lines(jobs)[t + 2] == sl[t + 2]);
        }
        assert(ps.take(0) =~= e);
        lemma_read_patterns(ls, i + 2, f, n, line0, ps, 0);
        let sec = JobSectionV { line: line0, patterns: ps };
        let i2 = i + 2 + ps.len();
        // The sections after it.
        assert(valid_lock(rest)) by {
            assert forall|a: int, b: int| 0 <= a < b < keys(rest).len() implies crate::sorted::lex_lt(
                #[trigger] keys(rest)[a],
                #[trigger] keys(rest)[b],
            ) by {
                assert(keys(rest)[a] == keys(jobs)[a + 1] && keys(rest)[b] == keys(jobs)[b + 1]);
            }
            assert forall|a: int| 0 <= a < rest.len() implies clean_name(#[trigger] rest[a].0) by {
                assert(rest[a] == jobs[a + 1]);
            }
            assert forall|a: int| 0 <= a < rest.len() implies crate::sorted::strictly_sorted(
                #[trigger] rest[a].1.patterns,
            ) by {
                assert(rest[a] == jobs[a + 1]);
            }
            assert forall|a: int, b: int|
                0 <= a < rest.len() && 0 <= b < rest[a].1.patterns.len() implies clean_pattern(
                #[trigger] rest[a].1.patterns[b],
            ) by {
                assert(rest[a] == jobs[a + 1]);
            }
        }
        assert forall|t: int| 0 <= t < lock_lines(rest).len() implies #[trigger] ls[i2 + t]
            == lock_lines(rest)[t] by {
            assert(ls[i + (sl.len() + t)] == lock_lines(jobs)[sl.len() + t]);
        }
        assert forall|q: int, x: int| 0 <= q < f.len() && 0 <= x < rest.len() implies crate::sorted::lex_lt(
            #[trigger] f[q].0,
            #[trigger] rest[x].0,
        ) by {
            assert(rest[x] == jobs[x + 1]);
            if q < acc.len() {
                assert(f[q] == acc[q]);
            } else {
                assert(cur is Some);
            }
        }
        assert forall|q: int| 0 <= q < f.len() implies crate::sorted::lex_lt(#[trigger] f[q].0, n) by {
            if q < acc.len() {
                assert(f[q] == acc[q]);
            } else {
                assert(cur is Some);
            }
        }
        assert forall|x: int| 0 <= x < rest.len() implies crate::sorted::lex_lt(n, #[trigger] rest[x].0) by {
            assert(rest[x] == jobs[x + 1]);
            assert(keys(jobs)[0] == jobs[0].0 && keys(jobs)[x + 1] == jobs[x + 1].0);
        }
        lemma_read_sections(ls, i2, f, Some((n, sec)), rest);
        crate::sorted::lemma_map_insert_last(f, n, sec);
        assert(shape(f.push((n, sec))) =~= shape(f).push((n, ps)));
        assert(shape(jobs) =~= seq![(n, ps)] + shape(rest));
        assert(shape(f).push((n, ps)) + shape(rest) =~= shape(f) + shape(jobs));
    }
}

/// Reading back a rendered lock gives the same sections with the same
/// patterns (only the line numbers are those of the new text), so rendering
/// again gives the same bytes: for every lock that the parser can produce,
/// render then parse then render is render.
pub proof fn rendered_lock_reads_back(jobs: Seq<(Seq<char>, JobSectionV)>)
    requires
        valid_lock(jobs),
    ensures
        parse_spec(render_spec(jobs)) matches Ok(r) && shape(r) == shape(jobs) && render_spec(r)
            == render_spec(jobs),
{
    let h1 = "# egress.lock — 잡별 허용 통신 목적지 (just-shield 층 ⓒ, ADR-0006)."@;
    let h2 = "# 여기 적힌 잡만 대조 대상 — 미등재 목적지 관찰 = 🔴. 와일드카드는 사람이 명시적으로만."@;
    reveal_strlit("# egress.lock — 잡별 허용 통신 목적지 (just-shield 층 ⓒ, ADR-0006).");
    reveal_strlit("# 여기 적힌 잡만 대조 대상 — 미등재 목적지 관찰 = 🔴. 와일드카드는 사람이 명시적으로만.");
    reveal_strlit("# egress.lock — 잡별 허용 통신 목적지 (just-shield 층 ⓒ, ADR-0006).\n# 여기 적힌 잡만 대조 대상 — 미등재 목적지 관찰 = 🔴. 와일드카드는 사람이 명시적으로만.\n");
    let hs = seq![h1, h2];
    crate::text::lemma_text_of_lines_step(hs, 0);
    crate::text::lemma_text_of_lines_step(hs, 1);
    assert(hs.take(0) =~= Seq::<Seq<char>>::empty());
    assert(hs.take(2) =~= hs);
    assert(LOCK_HEADER@ =~= crate::text::text_of_lines(hs));
    lemma_sections_text(jobs);
    let body = lock_lines(jobs);
    crate::text::lemma_text_of_lines_append(hs, body);
    let all = hs + body;
    assert(render_spec(jobs) == crate::text::text_of_lines(all));
    lemma_lock_lines_plain(jobs);
    assert forall|t: int| 0 <= t < all.len() implies crate::text::plain_line(#[trigger] all[t]) by {
        if t >= 2 {
            assert(all[t] == body[t - 2]);
        } else if t == 0 {
            assert(all[0] == h1);
        } else {
            assert(all[1] == h2);
        }
    }
    crate::text::lemma_lines_of_text(all);
    let e = Seq::<(Seq<char>, JobSectionV)>::empty();
    crate::text::lemma_index_of(h1, '#', 0);
    crate::text::lemma_index_of(h2, '#', 0);
    assert(h1.take(0) =~= Seq::<char>::empty());
    assert(h2.take(0) =~= Seq::<char>::empty());
    assert(content_of(all[0]) =~= Seq::<char>::empty());
    assert(content_of(all[1]) =~= Seq::<char>::empty());
    assert(lock_from(all, 0, e, None) == lock_from(all, 1, e, None));
    assert(lock_from(all, 1, e, None) == lock_from(all, 2, e, None));
    assert forall|t: int| 0 <= t < body.len() implies #[trigger] all[2 + t] == body[t] by {}
    lemma_read_sections(all, 2, e, None, jobs);
    let r = lock_from(all, 2, e, None)->Ok_0;
    assert(shape(e) =~= Seq::<(Seq<char>, Seq<Seq<char>>)>::empty());
    assert(shape(r) =~= shape(jobs));
    assert(r.len() == jobs.len());
    assert forall|k: int| 0 <= k < r.len() implies r[k].0 == jobs[k].0 && r[k].1.patterns
        == jobs[k].1.patterns by {
        assert(shape(r)[k] == shape(jobs)[k]);
    }
    assert(r.map_values(|x: (Seq<char>, JobSectionV)| section_text(x.0, x.1.patterns))
        =~= jobs.map_values(|x: (Seq<char>, JobSectionV)| section_text(x.0, x.1.patterns)));
}

// ------------------------------------------------------------------
// Every lock that parses is one of those
// ------------------------------------------------------------------
/// No `#` and no line break.
pub open spec fn no_hash_or_break(s: Seq<char>) -> bool {
    forall|k: int| 0 <= k < s.len() ==> #[trigger] s[k] != '#' && s[k] != '\n'
}

/// Where a parse stands: the closed sections form a valid lock, and the open
/// section (if any) is clean and not among them.
pub open spec fn parse_state_ok(
    acc: Seq<(Seq<char>, JobSectionV)>,
    cur: Option<(Seq<char>, JobSectionV)>,
) -> bool {
    &&& valid_lock(acc)
    &&& cur matches Some((n, sec)) ==> {
        &&& clean_name(n)
        &&& crate::sorted::strictly_sorted(sec.patterns)
        &&& forall|j: int| 0 <= j < sec.patterns.len() ==> clean_pattern(#[trigger] sec.patterns[j])
        &&& map_get(acc, n) is None
    }
}

proof fn lemma_rstrip_last(s: Seq<char>, c: char)
    ensures
        rstrip_char(s, c).len() <= s.len(),
        forall|k: int| 0 <= k < rstrip_char(s, c).len() ==> #[trigger] rstrip_char(s, c)[k] == s[k],
        rstrip_char(s, c).len() > 0 ==> rstrip_char(s, c).last() != c,
    decreases s.len(),
{
    if s.len() > 0 && s.last() == c {
        lemma_rstrip_last(s.drop_last(), c);
    }
}

/// A normalized pattern that validates is its own normalization.
proof fn lemma_normalized_is_clean(x: Seq<char>)
    requires
        validate_spec(normalize_spec(x)) is Ok,
    ensures
        clean_pattern(normalize_spec(x)),
{
    let t = trim(x);
    let r = rstrip_char(t, '.');
    let p = normalize_spec(x);
    assert(p == ascii_lower(r));
    lemma_clean_pattern(p);
    crate::text::lemma_trim_id(p);
    lemma_rstrip_last(t, '.');
    assert(r.len() == p.len());
    assert(p.last() == crate::text::lower_char(r.last()));
    assert(p.last() != '.');
    assert(rstrip_char(p, '.') == p);
    assert(ascii_lower(p) =~= p) by {
        assert forall|k: int| 0 <= k < p.len() implies #[trigger] ascii_lower(p)[k] == p[k] by {
            assert(p[k] == crate::text::lower_char(r[k]));
        }
    }
}

proof fn lemma_flush_ok(acc: Seq<(Seq<char>, JobSectionV)>, cur: Option<(Seq<char>, JobSectionV)>)
    requires
        parse_state_ok(acc, cur),
    ensures
        valid_lock(flush(acc, cur)),
        forall|i: int|
            0 <= i < flush(acc, cur).len() ==> acc.contains(#[trigger] flush(acc, cur)[i]) || (
            cur matches Some(e) && flush(acc, cur)[i] == e),
{
    match cur {
        Some((n, sec)) => {
            crate::sorted::lemma_map_insert_sorted(acc, n, sec);
            let f = map_insert(acc, n, sec);
            assert forall|i: int| 0 <= i < f.len() implies clean_name(#[trigger] f[i].0)
                && crate::sorted::strictly_sorted(f[i].1.patterns) && (forall|j: int|
                0 <= j < f[i].1.patterns.len() ==> clean_pattern(#[trigger] f[i].1.patterns[j])) by {
                if f[i] != (n, sec) {
                    assert(acc.contains(f[i]));
                    let q = choose|q: int| 0 <= q < acc.len() && acc[q] == f[i];
                    assert(clean_name(acc[q].0));
                    assert(crate::sorted::strictly_sorted(acc[q].1.patterns));
                    assert forall|j: int| 0 <= j < f[i].1.patterns.len() implies clean_pattern(
                        #[trigger] f[i].1.patterns[j],
                    ) by {
                        assert(clean_pattern(acc[q].1.patterns[j]));
                    }
                }
            }
        },
        None => {
            assert forall|i: int| 0 <= i < acc.len() implies acc.contains(#[trigger] acc[i]) by {}
        },
    }
}

proof fn lemma_no_key_after_flush(
    acc: Seq<(Seq<char>, JobSectionV)>,
    cur: Option<(Seq<char>, JobSectionV)>,
    name: Seq<char>,
)
    requires
        parse_state_ok(acc, cur),
        !taken(acc, cur, name),
    ensures
        map_get(flush(acc, cur), name) is None,
{
    lemma_flush_ok(acc, cur);
    crate::sorted::lemma_map_get_none(acc, name, 0);
    let f = flush(acc, cur);
    assert forall|q: int| 0 <= q < f.len() implies (#[trigger] f[q]).0 != name by {
        if acc.contains(f[q]) {
            let z = choose|z: int| 0 <= z < acc.len() && acc[z] == f[q];
            assert(acc[z].0 != name);
        }
    }
    crate::sorted::lemma_map_get_none(f, name, 0);
}

proof fn lemma_clean_sub(s: Seq<char>, a: int, b: int)
    requires
        no_hash_or_break(s),
        0 <= a <= b <= s.len(),
    ensures
        no_hash_or_break(s.subrange(a, b)),
{
    assert forall|k: int| 0 <= k < s.subrange(a, b).len() implies #[trigger] s.subrange(a, b)[k]
        != '#' && s.subrange(a, b)[k] != '\n' by {
        assert(s.subrange(a, b)[k] == s[a + k]);
    }
}

proof fn lemma_clean_trim(s: Seq<char>)
    requires
        no_hash_or_break(s),
    ensures
        no_hash_or_break(trim(s)),
{
    crate::text::lemma_trim_shape(s);
    assert forall|k: int| 0 <= k < trim(s).len() implies #[trigger] trim(s)[k] != '#' && trim(s)[k]
        != '\n' by {
        assert(trim(s)[k] == s[crate::text::skip_ws(s, 0) + k]);
    }
}

/// The content of a line that holds no line break holds neither `#` nor a
/// line break.
proof fn lemma_content_clean(raw: Seq<char>)
    requires
        forall|k: int| 0 <= k < raw.len() ==> #[trigger] raw[k] != '\n',
    ensures
        no_hash_or_break(content_of(raw)),
{
    crate::text::lemma_index_of(raw, '#', 0);
    let h = index_of(raw, '#', 0);
    let t = raw.take(h);
    assert forall|k: int| 0 <= k < t.len() implies #[trigger] t[k] != '#' && t[k] != '\n' by {
        assert(t[k] == raw[k]);
    }
    lemma_clean_trim(t);
}

proof fn lemma_parse_ok(
    ls: Seq<Seq<char>>,
    i: int,
    acc: Seq<(Seq<char>, JobSectionV)>,
    cur: Option<(Seq<char>, JobSectionV)>,
)
    requires
        0 <= i,
        forall|x: int, k: int| 0 <= x < ls.len() && 0 <= k < ls[x].len() ==> #[trigger] ls[x][k] != '\n',
        parse_state_ok(acc, cur),
    ensures
        lock_from(ls, i, acc, cur) matches Ok(r) ==> valid_lock(r),
    decreases ls.len() - i,
{
    if i >= ls.len() {
        lemma_flush_ok(acc, cur);
    } else {
        let raw = ls[i];
        assert forall|k: int| 0 <= k < raw.len() implies #[trigger] raw[k] != '\n' by {
            assert(ls[i][k] != '\n');
        }
        let line = content_of(raw);
        lemma_content_clean(raw);
        if line.len() == 0 {
            lemma_parse_ok(ls, i + 1, acc, cur);
        } else {
            match section_name(line) {
                Some(rn) => {
                    let name = trim(rn);
                    if name.len() > 0 && !taken(acc, cur, name) {
                        // `rn` is a stretch of `line`.
                        reveal_strlit("[");
                        reveal_strlit("]");
                        let r1 = line.skip(1);
                        assert(r1 =~= line.subrange(1, line.len() as int));
                        lemma_clean_sub(line, 1, line.len() as int);
                        assert(rn =~= r1.subrange(0, r1.len() - 1));
                        lemma_clean_sub(r1, 0, r1.len() - 1);
                        lemma_clean_trim(rn);
                        crate::text::lemma_trim_shape(rn);
                        assert(clean_name(name));
                        lemma_flush_ok(acc, cur);
                        lemma_no_key_after_flush(acc, cur, name);
                        let ns = JobSectionV { line: (i + 1) as usize, patterns: Seq::empty() };
                        assert(parse_state_ok(flush(acc, cur), Some((name, ns))));
                        lemma_parse_ok(ls, i + 1, flush(acc, cur), Some((name, ns)));
                    }
                },
                None => match cur {
                    None => {},
                    Some((n, sec)) => {
                        let p = normalize_spec(line);
                        if validate_spec(p) is Ok {
                            lemma_normalized_is_clean(line);
                            crate::sorted::lemma_set_insert_sorted(sec.patterns, p);
                            let np = set_insert(sec.patterns, p);
                            assert forall|j: int| 0 <= j < np.len() implies clean_pattern(
                                #[trigger] np[j],
                            ) by {
                                if np[j] != p {
                                    let z = choose|z: int|
                                        0 <= z < sec.patterns.len() && sec.patterns[z] == np[j];
                                    assert(clean_pattern(sec.patterns[z]));
                                }
                            }
                            let ns = JobSectionV { line: sec.line, patterns: np };
                            assert(parse_state_ok(acc, Some((n, ns))));
                            lemma_parse_ok(ls, i + 1, acc, Some((n, ns)));
                        }
                    },
                },
            }
        }
    }
}

/// Every lock that the parser accepts is valid: sections in name order with
/// clean names, patterns in order, clean and normalized. So for every text
/// that parses, rendering the lock and parsing it again gives it back
/// ([`rendered_lock_reads_back`]).
pub proof fn parsed_locks_are_valid(content: Seq<char>)
    ensures
        parse_spec(content) matches Ok(jobs) ==> valid_lock(jobs),
{
    crate::text::lemma_lines_have_no_break(content, 0);
    let e = Seq::<(Seq<char>, JobSectionV)>::empty();
    assert(keys(e) =~= Seq::<Seq<char>>::empty());
    assert(parse_state_ok(e, None));
    lemma_parse_ok(lines(content), 0, e, None);
}

} // verus!
