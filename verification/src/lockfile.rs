//! shield.lock: the tag-to-SHA pairs recorded when trust was decided.
//!
//! The state lives in the repository, in this sorted text file, so that it
//! diffs well and every change of trust goes through review. Reading and
//! writing the file is the program's part; its text is made and read here.
use vstd::prelude::*;
use crate::sorted::{keys, map_get, map_insert, strictly_sorted, StrMap};
use crate::text::{
    chars_of, extend, extend_str, lines, lines_v, plain_line, split_once, split_once_v,
    starts_with, starts_with_str, string_of, text_of_lines, trim, trim_v, vviews,
};

verus! {

pub const FILE_NAME: &'static str = "shield.lock";

pub const HEADER: &'static str = "# shield.lock — just-shield가 박제한 태그→SHA 대응. 직접 수정하지 말 것.\n# 갱신: just-shield lock\n";

/// The recorded pairs: keys are `owner/repo@ref`, values the commit SHA that
/// the ref pointed at when it was recorded.
pub struct Lockfile {
    pub entries: StrMap<String>,
}

/// The model of the entries.
pub open spec fn entries_view(m: Seq<(Seq<char>, String)>) -> Seq<(Seq<char>, Seq<char>)> {
    m.map_values(|e: (Seq<char>, String)| (e.0, e.1@))
}

impl Lockfile {
    pub open spec fn view(&self) -> Seq<(Seq<char>, Seq<char>)> {
        entries_view(self.entries.view())
    }
}

impl Default for Lockfile {
    fn default() -> (r: Self)
        ensures
            r.view() == Seq::<(Seq<char>, Seq<char>)>::empty(),
    {
        let r = Lockfile { entries: StrMap::new() };
        assert(r.view() =~= Seq::<(Seq<char>, Seq<char>)>::empty());
        r
    }
}

/// The key of a repository and ref.
pub open spec fn key_spec(repo: Seq<char>, git_ref: Seq<char>) -> Seq<char> {
    repo + seq!['@'] + git_ref
}

/// The pair a line of the file holds: blank lines and `#` comments hold none,
/// nor does a line without a space; the key is what comes before the first
/// space and the SHA is the trimmed rest.
pub open spec fn lock_line(line: Seq<char>) -> Option<(Seq<char>, Seq<char>)> {
    let t = trim(line);
    if t.len() == 0 || starts_with(t, seq!['#']) {
        None
    } else {
        match split_once(t, ' ') {
            Some((k, v)) => Some((k, trim(v))),
            None => None,
        }
    }
}

/// Reads lines `i..` into the pairs `acc`; a later line for a key wins.
pub open spec fn pairs_from(ls: Seq<Seq<char>>, i: int, acc: Seq<(Seq<char>, Seq<char>)>) -> Seq<
    (Seq<char>, Seq<char>),
>
    decreases ls.len() - i,
{
    if i < 0 || i >= ls.len() {
        acc
    } else {
        match lock_line(ls[i]) {
            Some((k, v)) => pairs_from(ls, i + 1, map_insert(acc, k, v)),
            None => pairs_from(ls, i + 1, acc),
        }
    }
}

/// The pairs that a shield.lock text holds, in key order.
pub open spec fn parse_spec(content: Seq<char>) -> Seq<(Seq<char>, Seq<char>)> {
    pairs_from(lines(content), 0, Seq::empty())
}

/// The line that records one pair.
pub open spec fn pair_line(e: (Seq<char>, Seq<char>)) -> Seq<char> {
    e.0 + seq![' '] + e.1
}

/// The text of a shield.lock: the header, then one `key sha` line per pair in
/// key order, so the same pairs always give the same bytes.
pub open spec fn render_spec(m: Seq<(Seq<char>, Seq<char>)>) -> Seq<char> {
    HEADER@ + text_of_lines(m.map_values(|e: (Seq<char>, Seq<char>)| pair_line(e)))
}

proof fn lemma_entries_insert(m: Seq<(Seq<char>, String)>, k: Seq<char>, x: String)
    ensures
        entries_view(map_insert(m, k, x)) == map_insert(entries_view(m), k, x@),
{
    let t = entries_view(m);
    assert(keys(t) =~= keys(m));
    let p = crate::sorted::insert_pos(keys(m), k, 0);
    crate::sorted::lemma_insert_pos(keys(m), k, 0);
    if p < m.len() && m[p].0 == k {
        assert(entries_view(m.update(p, (k, x))) =~= t.update(p, (k, x@)));
    } else {
        assert(entries_view(m.insert(p, (k, x))) =~= t.insert(p, (k, x@)));
    }
}

proof fn lemma_entries_get(m: Seq<(Seq<char>, String)>, k: Seq<char>, i: int)
    requires
        0 <= i,
    ensures
        match crate::sorted::map_get_from(m, k, i) {
            Some(x) => crate::sorted::map_get_from(entries_view(m), k, i) == Some(x@),
            None => crate::sorted::map_get_from(entries_view(m), k, i) is None,
        },
    decreases m.len() - i,
{
    if i < m.len() && m[i].0 != k {
        lemma_entries_get(m, k, i + 1);
    }
}

impl Lockfile {
    /// The key under which `repo` at `git_ref` is recorded: `repo@ref`.
    pub fn key(repo: &str, git_ref: &str) -> (r: String)
        ensures
            r@ == key_spec(repo@, git_ref@),
    {
        let mut v = chars_of(repo);
        v.push('@');
        extend_str(&mut v, git_ref);
        string_of(&v)
    }

    /// The SHA recorded for `repo` at `git_ref`.
    pub fn get(&self, repo: &str, git_ref: &str) -> (r: Option<&str>)
        ensures
            match r {
                Some(s) => map_get(self.view(), key_spec(repo@, git_ref@)) == Some(s@),
                None => map_get(self.view(), key_spec(repo@, git_ref@)) is None,
            },
    {
        let k = Self::key(repo, git_ref);
        proof {
            lemma_entries_get(self.entries.view(), k@, 0);
        }
        match self.entries.get(k.as_str()) {
            Some(s) => Some(s.as_str()),
            None => None,
        }
    }

    /// Reads the text of a shield.lock.
    pub fn parse(content: &str) -> (r: Lockfile)
        ensures
            r.view() == parse_spec(content@),
    {
        let cv = chars_of(content);
        let ls = lines_v(&cv);
        let ghost lv = vviews(ls@);
        let mut entries: StrMap<String> = StrMap::new();
        assert(entries_view(entries.view()) =~= Seq::<(Seq<char>, Seq<char>)>::empty());
        let mut i: usize = 0;
        while i < ls.len()
            invariant
                lv == vviews(ls@),
                lv == lines(content@),
                i <= ls@.len(),
                parse_spec(content@) == pairs_from(lv, i as int, entries_view(entries.view())),
            decreases ls@.len() - i,
        {
            let t = trim_v(&ls[i]);
            proof {
                reveal_strlit("#");
                assert("#"@ =~= seq!['#']);
            }
            if t.len() > 0 && !starts_with_str(&t, "#") {
                match split_once_v(&t, ' ') {
                    Some((k, v)) => {
                        let sha = trim_v(&v);
                        let ks = string_of(&k);
                        let vs = string_of(&sha);
                        proof {
                            lemma_entries_insert(entries.view(), ks@, vs);
                        }
                        entries.insert(ks, vs);
                    },
                    None => {},
                }
            }
            i = i + 1;
        }
        Lockfile { entries }
    }

    /// The text of this shield.lock.
    pub fn render(&self) -> (s: String)
        ensures
            s@ == render_spec(self.view()),
    {
        let ghost m = self.view();
        let ghost ls = m.map_values(|e: (Seq<char>, Seq<char>)| pair_line(e));
        let mut out: Vec<char> = Vec::new();
        extend_str(&mut out, HEADER);
        let ghost head = out@;
        let mut i: usize = 0;
        while i < self.entries.len()
            invariant
                m == self.view(),
                ls == m.map_values(|e: (Seq<char>, Seq<char>)| pair_line(e)),
                i <= m.len(),
                out@ == head + text_of_lines(ls.take(i as int)),
            decreases m.len() - i,
        {
            let (k, v) = self.entries.entry(i);
            proof {
                crate::text::lemma_text_of_lines_step(ls, i as int);
            }
            let ghost b = out@;
            extend_str(&mut out, k.as_str());
            out.push(' ');
            extend_str(&mut out, v.as_str());
            out.push('\n');
            assert(out@ =~= b + ls[i as int].push('\n'));
            i = i + 1;
        }
        assert(ls.take(m.len() as int) =~= ls);
        string_of(&out)
    }
}

// ------------------------------------------------------------------
// Reading back what was written
// ------------------------------------------------------------------
/// A key that the file can hold: not empty, no whitespace, not a comment.
pub open spec fn clean_key(k: Seq<char>) -> bool {
    &&& k.len() > 0
    &&& k[0] != '#'
    &&& forall|i: int| 0 <= i < k.len() ==> !crate::text::is_ws(#[trigger] k[i])
}

/// A SHA that the file can hold: not empty, no whitespace at either end, no
/// line break.
pub open spec fn clean_value(v: Seq<char>) -> bool {
    &&& v.len() > 0
    &&& !crate::text::is_ws(v[0])
    &&& !crate::text::is_ws(v.last())
    &&& forall|i: int| 0 <= i < v.len() ==> #[trigger] v[i] != '\n'
}

proof fn lemma_pair_line(e: (Seq<char>, Seq<char>))
    requires
        clean_key(e.0),
        clean_value(e.1),
    ensures
        plain_line(pair_line(e)),
        lock_line(pair_line(e)) == Some(e),
{
    let (k, v) = e;
    let l = pair_line(e);
    assert(l[0] == k[0]);
    assert(l.last() == v.last());
    assert(!crate::text::is_ws(' ') ==> false);
    crate::text::lemma_trim_id(l);
    crate::text::lemma_trim_id(v);
    assert forall|i: int| 0 <= i < l.len() implies #[trigger] l[i] != '\n' by {
        if i < k.len() {
            assert(l[i] == k[i]);
            assert(!crate::text::is_ws(k[i]));
        } else if i > k.len() {
            assert(l[i] == v[i - k.len() - 1]);
        }
    }
    crate::text::lemma_index_of(l, ' ', 0);
    let p = crate::text::index_of(l, ' ', 0);
    if p < k.len() {
        assert(l[p] == k[p]);
        assert(!crate::text::is_ws(k[p]));
    }
    assert(l[k.len() as int] == ' ');
    assert(p == k.len());
    assert(l.take(p) =~= k);
    assert(l.skip(p + 1) =~= v);
    assert(!starts_with(l, seq!['#'])) by {
        if starts_with(l, seq!['#']) {
            assert(l.take(1)[0] == l[0]);
        }
    }
}

proof fn lemma_pairs_tail(m: Seq<(Seq<char>, Seq<char>)>, ls: Seq<Seq<char>>, j: int)
    requires
        strictly_sorted(keys(m)),
        forall|i: int| 0 <= i < m.len() ==> clean_key(#[trigger] m[i].0) && clean_value(m[i].1),
        ls.len() == m.len() + 2,
        forall|i: int| 0 <= i < m.len() ==> #[trigger] ls[i + 2] == pair_line(m[i]),
        0 <= j <= m.len(),
    ensures
        pairs_from(ls, j + 2, m.take(j)) == m,
    decreases m.len() - j,
{
    if j == m.len() {
        assert(m.take(j) =~= m);
    } else {
        lemma_pair_line(m[j]);
        assert(ls[j + 2] == pair_line(m[j]));
        assert forall|i: int| 0 <= i < m.take(j).len() implies crate::sorted::lex_lt(
            #[trigger] m.take(j)[i].0,
            m[j].0,
        ) by {
            assert(keys(m)[i] == m[i].0 && keys(m)[j] == m[j].0);
        }
        crate::sorted::lemma_map_insert_last(m.take(j), m[j].0, m[j].1);
        assert(m.take(j).push((m[j].0, m[j].1)) =~= m.take(j + 1));
        lemma_pairs_tail(m, ls, j + 1);
    }
}

/// Reading back a rendered shield.lock gives the same pairs, for pairs in key
/// order whose keys and SHAs the format can hold: render, then parse, is the
/// identity.
pub proof fn parse_after_render_is_identity(m: Seq<(Seq<char>, Seq<char>)>)
    requires
        strictly_sorted(keys(m)),
        forall|i: int| 0 <= i < m.len() ==> clean_key(#[trigger] m[i].0) && clean_value(m[i].1),
    ensures
        parse_spec(render_spec(m)) == m,
{
    let h1 = "# shield.lock — just-shield가 박제한 태그→SHA 대응. 직접 수정하지 말 것."@;
    let h2 = "# 갱신: just-shield lock"@;
    reveal_strlit("# shield.lock — just-shield가 박제한 태그→SHA 대응. 직접 수정하지 말 것.");
    reveal_strlit("# 갱신: just-shield lock");
    reveal_strlit("# shield.lock — just-shield가 박제한 태그→SHA 대응. 직접 수정하지 말 것.\n# 갱신: just-shield lock\n");
    let hs = seq![h1, h2];
    crate::text::lemma_text_of_lines_step(hs, 0);
    crate::text::lemma_text_of_lines_step(hs, 1);
    assert(hs.take(0) =~= Seq::<Seq<char>>::empty());
    assert(hs.take(2) =~= hs);
    assert(text_of_lines(hs) =~= h1.push('\n') + h2.push('\n'));
    assert(HEADER@ =~= text_of_lines(hs));
    let pl = m.map_values(|e: (Seq<char>, Seq<char>)| pair_line(e));
    crate::text::lemma_text_of_lines_append(hs, pl);
    let all = hs + pl;
    assert forall|i: int| 0 <= i < all.len() implies plain_line(#[trigger] all[i]) by {
        if i >= 2 {
            let j = i - 2;
            assert(clean_key(m[j].0) && clean_value(m[j].1));
            lemma_pair_line(m[j]);
            assert(all[i] == pl[j]);
        } else if i == 0 {
            assert(all[0] == h1);
        } else {
            assert(all[1] == h2);
        }
    }
    crate::text::lemma_lines_of_text(all);
    assert(render_spec(m) == text_of_lines(all));
    assert(lines(render_spec(m)) == all);
    crate::text::lemma_trim_id(h1);
    crate::text::lemma_trim_id(h2);
    assert(h1.take(1) =~= seq!['#']);
    assert(h2.take(1) =~= seq!['#']);
    assert(lock_line(all[0]) is None);
    assert(lock_line(all[1]) is None);
    assert forall|i: int| 0 <= i < m.len() implies #[trigger] all[i + 2] == pair_line(m[i]) by {
        assert(all[i + 2] == pl[i]);
    }
    lemma_pairs_tail(m, all, 0);
    let e = Seq::<(Seq<char>, Seq<char>)>::empty();
    assert(m.take(0) =~= e);
    assert(pairs_from(all, 0, e) == pairs_from(all, 1, e));
    assert(pairs_from(all, 1, e) == pairs_from(all, 2, e));
}

// ------------------------------------------------------------------
// Recording the refs of a repository
// ------------------------------------------------------------------
/// What recording did: how many refs were written, and those left out with
/// the reason.
pub struct LockOutcome {
    pub written: usize,
    pub skipped: Vec<(String, String)>,
}

/// Where recording stands: the pairs recorded and the refs left out.
pub struct RecordStateV {
    pub lock: Seq<(Seq<char>, Seq<char>)>,
    pub skipped: Seq<(Seq<char>, Seq<char>)>,
}

/// One ref handled: a ref seen before is left as it is; otherwise its current
/// SHA is recorded, or it is left out with the reason (`err` is the text of a
/// failed lookup's error).
pub open spec fn record_step(
    st: RecordStateV,
    target: Option<(Seq<char>, Seq<char>)>,
    ans: crate::github_facts::Answer<Seq<char>>,
    err: Seq<char>,
) -> RecordStateV {
    match target {
        None => st,
        Some((repo, r)) => {
            let key = key_spec(repo, r);
            if map_get(st.lock, key) is Some || map_get(st.skipped, key) is Some {
                st
            } else {
                match ans {
                    crate::github_facts::Answer::Known(sha) => RecordStateV {
                        lock: map_insert(st.lock, key, sha),
                        skipped: st.skipped,
                    },
                    crate::github_facts::Answer::Unknown => RecordStateV {
                        lock: st.lock,
                        skipped: map_insert(st.skipped, key, crate::fix::NOT_FOUND@),
                    },
                    crate::github_facts::Answer::Failed => RecordStateV {
                        lock: st.lock,
                        skipped: map_insert(st.skipped, key, crate::fix::FAILED@ + err),
                    },
                }
            }
        },
    }
}

/// The refs that recording handles, file by file and line by line: the mutable
/// refs of non-first-party actions (the refs that LOCK compares).
pub open spec fn record_targets(
    sources: Seq<(Seq<char>, Seq<char>)>,
    ctx: crate::trust::TrustContextV,
) -> Seq<Option<(Seq<char>, Seq<char>)>> {
    crate::rules::concat(
        Seq::new(
            sources.len(),
            |i: int|
                crate::workflow::uses_entries_spec(sources[i].1).map_values(
                    |e: crate::workflow::UsesEntryV| crate::rules::lock_target(e, ctx),
                ),
        ),
    )
}

/// The state after the first `i` refs, given the answer of each lookup.
pub open spec fn record_upto(
    ts: Seq<Option<(Seq<char>, Seq<char>)>>,
    anss: Seq<(crate::github_facts::Answer<Seq<char>>, Seq<char>)>,
    i: int,
) -> RecordStateV
    decreases i,
{
    if i <= 0 {
        RecordStateV { lock: Seq::empty(), skipped: Seq::empty() }
    } else {
        record_step(record_upto(ts, anss, i - 1), ts[i - 1], anss[i - 1].0, anss[i - 1].1)
    }
}

proof fn lemma_record_upto_prefix(
    ts: Seq<Option<(Seq<char>, Seq<char>)>>,
    a1: Seq<(crate::github_facts::Answer<Seq<char>>, Seq<char>)>,
    a2: Seq<(crate::github_facts::Answer<Seq<char>>, Seq<char>)>,
    i: int,
)
    requires
        0 <= i <= a1.len(),
        i <= a2.len(),
        forall|j: int| 0 <= j < i ==> a1[j] == a2[j],
    ensures
        record_upto(ts, a1, i) == record_upto(ts, a2, i),
    decreases i,
{
    if i > 0 {
        lemma_record_upto_prefix(ts, a1, a2, i - 1);
    }
}

proof fn lemma_record_upto_targets(
    t1: Seq<Option<(Seq<char>, Seq<char>)>>,
    t2: Seq<Option<(Seq<char>, Seq<char>)>>,
    anss: Seq<(crate::github_facts::Answer<Seq<char>>, Seq<char>)>,
    i: int,
)
    requires
        0 <= i <= t1.len(),
        i <= t2.len(),
        forall|j: int| 0 <= j < i ==> t1[j] == t2[j],
    ensures
        record_upto(t1, anss, i) == record_upto(t2, anss, i),
    decreases i,
{
    if i > 0 {
        lemma_record_upto_targets(t1, t2, anss, i - 1);
    }
}

proof fn lemma_str_map_insert(m: Seq<(Seq<char>, String)>, k: Seq<char>, x: String)
    ensures
        entries_view(map_insert(m, k, x)) == map_insert(entries_view(m), k, x@),
{
    lemma_entries_insert(m, k, x);
}

/// Records the current SHA of every mutable third-party ref in the workflow
/// files given as (path, content), asking `facts` once per ref. Returns the new
/// lock and the refs left out with the reason. For whatever the lookups
/// answered, the result is that of [`record_upto`] over [`record_targets`].
pub fn record_refs<F: crate::github_facts::GithubFacts>(
    sources: &Vec<(String, String)>,
    ctx: &crate::trust::TrustContext,
    facts: &F,
) -> (r: (Lockfile, StrMap<String>))
    ensures
        exists|anss: Seq<(crate::github_facts::Answer<Seq<char>>, Seq<char>)>|
            anss.len() == record_targets(crate::scan::sources_view(sources@), ctx@).len()
                && #[trigger] record_upto(
                record_targets(crate::scan::sources_view(sources@), ctx@),
                anss,
                anss.len() as int,
            ) == (RecordStateV { lock: r.0.view(), skipped: entries_view(r.1.view()) }),
{
    let ghost sv = crate::scan::sources_view(sources@);
    let ghost per_file = Seq::new(
        sv.len(),
        |q: int|
            crate::workflow::uses_entries_spec(sv[q].1).map_values(
                |e: crate::workflow::UsesEntryV| crate::rules::lock_target(e, ctx@),
            ),
    );
    let mut lock = Lockfile { entries: StrMap::new() };
    let mut skipped: StrMap<String> = StrMap::new();
    assert(lock.view() =~= Seq::<(Seq<char>, Seq<char>)>::empty());
    assert(entries_view(skipped.view()) =~= Seq::<(Seq<char>, Seq<char>)>::empty());
    let ghost mut anss: Seq<(crate::github_facts::Answer<Seq<char>>, Seq<char>)> = Seq::empty();
    let mut i: usize = 0;
    while i < sources.len()
        invariant
            sv == crate::scan::sources_view(sources@),
            per_file == Seq::new(
                sv.len(),
                |q: int|
                    crate::workflow::uses_entries_spec(sv[q].1).map_values(
                        |e: crate::workflow::UsesEntryV| crate::rules::lock_target(e, ctx@),
                    ),
            ),
            i <= sources@.len(),
            anss.len() == crate::rules::concat(per_file.take(i as int)).len(),
            record_upto(crate::rules::concat(per_file.take(i as int)), anss, anss.len() as int) == (
            RecordStateV { lock: lock.view(), skipped: entries_view(skipped.view()) }),
        decreases sources@.len() - i,
    {
        let entries = crate::workflow::extract_uses_entries(sources[i].1.as_str());
        let ghost es = entries.deep_view();
        let ghost done = crate::rules::concat(per_file.take(i as int));
        let ghost ft = per_file[i as int];
        assert(ft == es.map_values(|e: crate::workflow::UsesEntryV| crate::rules::lock_target(e, ctx@)));
        proof {
            crate::rules::lemma_concat_step(per_file, i as int);
        }
        let ghost base = anss.len() as int;
        proof {
            lemma_record_upto_targets(done + ft, done, anss, base);
        }
        let mut j: usize = 0;
        while j < entries.len()
            invariant
                es == entries.deep_view(),
                ft == es.map_values(|e: crate::workflow::UsesEntryV| crate::rules::lock_target(e, ctx@)),
                done.len() == base,
                j <= es.len(),
                anss.len() == base + j,
                forall|t: int| 0 <= t < base ==> (#[trigger] (done + ft)[t]) == done[t],
                record_upto(done + ft, anss, anss.len() as int) == (RecordStateV {
                    lock: lock.view(),
                    skipped: entries_view(skipped.view()),
                }),
            decreases es.len() - j,
        {
            let ghost st0 = RecordStateV { lock: lock.view(), skipped: entries_view(skipped.view()) };
            let ghost mut a: crate::github_facts::Answer<Seq<char>> = crate::github_facts::Answer::Unknown;
            let ghost mut errt: Seq<char> = Seq::empty();
            let e = &entries[j];
            assert(e.deep_view() == es[j as int]);
            match crate::rules::lock_target_exec(e, ctx) {
                None => {},
                Some((repo, gr)) => {
                    let key = Lockfile::key(repo.as_str(), gr.as_str());
                    proof {
                        lemma_entries_get(lock.entries.view(), key@, 0);
                        lemma_entries_get(skipped.view(), key@, 0);
                    }
                    let known = lock.entries.contains_key(key.as_str())
                        || skipped.contains_key(key.as_str());
                    if !known {
                        let answer = facts.resolve_ref(repo.as_str(), gr.as_str());
                        proof {
                            a = crate::github_facts::answer_text(answer);
                        }
                        match answer {
                            Ok(Some(sha)) => {
                                proof {
                                    lemma_entries_insert(lock.entries.view(), key@, sha);
                                }
                                lock.entries.insert(key, sha);
                            },
                            Ok(None) => {
                                let reason = string_of(&chars_of(crate::fix::NOT_FOUND));
                                proof {
                                    lemma_str_map_insert(skipped.view(), key@, reason);
                                }
                                skipped.insert(key, reason);
                            },
                            Err(err) => {
                                let t = crate::github_facts::io_error_text(&err);
                                proof {
                                    errt = t@;
                                }
                                let mut rv = chars_of(crate::fix::FAILED);
                                extend_str(&mut rv, t.as_str());
                                let reason = string_of(&rv);
                                proof {
                                    lemma_str_map_insert(skipped.view(), key@, reason);
                                }
                                skipped.insert(key, reason);
                            },
                        }
                    }
                },
            }
            let ghost old_anss = anss;
            proof {
                anss = anss.push((a, errt));
                let all = done + ft;
                lemma_record_upto_prefix(all, anss, old_anss, old_anss.len() as int);
                assert(all[base + j] == ft[j as int]);
                assert(ft[j as int] == crate::rules::lock_target(es[j as int], ctx@));
                assert(record_upto(all, anss, anss.len() as int) == record_step(
                    st0,
                    all[anss.len() - 1],
                    a,
                    errt,
                ));
            }
            j = j + 1;
        }
        proof {
            assert(ft.len() == es.len());
            assert(crate::rules::concat(per_file.take(i as int + 1)) == done + ft);
        }
        i = i + 1;
    }
    proof {
        assert(per_file.take(sources@.len() as int) =~= per_file);
        assert(record_targets(sv, ctx@) == crate::rules::concat(per_file));
    }
    (lock, skipped)
}

} // verus!
