//! Advisory database of known-compromised versions (R9).
//!
//! The snapshot ships inside the library: no file or network access at run
//! time, and updating the database means a new release, so the database cannot
//! be swapped on its own.
use vstd::prelude::*;
use crate::text::{
    chars_of, extend_str, index_of, is_whitespace, is_ws, lines, lines_v, starts_with,
    starts_with_str, string_of, subvec, trim, trim_v, vviews, vec_eq,
};
use crate::typosquat::{to_lowercase, unicode_lower};

verus! {

/// The bundled snapshot. Format: one advisory per line,
/// `owner/repo@ref source note...`; `#` starts a comment.
pub const BUNDLED: &'static str = "# Known-compromised action versions.\n# Format: <owner/repo@ref> <source> <note...>   (the reference is matched case-insensitively)\ntj-actions/changed-files@0e58ed8671d6b60d0890c21b07f8835ace038e67 CVE-2025-30066 Malicious commit that dumped CI secrets into workflow logs\nreviewdog/action-setup@v1 CVE-2025-30154 Tag moved to a malicious commit that dumped CI secrets into workflow logs\n";

/// An advisory: its source and description.
pub struct Advisory {
    pub source: String,
    pub note: String,
}

pub struct AdvisoryV {
    pub source: Seq<char>,
    pub note: Seq<char>,
}

impl DeepView for Advisory {
    type V = AdvisoryV;

    open spec fn deep_view(&self) -> AdvisoryV {
        AdvisoryV { source: self.source@, note: self.note@ }
    }
}

/// Reference (`owner/repo@ref`, lowercase) to advisory.
pub struct AdvisoryDb {
    entries: Vec<(String, Advisory)>,
}

/// The first index at or after `i` holding whitespace, or `s.len()`.
pub open spec fn ws_index(s: Seq<char>, i: int) -> int
    decreases s.len() - i,
{
    if 0 <= i < s.len() {
        if is_ws(s[i]) {
            i
        } else {
            ws_index(s, i + 1)
        }
    } else {
        s.len() as int
    }
}

pub proof fn lemma_ws_index(s: Seq<char>, i: int)
    requires
        0 <= i <= s.len(),
    ensures
        i <= ws_index(s, i) <= s.len(),
    decreases s.len() - i,
{
    if i < s.len() && !is_ws(s[i]) {
        lemma_ws_index(s, i + 1);
    }
}

/// One line of the database as (reference, source, note): split at the first
/// two whitespace characters (`splitn(3, char::is_whitespace)`); a line with no
/// whitespace holds no advisory.
pub open spec fn advisory_line(line: Seq<char>) -> Option<(Seq<char>, Seq<char>, Seq<char>)> {
    let k1 = ws_index(line, 0);
    if k1 >= line.len() {
        None
    } else {
        let reference = line.take(k1);
        let k2 = ws_index(line, k1 + 1);
        let source = line.subrange(k1 + 1, k2);
        let note = if k2 >= line.len() {
            Seq::empty()
        } else {
            trim(line.skip(k2 + 1))
        };
        Some((reference, source, note))
    }
}

/// Inserts `(k, v)`, replacing the entry with key `k` if there is one.
pub open spec fn assoc_insert<V>(s: Seq<(Seq<char>, V)>, k: Seq<char>, v: V) -> Seq<(Seq<char>, V)> {
    if exists|i: int| 0 <= i < s.len() && (#[trigger] s[i]).0 == k {
        let i = choose|i: int| 0 <= i < s.len() && (#[trigger] s[i]).0 == k;
        s.update(i, (k, v))
    } else {
        s.push((k, v))
    }
}

/// The value stored under `k`.
pub open spec fn assoc_get<V>(s: Seq<(Seq<char>, V)>, k: Seq<char>) -> Option<V> {
    if exists|i: int| 0 <= i < s.len() && (#[trigger] s[i]).0 == k {
        let i = choose|i: int| 0 <= i < s.len() && (#[trigger] s[i]).0 == k;
        Some(s[i].1)
    } else {
        None
    }
}

/// No key occurs twice.
pub open spec fn unique_keys<V>(s: Seq<(Seq<char>, V)>) -> bool {
    forall|i: int, j: int| 0 <= i < j < s.len() ==> (#[trigger] s[i]).0 != (#[trigger] s[j]).0
}

/// The database after reading lines `i..`, starting from `db`.
pub open spec fn db_from(ls: Seq<Seq<char>>, i: int, db: Seq<(Seq<char>, AdvisoryV)>) -> Seq<
    (Seq<char>, AdvisoryV),
>
    decreases ls.len() - i,
{
    if 0 <= i < ls.len() {
        let line = trim(ls[i]);
        if line.len() == 0 || starts_with(line, "#"@) {
            db_from(ls, i + 1, db)
        } else {
            match advisory_line(line) {
                None => db_from(ls, i + 1, db),
                Some((reference, source, note)) => db_from(
                    ls,
                    i + 1,
                    assoc_insert(db, unicode_lower(reference), AdvisoryV { source, note }),
                ),
            }
        }
    } else {
        db
    }
}

/// The database read from a text: a later line replaces an earlier one with
/// the same (lowercased) reference.
pub open spec fn parse_spec(content: Seq<char>) -> Seq<(Seq<char>, AdvisoryV)> {
    db_from(lines(content), 0, Seq::empty())
}

/// Inserting keeps keys unique, stores `v` under `k` and leaves every other
/// key as it was.
pub proof fn lemma_assoc_insert<V>(s: Seq<(Seq<char>, V)>, k: Seq<char>, v: V, k2: Seq<char>)
    requires
        unique_keys(s),
    ensures
        unique_keys(assoc_insert(s, k, v)),
        assoc_get(assoc_insert(s, k, v), k2) == if k2 == k {
            Some(v)
        } else {
            assoc_get(s, k2)
        },
{
    let t = assoc_insert(s, k, v);
    if exists|i: int| 0 <= i < s.len() && (#[trigger] s[i]).0 == k {
        let i = choose|i: int| 0 <= i < s.len() && (#[trigger] s[i]).0 == k;
        assert(t == s.update(i, (k, v)));
        assert forall|a: int, b: int| 0 <= a < b < t.len() implies (#[trigger] t[a]).0 != (#[trigger] t[b]).0 by {
            if a != i && b != i {
                assert(s[a].0 != s[b].0);
            } else if a == i {
                assert(s[a].0 != s[b].0);
            } else {
                assert(s[a].0 != s[b].0);
            }
        }
        if k2 == k {
            assert(t[i].0 == k);
            let c = choose|j: int| 0 <= j < t.len() && (#[trigger] t[j]).0 == k2;
            assert(c == i) by {
                if c != i {
                    if c < i {
                        assert(t[c].0 != t[i].0);
                    } else {
                        assert(t[i].0 != t[c].0);
                    }
                }
            }
        } else {
            if exists|j: int| 0 <= j < s.len() && (#[trigger] s[j]).0 == k2 {
                let c = choose|j: int| 0 <= j < s.len() && (#[trigger] s[j]).0 == k2;
                assert(t[c] == s[c]);
                let d = choose|j: int| 0 <= j < t.len() && (#[trigger] t[j]).0 == k2;
                assert(d != i);
                assert(t[d] == s[d]);
                assert(c == d) by {
                    if c != d {
                        if c < d {
                            assert(s[c].0 != s[d].0);
                        } else {
                            assert(s[d].0 != s[c].0);
                        }
                    }
                }
            } else {
                assert forall|j: int| 0 <= j < t.len() implies (#[trigger] t[j]).0 != k2 by {
                    if j != i {
                        assert(t[j] == s[j]);
                    }
                }
            }
        }
    } else {
        assert(t == s.push((k, v)));
        assert forall|a: int, b: int| 0 <= a < b < t.len() implies (#[trigger] t[a]).0 != (#[trigger] t[b]).0 by {
            if b < s.len() {
                assert(s[a].0 != s[b].0);
            } else {
                assert(t[a] == s[a]);
            }
        }
        if k2 == k {
            assert(t[s.len() as int].0 == k);
            let c = choose|j: int| 0 <= j < t.len() && (#[trigger] t[j]).0 == k2;
            assert(c == s.len()) by {
                if c < s.len() {
                    assert(t[c] == s[c]);
                }
            }
        } else {
            if exists|j: int| 0 <= j < s.len() && (#[trigger] s[j]).0 == k2 {
                let c = choose|j: int| 0 <= j < s.len() && (#[trigger] s[j]).0 == k2;
                assert(t[c] == s[c]);
                let d = choose|j: int| 0 <= j < t.len() && (#[trigger] t[j]).0 == k2;
                assert(d < s.len());
                assert(t[d] == s[d]);
                assert(c == d) by {
                    if c != d {
                        if c < d {
                            assert(s[c].0 != s[d].0);
                        } else {
                            assert(s[d].0 != s[c].0);
                        }
                    }
                }
            } else {
                assert forall|j: int| 0 <= j < t.len() implies (#[trigger] t[j]).0 != k2 by {
                    if j < s.len() {
                        assert(t[j] == s[j]);
                    }
                }
            }
        }
    }
}

/// The (lowercased) reference and the advisory that line `j` lists, if any.
pub open spec fn line_advisory(ls: Seq<Seq<char>>, j: int) -> Option<(Seq<char>, AdvisoryV)> {
    let line = trim(ls[j]);
    if line.len() == 0 || starts_with(line, "#"@) {
        None
    } else {
        match advisory_line(line) {
            None => None,
            Some((reference, source, note)) => Some((unicode_lower(reference), AdvisoryV { source, note })),
        }
    }
}

/// The advisory of the last of lines `i..n` that lists reference `k`.
pub open spec fn last_advisory(ls: Seq<Seq<char>>, i: int, n: int, k: Seq<char>) -> Option<AdvisoryV>
    decreases n - i,
{
    if n <= i {
        None
    } else {
        match line_advisory(ls, n - 1) {
            Some((k2, a)) => if k2 == k {
                Some(a)
            } else {
                last_advisory(ls, i, n - 1, k)
            },
            None => last_advisory(ls, i, n - 1, k),
        }
    }
}

proof fn lemma_last_advisory_low(ls: Seq<Seq<char>>, i: int, n: int, k: Seq<char>)
    requires
        0 <= i < n,
    ensures
        last_advisory(ls, i, n, k) == match last_advisory(ls, i + 1, n, k) {
            Some(a) => Some(a),
            None => match line_advisory(ls, i) {
                Some((k2, a)) => if k2 == k {
                    Some(a)
                } else {
                    None
                },
                None => None,
            },
        },
    decreases n - i,
{
    if n > i + 1 {
        lemma_last_advisory_low(ls, i, n - 1, k);
    } else {
        assert(last_advisory(ls, i + 1, n, k) is None);
        assert(last_advisory(ls, i, i, k) is None);
    }
}

proof fn lemma_db_from(ls: Seq<Seq<char>>, i: int, db: Seq<(Seq<char>, AdvisoryV)>, k: Seq<char>)
    requires
        0 <= i <= ls.len(),
        unique_keys(db),
    ensures
        unique_keys(db_from(ls, i, db)),
        assoc_get(db_from(ls, i, db), k) == match last_advisory(ls, i, ls.len() as int, k) {
            Some(a) => Some(a),
            None => assoc_get(db, k),
        },
    decreases ls.len() - i,
{
    if i < ls.len() {
        lemma_last_advisory_low(ls, i, ls.len() as int, k);
        match line_advisory(ls, i) {
            None => {
                lemma_db_from(ls, i + 1, db, k);
            },
            Some((key, a)) => {
                lemma_assoc_insert(db, key, a, k);
                lemma_db_from(ls, i + 1, assoc_insert(db, key, a), k);
            },
        }
    }
}

/// A database text lists each reference at most once after reading: the
/// advisory stored under a (lowercased) reference is that of the last line
/// listing it, and a reference that no line lists has none.
pub proof fn later_advisories_replace_earlier(content: Seq<char>, k: Seq<char>)
    ensures
        unique_keys(parse_spec(content)),
        assoc_get(parse_spec(content), k) == last_advisory(lines(content), 0, lines(content).len() as int, k),
{
    lemma_db_from(lines(content), 0, Seq::empty(), k);
}

impl AdvisoryDb {
    /// The entries as (reference, advisory), with no reference twice.
    pub closed spec fn entries_view(&self) -> Seq<(Seq<char>, AdvisoryV)> {
        self.entries@.map_values(|e: (String, Advisory)| (e.0@, e.1.deep_view()))
    }

    #[verifier::type_invariant]
    closed spec fn wf(&self) -> bool {
        unique_keys(self.entries_view())
    }

    /// Parses the bundled snapshot.
    pub fn bundled() -> (db: Self)
        ensures
            db.entries_view() == parse_spec(BUNDLED@),
    {
        Self::parse(BUNDLED)
    }

    fn find(&self, key: &Vec<char>) -> (r: Option<usize>)
        ensures
            match r {
                Some(i) => i < self.entries_view().len() && self.entries_view()[i as int].0
                    == key@,
                None => forall|i: int|
                    0 <= i < self.entries_view().len() ==> (#[trigger] self.entries_view()[i]).0
                        != key@,
            },
    {
        let mut i: usize = 0;
        while i < self.entries.len()
            invariant
                i <= self.entries@.len(),
                forall|j: int| 0 <= j < i ==> (#[trigger] self.entries_view()[j]).0 != key@,
            decreases self.entries@.len() - i,
        {
            let k = chars_of(self.entries[i].0.as_str());
            if vec_eq(&k, key) {
                return Some(i);
            }
            i = i + 1;
        }
        None
    }

    /// Stores `adv` under the (already lowercased) reference `key`, replacing
    /// what was stored under it.
    pub fn insert(&mut self, key: String, adv: Advisory)
        ensures
            final(self).entries_view() == assoc_insert(
                old(self).entries_view(),
                key@,
                adv.deep_view(),
            ),
    {
        proof {
            use_type_invariant(&*self);
        }
        let ghost ev = self.entries_view();
        let kv = chars_of(key.as_str());
        match self.find(&kv) {
            Some(i) => {
                assert(ev[i as int].0 == key@);
                proof {
                    let c = choose|j: int| 0 <= j < ev.len() && (#[trigger] ev[j]).0 == key@;
                    assert(c == i) by {
                        if c != i {
                            if c < i {
                                assert(ev[c].0 != ev[i as int].0);
                            } else {
                                assert(ev[i as int].0 != ev[c].0);
                            }
                        }
                    }
                }
                let mut es: Vec<(String, Advisory)> = Vec::new();
                std::mem::swap(&mut es, &mut self.entries);
                es.set(i, (key, adv));
                proof {
                    let nv = es@.map_values(|e: (String, Advisory)| (e.0@, e.1.deep_view()));
                    assert(nv =~= ev.update(i as int, (kv@, adv.deep_view())));
                    assert forall|a: int, b: int| 0 <= a < b < nv.len() implies (#[trigger] nv[a]).0
                        != (#[trigger] nv[b]).0 by {
                        if a != i && b != i {
                            assert(nv[a] == ev[a] && nv[b] == ev[b]);
                        } else if a == i {
                            assert(nv[b] == ev[b]);
                        } else {
                            assert(nv[a] == ev[a]);
                        }
                    }
                }
                self.entries = es;
                assert(self.entries_view() =~= ev.update(i as int, (kv@, adv.deep_view())));
            },
            None => {
                let mut es: Vec<(String, Advisory)> = Vec::new();
                std::mem::swap(&mut es, &mut self.entries);
                es.push((key, adv));
                proof {
                    let nv = es@.map_values(|e: (String, Advisory)| (e.0@, e.1.deep_view()));
                    assert(nv =~= ev.push((kv@, adv.deep_view())));
                    assert forall|a: int, b: int| 0 <= a < b < nv.len() implies (#[trigger] nv[a]).0
                        != (#[trigger] nv[b]).0 by {
                        if b < ev.len() {
                            assert(nv[a] == ev[a] && nv[b] == ev[b]);
                        } else {
                            assert(nv[a] == ev[a]);
                        }
                    }
                }
                self.entries = es;
                assert(self.entries_view() =~= ev.push((kv@, adv.deep_view())));
            },
        }
    }

    /// Reads a database text.
    pub fn parse(content: &str) -> (db: Self)
        ensures
            db.entries_view() == parse_spec(content@),
    {
        let mut db = AdvisoryDb { entries: Vec::new() };
        assert(db.entries_view() =~= Seq::<(Seq<char>, AdvisoryV)>::empty());
        let cv = chars_of(content);
        let ls = lines_v(&cv);
        let ghost lv = vviews(ls@);
        let mut i: usize = 0;
        while i < ls.len()
            invariant
                lv == vviews(ls@),
                lv == lines(content@),
                i <= ls@.len(),
                parse_spec(content@) == db_from(lv, i as int, db.entries_view()),
            decreases ls@.len() - i,
        {
            let line = trim_v(&ls[i]);
            if line.len() == 0 || starts_with_str(&line, "#") {
                i = i + 1;
                continue;
            }
            match advisory_fields(&line) {
                None => {},
                Some((reference, source, note)) => {
                    let key = to_lowercase(string_of(&reference).as_str());
                    db.insert(key, Advisory { source: string_of(&source), note: string_of(&note) });
                },
            }
            i = i + 1;
        }
        db
    }

    /// The advisory stored under the (already lowercased) reference `key`.
    pub fn lookup_lowered(&self, key: &str) -> (r: Option<&Advisory>)
        ensures
            r.deep_view() == assoc_get(self.entries_view(), key@),
    {
        let kv = chars_of(key);
        let ghost ev = self.entries_view();
        proof {
            use_type_invariant(self);
        }
        match self.find(&kv) {
            Some(i) => {
                proof {
                    let c = choose|j: int| 0 <= j < ev.len() && (#[trigger] ev[j]).0 == key@;
                    assert(c == i) by {
                        if c != i {
                            if c < i {
                                assert(ev[c].0 != ev[i as int].0);
                            } else {
                                assert(ev[i as int].0 != ev[c].0);
                            }
                        }
                    }
                }
                Some(&self.entries[i].1)
            },
            None => None,
        }
    }

    /// The advisory listed for `repo@git_ref`, compared case-insensitively.
    pub fn lookup(&self, repo: &str, git_ref: &str) -> (r: Option<&Advisory>)
        ensures
            r.deep_view() == assoc_get(
                self.entries_view(),
                unicode_lower(repo@ + "@"@ + git_ref@),
            ),
    {
        let mut k: Vec<char> = Vec::new();
        extend_str(&mut k, repo);
        extend_str(&mut k, "@");
        extend_str(&mut k, git_ref);
        let key = to_lowercase(string_of(&k).as_str());
        self.lookup_lowered(key.as_str())
    }

    /// The number of distinct references.
    pub fn len(&self) -> (n: usize)
        ensures
            n == self.entries_view().len(),
    {
        self.entries.len()
    }

    pub fn is_empty(&self) -> (b: bool)
        ensures
            b == (self.entries_view().len() == 0),
    {
        self.entries.len() == 0
    }
}

fn ws_index_v(s: &Vec<char>, i: usize) -> (r: usize)
    requires
        i <= s@.len(),
    ensures
        r as int == ws_index(s@, i as int),
        i <= r <= s@.len(),
{
    let mut k = i;
    while k < s.len() && !is_whitespace(s[k])
        invariant
            i <= k <= s@.len(),
            ws_index(s@, i as int) == ws_index(s@, k as int),
        decreases s@.len() - k,
    {
        k = k + 1;
    }
    k
}

/// Splits a database line into (reference, source, note).
pub fn advisory_fields(line: &Vec<char>) -> (r: Option<(Vec<char>, Vec<char>, Vec<char>)>)
    ensures
        match r {
            Some((a, b, c)) => advisory_line(line@) == Some((a@, b@, c@)),
            None => advisory_line(line@) is None,
        },
{
    let k1 = ws_index_v(line, 0);
    if k1 >= line.len() {
        return None;
    }
    let reference = subvec(line, 0, k1);
    assert(reference@ =~= line@.take(k1 as int));
    let k2 = ws_index_v(line, k1 + 1);
    let source = subvec(line, k1 + 1, k2);
    let note = if k2 >= line.len() {
        Vec::new()
    } else {
        let rest = subvec(line, k2 + 1, line.len());
        assert(rest@ =~= line@.skip(k2 + 1));
        trim_v(&rest)
    };
    assert(k2 >= line@.len() ==> note@ =~= Seq::<char>::empty());
    Some((reference, source, note))
}

} // verus!
