//! Ordered string sets and string-keyed maps.
//!
//! Strings are ordered as `String`'s `Ord` orders them: lexicographically by
//! code point (the same order as by UTF-8 bytes). Both collections keep their
//! items strictly increasing, so the same contents always iterate, and render,
//! in the same order.
use vstd::prelude::*;
use crate::text::{chars_of, vec_eq};

verus! {

/// `a < b` in lexicographic order by code point.
pub open spec fn lex_lt(a: Seq<char>, b: Seq<char>) -> bool
    decreases a.len(),
{
    if a.len() == 0 {
        b.len() > 0
    } else if b.len() == 0 {
        false
    } else if a[0] < b[0] {
        true
    } else if a[0] != b[0] {
        false
    } else {
        lex_lt(a.drop_first(), b.drop_first())
    }
}

pub proof fn lemma_lex_irrefl(a: Seq<char>)
    ensures
        !lex_lt(a, a),
    decreases a.len(),
{
    if a.len() > 0 {
        lemma_lex_irrefl(a.drop_first());
    }
}

pub proof fn lemma_lex_trichotomy(a: Seq<char>, b: Seq<char>)
    ensures
        lex_lt(a, b) || a == b || lex_lt(b, a),
        !(lex_lt(a, b) && lex_lt(b, a)),
    decreases a.len(),
{
    if a.len() == 0 {
        if b.len() == 0 {
            assert(a =~= b);
        }
    } else if b.len() == 0 {
    } else {
        lemma_lex_trichotomy(a.drop_first(), b.drop_first());
        if a[0] == b[0] && a.drop_first() == b.drop_first() {
            assert forall|k: int| 0 <= k < a.len() implies a[k] == b[k] by {
                if k > 0 {
                    assert(a[k] == a.drop_first()[k - 1]);
                    assert(b[k] == b.drop_first()[k - 1]);
                }
            }
            assert(a.len() == b.len());
            assert(a =~= b);
        }
    }
}

pub proof fn lemma_lex_trans(a: Seq<char>, b: Seq<char>, c: Seq<char>)
    requires
        lex_lt(a, b),
        lex_lt(b, c),
    ensures
        lex_lt(a, c),
    decreases a.len(),
{
    if a.len() > 0 && b.len() > 0 && c.len() > 0 && a[0] == b[0] && b[0] == c[0] {
        lemma_lex_trans(a.drop_first(), b.drop_first(), c.drop_first());
    }
}

/// Whether `a < b`.
pub fn lex_less(a: &Vec<char>, b: &Vec<char>) -> (r: bool)
    ensures
        r == lex_lt(a@, b@),
{
    let mut i: usize = 0;
    assert(a@.skip(0) =~= a@);
    assert(b@.skip(0) =~= b@);
    while i < a.len() && i < b.len() && a[i] == b[i]
        invariant
            i <= a@.len(),
            i <= b@.len(),
            lex_lt(a@, b@) == lex_lt(a@.skip(i as int), b@.skip(i as int)),
        decreases a@.len() - i,
    {
        assert(a@.skip(i as int).drop_first() =~= a@.skip(i + 1));
        assert(b@.skip(i as int).drop_first() =~= b@.skip(i + 1));
        i = i + 1;
    }
    if i == a.len() {
        assert(a@.skip(i as int).len() == 0);
        i < b.len()
    } else if i == b.len() {
        assert(b@.skip(i as int).len() == 0);
        false
    } else {
        assert(a@.skip(i as int)[0] == a@[i as int]);
        assert(b@.skip(i as int)[0] == b@[i as int]);
        a[i] < b[i]
    }
}

/// Strictly increasing.
pub open spec fn strictly_sorted(s: Seq<Seq<char>>) -> bool {
    forall|i: int, j: int| 0 <= i < j < s.len() ==> lex_lt(#[trigger] s[i], #[trigger] s[j])
}

/// The first index at or after `i` whose item is not below `k`.
pub open spec fn insert_pos(s: Seq<Seq<char>>, k: Seq<char>, i: int) -> int
    decreases s.len() - i,
{
    if 0 <= i < s.len() && lex_lt(s[i], k) {
        insert_pos(s, k, i + 1)
    } else {
        i
    }
}

pub proof fn lemma_insert_pos(s: Seq<Seq<char>>, k: Seq<char>, i: int)
    requires
        0 <= i <= s.len(),
    ensures
        i <= insert_pos(s, k, i) <= s.len(),
        forall|j: int| i <= j < insert_pos(s, k, i) ==> lex_lt(s[j], k),
        insert_pos(s, k, i) < s.len() ==> !lex_lt(s[insert_pos(s, k, i)], k),
    decreases s.len() - i,
{
    if i < s.len() && lex_lt(s[i], k) {
        lemma_insert_pos(s, k, i + 1);
    }
}

/// `s` with `k` added at its place; unchanged when `k` is already there.
pub open spec fn set_insert(s: Seq<Seq<char>>, k: Seq<char>) -> Seq<Seq<char>> {
    let p = insert_pos(s, k, 0);
    if p < s.len() && s[p] == k {
        s
    } else {
        s.insert(p, k)
    }
}

/// The keys of an association sequence.
pub open spec fn keys<V>(s: Seq<(Seq<char>, V)>) -> Seq<Seq<char>> {
    s.map_values(|e: (Seq<char>, V)| e.0)
}

/// `s` with `(k, v)` added at the place of `k`, replacing an entry for `k`.
pub open spec fn map_insert<V>(s: Seq<(Seq<char>, V)>, k: Seq<char>, v: V) -> Seq<(Seq<char>, V)> {
    let p = insert_pos(keys(s), k, 0);
    if p < s.len() && s[p].0 == k {
        s.update(p, (k, v))
    } else {
        s.insert(p, (k, v))
    }
}

/// A key above every key already there goes at the end.
pub proof fn lemma_map_insert_last<V>(s: Seq<(Seq<char>, V)>, k: Seq<char>, v: V)
    requires
        forall|j: int| 0 <= j < s.len() ==> lex_lt(#[trigger] s[j].0, k),
    ensures
        map_insert(s, k, v) == s.push((k, v)),
{
    let ks = keys(s);
    lemma_insert_pos(ks, k, 0);
    let p = insert_pos(ks, k, 0);
    if p < s.len() {
        assert(ks[p] == s[p].0);
        assert(lex_lt(s[p].0, k));
    }
    assert(p == s.len());
    assert(s.insert(p, (k, v)) =~= s.push((k, v)));
}

/// An item above every item already there goes at the end.
pub proof fn lemma_set_insert_last(s: Seq<Seq<char>>, k: Seq<char>)
    requires
        forall|j: int| 0 <= j < s.len() ==> lex_lt(#[trigger] s[j], k),
    ensures
        set_insert(s, k) == s.push(k),
{
    lemma_insert_pos(s, k, 0);
    let p = insert_pos(s, k, 0);
    if p < s.len() {
        assert(lex_lt(s[p], k));
    }
    assert(p == s.len());
    assert(s.insert(p, k) =~= s.push(k));
}

/// The value of the first entry from index `i` whose key is `k`.
pub open spec fn map_get_from<V>(s: Seq<(Seq<char>, V)>, k: Seq<char>, i: int) -> Option<V>
    decreases s.len() - i,
{
    if 0 <= i < s.len() {
        if s[i].0 == k {
            Some(s[i].1)
        } else {
            map_get_from(s, k, i + 1)
        }
    } else {
        None
    }
}

/// The value under `k` (keys are unique in the maps built here).
pub open spec fn map_get<V>(s: Seq<(Seq<char>, V)>, k: Seq<char>) -> Option<V> {
    map_get_from(s, k, 0)
}

proof fn lemma_sorted_insert(s: Seq<Seq<char>>, k: Seq<char>, p: int)
    requires
        strictly_sorted(s),
        0 <= p <= s.len(),
        forall|j: int| 0 <= j < p ==> lex_lt(s[j], k),
        p < s.len() ==> !lex_lt(s[p], k),
        p < s.len() ==> s[p] != k,
    ensures
        strictly_sorted(s.insert(p, k)),
{
    let t = s.insert(p, k);
    if p < s.len() {
        lemma_lex_trichotomy(s[p], k);
    }
    assert forall|i: int, j: int| 0 <= i < j < t.len() implies lex_lt(#[trigger] t[i], #[trigger] t[j]) by {
        if i < p && j == p {
        } else if i < p && j > p {
            assert(t[j] == s[j - 1]);
        } else if i == p && j > p {
            assert(t[j] == s[j - 1]);
            if j - 1 > p {
                lemma_lex_trans(k, s[p], s[j - 1]);
            }
        } else if i > p {
            assert(t[i] == s[i - 1] && t[j] == s[j - 1]);
        } else {
            assert(t[i] == s[i] && t[j] == s[j]);
        }
    }
}

/// Adding an item keeps the order, and adds nothing else.
pub proof fn lemma_set_insert_sorted(s: Seq<Seq<char>>, k: Seq<char>)
    requires
        strictly_sorted(s),
    ensures
        strictly_sorted(set_insert(s, k)),
        forall|i: int|
            0 <= i < set_insert(s, k).len() ==> #[trigger] set_insert(s, k)[i] == k || s.contains(
                set_insert(s, k)[i],
            ),
{
    let p = insert_pos(s, k, 0);
    lemma_insert_pos(s, k, 0);
    if !(p < s.len() && s[p] == k) {
        lemma_sorted_insert(s, k, p);
        let t = s.insert(p, k);
        assert forall|i: int| 0 <= i < t.len() implies #[trigger] t[i] == k || s.contains(t[i]) by {
            if i < p {
                assert(t[i] == s[i]);
            } else if i > p {
                assert(t[i] == s[i - 1]);
            }
        }
    } else {
        assert forall|i: int| 0 <= i < s.len() implies #[trigger] s[i] == k || s.contains(s[i]) by {}
    }
}

/// No entry from `i` on has key `k` exactly when looking `k` up from `i`
/// finds nothing.
pub proof fn lemma_map_get_none<V>(s: Seq<(Seq<char>, V)>, k: Seq<char>, i: int)
    requires
        0 <= i,
    ensures
        map_get_from(s, k, i) is None <==> forall|q: int| i <= q < s.len() ==> (#[trigger] s[q]).0
            != k,
    decreases s.len() - i,
{
    if i < s.len() {
        lemma_map_get_none(s, k, i + 1);
    }
}

proof fn lemma_get_from_same<V>(s: Seq<(Seq<char>, V)>, t: Seq<(Seq<char>, V)>, k: Seq<char>, i: int, n: int)
    requires
        0 <= i <= n <= s.len(),
        n <= t.len(),
        forall|j: int| i <= j < n ==> #[trigger] t[j] == s[j],
        map_get_from(t, k, n) == map_get_from(s, k, n),
    ensures
        map_get_from(t, k, i) == map_get_from(s, k, i),
    decreases n - i,
{
    if i < n {
        lemma_get_from_same(s, t, k, i + 1, n);
        assert(t[i] == s[i]);
    }
}

proof fn lemma_get_from_shift<V>(s: Seq<(Seq<char>, V)>, p: int, e: (Seq<char>, V), k: Seq<char>, j: int)
    requires
        0 <= p <= j <= s.len(),
    ensures
        map_get_from(s.insert(p, e), k, j + 1) == map_get_from(s, k, j),
    decreases s.len() - j,
{
    if j < s.len() {
        lemma_get_from_shift(s, p, e, k, j + 1);
        assert(s.insert(p, e)[j + 1] == s[j]);
    }
}

/// After `map_insert`, the key holds the new value and every other key holds
/// what it held.
pub proof fn lemma_map_insert_get<V>(s: Seq<(Seq<char>, V)>, k: Seq<char>, v: V, k2: Seq<char>)
    ensures
        map_get(map_insert(s, k, v), k2) == if k2 == k {
            Some(v)
        } else {
            map_get(s, k2)
        },
{
    let ks = keys(s);
    lemma_insert_pos(ks, k, 0);
    let p = insert_pos(ks, k, 0);
    let t = map_insert(s, k, v);
    assert forall|j: int| 0 <= j < p implies #[trigger] s[j].0 != k by {
        assert(ks[j] == s[j].0);
        lemma_lex_irrefl(k);
    }
    if p < s.len() && s[p].0 == k {
        assert(t == s.update(p, (k, v)));
        if k2 == k {
            assert(forall|j: int| 0 <= j < p ==> (#[trigger] t[j]).0 != k2);
            lemma_t_reaches(t, k2, 0, p);
        } else {
            lemma_get_from_same(s, t, k2, p + 1, s.len() as int);
            lemma_get_from_same(s, t, k2, 0, p);
        }
    } else {
        assert(t == s.insert(p, (k, v)));
        if k2 == k {
            assert(map_get_from(t, k2, p) == Some(v));
            assert(forall|j: int| 0 <= j < p ==> (#[trigger] t[j]).0 != k2);
            lemma_t_reaches(t, k2, 0, p);
        } else {
            lemma_get_from_shift(s, p, (k, v), k2, p);
            lemma_get_from_same(s, t, k2, 0, p);
        }
    }
}

proof fn lemma_t_reaches<V>(t: Seq<(Seq<char>, V)>, k: Seq<char>, i: int, p: int)
    requires
        0 <= i <= p < t.len(),
        forall|j: int| i <= j < p ==> (#[trigger] t[j]).0 != k,
    ensures
        map_get_from(t, k, i) == map_get_from(t, k, p),
    decreases p - i,
{
    if i < p {
        lemma_t_reaches(t, k, i + 1, p);
    }
}

/// Adding a new key keeps the keys in order, and adds only that entry.
pub proof fn lemma_map_insert_sorted<V>(s: Seq<(Seq<char>, V)>, k: Seq<char>, v: V)
    requires
        strictly_sorted(keys(s)),
        map_get(s, k) is None,
    ensures
        strictly_sorted(keys(map_insert(s, k, v))),
        forall|i: int|
            0 <= i < map_insert(s, k, v).len() ==> #[trigger] map_insert(s, k, v)[i] == (k, v)
                || s.contains(map_insert(s, k, v)[i]),
{
    let ks = keys(s);
    let p = insert_pos(ks, k, 0);
    lemma_insert_pos(ks, k, 0);
    lemma_map_get_none(s, k, 0);
    if p < s.len() {
        assert(s[p].0 != k);
        assert(ks[p] == s[p].0);
    }
    lemma_sorted_insert(ks, k, p);
    let t = s.insert(p, (k, v));
    assert(keys(t) =~= ks.insert(p, k));
    assert forall|i: int| 0 <= i < t.len() implies #[trigger] t[i] == (k, v) || s.contains(t[i]) by {
        if i < p {
            assert(t[i] == s[i]);
        } else if i > p {
            assert(t[i] == s[i - 1]);
        }
    }
}

/// A set of strings kept in increasing order.
pub struct StrSet {
    items: Vec<String>,
}

impl StrSet {
    /// The items, in increasing order.
    pub closed spec fn view(&self) -> Seq<Seq<char>> {
        self.items.deep_view()
    }

    #[verifier::type_invariant]
    pub closed spec fn inv(&self) -> bool {
        strictly_sorted(self.items.deep_view())
    }

    pub fn new() -> (r: Self)
        ensures
            r.view() == Seq::<Seq<char>>::empty(),
    {
        let r = StrSet { items: Vec::new() };
        assert(r.items.deep_view() =~= Seq::<Seq<char>>::empty());
        r
    }

    /// The position of `k`, where it is or would go.
    fn position(&self, k: &Vec<char>) -> (p: usize)
        ensures
            p == insert_pos(self.view(), k@, 0),
            p <= self.view().len(),
    {
        let ghost v = self.view();
        let mut i: usize = 0;
        while i < self.items.len()
            invariant
                v == self.view(),
                v == self.items.deep_view(),
                i <= v.len(),
                insert_pos(v, k@, 0) == insert_pos(v, k@, i as int),
            decreases v.len() - i,
        {
            let item = chars_of(self.items[i].as_str());
            if !lex_less(&item, k) {
                return i;
            }
            i = i + 1;
        }
        i
    }

    /// Adds `s` (no change when it is already present).
    pub fn insert(&mut self, s: String)
        ensures
            final(self).view() == set_insert(old(self).view(), s@),
    {
        proof {
            use_type_invariant(&*self);
        }
        let ghost v = self.view();
        let kv = chars_of(s.as_str());
        let p = self.position(&kv);
        proof {
            lemma_insert_pos(v, s@, 0);
        }
        if p < self.items.len() {
            let here = chars_of(self.items[p].as_str());
            if vec_eq(&here, &kv) {
                return;
            }
        }
        proof {
            lemma_sorted_insert(v, s@, p as int);
        }
        let mut items: Vec<String> = Vec::new();
        std::mem::swap(&mut items, &mut self.items);
        items.insert(p, s);
        assert(items.deep_view() =~= v.insert(p as int, kv@));
        self.items = items;
    }

    /// Whether `s` is in the set.
    pub fn contains(&self, s: &str) -> (b: bool)
        ensures
            b == self.view().contains(s@),
    {
        proof {
            use_type_invariant(self);
        }
        let ghost v = self.view();
        let mut i: usize = 0;
        while i < self.items.len()
            invariant
                v == self.view(),
                v == self.items.deep_view(),
                i <= v.len(),
                forall|j: int| 0 <= j < i ==> v[j] != s@,
            decreases v.len() - i,
        {
            if crate::text::str_eq(self.items[i].as_str(), s) {
                assert(v[i as int] == s@);
                return true;
            }
            i = i + 1;
        }
        false
    }

    /// The number of items; the items are in strictly increasing order.
    pub fn len(&self) -> (n: usize)
        ensures
            n == self.view().len(),
            strictly_sorted(self.view()),
    {
        proof {
            use_type_invariant(self);
        }
        self.items.len()
    }

    /// The `i`-th smallest item.
    pub fn get(&self, i: usize) -> (r: &String)
        requires
            i < self.view().len(),
        ensures
            r@ == self.view()[i as int],
            strictly_sorted(self.view()),
    {
        proof {
            use_type_invariant(self);
        }
        &self.items[i]
    }

    /// The items in increasing order.
    pub fn to_vec(&self) -> (r: Vec<String>)
        ensures
            r.deep_view() == self.view(),
            strictly_sorted(r.deep_view()),
    {
        proof {
            use_type_invariant(self);
        }
        let mut r: Vec<String> = Vec::new();
        let mut i: usize = 0;
        while i < self.items.len()
            invariant
                i <= self.items@.len(),
                r.deep_view() == self.items.deep_view().take(i as int),
            decreases self.items@.len() - i,
        {
            let ghost before = r.deep_view();
            let x = crate::text::string_of(&chars_of(self.items[i].as_str()));
            r.push(x);
            assert(r.deep_view() =~= before.push(self.items.deep_view()[i as int]));
            i = i + 1;
            assert(r.deep_view() =~= self.items.deep_view().take(i as int));
        }
        assert(self.items.deep_view().take(i as int) =~= self.items.deep_view());
        r
    }

    /// A copy of the set.
    pub fn copy(&self) -> (r: Self)
        ensures
            r.view() == self.view(),
    {
        proof {
            use_type_invariant(self);
        }
        let items = self.to_vec();
        StrSet { items }
    }
}

/// A map from strings to values kept in increasing key order.
pub struct StrMap<V> {
    entries: Vec<(String, V)>,
}

impl<V> StrMap<V> {
    /// The entries, in increasing key order.
    pub closed spec fn view(&self) -> Seq<(Seq<char>, V)> {
        self.entries@.map_values(|e: (String, V)| (e.0@, e.1))
    }

    #[verifier::type_invariant]
    closed spec fn inv(&self) -> bool {
        strictly_sorted(keys(self.view()))
    }

    pub fn new() -> (r: Self)
        ensures
            r.view() == Seq::<(Seq<char>, V)>::empty(),
    {
        let r = StrMap { entries: Vec::new() };
        assert(r.view() =~= Seq::<(Seq<char>, V)>::empty());
        assert(keys(r.view()) =~= Seq::<Seq<char>>::empty());
        r
    }

    fn position(&self, k: &Vec<char>) -> (p: usize)
        ensures
            p == insert_pos(keys(self.view()), k@, 0),
            p <= self.view().len(),
    {
        let ghost v = keys(self.view());
        let mut i: usize = 0;
        while i < self.entries.len()
            invariant
                v == keys(self.view()),
                v.len() == self.entries@.len(),
                i <= v.len(),
                insert_pos(v, k@, 0) == insert_pos(v, k@, i as int),
            decreases v.len() - i,
        {
            let item = chars_of(self.entries[i].0.as_str());
            assert(item@ == v[i as int]);
            if !lex_less(&item, k) {
                return i;
            }
            i = i + 1;
        }
        i
    }

    /// Sets the value under `k`, replacing an earlier one.
    pub fn insert(&mut self, k: String, v: V)
        ensures
            final(self).view() == map_insert(old(self).view(), k@, v),
    {
        proof {
            use_type_invariant(&*self);
        }
        let ghost old_v = self.view();
        let ghost ks = keys(old_v);
        let kv = chars_of(k.as_str());
        let p = self.position(&kv);
        proof {
            lemma_insert_pos(ks, k@, 0);
        }
        let mut entries: Vec<(String, V)> = Vec::new();
        std::mem::swap(&mut entries, &mut self.entries);
        if p < entries.len() {
            let here = chars_of(entries[p].0.as_str());
            if vec_eq(&here, &kv) {
                entries.set(p, (k, v));
                proof {
                    assert(entries@.map_values(|e: (String, V)| (e.0@, e.1)) =~= old_v.update(
                        p as int,
                        (kv@, v),
                    ));
                    assert(keys(old_v.update(p as int, (kv@, v))) =~= ks);
                }
                self.entries = entries;
                assert(self.view() =~= old_v.update(p as int, (kv@, v)));
                return;
            }
        }
        proof {
            lemma_sorted_insert(ks, k@, p as int);
            assert(keys(old_v.insert(p as int, (kv@, v))) =~= ks.insert(p as int, kv@));
        }
        entries.insert(p, (k, v));
        assert(entries@.map_values(|e: (String, V)| (e.0@, e.1)) =~= old_v.insert(
            p as int,
            (kv@, v),
        ));
        self.entries = entries;
        assert(self.view() =~= old_v.insert(p as int, (kv@, v)));
    }

    /// The value under `k`.
    pub fn get(&self, k: &str) -> (r: Option<&V>)
        ensures
            match r {
                Some(x) => map_get(self.view(), k@) == Some(*x),
                None => map_get(self.view(), k@) is None,
            },
    {
        let ghost v = self.view();
        let mut i: usize = 0;
        while i < self.entries.len()
            invariant
                v == self.view(),
                i <= v.len(),
                v.len() == self.entries@.len(),
                map_get(v, k@) == map_get_from(v, k@, i as int),
            decreases self.entries@.len() - i,
        {
            if crate::text::str_eq(self.entries[i].0.as_str(), k) {
                return Some(&self.entries[i].1);
            }
            i = i + 1;
        }
        None
    }

    pub fn contains_key(&self, k: &str) -> (b: bool)
        ensures
            b == (map_get(self.view(), k@) is Some),
    {
        match self.get(k) {
            Some(_) => true,
            None => false,
        }
    }

    /// The number of entries; the keys are in strictly increasing order.
    pub fn len(&self) -> (n: usize)
        ensures
            n == self.view().len(),
            strictly_sorted(keys(self.view())),
    {
        proof {
            use_type_invariant(self);
        }
        self.entries.len()
    }

    /// The `i`-th entry in key order.
    pub fn entry(&self, i: usize) -> (r: (&String, &V))
        requires
            i < self.view().len(),
        ensures
            r.0@ == self.view()[i as int].0,
            *r.1 == self.view()[i as int].1,
            strictly_sorted(keys(self.view())),
    {
        proof {
            use_type_invariant(self);
        }
        (&self.entries[i].0, &self.entries[i].1)
    }
}

} // verus!
