//! The pure half of the DNS observer: reading the queried name out of a query
//! packet, choosing the upstream resolver, writing the observing resolv.conf and
//! the record file that `observe report` reads.
//!
//! The relay loop itself (sockets, files, the stop flag) lives with the program;
//! what it decides on each query is [`observe_query`].
use vstd::prelude::*;
use crate::rules::concat;
use crate::sorted::{set_insert, StrSet};
use crate::text::{
    chars_of, extend, extend_str, lines, lines_v, starts_with, starts_with_str, str_eq, string_of,
    strip_prefix, strip_prefix_str, trim, trim_v, vec_eq, vviews,
};

verus! {

/// A byte that may stand in a host-name label.
pub open spec fn label_byte_ok(b: u8) -> bool {
    (48 <= b <= 57) || (65 <= b <= 90) || (97 <= b <= 122) || b == 45 || b == 95
}

/// The lower-case character of an ASCII byte.
pub open spec fn lower_char(b: u8) -> char {
    if 65 <= b <= 90 {
        ((b + 32) as u8) as char
    } else {
        b as char
    }
}

/// The label bytes `p[a..b]`, lower-cased, if each of them is a host-name byte.
pub open spec fn label_at(p: Seq<u8>, a: int, b: int) -> Option<Seq<char>> {
    if forall|k: int| a <= k < b ==> label_byte_ok(#[trigger] p[k]) {
        Some(p.subrange(a, b).map_values(|x: u8| lower_char(x)))
    } else {
        None
    }
}

/// Reads the label sequence that starts at `pos`, after the labels `acc`.
///
/// A zero length byte ends the name; a length byte with one of its two high bits
/// set is a compression pointer, which a query's question never holds.
pub open spec fn labels_from(p: Seq<u8>, pos: int, acc: Seq<Seq<char>>) -> Option<Seq<Seq<char>>>
    decreases p.len() - pos,
{
    if pos < 0 || pos >= p.len() {
        None
    } else {
        let len = p[pos];
        if len == 0 {
            Some(acc)
        } else if len & 0xC0u8 != 0 {
            None
        } else if pos + 1 + len > p.len() {
            None
        } else {
            match label_at(p, pos + 1, pos + 1 + len) {
                None => None,
                Some(l) => labels_from(p, pos + 1 + len, acc.push(l)),
            }
        }
    }
}

/// Labels joined by dots.
pub open spec fn join_dots(ls: Seq<Seq<char>>) -> Seq<char>
    decreases ls.len(),
{
    if ls.len() == 0 {
        Seq::empty()
    } else if ls.len() == 1 {
        ls[0]
    } else {
        join_dots(ls.drop_last()) + seq!['.'] + ls.last()
    }
}

/// The name asked by the first question of a DNS query: none for a packet
/// shorter than the header, for a zero question count, for a compression
/// pointer, a truncated label, a label byte outside `[A-Za-z0-9_-]`, or the
/// root name alone. The name is lower-cased.
pub open spec fn extract_qname_spec(p: Seq<u8>) -> Option<Seq<char>> {
    if p.len() < 12 {
        None
    } else if p[4] == 0 && p[5] == 0 {
        None
    } else {
        match labels_from(p, 12, Seq::empty()) {
            None => None,
            Some(ls) => if ls.len() == 0 {
                None
            } else {
                Some(join_dots(ls))
            },
        }
    }
}

/// A character of a host-name label as `extract_qname` gives it: a lower-case
/// ASCII letter, a digit, `-` or `_`.
pub open spec fn label_char(c: char) -> bool {
    ('a' <= c <= 'z') || ('0' <= c <= '9') || c == '-' || c == '_'
}

/// A non-empty run of label characters.
pub open spec fn good_label(l: Seq<char>) -> bool {
    l.len() > 0 && forall|i: int| 0 <= i < l.len() ==> label_char(#[trigger] l[i])
}

/// A host name: labels of label characters joined by single dots, with no dot
/// at either end.
pub open spec fn host_name(s: Seq<char>) -> bool {
    &&& s.len() > 0
    &&& forall|i: int| 0 <= i < s.len() ==> label_char(#[trigger] s[i]) || s[i] == '.'
    &&& s[0] != '.'
    &&& s.last() != '.'
    &&& forall|i: int| 0 <= i < s.len() - 1 && #[trigger] s[i] == '.' ==> s[i + 1] != '.'
}

proof fn lemma_lower_char(b: u8)
    requires
        label_byte_ok(b),
    ensures
        label_char(lower_char(b)),
{
}

proof fn lemma_labels_good(p: Seq<u8>, pos: int, acc: Seq<Seq<char>>)
    requires
        forall|k: int| 0 <= k < acc.len() ==> good_label(#[trigger] acc[k]),
    ensures
        labels_from(p, pos, acc) matches Some(ls) ==> forall|k: int|
            0 <= k < ls.len() ==> good_label(#[trigger] ls[k]),
    decreases p.len() - pos,
{
    if 0 <= pos < p.len() {
        let len = p[pos];
        if len != 0 && len & 0xC0u8 == 0 && pos + 1 + len <= p.len() {
            match label_at(p, pos + 1, pos + 1 + len) {
                None => {},
                Some(l) => {
                    assert(good_label(l)) by {
                        assert forall|i: int| 0 <= i < l.len() implies label_char(#[trigger] l[i]) by {
                            assert(label_byte_ok(p[pos + 1 + i]));
                            lemma_lower_char(p[pos + 1 + i]);
                        }
                    }
                    let acc2 = acc.push(l);
                    assert forall|k: int| 0 <= k < acc2.len() implies good_label(#[trigger] acc2[k]) by {
                        if k < acc.len() {
                            assert(acc2[k] == acc[k]);
                        }
                    }
                    lemma_labels_good(p, pos + 1 + len, acc2);
                },
            }
        }
    }
}

proof fn lemma_join_host(ls: Seq<Seq<char>>)
    requires
        ls.len() > 0,
        forall|k: int| 0 <= k < ls.len() ==> good_label(#[trigger] ls[k]),
    ensures
        host_name(join_dots(ls)),
    decreases ls.len(),
{
    if ls.len() == 1 {
        assert(good_label(ls[0]));
    } else {
        let d = ls.drop_last();
        assert forall|k: int| 0 <= k < d.len() implies good_label(#[trigger] d[k]) by {
            assert(d[k] == ls[k]);
        }
        lemma_join_host(d);
        let j = join_dots(d);
        let l = ls.last();
        assert(good_label(l));
        let s = join_dots(ls);
        assert(s == j + seq!['.'] + l);
        assert forall|i: int| 0 <= i < s.len() implies label_char(#[trigger] s[i]) || s[i] == '.' by {
            if i < j.len() {
                assert(s[i] == j[i]);
            } else if i > j.len() {
                assert(s[i] == l[i - j.len() - 1]);
            }
        }
        assert(s[0] == j[0]);
        assert(s.last() == l.last());
        assert(label_char(l[l.len() - 1]));
        assert forall|i: int| 0 <= i < s.len() - 1 && #[trigger] s[i] == '.' implies s[i + 1] != '.' by {
            if i < j.len() - 1 {
                assert(s[i] == j[i]);
                assert(s[i + 1] == j[i + 1]);
            } else if i == j.len() - 1 {
                assert(s[i] == j.last());
            } else if i == j.len() {
                assert(s[i + 1] == l[0]);
                assert(label_char(l[0]));
            } else {
                assert(s[i] == l[i - j.len() - 1]);
                assert(label_char(l[i - j.len() - 1]));
            }
        }
    }
}

/// A name read out of a query is a host name: lower-case letters, digits, `-`
/// and `_` in labels joined by single dots, with no dot at either end; and a
/// packet shorter than the header, or one with no question, gives none.
pub proof fn query_names_are_host_names(p: Seq<u8>)
    ensures
        extract_qname_spec(p) matches Some(s) ==> host_name(s),
        p.len() < 12 || (p[4] == 0 && p[5] == 0) ==> extract_qname_spec(p) is None,
{
    if p.len() >= 12 && !(p[4] == 0 && p[5] == 0) {
        lemma_labels_good(p, 12, Seq::empty());
        match labels_from(p, 12, Seq::empty()) {
            Some(ls) => if ls.len() > 0 {
                lemma_join_host(ls);
            },
            None => {},
        }
    }
}

fn byte_ok(b: u8) -> (r: bool)
    ensures
        r == label_byte_ok(b),
{
    (48 <= b && b <= 57) || (65 <= b && b <= 90) || (97 <= b && b <= 122) || b == 45 || b == 95
}

fn lower_byte(b: u8) -> (c: char)
    ensures
        c == lower_char(b),
{
    if 65 <= b && b <= 90 {
        (b + 32) as char
    } else {
        b as char
    }
}

/// Reads `packet[a..b]` as a label.
fn read_label(packet: &[u8], a: usize, b: usize) -> (r: Option<Vec<char>>)
    requires
        a <= b <= packet@.len(),
    ensures
        match r {
            Some(v) => label_at(packet@, a as int, b as int) == Some(v@),
            None => label_at(packet@, a as int, b as int) is None,
        },
{
    let ghost p = packet@;
    let mut out: Vec<char> = Vec::new();
    let mut j: usize = a;
    while j < b
        invariant
            p == packet@,
            a <= j <= b <= p.len(),
            forall|k: int| a <= k < j ==> label_byte_ok(#[trigger] p[k]),
            out@ == p.subrange(a as int, j as int).map_values(|x: u8| lower_char(x)),
        decreases b - j,
    {
        let x = packet[j];
        if !byte_ok(x) {
            assert(!label_byte_ok(p[j as int]));
            return None;
        }
        out.push(lower_byte(x));
        j = j + 1;
        assert(out@ =~= p.subrange(a as int, j as int).map_values(|x: u8| lower_char(x)));
    }
    Some(out)
}

fn join_dots_v(ls: &Vec<Vec<char>>) -> (r: Vec<char>)
    ensures
        r@ == join_dots(vviews(ls@)),
{
    let ghost lv = vviews(ls@);
    let mut out: Vec<char> = Vec::new();
    let mut i: usize = 0;
    while i < ls.len()
        invariant
            lv == vviews(ls@),
            i <= ls@.len(),
            out@ == join_dots(lv.take(i as int)),
        decreases ls@.len() - i,
    {
        let ghost t = lv.take(i as int + 1);
        assert(t.drop_last() =~= lv.take(i as int));
        if i > 0 {
            out.push('.');
        }
        extend(&mut out, &ls[i]);
        i = i + 1;
        proof {
            if i == 1 {
                assert(out@ =~= t[0]);
            } else {
                assert(out@ =~= join_dots(t.drop_last()) + seq!['.'] + t.last());
            }
        }
    }
    assert(lv.take(ls@.len() as int) =~= lv);
    out
}

/// The first question's name of a DNS query packet (see [`extract_qname_spec`]).
pub fn extract_qname(packet: &[u8]) -> (r: Option<String>)
    ensures
        match r {
            Some(s) => extract_qname_spec(packet@) == Some(s@),
            None => extract_qname_spec(packet@) is None,
        },
{
    let ghost p = packet@;
    if packet.len() < 12 {
        return None;
    }
    if packet[4] == 0 && packet[5] == 0 {
        return None;
    }
    let mut pos: usize = 12;
    let mut labels: Vec<Vec<char>> = Vec::new();
    assert(vviews(labels@) =~= Seq::<Seq<char>>::empty());
    loop
        invariant
            p == packet@,
            12 <= pos,
            p.len() >= 12,
            labels_from(p, 12, Seq::empty()) == labels_from(p, pos as int, vviews(labels@)),
        ensures
            labels_from(p, 12, Seq::empty()) == Some(vviews(labels@)),
        decreases p.len() - pos,
    {
        if pos >= packet.len() {
            return None;
        }
        let len = packet[pos];
        if len == 0 {
            break;
        }
        if len & 0xC0u8 != 0 {
            return None;
        }
        let l = len as usize;
        if l > packet.len() - pos - 1 {
            return None;
        }
        let end = pos + 1 + l;
        match read_label(packet, pos + 1, end) {
            None => {
                return None;
            },
            Some(lab) => {
                let ghost before = vviews(labels@);
                labels.push(lab);
                assert(vviews(labels@) =~= before.push(lab@));
            },
        }
        pos = end;
    }
    if labels.len() == 0 {
        return None;
    }
    let j = join_dots_v(&labels);
    Some(string_of(&j))
}

// ------------------------------------------------------------------
// resolv.conf
// ------------------------------------------------------------------
pub const LOCALHOST: &'static str = "127.0.0.1";
pub const NAMESERVER: &'static str = "nameserver ";

/// The upstream address named on a line, if it names one other than localhost.
pub open spec fn nameserver_of(line: Seq<char>) -> Option<Seq<char>> {
    match strip_prefix(trim(line), NAMESERVER@) {
        Some(rest) => if trim(rest).len() > 0 && trim(rest) != LOCALHOST@ {
            Some(trim(rest))
        } else {
            None
        },
        None => None,
    }
}

pub open spec fn first_nameserver_from(ls: Seq<Seq<char>>, i: int) -> Option<Seq<char>>
    decreases ls.len() - i,
{
    if i < 0 || i >= ls.len() {
        None
    } else {
        match nameserver_of(ls[i]) {
            Some(a) => Some(a),
            None => first_nameserver_from(ls, i + 1),
        }
    }
}

/// The first `nameserver` of a resolv.conf that is not 127.0.0.1: the upstream.
pub open spec fn first_nameserver_spec(resolv: Seq<char>) -> Option<Seq<char>> {
    first_nameserver_from(lines(resolv), 0)
}

/// The first `nameserver` address of a resolv.conf other than 127.0.0.1.
pub fn first_nameserver(resolv: &str) -> (r: Option<String>)
    ensures
        match r {
            Some(a) => first_nameserver_spec(resolv@) == Some(a@),
            None => first_nameserver_spec(resolv@) is None,
        },
{
    let cv = chars_of(resolv);
    let ls = lines_v(&cv);
    let ghost lv = vviews(ls@);
    let local = chars_of(LOCALHOST);
    let mut i: usize = 0;
    while i < ls.len()
        invariant
            lv == vviews(ls@),
            lv == lines(resolv@),
            local@ == LOCALHOST@,
            i <= ls@.len(),
            first_nameserver_spec(resolv@) == first_nameserver_from(lv, i as int),
        decreases ls@.len() - i,
    {
        let t = trim_v(&ls[i]);
        match strip_prefix_str(&t, NAMESERVER) {
            Some(rest) => {
                let a = trim_v(&rest);
                if a.len() > 0 && !vec_eq(&a, &local) {
                    return Some(string_of(&a));
                }
            },
            None => {},
        }
        i = i + 1;
    }
    None
}

pub const RESOLV_HEAD: &'static str = "# just-shield observe — 127.0.0.1 우선, 원본은 폴백.\n";
pub const RESOLV_FIRST: &'static str = "nameserver 127.0.0.1\n";
pub const LOCAL_LINE: &'static str = "nameserver 127.0.0.1";

/// Whether a line of the original resolv.conf is carried over: all but a
/// localhost nameserver (it comes first already) and comments.
pub open spec fn kept_line(line: Seq<char>) -> bool {
    trim(line) != LOCAL_LINE@ && !starts_with(trim(line), seq!['#'])
}

pub open spec fn kept_text(line: Seq<char>) -> Seq<char> {
    if kept_line(line) {
        line.push('\n')
    } else {
        Seq::empty()
    }
}

/// The resolv.conf that turns observation on: 127.0.0.1 first, and the
/// original resolvers after it as fallback, so that name resolution goes on
/// when the observer is down.
pub open spec fn observing_resolv_spec(original: Seq<char>) -> Seq<char> {
    RESOLV_HEAD@ + RESOLV_FIRST@ + concat(lines(original).map_values(|l: Seq<char>| kept_text(l)))
}

/// Builds the observing resolv.conf from the original one.
pub fn observing_resolv(original: &str) -> (s: String)
    ensures
        s@ == observing_resolv_spec(original@),
{
    let cv = chars_of(original);
    let ls = lines_v(&cv);
    let ghost lv = vviews(ls@);
    let ghost m = lv.map_values(|l: Seq<char>| kept_text(l));
    let mut out: Vec<char> = Vec::new();
    extend_str(&mut out, RESOLV_HEAD);
    extend_str(&mut out, RESOLV_FIRST);
    let ghost head = out@;
    let mut i: usize = 0;
    while i < ls.len()
        invariant
            lv == vviews(ls@),
            lv == lines(original@),
            m == lv.map_values(|l: Seq<char>| kept_text(l)),
            i <= ls@.len(),
            out@ == head + concat(m.take(i as int)),
        decreases ls@.len() - i,
    {
        proof {
            crate::rules::lemma_concat_step(m, i as int);
        }
        let t = trim_v(&ls[i]);
        let ghost b = out@;
        if !str_eq_v(&t, LOCAL_LINE) && !starts_with_str(&t, "#") {
            extend(&mut out, &ls[i]);
            out.push('\n');
        }
        proof {
            reveal_strlit("#");
            assert("#"@ =~= seq!['#']);
        }
        assert(out@ =~= b + m[i as int]);
        i = i + 1;
    }
    assert(m.take(ls@.len() as int) =~= m);
    string_of(&out)
}

fn str_eq_v(v: &Vec<char>, s: &str) -> (b: bool)
    ensures
        b == (v@ == s@),
{
    let w = chars_of(s);
    vec_eq(v, &w)
}

// ------------------------------------------------------------------
// The record file
// ------------------------------------------------------------------
pub const RECORD_HEAD_A: &'static str = "# just-shield observe 기록 — 잡 '";
pub const RECORD_HEAD_B: &'static str = "'이 조회한 도메인.\njob ";

/// The record file of a job and the domains it looked up, one per line.
pub open spec fn render_record_spec(job: Seq<char>, domains: Seq<Seq<char>>) -> Seq<char> {
    RECORD_HEAD_A@ + job + RECORD_HEAD_B@ + job + seq!['\n'] + concat(
        domains.map_values(|d: Seq<char>| d.push('\n')),
    )
}

/// Writes the record file in the format that `observe report` reads.
pub fn render_record(job: &str, domains: &StrSet) -> (s: String)
    ensures
        s@ == render_record_spec(job@, domains.view()),
{
    let ghost dv = domains.view();
    let ghost m = dv.map_values(|d: Seq<char>| d.push('\n'));
    let mut out: Vec<char> = Vec::new();
    extend_str(&mut out, RECORD_HEAD_A);
    extend_str(&mut out, job);
    extend_str(&mut out, RECORD_HEAD_B);
    extend_str(&mut out, job);
    out.push('\n');
    let ghost head = out@;
    let mut i: usize = 0;
    while i < domains.len()
        invariant
            dv == domains.view(),
            m == dv.map_values(|d: Seq<char>| d.push('\n')),
            i <= dv.len(),
            out@ == head + concat(m.take(i as int)),
        decreases dv.len() - i,
    {
        proof {
            crate::rules::lemma_concat_step(m, i as int);
        }
        let ghost b = out@;
        extend_str(&mut out, domains.get(i).as_str());
        out.push('\n');
        assert(out@ =~= b + m[i as int]);
        i = i + 1;
    }
    assert(m.take(dv.len() as int) =~= m);
    string_of(&out)
}

/// What the relay does with one query: a name not seen before joins the set,
/// and the record text to flush to disk at once is handed back; anything else
/// (no readable name, a name already seen) changes nothing.
pub fn observe_query(seen: &mut StrSet, job: &str, query: &[u8]) -> (r: Option<String>)
    ensures
        match extract_qname_spec(query@) {
            Some(name) => if old(seen).view().contains(name) {
                final(seen).view() == old(seen).view() && r is None
            } else {
                &&& final(seen).view() == set_insert(old(seen).view(), name)
                &&& r matches Some(t) && t@ == render_record_spec(job@, final(seen).view())
            },
            None => final(seen).view() == old(seen).view() && r is None,
        },
{
    match extract_qname(query) {
        None => None,
        Some(name) => {
            if seen.contains(name.as_str()) {
                None
            } else {
                seen.insert(name);
                Some(render_record(job, seen))
            }
        },
    }
}

// ------------------------------------------------------------------
// The record file reads back
// ------------------------------------------------------------------
/// A job name that the record format can carry: not empty, no whitespace at
/// either end, no `#` and no line break in it.
pub open spec fn clean_job(j: Seq<char>) -> bool {
    &&& j.len() > 0
    &&& !crate::text::is_ws(j[0])
    &&& !crate::text::is_ws(j.last())
    &&& forall|k: int| 0 <= k < j.len() ==> #[trigger] j[k] != '#' && j[k] != '\n'
}

/// A domain as the observer records it: not empty, normalized, no whitespace
/// and no `#` in it.
pub open spec fn clean_domain(d: Seq<char>) -> bool {
    &&& d.len() > 0
    &&& crate::egress_lockfile::normalize_spec(d) == d
    &&& forall|k: int| 0 <= k < d.len() ==> !crate::text::is_ws(#[trigger] d[k]) && d[k] != '#'
}

proof fn lemma_no_hash(s: Seq<char>)
    requires
        forall|k: int| 0 <= k < s.len() ==> #[trigger] s[k] != '#',
    ensures
        crate::egress_lockfile::content_of(s) == trim(s),
{
    crate::text::lemma_index_of(s, '#', 0);
    let k = crate::text::index_of(s, '#', 0);
    if k < s.len() {
        assert(s[k] == '#');
    }
    assert(s.take(k) =~= s);
}

proof fn lemma_domains_read(
    all: Seq<Seq<char>>,
    job: Seq<char>,
    domains: Seq<Seq<char>>,
    j: int,
)
    requires
        crate::sorted::strictly_sorted(domains),
        forall|i: int| 0 <= i < domains.len() ==> clean_domain(#[trigger] domains[i]),
        all.len() == domains.len() + 2,
        forall|i: int| 0 <= i < domains.len() ==> #[trigger] all[i + 2] == domains[i],
        0 <= j <= domains.len(),
    ensures
        crate::observe::record_from(all, j + 2, Some(job), domains.take(j)) == Ok::<
            crate::observe::RecordV,
            Seq<char>,
        >(crate::observe::RecordV { job, domains }),
    decreases domains.len() - j,
{
    if j == domains.len() {
        assert(domains.take(j) =~= domains);
    } else {
        let d = domains[j];
        assert(all[j + 2] == d);
        assert(clean_domain(d));
        lemma_no_hash(d);
        crate::text::lemma_trim_id(d);
        assert(crate::egress_lockfile::content_of(d) == d);
        reveal_strlit("job ");
        if starts_with(d, "job "@) {
            assert(d.take(4)[3] == d[3]);
            assert(crate::text::is_ws(' '));
        }
        assert(strip_prefix(d, "job "@) is None);
        assert(!crate::observe::has_ws(d));
        assert forall|q: int| 0 <= q < domains.take(j).len() implies crate::sorted::lex_lt(
            #[trigger] domains.take(j)[q],
            d,
        ) by {
            assert(domains.take(j)[q] == domains[q]);
        }
        crate::sorted::lemma_set_insert_last(domains.take(j), d);
        assert(domains.take(j).push(d) =~= domains.take(j + 1));
        lemma_domains_read(all, job, domains, j + 1);
    }
}

/// What the observer writes, `observe report` reads back: parsing the record
/// of a job and its (sorted, normalized) domains gives that job and exactly
/// those domains.
pub proof fn record_reads_back(job: Seq<char>, domains: Seq<Seq<char>>)
    requires
        clean_job(job),
        crate::sorted::strictly_sorted(domains),
        forall|i: int| 0 <= i < domains.len() ==> clean_domain(#[trigger] domains[i]),
    ensures
        crate::observe::parse_record_spec(render_record_spec(job, domains)) == Ok::<
            crate::observe::RecordV,
            Seq<char>,
        >(crate::observe::RecordV { job, domains }),
{
    let tail = "'이 조회한 도메인."@;
    reveal_strlit("# just-shield observe 기록 — 잡 '");
    reveal_strlit("'이 조회한 도메인.\njob ");
    reveal_strlit("'이 조회한 도메인.");
    reveal_strlit("job ");
    let hl = RECORD_HEAD_A@ + job + tail;
    let l2 = "job "@ + job;
    let hs = seq![hl, l2];
    crate::rules::lemma_concat_lines(domains);
    crate::text::lemma_text_of_lines_step(hs, 0);
    crate::text::lemma_text_of_lines_step(hs, 1);
    assert(hs.take(0) =~= Seq::<Seq<char>>::empty());
    assert(hs.take(2) =~= hs);
    crate::text::lemma_text_of_lines_append(hs, domains);
    assert(render_record_spec(job, domains) =~= crate::text::text_of_lines(hs + domains));
    let all = hs + domains;
    assert forall|i: int| 0 <= i < all.len() implies crate::text::plain_line(#[trigger] all[i]) by {
        if i == 0 {
            assert(all[0] == hl);
            assert forall|k: int| 0 <= k < hl.len() implies #[trigger] hl[k] != '\n' by {
                if RECORD_HEAD_A@.len() <= k < RECORD_HEAD_A@.len() + job.len() {
                    assert(hl[k] == job[k - RECORD_HEAD_A@.len()]);
                }
            }
        } else if i == 1 {
            assert(all[1] == l2);
            assert forall|k: int| 0 <= k < l2.len() implies #[trigger] l2[k] != '\n' by {
                if k >= 4 {
                    assert(l2[k] == job[k - 4]);
                }
            }
        } else {
            let d = domains[i - 2];
            assert(all[i] == d);
            assert(clean_domain(d));
            assert forall|k: int| 0 <= k < d.len() implies #[trigger] d[k] != '\n' by {
                assert(!crate::text::is_ws(d[k]));
            }
        }
    }
    crate::text::lemma_lines_of_text(all);
    let e = Seq::<Seq<char>>::empty();
    // The comment line.
    assert(hl[0] == '#');
    crate::text::lemma_index_of(hl, '#', 0);
    assert(hl.take(0) =~= Seq::<char>::empty());
    assert(crate::egress_lockfile::content_of(hl) =~= Seq::<char>::empty());
    assert(crate::observe::record_from(all, 0, None, e) == crate::observe::record_from(all, 1, None, e));
    // The job line.
    assert forall|k: int| 0 <= k < l2.len() implies #[trigger] l2[k] != '#' by {
        if k >= 4 {
            assert(l2[k] == job[k - 4]);
        }
    }
    lemma_no_hash(l2);
    assert(l2.last() == job.last());
    crate::text::lemma_trim_id(l2);
    crate::text::lemma_trim_id(job);
    assert(l2.take(4) =~= "job "@);
    assert(l2.skip(4) =~= job);
    assert(crate::observe::record_from(all, 1, None, e) == crate::observe::record_from(
        all,
        2,
        Some(job),
        e,
    ));
    assert forall|i: int| 0 <= i < domains.len() implies #[trigger] all[i + 2] == domains[i] by {}
    lemma_domains_read(all, job, domains, 0);
    assert(domains.take(0) =~= e);
}

// ------------------------------------------------------------------
// The observing resolv.conf
// ------------------------------------------------------------------
/// The lines of the original that are carried over, in order.
pub open spec fn kept_lines(ls: Seq<Seq<char>>) -> Seq<Seq<char>>
    decreases ls.len(),
{
    if ls.len() == 0 {
        Seq::empty()
    } else {
        kept_lines(ls.drop_last()) + if kept_line(ls.last()) {
            seq![ls.last()]
        } else {
            Seq::empty()
        }
    }
}

proof fn lemma_kept_text(ls: Seq<Seq<char>>)
    ensures
        concat(ls.map_values(|l: Seq<char>| kept_text(l))) == crate::text::text_of_lines(kept_lines(ls)),
        forall|i: int| 0 <= i < kept_lines(ls).len() ==> ls.contains(#[trigger] kept_lines(ls)[i]),
    decreases ls.len(),
{
    if ls.len() == 0 {
        assert(crate::text::text_of_lines(Seq::<Seq<char>>::empty()) =~= Seq::<char>::empty());
    } else {
        let d = ls.drop_last();
        lemma_kept_text(d);
        let m = ls.map_values(|l: Seq<char>| kept_text(l));
        assert(m.drop_last() =~= d.map_values(|l: Seq<char>| kept_text(l)));
        let last = ls.last();
        let tail: Seq<Seq<char>> = if kept_line(last) {
            seq![last]
        } else {
            Seq::empty()
        };
        crate::text::lemma_text_of_lines_append(kept_lines(d), tail);
        if kept_line(last) {
            crate::text::lemma_text_of_lines_step(tail, 0);
            assert(tail.take(0) =~= Seq::<Seq<char>>::empty());
            assert(tail.take(1) =~= tail);
            assert(crate::text::text_of_lines(tail) =~= last.push('\n'));
        } else {
            assert(crate::text::text_of_lines(tail) =~= Seq::<char>::empty());
        }
        assert(concat(m) =~= crate::text::text_of_lines(kept_lines(d)) + crate::text::text_of_lines(tail));
        let k = kept_lines(ls);
        assert forall|i: int| 0 <= i < k.len() implies ls.contains(#[trigger] k[i]) by {
            if i < kept_lines(d).len() {
                assert(k[i] == kept_lines(d)[i]);
                let z = choose|z: int| 0 <= z < d.len() && d[z] == k[i];
                assert(ls[z] == d[z]);
            } else {
                assert(k[i] == last);
                assert(ls[ls.len() - 1] == last);
            }
        }
    }
}

/// Observation puts 127.0.0.1 first and keeps the original resolvers behind it
/// as fallback: the lines of the new resolv.conf are its comment, the
/// localhost nameserver, then every line of the original but comments and a
/// localhost nameserver, in order (for an original whose lines end cleanly).
pub proof fn observing_resolv_keeps_the_original(original: Seq<char>)
    requires
        forall|i: int|
            0 <= i < lines(original).len() ==> crate::text::plain_line(#[trigger] lines(original)[i]),
    ensures
        lines(observing_resolv_spec(original)) == seq![
            "# just-shield observe — 127.0.0.1 우선, 원본은 폴백."@,
            LOCAL_LINE@,
        ] + kept_lines(lines(original)),
{
    let h1 = "# just-shield observe — 127.0.0.1 우선, 원본은 폴백."@;
    reveal_strlit("# just-shield observe — 127.0.0.1 우선, 원본은 폴백.");
    reveal_strlit("# just-shield observe — 127.0.0.1 우선, 원본은 폴백.\n");
    reveal_strlit("nameserver 127.0.0.1\n");
    reveal_strlit("nameserver 127.0.0.1");
    let ls = lines(original);
    lemma_kept_text(ls);
    let k = kept_lines(ls);
    let all = seq![h1, LOCAL_LINE@] + k;
    let hs = seq![h1, LOCAL_LINE@];
    crate::text::lemma_text_of_lines_step(hs, 0);
    crate::text::lemma_text_of_lines_step(hs, 1);
    assert(hs.take(0) =~= Seq::<Seq<char>>::empty());
    assert(hs.take(2) =~= hs);
    crate::text::lemma_text_of_lines_append(hs, k);
    assert(observing_resolv_spec(original) =~= crate::text::text_of_lines(all));
    assert forall|i: int| 0 <= i < all.len() implies crate::text::plain_line(#[trigger] all[i]) by {
        if i >= 2 {
            assert(all[i] == k[i - 2]);
            let z = choose|z: int| 0 <= z < ls.len() && ls[z] == k[i - 2];
            assert(crate::text::plain_line(ls[z]));
        } else if i == 0 {
            assert(all[0] == h1);
        } else {
            assert(all[1] == LOCAL_LINE@);
        }
    }
    crate::text::lemma_lines_of_text(all);
}

proof fn lemma_first_ns_shift(a: Seq<Seq<char>>, b: Seq<Seq<char>>, j: int)
    requires
        0 <= j <= b.len(),
    ensures
        first_nameserver_from(a + b, a.len() + j) == first_nameserver_from(b, j),
    decreases b.len() - j,
{
    if j < b.len() {
        lemma_first_ns_shift(a, b, j + 1);
        assert((a + b)[a.len() + j] == b[j]);
    }
}

proof fn lemma_first_ns_append(a: Seq<Seq<char>>, b: Seq<Seq<char>>, i: int)
    requires
        0 <= i <= a.len(),
    ensures
        first_nameserver_from(a + b, i) == match first_nameserver_from(a, i) {
            Some(x) => Some(x),
            None => first_nameserver_from(b, 0),
        },
    decreases a.len() - i,
{
    if i < a.len() {
        lemma_first_ns_append(a, b, i + 1);
        assert((a + b)[i] == a[i]);
    } else {
        lemma_first_ns_shift(a, b, 0);
    }
}

/// A line that the observing resolv.conf leaves out names no upstream.
proof fn lemma_dropped_names_none(line: Seq<char>)
    requires
        !kept_line(line),
    ensures
        nameserver_of(line) is None,
{
    reveal_strlit("nameserver 127.0.0.1");
    reveal_strlit("nameserver ");
    reveal_strlit("127.0.0.1");
    let t = trim(line);
    if t == LOCAL_LINE@ {
        let rest = t.skip(11);
        assert(starts_with(t, NAMESERVER@)) by {
            assert(t.take(11) =~= NAMESERVER@);
        }
        assert(rest =~= LOCALHOST@);
        crate::text::lemma_trim_id(rest);
    } else {
        assert(starts_with(t, seq!['#']));
        assert(t.take(1)[0] == '#');
        if starts_with(t, NAMESERVER@) {
            assert(t.take(11)[0] == 'n');
        }
    }
}

proof fn lemma_first_ns_kept(ls: Seq<Seq<char>>)
    ensures
        first_nameserver_from(kept_lines(ls), 0) == first_nameserver_from(ls, 0),
    decreases ls.len(),
{
    if ls.len() > 0 {
        let d = ls.drop_last();
        let x = ls.last();
        lemma_first_ns_kept(d);
        assert(d + seq![x] =~= ls);
        lemma_first_ns_append(d, seq![x], 0);
        if kept_line(x) {
            lemma_first_ns_append(kept_lines(d), seq![x], 0);
        } else {
            lemma_dropped_names_none(x);
            assert(kept_lines(ls) =~= kept_lines(d));
            assert(first_nameserver_from(seq![x], 1) is None);
        }
    }
}

/// Observing leaves the upstream resolver where it was: the observing
/// resolv.conf names the same first upstream nameserver as the original.
pub proof fn observing_resolv_keeps_the_upstream(original: Seq<char>)
    requires
        forall|i: int|
            0 <= i < lines(original).len() ==> crate::text::plain_line(#[trigger] lines(original)[i]),
    ensures
        first_nameserver_spec(observing_resolv_spec(original)) == first_nameserver_spec(original),
{
    let h1 = "# just-shield observe — 127.0.0.1 우선, 원본은 폴백."@;
    reveal_strlit("# just-shield observe — 127.0.0.1 우선, 원본은 폴백.");
    reveal_strlit("nameserver 127.0.0.1");
    observing_resolv_keeps_the_original(original);
    let hs = seq![h1, LOCAL_LINE@];
    let k = kept_lines(lines(original));
    lemma_first_ns_append(hs, k, 0);
    lemma_first_ns_kept(lines(original));
    assert(!kept_line(h1)) by {
        crate::text::lemma_trim_id(h1);
        assert(h1.take(1) =~= seq!['#']);
    }
    lemma_dropped_names_none(h1);
    assert(trim(LOCAL_LINE@) == LOCAL_LINE@) by {
        crate::text::lemma_trim_id(LOCAL_LINE@);
    }
    lemma_dropped_names_none(LOCAL_LINE@);
    assert(hs[0] == h1 && hs[1] == LOCAL_LINE@);
    assert(first_nameserver_from(hs, 2) is None);
    assert(first_nameserver_from(hs, 1) is None);
    assert(first_nameserver_from(hs, 0) is None);
    assert(lines(observing_resolv_spec(original)) == hs + k);
}

} // verus!
