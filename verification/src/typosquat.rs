//! Typosquatting similarity, the basis of the look-alike rule.
//!
//! The reference list ships inside the library. The distance is OSA (optimal
//! string alignment, restricted Damerau-Levenshtein): swapping two adjacent
//! characters costs one, so `aquasecurtiy` is one edit from `aquasecurity`.
use vstd::prelude::*;
use crate::text::{byte_len, prefix_bytes, chars_of, lines, lines_v, starts_with, starts_with_str, string_of, trim, trim_v, vviews, str_eq};

verus! {

/// The bundled list of well-known actions, one per line; `#` starts a comment.
pub const BUNDLED: &'static str = "# Well-known actions that look-alike names are compared against.\n# One `owner/repo` per line. No two entries may be one edit apart.\nactions/checkout\nactions/cache\nactions/setup-node\nactions/setup-python\nactions/setup-go\nactions/setup-java\nactions/setup-dotnet\nactions/upload-artifact\nactions/download-artifact\nactions/github-script\nactions/labeler\nactions/stale\nactions/create-release\nactions/upload-pages-artifact\nactions/deploy-pages\nactions/configure-pages\nactions/dependency-review-action\nactions/attest-build-provenance\ngithub/codeql-action\naquasecurity/trivy-action\naquasecurity/setup-trivy\ndocker/build-push-action\ndocker/login-action\ndocker/setup-buildx-action\ndocker/setup-qemu-action\ndocker/metadata-action\npeter-evans/create-pull-request\nsoftprops/action-gh-release\ncodecov/codecov-action\ntj-actions/changed-files\ndtolnay/rust-toolchain\nswatinem/rust-cache\nhashicorp/setup-terraform\naws-actions/configure-aws-credentials\nazure/login\ngoogle-github-actions/auth\ngolangci/golangci-lint-action\npnpm/action-setup\nruby/setup-ruby\nreviewdog/action-setup\npeaceiris/actions-gh-pages\nJamesIves/github-pages-deploy-action\nslackapi/slack-github-action\nsigstore/cosign-installer\nossf/scorecard-action\nanchore/scan-action\nsnyk/actions\ngradle/actions\nbufbuild/buf-action\nastral-sh/setup-uv\noven-sh/setup-bun\ndenoland/setup-deno\nshivammathur/setup-php\nCheckmarx/kics-github-action\nstep-security/harden-runner\n";

/// What `str::to_lowercase` returns for a string: the Unicode lowercase mapping.
pub uninterp spec fn unicode_lower(s: Seq<char>) -> Seq<char>;

/// `str::to_lowercase`: the Unicode lowercase equivalent of `s`.
#[verifier::external_body]
pub(crate) fn to_lowercase(s: &str) -> (r: String)
    ensures
        r@ == unicode_lower(s@),
{
    s.to_lowercase()
}

/// A list line that names an action: neither blank nor a comment.
pub open spec fn list_entry(l: Seq<char>) -> bool {
    trim(l).len() > 0 && !starts_with(trim(l), "#"@)
}

/// The lowercased entries of lines `i..` of a list.
pub open spec fn list_from(ls: Seq<Seq<char>>, i: int) -> Seq<Seq<char>>
    decreases ls.len() - i,
{
    if 0 <= i < ls.len() {
        if list_entry(ls[i]) {
            seq![unicode_lower(trim(ls[i]))] + list_from(ls, i + 1)
        } else {
            list_from(ls, i + 1)
        }
    } else {
        Seq::empty()
    }
}

/// The entries of a list text: trimmed, comments and blank lines dropped,
/// lowercased.
pub open spec fn popular_list(text: Seq<char>) -> Seq<Seq<char>> {
    list_from(lines(text), 0)
}

/// The bundled list of well-known actions (lowercase).
pub fn bundled_popular() -> (r: Vec<String>)
    ensures
        r.deep_view() == popular_list(BUNDLED@),
{
    let cv = chars_of(BUNDLED);
    let ls = lines_v(&cv);
    let ghost lv = vviews(ls@);
    let mut out: Vec<String> = Vec::new();
    let mut i: usize = 0;
    while i < ls.len()
        invariant
            lv == vviews(ls@),
            lv == lines(BUNDLED@),
            i <= ls@.len(),
            popular_list(BUNDLED@) == out.deep_view() + list_from(lv, i as int),
        decreases ls@.len() - i,
    {
        let t = trim_v(&ls[i]);
        if t.len() > 0 && !starts_with_str(&t, "#") {
            let ghost before = out.deep_view();
            let ts = string_of(&t);
            out.push(to_lowercase(ts.as_str()));
            assert(out.deep_view() =~= before + seq![unicode_lower(trim(lv[i as int]))]);
        }
        i = i + 1;
        assert(popular_list(BUNDLED@) =~= out.deep_view() + list_from(lv, i as int));
    }
    assert(out.deep_view() + list_from(lv, i as int) =~= out.deep_view());
    out
}

// ------------------------------------------------------------------
// OSA distance
// ------------------------------------------------------------------
pub open spec fn min2(x: nat, y: nat) -> nat {
    if x <= y {
        x
    } else {
        y
    }
}

/// The OSA distance between the first `i` characters of `a` and the first `j`
/// of `b`: insertion, deletion, substitution and adjacent transposition each
/// cost one, and no substring is edited twice.
pub open spec fn osa(a: Seq<char>, b: Seq<char>, i: nat, j: nat) -> nat
    decreases i + j,
{
    if i == 0 {
        j
    } else if j == 0 {
        i
    } else {
        let cost: nat = if a[i - 1] == b[j - 1] {
            0
        } else {
            1
        };
        let m = min2(
            min2(osa(a, b, (i - 1) as nat, j) + 1, osa(a, b, i, (j - 1) as nat) + 1),
            osa(a, b, (i - 1) as nat, (j - 1) as nat) + cost,
        );
        if i > 1 && j > 1 && a[i - 1] == b[j - 2] && a[i - 2] == b[j - 1] {
            min2(m, osa(a, b, (i - 2) as nat, (j - 2) as nat) + 1)
        } else {
            m
        }
    }
}

/// The OSA distance between two whole strings.
pub open spec fn osa_distance_spec(a: Seq<char>, b: Seq<char>) -> nat {
    osa(a, b, a.len(), b.len())
}

pub proof fn lemma_osa_bound(a: Seq<char>, b: Seq<char>, i: nat, j: nat)
    ensures
        osa(a, b, i, j) <= if i <= j {
            j
        } else {
            i
        },
    decreases i + j,
{
    if i > 0 && j > 0 {
        lemma_osa_bound(a, b, (i - 1) as nat, (j - 1) as nat);
    }
}

proof fn lemma_osa_symmetric(a: Seq<char>, b: Seq<char>, i: nat, j: nat)
    ensures
        osa(a, b, i, j) == osa(b, a, j, i),
    decreases i + j,
{
    if i > 0 && j > 0 {
        lemma_osa_symmetric(a, b, (i - 1) as nat, j);
        lemma_osa_symmetric(a, b, i, (j - 1) as nat);
        lemma_osa_symmetric(a, b, (i - 1) as nat, (j - 1) as nat);
        if i > 1 && j > 1 {
            lemma_osa_symmetric(a, b, (i - 2) as nat, (j - 2) as nat);
        }
    }
}

proof fn lemma_osa_same(a: Seq<char>, i: nat)
    ensures
        osa(a, a, i, i) == 0,
    decreases i,
{
    if i > 0 {
        lemma_osa_same(a, (i - 1) as nat);
    }
}

/// The distance does not depend on the order of the names, and a name is at
/// distance zero from itself.
pub proof fn osa_distance_is_symmetric_and_zero_on_equal(a: Seq<char>, b: Seq<char>)
    ensures
        osa_distance_spec(a, b) == osa_distance_spec(b, a),
        osa_distance_spec(a, a) == 0,
{
    lemma_osa_symmetric(a, b, a.len(), b.len());
    lemma_osa_same(a, a.len());
}

fn min_u128(x: u128, y: u128) -> (r: u128)
    ensures
        r == min2(x as nat, y as nat),
{
    if x <= y {
        x
    } else {
        y
    }
}

/// OSA (optimal string alignment) distance: insertion, deletion, substitution
/// and adjacent transposition each cost one.
pub fn osa_distance(a: &str, b: &str) -> (d: usize)
    ensures
        d == osa_distance_spec(a@, b@),
{
    let av = chars_of(a);
    let bv = chars_of(b);
    let m = av.len();
    let n = bv.len();
    // Row 0.
    let mut prev: Vec<u128> = Vec::new();
    prev.push(0);
    let mut j: usize = 0;
    while j < n
        invariant
            n == bv@.len(),
            j <= n,
            prev@.len() == j + 1,
            forall|k: int| 0 <= k <= j ==> prev@[k] == osa(av@, bv@, 0, k as nat),
        decreases n - j,
    {
        prev.push((j + 1) as u128);
        j = j + 1;
    }
    let mut prev2: Vec<u128> = Vec::new();
    // `i` rows are done; `prev` is row `i`, `prev2` row `i - 1`.
    let mut i: usize = 0;
    while i < m
        invariant
            m == av@.len(),
            n == bv@.len(),
            i <= m,
            prev@.len() == n + 1,
            forall|k: int| 0 <= k <= n ==> prev@[k] == osa(av@, bv@, i as nat, k as nat),
            i >= 1 ==> prev2@.len() == n + 1,
            i >= 1 ==> forall|k: int|
                0 <= k <= n ==> prev2@[k] == osa(av@, bv@, (i - 1) as nat, k as nat),
        decreases m - i,
    {
        let r = i + 1;
        let mut cur: Vec<u128> = Vec::new();
        cur.push(r as u128);
        let mut jj: usize = 0;
        while jj < n
            invariant
                m == av@.len(),
                n == bv@.len(),
                i < m,
                r == i + 1,
                jj <= n,
                cur@.len() == jj + 1,
                prev@.len() == n + 1,
                forall|k: int| 0 <= k <= n ==> prev@[k] == osa(av@, bv@, i as nat, k as nat),
                i >= 1 ==> prev2@.len() == n + 1,
                i >= 1 ==> forall|k: int|
                    0 <= k <= n ==> prev2@[k] == osa(av@, bv@, (i - 1) as nat, k as nat),
                forall|k: int| 0 <= k <= jj ==> cur@[k] == osa(av@, bv@, r as nat, k as nat),
            decreases n - jj,
        {
            let c = jj + 1;
            proof {
                lemma_osa_bound(av@, bv@, i as nat, c as nat);
                lemma_osa_bound(av@, bv@, r as nat, jj as nat);
                lemma_osa_bound(av@, bv@, i as nat, jj as nat);
                if i >= 1 && jj >= 1 {
                    lemma_osa_bound(av@, bv@, (i - 1) as nat, (jj - 1) as nat);
                }
            }
            let cost: u128 = if av[i] == bv[jj] {
                0
            } else {
                1
            };
            let mut v = min_u128(min_u128(prev[c] + 1, cur[jj] + 1), prev[jj] + cost);
            if i >= 1 && jj >= 1 && av[i] == bv[jj - 1] && av[i - 1] == bv[jj] {
                v = min_u128(v, prev2[jj - 1] + 1);
            }
            assert(v == osa(av@, bv@, r as nat, c as nat));
            cur.push(v);
            jj = jj + 1;
        }
        prev2 = prev;
        prev = cur;
        i = i + 1;
    }
    proof {
        lemma_osa_bound(av@, bv@, m as nat, n as nat);
    }
    let d = prev[n];
    assert(d <= if m <= n { n } else { m });
    d as usize
}

// ------------------------------------------------------------------
// Look-alike search
// ------------------------------------------------------------------
pub open spec fn abs_diff(x: nat, y: nat) -> nat {
    if x >= y {
        (x - y) as nat
    } else {
        (y - x) as nat
    }
}

/// A list item within one edit of the candidate (the byte lengths, compared
/// first, differ by at most one).
pub open spec fn one_edit_away(candidate: Seq<char>, p: Seq<char>) -> bool {
    abs_diff(byte_len(candidate), byte_len(p)) <= 1 && osa_distance_spec(candidate, p) == 1
}

/// The first item of `popular` from index `k` within one edit of `candidate`.
pub open spec fn first_one_edit(candidate: Seq<char>, popular: Seq<Seq<char>>, k: int) -> Option<
    Seq<char>,
>
    decreases popular.len() - k,
{
    if 0 <= k < popular.len() {
        if one_edit_away(candidate, popular[k]) {
            Some(popular[k])
        } else {
            first_one_edit(candidate, popular, k + 1)
        }
    } else {
        None
    }
}

/// The look-alike of `owner_repo` in `popular`: the lowercased name when it is
/// in the list is the real thing (`None`), otherwise the first item within one
/// edit.
pub open spec fn similar_popular_spec(owner_repo: Seq<char>, popular: Seq<Seq<char>>) -> Option<
    Seq<char>,
> {
    similar_lowered_spec(unicode_lower(owner_repo), popular)
}

/// The look-alike of an already lowercased name: `None` when it is in the
/// list (the real thing), otherwise the first item within one edit.
pub open spec fn similar_lowered_spec(candidate: Seq<char>, popular: Seq<Seq<char>>) -> Option<Seq<char>> {
    if popular.contains(candidate) {
        None
    } else {
        first_one_edit(candidate, popular, 0)
    }
}

/// Returns the item of `popular` that the lowercased name `candidate` is one
/// edit away from; an exact match gives `None`.
pub fn similar_popular_lowered(candidate: &str, popular: &[String]) -> (r: Option<String>)
    ensures
        r.deep_view() == similar_lowered_spec(candidate@, popular.deep_view()),
{
    let ghost pv = popular.deep_view();
    let mut k: usize = 0;
    while k < popular.len()
        invariant
            pv == popular.deep_view(),
            k <= popular@.len(),
            forall|q: int| 0 <= q < k ==> pv[q] != candidate@,
        decreases popular@.len() - k,
    {
        if str_eq(popular[k].as_str(), candidate) {
            assert(pv[k as int] == candidate@);
            assert(pv.contains(candidate@));
            return None;
        }
        k = k + 1;
    }
    assert(!pv.contains(candidate@));
    let cv = chars_of(candidate);
    let clen = prefix_bytes(&cv, cv.len());
    assert(cv@.take(cv@.len() as int) =~= cv@);
    let mut i: usize = 0;
    while i < popular.len()
        invariant
            pv == popular.deep_view(),
            clen == byte_len(candidate@),
            !pv.contains(candidate@),
            i <= popular@.len(),
            similar_lowered_spec(candidate@, pv) == first_one_edit(candidate@, pv, i as int),
        decreases popular@.len() - i,
    {
        let p = &popular[i];
        let pc = chars_of(p.as_str());
        let plen = prefix_bytes(&pc, pc.len());
        assert(pc@.take(pc@.len() as int) =~= pc@);
        let close = if clen >= plen {
            clen - plen <= 1
        } else {
            plen - clen <= 1
        };
        if close && osa_distance(candidate, p.as_str()) == 1 {
            return Some(string_of(&chars_of(p.as_str())));
        }
        i = i + 1;
    }
    None
}

/// Returns the item of `popular` that `owner_repo` is one edit away from; an
/// exact match (the real action, not a look-alike) gives `None`.
pub fn similar_popular(owner_repo: &str, popular: &[String]) -> (r: Option<String>)
    ensures
        r.deep_view() == similar_popular_spec(owner_repo@, popular.deep_view()),
{
    let candidate = to_lowercase(owner_repo);
    similar_popular_lowered(candidate.as_str(), popular)
}

} // verus!
