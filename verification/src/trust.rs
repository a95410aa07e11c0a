//! Trust classification: first party, official, third party.
//!
//! When the owner cannot be determined (no remote, not GitHub) an action is
//! treated as third party: a failure to classify falls towards more warnings,
//! never fewer.
use vstd::prelude::*;
use crate::text::{chars_of, eq_ignore_case, eq_ignore_case_v, find_sub_from, find_sub_v, index_of, index_of_v, lemma_find_sub, lines, lines_v, starts_with, starts_with_str, string_of, strip_prefix, strip_prefix_str, subvec, trim, trim_start, trim_start_v, trim_v, vec_eq, vviews};

verus! {

/// The trust level of an action's owner.
#[derive(Debug, Clone, Copy, PartialEq, Eq, Structural)]
pub enum Trust {
    /// Same owner as this repository, or an owner declared trusted.
    FirstParty,
    /// Maintained by GitHub itself: reported with a milder level.
    Official,
    /// Everyone else, whatever their reputation.
    ThirdParty,
}

/// What the classification needs: the repository owner and the owners declared
/// trusted by configuration.
pub struct TrustContext {
    repo_owner: Option<String>,
    trusted_owners: Vec<String>,
}

/// The model of a `TrustContext`.
pub struct TrustContextV {
    pub repo_owner: Option<Seq<char>>,
    pub trusted_owners: Seq<Seq<char>>,
}

/// The character sequences held by a sequence of strings.
pub open spec fn strs(v: Seq<String>) -> Seq<Seq<char>> {
    v.map_values(|s: String| s@)
}

impl View for TrustContext {
    type V = TrustContextV;

    closed spec fn view(&self) -> TrustContextV {
        TrustContextV {
            repo_owner: match self.repo_owner {
                Some(s) => Some(s@),
                None => None,
            },
            trusted_owners: strs(self.trusted_owners@),
        }
    }
}

/// The owner part of `owner/repo(/sub)`: everything before the first `/`.
pub open spec fn owner_of(s: Seq<char>) -> Seq<char> {
    s.take(index_of(s, '/', 0))
}

/// The owners that GitHub maintains itself.
pub open spec fn is_official_owner(owner: Seq<char>) -> bool {
    eq_ignore_case(owner, "actions"@) || eq_ignore_case(owner, "github"@)
}

/// The trust level of `owner_repo` in a context.
pub open spec fn classify_spec(ctx: TrustContextV, owner_repo: Seq<char>) -> Trust {
    let owner = owner_of(owner_repo);
    if ctx.repo_owner matches Some(mine) && eq_ignore_case(owner, mine) {
        Trust::FirstParty
    } else if exists|i: int|
        0 <= i < ctx.trusted_owners.len() && eq_ignore_case(owner, #[trigger] ctx.trusted_owners[i]) {
        Trust::FirstParty
    } else if is_official_owner(owner) {
        Trust::Official
    } else {
        Trust::ThirdParty
    }
}

impl TrustContext {
    pub fn new(repo_owner: Option<String>, trusted_owners: Vec<String>) -> (r: Self)
        ensures
            r@.repo_owner == (match repo_owner {
                Some(s) => Some(s@),
                None => None::<Seq<char>>,
            }),
            r@.trusted_owners == strs(trusted_owners@),
    {
        TrustContext { repo_owner, trusted_owners }
    }

    /// Classifies the owner of an `owner/repo(/sub)` reference.
    pub fn classify(&self, owner_repo: &str) -> (t: Trust)
        ensures
            t == classify_spec(self@, owner_repo@),
    {
        let v = chars_of(owner_repo);
        self.classify_v(&v)
    }

    pub fn classify_v(&self, owner_repo: &Vec<char>) -> (t: Trust)
        ensures
            t == classify_spec(self@, owner_repo@),
    {
        let k = index_of_v(owner_repo, '/', 0);
        let owner = subvec(owner_repo, 0, k);
        assert(owner@ =~= owner_of(owner_repo@));
        let same_owner = match &self.repo_owner {
            Some(mine) => {
                let m = chars_of(mine.as_str());
                eq_ignore_case_v(&owner, &m)
            },
            None => false,
        };
        if same_owner {
            return Trust::FirstParty;
        }
        let n = self.trusted_owners.len();
        let mut i: usize = 0;
        while i < n
            invariant
                n == self.trusted_owners@.len(),
                i <= n,
                owner@ == owner_of(owner_repo@),
                !(self@.repo_owner matches Some(m) && eq_ignore_case(owner@, m)),
                forall|j: int|
                    0 <= j < i ==> !eq_ignore_case(owner@, #[trigger] self@.trusted_owners[j]),
            decreases n - i,
        {
            let t = chars_of(self.trusted_owners[i].as_str());
            assert(t@ == self@.trusted_owners[i as int]);
            if eq_ignore_case_v(&owner, &t) {
                return Trust::FirstParty;
            }
            i = i + 1;
        }
        let a = chars_of("actions");
        let g = chars_of("github");
        if eq_ignore_case_v(&owner, &a) || eq_ignore_case_v(&owner, &g) {
            return Trust::Official;
        }
        Trust::ThirdParty
    }
}

/// The owner in `https://github.com/owner/repo.git` or `git@github.com:owner/repo.git`.
pub open spec fn owner_from_url_spec(url: Seq<char>) -> Option<Seq<char>> {
    let gh = "github.com"@;
    let k = find_sub_from(url, gh, 0);
    if k < 0 {
        None
    } else {
        let after = url.skip(k + gh.len());
        let k2 = find_sub_from(after, gh, 0);
        let rest = if k2 >= 0 {
            after.take(k2)
        } else {
            after
        };
        let tail = if starts_with(rest, ":"@) {
            Some(rest.skip(1))
        } else if starts_with(rest, "/"@) {
            Some(rest.skip(1))
        } else {
            None
        };
        match tail {
            None => None,
            Some(t) => {
                let owner = owner_of(t);
                if owner.len() == 0 {
                    None
                } else {
                    Some(owner)
                }
            },
        }
    }
}

/// The value of a `url = ...` line, if `t` is one.
pub open spec fn url_value(t: Seq<char>) -> Option<Seq<char>> {
    match strip_prefix(t, "url"@) {
        None => None,
        Some(r) => match strip_prefix(trim_start(r), "="@) {
            None => None,
            Some(u) => Some(trim(u)),
        },
    }
}

/// Scans the lines of a git config from line `i`; `in_origin` says whether the
/// current section is `[remote "origin"]`.
pub open spec fn git_config_owner_from(
    ls: Seq<Seq<char>>,
    i: int,
    in_origin: bool,
) -> Option<Seq<char>>
    decreases ls.len() - i,
{
    if i < 0 || i >= ls.len() {
        None
    } else {
        let t = trim(ls[i]);
        if starts_with(t, "["@) {
            git_config_owner_from(ls, i + 1, t == "[remote \"origin\"]"@)
        } else if !in_origin {
            git_config_owner_from(ls, i + 1, in_origin)
        } else {
            match url_value(t) {
                Some(u) => owner_from_url_spec(u),
                None => git_config_owner_from(ls, i + 1, in_origin),
            }
        }
    }
}

/// The GitHub owner of the `origin` remote in a git config.
pub open spec fn git_config_owner(config: Seq<char>) -> Option<Seq<char>> {
    git_config_owner_from(lines(config), 0, false)
}

/// Reads the GitHub owner from the `origin` URL of a `.git/config` text.
pub fn owner_from_git_config(config: &str) -> (r: Option<String>)
    ensures
        match r {
            Some(s) => git_config_owner(config@) == Some(s@),
            None => git_config_owner(config@) is None,
        },
{
    let cv = chars_of(config);
    let ls = lines_v(&cv);
    let ghost lsv = vviews(ls@);
    let origin = chars_of("[remote \"origin\"]");
    let mut in_origin = false;
    let n = ls.len();
    let mut i: usize = 0;
    while i < n
        invariant
            n == ls@.len(),
            lsv == vviews(ls@),
            lsv == lines(cv@),
            cv@ == config@,
            origin@ == "[remote \"origin\"]"@,
            i <= n,
            git_config_owner(config@) == git_config_owner_from(lsv, i as int, in_origin),
        decreases n - i,
    {
        let t = trim_v(&ls[i]);
        assert(t@ == trim(lsv[i as int]));
        if starts_with_str(&t, "[") {
            in_origin = vec_eq(&t, &origin);
            i = i + 1;
            continue;
        }
        if !in_origin {
            i = i + 1;
            continue;
        }
        match url_value_v(&t) {
            Some(u) => {
                let r = owner_from_url_v(&u);
                return r;
            },
            None => {
                i = i + 1;
            },
        }
    }
    None
}

fn url_value_v(t: &Vec<char>) -> (r: Option<Vec<char>>)
    ensures
        match r {
            Some(u) => url_value(t@) == Some(u@),
            None => url_value(t@) is None,
        },
{
    match strip_prefix_str(t, "url") {
        None => None,
        Some(r) => {
            let r2 = trim_start_v(&r);
            match strip_prefix_str(&r2, "=") {
                None => None,
                Some(u) => Some(trim_v(&u)),
            }
        },
    }
}

/// The owner in a GitHub remote URL.
pub fn owner_from_url(url: &str) -> (r: Option<String>)
    ensures
        match r {
            Some(s) => owner_from_url_spec(url@) == Some(s@),
            None => owner_from_url_spec(url@) is None,
        },
{
    let v = chars_of(url);
    owner_from_url_v(&v)
}

fn owner_from_url_v(url: &Vec<char>) -> (r: Option<String>)
    ensures
        match r {
            Some(s) => owner_from_url_spec(url@) == Some(s@),
            None => owner_from_url_spec(url@) is None,
        },
{
    let gh = chars_of("github.com");
    let k = match find_sub_v(url, &gh) {
        None => {
            return None;
        },
        Some(k) => k,
    };
    proof {
        crate::text::lemma_find_sub(url@, gh@, 0);
    }
    assert(k + gh.len() <= url.len());
    let after = subvec(url, k + gh.len(), url.len());
    assert(after@ =~= url@.skip(k + gh@.len()));
    let rest = match find_sub_v(&after, &gh) {
        Some(k2) => {
            proof {
                crate::text::lemma_find_sub(after@, gh@, 0);
            }
            let r = subvec(&after, 0, k2);
            assert(r@ =~= after@.take(k2 as int));
            r
        },
        None => after,
    };
    proof {
        reveal_strlit(":");
        reveal_strlit("/");
    }
    let tail = if starts_with_str(&rest, ":") || starts_with_str(&rest, "/") {
        let t = subvec(&rest, 1, rest.len());
        assert(t@ =~= rest@.skip(1));
        t
    } else {
        return None;
    };
    let j = index_of_v(&tail, '/', 0);
    let owner = subvec(&tail, 0, j);
    assert(owner@ =~= owner_of(tail@));
    if owner.len() == 0 {
        None
    } else {
        Some(string_of(&owner))
    }
}

} // verus!
