//! Decomposing a `uses:` reference.
//!
//! Whether a reference is mutable (tag or branch) or immutable (a 40-digit commit
//! SHA) is a syntactic fact, and the mutable-reference rule decides on it alone.
use vstd::prelude::*;
use crate::text::{chars_of, digit, index_of, index_of_v, is_ascii_hex, is_ascii_hexdigit, split_once, split_once_v, starts_with, starts_with_str, string_of, subvec};

verus! {

/// What a `uses:` value points at.
pub enum UsesRef {
    /// A local action inside this repository (`./...`).
    Local,
    /// A container image reference (`docker://...`).
    DockerImage,
    /// An action in another repository.
    Repository { owner_repo: String, git_ref: Option<RefKind> },
}

/// The kind of reference a repository action is pinned to.
pub enum RefKind {
    /// A 40-digit hexadecimal commit SHA: immutable.
    CommitSha(String),
    /// A tag or branch: mutable, it can be moved to another commit.
    Mutable(String),
}

/// The model of a `RefKind`.
pub enum RefKindV {
    CommitSha(Seq<char>),
    Mutable(Seq<char>),
}

/// The model of a `UsesRef`.
pub enum UsesRefV {
    Local,
    DockerImage,
    Repository { owner_repo: Seq<char>, git_ref: Option<RefKindV> },
}

impl View for RefKind {
    type V = RefKindV;

    open spec fn view(&self) -> RefKindV {
        match self {
            RefKind::CommitSha(s) => RefKindV::CommitSha(s@),
            RefKind::Mutable(s) => RefKindV::Mutable(s@),
        }
    }
}

impl View for UsesRef {
    type V = UsesRefV;

    open spec fn view(&self) -> UsesRefV {
        match self {
            UsesRef::Local => UsesRefV::Local,
            UsesRef::DockerImage => UsesRefV::DockerImage,
            UsesRef::Repository { owner_repo, git_ref } => UsesRefV::Repository {
                owner_repo: owner_repo@,
                git_ref: match git_ref {
                    Some(k) => Some(k@),
                    None => None,
                },
            },
        }
    }
}

/// Exactly 40 hexadecimal digits.
pub open spec fn is_sha(s: Seq<char>) -> bool {
    s.len() == 40 && forall|i: int| 0 <= i < s.len() ==> is_ascii_hex(#[trigger] s[i])
}

/// The classification of a `uses:` value.
pub open spec fn parse_spec(v: Seq<char>) -> UsesRefV {
    if starts_with(v, "./"@) || starts_with(v, ".\\"@) {
        UsesRefV::Local
    } else if starts_with(v, "docker://"@) {
        UsesRefV::DockerImage
    } else {
        match split_once(v, '@') {
            None => UsesRefV::Repository { owner_repo: v, git_ref: None },
            Some((path, r)) => UsesRefV::Repository {
                owner_repo: path,
                git_ref: Some(
                    if is_sha(r) {
                        RefKindV::CommitSha(r)
                    } else {
                        RefKindV::Mutable(r)
                    },
                ),
            },
        }
    }
}

/// `owner/repo` of `owner/repo/subpath`: everything before the second `/`.
pub open spec fn repo_root_spec(s: Seq<char>) -> Seq<char> {
    let k1 = index_of(s, '/', 0);
    if k1 < s.len() {
        let k2 = index_of(s, '/', k1 + 1);
        if k2 < s.len() {
            s.take(k2)
        } else {
            s
        }
    } else {
        s
    }
}

/// Classifies a `uses:` value.
pub fn parse(value: &str) -> (r: UsesRef)
    ensures
        r@ == parse_spec(value@),
{
    let v = chars_of(value);
    parse_v(&v)
}

pub fn parse_v(v: &Vec<char>) -> (r: UsesRef)
    ensures
        r@ == parse_spec(v@),
{
    if starts_with_str(v, "./") || starts_with_str(v, ".\\") {
        return UsesRef::Local;
    }
    if starts_with_str(v, "docker://") {
        return UsesRef::DockerImage;
    }
    match split_once_v(v, '@') {
        None => UsesRef::Repository { owner_repo: string_of(v), git_ref: None },
        Some((path, r)) => {
            let kind = if is_commit_sha(&r) {
                RefKind::CommitSha(string_of(&r))
            } else {
                RefKind::Mutable(string_of(&r))
            };
            UsesRef::Repository { owner_repo: string_of(&path), git_ref: Some(kind) }
        },
    }
}

/// Whether `s` is a full commit SHA.
pub fn is_commit_sha(s: &Vec<char>) -> (b: bool)
    ensures
        b == is_sha(s@),
{
    if s.len() != 40 {
        return false;
    }
    let mut i: usize = 0;
    while i < s.len()
        invariant
            i <= s@.len(),
            forall|k: int| 0 <= k < i ==> is_ascii_hex(#[trigger] s@[k]),
        decreases s@.len() - i,
    {
        if !is_ascii_hexdigit(s[i]) {
            return false;
        }
        i = i + 1;
    }
    true
}

/// The repository part (`owner/repo`) of `owner/repo/subpath`: a tag belongs to
/// the repository.
pub fn repo_root(owner_repo: &str) -> (r: String)
    ensures
        r@ == repo_root_spec(owner_repo@),
{
    let v = chars_of(owner_repo);
    let r = repo_root_v(&v);
    string_of(&r)
}

pub fn repo_root_v(s: &Vec<char>) -> (r: Vec<char>)
    ensures
        r@ == repo_root_spec(s@),
{
    let k1 = index_of_v(s, '/', 0);
    if k1 < s.len() {
        let k2 = index_of_v(s, '/', k1 + 1);
        if k2 < s.len() {
            let r = subvec(s, 0, k2);
            assert(r@ =~= s@.take(k2 as int));
            return r;
        }
    }
    subvec_all(s)
}

/// A copy of `s`.
pub fn subvec_all(s: &Vec<char>) -> (r: Vec<char>)
    ensures
        r@ == s@,
{
    let r = subvec(s, 0, s.len());
    assert(r@ =~= s@);
    r
}

} // verus!
