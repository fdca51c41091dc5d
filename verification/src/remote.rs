//! Resolve the PR target from configured remotes.
//!
//! With an `upstream` remote the PR goes to upstream's repo (fork workflow);
//! without one it goes to origin. In both cases `head_spec` is
//! `<origin-owner>:<branch>`, because GitHub's list-PRs `head` filter is
//! silently ignored without the owner prefix.

use crate::remote_url::{OwnerRepo, RemoteUrlError, owner_repo, parse_owner_repo};
use crate::text::{
    chars_of, concat, find, find_in, occurs_at, is_blank, owned, push_str, split_once, str_eq, string_from_range,
    trim, trim_bounds, trimmed,
};
use vstd::prelude::*;

verus! {

/// Default name of the remote that points at the upstream repository.
pub const DEFAULT_UPSTREAM_REMOTE: &'static str = "upstream";

/// Where a PR goes: the base repository, plus the owner of the fork its head
/// branch lives in.
#[derive(Debug, Clone, PartialEq, Eq)]
pub struct Target {
    owner: String,
    repo: String,
    origin_owner: String,
    upstream_remote: bool,
}

impl Target {
    /// Owner of the repository the PR goes to.
    pub closed spec fn owner_view(&self) -> Seq<char> {
        self.owner@
    }

    /// Name of the repository the PR goes to.
    pub closed spec fn repo_view(&self) -> Seq<char> {
        self.repo@
    }

    /// Owner of the repository the head branches are pushed to.
    pub closed spec fn origin_owner_view(&self) -> Seq<char> {
        self.origin_owner@
    }

    /// Whether the PR goes to an upstream repository.
    pub closed spec fn is_fork(&self) -> bool {
        self.upstream_remote
    }

    /// Owner of the repository the PR goes to: the `owner` field, as the
    /// contracts see it.
    pub fn owner_name(&self) -> (r: &str)
        ensures
            r@ == self.owner_view(),
    {
        self.owner.as_str()
    }

    /// Name of the repository the PR goes to: the `repo` field, as the
    /// contracts see it.
    pub fn repo_name(&self) -> (r: &str)
        ensures
            r@ == self.repo_view(),
    {
        self.repo.as_str()
    }

    /// Owner of the repository the head branches are pushed to.
    pub fn origin_owner(&self) -> (r: &str)
        ensures
            r@ == self.origin_owner_view(),
    {
        self.origin_owner.as_str()
    }

    /// The GitHub `head` filter for `branch`: `<origin-owner>:<branch>`.
    pub fn head_spec(&self, branch: &str) -> (r: String)
        ensures
            r@ == self.origin_owner_view() + ":"@ + branch@,
    {
        let mut r = concat(self.origin_owner.as_str(), ":");
        push_str(&mut r, branch);
        r
    }

    /// The editor-facing base for `branch`: `<owner>:<branch>` in a fork
    /// workflow, so the target repo is visible, else the bare branch.
    pub fn base_spec(&self, branch: &str) -> (r: String)
        ensures
            r@ == base_spec_view(self.owner_view(), self.is_fork(), branch@),
    {
        if self.upstream_remote {
            let mut r = concat(self.owner.as_str(), ":");
            push_str(&mut r, branch);
            r
        } else {
            owned(branch)
        }
    }
}

/// The editor-facing base display for `branch`.
pub open spec fn base_spec_view(owner: Seq<char>, fork: bool, branch: Seq<char>) -> Seq<char> {
    if fork {
        owner + ":"@ + branch
    } else {
        branch
    }
}

/// Why a base spec names no branch of the target repository.
#[derive(Debug, Clone, PartialEq, Eq)]
pub enum BaseSpecError {
    /// Nothing but white space.
    Empty,
    /// `<owner>:<branch>` with an owner other than the target's.
    OwnerMismatch { owner: String, target_owner: String },
    /// `<owner>:` with nothing after the colon.
    EmptyBranch,
}

/// The outcome of reading a base spec, over string views.
pub enum BaseBranch {
    Branch(Seq<char>),
    Empty,
    OwnerMismatch(Seq<char>),
    EmptyBranch,
}

/// The branch GitHub should target for the editor-facing `base`: the trimmed
/// value, either bare or prefixed by the target owner and a colon.
pub open spec fn base_branch(target_owner: Seq<char>, base: Seq<char>) -> BaseBranch {
    let b = trim(base);
    if b.len() == 0 {
        BaseBranch::Empty
    } else {
        match split_once(b, seq![':']) {
            None => BaseBranch::Branch(b),
            Some((owner, branch)) => if owner != target_owner {
                BaseBranch::OwnerMismatch(owner)
            } else if trim(branch).len() == 0 {
                BaseBranch::EmptyBranch
            } else {
                BaseBranch::Branch(trim(branch))
            },
        }
    }
}

impl BaseSpecError {
    /// The user-facing message.
    pub open spec fn message_view(&self) -> Seq<char> {
        match self {
            BaseSpecError::Empty => "base is empty"@,
            BaseSpecError::OwnerMismatch { owner, target_owner } => "base owner `"@ + owner@
                + "` does not match PR target owner `"@ + target_owner@ + "`"@,
            BaseSpecError::EmptyBranch => "base branch is empty"@,
        }
    }

    /// The user-facing message, e.g. ``base owner `x` does not match ...``.
    pub fn message(&self) -> (m: String)
        ensures
            m@ == self.message_view(),
    {
        match self {
            BaseSpecError::Empty => owned("base is empty"),
            BaseSpecError::OwnerMismatch { owner, target_owner } => {
                let mut m = concat("base owner `", owner.as_str());
                push_str(&mut m, "` does not match PR target owner `");
                push_str(&mut m, target_owner.as_str());
                push_str(&mut m, "`");
                m
            },
            BaseSpecError::EmptyBranch => owned("base branch is empty"),
        }
    }
}

/// Convert an editor-facing base value into the branch-only value GitHub
/// expects for `baseRefName`.
///
/// Accepts either `branch` or `<target-owner>:branch`; rejects other owners
/// so nothing is created or updated against the wrong repository.
pub fn branch_from_base_spec(target_owner: &str, base: &str) -> (r: Result<String, BaseSpecError>)
    ensures
        match r {
            Ok(branch) => base_branch(target_owner@, base@) == BaseBranch::Branch(branch@),
            Err(BaseSpecError::Empty) => base_branch(target_owner@, base@) is Empty,
            Err(BaseSpecError::EmptyBranch) => base_branch(target_owner@, base@) is EmptyBranch,
            Err(BaseSpecError::OwnerMismatch { owner, target_owner: t }) => {
                &&& t@ == target_owner@
                &&& base_branch(target_owner@, base@) == BaseBranch::OwnerMismatch(owner@)
            },
        },
{
    let b = trimmed(base);
    let bv = chars_of(b.as_str());
    if bv.len() == 0 {
        return Err(BaseSpecError::Empty);
    }
    let colon = vec![':'];
    assert(colon@ =~= seq![':']);
    match find_in(&bv, &colon) {
        None => Ok(b),
        Some(i) => {
            let owner = string_from_range(&bv, 0, i);
            if !str_eq(owner.as_str(), target_owner) {
                return Err(
                    BaseSpecError::OwnerMismatch { owner, target_owner: owned(target_owner) },
                );
            }
            let rest = string_from_range(&bv, i + 1, bv.len());
            if is_blank(rest.as_str()) {
                return Err(BaseSpecError::EmptyBranch);
            }
            Ok(trimmed(rest.as_str()))
        },
    }
}

/// The PR target for the outcomes of reading the origin and upstream URLs.
pub open spec fn target_view(origin: OwnerRepo, upstream: Option<OwnerRepo>) -> Option<
    (Seq<char>, Seq<char>, Seq<char>, bool),
> {
    match origin {
        OwnerRepo::Parsed(origin_owner, origin_repo) => match upstream {
            None => Some((origin_owner, origin_repo, origin_owner, false)),
            Some(OwnerRepo::Parsed(owner, repo)) => Some((owner, repo, origin_owner, true)),
            Some(_) => None,
        },
        _ => None,
    }
}

/// Compute the PR [`Target`] for the given remote URLs.
///
/// Errors when either URL fails to parse into `(owner, repo)`; the origin is
/// read first.
pub fn target(origin_url: &str, upstream_url: Option<&str>) -> (r: Result<Target, RemoteUrlError>)
    ensures
        match r {
            Ok(t) => {
                &&& target_view(
                    owner_repo(origin_url@),
                    match upstream_url {
                        Some(u) => Some(owner_repo(u@)),
                        None => None,
                    },
                ) == Some((t.owner_view(), t.repo_view(), t.origin_owner_view(), t.is_fork()))
                &&& t.wf()
            },
            Err(e) => if owner_repo(origin_url@) is Parsed {
                &&& upstream_url matches Some(u)
                &&& e.url() == u@
                &&& e.outcome() == owner_repo(u@)
                &&& !(owner_repo(u@) is Parsed)
            } else {
                e.url() == origin_url@ && e.outcome() == owner_repo(origin_url@)
            },
        },
{
    let (origin_owner, origin_repo) = match parse_owner_repo(origin_url) {
        Ok(pair) => pair,
        Err(e) => return Err(e),
    };
    match upstream_url {
        Some(upstream) => {
            let (owner, repo) = match parse_owner_repo(upstream) {
                Ok(pair) => pair,
                Err(e) => return Err(e),
            };
            Ok(Target { owner, repo, origin_owner, upstream_remote: true })
        },
        None => {
            let owner = owned(origin_owner.as_str());
            Ok(Target { owner, repo: origin_repo, origin_owner, upstream_remote: false })
        },
    }
}

impl Target {
    /// A target read from remote URLs: owner and repo are never empty.
    pub open spec fn wf(&self) -> bool {
        self.owner_view().len() > 0 && self.repo_view().len() > 0 && self.origin_owner_view().len()
            > 0
    }
}


/// Law: the base shown in the editor reads back as the branch it shows. For
/// a branch with no white space at its ends and no colon,
/// `branch_from_base_spec` gives back the branch that `base_spec` rendered:
/// outside a fork workflow for every owner, in one for an owner with no
/// colon and no leading white space (as GitHub owners are).
pub proof fn lemma_base_spec_round_trip(owner: Seq<char>, fork: bool, branch: Seq<char>)
    requires
        branch.len() > 0,
        trim(branch) == branch,
        !branch.contains(':'),
        fork ==> !owner.contains(':'),
        fork && owner.len() > 0 ==> !crate::text::is_ws(owner[0]),
    ensures
        base_branch(owner, base_spec_view(owner, fork, branch)) == BaseBranch::Branch(branch),
{
    let colon = seq![':'];
    crate::text::lemma_trimmed_last_not_ws(branch);
    if fork {
        let s = owner + ":"@ + branch;
        reveal_strlit(":");
        assert(s[owner.len() as int] == ':');
        assert(s.last() == branch.last());
        if owner.len() > 0 {
            assert(s[0] == owner[0]);
        }
        crate::text::lemma_trim_of_clean(s);
        assert forall|j: int| 0 <= j < owner.len() implies !occurs_at(s, colon, j) by {
            assert(s[j] == owner[j]);
            if occurs_at(s, colon, j) {
                assert(s.subrange(j, j + 1)[0] == s[j]);
                assert(owner.contains(':'));
            }
        }
        crate::text::lemma_first_at_skip(s, colon, 0, owner.len() as int);
        assert(s.subrange(owner.len() as int, owner.len() as int + 1) =~= colon);
        assert(find(s, colon) == Some(owner.len() as int));
        assert(s.subrange(0, owner.len() as int) =~= owner);
        assert(s.subrange(owner.len() as int + 1, s.len() as int) =~= branch);
    } else {
        assert forall|j: int| 0 <= j implies !occurs_at(branch, colon, j) by {
            if occurs_at(branch, colon, j) {
                assert(branch.subrange(j, j + 1)[0] == branch[j]);
                assert(branch.contains(':'));
            }
        }
        crate::text::lemma_first_at_none(branch, colon, 0);
    }
}

} // verus!
