//! Extract `(owner, repo)` from a git remote URL.
//!
//! Supports https, ssh, and the `git@host:owner/repo` shorthand. The trailing
//! `.git` suffix is stripped when present.

use crate::text::{
    chars_of, concat, ends_with, find, find_in, matches_at, occurs_at, owned, split_once, starts_with,
    string_from_range,
    strip_leading, strip_leading_char,
};
use vstd::prelude::*;

verus! {

#[verifier::external_type_specification]
#[verifier::external_body]
pub struct ExUrlParseError(::url::ParseError);

/// The path component of the URL that `url::Url::parse` reads from `input`,
/// or `None` when the `url` crate rejects `input`.
pub uninterp spec fn url_path(input: Seq<char>) -> Option<Seq<char>>;

/// `url::Url::parse(input)` followed by `Url::path`. The contract claims only
/// that the result is a function of `input`, named [`url_path`]: `Ok` carries
/// the path the crate computed, `Err` the crate's own parse error.
#[verifier::external_body]
fn parse_url_path(input: &str) -> (r: Result<String, ::url::ParseError>)
    ensures
        match r {
            Ok(p) => url_path(input@) == Some(p@),
            Err(_) => url_path(input@) is None,
        },
{
    match ::url::Url::parse(input) {
        Ok(parsed) => Ok(parsed.path().to_string()),
        Err(e) => Err(e),
    }
}

/// Why a remote URL yields no `(owner, repo)`. Each variant carries the URL.
#[derive(Debug, Clone, PartialEq, Eq)]
pub enum RemoteUrlError {
    /// `git@...` without the `:` that separates host and path.
    InvalidSshShorthand(String),
    /// The `url` crate rejected the URL.
    CouldNotParse(String),
    /// The path has no owner component.
    MissingOwner(String),
    /// The path has no repo component.
    MissingRepo(String),
}

/// The outcome of reading a remote URL, over string views.
pub enum OwnerRepo {
    Parsed(Seq<char>, Seq<char>),
    InvalidSshShorthand,
    CouldNotParse,
    MissingOwner,
    MissingRepo,
}

impl RemoteUrlError {
    /// The URL the error is about.
    pub open spec fn url(&self) -> Seq<char> {
        match self {
            RemoteUrlError::InvalidSshShorthand(u) => u@,
            RemoteUrlError::CouldNotParse(u) => u@,
            RemoteUrlError::MissingOwner(u) => u@,
            RemoteUrlError::MissingRepo(u) => u@,
        }
    }

    /// The outcome this error reports.
    pub open spec fn outcome(&self) -> OwnerRepo {
        match self {
            RemoteUrlError::InvalidSshShorthand(_) => OwnerRepo::InvalidSshShorthand,
            RemoteUrlError::CouldNotParse(_) => OwnerRepo::CouldNotParse,
            RemoteUrlError::MissingOwner(_) => OwnerRepo::MissingOwner,
            RemoteUrlError::MissingRepo(_) => OwnerRepo::MissingRepo,
        }
    }

    /// The user-facing message.
    pub open spec fn message_view(&self) -> Seq<char> {
        match self {
            RemoteUrlError::InvalidSshShorthand(u) => "invalid ssh shorthand: "@ + u@,
            RemoteUrlError::CouldNotParse(u) => "could not parse url: "@ + u@,
            RemoteUrlError::MissingOwner(u) => "missing owner in url: "@ + u@,
            RemoteUrlError::MissingRepo(u) => "missing repo in url: "@ + u@,
        }
    }

    /// The user-facing message, e.g. `missing owner in url: https://github.com/`.
    pub fn message(&self) -> (m: String)
        ensures
            m@ == self.message_view(),
    {
        match self {
            RemoteUrlError::InvalidSshShorthand(u) => concat("invalid ssh shorthand: ", u.as_str()),
            RemoteUrlError::CouldNotParse(u) => concat("could not parse url: ", u.as_str()),
            RemoteUrlError::MissingOwner(u) => concat("missing owner in url: ", u.as_str()),
            RemoteUrlError::MissingRepo(u) => concat("missing repo in url: ", u.as_str()),
        }
    }
}

/// The `owner/repo[.git]` path a remote URL names, before any splitting:
/// after the first `:` for the `git@` shorthand, else the parsed URL path
/// without its leading slashes. `None` when no path can be read.
pub open spec fn remote_path(u: Seq<char>) -> Option<Seq<char>> {
    if starts_with(u, "git@"@) {
        match split_once(u.subrange("git@"@.len() as int, u.len() as int), seq![':']) {
            Some((_, path)) => Some(path),
            None => None,
        }
    } else {
        match url_path(u) {
            Some(p) => Some(strip_leading(p, '/')),
            None => None,
        }
    }
}

/// `p` without one trailing `.git`.
pub open spec fn without_git_suffix(p: Seq<char>) -> Seq<char> {
    if ends_with(p, ".git"@) {
        p.subrange(0, p.len() - ".git"@.len())
    } else {
        p
    }
}

/// What [`parse_owner_repo`] reads from the remote URL `u`: the path split at
/// its first `/` into a non-empty owner and a non-empty repo.
pub open spec fn owner_repo(u: Seq<char>) -> OwnerRepo {
    match remote_path(u) {
        None => if starts_with(u, "git@"@) {
            OwnerRepo::InvalidSshShorthand
        } else {
            OwnerRepo::CouldNotParse
        },
        Some(path) => {
            let p = without_git_suffix(path);
            match split_once(p, seq!['/']) {
                None => if p.len() == 0 {
                    OwnerRepo::MissingOwner
                } else {
                    OwnerRepo::MissingRepo
                },
                Some((owner, repo)) => if owner.len() == 0 {
                    OwnerRepo::MissingOwner
                } else if repo.len() == 0 {
                    OwnerRepo::MissingRepo
                } else {
                    OwnerRepo::Parsed(owner, repo)
                },
            }
        },
    }
}

/// The path of a parsed URL with its leading slashes taken off.
pub fn path_after_url(p: &str) -> (r: String)
    ensures
        r@ == strip_leading(p@, '/'),
{
    let pv = chars_of(p);
    let start = strip_leading_char(&pv, '/');
    string_from_range(&pv, start, pv.len())
}

/// The path part of `remote_url`; see [`remote_path`].
pub fn extract_path(remote_url: &str) -> (r: Result<String, RemoteUrlError>)
    ensures
        match r {
            Ok(p) => remote_path(remote_url@) == Some(p@),
            Err(e) => {
                &&& remote_path(remote_url@) is None
                &&& e.url() == remote_url@
                &&& e.outcome() == owner_repo(remote_url@)
            },
        },
{
    let v = chars_of(remote_url);
    let prefix = chars_of("git@");
    if matches_at(&v, &prefix, 0) {
        let rest = string_from_range(&v, prefix.len(), v.len());
        let rv = chars_of(rest.as_str());
        let colon = vec![':'];
        assert(colon@ =~= seq![':']);
        match find_in(&rv, &colon) {
            Some(i) => {
                let path = string_from_range(&rv, i + 1, rv.len());
                Ok(path)
            },
            None => Err(RemoteUrlError::InvalidSshShorthand(owned(remote_url))),
        }
    } else {
        match parse_url_path(remote_url) {
            Ok(p) => Ok(path_after_url(p.as_str())),
            Err(_) => Err(RemoteUrlError::CouldNotParse(owned(remote_url))),
        }
    }
}

/// Parse a git remote URL into `(owner, repo)`.
///
/// Errors when the URL is unparseable or does not contain an `owner/repo`
/// path component.
pub fn parse_owner_repo(remote_url: &str) -> (r: Result<(String, String), RemoteUrlError>)
    ensures
        match r {
            Ok((owner, repo)) => owner_repo(remote_url@) == OwnerRepo::Parsed(owner@, repo@),
            Err(e) => e.url() == remote_url@ && e.outcome() == owner_repo(remote_url@),
        },
{
    let path = match extract_path(remote_url) {
        Ok(p) => p,
        Err(e) => return Err(e),
    };
    let pv = chars_of(path.as_str());
    let suffix = chars_of(".git");
    let end = if suffix.len() <= pv.len() && matches_at(&pv, &suffix, pv.len() - suffix.len()) {
        pv.len() - suffix.len()
    } else {
        pv.len()
    };
    let p = string_from_range(&pv, 0, end);
    let ghost pg = without_git_suffix(path@);
    assert(p@ == pg);
    let qv = chars_of(p.as_str());
    let slash = vec!['/'];
    assert(slash@ =~= seq!['/']);
    match find_in(&qv, &slash) {
        None => {
            if qv.len() == 0 {
                Err(RemoteUrlError::MissingOwner(owned(remote_url)))
            } else {
                Err(RemoteUrlError::MissingRepo(owned(remote_url)))
            }
        },
        Some(i) => {
            let owner = string_from_range(&qv, 0, i);
            let repo = string_from_range(&qv, i + 1, qv.len());
            if i == 0 {
                Err(RemoteUrlError::MissingOwner(owned(remote_url)))
            } else if repo.as_str().unicode_len() == 0 {
                Err(RemoteUrlError::MissingRepo(owned(remote_url)))
            } else {
                Ok((owner, repo))
            }
        },
    }
}

/// Splitting at the first `c` of `pre + c + post`, where `pre` holds no `c`,
/// gives `pre` and `post`.
proof fn lemma_split_at_first(pre: Seq<char>, c: char, post: Seq<char>)
    requires
        !pre.contains(c),
    ensures
        split_once(pre + seq![c] + post, seq![c]) == Some((pre, post)),
{
    let s = pre + seq![c] + post;
    let n = seq![c];
    assert forall|j: int| 0 <= j < pre.len() implies !occurs_at(s, n, j) by {
        if occurs_at(s, n, j) {
            assert(s.subrange(j, j + 1)[0] == s[j]);
            assert(s[j] == pre[j]);
        }
    }
    crate::text::lemma_first_at_skip(s, n, 0, pre.len() as int);
    assert(s.subrange(pre.len() as int, pre.len() + 1 as int) =~= n);
    assert(s.subrange(0, pre.len() as int) =~= pre);
    assert(s.subrange(pre.len() + 1 as int, s.len() as int) =~= post);
}

/// Law of remote URLs: a parsed owner and repo are never empty, and the
/// owner holds no `/`.
pub proof fn lemma_parsed_owner_repo(u: Seq<char>)
    ensures
        owner_repo(u) matches OwnerRepo::Parsed(owner, repo) ==> owner.len() > 0 && repo.len() > 0
            && !owner.contains('/'),
{
    if let Some(path) = remote_path(u) {
        let p = without_git_suffix(path);
        if let Some(i) = find(p, seq!['/']) {
            crate::text::lemma_first_at_found(p, seq!['/'], 0, i);
            let owner = p.subrange(0, i);
            assert forall|j: int| 0 <= j < owner.len() implies owner[j] != '/' by {
                if owner[j] == '/' {
                    assert(p.subrange(j, j + 1) =~= seq!['/']);
                    assert(occurs_at(p, seq!['/'], j));
                }
            }
        }
    }
}

/// Law of the `git@host:owner/repo` shorthand: with or without a `.git`
/// suffix it names the same owner and repo.
pub proof fn lemma_shorthand_owner_repo(host: Seq<char>, owner: Seq<char>, repo: Seq<char>)
    requires
        host.len() > 0,
        !host.contains(':'),
        owner.len() > 0,
        !owner.contains('/'),
        repo.len() > 0,
        !ends_with(repo, ".git"@),
    ensures
        owner_repo("git@"@ + host + ":"@ + owner + "/"@ + repo + ".git"@) == OwnerRepo::Parsed(owner, repo),
        owner_repo("git@"@ + host + ":"@ + owner + "/"@ + repo) == OwnerRepo::Parsed(owner, repo),
{
    reveal_strlit("git@");
    reveal_strlit(":");
    reveal_strlit("/");
    reveal_strlit(".git");
    let plain = owner + "/"@ + repo;
    let suffixed = plain + ".git"@;
    lemma_split_at_first(owner, '/', repo);
    assert(owner + seq!['/'] + repo =~= plain);
    assert(":"@ =~= seq![':']);
    assert("/"@ =~= seq!['/']);
    let u1 = "git@"@ + host + ":"@ + suffixed;
    let u2 = "git@"@ + host + ":"@ + plain;
    assert(u1 =~= "git@"@ + host + ":"@ + owner + "/"@ + repo + ".git"@);
    assert(u2 =~= "git@"@ + host + ":"@ + owner + "/"@ + repo);
    // The shorthand prefix and the host.
    assert(u1.subrange(0, 4) =~= "git@"@);
    assert(u2.subrange(0, 4) =~= "git@"@);
    lemma_split_at_first(host, ':', suffixed);
    lemma_split_at_first(host, ':', plain);
    assert(u1.subrange(4, u1.len() as int) =~= host + seq![':'] + suffixed);
    assert(u2.subrange(4, u2.len() as int) =~= host + seq![':'] + plain);
    assert(starts_with(u1, "git@"@));
    assert(starts_with(u2, "git@"@));
    assert(remote_path(u1) == Some(suffixed));
    assert(remote_path(u2) == Some(plain));
    // One `.git` comes off the suffixed path; the plain one has none.
    assert(suffixed.subrange(suffixed.len() - 4, suffixed.len() as int) =~= ".git"@);
    assert(suffixed.subrange(0, suffixed.len() - 4) =~= plain);
    assert(without_git_suffix(suffixed) == plain);
    if ends_with(plain, ".git"@) {
        if repo.len() >= 4 {
            assert(plain.subrange(plain.len() - 4, plain.len() as int) =~= repo.subrange(
                repo.len() - 4,
                repo.len() as int,
            ));
        } else {
            let k = owner.len() - (plain.len() - 4);
            assert(plain[owner.len() as int] == '/');
            assert(plain.subrange(plain.len() - 4, plain.len() as int)[k] == '/');
        }
    }
    assert(without_git_suffix(plain) == plain);
    assert(split_once(plain, seq!['/']) == Some((owner, repo)));
    assert(owner_repo(u1) == OwnerRepo::Parsed(owner, repo));
    assert(owner_repo(u2) == OwnerRepo::Parsed(owner, repo));
}

} // verus!
