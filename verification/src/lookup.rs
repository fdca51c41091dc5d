//! Resolving what a command names: a PR number or a revision, the git
//! remote to use, and the errors when something needed is missing.
use vstd::prelude::*;
use crate::gh::PrSummary;
use crate::remote::DEFAULT_UPSTREAM_REMOTE;
use crate::text::{chars_of, concat, owned, push_str};

verus! {

/// The value of ASCII digits `d`, most significant first.
pub open spec fn digits_value(d: Seq<char>) -> nat
    decreases d.len(),
{
    if d.len() == 0 {
        0
    } else {
        digits_value(d.drop_last()) * 10 + ((d.last() as u32) - ('0' as u32)) as nat
    }
}

/// Whether every character of `d` is an ASCII digit.
pub open spec fn all_digits(d: Seq<char>) -> bool {
    forall|i: int| 0 <= i < d.len() ==> '0' <= #[trigger] d[i] <= '9'
}

/// The number `s` spells as `u64::from_str` reads it: an optional `+`, then
/// one or more ASCII digits, with a value that fits in 64 bits.
pub open spec fn pr_number_view(s: Seq<char>) -> Option<u64> {
    let d = if s.len() > 0 && s[0] == '+' {
        s.drop_first()
    } else {
        s
    };
    if d.len() > 0 && all_digits(d) && digits_value(d) <= u64::MAX {
        Some(digits_value(d) as u64)
    } else {
        None
    }
}

proof fn lemma_digits_value_prefix(d: Seq<char>, i: int)
    requires
        0 <= i < d.len(),
        all_digits(d),
    ensures
        digits_value(d.subrange(0, i + 1)) == digits_value(d.subrange(0, i)) * 10 + ((d[i] as u32) - ('0' as u32)) as nat,
{
    assert(d.subrange(0, i + 1).drop_last() =~= d.subrange(0, i));
}

proof fn lemma_digits_value_grows(d: Seq<char>, i: int)
    requires
        0 <= i <= d.len(),
        all_digits(d),
    ensures
        digits_value(d.subrange(0, i)) <= digits_value(d),
    decreases d.len() - i,
{
    if i < d.len() {
        lemma_digits_value_grows(d, i + 1);
        lemma_digits_value_prefix(d, i);
    } else {
        assert(d.subrange(0, i) =~= d);
    }
}

/// A PR number, when `s` is one.
pub fn parse_pr_number(s: &str) -> (r: Option<u64>)
    ensures
        r == pr_number_view(s@),
{
    let v = chars_of(s);
    let start: usize = if v.len() > 0 && v[0] == '+' {
        1
    } else {
        0
    };
    let ghost d = v@.subrange(start as int, v@.len() as int);
    assert(d == if s@.len() > 0 && s@[0] == '+' {
        s@.drop_first()
    } else {
        s@
    });
    if start == v.len() {
        return None;
    }
    let mut value: u64 = 0;
    let mut i: usize = start;
    while i < v.len()
        invariant
            start <= i <= v@.len(),
            v@ == s@,
            d == v@.subrange(start as int, v@.len() as int),
            d == (if s@.len() > 0 && s@[0] == '+' {
                s@.drop_first()
            } else {
                s@
            }),
            forall|j: int| start <= j < i ==> '0' <= #[trigger] v@[j] <= '9',
            value == digits_value(v@.subrange(start as int, i as int)),
        decreases v@.len() - i,
    {
        let c = v[i];
        if !('0' <= c && c <= '9') {
            proof {
                assert(d[i - start] == c);
                assert(!all_digits(d));
            }
            return None;
        }
        let digit = (c as u32 - '0' as u32) as u64;
        proof {
            assert(v@.subrange(start as int, i + 1).drop_last() =~= v@.subrange(start as int, i as int));
        }
        if value > (u64::MAX - digit) / 10 {
            proof {
                assert(digits_value(v@.subrange(start as int, i + 1)) == value * 10 + digit);
                assert(value * 10 + digit > u64::MAX) by (nonlinear_arith)
                    requires
                        value > (u64::MAX - digit) / 10,
                        digit <= 9,
                ;
                if all_digits(d) {
                    assert(d.subrange(0, i + 1 - start) =~= v@.subrange(start as int, i + 1));
                    lemma_digits_value_grows(d, i + 1 - start);
                }
            }
            return None;
        }
        value = value * 10 + digit;
        i = i + 1;
    }
    proof {
        assert(v@.subrange(start as int, i as int) =~= d);
        assert(all_digits(d)) by {
            assert forall|j: int| 0 <= j < d.len() implies '0' <= #[trigger] d[j] <= '9' by {
                assert(d[j] == v@[start + j]);
            }
        }
    }
    Some(value)
}

/// The remote for the user's own pushes: `--remote`, then the remote git
/// detects as the default push remote, then `default_remote` from config.
pub open spec fn remote_choice(cli: Option<Seq<char>>, detected: Option<Seq<char>>, config: Option<Seq<char>>) -> Option<Seq<char>> {
    match cli {
        Some(r) => Some(r),
        None => match detected {
            Some(r) => Some(r),
            None => config,
        },
    }
}

/// Choose the push remote. `detected` is what git answered, or `None` when
/// it was not asked because `--remote` was given.
pub fn choose_remote(cli: Option<&str>, detected: Option<&str>, config: Option<&str>) -> (r: Option<String>)
    ensures
        (match r {
            Some(s) => Some(s@),
            None => None,
        }) == remote_choice(crate::text::opt_str(cli), crate::text::opt_str(detected), crate::text::opt_str(config)),
{
    match cli {
        Some(r) => Some(owned(r)),
        None => match detected {
            Some(r) => Some(owned(r)),
            None => match config {
                Some(r) => Some(owned(r)),
                None => None,
            },
        },
    }
}

/// The upstream remote: the one named, else `upstream`.
pub fn upstream_remote_name(named: Option<&str>) -> (r: &str)
    ensures
        r@ == (match named {
            Some(n) => n@,
            None => DEFAULT_UPSTREAM_REMOTE@,
        }),
{
    match named {
        Some(n) => n,
        None => DEFAULT_UPSTREAM_REMOTE,
    }
}

/// Why a PR or its target cannot be resolved.
#[derive(Debug, Clone, PartialEq, Eq)]
pub enum LookupError {
    /// The revision has no local bookmark.
    NoBookmark { rev: String },
    /// The remote has no URL configured.
    RemoteMissing { remote: String },
    /// `trunk()` has no bookmark.
    NoTrunk,
    /// No open PR has the revision's bookmark as its head.
    NoOpenPr { rev: String, head: String },
}

impl LookupError {
    /// The user-facing message.
    pub open spec fn message_view(&self) -> Seq<char> {
        match self {
            LookupError::NoBookmark { rev } => "no local bookmark on `"@ + rev@ + "`; nothing to look up"@,
            LookupError::RemoteMissing { remote } => "`"@ + remote@ + "` remote is not configured"@,
            LookupError::NoTrunk => "could not detect trunk() bookmark"@,
            LookupError::NoOpenPr { rev, head } => "no open PR for revision `"@ + rev@ + "` (head `"@
                + head@ + "`)"@,
        }
    }

    /// The user-facing message.
    pub fn message(&self) -> (m: String)
        ensures
            m@ == self.message_view(),
    {
        match self {
            LookupError::NoBookmark { rev } => {
                let mut m = concat("no local bookmark on `", rev.as_str());
                push_str(&mut m, "`; nothing to look up");
                m
            },
            LookupError::RemoteMissing { remote } => {
                let mut m = concat("`", remote.as_str());
                push_str(&mut m, "` remote is not configured");
                m
            },
            LookupError::NoTrunk => owned("could not detect trunk() bookmark"),
            LookupError::NoOpenPr { rev, head } => {
                let mut m = concat("no open PR for revision `", rev.as_str());
                push_str(&mut m, "` (head `");
                push_str(&mut m, head.as_str());
                push_str(&mut m, "`)");
                m
            },
        }
    }
}

/// The revision's first bookmark, which names its PR's head.
pub fn lookup_branch(bookmarks: &[String], rev: &str) -> (r: Result<String, LookupError>)
    ensures
        bookmarks@.len() > 0 ==> (r matches Ok(b) && b@ == bookmarks@[0]@),
        bookmarks@.len() == 0 ==> (r matches Err(LookupError::NoBookmark { rev: x }) && x@ == rev@),
{
    if bookmarks.len() > 0 {
        Ok(owned(bookmarks[0].as_str()))
    } else {
        Err(LookupError::NoBookmark { rev: owned(rev) })
    }
}

/// The URL of `remote`, which must be configured.
pub fn require_remote_url(url: Option<String>, remote: &str) -> (r: Result<String, LookupError>)
    ensures
        match url {
            Some(u) => r == Ok::<String, LookupError>(u),
            None => r matches Err(LookupError::RemoteMissing { remote: x }) && x@ == remote@,
        },
{
    match url {
        Some(u) => Ok(u),
        None => Err(LookupError::RemoteMissing { remote: owned(remote) }),
    }
}

/// The trunk bookmark, which must exist.
pub fn require_trunk(trunk: Option<String>) -> (r: Result<String, LookupError>)
    ensures
        match trunk {
            Some(t) => r == Ok::<String, LookupError>(t),
            None => r == Err::<String, LookupError>(LookupError::NoTrunk),
        },
{
    match trunk {
        Some(t) => Ok(t),
        None => Err(LookupError::NoTrunk),
    }
}

/// The open PR found for a revision, which must exist.
pub fn require_open_pr(found: Option<PrSummary>, rev: &str, head: &str) -> (r: Result<PrSummary, LookupError>)
    ensures
        match found {
            Some(s) => r == Ok::<PrSummary, LookupError>(s),
            None => r matches Err(LookupError::NoOpenPr { rev: x, head: h }) && x@ == rev@ && h@ == head@,
        },
{
    match found {
        Some(s) => Ok(s),
        None => Err(LookupError::NoOpenPr { rev: owned(rev), head: owned(head) }),
    }
}

} // verus!
