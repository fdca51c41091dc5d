//! A requested PR approver, identified by a GitHub user login or an
//! `org/team` team slug.
//!
//! Stored canonically as the slug (`john-doe` or `octo-org/security`), since
//! the API takes slugs. The user-facing form is `@`-prefixed, so frontmatter
//! lists look like `[@john-doe, @octo-org/security]`.

use crate::text::{
    chars_of, concat, count_char, count_chars, decimal, find_in, is_ws, owned, push_decimal,
    push_str, split_once, string_from_range, strip_leading, strip_leading_char, trim, trim_bounds,
};
use vstd::prelude::*;
use vstd::string::StrSliceExecFns;

verus! {

/// An approver slug: `login` or `org/team-name`.
#[derive(Debug, PartialEq, Eq, Hash)]
pub struct Reviewer(String);

impl Clone for Reviewer {
    fn clone(&self) -> (r: Self)
        ensures
            r == *self,
    {
        proof {
            use_type_invariant(self);
        }
        Reviewer(self.0.clone())
    }
}

/// The slug `parse` reads from `raw`: trimmed, without leading `@`s.
pub open spec fn reviewer_slug(raw: Seq<char>) -> Seq<char> {
    strip_leading(trim(raw), '@')
}

/// Why `raw` names no approver.
#[derive(Debug, Clone, PartialEq, Eq)]
pub enum ReviewerError {
    /// Nothing left after trimming white space and `@`.
    Empty,
    /// A team slug with more than one `/`.
    TooManySlashes { raw: String, slashes: u64 },
}

impl ReviewerError {
    /// The user-facing message.
    pub open spec fn message_view(&self) -> Seq<char> {
        match self {
            ReviewerError::Empty => "approver is empty"@,
            ReviewerError::TooManySlashes { raw, slashes } => "invalid team approver `"@ + raw@
                + "`: team slug must be `org/team-name` (saw "@ + decimal(*slashes as nat)
                + " `/`)"@,
        }
    }

    /// The user-facing message.
    pub fn message(&self) -> (m: String)
        ensures
            m@ == self.message_view(),
    {
        match self {
            ReviewerError::Empty => owned("approver is empty"),
            ReviewerError::TooManySlashes { raw, slashes } => {
                let mut m = concat("invalid team approver `", raw.as_str());
                push_str(&mut m, "`: team slug must be `org/team-name` (saw ");
                push_decimal(&mut m, *slashes);
                push_str(&mut m, " `/`)");
                m
            },
        }
    }
}

impl Reviewer {
    /// Every approver holds a slug as `parse` produces it.
    #[verifier::type_invariant]
    spec fn slug_is_valid(self) -> bool {
        Self::valid_slug(self.0@)
    }

    /// The slug, as the API takes it.
    pub closed spec fn view(&self) -> Seq<char> {
        self.0@
    }

    /// A slug as `parse` produces it: non-empty, not ending in white space,
    /// not starting with `@`, and with at most one `/`.
    pub open spec fn valid_slug(s: Seq<char>) -> bool {
        &&& s.len() > 0
        &&& !is_ws(s.last())
        &&& s[0] != '@'
        &&& count_char(s, '/') <= 1
    }

    /// Parse an approver from any of `@user`, `user`, `@org/team`, `org/team`.
    ///
    /// Errors on empty or white-space-only input, and on a team slug with
    /// more than one `/` (e.g. `org/team/extra`).
    pub fn parse(raw: &str) -> (r: Result<Reviewer, ReviewerError>)
        ensures
            match r {
                Ok(rev) => rev.view() == reviewer_slug(raw@) && Self::valid_slug(rev.view()),
                Err(ReviewerError::Empty) => reviewer_slug(raw@).len() == 0,
                Err(ReviewerError::TooManySlashes { raw: shown, slashes }) => {
                    &&& shown@ == raw@
                    &&& reviewer_slug(raw@).len() > 0
                    &&& slashes == count_char(reviewer_slug(raw@), '/')
                    &&& slashes > 1
                },
            },
    {
        let v = chars_of(raw);
        let (lo, hi) = trim_bounds(&v);
        let t = string_from_range(&v, lo, hi);
        let tv = chars_of(t.as_str());
        let start = strip_leading_char(&tv, '@');
        let slug = string_from_range(&tv, start, tv.len());
        let sv = chars_of(slug.as_str());
        if sv.len() == 0 {
            return Err(ReviewerError::Empty);
        }
        let slashes = count_chars(&sv, '/');
        if slashes > 1 {
            return Err(ReviewerError::TooManySlashes { raw: owned(raw), slashes: slashes as u64 });
        }
        proof {
            crate::text::lemma_trim_idempotent(v@);
            lemma_stripped_slug_is_trimmed(tv@, start as int);
        }
        Ok(Reviewer(slug))
    }

    /// A copy of this approver.
    pub fn duplicate(&self) -> (r: Reviewer)
        ensures
            r.view() == self.view(),
    {
        proof {
            use_type_invariant(self);
        }
        Reviewer(self.0.clone())
    }

    /// API-form slug: `john-doe` or `org/team-name`. Whatever way the
    /// approver was made, the slug is non-empty, does not start with `@` or
    /// end in white space, and holds at most one `/`.
    pub fn slug(&self) -> (r: &str)
        ensures
            r@ == self.view(),
            Self::valid_slug(r@),
    {
        proof {
            use_type_invariant(self);
        }
        self.0.as_str()
    }

    /// User-facing form: `@john-doe` or `@org/team-name`.
    pub fn at_reference(&self) -> (r: String)
        ensures
            r@ == "@"@ + self.view(),
    {
        concat("@", self.0.as_str())
    }

    /// The user-facing form, as `Display` writes it.
    pub fn display_string(&self) -> (r: String)
        ensures
            r@ == "@"@ + self.view(),
    {
        self.at_reference()
    }

    /// For a team slug `org/team-name`, the `team-name` portion; `None` for
    /// users. GitHub's REST endpoint for requesting teams takes team names.
    pub fn team_name(&self) -> (r: Option<&str>)
        ensures
            match r {
                Some(name) => split_once(self.view(), seq!['/']) matches Some((_, n)) && name@ == n,
                None => split_once(self.view(), seq!['/']) is None,
            },
    {
        let v = chars_of(self.0.as_str());
        let slash = vec!['/'];
        assert(slash@ =~= seq!['/']);
        match find_in(&v, &slash) {
            Some(i) => {
                let n = v.len();
                assert(i + 1 <= n);
                Some(self.0.as_str().substring_char(i + 1, n))
            },
            None => None,
        }
    }
}

/// Parsing an approver's `@`-form gives back its slug: for every slug that
/// parsing can produce, parsing `"@" + slug` yields that slug.
pub proof fn lemma_reviewer_round_trip(slug: Seq<char>)
    requires
        Reviewer::valid_slug(slug),
    ensures
        reviewer_slug("@"@ + slug) == slug,
        count_char(reviewer_slug("@"@ + slug), '/') <= 1,
{
    reveal_strlit("@");
    let at = "@"@ + slug;
    assert(at[0] == '@');
    assert(at.last() == slug.last());
    crate::text::lemma_trim_of_clean(at);
    assert(at.drop_first() =~= slug);
    assert(strip_leading(slug, '@') == slug);
}

/// Lemma: a non-empty suffix of a trimmed string does not end in white space.
proof fn lemma_stripped_slug_is_trimmed(t: Seq<char>, start: int)
    requires
        trim(t) == t,
        0 <= start < t.len(),
    ensures
        !is_ws(t.subrange(start, t.len() as int).last()),
{
    crate::text::lemma_trimmed_last_not_ws(t);
    assert(t.subrange(start, t.len() as int).last() == t.last());
}

} // verus!
