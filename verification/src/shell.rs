//! Splitting a shell command line into words, as the `shell-words` crate
//! does, for editor and askpass commands given as one string.

use vstd::prelude::*;

verus! {

#[verifier::external_type_specification]
#[verifier::external_body]
pub struct ExShellParseError(shell_words::ParseError);

/// The words `shell_words::split` reads from `s`, or `None` when it reports
/// a missing closing quote.
pub uninterp spec fn shell_split(s: Seq<char>) -> Option<Seq<Seq<char>>>;

/// `shell_words::split`: POSIX-shell-style word splitting with quotes and
/// backslash escapes. The contract claims only that the outcome is a function
/// of `s`, named [`shell_split`].
#[verifier::external_body]
pub fn split_words(s: &str) -> (r: Result<Vec<String>, shell_words::ParseError>)
    ensures
        match r {
            Ok(words) => shell_split(s@) == Some(words@.map_values(|w: String| w@)),
            Err(_) => shell_split(s@) is None,
        },
{
    shell_words::split(s)
}

/// The words of a command rendered back as one shell-quoted string.
pub uninterp spec fn shell_joined(words: Seq<Seq<char>>) -> Seq<char>;

/// `shell_words::join`: the words quoted where needed and joined by spaces.
/// The contract claims only that the result is a function of the words,
/// named [`shell_joined`].
#[verifier::external_body]
pub fn join_words(words: &[String]) -> (r: String)
    ensures
        r@ == shell_joined(words@.map_values(|w: String| w@)),
{
    shell_words::join(words)
}

} // verus!
