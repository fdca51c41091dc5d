//! GitHub token resolution.
//!
//! Source precedence (high to low), so flags and env vars override config:
//! 1. `--gh-askpass` flag, spawned with a configurable timeout.
//! 2. `$GH_ASKPASS` env var, shell-split and spawned.
//! 3. `$JJ_GH_TOKEN` env var.
//! 4. `$GH_TOKEN` env var (the `gh` CLI convention).
//! 5. `gh_askpass` from config files, spawned.
//! 6. `gh_token` from config files (plain text, less safe).
//! 7. `gh auth token`.
//!
//! [`plan_token_source`] picks the source; the binary runs the command it
//! names and hands the outcome to [`parse_completed`].

use crate::shell::{shell_split, split_words};
use crate::text::{
    chars_of, concat, decimal, is_blank, owned, push_decimal, push_str, string_from_range, trim,
    trim_bounds,
};
use vstd::prelude::*;
use vstd::string::StrSliceExecFns;

verus! {

/// Largest askpass output accepted as a token, in bytes.
pub const ASKPASS_STDOUT_LIMIT: usize = 4096;

/// Environment lookup: the value of `key`, or `None` when unset.
pub trait EnvReader {
    fn get(&self, key: &str) -> Option<String>;
}

/// Where the token comes from.
#[derive(Debug, Clone, PartialEq, Eq)]
pub enum TokenSource {
    /// Run the `--gh-askpass` command.
    FlagAskpass(Vec<String>),
    /// Run the command `$GH_ASKPASS` splits into.
    EnvAskpass(Vec<String>),
    /// The value of `$JJ_GH_TOKEN`.
    JjGhToken(String),
    /// The value of `$GH_TOKEN`.
    GhToken(String),
    /// Run the `gh_askpass` command from config.
    ConfigAskpass(Vec<String>),
    /// The plain `gh_token` from config.
    ConfigToken,
    /// Run `gh auth token`; when that fails no token is available.
    GhAuthToken,
}

/// Why no token source could be chosen.
#[derive(Debug, Clone, Copy, PartialEq, Eq, Structural)]
pub enum TokenSourceError {
    /// `$GH_ASKPASS` has an unbalanced quote.
    CouldNotSplitAskpass,
}

/// The source [`plan_token_source`] picks, over views.
pub enum SourceView {
    FlagAskpass(Seq<Seq<char>>),
    EnvAskpass(Seq<Seq<char>>),
    JjGhToken(Seq<char>),
    GhToken(Seq<char>),
    ConfigAskpass(Seq<Seq<char>>),
    ConfigToken,
    GhAuthToken,
    CouldNotSplit,
}

/// The views of a list of strings.
pub open spec fn word_views(v: Seq<String>) -> Seq<Seq<char>> {
    v.map_values(|s: String| s@)
}

/// The token source for what the flag and the config hold, with the askpass
/// command of the environment already split into words: `None` when the
/// environment names no command, `Some(None)` when it could not be split.
pub open spec fn source_from_words(
    flag_askpass: Option<Seq<Seq<char>>>,
    env_words: Option<Option<Seq<Seq<char>>>>,
    jj_gh_token: Option<Seq<char>>,
    gh_token: Option<Seq<char>>,
    config_askpass: Option<Seq<Seq<char>>>,
    config_has_token: bool,
) -> SourceView {
    let after_env = if jj_gh_token is Some {
        SourceView::JjGhToken(jj_gh_token->0)
    } else if gh_token is Some {
        SourceView::GhToken(gh_token->0)
    } else if config_askpass matches Some(a) && a.len() > 0 {
        SourceView::ConfigAskpass(config_askpass->0)
    } else if config_has_token {
        SourceView::ConfigToken
    } else {
        SourceView::GhAuthToken
    };
    if flag_askpass matches Some(a) && a.len() > 0 {
        SourceView::FlagAskpass(flag_askpass->0)
    } else {
        match env_words {
            None => after_env,
            Some(None) => SourceView::CouldNotSplit,
            Some(Some(argv)) => if argv.len() > 0 {
                SourceView::EnvAskpass(argv)
            } else {
                after_env
            },
        }
    }
}

/// The token source for what the flag, the environment and the config hold.
pub open spec fn token_source_view(
    flag_askpass: Option<Seq<Seq<char>>>,
    gh_askpass_env: Option<Seq<char>>,
    jj_gh_token: Option<Seq<char>>,
    gh_token: Option<Seq<char>>,
    config_askpass: Option<Seq<Seq<char>>>,
    config_has_token: bool,
) -> SourceView {
    source_from_words(
        flag_askpass,
        if gh_askpass_env matches Some(raw) && trim(raw).len() > 0 {
            Some(shell_split(gh_askpass_env->0))
        } else {
            None
        },
        jj_gh_token,
        gh_token,
        config_askpass,
        config_has_token,
    )
}

/// The view of optional words.
pub open spec fn opt_words(a: Option<&[String]>) -> Option<Seq<Seq<char>>> {
    match a {
        Some(a) => Some(word_views(a@)),
        None => None,
    }
}

/// The view of the environment's askpass words.
pub open spec fn env_words_view(w: Option<Option<Vec<String>>>) -> Option<Option<Seq<Seq<char>>>> {
    match w {
        None => None,
        Some(None) => Some(None),
        Some(Some(v)) => Some(Some(word_views(v@))),
    }
}

/// The view of a chosen source.
pub open spec fn source_view(r: Result<TokenSource, TokenSourceError>) -> SourceView {
    match r {
        Ok(TokenSource::FlagAskpass(a)) => SourceView::FlagAskpass(word_views(a@)),
        Ok(TokenSource::EnvAskpass(a)) => SourceView::EnvAskpass(word_views(a@)),
        Ok(TokenSource::JjGhToken(t)) => SourceView::JjGhToken(t@),
        Ok(TokenSource::GhToken(t)) => SourceView::GhToken(t@),
        Ok(TokenSource::ConfigAskpass(a)) => SourceView::ConfigAskpass(word_views(a@)),
        Ok(TokenSource::ConfigToken) => SourceView::ConfigToken,
        Ok(TokenSource::GhAuthToken) => SourceView::GhAuthToken,
        Err(TokenSourceError::CouldNotSplitAskpass) => SourceView::CouldNotSplit,
    }
}

fn copy_words(v: &[String]) -> (r: Vec<String>)
    ensures
        r@ == v@,
{
    let mut out: Vec<String> = Vec::new();
    let mut i: usize = 0;
    while i < v.len()
        invariant
            i <= v@.len(),
            out@ == v@.subrange(0, i as int),
        decreases v@.len() - i,
    {
        out.push(v[i].clone());
        i = i + 1;
        assert(out@ =~= v@.subrange(0, i as int));
    }
    assert(out@ =~= v@);
    out
}

/// Pick the token source: the first of the precedence list that is present.
/// Empty askpass commands (flag, env, or config) are skipped; the
/// environment's command is split into words only when no flag command is
/// given.
pub fn plan_token_source(
    flag_askpass: Option<&[String]>,
    gh_askpass_env: Option<&str>,
    jj_gh_token: Option<&str>,
    gh_token: Option<&str>,
    config_askpass: Option<&[String]>,
    config_has_token: bool,
) -> (r: Result<TokenSource, TokenSourceError>)
    ensures
        source_view(r) == token_source_view(
            opt_words(flag_askpass),
            crate::text::opt_str(gh_askpass_env),
            crate::text::opt_str(jj_gh_token),
            crate::text::opt_str(gh_token),
            opt_words(config_askpass),
            config_has_token,
        ),
{
    let flag_set = match flag_askpass {
        Some(a) => a.len() > 0,
        None => false,
    };
    let mut env_words: Option<Option<Vec<String>>> = None;
    if !flag_set {
        if let Some(raw) = gh_askpass_env {
            if !is_blank(raw) {
                env_words = match split_words(raw) {
                    Ok(argv) => Some(Some(argv)),
                    Err(_) => Some(None),
                };
            }
        }
    }
    token_source_from_words(flag_askpass, env_words, jj_gh_token, gh_token, config_askpass, config_has_token)
}

/// Pick the token source once the environment's askpass command is split
/// into words: the first of the precedence list that is present, empty
/// askpass commands skipped.
pub fn token_source_from_words(
    flag_askpass: Option<&[String]>,
    env_words: Option<Option<Vec<String>>>,
    jj_gh_token: Option<&str>,
    gh_token: Option<&str>,
    config_askpass: Option<&[String]>,
    config_has_token: bool,
) -> (r: Result<TokenSource, TokenSourceError>)
    ensures
        source_view(r) == source_from_words(
            opt_words(flag_askpass),
            env_words_view(env_words),
            crate::text::opt_str(jj_gh_token),
            crate::text::opt_str(gh_token),
            opt_words(config_askpass),
            config_has_token,
        ),
{
    if let Some(argv) = flag_askpass {
        if argv.len() > 0 {
            return Ok(TokenSource::FlagAskpass(copy_words(argv)));
        }
    }
    match env_words {
        Some(None) => {
            return Err(TokenSourceError::CouldNotSplitAskpass);
        },
        Some(Some(argv)) => {
            if argv.len() > 0 {
                return Ok(TokenSource::EnvAskpass(argv));
            }
        },
        None => {},
    }
    if let Some(t) = jj_gh_token {
        return Ok(TokenSource::JjGhToken(owned(t)));
    }
    if let Some(t) = gh_token {
        return Ok(TokenSource::GhToken(owned(t)));
    }
    if let Some(argv) = config_askpass {
        if argv.len() > 0 {
            return Ok(TokenSource::ConfigAskpass(copy_words(argv)));
        }
    }
    if config_has_token {
        return Ok(TokenSource::ConfigToken);
    }
    Ok(TokenSource::GhAuthToken)
}

/// The message when no source yields a token.
pub fn no_token_message() -> (m: String)
    ensures
        m@ == "no GitHub token available: use `--gh-askpass`, configure `gh_token`, set `JJ_GH_TOKEN` or `GH_TOKEN` environment variable, or run `gh auth login`"@,
{
    owned(
        "no GitHub token available: use `--gh-askpass`, configure `gh_token`, set `JJ_GH_TOKEN` or `GH_TOKEN` environment variable, or run `gh auth login`",
    )
}

/// The text of bytes read as UTF-8 with invalid sequences replaced.
pub uninterp spec fn lossy_text(bytes: Seq<u8>) -> Seq<char>;

/// `String::from_utf8_lossy`: valid UTF-8 decodes as is; each invalid
/// sequence becomes U+FFFD. The contract states the valid case and names the
/// result, [`lossy_text`], for the rest.
#[verifier::external_body]
pub fn lossy_string(bytes: &[u8]) -> (r: String)
    ensures
        r@ == lossy_text(bytes@),
        vstd::utf8::valid_utf8(bytes@) ==> r@ == vstd::utf8::decode_utf8(bytes@),
{
    String::from_utf8_lossy(bytes).into_owned()
}

/// The decimal text of a signed exit code.
pub open spec fn signed_decimal(n: i32) -> Seq<char> {
    if n < 0 {
        "-"@ + decimal((-(n as int)) as nat)
    } else {
        decimal(n as nat)
    }
}

/// How a finished command ended: `exit code N`, or `a signal` when there is
/// no exit code.
pub open spec fn status_text(code: Option<i32>) -> Seq<char> {
    match code {
        Some(c) => "exit code "@ + signed_decimal(c),
        None => "a signal"@,
    }
}

/// Why a finished askpass command gave no token.
#[derive(Debug, Clone, PartialEq, Eq)]
pub enum AskpassError {
    /// It exited unsuccessfully; `stderr` is its trimmed error output.
    Failed { code: Option<i32>, stderr: String },
    /// Its output is larger than [`ASKPASS_STDOUT_LIMIT`].
    OutputTooLarge,
    /// Its output is not UTF-8.
    NotUtf8,
    /// It printed nothing but line endings.
    NoToken,
}

impl AskpassError {
    /// The user-facing message.
    pub open spec fn message_view(&self) -> Seq<char> {
        match self {
            AskpassError::Failed { code, stderr } => if stderr@.len() == 0 {
                "command exited with "@ + status_text(*code)
            } else {
                "command exited with "@ + status_text(*code) + ": "@ + stderr@
            },
            AskpassError::OutputTooLarge => "stdout exceeds 4096 bytes; refusing to treat as token"@,
            AskpassError::NotUtf8 => "stdout is not UTF-8"@,
            AskpassError::NoToken => "produced no token on stdout"@,
        }
    }

    /// The user-facing message.
    pub fn message(&self) -> (m: String)
        ensures
            m@ == self.message_view(),
    {
        match self {
            AskpassError::Failed { code, stderr } => {
                let mut m = owned("command exited with ");
                match code {
                    Some(c) => {
                        push_str(&mut m, "exit code ");
                        if *c < 0 {
                            push_str(&mut m, "-");
                            let magnitude: u64 = (-(*c as i64)) as u64;
                            push_decimal(&mut m, magnitude);
                        } else {
                            push_decimal(&mut m, *c as u64);
                        }
                    },
                    None => push_str(&mut m, "a signal"),
                }
                if stderr.as_str().unicode_len() > 0 {
                    push_str(&mut m, ": ");
                    push_str(&mut m, stderr.as_str());
                }
                m
            },
            AskpassError::OutputTooLarge => owned("stdout exceeds 4096 bytes; refusing to treat as token"),
            AskpassError::NotUtf8 => owned("stdout is not UTF-8"),
            AskpassError::NoToken => owned("produced no token on stdout"),
        }
    }
}

/// `s` without trailing `\r` and `\n` characters.
pub open spec fn strip_line_endings(s: Seq<char>) -> Seq<char>
    decreases s.len(),
{
    if s.len() > 0 && (s.last() == '\r' || s.last() == '\n') {
        strip_line_endings(s.drop_last())
    } else {
        s
    }
}

/// What a finished askpass command yields: its output without trailing line
/// endings, when it exited with 0, printed at most the limit, printed UTF-8
/// and printed something.
pub open spec fn completed_view(code: Option<i32>, stdout: Seq<u8>) -> Option<Seq<char>> {
    if code != Some(0i32) || stdout.len() > ASKPASS_STDOUT_LIMIT || !vstd::utf8::valid_utf8(stdout)
        || strip_line_endings(vstd::utf8::decode_utf8(stdout)).len() == 0 {
        None
    } else {
        Some(strip_line_endings(vstd::utf8::decode_utf8(stdout)))
    }
}

/// Read the token from a finished askpass command.
pub fn parse_completed(code: Option<i32>, stdout: &[u8], stderr: &[u8]) -> (r: Result<
    String,
    AskpassError,
>)
    ensures
        match r {
            Ok(token) => completed_view(code, stdout@) == Some(token@),
            Err(AskpassError::Failed { code: c, stderr: e }) => c == code && code != Some(0i32)
                && e@ == trim(lossy_text(stderr@)),
            Err(AskpassError::OutputTooLarge) => code == Some(0i32) && stdout@.len()
                > ASKPASS_STDOUT_LIMIT,
            Err(AskpassError::NotUtf8) => code == Some(0i32) && stdout@.len() <= ASKPASS_STDOUT_LIMIT
                && !vstd::utf8::valid_utf8(stdout@),
            Err(AskpassError::NoToken) => code == Some(0i32) && stdout@.len() <= ASKPASS_STDOUT_LIMIT
                && vstd::utf8::valid_utf8(stdout@) && strip_line_endings(
                vstd::utf8::decode_utf8(stdout@),
            ).len() == 0,
        },
{
    let ok = match code {
        Some(c) => c == 0,
        None => false,
    };
    if !ok {
        let text = lossy_string(stderr);
        let tv = chars_of(text.as_str());
        let (lo, hi) = trim_bounds(&tv);
        let trimmed = string_from_range(&tv, lo, hi);
        return Err(AskpassError::Failed { code, stderr: trimmed });
    }
    if stdout.len() > ASKPASS_STDOUT_LIMIT {
        return Err(AskpassError::OutputTooLarge);
    }
    let raw = match crate::config::utf8_text(stdout) {
        Some(t) => t,
        None => {
            return Err(AskpassError::NotUtf8);
        },
    };
    let v = chars_of(raw.as_str());
    let mut end: usize = v.len();
    assert(v@.subrange(0, v@.len() as int) =~= v@);
    while end > 0 && (v[end - 1] == '\r' || v[end - 1] == '\n')
        invariant
            end <= v@.len(),
            strip_line_endings(v@) == strip_line_endings(v@.subrange(0, end as int)),
        decreases end,
    {
        let ghost p = v@.subrange(0, end as int);
        assert(p.drop_last() =~= v@.subrange(0, end - 1));
        end = end - 1;
    }
    proof {
        let p = v@.subrange(0, end as int);
        if end > 0 {
            assert(p.last() == v@[end - 1]);
        }
        assert(strip_line_endings(p) == p);
    }
    if end == 0 {
        return Err(AskpassError::NoToken);
    }
    Ok(string_from_range(&v, 0, end))
}

} // verus!
