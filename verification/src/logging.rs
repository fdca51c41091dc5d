//! Log levels and the layout of multi-line log messages.

use crate::text::{owned, push_str, replace_char, replace_char_with};
use vstd::prelude::*;

verus! {

/// How much to log, from nothing to everything.
#[derive(Debug, Clone, Copy, PartialEq, Eq, Structural)]
pub enum LevelFilter {
    Off,
    Error,
    Warn,
    Info,
    Debug,
    Trace,
}

/// Log levels split by origin. Dependencies are far chattier than they are
/// useful, so they get their own level rather than riding along with ours.
#[derive(Debug, Clone, Copy, PartialEq, Eq, Structural)]
pub struct LogLevels {
    /// Level for this crate's own modules.
    pub own: LevelFilter,
    /// Level for every other crate.
    pub dependencies: LevelFilter,
}

/// The level the command line asks for: an explicit `--log-level` wins;
/// `--quiet` means errors only; otherwise info on a terminal and errors
/// elsewhere, raised to debug by one `-v` and to trace by more.
pub open spec fn log_level_view(
    log_level: Option<LevelFilter>,
    quiet: bool,
    verbose: u8,
    stdout_is_terminal: bool,
) -> LevelFilter {
    match log_level {
        Some(level) => level,
        None => if quiet {
            LevelFilter::Error
        } else if verbose == 0 {
            if stdout_is_terminal {
                LevelFilter::Info
            } else {
                LevelFilter::Error
            }
        } else if verbose == 1 {
            LevelFilter::Debug
        } else {
            LevelFilter::Trace
        },
    }
}

/// Resolve the log level from the global options and whether stdout is a
/// terminal.
pub fn resolve_log_level(
    log_level: Option<LevelFilter>,
    quiet: bool,
    verbose: u8,
    stdout_is_terminal: bool,
) -> (r: LevelFilter)
    ensures
        r == log_level_view(log_level, quiet, verbose, stdout_is_terminal),
{
    if let Some(level) = log_level {
        return level;
    }
    if quiet {
        return LevelFilter::Error;
    }
    let base = if stdout_is_terminal {
        LevelFilter::Info
    } else {
        LevelFilter::Error
    };
    match verbose {
        0 => base,
        1 => LevelFilter::Debug,
        _ => LevelFilter::Trace,
    }
}

/// `width` spaces.
pub open spec fn spaces(width: nat) -> Seq<char> {
    Seq::new(width, |i: int| ' ')
}

/// `message` with every line after the first indented by `width` spaces, so
/// continuation lines align after a `LEVEL ` prefix.
pub fn indent_continuations(message: &str, width: usize) -> (r: String)
    ensures
        r@ == replace_char(message@, '\n', "\n"@ + spaces(width as nat)),
{
    let mut sep = owned("\n");
    let mut i: usize = 0;
    while i < width
        invariant
            i <= width,
            sep@ == "\n"@ + spaces(i as nat),
        decreases width - i,
    {
        sep.push(' ');
        i = i + 1;
        assert(sep@ =~= "\n"@ + spaces(i as nat));
    }
    replace_char_with(message, '\n', sep.as_str())
}

} // verus!
