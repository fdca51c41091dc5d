//! Shell completion overlays for `jj <alias> <tab>`.
//!
//! `jj`'s own completion scripts do not know user aliases. The binary emits a
//! supplementary fragment per shell that registers against `jj` but only
//! answers when the alias is on the command line. The binary reads the
//! subcommand inventory from its argument parser; this module turns that
//! inventory into the shell-specific pieces: subcommand lists, `case` arms,
//! flag specs and descriptions, escaped for each shell.
use vstd::prelude::*;
use crate::text::{
    chars_of, concat, lines, lines_of, owned, push_str, replace_char, replace_char_with,
    string_from_range, trim, trim_bounds,
};
use vstd::string::StrSliceExecFns;

verus! {

/// One flag of a subcommand, as the argument parser describes it.
#[derive(Debug, Clone, PartialEq, Eq)]
pub struct ArgInfo {
    pub long: Option<String>,
    pub short: Option<char>,
    pub about: Option<String>,
    pub takes_value: bool,
}

/// One visible subcommand with its visible aliases and flags.
#[derive(Debug, Clone, PartialEq, Eq)]
pub struct SubInfo {
    pub name: String,
    pub aliases: Vec<String>,
    pub about: Option<String>,
    pub args: Vec<ArgInfo>,
}

/// Shells that completion scripts are generated for.
#[derive(Debug, Clone, Copy, PartialEq, Eq, Hash, Structural)]
pub enum CompletionShell {
    Bash,
    Elvish,
    Fish,
    Nushell,
    PowerShell,
    Zsh,
}

impl CompletionShell {
    /// The shell's name on the command line.
    pub open spec fn name_view(self) -> Seq<char> {
        match self {
            CompletionShell::Bash => "bash"@,
            CompletionShell::Elvish => "elvish"@,
            CompletionShell::Fish => "fish"@,
            CompletionShell::Nushell => "nushell"@,
            CompletionShell::PowerShell => "powershell"@,
            CompletionShell::Zsh => "zsh"@,
        }
    }

    /// The shell's name on the command line.
    pub fn name(self) -> (s: &'static str)
        ensures
            s@ == self.name_view(),
    {
        match self {
            CompletionShell::Bash => "bash",
            CompletionShell::Elvish => "elvish",
            CompletionShell::Fish => "fish",
            CompletionShell::Nushell => "nushell",
            CompletionShell::PowerShell => "powershell",
            CompletionShell::Zsh => "zsh",
        }
    }

    /// Whether an alias overlay can be emitted for this shell.
    pub fn supports_overlay(self) -> (b: bool)
        ensures
            b == overlay_supported(self),
    {
        match self {
            CompletionShell::Elvish | CompletionShell::PowerShell => false,
            _ => true,
        }
    }
}

/// Whether an alias overlay can be emitted for `shell`: every shell but
/// Elvish and PowerShell.
pub open spec fn overlay_supported(shell: CompletionShell) -> bool {
    !(shell == CompletionShell::Elvish || shell == CompletionShell::PowerShell)
}

/// The `jj-gh` subcommand an alias stands for.
#[derive(Debug, Clone, Copy, PartialEq, Eq, Structural)]
pub enum SubcommandStr {
    Pr,
}

impl SubcommandStr {
    /// The subcommand's name.
    pub fn name(self) -> (s: &'static str)
        ensures
            s@ == "pr"@,
    {
        "pr"
    }
}

/// Why no overlay is emitted.
#[derive(Debug, Clone, Copy, PartialEq, Eq, Structural)]
pub enum CompletionError {
    UnsupportedShell(CompletionShell),
}

impl CompletionError {
    /// The user-facing message.
    pub open spec fn message_view(self) -> Seq<char> {
        match self {
            CompletionError::UnsupportedShell(shell) => "--jj-alias overlay not supported for shell `"@
                + shell.name_view() + "`"@,
        }
    }

    /// The user-facing message.
    pub fn message(self) -> (m: String)
        ensures
            m@ == self.message_view(),
    {
        match self {
            CompletionError::UnsupportedShell(shell) => {
                let mut m = owned("--jj-alias overlay not supported for shell `");
                push_str(&mut m, shell.name());
                push_str(&mut m, "`");
                m
            },
        }
    }
}

/// The shell an overlay is emitted for, or the error for one that has none.
pub fn overlay_shell(shell: CompletionShell) -> (r: Result<CompletionShell, CompletionError>)
    ensures
        overlay_supported(shell) ==> r == Ok::<CompletionShell, CompletionError>(shell),
        !overlay_supported(shell) ==> r == Err::<CompletionShell, CompletionError>(
            CompletionError::UnsupportedShell(shell),
        ),
{
    if shell.supports_overlay() {
        Ok(shell)
    } else {
        Err(CompletionError::UnsupportedShell(shell))
    }
}

/// The first line of a help text, trimmed; empty for an empty text.
pub open spec fn first_line(text: Seq<char>) -> Seq<char> {
    if lines(text).len() == 0 {
        seq![]
    } else {
        trim(lines(text)[0])
    }
}

/// The first line of a help text, trimmed; empty for an empty text.
pub fn first_help_line(text: &str) -> (r: String)
    ensures
        r@ == first_line(text@),
{
    let ls = lines_of(text);
    if ls.len() == 0 {
        String::new()
    } else {
        let v = chars_of(ls[0].as_str());
        let (lo, hi) = trim_bounds(&v);
        string_from_range(&v, lo, hi)
    }
}

/// `parts` joined with `sep` between them.
pub open spec fn join(parts: Seq<Seq<char>>, sep: Seq<char>) -> Seq<char>
    decreases parts.len(),
{
    if parts.len() == 0 {
        seq![]
    } else if parts.len() == 1 {
        parts[0]
    } else {
        join(parts.drop_last(), sep) + sep + parts.last()
    }
}

/// `parts` joined with `sep` between them.
pub fn join_strings(parts: &Vec<String>, sep: &str) -> (r: String)
    ensures
        r@ == join(parts@.map_values(|p: String| p@), sep@),
{
    let ghost views = parts@.map_values(|p: String| p@);
    let mut out = String::new();
    let mut i: usize = 0;
    while i < parts.len()
        invariant
            i <= parts@.len(),
            views == parts@.map_values(|p: String| p@),
            out@ == join(views.subrange(0, i as int), sep@),
        decreases parts@.len() - i,
    {
        proof {
            assert(views.subrange(0, i + 1).drop_last() =~= views.subrange(0, i as int));
            assert(views.subrange(0, i + 1).last() == parts@[i as int]@);
        }
        if i > 0 {
            push_str(&mut out, sep);
        } else {
            proof {
                assert(views.subrange(0, 1) =~= seq![parts@[0]@]);
                assert(out@ =~= Seq::<char>::empty());
            }
        }
        push_str(&mut out, parts[i].as_str());
        i = i + 1;
    }
    proof {
        assert(views.subrange(0, i as int) =~= views);
    }
    out
}

/// The names a subcommand answers to: its name, then its aliases.
pub open spec fn names_view(sub: SubInfo) -> Seq<Seq<char>> {
    seq![sub.name@] + sub.aliases@.map_values(|a: String| a@)
}

/// The names a subcommand answers to: its name, then its aliases.
pub fn names_of(sub: &SubInfo) -> (r: Vec<String>)
    ensures
        r@.map_values(|s: String| s@) == names_view(*sub),
{
    let mut out: Vec<String> = Vec::new();
    out.push(owned(sub.name.as_str()));
    let mut i: usize = 0;
    while i < sub.aliases.len()
        invariant
            i <= sub.aliases@.len(),
            out@.map_values(|s: String| s@) == seq![sub.name@] + sub.aliases@.subrange(0, i as int).map_values(
                |a: String| a@,
            ),
        decreases sub.aliases@.len() - i,
    {
        let ghost before = out@.map_values(|s: String| s@);
        out.push(owned(sub.aliases[i].as_str()));
        proof {
            assert(out@.map_values(|s: String| s@) =~= before.push(sub.aliases@[i as int]@));
            assert(sub.aliases@.subrange(0, i + 1).map_values(|a: String| a@) =~= sub.aliases@.subrange(
                0,
                i as int,
            ).map_values(|a: String| a@).push(sub.aliases@[i as int]@));
        }
        i = i + 1;
    }
    proof {
        assert(sub.aliases@.subrange(0, i as int) =~= sub.aliases@);
    }
    out
}

// ---------------------------------------------------------------- bash

/// The flags of one argument for bash: `--long` and `-s`, as present.
pub open spec fn arg_flags(a: ArgInfo) -> Seq<Seq<char>> {
    (match a.long {
        Some(l) => seq!["--"@ + l@],
        None => seq![],
    }) + (match a.short {
        Some(s) => seq!["-"@ + seq![s]],
        None => seq![],
    })
}

/// The flags of all arguments, in order.
pub open spec fn all_flags(args: Seq<ArgInfo>) -> Seq<Seq<char>>
    decreases args.len(),
{
    if args.len() == 0 {
        seq![]
    } else {
        all_flags(args.drop_last()) + arg_flags(args.last())
    }
}

/// The word list bash completes a subcommand's flags from.
pub fn flag_list(args: &[ArgInfo]) -> (r: String)
    ensures
        r@ == join(all_flags(args@), " "@),
{
    let mut flags: Vec<String> = Vec::new();
    let mut i: usize = 0;
    while i < args.len()
        invariant
            i <= args@.len(),
            flags@.map_values(|s: String| s@) == all_flags(args@.subrange(0, i as int)),
        decreases args@.len() - i,
    {
        let ghost before = flags@.map_values(|s: String| s@);
        proof {
            assert(args@.subrange(0, i + 1).drop_last() =~= args@.subrange(0, i as int));
        }
        let a = &args[i];
        let ghost long_part: Seq<Seq<char>> = match &a.long {
            Some(l) => seq!["--"@ + l@],
            None => seq![],
        };
        let ghost short_part: Seq<Seq<char>> = match a.short {
            Some(s) => seq!["-"@ + seq![s]],
            None => seq![],
        };
        match &a.long {
            Some(l) => {
                let f = concat("--", l.as_str());
                let ghost fv = f@;
                flags.push(f);
                proof {
                    assert(flags@.map_values(|s: String| s@) =~= before.push(fv));
                }
            },
            None => {},
        }
        let ghost mid = flags@.map_values(|s: String| s@);
        assert(mid =~= before + long_part);
        match a.short {
            Some(s) => {
                let mut f = owned("-");
                f.push(s);
                let ghost fv = f@;
                assert(fv =~= "-"@ + seq![s]);
                flags.push(f);
                proof {
                    assert(flags@.map_values(|s: String| s@) =~= mid.push(fv));
                }
            },
            None => {},
        }
        proof {
            assert(flags@.map_values(|s: String| s@) =~= mid + short_part);
            assert(arg_flags(args@[i as int]) == long_part + short_part);
            assert(flags@.map_values(|s: String| s@) =~= before + arg_flags(args@[i as int]));
        }
        i = i + 1;
    }
    proof {
        assert(args@.subrange(0, i as int) =~= args@);
    }
    join_strings(&flags, " ")
}

/// All names of all subcommands, in order.
pub open spec fn all_names(subs: Seq<SubInfo>) -> Seq<Seq<char>>
    decreases subs.len(),
{
    if subs.len() == 0 {
        seq![]
    } else {
        all_names(subs.drop_last()) + names_view(subs.last())
    }
}

/// The words bash offers right after the alias: every subcommand name and
/// alias, space separated.
pub fn bash_sub_list(subs: &[SubInfo]) -> (r: String)
    ensures
        r@ == join(all_names(subs@), " "@),
{
    let mut names: Vec<String> = Vec::new();
    let mut i: usize = 0;
    while i < subs.len()
        invariant
            i <= subs@.len(),
            names@.map_values(|s: String| s@) == all_names(subs@.subrange(0, i as int)),
        decreases subs@.len() - i,
    {
        let ghost before = names@.map_values(|s: String| s@);
        proof {
            assert(subs@.subrange(0, i + 1).drop_last() =~= subs@.subrange(0, i as int));
        }
        let mut more = names_of(&subs[i]);
        let ghost mv = more@.map_values(|s: String| s@);
        names.append(&mut more);
        proof {
            assert(names@.map_values(|s: String| s@) =~= before + mv);
        }
        i = i + 1;
    }
    proof {
        assert(subs@.subrange(0, i as int) =~= subs@);
    }
    join_strings(&names, " ")
}

/// One bash `case` arm: the names as a pattern, completing the flags.
pub open spec fn bash_case(sub: SubInfo) -> Seq<char> {
    "            "@ + join(names_view(sub), "|"@) + ")\n                COMPREPLY=( $(compgen -W \""@
        + join(all_flags(sub.args@), " "@) + "\" -- \"$cur\") )\n                return 0\n                ;;\n"@
}

/// The `case` arms of all subcommands.
pub open spec fn bash_cases_view(subs: Seq<SubInfo>) -> Seq<char>
    decreases subs.len(),
{
    if subs.len() == 0 {
        seq![]
    } else {
        bash_cases_view(subs.drop_last()) + bash_case(subs.last())
    }
}

/// The `case` arms of all subcommands, for the bash overlay.
pub fn bash_cases(subs: &[SubInfo]) -> (r: String)
    ensures
        r@ == bash_cases_view(subs@),
{
    let mut out = String::new();
    let mut i: usize = 0;
    while i < subs.len()
        invariant
            i <= subs@.len(),
            out@ == bash_cases_view(subs@.subrange(0, i as int)),
        decreases subs@.len() - i,
    {
        proof {
            assert(subs@.subrange(0, i + 1).drop_last() =~= subs@.subrange(0, i as int));
        }
        let sub = &subs[i];
        let names = names_of(sub);
        let pattern = join_strings(&names, "|");
        let flags = flag_list(sub.args.as_slice());
        push_str(&mut out, "            ");
        push_str(&mut out, pattern.as_str());
        push_str(&mut out, ")\n                COMPREPLY=( $(compgen -W \"");
        push_str(&mut out, flags.as_str());
        push_str(&mut out, "\" -- \"$cur\") )\n                return 0\n                ;;\n");
        i = i + 1;
    }
    proof {
        assert(subs@.subrange(0, i as int) =~= subs@);
    }
    out
}

// ---------------------------------------------------------------- fish

/// Text for a fish single-quoted string: backslashes and quotes escaped.
pub open spec fn fish_escaped(s: Seq<char>) -> Seq<char> {
    replace_char(replace_char(s, '\\', "\\\\"@), '\'', "\\'"@)
}

/// Text for a fish single-quoted string.
pub fn fish_escape(s: &str) -> (r: String)
    ensures
        r@ == fish_escaped(s@),
{
    let a = replace_char_with(s, '\\', "\\\\");
    replace_char_with(a.as_str(), '\'', "\\'")
}

/// The fish line that offers one subcommand name after the alias.
pub open spec fn fish_name_line(alias: Seq<char>, name: Seq<char>, about: Option<Seq<char>>) -> Seq<char> {
    let base = "complete -c jj -n '__jj_gh_alias_no_subcommand "@ + alias + "' -f -a '"@ + name + "'"@;
    match about {
        Some(text) => base + " -d '"@ + fish_escaped(first_line(text)) + "'"@,
        None => base,
    }
}

/// The fish line that offers one subcommand name after the alias.
pub fn fish_name_line_text(alias: &str, name: &str, about: Option<&str>) -> (r: String)
    ensures
        r@ == fish_name_line(alias@, name@, crate::text::opt_str(about)),
{
    let mut r = owned("complete -c jj -n '__jj_gh_alias_no_subcommand ");
    push_str(&mut r, alias);
    push_str(&mut r, "' -f -a '");
    push_str(&mut r, name);
    push_str(&mut r, "'");
    match about {
        Some(text) => {
            let first = first_help_line(text);
            let esc = fish_escape(first.as_str());
            push_str(&mut r, " -d '");
            push_str(&mut r, esc.as_str());
            push_str(&mut r, "'");
        },
        None => {},
    }
    r
}

/// The fish condition that the command line is at one subcommand.
pub open spec fn fish_predicate(alias: Seq<char>, names: Seq<Seq<char>>) -> Seq<char> {
    "__jj_gh_alias_at_subcommand "@ + alias + " "@ + join(names, " "@)
}

/// The fish condition that the command line is at one subcommand.
pub fn sub_predicate(alias: &str, names: &Vec<String>) -> (r: String)
    ensures
        r@ == fish_predicate(alias@, names@.map_values(|s: String| s@)),
{
    let joined = join_strings(names, " ");
    let mut r = concat("__jj_gh_alias_at_subcommand ", alias);
    push_str(&mut r, " ");
    push_str(&mut r, joined.as_str());
    r
}

/// The parts of a fish flag line: the condition, `-s`, `-l`, `-r` for a
/// flag taking a value or `-f` for one that does not, and the description.
pub open spec fn fish_arg_parts(predicate: Seq<char>, a: ArgInfo) -> Seq<Seq<char>> {
    seq!["complete -c jj -n '"@ + predicate + "'"@] + (match a.short {
        Some(s) => seq!["-s "@ + seq![s]],
        None => seq![],
    }) + (match a.long {
        Some(l) => seq!["-l "@ + l@],
        None => seq![],
    }) + seq![
        if a.takes_value {
            "-r"@
        } else {
            "-f"@
        },
    ] + (match a.about {
        Some(text) => seq!["-d '"@ + fish_escaped(first_line(text@)) + "'"@],
        None => seq![],
    })
}

/// The fish line completing one flag of a subcommand.
pub fn arg_line(predicate: &str, a: &ArgInfo) -> (r: String)
    ensures
        r@ == join(fish_arg_parts(predicate@, *a), " "@),
{
    let mut parts: Vec<String> = Vec::new();
    let mut first = concat("complete -c jj -n '", predicate);
    push_str(&mut first, "'");
    let ghost v0 = first@;
    parts.push(first);
    let ghost p1 = parts@.map_values(|s: String| s@);
    assert(p1 =~= seq![v0]);
    let ghost sp: Seq<Seq<char>> = match a.short {
        Some(s) => seq!["-s "@ + seq![s]],
        None => seq![],
    };
    let ghost lp: Seq<Seq<char>> = match &a.long {
        Some(l) => seq!["-l "@ + l@],
        None => seq![],
    };
    let ghost tp: Seq<Seq<char>> = seq![
        if a.takes_value {
            "-r"@
        } else {
            "-f"@
        },
    ];
    let ghost dp: Seq<Seq<char>> = match &a.about {
        Some(text) => seq!["-d '"@ + fish_escaped(first_line(text@)) + "'"@],
        None => seq![],
    };
    match a.short {
        Some(s) => {
            let mut t = owned("-s ");
            t.push(s);
            let ghost tv = t@;
            assert(tv =~= "-s "@ + seq![s]);
            parts.push(t);
            proof {
                assert(parts@.map_values(|s: String| s@) =~= p1.push(tv));
            }
        },
        None => {},
    }
    let ghost p2 = parts@.map_values(|s: String| s@);
    assert(p2 =~= p1 + sp);
    match &a.long {
        Some(l) => {
            let t = concat("-l ", l.as_str());
            let ghost tv = t@;
            parts.push(t);
            proof {
                assert(parts@.map_values(|s: String| s@) =~= p2.push(tv));
            }
        },
        None => {},
    }
    let ghost p3 = parts@.map_values(|s: String| s@);
    assert(p3 =~= p2 + lp);
    let t = if a.takes_value {
        owned("-r")
    } else {
        owned("-f")
    };
    let ghost tv = t@;
    parts.push(t);
    let ghost p4 = parts@.map_values(|s: String| s@);
    assert(p4 =~= p3.push(tv));
    assert(p4 =~= p3 + tp);
    match &a.about {
        Some(text) => {
            let line = first_help_line(text.as_str());
            let esc = fish_escape(line.as_str());
            let mut d = concat("-d '", esc.as_str());
            push_str(&mut d, "'");
            let ghost dv = d@;
            parts.push(d);
            proof {
                assert(parts@.map_values(|s: String| s@) =~= p4.push(dv));
            }
        },
        None => {},
    }
    proof {
        assert(parts@.map_values(|s: String| s@) =~= p4 + dp);
        assert(fish_arg_parts(predicate@, *a) =~= seq![v0] + sp + lp + tp + dp);
        assert(parts@.map_values(|s: String| s@) =~= fish_arg_parts(predicate@, *a));
    }
    join_strings(&parts, " ")
}

/// The fish lines for one subcommand: one per name, then one per flag.
pub open spec fn fish_sub_lines(alias: Seq<char>, sub: SubInfo) -> Seq<Seq<char>> {
    names_view(sub).map_values(
        |n: Seq<char>|
            fish_name_line(
                alias,
                n,
                match sub.about {
                    Some(t) => Some(t@),
                    None => None,
                },
            ),
    ) + sub.args@.map_values(
        |a: ArgInfo| join(fish_arg_parts(fish_predicate(alias, names_view(sub)), a), " "@),
    )
}

/// The fish lines for all subcommands.
pub open spec fn fish_lines_view(alias: Seq<char>, subs: Seq<SubInfo>) -> Seq<Seq<char>>
    decreases subs.len(),
{
    if subs.len() == 0 {
        seq![]
    } else {
        fish_lines_view(alias, subs.drop_last()) + fish_sub_lines(alias, subs.last())
    }
}

fn fish_sub_lines_exec(alias: &str, sub: &SubInfo) -> (r: Vec<String>)
    ensures
        r@.map_values(|s: String| s@) == fish_sub_lines(alias@, *sub),
{
    let names = names_of(sub);
    let ghost nv = names@.map_values(|s: String| s@);
    let about: Option<&str> = match &sub.about {
        Some(t) => Some(t.as_str()),
        None => None,
    };
    let ghost av = crate::text::opt_str(about);
    assert(av == match sub.about {
        Some(t) => Some(t@),
        None => None,
    });
    let mut out: Vec<String> = Vec::new();
    let mut i: usize = 0;
    while i < names.len()
        invariant
            i <= names@.len(),
            nv == names@.map_values(|s: String| s@),
            av == crate::text::opt_str(about),
            out@.map_values(|s: String| s@) == nv.subrange(0, i as int).map_values(
                |n: Seq<char>| fish_name_line(alias@, n, av),
            ),
        decreases names@.len() - i,
    {
        let ghost before = out@.map_values(|s: String| s@);
        let line = fish_name_line_text(alias, names[i].as_str(), about);
        let ghost lv = line@;
        out.push(line);
        proof {
            assert(out@.map_values(|s: String| s@) =~= before.push(lv));
            assert(nv.subrange(0, i + 1).map_values(|n: Seq<char>| fish_name_line(alias@, n, av))
                =~= nv.subrange(0, i as int).map_values(|n: Seq<char>| fish_name_line(alias@, n, av)).push(
                fish_name_line(alias@, nv[i as int], av),
            ));
        }
        i = i + 1;
    }
    proof {
        assert(nv.subrange(0, i as int) =~= nv);
    }
    let pred = sub_predicate(alias, &names);
    let ghost mid = out@.map_values(|s: String| s@);
    let mut k: usize = 0;
    while k < sub.args.len()
        invariant
            k <= sub.args@.len(),
            pred@ == fish_predicate(alias@, nv),
            nv == names_view(*sub),
            out@.map_values(|s: String| s@) == mid + sub.args@.subrange(0, k as int).map_values(
                |a: ArgInfo| join(fish_arg_parts(pred@, a), " "@),
            ),
        decreases sub.args@.len() - k,
    {
        let ghost before = out@.map_values(|s: String| s@);
        let line = arg_line(pred.as_str(), &sub.args[k]);
        let ghost lv = line@;
        out.push(line);
        proof {
            assert(out@.map_values(|s: String| s@) =~= before.push(lv));
            assert(sub.args@.subrange(0, k + 1).map_values(
                |a: ArgInfo| join(fish_arg_parts(pred@, a), " "@),
            ) =~= sub.args@.subrange(0, k as int).map_values(
                |a: ArgInfo| join(fish_arg_parts(pred@, a), " "@),
            ).push(join(fish_arg_parts(pred@, sub.args@[k as int]), " "@)));
        }
        k = k + 1;
    }
    proof {
        assert(sub.args@.subrange(0, k as int) =~= sub.args@);
        assert(out@.map_values(|s: String| s@) =~= fish_sub_lines(alias@, *sub));
    }
    out
}

/// The fish overlay lines after the shared helper functions: per
/// subcommand, a line offering each of its names after the alias, then a
/// line per flag.
pub fn fish_lines(alias: &str, subs: &[SubInfo]) -> (r: Vec<String>)
    ensures
        r@.map_values(|s: String| s@) == fish_lines_view(alias@, subs@),
{
    let mut out: Vec<String> = Vec::new();
    let mut i: usize = 0;
    while i < subs.len()
        invariant
            i <= subs@.len(),
            out@.map_values(|s: String| s@) == fish_lines_view(alias@, subs@.subrange(0, i as int)),
        decreases subs@.len() - i,
    {
        let ghost before = out@.map_values(|s: String| s@);
        proof {
            assert(subs@.subrange(0, i + 1).drop_last() =~= subs@.subrange(0, i as int));
        }
        let mut more = fish_sub_lines_exec(alias, &subs[i]);
        let ghost mv = more@.map_values(|s: String| s@);
        out.append(&mut more);
        proof {
            assert(out@.map_values(|s: String| s@) =~= before + mv);
        }
        i = i + 1;
    }
    proof {
        assert(subs@.subrange(0, i as int) =~= subs@);
    }
    out
}


// ---------------------------------------------------------------- zsh

/// Text for a zsh single-quoted string: backslashes doubled, quotes as `''`.
pub open spec fn zsh_escaped(s: Seq<char>) -> Seq<char> {
    replace_char(replace_char(s, '\\', "\\\\"@), '\'', "''"@)
}

/// Text for a zsh single-quoted string.
pub fn zsh_escape(s: &str) -> (r: String)
    ensures
        r@ == zsh_escaped(s@),
{
    let a = replace_char_with(s, '\\', "\\\\");
    replace_char_with(a.as_str(), '\'', "''")
}

/// The description of a help text: its first line, or nothing.
pub open spec fn desc_of(about: Option<String>) -> Seq<char> {
    match about {
        Some(t) => first_line(t@),
        None => seq![],
    }
}

fn desc_text(about: &Option<String>) -> (r: String)
    ensures
        r@ == desc_of(*about),
{
    match about {
        Some(t) => first_help_line(t.as_str()),
        None => String::new(),
    }
}

/// One zsh `_values` entry: `'name:description'`.
pub open spec fn zsh_value(name: Seq<char>, desc: Seq<char>) -> Seq<char> {
    "            '"@ + name + ":"@ + zsh_escaped(desc) + "'"@
}

/// The `_values` entries of all subcommands: one per name.
pub open spec fn zsh_values(subs: Seq<SubInfo>) -> Seq<Seq<char>>
    decreases subs.len(),
{
    if subs.len() == 0 {
        seq![]
    } else {
        zsh_values(subs.drop_last()) + names_view(subs.last()).map_values(
            |n: Seq<char>| zsh_value(n, desc_of(subs.last().about)),
        )
    }
}

/// The `_values` block offering the subcommands, entries joined by a
/// line continuation.
pub fn zsh_sub_block(subs: &[SubInfo]) -> (r: String)
    ensures
        r@ == join(zsh_values(subs@), " \\\n"@),
{
    let mut lines: Vec<String> = Vec::new();
    let mut i: usize = 0;
    while i < subs.len()
        invariant
            i <= subs@.len(),
            lines@.map_values(|s: String| s@) == zsh_values(subs@.subrange(0, i as int)),
        decreases subs@.len() - i,
    {
        proof {
            assert(subs@.subrange(0, i + 1).drop_last() =~= subs@.subrange(0, i as int));
        }
        let sub = &subs[i];
        let desc = desc_text(&sub.about);
        let esc = zsh_escape(desc.as_str());
        let names = names_of(sub);
        let ghost nv = names@.map_values(|s: String| s@);
        let ghost start = lines@.map_values(|s: String| s@);
        let mut k: usize = 0;
        while k < names.len()
            invariant
                k <= names@.len(),
                nv == names@.map_values(|s: String| s@),
                esc@ == zsh_escaped(desc@),
                lines@.map_values(|s: String| s@) == start + nv.subrange(0, k as int).map_values(
                    |n: Seq<char>| zsh_value(n, desc@),
                ),
            decreases names@.len() - k,
        {
            let ghost before = lines@.map_values(|s: String| s@);
            let mut line = concat("            '", names[k].as_str());
            push_str(&mut line, ":");
            push_str(&mut line, esc.as_str());
            push_str(&mut line, "'");
            let ghost lv = line@;
            lines.push(line);
            proof {
                assert(lines@.map_values(|s: String| s@) =~= before.push(lv));
                assert(nv.subrange(0, k + 1).map_values(|n: Seq<char>| zsh_value(n, desc@))
                    =~= nv.subrange(0, k as int).map_values(|n: Seq<char>| zsh_value(n, desc@)).push(
                    zsh_value(nv[k as int], desc@),
                ));
            }
            k = k + 1;
        }
        proof {
            assert(nv.subrange(0, k as int) =~= nv);
        }
        i = i + 1;
    }
    proof {
        assert(subs@.subrange(0, i as int) =~= subs@);
    }
    join_strings(&lines, " \\\n")
}

/// The `_arguments` spec of one flag, when it has a short or long form.
pub open spec fn zsh_arg_spec(a: ArgInfo) -> Option<Seq<char>> {
    let desc = zsh_escaped(desc_of(a.about));
    let suffix = if a.takes_value {
        "="@
    } else {
        seq![]
    };
    match a.short {
        Some(s) => match a.long {
            Some(l) => Some(
                "'(-"@ + seq![s] + " --"@ + l@ + ")'{-"@ + seq![s] + ",--"@ + l@ + suffix + "}'["@ + desc
                    + "]'"@,
            ),
            None => Some("'-"@ + seq![s] + suffix + "["@ + desc + "]'"@),
        },
        None => match a.long {
            Some(l) => Some("'--"@ + l@ + suffix + "["@ + desc + "]'"@),
            None => None,
        },
    }
}

/// The indented `_arguments` spec lines of the flags that have a form.
pub open spec fn zsh_arg_lines(args: Seq<ArgInfo>) -> Seq<Seq<char>> {
    args.filter_map(
        |a: ArgInfo|
            match zsh_arg_spec(a) {
                Some(spec) => Some("                    "@ + spec),
                None => None,
            },
    )
}

fn zsh_arg_spec_text(a: &ArgInfo) -> (r: Option<String>)
    ensures
        match r {
            Some(t) => zsh_arg_spec(*a) == Some(t@),
            None => zsh_arg_spec(*a) is None,
        },
{
    let d = desc_text(&a.about);
    let desc = zsh_escape(d.as_str());
    let suffix = if a.takes_value {
        "="
    } else {
        proof {
            reveal_strlit("");
        }
        ""
    };
    match a.short {
        Some(s) => match &a.long {
            Some(l) => {
                let mut t = owned("'(-");
                t.push(s);
                push_str(&mut t, " --");
                push_str(&mut t, l.as_str());
                push_str(&mut t, ")'{-");
                t.push(s);
                push_str(&mut t, ",--");
                push_str(&mut t, l.as_str());
                push_str(&mut t, suffix);
                push_str(&mut t, "}'[");
                push_str(&mut t, desc.as_str());
                push_str(&mut t, "]'");
                Some(t)
            },
            None => {
                let mut t = owned("'-");
                t.push(s);
                push_str(&mut t, suffix);
                push_str(&mut t, "[");
                push_str(&mut t, desc.as_str());
                push_str(&mut t, "]'");
                Some(t)
            },
        },
        None => match &a.long {
            Some(l) => {
                let mut t = concat("'--", l.as_str());
                push_str(&mut t, suffix);
                push_str(&mut t, "[");
                push_str(&mut t, desc.as_str());
                push_str(&mut t, "]'");
                Some(t)
            },
            None => None,
        },
    }
}

/// The `_arguments` spec lines of a subcommand's flags, joined by a line
/// continuation.
pub fn arg_spec_lines(args: &[ArgInfo]) -> (r: String)
    ensures
        r@ == join(zsh_arg_lines(args@), " \\\n"@),
{
    let mut lines: Vec<String> = Vec::new();
    let mut i: usize = 0;
    while i < args.len()
        invariant
            i <= args@.len(),
            lines@.map_values(|s: String| s@) == zsh_arg_lines(args@.subrange(0, i as int)),
        decreases args@.len() - i,
    {
        let ghost before = lines@.map_values(|s: String| s@);
        proof {
            assert(args@.subrange(0, i + 1).drop_last() =~= args@.subrange(0, i as int));
            assert(args@.subrange(0, i + 1).last() == args@[i as int]);
        }
        match zsh_arg_spec_text(&args[i]) {
            Some(spec) => {
                let line = concat("                    ", spec.as_str());
                let ghost lv = line@;
                lines.push(line);
                proof {
                    assert(lines@.map_values(|s: String| s@) =~= before.push(lv));
                }
            },
            None => {},
        }
        i = i + 1;
    }
    proof {
        assert(args@.subrange(0, i as int) =~= args@);
    }
    join_strings(&lines, " \\\n")
}

/// One zsh `case` arm: the names as a pattern, running `_arguments` with
/// the flag specs (bare when there are none).
pub open spec fn zsh_case(sub: SubInfo) -> Seq<char> {
    let pattern = join(names_view(sub), "|"@);
    let args = join(zsh_arg_lines(sub.args@), " \\\n"@);
    if args.len() == 0 {
        "            ("@ + pattern + ")\n                _arguments\n                ;;\n"@
    } else {
        "            ("@ + pattern + ")\n                _arguments \\\n"@ + args + "\n                ;;\n"@
    }
}

/// The `case` arms of all subcommands.
pub open spec fn zsh_cases_view(subs: Seq<SubInfo>) -> Seq<char>
    decreases subs.len(),
{
    if subs.len() == 0 {
        seq![]
    } else {
        zsh_cases_view(subs.drop_last()) + zsh_case(subs.last())
    }
}

/// The `case` arms of all subcommands, for the zsh overlay.
pub fn zsh_cases(subs: &[SubInfo]) -> (r: String)
    ensures
        r@ == zsh_cases_view(subs@),
{
    let mut out = String::new();
    let mut i: usize = 0;
    while i < subs.len()
        invariant
            i <= subs@.len(),
            out@ == zsh_cases_view(subs@.subrange(0, i as int)),
        decreases subs@.len() - i,
    {
        proof {
            assert(subs@.subrange(0, i + 1).drop_last() =~= subs@.subrange(0, i as int));
        }
        let sub = &subs[i];
        let names = names_of(sub);
        let pattern = join_strings(&names, "|");
        let args = arg_spec_lines(sub.args.as_slice());
        push_str(&mut out, "            (");
        push_str(&mut out, pattern.as_str());
        if args.unicode_len() == 0 {
            push_str(&mut out, ")\n                _arguments\n                ;;\n");
        } else {
            push_str(&mut out, ")\n                _arguments \\\n");
            push_str(&mut out, args.as_str());
            push_str(&mut out, "\n                ;;\n");
        }
        i = i + 1;
    }
    proof {
        assert(subs@.subrange(0, i as int) =~= subs@);
    }
    out
}

// ---------------------------------------------------------------- nushell

/// The nushell signature entry of one flag; empty for a flag with neither
/// a short nor a long form.
pub open spec fn nu_arg_spec(a: ArgInfo) -> Seq<char> {
    let head: Option<Seq<char>> = match a.short {
        Some(s) => match a.long {
            Some(l) => Some("--"@ + l@ + "(-"@ + seq![s] + ")"@),
            None => Some("-"@ + seq![s]),
        },
        None => match a.long {
            Some(l) => Some("--"@ + l@),
            None => None,
        },
    };
    match head {
        None => seq![],
        Some(h) => h + (if a.takes_value {
            ": string"@
        } else {
            seq![]
        }) + (match a.about {
            Some(t) => " # "@ + first_line(t@),
            None => seq![],
        }),
    }
}

/// The nushell signature entry of one flag.
pub fn nu_arg_spec_text(a: &ArgInfo) -> (r: String)
    ensures
        r@ == nu_arg_spec(*a),
{
    let mut spec = match a.short {
        Some(s) => match &a.long {
            Some(l) => {
                let mut t = concat("--", l.as_str());
                push_str(&mut t, "(-");
                t.push(s);
                push_str(&mut t, ")");
                t
            },
            None => {
                let mut t = owned("-");
                t.push(s);
                t
            },
        },
        None => match &a.long {
            Some(l) => concat("--", l.as_str()),
            None => {
                return String::new();
            },
        },
    };
    if a.takes_value {
        push_str(&mut spec, ": string");
    }
    match &a.about {
        Some(t) => {
            push_str(&mut spec, " # ");
            let line = first_help_line(t.as_str());
            push_str(&mut spec, line.as_str());
        },
        None => {},
    }
    spec
}

/// The nushell `extern` block for one name of a subcommand.
pub open spec fn nu_extern(alias: Seq<char>, name: Seq<char>, sub: SubInfo) -> Seq<Seq<char>> {
    (match sub.about {
        Some(t) => seq!["  # "@ + first_line(t@)],
        None => seq![],
    }) + seq!["  export extern \"jj "@ + alias + " "@ + name + "\" ["@] + sub.args@.map_values(
        |a: ArgInfo| "    "@ + nu_arg_spec(a),
    ) + seq!["  ]"@, seq![]]
}

/// The nushell lines for all names of one subcommand.
pub open spec fn nu_sub_lines(alias: Seq<char>, sub: SubInfo) -> Seq<Seq<char>> {
    names_view(sub).map_values(|n: Seq<char>| nu_extern(alias, n, sub)).flatten()
}

/// The nushell lines for all subcommands.
pub open spec fn nu_lines_view(alias: Seq<char>, subs: Seq<SubInfo>) -> Seq<Seq<char>>
    decreases subs.len(),
{
    if subs.len() == 0 {
        seq![]
    } else {
        nu_lines_view(alias, subs.drop_last()) + nu_sub_lines(alias, subs.last())
    }
}

fn nu_extern_lines(alias: &str, name: &str, sub: &SubInfo) -> (r: Vec<String>)
    ensures
        r@.map_values(|s: String| s@) == nu_extern(alias@, name@, *sub),
{
    let mut out: Vec<String> = Vec::new();
    match &sub.about {
        Some(t) => {
            let line = first_help_line(t.as_str());
            out.push(concat("  # ", line.as_str()));
        },
        None => {},
    }
    let mut head = concat("  export extern \"jj ", alias);
    push_str(&mut head, " ");
    push_str(&mut head, name);
    push_str(&mut head, "\" [");
    let ghost h = head@;
    let ghost p0 = out@.map_values(|s: String| s@);
    out.push(head);
    let ghost start = out@.map_values(|s: String| s@);
    assert(start =~= p0.push(h));
    let mut k: usize = 0;
    while k < sub.args.len()
        invariant
            k <= sub.args@.len(),
            out@.map_values(|s: String| s@) == start + sub.args@.subrange(0, k as int).map_values(
                |a: ArgInfo| "    "@ + nu_arg_spec(a),
            ),
        decreases sub.args@.len() - k,
    {
        let ghost before = out@.map_values(|s: String| s@);
        let spec = nu_arg_spec_text(&sub.args[k]);
        let line = concat("    ", spec.as_str());
        let ghost lv = line@;
        out.push(line);
        proof {
            assert(out@.map_values(|s: String| s@) =~= before.push(lv));
            assert(sub.args@.subrange(0, k + 1).map_values(|a: ArgInfo| "    "@ + nu_arg_spec(a))
                =~= sub.args@.subrange(0, k as int).map_values(|a: ArgInfo| "    "@ + nu_arg_spec(a)).push(
                "    "@ + nu_arg_spec(sub.args@[k as int]),
            ));
        }
        k = k + 1;
    }
    let ghost mid = out@.map_values(|s: String| s@);
    let close = owned("  ]");
    let ghost cv = close@;
    out.push(close);
    out.push(String::new());
    proof {
        assert(sub.args@.subrange(0, k as int) =~= sub.args@);
        assert(out@.map_values(|s: String| s@) =~= mid.push(cv).push(Seq::<char>::empty()));
        assert(out@.map_values(|s: String| s@) =~= nu_extern(alias@, name@, *sub));
    }
    out
}

/// The nushell overlay lines inside its `module completions` block: for
/// each name of each subcommand, its description as a comment and an
/// `export extern` with one entry per flag.
pub fn nushell_lines(alias: &str, subs: &[SubInfo]) -> (r: Vec<String>)
    ensures
        r@.map_values(|s: String| s@) == nu_lines_view(alias@, subs@),
{
    let mut out: Vec<String> = Vec::new();
    let mut i: usize = 0;
    while i < subs.len()
        invariant
            i <= subs@.len(),
            out@.map_values(|s: String| s@) == nu_lines_view(alias@, subs@.subrange(0, i as int)),
        decreases subs@.len() - i,
    {
        proof {
            assert(subs@.subrange(0, i + 1).drop_last() =~= subs@.subrange(0, i as int));
        }
        let sub = &subs[i];
        let names = names_of(sub);
        let ghost nv = names@.map_values(|s: String| s@);
        let ghost start = out@.map_values(|s: String| s@);
        let mut k: usize = 0;
        while k < names.len()
            invariant
                k <= names@.len(),
                nv == names@.map_values(|s: String| s@),
                out@.map_values(|s: String| s@) == start + nv.subrange(0, k as int).map_values(
                    |n: Seq<char>| nu_extern(alias@, n, *sub),
                ).flatten(),
            decreases names@.len() - k,
        {
            let ghost before = out@.map_values(|s: String| s@);
            let mut more = nu_extern_lines(alias, names[k].as_str(), sub);
            let ghost mv = more@.map_values(|s: String| s@);
            out.append(&mut more);
            proof {
                let f = |n: Seq<char>| nu_extern(alias@, n, *sub);
                assert(out@.map_values(|s: String| s@) =~= before + mv);
                assert(nv.subrange(0, k + 1).map_values(f) =~= nv.subrange(0, k as int).map_values(f).push(
                    nu_extern(alias@, nv[k as int], *sub),
                ));
                nv.subrange(0, k as int).map_values(f).lemma_flatten_push(
                    nu_extern(alias@, nv[k as int], *sub),
                );
            }
            k = k + 1;
        }
        proof {
            assert(nv.subrange(0, k as int) =~= nv);
        }
        i = i + 1;
    }
    proof {
        assert(subs@.subrange(0, i as int) =~= subs@);
    }
    out
}

} // verus!
