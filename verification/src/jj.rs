//! What the logic reads from `jj`, and the command lines and templates it
//! hands to `jj`.

use crate::restack_log::{str_lt, strictly_ordered, views_of};
use crate::text::{chars_of, concat, owned, push_str, replace_char, replace_char_with, str_eq};
use vstd::prelude::*;

verus! {

/// What is read about a single revision.
#[derive(Debug, Clone)]
pub struct CommitInfo {
    pub change_id: String,
    pub commit_id: String,
    pub description: String,
    pub bookmarks: Vec<String>,
}

/// A local bookmark tracked on a remote, paired with the commit the *local*
/// side points at. The local commit may differ from the remote target (e.g.
/// after a rebase that was not pushed).
#[derive(Debug, Clone, PartialEq, Eq)]
pub struct PushedBookmark {
    pub name: String,
    /// 40-char hex commit id of the local bookmark target.
    pub local_commit_id: String,
}

/// The revset from the selected PR base revision to `rev`:
/// `(base_rev)..(rev)`.
pub fn title_base_revset(rev: &str, base_rev: &str) -> (r: String)
    ensures
        r@ == "("@ + base_rev@ + ")..("@ + rev@ + ")"@,
{
    let mut r = concat("(", base_rev);
    push_str(&mut r, ")..(");
    push_str(&mut r, rev);
    push_str(&mut r, ")");
    r
}

/// A `jj` command line: the program and `--ignore-working-copy`, shared by
/// every invocation, then `args`.
pub fn jj_argv<'a>(args: &[&'a str]) -> (r: Vec<&'a str>)
    ensures
        r@.len() == args@.len() + 2,
        r@[0]@ == "jj"@,
        r@[1]@ == "--ignore-working-copy"@,
        forall|i: int| 0 <= i < args@.len() ==> #[trigger] r@[i + 2] == args@[i],
{
    let mut r: Vec<&'a str> = Vec::new();
    r.push("jj");
    r.push("--ignore-working-copy");
    let mut i: usize = 0;
    while i < args.len()
        invariant
            i <= args@.len(),
            r@.len() == i + 2,
            r@[0]@ == "jj"@,
            r@[1]@ == "--ignore-working-copy"@,
            forall|j: int| 0 <= j < i ==> #[trigger] r@[j + 2] == args@[j],
        decreases args@.len() - i,
    {
        r.push(args[i]);
        i = i + 1;
    }
    r
}

/// The arguments of a `jj log` that evaluates `template` over `revset`
/// without graph or color, optionally with a config file (which must come
/// before the subcommand) and in reverse order.
pub open spec fn eval_template_args(
    revset: Seq<char>,
    template: Seq<char>,
    config_file: Option<Seq<char>>,
    reversed: bool,
) -> Seq<Seq<char>> {
    let head = match config_file {
        Some(path) => seq!["--config-file"@, path],
        None => seq![],
    };
    let tail = if reversed {
        seq!["--reversed"@, "-T"@, template]
    } else {
        seq!["-T"@, template]
    };
    head + seq!["log"@, "-r"@, revset, "--no-graph"@, "--color=never"@] + tail
}

/// The arguments of a `jj log` that evaluates `template` over `revset`.
pub fn eval_template_argv(revset: &str, template: &str, config_file: Option<&str>, reversed: bool) -> (r:
    Vec<String>)
    ensures
        r@.map_values(|s: String| s@) == eval_template_args(
            revset@,
            template@,
            crate::text::opt_str(config_file),
            reversed,
        ),
{
    let mut argv: Vec<String> = Vec::new();
    if let Some(path) = config_file {
        argv.push(owned("--config-file"));
        argv.push(owned(path));
    }
    argv.push(owned("log"));
    argv.push(owned("-r"));
    argv.push(owned(revset));
    argv.push(owned("--no-graph"));
    argv.push(owned("--color=never"));
    if reversed {
        argv.push(owned("--reversed"));
    }
    argv.push(owned("-T"));
    argv.push(owned(template));
    assert(argv@.map_values(|s: String| s@) =~= eval_template_args(
        revset@,
        template@,
        crate::text::opt_str(config_file),
        reversed,
    ));
    argv
}

/// One field of a JSON-object template: `"\"name\":" ++ json(expr)`.
pub open spec fn json_field(name: Seq<char>, expr: Seq<char>) -> Seq<char> {
    "\"\\\""@ + name + "\\\":\" ++ json("@ + expr + ")"@
}

/// The fields of a JSON-object template joined by `++ "," ++`.
pub open spec fn json_fields(fields: Seq<(&str, &str)>) -> Seq<char>
    decreases fields.len(),
{
    if fields.len() == 0 {
        seq![]
    } else if fields.len() == 1 {
        json_field(fields[0].0@, fields[0].1@)
    } else {
        json_fields(fields.drop_last()) + " ++ \",\" ++ "@ + json_field(
            fields.last().0@,
            fields.last().1@,
        )
    }
}

/// A jj template that renders one JSON object with the given
/// `(name, expression)` fields.
pub fn json_object_template(fields: &[(&str, &str)]) -> (r: String)
    ensures
        r@ == "\"{\" ++ "@ + json_fields(fields@) + " ++ \"}\""@,
{
    let mut body = String::new();
    let mut i: usize = 0;
    while i < fields.len()
        invariant
            i <= fields@.len(),
            body@ == json_fields(fields@.subrange(0, i as int)),
        decreases fields@.len() - i,
    {
        let ghost before = body@;
        if i > 0 {
            push_str(&mut body, " ++ \",\" ++ ");
        }
        let (name, expr) = fields[i];
        push_str(&mut body, "\"\\\"");
        push_str(&mut body, name);
        push_str(&mut body, "\\\":\" ++ json(");
        push_str(&mut body, expr);
        push_str(&mut body, ")");
        proof {
            let pre = fields@.subrange(0, i + 1);
            assert(pre.drop_last() =~= fields@.subrange(0, i as int));
            if i == 0 {
                assert(before =~= Seq::<char>::empty());
                assert(body@ =~= json_field(name@, expr@));
            } else {
                assert(body@ =~= before + " ++ \",\" ++ "@ + json_field(name@, expr@));
            }
        }
        i = i + 1;
    }
    assert(fields@.subrange(0, fields@.len() as int) =~= fields@);
    let mut r = concat("\"{\" ++ ", body.as_str());
    push_str(&mut r, " ++ \"}\"");
    r
}

/// `names` joined with `, `, or `(none)` for no names.
pub open spec fn names_text(names: Seq<String>) -> Seq<char>
    decreases names.len(),
{
    if names.len() == 0 {
        "(none)"@
    } else {
        joined(names, names.len() as int)
    }
}

/// The first `k` names joined with `, `.
pub open spec fn joined(names: Seq<String>, k: int) -> Seq<char>
    decreases k,
{
    if k <= 0 {
        seq![]
    } else if k == 1 {
        names[0]@
    } else {
        joined(names, k - 1) + ", "@ + names[k - 1]@
    }
}

/// The explanation shown when no git remote can be resolved: the order in
/// which the remote is looked for, and the remotes that are configured.
pub open spec fn remote_resolution_text(names: Seq<String>) -> Seq<char> {
    "could not determine the default git remote for this repository.\n\njj-gh resolves the remote in this order:\n  1. --upstream-remote / --remote flag\n  2. jj-gh.upstream_remote / jj-gh.default_remote in config\n  3. git's default push remote (branch.<b>.pushRemote, remote.pushDefault, else `origin`)\n\nNone matched. Configured remotes: "@
        + names_text(names)
        + "\nFix: set `jj-gh.default_remote = \"<name>\"` in your jj config, or pass `--remote <name>`."@
}

/// Build the error message shown when no git remote can be resolved.
pub fn remote_resolution_error(remote_names: &[String]) -> (r: String)
    ensures
        r@ == remote_resolution_text(remote_names@),
{
    let mut r = owned(
        "could not determine the default git remote for this repository.\n\njj-gh resolves the remote in this order:\n  1. --upstream-remote / --remote flag\n  2. jj-gh.upstream_remote / jj-gh.default_remote in config\n  3. git's default push remote (branch.<b>.pushRemote, remote.pushDefault, else `origin`)\n\nNone matched. Configured remotes: ",
    );
    let ghost start = r@;
    if remote_names.len() == 0 {
        push_str(&mut r, "(none)");
    } else {
        let mut i: usize = 0;
        while i < remote_names.len()
            invariant
                i <= remote_names@.len(),
                r@ == start + joined(remote_names@, i as int),
            decreases remote_names@.len() - i,
        {
            let ghost before = r@;
            if i > 0 {
                push_str(&mut r, ", ");
            }
            push_str(&mut r, remote_names[i].as_str());
            proof {
                if i == 0 {
                    assert(r@ =~= start + remote_names@[0]@);
                } else {
                    assert(r@ =~= start + (joined(remote_names@, i as int) + ", "@ + remote_names@[i as int]@));
                }
            }
            i = i + 1;
        }
    }
    push_str(
        &mut r,
        "\nFix: set `jj-gh.default_remote = \"<name>\"` in your jj config, or pass `--remote <name>`.",
    );
    r
}

/// Escape `s` for a jj template string literal: `\` becomes `\\` and `"`
/// becomes `\"`.
pub open spec fn escaped(s: Seq<char>) -> Seq<char> {
    replace_char(replace_char(s, '\\', "\\\\"@), '"', "\\\""@)
}

/// Escape a string for embedding inside a jj template double-quoted string
/// literal. Handles `\` and `"`; control characters are never embedded.
pub fn escape_jj_string(s: &str) -> (r: String)
    ensures
        r@ == escaped(s@),
{
    let once = replace_char_with(s, '\\', "\\\\");
    replace_char_with(once.as_str(), '"', "\\\"")
}

/// `s` as a jj template string literal: escaped and double-quoted.
pub fn quote_jj(s: &str) -> (r: String)
    ensures
        r@ == "\""@ + escaped(s@) + "\""@,
{
    let mut r = concat("\"", escape_jj_string(s).as_str());
    push_str(&mut r, "\"");
    r
}

/// The `[template-aliases]` and `[colors]` sections of a jj config file,
/// each kept sorted by key with one entry per key.
#[derive(Debug, Default, Clone)]
pub struct TemplateAliases {
    aliases: Vec<(String, String)>,
    colors: Vec<(String, String)>,
}

/// The keys of a list of entries.
pub open spec fn keys_of(entries: Seq<(String, String)>) -> Seq<Seq<char>> {
    entries.map_values(|e: (String, String)| e.0@)
}

/// The map a sorted list of entries stands for.
pub open spec fn entry_map(entries: Seq<(String, String)>) -> Map<Seq<char>, Seq<char>>
    decreases entries.len(),
{
    if entries.len() == 0 {
        Map::empty()
    } else {
        entry_map(entries.drop_last()).insert(entries.last().0@, entries.last().1@)
    }
}

/// Lemma: in a list with distinct keys, the map holds each entry.
proof fn lemma_entry_map_holds(entries: Seq<(String, String)>, i: int)
    requires
        strictly_ordered(keys_of(entries)),
        0 <= i < entries.len(),
    ensures
        entry_map(entries).contains_key(entries[i].0@),
        entry_map(entries)[entries[i].0@] == entries[i].1@,
    decreases entries.len(),
{
    let n = entries.len() - 1;
    if i < n {
        let pre = entries.drop_last();
        assert(keys_of(pre) =~= keys_of(entries).drop_last());
        lemma_entry_map_holds(pre, i);
        assert(str_lt(keys_of(entries)[i], keys_of(entries)[n]));
        crate::restack_log::lemma_str_lt_total(entries[i].0@, entries[n].0@);
    }
}

/// Lemma: the map of a list holds exactly its keys.
proof fn lemma_entry_map_dom(entries: Seq<(String, String)>)
    ensures
        entry_map(entries).dom() =~= keys_of(entries).to_set(),
    decreases entries.len(),
{
    if entries.len() > 0 {
        lemma_entry_map_dom(entries.drop_last());
        assert(keys_of(entries.drop_last()) =~= keys_of(entries).drop_last());
        assert forall|k: Seq<char>| keys_of(entries).to_set().contains(k) <==> (keys_of(
            entries.drop_last(),
        ).to_set().contains(k) || k == entries.last().0@) by {
            let ks = keys_of(entries);
            if ks.contains(k) {
                let j = choose|j: int| 0 <= j < ks.len() && ks[j] == k;
                if j < ks.len() - 1 {
                    assert(keys_of(entries.drop_last())[j] == k);
                }
            }
            if keys_of(entries.drop_last()).contains(k) {
                let j = choose|j: int|
                    0 <= j < keys_of(entries.drop_last()).len() && keys_of(entries.drop_last())[j] == k;
                assert(ks[j] == k);
            }
            if k == entries.last().0@ {
                assert(ks[ks.len() - 1] == k);
            }
        }
    }
}

/// Lemma: a list with distinct keys determines its map: equal maps and
/// sorted keys mean equal lists of views.
proof fn lemma_entry_map_values(entries: Seq<(String, String)>, k: Seq<char>)
    requires
        strictly_ordered(keys_of(entries)),
        entry_map(entries).contains_key(k),
    ensures
        exists|i: int| 0 <= i < entries.len() && #[trigger] entries[i].0@ == k,
{
    lemma_entry_map_dom(entries);
    assert(keys_of(entries).to_set().contains(k));
    let i = choose|i: int| 0 <= i < keys_of(entries).len() && keys_of(entries)[i] == k;
    assert(entries[i].0@ == k);
}

/// Put `key = value` into a sorted list of entries, replacing the value of
/// an existing key.
fn put_entry(entries: &mut Vec<(String, String)>, key: String, value: String)
    requires
        strictly_ordered(keys_of(old(entries)@)),
    ensures
        strictly_ordered(keys_of(final(entries)@)),
        entry_map(final(entries)@) == entry_map(old(entries)@).insert(key@, value@),
{
    let kv = chars_of(key.as_str());
    let mut i: usize = 0;
    while i < entries.len() && key_lt_at(entries, i, &kv)
        invariant
            i <= entries@.len(),
            kv@ == key@,
            forall|j: int| 0 <= j < i ==> str_lt(#[trigger] keys_of(entries@)[j], key@),
        decreases entries@.len() - i,
    {
        i = i + 1;
    }
    let ghost before = entries@;
    let same = i < entries.len() && str_eq(entries[i].0.as_str(), key.as_str());
    if same {
        let _old = entries.remove(i);
        entries.insert(i, (key, value));
        proof {
            assert(entries@ == before.update(i as int, entries@[i as int]));
            assert(keys_of(entries@) =~= keys_of(before));
            lemma_entry_map_replace(before, i as int, entries@);
        }
    } else {
        entries.insert(i, (key, value));
        proof {
            assert(entries@ == before.insert(i as int, entries@[i as int]));
            assert(keys_of(entries@) =~= keys_of(before).insert(i as int, kv@));
            if i < before.len() {
                crate::restack_log::lemma_str_lt_total(keys_of(before)[i as int], kv@);
            }
            crate::restack_log::lemma_insert_ordered_keys(keys_of(before), i as int, kv@);
            lemma_entry_map_insert(before, i as int, entries@);
        }
    }
}

fn key_lt_at(entries: &Vec<(String, String)>, i: usize, key: &Vec<char>) -> (r: bool)
    requires
        i < entries@.len(),
    ensures
        r == str_lt(keys_of(entries@)[i as int], key@),
{
    let cv = chars_of(entries[i].0.as_str());
    crate::restack_log::less_than(&cv, key)
}

/// Lemma: replacing the value of entry `i` updates the map at its key.
proof fn lemma_entry_map_replace(before: Seq<(String, String)>, i: int, after: Seq<(String, String)>)
    requires
        strictly_ordered(keys_of(before)),
        0 <= i < before.len(),
        after.len() == before.len(),
        after[i].0@ == before[i].0@,
        forall|j: int| 0 <= j < before.len() && j != i ==> after[j] == before[j],
    ensures
        entry_map(after) == entry_map(before).insert(after[i].0@, after[i].1@),
{
    let k = after[i].0@;
    assert(keys_of(after) =~= keys_of(before));
    lemma_entry_map_dom(before);
    lemma_entry_map_dom(after);
    lemma_entry_map_holds(before, i);
    assert forall|x: Seq<char>| #[trigger] entry_map(after).contains_key(x) implies entry_map(after)[x]
        == entry_map(before).insert(k, after[i].1@)[x] by {
        lemma_entry_map_values(after, x);
        let j = choose|j: int| 0 <= j < after.len() && #[trigger] after[j].0@ == x;
        lemma_entry_map_holds(after, j);
        if j != i {
            assert(after[j] == before[j]);
            lemma_entry_map_holds(before, j);
            crate::restack_log::lemma_str_lt_total(x, x);
            if j < i {
                assert(str_lt(keys_of(before)[j], keys_of(before)[i]));
            } else {
                assert(str_lt(keys_of(before)[i], keys_of(before)[j]));
            }
        }
    }
    assert(entry_map(after).dom() =~= entry_map(before).insert(k, after[i].1@).dom());
    assert(entry_map(after) =~= entry_map(before).insert(k, after[i].1@));
}

/// Lemma: inserting a new entry at its sorted place adds it to the map.
proof fn lemma_entry_map_insert(before: Seq<(String, String)>, i: int, after: Seq<(String, String)>)
    requires
        strictly_ordered(keys_of(before)),
        strictly_ordered(keys_of(after)),
        0 <= i <= before.len(),
        after == before.insert(i, after[i]),
        !keys_of(before).contains(after[i].0@),
    ensures
        entry_map(after) == entry_map(before).insert(after[i].0@, after[i].1@),
{
    let k = after[i].0@;
    lemma_entry_map_dom(before);
    lemma_entry_map_dom(after);
    assert(keys_of(after) =~= keys_of(before).insert(i, k));
    assert forall|x: Seq<char>| #[trigger] entry_map(after).contains_key(x) implies entry_map(after)[x]
        == entry_map(before).insert(k, after[i].1@)[x] by {
        lemma_entry_map_values(after, x);
        let j = choose|j: int| 0 <= j < after.len() && #[trigger] after[j].0@ == x;
        lemma_entry_map_holds(after, j);
        if j < i {
            lemma_entry_map_holds(before, j);
        } else if j > i {
            lemma_entry_map_holds(before, j - 1);
        }
    }
    assert forall|x: Seq<char>| entry_map(before).insert(k, after[i].1@).contains_key(x) implies #[trigger] entry_map(
        after,
    ).contains_key(x) by {
        if x != k {
            lemma_entry_map_values(before, x);
            let j = choose|j: int| 0 <= j < before.len() && #[trigger] before[j].0@ == x;
            if j < i {
                assert(keys_of(after)[j] == x);
            } else {
                assert(keys_of(after)[j + 1] == x);
            }
        } else {
            assert(keys_of(after)[i] == x);
        }
    }
    assert(entry_map(after) =~= entry_map(before).insert(k, after[i].1@));
}

/// The TOML text `toml::to_string` gives for a document whose top-level
/// keys are the section names, each a table of string values.
pub uninterp spec fn toml_tables(sections: Seq<(Seq<char>, Seq<(Seq<char>, Seq<char>)>)>) -> Seq<char>;

/// The views of a list of entries.
pub open spec fn entries_view(entries: Seq<(String, String)>) -> Seq<(Seq<char>, Seq<char>)> {
    entries.map_values(|e: (String, String)| (e.0@, e.1@))
}

/// The views of a list of sections.
pub open spec fn sections_view(sections: Seq<(String, Vec<(String, String)>)>) -> Seq<
    (Seq<char>, Seq<(Seq<char>, Seq<char>)>),
> {
    sections.map_values(|s: (String, Vec<(String, String)>)| (s.0@, entries_view(s.1@)))
}

/// Serialises the sections with `toml::to_string`, as a `toml::Table` of
/// tables of strings; with the crate's `preserve_order` feature, which this
/// package turns on, tables keep the order their keys were inserted in. Such
/// a table always serialises; an error, were there one, would give the empty
/// text.
#[verifier::external_body]
fn render_toml(sections: &Vec<(String, Vec<(String, String)>)>) -> (r: String)
    ensures
        r@ == toml_tables(sections_view(sections@)),
{
    let mut doc = toml::Table::new();
    for (name, entries) in sections {
        let table: toml::Table = entries.iter().map(|(k, v)| (k.clone(), toml::Value::String(v.clone()))).collect();
        doc.insert(name.clone(), toml::Value::Table(table));
    }
    toml::to_string(&doc).unwrap_or_default()
}

fn copy_entries(v: &Vec<(String, String)>) -> (r: Vec<(String, String)>)
    ensures
        entries_view(r@) == entries_view(v@),
{
    let mut out: Vec<(String, String)> = Vec::new();
    let mut i: usize = 0;
    while i < v.len()
        invariant
            i <= v@.len(),
            entries_view(out@) == entries_view(v@.subrange(0, i as int)),
        decreases v@.len() - i,
    {
        let e = (owned(v[i].0.as_str()), owned(v[i].1.as_str()));
        let ghost ev = (e.0@, e.1@);
        let ghost before = entries_view(out@);
        out.push(e);
        proof {
            assert(entries_view(out@) =~= before.push(ev));
            assert(entries_view(v@.subrange(0, i + 1)) =~= entries_view(v@.subrange(0, i as int)).push(
                (v@[i as int].0@, v@[i as int].1@),
            ));
        }
        i = i + 1;
    }
    proof {
        assert(v@.subrange(0, i as int) =~= v@);
    }
    out
}

impl TemplateAliases {
    /// The sections' entries are sorted by key, one entry per key.
    pub closed spec fn wf(&self) -> bool {
        strictly_ordered(keys_of(self.aliases@)) && strictly_ordered(keys_of(self.colors@))
    }

    /// The `[template-aliases]` section, by name.
    pub closed spec fn alias_view(&self) -> Map<Seq<char>, Seq<char>> {
        entry_map(self.aliases@)
    }

    /// The `[colors]` section, by label.
    pub closed spec fn color_view(&self) -> Map<Seq<char>, Seq<char>> {
        entry_map(self.colors@)
    }

    /// No aliases and no colors.
    pub fn builder() -> (r: Self)
        ensures
            r.wf(),
            r.alias_view() == Map::<Seq<char>, Seq<char>>::empty(),
            r.color_view() == Map::<Seq<char>, Seq<char>>::empty(),
    {
        TemplateAliases { aliases: Vec::new(), colors: Vec::new() }
    }

    /// Add a `[template-aliases]` entry; `expr` is a jj template expression.
    /// A later entry for the same name replaces the earlier one.
    pub fn alias(self, name: String, expr: String) -> (r: Self)
        requires
            self.wf(),
        ensures
            r.wf(),
            r.alias_view() == self.alias_view().insert(name@, expr@),
            r.color_view() == self.color_view(),
    {
        let mut out = self;
        put_entry(&mut out.aliases, name, expr);
        out
    }

    /// Add a `[colors]` entry; `value` is a jj color such as `green` or
    /// `#aabbcc`, checked by jj at run time.
    pub fn color(self, label: String, value: String) -> (r: Self)
        requires
            self.wf(),
        ensures
            r.wf(),
            r.color_view() == self.color_view().insert(label@, value@),
            r.alias_view() == self.alias_view(),
    {
        let mut out = self;
        put_entry(&mut out.colors, label, value);
        out
    }


    /// The sections present: `template-aliases` then `colors`, each only
    /// when it has entries.
    pub closed spec fn sections(&self) -> Seq<(Seq<char>, Seq<(Seq<char>, Seq<char>)>)> {
        (if self.aliases@.len() == 0 {
            seq![]
        } else {
            seq![("template-aliases"@, entries_view(self.aliases@))]
        }) + (if self.colors@.len() == 0 {
            seq![]
        } else {
            seq![("colors"@, entries_view(self.colors@))]
        })
    }

    /// The configured sections as TOML text, for a `--config-file`.
    pub fn to_toml(&self) -> (r: String)
        ensures
            r@ == toml_tables(self.sections()),
    {
        let mut sections: Vec<(String, Vec<(String, String)>)> = Vec::new();
        if self.aliases.len() > 0 {
            sections.push((owned("template-aliases"), copy_entries(&self.aliases)));
        }
        let ghost first = sections_view(sections@);
        if self.colors.len() > 0 {
            sections.push((owned("colors"), copy_entries(&self.colors)));
        }
        proof {
            assert(sections_view(sections@) =~= self.sections());
        }
        render_toml(&sections)
    }

    /// The `[template-aliases]` entries, sorted by name.
    pub fn aliases(&self) -> (r: &Vec<(String, String)>)
        requires
            self.wf(),
        ensures
            strictly_ordered(keys_of(r@)),
            entry_map(r@) == self.alias_view(),
    {
        &self.aliases
    }

    /// The `[colors]` entries, sorted by label.
    pub fn colors(&self) -> (r: &Vec<(String, String)>)
        requires
            self.wf(),
        ensures
            strictly_ordered(keys_of(r@)),
            entry_map(r@) == self.color_view(),
    {
        &self.colors
    }
}

} // verus!
