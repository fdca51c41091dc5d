//! Configuration values with rules of their own: the auto-merge method, the
//! default title source, per-layer template settings, and reading the paths
//! `jj config path` prints.

use crate::text::{chars_of, concat, owned, push_str, str_eq, string_from_range, trim, trim_bounds};
use vstd::prelude::*;

verus! {

/// GitHub merge method used when enabling auto-merge on a PR.
#[derive(Debug, Clone, Copy, PartialEq, Eq, Structural)]
pub enum AutoMergeMethod {
    Merge,
    Squash,
    Rebase,
}

impl Default for AutoMergeMethod {
    fn default() -> (m: Self)
        ensures
            m == AutoMergeMethod::Merge,
    {
        AutoMergeMethod::Merge
    }
}

impl AutoMergeMethod {
    /// The lowercase name used in config files and frontmatter.
    pub open spec fn name_view(self) -> Seq<char> {
        match self {
            AutoMergeMethod::Merge => "merge"@,
            AutoMergeMethod::Squash => "squash"@,
            AutoMergeMethod::Rebase => "rebase"@,
        }
    }

    /// The lowercase name used in config files and frontmatter.
    pub fn name(self) -> (s: &'static str)
        ensures
            s@ == self.name_view(),
    {
        match self {
            AutoMergeMethod::Merge => "merge",
            AutoMergeMethod::Squash => "squash",
            AutoMergeMethod::Rebase => "rebase",
        }
    }

    /// The method named `name`, if any; names are lowercase.
    pub fn from_name(name: &str) -> (m: Option<AutoMergeMethod>)
        ensures
            match m {
                Some(method) => method.name_view() == name@,
                None => forall|method: AutoMergeMethod| method.name_view() != name@,
            },
    {
        if str_eq(name, "merge") {
            Some(AutoMergeMethod::Merge)
        } else if str_eq(name, "squash") {
            Some(AutoMergeMethod::Squash)
        } else if str_eq(name, "rebase") {
            Some(AutoMergeMethod::Rebase)
        } else {
            proof {
                assert forall|method: AutoMergeMethod| method.name_view() != name@ by {
                    match method {
                        AutoMergeMethod::Merge => {},
                        AutoMergeMethod::Squash => {},
                        AutoMergeMethod::Rebase => {},
                    }
                }
            }
            None
        }
    }
}

/// Which commit of a multi-commit PR supplies its default title.
#[derive(Debug, Clone, Copy, PartialEq, Eq, Structural)]
pub enum DefaultTitleSource {
    /// The oldest commit, closest to the base.
    Base,
    /// The newest commit, the head.
    Head,
}

/// PR-body template values resolved against one jj config layer (or a bucket
/// of layers), so a repo-local template can win over a global one.
#[derive(Debug, Default, Clone)]
pub struct LayerTemplate {
    pub pr_create_template: Option<String>,
    pub pr_create_template_file: Option<String>,
}

/// The text of `bytes`, when they are valid UTF-8.
#[verifier::external_body]
pub fn utf8_text(bytes: &[u8]) -> (r: Option<String>)
    ensures
        match r {
            Some(s) => vstd::utf8::valid_utf8(bytes@) && s@ == vstd::utf8::decode_utf8(bytes@),
            None => !vstd::utf8::valid_utf8(bytes@),
        },
{
    match std::str::from_utf8(bytes) {
        Ok(s) => Some(s.to_string()),
        Err(_) => None,
    }
}

/// The layer path `jj config path` printed: the trimmed UTF-8 stdout, or
/// `None` when the command failed (no stdout), printed invalid UTF-8, or
/// printed nothing but white space.
pub open spec fn config_path_view(stdout: Option<Seq<u8>>) -> Option<Seq<char>> {
    match stdout {
        None => None,
        Some(bytes) => if !vstd::utf8::valid_utf8(bytes) {
            None
        } else if trim(vstd::utf8::decode_utf8(bytes)).len() == 0 {
            None
        } else {
            Some(trim(vstd::utf8::decode_utf8(bytes)))
        },
    }
}

/// Parse a `jj config path` stdout into a layer path. `None` when the command
/// failed (no stdout) or jj printed an empty path.
pub fn parse_config_path(stdout: Option<&[u8]>) -> (r: Option<String>)
    ensures
        r matches Some(p) ==> config_path_view(
            match stdout {
                Some(b) => Some(b@),
                None => None,
            },
        ) == Some(p@),
        r is None ==> config_path_view(
            match stdout {
                Some(b) => Some(b@),
                None => None,
            },
        ) is None,
{
    let bytes = match stdout {
        Some(b) => b,
        None => return None,
    };
    let text = match utf8_text(bytes) {
        Some(t) => t,
        None => return None,
    };
    let v = chars_of(text.as_str());
    let (lo, hi) = trim_bounds(&v);
    if lo == hi {
        return None;
    }
    Some(string_from_range(&v, lo, hi))
}


/// The warning for a deprecated configuration key, built from the key, the
/// version that deprecated it and the note.
pub open spec fn deprecation_message_view(key: Seq<char>, since: Seq<char>, note: Seq<char>) -> Seq<
    char,
> {
    "`jj-gh."@ + key + "` is deprecated since "@ + since + ": "@ + note
}

/// The warning for a deprecated configuration key.
pub fn deprecation_message(key: &str, since: &str, note: &str) -> (m: String)
    ensures
        m@ == deprecation_message_view(key@, since@, note@),
{
    let mut m = concat("`jj-gh.", key);
    push_str(&mut m, "` is deprecated since ");
    push_str(&mut m, since);
    push_str(&mut m, ": ");
    push_str(&mut m, note);
    m
}

/// The deprecated configuration keys, each with its warning.
pub open spec fn deprecated_keys_view() -> Seq<(Seq<char>, Seq<char>)> {
    seq![
        ("default_remote"@, deprecation_message_view(
            "default_remote"@,
            "0.2.5"@,
            "jj-gh now auto-detects the default remote via the repository data."@,
        )),
    ]
}

/// The deprecated configuration keys, each with its warning.
pub fn deprecated_config_keys() -> (r: Vec<(String, String)>)
    ensures
        r@.map_values(|e: (String, String)| (e.0@, e.1@)) == deprecated_keys_view(),
{
    let mut r: Vec<(String, String)> = Vec::new();
    let m = deprecation_message(
        "default_remote",
        "0.2.5",
        "jj-gh now auto-detects the default remote via the repository data.",
    );
    r.push((owned("default_remote"), m));
    assert(r@.map_values(|e: (String, String)| (e.0@, e.1@)) =~= deprecated_keys_view());
    r
}

/// The warnings owed for a config layer labelled `source` whose `jj-gh`
/// table holds `keys`: one per deprecated key present, in the order of the
/// deprecated keys.
pub open spec fn deprecation_warnings_view(keys: Seq<Seq<char>>, source: Seq<char>) -> Seq<Seq<char>> {
    deprecated_keys_view().filter_map(
        |e: (Seq<char>, Seq<char>)|
            if keys.contains(e.0) {
                Some(e.1 + " Source: "@ + source + "."@)
            } else {
                None
            },
    )
}

fn contains_key(keys: &[String], key: &str) -> (b: bool)
    ensures
        b == keys@.map_values(|k: String| k@).contains(key@),
{
    let ghost views = keys@.map_values(|k: String| k@);
    let mut i: usize = 0;
    while i < keys.len()
        invariant
            i <= keys.len(),
            views == keys@.map_values(|k: String| k@),
            forall|j: int| 0 <= j < i ==> views[j] != key@,
        decreases keys.len() - i,
    {
        if str_eq(keys[i].as_str(), key) {
            assert(views[i as int] == key@);
            return true;
        }
        i = i + 1;
    }
    false
}

/// The warnings for the deprecated keys found in a layer's `jj-gh` table.
pub fn deprecation_warnings(keys: &[String], source: &str) -> (r: Vec<String>)
    ensures
        r@.map_values(|w: String| w@) == deprecation_warnings_view(
            keys@.map_values(|k: String| k@),
            source@,
        ),
{
    let deprecated = deprecated_config_keys();
    let ghost dv = deprecated_keys_view();
    let ghost kv = keys@.map_values(|k: String| k@);
    let mut out: Vec<String> = Vec::new();
    let mut i: usize = 0;
    while i < deprecated.len()
        invariant
            i <= deprecated.len(),
            deprecated@.map_values(|e: (String, String)| (e.0@, e.1@)) == dv,
            dv == deprecated_keys_view(),
            kv == keys@.map_values(|k: String| k@),
            out@.map_values(|w: String| w@) == dv.subrange(0, i as int).filter_map(
                |e: (Seq<char>, Seq<char>)|
                    if kv.contains(e.0) {
                        Some(e.1 + " Source: "@ + source@ + "."@)
                    } else {
                        None
                    },
            ),
        decreases deprecated.len() - i,
    {
        let ghost before = out@.map_values(|w: String| w@);
        proof {
            assert(dv.subrange(0, i + 1).drop_last() =~= dv.subrange(0, i as int));
            assert(dv[i as int] == (deprecated@[i as int].0@, deprecated@[i as int].1@));
        }
        if contains_key(keys, deprecated[i].0.as_str()) {
            let mut w = owned(deprecated[i].1.as_str());
            push_str(&mut w, " Source: ");
            push_str(&mut w, source);
            push_str(&mut w, ".");
            out.push(w);
            proof {
                assert(out@.map_values(|w: String| w@) =~= before + seq![w@]);
            }
        }
        i = i + 1;
    }
    proof {
        assert(dv.subrange(0, i as int) =~= dv);
    }
    out
}

} // verus!
