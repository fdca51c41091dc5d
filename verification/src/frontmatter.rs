//! The YAML frontmatter document of the PR editor buffer.
//!
//! Layout:
//! ````text
//! ---
//! title: ...
//! base: main
//! labels: [...]
//! draft: false
//! ---
//!
//! <body>
//!
//! # 8< jj-gh: below this line removed on submit >8
//!
//! ```diff
//! - line removed
//! + line added
//! ```
//! ````
//!
//! This module frames the document: it places the YAML block, the body and
//! the optional diff preview, and splits an edited buffer back into the YAML
//! text and the body. Reading and writing the YAML itself is the YAML
//! crate's job.

use crate::config::AutoMergeMethod;
use crate::reviewer::Reviewer;
use crate::text::{
    chars_of, concat, occurs_at, trim_start, find, find_from, find_in, first_at, is_blank, is_ws, matches_at, owned,
    push_chars, push_str, split_once, starts_with, string_from, string_from_range, strip_leading,
    strip_leading_char, trim, trim_bounds, trim_end,
};
use vstd::prelude::*;
use vstd::string::StrSliceExecFns;

verus! {

/// Sentinel heading that marks the start of the read-only diff preview in
/// the editor buffer. The marker line and everything after it are stripped on
/// parse. Whole-line match after trimming trailing white space.
pub const PREVIEW_MARKER: &'static str = "# 8< jj-gh: below this line removed on submit >8";

/// Titles longer than this many characters draw a warning.
pub const TITLE_WARN_LEN: usize = 72;

/// The PR metadata edited in the frontmatter.
#[derive(Debug, Clone)]
pub struct Frontmatter {
    pub title: String,
    pub base: String,
    pub labels: Vec<String>,
    pub reviewers: Vec<Reviewer>,
    pub draft: bool,
    pub auto_merge: bool,
    pub auto_merge_method: AutoMergeMethod,
}

/// Why a frontmatter cannot be used as it is.
#[derive(Debug, Clone, Copy, PartialEq, Eq, Structural)]
pub enum FrontmatterError {
    /// The buffer does not start with `---` and a newline.
    MissingLeadingDelimiter,
    /// No closing `---` after the YAML block.
    Unterminated,
    /// The title is empty or white space.
    TitleEmpty,
    /// The base is empty or white space.
    BaseEmpty,
}

impl FrontmatterError {
    /// The user-facing message.
    pub open spec fn message_view(self) -> Seq<char> {
        match self {
            FrontmatterError::MissingLeadingDelimiter => "missing leading `---` frontmatter delimiter"@,
            FrontmatterError::Unterminated => "unterminated frontmatter; expected closing `---`"@,
            FrontmatterError::TitleEmpty => "title is empty"@,
            FrontmatterError::BaseEmpty => "base is empty"@,
        }
    }

    /// The user-facing message.
    pub fn message(self) -> (m: String)
        ensures
            m@ == self.message_view(),
    {
        match self {
            FrontmatterError::MissingLeadingDelimiter => owned(
                "missing leading `---` frontmatter delimiter",
            ),
            FrontmatterError::Unterminated => owned("unterminated frontmatter; expected closing `---`"),
            FrontmatterError::TitleEmpty => owned("title is empty"),
            FrontmatterError::BaseEmpty => owned("base is empty"),
        }
    }
}

impl Frontmatter {
    /// A frontmatter from the fields a YAML block supplied: a field left out
    /// takes its default (no labels, no approvers, not a draft, no
    /// auto-merge, the `merge` method).
    pub fn from_fields(
        title: String,
        base: String,
        labels: Option<Vec<String>>,
        reviewers: Option<Vec<Reviewer>>,
        draft: Option<bool>,
        auto_merge: Option<bool>,
        auto_merge_method: Option<AutoMergeMethod>,
    ) -> (fm: Frontmatter)
        ensures
            fm.title == title,
            fm.base == base,
            fm.labels@ == (match labels {
                Some(l) => l@,
                None => Seq::<String>::empty(),
            }),
            fm.reviewers@ == (match reviewers {
                Some(r) => r@,
                None => Seq::<Reviewer>::empty(),
            }),
            fm.draft == (draft == Some(true)),
            fm.auto_merge == (auto_merge == Some(true)),
            fm.auto_merge_method == (match auto_merge_method {
                Some(m) => m,
                None => AutoMergeMethod::Merge,
            }),
    {
        Frontmatter {
            title,
            base,
            labels: match labels {
                Some(l) => l,
                None => Vec::new(),
            },
            reviewers: match reviewers {
                Some(r) => r,
                None => Vec::new(),
            },
            draft: match draft {
                Some(d) => d,
                None => false,
            },
            auto_merge: match auto_merge {
                Some(a) => a,
                None => false,
            },
            auto_merge_method: match auto_merge_method {
                Some(m) => m,
                None => AutoMergeMethod::Merge,
            },
        }
    }

    /// Check this frontmatter before sending it to the API: the title and
    /// the base must not be blank.
    pub fn validate(&self) -> (r: Result<(), FrontmatterError>)
        ensures
            trim(self.title@).len() == 0 ==> r == Err::<(), FrontmatterError>(
                FrontmatterError::TitleEmpty,
            ),
            trim(self.title@).len() > 0 && trim(self.base@).len() == 0 ==> r == Err::<
                (),
                FrontmatterError,
            >(FrontmatterError::BaseEmpty),
            trim(self.title@).len() > 0 && trim(self.base@).len() > 0 ==> r is Ok,
    {
        if is_blank(self.title.as_str()) {
            return Err(FrontmatterError::TitleEmpty);
        }
        if is_blank(self.base.as_str()) {
            return Err(FrontmatterError::BaseEmpty);
        }
        Ok(())
    }

    /// Whether the title is longer than recommended, which draws a warning.
    pub fn title_too_long(&self) -> (r: bool)
        ensures
            r == (self.title@.len() > TITLE_WARN_LEN),
    {
        self.title.as_str().unicode_len() > TITLE_WARN_LEN
    }
}

/// The end of the first line piece of `s` at or after `i`: just past the next
/// newline, or the end of `s`.
pub open spec fn piece_end(s: Seq<char>, i: int) -> int {
    match first_at(s, seq!['\n'], i) {
        Some(n) => n + 1,
        None => s.len() as int,
    }
}

/// How many characters of `s[i..]` come before the first line that is the
/// preview marker once its trailing white space is trimmed (all of them when
/// there is none).
pub open spec fn kept_from(s: Seq<char>, i: int) -> int
    decreases s.len() - i,
{
    if i < 0 || i >= s.len() {
        0
    } else {
        let end = piece_end(s, i);
        if trim_end(s.subrange(i, end)) == PREVIEW_MARKER@ {
            0
        } else {
            proof {
                lemma_piece_end(s, i);
            }
            (end - i) + kept_from(s, end)
        }
    }
}

/// Lemma: a line piece is never empty.
pub proof fn lemma_piece_end(s: Seq<char>, i: int)
    requires
        0 <= i < s.len(),
    ensures
        i < piece_end(s, i) <= s.len(),
{
    match first_at(s, seq!['\n'], i) {
        Some(n) => {
            crate::text::lemma_first_at_found(s, seq!['\n'], i, n);
        },
        None => {},
    }
}

/// `buffer` cut at the first line that is the preview marker.
pub open spec fn without_preview(buffer: Seq<char>) -> Seq<char> {
    buffer.subrange(0, kept_from(buffer, 0))
}

/// Truncate `buffer` at the first line equal to [`PREVIEW_MARKER`] after
/// trimming its trailing white space; the whole buffer when there is no such
/// line. A line with white space before the marker does not match.
pub fn strip_preview(buffer: &str) -> (r: String)
    ensures
        r@ == without_preview(buffer@),
{
    let v = chars_of(buffer);
    let marker = chars_of(PREVIEW_MARKER);
    let nl = vec!['\n'];
    assert(nl@ =~= seq!['\n']);
    let mut i: usize = 0;
    let mut done = false;
    while !done && i < v.len()
        invariant
            i <= v@.len(),
            nl@ == seq!['\n'],
            marker@ == PREVIEW_MARKER@,
            kept_from(v@, 0) == i + kept_from(v@, i as int),
            done ==> kept_from(v@, i as int) == 0,
        decreases v@.len() - i, if done { 0int } else { 1int },
    {
        let end = match find_from(&v, &nl, i) {
            Some(n) => n + 1,
            None => v.len(),
        };
        proof {
            lemma_piece_end(v@, i as int);
        }
        let piece = string_from_range(&v, i, end);
        let pv = chars_of(piece.as_str());
        let hi = crate::text::trim_end_len(&pv);
        let t = string_from_range(&pv, 0, hi);
        let tv = chars_of(t.as_str());
        if crate::text::seq_eq(&tv, &marker) {
            done = true;
        } else {
            i = end;
        }
    }
    let keep = i;
    string_from_range(&v, 0, keep)
}

/// What `split` reads from a buffer: the YAML text between the delimiters
/// and the body after them, or the error.
pub open spec fn split_view(buffer: Seq<char>) -> Result<(Seq<char>, Seq<char>), FrontmatterError> {
    let t = without_preview(buffer);
    if !starts_with(t, "---\n"@) {
        Err(FrontmatterError::MissingLeadingDelimiter)
    } else {
        let rest = t.subrange("---\n"@.len() as int, t.len() as int);
        let parts = match split_once(rest, "\n---\n"@) {
            Some(p) => Some(p),
            None => split_once(rest, "\n---"@),
        };
        match parts {
            None => Err(FrontmatterError::Unterminated),
            Some((yaml, body)) => Ok((yaml, trim_end(strip_leading(body, '\n')))),
        }
    }
}

/// Split an edited buffer into the YAML text of its frontmatter and its body.
///
/// The preview marker and everything after it are dropped first. The buffer
/// must start with `---` and a newline; the YAML runs to the first `\n---\n`
/// (or, failing that, the first `\n---`). The body loses its leading
/// newlines and its trailing white space.
pub fn split(buffer: &str) -> (r: Result<(String, String), FrontmatterError>)
    ensures
        match r {
            Ok((yaml, body)) => split_view(buffer@) == Ok::<(Seq<char>, Seq<char>), FrontmatterError>(
                (yaml@, body@),
            ),
            Err(e) => split_view(buffer@) == Err::<(Seq<char>, Seq<char>), FrontmatterError>(e),
        },
{
    let t = strip_preview(buffer);
    let tv = chars_of(t.as_str());
    let open = chars_of("---\n");
    if !matches_at(&tv, &open, 0) {
        return Err(FrontmatterError::MissingLeadingDelimiter);
    }
    let rest = string_from_range(&tv, open.len(), tv.len());
    let rv = chars_of(rest.as_str());
    let close = chars_of("\n---\n");
    let close_short = chars_of("\n---");
    let (at, len) = match find_in(&rv, &close) {
        Some(i) => (i, close.len()),
        None => match find_in(&rv, &close_short) {
            Some(i) => (i, close_short.len()),
            None => {
                return Err(FrontmatterError::Unterminated);
            },
        },
    };
    let yaml = string_from_range(&rv, 0, at);
    let body_raw = string_from_range(&rv, at + len, rv.len());
    let bv = chars_of(body_raw.as_str());
    let start = strip_leading_char(&bv, '\n');
    let stripped = string_from_range(&bv, start, bv.len());
    let sv = chars_of(stripped.as_str());
    let end = crate::text::trim_end_len(&sv);
    let body = string_from_range(&sv, 0, end);
    Ok((yaml, body))
}

/// The editor buffer for a YAML block, a body and an optional diff preview.
pub open spec fn rendered_view(yaml: Seq<char>, body: Seq<char>, preview: Option<Seq<char>>) -> Seq<
    char,
> {
    let stripped = strip_leading(body, '\n');
    let b = if stripped.len() == 0 {
        "\n"@
    } else {
        stripped
    };
    let doc = "---\n"@ + yaml + "\n---\n\n"@ + b;
    match preview {
        None => doc,
        Some(diff) => if trim(body).len() == 0 {
            doc + "\n\n\n\n"@ + PREVIEW_MARKER@ + "\n\n```diff\n"@ + diff + "\n```\n"@
        } else {
            trim_end(doc) + "\n\n\n\n\n"@ + PREVIEW_MARKER@ + "\n\n```diff\n"@ + diff + "\n```\n"@
        },
    }
}

/// Emit the YAML block, a blank line and the body; with a preview, append
/// the marker heading and the diff in a fenced block (with some extra blank
/// lines for comfort in the editor).
pub fn render_document(yaml: &str, body: &str, preview: Option<&str>) -> (r: String)
    ensures
        r@ == rendered_view(yaml@, body@, crate::text::opt_str(preview)),
{
    let orig_body_empty = is_blank(body);
    let bv = chars_of(body);
    let start = strip_leading_char(&bv, '\n');
    let b = if start == bv.len() {
        owned("\n")
    } else {
        string_from_range(&bv, start, bv.len())
    };
    let mut doc = concat("---\n", yaml);
    push_str(&mut doc, "\n---\n\n");
    push_str(&mut doc, b.as_str());
    match preview {
        None => doc,
        Some(diff) => {
            let mut out = if orig_body_empty {
                let mut d = doc;
                push_str(&mut d, "\n\n\n\n");
                d
            } else {
                let dv = chars_of(doc.as_str());
                let end = crate::text::trim_end_len(&dv);
                let mut d = string_from_range(&dv, 0, end);
                push_str(&mut d, "\n\n\n\n\n");
                d
            };
            push_str(&mut out, PREVIEW_MARKER);
            push_str(&mut out, "\n\n```diff\n");
            push_str(&mut out, diff);
            push_str(&mut out, "\n```\n");
            out
        },
    }
}


/// Facts about the preview marker: 48 characters, none a newline, no white
/// space at its ends.
proof fn lemma_marker_facts()
    ensures
        PREVIEW_MARKER@.len() == 48,
        forall|p: int| 0 <= p < PREVIEW_MARKER@.len() ==> PREVIEW_MARKER@[p] != '\n',
        !is_ws(PREVIEW_MARKER@[0]),
        !is_ws(PREVIEW_MARKER@.last()),
{
    reveal_strlit("# 8< jj-gh: below this line removed on submit >8");
}

/// A newline at `a - 1`, at or after `i`, bounds the line piece at `i`.
proof fn lemma_piece_end_before(s: Seq<char>, i: int, a: int)
    requires
        0 <= i < a <= s.len(),
        s[a - 1] == '\n',
    ensures
        i < piece_end(s, i) <= a,
{
    let nl = seq!['\n'];
    assert(s.subrange(a - 1, a) =~= nl);
    match first_at(s, nl, i) {
        Some(n) => {
            crate::text::lemma_first_at_found(s, nl, i, n);
            if n > a - 1 {
                assert(occurs_at(s, nl, a - 1));
            }
        },
        None => {
            crate::text::lemma_first_at_absent(s, nl, i, a - 1);
        },
    }
}

/// The preview marker occurs in `s` nowhere in the window `[i, a)`.
pub open spec fn marker_free(s: Seq<char>, i: int, a: int) -> bool {
    forall|j: int| i <= j && j + PREVIEW_MARKER@.len() <= a ==> !#[trigger] occurs_at(s, PREVIEW_MARKER@, j)
}

/// Over a window free of the marker that ends at a line end (or the end of
/// `s`), every line is kept.
proof fn lemma_kept_clean(s: Seq<char>, i: int, a: int)
    requires
        0 <= i <= a <= s.len(),
        a == s.len() || (a > 0 && s[a - 1] == '\n'),
        marker_free(s, i, a),
    ensures
        kept_from(s, i) == (a - i) + kept_from(s, a),
    decreases a - i,
{
    if i < a {
        let end = piece_end(s, i);
        lemma_piece_end(s, i);
        if a < s.len() {
            lemma_piece_end_before(s, i, a);
        }
        let piece = s.subrange(i, end);
        crate::text::lemma_trim_end_shape(piece);
        if trim_end(piece) == PREVIEW_MARKER@ {
            assert(s.subrange(i, i + PREVIEW_MARKER@.len()) =~= piece.subrange(
                0,
                trim_end(piece).len() as int,
            ));
            assert(occurs_at(s, PREVIEW_MARKER@, i));
        }
        lemma_kept_clean(s, end, a);
    }
}

/// A line that is the marker followed by a newline ends what is kept.
proof fn lemma_kept_at_marker(s: Seq<char>, a: int)
    requires
        0 <= a,
        a + PREVIEW_MARKER@.len() + 1 <= s.len(),
        s.subrange(a, a + PREVIEW_MARKER@.len()) == PREVIEW_MARKER@,
        s[a + PREVIEW_MARKER@.len()] == '\n',
    ensures
        kept_from(s, a) == 0,
{
    lemma_marker_facts();
    let m = PREVIEW_MARKER@;
    let nl = seq!['\n'];
    let e = a + m.len();
    assert(s.subrange(e, e + 1) =~= nl);
    assert forall|j: int| a <= j < e implies !occurs_at(s, nl, j) by {
        assert(s[j] == m[j - a]);
        if occurs_at(s, nl, j) {
            assert(s.subrange(j, j + 1)[0] == s[j]);
        }
    }
    crate::text::lemma_first_at_skip(s, nl, a, e);
    assert(piece_end(s, a) == e + 1);
    let piece = s.subrange(a, e + 1);
    assert(piece =~= m.push('\n'));
    assert(trim_end(piece) == trim_end(m)) by {
        assert(piece.drop_last() =~= m);
    }
    crate::text::lemma_trim_of_clean(m);
}


/// `strip_leading(s, c)` is a suffix of `s` that does not start with `c`.
proof fn lemma_strip_leading_shape(s: Seq<char>, c: char)
    ensures
        strip_leading(s, c).len() <= s.len(),
        strip_leading(s, c) == s.subrange(s.len() - strip_leading(s, c).len(), s.len() as int),
        strip_leading(s, c).len() == 0 || strip_leading(s, c)[0] != c,
        forall|i: int| 0 <= i < s.len() - strip_leading(s, c).len() ==> #[trigger] s[i] == c,
    decreases s.len(),
{
    if s.len() > 0 && s[0] == c {
        lemma_strip_leading_shape(s.drop_first(), c);
        let t = strip_leading(s.drop_first(), c);
        assert(s.drop_first().subrange(s.drop_first().len() - t.len(), s.drop_first().len() as int)
            =~= s.subrange(s.len() - t.len(), s.len() as int));
        assert forall|i: int| 0 <= i < s.len() - t.len() implies #[trigger] s[i] == c by {
            if i > 0 {
                assert(s[i] == s.drop_first()[i - 1]);
            }
        }
    } else {
        assert(s.subrange(0, s.len() as int) =~= s);
    }
}

/// Every character of `s` is white space.
pub open spec fn all_ws(s: Seq<char>) -> bool {
    forall|i: int| 0 <= i < s.len() ==> is_ws(#[trigger] s[i])
}

proof fn lemma_trim_end_all_ws(s: Seq<char>)
    requires
        all_ws(s),
    ensures
        trim_end(s).len() == 0,
    decreases s.len(),
{
    if s.len() > 0 {
        assert(is_ws(s[s.len() - 1]));
        assert(all_ws(s.drop_last()));
        lemma_trim_end_all_ws(s.drop_last());
    }
}

/// A string trims to nothing exactly when it is all white space.
proof fn lemma_blank_iff_all_ws(s: Seq<char>)
    ensures
        (trim(s).len() == 0) == all_ws(s),
    decreases s.len(),
{
    if s.len() > 0 && is_ws(s[0]) {
        lemma_blank_iff_all_ws(s.drop_first());
        if all_ws(s.drop_first()) {
            assert forall|i: int| 0 <= i < s.len() implies is_ws(#[trigger] s[i]) by {
                if i > 0 {
                    assert(s[i] == s.drop_first()[i - 1]);
                }
            }
        }
        if all_ws(s) {
            assert forall|i: int| 0 <= i < s.drop_first().len() implies is_ws(
                #[trigger] s.drop_first()[i],
            ) by {
                assert(s.drop_first()[i] == s[i + 1]);
            }
        }
    } else if s.len() > 0 {
        crate::text::lemma_trim_end_shape(s);
        if trim_end(s).len() == 0 {
            lemma_trim_end_nonempty(s);
        }
    } else {
    }
}

proof fn lemma_trim_end_nonempty(s: Seq<char>)
    requires
        s.len() > 0,
        !is_ws(s[0]),
    ensures
        trim_end(s).len() > 0,
    decreases s.len(),
{
    if is_ws(s.last()) {
        assert(s.len() > 1);
        assert(s.drop_last()[0] == s[0]);
        lemma_trim_end_nonempty(s.drop_last());
    }
}

/// Trailing white space does not change what `trim_end` keeps of `x`.
proof fn lemma_trim_end_ws_tail(x: Seq<char>, w: Seq<char>)
    requires
        all_ws(w),
    ensures
        trim_end(x + w) == trim_end(x),
    decreases w.len(),
{
    if w.len() == 0 {
        assert(x + w =~= x);
    } else {
        assert((x + w).last() == w.last());
        assert(is_ws(w[w.len() - 1]));
        assert((x + w).drop_last() =~= x + w.drop_last());
        assert(all_ws(w.drop_last()));
        lemma_trim_end_ws_tail(x, w.drop_last());
    }
}

/// `trim_end` of `x + y` keeps `x` whole when `y` has some non-white text.
proof fn lemma_trim_end_concat(x: Seq<char>, y: Seq<char>)
    requires
        trim_end(y).len() > 0,
    ensures
        trim_end(x + y) == x + trim_end(y),
    decreases y.len(),
{
    if y.len() > 0 && is_ws(y.last()) {
        assert((x + y).last() == y.last());
        assert((x + y).drop_last() =~= x + y.drop_last());
        lemma_trim_end_concat(x, y.drop_last());
    } else {
        if y.len() > 0 {
            assert((x + y).last() == y.last());
        }
    }
}

/// The closing delimiter after a YAML block without `\n---` is found right
/// after the block.
proof fn lemma_delimiter_found(yaml: Seq<char>, tail: Seq<char>)
    requires
        !crate::text::contains(yaml, "\n---"@),
        tail.len() >= 5,
        tail.subrange(0, 5) == "\n---\n"@,
    ensures
        find(yaml + tail, "\n---\n"@) == Some(yaml.len() as int),
{
    reveal_strlit("\n---\n");
    reveal_strlit("\n---");
    let s = yaml + tail;
    let d = "\n---\n"@;
    let y = yaml.len() as int;
    assert forall|p: int| 0 <= p < y implies !occurs_at(s, d, p) by {
        if occurs_at(s, d, p) {
            assert(s.subrange(p, p + 5) == d);
            assert(s[p] == '\n' && s[p + 1] == '-' && s[p + 2] == '-' && s[p + 3] == '-') by {
                assert(s.subrange(p, p + 5)[0] == s[p]);
                assert(s.subrange(p, p + 5)[1] == s[p + 1]);
                assert(s.subrange(p, p + 5)[2] == s[p + 2]);
                assert(s.subrange(p, p + 5)[3] == s[p + 3]);
            }
            assert(s[y] == tail[0]);
            assert(tail[0] == tail.subrange(0, 5)[0]);
            if p + 3 < y {
                assert(yaml.subrange(p, p + 4) =~= "\n---"@);
                assert(occurs_at(yaml, "\n---"@, p));
                crate::text::lemma_first_at_absent(yaml, "\n---"@, 0, p);
            }
        }
    }
    crate::text::lemma_first_at_skip(s, d, 0, y);
    assert(s.subrange(y, y + 5) =~= tail.subrange(0, 5));
}


proof fn lemma_no_marker(x: Seq<char>)
    requires
        !crate::text::contains(x, PREVIEW_MARKER@),
    ensures
        marker_free(x, 0, x.len() as int),
{
    assert forall|j: int| 0 <= j && j + PREVIEW_MARKER@.len() <= x.len() implies !#[trigger] occurs_at(
        x,
        PREVIEW_MARKER@,
        j,
    ) by {
        crate::text::lemma_first_at_absent(x, PREVIEW_MARKER@, 0, j);
    }
}

/// An occurrence of the marker crosses no newline.
proof fn lemma_marker_no_newline(s: Seq<char>, j: int, p: int)
    requires
        occurs_at(s, PREVIEW_MARKER@, j),
        j <= p < j + PREVIEW_MARKER@.len(),
    ensures
        s[p] != '\n',
{
    lemma_marker_facts();
    assert(s.subrange(j, j + PREVIEW_MARKER@.len())[p - j] == s[p]);
}

/// An occurrence inside a window of `s` is an occurrence in that window.
proof fn lemma_occurs_in_window(s: Seq<char>, u: int, v: int, j: int)
    requires
        0 <= u <= j,
        j + PREVIEW_MARKER@.len() <= v <= s.len(),
        occurs_at(s, PREVIEW_MARKER@, j),
    ensures
        occurs_at(s.subrange(u, v), PREVIEW_MARKER@, j - u),
{
    assert(s.subrange(u, v).subrange(j - u, j - u + PREVIEW_MARKER@.len()) =~= s.subrange(
        j,
        j + PREVIEW_MARKER@.len(),
    ));
}

/// The document `---`, YAML, `---`, blank line, body holds no marker when
/// neither the YAML nor the body does.
proof fn lemma_doc_marker_free(yaml: Seq<char>, b: Seq<char>)
    requires
        marker_free(yaml, 0, yaml.len() as int),
        marker_free(b, 0, b.len() as int),
    ensures
        marker_free(
            "---\n"@ + yaml + "\n---\n\n"@ + b,
            0,
            ("---\n"@ + yaml + "\n---\n\n"@ + b).len() as int,
        ),
{
    reveal_strlit("---\n");
    reveal_strlit("\n---\n\n");
    lemma_marker_facts();
    let doc = "---\n"@ + yaml + "\n---\n\n"@ + b;
    let y = yaml.len() as int;
    let m = PREVIEW_MARKER@.len() as int;
    assert(doc[3] == '\n');
    assert(doc[4 + y] == '\n');
    assert(doc[9 + y] == '\n');
    assert(doc.subrange(4, 4 + y) =~= yaml);
    assert(doc.subrange(10 + y, doc.len() as int) =~= b);
    assert forall|j: int| 0 <= j && j + m <= doc.len() implies !#[trigger] occurs_at(
        doc,
        PREVIEW_MARKER@,
        j,
    ) by {
        if occurs_at(doc, PREVIEW_MARKER@, j) {
            if j <= 3 {
                lemma_marker_no_newline(doc, j, 3);
            } else if j + m <= 4 + y {
                lemma_occurs_in_window(doc, 4, 4 + y, j);
            } else if j <= 4 + y {
                lemma_marker_no_newline(doc, j, 4 + y);
            } else if j <= 9 + y {
                lemma_marker_no_newline(doc, j, 9 + y);
            } else {
                lemma_occurs_in_window(doc, 10 + y, doc.len() as int, j);
            }
        }
    }
}


proof fn lemma_trim_end_not_all_ws(s: Seq<char>)
    requires
        !all_ws(s),
    ensures
        trim_end(s).len() > 0,
    decreases s.len(),
{
    if s.len() > 0 && is_ws(s.last()) {
        assert(!all_ws(s.drop_last())) by {
            let i = choose|i: int| 0 <= i < s.len() && !is_ws(#[trigger] s[i]);
            assert(i < s.len() - 1);
            assert(s.drop_last()[i] == s[i]);
        }
        lemma_trim_end_not_all_ws(s.drop_last());
    }
}

proof fn lemma_trim_end_idempotent(s: Seq<char>)
    ensures
        trim_end(trim_end(s)) == trim_end(s),
{
    crate::text::lemma_trim_end_shape(s);
}

/// `strip_leading` of a newline followed by `x`, when `x` does not start
/// with a newline, is `x`.
proof fn lemma_strip_one_newline(x: Seq<char>)
    requires
        x.len() == 0 || x[0] != '\n',
    ensures
        strip_leading(seq!['\n'] + x, '\n') == x,
{
    assert((seq!['\n'] + x)[0] == '\n');
    assert((seq!['\n'] + x).drop_first() =~= x);
    assert(strip_leading(x, '\n') == x);
}

proof fn lemma_suffix_all_ws(s: Seq<char>, k: int)
    requires
        all_ws(s),
        0 <= k <= s.len(),
    ensures
        all_ws(s.subrange(k, s.len() as int)),
{
    assert forall|i: int| 0 <= i < s.len() - k implies is_ws(#[trigger] s.subrange(k, s.len() as int)[i]) by {
        assert(s.subrange(k, s.len() as int)[i] == s[i + k]);
    }
}

/// A newline occurs at `p` exactly when `s[p]` is a newline.
proof fn lemma_newline_at(s: Seq<char>, p: int)
    requires
        0 <= p < s.len(),
    ensures
        occurs_at(s, seq!['\n'], p) == (s[p] == '\n'),
{
    assert(s.subrange(p, p + 1)[0] == s[p]);
    if s[p] == '\n' {
        assert(s.subrange(p, p + 1) =~= seq!['\n']);
    }
}

/// The line piece at `i` holds no newline but its last character, and it
/// runs to the end of `s` when that character is no newline.
proof fn lemma_piece_end_facts(s: Seq<char>, i: int)
    requires
        0 <= i < s.len(),
    ensures
        i < piece_end(s, i) <= s.len(),
        forall|p: int| i <= p < piece_end(s, i) - 1 ==> s[p] != '\n',
        s[piece_end(s, i) - 1] != '\n' ==> piece_end(s, i) == s.len(),
{
    let nl = seq!['\n'];
    lemma_piece_end(s, i);
    match first_at(s, nl, i) {
        Some(n) => {
            crate::text::lemma_first_at_found(s, nl, i, n);
            lemma_newline_at(s, n);
            assert forall|p: int| i <= p < n implies s[p] != '\n' by {
                lemma_newline_at(s, p);
            }
        },
        None => {
            assert forall|p: int| i <= p < s.len() implies s[p] != '\n' by {
                crate::text::lemma_first_at_absent(s, nl, i, p);
                lemma_newline_at(s, p);
            }
        },
    }
}

/// The line piece at `i` ends just past the first newline at `n`.
proof fn lemma_piece_end_at(s: Seq<char>, i: int, n: int)
    requires
        0 <= i <= n < s.len(),
        s[n] == '\n',
        forall|p: int| i <= p < n ==> s[p] != '\n',
    ensures
        piece_end(s, i) == n + 1,
{
    lemma_piece_end_facts(s, i);
}

/// The line piece at `i` runs to the end of `s` when no newline follows.
proof fn lemma_piece_end_none(s: Seq<char>, i: int)
    requires
        0 <= i < s.len(),
        forall|p: int| i <= p < s.len() ==> s[p] != '\n',
    ensures
        piece_end(s, i) == s.len(),
{
    lemma_piece_end_facts(s, i);
}

/// What is kept of `x + y` past `x` is what is kept of `y`.
proof fn lemma_kept_shift(x: Seq<char>, y: Seq<char>, j: int)
    requires
        0 <= j,
    ensures
        kept_from(x + y, x.len() + j) == kept_from(y, j),
    decreases y.len() - j,
{
    let s = x + y;
    let o = x.len() as int;
    if j < y.len() {
        lemma_piece_end_facts(y, j);
        let e = piece_end(y, j);
        assert forall|p: int| o + j <= p < o + e - 1 implies s[p] != '\n' by {
            assert(s[p] == y[p - o]);
        }
        if y[e - 1] == '\n' {
            assert(s[o + e - 1] == y[e - 1]);
            lemma_piece_end_at(s, o + j, o + e - 1);
        } else {
            assert forall|p: int| o + j <= p < s.len() implies s[p] != '\n' by {
                assert(s[p] == y[p - o]);
            }
            lemma_piece_end_none(s, o + j);
        }
        assert(s.subrange(o + j, o + e) =~= y.subrange(j, e));
        lemma_kept_shift(x, y, e);
    }
}

/// When `x` ends at a line end and all of `x` from `i` is kept, what is kept
/// of `x + y` from `i` runs through `x` and on into `y`.
proof fn lemma_kept_prefix(x: Seq<char>, y: Seq<char>, i: int)
    requires
        0 <= i <= x.len(),
        x.len() > 0 ==> x.last() == '\n',
        kept_from(x, i) == x.len() - i,
    ensures
        kept_from(x + y, i) == (x.len() - i) + kept_from(x + y, x.len() as int),
    decreases x.len() - i,
{
    if i < x.len() {
        let s = x + y;
        lemma_piece_end_facts(x, i);
        let e = piece_end(x, i);
        assert(x[e - 1] == '\n');
        assert forall|p: int| i <= p < e - 1 implies s[p] != '\n' by {
            assert(s[p] == x[p]);
        }
        assert(s[e - 1] == x[e - 1]);
        lemma_piece_end_at(s, i, e - 1);
        assert(s.subrange(i, e) =~= x.subrange(i, e));
        lemma_kept_prefix(x, y, e);
    }
}

/// A run of `n` newlines at `i` is kept whole.
proof fn lemma_kept_newlines(s: Seq<char>, i: int, n: int)
    requires
        0 <= i,
        0 <= n,
        i + n <= s.len(),
        forall|p: int| i <= p < i + n ==> s[p] == '\n',
    ensures
        kept_from(s, i) == n + kept_from(s, i + n),
    decreases n,
{
    if n > 0 {
        lemma_piece_end_at(s, i, i);
        lemma_marker_facts();
        assert(s.subrange(i, i + 1) =~= seq!['\n']);
        assert(seq!['\n'].drop_last() =~= Seq::<char>::empty());
        assert(is_ws(seq!['\n'].last()));
        assert(trim_end(Seq::<char>::empty()) == Seq::<char>::empty());
        assert(trim_end(seq!['\n']) == Seq::<char>::empty());
        lemma_kept_newlines(s, i + 1, n - 1);
    }
}

/// What `trim_end` drops is white space.
proof fn lemma_trim_end_rest(s: Seq<char>)
    ensures
        all_ws(s.subrange(trim_end(s).len() as int, s.len() as int)),
    decreases s.len(),
{
    crate::text::lemma_trim_end_shape(s);
    if s.len() > 0 && is_ws(s.last()) {
        let d = s.drop_last();
        lemma_trim_end_rest(d);
        let l = trim_end(s).len() as int;
        assert forall|i: int| 0 <= i < s.len() - l implies is_ws(#[trigger] s.subrange(l, s.len() as int)[i]) by {
            if l + i < d.len() {
                assert(s.subrange(l, s.len() as int)[i] == d.subrange(l, d.len() as int)[i]);
            }
        }
    } else {
        assert(s.subrange(s.len() as int, s.len() as int) =~= Seq::<char>::empty());
    }
}

/// When no line of `b` is the marker, no line of `trim_end(b)` followed by
/// a newline is either.
proof fn lemma_kept_trimmed(b: Seq<char>, tail: Seq<char>, i: int)
    requires
        0 <= i <= trim_end(b).len(),
        trim_end(b).len() > 0,
        tail.len() > 0,
        tail[0] == '\n',
        kept_from(b, i) == b.len() - i,
    ensures
        kept_from(trim_end(b) + tail, i) == (trim_end(b).len() - i) + kept_from(
            trim_end(b) + tail,
            trim_end(b).len() as int,
        ),
    decreases trim_end(b).len() - i,
{
    let tb = trim_end(b);
    let l = tb.len() as int;
    let s = tb + tail;
    crate::text::lemma_trim_end_shape(b);
    if i < l {
        lemma_piece_end_facts(b, i);
        let e = piece_end(b, i);
        if e - 1 < l && b[e - 1] == '\n' {
            assert forall|p: int| i <= p < e - 1 implies s[p] != '\n' by {
                assert(s[p] == tb[p]);
                assert(tb[p] == b[p]);
            }
            assert(s[e - 1] == tb[e - 1]);
            assert(tb[e - 1] == b[e - 1]);
            lemma_piece_end_at(s, i, e - 1);
            assert(s.subrange(i, e) =~= b.subrange(i, e));
            lemma_kept_trimmed(b, tail, e);
        } else {
            assert(e >= l);
            assert forall|p: int| i <= p < l implies s[p] != '\n' by {
                assert(s[p] == tb[p]);
                assert(tb[p] == b[p]);
            }
            assert(s[l] == tail[0]);
            lemma_piece_end_at(s, i, l);
            let line = b.subrange(i, l);
            assert(s.subrange(i, l + 1) =~= line + seq!['\n']);
            lemma_trim_end_rest(b);
            let rest = b.subrange(l, e);
            assert(all_ws(rest)) by {
                assert forall|q: int| 0 <= q < rest.len() implies is_ws(#[trigger] rest[q]) by {
                    assert(rest[q] == b.subrange(l, b.len() as int)[q]);
                }
            }
            assert(b.subrange(i, e) =~= line + rest);
            assert(all_ws(seq!['\n']));
            lemma_trim_end_ws_tail(line, seq!['\n']);
            lemma_trim_end_ws_tail(line, rest);
            lemma_kept_newlines(s, l, 1);
        }
    }
}

/// No line of `s` is the preview marker once its trailing white space is
/// trimmed.
pub open spec fn free_of_marker_lines(s: Seq<char>) -> bool {
    kept_from(s, 0) == s.len()
}

/// The YAML part of a rendered document, between its delimiters.
pub open spec fn head_of(yaml: Seq<char>) -> Seq<char> {
    "---\n"@ + yaml + "\n---\n\n"@
}

/// Past a YAML block without the marker, what is kept of a document is the
/// whole head and what is kept of the rest.
proof fn lemma_head_kept(yaml: Seq<char>, y: Seq<char>)
    requires
        !crate::text::contains(yaml, PREVIEW_MARKER@),
    ensures
        kept_from(head_of(yaml) + y, 0) == head_of(yaml).len() + kept_from(y, 0),
{
    reveal_strlit("---\n");
    reveal_strlit("\n---\n\n");
    let h = head_of(yaml);
    lemma_no_marker(yaml);
    let empty = Seq::<char>::empty();
    lemma_ws_marker_free(empty);
    lemma_doc_marker_free(yaml, empty);
    assert(h + empty =~= h);
    lemma_kept_clean(h, 0, h.len() as int);
    assert(h.last() == '\n');
    lemma_kept_prefix(h, y, 0);
    lemma_kept_shift(h, y, 0);
}

/// The body as shown keeps every line when the body has no marker line.
proof fn lemma_shown_clean(body: Seq<char>)
    requires
        free_of_marker_lines(body),
    ensures
        free_of_marker_lines(shown_body(body)),
        free_of_marker_lines(strip_leading(body, '\n')),
{
    reveal_strlit("\n");
    let stripped = strip_leading(body, '\n');
    lemma_strip_leading_shape(body, '\n');
    let k = body.len() - stripped.len();
    lemma_kept_newlines(body, 0, k);
    let x = body.subrange(0, k);
    assert(body =~= x + stripped);
    lemma_kept_shift(x, stripped, 0);
    if stripped.len() == 0 {
        let b = shown_body(body);
        assert(b =~= seq!['\n']);
        lemma_kept_newlines(b, 0, 1);
    }
}

/// A blank text holds no marker.
proof fn lemma_ws_marker_free(b: Seq<char>)
    requires
        all_ws(b),
    ensures
        marker_free(b, 0, b.len() as int),
{
    lemma_marker_facts();
    let m = PREVIEW_MARKER@;
    assert forall|j: int| 0 <= j && j + m.len() <= b.len() implies !#[trigger] occurs_at(b, m, j) by {
        if occurs_at(b, m, j) {
            assert(b.subrange(j, j + m.len())[0] == b[j]);
        }
    }
}

/// The body as the rendered document shows it.
pub open spec fn shown_body(body: Seq<char>) -> Seq<char> {
    if strip_leading(body, '\n').len() == 0 {
        "\n"@
    } else {
        strip_leading(body, '\n')
    }
}

/// The rendered document before any preview.
pub open spec fn document(yaml: Seq<char>, body: Seq<char>) -> Seq<char> {
    "---\n"@ + yaml + "\n---\n\n"@ + shown_body(body)
}

/// What the round trip needs of its inputs: no `---` line and no marker in
/// the YAML, and no marker line in the body.
pub open spec fn round_trip_inputs(yaml: Seq<char>, body: Seq<char>) -> bool {
    &&& !crate::text::contains(yaml, "\n---"@)
    &&& !crate::text::contains(yaml, PREVIEW_MARKER@)
    &&& free_of_marker_lines(body)
}

proof fn lemma_round_trip_setup(yaml: Seq<char>, body: Seq<char>)
    ensures
        document(yaml, body).subrange(0, 4) == "---\n"@,
        document(yaml, body).len() >= 4,
{
    reveal_strlit("---\n");
    assert(document(yaml, body).subrange(0, 4) =~= "---\n"@);
}

/// The split of a rendered document without a preview.
proof fn lemma_round_trip_plain(yaml: Seq<char>, body: Seq<char>)
    requires
        round_trip_inputs(yaml, body),
    ensures
        split_view(rendered_view(yaml, body, None)) == Ok::<(Seq<char>, Seq<char>), FrontmatterError>(
            (yaml, trim_end(strip_leading(body, '\n'))),
        ),
{
    reveal_strlit("---\n");
    reveal_strlit("\n---\n\n");
    reveal_strlit("\n---\n");
    reveal_strlit("\n");
    lemma_round_trip_setup(yaml, body);
    let stripped = strip_leading(body, '\n');
    lemma_strip_leading_shape(body, '\n');
    let b = shown_body(body);
    let doc = document(yaml, body);
    let y = yaml.len() as int;
    assert(rendered_view(yaml, body, None) == doc);
    lemma_shown_clean(body);
    lemma_head_kept(yaml, b);
    let t = without_preview(doc);
    assert(t =~= doc);
    let rest = t.subrange(4, t.len() as int);
    let tail = "\n---\n\n"@ + b;
    assert(rest =~= yaml + tail);
    assert(tail.subrange(0, 5) =~= "\n---\n"@);
    lemma_delimiter_found(yaml, tail);
    assert(rest.subrange(0, y) =~= yaml);
    assert(rest.subrange(y + 5, rest.len() as int) =~= seq!['\n'] + b);
    assert(t.subrange(0, 4) =~= "---\n"@);
    assert(starts_with(t, "---\n"@));
    assert(split_once(rest, "\n---\n"@) == Some((yaml, seq!['\n'] + b)));
    if stripped.len() == 0 {
        assert(b =~= seq!['\n']);
        let two = seq!['\n'] + seq!['\n'];
        assert(two[0] == '\n');
        assert(two.drop_first() =~= seq!['\n']);
        assert(seq!['\n'][0] == '\n');
        assert(seq!['\n'].drop_first() =~= Seq::<char>::empty());
        assert(strip_leading(Seq::<char>::empty(), '\n') == Seq::<char>::empty());
        assert(strip_leading(seq!['\n'], '\n') == Seq::<char>::empty());
        assert(strip_leading(two, '\n') == Seq::<char>::empty());
        assert(trim_end(Seq::<char>::empty()) == Seq::<char>::empty());
        assert(stripped =~= Seq::<char>::empty());
        assert(seq!['\n'] + b =~= two);
    } else {
        assert(b == stripped);
        lemma_strip_one_newline(b);
    }
}

/// A window that extends a marker-free prefix by fewer newlines than the
/// marker is long stays marker-free.
proof fn lemma_marker_free_extend(r: Seq<char>, d: Seq<char>, a: int)
    requires
        d.len() <= a <= r.len(),
        a - d.len() < PREVIEW_MARKER@.len(),
        r.subrange(0, d.len() as int) == d,
        marker_free(d, 0, d.len() as int),
        forall|p: int| d.len() <= p < a ==> r[p] == '\n',
    ensures
        marker_free(r, 0, a),
{
    let m = PREVIEW_MARKER@;
    assert forall|j: int| 0 <= j && j + m.len() <= a implies !#[trigger] occurs_at(r, m, j) by {
        if occurs_at(r, m, j) {
            if j + m.len() <= d.len() {
                lemma_occurs_in_window(r, 0, d.len() as int, j);
            } else {
                lemma_marker_no_newline(r, j, d.len() as int);
            }
        }
    }
}

/// What remains of a blank body after the closing delimiter is nothing.
proof fn lemma_blank_tail(body: Seq<char>, nls: Seq<char>)
    requires
        trim(body).len() == 0,
        all_ws(nls),
    ensures
        trim_end(strip_leading(seq!['\n'] + shown_body(body) + nls, '\n')) == Seq::<char>::empty(),
        trim_end(strip_leading(body, '\n')) == Seq::<char>::empty(),
{
    let stripped = strip_leading(body, '\n');
    lemma_strip_leading_shape(body, '\n');
    let k = body.len() - stripped.len();
    let b = shown_body(body);
    lemma_blank_iff_all_ws(body);
    lemma_suffix_all_ws(body, k);
    assert(body.subrange(k, body.len() as int) == stripped);
    let x = seq!['\n'] + b + nls;
    reveal_strlit("\n");
    assert(all_ws(x)) by {
        assert forall|i: int| 0 <= i < x.len() implies is_ws(#[trigger] x[i]) by {
            if i == 0 {
            } else if i < 1 + b.len() {
                assert(x[i] == b[i - 1]);
                if stripped.len() > 0 {
                    assert(stripped[i - 1] == body.subrange(k, body.len() as int)[i - 1]);
                }
            } else {
                assert(x[i] == nls[i - 1 - b.len()]);
            }
        }
    }
    lemma_strip_leading_shape(x, '\n');
    lemma_suffix_all_ws(x, x.len() - strip_leading(x, '\n').len());
    lemma_trim_end_all_ws(strip_leading(x, '\n'));
    lemma_trim_end_all_ws(stripped);
}

/// The split of a rendered document with a preview under a blank body.
#[verifier::spinoff_prover]
#[verifier::rlimit(40)]
proof fn lemma_round_trip_blank(yaml: Seq<char>, body: Seq<char>, diff: Seq<char>)
    requires
        round_trip_inputs(yaml, body),
        trim(body).len() == 0,
    ensures
        split_view(rendered_view(yaml, body, Some(diff))) == Ok::<(Seq<char>, Seq<char>), FrontmatterError>(
            (yaml, trim_end(strip_leading(body, '\n'))),
        ),
{
    reveal_strlit("---\n");
    reveal_strlit("\n---\n\n");
    reveal_strlit("\n---\n");
    reveal_strlit("\n");
    reveal_strlit("\n\n\n\n");
    reveal_strlit("\n\n```diff\n");
    lemma_marker_facts();
    lemma_round_trip_setup(yaml, body);
    let m = PREVIEW_MARKER@;
    let stripped = strip_leading(body, '\n');
    lemma_strip_leading_shape(body, '\n');
    let k = body.len() - stripped.len();
    let b = shown_body(body);
    let doc = document(yaml, body);
    let y = yaml.len() as int;
    assert(marker_free(doc, 0, doc.len() as int)) by {
        lemma_blank_iff_all_ws(body);
        lemma_suffix_all_ws(body, k);
        assert(body.subrange(k, body.len() as int) == stripped);
        assert(all_ws(b)) by {
            if stripped.len() == 0 {
                assert(b =~= seq!['\n']);
                assert(is_ws(b[0]));
            }
        }
        lemma_ws_marker_free(b);
        lemma_no_marker(yaml);
        lemma_doc_marker_free(yaml, b);
    }
    let nls = "\n\n\n\n"@;
    let a: int = doc.len() as int + 4;
    let after = "\n\n```diff\n"@ + diff + "\n```\n"@;
    let r = rendered_view(yaml, body, Some(diff));
    assert(r == doc + nls + m + after);
    assert(r.subrange(0, doc.len() as int) =~= doc);
    assert forall|p: int| doc.len() <= p < a implies r[p] == '\n' by {
        assert(r[p] == nls[p - doc.len()]);
    }
    lemma_marker_free_extend(r, doc, a);
    lemma_kept_clean(r, 0, a);
    assert(r.subrange(a, a + m.len() as int) =~= m);
    assert(r[a + m.len() as int] == after[0]);
    lemma_kept_at_marker(r, a);
    let t = without_preview(r);
    assert(t =~= doc + nls);
    let rest = t.subrange(4, t.len() as int);
    let tail = "\n---\n\n"@ + b + nls;
    assert(rest =~= yaml + tail);
    assert(tail.subrange(0, 5) =~= "\n---\n"@);
    lemma_delimiter_found(yaml, tail);
    assert(rest.subrange(0, y) =~= yaml);
    assert(rest.subrange(y + 5, rest.len() as int) =~= seq!['\n'] + b + nls);
    assert(t.subrange(0, 4) =~= "---\n"@);
    assert(starts_with(t, "---\n"@));
    assert(split_once(rest, "\n---\n"@) == Some((yaml, seq!['\n'] + b + nls)));
    assert(all_ws(nls));
    lemma_blank_tail(body, nls);
}

/// The split of a rendered document with a preview under a body that has
/// text.
#[verifier::spinoff_prover]
#[verifier::rlimit(40)]
proof fn lemma_round_trip_text(yaml: Seq<char>, body: Seq<char>, diff: Seq<char>)
    requires
        round_trip_inputs(yaml, body),
        trim(body).len() > 0,
    ensures
        split_view(rendered_view(yaml, body, Some(diff))) == Ok::<(Seq<char>, Seq<char>), FrontmatterError>(
            (yaml, trim_end(strip_leading(body, '\n'))),
        ),
{
    reveal_strlit("---\n");
    reveal_strlit("\n---\n\n");
    reveal_strlit("\n---\n");
    reveal_strlit("\n");
    reveal_strlit("\n\n\n\n\n");
    reveal_strlit("\n\n```diff\n");
    lemma_marker_facts();
    lemma_round_trip_setup(yaml, body);
    let m = PREVIEW_MARKER@;
    let stripped = strip_leading(body, '\n');
    lemma_strip_leading_shape(body, '\n');
    let k = body.len() - stripped.len();
    let b = shown_body(body);
    let doc = document(yaml, body);
    let y = yaml.len() as int;
    lemma_blank_iff_all_ws(body);
    let w = choose|i: int| 0 <= i < body.len() && !is_ws(#[trigger] body[i]);
    assert(w >= k) by {
        if w < k {
            assert(body[w] == '\n');
        }
    }
    assert(stripped.len() > 0);
    assert(b == stripped);
    assert(body.subrange(k, body.len() as int) == stripped);
    assert(stripped[w - k] == body[w]);
    assert(!all_ws(b));
    lemma_trim_end_not_all_ws(b);
    let head = "---\n"@ + yaml + "\n---\n\n"@;
    assert(doc =~= head + b);
    lemma_trim_end_concat(head, b);
    let tb = trim_end(b);
    let te = trim_end(doc);
    assert(te == head + tb);
    crate::text::lemma_trim_end_shape(doc);
    crate::text::lemma_trim_end_shape(b);
    assert(tb[0] == b[0]);
    let nls = "\n\n\n\n\n"@;
    let a: int = te.len() as int + 5;
    let after = "\n\n```diff\n"@ + diff + "\n```\n"@;
    let r = rendered_view(yaml, body, Some(diff));
    assert(r == te + nls + m + after);
    assert(r.subrange(0, te.len() as int) =~= te);
    assert forall|p: int| te.len() <= p < a implies r[p] == '\n' by {
        assert(r[p] == nls[p - te.len()]);
    }
    let after_body = nls + m + after;
    let z = tb + after_body;
    assert(r =~= head_of(yaml) + z);
    lemma_shown_clean(body);
    assert(after_body[0] == '\n');
    lemma_kept_trimmed(b, after_body, 0);
    lemma_kept_shift(tb, after_body, 0);
    assert forall|p: int| 0 <= p < 5 implies after_body[p] == '\n' by {
        assert(after_body[p] == nls[p]);
    }
    lemma_kept_newlines(after_body, 0, 5);
    assert(after_body.subrange(5, 5 + m.len() as int) =~= m);
    assert(after_body[5 + m.len() as int] == after[0]);
    lemma_kept_at_marker(after_body, 5);
    lemma_head_kept(yaml, z);
    let t = without_preview(r);
    assert(t =~= te + nls);
    assert(t.subrange(0, 4) =~= "---\n"@);
    let rest = t.subrange(4, t.len() as int);
    let tail = "\n---\n\n"@ + tb + nls;
    assert(rest =~= yaml + tail);
    assert(tail.subrange(0, 5) =~= "\n---\n"@);
    lemma_delimiter_found(yaml, tail);
    let x = seq!['\n'] + (tb + nls);
    assert(rest.subrange(0, y) =~= yaml);
    assert(rest.subrange(y + 5, rest.len() as int) =~= x);
    lemma_strip_one_newline(tb + nls);
    assert(all_ws(nls));
    lemma_trim_end_ws_tail(tb, nls);
    lemma_trim_end_idempotent(b);
}

/// Law of the editor buffer: a document rendered from a YAML block and a
/// body (with or without a diff preview) splits back into the same YAML
/// block and the body without its leading newlines and trailing white
/// space. This holds when the YAML block has no line starting with `---`
/// and does not hold the preview marker, and no line of the body is the
/// marker once its trailing white space is trimmed.
pub proof fn lemma_render_split_round_trip(yaml: Seq<char>, body: Seq<char>, preview: Option<Seq<char>>)
    requires
        !crate::text::contains(yaml, "\n---"@),
        !crate::text::contains(yaml, PREVIEW_MARKER@),
        free_of_marker_lines(body),
    ensures
        split_view(rendered_view(yaml, body, preview)) == Ok::<(Seq<char>, Seq<char>), FrontmatterError>(
            (yaml, trim_end(strip_leading(body, '\n'))),
        ),
{
    match preview {
        None => lemma_round_trip_plain(yaml, body),
        Some(diff) => {
            if trim(body).len() == 0 {
                lemma_round_trip_blank(yaml, body, diff);
            } else {
                lemma_round_trip_text(yaml, body, diff);
            }
        },
    }
}
} // verus!
