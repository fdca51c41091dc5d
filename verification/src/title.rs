//! PR title candidates: one per commit of the PR's revset, rendered by `jj`
//! with a title template and read back here.
//!
//! Each record is wrapped in Private-Use markers so any title text (even one
//! spanning lines) survives: `U+E010` change id `U+E011` title `U+E012`.

use crate::config::DefaultTitleSource;
use crate::text::{
    chars_of, concat, find_from, first_at, is_ws, owned, push_str, string_from_range, trim,
    trim_bounds,
};
use crate::restack_ui::{ensure_visible, move_index, moved_index, visible_offset, Key, KeyInput};
use vstd::prelude::*;
use vstd::string::StrSliceExecFns;

verus! {

/// Marker opening a title record.
pub const TITLE_RECORD_OPEN: char = '\u{E010}';

/// Marker between a record's change id and its title.
pub const TITLE_RECORD_SEPARATOR: char = '\u{E011}';

/// Marker closing a title record.
pub const TITLE_RECORD_CLOSE: char = '\u{E012}';

/// One commit's title candidate.
#[derive(Debug, Clone, PartialEq, Eq)]
pub struct TitleCandidate {
    pub change_id: String,
    pub title: String,
}

/// A usable title: non-empty once trimmed, and a single line.
pub open spec fn valid_title_view(title: Seq<char>) -> Option<Seq<char>> {
    let t = trim(title);
    if t.len() > 0 && !t.contains('\n') && !t.contains('\r') {
        Some(t)
    } else {
        None
    }
}

impl TitleCandidate {
    /// The trimmed title, when it is non-empty and a single line.
    pub fn valid_title(&self) -> (r: Option<&str>)
        ensures
            match r {
                Some(t) => valid_title_view(self.title@) == Some(t@),
                None => valid_title_view(self.title@) is None,
            },
    {
        let v = chars_of(self.title.as_str());
        let (lo, hi) = trim_bounds(&v);
        if lo == hi {
            return None;
        }
        if has_line_break(&v, lo, hi) {
            return None;
        }
        proof {
            let t = v@.subrange(lo as int, hi as int);
            assert(!t.contains('\n'));
            assert(!t.contains('\r'));
        }
        Some(self.title.as_str().substring_char(lo, hi))
    }
}

/// Whether `v[lo..hi]` holds a line break.
fn has_line_break(v: &Vec<char>, lo: usize, hi: usize) -> (r: bool)
    requires
        lo <= hi <= v@.len(),
    ensures
        r == (v@.subrange(lo as int, hi as int).contains('\n') || v@.subrange(lo as int, hi as int).contains(
            '\r',
        )),
{
    let ghost t = v@.subrange(lo as int, hi as int);
    let mut k: usize = lo;
    while k < hi
        invariant
            lo <= k <= hi <= v@.len(),
            t == v@.subrange(lo as int, hi as int),
            forall|j: int| lo <= j < k ==> v@[j] != '\n' && v@[j] != '\r',
        decreases hi - k,
    {
        if v[k] == '\n' || v[k] == '\r' {
            proof {
                if v@[k as int] == '\n' {
                    assert(t[k - lo] == '\n');
                } else {
                    assert(t[k - lo] == '\r');
                }
            }
            return true;
        }
        k = k + 1;
    }
    proof {
        assert forall|j: int| 0 <= j < t.len() implies t[j] != '\n' && t[j] != '\r' by {
            assert(t[j] == v@[lo + j]);
        }
    }
    false
}

/// Why a rendered title template yields no candidates.
#[derive(Debug, Clone, Copy, PartialEq, Eq, Structural)]
pub enum TitleError {
    MissingSeparator,
    MissingClose,
    NoCommits,
}

impl TitleError {
    /// The user-facing message.
    pub open spec fn message_view(self) -> Seq<char> {
        match self {
            TitleError::MissingSeparator => "malformed PR title candidate: missing separator"@,
            TitleError::MissingClose => "malformed PR title candidate: missing closing marker"@,
            TitleError::NoCommits => "no commits found in the PR revset"@,
        }
    }

    /// The user-facing message.
    pub fn message(self) -> (m: String)
        ensures
            m@ == self.message_view(),
    {
        match self {
            TitleError::MissingSeparator => owned("malformed PR title candidate: missing separator"),
            TitleError::MissingClose => owned("malformed PR title candidate: missing closing marker"),
            TitleError::NoCommits => owned("no commits found in the PR revset"),
        }
    }
}

/// The records of `s` from position `i` on, as `(change id, title)` pairs.
pub open spec fn records_from(s: Seq<char>, i: int) -> Result<Seq<(Seq<char>, Seq<char>)>, TitleError>
    decreases s.len() + 1 - i,
{
    if i < 0 || i > s.len() {
        Ok(seq![])
    } else {
        match first_at(s, seq![TITLE_RECORD_OPEN], i) {
            None => Ok(seq![]),
            Some(o) => match first_at(s, seq![TITLE_RECORD_SEPARATOR], o + 1) {
                None => Err(TitleError::MissingSeparator),
                Some(p) => match first_at(s, seq![TITLE_RECORD_CLOSE], p + 1) {
                    None => Err(TitleError::MissingClose),
                    Some(c) => {
                        proof {
                            crate::text::lemma_first_at_found(s, seq![TITLE_RECORD_OPEN], i, o);
                            crate::text::lemma_first_at_found(s, seq![TITLE_RECORD_SEPARATOR], o + 1, p);
                            crate::text::lemma_first_at_found(s, seq![TITLE_RECORD_CLOSE], p + 1, c);
                        }
                        match records_from(s, c + 1) {
                            Err(e) => Err(e),
                            Ok(rest) => Ok(seq![(s.subrange(o + 1, p), s.subrange(p + 1, c))] + rest),
                        }
                    },
                },
            },
        }
    }
}

/// The title candidates of a rendered template: an error for a malformed
/// record, or when there are none.
pub open spec fn candidates_view(s: Seq<char>) -> Result<Seq<(Seq<char>, Seq<char>)>, TitleError> {
    match records_from(s, 0) {
        Err(e) => Err(e),
        Ok(records) => if records.len() == 0 {
            Err(TitleError::NoCommits)
        } else {
            Ok(records)
        },
    }
}

/// The view of a candidate.
pub open spec fn candidate_view(c: TitleCandidate) -> (Seq<char>, Seq<char>) {
    (c.change_id@, c.title@)
}

/// Read the marker-delimited `(change id, title)` records `jj` rendered.
pub fn parse_title_candidates(rendered: &str) -> (r: Result<Vec<TitleCandidate>, TitleError>)
    ensures
        match r {
            Ok(cs) => candidates_view(rendered@) == Ok::<Seq<(Seq<char>, Seq<char>)>, TitleError>(
                cs@.map_values(|c: TitleCandidate| candidate_view(c)),
            ),
            Err(e) => candidates_view(rendered@) == Err::<Seq<(Seq<char>, Seq<char>)>, TitleError>(e),
        },
{
    let v = chars_of(rendered);
    let open_m = vec![TITLE_RECORD_OPEN];
    let sep_m = vec![TITLE_RECORD_SEPARATOR];
    let close_m = vec![TITLE_RECORD_CLOSE];
    assert(open_m@ =~= seq![TITLE_RECORD_OPEN]);
    assert(sep_m@ =~= seq![TITLE_RECORD_SEPARATOR]);
    assert(close_m@ =~= seq![TITLE_RECORD_CLOSE]);
    let n = v.len();
    let mut out: Vec<TitleCandidate> = Vec::new();
    let mut i: usize = 0;
    loop
        invariant
            n == v@.len(),
            v@ == rendered@,
            i <= n,
            open_m@ == seq![TITLE_RECORD_OPEN],
            sep_m@ == seq![TITLE_RECORD_SEPARATOR],
            close_m@ == seq![TITLE_RECORD_CLOSE],
            records_from(v@, 0) == match records_from(v@, i as int) {
                Err(e) => Err(e),
                Ok(rest) => Ok(out@.map_values(|c: TitleCandidate| candidate_view(c)) + rest),
            },
        decreases n - i,
    {
        let o = match find_from(&v, &open_m, i) {
            Some(o) => o,
            None => {
                proof {
                    assert(out@.map_values(|c: TitleCandidate| candidate_view(c)) + Seq::<
                        (Seq<char>, Seq<char>),
                    >::empty() =~= out@.map_values(|c: TitleCandidate| candidate_view(c)));
                }
                if out.len() == 0 {
                    return Err(TitleError::NoCommits);
                }
                return Ok(out);
            },
        };
        assert(o + 1 <= n);
        let p = match find_from(&v, &sep_m, o + 1) {
            Some(p) => p,
            None => {
                return Err(TitleError::MissingSeparator);
            },
        };
        assert(p + 1 <= n);
        let c = match find_from(&v, &close_m, p + 1) {
            Some(c) => c,
            None => {
                return Err(TitleError::MissingClose);
            },
        };
        assert(c + 1 <= n);
        let change_id = string_from_range(&v, o + 1, p);
        let title = string_from_range(&v, p + 1, c);
        let ghost before = out@.map_values(|c: TitleCandidate| candidate_view(c));
        let ghost rec = (change_id@, title@);
        out.push(TitleCandidate { change_id, title });
        proof {
            assert(out@.map_values(|c: TitleCandidate| candidate_view(c)) =~= before.push(rec));
            match records_from(v@, c + 1) {
                Err(e) => {},
                Ok(rest) => {
                    assert(before + (seq![rec] + rest) =~= before.push(rec) + rest);
                },
            }
        }
        i = c + 1;
    }
}

/// The candidate whose title becomes the default: the oldest commit's for
/// [`DefaultTitleSource::Base`], the newest commit's for
/// [`DefaultTitleSource::Head`].
pub fn default_candidate(source: DefaultTitleSource, candidates: &[TitleCandidate]) -> (r: Option<
    &TitleCandidate,
>)
    ensures
        candidates@.len() == 0 ==> r is None,
        candidates@.len() > 0 ==> r == Some(
            &candidates@[match source {
                DefaultTitleSource::Base => 0,
                DefaultTitleSource::Head => candidates@.len() - 1,
            }],
        ),
{
    if candidates.len() == 0 {
        return None;
    }
    match source {
        DefaultTitleSource::Base => Some(&candidates[0]),
        DefaultTitleSource::Head => Some(&candidates[candidates.len() - 1]),
    }
}

/// The separator drawn between columns.
pub const VERTICAL_SEPARATOR: &'static str = "\u{2502}";

/// `s` cut to at most `width` characters, ending in an ellipsis when cut.
pub open spec fn truncated(s: Seq<char>, width: int) -> Seq<char> {
    if s.len() <= width {
        s
    } else if width <= 0 {
        seq![]
    } else {
        s.subrange(0, width - 1).push('\u{2026}')
    }
}

/// `s` cut to at most `width` characters, ending in an ellipsis when cut.
pub fn truncate(s: &str, width: usize) -> (r: String)
    ensures
        r@ == truncated(s@, width as int),
{
    let v = chars_of(s);
    if v.len() <= width {
        return owned(s);
    }
    if width == 0 {
        return String::new();
    }
    let mut r = string_from_range(&v, 0, width - 1);
    r.push('\u{2026}');
    r
}

/// Foreground colors used on title rows.
#[derive(Debug, Clone, Copy, PartialEq, Eq, Structural)]
pub enum Paint {
    Cyan,
    DarkGrey,
    Red,
}

/// The 256-color palette index of a color.
pub open spec fn paint_code(color: Paint) -> Seq<char> {
    match color {
        Paint::Cyan => "14"@,
        Paint::DarkGrey => "8"@,
        Paint::Red => "9"@,
    }
}

/// `text` in `color`: with colors on, wrapped in the escapes that set the
/// foreground to the color's palette index and reset it afterwards, the
/// sequences a terminal library writes for a styled string; with colors off,
/// the bare text.
pub open spec fn painted(text: Seq<char>, color: Paint, colors: bool) -> Seq<char> {
    if colors {
        "\u{1b}[38;5;"@ + paint_code(color) + "m"@ + text + "\u{1b}[39m"@
    } else {
        text
    }
}

fn code_of(color: Paint) -> (r: &'static str)
    ensures
        r@ == paint_code(color),
{
    match color {
        Paint::Cyan => {
            proof {
                reveal_strlit("14");
            }
            "14"
        },
        Paint::DarkGrey => {
            proof {
                reveal_strlit("8");
            }
            "8"
        },
        Paint::Red => {
            proof {
                reveal_strlit("9");
            }
            "9"
        },
    }
}

/// `text` in `color`, or the bare text when colors are off.
pub fn paint(text: &str, color: Paint, colors: bool) -> (r: String)
    ensures
        r@ == painted(text@, color, colors),
{
    if !colors {
        return owned(text);
    }
    let mut r = owned("\u{1b}[38;5;");
    push_str(&mut r, code_of(color));
    push_str(&mut r, "m");
    push_str(&mut r, text);
    push_str(&mut r, "\u{1b}[39m");
    r
}

/// The picker row for a candidate: change id, separator, then the title cut
/// to the columns left, or a red placeholder explaining why the title cannot
/// be used.
pub open spec fn candidate_row(c: TitleCandidate, cols: int, colors: bool) -> Seq<char> {
    let head = painted(c.change_id@, Paint::Cyan, colors) + painted(
        " "@ + VERTICAL_SEPARATOR@ + " "@,
        Paint::DarkGrey,
        colors,
    );
    let used = c.change_id@.len() + 3;
    let available = if cols > used {
        cols - used
    } else {
        0
    };
    match valid_title_view(c.title@) {
        Some(t) => head + truncated(t, available),
        None => head + painted(
            (if trim(c.title@).len() == 0 {
                "(no description set)"@
            } else {
                "(title must be one line)"@
            }) + " [invalid]"@,
            Paint::Red,
            colors,
        ),
    }
}

/// Render one row of the title picker, `cols` columns wide, colored when
/// `colors` is on.
pub fn render_candidate(candidate: &TitleCandidate, cols: usize, colors: bool) -> (r: String)
    ensures
        r@ == candidate_row(*candidate, cols as int, colors),
{
    let id_len = candidate.change_id.as_str().unicode_len();
    let used: u128 = id_len as u128 + 3;
    let available: usize = if (cols as u128) > used {
        (cols as u128 - used) as usize
    } else {
        0
    };
    let mut row = paint(candidate.change_id.as_str(), Paint::Cyan, colors);
    let mut sep = owned(" ");
    push_str(&mut sep, VERTICAL_SEPARATOR);
    push_str(&mut sep, " ");
    let sep_painted = paint(sep.as_str(), Paint::DarkGrey, colors);
    push_str(&mut row, sep_painted.as_str());
    match candidate.valid_title() {
        Some(title) => {
            let t = truncate(title, available);
            push_str(&mut row, t.as_str());
        },
        None => {
            let mut text = if crate::text::is_blank(candidate.title.as_str()) {
                owned("(no description set)")
            } else {
                owned("(title must be one line)")
            };
            push_str(&mut text, " [invalid]");
            let red = paint(text.as_str(), Paint::Red, colors);
            push_str(&mut row, red.as_str());
        },
    }
    row
}


/// Cursor and scroll position of the title picker list.
#[derive(Debug, Clone, Copy, Default, PartialEq, Eq)]
pub struct ListState {
    pub selected: usize,
    pub scroll_offset: usize,
}

/// What the title picker does after a key.
#[derive(Debug, Clone, PartialEq, Eq)]
pub enum PickOutcome {
    Continue,
    Select(String),
    Abort,
}

/// The position `G` moves to: the last candidate, or 0 for none.
pub open spec fn last_index(len: int) -> int {
    if len == 0 {
        0
    } else {
        len - 1
    }
}

/// The list after moving the selection to `to` and scrolling it into view.
pub open spec fn moved_list(state: ListState, to: int, visible: int) -> ListState {
    ListState {
        selected: to as usize,
        scroll_offset: visible_offset(to, state.scroll_offset as int, visible) as usize,
    }
}

/// Handle one key in the title picker: `j`/Down and `k`/Up move the
/// selection (stopping at the ends), `g`/`G` jump to the first/last
/// candidate, Enter picks the selected candidate's title when it is a valid
/// one, Esc, `q` and Ctrl-C abort; the list scrolls to keep the selection
/// in its `visible` rows.
pub fn handle_title_key(
    state: &mut ListState,
    candidates: &[TitleCandidate],
    visible: usize,
    key: KeyInput,
) -> (o: PickOutcome)
    ensures
        ({
            let len = candidates@.len() as int;
            let s0 = *old(state);
            let s1 = *final(state);
            if key.ctrl && key.key == Key::Char('c') {
                o == PickOutcome::Abort && s1 == s0
            } else {
                match key.key {
                    Key::Char('j') | Key::Down => o == PickOutcome::Continue && s1 == moved_list(
                        s0,
                        moved_index(s0.selected as int, 1, len),
                        visible as int,
                    ),
                    Key::Char('k') | Key::Up => o == PickOutcome::Continue && s1 == moved_list(
                        s0,
                        moved_index(s0.selected as int, -1, len),
                        visible as int,
                    ),
                    Key::Char('g') => o == PickOutcome::Continue && s1 == moved_list(s0, 0, visible as int),
                    Key::Char('G') => o == PickOutcome::Continue && s1 == moved_list(
                        s0,
                        last_index(len),
                        visible as int,
                    ),
                    Key::Enter => s1 == s0 && if s0.selected < len && valid_title_view(
                        candidates@[s0.selected as int].title@,
                    ) is Some {
                        o matches PickOutcome::Select(t) && Some(t@) == valid_title_view(
                            candidates@[s0.selected as int].title@,
                        )
                    } else {
                        o == PickOutcome::Continue
                    },
                    Key::Esc | Key::Char('q') => o == PickOutcome::Abort && s1 == s0,
                    _ => o == PickOutcome::Continue && s1 == s0,
                }
            }
        }),
{
    let len = candidates.len();
    if key.ctrl && key.key == Key::Char('c') {
        return PickOutcome::Abort;
    }
    match key.key {
        Key::Char('j') | Key::Down => {
            let to = move_index(state.selected, 1, len);
            state.selected = to;
            ensure_visible(to, &mut state.scroll_offset, visible);
            PickOutcome::Continue
        },
        Key::Char('k') | Key::Up => {
            let to = move_index(state.selected, -1, len);
            state.selected = to;
            ensure_visible(to, &mut state.scroll_offset, visible);
            PickOutcome::Continue
        },
        Key::Char('g') => {
            state.selected = 0;
            ensure_visible(0, &mut state.scroll_offset, visible);
            PickOutcome::Continue
        },
        Key::Char('G') => {
            let to = if len == 0 {
                0
            } else {
                len - 1
            };
            state.selected = to;
            ensure_visible(to, &mut state.scroll_offset, visible);
            PickOutcome::Continue
        },
        Key::Enter => {
            if state.selected < len {
                match candidates[state.selected].valid_title() {
                    Some(t) => PickOutcome::Select(owned(t)),
                    None => PickOutcome::Continue,
                }
            } else {
                PickOutcome::Continue
            }
        },
        Key::Esc | Key::Char('q') => PickOutcome::Abort,
        _ => PickOutcome::Continue,
    }
}


/// One record as `jj` renders it: markers around the change id and title.
pub open spec fn record_text(id: Seq<char>, title: Seq<char>) -> Seq<char> {
    seq![TITLE_RECORD_OPEN] + id + seq![TITLE_RECORD_SEPARATOR] + title + seq![TITLE_RECORD_CLOSE]
}

/// The records rendered one after another.
pub open spec fn records_text(recs: Seq<(Seq<char>, Seq<char>)>) -> Seq<char>
    decreases recs.len(),
{
    if recs.len() == 0 {
        seq![]
    } else {
        record_text(recs[0].0, recs[0].1) + records_text(recs.drop_first())
    }
}

/// No change id holds the separator and no title the closing marker.
pub open spec fn records_readable(recs: Seq<(Seq<char>, Seq<char>)>) -> bool {
    forall|k: int|
        0 <= k < recs.len() ==> !(#[trigger] recs[k]).0.contains(TITLE_RECORD_SEPARATOR)
            && !recs[k].1.contains(TITLE_RECORD_CLOSE)
}

proof fn lemma_first_marker(s: Seq<char>, c: char, from: int, at: int)
    requires
        0 <= from <= at < s.len(),
        s[at] == c,
        forall|j: int| from <= j < at ==> s[j] != c,
    ensures
        first_at(s, seq![c], from) == Some(at),
{
    assert forall|j: int| from <= j < at implies !crate::text::occurs_at(s, seq![c], j) by {
        if crate::text::occurs_at(s, seq![c], j) {
            assert(s.subrange(j, j + 1)[0] == s[j]);
        }
    }
    crate::text::lemma_first_at_skip(s, seq![c], from, at);
    assert(s.subrange(at, at + 1) =~= seq![c]);
}

proof fn lemma_records_at(s: Seq<char>, i: int, recs: Seq<(Seq<char>, Seq<char>)>)
    requires
        0 <= i <= s.len(),
        s.subrange(i, s.len() as int) == records_text(recs),
        records_readable(recs),
    ensures
        records_from(s, i) == Ok::<Seq<(Seq<char>, Seq<char>)>, TitleError>(recs),
    decreases recs.len(),
{
    if recs.len() == 0 {
        assert(i == s.len());
        assert(first_at(s, seq![TITLE_RECORD_OPEN], i) is None);
        assert(recs =~= Seq::<(Seq<char>, Seq<char>)>::empty());
    } else {
        let id = recs[0].0;
        let title = recs[0].1;
        let rest = recs.drop_first();
        let o = i;
        let p = i + 1 + id.len();
        let c = p + 1 + title.len();
        let tail = s.subrange(i, s.len() as int);
        assert(tail == record_text(id, title) + records_text(rest));
        assert(s[o] == tail[0]);
        assert(s[p] == tail[p - i]);
        assert(s[c] == tail[c - i]);
        assert(s.subrange(o + 1, p) =~= id) by {
            assert forall|j: int| 0 <= j < id.len() implies s.subrange(o + 1, p)[j] == id[j] by {
                assert(s[o + 1 + j] == tail[1 + j]);
            }
        }
        assert(s.subrange(p + 1, c) =~= title) by {
            assert forall|j: int| 0 <= j < title.len() implies s.subrange(p + 1, c)[j] == title[j] by {
                assert(s[p + 1 + j] == tail[p + 1 + j - i]);
            }
        }
        assert(recs[0] == (id, title));
        assert(!id.contains(TITLE_RECORD_SEPARATOR));
        assert(!title.contains(TITLE_RECORD_CLOSE));
        lemma_first_marker(s, TITLE_RECORD_OPEN, i, o);
        assert forall|j: int| o + 1 <= j < p implies s[j] != TITLE_RECORD_SEPARATOR by {
            assert(s[j] == id[j - o - 1]);
        }
        lemma_first_marker(s, TITLE_RECORD_SEPARATOR, o + 1, p);
        assert forall|j: int| p + 1 <= j < c implies s[j] != TITLE_RECORD_CLOSE by {
            assert(s[j] == title[j - p - 1]);
        }
        lemma_first_marker(s, TITLE_RECORD_CLOSE, p + 1, c);
        assert(s.subrange(c + 1, s.len() as int) =~= records_text(rest)) by {
            assert(tail.subrange(c + 1 - i, tail.len() as int) =~= records_text(rest));
        }
        assert forall|k: int| 0 <= k < rest.len() implies !(#[trigger] rest[k]).0.contains(
            TITLE_RECORD_SEPARATOR,
        ) && !rest[k].1.contains(TITLE_RECORD_CLOSE) by {
            assert(rest[k] == recs[k + 1]);
        }
        lemma_records_at(s, c + 1, rest);
        assert(seq![(id, title)] + rest =~= recs);
        assert(records_from(s, i) == Ok::<Seq<(Seq<char>, Seq<char>)>, TitleError>(
            seq![(s.subrange(o + 1, p), s.subrange(p + 1, c))] + rest,
        ));
    }
}

/// Law of the title records: any non-empty list of change ids and titles,
/// rendered as marked records, reads back as the same list, whatever the
/// titles hold (newlines included), provided no change id holds the
/// separator marker and no title the closing marker.
pub proof fn lemma_title_records_round_trip(recs: Seq<(Seq<char>, Seq<char>)>)
    requires
        recs.len() > 0,
        records_readable(recs),
    ensures
        candidates_view(records_text(recs)) == Ok::<Seq<(Seq<char>, Seq<char>)>, TitleError>(recs),
{
    let s = records_text(recs);
    assert(s.subrange(0, s.len() as int) =~= s);
    lemma_records_at(s, 0, recs);
}

} // verus!
