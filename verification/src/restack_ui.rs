//! The state machine behind the interactive `pr restack` screen.
//!
//! The screen shows the rendered `jj log` with the focused PR's row
//! highlighted, and a control bar. Keys move the cursor, record a decision
//! per PR, open a picker to choose another base, show a summary, or quit.
//! The binary draws the state and feeds key presses to [`handle_key`]; this
//! module decides what each key does. Nothing is sent to GitHub until the
//! user accepts the summary.

use crate::restack::{Decision, PrPlan, decision_of, final_base_view};
use crate::text::{
    chars_of, decimal, contains, find_in, lowercase, owned, push_chars, str_eq, string_from, string_from_range,
    to_lowercase,
};
use vstd::prelude::*;

verus! {

/// Which part of the screen has the keyboard.
#[derive(Debug, Clone, Copy, PartialEq, Eq, Structural)]
pub enum Mode {
    Browse,
    Picker,
    Summary,
    QuitConfirm,
}

/// What the event loop does after a key.
#[derive(Debug, Clone, Copy, PartialEq, Eq, Structural)]
pub enum LoopOutcome {
    Continue,
    Submit,
    Abort,
}

/// A key, as far as the screen cares.
#[derive(Debug, Clone, Copy, PartialEq, Eq, Structural)]
pub enum Key {
    Char(char),
    Up,
    Down,
    Enter,
    Esc,
    Backspace,
    Other,
}

/// A key press, with whether Control was held.
#[derive(Debug, Clone, Copy, PartialEq, Eq, Structural)]
pub struct KeyInput {
    pub key: Key,
    pub ctrl: bool,
}

/// The base picker opened with `e`.
#[derive(Debug, Clone)]
pub struct PickerState {
    pub target_pr: u64,
    pub input: String,
    pub selected: usize,
    pub candidates: Vec<String>,
}

/// Everything the screen shows and edits.
#[derive(Debug, Clone)]
pub struct UiState {
    pub plans: Vec<PrPlan>,
    /// Decisions by PR number; the last entry for a number wins.
    pub decisions: Vec<(u64, Decision)>,
    pub log_lines: Vec<String>,
    /// The log line of each PR's commit; the last entry for a number wins.
    pub pr_to_line: Vec<(u64, usize)>,
    /// PR numbers in the order the cursor visits them.
    pub pr_order: Vec<u64>,
    pub cursor_pr_idx: usize,
    pub scroll_offset: usize,
    pub mode: Mode,
    pub picker: Option<PickerState>,
    pub base_candidates: Vec<String>,
    pub summary_scroll: usize,
    pub viewport_height: usize,
}

/// `idx + delta`, clamped to the positions of a list of `len` items.
pub open spec fn moved_index(idx: int, delta: int, len: int) -> int {
    if len <= 0 {
        0
    } else if idx + delta < 0 {
        0
    } else if idx + delta >= len {
        len - 1
    } else {
        idx + delta
    }
}

/// Move `idx` by `delta` within a list of `len` items, stopping at the ends.
pub fn move_index(idx: usize, delta: isize, len: usize) -> (r: usize)
    ensures
        r == moved_index(idx as int, delta as int, len as int),
{
    if len == 0 {
        return 0;
    }
    let target: i128 = idx as i128 + delta as i128;
    if target < 0 {
        0
    } else if target >= len as i128 {
        len - 1
    } else {
        target as usize
    }
}

/// The scroll offset that shows `line` in a viewport of `height` rows,
/// moving as little as possible from `offset`.
pub open spec fn visible_offset(line: int, offset: int, height: int) -> int {
    if line < offset {
        line
    } else if line < offset + height {
        offset
    } else if height == 0 {
        line
    } else {
        line + 1 - height
    }
}

/// Scroll `offset` just enough for `line` to be visible.
pub fn ensure_visible(line: usize, offset: &mut usize, height: usize)
    ensures
        *final(offset) == visible_offset(line as int, *old(offset) as int, height as int),
{
    if line < *offset {
        *offset = line;
    } else if line - *offset < height {
    } else if height == 0 {
        *offset = line;
    } else {
        *offset = line - (height - 1);
    }
}

/// The line of PR `n`'s commit; the last entry wins.
pub open spec fn line_of(pr_to_line: Seq<(u64, usize)>, n: u64) -> Option<usize>
    decreases pr_to_line.len(),
{
    if pr_to_line.len() == 0 {
        None
    } else if pr_to_line.last().0 == n {
        Some(pr_to_line.last().1)
    } else {
        line_of(pr_to_line.drop_last(), n)
    }
}

fn find_line(pr_to_line: &Vec<(u64, usize)>, n: u64) -> (r: Option<usize>)
    ensures
        r == line_of(pr_to_line@, n),
{
    let mut k: usize = pr_to_line.len();
    assert(pr_to_line@.subrange(0, pr_to_line@.len() as int) =~= pr_to_line@);
    while k > 0
        invariant
            k <= pr_to_line@.len(),
            line_of(pr_to_line@, n) == line_of(pr_to_line@.subrange(0, k as int), n),
        decreases k,
    {
        let ghost pre = pr_to_line@.subrange(0, k as int);
        assert(pre.drop_last() =~= pr_to_line@.subrange(0, k - 1));
        if pr_to_line[k - 1].0 == n {
            return Some(pr_to_line[k - 1].1);
        }
        k = k - 1;
    }
    None
}

/// The cursor position after moving it to `idx`, clamped to the PR list.
pub open spec fn clamped_cursor(idx: int, len: int) -> int {
    if len == 0 {
        0
    } else if idx < len - 1 {
        idx
    } else {
        len - 1
    }
}

/// The scroll offset after moving the cursor to position `cursor`: the
/// PR's log line is made visible when the PR has one.
pub open spec fn scroll_after_cursor(s: UiState, cursor: int) -> usize {
    if 0 <= cursor < s.pr_order@.len() {
        match line_of(s.pr_to_line@, s.pr_order@[cursor]) {
            Some(line) => visible_offset(line as int, s.scroll_offset as int, s.viewport_height as int)
                as usize,
            None => s.scroll_offset,
        }
    } else {
        s.scroll_offset
    }
}

/// `new` is `old` with only the cursor and scroll offset changed.
pub open spec fn only_cursor_moved(new: UiState, old: UiState) -> bool {
    &&& new.plans == old.plans
    &&& new.decisions == old.decisions
    &&& new.log_lines == old.log_lines
    &&& new.pr_to_line == old.pr_to_line
    &&& new.pr_order == old.pr_order
    &&& new.mode == old.mode
    &&& new.picker == old.picker
    &&& new.base_candidates == old.base_candidates
    &&& new.summary_scroll == old.summary_scroll
    &&& new.viewport_height == old.viewport_height
}

/// Put the cursor on position `idx` (clamped) and scroll its row into view.
pub fn move_cursor_to(state: &mut UiState, idx: usize)
    ensures
        final(state).cursor_pr_idx == clamped_cursor(idx as int, old(state).pr_order@.len() as int),
        final(state).scroll_offset == scroll_after_cursor(*old(state), final(state).cursor_pr_idx as int),
        only_cursor_moved(*final(state), *old(state)),
{
    let len = state.pr_order.len();
    let cursor = if len == 0 {
        0
    } else if idx < len - 1 {
        idx
    } else {
        len - 1
    };
    state.cursor_pr_idx = cursor;
    if cursor < len {
        let pr = state.pr_order[cursor];
        match find_line(&state.pr_to_line, pr) {
            Some(line) => {
                let height = state.viewport_height;
                ensure_visible(line, &mut state.scroll_offset, height);
            },
            None => {},
        }
    }
}

/// Move the cursor by `delta` positions.
pub fn move_cursor(state: &mut UiState, delta: isize)
    ensures
        final(state).cursor_pr_idx == clamped_cursor(
            moved_index(old(state).cursor_pr_idx as int, delta as int, old(state).pr_order@.len() as int),
            old(state).pr_order@.len() as int,
        ),
        final(state).scroll_offset == scroll_after_cursor(*old(state), final(state).cursor_pr_idx as int),
        only_cursor_moved(*final(state), *old(state)),
{
    let next = move_index(state.cursor_pr_idx, delta, state.pr_order.len());
    move_cursor_to(state, next);
}

/// The scroll offset after scrolling by `delta` rows: clamped to the lines
/// below the first and above the last full viewport.
pub open spec fn scrolled(offset: int, delta: int, lines: int, height: int) -> int {
    let max_offset = if lines > height {
        lines - height
    } else {
        0
    };
    let start = if offset <= i64::MAX {
        offset
    } else {
        0
    };
    let next = start + delta;
    if next < 0 {
        0
    } else if next > max_offset {
        max_offset
    } else {
        next
    }
}

/// Scroll the log by `delta` rows, independent of the cursor.
pub fn scroll_viewport(state: &mut UiState, delta: isize)
    ensures
        final(state).scroll_offset == scrolled(
            old(state).scroll_offset as int,
            delta as int,
            old(state).log_lines@.len() as int,
            old(state).viewport_height as int,
        ),
        final(state).cursor_pr_idx == old(state).cursor_pr_idx,
        only_cursor_moved(*final(state), *old(state)),
{
    let height = state.viewport_height;
    let lines = state.log_lines.len();
    let max_offset = if lines > height {
        lines - height
    } else {
        0
    };
    let start: i128 = if state.scroll_offset as i128 <= i64::MAX as i128 {
        state.scroll_offset as i128
    } else {
        0
    };
    let next: i128 = start + delta as i128;
    let clamped: usize = if next < 0 {
        0
    } else if next > max_offset as i128 {
        max_offset
    } else {
        next as usize
    };
    state.scroll_offset = clamped;
}

/// Record decision `d` for PR `n`.
pub fn set_decision(decisions: &mut Vec<(u64, Decision)>, n: u64, d: Decision)
    ensures
        forall|m: u64| #[trigger]
            decision_of(final(decisions)@, m) == if m == n {
                d
            } else {
                decision_of(old(decisions)@, m)
            },
{
    let ghost before = decisions@;
    decisions.push((n, d));
    proof {
        assert(decisions@.drop_last() =~= before);
    }
}

/// Record `decision` for the PR under the cursor and move to the next PR.
pub fn set_decision_at_cursor(state: &mut UiState, decision: Decision)
    ensures
        old(state).cursor_pr_idx < old(state).pr_order@.len() ==> {
            let pr = old(state).pr_order@[old(state).cursor_pr_idx as int];
            &&& forall|m: u64| #[trigger]
                decision_of(final(state).decisions@, m) == if m == pr {
                    decision
                } else {
                    decision_of(old(state).decisions@, m)
                }
            &&& if old(state).cursor_pr_idx + 1 < old(state).pr_order@.len() {
                &&& final(state).cursor_pr_idx == old(state).cursor_pr_idx + 1
                &&& final(state).scroll_offset == scroll_after_cursor(
                    *old(state),
                    old(state).cursor_pr_idx + 1,
                )
            } else {
                &&& final(state).cursor_pr_idx == old(state).cursor_pr_idx
                &&& final(state).scroll_offset == old(state).scroll_offset
            }
        },
        old(state).cursor_pr_idx >= old(state).pr_order@.len() ==> *final(state) == *old(state),
        final(state).mode == old(state).mode,
        final(state).picker == old(state).picker,
        final(state).pr_order == old(state).pr_order,
        final(state).plans == old(state).plans,
        final(state).summary_scroll == old(state).summary_scroll,
{
    if state.cursor_pr_idx < state.pr_order.len() {
        let pr = state.pr_order[state.cursor_pr_idx];
        set_decision(&mut state.decisions, pr, decision);
        if state.cursor_pr_idx + 1 < state.pr_order.len() {
            let next = state.cursor_pr_idx + 1;
            move_cursor_to(state, next);
        }
    }
}

/// Whether the lowercase form of `candidate` contains `needle`.
pub open spec fn picker_keeps(needle: Seq<char>, candidate: Seq<char>) -> bool {
    needle.len() == 0 || contains(lowercase(candidate), needle)
}

/// The candidates among the first `k` of `all` that the picker shows for the
/// lowercase `needle`, in order.
pub open spec fn filtered(all: Seq<String>, needle: Seq<char>, k: int) -> Seq<Seq<char>>
    decreases k,
{
    if k <= 0 {
        seq![]
    } else if picker_keeps(needle, all[k - 1]@) {
        filtered(all, needle, k - 1).push(all[k - 1]@)
    } else {
        filtered(all, needle, k - 1)
    }
}

/// The views of a list of strings.
pub open spec fn views(v: Seq<String>) -> Seq<Seq<char>> {
    v.map_values(|s: String| s@)
}

/// Refilter the picker: keep the candidates whose lowercase form contains
/// the lowercase input (all of them for empty input), and reset the
/// selection when it falls off the end.
pub fn refresh_picker_candidates(picker: &mut PickerState, all: &[String])
    ensures
        views(final(picker).candidates@) == filtered(all@, lowercase(old(picker).input@), all@.len() as int),
        final(picker).selected == if old(picker).selected >= final(picker).candidates@.len() {
            0
        } else {
            old(picker).selected
        },
        final(picker).input == old(picker).input,
        final(picker).target_pr == old(picker).target_pr,
{
    let needle_s = to_lowercase(picker.input.as_str());
    let needle = chars_of(needle_s.as_str());
    let mut out: Vec<String> = Vec::new();
    let mut i: usize = 0;
    while i < all.len()
        invariant
            i <= all@.len(),
            needle@ == lowercase(picker.input@),
            views(out@) == filtered(all@, needle@, i as int),
        decreases all@.len() - i,
    {
        let keep = if needle.len() == 0 {
            true
        } else {
            let lower = to_lowercase(all[i].as_str());
            let lv = chars_of(lower.as_str());
            find_in(&lv, &needle).is_some()
        };
        if keep {
            let ghost before = out@;
            out.push(all[i].clone());
            proof {
                assert(views(out@) =~= views(before).push(all@[i as int]@));
            }
        }
        i = i + 1;
    }
    picker.candidates = out;
    if picker.selected >= picker.candidates.len() {
        picker.selected = 0;
    }
}

/// `candidate` without the ` (#1234)` suffix the candidate list adds.
pub open spec fn bookmark_of(candidate: Seq<char>) -> Seq<char> {
    match crate::text::split_once(candidate, " ("@) {
        Some((name, _)) => name,
        None => candidate,
    }
}

/// The bookmark a picker candidate names: everything before the first ` (`.
pub fn extract_bookmark(candidate: &str) -> (r: String)
    ensures
        r@ == bookmark_of(candidate@),
{
    let v = chars_of(candidate);
    let pat = chars_of(" (");
    match find_in(&v, &pat) {
        Some(i) => string_from_range(&v, 0, i),
        None => owned(candidate),
    }
}

fn copy_strings(v: &Vec<String>) -> (r: Vec<String>)
    ensures
        r@ == v@,
{
    let mut out: Vec<String> = Vec::new();
    let mut i: usize = 0;
    while i < v.len()
        invariant
            i <= v@.len(),
            out@ == v@.subrange(0, i as int),
        decreases v@.len() - i,
    {
        out.push(v[i].clone());
        i = i + 1;
        assert(out@ =~= v@.subrange(0, i as int));
    }
    assert(out@ =~= v@);
    out
}

/// Open the base picker for the PR under the cursor, when there is one and
/// there are candidates to pick from.
pub fn open_picker(state: &mut UiState)
    ensures
        if old(state).cursor_pr_idx < old(state).pr_order@.len() && old(state).base_candidates@.len()
            > 0 {
            &&& final(state).mode == Mode::Picker
            &&& final(state).picker matches Some(p) && {
                &&& p.target_pr == old(state).pr_order@[old(state).cursor_pr_idx as int]
                &&& p.input@.len() == 0
                &&& p.selected == 0
                &&& views(p.candidates@) == filtered(
                    old(state).base_candidates@,
                    lowercase(p.input@),
                    old(state).base_candidates@.len() as int,
                )
            }
            &&& final(state).decisions == old(state).decisions
            &&& final(state).cursor_pr_idx == old(state).cursor_pr_idx
        } else {
            *final(state) == *old(state)
        },
{
    if state.cursor_pr_idx >= state.pr_order.len() {
        return;
    }
    let pr = state.pr_order[state.cursor_pr_idx];
    if state.base_candidates.len() == 0 {
        return;
    }
    let mut picker = PickerState {
        target_pr: pr,
        input: String::new(),
        selected: 0,
        candidates: copy_strings(&state.base_candidates),
    };
    refresh_picker_candidates(&mut picker, state.base_candidates.as_slice());
    state.picker = Some(picker);
    state.mode = Mode::Picker;
}

/// Whether some PR has a decision other than `Unset`.
pub open spec fn any_decided(decisions: Seq<(u64, Decision)>) -> bool {
    exists|i: int|
        0 <= i < decisions.len() && !(decision_of(decisions, #[trigger] decisions[i].0) is Unset)
}

/// Whether some PR has a decision other than `Unset`.
pub fn any_decision_set(decisions: &Vec<(u64, Decision)>) -> (r: bool)
    ensures
        r == any_decided(decisions@),
{
    let mut i: usize = 0;
    while i < decisions.len()
        invariant
            i <= decisions@.len(),
            forall|j: int| 0 <= j < i ==> decision_of(decisions@, #[trigger] decisions@[j].0) is Unset,
        decreases decisions@.len() - i,
    {
        let d = crate::restack::decision_for(decisions.as_slice(), decisions[i].0);
        match d {
            Decision::Unset => {},
            _ => {
                return true;
            },
        }
        i = i + 1;
    }
    false
}

/// Drop the last character of `s`, if any.
pub fn pop_char(s: &mut String)
    ensures
        final(s)@ == if old(s)@.len() == 0 {
            old(s)@
        } else {
            old(s)@.drop_last()
        },
{
    let v = chars_of(s.as_str());
    if v.len() > 0 {
        let shorter = string_from_range(&v, 0, v.len() - 1);
        *s = shorter;
    }
}

/// Append `c` to `s`.
pub fn push_char(s: &mut String, c: char)
    ensures
        final(s)@ == old(s)@.push(c),
{
    s.push(c);
}

/// Handle a key in the summary screen.
pub fn handle_summary(state: &mut UiState, key: KeyInput) -> (r: LoopOutcome)
    ensures
        r == if key.key == Key::Char('y') && !key.ctrl {
            LoopOutcome::Submit
        } else {
            LoopOutcome::Continue
        },
        final(state).mode == if !(key.key == Key::Char('y') && !key.ctrl) && (key.key == Key::Esc || (
        key.key == Key::Char('q') && !key.ctrl)) {
            Mode::Browse
        } else {
            old(state).mode
        },
        final(state).summary_scroll == if key.key == Key::Esc || key.ctrl {
            old(state).summary_scroll
        } else if key.key == Key::Char('j') || key.key == Key::Down {
            if old(state).summary_scroll == usize::MAX {
                usize::MAX
            } else {
                (old(state).summary_scroll + 1) as usize
            }
        } else if key.key == Key::Char('k') || key.key == Key::Up {
            if old(state).summary_scroll == 0 {
                0
            } else {
                (old(state).summary_scroll - 1) as usize
            }
        } else {
            old(state).summary_scroll
        },
        *final(state) == (UiState {
            mode: final(state).mode,
            summary_scroll: final(state).summary_scroll,
            ..*old(state)
        }),
{
    match (key.key, key.ctrl) {
        (Key::Char('y'), false) => LoopOutcome::Submit,
        (Key::Esc, _) | (Key::Char('q'), false) => {
            state.mode = Mode::Browse;
            LoopOutcome::Continue
        },
        (Key::Char('j'), false) | (Key::Down, false) => {
            state.summary_scroll = if state.summary_scroll == usize::MAX {
                usize::MAX
            } else {
                state.summary_scroll + 1
            };
            LoopOutcome::Continue
        },
        (Key::Char('k'), false) | (Key::Up, false) => {
            state.summary_scroll = if state.summary_scroll == 0 {
                0
            } else {
                state.summary_scroll - 1
            };
            LoopOutcome::Continue
        },
        _ => LoopOutcome::Continue,
    }
}

/// Handle a key in the quit confirmation.
pub fn handle_quit_confirm(state: &mut UiState, key: KeyInput) -> (r: LoopOutcome)
    ensures
        r == if key.key == Key::Char('y') || key.key == Key::Char('Y') {
            LoopOutcome::Abort
        } else {
            LoopOutcome::Continue
        },
        final(state).mode == if key.key == Key::Char('n') || key.key == Key::Char('N') || key.key
            == Key::Esc {
            Mode::Browse
        } else {
            old(state).mode
        },
        *final(state) == (UiState { mode: final(state).mode, ..*old(state) }),
{
    match key.key {
        Key::Char('y') | Key::Char('Y') => LoopOutcome::Abort,
        Key::Char('n') | Key::Char('N') | Key::Esc => {
            state.mode = Mode::Browse;
            LoopOutcome::Continue
        },
        _ => LoopOutcome::Continue,
    }
}

/// `new` decides `target` as edited to `bookmark`, and leaves every other
/// decision of `old` as it was.
pub open spec fn edited_to(
    new: Seq<(u64, Decision)>,
    old: Seq<(u64, Decision)>,
    target: u64,
    bookmark: Seq<char>,
) -> bool {
    &&& decision_of(new, target) matches Decision::EditedTo(b) && b@ == bookmark
    &&& forall|m: u64| m != target ==> #[trigger] decision_of(new, m) == decision_of(old, m)
}

/// `q` is picker `p` with its input changed to `input` and refiltered.
pub open spec fn refiltered(q: PickerState, p: PickerState, input: Seq<char>, all: Seq<String>) -> bool {
    &&& q.target_pr == p.target_pr
    &&& q.input@ == input
    &&& views(q.candidates@) == filtered(all, lowercase(input), all.len() as int)
    &&& q.selected == if p.selected >= q.candidates@.len() {
        0
    } else {
        p.selected
    }
}

/// What a key does to the picker `p` of state `old`, giving `new`.
pub open spec fn picker_step(p: PickerState, key: KeyInput, old: UiState, new: UiState) -> bool {
    let n = p.candidates@.len();
    if key.key == Key::Esc {
        new.picker is None && new.mode == Mode::Browse && new.decisions == old.decisions
    } else if key.key == Key::Enter {
        &&& new.picker is None
        &&& new.mode == Mode::Browse
        &&& if p.selected < n {
            edited_to(
                new.decisions@,
                old.decisions@,
                p.target_pr,
                bookmark_of(p.candidates@[p.selected as int]@),
            )
        } else {
            new.decisions == old.decisions
        }
    } else if ((key.key == Key::Char('n') && key.ctrl) || key.key == Key::Down) && n > 0 {
        &&& new.picker == Some(PickerState { selected: ((p.selected + 1) % (n as int)) as usize, ..p })
        &&& new.mode == old.mode
        &&& new.decisions == old.decisions
    } else if ((key.key == Key::Char('p') && key.ctrl) || key.key == Key::Up) && n > 0 {
        &&& new.picker == Some(
            PickerState {
                selected: if p.selected == 0 {
                    (n - 1) as usize
                } else {
                    (p.selected - 1) as usize
                },
                ..p
            },
        )
        &&& new.mode == old.mode
        &&& new.decisions == old.decisions
    } else if key.key == Key::Backspace {
        &&& new.picker matches Some(q) && refiltered(
            q,
            p,
            if p.input@.len() == 0 {
                p.input@
            } else {
                p.input@.drop_last()
            },
            old.base_candidates@,
        )
        &&& new.mode == old.mode
        &&& new.decisions == old.decisions
    } else if key.key is Char && !key.ctrl {
        &&& new.picker matches Some(q) && refiltered(
            q,
            p,
            p.input@.push(key.key->Char_0),
            old.base_candidates@,
        )
        &&& new.mode == old.mode
        &&& new.decisions == old.decisions
    } else {
        new.picker == Some(p) && new.mode == old.mode && new.decisions == old.decisions
    }
}

/// Handle a key in the base picker.
pub fn handle_picker(state: &mut UiState, key: KeyInput) -> (r: LoopOutcome)
    ensures
        r == LoopOutcome::Continue,
        final(state).base_candidates == old(state).base_candidates,
        final(state).cursor_pr_idx == old(state).cursor_pr_idx,
        final(state).pr_order == old(state).pr_order,
        final(state).plans == old(state).plans,
        final(state).log_lines == old(state).log_lines,
        final(state).pr_to_line == old(state).pr_to_line,
        final(state).scroll_offset == old(state).scroll_offset,
        final(state).summary_scroll == old(state).summary_scroll,
        final(state).viewport_height == old(state).viewport_height,
        match old(state).picker {
            None => final(state).mode == Mode::Browse && final(state).picker is None
                && final(state).decisions == old(state).decisions,
            Some(p) => picker_step(p, key, *old(state), *final(state)),
        },
{
    let ctrl = key.ctrl;
    let mut picker = match state.picker.take() {
        Some(p) => p,
        None => {
            state.mode = Mode::Browse;
            return LoopOutcome::Continue;
        },
    };
    let n = picker.candidates.len();
    let is_char = match key.key {
        Key::Char(_) => true,
        _ => false,
    };
    if key.key == Key::Esc {
        state.mode = Mode::Browse;
    } else if key.key == Key::Enter {
        if picker.selected < n {
            let bookmark = extract_bookmark(picker.candidates[picker.selected].as_str());
            let ghost before = state.decisions@;
            set_decision(&mut state.decisions, picker.target_pr, Decision::EditedTo(bookmark));
        }
        state.mode = Mode::Browse;
    } else if ((key.key == Key::Char('n') && ctrl) || key.key == Key::Down) && n > 0 {
        let cur = picker.selected;
        let wrapped = cur % n;
        let next = if wrapped + 1 == n {
            0
        } else {
            wrapped + 1
        };
        assert(next == (cur + 1) % (n as int)) by (nonlinear_arith)
            requires
                n > 0,
                wrapped == cur % n,
                next == if wrapped + 1 == n {
                    0
                } else {
                    wrapped + 1
                },
        ;
        picker.selected = next;
        state.picker = Some(picker);
    } else if ((key.key == Key::Char('p') && ctrl) || key.key == Key::Up) && n > 0 {
        picker.selected = if picker.selected == 0 {
            n - 1
        } else {
            picker.selected - 1
        };
        state.picker = Some(picker);
    } else if key.key == Key::Backspace {
        pop_char(&mut picker.input);
        refresh_picker_candidates(&mut picker, state.base_candidates.as_slice());
        state.picker = Some(picker);
    } else if is_char && !ctrl {
        let c = match key.key {
            Key::Char(c) => c,
            _ => ' ',
        };
        push_char(&mut picker.input, c);
        refresh_picker_candidates(&mut picker, state.base_candidates.as_slice());
        state.picker = Some(picker);
    } else {
        state.picker = Some(picker);
    }
    LoopOutcome::Continue
}

/// The cursor went to position `idx` (clamped) and its row scrolled into
/// view; nothing else changed.
pub open spec fn cursor_moved_to(old: UiState, new: UiState, idx: int) -> bool {
    &&& new.cursor_pr_idx == clamped_cursor(idx, old.pr_order@.len() as int)
    &&& new.scroll_offset == scroll_after_cursor(old, new.cursor_pr_idx as int)
    &&& only_cursor_moved(new, old)
}

/// The log scrolled by `delta` rows; nothing else changed.
pub open spec fn viewport_scrolled(old: UiState, new: UiState, delta: int) -> bool {
    &&& new.scroll_offset == scrolled(
        old.scroll_offset as int,
        delta,
        old.log_lines@.len() as int,
        old.viewport_height as int,
    )
    &&& new.cursor_pr_idx == old.cursor_pr_idx
    &&& only_cursor_moved(new, old)
}

/// The PR under the cursor got decision `d` and the cursor moved on to the
/// next PR, if there is one.
pub open spec fn decided_at_cursor(old: UiState, new: UiState, d: Decision) -> bool {
    &&& (old.cursor_pr_idx < old.pr_order@.len() ==> {
        let pr = old.pr_order@[old.cursor_pr_idx as int];
        &&& forall|m: u64| #[trigger]
            decision_of(new.decisions@, m) == if m == pr {
                d
            } else {
                decision_of(old.decisions@, m)
            }
        &&& if old.cursor_pr_idx + 1 < old.pr_order@.len() {
            &&& new.cursor_pr_idx == old.cursor_pr_idx + 1
            &&& new.scroll_offset == scroll_after_cursor(old, old.cursor_pr_idx + 1)
        } else {
            &&& new.cursor_pr_idx == old.cursor_pr_idx
            &&& new.scroll_offset == old.scroll_offset
        }
    })
    &&& (old.cursor_pr_idx >= old.pr_order@.len() ==> new == old)
    &&& new.mode == old.mode
    &&& new.picker == old.picker
    &&& new.pr_order == old.pr_order
    &&& new.plans == old.plans
    &&& new.summary_scroll == old.summary_scroll
}

/// The base picker opened for the PR under the cursor, listing every
/// candidate; without a PR or a candidate nothing changed.
pub open spec fn picker_opened(old: UiState, new: UiState) -> bool {
    if old.cursor_pr_idx < old.pr_order@.len() && old.base_candidates@.len() > 0 {
        &&& new.mode == Mode::Picker
        &&& new.picker matches Some(p) && {
            &&& p.target_pr == old.pr_order@[old.cursor_pr_idx as int]
            &&& p.input@.len() == 0
            &&& p.selected == 0
            &&& views(p.candidates@) == filtered(
                old.base_candidates@,
                lowercase(p.input@),
                old.base_candidates@.len() as int,
            )
        }
        &&& new.decisions == old.decisions
        &&& new.cursor_pr_idx == old.cursor_pr_idx
    } else {
        new == old
    }
}

/// What a key does in browse mode: `j`/`k` (or the arrows) move the cursor,
/// Ctrl-`d`/`u` scroll the log, `g`/`G` jump to the first or last PR, `c`
/// and `s` confirm or skip the PR under the cursor, `e` opens the base
/// picker, Enter opens the summary, `q`/Esc quit (asking first when a
/// decision was made); any other key changes nothing.
pub open spec fn browse_step(old: UiState, key: KeyInput, new: UiState, r: LoopOutcome) -> bool {
    let len = old.pr_order@.len() as int;
    let quit = (key.key == Key::Char('q') && !key.ctrl) || key.key == Key::Esc;
    &&& r == if quit && !any_decided(old.decisions@) {
        LoopOutcome::Abort
    } else {
        LoopOutcome::Continue
    }
    &&& if (key.key == Key::Char('j') || key.key == Key::Down) && !key.ctrl {
        cursor_moved_to(old, new, moved_index(old.cursor_pr_idx as int, 1, len))
    } else if (key.key == Key::Char('k') || key.key == Key::Up) && !key.ctrl {
        cursor_moved_to(old, new, moved_index(old.cursor_pr_idx as int, -1, len))
    } else if key.key == Key::Char('d') && key.ctrl {
        viewport_scrolled(old, new, 8)
    } else if key.key == Key::Char('u') && key.ctrl {
        viewport_scrolled(old, new, -8)
    } else if key.key == Key::Char('g') && !key.ctrl {
        cursor_moved_to(old, new, 0)
    } else if key.key == Key::Char('G') {
        cursor_moved_to(old, new, if len == 0 { 0 } else { len - 1 })
    } else if key.key == Key::Char('c') && !key.ctrl {
        decided_at_cursor(old, new, Decision::Confirm)
    } else if key.key == Key::Char('s') && !key.ctrl {
        decided_at_cursor(old, new, Decision::Skip)
    } else if key.key == Key::Char('e') && !key.ctrl {
        picker_opened(old, new)
    } else if key.key == Key::Enter {
        new == UiState { mode: Mode::Summary, ..old }
    } else if quit {
        if any_decided(old.decisions@) {
            new == UiState { mode: Mode::QuitConfirm, ..old }
        } else {
            new == old
        }
    } else {
        new == old
    }
}

/// Handle a key in browse mode.
pub fn handle_browse(state: &mut UiState, key: KeyInput) -> (r: LoopOutcome)
    ensures
        browse_step(*old(state), key, *final(state), r),
{
    let ctrl = key.ctrl;
    match (key.key, ctrl) {
        (Key::Char('j'), false) | (Key::Down, false) => move_cursor(state, 1),
        (Key::Char('k'), false) | (Key::Up, false) => move_cursor(state, -1),
        (Key::Char('d'), true) => scroll_viewport(state, 8),
        (Key::Char('u'), true) => scroll_viewport(state, -8),
        (Key::Char('g'), false) => move_cursor_to(state, 0),
        (Key::Char('G'), _) => {
            let len = state.pr_order.len();
            let last = if len == 0 {
                0
            } else {
                len - 1
            };
            move_cursor_to(state, last);
        },
        (Key::Char('c'), false) => set_decision_at_cursor(state, Decision::Confirm),
        (Key::Char('s'), false) => set_decision_at_cursor(state, Decision::Skip),
        (Key::Char('e'), false) => open_picker(state),
        (Key::Enter, _) => {
            state.mode = Mode::Summary;
        },
        (Key::Char('q'), false) | (Key::Esc, _) => {
            if any_decision_set(&state.decisions) {
                state.mode = Mode::QuitConfirm;
            } else {
                return LoopOutcome::Abort;
            }
        },
        _ => {},
    }
    LoopOutcome::Continue
}

/// What a key does on the summary screen: `y` submits, Esc or `q` go back
/// to browsing, `j`/`k` scroll; nothing else changes.
pub open spec fn summary_step(old: UiState, key: KeyInput, new: UiState, r: LoopOutcome) -> bool {
    &&& (r == if key.key == Key::Char('y') && !key.ctrl {
            LoopOutcome::Submit
        } else {
            LoopOutcome::Continue
        })
    &&& (new.mode == if !(key.key == Key::Char('y') && !key.ctrl) && (key.key == Key::Esc || (
        key.key == Key::Char('q') && !key.ctrl)) {
            Mode::Browse
        } else {
            old.mode
        })
    &&& (new.summary_scroll == if key.key == Key::Esc || key.ctrl {
            old.summary_scroll
        } else if key.key == Key::Char('j') || key.key == Key::Down {
            if old.summary_scroll == usize::MAX {
                usize::MAX
            } else {
                (old.summary_scroll + 1) as usize
            }
        } else if key.key == Key::Char('k') || key.key == Key::Up {
            if old.summary_scroll == 0 {
                0
            } else {
                (old.summary_scroll - 1) as usize
            }
        } else {
            old.summary_scroll
        })
    &&& new == (UiState { mode: new.mode, summary_scroll: new.summary_scroll, ..old })
}

/// What a key does when asked whether to quit: `y` aborts, `n` or Esc go
/// back to browsing; nothing else changes.
pub open spec fn quit_step(old: UiState, key: KeyInput, new: UiState, r: LoopOutcome) -> bool {
    &&& (r == if key.key == Key::Char('y') || key.key == Key::Char('Y') {
            LoopOutcome::Abort
        } else {
            LoopOutcome::Continue
        })
    &&& (new.mode == if key.key == Key::Char('n') || key.key == Key::Char('N') || key.key
            == Key::Esc {
            Mode::Browse
        } else {
            old.mode
        })
    &&& new == (UiState { mode: new.mode, ..old })
}

/// What a key does in the base picker (see [`picker_step`]); the log,
/// the plans and the cursor stay as they are.
pub open spec fn picker_mode_step(old: UiState, key: KeyInput, new: UiState, r: LoopOutcome) -> bool {
    &&& (r == LoopOutcome::Continue)
    &&& (new.base_candidates == old.base_candidates)
    &&& (new.cursor_pr_idx == old.cursor_pr_idx)
    &&& (new.pr_order == old.pr_order)
    &&& (new.plans == old.plans)
    &&& (new.log_lines == old.log_lines)
    &&& (new.pr_to_line == old.pr_to_line)
    &&& (new.scroll_offset == old.scroll_offset)
    &&& (new.summary_scroll == old.summary_scroll)
    &&& (new.viewport_height == old.viewport_height)
    &&& match old.picker {
        None => new.mode == Mode::Browse && new.picker is None && new.decisions == old.decisions,
        Some(p) => picker_step(p, key, old, new),
    }
}

/// What a key does: Control-C aborts and changes nothing; otherwise the
/// mode the screen is in decides.
pub open spec fn key_step(old: UiState, key: KeyInput, new: UiState, r: LoopOutcome) -> bool {
    if key.ctrl && key.key == Key::Char('c') {
        r == LoopOutcome::Abort && new == old
    } else {
        match old.mode {
            Mode::Browse => browse_step(old, key, new, r),
            Mode::Picker => picker_mode_step(old, key, new, r),
            Mode::Summary => summary_step(old, key, new, r),
            Mode::QuitConfirm => quit_step(old, key, new, r),
        }
    }
}

/// Handle one key press: Control-C aborts from anywhere; otherwise the mode
/// decides.
pub fn handle_key(state: &mut UiState, key: KeyInput) -> (r: LoopOutcome)
    ensures
        (key.ctrl && key.key == Key::Char('c')) ==> r == LoopOutcome::Abort && *final(state)
            == *old(state),
        r == LoopOutcome::Submit ==> old(state).mode == Mode::Summary,
        key_step(*old(state), key, *final(state), r),
{
    if key.ctrl && key.key == Key::Char('c') {
        return LoopOutcome::Abort;
    }
    match state.mode {
        Mode::Browse => handle_browse(state, key),
        Mode::Picker => handle_picker(state, key),
        Mode::Summary => handle_summary(state, key),
        Mode::QuitConfirm => handle_quit_confirm(state, key),
    }
}

/// The base shown as the merge target: the proposed one for a change, the
/// current one otherwise.
pub fn display_base(plan: &PrPlan) -> (r: &str)
    ensures
        r@ == if plan.current_base@ == plan.proposed_base@ {
            plan.current_base@
        } else {
            plan.proposed_base@
        },
{
    if plan.is_no_change() {
        plan.current_base.as_str()
    } else {
        plan.proposed_base.as_str()
    }
}

/// The badge text for a decision.
pub open spec fn badge_view(d: Decision, plan: PrPlan) -> Seq<char> {
    match d {
        Decision::Unset => if plan.current_base@ == plan.proposed_base@ {
            "no-change"@
        } else {
            "unset"@
        },
        Decision::Confirm => "confirm"@,
        Decision::EditedTo(_) => "edited"@,
        Decision::Skip => "skip"@,
    }
}

/// The badge text for a decision: `no-change`, `unset`, `confirm`,
/// `edited` or `skip`.
pub fn decision_badge(decision: &Decision, plan: &PrPlan) -> (r: &'static str)
    ensures
        r@ == badge_view(*decision, *plan),
{
    match decision {
        Decision::Unset => if plan.is_no_change() {
            "no-change"
        } else {
            "unset"
        },
        Decision::Confirm => "confirm",
        Decision::EditedTo(_) => "edited",
        Decision::Skip => "skip",
    }
}

/// Whether the decision for `plan` submits a base other than the current one.
pub open spec fn submittable(decisions: Seq<(u64, Decision)>, plan: PrPlan) -> bool {
    match final_base_view(decision_of(decisions, plan.pr_number), plan) {
        Some(b) => b != plan.current_base@,
        None => false,
    }
}

/// How many of the first `k` plans are submittable.
pub open spec fn submittable_upto(plans: Seq<PrPlan>, decisions: Seq<(u64, Decision)>, k: int) -> nat
    decreases k,
{
    if k <= 0 {
        0
    } else {
        submittable_upto(plans, decisions, k - 1) + if submittable(decisions, plans[k - 1]) {
            1nat
        } else {
            0nat
        }
    }
}

/// How many PRs the summary would update.
pub fn count_submittable(state: &UiState) -> (r: usize)
    ensures
        r == submittable_upto(state.plans@, state.decisions@, state.plans@.len() as int),
{
    let mut count: usize = 0;
    let mut i: usize = 0;
    while i < state.plans.len()
        invariant
            i <= state.plans@.len(),
            count == submittable_upto(state.plans@, state.decisions@, i as int),
            count <= i,
        decreases state.plans@.len() - i,
    {
        let p = &state.plans[i];
        let d = crate::restack::decision_for(state.decisions.as_slice(), p.pr_number);
        if let Some(b) = d.final_base(p) {
            if !str_eq(b, p.current_base.as_str()) {
                count = count + 1;
            }
        }
        i = i + 1;
    }
    count
}


/// Separator between a base and the bookmark it is the base of.
pub const ARROW_LEFT: &'static str = " \u{2190} ";
/// Separator between the picker input and its selected candidate.
pub const ARROW_RIGHT: &'static str = "  \u{2192} ";
/// Keys shown while browsing.
pub const BROWSE_KEYMAP: &'static str = "c=confirm e=edit s=skip j/k=move Enter=summary q=quit";
/// Keys shown on the summary.
pub const SUMMARY_KEYMAP: &'static str = "y=submit  Esc/q=back";
/// Keys shown in the picker.
pub const PICKER_KEYMAP: &'static str = "Enter=apply Esc=cancel C-n/C-p";

/// The spaces that right-align a keymap of `right` characters after `used`
/// characters on a line of `cols`; none when they do not fit with two
/// spaces to spare.
pub open spec fn keymap_pad(used: int, right: int, cols: int) -> Option<int> {
    if used + 2 + right <= cols {
        Some(cols - used - right)
    } else {
        None
    }
}

/// The spaces that right-align a keymap on the control bar.
pub fn keymap_padding(used: usize, right: usize, cols: usize) -> (r: Option<usize>)
    ensures
        match r {
            Some(p) => keymap_pad(used as int, right as int, cols as int) == Some(p as int),
            None => keymap_pad(used as int, right as int, cols as int) is None,
        },
{
    if used <= cols && right <= cols - used && cols - used - right >= 2 {
        Some(cols - used - right)
    } else {
        None
    }
}

/// The base a summary row shows and whether it is a change: the decided
/// base when it differs from the current one, else the current base.
pub open spec fn summary_base_view(d: Decision, plan: PrPlan) -> (Seq<char>, bool) {
    match final_base_view(d, plan) {
        Some(b) => if b != plan.current_base@ {
            (b, true)
        } else {
            (plan.current_base@, false)
        },
        None => (plan.current_base@, false),
    }
}

/// The base a summary row shows and whether it is a change.
pub fn summary_base<'a>(decision: &'a Decision, plan: &'a PrPlan) -> (r: (&'a str, bool))
    ensures
        (r.0@, r.1) == summary_base_view(*decision, *plan),
{
    match decision.final_base(plan) {
        Some(b) => if !str_eq(b, plan.current_base.as_str()) {
            (b, true)
        } else {
            (plan.current_base.as_str(), false)
        },
        None => (plan.current_base.as_str(), false),
    }
}

/// How many summary rows fit: the heading, a spacer and one per plan,
/// from `scroll` on, at most `height`.
pub open spec fn summary_rows_view(plans: int, scroll: int, height: int) -> int {
    let total = plans + 2;
    let left = if total > scroll {
        total - scroll
    } else {
        0
    };
    if height < left {
        height
    } else {
        left
    }
}

/// How many summary rows fit on screen.
pub fn summary_rows(plans: usize, scroll: usize, height: usize) -> (r: usize)
    requires
        plans + 2 <= usize::MAX,
    ensures
        r == summary_rows_view(plans as int, scroll as int, height as int),
{
    let total = plans + 2;
    let left = if total > scroll {
        total - scroll
    } else {
        0
    };
    if height < left {
        height
    } else {
        left
    }
}

/// The plain text of the browse status line, used to measure it.
pub open spec fn browse_status_view(
    n: nat,
    total: nat,
    plan: PrPlan,
    title: Seq<char>,
    badge: Seq<char>,
) -> Seq<char> {
    "["@ + decimal(n) + "/"@ + decimal(total) + "] #"@ + decimal(plan.pr_number as nat) + " "@ + title
        + "  "@ + (if plan.current_base@ == plan.proposed_base@ {
        plan.current_base@
    } else {
        plan.proposed_base@
    }) + ARROW_LEFT@ + plan.bookmark@ + " ["@ + badge + "]"@
}

/// The plain text of the browse status line for the PR under the cursor,
/// whose title is already cut to fit.
pub fn browse_status_text(n: usize, total: usize, plan: &PrPlan, title: &str, decision: &Decision) -> (r: String)
    ensures
        r@ == browse_status_view(n as nat, total as nat, *plan, title@, badge_view(*decision, *plan)),
{
    let mut r = owned("[");
    crate::text::push_decimal(&mut r, n as u64);
    crate::text::push_str(&mut r, "/");
    crate::text::push_decimal(&mut r, total as u64);
    crate::text::push_str(&mut r, "] #");
    crate::text::push_decimal(&mut r, plan.pr_number);
    crate::text::push_str(&mut r, " ");
    crate::text::push_str(&mut r, title);
    crate::text::push_str(&mut r, "  ");
    crate::text::push_str(&mut r, display_base(plan));
    crate::text::push_str(&mut r, ARROW_LEFT);
    crate::text::push_str(&mut r, plan.bookmark.as_str());
    crate::text::push_str(&mut r, " [");
    crate::text::push_str(&mut r, decision_badge(decision, plan));
    crate::text::push_str(&mut r, "]");
    r
}

/// The plain text of the picker status line.
pub open spec fn picker_status_view(p: PickerState) -> Seq<char> {
    "edit #"@ + decimal(p.target_pr as nat) + ": "@ + p.input@ + "_  -> "@ + (if p.selected
        < p.candidates@.len() {
        p.candidates@[p.selected as int]@
    } else {
        "(no candidate)"@
    })
}

/// The plain text of the picker status line, used to measure it.
pub fn picker_status_text(p: &PickerState) -> (r: String)
    ensures
        r@ == picker_status_view(*p),
{
    let mut r = owned("edit #");
    crate::text::push_decimal(&mut r, p.target_pr);
    crate::text::push_str(&mut r, ": ");
    crate::text::push_str(&mut r, p.input.as_str());
    crate::text::push_str(&mut r, "_  -> ");
    if p.selected < p.candidates.len() {
        crate::text::push_str(&mut r, p.candidates[p.selected].as_str());
    } else {
        crate::text::push_str(&mut r, "(no candidate)");
    }
    r
}

/// The plain text of the summary status line.
pub fn summary_status_text(ready: usize) -> (r: String)
    ensures
        r@ == "summary  ("@ + decimal(ready as nat) + " change(s) ready)"@,
{
    let mut r = owned("summary  (");
    crate::text::push_decimal(&mut r, ready as u64);
    crate::text::push_str(&mut r, " change(s) ready)");
    r
}

} // verus!
