use jj_gh::restack::{decision_for, submit_updates, Decision, PrPlan};
use jj_gh::restack_ui::{handle_key, Key, KeyInput, LoopOutcome, Mode, UiState};

fn plan(number: u64, bookmark: &str, current: &str, proposed: &str) -> PrPlan {
    PrPlan {
        pr_number: number,
        pr_node_id: format!("ID{number}"),
        title: format!("title {number}"),
        bookmark: bookmark.into(),
        local_commit_id: format!("{number:040}"),
        current_base: current.into(),
        proposed_base: proposed.into(),
    }
}

fn key(c: char) -> KeyInput {
    KeyInput { key: Key::Char(c), ctrl: false }
}

fn special(k: Key) -> KeyInput {
    KeyInput { key: k, ctrl: false }
}

fn state() -> UiState {
    let plans = vec![plan(1, "a", "main", "main"), plan(2, "b", "main", "a")];
    UiState {
        decisions: plans.iter().map(|p| (p.pr_number, Decision::Unset)).collect(),
        plans,
        log_lines: vec!["@ b".into(), "o a".into(), "o main".into()],
        pr_to_line: vec![(2, 0), (1, 1)],
        pr_order: vec![2, 1],
        cursor_pr_idx: 0,
        scroll_offset: 0,
        mode: Mode::Browse,
        picker: None,
        base_candidates: vec!["a (#1)".into(), "b (#2)".into(), "main".into()],
        summary_scroll: 0,
        viewport_height: 10,
    }
}

#[test]
fn cursor_moves_and_stops_at_the_ends() {
    let mut s = state();
    assert_eq!(handle_key(&mut s, key('j')), LoopOutcome::Continue);
    assert_eq!(s.cursor_pr_idx, 1);
    handle_key(&mut s, key('j'));
    assert_eq!(s.cursor_pr_idx, 1);
    handle_key(&mut s, key('g'));
    assert_eq!(s.cursor_pr_idx, 0);
    handle_key(&mut s, key('G'));
    assert_eq!(s.cursor_pr_idx, 1);
    handle_key(&mut s, special(Key::Up));
    assert_eq!(s.cursor_pr_idx, 0);
}

#[test]
fn confirm_and_skip_decide_and_advance() {
    let mut s = state();
    handle_key(&mut s, key('c'));
    assert_eq!(decision_for(&s.decisions, 2), Decision::Confirm);
    assert_eq!(s.cursor_pr_idx, 1);
    handle_key(&mut s, key('s'));
    assert_eq!(decision_for(&s.decisions, 1), Decision::Skip);
    assert_eq!(s.cursor_pr_idx, 1);
}

#[test]
fn picker_edits_the_base_of_the_pr_under_the_cursor() {
    let mut s = state();
    handle_key(&mut s, key('e'));
    assert_eq!(s.mode, Mode::Picker);
    for c in "mai".chars() {
        handle_key(&mut s, key(c));
    }
    assert_eq!(s.picker.as_ref().unwrap().candidates, vec!["main".to_string()]);
    handle_key(&mut s, special(Key::Enter));
    assert_eq!(s.mode, Mode::Browse);
    assert!(s.picker.is_none());
    assert_eq!(decision_for(&s.decisions, 2), Decision::EditedTo("main".into()));
}

#[test]
fn summary_then_submit() {
    let mut s = state();
    handle_key(&mut s, key('c'));
    handle_key(&mut s, special(Key::Enter));
    assert_eq!(s.mode, Mode::Summary);
    assert_eq!(handle_key(&mut s, key('y')), LoopOutcome::Submit);
    let updates = submit_updates(&s.plans, &s.decisions);
    assert_eq!(updates.len(), 1);
    assert_eq!(updates[0].0, 2);
    assert_eq!(updates[0].1.base_ref_name.as_deref(), Some("a"));
    assert_eq!(updates[0].1.pr_node_id, "ID2");
}

#[test]
fn quitting_asks_once_a_decision_was_made() {
    let mut fresh = state();
    assert_eq!(handle_key(&mut fresh, key('q')), LoopOutcome::Abort);

    let mut s = state();
    handle_key(&mut s, key('s'));
    assert_eq!(handle_key(&mut s, key('q')), LoopOutcome::Continue);
    assert_eq!(s.mode, Mode::QuitConfirm);
    handle_key(&mut s, key('n'));
    assert_eq!(s.mode, Mode::Browse);
    handle_key(&mut s, special(Key::Esc));
    assert_eq!(handle_key(&mut s, key('y')), LoopOutcome::Abort);
}

#[test]
fn control_c_aborts_anywhere() {
    let mut s = state();
    handle_key(&mut s, key('e'));
    assert_eq!(handle_key(&mut s, KeyInput { key: Key::Char('c'), ctrl: true }), LoopOutcome::Abort);
}

#[test]
fn unknown_keys_change_nothing() {
    let mut s = state();
    let before = (s.cursor_pr_idx, s.scroll_offset, s.mode, s.decisions.clone());
    assert_eq!(handle_key(&mut s, key('x')), LoopOutcome::Continue);
    assert_eq!((s.cursor_pr_idx, s.scroll_offset, s.mode, s.decisions.clone()), before);
}

#[test]
fn only_real_base_changes_are_sent() {
    let plans = vec![
        plan(1, "a", "main", "main"),
        plan(2, "b", "main", "a"),
        plan(3, "c", "main", "b"),
        plan(4, "d", "main", "c"),
    ];
    let decisions = vec![
        (1, Decision::Confirm),
        (2, Decision::Skip),
        (3, Decision::EditedTo("main".into())),
        (4, Decision::Unset),
    ];
    assert!(submit_updates(&plans, &decisions).is_empty());
    let decisions = vec![(3, Decision::EditedTo("a".into())), (4, Decision::Confirm)];
    let updates = submit_updates(&plans, &decisions);
    let sent: Vec<(u64, Option<&str>)> = updates.iter().map(|(n, u)| (*n, u.base_ref_name.as_deref())).collect();
    assert_eq!(sent, vec![(3, Some("a")), (4, Some("c"))]);
}
