use jj_gh::restack::{Decision, PrPlan};
use jj_gh::restack_log::{parse_sentinel_lines, strip_ansi, strip_sentinel, SENTINEL_CLOSE, SENTINEL_OPEN};
use jj_gh::restack_ui::{extract_bookmark, refresh_picker_candidates, PickerState};
use jj_gh::title::VERTICAL_SEPARATOR;

fn plan(number: u64, bookmark: &str, current: &str, proposed: &str) -> PrPlan {
    PrPlan {
        pr_number: number,
        pr_node_id: format!("ID{number}"),
        title: format!("title {number}"),
        bookmark: bookmark.into(),
        local_commit_id: format!("{number:040}"),
        current_base: current.into(),
        proposed_base: proposed.into(),
    }
}

#[test]
fn plan_no_change_when_current_eq_proposed() {
    assert!(plan(1, "b", "master", "master").is_no_change());
    assert!(!plan(1, "b", "master", "feature").is_no_change());
}

#[test]
fn decision_final_base_resolves_each_variant() {
    let p = plan(1, "b", "master", "feature");
    assert_eq!(Decision::Unset.final_base(&p), None);
    assert_eq!(Decision::Skip.final_base(&p), None);
    assert_eq!(Decision::Confirm.final_base(&p), Some("feature"));
    assert_eq!(
        Decision::EditedTo("custom".into()).final_base(&p),
        Some("custom")
    );
}

#[test]
fn picker_filter_substring_matches_bookmark_and_pr_number() {
    let mut picker = PickerState {
        target_pr: 1,
        input: "1234".into(),
        selected: 0,
        candidates: vec![],
    };
    let all = vec![
        "master".to_string(),
        "feature-a (#1234)".to_string(),
        "feature-b (#999)".to_string(),
    ];
    refresh_picker_candidates(&mut picker, &all);
    assert_eq!(picker.candidates, vec!["feature-a (#1234)"]);

    picker.input = "feature".into();
    refresh_picker_candidates(&mut picker, &all);
    assert_eq!(
        picker.candidates,
        vec!["feature-a (#1234)", "feature-b (#999)"],
    );

    picker.input = String::new();
    refresh_picker_candidates(&mut picker, &all);
    assert_eq!(picker.candidates.len(), 3);
}

#[test]
fn picker_filter_ignores_case() {
    let mut picker = PickerState {
        target_pr: 1,
        input: "FEAT".into(),
        selected: 5,
        candidates: vec![],
    };
    let all = vec!["Feature-A (#1)".to_string(), "main".to_string()];
    refresh_picker_candidates(&mut picker, &all);
    assert_eq!(picker.candidates, vec!["Feature-A (#1)"]);
    assert_eq!(picker.selected, 0);
}

#[test]
fn extract_bookmark_strips_pr_suffix() {
    assert_eq!(extract_bookmark("master"), "master");
    assert_eq!(extract_bookmark("feature-a (#1234)"), "feature-a");
}

#[test]
fn strip_ansi_removes_csi_escapes() {
    assert_eq!(strip_ansi("\x1b[38;5;4mhello\x1b[39m"), "hello");
    assert_eq!(strip_ansi("plain"), "plain");
    assert_eq!(strip_ansi("\x1b[1m\x1b[31mx\x1b[0m"), "x");
}

#[test]
fn strip_sentinel_recognizes_plain_id() {
    let id = "a".repeat(40);
    let raw = format!("{SENTINEL_OPEN}{id}{SENTINEL_CLOSE}  description");
    let (cleaned, commit) = strip_sentinel(&raw);
    assert_eq!(cleaned, "  description");
    assert_eq!(commit, Some(id));
}

#[test]
fn strip_sentinel_recognizes_ansi_wrapped_id() {
    let id = "b".repeat(40);
    let raw = format!("@  {SENTINEL_OPEN}\x1b[38;5;4m{id}\x1b[39m{SENTINEL_CLOSE} header");
    let (cleaned, commit) = strip_sentinel(&raw);
    assert_eq!(cleaned, "@   header");
    assert_eq!(commit, Some(id));
}

#[test]
fn strip_sentinel_passes_through_non_marker_lines() {
    let input = format!("{}  no marker here", VERTICAL_SEPARATOR);
    let (cleaned, commit) = strip_sentinel(&input);
    assert_eq!(cleaned, input);
    assert!(commit.is_none());
}

#[test]
fn strip_sentinel_rejects_short_id() {
    let id = "a".repeat(10);
    let raw = format!("{SENTINEL_OPEN}{id}{SENTINEL_CLOSE}tail");
    let (_cleaned, commit) = strip_sentinel(&raw);
    assert!(commit.is_none());
}

#[test]
fn parse_sentinel_lines_builds_commit_map() {
    let id1 = "a".repeat(40);
    let id2 = "b".repeat(40);
    let raw = format!(
        "@ {SENTINEL_OPEN}{id1}{SENTINEL_CLOSE} header\n  description\n{} {SENTINEL_OPEN}{id2}{SENTINEL_CLOSE} other\n",
        VERTICAL_SEPARATOR,
    );
    let (lines, map) = parse_sentinel_lines(&raw);
    assert_eq!(lines.len(), 3);
    let get = |id: &str| map.iter().find(|(c, _)| c == id).map(|(_, l)| *l);
    assert_eq!(get(&id1), Some(0));
    assert_eq!(get(&id2), Some(2));
}

#[test]
fn submit_report_fails_exactly_when_an_update_failed() {
    let results = vec![(3u64, None), (7u64, Some("boom".to_string())), (9u64, None)];
    let (lines, failed) = jj_gh::restack::submit_report(&results);
    assert_eq!(lines, vec!["OK  #3 base updated", "ERR #7: boom", "OK  #9 base updated"]);
    assert!(failed);
    let ok = vec![(12u64, None), (40u64, None)];
    let (lines, failed) = jj_gh::restack::submit_report(&ok);
    assert_eq!(lines, vec!["OK  #12 base updated", "OK  #40 base updated"]);
    assert!(!failed);
    let (lines, failed) = jj_gh::restack::submit_report(&[]);
    assert!(lines.is_empty());
    assert!(!failed);
}
