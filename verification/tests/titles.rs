use jj_gh::config::DefaultTitleSource;
use jj_gh::restack_ui::{Key, KeyInput};
use jj_gh::title::{
    default_candidate, handle_title_key, parse_title_candidates, render_candidate, truncate,
    ListState, PickOutcome, TitleCandidate, TITLE_RECORD_CLOSE, TITLE_RECORD_OPEN,
    TITLE_RECORD_SEPARATOR,
};

fn candidate(title: &str) -> TitleCandidate {
    TitleCandidate {
        change_id: "abcdefgh".into(),
        title: title.into(),
    }
}

fn key(k: Key) -> KeyInput {
    KeyInput { key: k, ctrl: false }
}

#[test]
fn title_candidate_requires_single_nonempty_line() {
    let valid = TitleCandidate {
        change_id: "abcdefgh".into(),
        title: "  good title  ".into(),
    };
    assert_eq!(valid.valid_title(), Some("good title"));

    for title in ["", " \t ", "first\nsecond", "first\rsecond"] {
        let invalid = TitleCandidate {
            change_id: "abcdefgh".into(),
            title: title.into(),
        };
        assert!(invalid.valid_title().is_none());
    }
}

#[test]
fn parses_marker_delimited_title_candidates() {
    let rendered = format!(
        "{TITLE_RECORD_OPEN}abc{TITLE_RECORD_SEPARATOR}one{TITLE_RECORD_CLOSE}\
         {TITLE_RECORD_OPEN}def{TITLE_RECORD_SEPARATOR}two\nlines{TITLE_RECORD_CLOSE}"
    );
    let candidates = parse_title_candidates(&rendered).unwrap();
    assert_eq!(candidates.len(), 2);
    assert_eq!(candidates[0].change_id, "abc");
    assert_eq!(candidates[1].title, "two\nlines");
}

#[test]
fn rejects_empty_candidate_set() {
    assert!(parse_title_candidates("").is_err());
}

fn three() -> [TitleCandidate; 3] {
    [
        TitleCandidate {
            change_id: "first".into(),
            title: "First commit".into(),
        },
        TitleCandidate {
            change_id: "second".into(),
            title: "Second commit".into(),
        },
        TitleCandidate {
            change_id: "third".into(),
            title: "Third commit".into(),
        },
    ]
}

#[test]
fn title_source_base_selects_first_candidate() {
    let candidates = three();
    let candidate = default_candidate(DefaultTitleSource::Base, &candidates).unwrap();
    assert_eq!(candidate.change_id, "first");
    assert_eq!(candidate.title, "First commit");
}

#[test]
fn title_source_head_selects_last_candidate() {
    let candidates = three();
    let candidate = default_candidate(DefaultTitleSource::Head, &candidates).unwrap();
    assert_eq!(candidate.change_id, "third");
    assert_eq!(candidate.title, "Third commit");
}

#[test]
fn default_candidate_of_nothing_is_none() {
    assert!(default_candidate(DefaultTitleSource::Base, &[]).is_none());
}

#[test]
fn enter_does_not_select_invalid_candidate() {
    let mut state = ListState::default();
    let outcome = handle_title_key(&mut state, &[candidate("")], 20, key(Key::Enter));
    assert!(matches!(outcome, PickOutcome::Continue));
}

#[test]
fn enter_selects_trimmed_valid_candidate() {
    let mut state = ListState::default();
    let outcome = handle_title_key(&mut state, &[candidate(" title ")], 20, key(Key::Enter));
    assert!(matches!(outcome, PickOutcome::Select(title) if title == "title"));
}

#[test]
fn picker_moves_and_scrolls() {
    let cs = three();
    let mut state = ListState::default();
    assert_eq!(handle_title_key(&mut state, &cs, 2, key(Key::Char('j'))), PickOutcome::Continue);
    assert_eq!(handle_title_key(&mut state, &cs, 2, key(Key::Down)), PickOutcome::Continue);
    assert_eq!(state, ListState { selected: 2, scroll_offset: 1 });
    handle_title_key(&mut state, &cs, 2, key(Key::Down));
    assert_eq!(state.selected, 2);
    handle_title_key(&mut state, &cs, 2, key(Key::Char('g')));
    assert_eq!(state, ListState { selected: 0, scroll_offset: 0 });
    handle_title_key(&mut state, &cs, 2, key(Key::Char('G')));
    assert_eq!(state, ListState { selected: 2, scroll_offset: 1 });
    handle_title_key(&mut state, &cs, 2, key(Key::Up));
    assert_eq!(state, ListState { selected: 1, scroll_offset: 1 });
    assert_eq!(handle_title_key(&mut state, &cs, 2, key(Key::Char('q'))), PickOutcome::Abort);
    assert_eq!(handle_title_key(&mut state, &cs, 2, key(Key::Esc)), PickOutcome::Abort);
    let ctrl_c = KeyInput { key: Key::Char('c'), ctrl: true };
    assert_eq!(handle_title_key(&mut state, &cs, 2, ctrl_c), PickOutcome::Abort);
}

#[test]
fn invalid_rows_explain_empty_and_multiline_titles() {
    assert!(render_candidate(&candidate(""), 80, true).contains("(no description set)"));
    assert!(render_candidate(&candidate("a\nb"), 80, true).contains("(title must be one line)"));
}

#[test]
fn valid_rows_show_the_title() {
    let row = render_candidate(&candidate("hello"), 80, true);
    assert!(row.contains("abcdefgh"));
    assert!(row.contains("hello"));
}

#[test]
fn truncate_cuts_with_ellipsis() {
    assert_eq!(truncate("hello", 10), "hello");
    assert_eq!(truncate("hello world", 5), "hell…");
}

#[test]
fn rows_are_colored_only_when_colors_are_on() {
    let plain = render_candidate(&candidate("hello"), 80, false);
    assert_eq!(plain, "abcdefgh \u{2502} hello");
    let colored = render_candidate(&candidate("hello"), 80, true);
    assert_eq!(
        colored,
        "\u{1b}[38;5;14mabcdefgh\u{1b}[39m\u{1b}[38;5;8m \u{2502} \u{1b}[39mhello"
    );
}
