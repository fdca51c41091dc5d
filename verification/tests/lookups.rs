use jj_gh::config::AutoMergeMethod;
use jj_gh::edit_flow::{edit_frontmatter, label_ids, validate_edit, EditError};
use jj_gh::frontmatter::Frontmatter;
use jj_gh::gh::{Label, PrDetails, PrSummary};
use jj_gh::lookup::{
    choose_remote, lookup_branch, parse_pr_number, require_open_pr, require_remote_url,
    require_trunk, upstream_remote_name, LookupError,
};
use jj_gh::remote::target;
use jj_gh::restack::{Decision, PrPlan};
use jj_gh::restack_ui::{
    browse_status_text, keymap_padding, picker_status_text, summary_base, summary_rows,
    summary_status_text, PickerState,
};

fn fm(title: &str, base: &str) -> Frontmatter {
    Frontmatter {
        title: title.into(),
        base: base.into(),
        labels: vec![],
        reviewers: vec![],
        draft: false,
        auto_merge: false,
        auto_merge_method: AutoMergeMethod::Merge,
    }
}

#[test]
fn edit_checks_in_order() {
    assert_eq!(validate_edit(&fm("t", "main"), "", false), Err(EditError::EmptyBody));
    assert_eq!(validate_edit(&fm("t", "main"), "", true), Ok(2));
    assert_eq!(validate_edit(&fm(" ", "main"), "b", false), Err(EditError::TitleEmpty));
    assert_eq!(validate_edit(&fm("t", " "), "b", false), Err(EditError::BaseEmpty));
    assert_eq!(validate_edit(&fm("t", "main"), "  ", false), Err(EditError::EmptyBody));
    assert_eq!(validate_edit(&fm("t", "main"), "  ", true), Ok(1));
    assert_eq!(validate_edit(&fm("t", "main"), "body", false), Ok(0));
    assert!(EditError::EmptyBody.message().contains("Pass `--force` to override."));
}

fn details() -> PrDetails {
    PrDetails {
        is_draft: true,
        auto_merge: false,
        auto_merge_method: None,
        number: 5,
        title: "Title".into(),
        html_url: String::new(),
        head_ref: "feat".into(),
        head_sha: String::new(),
        base_ref: "main".into(),
        head_user_login: None,
        head_repo_name: None,
        graphql_node_id: "N".into(),
        in_merge_queue: false,
        labels: vec![Label { name: "bug".into(), node_id: "L1".into() }],
        reviewers: vec![],
        body: String::new(),
        stack_number: None,
    }
}

#[test]
fn edit_starts_from_the_pr() {
    let t = target("git@github.com:me/r.git", Some("git@github.com:up/r.git")).unwrap();
    let f = edit_frontmatter(&details(), &t);
    assert_eq!(f.title, "Title");
    assert_eq!(f.base, "up:main");
    assert_eq!(f.labels, vec!["bug".to_string()]);
    assert!(f.draft);
    assert_eq!(f.auto_merge_method, AutoMergeMethod::Merge);
    assert_eq!(label_ids(&details().labels), vec![("bug".to_string(), "L1".to_string())]);
}

#[test]
fn pr_numbers_parse_like_u64() {
    assert_eq!(parse_pr_number("42"), Some(42));
    assert_eq!(parse_pr_number("+7"), Some(7));
    assert_eq!(parse_pr_number("18446744073709551615"), Some(u64::MAX));
    assert_eq!(parse_pr_number("18446744073709551616"), None);
    assert_eq!(parse_pr_number(""), None);
    assert_eq!(parse_pr_number("+"), None);
    assert_eq!(parse_pr_number("@-"), None);
    assert_eq!(parse_pr_number("12a"), None);
    assert_eq!(parse_pr_number("-1"), None);
}

#[test]
fn remotes_resolve_by_precedence() {
    assert_eq!(choose_remote(Some("a"), Some("b"), Some("c")), Some("a".to_string()));
    assert_eq!(choose_remote(None, Some("b"), Some("c")), Some("b".to_string()));
    assert_eq!(choose_remote(None, None, Some("c")), Some("c".to_string()));
    assert_eq!(choose_remote(None, None, None), None);
    assert_eq!(upstream_remote_name(None), "upstream");
    assert_eq!(upstream_remote_name(Some("fork")), "fork");
}

#[test]
fn lookup_errors_name_what_is_missing() {
    assert_eq!(lookup_branch(&["b".into()], "@").unwrap(), "b");
    assert_eq!(lookup_branch(&[], "@").unwrap_err().message(), "no local bookmark on `@`; nothing to look up");
    assert_eq!(require_remote_url(None, "origin").unwrap_err().message(), "`origin` remote is not configured");
    assert_eq!(require_trunk(None).unwrap_err(), LookupError::NoTrunk);
    assert_eq!(require_trunk(Some("main".into())).unwrap(), "main");
    let e = require_open_pr(None, "@", "me:b").unwrap_err();
    assert_eq!(e.message(), "no open PR for revision `@` (head `me:b`)");
    let s = PrSummary { number: 3, html_url: String::new(), title: String::new(), state: String::new() };
    assert_eq!(require_open_pr(Some(s), "@", "h").unwrap().number, 3);
}

fn plan(current: &str, proposed: &str) -> PrPlan {
    PrPlan {
        pr_number: 4,
        pr_node_id: "N".into(),
        title: "T".into(),
        bookmark: "bm".into(),
        local_commit_id: String::new(),
        current_base: current.into(),
        proposed_base: proposed.into(),
    }
}

#[test]
fn status_lines_and_padding() {
    assert_eq!(keymap_padding(10, 5, 20), Some(5));
    assert_eq!(keymap_padding(10, 5, 16), None);
    assert_eq!(keymap_padding(10, 5, 17), Some(2));
    let p = plan("main", "dev");
    assert_eq!(browse_status_text(1, 3, &p, "T", &Decision::Unset), "[1/3] #4 T  dev ← bm [unset]");
    assert_eq!(summary_base(&Decision::Confirm, &p), ("dev", true));
    assert_eq!(summary_base(&Decision::Skip, &p), ("main", false));
    assert_eq!(summary_rows(3, 0, 10), 5);
    assert_eq!(summary_rows(3, 4, 10), 1);
    assert_eq!(summary_rows(3, 9, 10), 0);
    let picker = PickerState { target_pr: 4, input: "fe".into(), selected: 0, candidates: vec![] };
    assert_eq!(picker_status_text(&picker), "edit #4: fe_  -> (no candidate)");
    assert_eq!(summary_status_text(2), "summary  (2 change(s) ready)");
}
