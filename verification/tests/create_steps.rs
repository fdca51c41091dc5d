use jj_gh::create_flow::{create_next, CreateEvent, CreateStep};
use jj_gh::config::{AutoMergeMethod, DefaultTitleSource};
use jj_gh::create_flow::{
    base_revision, body_without_editor, check_base_exists, choose_base, covers_pr,
    create_request, created_frontmatter, default_title, diff_preview, heads_from_infos, initial_frontmatter, needs_base_lookup, pushed_branch, BaseChoice,
    CreateError,
};
use jj_gh::gh::{BaseLookup, PrDetails};
use jj_gh::jj::CommitInfo;
use jj_gh::title::TitleCandidate;

#[test]
fn base_precedence_is_cli_ancestor_trunk_fallback() {
    let c = choose_base(Some("cli"), Some("anc"), Some("main"), Some("cfg")).unwrap();
    assert_eq!(c, BaseChoice { branch: "cli".into(), local_rev: None });
    let c = choose_base(None, Some("anc"), Some("main"), Some("cfg")).unwrap();
    assert_eq!(c, BaseChoice { branch: "anc".into(), local_rev: Some("anc".into()) });
    let c = choose_base(None, None, Some("main"), Some("cfg")).unwrap();
    assert_eq!(c, BaseChoice { branch: "main".into(), local_rev: Some("trunk()".into()) });
    let c = choose_base(None, None, None, Some("cfg")).unwrap();
    assert_eq!(c, BaseChoice { branch: "cfg".into(), local_rev: None });
    let e = choose_base(None, None, None, None).unwrap_err();
    assert_eq!(e, CreateError::NoBase);
    assert!(e.message().starts_with("could not detect base branch"));
}

#[test]
fn missing_base_branch_is_reported_with_repo() {
    let lookup = BaseLookup { repo_node_id: "R".into(), branch_exists: false };
    let e = check_base_exists(&lookup, "dev", "o", "r").unwrap_err();
    assert_eq!(e.message(), "base branch `dev` does not exist on o/r");
    let ok = BaseLookup { repo_node_id: "R".into(), branch_exists: true };
    assert!(check_base_exists(&ok, "dev", "o", "r").is_ok());
}

#[test]
fn base_revision_prefers_local_then_remote() {
    let local = BaseChoice { branch: "a".into(), local_rev: Some("a".into()) };
    assert_eq!(base_revision(&local, Some("sha".into()), "origin").unwrap(), "a");
    let remote = BaseChoice { branch: "dev".into(), local_rev: None };
    assert_eq!(base_revision(&remote, Some("sha".into()), "origin").unwrap(), "sha");
    let e = base_revision(&remote, None, "origin").unwrap_err();
    assert_eq!(
        e.message(),
        "base branch `dev` exists on GitHub, but the local repository does not have `dev@origin`; fetch that remote and try again"
    );
}

#[test]
fn default_title_reports_which_end() {
    let cands = vec![
        TitleCandidate { change_id: "a".into(), title: "  first  ".into() },
        TitleCandidate { change_id: "b".into(), title: "two\nlines".into() },
    ];
    assert_eq!(default_title(&cands, DefaultTitleSource::Base).unwrap(), "first");
    let e = default_title(&cands, DefaultTitleSource::Head).unwrap_err();
    assert_eq!(e.message(), "newest commit produced an invalid PR title");
    assert_eq!(default_title(&[], DefaultTitleSource::Base).unwrap_err(), CreateError::NoCommits);
}

#[test]
fn diff_preview_drops_blank_diffs() {
    assert_eq!(diff_preview(None), None);
    assert_eq!(diff_preview(Some("  \n ")), None);
    assert_eq!(diff_preview(Some("\n+ a\n")), Some("+ a".to_string()));
}

#[test]
fn frontmatter_before_and_after_creation() {
    let fm = initial_frontmatter("T".into(), "main".into(), true, true, AutoMergeMethod::Squash);
    assert_eq!(fm.title, "T");
    assert!(fm.labels.is_empty() && fm.draft && fm.auto_merge);
    let created = created_frontmatter(&fm);
    assert_eq!(created.title, "T");
    assert_eq!(created.base, "main");
    assert!(created.draft);
    assert!(!created.auto_merge);
    assert_eq!(created.auto_merge_method, AutoMergeMethod::Squash);
    let req = create_request(
        &fm,
        "body",
        &BaseLookup { repo_node_id: "R".into(), branch_exists: true },
        "me:b".into(),
        "main".into(),
    );
    assert_eq!(req.title, "T");
    assert_eq!(req.body, "body");
    assert_eq!(req.repo_node_id, "R");
    assert_eq!(req.head, "me:b");
    assert!(req.draft);
}

#[test]
fn editor_less_body_and_second_lookup() {
    assert_eq!(body_without_editor(None), "");
    assert_eq!(body_without_editor(Some("x".into())), "x");
    assert!(needs_base_lookup("dev", "main"));
    assert!(!needs_base_lookup("main", "main"));
}

#[test]
fn pushed_branch_comes_from_existing_or_push() {
    assert_eq!(pushed_branch(Some("b".into()), &[], "@").unwrap(), "b");
    assert_eq!(pushed_branch(None, &["push-x".into(), "y".into()], "@").unwrap(), "push-x");
    let e = pushed_branch(None, &[], "@-").unwrap_err();
    assert_eq!(e.message(), "`jj git push -c @-` did not create a bookmark");
}

#[test]
fn heads_pair_bookmarks_with_commits() {
    let infos = vec![
        CommitInfo { change_id: "c1".into(), commit_id: "x1".into(), description: String::new(), bookmarks: vec!["b1".into(), "b1b".into()] },
        CommitInfo { change_id: "c2".into(), commit_id: "x2".into(), description: String::new(), bookmarks: vec![] },
    ];
    assert_eq!(heads_from_infos(&infos), vec![("b1".to_string(), "x1".to_string())]);
}

fn details(number: u64) -> PrDetails {
    PrDetails {
        is_draft: false,
        auto_merge: false,
        auto_merge_method: None,
        number,
        title: String::new(),
        html_url: String::new(),
        head_ref: String::new(),
        head_sha: String::new(),
        base_ref: String::new(),
        head_user_login: None,
        head_repo_name: None,
        graphql_node_id: String::new(),
        in_merge_queue: false,
        labels: vec![],
        reviewers: vec![],
        body: String::new(),
        stack_number: None,
    }
}

#[test]
fn covers_pr_finds_numbers() {
    let ds = vec![details(3), details(5)];
    assert!(covers_pr(&ds, 5));
    assert!(!covers_pr(&ds, 4));
}

#[test]
fn create_steps_run_checks_before_push_and_open() {
    let mut s = create_next(CreateStep::Resolve, CreateEvent::Resolved { has_bookmark: true });
    assert_eq!(s, CreateStep::FindExisting);
    s = create_next(s, CreateEvent::NoOpenPr);
    assert_eq!(s, CreateStep::VerifyBase);
    s = create_next(s, CreateEvent::PushDone);
    assert_eq!(s, CreateStep::VerifyBase);
    s = create_next(s, CreateEvent::BaseFound);
    assert_eq!(s, CreateStep::Compose);
    s = create_next(s, CreateEvent::Composed { base_changed: true });
    assert_eq!(s, CreateStep::VerifyComposedBase);
    s = create_next(s, CreateEvent::BaseFound);
    assert_eq!(s, CreateStep::Push);
    s = create_next(s, CreateEvent::PrOpened);
    assert_eq!(s, CreateStep::Push);
    s = create_next(s, CreateEvent::PushDone);
    assert_eq!(s, CreateStep::OpenPr);
    s = create_next(s, CreateEvent::PrOpened);
    assert_eq!(s, CreateStep::ApplyMetadata);
    s = create_next(s, CreateEvent::MetadataApplied);
    assert_eq!(s, CreateStep::Created);
}

#[test]
fn create_steps_stop_at_an_open_pr_or_a_missing_base() {
    let mut s = create_next(CreateStep::Resolve, CreateEvent::Resolved { has_bookmark: true });
    s = create_next(s, CreateEvent::OpenPrFound);
    assert_eq!(s, CreateStep::AlreadyOpen);
    for e in [CreateEvent::NoOpenPr, CreateEvent::BaseFound, CreateEvent::PushDone, CreateEvent::PrOpened] {
        s = create_next(s, e);
        assert_eq!(s, CreateStep::AlreadyOpen);
    }
    let mut s = create_next(CreateStep::Resolve, CreateEvent::Resolved { has_bookmark: false });
    assert_eq!(s, CreateStep::VerifyBase);
    s = create_next(s, CreateEvent::BaseNotFound);
    assert_eq!(s, CreateStep::BaseMissing);
    s = create_next(s, CreateEvent::PushDone);
    assert_eq!(s, CreateStep::BaseMissing);
    let s = create_next(CreateStep::Compose, CreateEvent::Composed { base_changed: false });
    assert_eq!(s, CreateStep::Push);
}
