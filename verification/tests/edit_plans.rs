use jj_gh::config::AutoMergeMethod;
use jj_gh::editor::{plan_frontmatter_diff, ApplyChangesCtx, AutoMergeAction};
use jj_gh::frontmatter::Frontmatter;
use jj_gh::reviewer::Reviewer;

fn ctx(merge_queue: bool) -> ApplyChangesCtx {
    ApplyChangesCtx {
        owner: "o".into(),
        repo: "r".into(),
        pr_number: 7,
        pr_node_id: "PR_7".into(),
        has_merge_queue: merge_queue,
        before_label_ids: vec![("bug".into(), "L_bug".into()), ("ui".into(), "L_ui".into())],
    }
}

fn fm() -> Frontmatter {
    Frontmatter {
        title: "Title".into(),
        base: "main".into(),
        labels: vec!["bug".into(), "ui".into()],
        reviewers: vec![Reviewer::parse("alice").unwrap()],
        draft: false,
        auto_merge: false,
        auto_merge_method: AutoMergeMethod::Merge,
    }
}

#[test]
fn unchanged_edit_plans_nothing() {
    let before = fm();
    let plan = plan_frontmatter_diff(&ctx(false), &before, "body", &before, "body").unwrap();
    assert!(plan.update.is_noop());
    assert_eq!(plan.update.pr_node_id, "PR_7");
    assert_eq!(plan.set_draft, None);
    assert!(plan.labels_added.is_empty());
    assert!(plan.labels_removed_ids.is_empty());
    assert!(plan.reviewers_added.is_empty());
    assert!(plan.reviewers_removed.is_empty());
    assert_eq!(plan.auto_merge, AutoMergeAction::Keep);
}

#[test]
fn only_changed_text_fields_are_sent() {
    let before = fm();
    let mut after = fm();
    after.title = "New title".into();
    after.base = "o:develop".into();
    let plan = plan_frontmatter_diff(&ctx(false), &before, "body", &after, "body").unwrap();
    assert_eq!(plan.update.title.as_deref(), Some("New title"));
    assert_eq!(plan.update.body, None);
    assert_eq!(plan.update.base_ref_name.as_deref(), Some("develop"));
}

#[test]
fn same_branch_written_with_owner_is_no_base_change() {
    let before = fm();
    let mut after = fm();
    after.base = "o:main".into();
    let plan = plan_frontmatter_diff(&ctx(false), &before, "a", &after, "b").unwrap();
    assert_eq!(plan.update.base_ref_name, None);
    assert_eq!(plan.update.body.as_deref(), Some("b"));
}

#[test]
fn labels_and_approvers_by_difference() {
    let before = fm();
    let mut after = fm();
    after.labels = vec!["ui".into(), "docs".into()];
    after.reviewers = vec![Reviewer::parse("org/core").unwrap()];
    after.draft = true;
    let plan = plan_frontmatter_diff(&ctx(false), &before, "b", &after, "b").unwrap();
    assert_eq!(plan.labels_added, vec!["docs".to_string()]);
    assert_eq!(plan.labels_removed_ids, vec!["L_bug".to_string()]);
    let added: Vec<&str> = plan.reviewers_added.iter().map(|r| r.slug()).collect();
    let removed: Vec<&str> = plan.reviewers_removed.iter().map(|r| r.slug()).collect();
    assert_eq!(added, vec!["org/core"]);
    assert_eq!(removed, vec!["alice"]);
    assert_eq!(plan.set_draft, Some(true));
}

#[test]
fn auto_merge_transitions() {
    let before = fm();
    let mut on = fm();
    on.auto_merge = true;
    on.auto_merge_method = AutoMergeMethod::Squash;
    let enable = plan_frontmatter_diff(&ctx(false), &before, "b", &on, "b").unwrap();
    assert_eq!(enable.auto_merge, AutoMergeAction::Enable(AutoMergeMethod::Squash));
    let queued = plan_frontmatter_diff(&ctx(true), &before, "b", &on, "b").unwrap();
    assert_eq!(queued.auto_merge, AutoMergeAction::MergeQueueRefused);
    let disable = plan_frontmatter_diff(&ctx(false), &on, "b", &before, "b").unwrap();
    assert_eq!(disable.auto_merge, AutoMergeAction::Disable);
    let mut rebase = on.clone();
    rebase.auto_merge_method = AutoMergeMethod::Rebase;
    let reenable = plan_frontmatter_diff(&ctx(false), &on, "b", &rebase, "b").unwrap();
    assert_eq!(reenable.auto_merge, AutoMergeAction::Reenable(AutoMergeMethod::Rebase));
}

#[test]
fn base_of_another_owner_is_refused() {
    let before = fm();
    let mut after = fm();
    after.base = "someone:main".into();
    let err = plan_frontmatter_diff(&ctx(false), &before, "b", &after, "b").unwrap_err();
    assert_eq!(err.message(), "base owner `someone` does not match PR target owner `o`");
}
