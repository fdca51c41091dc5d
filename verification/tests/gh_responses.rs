use jj_gh::ci::{CheckConclusionState, CheckContext, CheckStatusState, StatusState};
use jj_gh::config::AutoMergeMethod;
use jj_gh::gh::{CiStatus, Label};
use jj_gh::gh_response::{
    auto_merge_method, count_contexts_page, extract_pr_partials, labels_from_nodes, pr_details_from_node,
    reviewers_from_requests, HeadRepository, MergeMethod, PrSearchNode, PullRequestNode,
    RequestedReviewer, ResponseError, SearchNode, StatusCheckRollup,
};

fn label(name: &str, id: &str) -> Label {
    Label { name: name.to_string(), node_id: id.to_string() }
}

fn node(number: i64) -> PullRequestNode {
    PullRequestNode {
        id: "PR_1".into(),
        number,
        title: "Add thing".into(),
        url: "https://github.com/o/r/pull/7".into(),
        head_ref_name: "feature".into(),
        base_ref_name: "main".into(),
        head_ref_oid: "abc123".into(),
        has_merge_queue: true,
        head_repository: Some(HeadRepository { owner_login: "fork".into(), name: "r2".into() }),
        labels: Some(vec![Some(label("bug", "L1")), None, Some(label("ui", "L2"))]),
        is_draft: true,
        auto_merge_request: Some(MergeMethod::Squash),
        review_requests: Some(vec![
            Some(Some(RequestedReviewer::User("alice".into()))),
            Some(None),
            None,
            Some(Some(RequestedReviewer::Team("org/core".into()))),
            Some(Some(RequestedReviewer::Team("a/b/c".into()))),
            Some(Some(RequestedReviewer::Bot("  ".into()))),
        ]),
        body: "body text".into(),
        stack_number: None,
    }
}

#[test]
fn details_copy_fields_and_drop_unparseable_approvers() {
    let d = pr_details_from_node("o", "r", 7, Some(node(7))).unwrap();
    assert_eq!(d.number, 7);
    assert_eq!(d.title, "Add thing");
    assert!(d.is_draft);
    assert!(d.in_merge_queue);
    assert_eq!(d.head_user_login.as_deref(), Some("fork"));
    assert_eq!(d.head_repo_name.as_deref(), Some("r2"));
    assert_eq!(d.labels, vec![label("bug", "L1"), label("ui", "L2")]);
    assert!(d.auto_merge);
    assert_eq!(d.auto_merge_method, Some(AutoMergeMethod::Squash));
    let slugs: Vec<&str> = d.reviewers.iter().map(|r| r.slug()).collect();
    assert_eq!(slugs, vec!["alice", "org/core"]);
    assert_eq!(d.body, "body text");
}

#[test]
fn missing_pr_is_not_found() {
    let e = pr_details_from_node("o", "r", 9, None).unwrap_err();
    assert_eq!(e.message(), "PR #9 not found on o/r");
}

#[test]
fn negative_number_is_out_of_range() {
    let e = pr_details_from_node("o", "r", 9, Some(node(-1))).unwrap_err();
    assert_eq!(e, ResponseError::NumberOutOfRange);
    assert_eq!(e.message(), "PR number out of range");
}

#[test]
fn unknown_merge_method_still_counts_as_auto_merge() {
    assert_eq!(auto_merge_method(Some(MergeMethod::Other)), None);
    assert_eq!(auto_merge_method(Some(MergeMethod::Rebase)), Some(AutoMergeMethod::Rebase));
    let mut n = node(3);
    n.auto_merge_request = Some(MergeMethod::Other);
    let d = pr_details_from_node("o", "r", 3, Some(n)).unwrap();
    assert!(d.auto_merge);
    assert_eq!(d.auto_merge_method, None);
}

#[test]
fn missing_lists_mean_none() {
    assert!(labels_from_nodes(None).is_empty());
    assert!(reviewers_from_requests(None).is_empty());
}

fn search_node(number: i64, rollup: Option<StatusCheckRollup>) -> PrSearchNode {
    PrSearchNode {
        id: format!("N{number}"),
        number,
        url: format!("https://github.com/o/r/pull/{number}"),
        title: "t".into(),
        head_ref_name: "h".into(),
        head_ref_oid: "sha".into(),
        base_ref_name: "main".into(),
        is_draft: false,
        merged: false,
        is_in_merge_queue: false,
        status_check_rollup: rollup,
        auto_merge_request: Some(Some("2024-01-01".into())),
    }
}

#[test]
fn partials_keep_only_pull_requests_and_count_first_page() {
    let rollup = StatusCheckRollup {
        state: StatusState::Failure,
        contexts: Some(vec![
            Some(CheckContext::CheckRun {
                status: CheckStatusState::Completed,
                conclusion: Some(CheckConclusionState::Success),
            }),
            Some(CheckContext::CheckRun {
                status: CheckStatusState::Completed,
                conclusion: Some(CheckConclusionState::TimedOut),
            }),
            None,
            Some(CheckContext::StatusContext { state: StatusState::Pending }),
        ]),
        has_next_page: true,
        end_cursor: Some("CUR".into()),
    };
    let parts = extract_pr_partials(Some(vec![
        Some(SearchNode::PullRequest(search_node(1, Some(rollup)))),
        None,
        Some(SearchNode::Other),
        Some(SearchNode::PullRequest(search_node(2, None))),
    ]));
    assert_eq!(parts.len(), 2);
    assert_eq!(parts[0].pr.number, 1);
    assert_eq!(parts[0].pr.ci_status, CiStatus::Failed);
    assert_eq!((parts[0].pr.ci_counts.passed, parts[0].pr.ci_counts.failed, parts[0].pr.ci_counts.pending), (1, 1, 1));
    assert_eq!(parts[0].next_after.as_deref(), Some("CUR"));
    assert!(parts[0].pr.auto_merge_enabled);
    assert_eq!(parts[1].pr.number, 2);
    assert_eq!(parts[1].pr.ci_status, CiStatus::NoChecks);
    assert_eq!(parts[1].pr.ci_counts.total(), 0);
    assert_eq!(parts[1].next_after, None);
}

#[test]
fn no_search_results_means_no_partials() {
    assert!(extract_pr_partials(None).is_empty());
}

#[test]
fn follow_up_page_counts_and_cursor() {
    let page = StatusCheckRollup {
        state: StatusState::Success,
        contexts: Some(vec![
            Some(CheckContext::CheckRun { status: CheckStatusState::Running, conclusion: None }),
            Some(CheckContext::StatusContext { state: StatusState::Error }),
            Some(CheckContext::StatusContext { state: StatusState::Other }),
        ]),
        has_next_page: false,
        end_cursor: Some("IGNORED".into()),
    };
    let (counts, next) = count_contexts_page(Some(page));
    assert_eq!((counts.pending, counts.failed, counts.passed), (1, 1, 0));
    assert_eq!(next, None);
    let (counts, next) = count_contexts_page(None);
    assert_eq!(counts.total(), 0);
    assert_eq!(next, None);
}

#[test]
fn page_counts_add_up_to_counting_everything() {
    let a = vec![
        Some(CheckContext::StatusContext { state: StatusState::Success }),
        Some(CheckContext::CheckRun { status: CheckStatusState::Completed, conclusion: Some(CheckConclusionState::Failure) }),
    ];
    let b = vec![
        None,
        Some(CheckContext::CheckRun { status: CheckStatusState::Running, conclusion: None }),
        Some(CheckContext::StatusContext { state: StatusState::Success }),
    ];
    let all: Vec<Option<CheckContext>> = a.iter().chain(b.iter()).cloned().collect();
    let (ca, _) = jj_gh::ci::count_contexts(&a, false, None);
    let (cb, _) = jj_gh::ci::count_contexts(&b, false, None);
    let (call, _) = jj_gh::ci::count_contexts(&all, false, None);
    let mut sum = ca;
    sum.add_assign(cb);
    assert_eq!((sum.pending, sum.failed, sum.passed), (call.pending, call.failed, call.passed));
    assert_eq!((call.pending, call.failed, call.passed), (1, 1, 2));
}
