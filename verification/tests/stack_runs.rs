use jj_gh::gh::{PrDetails, PullRequestStack, StackPullRequest};
use jj_gh::stack_create::{ChainOutcome, ChainResult};
use jj_gh::stack_detect::BasePlan;
use jj_gh::stack_plan::{Plan, PushPlan};
use jj_gh::stack_run::{
    apply_advance, apply_begin, apply_writes, assign_stack_numbers, link_plans, plan_apply, stack_result_line,
    unstacked_numbers, ApplyProgress, ApplyWrite,
};

fn stack(number: u64, prs: &[u64]) -> PullRequestStack {
    PullRequestStack { number, pull_requests: prs.iter().map(|&number| StackPullRequest { number }).collect() }
}

fn pr(number: u64, base: &str, stack_number: Option<u64>) -> PrDetails {
    PrDetails {
        number,
        head_ref: format!("branch-{number}"),
        head_sha: format!("sha{number}"),
        base_ref: base.into(),
        title: format!("PR {number}"),
        html_url: format!("https://github.com/o/r/pull/{number}"),
        is_draft: false,
        auto_merge: false,
        auto_merge_method: None,
        head_user_login: None,
        head_repo_name: None,
        graphql_node_id: format!("node_{number}"),
        in_merge_queue: false,
        labels: vec![],
        reviewers: vec![],
        body: String::new(),
        stack_number,
    }
}

#[test]
fn unstacked_numbers_come_out_in_increasing_order() {
    let prs = vec![pr(9, "main", Some(11)), pr(1, "main", Some(7)), pr(2, "branch-1", Some(7)), pr(10, "main", None)];
    assert_eq!(unstacked_numbers(&[1, 2, 9, 10], &prs), vec![1, 2, 9]);
    let prs = vec![pr(2, "branch-1", Some(11))];
    assert_eq!(unstacked_numbers(&[2, 99], &prs), vec![2]);
}

#[test]
fn apply_writes_push_then_unstack_then_retarget_then_stack() {
    let prs = vec![pr(1, "main", Some(7)), pr(2, "main", Some(7))];
    let existing = vec![stack(7, &[2, 1])];
    let plan = Plan {
        pushes: vec![PushPlan {
            bookmark: "branch-2".into(),
            local_commit_id: "c2".into(),
            remote_commit_id: None,
        }],
        bases: vec![BasePlan {
            pr_number: 2,
            pr_node_id: "node_2".into(),
            title: "PR 2".into(),
            bookmark: "branch-2".into(),
            local_commit_id: "c2".into(),
            current_base: "main".into(),
            proposed_base: "branch-1".into(),
        }],
        chains: vec![vec![1, 2]],
        unstack: vec![2, 1],
    };
    let decided = plan_apply(&plan, prs, existing);
    assert_eq!(decided.unstacked, vec![1, 2]);
    assert!(decided.stacks.is_empty());
    assert_eq!(decided.details[1].base_ref, "branch-1");
    assert_eq!(decided.details[0].stack_number, None);
    assert_eq!(
        apply_writes(&plan, &decided),
        vec![
            ApplyWrite::Push { bookmark: "branch-2".into(), local_commit_id: "c2".into() },
            ApplyWrite::Unstack { stack_number: 7, members: vec![1, 2] },
            ApplyWrite::Retarget { pr_number: 2, pr_node_id: "node_2".into(), base: "branch-1".into() },
            ApplyWrite::CreateStack { chain: vec![1, 2] },
        ]
    );
}

#[test]
fn apply_writes_stop_at_a_chain_member_without_details() {
    let prs = vec![pr(1, "main", None)];
    let plan = Plan { pushes: vec![], bases: vec![], chains: vec![vec![1, 5], vec![1, 6]], unstack: vec![] };
    let decided = plan_apply(&plan, prs, vec![]);
    assert_eq!(apply_writes(&plan, &decided), vec![ApplyWrite::MissingMember { pr_number: 5 }]);
}

#[test]
fn link_plans_cover_each_local_chain() {
    let prs = vec![pr(1, "main", None), pr(2, "branch-1", None)];
    let ancestors = vec![None, Some("branch-1".to_string())];
    let plans = link_plans(&prs, &ancestors, &[]);
    assert_eq!(plans.len(), 1);
    assert_eq!(plans[0].chain, vec![1, 2]);
    assert!(!plans[0].already_exists);
    let plans = link_plans(&prs, &ancestors, &[stack(4, &[1, 2])]);
    assert!(plans[0].already_exists);
    assert!(plans[0].writes().is_empty());
}

#[test]
fn sending_stops_at_the_first_failed_write() {
    assert_eq!(apply_begin(0), ApplyProgress::Done);
    let p = apply_begin(2);
    assert_eq!(p, ApplyProgress::Next(0));
    let p = apply_advance(p, 2, true);
    assert_eq!(p, ApplyProgress::Next(1));
    assert_eq!(apply_advance(p, 2, true), ApplyProgress::Done);
    let p = apply_advance(p, 2, false);
    assert_eq!(p, ApplyProgress::Failed(1));
    assert_eq!(apply_advance(p, 2, true), ApplyProgress::Failed(1));
}

#[test]
fn stack_numbers_come_from_the_listed_stacks() {
    let mut prs = vec![pr(1, "main", None), pr(2, "branch-1", None), pr(3, "main", Some(9))];
    assign_stack_numbers(&mut prs, &[stack(4, &[1, 2])]);
    assert_eq!(prs.iter().map(|p| p.stack_number).collect::<Vec<_>>(), vec![Some(4), Some(4), None]);
}

#[test]
fn stack_results_read_as_reported() {
    let created = ChainResult { chain: vec![1, 2], outcome: ChainOutcome::Created(5), retargeted: vec![] };
    assert_eq!(stack_result_line(&created), "OK  stack #5 created: #1 \u{2192} #2");
    let exists = ChainResult { chain: vec![3, 4], outcome: ChainOutcome::AlreadyExists, retargeted: vec![] };
    assert_eq!(stack_result_line(&exists), "OK  stack already exists: #3 \u{2192} #4");
}

#[test]
fn url_path_loses_its_leading_slashes() {
    assert_eq!(jj_gh::remote_url::path_after_url("//o/r.git"), "o/r.git");
    assert_eq!(jj_gh::remote_url::path_after_url("o/r"), "o/r");
}

#[test]
fn token_source_from_split_words() {
    let r = jj_gh::auth::token_source_from_words(None, Some(None), Some("t"), None, None, false);
    assert!(r.is_err());
    let r = jj_gh::auth::token_source_from_words(None, Some(Some(vec![])), Some("t"), None, None, false);
    assert!(matches!(r, Ok(jj_gh::auth::TokenSource::JjGhToken(t)) if t == "t"));
    let words = vec!["helper".to_string(), "--token".to_string()];
    let r = jj_gh::auth::token_source_from_words(None, Some(Some(words.clone())), Some("t"), None, None, false);
    assert!(matches!(r, Ok(jj_gh::auth::TokenSource::EnvAskpass(w)) if w == words));
}
