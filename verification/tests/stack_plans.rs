use jj_gh::gh::{PrDetails, PullRequestStack, StackPullRequest};
use jj_gh::stack_create::stack_exists;
use jj_gh::stack_plan::{format_chain, prs_to_unstack, short_sha, Plan};

fn stack(number: u64, prs: &[u64]) -> PullRequestStack {
    PullRequestStack {
        number,
        pull_requests: prs.iter().map(|&number| StackPullRequest { number }).collect(),
    }
}

fn pr(number: u64, stack_number: Option<u64>) -> PrDetails {
    PrDetails {
        number,
        head_ref: format!("branch-{number}"),
        head_sha: format!("sha{number}"),
        base_ref: "main".into(),
        title: format!("PR {number}"),
        html_url: format!("https://github.com/o/r/pull/{number}"),
        is_draft: false,
        auto_merge: false,
        auto_merge_method: None,
        head_user_login: None,
        head_repo_name: None,
        graphql_node_id: format!("node_{number}"),
        in_merge_queue: false,
        labels: vec![],
        reviewers: vec![],
        body: String::new(),
        stack_number,
    }
}

fn retargeting(numbers: &[u64]) -> Vec<u64> {
    numbers.to_vec()
}

#[test]
fn pr_that_lost_its_chain_is_unstacked() {
    let prs = [pr(2, Some(11)), pr(3, None)];
    assert_eq!(
        prs_to_unstack(&[], &prs, &[stack(11, &[2])], &retargeting(&[])),
        vec![2]
    );
}

#[test]
fn retargeted_pr_is_unstacked_even_when_its_stack_is_intact() {
    let prs = [pr(1, Some(7)), pr(2, Some(7))];
    let existing = [stack(7, &[1, 2])];
    assert_eq!(
        prs_to_unstack(&[vec![1, 2]], &prs, &existing, &retargeting(&[2])),
        vec![1, 2]
    );
}

#[test]
fn intact_stack_with_no_retargets_is_left_alone() {
    let prs = [pr(1, Some(7)), pr(2, Some(7))];
    let existing = [stack(7, &[1, 2])];
    assert!(prs_to_unstack(&[vec![1, 2]], &prs, &existing, &retargeting(&[])).is_empty());
}

#[test]
fn stack_whose_shape_drifted_is_unstacked() {
    let prs = [pr(1, Some(7)), pr(2, Some(7)), pr(3, None)];
    let existing = [stack(7, &[1, 2])];
    assert_eq!(
        prs_to_unstack(&[vec![1, 2, 3]], &prs, &existing, &retargeting(&[])),
        vec![1, 2]
    );
}

#[test]
fn stack_shared_with_a_non_local_pr_only_gives_up_its_local_members() {
    let prs = [pr(1, Some(7))];
    let existing = [stack(7, &[1, 99])];
    assert_eq!(
        prs_to_unstack(&[], &prs, &existing, &retargeting(&[])),
        vec![1]
    );
}

#[test]
fn chain_formats_bottom_to_top() {
    assert_eq!(format_chain(&[1, 2, 3]), "#1 → #2 → #3");
}

#[test]
fn existing_stack_matches_only_the_same_order() {
    let existing = [stack(7, &[1, 2, 3])];
    assert!(stack_exists(&existing, &[1, 2, 3]));
    assert!(!stack_exists(&existing, &[1, 3, 2]));
    assert!(!stack_exists(&existing, &[1, 2]));
    assert!(!stack_exists(&existing, &[1, 2, 3, 4]));
}

#[test]
fn empty_plan_is_recognized() {
    assert!(Plan::default().is_empty());
    assert!(!Plan {
        unstack: vec![9],
        ..Default::default()
    }
    .is_empty());
}

#[test]
fn short_sha_truncates_without_panicking_on_short_input() {
    assert_eq!(short_sha("0123456789abcdef"), "01234567");
    assert_eq!(short_sha("abc"), "abc");
}

#[test]
fn single_chain_format_has_no_arrow() {
    assert_eq!(format_chain(&[42]), "#42");
    assert_eq!(format_chain(&[]), "");
}

#[test]
fn unstack_keeps_only_local_members_in_pr_order() {
    // #5 is unstacked because its chain is gone; #6 belongs to no stack.
    let prs = [pr(6, None), pr(5, Some(3))];
    let existing = [stack(3, &[5, 8])];
    assert_eq!(prs_to_unstack(&[], &prs, &existing, &[]), vec![5]);
}

#[test]
fn chain_writes_unstack_then_retarget_then_create() {
    let plan = jj_gh::stack_create::ChainPlan {
        chain: vec![1, 2],
        already_exists: false,
        unstack: vec![jj_gh::stack_create::StackUnstack { stack_number: 9, members: vec![2] }],
        align: jj_gh::stack_create::AlignPlan {
            retargets: vec![jj_gh::stack_create::Retarget {
                pr_number: 2,
                pr_node_id: "N2".into(),
                base: "feat-1".into(),
            }],
            missing: None,
        },
    };
    assert_eq!(
        plan.writes(),
        vec![
            jj_gh::stack_create::StackWrite::Unstack { stack_number: 9, members: vec![2] },
            jj_gh::stack_create::StackWrite::Retarget {
                pr_number: 2,
                pr_node_id: "N2".into(),
                base: "feat-1".into()
            },
            jj_gh::stack_create::StackWrite::Create { chain: vec![1, 2] },
        ]
    );
    let mut missing = plan.clone();
    missing.align.missing = Some(3);
    assert_eq!(missing.writes().len(), 2);
    let mut existing = plan.clone();
    existing.already_exists = true;
    existing.unstack.clear();
    existing.align.retargets.clear();
    assert!(existing.writes().is_empty());
}
