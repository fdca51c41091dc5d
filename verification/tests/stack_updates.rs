use jj_gh::gh::{PrDetails, PullRequestStack, StackPullRequest};
use jj_gh::jj::PushedBookmark;
use jj_gh::jj_output::{commit_id_from_output, sorted_unique_bookmarks, stacked_ancestor_revset};
use jj_gh::stack_apply::{confirmed, mirror_retarget, mirror_unstack, needs_push, retarget_update};
use jj_gh::stack_detect::BasePlan;

fn pr(number: u64, stack: Option<u64>) -> PrDetails {
    PrDetails {
        is_draft: false,
        auto_merge: false,
        auto_merge_method: None,
        number,
        title: String::new(),
        html_url: String::new(),
        head_ref: format!("h{number}"),
        head_sha: String::new(),
        base_ref: "main".into(),
        head_user_login: None,
        head_repo_name: None,
        graphql_node_id: String::new(),
        in_merge_queue: false,
        labels: vec![],
        reviewers: vec![],
        body: String::new(),
        stack_number: stack,
    }
}

fn stack(number: u64, prs: &[u64]) -> PullRequestStack {
    PullRequestStack {
        number,
        pull_requests: prs.iter().map(|&number| StackPullRequest { number }).collect(),
    }
}

#[test]
fn unstack_is_mirrored_locally() {
    let mut prs = vec![pr(1, Some(7)), pr(2, Some(7)), pr(3, Some(8))];
    let mut stacks = vec![stack(7, &[1, 2]), stack(8, &[3, 4])];
    mirror_unstack(&mut prs, &mut stacks, &[1]);
    assert_eq!(prs[0].stack_number, None);
    assert_eq!(prs[1].stack_number, Some(7));
    assert_eq!(prs[2].stack_number, Some(8));
    assert_eq!(stacks, vec![stack(8, &[3, 4])]);
}

#[test]
fn retarget_is_mirrored_on_the_first_match() {
    let mut prs = vec![pr(1, None), pr(2, None)];
    mirror_retarget(&mut prs, 2, "dev");
    assert_eq!(prs[0].base_ref, "main");
    assert_eq!(prs[1].base_ref, "dev");
    mirror_retarget(&mut prs, 9, "x");
    assert_eq!(prs[1].base_ref, "dev");
}

#[test]
fn retarget_update_sets_only_the_base() {
    let b = BasePlan {
        pr_number: 1,
        pr_node_id: "NODE".into(),
        title: String::new(),
        bookmark: String::new(),
        local_commit_id: String::new(),
        current_base: "main".into(),
        proposed_base: "dev".into(),
    };
    let u = retarget_update(&b);
    assert_eq!(u.pr_node_id, "NODE");
    assert_eq!(u.base_ref_name.as_deref(), Some("dev"));
    assert!(u.title.is_none() && u.body.is_none());
}

#[test]
fn push_needed_only_when_remote_differs() {
    assert!(needs_push(None, "abc"));
    assert!(needs_push(Some("def"), "abc"));
    assert!(!needs_push(Some("abc"), "abc"));
}

#[test]
fn confirmation_accepts_y_and_yes() {
    assert!(confirmed("y\n"));
    assert!(confirmed("  YES "));
    assert!(!confirmed("n"));
    assert!(!confirmed(""));
}

#[test]
fn jj_answers_are_read() {
    assert_eq!(stacked_ancestor_revset("@"), "ancestors((@)-) & bookmarks()");
    assert_eq!(commit_id_from_output("abc\n"), Some("abc".to_string()));
    assert_eq!(commit_id_from_output("  \n"), None);
}

#[test]
fn bookmarks_sorted_and_deduplicated() {
    let b = |n: &str, c: &str| PushedBookmark { name: n.into(), local_commit_id: c.into() };
    let out = sorted_unique_bookmarks(vec![b("zeta", "1"), b("alpha", "2"), b("zeta", "3"), b("mid", "4")]);
    assert_eq!(out, vec![b("alpha", "2"), b("mid", "4"), b("zeta", "1")]);
}
