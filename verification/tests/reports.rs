use jj_gh::report::{dry_run_lines, plan_lines};
use jj_gh::restack::PrPlan;
use jj_gh::stack_detect::BasePlan;
use jj_gh::stack_plan::{Plan, PushPlan};

#[test]
fn empty_plan_prints_nothing() {
    assert!(plan_lines(&Plan::default(), &[], false).is_empty());
}

#[test]
fn plan_sections_in_order_without_color() {
    let plan = Plan {
        pushes: vec![PushPlan {
            bookmark: "feat".into(),
            local_commit_id: "0123456789abcdef".into(),
            remote_commit_id: None,
        }],
        bases: vec![BasePlan {
            pr_number: 2,
            pr_node_id: "N".into(),
            title: "Two".into(),
            bookmark: "b2".into(),
            local_commit_id: "c".into(),
            current_base: "main".into(),
            proposed_base: "feat".into(),
        }],
        chains: vec![vec![1, 2]],
        unstack: vec![7],
    };
    let lines = plan_lines(&plan, &[(7, "Seven".to_string())], false);
    assert_eq!(
        lines,
        vec![
            "\nPush (1):",
            "  feat  (not on remote) -> 01234567",
            "\nRetarget base (1):",
            "  #2  Two  base main <- feat",
            "\nStack (1):",
            "  #1 → #2",
            "\nUnstack (1):",
            "  #7  Seven",
            "  GitHub will not move a stacked PR's base ref, so these leave",
            "  their stack first and are stacked again afterwards.",
        ]
    );
}

#[test]
fn plan_colors_on_a_terminal() {
    let plan = Plan { unstack: vec![9], ..Default::default() };
    let lines = plan_lines(&plan, &[], true);
    assert_eq!(lines[0], "\n\x1b[2mUnstack\x1b[0m (1):");
    assert_eq!(lines[1], "  \x1b[36m#9\x1b[0m  ");
}

fn plan(n: u64, title: &str, current: &str, proposed: &str) -> PrPlan {
    PrPlan {
        pr_number: n,
        pr_node_id: format!("N{n}"),
        title: title.into(),
        bookmark: format!("b{n}"),
        local_commit_id: String::new(),
        current_base: current.into(),
        proposed_base: proposed.into(),
    }
}

#[test]
fn dry_run_pads_columns_and_counts_changes() {
    let plans = vec![plan(1, "short", "main", "main"), plan(12, "a longer title", "main", "dev")];
    let lines = dry_run_lines(&plans, false);
    assert_eq!(
        lines,
        vec![
            "#1     short           main ← b1  (no change)".to_string(),
            "#12    a longer title  dev  ← b12  (was: main)".to_string(),
            String::new(),
            "2 PR(s), 1 change(s) proposed".to_string(),
        ]
    );
}
