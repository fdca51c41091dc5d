use jj_gh::ci::{
    auto_merge_enabled, ci_status, count_contexts, CheckConclusionState, CheckContext,
    CheckStatusState, StatusState,
};
use jj_gh::config::{deprecated_config_keys, deprecation_message, deprecation_warnings};
use jj_gh::gh::{CiCounts, CiStatus, PrWithCiStatus};
use jj_gh::gh_search::{build_search_queries, merge_new_prs, split_users_and_teams, MAX_SEARCH_QUERY_LEN};
use jj_gh::reviewer::Reviewer;

#[test]
fn empty_branches_produces_no_queries() {
    assert!(build_search_queries("o", "r", &[]).is_empty());
}

#[test]
fn single_query_when_under_limit() {
    let qs = build_search_queries("o", "r", &["a".into(), "b".into()]);
    assert_eq!(qs, vec!["repo:o/r is:pr head:a head:b".to_string()]);
}

#[test]
fn splits_into_batches_when_over_limit() {
    let long = "x".repeat(200);
    let branches: Vec<String> = (0..10).map(|i| format!("{long}-{i}")).collect();
    let qs = build_search_queries("o", "r", &branches);
    assert!(qs.len() >= 2, "expected multiple batches, got {qs:?}");
    for q in &qs {
        assert!(q.len() <= MAX_SEARCH_QUERY_LEN, "batch too long: {q}");
        assert!(q.starts_with("repo:o/r is:pr"));
    }
    let joined: String = qs.iter().map(|q| &q["repo:o/r is:pr".len()..]).collect();
    let expected: String = branches.iter().map(|b| format!(" head:{b}")).collect();
    assert_eq!(joined, expected);
}

#[test]
fn oversized_branch_gets_a_query_of_its_own() {
    let huge = "y".repeat(1000);
    let qs = build_search_queries("o", "r", &["a".into(), huge.clone(), "b".into()]);
    assert_eq!(
        qs,
        vec![
            "repo:o/r is:pr head:a".to_string(),
            format!("repo:o/r is:pr head:{huge}"),
            "repo:o/r is:pr head:b".to_string(),
        ]
    );
}

#[test]
fn limit_counts_bytes_not_characters() {
    // Each branch is 148 characters but 296 bytes: three fit by characters
    // and only two by bytes.
    let wide = "é".repeat(148);
    let qs = build_search_queries("o", "r", &[wide.clone(), wide.clone(), wide.clone()]);
    assert_eq!(qs.len(), 2);
}

#[test]
fn approvers_split_into_users_and_teams() {
    let rs: Vec<Reviewer> = ["alice", "@org/core", "bob", "org/docs"]
        .iter()
        .map(|s| Reviewer::parse(s).unwrap())
        .collect();
    let (users, teams) = split_users_and_teams(&rs);
    assert_eq!(users, vec!["alice", "bob"]);
    assert_eq!(teams, vec!["core", "docs"]);
}

fn pr(number: u64, title: &str) -> PrWithCiStatus {
    PrWithCiStatus {
        id: format!("ID{number}"),
        number,
        url: String::new(),
        title: title.into(),
        head_ref_name: format!("b{number}"),
        head_sha: String::new(),
        base_ref_name: "main".into(),
        is_draft: false,
        merged: false,
        is_in_merge_queue: false,
        ci_status: CiStatus::NoChecks,
        ci_counts: CiCounts::default(),
        auto_merge_enabled: false,
    }
}

#[test]
fn batches_merge_without_duplicates() {
    let mut out = vec![pr(1, "first")];
    merge_new_prs(&mut out, vec![pr(2, "two"), pr(1, "again"), pr(2, "twice"), pr(3, "three")]);
    let got: Vec<(u64, String)> = out.iter().map(|p| (p.number, p.title.clone())).collect();
    assert_eq!(
        got,
        vec![
            (1, "first".to_string()),
            (2, "two".to_string()),
            (3, "three".to_string())
        ]
    );
}

#[test]
fn rollup_state_maps_to_ci_status() {
    assert_eq!(ci_status(None), CiStatus::NoChecks);
    assert_eq!(ci_status(Some(StatusState::Error)), CiStatus::Failed);
    assert_eq!(ci_status(Some(StatusState::Failure)), CiStatus::Failed);
    assert_eq!(ci_status(Some(StatusState::Expected)), CiStatus::Pending);
    assert_eq!(ci_status(Some(StatusState::Pending)), CiStatus::Pending);
    assert_eq!(ci_status(Some(StatusState::Success)), CiStatus::Success);
    assert_eq!(ci_status(Some(StatusState::Other)), CiStatus::NoChecks);
}

#[test]
fn contexts_are_counted_by_bucket() {
    let run = |status, conclusion| Some(CheckContext::CheckRun { status, conclusion });
    let nodes = vec![
        run(CheckStatusState::Completed, Some(CheckConclusionState::Success)),
        run(CheckStatusState::Completed, Some(CheckConclusionState::Skipped)),
        run(CheckStatusState::Completed, Some(CheckConclusionState::Neutral)),
        run(CheckStatusState::Completed, Some(CheckConclusionState::TimedOut)),
        run(CheckStatusState::Completed, None),
        run(CheckStatusState::Running, None),
        Some(CheckContext::StatusContext { state: StatusState::Failure }),
        Some(CheckContext::StatusContext { state: StatusState::Expected }),
        Some(CheckContext::StatusContext { state: StatusState::Other }),
        None,
    ];
    let (counts, next) = count_contexts(&nodes, true, Some("cursor".into()));
    assert_eq!(counts, CiCounts { pending: 3, failed: 2, passed: 3 });
    assert_eq!(counts.total(), 8);
    assert_eq!(next, Some("cursor".to_string()));
    let (_, none) = count_contexts(&nodes, false, Some("cursor".into()));
    assert_eq!(none, None);
}

#[test]
fn counts_add_bucketwise() {
    let mut a = CiCounts { pending: 1, failed: 2, passed: 3 };
    a.add_assign(CiCounts { pending: 10, failed: 20, passed: 30 });
    assert_eq!(a, CiCounts { pending: 11, failed: 22, passed: 33 });
}

#[test]
fn auto_merge_needs_an_enable_time() {
    assert!(!auto_merge_enabled(None));
    assert!(!auto_merge_enabled(Some(None)));
    assert!(auto_merge_enabled(Some(Some("2024-01-01".into()))));
}

#[test]
fn deprecated_config_keys_include_generated_messages() {
    let keys = deprecated_config_keys();
    assert_eq!(
        keys,
        vec![(
            "default_remote".to_string(),
            "`jj-gh.default_remote` is deprecated since 0.2.5: jj-gh now auto-detects the default remote via the repository data.".to_string()
        )]
    );
}

#[test]
fn deprecation_warning_names_the_source() {
    assert_eq!(deprecation_message("k", "1.0", "gone."), "`jj-gh.k` is deprecated since 1.0: gone.");
    let warnings = deprecation_warnings(&["draft".into(), "default_remote".into()], "repo");
    assert_eq!(warnings.len(), 1);
    assert!(warnings[0].ends_with(" Source: repo."));
    assert!(deprecation_warnings(&["draft".into()], "repo").is_empty());
}

#[test]
fn every_local_pr_gets_its_own_plan_sorted_and_stable() {
    let prs = vec![pr(7, "seven"), pr(3, "three"), pr(5, "no bookmark"), pr(3, "three again")];
    let locals = vec![Some("c7".to_string()), Some("c3".to_string()), None, Some("c3b".to_string())];
    let ancestors = vec![Some("b3".to_string()), None, None, None];
    let plans = jj_gh::restack::propose_plans(&prs, &locals, &ancestors, Some("main"));
    let got: Vec<(u64, String, String, String)> = plans
        .iter()
        .map(|p| (p.pr_number, p.title.clone(), p.local_commit_id.clone(), p.proposed_base.clone()))
        .collect();
    assert_eq!(
        got,
        vec![
            (3, "three".to_string(), "c3".to_string(), "main".to_string()),
            (3, "three again".to_string(), "c3b".to_string(), "main".to_string()),
            (7, "seven".to_string(), "c7".to_string(), "b3".to_string()),
        ]
    );
}
