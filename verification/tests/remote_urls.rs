use jj_gh::remote::{branch_from_base_spec, target};
use jj_gh::remote_url::parse_owner_repo;

fn owner_repo(url: &str) -> (String, String) {
    parse_owner_repo(url).unwrap()
}

#[test]
fn ssh_shorthand_with_dot_git() {
    assert_eq!(owner_repo("git@github.com:o/r.git"), ("o".into(), "r".into()));
}

#[test]
fn ssh_shorthand_without_dot_git() {
    assert_eq!(owner_repo("git@github.com:o/r"), ("o".into(), "r".into()));
}

#[test]
fn https_with_dot_git() {
    assert_eq!(owner_repo("https://github.com/o/r.git"), ("o".into(), "r".into()));
}

#[test]
fn https_without_dot_git() {
    assert_eq!(owner_repo("https://github.com/o/r"), ("o".into(), "r".into()));
}

#[test]
fn ssh_url_form() {
    assert_eq!(owner_repo("ssh://git@github.com/o/r.git"), ("o".into(), "r".into()));
}

#[test]
fn empty_path_errors() {
    let err = parse_owner_repo("https://github.com/").unwrap_err();
    assert!(err.message().contains("missing owner"), "msg: {}", err.message());
}

#[test]
fn missing_repo_errors() {
    let err = parse_owner_repo("https://github.com/o").unwrap_err();
    assert!(err.message().contains("missing repo"), "msg: {}", err.message());
}

#[test]
fn unparseable_url_errors() {
    let err = parse_owner_repo("not a url").unwrap_err();
    assert!(err.message().contains("could not parse"), "msg: {}", err.message());
}

#[test]
fn ssh_shorthand_without_colon_is_invalid() {
    let err = parse_owner_repo("git@github.com").unwrap_err();
    assert_eq!(err.message(), "invalid ssh shorthand: git@github.com");
}

#[test]
fn only_one_git_suffix_is_stripped() {
    assert_eq!(owner_repo("https://github.com/o/r.git.git"), ("o".into(), "r.git".into()));
}

#[test]
fn repo_keeps_everything_after_the_first_slash() {
    assert_eq!(owner_repo("https://github.com/o/r/extra"), ("o".into(), "r/extra".into()));
}

#[test]
fn origin_only_uses_origin_owner_repo_with_qualified_head() {
    let t = target("git@github.com:o/r.git", None).unwrap();
    assert_eq!(t.owner_name(), "o");
    assert_eq!(t.repo_name(), "r");
    assert_eq!(t.head_spec("feature"), "o:feature");
    assert_eq!(t.base_spec("main"), "main");
}

#[test]
fn fork_routes_to_upstream_with_owner_prefixed_head() {
    let t = target(
        "git@github.com:fork-owner/r.git",
        Some("git@github.com:upstream-owner/r.git"),
    )
    .unwrap();
    assert_eq!(t.owner_name(), "upstream-owner");
    assert_eq!(t.repo_name(), "r");
    assert_eq!(t.head_spec("feature"), "fork-owner:feature");
    assert_eq!(t.base_spec("master"), "upstream-owner:master");
}

#[test]
fn handles_https_origin() {
    let t = target("https://github.com/o/r", None).unwrap();
    assert_eq!(t.owner_name(), "o");
    assert_eq!(t.repo_name(), "r");
    assert_eq!(t.head_spec("x"), "o:x");
    assert_eq!(t.base_spec("main"), "main");
}

#[test]
fn upstream_remote_qualifies_base_even_when_owner_matches() {
    let t = target(
        "git@github.com:o/forked-name.git",
        Some("git@github.com:o/upstream-name.git"),
    )
    .unwrap();
    assert_eq!(t.base_spec("main"), "o:main");
}

#[test]
fn handles_dot_git_variations() {
    let a = target("https://github.com/o/r.git", None).unwrap();
    let b = target("https://github.com/o/r", None).unwrap();
    assert_eq!(a, b);
    assert_eq!(a.head_spec("x"), b.head_spec("x"));
}

#[test]
fn fork_with_different_repo_names_uses_upstream_repo() {
    let t = target(
        "git@github.com:me/forked-name.git",
        Some("git@github.com:org/canonical-name.git"),
    )
    .unwrap();
    assert_eq!(t.owner_name(), "org");
    assert_eq!(t.repo_name(), "canonical-name");
    assert_eq!(t.head_spec("feature"), "me:feature");
    assert_eq!(t.base_spec("main"), "org:main");
}

#[test]
fn unparseable_origin_errors() {
    let err = target("not a url", None).unwrap_err();
    assert!(err.message().contains("could not parse"));
}

#[test]
fn unparseable_upstream_errors_with_its_own_url() {
    let err = target("git@github.com:o/r.git", Some("https://github.com/u")).unwrap_err();
    assert_eq!(err.message(), "missing repo in url: https://github.com/u");
}

#[test]
fn branch_from_base_spec_accepts_bare_branch() {
    assert_eq!(branch_from_base_spec("upstream", "main").unwrap(), "main".to_string());
}

#[test]
fn branch_from_base_spec_strips_matching_owner() {
    assert_eq!(
        branch_from_base_spec("upstream", "upstream:master").unwrap(),
        "master".to_string()
    );
}

#[test]
fn branch_from_base_spec_rejects_wrong_owner() {
    let err = branch_from_base_spec("upstream", "other:master").unwrap_err();
    assert!(err.message().contains("does not match"));
    assert_eq!(
        err.message(),
        "base owner `other` does not match PR target owner `upstream`"
    );
}

#[test]
fn branch_from_base_spec_rejects_blank_base_and_branch() {
    assert_eq!(branch_from_base_spec("o", "   ").unwrap_err().message(), "base is empty");
    assert_eq!(branch_from_base_spec("o", "o:  ").unwrap_err().message(), "base branch is empty");
}

#[test]
fn branch_from_base_spec_trims_both_levels() {
    assert_eq!(branch_from_base_spec("o", "  o: main ").unwrap(), "main");
}

#[test]
fn base_spec_round_trips_through_branch_from_base_spec() {
    let fork = target("git@github.com:me/r.git", Some("git@github.com:org/r.git")).unwrap();
    let same = target("git@github.com:me/r.git", None).unwrap();
    for t in [&fork, &same] {
        let spec = t.base_spec("release-2.0");
        assert_eq!(branch_from_base_spec(t.owner_name(), &spec).unwrap(), "release-2.0");
    }
}

#[test]
fn shorthand_with_and_without_git_suffix_agree() {
    let a = jj_gh::remote_url::parse_owner_repo("git@github.com:octo/hello.world.git").unwrap();
    let b = jj_gh::remote_url::parse_owner_repo("git@github.com:octo/hello.world").unwrap();
    assert_eq!(a, b);
    assert_eq!(a, ("octo".to_string(), "hello.world".to_string()));
}

#[test]
fn target_names_match_its_fields() {
    let t = jj_gh::remote::target("git@github.com:me/repo.git", Some("https://github.com/up/repo")).unwrap();
    assert_eq!(t.owner_name(), "up");
    assert_eq!(t.repo_name(), "repo");
    assert_eq!(t.origin_owner(), "me");
}
