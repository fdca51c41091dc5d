use jj_gh::reviewer::Reviewer;

#[test]
fn parses_user_with_at() {
    let r = Reviewer::parse("@john-doe").unwrap();
    assert_eq!(r.slug(), "john-doe");
    assert_eq!(r.at_reference(), "@john-doe");
    assert_eq!(r.team_name(), None);
}

#[test]
fn parses_user_without_at() {
    let r = Reviewer::parse("john-doe").unwrap();
    assert_eq!(r.slug(), "john-doe");
}

#[test]
fn parses_team_with_at() {
    let r = Reviewer::parse("@octo-org/security").unwrap();
    assert_eq!(r.slug(), "octo-org/security");
    assert_eq!(r.team_name(), Some("security"));
}

#[test]
fn parses_team_without_at() {
    let r = Reviewer::parse("octo-org/security").unwrap();
    assert_eq!(r.slug(), "octo-org/security");
}

#[test]
fn trims_surrounding_whitespace() {
    let r = Reviewer::parse("  @john  ").unwrap();
    assert_eq!(r.slug(), "john");
}

#[test]
fn rejects_empty() {
    assert!(Reviewer::parse("").is_err());
    assert!(Reviewer::parse("   ").is_err());
    assert!(Reviewer::parse("@").is_err());
}

#[test]
fn rejects_team_with_extra_slashes() {
    let err = Reviewer::parse("org/team/extra").unwrap_err();
    assert!(err.message().contains("team slug"));
}

#[test]
fn display_uses_at_form() {
    let r = Reviewer::parse("john").unwrap();
    assert_eq!(r.display_string(), "@john");
}

#[test]
fn at_reference_parses_back_to_the_same_reviewer() {
    for raw in ["john", "@octo-org/security", "  @@x  "] {
        let r = Reviewer::parse(raw).unwrap();
        assert_eq!(Reviewer::parse(&r.at_reference()).unwrap(), r);
    }
}

#[test]
fn cloned_approver_keeps_a_valid_slug() {
    let r = jj_gh::reviewer::Reviewer::parse("  @org/team ").unwrap();
    let c = r.clone();
    assert_eq!(c.slug(), "org/team");
    assert!(!c.slug().starts_with('@'));
}
