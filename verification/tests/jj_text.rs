use jj_gh::jj::{escape_jj_string, eval_template_argv, quote_jj, title_base_revset, TemplateAliases};
use jj_gh::logging::{indent_continuations, resolve_log_level, LevelFilter};

#[test]
fn revset_with_stacked_base() {
    assert_eq!(title_base_revset("@-", "mrj/push-foo"), "(mrj/push-foo)..(@-)");
}

#[test]
fn revset_with_trunk_base() {
    assert_eq!(title_base_revset("@-", "trunk()"), "(trunk())..(@-)");
}

#[test]
fn revset_with_resolved_remote_base() {
    assert_eq!(
        title_base_revset("@-", "0123456789abcdef"),
        "(0123456789abcdef)..(@-)"
    );
}

#[test]
fn eval_template_argv_minimal() {
    let argv = eval_template_argv("@", "description", None, false);
    assert_eq!(
        argv,
        vec!["log", "-r", "@", "--no-graph", "--color=never", "-T", "description"]
    );
}

#[test]
fn eval_template_argv_with_config_file_and_reversed() {
    let argv = eval_template_argv(
        "trunk()..@",
        "description.first_line()",
        Some("/tmp/x.toml"),
        true,
    );
    assert_eq!(
        argv,
        vec![
            "--config-file",
            "/tmp/x.toml",
            "log",
            "-r",
            "trunk()..@",
            "--no-graph",
            "--color=never",
            "--reversed",
            "-T",
            "description.first_line()",
        ]
    );
}

#[test]
fn eval_template_argv_config_file_precedes_subcommand() {
    let argv = eval_template_argv("@", "x", Some("/c.toml"), false);
    let log_idx = argv.iter().position(|s| s == "log").unwrap();
    let cfg_idx = argv.iter().position(|s| s == "--config-file").unwrap();
    assert!(cfg_idx < log_idx, "--config-file must precede `log`");
}

#[test]
fn escape_jj_string_handles_backslash_and_quote() {
    assert_eq!(escape_jj_string(r#"a"b\c"#), r#"a\"b\\c"#);
}

#[test]
fn quote_jj_wraps_in_quotes() {
    assert_eq!(quote_jj(r#"say "hi""#), r#""say \"hi\"""#);
    assert_eq!(quote_jj(""), r#""""#);
}

#[test]
fn alias_overwrites_existing_key() {
    let aliases = TemplateAliases::builder()
        .alias("a".to_string(), r#""1""#.to_string())
        .alias("a".to_string(), r#""2""#.to_string());
    let entries = aliases.aliases();
    assert_eq!(entries.len(), 1);
    assert_eq!(entries[0], ("a".to_string(), r#""2""#.to_string()));
}

#[test]
fn aliases_and_colors_stay_sorted() {
    let aliases = TemplateAliases::builder()
        .alias("zeta".to_string(), "1".to_string())
        .alias("alpha".to_string(), "2".to_string())
        .color("b".to_string(), "red".to_string())
        .color("a".to_string(), "blue".to_string());
    let names: Vec<&str> = aliases.aliases().iter().map(|(k, _)| k.as_str()).collect();
    assert_eq!(names, vec!["alpha", "zeta"]);
    let labels: Vec<&str> = aliases.colors().iter().map(|(k, _)| k.as_str()).collect();
    assert_eq!(labels, vec!["a", "b"]);
}

#[test]
fn empty_builder_has_no_entries() {
    let aliases = TemplateAliases::builder();
    assert!(aliases.aliases().is_empty());
    assert!(aliases.colors().is_empty());
}

#[test]
fn continuation_lines_align_after_prefix() {
    assert_eq!(
        indent_continuations("first\nsecond\nthird", 6),
        "first\n      second\n      third"
    );
}

#[test]
fn single_line_message_is_unchanged() {
    assert_eq!(indent_continuations("only", 8), "only");
}

#[test]
fn explicit_log_level_wins() {
    assert_eq!(resolve_log_level(Some(LevelFilter::Trace), true, 0, false), LevelFilter::Trace);
}

#[test]
fn empty_builder_renders_empty_toml() {
    let toml = TemplateAliases::builder().to_toml();
    assert_eq!(toml, "");
}

#[test]
fn aliases_render_sorted_under_template_aliases() {
    let toml = TemplateAliases::builder()
        .alias("zeta".into(), r#""z""#.into())
        .alias("alpha".into(), r#""a""#.into())
        .to_toml();
    let parsed: toml::Table = toml::from_str(&toml).unwrap();
    let aliases = parsed["template-aliases"].as_table().unwrap();
    let keys: Vec<&str> = aliases.keys().map(String::as_str).collect();
    assert_eq!(keys, vec!["alpha", "zeta"]);
    assert_eq!(aliases["alpha"].as_str(), Some(r#""a""#));
    assert_eq!(aliases["zeta"].as_str(), Some(r#""z""#));
}

#[test]
fn colors_render_sorted_under_colors() {
    let toml = TemplateAliases::builder()
        .color("zz-label".into(), "yellow".into())
        .color("aa-label".into(), "green".into())
        .to_toml();
    let parsed: toml::Table = toml::from_str(&toml).unwrap();
    let colors = parsed["colors"].as_table().unwrap();
    let keys: Vec<&str> = colors.keys().map(String::as_str).collect();
    assert_eq!(keys, vec!["aa-label", "zz-label"]);
}

#[test]
fn aliases_and_colors_both_present() {
    let toml = TemplateAliases::builder()
        .alias("a".into(), r#""x""#.into())
        .color("c".into(), "red".into())
        .to_toml();
    let parsed: toml::Table = toml::from_str(&toml).unwrap();
    assert!(parsed.contains_key("template-aliases"));
    assert!(parsed.contains_key("colors"));
}

#[test]
fn color_value_with_quote_round_trips() {
    let toml = TemplateAliases::builder()
        .color("c".into(), r#"weird"name"#.into())
        .to_toml();
    let parsed: toml::Table = toml::from_str(&toml).unwrap();
    assert_eq!(parsed["colors"]["c"].as_str(), Some(r#"weird"name"#));
}

#[test]
fn alias_body_with_quote_round_trips() {
    let body = r#""https://example.com/""#;
    let toml = TemplateAliases::builder().alias("u".into(), body.into()).to_toml();
    let parsed: toml::Table = toml::from_str(&toml).unwrap();
    assert_eq!(parsed["template-aliases"]["u"].as_str(), Some(body));
}
