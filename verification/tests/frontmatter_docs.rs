use jj_gh::config::AutoMergeMethod;
use jj_gh::frontmatter::{
    render_document, split, strip_preview, Frontmatter, FrontmatterError, PREVIEW_MARKER,
    TITLE_WARN_LEN,
};
use jj_gh::reviewer::Reviewer;
use noyalib::Value;

/// Splits the buffer with the library, reads the YAML block with the YAML
/// crate and fills in the defaults with the library.
fn parse(buffer: &str) -> Result<(Frontmatter, String), String> {
    let (yaml, body) = split(buffer).map_err(|e| e.message())?;
    let v: Value = noyalib::from_str(&yaml).map_err(|e| e.to_string())?;
    let text = |k: &str| v.get(k).and_then(Value::as_str).map(str::to_string);
    let flag = |k: &str| v.get(k).and_then(Value::as_bool);
    let list = |k: &str| {
        v.get(k).and_then(Value::as_sequence).map(|s| {
            s.iter()
                .filter_map(|x| x.as_str().map(str::to_string))
                .collect::<Vec<String>>()
        })
    };
    let method = text("auto_merge_method").map(|m| AutoMergeMethod::from_name(&m).unwrap());
    let fm = Frontmatter::from_fields(
        text("title").ok_or("missing title")?,
        text("base").ok_or("missing base")?,
        list("labels"),
        None::<Vec<Reviewer>>,
        flag("draft"),
        flag("auto_merge"),
        method,
    );
    Ok((fm, body))
}

fn fm(title: &str) -> Frontmatter {
    fm_with_base(title, "main")
}

fn fm_with_base(title: &str, base: &str) -> Frontmatter {
    Frontmatter {
        title: title.into(),
        base: base.into(),
        labels: vec![],
        reviewers: vec![],
        draft: false,
        auto_merge: false,
        auto_merge_method: AutoMergeMethod::Merge,
    }
}

#[test]
fn parse_supports_minimal_frontmatter() {
    let buffer = "---\ntitle: hello\nbase: main\n---\n\nbody text\n";
    let (fm, body) = parse(buffer).unwrap();
    assert_eq!(fm.title, "hello");
    assert_eq!(fm.base, "main");
    assert!(fm.labels.is_empty());
    assert!(!fm.draft);
    assert!(!fm.auto_merge);
    assert_eq!(fm.auto_merge_method, AutoMergeMethod::Merge);
    assert_eq!(body, "body text");
}

#[test]
fn parse_reads_auto_merge_fields() {
    let buffer = "---\ntitle: hello\nbase: main\nauto_merge: true\nauto_merge_method: squash\n---\n\nbody\n";
    let (fm, _) = parse(buffer).unwrap();
    assert!(fm.auto_merge);
    assert_eq!(fm.auto_merge_method, AutoMergeMethod::Squash);
}

#[test]
fn missing_leading_delimiter_errors() {
    let err = parse("title: x\n---\nbody\n").unwrap_err();
    assert!(err.contains("missing leading"));
}

#[test]
fn unterminated_frontmatter_errors() {
    let err = parse("---\ntitle: x\nno end marker").unwrap_err();
    assert!(err.contains("unterminated"));
}

#[test]
fn parse_strips_preview_marker_and_diff() {
    let buffer = format!(
        "---\ntitle: hello\nbase: main\n---\n\nuser body\n\n{PREVIEW_MARKER}\n\n```diff\n- a\n+ b\n```\n"
    );
    let (fm, body) = parse(&buffer).unwrap();
    assert_eq!(fm.title, "hello");
    assert_eq!(body, "user body");
}

#[test]
fn parse_strips_with_blank_template_skeleton() {
    let buffer = format!(
        "---\ntitle: hello\nbase: main\n---\n\n\n\n{PREVIEW_MARKER}\n\n```diff\ndiff content\n```\n"
    );
    let (_, body) = parse(&buffer).unwrap();
    assert_eq!(body, "");
}

#[test]
fn parse_marker_absent_is_unchanged() {
    let buffer = "---\ntitle: hi\nbase: main\n---\n\nplain body without marker\n";
    let (_, body) = parse(buffer).unwrap();
    assert_eq!(body, "plain body without marker");
}

#[test]
fn parse_strips_at_first_marker_occurrence() {
    let buffer = format!(
        "---\ntitle: x\nbase: main\n---\n\nfirst body\n{PREVIEW_MARKER}\n\nmiddle\n{PREVIEW_MARKER}\n\nlast\n"
    );
    let (_, body) = parse(&buffer).unwrap();
    assert_eq!(body, "first body");
}

#[test]
fn parse_marker_with_trailing_whitespace_still_matches() {
    let with_trailing = format!("{PREVIEW_MARKER}   ");
    let buffer = format!("---\ntitle: x\nbase: main\n---\n\nbody\n{with_trailing}\n\nstuff\n");
    let (_, body) = parse(&buffer).unwrap();
    assert_eq!(body, "body");
}

#[test]
fn validate_happy_path() {
    fm("title").validate().unwrap();
}

#[test]
fn validate_empty_title_errors() {
    let err = fm("   ").validate().unwrap_err();
    assert!(err.message().contains("title is empty"));
}

#[test]
fn validate_empty_base_errors() {
    let err = fm_with_base("title", "  ").validate().unwrap_err();
    assert!(err.message().contains("base is empty"));
}

#[test]
fn validate_long_title_warns_but_passes() {
    let long_title = "x".repeat(TITLE_WARN_LEN + 1);
    let f = fm(&long_title);
    f.validate().unwrap();
    assert!(f.title_too_long());
    assert!(!fm("short").title_too_long());
}

#[test]
fn rendered_block_starts_with_delimiter_and_has_blank_line_before_body() {
    let rendered = render_document("title: t\nbase: main", "body", None);
    assert!(rendered.starts_with("---\n"));
    assert!(rendered.ends_with("\n---\n\nbody"));
    assert!(!rendered.contains("\n---\n\n\n"));
}

#[test]
fn non_empty_body_has_exactly_one_blank_line_after_frontmatter() {
    let rendered = render_document("title: t\nbase: main", "body here\n", None);
    assert!(rendered.ends_with("\n---\n\nbody here\n"));
}

#[test]
fn render_then_split_gives_back_yaml_and_body() {
    let yaml = "title: Fix the thing\nbase: main";
    let rendered = render_document(yaml, "This PR does X and Y.\n", Some("- a\n+ b"));
    let (y, body) = split(&rendered).unwrap();
    assert_eq!(y, yaml);
    assert_eq!(body, "This PR does X and Y.");
}

#[test]
fn blank_body_with_preview_splits_to_empty_body() {
    let rendered = render_document("title: t\nbase: main", "", Some("diff"));
    assert!(rendered.contains(PREVIEW_MARKER));
    let (_, body) = split(&rendered).unwrap();
    assert_eq!(body, "");
}

#[test]
fn strip_preview_keeps_buffer_without_marker() {
    assert_eq!(strip_preview("a\nb\n"), "a\nb\n");
    assert_eq!(strip_preview(&format!("a\n{PREVIEW_MARKER}\nb")), "a\n");
}

#[test]
fn split_reports_each_error() {
    assert_eq!(split("x").unwrap_err(), FrontmatterError::MissingLeadingDelimiter);
    assert_eq!(split("---\nx").unwrap_err(), FrontmatterError::Unterminated);
    assert_eq!(
        FrontmatterError::MissingLeadingDelimiter.message(),
        "missing leading `---` frontmatter delimiter"
    );
    assert_eq!(
        FrontmatterError::Unterminated.message(),
        "unterminated frontmatter; expected closing `---`"
    );
}

#[test]
fn closing_delimiter_at_end_of_buffer_is_accepted() {
    let (yaml, body) = split("---\ntitle: x\n---").unwrap();
    assert_eq!(yaml, "title: x");
    assert_eq!(body, "");
}

#[test]
fn marker_with_leading_space_is_not_the_marker() {
    let buffer = format!("body\n {PREVIEW_MARKER}\nstuff\n");
    assert_eq!(strip_preview(&buffer), buffer);
    let trailing = format!("body\n{PREVIEW_MARKER}  \nstuff\n");
    assert_eq!(strip_preview(&trailing), "body\n");
}

#[test]
fn marker_text_inside_a_body_line_survives_the_round_trip() {
    let body = format!("quoting `{PREVIEW_MARKER}` here\nand more\n");
    let rendered = render_document("title: x\nbase: main", &body, Some("- a\n+ b"));
    let (yaml, back) = split(&rendered).unwrap();
    assert_eq!(yaml, "title: x\nbase: main");
    assert_eq!(back, format!("quoting `{PREVIEW_MARKER}` here\nand more"));
}
