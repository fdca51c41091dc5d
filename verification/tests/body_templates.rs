use jj_gh::body_template::{pr_template_paths, resolve_template_source, TemplateSource};
use jj_gh::config::LayerTemplate;

fn layer(template: Option<&str>, file: Option<&str>) -> LayerTemplate {
    LayerTemplate {
        pr_create_template: template.map(str::to_string),
        pr_create_template_file: file.map(str::to_string),
    }
}

#[test]
fn no_template_wins_over_everything() {
    let r = resolve_template_source(
        true,
        Some("description".into()),
        Some("x.md".into()),
        &layer(Some("t"), Some("f")),
        Some(".github/PULL_REQUEST_TEMPLATE.md".into()),
        &layer(Some("u"), Some("g")),
    );
    assert_eq!(r, TemplateSource::NoTemplate);
}

#[test]
fn cli_template_then_cli_file() {
    let both = resolve_template_source(false, Some("description".into()), Some("x.md".into()), &layer(None, None), None, &layer(None, None));
    assert_eq!(both, TemplateSource::JjTemplate("description".into()));
    let file = resolve_template_source(false, None, Some("x.md".into()), &layer(Some("t"), None), None, &layer(None, None));
    assert_eq!(file, TemplateSource::File("x.md".into()));
}

#[test]
fn repo_layer_beats_checked_in_template_which_beats_user_layer() {
    let repo = resolve_template_source(false, None, None, &layer(None, Some("repo.md")), Some("found.md".into()), &layer(Some("u"), None));
    assert_eq!(repo, TemplateSource::File("repo.md".into()));
    let found = resolve_template_source(false, None, None, &layer(None, None), Some("found.md".into()), &layer(Some("u"), None));
    assert_eq!(found, TemplateSource::File("found.md".into()));
    let user = resolve_template_source(false, None, None, &layer(None, None), None, &layer(Some("u"), Some("g")));
    assert_eq!(user, TemplateSource::JjTemplate("u".into()));
    let user_file = resolve_template_source(false, None, None, &layer(None, None), None, &layer(None, Some("g")));
    assert_eq!(user_file, TemplateSource::File("g".into()));
    let none = resolve_template_source(false, None, None, &layer(None, None), None, &layer(None, None));
    assert_eq!(none, TemplateSource::NoTemplate);
}

#[test]
fn checked_in_template_paths_in_order() {
    assert_eq!(
        pr_template_paths(),
        vec![
            ".github/PULL_REQUEST_TEMPLATE.md",
            ".github/PULL_REQUEST_TEMPLATE/PULL_REQUEST_TEMPLATE.md",
            ".github/pull_request_template.md",
            ".github/PULL_REQUEST_TEMPLATE/pull_request_template.md",
        ]
    );
}
