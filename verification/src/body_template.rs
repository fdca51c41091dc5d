//! Where a new PR's body template comes from.
//!
//! Highest first: `--no-template`; `-T`; `--template-file`; the repo
//! layers' `pr_create_template`, then their `pr_create_template_file`; a
//! pull-request template checked into the repository; the user layer's
//! `pr_create_template`, then its `pr_create_template_file`.

use crate::config::LayerTemplate;
use crate::text::owned;
use vstd::prelude::*;

verus! {

/// A body template: none, a markdown file, or a jj template string.
#[derive(Debug, Clone, PartialEq, Eq)]
pub enum TemplateSource {
    NoTemplate,
    File(String),
    JjTemplate(String),
}

/// The source over views.
pub enum SourceView {
    NoTemplate,
    File(Seq<char>),
    JjTemplate(Seq<char>),
}

pub open spec fn source_view(s: TemplateSource) -> SourceView {
    match s {
        TemplateSource::NoTemplate => SourceView::NoTemplate,
        TemplateSource::File(p) => SourceView::File(p@),
        TemplateSource::JjTemplate(t) => SourceView::JjTemplate(t@),
    }
}

pub open spec fn opt_view(o: Option<String>) -> Option<Seq<char>> {
    match o {
        Some(s) => Some(s@),
        None => None,
    }
}

/// The precedence, over views.
pub open spec fn template_choice(
    no_template: bool,
    cli_template: Option<Seq<char>>,
    cli_file: Option<Seq<char>>,
    repo_template: Option<Seq<char>>,
    repo_file: Option<Seq<char>>,
    detected_file: Option<Seq<char>>,
    user_template: Option<Seq<char>>,
    user_file: Option<Seq<char>>,
) -> SourceView {
    if no_template {
        SourceView::NoTemplate
    } else if cli_template is Some {
        SourceView::JjTemplate(cli_template->0)
    } else if cli_file is Some {
        SourceView::File(cli_file->0)
    } else if repo_template is Some {
        SourceView::JjTemplate(repo_template->0)
    } else if repo_file is Some {
        SourceView::File(repo_file->0)
    } else if detected_file is Some {
        SourceView::File(detected_file->0)
    } else if user_template is Some {
        SourceView::JjTemplate(user_template->0)
    } else if user_file is Some {
        SourceView::File(user_file->0)
    } else {
        SourceView::NoTemplate
    }
}

/// The pull-request template paths looked for in the repository, in order.
pub open spec fn pr_template_paths_view() -> Seq<Seq<char>> {
    seq![
        ".github/PULL_REQUEST_TEMPLATE.md"@,
        ".github/PULL_REQUEST_TEMPLATE/PULL_REQUEST_TEMPLATE.md"@,
        ".github/pull_request_template.md"@,
        ".github/PULL_REQUEST_TEMPLATE/pull_request_template.md"@,
    ]
}

/// The pull-request template paths, relative to the repository root, in the
/// order they are looked for.
pub fn pr_template_paths() -> (r: Vec<&'static str>)
    ensures
        r@.map_values(|s: &str| s@) == pr_template_paths_view(),
{
    let r = vec![
        ".github/PULL_REQUEST_TEMPLATE.md",
        ".github/PULL_REQUEST_TEMPLATE/PULL_REQUEST_TEMPLATE.md",
        ".github/pull_request_template.md",
        ".github/PULL_REQUEST_TEMPLATE/pull_request_template.md",
    ];
    proof {
        reveal_strlit(".github/PULL_REQUEST_TEMPLATE.md");
        reveal_strlit(".github/PULL_REQUEST_TEMPLATE/PULL_REQUEST_TEMPLATE.md");
        reveal_strlit(".github/pull_request_template.md");
        reveal_strlit(".github/PULL_REQUEST_TEMPLATE/pull_request_template.md");
        assert(r@.map_values(|s: &str| s@) =~= pr_template_paths_view());
    }
    r
}

fn copy_opt(o: &Option<String>) -> (r: Option<String>)
    ensures
        opt_view(r) == opt_view(*o),
{
    match o {
        Some(s) => Some(owned(s.as_str())),
        None => None,
    }
}

/// The body template to use. `detected_file` is the first of
/// [`pr_template_paths`] that exists in the repository, if any.
pub fn resolve_template_source(
    no_template: bool,
    cli_template: Option<String>,
    cli_file: Option<String>,
    repo_layer: &LayerTemplate,
    detected_file: Option<String>,
    user_layer: &LayerTemplate,
) -> (r: TemplateSource)
    ensures
        source_view(r) == template_choice(
            no_template,
            opt_view(cli_template),
            opt_view(cli_file),
            opt_view(repo_layer.pr_create_template),
            opt_view(repo_layer.pr_create_template_file),
            opt_view(detected_file),
            opt_view(user_layer.pr_create_template),
            opt_view(user_layer.pr_create_template_file),
        ),
{
    if no_template {
        return TemplateSource::NoTemplate;
    }
    if let Some(t) = cli_template {
        return TemplateSource::JjTemplate(t);
    }
    if let Some(p) = cli_file {
        return TemplateSource::File(p);
    }
    if let Some(t) = copy_opt(&repo_layer.pr_create_template) {
        return TemplateSource::JjTemplate(t);
    }
    if let Some(p) = copy_opt(&repo_layer.pr_create_template_file) {
        return TemplateSource::File(p);
    }
    if let Some(p) = detected_file {
        return TemplateSource::File(p);
    }
    if let Some(t) = copy_opt(&user_layer.pr_create_template) {
        return TemplateSource::JjTemplate(t);
    }
    if let Some(p) = copy_opt(&user_layer.pr_create_template_file) {
        return TemplateSource::File(p);
    }
    TemplateSource::NoTemplate
}

} // verus!
