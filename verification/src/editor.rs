//! Choosing the editor command, and turning an edited frontmatter into the
//! API calls that bring an existing PR in line with it.

use crate::auth::EnvReader;
use crate::config::AutoMergeMethod;
use crate::frontmatter::Frontmatter;
use crate::gh::UpdatePr;
use crate::remote::{BaseBranch, BaseSpecError, base_branch, branch_from_base_spec};
use crate::reviewer::Reviewer;
use crate::shell::{shell_split, split_words};
use crate::text::{is_blank, owned, str_eq, trim};
use vstd::prelude::*;

verus! {

/// An environment variable the editor command can come from.
#[derive(Debug, Clone, Copy, PartialEq, Eq, Structural)]
pub enum EditorVar {
    Visual,
    Editor,
}

/// Why no editor command was found.
#[derive(Debug, Clone, Copy, PartialEq, Eq, Structural)]
pub enum EditorError {
    /// The variable's value has an unbalanced quote.
    CouldNotSplit(EditorVar),
    /// No source produced a non-empty command.
    NoEditor,
}

impl EditorError {
    /// The user-facing message.
    pub open spec fn message_view(self) -> Seq<char> {
        match self {
            EditorError::CouldNotSplit(EditorVar::Visual) => "could not split $VISUAL"@,
            EditorError::CouldNotSplit(EditorVar::Editor) => "could not split $EDITOR"@,
            EditorError::NoEditor => "no editor configured; set --editor, `editor` in config, $VISUAL, or $EDITOR"@,
        }
    }

    /// The user-facing message.
    pub fn message(self) -> (m: String)
        ensures
            m@ == self.message_view(),
    {
        match self {
            EditorError::CouldNotSplit(EditorVar::Visual) => owned("could not split $VISUAL"),
            EditorError::CouldNotSplit(EditorVar::Editor) => owned("could not split $EDITOR"),
            EditorError::NoEditor => owned(
                "no editor configured; set --editor, `editor` in config, $VISUAL, or $EDITOR",
            ),
        }
    }
}

/// One environment source: its words when set, non-blank and non-empty
/// once split, an error when it cannot be split, else the next source.
pub open spec fn env_source(
    value: Option<Seq<char>>,
    var: EditorVar,
    next: Result<Seq<Seq<char>>, EditorError>,
) -> Result<Seq<Seq<char>>, EditorError> {
    match value {
        Some(raw) => if trim(raw).len() == 0 {
            next
        } else {
            match shell_split(raw) {
                None => Err(EditorError::CouldNotSplit(var)),
                Some(words) => if words.len() > 0 {
                    Ok(words)
                } else {
                    next
                },
            }
        },
        None => next,
    }
}

/// The editor command: the configured one (including `--editor`) when
/// non-empty, else `$VISUAL`, else `$EDITOR`, each shell-split.
pub open spec fn editor_argv_view(
    editor: Option<Seq<Seq<char>>>,
    visual: Option<Seq<char>>,
    editor_var: Option<Seq<char>>,
) -> Result<Seq<Seq<char>>, EditorError> {
    match editor {
        Some(argv) if argv.len() > 0 => Ok(argv),
        _ => env_source(
            visual,
            EditorVar::Visual,
            env_source(editor_var, EditorVar::Editor, Err(EditorError::NoEditor)),
        ),
    }
}

/// The view of a list of strings.
pub open spec fn word_views(v: Seq<String>) -> Seq<Seq<char>> {
    v.map_values(|s: String| s@)
}

fn copy_words(v: &[String]) -> (r: Vec<String>)
    ensures
        r@ == v@,
{
    let mut out: Vec<String> = Vec::new();
    let mut i: usize = 0;
    while i < v.len()
        invariant
            i <= v@.len(),
            out@ == v@.subrange(0, i as int),
        decreases v@.len() - i,
    {
        out.push(v[i].clone());
        i = i + 1;
        assert(out@ =~= v@.subrange(0, i as int));
    }
    assert(out@ =~= v@);
    out
}

/// Resolve the editor command from the configured value and the values of
/// `$VISUAL` and `$EDITOR`.
pub fn editor_argv(editor: Option<&[String]>, visual: Option<&str>, editor_var: Option<&str>) -> (r:
    Result<Vec<String>, EditorError>)
    ensures
        match r {
            Ok(argv) => editor_argv_view(
                match editor {
                    Some(e) => Some(word_views(e@)),
                    None => None,
                },
                crate::text::opt_str(visual),
                crate::text::opt_str(editor_var),
            ) == Ok::<Seq<Seq<char>>, EditorError>(word_views(argv@)),
            Err(e) => editor_argv_view(
                match editor {
                    Some(e) => Some(word_views(e@)),
                    None => None,
                },
                crate::text::opt_str(visual),
                crate::text::opt_str(editor_var),
            ) == Err::<Seq<Seq<char>>, EditorError>(e),
        },
{
    if let Some(argv) = editor {
        if argv.len() > 0 {
            return Ok(copy_words(argv));
        }
    }
    if let Some(raw) = visual {
        if !is_blank(raw) {
            match split_words(raw) {
                Err(_) => {
                    return Err(EditorError::CouldNotSplit(EditorVar::Visual));
                },
                Ok(words) => {
                    if words.len() > 0 {
                        return Ok(words);
                    }
                },
            }
        }
    }
    if let Some(raw) = editor_var {
        if !is_blank(raw) {
            match split_words(raw) {
                Err(_) => {
                    return Err(EditorError::CouldNotSplit(EditorVar::Editor));
                },
                Ok(words) => {
                    if words.len() > 0 {
                        return Ok(words);
                    }
                },
            }
        }
    }
    Err(EditorError::NoEditor)
}

/// The configured editor command as words, if any.
pub open spec fn configured_words(editor: Option<&[String]>) -> Option<Seq<Seq<char>>> {
    match editor {
        Some(e) => Some(word_views(e@)),
        None => None,
    }
}

/// The view of an editor resolution: the command's words, or the error.
pub open spec fn argv_result_view(r: Result<Vec<String>, EditorError>) -> Result<Seq<Seq<char>>, EditorError> {
    match r {
        Ok(argv) => Ok(word_views(argv@)),
        Err(e) => Err(e),
    }
}

/// Resolve the editor command from the merged config and the environment.
///
/// Precedence (high to low): `editor` in config (including `--editor`),
/// `$VISUAL`, `$EDITOR`. The environment is read through `env`.
pub fn resolve_editor_argv<E: EnvReader>(editor: Option<&[String]>, env: &E) -> (r: Result<
    Vec<String>,
    EditorError,
>)
    ensures
        (editor matches Some(e) && e@.len() > 0) ==> (r matches Ok(argv) && argv@ == editor->0@),
        exists|visual: Option<String>, editor_var: Option<String>|
            #![trigger call_ensures(E::get, (env, "VISUAL"), visual), call_ensures(E::get, (env, "EDITOR"), editor_var)]
            call_ensures(E::get, (env, "VISUAL"), visual) && call_ensures(E::get, (env, "EDITOR"), editor_var)
                && argv_result_view(r) == editor_argv_view(
                configured_words(editor),
                crate::text::opt_string(visual),
                crate::text::opt_string(editor_var),
            ),
{
    let visual = env.get("VISUAL");
    let editor_var = env.get("EDITOR");
    let v = match &visual {
        Some(s) => Some(s.as_str()),
        None => None,
    };
    let e = match &editor_var {
        Some(s) => Some(s.as_str()),
        None => None,
    };
    let r = editor_argv(editor, v, e);
    proof {
        if let Some(ed) = editor {
            if ed@.len() > 0 {
                assert(word_views(ed@).len() > 0);
            }
        }
    }
    let ghost ed_view = configured_words(editor);
    let ghost vv = crate::text::opt_str(v);
    let ghost ev = crate::text::opt_str(e);
    let out = match r {
        Ok(argv) => {
            let out = match editor {
                Some(ed) => if ed.len() > 0 {
                    copy_words(ed)
                } else {
                    argv
                },
                None => argv,
            };
            Ok(out)
        },
        Err(e) => Err(e),
    };
    assert(argv_result_view(out) == editor_argv_view(ed_view, vv, ev));
    out
}

/// The PR an edit applies to, and what is needed to address it.
#[derive(Debug, Clone)]
pub struct ApplyChangesCtx {
    pub owner: String,
    pub repo: String,
    pub pr_number: u64,
    pub pr_node_id: String,
    pub has_merge_queue: bool,
    /// `(label name, label node ID)` for the labels on the PR at fetch time;
    /// the last entry for a name wins. Empty for a brand-new PR.
    pub before_label_ids: Vec<(String, String)>,
}

/// What to do about auto-merge.
#[derive(Debug, Clone, Copy, PartialEq, Eq, Structural)]
pub enum AutoMergeAction {
    /// Leave it as it is.
    Keep,
    /// Turn it on with this method.
    Enable(AutoMergeMethod),
    /// Turn it off.
    Disable,
    /// Turn it off and on again, which is how the method changes.
    Reenable(AutoMergeMethod),
    /// The repository uses a merge queue, which this does not support; the
    /// edit fails at this step.
    MergeQueueRefused,
}

/// The API calls that bring a PR from `before` to `after`, in the order
/// they are made: the text update, the draft toggle, labels added then
/// removed, approvers added then removed, then auto-merge.
#[derive(Debug, Clone)]
pub struct DiffPlan {
    pub update: UpdatePr,
    pub set_draft: Option<bool>,
    pub labels_added: Vec<String>,
    /// Node IDs of the labels to remove.
    pub labels_removed_ids: Vec<String>,
    pub reviewers_added: Vec<Reviewer>,
    pub reviewers_removed: Vec<Reviewer>,
    pub auto_merge: AutoMergeAction,
}

/// The message for a refused auto-merge on a merge-queue repository.
pub fn merge_queue_message() -> (m: String)
    ensures
        m@ == "auto-merge not supported for repos with merge queues enabled; this is a limitation of the GitHub API. See https://github.com/mrjones2014/jj-gh/issues/103"@,
{
    owned(
        "auto-merge not supported for repos with merge queues enabled; this is a limitation of the GitHub API. See https://github.com/mrjones2014/jj-gh/issues/103",
    )
}

/// Refuse auto-merge on a repository with a merge queue.
pub fn ensure_not_merge_queue(ctx: &ApplyChangesCtx) -> (r: Result<(), ()>)
    ensures
        r is Err <==> ctx.has_merge_queue,
{
    if ctx.has_merge_queue {
        Err(())
    } else {
        Ok(())
    }
}

/// The auto-merge step for a change from `before` to `after`.
pub open spec fn auto_merge_view(
    before_on: bool,
    before_method: AutoMergeMethod,
    after_on: bool,
    after_method: AutoMergeMethod,
    merge_queue: bool,
) -> AutoMergeAction {
    if !before_on && after_on {
        if merge_queue {
            AutoMergeAction::MergeQueueRefused
        } else {
            AutoMergeAction::Enable(after_method)
        }
    } else if before_on && !after_on {
        AutoMergeAction::Disable
    } else if before_on && after_on && before_method != after_method {
        if merge_queue {
            AutoMergeAction::MergeQueueRefused
        } else {
            AutoMergeAction::Reenable(after_method)
        }
    } else {
        AutoMergeAction::Keep
    }
}

/// The strings of `a` not in `b`, in order.
pub open spec fn missing_from(a: Seq<String>, b: Seq<String>, k: int) -> Seq<Seq<char>>
    decreases k,
{
    if k <= 0 {
        seq![]
    } else if word_views(b).contains(a[k - 1]@) {
        missing_from(a, b, k - 1)
    } else {
        missing_from(a, b, k - 1).push(a[k - 1]@)
    }
}

/// The label ID recorded for `name`; the last entry wins.
pub open spec fn label_id(ids: Seq<(String, String)>, name: Seq<char>) -> Option<Seq<char>>
    decreases ids.len(),
{
    if ids.len() == 0 {
        None
    } else if ids.last().0@ == name {
        Some(ids.last().1@)
    } else {
        label_id(ids.drop_last(), name)
    }
}

/// The IDs of the first `k` removed labels that have one, in order.
pub open spec fn removed_ids(
    before: Seq<String>,
    after: Seq<String>,
    ids: Seq<(String, String)>,
    k: int,
) -> Seq<Seq<char>>
    decreases k,
{
    if k <= 0 {
        seq![]
    } else {
        let rest = removed_ids(before, after, ids, k - 1);
        if word_views(after).contains(before[k - 1]@) {
            rest
        } else {
            match label_id(ids, before[k - 1]@) {
                Some(id) => rest.push(id),
                None => rest,
            }
        }
    }
}

/// The slugs of a list of approvers.
pub open spec fn slugs(v: Seq<Reviewer>) -> Seq<Seq<char>> {
    v.map_values(|r: Reviewer| r.view())
}

/// The approvers of `a` not in `b`, as slugs, in order.
pub open spec fn reviewers_missing(a: Seq<Reviewer>, b: Seq<Reviewer>, k: int) -> Seq<Seq<char>>
    decreases k,
{
    if k <= 0 {
        seq![]
    } else if slugs(b).contains(a[k - 1].view()) {
        reviewers_missing(a, b, k - 1)
    } else {
        reviewers_missing(a, b, k - 1).push(a[k - 1].view())
    }
}

fn contains_string(v: &Vec<String>, s: &str) -> (r: bool)
    ensures
        r == word_views(v@).contains(s@),
{
    let mut i: usize = 0;
    while i < v.len()
        invariant
            i <= v@.len(),
            forall|j: int| 0 <= j < i ==> v@[j]@ != s@,
        decreases v@.len() - i,
    {
        if str_eq(v[i].as_str(), s) {
            assert(word_views(v@)[i as int] == s@);
            return true;
        }
        i = i + 1;
    }
    proof {
        if word_views(v@).contains(s@) {
            let j = choose|j: int| 0 <= j < word_views(v@).len() && word_views(v@)[j] == s@;
            assert(v@[j]@ == s@);
        }
    }
    false
}

fn contains_reviewer(v: &Vec<Reviewer>, r: &Reviewer) -> (b: bool)
    ensures
        b == slugs(v@).contains(r.view()),
{
    let mut i: usize = 0;
    while i < v.len()
        invariant
            i <= v@.len(),
            forall|j: int| 0 <= j < i ==> v@[j].view() != r.view(),
        decreases v@.len() - i,
    {
        if str_eq(v[i].slug(), r.slug()) {
            assert(slugs(v@)[i as int] == r.view());
            return true;
        }
        i = i + 1;
    }
    proof {
        if slugs(v@).contains(r.view()) {
            let j = choose|j: int| 0 <= j < slugs(v@).len() && slugs(v@)[j] == r.view();
            assert(v@[j].view() == r.view());
        }
    }
    false
}

fn find_label_id(ids: &Vec<(String, String)>, name: &str) -> (r: Option<String>)
    ensures
        match r {
            Some(id) => label_id(ids@, name@) == Some(id@),
            None => label_id(ids@, name@) is None,
        },
{
    let mut k: usize = ids.len();
    assert(ids@.subrange(0, ids@.len() as int) =~= ids@);
    while k > 0
        invariant
            k <= ids@.len(),
            label_id(ids@, name@) == label_id(ids@.subrange(0, k as int), name@),
        decreases k,
    {
        let ghost pre = ids@.subrange(0, k as int);
        assert(pre.drop_last() =~= ids@.subrange(0, k - 1));
        if str_eq(ids[k - 1].0.as_str(), name) {
            return Some(ids[k - 1].1.clone());
        }
        k = k - 1;
    }
    None
}

fn strings_missing(a: &Vec<String>, b: &Vec<String>) -> (r: Vec<String>)
    ensures
        word_views(r@) == missing_from(a@, b@, a@.len() as int),
{
    let mut out: Vec<String> = Vec::new();
    let mut k: usize = 0;
    while k < a.len()
        invariant
            k <= a@.len(),
            word_views(out@) == missing_from(a@, b@, k as int),
        decreases a@.len() - k,
    {
        if !contains_string(b, a[k].as_str()) {
            let ghost before = word_views(out@);
            out.push(a[k].clone());
            assert(word_views(out@) =~= before.push(a@[k as int]@));
        }
        k = k + 1;
    }
    out
}

fn reviewers_not_in(a: &Vec<Reviewer>, b: &Vec<Reviewer>) -> (r: Vec<Reviewer>)
    ensures
        slugs(r@) == reviewers_missing(a@, b@, a@.len() as int),
{
    let mut out: Vec<Reviewer> = Vec::new();
    let mut k: usize = 0;
    while k < a.len()
        invariant
            k <= a@.len(),
            slugs(out@) == reviewers_missing(a@, b@, k as int),
        decreases a@.len() - k,
    {
        if !contains_reviewer(b, &a[k]) {
            let ghost before = slugs(out@);
            out.push(a[k].duplicate());
            assert(slugs(out@) =~= before.push(a@[k as int].view()));
        }
        k = k + 1;
    }
    out
}

/// What the plan for an edit is, part by part: each text field is updated
/// only where it changed (the base compared as the branch each side names),
/// the draft flag only when it flips, labels and approvers added and removed
/// by difference, and auto-merge by [`auto_merge_view`].
pub open spec fn planned(
    ctx: ApplyChangesCtx,
    before: Frontmatter,
    before_body: Seq<char>,
    after: Frontmatter,
    after_body: Seq<char>,
    plan: DiffPlan,
) -> bool {
    &&& base_branch(ctx.owner@, before.base@) matches BaseBranch::Branch(b0)
    &&& base_branch(ctx.owner@, after.base@) matches BaseBranch::Branch(b1)
    &&& plan.update.pr_node_id@ == ctx.pr_node_id@
    &&& (plan.update.title matches Some(t) ==> before.title@ != after.title@ && t@
        == after.title@)
    &&& (plan.update.title is None ==> before.title@ == after.title@)
    &&& (plan.update.body matches Some(b) ==> before_body != after_body && b@
        == after_body)
    &&& (plan.update.body is None ==> before_body == after_body)
    &&& (plan.update.base_ref_name matches Some(b) ==> b0 != b1 && b@ == b1)
    &&& (plan.update.base_ref_name is None ==> b0 == b1)
    &&& plan.set_draft == if before.draft != after.draft {
        Some(after.draft)
    } else {
        None
    }
    &&& word_views(plan.labels_added@) == missing_from(
        after.labels@,
        before.labels@,
        after.labels@.len() as int,
    )
    &&& word_views(plan.labels_removed_ids@) == removed_ids(
        before.labels@,
        after.labels@,
        ctx.before_label_ids@,
        before.labels@.len() as int,
    )
    &&& slugs(plan.reviewers_added@) == reviewers_missing(
        after.reviewers@,
        before.reviewers@,
        after.reviewers@.len() as int,
    )
    &&& slugs(plan.reviewers_removed@) == reviewers_missing(
        before.reviewers@,
        after.reviewers@,
        before.reviewers@.len() as int,
    )
    &&& plan.auto_merge == auto_merge_view(
        before.auto_merge,
        before.auto_merge_method,
        after.auto_merge,
        after.auto_merge_method,
        ctx.has_merge_queue,
    )
        }

/// A plan that makes no call.
pub open spec fn plans_nothing(plan: DiffPlan) -> bool {
    &&& plan.update.title is None
    &&& plan.update.body is None
    &&& plan.update.base_ref_name is None
    &&& plan.set_draft is None
    &&& plan.labels_added@.len() == 0
    &&& plan.labels_removed_ids@.len() == 0
    &&& plan.reviewers_added@.len() == 0
    &&& plan.reviewers_removed@.len() == 0
    &&& plan.auto_merge == AutoMergeAction::Keep
}

proof fn lemma_missing_from_self(a: Seq<String>, k: int)
    requires
        k <= a.len(),
    ensures
        missing_from(a, a, k).len() == 0,
    decreases k,
{
    if k > 0 {
        assert(word_views(a)[k - 1] == a[k - 1]@);
        lemma_missing_from_self(a, k - 1);
    }
}

proof fn lemma_removed_ids_self(a: Seq<String>, ids: Seq<(String, String)>, k: int)
    requires
        k <= a.len(),
    ensures
        removed_ids(a, a, ids, k).len() == 0,
    decreases k,
{
    if k > 0 {
        assert(word_views(a)[k - 1] == a[k - 1]@);
        lemma_removed_ids_self(a, ids, k - 1);
    }
}

proof fn lemma_reviewers_missing_self(a: Seq<Reviewer>, k: int)
    requires
        k <= a.len(),
    ensures
        reviewers_missing(a, a, k).len() == 0,
    decreases k,
{
    if k > 0 {
        assert(slugs(a)[k - 1] == a[k - 1].view());
        lemma_reviewers_missing_self(a, k - 1);
    }
}

/// An edit that changes nothing makes no call: saving the editor buffer
/// untouched leaves the PR as it was.
pub proof fn lemma_unchanged_edit_plans_nothing(
    ctx: ApplyChangesCtx,
    fm: Frontmatter,
    body: Seq<char>,
    plan: DiffPlan,
)
    requires
        planned(ctx, fm, body, fm, body, plan),
    ensures
        plans_nothing(plan),
{
    lemma_missing_from_self(fm.labels@, fm.labels@.len() as int);
    lemma_removed_ids_self(fm.labels@, ctx.before_label_ids@, fm.labels@.len() as int);
    lemma_reviewers_missing_self(fm.reviewers@, fm.reviewers@.len() as int);
}

/// Plan the calls that apply the difference between `before` (and its body)
/// and `after` (and its body) to an existing PR.
///
/// Fails before any call when either base names another owner or nothing.
/// Text fields are updated only where they changed; the base is compared as
/// the branch each side names.
pub fn plan_frontmatter_diff(
    ctx: &ApplyChangesCtx,
    before: &Frontmatter,
    before_body: &str,
    after: &Frontmatter,
    after_body: &str,
) -> (r: Result<DiffPlan, BaseSpecError>)
    ensures
        !(base_branch(ctx.owner@, before.base@) is Branch) ==> r is Err,
        !(base_branch(ctx.owner@, after.base@) is Branch) ==> r is Err,
        (base_branch(ctx.owner@, before.base@) is Branch && base_branch(ctx.owner@, after.base@) is Branch)
            ==> r is Ok,
        r matches Ok(plan) ==> planned(*ctx, *before, before_body@, *after, after_body@, plan),
{
    let before_base = match branch_from_base_spec(ctx.owner.as_str(), before.base.as_str()) {
        Ok(b) => b,
        Err(e) => return Err(e),
    };
    let after_base = match branch_from_base_spec(ctx.owner.as_str(), after.base.as_str()) {
        Ok(b) => b,
        Err(e) => return Err(e),
    };
    let title = if str_eq(before.title.as_str(), after.title.as_str()) {
        None
    } else {
        Some(after.title.clone())
    };
    let body = if str_eq(before_body, after_body) {
        None
    } else {
        Some(owned(after_body))
    };
    let base_ref_name = if str_eq(before_base.as_str(), after_base.as_str()) {
        None
    } else {
        Some(after_base)
    };
    let update = UpdatePr { pr_node_id: ctx.pr_node_id.clone(), title, body, base_ref_name };
    let set_draft = if before.draft != after.draft {
        Some(after.draft)
    } else {
        None
    };
    let labels_added = strings_missing(&after.labels, &before.labels);
    let mut labels_removed_ids: Vec<String> = Vec::new();
    let mut k: usize = 0;
    while k < before.labels.len()
        invariant
            k <= before.labels@.len(),
            word_views(labels_removed_ids@) == removed_ids(
                before.labels@,
                after.labels@,
                ctx.before_label_ids@,
                k as int,
            ),
        decreases before.labels@.len() - k,
    {
        if !contains_string(&after.labels, before.labels[k].as_str()) {
            if let Some(id) = find_label_id(&ctx.before_label_ids, before.labels[k].as_str()) {
                let ghost prev = word_views(labels_removed_ids@);
                labels_removed_ids.push(id);
                assert(word_views(labels_removed_ids@) =~= prev.push(id@));
            }
        }
        k = k + 1;
    }
    let reviewers_added = reviewers_not_in(&after.reviewers, &before.reviewers);
    let reviewers_removed = reviewers_not_in(&before.reviewers, &after.reviewers);
    let auto_merge = if !before.auto_merge && after.auto_merge {
        if ctx.has_merge_queue {
            AutoMergeAction::MergeQueueRefused
        } else {
            AutoMergeAction::Enable(after.auto_merge_method)
        }
    } else if before.auto_merge && !after.auto_merge {
        AutoMergeAction::Disable
    } else if before.auto_merge && after.auto_merge && before.auto_merge_method
        != after.auto_merge_method {
        if ctx.has_merge_queue {
            AutoMergeAction::MergeQueueRefused
        } else {
            AutoMergeAction::Reenable(after.auto_merge_method)
        }
    } else {
        AutoMergeAction::Keep
    };
    Ok(
        DiffPlan {
            update,
            set_draft,
            labels_added,
            labels_removed_ids,
            reviewers_added,
            reviewers_removed,
            auto_merge,
        },
    )
}

} // verus!
