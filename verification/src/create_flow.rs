//! The decisions of `pr create`, one revision at a time.
//!
//! Creating a PR alternates between asking `jj` and GitHub and deciding what
//! to do with the answers. The asking happens in the binary; each decision
//! is a function here: which base the PR gets, which revision that base is,
//! which title is the default, what the editor starts from, which branch is
//! pushed, and what the creation request and the follow-up metadata update
//! hold.
use vstd::prelude::*;
use crate::config::{AutoMergeMethod, DefaultTitleSource};
use crate::frontmatter::Frontmatter;
use crate::gh::{BaseLookup, CreatePrRequest, PrDetails};
use crate::jj::CommitInfo;
use crate::text::{chars_of, concat, owned, push_str, string_from_range, trim, trim_bounds};
use crate::title::{valid_title_view, TitleCandidate};

verus! {

/// Why `pr create` stops before creating anything.
#[derive(Debug, Clone, PartialEq, Eq)]
pub enum CreateError {
    /// No `--base`, no ancestor bookmark, no `trunk()` and no configured
    /// default base.
    NoBase,
    /// The base branch is not on the target repository.
    BaseMissing { branch: String, owner: String, repo: String },
    /// The base branch is on GitHub but the local repository has no copy of
    /// it from `remote`.
    RemoteBaseMissing { branch: String, remote: String },
    /// The title revset holds no commits.
    NoCommits,
    /// The commit chosen for the default title has no usable title; `newest`
    /// tells which end of the revset it was.
    InvalidTitle { newest: bool },
    /// Pushing `rev` created no bookmark.
    NoBookmark { rev: String },
}

impl CreateError {
    /// The user-facing message.
    pub open spec fn message_view(&self) -> Seq<char> {
        match self {
            CreateError::NoBase => "could not detect base branch: `--base` not passed, no ancestor bookmark on the stack, jj `trunk()` resolves to nothing, and `default_base_branch` is not set in config"@,
            CreateError::BaseMissing { branch, owner, repo } => "base branch `"@ + branch@
                + "` does not exist on "@ + owner@ + "/"@ + repo@,
            CreateError::RemoteBaseMissing { branch, remote } => "base branch `"@ + branch@
                + "` exists on GitHub, but the local repository does not have `"@ + branch@
                + "@"@ + remote@ + "`; fetch that remote and try again"@,
            CreateError::NoCommits => "no commits found in the PR revset"@,
            CreateError::InvalidTitle { newest } => (if *newest {
                "newest"@
            } else {
                "oldest"@
            }) + " commit produced an invalid PR title"@,
            CreateError::NoBookmark { rev } => "`jj git push -c "@ + rev@
                + "` did not create a bookmark"@,
        }
    }

    /// The user-facing message.
    pub fn message(&self) -> (m: String)
        ensures
            m@ == self.message_view(),
    {
        match self {
            CreateError::NoBase => owned(
                "could not detect base branch: `--base` not passed, no ancestor bookmark on the stack, jj `trunk()` resolves to nothing, and `default_base_branch` is not set in config",
            ),
            CreateError::BaseMissing { branch, owner, repo } => {
                let mut m = concat("base branch `", branch.as_str());
                push_str(&mut m, "` does not exist on ");
                push_str(&mut m, owner.as_str());
                push_str(&mut m, "/");
                push_str(&mut m, repo.as_str());
                m
            },
            CreateError::RemoteBaseMissing { branch, remote } => {
                let mut m = concat("base branch `", branch.as_str());
                push_str(&mut m, "` exists on GitHub, but the local repository does not have `");
                push_str(&mut m, branch.as_str());
                push_str(&mut m, "@");
                push_str(&mut m, remote.as_str());
                push_str(&mut m, "`; fetch that remote and try again");
                m
            },
            CreateError::NoCommits => owned("no commits found in the PR revset"),
            CreateError::InvalidTitle { newest } => {
                let mut m = if *newest {
                    owned("newest")
                } else {
                    owned("oldest")
                };
                push_str(&mut m, " commit produced an invalid PR title");
                m
            },
            CreateError::NoBookmark { rev } => {
                let mut m = concat("`jj git push -c ", rev.as_str());
                push_str(&mut m, "` did not create a bookmark");
                m
            },
        }
    }
}

/// The base a PR is opened against, and the local revision that base is at
/// when `jj` supplied it (an ancestor bookmark, or `trunk()`).
#[derive(Debug, Clone, PartialEq, Eq)]
pub struct BaseChoice {
    pub branch: String,
    pub local_rev: Option<String>,
}

/// The base, by precedence: `--base` from the command line, then the
/// closest ancestor bookmark on the stack (its own revision), then jj's
/// `trunk()` bookmark (revision `trunk()`), then the configured default
/// base; none of them is an error.
pub open spec fn base_choice_view(
    cli: Option<Seq<char>>,
    ancestor: Option<Seq<char>>,
    trunk: Option<Seq<char>>,
    fallback: Option<Seq<char>>,
) -> Option<(Seq<char>, Option<Seq<char>>)> {
    match cli {
        Some(b) => Some((b, None)),
        None => match ancestor {
            Some(a) => Some((a, Some(a))),
            None => match trunk {
                Some(t) => Some((t, Some("trunk()"@))),
                None => match fallback {
                    Some(f) => Some((f, None)),
                    None => None,
                },
            },
        },
    }
}

/// Choose the PR's base. `ancestor` and `trunk` are what `jj` answered, or
/// `None` when it was not asked because an earlier source decided.
pub fn choose_base(
    cli: Option<&str>,
    ancestor: Option<&str>,
    trunk: Option<&str>,
    fallback: Option<&str>,
) -> (r: Result<BaseChoice, CreateError>)
    ensures
        match base_choice_view(
            crate::text::opt_str(cli),
            crate::text::opt_str(ancestor),
            crate::text::opt_str(trunk),
            crate::text::opt_str(fallback),
        ) {
            Some((branch, local)) => r matches Ok(c) && c.branch@ == branch && (match c.local_rev {
                Some(s) => Some(s@),
                None => None,
            }) == local,
            None => r == Err::<BaseChoice, CreateError>(CreateError::NoBase),
        },
{
    match cli {
        Some(b) => Ok(BaseChoice { branch: owned(b), local_rev: None }),
        None => match ancestor {
            Some(a) => Ok(BaseChoice { branch: owned(a), local_rev: Some(owned(a)) }),
            None => match trunk {
                Some(t) => Ok(BaseChoice { branch: owned(t), local_rev: Some(owned("trunk()")) }),
                None => match fallback {
                    Some(f) => Ok(BaseChoice { branch: owned(f), local_rev: None }),
                    None => Err(CreateError::NoBase),
                },
            },
        },
    }
}

/// The base branch must exist on the target repository.
pub fn check_base_exists(lookup: &BaseLookup, branch: &str, owner: &str, repo: &str) -> (r: Result<
    (),
    CreateError,
>)
    ensures
        lookup.branch_exists ==> r is Ok,
        !lookup.branch_exists ==> (r matches Err(CreateError::BaseMissing { branch: b, owner: o, repo: p })
            && b@ == branch@ && o@ == owner@ && p@ == repo@),
{
    if lookup.branch_exists {
        Ok(())
    } else {
        Err(CreateError::BaseMissing { branch: owned(branch), owner: owned(owner), repo: owned(repo) })
    }
}

/// The revision the title revset starts from: the local revision `jj`
/// gave with the base, else the commit of `branch@remote`, which must exist.
pub fn base_revision(choice: &BaseChoice, remote_sha: Option<String>, remote: &str) -> (r: Result<
    String,
    CreateError,
>)
    ensures
        match choice.local_rev {
            Some(local) => r matches Ok(rev) && rev@ == local@,
            None => match remote_sha {
                Some(sha) => r matches Ok(rev) && rev@ == sha@,
                None => r matches Err(CreateError::RemoteBaseMissing { branch: b, remote: m })
                    && b@ == choice.branch@ && m@ == remote@,
            },
        },
{
    match &choice.local_rev {
        Some(local) => Ok(owned(local.as_str())),
        None => match remote_sha {
            Some(sha) => Ok(sha),
            None => Err(
                CreateError::RemoteBaseMissing {
                    branch: owned(choice.branch.as_str()),
                    remote: owned(remote),
                },
            ),
        },
    }
}

/// The default title: the trimmed title of the oldest (for
/// [`DefaultTitleSource::Base`]) or newest (for [`DefaultTitleSource::Head`])
/// candidate, which must be a single non-empty line.
pub fn default_title(candidates: &[TitleCandidate], source: DefaultTitleSource) -> (r: Result<
    String,
    CreateError,
>)
    ensures
        candidates@.len() == 0 ==> r == Err::<String, CreateError>(CreateError::NoCommits),
        candidates@.len() > 0 ==> {
            let c = candidates@[match source {
                DefaultTitleSource::Base => 0,
                DefaultTitleSource::Head => candidates@.len() - 1,
            }];
            match valid_title_view(c.title@) {
                Some(t) => r matches Ok(s) && s@ == t,
                None => r == Err::<String, CreateError>(
                    CreateError::InvalidTitle { newest: source == DefaultTitleSource::Head },
                ),
            }
        },
{
    match crate::title::default_candidate(source, candidates) {
        None => Err(CreateError::NoCommits),
        Some(c) => match c.valid_title() {
            Some(t) => Ok(owned(t)),
            None => Err(
                CreateError::InvalidTitle {
                    newest: match source {
                        DefaultTitleSource::Base => false,
                        DefaultTitleSource::Head => true,
                    },
                },
            ),
        },
    }
}

/// The diff shown below the body in the editor: the rendered diff trimmed,
/// or nothing when it is missing or blank.
pub fn diff_preview(diff: Option<&str>) -> (r: Option<String>)
    ensures
        match diff {
            Some(d) => if trim(d@).len() > 0 {
                r matches Some(p) && p@ == trim(d@)
            } else {
                r is None
            },
            None => r is None,
        },
{
    match diff {
        None => None,
        Some(d) => {
            let v = chars_of(d);
            let (lo, hi) = trim_bounds(&v);
            if lo == hi {
                None
            } else {
                Some(string_from_range(&v, lo, hi))
            }
        },
    }
}

/// The frontmatter the editor starts from: the default title and the
/// editor-facing base, no labels nor approvers, and the draft and
/// auto-merge settings asked for.
pub fn initial_frontmatter(
    title: String,
    base_display: String,
    draft: bool,
    auto_merge: bool,
    auto_merge_method: AutoMergeMethod,
) -> (fm: Frontmatter)
    ensures
        fm.title == title,
        fm.base == base_display,
        fm.labels@.len() == 0,
        fm.reviewers@.len() == 0,
        fm.draft == draft,
        fm.auto_merge == auto_merge,
        fm.auto_merge_method == auto_merge_method,
{
    Frontmatter {
        title,
        base: base_display,
        labels: Vec::new(),
        reviewers: Vec::new(),
        draft,
        auto_merge,
        auto_merge_method,
    }
}

/// The body used without an editor: the rendered template, or nothing.
pub fn body_without_editor(template: Option<String>) -> (r: String)
    ensures
        r@ == (match template {
            Some(t) => t@,
            None => Seq::<char>::empty(),
        }),
{
    match template {
        Some(t) => t,
        None => String::new(),
    }
}

/// Whether the edited base needs a second lookup: only when it names
/// another branch than the one already checked.
pub fn needs_base_lookup(final_branch: &str, checked_branch: &str) -> (r: bool)
    ensures
        r == (final_branch@ != checked_branch@),
{
    !crate::text::str_eq(final_branch, checked_branch)
}

/// The branch of the new PR: the bookmark the revision already had, else
/// the first bookmark `jj git push -c` made for it.
pub fn pushed_branch(existing: Option<String>, after_push: &[String], rev: &str) -> (r: Result<
    String,
    CreateError,
>)
    ensures
        match existing {
            Some(b) => r matches Ok(s) && s@ == b@,
            None => if after_push@.len() > 0 {
                r matches Ok(s) && s@ == after_push@[0]@
            } else {
                r matches Err(CreateError::NoBookmark { rev: x }) && x@ == rev@
            },
        },
{
    match existing {
        Some(b) => Ok(b),
        None => if after_push.len() > 0 {
            Ok(owned(after_push[0].as_str()))
        } else {
            Err(CreateError::NoBookmark { rev: owned(rev) })
        },
    }
}

/// The creation request for the edited frontmatter and body.
pub fn create_request(
    fm: &Frontmatter,
    body: &str,
    lookup: &BaseLookup,
    head_spec: String,
    base_branch: String,
) -> (req: CreatePrRequest)
    ensures
        req.title@ == fm.title@,
        req.body@ == body@,
        req.draft == fm.draft,
        req.repo_node_id@ == lookup.repo_node_id@,
        req.head == head_spec,
        req.base == base_branch,
{
    CreatePrRequest {
        repo_node_id: owned(lookup.repo_node_id.as_str()),
        title: owned(fm.title.as_str()),
        body: owned(body),
        head: head_spec,
        base: base_branch,
        draft: fm.draft,
    }
}

/// The frontmatter taken as the PR's state right after creation: title,
/// base and draft are already what the editor asked for, and there are no
/// labels, approvers nor auto-merge yet. Comparing against it leaves only
/// labels, approvers and auto-merge to apply.
pub fn created_frontmatter(edited: &Frontmatter) -> (fm: Frontmatter)
    ensures
        fm.title@ == edited.title@,
        fm.base@ == edited.base@,
        fm.labels@.len() == 0,
        fm.reviewers@.len() == 0,
        fm.draft == edited.draft,
        !fm.auto_merge,
        fm.auto_merge_method == edited.auto_merge_method,
{
    Frontmatter {
        title: owned(edited.title.as_str()),
        base: owned(edited.base.as_str()),
        labels: Vec::new(),
        reviewers: Vec::new(),
        draft: edited.draft,
        auto_merge: false,
        auto_merge_method: edited.auto_merge_method,
    }
}

/// Each created revision's first bookmark with its commit: the heads that
/// stack detection maps to local commits. Revisions without a bookmark are
/// left out.
pub open spec fn heads_of_infos(infos: Seq<CommitInfo>) -> Seq<(Seq<char>, Seq<char>)>
    decreases infos.len(),
{
    if infos.len() == 0 {
        seq![]
    } else {
        let last = infos.last();
        let rest = heads_of_infos(infos.drop_last());
        if last.bookmarks@.len() > 0 {
            rest.push((last.bookmarks@[0]@, last.commit_id@))
        } else {
            rest
        }
    }
}

/// Pairs each revision's first bookmark with its commit id.
pub fn heads_from_infos(infos: &[CommitInfo]) -> (r: Vec<(String, String)>)
    ensures
        r@.map_values(|e: (String, String)| (e.0@, e.1@)) == heads_of_infos(infos@),
{
    let mut out: Vec<(String, String)> = Vec::new();
    let mut i: usize = 0;
    while i < infos.len()
        invariant
            i <= infos.len(),
            out@.map_values(|e: (String, String)| (e.0@, e.1@)) == heads_of_infos(
                infos@.subrange(0, i as int),
            ),
        decreases infos.len() - i,
    {
        let ghost before = out@.map_values(|e: (String, String)| (e.0@, e.1@));
        proof {
            assert(infos@.subrange(0, i + 1).drop_last() =~= infos@.subrange(0, i as int));
        }
        let info = &infos[i];
        if info.bookmarks.len() > 0 {
            out.push((owned(info.bookmarks[0].as_str()), owned(info.commit_id.as_str())));
            proof {
                assert(out@.map_values(|e: (String, String)| (e.0@, e.1@)) =~= before.push(
                    (info.bookmarks@[0]@, info.commit_id@),
                ));
            }
        }
        i = i + 1;
    }
    proof {
        assert(infos@.subrange(0, i as int) =~= infos@);
    }
    out
}

/// Whether the details already cover PR `number`; a single new PR is added
/// to the set before stack detection when they do not.
pub fn covers_pr(details: &[PrDetails], number: u64) -> (r: bool)
    ensures
        r == exists|i: int| 0 <= i < details@.len() && #[trigger] details@[i].number == number,
{
    let mut i: usize = 0;
    while i < details.len()
        invariant
            i <= details.len(),
            forall|j: int| 0 <= j < i ==> #[trigger] details@[j].number != number,
        decreases details.len() - i,
    {
        if details[i].number == number {
            return true;
        }
        i = i + 1;
    }
    false
}


/// Where `pr create` stands for one revision. The steps run in this order;
/// the last three end the run.
#[derive(Debug, Clone, Copy, PartialEq, Eq, Structural)]
pub enum CreateStep {
    /// Resolve the revision and its bookmark.
    Resolve,
    /// Look for an open PR on the revision's bookmark.
    FindExisting,
    /// Check on GitHub that the chosen base branch exists.
    VerifyBase,
    /// Settle title, body and frontmatter, in the editor when there is one.
    Compose,
    /// Check on GitHub that the base chosen while composing exists.
    VerifyComposedBase,
    /// Push the revision's bookmark.
    Push,
    /// Open the pull request.
    OpenPr,
    /// Apply labels, requested approvers and auto-merge to the new PR.
    ApplyMetadata,
    /// Done: a new PR is open.
    Created,
    /// Done: an open PR already exists for the head; nothing is created.
    AlreadyOpen,
    /// Stopped: the base branch does not exist on GitHub.
    BaseMissing,
}

/// What the step just taken found.
#[derive(Debug, Clone, Copy, PartialEq, Eq, Structural)]
pub enum CreateEvent {
    /// The revision is resolved; it has a bookmark or not.
    Resolved { has_bookmark: bool },
    /// An open PR exists for the head.
    OpenPrFound,
    /// No open PR exists for the head.
    NoOpenPr,
    /// The base branch exists on GitHub.
    BaseFound,
    /// The base branch does not exist on GitHub.
    BaseNotFound,
    /// Composing is done; the base was changed or not.
    Composed { base_changed: bool },
    /// The bookmark is pushed.
    PushDone,
    /// The PR is open.
    PrOpened,
    /// The metadata is applied.
    MetadataApplied,
}

/// The step after `step` once `event` is known. An event that does not
/// answer the step leaves the step where it is.
pub open spec fn next_step(step: CreateStep, event: CreateEvent) -> CreateStep {
    match step {
        CreateStep::Resolve => match event {
            CreateEvent::Resolved { has_bookmark } => if has_bookmark {
                CreateStep::FindExisting
            } else {
                CreateStep::VerifyBase
            },
            _ => step,
        },
        CreateStep::FindExisting => match event {
            CreateEvent::OpenPrFound => CreateStep::AlreadyOpen,
            CreateEvent::NoOpenPr => CreateStep::VerifyBase,
            _ => step,
        },
        CreateStep::VerifyBase => match event {
            CreateEvent::BaseFound => CreateStep::Compose,
            CreateEvent::BaseNotFound => CreateStep::BaseMissing,
            _ => step,
        },
        CreateStep::Compose => match event {
            CreateEvent::Composed { base_changed } => if base_changed {
                CreateStep::VerifyComposedBase
            } else {
                CreateStep::Push
            },
            _ => step,
        },
        CreateStep::VerifyComposedBase => match event {
            CreateEvent::BaseFound => CreateStep::Push,
            CreateEvent::BaseNotFound => CreateStep::BaseMissing,
            _ => step,
        },
        CreateStep::Push => match event {
            CreateEvent::PushDone => CreateStep::OpenPr,
            _ => step,
        },
        CreateStep::OpenPr => match event {
            CreateEvent::PrOpened => CreateStep::ApplyMetadata,
            _ => step,
        },
        CreateStep::ApplyMetadata => match event {
            CreateEvent::MetadataApplied => CreateStep::Created,
            _ => step,
        },
        _ => step,
    }
}

/// The step `pr create` takes after `step` once `event` is known.
pub fn create_next(step: CreateStep, event: CreateEvent) -> (r: CreateStep)
    ensures
        r == next_step(step, event),
{
    match step {
        CreateStep::Resolve => match event {
            CreateEvent::Resolved { has_bookmark } => if has_bookmark {
                CreateStep::FindExisting
            } else {
                CreateStep::VerifyBase
            },
            _ => step,
        },
        CreateStep::FindExisting => match event {
            CreateEvent::OpenPrFound => CreateStep::AlreadyOpen,
            CreateEvent::NoOpenPr => CreateStep::VerifyBase,
            _ => step,
        },
        CreateStep::VerifyBase => match event {
            CreateEvent::BaseFound => CreateStep::Compose,
            CreateEvent::BaseNotFound => CreateStep::BaseMissing,
            _ => step,
        },
        CreateStep::Compose => match event {
            CreateEvent::Composed { base_changed } => if base_changed {
                CreateStep::VerifyComposedBase
            } else {
                CreateStep::Push
            },
            _ => step,
        },
        CreateStep::VerifyComposedBase => match event {
            CreateEvent::BaseFound => CreateStep::Push,
            CreateEvent::BaseNotFound => CreateStep::BaseMissing,
            _ => step,
        },
        CreateStep::Push => match event {
            CreateEvent::PushDone => CreateStep::OpenPr,
            _ => step,
        },
        CreateStep::OpenPr => match event {
            CreateEvent::PrOpened => CreateStep::ApplyMetadata,
            _ => step,
        },
        CreateStep::ApplyMetadata => match event {
            CreateEvent::MetadataApplied => CreateStep::Created,
            _ => step,
        },
        _ => step,
    }
}

/// The step reached from `Resolve` after `events`.
pub open spec fn step_after(events: Seq<CreateEvent>) -> CreateStep
    decreases events.len(),
{
    if events.len() == 0 {
        CreateStep::Resolve
    } else {
        next_step(step_after(events.drop_last()), events.last())
    }
}

/// Steps reached only once the chosen base was found on GitHub.
pub open spec fn past_base_check(step: CreateStep) -> bool {
    ||| step is Compose
    ||| step is VerifyComposedBase
    ||| step is Push
    ||| step is OpenPr
    ||| step is ApplyMetadata
    ||| step is Created
}

/// Steps reached only once the bookmark was pushed.
pub open spec fn past_push(step: CreateStep) -> bool {
    ||| step is OpenPr
    ||| step is ApplyMetadata
    ||| step is Created
}

/// Whether, at some point of `events`, the check of the chosen base found it.
pub open spec fn base_found_in(events: Seq<CreateEvent>) -> bool {
    exists|i: int|
        0 <= i < events.len() && #[trigger] step_after(events.subrange(0, i)) is VerifyBase
            && events[i] is BaseFound
}

/// Whether, at some point of `events`, the push was done.
pub open spec fn pushed_in(events: Seq<CreateEvent>) -> bool {
    exists|i: int|
        0 <= i < events.len() && #[trigger] step_after(events.subrange(0, i)) is Push
            && events[i] is PushDone
}

/// A point of `events` without its last event is a point of `events`.
proof fn lemma_prefix_of_drop_last(events: Seq<CreateEvent>, i: int)
    requires
        0 <= i < events.len(),
    ensures
        events.drop_last().subrange(0, i) == events.subrange(0, i),
        i < events.len() - 1 ==> events.drop_last()[i] == events[i],
{
    assert(events.drop_last().subrange(0, i) =~= events.subrange(0, i));
}

/// Law of `pr create`: nothing is pushed, and no PR opened, before the
/// chosen base branch was found on GitHub.
pub proof fn lemma_base_checked_before_push(events: Seq<CreateEvent>)
    requires
        past_base_check(step_after(events)),
    ensures
        base_found_in(events),
    decreases events.len(),
{
    let n = events.len() as int;
    let d = events.drop_last();
    assert(n > 0);
    assert(events.subrange(0, n - 1) =~= d);
    if past_base_check(step_after(d)) {
        lemma_base_checked_before_push(d);
        let i = choose|i: int|
            0 <= i < d.len() && #[trigger] step_after(d.subrange(0, i)) is VerifyBase && d[i] is BaseFound;
        lemma_prefix_of_drop_last(events, i);
        assert(step_after(events.subrange(0, i)) is VerifyBase && events[i] is BaseFound);
    } else {
        assert(step_after(events.subrange(0, n - 1)) is VerifyBase && events[n - 1] is BaseFound);
    }
}

/// Law of `pr create`: no PR is opened before the bookmark was pushed.
pub proof fn lemma_pushed_before_open(events: Seq<CreateEvent>)
    requires
        past_push(step_after(events)),
    ensures
        pushed_in(events),
    decreases events.len(),
{
    let n = events.len() as int;
    let d = events.drop_last();
    assert(n > 0);
    assert(events.subrange(0, n - 1) =~= d);
    if past_push(step_after(d)) {
        lemma_pushed_before_open(d);
        let i = choose|i: int|
            0 <= i < d.len() && #[trigger] step_after(d.subrange(0, i)) is Push && d[i] is PushDone;
        lemma_prefix_of_drop_last(events, i);
        assert(step_after(events.subrange(0, i)) is Push && events[i] is PushDone);
    } else {
        assert(step_after(events.subrange(0, n - 1)) is Push && events[n - 1] is PushDone);
    }
}

/// Law of `pr create`: once an open PR is found for the head, the run stays
/// there whatever follows, so no second PR is created for it.
pub proof fn lemma_open_pr_found_is_final(events: Seq<CreateEvent>, i: int)
    requires
        0 <= i <= events.len(),
        step_after(events.subrange(0, i)) is AlreadyOpen,
    ensures
        step_after(events) is AlreadyOpen,
    decreases events.len(),
{
    if i == events.len() {
        assert(events.subrange(0, i) =~= events);
    } else {
        lemma_prefix_of_drop_last(events, i);
        if i < events.len() - 1 {
            lemma_open_pr_found_is_final(events.drop_last(), i);
        } else {
            assert(events.subrange(0, i) =~= events.drop_last());
        }
    }
}


/// Steps that come after composing.
pub open spec fn beyond_compose(step: CreateStep) -> bool {
    ||| step is VerifyComposedBase
    ||| step is Push
    ||| step is OpenPr
    ||| step is ApplyMetadata
    ||| step is Created
    ||| step is BaseMissing
}

/// Once composing is done, the run never comes back to it.
proof fn lemma_beyond_compose_stays(events: Seq<CreateEvent>, i: int, k: int)
    requires
        0 <= i < k <= events.len(),
        step_after(events.subrange(0, i)) is Compose,
        events[i] is Composed,
    ensures
        beyond_compose(step_after(events.subrange(0, k))),
    decreases k - i,
{
    let p = events.subrange(0, k);
    assert(p.drop_last() =~= events.subrange(0, k - 1));
    assert(p.last() == events[k - 1]);
    if k - 1 > i {
        lemma_beyond_compose_stays(events, i, k - 1);
    }
}

/// Law of `pr create`: when composing changed the base, nothing is pushed,
/// and no PR opened, before the new base was found on GitHub.
pub proof fn lemma_composed_base_checked_before_push(events: Seq<CreateEvent>, i: int)
    requires
        0 <= i < events.len(),
        step_after(events.subrange(0, i)) is Compose,
        events[i] == (CreateEvent::Composed { base_changed: true }),
        step_after(events) is Push || past_push(step_after(events)),
    ensures
        exists|j: int|
            i < j < events.len() && #[trigger] step_after(events.subrange(0, j)) is VerifyComposedBase
                && events[j] is BaseFound,
    decreases events.len(),
{
    let n = events.len() as int;
    let d = events.drop_last();
    assert(events.subrange(0, n - 1) =~= d);
    if i == n - 1 {
        assert(events.subrange(0, i) =~= d);
    } else {
        lemma_prefix_of_drop_last(events, i);
        if step_after(d) is Push || past_push(step_after(d)) {
            lemma_composed_base_checked_before_push(d, i);
            let j = choose|j: int|
                i < j < d.len() && #[trigger] step_after(d.subrange(0, j)) is VerifyComposedBase
                    && d[j] is BaseFound;
            lemma_prefix_of_drop_last(events, j);
            assert(step_after(events.subrange(0, j)) is VerifyComposedBase && events[j] is BaseFound);
        } else {
            lemma_beyond_compose_stays(events, i, n - 1);
            assert(step_after(events.subrange(0, n - 1)) is VerifyComposedBase && events[n - 1] is BaseFound);
        }
    }
}

} // verus!
