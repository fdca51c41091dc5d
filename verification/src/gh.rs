//! The GitHub-side data the planning logic reads and writes.
//!
//! These are plain records: the binary fills them from API responses and
//! turns the library's plans back into API calls.

use crate::config::AutoMergeMethod;
use crate::reviewer::Reviewer;
use vstd::prelude::*;

verus! {

/// Summary of an existing pull request: just the fields that get rendered.
#[derive(Debug, Clone)]
pub struct PrSummary {
    pub number: u64,
    pub html_url: String,
    pub title: String,
    pub state: String,
}

/// One label on a PR, with both the name and the GraphQL node ID needed to
/// remove it.
#[derive(Debug, Clone, PartialEq, Eq)]
pub struct Label {
    pub name: String,
    pub node_id: String,
}

/// Full PR metadata. `head_user_login` / `head_repo_name` are `None` when
/// GitHub returns a null user or repo (e.g. the source fork was deleted).
#[derive(Debug, Clone)]
pub struct PrDetails {
    pub is_draft: bool,
    pub auto_merge: bool,
    pub auto_merge_method: Option<AutoMergeMethod>,
    pub number: u64,
    pub title: String,
    pub html_url: String,
    pub head_ref: String,
    /// In GraphQL this is called `headRefOid`.
    pub head_sha: String,
    pub base_ref: String,
    pub head_user_login: Option<String>,
    pub head_repo_name: Option<String>,
    pub graphql_node_id: String,
    /// True when the PR's base branch has a merge queue, which decides
    /// whether "merge when ready" goes through the queue.
    pub in_merge_queue: bool,
    pub labels: Vec<Label>,
    pub reviewers: Vec<Reviewer>,
    pub body: String,
    /// The GitHub stack this PR belongs to, if any.
    pub stack_number: Option<u64>,
}

/// The base repository's GraphQL node ID plus whether the requested branch
/// exists.
#[derive(Debug, Clone)]
pub struct BaseLookup {
    pub repo_node_id: String,
    pub branch_exists: bool,
}

/// Inputs to a PR creation. The base repository is identified by its GraphQL
/// node ID.
#[derive(Debug, Clone)]
pub struct CreatePrRequest {
    pub repo_node_id: String,
    pub title: String,
    pub body: String,
    /// Head spec: the branch name for same-repo PRs, `owner:branch` for forks.
    pub head: String,
    pub base: String,
    pub draft: bool,
}

/// Mutable text fields on an existing PR. `None` fields are left untouched.
#[derive(Debug, Clone, Default)]
pub struct UpdatePr {
    pub pr_node_id: String,
    pub title: Option<String>,
    pub body: Option<String>,
    pub base_ref_name: Option<String>,
}

impl UpdatePr {
    /// True when no text field would change, so the API call can be skipped.
    pub fn is_noop(&self) -> (r: bool)
        ensures
            r == (self.title is None && self.body is None && self.base_ref_name is None),
    {
        self.title.is_none() && self.body.is_none() && self.base_ref_name.is_none()
    }
}

/// Result of a successful PR creation.
#[derive(Debug, Clone)]
pub struct PrCreated {
    pub number: u64,
    pub html_url: String,
    /// GraphQL node ID, needed to enable auto-merge.
    pub node_id: String,
    /// True when the PR's base branch has a merge queue.
    pub has_merge_queue: bool,
}

/// One member of a GitHub PR stack.
#[derive(Debug, Clone, Copy, PartialEq, Eq)]
pub struct StackPullRequest {
    pub number: u64,
}

/// A GitHub PR stack, members ordered bottom to top.
#[derive(Debug, Clone, PartialEq, Eq)]
pub struct PullRequestStack {
    pub number: u64,
    pub pull_requests: Vec<StackPullRequest>,
}

/// Rolled-up CI status of a pull request.
#[derive(Debug, Clone, Copy, PartialEq, Eq)]
pub enum CiStatus {
    /// All checks succeeded.
    Success,
    /// At least one check failed.
    Failed,
    /// Checks still running or expected.
    Pending,
    /// No checks have been configured for the PR.
    NoChecks,
}

/// Per-bucket check counts for a PR's status check rollup.
#[derive(Debug, Clone, Copy, Default, PartialEq, Eq)]
pub struct CiCounts {
    /// Checks queued, in progress, expected, or otherwise not concluded.
    pub pending: u32,
    /// Checks that finished with a non-success conclusion.
    pub failed: u32,
    /// Checks that finished with a success-equivalent conclusion.
    pub passed: u32,
}

/// Open PR with CI status and head commit SHA.
#[derive(Debug, Clone)]
pub struct PrWithCiStatus {
    /// GraphQL node ID.
    pub id: String,
    pub number: u64,
    pub url: String,
    pub title: String,
    /// Name of the branch the PR is opened from.
    pub head_ref_name: String,
    /// SHA of the head commit on the remote.
    pub head_sha: String,
    /// Name of the branch the PR targets.
    pub base_ref_name: String,
    pub is_draft: bool,
    pub merged: bool,
    pub is_in_merge_queue: bool,
    pub ci_status: CiStatus,
    pub ci_counts: CiCounts,
    pub auto_merge_enabled: bool,
}

} // verus!
