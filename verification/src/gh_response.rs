//! Turning GitHub's GraphQL answers into the library's records.
//!
//! The binary decodes the JSON into the plain node types below; everything
//! that decides what survives (absent nodes, approvers that do not parse,
//! negative numbers, unknown merge methods) happens here.

use crate::ci::{auto_merge_enabled, bucket_count, ci_status, count_contexts, status_of, CheckContext, StatusState};
use crate::config::AutoMergeMethod;
use crate::gh::{CiCounts, CiStatus, Label, PrDetails, PrWithCiStatus};
use crate::reviewer::{reviewer_slug, Reviewer, ReviewerError};
use crate::text::{count_char, push_decimal, push_str};
use vstd::prelude::*;

verus! {

/// The entries of a list that are present, in order.
pub open spec fn present<T>(s: Seq<Option<T>>) -> Seq<T>
    decreases s.len(),
{
    if s.len() == 0 {
        Seq::empty()
    } else {
        let rest = present(s.drop_last());
        match s.last() {
            Some(x) => rest.push(x),
            None => rest,
        }
    }
}

/// Who a review was requested from, as GitHub reports it.
#[derive(Debug, Clone, PartialEq, Eq)]
pub enum RequestedReviewer {
    User(String),
    Bot(String),
    Mannequin(String),
    /// A team, by its `org/team` slug.
    Team(String),
    /// An enterprise team, by its `org/team` slug.
    EnterpriseTeam(String),
}

/// The login or combined slug a request names.
pub open spec fn requested_slug(r: RequestedReviewer) -> Seq<char> {
    match r {
        RequestedReviewer::User(s) => s@,
        RequestedReviewer::Bot(s) => s@,
        RequestedReviewer::Mannequin(s) => s@,
        RequestedReviewer::Team(s) => s@,
        RequestedReviewer::EnterpriseTeam(s) => s@,
    }
}

/// Whether an approver slug parses: something is left after trimming and
/// dropping a leading `@`, with at most one `/`.
pub open spec fn parses(raw: Seq<char>) -> bool {
    reviewer_slug(raw).len() > 0 && count_char(reviewer_slug(raw), '/') <= 1
}

/// The slugs of the requested approvers that parse, in order; absent nodes
/// and nodes without an approver are skipped.
pub open spec fn kept_reviewers(nodes: Seq<Option<Option<RequestedReviewer>>>) -> Seq<Seq<char>>
    decreases nodes.len(),
{
    if nodes.len() == 0 {
        Seq::empty()
    } else {
        let rest = kept_reviewers(nodes.drop_last());
        match nodes.last() {
            Some(Some(r)) => if parses(requested_slug(r)) {
                rest.push(reviewer_slug(requested_slug(r)))
            } else {
                rest
            },
            _ => rest,
        }
    }
}

pub open spec fn reviewer_views(rs: Seq<Reviewer>) -> Seq<Seq<char>> {
    rs.map_values(|r: Reviewer| r.view())
}

fn slug_of(r: &RequestedReviewer) -> (s: &String)
    ensures
        s@ == requested_slug(*r),
{
    match r {
        RequestedReviewer::User(s) => s,
        RequestedReviewer::Bot(s) => s,
        RequestedReviewer::Mannequin(s) => s,
        RequestedReviewer::Team(s) => s,
        RequestedReviewer::EnterpriseTeam(s) => s,
    }
}

/// The approvers a PR has pending requests for. A missing list means none;
/// a slug that does not parse is dropped.
pub fn reviewers_from_requests(nodes: Option<Vec<Option<Option<RequestedReviewer>>>>) -> (r: Vec<
    Reviewer,
>)
    ensures
        reviewer_views(r@) == (match nodes {
            Some(v) => kept_reviewers(v@),
            None => Seq::empty(),
        }),
{
    let mut out: Vec<Reviewer> = Vec::new();
    match nodes {
        None => {
            assert(reviewer_views(out@) =~= Seq::<Seq<char>>::empty());
            out
        },
        Some(v) => {
            let mut i: usize = 0;
            while i < v.len()
                invariant
                    i <= v.len(),
                    reviewer_views(out@) == kept_reviewers(v@.subrange(0, i as int)),
                decreases v.len() - i,
            {
                proof {
                    assert(v@.subrange(0, i + 1).drop_last() =~= v@.subrange(0, i as int));
                }
                match &v[i] {
                    Some(Some(req)) => {
                        let parsed = Reviewer::parse(slug_of(req).as_str());
                        match parsed {
                            Ok(rev) => {
                                let ghost before = out@;
                                out.push(rev);
                                assert(reviewer_views(out@) =~= reviewer_views(before).push(
                                    rev.view(),
                                ));
                            },
                            Err(e) => {
                                proof {
                                    match e {
                                        ReviewerError::Empty => {},
                                        ReviewerError::TooManySlashes { .. } => {},
                                    }
                                }
                            },
                        }
                    },
                    _ => {},
                }
                i = i + 1;
            }
            assert(v@.subrange(0, v.len() as int) =~= v@);
            out
        },
    }
}

/// The labels on a PR; a missing list means none and absent nodes are
/// skipped.
pub fn labels_from_nodes(nodes: Option<Vec<Option<Label>>>) -> (r: Vec<Label>)
    ensures
        r@ == (match nodes {
            Some(v) => present(v@),
            None => Seq::empty(),
        }),
{
    let mut out: Vec<Label> = Vec::new();
    match nodes {
        None => out,
        Some(v) => {
            let mut i: usize = 0;
            while i < v.len()
                invariant
                    i <= v.len(),
                    out@ == present(v@.subrange(0, i as int)),
                decreases v.len() - i,
            {
                proof {
                    assert(v@.subrange(0, i + 1).drop_last() =~= v@.subrange(0, i as int));
                }
                match &v[i] {
                    Some(label) => out.push(label.clone_label()),
                    None => {},
                }
                i = i + 1;
            }
            assert(v@.subrange(0, v.len() as int) =~= v@);
            out
        },
    }
}

impl Label {
    /// A copy of the label.
    pub fn clone_label(&self) -> (r: Label)
        ensures
            r == *self,
    {
        Label { name: self.name.clone(), node_id: self.node_id.clone() }
    }
}

/// A merge method as GitHub names it; `Other` is one this tool does not know.
#[derive(Debug, Clone, Copy, PartialEq, Eq, Structural)]
pub enum MergeMethod {
    Merge,
    Rebase,
    Squash,
    Other,
}

pub open spec fn known_method(m: MergeMethod) -> Option<AutoMergeMethod> {
    match m {
        MergeMethod::Merge => Some(AutoMergeMethod::Merge),
        MergeMethod::Rebase => Some(AutoMergeMethod::Rebase),
        MergeMethod::Squash => Some(AutoMergeMethod::Squash),
        MergeMethod::Other => None,
    }
}

/// The method of an enabled auto-merge, when it is one this tool knows.
pub fn auto_merge_method(request: Option<MergeMethod>) -> (r: Option<AutoMergeMethod>)
    ensures
        r == (match request {
            Some(m) => known_method(m),
            None => None,
        }),
{
    match request {
        Some(MergeMethod::Merge) => Some(AutoMergeMethod::Merge),
        Some(MergeMethod::Rebase) => Some(AutoMergeMethod::Rebase),
        Some(MergeMethod::Squash) => Some(AutoMergeMethod::Squash),
        _ => None,
    }
}

/// The repository a PR's head lives in.
#[derive(Debug, Clone)]
pub struct HeadRepository {
    pub owner_login: String,
    pub name: String,
}

/// A pull request as the single-PR query returns it.
#[derive(Debug, Clone)]
pub struct PullRequestNode {
    pub id: String,
    pub number: i64,
    pub title: String,
    pub url: String,
    pub head_ref_name: String,
    pub base_ref_name: String,
    pub head_ref_oid: String,
    /// Whether the base branch reports a merge queue.
    pub has_merge_queue: bool,
    pub head_repository: Option<HeadRepository>,
    pub labels: Option<Vec<Option<Label>>>,
    pub is_draft: bool,
    /// `Some(method)` when auto-merge is enabled.
    pub auto_merge_request: Option<MergeMethod>,
    pub review_requests: Option<Vec<Option<Option<RequestedReviewer>>>>,
    pub body: String,
    /// The GitHub stack the PR belongs to, when the answer names one.
    pub stack_number: Option<u64>,
}

/// Why a single-PR answer could not be used.
#[derive(Debug, Clone, PartialEq, Eq)]
pub enum ResponseError {
    /// The repository or the PR is missing from the answer.
    NotFound { owner: String, repo: String, number: u64 },
    /// The PR number in the answer is negative.
    NumberOutOfRange,
}

impl ResponseError {
    pub open spec fn message_view(&self) -> Seq<char> {
        match self {
            ResponseError::NotFound { owner, repo, number } => "PR #"@ + crate::text::decimal(
                *number as nat,
            ) + " not found on "@ + owner@ + "/"@ + repo@,
            ResponseError::NumberOutOfRange => "PR number out of range"@,
        }
    }

    /// The user-facing message.
    pub fn message(&self) -> (s: String)
        ensures
            s@ == self.message_view(),
    {
        match self {
            ResponseError::NotFound { owner, repo, number } => {
                let mut s = String::new();
                proof {
                    reveal_strlit("");
                }
                push_str(&mut s, "PR #");
                push_decimal(&mut s, *number);
                push_str(&mut s, " not found on ");
                push_str(&mut s, owner.as_str());
                push_str(&mut s, "/");
                push_str(&mut s, repo.as_str());
                s
            },
            ResponseError::NumberOutOfRange => {
                let mut s = String::new();
                proof {
                    reveal_strlit("");
                }
                push_str(&mut s, "PR number out of range");
                s
            },
        }
    }
}

/// What the details of a found PR are, field by field.
pub open spec fn details_of(node: PullRequestNode, d: PrDetails) -> bool {
    &&& d.number == node.number
    &&& d.title == node.title
    &&& d.is_draft == node.is_draft
    &&& d.html_url == node.url
    &&& d.head_ref == node.head_ref_name
    &&& d.base_ref == node.base_ref_name
    &&& d.head_sha == node.head_ref_oid
    &&& d.head_user_login == (match node.head_repository {
        Some(h) => Some(h.owner_login),
        None => None,
    })
    &&& d.head_repo_name == (match node.head_repository {
        Some(h) => Some(h.name),
        None => None,
    })
    &&& d.graphql_node_id == node.id
    &&& d.in_merge_queue == node.has_merge_queue
    &&& d.body == node.body
    &&& d.labels@ == (match node.labels {
        Some(v) => present(v@),
        None => Seq::empty(),
    })
    &&& d.auto_merge == (node.auto_merge_request is Some)
    &&& d.auto_merge_method == (match node.auto_merge_request {
        Some(m) => known_method(m),
        None => None,
    })
    &&& reviewer_views(d.reviewers@) == (match node.review_requests {
        Some(v) => kept_reviewers(v@),
        None => Seq::empty(),
    })
    &&& d.stack_number == node.stack_number
}

/// The details of the PR that `owner/repo#number` asked for: an error when
/// the answer has no such PR or carries a negative number.
pub fn pr_details_from_node(
    owner: &str,
    repo: &str,
    number: u64,
    node: Option<PullRequestNode>,
) -> (r: Result<PrDetails, ResponseError>)
    ensures
        match node {
            None => r matches Err(ResponseError::NotFound { owner: o, repo: p, number: k }) && o@
                == owner@ && p@ == repo@ && k == number,
            Some(n) => if n.number < 0 {
                r == Err::<PrDetails, ResponseError>(ResponseError::NumberOutOfRange)
            } else {
                r matches Ok(d) && details_of(n, d)
            },
        },
{
    match node {
        None => Err(
            ResponseError::NotFound {
                owner: crate::text::owned(owner),
                repo: crate::text::owned(repo),
                number,
            },
        ),
        Some(n) => {
            if n.number < 0 {
                return Err(ResponseError::NumberOutOfRange);
            }
            let (head_user_login, head_repo_name) = match n.head_repository {
                Some(h) => (Some(h.owner_login), Some(h.name)),
                None => (None, None),
            };
            let auto_merge = n.auto_merge_request.is_some();
            let auto_merge_method = auto_merge_method(n.auto_merge_request);
            let labels = labels_from_nodes(n.labels);
            let reviewers = reviewers_from_requests(n.review_requests);
            Ok(
                PrDetails {
                    is_draft: n.is_draft,
                    auto_merge,
                    auto_merge_method,
                    number: n.number as u64,
                    title: n.title,
                    html_url: n.url,
                    head_ref: n.head_ref_name,
                    head_sha: n.head_ref_oid,
                    base_ref: n.base_ref_name,
                    head_user_login,
                    head_repo_name,
                    graphql_node_id: n.id,
                    in_merge_queue: n.has_merge_queue,
                    labels,
                    reviewers,
                    body: n.body,
                    stack_number: n.stack_number,
                },
            )
        },
    }
}

/// A PR's status-check rollup: its state and the first page of contexts.
#[derive(Debug, Clone)]
pub struct StatusCheckRollup {
    pub state: StatusState,
    /// `None` when the answer carries no context list.
    pub contexts: Option<Vec<Option<CheckContext>>>,
    pub has_next_page: bool,
    pub end_cursor: Option<String>,
}

/// A pull request as the search query returns it.
#[derive(Debug, Clone)]
pub struct PrSearchNode {
    pub id: String,
    pub number: i64,
    pub url: String,
    pub title: String,
    pub head_ref_name: String,
    pub head_ref_oid: String,
    pub base_ref_name: String,
    pub is_draft: bool,
    pub merged: bool,
    pub is_in_merge_queue: bool,
    pub status_check_rollup: Option<StatusCheckRollup>,
    /// `Some(enabled_at)` when an auto-merge request exists.
    pub auto_merge_request: Option<Option<String>>,
}

/// One search result: a pull request, or something else the search matched.
#[derive(Debug, Clone)]
pub enum SearchNode {
    PullRequest(PrSearchNode),
    Other,
}

/// One PR from the first page of a search, with the cursor of its next page
/// of contexts when it has more than fit.
#[derive(Debug, Clone)]
pub struct PrPartial {
    pub pr: PrWithCiStatus,
    pub next_after: Option<String>,
}

/// The pull requests among the search results, in order.
pub open spec fn pr_nodes(s: Seq<Option<SearchNode>>) -> Seq<PrSearchNode>
    decreases s.len(),
{
    if s.len() == 0 {
        Seq::empty()
    } else {
        let rest = pr_nodes(s.drop_last());
        match s.last() {
            Some(SearchNode::PullRequest(p)) => rest.push(p),
            _ => rest,
        }
    }
}

/// The contexts of a rollup's first page; none when the list is missing.
pub open spec fn rollup_contexts(r: StatusCheckRollup) -> Seq<Option<CheckContext>> {
    match r.contexts {
        Some(v) => v@,
        None => Seq::empty(),
    }
}

/// Whether a search node can be read: its number is not negative and its
/// context page fits the counters.
pub open spec fn readable(n: PrSearchNode) -> bool {
    &&& n.number >= 0
    &&& (match n.status_check_rollup {
        Some(r) => rollup_contexts(r).len() <= u32::MAX,
        None => true,
    })
}

/// What the partial of a search node is, field by field: counts from the
/// first page of contexts (zero without a rollup), the next-page cursor when
/// the page says there is one, and the rollup's state classified.
pub open spec fn partial_of(n: PrSearchNode, p: PrPartial) -> bool {
    &&& p.pr.id == n.id
    &&& p.pr.number == n.number
    &&& p.pr.url == n.url
    &&& p.pr.title == n.title
    &&& p.pr.head_ref_name == n.head_ref_name
    &&& p.pr.head_sha == n.head_ref_oid
    &&& p.pr.base_ref_name == n.base_ref_name
    &&& p.pr.is_draft == n.is_draft
    &&& p.pr.merged == n.merged
    &&& p.pr.is_in_merge_queue == n.is_in_merge_queue
    &&& p.pr.auto_merge_enabled == (n.auto_merge_request matches Some(Some(_)))
    &&& match n.status_check_rollup {
        None => {
            &&& p.pr.ci_status == CiStatus::NoChecks
            &&& p.pr.ci_counts == CiCounts { pending: 0, failed: 0, passed: 0 }
            &&& p.next_after is None
        },
        Some(r) => {
            &&& p.pr.ci_status == status_of(Some(r.state))
            &&& p.pr.ci_counts.pending == bucket_count(rollup_contexts(r), 0)
            &&& p.pr.ci_counts.failed == bucket_count(rollup_contexts(r), 1)
            &&& p.pr.ci_counts.passed == bucket_count(rollup_contexts(r), 2)
            &&& p.next_after == (if r.has_next_page { r.end_cursor } else { None })
        },
    }
}

/// The partial of one search node.
pub fn pr_partial(n: PrSearchNode) -> (p: PrPartial)
    requires
        readable(n),
    ensures
        partial_of(n, p),
{
    let auto = auto_merge_enabled(n.auto_merge_request);
    let (status, counts, next_after) = match n.status_check_rollup {
        None => (ci_status(None), CiCounts { pending: 0, failed: 0, passed: 0 }, None),
        Some(r) => {
            let status = ci_status(Some(r.state));
            let nodes = match r.contexts {
                Some(v) => v,
                None => Vec::new(),
            };
            let (counts, next) = count_contexts(&nodes, r.has_next_page, r.end_cursor);
            (status, counts, next)
        },
    };
    PrPartial {
        pr: PrWithCiStatus {
            id: n.id,
            number: n.number as u64,
            url: n.url,
            title: n.title,
            head_ref_name: n.head_ref_name,
            head_sha: n.head_ref_oid,
            base_ref_name: n.base_ref_name,
            is_draft: n.is_draft,
            merged: n.merged,
            is_in_merge_queue: n.is_in_merge_queue,
            ci_status: status,
            ci_counts: counts,
            auto_merge_enabled: auto,
        },
        next_after,
    }
}

/// The partials of the pull requests among the search results, in order;
/// a missing result list means none.
pub fn extract_pr_partials(nodes: Option<Vec<Option<SearchNode>>>) -> (r: Vec<PrPartial>)
    requires
        nodes matches Some(v) ==> forall|k: int|
            0 <= k < pr_nodes(v@).len() ==> readable(#[trigger] pr_nodes(v@)[k]),
    ensures
        match nodes {
            None => r@.len() == 0,
            Some(v) => {
                &&& r@.len() == pr_nodes(v@).len()
                &&& forall|k: int| 0 <= k < r@.len() ==> partial_of(pr_nodes(v@)[k], #[trigger] r@[k])
            },
        },
{
    let mut out: Vec<PrPartial> = Vec::new();
    match nodes {
        None => out,
        Some(v) => {
            let ghost all = v@;
            assert(v.len() <= usize::MAX);
            let mut rest = v;
            let mut i: usize = 0;
            while rest.len() > 0
                invariant
                    i <= all.len(),
                    all.len() <= usize::MAX,
                    rest.len() == all.len() - i,
                    rest@ == all.subrange(i as int, all.len() as int),
                    forall|k: int| 0 <= k < pr_nodes(all).len() ==> readable(#[trigger] pr_nodes(all)[k]),
                    out@.len() == pr_nodes(all.subrange(0, i as int)).len(),
                    forall|k: int| 0 <= k < out@.len() ==> partial_of(
                        pr_nodes(all.subrange(0, i as int))[k],
                        #[trigger] out@[k],
                    ),
                decreases rest.len(),
            {
                let ghost pre = all.subrange(0, i as int);
                let ghost next = all.subrange(0, i + 1);
                proof {
                    assert(next.drop_last() =~= pre);
                    lemma_pr_nodes_prefix(all, i + 1);
                }
                let item = rest.remove(0);
                proof {
                    assert(item == all[i as int]);
                    assert(rest@ =~= all.subrange(i + 1, all.len() as int));
                }
                match item {
                    Some(SearchNode::PullRequest(p)) => {
                        proof {
                            assert(pr_nodes(next) == pr_nodes(pre).push(p));
                            assert(pr_nodes(next)[pr_nodes(pre).len() as int] == p);
                            assert(pr_nodes(all)[pr_nodes(pre).len() as int] == p);
                        }
                        let part = pr_partial(p);
                        out.push(part);
                    },
                    _ => {},
                }
                i = i + 1;
            }
            assert(all.subrange(0, i as int) =~= all);
            out
        },
    }
}

/// The pull requests of a prefix are a prefix of the pull requests.
proof fn lemma_pr_nodes_prefix(s: Seq<Option<SearchNode>>, i: int)
    requires
        0 <= i <= s.len(),
    ensures
        pr_nodes(s.subrange(0, i)).len() <= pr_nodes(s).len(),
        forall|k: int| 0 <= k < pr_nodes(s.subrange(0, i)).len() ==> #[trigger] pr_nodes(s.subrange(0, i))[k] == pr_nodes(s)[k],
    decreases s.len() - i,
{
    if i < s.len() {
        lemma_pr_nodes_prefix(s, i + 1);
        let a = s.subrange(0, i);
        let b = s.subrange(0, i + 1);
        assert(b.drop_last() =~= a);
        assert(pr_nodes(b.drop_last()) == pr_nodes(a));
        assert forall|k: int| 0 <= k < pr_nodes(a).len() implies #[trigger] pr_nodes(a)[k]
            == pr_nodes(s)[k] by {
            assert(pr_nodes(b)[k] == pr_nodes(a)[k]);
        }
    } else {
        assert(s.subrange(0, i) =~= s);
    }
}

/// The counts of one follow-up page of a PR's contexts and the cursor of the
/// page after it; a PR without a rollup counts nothing and has no next page.
pub fn count_contexts_page(rollup: Option<StatusCheckRollup>) -> (r: (CiCounts, Option<String>))
    requires
        rollup matches Some(x) ==> rollup_contexts(x).len() <= u32::MAX,
    ensures
        match rollup {
            None => r.0 == CiCounts { pending: 0, failed: 0, passed: 0 } && r.1 is None,
            Some(x) => {
                &&& r.0.pending == bucket_count(rollup_contexts(x), 0)
                &&& r.0.failed == bucket_count(rollup_contexts(x), 1)
                &&& r.0.passed == bucket_count(rollup_contexts(x), 2)
                &&& r.1 == (if x.has_next_page { x.end_cursor } else { None })
            },
        },
{
    match rollup {
        None => (CiCounts { pending: 0, failed: 0, passed: 0 }, None),
        Some(x) => {
            let nodes = match x.contexts {
                Some(v) => v,
                None => Vec::new(),
            };
            count_contexts(&nodes, x.has_next_page, x.end_cursor)
        },
    }
}

} // verus!
