//! CI status bookkeeping: classifying a pull request's status-check rollup
//! and counting its individual checks into pending / failed / passed buckets.
//!
//! The GitHub API reports these as GraphQL enums; the library holds them as
//! its own plain enums so that the classification is verified.
use vstd::prelude::*;
use crate::gh::{CiCounts, CiStatus};

verus! {

/// State of a status-check rollup or of a single commit status context.
#[derive(Debug, Clone, Copy, PartialEq, Eq)]
pub enum StatusState {
    Error,
    Expected,
    Failure,
    Pending,
    Success,
    /// A state this library does not know.
    Other,
}

/// Progress of a single check run.
#[derive(Debug, Clone, Copy, PartialEq, Eq)]
pub enum CheckStatusState {
    Completed,
    /// Queued, in progress, waiting, requested or pending.
    Running,
}

/// Conclusion of a completed check run.
#[derive(Debug, Clone, Copy, PartialEq, Eq)]
pub enum CheckConclusionState {
    ActionRequired,
    Cancelled,
    Failure,
    Neutral,
    Skipped,
    Stale,
    StartupFailure,
    Success,
    TimedOut,
    /// A conclusion this library does not know.
    Other,
}

/// One entry of a rollup's contexts: a check run or a commit status.
#[derive(Debug, Clone, Copy, PartialEq, Eq)]
pub enum CheckContext {
    CheckRun { status: CheckStatusState, conclusion: Option<CheckConclusionState> },
    StatusContext { state: StatusState },
}

/// Which bucket a context falls in; `None` for a context that is not counted.
pub enum Bucket {
    Pending,
    Failed,
    Passed,
}

/// The bucket of one context: a completed check run counts by its
/// conclusion (success, neutral and skipped pass; any other conclusion
/// fails; no conclusion yet is pending), a running one is pending; a commit
/// status counts by its state, and an unknown state is not counted.
pub open spec fn bucket_of(c: CheckContext) -> Option<Bucket> {
    match c {
        CheckContext::CheckRun { status, conclusion } => match status {
            CheckStatusState::Completed => match conclusion {
                Some(k) => if k == CheckConclusionState::Success || k
                    == CheckConclusionState::Neutral || k == CheckConclusionState::Skipped {
                    Some(Bucket::Passed)
                } else {
                    Some(Bucket::Failed)
                },
                None => Some(Bucket::Pending),
            },
            CheckStatusState::Running => Some(Bucket::Pending),
        },
        CheckContext::StatusContext { state } => match state {
            StatusState::Success => Some(Bucket::Passed),
            StatusState::Error | StatusState::Failure => Some(Bucket::Failed),
            StatusState::Expected | StatusState::Pending => Some(Bucket::Pending),
            StatusState::Other => None,
        },
    }
}

/// Number of present contexts among `nodes` that fall in the bucket picked
/// out by `which` (0 pending, 1 failed, 2 passed).
pub open spec fn bucket_count(nodes: Seq<Option<CheckContext>>, which: int) -> nat
    decreases nodes.len(),
{
    if nodes.len() == 0 {
        0
    } else {
        let last = nodes.last();
        let here: nat = match last {
            Some(c) => match bucket_of(c) {
                Some(Bucket::Pending) => if which == 0 { 1 } else { 0 },
                Some(Bucket::Failed) => if which == 1 { 1 } else { 0 },
                Some(Bucket::Passed) => if which == 2 { 1 } else { 0 },
                None => 0,
            },
            None => 0,
        };
        bucket_count(nodes.drop_last(), which) + here
    }
}

proof fn lemma_bucket_count_bound(nodes: Seq<Option<CheckContext>>, which: int)
    ensures
        bucket_count(nodes, which) <= nodes.len(),
    decreases nodes.len(),
{
    if nodes.len() > 0 {
        lemma_bucket_count_bound(nodes.drop_last(), which);
    }
}

/// Counting pages one at a time and adding the counts gives the counts of
/// all the contexts together, in each bucket.
pub proof fn lemma_bucket_count_pages(a: Seq<Option<CheckContext>>, b: Seq<Option<CheckContext>>, which: int)
    ensures
        bucket_count(a + b, which) == bucket_count(a, which) + bucket_count(b, which),
    decreases b.len(),
{
    if b.len() == 0 {
        assert(a + b =~= a);
    } else {
        lemma_bucket_count_pages(a, b.drop_last(), which);
        assert((a + b).drop_last() =~= a + b.drop_last());
        assert((a + b).last() == b.last());
    }
}

/// The rolled-up status of a pull request: no rollup, or a state this
/// library does not know, means no checks are configured.
pub open spec fn status_of(rollup: Option<StatusState>) -> CiStatus {
    match rollup {
        None => CiStatus::NoChecks,
        Some(StatusState::Error) => CiStatus::Failed,
        Some(StatusState::Failure) => CiStatus::Failed,
        Some(StatusState::Expected) => CiStatus::Pending,
        Some(StatusState::Pending) => CiStatus::Pending,
        Some(StatusState::Success) => CiStatus::Success,
        Some(StatusState::Other) => CiStatus::NoChecks,
    }
}

/// Rolled-up CI status from the rollup's state, if the PR has a rollup.
pub fn ci_status(rollup: Option<StatusState>) -> (s: CiStatus)
    ensures
        s == status_of(rollup),
{
    match rollup {
        None => CiStatus::NoChecks,
        Some(StatusState::Error) => CiStatus::Failed,
        Some(StatusState::Failure) => CiStatus::Failed,
        Some(StatusState::Expected) => CiStatus::Pending,
        Some(StatusState::Pending) => CiStatus::Pending,
        Some(StatusState::Success) => CiStatus::Success,
        Some(StatusState::Other) => CiStatus::NoChecks,
    }
}

impl CiCounts {
    /// Sum of the three buckets, as a mathematical integer.
    pub open spec fn total_spec(self) -> int {
        self.pending + self.failed + self.passed
    }

    /// Total number of checks in the rollup; zero means no contexts.
    pub fn total(self) -> (t: u32)
        requires
            self.total_spec() <= u32::MAX,
        ensures
            t == self.total_spec(),
    {
        self.pending + self.failed + self.passed
    }

    /// Adds the counts of `rhs` bucket by bucket.
    pub fn add_assign(&mut self, rhs: CiCounts)
        requires
            old(self).pending + rhs.pending <= u32::MAX,
            old(self).failed + rhs.failed <= u32::MAX,
            old(self).passed + rhs.passed <= u32::MAX,
        ensures
            final(self).pending == old(self).pending + rhs.pending,
            final(self).failed == old(self).failed + rhs.failed,
            final(self).passed == old(self).passed + rhs.passed,
    {
        self.pending = self.pending + rhs.pending;
        self.failed = self.failed + rhs.failed;
        self.passed = self.passed + rhs.passed;
    }
}

/// Counts one page of contexts (absent entries are skipped) and returns the
/// cursor of the next page when the page says there is one.
pub fn count_contexts(
    nodes: &Vec<Option<CheckContext>>,
    has_next_page: bool,
    end_cursor: Option<String>,
) -> (r: (CiCounts, Option<String>))
    requires
        nodes.len() <= u32::MAX,
    ensures
        r.0.pending == bucket_count(nodes@, 0),
        r.0.failed == bucket_count(nodes@, 1),
        r.0.passed == bucket_count(nodes@, 2),
        r.1 == (if has_next_page { end_cursor } else { None }),
{
    let mut counts = CiCounts { pending: 0, failed: 0, passed: 0 };
    let mut i: usize = 0;
    while i < nodes.len()
        invariant
            i <= nodes.len() <= u32::MAX,
            counts.pending == bucket_count(nodes@.subrange(0, i as int), 0),
            counts.failed == bucket_count(nodes@.subrange(0, i as int), 1),
            counts.passed == bucket_count(nodes@.subrange(0, i as int), 2),
        decreases nodes.len() - i,
    {
        let ghost pre = nodes@.subrange(0, i as int);
        let ghost next = nodes@.subrange(0, i + 1);
        proof {
            assert(next.drop_last() =~= pre);
            lemma_bucket_count_bound(pre, 0);
            lemma_bucket_count_bound(pre, 1);
            lemma_bucket_count_bound(pre, 2);
        }
        match nodes[i] {
            Some(CheckContext::CheckRun { status, conclusion }) => match status {
                CheckStatusState::Completed => match conclusion {
                    Some(CheckConclusionState::Success) => counts.passed = counts.passed + 1,
                    Some(CheckConclusionState::Neutral) => counts.passed = counts.passed + 1,
                    Some(CheckConclusionState::Skipped) => counts.passed = counts.passed + 1,
                    Some(_) => counts.failed = counts.failed + 1,
                    None => counts.pending = counts.pending + 1,
                },
                CheckStatusState::Running => counts.pending = counts.pending + 1,
            },
            Some(CheckContext::StatusContext { state }) => match state {
                StatusState::Success => counts.passed = counts.passed + 1,
                StatusState::Error => counts.failed = counts.failed + 1,
                StatusState::Failure => counts.failed = counts.failed + 1,
                StatusState::Expected => counts.pending = counts.pending + 1,
                StatusState::Pending => counts.pending = counts.pending + 1,
                StatusState::Other => {},
            },
            None => {},
        }
        i = i + 1;
    }
    proof {
        assert(nodes@.subrange(0, nodes.len() as int) =~= nodes@);
    }
    let next = if has_next_page {
        end_cursor
    } else {
        None
    };
    (counts, next)
}

/// Whether auto-merge is on: a request exists and it carries an enable time.
pub fn auto_merge_enabled(request: Option<Option<String>>) -> (b: bool)
    ensures
        b == (request matches Some(Some(_))),
{
    match request {
        Some(Some(_)) => true,
        _ => false,
    }
}

/// How much adding `c` at the end of `nodes` changes the count of the
/// bucket picked out by `which` (0 pending, 1 failed, 2 passed).
pub open spec fn added_count(nodes: Seq<Option<CheckContext>>, c: Option<CheckContext>, which: int) -> int {
    bucket_count(nodes.push(c), which) - bucket_count(nodes, which)
}

/// Adding `c` to `nodes` adds one pending, failed or passed check, or
/// nothing, as `(p, f, s)` says.
pub open spec fn adds(nodes: Seq<Option<CheckContext>>, c: Option<CheckContext>, p: int, f: int, s: int) -> bool {
    &&& added_count(nodes, c, 0) == p
    &&& added_count(nodes, c, 1) == f
    &&& added_count(nodes, c, 2) == s
}

/// Law of CI counting, for any page `nodes`: a completed check run passes
/// only when it concluded with success, neutral or skipped, and fails with
/// any other conclusion (cancelled, timed out, failure, action required,
/// startup failure, stale, or one this library does not know); a run that
/// has not concluded is pending; a commit status passes on success, fails
/// on error or failure, is pending when expected or pending, and is not
/// counted when its state is unknown; an absent entry is not counted.
pub proof fn lemma_context_counts(nodes: Seq<Option<CheckContext>>, k: CheckConclusionState, s: CheckStatusState)
    ensures
        k != CheckConclusionState::Success && k != CheckConclusionState::Neutral && k
            != CheckConclusionState::Skipped ==> adds(
            nodes,
            Some(CheckContext::CheckRun { status: CheckStatusState::Completed, conclusion: Some(k) }),
            0,
            1,
            0,
        ),
        k == CheckConclusionState::Success || k == CheckConclusionState::Neutral || k
            == CheckConclusionState::Skipped ==> adds(
            nodes,
            Some(CheckContext::CheckRun { status: CheckStatusState::Completed, conclusion: Some(k) }),
            0,
            0,
            1,
        ),
        adds(
            nodes,
            Some(CheckContext::CheckRun { status: CheckStatusState::Completed, conclusion: None }),
            1,
            0,
            0,
        ),
        adds(
            nodes,
            Some(CheckContext::CheckRun { status: CheckStatusState::Running, conclusion: Some(k) }),
            1,
            0,
            0,
        ),
        adds(
            nodes,
            Some(CheckContext::CheckRun { status: CheckStatusState::Running, conclusion: None }),
            1,
            0,
            0,
        ),
        adds(nodes, Some(CheckContext::StatusContext { state: StatusState::Success }), 0, 0, 1),
        adds(nodes, Some(CheckContext::StatusContext { state: StatusState::Error }), 0, 1, 0),
        adds(nodes, Some(CheckContext::StatusContext { state: StatusState::Failure }), 0, 1, 0),
        adds(nodes, Some(CheckContext::StatusContext { state: StatusState::Expected }), 1, 0, 0),
        adds(nodes, Some(CheckContext::StatusContext { state: StatusState::Pending }), 1, 0, 0),
        adds(nodes, Some(CheckContext::StatusContext { state: StatusState::Other }), 0, 0, 0),
        adds(nodes, None, 0, 0, 0),
        bucket_count(nodes, 0) + bucket_count(nodes, 1) + bucket_count(nodes, 2) <= nodes.len(),
{
    assert forall|c: Option<CheckContext>| #[trigger] nodes.push(c).drop_last() == nodes by {
        assert(nodes.push(c).drop_last() =~= nodes);
    }
    lemma_bucket_counts_bounded(nodes);
}

/// No context is counted twice: the three buckets hold at most one count
/// per entry.
proof fn lemma_bucket_counts_bounded(nodes: Seq<Option<CheckContext>>)
    ensures
        bucket_count(nodes, 0) + bucket_count(nodes, 1) + bucket_count(nodes, 2) <= nodes.len(),
    decreases nodes.len(),
{
    if nodes.len() > 0 {
        lemma_bucket_counts_bounded(nodes.drop_last());
    }
}

} // verus!
