//! `pr stack`: making GitHub match the shape of the local `jj` graph.
//!
//! The local graph is the source of truth; the command never rewrites it.
//! Reconciling means three writes, in order:
//!
//! 1. push bookmarks whose remote target has fallen behind the local one, so
//!    GitHub's head commits match;
//! 2. move each PR's base ref onto its closest stacked ancestor bookmark;
//! 3. create, reshape, or dissolve GitHub stacks so they match the local
//!    chains.
//!
//! Everything here is computed before anything is written, so the preview,
//! the JSON dump and the apply step cannot disagree.

use crate::gh::{PrDetails, PullRequestStack};
use crate::jj::PushedBookmark;
use crate::numbers::{contains_u64, sorted_distinct, strictly_sorted};
use crate::stack_create::{members_view, stack_exists, stack_members};
use crate::stack_detect::{BasePlan, local_commit, local_commit_of};
use crate::text::{chars_of, decimal, owned, push_decimal, push_str, str_eq, string_from_range};
use vstd::prelude::*;

verus! {

/// A bookmark whose remote target has fallen behind its local one.
#[derive(Debug, Clone, PartialEq, Eq)]
pub struct PushPlan {
    pub bookmark: String,
    pub local_commit_id: String,
    pub remote_commit_id: Option<String>,
}

/// Everything the command intends to do.
#[derive(Debug, Default, Clone)]
pub struct Plan {
    /// Bookmarks to push, ordered bottom to top of their chains.
    pub pushes: Vec<PushPlan>,
    /// PRs whose base ref moves. Only entries that actually change.
    pub bases: Vec<BasePlan>,
    /// Chains that GitHub does not already have, or whose stack has to be
    /// torn down and rebuilt.
    pub chains: Vec<Vec<u64>>,
    /// PRs that have to leave their stack first. See [`prs_to_unstack`].
    pub unstack: Vec<u64>,
}

impl Plan {
    /// Whether the plan writes nothing at all.
    pub fn is_empty(&self) -> (r: bool)
        ensures
            r == (self.pushes@.len() == 0 && self.bases@.len() == 0 && self.chains@.len() == 0
                && self.unstack@.len() == 0),
    {
        self.pushes.len() == 0 && self.bases.len() == 0 && self.chains.len() == 0
            && self.unstack.len() == 0
    }
}

/// The first of `chains` that holds `n`.
pub open spec fn first_chain_with(chains: Seq<Vec<u64>>, n: u64, k: int) -> Option<int>
    decreases chains.len() - k,
{
    if k < 0 || k >= chains.len() {
        None
    } else if chains[k]@.contains(n) {
        Some(k)
    } else {
        first_chain_with(chains, n, k + 1)
    }
}

/// The members of the stack numbered `s`; the last entry wins, as in a map
/// built from the list.
pub open spec fn members_of(existing: Seq<PullRequestStack>, s: u64, k: int) -> Option<Seq<u64>>
    decreases k,
{
    if k <= 0 {
        None
    } else if existing[k - 1].number == s {
        Some(members_view(existing[k - 1]))
    } else {
        members_of(existing, s, k - 1)
    }
}

/// Whether `pr`, which sits in stack `s`, condemns that stack: it is in no
/// chain, it needs its base ref moved, or its stack no longer has the shape
/// of its chain.
pub open spec fn condemns(
    chains: Seq<Vec<u64>>,
    existing: Seq<PullRequestStack>,
    retargeting: Seq<u64>,
    pr: PrDetails,
    s: u64,
) -> bool {
    match first_chain_with(chains, pr.number, 0) {
        None => true,
        Some(c) => retargeting.contains(pr.number) || members_of(existing, s, existing.len() as int)
            != Some(chains[c]@),
    }
}

/// Whether some PR of `pr_details` condemns stack `s`.
pub open spec fn doomed(
    chains: Seq<Vec<u64>>,
    pr_details: Seq<PrDetails>,
    existing: Seq<PullRequestStack>,
    retargeting: Seq<u64>,
    s: u64,
) -> bool {
    exists|i: int|
        0 <= i < pr_details.len() && pr_details[i].stack_number == Some(s) && #[trigger] condemns(
            chains,
            existing,
            retargeting,
            pr_details[i],
            s,
        )
}

/// The numbers of the first `k` PRs whose stack is doomed, in order.
pub open spec fn unstacked_upto(
    chains: Seq<Vec<u64>>,
    pr_details: Seq<PrDetails>,
    existing: Seq<PullRequestStack>,
    retargeting: Seq<u64>,
    k: int,
) -> Seq<u64>
    decreases k,
{
    if k <= 0 {
        seq![]
    } else {
        let rest = unstacked_upto(chains, pr_details, existing, retargeting, k - 1);
        match pr_details[k - 1].stack_number {
            Some(s) => if doomed(chains, pr_details, existing, retargeting, s) {
                rest.push(pr_details[k - 1].number)
            } else {
                rest
            },
            None => rest,
        }
    }
}

/// The stacks condemned by the first `k` PRs, in order (with repeats).
pub open spec fn condemned_upto(
    chains: Seq<Vec<u64>>,
    pr_details: Seq<PrDetails>,
    existing: Seq<PullRequestStack>,
    retargeting: Seq<u64>,
    k: int,
) -> Seq<u64>
    decreases k,
{
    if k <= 0 {
        seq![]
    } else {
        let rest = condemned_upto(chains, pr_details, existing, retargeting, k - 1);
        match pr_details[k - 1].stack_number {
            Some(s) => if condemns(chains, existing, retargeting, pr_details[k - 1], s) {
                rest.push(s)
            } else {
                rest
            },
            None => rest,
        }
    }
}

/// Lemma: the condemned list holds exactly the stacks some PR condemns.
proof fn lemma_condemned_upto(
    chains: Seq<Vec<u64>>,
    pr_details: Seq<PrDetails>,
    existing: Seq<PullRequestStack>,
    retargeting: Seq<u64>,
    k: int,
    s: u64,
)
    requires
        0 <= k <= pr_details.len(),
    ensures
        condemned_upto(chains, pr_details, existing, retargeting, k).contains(s) <==> exists|i: int|
            0 <= i < k && pr_details[i].stack_number == Some(s) && #[trigger] condemns(
                chains,
                existing,
                retargeting,
                pr_details[i],
                s,
            ),
    decreases k,
{
    if k > 0 {
        lemma_condemned_upto(chains, pr_details, existing, retargeting, k - 1, s);
        let rest = condemned_upto(chains, pr_details, existing, retargeting, k - 1);
        let cur = condemned_upto(chains, pr_details, existing, retargeting, k);
        let hit = pr_details[k - 1].stack_number == Some(s) && condemns(
            chains,
            existing,
            retargeting,
            pr_details[k - 1],
            s,
        );
        if cur.contains(s) {
            let j = choose|j: int| 0 <= j < cur.len() && cur[j] == s;
            if j < rest.len() {
                assert(rest[j] == s);
                assert(rest.contains(s));
            } else {
                assert(hit);
            }
        }
        if rest.contains(s) {
            let j = choose|j: int| 0 <= j < rest.len() && rest[j] == s;
            assert(cur[j] == s);
        }
        if hit {
            assert(cur.last() == s);
            assert(cur.contains(s));
        }
    }
}

fn find_chain_with(chains: &[Vec<u64>], n: u64) -> (r: Option<usize>)
    ensures
        match r {
            Some(c) => first_chain_with(chains@, n, 0) == Some(c as int) && c < chains@.len(),
            None => first_chain_with(chains@, n, 0) is None,
        },
{
    let mut k: usize = 0;
    while k < chains.len()
        invariant
            k <= chains@.len(),
            first_chain_with(chains@, n, 0) == first_chain_with(chains@, n, k as int),
        decreases chains@.len() - k,
    {
        if contains_u64(chains[k].as_slice(), n) {
            return Some(k);
        }
        k = k + 1;
    }
    None
}

fn find_members(existing: &[PullRequestStack], s: u64) -> (r: Option<Vec<u64>>)
    ensures
        match r {
            Some(m) => members_of(existing@, s, existing@.len() as int) == Some(m@),
            None => members_of(existing@, s, existing@.len() as int) is None,
        },
{
    let mut k: usize = existing.len();
    while k > 0
        invariant
            k <= existing@.len(),
            members_of(existing@, s, existing@.len() as int) == members_of(existing@, s, k as int),
        decreases k,
    {
        if existing[k - 1].number == s {
            return Some(stack_members(&existing[k - 1]));
        }
        k = k - 1;
    }
    None
}

fn same_u64s(a: &Vec<u64>, b: &Vec<u64>) -> (r: bool)
    ensures
        r == (a@ == b@),
{
    if a.len() != b.len() {
        return false;
    }
    let mut i: usize = 0;
    while i < a.len()
        invariant
            a@.len() == b@.len(),
            i <= a@.len(),
            forall|j: int| 0 <= j < i ==> a@[j] == b@[j],
        decreases a@.len() - i,
    {
        if a[i] != b[i] {
            return false;
        }
        i = i + 1;
    }
    assert(a@ =~= b@);
    true
}

fn condemns_exec(
    chains: &[Vec<u64>],
    existing: &[PullRequestStack],
    retargeting: &[u64],
    pr: &PrDetails,
    s: u64,
) -> (r: bool)
    ensures
        r == condemns(chains@, existing@, retargeting@, *pr, s),
{
    match find_chain_with(chains, pr.number) {
        None => true,
        Some(c) => {
            if contains_u64(retargeting, pr.number) {
                return true;
            }
            match find_members(existing, s) {
                None => true,
                Some(m) => !same_u64s(&m, &chains[c]),
            }
        },
    }
}

/// PRs that have to be removed from their GitHub stack before the rest of the
/// plan can be applied.
///
/// Dooming is per *stack*, not per PR: a stack cannot be edited in place, so
/// one bad member brings the whole stack down. A stack is doomed when any of
/// its local members (a) is no longer in a chain, (b) needs its base ref
/// moved, which GitHub refuses while it is stacked, or (c) sits in a stack
/// that no longer has the shape of its chain.
///
/// Only PRs in `pr_details` are considered and returned, so a stack member
/// with no local bookmark keeps its membership.
pub fn prs_to_unstack(
    chains: &[Vec<u64>],
    pr_details: &[PrDetails],
    existing_stacks: &[PullRequestStack],
    retargeting: &[u64],
) -> (r: Vec<u64>)
    ensures
        r@ == unstacked_upto(
            chains@,
            pr_details@,
            existing_stacks@,
            retargeting@,
            pr_details@.len() as int,
        ),
{
    let mut doomed_stacks: Vec<u64> = Vec::new();
    let mut i: usize = 0;
    while i < pr_details.len()
        invariant
            i <= pr_details@.len(),
            doomed_stacks@ == condemned_upto(chains@, pr_details@, existing_stacks@, retargeting@, i as int),
        decreases pr_details@.len() - i,
    {
        if let Some(s) = pr_details[i].stack_number {
            if condemns_exec(chains, existing_stacks, retargeting, &pr_details[i], s) {
                doomed_stacks.push(s);
            }
        }
        i = i + 1;
    }
    proof {
        assert forall|s: u64|
            doomed_stacks@.contains(s) <==> doomed(
                chains@,
                pr_details@,
                existing_stacks@,
                retargeting@,
                s,
            ) by {
            lemma_condemned_upto(chains@, pr_details@, existing_stacks@, retargeting@, pr_details@.len() as int, s);
        }
    }
    let mut out: Vec<u64> = Vec::new();
    let mut k: usize = 0;
    while k < pr_details.len()
        invariant
            k <= pr_details@.len(),
            forall|s: u64|
                doomed_stacks@.contains(s) <==> doomed(
                    chains@,
                    pr_details@,
                    existing_stacks@,
                    retargeting@,
                    s,
                ),
            out@ == unstacked_upto(chains@, pr_details@, existing_stacks@, retargeting@, k as int),
        decreases pr_details@.len() - k,
    {
        if let Some(s) = pr_details[k].stack_number {
            if contains_u64(doomed_stacks.as_slice(), s) {
                out.push(pr_details[k].number);
            }
        }
        k = k + 1;
    }
    out
}

/// The chains the plan creates: those GitHub does not have verbatim, and
/// those whose stack is about to be torn down so a base ref can move.
pub open spec fn needs_creating(
    existing: Seq<PullRequestStack>,
    unstack: Seq<u64>,
    chain: Seq<u64>,
) -> bool {
    (forall|i: int| 0 <= i < existing.len() ==> #[trigger] members_view(existing[i]) != chain)
        || exists|j: int| 0 <= j < chain.len() && unstack.contains(#[trigger] chain[j])
}

/// The numbers of the PRs whose base ref moves.
pub open spec fn base_numbers(bases: Seq<BasePlan>) -> Seq<u64> {
    bases.map_values(|b: BasePlan| b.pr_number)
}

fn any_in(chain: &Vec<u64>, set: &[u64]) -> (r: bool)
    ensures
        r == exists|j: int| 0 <= j < chain@.len() && set@.contains(#[trigger] chain@[j]),
{
    let mut j: usize = 0;
    while j < chain.len()
        invariant
            j <= chain@.len(),
            forall|k: int| 0 <= k < j ==> !set@.contains(#[trigger] chain@[k]),
        decreases chain@.len() - j,
    {
        if contains_u64(set, chain[j]) {
            return true;
        }
        j = j + 1;
    }
    false
}

pub(crate) fn copy_numbers(v: &Vec<u64>) -> (r: Vec<u64>)
    ensures
        r@ == v@,
{
    let mut out: Vec<u64> = Vec::new();
    let mut i: usize = 0;
    while i < v.len()
        invariant
            i <= v@.len(),
            out@ == v@.subrange(0, i as int),
        decreases v@.len() - i,
    {
        out.push(v[i]);
        i = i + 1;
        assert(out@ =~= v@.subrange(0, i as int));
    }
    assert(out@ =~= v@);
    out
}

fn copy_base_plan(b: &BasePlan) -> (r: BasePlan)
    ensures
        r == *b,
{
    BasePlan {
        pr_number: b.pr_number,
        pr_node_id: b.pr_node_id.clone(),
        title: b.title.clone(),
        bookmark: b.bookmark.clone(),
        local_commit_id: b.local_commit_id.clone(),
        current_base: b.current_base.clone(),
        proposed_base: b.proposed_base.clone(),
    }
}

/// The base plans that change something, in order.
pub open spec fn changing_bases(bases: Seq<BasePlan>, k: int) -> Seq<BasePlan>
    decreases k,
{
    if k <= 0 {
        seq![]
    } else if bases[k - 1].current_base@ != bases[k - 1].proposed_base@ {
        changing_bases(bases, k - 1).push(bases[k - 1])
    } else {
        changing_bases(bases, k - 1)
    }
}

/// The chains among the first `k` that need creating, in order.
pub open spec fn chains_to_create(
    chains: Seq<Vec<u64>>,
    existing: Seq<PullRequestStack>,
    unstack: Seq<u64>,
    k: int,
) -> Seq<Seq<u64>>
    decreases k,
{
    if k <= 0 {
        seq![]
    } else if needs_creating(existing, unstack, chains[k - 1]@) {
        chains_to_create(chains, existing, unstack, k - 1).push(chains[k - 1]@)
    } else {
        chains_to_create(chains, existing, unstack, k - 1)
    }
}

/// The plan's bases, chains and unstack list for the detected shape; the
/// pushes are decided separately, from what the remote holds.
pub fn plan_shape(
    shape_chains: &[Vec<u64>],
    shape_bases: &[BasePlan],
    pr_details: &[PrDetails],
    existing_stacks: &[PullRequestStack],
) -> (plan: Plan)
    ensures
        plan.pushes@.len() == 0,
        plan.bases@ == changing_bases(shape_bases@, shape_bases@.len() as int),
        plan.unstack@ == unstacked_upto(
            shape_chains@,
            pr_details@,
            existing_stacks@,
            base_numbers(plan.bases@),
            pr_details@.len() as int,
        ),
        plan.chains@.len() == chains_to_create(
            shape_chains@,
            existing_stacks@,
            plan.unstack@,
            shape_chains@.len() as int,
        ).len(),
        forall|i: int|
            0 <= i < plan.chains@.len() ==> #[trigger] plan.chains@[i]@ == chains_to_create(
                shape_chains@,
                existing_stacks@,
                plan.unstack@,
                shape_chains@.len() as int,
            )[i],
{
    let mut bases: Vec<BasePlan> = Vec::new();
    let mut i: usize = 0;
    while i < shape_bases.len()
        invariant
            i <= shape_bases@.len(),
            bases@ == changing_bases(shape_bases@, i as int),
        decreases shape_bases@.len() - i,
    {
        if !shape_bases[i].is_no_change() {
            bases.push(copy_base_plan(&shape_bases[i]));
        }
        i = i + 1;
    }
    let mut retargeting: Vec<u64> = Vec::new();
    let mut j: usize = 0;
    while j < bases.len()
        invariant
            j <= bases@.len(),
            retargeting@ == base_numbers(bases@).subrange(0, j as int),
        decreases bases@.len() - j,
    {
        retargeting.push(bases[j].pr_number);
        j = j + 1;
        assert(retargeting@ =~= base_numbers(bases@).subrange(0, j as int));
    }
    assert(retargeting@ =~= base_numbers(bases@));
    let unstack = prs_to_unstack(shape_chains, pr_details, existing_stacks, retargeting.as_slice());
    let mut chains: Vec<Vec<u64>> = Vec::new();
    let mut c: usize = 0;
    while c < shape_chains.len()
        invariant
            c <= shape_chains@.len(),
            chains@.len() == chains_to_create(
                shape_chains@,
                existing_stacks@,
                unstack@,
                c as int,
            ).len(),
            forall|k: int|
                0 <= k < chains@.len() ==> #[trigger] chains@[k]@ == chains_to_create(
                    shape_chains@,
                    existing_stacks@,
                    unstack@,
                    c as int,
                )[k],
        decreases shape_chains@.len() - c,
    {
        let chain = &shape_chains[c];
        let exists_now = stack_exists(existing_stacks, chain.as_slice());
        if !exists_now || any_in(chain, unstack.as_slice()) {
            chains.push(copy_numbers(chain));
        }
        c = c + 1;
    }
    Plan { pushes: Vec::new(), bases, chains, unstack }
}

/// A chain member's bookmark that may need pushing, with its local commit.
#[derive(Debug, Clone, PartialEq, Eq)]
pub struct PushCandidate {
    pub bookmark: String,
    pub local_commit_id: String,
}

/// The head ref of PR `n`; the last entry wins, as in a map built from the
/// list.
pub open spec fn head_ref_of(pr_details: Seq<PrDetails>, n: u64, k: int) -> Option<Seq<char>>
    decreases k,
{
    if k <= 0 {
        None
    } else if pr_details[k - 1].number == n {
        Some(pr_details[k - 1].head_ref@)
    } else {
        head_ref_of(pr_details, n, k - 1)
    }
}

fn find_head_ref(pr_details: &[PrDetails], n: u64) -> (r: Option<String>)
    ensures
        match r {
            Some(h) => head_ref_of(pr_details@, n, pr_details@.len() as int) == Some(h@),
            None => head_ref_of(pr_details@, n, pr_details@.len() as int) is None,
        },
{
    let mut k: usize = pr_details.len();
    while k > 0
        invariant
            k <= pr_details@.len(),
            head_ref_of(pr_details@, n, pr_details@.len() as int) == head_ref_of(
                pr_details@,
                n,
                k as int,
            ),
        decreases k,
    {
        if pr_details[k - 1].number == n {
            return Some(owned(pr_details[k - 1].head_ref.as_str()));
        }
        k = k - 1;
    }
    None
}

fn has_bookmark(v: &Vec<PushCandidate>, name: &str) -> (r: bool)
    ensures
        r == exists|j: int| 0 <= j < v@.len() && #[trigger] v@[j].bookmark@ == name@,
{
    let mut j: usize = 0;
    while j < v.len()
        invariant
            j <= v@.len(),
            forall|k: int| 0 <= k < j ==> #[trigger] v@[k].bookmark@ != name@,
        decreases v@.len() - j,
    {
        if str_eq(v[j].bookmark.as_str(), name) {
            return true;
        }
        j = j + 1;
    }
    false
}

/// The members of the first `k` chains, in order.
pub open spec fn members_upto(chains: Seq<Vec<u64>>, k: int) -> Seq<u64>
    decreases k,
{
    if k <= 0 {
        seq![]
    } else {
        members_upto(chains, k - 1) + chains[k - 1]@
    }
}

fn chain_members(chains: &[Vec<u64>]) -> (r: Vec<u64>)
    ensures
        r@ == members_upto(chains@, chains@.len() as int),
{
    let mut out: Vec<u64> = Vec::new();
    let mut c: usize = 0;
    while c < chains.len()
        invariant
            c <= chains@.len(),
            out@ == members_upto(chains@, c as int),
        decreases chains@.len() - c,
    {
        let chain = &chains[c];
        let ghost start = out@;
        let mut m: usize = 0;
        while m < chain.len()
            invariant
                m <= chain@.len(),
                out@ == start + chain@.subrange(0, m as int),
            decreases chain@.len() - m,
        {
            out.push(chain[m]);
            m = m + 1;
            assert(out@ =~= start + chain@.subrange(0, m as int));
        }
        assert(chain@.subrange(0, chain@.len() as int) =~= chain@);
        c = c + 1;
    }
    out
}

/// A candidate as its bookmark and local commit.
pub open spec fn candidate_view(c: PushCandidate) -> (Seq<char>, Seq<char>) {
    (c.bookmark@, c.local_commit_id@)
}

/// The views of a list of candidates.
pub open spec fn candidates_view(v: Seq<PushCandidate>) -> Seq<(Seq<char>, Seq<char>)> {
    v.map_values(|c: PushCandidate| candidate_view(c))
}

/// The bookmarks of a list of candidate views.
pub open spec fn view_names(s: Seq<(Seq<char>, Seq<char>)>) -> Seq<Seq<char>> {
    s.map_values(|c: (Seq<char>, Seq<char>)| c.0)
}

/// The candidates from the first `m` chain members, bottom to top: each
/// member's head ref, when it has one and the bookmark has a local commit,
/// unless an earlier member already gave that bookmark.
pub open spec fn candidates_upto(
    members: Seq<u64>,
    pr_details: Seq<PrDetails>,
    bookmarks: Seq<PushedBookmark>,
    m: int,
) -> Seq<(Seq<char>, Seq<char>)>
    decreases m,
{
    if m <= 0 {
        seq![]
    } else {
        let rest = candidates_upto(members, pr_details, bookmarks, m - 1);
        match head_ref_of(pr_details, members[m - 1], pr_details.len() as int) {
            Some(h) => match local_commit_of(bookmarks, h, bookmarks.len() as int) {
                Some(l) => if view_names(rest).contains(h) {
                    rest
                } else {
                    rest.push((h, l))
                },
                None => rest,
            },
            None => rest,
        }
    }
}

/// Chain-member bookmarks that have a local target, bottom to top, each once:
/// the bookmarks whose remote target has to be compared with the local one.
pub fn push_candidates(
    chains: &[Vec<u64>],
    pr_details: &[PrDetails],
    bookmarks: &[PushedBookmark],
) -> (r: Vec<PushCandidate>)
    ensures
        forall|a: int, b: int|
            0 <= a < b < r@.len() ==> #[trigger] r@[a].bookmark@ != #[trigger] r@[b].bookmark@,
        forall|a: int|
            0 <= a < r@.len() ==> local_commit_of(
                bookmarks@,
                #[trigger] r@[a].bookmark@,
                bookmarks@.len() as int,
            ) == Some(r@[a].local_commit_id@),
        forall|a: int|
            0 <= a < r@.len() ==> #[trigger] is_chain_head(
                chains@,
                pr_details@,
                r@[a].bookmark@,
            ),
        candidates_view(r@) == candidates_upto(
            members_upto(chains@, chains@.len() as int),
            pr_details@,
            bookmarks@,
            members_upto(chains@, chains@.len() as int).len() as int,
        ),
{
    let members = chain_members(chains);
    let ghost flat = members_upto(chains@, chains@.len() as int);
    let mut out: Vec<PushCandidate> = Vec::new();
    let mut m: usize = 0;
    while m < members.len()
        invariant
            members@ == flat,
            flat == members_upto(chains@, chains@.len() as int),
            m <= members@.len(),
            forall|a: int, b: int|
                0 <= a < b < out@.len() ==> #[trigger] out@[a].bookmark@ != #[trigger] out@[b].bookmark@,
            forall|a: int|
                0 <= a < out@.len() ==> local_commit_of(
                    bookmarks@,
                    #[trigger] out@[a].bookmark@,
                    bookmarks@.len() as int,
                ) == Some(out@[a].local_commit_id@),
            forall|a: int|
                0 <= a < out@.len() ==> #[trigger] is_chain_head(chains@, pr_details@, out@[a].bookmark@),
            candidates_view(out@) == candidates_upto(
                flat,
                pr_details@,
                bookmarks@,
                m as int,
            ),
        decreases members@.len() - m,
    {
        proof {
            lemma_candidate_names(out@);
        }
        if let Some(head) = find_head_ref(pr_details, members[m]) {
            if let Some(local) = local_commit(bookmarks, head.as_str()) {
                if !has_bookmark(&out, head.as_str()) {
                    let ghost before = out@;
                    proof {
                        assert(head_ref_of(pr_details@, flat[m as int], pr_details@.len() as int)
                            == Some(head@));
                        assert(is_chain_head(chains@, pr_details@, head@));
                    }
                    out.push(PushCandidate { bookmark: head, local_commit_id: local });
                    proof {
                        assert forall|a: int, b: int|
                            0 <= a < b < out@.len() implies #[trigger] out@[a].bookmark@
                            != #[trigger] out@[b].bookmark@ by {
                            assert(out@[a] == before[a]);
                            if b < before.len() {
                                assert(out@[b] == before[b]);
                            }
                        }
                        assert forall|a: int| 0 <= a < out@.len() implies #[trigger] is_chain_head(
                            chains@,
                            pr_details@,
                            out@[a].bookmark@,
                        ) by {
                            if a < before.len() {
                                assert(out@[a] == before[a]);
                            }
                        }
                    }
                }
            }
        }
        proof {
            assert(candidates_view(out@) =~= candidates_upto(
                flat,
                pr_details@,
                bookmarks@,
                m + 1,
            ));
        }
        m = m + 1;
    }
    out
}

/// The bookmarks among candidates are the first parts of their views.
proof fn lemma_candidate_names(v: Seq<PushCandidate>)
    ensures
        forall|h: Seq<char>|
            #[trigger] view_names(candidates_view(v)).contains(h) <==> exists|j: int|
                0 <= j < v.len() && #[trigger] v[j].bookmark@ == h,
{
    let w = view_names(candidates_view(v));
    assert(w.len() == v.len());
    assert forall|h: Seq<char>| #[trigger] w.contains(h) <==> exists|j: int|
        0 <= j < v.len() && #[trigger] v[j].bookmark@ == h by {
        if w.contains(h) {
            let j = choose|j: int| 0 <= j < w.len() && w[j] == h;
            assert(v[j].bookmark@ == h);
        }
        if exists|j: int| 0 <= j < v.len() && #[trigger] v[j].bookmark@ == h {
            let j = choose|j: int| 0 <= j < v.len() && #[trigger] v[j].bookmark@ == h;
            assert(w[j] == h);
        }
    }
}

/// `bookmark` is the head ref of some chain member.
pub open spec fn is_chain_head(chains: Seq<Vec<u64>>, pr_details: Seq<PrDetails>, bookmark: Seq<char>) -> bool {
    let flat = members_upto(chains, chains.len() as int);
    exists|k: int|
        0 <= k < flat.len() && head_ref_of(pr_details, #[trigger] flat[k], pr_details.len() as int)
            == Some(bookmark)
}

/// The pushes for `candidates`, given what the remote holds for each
/// (`remote[i]` for `candidates[i]`): every candidate whose remote target is
/// not its local commit.
pub fn stale_pushes(candidates: &[PushCandidate], remote: &[Option<String>]) -> (r: Vec<PushPlan>)
    requires
        candidates@.len() == remote@.len(),
    ensures
        r@.len() <= candidates@.len(),
        r@ == stale_upto(candidates@, remote@, candidates@.len() as int),
{
    let mut out: Vec<PushPlan> = Vec::new();
    let mut i: usize = 0;
    while i < candidates.len()
        invariant
            i <= candidates@.len() == remote@.len(),
            out@ == stale_upto(candidates@, remote@, i as int),
            out@.len() <= i,
        decreases candidates@.len() - i,
    {
        let c = &candidates[i];
        let same = match &remote[i] {
            Some(r) => str_eq(r.as_str(), c.local_commit_id.as_str()),
            None => false,
        };
        if !same {
            let remote_commit_id = match &remote[i] {
                Some(r) => Some(r.clone()),
                None => None,
            };
            out.push(
                PushPlan {
                    bookmark: c.bookmark.clone(),
                    local_commit_id: c.local_commit_id.clone(),
                    remote_commit_id,
                },
            );
        }
        i = i + 1;
    }
    out
}

/// The pushes for the first `k` candidates.
pub open spec fn stale_upto(candidates: Seq<PushCandidate>, remote: Seq<Option<String>>, k: int) -> Seq<
    PushPlan,
>
    decreases k,
{
    if k <= 0 {
        seq![]
    } else {
        let rest = stale_upto(candidates, remote, k - 1);
        let c = candidates[k - 1];
        if remote[k - 1] matches Some(r) && r@ == c.local_commit_id@ {
            rest
        } else {
            rest.push(
                PushPlan {
                    bookmark: c.bookmark,
                    local_commit_id: c.local_commit_id,
                    remote_commit_id: remote[k - 1],
                },
            )
        }
    }
}

/// `#1 → #2 → #3` for a chain of PR numbers.
pub open spec fn chain_text(chain: Seq<u64>) -> Seq<char>
    decreases chain.len(),
{
    if chain.len() == 0 {
        seq![]
    } else if chain.len() == 1 {
        "#"@ + decimal(chain[0] as nat)
    } else {
        chain_text(chain.drop_last()) + " \u{2192} "@ + "#"@ + decimal(chain.last() as nat)
    }
}

/// `#1 → #2 → #3` for a chain of PR numbers, bottom to top.
pub fn format_chain(chain: &[u64]) -> (r: String)
    ensures
        r@ == chain_text(chain@),
{
    let mut r = String::new();
    let mut i: usize = 0;
    while i < chain.len()
        invariant
            i <= chain@.len(),
            r@ == chain_text(chain@.subrange(0, i as int)),
        decreases chain@.len() - i,
    {
        let ghost before = r@;
        if i > 0 {
            push_str(&mut r, " \u{2192} ");
        }
        push_str(&mut r, "#");
        push_decimal(&mut r, chain[i]);
        proof {
            let pre = chain@.subrange(0, i + 1);
            assert(pre.drop_last() =~= chain@.subrange(0, i as int));
            if i == 0 {
                assert(before =~= Seq::<char>::empty());
                assert(r@ =~= "#"@ + decimal(chain@[0] as nat));
            } else {
                assert(r@ =~= before + " \u{2192} "@ + "#"@ + decimal(chain@[i as int] as nat));
            }
        }
        i = i + 1;
    }
    assert(chain@.subrange(0, chain@.len() as int) =~= chain@);
    r
}

/// The first eight characters of a commit id, or all of a shorter one.
pub fn short_sha(sha: &str) -> (r: String)
    ensures
        r@ == if sha@.len() <= 8 {
            sha@
        } else {
            sha@.subrange(0, 8)
        },
{
    let v = chars_of(sha);
    let end = if v.len() <= 8 {
        v.len()
    } else {
        8
    };
    let r = string_from_range(&v, 0, end);
    assert(v@.subrange(0, v@.len() as int) =~= v@);
    r
}

/// The stacks the named PRs already belong to, each once, in increasing
/// order.
pub fn stacks_of(pr_details: &[PrDetails]) -> (r: Vec<u64>)
    ensures
        strictly_sorted(r@),
        forall|s: u64|
            r@.contains(s) <==> exists|i: int|
                0 <= i < pr_details@.len() && #[trigger] pr_details@[i].stack_number == Some(s),
{
    let mut numbers: Vec<u64> = Vec::new();
    let mut i: usize = 0;
    while i < pr_details.len()
        invariant
            i <= pr_details@.len(),
            numbers@ == stack_numbers_upto(pr_details@, i as int),
        decreases pr_details@.len() - i,
    {
        if let Some(s) = pr_details[i].stack_number {
            numbers.push(s);
        }
        i = i + 1;
    }
    proof {
        assert forall|s: u64|
            numbers@.contains(s) <==> exists|i: int|
                0 <= i < pr_details@.len() && #[trigger] pr_details@[i].stack_number == Some(s) by {
            lemma_stack_numbers_upto(pr_details@, pr_details@.len() as int, s);
        }
    }
    sorted_distinct(numbers.as_slice())
}

/// The stack numbers of the first `k` PRs, in order (with repeats).
pub open spec fn stack_numbers_upto(pr_details: Seq<PrDetails>, k: int) -> Seq<u64>
    decreases k,
{
    if k <= 0 {
        seq![]
    } else {
        match pr_details[k - 1].stack_number {
            Some(s) => stack_numbers_upto(pr_details, k - 1).push(s),
            None => stack_numbers_upto(pr_details, k - 1),
        }
    }
}

/// Lemma: the list holds exactly the stacks of the first `k` PRs.
proof fn lemma_stack_numbers_upto(pr_details: Seq<PrDetails>, k: int, s: u64)
    requires
        0 <= k <= pr_details.len(),
    ensures
        stack_numbers_upto(pr_details, k).contains(s) <==> exists|i: int|
            0 <= i < k && #[trigger] pr_details[i].stack_number == Some(s),
    decreases k,
{
    if k > 0 {
        lemma_stack_numbers_upto(pr_details, k - 1, s);
        let rest = stack_numbers_upto(pr_details, k - 1);
        let cur = stack_numbers_upto(pr_details, k);
        if cur.contains(s) {
            let j = choose|j: int| 0 <= j < cur.len() && cur[j] == s;
            if j < rest.len() {
                assert(rest[j] == s);
                assert(rest.contains(s));
            } else {
                assert(pr_details[k - 1].stack_number == Some(s));
            }
        }
        if rest.contains(s) {
            let j = choose|j: int| 0 <= j < rest.len() && rest[j] == s;
            assert(cur[j] == s);
        }
        if pr_details[k - 1].stack_number == Some(s) {
            assert(cur.last() == s);
            assert(cur.contains(s));
        }
    }
}

/// Why an explicitly named stack cannot be asserted.
#[derive(Debug, Clone, PartialEq, Eq)]
pub enum ExplicitStackError {
    /// Fewer than two PRs were named.
    TooFew,
    /// The PRs already sit in more than one stack, listed in increasing order.
    DifferentStacks(Vec<u64>),
}

/// `[7, 11]`: numbers as a `Debug`-printed list.
pub open spec fn list_text(v: Seq<u64>) -> Seq<char>
    decreases v.len(),
{
    if v.len() == 0 {
        "[]"@
    } else {
        list_items(v) + "]"@
    }
}

/// `[7, 11` without the closing bracket.
pub open spec fn list_items(v: Seq<u64>) -> Seq<char>
    decreases v.len(),
{
    if v.len() == 0 {
        "["@
    } else if v.len() == 1 {
        "["@ + decimal(v[0] as nat)
    } else {
        list_items(v.drop_last()) + ", "@ + decimal(v.last() as nat)
    }
}

impl ExplicitStackError {
    /// The user-facing message.
    pub open spec fn message_view(&self) -> Seq<char> {
        match self {
            ExplicitStackError::TooFew => "a stack needs at least two PRs; pass them bottom to top"@,
            ExplicitStackError::DifferentStacks(numbers) => "PRs are already in different stacks: "@
                + list_text(numbers@) + ". Use --force to unstack and recreate."@,
        }
    }

    /// The user-facing message.
    pub fn message(&self) -> (m: String)
        ensures
            m@ == self.message_view(),
    {
        match self {
            ExplicitStackError::TooFew => owned("a stack needs at least two PRs; pass them bottom to top"),
            ExplicitStackError::DifferentStacks(numbers) => {
                let mut m = owned("PRs are already in different stacks: ");
                let ghost start = m@;
                if numbers.len() == 0 {
                    push_str(&mut m, "[]");
                } else {
                    push_str(&mut m, "[");
                    let mut i: usize = 0;
                    while i < numbers.len()
                        invariant
                            0 < numbers@.len(),
                            i <= numbers@.len(),
                            i > 0 ==> m@ == start + list_items(numbers@.subrange(0, i as int)),
                            i == 0 ==> m@ == start + "["@,
                        decreases numbers@.len() - i,
                    {
                        let ghost before = m@;
                        if i > 0 {
                            push_str(&mut m, ", ");
                        }
                        push_decimal(&mut m, numbers[i]);
                        proof {
                            let pre = numbers@.subrange(0, i + 1);
                            assert(pre.drop_last() =~= numbers@.subrange(0, i as int));
                            if i == 0 {
                                assert(m@ =~= start + ("["@ + decimal(numbers@[0] as nat)));
                            } else {
                                assert(m@ =~= start + (list_items(numbers@.subrange(0, i as int))
                                    + ", "@ + decimal(numbers@[i as int] as nat)));
                            }
                        }
                        i = i + 1;
                    }
                    assert(numbers@.subrange(0, numbers@.len() as int) =~= numbers@);
                    push_str(&mut m, "]");
                    assert(m@ =~= start + (list_items(numbers@) + "]"@));
                }
                push_str(&mut m, ". Use --force to unstack and recreate.");
                m
            },
        }
    }
}

/// Check the PRs named for an explicit stack: at least two, and, unless
/// `force`, not already spread over more than one stack.
pub fn check_explicit(pr_details: &[PrDetails], force: bool) -> (r: Result<(), ExplicitStackError>)
    ensures
        pr_details@.len() < 2 ==> r == Err::<(), ExplicitStackError>(ExplicitStackError::TooFew),
        pr_details@.len() >= 2 ==> match r {
            Ok(()) => force || stack_count(pr_details@) <= 1,
            Err(ExplicitStackError::TooFew) => false,
            Err(ExplicitStackError::DifferentStacks(numbers)) => {
                &&& !force
                &&& strictly_sorted(numbers@)
                &&& numbers@.len() > 1
                &&& forall|s: u64|
                    numbers@.contains(s) <==> exists|i: int|
                        0 <= i < pr_details@.len() && #[trigger] pr_details@[i].stack_number
                            == Some(s)
            },
        },
{
    if pr_details.len() < 2 {
        return Err(ExplicitStackError::TooFew);
    }
    let stacks = stacks_of(pr_details);
    if stacks.len() > 1 && !force {
        return Err(ExplicitStackError::DifferentStacks(stacks));
    }
    proof {
        if !force {
            lemma_stack_count(pr_details@, stacks@);
        }
    }
    Ok(())
}

/// The number of distinct stacks the PRs sit in.
pub open spec fn stack_count(pr_details: Seq<PrDetails>) -> nat {
    Set::new(
        |s: u64| exists|i: int| 0 <= i < pr_details.len() && #[trigger] pr_details[i].stack_number == Some(s),
    ).len()
}

/// Lemma: a strictly sorted list of exactly the stacks counts them.
proof fn lemma_stack_count(pr_details: Seq<PrDetails>, stacks: Seq<u64>)
    requires
        strictly_sorted(stacks),
        forall|s: u64|
            stacks.contains(s) <==> exists|i: int|
                0 <= i < pr_details.len() && #[trigger] pr_details[i].stack_number == Some(s),
    ensures
        stack_count(pr_details) == stacks.len(),
{
    let set = Set::new(
        |s: u64| exists|i: int| 0 <= i < pr_details.len() && #[trigger] pr_details[i].stack_number == Some(s),
    );
    assert(stacks.no_duplicates()) by {
        assert forall|i: int, j: int| 0 <= i < stacks.len() && 0 <= j < stacks.len() && i != j implies stacks[i]
            != stacks[j] by {
            if i < j {
                assert(stacks[i] < stacks[j]);
            } else {
                assert(stacks[j] < stacks[i]);
            }
        }
    }
    assert(stacks.to_set() =~= set);
    stacks.unique_seq_to_set();
}


proof fn lemma_unstacked_upto_members(
    chains: Seq<Vec<u64>>,
    pr_details: Seq<PrDetails>,
    existing: Seq<PullRequestStack>,
    retargeting: Seq<u64>,
    k: int,
)
    requires
        0 <= k <= pr_details.len(),
    ensures
        forall|i: int, s: u64|
            #![trigger pr_details[i], doomed(chains, pr_details, existing, retargeting, s)]
            0 <= i < k && pr_details[i].stack_number == Some(s) && doomed(
                chains,
                pr_details,
                existing,
                retargeting,
                s,
            ) ==> unstacked_upto(chains, pr_details, existing, retargeting, k).contains(
                pr_details[i].number,
            ),
        forall|n: u64|
            #[trigger] unstacked_upto(chains, pr_details, existing, retargeting, k).contains(n)
                ==> exists|i: int|
                0 <= i < k && #[trigger] pr_details[i].number == n && (pr_details[i].stack_number matches Some(
                    s,
                ) && doomed(chains, pr_details, existing, retargeting, s)),
    decreases k,
{
    if k > 0 {
        lemma_unstacked_upto_members(chains, pr_details, existing, retargeting, k - 1);
        let rest = unstacked_upto(chains, pr_details, existing, retargeting, k - 1);
        let cur = unstacked_upto(chains, pr_details, existing, retargeting, k);
        assert forall|i: int, s: u64|
            #![trigger pr_details[i], doomed(chains, pr_details, existing, retargeting, s)]
            0 <= i < k && pr_details[i].stack_number == Some(s) && doomed(
                chains,
                pr_details,
                existing,
                retargeting,
                s,
            ) implies cur.contains(pr_details[i].number) by {
            if i < k - 1 {
                assert(rest.contains(pr_details[i].number));
                let j = choose|j: int| 0 <= j < rest.len() && rest[j] == pr_details[i].number;
                assert(cur[j] == rest[j]);
            } else {
                assert(cur.last() == pr_details[i].number);
            }
        }
        assert forall|n: u64| #[trigger] cur.contains(n) implies exists|i: int|
            0 <= i < k && #[trigger] pr_details[i].number == n && (pr_details[i].stack_number matches Some(
                s,
            ) && doomed(chains, pr_details, existing, retargeting, s)) by {
            let j = choose|j: int| 0 <= j < cur.len() && cur[j] == n;
            if j < rest.len() {
                assert(rest[j] == n);
                assert(rest.contains(n));
            } else {
                assert(pr_details[k - 1].number == n);
            }
        }
    }
}

/// Law of unstacking: a stack comes down whole. When one local member of a
/// stack condemns it (it left its chain, needs its base moved, or the stack
/// lost its chain's shape), every local member of that stack is unstacked;
/// and only local PRs that sit in a condemned stack are unstacked.
pub proof fn lemma_unstack_whole_stacks(
    chains: Seq<Vec<u64>>,
    pr_details: Seq<PrDetails>,
    existing: Seq<PullRequestStack>,
    retargeting: Seq<u64>,
)
    ensures
        ({
            let out = unstacked_upto(chains, pr_details, existing, retargeting, pr_details.len() as int);
            &&& forall|i: int, j: int, s: u64|
                0 <= i < pr_details.len() && 0 <= j < pr_details.len() && pr_details[i].stack_number
                    == Some(s) && #[trigger] pr_details[j].stack_number == Some(s) && #[trigger] condemns(
                    chains,
                    existing,
                    retargeting,
                    pr_details[i],
                    s,
                ) ==> out.contains(pr_details[j].number)
            &&& forall|n: u64|
                #[trigger] out.contains(n) ==> exists|i: int|
                    0 <= i < pr_details.len() && #[trigger] pr_details[i].number == n
                        && (pr_details[i].stack_number matches Some(s) && doomed(
                        chains,
                        pr_details,
                        existing,
                        retargeting,
                        s,
                    ))
        }),
{
    let k = pr_details.len() as int;
    lemma_unstacked_upto_members(chains, pr_details, existing, retargeting, k);
    let out = unstacked_upto(chains, pr_details, existing, retargeting, k);
    assert forall|i: int, j: int, s: u64|
        0 <= i < pr_details.len() && 0 <= j < pr_details.len() && pr_details[i].stack_number == Some(
            s,
        ) && #[trigger] pr_details[j].stack_number == Some(s) && #[trigger] condemns(
            chains,
            existing,
            retargeting,
            pr_details[i],
            s,
        ) implies out.contains(pr_details[j].number) by {
        assert(doomed(chains, pr_details, existing, retargeting, s));
        assert(out.contains(pr_details[j].number));
    }
}

/// The remote target `remote` of a bookmark is behind its local commit
/// `local`: the remote has nothing for it, or another commit.
pub open spec fn remote_behind(remote: Option<String>, local: Seq<char>) -> bool {
    !(remote matches Some(r) && r@ == local)
}

/// The push that brings candidate `c` up to date on the remote, which holds
/// `remote` for it.
pub open spec fn push_of(c: PushCandidate, remote: Option<String>) -> PushPlan {
    PushPlan { bookmark: c.bookmark, local_commit_id: c.local_commit_id, remote_commit_id: remote }
}

/// `src[j]` is the candidate that `pushes[j]` pushes: each push brings a
/// candidate whose remote is behind up to date, the pushes keep the
/// candidates' order, and every candidate among the first `k` whose remote
/// is behind is pushed.
pub open spec fn pushes_from(
    pushes: Seq<PushPlan>,
    src: Seq<int>,
    candidates: Seq<PushCandidate>,
    remote: Seq<Option<String>>,
    k: int,
) -> bool {
    &&& src.len() == pushes.len()
    &&& forall|j: int|
        0 <= j < pushes.len() ==> 0 <= #[trigger] src[j] < k && pushes[j] == push_of(
            candidates[src[j]],
            remote[src[j]],
        ) && remote_behind(remote[src[j]], candidates[src[j]].local_commit_id@)
    &&& forall|a: int, b: int| 0 <= a < b < src.len() ==> #[trigger] src[a] < #[trigger] src[b]
    &&& forall|i: int|
        0 <= i < k && remote_behind(#[trigger] remote[i], candidates[i].local_commit_id@) ==> exists|
            j: int,
        | 0 <= j < src.len() && src[j] == i
}

/// The pushes for the first `k` candidates are exactly those of the
/// candidates whose remote is behind, in candidate order.
proof fn lemma_stale_upto_from(candidates: Seq<PushCandidate>, remote: Seq<Option<String>>, k: int)
    requires
        0 <= k <= candidates.len(),
        candidates.len() == remote.len(),
    ensures
        exists|src: Seq<int>| #[trigger] pushes_from(stale_upto(candidates, remote, k), src, candidates, remote, k),
    decreases k,
{
    if k == 0 {
        assert(pushes_from(stale_upto(candidates, remote, k), Seq::<int>::empty(), candidates, remote, k));
    } else {
        lemma_stale_upto_from(candidates, remote, k - 1);
        let rest = stale_upto(candidates, remote, k - 1);
        let s0 = choose|src: Seq<int>| #[trigger] pushes_from(rest, src, candidates, remote, k - 1);
        let c = candidates[k - 1];
        if remote_behind(remote[k - 1], c.local_commit_id@) {
            let r = stale_upto(candidates, remote, k);
            let src = s0.push(k - 1);
            assert(r == rest.push(push_of(c, remote[k - 1])));
            assert forall|j: int| 0 <= j < r.len() implies 0 <= #[trigger] src[j] < k && r[j] == push_of(
                candidates[src[j]],
                remote[src[j]],
            ) && remote_behind(remote[src[j]], candidates[src[j]].local_commit_id@) by {
                if j < rest.len() {
                    assert(src[j] == s0[j] && r[j] == rest[j]);
                }
            }
            assert forall|a: int, b: int| 0 <= a < b < src.len() implies #[trigger] src[a]
                < #[trigger] src[b] by {
                if b < s0.len() {
                    assert(src[a] == s0[a] && src[b] == s0[b]);
                } else {
                    assert(src[a] == s0[a]);
                }
            }
            assert forall|i: int|
                0 <= i < k && remote_behind(#[trigger] remote[i], candidates[i].local_commit_id@) implies exists|
                j: int,
            | 0 <= j < src.len() && src[j] == i by {
                if i == k - 1 {
                    assert(src[s0.len() as int] == i);
                } else {
                    let j0 = choose|j: int| 0 <= j < s0.len() && s0[j] == i;
                    assert(src[j0] == i);
                }
            }
            assert(pushes_from(r, src, candidates, remote, k));
        } else {
            assert(pushes_from(stale_upto(candidates, remote, k), s0, candidates, remote, k));
        }
    }
}

/// Law of stale pushes: what `stale_pushes` plans for `candidates`, whose
/// remote targets are `remote`, is one push per candidate whose remote is
/// behind its local commit, in candidate order, and nothing else. So no
/// bookmark already up to date is pushed, and no stale one is left out.
pub proof fn lemma_stale_pushes_exact(candidates: Seq<PushCandidate>, remote: Seq<Option<String>>)
    requires
        candidates.len() == remote.len(),
    ensures
        exists|src: Seq<int>|
            #[trigger] pushes_from(
                stale_upto(candidates, remote, candidates.len() as int),
                src,
                candidates,
                remote,
                candidates.len() as int,
            ),
        forall|j: int|
            0 <= j < stale_upto(candidates, remote, candidates.len() as int).len() ==> remote_behind(
                (#[trigger] stale_upto(candidates, remote, candidates.len() as int)[j]).remote_commit_id,
                stale_upto(candidates, remote, candidates.len() as int)[j].local_commit_id@,
            ),
        forall|i: int|
            0 <= i < candidates.len() && remote_behind(#[trigger] remote[i], candidates[i].local_commit_id@)
                ==> stale_upto(candidates, remote, candidates.len() as int).contains(
                push_of(candidates[i], remote[i]),
            ),
{
    let n = candidates.len() as int;
    lemma_stale_upto_from(candidates, remote, n);
    let r = stale_upto(candidates, remote, n);
    let src = choose|src: Seq<int>| #[trigger] pushes_from(r, src, candidates, remote, n);
    assert forall|j: int| 0 <= j < r.len() implies remote_behind(
        (#[trigger] r[j]).remote_commit_id,
        r[j].local_commit_id@,
    ) by {
        assert(0 <= src[j] < n);
    }
    assert forall|i: int|
        0 <= i < n && remote_behind(#[trigger] remote[i], candidates[i].local_commit_id@) implies r.contains(
        push_of(candidates[i], remote[i]),
    ) by {
        let j = choose|j: int| 0 <= j < src.len() && src[j] == i;
        assert(r[j] == push_of(candidates[i], remote[i]));
    }
}

} // verus!
