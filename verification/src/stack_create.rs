//! Turning the detected local shape into real GitHub PR stacks.
//!
//! Two API rules dictate the order of every write, and they point in
//! opposite directions:
//!
//! - creating a stack only accepts PRs whose base refs *already* chain into
//!   each other, so the bases have to move first;
//! - updating a PR refuses to change the base ref of a PR that is in a stack,
//!   so the stack has to go first.
//!
//! The only order satisfying both is **unstack, then retarget, then create**.
//! Because GitHub will not let a stacked PR's base move, a stack that exists
//! verbatim cannot have drifted out of alignment, and needs no retargeting.
//!
//! This module decides the writes; the binary performs them in the order the
//! plans list them.

use crate::gh::{PrDetails, PullRequestStack};
use crate::stack_detect::last_numbered;
use crate::stack_plan::copy_numbers;
use crate::text::{concat, decimal, owned, push_decimal, push_str, str_eq};
use vstd::prelude::*;

verus! {

/// What happened to one chain.
#[derive(Debug, Clone, PartialEq, Eq)]
pub struct ChainResult {
    pub chain: Vec<u64>,
    pub outcome: ChainOutcome,
    /// PRs whose base ref had to be retargeted before the stack could be
    /// created.
    pub retargeted: Vec<u64>,
}

/// The fate of one chain's stack on GitHub.
#[derive(Debug, Clone, Copy, PartialEq, Eq)]
pub enum ChainOutcome {
    /// A new stack was created, carrying this stack number.
    Created(u64),
    /// GitHub already has this exact stack, so nothing was created.
    AlreadyExists,
}

/// The PR numbers of a stack's members, in order.
pub open spec fn members_view(stack: PullRequestStack) -> Seq<u64> {
    stack.pull_requests@.map_values(|pr: crate::gh::StackPullRequest| pr.number)
}

/// Whether GitHub already has `chain` as a stack, verbatim.
pub fn stack_exists(existing_stacks: &[PullRequestStack], chain: &[u64]) -> (r: bool)
    ensures
        r == exists|i: int|
            0 <= i < existing_stacks@.len() && #[trigger] members_view(existing_stacks@[i])
                == chain@,
{
    let mut i: usize = 0;
    while i < existing_stacks.len()
        invariant
            i <= existing_stacks@.len(),
            forall|j: int| 0 <= j < i ==> #[trigger] members_view(existing_stacks@[j]) != chain@,
        decreases existing_stacks@.len() - i,
    {
        let members = stack_members(&existing_stacks[i]);
        if same_numbers(&members, chain) {
            return true;
        }
        i = i + 1;
    }
    false
}

/// Whether `a` and `b` hold the same numbers in the same order.
fn same_numbers(a: &Vec<u64>, b: &[u64]) -> (r: bool)
    ensures
        r == (a@ == b@),
{
    if a.len() != b.len() {
        return false;
    }
    let mut i: usize = 0;
    while i < a.len()
        invariant
            a@.len() == b@.len(),
            i <= a@.len(),
            forall|j: int| 0 <= j < i ==> a@[j] == b@[j],
        decreases a@.len() - i,
    {
        if a[i] != b[i] {
            return false;
        }
        i = i + 1;
    }
    assert(a@ =~= b@);
    true
}

/// The PR numbers in `stack`, in order.
pub fn stack_members(stack: &PullRequestStack) -> (r: Vec<u64>)
    ensures
        r@ == members_view(*stack),
{
    let mut out: Vec<u64> = Vec::new();
    let mut i: usize = 0;
    while i < stack.pull_requests.len()
        invariant
            i <= stack.pull_requests@.len(),
            out@ == members_view(*stack).subrange(0, i as int),
        decreases stack.pull_requests@.len() - i,
    {
        out.push(stack.pull_requests[i].number);
        i = i + 1;
        assert(out@ =~= members_view(*stack).subrange(0, i as int));
    }
    assert(out@ =~= members_view(*stack));
    out
}

/// One call removing PRs from a stack.
#[derive(Debug, Clone, PartialEq, Eq)]
pub struct StackUnstack {
    pub stack_number: u64,
    /// Members to remove, in the order they appear in the PR details.
    pub members: Vec<u64>,
}

/// The PRs of `pr_details` that are in `wanted` and carry a stack number.
pub open spec fn unstackable(pr_details: Seq<PrDetails>, wanted: Seq<u64>, i: int) -> bool {
    wanted.contains(pr_details[i].number) && pr_details[i].stack_number is Some
}

/// `groups` hold, once each, exactly the PRs to unstack, grouped by stack:
/// one group per stack, members in input order.
pub open spec fn groups_partition(
    groups: Seq<StackUnstack>,
    pr_details: Seq<PrDetails>,
    wanted: Seq<u64>,
    k: int,
) -> bool {
    &&& forall|g: int, h: int|
        0 <= g < h < groups.len() ==> #[trigger] groups[g].stack_number
            != #[trigger] groups[h].stack_number
    &&& forall|g: int|
        0 <= g < groups.len() ==> #[trigger] groups[g].members@ == members_of_stack(
            pr_details,
            wanted,
            groups[g].stack_number,
            k,
        )
    &&& forall|g: int| 0 <= g < groups.len() ==> #[trigger] groups[g].members@.len() > 0
    &&& forall|i: int|
        0 <= i < k && unstackable(pr_details, wanted, i) ==> exists|g: int|
            0 <= g < groups.len() && #[trigger] groups[g].stack_number
                == pr_details[i].stack_number->0
}

/// The numbers of the first `k` unstackable PRs in stack `stack`, in order.
pub open spec fn members_of_stack(
    pr_details: Seq<PrDetails>,
    wanted: Seq<u64>,
    stack: u64,
    k: int,
) -> Seq<u64>
    decreases k,
{
    if k <= 0 {
        seq![]
    } else if unstackable(pr_details, wanted, k - 1) && pr_details[k - 1].stack_number == Some(
        stack,
    ) {
        members_of_stack(pr_details, wanted, stack, k - 1).push(pr_details[k - 1].number)
    } else {
        members_of_stack(pr_details, wanted, stack, k - 1)
    }
}

fn find_group(groups: &Vec<StackUnstack>, stack: u64) -> (r: Option<usize>)
    ensures
        match r {
            Some(g) => g < groups@.len() && groups@[g as int].stack_number == stack,
            None => forall|h: int| 0 <= h < groups@.len() ==> #[trigger] groups@[h].stack_number != stack,
        },
{
    let mut g: usize = 0;
    while g < groups.len()
        invariant
            g <= groups@.len(),
            forall|h: int| 0 <= h < g ==> #[trigger] groups@[h].stack_number != stack,
        decreases groups@.len() - g,
    {
        if groups[g].stack_number == stack {
            return Some(g);
        }
        g = g + 1;
    }
    None
}

fn contains_number(v: &[u64], n: u64) -> (r: bool)
    ensures
        r == v@.contains(n),
{
    let mut i: usize = 0;
    while i < v.len()
        invariant
            i <= v@.len(),
            forall|j: int| 0 <= j < i ==> v@[j] != n,
        decreases v@.len() - i,
    {
        if v[i] == n {
            return true;
        }
        i = i + 1;
    }
    false
}

/// The unstack calls that remove `pr_numbers` from whatever stacks they
/// belong to: one call per stack, stacks in order of first appearance.
///
/// Only PRs present in `pr_details` and carrying a stack number are touched,
/// so a stack member with no local bookmark keeps its membership rather than
/// being silently unstacked.
pub fn unstack_groups(pr_numbers: &[u64], pr_details: &[PrDetails]) -> (groups: Vec<StackUnstack>)
    ensures
        groups_partition(groups@, pr_details@, pr_numbers@, pr_details@.len() as int),
{
    let mut groups: Vec<StackUnstack> = Vec::new();
    let mut i: usize = 0;
    while i < pr_details.len()
        invariant
            i <= pr_details@.len(),
            groups_partition(groups@, pr_details@, pr_numbers@, i as int),
        decreases pr_details@.len() - i,
    {
        let pr = &pr_details[i];
        if contains_number(pr_numbers, pr.number) {
            match pr.stack_number {
                Some(stack) => {
                    let ghost old_groups = groups@;
                    match find_group(&groups, stack) {
                        Some(g) => {
                            let mut group = groups.remove(g);
                            group.members.push(pr.number);
                            groups.insert(g, group);
                            proof {
                                assert(groups@ =~= old_groups.update(g as int, groups@[g as int]));
                                assert forall|h: int| 0 <= h < groups@.len() && h != g implies #[trigger] groups@[h]
                                    == old_groups[h] by {}
                                assert(groups@[g as int].members@ == old_groups[g as int].members@.push(
                                    pr.number,
                                ));
                            }
                        },
                        None => {
                            let mut members: Vec<u64> = Vec::new();
                            members.push(pr.number);
                            groups.push(StackUnstack { stack_number: stack, members });
                            proof {
                                assert(groups@.drop_last() =~= old_groups);
                            }
                        },
                    }
                    proof {
                        lemma_groups_step(
                            pr_details@,
                            pr_numbers@,
                            i as int,
                            old_groups,
                            groups@,
                            stack,
                        );
                    }
                },
                None => {
                    proof {
                        lemma_groups_skip(pr_details@, pr_numbers@, i as int, groups@);
                    }
                },
            }
        } else {
            proof {
                lemma_groups_skip(pr_details@, pr_numbers@, i as int, groups@);
            }
        }
        i = i + 1;
    }
    groups
}

/// Lemma: the same, by induction over the prefix.
proof fn lemma_members_prefix_empty(
    pr_details: Seq<PrDetails>,
    wanted: Seq<u64>,
    stack: u64,
    k: int,
    groups: Seq<StackUnstack>,
)
    requires
        0 <= k <= pr_details.len(),
        forall|i: int|
            0 <= i < k && unstackable(pr_details, wanted, i) ==> exists|g: int|
                0 <= g < groups.len() && #[trigger] groups[g].stack_number
                    == pr_details[i].stack_number->0,
        forall|h: int| 0 <= h < groups.len() ==> #[trigger] groups[h].stack_number != stack,
    ensures
        members_of_stack(pr_details, wanted, stack, k).len() == 0,
    decreases k,
{
    if k > 0 {
        if unstackable(pr_details, wanted, k - 1) && pr_details[k - 1].stack_number == Some(stack) {
            let g = choose|g: int|
                0 <= g < groups.len() && #[trigger] groups[g].stack_number
                    == pr_details[k - 1].stack_number->0;
            assert(groups[g].stack_number != stack);
        }
        lemma_members_prefix_empty(pr_details, wanted, stack, k - 1, groups);
    }
}

/// Lemma: a PR that is not unstacked leaves the partition as it was.
proof fn lemma_groups_skip(
    pr_details: Seq<PrDetails>,
    wanted: Seq<u64>,
    k: int,
    groups: Seq<StackUnstack>,
)
    requires
        0 <= k < pr_details.len(),
        groups_partition(groups, pr_details, wanted, k),
        !unstackable(pr_details, wanted, k),
    ensures
        groups_partition(groups, pr_details, wanted, k + 1),
{
    assert forall|g: int| 0 <= g < groups.len() implies #[trigger] groups[g].members@
        == members_of_stack(pr_details, wanted, groups[g].stack_number, k + 1) by {}
}

/// Lemma: adding PR `k` to the group of its stack extends the partition.
proof fn lemma_groups_step(
    pr_details: Seq<PrDetails>,
    wanted: Seq<u64>,
    k: int,
    old_groups: Seq<StackUnstack>,
    groups: Seq<StackUnstack>,
    stack: u64,
)
    requires
        0 <= k < pr_details.len(),
        groups_partition(old_groups, pr_details, wanted, k),
        unstackable(pr_details, wanted, k),
        pr_details[k].stack_number == Some(stack),
        // Either the stack had a group, which gained the PR ...
        (exists|g: int|
            0 <= g < old_groups.len() && old_groups[g].stack_number == stack && groups.len()
                == old_groups.len() && groups[g].stack_number == stack && groups[g].members@
                == old_groups[g].members@.push(pr_details[k].number) && forall|h: int|
                0 <= h < groups.len() && h != g ==> #[trigger] groups[h] == old_groups[h]) || (
        // ... or it had none, and a new group holds just the PR.
        (forall|h: int| 0 <= h < old_groups.len() ==> #[trigger] old_groups[h].stack_number != stack)
            && groups.len() == old_groups.len() + 1 && groups.drop_last() == old_groups
            && groups.last().stack_number == stack && groups.last().members@ == seq![
            pr_details[k].number,
        ]),
    ensures
        groups_partition(groups, pr_details, wanted, k + 1),
{
    if exists|g: int|
        0 <= g < old_groups.len() && old_groups[g].stack_number == stack && groups.len()
            == old_groups.len() && groups[g].stack_number == stack && groups[g].members@
            == old_groups[g].members@.push(pr_details[k].number) && forall|h: int|
            0 <= h < groups.len() && h != g ==> #[trigger] groups[h] == old_groups[h] {
        let g0 = choose|g: int|
            0 <= g < old_groups.len() && old_groups[g].stack_number == stack && groups.len()
                == old_groups.len() && groups[g].stack_number == stack && groups[g].members@
                == old_groups[g].members@.push(pr_details[k].number) && forall|h: int|
                0 <= h < groups.len() && h != g ==> #[trigger] groups[h] == old_groups[h];
        assert forall|g: int, h: int|
            0 <= g < h < groups.len() implies #[trigger] groups[g].stack_number
            != #[trigger] groups[h].stack_number by {
            assert(old_groups[g].stack_number != old_groups[h].stack_number);
            if g != g0 {
                assert(groups[g] == old_groups[g]);
            }
            if h != g0 {
                assert(groups[h] == old_groups[h]);
            }
        }
        assert forall|g: int| 0 <= g < groups.len() implies #[trigger] groups[g].members@
            == members_of_stack(pr_details, wanted, groups[g].stack_number, k + 1) by {
            if g != g0 {
                assert(groups[g] == old_groups[g]);
                assert(old_groups[g].stack_number != old_groups[g0].stack_number);
            }
        }
        assert forall|g: int| 0 <= g < groups.len() implies #[trigger] groups[g].members@.len()
            > 0 by {
            if g != g0 {
                assert(groups[g] == old_groups[g]);
            }
        }
        assert forall|i: int|
            0 <= i < k + 1 && unstackable(pr_details, wanted, i) implies exists|g: int|
            0 <= g < groups.len() && #[trigger] groups[g].stack_number
                == pr_details[i].stack_number->0 by {
            if i < k {
                let g1 = choose|g: int|
                    0 <= g < old_groups.len() && #[trigger] old_groups[g].stack_number
                        == pr_details[i].stack_number->0;
                if g1 != g0 {
                    assert(groups[g1] == old_groups[g1]);
                }
                assert(groups[g1].stack_number == pr_details[i].stack_number->0);
            } else {
                assert(groups[g0].stack_number == pr_details[i].stack_number->0);
            }
        }
    } else {
        let n = groups.len() - 1;
        assert forall|h: int| 0 <= h < n implies #[trigger] groups[h] == old_groups[h] by {
            assert(groups.drop_last()[h] == groups[h]);
        }
        assert(members_of_stack(pr_details, wanted, stack, k).len() == 0) by {
            lemma_members_prefix_empty(pr_details, wanted, stack, k, old_groups);
        }
        assert(members_of_stack(pr_details, wanted, stack, k) =~= Seq::<u64>::empty());
        assert forall|g: int, h: int|
            0 <= g < h < groups.len() implies #[trigger] groups[g].stack_number
            != #[trigger] groups[h].stack_number by {
            if h < n {
                assert(old_groups[g].stack_number != old_groups[h].stack_number);
            } else {
                assert(groups[g] == old_groups[g]);
            }
        }
        assert forall|g: int| 0 <= g < groups.len() implies #[trigger] groups[g].members@
            == members_of_stack(pr_details, wanted, groups[g].stack_number, k + 1) by {
            if g < n {
                assert(groups[g] == old_groups[g]);
                assert(old_groups[g].stack_number != stack);
            }
        }
        assert forall|g: int| 0 <= g < groups.len() implies #[trigger] groups[g].members@.len()
            > 0 by {
            if g < n {
                assert(groups[g] == old_groups[g]);
            }
        }
        assert forall|i: int|
            0 <= i < k + 1 && unstackable(pr_details, wanted, i) implies exists|g: int|
            0 <= g < groups.len() && #[trigger] groups[g].stack_number
                == pr_details[i].stack_number->0 by {
            if i < k {
                let g1 = choose|g: int|
                    0 <= g < old_groups.len() && #[trigger] old_groups[g].stack_number
                        == pr_details[i].stack_number->0;
                assert(groups[g1] == old_groups[g1]);
            } else {
                assert(groups[n].stack_number == pr_details[i].stack_number->0);
            }
        }
    }
}

/// One base-ref update that makes a chain member point at the PR below it.
#[derive(Debug, Clone, PartialEq, Eq)]
pub struct Retarget {
    pub pr_number: u64,
    pub pr_node_id: String,
    /// The head ref of the PR below, which becomes this PR's base ref.
    pub base: String,
}

/// The base-ref updates that make a chain's base refs chain into each other,
/// in chain order. `missing` names the first chain member without details;
/// the updates listed before it still happen, then the chain fails.
#[derive(Debug, Clone, PartialEq, Eq)]
pub struct AlignPlan {
    pub retargets: Vec<Retarget>,
    pub missing: Option<u64>,
}

/// A retarget over string views: PR number, node ID, new base.
pub type RetargetView = (u64, Seq<char>, Seq<char>);

/// The view of a planned retarget.
pub open spec fn retarget_view(r: Retarget) -> RetargetView {
    (r.pr_number, r.pr_node_id@, r.base@)
}

/// The retargets and the first missing member for the pairs of `chain` from
/// position `k` upwards. PR details are looked up by number, the last entry
/// winning, as in a map built from the list.
pub open spec fn align_from(prs: Seq<PrDetails>, chain: Seq<u64>, k: int) -> (
    Seq<RetargetView>,
    Option<u64>,
)
    decreases chain.len() - k,
{
    if k < 0 || k + 1 >= chain.len() {
        (seq![], None)
    } else {
        let below = chain[k];
        let above = chain[k + 1];
        match last_numbered(prs, below, prs.len() as int) {
            None => (seq![], Some(below)),
            Some(bi) => match last_numbered(prs, above, prs.len() as int) {
                None => (seq![], Some(above)),
                Some(ai) => {
                    let rest = align_from(prs, chain, k + 1);
                    if prs[ai].base_ref@ == prs[bi].head_ref@ {
                        rest
                    } else {
                        (
                            seq![(above, prs[ai].graphql_node_id@, prs[bi].head_ref@)] + rest.0,
                            rest.1,
                        )
                    }
                },
            },
        }
    }
}

fn find_pr(prs: &[PrDetails], n: u64) -> (r: Option<usize>)
    ensures
        match r {
            Some(i) => last_numbered(prs@, n, prs@.len() as int) == Some(i as int) && i < prs@.len(),
            None => last_numbered(prs@, n, prs@.len() as int) is None,
        },
{
    let mut k: usize = prs.len();
    while k > 0
        invariant
            k <= prs@.len(),
            last_numbered(prs@, n, prs@.len() as int) == last_numbered(prs@, n, k as int),
        decreases k,
    {
        if prs[k - 1].number == n {
            return Some(k - 1);
        }
        k = k - 1;
    }
    None
}

/// Point every PR in `chain` at its predecessor's head ref, which GitHub
/// requires when the stack is created. The bottom PR's base is left alone:
/// nothing in the chain constrains it.
pub fn align_chain_bases(chain: &[u64], pr_details: &[PrDetails]) -> (plan: AlignPlan)
    ensures
        plan.retargets@.map_values(|r: Retarget| retarget_view(r)) == align_from(
            pr_details@,
            chain@,
            0,
        ).0,
        plan.missing == align_from(pr_details@, chain@, 0).1,
{
    let mut retargets: Vec<Retarget> = Vec::new();
    let mut k: usize = 0;
    while k < chain.len() && k + 1 < chain.len()
        invariant
            k <= chain@.len(),
            align_from(pr_details@, chain@, 0).0 == retargets@.map_values(
                |r: Retarget| retarget_view(r),
            ) + align_from(pr_details@, chain@, k as int).0,
            align_from(pr_details@, chain@, 0).1 == align_from(pr_details@, chain@, k as int).1,
        decreases chain@.len() - k,
    {
        let below = chain[k];
        let above = chain[k + 1];
        assert(k + 1 <= chain@.len());
        let bi = match find_pr(pr_details, below) {
            Some(i) => i,
            None => {
                return AlignPlan { retargets, missing: Some(below) };
            },
        };
        let ai = match find_pr(pr_details, above) {
            Some(i) => i,
            None => {
                return AlignPlan { retargets, missing: Some(above) };
            },
        };
        let ghost before = retargets@.map_values(|r: Retarget| retarget_view(r));
        if !str_eq(pr_details[ai].base_ref.as_str(), pr_details[bi].head_ref.as_str()) {
            retargets.push(
                Retarget {
                    pr_number: above,
                    pr_node_id: owned(pr_details[ai].graphql_node_id.as_str()),
                    base: owned(pr_details[bi].head_ref.as_str()),
                },
            );
            proof {
                let rest = align_from(pr_details@, chain@, k + 1);
                assert(retargets@.map_values(|r: Retarget| retarget_view(r)) =~= before.push(
                    (above, pr_details@[ai as int].graphql_node_id@, pr_details@[bi as int].head_ref@),
                ));
                assert(before + (seq![
                    (above, pr_details@[ai as int].graphql_node_id@, pr_details@[bi as int].head_ref@),
                ] + rest.0) =~= before.push(
                    (above, pr_details@[ai as int].graphql_node_id@, pr_details@[bi as int].head_ref@),
                ) + rest.0);
            }
        }
        k = k + 1;
    }
    proof {
        assert(align_from(pr_details@, chain@, k as int).0 =~= Seq::<RetargetView>::empty());
        assert(retargets@.map_values(|r: Retarget| retarget_view(r)) + Seq::<RetargetView>::empty()
            =~= retargets@.map_values(|r: Retarget| retarget_view(r)));
    }
    AlignPlan { retargets, missing: None }
}

/// The message for a chain member without details.
pub fn missing_member_message(number: u64) -> (m: String)
    ensures
        m@ == "no details for PR #"@ + decimal(number as nat) + " in the chain"@,
{
    let mut m = owned("no details for PR #");
    push_decimal(&mut m, number);
    push_str(&mut m, " in the chain");
    m
}

/// What to do for one chain: nothing when GitHub has it verbatim, else the
/// unstack calls, the base-ref updates, and then the stack creation.
#[derive(Debug, Clone, PartialEq, Eq)]
pub struct ChainPlan {
    pub chain: Vec<u64>,
    /// GitHub already has this exact stack; nothing is written.
    pub already_exists: bool,
    /// Unstack calls, made first.
    pub unstack: Vec<StackUnstack>,
    /// Base-ref updates, made next; the stack is created last.
    pub align: AlignPlan,
}

impl ChainPlan {
    /// What happened to the chain once the plan ran, given the number of the
    /// stack GitHub created (ignored when the stack already existed).
    pub fn result(&self, created_stack: u64) -> (r: ChainResult)
        ensures
            r.chain@ == self.chain@,
            self.already_exists ==> r.outcome == ChainOutcome::AlreadyExists && r.retargeted@.len()
                == 0,
            !self.already_exists ==> r.outcome == ChainOutcome::Created(created_stack)
                && r.retargeted@ == self.align.retargets@.map_values(|t: Retarget| t.pr_number),
    {
        let mut chain: Vec<u64> = Vec::new();
        let mut i: usize = 0;
        while i < self.chain.len()
            invariant
                i <= self.chain@.len(),
                chain@ == self.chain@.subrange(0, i as int),
            decreases self.chain@.len() - i,
        {
            chain.push(self.chain[i]);
            i = i + 1;
            assert(chain@ =~= self.chain@.subrange(0, i as int));
        }
        assert(chain@ =~= self.chain@);
        if self.already_exists {
            return ChainResult { chain, outcome: ChainOutcome::AlreadyExists, retargeted: Vec::new() };
        }
        let mut retargeted: Vec<u64> = Vec::new();
        let mut j: usize = 0;
        while j < self.align.retargets.len()
            invariant
                j <= self.align.retargets@.len(),
                retargeted@ == self.align.retargets@.map_values(|t: Retarget| t.pr_number).subrange(
                    0,
                    j as int,
                ),
            decreases self.align.retargets@.len() - j,
        {
            retargeted.push(self.align.retargets[j].pr_number);
            j = j + 1;
            assert(retargeted@ =~= self.align.retargets@.map_values(|t: Retarget| t.pr_number).subrange(
                0,
                j as int,
            ));
        }
        assert(retargeted@ =~= self.align.retargets@.map_values(|t: Retarget| t.pr_number));
        ChainResult { chain, outcome: ChainOutcome::Created(created_stack), retargeted }
    }
}

/// Plan the stack for `chain`: unstack its members from stale stacks, then
/// chain its base refs, unless GitHub already has the stack verbatim.
pub fn plan_chain(chain: &[u64], pr_details: &[PrDetails], existing_stacks: &[PullRequestStack]) -> (plan:
    ChainPlan)
    ensures
        plan.chain@ == chain@,
        plan.already_exists == exists|i: int|
            0 <= i < existing_stacks@.len() && #[trigger] members_view(existing_stacks@[i])
                == chain@,
        plan.already_exists ==> plan.unstack@.len() == 0 && plan.align.retargets@.len() == 0
            && plan.align.missing is None,
        !plan.already_exists ==> groups_partition(
            plan.unstack@,
            pr_details@,
            chain@,
            pr_details@.len() as int,
        ),
        !plan.already_exists ==> plan.align.retargets@.map_values(|r: Retarget| retarget_view(r))
            == align_from(pr_details@, chain@, 0).0 && plan.align.missing == align_from(
            pr_details@,
            chain@,
            0,
        ).1,
{
    let mut own: Vec<u64> = Vec::new();
    let mut i: usize = 0;
    while i < chain.len()
        invariant
            i <= chain@.len(),
            own@ == chain@.subrange(0, i as int),
        decreases chain@.len() - i,
    {
        own.push(chain[i]);
        i = i + 1;
        assert(own@ =~= chain@.subrange(0, i as int));
    }
    assert(own@ =~= chain@);
    if stack_exists(existing_stacks, chain) {
        return ChainPlan {
            chain: own,
            already_exists: true,
            unstack: Vec::new(),
            align: AlignPlan { retargets: Vec::new(), missing: None },
        };
    }
    ChainPlan {
        chain: own,
        already_exists: false,
        unstack: unstack_groups(chain, pr_details),
        align: align_chain_bases(chain, pr_details),
    }
}


/// One write on GitHub for a chain.
#[derive(Debug, Clone, PartialEq, Eq)]
pub enum StackWrite {
    /// Take `members` out of stack `stack_number`.
    Unstack { stack_number: u64, members: Vec<u64> },
    /// Move the base ref of PR `pr_number` to `base`.
    Retarget { pr_number: u64, pr_node_id: String, base: String },
    /// Create the stack for `chain`.
    Create { chain: Vec<u64> },
}

/// Where a write falls in the order GitHub needs: unstack, then retarget,
/// then create.
pub open spec fn write_rank(w: StackWrite) -> int {
    match w {
        StackWrite::Unstack { .. } => 0,
        StackWrite::Retarget { .. } => 1,
        StackWrite::Create { .. } => 2,
    }
}

/// `w` is the unstack call `g`.
pub open spec fn is_unstack_of(w: StackWrite, g: StackUnstack) -> bool {
    w matches StackWrite::Unstack { stack_number, members } && stack_number == g.stack_number
        && members@ == g.members@
}

/// `w` is the base-ref update `r`.
pub open spec fn is_retarget_of(w: StackWrite, r: Retarget) -> bool {
    w matches StackWrite::Retarget { pr_number, pr_node_id, base } && (pr_number, pr_node_id@, base@)
        == retarget_view(r)
}

impl ChainPlan {
    /// The writes the plan makes, in order: the unstack calls, then the
    /// base-ref updates, then the creation of the stack. Nothing when
    /// GitHub already has the stack; no creation when a chain member has no
    /// details, since the run stops with an error there.
    pub fn writes(&self) -> (w: Vec<StackWrite>)
        ensures
            self.already_exists ==> w@.len() == 0,
            !self.already_exists ==> w@.len() == self.unstack@.len() + self.align.retargets@.len() + (
            if self.align.missing is None {
                1int
            } else {
                0int
            }),
            !self.already_exists ==> forall|i: int|
                0 <= i < self.unstack@.len() ==> is_unstack_of(#[trigger] w@[i], self.unstack@[i]),
            !self.already_exists ==> forall|i: int|
                0 <= i < self.align.retargets@.len() ==> is_retarget_of(
                    #[trigger] w@[self.unstack@.len() + i],
                    self.align.retargets@[i],
                ),
            !self.already_exists && self.align.missing is None ==> (w@.last() matches StackWrite::Create {
                chain,
            } && chain@ == self.chain@),
            forall|i: int, j: int|
                0 <= i < j < w@.len() ==> write_rank(#[trigger] w@[i]) <= write_rank(#[trigger] w@[j]),
    {
        let mut w: Vec<StackWrite> = Vec::new();
        if self.already_exists {
            return w;
        }
        let nu = self.unstack.len();
        let mut i: usize = 0;
        while i < nu
            invariant
                nu == self.unstack@.len(),
                i <= nu,
                w@.len() == i,
                forall|k: int| 0 <= k < i ==> is_unstack_of(#[trigger] w@[k], self.unstack@[k]),
                forall|k: int| 0 <= k < i ==> write_rank(#[trigger] w@[k]) == 0,
            decreases nu - i,
        {
            let g = &self.unstack[i];
            let members = copy_numbers(&g.members);
            w.push(StackWrite::Unstack { stack_number: g.stack_number, members });
            i = i + 1;
        }
        let nr = self.align.retargets.len();
        let mut j: usize = 0;
        while j < nr
            invariant
                nu == self.unstack@.len(),
                nr == self.align.retargets@.len(),
                j <= nr,
                w@.len() == nu + j,
                forall|k: int| 0 <= k < nu ==> is_unstack_of(#[trigger] w@[k], self.unstack@[k]),
                forall|k: int| 0 <= k < nu ==> write_rank(#[trigger] w@[k]) == 0,
                forall|k: int|
                    0 <= k < j ==> is_retarget_of(#[trigger] w@[nu + k], self.align.retargets@[k]),
                forall|k: int| nu <= k < nu + j ==> write_rank(#[trigger] w@[k]) == 1,
            decreases nr - j,
        {
            let r = &self.align.retargets[j];
            w.push(
                StackWrite::Retarget {
                    pr_number: r.pr_number,
                    pr_node_id: r.pr_node_id.clone(),
                    base: r.base.clone(),
                },
            );
            assert(w@[nu + j as int] matches StackWrite::Retarget { .. });
            j = j + 1;
        }
        if self.align.missing.is_none() {
            let chain = copy_numbers(&self.chain);
            w.push(StackWrite::Create { chain });
        }
        proof {
            assert forall|a: int, b: int| 0 <= a < b < w@.len() implies write_rank(#[trigger] w@[a])
                <= write_rank(#[trigger] w@[b]) by {
                if b < nu {
                } else if b < nu + nr {
                    if a >= nu {
                    }
                }
            }
        }
        w
    }
}

} // verus!
