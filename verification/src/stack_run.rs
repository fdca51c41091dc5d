//! Running stack plans: the writes `pr stack` makes, in the order GitHub
//! needs them, and the chains `pr create` links into stacks.
//!
//! Every write is decided here before the first one is sent. Each chain is
//! planned on the state the earlier writes leave behind (PRs taken out of
//! their stacks, base refs moved), so that no write is repeated and no chain
//! is skipped as existing when its stack was just dissolved. The binary
//! sends the writes one by one and stops at the first one that fails.
use vstd::prelude::*;
use crate::gh::{PrDetails, PullRequestStack};
use crate::numbers::contains_u64;
use crate::stack_apply::{dissolved, mirror_retarget, mirror_unstack, same_pr_facts};
use crate::stack_create::{
    stack_members, align_from, groups_partition, members_view, plan_chain, retarget_view, unstack_groups, unstackable,
    ChainOutcome, ChainPlan, ChainResult, Retarget, StackUnstack,
};
use crate::stack_detect::{chains, chains_view, BasePlan};
use crate::stack_plan::{chain_text, copy_numbers, format_chain, Plan, PushPlan};
use crate::text::{decimal, owned, push_decimal, push_str};

verus! {

/// The numbers of the first `k` PRs of `details` that are in `wanted` and
/// in a stack, in detail order.
pub open spec fn unstackable_numbers(details: Seq<PrDetails>, wanted: Seq<u64>, k: int) -> Seq<u64>
    decreases k,
{
    if k <= 0 {
        seq![]
    } else if unstackable(details, wanted, k - 1) {
        unstackable_numbers(details, wanted, k - 1).push(details[k - 1].number)
    } else {
        unstackable_numbers(details, wanted, k - 1)
    }
}

/// `s` is in increasing order.
pub open spec fn ascending(s: Seq<u64>) -> bool {
    forall|i: int, j: int| 0 <= i < j < s.len() ==> s[i] <= s[j]
}

/// The PRs an unstack of `pr_numbers` takes out of their stacks, as it
/// reports them: those of `pr_details` that are wanted and in a stack, in
/// increasing order.
pub fn unstacked_numbers(pr_numbers: &[u64], pr_details: &[PrDetails]) -> (r: Vec<u64>)
    ensures
        ascending(r@),
        r@.to_multiset() == unstackable_numbers(pr_details@, pr_numbers@, pr_details@.len() as int).to_multiset(),
{
    let mut r: Vec<u64> = Vec::new();
    let mut i: usize = 0;
    while i < pr_details.len()
        invariant
            i <= pr_details@.len(),
            ascending(r@),
            r@.to_multiset() == unstackable_numbers(pr_details@, pr_numbers@, i as int).to_multiset(),
        decreases pr_details@.len() - i,
    {
        let n = pr_details[i].number;
        if contains_u64(pr_numbers, n) && pr_details[i].stack_number.is_some() {
            let mut p: usize = 0;
            while p < r.len() && r[p] <= n
                invariant
                    p <= r@.len(),
                    forall|q: int| 0 <= q < p ==> r@[q] <= n,
                decreases r@.len() - p,
            {
                p = p + 1;
            }
            let ghost before = r@;
            r.insert(p, n);
            proof {
                vstd::seq_lib::to_multiset_insert(before, p as int, n);
                vstd::seq_lib::to_multiset_build(
                    unstackable_numbers(pr_details@, pr_numbers@, i as int),
                    n,
                );
                assert(r@ == before.insert(p as int, n));
                assert forall|a: int, b: int| 0 <= a < b < r@.len() implies r@[a] <= r@[b] by {
                    if b < p {
                        assert(r@[a] == before[a] && r@[b] == before[b]);
                    } else if b == p {
                        assert(r@[a] == before[a]);
                    } else if a < p {
                        assert(r@[a] == before[a] && r@[b] == before[b - 1]);
                        assert(before[p as int] > n);
                    } else if a == p {
                        assert(r@[b] == before[b - 1]);
                        assert(before[p as int] > n);
                    } else {
                        assert(r@[a] == before[a - 1] && r@[b] == before[b - 1]);
                    }
                }
            }
        }
        i = i + 1;
    }
    r
}

/// `p` is what `plan_chain` gives for `chain` over `details` and `stacks`.
pub open spec fn planned_chain(
    p: ChainPlan,
    chain: Seq<u64>,
    details: Seq<PrDetails>,
    stacks: Seq<PullRequestStack>,
) -> bool {
    &&& p.chain@ == chain
    &&& p.already_exists == exists|i: int|
        0 <= i < stacks.len() && #[trigger] members_view(stacks[i]) == chain
    &&& p.already_exists ==> p.unstack@.len() == 0 && p.align.retargets@.len() == 0
        && p.align.missing is None
    &&& !p.already_exists ==> groups_partition(p.unstack@, details, chain, details.len() as int)
    &&& !p.already_exists ==> p.align.retargets@.map_values(|r: Retarget| retarget_view(r))
        == align_from(details, chain, 0).0 && p.align.missing == align_from(details, chain, 0).1
}

/// The stack plans that link PRs into GitHub stacks after `pr create`: one
/// per chain of the local graph, in chain order. `ancestors[i]` is the
/// bookmark on the closest bookmarked ancestor of `pr_details[i]`.
pub fn link_plans(
    pr_details: &[PrDetails],
    ancestors: &[Option<String>],
    existing_stacks: &[PullRequestStack],
) -> (plans: Vec<ChainPlan>)
    requires
        pr_details@.len() == ancestors@.len(),
    ensures
        plans@.len() == chains_view(pr_details@, ancestors@).len(),
        forall|i: int|
            0 <= i < plans@.len() ==> planned_chain(
                #[trigger] plans@[i],
                chains_view(pr_details@, ancestors@)[i],
                pr_details@,
                existing_stacks@,
            ),
{
    let cs = chains(pr_details, ancestors);
    let mut plans: Vec<ChainPlan> = Vec::new();
    let mut k: usize = 0;
    while k < cs.len()
        invariant
            k <= cs@.len(),
            cs@.len() == chains_view(pr_details@, ancestors@).len(),
            forall|i: int| 0 <= i < cs@.len() ==> cs@[i]@ == chains_view(pr_details@, ancestors@)[i],
            plans@.len() == k,
            forall|i: int|
                0 <= i < k ==> planned_chain(
                    #[trigger] plans@[i],
                    chains_view(pr_details@, ancestors@)[i],
                    pr_details@,
                    existing_stacks@,
                ),
        decreases cs@.len() - k,
    {
        let plan = plan_chain(cs[k].as_slice(), pr_details, existing_stacks);
        plans.push(plan);
        k = k + 1;
    }
    plans
}

/// How far the binary is in sending a list of writes.
#[derive(Debug, Clone, Copy, PartialEq, Eq, Structural)]
pub enum ApplyProgress {
    /// Send the write at this index next.
    Next(usize),
    /// Every write went through.
    Done,
    /// The write at this index failed; nothing after it is sent.
    Failed(usize),
}

/// Where sending `total` writes starts.
pub open spec fn progress_start(total: usize) -> ApplyProgress {
    if total == 0 {
        ApplyProgress::Done
    } else {
        ApplyProgress::Next(0)
    }
}

/// The progress once the write at hand went through (`ok`) or failed.
pub open spec fn progress_next(p: ApplyProgress, total: usize, ok: bool) -> ApplyProgress {
    match p {
        ApplyProgress::Next(i) => if !ok {
            ApplyProgress::Failed(i)
        } else if i + 1 >= total {
            ApplyProgress::Done
        } else {
            ApplyProgress::Next((i + 1) as usize)
        },
        _ => p,
    }
}

/// Where sending `total` writes starts.
pub fn apply_begin(total: usize) -> (p: ApplyProgress)
    ensures
        p == progress_start(total),
{
    if total == 0 {
        ApplyProgress::Done
    } else {
        ApplyProgress::Next(0)
    }
}

/// The progress once the write at hand went through (`ok`) or failed.
pub fn apply_advance(p: ApplyProgress, total: usize, ok: bool) -> (r: ApplyProgress)
    ensures
        r == progress_next(p, total, ok),
{
    match p {
        ApplyProgress::Next(i) => if !ok {
            ApplyProgress::Failed(i)
        } else if i >= total || i + 1 >= total {
            ApplyProgress::Done
        } else {
            ApplyProgress::Next(i + 1)
        },
        _ => p,
    }
}

/// The progress after the outcomes `oks` of the writes sent so far.
pub open spec fn progress_after(total: usize, oks: Seq<bool>) -> ApplyProgress
    decreases oks.len(),
{
    if oks.len() == 0 {
        progress_start(total)
    } else {
        progress_next(progress_after(total, oks.drop_last()), total, oks.last())
    }
}

/// Law of applying a plan: a write is sent only when every write before it
/// went through; a failed write ends the run there; the run is done only
/// when every write went through.
pub proof fn lemma_stops_at_first_failure(total: usize, oks: Seq<bool>)
    ensures
        progress_after(total, oks) matches ApplyProgress::Next(k) ==> k == oks.len() && k < total
            && forall|i: int| 0 <= i < oks.len() ==> #[trigger] oks[i],
        progress_after(total, oks) matches ApplyProgress::Failed(k) ==> k < oks.len() && !oks[k as int]
            && forall|i: int| 0 <= i < k ==> #[trigger] oks[i],
        progress_after(total, oks) is Done ==> total <= oks.len() && forall|i: int|
            0 <= i < total ==> #[trigger] oks[i],
    decreases oks.len(),
{
    if oks.len() > 0 {
        let d = oks.drop_last();
        lemma_stops_at_first_failure(total, d);
        assert forall|i: int| 0 <= i < d.len() implies d[i] == oks[i] by {}
    }
}

/// One write that applying a stack plan makes.
#[derive(Debug, Clone, PartialEq, Eq)]
pub enum ApplyWrite {
    /// Push `bookmark` at `local_commit_id`.
    Push { bookmark: String, local_commit_id: String },
    /// Take `members` out of stack `stack_number`.
    Unstack { stack_number: u64, members: Vec<u64> },
    /// Move the base ref of PR `pr_number` to `base`.
    Retarget { pr_number: u64, pr_node_id: String, base: String },
    /// Create the stack for `chain`.
    CreateStack { chain: Vec<u64> },
    /// Stop: PR `pr_number` of a chain has no details, so its stack cannot
    /// be created.
    MissingMember { pr_number: u64 },
}

/// A write over plain values: its kind (0 push, 1 unstack, 2 base-ref
/// update, 3 stack creation, 4 missing member), a number, a list of numbers
/// and two texts.
pub type WriteView = (int, u64, Seq<u64>, Seq<char>, Seq<char>);

/// The view of a write.
pub open spec fn write_view(w: ApplyWrite) -> WriteView {
    match w {
        ApplyWrite::Push { bookmark, local_commit_id } => (0, 0, seq![], bookmark@, local_commit_id@),
        ApplyWrite::Unstack { stack_number, members } => (1, stack_number, members@, seq![], seq![]),
        ApplyWrite::Retarget { pr_number, pr_node_id, base } => (2, pr_number, seq![], pr_node_id@, base@),
        ApplyWrite::CreateStack { chain } => (3, 0, chain@, seq![], seq![]),
        ApplyWrite::MissingMember { pr_number } => (4, pr_number, seq![], seq![], seq![]),
    }
}

/// The views of a list of writes.
pub open spec fn writes_view(w: Seq<ApplyWrite>) -> Seq<WriteView> {
    w.map_values(|x: ApplyWrite| write_view(x))
}

/// The push of a stale bookmark.
pub open spec fn push_write(p: PushPlan) -> WriteView {
    (0, 0, seq![], p.bookmark@, p.local_commit_id@)
}

/// One unstack call.
pub open spec fn unstack_write(g: StackUnstack) -> WriteView {
    (1, g.stack_number, g.members@, seq![], seq![])
}

/// One base-ref update that chains a stack.
pub open spec fn retarget_write(r: Retarget) -> WriteView {
    (2, r.pr_number, seq![], r.pr_node_id@, r.base@)
}

/// One base-ref update of the plan.
pub open spec fn base_write(b: BasePlan) -> WriteView {
    (2, b.pr_number, seq![], b.pr_node_id@, b.proposed_base@)
}

/// Whether a chain plan ends the run: its stack is to be made but a member
/// has no details.
pub open spec fn chain_stops(p: ChainPlan) -> bool {
    !p.already_exists && p.align.missing is Some
}

/// The writes of one chain: none when GitHub has the stack; else its
/// unstack calls, its base-ref updates, then the stack creation, or the stop
/// at a member without details.
pub open spec fn chain_writes(p: ChainPlan) -> Seq<WriteView> {
    if p.already_exists {
        seq![]
    } else {
        p.unstack@.map_values(|g: StackUnstack| unstack_write(g)) + p.align.retargets@.map_values(
            |r: Retarget| retarget_write(r),
        ) + match p.align.missing {
            Some(n) => seq![(4int, n, Seq::<u64>::empty(), Seq::<char>::empty(), Seq::<char>::empty())],
            None => seq![(3int, 0u64, p.chain@, Seq::<char>::empty(), Seq::<char>::empty())],
        }
    }
}

/// The writes of the chains, in order, up to and including the first chain
/// that stops the run.
pub open spec fn chains_writes(cs: Seq<ChainPlan>) -> Seq<WriteView>
    decreases cs.len(),
{
    if cs.len() == 0 {
        seq![]
    } else if chain_stops(cs[0]) {
        chain_writes(cs[0])
    } else {
        chain_writes(cs[0]) + chains_writes(cs.drop_first())
    }
}

/// The base ref PR `n` has after the updates `bases` ran, starting from
/// `orig`: the last update for it wins.
pub open spec fn base_after(bases: Seq<BasePlan>, n: u64, orig: Seq<char>) -> Seq<char>
    decreases bases.len(),
{
    if bases.len() == 0 {
        orig
    } else if bases.last().pr_number == n {
        bases.last().proposed_base@
    } else {
        base_after(bases.drop_last(), n, orig)
    }
}

/// No PR before position `i` of `details` has the number of the one at `i`.
pub open spec fn first_of_number(details: Seq<PrDetails>, i: int) -> bool {
    forall|j: int| 0 <= j < i ==> details[j].number != details[i].number
}

/// `after` is `before` once the PRs `done` left their stacks and the base
/// refs `bases` moved.
pub open spec fn mirrored(
    before: Seq<PrDetails>,
    after: Seq<PrDetails>,
    done: Seq<u64>,
    bases: Seq<BasePlan>,
) -> bool {
    &&& after.len() == before.len()
    &&& forall|i: int|
        0 <= i < before.len() ==> {
            let b = #[trigger] before[i];
            let a = after[i];
            &&& a.number == b.number
            &&& same_pr_facts(a, b)
            &&& a.head_ref == b.head_ref
            &&& a.graphql_node_id == b.graphql_node_id
            &&& a.stack_number == if done.contains(b.number) {
                None
            } else {
                b.stack_number
            }
            &&& a.base_ref@ == if first_of_number(before, i) {
                base_after(bases, b.number, b.base_ref@)
            } else {
                b.base_ref@
            }
        }
}

/// What applying a plan does after its pushes, decided up front: the unstack
/// calls, the PRs they take out of their stacks, the PR details and stacks
/// as the unstack and the base-ref updates leave them, and the plan of each
/// chain over that state.
pub struct StackApply {
    pub unstack: Vec<StackUnstack>,
    pub unstacked: Vec<u64>,
    pub details: Vec<PrDetails>,
    pub stacks: Vec<PullRequestStack>,
    pub chains: Vec<ChainPlan>,
}

/// Decide how `plan` is applied over `pr_details` and `existing_stacks`.
pub fn plan_apply(plan: &Plan, pr_details: Vec<PrDetails>, existing_stacks: Vec<PullRequestStack>) -> (a:
    StackApply)
    ensures
        groups_partition(a.unstack@, pr_details@, plan.unstack@, pr_details@.len() as int),
        ascending(a.unstacked@),
        a.unstacked@.to_multiset() == unstackable_numbers(
            pr_details@,
            plan.unstack@,
            pr_details@.len() as int,
        ).to_multiset(),
        a.stacks@ == existing_stacks@.filter(
            |s: PullRequestStack| !dissolved(pr_details@, a.unstacked@, s.number),
        ),
        mirrored(pr_details@, a.details@, a.unstacked@, plan.bases@),
        a.chains@.len() == plan.chains@.len(),
        forall|k: int|
            0 <= k < a.chains@.len() ==> planned_chain(
                #[trigger] a.chains@[k],
                plan.chains@[k]@,
                a.details@,
                a.stacks@,
            ),
{
    let groups = unstack_groups(plan.unstack.as_slice(), pr_details.as_slice());
    let unstacked = unstacked_numbers(plan.unstack.as_slice(), pr_details.as_slice());
    let ghost d0 = pr_details@;
    let mut details = pr_details;
    let mut stacks = existing_stacks;
    mirror_unstack(&mut details, &mut stacks, unstacked.as_slice());
    let mut k: usize = 0;
    while k < plan.bases.len()
        invariant
            k <= plan.bases@.len(),
            details@.len() == d0.len(),
            forall|i: int|
                0 <= i < d0.len() ==> {
                    let b = #[trigger] d0[i];
                    let a = details@[i];
                    &&& a.number == b.number
                    &&& same_pr_facts(a, b)
                    &&& a.head_ref == b.head_ref
                    &&& a.graphql_node_id == b.graphql_node_id
                    &&& a.stack_number == if unstacked@.contains(b.number) {
                        None
                    } else {
                        b.stack_number
                    }
                    &&& a.base_ref@ == if first_of_number(d0, i) {
                        base_after(plan.bases@.subrange(0, k as int), b.number, b.base_ref@)
                    } else {
                        b.base_ref@
                    }
                },
        decreases plan.bases@.len() - k,
    {
        let ghost cur = details@;
        let b = &plan.bases[k];
        mirror_retarget(&mut details, b.pr_number, b.proposed_base.as_str());
        proof {
            let bs = plan.bases@.subrange(0, k + 1);
            assert(bs.drop_last() =~= plan.bases@.subrange(0, k as int));
            assert(bs.last() == plan.bases@[k as int]);
            assert forall|i: int| 0 <= i < d0.len() implies details@[i].base_ref@ == if first_of_number(
                d0,
                i,
            ) {
                base_after(bs, d0[i].number, d0[i].base_ref@)
            } else {
                d0[i].base_ref@
            } by {
                let firsts = forall|j: int| 0 <= j < i ==> cur[j].number != b.pr_number;
                if d0[i].number == b.pr_number {
                    if first_of_number(d0, i) {
                        assert forall|j: int| 0 <= j < i implies cur[j].number != b.pr_number by {
                            assert(cur[j].number == d0[j].number);
                        }
                    } else {
                        let j = choose|j: int| 0 <= j < i && d0[j].number == d0[i].number;
                        assert(cur[j].number == d0[j].number);
                    }
                }
            }
        }
        k = k + 1;
    }
    proof {
        assert(plan.bases@.subrange(0, plan.bases@.len() as int) =~= plan.bases@);
    }
    let mut chain_plans: Vec<ChainPlan> = Vec::new();
    let mut c: usize = 0;
    while c < plan.chains.len()
        invariant
            c <= plan.chains@.len(),
            chain_plans@.len() == c,
            forall|j: int|
                0 <= j < c ==> planned_chain(
                    #[trigger] chain_plans@[j],
                    plan.chains@[j]@,
                    details@,
                    stacks@,
                ),
        decreases plan.chains@.len() - c,
    {
        let p = plan_chain(plan.chains[c].as_slice(), details.as_slice(), stacks.as_slice());
        chain_plans.push(p);
        c = c + 1;
    }
    StackApply { unstack: groups, unstacked, details, stacks, chains: chain_plans }
}

/// Append one write.
fn push_apply(w: &mut Vec<ApplyWrite>, x: ApplyWrite)
    ensures
        writes_view(final(w)@) == writes_view(old(w)@).push(write_view(x)),
{
    let ghost before = w@;
    w.push(x);
    proof {
        assert(writes_view(w@) =~= writes_view(before).push(write_view(x)));
    }
}

/// The writes of one chain's plan, appended to `w`; whether the plan stops
/// the run.
fn push_chain_writes(w: &mut Vec<ApplyWrite>, p: &ChainPlan) -> (stops: bool)
    ensures
        writes_view(final(w)@) == writes_view(old(w)@) + chain_writes(*p),
        stops == chain_stops(*p),
{
    let ghost start = writes_view(w@);
    if p.already_exists {
        assert(writes_view(w@) =~= start + chain_writes(*p));
        return false;
    }
    let mut i: usize = 0;
    while i < p.unstack.len()
        invariant
            i <= p.unstack@.len(),
            writes_view(w@) == start + p.unstack@.subrange(0, i as int).map_values(
                |g: StackUnstack| unstack_write(g),
            ),
        decreases p.unstack@.len() - i,
    {
        let g = &p.unstack[i];
        let members = copy_numbers(&g.members);
        push_apply(w, ApplyWrite::Unstack { stack_number: g.stack_number, members });
        proof {
            assert(p.unstack@.subrange(0, i + 1).map_values(|g: StackUnstack| unstack_write(g))
                =~= p.unstack@.subrange(0, i as int).map_values(|g: StackUnstack| unstack_write(g)).push(
                unstack_write(p.unstack@[i as int]),
            ));
        }
        i = i + 1;
    }
    let ghost mid = start + p.unstack@.map_values(|g: StackUnstack| unstack_write(g));
    assert(p.unstack@.subrange(0, p.unstack@.len() as int) =~= p.unstack@);
    let mut j: usize = 0;
    while j < p.align.retargets.len()
        invariant
            j <= p.align.retargets@.len(),
            writes_view(w@) == mid + p.align.retargets@.subrange(0, j as int).map_values(
                |r: Retarget| retarget_write(r),
            ),
        decreases p.align.retargets@.len() - j,
    {
        let r = &p.align.retargets[j];
        push_apply(
            w,
            ApplyWrite::Retarget {
                pr_number: r.pr_number,
                pr_node_id: owned(r.pr_node_id.as_str()),
                base: owned(r.base.as_str()),
            },
        );
        proof {
            assert(p.align.retargets@.subrange(0, j + 1).map_values(|r: Retarget| retarget_write(r))
                =~= p.align.retargets@.subrange(0, j as int).map_values(
                |r: Retarget| retarget_write(r),
            ).push(retarget_write(p.align.retargets@[j as int])));
        }
        j = j + 1;
    }
    assert(p.align.retargets@.subrange(0, p.align.retargets@.len() as int) =~= p.align.retargets@);
    let ghost body = mid + p.align.retargets@.map_values(|r: Retarget| retarget_write(r));
    match p.align.missing {
        Some(n) => {
            push_apply(w, ApplyWrite::MissingMember { pr_number: n });
            assert(writes_view(w@) =~= start + chain_writes(*p));
            true
        },
        None => {
            let chain = copy_numbers(&p.chain);
            push_apply(w, ApplyWrite::CreateStack { chain });
            assert(writes_view(w@) =~= start + chain_writes(*p));
            false
        },
    }
}

/// The writes of `cs` from position `c` on: those of chain `c`, then, unless
/// it stops the run, those of the chains after it.
proof fn lemma_chains_writes_from(cs: Seq<ChainPlan>, c: int)
    requires
        0 <= c < cs.len(),
    ensures
        chains_writes(cs.subrange(c, cs.len() as int)) == if chain_stops(cs[c]) {
            chain_writes(cs[c])
        } else {
            chain_writes(cs[c]) + chains_writes(cs.subrange(c + 1, cs.len() as int))
        },
{
    let t = cs.subrange(c, cs.len() as int);
    assert(t[0] == cs[c]);
    assert(t.drop_first() =~= cs.subrange(c + 1, cs.len() as int));
}

/// Every write that applying `plan` makes after deciding `a`, in order: the
/// pushes, the unstack calls, the base-ref updates, then each chain's
/// writes over the state those leave, up to the first chain that stops the
/// run.
pub fn apply_writes(plan: &Plan, a: &StackApply) -> (w: Vec<ApplyWrite>)
    ensures
        writes_view(w@) == plan.pushes@.map_values(|p: PushPlan| push_write(p)) + a.unstack@.map_values(
            |g: StackUnstack| unstack_write(g),
        ) + plan.bases@.map_values(|b: BasePlan| base_write(b)) + chains_writes(a.chains@),
{
    let mut w: Vec<ApplyWrite> = Vec::new();
    let mut i: usize = 0;
    assert(writes_view(w@) =~= plan.pushes@.subrange(0, 0).map_values(|p: PushPlan| push_write(p)));
    while i < plan.pushes.len()
        invariant
            i <= plan.pushes@.len(),
            writes_view(w@) == plan.pushes@.subrange(0, i as int).map_values(|p: PushPlan| push_write(p)),
        decreases plan.pushes@.len() - i,
    {
        let p = &plan.pushes[i];
        push_apply(
            &mut w,
            ApplyWrite::Push {
                bookmark: owned(p.bookmark.as_str()),
                local_commit_id: owned(p.local_commit_id.as_str()),
            },
        );
        proof {
            assert(plan.pushes@.subrange(0, i + 1).map_values(|p: PushPlan| push_write(p))
                =~= plan.pushes@.subrange(0, i as int).map_values(|p: PushPlan| push_write(p)).push(
                push_write(plan.pushes@[i as int]),
            ));
        }
        i = i + 1;
    }
    assert(plan.pushes@.subrange(0, plan.pushes@.len() as int) =~= plan.pushes@);
    let ghost pre1 = plan.pushes@.map_values(|p: PushPlan| push_write(p));
    let mut gi: usize = 0;
    while gi < a.unstack.len()
        invariant
            gi <= a.unstack@.len(),
            writes_view(w@) == pre1 + a.unstack@.subrange(0, gi as int).map_values(
                |g: StackUnstack| unstack_write(g),
            ),
        decreases a.unstack@.len() - gi,
    {
        let u = &a.unstack[gi];
        let members = copy_numbers(&u.members);
        push_apply(&mut w, ApplyWrite::Unstack { stack_number: u.stack_number, members });
        proof {
            assert(a.unstack@.subrange(0, gi + 1).map_values(|g: StackUnstack| unstack_write(g))
                =~= a.unstack@.subrange(0, gi as int).map_values(|g: StackUnstack| unstack_write(g)).push(
                unstack_write(a.unstack@[gi as int]),
            ));
        }
        gi = gi + 1;
    }
    assert(a.unstack@.subrange(0, a.unstack@.len() as int) =~= a.unstack@);
    let ghost pre2 = pre1 + a.unstack@.map_values(|g: StackUnstack| unstack_write(g));
    let mut k: usize = 0;
    while k < plan.bases.len()
        invariant
            k <= plan.bases@.len(),
            writes_view(w@) == pre2 + plan.bases@.subrange(0, k as int).map_values(
                |b: BasePlan| base_write(b),
            ),
        decreases plan.bases@.len() - k,
    {
        let b = &plan.bases[k];
        push_apply(
            &mut w,
            ApplyWrite::Retarget {
                pr_number: b.pr_number,
                pr_node_id: owned(b.pr_node_id.as_str()),
                base: owned(b.proposed_base.as_str()),
            },
        );
        proof {
            assert(plan.bases@.subrange(0, k + 1).map_values(|b: BasePlan| base_write(b))
                =~= plan.bases@.subrange(0, k as int).map_values(|b: BasePlan| base_write(b)).push(
                base_write(plan.bases@[k as int]),
            ));
        }
        k = k + 1;
    }
    assert(plan.bases@.subrange(0, plan.bases@.len() as int) =~= plan.bases@);
    let ghost pre3 = pre2 + plan.bases@.map_values(|b: BasePlan| base_write(b));
    let ghost cs = a.chains@;
    let ghost n = cs.len() as int;
    let mut c: usize = 0;
    assert(cs.subrange(0, n) =~= cs);
    assert(writes_view(w@) =~= pre3 + Seq::<WriteView>::empty());
    while c < a.chains.len()
        invariant
            cs == a.chains@,
            n == cs.len(),
            pre3 == plan.pushes@.map_values(|p: PushPlan| push_write(p)) + a.unstack@.map_values(
                |g: StackUnstack| unstack_write(g),
            ) + plan.bases@.map_values(|b: BasePlan| base_write(b)),
            c <= n,
            exists|done: Seq<WriteView>|
                writes_view(w@) == pre3 + done && done + chains_writes(cs.subrange(c as int, n))
                    == chains_writes(cs),
        decreases n - c,
    {
        let ghost done = choose|done: Seq<WriteView>|
            writes_view(w@) == pre3 + done && done + chains_writes(cs.subrange(c as int, n))
                == chains_writes(cs);
        let ghost before = writes_view(w@);
        let stops = push_chain_writes(&mut w, &a.chains[c]);
        proof {
            lemma_chains_writes_from(cs, c as int);
            assert(writes_view(w@) == pre3 + (done + chain_writes(cs[c as int])));
        }
        if stops {
            proof {
                assert(done + chain_writes(cs[c as int]) == chains_writes(cs));
                assert(writes_view(w@) =~= pre3 + chains_writes(cs));
            }
            return w;
        }
        proof {
            assert((done + chain_writes(cs[c as int])) + chains_writes(cs.subrange(c + 1, n)) =~= done
                + (chain_writes(cs[c as int]) + chains_writes(cs.subrange(c + 1, n))));
        }
        c = c + 1;
    }
    proof {
        let done = choose|done: Seq<WriteView>|
            writes_view(w@) == pre3 + done && done + chains_writes(cs.subrange(c as int, n))
                == chains_writes(cs);
        assert(cs.subrange(n, n) =~= Seq::<ChainPlan>::empty());
        assert(done + Seq::<WriteView>::empty() =~= done);
    }
    w
}

/// The number of the stack among `stacks` that lists PR `n` (the last such
/// stack when several do), `None` when none does.
pub open spec fn stack_holding(stacks: Seq<PullRequestStack>, n: u64) -> Option<u64>
    decreases stacks.len(),
{
    if stacks.len() == 0 {
        None
    } else if members_view(stacks.last()).contains(n) {
        Some(stacks.last().number)
    } else {
        stack_holding(stacks.drop_last(), n)
    }
}

/// The number of the stack among `stacks` that lists PR `n`.
pub fn stack_number_of(stacks: &[PullRequestStack], n: u64) -> (r: Option<u64>)
    ensures
        r == stack_holding(stacks@, n),
{
    let mut k: usize = stacks.len();
    assert(stacks@.subrange(0, stacks@.len() as int) =~= stacks@);
    while k > 0
        invariant
            k <= stacks@.len(),
            stack_holding(stacks@, n) == stack_holding(stacks@.subrange(0, k as int), n),
        decreases k,
    {
        let ghost pre = stacks@.subrange(0, k as int);
        assert(pre.drop_last() =~= stacks@.subrange(0, k - 1));
        assert(pre.last() == stacks@[k - 1]);
        let members = stack_members(&stacks[k - 1]);
        if contains_u64(members.as_slice(), n) {
            return Some(stacks[k - 1].number);
        }
        k = k - 1;
    }
    None
}

/// Record in each PR's details the stack that lists it. The details GitHub
/// gives for one PR do not say which stack it is in; the list of stacks does.
pub fn assign_stack_numbers(pr_details: &mut Vec<PrDetails>, stacks: &[PullRequestStack])
    ensures
        final(pr_details)@.len() == old(pr_details)@.len(),
        forall|i: int|
            0 <= i < old(pr_details)@.len() ==> {
                let before = #[trigger] old(pr_details)@[i];
                let after = final(pr_details)@[i];
                &&& same_pr_facts(after, before)
                &&& after.base_ref == before.base_ref
                &&& after.stack_number == stack_holding(stacks@, before.number)
            },
{
    let ghost d0 = pr_details@;
    let mut i: usize = 0;
    while i < pr_details.len()
        invariant
            i <= pr_details@.len(),
            pr_details@.len() == d0.len(),
            forall|j: int|
                0 <= j < d0.len() ==> {
                    let before = #[trigger] d0[j];
                    let after = pr_details@[j];
                    &&& same_pr_facts(after, before)
                    &&& after.base_ref == before.base_ref
                    &&& after.stack_number == if j < i {
                        stack_holding(stacks@, before.number)
                    } else {
                        before.stack_number
                    }
                },
        decreases pr_details@.len() - i,
    {
        let n = pr_details[i].number;
        let s = stack_number_of(stacks, n);
        pr_details[i].stack_number = s;
        i = i + 1;
    }
}

/// The line reporting what happened to one chain.
pub open spec fn stack_result_text(r: ChainResult) -> Seq<char> {
    match r.outcome {
        ChainOutcome::Created(n) => "OK  stack #"@ + decimal(n as nat) + " created: "@ + chain_text(r.chain@),
        ChainOutcome::AlreadyExists => "OK  stack already exists: "@ + chain_text(r.chain@),
    }
}

/// The line reporting what happened to one chain.
pub fn stack_result_line(r: &ChainResult) -> (s: String)
    ensures
        s@ == stack_result_text(*r),
{
    let chain = format_chain(r.chain.as_slice());
    let mut s = String::new();
    match r.outcome {
        ChainOutcome::Created(n) => {
            push_str(&mut s, "OK  stack #");
            push_decimal(&mut s, n);
            push_str(&mut s, " created: ");
        },
        ChainOutcome::AlreadyExists => {
            push_str(&mut s, "OK  stack already exists: ");
        },
    }
    push_str(&mut s, chain.as_str());
    proof {
        assert(s@ =~= stack_result_text(*r));
    }
    s
}

} // verus!
