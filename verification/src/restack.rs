//! `pr restack`: update PR base refs on GitHub to match the current `jj`
//! graph. Restack does not touch the graph itself; the user shapes it first,
//! then runs this to push the new bases up.

use crate::gh::{PrWithCiStatus, UpdatePr};
use crate::stack_detect::local_commit_of;
use crate::jj::PushedBookmark;
use crate::stack_detect::local_commit;
use crate::text::{decimal, opt_str, opt_string, owned, push_decimal, push_str, str_eq};
use vstd::prelude::*;

verus! {

/// One PR's proposed base-ref transition. Computed up-front so the TUI and
/// the dry-run output share a single representation.
#[derive(Debug, Clone, PartialEq, Eq)]
pub struct PrPlan {
    pub pr_number: u64,
    pub pr_node_id: String,
    pub title: String,
    pub bookmark: String,
    pub local_commit_id: String,
    pub current_base: String,
    pub proposed_base: String,
}

impl PrPlan {
    /// True when GitHub already has the proposed base.
    pub fn is_no_change(&self) -> (r: bool)
        ensures
            r == (self.current_base@ == self.proposed_base@),
    {
        str_eq(self.current_base.as_str(), self.proposed_base.as_str())
    }

    /// A copy of this plan.
    pub fn duplicate(&self) -> (r: PrPlan)
        ensures
            r == *self,
    {
        PrPlan {
            pr_number: self.pr_number,
            pr_node_id: self.pr_node_id.clone(),
            title: self.title.clone(),
            bookmark: self.bookmark.clone(),
            local_commit_id: self.local_commit_id.clone(),
            current_base: self.current_base.clone(),
            proposed_base: self.proposed_base.clone(),
        }
    }
}

/// The user's decision for a single PR in the interactive loop.
#[derive(Debug, Clone, PartialEq, Eq)]
pub enum Decision {
    /// The user hasn't acted on this PR yet.
    Unset,
    /// Apply the proposed base.
    Confirm,
    /// Apply this bookmark name instead of the proposed base.
    EditedTo(String),
    /// Leave this PR alone.
    Skip,
}

/// The base a decision submits for `plan`, if any.
pub open spec fn final_base_view(d: Decision, plan: PrPlan) -> Option<Seq<char>> {
    match d {
        Decision::Unset => None,
        Decision::Skip => None,
        Decision::Confirm => Some(plan.proposed_base@),
        Decision::EditedTo(b) => Some(b@),
    }
}

impl Decision {
    /// Resolve the base ref this decision submits, if any: `Unset` and `Skip`
    /// produce `None`, `Confirm` the plan's proposed base, `EditedTo` the
    /// override.
    pub fn final_base<'a>(&'a self, plan: &'a PrPlan) -> (r: Option<&'a str>)
        ensures
            match r {
                Some(b) => final_base_view(*self, *plan) == Some(b@),
                None => final_base_view(*self, *plan) is None,
            },
    {
        match self {
            Decision::Unset => None,
            Decision::Skip => None,
            Decision::Confirm => Some(plan.proposed_base.as_str()),
            Decision::EditedTo(b) => Some(b.as_str()),
        }
    }

    /// A copy of this decision.
    pub fn duplicate(&self) -> (r: Decision)
        ensures
            r == *self,
    {
        match self {
            Decision::Unset => Decision::Unset,
            Decision::Skip => Decision::Skip,
            Decision::Confirm => Decision::Confirm,
            Decision::EditedTo(b) => Decision::EditedTo(b.clone()),
        }
    }
}

/// `plans` is sorted by PR number.
pub open spec fn sorted_by_number(plans: Seq<PrPlan>) -> bool {
    forall|i: int, j: int| 0 <= i < j < plans.len() ==> plans[i].pr_number <= plans[j].pr_number
}

/// The plan for `pr`, whose local commit is `local` and whose closest
/// stacked ancestor is `ancestor`: that ancestor, else `trunk`, else the base
/// GitHub already has.
pub open spec fn plans_pr(
    plan: PrPlan,
    pr: PrWithCiStatus,
    local: Seq<char>,
    ancestor: Option<String>,
    trunk: Option<Seq<char>>,
) -> bool {
    &&& plan.pr_number == pr.number
    &&& plan.pr_node_id@ == pr.id@
    &&& plan.title@ == pr.title@
    &&& plan.bookmark@ == pr.head_ref_name@
    &&& plan.local_commit_id@ == local
    &&& plan.current_base@ == pr.base_ref_name@
    &&& plan.proposed_base@ == match ancestor {
        Some(a) => a@,
        None => match trunk {
            Some(t) => t,
            None => pr.base_ref_name@,
        },
    }
}

/// `plan` is the plan for `prs[i]`, which has a local commit.
pub open spec fn plan_from(
    plan: PrPlan,
    prs: Seq<PrWithCiStatus>,
    locals: Seq<Option<String>>,
    ancestors: Seq<Option<String>>,
    trunk: Option<Seq<char>>,
    i: int,
) -> bool {
    match locals[i] {
        Some(l) => plans_pr(plan, prs[i], l@, ancestors[i], trunk),
        None => false,
    }
}

/// `src[j]` is the PR whose plan is `plans[j]`: every plan is the plan of
/// one of the first `k` PRs, each of those PRs with a local commit has
/// exactly one plan, and plans with equal numbers keep the input order.
pub open spec fn plans_sourced(
    plans: Seq<PrPlan>,
    src: Seq<int>,
    prs: Seq<PrWithCiStatus>,
    locals: Seq<Option<String>>,
    ancestors: Seq<Option<String>>,
    trunk: Option<Seq<char>>,
    k: int,
) -> bool {
    &&& src.len() == plans.len()
    &&& forall|j: int|
        0 <= j < plans.len() ==> 0 <= #[trigger] src[j] < k && plan_from(
            plans[j],
            prs,
            locals,
            ancestors,
            trunk,
            src[j],
        )
    &&& forall|a: int, b: int| 0 <= a < b < src.len() ==> #[trigger] src[a] != #[trigger] src[b]
    &&& forall|i: int|
        0 <= i < k && (#[trigger] locals[i]) is Some ==> exists|j: int| 0 <= j < src.len() && src[j] == i
    &&& forall|a: int, b: int|
        0 <= a < b < plans.len() && (#[trigger] plans[a]).pr_number == (#[trigger] plans[b]).pr_number
            ==> src[a] < src[b]
}

/// For each PR, the local commit whose closest bookmarked ancestor should be
/// looked up, or `None` when the PR has no local bookmark (it then gets no
/// plan).
pub fn restack_queries(prs: &[PrWithCiStatus], bookmarks: &[PushedBookmark]) -> (r: Vec<
    Option<String>,
>)
    ensures
        r@.len() == prs@.len(),
        forall|i: int|
            0 <= i < prs@.len() ==> match #[trigger] r@[i] {
                Some(c) => local_commit_of(bookmarks@, prs@[i].head_ref_name@, bookmarks@.len() as int)
                    == Some(c@),
                None => local_commit_of(bookmarks@, prs@[i].head_ref_name@, bookmarks@.len() as int)
                    is None,
            },
{
    let mut out: Vec<Option<String>> = Vec::new();
    let mut k: usize = 0;
    while k < prs.len()
        invariant
            k <= prs@.len(),
            out@.len() == k,
            forall|i: int|
                0 <= i < k ==> match #[trigger] out@[i] {
                    Some(c) => local_commit_of(
                        bookmarks@,
                        prs@[i].head_ref_name@,
                        bookmarks@.len() as int,
                    ) == Some(c@),
                    None => local_commit_of(bookmarks@, prs@[i].head_ref_name@, bookmarks@.len() as int)
                        is None,
                },
        decreases prs@.len() - k,
    {
        out.push(local_commit(bookmarks, prs[k].head_ref_name.as_str()));
        k = k + 1;
    }
    out
}

/// Inserting the plan of PR `k` where it keeps the plans sorted keeps them
/// sourced, now over the first `k + 1` PRs.
proof fn lemma_insert_sourced(
    before: Seq<PrPlan>,
    sb: Seq<int>,
    plan: PrPlan,
    pos: int,
    prs: Seq<PrWithCiStatus>,
    locals: Seq<Option<String>>,
    ancestors: Seq<Option<String>>,
    tv: Option<Seq<char>>,
    k: int,
)
    requires
        plans_sourced(before, sb, prs, locals, ancestors, tv, k),
        sorted_by_number(before),
        0 <= pos <= before.len(),
        pos > 0 ==> before[pos - 1].pr_number <= plan.pr_number,
        forall|j: int| pos <= j < before.len() ==> before[j].pr_number > plan.pr_number,
        0 <= k < locals.len(),
        plan_from(plan, prs, locals, ancestors, tv, k),
    ensures
        sorted_by_number(before.insert(pos, plan)),
        plans_sourced(before.insert(pos, plan), sb.insert(pos, k), prs, locals, ancestors, tv, k + 1),
{
    let plans = before.insert(pos, plan);
    let src = sb.insert(pos, k);
    assert forall|a: int, b: int| 0 <= a < b < plans.len() implies plans[a].pr_number
        <= plans[b].pr_number by {
        if b < pos {
        } else if b == pos {
            if pos > 0 {
                assert(before[a].pr_number <= before[pos - 1].pr_number || a == pos - 1);
            }
        } else if a < pos {
            assert(plans[b] == before[b - 1]);
        } else if a == pos {
            assert(plans[b] == before[b - 1]);
        } else {
            assert(plans[a] == before[a - 1]);
            assert(plans[b] == before[b - 1]);
        }
    }
    assert forall|j: int| 0 <= j < plans.len() implies 0 <= #[trigger] src[j] < k + 1 && plan_from(
        plans[j],
        prs,
        locals,
        ancestors,
        tv,
        src[j],
    ) by {
        if j < pos {
            assert(plans[j] == before[j] && src[j] == sb[j]);
        } else if j == pos {
        } else {
            assert(plans[j] == before[j - 1] && src[j] == sb[j - 1]);
        }
    }
    assert forall|a: int, b: int| 0 <= a < b < src.len() implies #[trigger] src[a] != #[trigger] src[b] by {
        if a < pos && b < pos {
            assert(src[a] == sb[a] && src[b] == sb[b]);
        } else if a < pos && b == pos {
            assert(src[a] == sb[a]);
        } else if a < pos {
            assert(src[a] == sb[a] && src[b] == sb[b - 1]);
        } else if a == pos {
            assert(src[b] == sb[b - 1]);
        } else {
            assert(src[a] == sb[a - 1] && src[b] == sb[b - 1]);
        }
    }
    assert forall|i: int| 0 <= i < k + 1 && (#[trigger] locals[i]) is Some implies exists|j: int|
        0 <= j < src.len() && src[j] == i by {
        if i == k {
            assert(src[pos] == k);
        } else {
            let j0 = choose|j: int| 0 <= j < sb.len() && sb[j] == i;
            if j0 < pos {
                assert(src[j0] == i);
            } else {
                assert(src[j0 + 1] == i);
            }
        }
    }
    assert forall|a: int, b: int|
        0 <= a < b < plans.len() && (#[trigger] plans[a]).pr_number == (#[trigger] plans[b]).pr_number
            implies src[a] < src[b] by {
        if b < pos {
            assert(plans[a] == before[a] && plans[b] == before[b]);
            assert(src[a] == sb[a] && src[b] == sb[b]);
        } else if b == pos {
            assert(src[a] == sb[a]);
            assert(0 <= sb[a] < k);
        } else if a < pos {
            assert(plans[a] == before[a] && plans[b] == before[b - 1]);
            assert(src[a] == sb[a] && src[b] == sb[b - 1]);
        } else if a == pos {
            assert(plans[b] == before[b - 1]);
        } else {
            assert(plans[a] == before[a - 1] && plans[b] == before[b - 1]);
            assert(src[a] == sb[a - 1] && src[b] == sb[b - 1]);
        }
    }
}

/// A PR without a local commit gets no plan: the plans stay sourced over
/// one more PR.
proof fn lemma_extend_sourced(
    plans: Seq<PrPlan>,
    src: Seq<int>,
    prs: Seq<PrWithCiStatus>,
    locals: Seq<Option<String>>,
    ancestors: Seq<Option<String>>,
    tv: Option<Seq<char>>,
    k: int,
)
    requires
        plans_sourced(plans, src, prs, locals, ancestors, tv, k),
        0 <= k < locals.len(),
        locals[k] is None,
    ensures
        plans_sourced(plans, src, prs, locals, ancestors, tv, k + 1),
{
    assert forall|j: int| 0 <= j < plans.len() implies 0 <= #[trigger] src[j] < k + 1 && plan_from(
        plans[j],
        prs,
        locals,
        ancestors,
        tv,
        src[j],
    ) by {}
}

/// Compute the proposed base for every PR with a local bookmark, sorted by PR
/// number (PRs with equal numbers keep their input order).
///
/// `locals[i]` is the local commit of `prs[i]` (from [`restack_queries`]) and
/// `ancestors[i]` the closest stacked ancestor bookmark of that commit.
pub fn propose_plans(
    prs: &[PrWithCiStatus],
    locals: &[Option<String>],
    ancestors: &[Option<String>],
    trunk: Option<&str>,
) -> (plans: Vec<PrPlan>)
    requires
        prs@.len() == locals@.len(),
        prs@.len() == ancestors@.len(),
    ensures
        sorted_by_number(plans@),
        plans@.len() == count_local(locals@, locals@.len() as int),
        exists|src: Seq<int>|
            plans_sourced(plans@, src, prs@, locals@, ancestors@, opt_str(trunk), prs@.len() as int),
        forall|i: int|
            0 <= i < prs@.len() && locals@[i] is Some ==> exists|j: int|
                0 <= j < plans@.len() && #[trigger] plan_from(
                    plans@[j],
                    prs@,
                    locals@,
                    ancestors@,
                    opt_str(trunk),
                    i,
                ),
{
    let ghost tv = opt_str(trunk);
    let ghost mut src: Seq<int> = Seq::empty();
    let mut plans: Vec<PrPlan> = Vec::new();
    let mut k: usize = 0;
    while k < prs.len()
        invariant
            k <= prs@.len() == locals@.len() == ancestors@.len(),
            tv == opt_str(trunk),
            sorted_by_number(plans@),
            plans@.len() == count_local(locals@, k as int),
            plans_sourced(plans@, src, prs@, locals@, ancestors@, tv, k as int),
        decreases prs@.len() - k,
    {
        let pr = &prs[k];
        match &locals[k] {
            Some(local) => {
                let proposed = match &ancestors[k] {
                    Some(a) => a.clone(),
                    None => match trunk {
                        Some(t) => owned(t),
                        None => pr.base_ref_name.clone(),
                    },
                };
                let plan = PrPlan {
                    pr_number: pr.number,
                    pr_node_id: pr.id.clone(),
                    title: pr.title.clone(),
                    bookmark: pr.head_ref_name.clone(),
                    local_commit_id: local.clone(),
                    current_base: pr.base_ref_name.clone(),
                    proposed_base: proposed,
                };
                assert(plans_pr(plan, prs@[k as int], local@, ancestors@[k as int], tv));
                let ghost before = plans@;
                let ghost sb = src;
                // Insert after every plan with a number not above this one,
                // which keeps equal numbers in input order.
                let mut pos: usize = plans.len();
                while pos > 0 && plans[pos - 1].pr_number > plan.pr_number
                    invariant
                        pos <= plans@.len(),
                        plans@ == before,
                        forall|j: int| pos <= j < plans@.len() ==> plans@[j].pr_number > plan.pr_number,
                    decreases pos,
                {
                    pos = pos - 1;
                }
                plans.insert(pos, plan);
                proof {
                    lemma_insert_sourced(before, sb, plan, pos as int, prs@, locals@, ancestors@, tv, k as int);
                    src = sb.insert(pos as int, k as int);
                    assert(plans@ == before.insert(pos as int, plan));
                }
            },
            None => {
                proof {
                    lemma_extend_sourced(plans@, src, prs@, locals@, ancestors@, tv, k as int);
                }
            },
        }
        k = k + 1;
    }
    proof {
        assert forall|i: int| 0 <= i < prs@.len() && locals@[i] is Some implies exists|j: int|
            0 <= j < plans@.len() && #[trigger] plan_from(plans@[j], prs@, locals@, ancestors@, opt_str(trunk), i) by {
            assert(locals@[i] is Some);
            let j0 = choose|j: int| 0 <= j < src.len() && src[j] == i;
            assert(0 <= src[j0] < prs@.len() && plan_from(plans@[j0], prs@, locals@, ancestors@, tv, src[j0]));
        }
    }
    plans
}

/// How many of the first `k` PRs have a local commit.
pub open spec fn count_local(locals: Seq<Option<String>>, k: int) -> nat
    decreases k,
{
    if k <= 0 {
        0
    } else {
        count_local(locals, k - 1) + if locals[k - 1] is Some {
            1nat
        } else {
            0nat
        }
    }
}

/// The decision recorded for PR `n`, `Unset` when there is none.
pub open spec fn decision_of(decisions: Seq<(u64, Decision)>, n: u64) -> Decision
    decreases decisions.len(),
{
    if decisions.len() == 0 {
        Decision::Unset
    } else if decisions.last().0 == n {
        decisions.last().1
    } else {
        decision_of(decisions.drop_last(), n)
    }
}

/// The base update a plan's decision submits, if it changes the base.
pub open spec fn submitted_base(decisions: Seq<(u64, Decision)>, plan: PrPlan) -> Option<Seq<char>> {
    match final_base_view(decision_of(decisions, plan.pr_number), plan) {
        Some(b) => if b == plan.current_base@ {
            None
        } else {
            Some(b)
        },
        None => None,
    }
}

/// The updates for the first `k` plans, in plan order.
pub open spec fn updates_upto(plans: Seq<PrPlan>, decisions: Seq<(u64, Decision)>, k: int) -> Seq<
    (u64, Seq<char>, Seq<char>),
>
    decreases k,
{
    if k <= 0 {
        seq![]
    } else {
        let rest = updates_upto(plans, decisions, k - 1);
        match submitted_base(decisions, plans[k - 1]) {
            Some(b) => rest.push((plans[k - 1].pr_number, plans[k - 1].pr_node_id@, b)),
            None => rest,
        }
    }
}

/// Restack only sends real changes: every update is for a PR the user
/// confirmed or edited, and moves it to a base other than the one it has;
/// a PR left undecided or skipped gets no update.
pub proof fn lemma_updates_change_bases(plans: Seq<PrPlan>, decisions: Seq<(u64, Decision)>, k: int)
    requires
        0 <= k <= plans.len(),
    ensures
        forall|j: int|
            0 <= j < updates_upto(plans, decisions, k).len() ==> exists|i: int|
                0 <= i < k && #[trigger] updates_upto(plans, decisions, k)[j] == (
                    plans[i].pr_number,
                    plans[i].pr_node_id@,
                    updates_upto(plans, decisions, k)[j].2,
                ) && updates_upto(plans, decisions, k)[j].2 != plans[i].current_base@ && !(
                decision_of(decisions, plans[i].pr_number) is Unset) && !(decision_of(
                    decisions,
                    plans[i].pr_number,
                ) is Skip),
        (forall|i: int|
            0 <= i < k ==> (decision_of(decisions, #[trigger] plans[i].pr_number) is Unset
                || decision_of(decisions, plans[i].pr_number) is Skip)) ==> updates_upto(
            plans,
            decisions,
            k,
        ).len() == 0,
    decreases k,
{
    if k > 0 {
        lemma_updates_change_bases(plans, decisions, k - 1);
        let rest = updates_upto(plans, decisions, k - 1);
        let all = updates_upto(plans, decisions, k);
        assert forall|j: int| 0 <= j < all.len() implies exists|i: int|
            0 <= i < k && #[trigger] all[j] == (plans[i].pr_number, plans[i].pr_node_id@, all[j].2)
                && all[j].2 != plans[i].current_base@ && !(decision_of(decisions, plans[i].pr_number) is Unset)
                && !(decision_of(decisions, plans[i].pr_number) is Skip) by {
            if j < rest.len() {
                assert(all[j] == rest[j]);
                let i = choose|i: int|
                    0 <= i < k - 1 && #[trigger] rest[j] == (plans[i].pr_number, plans[i].pr_node_id@, rest[j].2)
                        && rest[j].2 != plans[i].current_base@ && !(decision_of(decisions, plans[i].pr_number) is Unset)
                        && !(decision_of(decisions, plans[i].pr_number) is Skip);
                assert(all[j] == (plans[i].pr_number, plans[i].pr_node_id@, all[j].2));
            } else {
                assert(all[j] == (plans[k - 1].pr_number, plans[k - 1].pr_node_id@, all[j].2));
            }
        }
    }
}

/// The view of one planned update: PR number, node ID, new base.
pub open spec fn update_view(u: (u64, UpdatePr)) -> (u64, Seq<char>, Seq<char>) {
    (
        u.0,
        u.1.pr_node_id@,
        match u.1.base_ref_name {
            Some(b) => b@,
            None => seq![],
        },
    )
}

/// The decision recorded for PR `n` (the last entry wins), `Unset` when
/// there is none.
pub fn decision_for(decisions: &[(u64, Decision)], n: u64) -> (r: Decision)
    ensures
        r == decision_of(decisions@, n),
{
    let mut k: usize = decisions.len();
    assert(decisions@.subrange(0, decisions@.len() as int) =~= decisions@);
    while k > 0
        invariant
            k <= decisions@.len(),
            decision_of(decisions@, n) == decision_of(decisions@.subrange(0, k as int), n),
        decreases k,
    {
        let ghost pre = decisions@.subrange(0, k as int);
        assert(pre.drop_last() =~= decisions@.subrange(0, k - 1));
        if decisions[k - 1].0 == n {
            return decisions[k - 1].1.duplicate();
        }
        k = k - 1;
    }
    Decision::Unset
}

/// The base-ref updates to send once the user accepts: one per plan whose
/// decision yields a base different from the current one, in plan order.
/// Only `base_ref_name` is set on each update.
pub fn submit_updates(plans: &[PrPlan], decisions: &[(u64, Decision)]) -> (r: Vec<(u64, UpdatePr)>)
    ensures
        r@.map_values(|u: (u64, UpdatePr)| update_view(u)) == updates_upto(
            plans@,
            decisions@,
            plans@.len() as int,
        ),
        forall|j: int|
            0 <= j < r@.len() ==> (#[trigger] r@[j]).1.title is None && r@[j].1.body is None
                && r@[j].1.base_ref_name is Some,
{
    let mut out: Vec<(u64, UpdatePr)> = Vec::new();
    let mut k: usize = 0;
    while k < plans.len()
        invariant
            k <= plans@.len(),
            out@.map_values(|u: (u64, UpdatePr)| update_view(u)) == updates_upto(
                plans@,
                decisions@,
                k as int,
            ),
            forall|j: int|
                0 <= j < out@.len() ==> (#[trigger] out@[j]).1.title is None && out@[j].1.body is None
                    && out@[j].1.base_ref_name is Some,
        decreases plans@.len() - k,
    {
        let p = &plans[k];
        let d = decision_for(decisions, p.pr_number);
        let ghost before = out@;
        if let Some(base) = d.final_base(p) {
            if !str_eq(base, p.current_base.as_str()) {
                let update = UpdatePr {
                    pr_node_id: p.pr_node_id.clone(),
                    title: None,
                    body: None,
                    base_ref_name: Some(owned(base)),
                };
                out.push((p.pr_number, update));
                proof {
                    assert(out@.map_values(|u: (u64, UpdatePr)| update_view(u)) =~= before.map_values(
                        |u: (u64, UpdatePr)| update_view(u),
                    ).push((p.pr_number, p.pr_node_id@, base@)));
                }
            }
        }
        k = k + 1;
    }
    out
}


/// The line that reports how one base update went: its PR number and, when
/// it failed, the error text.
pub open spec fn update_result_line(num: u64, error: Option<Seq<char>>) -> Seq<char> {
    match error {
        Some(e) => "ERR #"@ + decimal(num as nat) + ": "@ + e,
        None => "OK  #"@ + decimal(num as nat) + " base updated"@,
    }
}

/// Whether some update among `results` failed.
pub open spec fn some_update_failed(results: Seq<(u64, Option<String>)>) -> bool {
    exists|j: int| 0 <= j < results.len() && (#[trigger] results[j]).1 is Some
}

/// The report of a submit: one line per update result, in the order given,
/// and whether the submit fails, which it does exactly when some update
/// failed.
pub fn submit_report(results: &[(u64, Option<String>)]) -> (r: (Vec<String>, bool))
    ensures
        r.0@.len() == results@.len(),
        forall|j: int|
            0 <= j < results@.len() ==> (#[trigger] r.0@[j])@ == update_result_line(
                results@[j].0,
                opt_string(results@[j].1),
            ),
        r.1 == some_update_failed(results@),
{
    let mut lines: Vec<String> = Vec::new();
    let mut failed = false;
    let mut k: usize = 0;
    while k < results.len()
        invariant
            k <= results@.len(),
            lines@.len() == k,
            forall|j: int|
                0 <= j < k ==> (#[trigger] lines@[j])@ == update_result_line(
                    results@[j].0,
                    opt_string(results@[j].1),
                ),
            failed == exists|j: int| 0 <= j < k && (#[trigger] results@[j]).1 is Some,
        decreases results@.len() - k,
    {
        let num = results[k].0;
        let res = &results[k].1;
        let mut line = String::new();
        match res {
            Some(e) => {
                push_str(&mut line, "ERR #");
                push_decimal(&mut line, num);
                push_str(&mut line, ": ");
                push_str(&mut line, e.as_str());
                failed = true;
            },
            None => {
                push_str(&mut line, "OK  #");
                push_decimal(&mut line, num);
                push_str(&mut line, " base updated");
            },
        }
        assert(line@ =~= update_result_line(results@[k as int].0, opt_string(results@[k as int].1)));
        let ghost before = lines@;
        lines.push(line);
        assert(lines@[k as int] == line);
        assert forall|j: int| 0 <= j < k + 1 implies (#[trigger] lines@[j])@ == update_result_line(
            results@[j].0,
            opt_string(results@[j].1),
        ) by {
            if j < k {
                assert(lines@[j] == before[j]);
            }
        }
        k = k + 1;
    }
    (lines, failed)
}

} // verus!
