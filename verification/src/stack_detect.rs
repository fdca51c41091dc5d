//! Reading the local `jj` graph to work out what the PRs on GitHub *should*
//! look like.
//!
//! Two questions come out of one pass over the graph, because both are
//! answered by the same per-PR lookup (the closest bookmarked ancestor of the
//! PR's local commit):
//!
//! - which PRs form a stack, bottom to top ([`chains`]);
//! - what each PR's base ref should be ([`bases`]).
//!
//! The ancestor lookups themselves are `jj` queries: [`ancestor_queries`]
//! says which commit to ask about for each PR, and the answers come back as
//! the `ancestors` argument, one entry per PR, in the order of `prs`.

use crate::gh::PrDetails;
use crate::jj::PushedBookmark;
use crate::text::{owned, str_eq};
use vstd::prelude::*;

verus! {

/// One PR's proposed base-ref transition. Computed up-front so the preview,
/// the JSON dump, and the apply step share a single representation.
#[derive(Debug, Clone, PartialEq, Eq)]
pub struct BasePlan {
    pub pr_number: u64,
    pub pr_node_id: String,
    pub title: String,
    pub bookmark: String,
    pub local_commit_id: String,
    pub current_base: String,
    pub proposed_base: String,
}

impl BasePlan {
    /// True when GitHub already has the base ref this plan proposes.
    pub fn is_no_change(&self) -> (r: bool)
        ensures
            r == (self.current_base@ == self.proposed_base@),
    {
        str_eq(self.current_base.as_str(), self.proposed_base.as_str())
    }
}

/// What the local graph says GitHub should look like.
#[derive(Debug, Clone, Default)]
pub struct LocalShape {
    /// Stack chains, each ordered bottom (closest to trunk) to top. Chains of
    /// a single PR are not returned: GitHub stacks need at least two PRs.
    pub chains: Vec<Vec<u64>>,
    /// One entry per PR that has a local bookmark, in input order, including
    /// PRs that belong to no chain.
    pub bases: Vec<BasePlan>,
}

/// The last of the first `k` PRs numbered `n`.
pub open spec fn last_numbered(prs: Seq<PrDetails>, n: u64, k: int) -> Option<int>
    decreases k,
{
    if k <= 0 {
        None
    } else if prs[k - 1].number == n {
        Some(k - 1)
    } else {
        last_numbered(prs, n, k - 1)
    }
}

/// The last of the first `k` PRs whose head ref is `head`.
pub open spec fn last_headed(prs: Seq<PrDetails>, head: Seq<char>, k: int) -> Option<int>
    decreases k,
{
    if k <= 0 {
        None
    } else if prs[k - 1].head_ref@ == head {
        Some(k - 1)
    } else {
        last_headed(prs, head, k - 1)
    }
}

/// The first PR at or after `k` numbered `n`.
pub open spec fn first_numbered(prs: Seq<PrDetails>, n: u64, k: int) -> Option<int>
    decreases prs.len() - k,
{
    if k < 0 || k >= prs.len() {
        None
    } else if prs[k].number == n {
        Some(k)
    } else {
        first_numbered(prs, n, k + 1)
    }
}

/// The local commit of the bookmark named `name`; the last entry wins, as in
/// a map built from the list.
pub open spec fn local_commit_of(bookmarks: Seq<PushedBookmark>, name: Seq<char>, k: int) -> Option<
    Seq<char>,
>
    decreases k,
{
    if k <= 0 {
        None
    } else if bookmarks[k - 1].name@ == name {
        Some(bookmarks[k - 1].local_commit_id@)
    } else {
        local_commit_of(bookmarks, name, k - 1)
    }
}

/// The stacked ancestor bookmark recorded for PR `n`: the entry of the last
/// PR with that number, as in a map keyed by PR number.
pub open spec fn ancestor_of(prs: Seq<PrDetails>, ancestors: Seq<Option<String>>, n: u64) -> Option<
    Seq<char>,
> {
    match last_numbered(prs, n, prs.len() as int) {
        Some(i) => match ancestors[i] {
            Some(a) => Some(a@),
            None => None,
        },
        None => None,
    }
}

/// A bottom PR is one whose ancestor bookmark is not itself a PR's head.
pub open spec fn is_bottom(prs: Seq<PrDetails>, ancestors: Seq<Option<String>>, n: u64) -> bool {
    match ancestor_of(prs, ancestors, n) {
        None => true,
        Some(a) => last_headed(prs, a, prs.len() as int) is None,
    }
}

/// The numbers of the bottom PRs among the first `k`, in order.
pub open spec fn bottoms(prs: Seq<PrDetails>, ancestors: Seq<Option<String>>, k: int) -> Seq<u64>
    decreases k,
{
    if k <= 0 {
        seq![]
    } else if is_bottom(prs, ancestors, prs[k - 1].number) {
        bottoms(prs, ancestors, k - 1).push(prs[k - 1].number)
    } else {
        bottoms(prs, ancestors, k - 1)
    }
}

/// The first PR at or after `k` whose ancestor bookmark is `head`.
pub open spec fn first_child(
    prs: Seq<PrDetails>,
    ancestors: Seq<Option<String>>,
    head: Seq<char>,
    k: int,
) -> Option<int>
    decreases prs.len() - k,
{
    if k < 0 || k >= prs.len() {
        None
    } else if ancestor_of(prs, ancestors, prs[k].number) == Some(head) {
        Some(k)
    } else {
        first_child(prs, ancestors, head, k + 1)
    }
}

/// The PR stacked on PR `n`: the first PR whose ancestor bookmark is the head
/// of the first PR numbered `n`.
pub open spec fn successor(prs: Seq<PrDetails>, ancestors: Seq<Option<String>>, n: u64) -> Option<
    u64,
> {
    match first_numbered(prs, n, 0) {
        None => None,
        Some(i) => match first_child(prs, ancestors, prs[i].head_ref@, 0) {
            Some(j) => Some(prs[j].number),
            None => None,
        },
    }
}

/// Up to `fuel` PRs from `start` upwards through successors.
pub open spec fn walk(prs: Seq<PrDetails>, ancestors: Seq<Option<String>>, start: u64, fuel: nat) -> Seq<
    u64,
>
    decreases fuel,
{
    if fuel == 0 {
        seq![]
    } else {
        seq![start] + match successor(prs, ancestors, start) {
            Some(next) => walk(prs, ancestors, next, (fuel - 1) as nat),
            None => seq![],
        }
    }
}

/// The chains that grow from the bottoms in `bs`, keeping those of two or
/// more PRs. A walk is bounded by the number of PRs.
pub open spec fn chains_from(
    prs: Seq<PrDetails>,
    ancestors: Seq<Option<String>>,
    bs: Seq<u64>,
) -> Seq<Seq<u64>>
    decreases bs.len(),
{
    if bs.len() == 0 {
        seq![]
    } else {
        let rest = chains_from(prs, ancestors, bs.drop_last());
        let chain = walk(prs, ancestors, bs.last(), prs.len() as nat);
        if chain.len() >= 2 {
            rest.push(chain)
        } else {
            rest
        }
    }
}

/// The stack chains of the local graph, bottom to top.
pub open spec fn chains_view(prs: Seq<PrDetails>, ancestors: Seq<Option<String>>) -> Seq<Seq<u64>> {
    chains_from(prs, ancestors, bottoms(prs, ancestors, prs.len() as int))
}

fn find_last_numbered(prs: &[PrDetails], n: u64) -> (r: Option<usize>)
    ensures
        match r {
            Some(i) => last_numbered(prs@, n, prs@.len() as int) == Some(i as int) && i < prs@.len(),
            None => last_numbered(prs@, n, prs@.len() as int) is None,
        },
{
    let mut k: usize = prs.len();
    while k > 0
        invariant
            k <= prs@.len(),
            last_numbered(prs@, n, prs@.len() as int) == last_numbered(prs@, n, k as int),
        decreases k,
    {
        if prs[k - 1].number == n {
            return Some(k - 1);
        }
        k = k - 1;
    }
    None
}

fn find_last_headed(prs: &[PrDetails], head: &str) -> (r: Option<usize>)
    ensures
        match r {
            Some(i) => last_headed(prs@, head@, prs@.len() as int) == Some(i as int),
            None => last_headed(prs@, head@, prs@.len() as int) is None,
        },
{
    let mut k: usize = prs.len();
    while k > 0
        invariant
            k <= prs@.len(),
            last_headed(prs@, head@, prs@.len() as int) == last_headed(prs@, head@, k as int),
        decreases k,
    {
        if str_eq(prs[k - 1].head_ref.as_str(), head) {
            return Some(k - 1);
        }
        k = k - 1;
    }
    None
}

fn find_first_numbered(prs: &[PrDetails], n: u64) -> (r: Option<usize>)
    ensures
        match r {
            Some(i) => first_numbered(prs@, n, 0) == Some(i as int) && i < prs@.len(),
            None => first_numbered(prs@, n, 0) is None,
        },
{
    let mut k: usize = 0;
    while k < prs.len()
        invariant
            k <= prs@.len(),
            first_numbered(prs@, n, 0) == first_numbered(prs@, n, k as int),
        decreases prs@.len() - k,
    {
        if prs[k].number == n {
            return Some(k);
        }
        k = k + 1;
    }
    None
}

/// The local commit of bookmark `name`, if one is tracked.
pub fn local_commit(bookmarks: &[PushedBookmark], name: &str) -> (r: Option<String>)
    ensures
        match r {
            Some(c) => local_commit_of(bookmarks@, name@, bookmarks@.len() as int) == Some(c@),
            None => local_commit_of(bookmarks@, name@, bookmarks@.len() as int) is None,
        },
{
    let mut k: usize = bookmarks.len();
    while k > 0
        invariant
            k <= bookmarks@.len(),
            local_commit_of(bookmarks@, name@, bookmarks@.len() as int) == local_commit_of(
                bookmarks@,
                name@,
                k as int,
            ),
        decreases k,
    {
        if str_eq(bookmarks[k - 1].name.as_str(), name) {
            return Some(owned(bookmarks[k - 1].local_commit_id.as_str()));
        }
        k = k - 1;
    }
    None
}

/// The ancestor bookmark recorded for PR `n`.
fn ancestor_for(prs: &[PrDetails], ancestors: &[Option<String>], n: u64) -> (r: Option<String>)
    requires
        prs@.len() == ancestors@.len(),
    ensures
        match r {
            Some(a) => ancestor_of(prs@, ancestors@, n) == Some(a@),
            None => ancestor_of(prs@, ancestors@, n) is None,
        },
{
    match find_last_numbered(prs, n) {
        Some(i) => match &ancestors[i] {
            Some(a) => Some(owned(a.as_str())),
            None => None,
        },
        None => None,
    }
}

fn bottom(prs: &[PrDetails], ancestors: &[Option<String>], n: u64) -> (r: bool)
    requires
        prs@.len() == ancestors@.len(),
    ensures
        r == is_bottom(prs@, ancestors@, n),
{
    match ancestor_for(prs, ancestors, n) {
        None => true,
        Some(a) => find_last_headed(prs, a.as_str()).is_none(),
    }
}

fn find_first_child(prs: &[PrDetails], ancestors: &[Option<String>], head: &str) -> (r: Option<
    usize,
>)
    requires
        prs@.len() == ancestors@.len(),
    ensures
        match r {
            Some(j) => first_child(prs@, ancestors@, head@, 0) == Some(j as int) && j < prs@.len(),
            None => first_child(prs@, ancestors@, head@, 0) is None,
        },
{
    let mut k: usize = 0;
    while k < prs.len()
        invariant
            k <= prs@.len() == ancestors@.len(),
            first_child(prs@, ancestors@, head@, 0) == first_child(prs@, ancestors@, head@, k as int),
        decreases prs@.len() - k,
    {
        let hit = match ancestor_for(prs, ancestors, prs[k].number) {
            Some(a) => str_eq(a.as_str(), head),
            None => false,
        };
        if hit {
            return Some(k);
        }
        k = k + 1;
    }
    None
}

fn next_in_chain(prs: &[PrDetails], ancestors: &[Option<String>], n: u64) -> (r: Option<u64>)
    requires
        prs@.len() == ancestors@.len(),
    ensures
        r == successor(prs@, ancestors@, n),
{
    match find_first_numbered(prs, n) {
        None => None,
        Some(i) => match find_first_child(prs, ancestors, prs[i].head_ref.as_str()) {
            Some(j) => Some(prs[j].number),
            None => None,
        },
    }
}

/// The chain that grows upwards from the bottom PR `start`.
fn walk_chain(prs: &[PrDetails], ancestors: &[Option<String>], start: u64) -> (chain: Vec<u64>)
    requires
        prs@.len() == ancestors@.len(),
    ensures
        chain@ == walk(prs@, ancestors@, start, prs@.len() as nat),
{
    let fuel: usize = prs.len();
    let mut chain: Vec<u64> = Vec::new();
    if fuel == 0 {
        return chain;
    }
    let mut cur = start;
    let mut steps: usize = 0;
    assert(walk(prs@, ancestors@, start, 0) =~= Seq::<u64>::empty());
    assert(walk(prs@, ancestors@, start, fuel as nat) =~= Seq::<u64>::empty() + walk(
        prs@,
        ancestors@,
        cur,
        fuel as nat,
    ));
    loop
        invariant
            prs@.len() == ancestors@.len(),
            fuel == prs@.len(),
            steps < fuel,
            walk(prs@, ancestors@, start, fuel as nat) == chain@ + walk(
                prs@,
                ancestors@,
                cur,
                (fuel - steps) as nat,
            ),
        decreases fuel - steps,
    {
        let ghost before = chain@;
        chain.push(cur);
        let next = next_in_chain(prs, ancestors, cur);
        proof {
            let rest = walk(prs@, ancestors@, cur, (fuel - steps) as nat);
            match successor(prs@, ancestors@, cur) {
                Some(nx) => {
                    assert(rest == seq![cur] + walk(prs@, ancestors@, nx, (fuel - steps - 1) as nat));
                    assert(before + (seq![cur] + walk(prs@, ancestors@, nx, (fuel - steps - 1) as nat))
                        =~= chain@ + walk(prs@, ancestors@, nx, (fuel - steps - 1) as nat));
                },
                None => {
                    assert(rest == seq![cur] + Seq::<u64>::empty());
                    assert(before + (seq![cur] + Seq::<u64>::empty()) =~= chain@);
                },
            }
        }
        match next {
            None => {
                return chain;
            },
            Some(nx) => {
                if steps + 1 == fuel {
                    proof {
                        assert(walk(prs@, ancestors@, nx, 0) =~= Seq::<u64>::empty());
                        assert(chain@ + Seq::<u64>::empty() =~= chain@);
                    }
                    return chain;
                }
                cur = nx;
                steps = steps + 1;
            },
        }
    }
}

/// Walk each bottom PR upwards through its successors to build the chains.
///
/// `ancestors[i]` is the bookmark on the closest bookmarked ancestor of
/// `prs[i]`'s local commit, or `None`.
pub fn chains(prs: &[PrDetails], ancestors: &[Option<String>]) -> (r: Vec<Vec<u64>>)
    requires
        prs@.len() == ancestors@.len(),
    ensures
        r@.len() == chains_view(prs@, ancestors@).len(),
        forall|i: int| 0 <= i < r@.len() ==> r@[i]@ == chains_view(prs@, ancestors@)[i],
{
    let mut bs: Vec<u64> = Vec::new();
    let mut k: usize = 0;
    while k < prs.len()
        invariant
            k <= prs@.len() == ancestors@.len(),
            bs@ == bottoms(prs@, ancestors@, k as int),
        decreases prs@.len() - k,
    {
        if bottom(prs, ancestors, prs[k].number) {
            bs.push(prs[k].number);
        }
        k = k + 1;
    }
    let mut out: Vec<Vec<u64>> = Vec::new();
    let mut b: usize = 0;
    while b < bs.len()
        invariant
            prs@.len() == ancestors@.len(),
            b <= bs@.len(),
            bs@ == bottoms(prs@, ancestors@, prs@.len() as int),
            out@.len() == chains_from(prs@, ancestors@, bs@.subrange(0, b as int)).len(),
            forall|i: int|
                0 <= i < out@.len() ==> out@[i]@ == chains_from(
                    prs@,
                    ancestors@,
                    bs@.subrange(0, b as int),
                )[i],
        decreases bs@.len() - b,
    {
        let chain = walk_chain(prs, ancestors, bs[b]);
        let ghost prefix = bs@.subrange(0, b + 1);
        assert(prefix.drop_last() =~= bs@.subrange(0, b as int));
        assert(prefix.last() == bs@[b as int]);
        if chain.len() >= 2 {
            out.push(chain);
        }
        b = b + 1;
    }
    assert(bs@.subrange(0, bs@.len() as int) =~= bs@);
    out
}

/// The base a PR should have: its stacked ancestor bookmark, else `trunk`,
/// else the base GitHub already has.
pub open spec fn proposed_base(
    prs: Seq<PrDetails>,
    ancestors: Seq<Option<String>>,
    i: int,
    trunk: Option<Seq<char>>,
) -> Seq<char> {
    match ancestor_of(prs, ancestors, prs[i].number) {
        Some(a) => a,
        None => match trunk {
            Some(t) => t,
            None => prs[i].base_ref@,
        },
    }
}

/// The indices of the first `k` PRs that have a local bookmark.
pub open spec fn with_bookmark(prs: Seq<PrDetails>, bookmarks: Seq<PushedBookmark>, k: int) -> Seq<
    int,
>
    decreases k,
{
    if k <= 0 {
        seq![]
    } else if local_commit_of(bookmarks, prs[k - 1].head_ref@, bookmarks.len() as int) is Some {
        with_bookmark(prs, bookmarks, k - 1).push(k - 1)
    } else {
        with_bookmark(prs, bookmarks, k - 1)
    }
}

/// `plan` is the base plan for `pr`, whose local commit is `local`.
pub open spec fn plans_pr(plan: BasePlan, pr: PrDetails, local: Seq<char>, proposed: Seq<char>) -> bool {
    &&& plan.pr_number == pr.number
    &&& plan.pr_node_id@ == pr.graphql_node_id@
    &&& plan.title@ == pr.title@
    &&& plan.bookmark@ == pr.head_ref@
    &&& plan.local_commit_id@ == local
    &&& plan.current_base@ == pr.base_ref@
    &&& plan.proposed_base@ == proposed
}

/// `plans` holds one base plan per PR with a local bookmark, in input order.
pub open spec fn bases_spec(
    plans: Seq<BasePlan>,
    prs: Seq<PrDetails>,
    ancestors: Seq<Option<String>>,
    bookmarks: Seq<PushedBookmark>,
    trunk: Option<Seq<char>>,
    k: int,
) -> bool {
    let idx = with_bookmark(prs, bookmarks, k);
    &&& plans.len() == idx.len()
    &&& forall|j: int|
        #![trigger plans[j]]
        0 <= j < plans.len() ==> plans_pr(
            plans[j],
            prs[idx[j]],
            local_commit_of(bookmarks, prs[idx[j]].head_ref@, bookmarks.len() as int)->0,
            proposed_base(prs, ancestors, idx[j], trunk),
        )
}

/// Lemma: indices collected so far are in range.
proof fn lemma_with_bookmark_range(prs: Seq<PrDetails>, bookmarks: Seq<PushedBookmark>, k: int)
    requires
        0 <= k <= prs.len(),
    ensures
        forall|j: int|
            0 <= j < with_bookmark(prs, bookmarks, k).len() ==> 0 <= #[trigger] with_bookmark(
                prs,
                bookmarks,
                k,
            )[j] < k,
    decreases k,
{
    if k > 0 {
        lemma_with_bookmark_range(prs, bookmarks, k - 1);
        let prev = with_bookmark(prs, bookmarks, k - 1);
        let cur = with_bookmark(prs, bookmarks, k);
        assert forall|j: int| 0 <= j < cur.len() implies 0 <= #[trigger] cur[j] < k by {
            if j < prev.len() {
                assert(cur[j] == prev[j]);
            }
        }
    }
}

/// Propose a base ref for every PR that has a local bookmark: its stacked
/// ancestor bookmark, else `trunk`, else the base GitHub already has.
pub fn bases(
    prs: &[PrDetails],
    ancestors: &[Option<String>],
    bookmarks: &[PushedBookmark],
    trunk: Option<&str>,
) -> (r: Vec<BasePlan>)
    requires
        prs@.len() == ancestors@.len(),
    ensures
        bases_spec(
            r@,
            prs@,
            ancestors@,
            bookmarks@,
            match trunk {
                Some(t) => Some(t@),
                None => None,
            },
            prs@.len() as int,
        ),
{
    let ghost tv = match trunk {
        Some(t) => Some(t@),
        None => None,
    };
    let mut out: Vec<BasePlan> = Vec::new();
    let mut k: usize = 0;
    while k < prs.len()
        invariant
            k <= prs@.len() == ancestors@.len(),
            tv == match trunk {
                Some(t) => Some(t@),
                None => None::<Seq<char>>,
            },
            bases_spec(out@, prs@, ancestors@, bookmarks@, tv, k as int),
        decreases prs@.len() - k,
    {
        let pr = &prs[k];
        proof {
            lemma_with_bookmark_range(prs@, bookmarks@, k as int);
        }
        match local_commit(bookmarks, pr.head_ref.as_str()) {
            Some(local) => {
                let proposed = match ancestor_for(prs, ancestors, pr.number) {
                    Some(a) => a,
                    None => match trunk {
                        Some(t) => owned(t),
                        None => owned(pr.base_ref.as_str()),
                    },
                };
                let plan = BasePlan {
                    pr_number: pr.number,
                    pr_node_id: owned(pr.graphql_node_id.as_str()),
                    title: owned(pr.title.as_str()),
                    bookmark: owned(pr.head_ref.as_str()),
                    local_commit_id: local,
                    current_base: owned(pr.base_ref.as_str()),
                    proposed_base: proposed,
                };
                let ghost old_out = out@;
                out.push(plan);
                proof {
                    let idx = with_bookmark(prs@, bookmarks@, k + 1);
                    assert(idx == with_bookmark(prs@, bookmarks@, k as int).push(k as int));
                    assert forall|j: int| 0 <= j < out@.len() implies plans_pr(
                        #[trigger] out@[j],
                        prs@[idx[j]],
                        local_commit_of(bookmarks@, prs@[idx[j]].head_ref@, bookmarks@.len() as int)->0,
                        proposed_base(prs@, ancestors@, idx[j], tv),
                    ) by {
                        if j < old_out.len() {
                            assert(out@[j] == old_out[j]);
                        }
                    }
                }
            },
            None => {
                proof {
                    assert(with_bookmark(prs@, bookmarks@, k + 1) == with_bookmark(
                        prs@,
                        bookmarks@,
                        k as int,
                    ));
                }
            },
        }
        k = k + 1;
    }
    out
}

/// For each PR, the local commit whose closest bookmarked ancestor should be
/// looked up, or `None` when the PR has no local bookmark (its ancestor is
/// then `None` too).
pub fn ancestor_queries(prs: &[PrDetails], bookmarks: &[PushedBookmark]) -> (r: Vec<Option<String>>)
    ensures
        r@.len() == prs@.len(),
        forall|i: int|
            0 <= i < prs@.len() ==> match #[trigger] r@[i] {
                Some(c) => local_commit_of(bookmarks@, prs@[i].head_ref@, bookmarks@.len() as int)
                    == Some(c@),
                None => local_commit_of(bookmarks@, prs@[i].head_ref@, bookmarks@.len() as int) is None,
            },
{
    let mut out: Vec<Option<String>> = Vec::new();
    let mut k: usize = 0;
    while k < prs.len()
        invariant
            k <= prs@.len(),
            out@.len() == k,
            forall|i: int|
                0 <= i < k ==> match #[trigger] out@[i] {
                    Some(c) => local_commit_of(bookmarks@, prs@[i].head_ref@, bookmarks@.len() as int)
                        == Some(c@),
                    None => local_commit_of(bookmarks@, prs@[i].head_ref@, bookmarks@.len() as int)
                        is None,
                },
        decreases prs@.len() - k,
    {
        let q = local_commit(bookmarks, prs[k].head_ref.as_str());
        out.push(q);
        k = k + 1;
    }
    out
}

/// Derive both the stack chains and the per-PR base refs from the answers to
/// [`ancestor_queries`].
///
/// `trunk` is the fallback base for a PR with no stacked ancestor. When it is
/// `None` the PR's current base is proposed instead, which makes every plan a
/// no-change.
pub fn detect(
    prs: &[PrDetails],
    ancestors: &[Option<String>],
    bookmarks: &[PushedBookmark],
    trunk: Option<&str>,
) -> (shape: LocalShape)
    requires
        prs@.len() == ancestors@.len(),
    ensures
        shape.chains@.len() == chains_view(prs@, ancestors@).len(),
        forall|i: int|
            0 <= i < shape.chains@.len() ==> shape.chains@[i]@ == chains_view(prs@, ancestors@)[i],
        bases_spec(
            shape.bases@,
            prs@,
            ancestors@,
            bookmarks@,
            match trunk {
                Some(t) => Some(t@),
                None => None,
            },
            prs@.len() as int,
        ),
{
    LocalShape { chains: chains(prs, ancestors), bases: bases(prs, ancestors, bookmarks, trunk) }
}


proof fn lemma_walk_steps(prs: Seq<PrDetails>, ancestors: Seq<Option<String>>, start: u64, fuel: nat)
    ensures
        walk(prs, ancestors, start, fuel).len() <= fuel,
        fuel > 0 ==> walk(prs, ancestors, start, fuel)[0] == start,
        forall|k: int|
            0 <= k < walk(prs, ancestors, start, fuel).len() - 1 ==> successor(
                prs,
                ancestors,
                #[trigger] walk(prs, ancestors, start, fuel)[k],
            ) == Some(walk(prs, ancestors, start, fuel)[k + 1]),
    decreases fuel,
{
    if fuel > 0 {
        let w = walk(prs, ancestors, start, fuel);
        match successor(prs, ancestors, start) {
            Some(next) => {
                lemma_walk_steps(prs, ancestors, next, (fuel - 1) as nat);
                let rest = walk(prs, ancestors, next, (fuel - 1) as nat);
                assert(w == seq![start] + rest);
                assert forall|k: int| 0 <= k < w.len() - 1 implies successor(
                    prs,
                    ancestors,
                    #[trigger] w[k],
                ) == Some(w[k + 1]) by {
                    if k == 0 {
                        if fuel - 1 > 0 {
                            assert(rest[0] == next);
                        }
                    } else {
                        assert(w[k] == rest[k - 1]);
                        assert(w[k + 1] == rest[k]);
                    }
                }
            },
            None => {
                assert(w =~= seq![start]);
            },
        }
    }
}

proof fn lemma_bottoms_are_bottom(prs: Seq<PrDetails>, ancestors: Seq<Option<String>>, k: int)
    ensures
        forall|j: int|
            0 <= j < bottoms(prs, ancestors, k).len() ==> is_bottom(
                prs,
                ancestors,
                #[trigger] bottoms(prs, ancestors, k)[j],
            ),
    decreases k,
{
    if k > 0 {
        lemma_bottoms_are_bottom(prs, ancestors, k - 1);
        let b = bottoms(prs, ancestors, k);
        let b0 = bottoms(prs, ancestors, k - 1);
        assert forall|j: int| 0 <= j < b.len() implies is_bottom(prs, ancestors, #[trigger] b[j]) by {
            if j < b0.len() {
                assert(b[j] == b0[j]);
            }
        }
    }
}

/// A chain is well formed: two or more PRs, starting at a bottom PR, each
/// PR followed by the one stacked on it.
pub open spec fn chain_well_formed(prs: Seq<PrDetails>, ancestors: Seq<Option<String>>, chain: Seq<u64>) -> bool {
    &&& chain.len() >= 2
    &&& is_bottom(prs, ancestors, chain[0])
    &&& forall|k: int|
        0 <= k < chain.len() - 1 ==> successor(prs, ancestors, #[trigger] chain[k]) == Some(
            chain[k + 1],
        )
}

proof fn lemma_chains_from_well_formed(
    prs: Seq<PrDetails>,
    ancestors: Seq<Option<String>>,
    bs: Seq<u64>,
)
    requires
        forall|j: int| 0 <= j < bs.len() ==> is_bottom(prs, ancestors, #[trigger] bs[j]),
    ensures
        forall|i: int|
            0 <= i < chains_from(prs, ancestors, bs).len() ==> chain_well_formed(
                prs,
                ancestors,
                #[trigger] chains_from(prs, ancestors, bs)[i],
            ),
    decreases bs.len(),
{
    if bs.len() > 0 {
        let rest = bs.drop_last();
        assert forall|j: int| 0 <= j < rest.len() implies is_bottom(prs, ancestors, #[trigger] rest[j]) by {
            assert(rest[j] == bs[j]);
        }
        lemma_chains_from_well_formed(prs, ancestors, rest);
        let chain = walk(prs, ancestors, bs.last(), prs.len() as nat);
        lemma_walk_steps(prs, ancestors, bs.last(), prs.len() as nat);
        assert(is_bottom(prs, ancestors, bs[bs.len() - 1]));
        let c = chains_from(prs, ancestors, bs);
        let c0 = chains_from(prs, ancestors, rest);
        assert forall|i: int| 0 <= i < c.len() implies chain_well_formed(
            prs,
            ancestors,
            #[trigger] c[i],
        ) by {
            if i < c0.len() {
                assert(c[i] == c0[i]);
            } else {
                assert(c[i] == chain);
                assert(chain[0] == bs.last());
            }
        }
    }
}

/// Law of stack detection: every chain holds two or more PRs, starts at a
/// PR whose ancestor bookmark is no PR's head, and lists each PR right
/// below the PR stacked on it; no chain is longer than the list of PRs.
pub proof fn lemma_chains_well_formed(prs: Seq<PrDetails>, ancestors: Seq<Option<String>>)
    ensures
        forall|i: int|
            0 <= i < chains_view(prs, ancestors).len() ==> chain_well_formed(
                prs,
                ancestors,
                #[trigger] chains_view(prs, ancestors)[i],
            ),
{
    lemma_bottoms_are_bottom(prs, ancestors, prs.len() as int);
    lemma_chains_from_well_formed(prs, ancestors, bottoms(prs, ancestors, prs.len() as int));
}

} // verus!
