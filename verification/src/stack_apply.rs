//! Keeping the in-memory view of GitHub current while `pr stack` applies
//! its plan, so that later steps neither repeat a write nor skip one.
use vstd::prelude::*;
use crate::gh::{PrDetails, PullRequestStack, UpdatePr};
use crate::numbers::contains_u64;
use crate::stack_detect::BasePlan;
use crate::text::{owned, str_eq};

verus! {

/// `a` and `b` agree on every field of a PR's details but its stack number
/// and its base ref.
pub open spec fn same_pr_facts(a: PrDetails, b: PrDetails) -> bool {
    &&& a.is_draft == b.is_draft
    &&& a.auto_merge == b.auto_merge
    &&& a.auto_merge_method == b.auto_merge_method
    &&& a.number == b.number
    &&& a.title == b.title
    &&& a.html_url == b.html_url
    &&& a.head_ref == b.head_ref
    &&& a.head_sha == b.head_sha
    &&& a.head_user_login == b.head_user_login
    &&& a.head_repo_name == b.head_repo_name
    &&& a.graphql_node_id == b.graphql_node_id
    &&& a.in_merge_queue == b.in_merge_queue
    &&& a.labels == b.labels
    &&& a.reviewers == b.reviewers
    &&& a.body == b.body
}

/// The stacks that lose a member when the PRs `done` leave their stacks.
pub open spec fn dissolved(details: Seq<PrDetails>, done: Seq<u64>, s: u64) -> bool {
    exists|i: int|
        0 <= i < details.len() && done.contains(#[trigger] details[i].number)
            && details[i].stack_number == Some(s)
}

/// Mirror an unstack that went through: the PRs `done` are in no stack any
/// more, and the stacks they were in are gone.
pub fn mirror_unstack(
    pr_details: &mut Vec<PrDetails>,
    existing_stacks: &mut Vec<PullRequestStack>,
    done: &[u64],
)
    ensures
        final(pr_details)@.len() == old(pr_details)@.len(),
        forall|i: int|
            0 <= i < old(pr_details)@.len() ==> {
                let before = #[trigger] old(pr_details)@[i];
                let after = final(pr_details)@[i];
                &&& after.number == before.number
                &&& same_pr_facts(after, before)
                &&& after.head_ref == before.head_ref
                &&& after.base_ref == before.base_ref
                &&& after.graphql_node_id == before.graphql_node_id
                &&& after.stack_number == if done@.contains(before.number) {
                    None
                } else {
                    before.stack_number
                }
            },
        final(existing_stacks)@ == old(existing_stacks)@.filter(
            |s: PullRequestStack| !dissolved(old(pr_details)@, done@, s.number),
        ),
{
    let ghost details0 = pr_details@;
    // The stacks that lose a member.
    let mut gone: Vec<u64> = Vec::new();
    let mut i: usize = 0;
    while i < pr_details.len()
        invariant
            i <= pr_details@.len(),
            pr_details@ == details0,
            forall|s: u64|
                gone@.contains(s) <==> exists|j: int|
                    0 <= j < i && done@.contains(#[trigger] details0[j].number)
                        && details0[j].stack_number == Some(s),
        decreases pr_details@.len() - i,
    {
        let n = pr_details[i].number;
        if contains_u64(done, n) {
            match pr_details[i].stack_number {
                Some(s) => {
                    let ghost og = gone@;
                    gone.push(s);
                    proof {
                        assert(gone@ == og.push(s));
                        assert forall|t: u64| gone@.contains(t) <==> (og.contains(t) || t == s) by {
                            if og.contains(t) {
                                let k = choose|k: int| 0 <= k < og.len() && og[k] == t;
                                assert(gone@[k] == t);
                            }
                            if t == s {
                                assert(gone@[og.len() as int] == s);
                            }
                            if gone@.contains(t) {
                                let k = choose|k: int| 0 <= k < gone@.len() && gone@[k] == t;
                                if k < og.len() {
                                    assert(og[k] == t);
                                }
                            }
                        }
                        assert forall|t: u64| gone@.contains(t) <==> exists|j: int|
                            0 <= j < i + 1 && done@.contains(#[trigger] details0[j].number)
                                && details0[j].stack_number == Some(t) by {
                            if t == s {
                                assert(done@.contains(details0[i as int].number));
                            }
                            if exists|j: int|
                                0 <= j < i + 1 && done@.contains(#[trigger] details0[j].number)
                                    && details0[j].stack_number == Some(t) {
                                let j = choose|j: int|
                                    0 <= j < i + 1 && done@.contains(#[trigger] details0[j].number)
                                        && details0[j].stack_number == Some(t);
                                if j < i {
                                    assert(og.contains(t));
                                }
                            }
                            if gone@.contains(t) && t != s {
                                assert(og.contains(t));
                                let j = choose|j: int|
                                    0 <= j < i && done@.contains(#[trigger] details0[j].number)
                                        && details0[j].stack_number == Some(t);
                                assert(0 <= j < i + 1);
                            }
                        }
                    }
                },
                None => {},
            }
        }
        i = i + 1;
    }
    // Clear the stack of each PR that left it.
    let mut k: usize = 0;
    while k < pr_details.len()
        invariant
            k <= pr_details@.len(),
            pr_details@.len() == details0.len(),
            forall|j: int|
                0 <= j < details0.len() ==> {
                    let before = #[trigger] details0[j];
                    let after = pr_details@[j];
                    &&& after.number == before.number
                    &&& same_pr_facts(after, before)
                    &&& after.head_ref == before.head_ref
                    &&& after.base_ref == before.base_ref
                    &&& after.graphql_node_id == before.graphql_node_id
                    &&& after.stack_number == if j < k && done@.contains(before.number) {
                        None
                    } else {
                        before.stack_number
                    }
                },
        decreases pr_details@.len() - k,
    {
        let n = pr_details[k].number;
        if contains_u64(done, n) {
            pr_details[k].stack_number = None;
        }
        k = k + 1;
    }
    // Drop the dissolved stacks.
    let ghost stacks0 = existing_stacks@;
    let mut kept: Vec<PullRequestStack> = Vec::new();
    let mut rest: Vec<PullRequestStack> = Vec::new();
    std::mem::swap(&mut rest, existing_stacks);
    let ghost f = |s: PullRequestStack| !dissolved(details0, done@, s.number);
    let mut m: usize = 0;
    let n0 = rest.len();
    assert(rest@ == stacks0);
    assert(n0 == stacks0.len());
    assert(stacks0.subrange(0, 0) =~= Seq::<PullRequestStack>::empty());
    assert(stacks0.subrange(0, stacks0.len() as int) =~= stacks0);
    assert(Seq::<PullRequestStack>::empty().filter(f) =~= Seq::<PullRequestStack>::empty()) by {
        reveal(Seq::filter);
    }
    while rest.len() > 0
        invariant
            stacks0.len() <= usize::MAX,
            m + rest@.len() == stacks0.len(),
            rest@ == stacks0.subrange(m as int, stacks0.len() as int),
            kept@ == stacks0.subrange(0, m as int).filter(f),
            forall|s: u64| gone@.contains(s) <==> dissolved(details0, done@, s),
            f == (|s: PullRequestStack| !dissolved(details0, done@, s.number)),
        decreases rest@.len(),
    {
        let ghost before = rest@;
        let s = rest.remove(0);
        proof {
            assert(stacks0.subrange(0, m + 1).drop_last() =~= stacks0.subrange(0, m as int));
            assert(stacks0.subrange(0, m + 1).last() == s);
            assert(rest@ =~= stacks0.subrange(m + 1, stacks0.len() as int));
            reveal(Seq::filter);
        }
        if !contains_u64(gone.as_slice(), s.number) {
            kept.push(s);
        }
        m = m + 1;
    }
    proof {
        assert(stacks0.subrange(0, m as int) =~= stacks0);
    }
    *existing_stacks = kept;
}

/// The base-ref update that moves one PR to its proposed base.
pub fn retarget_update(base: &BasePlan) -> (u: UpdatePr)
    ensures
        u.pr_node_id@ == base.pr_node_id@,
        u.base_ref_name matches Some(b) && b@ == base.proposed_base@,
        u.title is None,
        u.body is None,
{
    UpdatePr {
        pr_node_id: owned(base.pr_node_id.as_str()),
        title: None,
        body: None,
        base_ref_name: Some(owned(base.proposed_base.as_str())),
    }
}

/// Mirror a base-ref update that went through: the first PR numbered
/// `number` now targets `base`.
pub fn mirror_retarget(pr_details: &mut Vec<PrDetails>, number: u64, base: &str)
    ensures
        final(pr_details)@.len() == old(pr_details)@.len(),
        forall|i: int|
            0 <= i < old(pr_details)@.len() ==> {
                let before = #[trigger] old(pr_details)@[i];
                let after = final(pr_details)@[i];
                &&& after.number == before.number
                &&& same_pr_facts(after, before)
                &&& after.stack_number == before.stack_number
                &&& after.head_ref == before.head_ref
                &&& after.graphql_node_id == before.graphql_node_id
                &&& after.base_ref@ == if before.number == number && forall|j: int|
                    0 <= j < i ==> old(pr_details)@[j].number != number {
                    base@
                } else {
                    before.base_ref@
                }
            },
{
    let ghost details0 = pr_details@;
    let mut i: usize = 0;
    let mut found = false;
    while i < pr_details.len() && !found
        invariant
            i <= pr_details@.len(),
            pr_details@ == details0,
            found ==> i < details0.len() && details0[i as int].number == number,
            forall|j: int| 0 <= j < i ==> details0[j].number != number,
        decreases pr_details@.len() - i, if found { 0int } else { 1int },
    {
        if pr_details[i].number == number {
            found = true;
        } else {
            i = i + 1;
        }
    }
    if found {
        pr_details[i].base_ref = owned(base);
        proof {
            assert forall|j: int| 0 <= j < details0.len() implies {
                let before = #[trigger] details0[j];
                let after = pr_details@[j];
                &&& after.number == before.number
                &&& same_pr_facts(after, before)
                &&& after.stack_number == before.stack_number
                &&& after.head_ref == before.head_ref
                &&& after.graphql_node_id == before.graphql_node_id
                &&& after.base_ref@ == if before.number == number && forall|l: int|
                    0 <= l < j ==> details0[l].number != number {
                    base@
                } else {
                    before.base_ref@
                }
            } by {
                if j > i {
                    assert(details0[i as int].number == number);
                }
            }
        }
    }
}

/// Whether a bookmark needs a push: the remote has no commit for it, or
/// another commit than the local one.
pub fn needs_push(remote_commit: Option<&str>, local_commit: &str) -> (r: bool)
    ensures
        r == !(remote_commit matches Some(c) && c@ == local_commit@),
{
    match remote_commit {
        Some(c) => !str_eq(c, local_commit),
        None => true,
    }
}

/// Whether the answer to "Apply this plan? [y/N]" is yes: `y` or `yes` in
/// any case, around white space.
pub open spec fn is_yes(answer: Seq<char>) -> bool {
    let a = crate::text::lowercase(crate::text::trim(answer));
    a == "y"@ || a == "yes"@
}

/// Reads the confirmation answer.
pub fn confirmed(answer: &str) -> (r: bool)
    ensures
        r == is_yes(answer@),
{
    let t = crate::text::trimmed(answer);
    let a = crate::text::to_lowercase(t.as_str());
    str_eq(a.as_str(), "y") || str_eq(a.as_str(), "yes")
}

} // verus!
