//! The text `pr stack` and `pr restack --dry-run` print before acting: one
//! string per printed line, colored with ANSI codes when stdout is a
//! terminal.
use vstd::prelude::*;
use crate::restack::PrPlan;
use crate::stack_detect::BasePlan;
use crate::stack_plan::{chain_text, format_chain, short_sha, Plan, PushPlan};
use crate::gh_search::byte_len;
use crate::logging::spaces;
use crate::text::{concat, decimal, decimal_string, owned, push_decimal, push_str};
use vstd::string::StrSliceExecFns;

verus! {

/// ANSI code ending all styling.
pub const RESET: &'static str = "\x1b[0m";
/// ANSI code for dim text.
pub const DIM: &'static str = "\x1b[2m";
/// ANSI code for cyan text.
pub const CYAN: &'static str = "\x1b[36m";
/// ANSI code for green text.
pub const GREEN: &'static str = "\x1b[32m";
/// ANSI code for magenta text.
pub const MAGENTA: &'static str = "\x1b[35m";
/// ANSI code for blue text.
pub const BLUE: &'static str = "\x1b[34m";

/// `code` on a terminal, nothing elsewhere.
pub open spec fn on(code: Seq<char>, tty: bool) -> Seq<char> {
    if tty {
        code
    } else {
        seq![]
    }
}

/// `code` on a terminal, nothing elsewhere.
pub fn on_code(code: &'static str, tty: bool) -> (r: &'static str)
    ensures
        r@ == on(code@, tty),
{
    if tty {
        code
    } else {
        proof {
            reveal_strlit("");
        }
        ""
    }
}

/// A section heading: a blank line, then the dimmed name and the count.
pub open spec fn heading(name: Seq<char>, count: nat, tty: bool) -> Seq<char> {
    "\n"@ + on(DIM@, tty) + name + on(RESET@, tty) + " ("@ + decimal(count) + "):"@
}

fn heading_line(name: &str, count: usize, tty: bool) -> (r: String)
    ensures
        r@ == heading(name@, count as nat, tty),
{
    let mut r = concat("\n", on_code(DIM, tty));
    push_str(&mut r, name);
    push_str(&mut r, on_code(RESET, tty));
    push_str(&mut r, " (");
    push_decimal(&mut r, count as u64);
    push_str(&mut r, "):");
    r
}

/// The short form of a commit id, as `short_sha` makes it.
pub open spec fn short(sha: Seq<char>) -> Seq<char> {
    if sha.len() <= 8 {
        sha
    } else {
        sha.subrange(0, 8)
    }
}

/// One bookmark to push: where the remote has it and where it goes.
pub open spec fn push_line(p: PushPlan, tty: bool) -> Seq<char> {
    let from = match p.remote_commit_id {
        Some(id) => short(id@),
        None => "(not on remote)"@,
    };
    "  "@ + on(MAGENTA@, tty) + p.bookmark@ + on(RESET@, tty) + "  "@ + from + " "@ + on(DIM@, tty)
        + "->"@ + on(RESET@, tty) + " "@ + short(p.local_commit_id@)
}

/// One PR whose base moves: its number, title, and old and new base.
pub open spec fn base_line(b: BasePlan, tty: bool) -> Seq<char> {
    "  "@ + on(CYAN@, tty) + "#"@ + decimal(b.pr_number as nat) + on(RESET@, tty) + "  "@ + b.title@
        + "  base "@ + on(DIM@, tty) + b.current_base@ + on(RESET@, tty) + " "@ + on(DIM@, tty)
        + "<-"@ + on(RESET@, tty) + " "@ + on(GREEN@, tty) + b.proposed_base@ + on(RESET@, tty)
}

/// The title of PR `n` among `titles`; the last entry wins, and an unknown
/// PR has an empty title.
pub open spec fn title_for(titles: Seq<(u64, String)>, n: u64) -> Seq<char>
    decreases titles.len(),
{
    if titles.len() == 0 {
        seq![]
    } else if titles.last().0 == n {
        titles.last().1@
    } else {
        title_for(titles.drop_last(), n)
    }
}

/// One PR that leaves its stack.
pub open spec fn unstack_line(n: u64, titles: Seq<(u64, String)>, tty: bool) -> Seq<char> {
    "  "@ + on(CYAN@, tty) + "#"@ + decimal(n as nat) + on(RESET@, tty) + "  "@ + title_for(titles, n)
}

/// The note after the unstack section.
pub open spec fn unstack_note(tty: bool) -> Seq<Seq<char>> {
    seq![
        "  "@ + on(DIM@, tty) + "GitHub will not move a stacked PR's base ref, so these leave"@
            + on(RESET@, tty),
        "  "@ + on(DIM@, tty) + "their stack first and are stacked again afterwards."@ + on(
            RESET@,
            tty,
        ),
    ]
}

/// The push section.
pub open spec fn pushes_text(pushes: Seq<PushPlan>, tty: bool) -> Seq<Seq<char>> {
    if pushes.len() == 0 {
        seq![]
    } else {
        seq![heading("Push"@, pushes.len(), tty)] + pushes.map_values(|p: PushPlan| push_line(p, tty))
    }
}

/// The base-move section.
pub open spec fn bases_text(bases: Seq<BasePlan>, tty: bool) -> Seq<Seq<char>> {
    if bases.len() == 0 {
        seq![]
    } else {
        seq![heading("Retarget base"@, bases.len(), tty)] + bases.map_values(
            |b: BasePlan| base_line(b, tty),
        )
    }
}

/// The section of stacks to create.
pub open spec fn chains_text(chains: Seq<Vec<u64>>, tty: bool) -> Seq<Seq<char>> {
    if chains.len() == 0 {
        seq![]
    } else {
        seq![heading("Stack"@, chains.len(), tty)] + chains.map_values(
            |c: Vec<u64>| "  "@ + chain_text(c@),
        )
    }
}

/// The section of PRs to unstack, with its note.
pub open spec fn unstack_text(unstack: Seq<u64>, titles: Seq<(u64, String)>, tty: bool) -> Seq<
    Seq<char>,
> {
    if unstack.len() == 0 {
        seq![]
    } else {
        seq![heading("Unstack"@, unstack.len(), tty)] + unstack.map_values(
            |n: u64| unstack_line(n, titles, tty),
        ) + unstack_note(tty)
    }
}

/// The printed plan: pushes, base moves, stacks to create and PRs to
/// unstack, each section only when it has entries.
pub open spec fn plan_text(plan: Plan, titles: Seq<(u64, String)>, tty: bool) -> Seq<Seq<char>> {
    pushes_text(plan.pushes@, tty) + bases_text(plan.bases@, tty) + chains_text(plan.chains@, tty)
        + unstack_text(plan.unstack@, titles, tty)
}

fn title_of(titles: &[(u64, String)], n: u64) -> (r: String)
    ensures
        r@ == title_for(titles@, n),
{
    let mut i: usize = titles.len();
    assert(titles@.subrange(0, i as int) =~= titles@);
    while i > 0
        invariant
            i <= titles.len(),
            title_for(titles@, n) == title_for(titles@.subrange(0, i as int), n),
        decreases i,
    {
        proof {
            assert(titles@.subrange(0, i as int).drop_last() =~= titles@.subrange(0, i - 1));
        }
        if titles[i - 1].0 == n {
            return owned(titles[i - 1].1.as_str());
        }
        i = i - 1;
    }
    String::new()
}

fn push_plan_line(p: &PushPlan, tty: bool) -> (r: String)
    ensures
        r@ == push_line(*p, tty),
{
    let from = match &p.remote_commit_id {
        Some(id) => short_sha(id.as_str()),
        None => owned("(not on remote)"),
    };
    let mut r = concat("  ", on_code(MAGENTA, tty));
    push_str(&mut r, p.bookmark.as_str());
    push_str(&mut r, on_code(RESET, tty));
    push_str(&mut r, "  ");
    push_str(&mut r, from.as_str());
    push_str(&mut r, " ");
    push_str(&mut r, on_code(DIM, tty));
    push_str(&mut r, "->");
    push_str(&mut r, on_code(RESET, tty));
    push_str(&mut r, " ");
    let to = short_sha(p.local_commit_id.as_str());
    push_str(&mut r, to.as_str());
    r
}

fn base_plan_line(b: &BasePlan, tty: bool) -> (r: String)
    ensures
        r@ == base_line(*b, tty),
{
    let mut r = concat("  ", on_code(CYAN, tty));
    push_str(&mut r, "#");
    push_decimal(&mut r, b.pr_number);
    push_str(&mut r, on_code(RESET, tty));
    push_str(&mut r, "  ");
    push_str(&mut r, b.title.as_str());
    push_str(&mut r, "  base ");
    push_str(&mut r, on_code(DIM, tty));
    push_str(&mut r, b.current_base.as_str());
    push_str(&mut r, on_code(RESET, tty));
    push_str(&mut r, " ");
    push_str(&mut r, on_code(DIM, tty));
    push_str(&mut r, "<-");
    push_str(&mut r, on_code(RESET, tty));
    push_str(&mut r, " ");
    push_str(&mut r, on_code(GREEN, tty));
    push_str(&mut r, b.proposed_base.as_str());
    push_str(&mut r, on_code(RESET, tty));
    r
}

fn unstack_plan_line(n: u64, titles: &[(u64, String)], tty: bool) -> (r: String)
    ensures
        r@ == unstack_line(n, titles@, tty),
{
    let mut r = concat("  ", on_code(CYAN, tty));
    push_str(&mut r, "#");
    push_decimal(&mut r, n);
    push_str(&mut r, on_code(RESET, tty));
    push_str(&mut r, "  ");
    let t = title_of(titles, n);
    push_str(&mut r, t.as_str());
    r
}

fn add_pushes(out: &mut Vec<String>, pushes: &Vec<PushPlan>, tty: bool)
    ensures
        final(out)@.map_values(|s: String| s@) == old(out)@.map_values(|s: String| s@) + pushes_text(
            pushes@,
            tty,
        ),
{
    let ghost start = out@.map_values(|s: String| s@);
    if pushes.len() > 0 {
        out.push(heading_line("Push", pushes.len(), tty));
        let mut i: usize = 0;
        while i < pushes.len()
            invariant
                i <= pushes@.len(),
                out@.map_values(|s: String| s@) == start + (seq![heading("Push"@, pushes@.len(), tty)]
                    + pushes@.subrange(0, i as int).map_values(|p: PushPlan| push_line(p, tty))),
            decreases pushes@.len() - i,
        {
            let ghost before = out@.map_values(|s: String| s@);
            let line = push_plan_line(&pushes[i], tty);
            let ghost lv = line@;
            out.push(line);
            proof {
                assert(out@.map_values(|s: String| s@) =~= before.push(lv));
                assert(pushes@.subrange(0, i + 1).map_values(|p: PushPlan| push_line(p, tty))
                    =~= pushes@.subrange(0, i as int).map_values(|p: PushPlan| push_line(p, tty)).push(
                    push_line(pushes@[i as int], tty),
                ));
            }
            i = i + 1;
        }
        proof {
            assert(pushes@.subrange(0, i as int) =~= pushes@);
        }
    } else {
        proof {
            assert(start + pushes_text(pushes@, tty) =~= start);
        }
    }
}

fn add_bases(out: &mut Vec<String>, bases: &Vec<BasePlan>, tty: bool)
    ensures
        final(out)@.map_values(|s: String| s@) == old(out)@.map_values(|s: String| s@) + bases_text(
            bases@,
            tty,
        ),
{
    let ghost start = out@.map_values(|s: String| s@);
    if bases.len() > 0 {
        out.push(heading_line("Retarget base", bases.len(), tty));
        let mut i: usize = 0;
        while i < bases.len()
            invariant
                i <= bases@.len(),
                out@.map_values(|s: String| s@) == start + (seq![
                    heading("Retarget base"@, bases@.len(), tty),
                ] + bases@.subrange(0, i as int).map_values(|b: BasePlan| base_line(b, tty))),
            decreases bases@.len() - i,
        {
            let ghost before = out@.map_values(|s: String| s@);
            let line = base_plan_line(&bases[i], tty);
            let ghost lv = line@;
            out.push(line);
            proof {
                assert(out@.map_values(|s: String| s@) =~= before.push(lv));
                assert(bases@.subrange(0, i + 1).map_values(|b: BasePlan| base_line(b, tty))
                    =~= bases@.subrange(0, i as int).map_values(|b: BasePlan| base_line(b, tty)).push(
                    base_line(bases@[i as int], tty),
                ));
            }
            i = i + 1;
        }
        proof {
            assert(bases@.subrange(0, i as int) =~= bases@);
        }
    } else {
        proof {
            assert(start + bases_text(bases@, tty) =~= start);
        }
    }
}

fn add_chains(out: &mut Vec<String>, chains: &Vec<Vec<u64>>, tty: bool)
    ensures
        final(out)@.map_values(|s: String| s@) == old(out)@.map_values(|s: String| s@) + chains_text(
            chains@,
            tty,
        ),
{
    let ghost start = out@.map_values(|s: String| s@);
    if chains.len() > 0 {
        out.push(heading_line("Stack", chains.len(), tty));
        let mut i: usize = 0;
        while i < chains.len()
            invariant
                i <= chains@.len(),
                out@.map_values(|s: String| s@) == start + (seq![heading("Stack"@, chains@.len(), tty)]
                    + chains@.subrange(0, i as int).map_values(|c: Vec<u64>| "  "@ + chain_text(c@))),
            decreases chains@.len() - i,
        {
            let ghost before = out@.map_values(|s: String| s@);
            let c = format_chain(chains[i].as_slice());
            let line = concat("  ", c.as_str());
            let ghost lv = line@;
            out.push(line);
            proof {
                assert(out@.map_values(|s: String| s@) =~= before.push(lv));
                assert(chains@.subrange(0, i + 1).map_values(|c: Vec<u64>| "  "@ + chain_text(c@))
                    =~= chains@.subrange(0, i as int).map_values(
                    |c: Vec<u64>| "  "@ + chain_text(c@),
                ).push("  "@ + chain_text(chains@[i as int]@)));
            }
            i = i + 1;
        }
        proof {
            assert(chains@.subrange(0, i as int) =~= chains@);
        }
    } else {
        proof {
            assert(start + chains_text(chains@, tty) =~= start);
        }
    }
}

fn add_unstack(out: &mut Vec<String>, unstack: &Vec<u64>, titles: &[(u64, String)], tty: bool)
    ensures
        final(out)@.map_values(|s: String| s@) == old(out)@.map_values(|s: String| s@) + unstack_text(
            unstack@,
            titles@,
            tty,
        ),
{
    let ghost start = out@.map_values(|s: String| s@);
    if unstack.len() > 0 {
        out.push(heading_line("Unstack", unstack.len(), tty));
        let mut i: usize = 0;
        while i < unstack.len()
            invariant
                i <= unstack@.len(),
                out@.map_values(|s: String| s@) == start + (seq![
                    heading("Unstack"@, unstack@.len(), tty),
                ] + unstack@.subrange(0, i as int).map_values(|n: u64| unstack_line(n, titles@, tty))),
            decreases unstack@.len() - i,
        {
            let ghost before = out@.map_values(|s: String| s@);
            let line = unstack_plan_line(unstack[i], titles, tty);
            let ghost lv = line@;
            out.push(line);
            proof {
                assert(out@.map_values(|s: String| s@) =~= before.push(lv));
                assert(unstack@.subrange(0, i + 1).map_values(|n: u64| unstack_line(n, titles@, tty))
                    =~= unstack@.subrange(0, i as int).map_values(
                    |n: u64| unstack_line(n, titles@, tty),
                ).push(unstack_line(unstack@[i as int], titles@, tty)));
            }
            i = i + 1;
        }
        let ghost mid = out@.map_values(|s: String| s@);
        let mut n1 = concat("  ", on_code(DIM, tty));
        push_str(&mut n1, "GitHub will not move a stacked PR's base ref, so these leave");
        push_str(&mut n1, on_code(RESET, tty));
        let ghost v1 = n1@;
        out.push(n1);
        let mut n2 = concat("  ", on_code(DIM, tty));
        push_str(&mut n2, "their stack first and are stacked again afterwards.");
        push_str(&mut n2, on_code(RESET, tty));
        let ghost v2 = n2@;
        out.push(n2);
        proof {
            assert(unstack@.subrange(0, i as int) =~= unstack@);
            assert(out@.map_values(|s: String| s@) =~= mid.push(v1).push(v2));
            assert(mid.push(v1).push(v2) =~= mid + unstack_note(tty));
        }
    } else {
        proof {
            assert(start + unstack_text(unstack@, titles@, tty) =~= start);
        }
    }
}

/// The lines `pr stack` prints to preview its plan; `titles` are the PR
/// titles by number.
pub fn plan_lines(plan: &Plan, titles: &[(u64, String)], tty: bool) -> (r: Vec<String>)
    ensures
        r@.map_values(|s: String| s@) == plan_text(*plan, titles@, tty),
{
    let mut out: Vec<String> = Vec::new();
    proof {
        assert(out@.map_values(|s: String| s@) =~= Seq::<Seq<char>>::empty());
    }
    add_pushes(&mut out, &plan.pushes, tty);
    add_bases(&mut out, &plan.bases, tty);
    add_chains(&mut out, &plan.chains, tty);
    add_unstack(&mut out, &plan.unstack, titles, tty);
    proof {
        assert(out@.map_values(|s: String| s@) =~= plan_text(*plan, titles@, tty));
    }
    out
}


/// `s` padded with spaces on the right to `width` characters.
pub open spec fn pad(s: Seq<char>, width: int) -> Seq<char> {
    if s.len() < width {
        s + spaces((width - s.len()) as nat)
    } else {
        s
    }
}

fn push_padded(out: &mut String, s: &str, width: usize)
    ensures
        final(out)@ == old(out)@ + pad(s@, width as int),
{
    push_str(out, s);
    let n = s.unicode_len();
    if n < width {
        let ghost mid = out@;
        let mut k: usize = 0;
        while k < width - n
            invariant
                k <= width - n,
                n == s@.len(),
                n < width,
                out@ == mid + spaces(k as nat),
            decreases width - n - k,
        {
            out.push(' ');
            proof {
                assert(spaces(k as nat).push(' ') =~= spaces((k + 1) as nat));
            }
            k = k + 1;
        }
        proof {
            assert(out@ =~= old(out)@ + pad(s@, width as int));
        }
    } else {
        proof {
            assert(out@ =~= old(out)@ + pad(s@, width as int));
        }
    }
}

/// The widest title among `plans`, in bytes.
pub open spec fn max_title_bytes(plans: Seq<PrPlan>) -> nat
    decreases plans.len(),
{
    if plans.len() == 0 {
        0
    } else {
        let rest = max_title_bytes(plans.drop_last());
        let here = byte_len(plans.last().title@);
        if here > rest {
            here
        } else {
            rest
        }
    }
}

/// The widest current or proposed base among `plans`, in bytes.
pub open spec fn max_base_bytes(plans: Seq<PrPlan>) -> nat
    decreases plans.len(),
{
    if plans.len() == 0 {
        0
    } else {
        let rest = max_base_bytes(plans.drop_last());
        let p = byte_len(plans.last().proposed_base@);
        let c = byte_len(plans.last().current_base@);
        let here = if p > c {
            p
        } else {
            c
        };
        if here > rest {
            here
        } else {
            rest
        }
    }
}

/// Width of the title column: the widest title, at least 8.
pub open spec fn title_width(plans: Seq<PrPlan>) -> nat {
    if max_title_bytes(plans) > 8 {
        max_title_bytes(plans)
    } else {
        8
    }
}

/// Width of the base column: the widest base, at least 4.
pub open spec fn base_width(plans: Seq<PrPlan>) -> nat {
    if max_base_bytes(plans) > 4 {
        max_base_bytes(plans)
    } else {
        4
    }
}

/// One dry-run row: number, title, the base the PR ends with, the bookmark,
/// and whether that is a change.
pub open spec fn dry_run_row(p: PrPlan, tw: int, bw: int, tty: bool) -> Seq<char> {
    let same = p.current_base@ == p.proposed_base@;
    let base = if same {
        p.current_base@
    } else {
        p.proposed_base@
    };
    let color = if same {
        on(BLUE@, tty)
    } else {
        on(GREEN@, tty)
    };
    let suffix = if same {
        on(DIM@, tty) + "(no change)"@ + on(RESET@, tty)
    } else {
        on(DIM@, tty) + "(was: "@ + p.current_base@ + ")"@ + on(RESET@, tty)
    };
    on(CYAN@, tty) + "#"@ + pad(decimal(p.pr_number as nat), 5) + on(RESET@, tty) + " "@ + pad(
        p.title@,
        tw,
    ) + "  "@ + color + pad(base, bw) + on(RESET@, tty) + " "@ + on(DIM@, tty) + "\u{2190}"@ + on(
        RESET@,
        tty,
    ) + " "@ + on(MAGENTA@, tty) + p.bookmark@ + on(RESET@, tty) + "  "@ + suffix
}

/// How many plans change their PR's base.
pub open spec fn change_count(plans: Seq<PrPlan>) -> nat
    decreases plans.len(),
{
    if plans.len() == 0 {
        0
    } else {
        change_count(plans.drop_last()) + if plans.last().current_base@
            == plans.last().proposed_base@ {
            0nat
        } else {
            1nat
        }
    }
}

proof fn lemma_change_count_bound(plans: Seq<PrPlan>)
    ensures
        change_count(plans) <= plans.len(),
    decreases plans.len(),
{
    if plans.len() > 0 {
        lemma_change_count_bound(plans.drop_last());
    }
}

/// The dry-run report: a row per plan, a blank line, and the totals.
pub open spec fn dry_run_text(plans: Seq<PrPlan>, tty: bool) -> Seq<Seq<char>> {
    plans.map_values(
        |p: PrPlan| dry_run_row(p, title_width(plans) as int, base_width(plans) as int, tty),
    ) + seq![
        seq![],
        on(DIM@, tty) + decimal(plans.len()) + " PR(s), "@ + decimal(change_count(plans))
            + " change(s) proposed"@ + on(RESET@, tty),
    ]
}

/// The lengths in bytes fit a `usize`, as those of any string in memory do.
pub open spec fn widths_fit(plans: Seq<PrPlan>) -> bool {
    forall|i: int|
        0 <= i < plans.len() ==> byte_len((#[trigger] plans[i]).title@) <= usize::MAX && byte_len(
            plans[i].proposed_base@,
        ) <= usize::MAX && byte_len(plans[i].current_base@) <= usize::MAX
}

fn dry_run_row_text(p: &PrPlan, tw: usize, bw: usize, tty: bool) -> (r: String)
    ensures
        r@ == dry_run_row(*p, tw as int, bw as int, tty),
{
    let same = crate::text::str_eq(p.current_base.as_str(), p.proposed_base.as_str());
    let mut r = concat(on_code(CYAN, tty), "#");
    let num = decimal_string(p.pr_number);
    push_padded(&mut r, num.as_str(), 5);
    push_str(&mut r, on_code(RESET, tty));
    push_str(&mut r, " ");
    push_padded(&mut r, p.title.as_str(), tw);
    push_str(&mut r, "  ");
    if same {
        push_str(&mut r, on_code(BLUE, tty));
        push_padded(&mut r, p.current_base.as_str(), bw);
    } else {
        push_str(&mut r, on_code(GREEN, tty));
        push_padded(&mut r, p.proposed_base.as_str(), bw);
    }
    push_str(&mut r, on_code(RESET, tty));
    push_str(&mut r, " ");
    push_str(&mut r, on_code(DIM, tty));
    push_str(&mut r, "\u{2190}");
    push_str(&mut r, on_code(RESET, tty));
    push_str(&mut r, " ");
    push_str(&mut r, on_code(MAGENTA, tty));
    push_str(&mut r, p.bookmark.as_str());
    push_str(&mut r, on_code(RESET, tty));
    push_str(&mut r, "  ");
    push_str(&mut r, on_code(DIM, tty));
    if same {
        push_str(&mut r, "(no change)");
    } else {
        push_str(&mut r, "(was: ");
        push_str(&mut r, p.current_base.as_str());
        push_str(&mut r, ")");
    }
    push_str(&mut r, on_code(RESET, tty));
    r
}

/// The lines `pr restack --dry-run` prints: a row per PR with padded
/// columns, a blank line and the count of PRs and changes.
pub fn dry_run_lines(plans: &[PrPlan], tty: bool) -> (r: Vec<String>)
    requires
        widths_fit(plans@),
    ensures
        r@.map_values(|s: String| s@) == dry_run_text(plans@, tty),
{
    let mut tw: usize = 0;
    let mut bw: usize = 0;
    let mut changes: usize = 0;
    let mut i: usize = 0;
    while i < plans.len()
        invariant
            i <= plans.len(),
            widths_fit(plans@),
            tw == max_title_bytes(plans@.subrange(0, i as int)),
            bw == max_base_bytes(plans@.subrange(0, i as int)),
            changes == change_count(plans@.subrange(0, i as int)),
        decreases plans.len() - i,
    {
        proof {
            assert(plans@.subrange(0, i + 1).drop_last() =~= plans@.subrange(0, i as int));
            lemma_change_count_bound(plans@.subrange(0, i as int));
        }
        let p = &plans[i];
        let t = p.title.as_str().len();
        let pb = p.proposed_base.as_str().len();
        let cb = p.current_base.as_str().len();
        proof {
            assert(byte_len(plans@[i as int].title@) <= usize::MAX);
            assert(byte_len(plans@[i as int].proposed_base@) <= usize::MAX);
            assert(byte_len(plans@[i as int].current_base@) <= usize::MAX);
        }
        if t > tw {
            tw = t;
        }
        let here = if pb > cb {
            pb
        } else {
            cb
        };
        if here > bw {
            bw = here;
        }
        if !crate::text::str_eq(p.current_base.as_str(), p.proposed_base.as_str()) {
            changes = changes + 1;
        }
        i = i + 1;
    }
    proof {
        assert(plans@.subrange(0, i as int) =~= plans@);
    }
    if tw < 8 {
        tw = 8;
    }
    if bw < 4 {
        bw = 4;
    }
    let ghost rowf = |p: PrPlan| dry_run_row(p, tw as int, bw as int, tty);
    let mut out: Vec<String> = Vec::new();
    let mut k: usize = 0;
    while k < plans.len()
        invariant
            k <= plans.len(),
            tw == title_width(plans@),
            bw == base_width(plans@),
            out@.map_values(|s: String| s@) == plans@.subrange(0, k as int).map_values(
                |p: PrPlan| dry_run_row(p, tw as int, bw as int, tty),
            ),
        decreases plans.len() - k,
    {
        let ghost before = out@.map_values(|s: String| s@);
        let row = dry_run_row_text(&plans[k], tw, bw, tty);
        let ghost rv = row@;
        out.push(row);
        proof {
            assert(out@.map_values(|s: String| s@) =~= before.push(rv));
            assert(plans@.subrange(0, k + 1).map_values(
                |p: PrPlan| dry_run_row(p, tw as int, bw as int, tty),
            ) =~= plans@.subrange(0, k as int).map_values(
                |p: PrPlan| dry_run_row(p, tw as int, bw as int, tty),
            ).push(dry_run_row(plans@[k as int], tw as int, bw as int, tty)));
        }
        k = k + 1;
    }
    proof {
        assert(plans@.subrange(0, k as int) =~= plans@);
    }
    let ghost rows = out@.map_values(|s: String| s@);
    out.push(String::new());
    let mut total = owned(on_code(DIM, tty));
    push_decimal(&mut total, plans.len() as u64);
    push_str(&mut total, " PR(s), ");
    push_decimal(&mut total, changes as u64);
    push_str(&mut total, " change(s) proposed");
    push_str(&mut total, on_code(RESET, tty));
    let ghost tv = total@;
    out.push(total);
    proof {
        assert(out@.map_values(|s: String| s@) =~= rows.push(Seq::<char>::empty()).push(tv));
        assert(dry_run_text(plans@, tty) =~= rows + seq![Seq::<char>::empty(), tv]);
    }
    out
}

} // verus!
