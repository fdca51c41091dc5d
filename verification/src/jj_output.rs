//! Reading what `jj` prints back: the revsets asked about, the commit ids it
//! answers with, and the list of pushed bookmarks.
use vstd::prelude::*;
use crate::jj::PushedBookmark;
use crate::restack_log::{less_than, lemma_insert_ordered, str_lt, strictly_ordered};
use crate::text::{chars_of, concat, push_str, seq_eq, string_from_range, trim, trim_bounds};

verus! {

/// The revset whose newest bookmarked commit is the closest bookmarked
/// ancestor of `rev`: `ancestors((rev)-) & bookmarks()`.
pub fn stacked_ancestor_revset(rev: &str) -> (r: String)
    ensures
        r@ == "ancestors(("@ + rev@ + ")-) & bookmarks()"@,
{
    let mut r = concat("ancestors((", rev);
    push_str(&mut r, ")-) & bookmarks()");
    r
}

/// A commit id printed by `jj log -T commit_id`: the trimmed output, or
/// nothing when it printed nothing but white space.
pub fn commit_id_from_output(stdout: &str) -> (r: Option<String>)
    ensures
        match r {
            Some(id) => trim(stdout@).len() > 0 && id@ == trim(stdout@),
            None => trim(stdout@).len() == 0,
        },
{
    let v = chars_of(stdout);
    let (lo, hi) = trim_bounds(&v);
    if lo == hi {
        None
    } else {
        Some(string_from_range(&v, lo, hi))
    }
}

fn name_before(v: &Vec<PushedBookmark>, i: usize, name: &Vec<char>) -> (r: bool)
    requires
        i < v@.len(),
    ensures
        r == str_lt(names_of(v@)[i as int], name@),
{
    let cv = chars_of(v[i].name.as_str());
    less_than(&cv, name)
}

/// The names of a list of bookmarks.
pub open spec fn names_of(bs: Seq<PushedBookmark>) -> Seq<Seq<char>> {
    bs.map_values(|b: PushedBookmark| b.name@)
}

/// Whether `b` is the first bookmark of `bs` with its name.
pub open spec fn first_of_name(bs: Seq<PushedBookmark>, b: PushedBookmark) -> bool {
    exists|j: int|
        0 <= j < bs.len() && #[trigger] bs[j] == b && forall|l: int|
            0 <= l < j ==> bs[l].name@ != b.name@
}

/// The pushed bookmarks ordered by name, one per name: the first listed of
/// each name is kept.
pub fn sorted_unique_bookmarks(list: Vec<PushedBookmark>) -> (r: Vec<PushedBookmark>)
    ensures
        strictly_ordered(names_of(r@)),
        forall|x: Seq<char>| names_of(r@).contains(x) <==> names_of(list@).contains(x),
        forall|k: int| 0 <= k < r@.len() ==> first_of_name(list@, #[trigger] r@[k]),
{
    let ghost input = list@;
    let mut rest = list;
    let mut out: Vec<PushedBookmark> = Vec::new();
    let ghost mut done: int = 0;
    while rest.len() > 0
        invariant
            0 <= done <= input.len(),
            rest@ == input.subrange(done, input.len() as int),
            strictly_ordered(names_of(out@)),
            forall|x: Seq<char>|
                names_of(out@).contains(x) <==> names_of(input.subrange(0, done)).contains(x),
            forall|k: int| 0 <= k < out@.len() ==> first_of_name(input, #[trigger] out@[k]),
        decreases rest@.len(),
    {
        let ghost before = out@;
        let b = rest.remove(0);
        proof {
            assert(b == input[done]);
            assert(rest@ =~= input.subrange(done + 1, input.len() as int));
            assert(input.subrange(0, done + 1) =~= input.subrange(0, done).push(b));
            let pre = names_of(input.subrange(0, done));
            let post = names_of(input.subrange(0, done + 1));
            assert(post =~= pre.push(b.name@));
            assert forall|x: Seq<char>| post.contains(x) <==> (pre.contains(x) || x == b.name@) by {
                if pre.contains(x) {
                    let q = choose|q: int| 0 <= q < pre.len() && pre[q] == x;
                    assert(post[q] == x);
                }
                if x == b.name@ {
                    assert(post[pre.len() as int] == x);
                }
                if post.contains(x) {
                    let q = choose|q: int| 0 <= q < post.len() && post[q] == x;
                    if q < pre.len() {
                        assert(pre[q] == x);
                    }
                }
            }
        }
        let bv = chars_of(b.name.as_str());
        let mut i: usize = 0;
        while i < out.len() && name_before(&out, i, &bv)
            invariant
                i <= out@.len(),
                bv@ == b.name@,
                forall|j: int| 0 <= j < i ==> str_lt(#[trigger] names_of(out@)[j], b.name@),
            decreases out@.len() - i,
        {
            i = i + 1;
        }
        let same = if i < out.len() {
            let cv = chars_of(out[i].name.as_str());
            seq_eq(&cv, &bv)
        } else {
            false
        };
        let ghost names_before = names_of(before);
        if !same {
            out.insert(i, b);
            proof {
                assert(names_of(out@) =~= names_before.insert(i as int, b.name@));
                lemma_insert_ordered(names_before, i as int, b.name@);
                // `b` is the first of its name: no earlier bookmark had it.
                if exists|l: int| 0 <= l < done && input[l].name@ == b.name@ {
                    let l = choose|l: int| 0 <= l < done && input[l].name@ == b.name@;
                    assert(names_of(input.subrange(0, done))[l] == b.name@);
                    assert(names_of(input.subrange(0, done)).contains(b.name@));
                    assert(names_before.contains(b.name@));
                    let q = choose|q: int| 0 <= q < names_before.len() && names_before[q] == b.name@;
                    if q < i {
                        crate::restack_log::lemma_str_lt_total(b.name@, b.name@);
                    } else if q > i {
                        assert(str_lt(names_before[i as int], names_before[q]));
                        crate::restack_log::lemma_str_lt_total(names_before[i as int], b.name@);
                        crate::restack_log::lemma_str_lt_trans(b.name@, names_before[i as int], b.name@);
                        crate::restack_log::lemma_str_lt_total(b.name@, b.name@);
                    }
                }
                assert(first_of_name(input, b)) by {
                    assert(input[done] == b);
                }
                assert forall|k: int| 0 <= k < out@.len() implies first_of_name(input, #[trigger] out@[k]) by {
                    if k < i {
                        assert(out@[k] == before[k]);
                    } else if k > i {
                        assert(out@[k] == before[k - 1]);
                    }
                }
            }
        } else {
            proof {
                assert(names_before[i as int] == b.name@);
                assert(names_before.contains(b.name@));
            }
        }
        proof {
            let pre = names_of(input.subrange(0, done));
            let post = names_of(input.subrange(0, done + 1));
            assert forall|x: Seq<char>| names_of(out@).contains(x) <==> post.contains(x) by {
                assert(post.contains(x) <==> (pre.contains(x) || x == b.name@));
                assert(names_before.contains(x) <==> pre.contains(x));
                if same {
                    assert(names_of(out@) == names_before);
                } else {
                    assert(names_before.insert(i as int, b.name@).contains(x) <==> (
                    names_before.contains(x) || x == b.name@));
                }
            }
            done = done + 1;
        }
    }
    proof {
        assert(input.subrange(0, done) =~= input);
    }
    out
}

} // verus!
