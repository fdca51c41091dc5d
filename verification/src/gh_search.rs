//! Building the GitHub search queries that look up the open PRs of a set of
//! branches, the split of approvers into user logins and team names that the
//! request endpoint wants, and merging of search batches.
use vstd::prelude::*;
use vstd::utf8::encode_utf8;
use crate::text::{concat, push_str, split_once};
use crate::reviewer::Reviewer;
use crate::gh::PrWithCiStatus;
use crate::numbers::contains_u64;

verus! {

/// Longest search query sent in one request, in bytes. GitHub tolerates more
/// in practice; staying well below keeps one long branch name from breaking
/// a whole batch.
pub const MAX_SEARCH_QUERY_LEN: usize = 900;

/// Length of `s` in bytes, as UTF-8.
pub open spec fn byte_len(s: Seq<char>) -> nat {
    encode_utf8(s).len()
}

/// `repo:OWNER/REPO is:pr`, the start of every query.
pub open spec fn search_prefix(owner: Seq<char>, repo: Seq<char>) -> Seq<char> {
    "repo:"@ + owner + "/"@ + repo + " is:pr"@
}

/// ` head:BRANCH`, the term that selects one branch.
pub open spec fn head_term(branch: Seq<char>) -> Seq<char> {
    " head:"@ + branch
}

/// The greedy batching: terms are appended to the current query in order;
/// when the next term would take a query that already holds a term past
/// the limit, that query is closed and a new one begins.
pub open spec fn batches(prefix: Seq<char>, terms: Seq<Seq<char>>, cur: Seq<char>) -> Seq<
    Seq<char>,
>
    decreases terms.len(),
{
    if terms.len() == 0 {
        if cur == prefix {
            seq![]
        } else {
            seq![cur]
        }
    } else {
        let t = terms[0];
        if byte_len(cur) + byte_len(t) > MAX_SEARCH_QUERY_LEN && cur != prefix {
            seq![cur] + batches(prefix, terms.drop_first(), prefix + t)
        } else {
            batches(prefix, terms.drop_first(), cur + t)
        }
    }
}

/// The head terms of `branches`, in order.
pub open spec fn head_terms(branches: Seq<Seq<char>>) -> Seq<Seq<char>> {
    branches.map_values(|b: Seq<char>| head_term(b))
}

/// The queries for `branches` of `owner/repo`.
pub open spec fn search_queries(owner: Seq<char>, repo: Seq<char>, branches: Seq<Seq<char>>) -> Seq<
    Seq<char>,
> {
    let prefix = search_prefix(owner, repo);
    batches(prefix, head_terms(branches), prefix)
}

/// What follows the prefix in each query.
pub open spec fn tails(prefix: Seq<char>, qs: Seq<Seq<char>>) -> Seq<Seq<char>> {
    qs.map_values(|q: Seq<char>| q.subrange(prefix.len() as int, q.len() as int))
}

/// A query fits the limit, or it selects one branch alone.
pub open spec fn fits_or_single(q: Seq<char>, prefix: Seq<char>, terms: Seq<Seq<char>>) -> bool {
    byte_len(q) <= MAX_SEARCH_QUERY_LEN || exists|j: int|
        0 <= j < terms.len() && q == prefix + #[trigger] terms[j]
}

/// `t` is one of `all`.
pub open spec fn member(all: Seq<Seq<char>>, t: Seq<char>) -> bool {
    exists|k: int| 0 <= k < all.len() && #[trigger] all[k] == t
}

/// Bytes of all queries together, were every term in one query.
pub open spec fn total_bytes(owner: Seq<char>, repo: Seq<char>, branches: Seq<Seq<char>>) -> nat {
    byte_len(search_prefix(owner, repo)) + byte_len(head_terms(branches).flatten())
}

/// The UTF-8 encoding of a concatenation is the concatenation of encodings.
pub proof fn lemma_encode_concat(a: Seq<char>, b: Seq<char>)
    ensures
        encode_utf8(a + b) == encode_utf8(a) + encode_utf8(b),
    decreases a.len(),
{
    if a.len() == 0 {
        assert(a + b =~= b);
        assert(encode_utf8(a) =~= Seq::<u8>::empty());
        assert(encode_utf8(a) + encode_utf8(b) =~= encode_utf8(b));
    } else {
        lemma_encode_concat(a.drop_first(), b);
        assert((a + b).drop_first() =~= a.drop_first() + b);
        assert((a + b)[0] == a[0]);
        assert(encode_utf8(a + b) =~= vstd::utf8::encode_scalar(a[0] as u32) + encode_utf8(
            a.drop_first() + b,
        ));
    }
}

proof fn lemma_head_term_nonempty(b: Seq<char>)
    ensures
        head_term(b).len() >= 6,
{
    reveal_strlit(" head:");
}

proof fn lemma_flatten_push(s: Seq<Seq<char>>, t: Seq<char>)
    ensures
        s.push(t).flatten() == s.flatten() + t,
{
    vstd::seq_lib::lemma_flatten_concat(s, seq![t]);
    seq![t].lemma_flatten_one_element();
    assert(s + seq![t] =~= s.push(t));
}

/// The generalised induction behind the laws of `batches`: `cur` is the
/// prefix followed by the terms `done` already taken into it.
proof fn lemma_batches(
    prefix: Seq<char>,
    terms: Seq<Seq<char>>,
    done: Seq<Seq<char>>,
    all: Seq<Seq<char>>,
    cur: Seq<char>,
)
    requires
        cur == prefix + done.flatten(),
        forall|j: int| 0 <= j < terms.len() ==> (#[trigger] terms[j]).len() > 0,
        forall|j: int| 0 <= j < done.len() ==> (#[trigger] done[j]).len() > 0,
        done.len() == 1 ==> exists|j: int| 0 <= j < all.len() && done[0] == #[trigger] all[j],
        done.len() <= 1 || byte_len(cur) <= MAX_SEARCH_QUERY_LEN,
        forall|j: int| 0 <= j < terms.len() ==> member(all, #[trigger] terms[j]),
    ensures
        ({
            let res = batches(prefix, terms, cur);
            &&& forall|k: int|
                0 <= k < res.len() ==> (#[trigger] res[k]).subrange(0, prefix.len() as int)
                    == prefix
            &&& forall|k: int| 0 <= k < res.len() ==> fits_or_single(#[trigger] res[k], prefix, all)
            &&& tails(prefix, res).flatten() == done.flatten() + terms.flatten()
            &&& (res.len() == 0 <==> (done.len() == 0 && terms.len() == 0))
        }),
    decreases terms.len(),
{
    let res = batches(prefix, terms, cur);
    if done.len() > 0 {
        assert(done.flatten().len() > 0) by {
            done.lemma_flatten_length_ge_single_element_length(0);
        }
    } else {
        assert(done.flatten() =~= Seq::<char>::empty());
    }
    assert(cur.subrange(0, prefix.len() as int) == prefix);
    assert(cur.subrange(prefix.len() as int, cur.len() as int) == done.flatten());
    assert(cur == prefix <==> done.len() == 0);
    // A query holding only `done` fits or is single.
    assert(done.len() > 0 ==> fits_or_single(cur, prefix, all)) by {
        if done.len() == 1 && byte_len(cur) > MAX_SEARCH_QUERY_LEN {
            let j = choose|j: int| 0 <= j < all.len() && done[0] == #[trigger] all[j];
            assert(done.flatten() =~= done[0]) by {
                done.lemma_flatten_one_element();
            }
            assert(cur == prefix + all[j]);
        }
    }
    if terms.len() == 0 {
        assert(terms.flatten() =~= Seq::<char>::empty());
        if cur == prefix {
            assert(tails(prefix, res) =~= Seq::<Seq<char>>::empty());
            assert(done.flatten() + terms.flatten() =~= Seq::<char>::empty());
        } else {
            assert(res =~= seq![cur]);
            assert(tails(prefix, res) =~= seq![done.flatten()]);
            assert(seq![done.flatten()].flatten() =~= done.flatten()) by {
                seq![done.flatten()].lemma_flatten_one_element();
            }
            assert(done.flatten() + terms.flatten() =~= done.flatten());
        }
    } else {
        let t = terms[0];
        let rest = terms.drop_first();
        assert(terms.flatten() == t + rest.flatten());
        assert forall|j: int| 0 <= j < rest.len() implies (#[trigger] rest[j]).len() > 0 by {
            assert(rest[j] == terms[j + 1]);
        }
        assert forall|j: int| 0 <= j < rest.len() implies member(all, #[trigger] rest[j]) by {
            assert(rest[j] == terms[j + 1]);
        }
        assert(member(all, terms[0]));
        let k0 = choose|k: int| 0 <= k < all.len() && #[trigger] all[k] == terms[0];
        assert(t.len() > 0);
        lemma_encode_concat(cur, t);
        if byte_len(cur) + byte_len(t) > MAX_SEARCH_QUERY_LEN && cur != prefix {
            let fresh = prefix + t;
            let d2 = seq![t];
            assert(d2.flatten() =~= t) by {
                d2.lemma_flatten_one_element();
            }
            assert(d2[0] == all[k0]);
            lemma_batches(prefix, rest, d2, all, fresh);
            let sub = batches(prefix, rest, fresh);
            assert(res == seq![cur] + sub);
            assert(tails(prefix, res) =~= seq![done.flatten()] + tails(prefix, sub));
            vstd::seq_lib::lemma_flatten_concat(seq![done.flatten()], tails(prefix, sub));
            assert(seq![done.flatten()].flatten() =~= done.flatten()) by {
                seq![done.flatten()].lemma_flatten_one_element();
            }
            assert(done.flatten() + (t + rest.flatten()) =~= done.flatten() + t
                + rest.flatten());
            assert forall|k: int| 0 <= k < res.len() implies (#[trigger] res[k]).subrange(
                0,
                prefix.len() as int,
            ) == prefix by {
                if k > 0 {
                    assert(res[k] == sub[k - 1]);
                }
            }
            assert forall|k: int| 0 <= k < res.len() implies fits_or_single(
                #[trigger] res[k],
                prefix,
                all,
            ) by {
                if k > 0 {
                    assert(res[k] == sub[k - 1]);
                }
            }
        } else {
            let d2 = done.push(t);
            lemma_flatten_push(done, t);
            assert(cur + t =~= prefix + d2.flatten());
            assert forall|j: int| 0 <= j < d2.len() implies (#[trigger] d2[j]).len() > 0 by {
                if j < done.len() {
                    assert(d2[j] == done[j]);
                }
            }
            if done.len() == 0 {
                assert(d2[0] == all[k0]);
            }
            lemma_batches(prefix, rest, d2, all, cur + t);
            assert(d2.flatten() + rest.flatten() =~= done.flatten() + (t + rest.flatten()));
        }
    }
}

/// Laws of the search queries: every query starts with the repository
/// prefix; every query fits the limit unless it selects a single branch
/// that is too long alone; the queries select every branch once, in order;
/// and there are queries exactly when there are branches.
pub proof fn lemma_search_query_laws(owner: Seq<char>, repo: Seq<char>, branches: Seq<Seq<char>>)
    ensures
        ({
            let prefix = search_prefix(owner, repo);
            let qs = search_queries(owner, repo, branches);
            &&& forall|k: int|
                0 <= k < qs.len() ==> (#[trigger] qs[k]).subrange(0, prefix.len() as int)
                    == prefix
            &&& forall|k: int|
                0 <= k < qs.len() ==> fits_or_single(#[trigger] qs[k], prefix, head_terms(branches))
            &&& tails(prefix, qs).flatten() == head_terms(branches).flatten()
            &&& (qs.len() == 0 <==> branches.len() == 0)
        }),
{
    let prefix = search_prefix(owner, repo);
    let terms = head_terms(branches);
    let empty = Seq::<Seq<char>>::empty();
    assert(empty.flatten() =~= Seq::<char>::empty());
    assert(prefix + empty.flatten() =~= prefix);
    assert forall|j: int| 0 <= j < terms.len() implies (#[trigger] terms[j]).len() > 0 by {
        lemma_head_term_nonempty(branches[j]);
    }
    assert forall|j: int| 0 <= j < terms.len() implies member(terms, #[trigger] terms[j]) by {
        assert(terms[j] == terms[j]);
    }
    lemma_batches(prefix, terms, empty, terms, prefix);
    assert(empty.flatten() + terms.flatten() =~= terms.flatten());
}

proof fn lemma_flatten_prefix_bytes(terms: Seq<Seq<char>>, i: int)
    requires
        0 <= i <= terms.len(),
    ensures
        byte_len(terms.subrange(0, i).flatten()) <= byte_len(terms.flatten()),
        byte_len(terms.subrange(i, terms.len() as int).flatten()) <= byte_len(terms.flatten()),
        terms.flatten() == terms.subrange(0, i).flatten() + terms.subrange(i, terms.len() as int).flatten(),
{
    vstd::seq_lib::lemma_flatten_concat(terms.subrange(0, i), terms.subrange(i, terms.len() as int));
    assert(terms.subrange(0, i) + terms.subrange(i, terms.len() as int) =~= terms);
    lemma_encode_concat(terms.subrange(0, i).flatten(), terms.subrange(i, terms.len() as int).flatten());
}

/// Splits `branches` into search queries of the form
/// `repo:OWNER/REPO is:pr head:B1 head:B2 ...`, each at most
/// `MAX_SEARCH_QUERY_LEN` bytes unless one branch alone is longer.
pub fn build_search_queries(owner: &str, repo: &str, branches: &[String]) -> (r: Vec<String>)
    requires
        total_bytes(owner@, repo@, branches@.map_values(|b: String| b@)) <= usize::MAX,
    ensures
        r@.map_values(|q: String| q@) == search_queries(
            owner@,
            repo@,
            branches@.map_values(|b: String| b@),
        ),
{
    let ghost views = branches@.map_values(|b: String| b@);
    let ghost terms = head_terms(views);
    let mut prefix = concat("repo:", owner);
    push_str(&mut prefix, "/");
    push_str(&mut prefix, repo);
    push_str(&mut prefix, " is:pr");
    let ghost p = prefix@;
    assert(p == search_prefix(owner@, repo@));
    let mut queries: Vec<String> = Vec::new();
    let mut current = prefix.clone();
    let ghost mut taken: int = 0;
    let mut i: usize = 0;
    proof {
        assert(queries@.map_values(|q: String| q@) =~= Seq::<Seq<char>>::empty());
        assert(terms.subrange(0, terms.len() as int) =~= terms);
        assert(terms.subrange(0, 0) =~= Seq::<Seq<char>>::empty());
        assert(Seq::<Seq<char>>::empty().flatten() =~= Seq::<char>::empty());
        assert(p + Seq::<char>::empty() =~= p);
    }
    while i < branches.len()
        invariant
            i <= branches.len(),
            views == branches@.map_values(|b: String| b@),
            terms == head_terms(views),
            prefix@ == p,
            p == search_prefix(owner@, repo@),
            byte_len(p) + byte_len(terms.flatten()) <= usize::MAX,
            0 <= taken <= i,
            current@ == p + terms.subrange(taken, i as int).flatten(),
            queries@.map_values(|q: String| q@) + batches(
                p,
                terms.subrange(i as int, terms.len() as int),
                current@,
            ) == batches(p, terms, p),
        decreases branches.len() - i,
    {
        let addition = concat(" head:", branches[i].as_str());
        assert(addition@ == terms[i as int]);
        proof {
            lemma_flatten_prefix_bytes(terms, i as int);
            lemma_flatten_prefix_bytes(terms.subrange(0, i as int), taken);
            assert(terms.subrange(0, i as int).subrange(taken, i as int) =~= terms.subrange(
                taken,
                i as int,
            ));
            lemma_encode_concat(p, terms.subrange(taken, i as int).flatten());
            lemma_flatten_prefix_bytes(terms, i + 1);
            lemma_flatten_prefix_bytes(terms.subrange(0, i + 1), i as int);
            assert(terms.subrange(0, i + 1).subrange(i as int, i + 1) =~= seq![terms[i as int]]);
            assert(seq![terms[i as int]].flatten() =~= terms[i as int]) by {
                seq![terms[i as int]].lemma_flatten_one_element();
            }
            assert(terms.subrange(0, i + 1).subrange(0, i as int) =~= terms.subrange(0, i as int));
        }
        let cl = current.as_str().len();
        let al = addition.as_str().len();
        let ghost rest = terms.subrange(i as int, terms.len() as int);
        proof {
            assert(rest[0] == terms[i as int]);
            assert(rest.drop_first() =~= terms.subrange(i + 1, terms.len() as int));
            assert(current@ == p <==> taken == i) by {
                if taken < i {
                    lemma_head_term_nonempty(views[taken]);
                    terms.subrange(taken, i as int).lemma_flatten_length_ge_single_element_length(0);
                } else {
                    assert(terms.subrange(taken, i as int) =~= Seq::<Seq<char>>::empty());
                    assert(Seq::<Seq<char>>::empty().flatten() =~= Seq::<char>::empty());
                    assert(p + Seq::<char>::empty() =~= p);
                }
            }
        }
        let over = cl > MAX_SEARCH_QUERY_LEN || al > MAX_SEARCH_QUERY_LEN - cl;
        let ghost old_q = queries@.map_values(|q: String| q@);
        let ghost old_cur = current@;
        let ghost t = terms[i as int];
        let ghost mut flushed = false;
        proof {
            let seg = terms.subrange(taken, i as int).flatten();
            assert(byte_len(seg) <= byte_len(terms.subrange(0, i as int).flatten()));
            assert(byte_len(seg) <= byte_len(terms.flatten()));
            lemma_encode_concat(p, seg);
            assert(byte_len(old_cur) == byte_len(p) + byte_len(seg));
            assert(byte_len(old_cur) <= usize::MAX);
            assert(byte_len(t) <= byte_len(terms.subrange(0, i + 1).flatten()));
            assert(cl == byte_len(old_cur));
            assert(al == byte_len(t));
            assert(over == (byte_len(old_cur) + byte_len(t) > MAX_SEARCH_QUERY_LEN));
        }
        if over && !crate::text::str_eq(current.as_str(), prefix.as_str()) {
            let done = current;
            queries.push(done);
            current = prefix.clone();
            proof {
                assert(queries@.map_values(|q: String| q@) =~= old_q.push(old_cur));
                assert(batches(p, rest, old_cur) == seq![old_cur] + batches(
                    p,
                    rest.drop_first(),
                    p + t,
                ));
                taken = i as int;
                flushed = true;
                assert(terms.subrange(taken, i as int) =~= Seq::<Seq<char>>::empty());
                assert(Seq::<Seq<char>>::empty().flatten() =~= Seq::<char>::empty());
                assert(p + Seq::<char>::empty() =~= p);
            }
        } else {
            proof {
                assert(batches(p, rest, old_cur) == batches(p, rest.drop_first(), old_cur + t));
            }
        }
        push_str(&mut current, addition.as_str());
        proof {
            lemma_flatten_push(terms.subrange(taken, i as int), terms[i as int]);
            assert(terms.subrange(taken, i as int).push(terms[i as int]) =~= terms.subrange(
                taken,
                i + 1,
            ));
            let nq = queries@.map_values(|q: String| q@);
            if flushed {
                assert(current@ == p + t);
                assert(nq + batches(p, rest.drop_first(), p + t) =~= old_q + (seq![old_cur]
                    + batches(p, rest.drop_first(), p + t))) by {
                    assert(nq =~= old_q.push(old_cur));
                }
            }
        }
        i = i + 1;
    }
    proof {
        assert(terms.subrange(i as int, terms.len() as int) =~= Seq::<Seq<char>>::empty());
    }
    if !crate::text::str_eq(current.as_str(), prefix.as_str()) {
        queries.push(current);
        proof {
            assert(queries@.map_values(|q: String| q@) =~= queries@.drop_last().map_values(
                |q: String| q@,
            ).push(current@));
        }
    }
    queries
}


/// A user approver: a slug without an organisation part.
pub open spec fn user_of(slug: Seq<char>) -> Option<Seq<char>> {
    if split_once(slug, seq!['/']) is None {
        Some(slug)
    } else {
        None
    }
}

/// A team approver: the team name after `org/`.
pub open spec fn team_of(slug: Seq<char>) -> Option<Seq<char>> {
    match split_once(slug, seq!['/']) {
        Some((_, name)) => Some(name),
        None => None,
    }
}

/// Splits approvers into `(user_logins, team_names)` as the request
/// endpoint expects, team names without their organisation prefix; the
/// order of each list is the order of `approvers`.
pub fn split_users_and_teams(reviewers: &[Reviewer]) -> (r: (Vec<String>, Vec<String>))
    ensures
        r.0@.map_values(|u: String| u@) == reviewers@.map_values(|x: Reviewer| x.view()).filter_map(
            |s: Seq<char>| user_of(s),
        ),
        r.1@.map_values(|t: String| t@) == reviewers@.map_values(|x: Reviewer| x.view()).filter_map(
            |s: Seq<char>| team_of(s),
        ),
{
    let ghost views = reviewers@.map_values(|x: Reviewer| x.view());
    let mut users: Vec<String> = Vec::new();
    let mut teams: Vec<String> = Vec::new();
    let mut i: usize = 0;
    while i < reviewers.len()
        invariant
            i <= reviewers.len(),
            views == reviewers@.map_values(|x: Reviewer| x.view()),
            users@.map_values(|u: String| u@) == views.subrange(0, i as int).filter_map(
                |s: Seq<char>| user_of(s),
            ),
            teams@.map_values(|t: String| t@) == views.subrange(0, i as int).filter_map(
                |s: Seq<char>| team_of(s),
            ),
        decreases reviewers.len() - i,
    {
        let ghost pre_u = users@.map_values(|u: String| u@);
        let ghost pre_t = teams@.map_values(|t: String| t@);
        proof {
            assert(views.subrange(0, i + 1).drop_last() =~= views.subrange(0, i as int));
            assert(views.subrange(0, i + 1).last() == reviewers@[i as int].view());
        }
        let rev = &reviewers[i];
        match rev.team_name() {
            Some(name) => {
                teams.push(crate::text::owned(name));
                proof {
                    assert(teams@.map_values(|t: String| t@) =~= pre_t + seq![name@]);
                }
            },
            None => {
                users.push(crate::text::owned(rev.slug()));
                proof {
                    assert(users@.map_values(|u: String| u@) =~= pre_u + seq![rev.view()]);
                }
            },
        }
        i = i + 1;
    }
    proof {
        assert(views.subrange(0, i as int) =~= views);
    }
    (users, teams)
}

/// Numbers of `prs`, in order.
pub open spec fn numbers_of(prs: Seq<PrWithCiStatus>) -> Seq<u64> {
    prs.map_values(|p: PrWithCiStatus| p.number)
}

/// The PRs of `batch` whose number is not in `seen` nor taken earlier from
/// the batch, in batch order.
pub open spec fn keep_new(seen: Seq<u64>, batch: Seq<PrWithCiStatus>) -> Seq<PrWithCiStatus>
    decreases batch.len(),
{
    if batch.len() == 0 {
        Seq::empty()
    } else {
        let p = batch[0];
        if seen.contains(p.number) {
            keep_new(seen, batch.drop_first())
        } else {
            seq![p] + keep_new(seen.push(p.number), batch.drop_first())
        }
    }
}

/// Appends to `out` the PRs of one search batch that it does not hold yet,
/// by number: a PR found by two batches is kept once, as first found.
pub fn merge_new_prs(out: &mut Vec<PrWithCiStatus>, batch: Vec<PrWithCiStatus>)
    ensures
        final(out)@ == old(out)@ + keep_new(numbers_of(old(out)@), batch@),
{
    let ghost start = out@;
    let mut seen: Vec<u64> = Vec::new();
    let mut k: usize = 0;
    while k < out.len()
        invariant
            k <= out.len(),
            out@ == start,
            seen@ == numbers_of(out@).subrange(0, k as int),
        decreases out.len() - k,
    {
        seen.push(out[k].number);
        proof {
            assert(seen@ =~= numbers_of(out@).subrange(0, k + 1));
        }
        k = k + 1;
    }
    proof {
        assert(seen@ =~= numbers_of(out@));
    }
    let mut rest = batch;
    while rest.len() > 0
        invariant
            seen@ == numbers_of(out@),
            out@ + keep_new(seen@, rest@) == start + keep_new(numbers_of(start), batch@),
        decreases rest.len(),
    {
        let ghost before = rest@;
        let ghost out0 = out@;
        let p = rest.remove(0);
        proof {
            assert(rest@ =~= before.drop_first());
        }
        if contains_u64(seen.as_slice(), p.number) {
        } else {
            let n = p.number;
            out.push(p);
            seen.push(n);
            proof {
                assert(seen@ =~= numbers_of(out@));
                assert(out@ + keep_new(seen@, rest@) =~= out0 + (seq![before[0]] + keep_new(
                    numbers_of(out0).push(n),
                    rest@,
                )));
            }
        }
    }
    proof {
        assert(out@ + Seq::<PrWithCiStatus>::empty() =~= out@);
    }
}

} // verus!
