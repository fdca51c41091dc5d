//! Reading the `jj log` captured for the restack screen.
//!
//! The user's log template is wrapped so that each commit row carries its
//! commit id between two invisible Private-Use markers (`U+E000` open,
//! `U+E001` close). After capture the markers are stripped from each line
//! and the line of every commit is recorded, which is how the screen knows
//! which row to highlight for the focused PR.

use crate::gh::PrWithCiStatus;
use crate::jj::PushedBookmark;
use crate::restack::PrPlan;
use crate::text::{
    chars_of, concat, decimal, find, find_from, find_in, first_at, lines, lines_of, owned,
    push_chars, push_decimal, push_str, str_eq, string_from, string_from_range, trim, trimmed,
};
use vstd::prelude::*;

verus! {

/// Marker before the commit id on a log row.
pub const SENTINEL_OPEN: char = '\u{E000}';

/// Marker after the commit id on a log row.
pub const SENTINEL_CLOSE: char = '\u{E001}';

/// The escape character that starts an ANSI sequence.
pub const ESCAPE: char = '\u{1b}';

/// Whether `c` is an ASCII letter.
pub open spec fn is_ascii_alpha(c: char) -> bool {
    ('a' <= c && c <= 'z') || ('A' <= c && c <= 'Z')
}

/// Whether `c` is an ASCII hexadecimal digit.
pub open spec fn is_ascii_hex(c: char) -> bool {
    ('0' <= c && c <= '9') || ('a' <= c && c <= 'f') || ('A' <= c && c <= 'F')
}

/// The position just past the first ASCII letter at or after `i` (the end
/// of a CSI sequence), or the end of `s`.
pub open spec fn csi_end(s: Seq<char>, i: int) -> int
    decreases s.len() - i,
{
    if i < 0 || i >= s.len() {
        s.len() as int
    } else if is_ascii_alpha(s[i]) {
        i + 1
    } else {
        csi_end(s, i + 1)
    }
}

/// Lemma: a CSI sequence ends after it starts.
pub proof fn lemma_csi_end(s: Seq<char>, i: int)
    requires
        0 <= i,
    ensures
        i <= s.len() ==> i <= csi_end(s, i) <= s.len(),
    decreases s.len() - i,
{
    if i < s.len() && !is_ascii_alpha(s[i]) {
        lemma_csi_end(s, i + 1);
    }
}

/// `s[i..]` without ANSI escapes: `ESC [` starts a CSI sequence that runs
/// through the next ASCII letter; `ESC` followed by anything else drops both
/// characters.
pub open spec fn strip_ansi_from(s: Seq<char>, i: int) -> Seq<char>
    decreases s.len() - i,
{
    if i < 0 || i >= s.len() {
        seq![]
    } else if s[i] == ESCAPE {
        if i + 1 < s.len() && s[i + 1] == '[' {
            proof {
                lemma_csi_end(s, i + 2);
            }
            strip_ansi_from(s, csi_end(s, i + 2))
        } else if i + 1 < s.len() {
            strip_ansi_from(s, i + 2)
        } else {
            seq![]
        }
    } else {
        seq![s[i]] + strip_ansi_from(s, i + 1)
    }
}

fn is_alpha(c: char) -> (r: bool)
    ensures
        r == is_ascii_alpha(c),
{
    ('a' <= c && c <= 'z') || ('A' <= c && c <= 'Z')
}

fn is_hex(c: char) -> (r: bool)
    ensures
        r == is_ascii_hex(c),
{
    ('0' <= c && c <= '9') || ('a' <= c && c <= 'f') || ('A' <= c && c <= 'F')
}

/// Strip ANSI CSI escapes (`ESC [ ... letter`) from `s`.
pub fn strip_ansi(s: &str) -> (r: String)
    ensures
        r@ == strip_ansi_from(s@, 0),
{
    let v = chars_of(s);
    let mut out = String::new();
    let mut i: usize = 0;
    while i < v.len()
        invariant
            i <= v@.len(),
            out@ + strip_ansi_from(v@, i as int) == strip_ansi_from(v@, 0),
        decreases v@.len() - i,
    {
        let ghost before = out@;
        if v[i] == ESCAPE {
            if i + 1 < v.len() && v[i + 1] == '[' {
                let mut j: usize = i + 2;
                while j < v.len() && !is_alpha(v[j])
                    invariant
                        i + 2 <= j <= v@.len(),
                        csi_end(v@, i + 2) == csi_end(v@, j as int),
                    decreases v@.len() - j,
                {
                    j = j + 1;
                }
                let next = if j < v.len() {
                    j + 1
                } else {
                    j
                };
                assert(next == csi_end(v@, i + 2));
                i = next;
            } else if i + 1 < v.len() {
                i = i + 2;
            } else {
                i = v.len();
                proof {
                    assert(before + Seq::<char>::empty() =~= before);
                }
            }
        } else {
            out.push(v[i]);
            proof {
                assert(before + (seq![v@[i as int]] + strip_ansi_from(v@, i + 1)) =~= out@
                    + strip_ansi_from(v@, i + 1));
            }
            i = i + 1;
        }
    }
    proof {
        assert(out@ + Seq::<char>::empty() =~= out@);
    }
    out
}

/// Whether every character of `v` is an ASCII hexadecimal digit.
fn all_hex(v: &Vec<char>) -> (r: bool)
    ensures
        r == forall|k: int| 0 <= k < v@.len() ==> is_ascii_hex(#[trigger] v@[k]),
{
    let mut k: usize = 0;
    while k < v.len()
        invariant
            k <= v@.len(),
            forall|m: int| 0 <= m < k ==> is_ascii_hex(#[trigger] v@[m]),
        decreases v@.len() - k,
    {
        if !is_hex(v[k]) {
            assert(!is_ascii_hex(v@[k as int]));
            return false;
        }
        k = k + 1;
    }
    true
}

/// What a log row holds: the row with its markers and the id between them
/// removed, and the 40-hex commit id, when the row carries one.
pub open spec fn sentinel_view(line: Seq<char>) -> (Seq<char>, Option<Seq<char>>) {
    match find(line, seq![SENTINEL_OPEN]) {
        None => (line, None),
        Some(open) => match first_at(line, seq![SENTINEL_CLOSE], open + 1) {
            None => (line, None),
            Some(close) => {
                let id = strip_ansi_from(line.subrange(open + 1, close), 0);
                if id.len() == 40 && forall|k: int| 0 <= k < 40 ==> is_ascii_hex(#[trigger] id[k]) {
                    (line.subrange(0, open) + line.subrange(close + 1, line.len() as int), Some(id))
                } else {
                    (line, None)
                }
            },
        },
    }
}

/// Split a captured log row into the row to display and the commit id the
/// markers bracket. A row without a valid pair of markers around a 40-hex id
/// (after removing color escapes) passes through unchanged, with no id.
pub fn strip_sentinel(line: &str) -> (r: (String, Option<String>))
    ensures
        r.0@ == sentinel_view(line@).0,
        match r.1 {
            Some(id) => sentinel_view(line@).1 == Some(id@),
            None => sentinel_view(line@).1 is None,
        },
{
    let v = chars_of(line);
    let open_m = vec![SENTINEL_OPEN];
    let close_m = vec![SENTINEL_CLOSE];
    assert(open_m@ =~= seq![SENTINEL_OPEN]);
    assert(close_m@ =~= seq![SENTINEL_CLOSE]);
    let n = v.len();
    let open = match find_in(&v, &open_m) {
        Some(i) => {
            assert(i + 1 <= n);
            i
        },
        None => {
            return (owned(line), None);
        },
    };
    let close = match find_from(&v, &close_m, open + 1) {
        Some(i) => {
            assert(i + 1 <= n);
            i
        },
        None => {
            return (owned(line), None);
        },
    };
    let raw = string_from_range(&v, open + 1, close);
    let id = strip_ansi(raw.as_str());
    let idv = chars_of(id.as_str());
    proof {
        assert(find(line@, seq![SENTINEL_OPEN]) == Some(open as int));
        assert(first_at(line@, seq![SENTINEL_CLOSE], open + 1) == Some(close as int));
        assert(strip_ansi_from(line@.subrange(open + 1, close as int), 0) == idv@);
    }
    if idv.len() != 40 {
        return (owned(line), None);
    }
    if !all_hex(&idv) {
        return (owned(line), None);
    }
    let mut cleaned = string_from_range(&v, 0, open);
    let tail = string_from_range(&v, close + 1, v.len());
    push_str(&mut cleaned, tail.as_str());
    (cleaned, Some(id))
}

/// The commit ids of the first `k` rows of `rows`, as [`sentinel_view`]
/// reads them.
pub open spec fn row_id(rows: Seq<Seq<char>>, i: int) -> Option<Seq<char>> {
    sentinel_view(rows[i]).1
}

/// The first of the first `k` rows that carries commit `id`.
pub open spec fn first_row_with(rows: Seq<Seq<char>>, id: Seq<char>, k: int) -> Option<int>
    decreases k,
{
    if k <= 0 {
        None
    } else {
        match first_row_with(rows, id, k - 1) {
            Some(r) => Some(r),
            None => if row_id(rows, k - 1) == Some(id) {
                Some(k - 1)
            } else {
                None
            },
        }
    }
}

/// The line recorded for `id` in a list of `(id, line)` entries with
/// distinct ids.
pub open spec fn entry_line(entries: Seq<(String, usize)>, id: Seq<char>) -> Option<usize>
    decreases entries.len(),
{
    if entries.len() == 0 {
        None
    } else if entries.last().0@ == id {
        Some(entries.last().1)
    } else {
        entry_line(entries.drop_last(), id)
    }
}

fn find_entry(entries: &Vec<(String, usize)>, id: &str) -> (r: Option<usize>)
    ensures
        r == entry_line(entries@, id@),
{
    let mut k: usize = entries.len();
    assert(entries@.subrange(0, entries@.len() as int) =~= entries@);
    while k > 0
        invariant
            k <= entries@.len(),
            entry_line(entries@, id@) == entry_line(entries@.subrange(0, k as int), id@),
        decreases k,
    {
        let ghost pre = entries@.subrange(0, k as int);
        assert(pre.drop_last() =~= entries@.subrange(0, k - 1));
        if str_eq(entries[k - 1].0.as_str(), id) {
            return Some(entries[k - 1].1);
        }
        k = k - 1;
    }
    None
}

/// Walk the captured log line by line: strip the markers from each row and
/// record, for each commit id, the first row that carries it.
pub fn parse_sentinel_lines(raw: &str) -> (r: (Vec<String>, Vec<(String, usize)>))
    ensures
        r.0@.len() == lines(raw@).len(),
        forall|i: int|
            0 <= i < r.0@.len() ==> (#[trigger] r.0@[i])@ == sentinel_view(lines(raw@)[i]).0,
        forall|id: Seq<char>| #[trigger]
            entry_line(r.1@, id) == match first_row_with(lines(raw@), id, lines(raw@).len() as int) {
                Some(row) => Some(row as usize),
                None => None,
            },
{
    let rows = lines_of(raw);
    let ghost rv = lines(raw@);
    let mut out_lines: Vec<String> = Vec::new();
    let mut commits: Vec<(String, usize)> = Vec::new();
    let mut i: usize = 0;
    while i < rows.len()
        invariant
            rows@.map_values(|l: String| l@) == rv,
            rv == lines(raw@),
            i <= rows@.len(),
            out_lines@.len() == i,
            forall|j: int| 0 <= j < i ==> (#[trigger] out_lines@[j])@ == sentinel_view(rv[j]).0,
            forall|id: Seq<char>| #[trigger]
                entry_line(commits@, id) == match first_row_with(rv, id, i as int) {
                    Some(row) => Some(row as usize),
                    None => None,
                },
        decreases rows@.len() - i,
    {
        assert(rows@[i as int]@ == rv[i as int]);
        let (cleaned, commit) = strip_sentinel(rows[i].as_str());
        let ghost before = commits@;
        match commit {
            Some(id) => {
                if find_entry(&commits, id.as_str()).is_none() {
                    let ghost idg = id@;
                    proof {
                        assert(row_id(rv, i as int) == Some(idg));
                        assert(first_row_with(rv, idg, i as int) is None);
                    }
                    commits.push((id, i));
                    proof {
                        assert(commits@.drop_last() =~= before);
                        assert forall|x: Seq<char>| #[trigger]
                            entry_line(commits@, x) == match first_row_with(rv, x, i + 1) {
                                Some(row) => Some(row as usize),
                                None => None,
                            } by {
                            if x != idg {
                                assert(entry_line(commits@, x) == entry_line(before, x));
                            }
                        }
                    }
                } else {
                    proof {
                        assert forall|x: Seq<char>| #[trigger]
                            entry_line(commits@, x) == match first_row_with(rv, x, i + 1) {
                                Some(row) => Some(row as usize),
                                None => None,
                            } by {
                            assert(row_id(rv, i as int) == Some(id@));
                            if x == id@ {
                                assert(entry_line(before, x) is Some);
                            }
                        }
                    }
                }
            },
            None => {
                proof {
                    assert forall|x: Seq<char>| #[trigger]
                        entry_line(commits@, x) == match first_row_with(rv, x, i + 1) {
                            Some(row) => Some(row as usize),
                            None => None,
                        } by {}
                }
            },
        }
        out_lines.push(cleaned);
        i = i + 1;
    }
    (out_lines, commits)
}

/// The log row of each plan's local commit, as `(PR number, row)` entries in
/// plan order; plans whose commit has no row are left out.
pub fn commit_map_to_pr_map(commits: &Vec<(String, usize)>, plans: &[PrPlan]) -> (r: Vec<
    (u64, usize),
>)
    ensures
        r@ == rows_of_plans(commits@, plans@, plans@.len() as int),
{
    let mut out: Vec<(u64, usize)> = Vec::new();
    let mut k: usize = 0;
    while k < plans.len()
        invariant
            k <= plans@.len(),
            out@ == rows_of_plans(commits@, plans@, k as int),
        decreases plans@.len() - k,
    {
        if let Some(line) = find_entry(commits, plans[k].local_commit_id.as_str()) {
            out.push((plans[k].pr_number, line));
        }
        k = k + 1;
    }
    out
}

/// `(PR number, row)` for the first `k` plans whose commit has a row.
pub open spec fn rows_of_plans(commits: Seq<(String, usize)>, plans: Seq<PrPlan>, k: int) -> Seq<
    (u64, usize),
>
    decreases k,
{
    if k <= 0 {
        seq![]
    } else {
        let rest = rows_of_plans(commits, plans, k - 1);
        match entry_line(commits, plans[k - 1].local_commit_id@) {
            Some(line) => rest.push((plans[k - 1].pr_number, line)),
            None => rest,
        }
    }
}

/// `a` sorts strictly before `b`, comparing characters by code point.
pub open spec fn str_lt(a: Seq<char>, b: Seq<char>) -> bool
    decreases a.len(),
{
    if a.len() == 0 {
        b.len() > 0
    } else if b.len() == 0 {
        false
    } else if a[0] != b[0] {
        a[0] < b[0]
    } else {
        str_lt(a.drop_first(), b.drop_first())
    }
}

/// Lemma: `str_lt` is a strict total order.
pub proof fn lemma_str_lt_total(a: Seq<char>, b: Seq<char>)
    ensures
        a != b ==> (str_lt(a, b) || str_lt(b, a)),
        !(str_lt(a, b) && str_lt(b, a)),
        !str_lt(a, a),
    decreases a.len(),
{
    if a.len() > 0 && b.len() > 0 && a[0] == b[0] {
        lemma_str_lt_total(a.drop_first(), b.drop_first());
        if a != b {
            assert(a.drop_first() != b.drop_first()) by {
                if a.drop_first() == b.drop_first() {
                    assert(a =~= seq![a[0]] + a.drop_first());
                    assert(b =~= seq![b[0]] + b.drop_first());
                }
            }
        }
    } else if a.len() == 0 && b.len() == 0 {
        assert(a =~= b);
    }
    if a.len() > 0 {
        lemma_str_lt_total(a.drop_first(), a.drop_first());
    }
}

/// Lemma: `str_lt` is transitive.
pub proof fn lemma_str_lt_trans(a: Seq<char>, b: Seq<char>, c: Seq<char>)
    requires
        str_lt(a, b),
        str_lt(b, c),
    ensures
        str_lt(a, c),
    decreases a.len(),
{
    if a.len() > 0 && b.len() > 0 && c.len() > 0 && a[0] == b[0] && b[0] == c[0] {
        lemma_str_lt_trans(a.drop_first(), b.drop_first(), c.drop_first());
    }
}

pub fn less_than(a: &Vec<char>, b: &Vec<char>) -> (r: bool)
    ensures
        r == str_lt(a@, b@),
{
    let mut i: usize = 0;
    assert(a@.subrange(0, a@.len() as int) =~= a@);
    assert(b@.subrange(0, b@.len() as int) =~= b@);
    while i < a.len() && i < b.len() && a[i] == b[i]
        invariant
            i <= a@.len(),
            i <= b@.len(),
            str_lt(a@, b@) == str_lt(a@.subrange(i as int, a@.len() as int), b@.subrange(i as int, b@.len() as int)),
        decreases a@.len() - i,
    {
        let ghost sa = a@.subrange(i as int, a@.len() as int);
        let ghost sb = b@.subrange(i as int, b@.len() as int);
        assert(sa.drop_first() =~= a@.subrange(i + 1, a@.len() as int));
        assert(sb.drop_first() =~= b@.subrange(i + 1, b@.len() as int));
        i = i + 1;
    }
    let ghost sa = a@.subrange(i as int, a@.len() as int);
    let ghost sb = b@.subrange(i as int, b@.len() as int);
    if i == a.len() {
        assert(sa.len() == 0);
        i < b.len()
    } else if i == b.len() {
        false
    } else {
        assert(sa[0] == a@[i as int] && sb[0] == b@[i as int]);
        a[i] < b[i]
    }
}

/// `v` is strictly increasing in [`str_lt`] order.
pub open spec fn strictly_ordered(v: Seq<Seq<char>>) -> bool {
    forall|i: int, j: int| 0 <= i < j < v.len() ==> str_lt(v[i], v[j])
}

/// Insert `s` into the strictly ordered `v`; no-op when it is already there.
fn insert_ordered(v: &mut Vec<String>, s: String)
    requires
        strictly_ordered(views_of(old(v)@)),
    ensures
        strictly_ordered(views_of(final(v)@)),
        forall|x: Seq<char>| views_of(final(v)@).contains(x) <==> (views_of(old(v)@).contains(x) || x == s@),
{
    let sv = chars_of(s.as_str());
    let mut i: usize = 0;
    while i < v.len() && lt_at(v, i, &sv)
        invariant
            i <= v@.len(),
            sv@ == s@,
            forall|j: int| 0 <= j < i ==> str_lt(#[trigger] views_of(v@)[j], s@),
        decreases v@.len() - i,
    {
        i = i + 1;
    }
    let ghost before = views_of(v@);
    let same = if i < v.len() {
        let cv = chars_of(v[i].as_str());
        crate::text::seq_eq(&cv, &sv)
    } else {
        false
    };
    if !same {
        v.insert(i, s);
        proof {
            assert(views_of(v@) =~= before.insert(i as int, sv@));
            lemma_insert_ordered(before, i as int, sv@);
        }
    } else {
        proof {
            assert(before[i as int] == sv@);
        }
    }
}

fn lt_at(v: &Vec<String>, i: usize, s: &Vec<char>) -> (r: bool)
    requires
        i < v@.len(),
    ensures
        r == str_lt(views_of(v@)[i as int], s@),
{
    let cv = chars_of(v[i].as_str());
    less_than(&cv, s)
}

/// The views of a list of strings.
pub open spec fn views_of(v: Seq<String>) -> Seq<Seq<char>> {
    v.map_values(|s: String| s@)
}

/// Lemma: inserting `x` at its ordered position keeps the order and adds `x`.
pub proof fn lemma_insert_ordered(before: Seq<Seq<char>>, i: int, x: Seq<char>)
    requires
        strictly_ordered(before),
        0 <= i <= before.len(),
        forall|j: int| 0 <= j < i ==> str_lt(#[trigger] before[j], x),
        i < before.len() ==> !str_lt(before[i], x) && before[i] != x,
    ensures
        strictly_ordered(before.insert(i, x)),
        forall|y: Seq<char>| before.insert(i, x).contains(y) <==> (before.contains(y) || y == x),
{
    let after = before.insert(i, x);
    if i < before.len() {
        lemma_str_lt_total(before[i], x);
        assert(str_lt(x, before[i]));
    }
    assert forall|a: int, b: int| 0 <= a < b < after.len() implies str_lt(after[a], after[b]) by {
        if b < i {
        } else if b == i {
        } else if a < i {
            assert(after[b] == before[b - 1]);
            assert(str_lt(before[a], x));
            assert(str_lt(x, before[i]));
            if b - 1 > i {
                assert(str_lt(before[i], before[b - 1]));
                lemma_str_lt_trans(x, before[i], before[b - 1]);
            }
            lemma_str_lt_trans(before[a], x, before[b - 1]);
        } else if a == i {
            assert(after[b] == before[b - 1]);
            if b - 1 > i {
                assert(str_lt(before[i], before[b - 1]));
                lemma_str_lt_trans(x, before[i], before[b - 1]);
            }
        } else {
            assert(after[a] == before[a - 1]);
            assert(after[b] == before[b - 1]);
        }
    }
    assert forall|y: Seq<char>| after.contains(y) <==> (before.contains(y) || y == x) by {
        if after.contains(y) {
            let k = choose|k: int| 0 <= k < after.len() && #[trigger] after[k] == y;
            if k < i {
                assert(before[k] == y);
            } else if k > i {
                assert(before[k - 1] == y);
            }
        }
        if before.contains(y) {
            let k = choose|k: int| 0 <= k < before.len() && #[trigger] before[k] == y;
            if k < i {
                assert(after[k] == y);
            } else {
                assert(after[k + 1] == y);
            }
        }
        if y == x {
            assert(after[i] == x);
        }
    }
}

/// Lemma: inserting `x` at its ordered place in ordered keys keeps them
/// ordered.
pub proof fn lemma_insert_ordered_keys(before: Seq<Seq<char>>, i: int, x: Seq<char>)
    requires
        strictly_ordered(before),
        0 <= i <= before.len(),
        forall|j: int| 0 <= j < i ==> str_lt(#[trigger] before[j], x),
        i < before.len() ==> !str_lt(before[i], x) && before[i] != x,
    ensures
        strictly_ordered(before.insert(i, x)),
        !before.contains(x),
{
    lemma_insert_ordered(before, i, x);
    if before.contains(x) {
        let j = choose|j: int| 0 <= j < before.len() && before[j] == x;
        if j < i {
            lemma_str_lt_total(x, x);
        } else if j > i {
            lemma_str_lt_total(before[i], x);
            assert(str_lt(before[i], before[j]));
        }
    }
}

/// The PR number whose head branch is `name`; the last entry wins.
pub open spec fn pr_of_branch(prs: Seq<PrWithCiStatus>, name: Seq<char>, k: int) -> Option<u64>
    decreases k,
{
    if k <= 0 {
        None
    } else if prs[k - 1].head_ref_name@ == name {
        Some(prs[k - 1].number)
    } else {
        pr_of_branch(prs, name, k - 1)
    }
}

/// The picker label of a bookmark: `name (#n)` when a PR is open for it.
pub open spec fn candidate_label(prs: Seq<PrWithCiStatus>, name: Seq<char>) -> Seq<char> {
    match pr_of_branch(prs, name, prs.len() as int) {
        Some(n) => name + " (#"@ + decimal(n as nat) + ")"@,
        None => name,
    }
}

fn find_pr_of_branch(prs: &[PrWithCiStatus], name: &str) -> (r: Option<u64>)
    ensures
        r == pr_of_branch(prs@, name@, prs@.len() as int),
{
    let mut k: usize = prs.len();
    while k > 0
        invariant
            k <= prs@.len(),
            pr_of_branch(prs@, name@, prs@.len() as int) == pr_of_branch(prs@, name@, k as int),
        decreases k,
    {
        if str_eq(prs[k - 1].head_ref_name.as_str(), name) {
            return Some(prs[k - 1].number);
        }
        k = k - 1;
    }
    None
}

/// The base candidates the picker offers: one label per bookmark (with the
/// PR number when a PR is open for it), sorted, without repeats.
pub fn build_base_candidates(prs: &[PrWithCiStatus], bookmarks: &[PushedBookmark]) -> (r: Vec<String>)
    ensures
        strictly_ordered(views_of(r@)),
        forall|x: Seq<char>|
            views_of(r@).contains(x) <==> exists|b: int|
                0 <= b < bookmarks@.len() && x == candidate_label(prs@, #[trigger] bookmarks@[b].name@),
{
    let mut out: Vec<String> = Vec::new();
    let mut b: usize = 0;
    while b < bookmarks.len()
        invariant
            b <= bookmarks@.len(),
            strictly_ordered(views_of(out@)),
            forall|x: Seq<char>|
                views_of(out@).contains(x) <==> exists|c: int|
                    0 <= c < b && x == candidate_label(prs@, #[trigger] bookmarks@[c].name@),
        decreases bookmarks@.len() - b,
    {
        let name = bookmarks[b].name.as_str();
        let label = match find_pr_of_branch(prs, name) {
            Some(n) => {
                let mut l = concat(name, " (#");
                push_decimal(&mut l, n);
                push_str(&mut l, ")");
                l
            },
            None => owned(name),
        };
        let ghost lv = label@;
        assert(lv == candidate_label(prs@, bookmarks@[b as int].name@));
        insert_ordered(&mut out, label);
        proof {
            assert forall|x: Seq<char>|
                views_of(out@).contains(x) <==> exists|c: int|
                    0 <= c < b + 1 && x == candidate_label(prs@, #[trigger] bookmarks@[c].name@) by {
                if x == lv {
                    assert(x == candidate_label(prs@, bookmarks@[b as int].name@));
                }
            }
        }
        b = b + 1;
    }
    out
}

/// The revset naming every plan's local commit: `(c1)|(c2)|...`.
pub open spec fn commits_revset_view(plans: Seq<PrPlan>) -> Seq<char>
    decreases plans.len(),
{
    if plans.len() == 0 {
        seq![]
    } else if plans.len() == 1 {
        "("@ + plans[0].local_commit_id@ + ")"@
    } else {
        commits_revset_view(plans.drop_last()) + "|("@ + plans.last().local_commit_id@ + ")"@
    }
}

/// The revset naming every plan's local commit: `(c1)|(c2)|...`.
pub fn commits_revset(plans: &[PrPlan]) -> (r: String)
    ensures
        r@ == commits_revset_view(plans@),
{
    let mut r = String::new();
    let mut i: usize = 0;
    while i < plans.len()
        invariant
            i <= plans@.len(),
            r@ == commits_revset_view(plans@.subrange(0, i as int)),
        decreases plans@.len() - i,
    {
        let ghost before = r@;
        if i > 0 {
            push_str(&mut r, "|");
        }
        push_str(&mut r, "(");
        push_str(&mut r, plans[i].local_commit_id.as_str());
        push_str(&mut r, ")");
        proof {
            let pre = plans@.subrange(0, i + 1);
            assert(pre.drop_last() =~= plans@.subrange(0, i as int));
            if i == 0 {
                assert(before =~= Seq::<char>::empty());
                assert(r@ =~= "("@ + plans@[0].local_commit_id@ + ")"@);
            } else {
                assert(r@ =~= before + "|"@ + "("@ + plans@[i as int].local_commit_id@ + ")"@);
                assert(r@ =~= before + ("|("@ + plans@[i as int].local_commit_id@ + ")"@)) by {
                    reveal_strlit("|");
                    reveal_strlit("(");
                    reveal_strlit("|(");
                }
            }
        }
        i = i + 1;
    }
    assert(plans@.subrange(0, plans@.len() as int) =~= plans@);
    r
}

/// The PR whose local commit is `id`; the last plan wins.
pub open spec fn pr_of_commit(plans: Seq<PrPlan>, id: Seq<char>, k: int) -> Option<u64>
    decreases k,
{
    if k <= 0 {
        None
    } else if plans[k - 1].local_commit_id@ == id {
        Some(plans[k - 1].pr_number)
    } else {
        pr_of_commit(plans, id, k - 1)
    }
}

/// The PRs named by the first `k` output lines, each once, in order.
pub open spec fn order_from_lines(plans: Seq<PrPlan>, out: Seq<Seq<char>>, k: int) -> Seq<u64>
    decreases k,
{
    if k <= 0 {
        seq![]
    } else {
        let rest = order_from_lines(plans, out, k - 1);
        match pr_of_commit(plans, trim(out[k - 1]), plans.len() as int) {
            Some(n) => if rest.contains(n) {
                rest
            } else {
                rest.push(n)
            },
            None => rest,
        }
    }
}

/// `order` followed by the plans' PRs it lacks, each once, in plan order.
pub open spec fn with_missing(order: Seq<u64>, plans: Seq<PrPlan>, k: int) -> Seq<u64>
    decreases k,
{
    if k <= 0 {
        order
    } else {
        let rest = with_missing(order, plans, k - 1);
        if rest.contains(plans[k - 1].pr_number) {
            rest
        } else {
            rest.push(plans[k - 1].pr_number)
        }
    }
}

fn find_pr_of_commit(plans: &[PrPlan], id: &str) -> (r: Option<u64>)
    ensures
        r == pr_of_commit(plans@, id@, plans@.len() as int),
{
    let mut k: usize = plans.len();
    while k > 0
        invariant
            k <= plans@.len(),
            pr_of_commit(plans@, id@, plans@.len() as int) == pr_of_commit(plans@, id@, k as int),
        decreases k,
    {
        if str_eq(plans[k - 1].local_commit_id.as_str(), id) {
            return Some(plans[k - 1].pr_number);
        }
        k = k - 1;
    }
    None
}

/// Order the PRs by the order `jj` printed their commits in (newest first),
/// so cursor movement matches the rendered log; PRs `jj` did not print
/// follow in plan order.
pub fn topological_order(stdout: &str, plans: &[PrPlan]) -> (r: Vec<u64>)
    ensures
        r@ == with_missing(
            order_from_lines(plans@, lines(stdout@), lines(stdout@).len() as int),
            plans@,
            plans@.len() as int,
        ),
{
    let rows = lines_of(stdout);
    let ghost rv = lines(stdout@);
    let mut order: Vec<u64> = Vec::new();
    let mut i: usize = 0;
    while i < rows.len()
        invariant
            rows@.map_values(|l: String| l@) == rv,
            i <= rows@.len(),
            order@ == order_from_lines(plans@, rv, i as int),
        decreases rows@.len() - i,
    {
        assert(rows@[i as int]@ == rv[i as int]);
        let id = trimmed(rows[i].as_str());
        if let Some(n) = find_pr_of_commit(plans, id.as_str()) {
            if !crate::numbers::contains_u64(order.as_slice(), n) {
                order.push(n);
            }
        }
        i = i + 1;
    }
    let ghost base = order@;
    let mut k: usize = 0;
    while k < plans.len()
        invariant
            k <= plans@.len(),
            order@ == with_missing(base, plans@, k as int),
        decreases plans@.len() - k,
    {
        if !crate::numbers::contains_u64(order.as_slice(), plans[k].pr_number) {
            order.push(plans[k].pr_number);
        }
        k = k + 1;
    }
    order
}

/// Line `i` of `out` names PR `n`: its trimmed text is the local commit of
/// `n`'s plan.
pub open spec fn names_pr(plans: Seq<PrPlan>, out: Seq<Seq<char>>, i: int, n: u64) -> bool {
    0 <= i < out.len() && pr_of_commit(plans, trim(out[i]), plans.len() as int) == Some(n)
}

/// One of the first `k` lines names PR `n`.
pub open spec fn named(plans: Seq<PrPlan>, out: Seq<Seq<char>>, n: u64, k: int) -> bool {
    exists|i: int| 0 <= i < k && #[trigger] names_pr(plans, out, i, n)
}

/// Among the first `k` lines, PR `a` is named before any line names `b`.
pub open spec fn named_first(plans: Seq<PrPlan>, out: Seq<Seq<char>>, a: u64, b: u64, k: int) -> bool {
    exists|i: int|
        0 <= i < k && #[trigger] names_pr(plans, out, i, a) && forall|j: int|
            0 <= j <= i ==> !#[trigger] names_pr(plans, out, j, b)
}

/// Among the first `m` plans, one of PR `a` comes before any plan of `b`.
pub open spec fn planned_first(plans: Seq<PrPlan>, a: u64, b: u64, m: int) -> bool {
    exists|k: int|
        0 <= k < m && (#[trigger] plans[k]).pr_number == a && forall|j: int|
            0 <= j <= k ==> (#[trigger] plans[j]).pr_number != b
}

/// One of the first `m` plans is for PR `n`.
pub open spec fn planned(plans: Seq<PrPlan>, n: u64, m: int) -> bool {
    exists|k: int| 0 <= k < m && (#[trigger] plans[k]).pr_number == n
}

/// No PR occurs twice in `s`.
pub open spec fn each_once(s: Seq<u64>) -> bool {
    forall|p: int, q: int| 0 <= p < q < s.len() ==> #[trigger] s[p] != #[trigger] s[q]
}

/// The PR a commit names is one of the plans' PRs.
proof fn lemma_pr_of_commit_planned(plans: Seq<PrPlan>, id: Seq<char>, k: int)
    requires
        0 <= k <= plans.len(),
    ensures
        pr_of_commit(plans, id, k) matches Some(n) ==> planned(plans, n, k),
    decreases k,
{
    if k > 0 {
        lemma_pr_of_commit_planned(plans, id, k - 1);
        if plans[k - 1].local_commit_id@ == id {
            assert(plans[k - 1].pr_number == plans[k - 1].pr_number);
        } else {
            match pr_of_commit(plans, id, k - 1) {
                Some(n) => {
                    let k0 = choose|k0: int| 0 <= k0 < k - 1 && (#[trigger] plans[k0]).pr_number == n;
                    assert(plans[k0].pr_number == n);
                },
                None => {},
            }
        }
    }
}

/// The PRs the first `k` lines name come out each once, in the order of
/// the line that first names each.
proof fn lemma_order_lines(plans: Seq<PrPlan>, out: Seq<Seq<char>>, k: int)
    requires
        0 <= k <= out.len(),
    ensures
        each_once(order_from_lines(plans, out, k)),
        forall|n: u64| order_from_lines(plans, out, k).contains(n) <==> #[trigger] named(plans, out, n, k),
        forall|p: int, q: int|
            0 <= p < q < order_from_lines(plans, out, k).len() ==> named_first(
                plans,
                out,
                #[trigger] order_from_lines(plans, out, k)[p],
                #[trigger] order_from_lines(plans, out, k)[q],
                k,
            ),
    decreases k,
{
    if k > 0 {
        lemma_order_lines(plans, out, k - 1);
        let rest = order_from_lines(plans, out, k - 1);
        let o = order_from_lines(plans, out, k);
        let line = pr_of_commit(plans, trim(out[k - 1]), plans.len() as int);
        assert forall|n: u64| #[trigger] named(plans, out, n, k) <==> (named(plans, out, n, k - 1) || line
            == Some(n)) by {
            if named(plans, out, n, k) {
                let i = choose|i: int| 0 <= i < k && #[trigger] names_pr(plans, out, i, n);
                if i < k - 1 {
                    assert(named(plans, out, n, k - 1));
                }
            }
            if line == Some(n) {
                assert(names_pr(plans, out, k - 1, n));
            }
            if named(plans, out, n, k - 1) {
                let i = choose|i: int| 0 <= i < k - 1 && #[trigger] names_pr(plans, out, i, n);
                assert(names_pr(plans, out, i, n));
            }
        }
        assert forall|a: u64, b: u64| named_first(plans, out, a, b, k - 1) implies named_first(
            plans,
            out,
            a,
            b,
            k,
        ) by {
            let i = choose|i: int|
                0 <= i < k - 1 && #[trigger] names_pr(plans, out, i, a) && forall|j: int|
                    0 <= j <= i ==> !#[trigger] names_pr(plans, out, j, b);
            assert(names_pr(plans, out, i, a));
        }
        match line {
            Some(n) => {
                if rest.contains(n) {
                    assert(o == rest);
                } else {
                    assert(o == rest.push(n));
                    assert forall|x: u64| o.contains(x) <==> (rest.contains(x) || x == n) by {
                        if o.contains(x) {
                            let p = choose|p: int| 0 <= p < o.len() && o[p] == x;
                            if p < rest.len() {
                                assert(rest[p] == x);
                            }
                        }
                        if rest.contains(x) {
                            let p = choose|p: int| 0 <= p < rest.len() && rest[p] == x;
                            assert(o[p] == x);
                        }
                        if x == n {
                            assert(o[rest.len() as int] == n);
                        }
                    }
                    assert forall|p: int, q: int| 0 <= p < q < o.len() implies #[trigger] o[p]
                        != #[trigger] o[q] by {
                        if q < rest.len() {
                            assert(o[p] == rest[p] && o[q] == rest[q]);
                        } else {
                            assert(o[p] == rest[p]);
                            assert(rest.contains(rest[p]));
                        }
                    }
                    assert forall|p: int, q: int| 0 <= p < q < o.len() implies named_first(
                        plans,
                        out,
                        #[trigger] o[p],
                        #[trigger] o[q],
                        k,
                    ) by {
                        if q < rest.len() {
                            assert(o[p] == rest[p] && o[q] == rest[q]);
                            assert(named_first(plans, out, rest[p], rest[q], k - 1));
                        } else {
                            assert(o[p] == rest[p] && o[q] == n);
                            assert(rest.contains(rest[p]));
                            assert(named(plans, out, rest[p], k - 1));
                            let i = choose|i: int| 0 <= i < k - 1 && #[trigger] names_pr(plans, out, i, rest[p]);
                            assert forall|j: int| 0 <= j <= i implies !#[trigger] names_pr(plans, out, j, n) by {
                                if names_pr(plans, out, j, n) {
                                    assert(named(plans, out, n, k - 1));
                                }
                            }
                            assert(names_pr(plans, out, i, o[p]));
                        }
                    }
                }
            },
            None => {
                assert(o == rest);
            },
        }
    }
}

/// `with_missing` keeps `order` in front and adds each missing plan's PR
/// once, in plan order.
proof fn lemma_with_missing(order: Seq<u64>, plans: Seq<PrPlan>, m: int)
    requires
        0 <= m <= plans.len(),
        each_once(order),
    ensures
        with_missing(order, plans, m).len() >= order.len(),
        with_missing(order, plans, m).subrange(0, order.len() as int) == order,
        each_once(with_missing(order, plans, m)),
        forall|n: u64|
            with_missing(order, plans, m).contains(n) <==> (order.contains(n) || #[trigger] planned(
                plans,
                n,
                m,
            )),
        forall|p: int|
            order.len() <= p < with_missing(order, plans, m).len() ==> !order.contains(
                #[trigger] with_missing(order, plans, m)[p],
            ),
        forall|p: int, q: int|
            order.len() <= p < q < with_missing(order, plans, m).len() ==> planned_first(
                plans,
                #[trigger] with_missing(order, plans, m)[p],
                #[trigger] with_missing(order, plans, m)[q],
                m,
            ),
    decreases m,
{
    if m == 0 {
        assert(order.subrange(0, order.len() as int) =~= order);
    } else {
        lemma_with_missing(order, plans, m - 1);
        let rest = with_missing(order, plans, m - 1);
        let w = with_missing(order, plans, m);
        let x = plans[m - 1].pr_number;
        assert forall|n: u64| #[trigger] planned(plans, n, m) <==> (planned(plans, n, m - 1) || n == x) by {
            if planned(plans, n, m) {
                let k = choose|k: int| 0 <= k < m && (#[trigger] plans[k]).pr_number == n;
                if k < m - 1 {
                    assert(planned(plans, n, m - 1));
                }
            }
            if planned(plans, n, m - 1) {
                let k = choose|k: int| 0 <= k < m - 1 && (#[trigger] plans[k]).pr_number == n;
                assert(plans[k].pr_number == n);
            }
            if n == x {
                assert(plans[m - 1].pr_number == n);
            }
        }
        assert forall|a: u64, b: u64| planned_first(plans, a, b, m - 1) implies planned_first(
            plans,
            a,
            b,
            m,
        ) by {
            let k = choose|k: int|
                0 <= k < m - 1 && (#[trigger] plans[k]).pr_number == a && forall|j: int|
                    0 <= j <= k ==> (#[trigger] plans[j]).pr_number != b;
            assert(plans[k].pr_number == a);
        }
        if rest.contains(x) {
            assert(w == rest);
        } else {
            assert(w == rest.push(x));
            assert(w.subrange(0, order.len() as int) =~= rest.subrange(0, order.len() as int));
            assert forall|y: u64| w.contains(y) <==> (rest.contains(y) || y == x) by {
                if w.contains(y) {
                    let p = choose|p: int| 0 <= p < w.len() && w[p] == y;
                    if p < rest.len() {
                        assert(rest[p] == y);
                    }
                }
                if rest.contains(y) {
                    let p = choose|p: int| 0 <= p < rest.len() && rest[p] == y;
                    assert(w[p] == y);
                }
                if y == x {
                    assert(w[rest.len() as int] == x);
                }
            }
            assert forall|p: int, q: int| 0 <= p < q < w.len() implies #[trigger] w[p] != #[trigger] w[q] by {
                if q < rest.len() {
                    assert(w[p] == rest[p] && w[q] == rest[q]);
                } else {
                    assert(w[p] == rest[p]);
                    assert(rest.contains(rest[p]));
                }
            }
            assert forall|p: int| order.len() <= p < w.len() implies !order.contains(#[trigger] w[p]) by {
                if p < rest.len() {
                    assert(w[p] == rest[p]);
                } else {
                    assert(w[p] == x);
                    if order.contains(x) {
                        assert(rest.contains(x));
                    }
                }
            }
            assert forall|p: int, q: int| order.len() <= p < q < w.len() implies planned_first(
                plans,
                #[trigger] w[p],
                #[trigger] w[q],
                m,
            ) by {
                if q < rest.len() {
                    assert(w[p] == rest[p] && w[q] == rest[q]);
                    assert(planned_first(plans, rest[p], rest[q], m - 1));
                } else {
                    assert(w[p] == rest[p] && w[q] == x);
                    assert(!order.contains(rest[p]));
                    assert(rest.contains(rest[p]));
                    assert(planned(plans, rest[p], m - 1));
                    let k = choose|k: int| 0 <= k < m - 1 && (#[trigger] plans[k]).pr_number == rest[p];
                    assert forall|j: int| 0 <= j <= k implies (#[trigger] plans[j]).pr_number != x by {
                        if plans[j].pr_number == x {
                            assert(planned(plans, x, m - 1));
                        }
                    }
                    assert(plans[k].pr_number == w[p]);
                }
            }
        }
    }
}

/// Law of the restack order: the order `topological_order` gives is every
/// plan's PR exactly once; a PR that a line of the `jj` output names comes
/// after every PR named before its first line, and before every PR no line
/// names; the PRs no line names follow in the order of their first plan.
pub proof fn lemma_topological_order_law(plans: Seq<PrPlan>, out: Seq<Seq<char>>)
    ensures
        each_once(
            with_missing(order_from_lines(plans, out, out.len() as int), plans, plans.len() as int),
        ),
        forall|n: u64|
            with_missing(order_from_lines(plans, out, out.len() as int), plans, plans.len() as int).contains(
                n,
            ) <==> #[trigger] planned(plans, n, plans.len() as int),
        forall|p: int, q: int|
            0 <= p < q < with_missing(
                order_from_lines(plans, out, out.len() as int),
                plans,
                plans.len() as int,
            ).len() && named(
                plans,
                out,
                with_missing(order_from_lines(plans, out, out.len() as int), plans, plans.len() as int)[q],
                out.len() as int,
            ) ==> named_first(
                plans,
                out,
                #[trigger] with_missing(
                    order_from_lines(plans, out, out.len() as int),
                    plans,
                    plans.len() as int,
                )[p],
                #[trigger] with_missing(
                    order_from_lines(plans, out, out.len() as int),
                    plans,
                    plans.len() as int,
                )[q],
                out.len() as int,
            ),
        forall|p: int, q: int|
            0 <= p < q < with_missing(
                order_from_lines(plans, out, out.len() as int),
                plans,
                plans.len() as int,
            ).len() && !named(
                plans,
                out,
                with_missing(order_from_lines(plans, out, out.len() as int), plans, plans.len() as int)[p],
                out.len() as int,
            ) ==> !named(
                plans,
                out,
                with_missing(order_from_lines(plans, out, out.len() as int), plans, plans.len() as int)[q],
                out.len() as int,
            ) && planned_first(
                plans,
                #[trigger] with_missing(
                    order_from_lines(plans, out, out.len() as int),
                    plans,
                    plans.len() as int,
                )[p],
                #[trigger] with_missing(
                    order_from_lines(plans, out, out.len() as int),
                    plans,
                    plans.len() as int,
                )[q],
                plans.len() as int,
            ),
{
    let n_out = out.len() as int;
    let m = plans.len() as int;
    lemma_order_lines(plans, out, n_out);
    let o = order_from_lines(plans, out, n_out);
    lemma_with_missing(o, plans, m);
    let r = with_missing(o, plans, m);
    assert forall|p: int| 0 <= p < o.len() implies r[p] == o[p] by {
        assert(r.subrange(0, o.len() as int)[p] == r[p]);
    }
    assert forall|n: u64| r.contains(n) <==> #[trigger] planned(plans, n, m) by {
        if o.contains(n) {
            assert(named(plans, out, n, n_out));
            let i = choose|i: int| 0 <= i < n_out && #[trigger] names_pr(plans, out, i, n);
            lemma_pr_of_commit_planned(plans, trim(out[i]), m);
        }
    }
    assert forall|p: int, q: int|
        0 <= p < q < r.len() && named(plans, out, r[q], n_out) implies named_first(
        plans,
        out,
        #[trigger] r[p],
        #[trigger] r[q],
        n_out,
    ) by {
        assert(o.contains(r[q]));
        if q >= o.len() {
            assert(!o.contains(r[q]));
        }
        assert(r[p] == o[p] && r[q] == o[q]);
    }
    assert forall|p: int, q: int|
        0 <= p < q < r.len() && !named(plans, out, r[p], n_out) implies !named(plans, out, r[q], n_out)
        && planned_first(plans, #[trigger] r[p], #[trigger] r[q], m) by {
        if p < o.len() {
            assert(r[p] == o[p]);
            assert(o.contains(o[p]));
        }
        assert(!o.contains(r[q]));
    }
}

} // verus!
