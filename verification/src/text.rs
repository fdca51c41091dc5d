//! Character-level string helpers shared by the parsers and renderers.
//!
//! Strings are reasoned about through their view, a `Seq<char>`. The helpers
//! here move between `String`/`&str` and `Vec<char>` and implement the few
//! `str` operations the rest of the crate needs (trimming, searching,
//! splitting) with contracts over that view.

use vstd::prelude::*;
use vstd::string::StrSliceExecFns;

verus! {

/// `String::push` appends one character to the end of the string.
pub assume_specification[ String::push ](s: &mut String, ch: char)
    ensures
        final(s)@ == old(s)@.push(ch),
;

/// The view of an optional string.
pub open spec fn opt_string(o: Option<String>) -> Option<Seq<char>> {
    match o {
        Some(s) => Some(s@),
        None => None,
    }
}

/// The view of an optional string slice.
pub open spec fn opt_str(o: Option<&str>) -> Option<Seq<char>> {
    match o {
        Some(s) => Some(s@),
        None => None,
    }
}

/// Unicode `White_Space`, the set `char::is_whitespace` and `str::trim` use.
pub open spec fn is_ws(c: char) -> bool {
    ||| c == '\t'
    ||| c == '\n'
    ||| c == '\u{0B}'
    ||| c == '\u{0C}'
    ||| c == '\r'
    ||| c == ' '
    ||| c == '\u{85}'
    ||| c == '\u{A0}'
    ||| c == '\u{1680}'
    ||| ('\u{2000}' <= c && c <= '\u{200A}')
    ||| c == '\u{2028}'
    ||| c == '\u{2029}'
    ||| c == '\u{202F}'
    ||| c == '\u{205F}'
    ||| c == '\u{3000}'
}

/// Whether `c` is white space in the sense of [`is_ws`].
pub fn is_whitespace(c: char) -> (b: bool)
    ensures
        b == is_ws(c),
{
    c == '\t' || c == '\n' || c == '\u{0B}' || c == '\u{0C}' || c == '\r' || c == ' ' || c
        == '\u{85}' || c == '\u{A0}' || c == '\u{1680}' || ('\u{2000}' <= c && c <= '\u{200A}')
        || c == '\u{2028}' || c == '\u{2029}' || c == '\u{202F}' || c == '\u{205F}' || c
        == '\u{3000}'
}

/// `s` without its leading white space.
pub open spec fn trim_start(s: Seq<char>) -> Seq<char>
    decreases s.len(),
{
    if s.len() > 0 && is_ws(s[0]) {
        trim_start(s.drop_first())
    } else {
        s
    }
}

/// `s` without its trailing white space.
pub open spec fn trim_end(s: Seq<char>) -> Seq<char>
    decreases s.len(),
{
    if s.len() > 0 && is_ws(s.last()) {
        trim_end(s.drop_last())
    } else {
        s
    }
}

/// `s` without leading or trailing white space, as `str::trim` returns it.
pub open spec fn trim(s: Seq<char>) -> Seq<char> {
    trim_end(trim_start(s))
}

/// `s` without any leading copies of `c`, as `str::trim_start_matches(c)`.
pub open spec fn strip_leading(s: Seq<char>, c: char) -> Seq<char>
    decreases s.len(),
{
    if s.len() > 0 && s[0] == c {
        strip_leading(s.drop_first(), c)
    } else {
        s
    }
}

/// `s` without any trailing copies of `c`, as `str::trim_end_matches(c)`.
pub open spec fn strip_trailing(s: Seq<char>, c: char) -> Seq<char>
    decreases s.len(),
{
    if s.len() > 0 && s.last() == c {
        strip_trailing(s.drop_last(), c)
    } else {
        s
    }
}

/// Whether `needle` occurs in `s` starting at index `i`.
pub open spec fn occurs_at(s: Seq<char>, needle: Seq<char>, i: int) -> bool {
    0 <= i && i + needle.len() <= s.len() && s.subrange(i, i + needle.len()) == needle
}

/// The first index at or after `from` where `needle` occurs in `s`.
pub open spec fn first_at(s: Seq<char>, needle: Seq<char>, from: int) -> Option<int>
    decreases s.len() + 1 - from,
{
    if from < 0 || from + needle.len() > s.len() {
        None
    } else if occurs_at(s, needle, from) {
        Some(from)
    } else {
        first_at(s, needle, from + 1)
    }
}

/// The first index where `needle` occurs in `s`.
pub open spec fn find(s: Seq<char>, needle: Seq<char>) -> Option<int> {
    first_at(s, needle, 0)
}

/// Whether `needle` occurs anywhere in `s`.
pub open spec fn contains(s: Seq<char>, needle: Seq<char>) -> bool {
    find(s, needle) is Some
}

/// Whether `s` begins with `p`.
pub open spec fn starts_with(s: Seq<char>, p: Seq<char>) -> bool {
    occurs_at(s, p, 0)
}

/// Whether `s` ends with `p`.
pub open spec fn ends_with(s: Seq<char>, p: Seq<char>) -> bool {
    occurs_at(s, p, s.len() - p.len())
}

/// `str::split_once`: the parts before and after the first `pat`.
pub open spec fn split_once(s: Seq<char>, pat: Seq<char>) -> Option<(Seq<char>, Seq<char>)> {
    match find(s, pat) {
        Some(i) => Some((s.subrange(0, i), s.subrange(i + pat.len(), s.len() as int))),
        None => None,
    }
}

/// `s` with every `c` replaced by `with`, as `str::replace(c, with)`.
pub open spec fn replace_char(s: Seq<char>, c: char, with: Seq<char>) -> Seq<char>
    decreases s.len(),
{
    if s.len() == 0 {
        s
    } else {
        let head = if s[0] == c {
            with
        } else {
            seq![s[0]]
        };
        head + replace_char(s.drop_first(), c, with)
    }
}

/// Lowercase form of a string, as `str::to_lowercase` computes it.
pub uninterp spec fn lowercase(s: Seq<char>) -> Seq<char>;

/// `str::to_lowercase`, Unicode case mapping of every character.
#[verifier::external_body]
pub fn to_lowercase(s: &str) -> (r: String)
    ensures
        r@ == lowercase(s@),
{
    s.to_lowercase()
}

/// Whether `needle` occurs in `v` at index `i`.
pub fn matches_at(v: &Vec<char>, needle: &Vec<char>, i: usize) -> (b: bool)
    ensures
        b == occurs_at(v@, needle@, i as int),
{
    if i > v.len() || needle.len() > v.len() - i {
        return false;
    }
    let mut k: usize = 0;
    while k < needle.len()
        invariant
            i + needle@.len() <= v@.len(),
            i + needle@.len() <= v.len(),
            k <= needle@.len(),
            forall|j: int| 0 <= j < k ==> v@[i + j] == needle@[j],
        decreases needle@.len() - k,
    {
        if v[i + k] != needle[k] {
            assert(v@.subrange(i as int, i + needle@.len())[k as int] != needle@[k as int]);
            return false;
        }
        k = k + 1;
    }
    assert(v@.subrange(i as int, i + needle@.len()) =~= needle@);
    true
}

/// Lemma: a search that found nothing before `i` starting at `from` is the
/// same search started at `i`.
pub proof fn lemma_first_at_skip(s: Seq<char>, needle: Seq<char>, from: int, i: int)
    requires
        0 <= from <= i,
        i + needle.len() <= s.len() + 1,
        forall|j: int| from <= j < i ==> !occurs_at(s, needle, j),
    ensures
        first_at(s, needle, from) == first_at(s, needle, i),
    decreases i - from,
{
    if from < i {
        lemma_first_at_skip(s, needle, from + 1, i);
    }
}

/// The first index at or after `from` where `needle` occurs in `v`.
pub fn find_from(v: &Vec<char>, needle: &Vec<char>, from: usize) -> (r: Option<usize>)
    ensures
        match r {
            Some(i) => {
                &&& first_at(v@, needle@, from as int) == Some(i as int)
                &&& from <= i
                &&& i + needle@.len() <= v@.len()
                &&& occurs_at(v@, needle@, i as int)
            },
            None => first_at(v@, needle@, from as int) is None,
        },
{
    if from > v.len() || needle.len() > v.len() - from {
        return None;
    }
    let last = v.len() - needle.len();
    let mut i: usize = from;
    loop
        invariant
            from <= i <= last,
            last + needle@.len() == v@.len(),
            forall|j: int| from <= j < i ==> !occurs_at(v@, needle@, j),
        decreases last - i,
    {
        if matches_at(v, needle, i) {
            proof {
                lemma_first_at_skip(v@, needle@, from as int, i as int);
            }
            return Some(i);
        }
        if i == last {
            proof {
                lemma_first_at_skip(v@, needle@, from as int, i as int);
                assert(first_at(v@, needle@, i as int) == first_at(v@, needle@, i + 1));
            }
            return None;
        }
        i = i + 1;
    }
}

/// The first index of `needle` in `v`.
pub fn find_in(v: &Vec<char>, needle: &Vec<char>) -> (r: Option<usize>)
    ensures
        match r {
            Some(i) => {
                &&& find(v@, needle@) == Some(i as int)
                &&& i + needle@.len() <= v@.len()
                &&& occurs_at(v@, needle@, i as int)
            },
            None => find(v@, needle@) is None,
        },
{
    find_from(v, needle, 0)
}

/// Lemma: what a found first occurrence says about the string.
pub proof fn lemma_first_at_found(s: Seq<char>, needle: Seq<char>, from: int, i: int)
    requires
        first_at(s, needle, from) == Some(i),
    ensures
        from <= i,
        occurs_at(s, needle, i),
        forall|j: int| from <= j < i ==> !occurs_at(s, needle, j),
    decreases s.len() + 1 - from,
{
    if from >= 0 && from + needle.len() <= s.len() && !occurs_at(s, needle, from) {
        lemma_first_at_found(s, needle, from + 1, i);
    }
}

/// Lemma: an absent needle occurs nowhere at or after `from`.
pub proof fn lemma_first_at_absent(s: Seq<char>, needle: Seq<char>, from: int, j: int)
    requires
        first_at(s, needle, from) is None,
        0 <= from <= j,
    ensures
        !occurs_at(s, needle, j),
    decreases s.len() + 1 - from,
{
    if from + needle.len() <= s.len() && !occurs_at(s, needle, from) && from < j {
        lemma_first_at_absent(s, needle, from + 1, j);
    }
}

/// `s` with every `c` replaced by `with`.
pub fn replace_char_with(s: &str, c: char, with: &str) -> (r: String)
    ensures
        r@ == replace_char(s@, c, with@),
{
    let v = chars_of(s);
    let w = chars_of(with);
    let mut out = String::new();
    let mut k: usize = 0;
    assert(v@.subrange(0, v@.len() as int) =~= v@);
    assert(out@ + replace_char(v@, c, w@) =~= replace_char(v@, c, w@));
    while k < v.len()
        invariant
            k <= v@.len(),
            out@ + replace_char(v@.subrange(k as int, v@.len() as int), c, w@) == replace_char(
                v@,
                c,
                w@,
            ),
        decreases v@.len() - k,
    {
        let ghost rest = v@.subrange(k as int, v@.len() as int);
        let ghost before = out@;
        assert(rest.drop_first() =~= v@.subrange(k + 1, v@.len() as int));
        if v[k] == c {
            push_chars(&mut out, &w);
        } else {
            out.push(v[k]);
        }
        proof {
            let head = if rest[0] == c {
                w@
            } else {
                seq![rest[0]]
            };
            assert(out@ == before + head);
            assert(replace_char(rest, c, w@) == head + replace_char(rest.drop_first(), c, w@));
            assert(before + (head + replace_char(rest.drop_first(), c, w@)) =~= (before + head)
                + replace_char(rest.drop_first(), c, w@));
        }
        k = k + 1;
    }
    proof {
        assert(v@.subrange(v@.len() as int, v@.len() as int) =~= Seq::<char>::empty());
        assert(out@ + Seq::<char>::empty() =~= out@);
    }
    out
}

/// The characters of `s`, in order.
pub fn chars_of(s: &str) -> (v: Vec<char>)
    ensures
        v@ == s@,
{
    let n = s.unicode_len();
    let mut v: Vec<char> = Vec::new();
    let mut i: usize = 0;
    while i < n
        invariant
            n == s@.len(),
            i <= n,
            v@ == s@.subrange(0, i as int),
        decreases n - i,
    {
        let c = s.get_char(i);
        v.push(c);
        i = i + 1;
        assert(v@ =~= s@.subrange(0, i as int));
    }
    assert(v@ =~= s@);
    v
}

/// A `String` holding `v[lo..hi]`.
pub fn string_from_range(v: &Vec<char>, lo: usize, hi: usize) -> (s: String)
    requires
        lo <= hi <= v@.len(),
    ensures
        s@ == v@.subrange(lo as int, hi as int),
{
    let mut s = String::new();
    let mut i: usize = lo;
    while i < hi
        invariant
            lo <= i <= hi,
            hi <= v@.len(),
            s@ == v@.subrange(lo as int, i as int),
        decreases hi - i,
    {
        s.push(v[i]);
        i = i + 1;
        assert(s@ =~= v@.subrange(lo as int, i as int));
    }
    s
}

/// A `String` holding the characters of `v`.
pub fn string_from(v: &Vec<char>) -> (s: String)
    ensures
        s@ == v@,
{
    let s = string_from_range(v, 0, v.len());
    assert(v@.subrange(0, v@.len() as int) =~= v@);
    s
}

/// A copy of `s` as an owned `String`.
pub fn owned(s: &str) -> (r: String)
    ensures
        r@ == s@,
{
    let v = chars_of(s);
    string_from(&v)
}

/// `a` followed by `b`.
pub fn concat(a: &str, b: &str) -> (r: String)
    ensures
        r@ == a@ + b@,
{
    let mut r = owned(a);
    push_str(&mut r, b);
    r
}

/// Append the characters of `b` to `s`.
pub fn push_str(s: &mut String, b: &str)
    ensures
        final(s)@ == old(s)@ + b@,
{
    let v = chars_of(b);
    push_chars(s, &v);
}

/// Append the characters of `v` to `s`.
pub fn push_chars(s: &mut String, v: &Vec<char>)
    ensures
        final(s)@ == old(s)@ + v@,
{
    let ghost start = s@;
    let mut i: usize = 0;
    while i < v.len()
        invariant
            i <= v@.len(),
            s@ == start + v@.subrange(0, i as int),
        decreases v@.len() - i,
    {
        s.push(v[i]);
        i = i + 1;
        assert(s@ =~= start + v@.subrange(0, i as int));
    }
    assert(v@.subrange(0, v@.len() as int) =~= v@);
}

/// Whether `a` and `b` hold the same characters.
pub fn seq_eq(a: &Vec<char>, b: &Vec<char>) -> (r: bool)
    ensures
        r == (a@ == b@),
{
    if a.len() != b.len() {
        return false;
    }
    let mut i: usize = 0;
    while i < a.len()
        invariant
            a@.len() == b@.len(),
            i <= a@.len(),
            forall|j: int| 0 <= j < i ==> a@[j] == b@[j],
        decreases a@.len() - i,
    {
        if a[i] != b[i] {
            return false;
        }
        i = i + 1;
    }
    assert(a@ =~= b@);
    true
}

/// Whether `a` and `b` hold the same characters.
pub fn str_eq(a: &str, b: &str) -> (r: bool)
    ensures
        r == (a@ == b@),
{
    let va = chars_of(a);
    let vb = chars_of(b);
    seq_eq(&va, &vb)
}

/// Lemma: peeling leading white space one character at a time.
proof fn lemma_trim_start_skip(s: Seq<char>, i: int)
    requires
        0 <= i <= s.len(),
        forall|j: int| 0 <= j < i ==> is_ws(s[j]),
    ensures
        trim_start(s) == trim_start(s.subrange(i, s.len() as int)),
    decreases i,
{
    if i > 0 {
        assert(is_ws(s[0]));
        let t = s.drop_first();
        assert(forall|j: int| 0 <= j < i - 1 ==> t[j] == s[j + 1]);
        lemma_trim_start_skip(t, i - 1);
        assert(t.subrange(i - 1, t.len() as int) =~= s.subrange(i, s.len() as int));
    } else {
        assert(s.subrange(0, s.len() as int) =~= s);
    }
}

/// Lemma: peeling trailing white space one character at a time.
proof fn lemma_trim_end_skip(s: Seq<char>, k: int)
    requires
        0 <= k <= s.len(),
        forall|j: int| k <= j < s.len() ==> is_ws(s[j]),
    ensures
        trim_end(s) == trim_end(s.subrange(0, k)),
    decreases s.len() - k,
{
    if k < s.len() {
        assert(s.drop_last() =~= s.subrange(0, s.len() - 1));
        lemma_trim_end_skip(s.drop_last(), k);
        assert(s.drop_last().subrange(0, k) =~= s.subrange(0, k));
    } else {
        assert(s.subrange(0, k) =~= s);
    }
}

/// Lemma: `trim_start(s)` is a suffix of `s` that does not start with white space.
pub proof fn lemma_trim_start_shape(s: Seq<char>)
    ensures
        trim_start(s).len() <= s.len(),
        trim_start(s) == s.subrange(s.len() - trim_start(s).len(), s.len() as int),
        trim_start(s).len() > 0 ==> !is_ws(trim_start(s)[0]),
        s.len() > 0 && is_ws(s[0]) ==> trim_start(s).len() < s.len(),
    decreases s.len(),
{
    if s.len() > 0 && is_ws(s[0]) {
        lemma_trim_start_shape(s.drop_first());
        let t = trim_start(s.drop_first());
        assert(s.drop_first().subrange(s.drop_first().len() - t.len(), s.drop_first().len() as int)
            =~= s.subrange(s.len() - t.len(), s.len() as int));
    } else {
        assert(s.subrange(0, s.len() as int) =~= s);
    }
}

/// Lemma: `trim_end(s)` is a prefix of `s` that does not end with white space.
pub proof fn lemma_trim_end_shape(s: Seq<char>)
    ensures
        trim_end(s).len() <= s.len(),
        trim_end(s) == s.subrange(0, trim_end(s).len() as int),
        trim_end(s).len() > 0 ==> !is_ws(trim_end(s).last()),
        s.len() > 0 && is_ws(s.last()) ==> trim_end(s).len() < s.len(),
    decreases s.len(),
{
    if s.len() > 0 && is_ws(s.last()) {
        lemma_trim_end_shape(s.drop_last());
        let t = trim_end(s.drop_last());
        assert(s.drop_last().subrange(0, t.len() as int) =~= s.subrange(0, t.len() as int));
    } else {
        assert(s.subrange(0, s.len() as int) =~= s);
    }
}

/// Lemma: a string equal to its own trim has no white space at either end.
pub proof fn lemma_trimmed_last_not_ws(t: Seq<char>)
    requires
        trim(t) == t,
        t.len() > 0,
    ensures
        !is_ws(t[0]),
        !is_ws(t.last()),
{
    lemma_trim_start_shape(t);
    lemma_trim_end_shape(trim_start(t));
    assert(trim_start(t).len() == t.len());
}

/// Lemma: trimming twice is trimming once.
pub proof fn lemma_trim_idempotent(s: Seq<char>)
    ensures
        trim(trim(s)) == trim(s),
{
    let a = trim_start(s);
    lemma_trim_start_shape(s);
    lemma_trim_end_shape(a);
    let b = trim_end(a);
    if b.len() > 0 {
        assert(b[0] == a[0]);
        assert(trim_start(b) == b);
    } else {
        assert(trim_start(b) == b);
    }
    lemma_trim_end_shape(b);
    if b.len() > 0 {
        assert(trim_end(b) == b);
    }
}

/// Lemma: a string with no white space at either end is its own trim.
pub proof fn lemma_trim_of_clean(s: Seq<char>)
    requires
        s.len() > 0,
        !is_ws(s[0]),
        !is_ws(s.last()),
    ensures
        trim(s) == s,
{
    assert(trim_start(s) == s);
    assert(trim_end(s) == s);
}

/// The bounds `lo..hi` of `trim(v)` inside `v`.
pub fn trim_bounds(v: &Vec<char>) -> (r: (usize, usize))
    ensures
        r.0 <= r.1 <= v@.len(),
        v@.subrange(r.0 as int, r.1 as int) == trim(v@),
        trim_start(v@) == v@.subrange(r.0 as int, v@.len() as int),
        r.0 == r.1 <==> (forall|j: int| 0 <= j < v@.len() ==> is_ws(v@[j])),
{
    let n = v.len();
    let mut lo: usize = 0;
    while lo < n && is_whitespace(v[lo])
        invariant
            lo <= n == v@.len(),
            forall|j: int| 0 <= j < lo ==> is_ws(v@[j]),
        decreases n - lo,
    {
        lo = lo + 1;
    }
    let mut hi: usize = n;
    while hi > lo && is_whitespace(v[hi - 1])
        invariant
            lo <= hi <= n == v@.len(),
            lo < n ==> !is_ws(v@[lo as int]),
            forall|j: int| 0 <= j < lo ==> is_ws(v@[j]),
            forall|j: int| hi <= j < n ==> is_ws(v@[j]),
        decreases hi - lo,
    {
        hi = hi - 1;
    }
    proof {
        lemma_trim_start_skip(v@, lo as int);
        let rest = v@.subrange(lo as int, n as int);
        if lo < n {
            assert(!is_ws(rest[0]));
        }
        assert(trim_start(rest) == rest);
        assert(forall|j: int| hi - lo <= j < rest.len() ==> rest[j] == v@[lo + j]);
        lemma_trim_end_skip(rest, hi - lo);
        let mid = v@.subrange(lo as int, hi as int);
        assert(rest.subrange(0, hi - lo) =~= mid);
        if hi > lo {
            assert(mid.last() == v@[hi - 1]);
            assert(!is_ws(v@[hi - 1]));
        }
        assert(trim_end(mid) == mid);
        assert(v@.subrange(lo as int, v@.len() as int) =~= rest);
        if lo < n {
            assert(hi > lo);
        }
    }
    (lo, hi)
}

/// The length of `trim_end(v)`.
pub fn trim_end_len(v: &Vec<char>) -> (n: usize)
    ensures
        n <= v@.len(),
        v@.subrange(0, n as int) == trim_end(v@),
{
    let mut hi: usize = v.len();
    while hi > 0 && is_whitespace(v[hi - 1])
        invariant
            hi <= v@.len(),
            forall|j: int| hi <= j < v@.len() ==> is_ws(v@[j]),
        decreases hi,
    {
        hi = hi - 1;
    }
    proof {
        lemma_trim_end_skip(v@, hi as int);
        let p = v@.subrange(0, hi as int);
        if hi > 0 {
            assert(p.last() == v@[hi - 1]);
        }
        assert(trim_end(p) == p);
    }
    hi
}

/// `str::trim`: `s` without leading or trailing white space.
pub fn trimmed(s: &str) -> (r: String)
    ensures
        r@ == trim(s@),
{
    let v = chars_of(s);
    let (lo, hi) = trim_bounds(&v);
    string_from_range(&v, lo, hi)
}

/// Whether `s` is empty once trimmed, as `s.trim().is_empty()`.
pub fn is_blank(s: &str) -> (b: bool)
    ensures
        b == (trim(s@).len() == 0),
{
    let v = chars_of(s);
    let (lo, hi) = trim_bounds(&v);
    lo == hi
}

/// The decimal digit for `d < 10`.
pub open spec fn digit(d: nat) -> char {
    if d == 0 {
        '0'
    } else if d == 1 {
        '1'
    } else if d == 2 {
        '2'
    } else if d == 3 {
        '3'
    } else if d == 4 {
        '4'
    } else if d == 5 {
        '5'
    } else if d == 6 {
        '6'
    } else if d == 7 {
        '7'
    } else if d == 8 {
        '8'
    } else {
        '9'
    }
}

/// The decimal representation of `n`, as `Display` writes an unsigned integer.
pub open spec fn decimal(n: nat) -> Seq<char>
    decreases n,
{
    if n < 10 {
        seq![digit(n)]
    } else {
        decimal(n / 10).push(digit(n % 10))
    }
}

fn digit_char(d: u64) -> (c: char)
    requires
        d < 10,
    ensures
        c == digit(d as nat),
{
    if d == 0 {
        '0'
    } else if d == 1 {
        '1'
    } else if d == 2 {
        '2'
    } else if d == 3 {
        '3'
    } else if d == 4 {
        '4'
    } else if d == 5 {
        '5'
    } else if d == 6 {
        '6'
    } else if d == 7 {
        '7'
    } else if d == 8 {
        '8'
    } else {
        '9'
    }
}

/// Append the decimal representation of `n` to `s`.
pub fn push_decimal(s: &mut String, n: u64)
    ensures
        final(s)@ == old(s)@ + decimal(n as nat),
    decreases n,
{
    if n < 10 {
        s.push(digit_char(n));
        assert(decimal(n as nat) == seq![digit(n as nat)]);
    } else {
        let ghost start = s@;
        push_decimal(s, n / 10);
        s.push(digit_char(n % 10));
        assert(s@ =~= start + decimal((n / 10) as nat).push(digit((n % 10) as nat)));
    }
}

/// The decimal representation of `n`.
pub fn decimal_string(n: u64) -> (s: String)
    ensures
        s@ == decimal(n as nat),
{
    let mut s = String::new();
    push_decimal(&mut s, n);
    assert(s@ =~= decimal(n as nat));
    s
}

/// `s` without any leading copies of `c`.
pub fn strip_leading_char(v: &Vec<char>, c: char) -> (i: usize)
    ensures
        i <= v@.len(),
        forall|j: int| 0 <= j < i ==> v@[j] == c,
        i < v@.len() ==> v@[i as int] != c,
        v@.subrange(i as int, v@.len() as int) == strip_leading(v@, c),
{
    let mut i: usize = 0;
    assert(v@.subrange(0, v@.len() as int) =~= v@);
    while i < v.len() && v[i] == c
        invariant
            i <= v@.len(),
            forall|j: int| 0 <= j < i ==> v@[j] == c,
            strip_leading(v@, c) == strip_leading(v@.subrange(i as int, v@.len() as int), c),
        decreases v@.len() - i,
    {
        let ghost rest = v@.subrange(i as int, v@.len() as int);
        assert(rest.drop_first() =~= v@.subrange(i + 1, v@.len() as int));
        i = i + 1;
    }
    proof {
        let rest = v@.subrange(i as int, v@.len() as int);
        if i < v@.len() {
            assert(rest[0] != c);
        }
        assert(strip_leading(rest, c) == rest);
    }
    i
}

/// Number of copies of `c` in `s`.
pub open spec fn count_char(s: Seq<char>, c: char) -> nat
    decreases s.len(),
{
    if s.len() == 0 {
        0
    } else {
        (if s.last() == c {
            1nat
        } else {
            0nat
        }) + count_char(s.drop_last(), c)
    }
}

/// Number of copies of `c` in `v`.
pub fn count_chars(v: &Vec<char>, c: char) -> (n: usize)
    ensures
        n == count_char(v@, c),
{
    let mut n: usize = 0;
    let mut i: usize = 0;
    while i < v.len()
        invariant
            i <= v@.len(),
            n == count_char(v@.subrange(0, i as int), c),
            n <= i,
        decreases v@.len() - i,
    {
        assert(v@.subrange(0, i + 1).drop_last() =~= v@.subrange(0, i as int));
        if v[i] == c {
            n = n + 1;
        }
        i = i + 1;
    }
    assert(v@.subrange(0, v@.len() as int) =~= v@);
    n
}

/// `line` without one trailing carriage return.
pub open spec fn strip_cr(line: Seq<char>) -> Seq<char> {
    if line.len() > 0 && line.last() == '\r' {
        line.drop_last()
    } else {
        line
    }
}

/// `str::lines`: the lines of `s`, split at `\n`, each without the `\n`
/// and without a `\r` just before it; a final line ending adds no empty
/// line.
pub open spec fn lines(s: Seq<char>) -> Seq<Seq<char>>
    decreases s.len(),
{
    if s.len() == 0 {
        seq![]
    } else {
        match find(s, seq!['\n']) {
            Some(i) => {
                proof {
                    lemma_first_at_found(s, seq!['\n'], 0, i);
                }
                seq![strip_cr(s.subrange(0, i))] + lines(s.subrange(i + 1, s.len() as int))
            },
            None => seq![s],
        }
    }
}

/// The lines of `s`, as `str::lines` splits them.
pub fn lines_of(s: &str) -> (r: Vec<String>)
    ensures
        r@.map_values(|l: String| l@) == lines(s@),
{
    let v = chars_of(s);
    let nl = vec!['\n'];
    assert(nl@ =~= seq!['\n']);
    let mut out: Vec<String> = Vec::new();
    let mut start: usize = 0;
    assert(v@.subrange(0, v@.len() as int) =~= v@);
    while start < v.len()
        invariant
            start <= v@.len(),
            nl@ == seq!['\n'],
            out@.map_values(|l: String| l@) + lines(v@.subrange(start as int, v@.len() as int)) == lines(
                v@,
            ),
        decreases v@.len() - start,
    {
        let ghost rest = v@.subrange(start as int, v@.len() as int);
        let ghost before = out@.map_values(|l: String| l@);
        match find_from(&v, &nl, start) {
            Some(i) => {
                proof {
                    lemma_first_at_found(v@, nl@, start as int, i as int);
                    lemma_find_in_suffix(v@, nl@, start as int, i as int);
                }
                let end = if i > start && v[i - 1] == '\r' {
                    i - 1
                } else {
                    i
                };
                let line = string_from_range(&v, start, end);
                out.push(line);
                proof {
                    let piece = rest.subrange(0, i - start);
                    assert(piece =~= v@.subrange(start as int, i as int));
                    if i > start && v@[i - 1] == '\r' {
                        assert(piece.drop_last() =~= v@.subrange(start as int, end as int));
                    }
                    assert(strip_cr(piece) == line@);
                    assert(rest.subrange(i - start + 1, rest.len() as int) =~= v@.subrange(
                        i + 1,
                        v@.len() as int,
                    ));
                    assert(lines(rest) == seq![strip_cr(piece)] + lines(
                        rest.subrange(i - start + 1, rest.len() as int),
                    ));
                    assert(out@.map_values(|l: String| l@) =~= before.push(line@));
                    assert(before + (seq![line@] + lines(v@.subrange(i + 1, v@.len() as int)))
                        =~= before.push(line@) + lines(v@.subrange(i + 1, v@.len() as int)));
                }
                start = i + 1;
            },
            None => {
                proof {
                    lemma_find_absent_in_suffix(v@, nl@, start as int);
                }
                let line = string_from_range(&v, start, v.len());
                out.push(line);
                proof {
                    assert(lines(rest) == seq![rest]);
                    assert(out@.map_values(|l: String| l@) =~= before.push(line@));
                    assert(v@.subrange(v@.len() as int, v@.len() as int) =~= Seq::<char>::empty());
                    assert(before + seq![rest] =~= before.push(line@) + lines(Seq::<char>::empty()));
                }
                start = v.len();
            },
        }
    }
    proof {
        assert(v@.subrange(start as int, v@.len() as int) =~= Seq::<char>::empty());
        assert(out@.map_values(|l: String| l@) + Seq::<Seq<char>>::empty() =~= out@.map_values(
            |l: String| l@,
        ));
    }
    out
}

/// Lemma: the first occurrence at or after `from` is the first occurrence in
/// the suffix that starts at `from`, shifted.
pub proof fn lemma_find_in_suffix(s: Seq<char>, needle: Seq<char>, from: int, i: int)
    requires
        0 <= from <= s.len(),
        first_at(s, needle, from) == Some(i),
    ensures
        find(s.subrange(from, s.len() as int), needle) == Some(i - from),
{
    let t = s.subrange(from, s.len() as int);
    lemma_first_at_found(s, needle, from, i);
    assert forall|j: int| 0 <= j < i - from implies !occurs_at(t, needle, j) by {
        assert(!occurs_at(s, needle, j + from));
        if occurs_at(t, needle, j) {
            assert(t.subrange(j, j + needle.len()) =~= s.subrange(j + from, j + from + needle.len()));
        }
    }
    assert(t.subrange(i - from, i - from + needle.len()) =~= s.subrange(i, i + needle.len()));
    lemma_first_at_skip(t, needle, 0, i - from);
}

/// Lemma: nothing found at or after `from` means nothing found in the suffix.
pub proof fn lemma_find_absent_in_suffix(s: Seq<char>, needle: Seq<char>, from: int)
    requires
        0 <= from <= s.len(),
        first_at(s, needle, from) is None,
    ensures
        find(s.subrange(from, s.len() as int), needle) is None,
{
    let t = s.subrange(from, s.len() as int);
    assert forall|j: int| 0 <= j implies !occurs_at(t, needle, j) by {
        lemma_first_at_absent(s, needle, from, j + from);
        if occurs_at(t, needle, j) {
            assert(t.subrange(j, j + needle.len()) =~= s.subrange(j + from, j + from + needle.len()));
        }
    }
    lemma_first_at_none(t, needle, 0);
}

/// Lemma: a needle occurring nowhere at or after `from` is not found.
pub proof fn lemma_first_at_none(s: Seq<char>, needle: Seq<char>, from: int)
    requires
        0 <= from,
        forall|j: int| from <= j ==> !occurs_at(s, needle, j),
    ensures
        first_at(s, needle, from) is None,
    decreases s.len() + 1 - from,
{
    if from + needle.len() <= s.len() {
        lemma_first_at_none(s, needle, from + 1);
    }
}

} // verus!
