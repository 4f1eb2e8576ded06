//! Verified string utilities for line-oriented parsing: trimming, equality,
//! substring search, and splitting a line at its first whitespace run.
//!
//! Whitespace throughout this crate means the four ASCII blanks: space, tab,
//! carriage return and line feed.

use vstd::prelude::*;

verus! {

/// Whitespace for the purposes of GML line handling: ASCII blanks only.
pub open spec fn is_ws_char(c: char) -> bool {
    c == ' ' || c == '\t' || c == '\r' || c == '\n'
}

/// Executable mirror of [`is_ws_char`].
pub fn ws_char(c: char) -> (r: bool)
    ensures
        r == is_ws_char(c),
{
    c == ' ' || c == '\t' || c == '\r' || c == '\n'
}

/// The sequence with leading whitespace removed.
pub open spec fn spec_trim_front(s: Seq<char>) -> Seq<char>
    decreases s.len(),
{
    if s.len() > 0 && is_ws_char(s.first()) {
        spec_trim_front(s.drop_first())
    } else {
        s
    }
}

/// The sequence with trailing whitespace removed.
pub open spec fn spec_trim_back(s: Seq<char>) -> Seq<char>
    decreases s.len(),
{
    if s.len() > 0 && is_ws_char(s.last()) {
        spec_trim_back(s.drop_last())
    } else {
        s
    }
}

/// The sequence with whitespace removed from both ends.
pub open spec fn spec_trim(s: Seq<char>) -> Seq<char> {
    spec_trim_back(spec_trim_front(s))
}

proof fn lemma_trim_front_idx(s: Seq<char>, i: int)
    requires
        0 <= i <= s.len(),
        forall|j: int| 0 <= j < i ==> is_ws_char(s[j]),
        i < s.len() ==> !is_ws_char(s[i]),
    ensures
        spec_trim_front(s) == s.subrange(i, s.len() as int),
    decreases i,
{
    if i == 0 {
        assert(s.subrange(0, s.len() as int) =~= s);
    } else {
        assert(s.drop_first() =~= s.subrange(1, s.len() as int));
        lemma_trim_front_idx(s.drop_first(), i - 1);
        assert(s.drop_first().subrange(i - 1, s.drop_first().len() as int) =~= s.subrange(
            i,
            s.len() as int,
        ));
    }
}

proof fn lemma_trim_back_idx(s: Seq<char>, k: int)
    requires
        0 <= k <= s.len(),
        forall|m: int| k <= m < s.len() ==> is_ws_char(s[m]),
        k > 0 ==> !is_ws_char(s[k - 1]),
    ensures
        spec_trim_back(s) == s.subrange(0, k),
    decreases s.len(),
{
    if k == s.len() {
        assert(s.subrange(0, k) =~= s);
    } else {
        assert(is_ws_char(s.last()));
        assert(s.drop_last() =~= s.subrange(0, s.len() - 1));
        lemma_trim_back_idx(s.drop_last(), k);
        assert(s.drop_last().subrange(0, k) =~= s.subrange(0, k));
    }
}

/// Remove leading and trailing whitespace.
pub fn trim_str(s: &str) -> (r: &str)
    ensures
        r@ == spec_trim(s@),
{
    let len = s.unicode_len();
    let mut i: usize = 0;
    while i < len && ws_char(s.get_char(i))
        invariant
            0 <= i <= len,
            forall|j: int| 0 <= j < i ==> is_ws_char(s@[j]),
        decreases len - i,
    {
        i = i + 1;
    }
    let mut j: usize = len;
    while j > i && ws_char(s.get_char(j - 1))
        invariant
            i <= j <= len,
            forall|m: int| j <= m < len ==> is_ws_char(s@[m]),
        decreases j,
    {
        j = j - 1;
    }
    let r = s.substring_char(i, j);
    proof {
        lemma_trim_front_idx(s@, i as int);
        let t = s@.subrange(i as int, s@.len() as int);
        lemma_trim_back_idx(t, j - i);
        assert(t.subrange(0, j - i) =~= s@.subrange(i as int, j as int));
    }
    r
}

/// Character-for-character string equality.
pub fn str_eq(a: &str, b: &str) -> (r: bool)
    ensures
        r == (a@ == b@),
{
    let la = a.unicode_len();
    let lb = b.unicode_len();
    if la != lb {
        return false;
    }
    let mut i: usize = 0;
    while i < la
        invariant
            0 <= i <= la,
            la == a@.len(),
            a@.len() == b@.len(),
            forall|j: int| 0 <= j < i ==> a@[j] == b@[j],
        decreases la - i,
    {
        if a.get_char(i) != b.get_char(i) {
            return false;
        }
        i = i + 1;
    }
    proof {
        assert(a@ =~= b@);
    }
    true
}

/// `pat` occurs in `s` starting at position `i`.
pub open spec fn matches_at(s: Seq<char>, pat: Seq<char>, i: int) -> bool {
    0 <= i && i + pat.len() <= s.len() && s.subrange(i, i + pat.len() as int) == pat
}

/// `pat` occurs somewhere in `s`.
pub open spec fn has_sub(s: Seq<char>, pat: Seq<char>) -> bool {
    exists|i: int| matches_at(s, pat, i)
}

/// Substring search: does `pat` occur anywhere in `s`?
pub fn contains_sub(s: &str, pat: &str) -> (r: bool)
    ensures
        r == has_sub(s@, pat@),
{
    let n = s.unicode_len();
    let m = pat.unicode_len();
    if m > n {
        return false;
    }
    if m == 0 {
        proof {
            assert(s@.subrange(0, 0) =~= pat@);
            assert(matches_at(s@, pat@, 0));
        }
        return true;
    }
    let mut i: usize = 0;
    while i <= n - m
        invariant
            0 < m <= n,
            n == s@.len(),
            m == pat@.len(),
            0 <= i <= n - m + 1,
            forall|k: int| 0 <= k < i ==> !matches_at(s@, pat@, k),
        decreases n - i,
    {
        let mut j: usize = 0;
        let mut ok = true;
        while j < m && ok
            invariant
                0 <= j <= m,
                i + m <= n,
                ok ==> forall|t: int| 0 <= t < j ==> s@[i + t] == pat@[t],
                !ok ==> !matches_at(s@, pat@, i as int),
            decreases m - j,
        {
            if s.get_char(i + j) != pat.get_char(j) {
                proof {
                    assert(s@.subrange(i as int, i + m as int)[j as int] != pat@[j as int]);
                }
                ok = false;
            }
            j = j + 1;
        }
        if ok {
            proof {
                assert(s@.subrange(i as int, i + m as int) =~= pat@);
                assert(matches_at(s@, pat@, i as int));
            }
            return true;
        }
        i = i + 1;
    }
    proof {
        assert(forall|k: int| matches_at(s@, pat@, k) ==> 0 <= k <= n - m);
    }
    false
}

/// Index of the first whitespace character, or the length if there is none.
pub open spec fn first_ws_at(s: Seq<char>) -> int
    decreases s.len(),
{
    if s.len() == 0 {
        0
    } else if is_ws_char(s.first()) {
        0
    } else {
        1 + first_ws_at(s.drop_first())
    }
}

proof fn lemma_first_ws_at(s: Seq<char>)
    ensures
        0 <= first_ws_at(s) <= s.len(),
        forall|j: int| 0 <= j < first_ws_at(s) ==> !is_ws_char(s[j]),
        first_ws_at(s) < s.len() ==> is_ws_char(s[first_ws_at(s)]),
    decreases s.len(),
{
    if s.len() == 0 {
    } else if is_ws_char(s.first()) {
    } else {
        lemma_first_ws_at(s.drop_first());
        let f = first_ws_at(s);
        assert forall|j: int| 0 <= j < f implies !is_ws_char(s[j]) by {
            if j > 0 {
                assert(s[j] == s.drop_first()[j - 1]);
            }
        }
        if f < s.len() {
            assert(s[f] == s.drop_first()[f - 1]);
        }
    }
}

/// End of the whitespace run that starts at `i`.
pub open spec fn ws_run_end(s: Seq<char>, i: int) -> int
    decreases s.len() - i,
    when 0 <= i <= s.len()
{
    if i < s.len() && is_ws_char(s[i]) {
        ws_run_end(s, i + 1)
    } else {
        i
    }
}

pub proof fn lemma_ws_run_end(s: Seq<char>, i: int)
    requires
        0 <= i <= s.len(),
    ensures
        i <= ws_run_end(s, i) <= s.len(),
        forall|j: int| i <= j < ws_run_end(s, i) ==> is_ws_char(s[j]),
        ws_run_end(s, i) < s.len() ==> !is_ws_char(s[ws_run_end(s, i)]),
    decreases s.len() - i,
{
    if i < s.len() && is_ws_char(s[i]) {
        lemma_ws_run_end(s, i + 1);
    }
}

/// Advance past the whitespace run that starts at `i`.
pub fn skip_ws(s: &str, i: usize) -> (r: usize)
    requires
        i <= s@.len(),
    ensures
        r as int == ws_run_end(s@, i as int),
        i <= r <= s@.len(),
{
    let len = s.unicode_len();
    let mut cur = i;
    while cur < len && ws_char(s.get_char(cur))
        invariant
            i <= cur <= len,
            len == s@.len(),
            ws_run_end(s@, i as int) == ws_run_end(s@, cur as int),
        decreases len - cur,
    {
        cur = cur + 1;
    }
    cur
}

/// A line split at its first whitespace run: the name before the run and the
/// rest after it. `None` when the line holds no whitespace at all or nothing
/// follows the run.
pub open spec fn spec_split_kv(s: Seq<char>) -> Option<(Seq<char>, Seq<char>)> {
    let k = first_ws_at(s);
    if k == s.len() {
        Option::None
    } else {
        let v = ws_run_end(s, k);
        if v == s.len() {
            Option::None
        } else {
            Option::Some((s.subrange(0, k), s.subrange(v, s.len() as int)))
        }
    }
}

/// Split a line into an attribute name and a value at the first whitespace
/// run.
pub fn split_kv<'a>(s: &'a str) -> (r: Option<(&'a str, &'a str)>)
    ensures
        r is None <==> spec_split_kv(s@) is None,
        r matches Some(p) ==> spec_split_kv(s@) == Some((p.0@, p.1@)),
{
    let len = s.unicode_len();
    let mut k: usize = 0;
    while k < len && !ws_char(s.get_char(k))
        invariant
            0 <= k <= len,
            forall|j: int| 0 <= j < k ==> !is_ws_char(s@[j]),
        decreases len - k,
    {
        k = k + 1;
    }
    proof {
        lemma_first_ws_at(s@);
        // the loop's exit conditions pin k down to first_ws_at
        if (k as int) < first_ws_at(s@) {
            assert(is_ws_char(s@[k as int]));
        }
        if first_ws_at(s@) < k as int {
            assert(!is_ws_char(s@[first_ws_at(s@)]));
        }
        assert(k as int == first_ws_at(s@));
    }
    if k == len {
        return None;
    }
    let mut v: usize = k;
    while v < len && ws_char(s.get_char(v))
        invariant
            k <= v <= len,
            forall|j: int| k <= j < v ==> is_ws_char(s@[j]),
        decreases len - v,
    {
        v = v + 1;
    }
    proof {
        lemma_ws_run_end(s@, k as int);
        if (v as int) < ws_run_end(s@, k as int) {
            assert(!is_ws_char(s@[v as int]));
        }
        if ws_run_end(s@, k as int) < v as int {
            assert(is_ws_char(s@[ws_run_end(s@, k as int)]));
        }
        assert(v as int == ws_run_end(s@, k as int));
    }
    if v == len {
        return None;
    }
    let name = s.substring_char(0, k);
    let value = s.substring_char(v, len);
    Some((name, value))
}

/// Does the sequence contain the character `c`?
pub fn contains_char(s: &str, c: char) -> (r: bool)
    ensures
        r == s@.contains(c),
{
    let len = s.unicode_len();
    let mut i: usize = 0;
    while i < len
        invariant
            0 <= i <= len,
            forall|j: int| 0 <= j < i ==> s@[j] != c,
        decreases len - i,
    {
        if s.get_char(i) == c {
            return true;
        }
        i = i + 1;
    }
    proof {
        assert(forall|j: int| 0 <= j < s@.len() ==> s@[j] != c);
    }
    false
}

/// Is the first character of `s` equal to `c`?
pub fn first_char_is(s: &str, c: char) -> (r: bool)
    ensures
        r == (s@.len() > 0 && s@.first() == c),
{
    let len = s.unicode_len();
    if len == 0 {
        false
    } else {
        s.get_char(0) == c
    }
}

/// Index of the first pair whose key equals `k`, or `-1`.
pub open spec fn pair_find_idx<K, V>(s: Seq<(K, V)>, k: K) -> int
    decreases s.len(),
{
    if s.len() == 0 {
        -1
    } else if s.first().0 == k {
        0
    } else {
        let r = pair_find_idx(s.drop_first(), k);
        if r < 0 {
            -1
        } else {
            1 + r
        }
    }
}

pub proof fn lemma_pair_find_idx<K, V>(s: Seq<(K, V)>, k: K)
    ensures
        pair_find_idx(s, k) >= -1,
        pair_find_idx(s, k) < s.len(),
        pair_find_idx(s, k) >= 0 ==> s[pair_find_idx(s, k)].0 == k,
        forall|j: int|
            0 <= j < s.len() && (pair_find_idx(s, k) < 0 || j < pair_find_idx(s, k)) ==> (
            #[trigger] s[j]).0 != k,
    decreases s.len(),
{
    if s.len() > 0 && s.first().0 != k {
        lemma_pair_find_idx(s.drop_first(), k);
        let r = pair_find_idx(s.drop_first(), k);
        assert forall|j: int|
            0 <= j < s.len() && (pair_find_idx(s, k) < 0 || j < pair_find_idx(s, k)) implies (
        #[trigger] s[j]).0 != k by {
            if j > 0 {
                assert(s[j] == s.drop_first()[j - 1]);
            }
        }
    }
}

/// Is the last character of `s` equal to `c`?
pub fn last_char_is(s: &str, c: char) -> (r: bool)
    ensures
        r == (s@.len() > 0 && s@.last() == c),
{
    let len = s.unicode_len();
    if len == 0 {
        false
    } else {
        s.get_char(len - 1) == c
    }
}

} // verus!
