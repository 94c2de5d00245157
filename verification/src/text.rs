//! Whitespace classification and trimming over character sequences.

use vstd::prelude::*;

verus! {

/// A character with the Unicode `White_Space` property; the set that
/// `str::trim` strips from the ends of a string.
pub open spec fn is_space(c: char) -> bool {
    let v = c as u32;
    (0x09 <= v && v <= 0x0D) || v == 0x20 || v == 0x85 || v == 0xA0 || v == 0x1680 || (0x2000 <= v
        && v <= 0x200A) || v == 0x2028 || v == 0x2029 || v == 0x202F || v == 0x205F || v == 0x3000
}

/// Decides `is_space` for one character.
pub fn char_is_space(c: char) -> (r: bool)
    ensures
        r == is_space(c),
{
    let v = c as u32;
    (0x09 <= v && v <= 0x0D) || v == 0x20 || v == 0x85 || v == 0xA0 || v == 0x1680 || (0x2000 <= v
        && v <= 0x200A) || v == 0x2028 || v == 0x2029 || v == 0x202F || v == 0x205F || v == 0x3000
}

/// First index at or after `i` whose character is not whitespace, or the
/// length of `s` if only whitespace follows.
pub open spec fn scan_space(s: Seq<char>, i: int) -> int
    decreases s.len() - i,
{
    if 0 <= i < s.len() && is_space(s[i]) {
        scan_space(s, i + 1)
    } else {
        i
    }
}

/// Last position at or before `i` preceded by a non-whitespace character,
/// or 0 if only whitespace precedes `i`.
pub open spec fn scan_space_back(s: Seq<char>, i: int) -> int
    decreases i,
{
    if 0 < i <= s.len() && is_space(s[i - 1]) {
        scan_space_back(s, i - 1)
    } else {
        i
    }
}

/// The sequence with leading and trailing whitespace removed: what
/// trimming the corresponding string yields.
pub open spec fn trim_spec(s: Seq<char>) -> Seq<char> {
    let lo = scan_space(s, 0);
    let hi = scan_space_back(s, s.len() as int);
    if lo < hi {
        s.subrange(lo, hi)
    } else {
        Seq::empty()
    }
}

proof fn lemma_scan_space_bounds(s: Seq<char>, i: int)
    requires
        0 <= i <= s.len(),
    ensures
        i <= scan_space(s, i) <= s.len(),
        forall|k: int| i <= k < scan_space(s, i) ==> is_space(s[k]),
        scan_space(s, i) < s.len() ==> !is_space(s[scan_space(s, i)]),
    decreases s.len() - i,
{
    if i < s.len() && is_space(s[i]) {
        lemma_scan_space_bounds(s, i + 1);
    }
}

proof fn lemma_scan_space_back_bounds(s: Seq<char>, i: int)
    requires
        0 <= i <= s.len(),
    ensures
        0 <= scan_space_back(s, i) <= i,
        forall|k: int| scan_space_back(s, i) <= k < i ==> is_space(s[k]),
        scan_space_back(s, i) > 0 ==> !is_space(s[scan_space_back(s, i) - 1]),
    decreases i,
{
    if 0 < i && is_space(s[i - 1]) {
        lemma_scan_space_back_bounds(s, i - 1);
    }
}

proof fn lemma_scan_space_through(u: Seq<char>, j: int, m: int)
    requires
        0 <= j <= m <= u.len(),
        forall|k: int| j <= k < m ==> is_space(u[k]),
    ensures
        scan_space(u, j) == scan_space(u, m),
    decreases m - j,
{
    if j < m {
        lemma_scan_space_through(u, j + 1, m);
    }
}

proof fn lemma_scan_space_back_through(u: Seq<char>, j: int, m: int)
    requires
        0 <= m <= j <= u.len(),
        forall|k: int| m <= k < j ==> is_space(u[k]),
    ensures
        scan_space_back(u, j) == scan_space_back(u, m),
    decreases j - m,
{
    if m < j {
        lemma_scan_space_back_through(u, j - 1, m);
    }
}

proof fn lemma_scan_space_concat(pre: Seq<char>, t: Seq<char>, k: int)
    requires
        0 <= k <= t.len(),
    ensures
        scan_space(pre + t, pre.len() + k) == pre.len() + scan_space(t, k),
    decreases t.len() - k,
{
    if k < t.len() && is_space(t[k]) {
        lemma_scan_space_concat(pre, t, k + 1);
    }
}

proof fn lemma_scan_space_stops_inside(t: Seq<char>, post: Seq<char>, k: int)
    requires
        0 <= k <= t.len(),
        scan_space(t, k) < t.len(),
    ensures
        scan_space(t + post, k) == scan_space(t, k),
    decreases t.len() - k,
{
    if k < t.len() && is_space(t[k]) {
        lemma_scan_space_stops_inside(t, post, k + 1);
    }
}

proof fn lemma_scan_space_back_prefix(t: Seq<char>, post: Seq<char>, k: int)
    requires
        0 <= k <= t.len(),
    ensures
        scan_space_back(t + post, k) == scan_space_back(t, k),
    decreases k,
{
    if 0 < k && is_space(t[k - 1]) {
        lemma_scan_space_back_prefix(t, post, k - 1);
    }
}

proof fn lemma_scan_space_back_concat(pre: Seq<char>, t: Seq<char>, k: int)
    requires
        0 <= k <= t.len(),
        scan_space_back(t, k) > 0,
    ensures
        scan_space_back(pre + t, pre.len() + k) == pre.len() + scan_space_back(t, k),
    decreases k,
{
    if 0 < k && is_space(t[k - 1]) {
        lemma_scan_space_back_concat(pre, t, k - 1);
    }
}

/// Surrounding a sequence with whitespace does not change what trimming
/// it yields.
pub proof fn lemma_trim_ignores_padding(pre: Seq<char>, s: Seq<char>, post: Seq<char>)
    requires
        forall|k: int| 0 <= k < pre.len() ==> is_space(pre[k]),
        forall|k: int| 0 <= k < post.len() ==> is_space(post[k]),
    ensures
        trim_spec(pre + s + post) == trim_spec(s),
{
    let u = pre + s + post;
    assert(u =~= pre + (s + post));
    assert(u =~= (pre + s) + post);
    lemma_scan_space_bounds(s, 0);
    lemma_scan_space_back_bounds(s, s.len() as int);
    let ls = scan_space(s, 0);
    let hs = scan_space_back(s, s.len() as int);
    if ls < s.len() {
        // `s` holds a non-whitespace character, so trimming stays inside `s`.
        assert(hs > ls) by {
            if hs <= ls {
                assert(is_space(s[ls]));
            }
        }
        lemma_scan_space_through(u, 0, pre.len() as int);
        lemma_scan_space_concat(pre, s + post, 0);
        lemma_scan_space_stops_inside(s, post, 0);
        assert(scan_space(u, 0) == pre.len() + ls);
        lemma_scan_space_back_through(u, u.len() as int, (pre.len() + s.len()) as int);
        lemma_scan_space_back_prefix(pre + s, post, (pre.len() + s.len()) as int);
        lemma_scan_space_back_concat(pre, s, s.len() as int);
        assert(scan_space_back(u, u.len() as int) == pre.len() + hs);
        assert(u.subrange(pre.len() + ls, pre.len() + hs) =~= s.subrange(ls, hs));
    } else {
        // `s` is all whitespace, so both sides trim to the empty sequence.
        assert(forall|k: int| 0 <= k < s.len() ==> is_space(s[k]));
        assert(forall|k: int| 0 <= k < u.len() ==> is_space(u[k])) by {
            assert(forall|k: int| 0 <= k < pre.len() ==> u[k] == pre[k]);
            assert(forall|k: int|
                pre.len() <= k < pre.len() + s.len() ==> u[k] == s[k - pre.len()]);
            assert(forall|k: int|
                pre.len() + s.len() <= k < u.len() ==> u[k] == post[k - pre.len() - s.len()]);
        }
        lemma_scan_space_through(u, 0, u.len() as int);
        lemma_scan_space_back_through(u, u.len() as int, 0);
        lemma_scan_space_back_through(s, s.len() as int, 0);
        assert(trim_spec(u) =~= Seq::<char>::empty());
        assert(trim_spec(s) =~= Seq::<char>::empty());
    }
}

/// Removes leading and trailing whitespace, as `str::trim` does.
pub fn trim(s: &str) -> (r: String)
    ensures
        r@ == trim_spec(s@),
{
    let n = s.unicode_len();
    let mut lo: usize = 0;
    while lo < n && char_is_space(s.get_char(lo))
        invariant
            0 <= lo <= n,
            n == s@.len(),
            scan_space(s@, 0) == scan_space(s@, lo as int),
        decreases n - lo,
    {
        assert(scan_space(s@, lo as int) == scan_space(s@, lo + 1));
        lo = lo + 1;
    }
    assert(scan_space(s@, 0) == lo);
    let mut hi: usize = n;
    while hi > lo && char_is_space(s.get_char(hi - 1))
        invariant
            lo <= hi <= n,
            n == s@.len(),
            lo == scan_space(s@, 0),
            scan_space_back(s@, n as int) == scan_space_back(s@, hi as int),
        decreases hi,
    {
        assert(scan_space_back(s@, hi as int) == scan_space_back(s@, hi - 1));
        hi = hi - 1;
    }
    proof {
        lemma_scan_space_bounds(s@, 0);
        lemma_scan_space_back_bounds(s@, n as int);
    }
    if lo < hi {
        assert(scan_space_back(s@, hi as int) == hi);
        let r = s.substring_char(lo, hi);
        String::from_str(r)
    } else {
        proof {
            lemma_scan_space_back_bounds(s@, hi as int);
        }
        assert(trim_spec(s@) =~= Seq::<char>::empty());
        String::new()
    }
}

} // verus!
