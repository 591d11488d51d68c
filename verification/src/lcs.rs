//! Longest common substring, used to detect two agents citing the same region of a
//! text.
use vstd::prelude::*;

use crate::strs::is_substring;

verus! {

/// `a[s..s+len]` equals `b[t..t+len]`.
pub open spec fn common_at(a: Seq<char>, b: Seq<char>, s: int, t: int, len: int) -> bool {
    &&& 0 <= s
    &&& 0 <= t
    &&& 0 <= len
    &&& s + len <= a.len()
    &&& t + len <= b.len()
    &&& forall|k: int| 0 <= k < len ==> #[trigger] a[s + k] == b[t + k]
}

/// `a[s..s+len]` occurs somewhere in `b`.
pub open spec fn is_common(a: Seq<char>, b: Seq<char>, s: int, len: int) -> bool {
    exists|t: int| common_at(a, b, s, t, len)
}

/// `a[s..s+len]` is a longest common substring of `a` and `b`, and the leftmost in
/// `a` among those of that length.
pub open spec fn is_lcs(a: Seq<char>, b: Seq<char>, s: int, len: int) -> bool {
    &&& is_common(a, b, s, len)
    &&& forall|s2: int, l2: int| #[trigger] is_common(a, b, s2, l2) ==> l2 <= len
    &&& forall|s2: int| 0 <= s2 < s ==> !#[trigger] is_common(a, b, s2, len)
}

/// The leftmost (in `a`) longest common substring of `a` and `b`.
pub open spec fn lcs(a: Seq<char>, b: Seq<char>) -> Seq<char> {
    if exists|s: int, len: int| is_lcs(a, b, s, len) {
        let (s, len) = choose|s: int, len: int| is_lcs(a, b, s, len);
        a.subrange(s, s + len)
    } else {
        seq![]
    }
}

/// Length of the longest common suffix of `a[..i]` and `b[..j]`.
pub open spec fn suf(a: Seq<char>, b: Seq<char>, i: int, j: int) -> nat
    decreases i,
{
    if i <= 0 || j <= 0 || i > a.len() || j > b.len() || a[i - 1] != b[j - 1] {
        0
    } else {
        suf(a, b, i - 1, j - 1) + 1
    }
}

proof fn lemma_suf_common(a: Seq<char>, b: Seq<char>, i: int, j: int)
    requires
        0 <= i <= a.len(),
        0 <= j <= b.len(),
    ensures
        common_at(a, b, i - suf(a, b, i, j), j - suf(a, b, i, j), suf(a, b, i, j) as int),
    decreases i,
{
    if i <= 0 || j <= 0 || a[i - 1] != b[j - 1] {
    } else {
        lemma_suf_common(a, b, i - 1, j - 1);
        let c = suf(a, b, i, j) as int;
        assert forall|k: int| 0 <= k < c implies #[trigger] a[(i - c) + k] == b[(j - c) + k] by {
            if k < c - 1 {
                assert(a[(i - 1 - (c - 1)) + k] == b[(j - 1 - (c - 1)) + k]);
            }
        }
    }
}

proof fn lemma_common_suf(a: Seq<char>, b: Seq<char>, s: int, t: int, len: int)
    requires
        common_at(a, b, s, t, len),
    ensures
        suf(a, b, s + len, t + len) >= len,
    decreases len,
{
    if len > 0 {
        assert(a[s + (len - 1)] == b[t + (len - 1)]);
        assert(common_at(a, b, s, t, len - 1));
        lemma_common_suf(a, b, s, t, len - 1);
    }
}

proof fn lemma_lcs_unique(a: Seq<char>, b: Seq<char>, s1: int, l1: int, s2: int, l2: int)
    requires
        is_lcs(a, b, s1, l1),
        is_lcs(a, b, s2, l2),
    ensures
        s1 == s2 && l1 == l2,
{
    assert(l2 <= l1);
    assert(l1 <= l2);
    if s1 < s2 {
        assert(!is_common(a, b, s1, l2));
    }
    if s2 < s1 {
        assert(!is_common(a, b, s2, l1));
    }
}

/// The leftmost longest common substring of two texts (empty when they share no
/// character): a span of `a` that also occurs in `b`, longer than no other such
/// span, and the first in `a` of its length.
pub fn longest_common_substring(a: &[char], b: &[char]) -> (r: Vec<char>)
    ensures
        r@ == lcs(a@, b@),
        exists|s: int| #[trigger] is_lcs(a@, b@, s, r@.len() as int) && r@ == a@.subrange(s, s + r@.len()),
{
    let ghost av = a@;
    let ghost bv = b@;
    let mut best_start: usize = 0;
    let mut best_len: usize = 0;
    let ghost mut best_t: int = 0;
    let mut dp: Vec<usize> = Vec::new();
    dp.push(0);
    let mut k: usize = 0;
    while k < b.len()
        invariant
            k <= b@.len(),
            dp@.len() == k + 1,
            forall|j: int| 0 <= j <= k ==> dp@[j] == suf(av, bv, 0, j),
            av == a@,
            bv == b@,
        decreases b@.len() - k,
    {
        dp.push(0);
        k = k + 1;
    }
    let mut i: usize = 0;
    while i < a.len()
        invariant
            i <= a@.len(),
            av == a@,
            bv == b@,
            dp@.len() == b@.len() + 1,
            forall|j: int| 0 <= j <= b@.len() ==> dp@[j] == suf(av, bv, i as int, j),
            best_len == 0 ==> best_start == 0 && best_t == 0,
            common_at(av, bv, best_start as int, best_t, best_len as int),
            best_start + best_len <= i,
            forall|r: int, c: int|
                1 <= r <= i && 1 <= c <= b@.len() ==> #[trigger] suf(av, bv, r, c) <= best_len,
            forall|r: int, c: int|
                1 <= r <= i && 1 <= c <= b@.len() && #[trigger] suf(av, bv, r, c) == best_len
                    && best_len > 0 ==> r - best_len >= best_start,
        decreases a@.len() - i,
    {
        let mut prev: usize = 0;
        let mut j: usize = 0;
        while j < b.len()
            invariant
                i < a@.len(),
                j <= b@.len(),
                av == a@,
                bv == b@,
                dp@.len() == b@.len() + 1,
                forall|c: int| 1 <= c <= j ==> dp@[c] == suf(av, bv, i + 1, c),
                forall|c: int| j < c <= b@.len() ==> dp@[c] == suf(av, bv, i as int, c),
                dp@[0] == 0,
                prev == suf(av, bv, i as int, j as int),
                best_len == 0 ==> best_start == 0 && best_t == 0,
                common_at(av, bv, best_start as int, best_t, best_len as int),
                best_start + best_len <= i + 1,
                forall|r: int, c: int|
                    1 <= r <= i && 1 <= c <= b@.len() ==> #[trigger] suf(av, bv, r, c) <= best_len,
                forall|c: int| 1 <= c <= j ==> #[trigger] suf(av, bv, i + 1, c) <= best_len,
                forall|r: int, c: int|
                    1 <= r <= i && 1 <= c <= b@.len() && #[trigger] suf(av, bv, r, c) == best_len
                        && best_len > 0 ==> r - best_len >= best_start,
                forall|c: int|
                    1 <= c <= j && #[trigger] suf(av, bv, i + 1, c) == best_len && best_len > 0
                        ==> i + 1 - best_len >= best_start,
            decreases b@.len() - j,
        {
            let tmp = dp[j + 1];
            if a[i] == b[j] {
                assert(suf(av, bv, i + 1, j + 1) == suf(av, bv, i as int, j as int) + 1);
                proof {
                    lemma_suf_bound(av, bv, i as int, j as int);
                }
                let v = prev + 1;
                dp.set(j + 1, v);
                if v > best_len {
                    proof {
                        lemma_suf_common(av, bv, i + 1, j + 1);
                        best_t = (j + 1 - v) as int;
                    }
                    best_len = v;
                    best_start = i + 1 - v;
                }
            } else {
                assert(suf(av, bv, i + 1, j + 1) == 0);
                dp.set(j + 1, 0);
            }
            prev = tmp;
            j = j + 1;
        }
        proof {
            assert(dp@[0] == suf(av, bv, i + 1, 0));
        }
        i = i + 1;
    }
    proof {
        assert forall|s2: int, l2: int| #[trigger] is_common(av, bv, s2, l2) implies l2 <= best_len by {
            let t2 = choose|t: int| common_at(av, bv, s2, t, l2);
            if l2 > 0 {
                lemma_common_suf(av, bv, s2, t2, l2);
                lemma_suf_bound(av, bv, s2 + l2 - 1, t2 + l2 - 1);
            }
        }
        assert forall|s2: int| 0 <= s2 < best_start implies !#[trigger] is_common(
            av,
            bv,
            s2,
            best_len as int,
        ) by {
            if is_common(av, bv, s2, best_len as int) {
                let t2 = choose|t: int| common_at(av, bv, s2, t, best_len as int);
                lemma_common_suf(av, bv, s2, t2, best_len as int);
                assert(suf(av, bv, s2 + best_len, t2 + best_len) <= best_len);
            }
        }
        assert(is_common(av, bv, best_start as int, best_len as int));
        assert(is_lcs(av, bv, best_start as int, best_len as int));
        let (s, len) = choose|s: int, len: int| is_lcs(av, bv, s, len);
        lemma_lcs_unique(av, bv, s, len, best_start as int, best_len as int);
    }
    let alen = a.len();
    assert(best_start + best_len <= alen);
    let end = best_start + best_len;
    let mut r: Vec<char> = Vec::new();
    let mut m: usize = best_start;
    while m < end
        invariant
            best_start <= m <= end == best_start + best_len <= a@.len(),
            r@ == a@.subrange(best_start as int, m as int),
        decreases end - m,
    {
        r.push(a[m]);
        m = m + 1;
    }
    assert(is_lcs(a@, b@, best_start as int, r@.len() as int));
    r
}

/// A common suffix of `a[..i+1]` and `b[..j+1]` is at most `i + 1` long.
proof fn lemma_suf_bound(a: Seq<char>, b: Seq<char>, i: int, j: int)
    ensures
        suf(a, b, i, j) <= if i < 0 { 0 } else { i },
        suf(a, b, i + 1, j + 1) <= if i + 1 < 0 { 0 } else { i + 1 },
    decreases i + 1,
{
    if i >= 0 {
        lemma_suf_bound(a, b, i - 1, j - 1);
    }
}

/// The longest common substring of two texts occurs in both of them.
pub proof fn lemma_lcs_in_both(a: Seq<char>, b: Seq<char>)
    ensures
        is_substring(lcs(a, b), a),
        is_substring(lcs(a, b), b),
{
    let w = lcs(a, b);
    if exists|s: int, len: int| is_lcs(a, b, s, len) {
        let (s, len) = choose|s: int, len: int| is_lcs(a, b, s, len);
        assert(w == a.subrange(s, s + len));
        let t = choose|t: int| common_at(a, b, s, t, len);
        assert(b.subrange(t, t + len) =~= w) by {
            assert forall|k: int| 0 <= k < len implies b.subrange(t, t + len)[k] == w[k] by {
                assert(a[s + k] == b[t + k]);
            }
        }
        assert(a.subrange(s, s + len) == w);
    } else {
        assert(a.subrange(0, 0) =~= w);
        assert(b.subrange(0, 0) =~= w);
    }
}

} // verus!
