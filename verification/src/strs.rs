//! Character-level text primitives shared by the lenses and the agents.
//!
//! Every primitive is stated over `Seq<char>` by a spec function that scans the
//! text left to right, and implemented over `Vec<char>`/`&[char]`.
use vstd::prelude::*;

verus! {

// ───────────────────────────── conversions ─────────────────────────────

/// The characters of `s`, in order.
pub fn chars_of(s: &str) -> (r: Vec<char>)
    ensures
        r@ == s@,
{
    let mut r: Vec<char> = Vec::new();
    for c in it: s.chars()
        invariant
            it.seq() == s@,
            r@ == it.seq().take(it.index() as int),
    {
        r.push(c);
    }
    r
}

/// A `String` holding exactly the characters `v`, in order.
///
/// Trusted: `String::from_iter` over `&char` items appends each character in turn,
/// as std documents for collecting characters into a `String`.
#[verifier::external_body]
pub fn string_of(v: &[char]) -> (r: String)
    ensures
        r@ == v@,
{
    String::from_iter(v.iter())
}

/// What `str::to_lowercase` returns for a text: Unicode lowercase mapping, with the
/// context-dependent final-sigma rule; the result depends on the characters alone.
pub uninterp spec fn lowercase_of(s: Seq<char>) -> Seq<char>;

/// What `char::is_alphanumeric` returns (Unicode Alphabetic or Numeric).
pub uninterp spec fn is_alphanumeric_char(c: char) -> bool;

/// What `char::is_alphabetic` returns (Unicode Alphabetic).
pub uninterp spec fn is_alphabetic_char(c: char) -> bool;

/// Trusted: calls `str::to_lowercase`; the contract only names its result.
#[verifier::external_body]
fn str_to_lowercase(s: &str) -> (r: String)
    ensures
        r@ == lowercase_of(s@),
{
    s.to_lowercase()
}

/// Trusted: calls `char::is_alphanumeric`; the contract only names its result.
#[verifier::external_body]
pub fn char_is_alphanumeric(c: char) -> (r: bool)
    ensures
        r == is_alphanumeric_char(c),
{
    c.is_alphanumeric()
}

/// Trusted: calls `char::is_alphabetic`; the contract only names its result.
#[verifier::external_body]
pub fn char_is_alphabetic(c: char) -> (r: bool)
    ensures
        r == is_alphabetic_char(c),
{
    c.is_alphabetic()
}

/// The lowercase form of `s`, as `str::to_lowercase` computes it.
pub fn lowercase(s: &[char]) -> (r: Vec<char>)
    ensures
        r@ == lowercase_of(s@),
{
    let st = string_of(s);
    let low = str_to_lowercase(st.as_str());
    chars_of(low.as_str())
}

/// A copy of `s[a..b]`.
pub fn subrange(s: &[char], a: usize, b: usize) -> (r: Vec<char>)
    requires
        a <= b <= s@.len(),
    ensures
        r@ == s@.subrange(a as int, b as int),
{
    let mut r: Vec<char> = Vec::new();
    let mut i = a;
    while i < b
        invariant
            a <= i <= b <= s@.len(),
            r@ == s@.subrange(a as int, i as int),
        decreases b - i,
    {
        r.push(s[i]);
        i = i + 1;
    }
    r
}

/// `a` followed by `b`.
pub fn concat(a: &[char], b: &[char]) -> (r: Vec<char>)
    ensures
        r@ == a@ + b@,
{
    let mut r = subrange(a, 0, a.len());
    let mut i: usize = 0;
    while i < b.len()
        invariant
            i <= b@.len(),
            r@ == a@ + b@.take(i as int),
        decreases b.len() - i,
    {
        r.push(b[i]);
        i = i + 1;
        assert(b@.take(i as int) == b@.take(i - 1) + seq![b@[i - 1]]);
    }
    assert(b@.take(b@.len() as int) == b@);
    r
}

/// The texts held by a vector of character vectors.
pub open spec fn views(v: Seq<Vec<char>>) -> Seq<Seq<char>> {
    v.map_values(|x: Vec<char>| x@)
}

// ───────────────────────────── whitespace ─────────────────────────────

/// `char::is_whitespace`: the Unicode `White_Space` property.
pub open spec fn is_ws(c: char) -> bool {
    ||| c == ' '
    ||| ('\u{9}' <= c && c <= '\u{d}')
    ||| c == '\u{85}'
    ||| c == '\u{a0}'
    ||| c == '\u{1680}'
    ||| ('\u{2000}' <= c && c <= '\u{200a}')
    ||| c == '\u{2028}'
    ||| c == '\u{2029}'
    ||| c == '\u{202f}'
    ||| c == '\u{205f}'
    ||| c == '\u{3000}'
}

pub fn is_whitespace(c: char) -> (r: bool)
    ensures
        r == is_ws(c),
{
    c == ' ' || ('\u{9}' <= c && c <= '\u{d}') || c == '\u{85}' || c == '\u{a0}' || c
        == '\u{1680}' || ('\u{2000}' <= c && c <= '\u{200a}') || c == '\u{2028}' || c
        == '\u{2029}' || c == '\u{202f}' || c == '\u{205f}' || c == '\u{3000}'
}

/// `str::trim_start`: drops leading whitespace.
pub open spec fn trim_start(s: Seq<char>) -> Seq<char>
    decreases s.len(),
{
    if s.len() > 0 && is_ws(s[0]) {
        trim_start(s.drop_first())
    } else {
        s
    }
}

/// `str::trim_end`: drops trailing whitespace.
pub open spec fn trim_end(s: Seq<char>) -> Seq<char>
    decreases s.len(),
{
    if s.len() > 0 && is_ws(s.last()) {
        trim_end(s.drop_last())
    } else {
        s
    }
}

/// `str::trim`: drops leading and trailing whitespace.
pub open spec fn trim(s: Seq<char>) -> Seq<char> {
    trim_end(trim_start(s))
}

/// Index of the first non-whitespace character of `s` at or after `i` (or `s.len()`).
pub open spec fn ws_skip(s: Seq<char>, i: int) -> int
    decreases s.len() - i,
{
    if 0 <= i < s.len() && is_ws(s[i]) {
        ws_skip(s, i + 1)
    } else {
        i
    }
}

proof fn lemma_trim_start_skip(s: Seq<char>, i: int)
    requires
        0 <= i <= s.len(),
    ensures
        trim_start(s.subrange(i, s.len() as int)) == s.subrange(
            ws_skip(s, i),
            s.len() as int,
        ),
        i <= ws_skip(s, i) <= s.len(),
    decreases s.len() - i,
{
    let t = s.subrange(i, s.len() as int);
    if i < s.len() && is_ws(s[i]) {
        assert(t.drop_first() =~= s.subrange(i + 1, s.len() as int));
        lemma_trim_start_skip(s, i + 1);
    }
}

/// Length of `s` once trailing whitespace before position `j` is dropped.
pub open spec fn ws_back(s: Seq<char>, j: int) -> int
    decreases j,
{
    if 0 < j <= s.len() && is_ws(s[j - 1]) {
        ws_back(s, j - 1)
    } else {
        j
    }
}

proof fn lemma_trim_end_back(s: Seq<char>, a: int, j: int)
    requires
        0 <= a <= j <= s.len(),
    ensures
        trim_end(s.subrange(a, j)) == s.subrange(a, if ws_back(s, j) < a { a } else { ws_back(s, j) }),
        ws_back(s, j) <= j,
    decreases j,
{
    let t = s.subrange(a, j);
    if 0 < j && is_ws(s[j - 1]) {
        if a < j {
            assert(t.drop_last() =~= s.subrange(a, j - 1));
            lemma_trim_end_back(s, a, j - 1);
        } else {
            lemma_ws_back_le(s, j - 1);
        }
    }
}

proof fn lemma_ws_back_le(s: Seq<char>, j: int)
    requires
        0 <= j <= s.len(),
    ensures
        ws_back(s, j) <= j,
    decreases j,
{
    if 0 < j && is_ws(s[j - 1]) {
        lemma_ws_back_le(s, j - 1);
    }
}

/// Start and end of `trim(s[a..b])` inside `s`.
pub fn trim_bounds(s: &[char], a: usize, b: usize) -> (r: (usize, usize))
    requires
        a <= b <= s@.len(),
    ensures
        a <= r.0 <= r.1 <= b,
        trim(s@.subrange(a as int, b as int)) == s@.subrange(r.0 as int, r.1 as int),
{
    let mut i = a;
    while i < b && is_whitespace(s[i])
        invariant
            a <= i <= b <= s@.len(),
            trim_start(s@.subrange(a as int, b as int)) == trim_start(s@.subrange(i as int, b as int)),
        decreases b - i,
    {
        assert(s@.subrange(i as int, b as int).drop_first() =~= s@.subrange(i + 1, b as int));
        i = i + 1;
    }
    assert(trim_start(s@.subrange(i as int, b as int)) == s@.subrange(i as int, b as int));
    let mut j = b;
    while j > i && is_whitespace(s[j - 1])
        invariant
            a <= i <= j <= b <= s@.len(),
            trim(s@.subrange(a as int, b as int)) == trim_end(s@.subrange(i as int, j as int)),
        decreases j,
    {
        assert(s@.subrange(i as int, j as int).drop_last() =~= s@.subrange(i as int, j - 1));
        j = j - 1;
    }
    (i, j)
}

/// A copy of `trim(s)`.
pub fn trim_vec(s: &[char]) -> (r: Vec<char>)
    ensures
        r@ == trim(s@),
{
    let (i, j) = trim_bounds(s, 0, s.len());
    assert(s@.subrange(0, s@.len() as int) =~= s@);
    subrange(s, i, j)
}

/// A copy of `trim_start(s)`.
pub fn trim_start_vec(s: &[char]) -> (r: Vec<char>)
    ensures
        r@ == trim_start(s@),
{
    let mut i: usize = 0;
    assert(s@.subrange(0, s@.len() as int) =~= s@);
    while i < s.len() && is_whitespace(s[i])
        invariant
            i <= s@.len(),
            trim_start(s@) == trim_start(s@.subrange(i as int, s@.len() as int)),
        decreases s.len() - i,
    {
        assert(s@.subrange(i as int, s@.len() as int).drop_first() =~= s@.subrange(
            i + 1,
            s@.len() as int,
        ));
        i = i + 1;
    }
    subrange(s, i, s.len())
}

/// Whether `trim(s)` is empty, i.e. `s` is all whitespace.
pub fn is_blank(s: &[char]) -> (r: bool)
    ensures
        r == (trim(s@).len() == 0),
{
    let (i, j) = trim_bounds(s, 0, s.len());
    assert(s@.subrange(0, s@.len() as int) =~= s@);
    i == j
}

// ───────────────────────────── spans ─────────────────────────────

/// `t` occurs in `s` as one contiguous span.
pub open spec fn is_substring(t: Seq<char>, s: Seq<char>) -> bool {
    exists|a: int, b: int| 0 <= a <= b <= s.len() && #[trigger] s.subrange(a, b) == t
}

pub proof fn lemma_range_is_substring(s: Seq<char>, a: int, b: int)
    requires
        0 <= a <= b <= s.len(),
    ensures
        is_substring(s.subrange(a, b), s),
{
}

pub proof fn lemma_substring_trans(x: Seq<char>, y: Seq<char>, z: Seq<char>)
    requires
        is_substring(x, y),
        is_substring(y, z),
    ensures
        is_substring(x, z),
{
    let (a, b) = choose|a: int, b: int| 0 <= a <= b <= z.len() && #[trigger] z.subrange(a, b) == y;
    let (c, d) = choose|c: int, d: int| 0 <= c <= d <= y.len() && #[trigger] y.subrange(c, d) == x;
    assert(z.subrange(a + c, a + d) =~= x);
}

proof fn lemma_trim_start_suffix(t: Seq<char>) -> (k: int)
    ensures
        0 <= k <= t.len(),
        trim_start(t) == t.subrange(k, t.len() as int),
    decreases t.len(),
{
    if t.len() > 0 && is_ws(t[0]) {
        let k = lemma_trim_start_suffix(t.drop_first());
        assert(t.drop_first().subrange(k, t.len() - 1) =~= t.subrange(k + 1, t.len() as int));
        k + 1
    } else {
        assert(t.subrange(0, t.len() as int) =~= t);
        0
    }
}

proof fn lemma_trim_end_prefix(t: Seq<char>) -> (k: int)
    ensures
        0 <= k <= t.len(),
        trim_end(t) == t.subrange(0, k),
    decreases t.len(),
{
    if t.len() > 0 && is_ws(t.last()) {
        let k = lemma_trim_end_prefix(t.drop_last());
        assert(t.drop_last().subrange(0, k) =~= t.subrange(0, k));
        k
    } else {
        assert(t.subrange(0, t.len() as int) =~= t);
        t.len() as int
    }
}

/// `trim(t)` is a span of `t`.
pub proof fn lemma_trim_substring(t: Seq<char>)
    ensures
        is_substring(trim(t), t),
{
    let k1 = lemma_trim_start_suffix(t);
    let u = trim_start(t);
    let k2 = lemma_trim_end_prefix(u);
    assert(t.subrange(k1, k1 + k2) =~= trim(t));
}

proof fn lemma_split_by_from_substrings(s: Seq<char>, d: Delim, i: int, start: int)
    requires
        0 <= start <= i <= s.len(),
    ensures
        forall|k: int|
            0 <= k < split_by_from(s, d, i, start).len() ==> is_substring(
                #[trigger] split_by_from(s, d, i, start)[k],
                s,
            ),
    decreases s.len() - i,
{
    if i < 0 || i >= s.len() {
        lemma_range_is_substring(s, start, s.len() as int);
        let all = split_by_from(s, d, i, start);
        assert(all == seq![s.subrange(start, s.len() as int)]);
        assert(all[0] == s.subrange(start, s.len() as int));
    } else if is_delim(d, s[i]) {
        lemma_split_by_from_substrings(s, d, i + 1, i + 1);
        lemma_range_is_substring(s, start, i);
        let rest = split_by_from(s, d, i + 1, i + 1);
        let all = seq![s.subrange(start, i)] + rest;
        assert(split_by_from(s, d, i, start) == all);
        assert forall|k: int| 0 <= k < all.len() implies is_substring(#[trigger] all[k], s) by {
            if k > 0 {
                assert(all[k] == rest[k - 1]);
            }
        }
    } else {
        lemma_split_by_from_substrings(s, d, i + 1, start);
        assert(split_by_from(s, d, i, start) == split_by_from(s, d, i + 1, start));
    }
}

/// Every piece of `split_by(s, d)` is a span of `s`.
pub proof fn lemma_split_by_substrings(s: Seq<char>, d: Delim)
    ensures
        forall|k: int|
            0 <= k < split_by(s, d).len() ==> is_substring(#[trigger] split_by(s, d)[k], s),
{
    lemma_split_by_from_substrings(s, d, 0, 0);
}

proof fn lemma_split_pat_from_substrings(s: Seq<char>, p: Seq<char>, i: int, start: int)
    requires
        0 <= start <= i <= s.len(),
    ensures
        forall|k: int|
            0 <= k < split_pat_from(s, p, i, start).len() ==> is_substring(
                #[trigger] split_pat_from(s, p, i, start)[k],
                s,
            ),
    decreases s.len() - i,
{
    if p.len() == 0 || i < 0 || i + p.len() > s.len() {
        lemma_range_is_substring(s, start, s.len() as int);
        let all = split_pat_from(s, p, i, start);
        assert(all == seq![s.subrange(start, s.len() as int)]);
        assert(all[0] == s.subrange(start, s.len() as int));
    } else if s.subrange(i, i + p.len()) == p {
        lemma_split_pat_from_substrings(s, p, i + p.len(), i + p.len());
        lemma_range_is_substring(s, start, i);
        let rest = split_pat_from(s, p, i + p.len(), i + p.len());
        let all = seq![s.subrange(start, i)] + rest;
        assert(split_pat_from(s, p, i, start) == all);
        assert forall|k: int| 0 <= k < all.len() implies is_substring(#[trigger] all[k], s) by {
            if k > 0 {
                assert(all[k] == rest[k - 1]);
            }
        }
    } else {
        lemma_split_pat_from_substrings(s, p, i + 1, start);
        assert(split_pat_from(s, p, i, start) == split_pat_from(s, p, i + 1, start));
    }
}

/// Every piece of `split_pat(s, p)` is a span of `s`.
pub proof fn lemma_split_pat_substrings(s: Seq<char>, p: Seq<char>)
    ensures
        forall|k: int|
            0 <= k < split_pat(s, p).len() ==> is_substring(#[trigger] split_pat(s, p)[k], s),
{
    lemma_split_pat_from_substrings(s, p, 0, 0);
}

/// Trimming spans of `s` leaves spans of `s`.
pub proof fn lemma_trimmed_substrings(ps: Seq<Seq<char>>, qs: Seq<Seq<char>>, s: Seq<char>)
    requires
        forall|k: int| 0 <= k < ps.len() ==> is_substring(#[trigger] ps[k], s),
        qs.len() == ps.len(),
        forall|k: int| 0 <= k < ps.len() ==> #[trigger] qs[k] == trim(ps[k]),
    ensures
        forall|k: int| 0 <= k < qs.len() ==> is_substring(#[trigger] qs[k], s),
{
    assert forall|k: int| 0 <= k < qs.len() implies is_substring(#[trigger] qs[k], s) by {
        lemma_trim_substring(ps[k]);
        lemma_substring_trans(trim(ps[k]), ps[k], s);
    }
}

/// Every character of `t` is whitespace.
pub open spec fn all_ws(t: Seq<char>) -> bool {
    forall|i: int| 0 <= i < t.len() ==> is_ws(#[trigger] t[i])
}

proof fn lemma_trim_start_facts(t: Seq<char>)
    ensures
        (trim_start(t).len() == 0) == all_ws(t),
        trim_start(t).len() > 0 ==> !is_ws(trim_start(t)[0]),
    decreases t.len(),
{
    if t.len() > 0 && is_ws(t[0]) {
        let u = t.drop_first();
        lemma_trim_start_facts(u);
        if all_ws(u) {
            assert forall|i: int| 0 <= i < t.len() implies is_ws(#[trigger] t[i]) by {
                if i > 0 {
                    assert(t[i] == u[i - 1]);
                }
            }
        }
        if all_ws(t) {
            assert forall|i: int| 0 <= i < u.len() implies is_ws(#[trigger] u[i]) by {
                assert(u[i] == t[i + 1]);
            }
        }
    } else if t.len() > 0 {
        assert(!is_ws(t[0]));
    }
}

proof fn lemma_trim_end_keeps_first(t: Seq<char>)
    requires
        t.len() > 0,
        !is_ws(t[0]),
    ensures
        trim_end(t).len() > 0,
    decreases t.len(),
{
    if is_ws(t.last()) {
        lemma_trim_end_keeps_first(t.drop_last());
    }
}

/// A text is blank exactly when every character of it is whitespace.
pub proof fn lemma_blank_iff_all_ws(t: Seq<char>)
    ensures
        (trim(t).len() == 0) == all_ws(t),
        all_ws(t) ==> trim_start(t).len() == 0,
{
    lemma_trim_start_facts(t);
    let u = trim_start(t);
    if u.len() > 0 {
        lemma_trim_end_keeps_first(u);
    }
}

/// A trimmed text that is not empty stays so when trimmed again.
pub proof fn lemma_trim_twice_nonempty(t: Seq<char>)
    requires
        trim(t).len() > 0,
    ensures
        trim(trim(t)).len() > 0,
{
    lemma_trim_start_facts(t);
    let u = trim_start(t);
    let k = lemma_trim_end_prefix(u);
    let v = trim(t);
    assert(v[0] == u[0]);
    lemma_blank_iff_all_ws(v);
}

proof fn lemma_trim_end_last(t: Seq<char>)
    ensures
        trim_end(t).len() > 0 ==> !is_ws(trim_end(t).last()),
    decreases t.len(),
{
    if t.len() > 0 && is_ws(t.last()) {
        lemma_trim_end_last(t.drop_last());
    }
}

/// A trimmed text that is not empty ends with a character that is not whitespace.
pub proof fn lemma_trim_last(t: Seq<char>)
    ensures
        trim(t).len() > 0 ==> !is_ws(trim(t).last()),
{
    lemma_trim_end_last(trim_start(t));
}

/// A span of an all-whitespace text is all whitespace.
pub proof fn lemma_all_ws_substring(t: Seq<char>, s: Seq<char>)
    requires
        is_substring(t, s),
        all_ws(s),
    ensures
        all_ws(t),
{
    let (a, b) = choose|a: int, b: int| 0 <= a <= b <= s.len() && #[trigger] s.subrange(a, b) == t;
    assert forall|i: int| 0 <= i < t.len() implies is_ws(#[trigger] t[i]) by {
        assert(t[i] == s[a + i]);
    }
}

/// Every line of `s` is a span of `s`.
pub proof fn lemma_lines_substrings(s: Seq<char>)
    ensures
        forall|k: int| 0 <= k < lines(s).len() ==> is_substring(#[trigger] lines(s)[k], s),
{
    let ps = split_by(s, Delim::Newline);
    lemma_split_by_substrings(s, Delim::Newline);
    lemma_split_by_nonempty(s, Delim::Newline);
    let n = ps.len() as int;
    let ls = lines(s);
    assert forall|k: int| 0 <= k < ls.len() implies is_substring(#[trigger] ls[k], s) by {
        let p = ps[k];
        assert(is_substring(p, s));
        if k < n - 1 {
            assert(ls[k] == strip_cr(p));
            if p.len() > 0 && p.last() == '\r' {
                assert(strip_cr(p) =~= p.subrange(0, p.len() - 1));
                lemma_range_is_substring(p, 0, p.len() - 1);
                lemma_substring_trans(strip_cr(p), p, s);
            }
        } else {
            assert(ls[k] == p);
        }
    }
}

/// `e` is a span of `s`, or such a span cut short and marked with `…`.
pub open spec fn quotes_or_cut(e: Seq<char>, s: Seq<char>) -> bool {
    is_substring(e, s) || (e.len() > 0 && e.last() == '…' && is_substring(e.drop_last(), s))
}

/// Shortening a span of `s` quotes `s`.
pub proof fn lemma_truncated_quotes(t: Seq<char>, s: Seq<char>, max: nat)
    requires
        is_substring(t, s),
    ensures
        quotes_or_cut(truncated(t, max), s),
{
    if t.len() > max {
        assert(truncated(t, max).drop_last() =~= t.subrange(0, max as int));
        lemma_range_is_substring(t, 0, max as int);
        lemma_substring_trans(t.subrange(0, max as int), t, s);
    }
}

// ───────────────────────────── matching ─────────────────────────────

/// `p` occurs in `s` at position `i`.
pub open spec fn occurs_at(s: Seq<char>, p: Seq<char>, i: int) -> bool {
    0 <= i && i + p.len() <= s.len() && s.subrange(i, i + p.len()) == p
}

/// Position of the first occurrence of `p` in `s` at or after `i`, or -1.
pub open spec fn find_from(s: Seq<char>, p: Seq<char>, i: int) -> int
    decreases s.len() - i,
{
    if i < 0 || i + p.len() > s.len() {
        -1
    } else if p.len() == 0 || s.subrange(i, i + p.len()) == p {
        i
    } else {
        find_from(s, p, i + 1)
    }
}

/// `str::find`: position of the first occurrence of `p` in `s`, or -1.
pub open spec fn find(s: Seq<char>, p: Seq<char>) -> int {
    find_from(s, p, 0)
}

/// `str::contains`.
pub open spec fn contains(s: Seq<char>, p: Seq<char>) -> bool {
    find(s, p) >= 0
}

/// `str::starts_with`.
pub open spec fn starts_with(s: Seq<char>, p: Seq<char>) -> bool {
    p.len() <= s.len() && s.take(p.len() as int) == p
}

pub fn matches_at(s: &[char], p: &[char], i: usize) -> (r: bool)
    requires
        i + p@.len() <= s@.len(),
    ensures
        r == (s@.subrange(i as int, i + p@.len()) == p@),
{
    let mut k: usize = 0;
    while k < p.len()
        invariant
            k <= p@.len(),
            i + p@.len() <= s@.len(),
            s@.len() == s.len(),
            p@.len() == p.len(),
            forall|m: int| 0 <= m < k ==> s@[i + m] == p@[m],
        decreases p.len() - k,
    {
        if s[i + k] != p[k] {
            assert(s@.subrange(i as int, i + p@.len())[k as int] != p@[k as int]);
            return false;
        }
        k = k + 1;
    }
    assert(s@.subrange(i as int, i + p@.len()) =~= p@);
    true
}

/// The text of an optional string.
pub open spec fn opt_str_view(s: Option<&str>) -> Option<Seq<char>> {
    match s {
        Some(v) => Some(v@),
        None => None,
    }
}

/// Whether two strings are equal, character for character.
pub fn str_eq(a: &str, b: &str) -> (r: bool)
    ensures
        r == (a@ == b@),
{
    let x = chars_of(a);
    let y = chars_of(b);
    if x.len() != y.len() {
        return false;
    }
    let r = matches_at(&x, &y, 0);
    assert(x@.subrange(0, y@.len() as int) =~= x@);
    r
}

pub fn find_from_exec(s: &[char], p: &[char], start: usize) -> (r: Option<usize>)
    ensures
        match r {
            Some(k) => find_from(s@, p@, start as int) == k,
            None => find_from(s@, p@, start as int) == -1,
        },
{
    if p.len() == 0 {
        if start <= s.len() {
            return Some(start);
        } else {
            return None;
        }
    }
    if p.len() > s.len() {
        return None;
    }
    let mut i = start;
    while i <= s.len() - p.len()
        invariant
            start <= i,
            0 < p@.len() <= s@.len(),
            find_from(s@, p@, start as int) == find_from(s@, p@, i as int),
        decreases s.len() - i,
    {
        if matches_at(s, p, i) {
            return Some(i);
        }
        i = i + 1;
    }
    None
}

pub fn find_exec(s: &[char], p: &[char]) -> (r: Option<usize>)
    ensures
        match r {
            Some(k) => find(s@, p@) == k,
            None => find(s@, p@) == -1,
        },
{
    find_from_exec(s, p, 0)
}

pub fn contains_exec(s: &[char], p: &[char]) -> (r: bool)
    ensures
        r == contains(s@, p@),
{
    find_exec(s, p).is_some()
}

pub fn contains_str(s: &[char], p: &str) -> (r: bool)
    ensures
        r == contains(s@, p@),
{
    let pv = chars_of(p);
    contains_exec(s, &pv)
}

proof fn lemma_find_from_bounds(s: Seq<char>, p: Seq<char>, i: int)
    ensures
        find_from(s, p, i) == -1 || (i <= find_from(s, p, i) && occurs_at(
            s,
            p,
            find_from(s, p, i),
        )),
    decreases s.len() - i,
{
    if i < 0 || i + p.len() > s.len() {
    } else if p.len() == 0 || s.subrange(i, i + p.len()) == p {
        assert(p.len() == 0 ==> s.subrange(i, i + p.len()) =~= p);
    } else {
        lemma_find_from_bounds(s, p, i + 1);
    }
}

/// The first occurrence found by `find` is an occurrence.
pub proof fn lemma_find_occurs(s: Seq<char>, p: Seq<char>)
    ensures
        find(s, p) == -1 || occurs_at(s, p, find(s, p)),
        find(s, p) >= -1,
{
    lemma_find_from_bounds(s, p, 0);
}

// ───────────────────────────── splitting ─────────────────────────────

/// `str::split` with a non-empty text pattern: the pieces between the non-overlapping
/// occurrences of `p`, scanning left to right from position `i`, the current piece
/// having begun at `start`.
pub open spec fn split_pat_from(s: Seq<char>, p: Seq<char>, i: int, start: int) -> Seq<
    Seq<char>,
>
    decreases s.len() - i,
{
    if p.len() == 0 || i < 0 || i + p.len() > s.len() {
        seq![s.subrange(start, s.len() as int)]
    } else if s.subrange(i, i + p.len()) == p {
        seq![s.subrange(start, i)] + split_pat_from(s, p, i + p.len(), i + p.len())
    } else {
        split_pat_from(s, p, i + 1, start)
    }
}

/// `str::split(p)` for a non-empty pattern `p`.
pub open spec fn split_pat(s: Seq<char>, p: Seq<char>) -> Seq<Seq<char>> {
    split_pat_from(s, p, 0, 0)
}

pub fn split_pat_exec(s: &[char], p: &[char]) -> (r: Vec<Vec<char>>)
    requires
        p@.len() > 0,
    ensures
        views(r@) == split_pat(s@, p@),
{
    let mut r: Vec<Vec<char>> = Vec::new();
    let mut i: usize = 0;
    let mut start: usize = 0;
    while p.len() <= s.len() && i <= s.len() - p.len()
        invariant
            start <= i,
            start <= s@.len(),
            p@.len() > 0,
            split_pat(s@, p@) == views(r@) + split_pat_from(s@, p@, i as int, start as int),
        decreases s.len() - i,
    {
        if matches_at(s, p, i) {
            let piece = subrange(s, start, i);
            let ghost old_r = views(r@);
            r.push(piece);
            assert(views(r@) =~= old_r + seq![piece@]);
            i = i + p.len();
            start = i;
        } else {
            i = i + 1;
        }
    }
    let piece = subrange(s, start, s.len());
    let ghost old_r = views(r@);
    r.push(piece);
    assert(views(r@) =~= old_r + seq![piece@]);
    r
}

/// The character classes that texts are split on.
#[derive(PartialEq, Eq, Structural, Clone, Copy, Debug)]
pub enum Delim {
    /// `'\n'`
    Newline,
    /// `.`, `!`, `?` or `'\n'`: sentence ends.
    SentenceEnd,
    /// any character that is not alphanumeric.
    NonAlphanumeric,
    /// whitespace, `,`, `;`, `(` or `)`.
    WordBreak,
}

pub open spec fn is_delim(d: Delim, c: char) -> bool {
    match d {
        Delim::Newline => c == '\n',
        Delim::SentenceEnd => c == '.' || c == '!' || c == '?' || c == '\n',
        Delim::NonAlphanumeric => !is_alphanumeric_char(c),
        Delim::WordBreak => is_ws(c) || c == ',' || c == ';' || c == '(' || c == ')',
    }
}

pub fn is_delim_exec(d: Delim, c: char) -> (r: bool)
    ensures
        r == is_delim(d, c),
{
    match d {
        Delim::Newline => c == '\n',
        Delim::SentenceEnd => c == '.' || c == '!' || c == '?' || c == '\n',
        Delim::NonAlphanumeric => !char_is_alphanumeric(c),
        Delim::WordBreak => is_whitespace(c) || c == ',' || c == ';' || c == '(' || c == ')',
    }
}

/// `str::split` on a character class, scanning from position `i`, the current
/// piece having begun at `start`.
pub open spec fn split_by_from(s: Seq<char>, d: Delim, i: int, start: int) -> Seq<Seq<char>>
    decreases s.len() - i,
{
    if i < 0 || i >= s.len() {
        seq![s.subrange(start, s.len() as int)]
    } else if is_delim(d, s[i]) {
        seq![s.subrange(start, i)] + split_by_from(s, d, i + 1, i + 1)
    } else {
        split_by_from(s, d, i + 1, start)
    }
}

/// `str::split` on a character class.
pub open spec fn split_by(s: Seq<char>, d: Delim) -> Seq<Seq<char>> {
    split_by_from(s, d, 0, 0)
}

pub fn split_by_exec(s: &[char], d: Delim) -> (r: Vec<Vec<char>>)
    ensures
        views(r@) == split_by(s@, d),
{
    let mut r: Vec<Vec<char>> = Vec::new();
    let mut i: usize = 0;
    let mut start: usize = 0;
    while i < s.len()
        invariant
            start <= i <= s@.len(),
            split_by(s@, d) == views(r@) + split_by_from(s@, d, i as int, start as int),
        decreases s.len() - i,
    {
        if is_delim_exec(d, s[i]) {
            let piece = subrange(s, start, i);
            let ghost old_r = views(r@);
            r.push(piece);
            assert(views(r@) =~= old_r + seq![piece@]);
            start = i + 1;
        }
        i = i + 1;
    }
    let piece = subrange(s, start, s.len());
    let ghost old_r = views(r@);
    r.push(piece);
    assert(views(r@) =~= old_r + seq![piece@]);
    r
}

/// Drops one trailing `'\r'`, if any.
pub open spec fn strip_cr(s: Seq<char>) -> Seq<char> {
    if s.len() > 0 && s.last() == '\r' {
        s.drop_last()
    } else {
        s
    }
}

/// `str::lines`: the text split at `'\n'`; a line that was ended by `'\n'` loses
/// one trailing `'\r'`; a final empty piece (the text is empty or ends in `'\n'`)
/// is not a line.
pub open spec fn lines(s: Seq<char>) -> Seq<Seq<char>> {
    let ps = split_by(s, Delim::Newline);
    let n = ps.len() as int;
    let ended = ps.take(n - 1).map_values(|l: Seq<char>| strip_cr(l));
    if ps[n - 1].len() == 0 {
        ended
    } else {
        ended.push(ps[n - 1])
    }
}

proof fn lemma_split_by_from_nonempty(s: Seq<char>, d: Delim, i: int, start: int)
    ensures
        split_by_from(s, d, i, start).len() >= 1,
    decreases s.len() - i,
{
    if i < 0 || i >= s.len() {
    } else if is_delim(d, s[i]) {
        lemma_split_by_from_nonempty(s, d, i + 1, i + 1);
    } else {
        lemma_split_by_from_nonempty(s, d, i + 1, start);
    }
}

pub proof fn lemma_split_by_nonempty(s: Seq<char>, d: Delim)
    ensures
        split_by(s, d).len() >= 1,
{
    lemma_split_by_from_nonempty(s, d, 0, 0);
}

pub fn lines_exec(s: &[char]) -> (r: Vec<Vec<char>>)
    ensures
        views(r@) == lines(s@),
{
    let ps = split_by_exec(s, Delim::Newline);
    proof {
        lemma_split_by_nonempty(s@, Delim::Newline);
    }
    let ghost pv = views(ps@);
    let n = ps.len();
    let mut r: Vec<Vec<char>> = Vec::new();
    let mut k: usize = 0;
    while k + 1 < n
        invariant
            n == ps@.len() >= 1,
            pv == views(ps@),
            pv == split_by(s@, Delim::Newline),
            k + 1 <= n,
            views(r@) == pv.take(k as int).map_values(|l: Seq<char>| strip_cr(l)),
        decreases n - k,
    {
        let line = &ps[k];
        assert(line@ == pv[k as int]);
        let ghost old_r = views(r@);
        let stripped = if line.len() > 0 && line[line.len() - 1] == '\r' {
            subrange(line, 0, line.len() - 1)
        } else {
            subrange(line, 0, line.len())
        };
        assert(line@ =~= line@.subrange(0, line@.len() as int));
        assert(stripped@ == strip_cr(line@));
        r.push(stripped);
        assert(views(r@) =~= old_r.push(strip_cr(line@)));
        assert(pv.take(k + 1) =~= pv.take(k as int).push(pv[k as int]));
        assert(views(r@) =~= pv.take(k + 1).map_values(|l: Seq<char>| strip_cr(l)));
        k = k + 1;
    }
    assert(pv[n - 1] == ps@[n - 1]@);
    if ps[n - 1].len() > 0 {
        let last = subrange(&ps[n - 1], 0, ps[n - 1].len());
        assert(ps@[n - 1]@ =~= ps@[n - 1]@.subrange(0, ps@[n - 1]@.len() as int));
        let ghost old_r = views(r@);
        r.push(last);
        assert(views(r@) =~= old_r.push(last@));
    }
    r
}

// ───────────────────────────── shortening and numbers ─────────────────────────────

/// At most `max` characters of `s`; when `s` is longer, its first `max` characters
/// followed by `…`.
pub open spec fn truncated(s: Seq<char>, max: nat) -> Seq<char> {
    if s.len() <= max {
        s
    } else {
        s.take(max as int).push('…')
    }
}

pub fn truncate_chars(s: &[char], max: usize) -> (r: Vec<char>)
    ensures
        r@ == truncated(s@, max as nat),
{
    if s.len() <= max {
        subrange(s, 0, s.len())
    } else {
        let mut r = subrange(s, 0, max);
        r.push('…');
        r
    }
}

/// `truncate` on text: at most `max_chars` characters, marked with `…` when cut.
pub fn truncate(s: &str, max_chars: usize) -> (r: String)
    ensures
        r@ == truncated(s@, max_chars as nat),
{
    let c = chars_of(s);
    let t = truncate_chars(&c, max_chars);
    string_of(&t)
}

/// The decimal digit for `d` (`0 <= d < 10`).
pub open spec fn digit(d: nat) -> char {
    if d == 0 {
        '0'
    } else if d == 1 {
        '1'
    } else if d == 2 {
        '2'
    } else if d == 3 {
        '3'
    } else if d == 4 {
        '4'
    } else if d == 5 {
        '5'
    } else if d == 6 {
        '6'
    } else if d == 7 {
        '7'
    } else if d == 8 {
        '8'
    } else {
        '9'
    }
}

/// The decimal rendering of `n`, as `Display` for unsigned integers writes it.
pub open spec fn decimal(n: nat) -> Seq<char>
    decreases n,
{
    if n < 10 {
        seq![digit(n)]
    } else {
        decimal(n / 10).push(digit(n % 10))
    }
}

fn digit_exec(d: usize) -> (r: char)
    requires
        d < 10,
    ensures
        r == digit(d as nat),
{
    if d == 0 {
        '0'
    } else if d == 1 {
        '1'
    } else if d == 2 {
        '2'
    } else if d == 3 {
        '3'
    } else if d == 4 {
        '4'
    } else if d == 5 {
        '5'
    } else if d == 6 {
        '6'
    } else if d == 7 {
        '7'
    } else if d == 8 {
        '8'
    } else {
        '9'
    }
}

pub fn decimal_chars(n: usize) -> (r: Vec<char>)
    ensures
        r@ == decimal(n as nat),
    decreases n,
{
    if n < 10 {
        let mut r: Vec<char> = Vec::new();
        r.push(digit_exec(n));
        assert(r@ =~= seq![digit(n as nat)]);
        r
    } else {
        let mut r = decimal_chars(n / 10);
        r.push(digit_exec(n % 10));
        r
    }
}

/// `n.to_string()`.
pub fn decimal_string(n: usize) -> (r: String)
    ensures
        r@ == decimal(n as nat),
{
    let c = decimal_chars(n);
    string_of(&c)
}

/// `char::len_utf8`: the number of bytes of `c` in UTF-8.
pub open spec fn utf8_len(c: char) -> nat {
    if (c as u32) < 0x80 {
        1
    } else if (c as u32) < 0x800 {
        2
    } else if (c as u32) < 0x10000 {
        3
    } else {
        4
    }
}

/// The number of bytes of `s` in UTF-8 (`str::len`).
pub open spec fn byte_len(s: Seq<char>) -> nat
    decreases s.len(),
{
    if s.len() == 0 {
        0
    } else {
        byte_len(s.drop_last()) + utf8_len(s.last())
    }
}

pub fn utf8_len_exec(c: char) -> (r: usize)
    ensures
        r == utf8_len(c),
{
    let u = c as u32;
    if u < 0x80 {
        1
    } else if u < 0x800 {
        2
    } else if u < 0x10000 {
        3
    } else {
        4
    }
}

/// Whether `byte_len(s) > n`.
pub fn byte_len_exceeds(s: &[char], n: usize) -> (r: bool)
    ensures
        r == (byte_len(s@) > n),
{
    let mut total: usize = 0;
    let mut i: usize = 0;
    while i < s.len()
        invariant
            i <= s@.len(),
            total == byte_len(s@.take(i as int)),
            total <= n,
        decreases s.len() - i,
    {
        let add = utf8_len_exec(s[i]);
        assert(s@.take(i + 1).drop_last() =~= s@.take(i as int));
        if add > n - total {
            proof {
                lemma_byte_len_prefix(s@, i + 1);
            }
            return true;
        }
        total = total + add;
        i = i + 1;
    }
    assert(s@.take(s@.len() as int) =~= s@);
    false
}

/// A prefix has no more bytes than the whole.
pub proof fn lemma_byte_len_prefix(s: Seq<char>, k: int)
    requires
        0 <= k <= s.len(),
    ensures
        byte_len(s.take(k)) <= byte_len(s),
    decreases s.len() - k,
{
    if k < s.len() {
        lemma_byte_len_prefix(s, k + 1);
        assert(s.take(k + 1).drop_last() =~= s.take(k));
    } else {
        assert(s.take(k) =~= s);
    }
}

// ───────────────────────────── keyword lists ─────────────────────────────

/// The texts of a list of string literals.
pub open spec fn str_views(v: Seq<&str>) -> Seq<Seq<char>> {
    v.map_values(|s: &str| s@)
}

/// How many of the keywords `ts` occur in `low`.
pub open spec fn count_contained(low: Seq<char>, ts: Seq<Seq<char>>) -> nat
    decreases ts.len(),
{
    if ts.len() == 0 {
        0
    } else {
        count_contained(low, ts.drop_last()) + if contains(low, ts.last()) {
            1nat
        } else {
            0nat
        }
    }
}

/// Whether any of the keywords `ts` occurs in `low`.
pub open spec fn any_contained(low: Seq<char>, ts: Seq<Seq<char>>) -> bool {
    exists|i: int| 0 <= i < ts.len() && contains(low, #[trigger] ts[i])
}

/// The keywords of `ts` that occur in `low`, in list order.
pub open spec fn present_terms(low: Seq<char>, ts: Seq<Seq<char>>) -> Seq<Seq<char>>
    decreases ts.len(),
{
    if ts.len() == 0 {
        seq![]
    } else if contains(low, ts.last()) {
        present_terms(low, ts.drop_last()).push(ts.last())
    } else {
        present_terms(low, ts.drop_last())
    }
}

pub fn count_contained_exec(low: &[char], ts: &[&str]) -> (r: usize)
    ensures
        r == count_contained(low@, str_views(ts@)),
        r <= ts@.len(),
{
    let ghost tv = str_views(ts@);
    let mut n: usize = 0;
    let mut k: usize = 0;
    while k < ts.len()
        invariant
            k <= ts@.len(),
            tv == str_views(ts@),
            n == count_contained(low@, tv.take(k as int)),
            n <= k,
        decreases ts.len() - k,
    {
        assert(tv.take(k + 1).drop_last() =~= tv.take(k as int));
        assert(tv.take(k + 1).last() == ts@[k as int]@);
        if contains_str(low, ts[k]) {
            n = n + 1;
        }
        k = k + 1;
    }
    assert(tv.take(ts@.len() as int) =~= tv);
    n
}

pub fn any_contained_exec(low: &[char], ts: &[&str]) -> (r: bool)
    ensures
        r == any_contained(low@, str_views(ts@)),
{
    let ghost tv = str_views(ts@);
    let mut k: usize = 0;
    while k < ts.len()
        invariant
            k <= ts@.len(),
            tv == str_views(ts@),
            forall|i: int| 0 <= i < k ==> !contains(low@, #[trigger] tv[i]),
        decreases ts.len() - k,
    {
        assert(tv[k as int] == ts@[k as int]@);
        if contains_str(low, ts[k]) {
            return true;
        }
        k = k + 1;
    }
    false
}

pub fn present_terms_exec(low: &[char], ts: &[&str]) -> (r: Vec<String>)
    ensures
        r@.map_values(|s: String| s@) == present_terms(low@, str_views(ts@)),
{
    let ghost tv = str_views(ts@);
    let mut r: Vec<String> = Vec::new();
    let mut k: usize = 0;
    while k < ts.len()
        invariant
            k <= ts@.len(),
            tv == str_views(ts@),
            r@.map_values(|s: String| s@) == present_terms(low@, tv.take(k as int)),
        decreases ts.len() - k,
    {
        assert(tv.take(k + 1).drop_last() =~= tv.take(k as int));
        assert(tv.take(k + 1).last() == ts@[k as int]@);
        if contains_str(low, ts[k]) {
            let ghost old_v = r@.map_values(|s: String| s@);
            r.push(String::from_str(ts[k]));
            assert(r@.map_values(|s: String| s@) =~= old_v.push(ts@[k as int]@));
        }
        k = k + 1;
    }
    assert(tv.take(ts@.len() as int) =~= tv);
    r
}

// ───────────────────────────── byte positions ─────────────────────────────

/// The character index, at or after `i`, of the last character boundary of `s`
/// within `n` more bytes (the byte position `n` rounded down to a boundary).
pub open spec fn char_floor_from(s: Seq<char>, n: int, i: int) -> int
    decreases s.len() - i,
{
    if i < 0 || i >= s.len() || n < utf8_len(s[i]) {
        i
    } else {
        char_floor_from(s, n - utf8_len(s[i]), i + 1)
    }
}

/// The number of whole characters of `s` within its first `n` bytes: the
/// character index of byte `n`, rounded down to a character boundary.
pub open spec fn char_floor(s: Seq<char>, n: int) -> int {
    char_floor_from(s, n, 0)
}

pub proof fn lemma_char_floor_range(s: Seq<char>, n: int, i: int)
    requires
        0 <= i <= s.len(),
    ensures
        i <= char_floor_from(s, n, i) <= s.len(),
    decreases s.len() - i,
{
    if !(i >= s.len() || n < utf8_len(s[i])) {
        lemma_char_floor_range(s, n - utf8_len(s[i]), i + 1);
    }
}

/// Rounding down is monotone: more bytes never give an earlier boundary.
pub proof fn lemma_char_floor_monotone(s: Seq<char>, n1: int, n2: int, i: int)
    requires
        0 <= i <= s.len(),
        n1 <= n2,
    ensures
        char_floor_from(s, n1, i) <= char_floor_from(s, n2, i),
    decreases s.len() - i,
{
    lemma_char_floor_range(s, n2, i);
    if !(i >= s.len() || n1 < utf8_len(s[i])) {
        lemma_char_floor_monotone(s, n1 - utf8_len(s[i]), n2 - utf8_len(s[i]), i + 1);
    }
}

/// `char_floor(s, n)`, computed.
pub fn char_floor_exec(s: &[char], n: u128) -> (r: usize)
    ensures
        r == char_floor(s@, n as int),
        r <= s@.len(),
{
    let mut i: usize = 0;
    let mut left: u128 = n;
    proof {
        lemma_char_floor_range(s@, n as int, 0);
    }
    while i < s.len()
        invariant
            i <= s@.len(),
            char_floor(s@, n as int) == char_floor_from(s@, left as int, i as int),
        decreases s@.len() - i,
    {
        let u = utf8_len_exec(s[i]) as u128;
        if left < u {
            return i;
        }
        left = left - u;
        i = i + 1;
    }
    i
}

/// `byte_len(s[..k])`.
pub fn byte_len_prefix(s: &[char], k: usize) -> (r: u128)
    requires
        k <= s@.len(),
    ensures
        r == byte_len(s@.take(k as int)),
        r <= 4 * k,
{
    let mut acc: u128 = 0;
    let mut i: usize = 0;
    while i < k
        invariant
            i <= k <= s@.len(),
            acc == byte_len(s@.take(i as int)),
            acc <= 4 * i,
        decreases k - i,
    {
        assert(s@.take(i + 1).drop_last() =~= s@.take(i as int));
        acc = acc + utf8_len_exec(s[i]) as u128;
        i = i + 1;
    }
    acc
}

/// The text span cited for a keyword found at character `k` of `low` (the lowercase
/// text): from byte `pos` of `text` itself, where `pos` is the byte length of
/// `low[..k]`, to `pos + width` bytes or the end of the text, both rounded down to
/// character boundaries of `text`, as character indices.
pub open spec fn span_bounds(text: Seq<char>, low: Seq<char>, k: int, width: nat) -> (int, int) {
    let pos = byte_len(low.take(k));
    let total = byte_len(text);
    let end = if pos + width < total {
        pos + width
    } else {
        total
    };
    (char_floor(text, pos as int), char_floor(text, end as int))
}

/// The cited span: that slice of the text, trimmed.
pub open spec fn span_text(text: Seq<char>, low: Seq<char>, k: int, width: nat) -> Seq<char> {
    let b = span_bounds(text, low, k, width);
    trim(text.subrange(b.0, b.1))
}

/// The cited span is a span of the text.
pub proof fn lemma_span_text_substring(text: Seq<char>, low: Seq<char>, k: int, width: nat)
    ensures
        0 <= span_bounds(text, low, k, width).0 <= span_bounds(text, low, k, width).1 <= text.len(),
        is_substring(span_text(text, low, k, width), text),
{
    let pos = byte_len(low.take(k));
    let total = byte_len(text);
    let end = if pos + width < total {
        pos + width
    } else {
        total
    };
    lemma_char_floor_range(text, pos as int, 0);
    lemma_char_floor_range(text, end as int, 0);
    if pos <= end {
        lemma_char_floor_monotone(text, pos as int, end as int, 0);
    } else {
        // the keyword starts past the end of the text: both round down to the end
        assert(end == total);
        lemma_char_floor_total(text, 0, end as int);
        lemma_char_floor_total(text, 0, pos as int);
    }
    let b = span_bounds(text, low, k, width);
    let piece = text.subrange(b.0, b.1);
    lemma_range_is_substring(text, b.0, b.1);
    lemma_trim_substring(piece);
    lemma_substring_trans(trim(piece), piece, text);
}

proof fn lemma_char_floor_total(s: Seq<char>, i: int, n: int)
    requires
        0 <= i <= s.len(),
        n >= byte_len(s) - byte_len(s.take(i)),
    ensures
        char_floor_from(s, n, i) == s.len(),
    decreases s.len() - i,
{
    if i < s.len() {
        assert(s.take(i + 1).drop_last() =~= s.take(i));
        lemma_byte_len_take_le(s, i + 1);
        lemma_char_floor_total(s, i + 1, n - utf8_len(s[i]));
    }
}

proof fn lemma_byte_len_take_le(s: Seq<char>, k: int)
    requires
        0 <= k <= s.len(),
    ensures
        byte_len(s.take(k)) <= byte_len(s),
    decreases s.len() - k,
{
    if k < s.len() {
        lemma_byte_len_take_le(s, k + 1);
        assert(s.take(k + 1).drop_last() =~= s.take(k));
    } else {
        assert(s.take(k) =~= s);
    }
}

/// The cited span for a keyword found at `k` of `low`.
pub fn span_at(text: &[char], low: &[char], k: usize, width: u128) -> (r: Vec<char>)
    requires
        k <= low@.len(),
        width <= 100,
    ensures
        r@ == span_text(text@, low@, k as int, width as nat),
{
    let pos = byte_len_prefix(low, k);
    let total = byte_len_prefix(text, text.len());
    assert(text@.take(text@.len() as int) =~= text@);
    let end = if pos + width < total { pos + width } else { total };
    let a = char_floor_exec(text, pos);
    let b = char_floor_exec(text, end);
    proof {
        lemma_span_text_substring(text@, low@, k as int, width as nat);
    }
    let sub = subrange(text, a, b);
    trim_vec(&sub)
}

/// `char::to_ascii_lowercase`.
pub open spec fn ascii_lower(c: char) -> char {
    if 'A' <= c && c <= 'Z' {
        ((c as u32) + 32) as char
    } else {
        c
    }
}

pub fn ascii_lower_exec(c: char) -> (r: char)
    ensures
        r == ascii_lower(c),
{
    if 'A' <= c && c <= 'Z' {
        let u = (c as u8) + 32;
        u as char
    } else {
        c
    }
}

/// No more terms are present than listed.
pub proof fn lemma_present_terms_len(low: Seq<char>, ts: Seq<Seq<char>>)
    ensures
        present_terms(low, ts).len() <= ts.len(),
    decreases ts.len(),
{
    if ts.len() > 0 {
        lemma_present_terms_len(low, ts.drop_last());
    }
}

} // verus!
