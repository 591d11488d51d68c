//! Stable ordering by a numeric key, largest first.
use vstd::prelude::*;

verus! {

/// `x` placed into `s` after every element whose key is at least `x`'s key and
/// before the first one whose key is smaller.
pub open spec fn insert_desc<T>(s: Seq<(T, usize)>, x: (T, usize)) -> Seq<(T, usize)>
    decreases s.len(),
{
    if s.len() == 0 {
        seq![x]
    } else if s[0].1 < x.1 {
        seq![x] + s
    } else {
        seq![s[0]] + insert_desc(s.drop_first(), x)
    }
}

/// The elements of `s` ordered by key, largest first; elements with equal keys
/// keep their order (a stable sort, as `sort_by` on the key in reverse).
pub open spec fn sort_desc<T>(s: Seq<(T, usize)>) -> Seq<(T, usize)>
    decreases s.len(),
{
    if s.len() == 0 {
        seq![]
    } else {
        insert_desc(sort_desc(s.drop_last()), s.last())
    }
}

proof fn lemma_insert_desc_at<T>(s: Seq<(T, usize)>, x: (T, usize), pos: int)
    requires
        0 <= pos <= s.len(),
        forall|j: int| 0 <= j < pos ==> s[j].1 >= x.1,
        pos == s.len() || s[pos].1 < x.1,
    ensures
        insert_desc(s, x) == s.insert(pos, x),
    decreases s.len(),
{
    if s.len() == 0 {
        assert(s.insert(pos, x) =~= seq![x]);
    } else if pos == 0 {
        assert(s.insert(pos, x) =~= seq![x] + s);
    } else {
        lemma_insert_desc_at(s.drop_first(), x, pos - 1);
        assert(s.insert(pos, x) =~= seq![s[0]] + s.drop_first().insert(pos - 1, x));
    }
}

pub proof fn lemma_insert_desc_len<T>(s: Seq<(T, usize)>, x: (T, usize))
    ensures
        insert_desc(s, x).len() == s.len() + 1,
    decreases s.len(),
{
    if s.len() > 0 && s[0].1 >= x.1 {
        lemma_insert_desc_len(s.drop_first(), x);
    }
}

pub proof fn lemma_sort_desc_len<T>(s: Seq<(T, usize)>)
    ensures
        sort_desc(s).len() == s.len(),
    decreases s.len(),
{
    if s.len() > 0 {
        lemma_sort_desc_len(s.drop_last());
        lemma_insert_desc_len(sort_desc(s.drop_last()), s.last());
    }
}

fn first_lower<T>(r: &Vec<(T, usize)>, key: usize) -> (pos: usize)
    ensures
        pos <= r@.len(),
        forall|j: int| 0 <= j < pos ==> r@[j].1 >= key,
        pos == r@.len() || r@[pos as int].1 < key,
{
    let mut pos: usize = 0;
    while pos < r.len() && r[pos].1 >= key
        invariant
            pos <= r@.len(),
            forall|j: int| 0 <= j < pos ==> r@[j].1 >= key,
        decreases r.len() - pos,
    {
        pos = pos + 1;
    }
    pos
}

/// Orders `v` by key, largest first, keeping the order of equal keys.
pub fn sort_desc_exec<T>(v: Vec<(T, usize)>) -> (r: Vec<(T, usize)>)
    ensures
        r@ == sort_desc(v@),
{
    let ghost orig = v@;
    let mut v = v;
    let mut r: Vec<(T, usize)> = Vec::new();
    let ghost mut k: int = 0;
    while v.len() > 0
        invariant
            0 <= k <= orig.len(),
            v@ == orig.skip(k),
            r@ == sort_desc(orig.take(k)),
        decreases v.len(),
    {
        let x = v.remove(0);
        let pos = first_lower(&r, x.1);
        proof {
            lemma_insert_desc_at(r@, x, pos as int);
        }
        r.insert(pos, x);
        proof {
            assert(orig.take(k + 1).drop_last() =~= orig.take(k));
            assert(orig.take(k + 1).last() == x);
            assert(v@ =~= orig.skip(k + 1));
            k = k + 1;
        }
    }
    assert(orig.take(k) =~= orig);
    r
}

/// Sorting looks only at the keys: mapping the elements commutes with sorting.
pub proof fn lemma_sort_desc_map<T, U>(s: Seq<(T, usize)>, f: spec_fn(T) -> U)
    ensures
        sort_desc(s.map_values(|p: (T, usize)| (f(p.0), p.1))) == sort_desc(s).map_values(
            |p: (T, usize)| (f(p.0), p.1),
        ),
    decreases s.len(),
{
    let g = |p: (T, usize)| (f(p.0), p.1);
    if s.len() > 0 {
        lemma_sort_desc_map(s.drop_last(), f);
        assert(s.map_values(g).drop_last() =~= s.drop_last().map_values(g));
        lemma_insert_desc_map(sort_desc(s.drop_last()), s.last(), f);
    } else {
        assert(s.map_values(g) =~= seq![]);
        assert(sort_desc(s).map_values(g) =~= seq![]);
    }
}

proof fn lemma_insert_desc_map<T, U>(s: Seq<(T, usize)>, x: (T, usize), f: spec_fn(T) -> U)
    ensures
        insert_desc(s.map_values(|p: (T, usize)| (f(p.0), p.1)), (f(x.0), x.1)) == insert_desc(
            s,
            x,
        ).map_values(|p: (T, usize)| (f(p.0), p.1)),
    decreases s.len(),
{
    let g = |p: (T, usize)| (f(p.0), p.1);
    if s.len() == 0 {
        assert(s.map_values(g) =~= seq![]);
        assert(insert_desc(s, x).map_values(g) =~= seq![g(x)]);
    } else if s[0].1 < x.1 {
        assert((seq![x] + s).map_values(g) =~= seq![g(x)] + s.map_values(g));
    } else {
        lemma_insert_desc_map(s.drop_first(), x, f);
        assert(s.map_values(g).drop_first() =~= s.drop_first().map_values(g));
        assert((seq![s[0]] + insert_desc(s.drop_first(), x)).map_values(g) =~= seq![g(s[0])]
            + insert_desc(s.drop_first(), x).map_values(g));
    }
}

proof fn lemma_insert_desc_members<T>(s: Seq<(T, usize)>, x: (T, usize))
    ensures
        forall|k: int|
            0 <= k < insert_desc(s, x).len() ==> s.contains(#[trigger] insert_desc(s, x)[k])
                || insert_desc(s, x)[k] == x,
    decreases s.len(),
{
    let r = insert_desc(s, x);
    if s.len() == 0 {
    } else if s[0].1 < x.1 {
        assert forall|k: int| 0 <= k < r.len() implies s.contains(#[trigger] r[k]) || r[k] == x by {
            if k > 0 {
                assert(r[k] == s[k - 1]);
            }
        }
    } else {
        let t = s.drop_first();
        lemma_insert_desc_members(t, x);
        let q = insert_desc(t, x);
        assert forall|k: int| 0 <= k < r.len() implies s.contains(#[trigger] r[k]) || r[k] == x by {
            if k == 0 {
                assert(r[0] == s[0]);
            } else {
                assert(r[k] == q[k - 1]);
                if t.contains(q[k - 1]) {
                    let j = choose|j: int| 0 <= j < t.len() && t[j] == q[k - 1];
                    assert(s[j + 1] == t[j]);
                }
            }
        }
    }
}

/// Every element of `sort_desc(s)` is an element of `s`.
pub proof fn lemma_sort_desc_members<T>(s: Seq<(T, usize)>)
    ensures
        forall|k: int| 0 <= k < sort_desc(s).len() ==> s.contains(#[trigger] sort_desc(s)[k]),
    decreases s.len(),
{
    if s.len() > 0 {
        let pre = s.drop_last();
        lemma_sort_desc_members(pre);
        let sp = sort_desc(pre);
        lemma_insert_desc_members(sp, s.last());
        let r = sort_desc(s);
        assert forall|k: int| 0 <= k < r.len() implies s.contains(#[trigger] r[k]) by {
            if r[k] == s.last() {
                assert(s[s.len() - 1] == r[k]);
            } else {
                assert(sp.contains(r[k]));
                let m = choose|m: int| 0 <= m < sp.len() && sp[m] == r[k];
                assert(pre.contains(sp[m]));
                let j = choose|j: int| 0 <= j < pre.len() && pre[j] == sp[m];
                assert(s[j] == pre[j]);
            }
        }
    }
}

} // verus!
