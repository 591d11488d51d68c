//! Term-frequency vectors: the bag of words behind the `resonance` lens's lexical
//! similarity. Words are maximal alphanumeric runs, lowercased; words of at most two
//! bytes and stopwords are left out.
use vstd::prelude::*;

use crate::strs::{
    byte_len, byte_len_exceeds, chars_of, lowercase, lowercase_of, split_by, split_by_exec,
    str_views, string_of, views, Delim,
};

verus! {

/// Words too common to carry meaning.
pub open spec fn stopwords_spec() -> Seq<Seq<char>> {
    seq!["a"@, "an"@, "the"@, "and"@, "or"@, "but"@, "if"@, "then"@, "of"@, "to"@, "in"@, "on"@, "for"@, "with"@, "as"@, "is"@, "are"@, "was"@, "were"@, "be"@, "been"@, "being"@, "this"@, "that"@, "these"@, "those"@, "it"@, "its"@, "at"@, "by"@, "from"@, "we"@, "you"@, "your"@, "our"@, "will"@, "would"@, "should"@, "can"@, "could"@, "not"@, "no"@, "do"@, "does"@, "did"@, "has"@, "have"@, "had"@, "so"@, "than"@, "into"@, "about"@, "which"@, "what"@, "who"@, "how"@, "when"@, "where"@, "there"@, "here"@, "also"@]
}

pub fn stopwords() -> (r: Vec<&'static str>)
    ensures
        str_views(r@) == stopwords_spec(),
{
    let r = vec!["a", "an", "the", "and", "or", "but", "if", "then", "of", "to", "in", "on", "for", "with", "as", "is", "are", "was", "were", "be", "been", "being", "this", "that", "these", "those", "it", "its", "at", "by", "from", "we", "you", "your", "our", "will", "would", "should", "can", "could", "not", "no", "do", "does", "did", "has", "have", "had", "so", "than", "into", "about", "which", "what", "who", "how", "when", "where", "there", "here", "also"];
    assert(str_views(r@) =~= stopwords_spec());
    r
}

/// Whether `w` is one of the stopwords.
pub open spec fn is_stopword(w: Seq<char>) -> bool {
    stopwords_spec().contains(w)
}

/// The words of a text that count: the lowercased alphanumeric runs longer than two
/// bytes that are not stopwords, in text order.
pub open spec fn kept_words(pieces: Seq<Seq<char>>) -> Seq<Seq<char>>
    decreases pieces.len(),
{
    if pieces.len() == 0 {
        seq![]
    } else {
        let w = lowercase_of(pieces.last());
        if byte_len(w) <= 2 || is_stopword(w) {
            kept_words(pieces.drop_last())
        } else {
            kept_words(pieces.drop_last()).push(w)
        }
    }
}

pub open spec fn words_of(text: Seq<char>) -> Seq<Seq<char>> {
    kept_words(split_by(text, Delim::NonAlphanumeric))
}

/// Position of `w` among the terms of `es`, or -1.
pub open spec fn index_of(es: Seq<(Seq<char>, nat)>, w: Seq<char>) -> int
    decreases es.len(),
{
    if es.len() == 0 {
        -1
    } else if es.last().0 == w {
        es.len() - 1
    } else {
        index_of(es.drop_last(), w)
    }
}

/// The tally of `ws`: each distinct word with its number of occurrences, in order of
/// first occurrence.
pub open spec fn tally(ws: Seq<Seq<char>>) -> Seq<(Seq<char>, nat)>
    decreases ws.len(),
{
    if ws.len() == 0 {
        seq![]
    } else {
        let t = tally(ws.drop_last());
        let k = index_of(t, ws.last());
        if k >= 0 {
            t.update(k, (ws.last(), t[k].1 + 1))
        } else {
            t.push((ws.last(), 1nat))
        }
    }
}

/// The number of occurrences of `w` in `ws`.
pub open spec fn occurrences(ws: Seq<Seq<char>>, w: Seq<char>) -> nat
    decreases ws.len(),
{
    if ws.len() == 0 {
        0
    } else {
        occurrences(ws.drop_last(), w) + if ws.last() == w {
            1nat
        } else {
            0nat
        }
    }
}

/// A bag of words: each distinct word of a text with its count.
pub struct TermVector {
    terms: Vec<Vec<char>>,
    counts: Vec<usize>,
}

impl View for TermVector {
    type V = Seq<(Seq<char>, nat)>;

    closed spec fn view(&self) -> Seq<(Seq<char>, nat)> {
        Seq::new(self.terms@.len(), |i: int| (self.terms@[i]@, self.counts@[i] as nat))
    }
}

impl TermVector {
    pub closed spec fn wf(&self) -> bool {
        self.terms@.len() == self.counts@.len()
    }

    /// The count of `w` (0 when absent).
    pub open spec fn count_of(&self, w: Seq<char>) -> nat {
        let k = index_of(self@, w);
        if k >= 0 {
            self@[k].1
        } else {
            0
        }
    }

    /// Whether no word counted.
    pub fn is_empty(&self) -> (r: bool)
        requires
            self.wf(),
        ensures
            r == (self@.len() == 0),
    {
        self.terms.len() == 0
    }

    /// The number of distinct words.
    pub fn len(&self) -> (r: usize)
        requires
            self.wf(),
        ensures
            r == self@.len(),
    {
        self.terms.len()
    }

    /// The `i`-th distinct word and its count.
    pub fn entry(&self, i: usize) -> (r: (String, usize))
        requires
            self.wf(),
            i < self@.len(),
        ensures
            r.0@ == self@[i as int].0,
            r.1 == self@[i as int].1,
    {
        (string_of(&self.terms[i]), self.counts[i])
    }

    fn find(&self, w: &[char]) -> (r: Option<usize>)
        requires
            self.wf(),
        ensures
            match r {
                Some(k) => index_of(self@, w@) == k && k < self@.len(),
                None => index_of(self@, w@) == -1,
            },
    {
        let mut k = self.terms.len();
        assert(self@.take(k as int) =~= self@);
        while k > 0
            invariant
                k <= self@.len(),
                self.wf(),
                index_of(self@, w@) == index_of(self@.take(k as int), w@),
            decreases k,
        {
            assert(self@.take(k as int).drop_last() =~= self@.take(k - 1));
            if self.terms[k - 1].len() == w.len() && crate::strs::matches_at(&self.terms[k - 1], w, 0) {
                assert(self.terms@[k - 1]@ =~= self.terms@[k - 1]@.subrange(0, w@.len() as int));
                assert(self@.take(k as int).last().0 == w@);
                return Some(k - 1);
            }
            proof {
                if self.terms@[k - 1]@ == w@ {
                    assert(self.terms@[k - 1]@.subrange(0, w@.len() as int) =~= w@);
                }
            }
            k = k - 1;
        }
        None
    }

    /// The count of `word` (0 when absent).
    pub fn get(&self, word: &str) -> (r: usize)
        requires
            self.wf(),
        ensures
            r == self.count_of(word@),
    {
        let w = chars_of(word);
        match self.find(&w) {
            Some(k) => self.counts[k],
            None => 0,
        }
    }
}

proof fn lemma_index_of_bounds(es: Seq<(Seq<char>, nat)>, w: Seq<char>)
    ensures
        -1 <= index_of(es, w) < es.len(),
        index_of(es, w) >= 0 ==> es[index_of(es, w)].0 == w,
    decreases es.len(),
{
    if es.len() > 0 && es.last().0 != w {
        lemma_index_of_bounds(es.drop_last(), w);
    }
}

proof fn lemma_tally_counts_bounded(ws: Seq<Seq<char>>)
    ensures
        forall|i: int| 0 <= i < tally(ws).len() ==> (#[trigger] tally(ws)[i]).1 <= ws.len(),
        tally(ws).len() <= ws.len(),
    decreases ws.len(),
{
    if ws.len() > 0 {
        lemma_tally_counts_bounded(ws.drop_last());
        lemma_index_of_bounds(tally(ws.drop_last()), ws.last());
    }
}

proof fn lemma_kept_len(ps: Seq<Seq<char>>)
    ensures
        kept_words(ps).len() <= ps.len(),
    decreases ps.len(),
{
    if ps.len() > 0 {
        lemma_kept_len(ps.drop_last());
    }
}

/// The term-frequency vector of a text.
pub fn tokenize(text: &str) -> (r: TermVector)
    ensures
        r.wf(),
        r@ == tally(words_of(text@)),
{
    let t = chars_of(text);
    let pieces = split_by_exec(&t, Delim::NonAlphanumeric);
    let stop = stopwords();
    let ghost pv = views(pieces@);
    let mut tv = TermVector { terms: Vec::new(), counts: Vec::new() };
    let mut k: usize = 0;
    assert(tv@ =~= seq![]);
    while k < pieces.len()
        invariant
            k <= pieces@.len(),
            pv == views(pieces@),
            str_views(stop@) == stopwords_spec(),
            tv.wf(),
            tv@ == tally(kept_words(pv.take(k as int))),
            k <= usize::MAX,
        decreases pieces.len() - k,
    {
        assert(pv.take(k + 1).drop_last() =~= pv.take(k as int));
        assert(pv.take(k + 1).last() == pieces@[k as int]@);
        let w = lowercase(&pieces[k]);
        let long = byte_len_exceeds(&w, 2);
        let ghost kw = kept_words(pv.take(k as int));
        if long && !is_stopword_exec(&w, &stop) {
            assert(kept_words(pv.take(k + 1)) == kw.push(w@));
            assert(kw.push(w@).drop_last() =~= kw);
            assert(kw.push(w@).last() == w@);
            proof {
                lemma_tally_counts_bounded(kw);
                lemma_kept_len(pv.take(k as int));
                lemma_index_of_bounds(tally(kw), w@);
            }
            match tv.find(&w) {
                Some(i) => {
                    let c = tv.counts[i];
                    tv.counts.set(i, c + 1);
                    assert(tv@ =~= tally(kept_words(pv.take(k as int))).update(
                        i as int,
                        (w@, (c + 1) as nat),
                    ));
                },
                None => {
                    let ghost old_v = tv@;
                    tv.terms.push(w);
                    tv.counts.push(1);
                    assert(tv@ =~= old_v.push((w@, 1nat)));
                },
            }
        } else {
            assert(kept_words(pv.take(k + 1)) == kw);
        }
        k = k + 1;
    }
    assert(pv.take(pieces@.len() as int) =~= pv);
    tv
}

fn is_stopword_exec(w: &[char], stop: &Vec<&str>) -> (r: bool)
    requires
        str_views(stop@) == stopwords_spec(),
    ensures
        r == is_stopword(w@),
{
    let ghost sv = str_views(stop@);
    let mut k: usize = 0;
    while k < stop.len()
        invariant
            k <= stop@.len(),
            sv == str_views(stop@),
            sv == stopwords_spec(),
            forall|i: int| 0 <= i < k ==> sv[i] != w@,
        decreases stop.len() - k,
    {
        let s = chars_of(stop[k]);
        if s.len() == w.len() && crate::strs::matches_at(w, &s, 0) {
            assert(w@ =~= w@.subrange(0, s@.len() as int));
            assert(sv[k as int] == w@);
            assert(stopwords_spec().contains(w@));
            return true;
        }
        proof {
            if sv[k as int] == w@ {
                assert(w@.subrange(0, s@.len() as int) =~= s@);
            }
        }
        k = k + 1;
    }
    proof {
        if is_stopword(w@) {
            let i = choose|i: int| 0 <= i < stopwords_spec().len() && stopwords_spec()[i] == w@;
            assert(sv[i] == w@);
        }
    }
    false
}

proof fn lemma_index_of_absent(es: Seq<(Seq<char>, nat)>, w: Seq<char>)
    ensures
        (index_of(es, w) == -1) == (forall|i: int| 0 <= i < es.len() ==> (#[trigger] es[i]).0 != w),
    decreases es.len(),
{
    if es.len() > 0 {
        let pre = es.drop_last();
        lemma_index_of_absent(pre, w);
        if es.last().0 != w {
            if forall|i: int| 0 <= i < pre.len() ==> (#[trigger] pre[i]).0 != w {
                assert forall|i: int| 0 <= i < es.len() implies (#[trigger] es[i]).0 != w by {
                    if i < pre.len() {
                        assert(es[i] == pre[i]);
                    }
                }
            } else {
                let i = choose|i: int| 0 <= i < pre.len() && (#[trigger] pre[i]).0 == w;
                assert(es[i] == pre[i]);
            }
        } else {
            assert(es[es.len() - 1].0 == w);
        }
    }
}

proof fn lemma_occurrences_absent(ws: Seq<Seq<char>>, w: Seq<char>)
    requires
        !ws.contains(w),
    ensures
        occurrences(ws, w) == 0,
    decreases ws.len(),
{
    if ws.len() > 0 {
        let pre = ws.drop_last();
        if pre.contains(w) {
            let j = choose|j: int| 0 <= j < pre.len() && pre[j] == w;
            assert(ws[j] == w);
        }
        assert(ws[ws.len() - 1] == ws.last());
        lemma_occurrences_absent(pre, w);
    }
}

proof fn lemma_tally_facts(ws: Seq<Seq<char>>)
    ensures
        forall|i: int|
            0 <= i < tally(ws).len() ==> (#[trigger] tally(ws)[i]).1 == occurrences(ws, tally(ws)[i].0),
        forall|i: int| 0 <= i < tally(ws).len() ==> ws.contains(#[trigger] tally(ws)[i].0),
        forall|i: int, j: int|
            0 <= i < j < tally(ws).len() ==> (#[trigger] tally(ws)[i]).0 != (#[trigger] tally(ws)[j]).0,
        forall|w: Seq<char>| #[trigger] ws.contains(w) ==> index_of(tally(ws), w) >= 0,
    decreases ws.len(),
{
    if ws.len() > 0 {
        let pre = ws.drop_last();
        let x = ws.last();
        lemma_tally_facts(pre);
        let t = tally(pre);
        let k = index_of(t, x);
        lemma_index_of_bounds(t, x);
        lemma_index_of_absent(t, x);
        let r = tally(ws);
        assert forall|i: int| 0 <= i < r.len() implies ws.contains(#[trigger] r[i].0) by {
            if i < t.len() && !(k >= 0 && i == k) {
                assert(r[i] == t[i]);
                let j = choose|j: int| 0 <= j < pre.len() && pre[j] == t[i].0;
                assert(ws[j] == pre[j]);
            } else {
                assert(r[i].0 == x);
                assert(ws[ws.len() - 1] == x);
            }
        }
        assert forall|i: int| 0 <= i < r.len() implies (#[trigger] r[i]).1 == occurrences(ws, r[i].0) by {
            if k >= 0 && i == k {
            } else if i < t.len() {
                assert(r[i] == t[i]);
                if k >= 0 {
                    assert(t[i].0 != t[k].0);
                }
            } else {
                assert(!pre.contains(x)) by {
                    if pre.contains(x) {
                        assert(index_of(t, x) >= 0);
                    }
                }
                lemma_occurrences_absent(pre, x);
            }
        }
        assert forall|w: Seq<char>| #[trigger] ws.contains(w) implies index_of(r, w) >= 0 by {
            let j = choose|j: int| 0 <= j < ws.len() && ws[j] == w;
            lemma_index_of_absent(r, w);
            lemma_index_of_bounds(r, w);
            if j < pre.len() {
                assert(pre[j] == w);
                assert(pre.contains(w));
                assert(index_of(t, w) >= 0);
                lemma_index_of_bounds(t, w);
                let m = index_of(t, w);
                if k >= 0 && m == k {
                    assert(r[m].0 == x);
                } else {
                    assert(r[m] == t[m]);
                }
            } else {
                if k >= 0 {
                    assert(r[k].0 == x);
                } else {
                    assert(r[t.len() as int].0 == x);
                }
            }
        }
    }
}

proof fn lemma_kept_words_ok(ps: Seq<Seq<char>>)
    ensures
        forall|i: int|
            0 <= i < kept_words(ps).len() ==> byte_len(#[trigger] kept_words(ps)[i]) > 2
                && !is_stopword(kept_words(ps)[i]),
    decreases ps.len(),
{
    if ps.len() > 0 {
        lemma_kept_words_ok(ps.drop_last());
        let pre = kept_words(ps.drop_last());
        let r = kept_words(ps);
        assert forall|i: int| 0 <= i < r.len() implies byte_len(#[trigger] r[i]) > 2 && !is_stopword(r[i]) by {
            if i < pre.len() {
                assert(r[i] == pre[i]);
            }
        }
    }
}

/// The term-frequency vector of a text lists each word that counts exactly once,
/// with its number of occurrences; a word counts when it is longer than two bytes
/// and is not a stopword.
pub proof fn law_tally_of_words(text: Seq<char>)
    ensures
        forall|i: int|
            0 <= i < tally(words_of(text)).len() ==> {
                let e = #[trigger] tally(words_of(text))[i];
                &&& byte_len(e.0) > 2
                &&& !is_stopword(e.0)
                &&& e.1 == occurrences(words_of(text), e.0)
                &&& e.1 > 0
            },
        forall|i: int, j: int|
            0 <= i < j < tally(words_of(text)).len() ==> (#[trigger] tally(words_of(text))[i]).0
                != (#[trigger] tally(words_of(text))[j]).0,
        forall|w: Seq<char>|
            #[trigger] words_of(text).contains(w) ==> index_of(tally(words_of(text)), w) >= 0,
{
    let ws = words_of(text);
    lemma_tally_facts(ws);
    lemma_kept_words_ok(split_by(text, Delim::NonAlphanumeric));
    let t = tally(ws);
    assert forall|i: int| 0 <= i < t.len() implies {
        let e = #[trigger] t[i];
        &&& byte_len(e.0) > 2
        &&& !is_stopword(e.0)
        &&& e.1 == occurrences(ws, e.0)
        &&& e.1 > 0
    } by {
        let j = choose|j: int| 0 <= j < ws.len() && ws[j] == t[i].0;
        assert(ws[j] == t[i].0);
        lemma_occurrences_present(ws, j);
    }
}

proof fn lemma_occurrences_present(ws: Seq<Seq<char>>, j: int)
    requires
        0 <= j < ws.len(),
    ensures
        occurrences(ws, ws[j]) > 0,
    decreases ws.len(),
{
    if j < ws.len() - 1 {
        let pre = ws.drop_last();
        assert(pre[j] == ws[j]);
        lemma_occurrences_present(pre, j);
    }
}

/// No stopword, whatever its length, is ever a word that counts or a term of the
/// term-frequency vector: its count is zero.
pub proof fn law_no_stopword_terms(text: Seq<char>, w: Seq<char>)
    requires
        stopwords_spec().contains(w),
    ensures
        !words_of(text).contains(w),
        index_of(tally(words_of(text)), w) == -1,
        forall|i: int| 0 <= i < tally(words_of(text)).len() ==> (#[trigger] tally(words_of(text))[i]).0 != w,
{
    let ws = words_of(text);
    lemma_kept_words_ok(split_by(text, Delim::NonAlphanumeric));
    lemma_tally_facts(ws);
    if ws.contains(w) {
        let k = choose|k: int| 0 <= k < ws.len() && ws[k] == w;
        assert(!is_stopword(ws[k]));
    }
    lemma_index_of_absent(tally(ws), w);
}

} // verus!
