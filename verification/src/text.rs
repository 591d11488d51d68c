//! Text segmentation shared by `eight_layer` (per-segment classification) and
//! `resonance` (per-section comparison): split on markdown headings when any line
//! is a heading, else on blank-line-separated paragraph blocks.
use vstd::prelude::*;

use crate::strs::{
    chars_of, concat, is_blank, lines, lines_exec, split_pat, split_pat_exec, starts_with, string_of,
    subrange, trim, trim_start, trim_start_vec, trim_vec, truncate_chars, truncated, views,
    is_substring, lemma_split_pat_substrings, lemma_trim_substring, lemma_trimmed_substrings,
    lemma_truncated_quotes, quotes_or_cut, all_ws, lemma_all_ws_substring, lemma_blank_iff_all_ws,
    lemma_lines_substrings, split_by, split_by_from, strip_cr, Delim, lemma_split_by_substrings,
    lemma_substring_trans, lemma_range_is_substring, lemma_trim_last, is_ws,
    lemma_split_by_nonempty,
};

verus! {

/// One section of a document.
#[derive(Debug, Clone)]
pub struct Segment {
    /// Heading text if this segment started with a markdown heading, else `None`.
    pub heading: Option<String>,
    pub body: String,
}

/// A segment as plain text.
pub struct SegmentV {
    pub heading: Option<Seq<char>>,
    pub body: Seq<char>,
}

pub open spec fn opt_view(o: Option<String>) -> Option<Seq<char>> {
    match o {
        Some(s) => Some(s@),
        None => None,
    }
}

impl View for Segment {
    type V = SegmentV;

    open spec fn view(&self) -> SegmentV {
        SegmentV { heading: opt_view(self.heading), body: self.body@ }
    }
}

pub open spec fn seg_views(v: Seq<Segment>) -> Seq<SegmentV> {
    v.map_values(|s: Segment| s@)
}

/// A line that starts a section: `#` after optional leading whitespace.
pub open spec fn is_heading_line(l: Seq<char>) -> bool {
    starts_with(trim_start(l), seq!['#'])
}

/// `str::trim_start_matches('#')`.
pub open spec fn strip_hashes(s: Seq<char>) -> Seq<char>
    decreases s.len(),
{
    if s.len() > 0 && s[0] == '#' {
        strip_hashes(s.drop_first())
    } else {
        s
    }
}

/// The heading text of a heading line.
pub open spec fn heading_text(l: Seq<char>) -> Seq<char> {
    trim(strip_hashes(trim_start(l)))
}

/// Whether any of `ls` is a heading line.
pub open spec fn any_heading(ls: Seq<Seq<char>>) -> bool {
    exists|i: int| 0 <= i < ls.len() && is_heading_line(#[trigger] ls[i])
}

/// Segments so far, the heading of the open section and its body so far.
pub struct HeadState {
    pub segs: Seq<SegmentV>,
    pub heading: Option<Seq<char>>,
    pub body: Seq<char>,
}

/// The open section, closed: kept when it has a heading or a non-blank body.
pub open spec fn close_section(st: HeadState) -> Seq<SegmentV> {
    if trim(st.body).len() > 0 || st.heading is Some {
        st.segs.push(SegmentV { heading: st.heading, body: trim(st.body) })
    } else {
        st.segs
    }
}

/// One line read while splitting on headings.
pub open spec fn head_step(st: HeadState, l: Seq<char>) -> HeadState {
    if is_heading_line(l) {
        HeadState { segs: close_section(st), heading: Some(heading_text(l)), body: seq![] }
    } else {
        HeadState { segs: st.segs, heading: st.heading, body: st.body + l + seq!['\n'] }
    }
}

/// The state after reading the first `n` lines.
pub open spec fn head_fold(ls: Seq<Seq<char>>, n: int) -> HeadState
    decreases n,
{
    if n <= 0 {
        HeadState { segs: seq![], heading: None, body: seq![] }
    } else {
        head_step(head_fold(ls, n - 1), ls[n - 1])
    }
}

/// Sections split at heading lines.
pub open spec fn by_headings(s: Seq<char>) -> Seq<SegmentV> {
    let ls = lines(s);
    close_section(head_fold(ls, ls.len() as int))
}

/// The non-empty texts among `ps`, in order.
pub open spec fn nonempty_only(ps: Seq<Seq<char>>) -> Seq<Seq<char>>
    decreases ps.len(),
{
    if ps.len() == 0 {
        seq![]
    } else if ps.last().len() > 0 {
        nonempty_only(ps.drop_last()).push(ps.last())
    } else {
        nonempty_only(ps.drop_last())
    }
}

/// The trimmed blank-line-separated blocks of `s` that are not empty.
pub open spec fn paragraphs(s: Seq<char>) -> Seq<Seq<char>> {
    nonempty_only(split_pat(s, seq!['\n', '\n']).map_values(|p: Seq<char>| trim(p)))
}

/// Sections split at blank lines, without headings.
pub open spec fn by_paragraphs(s: Seq<char>) -> Seq<SegmentV> {
    paragraphs(s).map_values(|p: Seq<char>| SegmentV { heading: None, body: p })
}

/// The sections of a document.
pub open spec fn segments_of(s: Seq<char>) -> Seq<SegmentV> {
    if any_heading(lines(s)) {
        by_headings(s)
    } else {
        by_paragraphs(s)
    }
}

fn is_heading_line_exec(l: &[char]) -> (r: bool)
    ensures
        r == is_heading_line(l@),
{
    let t = trim_start_vec(l);
    let r = t.len() > 0 && t[0] == '#';
    proof {
        let h: Seq<char> = seq!['#'];
        if r {
            assert(t@.take(1) =~= h);
        } else if t@.len() > 0 {
            assert(t@.take(1)[0] != h[0]);
        }
    }
    r
}

fn has_heading(ls: &Vec<Vec<char>>) -> (r: bool)
    ensures
        r == any_heading(views(ls@)),
{
    let mut k: usize = 0;
    while k < ls.len()
        invariant
            k <= ls@.len(),
            forall|i: int| 0 <= i < k ==> !is_heading_line(#[trigger] views(ls@)[i]),
        decreases ls.len() - k,
    {
        if is_heading_line_exec(&ls[k]) {
            assert(is_heading_line(views(ls@)[k as int]));
            return true;
        }
        k = k + 1;
    }
    false
}

fn heading_text_exec(l: &[char]) -> (r: Vec<char>)
    ensures
        r@ == heading_text(l@),
{
    let t = trim_start_vec(l);
    let mut i: usize = 0;
    assert(t@.subrange(0, t@.len() as int) =~= t@);
    while i < t.len() && t[i] == '#'
        invariant
            i <= t@.len(),
            strip_hashes(t@) == strip_hashes(t@.subrange(i as int, t@.len() as int)),
        decreases t.len() - i,
    {
        assert(t@.subrange(i as int, t@.len() as int).drop_first() =~= t@.subrange(
            i + 1,
            t@.len() as int,
        ));
        i = i + 1;
    }
    let rest = subrange(&t, i, t.len());
    trim_vec(&rest)
}

fn make_segment(heading: &Option<Vec<char>>, body: &[char]) -> (r: Segment)
    ensures
        r@.body == body@,
        r@.heading == match heading {
            Some(h) => Some(h@),
            None => None::<Seq<char>>,
        },
{
    let h = match heading {
        Some(h) => Some(string_of(h)),
        None => None,
    };
    Segment { heading: h, body: string_of(body) }
}

fn close_section_exec(segs: &mut Vec<Segment>, heading: &Option<Vec<char>>, body: &[char])
    ensures
        seg_views(final(segs)@) == close_section(
            HeadState {
                segs: seg_views(old(segs)@),
                heading: match heading {
                    Some(h) => Some(h@),
                    None => None::<Seq<char>>,
                },
                body: body@,
            },
        ),
{
    let t = trim_vec(body);
    if t.len() > 0 || heading.is_some() {
        let seg = make_segment(heading, &t);
        let ghost old_v = seg_views(segs@);
        segs.push(seg);
        assert(seg_views(segs@) =~= old_v.push(seg@));
    }
}

fn segment_by_headings(text: &[char]) -> (r: Vec<Segment>)
    ensures
        seg_views(r@) == by_headings(text@),
{
    let ls = lines_exec(text);
    let mut segs: Vec<Segment> = Vec::new();
    let mut heading: Option<Vec<char>> = None;
    let mut body: Vec<char> = Vec::new();
    let mut k: usize = 0;
    while k < ls.len()
        invariant
            k <= ls@.len(),
            ({
                let st = head_fold(views(ls@), k as int);
                &&& st.segs == seg_views(segs@)
                &&& st.body == body@
                &&& st.heading == match heading {
                    Some(h) => Some(h@),
                    None => None::<Seq<char>>,
                }
            }),
        decreases ls.len() - k,
    {
        let line = &ls[k];
        assert(views(ls@)[k as int] == line@);
        if is_heading_line_exec(line) {
            close_section_exec(&mut segs, &heading, &body);
            heading = Some(heading_text_exec(line));
            body = Vec::new();
        } else {
            let b1 = concat(&body, line);
            body = concat(&b1, &['\n']);
            assert(seq!['\n'] =~= (['\n'])@);
        }
        k = k + 1;
    }
    close_section_exec(&mut segs, &heading, &body);
    segs
}

pub fn nonempty_trimmed(ps: &Vec<Vec<char>>) -> (r: Vec<Vec<char>>)
    ensures
        views(r@) == nonempty_only(views(ps@).map_values(|p: Seq<char>| trim(p))),
{
    let ghost tv = views(ps@).map_values(|p: Seq<char>| trim(p));
    let mut r: Vec<Vec<char>> = Vec::new();
    let mut k: usize = 0;
    while k < ps.len()
        invariant
            k <= ps@.len(),
            tv == views(ps@).map_values(|p: Seq<char>| trim(p)),
            views(r@) == nonempty_only(tv.take(k as int)),
        decreases ps.len() - k,
    {
        let t = trim_vec(&ps[k]);
        assert(tv.take(k + 1).drop_last() =~= tv.take(k as int));
        assert(tv.take(k + 1).last() == t@);
        if t.len() > 0 {
            let ghost old_v = views(r@);
            r.push(t);
            assert(views(r@) =~= old_v.push(t@));
        }
        k = k + 1;
    }
    assert(tv.take(ps@.len() as int) =~= tv);
    r
}

fn segment_by_paragraphs(text: &[char]) -> (r: Vec<Segment>)
    ensures
        seg_views(r@) == by_paragraphs(text@),
{
    let ps = split_pat_exec(text, &['\n', '\n']);
    assert((['\n', '\n'])@ =~= seq!['\n', '\n']);
    let kept = nonempty_trimmed(&ps);
    let ghost pv = paragraphs(text@);
    assert(views(kept@) == pv);
    let mut r: Vec<Segment> = Vec::new();
    let mut k: usize = 0;
    while k < kept.len()
        invariant
            k <= kept@.len(),
            views(kept@) == pv,
            seg_views(r@) =~= pv.take(k as int).map_values(
                |p: Seq<char>| SegmentV { heading: None, body: p },
            ),
        decreases kept.len() - k,
    {
        let seg = Segment { heading: None, body: string_of(&kept[k]) };
        assert(pv[k as int] == kept@[k as int]@);
        let ghost old_v = seg_views(r@);
        r.push(seg);
        assert(seg_views(r@) =~= old_v.push(seg@));
        assert(pv.take(k + 1) =~= pv.take(k as int).push(pv[k as int]));
        k = k + 1;
    }
    assert(pv.take(pv.len() as int) =~= pv);
    r
}

/// Splits a document into sections: at markdown headings when any line (after
/// leading whitespace) starts with `#`, else into blank-line-separated paragraphs.
pub fn segment_text(text: &str) -> (r: Vec<Segment>)
    ensures
        seg_views(r@) == segments_of(text@),
        forall|i: int|
            0 <= i < r@.len() ==> (#[trigger] r@[i]).heading.is_some() || r@[i]@.body.len() > 0,
{
    let t = chars_of(text);
    let r = segment_chars(&t);
    r
}

/// `segment_text` over characters.
pub fn segment_chars(t: &[char]) -> (r: Vec<Segment>)
    ensures
        seg_views(r@) == segments_of(t@),
        forall|i: int|
            0 <= i < r@.len() ==> (#[trigger] r@[i]).heading.is_some() || r@[i]@.body.len() > 0,
{
    let ls = lines_exec(t);
    let r = if has_heading(&ls) {
        segment_by_headings(t)
    } else {
        segment_by_paragraphs(t)
    };
    proof {
        lemma_segments_non_degenerate(t@);
        assert forall|i: int| 0 <= i < r@.len() implies (#[trigger] r@[i]).heading.is_some()
            || r@[i]@.body.len() > 0 by {
            assert(seg_views(r@)[i] == r@[i]@);
            assert(segments_of(t@)[i] == r@[i]@);
            assert(r@[i]@.heading is Some ==> r@[i].heading.is_some());
        }
    }
    r
}

proof fn lemma_close_ok(st: HeadState)
    requires
        forall|i: int|
            0 <= i < st.segs.len() ==> (#[trigger] st.segs[i]).heading is Some || st.segs[i].body.len()
                > 0,
    ensures
        forall|i: int|
            0 <= i < close_section(st).len() ==> (#[trigger] close_section(st)[i]).heading is Some
                || close_section(st)[i].body.len() > 0,
{
}

proof fn lemma_head_fold_ok(ls: Seq<Seq<char>>, n: int)
    ensures
        forall|i: int|
            0 <= i < head_fold(ls, n).segs.len() ==> (#[trigger] head_fold(ls, n).segs[i]).heading is Some
                || head_fold(ls, n).segs[i].body.len() > 0,
    decreases n,
{
    if n > 0 {
        lemma_head_fold_ok(ls, n - 1);
        lemma_close_ok(head_fold(ls, n - 1));
    }
}

proof fn lemma_nonempty_only(ps: Seq<Seq<char>>)
    ensures
        forall|i: int| 0 <= i < nonempty_only(ps).len() ==> (#[trigger] nonempty_only(ps)[i]).len() > 0,
    decreases ps.len(),
{
    if ps.len() > 0 {
        lemma_nonempty_only(ps.drop_last());
        let r = nonempty_only(ps.drop_last());
        if ps.last().len() > 0 {
            assert forall|i: int| 0 <= i < r.push(ps.last()).len() implies (#[trigger] r.push(
                ps.last(),
            )[i]).len() > 0 by {
                if i < r.len() {
                    assert(r.push(ps.last())[i] == r[i]);
                }
            }
        }
    }
}

/// Every section has a heading or a non-empty body.
pub proof fn lemma_segments_non_degenerate(s: Seq<char>)
    ensures
        forall|i: int|
            0 <= i < segments_of(s).len() ==> (#[trigger] segments_of(s)[i]).heading is Some
                || segments_of(s)[i].body.len() > 0,
{
    let ls = lines(s);
    lemma_head_fold_ok(ls, ls.len() as int);
    lemma_close_ok(head_fold(ls, ls.len() as int));
    lemma_nonempty_only(split_pat(s, seq!['\n', '\n']).map_values(|p: Seq<char>| trim(p)));
}

/// The closing block of a document: its last non-empty trimmed paragraph, or the
/// whole trimmed text when there is none.
pub open spec fn last_chunk(text: Seq<char>) -> Seq<char> {
    let ps = paragraphs(text);
    if ps.len() > 0 {
        ps.last()
    } else {
        trim(text)
    }
}

/// A short real span of the document to cite: its closing block, shortened to
/// `max` characters.
pub open spec fn anchor(text: Seq<char>, max: nat) -> Seq<char> {
    truncated(last_chunk(text), max)
}

/// The closing block of a document, shortened to `max` characters.
pub fn anchor_chars(text: &[char], max: usize) -> (r: Vec<char>)
    ensures
        r@ == anchor(text@, max as nat),
{
    let ps = split_pat_exec(text, &['\n', '\n']);
    assert((['\n', '\n'])@ =~= seq!['\n', '\n']);
    let kept = nonempty_trimmed(&ps);
    if kept.len() > 0 {
        truncate_chars(&kept[kept.len() - 1], max)
    } else {
        let t = trim_vec(text);
        truncate_chars(&t, max)
    }
}

proof fn lemma_nonempty_only_substrings(ps: Seq<Seq<char>>, s: Seq<char>)
    requires
        forall|k: int| 0 <= k < ps.len() ==> is_substring(#[trigger] ps[k], s),
    ensures
        forall|k: int|
            0 <= k < nonempty_only(ps).len() ==> is_substring(#[trigger] nonempty_only(ps)[k], s),
    decreases ps.len(),
{
    if ps.len() > 0 {
        let pre = ps.drop_last();
        assert forall|k: int| 0 <= k < pre.len() implies is_substring(#[trigger] pre[k], s) by {
            assert(pre[k] == ps[k]);
        }
        lemma_nonempty_only_substrings(pre, s);
        let r = nonempty_only(pre);
        if ps.last().len() > 0 {
            assert forall|k: int| 0 <= k < r.push(ps.last()).len() implies is_substring(
                #[trigger] r.push(ps.last())[k],
                s,
            ) by {
                if k < r.len() {
                    assert(r.push(ps.last())[k] == r[k]);
                }
            }
        }
    }
}

/// Every paragraph of `s` is a span of `s`.
pub proof fn lemma_paragraphs_substrings(s: Seq<char>)
    ensures
        forall|k: int| 0 <= k < paragraphs(s).len() ==> is_substring(#[trigger] paragraphs(s)[k], s),
{
    let ps = split_pat(s, seq!['\n', '\n']);
    let qs = ps.map_values(|p: Seq<char>| trim(p));
    lemma_split_pat_substrings(s, seq!['\n', '\n']);
    lemma_trimmed_substrings(ps, qs, s);
    lemma_nonempty_only_substrings(qs, s);
}

/// The cited span of a document is a span of it, or one cut short and marked `…`.
pub proof fn lemma_anchor_quotes(text: Seq<char>, max: nat)
    ensures
        quotes_or_cut(anchor(text, max), text),
{
    let ps = paragraphs(text);
    if ps.len() > 0 {
        lemma_paragraphs_substrings(text);
        assert(is_substring(ps[ps.len() - 1], text));
    } else {
        lemma_trim_substring(text);
    }
    lemma_truncated_quotes(last_chunk(text), text, max);
}

/// A blank document has no sections.
pub proof fn lemma_blank_no_segments(s: Seq<char>)
    requires
        trim(s).len() == 0,
    ensures
        segments_of(s).len() == 0,
{
    lemma_blank_iff_all_ws(s);
    let ls = lines(s);
    lemma_lines_substrings(s);
    assert forall|i: int| 0 <= i < ls.len() implies !is_heading_line(#[trigger] ls[i]) by {
        lemma_all_ws_substring(ls[i], s);
        lemma_blank_iff_all_ws(ls[i]);
    }
    let ps = split_pat(s, seq!['\n', '\n']);
    let qs = ps.map_values(|p: Seq<char>| trim(p));
    lemma_split_pat_substrings(s, seq!['\n', '\n']);
    assert forall|k: int| 0 <= k < qs.len() implies (#[trigger] qs[k]).len() == 0 by {
        lemma_all_ws_substring(ps[k], s);
        lemma_blank_iff_all_ws(ps[k]);
    }
    lemma_nonempty_only_of_empties(qs);
}

proof fn lemma_nonempty_only_of_empties(ps: Seq<Seq<char>>)
    requires
        forall|k: int| 0 <= k < ps.len() ==> (#[trigger] ps[k]).len() == 0,
    ensures
        nonempty_only(ps).len() == 0,
    decreases ps.len(),
{
    if ps.len() > 0 {
        let pre = ps.drop_last();
        assert forall|k: int| 0 <= k < pre.len() implies (#[trigger] pre[k]).len() == 0 by {
            assert(pre[k] == ps[k]);
        }
        lemma_nonempty_only_of_empties(pre);
    }
}

// ───────────────────────────── section bodies are spans ─────────────────────────────

/// Lines put back together, each followed by a newline.
pub open spec fn join_nl(ls: Seq<Seq<char>>) -> Seq<char>
    decreases ls.len(),
{
    if ls.len() == 0 {
        seq![]
    } else {
        join_nl(ls.drop_last()) + ls.last() + seq!['\n']
    }
}

proof fn lemma_join_nl_concat(x: Seq<Seq<char>>, y: Seq<Seq<char>>)
    ensures
        join_nl(x + y) == join_nl(x) + join_nl(y),
    decreases y.len(),
{
    if y.len() == 0 {
        assert(x + y =~= x);
    } else {
        lemma_join_nl_concat(x, y.drop_last());
        assert((x + y).drop_last() =~= x + y.drop_last());
        assert((x + y).last() == y.last());
    }
}

proof fn lemma_split_lines_join(s: Seq<char>, i: int, start: int)
    requires
        0 <= start <= i <= s.len(),
    ensures
        join_nl(split_by_from(s, Delim::Newline, i, start)) == s.subrange(start, s.len() as int) + seq![
            '\n',
        ],
    decreases s.len() - i,
{
    if i >= s.len() {
        let p = s.subrange(start, s.len() as int);
        assert(split_by_from(s, Delim::Newline, i, start) == seq![p]);
        assert(seq![p].drop_last() =~= Seq::<Seq<char>>::empty());
        assert(join_nl(Seq::<Seq<char>>::empty()) == Seq::<char>::empty());
        assert(join_nl(seq![p]) =~= p + seq!['\n']);
    } else if s[i] == '\n' {
        let p = s.subrange(start, i);
        let rest = split_by_from(s, Delim::Newline, i + 1, i + 1);
        lemma_split_lines_join(s, i + 1, i + 1);
        assert(split_by_from(s, Delim::Newline, i, start) == seq![p] + rest);
        lemma_join_nl_concat(seq![p], rest);
        assert(seq![p].drop_last() =~= Seq::<Seq<char>>::empty());
        assert(join_nl(Seq::<Seq<char>>::empty()) == Seq::<char>::empty());
        assert(join_nl(seq![p]) =~= p + seq!['\n']);
        assert(p + seq!['\n'] + (s.subrange(i + 1, s.len() as int) + seq!['\n']) =~= s.subrange(
            start,
            s.len() as int,
        ) + seq!['\n']);
    } else {
        lemma_split_lines_join(s, i + 1, start);
        assert(split_by_from(s, Delim::Newline, i, start) == split_by_from(
            s,
            Delim::Newline,
            i + 1,
            start,
        ));
    }
}

/// `s` has no carriage return.
pub open spec fn no_cr(s: Seq<char>) -> bool {
    forall|i: int| 0 <= i < s.len() ==> #[trigger] s[i] != '\r'
}

proof fn lemma_lines_prefix(s: Seq<char>)
    requires
        no_cr(s),
    ensures
        lines(s).len() <= split_by(s, Delim::Newline).len(),
        lines(s) == split_by(s, Delim::Newline).take(lines(s).len() as int),
{
    let ps = split_by(s, Delim::Newline);
    lemma_split_by_nonempty(s, Delim::Newline);
    lemma_split_by_substrings(s, Delim::Newline);
    let n = ps.len() as int;
    let ended = ps.take(n - 1).map_values(|l: Seq<char>| strip_cr(l));
    assert forall|k: int| 0 <= k < n - 1 implies #[trigger] ended[k] == ps[k] by {
        let p = ps[k];
        assert(is_substring(p, s));
        if p.len() > 0 && p.last() == '\r' {
            let (a, b) = choose|a: int, b: int| 0 <= a <= b <= s.len() && #[trigger] s.subrange(a, b) == p;
            assert(s[a + p.len() - 1] == p.last());
        }
    }
    assert(ended =~= ps.take(n - 1));
    if ps[n - 1].len() == 0 {
        assert(lines(s) == ended);
    } else {
        assert(lines(s) =~= ps.take(n));
    }
}

/// A span of `s` followed by a newline whose last character is not whitespace is a
/// span of `s`.
proof fn lemma_trimmed_span(x: Seq<char>, s: Seq<char>)
    requires
        is_substring(x, s + seq!['\n']),
    ensures
        is_substring(trim(x), s),
{
    let sp = s + seq!['\n'];
    lemma_trim_substring(x);
    lemma_substring_trans(trim(x), x, sp);
    lemma_trim_last(x);
    let t = trim(x);
    let (a, b) = choose|a: int, b: int| 0 <= a <= b <= sp.len() && #[trigger] sp.subrange(a, b) == t;
    if a == b {
        assert(s.subrange(0, 0) =~= t);
    } else {
        assert(t.last() == sp[b - 1]);
        assert(b <= s.len());
        assert(s.subrange(a, b) =~= t);
    }
}

proof fn lemma_head_fold_spans(s: Seq<char>, ls: Seq<Seq<char>>, n: int) -> (j: int)
    requires
        0 <= n <= ls.len(),
        forall|a: int, b: int|
            0 <= a <= b <= ls.len() ==> is_substring(#[trigger] join_nl(ls.subrange(a, b)), s + seq!['\n']),
    ensures
        0 <= j <= n,
        head_fold(ls, n).body == join_nl(ls.subrange(j, n)),
        forall|k: int|
            0 <= k < head_fold(ls, n).segs.len() ==> is_substring(#[trigger] head_fold(ls, n).segs[k].body, s),
    decreases n,
{
    if n == 0 {
        assert(ls.subrange(0, 0) =~= Seq::<Seq<char>>::empty());
        0
    } else {
        let j0 = lemma_head_fold_spans(s, ls, n - 1);
        let st = head_fold(ls, n - 1);
        let l = ls[n - 1];
        if is_heading_line(l) {
            lemma_close_spans(s, ls, st, j0, n - 1);
            assert(ls.subrange(n, n) =~= Seq::<Seq<char>>::empty());
            n
        } else {
            assert(ls.subrange(j0, n).drop_last() =~= ls.subrange(j0, n - 1));
            assert(ls.subrange(j0, n).last() == l);
            j0
        }
    }
}

proof fn lemma_close_spans(s: Seq<char>, ls: Seq<Seq<char>>, st: HeadState, j: int, n: int)
    requires
        0 <= j <= n <= ls.len(),
        st.body == join_nl(ls.subrange(j, n)),
        forall|k: int| 0 <= k < st.segs.len() ==> is_substring(#[trigger] st.segs[k].body, s),
        forall|a: int, b: int|
            0 <= a <= b <= ls.len() ==> is_substring(#[trigger] join_nl(ls.subrange(a, b)), s + seq!['\n']),
    ensures
        forall|k: int| 0 <= k < close_section(st).len() ==> is_substring(#[trigger] close_section(st)[k].body, s),
{
    assert(is_substring(join_nl(ls.subrange(j, n)), s + seq!['\n']));
    lemma_trimmed_span(st.body, s);
    let c = close_section(st);
    assert forall|k: int| 0 <= k < c.len() implies is_substring(#[trigger] c[k].body, s) by {
        if k < st.segs.len() {
            assert(c[k] == st.segs[k]);
        }
    }
}

/// Every section body of a document without carriage returns is a span of the
/// document. (A heading section's body is rebuilt from its lines, which drop a
/// `\r` before each line break, so with carriage returns it need not be one.)
pub proof fn law_section_bodies_are_spans(s: Seq<char>)
    requires
        no_cr(s),
    ensures
        forall|k: int| 0 <= k < segments_of(s).len() ==> is_substring(#[trigger] segments_of(s)[k].body, s),
{
    let ls = lines(s);
    if any_heading(ls) {
        let ps = split_by(s, Delim::Newline);
        lemma_lines_prefix(s);
        lemma_split_lines_join(s, 0, 0);
        assert(s.subrange(0, s.len() as int) =~= s);
        let sp = s + seq!['\n'];
        assert(join_nl(ps) == sp);
        assert forall|a: int, b: int| 0 <= a <= b <= ls.len() implies is_substring(
            #[trigger] join_nl(ls.subrange(a, b)),
            sp,
        ) by {
            let x = ps.take(a);
            let y = ls.subrange(a, b);
            let z = ps.skip(b);
            assert(ls.subrange(a, b) =~= ps.subrange(a, b));
            assert(ps =~= x + y + z);
            lemma_join_nl_concat(x + y, z);
            lemma_join_nl_concat(x, y);
            let p = join_nl(x).len() as int;
            let q = p + join_nl(y).len();
            assert(sp.subrange(p, q) =~= join_nl(y));
            lemma_range_is_substring(sp, p, q);
        }
        let j = lemma_head_fold_spans(s, ls, ls.len() as int);
        lemma_close_spans(s, ls, head_fold(ls, ls.len() as int), j, ls.len() as int);
    } else {
        lemma_paragraphs_substrings(s);
        let ps = paragraphs(s);
        assert forall|k: int| 0 <= k < segments_of(s).len() implies is_substring(
            #[trigger] segments_of(s)[k].body,
            s,
        ) by {
            assert(segments_of(s)[k].body == ps[k]);
        }
    }
}

} // verus!
