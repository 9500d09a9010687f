//! Laying out styled text: highlighting, measuring, cutting and wrapping.
use vstd::prelude::*;

use crate::diff::{HighlightRange, InlineRange};
use crate::intraline::{sort_ranges, sorted_ranges};
use crate::outside::{char_columns, char_width, text_columns, text_width};
use crate::style::{
    apply_text_style, lemma_spans_text_push, row_views, span, span_views, spans_text,
    token_style, Color, Span, SpanV, Style,
};
use crate::text::{
    byte_len, byte_length, char_bytes, chars_of, lemma_byte_len_take,
    lemma_split_lines_nonempty, repeat_char, repeated, split_lines, split_lines_of, string_of,
    texts,
};

verus! {

// ---------------------------------------------------------------------------
// Highlighting
// ---------------------------------------------------------------------------
/// Puts a position into a list in ascending order, unless it is there.
pub open spec fn insert_point(points: Seq<usize>, p: usize) -> Seq<usize>
    decreases points.len(),
{
    if points.len() == 0 || points.last() < p {
        points.push(p)
    } else if points.last() == p {
        points
    } else {
        insert_point(points.drop_last(), p).push(points.last())
    }
}

/// The positions in ascending order, each of them once.
pub open spec fn sorted_points(points: Seq<usize>) -> Seq<usize>
    decreases points.len(),
{
    if points.len() == 0 {
        Seq::empty()
    } else {
        insert_point(sorted_points(points.drop_last()), points.last())
    }
}

/// The lesser of two positions.
pub open spec fn least(a: usize, b: usize) -> usize {
    if a <= b {
        a
    } else {
        b
    }
}

/// The ends of highlights, cut at the end of the text.
pub open spec fn highlight_points(highlights: Seq<HighlightRange>, len: usize) -> Seq<usize>
    decreases highlights.len(),
{
    if highlights.len() == 0 {
        Seq::empty()
    } else {
        highlight_points(highlights.drop_last(), len).push(
            least(highlights.last().start, len),
        ).push(least(highlights.last().end, len))
    }
}

/// The ends of changed ranges, cut at the end of the text.
pub open spec fn inline_points(ranges: Seq<InlineRange>, len: usize) -> Seq<usize>
    decreases ranges.len(),
{
    if ranges.len() == 0 {
        Seq::empty()
    } else {
        inline_points(ranges.drop_last(), len).push(least(ranges.last().start, len)).push(
            least(ranges.last().end, len),
        )
    }
}

/// The positions at which the style of a text may change.
pub open spec fn style_points(
    highlights: Seq<HighlightRange>,
    ranges: Seq<InlineRange>,
    len: usize,
) -> Seq<usize> {
    sorted_points(
        seq![0usize, len] + highlight_points(highlights, len) + inline_points(ranges, len),
    )
}

/// Puts a highlight behind those that start no later than it.
pub open spec fn insert_highlight(list: Seq<HighlightRange>, h: HighlightRange) -> Seq<
    HighlightRange,
>
    decreases list.len(),
{
    if list.len() == 0 || list.last().start <= h.start {
        list.push(h)
    } else {
        insert_highlight(list.drop_last(), h).push(list.last())
    }
}

/// The highlights by their start, those with the same start in their given
/// order.
pub open spec fn sorted_highlights(list: Seq<HighlightRange>) -> Seq<HighlightRange>
    decreases list.len(),
{
    if list.len() == 0 {
        Seq::empty()
    } else {
        insert_highlight(sorted_highlights(list.drop_last()), list.last())
    }
}

/// The first highlight from `i` on that reaches beyond a position.
pub open spec fn live_highlight(sorted: Seq<HighlightRange>, i: int, p: usize) -> int
    decreases sorted.len() - i,
{
    if 0 <= i < sorted.len() && sorted[i].end <= p {
        live_highlight(sorted, i + 1, p)
    } else {
        i
    }
}

/// The first changed range from `i` on that reaches beyond a position.
pub open spec fn live_inline(sorted: Seq<InlineRange>, i: int, p: usize) -> int
    decreases sorted.len() - i,
{
    if 0 <= i < sorted.len() && sorted[i].end <= p {
        live_inline(sorted, i + 1, p)
    } else {
        i
    }
}

/// The style of the bytes `a..b`: that of the first highlight still open there
/// if it spans them, with the background of the changed ranges over it.
pub open spec fn segment_style(
    sorted: Seq<HighlightRange>,
    inline: Seq<InlineRange>,
    base: Style,
    is_current: bool,
    inline_bg: Option<Color>,
    a: usize,
    b: usize,
) -> Style {
    let h = live_highlight(sorted, 0, a);
    let token = if h < sorted.len() && sorted[h].start <= a && sorted[h].end >= b {
        token_style(base, sorted[h].style, is_current)
    } else {
        base
    };
    let r = live_inline(inline, 0, a);
    match inline_bg {
        Some(bg) if r < inline.len() && inline[r].start <= a && inline[r].end >= b =>
            token.with_bg(bg).with_bold(),
        _ => token,
    }
}

/// How many characters end at a byte position; none where it lies inside of a
/// character.
pub open spec fn char_index(s: Seq<char>, p: int) -> Option<int>
    decreases s.len(),
{
    if byte_len(s) == p {
        Some(s.len() as int)
    } else if s.len() == 0 {
        None
    } else {
        char_index(s.drop_last(), p)
    }
}

/// The text of the bytes `a..b`, if they are whole characters.
pub open spec fn byte_slice(s: Seq<char>, a: int, b: int) -> Option<Seq<char>> {
    match (char_index(s, a), char_index(s, b)) {
        (Some(i), Some(j)) if i <= j => Some(s.subrange(i, j)),
        _ => None,
    }
}

/// What a line is highlighted with.
pub struct LineStyle {
    pub base: Style,
    pub is_current: bool,
    pub current_line_bg: Color,
    pub inline_bg: Option<Color>,
}

impl LineStyle {
    /// The style that the highlights are drawn over.
    pub open spec fn ground(self) -> Style {
        if self.is_current {
            self.base.with_bg(self.current_line_bg).with_bold()
        } else {
            self.base
        }
    }
}

/// The first `n` pieces between neighbouring points, each in its style. Bytes
/// that are not whole characters are left out.
pub open spec fn segments(
    content: Seq<char>,
    sorted: Seq<HighlightRange>,
    inline: Seq<InlineRange>,
    style: LineStyle,
    points: Seq<usize>,
    n: int,
) -> Seq<SpanV>
    decreases n,
{
    if n <= 0 {
        Seq::empty()
    } else {
        let before = segments(content, sorted, inline, style, points, n - 1);
        let a = points[n - 1];
        let b = points[n];
        match byte_slice(content, a as int, b as int) {
            Some(text) => before.push(
                span(
                    text,
                    segment_style(
                        sorted,
                        inline,
                        style.ground(),
                        style.is_current,
                        style.inline_bg,
                        a,
                        b,
                    ),
                ),
            ),
            None => before,
        }
    }
}

/// A line as styled text.
pub open spec fn highlighted(
    content: Seq<char>,
    highlights: Seq<HighlightRange>,
    ranges: Seq<InlineRange>,
    style: LineStyle,
) -> Seq<SpanV> {
    if highlights.len() == 0 && ranges.len() == 0 {
        seq![span(content, style.ground())]
    } else {
        let points = style_points(highlights, ranges, byte_len(content) as usize);
        segments(
            content,
            sorted_highlights(highlights),
            sorted_ranges(ranges),
            style,
            points,
            points.len() - 1,
        )
    }
}

proof fn lemma_insert_point(points: Seq<usize>, p: usize)
    requires
        forall|i: int, j: int| 0 <= i < j < points.len() ==> points[i] < points[j],
    ensures
        insert_point(points, p).len() >= points.len(),
        insert_point(points, p).len() >= 1,
        forall|i: int, j: int|
            0 <= i < j < insert_point(points, p).len() ==> insert_point(points, p)[i]
                < insert_point(points, p)[j],
        forall|q: usize| #[trigger]
            insert_point(points, p).contains(q) <==> points.contains(q) || q == p,
    decreases points.len(),
{
    let now = insert_point(points, p);
    if points.len() == 0 || points.last() < p {
        assert(now[points.len() as int] == p);
        assert forall|q: usize| #[trigger] now.contains(q) <==> points.contains(q) || q == p by {
            if points.contains(q) {
                let k = choose|k: int| 0 <= k < points.len() && points[k] == q;
                assert(now[k] == q);
            }
            if now.contains(q) {
                let k = choose|k: int| 0 <= k < now.len() && now[k] == q;
                if k < points.len() {
                    assert(points[k] == q);
                }
            }
        }
    } else if points.last() == p {
        assert(points[points.len() - 1] == p);
    } else {
        let front = points.drop_last();
        lemma_insert_point(front, p);
        let before = insert_point(front, p);
        assert forall|q: usize| #[trigger] now.contains(q) <==> points.contains(q) || q == p by {
            if points.contains(q) {
                let k = choose|k: int| 0 <= k < points.len() && points[k] == q;
                if k < front.len() {
                    assert(front[k] == q);
                    assert(before.contains(q));
                    let j = choose|j: int| 0 <= j < before.len() && before[j] == q;
                    assert(now[j] == q);
                } else {
                    assert(now[before.len() as int] == q);
                }
            }
            if q == p {
                assert(before.contains(q));
                let j = choose|j: int| 0 <= j < before.len() && before[j] == q;
                assert(now[j] == q);
            }
            if now.contains(q) {
                let k = choose|k: int| 0 <= k < now.len() && now[k] == q;
                if k < before.len() {
                    assert(before[k] == q);
                    assert(before.contains(q));
                    if front.contains(q) {
                        let j = choose|j: int| 0 <= j < front.len() && front[j] == q;
                        assert(points[j] == q);
                    }
                } else {
                    assert(points[points.len() - 1] == q);
                }
            }
        }
        assert forall|i: int, j: int| 0 <= i < j < now.len() implies now[i] < now[j] by {
            if j == before.len() {
                assert(before.contains(before[i]));
                if front.contains(before[i]) {
                    let k = choose|k: int| 0 <= k < front.len() && front[k] == before[i];
                    assert(points[k] < points[points.len() - 1]);
                }
            }
        }
    }
}

/// Sorted points ascend, and are the points that were given.
proof fn lemma_sorted_points(points: Seq<usize>)
    ensures
        points.len() > 0 ==> sorted_points(points).len() > 0,
        forall|i: int, j: int|
            0 <= i < j < sorted_points(points).len() ==> sorted_points(points)[i]
                < sorted_points(points)[j],
        forall|q: usize| #[trigger] sorted_points(points).contains(q) <==> points.contains(q),
    decreases points.len(),
{
    if points.len() > 0 {
        let front = points.drop_last();
        lemma_sorted_points(front);
        lemma_insert_point(sorted_points(front), points.last());
        assert forall|q: usize| #[trigger] sorted_points(points).contains(q) <==> points.contains(
            q,
        ) by {
            assert(sorted_points(front).contains(q) <==> front.contains(q));
            if points.contains(q) {
                let k = choose|k: int| 0 <= k < points.len() && points[k] == q;
                if k < front.len() {
                    assert(front[k] == q);
                }
            }
            if front.contains(q) {
                let k = choose|k: int| 0 <= k < front.len() && front[k] == q;
                assert(points[k] == q);
            }
            assert(points[points.len() - 1] == points.last());
        }
    }
}

proof fn lemma_insert_point_at(points: Seq<usize>, p: usize, at: int)
    requires
        0 <= at <= points.len(),
        at > 0 ==> points[at - 1] < p,
        forall|i: int| at <= i < points.len() ==> #[trigger] points[i] > p,
    ensures
        insert_point(points, p) == points.insert(at, p),
    decreases points.len(),
{
    if points.len() == at {
        assert(points.insert(at, p) =~= points.push(p));
    } else {
        lemma_insert_point_at(points.drop_last(), p, at);
        assert(points.insert(at, p) =~= points.drop_last().insert(at, p).push(points.last()));
    }
}

proof fn lemma_insert_point_present(points: Seq<usize>, p: usize, at: int)
    requires
        0 < at <= points.len(),
        points[at - 1] == p,
        forall|i: int| at <= i < points.len() ==> #[trigger] points[i] > p,
    ensures
        insert_point(points, p) == points,
    decreases points.len(),
{
    if points.len() > at {
        lemma_insert_point_present(points.drop_last(), p, at);
        assert(points.drop_last().push(points.last()) =~= points);
    }
}

/// Puts a position into a list in ascending order.
fn add_point(points: &mut Vec<usize>, p: usize)
    ensures
        final(points)@ == insert_point(old(points)@, p),
{
    let mut at: usize = points.len();
    while at > 0 && points[at - 1] > p
        invariant
            at <= points@.len(),
            forall|i: int| at <= i < points@.len() ==> #[trigger] points@[i] > p,
        decreases at,
    {
        at = at - 1;
    }
    if at > 0 && points[at - 1] == p {
        proof {
            lemma_insert_point_present(points@, p, at as int);
        }
    } else {
        proof {
            lemma_insert_point_at(points@, p, at as int);
        }
        points.insert(at, p);
    }
}

fn min_of(a: usize, b: usize) -> (r: usize)
    ensures
        r == least(a, b),
{
    if a <= b {
        a
    } else {
        b
    }
}

proof fn lemma_sorted_points_push(points: Seq<usize>, p: usize)
    ensures
        sorted_points(points.push(p)) == insert_point(sorted_points(points), p),
{
    assert(points.push(p).drop_last() =~= points);
}

/// The positions at which the style of a text may change.
fn collect_points(highlights: &[HighlightRange], ranges: &[InlineRange], len: usize) -> (v: Vec<
    usize,
>)
    ensures
        v@ == style_points(highlights@, ranges@, len),
{
    let mut v: Vec<usize> = Vec::new();
    let ghost mut given: Seq<usize> = Seq::empty();
    add_point(&mut v, 0);
    add_point(&mut v, len);
    proof {
        lemma_sorted_points_push(Seq::empty(), 0);
        lemma_sorted_points_push(Seq::<usize>::empty().push(0), len);
        given = seq![0usize, len];
        assert(given =~= Seq::<usize>::empty().push(0).push(len));
        assert(v@ == sorted_points(given));
    }
    let mut i: usize = 0;
    assert(given + highlight_points(highlights@.take(0), len) =~= given);
    while i < highlights.len()
        invariant
            i <= highlights@.len(),
            given == seq![0usize, len],
            v@ == sorted_points(given + highlight_points(highlights@.take(i as int), len)),
        decreases highlights@.len() - i,
    {
        let a = min_of(highlights[i].start, len);
        let b = min_of(highlights[i].end, len);
        add_point(&mut v, a);
        add_point(&mut v, b);
        proof {
            let before = given + highlight_points(highlights@.take(i as int), len);
            lemma_sorted_points_push(before, a);
            lemma_sorted_points_push(before.push(a), b);
            assert(highlights@.take(i + 1).drop_last() =~= highlights@.take(i as int));
            assert(given + highlight_points(highlights@.take(i + 1), len) =~= before.push(a).push(
                b,
            ));
        }
        i = i + 1;
    }
    assert(highlights@.take(i as int) =~= highlights@);
    let ghost base = given + highlight_points(highlights@, len);
    i = 0;
    assert(base + inline_points(ranges@.take(0), len) =~= base);
    while i < ranges.len()
        invariant
            i <= ranges@.len(),
            v@ == sorted_points(base + inline_points(ranges@.take(i as int), len)),
        decreases ranges@.len() - i,
    {
        let a = min_of(ranges[i].start, len);
        let b = min_of(ranges[i].end, len);
        add_point(&mut v, a);
        add_point(&mut v, b);
        proof {
            let before = base + inline_points(ranges@.take(i as int), len);
            lemma_sorted_points_push(before, a);
            lemma_sorted_points_push(before.push(a), b);
            assert(ranges@.take(i + 1).drop_last() =~= ranges@.take(i as int));
            assert(base + inline_points(ranges@.take(i + 1), len) =~= before.push(a).push(b));
        }
        i = i + 1;
    }
    assert(ranges@.take(i as int) =~= ranges@);
    v
}

proof fn lemma_insert_highlight(list: Seq<HighlightRange>, h: HighlightRange, p: int)
    requires
        0 <= p <= list.len(),
        p > 0 ==> list[p - 1].start <= h.start,
        forall|i: int| p <= i < list.len() ==> (#[trigger] list[i]).start > h.start,
    ensures
        insert_highlight(list, h) == list.insert(p, h),
    decreases list.len(),
{
    if list.len() == p {
        assert(list.insert(p, h) =~= list.push(h));
    } else {
        assert(list.last().start > h.start);
        lemma_insert_highlight(list.drop_last(), h, p);
        assert(list.insert(p, h) =~= list.drop_last().insert(p, h).push(list.last()));
    }
}

fn sort_highlights(list: &[HighlightRange]) -> (v: Vec<HighlightRange>)
    ensures
        v@ == sorted_highlights(list@),
{
    let mut v: Vec<HighlightRange> = Vec::new();
    let mut i: usize = 0;
    assert(list@.take(0) =~= Seq::empty());
    while i < list.len()
        invariant
            i <= list@.len(),
            v@ == sorted_highlights(list@.take(i as int)),
        decreases list@.len() - i,
    {
        let h = list[i];
        let mut p: usize = v.len();
        while p > 0 && v[p - 1].start > h.start
            invariant
                p <= v@.len(),
                forall|k: int| p <= k < v@.len() ==> (#[trigger] v@[k]).start > h.start,
            decreases p,
        {
            p = p - 1;
        }
        proof {
            lemma_insert_highlight(v@, h, p as int);
            assert(list@.take(i + 1).drop_last() =~= list@.take(i as int));
        }
        v.insert(p, h);
        i = i + 1;
    }
    assert(list@.take(i as int) =~= list@);
    v
}

/// A position behind the first `k` characters has those in front of it.
proof fn lemma_char_index(s: Seq<char>, k: int)
    requires
        0 <= k <= s.len(),
    ensures
        char_index(s, byte_len(s.take(k)) as int) == Some(k),
    decreases s.len(),
{
    if k == s.len() {
        assert(s.take(k) =~= s);
    } else {
        lemma_byte_len_take(s.drop_last(), k);
        assert(s.drop_last().take(k) =~= s.take(k));
        lemma_char_index(s.drop_last(), k);
    }
}

/// A position inside of a character has no characters ending at it.
proof fn lemma_char_index_inside(s: Seq<char>, k: int, p: int)
    requires
        0 <= k < s.len(),
        byte_len(s.take(k)) < p < byte_len(s.take(k + 1)),
    ensures
        char_index(s, p) is None,
    decreases s.len(),
{
    lemma_byte_len_take(s, k + 1);
    if k + 1 == s.len() {
        assert(s.take(k + 1) =~= s);
        assert(s.take(k) =~= s.drop_last());
        lemma_char_index_high(s.drop_last(), p);
    } else {
        assert(s.drop_last().take(k) =~= s.take(k));
        assert(s.drop_last().take(k + 1) =~= s.take(k + 1));
        lemma_char_index_inside(s.drop_last(), k, p);
    }
}

proof fn lemma_char_index_high(s: Seq<char>, p: int)
    requires
        p > byte_len(s),
    ensures
        char_index(s, p) is None,
    decreases s.len(),
{
    if s.len() > 0 {
        lemma_char_index_high(s.drop_last(), p);
    }
}

/// Walks on from the end of `k` characters, `at` bytes into a text, to the
/// first end of a character that is not before `p`.
fn advance(chars: &[char], k: usize, at: usize, p: usize) -> (r: (usize, usize))
    requires
        k <= chars@.len(),
        at == byte_len(chars@.take(k as int)),
        at <= p <= byte_len(chars@) <= usize::MAX,
    ensures
        k <= r.0 <= chars@.len(),
        r.1 == byte_len(chars@.take(r.0 as int)),
        r.1 >= p,
        r.1 == p ==> char_index(chars@, p as int) == Some(r.0 as int),
        r.1 != p ==> char_index(chars@, p as int) is None,
        r.0 > k ==> byte_len(chars@.take(r.0 - 1)) < p,
{
    let mut i = k;
    let mut pos = at;
    proof {
        lemma_byte_len_take(chars@, k as int);
    }
    while pos < p
        invariant
            k <= i <= chars@.len(),
            pos == byte_len(chars@.take(i as int)),
            p <= byte_len(chars@) <= usize::MAX,
            i > k ==> byte_len(chars@.take(i - 1)) < p,
            i == k ==> pos <= p,
        decreases chars@.len() - i,
    {
        proof {
            if i == chars@.len() {
                assert(chars@.take(i as int) =~= chars@);
            }
            lemma_byte_len_take(chars@, i as int);
            lemma_byte_len_take(chars@, i + 1);
        }
        pos = pos + char_bytes(chars[i]);
        i = i + 1;
    }
    proof {
        if pos == p {
            lemma_char_index(chars@, i as int);
        } else {
            lemma_char_index_inside(chars@, i - 1, p as int);
        }
    }
    (i, pos)
}

/// Cuts a line into pieces of one style each.
pub fn build_highlighted_spans(
    content: &str,
    highlights: &[HighlightRange],
    inline_ranges: &[InlineRange],
    style: &LineStyle,
) -> (v: Vec<Span>)
    ensures
        span_views(v@) == highlighted(content@, highlights@, inline_ranges@, *style),
{
    let ground = if style.is_current {
        style.base.bg(style.current_line_bg).bold()
    } else {
        style.base
    };
    let mut v: Vec<Span> = Vec::new();
    if highlights.len() == 0 && inline_ranges.len() == 0 {
        v.push(Span::of(content, ground));
        assert(span_views(v@) =~= seq![span(content@, style.ground())]);
        return v;
    }
    let chars = chars_of(content);
    let len = byte_length(content);
    let points = collect_points(highlights, inline_ranges, len);
    let sorted = sort_highlights(highlights);
    let inline = sort_ranges(inline_ranges);
    proof {
        lemma_points_bounded(highlights@, inline_ranges@, len);
    }
    let mut h: usize = 0;
    let mut r: usize = 0;
    // The last character end found, and the point it was looked up for.
    let mut k: usize = 0;
    let mut pos: usize = 0;
    let mut n: usize = 0;
    assert(chars@.take(0) =~= Seq::empty());
    assert(span_views(v@) =~= segments(content@, sorted@, inline@, *style, points@, 0));
    while n < points.len() - 1
        invariant
            n < points@.len(),
            chars@ == content@,
            len == byte_len(content@),
            ground == style.ground(),
            forall|i: int, j: int| 0 <= i < j < points@.len() ==> points@[i] < points@[j],
            forall|i: int| 0 <= i < points@.len() ==> #[trigger] points@[i] <= len,
            points@[0] == 0,
            h <= sorted@.len(),
            r <= inline@.len(),
            k <= chars@.len(),
            pos == byte_len(chars@.take(k as int)),
            n == 0 ==> k == 0,
            pos > points@[n as int] ==> k > 0 && byte_len(chars@.take(k - 1)) < points@[n as int],
            pos < points@[n as int] ==> n == 0,
            n > 0 && pos == points@[n as int] ==> char_index(content@, pos as int) == Some(k as int),
            n > 0 && pos != points@[n as int] ==> char_index(content@, points@[n as int] as int) is None,
            live_highlight(sorted@, 0, points@[n as int]) == live_highlight(
                sorted@,
                h as int,
                points@[n as int],
            ),
            live_inline(inline@, 0, points@[n as int]) == live_inline(
                inline@,
                r as int,
                points@[n as int],
            ),
            span_views(v@) == segments(content@, sorted@, inline@, *style, points@, n as int),
        decreases points@.len() - n,
    {
        let a = points[n];
        let b = points[n + 1];
        while h < sorted.len() && sorted[h].end <= a
            invariant
                h <= sorted@.len(),
                live_highlight(sorted@, 0, a) == live_highlight(sorted@, h as int, a),
            decreases sorted@.len() - h,
        {
            h = h + 1;
        }
        while r < inline.len() && inline[r].end <= a
            invariant
                r <= inline@.len(),
                live_inline(inline@, 0, a) == live_inline(inline@, r as int, a),
            decreases inline@.len() - r,
        {
            r = r + 1;
        }
        let mut st = ground;
        if h < sorted.len() && sorted[h].start <= a && sorted[h].end >= b {
            st = apply_text_style(ground, sorted[h].style, style.is_current);
        }
        if let Some(bg) = style.inline_bg {
            if r < inline.len() && inline[r].start <= a && inline[r].end >= b {
                st = st.bg(bg).bold();
            }
        }
        proof {
            if n == 0 {
                lemma_char_index(content@, 0);
            }
        }
        let start_ok = pos == a;
        let first = k;
        let ghost pos0 = pos;
        let ghost k0 = k;
        if pos <= b {
            let (k2, pos2) = advance(&chars, k, pos, b);
            k = k2;
            pos = pos2;
        } else {
            proof {
                // The character that reaches beyond `a` reaches beyond `b`.
                lemma_char_index_inside(content@, k - 1, b as int);
            }
        }
        if start_ok && pos == b {
            let text = string_of(&chars, first, k);
            v.push(Span::new(text, st));
            assert(span_views(v@) =~= segments(
                content@,
                sorted@,
                inline@,
                *style,
                points@,
                n as int,
            ).push(v@.last()@));
        }
        proof {
            lemma_live_highlight_later(sorted@, 0, a, b);
            lemma_live_highlight_later(sorted@, h as int, a, b);
            lemma_live_inline_later(inline@, 0, a, b);
            lemma_live_inline_later(inline@, r as int, a, b);
        }
        n = n + 1;
    }
    v
}

/// What is open beyond a later point is looked for from what was open beyond
/// an earlier one.
proof fn lemma_live_highlight_later(sorted: Seq<HighlightRange>, i: int, a: usize, b: usize)
    requires
        a <= b,
        0 <= i,
    ensures
        live_highlight(sorted, i, b) == live_highlight(sorted, live_highlight(sorted, i, a), b),
    decreases sorted.len() - i,
{
    if i < sorted.len() && sorted[i].end <= a {
        lemma_live_highlight_later(sorted, i + 1, a, b);
    }
}

proof fn lemma_live_inline_later(sorted: Seq<InlineRange>, i: int, a: usize, b: usize)
    requires
        a <= b,
        0 <= i,
    ensures
        live_inline(sorted, i, b) == live_inline(sorted, live_inline(sorted, i, a), b),
    decreases sorted.len() - i,
{
    if i < sorted.len() && sorted[i].end <= a {
        lemma_live_inline_later(sorted, i + 1, a, b);
    }
}

proof fn lemma_highlight_points_bounded(highlights: Seq<HighlightRange>, len: usize)
    ensures
        forall|i: int|
            0 <= i < highlight_points(highlights, len).len() ==> #[trigger] highlight_points(
                highlights,
                len,
            )[i] <= len,
    decreases highlights.len(),
{
    if highlights.len() > 0 {
        lemma_highlight_points_bounded(highlights.drop_last(), len);
        let before = highlight_points(highlights.drop_last(), len);
        let now = highlight_points(highlights, len);
        assert forall|i: int| 0 <= i < now.len() implies #[trigger] now[i] <= len by {
            if i < before.len() {
                assert(now[i] == before[i]);
            }
        }
    }
}

proof fn lemma_inline_points_bounded(ranges: Seq<InlineRange>, len: usize)
    ensures
        forall|i: int|
            0 <= i < inline_points(ranges, len).len() ==> #[trigger] inline_points(ranges, len)[i]
                <= len,
    decreases ranges.len(),
{
    if ranges.len() > 0 {
        lemma_inline_points_bounded(ranges.drop_last(), len);
        let before = inline_points(ranges.drop_last(), len);
        let now = inline_points(ranges, len);
        assert forall|i: int| 0 <= i < now.len() implies #[trigger] now[i] <= len by {
            if i < before.len() {
                assert(now[i] == before[i]);
            }
        }
    }
}

/// The points ascend from the start of the text to its end.
proof fn lemma_points_bounded(
    highlights: Seq<HighlightRange>,
    ranges: Seq<InlineRange>,
    len: usize,
)
    ensures
        ({
            let p = style_points(highlights, ranges, len);
            &&& p.len() > 0
            &&& p[0] == 0
            &&& p.last() == len
            &&& forall|i: int| 0 <= i < p.len() ==> #[trigger] p[i] <= len
            &&& forall|i: int, j: int| 0 <= i < j < p.len() ==> p[i] < p[j]
        }),
{
    let given = seq![0usize, len] + highlight_points(highlights, len) + inline_points(ranges, len);
    let p = style_points(highlights, ranges, len);
    lemma_sorted_points(given);
    lemma_highlight_points_bounded(highlights, len);
    lemma_inline_points_bounded(ranges, len);
    assert(given[0] == 0 && given[1] == len);
    assert(given.contains(0) && given.contains(len));
    assert(p.contains(0) && p.contains(len));
    assert forall|i: int| 0 <= i < p.len() implies #[trigger] p[i] <= len by {
        assert(p.contains(p[i]));
        let k = choose|k: int| 0 <= k < given.len() && given[k] == p[i];
        assert(given[k] <= len);
    }
    let z = choose|z: int| 0 <= z < p.len() && p[z] == 0;
    if z > 0 {
        assert(p[0] < p[z]);
    }
    let e = choose|e: int| 0 <= e < p.len() && p[e] == len;
    if e < p.len() - 1 {
        assert(p[e] < p[p.len() - 1]);
    }
}

proof fn lemma_char_index_bounds(s: Seq<char>, p: int)
    ensures
        char_index(s, p) matches Some(k) ==> 0 <= k <= s.len() && byte_len(s.take(k)) == p,
    decreases s.len(),
{
    if byte_len(s) == p {
        assert(s.take(s.len() as int) =~= s);
    } else if s.len() > 0 {
        lemma_char_index_bounds(s.drop_last(), p);
        if let Some(k) = char_index(s, p) {
            assert(s.drop_last().take(k) =~= s.take(k));
        }
    }
}

proof fn lemma_segments_text(
    content: Seq<char>,
    sorted: Seq<HighlightRange>,
    inline: Seq<InlineRange>,
    style: LineStyle,
    points: Seq<usize>,
    n: int,
)
    requires
        0 <= n < points.len(),
        points[0] == 0,
        forall|i: int, j: int| 0 <= i < j < points.len() ==> points[i] < points[j],
        forall|i: int|
            0 <= i < points.len() ==> char_index(content, #[trigger] points[i] as int) is Some,
    ensures
        spans_text(segments(content, sorted, inline, style, points, n)) == content.take(
            char_index(content, points[n] as int)->0,
        ),
    decreases n,
{
    let k = char_index(content, points[n] as int)->0;
    lemma_char_index_bounds(content, points[n] as int);
    if n == 0 {
        lemma_char_index(content, 0);
        assert(content.take(0) =~= Seq::empty());
        assert(byte_len(content.take(0)) == 0);
        assert(k == 0);
    } else {
        lemma_segments_text(content, sorted, inline, style, points, n - 1);
        let j = char_index(content, points[n - 1] as int)->0;
        lemma_char_index_bounds(content, points[n - 1] as int);
        assert(points[n - 1] < points[n]);
        if k < j {
            lemma_byte_len_take(content.take(j), k);
            assert(content.take(j).take(k) =~= content.take(k));
        }
        let before = segments(content, sorted, inline, style, points, n - 1);
        let now = segments(content, sorted, inline, style, points, n);
        lemma_spans_text_push(before, now.last());
        assert(now == before.push(now.last()));
        assert(content.take(j) + content.subrange(j, k) =~= content.take(k));
    }
}

/// Highlighting loses no text where every range begins and ends between
/// characters or beyond the end.
pub proof fn law_highlighted_text(
    content: Seq<char>,
    highlights: Seq<HighlightRange>,
    ranges: Seq<InlineRange>,
    style: LineStyle,
)
    requires
        byte_len(content) <= usize::MAX,
        forall|i: int|
            0 <= i < style_points(highlights, ranges, byte_len(content) as usize).len()
                ==> char_index(
                content,
                #[trigger] style_points(highlights, ranges, byte_len(content) as usize)[i] as int,
            ) is Some,
    ensures
        spans_text(highlighted(content, highlights, ranges, style)) == content,
{
    if highlights.len() == 0 && ranges.len() == 0 {
        let one = seq![span(content, style.ground())];
        assert(one.drop_last() =~= Seq::empty());
        assert(spans_text(one.drop_last()) =~= Seq::<char>::empty());
        assert(spans_text(one) =~= content);
    } else {
        let len = byte_len(content) as usize;
        let points = style_points(highlights, ranges, len);
        lemma_points_bounded(highlights, ranges, len);
        lemma_segments_text(
            content,
            sorted_highlights(highlights),
            sorted_ranges(ranges),
            style,
            points,
            points.len() - 1,
        );
        lemma_char_index(content, content.len() as int);
        assert(content.take(content.len() as int) =~= content);
    }
}

// ---------------------------------------------------------------------------
// Measuring and cutting
// ---------------------------------------------------------------------------
/// The sum of two widths, as far as it can be counted.
pub open spec fn sum_capped(a: int, b: int) -> int {
    if a + b > usize::MAX {
        usize::MAX as int
    } else {
        a + b
    }
}

/// The sum of two numbers, or the greatest number there is.
pub fn capped_sum(a: usize, b: usize) -> (r: usize)
    ensures
        r == sum_capped(a as int, b as int),
{
    if a > usize::MAX - b {
        usize::MAX
    } else {
        a + b
    }
}

/// The columns that spans take.
pub open spec fn spans_columns(spans: Seq<SpanV>) -> int
    decreases spans.len(),
{
    if spans.len() == 0 {
        0
    } else {
        sum_capped(spans_columns(spans.drop_last()), text_columns(spans.last().text) as int)
    }
}

/// The columns that a span takes.
pub fn span_width(s: &Span) -> (r: usize)
    ensures
        r == text_columns(s@.text),
{
    text_width(s.text.as_str())
}

/// The columns that spans take.
pub fn spans_width(spans: &[Span]) -> (r: usize)
    ensures
        r == spans_columns(span_views(spans@)),
{
    let ghost sv = span_views(spans@);
    let mut r: usize = 0;
    let mut i: usize = 0;
    assert(sv.take(0) =~= Seq::empty());
    while i < spans.len()
        invariant
            i <= spans@.len(),
            sv == span_views(spans@),
            r == spans_columns(sv.take(i as int)),
        decreases spans@.len() - i,
    {
        proof {
            assert(sv.take(i + 1).drop_last() =~= sv.take(i as int));
        }
        r = capped_sum(r, span_width(&spans[i]));
        i = i + 1;
    }
    assert(sv.take(i as int) =~= sv);
    r
}

/// The columns of a character; none for a control character.
pub open spec fn columns(c: char) -> int {
    match char_columns(c) {
        Some(w) => w as int,
        None => 0,
    }
}

fn columns_of(c: char) -> (r: usize)
    ensures
        r == columns(c),
{
    match char_width(c) {
        Some(w) => w,
        None => 0,
    }
}

/// Where the characters from `i` on no longer fit into `room` columns.
pub open spec fn fit(s: Seq<char>, i: int, room: int) -> int
    decreases s.len() - i,
{
    if 0 <= i < s.len() && columns(s[i]) <= room {
        fit(s, i + 1, room - columns(s[i]))
    } else {
        i
    }
}

/// How many characters at the start of a text fit into a width.
pub open spec fn fitting(s: Seq<char>, width: int) -> int {
    if width == 0 {
        0
    } else {
        fit(s, 0, width)
    }
}

/// What fits stays within the text, and a character that has room fits.
pub proof fn lemma_fit(s: Seq<char>, i: int, room: int)
    requires
        0 <= i <= s.len(),
    ensures
        i <= fit(s, i, room) <= s.len(),
        i < s.len() && columns(s[i]) <= room ==> i < fit(s, i, room),
    decreases s.len() - i,
{
    if i < s.len() && columns(s[i]) <= room {
        lemma_fit(s, i + 1, room - columns(s[i]));
    }
}

/// Splits a text into what fits into a width, and the rest.
pub fn split_by_width(s: &str, max_width: usize) -> (r: (String, String))
    ensures
        0 <= fitting(s@, max_width as int) <= s@.len(),
        r.0@ == s@.take(fitting(s@, max_width as int)),
        r.1@ == s@.skip(fitting(s@, max_width as int)),
{
    proof {
        lemma_fit(s@, 0, max_width as int);
    }
    if max_width == 0 {
        let head = String::new();
        let tail = s.to_owned();
        assert(head@ =~= s@.take(0));
        assert(tail@ =~= s@.skip(0));
        return (head, tail);
    }
    let chars = chars_of(s);
    let n = chars.len();
    let mut room: usize = max_width;
    let mut i: usize = 0;
    while i < n
        invariant_except_break
            fit(s@, 0, max_width as int) == fit(s@, i as int, room as int),
        invariant
            i <= n,
            n == chars@.len(),
            chars@ == s@,
        ensures
            fit(s@, 0, max_width as int) == i,
        decreases n - i,
    {
        let w = columns_of(chars[i]);
        if w > room {
            break ;
        }
        room = room - w;
        i = i + 1;
    }
    let head = string_of(&chars, 0, i);
    let tail = string_of(&chars, i, n);
    assert(head@ =~= s@.take(i as int));
    assert(tail@ =~= s@.skip(i as int));
    (head, tail)
}

/// The first spans that fit into a width, the last of them cut where it has to
/// be. `i` spans have been placed.
pub open spec fn truncated(spans: Seq<SpanV>, i: int, room: int) -> Seq<SpanV>
    decreases spans.len() - i,
{
    if !(0 <= i < spans.len()) || room == 0 {
        Seq::empty()
    } else {
        let s = spans[i];
        let w = text_columns(s.text) as int;
        if w <= room {
            seq![s] + truncated(spans, i + 1, room - w)
        } else if fitting(s.text, room) > 0 {
            seq![span(s.text.take(fitting(s.text, room)), s.style)]
        } else {
            Seq::empty()
        }
    }
}

/// Cuts spans to a width.
pub fn truncate_spans(spans: &[Span], max_width: usize) -> (v: Vec<Span>)
    ensures
        span_views(v@) == truncated(span_views(spans@), 0, max_width as int),
{
    let ghost sv = span_views(spans@);
    let mut v: Vec<Span> = Vec::new();
    let mut room: usize = max_width;
    let mut i: usize = 0;
    assert(span_views(v@) + truncated(sv, 0, room as int) =~= truncated(sv, 0, max_width as int));
    while i < spans.len() && room > 0
        invariant
            i <= spans@.len(),
            sv == span_views(spans@),
            span_views(v@) + truncated(sv, i as int, room as int) == truncated(
                sv,
                0,
                max_width as int,
            ),
        decreases spans@.len() - i,
    {
        let ghost before = span_views(v@);
        let w = span_width(&spans[i]);
        if w <= room {
            v.push(spans[i].clone());
            room = room - w;
            i = i + 1;
            proof {
                assert(span_views(v@) =~= before.push(sv[i - 1]));
                assert(span_views(v@) + truncated(sv, i as int, room as int) =~= before + (
                seq![sv[i - 1]] + truncated(sv, i as int, room as int)));
            }
        } else {
            let (head, tail) = split_by_width(spans[i].text.as_str(), room);
            if !head.as_str().is_empty() {
                v.push(Span::new(head, spans[i].style));
                assert(span_views(v@) =~= before.push(v@.last()@));
            }
            assert(span_views(v@) =~= truncated(sv, 0, max_width as int));
            return v;
        }
    }
    assert(span_views(v@) =~= truncated(sv, 0, max_width as int));
    v
}

// ---------------------------------------------------------------------------
// Wrapping
// ---------------------------------------------------------------------------
/// Rows of spans that are being filled, and the room left on the last row.
#[verifier::ext_equal]
pub struct WrapV {
    pub rows: Seq<Seq<SpanV>>,
    pub room: int,
}

/// Rows with a span added to the last of them.
pub open spec fn add_to_last(rows: Seq<Seq<SpanV>>, s: SpanV) -> Seq<Seq<SpanV>> {
    rows.drop_last().push(rows.last().push(s))
}

/// The room that is left of some when a text is placed.
pub open spec fn room_after(room: int, text: Seq<char>) -> int {
    if text_columns(text) >= room {
        0
    } else {
        room - text_columns(text)
    }
}

/// Fills rows of a width with a text: as much as fits goes on the last row, the
/// rest on rows below.
pub open spec fn wrap_text(w: WrapV, text: Seq<char>, style: Style, width: int) -> WrapV
    decreases text.len(), (if w.room < width { 1int } else { 0int }),
    via wrap_text_decreases
{
    let k = fitting(text, w.room);
    if text.len() == 0 || width <= 0 {
        w
    } else if w.room == 0 {
        wrap_text(WrapV { rows: w.rows.push(Seq::empty()), room: width }, text, style, width)
    } else {
        let head = text.take(k);
        let placed = if k > 0 {
            WrapV {
                rows: add_to_last(w.rows, span(head, style)),
                room: room_after(w.room, head),
            }
        } else {
            w
        };
        if k >= text.len() {
            placed
        } else if k > 0 || w.room < width {
            wrap_text(
                WrapV { rows: placed.rows.push(Seq::empty()), room: width },
                text.skip(k),
                style,
                width,
            )
        } else {
            placed
        }
    }
}

#[via_fn]
proof fn wrap_text_decreases(w: WrapV, text: Seq<char>, style: Style, width: int) {
    lemma_fit(text, 0, w.room);
}

/// Fills rows of a width with the first `n` spans.
pub open spec fn wrap_first(spans: Seq<SpanV>, n: int, width: int) -> WrapV
    decreases n,
{
    if n <= 0 {
        WrapV { rows: seq![Seq::<SpanV>::empty()], room: width }
    } else {
        wrap_text(wrap_first(spans, n - 1, width), spans[n - 1].text, spans[n - 1].style, width)
    }
}

/// Spans wrapped to a width.
pub open spec fn wrapped(spans: Seq<SpanV>, width: int) -> Seq<Seq<SpanV>> {
    if width == 0 {
        seq![Seq::<SpanV>::empty()]
    } else {
        wrap_first(spans, spans.len() as int, width).rows
    }
}

/// Whether every character of a text has room in a width.
pub open spec fn text_fits(text: Seq<char>, width: int) -> bool {
    forall|i: int| 0 <= i < text.len() ==> columns(#[trigger] text[i]) <= width
}

/// Whether every character of spans has room in a width.
pub open spec fn all_fit(spans: Seq<SpanV>, width: int) -> bool {
    forall|i: int| 0 <= i < spans.len() ==> text_fits((#[trigger] spans[i]).text, width)
}

/// The text of rows in order.
pub open spec fn rows_text(rows: Seq<Seq<SpanV>>) -> Seq<char>
    decreases rows.len(),
{
    if rows.len() == 0 {
        Seq::empty()
    } else {
        rows_text(rows.drop_last()) + spans_text(rows.last())
    }
}

proof fn lemma_rows_text_add(rows: Seq<Seq<SpanV>>, s: SpanV)
    requires
        rows.len() > 0,
    ensures
        rows_text(add_to_last(rows, s)) == rows_text(rows) + s.text,
        rows_text(rows.push(Seq::empty())) == rows_text(rows),
{
    let now = add_to_last(rows, s);
    assert(now.drop_last() =~= rows.drop_last());
    lemma_spans_text_push(rows.last(), s);
    assert(rows_text(now) =~= rows_text(rows) + s.text);
    assert(rows.push(Seq::<SpanV>::empty()).drop_last() =~= rows);
    assert(rows_text(rows.push(Seq::empty())) =~= rows_text(rows));
}

proof fn lemma_wrap_text(w: WrapV, text: Seq<char>, style: Style, width: int)
    requires
        w.rows.len() > 0,
        0 <= w.room <= width,
        width > 0,
        text_fits(text, width),
    ensures
        ({
            let r = wrap_text(w, text, style, width);
            &&& r.rows.len() >= w.rows.len()
            &&& 0 <= r.room <= width
            &&& rows_text(r.rows) == rows_text(w.rows) + text
        }),
    decreases text.len(), (if w.room < width { 1int } else { 0int }),
{
    lemma_fit(text, 0, w.room);
    let k = fitting(text, w.room);
    if text.len() == 0 {
        assert(rows_text(w.rows) + text =~= rows_text(w.rows));
    } else if w.room == 0 {
        let next = WrapV { rows: w.rows.push(Seq::empty()), room: width };
        lemma_rows_text_add(w.rows, span(text, style));
        lemma_wrap_text(next, text, style, width);
    } else {
        let head = text.take(k);
        lemma_rows_text_add(w.rows, span(head, style));
        assert(columns(text[0]) <= width);
        let placed = if k > 0 {
            WrapV {
                rows: add_to_last(w.rows, span(head, style)),
                room: room_after(w.room, head),
            }
        } else {
            w
        };
        if k >= text.len() {
            assert(head =~= text);
        } else {
            let next = WrapV { rows: placed.rows.push(Seq::empty()), room: width };
            lemma_rows_text_add(placed.rows, span(head, style));
            assert(text_fits(text.skip(k), width));
            lemma_wrap_text(next, text.skip(k), style, width);
            assert(head + text.skip(k) =~= text);
            if k == 0 {
                assert(head =~= Seq::<char>::empty());
            }
            assert(rows_text(w.rows) + head + text.skip(k) =~= rows_text(w.rows) + text);
        }
    }
}

proof fn lemma_wrap_first(spans: Seq<SpanV>, n: int, width: int)
    requires
        0 <= n <= spans.len(),
        width > 0,
        all_fit(spans, width),
    ensures
        wrap_first(spans, n, width).rows.len() > 0,
        0 <= wrap_first(spans, n, width).room <= width,
        rows_text(wrap_first(spans, n, width).rows) == spans_text(spans.take(n)),
    decreases n,
{
    if n > 0 {
        lemma_wrap_first(spans, n - 1, width);
        assert(text_fits(spans[n - 1].text, width));
        lemma_wrap_text(
            wrap_first(spans, n - 1, width),
            spans[n - 1].text,
            spans[n - 1].style,
            width,
        );
        assert(spans.take(n).drop_last() =~= spans.take(n - 1));
    } else {
        let one = seq![Seq::<SpanV>::empty()];
        assert(one.drop_last() =~= Seq::<Seq<SpanV>>::empty());
        assert(rows_text(one.drop_last()) =~= Seq::<char>::empty());
        assert(rows_text(one) =~= Seq::<char>::empty());
        assert(spans.take(0) =~= Seq::empty());
    }
}

/// Wrapping loses no text, and there is always a row.
pub proof fn law_wrapped_text(spans: Seq<SpanV>, width: int)
    requires
        width > 0,
        all_fit(spans, width),
    ensures
        wrapped(spans, width).len() > 0,
        rows_text(wrapped(spans, width)) == spans_text(spans),
{
    lemma_wrap_first(spans, spans.len() as int, width);
    assert(spans.take(spans.len() as int) =~= spans);
}

/// Whether every character of spans has room in a width.
pub fn spans_fit(spans: &[Span], width: usize) -> (r: bool)
    ensures
        r == all_fit(span_views(spans@), width as int),
{
    let mut i: usize = 0;
    while i < spans.len()
        invariant
            i <= spans@.len(),
            forall|k: int|
                0 <= k < i ==> text_fits((#[trigger] span_views(spans@)[k]).text, width as int),
        decreases spans@.len() - i,
    {
        let chars = chars_of(spans[i].text.as_str());
        let mut j: usize = 0;
        while j < chars.len()
            invariant
                j <= chars@.len(),
                i < spans@.len(),
                chars@ == spans@[i as int].text@,
                forall|k: int| 0 <= k < j ==> columns(#[trigger] chars@[k]) <= width,
            decreases chars@.len() - j,
        {
            if columns_of(chars[j]) > width {
                proof {
                    let bad = span_views(spans@)[i as int];
                    assert(columns(bad.text[j as int]) > width);
                    assert(!text_fits(bad.text, width as int));
                }
                return false;
            }
            j = j + 1;
        }
        i = i + 1;
    }
    true
}

/// Fills rows with one text.
fn wrap_into(rows: &mut Vec<Vec<Span>>, room: usize, text: &str, style: Style, width: usize) -> (r:
    usize)
    requires
        old(rows)@.len() > 0,
        room <= width,
        width > 0,
        text_fits(text@, width as int),
    ensures
        row_views(final(rows)@) == wrap_text(
            WrapV { rows: row_views(old(rows)@), room: room as int },
            text@,
            style,
            width as int,
        ).rows,
        r == wrap_text(
            WrapV { rows: row_views(old(rows)@), room: room as int },
            text@,
            style,
            width as int,
        ).room,
        final(rows)@.len() > 0,
        r <= width,
{
    let ghost goal = wrap_text(
        WrapV { rows: row_views(rows@), room: room as int },
        text@,
        style,
        width as int,
    );
    let mut left = text.to_owned();
    let mut room = room;
    while !left.as_str().is_empty()
        invariant
            rows@.len() > 0,
            room <= width,
            width > 0,
            text_fits(left@, width as int),
            goal == wrap_text(
                WrapV { rows: row_views(rows@), room: room as int },
                left@,
                style,
                width as int,
            ),
        decreases left@.len(), (if room < width { 1int } else { 0int }),
    {
        let ghost before = row_views(rows@);
        if room == 0 {
            rows.push(Vec::new());
            room = width;
            assert(row_views(rows@) =~= before.push(Seq::empty())) by {
                assert(span_views(rows@.last()@) =~= Seq::empty());
            }
        } else {
            proof {
                lemma_fit(left@, 0, room as int);
                assert(columns(left@[0]) <= width);
            }
            let (head, tail) = split_by_width(left.as_str(), room);
            let ghost k = fitting(left@, room as int);
            if !head.as_str().is_empty() {
                let w = text_width(head.as_str());
                room = if w >= room {
                    0
                } else {
                    room - w
                };
                let ghost head_v = head@;
                let mut row: Vec<Span> = match rows.pop() {
                    Some(row) => row,
                    None => Vec::new(),
                };
                let ghost row_v = span_views(row@);
                row.push(Span::new(head, style));
                assert(span_views(row@) =~= row_v.push(span(head_v, style)));
                rows.push(row);
                assert(row_views(rows@) =~= add_to_last(before, span(head_v, style)));
            }
            let more = !tail.as_str().is_empty();
            assert(tail@.len() == left@.len() - k);
            left = tail;
            if more {
                let ghost placed = row_views(rows@);
                rows.push(Vec::new());
                room = width;
                assert(row_views(rows@) =~= placed.push(Seq::empty())) by {
                    assert(span_views(rows@.last()@) =~= Seq::empty());
                }
            }
        }
    }
    room
}

/// Wraps spans to a width.
pub fn wrap_spans(spans: &[Span], max_width: usize) -> (v: Vec<Vec<Span>>)
    requires
        all_fit(span_views(spans@), max_width as int),
    ensures
        row_views(v@) == wrapped(span_views(spans@), max_width as int),
        v@.len() > 0,
{
    let ghost sv = span_views(spans@);
    let mut rows: Vec<Vec<Span>> = Vec::new();
    rows.push(Vec::new());
    assert(row_views(rows@) =~= seq![Seq::<SpanV>::empty()]) by {
        assert(span_views(rows@[0]@) =~= Seq::empty());
    }
    if max_width == 0 {
        return rows;
    }
    let mut room = max_width;
    let mut i: usize = 0;
    while i < spans.len()
        invariant
            i <= spans@.len(),
            max_width > 0,
            sv == span_views(spans@),
            all_fit(sv, max_width as int),
            rows@.len() > 0,
            room <= max_width,
            row_views(rows@) == wrap_first(sv, i as int, max_width as int).rows,
            room == wrap_first(sv, i as int, max_width as int).room,
        decreases spans@.len() - i,
    {
        assert(text_fits(sv[i as int].text, max_width as int));
        room = wrap_into(&mut rows, room, spans[i].text.as_str(), spans[i].style, max_width);
        i = i + 1;
    }
    rows
}

/// Wraps spans to a width, if every character has room in it.
pub fn try_wrap_spans(spans: &[Span], max_width: usize) -> (r: Option<Vec<Vec<Span>>>)
    ensures
        r is Some <==> all_fit(span_views(spans@), max_width as int),
        r matches Some(v) ==> row_views(v@) == wrapped(span_views(spans@), max_width as int)
            && v@.len() > 0,
{
    if spans_fit(spans, max_width) {
        Some(wrap_spans(spans, max_width))
    } else {
        None
    }
}

/// The columns that are left beside a prefix, at least one.
pub open spec fn room_beside(prefix: Seq<SpanV>, width: int) -> int {
    if width - spans_columns(prefix) > 1 {
        width - spans_columns(prefix)
    } else {
        1
    }
}

/// Spans wrapped beside a prefix: the first row starts with the prefix, each
/// row below with blanks of the same width.
pub open spec fn wrapped_beside(
    prefix: Seq<SpanV>,
    content: Seq<SpanV>,
    width: int,
    indent_style: Style,
) -> Seq<Seq<SpanV>> {
    let rows = wrapped(content, room_beside(prefix, width));
    Seq::new(
        rows.len(),
        |i: int|
            if i == 0 {
                prefix + rows[0]
            } else {
                seq![span(repeated(' ', spans_columns(prefix)), indent_style)] + rows[i]
            },
    )
}

/// Adds copies of spans to a row.
pub fn extend_spans(row: &mut Vec<Span>, more: &[Span])
    ensures
        span_views(final(row)@) == span_views(old(row)@) + span_views(more@),
{
    let ghost start = span_views(row@);
    let ghost mv = span_views(more@);
    let mut i: usize = 0;
    assert(start + mv.take(0) =~= start);
    while i < more.len()
        invariant
            i <= more@.len(),
            mv == span_views(more@),
            span_views(row@) == start + mv.take(i as int),
        decreases more@.len() - i,
    {
        let ghost before = span_views(row@);
        row.push(more[i].clone());
        i = i + 1;
        proof {
            assert(span_views(row@) =~= before.push(mv[i - 1]));
            assert(span_views(row@) =~= start + mv.take(i as int));
        }
    }
    assert(mv.take(i as int) =~= mv);
}

/// Wraps spans beside a prefix, if every character has room there.
pub fn wrap_spans_with_prefix(
    prefix: &[Span],
    content: &[Span],
    max_width: usize,
    continuation_style: Style,
) -> (r: Option<Vec<Vec<Span>>>)
    ensures
        r is Some <==> all_fit(
            span_views(content@),
            room_beside(span_views(prefix@), max_width as int),
        ),
        r matches Some(v) ==> row_views(v@) == wrapped_beside(
            span_views(prefix@),
            span_views(content@),
            max_width as int,
            continuation_style,
        ) && v@.len() > 0,
{
    let prefix_width = spans_width(prefix);
    let width: usize = if max_width > prefix_width && max_width - prefix_width > 1 {
        max_width - prefix_width
    } else {
        1
    };
    let rows = match try_wrap_spans(content, width) {
        Some(rows) => rows,
        None => {
            return None;
        },
    };
    let ghost rv = row_views(rows@);
    let ghost goal = wrapped_beside(
        span_views(prefix@),
        span_views(content@),
        max_width as int,
        continuation_style,
    );
    let mut v: Vec<Vec<Span>> = Vec::new();
    let mut i: usize = 0;
    while i < rows.len()
        invariant
            i <= rows@.len(),
            rv == row_views(rows@),
            rv == wrapped(span_views(content@), width as int),
            width == room_beside(span_views(prefix@), max_width as int),
            prefix_width == spans_columns(span_views(prefix@)),
            goal == wrapped_beside(
                span_views(prefix@),
                span_views(content@),
                max_width as int,
                continuation_style,
            ),
            v@.len() == i,
            forall|k: int| 0 <= k < i ==> span_views(#[trigger] v@[k]@) == goal[k],
        decreases rows@.len() - i,
    {
        let mut all: Vec<Span> = Vec::new();
        assert(span_views(all@) =~= Seq::empty());
        if i == 0 {
            extend_spans(&mut all, prefix);
        } else {
            all.push(Span::new(repeat_char(' ', prefix_width), continuation_style));
        }
        let ghost head = span_views(all@);
        extend_spans(&mut all, &rows[i]);
        assert(span_views(all@) =~= goal[i as int]);
        v.push(all);
        i = i + 1;
    }
    assert(row_views(v@) =~= goal);
    Some(v)
}

/// A box of a width around spans.
pub open spec fn boxed(prefix: Seq<SpanV>, content: Seq<SpanV>, width: int, style: Style) -> Seq<
    Seq<SpanV>,
> {
    if width < 4 {
        seq![prefix + content]
    } else {
        let inner = prefix + (if prefix.len() > 0 {
            seq![span(" "@, style)]
        } else {
            Seq::empty()
        }) + content;
        let line = seq![span("│ "@, style)] + truncated(inner, 0, width - 4);
        let padded = if spans_columns(line) < width - 1 {
            line.push(span(repeated(' ', width - 1 - spans_columns(line)), style))
        } else {
            line
        };
        seq![
            seq![span("┌"@ + repeated('─', width - 2) + "┐"@, style)],
            padded.push(span("│"@, style)),
            seq![span("└"@ + repeated('─', width - 2) + "┘"@, style)],
        ]
    }
}

fn one_span(text: String, style: Style) -> (v: Vec<Span>)
    ensures
        span_views(v@) == seq![span(text@, style)],
{
    let mut v: Vec<Span> = Vec::new();
    v.push(Span::new(text, style));
    assert(span_views(v@) =~= seq![span(v@[0].text@, style)]);
    v
}

/// Draws a box around spans.
pub fn build_context_box(prefix: &[Span], content: &[Span], width: usize, style: Style) -> (v: Vec<
    Vec<Span>,
>)
    ensures
        row_views(v@) == boxed(span_views(prefix@), span_views(content@), width as int, style),
{
    let ghost pv = span_views(prefix@);
    let ghost cv = span_views(content@);
    let mut inner: Vec<Span> = Vec::new();
    assert(span_views(inner@) =~= Seq::empty());
    extend_spans(&mut inner, prefix);
    assert(span_views(inner@) =~= pv);
    let mut v: Vec<Vec<Span>> = Vec::new();
    if width < 4 {
        extend_spans(&mut inner, content);
        v.push(inner);
        assert(row_views(v@) =~= seq![pv + cv]);
        return v;
    }
    let mut top = "┌".to_owned();
    top.push_str(repeat_char('─', width - 2).as_str());
    top.push_str("┐");
    let mut bottom = "└".to_owned();
    bottom.push_str(repeat_char('─', width - 2).as_str());
    bottom.push_str("┘");
    let ghost before = span_views(inner@);
    if inner.len() > 0 {
        inner.push(Span::of(" ", style));
        assert(span_views(inner@) =~= before + seq![span(" "@, style)]);
    } else {
        assert(span_views(inner@) =~= before + Seq::empty());
    }
    extend_spans(&mut inner, content);
    let cut = truncate_spans(&inner, width - 4);
    let mut line = one_span("│ ".to_owned(), style);
    extend_spans(&mut line, &cut);
    let used = spans_width(&line);
    let target = width - 1;
    let ghost lv = span_views(line@);
    if used < target {
        line.push(Span::new(repeat_char(' ', target - used), style));
        assert(span_views(line@) =~= lv.push(
            span(repeated(' ', width - 1 - spans_columns(lv)), style),
        ));
    }
    let ghost padded = span_views(line@);
    line.push(Span::of("│", style));
    assert(span_views(line@) =~= padded.push(span("│"@, style)));
    v.push(one_span(top, style));
    v.push(line);
    v.push(one_span(bottom, style));
    assert(row_views(v@) =~= boxed(pv, cv, width as int, style));
    v
}

/// The rows that a line of some columns takes, at least one.
pub open spec fn rows_for(columns: int, width: int) -> int {
    if columns == 0 {
        1
    } else if columns % width > 0 {
        columns / width + 1
    } else {
        columns / width
    }
}

/// The rows that lines take, each wrapped to a width.
pub open spec fn rows_of_lines(lines: Seq<Seq<char>>, width: int) -> int
    decreases lines.len(),
{
    if lines.len() == 0 {
        0
    } else {
        sum_capped(
            rows_of_lines(lines.drop_last(), width),
            rows_for(text_columns(lines.last()) as int, width),
        )
    }
}

/// The rows that a text takes, wrapped to a width.
pub open spec fn text_rows(text: Seq<char>, width: int) -> int {
    if width == 0 {
        1
    } else {
        rows_of_lines(split_lines_of(text), width)
    }
}

/// Any number of columns takes at least a row.
pub proof fn lemma_rows_for(columns: int, width: int)
    requires
        0 <= columns,
        width > 0,
    ensures
        1 <= rows_for(columns, width) <= columns + 1,
{
    assert(columns > 0 && columns % width == 0 ==> columns / width >= 1) by (nonlinear_arith)
        requires
            0 <= columns,
            width > 0,
    ;
    assert(0 <= columns / width <= columns) by (nonlinear_arith)
        requires
            0 <= columns,
            width > 0,
    ;
    assert(columns > 0 && columns % width > 0 ==> columns / width < columns || columns / width + 1
        <= columns + 1);
}

proof fn lemma_rows_of_lines(lines: Seq<Seq<char>>, width: int)
    requires
        width > 0,
    ensures
        0 <= rows_of_lines(lines, width) <= usize::MAX,
        lines.len() > 0 ==> rows_of_lines(lines, width) >= 1,
    decreases lines.len(),
{
    if lines.len() > 0 {
        lemma_rows_of_lines(lines.drop_last(), width);
        lemma_rows_for(text_columns(lines.last()) as int, width);
    }
}

/// A text takes at least one row.
pub proof fn law_text_rows_positive(text: Seq<char>, width: int)
    requires
        width >= 0,
    ensures
        1 <= text_rows(text, width) <= usize::MAX,
{
    if width > 0 {
        lemma_split_lines_nonempty(text);
        lemma_rows_of_lines(split_lines_of(text), width);
    }
}

/// The rows that a line of some columns takes.
pub fn row_count(columns: usize, width: usize) -> (r: usize)
    requires
        width > 0,
    ensures
        r == rows_for(columns as int, width as int),
        r >= 1,
{
    proof {
        lemma_rows_for(columns as int, width as int);
    }
    if columns == 0 {
        1
    } else if columns % width > 0 {
        proof {
            assert(width > 1 ==> columns / width < columns) by (nonlinear_arith)
                requires
                    columns > 0,
                    width > 0,
            ;
            assert(width == 1 ==> columns % width == 0) by (nonlinear_arith)
                requires
                    width > 0,
                    columns >= 0,
            ;
        }
        columns / width + 1
    } else {
        columns / width
    }
}

/// The rows that a text takes, wrapped to a width.
pub fn wrapped_line_count(text: &str, max_width: usize) -> (r: usize)
    ensures
        r == text_rows(text@, max_width as int),
        r >= 1,
{
    proof {
        law_text_rows_positive(text@, max_width as int);
    }
    if max_width == 0 {
        return 1;
    }
    let lines = split_lines(text);
    let ghost lv = texts(lines@);
    let mut count: usize = 0;
    let mut i: usize = 0;
    assert(lv.take(0) =~= Seq::empty());
    while i < lines.len()
        invariant
            i <= lines@.len(),
            max_width > 0,
            lv == texts(lines@),
            count == rows_of_lines(lv.take(i as int), max_width as int),
        decreases lines@.len() - i,
    {
        proof {
            assert(lv.take(i + 1).drop_last() =~= lv.take(i as int));
            assert(lv.take(i + 1).last() == lines@[i as int]@);
        }
        let rows = row_count(text_width(lines[i].as_str()), max_width);
        count = capped_sum(count, rows);
        i = i + 1;
    }
    assert(lv.take(i as int) =~= lv);
    count
}

/// A row without the first `n` of its spans.
pub open spec fn behind(row: Seq<SpanV>, n: int) -> Seq<SpanV> {
    if n <= row.len() {
        row.skip(n)
    } else {
        Seq::empty()
    }
}

/// The text of rows without what stands in front of it: so many spans on the first
/// row, and one on each row below.
pub open spec fn unprefixed(rows: Seq<Seq<SpanV>>, first: int) -> Seq<char> {
    rows_text(
        Seq::new(
            rows.len(),
            |i: int|
                behind(
                    rows[i],
                    if i == 0 {
                        first
                    } else {
                        1
                    },
                ),
        ),
    )
}

/// Whether the ranges of a text begin and end between characters or beyond the end.
pub open spec fn cuts_between(
    content: Seq<char>,
    highlights: Seq<HighlightRange>,
    ranges: Seq<InlineRange>,
) -> bool {
    &&& byte_len(content) <= usize::MAX
    &&& forall|i: int|
        0 <= i < style_points(highlights, ranges, byte_len(content) as usize).len() ==> char_index(
            content,
            #[trigger] style_points(highlights, ranges, byte_len(content) as usize)[i] as int,
        ) is Some
}

/// Wrapping beside a prefix loses no text and adds none: the first row starts with
/// the prefix, the rows below with blanks, and what stands behind is the text.
pub proof fn law_wrapped_beside_text(
    prefix: Seq<SpanV>,
    content: Seq<SpanV>,
    width: int,
    style: Style,
)
    requires
        all_fit(content, room_beside(prefix, width)),
    ensures
        ({
            let rows = wrapped_beside(prefix, content, width, style);
            &&& rows.len() > 0
            &&& rows[0].take(prefix.len() as int) == prefix
            &&& forall|i: int|
                0 < i < rows.len() ==> (#[trigger] rows[i]).len() > 0 && forall|j: int|
                    0 <= j < rows[i][0].text.len() ==> rows[i][0].text[j] == ' '
            &&& unprefixed(rows, prefix.len() as int) == spans_text(content)
        }),
{
    let room = room_beside(prefix, width);
    law_wrapped_text(content, room);
    let inner = wrapped(content, room);
    let rows = wrapped_beside(prefix, content, width, style);
    assert(rows[0].take(prefix.len() as int) =~= prefix);
    let bare = Seq::new(
        rows.len(),
        |i: int|
            behind(
                rows[i],
                if i == 0 {
                    prefix.len() as int
                } else {
                    1
                },
            ),
    );
    assert forall|i: int| 0 <= i < rows.len() implies bare[i] == inner[i] by {
        assert(bare[i] =~= inner[i]);
    }
    assert(bare =~= inner);
}

/// The fewest rows of a width that hold some columns: one row less would not do.
pub proof fn law_fewest_rows(columns: int, width: int)
    requires
        0 <= columns,
        width > 0,
    ensures
        columns <= rows_for(columns, width) * width,
        rows_for(columns, width) > 1 ==> (rows_for(columns, width) - 1) * width < columns,
{
    let r = rows_for(columns, width);
    let q = columns / width;
    let m = columns % width;
    assert(columns == q * width + m && 0 <= m < width) by (nonlinear_arith)
        requires
            width > 0,
            q == columns / width,
            m == columns % width,
    ;
    assert((q + 1) * width == q * width + width) by (nonlinear_arith);
    assert((q - 1) * width == q * width - width) by (nonlinear_arith);
}

/// Whether ranges are not empty and follow each other without overlap.
pub open spec fn ranges_in_order(ranges: Seq<InlineRange>) -> bool {
    &&& forall|i: int| 0 <= i < ranges.len() ==> (#[trigger] ranges[i]).start < ranges[i].end
    &&& forall|i: int, j: int|
        0 <= i < j < ranges.len() ==> (#[trigger] ranges[i]).end <= (#[trigger] ranges[j]).start
}

/// Whether highlights are not empty and follow each other without overlap.
pub open spec fn highlights_in_order(list: Seq<HighlightRange>) -> bool {
    &&& forall|i: int| 0 <= i < list.len() ==> (#[trigger] list[i]).start < list[i].end
    &&& forall|i: int, j: int|
        0 <= i < j < list.len() ==> (#[trigger] list[i]).end <= (#[trigger] list[j]).start
}

proof fn lemma_sorted_ranges_stay(ranges: Seq<InlineRange>)
    requires
        ranges_in_order(ranges),
    ensures
        sorted_ranges(ranges) == ranges,
    decreases ranges.len(),
{
    if ranges.len() > 0 {
        let front = ranges.drop_last();
        assert(ranges_in_order(front)) by {
            assert forall|i: int| 0 <= i < front.len() implies (#[trigger] front[i]).start
                < front[i].end by {
                assert(front[i] == ranges[i]);
            }
            assert forall|i: int, j: int| 0 <= i < j < front.len() implies (
            #[trigger] front[i]).end <= (#[trigger] front[j]).start by {
                assert(front[i] == ranges[i] && front[j] == ranges[j]);
            }
        }
        lemma_sorted_ranges_stay(front);
        if front.len() > 0 {
            assert(front.last() == ranges[ranges.len() - 2]);
            assert(ranges[ranges.len() - 2].end <= ranges[ranges.len() - 1].start);
            assert(ranges[ranges.len() - 2].start < ranges[ranges.len() - 2].end);
        }
        assert(front.push(ranges.last()) =~= ranges);
    } else {
        assert(sorted_ranges(ranges) =~= ranges);
    }
}

proof fn lemma_sorted_highlights_stay(list: Seq<HighlightRange>)
    requires
        highlights_in_order(list),
    ensures
        sorted_highlights(list) == list,
    decreases list.len(),
{
    if list.len() > 0 {
        let front = list.drop_last();
        assert(highlights_in_order(front)) by {
            assert forall|i: int| 0 <= i < front.len() implies (#[trigger] front[i]).start
                < front[i].end by {
                assert(front[i] == list[i]);
            }
            assert forall|i: int, j: int| 0 <= i < j < front.len() implies (
            #[trigger] front[i]).end <= (#[trigger] front[j]).start by {
                assert(front[i] == list[i] && front[j] == list[j]);
            }
        }
        lemma_sorted_highlights_stay(front);
        if front.len() > 0 {
            assert(front.last() == list[list.len() - 2]);
            assert(list[list.len() - 2].end <= list[list.len() - 1].start);
            assert(list[list.len() - 2].start < list[list.len() - 2].end);
        }
        assert(front.push(list.last()) =~= list);
    } else {
        assert(sorted_highlights(list) =~= list);
    }
}

proof fn lemma_live_inline_is(ranges: Seq<InlineRange>, i: int, p: usize)
    requires
        0 <= i <= ranges.len(),
    ensures
        i <= live_inline(ranges, i, p) <= ranges.len(),
        live_inline(ranges, i, p) < ranges.len() ==> ranges[live_inline(ranges, i, p)].end > p,
        forall|k: int| i <= k < live_inline(ranges, i, p) ==> (#[trigger] ranges[k]).end <= p,
    decreases ranges.len() - i,
{
    if i < ranges.len() && ranges[i].end <= p {
        lemma_live_inline_is(ranges, i + 1, p);
    }
}

proof fn lemma_live_highlight_is(list: Seq<HighlightRange>, i: int, p: usize)
    requires
        0 <= i <= list.len(),
    ensures
        i <= live_highlight(list, i, p) <= list.len(),
        live_highlight(list, i, p) < list.len() ==> list[live_highlight(list, i, p)].end > p,
        forall|k: int| i <= k < live_highlight(list, i, p) ==> (#[trigger] list[k]).end <= p,
    decreases list.len() - i,
{
    if i < list.len() && list[i].end <= p {
        lemma_live_highlight_is(list, i + 1, p);
    }
}

/// Whether a piece of a line is styled as it should be: on the background of changes
/// exactly if it lies in a changed range, and in the colour of a highlight exactly
/// if it lies in one.
pub open spec fn styled_right(
    shown: Style,
    style: LineStyle,
    highlights: Seq<HighlightRange>,
    ranges: Seq<InlineRange>,
    a: int,
    b: int,
) -> bool {
    &&& forall|r: int|
        0 <= r < ranges.len() && (#[trigger] ranges[r]).start <= a && b <= ranges[r].end ==> (
        style.inline_bg matches Some(bg) ==> shown.bg == Some(bg) && shown.bold)
    &&& (style.inline_bg is None || forall|r: int|
        0 <= r < ranges.len() ==> !((#[trigger] ranges[r]).start <= a && b <= ranges[r].end))
        ==> shown.bg == style.ground().bg
    &&& forall|h: int|
        0 <= h < highlights.len() && (#[trigger] highlights[h]).start <= a && b
            <= highlights[h].end ==> shown.fg == Some(
            crate::style::rgb_of(
                highlights[h].style.fg.0,
                highlights[h].style.fg.1,
                highlights[h].style.fg.2,
            ),
        )
    &&& (forall|h: int|
        0 <= h < highlights.len() ==> !((#[trigger] highlights[h]).start <= a && b
            <= highlights[h].end)) ==> shown.fg == style.ground().fg
}

proof fn lemma_segment_style(
    highlights: Seq<HighlightRange>,
    ranges: Seq<InlineRange>,
    style: LineStyle,
    a: usize,
    b: usize,
)
    requires
        highlights_in_order(highlights),
        ranges_in_order(ranges),
        a < b,
    ensures
        styled_right(
            segment_style(
                highlights,
                ranges,
                style.ground(),
                style.is_current,
                style.inline_bg,
                a,
                b,
            ),
            style,
            highlights,
            ranges,
            a as int,
            b as int,
        ),
{
    let h = live_highlight(highlights, 0, a);
    let r = live_inline(ranges, 0, a);
    lemma_live_highlight_is(highlights, 0, a);
    lemma_live_inline_is(ranges, 0, a);
    assert forall|k: int|
        0 <= k < ranges.len() && (#[trigger] ranges[k]).start <= a && b
            <= ranges[k].end implies k == r by {
        if r < k {
            assert(ranges[r].end <= ranges[k].start);
        }
    }
    assert forall|k: int|
        0 <= k < highlights.len() && (#[trigger] highlights[k]).start <= a && b
            <= highlights[k].end implies k == h by {
        if h < k {
            assert(highlights[h].end <= highlights[k].start);
        }
    }
}

proof fn lemma_points_hold(highlights: Seq<HighlightRange>, ranges: Seq<InlineRange>, len: usize)
    ensures
        ({
            let points = style_points(highlights, ranges, len);
            &&& points.contains(0)
            &&& points.contains(len)
            &&& forall|r: int|
                0 <= r < ranges.len() ==> points.contains(least((#[trigger] ranges[r]).start, len))
                    && points.contains(least(ranges[r].end, len))
            &&& forall|h: int|
                0 <= h < highlights.len() ==> points.contains(
                    least((#[trigger] highlights[h]).start, len),
                ) && points.contains(least(highlights[h].end, len))
        }),
{
    let given = seq![0usize, len] + highlight_points(highlights, len) + inline_points(ranges, len);
    lemma_sorted_points(given);
    assert(given[0] == 0 && given[1] == len);
    lemma_highlight_points_hold(highlights, len);
    lemma_inline_points_hold(ranges, len);
    let hs = highlight_points(highlights, len);
    let rs = inline_points(ranges, len);
    assert forall|q: usize| hs.contains(q) || rs.contains(q) implies #[trigger] given.contains(
        q,
    ) by {
        if hs.contains(q) {
            let k = choose|k: int| 0 <= k < hs.len() && hs[k] == q;
            assert(given[2 + k] == q);
        } else {
            let k = choose|k: int| 0 <= k < rs.len() && rs[k] == q;
            assert(given[2 + hs.len() + k] == q);
        }
    }
}

proof fn lemma_highlight_points_hold(highlights: Seq<HighlightRange>, len: usize)
    ensures
        forall|h: int|
            0 <= h < highlights.len() ==> highlight_points(highlights, len).contains(
                least((#[trigger] highlights[h]).start, len),
            ) && highlight_points(highlights, len).contains(least(highlights[h].end, len)),
    decreases highlights.len(),
{
    if highlights.len() > 0 {
        let front = highlights.drop_last();
        lemma_highlight_points_hold(front, len);
        let before = highlight_points(front, len);
        let now = highlight_points(highlights, len);
        assert forall|h: int| 0 <= h < highlights.len() implies now.contains(
            least((#[trigger] highlights[h]).start, len),
        ) && now.contains(least(highlights[h].end, len)) by {
            if h < front.len() {
                assert(front[h] == highlights[h]);
                let i = choose|i: int|
                    0 <= i < before.len() && before[i] == least(front[h].start, len);
                let j = choose|j: int| 0 <= j < before.len() && before[j] == least(front[h].end, len);
                assert(now[i] == before[i] && now[j] == before[j]);
            } else {
                assert(now[before.len() as int] == least(highlights[h].start, len));
                assert(now[(before.len() + 1) as int] == least(highlights[h].end, len));
            }
        }
    }
}

proof fn lemma_inline_points_hold(ranges: Seq<InlineRange>, len: usize)
    ensures
        forall|r: int|
            0 <= r < ranges.len() ==> inline_points(ranges, len).contains(
                least((#[trigger] ranges[r]).start, len),
            ) && inline_points(ranges, len).contains(least(ranges[r].end, len)),
    decreases ranges.len(),
{
    if ranges.len() > 0 {
        let front = ranges.drop_last();
        lemma_inline_points_hold(front, len);
        let before = inline_points(front, len);
        let now = inline_points(ranges, len);
        assert forall|r: int| 0 <= r < ranges.len() implies now.contains(
            least((#[trigger] ranges[r]).start, len),
        ) && now.contains(least(ranges[r].end, len)) by {
            if r < front.len() {
                assert(front[r] == ranges[r]);
                let i = choose|i: int|
                    0 <= i < before.len() && before[i] == least(front[r].start, len);
                let j = choose|j: int| 0 <= j < before.len() && before[j] == least(front[r].end, len);
                assert(now[i] == before[i] && now[j] == before[j]);
            } else {
                assert(now[before.len() as int] == least(ranges[r].start, len));
                assert(now[(before.len() + 1) as int] == least(ranges[r].end, len));
            }
        }
    }
}

proof fn lemma_segments_are(
    content: Seq<char>,
    sorted: Seq<HighlightRange>,
    inline: Seq<InlineRange>,
    style: LineStyle,
    points: Seq<usize>,
    n: int,
)
    requires
        0 <= n < points.len(),
        forall|i: int, j: int| 0 <= i < j < points.len() ==> points[i] < points[j],
        forall|i: int|
            0 <= i < points.len() ==> char_index(content, #[trigger] points[i] as int) is Some,
    ensures
        ({
            let v = segments(content, sorted, inline, style, points, n);
            &&& v.len() == n
            &&& forall|k: int|
                0 <= k < n ==> byte_slice(content, points[k] as int, points[k + 1] as int) == Some(
                    (#[trigger] v[k]).text,
                ) && v[k].style == segment_style(
                    sorted,
                    inline,
                    style.ground(),
                    style.is_current,
                    style.inline_bg,
                    points[k],
                    points[k + 1],
                )
        }),
    decreases n,
{
    if n > 0 {
        lemma_segments_are(content, sorted, inline, style, points, n - 1);
        let a = points[n - 1];
        let b = points[n];
        lemma_char_index_bounds(content, a as int);
        lemma_char_index_bounds(content, b as int);
        let i = char_index(content, a as int)->0;
        let j = char_index(content, b as int)->0;
        if j < i {
            lemma_byte_len_take(content.take(i), j);
            assert(content.take(i).take(j) =~= content.take(j));
        }
        let before = segments(content, sorted, inline, style, points, n - 1);
        let v = segments(content, sorted, inline, style, points, n);
        assert forall|k: int| 0 <= k < n implies byte_slice(
            content,
            points[k] as int,
            points[k + 1] as int,
        ) == Some((#[trigger] v[k]).text) && v[k].style == segment_style(
            sorted,
            inline,
            style.ground(),
            style.is_current,
            style.inline_bg,
            points[k],
            points[k + 1],
        ) by {
            if k < n - 1 {
                assert(v[k] == before[k]);
            }
        }
    }
}

/// A line is cut where a highlight or a changed range begins or ends, so that each
/// piece lies in a range as a whole or not at all; the pieces follow each other
/// through the whole text, and each is styled by the ranges that it lies in.
pub proof fn law_pieces_styled(
    content: Seq<char>,
    highlights: Seq<HighlightRange>,
    ranges: Seq<InlineRange>,
    style: LineStyle,
) -> (points: Seq<usize>)
    requires
        cuts_between(content, highlights, ranges),
        highlights_in_order(highlights),
        ranges_in_order(ranges),
        highlights.len() > 0 || ranges.len() > 0,
    ensures
        ({
            let v = highlighted(content, highlights, ranges, style);
            &&& points.len() == v.len() + 1
            &&& points[0] == 0
            &&& points.last() == byte_len(content)
            &&& forall|k: int|
                0 <= k < v.len() ==> {
                    &&& points[k] < points[k + 1]
                    &&& byte_slice(content, points[k] as int, points[k + 1] as int) == Some(
                        (#[trigger] v[k]).text,
                    )
                    &&& styled_right(
                        v[k].style,
                        style,
                        highlights,
                        ranges,
                        points[k] as int,
                        points[k + 1] as int,
                    )
                }
            &&& forall|k: int, r: int|
                0 <= k < v.len() && 0 <= r < ranges.len() ==> ((#[trigger] ranges[r]).start
                    <= points[k] && points[k + 1] <= ranges[r].end) || points[k + 1]
                    <= ranges[r].start || ranges[r].end <= #[trigger] points[k]
        }),
{
    let len = byte_len(content) as usize;
    let points = style_points(highlights, ranges, len);
    lemma_points_bounded(highlights, ranges, len);
    lemma_points_hold(highlights, ranges, len);
    lemma_sorted_points(
        seq![0usize, len] + highlight_points(highlights, len) + inline_points(ranges, len),
    );
    lemma_sorted_ranges_stay(ranges);
    lemma_sorted_highlights_stay(highlights);
    lemma_segments_are(content, highlights, ranges, style, points, points.len() - 1);
    let v = highlighted(content, highlights, ranges, style);
    assert forall|k: int| 0 <= k < v.len() implies styled_right(
        (#[trigger] v[k]).style,
        style,
        highlights,
        ranges,
        points[k] as int,
        points[k + 1] as int,
    ) by {
        lemma_segment_style(highlights, ranges, style, points[k], points[k + 1]);
    }
    assert forall|k: int, r: int| 0 <= k < v.len() && 0 <= r < ranges.len() implies ((
    #[trigger] ranges[r]).start <= points[k] && points[k + 1] <= ranges[r].end) || points[k + 1]
        <= ranges[r].start || ranges[r].end <= #[trigger] points[k] by {
        let s = least(ranges[r].start, len);
        let e = least(ranges[r].end, len);
        let i = choose|i: int| 0 <= i < points.len() && points[i] == s;
        let j = choose|j: int| 0 <= j < points.len() && points[j] == e;
        assert(points[k + 1] <= len);
        if i <= k {
            assert(points[i] <= points[k]);
        } else {
            assert(points[k + 1] <= points[i]);
        }
        if j <= k {
            assert(points[j] <= points[k]);
        } else {
            assert(points[k + 1] <= points[j]);
        }
    }
    points
}

proof fn lemma_spans_text_concat(a: Seq<SpanV>, b: Seq<SpanV>)
    ensures
        spans_text(a + b) == spans_text(a) + spans_text(b),
    decreases b.len(),
{
    if b.len() == 0 {
        assert(a + b =~= a);
        assert(spans_text(a) + spans_text(b) =~= spans_text(a));
    } else {
        lemma_spans_text_concat(a, b.drop_last());
        assert((a + b).drop_last() =~= a + b.drop_last());
        assert(spans_text(a + b) =~= spans_text(a) + spans_text(b));
    }
}

/// What is left of spans that are cut is the beginning of their text.
pub proof fn law_truncated_is_beginning(spans: Seq<SpanV>, i: int, room: int) -> (rest: Seq<char>)
    requires
        0 <= i <= spans.len(),
        room >= 0,
    ensures
        spans_text(spans.skip(i)) == spans_text(truncated(spans, i, room)) + rest,
    decreases spans.len() - i,
{
    let cut = truncated(spans, i, room);
    if i == spans.len() || room == 0 {
        let rest = spans_text(spans.skip(i));
        assert(spans_text(cut) + rest =~= rest);
        rest
    } else {
        let s = spans[i];
        let w = text_columns(s.text) as int;
        let one = seq![s];
        assert(one.drop_last() =~= Seq::<SpanV>::empty());
        assert(spans_text(one.drop_last()) =~= Seq::<char>::empty());
        assert(spans_text(one) =~= s.text);
        assert(spans.skip(i) =~= one + spans.skip(i + 1));
        lemma_spans_text_concat(one, spans.skip(i + 1));
        if w <= room {
            let rest = law_truncated_is_beginning(spans, i + 1, room - w);
            lemma_spans_text_concat(one, truncated(spans, i + 1, room - w));
            assert(spans_text(spans.skip(i)) =~= spans_text(cut) + rest);
            rest
        } else {
            let k = fitting(s.text, room);
            lemma_fit(s.text, 0, room);
            if k > 0 {
                let part = seq![span(s.text.take(k), s.style)];
                assert(part.drop_last() =~= Seq::<SpanV>::empty());
                assert(spans_text(part.drop_last()) =~= Seq::<char>::empty());
                assert(spans_text(part) =~= s.text.take(k));
                let rest = s.text.skip(k) + spans_text(spans.skip(i + 1));
                assert(s.text =~= s.text.take(k) + s.text.skip(k));
                assert(spans_text(spans.skip(i)) =~= spans_text(cut) + rest);
                rest
            } else {
                let rest = spans_text(spans.skip(i));
                assert(spans_text(cut) + rest =~= rest);
                rest
            }
        }
    }
}

} // verus!
