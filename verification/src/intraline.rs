//! Changes within lines: which bytes of a deleted line differ from the added
//! line that replaces it.
//!
//! Within a run of deletions that is followed by a run of additions, lines are
//! paired by similarity, the most similar pair first, and each pair is compared
//! character by character.
use vstd::prelude::*;
use vstd::relations::{sorted_by, total_ordering};
use vstd::seq_lib::*;

use crate::diff::{line_views, DiffLine, DiffLineV, InlineRange, LineKind};
use crate::outside::{char_diff, diff_chars, similarity, similarity_bits};
use crate::text::{byte_len, byte_length, lemma_byte_len_concat};

verus! {

/// What happens to a piece of text.
#[derive(Debug, Clone, Copy, PartialEq, Eq, Structural)]
pub enum ChangeKind {
    Equal,
    Delete,
    Insert,
}

/// A piece of text that is kept, deleted or inserted.
#[derive(Debug)]
pub struct CharChange {
    pub kind: ChangeKind,
    pub value: String,
}

/// The values of a list of changes.
pub open spec fn change_views(changes: Seq<CharChange>) -> Seq<(ChangeKind, Seq<char>)> {
    Seq::new(changes.len(), |i: int| (changes[i].kind, changes[i].value@))
}

/// The text that the changes keep, together with what they delete (the old
/// text) or insert (the new text).
pub open spec fn text_with(changes: Seq<(ChangeKind, Seq<char>)>, side: ChangeKind) -> Seq<char>
    decreases changes.len(),
{
    if changes.len() == 0 {
        Seq::empty()
    } else {
        let before = text_with(changes.drop_last(), side);
        let (kind, value) = changes.last();
        if kind == ChangeKind::Equal || kind == side {
            before + value
        } else {
            before
        }
    }
}

/// The byte ranges of one side's text that the changes delete or insert, one
/// for each change.
pub open spec fn changed_ranges(
    changes: Seq<(ChangeKind, Seq<char>)>,
    side: ChangeKind,
) -> Seq<InlineRange>
    decreases changes.len(),
{
    if changes.len() == 0 {
        Seq::empty()
    } else {
        let before = changed_ranges(changes.drop_last(), side);
        let pos = byte_len(text_with(changes.drop_last(), side));
        let (kind, value) = changes.last();
        if kind == side && byte_len(value) > 0 {
            before.push(InlineRange { start: pos as usize, end: (pos + byte_len(value)) as usize })
        } else {
            before
        }
    }
}

// ---------------------------------------------------------------------------
// Merging ranges
// ---------------------------------------------------------------------------
/// Puts a range behind those that start no later than it.
pub open spec fn insert_range(ranges: Seq<InlineRange>, r: InlineRange) -> Seq<InlineRange>
    decreases ranges.len(),
{
    if ranges.len() == 0 || ranges.last().start <= r.start {
        ranges.push(r)
    } else {
        insert_range(ranges.drop_last(), r).push(ranges.last())
    }
}

/// The ranges by their start, those with the same start in their given order.
pub open spec fn sorted_ranges(ranges: Seq<InlineRange>) -> Seq<InlineRange>
    decreases ranges.len(),
{
    if ranges.len() == 0 {
        Seq::empty()
    } else {
        insert_range(sorted_ranges(ranges.drop_last()), ranges.last())
    }
}

/// Sorted ranges with each one that overlaps or touches the one before it
/// drawn into that one.
pub open spec fn merged(ranges: Seq<InlineRange>) -> Seq<InlineRange>
    decreases ranges.len(),
{
    if ranges.len() <= 1 {
        ranges
    } else {
        let before = merged(ranges.drop_last());
        let r = ranges.last();
        let current = before.last();
        if r.start <= current.end {
            before.drop_last().push(
                InlineRange {
                    start: current.start,
                    end: if r.end > current.end {
                        r.end
                    } else {
                        current.end
                    },
                },
            )
        } else {
            before.push(r)
        }
    }
}

proof fn lemma_insert_range(ranges: Seq<InlineRange>, r: InlineRange, p: int)
    requires
        0 <= p <= ranges.len(),
        p > 0 ==> ranges[p - 1].start <= r.start,
        forall|i: int| p <= i < ranges.len() ==> (#[trigger] ranges[i]).start > r.start,
    ensures
        insert_range(ranges, r) == ranges.insert(p, r),
    decreases ranges.len(),
{
    if ranges.len() == p {
        assert(ranges.insert(p, r) =~= ranges.push(r));
    } else {
        assert(ranges.last().start > r.start);
        lemma_insert_range(ranges.drop_last(), r, p);
        assert(ranges.insert(p, r) =~= ranges.drop_last().insert(p, r).push(ranges.last()));
    }
}

/// Ranges ordered by their starts; those with one start as they were given.
pub fn sort_ranges(ranges: &[InlineRange]) -> (v: Vec<InlineRange>)
    ensures
        v@ == sorted_ranges(ranges@),
        v@.len() == ranges@.len(),
{
    let mut v: Vec<InlineRange> = Vec::new();
    let mut i: usize = 0;
    assert(ranges@.take(0) =~= Seq::empty());
    while i < ranges.len()
        invariant
            i <= ranges@.len(),
            v@.len() == i,
            v@ == sorted_ranges(ranges@.take(i as int)),
        decreases ranges@.len() - i,
    {
        let r = ranges[i];
        let mut p: usize = v.len();
        while p > 0 && v[p - 1].start > r.start
            invariant
                p <= v@.len(),
                forall|k: int| p <= k < v@.len() ==> (#[trigger] v@[k]).start > r.start,
            decreases p,
        {
            p = p - 1;
        }
        proof {
            lemma_insert_range(v@, r, p as int);
            assert(ranges@.take(i + 1).drop_last() =~= ranges@.take(i as int));
        }
        v.insert(p, r);
        i = i + 1;
    }
    assert(ranges@.take(i as int) =~= ranges@);
    v
}

/// Merges ranges that overlap or touch.
pub fn merge_inline_ranges(ranges: &[InlineRange]) -> (v: Vec<InlineRange>)
    ensures
        v@ == merged(sorted_ranges(ranges@)),
{
    let sorted = sort_ranges(ranges);
    if sorted.len() == 0 {
        return sorted;
    }
    let ghost s = sorted@;
    let mut v: Vec<InlineRange> = Vec::new();
    let mut current = sorted[0];
    let mut i: usize = 1;
    assert(v@.push(current) =~= merged(s.take(1)));
    while i < sorted.len()
        invariant
            1 <= i <= s.len(),
            s == sorted@,
            v@.push(current) == merged(s.take(i as int)),
        decreases s.len() - i,
    {
        let r = sorted[i];
        proof {
            assert(s.take(i + 1).drop_last() =~= s.take(i as int));
            assert(v@.push(current).drop_last() =~= v@);
        }
        if r.start <= current.end {
            current = InlineRange {
                start: current.start,
                end: if r.end > current.end {
                    r.end
                } else {
                    current.end
                },
            };
        } else {
            v.push(current);
            current = r;
        }
        i = i + 1;
    }
    assert(s.take(i as int) =~= s);
    v.push(current);
    v
}

// ---------------------------------------------------------------------------
// Ranges of two lines
// ---------------------------------------------------------------------------
/// The merged ranges of one side of a comparison.
pub open spec fn inline_ranges_of(
    changes: Seq<(ChangeKind, Seq<char>)>,
    side: ChangeKind,
) -> Seq<InlineRange> {
    merged(sorted_ranges(changed_ranges(changes, side)))
}

proof fn lemma_text_with_take(changes: Seq<(ChangeKind, Seq<char>)>, side: ChangeKind, n: int)
    requires
        0 <= n <= changes.len(),
    ensures
        byte_len(text_with(changes.take(n), side)) <= byte_len(text_with(changes, side)),
    decreases changes.len(),
{
    if n == changes.len() {
        assert(changes.take(n) =~= changes);
    } else {
        lemma_text_with_take(changes.drop_last(), side, n);
        assert(changes.drop_last().take(n) =~= changes.take(n));
        lemma_byte_len_concat(text_with(changes.drop_last(), side), changes.last().1);
    }
}

/// The ranges that a list of changes deletes from the old text, and those that
/// it inserts into the new text.
pub fn ranges_of_changes(changes: &[CharChange]) -> (r: (Vec<InlineRange>, Vec<InlineRange>))
    requires
        byte_len(text_with(change_views(changes@), ChangeKind::Delete)) <= usize::MAX,
        byte_len(text_with(change_views(changes@), ChangeKind::Insert)) <= usize::MAX,
    ensures
        r.0@ == inline_ranges_of(change_views(changes@), ChangeKind::Delete),
        r.1@ == inline_ranges_of(change_views(changes@), ChangeKind::Insert),
{
    let ghost cv = change_views(changes@);
    let mut old_pos: usize = 0;
    let mut new_pos: usize = 0;
    let mut old_ranges: Vec<InlineRange> = Vec::new();
    let mut new_ranges: Vec<InlineRange> = Vec::new();
    let mut i: usize = 0;
    assert(cv.take(0) =~= Seq::empty());
    while i < changes.len()
        invariant
            i <= changes@.len(),
            cv == change_views(changes@),
            byte_len(text_with(cv, ChangeKind::Delete)) <= usize::MAX,
            byte_len(text_with(cv, ChangeKind::Insert)) <= usize::MAX,
            old_pos == byte_len(text_with(cv.take(i as int), ChangeKind::Delete)),
            new_pos == byte_len(text_with(cv.take(i as int), ChangeKind::Insert)),
            old_ranges@ == changed_ranges(cv.take(i as int), ChangeKind::Delete),
            new_ranges@ == changed_ranges(cv.take(i as int), ChangeKind::Insert),
        decreases changes@.len() - i,
    {
        let len = byte_length(changes[i].value.as_str());
        proof {
            assert(cv.take(i + 1).drop_last() =~= cv.take(i as int));
            assert(cv.take(i + 1).last() == (changes@[i as int].kind, changes@[i as int].value@));
            lemma_text_with_take(cv, ChangeKind::Delete, i + 1);
            lemma_text_with_take(cv, ChangeKind::Insert, i + 1);
            lemma_byte_len_concat(
                text_with(cv.take(i as int), ChangeKind::Delete),
                changes@[i as int].value@,
            );
            lemma_byte_len_concat(
                text_with(cv.take(i as int), ChangeKind::Insert),
                changes@[i as int].value@,
            );
        }
        match changes[i].kind {
            ChangeKind::Delete => {
                if len > 0 {
                    old_ranges.push(InlineRange { start: old_pos, end: old_pos + len });
                    old_pos = old_pos + len;
                }
            },
            ChangeKind::Insert => {
                if len > 0 {
                    new_ranges.push(InlineRange { start: new_pos, end: new_pos + len });
                    new_pos = new_pos + len;
                }
            },
            ChangeKind::Equal => {
                old_pos = old_pos + len;
                new_pos = new_pos + len;
            },
        }
        i = i + 1;
    }
    assert(cv.take(i as int) =~= cv);
    (merge_inline_ranges(&old_ranges), merge_inline_ranges(&new_ranges))
}

/// The ranges of the old line that the new line lacks, and those of the new
/// line that the old line lacks.
pub fn compute_inline_ranges(old: &str, new: &str) -> (r: (Vec<InlineRange>, Vec<InlineRange>))
    ensures
        r.0@ == inline_ranges_of(char_diff(old@, new@), ChangeKind::Delete),
        r.1@ == inline_ranges_of(char_diff(old@, new@), ChangeKind::Insert),
        text_with(char_diff(old@, new@), ChangeKind::Delete) == old@,
        text_with(char_diff(old@, new@), ChangeKind::Insert) == new@,
{
    let changes = diff_chars(old, new);
    let old_len = byte_length(old);
    let new_len = byte_length(new);
    ranges_of_changes(&changes)
}

// ---------------------------------------------------------------------------
// Pairing lines
// ---------------------------------------------------------------------------
/// Lines that are less alike than this are not paired: the bits of 0.6.
pub const PAIR_THRESHOLD_BITS: u32 = 0x3f19999a;

/// A deleted and an added line that are alike enough to be a pair.
#[derive(Debug, Clone, Copy)]
pub struct Candidate {
    /// How alike the lines are.
    pub score: u32,
    /// How far apart their places within their runs are.
    pub distance: usize,
    pub deleted: usize,
    pub added: usize,
}

/// The order in which candidates are considered: the most alike first, then
/// the closest, then by the deleted and the added line.
pub open spec fn ranks(x: Candidate, y: Candidate) -> bool {
    x.score > y.score || (x.score == y.score && (x.distance < y.distance || (x.distance
        == y.distance && (x.deleted < y.deleted || (x.deleted == y.deleted && x.added
        <= y.added)))))
}

/// How far apart two places are.
pub open spec fn apart(x: int, y: int) -> int {
    if x >= y {
        x - y
    } else {
        y - x
    }
}

/// The candidates for one deleted line among the first `n` added ones.
pub open spec fn line_candidates(
    lines: Seq<DiffLineV>,
    del_start: int,
    add_start: int,
    d: int,
    n: int,
) -> Seq<Candidate>
    decreases n,
{
    if n <= 0 {
        Seq::empty()
    } else {
        let before = line_candidates(lines, del_start, add_start, d, n - 1);
        let a = add_start + n - 1;
        let score = similarity_bits(lines[d].content, lines[a].content);
        if score >= PAIR_THRESHOLD_BITS {
            before.push(
                Candidate {
                    score,
                    distance: apart(d - del_start, n - 1) as usize,
                    deleted: d as usize,
                    added: a as usize,
                },
            )
        } else {
            before
        }
    }
}

/// The candidates for the first `m` deleted lines of a run at `del_start`,
/// whose additions are `add_start..end`.
pub open spec fn run_candidates(
    lines: Seq<DiffLineV>,
    del_start: int,
    add_start: int,
    end: int,
    m: int,
) -> Seq<Candidate>
    decreases m,
{
    if m <= 0 {
        Seq::empty()
    } else {
        run_candidates(lines, del_start, add_start, end, m - 1) + line_candidates(
            lines,
            del_start,
            add_start,
            del_start + m - 1,
            end - add_start,
        )
    }
}

/// Whether a candidate shares a line with one of the pairs.
pub open spec fn taken(pairs: Seq<(int, int)>, c: Candidate) -> bool {
    exists|k: int|
        0 <= k < pairs.len() && ((#[trigger] pairs[k]).0 == c.deleted || pairs[k].1 == c.added)
}

/// The pairs taken from ranked candidates: each one that shares no line with a
/// pair taken before it.
pub open spec fn pairs_of(ranked: Seq<Candidate>) -> Seq<(int, int)>
    decreases ranked.len(),
{
    if ranked.len() == 0 {
        Seq::empty()
    } else {
        let before = pairs_of(ranked.drop_last());
        let c = ranked.last();
        if taken(before, c) {
            before
        } else {
            before.push((c.deleted as int, c.added as int))
        }
    }
}

/// The pairs of a run.
pub open spec fn run_pairs(
    lines: Seq<DiffLineV>,
    del_start: int,
    add_start: int,
    end: int,
) -> Seq<(int, int)> {
    pairs_of(
        run_candidates(lines, del_start, add_start, end, add_start - del_start).sort_by(
            |x: Candidate, y: Candidate| ranks(x, y),
        ),
    )
}

/// The changed ranges of line `i`, given which lines are pairs: those of the
/// comparison with its partner, or none where it has no partner.
pub open spec fn ranges_in_pairs(
    lines: Seq<DiffLineV>,
    pairs: Seq<(int, int)>,
    i: int,
) -> Seq<InlineRange>
    decreases pairs.len(),
{
    if pairs.len() == 0 {
        Seq::empty()
    } else {
        let (d, a) = pairs.last();
        let changes = char_diff(lines[d].content, lines[a].content);
        if i == a {
            inline_ranges_of(changes, ChangeKind::Insert)
        } else if i == d {
            inline_ranges_of(changes, ChangeKind::Delete)
        } else {
            ranges_in_pairs(lines, pairs.drop_last(), i)
        }
    }
}

/// The end of the run of lines of one kind that starts at `i`.
pub open spec fn run_end(lines: Seq<DiffLineV>, kind: LineKind, i: int) -> int
    decreases lines.len() - i,
{
    if 0 <= i < lines.len() && lines[i].kind == kind {
        run_end(lines, kind, i + 1)
    } else {
        i
    }
}

proof fn lemma_run_end(lines: Seq<DiffLineV>, kind: LineKind, i: int)
    requires
        0 <= i <= lines.len(),
    ensures
        i <= run_end(lines, kind, i) <= lines.len(),
        i < lines.len() && lines[i].kind == kind ==> i < run_end(lines, kind, i),
        forall|k: int| i <= k < run_end(lines, kind, i) ==> (#[trigger] lines[k]).kind == kind,
    decreases lines.len() - i,
{
    if i < lines.len() && lines[i].kind == kind {
        lemma_run_end(lines, kind, i + 1);
    }
}

/// The changed ranges of the lines from `i` on. A run of deletions and the run
/// of additions behind it are paired; every other line has no ranges.
pub open spec fn intraline_from(lines: Seq<DiffLineV>, i: int) -> Seq<Seq<InlineRange>>
    decreases lines.len() - i,
    when 0 <= i
    via intraline_from_decreases
{
    if i >= lines.len() {
        Seq::empty()
    } else if lines[i].kind == LineKind::Deletion {
        let add_start = run_end(lines, LineKind::Deletion, i);
        let end = run_end(lines, LineKind::Addition, add_start);
        let pairs = run_pairs(lines, i, add_start, end);
        Seq::new((end - i) as nat, |k: int| ranges_in_pairs(lines, pairs, i + k)) + intraline_from(
            lines,
            end,
        )
    } else {
        seq![Seq::<InlineRange>::empty()] + intraline_from(lines, i + 1)
    }
}

#[via_fn]
proof fn intraline_from_decreases(lines: Seq<DiffLineV>, i: int) {
    if i < lines.len() {
        lemma_run_end(lines, LineKind::Deletion, i);
        lemma_run_end(lines, LineKind::Addition, run_end(lines, LineKind::Deletion, i));
    }
}

/// The changed ranges of every line.
pub open spec fn intraline(lines: Seq<DiffLineV>) -> Seq<Seq<InlineRange>> {
    intraline_from(lines, 0)
}

proof fn lemma_ranks_total()
    ensures
        total_ordering(|x: Candidate, y: Candidate| ranks(x, y)),
{
}

/// The two sorted halves in one.
fn merge_ranked(left: &Vec<Candidate>, right: &Vec<Candidate>) -> (v: Vec<Candidate>)
    requires
        sorted_by(left@, |x: Candidate, y: Candidate| ranks(x, y)),
        sorted_by(right@, |x: Candidate, y: Candidate| ranks(x, y)),
    ensures
        sorted_by(v@, |x: Candidate, y: Candidate| ranks(x, y)),
        v@.to_multiset() == left@.to_multiset().add(right@.to_multiset()),
{
    broadcast use group_to_multiset_ensures;

    let ghost leq = |x: Candidate, y: Candidate| ranks(x, y);
    let mut v: Vec<Candidate> = Vec::new();
    let mut i: usize = 0;
    let mut j: usize = 0;
    assert(left@.take(0) =~= Seq::empty() && right@.take(0) =~= Seq::empty());
    assert(v@.to_multiset() =~= left@.take(0).to_multiset().add(right@.take(0).to_multiset()));
    while i < left.len() || j < right.len()
        invariant
            i <= left@.len(),
            j <= right@.len(),
            leq == (|x: Candidate, y: Candidate| ranks(x, y)),
            sorted_by(left@, leq),
            sorted_by(right@, leq),
            sorted_by(v@, leq),
            forall|k: int| 0 <= k < v@.len() && i < left@.len() ==> ranks(#[trigger] v@[k], left@[i as int]),
            forall|k: int| 0 <= k < v@.len() && j < right@.len() ==> ranks(#[trigger] v@[k], right@[j as int]),
            v@.to_multiset() == left@.take(i as int).to_multiset().add(
                right@.take(j as int).to_multiset(),
            ),
        decreases left@.len() - i + right@.len() - j,
    {
        let from_left = if i >= left.len() {
            false
        } else if j >= right.len() {
            true
        } else {
            ranked_first(left[i], right[j])
        };
        broadcast use group_to_multiset_ensures;

        let ghost v0 = v@;
        if from_left {
            let c = left[i];
            proof {
                assert(left@.take(i + 1) =~= left@.take(i as int).push(c));
                assert(forall|k: int| i < k < left@.len() ==> leq(left@[i as int], left@[k]));
            }
            v.push(c);
            i = i + 1;
            assert(v@.to_multiset() =~= left@.take(i as int).to_multiset().add(
                right@.take(j as int).to_multiset(),
            ));
        } else {
            let c = right[j];
            proof {
                assert(right@.take(j + 1) =~= right@.take(j as int).push(c));
                assert(forall|k: int| j < k < right@.len() ==> leq(right@[j as int], right@[k]));
            }
            v.push(c);
            j = j + 1;
            assert(v@.to_multiset() =~= left@.take(i as int).to_multiset().add(
                right@.take(j as int).to_multiset(),
            ));
        }
        assert forall|a: int, b: int| 0 <= a < b < v@.len() implies #[trigger] leq(v@[a], v@[b]) by {
            if b < v0.len() {
                assert(leq(v0[a], v0[b]));
            }
        }
    }
    assert(left@.take(i as int) =~= left@);
    assert(right@.take(j as int) =~= right@);
    v
}

fn ranked_first(x: Candidate, y: Candidate) -> (r: bool)
    ensures
        r == ranks(x, y),
{
    x.score > y.score || (x.score == y.score && (x.distance < y.distance || (x.distance
        == y.distance && (x.deleted < y.deleted || (x.deleted == y.deleted && x.added
        <= y.added)))))
}

fn sort_part(c: &Vec<Candidate>, from: usize, to: usize) -> (v: Vec<Candidate>)
    requires
        from <= to <= c@.len(),
    ensures
        sorted_by(v@, |x: Candidate, y: Candidate| ranks(x, y)),
        v@.to_multiset() == c@.subrange(from as int, to as int).to_multiset(),
    decreases to - from,
{
    let mut v: Vec<Candidate> = Vec::new();
    if to - from <= 1 {
        if from < to {
            v.push(c[from]);
        }
        assert(v@ =~= c@.subrange(from as int, to as int));
        v
    } else {
        let mid = from + (to - from) / 2;
        let left = sort_part(c, from, mid);
        let right = sort_part(c, mid, to);
        proof {
            let a = c@.subrange(from as int, mid as int);
            let b = c@.subrange(mid as int, to as int);
            lemma_multiset_commutative(a, b);
            assert(c@.subrange(from as int, to as int) =~= a + b);
        }
        merge_ranked(&left, &right)
    }
}

/// The candidates in the order in which they are considered.
fn sort_candidates(c: &Vec<Candidate>) -> (v: Vec<Candidate>)
    ensures
        v@ == c@.sort_by(|x: Candidate, y: Candidate| ranks(x, y)),
{
    let v = sort_part(c, 0, c.len());
    proof {
        let leq = |x: Candidate, y: Candidate| ranks(x, y);
        lemma_ranks_total();
        c@.lemma_sort_by_ensures(leq);
        assert(c@.subrange(0, c@.len() as int) =~= c@);
        lemma_sorted_unique(v@, c@.sort_by(leq), leq);
    }
    v
}

/// The values of lists of ranges.
pub open spec fn range_views(v: Seq<Vec<InlineRange>>) -> Seq<Seq<InlineRange>> {
    Seq::new(v.len(), |i: int| v[i]@)
}

/// Whether a candidate joins a line of `del_start..add_start` with one of
/// `add_start..end`.
pub open spec fn joins(c: Candidate, del_start: int, add_start: int, end: int) -> bool {
    del_start <= c.deleted < add_start <= c.added < end
}

proof fn lemma_line_candidates_join(
    lines: Seq<DiffLineV>,
    del_start: int,
    add_start: int,
    end: int,
    d: int,
    n: int,
)
    requires
        0 <= del_start <= d < add_start <= end <= usize::MAX,
        0 <= n <= end - add_start,
    ensures
        forall|k: int|
            0 <= k < line_candidates(lines, del_start, add_start, d, n).len() ==> joins(
                #[trigger] line_candidates(lines, del_start, add_start, d, n)[k],
                del_start,
                add_start,
                end,
            ),
    decreases n,
{
    if n > 0 {
        lemma_line_candidates_join(lines, del_start, add_start, end, d, n - 1);
        let before = line_candidates(lines, del_start, add_start, d, n - 1);
        let now = line_candidates(lines, del_start, add_start, d, n);
        assert forall|k: int| 0 <= k < now.len() implies joins(
            #[trigger] now[k],
            del_start,
            add_start,
            end,
        ) by {
            if k < before.len() {
                assert(now[k] == before[k]);
            }
        }
    }
}

proof fn lemma_run_candidates_join(
    lines: Seq<DiffLineV>,
    del_start: int,
    add_start: int,
    end: int,
    m: int,
)
    requires
        0 <= del_start <= add_start <= end <= usize::MAX,
        0 <= m <= add_start - del_start,
    ensures
        forall|k: int|
            0 <= k < run_candidates(lines, del_start, add_start, end, m).len() ==> joins(
                #[trigger] run_candidates(lines, del_start, add_start, end, m)[k],
                del_start,
                add_start,
                end,
            ),
    decreases m,
{
    if m > 0 {
        lemma_run_candidates_join(lines, del_start, add_start, end, m - 1);
        lemma_line_candidates_join(
            lines,
            del_start,
            add_start,
            end,
            del_start + m - 1,
            end - add_start,
        );
        let before = run_candidates(lines, del_start, add_start, end, m - 1);
        let more = line_candidates(lines, del_start, add_start, del_start + m - 1, end - add_start);
        let now = run_candidates(lines, del_start, add_start, end, m);
        assert forall|k: int| 0 <= k < now.len() implies joins(
            #[trigger] now[k],
            del_start,
            add_start,
            end,
        ) by {
            if k < before.len() {
                assert(now[k] == before[k]);
            } else {
                assert(now[k] == more[k - before.len()]);
            }
        }
    }
}

/// Collects the candidates of a run.
fn collect_candidates(lines: &[DiffLine], del_start: usize, add_start: usize, end: usize) -> (v: Vec<
    Candidate,
>)
    requires
        del_start <= add_start <= end <= lines@.len(),
    ensures
        v@ == run_candidates(
            line_views(lines@),
            del_start as int,
            add_start as int,
            end as int,
            add_start - del_start,
        ),
{
    let ghost lv = line_views(lines@);
    let mut v: Vec<Candidate> = Vec::new();
    let mut d: usize = del_start;
    while d < add_start
        invariant
            del_start <= d <= add_start <= end <= lines@.len(),
            lv == line_views(lines@),
            v@ == run_candidates(lv, del_start as int, add_start as int, end as int, d - del_start),
        decreases add_start - d,
    {
        let ghost base = v@;
        let mut a: usize = add_start;
        assert(v@ =~= base + line_candidates(lv, del_start as int, add_start as int, d as int, 0));
        while a < end
            invariant
                del_start <= d < add_start <= a <= end <= lines@.len(),
                lv == line_views(lines@),
                v@ == base + line_candidates(
                    lv,
                    del_start as int,
                    add_start as int,
                    d as int,
                    a - add_start,
                ),
            decreases end - a,
        {
            let score = similarity(lines[d].content.as_str(), lines[a].content.as_str());
            let ghost before = line_candidates(
                lv,
                del_start as int,
                add_start as int,
                d as int,
                a - add_start,
            );
            if score >= PAIR_THRESHOLD_BITS {
                let rel_d = d - del_start;
                let rel_a = a - add_start;
                let distance = if rel_d >= rel_a {
                    rel_d - rel_a
                } else {
                    rel_a - rel_d
                };
                v.push(Candidate { score, distance, deleted: d, added: a });
            }
            a = a + 1;
            assert(v@ =~= base + line_candidates(
                lv,
                del_start as int,
                add_start as int,
                d as int,
                a - add_start,
            ));
        }
        d = d + 1;
    }
    v
}

/// Pairs the lines of a run and compares the pairs.
fn pair_run(
    lines: &[DiffLine],
    del_start: usize,
    add_start: usize,
    end: usize,
    per_line: &mut Vec<Vec<InlineRange>>,
)
    requires
        del_start <= add_start <= end <= lines@.len(),
        old(per_line)@.len() == lines@.len(),
        forall|k: int| del_start <= k < end ==> (#[trigger] old(per_line)@[k])@.len() == 0,
    ensures
        final(per_line)@.len() == lines@.len(),
        forall|k: int|
            0 <= k < lines@.len() && !(del_start <= k < end) ==> #[trigger] final(per_line)@[k]
                == old(per_line)@[k],
        forall|k: int|
            del_start <= k < end ==> (#[trigger] final(per_line)@[k])@ == ranges_in_pairs(
                line_views(lines@),
                run_pairs(line_views(lines@), del_start as int, add_start as int, end as int),
                k,
            ),
{
    let ghost lv = line_views(lines@);
    let candidates = collect_candidates(lines, del_start, add_start, end);
    let ranked = sort_candidates(&candidates);
    let ghost leq = |x: Candidate, y: Candidate| ranks(x, y);
    let ghost r = ranked@;
    proof {
        lemma_run_candidates_join(
            lv,
            del_start as int,
            add_start as int,
            end as int,
            add_start - del_start,
        );
        lemma_ranks_total();
        candidates@.lemma_sort_by_ensures(leq);
        assert forall|k: int| 0 <= k < r.len() implies joins(
            #[trigger] r[k],
            del_start as int,
            add_start as int,
            end as int,
        ) by {
            assert(r.contains(r[k]));
            assert(candidates@.contains(r[k]));
        }
    }
    let del_count: usize = add_start - del_start;
    let add_count: usize = end - add_start;
    let mut used_del: Vec<bool> = vec![false; del_count];
    let mut used_add: Vec<bool> = vec![false; add_count];
    let mut n: usize = 0;
    assert(r.take(0) =~= Seq::empty());
    while n < ranked.len()
        invariant
            n <= r.len(),
            r == ranked@,
            lv == line_views(lines@),
            del_start <= add_start <= end <= lines@.len(),
            used_del@.len() == add_start - del_start,
            used_add@.len() == end - add_start,
            per_line@.len() == lines@.len(),
            forall|k: int|
                0 <= k < r.len() ==> joins(
                    #[trigger] r[k],
                    del_start as int,
                    add_start as int,
                    end as int,
                ),
            forall|k: int|
                0 <= k < used_del@.len() ==> (#[trigger] used_del@[k] <==> exists|p: int|
                    0 <= p < pairs_of(r.take(n as int)).len() && (#[trigger] pairs_of(
                        r.take(n as int),
                    )[p]).0 == k + del_start),
            forall|k: int|
                0 <= k < used_add@.len() ==> (#[trigger] used_add@[k] <==> exists|p: int|
                    0 <= p < pairs_of(r.take(n as int)).len() && (#[trigger] pairs_of(
                        r.take(n as int),
                    )[p]).1 == k + add_start),
            forall|k: int|
                0 <= k < lines@.len() && !(del_start <= k < end) ==> #[trigger] per_line@[k]
                    == old(per_line)@[k],
            forall|k: int|
                del_start <= k < end ==> (#[trigger] per_line@[k])@ == ranges_in_pairs(
                    lv,
                    pairs_of(r.take(n as int)),
                    k,
                ),
        decreases r.len() - n,
    {
        let c = ranked[n];
        let ghost before = pairs_of(r.take(n as int));
        let ghost after = pairs_of(r.take(n + 1));
        proof {
            assert(r.take(n + 1).drop_last() =~= r.take(n as int));
            assert(r.take(n + 1).last() == c);
            assert(joins(r[n as int], del_start as int, add_start as int, end as int));
        }
        let rel_d = c.deleted - del_start;
        let rel_a = c.added - add_start;
        if used_del[rel_d] || used_add[rel_a] {
            assert(taken(before, c));
            assert(after == before);
        } else {
            assert(!taken(before, c));
            let (del_ranges, add_ranges) = compute_inline_ranges(
                lines[c.deleted].content.as_str(),
                lines[c.added].content.as_str(),
            );
            assert(lv[c.deleted as int].content == lines@[c.deleted as int].content@);
            assert(lv[c.added as int].content == lines@[c.added as int].content@);
            per_line.set(c.deleted, del_ranges);
            per_line.set(c.added, add_ranges);
            used_del.set(rel_d, true);
            used_add.set(rel_a, true);
            proof {
                assert(after == before.push((c.deleted as int, c.added as int)));
                assert(after.drop_last() =~= before);
                assert(forall|p: int| 0 <= p < before.len() ==> after[p] == before[p]);
                assert(after[before.len() as int] == (c.deleted as int, c.added as int));
            }
        }
        n = n + 1;
    }
    assert(r.take(n as int) =~= r);
}

/// The changed ranges of every line of a hunk.
pub fn compute_intraline_ranges(lines: &[DiffLine]) -> (v: Vec<Vec<InlineRange>>)
    ensures
        range_views(v@) == intraline(line_views(lines@)),
{
    let ghost lv = line_views(lines@);
    let mut per_line: Vec<Vec<InlineRange>> = Vec::new();
    let mut i: usize = 0;
    while i < lines.len()
        invariant
            i <= lines@.len(),
            per_line@.len() == i,
            forall|k: int| 0 <= k < i ==> (#[trigger] per_line@[k])@.len() == 0,
        decreases lines@.len() - i,
    {
        per_line.push(Vec::new());
        i = i + 1;
    }
    i = 0;
    assert(range_views(per_line@).take(0) + intraline_from(lv, 0) =~= intraline(lv));
    while i < lines.len()
        invariant
            i <= lines@.len(),
            lv == line_views(lines@),
            per_line@.len() == lines@.len(),
            forall|k: int| i <= k < lines@.len() ==> (#[trigger] per_line@[k])@.len() == 0,
            range_views(per_line@).take(i as int) + intraline_from(lv, i as int) == intraline(lv),
        decreases lines@.len() - i,
    {
        let ghost before = per_line@;
        let ghost done = range_views(per_line@).take(i as int);
        let start = i;
        if lines[i].kind == LineKind::Deletion {
            proof {
                lemma_run_end(lv, LineKind::Deletion, start as int);
                lemma_run_end(
                    lv,
                    LineKind::Addition,
                    run_end(lv, LineKind::Deletion, start as int),
                );
            }
            while i < lines.len() && lines[i].kind == LineKind::Deletion
                invariant
                    start <= i <= lines@.len(),
                    lv == line_views(lines@),
                    run_end(lv, LineKind::Deletion, start as int) == run_end(
                        lv,
                        LineKind::Deletion,
                        i as int,
                    ),
                decreases lines@.len() - i,
            {
                i = i + 1;
            }
            let add_start = i;
            while i < lines.len() && lines[i].kind == LineKind::Addition
                invariant
                    add_start <= i <= lines@.len(),
                    lv == line_views(lines@),
                    run_end(lv, LineKind::Addition, add_start as int) == run_end(
                        lv,
                        LineKind::Addition,
                        i as int,
                    ),
                decreases lines@.len() - i,
            {
                i = i + 1;
            }
            pair_run(lines, start, add_start, i, &mut per_line);
            proof {
                let pairs = run_pairs(lv, start as int, add_start as int, i as int);
                let block = Seq::new(
                    (i - start) as nat,
                    |k: int| ranges_in_pairs(lv, pairs, start + k),
                );
                assert(intraline_from(lv, start as int) == block + intraline_from(lv, i as int));
                assert(range_views(per_line@).take(i as int) =~= done + block);
                assert(range_views(per_line@).take(i as int) + intraline_from(lv, i as int)
                    =~= done + intraline_from(lv, start as int));
            }
        } else {
            i = i + 1;
            proof {
                let empty = seq![Seq::<InlineRange>::empty()];
                assert(per_line@[start as int]@ =~= Seq::<InlineRange>::empty());
                assert(range_views(per_line@).take(i as int) =~= done + empty);
                assert(range_views(per_line@).take(i as int) + intraline_from(lv, i as int)
                    =~= done + intraline_from(lv, start as int));
            }
        }
    }
    assert(range_views(per_line@) =~= intraline(lv));
    per_line
}

// ---------------------------------------------------------------------------
// Laws
// ---------------------------------------------------------------------------
/// Whether a byte position lies in one of the ranges.
pub open spec fn in_ranges(ranges: Seq<InlineRange>, p: int) -> bool {
    exists|k: int| 0 <= k < ranges.len() && (#[trigger] ranges[k]).start <= p < ranges[k].end
}

/// The characters of a text that do not start in one of the ranges.
pub open spec fn outside(s: Seq<char>, ranges: Seq<InlineRange>) -> Seq<char>
    decreases s.len(),
{
    if s.len() == 0 {
        Seq::empty()
    } else {
        let before = outside(s.drop_last(), ranges);
        if in_ranges(ranges, byte_len(s.drop_last()) as int) {
            before
        } else {
            before.push(s.last())
        }
    }
}

/// Ranges in order, none of them empty or overlapping, all below a bound.
pub open spec fn in_order(ranges: Seq<InlineRange>, bound: int) -> bool {
    &&& forall|k: int|
        0 <= k < ranges.len() ==> (#[trigger] ranges[k]).start < ranges[k].end && ranges[k].end
            <= bound
    &&& forall|j: int, k: int|
        0 <= j < k < ranges.len() ==> (#[trigger] ranges[j]).end <= (#[trigger] ranges[k]).start
}

proof fn lemma_changed_ranges_in_order(changes: Seq<(ChangeKind, Seq<char>)>, side: ChangeKind)
    requires
        byte_len(text_with(changes, side)) <= usize::MAX,
    ensures
        in_order(changed_ranges(changes, side), byte_len(text_with(changes, side)) as int),
    decreases changes.len(),
{
    if changes.len() > 0 {
        lemma_byte_len_concat(text_with(changes.drop_last(), side), changes.last().1);
        lemma_changed_ranges_in_order(changes.drop_last(), side);
        let before = changed_ranges(changes.drop_last(), side);
        let now = changed_ranges(changes, side);
        assert(forall|k: int| 0 <= k < before.len() ==> now[k] == before[k]);
    }
}

proof fn lemma_sorted_in_order(ranges: Seq<InlineRange>, bound: int)
    requires
        in_order(ranges, bound),
    ensures
        sorted_ranges(ranges) == ranges,
    decreases ranges.len(),
{
    if ranges.len() == 0 {
        assert(sorted_ranges(ranges) =~= ranges);
    } else {
        let front = ranges.drop_last();
        assert(in_order(front, bound)) by {
            assert(forall|k: int| 0 <= k < front.len() ==> front[k] == ranges[k]);
        }
        lemma_sorted_in_order(front, bound);
        if front.len() > 0 {
            assert(front.last() == ranges[ranges.len() - 2]);
            assert(ranges[ranges.len() - 2].end <= ranges[ranges.len() - 1].start);
        }
        assert(front.push(ranges.last()) =~= ranges);
    }
}

/// Merging ranges that are in order covers the same positions, and leaves a
/// gap between neighbours.
proof fn lemma_merged_covers(ranges: Seq<InlineRange>, bound: int)
    requires
        in_order(ranges, bound),
    ensures
        in_order(merged(ranges), bound),
        forall|j: int, k: int|
            0 <= j < k < merged(ranges).len() ==> (#[trigger] merged(ranges)[j]).end
                < (#[trigger] merged(ranges)[k]).start,
        forall|p: int|
            #![trigger in_ranges(merged(ranges), p)]
            #![trigger in_ranges(ranges, p)]
            in_ranges(merged(ranges), p) <==> in_ranges(ranges, p),
        ranges.len() > 0 ==> merged(ranges).len() > 0 && merged(ranges).last().end
            == ranges.last().end,
    decreases ranges.len(),
{
    if ranges.len() > 1 {
        let front = ranges.drop_last();
        let r = ranges.last();
        assert(forall|k: int| 0 <= k < front.len() ==> front[k] == ranges[k]);
        lemma_merged_covers(front, bound);
        let before = merged(front);
        let now = merged(ranges);
        let current = before.last();
        assert(current.end == front.last().end);
        assert(ranges[ranges.len() - 2].end <= ranges[ranges.len() - 1].start);
        assert(current.end <= r.start);
        if r.start <= current.end {
            assert(forall|k: int| 0 <= k < before.len() - 1 ==> now[k] == before[k]);
            assert(now.len() == before.len());
            assert(now.last().start == current.start && now.last().end == r.end);
            assert forall|p: int| in_ranges(now, p) <==> in_ranges(ranges, p) by {
                if in_ranges(now, p) {
                    let k = choose|k: int|
                        0 <= k < now.len() && (#[trigger] now[k]).start <= p < now[k].end;
                    if k < before.len() - 1 || p < current.end {
                        assert(before[k].start <= p < before[k].end);
                        assert(in_ranges(front, p));
                        let j = choose|j: int|
                            0 <= j < front.len() && (#[trigger] front[j]).start <= p < front[j].end;
                        assert(ranges[j].start <= p < ranges[j].end);
                    } else {
                        assert(ranges[ranges.len() - 1].start <= p < ranges[ranges.len() - 1].end);
                    }
                }
                if in_ranges(ranges, p) {
                    let k = choose|k: int|
                        0 <= k < ranges.len() && (#[trigger] ranges[k]).start <= p < ranges[k].end;
                    if k < front.len() {
                        assert(front[k].start <= p < front[k].end);
                        assert(in_ranges(front, p));
                        assert(in_ranges(before, p));
                        let j = choose|j: int|
                            0 <= j < before.len() && (#[trigger] before[j]).start <= p
                                < before[j].end;
                        assert(now[j].start <= p < now[j].end);
                    } else {
                        assert(now[now.len() - 1].start <= p < now[now.len() - 1].end);
                    }
                }
            }
        } else {
            assert(forall|k: int| 0 <= k < before.len() ==> now[k] == before[k]);
            assert(now.len() == before.len() + 1);
            assert forall|j: int, k: int| 0 <= j < k < now.len() implies (#[trigger] now[j]).end
                < (#[trigger] now[k]).start by {
                if k == before.len() {
                    if j < before.len() - 1 {
                        assert(before[j].end < before[before.len() - 1].start);
                    }
                }
            }
            assert forall|p: int| in_ranges(now, p) <==> in_ranges(ranges, p) by {
                if in_ranges(now, p) {
                    let k = choose|k: int|
                        0 <= k < now.len() && (#[trigger] now[k]).start <= p < now[k].end;
                    if k < before.len() {
                        assert(before[k].start <= p < before[k].end);
                        assert(in_ranges(front, p));
                        let j = choose|j: int|
                            0 <= j < front.len() && (#[trigger] front[j]).start <= p < front[j].end;
                        assert(ranges[j].start <= p < ranges[j].end);
                    } else {
                        assert(ranges[ranges.len() - 1].start <= p < ranges[ranges.len() - 1].end);
                    }
                }
                if in_ranges(ranges, p) {
                    let k = choose|k: int|
                        0 <= k < ranges.len() && (#[trigger] ranges[k]).start <= p < ranges[k].end;
                    if k < front.len() {
                        assert(front[k].start <= p < front[k].end);
                        assert(in_ranges(front, p));
                        assert(in_ranges(before, p));
                        let j = choose|j: int|
                            0 <= j < before.len() && (#[trigger] before[j]).start <= p
                                < before[j].end;
                        assert(now[j].start <= p < now[j].end);
                    } else {
                        assert(now[now.len() - 1].start <= p < now[now.len() - 1].end);
                    }
                }
            }
        }
    }
}

proof fn lemma_outside_same(s: Seq<char>, a: Seq<InlineRange>, b: Seq<InlineRange>)
    requires
        forall|p: int| 0 <= p < byte_len(s) ==> (#[trigger] in_ranges(a, p) <==> in_ranges(b, p)),
    ensures
        outside(s, a) == outside(s, b),
    decreases s.len(),
{
    if s.len() > 0 {
        lemma_outside_same(s.drop_last(), a, b);
        assert(in_ranges(a, byte_len(s.drop_last()) as int) <==> in_ranges(
            b,
            byte_len(s.drop_last()) as int,
        ));
    }
}

proof fn lemma_outside_concat(s: Seq<char>, t: Seq<char>, ranges: Seq<InlineRange>, gone: bool)
    requires
        forall|p: int|
            byte_len(s) <= p < byte_len(s) + byte_len(t) ==> #[trigger] in_ranges(ranges, p) == gone,
    ensures
        outside(s + t, ranges) == outside(s, ranges) + (if gone {
            Seq::empty()
        } else {
            t
        }),
    decreases t.len(),
{
    if t.len() == 0 {
        assert(s + t =~= s);
        assert(outside(s, ranges) + Seq::<char>::empty() =~= outside(s, ranges));
    } else {
        let u = t.drop_last();
        lemma_outside_concat(s, u, ranges, gone);
        assert((s + t).drop_last() =~= s + u);
        assert((s + t).last() == t.last());
        lemma_byte_len_concat(s, u);
        assert(in_ranges(ranges, byte_len(s + u) as int) == gone);
        assert(outside(s + t, ranges) =~= outside(s, ranges) + (if gone {
            Seq::empty()
        } else {
            t
        }));
    }
}

proof fn lemma_outside_changes(changes: Seq<(ChangeKind, Seq<char>)>, side: ChangeKind)
    requires
        side != ChangeKind::Equal,
        byte_len(text_with(changes, side)) <= usize::MAX,
    ensures
        outside(text_with(changes, side), changed_ranges(changes, side)) == text_with(
            changes,
            ChangeKind::Equal,
        ),
    decreases changes.len(),
{
    if changes.len() > 0 {
        let front = changes.drop_last();
        let (kind, value) = changes.last();
        let t = text_with(front, side);
        let before = changed_ranges(front, side);
        let now = changed_ranges(changes, side);
        lemma_byte_len_concat(t, value);
        lemma_outside_changes(front, side);
        lemma_changed_ranges_in_order(front, side);
        if kind == ChangeKind::Equal {
            assert forall|p: int| byte_len(t) <= p < byte_len(t) + byte_len(value) implies
                #[trigger] in_ranges(now, p) == false by {}
            lemma_outside_concat(t, value, now, false);
        } else if kind == side {
            if byte_len(value) > 0 {
                assert(now == before.push(now.last()));
                assert forall|p: int| 0 <= p < byte_len(t) implies (#[trigger] in_ranges(now, p)
                    <==> in_ranges(before, p)) by {
                    if in_ranges(before, p) {
                        let k = choose|k: int|
                            0 <= k < before.len() && (#[trigger] before[k]).start <= p
                                < before[k].end;
                        assert(now[k].start <= p < now[k].end);
                    }
                    if in_ranges(now, p) {
                        let k = choose|k: int|
                            0 <= k < now.len() && (#[trigger] now[k]).start <= p < now[k].end;
                        assert(before[k].start <= p < before[k].end);
                    }
                }
                lemma_outside_same(t, now, before);
                assert forall|p: int| byte_len(t) <= p < byte_len(t) + byte_len(value) implies
                    #[trigger] in_ranges(now, p) == true by {
                    assert(now[before.len() as int].start <= p < now[before.len() as int].end);
                }
                lemma_outside_concat(t, value, now, true);
                assert(outside(t, now) + Seq::<char>::empty() =~= outside(t, now));
            } else {
                lemma_outside_concat(t, value, now, true);
                assert(outside(t, now) + Seq::<char>::empty() =~= outside(t, now));
            }
        }
    }
}

/// What the ranges of two compared lines leave out is the text that the lines
/// have in common.
pub proof fn law_common_text(changes: Seq<(ChangeKind, Seq<char>)>)
    requires
        byte_len(text_with(changes, ChangeKind::Delete)) <= usize::MAX,
        byte_len(text_with(changes, ChangeKind::Insert)) <= usize::MAX,
    ensures
        outside(
            text_with(changes, ChangeKind::Delete),
            inline_ranges_of(changes, ChangeKind::Delete),
        ) == text_with(changes, ChangeKind::Equal),
        outside(
            text_with(changes, ChangeKind::Insert),
            inline_ranges_of(changes, ChangeKind::Insert),
        ) == text_with(changes, ChangeKind::Equal),
{
    lemma_common_text_of(changes, ChangeKind::Delete);
    lemma_common_text_of(changes, ChangeKind::Insert);
}

proof fn lemma_common_text_of(changes: Seq<(ChangeKind, Seq<char>)>, side: ChangeKind)
    requires
        side != ChangeKind::Equal,
        byte_len(text_with(changes, side)) <= usize::MAX,
    ensures
        outside(text_with(changes, side), inline_ranges_of(changes, side)) == text_with(
            changes,
            ChangeKind::Equal,
        ),
{
    let bound = byte_len(text_with(changes, side)) as int;
    let ranges = changed_ranges(changes, side);
    lemma_changed_ranges_in_order(changes, side);
    lemma_sorted_in_order(ranges, bound);
    lemma_merged_covers(ranges, bound);
    lemma_outside_changes(changes, side);
    lemma_outside_same(text_with(changes, side), merged(ranges), ranges);
}

/// The ranges of a line are in order, lie within the line, are not empty, and
/// leave a gap between neighbours.
pub proof fn law_ranges_apart(changes: Seq<(ChangeKind, Seq<char>)>, side: ChangeKind)
    requires
        byte_len(text_with(changes, side)) <= usize::MAX,
    ensures
        in_order(inline_ranges_of(changes, side), byte_len(text_with(changes, side)) as int),
        forall|j: int, k: int|
            0 <= j < k < inline_ranges_of(changes, side).len() ==> (#[trigger] inline_ranges_of(
                changes,
                side,
            )[j]).end < (#[trigger] inline_ranges_of(changes, side)[k]).start,
{
    let bound = byte_len(text_with(changes, side)) as int;
    let ranges = changed_ranges(changes, side);
    lemma_changed_ranges_in_order(changes, side);
    lemma_sorted_in_order(ranges, bound);
    lemma_merged_covers(ranges, bound);
}

/// No line is in two pairs.
pub proof fn law_pairs_disjoint(ranked: Seq<Candidate>)
    ensures
        forall|j: int, k: int|
            0 <= j < k < pairs_of(ranked).len() ==> (#[trigger] pairs_of(ranked)[j]).0
                != (#[trigger] pairs_of(ranked)[k]).0 && pairs_of(ranked)[j].1 != pairs_of(
                ranked,
            )[k].1,
    decreases ranked.len(),
{
    if ranked.len() > 0 {
        law_pairs_disjoint(ranked.drop_last());
        let before = pairs_of(ranked.drop_last());
        let now = pairs_of(ranked);
        let c = ranked.last();
        if !taken(before, c) {
            assert forall|j: int, k: int| 0 <= j < k < now.len() implies (#[trigger] now[j]).0 != (
            #[trigger] now[k]).0 && now[j].1 != now[k].1 by {
                assert(now[j] == before[j]);
                if k < before.len() {
                    assert(now[k] == before[k]);
                }
            }
        }
    }
}

/// Every line has its list of ranges, and a context line has none.
pub proof fn law_intraline_shape(lines: Seq<DiffLineV>)
    ensures
        intraline(lines).len() == lines.len(),
        forall|k: int|
            0 <= k < lines.len() && lines[k].kind == LineKind::Context ==> (#[trigger] intraline(
                lines,
            )[k]).len() == 0,
{
    lemma_intraline_shape(lines, 0);
}

proof fn lemma_intraline_shape(lines: Seq<DiffLineV>, i: int)
    requires
        0 <= i <= lines.len(),
    ensures
        intraline_from(lines, i).len() == lines.len() - i,
        forall|k: int|
            0 <= k < lines.len() - i && lines[i + k].kind == LineKind::Context ==> (
            #[trigger] intraline_from(lines, i)[k]).len() == 0,
    decreases lines.len() - i,
{
    if i < lines.len() {
        if lines[i].kind == LineKind::Deletion {
            let add_start = run_end(lines, LineKind::Deletion, i);
            let end = run_end(lines, LineKind::Addition, add_start);
            lemma_run_end(lines, LineKind::Deletion, i);
            lemma_run_end(lines, LineKind::Addition, add_start);
            lemma_intraline_shape(lines, end);
            let now = intraline_from(lines, i);
            assert forall|k: int|
                0 <= k < lines.len() - i && lines[i + k].kind == LineKind::Context implies (
            #[trigger] now[k]).len() == 0 by {
                if i + k < end {
                    assert(lines[i + k].kind != LineKind::Context);
                } else {
                    assert(now[k] == intraline_from(lines, end)[k - (end - i)]);
                    assert(lines[end + (k - (end - i))].kind == LineKind::Context);
                }
            }
        } else {
            lemma_intraline_shape(lines, i + 1);
            let now = intraline_from(lines, i);
            assert forall|k: int|
                0 <= k < lines.len() - i && lines[i + k].kind == LineKind::Context implies (
            #[trigger] now[k]).len() == 0 by {
                if k > 0 {
                    assert(now[k] == intraline_from(lines, i + 1)[k - 1]);
                    assert(lines[(i + 1) + (k - 1)].kind == LineKind::Context);
                }
            }
        }
    }
}

// ---------------------------------------------------------------------------
// Which lines are paired
// ---------------------------------------------------------------------------
/// Whether `s..m` is a whole run of deletions and `m..e` the whole run of
/// additions behind it.
pub open spec fn is_block(lines: Seq<DiffLineV>, s: int, m: int, e: int) -> bool {
    &&& 0 <= s < m <= e <= lines.len()
    &&& forall|k: int| s <= k < m ==> (#[trigger] lines[k]).kind == LineKind::Deletion
    &&& forall|k: int| m <= k < e ==> (#[trigger] lines[k]).kind == LineKind::Addition
    &&& s > 0 ==> lines[s - 1].kind != LineKind::Deletion
    &&& m < lines.len() ==> lines[m].kind != LineKind::Deletion
    &&& e < lines.len() ==> lines[e].kind != LineKind::Addition
}

proof fn lemma_run_end_is(lines: Seq<DiffLineV>, kind: LineKind, i: int, end: int)
    requires
        0 <= i <= end <= lines.len(),
        forall|k: int| i <= k < end ==> (#[trigger] lines[k]).kind == kind,
        end < lines.len() ==> lines[end].kind != kind,
    ensures
        run_end(lines, kind, i) == end,
    decreases end - i,
{
    if i < end {
        assert(lines[i].kind == kind);
        lemma_run_end_is(lines, kind, i + 1, end);
    }
}

/// The ranges of a block are found at its start.
proof fn lemma_at_block(lines: Seq<DiffLineV>, i: int, s: int, k: int)
    requires
        0 <= i <= s < lines.len(),
        lines[s].kind == LineKind::Deletion,
        s > 0 ==> lines[s - 1].kind != LineKind::Deletion,
        0 <= k < lines.len() - s,
        i == 0 || lines[i - 1].kind != LineKind::Deletion || lines[i].kind != LineKind::Deletion,
    ensures
        intraline_from(lines, i)[s - i + k] == intraline_from(lines, s)[k],
    decreases s - i,
{
    lemma_intraline_shape(lines, s);
    if i < s {
        if lines[i].kind == LineKind::Deletion {
            let add_start = run_end(lines, LineKind::Deletion, i);
            let end = run_end(lines, LineKind::Addition, add_start);
            lemma_run_end(lines, LineKind::Deletion, i);
            lemma_run_end(lines, LineKind::Addition, add_start);
            lemma_run_stops(lines, LineKind::Deletion, i);
            assert(s >= add_start) by {
                if s < add_start {
                    assert(lines[s - 1].kind == LineKind::Deletion);
                }
            }
            assert(s >= end) by {
                if s < end {
                    assert(lines[s].kind == LineKind::Addition);
                }
            }
            if end > add_start {
                assert(lines[end - 1].kind == LineKind::Addition);
            }
            lemma_at_block(lines, end, s, k);
            lemma_intraline_shape(lines, end);
            let now = intraline_from(lines, i);
            assert(now[s - i + k] == intraline_from(lines, end)[s - end + k]);
        } else {
            lemma_at_block(lines, i + 1, s, k);
            lemma_intraline_shape(lines, i + 1);
            let now = intraline_from(lines, i);
            assert(now[s - i + k] == intraline_from(lines, i + 1)[s - (i + 1) + k]);
        }
    }
}

proof fn lemma_run_stops(lines: Seq<DiffLineV>, kind: LineKind, i: int)
    requires
        0 <= i <= lines.len(),
    ensures
        run_end(lines, kind, i) < lines.len() ==> lines[run_end(lines, kind, i)].kind != kind,
    decreases lines.len() - i,
{
    if i < lines.len() && lines[i].kind == kind {
        lemma_run_stops(lines, kind, i + 1);
    }
}

/// Whether a candidate is that of a deleted and an added line.
spec fn is_candidate(lines: Seq<DiffLineV>, s: int, m: int, c: Candidate, d: int, a: int) -> bool {
    &&& c.deleted == d
    &&& c.added == a
    &&& c.score == similarity_bits(lines[d].content, lines[a].content)
    &&& c.distance == (if d - s >= a - m {
        (d - s) - (a - m)
    } else {
        (a - m) - (d - s)
    })
}

proof fn lemma_line_candidates(lines: Seq<DiffLineV>, s: int, m: int, d: int, n: int)
    requires
        0 <= s <= d < m,
        0 <= n,
        m + n <= lines.len() <= usize::MAX,
    ensures
        ({
            let v = line_candidates(lines, s, m, d, n);
            &&& forall|k: int|
                0 <= k < v.len() ==> {
                    &&& m <= (#[trigger] v[k]).added < m + n
                    &&& is_candidate(lines, s, m, v[k], d, v[k].added as int)
                    &&& v[k].score >= 0x3f19999au32
                }
            &&& forall|a: int|
                m <= a < m + n && #[trigger] similarity_bits(lines[d].content, lines[a].content)
                    >= 0x3f19999au32 ==> exists|k: int|
                    0 <= k < v.len() && is_candidate(lines, s, m, #[trigger] v[k], d, a)
        }),
    decreases n,
{
    if n > 0 {
        lemma_line_candidates(lines, s, m, d, n - 1);
        let before = line_candidates(lines, s, m, d, n - 1);
        let v = line_candidates(lines, s, m, d, n);
        assert forall|k: int| 0 <= k < v.len() implies {
            &&& m <= (#[trigger] v[k]).added < m + n
            &&& is_candidate(lines, s, m, v[k], d, v[k].added as int)
            &&& v[k].score >= 0x3f19999au32
        } by {
            if k < before.len() {
                assert(v[k] == before[k]);
            }
        }
        assert forall|a: int|
            m <= a < m + n && #[trigger] similarity_bits(lines[d].content, lines[a].content)
                >= 0x3f19999au32 implies exists|k: int|
            0 <= k < v.len() && is_candidate(lines, s, m, #[trigger] v[k], d, a) by {
            if a < m + n - 1 {
                let k = choose|k: int|
                    0 <= k < before.len() && is_candidate(lines, s, m, #[trigger] before[k], d, a);
                assert(v[k] == before[k]);
            } else {
                assert(is_candidate(lines, s, m, v[before.len() as int], d, a));
            }
        }
    }
}

proof fn lemma_run_candidates(lines: Seq<DiffLineV>, s: int, m: int, e: int, n: int)
    requires
        0 <= s <= m <= e <= lines.len() <= usize::MAX,
        0 <= n <= m - s,
    ensures
        ({
            let v = run_candidates(lines, s, m, e, n);
            &&& forall|k: int|
                0 <= k < v.len() ==> {
                    &&& s <= (#[trigger] v[k]).deleted < s + n
                    &&& m <= v[k].added < e
                    &&& is_candidate(lines, s, m, v[k], v[k].deleted as int, v[k].added as int)
                    &&& v[k].score >= 0x3f19999au32
                }
            &&& forall|d: int, a: int|
                s <= d < s + n && m <= a < e && #[trigger] similarity_bits(
                    lines[d].content,
                    lines[a].content,
                ) >= 0x3f19999au32 ==> exists|k: int|
                    0 <= k < v.len() && is_candidate(lines, s, m, #[trigger] v[k], d, a)
        }),
    decreases n,
{
    if n > 0 {
        lemma_run_candidates(lines, s, m, e, n - 1);
        lemma_line_candidates(lines, s, m, s + n - 1, e - m);
        let before = run_candidates(lines, s, m, e, n - 1);
        let more = line_candidates(lines, s, m, s + n - 1, e - m);
        let v = run_candidates(lines, s, m, e, n);
        assert forall|k: int| 0 <= k < v.len() implies {
            &&& s <= (#[trigger] v[k]).deleted < s + n
            &&& m <= v[k].added < e
            &&& is_candidate(lines, s, m, v[k], v[k].deleted as int, v[k].added as int)
            &&& v[k].score >= 0x3f19999au32
        } by {
            if k < before.len() {
                assert(v[k] == before[k]);
            } else {
                assert(v[k] == more[k - before.len()]);
            }
        }
        assert forall|d: int, a: int|
            s <= d < s + n && m <= a < e && #[trigger] similarity_bits(
                lines[d].content,
                lines[a].content,
            ) >= 0x3f19999au32 implies exists|k: int|
            0 <= k < v.len() && is_candidate(lines, s, m, #[trigger] v[k], d, a) by {
            if d < s + n - 1 {
                let k = choose|k: int|
                    0 <= k < before.len() && is_candidate(lines, s, m, #[trigger] before[k], d, a);
                assert(v[k] == before[k]);
            } else {
                let k = choose|k: int|
                    0 <= k < more.len() && is_candidate(lines, s, m, #[trigger] more[k], d, a);
                assert(v[before.len() + k] == more[k]);
            }
        }
    }
}

/// Whether pair `j` is made of the lines of candidate `k`.
spec fn came_from(ranked: Seq<Candidate>, j: int, k: int) -> bool {
    &&& 0 <= k < ranked.len()
    &&& pairs_of(ranked)[j] == (ranked[k].deleted as int, ranked[k].added as int)
}

/// Each pair comes from a candidate.
proof fn lemma_pair_source(ranked: Seq<Candidate>, j: int) -> (k: int)
    requires
        0 <= j < pairs_of(ranked).len(),
    ensures
        came_from(ranked, j, k),
    decreases ranked.len(),
{
    let front = ranked.drop_last();
    let before = pairs_of(front);
    if j < before.len() {
        let k = lemma_pair_source(front, j);
        assert(pairs_of(ranked)[j] == before[j]);
        assert(ranked[k] == front[k]);
        k
    } else {
        ranked.len() - 1
    }
}

/// Each candidate is a pair, or shares a line with a pair that comes from a
/// candidate before it.
proof fn lemma_greedy(ranked: Seq<Candidate>, k: int) -> (r: (int, int))
    requires
        0 <= k < ranked.len(),
    ensures
        0 <= r.0 < pairs_of(ranked).len(),
        0 <= r.1 <= k,
        came_from(ranked, r.0, r.1),
        pairs_of(ranked)[r.0].0 == ranked[k].deleted || pairs_of(ranked)[r.0].1 == ranked[k].added,
    decreases ranked.len(),
{
    let front = ranked.drop_last();
    let before = pairs_of(front);
    let now = pairs_of(ranked);
    let c = ranked.last();
    if k < ranked.len() - 1 {
        let (j, i) = lemma_greedy(front, k);
        assert(now[j] == before[j]);
        assert(ranked[i] == front[i]);
        assert(ranked[k] == front[k]);
        (j, i)
    } else if taken(before, c) {
        let j = choose|j: int|
            0 <= j < before.len() && ((#[trigger] before[j]).0 == c.deleted || before[j].1
                == c.added);
        let i = lemma_pair_source(front, j);
        assert(ranked[i] == front[i]);
        (j, i)
    } else {
        (before.len() as int, k)
    }
}

proof fn lemma_ranges_of_pair(lines: Seq<DiffLineV>, pairs: Seq<(int, int)>, j: int)
    requires
        0 <= j < pairs.len(),
        forall|i: int, k: int|
            0 <= i < k < pairs.len() ==> (#[trigger] pairs[i]).0 != (#[trigger] pairs[k]).0
                && pairs[i].1 != pairs[k].1,
        forall|i: int, k: int|
            0 <= i < pairs.len() && 0 <= k < pairs.len() ==> (#[trigger] pairs[i]).0 != (
            #[trigger] pairs[k]).1,
    ensures
        ranges_in_pairs(lines, pairs, pairs[j].0) == inline_ranges_of(
            char_diff(lines[pairs[j].0].content, lines[pairs[j].1].content),
            ChangeKind::Delete,
        ),
        ranges_in_pairs(lines, pairs, pairs[j].1) == inline_ranges_of(
            char_diff(lines[pairs[j].0].content, lines[pairs[j].1].content),
            ChangeKind::Insert,
        ),
    decreases pairs.len(),
{
    let n = pairs.len() - 1;
    assert(pairs[j].0 != pairs[j].1);
    if j < n {
        let front = pairs.drop_last();
        assert(forall|i: int| 0 <= i < front.len() ==> front[i] == pairs[i]);
        lemma_ranges_of_pair(lines, front, j);
        assert(pairs[n] == pairs.last());
        assert(pairs[j].0 != pairs[n].0 && pairs[j].1 != pairs[n].1);
        assert(pairs[j].0 != pairs[n].1 && pairs[n].0 != pairs[j].1);
    }
}

proof fn lemma_ranges_of_none(lines: Seq<DiffLineV>, pairs: Seq<(int, int)>, i: int)
    requires
        forall|j: int| 0 <= j < pairs.len() ==> (#[trigger] pairs[j]).0 != i && pairs[j].1 != i,
    ensures
        ranges_in_pairs(lines, pairs, i).len() == 0,
    decreases pairs.len(),
{
    if pairs.len() > 0 {
        let front = pairs.drop_last();
        assert(forall|j: int| 0 <= j < front.len() ==> front[j] == pairs[j]);
        assert(pairs[pairs.len() - 1] == pairs.last());
        lemma_ranges_of_none(lines, front, i);
    }
}

/// Whether a couple gives way to a pair that shares a line with it: the pair is
/// more alike; or as alike and closer together within the runs; or else it comes
/// earlier.
pub open spec fn gives_way(lines: Seq<DiffLineV>, s: int, m: int, pair: (int, int), d: int, a: int) -> bool {
    let (x, y) = pair;
    let ours = similarity_bits(lines[x].content, lines[y].content);
    let theirs = similarity_bits(lines[d].content, lines[a].content);
    let near = if x - s >= y - m {
        (x - s) - (y - m)
    } else {
        (y - m) - (x - s)
    };
    let far = if d - s >= a - m {
        (d - s) - (a - m)
    } else {
        (a - m) - (d - s)
    };
    &&& x == d || y == a
    &&& ours > theirs || (ours == theirs && (near < far || (near == far && (x < d || (x == d && y
        < a)))))
}

proof fn lemma_same_items(a: Seq<Candidate>, b: Seq<Candidate>, k: int) -> (i: int)
    requires
        a.to_multiset() == b.to_multiset(),
        0 <= k < a.len(),
    ensures
        0 <= i < b.len(),
        b[i] == a[k],
{
    broadcast use group_to_multiset_ensures;

    assert(a.contains(a[k]));
    assert(a.to_multiset().count(a[k]) > 0);
    assert(b.to_multiset().count(a[k]) > 0);
    assert(b.contains(a[k]));
    choose|i: int| 0 <= i < b.len() && b[i] == a[k]
}

proof fn lemma_gives_way(lines: Seq<DiffLineV>, s: int, m: int, e: int, d: int, a: int) -> (j: int)
    requires
        0 <= s <= d < m <= a < e <= lines.len() <= usize::MAX,
        similarity_bits(lines[d].content, lines[a].content) >= 0x3f19999au32,
        !run_pairs(lines, s, m, e).contains((d, a)),
    ensures
        0 <= j < run_pairs(lines, s, m, e).len(),
        gives_way(lines, s, m, run_pairs(lines, s, m, e)[j], d, a),
{
    let found = run_candidates(lines, s, m, e, m - s);
    let leq = |x: Candidate, y: Candidate| ranks(x, y);
    let ranked = found.sort_by(leq);
    let pairs = run_pairs(lines, s, m, e);
    lemma_run_candidates(lines, s, m, e, m - s);
    lemma_ranks_total();
    found.lemma_sort_by_ensures(leq);
    let i = choose|i: int|
        0 <= i < found.len() && is_candidate(lines, s, m, #[trigger] found[i], d, a);
    let c = found[i];
    let k = lemma_same_items(found, ranked, i);
    let (j, g) = lemma_greedy(ranked, k);
    let w = ranked[g];
    let f = lemma_same_items(ranked, found, g);
    assert(is_candidate(lines, s, m, found[f], found[f].deleted as int, found[f].added as int));
    assert(pairs[j] == (w.deleted as int, w.added as int));
    if w.deleted == c.deleted && w.added == c.added {
        assert(pairs[j] == (d, a));
        assert(pairs.contains((d, a)));
    }
    assert(g != k);
    assert(leq(ranked[g], ranked[k]));
    assert(ranks(w, c));
    j
}

proof fn lemma_pairs_alike(lines: Seq<DiffLineV>, s: int, m: int, e: int)
    requires
        0 <= s <= m <= e <= lines.len() <= usize::MAX,
    ensures
        forall|j: int|
            0 <= j < run_pairs(lines, s, m, e).len() ==> s <= (#[trigger] run_pairs(
                lines,
                s,
                m,
                e,
            )[j]).0 < m <= run_pairs(lines, s, m, e)[j].1 < e && similarity_bits(
                lines[run_pairs(lines, s, m, e)[j].0].content,
                lines[run_pairs(lines, s, m, e)[j].1].content,
            ) >= 0x3f19999au32,
        forall|j: int, k: int|
            0 <= j < k < run_pairs(lines, s, m, e).len() ==> (#[trigger] run_pairs(
                lines,
                s,
                m,
                e,
            )[j]).0 != (#[trigger] run_pairs(lines, s, m, e)[k]).0 && run_pairs(
                lines,
                s,
                m,
                e,
            )[j].1 != run_pairs(lines, s, m, e)[k].1,
{
    let found = run_candidates(lines, s, m, e, m - s);
    let leq = |x: Candidate, y: Candidate| ranks(x, y);
    let ranked = found.sort_by(leq);
    let pairs = run_pairs(lines, s, m, e);
    lemma_run_candidates(lines, s, m, e, m - s);
    lemma_ranks_total();
    found.lemma_sort_by_ensures(leq);
    law_pairs_disjoint(ranked);
    assert forall|j: int| 0 <= j < pairs.len() implies s <= (#[trigger] pairs[j]).0 < m
        <= pairs[j].1 < e && similarity_bits(
        lines[pairs[j].0].content,
        lines[pairs[j].1].content,
    ) >= 0x3f19999au32 by {
        let k = lemma_pair_source(ranked, j);
        let i = lemma_same_items(ranked, found, k);
        assert(is_candidate(lines, s, m, found[i], found[i].deleted as int, found[i].added as int));
    }
}

proof fn lemma_stable(lines: Seq<DiffLineV>, s: int, m: int, e: int)
    requires
        0 <= s <= m <= e <= lines.len() <= usize::MAX,
    ensures
        forall|d: int, a: int|
            s <= d < m && m <= a < e && #[trigger] similarity_bits(
                lines[d].content,
                lines[a].content,
            ) >= 0x3f19999au32 && !run_pairs(lines, s, m, e).contains((d, a)) ==> exists|j: int|
                0 <= j < run_pairs(lines, s, m, e).len() && gives_way(
                    lines,
                    s,
                    m,
                    #[trigger] run_pairs(lines, s, m, e)[j],
                    d,
                    a,
                ),
{
    assert forall|d: int, a: int|
        s <= d < m && m <= a < e && #[trigger] similarity_bits(lines[d].content, lines[a].content)
            >= 0x3f19999au32 && !run_pairs(lines, s, m, e).contains((d, a)) implies exists|j: int|
        0 <= j < run_pairs(lines, s, m, e).len() && gives_way(
            lines,
            s,
            m,
            #[trigger] run_pairs(lines, s, m, e)[j],
            d,
            a,
        ) by {
        let j = lemma_gives_way(lines, s, m, e, d, a);
        assert(gives_way(lines, s, m, run_pairs(lines, s, m, e)[j], d, a));
    }
}

proof fn lemma_block_ranges(lines: Seq<DiffLineV>, s: int, m: int, e: int)
    requires
        is_block(lines, s, m, e),
        lines.len() <= usize::MAX,
    ensures
        forall|j: int|
            0 <= j < run_pairs(lines, s, m, e).len() ==> {
                let (d, a) = #[trigger] run_pairs(lines, s, m, e)[j];
                let changes = char_diff(lines[d].content, lines[a].content);
                &&& intraline(lines)[d] == inline_ranges_of(changes, ChangeKind::Delete)
                &&& intraline(lines)[a] == inline_ranges_of(changes, ChangeKind::Insert)
            },
        forall|i: int|
            s <= i < e && (forall|j: int|
                0 <= j < run_pairs(lines, s, m, e).len() ==> (#[trigger] run_pairs(
                    lines,
                    s,
                    m,
                    e,
                )[j]).0 != i && run_pairs(lines, s, m, e)[j].1 != i) ==> (#[trigger] intraline(
                lines,
            )[i]).len() == 0,
{
    lemma_run_end_is(lines, LineKind::Deletion, s, m);
    lemma_run_end_is(lines, LineKind::Addition, m, e);
    assert(lines[s].kind == LineKind::Deletion);
    let pairs = run_pairs(lines, s, m, e);
    lemma_pairs_alike(lines, s, m, e);
    assert forall|i: int| s <= i < e implies #[trigger] intraline(lines)[i] == ranges_in_pairs(
        lines,
        pairs,
        i,
    ) by {
        lemma_at_block(lines, 0, s, i - s);
    }
    assert forall|j: int| 0 <= j < pairs.len() implies {
        let (d, a) = #[trigger] pairs[j];
        let changes = char_diff(lines[d].content, lines[a].content);
        &&& intraline(lines)[d] == inline_ranges_of(changes, ChangeKind::Delete)
        &&& intraline(lines)[a] == inline_ranges_of(changes, ChangeKind::Insert)
    } by {
        lemma_ranges_of_pair(lines, pairs, j);
        assert(s <= pairs[j].0 < e && s <= pairs[j].1 < e);
    }
    assert forall|i: int|
        s <= i < e && (forall|j: int|
            0 <= j < pairs.len() ==> (#[trigger] pairs[j]).0 != i && pairs[j].1 != i) implies (
    #[trigger] intraline(lines)[i]).len() == 0 by {
        lemma_ranges_of_none(lines, pairs, i);
    }
}

/// The deleted and the added lines of a block that are compared with each other.
/// No line is compared with two others. Lines are compared only if they are alike
/// at all: 0.6 and more. Two such lines that are not compared with each other
/// give way to a pair that one of them is in: that pair is more alike; or as
/// alike and closer together within the runs; or else it comes earlier. The
/// changed ranges of a line are those of the comparison, and a line that is
/// compared with none has no ranges.
pub proof fn law_most_alike_are_paired(lines: Seq<DiffLineV>, s: int, m: int, e: int) -> (pairs:
    Seq<(int, int)>)
    requires
        is_block(lines, s, m, e),
        lines.len() <= usize::MAX,
    ensures
        forall|j: int|
            0 <= j < pairs.len() ==> s <= (#[trigger] pairs[j]).0 < m <= pairs[j].1 < e
                && similarity_bits(lines[pairs[j].0].content, lines[pairs[j].1].content)
                >= 0x3f19999au32,
        forall|j: int, k: int|
            0 <= j < k < pairs.len() ==> (#[trigger] pairs[j]).0 != (#[trigger] pairs[k]).0
                && pairs[j].1 != pairs[k].1,
        forall|d: int, a: int|
            s <= d < m && m <= a < e && #[trigger] similarity_bits(
                lines[d].content,
                lines[a].content,
            ) >= 0x3f19999au32 && !pairs.contains((d, a)) ==> exists|j: int|
                0 <= j < pairs.len() && gives_way(lines, s, m, #[trigger] pairs[j], d, a),
        forall|j: int|
            0 <= j < pairs.len() ==> {
                let (d, a) = #[trigger] pairs[j];
                let changes = char_diff(lines[d].content, lines[a].content);
                &&& intraline(lines)[d] == inline_ranges_of(changes, ChangeKind::Delete)
                &&& intraline(lines)[a] == inline_ranges_of(changes, ChangeKind::Insert)
            },
        forall|i: int|
            s <= i < e && (forall|j: int|
                0 <= j < pairs.len() ==> (#[trigger] pairs[j]).0 != i && pairs[j].1 != i) ==> (
            #[trigger] intraline(lines)[i]).len() == 0,
{
    lemma_pairs_alike(lines, s, m, e);
    lemma_stable(lines, s, m, e);
    lemma_block_ranges(lines, s, m, e);
    run_pairs(lines, s, m, e)
}

} // verus!
