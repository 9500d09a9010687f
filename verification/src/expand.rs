//! The expanded view: a whole file, with the changes of its diff marked and the
//! deleted lines in their places.
use std::collections::HashMap;
use std::collections::HashSet;
use vstd::prelude::*;

use crate::diff::{
    hunk_views, line_views, DiffHunk, DiffHunkV, DiffLine, DiffLineV, HighlightRange,
    InlineRange, LineKind,
};
use crate::display::{
    add_annotations_for_line, display_views, line_index, map_views, push_line, Build, BuildV,
    DisplayLine, DisplayLineV,
};
use crate::intraline::{compute_intraline_ranges, intraline, law_intraline_shape, range_views};
use crate::text::texts;

verus! {

/// A deleted line: the new line that it stands behind, its old number and its
/// text.
#[derive(Debug)]
pub struct Deletion {
    pub after: u32,
    pub old_no: u32,
    pub content: String,
}

/// The value of a [`Deletion`].
#[verifier::ext_equal]
pub struct DeletionV {
    pub after: u32,
    pub old_no: u32,
    pub content: Seq<char>,
}

impl View for Deletion {
    type V = DeletionV;

    open spec fn view(&self) -> DeletionV {
        DeletionV { after: self.after, old_no: self.old_no, content: self.content@ }
    }
}

/// The values of a list of deletions.
pub open spec fn deletion_views(list: Seq<Deletion>) -> Seq<DeletionV> {
    Seq::new(list.len(), |i: int| list[i]@)
}

/// The number of the last new line among the first `n` lines of a hunk, or the
/// one above the hunk.
pub open spec fn last_new(hunk: DiffHunkV, n: int) -> u32
    decreases n,
{
    if n <= 0 {
        if hunk.new_start == 0 {
            0
        } else {
            (hunk.new_start - 1) as u32
        }
    } else {
        let line = hunk.lines[n - 1];
        match line.new_line_no {
            Some(no) if line.kind != LineKind::Deletion => no,
            _ => last_new(hunk, n - 1),
        }
    }
}

/// The deletions among the first `n` lines of a hunk.
pub open spec fn hunk_deletions(hunk: DiffHunkV, n: int) -> Seq<DeletionV>
    decreases n,
{
    if n <= 0 {
        Seq::empty()
    } else {
        let before = hunk_deletions(hunk, n - 1);
        let line = hunk.lines[n - 1];
        match line.old_line_no {
            Some(old_no) if line.kind == LineKind::Deletion => before.push(
                DeletionV { after: last_new(hunk, n - 1), old_no, content: line.content },
            ),
            _ => before,
        }
    }
}

/// The deletions of the first `m` hunks.
pub open spec fn deletions_of(hunks: Seq<DiffHunkV>, m: int) -> Seq<DeletionV>
    decreases m,
{
    if m <= 0 {
        Seq::empty()
    } else {
        deletions_of(hunks, m - 1) + hunk_deletions(hunks[m - 1], hunks[m - 1].lines.len() as int)
    }
}

/// The numbers of the lines that the first `n` lines of a hunk add.
pub open spec fn hunk_added(hunk: DiffHunkV, n: int) -> Set<u32>
    decreases n,
{
    if n <= 0 {
        Set::empty()
    } else {
        let line = hunk.lines[n - 1];
        match line.new_line_no {
            Some(no) if line.kind == LineKind::Addition => hunk_added(hunk, n - 1).insert(no),
            _ => hunk_added(hunk, n - 1),
        }
    }
}

/// The numbers of the lines that the first `m` hunks add.
pub open spec fn added_of(hunks: Seq<DiffHunkV>, m: int) -> Set<u32>
    decreases m,
{
    if m <= 0 {
        Set::empty()
    } else {
        added_of(hunks, m - 1).union(hunk_added(hunks[m - 1], hunks[m - 1].lines.len() as int))
    }
}

/// The changed ranges of the lines of a hunk. While a diff is still loading
/// there are none.
pub open spec fn inline_of(hunk: DiffHunkV, loading: bool) -> Seq<Seq<InlineRange>> {
    if loading {
        Seq::new(hunk.lines.len(), |i: int| Seq::<InlineRange>::empty())
    } else {
        intraline(hunk.lines)
    }
}

/// The changed ranges of added lines, by line number; `known` holds those of
/// the hunks above.
pub open spec fn hunk_inline(
    hunk: DiffHunkV,
    inline: Seq<Seq<InlineRange>>,
    n: int,
    known: Map<u32, Seq<InlineRange>>,
) -> Map<u32, Seq<InlineRange>>
    decreases n,
{
    if n <= 0 {
        known
    } else {
        let before = hunk_inline(hunk, inline, n - 1, known);
        let line = hunk.lines[n - 1];
        match line.new_line_no {
            Some(no) if line.kind == LineKind::Addition && inline[n - 1].len() > 0 => before.insert(
                no,
                inline[n - 1],
            ),
            _ => before,
        }
    }
}

/// The changed ranges of the added lines of the first `m` hunks, by line
/// number.
pub open spec fn inline_by_line(hunks: Seq<DiffHunkV>, loading: bool, m: int) -> Map<
    u32,
    Seq<InlineRange>,
>
    decreases m,
{
    if m <= 0 {
        Map::empty()
    } else {
        let hunk = hunks[m - 1];
        hunk_inline(
            hunk,
            inline_of(hunk, loading),
            hunk.lines.len() as int,
            inline_by_line(hunks, loading, m - 1),
        )
    }
}

/// Whether a line number lies in the range of `count` lines from `start` on; a
/// range holds at least its first line.
pub open spec fn in_span(start: u32, count: u32, no: u32) -> bool {
    start <= no && no as int <= start + (if count == 0 {
        0
    } else {
        count - 1
    })
}

/// The first hunk from `i` on whose old (or new) lines hold a number.
pub open spec fn hunk_with(hunks: Seq<DiffHunkV>, i: int, old_side: bool, no: u32) -> Option<int>
    decreases hunks.len() - i,
{
    if i >= hunks.len() {
        None
    } else if old_side && in_span(hunks[i].old_start, hunks[i].old_lines, no) {
        Some(i)
    } else if !old_side && in_span(hunks[i].new_start, hunks[i].new_lines, no) {
        Some(i)
    } else {
        hunk_with(hunks, i + 1, old_side, no)
    }
}

/// What a file is expanded from.
pub struct ExpansionV {
    pub hunks: Seq<DiffHunkV>,
    pub loading: bool,
    pub show_old: bool,
    pub highlighting: bool,
    pub lines: Seq<Seq<char>>,
    pub old_map: Seq<Seq<HighlightRange>>,
    pub new_map: Seq<Seq<HighlightRange>>,
}

/// The line behind which a deletion is shown: those at the top of the file
/// come behind its first line.
pub open spec fn place(d: DeletionV) -> u32 {
    if d.after == 0 {
        1
    } else {
        d.after
    }
}

/// Line numbers have 32 bits.
pub open spec fn line_number(idx: int) -> u32 {
    ((idx + 1) % 0x1_0000_0000) as u32
}

impl ExpansionV {
    /// A deletion as it is shown.
    pub open spec fn deletion_line(self, d: DeletionV) -> DiffLineV {
        DiffLineV {
            kind: LineKind::Deletion,
            old_line_no: Some(d.old_no),
            new_line_no: None,
            content: d.content,
            highlights: if self.highlighting && line_index(d.old_no) < self.old_map.len() {
                self.old_map[line_index(d.old_no)]
            } else {
                Seq::empty()
            },
            inline_ranges: Seq::empty(),
        }
    }

    /// The deletions whose place lies in `lo..hi`.
    pub open spec fn deletions_in(self, b: BuildV, dels: Seq<DeletionV>, lo: int, hi: int) -> Seq<
        DisplayLineV,
    >
        decreases dels.len(),
    {
        if dels.len() == 0 {
            Seq::empty()
        } else {
            let before = self.deletions_in(b, dels.drop_last(), lo, hi);
            let d = dels.last();
            if lo <= place(d) < hi {
                before.push(
                    DisplayLineV::Diff {
                        line: self.deletion_line(d),
                        file_idx: b.file_idx,
                        file_path: b.file_path,
                        hunk_idx: hunk_with(self.hunks, 0, true, d.old_no),
                    },
                )
            } else {
                before
            }
        }
    }

    /// All deletions of the file.
    pub open spec fn deletions(self) -> Seq<DeletionV> {
        deletions_of(self.hunks, self.hunks.len() as int)
    }

    /// Line `idx` of the file as it is shown.
    pub open spec fn file_line(self, idx: int) -> DiffLineV {
        let no = line_number(idx);
        let inline = inline_by_line(self.hunks, self.loading, self.hunks.len() as int);
        DiffLineV {
            kind: if added_of(self.hunks, self.hunks.len() as int).contains(no) {
                LineKind::Addition
            } else {
                LineKind::Context
            },
            old_line_no: Some(no),
            new_line_no: Some(no),
            content: self.lines[idx],
            highlights: if idx < self.new_map.len() {
                self.new_map[idx]
            } else {
                Seq::empty()
            },
            inline_ranges: if inline.contains_key(no) {
                inline[no]
            } else {
                Seq::empty()
            },
        }
    }

    /// Line `idx` of the file, with the deletions above it and its annotations
    /// below it.
    pub open spec fn line_block(self, b: BuildV, idx: int) -> Seq<DisplayLineV> {
        let no = line_number(idx);
        (if self.show_old {
            self.deletions_in(b, self.deletions(), line_index(no), line_index(no) + 1)
        } else {
            Seq::empty()
        }) + b.with_annotations(self.file_line(idx), hunk_with(self.hunks, 0, false, no))
    }

    /// The first `n` lines of the file.
    pub open spec fn body(self, b: BuildV, n: int) -> Seq<DisplayLineV>
        decreases n,
    {
        if n <= 0 {
            Seq::empty()
        } else {
            self.body(b, n - 1) + self.line_block(b, n - 1)
        }
    }

    /// The deletions behind the last line of the file.
    pub open spec fn tail(self, b: BuildV) -> Seq<DisplayLineV> {
        if self.show_old {
            self.deletions_in(
                b,
                self.deletions(),
                self.lines.len() as int % 0x1_0000_0000,
                0x1_0000_0000,
            )
        } else {
            Seq::empty()
        }
    }

    /// The display lines of the expanded file.
    pub open spec fn display(self, b: BuildV) -> Seq<DisplayLineV> {
        self.body(b, self.lines.len() as int) + self.tail(b)
    }
}

/// What a file is expanded from.
pub struct Expansion<'a> {
    pub hunks: &'a [DiffHunk],
    pub loading: bool,
    pub show_old: bool,
    pub highlighting: bool,
    pub lines: &'a [String],
    pub old_map: &'a [Vec<HighlightRange>],
    pub new_map: &'a [Vec<HighlightRange>],
}

impl<'a> View for Expansion<'a> {
    type V = ExpansionV;

    open spec fn view(&self) -> ExpansionV {
        ExpansionV {
            hunks: hunk_views(self.hunks@),
            loading: self.loading,
            show_old: self.show_old,
            highlighting: self.highlighting,
            lines: texts(self.lines@),
            old_map: map_views(self.old_map@),
            new_map: map_views(self.new_map@),
        }
    }
}

/// The changed ranges of the lines of a hunk.
pub fn hunk_inline_ranges(hunk: &DiffHunk, loading: bool) -> (v: Vec<Vec<InlineRange>>)
    ensures
        range_views(v@) == inline_of(hunk@, loading),
        v@.len() == hunk.lines@.len(),
{
    proof {
        law_intraline_shape(line_views(hunk.lines@));
    }
    if loading {
        let mut v: Vec<Vec<InlineRange>> = Vec::new();
        let mut i: usize = 0;
        while i < hunk.lines.len()
            invariant
                i <= hunk.lines@.len(),
                v@.len() == i,
                forall|k: int| 0 <= k < i ==> (#[trigger] v@[k])@ == Seq::<InlineRange>::empty(),
            decreases hunk.lines@.len() - i,
        {
            let empty: Vec<InlineRange> = Vec::new();
            assert(empty@ =~= Seq::empty());
            v.push(empty);
            i = i + 1;
        }
        assert(range_views(v@) =~= inline_of(hunk@, loading));
        v
    } else {
        let v = compute_intraline_ranges(&hunk.lines);
        assert(range_views(v@).len() == v@.len());
        v
    }
}

/// What the hunks of a file say about its lines.
struct Changes {
    added: HashSet<u32>,
    inline: HashMap<u32, Vec<InlineRange>>,
    deletions: Vec<Deletion>,
}

/// The values of a map of ranges.
pub open spec fn inline_map_view(m: Map<u32, Vec<InlineRange>>) -> Map<u32, Seq<InlineRange>> {
    m.map_values(|v: Vec<InlineRange>| v@)
}

proof fn lemma_inline_map_insert(m: Map<u32, Vec<InlineRange>>, k: u32, v: Vec<InlineRange>)
    ensures
        inline_map_view(m.insert(k, v)) == inline_map_view(m).insert(k, v@),
{
    assert(inline_map_view(m.insert(k, v)) =~= inline_map_view(m).insert(k, v@));
}

/// Adds what one hunk says.
fn collect_hunk(c: &mut Changes, hunk: &DiffHunk, loading: bool)
    ensures
        final(c).added@ == old(c).added@.union(hunk_added(hunk@, hunk.lines@.len() as int)),
        inline_map_view(final(c).inline@) == hunk_inline(
            hunk@,
            inline_of(hunk@, loading),
            hunk.lines@.len() as int,
            inline_map_view(old(c).inline@),
        ),
        deletion_views(final(c).deletions@) == deletion_views(old(c).deletions@) + hunk_deletions(
            hunk@,
            hunk.lines@.len() as int,
        ),
{
    let inline = hunk_inline_ranges(hunk, loading);
    let ghost added0 = c.added@;
    let ghost inline0 = inline_map_view(c.inline@);
    let ghost dels0 = deletion_views(c.deletions@);
    let mut last: u32 = if hunk.new_start == 0 {
        0
    } else {
        hunk.new_start - 1
    };
    let mut i: usize = 0;
    assert(added0.union(hunk_added(hunk@, 0)) =~= added0);
    assert(dels0 + hunk_deletions(hunk@, 0) =~= dels0);
    while i < hunk.lines.len()
        invariant
            i <= hunk.lines@.len(),
            inline@.len() == hunk.lines@.len(),
            range_views(inline@) == inline_of(hunk@, loading),
            last == last_new(hunk@, i as int),
            c.added@ == added0.union(hunk_added(hunk@, i as int)),
            inline_map_view(c.inline@) == hunk_inline(
                hunk@,
                inline_of(hunk@, loading),
                i as int,
                inline0,
            ),
            deletion_views(c.deletions@) == dels0 + hunk_deletions(hunk@, i as int),
        decreases hunk.lines@.len() - i,
    {
        broadcast use vstd::std_specs::hash::group_hash_axioms;

        let line = &hunk.lines[i];
        let ghost dels1 = c.deletions@;
        proof {
            assert(hunk@.lines[i as int] == line@);
            assert(range_views(inline@)[i as int] == inline@[i as int]@);
        }
        match line.kind {
            LineKind::Addition => {
                if let Some(n) = line.new_line_no {
                    c.added.insert(n);
                    last = n;
                    if inline[i].len() > 0 {
                        let ranges = inline[i].clone();
                        assert(ranges@ =~= inline@[i as int]@);
                        proof {
                            lemma_inline_map_insert(c.inline@, n, ranges);
                        }
                        c.inline.insert(n, ranges);
                    }
                }
            },
            LineKind::Deletion => {
                if let Some(old_no) = line.old_line_no {
                    c.deletions.push(
                        Deletion { after: last, old_no, content: line.content.clone() },
                    );
                    assert(deletion_views(c.deletions@) =~= deletion_views(dels1).push(
                        c.deletions@.last()@,
                    ));
                }
            },
            LineKind::Context => {
                if let Some(n) = line.new_line_no {
                    last = n;
                }
            },
        }
        i = i + 1;
        proof {
            assert(c.added@ =~= added0.union(hunk_added(hunk@, i as int)));
            assert(deletion_views(c.deletions@) =~= dels0 + hunk_deletions(hunk@, i as int));
        }
    }
}

fn collect_changes(hunks: &[DiffHunk], loading: bool) -> (c: Changes)
    ensures
        c.added@ == added_of(hunk_views(hunks@), hunks@.len() as int),
        inline_map_view(c.inline@) == inline_by_line(
            hunk_views(hunks@),
            loading,
            hunks@.len() as int,
        ),
        deletion_views(c.deletions@) == deletions_of(hunk_views(hunks@), hunks@.len() as int),
{
    broadcast use vstd::std_specs::hash::group_hash_axioms;

    let mut c = Changes { added: HashSet::new(), inline: HashMap::new(), deletions: Vec::new() };
    let ghost hv = hunk_views(hunks@);
    let mut i: usize = 0;
    assert(c.added@ =~= Set::empty());
    assert(inline_map_view(c.inline@) =~= Map::empty());
    assert(deletion_views(c.deletions@) =~= Seq::empty());
    while i < hunks.len()
        invariant
            i <= hunks@.len(),
            hv == hunk_views(hunks@),
            c.added@ == added_of(hv, i as int),
            inline_map_view(c.inline@) == inline_by_line(hv, loading, i as int),
            deletion_views(c.deletions@) == deletions_of(hv, i as int),
        decreases hunks@.len() - i,
    {
        collect_hunk(&mut c, &hunks[i], loading);
        i = i + 1;
    }
    c
}

/// Whether the hunks of a file delete a numbered line.
pub fn has_deletions(hunks: &[DiffHunk]) -> (r: bool)
    ensures
        r == (deletions_of(hunk_views(hunks@), hunks@.len() as int).len() > 0),
{
    let c = collect_changes(hunks, true);
    assert(deletion_views(c.deletions@).len() == c.deletions@.len());
    c.deletions.len() > 0
}

/// The first hunk whose old (or new) lines hold a number.
fn find_hunk(hunks: &[DiffHunk], old_side: bool, no: u32) -> (r: Option<usize>)
    ensures
        crate::display::opt_idx(r) == hunk_with(hunk_views(hunks@), 0, old_side, no),
{
    let ghost hv = hunk_views(hunks@);
    let mut i: usize = 0;
    while i < hunks.len()
        invariant
            i <= hunks@.len(),
            hv == hunk_views(hunks@),
            hunk_with(hv, 0, old_side, no) == hunk_with(hv, i as int, old_side, no),
        decreases hunks@.len() - i,
    {
        let h = &hunks[i];
        let (start, count) = if old_side {
            (h.old_start, h.old_lines)
        } else {
            (h.new_start, h.new_lines)
        };
        assert(hv[i as int] == h@);
        if start <= no && (no - start == 0 || no - start < count) {
            return Some(i);
        }
        i = i + 1;
    }
    None
}

/// Adds the deletions whose place lies in `lo..hi`.
fn push_deletions(
    out: &mut Vec<DisplayLine>,
    b: &Build,
    e: &Expansion,
    dels: &[Deletion],
    lo: u64,
    hi: u64,
)
    ensures
        display_views(final(out)@) == display_views(old(out)@) + e@.deletions_in(
            b@,
            deletion_views(dels@),
            lo as int,
            hi as int,
        ),
{
    let ghost start = display_views(out@);
    let ghost dv = deletion_views(dels@);
    let mut i: usize = 0;
    assert(dv.take(0) =~= Seq::empty());
    assert(start + e@.deletions_in(b@, dv.take(0), lo as int, hi as int) =~= start);
    while i < dels.len()
        invariant
            i <= dels@.len(),
            dv == deletion_views(dels@),
            display_views(out@) == start + e@.deletions_in(
                b@,
                dv.take(i as int),
                lo as int,
                hi as int,
            ),
        decreases dels@.len() - i,
    {
        let d = &dels[i];
        proof {
            assert(dv.take(i + 1).drop_last() =~= dv.take(i as int));
            assert(dv.take(i + 1).last() == d@);
        }
        let at: u64 = if d.after == 0 {
            1
        } else {
            d.after as u64
        };
        if lo <= at && at < hi {
            let idx: usize = if d.old_no == 0 {
                0
            } else {
                (d.old_no - 1) as usize
            };
            let highlights: Vec<HighlightRange> = if e.highlighting && idx < e.old_map.len() {
                let copy = e.old_map[idx].clone();
                assert(copy@ =~= e.old_map@[idx as int]@);
                copy
            } else {
                Vec::new()
            };
            assert(!(e.highlighting && idx < e.old_map@.len()) ==> highlights@ =~= Seq::empty());
            let line = DiffLine {
                kind: LineKind::Deletion,
                old_line_no: Some(d.old_no),
                new_line_no: None,
                content: d.content.clone(),
                highlights,
                inline_ranges: Vec::new(),
            };
            assert(line@ =~= e@.deletion_line(d@));
            push_line(
                out,
                DisplayLine::Diff {
                    line,
                    file_idx: b.file_idx,
                    file_path: b.file_path.to_owned(),
                    hunk_idx: find_hunk(e.hunks, true, d.old_no),
                },
            );
        }
        i = i + 1;
        assert(display_views(out@) =~= start + e@.deletions_in(
            b@,
            dv.take(i as int),
            lo as int,
            hi as int,
        ));
    }
    assert(dv.take(i as int) =~= dv);
}

/// Adds the display lines of an expanded file.
pub fn push_expanded_lines(out: &mut Vec<DisplayLine>, b: &Build, e: &Expansion)
    ensures
        display_views(final(out)@) == display_views(old(out)@) + e@.display(b@),
{
    let c = collect_changes(e.hunks, e.loading);
    let ghost start = display_views(out@);
    let ghost dv = deletion_views(c.deletions@);
    let mut i: usize = 0;
    assert(start + e@.body(b@, 0) =~= start);
    while i < e.lines.len()
        invariant
            i <= e.lines@.len(),
            c.added@ == added_of(e@.hunks, e@.hunks.len() as int),
            inline_map_view(c.inline@) == inline_by_line(
                e@.hunks,
                e.loading,
                e@.hunks.len() as int,
            ),
            deletion_views(c.deletions@) == e@.deletions(),
            display_views(out@) == start + e@.body(b@, i as int),
        decreases e.lines@.len() - i,
    {
        broadcast use vstd::std_specs::hash::group_hash_axioms;

        let line_no: u32 = ((i as u64 + 1) % 0x1_0000_0000) as u32;
        let at: u64 = if line_no == 0 {
            0
        } else {
            (line_no - 1) as u64
        };
        let ghost before = display_views(out@);
        if e.show_old {
            push_deletions(out, b, e, &c.deletions, at, at + 1);
        } else {
            assert(before + Seq::<DisplayLineV>::empty() =~= before);
        }
        let kind = if c.added.contains(&line_no) {
            LineKind::Addition
        } else {
            LineKind::Context
        };
        let inline_ranges: Vec<InlineRange> = match c.inline.get(&line_no) {
            Some(ranges) => {
                let copy = ranges.clone();
                assert(copy@ =~= ranges@);
                copy
            },
            None => Vec::new(),
        };
        let highlights: Vec<HighlightRange> = if i < e.new_map.len() {
            let copy = e.new_map[i].clone();
            assert(copy@ =~= e.new_map@[i as int]@);
            copy
        } else {
            Vec::new()
        };
        let line = DiffLine {
            kind,
            old_line_no: Some(line_no),
            new_line_no: Some(line_no),
            content: e.lines[i].clone(),
            highlights,
            inline_ranges,
        };
        assert(line@ =~= e@.file_line(i as int)) by {
            let m = inline_by_line(e@.hunks, e.loading, e@.hunks.len() as int);
            assert(m.contains_key(line_no) == c.inline@.contains_key(line_no));
            if m.contains_key(line_no) {
                assert(m[line_no] == c.inline@[line_no]@);
            }
            assert(line.inline_ranges@ =~= e@.file_line(i as int).inline_ranges);
            assert(line.highlights@ =~= e@.file_line(i as int).highlights);
        }
        let copy = line.clone();
        push_line(
            out,
            DisplayLine::Diff {
                line: copy,
                file_idx: b.file_idx,
                file_path: b.file_path.to_owned(),
                hunk_idx: find_hunk(e.hunks, false, line_no),
            },
        );
        add_annotations_for_line(
            out,
            b.annotations,
            b.show_annotations,
            b.file_idx,
            b.file_path,
            &line,
        );
        assert(display_views(out@) =~= before + e@.line_block(b@, i as int));
        i = i + 1;
        assert(display_views(out@) =~= start + e@.body(b@, i as int));
    }
    let ghost before = display_views(out@);
    if e.show_old {
        let last: u64 = e.lines.len() as u64 % 0x1_0000_0000;
        push_deletions(out, b, e, &c.deletions, last, 0x1_0000_0000);
    } else {
        assert(before + Seq::<DisplayLineV>::empty() =~= before);
    }
    assert(display_views(out@) =~= start + e@.display(b@));
}

// ---------------------------------------------------------------------------
// Laws
// ---------------------------------------------------------------------------
/// Whether a display line shows a deleted line.
pub open spec fn is_deletion(line: DisplayLineV) -> bool {
    line matches DisplayLineV::Diff { line: l, .. } && l.kind == LineKind::Deletion
}

/// Display lines without the deleted ones.
pub open spec fn without_deletions(lines: Seq<DisplayLineV>) -> Seq<DisplayLineV>
    decreases lines.len(),
{
    if lines.len() == 0 {
        Seq::empty()
    } else if is_deletion(lines.last()) {
        without_deletions(lines.drop_last())
    } else {
        without_deletions(lines.drop_last()).push(lines.last())
    }
}

/// How many display lines show a deleted line.
pub open spec fn deletions_shown(lines: Seq<DisplayLineV>) -> nat
    decreases lines.len(),
{
    if lines.len() == 0 {
        0
    } else {
        deletions_shown(lines.drop_last()) + (if is_deletion(lines.last()) {
            1nat
        } else {
            0nat
        })
    }
}

/// How many deletions have their place in `lo..hi`.
pub open spec fn placed(dels: Seq<DeletionV>, lo: int, hi: int) -> nat
    decreases dels.len(),
{
    if dels.len() == 0 {
        0
    } else {
        placed(dels.drop_last(), lo, hi) + (if lo <= place(dels.last()) < hi {
            1nat
        } else {
            0nat
        })
    }
}

proof fn lemma_filter_concat(a: Seq<DisplayLineV>, b: Seq<DisplayLineV>)
    ensures
        without_deletions(a + b) == without_deletions(a) + without_deletions(b),
        deletions_shown(a + b) == deletions_shown(a) + deletions_shown(b),
    decreases b.len(),
{
    if b.len() == 0 {
        assert(a + b =~= a);
        assert(without_deletions(a) + Seq::<DisplayLineV>::empty() =~= without_deletions(a));
    } else {
        lemma_filter_concat(a, b.drop_last());
        assert((a + b).drop_last() =~= a + b.drop_last());
        if !is_deletion(b.last()) {
            assert(without_deletions(a) + without_deletions(b.drop_last()).push(b.last()) =~= (
            without_deletions(a) + without_deletions(b.drop_last())).push(b.last()));
        }
    }
}

proof fn lemma_filter_none(a: Seq<DisplayLineV>)
    requires
        forall|i: int| 0 <= i < a.len() ==> !is_deletion(#[trigger] a[i]),
    ensures
        without_deletions(a) == a,
        deletions_shown(a) == 0,
    decreases a.len(),
{
    if a.len() > 0 {
        lemma_filter_none(a.drop_last());
        assert(a.drop_last().push(a.last()) =~= a);
    } else {
        assert(without_deletions(a) =~= a);
    }
}

proof fn lemma_deletions_in_filtered(
    e: ExpansionV,
    b: BuildV,
    dels: Seq<DeletionV>,
    lo: int,
    hi: int,
)
    ensures
        without_deletions(e.deletions_in(b, dels, lo, hi)) == Seq::<DisplayLineV>::empty(),
        deletions_shown(e.deletions_in(b, dels, lo, hi)) == placed(dels, lo, hi),
    decreases dels.len(),
{
    if dels.len() > 0 {
        lemma_deletions_in_filtered(e, b, dels.drop_last(), lo, hi);
        if lo <= place(dels.last()) < hi {
            let before = e.deletions_in(b, dels.drop_last(), lo, hi);
            let now = e.deletions_in(b, dels, lo, hi);
            assert(now.drop_last() =~= before);
        }
    }
}

proof fn lemma_annotations_not_deletions(
    annotations: Seq<crate::storage::AnnotationV>,
    file_idx: int,
    file_path: Seq<char>,
    line: DiffLineV,
)
    ensures
        forall|i: int|
            0 <= i < crate::display::annotation_lines(annotations, file_idx, file_path, line).len()
                ==> !is_deletion(
                #[trigger] crate::display::annotation_lines(
                    annotations,
                    file_idx,
                    file_path,
                    line,
                )[i],
            ),
    decreases annotations.len(),
{
    if annotations.len() > 0 {
        lemma_annotations_not_deletions(annotations.drop_last(), file_idx, file_path, line);
        let before = crate::display::annotation_lines(
            annotations.drop_last(),
            file_idx,
            file_path,
            line,
        );
        let now = crate::display::annotation_lines(annotations, file_idx, file_path, line);
        assert forall|i: int| 0 <= i < now.len() implies !is_deletion(#[trigger] now[i]) by {
            if i < before.len() {
                assert(now[i] == before[i]);
            }
        }
    }
}

proof fn lemma_body_filtered(e: ExpansionV, b: BuildV, n: int)
    requires
        0 <= n <= e.lines.len(),
        e.show_old,
    ensures
        without_deletions(e.body(b, n)) == (ExpansionV { show_old: false, ..e }).body(b, n),
        n < 0x1_0000_0000 ==> deletions_shown(e.body(b, n)) == placed(e.deletions(), 0, n),
    decreases n,
{
    let h = ExpansionV { show_old: false, ..e };
    if n > 0 {
        lemma_body_filtered(e, b, n - 1);
        let no = line_number(n - 1);
        let at = line_index(no);
        let dels = e.deletions_in(b, e.deletions(), at, at + 1);
        let rest = b.with_annotations(e.file_line(n - 1), hunk_with(e.hunks, 0, false, no));
        lemma_deletions_in_filtered(e, b, e.deletions(), at, at + 1);
        lemma_annotations_not_deletions(
            b.annotations,
            b.file_idx,
            b.file_path,
            e.file_line(n - 1),
        );
        assert forall|i: int| 0 <= i < rest.len() implies !is_deletion(#[trigger] rest[i]) by {
            if i > 0 {
                assert(rest[i] == b.annotations_of(e.file_line(n - 1))[i - 1]);
            }
        }
        lemma_filter_none(rest);
        lemma_filter_concat(dels, rest);
        lemma_filter_concat(e.body(b, n - 1), e.line_block(b, n - 1));
        assert(h.line_block(b, n - 1) =~= rest);
        assert(Seq::<DisplayLineV>::empty() + rest =~= rest);
        if n < 0x1_0000_0000 {
            assert(at == n - 1);
            lemma_placed_split(e.deletions(), 0, n - 1, n);
        }
    } else {
        assert(e.body(b, n) =~= Seq::empty());
        lemma_placed_none(e.deletions());
    }
}

proof fn lemma_placed_none(dels: Seq<DeletionV>)
    ensures
        placed(dels, 0, 0) == 0,
    decreases dels.len(),
{
    if dels.len() > 0 {
        lemma_placed_none(dels.drop_last());
    }
}

proof fn lemma_placed_split(dels: Seq<DeletionV>, lo: int, mid: int, hi: int)
    requires
        lo <= mid <= hi,
    ensures
        placed(dels, lo, hi) == placed(dels, lo, mid) + placed(dels, mid, hi),
    decreases dels.len(),
{
    if dels.len() > 0 {
        lemma_placed_split(dels.drop_last(), lo, mid, hi);
    }
}

proof fn lemma_placed_all(dels: Seq<DeletionV>)
    ensures
        placed(dels, 0, 0x1_0000_0000) == dels.len(),
    decreases dels.len(),
{
    if dels.len() > 0 {
        lemma_placed_all(dels.drop_last());
    }
}

/// Hiding the deletions of an expanded file takes the deleted lines out of the
/// display and changes nothing else.
pub proof fn law_hiding_deletions(e: ExpansionV, b: BuildV)
    requires
        e.show_old,
    ensures
        without_deletions(e.display(b)) == (ExpansionV { show_old: false, ..e }).display(b),
{
    let n = e.lines.len() as int;
    let h = ExpansionV { show_old: false, ..e };
    lemma_body_filtered(e, b, n);
    lemma_deletions_in_filtered(e, b, e.deletions(), n % 0x1_0000_0000, 0x1_0000_0000);
    lemma_filter_concat(e.body(b, n), e.tail(b));
    assert(without_deletions(e.display(b)) =~= h.display(b));
}

/// An expanded file shows each deleted line of its diff once.
pub proof fn law_deletions_shown_once(e: ExpansionV, b: BuildV)
    requires
        e.show_old,
        e.lines.len() < 0x1_0000_0000,
    ensures
        deletions_shown(e.display(b)) == e.deletions().len(),
{
    let n = e.lines.len() as int;
    lemma_body_filtered(e, b, n);
    lemma_deletions_in_filtered(e, b, e.deletions(), n % 0x1_0000_0000, 0x1_0000_0000);
    lemma_filter_concat(e.body(b, n), e.tail(b));
    lemma_placed_split(e.deletions(), 0, n, 0x1_0000_0000);
    lemma_placed_all(e.deletions());
}

// ---------------------------------------------------------------------------
// Where deleted lines stand
// ---------------------------------------------------------------------------
/// Whether the new lines of a hunk are numbered in their order, from the number
/// that the hunk starts at.
pub open spec fn numbered(hunk: DiffHunkV) -> bool {
    &&& forall|x: int|
        0 <= x < hunk.lines.len() && (#[trigger] hunk.lines[x]).kind != LineKind::Deletion ==> (
        hunk.lines[x].new_line_no matches Some(n) ==> n >= hunk.new_start && n >= 1)
    &&& forall|x: int, y: int|
        0 <= x < y < hunk.lines.len() && (#[trigger] hunk.lines[x]).kind != LineKind::Deletion && (
        #[trigger] hunk.lines[y]).kind != LineKind::Deletion ==> (hunk.lines[x].new_line_no matches
        Some(m) ==> (hunk.lines[y].new_line_no matches Some(n) ==> m < n))
}

/// The new line that stands in front of a place is the last one in front of it.
proof fn lemma_last_new(hunk: DiffHunkV, n: int, x: int)
    requires
        numbered(hunk),
        0 <= n <= hunk.lines.len(),
        0 <= x < hunk.lines.len(),
        hunk.lines[x].kind != LineKind::Deletion,
        hunk.lines[x].new_line_no is Some,
    ensures
        x < n ==> hunk.lines[x].new_line_no->0 <= last_new(hunk, n),
        x >= n ==> last_new(hunk, n) < hunk.lines[x].new_line_no->0,
    decreases n,
{
    if n > 0 {
        let line = hunk.lines[n - 1];
        if x != n - 1 {
            lemma_last_new(hunk, n - 1, x);
        }
        if line.kind != LineKind::Deletion && line.new_line_no is Some {
            if x >= n {
                assert(hunk.lines[n - 1].kind != LineKind::Deletion);
            }
        }
    }
}

/// The deletion of a line of a hunk is among those of the file.
proof fn lemma_hunk_deletion(hunk: DiffHunkV, n: int, l: int) -> (j: int)
    requires
        0 <= l < n <= hunk.lines.len(),
        hunk.lines[l].kind == LineKind::Deletion,
        hunk.lines[l].old_line_no is Some,
    ensures
        0 <= j < hunk_deletions(hunk, n).len(),
        hunk_deletions(hunk, n)[j] == (DeletionV {
            after: last_new(hunk, l),
            old_no: hunk.lines[l].old_line_no->0,
            content: hunk.lines[l].content,
        }),
        j == hunk_deletions(hunk, l).len(),
    decreases n,
{
    if l < n - 1 {
        let j = lemma_hunk_deletion(hunk, n - 1, l);
        assert(hunk_deletions(hunk, n)[j] == hunk_deletions(hunk, n - 1)[j]);
        j
    } else {
        hunk_deletions(hunk, l).len() as int
    }
}

proof fn lemma_file_deletion(hunks: Seq<DiffHunkV>, m: int, h: int, i: int) -> (j: int)
    requires
        0 <= h < m <= hunks.len(),
        0 <= i < hunk_deletions(hunks[h], hunks[h].lines.len() as int).len(),
    ensures
        0 <= j < deletions_of(hunks, m).len(),
        deletions_of(hunks, m)[j] == hunk_deletions(hunks[h], hunks[h].lines.len() as int)[i],
        j == deletions_of(hunks, h).len() + i,
    decreases m,
{
    let before = deletions_of(hunks, m - 1);
    if h < m - 1 {
        let j = lemma_file_deletion(hunks, m - 1, h, i);
        assert(deletions_of(hunks, m)[j] == before[j]);
        j
    } else {
        before.len() + i
    }
}

/// Where a deletion stands among those with a place in `lo..hi`.
proof fn lemma_deletion_at(e: ExpansionV, b: BuildV, dels: Seq<DeletionV>, lo: int, hi: int, j: int)
    requires
        0 <= j < dels.len(),
        lo <= place(dels[j]) < hi,
    ensures
        ({
            let v = e.deletions_in(b, dels, lo, hi);
            let k = placed(dels.take(j), lo, hi) as int;
            &&& 0 <= k < v.len()
            &&& v[k] matches DisplayLineV::Diff { line, .. } && line == e.deletion_line(dels[j])
        }),
        e.deletions_in(b, dels, lo, hi).len() == placed(dels, lo, hi),
    decreases dels.len(),
{
    let front = dels.drop_last();
    lemma_deletions_len(e, b, dels, lo, hi);
    if j < dels.len() - 1 {
        lemma_deletion_at(e, b, front, lo, hi, j);
        assert(front.take(j) =~= dels.take(j));
        let k = placed(dels.take(j), lo, hi) as int;
        assert(e.deletions_in(b, dels, lo, hi)[k] == e.deletions_in(b, front, lo, hi)[k]);
    } else {
        assert(dels.take(j) =~= front);
        lemma_deletions_len(e, b, front, lo, hi);
    }
}

proof fn lemma_deletions_len(e: ExpansionV, b: BuildV, dels: Seq<DeletionV>, lo: int, hi: int)
    ensures
        e.deletions_in(b, dels, lo, hi).len() == placed(dels, lo, hi),
        forall|k: int|
            0 <= k < e.deletions_in(b, dels, lo, hi).len() ==> is_deletion(
                #[trigger] e.deletions_in(b, dels, lo, hi)[k],
            ),
    decreases dels.len(),
{
    if dels.len() > 0 {
        lemma_deletions_len(e, b, dels.drop_last(), lo, hi);
        let before = e.deletions_in(b, dels.drop_last(), lo, hi);
        let now = e.deletions_in(b, dels, lo, hi);
        assert forall|k: int| 0 <= k < now.len() implies is_deletion(#[trigger] now[k]) by {
            if k < before.len() {
                assert(now[k] == before[k]);
            }
        }
    }
}

/// Whether a display line shows a line of the file, under a number.
pub open spec fn shows_number(line: DisplayLineV, n: u32) -> bool {
    line matches DisplayLineV::Diff { line: l, .. } && l.kind != LineKind::Deletion
        && l.new_line_no == Some(n)
}

proof fn lemma_body_prefix(e: ExpansionV, b: BuildV, i: int, n: int)
    requires
        0 <= i <= n,
    ensures
        e.body(b, i).len() <= e.body(b, n).len(),
        forall|q: int| 0 <= q < e.body(b, i).len() ==> e.body(b, n)[q] == #[trigger] e.body(b, i)[q],
    decreases n,
{
    if i < n {
        lemma_body_prefix(e, b, i, n - 1);
    }
}

/// A line of the file stands behind the deletions above it: where it is shown, it
/// is at the end of what comes before its block and of those deletions.
proof fn lemma_body_numbers(e: ExpansionV, b: BuildV, n: int, q: int, no: u32)
    requires
        0 <= n < 0x1_0000_0000,
        0 <= q < e.body(b, n).len(),
        shows_number(e.body(b, n)[q], no),
    ensures
        1 <= no <= n,
        e.body(b, no - 1).len() <= q < e.body(b, no as int).len(),
        q == e.body(b, no - 1).len() + (if e.show_old {
            e.deletions_in(b, e.deletions(), no - 1, no as int).len()
        } else {
            0
        }),
    decreases n,
{
    if n > 0 {
        let before = e.body(b, n - 1);
        if q < before.len() {
            assert(e.body(b, n)[q] == before[q]);
            lemma_body_numbers(e, b, n - 1, q, no);
        } else {
            let k = q - before.len();
            let block = e.line_block(b, n - 1);
            assert(e.body(b, n)[q] == block[k]);
            let number = line_number(n - 1);
            assert(number == n);
            let dels = if e.show_old {
                e.deletions_in(b, e.deletions(), line_index(number), line_index(number) + 1)
            } else {
                Seq::empty()
            };
            let rest = b.with_annotations(
                e.file_line(n - 1),
                hunk_with(e.hunks, 0, false, number),
            );
            lemma_deletions_len(e, b, e.deletions(), line_index(number), line_index(number) + 1);
            if k < dels.len() {
                assert(is_deletion(block[k]));
            } else if k > dels.len() {
                assert(block[k] == b.annotations_of(e.file_line(n - 1))[k - dels.len() - 1]);
                lemma_annotations_not_diff(
                    b.annotations,
                    b.file_idx,
                    b.file_path,
                    e.file_line(n - 1),
                );
            } else {
                assert(block[k] == rest[0]);
            }
        }
    }
}

proof fn lemma_annotations_not_diff(
    annotations: Seq<crate::storage::AnnotationV>,
    file_idx: int,
    file_path: Seq<char>,
    line: DiffLineV,
)
    ensures
        forall|i: int|
            0 <= i < crate::display::annotation_lines(annotations, file_idx, file_path, line).len()
                ==> !((#[trigger] crate::display::annotation_lines(
                annotations,
                file_idx,
                file_path,
                line,
            )[i]) is Diff),
    decreases annotations.len(),
{
    if annotations.len() > 0 {
        lemma_annotations_not_diff(annotations.drop_last(), file_idx, file_path, line);
        let before = crate::display::annotation_lines(
            annotations.drop_last(),
            file_idx,
            file_path,
            line,
        );
        let now = crate::display::annotation_lines(annotations, file_idx, file_path, line);
        assert forall|i: int| 0 <= i < now.len() implies !((#[trigger] now[i]) is Diff) by {
            if i < before.len() {
                assert(now[i] == before[i]);
            }
        }
    }
}

/// Where a deletion is shown: behind the lines of the file up to its place, and in
/// front of the next one.
spec fn deletion_position(e: ExpansionV, b: BuildV, j: int) -> int {
    let n = e.lines.len() as int;
    let at = place(e.deletions()[j]) as int;
    if at < n {
        (e.body(b, at).len() + placed(e.deletions().take(j), at, at + 1)) as int
    } else {
        (e.body(b, n).len() + placed(e.deletions().take(j), n, 0x1_0000_0000)) as int
    }
}

proof fn lemma_deletion_position(e: ExpansionV, b: BuildV, j: int)
    requires
        e.show_old,
        e.lines.len() < 0x1_0000_0000,
        0 <= j < e.deletions().len(),
    ensures
        ({
            let p = deletion_position(e, b, j);
            let at = place(e.deletions()[j]);
            &&& 0 <= p < e.display(b).len()
            &&& e.display(b)[p] matches DisplayLineV::Diff { line, .. } && line == e.deletion_line(
                e.deletions()[j],
            )
            &&& forall|q: int, n: u32|
                0 <= q < e.display(b).len() && #[trigger] shows_number(e.display(b)[q], n) ==> (n
                    <= at ==> q < p) && (n > at ==> p < q)
        }),
{
    let n = e.lines.len() as int;
    let dels = e.deletions();
    let at = place(dels[j]) as int;
    let p = deletion_position(e, b, j);
    let body = e.body(b, n);
    if at < n {
        lemma_deletion_at(e, b, dels, at, at + 1, j);
        lemma_body_prefix(e, b, at + 1, n);
        lemma_body_prefix(e, b, at, at + 1);
        let number = line_number(at);
        assert(number == at + 1);
        assert(line_index(number) == at);
        let block = e.line_block(b, at);
        let k = placed(dels.take(j), at, at + 1) as int;
        assert(e.body(b, at + 1)[p] == block[k]);
        assert(block[k] == e.deletions_in(b, dels, at, at + 1)[k]);
        assert(body[p] == e.body(b, at + 1)[p]);
    } else {
        lemma_deletion_at(e, b, dels, n, 0x1_0000_0000, j);
        assert(n % 0x1_0000_0000 == n);
    }
    assert forall|q: int, no: u32|
        0 <= q < e.display(b).len() && #[trigger] shows_number(e.display(b)[q], no) implies (no
        <= at ==> q < p) && (no > at ==> p < q) by {
        lemma_deletions_len(e, b, dels, n % 0x1_0000_0000, 0x1_0000_0000);
        if q < body.len() {
            assert(e.display(b)[q] == body[q]);
            lemma_body_numbers(e, b, n, q, no);
            if no <= at {
                if at < n {
                    lemma_body_prefix(e, b, no as int, at);
                } else {
                    lemma_body_prefix(e, b, no as int, n);
                }
            } else {
                lemma_body_prefix(e, b, at, no - 1);
                if no - 1 > at {
                    lemma_body_prefix(e, b, at + 1, no - 1);
                    lemma_body_length(e, b, at);
                }
            }
        } else {
            assert(e.display(b)[q] == e.tail(b)[q - body.len()]);
        }
    }
}

proof fn lemma_body_length(e: ExpansionV, b: BuildV, i: int)
    requires
        e.show_old,
        0 <= i < 0xffff_ffff,
    ensures
        e.body(b, i + 1).len() >= e.body(b, i).len() + e.deletions_in(
            b,
            e.deletions(),
            i,
            i + 1,
        ).len() + 1,
{
    let number = line_number(i);
    assert(line_index(number) == i);
}

/// The expanded view keeps the order of a hunk's lines. A deleted line stands
/// behind every line of the file that is in front of it in the hunk, and in front
/// of every line of the file that is behind it in the hunk; only behind line 1
/// the deletions at the very top of the file come, too.
pub proof fn law_deletion_in_its_place(e: ExpansionV, b: BuildV, h: int, l: int) -> (p: int)
    requires
        e.show_old,
        e.lines.len() < 0x1_0000_0000,
        0 <= h < e.hunks.len(),
        0 <= l < e.hunks[h].lines.len(),
        e.hunks[h].lines[l].kind == LineKind::Deletion,
        e.hunks[h].lines[l].old_line_no is Some,
        numbered(e.hunks[h]),
    ensures
        0 <= p < e.display(b).len(),
        e.display(b)[p] matches DisplayLineV::Diff { line, .. } && line.kind == LineKind::Deletion
            && line.old_line_no == e.hunks[h].lines[l].old_line_no && line.content
            == e.hunks[h].lines[l].content,
        forall|x: int, q: int|
            0 <= x < e.hunks[h].lines.len() && 0 <= q < e.display(b).len() && (
            #[trigger] e.hunks[h].lines[x]).kind != LineKind::Deletion
                && e.hunks[h].lines[x].new_line_no is Some && shows_number(
                #[trigger] e.display(b)[q],
                e.hunks[h].lines[x].new_line_no->0,
            ) ==> (x < l ==> q < p) && (x > l && e.hunks[h].lines[x].new_line_no != Some(1u32)
                ==> p < q),
{
    let hunk = e.hunks[h];
    let i = lemma_hunk_deletion(hunk, hunk.lines.len() as int, l);
    let j = lemma_file_deletion(e.hunks, e.hunks.len() as int, h, i);
    lemma_deletion_position(e, b, j);
    let p = deletion_position(e, b, j);
    assert forall|x: int, q: int|
        0 <= x < hunk.lines.len() && 0 <= q < e.display(b).len() && (#[trigger] hunk.lines[x]).kind
            != LineKind::Deletion && hunk.lines[x].new_line_no is Some && shows_number(
            #[trigger] e.display(b)[q],
            hunk.lines[x].new_line_no->0,
        ) implies (x < l ==> q < p) && (x > l && hunk.lines[x].new_line_no != Some(1u32) ==> p
        < q) by {
        lemma_last_new(hunk, l, x);
    }
    p
}

proof fn lemma_placed_monotone(dels: Seq<DeletionV>, i: int, j: int, lo: int, hi: int)
    requires
        0 <= i < j <= dels.len(),
    ensures
        placed(dels.take(i), lo, hi) <= placed(dels.take(j), lo, hi),
        lo <= place(dels[i]) < hi ==> placed(dels.take(i), lo, hi) < placed(dels.take(j), lo, hi),
    decreases j,
{
    assert(dels.take(j).drop_last() =~= dels.take(j - 1));
    assert(dels.take(j).last() == dels[j - 1]);
    if i < j - 1 {
        lemma_placed_monotone(dels, i, j - 1, lo, hi);
    }
}

proof fn lemma_last_new_grows(hunk: DiffHunkV, m: int, n: int)
    requires
        numbered(hunk),
        0 <= m <= n <= hunk.lines.len(),
    ensures
        last_new(hunk, m) <= last_new(hunk, n),
    decreases n,
{
    if m < n {
        lemma_last_new_grows(hunk, m, n - 1);
        let line = hunk.lines[n - 1];
        if line.kind != LineKind::Deletion && line.new_line_no is Some {
            lemma_last_new(hunk, m, n - 1);
        }
    }
}

proof fn lemma_hunk_deletions_grow(hunk: DiffHunkV, m: int, n: int)
    requires
        0 <= m < n <= hunk.lines.len(),
        hunk.lines[m].kind == LineKind::Deletion,
        hunk.lines[m].old_line_no is Some,
    ensures
        hunk_deletions(hunk, m).len() < hunk_deletions(hunk, n).len(),
    decreases n,
{
    if m < n - 1 {
        lemma_hunk_deletions_grow(hunk, m, n - 1);
    }
}

/// Deleted lines of a hunk are shown in the order that they have in it.
pub proof fn law_deletions_in_order(e: ExpansionV, b: BuildV, h: int, l: int, m: int) -> (r: (
    int,
    int,
))
    requires
        e.show_old,
        e.lines.len() < 0x1_0000_0000,
        0 <= h < e.hunks.len(),
        0 <= l < m < e.hunks[h].lines.len(),
        e.hunks[h].lines[l].kind == LineKind::Deletion,
        e.hunks[h].lines[l].old_line_no is Some,
        e.hunks[h].lines[m].kind == LineKind::Deletion,
        e.hunks[h].lines[m].old_line_no is Some,
        numbered(e.hunks[h]),
    ensures
        0 <= r.0 < r.1 < e.display(b).len(),
        e.display(b)[r.0] matches DisplayLineV::Diff { line, .. } && line.kind == LineKind::Deletion
            && line.old_line_no == e.hunks[h].lines[l].old_line_no && line.content
            == e.hunks[h].lines[l].content,
        e.display(b)[r.1] matches DisplayLineV::Diff { line, .. } && line.kind == LineKind::Deletion
            && line.old_line_no == e.hunks[h].lines[m].old_line_no && line.content
            == e.hunks[h].lines[m].content,
{
    let hunk = e.hunks[h];
    let n = hunk.lines.len() as int;
    let i = lemma_hunk_deletion(hunk, n, l);
    let k = lemma_hunk_deletion(hunk, n, m);
    lemma_hunk_deletions_grow(hunk, l, m);
    let j = lemma_file_deletion(e.hunks, e.hunks.len() as int, h, i);
    let g = lemma_file_deletion(e.hunks, e.hunks.len() as int, h, k);
    lemma_deletion_position(e, b, j);
    lemma_deletion_position(e, b, g);
    lemma_last_new_grows(hunk, l, m);
    let dels = e.deletions();
    let x = place(dels[j]) as int;
    let y = place(dels[g]) as int;
    let total = e.lines.len() as int;
    assert(x <= y);
    if y < total {
        if x == y {
            lemma_placed_monotone(dels, j, g, x, x + 1);
        } else {
            lemma_deletion_at(e, b, dels, x, x + 1, j);
            lemma_body_prefix(e, b, x + 1, y);
            lemma_body_length(e, b, x);
        }
    } else if x < total {
        lemma_deletion_at(e, b, dels, x, x + 1, j);
        lemma_body_prefix(e, b, x + 1, total);
        lemma_body_length(e, b, x);
    } else {
        lemma_placed_monotone(dels, j, g, total, 0x1_0000_0000);
    }
    (deletion_position(e, b, j), deletion_position(e, b, g))
}

proof fn lemma_hunk_added(hunk: DiffHunkV, n: int, no: u32)
    requires
        0 <= n <= hunk.lines.len(),
    ensures
        hunk_added(hunk, n).contains(no) <==> exists|l: int|
            0 <= l < n && (#[trigger] hunk.lines[l]).kind == LineKind::Addition
                && hunk.lines[l].new_line_no == Some(no),
    decreases n,
{
    if n > 0 {
        lemma_hunk_added(hunk, n - 1, no);
        let line = hunk.lines[n - 1];
        if line.kind == LineKind::Addition && line.new_line_no == Some(no) {
            assert(hunk.lines[n - 1].kind == LineKind::Addition);
        }
    }
}

/// Whether a hunk adds the line of a number.
pub open spec fn adds(hunk: DiffHunkV, no: u32) -> bool {
    exists|l: int|
        0 <= l < hunk.lines.len() && (#[trigger] hunk.lines[l]).kind == LineKind::Addition
            && hunk.lines[l].new_line_no == Some(no)
}

proof fn lemma_added_of(hunks: Seq<DiffHunkV>, m: int, no: u32)
    requires
        0 <= m <= hunks.len(),
    ensures
        added_of(hunks, m).contains(no) <==> exists|h: int| 0 <= h < m && adds(#[trigger] hunks[h], no),
    decreases m,
{
    if m > 0 {
        lemma_added_of(hunks, m - 1, no);
        let hunk = hunks[m - 1];
        lemma_hunk_added(hunk, hunk.lines.len() as int, no);
        if adds(hunk, no) {
            assert(adds(hunks[m - 1], no));
        }
    }
}

proof fn lemma_body_shows(e: ExpansionV, b: BuildV, n: int, no: u32) -> (q: int)
    requires
        1 <= no <= n < 0x1_0000_0000,
    ensures
        0 <= q < e.body(b, n).len(),
        e.body(b, n)[q] matches DisplayLineV::Diff { line, .. } && line == e.file_line(no - 1),
    decreases n,
{
    if no < n {
        let q = lemma_body_shows(e, b, n - 1, no);
        assert(e.body(b, n)[q] == e.body(b, n - 1)[q]);
        q
    } else {
        let before = e.body(b, n - 1);
        let block = e.line_block(b, n - 1);
        let number = line_number(n - 1);
        let dels = if e.show_old {
            e.deletions_in(b, e.deletions(), line_index(number), line_index(number) + 1)
        } else {
            Seq::empty()
        };
        let q = (before.len() + dels.len()) as int;
        assert(block[dels.len() as int] == b.with_annotations(
            e.file_line(n - 1),
            hunk_with(e.hunks, 0, false, number),
        )[0]);
        assert(e.body(b, n)[q] == block[dels.len() as int]);
        q
    }
}

/// The expanded view shows every line of the file under its number, with its
/// text; as an addition exactly if a hunk adds it.
pub proof fn law_whole_file_shown(e: ExpansionV, b: BuildV, no: u32) -> (q: int)
    requires
        1 <= no <= e.lines.len() < 0x1_0000_0000,
    ensures
        0 <= q < e.display(b).len(),
        e.display(b)[q] matches DisplayLineV::Diff { line, .. } && line.new_line_no == Some(no)
            && line.content == e.lines[no - 1] && line.kind == (if exists|h: int|
            0 <= h < e.hunks.len() && adds(#[trigger] e.hunks[h], no) {
            LineKind::Addition
        } else {
            LineKind::Context
        }),
        forall|x: int|
            0 <= x < e.display(b).len() && shows_number(#[trigger] e.display(b)[x], no) ==> x == q,
{
    let n = e.lines.len() as int;
    let q = lemma_body_shows(e, b, n, no);
    lemma_added_of(e.hunks, e.hunks.len() as int, no);
    assert(line_number(no - 1) == no);
    assert(e.display(b)[q] == e.body(b, n)[q]);
    lemma_body_numbers(e, b, n, q, no);
    assert forall|x: int|
        0 <= x < e.display(b).len() && shows_number(#[trigger] e.display(b)[x], no) implies x
        == q by {
        lemma_deletions_len(e, b, e.deletions(), n % 0x1_0000_0000, 0x1_0000_0000);
        if x < e.body(b, n).len() {
            assert(e.display(b)[x] == e.body(b, n)[x]);
            lemma_body_numbers(e, b, n, x, no);
        } else {
            assert(e.display(b)[x] == e.tail(b)[x - e.body(b, n).len()]);
        }
    }
    q
}

/// A line of an expanded file belongs to the first hunk whose lines hold its number,
/// on the side that is asked for; to none if there is no such hunk.
pub proof fn law_hunk_of_number(hunks: Seq<DiffHunkV>, i: int, old_side: bool, no: u32)
    requires
        0 <= i <= hunks.len(),
        forall|k: int|
            0 <= k < hunks.len() ==> (#[trigger] hunks[k]).old_lines > 0 && hunks[k].new_lines > 0,
    ensures
        match hunk_with(hunks, i, old_side, no) {
            Some(h) => {
                &&& i <= h < hunks.len()
                &&& old_side ==> hunks[h].old_start <= no < hunks[h].old_start + hunks[h].old_lines
                &&& !old_side ==> hunks[h].new_start <= no < hunks[h].new_start
                    + hunks[h].new_lines
                &&& forall|k: int|
                    i <= k < h ==> !(if old_side {
                        (#[trigger] hunks[k]).old_start <= no < hunks[k].old_start
                            + hunks[k].old_lines
                    } else {
                        hunks[k].new_start <= no < hunks[k].new_start + hunks[k].new_lines
                    })
            },
            None => forall|k: int|
                i <= k < hunks.len() ==> !(if old_side {
                    (#[trigger] hunks[k]).old_start <= no < hunks[k].old_start + hunks[k].old_lines
                } else {
                    hunks[k].new_start <= no < hunks[k].new_start + hunks[k].new_lines
                }),
        },
    decreases hunks.len() - i,
{
    if i < hunks.len() {
        law_hunk_of_number(hunks, i + 1, old_side, no);
    }
}

} // verus!
