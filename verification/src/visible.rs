//! What can be relied on to be in the display.
use vstd::prelude::*;

use crate::compose::{
    any_before, header_lines, lemma_built_first_lines, lemma_completed_tiled,
    lemma_covered_monotone, lemma_file_lines_frame, lemma_place_within, lemma_respliced_tiled,
    lemma_settled_frame, lines_first, place_of,
};
use crate::beside::diff_lines_of;
use crate::diff::{DiffFileV, DiffHunkV, DiffLineV, HighlightRange, InlineRange};
use crate::display::{
    annotation_lines, hunk_body, hunk_head, law_hunk_shown, lemma_diff_lines_concat,
    lemma_no_diff_lines, orphaned_at, same_line, shown_at, shown_line, BuildV, DisplayLineV,
};
use crate::expand::inline_of;
use crate::screen::{
    lemma_adjusted_frame, lemma_landed_frame, lemma_skip_down, lemma_skip_up, ScreenV,
};
use crate::state::{tiled, AppV, DiskV};
use crate::storage::AnnotationV;

verus! {

proof fn lemma_in_concat(a: Seq<DisplayLineV>, b: Seq<DisplayLineV>, x: DisplayLineV)
    requires
        a.contains(x) || b.contains(x),
    ensures
        (a + b).contains(x),
{
    if a.contains(x) {
        let i = choose|i: int| 0 <= i < a.len() && a[i] == x;
        assert((a + b)[i] == x);
    } else {
        let i = choose|i: int| 0 <= i < b.len() && b[i] == x;
        assert((a + b)[a.len() + i] == x);
    }
}

proof fn lemma_annotation_lines(
    annotations: Seq<AnnotationV>,
    j: int,
    file_idx: int,
    path: Seq<char>,
    line: DiffLineV,
)
    requires
        0 <= j < annotations.len(),
        shown_at(annotations[j], path, line),
    ensures
        annotation_lines(annotations, file_idx, path, line).contains(
            (DisplayLineV::Annotation {
                annotation: annotations[j],
                file_idx,
                orphaned: orphaned_at(annotations[j], line),
            }),
        ),
    decreases annotations.len(),
{
    let v = annotation_lines(annotations, file_idx, path, line);
    let x = DisplayLineV::Annotation {
        annotation: annotations[j],
        file_idx,
        orphaned: orphaned_at(annotations[j], line),
    };
    if j == annotations.len() - 1 {
        assert(v.last() == x);
    } else {
        lemma_annotation_lines(annotations.drop_last(), j, file_idx, path, line);
        let before = annotation_lines(annotations.drop_last(), file_idx, path, line);
        let k = choose|k: int| 0 <= k < before.len() && before[k] == x;
        assert(v[k] == x);
    }
}

proof fn lemma_in_body(
    b: BuildV,
    hunk_idx: int,
    lines: Seq<DiffLineV>,
    n: int,
    inline: Seq<Seq<InlineRange>>,
    hunk_map: Seq<Seq<HighlightRange>>,
    full_map: Option<Seq<Seq<HighlightRange>>>,
    l: int,
    x: DisplayLineV,
)
    requires
        0 <= l < n <= lines.len(),
        b.with_annotations(
            shown_line(lines, l, inline, hunk_map, full_map),
            Some(hunk_idx),
        ).contains(x),
    ensures
        hunk_body(b, hunk_idx, lines, n, inline, hunk_map, full_map).contains(x),
    decreases n,
{
    let before = hunk_body(b, hunk_idx, lines, n - 1, inline, hunk_map, full_map);
    let here = b.with_annotations(
        shown_line(lines, n - 1, inline, hunk_map, full_map),
        Some(hunk_idx),
    );
    if l < n - 1 {
        lemma_in_body(b, hunk_idx, lines, n - 1, inline, hunk_map, full_map, l, x);
    }
    lemma_in_concat(before, here, x);
}

impl AppV {
    /// Line `l` of hunk `h` of a file as it is shown: with its changed characters
    /// and its highlights.
    pub open spec fn line_shown(self, file: DiffFileV, h: int, l: int, disk: DiskV) -> DiffLineV {
        let hunk = file.hunks[h];
        shown_line(
            hunk.lines,
            l,
            inline_of(hunk, self.loading),
            self.hunk_map(file.path(), hunk, disk),
            self.full_map(file.path()),
        )
    }
}

proof fn lemma_in_hunks(
    s: AppV,
    i: int,
    file: DiffFileV,
    n: int,
    h: int,
    l: int,
    x: DisplayLineV,
    disk: DiskV,
)
    requires
        0 <= h < n <= file.hunks.len(),
        0 <= l < file.hunks[h].lines.len(),
        s.build(i, file).with_annotations(s.line_shown(file, h, l, disk), Some(h)).contains(x),
    ensures
        s.hunks_display(i, file, n, disk).contains(x),
    decreases n,
{
    let before = s.hunks_display(i, file, n - 1, disk);
    if h < n - 1 {
        lemma_in_hunks(s, i, file, n - 1, h, l, x, disk);
    } else {
        let b = s.build(i, file);
        let hunk = file.hunks[h];
        let inline = inline_of(hunk, s.loading);
        let map = s.hunk_map(file.path(), hunk, disk);
        let full = s.full_map(file.path());
        let m = hunk.lines.len() as int;
        let head = hunk_head(b, h, hunk, s.header_map(file.path(), hunk.header, disk));
        let body = hunk_body(b, h, hunk.lines, m, inline, map, full);
        lemma_in_body(b, h, hunk.lines, m, inline, map, full, l, x);
        lemma_in_concat(head, body, x);
        lemma_in_concat(
            head + body,
            seq![DisplayLineV::HunkEnd { file_idx: b.file_idx, hunk_idx: h }],
            x,
        );
    }
    lemma_in_concat(before, s.hunk_lines(i, file, n - 1, disk), x);
}

proof fn lemma_in_display(s: AppV, n: int, i: int, x: DisplayLineV, disk: DiskV)
    requires
        0 <= i < n <= s.files.len(),
        s.file_lines(i, s.files[i], i > 0, disk).contains(x),
    ensures
        lines_first(s, n, disk).contains(x),
    decreases n,
{
    if i < n - 1 {
        lemma_in_display(s, n - 1, i, x, disk);
    }
    lemma_in_concat(
        lines_first(s, n - 1, disk),
        s.file_lines(n - 1, s.files[n - 1], n - 1 > 0, disk),
        x,
    );
}

proof fn lemma_shown(s: AppV, i: int, h: int, l: int, x: DisplayLineV, disk: DiskV)
    requires
        s.expanded is None,
        0 <= i < s.files.len(),
        !s.screen.collapsed.contains(s.files[i].path()),
        0 <= h < s.files[i].hunks.len(),
        0 <= l < s.files[i].hunks[h].lines.len(),
        s.build(i, s.files[i]).with_annotations(
            s.line_shown(s.files[i], h, l, disk),
            Some(h),
        ).contains(x),
    ensures
        s.built(disk).screen.lines.contains(x),
{
    reveal(AppV::built);
    reveal(AppV::file_lines);
    let file = s.files[i];
    let n = s.files.len() as int;
    lemma_in_hunks(s, i, file, file.hunks.len() as int, h, l, x, disk);
    lemma_in_concat(header_lines(i, file, i > 0), s.file_body(i, file, disk), x);
    lemma_in_display(s, n, i, x, disk);
    lemma_built_first_lines(s, n, disk);
}

/// Every line of a hunk is in the display, unless another file is expanded or
/// its own is collapsed. It is shown with its changed characters and its
/// highlights.
pub proof fn law_lines_shown(s: AppV, i: int, h: int, l: int, disk: DiskV)
    requires
        s.expanded is None,
        0 <= i < s.files.len(),
        !s.screen.collapsed.contains(s.files[i].path()),
        0 <= h < s.files[i].hunks.len(),
        0 <= l < s.files[i].hunks[h].lines.len(),
    ensures
        s.built(disk).screen.lines.contains(
            (DisplayLineV::Diff {
                line: s.line_shown(s.files[i], h, l, disk),
                file_idx: i,
                file_path: s.files[i].path(),
                hunk_idx: Some(h),
            }),
        ),
{
    let line = s.line_shown(s.files[i], h, l, disk);
    let x = DisplayLineV::Diff {
        line,
        file_idx: i,
        file_path: s.files[i].path(),
        hunk_idx: Some(h),
    };
    let v = s.build(i, s.files[i]).with_annotations(line, Some(h));
    assert(v[0] == x);
    lemma_shown(s, i, h, l, x, disk);
}

/// While annotations are shown, every annotation of a line of a hunk is in the
/// display, unless another file is expanded or its own is collapsed.
pub proof fn law_annotations_shown(s: AppV, i: int, h: int, l: int, j: int, disk: DiskV)
    requires
        s.show_annotations,
        s.expanded is None,
        0 <= i < s.files.len(),
        !s.screen.collapsed.contains(s.files[i].path()),
        0 <= h < s.files[i].hunks.len(),
        0 <= l < s.files[i].hunks[h].lines.len(),
        0 <= j < s.annotations.len(),
        shown_at(s.annotations[j], s.files[i].path(), s.files[i].hunks[h].lines[l]),
    ensures
        s.built(disk).screen.lines.contains(
            (DisplayLineV::Annotation {
                annotation: s.annotations[j],
                file_idx: i,
                orphaned: orphaned_at(s.annotations[j], s.files[i].hunks[h].lines[l]),
            }),
        ),
{
    let path = s.files[i].path();
    let line = s.line_shown(s.files[i], h, l, disk);
    let a = s.annotations[j];
    let x = DisplayLineV::Annotation {
        annotation: a,
        file_idx: i,
        orphaned: orphaned_at(a, s.files[i].hunks[h].lines[l]),
    };
    assert(shown_at(a, path, line));
    lemma_annotation_lines(s.annotations, j, i, path, line);
    let b = s.build(i, s.files[i]);
    lemma_in_concat(
        seq![
            DisplayLineV::Diff {
                line,
                file_idx: b.file_idx,
                file_path: b.file_path,
                hunk_idx: Some(h),
            },
        ],
        b.annotations_of(line),
        x,
    );
    lemma_shown(s, i, h, l, x, disk);
}

proof fn lemma_no_annotations(
    b: BuildV,
    hunk_idx: int,
    lines: Seq<DiffLineV>,
    n: int,
    inline: Seq<Seq<InlineRange>>,
    hunk_map: Seq<Seq<HighlightRange>>,
    full_map: Option<Seq<Seq<HighlightRange>>>,
)
    requires
        !b.show_annotations,
        0 <= n <= lines.len(),
    ensures
        no_annotation(hunk_body(b, hunk_idx, lines, n, inline, hunk_map, full_map)),
    decreases n,
{
    if n > 0 {
        lemma_no_annotations(b, hunk_idx, lines, n - 1, inline, hunk_map, full_map);
    }
}

/// Whether no line is an annotation.
pub open spec fn no_annotation(lines: Seq<DisplayLineV>) -> bool {
    forall|k: int| 0 <= k < lines.len() ==> !((#[trigger] lines[k]) is Annotation)
}

proof fn lemma_no_annotations_in_hunks(s: AppV, i: int, file: DiffFileV, n: int, disk: DiskV)
    requires
        !s.show_annotations,
        0 <= n <= file.hunks.len(),
    ensures
        no_annotation(s.hunks_display(i, file, n, disk)),
    decreases n,
{
    if n > 0 {
        lemma_no_annotations_in_hunks(s, i, file, n - 1, disk);
        let hunk = file.hunks[n - 1];
        lemma_no_annotations(
            s.build(i, file),
            n - 1,
            hunk.lines,
            hunk.lines.len() as int,
            inline_of(hunk, s.loading),
            s.hunk_map(file.path(), hunk, disk),
            s.full_map(file.path()),
        );
    }
}

proof fn lemma_none_in_files(s: AppV, n: int, disk: DiskV)
    requires
        !s.show_annotations,
        s.expanded is None,
        0 <= n <= s.files.len(),
    ensures
        no_annotation(lines_first(s, n, disk)),
    decreases n,
{
    if n > 0 {
        lemma_none_in_files(s, n - 1, disk);
        reveal(AppV::file_lines);
        let file = s.files[n - 1];
        lemma_no_annotations_in_hunks(s, n - 1, file, file.hunks.len() as int, disk);
    }
}

/// While annotations are not shown, the display of all files holds none.
pub proof fn law_annotations_hidden(s: AppV, disk: DiskV)
    requires
        !s.show_annotations,
        s.expanded is None,
    ensures
        no_annotation(s.built(disk).screen.lines),
{
    reveal(AppV::built);
    lemma_none_in_files(s, s.files.len() as int, disk);
    lemma_built_first_lines(s, s.files.len() as int, disk);
}

proof fn lemma_landed_within(s: ScreenV)
    requires
        0 <= s.cursor < s.lines.len(),
    ensures
        0 <= s.landed().cursor < s.lines.len(),
{
    reveal(ScreenV::landed);
    lemma_skip_down(s, s.cursor, s.lines.len() as int);
    lemma_skip_up(s, s.cursor);
}

proof fn lemma_settled_within(s: ScreenV, files: int)
    requires
        0 <= s.cursor,
        0 < s.lines.len(),
    ensures
        0 <= s.settled(files).cursor < s.lines.len(),
{
    reveal(ScreenV::settled);
    let clamped = if s.cursor >= s.lines.len() {
        s.at(s.lines.len() - 1)
    } else {
        s
    };
    lemma_landed_within(clamped);
    lemma_landed_frame(clamped);
    lemma_adjusted_frame(clamped, files);
    lemma_adjusted_frame(clamped.landed(), files);
}

/// Building the lines of one file anew leaves those of the others as they are,
/// and as many. The file has its lines in its place, its header among them, and
/// the cursor is on the display.
pub proof fn law_update_keeps_others(s: AppV, i: int, disk: DiskV)
    requires
        s.wf(),
        s.expanded is None,
        0 <= i < s.files.len(),
        0 <= s.screen.cursor,
        s.screen.lines.len() <= usize::MAX,
        s.with_file_updated(i, disk).screen.lines.len() <= usize::MAX,
    ensures
        ({
            let old = s.with_places().screen;
            let now = s.with_file_updated(i, disk).screen;
            &&& tiled(now.ranges, now.lines.len() as int)
            &&& now.ranges.len() == old.ranges.len()
            &&& now.ranges[i] is Some
            &&& block_of(now, i) == s.file_lines(i, s.files[i], any_before(old.ranges, i), disk)
            &&& block_of(now, i).contains(
                (DisplayLineV::FileHeader { path: s.files[i].path(), file_idx: i }),
            )
            &&& forall|k: int|
                0 <= k < old.ranges.len() && k != i ==> {
                    &&& (#[trigger] now.ranges[k] is Some) == (old.ranges[k] is Some)
                    &&& block_of(now, k) == block_of(old, k)
                }
            &&& 0 <= now.cursor < now.lines.len()
        }),
{
    reveal(AppV::with_file_updated);
    let files = s.files.len() as int;
    let old = s.with_places().screen;
    let p = s.with_places();
    lemma_completed_tiled(s.screen, files);
    let new = p.file_lines(i, p.files[i], any_before(old.ranges, i), disk);
    lemma_file_lines_frame(s, p, i, s.files[i], any_before(old.ranges, i), disk);
    let mid = old.respliced(i, new);
    lemma_settled_frame(mid, files);
    lemma_respliced_tiled(old, i, new);
    reveal(ScreenV::respliced);
    let now = s.with_file_updated(i, disk).screen;
    assert(now == mid.settled(files));
    lemma_place_within(old, i);
    let (start, len) = place_of(old.ranges, i);
    assert(new.len() > 0) by {
        reveal(AppV::file_lines);
    }
    lemma_settled_within(mid, files);
    lemma_settled_frame(mid, files);
    assert(new.len() <= now.lines.len());
    assert(start <= now.lines.len());
    assert(block_of(now, i) =~= new);
    assert(new.contains(
        (DisplayLineV::FileHeader { path: s.files[i].path(), file_idx: i }),
    )) by {
        reveal(AppV::file_lines);
        let head = header_lines(i, s.files[i], any_before(old.ranges, i));
        assert(new[head.len() - 1] == head[head.len() - 1]);
    }
    assert forall|k: int| 0 <= k < old.ranges.len() && k != i implies {
        &&& (#[trigger] now.ranges[k] is Some) == (old.ranges[k] is Some)
        &&& block_of(now, k) == block_of(old, k)
    } by {
        lemma_place_within(old, k);
        lemma_place_within(mid, k);
        if k < i {
            lemma_covered_monotone(old.ranges, k + 1, i);
            assert(block_of(now, k) =~= block_of(old, k));
        } else {
            lemma_covered_monotone(old.ranges, i + 1, k);
            assert(block_of(now, k) =~= block_of(old, k));
        }
    }
}

/// The lines of a file in the display.
pub open spec fn block_of(s: ScreenV, i: int) -> Seq<DisplayLineV> {
    match s.ranges[i] {
        Some((start, len)) => s.lines.subrange(start as int, start + len),
        None => Seq::empty(),
    }
}

// ---------------------------------------------------------------------------
// The display read as a diff
// ---------------------------------------------------------------------------
/// The lines of the first `n` hunks, one hunk behind the other.
pub open spec fn lines_of_hunks(hunks: Seq<DiffHunkV>, n: int) -> Seq<DiffLineV>
    decreases n,
{
    if n <= 0 {
        Seq::empty()
    } else {
        lines_of_hunks(hunks, n - 1) + hunks[n - 1].lines
    }
}

/// The lines of the hunks of the first `n` files, but for the files with the given
/// paths.
pub open spec fn lines_of_files(files: Seq<DiffFileV>, hidden: Set<Seq<char>>, n: int) -> Seq<DiffLineV>
    decreases n,
{
    if n <= 0 {
        Seq::empty()
    } else if hidden.contains(files[n - 1].path()) {
        lines_of_files(files, hidden, n - 1)
    } else {
        lines_of_files(files, hidden, n - 1) + lines_of_hunks(
            files[n - 1].hunks,
            files[n - 1].hunks.len() as int,
        )
    }
}

/// Whether two lists hold the same lines in the same order, highlights aside.
pub open spec fn same_lines(a: Seq<DiffLineV>, b: Seq<DiffLineV>) -> bool {
    a.len() == b.len() && forall|i: int| 0 <= i < a.len() ==> same_line(#[trigger] a[i], b[i])
}

proof fn lemma_same_concat(a: Seq<DiffLineV>, b: Seq<DiffLineV>, c: Seq<DiffLineV>, d: Seq<DiffLineV>)
    requires
        same_lines(a, b),
        same_lines(c, d),
    ensures
        same_lines(a + c, b + d),
{
    assert forall|i: int| 0 <= i < (a + c).len() implies same_line(
        #[trigger] (a + c)[i],
        (b + d)[i],
    ) by {
        if i < a.len() {
            assert(same_line(a[i], b[i]));
        } else {
            assert(same_line(c[i - a.len()], d[i - a.len()]));
        }
    }
}

proof fn lemma_hunks_read(s: AppV, i: int, file: DiffFileV, n: int, disk: DiskV)
    requires
        0 <= n <= file.hunks.len(),
    ensures
        ({
            let v = s.hunks_display(i, file, n, disk);
            same_lines(diff_lines_of(v, 0, v.len() as int), lines_of_hunks(file.hunks, n))
        }),
    decreases n,
{
    if n > 0 {
        lemma_hunks_read(s, i, file, n - 1, disk);
        let before = s.hunks_display(i, file, n - 1, disk);
        let hunk = file.hunks[n - 1];
        let more = s.hunk_lines(i, file, n - 1, disk);
        let at = law_hunk_shown(
            s.build(i, file),
            n - 1,
            hunk,
            inline_of(hunk, s.loading),
            s.header_map(file.path(), hunk.header, disk),
            s.hunk_map(file.path(), hunk, disk),
            s.full_map(file.path()),
        );
        lemma_diff_lines_concat(before, more, more.len() as int);
        lemma_same_concat(
            diff_lines_of(before, 0, before.len() as int),
            lines_of_hunks(file.hunks, n - 1),
            diff_lines_of(more, 0, more.len() as int),
            hunk.lines,
        );
    }
}

proof fn lemma_files_read(s: AppV, n: int, disk: DiskV)
    requires
        s.expanded is None,
        0 <= n <= s.files.len(),
    ensures
        ({
            let v = lines_first(s, n, disk);
            same_lines(
                diff_lines_of(v, 0, v.len() as int),
                lines_of_files(s.files, s.screen.collapsed, n),
            )
        }),
    decreases n,
{
    if n > 0 {
        lemma_files_read(s, n - 1, disk);
        reveal(AppV::file_lines);
        let file = s.files[n - 1];
        let before = lines_first(s, n - 1, disk);
        let head = header_lines(n - 1, file, n - 1 > 0);
        let body = s.file_body(n - 1, file, disk);
        let more = head + body;
        lemma_no_diff_lines(head, head.len() as int);
        lemma_diff_lines_concat(head, body, body.len() as int);
        lemma_diff_lines_concat(before, more, more.len() as int);
        let none = Seq::<DiffLineV>::empty();
        if s.screen.collapsed.contains(file.path()) {
            assert(body =~= Seq::<DisplayLineV>::empty());
            lemma_no_diff_lines(body, 0);
            assert(none + none =~= none);
            let left = diff_lines_of(before, 0, before.len() as int);
            assert(left + none =~= left);
        } else {
            lemma_hunks_read(s, n - 1, file, file.hunks.len() as int, disk);
            let right = diff_lines_of(body, 0, body.len() as int);
            assert(none + right =~= right);
            lemma_same_concat(
                diff_lines_of(before, 0, before.len() as int),
                lines_of_files(s.files, s.screen.collapsed, n - 1),
                right,
                lines_of_hunks(file.hunks, file.hunks.len() as int),
            );
        }
    }
}

/// The display of all files, read downwards, is the diff: its lines of files are the
/// lines of the hunks of the files that are not collapsed, each once and in order,
/// under their kinds, their numbers and their texts.
pub proof fn law_display_is_diff(s: AppV, disk: DiskV)
    requires
        s.expanded is None,
    ensures
        ({
            let v = s.built(disk).screen.lines;
            same_lines(
                diff_lines_of(v, 0, v.len() as int),
                lines_of_files(s.files, s.screen.collapsed, s.files.len() as int),
            )
        }),
{
    reveal(AppV::built);
    lemma_files_read(s, s.files.len() as int, disk);
    lemma_built_first_lines(s, s.files.len() as int, disk);
}

} // verus!
