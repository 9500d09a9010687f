//! The lines of the display, and how they are built from a diff.
use vstd::prelude::*;

use crate::beside::diff_lines_of;
use crate::diff::{
    line_views, texts_without, DiffHunk, DiffHunkV, DiffLine, DiffLineV, HighlightRange,
    InlineRange, LineKind,
};
use crate::intraline::range_views;
use crate::outside::str_eq;
use crate::storage::{annotation_views, Annotation, AnnotationV, Side};
use crate::text::{opt_text, trim, trim_prefixes, trimmed, without_prefixes};

verus! {

/// A line of the display.
#[derive(Debug)]
#[allow(inconsistent_fields)]
pub enum DisplayLine {
    /// Empty line for visual separation.
    Spacer,
    /// File header with path.
    FileHeader { path: String, file_idx: usize },
    /// Hunk separator showing line number and stats.
    HunkHeader {
        line_no: u32,
        additions: usize,
        deletions: usize,
        file_idx: usize,
        hunk_idx: usize,
    },
    /// Hunk context (function or module) line.
    HunkContext { text: String, line_no: u32, highlights: Vec<HighlightRange> },
    /// End of hunk marker for spacing.
    HunkEnd { file_idx: usize, hunk_idx: usize },
    /// A diff line (addition, deletion or context).
    Diff { line: DiffLine, file_idx: usize, file_path: String, hunk_idx: Option<usize> },
    /// An annotation shown inline below its line.
    Annotation { annotation: Annotation, file_idx: usize, orphaned: bool },
}

/// The value of a [`DisplayLine`].
#[verifier::ext_equal]
#[allow(inconsistent_fields)]
pub enum DisplayLineV {
    Spacer,
    FileHeader { path: Seq<char>, file_idx: int },
    HunkHeader { line_no: u32, additions: nat, deletions: nat, file_idx: int, hunk_idx: int },
    HunkContext { text: Seq<char>, line_no: u32, highlights: Seq<HighlightRange> },
    HunkEnd { file_idx: int, hunk_idx: int },
    Diff { line: DiffLineV, file_idx: int, file_path: Seq<char>, hunk_idx: Option<int> },
    Annotation { annotation: AnnotationV, file_idx: int, orphaned: bool },
}

/// An optional index.
pub open spec fn opt_idx(i: Option<usize>) -> Option<int> {
    match i {
        Some(n) => Some(n as int),
        None => None,
    }
}

impl View for DisplayLine {
    type V = DisplayLineV;

    open spec fn view(&self) -> DisplayLineV {
        match self {
            DisplayLine::Spacer => DisplayLineV::Spacer,
            DisplayLine::FileHeader { path, file_idx } => DisplayLineV::FileHeader {
                path: path@,
                file_idx: *file_idx as int,
            },
            DisplayLine::HunkHeader { line_no, additions, deletions, file_idx, hunk_idx } =>
            DisplayLineV::HunkHeader {
                line_no: *line_no,
                additions: *additions as nat,
                deletions: *deletions as nat,
                file_idx: *file_idx as int,
                hunk_idx: *hunk_idx as int,
            },
            DisplayLine::HunkContext { text, line_no, highlights } => DisplayLineV::HunkContext {
                text: text@,
                line_no: *line_no,
                highlights: highlights@,
            },
            DisplayLine::HunkEnd { file_idx, hunk_idx } => DisplayLineV::HunkEnd {
                file_idx: *file_idx as int,
                hunk_idx: *hunk_idx as int,
            },
            DisplayLine::Diff { line, file_idx, file_path, hunk_idx } => DisplayLineV::Diff {
                line: line@,
                file_idx: *file_idx as int,
                file_path: file_path@,
                hunk_idx: opt_idx(*hunk_idx),
            },
            DisplayLine::Annotation { annotation, file_idx, orphaned } => DisplayLineV::Annotation {
                annotation: annotation@,
                file_idx: *file_idx as int,
                orphaned: *orphaned,
            },
        }
    }
}

/// The values of a list of display lines.
pub open spec fn display_views(lines: Seq<DisplayLine>) -> Seq<DisplayLineV> {
    Seq::new(lines.len(), |i: int| lines[i]@)
}

impl Clone for DisplayLine {
    fn clone(&self) -> (r: Self)
        ensures
            r@ == self@,
    {
        match self {
            DisplayLine::Spacer => DisplayLine::Spacer,
            DisplayLine::FileHeader { path, file_idx } => DisplayLine::FileHeader {
                path: path.clone(),
                file_idx: *file_idx,
            },
            DisplayLine::HunkHeader { line_no, additions, deletions, file_idx, hunk_idx } =>
            DisplayLine::HunkHeader {
                line_no: *line_no,
                additions: *additions,
                deletions: *deletions,
                file_idx: *file_idx,
                hunk_idx: *hunk_idx,
            },
            DisplayLine::HunkContext { text, line_no, highlights } => {
                let copy = highlights.clone();
                assert(copy@ =~= highlights@);
                DisplayLine::HunkContext { text: text.clone(), line_no: *line_no, highlights: copy }
            },
            DisplayLine::HunkEnd { file_idx, hunk_idx } => DisplayLine::HunkEnd {
                file_idx: *file_idx,
                hunk_idx: *hunk_idx,
            },
            DisplayLine::Diff { line, file_idx, file_path, hunk_idx } => DisplayLine::Diff {
                line: line.clone(),
                file_idx: *file_idx,
                file_path: file_path.clone(),
                hunk_idx: *hunk_idx,
            },
            DisplayLine::Annotation { annotation, file_idx, orphaned } => DisplayLine::Annotation {
                annotation: annotation.clone(),
                file_idx: *file_idx,
                orphaned: *orphaned,
            },
        }
    }
}

// ---------------------------------------------------------------------------
// Annotations
// ---------------------------------------------------------------------------
/// The line number that annotations of a diff line refer to.
pub open spec fn annotated_line_no(line: DiffLineV) -> u32 {
    match (line.new_line_no, line.old_line_no) {
        (Some(n), _) => n,
        (None, Some(n)) => n,
        (None, None) => 0,
    }
}

/// The side that annotations of a diff line refer to.
pub open spec fn annotated_side(line: DiffLineV) -> Side {
    if line.new_line_no is Some {
        Side::New
    } else {
        Side::Old
    }
}

/// Whether an annotation is shown below a diff line of a file.
pub open spec fn shown_at(a: AnnotationV, file_path: Seq<char>, line: DiffLineV) -> bool {
    &&& a.file_path == file_path
    &&& a.side == annotated_side(line)
    &&& a.start_line == annotated_line_no(line)
    &&& a.covers(annotated_line_no(line))
}

/// Whether an annotation has lost its line: its anchor is not what the line
/// says now, white space around aside.
pub open spec fn orphaned_at(a: AnnotationV, line: DiffLineV) -> bool {
    a.side == Side::New && a.anchor_text.len() > 0 && trimmed(a.anchor_text) != trimmed(
        line.content,
    )
}

/// The annotations that are shown below a diff line.
pub open spec fn annotation_lines(
    annotations: Seq<AnnotationV>,
    file_idx: int,
    file_path: Seq<char>,
    line: DiffLineV,
) -> Seq<DisplayLineV>
    decreases annotations.len(),
{
    if annotations.len() == 0 {
        Seq::empty()
    } else {
        let before = annotation_lines(annotations.drop_last(), file_idx, file_path, line);
        let a = annotations.last();
        if shown_at(a, file_path, line) {
            before.push(
                DisplayLineV::Annotation {
                    annotation: a,
                    file_idx,
                    orphaned: orphaned_at(a, line),
                },
            )
        } else {
            before
        }
    }
}

/// Adds the annotations of a diff line, if annotations are shown.
pub fn add_annotations_for_line(
    out: &mut Vec<DisplayLine>,
    annotations: &[Annotation],
    show_annotations: bool,
    file_idx: usize,
    file_path: &str,
    line: &DiffLine,
)
    ensures
        display_views(final(out)@) == display_views(old(out)@) + (if show_annotations {
            annotation_lines(annotation_views(annotations@), file_idx as int, file_path@, line@)
        } else {
            Seq::empty()
        }),
{
    if !show_annotations {
        assert(display_views(out@) =~= display_views(old(out)@) + Seq::empty());
        return ;
    }
    let line_no = match line.new_line_no {
        Some(n) => n,
        None => match line.old_line_no {
            Some(n) => n,
            None => 0,
        },
    };
    let side = if line.new_line_no.is_some() {
        Side::New
    } else {
        Side::Old
    };
    let ghost av = annotation_views(annotations@);
    let ghost start = display_views(out@);
    let mut i: usize = 0;
    assert(av.take(0) =~= Seq::empty());
    assert(display_views(out@) =~= start + annotation_lines(
        av.take(0),
        file_idx as int,
        file_path@,
        line@,
    ));
    while i < annotations.len()
        invariant
            i <= annotations@.len(),
            av == annotation_views(annotations@),
            line_no == annotated_line_no(line@),
            side == annotated_side(line@),
            display_views(out@) == start + annotation_lines(
                av.take(i as int),
                file_idx as int,
                file_path@,
                line@,
            ),
        decreases annotations@.len() - i,
    {
        let a = &annotations[i];
        proof {
            assert(av.take(i + 1).drop_last() =~= av.take(i as int));
            assert(av.take(i + 1).last() == a@);
        }
        let ghost before = out@;
        if str_eq(a.file_path.as_str(), file_path) && a.side == side && a.start_line == line_no
            && a.covers(line_no) {
            let orphaned = a.side == Side::New && !a.anchor_text.as_str().is_empty() && !str_eq(
                trim(a.anchor_text.as_str()).as_str(),
                trim(line.content.as_str()).as_str(),
            );
            out.push(DisplayLine::Annotation { annotation: a.clone(), file_idx, orphaned });
            assert(display_views(out@) =~= display_views(before).push(out@.last()@));
        }
        i = i + 1;
        assert(display_views(out@) =~= start + annotation_lines(
            av.take(i as int),
            file_idx as int,
            file_path@,
            line@,
        ));
    }
    assert(av.take(i as int) =~= av);
}

/// Whether some annotation of a side of a file covers a line, starting at it
/// (`at`) or above it.
pub open spec fn marks(
    annotations: Seq<AnnotationV>,
    file_path: Seq<char>,
    side: Side,
    line_no: u32,
    at: bool,
) -> bool {
    exists|k: int|
        0 <= k < annotations.len() && (#[trigger] annotations[k]).file_path == file_path
            && annotations[k].side == side && annotations[k].covers(line_no) && (
        annotations[k].start_line == line_no) == at
}

/// The mark beside a line: a dot where an annotation starts, a bar where one
/// that started above goes on.
pub open spec fn marker_of(
    annotations: Seq<AnnotationV>,
    file_path: Seq<char>,
    side: Side,
    line_no: u32,
) -> Option<char> {
    if marks(annotations, file_path, side, line_no, true) {
        Some('●')
    } else if marks(annotations, file_path, side, line_no, false) {
        Some('│')
    } else {
        None
    }
}

/// The mark beside a line of a file.
pub fn annotation_marker_for_line(
    annotations: &[Annotation],
    file_path: &str,
    side: Side,
    line_no: u32,
) -> (r: Option<char>)
    ensures
        r == marker_of(annotation_views(annotations@), file_path@, side, line_no),
{
    let ghost av = annotation_views(annotations@);
    let mut has_range = false;
    let mut i: usize = 0;
    while i < annotations.len()
        invariant
            i <= annotations@.len(),
            av == annotation_views(annotations@),
            forall|k: int|
                0 <= k < i ==> !((#[trigger] av[k]).file_path == file_path@ && av[k].side == side
                    && av[k].covers(line_no) && av[k].start_line == line_no),
            has_range <==> exists|k: int|
                0 <= k < i && (#[trigger] av[k]).file_path == file_path@ && av[k].side == side
                    && av[k].covers(line_no) && av[k].start_line != line_no,
        decreases annotations@.len() - i,
    {
        let a = &annotations[i];
        assert(av[i as int] == a@);
        if str_eq(a.file_path.as_str(), file_path) && a.side == side && a.covers(line_no) {
            if a.start_line == line_no {
                assert(marks(av, file_path@, side, line_no, true));
                return Some('●');
            }
            has_range = true;
        }
        i = i + 1;
    }
    assert(!marks(av, file_path@, side, line_no, true));
    assert(has_range <==> marks(av, file_path@, side, line_no, false));
    if has_range {
        Some('│')
    } else {
        None
    }
}

// ---------------------------------------------------------------------------
// Hunks
// ---------------------------------------------------------------------------
/// How many lines of a kind there are.
pub open spec fn count_kind(lines: Seq<DiffLineV>, kind: LineKind) -> nat
    decreases lines.len(),
{
    if lines.len() == 0 {
        0
    } else {
        count_kind(lines.drop_last(), kind) + (if lines.last().kind == kind {
            1nat
        } else {
            0nat
        })
    }
}

/// The text of a hunk's context line: the header without the markers and the
/// white space around it. A blank header gives none.
pub open spec fn context_text(header: Option<Seq<char>>) -> Option<Seq<char>> {
    match header {
        Some(text) => if trimmed(text).len() == 0 {
            None
        } else {
            Some(trimmed(without_prefixes(trimmed(text), "@@"@)))
        },
        None => None,
    }
}

/// What the lines of a file are built with.
pub struct BuildV {
    pub annotations: Seq<AnnotationV>,
    pub show_annotations: bool,
    pub file_idx: int,
    pub file_path: Seq<char>,
}

impl BuildV {
    /// The annotations shown below a line.
    pub open spec fn annotations_of(self, line: DiffLineV) -> Seq<DisplayLineV> {
        if self.show_annotations {
            annotation_lines(self.annotations, self.file_idx, self.file_path, line)
        } else {
            Seq::empty()
        }
    }

    /// A diff line with the annotations below it.
    pub open spec fn with_annotations(self, line: DiffLineV, hunk_idx: Option<int>) -> Seq<
        DisplayLineV,
    > {
        seq![
            DisplayLineV::Diff { line, file_idx: self.file_idx, file_path: self.file_path, hunk_idx },
        ] + self.annotations_of(line)
    }
}

/// The highlights of a file, line by line; a list of them for each line.
pub open spec fn map_views(map: Seq<Vec<HighlightRange>>) -> Seq<Seq<HighlightRange>> {
    Seq::new(map.len(), |i: int| map[i]@)
}

/// The index of a line number in a list of lines.
pub open spec fn line_index(line_no: u32) -> int {
    if line_no == 0 {
        0
    } else {
        line_no - 1
    }
}

/// Line `i` of a hunk as it is shown: with its changed ranges, and with the
/// highlights of the whole file where there are some for it, else with those
/// of the hunk.
pub open spec fn shown_line(
    lines: Seq<DiffLineV>,
    i: int,
    inline: Seq<Seq<InlineRange>>,
    hunk_map: Seq<Seq<HighlightRange>>,
    full_map: Option<Seq<Seq<HighlightRange>>>,
) -> DiffLineV {
    let line = lines[i];
    DiffLineV {
        inline_ranges: if i < inline.len() {
            inline[i]
        } else {
            line.inline_ranges
        },
        highlights: match (full_map, line.new_line_no) {
            (Some(map), Some(n)) if line_index(n) < map.len() => map[line_index(n)],
            _ => if i < hunk_map.len() {
                hunk_map[i]
            } else {
                line.highlights
            },
        },
        ..line
    }
}

/// The first `n` lines of a hunk, each with its annotations.
pub open spec fn hunk_body(
    b: BuildV,
    hunk_idx: int,
    lines: Seq<DiffLineV>,
    n: int,
    inline: Seq<Seq<InlineRange>>,
    hunk_map: Seq<Seq<HighlightRange>>,
    full_map: Option<Seq<Seq<HighlightRange>>>,
) -> Seq<DisplayLineV>
    decreases n,
{
    if n <= 0 {
        Seq::empty()
    } else {
        hunk_body(b, hunk_idx, lines, n - 1, inline, hunk_map, full_map) + b.with_annotations(
            shown_line(lines, n - 1, inline, hunk_map, full_map),
            Some(hunk_idx),
        )
    }
}

/// What stands above the lines of a hunk.
pub open spec fn hunk_head(
    b: BuildV,
    hunk_idx: int,
    hunk: DiffHunkV,
    header_highlights: Seq<HighlightRange>,
) -> Seq<DisplayLineV> {
    seq![DisplayLineV::Spacer] + (match context_text(hunk.header) {
        Some(text) => seq![
            DisplayLineV::HunkContext {
                text,
                line_no: hunk.new_start,
                highlights: header_highlights,
            },
        ],
        None => Seq::empty(),
    }) + seq![
        DisplayLineV::HunkHeader {
            line_no: hunk.new_start,
            additions: count_kind(hunk.lines, LineKind::Addition),
            deletions: count_kind(hunk.lines, LineKind::Deletion),
            file_idx: b.file_idx,
            hunk_idx,
        },
    ]
}

/// The display lines of a hunk.
pub open spec fn hunk_display(
    b: BuildV,
    hunk_idx: int,
    hunk: DiffHunkV,
    inline: Seq<Seq<InlineRange>>,
    header_highlights: Seq<HighlightRange>,
    hunk_map: Seq<Seq<HighlightRange>>,
    full_map: Option<Seq<Seq<HighlightRange>>>,
) -> Seq<DisplayLineV> {
    hunk_head(b, hunk_idx, hunk, header_highlights) + hunk_body(
        b,
        hunk_idx,
        hunk.lines,
        hunk.lines.len() as int,
        inline,
        hunk_map,
        full_map,
    ) + seq![DisplayLineV::HunkEnd { file_idx: b.file_idx, hunk_idx }]
}

/// What the lines of a file are built with.
pub struct Build<'a> {
    pub annotations: &'a [Annotation],
    pub show_annotations: bool,
    pub file_idx: usize,
    pub file_path: &'a str,
}

impl<'a> View for Build<'a> {
    type V = BuildV;

    open spec fn view(&self) -> BuildV {
        BuildV {
            annotations: annotation_views(self.annotations@),
            show_annotations: self.show_annotations,
            file_idx: self.file_idx as int,
            file_path: self.file_path@,
        }
    }
}

/// Adds one display line.
pub fn push_line(out: &mut Vec<DisplayLine>, line: DisplayLine)
    ensures
        display_views(final(out)@) == display_views(old(out)@).push(line@),
{
    out.push(line);
    assert(display_views(out@) =~= display_views(old(out)@).push(line@));
}

/// How many lines are of a kind.
pub fn count_lines(lines: &[DiffLine], kind: LineKind) -> (n: usize)
    ensures
        n == count_kind(line_views(lines@), kind),
{
    let ghost lv = line_views(lines@);
    let mut n: usize = 0;
    let mut i: usize = 0;
    assert(lv.take(0) =~= Seq::empty());
    while i < lines.len()
        invariant
            i <= lines@.len(),
            lv == line_views(lines@),
            n <= i,
            n == count_kind(lv.take(i as int), kind),
        decreases lines@.len() - i,
    {
        assert(lv.take(i + 1).drop_last() =~= lv.take(i as int));
        if lines[i].kind == kind {
            n = n + 1;
        }
        i = i + 1;
    }
    assert(lv.take(i as int) =~= lv);
    n
}

/// The text of a hunk's context line.
pub fn hunk_context_text(header: &Option<String>) -> (r: Option<String>)
    ensures
        opt_text(r) == context_text(opt_text(*header)),
{
    match header {
        Some(text) => {
            let t = trim(text.as_str());
            if t.as_str().is_empty() {
                None
            } else {
                Some(trim(trim_prefixes(t.as_str(), "@@").as_str()))
            }
        },
        None => None,
    }
}

/// A diff line with its changed ranges and its highlights.
fn prepare_line(
    lines: &[DiffLine],
    i: usize,
    inline: &[Vec<InlineRange>],
    hunk_map: &[Vec<HighlightRange>],
    full_map: Option<&Vec<Vec<HighlightRange>>>,
) -> (r: DiffLine)
    requires
        i < lines@.len(),
    ensures
        r@ == shown_line(
            line_views(lines@),
            i as int,
            range_views(inline@),
            map_views(hunk_map@),
            match full_map {
                Some(map) => Some(map_views(map@)),
                None => None,
            },
        ),
{
    let mut line = lines[i].clone();
    if i < inline.len() {
        let ranges = inline[i].clone();
        assert(ranges@ =~= inline@[i as int]@);
        line.inline_ranges = ranges;
    }
    let mut applied = false;
    if let Some(map) = full_map {
        if let Some(n) = line.new_line_no {
            let idx: usize = if n == 0 {
                0
            } else {
                (n - 1) as usize
            };
            if idx < map.len() {
                let ranges = map[idx].clone();
                assert(ranges@ =~= map@[idx as int]@);
                line.highlights = ranges;
                applied = true;
            }
        }
    }
    if !applied && i < hunk_map.len() {
        let ranges = hunk_map[i].clone();
        assert(ranges@ =~= hunk_map@[i as int]@);
        line.highlights = ranges;
    }
    line
}

/// Adds the display lines of a hunk.
pub fn push_hunk_lines(
    out: &mut Vec<DisplayLine>,
    b: &Build,
    hunk_idx: usize,
    hunk: &DiffHunk,
    inline: &[Vec<InlineRange>],
    header_highlights: Vec<HighlightRange>,
    hunk_map: &[Vec<HighlightRange>],
    full_map: Option<&Vec<Vec<HighlightRange>>>,
)
    ensures
        display_views(final(out)@) == display_views(old(out)@) + hunk_display(
            b@,
            hunk_idx as int,
            hunk@,
            range_views(inline@),
            header_highlights@,
            map_views(hunk_map@),
            match full_map {
                Some(map) => Some(map_views(map@)),
                None => None,
            },
        ),
{
    let ghost start = display_views(out@);
    let ghost full = match full_map {
        Some(map) => Some(map_views(map@)),
        None => None,
    };
    let ghost lv = line_views(hunk.lines@);
    let ghost head = hunk_head(b@, hunk_idx as int, hunk@, header_highlights@);
    let additions = count_lines(&hunk.lines, LineKind::Addition);
    let deletions = count_lines(&hunk.lines, LineKind::Deletion);
    push_line(out, DisplayLine::Spacer);
    if let Some(text) = hunk_context_text(&hunk.header) {
        push_line(
            out,
            DisplayLine::HunkContext {
                text,
                line_no: hunk.new_start,
                highlights: header_highlights,
            },
        );
    }
    push_line(
        out,
        DisplayLine::HunkHeader {
            line_no: hunk.new_start,
            additions,
            deletions,
            file_idx: b.file_idx,
            hunk_idx,
        },
    );
    assert(display_views(out@) =~= start + head);
    let mut i: usize = 0;
    assert(display_views(out@) =~= start + head + hunk_body(
        b@,
        hunk_idx as int,
        lv,
        0,
        range_views(inline@),
        map_views(hunk_map@),
        full,
    ));
    while i < hunk.lines.len()
        invariant
            i <= hunk.lines@.len(),
            lv == line_views(hunk.lines@),
            full == (match full_map {
                Some(map) => Some(map_views(map@)),
                None => None,
            }),
            display_views(out@) == start + head + hunk_body(
                b@,
                hunk_idx as int,
                lv,
                i as int,
                range_views(inline@),
                map_views(hunk_map@),
                full,
            ),
        decreases hunk.lines@.len() - i,
    {
        let line = prepare_line(&hunk.lines, i, inline, hunk_map, full_map);
        let copy = line.clone();
        push_line(
            out,
            DisplayLine::Diff {
                line: copy,
                file_idx: b.file_idx,
                file_path: b.file_path.to_owned(),
                hunk_idx: Some(hunk_idx),
            },
        );
        add_annotations_for_line(
            out,
            b.annotations,
            b.show_annotations,
            b.file_idx,
            b.file_path,
            &line,
        );
        i = i + 1;
        assert(display_views(out@) =~= start + head + hunk_body(
            b@,
            hunk_idx as int,
            lv,
            i as int,
            range_views(inline@),
            map_views(hunk_map@),
            full,
        ));
    }
    push_line(out, DisplayLine::HunkEnd { file_idx: b.file_idx, hunk_idx });
    assert(display_views(out@) =~= start + hunk_display(
        b@,
        hunk_idx as int,
        hunk@,
        range_views(inline@),
        header_highlights@,
        map_views(hunk_map@),
        full,
    ));
}

// ---------------------------------------------------------------------------
// Laws
// ---------------------------------------------------------------------------
/// Whether a line is shown as it is: under its kind, its numbers and its text.
pub open spec fn same_line(a: DiffLineV, b: DiffLineV) -> bool {
    a.kind == b.kind && a.old_line_no == b.old_line_no && a.new_line_no == b.new_line_no && a.content
        == b.content
}

proof fn lemma_annotations_only(b: BuildV, line: DiffLineV)
    ensures
        forall|i: int|
            0 <= i < b.annotations_of(line).len() ==> (#[trigger] b.annotations_of(line)[i]
                matches DisplayLineV::Annotation { annotation, orphaned, .. } && annotation.file_path
                == b.file_path && shown_at(annotation, b.file_path, line) && orphaned == orphaned_at(
                annotation,
                line,
            )),
{
    lemma_annotation_lines_only(b.annotations, b.file_idx, b.file_path, line);
}

proof fn lemma_annotation_lines_only(
    annotations: Seq<AnnotationV>,
    file_idx: int,
    file_path: Seq<char>,
    line: DiffLineV,
)
    ensures
        forall|i: int|
            0 <= i < annotation_lines(annotations, file_idx, file_path, line).len() ==> (
            #[trigger] annotation_lines(annotations, file_idx, file_path, line)[i]
                matches DisplayLineV::Annotation { annotation, orphaned, .. } && annotation.file_path
                == file_path && shown_at(annotation, file_path, line) && orphaned == orphaned_at(
                annotation,
                line,
            )),
    decreases annotations.len(),
{
    if annotations.len() > 0 {
        lemma_annotation_lines_only(annotations.drop_last(), file_idx, file_path, line);
        let before = annotation_lines(annotations.drop_last(), file_idx, file_path, line);
        let now = annotation_lines(annotations, file_idx, file_path, line);
        assert forall|i: int| 0 <= i < now.len() implies (#[trigger] now[i] matches
            DisplayLineV::Annotation { annotation, orphaned, .. } && annotation.file_path
            == file_path && shown_at(annotation, file_path, line) && orphaned == orphaned_at(
            annotation,
            line,
        )) by {
            if i < before.len() {
                assert(now[i] == before[i]);
            }
        }
    }
}

/// The lines of files of two parts of the display, one behind the other.
pub proof fn lemma_diff_lines_concat(a: Seq<DisplayLineV>, b: Seq<DisplayLineV>, n: int)
    requires
        0 <= n <= b.len(),
    ensures
        diff_lines_of(a + b, 0, a.len() + n) == diff_lines_of(a, 0, a.len() as int) + diff_lines_of(
            b,
            0,
            n,
        ),
    decreases n,
{
    let whole = a + b;
    if n == 0 {
        lemma_diff_lines_prefix(a, whole, a.len() as int);
        assert(diff_lines_of(a, 0, a.len() as int) + diff_lines_of(b, 0, 0) =~= diff_lines_of(
            a,
            0,
            a.len() as int,
        ));
    } else {
        lemma_diff_lines_concat(a, b, n - 1);
        assert(whole[a.len() + n - 1] == b[n - 1]);
        let left = diff_lines_of(a, 0, a.len() as int);
        let right = diff_lines_of(b, 0, n - 1);
        if b[n - 1] is Diff {
            assert(left + right.push(b[n - 1]->Diff_line) =~= (left + right).push(
                b[n - 1]->Diff_line,
            ));
        }
    }
}

proof fn lemma_diff_lines_prefix(a: Seq<DisplayLineV>, whole: Seq<DisplayLineV>, n: int)
    requires
        0 <= n <= a.len() <= whole.len(),
        forall|i: int| 0 <= i < a.len() ==> whole[i] == #[trigger] a[i],
    ensures
        diff_lines_of(whole, 0, n) == diff_lines_of(a, 0, n),
    decreases n,
{
    if n > 0 {
        lemma_diff_lines_prefix(a, whole, n - 1);
        assert(whole[n - 1] == a[n - 1]);
    }
}

/// Where no line of a file is shown, there is none to read.
pub proof fn lemma_no_diff_lines(lines: Seq<DisplayLineV>, n: int)
    requires
        0 <= n <= lines.len(),
        forall|i: int| 0 <= i < lines.len() ==> !((#[trigger] lines[i]) is Diff),
    ensures
        diff_lines_of(lines, 0, n) == Seq::<DiffLineV>::empty(),
    decreases n,
{
    if n > 0 {
        lemma_no_diff_lines(lines, n - 1);
    }
}

proof fn lemma_line_with_annotations(b: BuildV, line: DiffLineV, hunk_idx: Option<int>)
    ensures
        ({
            let v = b.with_annotations(line, hunk_idx);
            diff_lines_of(v, 0, v.len() as int) == seq![line]
        }),
{
    let one = seq![
        DisplayLineV::Diff { line, file_idx: b.file_idx, file_path: b.file_path, hunk_idx },
    ];
    let more = b.annotations_of(line);
    lemma_annotations_only(b, line);
    lemma_no_diff_lines(more, more.len() as int);
    lemma_diff_lines_concat(one, more, more.len() as int);
    reveal_with_fuel(diff_lines_of, 2);
    assert(diff_lines_of(one, 0, 1) =~= seq![line]);
    assert(seq![line] + Seq::<DiffLineV>::empty() =~= seq![line]);
}

proof fn lemma_hunk_body_lines(
    b: BuildV,
    hunk_idx: int,
    lines: Seq<DiffLineV>,
    n: int,
    inline: Seq<Seq<InlineRange>>,
    hunk_map: Seq<Seq<HighlightRange>>,
    full_map: Option<Seq<Seq<HighlightRange>>>,
)
    requires
        0 <= n <= lines.len(),
    ensures
        ({
            let v = hunk_body(b, hunk_idx, lines, n, inline, hunk_map, full_map);
            let shown = diff_lines_of(v, 0, v.len() as int);
            &&& shown.len() == n
            &&& forall|i: int| 0 <= i < n ==> same_line(#[trigger] shown[i], lines[i])
        }),
    decreases n,
{
    if n > 0 {
        lemma_hunk_body_lines(b, hunk_idx, lines, n - 1, inline, hunk_map, full_map);
        let before = hunk_body(b, hunk_idx, lines, n - 1, inline, hunk_map, full_map);
        let line = shown_line(lines, n - 1, inline, hunk_map, full_map);
        let more = b.with_annotations(line, Some(hunk_idx));
        lemma_line_with_annotations(b, line, Some(hunk_idx));
        lemma_diff_lines_concat(before, more, more.len() as int);
        let shown = diff_lines_of(before + more, 0, (before.len() + more.len()) as int);
        let left = diff_lines_of(before, 0, before.len() as int);
        assert(shown == left + seq![line]);
        assert forall|i: int| 0 <= i < n implies same_line(#[trigger] shown[i], lines[i]) by {
            if i < n - 1 {
                assert(shown[i] == left[i]);
            }
        }
    }
}

/// The lines that are shown of a hunk are its lines, in order, each under its kind,
/// its numbers and its text. In front of them stands a header with the line where
/// the hunk begins and the numbers of its additions and deletions.
pub proof fn law_hunk_shown(
    b: BuildV,
    hunk_idx: int,
    hunk: DiffHunkV,
    inline: Seq<Seq<InlineRange>>,
    header_highlights: Seq<HighlightRange>,
    hunk_map: Seq<Seq<HighlightRange>>,
    full_map: Option<Seq<Seq<HighlightRange>>>,
) -> (at: int)
    ensures
        ({
            let v = hunk_display(b, hunk_idx, hunk, inline, header_highlights, hunk_map, full_map);
            let shown = diff_lines_of(v, 0, v.len() as int);
            &&& shown.len() == hunk.lines.len()
            &&& forall|i: int| 0 <= i < shown.len() ==> same_line(#[trigger] shown[i], hunk.lines[i])
            &&& 0 <= at < v.len()
            &&& forall|i: int| 0 <= i < at ==> !((#[trigger] v[i]) is Diff)
            &&& v[at] matches DisplayLineV::HunkHeader {
                line_no,
                additions,
                deletions,
                file_idx,
                hunk_idx: h,
            } && line_no == hunk.new_start && additions + texts_without(
                hunk.lines,
                LineKind::Addition,
            ).len() == hunk.lines.len() && deletions + texts_without(
                hunk.lines,
                LineKind::Deletion,
            ).len() == hunk.lines.len() && file_idx == b.file_idx && h == hunk_idx
        }),
{
    let head = hunk_head(b, hunk_idx, hunk, header_highlights);
    let body = hunk_body(
        b,
        hunk_idx,
        hunk.lines,
        hunk.lines.len() as int,
        inline,
        hunk_map,
        full_map,
    );
    let end = seq![DisplayLineV::HunkEnd { file_idx: b.file_idx, hunk_idx }];
    let v = hunk_display(b, hunk_idx, hunk, inline, header_highlights, hunk_map, full_map);
    lemma_hunk_body_lines(
        b,
        hunk_idx,
        hunk.lines,
        hunk.lines.len() as int,
        inline,
        hunk_map,
        full_map,
    );
    lemma_no_diff_lines(head, head.len() as int);
    lemma_no_diff_lines(end, 1);
    lemma_diff_lines_concat(head, body, body.len() as int);
    lemma_diff_lines_concat(head + body, end, 1);
    let shown = diff_lines_of(body, 0, body.len() as int);
    assert(Seq::<DiffLineV>::empty() + shown + Seq::<DiffLineV>::empty() =~= shown);
    lemma_count_kind(hunk.lines, LineKind::Addition);
    lemma_count_kind(hunk.lines, LineKind::Deletion);
    let at = head.len() - 1;
    assert(v[at] == head[at]);
    assert forall|i: int| 0 <= i < at implies !((#[trigger] v[i]) is Diff) by {
        assert(v[i] == head[i]);
    }
    at
}

proof fn lemma_count_kind(lines: Seq<DiffLineV>, kind: LineKind)
    ensures
        count_kind(lines, kind) + texts_without(lines, kind).len() == lines.len(),
    decreases lines.len(),
{
    if lines.len() > 0 {
        lemma_count_kind(lines.drop_last(), kind);
    }
}

/// Below a line, exactly the annotations are shown that begin there: those of its
/// file and its side whose first line has its number. One counts as orphaned exactly
/// if it is of the new side and remembers another text than the line has, blanks
/// around aside.
pub proof fn law_annotations_below(b: BuildV, line: DiffLineV, a: AnnotationV)
    requires
        b.show_annotations,
        line.new_line_no is Some || line.old_line_no is Some,
        a.end_line matches Some(end) ==> a.start_line <= end,
    ensures
        (exists|i: int|
            0 <= i < b.annotations_of(line).len() && (#[trigger] b.annotations_of(line)[i] matches
                DisplayLineV::Annotation { annotation, .. } && annotation == a)) <==> (
        b.annotations.contains(a) && a.file_path == b.file_path && (match line.new_line_no {
            Some(n) => a.side == Side::New && a.start_line == n,
            None => a.side == Side::Old && Some(a.start_line) == line.old_line_no,
        })),
        forall|i: int|
            0 <= i < b.annotations_of(line).len() ==> (#[trigger] b.annotations_of(line)[i] matches
                DisplayLineV::Annotation { annotation, orphaned, .. } && (orphaned <==> (
            annotation.side == Side::New && annotation.anchor_text.len() > 0 && trimmed(
                annotation.anchor_text,
            ) != trimmed(line.content)))),
{
    lemma_annotations_only(b, line);
    lemma_annotation_among(b.annotations, b.file_idx, b.file_path, line, a);
}

proof fn lemma_annotation_among(
    annotations: Seq<AnnotationV>,
    file_idx: int,
    file_path: Seq<char>,
    line: DiffLineV,
    a: AnnotationV,
)
    ensures
        (exists|i: int|
            0 <= i < annotation_lines(annotations, file_idx, file_path, line).len() && (
            #[trigger] annotation_lines(annotations, file_idx, file_path, line)[i] matches
                DisplayLineV::Annotation { annotation, .. } && annotation == a)) <==> (
        annotations.contains(a) && shown_at(a, file_path, line)),
    decreases annotations.len(),
{
    let now = annotation_lines(annotations, file_idx, file_path, line);
    if annotations.len() > 0 {
        let front = annotations.drop_last();
        let before = annotation_lines(front, file_idx, file_path, line);
        lemma_annotation_among(front, file_idx, file_path, line, a);
        if annotations.contains(a) && shown_at(a, file_path, line) {
            if annotations.last() == a {
                assert(now[now.len() - 1] matches DisplayLineV::Annotation { annotation, .. }
                    && annotation == a);
            } else {
                let k = choose|k: int| 0 <= k < annotations.len() && annotations[k] == a;
                assert(front[k] == a);
                assert(front.contains(a));
                let i = choose|i: int|
                    0 <= i < before.len() && (#[trigger] before[i] matches
                        DisplayLineV::Annotation { annotation, .. } && annotation == a);
                assert(now[i] == before[i]);
            }
        }
        if exists|i: int|
            0 <= i < now.len() && (#[trigger] now[i] matches DisplayLineV::Annotation {
                annotation,
                ..
            } && annotation == a) {
            let i = choose|i: int|
                0 <= i < now.len() && (#[trigger] now[i] matches DisplayLineV::Annotation {
                    annotation,
                    ..
                } && annotation == a);
            if i < before.len() {
                assert(before[i] == now[i]);
                let k = choose|k: int| 0 <= k < front.len() && front[k] == a;
                assert(annotations[k] == a);
            } else {
                assert(annotations[annotations.len() - 1] == a);
            }
        }
    }
}

/// A line is drawn with the highlights of its own text: with those of the line of
/// its new number where the whole new text is highlighted, else with those of its
/// place in the hunk; and with the changed ranges of its place in the hunk.
pub proof fn law_own_highlights(
    lines: Seq<DiffLineV>,
    i: int,
    inline: Seq<Seq<InlineRange>>,
    hunk_map: Seq<Seq<HighlightRange>>,
    full_map: Option<Seq<Seq<HighlightRange>>>,
)
    requires
        0 <= i < lines.len(),
        inline.len() == lines.len(),
        hunk_map.len() == lines.len(),
    ensures
        ({
            let l = shown_line(lines, i, inline, hunk_map, full_map);
            &&& same_line(l, lines[i])
            &&& l.inline_ranges == inline[i]
            &&& full_map is None || lines[i].new_line_no is None ==> l.highlights == hunk_map[i]
            &&& full_map matches Some(map) ==> (lines[i].new_line_no matches Some(n) ==> 1 <= n
                <= map.len() ==> l.highlights == map[n - 1])
        }),
{
}

} // verus!
