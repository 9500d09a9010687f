//! Building the display from the files of a diff.
use vstd::prelude::*;

use crate::diff::{hunk_views, DiffFile, DiffFileV, DiffHunk, DiffHunkV, FileStatus, HighlightRange};
use crate::display::{
    context_text, display_views, hunk_context_text, hunk_display, map_views, push_hunk_lines,
    Build, BuildV, DisplayLine, DisplayLineV,
};
use crate::expand::{
    deletions_of, has_deletions, hunk_inline_ranges, inline_of, push_expanded_lines, Expansion,
    ExpansionV,
};
use crate::schedule::{law_scheduled_knows_same, lemma_maps_insert, DiffRef, HighlightsV};
use crate::screen::{lemma_adjusted_frame, lemma_landed_frame, Screen, ScreenV};
use crate::state::{covered, tiled, App, AppV, Disk, DiskV};
use crate::syntax::{opt_str, to_highlight_map, SyntaxHighlighter};
use crate::text::{lines, lines_of, opt_text, texts};

verus! {

/// The header of a file, with space above it where other files come before.
pub open spec fn header_lines(file_idx: int, file: DiffFileV, spacer: bool) -> Seq<DisplayLineV> {
    (if spacer {
        seq![DisplayLineV::Spacer, DisplayLineV::Spacer]
    } else {
        Seq::empty()
    }) + seq![DisplayLineV::FileHeader { path: file.path(), file_idx }]
}

impl AppV {
    /// What the lines of a file are built with.
    pub open spec fn build(self, file_idx: int, file: DiffFileV) -> BuildV {
        BuildV {
            annotations: self.annotations,
            show_annotations: self.show_annotations,
            file_idx,
            file_path: file.path(),
        }
    }

    /// The highlights of the lines of a hunk: none of each line if highlighting is
    /// off.
    pub open spec fn hunk_map(self, path: Seq<char>, hunk: DiffHunkV, disk: DiskV) -> Seq<
        Seq<HighlightRange>,
    > {
        if self.config.syntax_highlighting {
            self.highlighter.lines_map(path, disk.first_line(path), contents(hunk))
        } else {
            Seq::new(hunk.lines.len(), |i: int| Seq::<HighlightRange>::empty())
        }
    }

    /// The highlights of the context line of a hunk.
    pub open spec fn header_map(self, path: Seq<char>, header: Option<Seq<char>>, disk: DiskV) -> Seq<
        HighlightRange,
    > {
        match context_text(header) {
            Some(text) if self.config.syntax_highlighting => {
                let map = self.highlighter.text_map(
                    path,
                    disk.first_line(path),
                    text.push('\n'),
                );
                if map.len() > 0 {
                    map.last()
                } else {
                    Seq::empty()
                }
            },
            _ => Seq::empty(),
        }
    }

    /// The highlights of the new text of a file, if it has been highlighted.
    pub open spec fn full_map(self, path: Seq<char>) -> Option<Seq<Seq<HighlightRange>>> {
        if self.highlights.cached_new.contains_key(path) {
            Some(self.highlights.cached_new[path])
        } else {
            None
        }
    }

    /// The lines of hunk `h` of a file.
    pub open spec fn hunk_lines(self, file_idx: int, file: DiffFileV, h: int, disk: DiskV) -> Seq<
        DisplayLineV,
    > {
        let hunk = file.hunks[h];
        hunk_display(
            self.build(file_idx, file),
            h,
            hunk,
            inline_of(hunk, self.loading),
            self.header_map(file.path(), hunk.header, disk),
            self.hunk_map(file.path(), hunk, disk),
            self.full_map(file.path()),
        )
    }

    /// The lines of the first `n` hunks of a file.
    pub open spec fn hunks_display(self, file_idx: int, file: DiffFileV, n: int, disk: DiskV) -> Seq<
        DisplayLineV,
    >
        decreases n,
    {
        if n <= 0 {
            Seq::empty()
        } else {
            self.hunks_display(file_idx, file, n - 1, disk) + self.hunk_lines(
                file_idx,
                file,
                n - 1,
                disk,
            )
        }
    }

    /// The highlights of the new text of a file that is expanded: those that were
    /// made before, or else those of its text.
    pub open spec fn new_map(self, file: DiffFileV, disk: DiskV) -> Seq<Seq<HighlightRange>> {
        let path = file.path();
        if !self.config.syntax_highlighting {
            Seq::empty()
        } else if self.highlights.full.contains(path) {
            match self.full_map(path) {
                Some(map) => map,
                None => Seq::empty(),
            }
        } else {
            self.highlighter.text_map(path, disk.first_line(path), disk.text_of(path))
        }
    }

    /// Whether the old text of a file that is expanded is highlighted.
    pub open spec fn wants_old(self, file: DiffFileV) -> bool {
        self.config.syntax_highlighting && file.old_key().len() > 0 && deletions_of(
            file.hunks,
            file.hunks.len() as int,
        ).len() > 0
    }

    /// The highlights of the old text of a file, as far as it was read.
    pub open spec fn old_text_map(self, file: DiffFileV, disk: DiskV) -> Seq<Seq<HighlightRange>> {
        let key = file.old_key();
        if disk.old.contains_key(key) && file.status != FileStatus::Added {
            self.highlighter.text_map(key, disk.first_line(key), disk.old[key]@)
        } else {
            Seq::empty()
        }
    }

    /// The highlights of the old text of a file that is expanded: none if nothing
    /// is deleted, those that were made before, or else those of its text.
    pub open spec fn old_map(self, file: DiffFileV, disk: DiskV) -> Seq<Seq<HighlightRange>> {
        if !self.wants_old(file) {
            Seq::empty()
        } else if self.highlights.cached_old.contains_key(file.old_key()) {
            self.highlights.cached_old[file.old_key()]
        } else {
            self.old_text_map(file, disk)
        }
    }

    /// What a file is expanded from.
    pub open spec fn expansion(self, file: DiffFileV, disk: DiskV) -> ExpansionV {
        ExpansionV {
            hunks: file.hunks,
            loading: self.loading,
            show_old: self.show_old,
            highlighting: self.config.syntax_highlighting,
            lines: lines_of(disk.text_of(file.path())),
            old_map: self.old_map(file, disk),
            new_map: self.new_map(file, disk),
        }
    }

    /// Whether only the header of a file is shown.
    pub open spec fn header_only(self, file: DiffFileV) -> bool {
        self.expanded is None && self.screen.collapsed.contains(file.path())
    }

    /// What is shown of a file below its header.
    pub open spec fn file_body(self, file_idx: int, file: DiffFileV, disk: DiskV) -> Seq<
        DisplayLineV,
    > {
        if self.header_only(file) {
            Seq::empty()
        } else if self.expanded is Some {
            self.expansion(file, disk).display(self.build(file_idx, file))
        } else {
            self.hunks_display(file_idx, file, file.hunks.len() as int, disk)
        }
    }

    /// The lines of a file: its header, with space above it where other files
    /// come before, and what is shown below it.
    #[verifier::opaque]
    pub open spec fn file_lines(
        self,
        file_idx: int,
        file: DiffFileV,
        spacer: bool,
        disk: DiskV,
    ) -> Seq<DisplayLineV> {
        header_lines(file_idx, file, spacer) + self.file_body(file_idx, file, disk)
    }

    /// The path of the file that the cursor is in.
    pub open spec fn current_path(self) -> Option<Seq<char>> {
        match self.screen.current_file() {
            Some((path, _)) => Some(path),
            None => None,
        }
    }

    /// The highlights once the lines of a file have been built.
    #[verifier::opaque]
    pub open spec fn highlights_for(self, file: DiffFileV, disk: DiskV) -> HighlightsV {
        if self.header_only(file) {
            self.highlights
        } else if self.expanded is Some {
            let h = if self.config.syntax_highlighting {
                self.highlights.with_new(file.path(), self.new_map(file, disk))
            } else {
                self.highlights
            };
            if self.wants_old(file) {
                h.with_old(file.old_key(), self.old_map(file, disk))
            } else {
                h
            }
        } else {
            self.highlights.scheduled(
                self.config.syntax_highlighting,
                file.path(),
                self.current_path(),
                self.diff(),
            )
        }
    }

    /// With the lines of the first `n` files.
    pub open spec fn built_first(self, n: int, disk: DiskV) -> AppV
        decreases n,
    {
        if n <= 0 {
            AppV {
                screen: ScreenV {
                    lines: Seq::empty(),
                    ranges: Seq::new(self.files.len(), |i: int| None::<(usize, usize)>),
                    ..self.screen
                },
                ..self
            }
        } else {
            self.built_first(n - 1, disk).with_file_built(n - 1, disk)
        }
    }

    /// With the lines of a file behind those of the files before it.
    pub open spec fn with_file_built(self, i: int, disk: DiskV) -> AppV {
        if self.expanded is Some && self.expanded != Some(i) {
            self
        } else {
            let lines = self.file_lines(
                i,
                self.files[i],
                self.screen.lines.len() > 0 && self.expanded is None,
                disk,
            );
            AppV {
                screen: self.screen.with_lines(i, lines),
                highlights: self.highlights_for(self.files[i], disk),
                ..self
            }
        }
    }

    /// With the display built anew.
    #[verifier::opaque]
    pub open spec fn built(self, disk: DiskV) -> AppV {
        self.built_first(self.files.len() as int, disk)
    }

    /// With the display showing one file, expanded.
    pub open spec fn with_expanded_built(self, file_idx: int, disk: DiskV) -> AppV {
        let file = self.files[file_idx];
        AppV {
            screen: self.screen.showing_only(
                file_idx,
                self.files.len() as int,
                self.file_lines(file_idx, file, false, disk),
            ),
            highlights: self.highlights_for(file, disk),
            ..self
        }
    }

    /// With the lines of one file replaced, and the cursor settled.
    pub open spec fn with_file_replaced(self, file_idx: int, disk: DiskV) -> AppV {
        let file = self.files[file_idx];
        let lines = self.file_lines(
            file_idx,
            file,
            any_before(self.screen.ranges, file_idx),
            disk,
        );
        AppV {
            screen: self.screen.respliced(file_idx, lines).settled(self.files.len() as int),
            highlights: self.highlights_for(file, disk),
            ..self
        }
    }

    /// With a place for the lines of every file.
    pub open spec fn with_places(self) -> AppV {
        AppV { screen: self.screen.completed(self.files.len() as int), ..self }
    }

    /// With the lines of one file built anew. While a file is expanded, those
    /// of others are not shown.
    #[verifier::opaque]
    pub open spec fn with_file_updated(self, file_idx: int, disk: DiskV) -> AppV {
        if file_idx >= self.files.len() {
            self
        } else if self.expanded is None {
            self.with_places().with_file_replaced(file_idx, disk)
        } else if self.expanded == Some(file_idx) {
            self.with_places().with_expanded_built(file_idx, disk)
        } else {
            self.with_places()
        }
    }
}

impl ScreenV {
    /// With the lines of a file at the end.
    pub open spec fn with_lines(self, i: int, more: Seq<DisplayLineV>) -> ScreenV {
        ScreenV {
            lines: self.lines + more,
            ranges: self.ranges.update(
                i,
                Some((self.lines.len() as usize, more.len() as usize)),
            ),
            ..self
        }
    }
}

/// Whether some of the first `n` files has lines.
pub open spec fn any_before(ranges: Seq<Option<(usize, usize)>>, n: int) -> bool {
    exists|i: int| 0 <= i < n && i < ranges.len() && (#[trigger] ranges[i]) is Some
}

/// The place of a file's lines: the first, and how many. Lines of a file that
/// has none would follow those of the files before it.
pub open spec fn place_of(ranges: Seq<Option<(usize, usize)>>, i: int) -> (int, int) {
    match ranges[i] {
        Some((start, len)) => (start as int, len as int),
        None => (covered(ranges, i), 0),
    }
}

impl ScreenV {
    /// With a place for the lines of every file.
    pub open spec fn completed(self, files: int) -> ScreenV {
        if self.ranges.len() < files {
            ScreenV {
                ranges: Seq::new(
                    files as nat,
                    |i: int|
                        if i < self.ranges.len() {
                            self.ranges[i]
                        } else {
                            None
                        },
                ),
                ..self
            }
        } else {
            self
        }
    }

    /// With the lines of a file put in the place of those that it has, or behind
    /// those of the files before it where it has none. The lines of the files
    /// behind it move along.
    #[verifier::opaque]
    pub open spec fn respliced(self, file_idx: int, new: Seq<DisplayLineV>) -> ScreenV {
        let (start, len) = place_of(self.ranges, file_idx);
        ScreenV {
            lines: self.lines.take(start) + new + self.lines.skip(start + len),
            ranges: Seq::new(
                self.ranges.len(),
                |i: int|
                    if i == file_idx {
                        Some((start as usize, new.len() as usize))
                    } else if i > file_idx {
                        match self.ranges[i] {
                            Some((s, l)) => Some(((s + new.len() - len) as usize, l)),
                            None => None,
                        }
                    } else {
                        self.ranges[i]
                    },
            ),
            ..self
        }
    }

    /// With the lines of one file and of no other.
    #[verifier::opaque]
    pub open spec fn showing_only(self, file_idx: int, files: int, lines: Seq<DisplayLineV>) -> ScreenV {
        ScreenV {
            lines,
            ranges: Seq::new(
                files as nat,
                |i: int|
                    if i == file_idx {
                        Some((0usize, lines.len() as usize))
                    } else {
                        None
                    },
            ),
            ..self
        }
    }

    /// With the cursor on the display, off a line at the top that it cannot
    /// stand on, and in view.
    #[verifier::opaque]
    pub open spec fn settled(self, files: int) -> ScreenV {
        let clamped = if self.cursor >= self.lines.len() && self.lines.len() > 0 {
            self.at(self.lines.len() - 1)
        } else {
            self
        };
        (if clamped.cursor == 0 {
            clamped.landed()
        } else {
            clamped
        }).adjusted(files)
    }
}

/// More files have at least as many lines.
pub proof fn lemma_covered_monotone(ranges: Seq<Option<(usize, usize)>>, i: int, j: int)
    requires
        0 <= i <= j <= ranges.len(),
    ensures
        0 <= covered(ranges, i) <= covered(ranges, j),
    decreases j,
{
    if i < j {
        lemma_covered_monotone(ranges, i, j - 1);
    } else if i > 0 {
        lemma_covered_monotone(ranges, i - 1, i - 1);
    }
}

proof fn lemma_covered_same(
    a: Seq<Option<(usize, usize)>>,
    b: Seq<Option<(usize, usize)>>,
    n: int,
)
    requires
        0 <= n <= a.len(),
        n <= b.len(),
        forall|i: int|
            0 <= i < n ==> (match ((#[trigger] a[i]), b[i]) {
                (Some((_, k)), Some((_, l))) => k == l,
                (None, None) => true,
                _ => false,
            }),
    ensures
        covered(a, n) == covered(b, n),
    decreases n,
{
    if n > 0 {
        lemma_covered_same(a, b, n - 1);
        assert(match (a[n - 1], b[n - 1]) {
            (Some((_, k)), Some((_, l))) => k == l,
            (None, None) => true,
            _ => false,
        });
    }
}

proof fn lemma_covered_none(ranges: Seq<Option<(usize, usize)>>, m: int, n: int)
    requires
        0 <= m <= n <= ranges.len(),
        forall|i: int| m <= i < n ==> (#[trigger] ranges[i]) is None,
    ensures
        covered(ranges, n) == covered(ranges, m),
    decreases n,
{
    if m < n {
        lemma_covered_none(ranges, m, n - 1);
    }
}

/// Adding places for files without lines keeps the display made up of the
/// files' lines.
pub proof fn lemma_completed_tiled(s: ScreenV, files: int)
    requires
        tiled(s.ranges, s.lines.len() as int),
    ensures
        tiled(s.completed(files).ranges, s.lines.len() as int),
{
    reveal(tiled);
    if s.ranges.len() < files {
        let n = s.ranges.len() as int;
        let t = s.completed(files).ranges;
        assert forall|i: int| 0 <= i < t.len() implies ((#[trigger] t[i]) matches Some((start, _))
            ==> start == covered(t, i)) by {
            if i < n {
                assert(t[i] == s.ranges[i]);
                lemma_covered_same(s.ranges, t, i);
            }
        }
        lemma_covered_same(s.ranges, t, n);
        lemma_covered_none(t, n, files);
    }
}

/// The place of a file's lines lies within the display.
pub proof fn lemma_place_within(s: ScreenV, i: int)
    requires
        tiled(s.ranges, s.lines.len() as int),
        0 <= i < s.ranges.len(),
    ensures
        place_of(s.ranges, i).0 == covered(s.ranges, i),
        place_of(s.ranges, i).0 + place_of(s.ranges, i).1 == covered(s.ranges, i + 1),
        0 <= place_of(s.ranges, i).0,
        0 <= place_of(s.ranges, i).1,
        place_of(s.ranges, i).0 + place_of(s.ranges, i).1 <= s.lines.len(),
{
    reveal(tiled);
    assert(s.ranges[i] matches Some((start, _)) ==> start == covered(s.ranges, i));
    lemma_covered_monotone(s.ranges, 0, i);
    lemma_covered_monotone(s.ranges, i + 1, s.ranges.len() as int);
}

proof fn lemma_respliced_covered(s: ScreenV, i: int, new: Seq<DisplayLineV>, n: int)
    requires
        0 <= i < s.ranges.len(),
        0 <= n <= s.ranges.len(),
        new.len() <= usize::MAX,
    ensures
        covered(s.respliced(i, new).ranges, n) == covered(s.ranges, n) + (if n > i {
            new.len() - place_of(s.ranges, i).1
        } else {
            0
        }),
    decreases n,
{
    reveal(ScreenV::respliced);
    if n > 0 {
        lemma_respliced_covered(s, i, new, n - 1);
    }
}

/// Replacing the lines of a file keeps the display made up of the files'
/// lines.
pub proof fn lemma_respliced_tiled(s: ScreenV, i: int, new: Seq<DisplayLineV>)
    requires
        tiled(s.ranges, s.lines.len() as int),
        0 <= i < s.ranges.len(),
        s.lines.len() <= usize::MAX,
        s.respliced(i, new).lines.len() <= usize::MAX,
    ensures
        tiled(s.respliced(i, new).ranges, s.respliced(i, new).lines.len() as int),
        s.respliced(i, new).lines.len() == s.lines.len() + new.len() - place_of(s.ranges, i).1,
{
    reveal(tiled);
    reveal(ScreenV::respliced);
    let t = s.respliced(i, new);
    let (start, len) = place_of(s.ranges, i);
    lemma_place_within(s, i);
    assert(t.lines.len() == s.lines.len() + new.len() - len);
    assert forall|k: int| 0 <= k < t.ranges.len() implies ((#[trigger] t.ranges[k]) matches Some(
        (from, _),
    ) ==> from == covered(t.ranges, k)) by {
        lemma_respliced_covered(s, i, new, k);
        lemma_place_within(s, k);
        if k > i {
            lemma_covered_monotone(s.ranges, i + 1, k);
        }
    }
    lemma_respliced_covered(s, i, new, s.ranges.len() as int);
}

impl Screen {
    /// Makes a place for the lines of every file.
    fn complete_ranges(&mut self, files: usize)
        ensures
            final(self)@ == old(self)@.completed(files as int),
            final(self)@.ranges.len() >= files,
    {
        let ghost s = self@;
        while self.file_line_ranges.len() < files
            invariant
                self@ == (ScreenV { ranges: self@.ranges, ..s }),
                self@.ranges.len() >= s.ranges.len(),
                self@.ranges.len() <= files || self@.ranges.len() == s.ranges.len(),
                forall|i: int| 0 <= i < s.ranges.len() ==> #[trigger] self@.ranges[i] == s.ranges[i],
                forall|i: int|
                    s.ranges.len() <= i < self@.ranges.len() ==> (#[trigger] self@.ranges[i])
                        is None,
            decreases files - self.file_line_ranges@.len(),
        {
            self.file_line_ranges.push(None);
        }
        assert(self@.ranges =~= s.completed(files as int).ranges);
        assert(self@ =~= s.completed(files as int));
    }

    /// Whether some of the first `n` files has lines.
    fn any_before(&self, n: usize) -> (r: bool)
        ensures
            r == any_before(self@.ranges, n as int),
    {
        let mut i: usize = 0;
        while i < n && i < self.file_line_ranges.len()
            invariant
                i <= n,
                forall|k: int|
                    0 <= k < i && k < self@.ranges.len() ==> (#[trigger] self@.ranges[k]) is None,
            decreases n - i,
        {
            if self.file_line_ranges[i].is_some() {
                assert(self@.ranges[i as int] is Some);
                return true;
            }
            i = i + 1;
        }
        false
    }

    /// The place of a file's lines.
    fn place_of(&self, file_idx: usize) -> (r: (usize, usize))
        requires
            tiled(self@.ranges, self@.lines.len() as int),
            file_idx < self@.ranges.len(),
        ensures
            (r.0 as int, r.1 as int) == place_of(self@.ranges, file_idx as int),
    {
        match self.file_line_ranges[file_idx] {
            Some((start, len)) => (start, len),
            None => {
                let mut at: usize = 0;
                let mut i: usize = 0;
                let total = self.display_lines.len();
                assert(self@.lines.len() == total);
                while i < file_idx
                    invariant
                        i <= file_idx < self@.ranges.len(),
                        tiled(self@.ranges, self@.lines.len() as int),
                        self@.lines.len() == total,
                        at == covered(self@.ranges, i as int),
                    decreases file_idx - i,
                {
                    proof {
                        lemma_place_within(self@, i as int);
                    }
                    if let Some((start, len)) = self.file_line_ranges[i] {
                        at = start + len;
                    }
                    i = i + 1;
                }
                (at, 0)
            },
        }
    }

    /// Replaces the lines of a file.
    fn splice_file(&mut self, file_idx: usize, lines: &mut Vec<DisplayLine>)
        requires
            tiled(old(self)@.ranges, old(self)@.lines.len() as int),
            file_idx < old(self)@.ranges.len(),
        ensures
            final(self)@ == old(self)@.respliced(
                file_idx as int,
                display_views(old(lines)@),
            ),
            tiled(final(self)@.ranges, final(self)@.lines.len() as int),
    {
        let ghost s = self@;
        let ghost new = display_views(lines@);
        reveal(ScreenV::respliced);
        let (start, len) = self.place_of(file_idx);
        let new_len = lines.len();
        let old_total = self.display_lines.len();
        proof {
            lemma_place_within(s, file_idx as int);
            assert(s.lines.len() == old_total);
            assert(new.len() == new_len);
        }
        let ghost all = self.display_lines@;
        let mut tail = self.display_lines.split_off(start + len);
        self.display_lines.truncate(start);
        self.display_lines.append(lines);
        self.display_lines.append(&mut tail);
        let ghost t = s.respliced(file_idx as int, new);
        let total = self.display_lines.len();
        proof {
            assert(display_views(self.display_lines@) =~= t.lines);
            assert(t.lines.len() == total);
            lemma_respliced_tiled(s, file_idx as int, new);
        }
        let files = self.file_line_ranges.len();
        self.file_line_ranges.set(file_idx, Some((start, new_len)));
        let mut i: usize = file_idx + 1;
        while i < files
            invariant
                file_idx < i <= files,
                files == s.ranges.len(),
                self.file_line_ranges@.len() == files,
                tiled(s.ranges, s.lines.len() as int),
                t == s.respliced(file_idx as int, new),
                (start as int, len as int) == place_of(s.ranges, file_idx as int),
                new.len() == new_len,
                total == s.lines.len() + new_len - len,
                forall|k: int| 0 <= k < i ==> #[trigger] self.file_line_ranges@[k] == t.ranges[k],
                forall|k: int|
                    i <= k < s.ranges.len() ==> #[trigger] self.file_line_ranges@[k] == s.ranges[k],
                self@ == (ScreenV { lines: t.lines, ranges: self@.ranges, ..s }),
            decreases files - i,
        {
            reveal(ScreenV::respliced);
            if let Some((s0, l)) = self.file_line_ranges[i] {
                proof {
                    lemma_place_within(s, i as int);
                    lemma_place_within(s, file_idx as int);
                    lemma_covered_monotone(s.ranges, file_idx + 1, i as int);
                    assert(s.ranges[i as int] == Some((s0, l)));
                    assert(len <= s0);
                }
                self.file_line_ranges.set(i, Some((s0 - len + new_len, l)));
            }
            i = i + 1;
        }
        assert(self@.ranges =~= t.ranges);
        assert(self@ =~= t);
    }

    /// Shows the lines of one file and of no other.
    fn show_only(&mut self, file_idx: usize, files: usize, lines: Vec<DisplayLine>)
        requires
            file_idx < files,
        ensures
            final(self)@ == old(self)@.showing_only(
                file_idx as int,
                files as int,
                display_views(lines@),
            ),
            tiled(final(self)@.ranges, final(self)@.lines.len() as int),
    {
        let ghost s = self@;
        let ghost new = display_views(lines@);
        reveal(ScreenV::showing_only);
        reveal(tiled);
        let len = lines.len();
        let mut ranges: Vec<Option<(usize, usize)>> = Vec::new();
        let mut i: usize = 0;
        while i < files
            invariant
                i <= files,
                ranges@.len() == i,
                forall|k: int|
                    0 <= k < i ==> #[trigger] ranges@[k] == (if k == file_idx {
                        Some((0usize, len))
                    } else {
                        None
                    }),
            decreases files - i,
        {
            if i == file_idx {
                ranges.push(Some((0, len)));
            } else {
                ranges.push(None);
            }
            i = i + 1;
        }
        self.display_lines = lines;
        self.file_line_ranges = ranges;
        proof {
            assert(new.len() == len);
            let t = s.showing_only(file_idx as int, files as int, new);
            assert(self@.ranges =~= t.ranges);
            assert(self@ =~= t);
            lemma_covered_none(self@.ranges, 0, file_idx as int);
            lemma_covered_none(self@.ranges, file_idx + 1, files as int);
            assert forall|k: int| 0 <= k < self@.ranges.len() implies ((#[trigger] self@.ranges[k])
                matches Some((from, _)) ==> from == covered(self@.ranges, k)) by {}
        }
    }

    /// Puts the cursor on the display, off a line at the top that it cannot
    /// stand on, and into view.
    fn settle(&mut self, files: usize)
        ensures
            final(self)@ == old(self)@.settled(files as int),
    {
        reveal(ScreenV::settled);
        let ghost s = self@;
        assert(s.lines.len() == self.display_lines@.len());
        if self.current_line_idx >= self.display_lines.len() && self.display_lines.len() > 0 {
            self.current_line_idx = self.display_lines.len() - 1;
            assert(self@ =~= s.at(s.lines.len() - 1));
        }
        if self.current_line_idx == 0 {
            self.ensure_cursor_on_navigable();
        }
        self.adjust_scroll(files);
    }

    /// Adds the lines of a file at the end.
    fn append_lines(&mut self, i: usize, lines: &mut Vec<DisplayLine>)
        requires
            i < old(self)@.ranges.len(),
        ensures
            final(self)@ == old(self)@.with_lines(
                i as int,
                display_views(old(lines)@),
            ),
    {
        let ghost s = self@;
        let ghost more = display_views(lines@);
        let start = self.display_lines.len();
        let len = lines.len();
        assert(s.lines.len() == start && more.len() == len);
        self.display_lines.append(lines);
        self.file_line_ranges.set(i, Some((start, len)));
        assert(self@.lines =~= s.lines + more);
        assert(self@ =~= s.with_lines(i as int, more));
    }
}

/// The texts of the lines of a hunk.
pub open spec fn contents(hunk: DiffHunkV) -> Seq<Seq<char>> {
    Seq::new(hunk.lines.len(), |i: int| hunk.lines[i].content)
}

/// No highlights.
fn empty_map() -> (v: Vec<Vec<HighlightRange>>)
    ensures
        map_views(v@) == Seq::<Seq<HighlightRange>>::empty(),
{
    let v: Vec<Vec<HighlightRange>> = Vec::new();
    assert(map_views(v@) =~= Seq::empty());
    v
}

/// A copy of the highlights of lines.
fn copy_map(map: &[Vec<HighlightRange>]) -> (v: Vec<Vec<HighlightRange>>)
    ensures
        map_views(v@) == map_views(map@),
{
    let mut v: Vec<Vec<HighlightRange>> = Vec::new();
    let mut i: usize = 0;
    while i < map.len()
        invariant
            i <= map@.len(),
            v@.len() == i,
            forall|k: int| 0 <= k < i ==> (#[trigger] v@[k])@ == map@[k]@,
        decreases map@.len() - i,
    {
        let line = &map[i];
        let mut out: Vec<HighlightRange> = Vec::new();
        let mut j: usize = 0;
        while j < line.len()
            invariant
                j <= line@.len(),
                out@ == line@.take(j as int),
            decreases line@.len() - j,
        {
            out.push(line[j]);
            j = j + 1;
            assert(out@ =~= line@.take(j as int));
        }
        assert(out@ =~= line@);
        v.push(out);
        i = i + 1;
    }
    assert(map_views(v@) =~= map_views(map@));
    v
}

/// The highlights of a whole text. The first line is that of the file, if it can
/// be read.
pub fn build_highlight_map_with(
    highlighter: &SyntaxHighlighter,
    content: &str,
    file_path: &str,
    first_line: Option<&str>,
) -> (v: Vec<Vec<HighlightRange>>)
    ensures
        map_views(v@) == highlighter@.text_map(file_path@, opt_str(first_line), content@),
{
    to_highlight_map(&highlighter.highlight_file(content, file_path, first_line))
}

impl Disk {
    /// The first line of a file.
    pub fn first_line(&self, path: &str) -> (r: Option<&str>)
        ensures
            opt_str(r) == self@.first_line(path@),
    {
        match self.first.get(path) {
            Some(line) => Some(line.as_str()),
            None => None,
        }
    }
}

impl App {
    /// The highlights of a whole text.
    pub fn build_highlight_map(&self, content: &str, file_path: &str, disk: &Disk) -> (v: Vec<
        Vec<HighlightRange>,
    >)
        ensures
            map_views(v@) == self@.highlighter.text_map(
                file_path@,
                disk@.first_line(file_path@),
                content@,
            ),
    {
        reveal(App::model);
        build_highlight_map_with(
            &self.highlighter,
            content,
            file_path,
            disk.first_line(file_path),
        )
    }

    /// The highlights of the old and the new text of a file, as far as they
    /// were read: none where highlighting is off, and none of a text that the
    /// file does not have.
    pub fn load_highlight_maps(
        &self,
        file: &DiffFile,
        old_content: Option<&String>,
        new_content: Option<&String>,
        disk: &Disk,
    ) -> (r: (Vec<Vec<HighlightRange>>, Vec<Vec<HighlightRange>>))
        ensures
            map_views(r.0@) == (match old_content {
                Some(c) if self@.config.syntax_highlighting && file.status != FileStatus::Added =>
                    self@.highlighter.text_map(
                    file@.old_key(),
                    disk@.first_line(file@.old_key()),
                    c@,
                ),
                _ => Seq::empty(),
            }),
            map_views(r.1@) == (match new_content {
                Some(c) if self@.config.syntax_highlighting && file.status != FileStatus::Deleted =>
                    self@.highlighter.text_map(
                    file@.new_key(),
                    disk@.first_line(file@.new_key()),
                    c@,
                ),
                _ => Seq::empty(),
            }),
    {
        reveal(App::model);
        let highlighting = self.config.syntax_highlighting;
        let (_, old_key, new_key) = file.highlight_keys();
        let old_map = match old_content {
            Some(c) if highlighting && file.status != FileStatus::Added => self.build_highlight_map(
                c.as_str(),
                old_key.as_str(),
                disk,
            ),
            _ => empty_map(),
        };
        let new_map = match new_content {
            Some(c) if highlighting && file.status != FileStatus::Deleted => self.build_highlight_map(
                c.as_str(),
                new_key.as_str(),
                disk,
            ),
            _ => empty_map(),
        };
        (old_map, new_map)
    }

    /// The highlights of the lines of a hunk, none of each line where
    /// highlighting is off.
    pub fn highlight_hunk_lines(&self, file_path: &str, hunk: &DiffHunk, disk: &Disk) -> (v: Vec<
        Vec<HighlightRange>,
    >)
        ensures
            map_views(v@) == self@.hunk_map(file_path@, hunk@, disk@),
    {
        reveal(App::model);
        let highlighting = self.config.syntax_highlighting;
        let mut texts_of: Vec<String> = Vec::new();
        let mut none: Vec<Vec<HighlightRange>> = Vec::new();
        let mut i: usize = 0;
        while i < hunk.lines.len()
            invariant
                i <= hunk.lines@.len(),
                texts_of@.len() == i,
                none@.len() == i,
                forall|k: int| 0 <= k < i ==> (#[trigger] texts_of@[k])@ == hunk.lines@[k]@.content,
                forall|k: int|
                    0 <= k < i ==> (#[trigger] none@[k])@ == Seq::<HighlightRange>::empty(),
            decreases hunk.lines@.len() - i,
        {
            texts_of.push(hunk.lines[i].content.clone());
            let empty: Vec<HighlightRange> = Vec::new();
            assert(empty@ =~= Seq::empty());
            none.push(empty);
            i = i + 1;
        }
        if !highlighting {
            assert(map_views(none@) =~= self@.hunk_map(file_path@, hunk@, disk@));
            return none;
        }
        assert(texts(texts_of@) =~= contents(hunk@));
        to_highlight_map(
            &self.highlighter.highlight_lines(&texts_of, file_path, disk.first_line(file_path)),
        )
    }

    /// The highlights of a hunk's context line, none where highlighting is off.
    pub fn highlight_header(&self, header: &Option<String>, file_path: &str, disk: &Disk) -> (v: Vec<
        HighlightRange,
    >)
        ensures
            v@ == self@.header_map(file_path@, opt_text(*header), disk@),
    {
        reveal(App::model);
        if let Some(text) = hunk_context_text(header) {
            if self.config.syntax_highlighting {
                let mut line = text;
                line.push('\n');
                let mut map = self.build_highlight_map(line.as_str(), file_path, disk);
                let ghost mv = map_views(map@);
                assert(mv.len() == map@.len());
                if let Some(v) = map.pop() {
                    assert(mv.last() == v@);
                    return v;
                }
            }
        }
        let v: Vec<HighlightRange> = Vec::new();
        assert(v@ =~= Seq::empty());
        v
    }

    /// Adds the lines of a file's hunks.
    fn build_diff_hunk_lines_into(
        &self,
        out: &mut Vec<DisplayLine>,
        file_idx: usize,
        file: &DiffFile,
        file_path: &str,
        disk: &Disk,
    )
        requires
            file_path@ == file@.path(),
        ensures
            display_views(final(out)@) == display_views(old(out)@) + self@.hunks_display(
                file_idx as int,
                file@,
                file@.hunks.len() as int,
                disk@,
            ),
    {
        reveal(App::model);
        let b = Build {
            annotations: &self.all_annotations,
            show_annotations: self.show_annotations,
            file_idx,
            file_path,
        };
        assert(b@ == self@.build(file_idx as int, file@));
        let ghost start = display_views(out@);
        let ghost hv = hunk_views(file.hunks@);
        let full_map = self.highlights.cache_new.get(file_path);
        let mut i: usize = 0;
        assert(start + self@.hunks_display(file_idx as int, file@, 0, disk@) =~= start);
        while i < file.hunks.len()
            invariant
                i <= file.hunks@.len(),
                hv == hunk_views(file.hunks@),
                hv == file@.hunks,
                file_path@ == file@.path(),
                b@ == self@.build(file_idx as int, file@),
                self@.loading == self.diff_loading,
                self@.full_map(file_path@) == (match full_map {
                    Some(map) => Some(map_views(map@)),
                    None => None,
                }),
                display_views(out@) == start + self@.hunks_display(
                    file_idx as int,
                    file@,
                    i as int,
                    disk@,
                ),
            decreases file.hunks@.len() - i,
        {
            let hunk = &file.hunks[i];
            assert(hv[i as int] == hunk@);
            let inline = hunk_inline_ranges(hunk, self.diff_loading);
            let hunk_map = self.highlight_hunk_lines(file_path, hunk, disk);
            let header_map = self.highlight_header(&hunk.header, file_path, disk);
            push_hunk_lines(out, &b, i, hunk, &inline, header_map, &hunk_map, full_map);
            i = i + 1;
            assert(display_views(out@) =~= start + self@.hunks_display(
                file_idx as int,
                file@,
                i as int,
                disk@,
            ));
        }
    }

    /// The highlights of the new text of a file that is expanded. They are kept.
    fn expanded_new_map(&mut self, file: &DiffFile, content: &str, disk: &Disk) -> (map: Vec<
        Vec<HighlightRange>,
    >)
        requires
            content@ == disk@.text_of(file@.path()),
        ensures
            map_views(map@) == old(self)@.new_map(file@, disk@),
            final(self)@ == (AppV {
                highlights: if old(self)@.config.syntax_highlighting {
                    old(self)@.highlights.with_new(file@.path(), map_views(map@))
                } else {
                    old(self)@.highlights
                },
                ..old(self)@
            }),
    {
        reveal(App::model);
        let ghost s0 = self@;
        let key = file.path();
        if !self.config.syntax_highlighting {
            return empty_map();
        }
        if self.highlights.full.contains(key.as_str()) {
            let map = match self.highlights.cache_new.get(key.as_str()) {
                Some(made) => copy_map(made),
                None => empty_map(),
            };
            assert(s0.highlights.full.insert(key@) =~= s0.highlights.full);
            map
        } else {
            let map = self.build_highlight_map(content, key.as_str(), disk);
            let copy = copy_map(&map);
            proof {
                lemma_maps_insert(self.highlights.cache_new@, key@, copy);
            }
            self.highlights.cache_new.insert(key.as_str(), copy);
            self.highlights.full.insert(key.as_str());
            assert(self@.highlights =~= s0.highlights.with_new(key@, map_views(map@)));
            map
        }
    }

    /// The highlights of the old text of a file that is expanded. They are kept.
    fn expanded_old_map(&mut self, file: &DiffFile, disk: &Disk) -> (map: Vec<
        Vec<HighlightRange>,
    >)
        ensures
            map_views(map@) == old(self)@.old_map(file@, disk@),
            final(self)@ == (AppV {
                highlights: if old(self)@.wants_old(file@) {
                    old(self)@.highlights.with_old(file@.old_key(), map_views(map@))
                } else {
                    old(self)@.highlights
                },
                ..old(self)@
            }),
    {
        reveal(App::model);
        let ghost s0 = self@;
        let (_, key, _) = file.highlight_keys();
        if !(self.config.syntax_highlighting && has_deletions(&file.hunks)
            && !key.as_str().is_empty()) {
            return empty_map();
        }
        let made = match self.highlights.cache_old.get(key.as_str()) {
            Some(made) => Some(copy_map(made)),
            None => None,
        };
        match made {
            Some(map) => map,
            None => {
                let (map, _) = self.load_highlight_maps(
                    file,
                    disk.old.get(key.as_str()),
                    None,
                    disk,
                );
                let copy = copy_map(&map);
                proof {
                    lemma_maps_insert(self.highlights.cache_old@, key@, copy);
                }
                self.highlights.cache_old.insert(key.as_str(), copy);
                assert(self@.highlights =~= s0.highlights.with_old(key@, map_views(map@)));
                map
            },
        }
    }

    /// Adds the lines of an expanded file.
    fn build_expanded_file_lines_into(
        &mut self,
        out: &mut Vec<DisplayLine>,
        file_idx: usize,
        file: &DiffFile,
        file_path: &str,
        disk: &Disk,
    )
        requires
            file_path@ == file@.path(),
            old(self)@.expanded is Some,
        ensures
            display_views(final(out)@) == display_views(old(out)@) + old(self)@.expansion(
                file@,
                disk@,
            ).display(old(self)@.build(file_idx as int, file@)),
            final(self)@ == (AppV {
                highlights: old(self)@.highlights_for(file@, disk@),
                ..old(self)@
            }),
    {
        let ghost s0 = self@;
        let content = match disk.text.get(file_path) {
            Some(text) => text.clone(),
            None => String::new(),
        };
        assert(content@ =~= disk@.text_of(file_path@));
        let file_lines = lines(content.as_str());
        let new_map = self.expanded_new_map(file, content.as_str(), disk);
        let old_map = self.expanded_old_map(file, disk);
        proof {
            reveal(AppV::highlights_for);
            assert(self@.highlights == s0.highlights_for(file@, disk@));
        }
        self.push_expansion(out, file_idx, file, file_path, &file_lines, &old_map, &new_map);
    }

    /// Adds the lines of an expanded file, from its lines and its highlights.
    fn push_expansion(
        &self,
        out: &mut Vec<DisplayLine>,
        file_idx: usize,
        file: &DiffFile,
        file_path: &str,
        file_lines: &[String],
        old_map: &[Vec<HighlightRange>],
        new_map: &[Vec<HighlightRange>],
    )
        requires
            file_path@ == file@.path(),
        ensures
            display_views(final(out)@) == display_views(old(out)@) + (ExpansionV {
                hunks: file@.hunks,
                loading: self@.loading,
                show_old: self@.show_old,
                highlighting: self@.config.syntax_highlighting,
                lines: texts(file_lines@),
                old_map: map_views(old_map@),
                new_map: map_views(new_map@),
            }).display(self@.build(file_idx as int, file@)),
    {
        reveal(App::model);
        let e = Expansion {
            hunks: &file.hunks,
            loading: self.diff_loading,
            show_old: self.show_old_in_expanded,
            highlighting: self.config.syntax_highlighting,
            lines: file_lines,
            old_map,
            new_map,
        };
        let b = Build {
            annotations: &self.all_annotations,
            show_annotations: self.show_annotations,
            file_idx,
            file_path,
        };
        assert(b@ == self@.build(file_idx as int, file@));
        push_expanded_lines(out, &b, &e);
    }

    fn schedule_file(&mut self, file_path: &str)
        ensures
            final(self)@ == (AppV {
                highlights: old(self)@.highlights.scheduled(
                    old(self)@.config.syntax_highlighting,
                    file_path@,
                    old(self)@.current_path(),
                    old(self)@.diff(),
                ),
                ..old(self)@
            }),
    {
        reveal(App::model);
        let current = match self.screen.current_file_info() {
            Some((path, _)) => Some(path),
            None => None,
        };
        let diff = DiffRef {
            files: &self.files,
            index: &self.diff_file_index,
            mode: &self.diff_mode,
            generation: self.diff_generation,
        };
        self.highlights.maybe_schedule_full_file_highlight(
            self.config.syntax_highlighting,
            file_path,
            &current,
            &diff,
        );
    }

    fn collapses(&self, file_path: &str) -> (r: bool)
        ensures
            r == (self@.expanded is None && self@.screen.collapsed.contains(file_path@)),
    {
        reveal(App::model);
        self.expanded_file.is_none() && self.screen.collapsed_files.contains(file_path)
    }

    /// The lines of a file.
    fn build_file_lines(
        &mut self,
        file_idx: usize,
        file: &DiffFile,
        file_path: &str,
        include_spacer: bool,
        disk: &Disk,
    ) -> (out: Vec<DisplayLine>)
        requires
            file_path@ == file@.path(),
        ensures
            display_views(out@) == old(self)@.file_lines(
                file_idx as int,
                file@,
                include_spacer,
                disk@,
            ),
            out@.len() > 0,
            final(self)@ == (AppV {
                highlights: old(self)@.highlights_for(file@, disk@),
                ..old(self)@
            }),
    {
        let ghost s0 = self@;
        proof {
            reveal(AppV::highlights_for);
            reveal(AppV::file_lines);
        }
        let mut out: Vec<DisplayLine> = Vec::new();
        if include_spacer {
            out.push(DisplayLine::Spacer);
            out.push(DisplayLine::Spacer);
        }
        out.push(DisplayLine::FileHeader { path: file_path.to_owned(), file_idx });
        assert(display_views(out@) =~= header_lines(file_idx as int, file@, include_spacer));
        if self.collapses(file_path) {
            assert(display_views(out@) =~= s0.file_lines(
                file_idx as int,
                file@,
                include_spacer,
                disk@,
            ));
            return out;
        }
        if self.expanded().is_some() {
            self.build_expanded_file_lines_into(&mut out, file_idx, file, file_path, disk);
        } else {
            self.build_diff_hunk_lines_into(&mut out, file_idx, file, file_path, disk);
            self.schedule_file(file_path);
        }
        assert(display_views(out@).len() == out@.len());
        out
    }

    /// Adds the lines of a file behind those of the files before it.
    fn append_file(&mut self, i: usize, disk: &Disk)
        requires
            i < old(self).files@.len(),
            i < old(self).screen.file_line_ranges@.len(),
        ensures
            final(self)@ == old(self)@.with_file_built(i as int, disk@),
    {
        reveal(App::model);
        let ghost s = self@;
        if let Some(e) = self.expanded_file {
            if e != i {
                return ;
            }
        }
        let file = self.files[i].clone();
        let path = file.path();
        let spacer = self.screen.display_lines.len() > 0 && self.expanded_file.is_none();
        assert(s.files[i as int] == file@);
        assert(s.screen.lines.len() == self.screen.display_lines@.len());
        let mut lines = self.build_file_lines(i, &file, path.as_str(), spacer, disk);
        let ghost t = self@;
        assert(i < t.screen.ranges.len());
        self.screen.append_lines(i, &mut lines);
        assert(self@ =~= (AppV { screen: self@.screen, ..t }));
        assert(self@ =~= s.with_file_built(i as int, disk@));
    }

    /// Builds the display from all files.
    pub fn build_display_lines(&mut self, disk: &Disk)
        ensures
            final(self)@ == old(self)@.built(disk@),
            old(self)@.wf() ==> final(self)@.wf(),
    {
        reveal(App::model);
        reveal(AppV::built);
        let ghost s0 = self@;
        let total = self.files.len();
        self.screen.display_lines = Vec::new();
        let mut ranges: Vec<Option<(usize, usize)>> = Vec::new();
        let mut i: usize = 0;
        while i < total
            invariant
                i <= total,
                ranges@.len() == i,
                forall|k: int| 0 <= k < i ==> (#[trigger] ranges@[k]) is None,
            decreases total - i,
        {
            ranges.push(None);
            i = i + 1;
        }
        self.screen.file_line_ranges = ranges;
        i = 0;
        assert(s0.files.len() == total);
        assert(self@.screen =~= s0.built_first(0, disk@).screen);
        assert(self@ =~= s0.built_first(0, disk@));
        while i < total
            invariant
                i <= total,
                total == s0.files.len(),
                self@ == s0.built_first(i as int, disk@),
            decreases total - i,
        {
            reveal(App::model);
            proof {
                lemma_built_first_frame(s0, i as int, disk@);
                assert(self@.files.len() == self.files@.len());
            }
            self.append_file(i, disk);
            i = i + 1;
        }
        let shown = self.screen.display_lines.len();
        proof {
            assert(self@.screen.lines.len() == shown);
            lemma_built_first_frame(s0, total as int, disk@);
            lemma_built_first_tiled(s0, total as int, disk@);
            reveal(tiled);
        }
    }
}

impl App {
    fn update_expanded(&mut self, file_idx: usize, disk: &Disk)
        requires
            old(self)@.wf(),
            file_idx < old(self)@.files.len(),
            old(self)@.expanded is Some,
        ensures
            final(self)@ == old(self)@.with_expanded_built(file_idx as int, disk@),
            final(self)@.wf(),
    {
        reveal(App::model);
        let ghost s = self@;
        let file = self.files[file_idx].clone();
        let path = file.path();
        let total = self.files.len();
        assert(s.files[file_idx as int] == file@);
        assert(s.files.len() == total);
        let lines = self.build_file_lines(file_idx, &file, path.as_str(), false, disk);
        let ghost t = self@;
        let ghost new = display_views(lines@);
        self.screen.show_only(file_idx, total, lines);
        assert(self@ =~= (AppV {
            screen: t.screen.showing_only(file_idx as int, total as int, new),
            ..t
        }));
    }

    fn update_in_place(&mut self, file_idx: usize, disk: &Disk)
        requires
            old(self)@.wf(),
            file_idx < old(self)@.files.len(),
            file_idx < old(self)@.screen.ranges.len(),
            old(self)@.expanded is None,
        ensures
            final(self)@ == old(self)@.with_file_replaced(file_idx as int, disk@),
            final(self)@.wf(),
    {
        reveal(App::model);
        let ghost s = self@;
        let file = self.files[file_idx].clone();
        let path = file.path();
        let total = self.files.len();
        assert(s.files[file_idx as int] == file@);
        assert(s.files.len() == total);
        let spacer = self.screen.any_before(file_idx);
        let mut lines = self.build_file_lines(file_idx, &file, path.as_str(), spacer, disk);
        let ghost t = self@;
        let ghost new = display_views(lines@);
        self.screen.splice_file(file_idx, &mut lines);
        let ghost u = self.screen@;
        self.screen.settle(total);
        proof {
            lemma_settled_frame(u, total as int);
            assert(self@ =~= (AppV { screen: u.settled(total as int), ..t }));
        }
    }

    /// Makes a place for the lines of every file.
    fn make_places(&mut self)
        requires
            old(self)@.wf(),
        ensures
            final(self)@ == old(self)@.with_places(),
            final(self)@.wf(),
            final(self)@.screen.ranges.len() >= final(self).files@.len(),
    {
        reveal(App::model);
        let ghost s0 = self@;
        let total = self.files.len();
        assert(s0.files.len() == total);
        self.screen.complete_ranges(total);
        proof {
            lemma_completed_tiled(s0.screen, total as int);
            assert(self@ == s0.with_places());
        }
    }

    /// Builds the lines of one file anew and puts them into the display.
    pub fn update_display_lines_for_file(&mut self, file_idx: usize, disk: &Disk)
        requires
            old(self)@.wf(),
        ensures
            final(self)@ == old(self)@.with_file_updated(file_idx as int, disk@),
            final(self)@.wf(),
    {
        reveal(AppV::with_file_updated);
        if file_idx >= self.file_count() {
            return ;
        }
        self.make_places();
        match self.expanded() {
            Some(e) => {
                if e == file_idx {
                    self.update_expanded(file_idx, disk);
                }
            },
            None => {
                self.update_in_place(file_idx, disk);
            },
        }
    }
}

/// Settling changes the cursor, the scroll position and the sidebar alone.
pub proof fn lemma_settled_frame(s: ScreenV, files: int)
    ensures
        s.settled(files).lines == s.lines,
        s.settled(files).ranges == s.ranges,
{
    reveal(ScreenV::settled);
    let clamped = if s.cursor >= s.lines.len() && s.lines.len() > 0 {
        s.at(s.lines.len() - 1)
    } else {
        s
    };
    lemma_landed_frame(clamped);
    lemma_adjusted_frame(clamped, files);
    lemma_adjusted_frame(clamped.landed(), files);
}

/// Building changes the display and the highlights alone.
pub proof fn lemma_built_first_frame(s: AppV, n: int, disk: DiskV)
    requires
        0 <= n <= s.files.len(),
    ensures
        ({
            let t = s.built_first(n, disk);
            &&& t.files == s.files
            &&& t.screen.ranges.len() == s.files.len()
            &&& t == (AppV {
                screen: ScreenV {
                    lines: t.screen.lines,
                    ranges: t.screen.ranges,
                    ..s.screen
                },
                highlights: t.highlights,
                ..s
            })
        }),
    decreases n,
{
    if n > 0 {
        lemma_built_first_frame(s, n - 1, disk);
    }
}

/// Building changes the display and the highlights alone.
pub proof fn lemma_built_frame(s: AppV, disk: DiskV)
    ensures
        ({
            let t = s.built(disk);
            &&& t.screen.ranges.len() == s.files.len()
            &&& t == (AppV {
                screen: ScreenV {
                    lines: t.screen.lines,
                    ranges: t.screen.ranges,
                    ..s.screen
                },
                highlights: t.highlights,
                ..s
            })
        }),
{
    reveal(AppV::built);
    lemma_built_first_frame(s, s.files.len() as int, disk);
}

proof fn lemma_file_lines_nonempty(s: AppV, i: int, file: DiffFileV, spacer: bool, disk: DiskV)
    ensures
        s.file_lines(i, file, spacer, disk).len() > 0,
{
    reveal(AppV::file_lines);
}

/// The lines of the first `n` files make up the display so far.
proof fn lemma_built_first_tiled(s: AppV, n: int, disk: DiskV)
    requires
        0 <= n <= s.files.len(),
        s.built_first(n, disk).screen.lines.len() <= usize::MAX,
    ensures
        ({
            let t = s.built_first(n, disk).screen;
            &&& covered(t.ranges, n) == t.lines.len()
            &&& covered(t.ranges, t.ranges.len() as int) == t.lines.len()
            &&& forall|i: int|
                0 <= i < n ==> ((#[trigger] t.ranges[i]) matches Some((start, _)) ==> start
                    == covered(t.ranges, i))
            &&& forall|i: int| n <= i < t.ranges.len() ==> (#[trigger] t.ranges[i]) is None
        }),
    decreases n,
{
    let t = s.built_first(n, disk).screen;
    lemma_built_first_frame(s, n, disk);
    if n > 0 {
        lemma_built_first_frame(s, n - 1, disk);
        let u = s.built_first(n - 1, disk);
        assert(u.screen.lines.len() <= t.lines.len());
        lemma_built_first_tiled(s, n - 1, disk);
        lemma_covered_same(u.screen.ranges, t.ranges, n - 1);
        assert forall|i: int| 0 <= i < n implies ((#[trigger] t.ranges[i]) matches Some((start, _))
            ==> start == covered(t.ranges, i)) by {
            if i < n - 1 {
                assert(t.ranges[i] == u.screen.ranges[i]);
            }
            lemma_covered_same(u.screen.ranges, t.ranges, i);
        }
        assert(u.screen.ranges[n - 1] is None);
        assert(covered(u.screen.ranges, n) == covered(u.screen.ranges, n - 1));
    }
    lemma_covered_none(t.ranges, n, t.ranges.len() as int);
}

/// What is built is made up of the lines of the files, in their order.
pub proof fn law_built_tiled(s: AppV, disk: DiskV)
    requires
        s.built(disk).screen.lines.len() <= usize::MAX,
    ensures
        tiled(s.built(disk).screen.ranges, s.built(disk).screen.lines.len() as int),
        s.built(disk).screen.ranges.len() == s.files.len(),
{
    reveal(AppV::built);
    reveal(tiled);
    lemma_built_first_frame(s, s.files.len() as int, disk);
    lemma_built_first_tiled(s, s.files.len() as int, disk);
}

/// The lines of the first `n` files, one behind the other.
pub open spec fn lines_first(s: AppV, n: int, disk: DiskV) -> Seq<DisplayLineV>
    decreases n,
{
    if n <= 0 {
        Seq::empty()
    } else {
        lines_first(s, n - 1, disk) + s.file_lines(n - 1, s.files[n - 1], n - 1 > 0, disk)
    }
}

/// Whether the lines of a file are built from the same in two states.
pub open spec fn builds_same(s: AppV, t: AppV) -> bool {
    &&& s.annotations == t.annotations
    &&& s.show_annotations == t.show_annotations
    &&& s.expanded == t.expanded
    &&& s.screen.collapsed == t.screen.collapsed
    &&& s.loading == t.loading
    &&& s.show_old == t.show_old
    &&& s.config == t.config
    &&& s.highlighter == t.highlighter
    &&& s.highlights.knows_same(t.highlights)
}

proof fn lemma_hunks_frame(s: AppV, t: AppV, i: int, file: DiffFileV, n: int, disk: DiskV)
    requires
        builds_same(s, t),
    ensures
        s.hunks_display(i, file, n, disk) == t.hunks_display(i, file, n, disk),
    decreases n,
{
    if n > 0 {
        lemma_hunks_frame(s, t, i, file, n - 1, disk);
    }
}

/// The lines of a file do not depend on the display, nor on what has been asked
/// for.
pub proof fn lemma_file_lines_frame(s: AppV, t: AppV, i: int, file: DiffFileV, spacer: bool, disk: DiskV)
    requires
        builds_same(s, t),
    ensures
        s.file_lines(i, file, spacer, disk) == t.file_lines(i, file, spacer, disk),
{
    reveal(AppV::file_lines);
    lemma_hunks_frame(s, t, i, file, file.hunks.len() as int, disk);
}

/// The display of all files is made of the lines of one file after the other.
pub proof fn lemma_built_first_lines(s: AppV, n: int, disk: DiskV)
    requires
        0 <= n <= s.files.len(),
        s.expanded is None,
    ensures
        s.built_first(n, disk).screen.lines == lines_first(s, n, disk),
        s.built_first(n, disk).highlights.knows_same(s.highlights),
        n > 0 ==> lines_first(s, n, disk).len() > 0,
        forall|i: int|
            0 <= i < n ==> (#[trigger] s.built_first(n, disk).screen.ranges[i]) is Some,
        lines_first(s, n, disk).len() <= usize::MAX ==> forall|i: int|
            0 <= i < n ==> (#[trigger] s.built_first(n, disk).screen.ranges[i])->0 == (
                lines_first(s, i, disk).len() as usize,
                s.file_lines(i, s.files[i], i > 0, disk).len() as usize,
            ),
    decreases n,
{
    if n > 0 {
        lemma_built_first_lines(s, n - 1, disk);
        lemma_built_first_frame(s, n - 1, disk);
        let u = s.built_first(n - 1, disk);
        lemma_file_lines_frame(s, u, n - 1, s.files[n - 1], n - 1 > 0, disk);
        reveal(AppV::highlights_for);
        law_scheduled_knows_same(
            u.highlights,
            u.config.syntax_highlighting,
            s.files[n - 1].path(),
            u.current_path(),
            u.diff(),
        );
        lemma_file_lines_nonempty(s, n - 1, s.files[n - 1], n - 1 > 0, disk);
        let t = s.built_first(n, disk);
        assert forall|i: int| 0 <= i < n implies (#[trigger] t.screen.ranges[i]) is Some by {
            if i < n - 1 {
                assert(t.screen.ranges[i] == u.screen.ranges[i]);
            }
        }
        if lines_first(s, n, disk).len() <= usize::MAX {
            assert forall|i: int| 0 <= i < n implies (#[trigger] t.screen.ranges[i])->0 == (
                lines_first(s, i, disk).len() as usize,
                s.file_lines(i, s.files[i], i > 0, disk).len() as usize,
            ) by {
                if i < n - 1 {
                    assert(t.screen.ranges[i] == u.screen.ranges[i]);
                }
            }
        }
    }
}

/// The state with another file in the place of one.
pub open spec fn with_file(s: AppV, i: int, file: DiffFileV) -> AppV {
    AppV { files: s.files.update(i, file), ..s }
}

proof fn lemma_lines_first_other(s: AppV, i: int, file: DiffFileV, n: int, disk: DiskV)
    requires
        0 <= i < s.files.len(),
        0 <= n <= s.files.len(),
    ensures
        n <= i ==> lines_first(with_file(s, i, file), n, disk) == lines_first(s, n, disk),
        n > i ==> ({
            let a = lines_first(s, i, disk);
            let l = s.file_lines(i, s.files[i], i > 0, disk).len() as int;
            &&& lines_first(s, n, disk).len() >= a.len() + l
            &&& lines_first(with_file(s, i, file), n, disk) == a + s.file_lines(
                i,
                file,
                i > 0,
                disk,
            ) + lines_first(s, n, disk).skip(a.len() + l)
            &&& lines_first(s, n, disk).take(a.len() as int) == a
        }),
    decreases n,
{
    if n > 0 {
        lemma_lines_first_other(s, i, file, n - 1, disk);
        let t = with_file(s, i, file);
        lemma_file_lines_frame(s, t, n - 1, t.files[n - 1], n - 1 > 0, disk);
        let a = lines_first(s, i, disk);
        let x = s.file_lines(i, s.files[i], i > 0, disk);
        let all = lines_first(s, n, disk);
        if n - 1 == i {
            assert(all == a + x);
            assert(all.skip((a.len() + x.len()) as int) =~= Seq::empty());
            assert(all.take(a.len() as int) =~= a);
            assert(lines_first(t, n, disk) =~= a + s.file_lines(i, file, i > 0, disk) + all.skip(
                (a.len() + x.len()) as int,
            ));
        } else if n - 1 > i {
            let m = lines_first(s, n - 1, disk);
            let y = s.file_lines(n - 1, s.files[n - 1], n - 1 > 0, disk);
            let k = (a.len() + x.len()) as int;
            assert(all == m + y);
            assert(all.skip(k) =~= m.skip(k) + y);
            assert(all.take(a.len() as int) =~= m.take(a.len() as int));
            assert(lines_first(t, n, disk) =~= a + s.file_lines(i, file, i > 0, disk) + all.skip(k));
        }
    }
}

/// When a file of a built diff changes, updating its lines gives the display
/// that building it anew gives.
pub proof fn law_update_is_rebuild(s: AppV, i: int, file: DiffFileV, disk: DiskV)
    requires
        0 <= i < s.files.len(),
        s.expanded is None,
        s.built(disk).screen.lines.len() <= usize::MAX,
    ensures
        with_file(s.built(disk), i, file).with_file_updated(i, disk).screen.lines == with_file(
            s,
            i,
            file,
        ).built(disk).screen.lines,
{
    reveal(AppV::built);
    reveal(AppV::with_file_updated);
    let n = s.files.len() as int;
    let b = s.built(disk);
    let t = with_file(b, i, file);
    lemma_built_first_frame(s, n, disk);
    lemma_built_first_lines(s, n, disk);
    lemma_built_first_lines(with_file(s, i, file), n, disk);
    lemma_lines_first_other(s, i, file, n, disk);
    lemma_lines_first_other(s, i, file, i, disk);
    assert(t.with_places() == t);
    let (start, len) = place_of(b.screen.ranges, i);
    assert(b.screen.ranges[i] is Some);
    lemma_lines_first_short(s, i, n, disk);
    assert(start == lines_first(s, i, disk).len());
    assert(any_before(t.screen.ranges, i) == (i > 0)) by {
        if i > 0 {
            assert(t.screen.ranges[0] is Some);
        }
    }
    lemma_file_lines_frame(s, t, i, file, i > 0, disk);
    let new = s.file_lines(i, file, i > 0, disk);
    let u = t.screen.respliced(i, new);
    reveal(ScreenV::respliced);
    lemma_settled_frame(u, n);
    assert(u.lines =~= lines_first(with_file(s, i, file), n, disk));
}

proof fn lemma_lines_first_short(s: AppV, i: int, n: int, disk: DiskV)
    requires
        0 <= i <= n,
    ensures
        lines_first(s, i, disk).len() <= lines_first(s, n, disk).len(),
        i < n ==> lines_first(s, i, disk).len() + s.file_lines(
            i,
            s.files[i],
            i > 0,
            disk,
        ).len() <= lines_first(s, n, disk).len(),
    decreases n,
{
    if i < n {
        lemma_lines_first_short(s, i, n - 1, disk);
    }
}

} // verus!
