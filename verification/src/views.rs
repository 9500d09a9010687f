//! Switching between views: collapsed files, the expanded file, deletions, and
//! the sidebar.
use vstd::prelude::*;

use crate::compose::lemma_built_frame;
use crate::diff::DiffLineV;
use crate::display::{display_views, opt_idx, DisplayLine, DisplayLineV};
use crate::screen::{
    last_index, lemma_adjusted_frame, lemma_header_above, lemma_landed_frame, less_one, lesser,
    min_usize, Screen, ScreenV,
};
use crate::state::{App, AppV, Disk, DiskV};

verus! {

impl ScreenV {
    /// With the cursor on the first line from `i` on that it can stand on, but
    /// not behind the last one.
    pub open spec fn forward_from(self, i: int) -> ScreenV {
        self.at(self.skip_down(i, less_one(self.lines.len() as int)))
    }

    /// With a file collapsed or not.
    pub open spec fn with_collapsed(self, path: Seq<char>, collapsed: bool) -> ScreenV {
        ScreenV {
            collapsed: if collapsed {
                self.collapsed.insert(path)
            } else {
                self.collapsed.remove(path)
            },
            ..self
        }
    }

    /// The header of a file, looked for first where it was.
    #[verifier::opaque]
    pub open spec fn header_again(self, was: Option<int>, file_idx: int) -> Option<int> {
        match was {
            Some(i) if (self.line(i) matches Some(DisplayLineV::FileHeader { file_idx: f, .. }) && f
                == file_idx) => Some(i),
            _ => self.header_of_file(0, file_idx),
        }
    }

    /// With the cursor on the header of a file that was collapsed, or below that
    /// of a file that was not.
    #[verifier::opaque]
    pub open spec fn on_file(self, header: int, opened: bool, files: int) -> ScreenV {
        let n = self.lines.len() as int;
        self.moved_to(
            if opened {
                lesser(self.skip_down(header + 1, n), less_one(n))
            } else {
                header
            },
            files,
        )
    }
}

impl ScreenV {
    /// With the sidebar opened on the current file, or closed.
    #[verifier::opaque]
    pub open spec fn sidebar_flipped(self, files: int) -> ScreenV {
        if self.sidebar_open {
            ScreenV { sidebar_open: false, sidebar_focused: false, ..self }
        } else {
            ScreenV {
                sidebar_open: true,
                sidebar_focused: true,
                sidebar_index: match self.current_file() {
                    Some((_, file_idx)) => lesser(file_idx, less_one(files)),
                    None => 0,
                },
                sidebar_scroll: 0,
                ..self
            }
        }
    }

    /// With the cursor on the line that an expansion started from, and in the
    /// middle of the screen.
    #[verifier::opaque]
    pub open spec fn on_expansion(
        self,
        new_no: Option<u32>,
        old_no: Option<u32>,
        files: int,
    ) -> ScreenV {
        let found = match (new_no, old_no) {
            (Some(n), _) => self.line_numbered(0, n, false),
            (None, Some(n)) => self.line_numbered(0, n, true),
            (None, None) => None,
        };
        let cursor = match found {
            Some(i) => i,
            None => self.cursor,
        };
        let cursor = if cursor >= self.lines.len() {
            0
        } else {
            cursor
        };
        (if cursor == 0 {
            ScreenV { scroll: 0, ..self.forward_from(0) }
        } else {
            self.at(cursor).centered()
        }).adjusted(files)
    }
}

impl AppV {
    /// With the file that the cursor is in collapsed, or shown again if it was.
    #[verifier::opaque]
    pub open spec fn collapse_toggled(self, disk: DiskV) -> AppV {
        match self.screen.current_file() {
            None => self,
            Some((path, file_idx)) => {
                let was = self.screen.collapsed.contains(path);
                let s = (AppV {
                    screen: self.screen.with_collapsed(path, !was),
                    message: Some(
                        if was {
                            "Expanded file"@
                        } else {
                            "Collapsed file"@
                        },
                    ),
                    ..self
                }).built(disk);
                let header = s.screen.header_again(
                    self.screen.header_above(self.screen.cursor),
                    file_idx,
                );
                AppV {
                    screen: (match header {
                        Some(i) => s.screen.on_file(i, was, s.files.len() as int),
                        None => s.screen,
                    }).unselected(),
                    ..s
                }
            },
        }
    }

    /// The new line number to look for in the expanded file.
    #[verifier::opaque]
    pub open spec fn expand_target_new(self) -> Option<u32> {
        match self.screen.line(self.screen.cursor) {
            Some(DisplayLineV::Diff { line, .. }) => line.new_line_no,
            Some(DisplayLineV::HunkHeader { line_no, .. }) => Some(line_no),
            Some(DisplayLineV::HunkContext { line_no, .. }) => Some(line_no),
            Some(DisplayLineV::HunkEnd { file_idx, hunk_idx }) => if 0 <= file_idx
                < self.files.len() && 0 <= hunk_idx < self.files[file_idx].hunks.len() {
                Some(self.files[file_idx].hunks[hunk_idx].new_start)
            } else {
                None
            },
            _ => None,
        }
    }

    /// The old line number to look for in the expanded file.
    #[verifier::opaque]
    pub open spec fn expand_target_old(self) -> Option<u32> {
        match self.screen.line(self.screen.cursor) {
            Some(DisplayLineV::Diff { line, .. }) => line.old_line_no,
            _ => None,
        }
    }

    /// With the display put aside.
    #[verifier::opaque]
    pub open spec fn put_aside(self) -> AppV {
        let s = AppV {
            saved_position: Some((self.screen.cursor as usize, self.screen.scroll as usize)),
            ..self
        };
        if self.loading {
            s
        } else {
            AppV {
                saved_lines: Some(self.screen.lines),
                saved_ranges: Some(self.screen.ranges),
                saved_generation: Some(self.generation),
                ..s
            }
        }
    }

    /// With the cursor on the line that an expansion started from.
    #[verifier::opaque]
    pub open spec fn expansion_screen(self, new_no: Option<u32>, old_no: Option<u32>) -> ScreenV {
        self.screen.on_expansion(new_no, old_no, self.files.len() as int)
    }

    /// With the file that the cursor is in expanded.
    #[verifier::opaque]
    pub open spec fn file_expanded(self, disk: DiskV) -> AppV {
        match self.screen.current_file() {
            None => self,
            Some((_, file_idx)) => {
                let s = (AppV { expanded: Some(file_idx), ..self.put_aside() }).built(disk);
                AppV {
                    screen: s.expansion_screen(self.expand_target_new(), self.expand_target_old()),
                    message: Some(
                        "Expanded file view (]/[: next/prev change, x: collapse)"@,
                    ),
                    ..s
                }
            },
        }
    }

    /// With the display that was put aside, if it belongs to the same diff, else
    /// with one that is built anew.
    #[verifier::opaque]
    pub open spec fn taken_back(self, disk: DiskV) -> AppV {
        let s = AppV { expanded: None, saved_generation: None, ..self };
        if self.saved_generation == Some(self.generation) {
            match (self.saved_lines, self.saved_ranges) {
                (Some(lines), Some(ranges)) => AppV {
                    screen: ScreenV { lines, ranges, ..self.screen },
                    saved_lines: None,
                    saved_ranges: None,
                    ..s
                },
                _ => (AppV { saved_lines: None, saved_ranges: None, ..s }).built(disk),
            }
        } else {
            s.built(disk)
        }
    }

    /// The screen with the cursor where it was before a file was expanded.
    pub open spec fn restored_screen(self) -> ScreenV {
        let (line, scroll) = match self.saved_position {
            Some((line, scroll)) => (
                lesser(line as int, less_one(self.screen.lines.len() as int)),
                scroll as int,
            ),
            None => (0, 0),
        };
        (ScreenV { scroll, ..self.screen.forward_from(line) }).adjusted(self.files.len() as int)
    }

    /// With all files shown again, and the cursor where it was before.
    #[verifier::opaque]
    pub open spec fn file_unexpanded(self, disk: DiskV) -> AppV {
        let s = self.taken_back(disk);
        AppV {
            screen: s.restored_screen(),
            saved_position: None,
            message: Some("Showing all files"@),
            ..s
        }
    }

    /// With the file that the cursor is in expanded, or all files shown again.
    pub open spec fn expand_toggled(self, disk: DiskV) -> AppV {
        if self.expanded is Some {
            self.file_unexpanded(disk)
        } else {
            self.file_expanded(disk)
        }
    }

    /// With the deletions of an expanded file hidden, or shown again.
    #[verifier::opaque]
    pub open spec fn deletions_toggled(self, disk: DiskV) -> AppV {
        match self.expanded {
            None => self,
            Some(file_idx) => {
                let s = (AppV { show_old: !self.show_old, ..self }).with_file_updated(file_idx, disk);
                AppV {
                    screen: s.screen.landed().adjusted(s.files.len() as int),
                    message: Some(
                        if s.show_old {
                            "Showing deletions"@
                        } else {
                            "Hiding deletions"@
                        },
                    ),
                    ..s
                }
            },
        }
    }

    /// Without the display that was put aside.
    pub open spec fn without_saved(self) -> AppV {
        AppV { saved_lines: None, saved_ranges: None, saved_generation: None, ..self }
    }

    /// With the sidebar opened on the current file, or closed.
    pub open spec fn sidebar_toggled(self) -> AppV {
        self.on(self.screen.sidebar_flipped(self.files.len() as int))
    }
}

/// An update of the lines of one file changes nothing but the display and the
/// highlights.
pub proof fn lemma_updated_frame(s: AppV, i: int, disk: DiskV)
    ensures
        ({
            let t = s.with_file_updated(i, disk);
            &&& t == (AppV { screen: t.screen, highlights: t.highlights, ..s })
        }),
{
    reveal(AppV::with_file_updated);
}

impl Screen {
    /// Puts the cursor on the first line from `i` on that it can stand on.
    fn go_forward_from(&mut self, i: usize)
        requires
            i <= less_one(old(self)@.lines.len() as int),
        ensures
            final(self)@ == old(self)@.forward_from(i as int),
            final(self)@.same_display(old(self)@),
    {
        let ghost s = self@;
        assert(s.lines.len() == self.display_lines@.len());
        self.current_line_idx = self.skip_down(i, last_index(self.display_lines.len()));
        assert(self@ == s.forward_from(i as int));
    }

    fn set_collapsed(&mut self, path: &str, collapsed: bool)
        ensures
            final(self)@ == old(self)@.with_collapsed(path@, collapsed),
    {
        let ghost s = self@;
        if collapsed {
            self.collapsed_files.insert(path);
        } else {
            self.collapsed_files.remove(path);
        }
        assert(self@ == s.with_collapsed(path@, collapsed));
    }

    fn find_header_again(&self, was: Option<usize>, file_idx: usize) -> (r: Option<usize>)
        ensures
            opt_idx(r) == self@.header_again(opt_idx(was), file_idx as int),
            r matches Some(i) ==> i < self@.lines.len(),
    {
        reveal(ScreenV::header_again);
        proof {
            lemma_header_of_file(self@, 0, file_idx as int);
        }
        if let Some(i) = was {
            if i < self.display_lines.len() {
                assert(self@.lines[i as int] == self.display_lines@[i as int]@);
                if let DisplayLine::FileHeader { file_idx: f, .. } = &self.display_lines[i] {
                    if *f == file_idx {
                        return Some(i);
                    }
                }
            }
        }
        self.find_file_header_idx(file_idx)
    }

    /// Puts the cursor on the line that an expansion started from.
    fn show_expansion(&mut self, new_no: Option<u32>, old_no: Option<u32>, files: usize)
        ensures
            final(self)@ == old(self)@.on_expansion(new_no, old_no, files as int),
            final(self)@.same_display(old(self)@),
    {
        reveal(ScreenV::on_expansion);
        let ghost s0 = self@;
        assert(s0.lines.len() == self.display_lines@.len());
        let found = match (new_no, old_no) {
            (Some(n), _) => self.find_line(n),
            (None, Some(n)) => self.find_old_line(n),
            (None, None) => None,
        };
        let mut cursor = match found {
            Some(i) => i,
            None => self.current_line_idx,
        };
        if cursor >= self.display_lines.len() {
            cursor = 0;
        }
        if cursor == 0 {
            self.go_forward_from(0);
            self.scroll_offset = 0;
            assert(self@ =~= (ScreenV { scroll: 0, ..s0.forward_from(0) }));
        } else {
            self.current_line_idx = cursor;
            assert(self@ =~= s0.at(cursor as int));
            self.center_on_current_line();
        }
        self.adjust_scroll(files);
    }

    fn flip_sidebar(&mut self, files: usize)
        ensures
            final(self)@ == old(self)@.sidebar_flipped(files as int),
            final(self)@.same_display(old(self)@),
    {
        reveal(ScreenV::sidebar_flipped);
        let ghost s0 = self@;
        if self.sidebar_open {
            self.sidebar_open = false;
            self.sidebar_focused = false;
        } else {
            let index = match self.current_file_info() {
                Some((_, file_idx)) => min_usize(file_idx, last_index(files)),
                None => 0,
            };
            self.sidebar_open = true;
            self.sidebar_focused = true;
            self.sidebar_index = index;
            self.sidebar_scroll = 0;
        }
        assert(self@ =~= s0.sidebar_flipped(files as int));
    }

    fn restore_position(&mut self, line: usize, scroll: usize, files: usize)
        requires
            line <= less_one(old(self)@.lines.len() as int),
        ensures
            final(self)@ == (ScreenV {
                scroll: scroll as int,
                ..old(self)@.forward_from(line as int)
            }).adjusted(files as int),
            final(self)@.same_display(old(self)@),
    {
        let ghost s0 = self@;
        self.go_forward_from(line);
        self.scroll_offset = scroll;
        assert(self@ =~= (ScreenV { scroll: scroll as int, ..s0.forward_from(line as int) }));
        self.adjust_scroll(files);
    }

    fn go_to_file(&mut self, header: usize, opened: bool, files: usize)
        requires
            header < old(self)@.lines.len(),
        ensures
            final(self)@ == old(self)@.on_file(header as int, opened, files as int),
            final(self)@.same_display(old(self)@),
    {
        reveal(ScreenV::on_file);
        let n = self.display_lines.len();
        assert(self@.lines.len() == n);
        let to = if opened {
            min_usize(self.skip_down(header + 1, n), last_index(n))
        } else {
            header
        };
        self.move_to(to, files);
    }
}

proof fn lemma_header_of_file(s: ScreenV, i: int, file_idx: int)
    ensures
        s.header_of_file(i, file_idx) matches Some(k) ==> 0 <= k < s.lines.len(),
    decreases s.lines.len() - i,
{
    if 0 <= i < s.lines.len() {
        lemma_header_of_file(s, i + 1, file_idx);
    }
}

/// A copy of the places of lines.
pub fn copy_ranges(ranges: &Vec<Option<(usize, usize)>>) -> (r: Vec<Option<(usize, usize)>>)
    ensures
        r@ == ranges@,
{
    let mut r: Vec<Option<(usize, usize)>> = Vec::new();
    let mut i: usize = 0;
    while i < ranges.len()
        invariant
            i <= ranges@.len(),
            r@ == ranges@.take(i as int),
        decreases ranges@.len() - i,
    {
        r.push(ranges[i]);
        i = i + 1;
        assert(r@ =~= ranges@.take(i as int));
    }
    assert(r@ =~= ranges@);
    r
}

impl App {
    /// Collapses a file or shows it again, with a message.
    fn set_collapsed(&mut self, path: &str, collapsed: bool)
        requires
            old(self)@.wf(),
        ensures
            final(self)@ == (AppV {
                screen: old(self)@.screen.with_collapsed(path@, collapsed),
                message: Some(
                    if !collapsed {
                        "Expanded file"@
                    } else {
                        "Collapsed file"@
                    },
                ),
                ..old(self)@
            }),
            final(self)@.wf(),
    {
        reveal(App::model);
        let ghost s0 = self@;
        self.screen.set_collapsed(path, collapsed);
        self.message = Some(
            if !collapsed {
                "Expanded file".to_owned()
            } else {
                "Collapsed file".to_owned()
            },
        );
        assert(self@ == (AppV {
            screen: s0.screen.with_collapsed(path@, collapsed),
            message: Some(
                if !collapsed {
                    "Expanded file"@
                } else {
                    "Collapsed file"@
                },
            ),
            ..s0
        }));
    }

    /// The file that the cursor is in: its header's line, its path and its
    /// index, and whether it is collapsed.
    fn current_file(&self) -> (r: Option<(usize, String, usize, bool)>)
        ensures
            match r {
                Some((header, path, file_idx, collapsed)) => {
                    &&& self@.screen.header_above(self@.screen.cursor) == Some(header as int)
                    &&& self@.screen.current_file() == Some((path@, file_idx as int))
                    &&& self@.screen.collapsed.contains(path@) == collapsed
                },
                None => self@.screen.current_file() is None,
            },
    {
        reveal(App::model);
        proof {
            lemma_header_above(self@.screen, self@.screen.cursor);
        }
        let header = self.screen.header_above(self.screen.current_line_idx);
        match (header, self.screen.current_file_info()) {
            (Some(header), Some((path, file_idx))) => {
                let collapsed = self.screen.collapsed_files.contains(path.as_str());
                Some((header, path, file_idx, collapsed))
            },
            _ => None,
        }
    }

    /// Puts the cursor on the header of a file, or below it.
    fn focus_file(&mut self, was: usize, file_idx: usize, opened: bool)
        requires
            old(self)@.wf(),
        ensures
            final(self)@ == old(self)@.on(
                (match old(self)@.screen.header_again(Some(was as int), file_idx as int) {
                    Some(i) => old(self)@.screen.on_file(i, opened, old(self)@.files.len() as int),
                    None => old(self)@.screen,
                }).unselected(),
            ),
            final(self)@.wf(),
    {
        reveal(App::model);
        let ghost s0 = self@;
        let files = self.files.len();
        assert(s0.files.len() == files);
        if let Some(i) = self.screen.find_header_again(Some(was), file_idx) {
            self.screen.go_to_file(i, opened, files);
        }
        self.screen.clear_selection();
        assert(self@ == s0.on(self@.screen));
    }

    /// Collapses the file that the cursor is in, or shows it again.
    pub fn toggle_collapse_current_file(&mut self, disk: &Disk)
        requires
            old(self)@.wf(),
        ensures
            final(self)@ == old(self)@.collapse_toggled(disk@),
            final(self)@.wf(),
    {
        reveal(AppV::collapse_toggled);
        let (header, path, file_idx, was) = match self.current_file() {
            Some(info) => info,
            None => {
                return ;
            },
        };
        self.set_collapsed(path.as_str(), !was);
        self.build_display_lines(disk);
        self.focus_file(header, file_idx, was);
    }

    /// Drops the display that was put aside.
    pub fn invalidate_pre_expand_cache(&mut self)
        ensures
            final(self)@ == old(self)@.without_saved(),
            old(self)@.wf() ==> final(self)@.wf(),
    {
        reveal(App::model);
        let ghost s0 = self@;
        self.pre_expand_display_lines = None;
        self.pre_expand_file_line_ranges = None;
        self.pre_expand_diff_generation = None;
        assert(self@ == s0.without_saved());
    }

    fn put_aside(&mut self)
        requires
            old(self)@.wf(),
        ensures
            final(self)@ == old(self)@.put_aside(),
            final(self)@.wf(),
    {
        reveal(App::model);
        reveal(AppV::put_aside);
        let ghost s0 = self@;
        if !self.diff_loading {
            let lines = self.screen.display_lines.clone();
            let ranges = copy_ranges(&self.screen.file_line_ranges);
            assert(display_views(lines@) =~= s0.screen.lines);
            self.pre_expand_display_lines = Some(lines);
            self.pre_expand_file_line_ranges = Some(ranges);
            self.pre_expand_diff_generation = Some(self.diff_generation);
        }
        self.pre_expand_position = Some((self.screen.current_line_idx, self.screen.scroll_offset));
        assert(self@ == s0.put_aside());
    }

    fn expand_targets(&self) -> (r: (Option<u32>, Option<u32>))
        ensures
            r.0 == self@.expand_target_new(),
            r.1 == self@.expand_target_old(),
    {
        reveal(App::model);
        reveal(AppV::expand_target_new);
        reveal(AppV::expand_target_old);
        match self.screen.current_display_line() {
            Some(line) => match line {
                DisplayLine::Diff { line, .. } => (line.new_line_no, line.old_line_no),
                DisplayLine::HunkHeader { line_no, .. } => (Some(*line_no), None),
                DisplayLine::HunkContext { line_no, .. } => (Some(*line_no), None),
                DisplayLine::HunkEnd { file_idx, hunk_idx } => {
                    assert(self@.files.len() == self.files@.len());
                    if *file_idx < self.files.len() {
                        let file = &self.files[*file_idx];
                        assert(self@.files[*file_idx as int] == file@);
                        assert(file@.hunks.len() == file.hunks@.len());
                        if *hunk_idx < file.hunks.len() {
                            assert(file@.hunks[*hunk_idx as int] == file.hunks@[*hunk_idx as int]@);
                            (Some(file.hunks[*hunk_idx].new_start), None)
                        } else {
                            (None, None)
                        }
                    } else {
                        (None, None)
                    }
                },
                _ => (None, None),
            },
            None => (None, None),
        }
    }

    fn show_expansion(&mut self, new_no: Option<u32>, old_no: Option<u32>)
        requires
            old(self)@.wf(),
        ensures
            final(self)@ == old(self)@.on(old(self)@.expansion_screen(new_no, old_no)),
            final(self)@.wf(),
    {
        reveal(App::model);
        reveal(AppV::expansion_screen);
        let ghost s0 = self@;
        let files = self.files.len();
        assert(s0.files.len() == files);
        self.screen.show_expansion(new_no, old_no, files);
        assert(self@ == s0.on(self@.screen));
    }

    fn expand_current_file(&mut self, disk: &Disk)
        requires
            old(self)@.wf(),
        ensures
            final(self)@ == old(self)@.file_expanded(disk@),
            final(self)@.wf(),
    {
        reveal(AppV::file_expanded);
        let file_idx = match self.current_file() {
            Some((_, _, file_idx, _)) => file_idx,
            None => {
                return ;
            },
        };
        let (new_no, old_no) = self.expand_targets();
        self.put_aside();
        self.set_expanded(Some(file_idx));
        self.build_display_lines(disk);
        self.show_expansion(new_no, old_no);
        self.say("Expanded file view (]/[: next/prev change, x: collapse)");
    }

    /// Shows the display that was put aside. Tells whether there was one.
    fn restore_saved(&mut self) -> (r: bool)
        requires
            old(self)@.wf(),
        ensures
            final(self)@.wf(),
            match (old(self)@.saved_lines, old(self)@.saved_ranges) {
                (Some(lines), Some(ranges)) => r && final(self)@ == (AppV {
                    screen: ScreenV { lines, ranges, ..old(self)@.screen },
                    saved_lines: None,
                    saved_ranges: None,
                    ..old(self)@
                }),
                _ => !r && final(self)@ == (AppV {
                    saved_lines: None,
                    saved_ranges: None,
                    ..old(self)@
                }),
            },
    {
        reveal(App::model);
        let ghost s0 = self@;
        let lines = self.pre_expand_display_lines.take();
        let ranges = self.pre_expand_file_line_ranges.take();
        match (lines, ranges) {
            (Some(lines), Some(ranges)) => {
                self.screen.display_lines = lines;
                self.screen.file_line_ranges = ranges;
                assert(self@.screen == (ScreenV {
                    lines: s0.saved_lines->0,
                    ranges: s0.saved_ranges->0,
                    ..s0.screen
                }));
                assert(self@ == (AppV {
                    screen: self@.screen,
                    saved_lines: None,
                    saved_ranges: None,
                    ..s0
                }));
                true
            },
            _ => {
                assert(self@ == (AppV { saved_lines: None, saved_ranges: None, ..s0 }));
                false
            },
        }
    }

    /// Ends the expanded view. Tells whether the display that was put aside
    /// belongs to the diff.
    fn leave_expanded(&mut self) -> (r: bool)
        requires
            old(self)@.wf(),
        ensures
            final(self)@ == (AppV { expanded: None, saved_generation: None, ..old(self)@ }),
            final(self)@.wf(),
            r == (old(self)@.saved_generation == Some(old(self)@.generation)),
    {
        reveal(App::model);
        let ghost s0 = self@;
        let can_restore = match self.pre_expand_diff_generation {
            Some(generation) => generation == self.diff_generation,
            None => false,
        };
        self.expanded_file = None;
        self.pre_expand_diff_generation = None;
        assert(self@ == (AppV { expanded: None, saved_generation: None, ..s0 }));
        can_restore
    }

    fn take_back(&mut self, disk: &Disk)
        requires
            old(self)@.wf(),
        ensures
            final(self)@ == old(self)@.taken_back(disk@),
            final(self)@.wf(),
    {
        reveal(AppV::taken_back);
        let ghost s0 = self@;
        if self.leave_expanded() {
            if !self.restore_saved() {
                self.build_display_lines(disk);
            } else {
                assert(self@ == s0.taken_back(disk@));
            }
        } else {
            self.build_display_lines(disk);
        }
    }

    /// Puts the cursor where it was before a file was expanded.
    fn restore_position(&mut self)
        requires
            old(self)@.wf(),
        ensures
            final(self)@ == (AppV {
                screen: old(self)@.restored_screen(),
                saved_position: None,
                ..old(self)@
            }),
            final(self)@.wf(),
    {
        reveal(App::model);
        let ghost s0 = self@;
        let files = self.files.len();
        assert(s0.files.len() == files);
        assert(s0.screen.lines.len() == self.screen.display_lines@.len());
        let (line, scroll) = match self.pre_expand_position.take() {
            Some((line, scroll)) => (
                min_usize(line, last_index(self.screen.display_lines.len())),
                scroll,
            ),
            None => (0, 0),
        };
        self.screen.restore_position(line, scroll, files);
        assert(self@ == (AppV { screen: self@.screen, saved_position: None, ..s0 }));
    }

    fn unexpand_file(&mut self, disk: &Disk)
        requires
            old(self)@.wf(),
        ensures
            final(self)@ == old(self)@.file_unexpanded(disk@),
            final(self)@.wf(),
    {
        reveal(AppV::file_unexpanded);
        self.take_back(disk);
        self.restore_position();
        self.say("Showing all files");
    }

    /// Expands the file that the cursor is in, or shows all files again.
    pub fn toggle_expanded_file(&mut self, disk: &Disk)
        requires
            old(self)@.wf(),
        ensures
            final(self)@ == old(self)@.expand_toggled(disk@),
            final(self)@.wf(),
    {
        if self.expanded().is_some() {
            self.unexpand_file(disk);
        } else {
            self.expand_current_file(disk);
        }
    }

    /// Moves the cursor off a line that it cannot stand on, and into view.
    pub fn land_and_adjust(&mut self)
        requires
            old(self)@.wf(),
        ensures
            final(self)@ == old(self)@.on(
                old(self)@.screen.landed().adjusted(old(self)@.files.len() as int),
            ),
            final(self)@.wf(),
    {
        self.land();
        self.adjust();
    }

    fn flip_show_old(&mut self)
        ensures
            final(self)@ == (AppV { show_old: !old(self)@.show_old, ..old(self)@ }),
            old(self)@.wf() ==> final(self)@.wf(),
    {
        reveal(App::model);
        let ghost s0 = self@;
        self.show_old_in_expanded = !self.show_old_in_expanded;
        assert(self@ == (AppV { show_old: !s0.show_old, ..s0 }));
    }

    fn shows_old(&self) -> (r: bool)
        ensures
            r == self@.show_old,
    {
        reveal(App::model);
        self.show_old_in_expanded
    }

    /// Hides the deletions of an expanded file, or shows them again.
    pub fn toggle_deletions(&mut self, disk: &Disk)
        requires
            old(self)@.wf(),
        ensures
            final(self)@ == old(self)@.deletions_toggled(disk@),
            final(self)@.wf(),
    {
        reveal(AppV::deletions_toggled);
        if let Some(file_idx) = self.expanded() {
            self.flip_show_old();
            let ghost s1 = self@;
            self.update_display_lines_for_file(file_idx, disk);
            proof {
                lemma_updated_frame(s1, file_idx as int, disk@);
            }
            self.land_and_adjust();
            if self.shows_old() {
                self.say("Showing deletions");
            } else {
                self.say("Hiding deletions");
            }
        }
    }

    /// Opens the sidebar on the current file, or closes it.
    pub fn toggle_sidebar(&mut self)
        requires
            old(self)@.wf(),
        ensures
            final(self)@ == old(self)@.sidebar_toggled(),
            final(self)@.wf(),
    {
        reveal(App::model);
        let ghost s0 = self@;
        let files = self.files.len();
        assert(s0.files.len() == files);
        self.screen.flip_sidebar(files);
        assert(self@ == s0.on(self@.screen));
    }
}

// ---------------------------------------------------------------------------
// Laws
// ---------------------------------------------------------------------------
/// Expanding a file and showing all files again gives the display back as it
/// was, with the cursor on the line where it stood.
pub proof fn law_expand_and_back(s: AppV, disk: DiskV, disk_later: DiskV)
    requires
        s.wf(),
        s.expanded is None,
        !s.loading,
        s.screen.current_file() is Some,
        0 <= s.screen.cursor < s.screen.lines.len() <= usize::MAX,
        !s.screen.skippable(s.screen.cursor),
        0 <= s.screen.scroll <= usize::MAX,
    ensures
        ({
            let t = s.expand_toggled(disk).expand_toggled(disk_later);
            &&& t.screen.lines == s.screen.lines
            &&& t.screen.ranges == s.screen.ranges
            &&& t.screen.cursor == s.screen.cursor
            &&& t.expanded is None
            &&& t.files == s.files
        }),
{
    reveal(AppV::file_expanded);
    reveal(AppV::file_unexpanded);
    reveal(AppV::put_aside);
    reveal(AppV::taken_back);
    let (_, file_idx) = s.screen.current_file()->0;
    let a = AppV { expanded: Some(file_idx), ..s.put_aside() };
    lemma_built_frame(a, disk);
    let b = s.file_expanded(disk);
    assert(b.saved_lines == Some(s.screen.lines));
    assert(b.saved_ranges == Some(s.screen.ranges));
    assert(b.saved_generation == Some(b.generation));
    assert(b.saved_position == Some((s.screen.cursor as usize, s.screen.scroll as usize)));
    lemma_expansion_screen_frame(
        a.built(disk),
        s.expand_target_new(),
        s.expand_target_old(),
    );
    let c = b.taken_back(disk_later);
    assert(c.screen.lines == s.screen.lines);
    assert(c.screen.collapsed == s.screen.collapsed);
    let cursor = s.screen.cursor;
    assert(c.screen.skippable(cursor) == s.screen.skippable(cursor));
    assert(c.screen.forward_from(cursor).cursor == cursor);
    let d = ScreenV { scroll: s.screen.scroll, ..c.screen.forward_from(cursor) };
    lemma_adjusted_frame(d, c.files.len() as int);
}

proof fn lemma_expansion_screen_frame(s: AppV, new_no: Option<u32>, old_no: Option<u32>)
    ensures
        s.expansion_screen(new_no, old_no).collapsed == s.screen.collapsed,
{
    reveal(AppV::expansion_screen);
    reveal(ScreenV::on_expansion);
    reveal(ScreenV::centered);
    let found = match (new_no, old_no) {
        (Some(n), _) => s.screen.line_numbered(0, n, false),
        (None, Some(n)) => s.screen.line_numbered(0, n, true),
        (None, None) => None,
    };
    let cursor = match found {
        Some(i) => i,
        None => s.screen.cursor,
    };
    let cursor = if cursor >= s.screen.lines.len() {
        0
    } else {
        cursor
    };
    let files = s.files.len() as int;
    lemma_adjusted_frame(ScreenV { scroll: 0, ..s.screen.forward_from(0) }, files);
    lemma_adjusted_frame(s.screen.at(cursor).centered(), files);
}

/// Opening the sidebar and closing it again leaves it closed and without the
/// focus.
pub proof fn law_sidebar_twice(s: AppV)
    requires
        !s.screen.sidebar_open,
    ensures
        !s.sidebar_toggled().sidebar_toggled().screen.sidebar_open,
        !s.sidebar_toggled().sidebar_toggled().screen.sidebar_focused,
        s.sidebar_toggled().sidebar_toggled().screen.lines == s.screen.lines,
        s.sidebar_toggled().sidebar_toggled().screen.cursor == s.screen.cursor,
{
    reveal(ScreenV::sidebar_flipped);
}

/// Collapsing takes the file that the cursor is in, and no other: it is collapsed
/// if it was not and shown again if it was, and every other file stays as it is.
pub proof fn law_collapse_one(s: AppV, disk: DiskV, path: Seq<char>, f: int)
    requires
        s.screen.current_file() == Some((path, f)),
    ensures
        ({
            let now = s.collapse_toggled(disk).screen.collapsed;
            &&& now.contains(path) == !s.screen.collapsed.contains(path)
            &&& forall|q: Seq<char>|
                q != path ==> #[trigger] now.contains(q) == s.screen.collapsed.contains(q)
            &&& s.collapse_toggled(disk).files == s.files
        }),
{
    reveal(AppV::collapse_toggled);
    let was = s.screen.collapsed.contains(path);
    let a = AppV {
        screen: s.screen.with_collapsed(path, !was),
        message: Some(
            if was {
                "Expanded file"@
            } else {
                "Collapsed file"@
            },
        ),
        ..s
    };
    lemma_built_frame(a, disk);
    let b = a.built(disk);
    reveal(ScreenV::on_file);
    reveal(ScreenV::moved_to);
    let files = b.files.len() as int;
    let header = b.screen.header_again(s.screen.header_above(s.screen.cursor), f);
    if let Some(i) = header {
        let n = b.screen.lines.len() as int;
        let to = if was {
            lesser(b.screen.skip_down(i + 1, n), less_one(n))
        } else {
            i
        };
        lemma_landed_frame(b.screen.at(to));
        lemma_adjusted_frame(b.screen.at(to).landed(), files);
    }
}

/// The file that the cursor is in is the one whose header is the nearest above it.
pub proof fn law_current_file(s: ScreenV, h: int, path: Seq<char>, f: int)
    requires
        0 <= h <= s.cursor < s.lines.len(),
        s.lines[h] == (DisplayLineV::FileHeader { path, file_idx: f }),
        forall|k: int| h < k <= s.cursor ==> !((#[trigger] s.lines[k]) is FileHeader),
    ensures
        s.current_file() == Some((path, f)),
        s.current_file_idx() == Some(f),
{
    lemma_header_above(s, s.cursor);
    assert(crate::screen::is_header(s.lines[h]));
    assert(s.header_above(s.cursor) == Some(h));
}

/// An expanded file is shown with the cursor on the line that it was expanded from:
/// on a line with the same new number if there is one, or for a line that has no new
/// number, on a line with the same old number.
pub proof fn law_expansion_on_line(s: ScreenV, new_no: Option<u32>, old_no: Option<u32>, files: int)
    ensures
        ({
            let t = s.on_expansion(new_no, old_no, files);
            &&& t.lines == s.lines
            &&& new_no matches Some(n) ==> (exists|k: int|
                0 <= k < s.lines.len() && (#[trigger] s.lines[k]) is Diff
                    && s.lines[k]->Diff_line.new_line_no == Some(n)) ==> 0 <= t.cursor
                < s.lines.len() && s.lines[t.cursor] is Diff
                && s.lines[t.cursor]->Diff_line.new_line_no == Some(n)
            &&& new_no is None ==> (old_no matches Some(n) ==> (exists|k: int|
                0 <= k < s.lines.len() && (#[trigger] s.lines[k]) is Diff
                    && s.lines[k]->Diff_line.old_line_no == Some(n)) ==> 0 <= t.cursor
                < s.lines.len() && s.lines[t.cursor] is Diff
                && s.lines[t.cursor]->Diff_line.old_line_no == Some(n))
        }),
{
    reveal(ScreenV::on_expansion);
    reveal(ScreenV::centered);
    if let Some(n) = new_no {
        crate::navigate::law_line_by_number(s, n, false, files);
    }
    if let Some(n) = old_no {
        crate::navigate::law_line_by_number(s, n, true, files);
    }
    let found = match (new_no, old_no) {
        (Some(n), _) => s.line_numbered(0, n, false),
        (None, Some(n)) => s.line_numbered(0, n, true),
        (None, None) => None,
    };
    let cursor = match found {
        Some(i) => i,
        None => s.cursor,
    };
    let cursor = if cursor >= s.lines.len() {
        0
    } else {
        cursor
    };
    lemma_adjusted_frame(ScreenV { scroll: 0, ..s.forward_from(0) }, files);
    lemma_adjusted_frame(s.at(cursor).centered(), files);
    if found is Some {
        assert(!s.skippable(cursor));
    }
}

/// Expanding shows the file that the cursor is in, and looks for the line that the
/// cursor is on.
pub proof fn law_expands_current(s: AppV, disk: DiskV, path: Seq<char>, f: int, line: DiffLineV)
    requires
        s.expanded is None,
        s.screen.current_file() == Some((path, f)),
        s.screen.line(s.screen.cursor) matches Some(DisplayLineV::Diff { line: l, .. }) && l == line,
    ensures
        s.expand_toggled(disk).expanded == Some(f),
        s.expand_target_new() == line.new_line_no,
        s.expand_target_old() == line.old_line_no,
        s.expand_toggled(disk).files == s.files,
{
    reveal(AppV::file_expanded);
    reveal(AppV::expand_target_new);
    reveal(AppV::expand_target_old);
    reveal(AppV::put_aside);
    let a = AppV { expanded: Some(f), ..s.put_aside() };
    lemma_built_frame(a, disk);
}

/// The sidebar opens on the file that the cursor is in, with the focus.
pub proof fn law_sidebar_opens(s: ScreenV, path: Seq<char>, f: int, files: int)
    requires
        !s.sidebar_open,
        s.current_file() == Some((path, f)),
        0 <= f < files,
    ensures
        s.sidebar_flipped(files).sidebar_open,
        s.sidebar_flipped(files).sidebar_focused,
        s.sidebar_flipped(files).sidebar_index == f,
{
    reveal(ScreenV::sidebar_flipped);
}

/// Deletions are hidden if they were shown and shown if they were hidden, in an
/// expanded file alone.
pub proof fn law_deletions_toggled(s: AppV, disk: DiskV)
    ensures
        s.expanded is Some ==> s.deletions_toggled(disk).show_old == !s.show_old,
        s.expanded is None ==> s.deletions_toggled(disk) == s,
        s.deletions_toggled(disk).files == s.files,
{
    reveal(AppV::deletions_toggled);
    if let Some(f) = s.expanded {
        lemma_updated_frame(AppV { show_old: !s.show_old, ..s }, f, disk);
    }
}

} // verus!
