//! Loading a diff file by file, and reloading it.
use vstd::prelude::*;

use crate::action::{Action, ActionV};
use crate::diff::{
    file_views, DiffFile, DiffFileV, DiffLineV, DiffMode, DiffModeV, HighlightRange,
};
use crate::display::{map_views, opt_idx, DisplayLineV};
use crate::schedule::DiffRef;
use crate::screen::{last_index, less_one, Screen, ScreenV};
use crate::state::{opt_target, tiled, App, AppV, Disk, DiskV, Mode};
use crate::text::opt_text;
use crate::views::lemma_updated_frame;

verus! {

/// How many files are collected before they are shown.
pub const STREAM_BATCH_FILES: usize = 3;

/// How long files have to be left alone before the diff is reloaded, in
/// milliseconds.
pub const FS_SETTLE_MILLIS: u64 = 300;

/// What the loading of a diff has brought.
#[derive(Debug)]
pub enum DiffStreamEvent {
    File { generation: u64, file: DiffFile },
    Done { generation: u64, error: Option<String> },
}

/// The value of a [`DiffStreamEvent`].
pub enum StreamV {
    File { generation: u64, file: DiffFileV },
    Done { generation: u64, error: Option<Seq<char>> },
}

impl View for DiffStreamEvent {
    type V = StreamV;

    open spec fn view(&self) -> StreamV {
        match self {
            DiffStreamEvent::File { generation, file } => StreamV::File {
                generation: *generation,
                file: file@,
            },
            DiffStreamEvent::Done { generation, error } => StreamV::Done {
                generation: *generation,
                error: opt_text(*error),
            },
        }
    }
}

impl ScreenV {
    /// Without lines.
    pub open spec fn emptied(self) -> ScreenV {
        ScreenV { lines: Seq::empty(), ranges: Seq::empty(), ..self }
    }

    /// With the sidebar on a file that there is.
    pub open spec fn sidebar_clamped(self, files: int) -> ScreenV {
        if !self.sidebar_open {
            self
        } else if files == 0 {
            ScreenV { sidebar_index: 0, sidebar_scroll: 0, ..self }
        } else if self.sidebar_index >= files {
            ScreenV { sidebar_index: files - 1, ..self }
        } else {
            self
        }
    }

    /// With a cursor at the top or beyond the end settled.
    #[verifier::opaque]
    pub open spec fn kept_inside(self, files: int) -> ScreenV {
        let last = less_one(self.lines.len() as int);
        if self.cursor == 0 {
            self.moved_to(0, files)
        } else if self.cursor >= last {
            self.moved_to(last, files)
        } else {
            self
        }
    }
}

impl AppV {
    /// Without the files of the diff and their lines.
    #[verifier::opaque]
    pub open spec fn without_files(self) -> AppV {
        AppV {
            files: Seq::empty(),
            index: Map::empty(),
            screen: self.screen.emptied(),
            pending_reset: false,
            ..self
        }
    }

    /// With a diff being loaded. The old one stays until the first file comes.
    #[verifier::opaque]
    pub open spec fn stream_started(self, target: Option<(Seq<char>, u32)>) -> AppV {
        AppV {
            generation: if self.generation == u64::MAX {
                0
            } else {
                (self.generation + 1) as u64
            },
            loading: true,
            highlights: self.highlights.cleared(),
            screen: self.screen.unselected(),
            annotation_range: None,
            message: Some("Loading diff..."@),
            target,
            pending_reset: true,
            ..self.without_saved()
        }
    }

    /// With the diff being reloaded, to come back to where the cursor is.
    pub open spec fn reloading(self) -> AppV {
        self.stream_started(self.screen.target())
    }

    /// With the files that are collapsed noted for the view.
    #[verifier::opaque]
    pub open spec fn collapsed_saved(self) -> AppV {
        match self.diff_mode {
            DiffModeV::Unstaged => AppV { collapsed_unstaged: self.screen.collapsed, ..self },
            DiffModeV::Staged => AppV { collapsed_staged: self.screen.collapsed, ..self },
            _ => AppV { collapsed_other: self.screen.collapsed, ..self },
        }
    }

    /// With the files collapsed that were noted for the view.
    #[verifier::opaque]
    pub open spec fn collapsed_loaded(self) -> AppV {
        AppV {
            screen: ScreenV {
                collapsed: match self.diff_mode {
                    DiffModeV::Unstaged => self.collapsed_unstaged,
                    DiffModeV::Staged => self.collapsed_staged,
                    _ => self.collapsed_other,
                },
                ..self.screen
            },
            ..self
        }
    }

    /// Switching between unstaged and staged changes.
    #[verifier::opaque]
    pub open spec fn view_toggled(self) -> (AppV, ActionV) {
        match self.diff_mode {
            DiffModeV::Unstaged => (
                (AppV { diff_mode: DiffModeV::Staged, ..self.collapsed_saved() }).collapsed_loaded()
                    .stream_started(None),
                ActionV::LoadDiff,
            ),
            DiffModeV::Staged => (
                (AppV {
                    diff_mode: DiffModeV::Unstaged,
                    ..self.collapsed_saved()
                }).collapsed_loaded().stream_started(None),
                ActionV::LoadDiff,
            ),
            _ => (self.saying("Only unstaged/staged views can be toggled"@), ActionV::Idle),
        }
    }

    /// The place of a file in the diff: where one of the same path is, or at the
    /// end.
    pub open spec fn slot_of(self, file: DiffFileV) -> usize {
        if self.index.contains_key(file.path()) {
            self.index[file.path()]
        } else {
            self.files.len() as usize
        }
    }

    /// With a file in its place.
    #[verifier::opaque]
    pub open spec fn with_slot(self, file: DiffFileV) -> AppV {
        if self.index.contains_key(file.path()) {
            let i = self.index[file.path()] as int;
            if i < self.files.len() {
                AppV { files: self.files.update(i, file), ..self }
            } else {
                self
            }
        } else {
            AppV {
                files: self.files.push(file),
                index: self.index.insert(file.path(), self.files.len() as usize),
                ..self
            }
        }
    }

    /// With the first `n` of some files in their places, and these places.
    pub open spec fn with_slots(self, files: Seq<DiffFileV>, n: int) -> (AppV, Seq<usize>)
        decreases n,
    {
        if n <= 0 {
            (self, Seq::empty())
        } else {
            let (s, places) = self.with_slots(files, n - 1);
            (s.with_slot(files[n - 1]), places.push(s.slot_of(files[n - 1])))
        }
    }

    /// With the lines of the first `n` of some files built anew.
    pub open spec fn with_updates(self, places: Seq<usize>, n: int, disk: DiskV) -> AppV
        decreases n,
    {
        if n <= 0 {
            self
        } else {
            self.with_updates(places, n - 1, disk).with_file_updated(places[n - 1] as int, disk)
        }
    }

    /// With the search made anew, if there is a query.
    pub open spec fn searched_if_any(self) -> AppV {
        match self.search {
            Some(s) if s.query.len() > 0 => self.searched(),
            _ => self,
        }
    }

    /// At the line to come back to, if it is there by now.
    #[verifier::opaque]
    pub open spec fn at_target(self) -> AppV {
        match self.target {
            Some((path, no)) => match self.screen.best_line(path, no) {
                Some(i) => AppV {
                    target: None,
                    screen: self.screen.moved_to(i, self.files.len() as int),
                    ..self
                },
                None => self,
            },
            None => self,
        }
    }

    /// With the files that were collected shown.
    #[verifier::opaque]
    pub open spec fn flushed(self, disk: DiskV) -> AppV {
        if self.pending_files.len() == 0 {
            self
        } else {
            let files = self.pending_files;
            let (s, places) = (AppV { pending_files: Seq::empty(), ..self }).with_slots(
                files,
                files.len() as int,
            );
            let t = s.with_updates(places, places.len() as int, disk);
            let u = if t.loading {
                t
            } else {
                t.searched_if_any()
            };
            if u.target is Some {
                u.at_target()
            } else {
                u.on(u.screen.kept_inside(u.files.len() as int))
            }
        }
    }

    /// With a file that was loaded.
    #[verifier::opaque]
    pub open spec fn file_arrived(self, file: DiffFileV, disk: DiskV) -> AppV {
        let s = if self.pending_reset {
            AppV { pending_files: Seq::empty(), ..self.without_files() }
        } else {
            self
        };
        let t = AppV { pending_files: s.pending_files.push(file), ..s };
        if t.files.len() == 0 || t.pending_files.len() >= STREAM_BATCH_FILES {
            t.flushed(disk)
        } else {
            t
        }
    }

    /// What is said of a diff that was loaded.
    pub open spec fn load_message(self, error: Option<Seq<char>>) -> Option<Seq<char>> {
        match error {
            Some(e) => Some("Diff load failed: "@ + e),
            None => if self.files.len() == 0 {
                Some(
                    match self.diff_mode {
                        DiffModeV::Unstaged => "No unstaged changes"@,
                        DiffModeV::Staged => "No staged changes"@,
                        _ => "No changes"@,
                    },
                )
            } else {
                None
            },
        }
    }

    /// With the files noted for the view.
    #[verifier::opaque]
    pub open spec fn files_cached(self) -> AppV {
        match self.diff_mode {
            DiffModeV::Unstaged => AppV { cached_unstaged: Some(self.files), ..self },
            DiffModeV::Staged => AppV { cached_staged: Some(self.files), ..self },
            _ => self,
        }
    }

    /// With the display built if there are files and no lines.
    pub open spec fn built_if_empty(self, disk: DiskV) -> AppV {
        if self.files.len() > 0 && self.screen.lines.len() == 0 {
            self.built(disk)
        } else {
            self
        }
    }

    /// With the diff loaded.
    #[verifier::opaque]
    pub open spec fn load_finished(self, error: Option<Seq<char>>, disk: DiskV) -> AppV {
        let s = self.on(self.screen.sidebar_clamped(self.files.len() as int)).flushed(disk);
        let t = AppV { loading: false, message: s.load_message(error), ..s };
        let u = t.built_if_empty(disk).searched_if_any().files_cached();
        (if u.pending_reset {
            u.without_files()
        } else {
            u
        }).at_target()
    }

    /// Once the loading of a diff has brought something. What an older diff
    /// brings is passed over.
    pub open spec fn streamed(self, event: StreamV, disk: DiskV) -> AppV {
        match event {
            StreamV::File { generation, file } => if generation == self.generation {
                self.file_arrived(file, disk)
            } else {
                self
            },
            StreamV::Done { generation, error } => if generation == self.generation {
                self.load_finished(error, disk)
            } else {
                self
            },
        }
    }

    /// With the highlights of a whole file.
    #[verifier::opaque]
    pub open spec fn file_highlighted(
        self,
        generation: u64,
        key: Seq<char>,
        map: Seq<Seq<HighlightRange>>,
        disk: DiskV,
    ) -> AppV {
        if generation != self.generation {
            self
        } else {
            let s = AppV { highlights: self.highlights.finished(key, map, self.diff()), ..self };
            if s.index.contains_key(key) {
                s.with_file_updated(s.index[key] as int, disk)
            } else {
                s
            }
        }
    }

    /// Reloading the diff once files that have changed are left alone.
    #[verifier::opaque]
    pub open spec fn settled_reload(self, elapsed_millis: Option<u64>) -> (AppV, ActionV) {
        match elapsed_millis {
            Some(t) if self.fs_pending && t >= FS_SETTLE_MILLIS && !self.loading && self.mode
                == Mode::Normal => (
                (AppV { fs_pending: false, ..self }).reloading().saying("Diff reloaded"@),
                ActionV::LoadDiff,
            ),
            _ => (self, ActionV::Idle),
        }
    }
}

impl Screen {
    fn keep_inside(&mut self, files: usize)
        ensures
            final(self)@ == old(self)@.kept_inside(files as int),
            final(self)@.same_display(old(self)@),
    {
        reveal(ScreenV::kept_inside);
        assert(self@.lines.len() == self.display_lines@.len());
        let last = last_index(self.display_lines.len());
        if self.current_line_idx == 0 {
            self.move_to(0, files);
        } else if self.current_line_idx >= last {
            self.move_to(last, files);
        }
    }

    fn clamp_sidebar(&mut self, files: usize)
        ensures
            final(self)@ == old(self)@.sidebar_clamped(files as int),
            final(self)@.same_display(old(self)@),
    {
        let ghost s0 = self@;
        if self.sidebar_open {
            if files == 0 {
                self.sidebar_index = 0;
                self.sidebar_scroll = 0;
            } else if self.sidebar_index >= files {
                self.sidebar_index = files - 1;
            }
        }
        assert(self@ =~= s0.sidebar_clamped(files as int));
    }
}

impl App {
    fn drop_files(&mut self)
        requires
            old(self)@.wf(),
        ensures
            final(self)@ == old(self)@.without_files(),
            final(self)@.wf(),
    {
        reveal(App::model);
        reveal(AppV::without_files);
        let ghost s0 = self@;
        self.files = Vec::new();
        self.diff_file_index.clear();
        self.screen.display_lines = Vec::new();
        self.screen.file_line_ranges = Vec::new();
        self.diff_pending_reset = false;
        proof {
            reveal(tiled);
            assert(self@.files =~= Seq::empty());
            assert(self@.screen.lines =~= Seq::empty());
            assert(self@.screen.ranges =~= Seq::empty());
            assert(self@.screen == s0.screen.emptied());
            assert(self@ == s0.without_files());
        }
    }

    /// Starts to load the diff.
    pub fn start_diff_stream(&mut self, target: Option<(String, u32)>)
        requires
            old(self)@.wf(),
        ensures
            final(self)@ == old(self)@.stream_started(opt_target(target)),
            final(self)@.wf(),
    {
        reveal(App::model);
        reveal(AppV::stream_started);
        let ghost s0 = self@;
        self.pre_expand_display_lines = None;
        self.pre_expand_file_line_ranges = None;
        self.pre_expand_diff_generation = None;
        self.diff_generation = if self.diff_generation == u64::MAX {
            0
        } else {
            self.diff_generation + 1
        };
        self.diff_loading = true;
        self.highlights.clear();
        self.screen.clear_selection();
        self.annotation_range = None;
        self.message = Some("Loading diff...".to_owned());
        self.diff_target = target;
        self.diff_pending_reset = true;
        assert(self@ == s0.stream_started(opt_target(target)));
    }

    fn target_position(&self) -> (r: Option<(String, u32)>)
        ensures
            opt_target(r) == self@.screen.target(),
    {
        reveal(App::model);
        self.screen.current_target_position()
    }

    /// Reloads the diff.
    pub fn reload_diff(&mut self)
        requires
            old(self)@.wf(),
        ensures
            final(self)@ == old(self)@.reloading(),
            final(self)@.wf(),
    {
        let target = self.target_position();
        self.start_diff_stream(target);
    }

    fn save_collapsed_state(&mut self)
        requires
            old(self)@.wf(),
        ensures
            final(self)@ == old(self)@.collapsed_saved(),
            final(self)@.wf(),
    {
        reveal(App::model);
        reveal(AppV::collapsed_saved);
        let ghost s0 = self@;
        let collapsed = self.screen.collapsed_files.clone();
        match &self.diff_mode {
            DiffMode::Unstaged => self.collapsed_files_unstaged = collapsed,
            DiffMode::Staged => self.collapsed_files_staged = collapsed,
            _ => self.collapsed_files_other = collapsed,
        }
        assert(self@ == s0.collapsed_saved());
    }

    fn load_collapsed_state(&mut self)
        requires
            old(self)@.wf(),
        ensures
            final(self)@ == old(self)@.collapsed_loaded(),
            final(self)@.wf(),
    {
        reveal(App::model);
        reveal(AppV::collapsed_loaded);
        let ghost s0 = self@;
        let collapsed = match &self.diff_mode {
            DiffMode::Unstaged => self.collapsed_files_unstaged.clone(),
            DiffMode::Staged => self.collapsed_files_staged.clone(),
            _ => self.collapsed_files_other.clone(),
        };
        self.screen.collapsed_files = collapsed;
        assert(self@.screen == s0.collapsed_loaded().screen);
        assert(self@ == s0.collapsed_loaded());
    }

    fn set_diff_mode(&mut self, mode: DiffMode)
        requires
            old(self)@.wf(),
        ensures
            final(self)@ == (AppV { diff_mode: mode@, ..old(self)@ }),
            final(self)@.wf(),
    {
        reveal(App::model);
        let ghost s0 = self@;
        self.diff_mode = mode;
        assert(self@ == (AppV { diff_mode: mode@, ..s0 }));
    }

    fn switch_diff_mode(&mut self, target: DiffMode)
        requires
            old(self)@.wf(),
        ensures
            final(self)@ == (AppV {
                diff_mode: target@,
                ..old(self)@.collapsed_saved()
            }).collapsed_loaded().stream_started(None),
            final(self)@.wf(),
    {
        self.save_collapsed_state();
        self.set_diff_mode(target);
        self.load_collapsed_state();
        self.start_diff_stream(None);
    }

    /// Switches between unstaged and staged changes.
    pub fn toggle_diff_view(&mut self) -> (r: Action)
        requires
            old(self)@.wf(),
        ensures
            (final(self)@, r@) == old(self)@.view_toggled(),
            final(self)@.wf(),
    {
        reveal(AppV::view_toggled);
        match self.index_view() {
            Some(false) => {
                self.switch_diff_mode(DiffMode::Staged);
                Action::LoadDiff
            },
            Some(true) => {
                self.switch_diff_mode(DiffMode::Unstaged);
                Action::LoadDiff
            },
            None => {
                self.say("Only unstaged/staged views can be toggled");
                Action::Idle
            },
        }
    }

    /// Puts a file in its place. Gives the place.
    fn place_file(&mut self, file: DiffFile) -> (r: usize)
        requires
            old(self)@.wf(),
        ensures
            final(self)@ == old(self)@.with_slot(file@),
            r == old(self)@.slot_of(file@),
            final(self)@.wf(),
    {
        reveal(App::model);
        reveal(AppV::with_slot);
        let ghost s0 = self@;
        let ghost fv = file@;
        let path = file.path();
        assert(s0.files.len() == self.files@.len());
        let known = match self.diff_file_index.get(path.as_str()) {
            Some(i) => Some(*i),
            None => None,
        };
        match known {
            Some(i) => {
                if i < self.files.len() {
                    self.files.set(i, file);
                    assert(self@.files =~= s0.files.update(i as int, fv));
                }
                assert(self@ == s0.with_slot(fv));
                i
            },
            None => {
                let i = self.files.len();
                self.files.push(file);
                assert(self@.files =~= s0.files.push(fv));
                self.diff_file_index.insert(path.as_str(), i);
                assert(self@ == s0.with_slot(fv));
                i
            },
        }
    }

    /// Takes the files that were collected.
    fn take_pending(&mut self) -> (v: Vec<DiffFile>)
        requires
            old(self)@.wf(),
        ensures
            file_views(v@) == old(self)@.pending_files,
            final(self)@ == (AppV { pending_files: Seq::empty(), ..old(self)@ }),
            final(self)@.wf(),
    {
        reveal(App::model);
        let ghost s0 = self@;
        let mut v: Vec<DiffFile> = Vec::new();
        v.append(&mut self.pending_stream_files);
        assert(file_views(v@) =~= s0.pending_files);
        assert(self@.pending_files =~= Seq::empty());
        assert(self@ == (AppV { pending_files: Seq::empty(), ..s0 }));
        v
    }

    fn push_pending(&mut self, file: DiffFile)
        requires
            old(self)@.wf(),
        ensures
            final(self)@ == (AppV {
                pending_files: old(self)@.pending_files.push(file@),
                ..old(self)@
            }),
            final(self)@.wf(),
    {
        reveal(App::model);
        let ghost s0 = self@;
        let ghost fv = file@;
        self.pending_stream_files.push(file);
        assert(self@.pending_files =~= s0.pending_files.push(fv));
        assert(self@ == (AppV { pending_files: s0.pending_files.push(fv), ..s0 }));
    }

    /// How many files were collected.
    fn pending_count(&self) -> (r: usize)
        ensures
            r == self@.pending_files.len(),
    {
        reveal(App::model);
        self.pending_stream_files.len()
    }

    fn has_query(&self) -> (r: bool)
        ensures
            r == (self@.search matches Some(s) && s.query.len() > 0),
    {
        reveal(App::model);
        match &self.search {
            Some(s) => !s.query.as_str().is_empty(),
            None => false,
        }
    }

    fn search_if_any(&mut self)
        requires
            old(self)@.wf(),
        ensures
            final(self)@ == old(self)@.searched_if_any(),
            final(self)@.wf(),
    {
        if self.has_query() {
            self.execute_search();
        }
    }

    /// Whether the diff is being loaded.
    pub fn is_loading(&self) -> (r: bool)
        ensures
            r == self@.loading,
    {
        reveal(App::model);
        self.diff_loading
    }

    fn has_target(&self) -> (r: bool)
        ensures
            r == (self@.target is Some),
    {
        reveal(App::model);
        self.diff_target.is_some()
    }

    fn go_to_target(&mut self)
        requires
            old(self)@.wf(),
        ensures
            final(self)@ == old(self)@.at_target(),
            final(self)@.wf(),
    {
        reveal(AppV::at_target);
        if let Some(i) = self.find_target() {
            self.clear_target();
            self.move_to(i);
        }
    }

    fn find_target(&self) -> (r: Option<usize>)
        ensures
            match self@.target {
                Some((path, no)) => opt_idx(r) == self@.screen.best_line(path, no),
                None => r is None,
            },
    {
        reveal(App::model);
        match &self.diff_target {
            Some((path, no)) => self.screen.find_best_line_match(path.as_str(), *no),
            None => None,
        }
    }

    fn clear_target(&mut self)
        ensures
            final(self)@ == (AppV { target: None, ..old(self)@ }),
            old(self)@.wf() ==> final(self)@.wf(),
    {
        reveal(App::model);
        let ghost s0 = self@;
        self.diff_target = None;
        assert(self@ == (AppV { target: None, ..s0 }));
    }

    fn keep_inside(&mut self)
        requires
            old(self)@.wf(),
        ensures
            final(self)@ == old(self)@.on(
                old(self)@.screen.kept_inside(old(self)@.files.len() as int),
            ),
            final(self)@.wf(),
    {
        reveal(App::model);
        let ghost s0 = self@;
        let files = self.files.len();
        assert(s0.files.len() == files);
        self.screen.keep_inside(files);
        assert(self@ == s0.on(self@.screen));
    }

    fn clamp_sidebar(&mut self)
        requires
            old(self)@.wf(),
        ensures
            final(self)@ == old(self)@.on(
                old(self)@.screen.sidebar_clamped(old(self)@.files.len() as int),
            ),
            final(self)@.wf(),
    {
        reveal(App::model);
        let ghost s0 = self@;
        let files = self.files.len();
        assert(s0.files.len() == files);
        self.screen.clamp_sidebar(files);
        assert(self@ == s0.on(self@.screen));
    }

    /// Puts files in their places. Gives the places.
    fn place_files(&mut self, files: Vec<DiffFile>) -> (v: Vec<usize>)
        requires
            old(self)@.wf(),
        ensures
            (final(self)@, v@) == old(self)@.with_slots(file_views(files@), files@.len() as int),
            final(self)@.wf(),
    {
        let ghost s0 = self@;
        let ghost fv = file_views(files@);
        let mut v: Vec<usize> = Vec::new();
        let mut i: usize = 0;
        while i < files.len()
            invariant
                i <= files@.len(),
                fv == file_views(files@),
                self@.wf(),
                (self@, v@) == s0.with_slots(fv, i as int),
            decreases files@.len() - i,
        {
            assert(fv[i as int] == files@[i as int]@);
            let place = self.place_file(files[i].clone());
            v.push(place);
            i = i + 1;
        }
        v
    }

    fn update_files(&mut self, places: &[usize], disk: &Disk)
        requires
            old(self)@.wf(),
        ensures
            final(self)@ == old(self)@.with_updates(places@, places@.len() as int, disk@),
            final(self)@.wf(),
    {
        let ghost s0 = self@;
        let mut i: usize = 0;
        while i < places.len()
            invariant
                i <= places@.len(),
                self@.wf(),
                self@ == s0.with_updates(places@, i as int, disk@),
            decreases places@.len() - i,
        {
            self.update_display_lines_for_file(places[i], disk);
            i = i + 1;
        }
    }

    /// Shows the files that were collected.
    pub fn flush_streamed_files(&mut self, disk: &Disk)
        requires
            old(self)@.wf(),
        ensures
            final(self)@ == old(self)@.flushed(disk@),
            final(self)@.wf(),
    {
        reveal(AppV::flushed);
        if self.pending_count() == 0 {
            return ;
        }
        let files = self.take_pending();
        assert(file_views(files@).len() == files@.len());
        let places = self.place_files(files);
        self.update_files(&places, disk);
        if !self.is_loading() {
            self.search_if_any();
        }
        if self.has_target() {
            self.go_to_target();
        } else {
            self.keep_inside();
        }
    }

    fn awaits_reset(&self) -> (r: bool)
        ensures
            r == self@.pending_reset,
    {
        reveal(App::model);
        self.diff_pending_reset
    }

    fn take_in_file(&mut self, file: DiffFile, disk: &Disk)
        requires
            old(self)@.wf(),
        ensures
            final(self)@ == old(self)@.file_arrived(file@, disk@),
            final(self)@.wf(),
    {
        reveal(AppV::file_arrived);
        if self.awaits_reset() {
            self.drop_files();
            self.take_pending();
        }
        self.push_pending(file);
        if self.file_count() == 0 || self.pending_count() >= STREAM_BATCH_FILES {
            self.flush_streamed_files(disk);
        }
    }

    /// Notes that the diff is loaded, with a message.
    fn end_loading(&mut self, error: Option<String>)
        requires
            old(self)@.wf(),
        ensures
            final(self)@ == (AppV {
                loading: false,
                message: old(self)@.load_message(opt_text(error)),
                ..old(self)@
            }),
            final(self)@.wf(),
    {
        reveal(App::model);
        let ghost s0 = self@;
        assert(s0.files.len() == self.files@.len());
        self.diff_loading = false;
        self.message = match &error {
            Some(e) => {
                let mut message = "Diff load failed: ".to_owned();
                message.push_str(e.as_str());
                Some(message)
            },
            None => if self.files.len() == 0 {
                Some(
                    match &self.diff_mode {
                        DiffMode::Unstaged => "No unstaged changes".to_owned(),
                        DiffMode::Staged => "No staged changes".to_owned(),
                        _ => "No changes".to_owned(),
                    },
                )
            } else {
                None
            },
        };
        assert(self@.message == s0.load_message(opt_text(error)));
        assert(self@ == (AppV {
            loading: false,
            message: s0.load_message(opt_text(error)),
            ..s0
        }));
    }

    fn line_count(&self) -> (r: usize)
        ensures
            r == self@.screen.lines.len(),
    {
        reveal(App::model);
        self.screen.display_lines.len()
    }

    fn cache_files(&mut self)
        requires
            old(self)@.wf(),
        ensures
            final(self)@ == old(self)@.files_cached(),
            final(self)@.wf(),
    {
        reveal(App::model);
        reveal(AppV::files_cached);
        let ghost s0 = self@;
        match &self.diff_mode {
            DiffMode::Unstaged => {
                let files = self.files.clone();
                assert(file_views(files@) =~= s0.files);
                self.cached_unstaged = Some(files);
            },
            DiffMode::Staged => {
                let files = self.files.clone();
                assert(file_views(files@) =~= s0.files);
                self.cached_staged = Some(files);
            },
            _ => {},
        }
        assert(self@ == s0.files_cached());
    }

    fn finish_loading(&mut self, error: Option<String>, disk: &Disk)
        requires
            old(self)@.wf(),
        ensures
            final(self)@ == old(self)@.load_finished(opt_text(error), disk@),
            final(self)@.wf(),
    {
        reveal(AppV::load_finished);
        self.clamp_sidebar();
        self.flush_streamed_files(disk);
        self.end_loading(error);
        if self.file_count() > 0 && self.line_count() == 0 {
            self.build_display_lines(disk);
        }
        self.search_if_any();
        self.cache_files();
        if self.awaits_reset() {
            self.drop_files();
        }
        self.go_to_target();
    }

    /// The number of the diff that is loaded.
    pub fn generation(&self) -> (r: u64)
        ensures
            r == self@.generation,
    {
        reveal(App::model);
        self.diff_generation
    }

    /// Takes in what the loading of a diff has brought.
    pub fn handle_diff_event(&mut self, event: DiffStreamEvent, disk: &Disk)
        requires
            old(self)@.wf(),
        ensures
            final(self)@ == old(self)@.streamed(event@, disk@),
            final(self)@.wf(),
    {
        let current = self.generation();
        match event {
            DiffStreamEvent::File { generation, file } => {
                if generation == current {
                    self.take_in_file(file, disk);
                }
            },
            DiffStreamEvent::Done { generation, error } => {
                if generation == current {
                    self.finish_loading(error, disk);
                }
            },
        }
    }

    fn finish_highlight(&mut self, key: &str, map: Vec<Vec<HighlightRange>>) -> (r: Option<usize>)
        requires
            old(self)@.wf(),
        ensures
            final(self)@ == (AppV {
                highlights: old(self)@.highlights.finished(
                    key@,
                    map_views(map@),
                    old(self)@.diff(),
                ),
                ..old(self)@
            }),
            match r {
                Some(i) => old(self)@.index.contains_key(key@) && old(self)@.index[key@] == i,
                None => !old(self)@.index.contains_key(key@),
            },
            final(self)@.wf(),
    {
        reveal(App::model);
        let ghost s0 = self@;
        let diff = DiffRef {
            files: &self.files,
            index: &self.diff_file_index,
            mode: &self.diff_mode,
            generation: self.diff_generation,
        };
        self.highlights.finish(key, map, &diff);
        assert(self@ == (AppV { highlights: s0.highlights.finished(key@, map_views(map@), s0.diff()), ..s0 }));
        match self.diff_file_index.get(key) {
            Some(i) => Some(*i),
            None => None,
        }
    }

    /// Takes in the highlights of a whole file.
    pub fn handle_full_highlight_event(
        &mut self,
        generation: u64,
        file_key: &str,
        map: Vec<Vec<HighlightRange>>,
        disk: &Disk,
    )
        requires
            old(self)@.wf(),
        ensures
            final(self)@ == old(self)@.file_highlighted(
                generation,
                file_key@,
                map_views(map@),
                disk@,
            ),
            final(self)@.wf(),
    {
        reveal(AppV::file_highlighted);
        if generation == self.generation() {
            if let Some(i) = self.finish_highlight(file_key, map) {
                self.update_display_lines_for_file(i, disk);
            }
        }
    }

    fn may_reload(&self, elapsed_millis: Option<u64>) -> (r: bool)
        ensures
            r == (elapsed_millis matches Some(t) && self@.fs_pending && t >= FS_SETTLE_MILLIS
                && !self@.loading && self@.mode == Mode::Normal),
    {
        reveal(App::model);
        match elapsed_millis {
            Some(t) => self.fs_pending && t >= FS_SETTLE_MILLIS && !self.diff_loading && self.mode
                == Mode::Normal,
            None => false,
        }
    }

    /// Reloads the diff once files that have changed are left alone. The time
    /// since the last change is given in milliseconds.
    pub fn handle_fs_pending(&mut self, elapsed_millis: Option<u64>) -> (r: Action)
        requires
            old(self)@.wf(),
        ensures
            (final(self)@, r@) == old(self)@.settled_reload(elapsed_millis),
            final(self)@.wf(),
    {
        reveal(AppV::settled_reload);
        if self.may_reload(elapsed_millis) {
            self.set_fs_pending(false);
            self.reload_diff();
            self.say("Diff reloaded");
            Action::LoadDiff
        } else {
            Action::Idle
        }
    }
}

// ---------------------------------------------------------------------------
// Laws
// ---------------------------------------------------------------------------
/// What an older diff brings changes nothing.
pub proof fn law_stale_events_ignored(
    s: AppV,
    generation: u64,
    event: StreamV,
    key: Seq<char>,
    map: Seq<Seq<HighlightRange>>,
    disk: DiskV,
)
    requires
        generation != s.generation,
        match event {
            StreamV::File { generation: g, .. } => g == generation,
            StreamV::Done { generation: g, .. } => g == generation,
        },
    ensures
        s.streamed(event, disk) == s,
        s.file_highlighted(generation, key, map, disk) == s,
{
    reveal(AppV::file_highlighted);
}

/// A reload begins a new diff, so that nothing of the one before it is taken
/// in.
pub proof fn law_reload_is_new(s: AppV, target: Option<(Seq<char>, u32)>)
    ensures
        s.stream_started(target).generation != s.generation,
        s.stream_started(target).loading,
        s.stream_started(target).files == s.files,
        s.stream_started(target).screen.lines == s.screen.lines,
        s.stream_started(target).screen.cursor == s.screen.cursor,
{
    reveal(AppV::stream_started);
}

/// Switching to the other view and back collapses the files that were
/// collapsed before.
pub proof fn law_views_keep_collapsed(s: AppV)
    requires
        s.diff_mode == DiffModeV::Unstaged || s.diff_mode == DiffModeV::Staged,
    ensures
        ({
            let (there, _) = s.view_toggled();
            let (back, _) = there.view_toggled();
            &&& back.diff_mode == s.diff_mode
            &&& back.screen.collapsed == s.screen.collapsed
        }),
{
    reveal(AppV::view_toggled);
    reveal(AppV::collapsed_saved);
    reveal(AppV::collapsed_loaded);
    reveal(AppV::stream_started);
}

/// Whether the index of the files gives the place of each of them, and of no
/// other.
pub open spec fn indexed(files: Seq<DiffFileV>, index: Map<Seq<char>, usize>) -> bool {
    &&& forall|i: int|
        0 <= i < files.len() ==> index.contains_key((#[trigger] files[i]).path())
            && index[files[i].path()] == i
    &&& forall|p: Seq<char>| #[trigger]
        index.contains_key(p) ==> index[p] < files.len() && files[index[p] as int].path() == p
}

/// While files come in, the index gives the place of each of them: so no path
/// comes twice, and a file that comes again takes the place of the one before.
pub proof fn law_stream_indexed(s: AppV, target: Option<(Seq<char>, u32)>, file: DiffFileV)
    requires
        s.files.len() < usize::MAX,
        indexed(s.files, s.index),
    ensures
        ({
            let t = s.stream_started(target);
            indexed(t.files, t.index)
        }),
        ({
            let t = s.with_slot(file);
            &&& indexed(t.files, t.index)
            &&& t.index.contains_key(file.path())
            &&& t.files[t.index[file.path()] as int] == file
        }),
{
    reveal(AppV::stream_started);
    reveal(AppV::with_slot);
    let t = s.with_slot(file);
    assert forall|i: int| 0 <= i < t.files.len() implies t.index.contains_key(
        (#[trigger] t.files[i]).path(),
    ) && t.index[t.files[i].path()] == i by {
        if i < s.files.len() {
            assert(s.index.contains_key(s.files[i].path()));
        }
    }
}

proof fn lemma_updates_files(s: AppV, places: Seq<usize>, n: int, disk: DiskV)
    ensures
        s.with_updates(places, n, disk).files == s.files,
        s.with_updates(places, n, disk).index == s.index,
        s.with_updates(places, n, disk).pending_files == s.pending_files,
        s.with_updates(places, n, disk).target == s.target,
        s.with_updates(places, n, disk).loading == s.loading,
        s.with_updates(places, n, disk).pending_reset == s.pending_reset,
    decreases n,
{
    if n > 0 {
        lemma_updates_files(s, places, n - 1, disk);
        lemma_updated_frame(s.with_updates(places, n - 1, disk), places[n - 1] as int, disk);
    }
}

proof fn lemma_flushed_files(s: AppV, disk: DiskV)
    requires
        s.pending_files.len() > 0,
    ensures
        ({
            let t = (AppV { pending_files: Seq::empty(), ..s }).with_slots(
                s.pending_files,
                s.pending_files.len() as int,
            ).0;
            &&& s.flushed(disk).files == t.files
            &&& s.flushed(disk).index == t.index
            &&& s.flushed(disk).pending_files == t.pending_files
        }),
{
    reveal(AppV::flushed);
    reveal(AppV::at_target);
    reveal(AppV::searched);
    let files = s.pending_files;
    let (a, places) = (AppV { pending_files: Seq::empty(), ..s }).with_slots(
        files,
        files.len() as int,
    );
    lemma_updates_files(a, places, places.len() as int, disk);
}

/// A file that comes in is taken up: it is in the diff under its path, or waits as
/// the last of those that are shown together.
pub proof fn law_file_taken_up(s: AppV, file: DiffFileV, disk: DiskV)
    requires
        indexed(s.files, s.index),
        s.files.len() < usize::MAX,
        s.pending_reset || s.pending_files.len() == 0,
    ensures
        ({
            let t = s.file_arrived(file, disk);
            ||| t.pending_files.len() > 0 && t.pending_files.last() == file
            ||| t.index.contains_key(file.path()) && t.index[file.path()] < t.files.len()
                && t.files[t.index[file.path()] as int] == file
        }),
        s.pending_reset ==> s.file_arrived(file, disk).files.len() == 1 && s.file_arrived(
            file,
            disk,
        ).files[0] == file,
        !s.pending_reset && s.files.len() == 0 ==> s.file_arrived(file, disk).files.len() == 1
            && s.file_arrived(file, disk).files[0] == file,
{
    reveal(AppV::file_arrived);
    reveal(AppV::without_files);
    reveal(AppV::with_slot);
    let a = if s.pending_reset {
        AppV { pending_files: Seq::empty(), ..s.without_files() }
    } else {
        s
    };
    let b = AppV { pending_files: a.pending_files.push(file), ..a };
    assert(b.pending_files.len() == 1);
    let c = AppV { pending_files: Seq::empty(), ..b };
    assert(c.with_slots(b.pending_files, 0).0 == c);
    assert(c.with_slots(b.pending_files, 1).0 == c.with_slot(file));
    lemma_flushed_files(b, disk);
    if !s.pending_reset && s.files.len() == 0 {
        assert forall|p: Seq<char>| !#[trigger] s.index.contains_key(p) by {
            if s.index.contains_key(p) {
                assert(s.index[p] < s.files.len());
            }
        }
    }
}

/// Once a diff is loaded, nothing waits any more. An error is told, and so is that
/// there is nothing to show.
pub proof fn law_load_ends(s: AppV, error: Option<Seq<char>>, disk: DiskV)
    requires
        s.pending_files.len() == 0,
        !s.pending_reset,
    ensures
        ({
            let t = s.load_finished(error, disk);
            &&& !t.loading
            &&& t.files == s.files
            &&& error matches Some(e) ==> t.message == Some("Diff load failed: "@ + e)
            &&& error is None && s.files.len() > 0 ==> t.message is None
            &&& error is None && s.files.len() == 0 ==> t.message == Some(
                match s.diff_mode {
                    DiffModeV::Unstaged => "No unstaged changes"@,
                    DiffModeV::Staged => "No staged changes"@,
                    _ => "No changes"@,
                },
            )
            &&& s.diff_mode == DiffModeV::Unstaged ==> t.cached_unstaged == Some(s.files)
            &&& s.diff_mode == DiffModeV::Staged ==> t.cached_staged == Some(s.files)
        }),
{
    reveal(AppV::load_finished);
    reveal(AppV::flushed);
    reveal(AppV::files_cached);
    reveal(AppV::at_target);
    reveal(AppV::searched);
    let a = s.on(s.screen.sidebar_clamped(s.files.len() as int));
    let b = AppV { loading: false, message: a.load_message(error), ..a };
    crate::compose::lemma_built_frame(b, disk);
}

/// A diff that was loaded without files takes the old one away.
pub proof fn law_empty_load(s: AppV, error: Option<Seq<char>>, disk: DiskV)
    requires
        s.pending_files.len() == 0,
        s.pending_reset,
    ensures
        s.load_finished(error, disk).files.len() == 0,
        s.load_finished(error, disk).screen.lines.len() == 0,
        !s.load_finished(error, disk).loading,
{
    reveal(AppV::load_finished);
    reveal(AppV::flushed);
    reveal(AppV::files_cached);
    reveal(AppV::at_target);
    reveal(AppV::without_files);
    reveal(AppV::searched);
    reveal(ScreenV::moved_to);
    let a = s.on(s.screen.sidebar_clamped(s.files.len() as int));
    let b = AppV { loading: false, message: a.load_message(error), ..a };
    crate::compose::lemma_built_frame(b, disk);
    let u = b.built_if_empty(disk).searched_if_any().files_cached();
    let v = u.without_files();
    if let Some((path, no)) = s.target {
        crate::navigate::law_best_line(v.screen, path, no);
    }
}

/// A reload comes back to the line that it started from: to a line of the same file
/// with the same number if there is one, and to none that is further off than
/// another.
pub proof fn law_back_at_target(s: AppV, path: Seq<char>, no: u32)
    requires
        s.target == Some((path, no)),
        exists|k: int| (#[trigger] s.screen.number_in_file(k, path)) is Some,
    ensures
        ({
            let t = s.at_target();
            let c = t.screen.cursor;
            &&& t.target is None
            &&& t.screen.lines == s.screen.lines
            &&& s.screen.number_in_file(c, path) is Some
            &&& forall|j: int|
                (#[trigger] s.screen.number_in_file(j, path)) is Some ==> crate::navigate::line_gap(
                    s.screen.number_in_file(c, path)->0,
                    no,
                ) <= crate::navigate::line_gap(s.screen.number_in_file(j, path)->0, no)
            &&& (exists|k: int| (#[trigger] s.screen.number_in_file(k, path)) == Some(no))
                ==> s.screen.number_in_file(c, path) == Some(no)
        }),
{
    reveal(AppV::at_target);
    crate::navigate::law_best_line(s.screen, path, no);
    let k = choose|k: int| (#[trigger] s.screen.number_in_file(k, path)) is Some;
    assert(s.screen.number_in_file(k, path) is Some);
    assert(s.screen.best_line(path, no) is Some);
    let i = s.screen.best_line(path, no)->0;
    assert(crate::navigate::can_stand(s.screen, i));
    crate::navigate::law_moved_to(s.screen, i, s.files.len() as int);
    assert(s.at_target().screen.cursor == i);
    if exists|j: int| (#[trigger] s.screen.number_in_file(j, path)) == Some(no) {
        let j = choose|j: int| (#[trigger] s.screen.number_in_file(j, path)) == Some(no);
        assert(s.screen.number_in_file(j, path) is Some);
    }
}

/// What a reload comes back to is the file and the number of the cursor's line, the
/// new number where there is one.
pub proof fn law_target_is_cursor(s: AppV, line: DiffLineV, path: Seq<char>, no: u32)
    requires
        s.screen.line(s.screen.cursor) matches Some(DisplayLineV::Diff { line: l, file_path, .. })
            && l == line && file_path == path,
        line.new_line_no == Some(no) || (line.new_line_no is None && line.old_line_no == Some(no)),
    ensures
        s.reloading().target == Some((path, no)),
{
    reveal(AppV::stream_started);
}

/// Files that have changed on disk lead to a reload only when they have been left
/// alone for a while, nothing is being loaded and nothing is being typed.
pub proof fn law_settled_reload(s: AppV, elapsed_millis: Option<u64>)
    ensures
        (s.settled_reload(elapsed_millis).1 == ActionV::LoadDiff) <==> (s.fs_pending && !s.loading
            && s.mode == Mode::Normal && (elapsed_millis matches Some(t) && t >= 300)),
        s.settled_reload(elapsed_millis).1 == ActionV::LoadDiff ==> !s.settled_reload(
            elapsed_millis,
        ).0.fs_pending && s.settled_reload(elapsed_millis).0.loading,
        s.settled_reload(elapsed_millis).1 != ActionV::LoadDiff ==> s.settled_reload(
            elapsed_millis,
        ).0 == s,
{
    reveal(AppV::settled_reload);
    reveal(AppV::stream_started);
}

/// Switching the view goes from what is not staged to what is and back, and loads
/// the diff anew; other diffs stay.
pub proof fn law_view_switch(s: AppV)
    ensures
        s.diff_mode == DiffModeV::Unstaged ==> s.view_toggled().0.diff_mode == DiffModeV::Staged,
        s.diff_mode == DiffModeV::Staged ==> s.view_toggled().0.diff_mode == DiffModeV::Unstaged,
        (s.diff_mode == DiffModeV::Unstaged || s.diff_mode == DiffModeV::Staged) <==> s.view_toggled().1
            == ActionV::LoadDiff,
        !(s.diff_mode == DiffModeV::Unstaged || s.diff_mode == DiffModeV::Staged)
            ==> s.view_toggled().0.diff_mode == s.diff_mode,
{
    reveal(AppV::view_toggled);
    reveal(AppV::collapsed_saved);
    reveal(AppV::collapsed_loaded);
    reveal(AppV::stream_started);
}

} // verus!
