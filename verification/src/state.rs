//! The state of the application.
use vstd::prelude::*;

use crate::config::{AiTarget, Config};
use crate::diff::{file_views, DiffFile, DiffFileV, DiffMode, DiffModeV};
use crate::display::{display_views, opt_idx, DisplayLine, DisplayLineV};
use crate::keys::{empty_editor, new_editor};
use crate::names::{NameMap, NameSet};
use crate::outside::Editor;
use crate::schedule::{DiffV, Highlights, HighlightsV};
use crate::screen::{Screen, ScreenV};
use crate::storage::{annotation_views, Annotation, AnnotationType, AnnotationV, Side};
use crate::syntax::{HighlighterV, SyntaxHighlighter};
use crate::text::{opt_text, texts};

verus! {

/// What keys mean.
#[derive(Debug, Clone, Copy, PartialEq, Eq, Structural)]
pub enum Mode {
    Normal,
    AddAnnotation,
    /// Editing the annotation with this id.
    EditAnnotation(i64),
    /// Searching by file name.
    SearchFile,
    /// Searching within content.
    SearchContent,
    AnnotationList,
    GotoLine,
}

/// What is searched.
#[derive(Debug, Clone, Copy, PartialEq, Eq, Structural)]
pub enum SearchType {
    File,
    Content,
}

/// A search and its matches.
#[derive(Debug)]
pub struct SearchState {
    pub query: String,
    /// The lines of the display that match.
    pub matches: Vec<usize>,
    /// The match that was jumped to.
    pub current_match: usize,
    pub search_type: SearchType,
}

/// The value of a [`SearchState`].
#[verifier::ext_equal]
pub struct SearchV {
    pub query: Seq<char>,
    pub matches: Seq<usize>,
    pub current: int,
    pub search_type: SearchType,
}

impl View for SearchState {
    type V = SearchV;

    open spec fn view(&self) -> SearchV {
        SearchV {
            query: self.query@,
            matches: self.matches@,
            current: self.current_match as int,
            search_type: self.search_type,
        }
    }
}

/// The value of an optional search.
pub open spec fn opt_search(s: Option<SearchState>) -> Option<SearchV> {
    match s {
        Some(v) => Some(v@),
        None => None,
    }
}

/// How far an AI program has come.
#[derive(Debug, Clone, Copy, PartialEq, Eq, Structural)]
pub enum AiStatus {
    Running,
    Done { ok: bool },
}

/// An annotation that was sent to an AI program, and what came back.
#[derive(Debug)]
pub struct AiJob {
    pub id: u64,
    pub annotation_id: i64,
    pub annotation_type: AnnotationType,
    pub file_path: String,
    pub line: u32,
    pub status: AiStatus,
    pub output: String,
    pub target: AiTarget,
}

/// The value of an [`AiJob`].
#[verifier::ext_equal]
pub struct AiJobV {
    pub id: u64,
    pub annotation_id: i64,
    pub annotation_type: AnnotationType,
    pub file_path: Seq<char>,
    pub line: u32,
    pub status: AiStatus,
    pub output: Seq<char>,
    pub target: AiTarget,
}

impl View for AiJob {
    type V = AiJobV;

    open spec fn view(&self) -> AiJobV {
        AiJobV {
            id: self.id,
            annotation_id: self.annotation_id,
            annotation_type: self.annotation_type,
            file_path: self.file_path@,
            line: self.line,
            status: self.status,
            output: self.output@,
            target: self.target,
        }
    }
}

/// The values of a list of jobs.
pub open spec fn ai_views(jobs: Seq<AiJob>) -> Seq<AiJobV> {
    Seq::new(jobs.len(), |i: int| jobs[i]@)
}

/// What was read from disk for a step: the text of files, the same with bytes
/// that are not text replaced, their first lines, and the old text of files.
/// Files that could not be read are missing.
#[derive(Debug)]
pub struct Disk {
    pub text: NameMap<String>,
    pub lossy: NameMap<String>,
    pub first: NameMap<String>,
    pub old: NameMap<String>,
}

/// The value of a [`Disk`].
pub struct DiskV {
    pub text: Map<Seq<char>, String>,
    pub lossy: Map<Seq<char>, String>,
    pub first: Map<Seq<char>, String>,
    pub old: Map<Seq<char>, String>,
}

impl View for Disk {
    type V = DiskV;

    open spec fn view(&self) -> DiskV {
        DiskV { text: self.text@, lossy: self.lossy@, first: self.first@, old: self.old@ }
    }
}

impl DiskV {
    /// The text of a file; nothing of one that could not be read.
    pub open spec fn text_of(self, path: Seq<char>) -> Seq<char> {
        if self.text.contains_key(path) {
            self.text[path]@
        } else {
            Seq::empty()
        }
    }

    /// The first line of a file.
    pub open spec fn first_line(self, path: Seq<char>) -> Option<Seq<char>> {
        if self.first.contains_key(path) {
            Some(self.first[path]@)
        } else {
            None
        }
    }

    /// The text of a file, with bytes that are not text replaced.
    pub open spec fn lossy_of(self, path: Seq<char>) -> Option<Seq<char>> {
        if self.lossy.contains_key(path) {
            Some(self.lossy[path]@)
        } else {
            None
        }
    }
}

/// The value of optional files.
pub open spec fn opt_files(files: Option<Vec<DiffFile>>) -> Option<Seq<DiffFileV>> {
    match files {
        Some(v) => Some(file_views(v@)),
        None => None,
    }
}

/// The value of optional display lines.
pub open spec fn opt_display(lines: Option<Vec<DisplayLine>>) -> Option<Seq<DisplayLineV>> {
    match lines {
        Some(v) => Some(display_views(v@)),
        None => None,
    }
}

/// The value of optional places of lines.
pub open spec fn opt_ranges(ranges: Option<Vec<Option<(usize, usize)>>>) -> Option<
    Seq<Option<(usize, usize)>>,
> {
    match ranges {
        Some(v) => Some(v@),
        None => None,
    }
}

/// The value of an optional position in a file.
pub open spec fn opt_target(t: Option<(String, u32)>) -> Option<(Seq<char>, u32)> {
    match t {
        Some((path, n)) => Some((path@, n)),
        None => None,
    }
}

/// The application.
pub struct App {
    pub(crate) repo_id: i64,
    pub(crate) config: Config,
    pub(crate) diff_mode: DiffMode,
    pub(crate) diff_paths: Vec<String>,
    // The diff.
    pub(crate) files: Vec<DiffFile>,
    pub(crate) diff_file_index: NameMap<usize>,
    pub(crate) screen: Screen,
    pub(crate) all_annotations: Vec<Annotation>,
    pub(crate) highlighter: SyntaxHighlighter,
    pub(crate) highlights: Highlights,
    /// Counts the diffs that were loaded.
    pub(crate) diff_generation: u64,
    pub(crate) diff_loading: bool,
    /// The position to come back to once the diff is loaded.
    pub(crate) diff_target: Option<(String, u32)>,
    /// Whether the first file of a new diff drops the files of the old one.
    pub(crate) diff_pending_reset: bool,
    pub(crate) cached_unstaged: Option<Vec<DiffFile>>,
    pub(crate) cached_staged: Option<Vec<DiffFile>>,
    /// The files of the diff that are not shown yet.
    pub(crate) pending_stream_files: Vec<DiffFile>,
    /// Whether files have changed since the diff was loaded.
    pub(crate) fs_pending: bool,
    // The user interface.
    pub(crate) mode: Mode,
    pub(crate) annotation_input: Editor,
    pub(crate) annotation_type: AnnotationType,
    pub(crate) annotation_range: Option<(u32, u32)>,
    pub(crate) annotation_side: Option<Side>,
    pub(crate) message: Option<String>,
    pub(crate) show_help: bool,
    pub(crate) help_scroll: usize,
    pub(crate) help_visible_height: usize,
    pub(crate) show_annotations: bool,
    pub(crate) show_old_in_expanded: bool,
    /// When set, only this file is shown.
    pub(crate) expanded_file: Option<usize>,
    pub(crate) collapsed_files_unstaged: NameSet,
    pub(crate) collapsed_files_staged: NameSet,
    pub(crate) collapsed_files_other: NameSet,
    /// The line and the scroll position to restore when the expanded view ends.
    pub(crate) pre_expand_position: Option<(usize, usize)>,
    pub(crate) pre_expand_display_lines: Option<Vec<DisplayLine>>,
    pub(crate) pre_expand_file_line_ranges: Option<Vec<Option<(usize, usize)>>>,
    pub(crate) pre_expand_diff_generation: Option<u64>,
    pub(crate) annotation_list_idx: usize,
    pub(crate) goto_line_input: String,
    pub(crate) search: Option<SearchState>,
    pub(crate) ai_jobs: Vec<AiJob>,
    pub(crate) ai_next_id: u64,
    pub(crate) show_ai_pane: bool,
    pub(crate) ai_selected_idx: usize,
}

/// The value of an [`App`].
#[verifier::ext_equal]
pub struct AppV {
    pub repo_id: i64,
    pub config: Config,
    pub diff_mode: DiffModeV,
    pub diff_paths: Seq<Seq<char>>,
    pub files: Seq<DiffFileV>,
    pub index: Map<Seq<char>, usize>,
    pub screen: ScreenV,
    pub annotations: Seq<AnnotationV>,
    pub highlighter: HighlighterV,
    pub highlights: HighlightsV,
    pub generation: u64,
    pub loading: bool,
    pub target: Option<(Seq<char>, u32)>,
    pub pending_reset: bool,
    pub cached_unstaged: Option<Seq<DiffFileV>>,
    pub cached_staged: Option<Seq<DiffFileV>>,
    pub pending_files: Seq<DiffFileV>,
    pub fs_pending: bool,
    pub mode: Mode,
    pub input: Editor,
    pub annotation_type: AnnotationType,
    pub annotation_range: Option<(u32, u32)>,
    pub annotation_side: Option<Side>,
    pub message: Option<Seq<char>>,
    pub show_help: bool,
    pub help_scroll: int,
    pub help_visible_height: int,
    pub show_annotations: bool,
    pub show_old: bool,
    pub expanded: Option<int>,
    pub collapsed_unstaged: Set<Seq<char>>,
    pub collapsed_staged: Set<Seq<char>>,
    pub collapsed_other: Set<Seq<char>>,
    pub saved_position: Option<(usize, usize)>,
    pub saved_lines: Option<Seq<DisplayLineV>>,
    pub saved_ranges: Option<Seq<Option<(usize, usize)>>>,
    pub saved_generation: Option<u64>,
    pub list_idx: int,
    pub goto_input: Seq<char>,
    pub search: Option<SearchV>,
    pub ai_jobs: Seq<AiJobV>,
    pub ai_next_id: u64,
    pub show_ai_pane: bool,
    pub ai_selected: int,
}

impl View for App {
    type V = AppV;

    open spec fn view(&self) -> AppV {
        self.model()
    }
}

impl App {
    /// The value of the application, field by field.
    #[verifier::opaque]
    pub open(crate) spec fn model(&self) -> AppV {
        AppV {
            repo_id: self.repo_id,
            config: self.config,
            diff_mode: self.diff_mode@,
            diff_paths: texts(self.diff_paths@),
            files: file_views(self.files@),
            index: self.diff_file_index@,
            screen: self.screen@,
            annotations: annotation_views(self.all_annotations@),
            highlighter: self.highlighter@,
            highlights: self.highlights@,
            generation: self.diff_generation,
            loading: self.diff_loading,
            target: opt_target(self.diff_target),
            pending_reset: self.diff_pending_reset,
            cached_unstaged: opt_files(self.cached_unstaged),
            cached_staged: opt_files(self.cached_staged),
            pending_files: file_views(self.pending_stream_files@),
            fs_pending: self.fs_pending,
            mode: self.mode,
            input: self.annotation_input,
            annotation_type: self.annotation_type,
            annotation_range: self.annotation_range,
            annotation_side: self.annotation_side,
            message: opt_text(self.message),
            show_help: self.show_help,
            help_scroll: self.help_scroll as int,
            help_visible_height: self.help_visible_height as int,
            show_annotations: self.show_annotations,
            show_old: self.show_old_in_expanded,
            expanded: opt_idx(self.expanded_file),
            collapsed_unstaged: self.collapsed_files_unstaged@,
            collapsed_staged: self.collapsed_files_staged@,
            collapsed_other: self.collapsed_files_other@,
            saved_position: self.pre_expand_position,
            saved_lines: opt_display(self.pre_expand_display_lines),
            saved_ranges: opt_ranges(self.pre_expand_file_line_ranges),
            saved_generation: self.pre_expand_diff_generation,
            list_idx: self.annotation_list_idx as int,
            goto_input: self.goto_line_input@,
            search: opt_search(self.search),
            ai_jobs: ai_views(self.ai_jobs@),
            ai_next_id: self.ai_next_id,
            show_ai_pane: self.show_ai_pane,
            ai_selected: self.ai_selected_idx as int,
        }
    }
}

/// How many lines the first `n` files have.
pub open spec fn covered(ranges: Seq<Option<(usize, usize)>>, n: int) -> int
    decreases n,
{
    if n <= 0 {
        0
    } else {
        covered(ranges, n - 1) + (match ranges[n - 1] {
            Some((_, len)) => len as int,
            None => 0,
        })
    }
}

/// Whether the files' lines follow each other and make up a display of `total`
/// lines.
#[verifier::opaque]
pub open spec fn tiled(ranges: Seq<Option<(usize, usize)>>, total: int) -> bool {
    &&& covered(ranges, ranges.len() as int) == total
    &&& forall|i: int|
        0 <= i < ranges.len() ==> ((#[trigger] ranges[i]) matches Some((start, _)) ==> start
            == covered(ranges, i))
}

impl AppV {
    /// Whether the state is consistent: the lines of the files make up the
    /// display, also the one that was put aside, and the match of a search that
    /// was jumped to is one of its matches.
    pub open spec fn wf(self) -> bool {
        &&& tiled(self.screen.ranges, self.screen.lines.len() as int)
        &&& (self.saved_lines matches Some(lines) ==> self.saved_ranges matches Some(ranges)
            && tiled(ranges, lines.len() as int))
        &&& (self.saved_ranges is Some ==> self.saved_lines is Some)
        &&& (self.search matches Some(s) ==> s.matches.len() > 0 ==> 0 <= s.current
            < s.matches.len())
    }

    /// The diff that files are highlighted for.
    pub open spec fn diff(self) -> DiffV {
        DiffV {
            files: self.files,
            index: self.index,
            mode: self.diff_mode,
            generation: self.generation,
        }
    }

    /// With a message.
    pub open spec fn saying(self, message: Seq<char>) -> AppV {
        AppV { message: Some(message), ..self }
    }
}

/// The state in which the application starts: no diff is loaded.
pub open spec fn initial(
    repo_id: i64,
    files: Seq<DiffFileV>,
    config: Config,
    diff_mode: DiffModeV,
    diff_paths: Seq<Seq<char>>,
    highlighter: HighlighterV,
) -> AppV {
    AppV {
        repo_id,
        config,
        diff_mode,
        diff_paths,
        files,
        index: Map::empty(),
        screen: ScreenV {
            lines: Seq::empty(),
            ranges: Seq::empty(),
            cursor: 0,
            scroll: 0,
            visible_height: 20,
            content_width: 80,
            side_by_side: config.side_by_side,
            collapsed: Set::empty(),
            sidebar_open: false,
            sidebar_focused: false,
            sidebar_index: 0,
            sidebar_scroll: 0,
            selection_active: false,
            selection_start: None,
            selection_file: None,
            selection_hunk: None,
        },
        annotations: Seq::empty(),
        highlighter,
        highlights: HighlightsV {
            cached_old: Map::empty(),
            cached_new: Map::empty(),
            full: Set::empty(),
            pending: Set::empty(),
            queue: Seq::empty(),
            inflight: 0,
            jobs: Seq::empty(),
        },
        generation: 0,
        loading: false,
        target: None,
        pending_reset: false,
        cached_unstaged: None,
        cached_staged: None,
        pending_files: Seq::empty(),
        fs_pending: false,
        mode: Mode::Normal,
        input: empty_editor(),
        annotation_type: AnnotationType::Comment,
        annotation_range: None,
        annotation_side: None,
        message: None,
        show_help: false,
        help_scroll: 0,
        help_visible_height: 0,
        show_annotations: config.show_annotations,
        show_old: true,
        expanded: None,
        collapsed_unstaged: Set::empty(),
        collapsed_staged: Set::empty(),
        collapsed_other: Set::empty(),
        saved_position: None,
        saved_lines: None,
        saved_ranges: None,
        saved_generation: None,
        list_idx: 0,
        goto_input: Seq::empty(),
        search: None,
        ai_jobs: Seq::empty(),
        ai_next_id: 1,
        show_ai_pane: false,
        ai_selected: 0,
    }
}

impl App {
    /// The application before a diff is loaded. `env_theme` is the theme that
    /// the environment names.
    pub fn new(
        repo_id: i64,
        files: Vec<DiffFile>,
        config: Config,
        diff_mode: DiffMode,
        diff_paths: Vec<String>,
        env_theme: Option<String>,
    ) -> (r: App)
        ensures
            r@ == initial(
                repo_id,
                file_views(files@),
                config,
                diff_mode@,
                texts(diff_paths@),
                r@.highlighter,
            ),
            r@.wf(),
            r@.highlighter.theme == (match (opt_text(config.syntax_theme), opt_text(
                env_theme,
            )) {
                (Some(name), _) => name,
                (None, Some(name)) => name,
                (None, None) => "Monokai Extended"@,
            }),
    {
        reveal(App::model);
        let highlighter = match &config.syntax_theme {
            Some(name) => SyntaxHighlighter::new(Some(name.as_str()), env_theme),
            None => SyntaxHighlighter::new(None, env_theme),
        };
        let show_annotations = config.show_annotations;
        let screen = Screen {
            display_lines: Vec::new(),
            file_line_ranges: Vec::new(),
            current_line_idx: 0,
            scroll_offset: 0,
            visible_height: 20,
            content_width: 80,
            side_by_side: config.side_by_side,
            collapsed_files: NameSet::new(),
            sidebar_open: false,
            sidebar_focused: false,
            sidebar_index: 0,
            sidebar_scroll: 0,
            selection_active: false,
            selection_start: None,
            selection_file_idx: None,
            selection_hunk_idx: None,
        };
        let r = App {
            repo_id,
            config,
            diff_mode,
            diff_paths,
            files,
            diff_file_index: NameMap::new(),
            screen,
            all_annotations: Vec::new(),
            highlighter,
            highlights: Highlights::new(),
            diff_generation: 0,
            diff_loading: false,
            diff_target: None,
            diff_pending_reset: false,
            cached_unstaged: None,
            cached_staged: None,
            pending_stream_files: Vec::new(),
            fs_pending: false,
            mode: Mode::Normal,
            annotation_input: new_editor(),
            annotation_type: AnnotationType::Comment,
            annotation_range: None,
            annotation_side: None,
            message: None,
            show_help: false,
            help_scroll: 0,
            help_visible_height: 0,
            show_annotations,
            show_old_in_expanded: true,
            expanded_file: None,
            collapsed_files_unstaged: NameSet::new(),
            collapsed_files_staged: NameSet::new(),
            collapsed_files_other: NameSet::new(),
            pre_expand_position: None,
            pre_expand_display_lines: None,
            pre_expand_file_line_ranges: None,
            pre_expand_diff_generation: None,
            annotation_list_idx: 0,
            goto_line_input: String::new(),
            search: None,
            ai_jobs: Vec::new(),
            ai_next_id: 1,
            show_ai_pane: false,
            ai_selected_idx: 0,
        };
        proof {
            let v = initial(
                repo_id,
                file_views(files@),
                config,
                diff_mode@,
                texts(diff_paths@),
                r@.highlighter,
            );
            assert(r@.highlights =~= v.highlights);
            assert(r@.screen =~= v.screen);
            assert(r@.goto_input =~= v.goto_input);
            assert(r@ =~= v);
            reveal(tiled);
        }
        r
    }

    /// How many files the diff has.
    pub fn file_count(&self) -> (r: usize)
        ensures
            r == self@.files.len(),
    {
        reveal(App::model);
        self.files.len()
    }

    /// The file that is expanded.
    pub fn expanded(&self) -> (r: Option<usize>)
        ensures
            opt_idx(r) == self@.expanded,
    {
        reveal(App::model);
        self.expanded_file
    }

    /// Sets the message.
    pub fn say(&mut self, message: &str)
        ensures
            final(self)@ == old(self)@.saying(message@),
    {
        reveal(App::model);
        self.message = Some(message.to_owned());
        assert(self@ =~= old(self)@.saying(message@));
    }
}

} // verus!
