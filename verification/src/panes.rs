//! What is shown around the diff: the sticky header, the status line, the
//! sidebar, the list of annotations and the AI pane.
use vstd::prelude::*;

use crate::diff::{file_views, DiffMode, DiffModeV, FileStatus, LineKind};
use crate::display::{opt_idx, DisplayLineV};
use crate::keys::{render_input_with_cursor, text_with_cursor};
use crate::list::{entry_views, AnnotationListEntry, EntryV};
use crate::number::{
    dec, decimal, digits_value, i64_value, law_digits, law_number_round_trip, signed_dec,
    signed_decimal, u32_value, wide_decimal,
};
use crate::palette::Palette;
use crate::render::{hunks_count, ink, inked};
use crate::screen::{
    greater, is_header, last_index, lemma_header_above, less_one, lesser, max_usize, min_usize,
    minus, sub_usize, Screen, ScreenV,
};
use crate::spans::{capped_sum, text_rows, wrapped_line_count};
use crate::state::{ai_views, AiJob, AiJobV, AiStatus, App, AppV, Mode, SearchV};
use crate::storage::{stored_side, stored_type, AnnotationType, Side};
use crate::style::{row_views, span, span_views, Span, SpanV};
use crate::text::{
    byte_len, byte_length, chars_beyond, chars_within, cut_to_bytes, lines, lines_of,
    replace_char, replaced, tail_of_bytes, texts,
};

verus! {

// ---------------------------------------------------------------------------
// The sticky header
// ---------------------------------------------------------------------------
impl AppV {
    /// The header of the current file, unless it is in view.
    #[verifier::opaque]
    pub open spec fn sticky_header(self, p: Palette) -> Option<SpanV> {
        let header = self.screen.header_above(self.screen.cursor);
        let in_view = header matches Some(i) && self.screen.scroll <= i < self.screen.scroll
            + self.screen.visible_height;
        if in_view {
            None
        } else {
            let (path, file_idx) = match self.screen.current_file() {
                Some(info) => info,
                None => ("<none>"@, 0),
            };
            let hunks = if 0 <= file_idx < self.files.len() {
                self.files[file_idx].hunks
            } else {
                Seq::empty()
            };
            let style = if self.expanded is Some {
                inked(p.expanded_fg).with_bg(p.expanded_bg).with_bold()
            } else if header matches Some(i) && self.is_current_match(i) {
                inked(p.header_match_fg).with_bg(p.header_match_bg).with_bold()
            } else if self.is_file_match(file_idx) {
                inked(p.header_dim_fg).with_bg(p.header_dim_bg).with_bold()
            } else {
                inked(p.header_fg).with_bg(p.header_bg).with_bold()
            };
            Some(
                span(
                    " Δ "@ + path + "  [+"@ + dec(hunks_count(hunks, LineKind::Addition)) + " -"@
                        + dec(hunks_count(hunks, LineKind::Deletion)) + "]  ("@ + dec(
                        (file_idx + 1) as nat,
                    ) + "/"@ + dec(self.files.len()) + ")"@ + (if self.expanded is Some {
                        " [FULL FILE - x to collapse]"@
                    } else {
                        ""@
                    }) + (if self.screen.collapsed.contains(path) {
                        " ▶"@
                    } else {
                        ""@
                    }),
                    style,
                ),
            )
        }
    }
}

/// What the sticky header shows.
struct HeaderState {
    in_view: bool,
    header: Option<usize>,
    path: String,
    file_idx: usize,
    collapsed: bool,
    expanded: bool,
    files: usize,
}

impl App {
    fn header_state(&self) -> (r: HeaderState)
        ensures
            opt_idx(r.header) == self@.screen.header_above(self@.screen.cursor),
            r.in_view == (self@.screen.header_above(self@.screen.cursor) matches Some(i)
                && self@.screen.scroll <= i < self@.screen.scroll + self@.screen.visible_height),
            (r.path@, r.file_idx as int) == (match self@.screen.current_file() {
                Some(info) => info,
                None => ("<none>"@, 0),
            }),
            r.collapsed == self@.screen.collapsed.contains(r.path@),
            r.expanded == (self@.expanded is Some),
            r.files == self@.files.len(),
    {
        reveal(App::model);
        let header = self.screen.header_above(self.screen.current_line_idx);
        let in_view = match header {
            Some(i) => self.screen.scroll_offset <= i && i - self.screen.scroll_offset
                < self.screen.visible_height,
            None => false,
        };
        let (path, file_idx) = match self.screen.current_file_info() {
            Some(info) => info,
            None => ("<none>".to_owned(), 0),
        };
        let collapsed = self.screen.collapsed_files.contains(path.as_str());
        HeaderState {
            in_view,
            header,
            path,
            file_idx,
            collapsed,
            expanded: self.expanded_file.is_some(),
            files: self.files.len(),
        }
    }

    /// The header of the current file, unless it is in view.
    pub fn render_sticky_file_header(&self, p: &Palette) -> (r: Option<Span>)
        ensures
            match r {
                Some(s) => self@.sticky_header(*p) == Some(s@),
                None => self@.sticky_header(*p) is None,
            },
    {
        reveal(AppV::sticky_header);
        let h = self.header_state();
        if h.in_view {
            return None;
        }
        let (adds, dels) = self.file_stats(h.file_idx);
        let at_match = match h.header {
            Some(i) => self.is_current_search_match(i),
            None => false,
        };
        let style = if h.expanded {
            ink(p.expanded_fg).bg(p.expanded_bg).bold()
        } else if at_match {
            ink(p.header_match_fg).bg(p.header_match_bg).bold()
        } else if self.is_file_search_match(h.file_idx) {
            ink(p.header_dim_fg).bg(p.header_dim_bg).bold()
        } else {
            ink(p.header_fg).bg(p.header_bg).bold()
        };
        let mut text = " Δ ".to_owned();
        text.push_str(h.path.as_str());
        text.push_str("  [+");
        text.push_str(wide_decimal(adds).as_str());
        text.push_str(" -");
        text.push_str(wide_decimal(dels).as_str());
        text.push_str("]  (");
        text.push_str(wide_decimal(h.file_idx as u128 + 1).as_str());
        text.push_str("/");
        text.push_str(decimal(h.files as u64).as_str());
        text.push_str(")");
        text.push_str(
            if h.expanded {
                " [FULL FILE - x to collapse]"
            } else {
                ""
            },
        );
        text.push_str(
            if h.collapsed {
                " ▶"
            } else {
                ""
            },
        );
        Some(Span::new(text, style))
    }
}

// ---------------------------------------------------------------------------
// The status line
// ---------------------------------------------------------------------------
/// How many jobs are running.
pub open spec fn running(jobs: Seq<AiJobV>) -> nat
    decreases jobs.len(),
{
    if jobs.len() == 0 {
        0
    } else {
        running(jobs.drop_last()) + (if jobs.last().status == AiStatus::Running {
            1nat
        } else {
            0nat
        })
    }
}

/// What the status line shows.
#[derive(Debug)]
pub enum Status {
    /// A line of text.
    Line(Span),
    /// The text input, with a title.
    Input { title: String, text: String },
}

/// The value of a [`Status`].
pub enum StatusV {
    Line(SpanV),
    Input { title: Seq<char>, text: Seq<char> },
}

impl View for Status {
    type V = StatusV;

    open spec fn view(&self) -> StatusV {
        match self {
            Status::Line(s) => StatusV::Line(s@),
            Status::Input { title, text } => StatusV::Input { title: title@, text: text@ },
        }
    }
}

impl AppV {
    /// The status line while the diff has the focus.
    pub open spec fn normal_status(self) -> Seq<char> {
        (match self.diff_mode {
            DiffModeV::Unstaged => "[unstaged] "@,
            DiffModeV::Staged => "[staged] "@,
            _ => ""@,
        }) + (match self.message {
            Some(m) => m,
            None =>
                " j/k:nav  n/N:chunk  c:collapse  B:sidebar  a:add  e:edit  r:resolve  ?:help"@,
        }) + (if running(self.ai_jobs) > 0 {
            "  AI: running ("@ + dec(running(self.ai_jobs)) + ")"@
        } else {
            ""@
        }) + (if self.loading {
            "  Loading… ("@ + dec(self.files.len()) + ")"@
        } else {
            ""@
        })
    }

    /// What is said of the matches while a query is typed.
    pub open spec fn match_info(self) -> Seq<char> {
        match self.search {
            Some(s) => if s.matches.len() == 0 {
                if s.query.len() == 0 {
                    ""@
                } else {
                    " (no matches)"@
                }
            } else {
                " ("@ + dec(s.matches.len()) + " match"@ + (if s.matches.len() == 1 {
                    ""@
                } else {
                    "es"@
                }) + ")"@
            },
            None => ""@,
        }
    }

    /// The status line while a query is typed.
    pub open spec fn search_status(self) -> Seq<char> {
        " Search "@ + (if self.mode == Mode::SearchFile {
            "file"@
        } else {
            "content"@
        }) + ": "@ + (match self.search {
            Some(s) => s.query,
            None => ""@,
        }) + "_"@ + self.match_info() + "  (Enter: confirm, Esc: cancel)"@
    }

    /// The title of the text input.
    pub open spec fn input_title(self) -> Seq<char> {
        (if self.mode == Mode::AddAnnotation {
            " Add "@
        } else {
            " Edit "@
        }) + stored_type(self.annotation_type)
            + " (^J: newline, Ctrl+T: type, Enter: save, Esc: cancel) "@
    }

    /// The status line.
    #[verifier::opaque]
    pub open spec fn status(self, p: Palette) -> StatusV {
        match self.mode {
            Mode::Normal => StatusV::Line(
                span(self.normal_status(), inked(p.status_fg).with_bg(p.status_bg)),
            ),
            Mode::AddAnnotation | Mode::EditAnnotation(_) => StatusV::Input {
                title: self.input_title(),
                text: text_with_cursor(self.input),
            },
            Mode::SearchFile | Mode::SearchContent => StatusV::Line(
                span(self.search_status(), inked(p.search_fg).with_bg(p.search_bg)),
            ),
            Mode::GotoLine => StatusV::Line(
                span(
                    " Go to line: "@ + self.goto_input + "_  (Enter: go, Esc: cancel)"@,
                    inked(p.search_fg).with_bg(p.search_bg),
                ),
            ),
            Mode::AnnotationList => StatusV::Line(
                span(
                    " Annotations: j/k, Enter: jump, e: edit, d: delete, Esc: close"@,
                    inked(p.status_fg).with_bg(p.status_bg),
                ),
            ),
        }
    }

    /// How many rows the status line takes on a screen of some width.
    #[verifier::opaque]
    pub open spec fn status_height(self, width: int) -> int {
        if self.mode == Mode::Normal {
            1
        } else {
            lesser(text_rows(text_with_cursor(self.input), greater(minus(width, 2), 1)) + 2, 10)
        }
    }
}

fn count_running(jobs: &[AiJob]) -> (n: usize)
    ensures
        n == running(ai_views(jobs@)),
{
    let ghost jv = ai_views(jobs@);
    let mut n: usize = 0;
    let mut i: usize = 0;
    assert(jv.take(0) =~= Seq::empty());
    while i < jobs.len()
        invariant
            i <= jobs@.len(),
            jv == ai_views(jobs@),
            n <= i,
            n == running(jv.take(i as int)),
        decreases jobs@.len() - i,
    {
        proof {
            assert(jv.take(i + 1).drop_last() =~= jv.take(i as int));
            assert(jv.take(i + 1).last() == jobs@[i as int]@);
        }
        if jobs[i].status == AiStatus::Running {
            n = n + 1;
        }
        i = i + 1;
    }
    assert(jv.take(i as int) =~= jv);
    n
}

impl App {
    fn normal_status(&self) -> (s: String)
        ensures
            s@ == self@.normal_status(),
    {
        reveal(App::model);
        let mut s = match &self.diff_mode {
            DiffMode::Unstaged => "[unstaged] ".to_owned(),
            DiffMode::Staged => "[staged] ".to_owned(),
            _ => "".to_owned(),
        };
        match &self.message {
            Some(m) => s.push_str(m.as_str()),
            None => s.push_str(
                " j/k:nav  n/N:chunk  c:collapse  B:sidebar  a:add  e:edit  r:resolve  ?:help",
            ),
        }
        let n = count_running(&self.ai_jobs);
        let mut ai = "".to_owned();
        if n > 0 {
            ai = "  AI: running (".to_owned();
            ai.push_str(decimal(n as u64).as_str());
            ai.push_str(")");
        }
        s.push_str(ai.as_str());
        let mut loading = "".to_owned();
        if self.diff_loading {
            assert(self@.files.len() == self.files@.len());
            loading = "  Loading… (".to_owned();
            loading.push_str(decimal(self.files.len() as u64).as_str());
            loading.push_str(")");
        }
        s.push_str(loading.as_str());
        s
    }

    fn match_info(&self) -> (s: String)
        ensures
            s@ == self@.match_info(),
    {
        reveal(App::model);
        match &self.search {
            Some(search) => {
                let n = search.matches.len();
                if n == 0 {
                    if search.query.as_str().is_empty() {
                        "".to_owned()
                    } else {
                        " (no matches)".to_owned()
                    }
                } else {
                    let mut s = " (".to_owned();
                    s.push_str(decimal(n as u64).as_str());
                    s.push_str(" match");
                    s.push_str(
                        if n == 1 {
                            ""
                        } else {
                            "es"
                        },
                    );
                    s.push_str(")");
                    s
                }
            },
            None => "".to_owned(),
        }
    }

    fn search_status(&self) -> (s: String)
        ensures
            s@ == self@.search_status(),
    {
        reveal(App::model);
        let mut s = " Search ".to_owned();
        s.push_str(
            if self.mode == Mode::SearchFile {
                "file"
            } else {
                "content"
            },
        );
        s.push_str(": ");
        match &self.search {
            Some(search) => s.push_str(search.query.as_str()),
            None => s.push_str(""),
        }
        s.push_str("_");
        s.push_str(self.match_info().as_str());
        s.push_str("  (Enter: confirm, Esc: cancel)");
        s
    }

    fn input_title(&self) -> (s: String)
        ensures
            s@ == self@.input_title(),
    {
        reveal(App::model);
        let mut s = if self.mode == Mode::AddAnnotation {
            " Add ".to_owned()
        } else {
            " Edit ".to_owned()
        };
        s.push_str(self.annotation_type.as_str());
        s.push_str(" (^J: newline, Ctrl+T: type, Enter: save, Esc: cancel) ");
        s
    }

    /// The text input with its cursor.
    pub fn shown_input(&self) -> (s: String)
        ensures
            s@ == text_with_cursor(self@.input),
    {
        reveal(App::model);
        render_input_with_cursor(&self.annotation_input)
    }

    fn goto_status(&self) -> (s: String)
        ensures
            s@ == " Go to line: "@ + self@.goto_input + "_  (Enter: go, Esc: cancel)"@,
    {
        reveal(App::model);
        let mut s = " Go to line: ".to_owned();
        s.push_str(self.goto_line_input.as_str());
        s.push_str("_  (Enter: go, Esc: cancel)");
        s
    }

    /// The status line.
    pub fn render_status(&self, p: &Palette) -> (r: Status)
        ensures
            r@ == self@.status(*p),
    {
        reveal(AppV::status);
        match self.current_mode() {
            Mode::Normal => Status::Line(
                Span::new(self.normal_status(), ink(p.status_fg).bg(p.status_bg)),
            ),
            Mode::AddAnnotation | Mode::EditAnnotation(_) => Status::Input {
                title: self.input_title(),
                text: self.shown_input(),
            },
            Mode::SearchFile | Mode::SearchContent => Status::Line(
                Span::new(self.search_status(), ink(p.search_fg).bg(p.search_bg)),
            ),
            Mode::GotoLine => Status::Line(
                Span::new(self.goto_status(), ink(p.search_fg).bg(p.search_bg)),
            ),
            Mode::AnnotationList => Status::Line(
                Span::of(
                    " Annotations: j/k, Enter: jump, e: edit, d: delete, Esc: close",
                    ink(p.status_fg).bg(p.status_bg),
                ),
            ),
        }
    }

    /// How many rows the status line takes on a screen of some width.
    pub fn status_height(&self, width: usize) -> (r: usize)
        ensures
            r == self@.status_height(width as int),
            1 <= r <= 10,
    {
        reveal(AppV::status_height);
        if self.current_mode() == Mode::Normal {
            return 1;
        }
        let inner = max_usize(sub_usize(width, 2), 1);
        let rows = wrapped_line_count(self.shown_input().as_str(), inner);
        min_usize(capped_sum(rows, 2), 10)
    }
}

// ---------------------------------------------------------------------------
// The sidebar
// ---------------------------------------------------------------------------
/// A file in the sidebar.
#[derive(Debug)]
pub struct SidebarEntry {
    pub file_idx: usize,
    pub path: String,
    pub status: FileStatus,
}

impl ScreenV {
    /// With the sidebar scrolled to the selected file.
    #[verifier::opaque]
    pub open spec fn sidebar_fitted(self, files: int, height: int) -> ScreenV {
        if files == 0 {
            self
        } else {
            let index = lesser(self.sidebar_index, files - 1);
            ScreenV {
                sidebar_index: index,
                sidebar_scroll: if index < self.sidebar_scroll {
                    index
                } else if index >= self.sidebar_scroll + height {
                    minus(index, less_one(height))
                } else {
                    self.sidebar_scroll
                },
                ..self
            }
        }
    }
}

/// The letter of a file's status.
pub open spec fn status_letter(status: FileStatus) -> Seq<char> {
    match status {
        FileStatus::Added => " A "@,
        FileStatus::Deleted => " D "@,
        FileStatus::Renamed => " R "@,
        FileStatus::Modified => " M "@,
    }
}

/// A file in the sidebar as a row.
pub open spec fn sidebar_row(app: AppV, i: int, p: Palette) -> Seq<SpanV> {
    let file = app.files[i];
    let ground = inked(p.status_fg);
    let marked = if i == app.screen.sidebar_index {
        ground.with_bg(
            if app.screen.sidebar_focused {
                p.current_line_bg
            } else {
                p.selection_bg
            },
        )
    } else {
        ground
    };
    seq![
        span(
            status_letter(file.status),
            inked(
                match file.status {
                    FileStatus::Added => p.added_fg,
                    FileStatus::Deleted => p.deleted_fg,
                    FileStatus::Renamed => p.hunk_fg,
                    FileStatus::Modified => p.header_fg,
                },
            ),
        ),
        span(
            file.path(),
            if app.screen.sidebar_focused {
                marked
            } else {
                marked.with_dim()
            },
        ),
    ]
}

impl AppV {
    /// The rows of the sidebar from the one that it is scrolled to.
    pub open spec fn sidebar_rows(self, height: int, p: Palette) -> Seq<Seq<SpanV>> {
        let from = self.screen.sidebar_scroll;
        let end = lesser(from + height, self.files.len() as int);
        Seq::new(
            if from <= end {
                (end - from) as nat
            } else {
                0
            },
            |k: int| sidebar_row(self, from + k, p),
        )
    }
}

impl Screen {
    fn fit_sidebar(&mut self, files: usize, height: usize)
        ensures
            final(self)@ == old(self)@.sidebar_fitted(files as int, height as int),
            final(self)@.same_display(old(self)@),
    {
        reveal(ScreenV::sidebar_fitted);
        let ghost s0 = self@;
        if files == 0 {
            return ;
        }
        if self.sidebar_index >= files {
            self.sidebar_index = files - 1;
        }
        if self.sidebar_index < self.sidebar_scroll {
            self.sidebar_scroll = self.sidebar_index;
        } else if self.sidebar_index - self.sidebar_scroll >= height {
            self.sidebar_scroll = sub_usize(self.sidebar_index, last_index(height));
        }
        assert(self@ =~= s0.sidebar_fitted(files as int, height as int));
    }
}

impl App {
    /// The files in the sidebar.
    pub fn sidebar_entries(&self) -> (v: Vec<SidebarEntry>)
        ensures
            v@.len() == self@.files.len(),
            forall|i: int|
                0 <= i < v@.len() ==> (#[trigger] v@[i]).file_idx == i && v@[i].path@
                    == self@.files[i].path() && v@[i].status == self@.files[i].status,
    {
        reveal(App::model);
        assert(self@.files.len() == self.files@.len());
        let mut v: Vec<SidebarEntry> = Vec::new();
        let mut i: usize = 0;
        while i < self.files.len()
            invariant
                i <= self.files@.len(),
                v@.len() == i,
                self@.files == file_views(self.files@),
                forall|k: int|
                    0 <= k < i ==> (#[trigger] v@[k]).file_idx == k && v@[k].path@
                        == self@.files[k].path() && v@[k].status == self@.files[k].status,
            decreases self.files@.len() - i,
        {
            let file = &self.files[i];
            assert(self@.files[i as int] == file@);
            v.push(SidebarEntry { file_idx: i, path: file.path(), status: file.status });
            i = i + 1;
        }
        v
    }

    fn row_of_entry(&self, e: &SidebarEntry, selected: bool, focused: bool, p: &Palette) -> (v: Vec<
        Span,
    >)
        requires
            e.file_idx < self@.files.len(),
            e.path@ == self@.files[e.file_idx as int].path(),
            e.status == self@.files[e.file_idx as int].status,
            selected == (e.file_idx == self@.screen.sidebar_index),
            focused == self@.screen.sidebar_focused,
        ensures
            span_views(v@) == sidebar_row(self@, e.file_idx as int, *p),
    {
        let (letter, color) = match e.status {
            FileStatus::Added => (" A ", p.added_fg),
            FileStatus::Deleted => (" D ", p.deleted_fg),
            FileStatus::Renamed => (" R ", p.hunk_fg),
            FileStatus::Modified => (" M ", p.header_fg),
        };
        let mut style = ink(p.status_fg);
        if selected {
            style = style.bg(
                if focused {
                    p.current_line_bg
                } else {
                    p.selection_bg
                },
            );
        }
        if !focused {
            style = style.dim();
        }
        let mut v: Vec<Span> = Vec::new();
        v.push(Span::of(letter, ink(color)));
        v.push(Span::of(e.path.as_str(), style));
        assert(span_views(v@) =~= sidebar_row(self@, e.file_idx as int, *p));
        v
    }

    fn sidebar_position(&self) -> (r: (usize, usize, bool))
        ensures
            r.0 == self@.screen.sidebar_index,
            r.1 == self@.screen.sidebar_scroll,
            r.2 == self@.screen.sidebar_focused,
    {
        reveal(App::model);
        (self.screen.sidebar_index, self.screen.sidebar_scroll, self.screen.sidebar_focused)
    }

    fn fit_sidebar(&mut self, height: usize)
        requires
            old(self)@.wf(),
        ensures
            final(self)@ == old(self)@.on(
                old(self)@.screen.sidebar_fitted(old(self)@.files.len() as int, height as int),
            ),
            final(self)@.wf(),
    {
        reveal(App::model);
        let ghost s0 = self@;
        let files = self.files.len();
        assert(s0.files.len() == files);
        self.screen.fit_sidebar(files, height);
        assert(self@ == s0.on(self@.screen));
    }

    fn sidebar_list(&self, height: usize, p: &Palette) -> (v: Vec<Vec<Span>>)
        ensures
            row_views(v@) == self@.sidebar_rows(height as int, *p),
    {
        let entries = self.sidebar_entries();
        let (index, from, focused) = self.sidebar_position();
        let end = min_usize(capped_sum(from, height), entries.len());
        let mut v: Vec<Vec<Span>> = Vec::new();
        let mut i = from;
        while i < end
            invariant
                from <= i,
                i <= end || i == from,
                end <= entries@.len(),
                entries@.len() == self@.files.len(),
                index == self@.screen.sidebar_index,
                focused == self@.screen.sidebar_focused,
                forall|k: int|
                    0 <= k < entries@.len() ==> (#[trigger] entries@[k]).file_idx == k
                        && entries@[k].path@ == self@.files[k].path() && entries@[k].status
                        == self@.files[k].status,
                v@.len() == i - from,
                forall|k: int|
                    0 <= k < v@.len() ==> span_views((#[trigger] v@[k])@) == sidebar_row(
                        self@,
                        from + k,
                        *p,
                    ),
            decreases end - i,
        {
            let e = &entries[i];
            assert(entries@[i as int].file_idx == i);
            v.push(self.row_of_entry(e, i == index, focused, p));
            i = i + 1;
        }
        assert(row_views(v@) =~= self@.sidebar_rows(height as int, *p));
        v
    }

    /// Scrolls the sidebar to the selected file and gives its rows.
    pub fn render_sidebar(&mut self, height: usize, p: &Palette) -> (v: Vec<Vec<Span>>)
        requires
            old(self)@.wf(),
        ensures
            final(self)@ == old(self)@.on(
                old(self)@.screen.sidebar_fitted(old(self)@.files.len() as int, height as int),
            ),
            final(self)@.wf(),
            row_views(v@) == final(self)@.sidebar_rows(height as int, *p),
    {
        self.fit_sidebar(height);
        self.sidebar_list(height, p)
    }
}

/// The selected file is among the rows of the sidebar.
pub proof fn law_sidebar_in_view(s: ScreenV, files: int, height: int)
    requires
        files > 0,
        height > 0,
        s.sidebar_index >= 0,
        s.sidebar_scroll >= 0,
    ensures
        ({
            let t = s.sidebar_fitted(files, height);
            &&& t.sidebar_index < files
            &&& t.sidebar_scroll <= t.sidebar_index < t.sidebar_scroll + height
        }),
{
    reveal(ScreenV::sidebar_fitted);
}

// ---------------------------------------------------------------------------
// The list of annotations
// ---------------------------------------------------------------------------
/// The content of an annotation in one line, cut where it is long.
pub open spec fn summary(content: Seq<char>) -> Seq<char> {
    let flat = replaced(content, '\n', ' ');
    if byte_len(flat) > 60 {
        flat.take(chars_within(flat, 57)) + "..."@
    } else {
        flat
    }
}

/// The text of an entry of the list.
pub open spec fn entry_label(e: EntryV) -> Seq<char> {
    (match e.annotation_type {
        AnnotationType::Comment => "💬"@,
        AnnotationType::Todo => "📌"@,
    }) + " "@ + e.file_path + ":"@ + dec(e.line as nat) + " ["@ + stored_side(e.side) + "] "@
        + summary(e.content) + (if e.resolved {
        "  (resolved)"@
    } else if e.orphaned {
        "  (orphaned)"@
    } else {
        ""@
    })
}

/// An entry of the list as a row.
pub open spec fn entry_row(e: EntryV, selected: bool, p: Palette) -> Seq<SpanV> {
    let style = if e.resolved {
        inked(p.line_num)
    } else if e.orphaned {
        inked(p.deleted_fg)
    } else {
        inked(p.help_fg)
    };
    seq![
        span(
            entry_label(e),
            if selected {
                style.with_bg(p.header_focus_bg).with_bold()
            } else {
                style
            },
        ),
    ]
}

impl AppV {
    /// The rows of the list, with the selected one in the middle of the height
    /// where there is room.
    pub open spec fn list_rows(self, height: int, p: Palette) -> Seq<Seq<SpanV>> {
        let from = minus(self.list_idx, height / 2);
        let end = lesser(from + height, self.entries().len() as int);
        Seq::new(
            if from <= end {
                (end - from) as nat
            } else {
                0
            },
            |k: int| entry_row(self.entries()[from + k], from + k == self.list_idx, p),
        )
    }
}

/// The content of an annotation in one line, cut where it is long.
pub fn summary_text(content: &str) -> (s: String)
    ensures
        s@ == summary(content@),
{
    let flat = replace_char(content, '\n', ' ');
    if byte_length(flat.as_str()) > 60 {
        let mut s = cut_to_bytes(flat.as_str(), 57);
        s.push_str("...");
        s
    } else {
        flat
    }
}

fn label_of_entry(e: &AnnotationListEntry) -> (s: String)
    ensures
        s@ == entry_label(e@),
{
    let mut s = match e.annotation_type {
        AnnotationType::Comment => "💬".to_owned(),
        AnnotationType::Todo => "📌".to_owned(),
    };
    s.push_str(" ");
    s.push_str(e.file_path.as_str());
    s.push_str(":");
    s.push_str(decimal(e.line as u64).as_str());
    s.push_str(" [");
    s.push_str(e.side.as_str());
    s.push_str("] ");
    s.push_str(summary_text(e.content.as_str()).as_str());
    s.push_str(
        if e.resolved {
            "  (resolved)"
        } else if e.orphaned {
            "  (orphaned)"
        } else {
            ""
        },
    );
    s
}

fn row_of_list_entry(e: &AnnotationListEntry, selected: bool, p: &Palette) -> (v: Vec<Span>)
    ensures
        span_views(v@) == entry_row(e@, selected, *p),
{
    let mut style = if e.resolved {
        ink(p.line_num)
    } else if e.orphaned {
        ink(p.deleted_fg)
    } else {
        ink(p.help_fg)
    };
    if selected {
        style = style.bg(p.header_focus_bg).bold();
    }
    let mut v: Vec<Span> = Vec::new();
    v.push(Span::new(label_of_entry(e), style));
    assert(span_views(v@) =~= entry_row(e@, selected, *p));
    v
}

impl App {
    /// The rows of the list of annotations.
    pub fn render_annotation_list(&self, height: usize, p: &Palette) -> (v: Vec<Vec<Span>>)
        ensures
            row_views(v@) == self@.list_rows(height as int, *p),
    {
        let entries = self.annotation_list_entries();
        let ghost ev = entry_views(entries@);
        assert(ev.len() == entries@.len());
        let idx = self.selected_entry();
        let from = sub_usize(idx, height / 2);
        let end = min_usize(capped_sum(from, height), entries.len());
        let mut v: Vec<Vec<Span>> = Vec::new();
        let mut i = from;
        while i < end
            invariant
                from <= i,
                i <= end || i == from,
                end <= entries@.len(),
                ev == entry_views(entries@),
                v@.len() == i - from,
                forall|k: int|
                    0 <= k < v@.len() ==> span_views((#[trigger] v@[k])@) == entry_row(
                        ev[from + k],
                        from + k == idx,
                        *p,
                    ),
            decreases end - i,
        {
            assert(ev[i as int] == entries@[i as int]@);
            v.push(row_of_list_entry(&entries[i], i == idx, p));
            i = i + 1;
        }
        assert(row_views(v@) =~= self@.list_rows(height as int, *p));
        v
    }

    fn selected_entry(&self) -> (r: usize)
        ensures
            r == self@.list_idx,
    {
        reveal(App::model);
        self.annotation_list_idx
    }
}

// ---------------------------------------------------------------------------
// The AI pane
// ---------------------------------------------------------------------------
/// The tab of a job.
pub open spec fn job_tab(job: AiJobV, selected: bool, p: Palette) -> SpanV {
    span(
        " "@ + (match job.status {
            AiStatus::Running => "…"@,
            AiStatus::Done { ok } => if ok {
                "✓"@
            } else {
                "!"@
            },
        }) + "#"@ + signed_dec(job.annotation_id as int) + (match job.annotation_type {
            AnnotationType::Todo => "T"@,
            AnnotationType::Comment => "C"@,
        }) + " "@,
        if selected {
            inked(p.header_match_fg).with_bg(p.header_match_bg).with_bold()
        } else {
            inked(p.help_fg)
        },
    )
}

/// The title of a job.
pub open spec fn job_title(job: AiJobV) -> Seq<char> {
    "["@ + (match job.status {
        AiStatus::Running => "running"@,
        AiStatus::Done { ok } => if ok {
            "done"@
        } else {
            "error"@
        },
    }) + "] #"@ + signed_dec(job.annotation_id as int) + " "@ + job.file_path + ":"@ + dec(
        job.line as nat,
    ) + " ("@ + stored_type(job.annotation_type) + ")"@
}

/// The end of a job's output.
pub open spec fn output_tail(output: Seq<char>) -> Seq<char> {
    let flat = replaced(output, '\t', ' ');
    if byte_len(flat) > 2000 {
        "..."@ + flat.skip(chars_beyond(flat, 2000))
    } else {
        flat
    }
}

/// The last lines of a job's output.
pub open spec fn output_lines(output: Seq<char>) -> Seq<Seq<char>> {
    let all = lines_of(output_tail(output));
    all.skip(minus(all.len() as int, 20))
}

impl AppV {
    /// The job that is shown.
    pub open spec fn shown_job(self) -> int {
        lesser(self.ai_selected, less_one(self.ai_jobs.len() as int))
    }

    /// The rows of the AI pane: the tabs of all jobs, and the end of the output
    /// of the selected one.
    #[verifier::opaque]
    pub open spec fn ai_rows(self, p: Palette) -> Seq<Seq<SpanV>> {
        if self.ai_jobs.len() == 0 {
            seq![seq![span("No AI activity"@, inked(p.help_fg))]]
        } else {
            let job = self.ai_jobs[self.shown_job()];
            let out = output_lines(job.output);
            seq![
                Seq::new(
                    self.ai_jobs.len(),
                    |i: int| job_tab(self.ai_jobs[i], i == self.ai_selected, p),
                ),
                Seq::<SpanV>::empty(),
                seq![span(job_title(job), inked(p.header_fg).with_bold())],
            ] + Seq::new(out.len(), |i: int| seq![span(out[i], inked(p.help_fg))])
        }
    }
}

fn span_of_tab(job: &AiJob, selected: bool, p: &Palette) -> (r: Span)
    ensures
        r@ == job_tab(job@, selected, *p),
{
    let mut s = " ".to_owned();
    s.push_str(
        match job.status {
            AiStatus::Running => "…",
            AiStatus::Done { ok } => if ok {
                "✓"
            } else {
                "!"
            },
        },
    );
    s.push_str("#");
    s.push_str(signed_decimal(job.annotation_id).as_str());
    s.push_str(
        match job.annotation_type {
            AnnotationType::Todo => "T",
            AnnotationType::Comment => "C",
        },
    );
    s.push_str(" ");
    Span::new(
        s,
        if selected {
            ink(p.header_match_fg).bg(p.header_match_bg).bold()
        } else {
            ink(p.help_fg)
        },
    )
}

fn title_of_job(job: &AiJob) -> (s: String)
    ensures
        s@ == job_title(job@),
{
    let mut s = "[".to_owned();
    s.push_str(
        match job.status {
            AiStatus::Running => "running",
            AiStatus::Done { ok } => if ok {
                "done"
            } else {
                "error"
            },
        },
    );
    s.push_str("] #");
    s.push_str(signed_decimal(job.annotation_id).as_str());
    s.push_str(" ");
    s.push_str(job.file_path.as_str());
    s.push_str(":");
    s.push_str(decimal(job.line as u64).as_str());
    s.push_str(" (");
    s.push_str(job.annotation_type.as_str());
    s.push_str(")");
    s
}

/// The end of a job's output.
pub fn output_tail_text(output: &str) -> (s: String)
    ensures
        s@ == output_tail(output@),
{
    let flat = replace_char(output, '\t', ' ');
    if byte_length(flat.as_str()) > 2000 {
        let mut s = "...".to_owned();
        s.push_str(tail_of_bytes(flat.as_str(), 2000).as_str());
        s
    } else {
        flat
    }
}

fn tabs_of(jobs: &[AiJob], selected: usize, p: &Palette) -> (v: Vec<Span>)
    ensures
        span_views(v@) == Seq::new(
            jobs@.len(),
            |i: int| job_tab(ai_views(jobs@)[i], i == selected, *p),
        ),
{
    let ghost jv = ai_views(jobs@);
    let mut v: Vec<Span> = Vec::new();
    let mut i: usize = 0;
    while i < jobs.len()
        invariant
            i <= jobs@.len(),
            jv == ai_views(jobs@),
            v@.len() == i,
            forall|k: int| 0 <= k < i ==> (#[trigger] v@[k])@ == job_tab(jv[k], k == selected, *p),
        decreases jobs@.len() - i,
    {
        assert(jv[i as int] == jobs@[i as int]@);
        v.push(span_of_tab(&jobs[i], i == selected, p));
        i = i + 1;
    }
    assert(span_views(v@) =~= Seq::new(jobs@.len(), |k: int| job_tab(jv[k], k == selected, *p)));
    v
}

impl App {
    /// The rows of the AI pane.
    pub fn render_ai_pane(&self, p: &Palette) -> (v: Vec<Vec<Span>>)
        ensures
            row_views(v@) == self@.ai_rows(*p),
    {
        reveal(App::model);
        reveal(AppV::ai_rows);
        let mut v: Vec<Vec<Span>> = Vec::new();
        let n = self.ai_jobs.len();
        assert(self@.ai_jobs.len() == n);
        if n == 0 {
            let mut row: Vec<Span> = Vec::new();
            row.push(Span::of("No AI activity", ink(p.help_fg)));
            assert(span_views(row@) =~= seq![span("No AI activity"@, inked(p.help_fg))]);
            v.push(row);
            assert(row_views(v@) =~= self@.ai_rows(*p));
            return v;
        }
        let idx = min_usize(self.ai_selected_idx, last_index(n));
        let job = &self.ai_jobs[idx];
        assert(self@.ai_jobs[idx as int] == job@);
        v.push(tabs_of(&self.ai_jobs, self.ai_selected_idx, p));
        let empty: Vec<Span> = Vec::new();
        assert(span_views(empty@) =~= Seq::empty());
        v.push(empty);
        let mut title: Vec<Span> = Vec::new();
        title.push(Span::new(title_of_job(job), ink(p.header_fg).bold()));
        assert(span_views(title@) =~= seq![span(job_title(job@), inked(p.header_fg).with_bold())]);
        v.push(title);
        let ghost head = row_views(v@);
        let all = lines(output_tail_text(job.output.as_str()).as_str());
        let ghost av = lines_of(output_tail(job@.output));
        assert(av.len() == all@.len());
        let from = sub_usize(all.len(), 20);
        let mut i = from;
        while i < all.len()
            invariant
                from <= i <= all@.len(),
                av == texts(all@),
                v@.len() == 3 + i - from,
                forall|k: int| 0 <= k < 3 ==> span_views((#[trigger] v@[k])@) == head[k],
                forall|k: int|
                    3 <= k < v@.len() ==> span_views((#[trigger] v@[k])@) == seq![
                        span(av[from + k - 3], inked(p.help_fg)),
                    ],
            decreases all@.len() - i,
        {
            let mut row: Vec<Span> = Vec::new();
            row.push(Span::of(all[i].as_str(), ink(p.help_fg)));
            assert(av[i as int] == all@[i as int]@);
            assert(span_views(row@) =~= seq![span(av[i as int], inked(p.help_fg))]);
            v.push(row);
            i = i + 1;
        }
        assert(row_views(v@) =~= self@.ai_rows(*p));
        v
    }
}

// ---------------------------------------------------------------------------
// What the panes tell
// ---------------------------------------------------------------------------
/// The sticky header is shown exactly if the header of the cursor's file is not in
/// view. It tells the path of that file, how many lines its hunks add and delete,
/// and which of how many files it is.
pub proof fn law_sticky_header(s: AppV, h: int, path: Seq<char>, f: int, p: Palette) -> (r: (
    Seq<char>,
    Seq<char>,
    Seq<char>,
    Seq<char>,
))
    requires
        0 <= h <= s.screen.cursor < s.screen.lines.len(),
        s.screen.lines[h] == (DisplayLineV::FileHeader { path, file_idx: f }),
        forall|k: int|
            h < k <= s.screen.cursor ==> !((#[trigger] s.screen.lines[k]) is FileHeader),
        0 <= f < s.files.len(),
    ensures
        s.sticky_header(p) is None <==> s.screen.scroll <= h < s.screen.scroll
            + s.screen.visible_height,
        s.sticky_header(p) matches Some(x) ==> ({
            let (added, deleted, nth, all) = r;
            &&& digits_value(added) == Some(hunks_count(s.files[f].hunks, LineKind::Addition))
            &&& digits_value(deleted) == Some(hunks_count(s.files[f].hunks, LineKind::Deletion))
            &&& digits_value(nth) == Some((f + 1) as nat)
            &&& digits_value(all) == Some(s.files.len())
            &&& x.text == " Δ "@ + path + "  [+"@ + added + " -"@ + deleted + "]  ("@ + nth + "/"@
                + all + ")"@ + (if s.expanded is Some {
                " [FULL FILE - x to collapse]"@
            } else {
                ""@
            }) + (if s.screen.collapsed.contains(path) {
                " ▶"@
            } else {
                ""@
            })
        }),
{
    reveal(AppV::sticky_header);
    lemma_header_above(s.screen, s.screen.cursor);
    assert(is_header(s.screen.lines[h]));
    assert(s.screen.header_above(s.screen.cursor) == Some(h));
    let a = hunks_count(s.files[f].hunks, LineKind::Addition);
    let d = hunks_count(s.files[f].hunks, LineKind::Deletion);
    law_digits(a);
    law_digits(d);
    law_digits((f + 1) as nat);
    law_digits(s.files.len());
    (dec(a), dec(d), dec((f + 1) as nat), dec(s.files.len()))
}

/// The rows of the sidebar are the files from the one that it is scrolled to on, in
/// order, each with its path behind the letter of its status.
pub proof fn law_sidebar_rows(s: AppV, height: int, p: Palette, k: int)
    requires
        0 <= s.screen.sidebar_scroll,
        0 <= k < s.sidebar_rows(height, p).len(),
    ensures
        s.sidebar_rows(height, p).len() <= height,
        s.screen.sidebar_scroll + k < s.files.len(),
        ({
            let file = s.files[s.screen.sidebar_scroll + k];
            let row = s.sidebar_rows(height, p)[k];
            &&& row.len() == 2
            &&& row[0].text == (match file.status {
                FileStatus::Added => " A "@,
                FileStatus::Deleted => " D "@,
                FileStatus::Renamed => " R "@,
                FileStatus::Modified => " M "@,
            })
            &&& row[1].text == file.path()
        }),
        s.sidebar_rows(height, p).len() == (if s.screen.sidebar_scroll + height < s.files.len() {
            height
        } else {
            s.files.len() - s.screen.sidebar_scroll
        }),
{
}

/// The selected entry of the list is among its rows, and no other row is marked.
pub proof fn law_selected_entry_in_view(s: AppV, height: int, p: Palette) -> (k: int)
    requires
        0 <= s.list_idx < s.entries().len(),
        height > 0,
    ensures
        0 <= k < s.list_rows(height, p).len(),
        s.list_rows(height, p)[k] == entry_row(s.entries()[s.list_idx], true, p),
        s.list_rows(height, p).len() <= height,
        forall|j: int|
            0 <= j < s.list_rows(height, p).len() && j != k ==> #[trigger] s.list_rows(height, p)[j]
                == entry_row(s.entries()[s.list_idx - k + j], false, p),
{
    let from = minus(s.list_idx, height / 2);
    s.list_idx - from
}

/// A row of the list tells the file, the line and the side of an annotation and
/// what it says, if that is short and on one line; and whether it is resolved or
/// else orphaned.
pub proof fn law_entry_row(e: EntryV, selected: bool, p: Palette) -> (line: Seq<char>)
    requires
        crate::text::one_line(e.content),
        byte_len(e.content) <= 60,
    ensures
        u32_value(line) == Some(e.line),
        entry_row(e, selected, p).len() == 1,
        entry_row(e, selected, p)[0].text == (if e.annotation_type == AnnotationType::Todo {
            "📌"@
        } else {
            "💬"@
        }) + " "@ + e.file_path + ":"@ + line + " ["@ + (if e.side == Side::Old {
            "old"@
        } else {
            "new"@
        }) + "] "@ + e.content + (if e.resolved {
            "  (resolved)"@
        } else if e.orphaned {
            "  (orphaned)"@
        } else {
            ""@
        }),
{
    law_number_round_trip(0, e.line);
    assert(replaced(e.content, '\n', ' ') =~= e.content);
    dec(e.line as nat)
}

/// A job counts as running until it is done.
pub proof fn law_running(jobs: Seq<AiJobV>, job: AiJobV)
    ensures
        running(Seq::empty()) == 0,
        job.status == AiStatus::Running ==> running(jobs.push(job)) == running(jobs) + 1,
        job.status != AiStatus::Running ==> running(jobs.push(job)) == running(jobs),
{
    assert(jobs.push(job).drop_last() =~= jobs);
}

/// The status line tells the message where there is one, behind the view that is
/// shown.
pub proof fn law_status_tells(s: AppV, m: Seq<char>, p: Palette)
    requires
        s.mode == Mode::Normal,
        s.message == Some(m),
        running(s.ai_jobs) == 0,
        !s.loading,
    ensures
        s.status(p) matches StatusV::Line(x) && x.text == (match s.diff_mode {
            DiffModeV::Unstaged => "[unstaged] "@,
            DiffModeV::Staged => "[staged] "@,
            _ => Seq::<char>::empty(),
        }) + m,
{
    reveal(AppV::status);
    reveal_strlit("");
    assert(""@ =~= Seq::<char>::empty());
    assert(s.normal_status() =~= (match s.diff_mode {
        DiffModeV::Unstaged => "[unstaged] "@,
        DiffModeV::Staged => "[staged] "@,
        _ => Seq::<char>::empty(),
    }) + m);
}

/// While a query is typed, the status line tells it, and what is searched.
pub proof fn law_search_status_tells(s: AppV, q: SearchV, p: Palette) -> (rest: Seq<char>)
    requires
        s.mode == Mode::SearchFile || s.mode == Mode::SearchContent,
        s.search == Some(q),
    ensures
        s.status(p) matches StatusV::Line(x) && x.text == " Search "@ + (if s.mode
            == Mode::SearchFile {
            "file"@
        } else {
            "content"@
        }) + ": "@ + q.query + "_"@ + rest,
{
    reveal(AppV::status);
    let rest = s.match_info() + "  (Enter: confirm, Esc: cancel)"@;
    assert(s.search_status() =~= " Search "@ + (if s.mode == Mode::SearchFile {
        "file"@
    } else {
        "content"@
    }) + ": "@ + q.query + "_"@ + rest);
    rest
}

/// The lines that the AI pane shows of an output are its last ones, in order, and
/// all of them where there are few.
pub proof fn law_output_end(output: Seq<char>)
    requires
        byte_len(output) <= 2000,
        forall|i: int| 0 <= i < output.len() ==> #[trigger] output[i] != '\t',
    ensures
        ({
            let all = lines_of(output);
            let shown = output_lines(output);
            &&& all.len() <= 20 ==> shown == all
            &&& all.len() > 20 ==> shown.len() == 20
            &&& forall|i: int|
                0 <= i < shown.len() ==> #[trigger] shown[i] == all[all.len() - shown.len() + i]
        }),
{
    assert(replaced(output, '\t', ' ') =~= output);
    assert(output_tail(output) == output);
}

/// The AI pane has a tab for each job, in order, with the mark of how it stands and
/// the id of its annotation; below stand the title and the output of the selected
/// one.
pub proof fn law_ai_rows(s: AppV, p: Palette, i: int) -> (id: Seq<char>)
    requires
        0 <= i < s.ai_jobs.len(),
        0 <= s.ai_selected < s.ai_jobs.len(),
    ensures
        ({
            let rows = s.ai_rows(p);
            let job = s.ai_jobs[i];
            &&& i64_value(id) == Some(job.annotation_id)
            &&& rows.len() >= 3
            &&& rows[0].len() == s.ai_jobs.len()
            &&& rows[0][i].text == " "@ + (match job.status {
                AiStatus::Running => "…"@,
                AiStatus::Done { ok } => if ok {
                    "✓"@
                } else {
                    "!"@
                },
            }) + "#"@ + id + (if job.annotation_type == AnnotationType::Todo {
                "T"@
            } else {
                "C"@
            }) + " "@
            &&& rows[2].len() == 1
            &&& rows[2][0].text == job_title(s.ai_jobs[s.ai_selected])
            &&& rows.len() == 3 + output_lines(s.ai_jobs[s.ai_selected].output).len()
            &&& forall|j: int|
                3 <= j < rows.len() ==> (#[trigger] rows[j]).len() == 1 && rows[j][0].text
                    == output_lines(s.ai_jobs[s.ai_selected].output)[j - 3]
        }),
{
    reveal(AppV::ai_rows);
    law_number_round_trip(s.ai_jobs[i].annotation_id, 0);
    signed_dec(s.ai_jobs[i].annotation_id as int)
}

} // verus!
