//! Commands on the line that the cursor is on and on the selected lines.
use vstd::prelude::*;

use crate::action::{Action, ActionV, Next, NextV};
use crate::beside::diff_lines_of;
use crate::display::{annotated_side, DisplayLine, DisplayLineV};
use crate::keys::{editor_with_text, empty_editor, loaded, new_editor};
use crate::number::{dec, decimal};
use crate::screen::{greater, lesser, Screen, ScreenV};
use crate::state::{App, AppV, Mode, SearchState, SearchType, SearchV};
use crate::storage::{
    delete_statement, resolve_statement, stored_type, unresolve_statement, update_statement,
    AnnotationType, Side, Storage,
};
use crate::text::{joined, law_split_of_join, lines, lines_of, one_line, opt_text, split_lines_of};

verus! {

/// The other type of annotation.
pub open spec fn other_type(t: AnnotationType) -> AnnotationType {
    match t {
        AnnotationType::Comment => AnnotationType::Todo,
        AnnotationType::Todo => AnnotationType::Comment,
    }
}

/// The other type of annotation.
pub fn flip_type(t: AnnotationType) -> (r: AnnotationType)
    ensures
        r == other_type(t),
{
    match t {
        AnnotationType::Comment => AnnotationType::Todo,
        AnnotationType::Todo => AnnotationType::Comment,
    }
}

impl ScreenV {
    /// With a selection that begins at the cursor.
    pub open spec fn selecting(self) -> ScreenV {
        ScreenV {
            selection_active: true,
            selection_start: Some(self.cursor),
            selection_file: self.file_of_line(self.cursor),
            selection_hunk: self.hunk_of_line(self.cursor),
            ..self
        }
    }
}

impl AppV {
    /// Beginning a selection, or dropping it.
    #[verifier::opaque]
    pub open spec fn selection_toggled(self) -> AppV {
        if self.screen.selection_active {
            self.on(self.screen.unselected()).saying("Selection cleared"@)
        } else {
            match self.screen.line(self.screen.cursor) {
                Some(DisplayLineV::Diff { line, .. }) => if line.new_line_no is Some {
                    self.on(self.screen.selecting()).saying("Selecting lines"@)
                } else {
                    self.saying("Selection only works on new/context lines"@)
                },
                _ => self.saying("Move to a diff line to start selection"@),
            }
        }
    }

    /// Copying the selected lines, or the line that the cursor is on.
    #[verifier::opaque]
    pub open spec fn copying(self) -> (AppV, ActionV) {
        match self.screen.selected_text() {
            Some(text) => {
                let n = greater(lines_of(text).len() as int, 1);
                (
                    self.saying(
                        "Copied "@ + dec(n as nat) + " line"@ + (if n == 1 {
                            ""@
                        } else {
                            "s"@
                        }),
                    ),
                    ActionV::Copy(text),
                )
            },
            None => match self.screen.line(self.screen.cursor) {
                Some(DisplayLineV::Diff { line, .. }) => (
                    self.saying("Copied line"@),
                    ActionV::Copy(line.content),
                ),
                _ => (self.saying("Move to a diff line or make a selection"@), ActionV::Idle),
            },
        }
    }

    /// The file of the selection, and the least and the greatest new line
    /// number in it.
    #[verifier::opaque]
    pub open spec fn selected_span(self) -> Option<(Seq<char>, u32, u32)> {
        match (self.screen.selection(), self.screen.selection_file) {
            (Some((a, b)), Some(f)) if 0 <= f < self.files.len() => match (
                self.files[f].any_path(),
                self.screen.new_line_span(a, b + 1),
            ) {
                (Some(path), Some((lo, hi))) => Some((path, lo, hi)),
                _ => None,
            },
            _ => None,
        }
    }

    /// With an annotation being written.
    pub open spec fn writing(self, range: Option<(u32, u32)>, side: Side) -> AppV {
        AppV {
            mode: Mode::AddAnnotation,
            input: empty_editor(),
            annotation_range: range,
            annotation_side: Some(side),
            ..self
        }
    }

    /// Beginning an annotation of the selected lines or of the current one.
    #[verifier::opaque]
    pub open spec fn annotation_begun(self) -> AppV {
        if self.screen.selection_active {
            match self.selected_span() {
                Some((_, lo, hi)) => self.writing(Some((lo, hi)), Side::New),
                None => self.saying("Selection has no new/context lines"@),
            }
        } else {
            match self.screen.line(self.screen.cursor) {
                Some(DisplayLineV::Diff { line, .. }) => self.writing(None, annotated_side(line)),
                _ => self.saying("Move to a diff line to add annotation"@),
            }
        }
    }

    /// With an annotation being edited.
    pub open spec fn editing(self, id: i64, content: Seq<char>, annotation_type: AnnotationType) -> AppV {
        AppV {
            input: loaded(content),
            annotation_type,
            mode: Mode::EditAnnotation(id),
            ..self
        }
    }

    /// Editing the annotation of the current line.
    #[verifier::opaque]
    pub open spec fn edit_begun(self) -> AppV {
        match self.annotation_here() {
            Some(i) => self.editing(
                self.annotations[i].id,
                self.annotations[i].content,
                self.annotations[i].annotation_type,
            ),
            None => self,
        }
    }

    /// Deleting the annotation of the current line.
    #[verifier::opaque]
    pub open spec fn deleting(self) -> ActionV {
        match self.annotation_here() {
            Some(i) => ActionV::Store {
                statement: delete_statement(self.annotations[i].id),
                next: NextV::Deleted {
                    id: self.annotations[i].id,
                    file_path: self.annotations[i].file_path,
                },
            },
            None => ActionV::Idle,
        }
    }

    /// Resolving the annotation of the current line, or taking that back.
    #[verifier::opaque]
    pub open spec fn resolving(self) -> (AppV, ActionV) {
        match self.annotation_here() {
            Some(i) => if self.annotations[i].resolved_at is Some {
                (
                    self.saying("Annotation unresolved"@),
                    ActionV::Store {
                        statement: unresolve_statement(self.annotations[i].id),
                        next: NextV::Reload,
                    },
                )
            } else {
                (
                    self.saying("Annotation resolved"@),
                    ActionV::Store {
                        statement: resolve_statement(self.annotations[i].id),
                        next: NextV::Reload,
                    },
                )
            },
            None => (self.saying("Move to an annotation to resolve"@), ActionV::Idle),
        }
    }

    /// Changing the type of the annotation of the current line, or else of new
    /// annotations.
    #[verifier::opaque]
    pub open spec fn retyping(self) -> (AppV, ActionV) {
        match self.annotation_here() {
            Some(i) => {
                let a = self.annotations[i];
                let t = other_type(a.annotation_type);
                (
                    self.saying("Annotation type: "@ + stored_type(t)),
                    ActionV::Store {
                        statement: update_statement(a.id, a.content, t),
                        next: NextV::Reload,
                    },
                )
            },
            None => {
                let t = other_type(self.annotation_type);
                (
                    (AppV { annotation_type: t, ..self }).saying(
                        "Annotation type: "@ + stored_type(t),
                    ),
                    ActionV::Idle,
                )
            },
        }
    }

    /// With a search begun.
    pub open spec fn search_begun(self, search_type: SearchType) -> AppV {
        AppV {
            mode: match search_type {
                SearchType::File => Mode::SearchFile,
                SearchType::Content => Mode::SearchContent,
            },
            search: Some(
                SearchV {
                    query: Seq::empty(),
                    matches: Seq::empty(),
                    current: 0,
                    search_type,
                },
            ),
            ..self
        }
    }

    /// With the lines side by side, or one below the other.
    pub open spec fn layout_toggled(self) -> AppV {
        AppV {
            screen: ScreenV { side_by_side: !self.screen.side_by_side, ..self.screen },
            message: Some(
                "View: "@ + (if !self.screen.side_by_side {
                    "side-by-side"@
                } else {
                    "unified"@
                }),
            ),
            ..self
        }
    }
}

/// What the cursor is on.
pub enum Spot {
    /// A diff line with a new line number.
    New,
    /// A diff line without one.
    Old,
    /// Anything else.
    Elsewhere,
}

impl Screen {
    fn begin_selection(&mut self)
        ensures
            final(self)@ == old(self)@.selecting(),
            final(self)@.same_display(old(self)@),
    {
        let ghost s0 = self@;
        let file = self.file_idx_for_line(self.current_line_idx);
        let hunk = self.hunk_idx_for_line(self.current_line_idx);
        self.selection_active = true;
        self.selection_start = Some(self.current_line_idx);
        self.selection_file_idx = file;
        self.selection_hunk_idx = hunk;
        assert(self@ =~= s0.selecting());
    }
}

impl App {
    fn has_selection(&self) -> (r: bool)
        ensures
            r == self@.screen.selection_active,
    {
        reveal(App::model);
        self.screen.selection_active
    }

    fn spot(&self) -> (r: Spot)
        ensures
            match (r, self@.screen.line(self@.screen.cursor)) {
                (Spot::New, Some(DisplayLineV::Diff { line, .. })) => line.new_line_no is Some,
                (Spot::Old, Some(DisplayLineV::Diff { line, .. })) => line.new_line_no is None,
                (Spot::Elsewhere, Some(DisplayLineV::Diff { .. })) => false,
                (Spot::Elsewhere, _) => true,
                _ => false,
            },
    {
        reveal(App::model);
        match self.screen.current_display_line() {
            Some(DisplayLine::Diff { line, .. }) => if line.new_line_no.is_some() {
                Spot::New
            } else {
                Spot::Old
            },
            _ => Spot::Elsewhere,
        }
    }

    fn begin_selection(&mut self)
        requires
            old(self)@.wf(),
        ensures
            final(self)@ == old(self)@.on(old(self)@.screen.selecting()),
            final(self)@.wf(),
    {
        reveal(App::model);
        let ghost s0 = self@;
        self.screen.begin_selection();
        assert(self@ == s0.on(self@.screen));
    }

    /// Begins a selection, or drops it.
    pub fn toggle_selection(&mut self)
        requires
            old(self)@.wf(),
        ensures
            final(self)@ == old(self)@.selection_toggled(),
            final(self)@.wf(),
    {
        reveal(AppV::selection_toggled);
        if self.has_selection() {
            self.clear_selection();
            self.say("Selection cleared");
            return ;
        }
        match self.spot() {
            Spot::New => {
                self.begin_selection();
                self.say("Selecting lines");
            },
            Spot::Old => self.say("Selection only works on new/context lines"),
            Spot::Elsewhere => self.say("Move to a diff line to start selection"),
        }
    }

    fn selected_text(&self) -> (r: Option<String>)
        ensures
            opt_text(r) == self@.screen.selected_text(),
    {
        reveal(App::model);
        self.screen.selected_text_for_copy()
    }

    fn current_content(&self) -> (r: Option<String>)
        ensures
            opt_text(r) == (match self@.screen.line(self@.screen.cursor) {
                Some(DisplayLineV::Diff { line, .. }) => Some(line.content),
                _ => None,
            }),
    {
        reveal(App::model);
        match self.screen.current_display_line() {
            Some(DisplayLine::Diff { line, .. }) => Some(line.content.clone()),
            _ => None,
        }
    }

    /// Copies the selected lines, or the line that the cursor is on.
    pub fn copy_lines(&mut self) -> (r: Action)
        requires
            old(self)@.wf(),
        ensures
            (final(self)@, r@) == old(self)@.copying(),
            final(self)@.wf(),
    {
        reveal(AppV::copying);
        if let Some(text) = self.selected_text() {
            let all = lines(text.as_str());
            assert(crate::text::texts(all@).len() == all@.len());
            let n: usize = if all.len() > 1 {
                all.len()
            } else {
                1
            };
            let mut message = "Copied ".to_owned();
            message.push_str(decimal(n as u64).as_str());
            message.push_str(" line");
            message.push_str(
                if n == 1 {
                    ""
                } else {
                    "s"
                },
            );
            self.set_message(Some(message));
            return Action::Copy(text);
        }
        match self.current_content() {
            Some(text) => {
                self.say("Copied line");
                Action::Copy(text)
            },
            None => {
                self.say("Move to a diff line or make a selection");
                Action::Idle
            },
        }
    }

    /// The file of the selection, and the least and the greatest new line
    /// number in it.
    pub fn selection_range_for_new_side(&self) -> (r: Option<(String, u32, u32)>)
        ensures
            match r {
                Some((path, lo, hi)) => self@.selected_span() == Some((path@, lo, hi)),
                None => self@.selected_span() is None,
            },
    {
        reveal(App::model);
        reveal(AppV::selected_span);
        assert(self@.files.len() == self.files@.len());
        let f = match self.screen.selection_file_idx {
            Some(f) => f,
            None => {
                return None;
            },
        };
        if f >= self.files.len() {
            return None;
        }
        assert(self@.files[f as int] == self.files@[f as int]@);
        match (self.files[f].any_path(), self.screen.selected_new_lines()) {
            (Some(path), Some((lo, hi))) => Some((path, lo, hi)),
            _ => None,
        }
    }

    fn begin_writing(&mut self, range: Option<(u32, u32)>, side: Side)
        requires
            old(self)@.wf(),
        ensures
            final(self)@ == old(self)@.writing(range, side),
            final(self)@.wf(),
    {
        self.set_mode(Mode::AddAnnotation);
        self.set_input(new_editor());
        self.set_annotation_range(range);
        self.set_annotation_side(Some(side));
    }

    /// Begins an annotation of the selected lines or of the current one.
    pub fn begin_annotation(&mut self)
        requires
            old(self)@.wf(),
        ensures
            final(self)@ == old(self)@.annotation_begun(),
            final(self)@.wf(),
    {
        reveal(AppV::annotation_begun);
        if self.has_selection() {
            match self.selection_range_for_new_side() {
                Some((_, lo, hi)) => self.begin_writing(Some((lo, hi)), Side::New),
                None => self.say("Selection has no new/context lines"),
            }
        } else {
            match self.spot() {
                Spot::New => self.begin_writing(None, Side::New),
                Spot::Old => self.begin_writing(None, Side::Old),
                Spot::Elsewhere => self.say("Move to a diff line to add annotation"),
            }
        }
    }

    /// Begins to edit an annotation.
    pub fn begin_editing(&mut self, id: i64, content: &str, annotation_type: AnnotationType)
        requires
            old(self)@.wf(),
        ensures
            final(self)@ == old(self)@.editing(id, content@, annotation_type),
            final(self)@.wf(),
    {
        self.set_input(editor_with_text(content));
        self.set_annotation_type(annotation_type);
        self.set_mode(Mode::EditAnnotation(id));
    }

    /// Edits the annotation of the current line.
    pub fn edit_current(&mut self)
        requires
            old(self)@.wf(),
        ensures
            final(self)@ == old(self)@.edit_begun(),
            final(self)@.wf(),
    {
        reveal(AppV::edit_begun);
        if let Some(i) = self.get_annotation_for_current_line() {
            let a = self.annotation_at(i).clone();
            self.begin_editing(a.id, a.content.as_str(), a.annotation_type);
        }
    }

    /// Deletes the annotation of the current line.
    pub fn delete_annotation_at_line(&self) -> (r: Action)
        ensures
            r@ == self@.deleting(),
    {
        reveal(AppV::deleting);
        match self.get_annotation_for_current_line() {
            Some(i) => {
                let id = self.annotation_at(i).id;
                Action::Store {
                    statement: Storage::delete_annotation(id),
                    next: Next::Deleted {
                        id,
                        file_path: self.annotation_at(i).file_path.clone(),
                    },
                }
            },
            None => Action::Idle,
        }
    }

    /// Resolves the annotation of the current line, or takes that back.
    pub fn toggle_resolved(&mut self) -> (r: Action)
        requires
            old(self)@.wf(),
        ensures
            (final(self)@, r@) == old(self)@.resolving(),
            final(self)@.wf(),
    {
        reveal(AppV::resolving);
        match self.get_annotation_for_current_line() {
            Some(i) => {
                let id = self.annotation_at(i).id;
                if self.annotation_at(i).resolved_at.is_some() {
                    self.say("Annotation unresolved");
                    Action::Store {
                        statement: Storage::unresolve_annotation(id),
                        next: Next::Reload,
                    }
                } else {
                    self.say("Annotation resolved");
                    Action::Store { statement: Storage::resolve_annotation(id), next: Next::Reload }
                }
            },
            None => {
                self.say("Move to an annotation to resolve");
                Action::Idle
            },
        }
    }

    fn new_type(&self) -> (r: AnnotationType)
        ensures
            r == self@.annotation_type,
    {
        reveal(App::model);
        self.annotation_type
    }

    /// Changes the type of new annotations.
    pub fn flip_annotation_type(&mut self)
        ensures
            final(self)@ == (AppV {
                annotation_type: other_type(old(self)@.annotation_type),
                ..old(self)@
            }),
            old(self)@.wf() ==> final(self)@.wf(),
    {
        let t = flip_type(self.new_type());
        self.set_annotation_type(t);
    }

    fn say_type(&mut self, t: AnnotationType)
        ensures
            final(self)@ == old(self)@.saying("Annotation type: "@ + stored_type(t)),
            old(self)@.wf() ==> final(self)@.wf(),
    {
        let mut message = "Annotation type: ".to_owned();
        message.push_str(t.as_str());
        self.set_message(Some(message));
    }

    /// Changes the type of the annotation of the current line, or else of new
    /// annotations.
    pub fn toggle_type(&mut self) -> (r: Action)
        requires
            old(self)@.wf(),
        ensures
            (final(self)@, r@) == old(self)@.retyping(),
            final(self)@.wf(),
    {
        reveal(AppV::retyping);
        match self.get_annotation_for_current_line() {
            Some(i) => {
                let a = self.annotation_at(i).clone();
                let t = flip_type(a.annotation_type);
                self.say_type(t);
                Action::Store {
                    statement: Storage::update_annotation(a.id, a.content.as_str(), t),
                    next: Next::Reload,
                }
            },
            None => {
                let t = flip_type(self.new_type());
                self.set_annotation_type(t);
                self.say_type(t);
                Action::Idle
            },
        }
    }

    /// Begins a search.
    pub fn begin_search(&mut self, search_type: SearchType)
        requires
            old(self)@.wf(),
        ensures
            final(self)@ == old(self)@.search_begun(search_type),
            final(self)@.wf(),
    {
        let search = SearchState {
            query: String::new(),
            matches: Vec::new(),
            current_match: 0,
            search_type,
        };
        assert(search@.query =~= Seq::empty());
        assert(search@.matches =~= Seq::empty());
        self.set_mode(
            match search_type {
                SearchType::File => Mode::SearchFile,
                SearchType::Content => Mode::SearchContent,
            },
        );
        self.set_search(Some(search));
    }

    /// Shows lines side by side, or one below the other.
    pub fn toggle_layout(&mut self)
        requires
            old(self)@.wf(),
        ensures
            final(self)@ == old(self)@.layout_toggled(),
            final(self)@.wf(),
    {
        reveal(App::model);
        let ghost s0 = self@;
        self.screen.side_by_side = !self.screen.side_by_side;
        let mut message = "View: ".to_owned();
        message.push_str(
            if self.screen.side_by_side {
                "side-by-side"
            } else {
                "unified"
            },
        );
        self.message = Some(message);
        assert(self@ == s0.layout_toggled());
    }
}

/// Changing the layout or the type of new annotations twice changes nothing
/// about them.
pub proof fn law_toggles_undo(s: AppV, t: AnnotationType)
    ensures
        s.layout_toggled().layout_toggled().screen == s.screen,
        other_type(other_type(t)) == t,
{
    assert(s.layout_toggled().layout_toggled().screen =~= s.screen);
}

proof fn lemma_span(s: ScreenV, from: int, to: int)
    ensures
        match s.new_line_span(from, to) {
            Some((lo, hi)) => {
                &&& lo <= hi
                &&& exists|i: int| from <= i < to && #[trigger] new_number_at(s, i, lo)
                &&& exists|i: int| from <= i < to && #[trigger] new_number_at(s, i, hi)
                &&& forall|i: int, n: u32|
                    from <= i < to && #[trigger] new_number_at(s, i, n) ==> lo <= n <= hi
            },
            None => forall|i: int, n: u32| from <= i < to ==> !#[trigger] new_number_at(s, i, n),
        },
    decreases to - from,
{
    if from < to {
        lemma_span(s, from, to - 1);
        let number = match s.line(to - 1) {
            Some(DisplayLineV::Diff { line, .. }) => line.new_line_no,
            _ => None,
        };
        assert forall|n: u32| #[trigger] new_number_at(s, to - 1, n) <==> number == Some(n) by {}
        let before = s.new_line_span(from, to - 1);
        let now = s.new_line_span(from, to);
        if let Some(n) = number {
            assert(new_number_at(s, to - 1, n));
        }
        if let Some((lo, hi)) = before {
            let i = choose|i: int| from <= i < to - 1 && #[trigger] new_number_at(s, i, lo);
            let j = choose|i: int| from <= i < to - 1 && #[trigger] new_number_at(s, i, hi);
            assert(new_number_at(s, i, lo));
            assert(new_number_at(s, j, hi));
        }
        assert forall|i: int, n: u32| from <= i < to && #[trigger] new_number_at(s, i, n) implies (
        now matches Some((lo, hi)) && lo <= n <= hi) by {
            if i < to - 1 {
                assert(before is Some);
            } else {
                assert(number == Some(n));
            }
        }
    }
}

/// Whether a line of the display is one of a file, under a new number.
pub open spec fn new_number_at(s: ScreenV, i: int, n: u32) -> bool {
    s.line(i) matches Some(DisplayLineV::Diff { line, .. }) && line.new_line_no == Some(n)
}

/// An annotation begun while lines are selected is for the new lines from the
/// least to the greatest number among them, and none can be begun if there is no
/// such number. Without a selection it is for the line that the cursor is on, on
/// the side that this line belongs to.
pub proof fn law_annotation_of_selection(s: AppV, start: int)
    requires
        s.screen.selection_active ==> s.screen.selection_start == Some(start) && (
        s.screen.selection_file matches Some(f) && 0 <= f < s.files.len()
            && s.files[f].any_path() is Some),
    ensures
        ({
            let t = s.annotation_begun();
            let lo = if start < s.screen.cursor {
                start
            } else {
                s.screen.cursor
            };
            let hi = if start < s.screen.cursor {
                s.screen.cursor
            } else {
                start
            };
            if !s.screen.selection_active {
                match s.screen.line(s.screen.cursor) {
                    Some(DisplayLineV::Diff { line, .. }) => t.mode == Mode::AddAnnotation
                        && t.annotation_range is None && t.annotation_side == Some(
                        if line.new_line_no is Some {
                            Side::New
                        } else {
                            Side::Old
                        },
                    ),
                    _ => t.mode == s.mode && t.annotation_range == s.annotation_range,
                }
            } else if exists|i: int, n: u32| lo <= i <= hi && #[trigger] new_number_at(s.screen, i, n) {
                &&& t.mode == Mode::AddAnnotation
                &&& t.annotation_side == Some(Side::New)
                &&& t.annotation_range matches Some((a, b)) && {
                    &&& a <= b
                    &&& exists|i: int| lo <= i <= hi && #[trigger] new_number_at(s.screen, i, a)
                    &&& exists|i: int| lo <= i <= hi && #[trigger] new_number_at(s.screen, i, b)
                    &&& forall|i: int, n: u32|
                        lo <= i <= hi && #[trigger] new_number_at(s.screen, i, n) ==> a <= n <= b
                }
            } else {
                t.mode == s.mode && t.annotation_range == s.annotation_range
            }
        }),
{
    reveal(AppV::annotation_begun);
    reveal(AppV::selected_span);
    if s.screen.selection_active {
        let lo = lesser(start, s.screen.cursor);
        let hi = greater(start, s.screen.cursor);
        lemma_span(s.screen, lo, hi + 1);
    }
}

proof fn lemma_selected_lines(s: ScreenV, from: int, to: int)
    requires
        0 <= from <= to <= s.lines.len(),
    ensures
        s.diff_texts(from, to).len() == diff_lines_of(s.lines, from, to - from).len(),
        forall|i: int|
            0 <= i < s.diff_texts(from, to).len() ==> #[trigger] s.diff_texts(from, to)[i]
                == diff_lines_of(s.lines, from, to - from)[i].content,
    decreases to - from,
{
    if from < to {
        lemma_selected_lines(s, from, to - 1);
        let before = s.diff_texts(from, to - 1);
        let lines = diff_lines_of(s.lines, from, to - 1 - from);
        assert forall|i: int| 0 <= i < s.diff_texts(from, to).len() implies #[trigger] s.diff_texts(
            from,
            to,
        )[i] == diff_lines_of(s.lines, from, to - from)[i].content by {
            if i < before.len() {
                assert(s.diff_texts(from, to)[i] == before[i]);
            }
        }
    }
}

/// What is copied is what is selected: the pieces of the copied text between its
/// newlines are the texts of the lines of files from the beginning of the
/// selection to the cursor, in order.
pub proof fn law_copies_selected(s: AppV, start: int, lo: int, hi: int) -> (text: Seq<char>)
    requires
        s.screen.selection_active,
        s.screen.selection_start == Some(start),
        0 <= lo <= hi < s.screen.lines.len(),
        (lo == start && hi == s.screen.cursor) || (lo == s.screen.cursor && hi == start),
        diff_lines_of(s.screen.lines, lo, hi + 1 - lo).len() > 0,
        forall|i: int|
            0 <= i < diff_lines_of(s.screen.lines, lo, hi + 1 - lo).len() ==> one_line(
                (#[trigger] diff_lines_of(s.screen.lines, lo, hi + 1 - lo)[i]).content,
            ),
    ensures
        s.copying().1 == ActionV::Copy(text),
        split_lines_of(text).len() == diff_lines_of(s.screen.lines, lo, hi + 1 - lo).len(),
        forall|i: int|
            0 <= i < split_lines_of(text).len() ==> #[trigger] split_lines_of(text)[i]
                == diff_lines_of(s.screen.lines, lo, hi + 1 - lo)[i].content,
{
    reveal(AppV::copying);
    let lines = diff_lines_of(s.screen.lines, lo, hi + 1 - lo);
    lemma_selected_lines(s.screen, lo, hi + 1);
    let parts = s.screen.diff_texts(lo, hi + 1);
    reveal_strlit("\n");
    assert("\n"@ =~= seq!['\n']);
    assert forall|i: int| 0 <= i < parts.len() implies one_line(#[trigger] parts[i]) by {
        assert(one_line(lines[i].content));
    }
    law_split_of_join(parts);
    assert(s.screen.selection() == Some((lo, hi)));
    joined(parts, "\n"@)
}

/// Without a selection, the text of the line that the cursor is on is copied.
pub proof fn law_copies_line(s: AppV)
    requires
        !s.screen.selection_active,
    ensures
        match s.screen.line(s.screen.cursor) {
            Some(DisplayLineV::Diff { line, .. }) => s.copying().1 == ActionV::Copy(line.content),
            _ => s.copying().1 == ActionV::Idle,
        },
{
    reveal(AppV::copying);
}

/// A selection begins at the cursor, on lines with a new number alone, and is dropped
/// when it is there already.
pub proof fn law_selection_begins(s: AppV)
    ensures
        s.screen.selection_active ==> !s.selection_toggled().screen.selection_active,
        !s.screen.selection_active ==> (s.selection_toggled().screen.selection_active <==> exists|
            n: u32,
        | #[trigger] new_number_at(s.screen, s.screen.cursor, n)),
        !s.screen.selection_active && s.selection_toggled().screen.selection_active
            ==> s.selection_toggled().screen.selection_start == Some(s.screen.cursor)
            && s.selection_toggled().screen.cursor == s.screen.cursor,
        s.selection_toggled().screen.lines == s.screen.lines,
{
    reveal(AppV::selection_toggled);
    match s.screen.line(s.screen.cursor) {
        Some(DisplayLineV::Diff { line, .. }) => match line.new_line_no {
            Some(n) => {
                assert(new_number_at(s.screen, s.screen.cursor, n));
            },
            None => {},
        },
        _ => {},
    }
}

} // verus!
