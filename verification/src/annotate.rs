//! Adding, editing and listing annotations.
use vstd::prelude::*;

use crate::action::{Action, ActionV, Next, NextV};
use crate::compose::lemma_built_frame;
use crate::diff::DiffLineV;
use crate::display::{annotated_line_no, annotated_side, opt_idx, DisplayLine, DisplayLineV};
use crate::keys::{editor_text, empty_editor, new_editor, typed_text};
use crate::navigate::line_no_of;
use crate::outside::str_eq;
use crate::screen::{last_index, less_one, lesser, min_usize, minus, sub_usize};
use crate::state::{App, AppV, Disk, DiskV, Mode};
use crate::storage::{
    annotation_views, insert_statement, update_statement, Annotation, AnnotationType,
    AnnotationV, NewAnnotation, NewAnnotationV, Side, Storage,
};
use crate::text::{join_range, joined, lines, lines_of, opt_text, texts};
use crate::views::lemma_updated_frame;

verus! {

/// How many lines around an annotated line are kept with it.
pub const REATTACH_CONTEXT_LINES: usize = 2;

/// What an annotation is anchored to: its line number, the text of the line,
/// and the lines before and behind it.
#[verifier::ext_equal]
pub struct AnchorV {
    pub line: u32,
    pub text: Seq<char>,
    pub before: Seq<char>,
    pub after: Seq<char>,
}

/// The anchor that only a line number is known of.
pub open spec fn bare_anchor(line_no: u32) -> AnchorV {
    AnchorV { line: line_no, text: Seq::empty(), before: Seq::empty(), after: Seq::empty() }
}

/// The anchor of a line of a file.
pub open spec fn anchor_of(lines: Seq<Seq<char>>, line_no: u32) -> AnchorV {
    let idx = line_no - 1;
    let context = REATTACH_CONTEXT_LINES as int;
    if line_no == 0 || idx >= lines.len() {
        bare_anchor(line_no)
    } else {
        AnchorV {
            line: line_no,
            text: lines[idx],
            before: joined(lines.subrange(minus(idx, context), idx), "\n"@),
            after: joined(
                lines.subrange(idx + 1, lesser(idx + 1 + context, lines.len() as int)),
                "\n"@,
            ),
        }
    }
}

/// What an annotation is anchored to.
#[derive(Debug)]
pub struct Anchor {
    pub line: u32,
    pub text: String,
    pub before: String,
    pub after: String,
}

impl View for Anchor {
    type V = AnchorV;

    open spec fn view(&self) -> AnchorV {
        AnchorV {
            line: self.line,
            text: self.text@,
            before: self.before@,
            after: self.after@,
        }
    }
}

fn empty_anchor(line_no: u32) -> (r: Anchor)
    ensures
        r@ == bare_anchor(line_no),
{
    let r = Anchor {
        line: line_no,
        text: String::new(),
        before: String::new(),
        after: String::new(),
    };
    assert(r@ =~= bare_anchor(line_no));
    r
}

/// The anchor of a line of a file.
pub fn build_anchor(lines: &[String], line_no: u32) -> (r: Anchor)
    ensures
        r@ == anchor_of(texts(lines@), line_no),
{
    let ghost lv = texts(lines@);
    assert(lv.len() == lines@.len());
    if line_no == 0 {
        return empty_anchor(line_no);
    }
    let idx: usize = (line_no - 1) as usize;
    let n = lines.len();
    if idx >= n {
        return empty_anchor(line_no);
    }
    let start = sub_usize(idx, REATTACH_CONTEXT_LINES);
    let end = if n - idx - 1 <= REATTACH_CONTEXT_LINES {
        n
    } else {
        idx + 1 + REATTACH_CONTEXT_LINES
    };
    Anchor {
        line: line_no,
        text: lines[idx].clone(),
        before: join_range(lines, start, idx, "\n"),
        after: join_range(lines, idx + 1, end, "\n"),
    }
}

/// The anchor of a line of a file that may not be readable.
pub fn build_anchor_from_file(content: Option<&str>, line_no: u32) -> (r: Anchor)
    ensures
        r@ == (match content {
            Some(text) => anchor_of(lines_of(text@), line_no),
            None => bare_anchor(line_no),
        }),
{
    match content {
        Some(text) => build_anchor(&lines(text), line_no),
        None => empty_anchor(line_no),
    }
}

/// A stored annotation as the application holds it.
pub open spec fn stored(id: i64, repo_id: i64, a: NewAnnotationV) -> AnnotationV {
    AnnotationV {
        id,
        repo_id,
        file_path: a.file_path,
        commit_sha: a.commit_sha,
        side: a.side,
        start_line: a.start_line,
        end_line: a.end_line,
        annotation_type: a.annotation_type,
        content: a.content,
        anchor_line: a.anchor_line,
        anchor_text: a.anchor_text,
        context_before: a.context_before,
        context_after: a.context_after,
        created_at: Seq::empty(),
        resolved_at: None,
    }
}

/// Annotations without those that have an id.
pub open spec fn without_id(list: Seq<AnnotationV>, id: i64) -> Seq<AnnotationV>
    decreases list.len(),
{
    if list.len() == 0 {
        Seq::empty()
    } else if list.last().id == id {
        without_id(list.drop_last(), id)
    } else {
        without_id(list.drop_last(), id).push(list.last())
    }
}

/// The first annotation from `i` on with an id.
pub open spec fn with_id(list: Seq<AnnotationV>, i: int, id: i64) -> Option<int>
    decreases list.len() - i,
{
    if !(0 <= i < list.len()) {
        None
    } else if list[i].id == id {
        Some(i)
    } else {
        with_id(list, i + 1, id)
    }
}

/// The first annotation from `i` on that covers a line of a file.
pub open spec fn covering(
    list: Seq<AnnotationV>,
    i: int,
    path: Seq<char>,
    side: Side,
    line: u32,
) -> Option<int>
    decreases list.len() - i,
{
    if !(0 <= i < list.len()) {
        None
    } else if list[i].file_path == path && list[i].side == side && list[i].covers(line) {
        Some(i)
    } else {
        covering(list, i + 1, path, side, line)
    }
}

impl AppV {
    /// The annotation of the line that the cursor is on.
    #[verifier::opaque]
    pub open spec fn annotation_here(self) -> Option<int> {
        match self.screen.line(self.screen.cursor) {
            Some(DisplayLineV::Diff { line, file_path, .. }) => covering(
                self.annotations,
                0,
                file_path,
                annotated_side(line),
                annotated_line_no(line),
            ),
            _ => None,
        }
    }

    /// The annotation that is being written, for the line that the cursor is on
    /// or the lines that were selected. On the new side it is anchored to the
    /// file, else to the line as it is shown.
    #[verifier::opaque]
    pub open spec fn draft(self, disk: DiskV) -> Option<NewAnnotationV> {
        match self.screen.line(self.screen.cursor) {
            Some(DisplayLineV::Diff { line, file_path, .. }) => {
                let (start, end) = match self.annotation_range {
                    Some(range) => range,
                    None => match line_no_of(line) {
                        Some(n) => (n, n),
                        None => (1, 1),
                    },
                };
                let side = match self.annotation_side {
                    Some(side) => side,
                    None => annotated_side(line),
                };
                let shown = AnchorV { text: line.content, ..bare_anchor(start) };
                let anchor = if side == Side::New {
                    match disk.lossy_of(file_path) {
                        Some(text) => anchor_of(lines_of(text), start),
                        None => shown,
                    }
                } else {
                    shown
                };
                Some(
                    NewAnnotationV {
                        file_path,
                        commit_sha: None,
                        side,
                        start_line: start,
                        end_line: if start == end {
                            None
                        } else {
                            Some(end)
                        },
                        annotation_type: self.annotation_type,
                        content: typed_text(self.input),
                        anchor_line: anchor.line,
                        anchor_text: anchor.text,
                        context_before: anchor.before,
                        context_after: anchor.after,
                    },
                )
            },
            _ => None,
        }
    }

    /// With the text input put away.
    pub open spec fn input_closed(self) -> AppV {
        AppV {
            input: empty_editor(),
            annotation_range: None,
            annotation_side: None,
            mode: Mode::Normal,
            ..self
        }
    }

    /// With the lines of a file built anew, or all of them if the diff does not
    /// have the file.
    pub open spec fn rebuilt_for(self, path: Seq<char>, disk: DiskV) -> AppV {
        if self.index.contains_key(path) {
            self.with_file_updated(self.index[path] as int, disk)
        } else {
            self.built(disk)
        }
    }

    /// With other annotations.
    pub open spec fn annotated(self, annotations: Seq<AnnotationV>) -> AppV {
        AppV { annotations, ..self }
    }

    /// With an annotation that was stored under an id.
    #[verifier::opaque]
    pub open spec fn annotation_added(self, id: i64, a: NewAnnotationV, disk: DiskV) -> AppV {
        let s = self.saying("Annotation added"@).without_saved();
        let t = s.annotated(s.annotations.push(stored(id, s.repo_id, a))).rebuilt_for(
            a.file_path,
            disk,
        );
        t.on(t.screen.unselected()).input_closed()
    }

    /// With an annotation that has a new content and type.
    #[verifier::opaque]
    pub open spec fn annotation_edited(
        self,
        id: i64,
        content: Seq<char>,
        annotation_type: AnnotationType,
        disk: DiskV,
    ) -> AppV {
        let s = self.saying("Annotation updated"@).without_saved();
        (match with_id(s.annotations, 0, id) {
            Some(i) => s.annotated(
                s.annotations.update(
                    i,
                    AnnotationV { content, annotation_type, ..s.annotations[i] },
                ),
            ).rebuilt_for(s.annotations[i].file_path, disk),
            None => s,
        }).input_closed()
    }

    /// Without an annotation that was deleted.
    #[verifier::opaque]
    pub open spec fn annotation_deleted(self, id: i64, path: Seq<char>, disk: DiskV) -> AppV {
        let s = self.saying("Annotation deleted"@).without_saved();
        s.annotated(without_id(s.annotations, id)).rebuilt_for(path, disk)
    }

    /// With annotations that were read again.
    #[verifier::opaque]
    pub open spec fn annotations_reloaded(self, rows: Seq<AnnotationV>, disk: DiskV) -> AppV {
        self.annotated(rows).built(disk)
    }

    /// With annotations that were read again for their list.
    #[verifier::opaque]
    pub open spec fn list_reloaded(self, rows: Seq<AnnotationV>, disk: DiskV) -> AppV {
        let s = self.annotated(rows).built(disk);
        AppV { list_idx: lesser(s.list_idx, less_one(s.annotations.len() as int)), ..s }
    }

    /// Once a statement has been run: `row_id` is the id of an inserted row, and
    /// `rows` are the annotations where they are to be read again.
    pub open spec fn after_store(
        self,
        next: NextV,
        row_id: i64,
        rows: Seq<AnnotationV>,
        disk: DiskV,
    ) -> AppV {
        match next {
            NextV::Added(a) => self.annotation_added(row_id, a, disk),
            NextV::Edited { id, content, annotation_type } => self.annotation_edited(
                id,
                content,
                annotation_type,
                disk,
            ),
            NextV::Deleted { id, file_path } => self.annotation_deleted(id, file_path, disk),
            NextV::Reload => self.annotations_reloaded(rows, disk),
            NextV::ReloadList => self.list_reloaded(rows, disk),
        }
    }
}

/// A copy of a stored annotation.
fn to_annotation(id: i64, repo_id: i64, a: NewAnnotation) -> (r: Annotation)
    ensures
        r@ == stored(id, repo_id, a@),
{
    let r = Annotation {
        id,
        repo_id,
        file_path: a.file_path,
        commit_sha: a.commit_sha,
        side: a.side,
        start_line: a.start_line,
        end_line: a.end_line,
        annotation_type: a.annotation_type,
        content: a.content,
        anchor_line: a.anchor_line,
        anchor_text: a.anchor_text,
        context_before: a.context_before,
        context_after: a.context_after,
        created_at: String::new(),
        resolved_at: None,
    };
    assert(r@ =~= stored(id, repo_id, a@));
    r
}

/// The first annotation with an id.
pub fn find_with_id(list: &[Annotation], id: i64) -> (r: Option<usize>)
    ensures
        opt_idx(r) == with_id(annotation_views(list@), 0, id),
        r matches Some(i) ==> i < list@.len(),
{
    let ghost av = annotation_views(list@);
    let mut i: usize = 0;
    while i < list.len()
        invariant
            i <= list@.len(),
            av == annotation_views(list@),
            with_id(av, 0, id) == with_id(av, i as int, id),
        decreases list@.len() - i,
    {
        assert(av[i as int] == list@[i as int]@);
        if list[i].id == id {
            return Some(i);
        }
        i = i + 1;
    }
    None
}

fn remove_id(list: &[Annotation], id: i64) -> (r: Vec<Annotation>)
    ensures
        annotation_views(r@) == without_id(annotation_views(list@), id),
{
    let ghost av = annotation_views(list@);
    let mut r: Vec<Annotation> = Vec::new();
    let mut i: usize = 0;
    assert(av.take(0) =~= Seq::empty());
    assert(annotation_views(r@) =~= without_id(av.take(0), id));
    while i < list.len()
        invariant
            i <= list@.len(),
            av == annotation_views(list@),
            annotation_views(r@) == without_id(av.take(i as int), id),
        decreases list@.len() - i,
    {
        proof {
            assert(av.take(i + 1).drop_last() =~= av.take(i as int));
            assert(av.take(i + 1).last() == list@[i as int]@);
        }
        if list[i].id != id {
            let ghost before = annotation_views(r@);
            r.push(list[i].clone());
            assert(annotation_views(r@) =~= before.push(list@[i as int]@));
        }
        i = i + 1;
    }
    assert(av.take(i as int) =~= av);
    r
}

impl App {
    /// The annotation of the line that the cursor is on.
    pub fn get_annotation_for_current_line(&self) -> (r: Option<usize>)
        ensures
            opt_idx(r) == self@.annotation_here(),
            r matches Some(i) ==> i < self@.annotations.len(),
    {
        reveal(App::model);
        reveal(AppV::annotation_here);
        let (line, path) = match self.screen.current_display_line() {
            Some(DisplayLine::Diff { line, file_path, .. }) => (line, file_path),
            _ => {
                return None;
            },
        };
        let line_no = match line.new_line_no {
            Some(n) => n,
            None => match line.old_line_no {
                Some(n) => n,
                None => 0,
            },
        };
        let side = if line.new_line_no.is_some() {
            Side::New
        } else {
            Side::Old
        };
        find_covering(&self.all_annotations, path.as_str(), side, line_no)
    }

    /// The annotation that is being written.
    fn draft_annotation(&self, disk: &Disk) -> (r: Option<NewAnnotation>)
        ensures
            match r {
                Some(a) => self@.draft(disk@) == Some(a@),
                None => self@.draft(disk@) is None,
            },
    {
        reveal(App::model);
        reveal(AppV::draft);
        let (line, path) = match self.screen.current_display_line() {
            Some(DisplayLine::Diff { line, file_path, .. }) => (line, file_path),
            _ => {
                return None;
            },
        };
        let (start, end) = match self.annotation_range {
            Some(range) => range,
            None => match line.new_line_no {
                Some(n) => (n, n),
                None => match line.old_line_no {
                    Some(n) => (n, n),
                    None => (1, 1),
                },
            },
        };
        let side = match self.annotation_side {
            Some(side) => side,
            None => if line.new_line_no.is_some() {
                Side::New
            } else {
                Side::Old
            },
        };
        let text = if side == Side::New {
            disk.lossy.get(path.as_str())
        } else {
            None
        };
        let anchor = match text {
            Some(text) => build_anchor(&lines(text.as_str()), start),
            None => {
                let mut a = empty_anchor(start);
                a.text = line.content.clone();
                a
            },
        };
        let r = NewAnnotation {
            file_path: path.clone(),
            commit_sha: None,
            side,
            start_line: start,
            end_line: if start == end {
                None
            } else {
                Some(end)
            },
            annotation_type: self.annotation_type,
            content: editor_text(&self.annotation_input),
            anchor_line: anchor.line,
            anchor_text: anchor.text,
            context_before: anchor.before,
            context_after: anchor.after,
        };
        assert(Some(r@) == self@.draft(disk@));
        Some(r)
    }

    fn close_input(&mut self)
        ensures
            final(self)@ == old(self)@.input_closed(),
            old(self)@.wf() ==> final(self)@.wf(),
    {
        self.set_input(new_editor());
        self.set_annotation_range(None);
        self.set_annotation_side(None);
        self.set_mode(Mode::Normal);
    }

    /// Saves the annotation that is being written. Where the cursor is on no
    /// line of the diff there is none, and the text input is put away.
    pub fn add_annotation(&mut self, disk: &Disk) -> (r: Action)
        requires
            old(self)@.wf(),
        ensures
            match old(self)@.draft(disk@) {
                Some(a) => final(self)@ == old(self)@ && r@ == (ActionV::Store {
                    statement: insert_statement(old(self)@.repo_id, a),
                    next: NextV::Added(a),
                }),
                None => final(self)@ == old(self)@.on(
                    old(self)@.screen.unselected(),
                ).input_closed() && r@ == ActionV::Idle,
            },
            final(self)@.wf(),
    {
        match self.draft_annotation(disk) {
            Some(a) => {
                let repo_id = self.repo();
                Action::Store {
                    statement: Storage::add_annotation(repo_id, &a),
                    next: Next::Added(a),
                }
            },
            None => {
                self.clear_selection();
                self.close_input();
                Action::Idle
            },
        }
    }

    /// The id of the repository.
    pub fn repo(&self) -> (r: i64)
        ensures
            r == self@.repo_id,
    {
        reveal(App::model);
        self.repo_id
    }

    /// Saves the annotation that is being edited.
    pub fn edit_annotation(&self, id: i64) -> (r: Action)
        ensures
            r@ == (ActionV::Store {
                statement: update_statement(id, typed_text(self@.input), self@.annotation_type),
                next: NextV::Edited {
                    id,
                    content: typed_text(self@.input),
                    annotation_type: self@.annotation_type,
                },
            }),
    {
        reveal(App::model);
        let content = editor_text(&self.annotation_input);
        Action::Store {
            statement: Storage::update_annotation(id, content.as_str(), self.annotation_type),
            next: Next::Edited { id, content, annotation_type: self.annotation_type },
        }
    }

    /// Takes in other annotations.
    pub fn set_annotations(&mut self, annotations: Vec<Annotation>)
        ensures
            final(self)@ == old(self)@.annotated(annotation_views(annotations@)),
            old(self)@.wf() ==> final(self)@.wf(),
    {
        reveal(App::model);
        let ghost s0 = self@;
        self.all_annotations = annotations;
        assert(self@ == s0.annotated(annotation_views(annotations@)));
    }

    fn index_of(&self, path: &str) -> (r: Option<usize>)
        ensures
            match r {
                Some(i) => self@.index.contains_key(path@) && self@.index[path@] == i,
                None => !self@.index.contains_key(path@),
            },
    {
        reveal(App::model);
        match self.diff_file_index.get(path) {
            Some(i) => Some(*i),
            None => None,
        }
    }

    /// Builds the lines of a file anew, or all of them if the diff does not
    /// have the file.
    fn rebuild_for(&mut self, path: &str, disk: &Disk)
        requires
            old(self)@.wf(),
        ensures
            final(self)@ == old(self)@.rebuilt_for(path@, disk@),
            final(self)@.wf(),
    {
        match self.index_of(path) {
            Some(i) => self.update_display_lines_for_file(i, disk),
            None => self.build_display_lines(disk),
        }
    }

    fn push_annotation(&mut self, id: i64, a: NewAnnotation)
        ensures
            final(self)@ == old(self)@.annotated(
                old(self)@.annotations.push(stored(id, old(self)@.repo_id, a@)),
            ),
            old(self)@.wf() ==> final(self)@.wf(),
    {
        reveal(App::model);
        let ghost s0 = self@;
        let ghost v = stored(id, s0.repo_id, a@);
        self.all_annotations.push(to_annotation(id, self.repo_id, a));
        assert(self@.annotations =~= s0.annotations.push(v));
        assert(self@ == s0.annotated(s0.annotations.push(v)));
    }

    fn finish_add(&mut self, id: i64, a: NewAnnotation, disk: &Disk)
        requires
            old(self)@.wf(),
        ensures
            final(self)@ == old(self)@.annotation_added(id, a@, disk@),
            final(self)@.wf(),
    {
        reveal(AppV::annotation_added);
        let path = a.file_path.clone();
        self.say("Annotation added");
        self.invalidate_pre_expand_cache();
        self.push_annotation(id, a);
        self.rebuild_for(path.as_str(), disk);
        self.clear_selection();
        self.close_input();
    }

    /// Changes an annotation. Gives the path of its file.
    fn change_annotation(&mut self, id: i64, content: String, annotation_type: AnnotationType) -> (r:
        Option<String>)
        ensures
            match with_id(old(self)@.annotations, 0, id) {
                Some(i) => opt_text(r) == Some(old(self)@.annotations[i].file_path) && final(self)@
                    == old(self)@.annotated(
                    old(self)@.annotations.update(
                        i,
                        AnnotationV {
                            content: content@,
                            annotation_type,
                            ..old(self)@.annotations[i]
                        },
                    ),
                ),
                None => r is None && final(self)@ == old(self)@,
            },
            old(self)@.wf() ==> final(self)@.wf(),
    {
        reveal(App::model);
        let ghost s0 = self@;
        match find_with_id(&self.all_annotations, id) {
            Some(i) => {
                let mut a = self.all_annotations[i].clone();
                assert(s0.annotations[i as int] == a@);
                let path = a.file_path.clone();
                a.content = content;
                a.annotation_type = annotation_type;
                let ghost v = a@;
                self.all_annotations.set(i, a);
                assert(self@.annotations =~= s0.annotations.update(i as int, v));
                assert(self@ == s0.annotated(s0.annotations.update(i as int, v)));
                Some(path)
            },
            None => None,
        }
    }

    fn finish_edit(
        &mut self,
        id: i64,
        content: String,
        annotation_type: AnnotationType,
        disk: &Disk,
    )
        requires
            old(self)@.wf(),
        ensures
            final(self)@ == old(self)@.annotation_edited(id, content@, annotation_type, disk@),
            final(self)@.wf(),
    {
        reveal(AppV::annotation_edited);
        self.say("Annotation updated");
        self.invalidate_pre_expand_cache();
        if let Some(path) = self.change_annotation(id, content, annotation_type) {
            self.rebuild_for(path.as_str(), disk);
        }
        self.close_input();
    }

    fn drop_annotation(&mut self, id: i64)
        ensures
            final(self)@ == old(self)@.annotated(without_id(old(self)@.annotations, id)),
            old(self)@.wf() ==> final(self)@.wf(),
    {
        reveal(App::model);
        let ghost s0 = self@;
        self.all_annotations = remove_id(&self.all_annotations, id);
        assert(self@ == s0.annotated(without_id(s0.annotations, id)));
    }

    fn finish_delete(&mut self, id: i64, path: &str, disk: &Disk)
        requires
            old(self)@.wf(),
        ensures
            final(self)@ == old(self)@.annotation_deleted(id, path@, disk@),
            final(self)@.wf(),
    {
        reveal(AppV::annotation_deleted);
        self.say("Annotation deleted");
        self.invalidate_pre_expand_cache();
        self.drop_annotation(id);
        self.rebuild_for(path, disk);
    }

    fn clamp_list_idx(&mut self)
        ensures
            final(self)@ == (AppV {
                list_idx: lesser(
                    old(self)@.list_idx,
                    less_one(old(self)@.annotations.len() as int),
                ),
                ..old(self)@
            }),
            old(self)@.wf() ==> final(self)@.wf(),
    {
        reveal(App::model);
        let ghost s0 = self@;
        let n = self.all_annotations.len();
        assert(s0.annotations.len() == n);
        self.annotation_list_idx = min_usize(self.annotation_list_idx, last_index(n));
        assert(self@ == (AppV { list_idx: self@.list_idx, ..s0 }));
    }

    /// Takes in what a statement has done.
    pub fn after_store(&mut self, next: Next, row_id: i64, rows: Vec<Annotation>, disk: &Disk)
        requires
            old(self)@.wf(),
        ensures
            final(self)@ == old(self)@.after_store(
                next@,
                row_id,
                annotation_views(rows@),
                disk@,
            ),
            final(self)@.wf(),
    {
        match next {
            Next::Added(a) => self.finish_add(row_id, a, disk),
            Next::Edited { id, content, annotation_type } => self.finish_edit(
                id,
                content,
                annotation_type,
                disk,
            ),
            Next::Deleted { id, file_path } => self.finish_delete(id, file_path.as_str(), disk),
            Next::Reload => {
                reveal(AppV::annotations_reloaded);
                self.set_annotations(rows);
                self.build_display_lines(disk);
            },
            Next::ReloadList => {
                reveal(AppV::list_reloaded);
                self.set_annotations(rows);
                self.build_display_lines(disk);
                self.clamp_list_idx();
            },
        }
    }
}

fn find_covering(list: &[Annotation], path: &str, side: Side, line: u32) -> (r: Option<usize>)
    ensures
        opt_idx(r) == covering(annotation_views(list@), 0, path@, side, line),
        r matches Some(i) ==> i < list@.len(),
{
    let ghost av = annotation_views(list@);
    let mut i: usize = 0;
    while i < list.len()
        invariant
            i <= list@.len(),
            av == annotation_views(list@),
            covering(av, 0, path@, side, line) == covering(av, i as int, path@, side, line),
        decreases list@.len() - i,
    {
        assert(av[i as int] == list@[i as int]@);
        if str_eq(list[i].file_path.as_str(), path) && list[i].side == side && list[i].covers(
            line,
        ) {
            return Some(i);
        }
        i = i + 1;
    }
    None
}

// ---------------------------------------------------------------------------
// Laws
// ---------------------------------------------------------------------------
proof fn lemma_without_absent(list: Seq<AnnotationV>, id: i64)
    requires
        forall|i: int| 0 <= i < list.len() ==> (#[trigger] list[i]).id != id,
    ensures
        without_id(list, id) == list,
    decreases list.len(),
{
    if list.len() > 0 {
        assert(list[list.len() - 1].id != id);
        lemma_without_absent(list.drop_last(), id);
        assert(list.drop_last().push(list.last()) =~= list);
    }
}

proof fn lemma_with_id_last(list: Seq<AnnotationV>, i: int, id: i64)
    requires
        0 <= i < list.len(),
        list.last().id == id,
        forall|k: int| 0 <= k < list.len() - 1 ==> (#[trigger] list[k]).id != id,
    ensures
        with_id(list, i, id) == Some(list.len() - 1),
    decreases list.len() - i,
{
    if i < list.len() - 1 {
        assert(list[i].id != id);
        lemma_with_id_last(list, i + 1, id);
    }
}

proof fn lemma_rebuilt_keeps(s: AppV, path: Seq<char>, disk: DiskV)
    ensures
        s.rebuilt_for(path, disk).annotations == s.annotations,
        s.rebuilt_for(path, disk).files == s.files,
{
    lemma_built_frame(s, disk);
    if s.index.contains_key(path) {
        lemma_updated_frame(s, s.index[path] as int, disk);
    }
}

/// An annotation that was added is found by its id, beside those that were
/// there. Once it is deleted, only those are left.
pub proof fn law_add_and_delete(s: AppV, id: i64, a: NewAnnotationV, disk: DiskV, later: DiskV)
    requires
        forall|i: int| 0 <= i < s.annotations.len() ==> (#[trigger] s.annotations[i]).id != id,
    ensures
        ({
            let t = s.annotation_added(id, a, disk);
            &&& t.annotations == s.annotations.push(stored(id, s.repo_id, a))
            &&& with_id(t.annotations, 0, id) == Some(s.annotations.len() as int)
            &&& t.annotation_deleted(id, a.file_path, later).annotations == s.annotations
        }),
{
    reveal(AppV::annotation_added);
    reveal(AppV::annotation_deleted);
    let list = s.annotations.push(stored(id, s.repo_id, a));
    let u = s.saying("Annotation added"@).without_saved().annotated(list);
    lemma_rebuilt_keeps(u, a.file_path, disk);
    let t = s.annotation_added(id, a, disk);
    assert(t.annotations == list);
    lemma_with_id_last(list, 0, id);
    assert(list.drop_last() =~= s.annotations);
    lemma_without_absent(s.annotations, id);
    let v = t.saying("Annotation deleted"@).without_saved().annotated(without_id(list, id));
    lemma_rebuilt_keeps(v, a.file_path, later);
}

/// Editing an annotation changes its content and its type, and no other
/// annotation.
pub proof fn law_edit_changes_one(
    s: AppV,
    id: i64,
    content: Seq<char>,
    annotation_type: AnnotationType,
    disk: DiskV,
)
    ensures
        ({
            let t = s.annotation_edited(id, content, annotation_type, disk);
            match with_id(s.annotations, 0, id) {
                Some(i) => t.annotations == s.annotations.update(
                    i,
                    AnnotationV { content, annotation_type, ..s.annotations[i] },
                ),
                None => t.annotations == s.annotations,
            }
        }),
{
    reveal(AppV::annotation_edited);
    let u = s.saying("Annotation updated"@).without_saved();
    match with_id(s.annotations, 0, id) {
        Some(i) => {
            let list = s.annotations.update(
                i,
                AnnotationV { content, annotation_type, ..s.annotations[i] },
            );
            lemma_rebuilt_keeps(u.annotated(list), s.annotations[i].file_path, disk);
        },
        None => {},
    }
}

/// The anchor of a line holds the line and its neighbours: the two lines above it
/// and the two below it, as far as the file has them.
pub proof fn law_anchor_neighbours(lines: Seq<Seq<char>>, line_no: u32)
    requires
        1 <= line_no <= lines.len(),
    ensures
        ({
            let a = anchor_of(lines, line_no);
            let i = line_no - 1;
            let n = lines.len();
            &&& a.line == line_no
            &&& a.text == lines[i]
            &&& i == 0 ==> a.before.len() == 0
            &&& i == 1 ==> a.before == lines[0]
            &&& i >= 2 ==> a.before == lines[i - 2] + seq!['\n'] + lines[i - 1]
            &&& i == n - 1 ==> a.after.len() == 0
            &&& i == n - 2 ==> a.after == lines[i + 1]
            &&& i <= n - 3 ==> a.after == lines[i + 1] + seq!['\n'] + lines[i + 2]
        }),
{
    let a = anchor_of(lines, line_no);
    let i = line_no - 1;
    let n = lines.len();
    reveal_strlit("\n");
    assert("\n"@ =~= seq!['\n']);
    if i >= 2 {
        let two = lines.subrange(i - 2, i);
        assert(two.drop_last() =~= seq![lines[i - 2]]);
        assert(two.last() == lines[i - 1]);
        assert(joined(two.drop_last(), "\n"@) == lines[i - 2]);
    }
    if i <= n - 3 {
        let two = lines.subrange(i + 1, i + 3);
        assert(two.drop_last() =~= seq![lines[i + 1]]);
        assert(two.last() == lines[i + 2]);
        assert(joined(two.drop_last(), "\n"@) == lines[i + 1]);
    }
}

/// An annotation that is written for a range of lines covers exactly these lines
/// when it is stored, and one that is written for the line that the cursor is on
/// covers exactly the number of that line. It is one of the cursor's file, and
/// holds what was typed.
pub proof fn law_saved_covers_selected(
    s: AppV,
    disk: DiskV,
    id: i64,
    line: DiffLineV,
    path: Seq<char>,
    lo: u32,
    hi: u32,
)
    requires
        s.screen.line(s.screen.cursor) matches Some(DisplayLineV::Diff { line: l, file_path, .. })
            && l == line && file_path == path,
        lo <= hi,
        s.annotation_range == Some((lo, hi)) || (s.annotation_range is None && lo == hi && (
        line.new_line_no == Some(lo) || (line.new_line_no is None && line.old_line_no == Some(
            lo,
        )))),
    ensures
        s.draft(disk) matches Some(d) && ({
            let a = stored(id, s.repo_id, d);
            &&& a.start_line == lo
            &&& hi == (match a.end_line {
                Some(end) => end,
                None => a.start_line,
            })
            &&& forall|n: u32| #[trigger] a.covers(n) <==> lo <= n <= hi
            &&& a.id == id
            &&& a.file_path == path
            &&& a.content == typed_text(s.input)
            &&& a.annotation_type == s.annotation_type
            &&& a.resolved_at is None
            &&& s.annotation_side matches Some(side) ==> a.side == side
            &&& s.annotation_side is None ==> (a.side == Side::New <==> line.new_line_no is Some)
            &&& a.anchor_line == lo
        }),
{
    reveal(AppV::draft);
}

/// An annotation of the new side is anchored to the line of the file that it
/// begins at; one of a file that cannot be read, or of the old side, to the line
/// as it is shown.
pub proof fn law_saved_anchored(s: AppV, disk: DiskV, d: NewAnnotationV)
    requires
        s.draft(disk) == Some(d),
    ensures
        d.side == Side::New ==> (disk.lossy_of(d.file_path) matches Some(text) ==> 1
            <= d.start_line <= lines_of(text).len() ==> d.anchor_text == lines_of(
            text,
        )[d.start_line - 1]),
        d.side == Side::Old || disk.lossy_of(d.file_path) is None ==> (s.screen.line(
            s.screen.cursor,
        ) matches Some(DisplayLineV::Diff { line, .. }) && d.anchor_text == line.content),
        d.anchor_line == d.start_line,
{
    reveal(AppV::draft);
}

/// Every line that an added annotation covers is marked, the first of them as the
/// beginning; the marks of other files and of the other side stay.
pub proof fn law_added_is_marked(list: Seq<AnnotationV>, a: AnnotationV, path: Seq<char>, side: Side, n: u32)
    ensures
        ({
            let before = crate::display::marker_of(list, path, side, n);
            let now = crate::display::marker_of(list.push(a), path, side, n);
            let last = match a.end_line {
                Some(end) => end,
                None => a.start_line,
            };
            if a.file_path == path && a.side == side && a.start_line <= n && n <= last {
                &&& now is Some
                &&& n == a.start_line ==> now == Some('●')
                &&& n != a.start_line && before is None ==> now == Some('│')
            } else {
                now == before
            }
        }),
{
    let more = list.push(a);
    assert(more[list.len() as int] == a);
    assert forall|at: bool|
        crate::display::marks(list, path, side, n, at) implies crate::display::marks(
        more,
        path,
        side,
        n,
        at,
    ) by {
        let k = choose|k: int|
            0 <= k < list.len() && (#[trigger] list[k]).file_path == path && list[k].side == side
                && list[k].covers(n) && (list[k].start_line == n) == at;
        assert(more[k] == list[k]);
    }
    let hit = a.file_path == path && a.side == side && a.covers(n);
    assert forall|at: bool|
        crate::display::marks(more, path, side, n, at) implies crate::display::marks(
        list,
        path,
        side,
        n,
        at,
    ) || (hit && (a.start_line == n) == at) by {
        let k = choose|k: int|
            0 <= k < more.len() && (#[trigger] more[k]).file_path == path && more[k].side == side
                && more[k].covers(n) && (more[k].start_line == n) == at;
        if k < list.len() {
            assert(more[k] == list[k]);
        }
    }
    if hit {
        let at = a.start_line == n;
        assert(crate::display::marks(more, path, side, n, at)) by {
            assert(more[list.len() as int].file_path == path);
        }
    }
}

/// The line that the cursor is on has an annotation exactly if some annotation of
/// its file and side covers its number; of several, the first.
pub proof fn law_annotation_here(s: AppV, line: DiffLineV, path: Seq<char>, no: u32)
    requires
        s.screen.line(s.screen.cursor) matches Some(DisplayLineV::Diff { line: l, file_path, .. })
            && l == line && file_path == path,
        line.new_line_no == Some(no) || (line.new_line_no is None && line.old_line_no == Some(no)),
    ensures
        match s.annotation_here() {
            Some(i) => {
                &&& 0 <= i < s.annotations.len()
                &&& s.annotations[i].file_path == path
                &&& s.annotations[i].side == Side::New <==> line.new_line_no is Some
                &&& s.annotations[i].covers(no)
                &&& forall|k: int|
                    0 <= k < i ==> !((#[trigger] s.annotations[k]).file_path == path
                        && s.annotations[k].side == annotated_side(line)
                        && s.annotations[k].covers(no))
            },
            None => forall|k: int|
                0 <= k < s.annotations.len() ==> !((#[trigger] s.annotations[k]).file_path == path
                    && s.annotations[k].side == annotated_side(line) && s.annotations[k].covers(
                    no,
                )),
        },
{
    reveal(AppV::annotation_here);
    lemma_covering(s.annotations, 0, path, annotated_side(line), no);
}

proof fn lemma_covering(list: Seq<AnnotationV>, i: int, path: Seq<char>, side: Side, line: u32)
    requires
        0 <= i,
    ensures
        match covering(list, i, path, side, line) {
            Some(k) => {
                &&& i <= k < list.len()
                &&& list[k].file_path == path
                &&& list[k].side == side
                &&& list[k].covers(line)
                &&& forall|j: int|
                    i <= j < k ==> !((#[trigger] list[j]).file_path == path && list[j].side == side
                        && list[j].covers(line))
            },
            None => forall|j: int|
                i <= j < list.len() ==> !((#[trigger] list[j]).file_path == path && list[j].side
                    == side && list[j].covers(line)),
        },
    decreases list.len() - i,
{
    if i < list.len() {
        lemma_covering(list, i + 1, path, side, line);
    }
}

} // verus!
