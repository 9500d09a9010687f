//! What the application asks to be done outside of it.
use vstd::prelude::*;

use crate::config::AiTarget;
use crate::storage::{AnnotationType, NewAnnotation, NewAnnotationV, Statement, StatementV};
use crate::text::texts;

verus! {

/// What is done in the application once a statement has been run.
#[derive(Debug)]
pub enum Next {
    /// An annotation was inserted; its id is that of the row.
    Added(NewAnnotation),
    /// An annotation has a new content and type.
    Edited { id: i64, content: String, annotation_type: AnnotationType },
    /// An annotation was deleted.
    Deleted { id: i64, file_path: String },
    /// Annotations are to be read again.
    Reload,
    /// Annotations are to be read again for their list.
    ReloadList,
}

/// The value of a [`Next`].
pub enum NextV {
    Added(NewAnnotationV),
    Edited { id: i64, content: Seq<char>, annotation_type: AnnotationType },
    Deleted { id: i64, file_path: Seq<char> },
    Reload,
    ReloadList,
}

impl View for Next {
    type V = NextV;

    open spec fn view(&self) -> NextV {
        match self {
            Next::Added(a) => NextV::Added(a@),
            Next::Edited { id, content, annotation_type } => NextV::Edited {
                id: *id,
                content: content@,
                annotation_type: *annotation_type,
            },
            Next::Deleted { id, file_path } => NextV::Deleted { id: *id, file_path: file_path@ },
            Next::Reload => NextV::Reload,
            Next::ReloadList => NextV::ReloadList,
        }
    }
}

/// What a patch is for.
#[derive(Debug, Clone, Copy, PartialEq, Eq, Structural)]
pub enum PatchKind {
    Stage,
    Unstage,
    Discard,
}

/// What is to be done outside of the application.
#[derive(Debug)]
pub enum Action {
    Idle,
    Quit,
    /// A text is to be copied to the clipboard.
    Copy(String),
    /// A statement is to be run.
    Store { statement: Statement, next: Next },
    /// A patch is to be handed to git with these arguments.
    Patch { kind: PatchKind, args: Vec<String>, patch: String, file_idx: usize, hunk_idx: usize },
    /// Annotations are to be read again, and the diff is to be loaded.
    LoadDiff,
    /// The program of this target is to be run with these arguments, for the job
    /// with this id.
    RunAi { job_id: u64, target: AiTarget, args: Vec<String> },
    /// The application ends with an error.
    Fail(String),
}

/// The value of an [`Action`].
#[allow(inconsistent_fields)]
pub enum ActionV {
    Idle,
    Quit,
    Copy(Seq<char>),
    Store { statement: StatementV, next: NextV },
    Patch { kind: PatchKind, args: Seq<Seq<char>>, patch: Seq<char>, file_idx: int, hunk_idx: int },
    LoadDiff,
    RunAi { job_id: u64, target: AiTarget, args: Seq<Seq<char>> },
    Fail(Seq<char>),
}

impl View for Action {
    type V = ActionV;

    open spec fn view(&self) -> ActionV {
        match self {
            Action::Idle => ActionV::Idle,
            Action::Quit => ActionV::Quit,
            Action::Copy(s) => ActionV::Copy(s@),
            Action::Store { statement, next } => ActionV::Store {
                statement: statement@,
                next: next@,
            },
            Action::Patch { kind, args, patch, file_idx, hunk_idx } => ActionV::Patch {
                kind: *kind,
                args: texts(args@),
                patch: patch@,
                file_idx: *file_idx as int,
                hunk_idx: *hunk_idx as int,
            },
            Action::LoadDiff => ActionV::LoadDiff,
            Action::RunAi { job_id, target, args } => ActionV::RunAi {
                job_id: *job_id,
                target: *target,
                args: texts(args@),
            },
            Action::Fail(s) => ActionV::Fail(s@),
        }
    }
}

} // verus!
