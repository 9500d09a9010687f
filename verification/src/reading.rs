//! What the application tells of its state.
use vstd::prelude::*;

use crate::config::Config;
use crate::diff::{file_views, DiffFile, DiffMode};
use crate::display::DisplayLine;
use crate::outside::Editor;
use crate::schedule::{job_views, HighlightJob, Highlights, HighlightsV};
use crate::screen::Screen;
use crate::state::{ai_views, opt_search, AiJob, App, AppV, SearchState};
use crate::storage::{annotation_views, Annotation};
use crate::syntax::opt_str;
use crate::text::texts;

verus! {

impl App {
    /// The settings.
    pub fn config(&self) -> (r: &Config)
        ensures
            *r == self@.config,
    {
        reveal(App::model);
        &self.config
    }

    /// What is compared.
    pub fn diff_mode(&self) -> (r: &DiffMode)
        ensures
            r@ == self@.diff_mode,
    {
        reveal(App::model);
        &self.diff_mode
    }

    /// The paths that the diff is restricted to.
    pub fn diff_paths(&self) -> (r: &[String])
        ensures
            texts(r@) == self@.diff_paths,
    {
        reveal(App::model);
        self.diff_paths.as_slice()
    }

    /// The files of the diff.
    pub fn files(&self) -> (r: &[DiffFile])
        ensures
            file_views(r@) == self@.files,
    {
        reveal(App::model);
        self.files.as_slice()
    }

    /// The files that have come in and are not shown yet.
    pub fn pending_files(&self) -> (r: &[DiffFile])
        ensures
            file_views(r@) == self@.pending_files,
    {
        reveal(App::model);
        self.pending_stream_files.as_slice()
    }

    /// The place of a file in the diff.
    pub fn place_of_file(&self, path: &str) -> (r: Option<usize>)
        ensures
            match r {
                Some(i) => self@.index.contains_key(path@) && self@.index[path@] == i,
                None => !self@.index.contains_key(path@),
            },
    {
        reveal(App::model);
        match self.diff_file_index.get(path) {
            Some(i) => Some(*i),
            None => None,
        }
    }

    /// The screen.
    pub fn screen(&self) -> (r: &Screen)
        ensures
            r@ == self@.screen,
    {
        reveal(App::model);
        &self.screen
    }

    /// The annotations.
    pub fn annotations(&self) -> (r: &[Annotation])
        ensures
            annotation_views(r@) == self@.annotations,
    {
        reveal(App::model);
        self.all_annotations.as_slice()
    }

    /// An annotation.
    pub fn annotation_at(&self, i: usize) -> (r: &Annotation)
        requires
            i < self@.annotations.len(),
        ensures
            r@ == self@.annotations[i as int],
    {
        reveal(App::model);
        &self.all_annotations[i]
    }

    /// A line of the display.
    pub fn line_at(&self, i: usize) -> (r: &DisplayLine)
        requires
            i < self@.screen.lines.len(),
        ensures
            r@ == self@.screen.lines[i as int],
    {
        reveal(App::model);
        &self.screen.display_lines[i]
    }

    /// The highlights that are known.
    pub fn highlights(&self) -> (r: &Highlights)
        ensures
            r@ == self@.highlights,
    {
        reveal(App::model);
        &self.highlights
    }

    /// Hands out the jobs that have been set up.
    pub fn take_jobs(&mut self) -> (r: Vec<HighlightJob>)
        ensures
            job_views(r@) == old(self)@.highlights.jobs,
            final(self)@ == (AppV {
                highlights: HighlightsV { jobs: Seq::empty(), ..old(self)@.highlights },
                ..old(self)@
            }),
            old(self)@.wf() ==> final(self)@.wf(),
    {
        reveal(App::model);
        let ghost s0 = self@;
        let mut jobs: Vec<HighlightJob> = Vec::new();
        jobs.append(&mut self.highlights.jobs);
        assert(job_views(jobs@) =~= s0.highlights.jobs);
        assert(job_views(self.highlights.jobs@) =~= Seq::empty());
        assert(self@ == (AppV {
            highlights: HighlightsV { jobs: Seq::empty(), ..s0.highlights },
            ..s0
        }));
        jobs
    }

    /// The message.
    pub fn message(&self) -> (r: Option<&str>)
        ensures
            opt_str(r) == self@.message,
    {
        reveal(App::model);
        match &self.message {
            Some(m) => Some(m.as_str()),
            None => None,
        }
    }

    /// The text input.
    pub fn input(&self) -> (r: &Editor)
        ensures
            *r == self@.input,
    {
        reveal(App::model);
        &self.annotation_input
    }

    /// The lines that an annotation is written for.
    pub fn annotation_range(&self) -> (r: Option<(u32, u32)>)
        ensures
            r == self@.annotation_range,
    {
        reveal(App::model);
        self.annotation_range
    }

    /// The search.
    pub fn search(&self) -> (r: &Option<SearchState>)
        ensures
            opt_search(*r) == self@.search,
    {
        reveal(App::model);
        &self.search
    }

    /// What was sent to AI programs.
    pub fn ai_jobs(&self) -> (r: &[AiJob])
        ensures
            ai_views(r@) == self@.ai_jobs,
    {
        reveal(App::model);
        self.ai_jobs.as_slice()
    }

    /// Whether files have changed since the diff was loaded.
    pub fn fs_pending(&self) -> (r: bool)
        ensures
            r == self@.fs_pending,
    {
        reveal(App::model);
        self.fs_pending
    }

    /// How far the help is scrolled.
    pub fn help_scroll(&self) -> (r: usize)
        ensures
            r == self@.help_scroll,
    {
        reveal(App::model);
        self.help_scroll
    }
}

} // verus!
