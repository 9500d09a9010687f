//! Staging, unstaging and discarding hunks.
use vstd::prelude::*;

use crate::action::{Action, ActionV, PatchKind};
use crate::diff::{
    build_hunk_patch, file_views, hunk_views, patch_of, DiffFile, DiffFileV, DiffHunk,
    DiffHunkV, DiffMode, DiffModeV,
};
use crate::display::{opt_idx, DisplayLineV};
use crate::names::closed_up;
use crate::outside::str_eq;
use crate::state::{App, AppV, Disk, DiskV};
use crate::text::{contains, has_text, opt_text, texts};
use crate::stream::indexed;

verus! {

/// The hunks with one more, in front of the first that starts behind it.
pub open spec fn insert_hunk(hunks: Seq<DiffHunkV>, i: int, hunk: DiffHunkV) -> Seq<DiffHunkV>
    decreases hunks.len() - i,
{
    if !(0 <= i < hunks.len()) {
        hunks.push(hunk)
    } else if hunks[i].new_start > hunk.new_start {
        hunks.insert(i, hunk)
    } else {
        insert_hunk(hunks, i + 1, hunk)
    }
}

/// The first file from `i` on with a path.
pub open spec fn file_named(files: Seq<DiffFileV>, i: int, path: Seq<char>) -> Option<int>
    decreases files.len() - i,
{
    if !(0 <= i < files.len()) {
        None
    } else if files[i].path() == path {
        Some(i)
    } else {
        file_named(files, i + 1, path)
    }
}

/// The files with a hunk of a file moved to them.
pub open spec fn with_hunk(files: Seq<DiffFileV>, file: DiffFileV, hunk: DiffHunkV) -> Seq<DiffFileV> {
    match file_named(files, 0, file.path()) {
        Some(i) => files.update(
            i,
            DiffFileV { hunks: insert_hunk(files[i].hunks, 0, hunk), ..files[i] },
        ),
        None => files.push(DiffFileV { hunks: seq![hunk], ..file }),
    }
}

/// The arguments that git takes a patch for the index with. A file that is not
/// in the index yet is announced first, unless the patch does so.
pub open spec fn index_args(patch: Seq<char>, reverse: bool) -> Seq<Seq<char>> {
    if reverse {
        seq!["apply"@, "--cached"@, "-R"@]
    } else if has_text(patch, "--- /dev/null\n"@) && !has_text(patch, "new file mode"@) {
        seq!["apply"@, "--cached"@, "--intent-to-add"@]
    } else {
        seq!["apply"@, "--cached"@]
    }
}

impl AppV {
    /// With a hunk taken out of its file, if the file has it.
    #[verifier::opaque]
    pub open spec fn hunk_taken(self, f: int, h: int) -> AppV {
        let file = self.files[f];
        let left = if h < file.hunks.len() {
            file.hunks.remove(h)
        } else {
            file.hunks
        };
        AppV { files: self.files.update(f, DiffFileV { hunks: left, ..file }), ..self }
    }

    /// With a file taken out of the diff.
    #[verifier::opaque]
    pub open spec fn file_taken(self, f: int) -> AppV {
        AppV {
            files: self.files.remove(f),
            index: closed_up(self.index, f as usize),
            ..self
        }
    }

    /// Without a hunk, and without its file if that was the last one.
    #[verifier::opaque]
    pub open spec fn without_hunk(self, f: int, h: int, disk: DiskV) -> AppV {
        let s = self.hunk_taken(f, h);
        let t = if s.files[f].hunks.len() == 0 {
            s.file_taken(f).built(disk)
        } else {
            s.with_file_updated(f, disk)
        };
        t.on(t.screen.landed().adjusted(t.files.len() as int))
    }

    /// With a hunk moved to the files that the other one of the two views of the
    /// index shows, if they are known.
    #[verifier::opaque]
    pub open spec fn with_other_cache(self, file: DiffFileV, hunk: DiffHunkV) -> AppV {
        match (self.diff_mode, self.cached_staged, self.cached_unstaged) {
            (DiffModeV::Unstaged, Some(files), _) => AppV {
                cached_staged: Some(with_hunk(files, file, hunk)),
                ..self
            },
            (DiffModeV::Staged, _, Some(files)) => AppV {
                cached_unstaged: Some(with_hunk(files, file, hunk)),
                ..self
            },
            _ => self,
        }
    }

    /// With a hunk staged or unstaged: it leaves the view, and where its file
    /// stays it goes over to the other one.
    #[verifier::opaque]
    pub open spec fn hunk_staged(self, f: int, h: int, disk: DiskV) -> AppV {
        if 0 <= f < self.files.len() && 0 <= h < self.files[f].hunks.len() {
            let s = self.without_hunk(f, h, disk);
            if self.files[f].hunks.len() > 1 {
                s.with_other_cache(self.files[f], self.files[f].hunks[h])
            } else {
                s
            }
        } else {
            self
        }
    }

    /// With a hunk discarded.
    #[verifier::opaque]
    pub open spec fn hunk_discarded(self, f: int, h: int, disk: DiskV) -> AppV {
        if 0 <= f < self.files.len() {
            let s = self.without_hunk(f, h, disk);
            if s.diff_mode == DiffModeV::Unstaged {
                AppV { cached_unstaged: Some(s.files), ..s }
            } else {
                s
            }
        } else {
            self
        }
    }

    /// The hunk that the cursor is on, if the diff has it; else what to say.
    pub open spec fn hunk_here(self, elsewhere: Seq<char>) -> Result<(int, int), Seq<char>> {
        match self.screen.current_hunk() {
            None => Err(elsewhere),
            Some((f, h)) => if f >= self.files.len() {
                Err("File not found"@)
            } else if h >= self.files[f].hunks.len() {
                Err("Hunk not found"@)
            } else {
                Ok((f, h))
            },
        }
    }

    /// Staging or unstaging the hunk that the cursor is on.
    #[verifier::opaque]
    pub open spec fn staging(self) -> (AppV, ActionV) {
        match self.diff_mode {
            DiffModeV::Unstaged | DiffModeV::Staged => {
                let reverse = self.diff_mode == DiffModeV::Staged;
                match self.hunk_here("Move to a diff hunk to stage/unstage"@) {
                    Err(message) => (self.saying(message), ActionV::Idle),
                    Ok((f, h)) => {
                        let patch = patch_of(self.files[f], self.files[f].hunks[h]);
                        (
                            self,
                            ActionV::Patch {
                                kind: if reverse {
                                    PatchKind::Unstage
                                } else {
                                    PatchKind::Stage
                                },
                                args: index_args(patch, reverse),
                                patch,
                                file_idx: f,
                                hunk_idx: h,
                            },
                        )
                    },
                }
            },
            _ => (self.saying("Staging only works for unstaged/staged diffs"@), ActionV::Idle),
        }
    }

    /// Discarding the hunk that the cursor is on.
    #[verifier::opaque]
    pub open spec fn discarding(self) -> (AppV, ActionV) {
        match self.diff_mode {
            DiffModeV::Unstaged => match self.hunk_here("Move to a diff hunk to discard"@) {
                Err(message) => (self.saying(message), ActionV::Idle),
                Ok((f, h)) => (
                    self,
                    ActionV::Patch {
                        kind: PatchKind::Discard,
                        args: seq!["apply"@, "-R"@],
                        patch: patch_of(self.files[f], self.files[f].hunks[h]),
                        file_idx: f,
                        hunk_idx: h,
                    },
                ),
            },
            _ => (self.saying("Discard only works for unstaged changes"@), ActionV::Idle),
        }
    }

    /// Once git has taken a patch, or refused it with an error.
    pub open spec fn after_patch(
        self,
        kind: PatchKind,
        f: int,
        h: int,
        error: Option<Seq<char>>,
        disk: DiskV,
    ) -> AppV {
        match (kind, error) {
            (PatchKind::Discard, Some(e)) => self.saying("Discard failed: "@ + e),
            (_, Some(e)) => self.saying("Stage/unstage failed: "@ + e),
            (PatchKind::Discard, None) => self.saying("Discarded hunk"@).without_saved().hunk_discarded(
                f,
                h,
                disk,
            ),
            (PatchKind::Stage, None) => self.saying("Staged hunk"@).without_saved().hunk_staged(
                f,
                h,
                disk,
            ),
            (PatchKind::Unstage, None) => self.saying("Unstaged hunk"@).without_saved().hunk_staged(
                f,
                h,
                disk,
            ),
        }
    }
}

/// The error that is shown when git refuses a patch.
pub fn patch_error(stderr: &str) -> (r: String)
    ensures
        r@ == (if crate::text::trimmed(stderr@).len() == 0 {
            "git apply failed"@
        } else {
            crate::text::trimmed(stderr@)
        }),
{
    let s = crate::text::trim(stderr);
    if s.as_str().is_empty() {
        "git apply failed".to_owned()
    } else {
        s
    }
}

fn position_of_hunk(hunks: &[DiffHunk], hunk: &DiffHunk) -> (r: usize)
    ensures
        r <= hunks@.len(),
        insert_hunk(hunk_views(hunks@), 0, hunk@) == hunk_views(hunks@).insert(r as int, hunk@),
{
    let ghost hv = hunk_views(hunks@);
    let mut i: usize = 0;
    while i < hunks.len()
        invariant
            i <= hunks@.len(),
            hv == hunk_views(hunks@),
            insert_hunk(hv, 0, hunk@) == insert_hunk(hv, i as int, hunk@),
        decreases hunks@.len() - i,
    {
        assert(hv[i as int] == hunks@[i as int]@);
        if hunks[i].new_start > hunk.new_start {
            return i;
        }
        i = i + 1;
    }
    assert(hv.insert(i as int, hunk@) =~= hv.push(hunk@));
    i
}

fn find_file(files: &[DiffFile], path: &str) -> (r: Option<usize>)
    ensures
        opt_idx(r) == file_named(file_views(files@), 0, path@),
        r matches Some(i) ==> i < files@.len(),
{
    let ghost fv = file_views(files@);
    let mut i: usize = 0;
    while i < files.len()
        invariant
            i <= files@.len(),
            fv == file_views(files@),
            file_named(fv, 0, path@) == file_named(fv, i as int, path@),
        decreases files@.len() - i,
    {
        assert(fv[i as int] == files@[i as int]@);
        if str_eq(files[i].path().as_str(), path) {
            return Some(i);
        }
        i = i + 1;
    }
    None
}

/// Moves a hunk of a file to other files.
fn move_hunk(files: &mut Vec<DiffFile>, file: &DiffFile, hunk: DiffHunk)
    ensures
        file_views(final(files)@) == with_hunk(file_views(old(files)@), file@, hunk@),
{
    let ghost fv = file_views(files@);
    let ghost hv = hunk@;
    match find_file(files, file.path().as_str()) {
        Some(i) => {
            let mut target = files[i].clone();
            assert(fv[i as int] == target@);
            let at = position_of_hunk(&target.hunks, &hunk);
            let ghost before = target@;
            target.hunks.insert(at, hunk);
            assert(target@.hunks =~= before.hunks.insert(at as int, hv));
            let ghost tv = target@;
            files.set(i, target);
            assert(file_views(files@) =~= fv.update(i as int, tv));
        },
        None => {
            let mut hunks: Vec<DiffHunk> = Vec::new();
            hunks.push(hunk);
            let target = DiffFile {
                old_path: file.old_path.clone(),
                new_path: file.new_path.clone(),
                status: file.status,
                hunks,
            };
            assert(target@.hunks =~= seq![hv]);
            let ghost tv = target@;
            files.push(target);
            assert(file_views(files@) =~= fv.push(tv));
        },
    }
}

fn apply_args(patch: &str, reverse: bool) -> (v: Vec<String>)
    ensures
        texts(v@) == index_args(patch@, reverse),
{
    let mut v: Vec<String> = Vec::new();
    v.push("apply".to_owned());
    v.push("--cached".to_owned());
    if reverse {
        v.push("-R".to_owned());
    } else if contains(patch, "--- /dev/null\n") && !contains(patch, "new file mode") {
        v.push("--intent-to-add".to_owned());
    }
    assert(texts(v@) =~= index_args(patch@, reverse));
    v
}

impl App {
    /// Takes a hunk out of its file, if it has it. Tells whether the file has
    /// hunks left.
    fn take_hunk(&mut self, f: usize, h: usize) -> (r: bool)
        requires
            old(self)@.wf(),
            f < old(self)@.files.len(),
        ensures
            final(self)@ == old(self)@.hunk_taken(f as int, h as int),
            r == (final(self)@.files[f as int].hunks.len() > 0),
            final(self)@.files.len() == old(self)@.files.len(),
            final(self)@.wf(),
    {
        reveal(App::model);
        reveal(AppV::hunk_taken);
        let ghost s0 = self@;
        assert(s0.files.len() == self.files@.len());
        let mut file = self.files[f].clone();
        let ghost before = file@;
        assert(s0.files[f as int] == before);
        assert(before.hunks.len() == file.hunks@.len());
        if h < file.hunks.len() {
            file.hunks.remove(h);
            assert(file@.hunks =~= before.hunks.remove(h as int));
        }
        let left = file.hunks.len() > 0;
        let ghost after = file@;
        assert(after.hunks.len() == file.hunks@.len());
        self.files.set(f, file);
        assert(self@.files =~= s0.files.update(f as int, after));
        assert(self@ == (AppV { files: s0.files.update(f as int, after), ..s0 }));
        left
    }

    /// Takes a file out of the diff.
    fn take_file(&mut self, f: usize)
        requires
            old(self)@.wf(),
            f < old(self)@.files.len(),
        ensures
            final(self)@ == old(self)@.file_taken(f as int),
            final(self)@.wf(),
    {
        reveal(App::model);
        reveal(AppV::file_taken);
        let ghost s0 = self@;
        assert(s0.files.len() == self.files@.len());
        self.files.remove(f);
        self.diff_file_index.close_up(f);
        assert(self@.files =~= s0.files.remove(f as int));
        assert(self@ == (AppV {
            files: s0.files.remove(f as int),
            index: closed_up(s0.index, f),
            ..s0
        }));
    }

    fn drop_hunk(&mut self, f: usize, h: usize, disk: &Disk)
        requires
            old(self)@.wf(),
            f < old(self)@.files.len(),
        ensures
            final(self)@ == old(self)@.without_hunk(f as int, h as int, disk@),
            final(self)@.wf(),
    {
        reveal(AppV::without_hunk);
        if self.take_hunk(f, h) {
            self.update_display_lines_for_file(f, disk);
        } else {
            self.take_file(f);
            self.build_display_lines(disk);
        }
        self.land_and_adjust();
    }

    /// A copy of a hunk and its file, and whether the file has other hunks.
    fn copy_hunk(&self, f: usize, h: usize) -> (r: Option<(DiffFile, DiffHunk, bool)>)
        ensures
            match r {
                Some((file, hunk, more)) => {
                    &&& f < self@.files.len()
                    &&& file@ == self@.files[f as int]
                    &&& h < file@.hunks.len()
                    &&& hunk@ == file@.hunks[h as int]
                    &&& more == (file@.hunks.len() > 1)
                },
                None => !(f < self@.files.len() && h < self@.files[f as int].hunks.len()),
            },
    {
        reveal(App::model);
        assert(self@.files.len() == self.files@.len());
        if f >= self.files.len() {
            return None;
        }
        let file = self.files[f].clone();
        assert(self@.files[f as int] == file@);
        assert(file@.hunks.len() == file.hunks@.len());
        if h >= file.hunks.len() {
            return None;
        }
        let hunk = file.hunks[h].clone();
        assert(file@.hunks[h as int] == hunk@);
        let more = file.hunks.len() > 1;
        Some((file, hunk, more))
    }

    fn apply_stage_other_cache(&mut self, file: &DiffFile, hunk: DiffHunk)
        requires
            old(self)@.wf(),
        ensures
            final(self)@ == old(self)@.with_other_cache(file@, hunk@),
            final(self)@.wf(),
    {
        reveal(App::model);
        reveal(AppV::with_other_cache);
        let ghost s0 = self@;
        match self.diff_mode {
            DiffMode::Unstaged => {
                if let Some(files) = self.cached_staged.take() {
                    let mut files = files;
                    move_hunk(&mut files, file, hunk);
                    self.cached_staged = Some(files);
                }
            },
            DiffMode::Staged => {
                if let Some(files) = self.cached_unstaged.take() {
                    let mut files = files;
                    move_hunk(&mut files, file, hunk);
                    self.cached_unstaged = Some(files);
                }
            },
            _ => {},
        }
        assert(self@ == s0.with_other_cache(file@, hunk@));
    }

    /// Takes a hunk out of the view once it was staged or unstaged.
    pub fn apply_stage_local(&mut self, file_idx: usize, hunk_idx: usize, disk: &Disk)
        requires
            old(self)@.wf(),
        ensures
            final(self)@ == old(self)@.hunk_staged(file_idx as int, hunk_idx as int, disk@),
            final(self)@.wf(),
    {
        reveal(AppV::hunk_staged);
        if let Some((file, hunk, more)) = self.copy_hunk(file_idx, hunk_idx) {
            self.drop_hunk(file_idx, hunk_idx, disk);
            if more {
                self.apply_stage_other_cache(&file, hunk);
            }
        }
    }

    fn cache_unstaged(&mut self)
        requires
            old(self)@.wf(),
        ensures
            final(self)@ == (if old(self)@.diff_mode == DiffModeV::Unstaged {
                AppV { cached_unstaged: Some(old(self)@.files), ..old(self)@ }
            } else {
                old(self)@
            }),
            final(self)@.wf(),
    {
        reveal(App::model);
        let ghost s0 = self@;
        if let DiffMode::Unstaged = self.diff_mode {
            let files = self.files.clone();
            assert(file_views(files@) =~= s0.files);
            self.cached_unstaged = Some(files);
            assert(self@ == (AppV { cached_unstaged: Some(s0.files), ..s0 }));
        }
    }

    /// Takes a hunk out of the view once it was discarded.
    pub fn apply_discard_local(&mut self, file_idx: usize, hunk_idx: usize, disk: &Disk)
        requires
            old(self)@.wf(),
        ensures
            final(self)@ == old(self)@.hunk_discarded(file_idx as int, hunk_idx as int, disk@),
            final(self)@.wf(),
    {
        reveal(AppV::hunk_discarded);
        if file_idx < self.file_count() {
            self.drop_hunk(file_idx, hunk_idx, disk);
            self.cache_unstaged();
        }
    }

    /// The hunk that the cursor is on, if the diff has it; else what to say.
    fn find_hunk_here(&self, elsewhere: &str) -> (r: Result<(usize, usize, String), String>)
        ensures
            match self@.hunk_here(elsewhere@) {
                Ok((f, h)) => r matches Ok((a, b, patch)) && a == f && b == h && patch@
                    == patch_of(self@.files[f], self@.files[f].hunks[h]),
                Err(message) => r matches Err(s) && s@ == message,
            },
    {
        reveal(App::model);
        let (f, h) = match self.screen.current_hunk_ref() {
            Some(place) => place,
            None => {
                return Err(elsewhere.to_owned());
            },
        };
        assert(self@.files.len() == self.files@.len());
        if f >= self.files.len() {
            return Err("File not found".to_owned());
        }
        let file = &self.files[f];
        assert(self@.files[f as int] == file@);
        assert(file@.hunks.len() == file.hunks@.len());
        if h >= file.hunks.len() {
            return Err("Hunk not found".to_owned());
        }
        assert(file@.hunks[h as int] == file.hunks@[h as int]@);
        Ok((f, h, build_hunk_patch(file, &file.hunks[h])))
    }

    /// Whether the index is shown: unstaged changes (`Some(false)`) or staged
    /// ones (`Some(true)`).
    pub fn index_view(&self) -> (r: Option<bool>)
        ensures
            r == (match self@.diff_mode {
                DiffModeV::Unstaged => Some(false),
                DiffModeV::Staged => Some(true),
                _ => None,
            }),
    {
        reveal(App::model);
        match &self.diff_mode {
            DiffMode::Unstaged => Some(false),
            DiffMode::Staged => Some(true),
            _ => None,
        }
    }

    /// Stages or unstages the hunk that the cursor is on.
    pub fn toggle_stage_current_hunk(&mut self) -> (r: Action)
        requires
            old(self)@.wf(),
        ensures
            (final(self)@, r@) == old(self)@.staging(),
            final(self)@.wf(),
    {
        reveal(AppV::staging);
        let reverse = match self.index_view() {
            Some(reverse) => reverse,
            None => {
                self.say("Staging only works for unstaged/staged diffs");
                return Action::Idle;
            },
        };
        match self.find_hunk_here("Move to a diff hunk to stage/unstage") {
            Err(message) => {
                self.say(message.as_str());
                Action::Idle
            },
            Ok((f, h, patch)) => Action::Patch {
                kind: if reverse {
                    PatchKind::Unstage
                } else {
                    PatchKind::Stage
                },
                args: apply_args(patch.as_str(), reverse),
                patch,
                file_idx: f,
                hunk_idx: h,
            },
        }
    }

    /// Discards the hunk that the cursor is on.
    pub fn discard_current_hunk(&mut self) -> (r: Action)
        requires
            old(self)@.wf(),
        ensures
            (final(self)@, r@) == old(self)@.discarding(),
            final(self)@.wf(),
    {
        reveal(AppV::discarding);
        let unstaged = match self.index_view() {
            Some(reverse) => !reverse,
            None => false,
        };
        if !unstaged {
            self.say("Discard only works for unstaged changes");
            return Action::Idle;
        }
        match self.find_hunk_here("Move to a diff hunk to discard") {
            Err(message) => {
                self.say(message.as_str());
                Action::Idle
            },
            Ok((f, h, patch)) => {
                let mut args: Vec<String> = Vec::new();
                args.push("apply".to_owned());
                args.push("-R".to_owned());
                assert(texts(args@) =~= seq!["apply"@, "-R"@]);
                Action::Patch { kind: PatchKind::Discard, args, patch, file_idx: f, hunk_idx: h }
            },
        }
    }

    /// Takes in what git has done with a patch.
    pub fn after_patch(
        &mut self,
        kind: PatchKind,
        file_idx: usize,
        hunk_idx: usize,
        error: Option<String>,
        disk: &Disk,
    )
        requires
            old(self)@.wf(),
        ensures
            final(self)@ == old(self)@.after_patch(
                kind,
                file_idx as int,
                hunk_idx as int,
                opt_text(error),
                disk@,
            ),
            final(self)@.wf(),
    {
        match error {
            Some(e) => {
                let mut message = match kind {
                    PatchKind::Discard => "Discard failed: ".to_owned(),
                    _ => "Stage/unstage failed: ".to_owned(),
                };
                message.push_str(e.as_str());
                self.set_message(Some(message));
            },
            None => match kind {
                PatchKind::Discard => {
                    self.say("Discarded hunk");
                    self.invalidate_pre_expand_cache();
                    self.apply_discard_local(file_idx, hunk_idx, disk);
                },
                PatchKind::Stage => {
                    self.say("Staged hunk");
                    self.invalidate_pre_expand_cache();
                    self.apply_stage_local(file_idx, hunk_idx, disk);
                },
                PatchKind::Unstage => {
                    self.say("Unstaged hunk");
                    self.invalidate_pre_expand_cache();
                    self.apply_stage_local(file_idx, hunk_idx, disk);
                },
            },
        }
    }
}

// ---------------------------------------------------------------------------
// Laws
// ---------------------------------------------------------------------------
/// Whether the hunks of a file are ordered by where they start.
pub open spec fn hunks_ordered(hunks: Seq<DiffHunkV>) -> bool {
    forall|i: int, j: int|
        0 <= i < j < hunks.len() ==> (#[trigger] hunks[i]).new_start <= (
        #[trigger] hunks[j]).new_start
}

proof fn lemma_insert_hunk(hunks: Seq<DiffHunkV>, i: int, hunk: DiffHunkV)
    requires
        0 <= i <= hunks.len(),
        hunks_ordered(hunks),
        forall|k: int| 0 <= k < i ==> (#[trigger] hunks[k]).new_start <= hunk.new_start,
    ensures
        hunks_ordered(insert_hunk(hunks, i, hunk)),
        insert_hunk(hunks, i, hunk).len() == hunks.len() + 1,
        insert_hunk(hunks, i, hunk).contains(hunk),
    decreases hunks.len() - i,
{
    let now = insert_hunk(hunks, i, hunk);
    if i == hunks.len() {
        assert(now[hunks.len() as int] == hunk);
    } else if hunks[i].new_start > hunk.new_start {
        assert(now[i] == hunk);
        assert forall|a: int, b: int| 0 <= a < b < now.len() implies (#[trigger] now[a]).new_start
            <= (#[trigger] now[b]).new_start by {
            let x = if a < i {
                a
            } else {
                a - 1
            };
            let y = if b < i {
                b
            } else {
                b - 1
            };
            if a != i {
                assert(now[a] == hunks[x]);
            }
            if b != i {
                assert(now[b] == hunks[y]);
            }
            if a == i {
                assert(hunks[i].new_start <= hunks[y].new_start);
            }
        }
    } else {
        lemma_insert_hunk(hunks, i + 1, hunk);
    }
}

/// A hunk that goes over to the other view keeps the hunks of its file ordered.
pub proof fn law_moved_hunk_ordered(hunks: Seq<DiffHunkV>, hunk: DiffHunkV)
    requires
        hunks_ordered(hunks),
    ensures
        hunks_ordered(insert_hunk(hunks, 0, hunk)),
        insert_hunk(hunks, 0, hunk).len() == hunks.len() + 1,
        insert_hunk(hunks, 0, hunk).contains(hunk),
{
    lemma_insert_hunk(hunks, 0, hunk);
}

/// How many hunks files have.
pub open spec fn hunk_count(files: Seq<DiffFileV>) -> nat
    decreases files.len(),
{
    if files.len() == 0 {
        0
    } else {
        hunk_count(files.drop_last()) + files.last().hunks.len()
    }
}

proof fn lemma_hunk_count_update(files: Seq<DiffFileV>, i: int, file: DiffFileV)
    requires
        0 <= i < files.len(),
    ensures
        hunk_count(files.update(i, file)) == hunk_count(files) - files[i].hunks.len()
            + file.hunks.len(),
    decreases files.len(),
{
    let now = files.update(i, file);
    if i == files.len() - 1 {
        assert(now.drop_last() =~= files.drop_last());
    } else {
        assert(now.drop_last() =~= files.drop_last().update(i, file));
        lemma_hunk_count_update(files.drop_last(), i, file);
    }
}

proof fn lemma_hunk_count_remove(files: Seq<DiffFileV>, i: int)
    requires
        0 <= i < files.len(),
    ensures
        hunk_count(files.remove(i)) == hunk_count(files) - files[i].hunks.len(),
    decreases files.len(),
{
    let now = files.remove(i);
    if i == files.len() - 1 {
        assert(now =~= files.drop_last());
    } else {
        assert(now.drop_last() =~= files.drop_last().remove(i));
        lemma_hunk_count_remove(files.drop_last(), i);
    }
}

/// Staging a hunk takes that one hunk out of the view.
pub proof fn law_staging_removes_one(s: AppV, f: int, h: int, disk: DiskV)
    requires
        0 <= f < s.files.len(),
        0 <= h < s.files[f].hunks.len(),
    ensures
        hunk_count(s.hunk_staged(f, h, disk).files) == hunk_count(s.files) - 1,
        hunk_count(s.hunk_discarded(f, h, disk).files) == hunk_count(s.files) - 1,
{
    reveal(AppV::hunk_staged);
    reveal(AppV::hunk_discarded);
    reveal(AppV::with_other_cache);
    reveal(AppV::without_hunk);
    reveal(AppV::hunk_taken);
    reveal(AppV::file_taken);
    let file = s.files[f];
    let left = file.hunks.remove(h);
    let changed = DiffFileV { hunks: left, ..file };
    let t = s.hunk_taken(f, h);
    lemma_hunk_count_update(s.files, f, changed);
    lemma_hunk_count_remove(t.files, f);
    let u = t.file_taken(f);
    crate::compose::lemma_built_frame(u, disk);
    crate::views::lemma_updated_frame(t, f, disk);
}

proof fn lemma_file_named(files: Seq<DiffFileV>, i: int, path: Seq<char>)
    requires
        0 <= i <= files.len(),
    ensures
        file_named(files, i, path) matches Some(k) ==> i <= k < files.len() && files[k].path()
            == path,
    decreases files.len() - i,
{
    if i < files.len() && files[i].path() != path {
        lemma_file_named(files, i + 1, path);
    }
}

/// A hunk that is staged while its file has others is found in the files that
/// the other view shows, if those are known, and they have one hunk more.
pub proof fn law_staged_hunk_moves(s: AppV, f: int, h: int, disk: DiskV, known: Seq<DiffFileV>)
    requires
        0 <= f < s.files.len(),
        0 <= h < s.files[f].hunks.len(),
        s.files[f].hunks.len() > 1,
        s.diff_mode == DiffModeV::Unstaged,
        s.cached_staged == Some(known),
    ensures
        s.hunk_staged(f, h, disk).cached_staged == Some(
            with_hunk(known, s.files[f], s.files[f].hunks[h]),
        ),
        hunk_count(with_hunk(known, s.files[f], s.files[f].hunks[h])) == hunk_count(known) + 1,
{
    reveal(AppV::hunk_staged);
    reveal(AppV::with_other_cache);
    reveal(AppV::without_hunk);
    reveal(AppV::hunk_taken);
    let file = s.files[f];
    let hunk = file.hunks[h];
    let t = s.hunk_taken(f, h);
    crate::views::lemma_updated_frame(t, f, disk);
    lemma_file_named(known, 0, file.path());
    match file_named(known, 0, file.path()) {
        Some(i) => {
            lemma_insert_len(known[i].hunks, 0, hunk);
            lemma_hunk_count_update(
                known,
                i,
                DiffFileV { hunks: insert_hunk(known[i].hunks, 0, hunk), ..known[i] },
            );
        },
        None => {
            let now = with_hunk(known, file, hunk);
            assert(now.drop_last() =~= known);
        },
    }
}

proof fn lemma_insert_len(hunks: Seq<DiffHunkV>, i: int, hunk: DiffHunkV)
    requires
        0 <= i <= hunks.len(),
    ensures
        insert_hunk(hunks, i, hunk).len() == hunks.len() + 1,
    decreases hunks.len() - i,
{
    if i < hunks.len() && hunks[i].new_start <= hunk.new_start {
        lemma_insert_len(hunks, i + 1, hunk);
    }
}

/// Taking a hunk out of the diff, and its file with it if that was the last
/// one, keeps the index of the files.
pub proof fn law_staging_keeps_index(s: AppV, f: int, h: int, disk: DiskV)
    requires
        0 <= f < s.files.len(),
        s.files.len() <= usize::MAX,
        indexed(s.files, s.index),
    ensures
        ({
            let t = s.without_hunk(f, h, disk);
            indexed(t.files, t.index)
        }),
{
    reveal(AppV::without_hunk);
    reveal(AppV::hunk_taken);
    reveal(AppV::file_taken);
    let taken = s.hunk_taken(f, h);
    assert(taken.files[f].path() == s.files[f].path());
    assert forall|i: int| 0 <= i < taken.files.len() implies taken.index.contains_key(
        (#[trigger] taken.files[i]).path(),
    ) && taken.index[taken.files[i].path()] == i by {
        assert(s.index.contains_key(s.files[i].path()));
    }
    assert(indexed(taken.files, taken.index));
    if taken.files[f].hunks.len() == 0 {
        let gone = taken.file_taken(f);
        crate::compose::lemma_built_frame(gone, disk);
        assert forall|i: int| 0 <= i < gone.files.len() implies gone.index.contains_key(
            (#[trigger] gone.files[i]).path(),
        ) && gone.index[gone.files[i].path()] == i by {
            if i < f {
                assert(gone.files[i] == taken.files[i]);
            } else {
                assert(gone.files[i] == taken.files[i + 1]);
            }
        }
        assert forall|p: Seq<char>| #[trigger] gone.index.contains_key(p) implies gone.index[p]
            < gone.files.len() && gone.files[gone.index[p] as int].path() == p by {
            assert(taken.index.contains_key(p));
        }
    } else {
        crate::views::lemma_updated_frame(taken, f, disk);
    }
}

/// Whether a word is among arguments.
pub open spec fn among(args: Seq<Seq<char>>, word: Seq<char>) -> bool {
    exists|i: int| 0 <= i < args.len() && #[trigger] args[i] == word
}

/// Staging takes the hunk that the cursor is on, as a patch, to the index: forwards
/// in the view of what is not staged, in reverse in the view of what is. In other
/// diffs nothing is done.
pub proof fn law_stages_hunk_here(s: AppV, f: int, h: int)
    requires
        0 <= f < s.files.len(),
        0 <= h < s.files[f].hunks.len(),
        s.screen.line(s.screen.cursor) matches Some(DisplayLineV::Diff { file_idx, hunk_idx, .. })
            && file_idx == f && hunk_idx == Some(h),
    ensures
        s.diff_mode is Unstaged || s.diff_mode is Staged ==> (s.staging().1 matches ActionV::Patch {
            kind,
            args,
            patch,
            file_idx,
            hunk_idx,
        } && {
            &&& patch == patch_of(s.files[f], s.files[f].hunks[h])
            &&& file_idx == f
            &&& hunk_idx == h
            &&& args.len() >= 1 && args[0] == "apply"@
            &&& among(args, "--cached"@)
            &&& among(args, "-R"@) <==> s.diff_mode is Staged
            &&& kind == PatchKind::Unstage <==> s.diff_mode is Staged
            &&& kind == PatchKind::Stage <==> s.diff_mode is Unstaged
        }),
        !(s.diff_mode is Unstaged || s.diff_mode is Staged) ==> s.staging().1 == ActionV::Idle,
        s.diff_mode is Unstaged ==> (s.discarding().1 matches ActionV::Patch {
            kind,
            args,
            patch,
            file_idx,
            hunk_idx,
        } && {
            &&& patch == patch_of(s.files[f], s.files[f].hunks[h])
            &&& file_idx == f
            &&& hunk_idx == h
            &&& kind == PatchKind::Discard
            &&& args.len() >= 1 && args[0] == "apply"@
            &&& among(args, "-R"@)
            &&& !among(args, "--cached"@)
        }),
        !(s.diff_mode is Unstaged) ==> s.discarding().1 == ActionV::Idle,
        s.staging().0.files == s.files,
        s.discarding().0.files == s.files,
{
    reveal(AppV::staging);
    reveal(AppV::discarding);
    reveal_strlit("apply");
    reveal_strlit("--cached");
    reveal_strlit("-R");
    reveal_strlit("--intent-to-add");
    assert("-R"@.len() == 2 && "--cached"@.len() == 8 && "--intent-to-add"@.len() == 15
        && "apply"@.len() == 5);
    let patch = patch_of(s.files[f], s.files[f].hunks[h]);
    let back = index_args(patch, true);
    let forth = index_args(patch, false);
    let away = seq!["apply"@, "-R"@];
    assert(back[1] == "--cached"@ && back[2] == "-R"@);
    assert(forth[1] == "--cached"@);
    assert(away[1] == "-R"@);
    assert forall|i: int| 0 <= i < forth.len() implies #[trigger] forth[i] != "-R"@ by {}
    assert forall|i: int| 0 <= i < away.len() implies #[trigger] away[i] != "--cached"@ by {}
}

/// A hunk that was staged, unstaged or discarded is gone from the view: its file
/// keeps its other hunks in their order, or is gone too if it has no other, and the
/// other files stay as they are.
pub proof fn law_hunk_gone(s: AppV, f: int, h: int, disk: DiskV)
    requires
        0 <= f < s.files.len(),
        0 <= h < s.files[f].hunks.len(),
    ensures
        ({
            let t = s.hunk_staged(f, h, disk).files;
            let n = s.files[f].hunks.len();
            &&& t == s.hunk_discarded(f, h, disk).files
            &&& n == 1 ==> t.len() == s.files.len() - 1 && forall|i: int|
                0 <= i < t.len() ==> #[trigger] t[i] == (if i < f {
                    s.files[i]
                } else {
                    s.files[i + 1]
                })
            &&& n > 1 ==> {
                &&& t.len() == s.files.len()
                &&& forall|i: int| 0 <= i < t.len() && i != f ==> #[trigger] t[i] == s.files[i]
                &&& t[f].old_path == s.files[f].old_path
                &&& t[f].new_path == s.files[f].new_path
                &&& t[f].status == s.files[f].status
                &&& t[f].hunks.len() == n - 1
                &&& forall|j: int|
                    0 <= j < n - 1 ==> #[trigger] t[f].hunks[j] == (if j < h {
                        s.files[f].hunks[j]
                    } else {
                        s.files[f].hunks[j + 1]
                    })
            }
        }),
{
    reveal(AppV::hunk_staged);
    reveal(AppV::hunk_discarded);
    reveal(AppV::with_other_cache);
    reveal(AppV::without_hunk);
    reveal(AppV::hunk_taken);
    reveal(AppV::file_taken);
    let t = s.hunk_taken(f, h);
    let u = t.file_taken(f);
    crate::compose::lemma_built_frame(u, disk);
    crate::views::lemma_updated_frame(t, f, disk);
}

/// A hunk that git refused to take changes no file, and one that it took is gone.
pub proof fn law_refused_patch(s: AppV, kind: PatchKind, f: int, h: int, e: Seq<char>, disk: DiskV)
    ensures
        s.after_patch(kind, f, h, Some(e), disk).files == s.files,
        s.after_patch(kind, f, h, Some(e), disk).screen == s.screen,
        s.after_patch(kind, f, h, Some(e), disk).message matches Some(m) && m.len() > e.len(),
{
    reveal_strlit("Discard failed: ");
    reveal_strlit("Stage/unstage failed: ");
}

proof fn lemma_insert_hunk_at(hunks: Seq<DiffHunkV>, i: int, hunk: DiffHunkV) -> (p: int)
    requires
        0 <= i <= hunks.len(),
        forall|k: int| 0 <= k < i ==> (#[trigger] hunks[k]).new_start <= hunk.new_start,
    ensures
        0 <= p <= hunks.len(),
        insert_hunk(hunks, i, hunk) == hunks.insert(p, hunk),
        forall|k: int| 0 <= k < p ==> (#[trigger] hunks[k]).new_start <= hunk.new_start,
        p < hunks.len() ==> hunks[p].new_start > hunk.new_start,
    decreases hunks.len() - i,
{
    if i == hunks.len() {
        assert(hunks.insert(i, hunk) =~= hunks.push(hunk));
        i
    } else if hunks[i].new_start > hunk.new_start {
        i
    } else {
        lemma_insert_hunk_at(hunks, i + 1, hunk)
    }
}

/// A hunk that goes over to other files is put into the file with its path, behind
/// the hunks that start no later than it and in front of the next one; the hunks
/// that were there stay, and so do the other files. Where no file has the path, a
/// file with this one hunk is added at the end.
pub proof fn law_hunk_put(files: Seq<DiffFileV>, file: DiffFileV, hunk: DiffHunkV) -> (r: (int, int))
    ensures
        ({
            let now = with_hunk(files, file, hunk);
            let (i, p) = r;
            if exists|k: int| 0 <= k < files.len() && (#[trigger] files[k]).path() == file.path() {
                &&& 0 <= i < files.len()
                &&& files[i].path() == file.path()
                &&& now.len() == files.len()
                &&& forall|k: int| 0 <= k < files.len() && k != i ==> #[trigger] now[k] == files[k]
                &&& 0 <= p <= files[i].hunks.len()
                &&& now[i].path() == file.path()
                &&& now[i].hunks == files[i].hunks.insert(p, hunk)
                &&& forall|k: int|
                    0 <= k < p ==> (#[trigger] files[i].hunks[k]).new_start <= hunk.new_start
                &&& p < files[i].hunks.len() ==> files[i].hunks[p].new_start > hunk.new_start
            } else {
                &&& now.len() == files.len() + 1
                &&& now.drop_last() == files
                &&& now.last().path() == file.path()
                &&& now.last().status == file.status
                &&& now.last().hunks.len() == 1
                &&& now.last().hunks[0] == hunk
            }
        }),
{
    lemma_file_named(files, 0, file.path());
    lemma_file_named_first(files, 0, file.path());
    match file_named(files, 0, file.path()) {
        Some(i) => {
            let p = lemma_insert_hunk_at(files[i].hunks, 0, hunk);
            assert(files[i].path() == file.path());
            (i, p)
        },
        None => {
            assert(with_hunk(files, file, hunk).drop_last() =~= files);
            (0, 0)
        },
    }
}

proof fn lemma_file_named_first(files: Seq<DiffFileV>, i: int, path: Seq<char>)
    requires
        0 <= i <= files.len(),
    ensures
        file_named(files, i, path) is None ==> forall|k: int|
            i <= k < files.len() ==> (#[trigger] files[k]).path() != path,
    decreases files.len() - i,
{
    if i < files.len() && files[i].path() != path {
        lemma_file_named_first(files, i + 1, path);
    }
}

/// Unstaging is the mirror of staging: the hunk goes over to what is not staged.
pub proof fn law_unstaged_hunk_moves(s: AppV, f: int, h: int, disk: DiskV, known: Seq<DiffFileV>)
    requires
        0 <= f < s.files.len(),
        0 <= h < s.files[f].hunks.len(),
        s.files[f].hunks.len() > 1,
        s.diff_mode == DiffModeV::Staged,
        s.cached_unstaged == Some(known),
    ensures
        s.hunk_staged(f, h, disk).cached_unstaged == Some(
            with_hunk(known, s.files[f], s.files[f].hunks[h]),
        ),
        s.hunk_staged(f, h, disk).cached_staged == s.cached_staged,
{
    reveal(AppV::hunk_staged);
    reveal(AppV::with_other_cache);
    reveal(AppV::without_hunk);
    reveal(AppV::hunk_taken);
    let t = s.hunk_taken(f, h);
    crate::views::lemma_updated_frame(t, f, disk);
}

} // verus!
