//! Diffs: files, hunks and lines, and how they are assembled.
use vstd::prelude::*;

use crate::number::{dec, decimal};
use crate::outside::str_eq;
use crate::syntax::TextStyle;
use crate::text::{chars_of, lines, lines_of, opt_text, string_of, texts};

verus! {

/// A styled byte range within a line.
#[derive(Debug, Clone, Copy, PartialEq, Eq)]
pub struct HighlightRange {
    pub start: usize,
    pub end: usize,
    pub style: TextStyle,
}

/// A byte range within a line that differs from the line it is paired with.
#[derive(Debug, Clone, Copy, PartialEq, Eq, Structural)]
pub struct InlineRange {
    pub start: usize,
    pub end: usize,
}

/// What a line of a hunk is.
#[derive(Debug, Clone, Copy, PartialEq, Eq, Structural)]
pub enum LineKind {
    Context,
    Addition,
    Deletion,
}

/// What has happened to a file.
#[derive(Debug, Clone, Copy, PartialEq, Eq, Structural)]
pub enum FileStatus {
    Added,
    Deleted,
    Modified,
    Renamed,
}

/// A single line in a diff.
#[derive(Debug)]
pub struct DiffLine {
    pub kind: LineKind,
    pub old_line_no: Option<u32>,
    pub new_line_no: Option<u32>,
    pub content: String,
    pub highlights: Vec<HighlightRange>,
    pub inline_ranges: Vec<InlineRange>,
}

/// A hunk of changes within a file.
#[derive(Debug)]
pub struct DiffHunk {
    pub old_start: u32,
    pub old_lines: u32,
    pub new_start: u32,
    pub new_lines: u32,
    pub header: Option<String>,
    pub lines: Vec<DiffLine>,
}

/// A changed file in a diff.
#[derive(Debug)]
pub struct DiffFile {
    pub old_path: Option<String>,
    pub new_path: Option<String>,
    pub status: FileStatus,
    pub hunks: Vec<DiffHunk>,
}

/// The value of a [`DiffLine`].
#[verifier::ext_equal]
pub struct DiffLineV {
    pub kind: LineKind,
    pub old_line_no: Option<u32>,
    pub new_line_no: Option<u32>,
    pub content: Seq<char>,
    pub highlights: Seq<HighlightRange>,
    pub inline_ranges: Seq<InlineRange>,
}

/// The value of a [`DiffHunk`].
#[verifier::ext_equal]
pub struct DiffHunkV {
    pub old_start: u32,
    pub old_lines: u32,
    pub new_start: u32,
    pub new_lines: u32,
    pub header: Option<Seq<char>>,
    pub lines: Seq<DiffLineV>,
}

/// The value of a [`DiffFile`].
#[verifier::ext_equal]
pub struct DiffFileV {
    pub old_path: Option<Seq<char>>,
    pub new_path: Option<Seq<char>>,
    pub status: FileStatus,
    pub hunks: Seq<DiffHunkV>,
}

/// The values of a list of lines.
pub open spec fn line_views(lines: Seq<DiffLine>) -> Seq<DiffLineV> {
    Seq::new(lines.len(), |i: int| lines[i]@)
}

/// The values of a list of hunks.
pub open spec fn hunk_views(hunks: Seq<DiffHunk>) -> Seq<DiffHunkV> {
    Seq::new(hunks.len(), |i: int| hunks[i]@)
}

/// The values of a list of files.
pub open spec fn file_views(files: Seq<DiffFile>) -> Seq<DiffFileV> {
    Seq::new(files.len(), |i: int| files[i]@)
}

impl View for DiffLine {
    type V = DiffLineV;

    open spec fn view(&self) -> DiffLineV {
        DiffLineV {
            kind: self.kind,
            old_line_no: self.old_line_no,
            new_line_no: self.new_line_no,
            content: self.content@,
            highlights: self.highlights@,
            inline_ranges: self.inline_ranges@,
        }
    }
}

impl View for DiffHunk {
    type V = DiffHunkV;

    open spec fn view(&self) -> DiffHunkV {
        DiffHunkV {
            old_start: self.old_start,
            old_lines: self.old_lines,
            new_start: self.new_start,
            new_lines: self.new_lines,
            header: opt_text(self.header),
            lines: line_views(self.lines@),
        }
    }
}

impl View for DiffFile {
    type V = DiffFileV;

    open spec fn view(&self) -> DiffFileV {
        DiffFileV {
            old_path: opt_text(self.old_path),
            new_path: opt_text(self.new_path),
            status: self.status,
            hunks: hunk_views(self.hunks@),
        }
    }
}

impl Clone for DiffLine {
    fn clone(&self) -> (r: Self)
        ensures
            r@ == self@,
    {
        let r = DiffLine {
            kind: self.kind,
            old_line_no: self.old_line_no,
            new_line_no: self.new_line_no,
            content: self.content.clone(),
            highlights: self.highlights.clone(),
            inline_ranges: self.inline_ranges.clone(),
        };
        assert(r.highlights@ =~= self.highlights@);
        assert(r.inline_ranges@ =~= self.inline_ranges@);
        r
    }
}

impl Clone for DiffHunk {
    fn clone(&self) -> (r: Self)
        ensures
            r@ == self@,
    {
        let r = DiffHunk {
            old_start: self.old_start,
            old_lines: self.old_lines,
            new_start: self.new_start,
            new_lines: self.new_lines,
            header: self.header.clone(),
            lines: self.lines.clone(),
        };
        assert(line_views(r.lines@) =~= line_views(self.lines@));
        r
    }
}

impl Clone for DiffFile {
    fn clone(&self) -> (r: Self)
        ensures
            r@ == self@,
    {
        let r = DiffFile {
            old_path: self.old_path.clone(),
            new_path: self.new_path.clone(),
            status: self.status,
            hunks: self.hunks.clone(),
        };
        assert(hunk_views(r.hunks@) =~= hunk_views(self.hunks@));
        r
    }
}

// ---------------------------------------------------------------------------
// Paths
// ---------------------------------------------------------------------------
impl DiffFileV {
    /// The key of the highlights of the file's old text.
    pub open spec fn old_key(self) -> Seq<char> {
        match self.old_path {
            Some(p) => p,
            None => Seq::empty(),
        }
    }

    /// The key of the highlights of the file's new text.
    pub open spec fn new_key(self) -> Seq<char> {
        match self.any_path() {
            Some(p) => p,
            None => Seq::empty(),
        }
    }

    /// The path of the file: the new one, else the old one.
    pub open spec fn any_path(self) -> Option<Seq<char>> {
        match self.new_path {
            Some(p) => Some(p),
            None => self.old_path,
        }
    }

    /// The path under which the file is shown.
    pub open spec fn path(self) -> Seq<char> {
        match self.any_path() {
            Some(p) => p,
            None => "<unknown>"@,
        }
    }
}

impl DiffFile {
    /// The path of the file: the new one, else the old one.
    pub fn any_path(&self) -> (r: Option<String>)
        ensures
            opt_text(r) == self@.any_path(),
    {
        match &self.new_path {
            Some(p) => Some(p.clone()),
            None => self.old_path.clone(),
        }
    }

    /// The path under which the file is shown.
    pub fn path(&self) -> (r: String)
        ensures
            r@ == self@.path(),
    {
        match self.any_path() {
            Some(p) => p,
            None => "<unknown>".to_owned(),
        }
    }

    /// The keys of the file's highlights: the one that it is shown under, that
    /// of its old text, and that of its new text.
    pub fn highlight_keys(&self) -> (r: (String, String, String))
        ensures
            r.0@ == self@.path(),
            r.1@ == self@.old_key(),
            r.2@ == self@.new_key(),
    {
        let old_key = match &self.old_path {
            Some(p) => p.clone(),
            None => {
                let s = String::new();
                assert(s@ =~= Seq::empty());
                s
            },
        };
        let new_key = match self.any_path() {
            Some(p) => p,
            None => {
                let s = String::new();
                assert(s@ =~= Seq::empty());
                s
            },
        };
        (self.path(), old_key, new_key)
    }
}

// ---------------------------------------------------------------------------
// What is compared
// ---------------------------------------------------------------------------
/// What a diff is between.
#[derive(Debug)]
pub enum DiffMode {
    /// The working tree and the index.
    Unstaged,
    /// The index and `HEAD`.
    Staged,
    /// The working tree and a revision.
    WorkingTree { base: String },
    /// Two revisions.
    Commits { from: String, to: String },
    /// A revision and its merge base with another one.
    MergeBase { from: String, to: String },
    /// Two files that git has put aside.
    ExternalDiff { path: String, old_file: String, new_file: String },
}

/// The value of a [`DiffMode`].
pub enum DiffModeV {
    Unstaged,
    Staged,
    WorkingTree { base: Seq<char> },
    Commits { from: Seq<char>, to: Seq<char> },
    MergeBase { from: Seq<char>, to: Seq<char> },
    ExternalDiff { path: Seq<char>, old_file: Seq<char>, new_file: Seq<char> },
}

impl View for DiffMode {
    type V = DiffModeV;

    open spec fn view(&self) -> DiffModeV {
        match self {
            DiffMode::Unstaged => DiffModeV::Unstaged,
            DiffMode::Staged => DiffModeV::Staged,
            DiffMode::WorkingTree { base } => DiffModeV::WorkingTree { base: base@ },
            DiffMode::Commits { from, to } => DiffModeV::Commits { from: from@, to: to@ },
            DiffMode::MergeBase { from, to } => DiffModeV::MergeBase { from: from@, to: to@ },
            DiffMode::ExternalDiff { path, old_file, new_file } => DiffModeV::ExternalDiff {
                path: path@,
                old_file: old_file@,
                new_file: new_file@,
            },
        }
    }
}

impl Clone for DiffMode {
    fn clone(&self) -> (r: Self)
        ensures
            r@ == self@,
    {
        match self {
            DiffMode::Unstaged => DiffMode::Unstaged,
            DiffMode::Staged => DiffMode::Staged,
            DiffMode::WorkingTree { base } => DiffMode::WorkingTree { base: base.clone() },
            DiffMode::Commits { from, to } => DiffMode::Commits {
                from: from.clone(),
                to: to.clone(),
            },
            DiffMode::MergeBase { from, to } => DiffMode::MergeBase {
                from: from.clone(),
                to: to.clone(),
            },
            DiffMode::ExternalDiff { path, old_file, new_file } => DiffMode::ExternalDiff {
                path: path.clone(),
                old_file: old_file.clone(),
                new_file: new_file.clone(),
            },
        }
    }
}

/// Where the text of a file is read from.
#[derive(Debug)]
pub enum Source {
    /// A file of the working tree.
    Working(String),
    /// What `git show` prints of an object.
    Show(String),
}

/// The value of a [`Source`].
pub enum SourceV {
    Working(Seq<char>),
    Show(Seq<char>),
}

impl View for Source {
    type V = SourceV;

    open spec fn view(&self) -> SourceV {
        match self {
            Source::Working(p) => SourceV::Working(p@),
            Source::Show(s) => SourceV::Show(s@),
        }
    }
}

/// The value of an optional source.
pub open spec fn opt_source(s: Option<Source>) -> Option<SourceV> {
    match s {
        Some(v) => Some(v@),
        None => None,
    }
}

/// A path at a revision, as `git show` takes it. The index has no name.
pub open spec fn object_at(rev: Seq<char>, path: Seq<char>) -> SourceV {
    SourceV::Show(rev + ":"@ + path)
}

fn show_at(rev: &str, path: &str) -> (r: Source)
    ensures
        r@ == object_at(rev@, path@),
{
    let mut s = rev.to_owned();
    s.push_str(":");
    s.push_str(path);
    Source::Show(s)
}

fn show_in_index(path: &str) -> (r: Source)
    ensures
        r@ == object_at(Seq::empty(), path@),
{
    let mut s = String::new();
    s.push_str(":");
    s.push_str(path);
    assert(s@ =~= Seq::<char>::empty() + ":"@ + path@);
    Source::Show(s)
}

/// Where the new text of a file is read from, for highlighting; a deleted file
/// has none.
pub open spec fn new_text_source(mode: DiffModeV, file: DiffFileV, key: Seq<char>) -> Option<
    SourceV,
> {
    let path = match file.any_path() {
        Some(p) => p,
        None => key,
    };
    if file.status == FileStatus::Deleted {
        None
    } else {
        Some(
            match mode {
                DiffModeV::Staged => object_at(Seq::empty(), path),
                DiffModeV::Commits { to, .. } => object_at(to, path),
                DiffModeV::MergeBase { to, .. } => object_at(to, path),
                _ => SourceV::Working(path),
            },
        )
    }
}

/// Where the new text of a file is read from, for highlighting.
pub fn load_new_file_content_for_highlight(
    diff_mode: &DiffMode,
    file: &DiffFile,
    file_path: &str,
) -> (r: Option<Source>)
    ensures
        opt_source(r) == new_text_source(diff_mode@, file@, file_path@),
{
    if file.status == FileStatus::Deleted {
        return None;
    }
    let path = match file.any_path() {
        Some(p) => p,
        None => file_path.to_owned(),
    };
    Some(
        match diff_mode {
            DiffMode::Staged => show_in_index(path.as_str()),
            DiffMode::Commits { to, .. } => show_at(to.as_str(), path.as_str()),
            DiffMode::MergeBase { to, .. } => show_at(to.as_str(), path.as_str()),
            _ => Source::Working(path),
        },
    )
}

/// Whether some line of the hunks has one of the kinds.
pub open spec fn any_line(hunks: Seq<DiffHunkV>, deleted: bool) -> bool {
    exists|h: int, l: int|
        0 <= h < hunks.len() && 0 <= l < hunks[h].lines.len() && (#[trigger] hunks[h].lines[l].kind
            == LineKind::Deletion) == deleted
}

/// Whether the old text of a file is needed to highlight it.
pub open spec fn needs_old(file: DiffFileV, full_file: bool) -> bool {
    if full_file {
        file.status != FileStatus::Added && file.old_path is Some
    } else {
        file.status == FileStatus::Deleted || any_line(file.hunks, true)
    }
}

/// Whether the new text of a file is needed to highlight it.
pub open spec fn needs_new(file: DiffFileV, full_file: bool) -> bool {
    if full_file {
        file.status != FileStatus::Deleted && file.any_path() is Some
    } else {
        file.status == FileStatus::Added || any_line(file.hunks, false)
    }
}

/// Where the old text of a file is read from. The merge base of two revisions
/// may be unknown.
pub open spec fn old_map_source(
    mode: DiffModeV,
    merge_base: Option<Seq<char>>,
    file: DiffFileV,
    full_file: bool,
) -> Option<SourceV> {
    match file.old_path {
        Some(path) if needs_old(file, full_file) && file.status != FileStatus::Added => match mode {
            DiffModeV::Unstaged => Some(object_at(Seq::empty(), path)),
            DiffModeV::Staged => Some(object_at("HEAD"@, path)),
            DiffModeV::WorkingTree { base } => Some(object_at(base, path)),
            DiffModeV::Commits { from, .. } => Some(object_at(from, path)),
            DiffModeV::MergeBase { .. } => match merge_base {
                Some(base) => Some(object_at(base, path)),
                None => None,
            },
            DiffModeV::ExternalDiff { .. } => None,
        },
        _ => None,
    }
}

/// Where the new text of a file is read from.
pub open spec fn new_map_source(mode: DiffModeV, file: DiffFileV, full_file: bool) -> Option<
    SourceV,
> {
    if !needs_new(file, full_file) || file.status == FileStatus::Deleted {
        None
    } else {
        match (mode, file.new_path) {
            (DiffModeV::ExternalDiff { .. }, _) => match file.any_path() {
                Some(path) => Some(SourceV::Working(path)),
                None => None,
            },
            (_, None) => None,
            (DiffModeV::Unstaged, Some(path)) => Some(SourceV::Working(path)),
            (DiffModeV::WorkingTree { .. }, Some(path)) => Some(SourceV::Working(path)),
            (DiffModeV::Staged, Some(path)) => Some(object_at(Seq::empty(), path)),
            (DiffModeV::Commits { to, .. }, Some(path)) => Some(object_at(to, path)),
            (DiffModeV::MergeBase { to, .. }, Some(path)) => Some(object_at(to, path)),
        }
    }
}

fn has_line(hunks: &[DiffHunk], deleted: bool) -> (r: bool)
    ensures
        r == any_line(hunk_views(hunks@), deleted),
{
    let ghost hv = hunk_views(hunks@);
    let mut h: usize = 0;
    while h < hunks.len()
        invariant
            h <= hunks@.len(),
            hv == hunk_views(hunks@),
            forall|i: int, l: int|
                0 <= i < h && 0 <= l < hv[i].lines.len() ==> (#[trigger] hv[i].lines[l].kind
                    == LineKind::Deletion) != deleted,
        decreases hunks@.len() - h,
    {
        let lines = &hunks[h].lines;
        let mut l: usize = 0;
        while l < lines.len()
            invariant
                h < hunks@.len(),
                hv == hunk_views(hunks@),
                lines == hunks@[h as int].lines,
                l <= lines@.len(),
                forall|k: int|
                    0 <= k < l ==> (#[trigger] hv[h as int].lines[k].kind == LineKind::Deletion)
                        != deleted,
            decreases lines@.len() - l,
        {
            assert(hv[h as int].lines[l as int].kind == lines@[l as int].kind);
            if (lines[l].kind == LineKind::Deletion) == deleted {
                return true;
            }
            l = l + 1;
        }
        h = h + 1;
    }
    false
}

/// Where the old and the new text of a file are read from, to highlight its
/// hunks or the whole of it.
pub fn highlight_sources(
    mode: &DiffMode,
    merge_base: &Option<String>,
    file: &DiffFile,
    full_file: bool,
) -> (r: (Option<Source>, Option<Source>))
    ensures
        opt_source(r.0) == old_map_source(mode@, opt_text(*merge_base), file@, full_file),
        opt_source(r.1) == new_map_source(mode@, file@, full_file),
{
    let need_old = if full_file {
        file.status != FileStatus::Added && file.old_path.is_some()
    } else {
        file.status == FileStatus::Deleted || has_line(&file.hunks, true)
    };
    let need_new = if full_file {
        file.status != FileStatus::Deleted && (file.new_path.is_some() || file.old_path.is_some())
    } else {
        file.status == FileStatus::Added || has_line(&file.hunks, false)
    };
    let old_source = match &file.old_path {
        Some(path) => if need_old && file.status != FileStatus::Added {
            match mode {
                DiffMode::Unstaged => Some(show_in_index(path.as_str())),
                DiffMode::Staged => Some(show_at("HEAD", path.as_str())),
                DiffMode::WorkingTree { base } => Some(show_at(base.as_str(), path.as_str())),
                DiffMode::Commits { from, .. } => Some(show_at(from.as_str(), path.as_str())),
                DiffMode::MergeBase { .. } => match merge_base {
                    Some(base) => Some(show_at(base.as_str(), path.as_str())),
                    None => None,
                },
                DiffMode::ExternalDiff { .. } => None,
            }
        } else {
            None
        },
        None => None,
    };
    let new_source = if !need_new || file.status == FileStatus::Deleted {
        None
    } else {
        match mode {
            DiffMode::ExternalDiff { .. } => match file.any_path() {
                Some(path) => Some(Source::Working(path)),
                None => None,
            },
            _ => match &file.new_path {
                Some(path) => Some(
                    match mode {
                        DiffMode::Staged => show_in_index(path.as_str()),
                        DiffMode::Commits { to, .. } => show_at(to.as_str(), path.as_str()),
                        DiffMode::MergeBase { to, .. } => show_at(to.as_str(), path.as_str()),
                        _ => Source::Working(path.clone()),
                    },
                ),
                None => None,
            },
        }
    };
    (old_source, new_source)
}

// ---------------------------------------------------------------------------
// Patches
// ---------------------------------------------------------------------------
/// The mark of a line in a patch.
pub open spec fn patch_mark(kind: LineKind) -> char {
    match kind {
        LineKind::Context => ' ',
        LineKind::Addition => '+',
        LineKind::Deletion => '-',
    }
}

/// The first `n` lines of a hunk, as a patch has them.
pub open spec fn patch_lines(lines: Seq<DiffLineV>, n: int) -> Seq<char>
    decreases n,
{
    if n <= 0 {
        Seq::empty()
    } else {
        patch_lines(lines, n - 1).push(patch_mark(lines[n - 1].kind)) + lines[n - 1].content
            + seq!['\n']
    }
}

/// The names of a file's two sides in a patch.
pub open spec fn patch_header(file: DiffFileV) -> Seq<char> {
    let old_path = match (file.old_path, file.new_path) {
        (Some(p), _) => p,
        (None, Some(p)) => p,
        (None, None) => "unknown"@,
    };
    let new_path = match file.any_path() {
        Some(p) => p,
        None => old_path,
    };
    let names = "diff --git a/"@ + old_path + " b/"@ + new_path + "\n"@;
    match file.status {
        FileStatus::Added => names + "new file mode 100644\n"@ + "--- /dev/null\n"@ + "+++ b/"@
            + new_path + "\n"@,
        FileStatus::Deleted => names + "--- a/"@ + old_path + "\n"@ + "+++ /dev/null\n"@,
        _ => names + "--- a/"@ + old_path + "\n"@ + "+++ b/"@ + new_path + "\n"@,
    }
}

/// A hunk of a file as a patch.
pub open spec fn patch_of(file: DiffFileV, hunk: DiffHunkV) -> Seq<char> {
    patch_header(file) + "@@ -"@ + dec(hunk.old_start as nat) + ","@ + dec(hunk.old_lines as nat)
        + " +"@ + dec(hunk.new_start as nat) + ","@ + dec(hunk.new_lines as nat) + " @@\n"@
        + patch_lines(hunk.lines, hunk.lines.len() as int)
}

/// Writes the names of a file's two sides, as a patch has them.
fn patch_names(file: &DiffFile) -> (patch: String)
    ensures
        patch@ == patch_header(file@),
{
    let old_path = match &file.old_path {
        Some(p) => p.clone(),
        None => match &file.new_path {
            Some(p) => p.clone(),
            None => "unknown".to_owned(),
        },
    };
    let new_path = match file.any_path() {
        Some(p) => p,
        None => old_path.clone(),
    };
    let mut patch = "diff --git a/".to_owned();
    patch.push_str(old_path.as_str());
    patch.push_str(" b/");
    patch.push_str(new_path.as_str());
    patch.push_str("\n");
    match file.status {
        FileStatus::Added => {
            patch.push_str("new file mode 100644\n");
            patch.push_str("--- /dev/null\n");
            patch.push_str("+++ b/");
            patch.push_str(new_path.as_str());
            patch.push_str("\n");
        },
        FileStatus::Deleted => {
            patch.push_str("--- a/");
            patch.push_str(old_path.as_str());
            patch.push_str("\n");
            patch.push_str("+++ /dev/null\n");
        },
        _ => {
            patch.push_str("--- a/");
            patch.push_str(old_path.as_str());
            patch.push_str("\n");
            patch.push_str("+++ b/");
            patch.push_str(new_path.as_str());
            patch.push_str("\n");
        },
    }
    patch
}

/// Writes a hunk of a file as a patch.
pub fn build_hunk_patch(file: &DiffFile, hunk: &DiffHunk) -> (patch: String)
    ensures
        patch@ == patch_of(file@, hunk@),
{
    let mut patch = patch_names(file);
    patch.push_str("@@ -");
    patch.push_str(decimal(hunk.old_start as u64).as_str());
    patch.push_str(",");
    patch.push_str(decimal(hunk.old_lines as u64).as_str());
    patch.push_str(" +");
    patch.push_str(decimal(hunk.new_start as u64).as_str());
    patch.push_str(",");
    patch.push_str(decimal(hunk.new_lines as u64).as_str());
    patch.push_str(" @@\n");
    let ghost head = patch@;
    let ghost lv = line_views(hunk.lines@);
    let mut i: usize = 0;
    assert(patch@ =~= head + patch_lines(lv, 0));
    while i < hunk.lines.len()
        invariant
            i <= hunk.lines@.len(),
            lv == line_views(hunk.lines@),
            patch@ == head + patch_lines(lv, i as int),
        decreases hunk.lines@.len() - i,
    {
        let line = &hunk.lines[i];
        patch.push(
            match line.kind {
                LineKind::Context => ' ',
                LineKind::Addition => '+',
                LineKind::Deletion => '-',
            },
        );
        patch.push_str(line.content.as_str());
        patch.push('\n');
        i = i + 1;
        assert(patch@ =~= head + patch_lines(lv, i as int));
    }
    patch
}

// ---------------------------------------------------------------------------
// Assembling diffs
// ---------------------------------------------------------------------------
/// What git says of a file that differs.
#[derive(Debug, Clone, Copy, PartialEq, Eq, Structural)]
pub enum DeltaStatus {
    Added,
    Deleted,
    Modified,
    Renamed,
    /// It is new, and like another file.
    Copied,
    /// It has become another type of file, such as a link.
    TypeChanged,
    /// Any other status: the file has not changed.
    Other,
}

/// A file that differs.
#[derive(Debug)]
pub struct Delta {
    pub status: DeltaStatus,
    pub old_path: Option<String>,
    pub new_path: Option<String>,
}

/// The status of a file that has changed; others are not listed. A copy is an
/// added file, and a file of another type a modified one.
pub open spec fn shown_status(status: DeltaStatus) -> Option<FileStatus> {
    match status {
        DeltaStatus::Added => Some(FileStatus::Added),
        DeltaStatus::Deleted => Some(FileStatus::Deleted),
        DeltaStatus::Modified => Some(FileStatus::Modified),
        DeltaStatus::Renamed => Some(FileStatus::Renamed),
        DeltaStatus::Copied => Some(FileStatus::Added),
        DeltaStatus::TypeChanged => Some(FileStatus::Modified),
        DeltaStatus::Other => None,
    }
}

/// The files that are shown, without their hunks.
pub open spec fn files_of(deltas: Seq<Delta>) -> Seq<DiffFileV>
    decreases deltas.len(),
{
    if deltas.len() == 0 {
        Seq::empty()
    } else {
        let before = files_of(deltas.drop_last());
        let d = deltas.last();
        match shown_status(d.status) {
            Some(status) => before.push(
                DiffFileV {
                    old_path: opt_text(d.old_path),
                    new_path: opt_text(d.new_path),
                    status,
                    hunks: Seq::empty(),
                },
            ),
            None => before,
        }
    }
}

/// The files that are shown, without their hunks.
pub fn changed_files(deltas: &[Delta]) -> (v: Vec<DiffFile>)
    ensures
        file_views(v@) == files_of(deltas@),
{
    let mut v: Vec<DiffFile> = Vec::new();
    let mut i: usize = 0;
    assert(deltas@.take(0) =~= Seq::empty());
    assert(file_views(v@) =~= files_of(deltas@.take(0)));
    while i < deltas.len()
        invariant
            i <= deltas@.len(),
            file_views(v@) == files_of(deltas@.take(i as int)),
        decreases deltas@.len() - i,
    {
        let d = &deltas[i];
        proof {
            assert(deltas@.take(i + 1).drop_last() =~= deltas@.take(i as int));
            assert(deltas@.take(i + 1).last() == *d);
        }
        let status = match d.status {
            DeltaStatus::Added => Some(FileStatus::Added),
            DeltaStatus::Deleted => Some(FileStatus::Deleted),
            DeltaStatus::Modified => Some(FileStatus::Modified),
            DeltaStatus::Renamed => Some(FileStatus::Renamed),
            DeltaStatus::Copied => Some(FileStatus::Added),
            DeltaStatus::TypeChanged => Some(FileStatus::Modified),
            DeltaStatus::Other => None,
        };
        let ghost before = file_views(v@);
        if let Some(status) = status {
            let file = DiffFile {
                old_path: d.old_path.clone(),
                new_path: d.new_path.clone(),
                status,
                hunks: Vec::new(),
            };
            assert(file@.hunks =~= Seq::empty());
            v.push(file);
            assert(file_views(v@) =~= before.push(file@));
        }
        i = i + 1;
    }
    assert(deltas@.take(i as int) =~= deltas@);
    v
}

/// What git hands over of the hunks of a file.
#[derive(Debug)]
pub enum HunkEvent {
    /// A hunk begins.
    Hunk {
        old_start: u32,
        old_lines: u32,
        new_start: u32,
        new_lines: u32,
        header: Option<String>,
    },
    /// A line of the hunk that began last.
    Line { origin: char, old_line_no: Option<u32>, new_line_no: Option<u32>, content: String },
}

/// The kind of a line by its mark.
pub open spec fn origin_kind(origin: char) -> LineKind {
    if origin == '+' {
        LineKind::Addition
    } else if origin == '-' {
        LineKind::Deletion
    } else {
        LineKind::Context
    }
}

/// The hunks so far with one more line in the last of them.
pub open spec fn with_line(hunks: Seq<DiffHunkV>, line: DiffLineV) -> Seq<DiffHunkV> {
    if hunks.len() == 0 {
        hunks
    } else {
        hunks.drop_last().push(DiffHunkV { lines: hunks.last().lines.push(line), ..hunks.last() })
    }
}

/// The hunks that the events make up. Lines in front of the first hunk are
/// dropped.
pub open spec fn hunks_of(events: Seq<HunkEvent>) -> Seq<DiffHunkV>
    decreases events.len(),
{
    if events.len() == 0 {
        Seq::empty()
    } else {
        let before = hunks_of(events.drop_last());
        match events.last() {
            HunkEvent::Hunk { old_start, old_lines, new_start, new_lines, header } => before.push(
                DiffHunkV {
                    old_start,
                    old_lines,
                    new_start,
                    new_lines,
                    header: opt_text(header),
                    lines: Seq::empty(),
                },
            ),
            HunkEvent::Line { origin, old_line_no, new_line_no, content } => with_line(
                before,
                DiffLineV {
                    kind: origin_kind(origin),
                    old_line_no,
                    new_line_no,
                    content: content@,
                    highlights: Seq::empty(),
                    inline_ranges: Seq::empty(),
                },
            ),
        }
    }
}

fn plain_line(
    kind: LineKind,
    old_line_no: Option<u32>,
    new_line_no: Option<u32>,
    content: String,
) -> (r: DiffLine)
    ensures
        r@ == (DiffLineV {
            kind,
            old_line_no,
            new_line_no,
            content: content@,
            highlights: Seq::empty(),
            inline_ranges: Seq::empty(),
        }),
{
    let r = DiffLine {
        kind,
        old_line_no,
        new_line_no,
        content,
        highlights: Vec::new(),
        inline_ranges: Vec::new(),
    };
    assert(r@.highlights =~= Seq::empty());
    assert(r@.inline_ranges =~= Seq::empty());
    r
}

/// Puts the hunks of a file together.
pub fn assemble_hunks(events: &[HunkEvent]) -> (v: Vec<DiffHunk>)
    ensures
        hunk_views(v@) == hunks_of(events@),
{
    let mut v: Vec<DiffHunk> = Vec::new();
    let mut i: usize = 0;
    assert(events@.take(0) =~= Seq::empty());
    assert(hunk_views(v@) =~= hunks_of(events@.take(0)));
    while i < events.len()
        invariant
            i <= events@.len(),
            hunk_views(v@) == hunks_of(events@.take(i as int)),
        decreases events@.len() - i,
    {
        let ghost before = hunk_views(v@);
        proof {
            assert(events@.take(i + 1).drop_last() =~= events@.take(i as int));
            assert(events@.take(i + 1).last() == events@[i as int]);
            assert(before.len() == v@.len());
        }
        match &events[i] {
            HunkEvent::Hunk { old_start, old_lines, new_start, new_lines, header } => {
                let hunk = DiffHunk {
                    old_start: *old_start,
                    old_lines: *old_lines,
                    new_start: *new_start,
                    new_lines: *new_lines,
                    header: header.clone(),
                    lines: Vec::new(),
                };
                assert(hunk@.lines =~= Seq::empty());
                v.push(hunk);
                assert(hunk_views(v@) =~= before.push(hunk@));
            },
            HunkEvent::Line { origin, old_line_no, new_line_no, content } => {
                if let Some(mut hunk) = v.pop() {
                    let ghost h0 = hunk@;
                    let kind = if *origin == '+' {
                        LineKind::Addition
                    } else if *origin == '-' {
                        LineKind::Deletion
                    } else {
                        LineKind::Context
                    };
                    let line = plain_line(kind, *old_line_no, *new_line_no, content.clone());
                    hunk.lines.push(line);
                    assert(hunk@.lines =~= h0.lines.push(line@));
                    v.push(hunk);
                    assert(hunk_views(v@) =~= with_line(before, line@));
                }
            },
        }
        i = i + 1;
    }
    assert(events@.take(i as int) =~= events@);
    v
}

/// A line of a syntactic diff.
#[derive(Debug)]
pub struct SyntacticChange {
    pub kind: String,
    pub old_line: Option<u32>,
    pub new_line: Option<u32>,
    pub content: String,
}

/// A hunk of a syntactic diff.
#[derive(Debug)]
pub struct SyntacticHunk {
    pub old_start: u32,
    pub new_start: u32,
    pub changes: Vec<SyntacticChange>,
}

/// The kind of a line of a syntactic diff.
pub open spec fn syntactic_kind(kind: Seq<char>) -> LineKind {
    if kind == "add"@ || kind == "addition"@ {
        LineKind::Addition
    } else if kind == "del"@ || kind == "deletion"@ {
        LineKind::Deletion
    } else {
        LineKind::Context
    }
}

/// A line of a syntactic diff as a line of a diff.
pub open spec fn syntactic_line(c: SyntacticChange) -> DiffLineV {
    DiffLineV {
        kind: syntactic_kind(c.kind@),
        old_line_no: c.old_line,
        new_line_no: c.new_line,
        content: c.content@,
        highlights: Seq::empty(),
        inline_ranges: Seq::empty(),
    }
}

/// A hunk of a syntactic diff as a hunk of a diff. It has no line counts.
pub open spec fn syntactic_hunk(h: SyntacticHunk) -> DiffHunkV {
    DiffHunkV {
        old_start: h.old_start,
        old_lines: 0,
        new_start: h.new_start,
        new_lines: 0,
        header: None,
        lines: Seq::new(h.changes@.len(), |i: int| syntactic_line(h.changes@[i])),
    }
}

/// The hunks of a syntactic diff.
pub open spec fn syntactic_hunks(hunks: Seq<SyntacticHunk>) -> Seq<DiffHunkV> {
    Seq::new(hunks.len(), |i: int| syntactic_hunk(hunks[i]))
}

fn convert_hunk(h: &SyntacticHunk) -> (r: DiffHunk)
    ensures
        r@ == syntactic_hunk(*h),
{
    let mut out: Vec<DiffLine> = Vec::new();
    let mut i: usize = 0;
    while i < h.changes.len()
        invariant
            i <= h.changes@.len(),
            out@.len() == i,
            forall|k: int| 0 <= k < i ==> (#[trigger] out@[k])@ == syntactic_line(h.changes@[k]),
        decreases h.changes@.len() - i,
    {
        let c = &h.changes[i];
        let kind = if str_eq(c.kind.as_str(), "add") || str_eq(c.kind.as_str(), "addition") {
            LineKind::Addition
        } else if str_eq(c.kind.as_str(), "del") || str_eq(c.kind.as_str(), "deletion") {
            LineKind::Deletion
        } else {
            LineKind::Context
        };
        out.push(plain_line(kind, c.old_line, c.new_line, c.content.clone()));
        i = i + 1;
    }
    let r = DiffHunk {
        old_start: h.old_start,
        old_lines: 0,
        new_start: h.new_start,
        new_lines: 0,
        header: None,
        lines: out,
    };
    assert(r@.lines =~= syntactic_hunk(*h).lines);
    r
}

/// A line without the newline at its end, if it has one.
pub open spec fn open_line(s: Seq<char>) -> Seq<char> {
    if s.len() > 0 && s.last() == '\n' {
        s.drop_last()
    } else {
        s
    }
}

/// A line without the newline at its end, if it has one.
pub fn without_newline(s: &str) -> (r: String)
    ensures
        r@ == open_line(s@),
{
    let chars = chars_of(s);
    let n = chars.len();
    if n > 0 && chars[n - 1] == '\n' {
        let r = string_of(&chars, 0, n - 1);
        assert(r@ =~= s@.drop_last());
        r
    } else {
        s.to_owned()
    }
}

/// Where the hunks of a file come from.
#[derive(Debug, Clone, Copy, PartialEq, Eq, Structural)]
pub enum HunkSource {
    /// A syntactic diff, and git where that fails.
    Syntactic,
    /// Git.
    Git,
    /// The file has no new path and gets no hunks.
    Nowhere,
}

/// The hunk that shows a text line by line beside an older one: lines beyond
/// the end of the older text are additions, the others context.
pub open spec fn unified_line(old: Seq<Seq<char>>, new: Seq<Seq<char>>, i: int) -> DiffLineV {
    DiffLineV {
        kind: if i >= old.len() {
            LineKind::Addition
        } else {
            LineKind::Context
        },
        old_line_no: if i < old.len() {
            Some((i + 1) as u32)
        } else {
            None
        },
        new_line_no: Some((i + 1) as u32),
        content: new[i],
        highlights: Seq::empty(),
        inline_ranges: Seq::empty(),
    }
}

/// The hunks that show a text beside an older one: none for an empty text.
pub open spec fn unified_hunks(old: Seq<Seq<char>>, new: Seq<Seq<char>>) -> Seq<DiffHunkV> {
    if new.len() == 0 {
        Seq::empty()
    } else {
        seq![
            DiffHunkV {
                old_start: 1,
                old_lines: (old.len() as int % 0x1_0000_0000) as u32,
                new_start: 1,
                new_lines: new.len() as u32,
                header: None,
                lines: Seq::new(new.len(), |i: int| unified_line(old, new, i)),
            },
        ]
    }
}

/// Diff engine that can use a syntactic diff or fall back to git.
#[derive(Debug)]
pub struct DiffEngine {
    pub use_difftastic: bool,
    pub repo_path: String,
    pub context_lines: u32,
}

impl DiffEngine {
    /// A diff engine for a repository. Tells whether to warn that there is no
    /// syntactic diff.
    pub fn new(repo_path: String, context_lines: u32, difftastic_found: bool) -> (r: (
        DiffEngine,
        bool,
    ))
        ensures
            r.0 == (DiffEngine { use_difftastic: difftastic_found, repo_path, context_lines }),
            r.1 == !difftastic_found,
    {
        (
            DiffEngine { use_difftastic: difftastic_found, repo_path, context_lines },
            !difftastic_found,
        )
    }

    /// Where the hunks of a file come from.
    pub fn hunk_source(&self, file: &DiffFile) -> (r: HunkSource)
        ensures
            r == (if file.new_path is None {
                HunkSource::Nowhere
            } else if self.use_difftastic {
                HunkSource::Syntactic
            } else {
                HunkSource::Git
            }),
    {
        if file.new_path.is_none() {
            HunkSource::Nowhere
        } else if self.use_difftastic {
            HunkSource::Syntactic
        } else {
            HunkSource::Git
        }
    }

    /// The hunks of a syntactic diff that could be read, or else the two texts
    /// beside each other.
    pub fn parse_difftastic(
        &self,
        parsed: Option<Vec<SyntacticHunk>>,
        old_content: &str,
        new_content: &str,
    ) -> (v: Vec<DiffHunk>)
        requires
            parsed is None ==> lines_of(new_content@).len() <= u32::MAX,
        ensures
            hunk_views(v@) == (match parsed {
                Some(hunks) => syntactic_hunks(hunks@),
                None => unified_hunks(lines_of(old_content@), lines_of(new_content@)),
            }),
    {
        match parsed {
            Some(hunks) => {
                let mut v: Vec<DiffHunk> = Vec::new();
                let mut i: usize = 0;
                while i < hunks.len()
                    invariant
                        i <= hunks@.len(),
                        v@.len() == i,
                        forall|k: int|
                            0 <= k < i ==> (#[trigger] v@[k])@ == syntactic_hunk(hunks@[k]),
                    decreases hunks@.len() - i,
                {
                    v.push(convert_hunk(&hunks[i]));
                    i = i + 1;
                }
                assert(hunk_views(v@) =~= syntactic_hunks(hunks@));
                v
            },
            None => self.create_unified_hunks(old_content, new_content),
        }
    }

    /// Shows a text line by line beside an older one.
    pub fn create_unified_hunks(&self, old: &str, new: &str) -> (v: Vec<DiffHunk>)
        requires
            lines_of(new@).len() <= u32::MAX,
        ensures
            hunk_views(v@) == unified_hunks(lines_of(old@), lines_of(new@)),
    {
        let old_lines = lines(old);
        let new_lines = lines(new);
        let ghost ov = lines_of(old@);
        let ghost nv = lines_of(new@);
        assert(texts(old_lines@).len() == old_lines@.len());
        assert(texts(new_lines@).len() == new_lines@.len());
        let mut out: Vec<DiffLine> = Vec::new();
        let mut i: usize = 0;
        while i < new_lines.len()
            invariant
                i <= new_lines@.len() <= u32::MAX,
                ov == texts(old_lines@),
                nv == texts(new_lines@),
                out@.len() == i,
                forall|k: int| 0 <= k < i ==> (#[trigger] out@[k])@ == unified_line(ov, nv, k),
            decreases new_lines@.len() - i,
        {
            let no: u32 = i as u32 + 1;
            let (kind, old_no) = if i < old_lines.len() {
                (LineKind::Context, Some(no))
            } else {
                (LineKind::Addition, None)
            };
            assert(nv[i as int] == new_lines@[i as int]@);
            out.push(plain_line(kind, old_no, Some(no), new_lines[i].clone()));
            i = i + 1;
        }
        let mut v: Vec<DiffHunk> = Vec::new();
        if out.len() > 0 {
            let hunk = DiffHunk {
                old_start: 1,
                old_lines: (old_lines.len() as u64 % 0x1_0000_0000) as u32,
                new_start: 1,
                new_lines: new_lines.len() as u32,
                header: None,
                lines: out,
            };
            assert(hunk@.lines =~= Seq::new(nv.len(), |k: int| unified_line(ov, nv, k)));
            v.push(hunk);
        }
        assert(hunk_views(v@) =~= unified_hunks(ov, nv));
        v
    }
}

/// Every file that has changed is listed once, in its place, with its paths.
pub proof fn law_changes_listed(deltas: Seq<Delta>)
    requires
        forall|i: int| 0 <= i < deltas.len() ==> (#[trigger] deltas[i]).status
            != DeltaStatus::Other,
    ensures
        files_of(deltas).len() == deltas.len(),
        forall|i: int|
            0 <= i < deltas.len() ==> ({
                let file = #[trigger] files_of(deltas)[i];
                &&& Some(file.status) == shown_status(deltas[i].status)
                &&& file.old_path == opt_text(deltas[i].old_path)
                &&& file.new_path == opt_text(deltas[i].new_path)
            }),
    decreases deltas.len(),
{
    if deltas.len() > 0 {
        let front = deltas.drop_last();
        assert forall|i: int| 0 <= i < front.len() implies (#[trigger] front[i]).status
            != DeltaStatus::Other by {
            assert(front[i] == deltas[i]);
        }
        law_changes_listed(front);
        assert(deltas[deltas.len() - 1].status != DeltaStatus::Other);
        assert forall|i: int| 0 <= i < deltas.len() implies ({
            let file = #[trigger] files_of(deltas)[i];
            &&& Some(file.status) == shown_status(deltas[i].status)
            &&& file.old_path == opt_text(deltas[i].old_path)
            &&& file.new_path == opt_text(deltas[i].new_path)
        }) by {
            if i < front.len() {
                assert(files_of(deltas)[i] == files_of(front)[i]);
                assert(front[i] == deltas[i]);
            }
        }
    }
}

// ---------------------------------------------------------------------------
// What a patch says
// ---------------------------------------------------------------------------
/// The texts of one side of a patch's body: those of the lines that carry a blank
/// or the side's own mark, in order, without the mark.
pub open spec fn side_of_patch(body: Seq<Seq<char>>, mark: char) -> Seq<Seq<char>>
    decreases body.len(),
{
    if body.len() == 0 {
        Seq::empty()
    } else {
        let before = side_of_patch(body.drop_last(), mark);
        let line = body.last();
        if line.len() > 0 && (line[0] == ' ' || line[0] == mark) {
            before.push(line.skip(1))
        } else {
            before
        }
    }
}

/// What becomes of a text when the lines of a patch's old side, which stand in it
/// behind `at` lines, give way to those of the new side; nothing where other
/// lines stand there.
pub open spec fn applied(text: Seq<Seq<char>>, at: int, body: Seq<Seq<char>>) -> Option<
    Seq<Seq<char>>,
> {
    let old_side = side_of_patch(body, '-');
    let end = at + old_side.len();
    if 0 <= at && end <= text.len() && text.subrange(at, end) == old_side {
        Some(text.take(at) + side_of_patch(body, '+') + text.skip(end))
    } else {
        None
    }
}

/// The texts of the lines that are not of one kind, in order.
pub open spec fn texts_without(lines: Seq<DiffLineV>, kind: LineKind) -> Seq<Seq<char>>
    decreases lines.len(),
{
    if lines.len() == 0 {
        Seq::empty()
    } else if lines.last().kind != kind {
        texts_without(lines.drop_last(), kind).push(lines.last().content)
    } else {
        texts_without(lines.drop_last(), kind)
    }
}

/// Whether all that a patch is made of lies on one line each.
pub open spec fn fits_patch(file: DiffFileV, hunk: DiffHunkV) -> bool {
    &&& file.old_path matches Some(p) ==> crate::text::one_line(p)
    &&& file.new_path matches Some(p) ==> crate::text::one_line(p)
    &&& forall|i: int|
        0 <= i < hunk.lines.len() ==> crate::text::one_line((#[trigger] hunk.lines[i]).content)
}

spec fn body_line(line: DiffLineV) -> Seq<char> {
    seq![
        match line.kind {
            LineKind::Context => ' ',
            LineKind::Addition => '+',
            LineKind::Deletion => '-',
        },
    ] + line.content
}

spec fn body_lines(lines: Seq<DiffLineV>, n: int) -> Seq<Seq<char>> {
    Seq::new(n as nat, |i: int| body_line(lines[i]))
}

proof fn lemma_patch_body(head: Seq<char>, closed: Seq<Seq<char>>, lines: Seq<DiffLineV>, n: int)
    requires
        crate::text::split_lines_of(head) == closed.push(Seq::empty()),
        0 <= n <= lines.len(),
        forall|i: int|
            0 <= i < lines.len() ==> crate::text::one_line((#[trigger] lines[i]).content),
    ensures
        crate::text::split_lines_of(head + patch_lines(lines, n)) == (closed + body_lines(
            lines,
            n,
        )).push(Seq::empty()),
    decreases n,
{
    if n == 0 {
        assert(head + patch_lines(lines, n) =~= head);
        assert(closed + body_lines(lines, n) =~= closed);
    } else {
        lemma_patch_body(head, closed, lines, n - 1);
        let t = head + patch_lines(lines, n - 1);
        let x = body_line(lines[n - 1]);
        let before = closed + body_lines(lines, n - 1);
        assert(crate::text::one_line(lines[n - 1].content));
        assert(crate::text::one_line(x)) by {
            assert forall|i: int| 0 <= i < x.len() implies #[trigger] x[i] != '\n' by {
                if i > 0 {
                    assert(x[i] == lines[n - 1].content[i - 1]);
                }
            }
        }
        crate::text::lemma_append_line(t, before, x);
        assert(head + patch_lines(lines, n) =~= t + x + seq!['\n']);
        assert(before.push(x) =~= closed + body_lines(lines, n));
    }
}

proof fn lemma_body_side(lines: Seq<DiffLineV>, mark: char, kind: LineKind)
    requires
        (mark == '-' && kind == LineKind::Addition) || (mark == '+' && kind == LineKind::Deletion),
    ensures
        side_of_patch(body_lines(lines, lines.len() as int), mark) == texts_without(lines, kind),
    decreases lines.len(),
{
    let body = body_lines(lines, lines.len() as int);
    if lines.len() > 0 {
        let front = lines.drop_last();
        lemma_body_side(front, mark, kind);
        assert(body.drop_last() =~= body_lines(front, front.len() as int));
        assert(body.last().skip(1) =~= lines.last().content);
    }
}

spec fn header_lines(file: DiffFileV) -> Seq<Seq<char>> {
    let old_path = match (file.old_path, file.new_path) {
        (Some(p), _) => p,
        (None, Some(p)) => p,
        (None, None) => "unknown"@,
    };
    let new_path = match (file.new_path, file.old_path) {
        (Some(p), _) => p,
        (None, Some(p)) => p,
        (None, None) => "unknown"@,
    };
    let first = "diff --git a/"@ + old_path + " b/"@ + new_path;
    let new_side = "+++ b/"@ + new_path;
    let old_side = "--- a/"@ + old_path;
    match file.status {
        FileStatus::Added => seq![first, "new file mode 100644"@, "--- /dev/null"@, new_side],
        FileStatus::Deleted => seq![first, old_side, "+++ /dev/null"@],
        _ => seq![first, old_side, new_side],
    }
}

proof fn lemma_one_line_concat(a: Seq<char>, b: Seq<char>)
    requires
        crate::text::one_line(a),
        crate::text::one_line(b),
    ensures
        crate::text::one_line(a + b),
{
    assert forall|i: int| 0 <= i < (a + b).len() implies #[trigger] (a + b)[i] != '\n' by {
        if i < a.len() {
            assert((a + b)[i] == a[i]);
        } else {
            assert((a + b)[i] == b[i - a.len()]);
        }
    }
}

proof fn lemma_patch_header(file: DiffFileV)
    requires
        file.old_path matches Some(p) ==> crate::text::one_line(p),
        file.new_path matches Some(p) ==> crate::text::one_line(p),
    ensures
        crate::text::split_lines_of(patch_header(file)) == header_lines(file).push(Seq::empty()),
{
    reveal_strlit("unknown");
    reveal_strlit("diff --git a/");
    reveal_strlit(" b/");
    reveal_strlit("\n");
    reveal_strlit("new file mode 100644\n");
    reveal_strlit("--- /dev/null\n");
    reveal_strlit("new file mode 100644");
    reveal_strlit("--- /dev/null");
    reveal_strlit("+++ /dev/null\n");
    reveal_strlit("+++ /dev/null");
    reveal_strlit("+++ b/");
    reveal_strlit("--- a/");
    let old_path = match (file.old_path, file.new_path) {
        (Some(p), _) => p,
        (None, Some(p)) => p,
        (None, None) => "unknown"@,
    };
    let new_path = match (file.new_path, file.old_path) {
        (Some(p), _) => p,
        (None, Some(p)) => p,
        (None, None) => "unknown"@,
    };
    let first = "diff --git a/"@ + old_path + " b/"@ + new_path;
    let new_side = "+++ b/"@ + new_path;
    let old_side = "--- a/"@ + old_path;
    let nl = seq!['\n'];
    assert("\n"@ =~= nl);
    assert("new file mode 100644\n"@ =~= "new file mode 100644"@ + nl);
    assert("--- /dev/null\n"@ =~= "--- /dev/null"@ + nl);
    assert("+++ /dev/null\n"@ =~= "+++ /dev/null"@ + nl);
    lemma_one_line_concat("diff --git a/"@, old_path);
    lemma_one_line_concat("diff --git a/"@ + old_path, " b/"@);
    lemma_one_line_concat("diff --git a/"@ + old_path + " b/"@, new_path);
    lemma_one_line_concat("+++ b/"@, new_path);
    lemma_one_line_concat("--- a/"@, old_path);
    let none = Seq::<char>::empty();
    let no_lines = Seq::<Seq<char>>::empty();
    assert(crate::text::split_lines_of(none) =~= no_lines.push(none));
    crate::text::lemma_append_line(none, no_lines, first);
    let t1 = none + first + nl;
    let l1 = no_lines.push(first);
    match file.status {
        FileStatus::Added => {
            crate::text::lemma_append_line(t1, l1, "new file mode 100644"@);
            let t2 = t1 + "new file mode 100644"@ + nl;
            let l2 = l1.push("new file mode 100644"@);
            crate::text::lemma_append_line(t2, l2, "--- /dev/null"@);
            let t3 = t2 + "--- /dev/null"@ + nl;
            let l3 = l2.push("--- /dev/null"@);
            crate::text::lemma_append_line(t3, l3, new_side);
            assert(patch_header(file) =~= t3 + new_side + nl);
            assert(l3.push(new_side) =~= header_lines(file));
        },
        FileStatus::Deleted => {
            crate::text::lemma_append_line(t1, l1, old_side);
            let t2 = t1 + old_side + nl;
            let l2 = l1.push(old_side);
            crate::text::lemma_append_line(t2, l2, "+++ /dev/null"@);
            assert(patch_header(file) =~= t2 + "+++ /dev/null"@ + nl);
            assert(l2.push("+++ /dev/null"@) =~= header_lines(file));
        },
        _ => {
            crate::text::lemma_append_line(t1, l1, old_side);
            let t2 = t1 + old_side + nl;
            let l2 = l1.push(old_side);
            crate::text::lemma_append_line(t2, l2, new_side);
            assert(patch_header(file) =~= t2 + new_side + nl);
            assert(l2.push(new_side) =~= header_lines(file));
        },
    }
}

proof fn lemma_range_line(hunk: DiffHunkV) -> (x: Seq<char>)
    ensures
        x == "@@ -"@ + dec(hunk.old_start as nat) + ","@ + dec(hunk.old_lines as nat) + " +"@ + dec(
            hunk.new_start as nat,
        ) + ","@ + dec(hunk.new_lines as nat) + " @@"@,
        crate::text::one_line(x),
{
    reveal_strlit("@@ -");
    reveal_strlit(",");
    reveal_strlit(" +");
    reveal_strlit(" @@");
    let (a, b, c, d) = (
        dec(hunk.old_start as nat),
        dec(hunk.old_lines as nat),
        dec(hunk.new_start as nat),
        dec(hunk.new_lines as nat),
    );
    crate::number::lemma_dec_chars(hunk.old_start as nat);
    crate::number::lemma_dec_chars(hunk.old_lines as nat);
    crate::number::lemma_dec_chars(hunk.new_start as nat);
    crate::number::lemma_dec_chars(hunk.new_lines as nat);
    lemma_one_line_concat("@@ -"@, a);
    lemma_one_line_concat("@@ -"@ + a, ","@);
    lemma_one_line_concat("@@ -"@ + a + ","@, b);
    lemma_one_line_concat("@@ -"@ + a + ","@ + b, " +"@);
    lemma_one_line_concat("@@ -"@ + a + ","@ + b + " +"@, c);
    lemma_one_line_concat("@@ -"@ + a + ","@ + b + " +"@ + c, ","@);
    lemma_one_line_concat("@@ -"@ + a + ","@ + b + " +"@ + c + ","@, d);
    lemma_one_line_concat("@@ -"@ + a + ","@ + b + " +"@ + c + ","@ + d, " @@"@);
    "@@ -"@ + a + ","@ + b + " +"@ + c + ","@ + d + " @@"@
}

proof fn lemma_regroup(a: Seq<char>, b: Seq<char>, c: Seq<char>)
    ensures
        a + b + c == a + (b + c),
{
    assert(a + b + c =~= a + (b + c));
}

proof fn lemma_patch_pieces(file: DiffFileV, hunk: DiffHunkV) -> (range: Seq<char>)
    requires
        fits_patch(file, hunk),
    ensures
        range == "@@ -"@ + dec(hunk.old_start as nat) + ","@ + dec(hunk.old_lines as nat) + " +"@
            + dec(hunk.new_start as nat) + ","@ + dec(hunk.new_lines as nat) + " @@"@,
        crate::text::split_lines_of(patch_of(file, hunk)) == (header_lines(file).push(range)
            + body_lines(hunk.lines, hunk.lines.len() as int)).push(Seq::empty()),
{
    let range = lemma_range_line(hunk);
    let head = patch_header(file);
    let nl = seq!['\n'];
    lemma_patch_header(file);
    crate::text::lemma_append_line(head, header_lines(file), range);
    let start = head + range + nl;
    lemma_patch_body(start, header_lines(file).push(range), hunk.lines, hunk.lines.len() as int);
    let (a, b, c, d) = (
        dec(hunk.old_start as nat),
        dec(hunk.old_lines as nat),
        dec(hunk.new_start as nat),
        dec(hunk.new_lines as nat),
    );
    let r1 = "@@ -"@ + a;
    let r2 = r1 + ","@;
    let r3 = r2 + b;
    let r4 = r3 + " +"@;
    let r5 = r4 + c;
    let r6 = r5 + ","@;
    let r7 = r6 + d;
    lemma_regroup(head, "@@ -"@, a);
    lemma_regroup(head, r1, ","@);
    lemma_regroup(head, r2, b);
    lemma_regroup(head, r3, " +"@);
    lemma_regroup(head, r4, c);
    lemma_regroup(head, r5, ","@);
    lemma_regroup(head, r6, d);
    lemma_regroup(head, r7, " @@"@);
    lemma_regroup(head + r7, " @@"@, nl);
    assert(" @@\n"@ == " @@"@ + nl) by {
        reveal_strlit(" @@\n");
        reveal_strlit(" @@");
        assert(" @@\n"@ =~= " @@"@ + nl);
    }
    assert(patch_of(file, hunk) == start + patch_lines(hunk.lines, hunk.lines.len() as int));
    range
}

/// Reading a patch gives the hunk back. Behind the lines with the names stands
/// one line with four numbers: behind `@@ -` the old start and the number of body
/// lines marked with a blank or a minus, behind ` +` the new start and the number
/// of body lines marked with a blank or a plus. The lines marked with a blank or a
/// minus are the hunk's lines but for the additions, those with a blank or a plus
/// the hunk's lines but for the deletions: so the patch turns a text that holds
/// the old lines into one that holds the new lines in their place.
pub proof fn law_patch_read_back(file: DiffFileV, hunk: DiffHunkV) -> (r: (
    Seq<Seq<char>>,
    (Seq<char>, Seq<char>, Seq<char>, Seq<char>),
))
    requires
        fits_patch(file, hunk),
        hunk.old_lines == texts_without(hunk.lines, LineKind::Addition).len(),
        hunk.new_lines == texts_without(hunk.lines, LineKind::Deletion).len(),
    ensures
        ({
            let pieces = crate::text::split_lines_of(patch_of(file, hunk));
            let names: int = if file.status == FileStatus::Added {
                4
            } else {
                3
            };
            let (body, (a, b, c, d)) = r;
            &&& pieces.len() == names + 1 + body.len() + 1
            &&& pieces.last() == Seq::<char>::empty()
            &&& body == pieces.subrange(names + 1, pieces.len() - 1)
            &&& pieces[names] == "@@ -"@ + a + ","@ + b + " +"@ + c + ","@ + d + " @@"@
            &&& crate::number::u32_value(a) == Some(hunk.old_start)
            &&& crate::number::u32_value(b) == Some(side_of_patch(body, '-').len() as u32)
            &&& crate::number::u32_value(c) == Some(hunk.new_start)
            &&& crate::number::u32_value(d) == Some(side_of_patch(body, '+').len() as u32)
            &&& body.len() == hunk.lines.len()
            &&& forall|i: int|
                0 <= i < body.len() ==> (#[trigger] body[i]).len() > 0 && body[i].skip(1)
                    == hunk.lines[i].content && (body[i][0] == '-' <==> hunk.lines[i].kind
                    == LineKind::Deletion) && (body[i][0] == '+' <==> hunk.lines[i].kind
                    == LineKind::Addition) && (body[i][0] == ' ' <==> hunk.lines[i].kind
                    == LineKind::Context)
            &&& forall|before: Seq<Seq<char>>, after: Seq<Seq<char>>|
                before.len() == hunk.old_start - 1 ==> #[trigger] applied(
                    before + texts_without(hunk.lines, LineKind::Addition) + after,
                    hunk.old_start - 1,
                    body,
                ) == Some(before + texts_without(hunk.lines, LineKind::Deletion) + after)
        }),
{
    let range = lemma_patch_pieces(file, hunk);
    let body = body_lines(hunk.lines, hunk.lines.len() as int);
    let pieces = crate::text::split_lines_of(patch_of(file, hunk));
    lemma_body_side(hunk.lines, '-', LineKind::Addition);
    lemma_body_side(hunk.lines, '+', LineKind::Deletion);
    crate::number::law_number_round_trip(0, hunk.old_start);
    crate::number::law_number_round_trip(0, hunk.old_lines);
    crate::number::law_number_round_trip(0, hunk.new_start);
    crate::number::law_number_round_trip(0, hunk.new_lines);
    let names = header_lines(file).len() as int;
    assert(pieces.subrange(names + 1, pieces.len() - 1) =~= body);
    assert forall|i: int| 0 <= i < body.len() implies (#[trigger] body[i]).skip(1)
        == hunk.lines[i].content by {
        assert(body[i].skip(1) =~= hunk.lines[i].content);
    }
    let old_text = texts_without(hunk.lines, LineKind::Addition);
    let new_text = texts_without(hunk.lines, LineKind::Deletion);
    assert forall|before: Seq<Seq<char>>, after: Seq<Seq<char>>|
        before.len() == hunk.old_start - 1 implies #[trigger] applied(
        before + old_text + after,
        hunk.old_start - 1,
        body,
    ) == Some(before + new_text + after) by {
        let text = before + old_text + after;
        let at = before.len() as int;
        let end = at + old_text.len();
        assert(text.subrange(at, end) =~= old_text);
        assert(text.take(at) =~= before);
        assert(text.skip(end) =~= after);
    }
    (
        body,
        (
            dec(hunk.old_start as nat),
            dec(hunk.old_lines as nat),
            dec(hunk.new_start as nat),
            dec(hunk.new_lines as nat),
        ),
    )
}

/// The lines of a patch in front of its numbers name the file: both paths behind
/// `diff --git`, the old one behind `--- a/` but for a file that is new, and the
/// new one behind `+++ b/` but for a file that is gone.
pub proof fn law_patch_names(file: DiffFileV, hunk: DiffHunkV, old_path: Seq<char>, new_path: Seq<char>)
    requires
        fits_patch(file, hunk),
        file.old_path == Some(old_path) || (file.old_path is None && new_path == old_path),
        file.new_path == Some(new_path) || (file.new_path is None && new_path == old_path),
        file.old_path is Some || file.new_path is Some,
    ensures
        ({
            let pieces = crate::text::split_lines_of(patch_of(file, hunk));
            &&& pieces[0] == "diff --git a/"@ + old_path + " b/"@ + new_path
            &&& match file.status {
                FileStatus::Added => pieces[1] == "new file mode 100644"@ && pieces[2]
                    == "--- /dev/null"@ && pieces[3] == "+++ b/"@ + new_path,
                FileStatus::Deleted => pieces[1] == "--- a/"@ + old_path && pieces[2]
                    == "+++ /dev/null"@,
                _ => pieces[1] == "--- a/"@ + old_path && pieces[2] == "+++ b/"@ + new_path,
            }
        }),
{
    let range = lemma_patch_pieces(file, hunk);
    let lines = header_lines(file);
    let pieces = crate::text::split_lines_of(patch_of(file, hunk));
    assert forall|i: int| 0 <= i < lines.len() implies pieces[i] == lines[i] by {}
}

// ---------------------------------------------------------------------------
// How the two sides of a diff relate
// ---------------------------------------------------------------------------
/// What one diff has as its new side, another has as its old side: the index is
/// the new side of what is staged and the old side of what is not, and a revision
/// is the new side of the range that ends with it and the old side of the one that
/// begins with it. The working tree is the new side of what is not staged, and
/// `HEAD` the old side of what is.
pub proof fn law_sides_meet(
    file: DiffFileV,
    path: Seq<char>,
    merge_base: Option<Seq<char>>,
    rev: Seq<char>,
    other: Seq<char>,
    full_file: bool,
)
    requires
        file.old_path == Some(path),
        file.new_path == Some(path),
        file.status == FileStatus::Modified,
        needs_old(file, full_file),
        needs_new(file, full_file),
    ensures
        old_map_source(DiffModeV::Unstaged, merge_base, file, full_file) == new_map_source(
            DiffModeV::Staged,
            file,
            full_file,
        ),
        new_map_source(DiffModeV::Unstaged, file, full_file) == Some(SourceV::Working(path)),
        new_map_source(DiffModeV::Staged, file, full_file) == Some(SourceV::Show(seq![':'] + path)),
        old_map_source(DiffModeV::Staged, merge_base, file, full_file) == Some(
            SourceV::Show("HEAD"@ + seq![':'] + path),
        ),
        new_map_source(DiffModeV::Commits { from: other, to: rev }, file, full_file)
            == old_map_source(
            DiffModeV::Commits { from: rev, to: other },
            merge_base,
            file,
            full_file,
        ),
        new_map_source(DiffModeV::Commits { from: other, to: rev }, file, full_file) == Some(
            SourceV::Show(rev + seq![':'] + path),
        ),
        new_map_source(DiffModeV::MergeBase { from: other, to: rev }, file, full_file) == Some(
            SourceV::Show(rev + seq![':'] + path),
        ),
        old_map_source(
            DiffModeV::MergeBase { from: other, to: rev },
            Some(rev),
            file,
            full_file,
        ) == Some(SourceV::Show(rev + seq![':'] + path)),
        old_map_source(DiffModeV::WorkingTree { base: rev }, merge_base, file, full_file) == Some(
            SourceV::Show(rev + seq![':'] + path),
        ),
        new_map_source(DiffModeV::WorkingTree { base: rev }, file, full_file) == Some(
            SourceV::Working(path),
        ),
{
    reveal_strlit(":");
    assert(":"@ =~= seq![':']);
    assert(Seq::<char>::empty() + ":"@ + path =~= seq![':'] + path);
}

/// The new text that is highlighted in the background is that of the diff's new
/// side.
pub proof fn law_same_new_text(mode: DiffModeV, file: DiffFileV, key: Seq<char>, full_file: bool)
    requires
        needs_new(file, full_file),
        file.new_path is Some,
    ensures
        new_text_source(mode, file, key) == new_map_source(mode, file, full_file),
{
}

/// A file that was added has no old text, and one that was deleted no new text.
/// Otherwise, with all of a file shown, each side that has a path has a text,
/// where the diff knows both sides.
pub proof fn law_sides_there(
    mode: DiffModeV,
    merge_base: Option<Seq<char>>,
    file: DiffFileV,
    full_file: bool,
)
    ensures
        file.status == FileStatus::Added ==> old_map_source(mode, merge_base, file, full_file) is None,
        file.status == FileStatus::Deleted ==> new_map_source(mode, file, full_file) is None
            && new_text_source(mode, file, Seq::empty()) is None,
        full_file && file.status != FileStatus::Added && file.old_path is Some && !(
        mode is ExternalDiff) && !(mode is MergeBase && merge_base is None) ==> old_map_source(
            mode,
            merge_base,
            file,
            full_file,
        ) is Some,
        full_file && file.status != FileStatus::Deleted && file.new_path is Some ==> new_map_source(
            mode,
            file,
            full_file,
        ) is Some,
        forall|h: int, l: int|
            0 <= h < file.hunks.len() && 0 <= l < file.hunks[h].lines.len() && (
            #[trigger] file.hunks[h].lines[l]).kind == LineKind::Deletion && file.old_path is Some
                && file.status != FileStatus::Added && !(mode is ExternalDiff) && !(
            mode is MergeBase && merge_base is None) ==> old_map_source(
                mode,
                merge_base,
                file,
                false,
            ) is Some,
        forall|h: int, l: int|
            0 <= h < file.hunks.len() && 0 <= l < file.hunks[h].lines.len() && (
            #[trigger] file.hunks[h].lines[l]).kind != LineKind::Deletion && file.new_path is Some
                && file.status != FileStatus::Deleted ==> new_map_source(mode, file, false) is Some,
{
    assert forall|h: int, l: int|
        0 <= h < file.hunks.len() && 0 <= l < file.hunks[h].lines.len() && (
        #[trigger] file.hunks[h].lines[l]).kind == LineKind::Deletion implies any_line(
        file.hunks,
        true,
    ) by {
        assert((file.hunks[h].lines[l].kind == LineKind::Deletion) == true);
    }
    assert forall|h: int, l: int|
        0 <= h < file.hunks.len() && 0 <= l < file.hunks[h].lines.len() && (
        #[trigger] file.hunks[h].lines[l]).kind != LineKind::Deletion implies any_line(
        file.hunks,
        false,
    ) by {
        assert((file.hunks[h].lines[l].kind == LineKind::Deletion) == false);
    }
}

// ---------------------------------------------------------------------------
// How hunks come about
// ---------------------------------------------------------------------------
/// Whether a line of a diff is the one that git handed over.
pub open spec fn line_taken(line: DiffLineV, e: HunkEvent) -> bool {
    e matches HunkEvent::Line { origin, old_line_no, new_line_no, content } && {
        &&& origin == '+' <==> line.kind == LineKind::Addition
        &&& origin == '-' <==> line.kind == LineKind::Deletion
        &&& line.old_line_no == old_line_no
        &&& line.new_line_no == new_line_no
        &&& line.content == content@
    }
}

/// A hunk that begins behind others, and its lines, become one more hunk: with the
/// numbers that git gave, and the lines in their order.
pub proof fn law_hunk_assembled(before: Seq<HunkEvent>, start: HunkEvent, lines: Seq<HunkEvent>)
    requires
        start is Hunk,
        forall|i: int| 0 <= i < lines.len() ==> (#[trigger] lines[i]) is Line,
    ensures
        ({
            let hunks = hunks_of(before.push(start) + lines);
            &&& hunks.len() == hunks_of(before).len() + 1
            &&& hunks.drop_last() == hunks_of(before)
            &&& start matches HunkEvent::Hunk { old_start, old_lines, new_start, new_lines, header }
                && hunks.last().old_start == old_start && hunks.last().old_lines == old_lines
                && hunks.last().new_start == new_start && hunks.last().new_lines == new_lines
                && hunks.last().header == opt_text(header)
            &&& hunks.last().lines.len() == lines.len()
            &&& forall|i: int|
                0 <= i < lines.len() ==> line_taken(#[trigger] hunks.last().lines[i], lines[i])
        }),
    decreases lines.len(),
{
    let all = before.push(start) + lines;
    let hunks = hunks_of(all);
    if lines.len() == 0 {
        assert(all =~= before.push(start));
        assert(all.drop_last() =~= before);
        assert(hunks.drop_last() =~= hunks_of(before));
    } else {
        let front = lines.drop_last();
        assert forall|i: int| 0 <= i < front.len() implies (#[trigger] front[i]) is Line by {
            assert(front[i] == lines[i]);
        }
        law_hunk_assembled(before, start, front);
        assert(all.drop_last() =~= before.push(start) + front);
        assert(all.last() == lines.last());
        assert(lines[lines.len() - 1] is Line);
        let less = hunks_of(before.push(start) + front);
        assert(hunks.drop_last() =~= less.drop_last());
        assert forall|i: int| 0 <= i < lines.len() implies line_taken(
            #[trigger] hunks.last().lines[i],
            lines[i],
        ) by {
            if i < front.len() {
                assert(hunks.last().lines[i] == less.last().lines[i]);
                assert(line_taken(less.last().lines[i], front[i]));
            }
        }
    }
}

/// Two texts beside each other: the hunk holds the new text line by line, under
/// the numbers from one on, the lines that the old text is too short for as
/// additions. A new text without lines gives no hunk.
pub proof fn law_unified_is_new_text(old: Seq<Seq<char>>, new: Seq<Seq<char>>)
    requires
        new.len() <= u32::MAX,
        old.len() <= u32::MAX,
    ensures
        new.len() == 0 ==> unified_hunks(old, new).len() == 0,
        new.len() > 0 ==> unified_hunks(old, new).len() == 1 && ({
            let hunk = unified_hunks(old, new)[0];
            &&& hunk.old_start == 1
            &&& hunk.new_start == 1
            &&& hunk.old_lines == old.len()
            &&& hunk.new_lines == new.len()
            &&& hunk.lines.len() == new.len()
            &&& forall|i: int|
                0 <= i < new.len() ==> (#[trigger] hunk.lines[i]).content == new[i]
                    && hunk.lines[i].new_line_no == Some((i + 1) as u32) && (i < old.len()
                    <==> hunk.lines[i].kind == LineKind::Context) && (i >= old.len()
                    <==> hunk.lines[i].kind == LineKind::Addition) && hunk.lines[i].old_line_no == (
                if i < old.len() {
                    Some((i + 1) as u32)
                } else {
                    None
                })
        }),
{
}

/// A file is listed as added, deleted or renamed exactly if git says that it was
/// added or copied, deleted or renamed; as modified if its text or its type
/// changed; and one that did not change is not listed.
pub proof fn law_statuses(d: Delta)
    ensures
        ({
            let files = files_of(seq![d]);
            &&& files.len() <= 1
            &&& files.len() == 0 <==> d.status == DeltaStatus::Other
            &&& files.len() == 1 ==> {
                &&& files[0].status == FileStatus::Added <==> d.status == DeltaStatus::Added
                    || d.status == DeltaStatus::Copied
                &&& files[0].status == FileStatus::Deleted <==> d.status == DeltaStatus::Deleted
                &&& files[0].status == FileStatus::Renamed <==> d.status == DeltaStatus::Renamed
                &&& files[0].status == FileStatus::Modified <==> d.status == DeltaStatus::Modified
                    || d.status == DeltaStatus::TypeChanged
                &&& files[0].old_path == opt_text(d.old_path)
                &&& files[0].new_path == opt_text(d.new_path)
            }
        }),
{
    assert(seq![d].drop_last() =~= Seq::<Delta>::empty());
    assert(files_of(seq![d].drop_last()) =~= Seq::<DiffFileV>::empty());
}

/// The lines of a syntactic diff keep their numbers and texts and their order; an
/// addition is one whose kind begins with `add`, a deletion one whose kind begins
/// with `del`, of the kinds that there are.
pub proof fn law_syntactic_lines(h: SyntacticHunk, i: int)
    requires
        0 <= i < h.changes@.len(),
    ensures
        ({
            let hunk = syntactic_hunk(h);
            let c = h.changes@[i];
            &&& hunk.lines.len() == h.changes@.len()
            &&& hunk.old_start == h.old_start
            &&& hunk.new_start == h.new_start
            &&& hunk.lines[i].old_line_no == c.old_line
            &&& hunk.lines[i].new_line_no == c.new_line
            &&& hunk.lines[i].content == c.content@
            &&& hunk.lines[i].kind == LineKind::Addition <==> c.kind@ == "add"@ || c.kind@
                == "addition"@
            &&& hunk.lines[i].kind == LineKind::Deletion <==> c.kind@ == "del"@ || c.kind@
                == "deletion"@
        }),
{
    reveal_strlit("add");
    reveal_strlit("addition");
    reveal_strlit("del");
    reveal_strlit("deletion");
    assert("add"@[0] != "del"@[0]);
    assert("addition"@[0] != "del"@[0]);
    assert("add"@[0] != "deletion"@[0]);
    assert("addition"@[0] != "deletion"@[0]);
}

/// A file is shown under its new path, or under its old one if it has no new one.
pub proof fn law_shown_path(file: DiffFileV)
    ensures
        file.new_path matches Some(p) ==> file.path() == p && file.any_path() == Some(p),
        file.new_path is None ==> (file.old_path matches Some(p) ==> file.path() == p
            && file.any_path() == Some(p)),
        file.old_path matches Some(p) ==> file.old_key() == p,
        file.new_path matches Some(p) ==> file.new_key() == p,
{
}

} // verus!
