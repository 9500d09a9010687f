//! The command line: what is compared, and what the commands print.
use vstd::prelude::*;

use crate::annotate::{anchor_of, bare_anchor, build_anchor_from_file};
use crate::diff::{DiffMode, DiffModeV};
use crate::export::{line_range, line_range_text, ExportFormat};
use crate::number::{signed_dec, signed_decimal};
use crate::outside::{lower_case, str_eq};
use crate::storage::{
    annotation_views, read_type, Annotation, AnnotationType, AnnotationV, NewAnnotation,
    NewAnnotationV, Side,
};
use crate::text::{
    byte_len, byte_length, chars_of, find_text, has_text, lines_of, occurs_at, string_of, texts,
};

verus! {

/// Parsed git diff arguments.
#[derive(Debug)]
pub struct DiffArgs {
    pub mode: DiffMode,
    pub paths: Vec<String>,
}

/// Whether arguments are those of an external diff of git:
/// path old-file old-hex old-mode new-file new-hex new-mode.
pub open spec fn external_args(args: Seq<Seq<char>>) -> bool {
    args.len() == 7 && byte_len(args[2]) == 40 && byte_len(args[5]) == 40
}

/// The position of the separator `--`, from `i` on; the end if there is none.
pub open spec fn separator(args: Seq<Seq<char>>, i: int) -> int
    decreases args.len() - i,
{
    if !(0 <= i < args.len()) {
        args.len() as int
    } else if args[i] == "--"@ {
        i
    } else {
        separator(args, i + 1)
    }
}

/// The first position at which a text stands in another, from `i` on.
pub open spec fn first_at(s: Seq<char>, pat: Seq<char>, i: int) -> Option<int>
    decreases s.len() - i,
{
    if i < 0 || i + pat.len() > s.len() {
        None
    } else if occurs_at(s, pat, i) {
        Some(i)
    } else if i < s.len() {
        first_at(s, pat, i + 1)
    } else {
        None
    }
}

/// What a single revision argument stands for: `a...b` and `a..b` are ranges.
pub open spec fn revision_mode(arg: Seq<char>) -> DiffModeV {
    match first_at(arg, "..."@, 0) {
        Some(i) => DiffModeV::MergeBase { from: arg.take(i), to: arg.skip(i + 3) },
        None => match first_at(arg, ".."@, 0) {
            Some(i) => DiffModeV::Commits { from: arg.take(i), to: arg.skip(i + 2) },
            None => DiffModeV::WorkingTree { base: arg },
        },
    }
}

/// What is compared, from the revisions in front of the separator.
pub open spec fn mode_of(revs: Seq<Seq<char>>, staged: bool) -> DiffModeV {
    if staged {
        DiffModeV::Staged
    } else if revs.len() == 0 {
        DiffModeV::Unstaged
    } else if revs.len() == 1 {
        revision_mode(revs[0])
    } else {
        DiffModeV::Commits { from: revs[0], to: revs[1] }
    }
}

/// What is compared, and the paths that the diff is restricted to.
pub open spec fn parsed(args: Seq<Seq<char>>, staged: bool) -> (DiffModeV, Seq<Seq<char>>) {
    if external_args(args) {
        (
            DiffModeV::ExternalDiff { path: args[0], old_file: args[1], new_file: args[4] },
            Seq::empty(),
        )
    } else {
        let at = separator(args, 0);
        (
            mode_of(args.take(at), staged),
            if at < args.len() {
                args.skip(at + 1)
            } else {
                Seq::empty()
            },
        )
    }
}

/// Whether arguments are those of an external diff of git.
pub fn is_git_external_diff_args(args: &[String]) -> (r: bool)
    ensures
        r == external_args(texts(args@)),
{
    assert(texts(args@).len() == args@.len());
    if args.len() != 7 {
        return false;
    }
    assert(texts(args@)[2] == args@[2]@ && texts(args@)[5] == args@[5]@);
    byte_length(args[2].as_str()) == 40 && byte_length(args[5].as_str()) == 40
}

proof fn lemma_first_at(s: Seq<char>, pat: Seq<char>, i: int, k: int)
    requires
        0 <= i <= k,
        occurs_at(s, pat, k),
        forall|j: int| i <= j < k ==> !occurs_at(s, pat, j),
    ensures
        first_at(s, pat, i) == Some(k),
    decreases k - i,
{
    if i < k {
        assert(!occurs_at(s, pat, i));
        lemma_first_at(s, pat, i + 1, k);
    }
}

proof fn lemma_first_at_none(s: Seq<char>, pat: Seq<char>, i: int)
    requires
        !has_text(s, pat),
        0 <= i,
    ensures
        first_at(s, pat, i) is None,
    decreases s.len() - i,
{
    assert(!occurs_at(s, pat, i));
    if i < s.len() {
        lemma_first_at_none(s, pat, i + 1);
    }
}

/// The texts before and behind the first place of another.
fn split_at_first(s: &str, pat: &str) -> (r: Option<(String, String)>)
    ensures
        match first_at(s@, pat@, 0) {
            Some(i) => r matches Some((a, b)) && a@ == s@.take(i) && b@ == s@.skip(
                i + pat@.len(),
            ),
            None => r is None,
        },
{
    let sc = chars_of(s);
    let pc = chars_of(pat);
    match find_text(&sc, &pc) {
        Some(i) => {
            proof {
                lemma_first_at(s@, pat@, 0, i as int);
            }
            let n = sc.len();
            let a = string_of(&sc, 0, i);
            let b = string_of(&sc, i + pc.len(), n);
            assert(a@ =~= s@.take(i as int));
            assert(b@ =~= s@.skip(i + pat@.len()));
            Some((a, b))
        },
        None => {
            proof {
                lemma_first_at_none(s@, pat@, 0);
            }
            None
        },
    }
}

fn mode_of_revision(arg: &str) -> (r: DiffMode)
    ensures
        r@ == revision_mode(arg@),
{
    proof {
        reveal_strlit("...");
        reveal_strlit("..");
    }
    if let Some((from, to)) = split_at_first(arg, "...") {
        return DiffMode::MergeBase { from, to };
    }
    match split_at_first(arg, "..") {
        Some((from, to)) => DiffMode::Commits { from, to },
        None => DiffMode::WorkingTree { base: arg.to_owned() },
    }
}

/// Copies the arguments `from..to`.
fn copy_args(args: &[String], from: usize, to: usize) -> (v: Vec<String>)
    requires
        from <= to <= args@.len(),
    ensures
        texts(v@) == texts(args@).subrange(from as int, to as int),
{
    let mut v: Vec<String> = Vec::new();
    let mut i = from;
    assert(texts(v@) =~= texts(args@).subrange(from as int, from as int));
    while i < to
        invariant
            from <= i <= to <= args@.len(),
            texts(v@) == texts(args@).subrange(from as int, i as int),
        decreases to - i,
    {
        let ghost before = texts(v@);
        v.push(args[i].clone());
        i = i + 1;
        assert(texts(v@) =~= before.push(args@[i - 1]@));
        assert(texts(v@) =~= texts(args@).subrange(from as int, i as int));
    }
    v
}

/// Parses git diff-style arguments.
pub fn parse_diff_args(args: &[String], staged: bool) -> (r: DiffArgs)
    ensures
        (r.mode@, texts(r.paths@)) == parsed(texts(args@), staged),
{
    let ghost av = texts(args@);
    let n = args.len();
    assert(av.len() == n);
    if is_git_external_diff_args(args) {
        let paths: Vec<String> = Vec::new();
        assert(texts(paths@) =~= Seq::empty());
        assert(av[0] == args@[0]@ && av[1] == args@[1]@ && av[4] == args@[4]@);
        return DiffArgs {
            mode: DiffMode::ExternalDiff {
                path: args[0].clone(),
                old_file: args[1].clone(),
                new_file: args[4].clone(),
            },
            paths,
        };
    }
    let mut at: usize = 0;
    while at < n && !str_eq(args[at].as_str(), "--")
        invariant
            at <= n,
            n == args@.len(),
            av == texts(args@),
            separator(av, 0) == separator(av, at as int),
        decreases n - at,
    {
        assert(av[at as int] == args@[at as int]@);
        at = at + 1;
    }
    if at < n {
        assert(av[at as int] == args@[at as int]@);
    }
    let revs = copy_args(args, 0, at);
    let ghost rv = av.take(at as int);
    assert(texts(revs@) =~= rv);
    assert(rv.len() == revs@.len());
    let paths = if at < n {
        let v = copy_args(args, at + 1, n);
        assert(texts(v@) =~= av.skip(at + 1));
        v
    } else {
        let v: Vec<String> = Vec::new();
        assert(texts(v@) =~= Seq::empty());
        v
    };
    let mode = if staged {
        DiffMode::Staged
    } else if revs.len() == 0 {
        DiffMode::Unstaged
    } else if revs.len() == 1 {
        assert(rv[0] == revs@[0]@);
        mode_of_revision(revs[0].as_str())
    } else {
        assert(rv[0] == revs@[0]@ && rv[1] == revs@[1]@);
        DiffMode::Commits { from: revs[0].clone(), to: revs[1].clone() }
    };
    DiffArgs { mode, paths }
}

/// What is printed where there is nothing to show.
pub open spec fn no_changes(mode: DiffModeV) -> Seq<char> {
    match mode {
        DiffModeV::Unstaged => "No unstaged changes"@,
        DiffModeV::Staged => "No staged changes"@,
        DiffModeV::WorkingTree { base } => "No changes against "@ + base,
        DiffModeV::Commits { from, to } => "No changes between "@ + from + " and "@ + to,
        DiffModeV::MergeBase { from, to } => "No changes between "@ + from + " and "@ + to
            + " (merge-base)"@,
        DiffModeV::ExternalDiff { path, .. } => "No changes in "@ + path,
    }
}

/// What is printed where there is nothing to show.
pub fn no_changes_message(mode: &DiffMode) -> (s: String)
    ensures
        s@ == no_changes(mode@),
{
    match mode {
        DiffMode::Unstaged => "No unstaged changes".to_owned(),
        DiffMode::Staged => "No staged changes".to_owned(),
        DiffMode::WorkingTree { base } => {
            let mut s = "No changes against ".to_owned();
            s.push_str(base.as_str());
            s
        },
        DiffMode::Commits { from, to } => {
            let mut s = "No changes between ".to_owned();
            s.push_str(from.as_str());
            s.push_str(" and ");
            s.push_str(to.as_str());
            s
        },
        DiffMode::MergeBase { from, to } => {
            let mut s = "No changes between ".to_owned();
            s.push_str(from.as_str());
            s.push_str(" and ");
            s.push_str(to.as_str());
            s.push_str(" (merge-base)");
            s
        },
        DiffMode::ExternalDiff { path, .. } => {
            let mut s = "No changes in ".to_owned();
            s.push_str(path.as_str());
            s
        },
    }
}

/// An annotation in the printed list.
pub open spec fn listed(a: AnnotationV) -> Seq<char> {
    "  #"@ + signed_dec(a.id as int) + " "@ + (match a.annotation_type {
        AnnotationType::Comment => "[C]"@,
        AnnotationType::Todo => "[T]"@,
    }) + " "@ + line_range(a) + (match a.side {
        Side::Old => " (old)"@,
        Side::New => ""@,
    }) + ": "@ + a.content + "\n"@
}

/// The file whose annotations come last among the first `n`.
pub open spec fn listed_file(annotations: Seq<AnnotationV>, n: int) -> Seq<char> {
    if n <= 0 {
        Seq::empty()
    } else {
        annotations[n - 1].file_path
    }
}

/// The first `n` annotations as they are printed: under the path of their file
/// wherever it changes, with an empty line between files.
pub open spec fn listing(annotations: Seq<AnnotationV>, n: int) -> Seq<char>
    decreases n,
{
    if n <= 0 {
        Seq::empty()
    } else {
        let before = listing(annotations, n - 1);
        let file = listed_file(annotations, n - 1);
        let a = annotations[n - 1];
        let titled = if a.file_path == file {
            before
        } else {
            (if file.len() == 0 {
                before
            } else {
                before + "\n"@
            }) + a.file_path + ":\n"@
        };
        titled + listed(a)
    }
}

fn push_listed(s: &mut String, a: &Annotation)
    ensures
        final(s)@ == old(s)@ + listed(a@),
{
    let ghost before = s@;
    s.push_str("  #");
    s.push_str(signed_decimal(a.id).as_str());
    s.push_str(" ");
    s.push_str(
        match a.annotation_type {
            AnnotationType::Comment => "[C]",
            AnnotationType::Todo => "[T]",
        },
    );
    s.push_str(" ");
    s.push_str(line_range_text(a).as_str());
    s.push_str(
        match a.side {
            Side::Old => " (old)",
            Side::New => "",
        },
    );
    s.push_str(": ");
    s.push_str(a.content.as_str());
    s.push_str("\n");
    assert(s@ =~= before + listed(a@));
}

/// The annotations as they are printed.
pub fn list_text(annotations: &[Annotation]) -> (s: String)
    ensures
        s@ == (if annotations@.len() == 0 {
            "No annotations found\n"@
        } else {
            listing(annotation_views(annotations@), annotations@.len() as int)
        }),
{
    let ghost av = annotation_views(annotations@);
    if annotations.len() == 0 {
        return "No annotations found\n".to_owned();
    }
    let mut s = String::new();
    let mut file = String::new();
    let mut i: usize = 0;
    assert(s@ =~= listing(av, 0));
    assert(file@ =~= listed_file(av, 0));
    while i < annotations.len()
        invariant
            i <= annotations@.len(),
            av == annotation_views(annotations@),
            s@ == listing(av, i as int),
            file@ == listed_file(av, i as int),
        decreases annotations@.len() - i,
    {
        let a = &annotations[i];
        assert(av[i as int] == a@);
        if !str_eq(a.file_path.as_str(), file.as_str()) {
            if !file.as_str().is_empty() {
                s.push_str("\n");
            }
            s.push_str(a.file_path.as_str());
            s.push_str(":\n");
            file = a.file_path.clone();
        }
        push_listed(&mut s, a);
        i = i + 1;
    }
    s
}

/// Why an annotation cannot be added from the command line.
#[derive(Debug, Clone, Copy, PartialEq, Eq, Structural)]
pub enum ArgError {
    InvalidAnnotationType,
    InvalidFormat,
}

impl ArgError {
    /// What is printed.
    pub fn message(&self) -> (s: &'static str)
        ensures
            s@ == (match self {
                ArgError::InvalidAnnotationType =>
                    "Invalid annotation type. Use: comment or todo"@,
                ArgError::InvalidFormat => "Invalid format. Use: markdown (md) or json"@,
            }),
    {
        match self {
            ArgError::InvalidAnnotationType => "Invalid annotation type. Use: comment or todo",
            ArgError::InvalidFormat => "Invalid format. Use: markdown (md) or json",
        }
    }
}

/// The annotation that is added from the command line: on the new side, and
/// anchored to the file if it can be read.
pub open spec fn added(
    file: Seq<char>,
    line: u32,
    end_line: Option<u32>,
    annotation_type: AnnotationType,
    content: Seq<char>,
    text: Option<Seq<char>>,
) -> NewAnnotationV {
    let anchor = match text {
        Some(t) => anchor_of(lines_of(t), line),
        None => bare_anchor(line),
    };
    NewAnnotationV {
        file_path: file,
        commit_sha: None,
        side: Side::New,
        start_line: line,
        end_line,
        annotation_type,
        content,
        anchor_line: anchor.line,
        anchor_text: anchor.text,
        context_before: anchor.before,
        context_after: anchor.after,
    }
}

/// The annotation that is added from the command line. `text` is the text of
/// the file, if it can be read.
pub fn prepare_annotation(
    file: &str,
    line: u32,
    end_line: Option<u32>,
    annotation_type: &str,
    content: &str,
    text: Option<&str>,
) -> (r: Result<NewAnnotation, ArgError>)
    ensures
        match read_type(annotation_type@) {
            Some(t) => r matches Ok(a) && a@ == added(
                file@,
                line,
                end_line,
                t,
                content@,
                match text {
                    Some(s) => Some(s@),
                    None => None,
                },
            ),
            None => r == Err::<NewAnnotation, ArgError>(ArgError::InvalidAnnotationType),
        },
{
    let t = match AnnotationType::from_str(annotation_type) {
        Some(t) => t,
        None => {
            return Err(ArgError::InvalidAnnotationType);
        },
    };
    let anchor = build_anchor_from_file(text, line);
    Ok(
        NewAnnotation {
            file_path: file.to_owned(),
            commit_sha: None,
            side: Side::New,
            start_line: line,
            end_line,
            annotation_type: t,
            content: content.to_owned(),
            anchor_line: anchor.line,
            anchor_text: anchor.text,
            context_before: anchor.before,
            context_after: anchor.after,
        },
    )
}

/// The format of an export.
pub fn parse_format(format: &str) -> (r: Result<ExportFormat, ArgError>)
    ensures
        r == (match crate::export::format_named(lower_case(format@)) {
            Some(f) => Ok::<ExportFormat, ArgError>(f),
            None => Err(ArgError::InvalidFormat),
        }),
{
    match ExportFormat::from_str(format) {
        Some(f) => Ok(f),
        None => Err(ArgError::InvalidFormat),
    }
}

// ---------------------------------------------------------------------------
// Laws
// ---------------------------------------------------------------------------
/// Of a range, the two revisions and the dots between them make up the
/// argument.
pub proof fn law_ranges_split(arg: Seq<char>)
    ensures
        match revision_mode(arg) {
            DiffModeV::MergeBase { from, to } => arg == from + "..."@ + to,
            DiffModeV::Commits { from, to } => arg == from + ".."@ + to,
            DiffModeV::WorkingTree { base } => arg == base,
            _ => false,
        },
{
    reveal_strlit("...");
    reveal_strlit("..");
    lemma_found(arg, "..."@, 0);
    lemma_found(arg, ".."@, 0);
    match first_at(arg, "..."@, 0) {
        Some(i) => {
            assert(arg =~= arg.take(i) + arg.subrange(i, i + 3) + arg.skip(i + 3));
        },
        None => match first_at(arg, ".."@, 0) {
            Some(i) => {
                assert(arg =~= arg.take(i) + arg.subrange(i, i + 2) + arg.skip(i + 2));
            },
            None => {},
        },
    }
}

proof fn lemma_found(s: Seq<char>, pat: Seq<char>, i: int)
    ensures
        first_at(s, pat, i) matches Some(k) ==> i <= k && occurs_at(s, pat, k),
    decreases s.len() - i,
{
    if 0 <= i && i + pat.len() <= s.len() && !occurs_at(s, pat, i) && i < s.len() {
        lemma_found(s, pat, i + 1);
    }
}

proof fn lemma_separator(args: Seq<Seq<char>>, i: int, k: int)
    requires
        0 <= i <= k < args.len(),
        args[k] == "--"@,
        forall|j: int| i <= j < k ==> args[j] != "--"@,
    ensures
        separator(args, i) == k,
    decreases k - i,
{
    if i < k {
        assert(args[i] != "--"@);
        lemma_separator(args, i + 1, k);
    }
}

/// Revisions stand in front of the first separator, and what follows it are
/// paths, whatever they are.
pub proof fn law_paths_behind_separator(revs: Seq<Seq<char>>, paths: Seq<Seq<char>>, staged: bool)
    requires
        !revs.contains("--"@),
        !external_args(revs + seq!["--"@] + paths),
    ensures
        parsed(revs + seq!["--"@] + paths, staged) == (mode_of(revs, staged), paths),
{
    let args = revs + seq!["--"@] + paths;
    assert forall|j: int| 0 <= j < revs.len() implies args[j] != "--"@ by {
        assert(args[j] == revs[j]);
    }
    lemma_separator(args, 0, revs.len() as int);
    assert(args.take(revs.len() as int) =~= revs);
    assert(args.skip(revs.len() as int + 1) =~= paths);
}

proof fn lemma_nowhere(s: Seq<char>, pat: Seq<char>, i: int)
    requires
        0 <= i,
        forall|j: int| i <= j && j + pat.len() <= s.len() ==> !occurs_at(s, pat, j),
    ensures
        first_at(s, pat, i) is None,
    decreases s.len() - i,
{
    if i + pat.len() <= s.len() && i < s.len() {
        lemma_nowhere(s, pat, i + 1);
    }
}

/// Two revisions with two dots between them are a range of commits, and with three
/// dots the range from their merge base; a revision without dots is what the
/// working tree is compared with.
pub proof fn law_range_arguments(a: Seq<char>, b: Seq<char>)
    requires
        a != "--"@,
        forall|i: int| 0 <= i < a.len() ==> #[trigger] a[i] != '.',
        forall|i: int| 0 <= i < b.len() ==> #[trigger] b[i] != '.',
    ensures
        parsed(seq![a + ".."@ + b], false).0 == (DiffModeV::Commits { from: a, to: b }),
        parsed(seq![a + "..."@ + b], false).0 == (DiffModeV::MergeBase { from: a, to: b }),
        parsed(seq![a], false).0 == (DiffModeV::WorkingTree { base: a }),
{
    reveal_strlit("..");
    reveal_strlit("...");
    reveal_strlit("--");
    let two = a + ".."@ + b;
    let three = a + "..."@ + b;
    let n = a.len() as int;
    assert forall|i: int| 0 <= i < two.len() implies (two[i] == '.') == (n <= i < n + 2) by {}
    assert forall|i: int| 0 <= i < three.len() implies (three[i] == '.') == (n <= i < n + 3) by {}
    assert forall|j: int| 0 <= j && j + 3 <= two.len() implies !occurs_at(two, "..."@, j) by {
        if occurs_at(two, "..."@, j) {
            let sub = two.subrange(j, j + 3);
            assert(sub == "..."@);
            assert(sub[0] == '.' && sub[1] == '.' && sub[2] == '.');
            assert(two[j] == '.' && two[j + 1] == '.' && two[j + 2] == '.');
        }
    }
    lemma_nowhere(two, "..."@, 0);
    assert forall|j: int| 0 <= j < n implies !occurs_at(two, ".."@, j) by {
        if occurs_at(two, ".."@, j) {
            let sub = two.subrange(j, j + 2);
            assert(sub[0] == '.');
            assert(two[j] == '.');
        }
    }
    assert(two.subrange(n, n + 2) =~= ".."@);
    lemma_first_at(two, ".."@, 0, n);
    assert forall|j: int| 0 <= j < n implies !occurs_at(three, "..."@, j) by {
        if occurs_at(three, "..."@, j) {
            let sub = three.subrange(j, j + 3);
            assert(sub[0] == '.');
            assert(three[j] == '.');
        }
    }
    assert(three.subrange(n, n + 3) =~= "..."@);
    lemma_first_at(three, "..."@, 0, n);
    assert(two.take(n) =~= a && two.skip(n + 2) =~= b);
    assert(three.take(n) =~= a && three.skip(n + 3) =~= b);
    assert forall|j: int| 0 <= j && j + 2 <= a.len() implies !occurs_at(a, ".."@, j) by {
        if occurs_at(a, ".."@, j) {
            let sub = a.subrange(j, j + 2);
            assert(sub[0] == '.');
            assert(a[j] == '.');
        }
    }
    lemma_nowhere(a, ".."@, 0);
    assert forall|j: int| 0 <= j && j + 3 <= a.len() implies !occurs_at(a, "..."@, j) by {
        if occurs_at(a, "..."@, j) {
            let sub = a.subrange(j, j + 3);
            assert(sub[0] == '.');
            assert(a[j] == '.');
        }
    }
    lemma_nowhere(a, "..."@, 0);
    assert(two[n] == '.');
    assert(three[n] == '.');
    lemma_one_argument(two);
    lemma_one_argument(three);
    lemma_one_argument_or_separator(a);
}

proof fn lemma_one_argument(arg: Seq<char>)
    requires
        exists|i: int| 0 <= i < arg.len() && #[trigger] arg[i] == '.',
    ensures
        parsed(seq![arg], false).0 == revision_mode(arg),
{
    reveal_strlit("--");
    let i = choose|i: int| 0 <= i < arg.len() && #[trigger] arg[i] == '.';
    assert(arg != "--"@) by {
        assert(arg[i] != '-');
    }
    lemma_one_argument_or_separator(arg);
}

proof fn lemma_one_argument_or_separator(arg: Seq<char>)
    ensures
        arg != "--"@ ==> parsed(seq![arg], false).0 == revision_mode(arg),
{
    let args = seq![arg];
    if arg != "--"@ {
        reveal_with_fuel(separator, 2);
        assert(separator(args, 0) == 1);
        assert(args.take(1) =~= args);
    }
}

/// Without arguments the diff is of what is not staged, with the flag of what is;
/// two revisions are a range from the first to the second; and the seven arguments
/// of an external diff are taken for its path and its two files.
pub proof fn law_other_arguments(a: Seq<char>, b: Seq<char>, rest: Seq<Seq<char>>)
    requires
        a != "--"@,
        b != "--"@,
    ensures
        parsed(Seq::empty(), false) == (DiffModeV::Unstaged, Seq::<Seq<char>>::empty()),
        parsed(Seq::empty(), true) == (DiffModeV::Staged, Seq::<Seq<char>>::empty()),
        parsed(seq![a, b], false) == (
            DiffModeV::Commits { from: a, to: b },
            Seq::<Seq<char>>::empty(),
        ),
        parsed(seq![a, b], true).0 == DiffModeV::Staged,
        rest.len() == 7 && byte_len(rest[2]) == 40 && byte_len(rest[5]) == 40 ==> parsed(rest, false)
            == (
            DiffModeV::ExternalDiff { path: rest[0], old_file: rest[1], new_file: rest[4] },
            Seq::<Seq<char>>::empty(),
        ),
{
    let none = Seq::<Seq<char>>::empty();
    assert(none.take(0) =~= none);
    let two = seq![a, b];
    reveal_with_fuel(separator, 3);
    assert(separator(two, 0) == 2);
    assert(two.take(2) =~= two);
}

/// An annotation that is added from the command line is one of the new side for the
/// lines that were given, anchored to the first of them.
pub proof fn law_added_from_arguments(
    file: Seq<char>,
    line: u32,
    end_line: Option<u32>,
    annotation_type: AnnotationType,
    content: Seq<char>,
    text: Option<Seq<char>>,
)
    ensures
        ({
            let a = added(file, line, end_line, annotation_type, content, text);
            &&& a.file_path == file
            &&& a.side == Side::New
            &&& a.start_line == line
            &&& a.end_line == end_line
            &&& a.annotation_type == annotation_type
            &&& a.content == content
            &&& a.anchor_line == line
            &&& a.commit_sha is None
            &&& text matches Some(t) ==> 1 <= line <= lines_of(t).len() ==> a.anchor_text
                == lines_of(t)[line - 1]
        }),
{
}

/// Every annotation is in the printed list, behind the path of its file: with its
/// id, its type, the lines that it is about, its side and its text. The path is
/// printed in front of the first annotation of a file.
pub proof fn law_listed(annotations: Seq<AnnotationV>, k: int, n: int) -> (r: (
    (Seq<char>, Seq<char>),
    (Seq<char>, Seq<char>, Seq<char>),
))
    requires
        0 <= k < n <= annotations.len(),
    ensures
        ({
            let a = annotations[k];
            let ((front, after), (id, first, last)) = r;
            &&& crate::number::i64_value(id) == Some(a.id)
            &&& crate::number::u32_value(first) == Some(a.start_line)
            &&& a.end_line matches Some(end) ==> crate::number::u32_value(last) == Some(end)
            &&& listing(annotations, n) == front + ("  #"@ + id + " "@ + (if a.annotation_type
                == AnnotationType::Todo {
                "[T]"@
            } else {
                "[C]"@
            }) + " "@ + (match a.end_line {
                Some(_) => "L"@ + first + "-"@ + last,
                None => "L"@ + first,
            }) + (if a.side == Side::Old {
                " (old)"@
            } else {
                ""@
            }) + ": "@ + a.content + "\n"@) + after
            &&& a.file_path.len() > 0 && (k == 0 || annotations[k - 1].file_path != a.file_path)
                ==> exists|start: Seq<char>| front == #[trigger] (start + a.file_path) + ":\n"@
        }),
    decreases n,
{
    let a = annotations[k];
    if k == n - 1 {
        let before = listing(annotations, k);
        let file = listed_file(annotations, k);
        let start = if file.len() == 0 {
            before
        } else {
            before + "\n"@
        };
        let front = if a.file_path == file {
            before
        } else {
            start + a.file_path + ":\n"@
        };
        let none = Seq::<char>::empty();
        assert(listing(annotations, n) == front + listed(a));
        assert(front + listed(a) =~= front + listed(a) + none);
        crate::number::law_number_round_trip(a.id, a.start_line);
        if let Some(end) = a.end_line {
            crate::number::law_number_round_trip(0, end);
        }
        let last = match a.end_line {
            Some(end) => crate::number::dec(end as nat),
            None => none,
        };
        (
            (front, none),
            (signed_dec(a.id as int), crate::number::dec(a.start_line as nat), last),
        )
    } else {
        let ((front, after), parts) = law_listed(annotations, k, n - 1);
        let before = listing(annotations, n - 1);
        let b = annotations[n - 1];
        let file = listed_file(annotations, n - 1);
        let tail = if b.file_path == file {
            listed(b)
        } else {
            (if file.len() == 0 {
                Seq::<char>::empty()
            } else {
                "\n"@
            }) + b.file_path + ":\n"@ + listed(b)
        };
        assert(listing(annotations, n) =~= before + tail);
        let more = after + tail;
        lemma_tail(before, front, listed(a), after, tail);
        ((front, more), parts)
    }
}

proof fn lemma_tail(whole: Seq<char>, a: Seq<char>, b: Seq<char>, c: Seq<char>, d: Seq<char>)
    ensures
        whole == a + b + c ==> whole + d == a + b + (c + d),
{
    if whole == a + b + c {
        assert(whole + d =~= a + b + (c + d));
    }
}

} // verus!
