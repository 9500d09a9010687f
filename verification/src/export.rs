//! Export functionality for annotations: markdown for reading, records for
//! programs.
use vstd::prelude::*;

use crate::number::{dec, decimal, law_number_round_trip, u32_value};
use crate::outside::{lower_case, str_eq, to_lower};
use crate::storage::{
    annotation_views, stored_side, stored_type, Annotation, AnnotationType, AnnotationV, Side,
};
use crate::text::{
    chars_of, chars_within, cut_to_bytes, join, joined, law_split_of_join, lemma_text_order,
    lemma_text_order_transitive, lines, lines_of, one_line, opt_text, text_less, text_lt, texts,
};

verus! {

/// Export format options.
#[derive(Debug, Clone, Copy, PartialEq, Eq, Structural)]
pub enum ExportFormat {
    Markdown,
    Json,
}

/// The format that a name in lower case stands for.
pub open spec fn format_named(name: Seq<char>) -> Option<ExportFormat> {
    if name == "md"@ || name == "markdown"@ {
        Some(ExportFormat::Markdown)
    } else if name == "json"@ {
        Some(ExportFormat::Json)
    } else {
        None
    }
}

impl ExportFormat {
    /// The format that a name stands for, in upper or lower case.
    pub fn from_str(s: &str) -> (r: Option<Self>)
        ensures
            r == format_named(lower_case(s@)),
    {
        Self::from_lower_case(to_lower(s).as_str())
    }

    /// The format that a name in lower case stands for.
    pub fn from_lower_case(name: &str) -> (r: Option<Self>)
        ensures
            r == format_named(name@),
    {
        if str_eq(name, "md") || str_eq(name, "markdown") {
            Some(ExportFormat::Markdown)
        } else if str_eq(name, "json") {
            Some(ExportFormat::Json)
        } else {
            None
        }
    }
}

// ---------------------------------------------------------------------------
// Code excerpts
// ---------------------------------------------------------------------------
/// The lines of a text, if it holds any.
pub open spec fn some_lines(s: Seq<char>) -> Seq<Seq<char>> {
    if s.len() == 0 {
        Seq::empty()
    } else {
        lines_of(s)
    }
}

/// The lines around an annotation, as far as they are known.
pub open spec fn excerpt_lines(a: AnnotationV) -> Seq<Seq<char>> {
    some_lines(a.context_before) + (if a.anchor_text.len() == 0 {
        Seq::empty()
    } else {
        seq![a.anchor_text]
    }) + some_lines(a.context_after)
}

/// The code around an annotation, if any is known.
pub open spec fn excerpt_of(a: AnnotationV) -> Option<Seq<char>> {
    if excerpt_lines(a).len() == 0 {
        None
    } else {
        Some(joined(excerpt_lines(a), "\n"@))
    }
}

fn push_lines(v: &mut Vec<String>, s: &str)
    ensures
        texts(final(v)@) == texts(old(v)@) + some_lines(s@),
{
    let ghost before = texts(v@);
    if !s.is_empty() {
        let mut more = lines(s);
        let ghost m = texts(more@);
        v.append(&mut more);
        assert(texts(v@) =~= before + m);
    } else {
        assert(texts(v@) =~= before + Seq::empty());
    }
}

/// The code around an annotation, if any is known.
pub fn annotation_code_excerpt(annotation: &Annotation) -> (r: Option<String>)
    ensures
        opt_text(r) == excerpt_of(annotation@),
{
    let mut v: Vec<String> = Vec::new();
    assert(texts(v@) =~= Seq::empty());
    push_lines(&mut v, annotation.context_before.as_str());
    let ghost before = texts(v@);
    if !annotation.anchor_text.as_str().is_empty() {
        v.push(annotation.anchor_text.clone());
        assert(texts(v@) =~= before + seq![annotation.anchor_text@]);
    } else {
        assert(texts(v@) =~= before + Seq::empty());
    }
    push_lines(&mut v, annotation.context_after.as_str());
    assert(texts(v@) =~= excerpt_lines(annotation@));
    assert(texts(v@).len() == v@.len());
    if v.len() == 0 {
        None
    } else {
        Some(join(&v, "\n"))
    }
}

/// The code around an annotation in markdown.
pub open spec fn code_context(a: AnnotationV) -> Seq<char> {
    match excerpt_of(a) {
        None => Seq::empty(),
        Some(code) => {
            let start = "**"@ + (match a.side {
                Side::Old => "Old code context"@,
                Side::New => "Code context"@,
            }) + ":**\n\n"@ + "```text\n"@ + code;
            (if code.len() > 0 && code.last() == '\n' {
                start
            } else {
                start + "\n"@
            }) + "```\n\n"@
        },
    }
}

/// Adds the code around an annotation in markdown.
pub fn append_markdown_code_context(output: &mut String, annotation: &Annotation)
    ensures
        final(output)@ == old(output)@ + code_context(annotation@),
{
    let ghost before = output@;
    let code = match annotation_code_excerpt(annotation) {
        Some(code) => code,
        None => {
            assert(output@ =~= before + code_context(annotation@));
            return ;
        },
    };
    output.push_str("**");
    output.push_str(
        match annotation.side {
            Side::Old => "Old code context",
            Side::New => "Code context",
        },
    );
    output.push_str(":**\n\n");
    output.push_str("```text\n");
    output.push_str(code.as_str());
    let chars = chars_of(code.as_str());
    if !(chars.len() > 0 && chars[chars.len() - 1] == '\n') {
        output.push_str("\n");
    }
    output.push_str("```\n\n");
    assert(output@ =~= before + code_context(annotation@));
}

// ---------------------------------------------------------------------------
// Markdown
// ---------------------------------------------------------------------------
/// The lines that an annotation is about.
pub open spec fn line_range(a: AnnotationV) -> Seq<char> {
    match a.end_line {
        Some(end) => "L"@ + dec(a.start_line as nat) + "-"@ + dec(end as nat),
        None => "L"@ + dec(a.start_line as nat),
    }
}

/// Writes the lines that an annotation is about.
pub fn line_range_text(a: &Annotation) -> (s: String)
    ensures
        s@ == line_range(a@),
{
    let mut s = "L".to_owned();
    s.push_str(decimal(a.start_line as u64).as_str());
    if let Some(end) = a.end_line {
        s.push_str("-");
        s.push_str(decimal(end as u64).as_str());
    }
    s
}

/// The lines of a task behind its first, up to line `n`.
pub open spec fn more_lines(content: Seq<Seq<char>>, n: int) -> Seq<char>
    decreases n,
{
    if n <= 1 {
        Seq::empty()
    } else {
        more_lines(content, n - 1) + "  "@ + content[n - 1] + "\n"@
    }
}

/// Where an annotation is, in its heading.
pub open spec fn place(a: AnnotationV) -> Seq<char> {
    line_range(a) + (match a.side {
        Side::Old => " (deleted code)"@,
        Side::New => ""@,
    })
}

/// An annotation without its code, in markdown: a task, or a heading with a
/// comment.
pub open spec fn note(a: AnnotationV) -> Seq<char> {
    match a.annotation_type {
        AnnotationType::Todo => {
            let content = lines_of(a.content);
            "- [ ] "@ + place(a) + ": "@ + (if content.len() > 0 {
                content[0]
            } else {
                ""@
            }) + "\n"@ + more_lines(content, content.len() as int) + "\n"@
        },
        AnnotationType::Comment => "### 💬 "@ + place(a) + "\n\n"@ + a.content + "\n\n"@,
    }
}

/// The commit of an annotation in markdown, with the start of its name.
pub open spec fn commit_note(a: AnnotationV) -> Seq<char> {
    match a.commit_sha {
        Some(sha) => "_Commit: "@ + sha.take(chars_within(sha, 7)) + "_\n\n"@,
        None => Seq::empty(),
    }
}

/// An annotation in markdown.
pub open spec fn entry(a: AnnotationV) -> Seq<char> {
    note(a) + code_context(a) + commit_note(a)
}

/// The annotations of a file among the first `n`, in markdown.
pub open spec fn file_entries(annotations: Seq<AnnotationV>, path: Seq<char>, n: int) -> Seq<char>
    decreases n,
{
    if n <= 0 {
        Seq::empty()
    } else {
        let before = file_entries(annotations, path, n - 1);
        if annotations[n - 1].file_path == path {
            before + entry(annotations[n - 1])
        } else {
            before
        }
    }
}

/// Puts a path into a list of paths in their order, unless it is there.
pub open spec fn insert_path(paths: Seq<Seq<char>>, path: Seq<char>) -> Seq<Seq<char>>
    decreases paths.len(),
{
    if paths.len() == 0 || text_lt(paths.last(), path) {
        paths.push(path)
    } else if paths.last() == path {
        paths
    } else {
        insert_path(paths.drop_last(), path).push(paths.last())
    }
}

/// The files of the first `n` annotations in their order, each of them once.
pub open spec fn files_of(annotations: Seq<AnnotationV>, n: int) -> Seq<Seq<char>>
    decreases n,
{
    if n <= 0 {
        Seq::empty()
    } else {
        insert_path(files_of(annotations, n - 1), annotations[n - 1].file_path)
    }
}

/// The sections of the first `m` files.
pub open spec fn sections(annotations: Seq<AnnotationV>, paths: Seq<Seq<char>>, m: int) -> Seq<char>
    decreases m,
{
    if m <= 0 {
        Seq::empty()
    } else {
        sections(annotations, paths, m - 1) + "## "@ + paths[m - 1] + "\n\n"@ + file_entries(
            annotations,
            paths[m - 1],
            annotations.len() as int,
        )
    }
}

/// Annotations in markdown, file by file.
pub open spec fn markdown(annotations: Seq<AnnotationV>) -> Seq<char> {
    if annotations.len() == 0 {
        "# No annotations found\n"@
    } else {
        let paths = files_of(annotations, annotations.len() as int);
        "# Code Annotations\n\n"@ + sections(annotations, paths, paths.len() as int)
    }
}

fn push_place(output: &mut String, a: &Annotation)
    ensures
        final(output)@ == old(output)@ + place(a@),
{
    let ghost before = output@;
    output.push_str(line_range_text(a).as_str());
    output.push_str(
        match a.side {
            Side::Old => " (deleted code)",
            Side::New => "",
        },
    );
    assert(output@ =~= before + place(a@));
}

fn push_note(output: &mut String, a: &Annotation)
    ensures
        final(output)@ == old(output)@ + note(a@),
{
    let ghost before = output@;
    match a.annotation_type {
        AnnotationType::Todo => {
            let content = lines(a.content.as_str());
            let ghost cv = lines_of(a.content@);
            assert(cv.len() == content@.len());
            output.push_str("- [ ] ");
            push_place(output, a);
            output.push_str(": ");
            if content.len() > 0 {
                assert(cv[0] == content@[0]@);
                output.push_str(content[0].as_str());
            } else {
                output.push_str("");
            }
            output.push_str("\n");
            let ghost head = output@;
            let mut i: usize = 1;
            assert(head + more_lines(cv, 1) =~= head);
            while i < content.len()
                invariant
                    1 <= i,
                    i <= content@.len() || i == 1,
                    cv == texts(content@),
                    output@ == head + more_lines(cv, i as int),
                decreases content@.len() - i,
            {
                assert(cv[i as int] == content@[i as int]@);
                output.push_str("  ");
                output.push_str(content[i].as_str());
                output.push_str("\n");
                i = i + 1;
                assert(output@ =~= head + more_lines(cv, i as int));
            }
            assert(more_lines(cv, i as int) =~= more_lines(cv, cv.len() as int));
            output.push_str("\n");
            assert(output@ =~= before + note(a@));
        },
        AnnotationType::Comment => {
            output.push_str("### 💬 ");
            push_place(output, a);
            output.push_str("\n\n");
            output.push_str(a.content.as_str());
            output.push_str("\n\n");
            assert(output@ =~= before + note(a@));
        },
    }
}

fn push_entry(output: &mut String, a: &Annotation)
    ensures
        final(output)@ == old(output)@ + entry(a@),
{
    let ghost before = output@;
    push_note(output, a);
    append_markdown_code_context(output, a);
    if let Some(sha) = &a.commit_sha {
        output.push_str("_Commit: ");
        output.push_str(cut_to_bytes(sha.as_str(), 7).as_str());
        output.push_str("_\n\n");
    }
    assert(output@ =~= before + entry(a@));
}

proof fn lemma_insert_path_at(paths: Seq<Seq<char>>, path: Seq<char>, at: int)
    requires
        0 <= at <= paths.len(),
        at > 0 ==> text_lt(paths[at - 1], path),
        forall|i: int|
            at <= i < paths.len() ==> !text_lt(#[trigger] paths[i], path) && paths[i] != path,
    ensures
        insert_path(paths, path) == paths.insert(at, path),
    decreases paths.len(),
{
    if paths.len() == at {
        assert(paths.insert(at, path) =~= paths.push(path));
    } else {
        assert(!text_lt(paths[paths.len() - 1], path) && paths[paths.len() - 1] != path);
        lemma_insert_path_at(paths.drop_last(), path, at);
        assert(paths.insert(at, path) =~= paths.drop_last().insert(at, path).push(paths.last()));
    }
}

proof fn lemma_insert_path_present(paths: Seq<Seq<char>>, path: Seq<char>, at: int)
    requires
        0 < at <= paths.len(),
        paths[at - 1] == path,
        forall|i: int|
            at <= i < paths.len() ==> !text_lt(#[trigger] paths[i], path) && paths[i] != path,
    ensures
        insert_path(paths, path) == paths,
    decreases paths.len(),
{
    lemma_text_order(path, path);
    if paths.len() > at {
        assert(!text_lt(paths[paths.len() - 1], path) && paths[paths.len() - 1] != path);
        lemma_insert_path_present(paths.drop_last(), path, at);
        assert(paths.drop_last().push(paths.last()) =~= paths);
    }
}

fn add_path(paths: &mut Vec<String>, path: &str)
    ensures
        texts(final(paths)@) == insert_path(texts(old(paths)@), path@),
{
    let ghost pv = texts(paths@);
    let mut at: usize = paths.len();
    while at > 0 && !text_less(paths[at - 1].as_str(), path) && !str_eq(
        paths[at - 1].as_str(),
        path,
    )
        invariant
            at <= paths@.len(),
            pv == texts(paths@),
            forall|i: int|
                at <= i < pv.len() ==> !text_lt(#[trigger] pv[i], path@) && pv[i] != path@,
        decreases at,
    {
        assert(pv[at - 1] == paths@[at - 1]@);
        at = at - 1;
    }
    if at > 0 {
        assert(pv[at - 1] == paths@[at - 1]@);
    }
    if at > 0 && str_eq(paths[at - 1].as_str(), path) {
        proof {
            lemma_insert_path_present(pv, path@, at as int);
        }
    } else {
        proof {
            lemma_insert_path_at(pv, path@, at as int);
        }
        paths.insert(at, path.to_owned());
        assert(texts(paths@) =~= pv.insert(at as int, path@));
    }
}

/// Exports annotations in markdown.
pub fn export_markdown(annotations: &[Annotation]) -> (output: String)
    ensures
        output@ == markdown(annotation_views(annotations@)),
{
    let ghost av = annotation_views(annotations@);
    assert(av.len() == annotations@.len());
    if annotations.len() == 0 {
        return "# No annotations found\n".to_owned();
    }
    let mut paths: Vec<String> = Vec::new();
    let mut i: usize = 0;
    assert(texts(paths@) =~= files_of(av, 0));
    while i < annotations.len()
        invariant
            i <= annotations@.len(),
            av == annotation_views(annotations@),
            texts(paths@) == files_of(av, i as int),
        decreases annotations@.len() - i,
    {
        assert(av[i as int] == annotations@[i as int]@);
        add_path(&mut paths, annotations[i].file_path.as_str());
        i = i + 1;
    }
    let ghost pv = texts(paths@);
    assert(pv.len() == paths@.len());
    let mut output = "# Code Annotations\n\n".to_owned();
    let ghost head = output@;
    let mut m: usize = 0;
    assert(head + sections(av, pv, 0) =~= head);
    while m < paths.len()
        invariant
            m <= paths@.len(),
            pv == texts(paths@),
            av == annotation_views(annotations@),
            output@ == head + sections(av, pv, m as int),
        decreases paths@.len() - m,
    {
        let ghost before = output@;
        assert(pv[m as int] == paths@[m as int]@);
        output.push_str("## ");
        output.push_str(paths[m].as_str());
        output.push_str("\n\n");
        let ghost title = output@;
        let mut j: usize = 0;
        assert(title + file_entries(av, pv[m as int], 0) =~= title);
        while j < annotations.len()
            invariant
                j <= annotations@.len(),
                m < paths@.len(),
                pv == texts(paths@),
                pv[m as int] == paths@[m as int]@,
                av == annotation_views(annotations@),
                output@ == title + file_entries(av, pv[m as int], j as int),
            decreases annotations@.len() - j,
        {
            assert(av[j as int] == annotations@[j as int]@);
            if str_eq(annotations[j].file_path.as_str(), paths[m].as_str()) {
                push_entry(&mut output, &annotations[j]);
            }
            j = j + 1;
            assert(output@ =~= title + file_entries(av, pv[m as int], j as int));
        }
        m = m + 1;
        assert(output@ =~= head + sections(av, pv, m as int));
    }
    output
}

// ---------------------------------------------------------------------------
// Records
// ---------------------------------------------------------------------------
/// An annotation as a record for programs.
#[derive(Debug)]
pub struct ExportAnnotation {
    pub file_path: String,
    pub line: u32,
    pub end_line: Option<u32>,
    pub side: String,
    pub annotation_type: String,
    pub content: String,
    pub anchor_line: u32,
    pub anchor_text: String,
    pub context_before: String,
    pub context_after: String,
    pub code_excerpt: Option<String>,
    pub commit_sha: Option<String>,
}

impl ExportAnnotation {
    /// Whether this is the record of an annotation.
    pub open spec fn records(self, a: AnnotationV) -> bool {
        &&& self.file_path@ == a.file_path
        &&& self.line == a.start_line
        &&& self.end_line == a.end_line
        &&& self.side@ == stored_side(a.side)
        &&& self.annotation_type@ == stored_type(a.annotation_type)
        &&& self.content@ == a.content
        &&& self.anchor_line == a.anchor_line
        &&& self.anchor_text@ == a.anchor_text
        &&& self.context_before@ == a.context_before
        &&& self.context_after@ == a.context_after
        &&& opt_text(self.code_excerpt) == excerpt_of(a)
        &&& opt_text(self.commit_sha) == a.commit_sha
    }
}

/// Exports annotations as records, in their order.
pub fn export_json(annotations: &[Annotation]) -> (v: Vec<ExportAnnotation>)
    ensures
        v@.len() == annotations@.len(),
        forall|i: int| 0 <= i < v@.len() ==> (#[trigger] v@[i]).records(annotations@[i]@),
{
    let mut v: Vec<ExportAnnotation> = Vec::new();
    let mut i: usize = 0;
    while i < annotations.len()
        invariant
            i <= annotations@.len(),
            v@.len() == i,
            forall|k: int| 0 <= k < i ==> (#[trigger] v@[k]).records(annotations@[k]@),
        decreases annotations@.len() - i,
    {
        let a = &annotations[i];
        v.push(
            ExportAnnotation {
                file_path: a.file_path.clone(),
                line: a.start_line,
                end_line: a.end_line,
                side: a.side.as_str().to_owned(),
                annotation_type: a.annotation_type.as_str().to_owned(),
                content: a.content.clone(),
                anchor_line: a.anchor_line,
                anchor_text: a.anchor_text.clone(),
                context_before: a.context_before.clone(),
                context_after: a.context_after.clone(),
                code_excerpt: annotation_code_excerpt(a),
                commit_sha: a.commit_sha.clone(),
            },
        );
        i = i + 1;
    }
    v
}

/// Exported annotations.
#[derive(Debug)]
pub enum Exported {
    Markdown(String),
    Json(Vec<ExportAnnotation>),
}

/// Exports annotations in a format.
pub fn export(annotations: &[Annotation], format: ExportFormat) -> (r: Exported)
    ensures
        match format {
            ExportFormat::Markdown => r matches Exported::Markdown(s) && s@ == markdown(
                annotation_views(annotations@),
            ),
            ExportFormat::Json => r matches Exported::Json(v) && v@.len() == annotations@.len()
                && forall|i: int|
                0 <= i < v@.len() ==> (#[trigger] v@[i]).records(annotations@[i]@),
        },
{
    match format {
        ExportFormat::Markdown => Exported::Markdown(export_markdown(annotations)),
        ExportFormat::Json => Exported::Json(export_json(annotations)),
    }
}

// ---------------------------------------------------------------------------
// Laws
// ---------------------------------------------------------------------------
proof fn lemma_insert_path(paths: Seq<Seq<char>>, path: Seq<char>)
    requires
        forall|i: int, j: int| 0 <= i < j < paths.len() ==> text_lt(paths[i], paths[j]),
    ensures
        ({
            let now = insert_path(paths, path);
            &&& forall|i: int, j: int| 0 <= i < j < now.len() ==> text_lt(now[i], now[j])
            &&& now.contains(path)
            &&& forall|i: int| 0 <= i < paths.len() ==> now.contains(#[trigger] paths[i])
            &&& forall|i: int|
                0 <= i < now.len() ==> (#[trigger] now[i]) == path || paths.contains(now[i])
        }),
    decreases paths.len(),
{
    let now = insert_path(paths, path);
    if paths.len() == 0 || text_lt(paths.last(), path) {
        assert(now[paths.len() as int] == path);
        assert forall|i: int, j: int| 0 <= i < j < now.len() implies text_lt(now[i], now[j]) by {
            if j == paths.len() && i < paths.len() - 1 {
                lemma_text_order_transitive(paths[i], paths[paths.len() - 1], path);
            }
        }
        assert forall|i: int| 0 <= i < paths.len() implies now.contains(#[trigger] paths[i]) by {
            assert(now[i] == paths[i]);
        }
        assert forall|i: int| 0 <= i < now.len() implies (#[trigger] now[i]) == path
            || paths.contains(now[i]) by {
            if i < paths.len() {
                assert(paths[i] == now[i]);
            }
        }
    } else if paths.last() == path {
        assert(now[paths.len() - 1] == path);
        assert forall|i: int| 0 <= i < paths.len() implies now.contains(#[trigger] paths[i]) by {
            assert(now[i] == paths[i]);
        }
        assert forall|i: int| 0 <= i < now.len() implies (#[trigger] now[i]) == path
            || paths.contains(now[i]) by {
            assert(paths[i] == now[i]);
        }
    } else {
        let front = paths.drop_last();
        let last = paths.last();
        lemma_insert_path(front, path);
        lemma_text_order(last, path);
        let before = insert_path(front, path);
        let k = choose|k: int| 0 <= k < before.len() && before[k] == path;
        assert(now[k] == path);
        assert forall|i: int| 0 <= i < paths.len() implies now.contains(#[trigger] paths[i]) by {
            if i < front.len() {
                assert(before.contains(front[i]));
                let j = choose|j: int| 0 <= j < before.len() && before[j] == front[i];
                assert(now[j] == paths[i]);
            } else {
                assert(now[before.len() as int] == paths[i]);
            }
        }
        assert forall|i: int| 0 <= i < now.len() implies (#[trigger] now[i]) == path
            || paths.contains(now[i]) by {
            if i < before.len() {
                assert(now[i] == before[i]);
                if front.contains(before[i]) {
                    let j = choose|j: int| 0 <= j < front.len() && front[j] == before[i];
                    assert(paths[j] == now[i]);
                }
            } else {
                assert(paths[paths.len() - 1] == now[i]);
            }
        }
        assert forall|i: int, j: int| 0 <= i < j < now.len() implies text_lt(now[i], now[j]) by {
            if j == before.len() {
                assert(now[i] == before[i]);
                if before[i] != path {
                    let m = choose|m: int| 0 <= m < front.len() && front[m] == before[i];
                    assert(text_lt(paths[m], paths[paths.len() - 1]));
                }
            } else {
                assert(now[i] == before[i] && now[j] == before[j]);
            }
        }
    }
}

/// The export has a section for each file with annotations and for no other,
/// each of them once, in the order of their paths.
pub proof fn law_files_once(annotations: Seq<AnnotationV>, n: int)
    requires
        0 <= n <= annotations.len(),
    ensures
        ({
            let paths = files_of(annotations, n);
            &&& forall|i: int, j: int| 0 <= i < j < paths.len() ==> text_lt(paths[i], paths[j])
            &&& forall|k: int| 0 <= k < n ==> paths.contains((#[trigger] annotations[k]).file_path)
            &&& forall|i: int|
                0 <= i < paths.len() ==> exists|k: int|
                    0 <= k < n && (#[trigger] annotations[k]).file_path == #[trigger] paths[i]
        }),
    decreases n,
{
    if n > 0 {
        law_files_once(annotations, n - 1);
        let before = files_of(annotations, n - 1);
        let path = annotations[n - 1].file_path;
        lemma_insert_path(before, path);
        let now = files_of(annotations, n);
        assert forall|k: int| 0 <= k < n implies now.contains(
            (#[trigger] annotations[k]).file_path,
        ) by {
            if k < n - 1 {
                assert(before.contains(annotations[k].file_path));
                let i = choose|i: int| 0 <= i < before.len() && before[i] == annotations[k].file_path;
                assert(now.contains(before[i]));
            }
        }
        assert forall|i: int| 0 <= i < now.len() implies exists|k: int|
            0 <= k < n && (#[trigger] annotations[k]).file_path == #[trigger] now[i] by {
            if now[i] == path {
                assert(annotations[n - 1].file_path == now[i]);
            } else {
                assert(before.contains(now[i]));
                let j = choose|j: int| 0 <= j < before.len() && before[j] == now[i];
                let k = choose|k: int|
                    0 <= k < n - 1 && (#[trigger] annotations[k]).file_path == before[j];
                assert(annotations[k].file_path == now[i]);
            }
        }
    }
}

proof fn lemma_file_entries_split(annotations: Seq<AnnotationV>, path: Seq<char>, k: int, n: int) -> (after:
    Seq<char>)
    requires
        0 <= k < n <= annotations.len(),
        annotations[k].file_path == path,
    ensures
        file_entries(annotations, path, n) == file_entries(annotations, path, k) + entry(
            annotations[k],
        ) + after,
    decreases n,
{
    if n == k + 1 {
        let none = Seq::<char>::empty();
        assert(file_entries(annotations, path, n) =~= file_entries(annotations, path, k) + entry(
            annotations[k],
        ) + none);
        none
    } else {
        let less = lemma_file_entries_split(annotations, path, k, n - 1);
        let more = if annotations[n - 1].file_path == path {
            less + entry(annotations[n - 1])
        } else {
            less
        };
        assert(file_entries(annotations, path, n) =~= file_entries(annotations, path, k) + entry(
            annotations[k],
        ) + more);
        more
    }
}

proof fn lemma_sections_split(annotations: Seq<AnnotationV>, paths: Seq<Seq<char>>, i: int, m: int) -> (after:
    Seq<char>)
    requires
        0 <= i < m <= paths.len(),
    ensures
        sections(annotations, paths, m) == sections(annotations, paths, i) + "## "@ + paths[i]
            + "\n\n"@ + file_entries(annotations, paths[i], annotations.len() as int) + after,
    decreases m,
{
    let head = sections(annotations, paths, i) + "## "@ + paths[i] + "\n\n"@ + file_entries(
        annotations,
        paths[i],
        annotations.len() as int,
    );
    if m == i + 1 {
        let none = Seq::<char>::empty();
        assert(head + none =~= head);
        none
    } else {
        let less = lemma_sections_split(annotations, paths, i, m - 1);
        let own = file_entries(annotations, paths[m - 1], annotations.len() as int);
        let more = less + "## "@ + paths[m - 1] + "\n\n"@ + own;
        assert(head + less + "## "@ + paths[m - 1] + "\n\n"@ + own =~= head + more);
        more
    }
}

/// What stands of an annotation in the export, without its code: the lines that it
/// is about, whether they are deleted code, and its text, under a heading for a
/// comment and behind a box for a task.
pub open spec fn stands_for(text: Seq<char>, a: AnnotationV, first: Seq<char>, last: Seq<char>) -> bool {
    let lines = (match a.end_line {
        Some(_) => "L"@ + first + "-"@ + last,
        None => "L"@ + first,
    }) + (if a.side == Side::Old {
        " (deleted code)"@
    } else {
        ""@
    });
    &&& u32_value(first) == Some(a.start_line)
    &&& a.end_line matches Some(end) ==> u32_value(last) == Some(end)
    &&& match a.annotation_type {
        AnnotationType::Comment => text == "### 💬 "@ + lines + "\n\n"@ + a.content + "\n\n"@,
        AnnotationType::Todo => a.content.len() > 0 && one_line(a.content) && a.content.last()
            != '\r' ==> text == "- [ ] "@ + lines + ": "@ + a.content + "\n\n"@,
    }
}

proof fn lemma_note_stands(a: AnnotationV)
    ensures
        stands_for(
            note(a),
            a,
            dec(a.start_line as nat),
            match a.end_line {
                Some(end) => dec(end as nat),
                None => Seq::empty(),
            },
        ),
{
    law_number_round_trip(0, a.start_line);
    if let Some(end) = a.end_line {
        law_number_round_trip(0, end);
    }
    if a.annotation_type == AnnotationType::Todo && a.content.len() > 0 && one_line(a.content)
        && a.content.last() != '\r' {
        let content = lines_of(a.content);
        let parts = seq![a.content];
        assert(joined(parts, seq!['\n']) == a.content);
        law_split_of_join(parts);
        assert(content =~= seq![a.content]);
        assert(more_lines(content, 1) =~= Seq::<char>::empty());
        reveal_strlit("\n");
        reveal_strlit("\n\n");
        let head = "- [ ] "@ + place(a) + ": "@ + a.content;
        assert(note(a) =~= head + "\n\n"@);
    }
}

proof fn lemma_three(a: Seq<char>, b: Seq<char>, c: Seq<char>)
    ensures
        a + b + c == a + (b + c),
{
    assert(a + b + c =~= a + (b + c));
}

proof fn lemma_regroup(
    title: Seq<char>,
    above: Seq<char>,
    mark: Seq<char>,
    path: Seq<char>,
    gap: Seq<char>,
    earlier: Seq<char>,
    text: Seq<char>,
    more: Seq<char>,
    own: Seq<char>,
    rest: Seq<char>,
)
    ensures
        title + (above + mark + path + gap + (earlier + (text + more) + own) + rest) == title + above
            + mark + path + gap + earlier + text + (more + own + rest),
{
    let head = above + mark + path + gap;
    lemma_three(title, above, mark);
    lemma_three(title, above + mark, path);
    lemma_three(title, above + mark + path, gap);
    assert(title + above + mark + path + gap == title + head);
    let inner = earlier + (text + more) + own;
    assert(inner + rest =~= earlier + text + (more + own + rest));
    lemma_three(head, inner, rest);
    lemma_three(title, head, inner + rest);
    let start = title + head;
    let tail = more + own + rest;
    assert(start + (earlier + text + tail) =~= start + earlier + text + tail);
}

/// Every annotation is in the export, in the section of its file, behind those of
/// the file that come before it in the list: with its lines, its side and its text.
pub proof fn law_export_has_annotation(annotations: Seq<AnnotationV>, k: int) -> (r: (
    (Seq<char>, Seq<char>),
    (Seq<char>, Seq<char>, Seq<char>),
))
    requires
        0 <= k < annotations.len(),
    ensures
        ({
            let a = annotations[k];
            let ((front, after), (text, first, last)) = r;
            &&& markdown(annotations) == front + "## "@ + a.file_path + "\n\n"@ + file_entries(
                annotations,
                a.file_path,
                k,
            ) + text + after
            &&& stands_for(text, a, first, last)
        }),
{
    let a = annotations[k];
    let n = annotations.len() as int;
    let paths = files_of(annotations, n);
    law_files_once(annotations, n);
    assert(paths.contains(a.file_path));
    let i = choose|i: int| 0 <= i < paths.len() && paths[i] == a.file_path;
    let rest = lemma_sections_split(annotations, paths, i, paths.len() as int);
    let own = lemma_file_entries_split(annotations, a.file_path, k, n);
    lemma_note_stands(a);
    let title = "# Code Annotations\n\n"@;
    let front = title + sections(annotations, paths, i);
    let after = code_context(a) + commit_note(a) + own + rest;
    let earlier = file_entries(annotations, a.file_path, k);
    lemma_regroup(
        title,
        sections(annotations, paths, i),
        "## "@,
        a.file_path,
        "\n\n"@,
        earlier,
        note(a),
        code_context(a) + commit_note(a),
        own,
        rest,
    );
    lemma_three(note(a), code_context(a), commit_note(a));
    let last = match a.end_line {
        Some(end) => dec(end as nat),
        None => Seq::empty(),
    };
    ((front, after), (note(a), dec(a.start_line as nat), last))
}

proof fn lemma_lines_of_joined(parts: Seq<Seq<char>>)
    requires
        parts.len() > 0,
        forall|i: int|
            0 <= i < parts.len() ==> one_line(#[trigger] parts[i]) && parts[i].len() > 0
                && parts[i].last() != '\r',
    ensures
        lines_of(joined(parts, seq!['\n'])) == parts,
        joined(parts, seq!['\n']).len() > 0,
{
    law_split_of_join(parts);
    assert(one_line(parts[parts.len() - 1]));
    assert forall|i: int| 0 <= i < parts.len() implies crate::text::chomped(parts[i])
        == parts[i] by {
        assert(one_line(parts[i]));
    }
    assert(lines_of(joined(parts, seq!['\n'])) =~= parts);
    if parts.len() == 1 {
        assert(one_line(parts[0]));
    }
}

/// The code that goes with an annotation is a piece of the file: the line that it is
/// anchored to and up to two lines on either side, as they follow each other there.
pub proof fn law_excerpt_is_code(lines: Seq<Seq<char>>, a: AnnotationV, from: int, to: int)
    requires
        1 <= a.anchor_line <= lines.len(),
        forall|i: int|
            0 <= i < lines.len() ==> one_line(#[trigger] lines[i]) && lines[i].len() > 0
                && lines[i].last() != '\r',
        from == (if a.anchor_line > 2 {
            a.anchor_line - 3
        } else {
            0
        }),
        to == (if a.anchor_line + 2 <= lines.len() {
            a.anchor_line + 2
        } else {
            lines.len() as int
        }),
        ({
            let anchor = crate::annotate::anchor_of(lines, a.anchor_line);
            &&& a.anchor_text == anchor.text
            &&& a.context_before == anchor.before
            &&& a.context_after == anchor.after
        }),
    ensures
        excerpt_lines(a) == lines.subrange(from, to),
        excerpt_of(a) == Some(joined(lines.subrange(from, to), seq!['\n'])),
{
    let i = a.anchor_line - 1;
    reveal_strlit("\n");
    assert("\n"@ =~= seq!['\n']);
    assert(one_line(lines[i]));
    let above = lines.subrange(from, i);
    let below = lines.subrange(i + 1, to);
    assert forall|k: int| 0 <= k < above.len() implies one_line(#[trigger] above[k])
        && above[k].len() > 0 && above[k].last() != '\r' by {
        assert(one_line(lines[from + k]));
    }
    assert forall|k: int| 0 <= k < below.len() implies one_line(#[trigger] below[k])
        && below[k].len() > 0 && below[k].last() != '\r' by {
        assert(one_line(lines[i + 1 + k]));
    }
    if above.len() > 0 {
        lemma_lines_of_joined(above);
    }
    if below.len() > 0 {
        lemma_lines_of_joined(below);
    }
    assert(some_lines(a.context_before) =~= above);
    assert(some_lines(a.context_after) =~= below);
    assert(excerpt_lines(a) =~= lines.subrange(from, to));
}

/// A record says of an annotation what the annotation says.
pub proof fn law_record(e: ExportAnnotation, a: AnnotationV)
    requires
        e.records(a),
    ensures
        e.file_path@ == a.file_path,
        e.line == a.start_line,
        e.end_line == a.end_line,
        e.content@ == a.content,
        e.side@ == (if a.side == Side::Old {
            "old"@
        } else {
            "new"@
        }),
        e.annotation_type@ == (if a.annotation_type == AnnotationType::Todo {
            "todo"@
        } else {
            "comment"@
        }),
        e.anchor_line == a.anchor_line,
        e.anchor_text@ == a.anchor_text,
        e.context_before@ == a.context_before,
        e.context_after@ == a.context_after,
        opt_text(e.commit_sha) == a.commit_sha,
        opt_text(e.code_excerpt) == excerpt_of(a),
{
}

} // verus!
