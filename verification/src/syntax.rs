//! Syntax highlighting: the styled ranges of the lines of a file.
use vstd::prelude::*;

use crate::diff::HighlightRange;
use crate::display::map_views;
use crate::outside::{
    default_theme, find_theme, fresh_highlighter, highlight_line, highlight_step, load_assets,
    new_highlighter, plain_text_of, plain_text_syntax, syntax_by_extension,
    syntax_by_first_line, syntax_of_extension, syntax_of_first_line, syntax_set, syntaxes_of,
    theme_named, Assets, LineHighlighter, Syntax, Syntaxes,
};
use crate::paths::{extension, extension_in, file_name, file_name_in};
use crate::text::{
    byte_len, byte_length, chars_of, lemma_byte_len_concat, lemma_split_lines_nonempty,
    opt_text, split_lines, split_lines_of, texts,
};

verus! {

/// How a piece of text is drawn: a foreground colour and modifiers.
#[derive(Debug, Clone, Copy, PartialEq, Eq)]
pub struct TextStyle {
    pub fg: (u8, u8, u8),
    pub bold: bool,
    pub italic: bool,
    pub underline: bool,
}

/// A piece of a line in one style: its colour, the bits of its font style, and
/// its text.
#[derive(Debug)]
pub struct Segment {
    pub color: (u8, u8, u8),
    pub font: u8,
    pub text: String,
}

/// The value of a [`Segment`].
pub struct SegmentV {
    pub color: (u8, u8, u8),
    pub font: u8,
    pub text: Seq<char>,
}

/// The values of a list of segments.
pub open spec fn segment_views(v: Seq<Segment>) -> Seq<SegmentV> {
    Seq::new(v.len(), |i: int| SegmentV { color: v[i].color, font: v[i].font, text: v[i].text@ })
}

/// The text of segments in a row.
pub open spec fn segments_text(v: Seq<SegmentV>) -> Seq<char>
    decreases v.len(),
{
    if v.len() == 0 {
        Seq::empty()
    } else {
        segments_text(v.drop_last()) + v.last().text
    }
}

/// A highlighted range within a line.
#[derive(Debug, Clone, Copy, PartialEq, Eq)]
pub struct SyntaxHighlight {
    pub start: usize,
    pub end: usize,
    pub style: TextStyle,
}

/// The bits of a font style.
pub const FONT_BOLD: u8 = 1;

/// The bit of a font style for underlined text.
pub const FONT_UNDERLINE: u8 = 2;

/// The bit of a font style for italic text.
pub const FONT_ITALIC: u8 = 4;

/// The style of a segment.
pub open spec fn style_of(color: (u8, u8, u8), font: u8) -> TextStyle {
    TextStyle {
        fg: color,
        bold: font & FONT_BOLD != 0,
        italic: font & FONT_ITALIC != 0,
        underline: font & FONT_UNDERLINE != 0,
    }
}

/// The style of a segment.
pub fn to_text_style(color: (u8, u8, u8), font: u8) -> (r: TextStyle)
    ensures
        r == style_of(color, font),
{
    TextStyle {
        fg: color,
        bold: font & FONT_BOLD != 0,
        italic: font & FONT_ITALIC != 0,
        underline: font & FONT_UNDERLINE != 0,
    }
}

/// A segment's text without the newline that may end it.
pub open spec fn without_newline(text: Seq<char>) -> Seq<char> {
    if text.len() > 0 && text.last() == '\n' {
        text.drop_last()
    } else {
        text
    }
}

/// The bytes of a segment that are highlighted. Where lines were given without
/// their newlines (`bare_lines`), a newline does not count.
pub open spec fn counted(text: Seq<char>, bare_lines: bool) -> nat {
    byte_len(
        if bare_lines {
            without_newline(text)
        } else {
            text
        },
    )
}

/// Where the last highlight ends.
pub open spec fn end_of(v: Seq<SyntaxHighlight>) -> usize {
    if v.len() == 0 {
        0
    } else {
        v.last().end
    }
}

/// The highlights of a line: those of its segments one behind the other,
/// without the empty ones.
pub open spec fn highlights_of(segments: Seq<SegmentV>, bare_lines: bool) -> Seq<SyntaxHighlight>
    decreases segments.len(),
{
    if segments.len() == 0 {
        Seq::empty()
    } else {
        let before = highlights_of(segments.drop_last(), bare_lines);
        let s = segments.last();
        let len = counted(s.text, bare_lines);
        if len > 0 {
            before.push(
                SyntaxHighlight {
                    start: end_of(before),
                    end: (end_of(before) + len) as usize,
                    style: style_of(s.color, s.font),
                },
            )
        } else {
            before
        }
    }
}

proof fn lemma_end_of(segments: Seq<SegmentV>, bare_lines: bool)
    requires
        byte_len(segments_text(segments)) <= usize::MAX,
    ensures
        end_of(highlights_of(segments, bare_lines)) <= byte_len(segments_text(segments)),
    decreases segments.len(),
{
    if segments.len() > 0 {
        let front = segments.drop_last();
        let s = segments.last();
        lemma_byte_len_concat(segments_text(front), s.text);
        lemma_end_of(front, bare_lines);
        lemma_counted(s.text, bare_lines);
    }
}

proof fn lemma_counted(text: Seq<char>, bare_lines: bool)
    ensures
        counted(text, bare_lines) <= byte_len(text),
        bare_lines && text.len() > 0 && text.last() == '\n' ==> counted(text, bare_lines) + 1
            == byte_len(text),
{
}

proof fn lemma_segments_text_take(v: Seq<SegmentV>, n: int)
    requires
        0 <= n <= v.len(),
    ensures
        byte_len(segments_text(v.take(n))) <= byte_len(segments_text(v)),
    decreases v.len(),
{
    if n == v.len() {
        assert(v.take(n) =~= v);
    } else {
        lemma_segments_text_take(v.drop_last(), n);
        assert(v.drop_last().take(n) =~= v.take(n));
        lemma_byte_len_concat(segments_text(v.drop_last()), v.last().text);
    }
}

/// The highlights of a line are not empty, follow each other without a gap
/// from its start, and end within it.
pub proof fn law_highlights_tile(segments: Seq<SegmentV>, bare_lines: bool)
    requires
        byte_len(segments_text(segments)) <= usize::MAX,
    ensures
        ({
            let v = highlights_of(segments, bare_lines);
            &&& v.len() > 0 ==> v[0].start == 0
            &&& forall|i: int| 0 <= i < v.len() ==> (#[trigger] v[i]).start < v[i].end
            &&& forall|i: int| 0 < i < v.len() ==> (#[trigger] v[i]).start == v[i - 1].end
            &&& end_of(v) <= byte_len(segments_text(segments))
        }),
    decreases segments.len(),
{
    lemma_end_of(segments, bare_lines);
    if segments.len() > 0 {
        let front = segments.drop_last();
        let s = segments.last();
        lemma_byte_len_concat(segments_text(front), s.text);
        law_highlights_tile(front, bare_lines);
        lemma_counted(s.text, bare_lines);
        let before = highlights_of(front, bare_lines);
        let now = highlights_of(segments, bare_lines);
        assert(forall|i: int| 0 <= i < before.len() ==> now[i] == before[i]);
    }
}

/// The highlights of a line from its segments.
pub fn ranges_of_segments(segments: &[Segment], bare_lines: bool) -> (v: Vec<SyntaxHighlight>)
    requires
        byte_len(segments_text(segment_views(segments@))) <= usize::MAX,
    ensures
        v@ == highlights_of(segment_views(segments@), bare_lines),
{
    let ghost sv = segment_views(segments@);
    let mut v: Vec<SyntaxHighlight> = Vec::new();
    let mut offset: usize = 0;
    let mut i: usize = 0;
    assert(sv.take(0) =~= Seq::empty());
    while i < segments.len()
        invariant
            i <= segments@.len(),
            sv == segment_views(segments@),
            byte_len(segments_text(sv)) <= usize::MAX,
            v@ == highlights_of(sv.take(i as int), bare_lines),
            offset == end_of(v@),
        decreases segments@.len() - i,
    {
        let s = &segments[i];
        let chars = chars_of(s.text.as_str());
        let n = chars.len();
        let whole = byte_length(s.text.as_str());
        proof {
            assert(sv.take(i + 1).drop_last() =~= sv.take(i as int));
            assert(sv.take(i + 1).last() == sv[i as int]);
            lemma_segments_text_take(sv, i + 1);
            lemma_end_of(sv.take(i + 1), bare_lines);
            lemma_segments_text_take(sv, i as int);
            lemma_end_of(sv.take(i as int), bare_lines);
            lemma_byte_len_concat(segments_text(sv.take(i as int)), s.text@);
            lemma_counted(s.text@, bare_lines);
        }
        let len = if bare_lines && n > 0 && chars[n - 1] == '\n' {
            whole - 1
        } else {
            whole
        };
        assert(len == counted(s.text@, bare_lines));
        if len > 0 {
            v.push(
                SyntaxHighlight {
                    start: offset,
                    end: offset + len,
                    style: to_text_style(s.color, s.font),
                },
            );
            offset = offset + len;
        }
        i = i + 1;
    }
    assert(sv.take(i as int) =~= sv);
    v
}

/// The lines of a text with their newlines.
pub open spec fn whole_lines(s: Seq<char>) -> Seq<Seq<char>> {
    let pieces = split_lines_of(s);
    let closed = Seq::new((pieces.len() - 1) as nat, |i: int| pieces[i].push('\n'));
    if pieces.last().len() == 0 {
        closed
    } else {
        closed.push(pieces.last())
    }
}

/// The lines of a text with their newlines.
pub fn lines_with_endings(s: &str) -> (v: Vec<String>)
    ensures
        texts(v@) == whole_lines(s@),
{
    let pieces = split_lines(s);
    proof {
        lemma_split_lines_nonempty(s@);
        assert(texts(pieces@).len() == pieces@.len());
    }
    let last = pieces.len() - 1;
    let mut v: Vec<String> = Vec::new();
    let mut i: usize = 0;
    while i < last
        invariant
            i <= last,
            last == pieces@.len() - 1,
            texts(pieces@) == split_lines_of(s@),
            v@.len() == i,
            forall|k: int| 0 <= k < i ==> (#[trigger] v@[k])@ == split_lines_of(s@)[k].push('\n'),
        decreases last - i,
    {
        let mut line = pieces[i].clone();
        assert(texts(pieces@)[i as int] == pieces@[i as int]@);
        line.push('\n');
        v.push(line);
        i = i + 1;
    }
    assert(texts(pieces@).last() == pieces@[last as int]@);
    if !pieces[last].as_str().is_empty() {
        v.push(pieces[last].clone());
    }
    assert(texts(v@) =~= whole_lines(s@));
    v
}

/// The highlighter behind the first `n` lines.
pub open spec fn highlighter_at(
    start: LineHighlighter<'static>,
    lines: Seq<Seq<char>>,
    n: int,
) -> LineHighlighter<'static>
    decreases n,
{
    if n <= 0 {
        start
    } else {
        highlight_step(highlighter_at(start, lines, n - 1), lines[n - 1]).1
    }
}

/// The highlights of the lines: those of their segments, and none of a line
/// that could not be highlighted.
pub open spec fn line_highlights(
    start: LineHighlighter<'static>,
    lines: Seq<Seq<char>>,
    bare_lines: bool,
) -> Seq<Seq<SyntaxHighlight>> {
    Seq::new(
        lines.len(),
        |i: int|
            match highlight_step(highlighter_at(start, lines, i), lines[i]).0 {
                Some(segments) => highlights_of(segments, bare_lines),
                None => Seq::empty(),
            },
    )
}

/// The values of lists of highlights.
pub open spec fn highlight_views(v: Seq<Vec<SyntaxHighlight>>) -> Seq<Seq<SyntaxHighlight>> {
    Seq::new(v.len(), |i: int| v[i]@)
}

/// Whether highlights are not empty, follow each other without a gap from the
/// start of a line, and end within it.
pub open spec fn tiles(v: Seq<SyntaxHighlight>, line: Seq<char>) -> bool {
    &&& v.len() > 0 ==> v[0].start == 0
    &&& forall|i: int| 0 <= i < v.len() ==> (#[trigger] v[i]).start < v[i].end
    &&& forall|i: int| 0 < i < v.len() ==> (#[trigger] v[i]).start == v[i - 1].end
    &&& end_of(v) <= byte_len(line)
}

/// The syntax that a file name stands for, by itself or by its extension.
pub open spec fn syntax_of_name(set: Syntaxes<'static>, name: Option<Seq<char>>) -> Option<
    Syntax<'static>,
> {
    let whole = match name {
        Some(n) => n,
        None => Seq::empty(),
    };
    let ext = match name {
        Some(n) => match extension_in(n) {
            Some(e) => e,
            None => Seq::empty(),
        },
        None => Seq::empty(),
    };
    match syntax_of_extension(set, whole) {
        Some(syntax) => Some(syntax),
        None => syntax_of_extension(set, ext),
    }
}

/// The syntax of a file: the one that its name stands for, else the one that its
/// first line asks for, if that could be read, else plain text.
pub open spec fn syntax_of_file(
    set: Syntaxes<'static>,
    path: Seq<char>,
    first_line: Option<Seq<char>>,
) -> Syntax<'static> {
    match syntax_of_name(set, file_name_in(path)) {
        Some(syntax) => syntax,
        None => match first_line {
            Some(line) => match syntax_of_first_line(set, line) {
                Some(syntax) => syntax,
                None => plain_text_of(set),
            },
            None => plain_text_of(set),
        },
    }
}

/// The value of a [`SyntaxHighlighter`].
pub struct HighlighterV {
    pub assets: Assets,
    pub theme: Seq<char>,
}

/// Syntax highlighter over the syntaxes and themes of the assets.
pub struct SyntaxHighlighter {
    assets: Assets,
    theme_name: String,
}

impl View for SyntaxHighlighter {
    type V = HighlighterV;

    closed spec fn view(&self) -> HighlighterV {
        HighlighterV { assets: self.assets, theme: self.theme_name@ }
    }
}

/// A highlight as a range of a diff line.
pub open spec fn range_of_highlight(h: SyntaxHighlight) -> HighlightRange {
    HighlightRange { start: h.start, end: h.end, style: h.style }
}

/// The highlights of lines as ranges of diff lines.
pub open spec fn map_of(result: Seq<Seq<SyntaxHighlight>>) -> Seq<Seq<HighlightRange>> {
    Seq::new(
        result.len(),
        |i: int| result[i].map_values(|h: SyntaxHighlight| range_of_highlight(h)),
    )
}

/// Lines with newlines.
pub open spec fn closed_lines(lines: Seq<Seq<char>>) -> Seq<Seq<char>> {
    Seq::new(lines.len(), |i: int| lines[i].push('\n'))
}

impl HighlighterV {
    /// The highlights of some lines in a syntax.
    pub open spec fn highlights_in(
        self,
        syntax: Syntax<'static>,
        lines: Seq<Seq<char>>,
        bare_lines: bool,
    ) -> Seq<Seq<SyntaxHighlight>> {
        line_highlights(
            fresh_highlighter(syntax, theme_named(self.assets, self.theme)),
            lines,
            bare_lines,
        )
    }

    /// The highlights of the lines of a file. The ranges do not count the
    /// newlines of bare lines.
    pub open spec fn highlights(
        self,
        path: Seq<char>,
        first_line: Option<Seq<char>>,
        lines: Seq<Seq<char>>,
        bare_lines: bool,
    ) -> Seq<Seq<SyntaxHighlight>> {
        match syntaxes_of(self.assets) {
            Some(set) => self.highlights_in(
                syntax_of_file(set, path, first_line),
                lines,
                bare_lines,
            ),
            None => Seq::empty(),
        }
    }

    /// The highlights of a whole text as ranges of diff lines.
    pub open spec fn text_map(
        self,
        path: Seq<char>,
        first_line: Option<Seq<char>>,
        text: Seq<char>,
    ) -> Seq<Seq<HighlightRange>> {
        map_of(self.highlights(path, first_line, whole_lines(text), false))
    }

    /// The highlights of consecutive lines as ranges of diff lines.
    pub open spec fn lines_map(
        self,
        path: Seq<char>,
        first_line: Option<Seq<char>>,
        lines: Seq<Seq<char>>,
    ) -> Seq<Seq<HighlightRange>> {
        map_of(self.highlights(path, first_line, closed_lines(lines), true))
    }
}

/// The syntax of a file. The lookup goes by the name, the extension and the first
/// line of the file, in this order. The first line is given: reading files is not
/// for the library.
fn find_syntax<'a>(set: &Syntaxes<'a>, path: &str, first_line: Option<&str>) -> (r: Syntax<'a>)
    ensures
        r == syntax_of_file(*set, path@, opt_str(first_line)),
{
    let name = file_name(path);
    let ext = match &name {
        Some(name) => extension(name.as_str()),
        None => None,
    };
    let none = String::new();
    assert(none@ =~= Seq::empty());
    let whole = match &name {
        Some(name) => name.as_str(),
        None => none.as_str(),
    };
    if let Some(syntax) = syntax_by_extension(set, whole) {
        return syntax;
    }
    let ext = match &ext {
        Some(ext) => ext.as_str(),
        None => none.as_str(),
    };
    if let Some(syntax) = syntax_by_extension(set, ext) {
        return syntax;
    }
    if let Some(line) = first_line {
        if let Some(syntax) = syntax_by_first_line(set, line) {
            return syntax;
        }
    }
    plain_text_syntax(set)
}

impl SyntaxHighlighter {
    /// A highlighter with a theme: the configured one, else that of the
    /// environment, else the default one.
    pub fn new(theme_name: Option<&str>, env_theme: Option<String>) -> (r: Self)
        ensures
            r@.theme == (match (theme_name, opt_text(env_theme)) {
                (Some(name), _) => name@,
                (None, Some(name)) => name,
                (None, None) => "Monokai Extended"@,
            }),
    {
        let theme_name = match theme_name {
            Some(name) => name.to_owned(),
            None => match env_theme {
                Some(name) => name,
                None => default_theme(),
            },
        };
        SyntaxHighlighter { assets: load_assets(), theme_name }
    }

    /// The name of the theme.
    pub fn theme_name(&self) -> (r: &str)
        ensures
            r@ == self@.theme,
    {
        self.theme_name.as_str()
    }

    fn highlight_in(&self, syntax: &Syntax<'_>, lines: &[String], bare_lines: bool) -> (v: Vec<
        Vec<SyntaxHighlight>,
    >)
        ensures
            highlight_views(v@) == self@.highlights_in(*syntax, texts(lines@), bare_lines),
            forall|i: int| 0 <= i < v@.len() ==> tiles((#[trigger] v@[i])@, lines@[i]@),
    {
        let mut v: Vec<Vec<SyntaxHighlight>> = Vec::new();
        let theme = find_theme(&self.assets, self.theme_name.as_str());
        let mut highlighter = new_highlighter(syntax, theme);
        let ghost start = fresh_highlighter(*syntax, *theme);
        let ghost lv = texts(lines@);
        let mut i: usize = 0;
        while i < lines.len()
            invariant
                i <= lines@.len(),
                lv == texts(lines@),
                highlighter == highlighter_at(start, lv, i as int),
                v@.len() == i,
                forall|k: int|
                    0 <= k < i ==> (#[trigger] v@[k])@ == line_highlights(start, lv, bare_lines)[k],
                forall|k: int| 0 <= k < i ==> tiles((#[trigger] v@[k])@, lines@[k]@),
            decreases lines@.len() - i,
        {
            let line = lines[i].as_str();
            let len = byte_length(line);
            let found = match highlight_line(&mut highlighter, line) {
                Some(segments) => {
                    proof {
                        let t = segments_text(segment_views(segments@));
                        lemma_prefix_bytes(t, line@);
                        assert(byte_len(line@) == len);
                        law_highlights_tile(segment_views(segments@), bare_lines);
                    }
                    ranges_of_segments(&segments, bare_lines)
                },
                None => {
                    let none: Vec<SyntaxHighlight> = Vec::new();
                    assert(none@ =~= Seq::empty());
                    none
                },
            };
            assert(tiles(found@, line@));
            v.push(found);
            i = i + 1;
        }
        assert(highlight_views(v@) =~= self@.highlights_in(*syntax, texts(lines@), bare_lines));
        v
    }

    fn highlight_all(
        &self,
        lines: &[String],
        bare_lines: bool,
        file_path: &str,
        first_line: Option<&str>,
    ) -> (v: Vec<Vec<SyntaxHighlight>>)
        ensures
            highlight_views(v@) == self@.highlights(
                file_path@,
                opt_str(first_line),
                texts(lines@),
                bare_lines,
            ),
            forall|i: int| 0 <= i < v@.len() ==> tiles((#[trigger] v@[i])@, texts(lines@)[i]),
    {
        match syntax_set(&self.assets) {
            Some(set) => {
                let syntax = find_syntax(&set, file_path, first_line);
                self.highlight_in(&syntax, lines, bare_lines)
            },
            None => {
                let v: Vec<Vec<SyntaxHighlight>> = Vec::new();
                assert(highlight_views(v@) =~= Seq::empty());
                v
            },
        }
    }

    /// Highlights an entire file and returns the highlights of each line. The
    /// first line is that of the file, if it can be read.
    pub fn highlight_file(&self, content: &str, file_path: &str, first_line: Option<&str>) -> (v:
        Vec<Vec<SyntaxHighlight>>)
        ensures
            highlight_views(v@) == self@.highlights(
                file_path@,
                opt_str(first_line),
                whole_lines(content@),
                false,
            ),
            forall|i: int|
                0 <= i < v@.len() ==> tiles((#[trigger] v@[i])@, whole_lines(content@)[i]),
    {
        let lines = lines_with_endings(content);
        self.highlight_all(&lines, false, file_path, first_line)
    }

    /// Highlights a list of lines, preserving syntax state across the lines. The
    /// first line is that of the file, if it can be read.
    pub fn highlight_lines(&self, lines: &[String], file_path: &str, first_line: Option<&str>) -> (v:
        Vec<Vec<SyntaxHighlight>>)
        ensures
            highlight_views(v@) == self@.highlights(
                file_path@,
                opt_str(first_line),
                closed_lines(texts(lines@)),
                true,
            ),
            forall|i: int|
                0 <= i < v@.len() ==> tiles((#[trigger] v@[i])@, closed_lines(texts(lines@))[i]),
    {
        let mut whole: Vec<String> = Vec::new();
        let mut i: usize = 0;
        while i < lines.len()
            invariant
                i <= lines@.len(),
                whole@.len() == i,
                forall|k: int| 0 <= k < i ==> (#[trigger] whole@[k])@ == lines@[k]@.push('\n'),
            decreases lines@.len() - i,
        {
            let mut text = lines[i].clone();
            text.push('\n');
            whole.push(text);
            i = i + 1;
        }
        assert(texts(whole@) =~= closed_lines(texts(lines@)));
        self.highlight_all(&whole, true, file_path, first_line)
    }
}

/// The text of an optional string slice.
pub open spec fn opt_str(s: Option<&str>) -> Option<Seq<char>> {
    match s {
        Some(t) => Some(t@),
        None => None,
    }
}

proof fn lemma_prefix_bytes(t: Seq<char>, s: Seq<char>)
    requires
        t.is_prefix_of(s),
    ensures
        byte_len(t) <= byte_len(s),
{
    assert(t + s.skip(t.len() as int) =~= s);
    lemma_byte_len_concat(t, s.skip(t.len() as int));
}

/// The highlights of lines as ranges of diff lines.
pub fn to_highlight_map(per_line: &[Vec<SyntaxHighlight>]) -> (v: Vec<Vec<HighlightRange>>)
    ensures
        map_views(v@) == map_of(highlight_views(per_line@)),
{
    let mut v: Vec<Vec<HighlightRange>> = Vec::new();
    let mut i: usize = 0;
    while i < per_line.len()
        invariant
            i <= per_line@.len(),
            v@.len() == i,
            forall|k: int|
                0 <= k < i ==> (#[trigger] v@[k])@ == per_line@[k]@.map_values(
                    |h: SyntaxHighlight| range_of_highlight(h),
                ),
        decreases per_line@.len() - i,
    {
        let line = &per_line[i];
        let mut out: Vec<HighlightRange> = Vec::new();
        let mut j: usize = 0;
        while j < line.len()
            invariant
                j <= line@.len(),
                out@.len() == j,
                forall|k: int| 0 <= k < j ==> #[trigger] out@[k] == range_of_highlight(line@[k]),
            decreases line@.len() - j,
        {
            let h = line[j];
            out.push(HighlightRange { start: h.start, end: h.end, style: h.style });
            j = j + 1;
        }
        assert(out@ =~= line@.map_values(|h: SyntaxHighlight| range_of_highlight(h)));
        v.push(out);
        i = i + 1;
    }
    assert(map_views(v@) =~= map_of(highlight_views(per_line@)));
    v
}

/// Of a file whose name stands for a syntax, the highlights depend on its lines
/// alone: its first line is not asked.
pub proof fn law_known_name(
    highlighter: HighlighterV,
    path: Seq<char>,
    a: Option<Seq<char>>,
    b: Option<Seq<char>>,
    lines: Seq<Seq<char>>,
    bare_lines: bool,
)
    requires
        syntaxes_of(highlighter.assets) matches Some(set) ==> syntax_of_name(
            set,
            file_name_in(path),
        ) is Some,
    ensures
        highlighter.highlights(path, a, lines, bare_lines) == highlighter.highlights(
            path,
            b,
            lines,
            bare_lines,
        ),
{
}

} // verus!
