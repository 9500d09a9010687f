//! What the library takes from outside.
use regex::{Regex, RegexBuilder};
use serde_json::Value;
use sha2::{Digest, Sha256};
use similar::{ChangeTag, TextDiff};
use syntect::easy::HighlightLines;
use syntect::highlighting::Theme;
use syntect::parsing::{SyntaxReference, SyntaxSet};
use syntect_assets::assets::HighlightingAssets;
use tui_textarea::{CursorMove, Input, TextArea};
use unicode_width::{UnicodeWidthChar, UnicodeWidthStr};
use vstd::prelude::*;

use crate::intraline::{change_views, text_with, ChangeKind, CharChange};
use crate::keys::{Key, KeyCode, Motion};
use crate::syntax::{segment_views, segments_text, Segment, SegmentV};
use crate::text::texts;

verus! {

/// [`String::push`]: appends one character.
pub assume_specification[ String::push ](s: &mut String, c: char)
    ensures
        final(s)@ == old(s)@.push(c),
;

/// [`String::push_str`]: appends a string slice.
pub assume_specification[ String::push_str ](s: &mut String, t: &str)
    ensures
        final(s)@ == old(s)@ + t@,
;

/// `==` on [`str`]: whether two string slices hold the same characters.
#[verifier::external_body]
pub(crate) fn str_eq(a: &str, b: &str) -> (r: bool)
    ensures
        r == (a@ == b@),
{
    a == b
}

/// A character in lower case, if it is an ASCII letter.
pub open spec fn ascii_lower(c: char) -> char {
    if 'A' <= c <= 'Z' {
        (c as u32 + 32) as char
    } else {
        c
    }
}

/// A text in lower case.
pub uninterp spec fn lower_case(s: Seq<char>) -> Seq<char>;

/// [`str::to_lowercase`]: a text in lower case. Of a text of ASCII characters
/// each letter is put in lower case.
#[verifier::external_body]
pub(crate) fn to_lower(s: &str) -> (r: String)
    ensures
        r@ == lower_case(s@),
        (forall|i: int| 0 <= i < s@.len() ==> (#[trigger] s@[i]) <= '\u{7f}') ==> r@ == s@.map_values(
            |c: char| ascii_lower(c),
        ),
{
    s.to_lowercase()
}

/// The SHA-256 digest of a sequence of bytes.
pub uninterp spec fn sha256_of(bytes: Seq<u8>) -> Seq<u8>;

/// [`Sha256::digest`]: the digest of the bytes, which is always 32 bytes long.
#[verifier::external_body]
pub(crate) fn sha256(bytes: &[u8]) -> (r: Vec<u8>)
    ensures
        r@ == sha256_of(bytes@),
        r@.len() == 32,
{
    Sha256::digest(bytes).to_vec()
}

/// The changes that turn one text into another, character by character.
pub uninterp spec fn char_diff(old: Seq<char>, new: Seq<char>) -> Seq<(ChangeKind, Seq<char>)>;

/// [`TextDiff::from_chars`] with [`TextDiff::iter_all_changes`]: the changes
/// from `old` to `new` in order. What is kept and what is deleted is together
/// `old`; what is kept and what is inserted is together `new`.
#[verifier::external_body]
pub(crate) fn diff_chars(old: &str, new: &str) -> (r: Vec<CharChange>)
    ensures
        change_views(r@) == char_diff(old@, new@),
        text_with(change_views(r@), ChangeKind::Delete) == old@,
        text_with(change_views(r@), ChangeKind::Insert) == new@,
{
    let diff = TextDiff::from_chars(old, new);
    diff.iter_all_changes().map(|c| CharChange {
        kind: match c.tag() {
            ChangeTag::Equal => ChangeKind::Equal,
            ChangeTag::Delete => ChangeKind::Delete,
            ChangeTag::Insert => ChangeKind::Insert,
        },
        value: c.value().to_string(),
    }).collect()
}

/// How alike two texts are, as the bits of a number between zero and one. The
/// bits of such numbers are ordered as the numbers are.
pub uninterp spec fn similarity_bits(old: Seq<char>, new: Seq<char>) -> u32;

/// [`TextDiff::ratio`] of two texts compared character by character, as bits.
/// They are at most those of the number one.
#[verifier::external_body]
pub(crate) fn similarity(old: &str, new: &str) -> (r: u32)
    ensures
        r == similarity_bits(old@, new@),
        r <= 0x3f80_0000,
{
    TextDiff::from_chars(old, new).ratio().to_bits()
}

/// The number of columns that a character takes; none for a control character.
pub uninterp spec fn char_columns(c: char) -> Option<usize>;

/// [`UnicodeWidthChar::width`]: the number of columns that a character takes.
#[verifier::external_body]
pub(crate) fn char_width(c: char) -> (r: Option<usize>)
    ensures
        r == char_columns(c),
{
    UnicodeWidthChar::width(c)
}

/// The number of columns that a text takes. It is not the sum of the columns
/// of its characters, some of which join up.
pub uninterp spec fn text_columns(s: Seq<char>) -> usize;

/// [`UnicodeWidthStr::width`]: the number of columns that a text takes.
#[verifier::external_body]
pub(crate) fn text_width(s: &str) -> (r: usize)
    ensures
        r == text_columns(s@),
{
    UnicodeWidthStr::width(s)
}

/// The syntaxes and themes that highlighting draws on.
#[verifier::external_type_specification]
#[verifier::external_body]
pub struct ExHighlightingAssets(HighlightingAssets);

/// A set of syntaxes.
#[verifier::external_type_specification]
#[verifier::external_body]
pub struct ExSyntaxSet(SyntaxSet);

/// A syntax of a set.
#[verifier::external_type_specification]
#[verifier::external_body]
pub struct ExSyntaxReference(SyntaxReference);

/// A colour theme.
#[verifier::external_type_specification]
#[verifier::external_body]
pub struct ExTheme(Theme);

/// A highlighter of consecutive lines.
#[verifier::external_type_specification]
#[verifier::external_body]
pub struct ExHighlightLines<'a>(HighlightLines<'a>);

/// The assets that come with the highlighting crate, and no others: whoever has
/// them got them from [`load_assets`].
pub struct Assets {
    inner: HighlightingAssets,
}

/// The syntaxes of some [`Assets`].
pub struct Syntaxes<'a> {
    set: &'a SyntaxSet,
}

/// A syntax, with the set that it belongs to.
pub struct Syntax<'a> {
    set: &'a SyntaxSet,
    syntax: &'a SyntaxReference,
}

/// A highlighter of consecutive lines, with the set that its syntax belongs to.
pub struct LineHighlighter<'a> {
    set: &'a SyntaxSet,
    lines: HighlightLines<'a>,
}

/// [`HighlightingAssets::from_binary`]: the assets that come with the crate.
#[verifier::external_body]
pub(crate) fn load_assets() -> Assets {
    Assets { inner: HighlightingAssets::from_binary() }
}

/// [`HighlightingAssets::default_theme`]: the name of the theme for dark
/// backgrounds.
#[verifier::external_body]
pub(crate) fn default_theme() -> (r: String)
    ensures
        r@ == "Monokai Extended"@,
{
    HighlightingAssets::default_theme().to_string()
}

/// The theme of a name. Two old names stand for the theme `ansi`, and other names
/// that there is no theme of for the default theme.
pub uninterp spec fn theme_named(assets: Assets, name: Seq<char>) -> Theme;

/// [`HighlightingAssets::get_theme`]: the theme of a name. The assets that come
/// with the crate have the default theme.
#[verifier::external_body]
pub(crate) fn find_theme<'a>(assets: &'a Assets, name: &str) -> (r: &'a Theme)
    ensures
        *r == theme_named(*assets, name@),
{
    assets.inner.get_theme(name)
}

/// The syntaxes of the assets, if they can be read.
pub uninterp spec fn syntaxes_of(assets: Assets) -> Option<Syntaxes<'static>>;

/// [`HighlightingAssets::get_syntax_set`]: the syntaxes of the assets.
#[verifier::external_body]
pub(crate) fn syntax_set(assets: &Assets) -> (r: Option<Syntaxes<'_>>)
    ensures
        r == syntaxes_of(*assets),
{
    assets.inner.get_syntax_set().ok().map(|set| Syntaxes { set })
}

/// The syntax for an extension.
pub uninterp spec fn syntax_of_extension(set: Syntaxes<'static>, ext: Seq<char>) -> Option<
    Syntax<'static>,
>;

/// [`SyntaxSet::find_syntax_by_extension`]: the syntax for an extension, or for a
/// whole file name.
#[verifier::external_body]
pub(crate) fn syntax_by_extension<'a>(set: &Syntaxes<'a>, ext: &str) -> (r: Option<Syntax<'a>>)
    ensures
        r == syntax_of_extension(*set, ext@),
{
    set.set.find_syntax_by_extension(ext).map(|syntax| Syntax { set: set.set, syntax })
}

/// The syntax that the first line of a file asks for.
pub uninterp spec fn syntax_of_first_line(set: Syntaxes<'static>, line: Seq<char>) -> Option<
    Syntax<'static>,
>;

/// [`SyntaxSet::find_syntax_by_first_line`]: the syntax that the first line of a
/// file asks for.
#[verifier::external_body]
pub(crate) fn syntax_by_first_line<'a>(set: &Syntaxes<'a>, line: &str) -> (r: Option<Syntax<'a>>)
    ensures
        r == syntax_of_first_line(*set, line@),
{
    set.set.find_syntax_by_first_line(line).map(|syntax| Syntax { set: set.set, syntax })
}

/// The syntax of plain text.
pub uninterp spec fn plain_text_of(set: Syntaxes<'static>) -> Syntax<'static>;

/// [`SyntaxSet::find_syntax_plain_text`]: the syntax of plain text, which the
/// assets that come with the crate have.
#[verifier::external_body]
pub(crate) fn plain_text_syntax<'a>(set: &Syntaxes<'a>) -> (r: Syntax<'a>)
    ensures
        r == plain_text_of(*set),
{
    Syntax { set: set.set, syntax: set.set.find_syntax_plain_text() }
}

/// A highlighter in front of the first line.
pub uninterp spec fn fresh_highlighter(syntax: Syntax<'static>, theme: Theme) -> LineHighlighter<
    'static,
>;

/// [`HighlightLines::new`]: a highlighter in front of the first line.
#[verifier::external_body]
pub(crate) fn new_highlighter<'a>(syntax: &Syntax<'a>, theme: &'a Theme) -> (r: LineHighlighter<
    'a,
>)
    ensures
        r == fresh_highlighter(*syntax, *theme),
{
    LineHighlighter { set: syntax.set, lines: HighlightLines::new(syntax.syntax, theme) }
}

/// What a highlighter makes of its next line, unless it fails, and the
/// highlighter behind that line.
pub uninterp spec fn highlight_step(highlighter: LineHighlighter<'static>, line: Seq<char>) -> (
    Option<Seq<SegmentV>>,
    LineHighlighter<'static>,
);

/// [`HighlightLines::highlight_line`]: the next line in pieces of one style
/// each. The pieces follow each other from the start of the line. The syntax is
/// used with the set that it belongs to.
#[verifier::external_body]
pub(crate) fn highlight_line(highlighter: &mut LineHighlighter<'_>, line: &str) -> (r: Option<
    Vec<Segment>,
>)
    ensures
        match r {
            Some(v) => highlight_step(*old(highlighter), line@).0 == Some(segment_views(v@))
                && segments_text(segment_views(v@)).is_prefix_of(line@),
            None => highlight_step(*old(highlighter), line@).0 is None,
        },
        *final(highlighter) == highlight_step(*old(highlighter), line@).1,
{
    let ranges = highlighter.lines.highlight_line(line, highlighter.set).ok()?;
    Some(ranges.into_iter().map(|(style, text)| Segment {
        color: (style.foreground.r, style.foreground.g, style.foreground.b),
        font: style.font_style.bits(),
        text: text.to_string(),
    }).collect())
}

/// A compiled search pattern.
#[verifier::external_type_specification]
#[verifier::external_body]
pub struct ExRegex(Regex);

/// The pattern that a query denotes, read with or without regard to case, if it
/// is a valid one.
pub uninterp spec fn pattern_of(query: Seq<char>, ignore_case: bool) -> Option<Regex>;

/// [`RegexBuilder::build`]: the pattern of a query.
#[verifier::external_body]
pub(crate) fn compile_pattern(query: &str, ignore_case: bool) -> (r: Option<Regex>)
    ensures
        r == pattern_of(query@, ignore_case),
{
    RegexBuilder::new(query).case_insensitive(ignore_case).build().ok()
}

/// A query that matches a text literally.
pub uninterp spec fn escaped(text: Seq<char>) -> Seq<char>;

/// [`regex::escape`]: the query that matches a text literally.
#[verifier::external_body]
pub(crate) fn escape_text(text: &str) -> (r: String)
    ensures
        r@ == escaped(text@),
{
    regex::escape(text)
}

/// Whether a pattern matches somewhere in a text.
pub uninterp spec fn pattern_matches(pattern: Regex, text: Seq<char>) -> bool;

/// [`Regex::is_match`]: whether a pattern matches somewhere in a text.
#[verifier::external_body]
pub(crate) fn is_match(pattern: &Regex, text: &str) -> (r: bool)
    ensures
        r == pattern_matches(*pattern, text@),
{
    pattern.is_match(text)
}

/// A value of JSON.
#[verifier::external_type_specification]
#[verifier::external_body]
pub struct ExValue(Value);

/// The value that a text of JSON denotes, if it is one.
pub uninterp spec fn json_value(text: Seq<char>) -> Option<Value>;

/// [`serde_json::from_str`]: the value that a text of JSON denotes.
#[verifier::external_body]
pub(crate) fn parse_json(text: &str) -> (r: Option<Value>)
    ensures
        r == json_value(text@),
{
    serde_json::from_str::<Value>(text).ok()
}

/// A member of a JSON object.
pub uninterp spec fn json_member(value: Value, key: Seq<char>) -> Option<Value>;

/// [`Value::get`]: a member of a JSON object.
#[verifier::external_body]
pub(crate) fn json_get<'a>(value: &'a Value, key: &str) -> (r: Option<&'a Value>)
    ensures
        match r {
            Some(v) => json_member(*value, key@) == Some(*v),
            None => json_member(*value, key@) is None,
        },
{
    value.get(key)
}

/// The text of a JSON string; other values have none.
pub uninterp spec fn json_string(value: Value) -> Option<Seq<char>>;

/// [`Value::as_str`]: the text of a JSON string.
#[verifier::external_body]
pub(crate) fn json_text(value: &Value) -> (r: Option<String>)
    ensures
        match r {
            Some(s) => json_string(*value) == Some(s@),
            None => json_string(*value) is None,
        },
{
    value.as_str().map(|s| s.to_string())
}

/// A text input: [`TextArea`], which holds lines and a cursor on them.
#[verifier::external_body]
pub struct Editor {
    area: TextArea<'static>,
}

/// The lines of a text input.
pub uninterp spec fn editor_lines(editor: Editor) -> Seq<Seq<char>>;

/// The row and the column of a text input's cursor.
pub uninterp spec fn editor_cursor(editor: Editor) -> (usize, usize);

/// Whether text is selected in a text input.
pub uninterp spec fn editor_selecting(editor: Editor) -> bool;

/// Whether nothing is selected, and the cursor is on a line or behind it.
pub open spec fn at_rest(editor: Editor) -> bool {
    let (row, col) = editor_cursor(editor);
    !editor_selecting(editor) && row < editor_lines(editor).len() && col <= editor_lines(
        editor,
    )[row as int].len()
}

/// Whether a text input has these lines, and its cursor there, and nothing
/// selected.
pub open spec fn rests(editor: Editor, lines: Seq<Seq<char>>, row: int, col: int) -> bool {
    &&& editor_lines(editor) == lines
    &&& editor_cursor(editor).0 == row
    &&& editor_cursor(editor).1 == col
    &&& !editor_selecting(editor)
}

/// The lines with a line and the one behind it made one.
pub open spec fn with_lines_joined(lines: Seq<Seq<char>>, row: int) -> Seq<Seq<char>> {
    lines.update(row, lines[row] + lines[row + 1]).remove(row + 1)
}

/// The text input that starts out with some lines.
pub uninterp spec fn editor_of(lines: Seq<Seq<char>>) -> Editor;

/// [`TextArea::new`]: a text input with some lines, at least an empty one, and
/// the cursor at their start. Nothing is selected.
#[verifier::external_body]
pub(crate) fn editor_new(lines: Vec<String>) -> (r: Editor)
    ensures
        r == editor_of(texts(lines@)),
        editor_lines(r) == (if lines@.len() == 0 {
            seq![Seq::<char>::empty()]
        } else {
            texts(lines@)
        }),
        editor_cursor(r) == (0usize, 0usize),
        !editor_selecting(r),
{
    Editor { area: TextArea::new(lines) }
}

/// [`TextArea::lines`]: the lines of a text input.
#[verifier::external_body]
pub(crate) fn editor_lines_of(editor: &Editor) -> (r: Vec<String>)
    ensures
        texts(r@) == editor_lines(*editor),
{
    editor.area.lines().to_vec()
}

/// [`TextArea::cursor`]: the row and the column of the cursor.
#[verifier::external_body]
pub(crate) fn editor_cursor_of(editor: &Editor) -> (r: (usize, usize))
    ensures
        r == editor_cursor(*editor),
{
    editor.area.cursor()
}

/// A text input with a line broken at the cursor.
pub uninterp spec fn editor_broken(editor: Editor) -> Editor;

/// [`TextArea::insert_newline`]: breaks the line at the cursor, which goes to
/// the start of the second part. Of selected text nothing is claimed.
#[verifier::external_body]
pub(crate) fn editor_break(editor: &mut Editor)
    ensures
        *final(editor) == editor_broken(*old(editor)),
        at_rest(*old(editor)) ==> ({
            let lines = editor_lines(*old(editor));
            let (row, col) = editor_cursor(*old(editor));
            let line = lines[row as int];
            rests(
                *final(editor),
                lines.update(row as int, line.take(col as int)).insert(
                    row + 1,
                    line.skip(col as int),
                ),
                row + 1,
                0,
            )
        }),
{
    editor.area.insert_newline()
}

/// A text input without what stands in front of the cursor.
pub uninterp spec fn editor_without_head(editor: Editor) -> Editor;

/// [`TextArea::delete_line_by_head`]: deletes what stands in front of the
/// cursor in its line, and at the start of a line the newline in front of it. Of
/// selected text nothing is claimed.
#[verifier::external_body]
pub(crate) fn editor_delete_head(editor: &mut Editor)
    ensures
        *final(editor) == editor_without_head(*old(editor)),
        at_rest(*old(editor)) ==> ({
            let lines = editor_lines(*old(editor));
            let (row, col) = editor_cursor(*old(editor));
            let line = lines[row as int];
            if col > 0 {
                rests(*final(editor), lines.update(row as int, line.skip(col as int)), row as int, 0)
            } else if row > 0 {
                rests(
                    *final(editor),
                    with_lines_joined(lines, row - 1),
                    row - 1,
                    lines[row - 1].len() as int,
                )
            } else {
                rests(*final(editor), lines, row as int, col as int)
            }
        }),
{
    editor.area.delete_line_by_head();
}

/// A text input without what stands behind the cursor.
pub uninterp spec fn editor_without_tail(editor: Editor) -> Editor;

/// [`TextArea::delete_line_by_end`]: deletes what stands behind the cursor in
/// its line, and at the end of a line the newline behind it. Of selected text
/// nothing is claimed.
#[verifier::external_body]
pub(crate) fn editor_delete_tail(editor: &mut Editor)
    ensures
        *final(editor) == editor_without_tail(*old(editor)),
        at_rest(*old(editor)) ==> ({
            let lines = editor_lines(*old(editor));
            let (row, col) = editor_cursor(*old(editor));
            let line = lines[row as int];
            if col < line.len() {
                rests(
                    *final(editor),
                    lines.update(row as int, line.take(col as int)),
                    row as int,
                    col as int,
                )
            } else if row + 1 < lines.len() {
                rests(
                    *final(editor),
                    with_lines_joined(lines, row as int),
                    row as int,
                    col as int,
                )
            } else {
                rests(*final(editor), lines, row as int, col as int)
            }
        }),
{
    editor.area.delete_line_by_end();
}

/// A text input with its cursor moved.
pub uninterp spec fn editor_moved(editor: Editor, motion: Motion) -> Editor;

/// [`TextArea::move_cursor`]: moves the cursor and leaves the lines as they
/// are. The bottom is the last line; the head is the start and the end the end of
/// the cursor's line. Of the start of a word nothing is claimed.
#[verifier::external_body]
pub(crate) fn editor_move(editor: &mut Editor, motion: Motion)
    ensures
        *final(editor) == editor_moved(*old(editor), motion),
        editor_lines(*final(editor)) == editor_lines(*old(editor)),
        editor_selecting(*final(editor)) == editor_selecting(*old(editor)),
        motion == Motion::Head ==> editor_cursor(*final(editor)) == (
            editor_cursor(*old(editor)).0,
            0usize,
        ),
        motion == Motion::Bottom ==> editor_cursor(*final(editor)).0 as int == editor_lines(
            *old(editor),
        ).len() - 1,
        motion == Motion::End ==> editor_cursor(*final(editor)).0 == editor_cursor(*old(editor)).0
            && editor_cursor(*final(editor)).1 as int == editor_lines(
            *old(editor),
        )[editor_cursor(*old(editor)).0 as int].len(),
{
    editor.area.move_cursor(match motion {
        Motion::Head => CursorMove::Head,
        Motion::End => CursorMove::End,
        Motion::Bottom => CursorMove::Bottom,
        Motion::WordBack => CursorMove::WordBack,
        Motion::WordForward => CursorMove::WordForward,
    })
}

/// A text input once it has taken a key.
pub uninterp spec fn editor_typed(editor: Editor, key: Key) -> Editor;

/// [`TextArea::input`]: hands a key to the text input. A character that is
/// pressed by itself comes in at the cursor, which goes behind it. Keys that the
/// text input has no name for do nothing. Of the other keys, and of selected
/// text, nothing is claimed.
#[verifier::external_body]
pub(crate) fn editor_type(editor: &mut Editor, key: Key)
    requires
        key.code != KeyCode::Enter,
        key.code != KeyCode::Esc,
        key.code != KeyCode::PageUp,
        key.code != KeyCode::PageDown,
    ensures
        *final(editor) == editor_typed(*old(editor), key),
        match key.code {
            KeyCode::Char(c) if at_rest(*old(editor)) && !key.control && !key.alt && c != '\n' && c
                != '\r' => {
                let lines = editor_lines(*old(editor));
                let (row, col) = editor_cursor(*old(editor));
                rests(
                    *final(editor),
                    lines.update(row as int, lines[row as int].insert(col as int, c)),
                    row as int,
                    col + 1,
                )
            },
            _ => true,
        },
{
    let code = match key.code {
        KeyCode::Char(c) => tui_textarea::Key::Char(c),
        KeyCode::F(n) => tui_textarea::Key::F(n),
        KeyCode::Backspace => tui_textarea::Key::Backspace,
        KeyCode::Left => tui_textarea::Key::Left, KeyCode::Right => tui_textarea::Key::Right,
        KeyCode::Up => tui_textarea::Key::Up, KeyCode::Down => tui_textarea::Key::Down,
        KeyCode::Tab => tui_textarea::Key::Tab, KeyCode::Delete => tui_textarea::Key::Delete,
        KeyCode::Home => tui_textarea::Key::Home, KeyCode::End => tui_textarea::Key::End,
        _ => tui_textarea::Key::Null,
    };
    editor.area.input(Input { key: code, ctrl: key.control, alt: key.alt, shift: key.shift });
}

} // verus!
