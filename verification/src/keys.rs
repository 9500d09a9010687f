//! Keys and the text input that they edit.
use vstd::prelude::*;

use crate::outside::{
    editor_cursor, editor_cursor_of, editor_lines, editor_lines_of, editor_move, editor_moved,
    editor_new, editor_of, Editor,
};
use crate::text::{chars_of, join, joined, lines, lines_of, string_of, texts};

verus! {

/// A key without its modifiers.
#[derive(Debug, Clone, Copy, PartialEq, Eq, Structural)]
pub enum KeyCode {
    Char(char),
    F(u8),
    Backspace,
    Enter,
    Left,
    Right,
    Up,
    Down,
    Tab,
    BackTab,
    Delete,
    Home,
    End,
    PageUp,
    PageDown,
    Esc,
    /// Any other key.
    Other,
}

/// A key as it was pressed or released.
#[derive(Debug, Clone, Copy, PartialEq, Eq, Structural)]
pub struct Key {
    pub code: KeyCode,
    pub control: bool,
    pub alt: bool,
    pub shift: bool,
    /// The command or Windows key.
    pub meta: bool,
    pub released: bool,
}

/// Where the cursor of the text input goes.
#[derive(Debug, Clone, Copy, PartialEq, Eq, Structural)]
pub enum Motion {
    Head,
    End,
    Bottom,
    WordBack,
    WordForward,
}

// ---------------------------------------------------------------------------
// The text input
// ---------------------------------------------------------------------------
/// The text input that starts out with a text, and the cursor behind it.
pub open spec fn loaded(content: Seq<char>) -> Editor {
    editor_moved(editor_moved(editor_of(lines_of(content)), Motion::Bottom), Motion::End)
}

/// The text input without text.
pub open spec fn empty_editor() -> Editor {
    editor_of(seq![Seq::<char>::empty()])
}

/// Whether a text input holds nothing.
pub open spec fn nothing_typed(editor: Editor) -> bool {
    editor_lines(editor) == seq![Seq::<char>::empty()]
}

/// The text of a text input.
pub open spec fn typed_text(editor: Editor) -> Seq<char> {
    joined(editor_lines(editor), "\n"@)
}

/// A text input without text.
pub fn new_editor() -> (r: Editor)
    ensures
        r == empty_editor(),
        nothing_typed(r),
{
    let lines: Vec<String> = vec![String::new()];
    assert(texts(lines@) =~= seq![Seq::<char>::empty()]) by {
        assert(lines@[0]@ =~= Seq::<char>::empty());
    }
    editor_new(lines)
}

/// A text input with a text, and the cursor behind it.
pub fn editor_with_text(content: &str) -> (r: Editor)
    ensures
        r == loaded(content@),
        editor_lines(r) == (if lines_of(content@).len() == 0 {
            seq![Seq::<char>::empty()]
        } else {
            lines_of(content@)
        }),
        editor_cursor(r).0 as int == editor_lines(r).len() - 1,
        editor_cursor(r).1 as int == editor_lines(r).last().len(),
{
    let v = lines(content);
    assert(texts(v@).len() == v@.len());
    let mut editor = editor_new(v);
    editor_move(&mut editor, Motion::Bottom);
    editor_move(&mut editor, Motion::End);
    editor
}

/// The text of a text input.
pub fn editor_text(editor: &Editor) -> (r: String)
    ensures
        r@ == typed_text(*editor),
{
    let lines = editor_lines_of(editor);
    join(&lines, "\n")
}

/// Whether a text input holds nothing.
pub fn editor_is_empty(editor: &Editor) -> (r: bool)
    ensures
        r == nothing_typed(*editor),
{
    let lines = editor_lines_of(editor);
    assert(texts(lines@).len() == lines@.len());
    if lines.len() == 1 {
        assert(texts(lines@)[0] == lines@[0]@);
        if lines[0].as_str().is_empty() {
            assert(lines@[0]@ =~= Seq::<char>::empty());
            assert(texts(lines@) =~= seq![Seq::<char>::empty()]);
            true
        } else {
            false
        }
    } else {
        false
    }
}

/// Line `i` of a text input, with the cursor drawn into its line.
pub open spec fn line_with_cursor(lines: Seq<Seq<char>>, row: int, col: int, i: int) -> Seq<char> {
    if i == row {
        lines[i].insert(
            if col <= lines[i].len() {
                col
            } else {
                lines[i].len() as int
            },
            '|',
        )
    } else {
        lines[i]
    }
}

/// The text of a text input with the cursor drawn into it.
pub open spec fn text_with_cursor(editor: Editor) -> Seq<char> {
    let lines = editor_lines(editor);
    let (row, col) = editor_cursor(editor);
    joined(
        Seq::new(lines.len(), |i: int| line_with_cursor(lines, row as int, col as int, i)),
        "\n"@,
    )
}

/// The text of a text input with the cursor drawn into it.
pub fn render_input_with_cursor(editor: &Editor) -> (r: String)
    ensures
        r@ == text_with_cursor(*editor),
{
    let (row, col) = editor_cursor_of(editor);
    let lines = editor_lines_of(editor);
    let ghost lv = texts(lines@);
    assert(lv.len() == lines@.len());
    let mut shown: Vec<String> = Vec::new();
    let mut i: usize = 0;
    while i < lines.len()
        invariant
            i <= lines@.len(),
            lv == texts(lines@),
            shown@.len() == i,
            forall|k: int|
                0 <= k < i ==> (#[trigger] shown@[k])@ == line_with_cursor(
                    lv,
                    row as int,
                    col as int,
                    k,
                ),
        decreases lines@.len() - i,
    {
        assert(lv[i as int] == lines@[i as int]@);
        if i == row {
            let chars = chars_of(lines[i].as_str());
            let n = chars.len();
            let at = if col <= n {
                col
            } else {
                n
            };
            let mut s = string_of(&chars, 0, at);
            s.push('|');
            let rest = string_of(&chars, at, n);
            s.push_str(rest.as_str());
            assert(s@ =~= chars@.insert(at as int, '|'));
            shown.push(s);
        } else {
            shown.push(lines[i].clone());
        }
        i = i + 1;
    }
    assert(texts(shown@) =~= Seq::new(
        lv.len(),
        |k: int| line_with_cursor(lv, row as int, col as int, k),
    ));
    join(&shown, "\n")
}

} // verus!
