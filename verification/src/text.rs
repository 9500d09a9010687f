//! Text primitives: lines, joining, trimming, searching and decimal numbers.
//!
//! Text is modelled as a sequence of characters, and a list of strings as a
//! sequence of such sequences.
use vstd::prelude::*;
use vstd::utf8::*;

use crate::outside::str_eq;

verus! {

/// The contents of a list of strings.
pub open spec fn texts(list: Seq<String>) -> Seq<Seq<char>> {
    Seq::new(list.len(), |i: int| list[i]@)
}

/// The contents of an optional string.
pub open spec fn opt_text(s: Option<String>) -> Option<Seq<char>> {
    match s {
        Some(t) => Some(t@),
        None => None,
    }
}

/// The characters of a string, as a vector.
pub fn chars_of(s: &str) -> (v: Vec<char>)
    ensures
        v@ == s@,
{
    let mut v: Vec<char> = Vec::new();
    for c in it: s.chars()
        invariant
            v@ == it.seq().take(it.index()),
            it.seq() == s@,
    {
        v.push(c);
    }
    v
}

/// The string made of the characters `from..to` of a slice.
pub fn string_of(chars: &[char], from: usize, to: usize) -> (s: String)
    requires
        from <= to <= chars@.len(),
    ensures
        s@ == chars@.subrange(from as int, to as int),
{
    let mut s = String::new();
    let mut i: usize = from;
    while i < to
        invariant
            from <= i <= to <= chars@.len(),
            s@ == chars@.subrange(from as int, i as int),
        decreases to - i,
    {
        s.push(chars[i]);
        i = i + 1;
        assert(s@ =~= chars@.subrange(from as int, i as int));
    }
    s
}

// ---------------------------------------------------------------------------
// Lines
// ---------------------------------------------------------------------------
/// The pieces of a text between its newlines: every newline closes a piece and
/// opens the next one, so there is always at least one piece.
pub open spec fn split_lines_of(s: Seq<char>) -> Seq<Seq<char>>
    decreases s.len(),
{
    if s.len() == 0 {
        seq![Seq::<char>::empty()]
    } else {
        let before = split_lines_of(s.drop_last());
        if s.last() == '\n' {
            before.push(Seq::empty())
        } else {
            before.drop_last().push(before.last().push(s.last()))
        }
    }
}

/// A piece without the carriage return that may end it.
pub open spec fn chomped(s: Seq<char>) -> Seq<char> {
    if s.len() > 0 && s.last() == '\r' {
        s.drop_last()
    } else {
        s
    }
}

/// The lines of a text: its pieces without their line endings (`\n` or
/// `\r\n`), where the piece behind the last newline counts only if it holds
/// something.
pub open spec fn lines_of(s: Seq<char>) -> Seq<Seq<char>> {
    let pieces = split_lines_of(s);
    let closed = Seq::new((pieces.len() - 1) as nat, |i: int| chomped(pieces[i]));
    if pieces.last().len() == 0 {
        closed
    } else {
        closed.push(pieces.last())
    }
}

/// There is at least one piece.
pub proof fn lemma_split_lines_nonempty(s: Seq<char>)
    ensures
        split_lines_of(s).len() >= 1,
    decreases s.len(),
{
    if s.len() > 0 {
        lemma_split_lines_nonempty(s.drop_last());
    }
}

/// Joining the pieces of a text with newlines gives the text back.
pub proof fn law_join_of_split(s: Seq<char>)
    ensures
        joined(split_lines_of(s), seq!['\n']) == s,
    decreases s.len(),
{
    let pieces = split_lines_of(s);
    lemma_split_lines_nonempty(s);
    if s.len() == 0 {
        assert(joined(pieces, seq!['\n']) =~= s);
    } else {
        let p = split_lines_of(s.drop_last());
        law_join_of_split(s.drop_last());
        lemma_split_lines_nonempty(s.drop_last());
        if s.last() == '\n' {
            assert(pieces.drop_last() =~= p);
            assert(joined(pieces, seq!['\n']) =~= s);
        } else {
            assert(pieces.drop_last() =~= p.drop_last());
            assert(pieces.last() == p.last().push(s.last()));
            assert(joined(pieces, seq!['\n']) =~= joined(p, seq!['\n']).push(s.last()));
            assert(s.drop_last().push(s.last()) =~= s);
        }
    }
}

/// Splits a text at its newlines.
pub fn split_lines(s: &str) -> (v: Vec<String>)
    ensures
        texts(v@) == split_lines_of(s@),
{
    let mut v: Vec<String> = Vec::new();
    let mut cur = String::new();
    assert(texts(v@).push(cur@) =~= split_lines_of(s@.take(0)));
    for c in it: s.chars()
        invariant
            it.seq() == s@,
            texts(v@).push(cur@) == split_lines_of(s@.take(it.index())),
    {
        proof {
            let t = s@.take(it.index() + 1);
            assert(t.drop_last() =~= s@.take(it.index()));
            assert(t.last() == c);
        }
        let ghost before = texts(v@).push(cur@);
        if c == '\n' {
            let ghost v0 = v@;
            v.push(cur);
            cur = String::new();
            assert(texts(v@) =~= before);
        } else {
            cur.push(c);
            assert(before.drop_last() =~= texts(v@));
        }
    }
    assert(s@.take(s@.len() as int) =~= s@);
    let ghost v0 = v@;
    let ghost whole = texts(v@).push(cur@);
    v.push(cur);
    assert(texts(v@) =~= whole);
    v
}

/// A copy of a piece without the carriage return that may end it.
fn chomp(s: &str) -> (r: String)
    ensures
        r@ == chomped(s@),
{
    let chars = chars_of(s);
    let n = chars.len();
    if n > 0 && chars[n - 1] == '\r' {
        let r = string_of(&chars, 0, n - 1);
        assert(r@ =~= s@.drop_last());
        r
    } else {
        s.to_owned()
    }
}

/// The lines of a text.
pub fn lines(s: &str) -> (v: Vec<String>)
    ensures
        texts(v@) == lines_of(s@),
{
    let pieces = split_lines(s);
    proof {
        lemma_split_lines_nonempty(s@);
        assert(texts(pieces@).len() == pieces@.len());
    }
    let mut v: Vec<String> = Vec::new();
    let last = pieces.len() - 1;
    let mut i: usize = 0;
    while i < last
        invariant
            0 <= i <= last,
            last == pieces@.len() - 1,
            texts(pieces@) == split_lines_of(s@),
            v@.len() == i,
            forall|k: int| 0 <= k < i ==> #[trigger] v@[k]@ == chomped(pieces@[k]@),
        decreases last - i,
    {
        let piece = chomp(pieces[i].as_str());
        v.push(piece);
        i = i + 1;
    }
    assert(texts(pieces@).last() == pieces@[last as int]@);
    if !pieces[last].as_str().is_empty() {
        v.push(pieces[last].clone());
    }
    assert(texts(v@) =~= lines_of(s@)) by {
        assert forall|k: int| 0 <= k < last implies texts(pieces@)[k] == pieces@[k]@ by {}
    }
    v
}

// ---------------------------------------------------------------------------
// Joining
// ---------------------------------------------------------------------------
/// The parts in order, with the separator between neighbours.
pub open spec fn joined(parts: Seq<Seq<char>>, sep: Seq<char>) -> Seq<char>
    decreases parts.len(),
{
    if parts.len() == 0 {
        Seq::empty()
    } else if parts.len() == 1 {
        parts[0]
    } else {
        joined(parts.drop_last(), sep) + sep + parts.last()
    }
}

/// The parts `from..to` joined with a separator.
pub fn join_range(parts: &[String], from: usize, to: usize, sep: &str) -> (s: String)
    requires
        from <= to <= parts@.len(),
    ensures
        s@ == joined(texts(parts@).subrange(from as int, to as int), sep@),
{
    let mut s = String::new();
    let mut i: usize = from;
    assert(s@ =~= joined(texts(parts@).subrange(from as int, from as int), sep@));
    while i < to
        invariant
            from <= i <= to <= parts@.len(),
            s@ == joined(texts(parts@).subrange(from as int, i as int), sep@),
        decreases to - i,
    {
        proof {
            let next = texts(parts@).subrange(from as int, i + 1);
            assert(next.drop_last() =~= texts(parts@).subrange(from as int, i as int));
            assert(next.last() == parts@[i as int]@);
        }
        if i > from {
            s.push_str(sep);
        }
        s.push_str(parts[i].as_str());
        i = i + 1;
        assert(s@ =~= joined(texts(parts@).subrange(from as int, i as int), sep@));
    }
    s
}

/// All parts joined with a separator.
pub fn join(parts: &[String], sep: &str) -> (s: String)
    ensures
        s@ == joined(texts(parts@), sep@),
{
    assert(texts(parts@).subrange(0, parts@.len() as int) =~= texts(parts@));
    join_range(parts, 0, parts.len(), sep)
}

/// A character so many times.
pub open spec fn repeated(c: char, n: int) -> Seq<char> {
    Seq::new(n as nat, |i: int| c)
}

/// A character so many times.
pub fn repeat_char(c: char, n: usize) -> (s: String)
    ensures
        s@ == repeated(c, n as int),
{
    let mut s = String::new();
    let mut i: usize = 0;
    assert(s@ =~= repeated(c, 0));
    while i < n
        invariant
            i <= n,
            s@ == repeated(c, i as int),
        decreases n - i,
    {
        s.push(c);
        i = i + 1;
        assert(s@ =~= repeated(c, i as int));
    }
    s
}

// ---------------------------------------------------------------------------
// White space
// ---------------------------------------------------------------------------
/// The characters with the Unicode property `White_Space`.
pub open spec fn is_white(c: char) -> bool {
    ||| '\u{9}' <= c <= '\u{d}'
    ||| c == '\u{20}'
    ||| c == '\u{85}'
    ||| c == '\u{a0}'
    ||| c == '\u{1680}'
    ||| '\u{2000}' <= c <= '\u{200a}'
    ||| c == '\u{2028}'
    ||| c == '\u{2029}'
    ||| c == '\u{202f}'
    ||| c == '\u{205f}'
    ||| c == '\u{3000}'
}

/// Whether a character is white space.
pub fn white(c: char) -> (r: bool)
    ensures
        r == is_white(c),
{
    ('\u{9}' <= c && c <= '\u{d}') || c == '\u{20}' || c == '\u{85}' || c == '\u{a0}' || c
        == '\u{1680}' || ('\u{2000}' <= c && c <= '\u{200a}') || c == '\u{2028}' || c == '\u{2029}'
        || c == '\u{202f}' || c == '\u{205f}' || c == '\u{3000}'
}

/// A text without the white space that starts it.
pub open spec fn trimmed_start(s: Seq<char>) -> Seq<char>
    decreases s.len(),
{
    if s.len() > 0 && is_white(s[0]) {
        trimmed_start(s.skip(1))
    } else {
        s
    }
}

/// A text without the white space that ends it.
pub open spec fn trimmed_end(s: Seq<char>) -> Seq<char>
    decreases s.len(),
{
    if s.len() > 0 && is_white(s.last()) {
        trimmed_end(s.drop_last())
    } else {
        s
    }
}

/// A text without the white space around it.
pub open spec fn trimmed(s: Seq<char>) -> Seq<char> {
    trimmed_end(trimmed_start(s))
}

/// A copy of a text without the white space around it.
pub fn trim(s: &str) -> (r: String)
    ensures
        r@ == trimmed(s@),
{
    let chars = chars_of(s);
    let n = chars.len();
    let mut a: usize = 0;
    assert(chars@.skip(0) =~= s@);
    while a < n && white(chars[a])
        invariant
            n == chars@.len(),
            a <= n,
            chars@ == s@,
            trimmed_start(s@) == trimmed_start(chars@.skip(a as int)),
        decreases n - a,
    {
        assert(chars@.skip(a as int).skip(1) =~= chars@.skip(a + 1));
        a = a + 1;
    }
    let mut b: usize = n;
    assert(chars@.subrange(a as int, n as int) =~= chars@.skip(a as int));
    while b > a && white(chars[b - 1])
        invariant
            a <= b <= n,
            n == chars@.len(),
            trimmed_end(trimmed_start(s@)) == trimmed_end(chars@.subrange(a as int, b as int)),
        decreases b - a,
    {
        assert(chars@.subrange(a as int, b as int).drop_last() =~= chars@.subrange(
            a as int,
            b - 1,
        ));
        b = b - 1;
    }
    string_of(&chars, a, b)
}

// ---------------------------------------------------------------------------
// Searching
// ---------------------------------------------------------------------------
/// Whether `pat` stands in `s` at position `i`.
pub open spec fn occurs_at(s: Seq<char>, pat: Seq<char>, i: int) -> bool {
    0 <= i && i + pat.len() <= s.len() && s.subrange(i, i + pat.len()) == pat
}

/// Whether `pat` stands somewhere in `s`.
pub open spec fn has_text(s: Seq<char>, pat: Seq<char>) -> bool {
    exists|i: int| occurs_at(s, pat, i)
}

fn matches_at(s: &[char], pat: &[char], i: usize) -> (r: bool)
    requires
        i <= s@.len(),
    ensures
        r == occurs_at(s@, pat@, i as int),
{
    if pat.len() > s.len() - i {
        return false;
    }
    let mut k: usize = 0;
    let n = s.len();
    while k < pat.len()
        invariant
            k <= pat@.len(),
            i + pat@.len() <= s@.len() == n,
            forall|j: int| 0 <= j < k ==> s@[i + j] == #[trigger] pat@[j],
        decreases pat@.len() - k,
    {
        if s[i + k] != pat[k] {
            assert(s@.subrange(i as int, i + pat@.len())[k as int] != pat@[k as int]);
            return false;
        }
        k = k + 1;
    }
    assert(s@.subrange(i as int, i + pat@.len()) =~= pat@);
    true
}

/// The first position at which `pat` stands in `s`.
pub fn find_text(s: &[char], pat: &[char]) -> (r: Option<usize>)
    ensures
        match r {
            Some(i) => occurs_at(s@, pat@, i as int) && forall|j: int|
                0 <= j < i ==> !occurs_at(s@, pat@, j),
            None => !has_text(s@, pat@),
        },
{
    let mut i: usize = 0;
    while i <= s.len()
        invariant
            0 <= i <= s@.len() + 1,
            forall|j: int| 0 <= j < i ==> !occurs_at(s@, pat@, j),
        decreases s@.len() + 1 - i,
    {
        if matches_at(s, pat, i) {
            return Some(i);
        }
        if i == s.len() {
            return None;
        }
        i = i + 1;
    }
    None
}

/// Whether a text contains another.
pub fn contains(s: &str, pat: &str) -> (r: bool)
    ensures
        r == has_text(s@, pat@),
{
    let sc = chars_of(s);
    let pc = chars_of(pat);
    match find_text(&sc, &pc) {
        Some(i) => {
            assert(occurs_at(s@, pat@, i as int));
            true
        },
        None => false,
    }
}

/// What follows a prefix, if the text starts with it.
pub open spec fn after_prefix(s: Seq<char>, prefix: Seq<char>) -> Option<Seq<char>> {
    if occurs_at(s, prefix, 0) {
        Some(s.skip(prefix.len() as int))
    } else {
        None
    }
}

/// What follows a prefix, if the text starts with it.
pub fn strip_prefix(s: &str, prefix: &str) -> (r: Option<String>)
    ensures
        opt_text(r) == after_prefix(s@, prefix@),
{
    let sc = chars_of(s);
    let pc = chars_of(prefix);
    if matches_at(&sc, &pc, 0) {
        let rest = string_of(&sc, pc.len(), sc.len());
        assert(rest@ =~= s@.skip(prefix@.len() as int));
        Some(rest)
    } else {
        None
    }
}

/// A text without the copies of a prefix that start it.
pub open spec fn without_prefixes(s: Seq<char>, prefix: Seq<char>) -> Seq<char>
    decreases s.len(),
{
    if prefix.len() > 0 && occurs_at(s, prefix, 0) {
        without_prefixes(s.skip(prefix.len() as int), prefix)
    } else {
        s
    }
}

/// A copy of a text without the copies of a prefix that start it.
pub fn trim_prefixes(s: &str, prefix: &str) -> (r: String)
    ensures
        r@ == without_prefixes(s@, prefix@),
{
    let sc = chars_of(s);
    let pc = chars_of(prefix);
    let n = sc.len();
    let mut i: usize = 0;
    assert(s@.skip(0) =~= s@);
    while pc.len() > 0 && matches_at(&sc, &pc, i)
        invariant
            i <= n,
            n == sc@.len(),
            sc@ == s@,
            pc@ == prefix@,
            without_prefixes(s@, prefix@) == without_prefixes(s@.skip(i as int), prefix@),
        decreases sc@.len() - i,
    {
        proof {
            let rest = s@.skip(i as int);
            assert(rest.subrange(0, pc@.len() as int) =~= s@.subrange(i as int, i + pc@.len()));
            assert(rest.skip(pc@.len() as int) =~= s@.skip(i + pc@.len()));
        }
        i = i + pc.len();
    }
    proof {
        let rest = s@.skip(i as int);
        if occurs_at(rest, prefix@, 0) {
            assert(rest.subrange(0, pc@.len() as int) =~= s@.subrange(i as int, i + pc@.len()));
        }
        assert(s@.subrange(i as int, s@.len() as int) =~= rest);
    }
    string_of(&sc, i, n)
}

/// Whether a list of strings holds a given text.
pub open spec fn has_name(list: Seq<String>, name: Seq<char>) -> bool {
    texts(list).contains(name)
}

/// Whether a list of strings holds a given text.
pub fn contains_name(list: &[String], name: &str) -> (r: bool)
    ensures
        r == has_name(list@, name@),
{
    let mut i: usize = 0;
    while i < list.len()
        invariant
            i <= list@.len(),
            forall|k: int| 0 <= k < i ==> #[trigger] texts(list@)[k] != name@,
        decreases list@.len() - i,
    {
        if str_eq(list[i].as_str(), name) {
            assert(texts(list@)[i as int] == name@);
            return true;
        }
        i = i + 1;
    }
    false
}

// ---------------------------------------------------------------------------
// Order
// ---------------------------------------------------------------------------
/// Whether a text comes before another: by the first character in which they
/// differ, and a text after what it starts with.
pub open spec fn text_lt(a: Seq<char>, b: Seq<char>) -> bool
    decreases a.len(),
{
    if b.len() == 0 {
        false
    } else if a.len() == 0 {
        true
    } else if a[0] != b[0] {
        a[0] < b[0]
    } else {
        text_lt(a.skip(1), b.skip(1))
    }
}

/// Whether a text comes before another.
pub fn text_less(a: &str, b: &str) -> (r: bool)
    ensures
        r == text_lt(a@, b@),
{
    let ac = chars_of(a);
    let bc = chars_of(b);
    let mut i: usize = 0;
    assert(ac@.skip(0) =~= a@ && bc@.skip(0) =~= b@);
    while i < ac.len() && i < bc.len()
        invariant
            i <= ac@.len(),
            i <= bc@.len(),
            text_lt(a@, b@) == text_lt(ac@.skip(i as int), bc@.skip(i as int)),
        decreases ac@.len() - i,
    {
        if ac[i] != bc[i] {
            return ac[i] < bc[i];
        }
        proof {
            assert(ac@.skip(i as int).skip(1) =~= ac@.skip(i + 1));
            assert(bc@.skip(i as int).skip(1) =~= bc@.skip(i + 1));
        }
        i = i + 1;
    }
    i < bc.len()
}

/// The order of texts is a strict and total one.
pub proof fn lemma_text_order(a: Seq<char>, b: Seq<char>)
    ensures
        text_lt(a, b) ==> !text_lt(b, a),
        !text_lt(a, b) && !text_lt(b, a) ==> a == b,
        !text_lt(a, a),
    decreases a.len(),
{
    if a.len() > 0 {
        lemma_text_order(a.skip(1), a.skip(1));
    }
    if a.len() > 0 && b.len() > 0 && a[0] == b[0] {
        lemma_text_order(a.skip(1), b.skip(1));
        if a.skip(1) == b.skip(1) {
            assert(a =~= seq![a[0]] + a.skip(1));
            assert(b =~= seq![b[0]] + b.skip(1));
        }
    } else if a.len() == 0 && b.len() == 0 {
        assert(a =~= b);
    }
}

/// The order of texts is transitive.
pub proof fn lemma_text_order_transitive(a: Seq<char>, b: Seq<char>, c: Seq<char>)
    requires
        text_lt(a, b),
        text_lt(b, c),
    ensures
        text_lt(a, c),
    decreases a.len(),
{
    if a.len() > 0 && a[0] == b[0] && b[0] == c[0] {
        lemma_text_order_transitive(a.skip(1), b.skip(1), c.skip(1));
    }
}

// ---------------------------------------------------------------------------
// Bytes
// ---------------------------------------------------------------------------
/// The number of bytes that UTF-8 takes for a character.
pub open spec fn char_len(c: char) -> nat {
    let v = c as u32;
    if v < 0x80 {
        1
    } else if v < 0x800 {
        2
    } else if v < 0x10000 {
        3
    } else {
        4
    }
}

/// The number of bytes that UTF-8 takes for a text.
pub open spec fn byte_len(s: Seq<char>) -> nat
    decreases s.len(),
{
    if s.len() == 0 {
        0
    } else {
        byte_len(s.drop_last()) + char_len(s.last())
    }
}

/// The bytes of two texts in a row.
pub proof fn lemma_byte_len_concat(a: Seq<char>, b: Seq<char>)
    ensures
        byte_len(a + b) == byte_len(a) + byte_len(b),
    decreases b.len(),
{
    if b.len() == 0 {
        assert(a + b =~= a);
    } else {
        assert((a + b).drop_last() =~= a + b.drop_last());
        lemma_byte_len_concat(a, b.drop_last());
    }
}

/// A start of a text takes no more bytes than the text.
pub proof fn lemma_byte_len_take(s: Seq<char>, n: int)
    requires
        0 <= n <= s.len(),
    ensures
        byte_len(s.take(n)) <= byte_len(s),
        n < s.len() ==> byte_len(s.take(n + 1)) == byte_len(s.take(n)) + char_len(s[n]),
{
    assert(s.take(n) + s.skip(n) =~= s);
    lemma_byte_len_concat(s.take(n), s.skip(n));
    if n < s.len() {
        assert(s.take(n + 1).drop_last() =~= s.take(n));
    }
}

/// The model of byte lengths agrees with the encoding.
pub proof fn lemma_byte_len_is_encoding(s: Seq<char>)
    ensures
        encode_utf8(s).len() == byte_len(s),
    decreases s.len(),
{
    if s.len() > 0 {
        char_is_scalar(s[0]);
        lemma_byte_len_is_encoding(s.drop_first());
        assert(seq![s[0]] + s.drop_first() =~= s);
        lemma_byte_len_concat(seq![s[0]], s.drop_first());
        assert(seq![s[0]].drop_last() =~= Seq::<char>::empty());
        assert(byte_len(Seq::<char>::empty()) == 0);
        assert(byte_len(seq![s[0]]) == char_len(s[0]));
        assert(encode_utf8(s) == encode_scalar(s[0] as u32) + encode_utf8(s.drop_first()));
        assert(encode_scalar(s[0] as u32).len() == char_len(s[0]));
    }
}

/// The number of bytes of a character.
pub fn char_bytes(c: char) -> (n: usize)
    ensures
        n == char_len(c),
        1 <= n <= 4,
{
    let v: u32 = c as u32;
    if v < 0x80 {
        1
    } else if v < 0x800 {
        2
    } else if v < 0x10000 {
        3
    } else {
        4
    }
}

/// The number of bytes of a text.
pub fn byte_length(s: &str) -> (n: usize)
    ensures
        n == byte_len(s@),
{
    proof {
        lemma_byte_len_is_encoding(s@);
    }
    s.as_bytes().len()
}

/// How many characters at the start of a text take no more than `n` bytes.
pub open spec fn chars_within(s: Seq<char>, n: int) -> int
    decreases s.len(),
{
    if byte_len(s) <= n || s.len() == 0 {
        s.len() as int
    } else {
        chars_within(s.drop_last(), n)
    }
}

/// How many characters have to go so that the rest takes no more than `n`
/// bytes.
pub open spec fn chars_beyond(s: Seq<char>, n: int) -> int
    decreases s.len(),
{
    if byte_len(s) <= n || s.len() == 0 {
        0
    } else {
        1 + chars_beyond(s.skip(1), n)
    }
}

proof fn lemma_chars_within(s: Seq<char>, k: int, n: int)
    requires
        0 <= k <= s.len(),
        byte_len(s.take(k)) <= n,
        k < s.len() ==> byte_len(s.take(k + 1)) > n,
    ensures
        chars_within(s, n) == k,
    decreases s.len(),
{
    if k == s.len() {
        assert(s.take(k) =~= s);
    } else {
        lemma_byte_len_take(s, k + 1);
        let front = s.drop_last();
        assert(front.take(k) =~= s.take(k));
        if k + 1 <= front.len() {
            assert(front.take(k + 1) =~= s.take(k + 1));
        }
        lemma_chars_within(front, k, n);
    }
}

/// The longest start of a text that takes no more than `n` bytes.
pub fn cut_to_bytes(s: &str, n: usize) -> (r: String)
    ensures
        0 <= chars_within(s@, n as int) <= s@.len(),
        r@ == s@.take(chars_within(s@, n as int)),
{
    let chars = chars_of(s);
    let total = chars.len();
    let mut room: usize = n;
    let mut i: usize = 0;
    assert(s@.take(0) =~= Seq::empty());
    while i < total
        invariant_except_break
            byte_len(s@.take(i as int)) + room == n,
        invariant
            i <= total,
            total == chars@.len(),
            chars@ == s@,
        ensures
            byte_len(s@.take(i as int)) <= n,
            i < total ==> byte_len(s@.take(i + 1)) > n,
        decreases total - i,
    {
        proof {
            lemma_byte_len_take(s@, i as int);
        }
        let b = char_bytes(chars[i]);
        if b > room {
            break ;
        }
        room = room - b;
        i = i + 1;
    }
    proof {
        lemma_chars_within(s@, i as int, n as int);
    }
    let r = string_of(&chars, 0, i);
    assert(r@ =~= s@.take(i as int));
    r
}

proof fn lemma_chars_beyond(s: Seq<char>, k: int, n: int)
    requires
        0 <= k <= s.len(),
        byte_len(s.skip(k)) <= n,
        k > 0 ==> byte_len(s.skip(k - 1)) > n,
    ensures
        chars_beyond(s, n) == k,
    decreases s.len(),
{
    if k == 0 {
        assert(s.skip(0) =~= s);
    } else {
        assert(s.take(k - 1) + s.skip(k - 1) =~= s);
        lemma_byte_len_concat(s.take(k - 1), s.skip(k - 1));
        let rest = s.skip(1);
        assert(rest.skip(k - 1) =~= s.skip(k));
        if k > 1 {
            assert(rest.skip(k - 2) =~= s.skip(k - 1));
        }
        lemma_chars_beyond(rest, k - 1, n);
    }
}

/// The longest end of a text that takes no more than `n` bytes.
pub fn tail_of_bytes(s: &str, n: usize) -> (r: String)
    ensures
        0 <= chars_beyond(s@, n as int) <= s@.len(),
        r@ == s@.skip(chars_beyond(s@, n as int)),
{
    let chars = chars_of(s);
    let total = chars.len();
    let mut room: usize = n;
    let mut i: usize = total;
    assert(s@.skip(total as int) =~= Seq::empty());
    while i > 0
        invariant_except_break
            byte_len(s@.skip(i as int)) + room == n,
        invariant
            i <= total,
            total == chars@.len(),
            chars@ == s@,
        ensures
            byte_len(s@.skip(i as int)) <= n,
            i > 0 ==> byte_len(s@.skip(i - 1)) > n,
        decreases i,
    {
        let b = char_bytes(chars[i - 1]);
        proof {
            let one = seq![s@[i - 1]];
            assert(one + s@.skip(i as int) =~= s@.skip(i - 1));
            lemma_byte_len_concat(one, s@.skip(i as int));
            assert(one.drop_last() =~= Seq::empty());
            assert(byte_len(one.drop_last()) == 0);
            assert(byte_len(one) == char_len(s@[i - 1]));
        }
        if b > room {
            break ;
        }
        room = room - b;
        i = i - 1;
    }
    proof {
        lemma_chars_beyond(s@, i as int, n as int);
    }
    let r = string_of(&chars, i, total);
    assert(r@ =~= s@.skip(i as int));
    r
}

/// A text with one character in the place of another.
pub open spec fn replaced(s: Seq<char>, from: char, to: char) -> Seq<char> {
    Seq::new(
        s.len(),
        |i: int|
            if s[i] == from {
                to
            } else {
                s[i]
            },
    )
}

/// A copy of a text with one character in the place of another.
pub fn replace_char(s: &str, from: char, to: char) -> (r: String)
    ensures
        r@ == replaced(s@, from, to),
{
    let chars = chars_of(s);
    let mut r = String::new();
    let mut i: usize = 0;
    while i < chars.len()
        invariant
            i <= chars@.len(),
            chars@ == s@,
            r@.len() == i,
            forall|k: int| 0 <= k < i ==> #[trigger] r@[k] == replaced(s@, from, to)[k],
        decreases chars@.len() - i,
    {
        if chars[i] == from {
            r.push(to);
        } else {
            r.push(chars[i]);
        }
        i = i + 1;
    }
    assert(r@ =~= replaced(s@, from, to));
    r
}

/// Whether a text lies on one line.
pub open spec fn one_line(s: Seq<char>) -> bool {
    forall|i: int| 0 <= i < s.len() ==> #[trigger] s[i] != '\n'
}

/// The pieces of a text hold no newline: with the joining, this says which pieces
/// they are.
pub proof fn law_pieces_on_one_line(s: Seq<char>)
    ensures
        forall|k: int|
            0 <= k < split_lines_of(s).len() ==> one_line(#[trigger] split_lines_of(s)[k]),
    decreases s.len(),
{
    if s.len() > 0 {
        let before = split_lines_of(s.drop_last());
        law_pieces_on_one_line(s.drop_last());
        lemma_split_lines_nonempty(s.drop_last());
        assert forall|k: int| 0 <= k < split_lines_of(s).len() implies one_line(
            #[trigger] split_lines_of(s)[k],
        ) by {
            if k < before.len() - 1 {
                assert(split_lines_of(s)[k] == before[k]);
            } else {
                assert(one_line(before[before.len() - 1]));
            }
        }
    }
}

proof fn lemma_split_append(s: Seq<char>, x: Seq<char>)
    requires
        one_line(x),
    ensures
        split_lines_of(s + x) == split_lines_of(s).drop_last().push(split_lines_of(s).last() + x),
    decreases x.len(),
{
    let p = split_lines_of(s);
    lemma_split_lines_nonempty(s);
    if x.len() == 0 {
        assert(s + x =~= s);
        assert(p.last() + x =~= p.last());
        assert(p.drop_last().push(p.last()) =~= p);
    } else {
        let y = x.drop_last();
        lemma_split_append(s, y);
        assert((s + x).drop_last() =~= s + y);
        assert((s + x).last() == x.last());
        let q = split_lines_of(s + y);
        assert(q.drop_last() =~= p.drop_last());
        assert(q.last().push(x.last()) =~= p.last() + x);
    }
}

/// A line written behind closed lines is the next one.
pub proof fn lemma_append_line(t: Seq<char>, closed: Seq<Seq<char>>, x: Seq<char>)
    requires
        split_lines_of(t) == closed.push(Seq::empty()),
        one_line(x),
    ensures
        split_lines_of(t + x + seq!['\n']) == closed.push(x).push(Seq::empty()),
{
    lemma_split_append(t, x);
    assert(Seq::<char>::empty() + x =~= x);
    let whole = t + x + seq!['\n'];
    assert(whole.drop_last() =~= t + x);
    assert(closed.push(Seq::empty()).drop_last() =~= closed);
}

/// Splitting what was joined with newlines gives the parts back.
pub proof fn law_split_of_join(parts: Seq<Seq<char>>)
    requires
        parts.len() > 0,
        forall|i: int| 0 <= i < parts.len() ==> one_line(#[trigger] parts[i]),
    ensures
        split_lines_of(joined(parts, seq!['\n'])) == parts,
    decreases parts.len(),
{
    let none = Seq::<char>::empty();
    if parts.len() == 1 {
        lemma_split_append(none, parts[0]);
        assert(none + parts[0] =~= parts[0]);
        assert(split_lines_of(none) =~= seq![none]);
        assert(split_lines_of(parts[0]) =~= parts);
    } else {
        let front = parts.drop_last();
        assert forall|i: int| 0 <= i < front.len() implies one_line(#[trigger] front[i]) by {
            assert(front[i] == parts[i]);
        }
        law_split_of_join(front);
        let t = joined(front, seq!['\n']);
        let u = t + seq!['\n'];
        assert(u.drop_last() =~= t);
        assert(split_lines_of(u) == front.push(none));
        assert(one_line(parts[parts.len() - 1]));
        lemma_split_append(u, parts.last());
        assert(front.push(none).drop_last() =~= front);
        assert(none + parts.last() =~= parts.last());
        assert(front.push(parts.last()) =~= parts);
    }
}

/// Two texts that begin alike are ordered by the first character in which they
/// differ, and a text comes before every text that goes on from it.
pub proof fn law_text_order(start: Seq<char>, x: char, y: char, a: Seq<char>, b: Seq<char>)
    ensures
        text_lt(start + seq![x] + a, start + seq![y] + b) <==> x < y || (x == y && text_lt(a, b)),
        text_lt(start, start + seq![x] + a),
        !text_lt(start + seq![x] + a, start),
    decreases start.len(),
{
    let u = start + seq![x] + a;
    let v = start + seq![y] + b;
    if start.len() == 0 {
        assert(u.skip(1) =~= a);
        assert(v.skip(1) =~= b);
    } else {
        let rest = start.skip(1);
        law_text_order(rest, x, y, a, b);
        assert(u.skip(1) =~= rest + seq![x] + a);
        assert(v.skip(1) =~= rest + seq![y] + b);
        assert(u[0] == start[0] && v[0] == start[0]);
    }
}

} // verus!
