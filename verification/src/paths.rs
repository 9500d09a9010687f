//! File names and their extensions. The paths of a diff have slashes on every
//! platform.
use vstd::prelude::*;

use crate::outside::str_eq;
use crate::text::{chars_of, opt_text, string_of};

verus! {

/// The last place of a character among the first `n` of a text, -1 if there is
/// none.
pub open spec fn last_place(s: Seq<char>, c: char, n: int) -> int
    decreases n,
{
    if n <= 0 {
        -1
    } else if s[n - 1] == c {
        n - 1
    } else {
        last_place(s, c, n - 1)
    }
}

/// The file name at the end of a path. Slashes and dots at its end do not count,
/// and a path that ends in two dots has none.
pub open spec fn file_name_in(path: Seq<char>) -> Option<Seq<char>>
    decreases path.len(),
{
    if path.len() == 0 {
        None
    } else if path.last() == '/' {
        file_name_in(path.drop_last())
    } else {
        let start = last_place(path, '/', path.len() as int) + 1;
        let name = path.skip(start);
        if name == ".."@ {
            None
        } else if name != "."@ {
            Some(name)
        } else if 0 < start < path.len() {
            file_name_in(path.take(start))
        } else {
            None
        }
    }
}

/// The extension of a file name: what follows its last dot, unless the name
/// starts with that dot.
pub open spec fn extension_in(name: Seq<char>) -> Option<Seq<char>> {
    let dot = last_place(name, '.', name.len() as int);
    if dot <= 0 {
        None
    } else {
        Some(name.skip(dot + 1))
    }
}

/// Behind the last place of a character among the first `n`.
fn behind_last(chars: &[char], c: char, n: usize) -> (r: usize)
    requires
        n <= chars@.len(),
    ensures
        r == last_place(chars@, c, n as int) + 1,
        r <= n,
{
    let mut i = n;
    while i > 0 && chars[i - 1] != c
        invariant
            i <= n <= chars@.len(),
            last_place(chars@, c, n as int) == last_place(chars@, c, i as int),
        decreases i,
    {
        i = i - 1;
    }
    i
}

proof fn lemma_last_place_take(s: Seq<char>, c: char, n: int, m: int)
    requires
        0 <= m <= n <= s.len(),
    ensures
        last_place(s.take(n), c, m) == last_place(s, c, m),
    decreases m,
{
    if m > 0 {
        lemma_last_place_take(s, c, n, m - 1);
    }
}

fn name_in(chars: &[char], n: usize) -> (r: Option<String>)
    requires
        n <= chars@.len(),
    ensures
        opt_text(r) == file_name_in(chars@.take(n as int)),
    decreases n,
{
    let ghost path = chars@.take(n as int);
    if n == 0 {
        return None;
    }
    if chars[n - 1] == '/' {
        assert(path.drop_last() =~= chars@.take(n - 1));
        return name_in(chars, n - 1);
    }
    let start = behind_last(chars, '/', n);
    proof {
        lemma_last_place_take(chars@, '/', n as int, n as int);
    }
    let name = string_of(chars, start, n);
    assert(name@ =~= path.skip(start as int));
    if str_eq(name.as_str(), "..") {
        return None;
    }
    if !str_eq(name.as_str(), ".") {
        return Some(name);
    }
    if 0 < start && start < n {
        assert(path.take(start as int) =~= chars@.take(start as int));
        name_in(chars, start)
    } else {
        None
    }
}

/// The file name at the end of a path.
pub fn file_name(path: &str) -> (r: Option<String>)
    ensures
        opt_text(r) == file_name_in(path@),
{
    let chars = chars_of(path);
    assert(chars@.take(chars@.len() as int) =~= path@);
    name_in(&chars, chars.len())
}

/// The extension of a file name.
pub fn extension(name: &str) -> (r: Option<String>)
    ensures
        opt_text(r) == extension_in(name@),
{
    let chars = chars_of(name);
    let n = chars.len();
    let from = behind_last(&chars, '.', n);
    if from <= 1 {
        None
    } else {
        let r = string_of(&chars, from, n);
        assert(r@ =~= name@.skip(from as int));
        Some(r)
    }
}

} // verus!
