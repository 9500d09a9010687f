//! Numbers in decimal.
use vstd::prelude::*;

use crate::text::{chars_of, repeat_char, repeated};

verus! {

/// The digit of a value below ten.
pub open spec fn digit(n: nat) -> char {
    if n == 0 {
        '0'
    } else if n == 1 {
        '1'
    } else if n == 2 {
        '2'
    } else if n == 3 {
        '3'
    } else if n == 4 {
        '4'
    } else if n == 5 {
        '5'
    } else if n == 6 {
        '6'
    } else if n == 7 {
        '7'
    } else if n == 8 {
        '8'
    } else {
        '9'
    }
}

/// The value of a digit.
pub open spec fn digit_value(c: char) -> Option<nat> {
    if '0' <= c <= '9' {
        Some((c as u32 - '0' as u32) as nat)
    } else {
        None
    }
}

/// A number in decimal, without leading zeros.
pub open spec fn dec(n: nat) -> Seq<char>
    decreases n,
{
    if n < 10 {
        seq![digit(n)]
    } else {
        dec(n / 10).push(digit(n % 10))
    }
}

/// A number in decimal, with a minus sign where it is below zero.
pub open spec fn signed_dec(n: int) -> Seq<char> {
    if n < 0 {
        seq!['-'] + dec((-n) as nat)
    } else {
        dec(n as nat)
    }
}

fn digit_char(n: u128) -> (c: char)
    requires
        n < 10,
    ensures
        c == digit(n as nat),
{
    match n {
        0 => '0',
        1 => '1',
        2 => '2',
        3 => '3',
        4 => '4',
        5 => '5',
        6 => '6',
        7 => '7',
        8 => '8',
        _ => '9',
    }
}

/// Writes a number in decimal.
pub fn decimal(n: u64) -> (s: String)
    ensures
        s@ == dec(n as nat),
{
    wide_decimal(n as u128)
}

/// Writes a number of up to 128 bits in decimal.
pub fn wide_decimal(n: u128) -> (s: String)
    ensures
        s@ == dec(n as nat),
    decreases n,
{
    let mut s = if n < 10 {
        String::new()
    } else {
        wide_decimal(n / 10)
    };
    s.push(digit_char(n % 10));
    assert(s@ =~= dec(n as nat));
    s
}

/// Writes a number in decimal, with a minus sign where it is below zero.
pub fn signed_decimal(n: i64) -> (s: String)
    ensures
        s@ == signed_dec(n as int),
{
    if n < 0 {
        let mut s = String::new();
        s.push('-');
        let size: u64 = (-(n as i128)) as u64;
        s.push_str(decimal(size).as_str());
        assert(s@ =~= signed_dec(n as int));
        s
    } else {
        decimal(n as u64)
    }
}

/// The value of a text that is made of digits.
pub open spec fn digits_value(s: Seq<char>) -> Option<nat>
    decreases s.len(),
{
    if s.len() == 0 {
        None
    } else if s.len() == 1 {
        digit_value(s[0])
    } else {
        match (digits_value(s.drop_last()), digit_value(s.last())) {
            (Some(high), Some(low)) => Some(high * 10 + low),
            _ => None,
        }
    }
}

/// The number that a text denotes: digits behind an optional sign.
pub open spec fn number_value(s: Seq<char>) -> Option<int> {
    if s.len() > 0 && s[0] == '-' {
        match digits_value(s.skip(1)) {
            Some(n) => Some(-(n as int)),
            None => None,
        }
    } else {
        match digits_value(
            if s.len() > 0 && s[0] == '+' {
                s.skip(1)
            } else {
                s
            },
        ) {
            Some(n) => Some(n as int),
            None => None,
        }
    }
}

/// The number below 2^32 that a text denotes; a minus sign is not read.
pub open spec fn u32_value(s: Seq<char>) -> Option<u32> {
    match number_value(s) {
        Some(n) if s[0] != '-' && n <= u32::MAX => Some(n as u32),
        _ => None,
    }
}

/// The number of 64 bits that a text denotes.
pub open spec fn i64_value(s: Seq<char>) -> Option<i64> {
    match number_value(s) {
        Some(n) if i64::MIN <= n <= i64::MAX => Some(n as i64),
        _ => None,
    }
}

proof fn lemma_digits_prefix(s: Seq<char>, k: int)
    requires
        0 < k <= s.len(),
    ensures
        digits_value(s.take(k)) is None ==> digits_value(s) is None,
        digits_value(s) matches Some(v) ==> digits_value(s.take(k)) matches Some(p) && p <= v,
    decreases s.len() - k,
{
    if k < s.len() {
        lemma_digits_prefix(s, k + 1);
        assert(s.take(k + 1).drop_last() =~= s.take(k));
        assert(s.take(k + 1).len() > 1);
        if let Some(v) = digits_value(s.take(k + 1)) {
            let p = digits_value(s.take(k))->0;
            assert(p <= p * 10) by (nonlinear_arith)
                requires
                    p >= 0,
            ;
        }
    } else {
        assert(s.take(k) =~= s);
    }
}

/// The value of the digits from a position on, if it is no greater than a
/// bound.
fn read_digits(chars: &[char], from: usize, max: u64) -> (r: Option<u64>)
    requires
        from <= chars@.len(),
    ensures
        match digits_value(chars@.skip(from as int)) {
            Some(v) => if v <= max {
                r == Some(v as u64)
            } else {
                r is None
            },
            None => r is None,
        },
{
    let ghost s = chars@.skip(from as int);
    if from == chars.len() {
        return None;
    }
    let n = chars.len();
    let mut value: u128 = 0;
    let mut i: usize = from;
    while i < n
        invariant
            n == chars@.len(),
            from <= i <= n,
            from < n,
            s == chars@.skip(from as int),
            i == from ==> value == 0,
            i > from ==> digits_value(s.take(i - from)) == Some(value as nat),
            value <= max,
        decreases n - i,
    {
        let c = chars[i];
        let ghost k = i - from + 1;
        proof {
            assert(s.take(k).last() == c);
            assert(s.take(k).drop_last() =~= s.take(k - 1));
            lemma_digits_prefix(s, k);
        }
        if !('0' <= c && c <= '9') {
            assert(digits_value(s.take(k)) is None);
            return None;
        }
        let d: u32 = c as u32 - '0' as u32;
        value = value * 10 + d as u128;
        assert(digits_value(s.take(k)) == Some(value as nat));
        if value > max as u128 {
            return None;
        }
        i = i + 1;
    }
    assert(s.take(n - from) =~= s);
    Some(value as u64)
}

/// Reads a number below 2^32.
pub fn parse_u32(s: &str) -> (r: Option<u32>)
    ensures
        r == u32_value(s@),
{
    let chars = chars_of(s);
    assert(chars@.skip(0) =~= s@);
    if chars.len() == 0 {
        return None;
    }
    let from: usize = if chars[0] == '+' {
        1
    } else {
        0
    };
    proof {
        if chars@[0] == '-' {
            lemma_digits_prefix(s@, 1);
            assert(s@.take(1).len() == 1);
        }
    }
    match read_digits(&chars, from, u32::MAX as u64) {
        Some(v) => Some(v as u32),
        None => None,
    }
}

/// Reads a number of 64 bits.
pub fn parse_i64(s: &str) -> (r: Option<i64>)
    ensures
        r == i64_value(s@),
{
    let chars = chars_of(s);
    assert(chars@.skip(0) =~= s@);
    if chars.len() == 0 {
        return None;
    }
    if chars[0] == '-' {
        match read_digits(&chars, 1, 0x8000_0000_0000_0000) {
            Some(v) => Some((-(v as i128)) as i64),
            None => None,
        }
    } else {
        let from: usize = if chars[0] == '+' {
            1
        } else {
            0
        };
        match read_digits(&chars, from, i64::MAX as u64) {
            Some(v) => Some(v as i64),
            None => None,
        }
    }
}

proof fn lemma_dec_digits(n: nat)
    ensures
        dec(n).len() > 0,
        digits_value(dec(n)) == Some(n),
        '0' <= dec(n)[0] <= '9',
    decreases n,
{
    if n >= 10 {
        lemma_dec_digits(n / 10);
        let s = dec(n);
        assert(s.drop_last() =~= dec(n / 10));
        assert(s[0] == dec(n / 10)[0]);
    }
}

/// Reading what was written gives the number back.
pub proof fn law_number_round_trip(n: i64, m: u32)
    ensures
        i64_value(signed_dec(n as int)) == Some(n),
        u32_value(dec(m as nat)) == Some(m),
{
    lemma_dec_digits(m as nat);
    if n < 0 {
        lemma_dec_digits((-n) as nat);
        assert(signed_dec(n as int).skip(1) =~= dec((-n) as nat));
    } else {
        lemma_dec_digits(n as nat);
    }
}

/// A number in decimal, with blanks in front to fill a width.
pub open spec fn padded_dec(n: nat, width: int) -> Seq<char> {
    if dec(n).len() < width {
        repeated(' ', width - dec(n).len()) + dec(n)
    } else {
        dec(n)
    }
}

/// Writes a number in decimal, with blanks in front to fill a width.
pub fn padded_decimal(n: u64, width: usize) -> (s: String)
    ensures
        s@ == padded_dec(n as nat, width as int),
{
    let d = decimal(n);
    let len = chars_of(d.as_str()).len();
    if len < width {
        let mut s = repeat_char(' ', width - len);
        s.push_str(d.as_str());
        s
    } else {
        d
    }
}

/// A number in decimal is made of digits.
pub proof fn lemma_dec_chars(n: nat)
    ensures
        forall|i: int| 0 <= i < dec(n).len() ==> '0' <= #[trigger] dec(n)[i] <= '9',
    decreases n,
{
    if n >= 10 {
        lemma_dec_chars(n / 10);
        let high = dec(n / 10);
        assert forall|i: int| 0 <= i < dec(n).len() implies '0' <= #[trigger] dec(n)[i] <= '9' by {
            if i < high.len() {
                assert(dec(n)[i] == high[i]);
            } else {
                assert(dec(n)[i] == digit(n % 10));
            }
        }
    }
}

/// A number that is filled up to a width is the number behind blanks, and at least
/// as wide.
pub proof fn law_padded(n: u32, width: int) -> (blanks: int)
    requires
        width >= 0,
    ensures
        ({
            let s = padded_dec(n as nat, width);
            &&& 0 <= blanks < s.len()
            &&& forall|i: int| 0 <= i < blanks ==> s[i] == ' '
            &&& u32_value(s.skip(blanks)) == Some(n)
            &&& s.len() >= width
            &&& blanks > 0 ==> s.len() == width
            &&& s.skip(blanks)[0] == '0' ==> n == 0
        }),
{
    let d = dec(n as nat);
    let s = padded_dec(n as nat, width);
    law_number_round_trip(0, n);
    lemma_dec_digits(n as nat);
    lemma_dec_head(n as nat);
    let blanks = if d.len() < width {
        width - d.len()
    } else {
        0
    };
    assert(s.skip(blanks) =~= d);
    blanks
}

proof fn lemma_dec_head(n: nat)
    ensures
        dec(n).len() > 0,
        dec(n)[0] == '0' ==> n == 0,
    decreases n,
{
    if n >= 10 {
        lemma_dec_head(n / 10);
        assert(dec(n)[0] == dec(n / 10)[0]);
    }
}

/// The digits of a number denote it.
pub proof fn law_digits(n: nat)
    ensures
        dec(n).len() > 0,
        digits_value(dec(n)) == Some(n),
{
    lemma_dec_digits(n);
}

} // verus!
