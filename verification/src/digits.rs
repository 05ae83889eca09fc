//! Numbers written as text, and text read as numbers.

use crate::text;
use vstd::prelude::*;

verus! {

/// The digit for `d`, which is below ten.
pub open spec fn digit_char(d: nat) -> char {
    ('0' as u32 + d) as char
}

/// `n` in decimal, without leading zeros.
pub open spec fn decimal(n: nat) -> Seq<char>
    decreases n,
{
    if n < 10 {
        seq![digit_char(n)]
    } else {
        decimal(n / 10).push(digit_char(n % 10))
    }
}

/// `n` in decimal, without leading zeros.
pub fn number_text(n: u128) -> (text: String)
    ensures
        text@ == decimal(n as nat),
    decreases n,
{
    let mut text: String = if n < 10 {
        String::new()
    } else {
        number_text(n / 10)
    };
    let d: u8 = (n % 10) as u8;
    text.push((48 + d) as char);
    assert(text@ =~= decimal(n as nat));
    text
}

/// The number that a run of digits writes, whatever its length.
pub open spec fn digits_value(s: Seq<char>) -> nat
    decreases s.len(),
{
    if s.len() == 0 {
        0
    } else {
        digits_value(s.drop_last()) * 10 + (s.last() as u32 - '0' as u32) as nat
    }
}

/// Is `s` a run of one or more digits?
pub open spec fn is_digits(s: Seq<char>) -> bool {
    s.len() > 0 && forall|i: int| 0 <= i < s.len() ==> text::is_digit(#[trigger] s[i])
}

/// The number that `s` writes, where it is a run of digits and at most `max`.
pub open spec fn number_of(s: Seq<char>, max: nat) -> Option<nat> {
    if is_digits(s) && digits_value(s) <= max {
        Some(digits_value(s))
    } else {
        None
    }
}

/// More digits make no smaller number.
proof fn lemma_digits_value_grows(s: Seq<char>, n: int)
    requires
        0 <= n <= s.len(),
    ensures
        digits_value(s.take(n)) <= digits_value(s),
    decreases s.len() - n,
{
    if n < s.len() {
        lemma_digits_value_grows(s, n + 1);
        assert(s.take(n + 1).drop_last() =~= s.take(n));
    } else {
        assert(s.take(n) =~= s);
    }
}

/// The number that `chars` write, where they are a run of digits and write at most `max`.
pub fn parse_number(chars: &[char], max: u64) -> (n: Option<u64>)
    ensures
        match n {
            Some(v) => number_of(chars@, max as nat) == Some(v as nat),
            None => number_of(chars@, max as nat) is None,
        },
{
    if chars.len() == 0 {
        return None;
    }
    let mut value: u64 = 0;
    let mut i: usize = 0;
    while i < chars.len()
        invariant
            i <= chars.len(),
            value == digits_value(chars@.take(i as int)),
            value <= max,
            forall|k: int| 0 <= k < i ==> text::is_digit(#[trigger] chars@[k]),
        decreases chars.len() - i,
    {
        let c: char = chars[i];
        if !('0' <= c && c <= '9') {
            assert(!text::is_digit(chars@[i as int]));
            return None;
        }
        let d: u64 = (c as u32 - 48) as u64;
        assert(chars@.take(i + 1).drop_last() =~= chars@.take(i as int));
        proof {
            lemma_digits_value_grows(chars@, i + 1);
        }
        if value > max / 10 || d > max || value * 10 > max - d {
            return None;
        }
        value = value * 10 + d;
        i += 1;
    }
    assert(chars@.take(i as int) =~= chars@);
    Some(value)
}

/// The lower-case hexadecimal digit for `d`, which is below sixteen.
pub open spec fn hex_char(d: nat) -> char {
    if d < 10 {
        ('0' as u32 + d) as char
    } else {
        ('a' as u32 + (d - 10)) as char
    }
}

/// `bytes` as two lower-case hexadecimal digits each.
pub open spec fn hex_of(bytes: Seq<u8>) -> Seq<char>
    decreases bytes.len(),
{
    if bytes.len() == 0 {
        Seq::empty()
    } else {
        hex_of(bytes.drop_last()).push(hex_char((bytes.last() / 16) as nat)).push(
            hex_char((bytes.last() % 16) as nat),
        )
    }
}

/// The lower-case hexadecimal digit for `d`.
fn hex_digit(d: u8) -> (c: char)
    requires
        d < 16,
    ensures
        c == hex_char(d as nat),
{
    if d < 10 {
        (48 + d) as char
    } else {
        (87 + d) as char
    }
}

/// `bytes` as two lower-case hexadecimal digits each.
pub fn hex_text(bytes: &[u8]) -> (text: String)
    ensures
        text@ == hex_of(bytes@),
        text@.len() == 2 * bytes@.len(),
{
    let mut text: String = String::new();
    let mut i: usize = 0;
    while i < bytes.len()
        invariant
            i <= bytes.len(),
            text@ == hex_of(bytes@.take(i as int)),
            text@.len() == 2 * i,
        decreases bytes.len() - i,
    {
        let b: u8 = bytes[i];
        assert(bytes@.take(i + 1).drop_last() =~= bytes@.take(i as int));
        text.push(hex_digit(b / 16));
        text.push(hex_digit(b % 16));
        i += 1;
    }
    assert(bytes@.take(i as int) =~= bytes@);
    text
}

/// What is written in decimal is read as the number it was written from.
pub proof fn law_decimal_is_read_back(n: nat)
    ensures
        is_digits(decimal(n)),
        digits_value(decimal(n)) == n,
        forall|max: nat| n <= max ==> #[trigger] number_of(decimal(n), max) == Some(n),
        forall|max: nat| n > max ==> #[trigger] number_of(decimal(n), max) is None,
        n > 0 ==> decimal(n)[0] != '0',
    decreases n,
{
    let text = decimal(n);
    if n < 10 {
        assert(text.drop_last() =~= Seq::empty());
        assert(digits_value(Seq::empty()) == 0);
    } else {
        law_decimal_is_read_back(n / 10);
        assert(text.drop_last() =~= decimal(n / 10));
        assert forall|i: int| 0 <= i < text.len() implies text::is_digit(#[trigger] text[i]) by {
            if i < text.len() - 1 {
                assert(text[i] == decimal(n / 10)[i]);
            }
        }
    }
}

proof fn lemma_hex_len(a: Seq<u8>)
    ensures
        hex_of(a).len() == 2 * a.len(),
    decreases a.len(),
{
    if a.len() > 0 {
        lemma_hex_len(a.drop_last());
    }
}

/// Bytes in hexadecimal are two digits each, and differ where the bytes do.
pub proof fn law_hex_tells_bytes_apart(a: Seq<u8>, b: Seq<u8>)
    ensures
        hex_of(a).len() == 2 * a.len(),
        hex_of(a) == hex_of(b) ==> a == b,
    decreases a.len(),
{
    lemma_hex_len(a);
    lemma_hex_len(b);
    if hex_of(a) == hex_of(b) {
        if a.len() == 0 {
            assert(a =~= b);
        } else {
            let x = hex_of(a);
            let y = hex_of(b);
            lemma_hex_len(a.drop_last());
            lemma_hex_len(b.drop_last());
            assert(hex_of(a.drop_last()) =~= x.take(x.len() - 2));
            assert(hex_of(b.drop_last()) =~= y.take(y.len() - 2));
            law_hex_tells_bytes_apart(a.drop_last(), b.drop_last());
            assert(x[x.len() - 1] == y[y.len() - 1] && x[x.len() - 2] == y[y.len() - 2]);
            assert(a.last() == b.last());
            assert(a =~= a.drop_last().push(a.last()));
            assert(b =~= b.drop_last().push(b.last()));
        }
    }
}

/// A hexadecimal digit is one of the ten digits, or one of the first six letters.
pub proof fn law_hex_digits(d: nat)
    requires
        d < 16,
    ensures
        d < 10 ==> hex_char(d) == decimal(d)[0],
        d == 10 ==> hex_char(d) == 'a',
        d == 11 ==> hex_char(d) == 'b',
        d == 12 ==> hex_char(d) == 'c',
        d == 13 ==> hex_char(d) == 'd',
        d == 14 ==> hex_char(d) == 'e',
        d == 15 ==> hex_char(d) == 'f',
{
}

/// A text with anything in it that is no digit writes no number, and the empty text writes none.
pub proof fn law_no_number(a: Seq<char>, c: char, b: Seq<char>, max: nat)
    requires
        !text::is_digit(c),
    ensures
        number_of(a + seq![c] + b, max) is None,
        number_of(Seq::empty(), max) is None,
{
    let s = a + seq![c] + b;
    assert(s[a.len() as int] == c);
}

} // verus!
