//! Numbers written out: decimal numerals and hexadecimal digits.

use vstd::prelude::*;

use crate::text::{chars_of, is_digit, is_hex, string_of};

verus! {

/// The decimal digit for `d`, below ten.
pub open spec fn digit(d: int) -> char {
    (48 + d) as char
}

/// The decimal numeral of `n`, without leading zeros.
pub open spec fn decimal(n: nat) -> Seq<char>
    decreases n,
{
    if n < 10 {
        seq![digit(n as int)]
    } else {
        decimal(n / 10).push(digit((n % 10) as int))
    }
}

/// `s` with zeros put before it until it is `width` long.
pub open spec fn zero_padded(s: Seq<char>, width: int) -> Seq<char> {
    if s.len() >= width {
        s
    } else {
        Seq::new((width - s.len()) as nat, |i: int| '0') + s
    }
}

/// The number that a string of decimal digits stands for.
pub open spec fn decimal_value(s: Seq<char>) -> int
    decreases s.len(),
{
    if s.len() == 0 {
        0
    } else {
        decimal_value(s.drop_last()) * 10 + (s.last() as int - 48)
    }
}

/// Digits and nothing else, at least one.
pub open spec fn all_digits(s: Seq<char>) -> bool {
    s.len() > 0 && forall|i: int| 0 <= i < s.len() ==> is_digit(#[trigger] s[i])
}

/// The digits of a numeral, after a sign `+` if it has one.
pub open spec fn unsigned(s: Seq<char>) -> Seq<char> {
    if s.len() > 0 && s[0] == '+' {
        s.skip(1)
    } else {
        s
    }
}

/// The number below `2^64` that `s` writes out: digits, with or without a `+` before them.
pub open spec fn parsed_u64(s: Seq<char>) -> Option<u64> {
    if all_digits(unsigned(s)) && decimal_value(unsigned(s)) <= u64::MAX {
        Some(decimal_value(unsigned(s)) as u64)
    } else {
        None
    }
}

/// A numeral is made of digits, and stands for the number it was made from.
pub proof fn lemma_decimal(n: nat)
    ensures
        all_digits(decimal(n)),
        decimal_value(decimal(n)) == n,
    decreases n,
{
    if n < 10 {
        let s = decimal(n);
        assert(s.drop_last() =~= Seq::empty());
        assert(decimal_value(s.drop_last()) == 0);
    } else {
        lemma_decimal(n / 10);
        let s = decimal(n);
        assert(s.drop_last() =~= decimal(n / 10));
    }
}

/// Reading a numeral back gives the number it was made from.
pub proof fn lemma_decimal_parses(n: u64)
    ensures
        parsed_u64(decimal(n as nat)) == Some(n),
{
    lemma_decimal(n as nat);
    let s = decimal(n as nat);
    assert(is_digit(s[0]));
    assert(unsigned(s) == s);
}

/// A string of digits stands for no negative number.
proof fn lemma_decimal_value_nonneg(s: Seq<char>)
    requires
        forall|i: int| 0 <= i < s.len() ==> is_digit(#[trigger] s[i]),
    ensures
        decimal_value(s) >= 0,
    decreases s.len(),
{
    if s.len() > 0 {
        assert forall|i: int| 0 <= i < s.drop_last().len() implies is_digit(
            #[trigger] s.drop_last()[i],
        ) by {
            assert(s.drop_last()[i] == s[i]);
        }
        lemma_decimal_value_nonneg(s.drop_last());
        assert(is_digit(s[s.len() - 1]));
    }
}

/// More digits stand for no smaller number.
proof fn lemma_decimal_value_grows(s: Seq<char>, i: int)
    requires
        0 <= i <= s.len(),
        forall|j: int| 0 <= j < s.len() ==> is_digit(#[trigger] s[j]),
    ensures
        decimal_value(s.take(i)) <= decimal_value(s),
    decreases s.len() - i,
{
    if i < s.len() {
        assert(s.take(i + 1).drop_last() =~= s.take(i));
        assert forall|j: int| 0 <= j < i implies is_digit(#[trigger] s.take(i)[j]) by {
            assert(s.take(i)[j] == s[j]);
        }
        lemma_decimal_value_nonneg(s.take(i));
        assert(is_digit(s[i]));
        lemma_decimal_value_grows(s, i + 1);
    } else {
        assert(s.take(i) =~= s);
    }
}

/// The decimal numeral of a number, as characters.
pub fn decimal_chars(n: u64) -> (r: Vec<char>)
    ensures
        r@ == decimal(n as nat),
    decreases n,
{
    if n < 10 {
        let mut out: Vec<char> = Vec::new();
        out.push((48 + n as u8) as char);
        assert(out@ =~= decimal(n as nat));
        out
    } else {
        let mut out = decimal_chars(n / 10);
        out.push((48 + (n % 10) as u8) as char);
        assert(out@ =~= decimal(n as nat));
        out
    }
}

/// The decimal numeral of a number.
pub fn decimal_text(n: u64) -> (r: String)
    ensures
        r@ == decimal(n as nat),
{
    string_of(decimal_chars(n))
}

/// The decimal numeral of a number, with zeros before it up to a width.
pub fn padded_text(n: u64, width: usize) -> (r: String)
    ensures
        r@ == zero_padded(decimal(n as nat), width as int),
{
    let mut digits = decimal_chars(n);
    if digits.len() >= width {
        return string_of(digits);
    }
    let zeros: usize = width - digits.len();
    let mut out: Vec<char> = Vec::new();
    let mut i: usize = 0;
    while i < zeros
        invariant
            i <= zeros,
            out@ == Seq::new(i as nat, |j: int| '0'),
        decreases zeros - i,
    {
        out.push('0');
        i += 1;
        assert(out@ =~= Seq::new(i as nat, |j: int| '0'));
    }
    out.append(&mut digits);
    string_of(out)
}

/// Reads a decimal numeral below `2^64`.
pub fn parse_u64(s: &str) -> (r: Option<u64>)
    ensures
        r == parsed_u64(s@),
{
    let sc = chars_of(s);
    let start: usize = if sc.len() > 0 && sc[0] == '+' {
        1
    } else {
        0
    };
    let ghost d = unsigned(s@);
    assert(d =~= s@.skip(start as int));
    if start == sc.len() {
        return None;
    }
    let mut value: u64 = 0;
    let mut i: usize = start;
    assert(d.take(0) =~= Seq::empty());
    while i < sc.len()
        invariant
            sc@ == s@,
            d == s@.skip(start as int),
            d == unsigned(s@),
            start <= i <= sc@.len(),
            forall|j: int| 0 <= j < i - start ==> is_digit(#[trigger] d[j]),
            value == decimal_value(d.take(i - start)),
        decreases sc@.len() - i,
    {
        let c = sc[i];
        assert(c == d[i - start]);
        if !(c >= '0' && c <= '9') {
            return None;
        }
        assert(d.take(i - start + 1).drop_last() =~= d.take(i - start));
        let next: u128 = value as u128 * 10 + (c as u32 - 48) as u128;
        assert(next == decimal_value(d.take(i - start + 1)));
        if next > u64::MAX as u128 {
            proof {
                if all_digits(d) {
                    lemma_decimal_value_grows(d, i - start + 1);
                }
            }
            return None;
        }
        value = next as u64;
        i += 1;
    }
    assert(d.take(d.len() as int) =~= d);
    Some(value)
}

// ---- hexadecimal ----

/// The lower-case hexadecimal digit for `d`, below sixteen.
pub open spec fn hex_digit(d: int) -> char {
    if d < 10 {
        (48 + d) as char
    } else {
        (87 + d) as char
    }
}

/// The last `width` hexadecimal digits of `n`.
pub open spec fn hex_digits(n: nat, width: nat) -> Seq<char>
    decreases width,
{
    if width == 0 {
        Seq::empty()
    } else {
        hex_digits(n / 16, (width - 1) as nat).push(hex_digit((n % 16) as int))
    }
}

/// There are as many digits as were asked for, each a hexadecimal digit.
pub proof fn lemma_hex_digits(n: nat, width: nat)
    ensures
        hex_digits(n, width).len() == width,
        forall|i: int| 0 <= i < width ==> is_hex(#[trigger] hex_digits(n, width)[i]),
    decreases width,
{
    if width > 0 {
        lemma_hex_digits(n / 16, (width - 1) as nat);
        let s = hex_digits(n, width);
        let h = hex_digits(n / 16, (width - 1) as nat);
        assert forall|i: int| 0 <= i < width implies is_hex(#[trigger] s[i]) by {
            if i < width - 1 {
                assert(s[i] == h[i]);
            }
        }
    }
}

/// The value of a hexadecimal digit, of either case.
pub open spec fn hex_value(c: char) -> int {
    if is_digit(c) {
        c as int - 48
    } else if 'a' <= c && c <= 'f' {
        c as int - 87
    } else {
        c as int - 55
    }
}

}
