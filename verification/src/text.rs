//! Numbers and strings in messages and names.

use vstd::prelude::*;
use vstd::string::StringExecFns;

use crate::wire::bytes_eq;

verus! {

/// The digits up to base 16, in upper case.
pub open spec fn upper_digits() -> Seq<char> {
    seq!['0', '1', '2', '3', '4', '5', '6', '7', '8', '9', 'A', 'B', 'C', 'D', 'E', 'F']
}

/// The digits up to base 16, in lower case.
pub open spec fn lower_digits() -> Seq<char> {
    seq!['0', '1', '2', '3', '4', '5', '6', '7', '8', '9', 'a', 'b', 'c', 'd', 'e', 'f']
}

/// `n` in decimal, without leading zeros.
pub open spec fn decimal(n: nat) -> Seq<char>
    decreases n,
{
    if n < 10 {
        seq![upper_digits()[n as int]]
    } else {
        decimal(n / 10).push(upper_digits()[(n % 10) as int])
    }
}

/// `n` in hexadecimal with the given sixteen digits, without leading zeros.
pub open spec fn hex(n: nat, digits: Seq<char>) -> Seq<char>
    decreases n,
{
    if n < 16 {
        seq![digits[n as int]]
    } else {
        hex(n / 16, digits).push(digits[(n % 16) as int])
    }
}

fn upper_digit(d: u32) -> (r: &'static str)
    requires
        d < 16,
    ensures
        r@ == seq![upper_digits()[d as int]],
{
    proof {
        reveal_strlit("0");
        reveal_strlit("1");
        reveal_strlit("2");
        reveal_strlit("3");
        reveal_strlit("4");
        reveal_strlit("5");
        reveal_strlit("6");
        reveal_strlit("7");
        reveal_strlit("8");
        reveal_strlit("9");
        reveal_strlit("A");
        reveal_strlit("B");
        reveal_strlit("C");
        reveal_strlit("D");
        reveal_strlit("E");
        reveal_strlit("F");
    }
    let r: &'static str = match d {
        0 => "0",
        1 => "1",
        2 => "2",
        3 => "3",
        4 => "4",
        5 => "5",
        6 => "6",
        7 => "7",
        8 => "8",
        9 => "9",
        10 => "A",
        11 => "B",
        12 => "C",
        13 => "D",
        14 => "E",
        _ => "F",
    };
    assert(r@ =~= seq![upper_digits()[d as int]]);
    r
}

fn lower_digit(d: u32) -> (r: &'static str)
    requires
        d < 16,
    ensures
        r@ == seq![lower_digits()[d as int]],
{
    if d < 10 {
        return upper_digit(d);
    }
    proof {
        reveal_strlit("a");
        reveal_strlit("b");
        reveal_strlit("c");
        reveal_strlit("d");
        reveal_strlit("e");
        reveal_strlit("f");
    }
    let r: &'static str = match d {
        10 => "a",
        11 => "b",
        12 => "c",
        13 => "d",
        14 => "e",
        _ => "f",
    };
    assert(r@ =~= seq![lower_digits()[d as int]]);
    r
}

/// Appends `n` in decimal.
pub fn put_decimal(out: &mut String, n: u32)
    ensures
        final(out)@ == old(out)@ + decimal(n as nat),
    decreases n,
{
    if n >= 10 {
        put_decimal(out, n / 10);
    }
    out.append(upper_digit(n % 10));
    assert(out@ =~= old(out)@ + decimal(n as nat));
}

/// Appends `n` in hexadecimal, in upper case.
pub fn put_upper_hex(out: &mut String, n: u32)
    ensures
        final(out)@ == old(out)@ + hex(n as nat, upper_digits()),
    decreases n,
{
    if n >= 16 {
        put_upper_hex(out, n / 16);
    }
    out.append(upper_digit(n % 16));
    assert(out@ =~= old(out)@ + hex(n as nat, upper_digits()));
}

/// Appends `n` in hexadecimal, in lower case.
pub fn put_lower_hex(out: &mut String, n: u32)
    ensures
        final(out)@ == old(out)@ + hex(n as nat, lower_digits()),
    decreases n,
{
    if n >= 16 {
        put_lower_hex(out, n / 16);
    }
    out.append(lower_digit(n % 16));
    assert(out@ =~= old(out)@ + hex(n as nat, lower_digits()));
}

/// Whether two strings are equal.
pub fn str_eq(a: &str, b: &str) -> (r: bool)
    ensures
        r == (a@ == b@),
{
    let r = bytes_eq(a.as_bytes(), b.as_bytes());
    proof {
        vstd::utf8::encode_utf8_decode_utf8(a@);
        vstd::utf8::encode_utf8_decode_utf8(b@);
    }
    r
}

/// The characters of a string.
pub fn chars_of(s: &str) -> (r: Vec<char>)
    ensures
        r@ == s@,
{
    let mut r: Vec<char> = Vec::new();
    for c in it: s.chars()
        invariant
            it.seq() == s@,
            r@ == s@.take(it.index()),
    {
        r.push(c);
        assert(r@ =~= s@.take(it.index() + 1));
    }
    assert(r@ =~= s@);
    r
}

/// The value of a digit in base 16 or below.
pub open spec fn digit_weight(c: char) -> int {
    if c <= '9' {
        c as int - '0' as int
    } else if c <= 'F' {
        c as int - 'A' as int + 10
    } else {
        c as int - 'a' as int + 10
    }
}

/// The number that digits stand for, the last of them weighing one.
pub open spec fn digits_weight(s: Seq<char>, base: int) -> int
    decreases s.len(),
{
    if s.len() == 0 {
        0
    } else {
        base * digits_weight(s.drop_last(), base) + digit_weight(s.last())
    }
}

/// A number in decimal or in hexadecimal stands for itself, in the digits of
/// its base, without a zero in front unless it is zero.
pub proof fn law_numbers_stand_for_themselves(n: nat)
    ensures
        digits_weight(decimal(n), 10) == n,
        digits_weight(hex(n, upper_digits()), 16) == n,
        digits_weight(hex(n, lower_digits()), 16) == n,
        n > 0 ==> decimal(n)[0] != '0' && hex(n, upper_digits())[0] != '0' && hex(
            n,
            lower_digits(),
        )[0] != '0',
        decimal(n).len() > 0 && hex(n, upper_digits()).len() > 0 && hex(n, lower_digits()).len()
            > 0,
{
    lemma_decimal_weight(n);
    lemma_hex_weight(n, upper_digits());
    lemma_hex_weight(n, lower_digits());
}

proof fn lemma_decimal_weight(n: nat)
    ensures
        digits_weight(decimal(n), 10) == n,
        decimal(n).len() > 0,
        n > 0 ==> decimal(n)[0] != '0',
    decreases n,
{
    if n < 10 {
        assert(decimal(n).drop_last() =~= Seq::<char>::empty());
        reveal_with_fuel(digits_weight, 2);
    } else {
        lemma_decimal_weight(n / 10);
        assert(decimal(n).drop_last() =~= decimal(n / 10));
    }
}

proof fn lemma_hex_weight(n: nat, digits: Seq<char>)
    requires
        digits.len() == 16,
        forall|i: int| 0 <= i < 16 ==> digit_weight(#[trigger] digits[i]) == i,
    ensures
        digits_weight(hex(n, digits), 16) == n,
        hex(n, digits).len() > 0,
        n > 0 ==> hex(n, digits)[0] != '0',
    decreases n,
{
    if n < 16 {
        assert(hex(n, digits).drop_last() =~= Seq::<char>::empty());
        reveal_with_fuel(digits_weight, 2);
        assert(digit_weight(digits[n as int]) == n);
    } else {
        lemma_hex_weight(n / 16, digits);
        assert(hex(n, digits).drop_last() =~= hex(n / 16, digits));
        assert(digit_weight(digits[(n % 16) as int]) == n % 16);
    }
}

/// The digits are 0 to 9, and then A to F in upper or in lower case.
pub proof fn law_digits(i: int)
    ensures
        upper_digits().len() == 16,
        lower_digits().len() == 16,
        0 <= i < 10 ==> upper_digits()[i] as int == '0' as int + i,
        0 <= i < 10 ==> lower_digits()[i] as int == '0' as int + i,
        10 <= i < 16 ==> upper_digits()[i] as int == 'A' as int + i - 10,
        10 <= i < 16 ==> lower_digits()[i] as int == 'a' as int + i - 10,
{
}

/// Numbers are written with the digits of their base alone, and zero with one
/// of them.
pub proof fn law_numbers_are_written_in_digits(n: nat, digits: Seq<char>, i: int)
    requires
        digits.len() == 16,
    ensures
        0 <= i < decimal(n).len() ==> '0' <= decimal(n)[i] <= '9',
        0 <= i < hex(n, digits).len() ==> digits.contains(hex(n, digits)[i]),
        decimal(0) == seq!['0'],
        hex(0, digits) == seq![digits[0]],
    decreases n,
{
    if n >= 10 {
        law_numbers_are_written_in_digits(n / 10, digits, i);
    }
    if n >= 16 {
        law_numbers_are_written_in_digits(n / 16, digits, i);
    }
    assert(digits.contains(digits[(n % 16) as int]));
}

} // verus!
