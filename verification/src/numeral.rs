//! Decimal and hexadecimal numerals.

use vstd::prelude::*;

verus! {

/// The character of a digit: `0` to `9`, then `a` to `f`.
pub open spec fn digit_char(d: int) -> char {
    if d < 10 {
        ((48 + d) as u8) as char
    } else {
        ((87 + d) as u8) as char
    }
}

/// The decimal numeral of a natural number, without leading zeros.
pub open spec fn decimal_nat(n: nat) -> Seq<char>
    decreases n,
{
    if n < 10 {
        seq![digit_char(n as int)]
    } else {
        decimal_nat(n / 10).push(digit_char((n % 10) as int))
    }
}

/// The decimal numeral of an integer, with a minus sign where it is negative.
pub open spec fn decimal(i: int) -> Seq<char> {
    if i < 0 {
        seq!['-'] + decimal_nat((-i) as nat)
    } else {
        decimal_nat(i as nat)
    }
}

/// The last `digits` hexadecimal digits of a natural number.
pub open spec fn hex_digits(v: nat, digits: nat) -> Seq<char>
    decreases digits,
{
    if digits == 0 {
        Seq::empty()
    } else {
        hex_digits(v / 16, (digits - 1) as nat).push(digit_char((v % 16) as int))
    }
}

/// The value of `16^digits`.
pub open spec fn hex_range(digits: nat) -> nat
    decreases digits,
{
    if digits == 0 {
        1
    } else {
        16 * hex_range((digits - 1) as nat)
    }
}

fn digit(d: u8) -> (c: char)
    requires
        d < 16,
    ensures
        c == digit_char(d as int),
{
    if d < 10 {
        (48 + d) as char
    } else {
        (87 + d) as char
    }
}

fn push_decimal(out: &mut String, n: u64)
    ensures
        final(out)@ == old(out)@ + decimal_nat(n as nat),
    decreases n,
{
    if n >= 10 {
        push_decimal(out, n / 10);
    }
    out.push(digit((n % 10) as u8));
    assert(out@ =~= old(out)@ + decimal_nat(n as nat));
}

/// The decimal numeral of `i`.
pub fn decimal_text(i: i64) -> (r: String)
    ensures
        r@ == decimal(i as int),
{
    let mut r: String = String::new();
    if i < 0 {
        r.push('-');
        let magnitude: u64 = (-(i + 1)) as u64 + 1;
        push_decimal(&mut r, magnitude);
    } else {
        push_decimal(&mut r, i as u64);
    }
    assert(r@ =~= decimal(i as int));
    r
}

/// The decimal numeral of `n`.
pub fn count_text(n: usize) -> (r: String)
    ensures
        r@ == decimal(n as int),
{
    let mut r: String = String::new();
    push_decimal(&mut r, n as u64);
    assert(r@ =~= decimal(n as int));
    r
}

/// Appends the last `digits` hexadecimal digits of `v`.
pub fn push_hex(out: &mut String, v: u64, digits: u32)
    ensures
        final(out)@ == old(out)@ + hex_digits(v as nat, digits as nat),
    decreases digits,
{
    if digits > 0 {
        push_hex(out, v / 16, digits - 1);
        out.push(digit((v % 16) as u8));
    }
    assert(out@ =~= old(out)@ + hex_digits(v as nat, digits as nat));
}

/// The numeral of a natural number holds digits only, at least one.
pub proof fn decimal_nat_digits(n: nat)
    ensures
        decimal_nat(n).len() > 0,
        forall|i: int|
            0 <= i < decimal_nat(n).len() ==> '0' <= #[trigger] decimal_nat(n)[i] && decimal_nat(n)[i]
                <= '9',
    decreases n,
{
    if n >= 10 {
        decimal_nat_digits(n / 10);
    }
}

/// Different natural numbers have different numerals.
pub proof fn decimal_nat_injective(a: nat, b: nat)
    requires
        decimal_nat(a) == decimal_nat(b),
    ensures
        a == b,
    decreases a,
{
    let s = decimal_nat(a);
    decimal_nat_digits(a / 10);
    decimal_nat_digits(b / 10);
    assert(s.last() == digit_char((a % 10) as int));
    assert(s.last() == digit_char((b % 10) as int));
    assert(a % 10 == b % 10);
    if a >= 10 && b >= 10 {
        assert(s.drop_last() =~= decimal_nat(a / 10));
        assert(s.drop_last() =~= decimal_nat(b / 10));
        decimal_nat_injective(a / 10, b / 10);
    }
}

/// Different integers have different numerals.
pub proof fn decimal_injective(a: int, b: int)
    requires
        decimal(a) == decimal(b),
    ensures
        a == b,
{
    let s = decimal(a);
    if a < 0 {
        decimal_nat_digits((-a) as nat);
    } else {
        decimal_nat_digits(a as nat);
    }
    if b < 0 {
        decimal_nat_digits((-b) as nat);
    } else {
        decimal_nat_digits(b as nat);
    }
    if a < 0 {
        assert(s[0] == '-');
        if b >= 0 {
            assert(decimal_nat(b as nat)[0] == '-');
        } else {
            assert(s.skip(1) =~= decimal_nat((-a) as nat));
            assert(s.skip(1) =~= decimal_nat((-b) as nat));
            decimal_nat_injective((-a) as nat, (-b) as nat);
        }
    } else if b < 0 {
        assert(s[0] == '-');
        assert(decimal_nat(a as nat)[0] == '-');
    } else {
        decimal_nat_injective(a as nat, b as nat);
    }
}

/// A run of hexadecimal digits has as many characters as were asked for.
pub proof fn hex_digits_len(v: nat, digits: nat)
    ensures
        hex_digits(v, digits).len() == digits,
    decreases digits,
{
    if digits > 0 {
        hex_digits_len(v / 16, (digits - 1) as nat);
    }
}

/// Two numbers below `16^digits` with the same hexadecimal digits are equal.
pub proof fn hex_digits_injective(a: nat, b: nat, digits: nat)
    requires
        a < hex_range(digits),
        b < hex_range(digits),
        hex_digits(a, digits) == hex_digits(b, digits),
    ensures
        a == b,
    decreases digits,
{
    if digits > 0 {
        let x = hex_digits(a / 16, (digits - 1) as nat);
        let y = hex_digits(b / 16, (digits - 1) as nat);
        let c = digit_char((a % 16) as int);
        let d = digit_char((b % 16) as int);
        assert(x.push(c).drop_last() =~= x);
        assert(y.push(d).drop_last() =~= y);
        assert(x.push(c).last() == c);
        assert(y.push(d).last() == d);
        hex_digits_injective(a / 16, b / 16, (digits - 1) as nat);
        assert(a % 16 == b % 16);
    }
}

/// The digit that a character stands for.
pub open spec fn digit_of(c: char) -> int {
    if '0' <= c && c <= '9' {
        (c as int) - 48
    } else {
        (c as int) - 87
    }
}

/// The number that digits stand for in a base, the first one counting most.
pub open spec fn number_of(digits: Seq<char>, base: nat) -> int
    decreases digits.len(),
{
    if digits.len() == 0 {
        0
    } else {
        number_of(digits.drop_last(), base) * base + digit_of(digits.last())
    }
}

/// The numeral of a natural number stands for that number, and does not begin with a zero unless
/// it is one.
pub proof fn decimal_nat_reads_back(n: nat)
    ensures
        number_of(decimal_nat(n), 10) == n,
        n > 0 ==> decimal_nat(n)[0] != '0',
    decreases n,
{
    let s = decimal_nat(n);
    if n >= 10 {
        decimal_nat_reads_back(n / 10);
        decimal_nat_digits(n / 10);
        assert(s.drop_last() =~= decimal_nat(n / 10));
        assert(s[0] == decimal_nat(n / 10)[0]);
    } else {
        assert(s.drop_last() =~= Seq::empty());
        assert(number_of(s.drop_last(), 10) == 0);
    }
    assert(digit_of(digit_char((n % 10) as int)) == n % 10);
}

/// The numeral of an integer stands for that integer: behind a minus sign if and only if it is
/// negative stands the numeral of its magnitude.
pub proof fn decimal_reads_back(i: int)
    ensures
        i < 0 <==> decimal(i)[0] == '-',
        i < 0 ==> number_of(decimal(i).skip(1), 10) == -i,
        i >= 0 ==> number_of(decimal(i), 10) == i,
        decimal(i).len() > 0,
{
    if i < 0 {
        decimal_nat_reads_back((-i) as nat);
        decimal_nat_digits((-i) as nat);
        assert(decimal(i).skip(1) =~= decimal_nat((-i) as nat));
    } else {
        decimal_nat_reads_back(i as nat);
        decimal_nat_digits(i as nat);
    }
}

/// Hexadecimal digits stand for the number that they are of, if they are enough for it, and are
/// the characters `0` to `9` and `a` to `f`.
pub proof fn hex_digits_read_back(v: nat, digits: nat)
    requires
        v < hex_range(digits),
    ensures
        number_of(hex_digits(v, digits), 16) == v,
        forall|i: int|
            0 <= i < digits ==> ('0' <= #[trigger] hex_digits(v, digits)[i] && hex_digits(
                v,
                digits,
            )[i] <= '9') || ('a' <= hex_digits(v, digits)[i] && hex_digits(v, digits)[i] <= 'f'),
    decreases digits,
{
    hex_digits_len(v, digits);
    if digits > 0 {
        let s = hex_digits(v, digits);
        hex_digits_read_back(v / 16, (digits - 1) as nat);
        hex_digits_len(v / 16, (digits - 1) as nat);
        assert(s.drop_last() =~= hex_digits(v / 16, (digits - 1) as nat));
        assert(digit_of(digit_char((v % 16) as int)) == v % 16);
        assert forall|i: int| 0 <= i < digits implies ('0' <= #[trigger] s[i] && s[i] <= '9') || (
        'a' <= s[i] && s[i] <= 'f') by {
            if i < digits - 1 {
                assert(s[i] == hex_digits(v / 16, (digits - 1) as nat)[i]);
            }
        }
    }
}

/// Digits behind others make these count more.
pub proof fn number_of_both(a: Seq<char>, b: Seq<char>)
    ensures
        number_of(a + b, 16) == number_of(a, 16) * hex_range(b.len()) + number_of(b, 16),
    decreases b.len(),
{
    let x = number_of(a, 16);
    if b.len() == 0 {
        assert(a + b =~= a);
        assert(number_of(b, 16) == 0 && hex_range(b.len()) == 1);
    } else {
        let shorter = b.drop_last();
        let y = hex_range(shorter.len()) as int;
        number_of_both(a, shorter);
        assert((a + b).drop_last() =~= a + shorter);
        assert((a + b).last() == b.last());
        assert(hex_range(b.len()) == 16 * y);
        assert(number_of(b, 16) == number_of(shorter, 16) * 16 + digit_of(b.last()));
        assert(number_of(a + b, 16) == number_of(a + shorter, 16) * 16 + digit_of(b.last()));
        assert((x * y) * 16 == x * (16 * y)) by (nonlinear_arith);
    }
}

} // verus!
