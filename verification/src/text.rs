//! Text building blocks shared by the renderers: digits of numbers,
//! concatenation, and joining.
use vstd::prelude::*;
use vstd::string::StringExecFns;

verus! {

/// The character of one digit, for bases up to sixteen.
pub open spec fn digit_char(d: nat) -> char {
    if d == 0 {
        '0'
    } else if d == 1 {
        '1'
    } else if d == 2 {
        '2'
    } else if d == 3 {
        '3'
    } else if d == 4 {
        '4'
    } else if d == 5 {
        '5'
    } else if d == 6 {
        '6'
    } else if d == 7 {
        '7'
    } else if d == 8 {
        '8'
    } else if d == 9 {
        '9'
    } else if d == 10 {
        'a'
    } else if d == 11 {
        'b'
    } else if d == 12 {
        'c'
    } else if d == 13 {
        'd'
    } else if d == 14 {
        'e'
    } else {
        'f'
    }
}

/// The digits of `n` in `base`, most significant first, without leading zeros.
pub open spec fn digits(n: nat, base: nat) -> Seq<char>
    decreases n,
{
    if base < 2 || n < base {
        seq![digit_char(n)]
    } else {
        proof {
            assert(n / base < n) by (nonlinear_arith)
                requires
                    n >= base,
                    base >= 2,
            ;
        }
        digits(n / base, base).push(digit_char(n % base))
    }
}

/// The lower-case hexadecimal digits of `n`, without a prefix.
pub open spec fn hex(n: nat) -> Seq<char> {
    digits(n, 16)
}

/// The decimal digits of `n`.
pub open spec fn decimal(n: nat) -> Seq<char> {
    digits(n, 10)
}

/// Appends `other` to `output`.
pub fn put(output: &mut String, other: &str)
    ensures
        final(output)@ == old(output)@ + other@,
{
    output.append(other);
}

/// The literal `text` as an owned string.
pub fn owned(text: &str) -> (res: String)
    ensures
        res@ == text@,
{
    let res = String::from_str(text);
    res
}

/// Appends one digit.
fn put_digit(output: &mut String, d: u128)
    requires
        d < 16,
    ensures
        final(output)@ == old(output)@.push(digit_char(d as nat)),
{
    proof {
        reveal_strlit("0");
        reveal_strlit("1");
        reveal_strlit("2");
        reveal_strlit("3");
        reveal_strlit("4");
        reveal_strlit("5");
        reveal_strlit("6");
        reveal_strlit("7");
        reveal_strlit("8");
        reveal_strlit("9");
        reveal_strlit("a");
        reveal_strlit("b");
        reveal_strlit("c");
        reveal_strlit("d");
        reveal_strlit("e");
        reveal_strlit("f");
    }
    let digit: &str = match d {
        0 => "0",
        1 => "1",
        2 => "2",
        3 => "3",
        4 => "4",
        5 => "5",
        6 => "6",
        7 => "7",
        8 => "8",
        9 => "9",
        10 => "a",
        11 => "b",
        12 => "c",
        13 => "d",
        14 => "e",
        _ => "f",
    };
    assert(digit@ =~= seq![digit_char(d as nat)]);
    output.append(digit);
    assert(output@ =~= old(output)@.push(digit_char(d as nat)));
}

/// Appends the digits of `n` in `base`.
fn put_digits(output: &mut String, n: u128, base: u128)
    requires
        2 <= base <= 16,
    ensures
        final(output)@ == old(output)@ + digits(n as nat, base as nat),
    decreases n,
{
    if n < base {
        put_digit(output, n);
        assert(output@ =~= old(output)@ + digits(n as nat, base as nat));
    } else {
        assert(n / base < n) by (nonlinear_arith)
            requires
                n >= base,
                base >= 2,
        ;
        put_digits(output, n / base, base);
        assert(n % base < base) by (nonlinear_arith)
            requires
                base >= 2,
        ;
        put_digit(output, n % base);
        assert(output@ =~= old(output)@ + digits(n as nat, base as nat));
    }
}

/// Appends `n` in lower-case hexadecimal, without a prefix.
pub fn put_hex(output: &mut String, n: u128)
    ensures
        final(output)@ == old(output)@ + hex(n as nat),
{
    put_digits(output, n, 16);
}

/// Appends `n` in decimal.
pub fn put_decimal(output: &mut String, n: u128)
    ensures
        final(output)@ == old(output)@ + decimal(n as nat),
{
    put_digits(output, n, 10);
}

} // verus!
