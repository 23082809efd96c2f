//! Decimal numerals and padding, the pieces that text output is made of.

use vstd::prelude::*;

verus! {

/// `String::push` of the standard library appends one character to the end
/// of the string and leaves the rest as it was.
pub assume_specification[ String::push ](s: &mut String, ch: char)
    ensures
        final(s)@ == old(s)@.push(ch),
;

/// `String::push_str` of the standard library appends a string slice to the
/// end of the string and leaves the rest as it was.
pub assume_specification[ String::push_str ](s: &mut String, string: &str)
    ensures
        final(s)@ == old(s)@ + string@,
;

/// The character for the digit `d`.
pub open spec fn digit_char(d: int) -> char
    recommends
        0 <= d < 10,
{
    ('0' as int + d) as char
}

/// The decimal numeral of `n`: its digits, most significant first, with no
/// leading zero.
pub open spec fn decimal(n: nat) -> Seq<char>
    decreases n,
{
    if n < 10 {
        seq![digit_char(n as int)]
    } else {
        decimal(n / 10).push(digit_char((n % 10) as int))
    }
}

/// `k` spaces.
pub open spec fn spaces(k: nat) -> Seq<char> {
    Seq::new(k, |i: int| ' ')
}

/// `text` moved to the right edge of a column `width` characters wide.
pub open spec fn right_aligned(text: Seq<char>, width: nat) -> Seq<char> {
    spaces((width - text.len()) as nat) + text
}

/// A numeral has one digit per power of ten that the number reaches.
pub proof fn lemma_decimal_len(n: nat)
    ensures
        decimal(n).len() >= 1,
        n < 10 <==> decimal(n).len() == 1,
        n >= 10 ==> decimal(n).len() == decimal(n / 10).len() + 1,
    decreases n,
{
    if n >= 10 {
        lemma_decimal_len(n / 10);
    }
}

/// The digit that a character stands for.
pub open spec fn digit_value(ch: char) -> int {
    ch as int - '0' as int
}

/// The number that a sequence of digits stands for.
pub open spec fn numeral_value(digits: Seq<char>) -> int
    decreases digits.len(),
{
    if digits.len() == 0 {
        0
    } else {
        10 * numeral_value(digits.drop_last()) + digit_value(digits.last())
    }
}

/// A numeral stands for the number that it was made from.
pub proof fn lemma_decimal_value(n: nat)
    ensures
        numeral_value(decimal(n)) == n,
    decreases n,
{
    if n < 10 {
        let digits = seq![digit_char(n as int)];
        assert(digits.drop_last() =~= Seq::<char>::empty());
        assert(numeral_value(digits.drop_last()) == 0);
        assert(digits.last() == digit_char(n as int));
    } else {
        lemma_decimal_value(n / 10);
        let digits = decimal(n / 10).push(digit_char((n % 10) as int));
        assert(digits.drop_last() =~= decimal(n / 10));
        assert(digits.last() == digit_char((n % 10) as int));
    }
}

/// Different numbers have different numerals.
pub proof fn lemma_decimal_injective(a: nat, b: nat)
    requires
        decimal(a) == decimal(b),
    ensures
        a == b,
{
    lemma_decimal_value(a);
    lemma_decimal_value(b);
}

/// The character for the digit `d`.
pub fn digit(d: u32) -> (ch: char)
    requires
        d < 10,
    ensures
        ch == digit_char(d as int),
{
    match d {
        0 => '0',
        1 => '1',
        2 => '2',
        3 => '3',
        4 => '4',
        5 => '5',
        6 => '6',
        7 => '7',
        8 => '8',
        _ => '9',
    }
}

/// Appends the decimal numeral of `n` to `out`.
pub fn push_decimal(out: &mut String, n: u32)
    ensures
        final(out)@ == old(out)@ + decimal(n as nat),
    decreases n,
{
    if n >= 10 {
        push_decimal(out, n / 10);
    }
    out.push(digit(n % 10));
    assert(out@ =~= old(out)@ + decimal(n as nat));
}

/// Ten to the power of `k`.
pub open spec fn power_of_ten(k: nat) -> nat
    decreases k,
{
    if k == 0 {
        1
    } else {
        10 * power_of_ten((k - 1) as nat)
    }
}

/// A number below the `k`-th power of ten has at most `k` digits.
pub proof fn lemma_decimal_len_bound(n: nat, k: nat)
    requires
        k >= 1,
        n < power_of_ten(k),
    ensures
        decimal(n).len() <= k,
    decreases k,
{
    lemma_decimal_len(n);
    if n >= 10 {
        assert(power_of_ten(1) == 10) by {
            assert(power_of_ten(0) == 1);
        }
        lemma_decimal_len_bound(n / 10, (k - 1) as nat);
    }
}

/// The numeral of a 32-bit value has at most ten digits.
pub proof fn lemma_decimal_len_u32(n: u32)
    ensures
        1 <= decimal(n as nat).len() <= 10,
{
    lemma_decimal_len(n as nat);
    assert(power_of_ten(10) == 10_000_000_000) by {
        reveal_with_fuel(power_of_ten, 11);
    }
    lemma_decimal_len_bound(n as nat, 10);
}

/// The number of digits in the decimal numeral of `n`.
pub fn decimal_width(n: u32) -> (w: usize)
    ensures
        w == decimal(n as nat).len(),
        1 <= w <= 10,
    decreases n,
{
    proof {
        lemma_decimal_len(n as nat);
        lemma_decimal_len_u32(n);
    }
    if n >= 10 {
        1 + decimal_width(n / 10)
    } else {
        1
    }
}

/// The decimal numeral of `n` as a string of its own.
pub fn decimal_string(n: u32) -> (s: String)
    ensures
        s@ == decimal(n as nat),
{
    let mut s = String::new();
    push_decimal(&mut s, n);
    assert(s@ =~= decimal(n as nat));
    s
}

/// Appends `k` spaces to `out`.
pub fn push_spaces(out: &mut String, k: usize)
    ensures
        final(out)@ == old(out)@ + spaces(k as nat),
{
    let mut i: usize = 0;
    while i < k
        invariant
            i <= k,
            out@ == old(out)@ + spaces(i as nat),
        decreases k - i,
    {
        out.push(' ');
        i = i + 1;
        assert(out@ =~= old(out)@ + spaces(i as nat));
    }
    assert(out@ =~= old(out)@ + spaces(k as nat));
}

/// Appends the decimal numeral of `n` to `out`, moved to the right edge of a
/// column `width` characters wide.
pub fn push_decimal_aligned(out: &mut String, n: u32, width: usize)
    requires
        decimal(n as nat).len() <= width,
    ensures
        final(out)@ == old(out)@ + right_aligned(decimal(n as nat), width as nat),
{
    let used: usize = decimal_width(n);
    push_spaces(out, width - used);
    push_decimal(out, n);
    assert(out@ =~= old(out)@ + right_aligned(decimal(n as nat), width as nat));
}

} // verus!
