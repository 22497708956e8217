//! Decimal text of `i32` values: how `str::parse::<i32>` reads it and how
//! `i32::to_string` writes it, and the law that one undoes the other.

use vstd::prelude::*;

use crate::strings::push_char;

verus! {

/// The character of a decimal digit `d` (`0 <= d < 10`).
pub open spec fn digit_char(d: int) -> char {
    (d + 48) as char
}

pub open spec fn is_digit(c: char) -> bool {
    48 <= (c as int) <= 57
}

pub open spec fn digit_value(c: char) -> int {
    c as int - 48
}

pub open spec fn all_digits(s: Seq<char>) -> bool {
    forall|i: int| 0 <= i < s.len() ==> is_digit(#[trigger] s[i])
}

/// The number that a sequence of decimal digits spells, most significant first.
pub open spec fn digits_value(s: Seq<char>) -> int
    decreases s.len(),
{
    if s.len() == 0 {
        0
    } else {
        digits_value(s.drop_last()) * 10 + digit_value(s.last())
    }
}

/// The decimal digits of a natural number, without leading zeros.
pub open spec fn decimal_nat(n: nat) -> Seq<char>
    decreases n,
{
    if n < 10 {
        seq![digit_char(n as int)]
    } else {
        decimal_nat(n / 10).push(digit_char((n % 10) as int))
    }
}

/// The text that `to_string` gives for an integer: a `-` before the digits
/// of a negative number.
pub open spec fn decimal(n: int) -> Seq<char> {
    if n < 0 {
        seq!['-'] + decimal_nat((-n) as nat)
    } else {
        decimal_nat(n as nat)
    }
}

/// What `str::parse::<i32>` accepts: an optional `+` or `-`, then at least one
/// decimal digit and nothing else, whose value lies in the range of `i32`.
pub open spec fn parse_i32_spec(s: Seq<char>) -> Option<i32> {
    let neg = s.len() > 0 && s[0] == '-';
    let signed = s.len() > 0 && (s[0] == '-' || s[0] == '+');
    let ds = if signed { s.drop_first() } else { s };
    let v: int = if neg { -digits_value(ds) } else { digits_value(ds) };
    if ds.len() > 0 && all_digits(ds) && i32::MIN <= v <= i32::MAX {
        Some(v as i32)
    } else {
        None
    }
}

proof fn lemma_digits_value_nonneg(s: Seq<char>)
    requires
        all_digits(s),
    ensures
        digits_value(s) >= 0,
    decreases s.len(),
{
    if s.len() > 0 {
        lemma_digits_value_nonneg(s.drop_last());
    }
}

/// Appending digits never makes the value smaller.
proof fn lemma_digits_value_prefix(s: Seq<char>, k: int)
    requires
        all_digits(s),
        0 <= k <= s.len(),
    ensures
        digits_value(s.take(k)) <= digits_value(s),
    decreases s.len(),
{
    if k < s.len() {
        assert(s.take(k) =~= s.drop_last().take(k));
        lemma_digits_value_prefix(s.drop_last(), k);
        lemma_digits_value_nonneg(s.drop_last());
    } else {
        assert(s.take(k) =~= s);
    }
}

proof fn lemma_digit_char(d: int)
    requires
        0 <= d < 10,
    ensures
        digit_char(d) as int == d + 48,
        is_digit(digit_char(d)),
        digit_value(digit_char(d)) == d,
{
}

proof fn lemma_decimal_nat_digits(n: nat)
    ensures
        decimal_nat(n).len() > 0,
        all_digits(decimal_nat(n)),
        digits_value(decimal_nat(n)) == n,
    decreases n,
{
    if n < 10 {
        lemma_digit_char(n as int);
        let d = decimal_nat(n);
        assert(d.drop_last() =~= Seq::<char>::empty());
        assert(digits_value(d.drop_last()) == 0);
        assert(d.last() == digit_char(n as int));
    } else {
        lemma_digit_char((n % 10) as int);
        lemma_decimal_nat_digits(n / 10);
        let d = decimal_nat(n);
        assert(d.drop_last() =~= decimal_nat(n / 10));
        assert(d.last() == digit_char((n % 10) as int));
        assert(n == (n / 10) * 10 + n % 10);
    }
}

/// The decimal text of every `i32` reads back as that value: what a write of
/// the number stores, a later read gives back.
pub proof fn lemma_parse_decimal_roundtrip(n: i32)
    ensures
        parse_i32_spec(decimal(n as int)) == Some(n),
{
    if n < 0 {
        let m: nat = (-n) as nat;
        lemma_decimal_nat_digits(m);
        let s = decimal(n as int);
        assert(s.drop_first() =~= decimal_nat(m));
    } else {
        lemma_decimal_nat_digits(n as nat);
        let d = decimal_nat(n as nat);
        assert(is_digit(d[0]));
    }
}

proof fn lemma_decimal_nat_leading(n: nat)
    ensures
        n > 0 ==> decimal_nat(n)[0] != '0',
    decreases n,
{
    if n >= 10 {
        lemma_decimal_nat_leading(n / 10);
        lemma_decimal_nat_digits(n / 10);
        assert(decimal_nat(n)[0] == decimal_nat(n / 10)[0]);
    } else {
        lemma_digit_char(n as int);
    }
}

/// The decimal text of a number that is not negative is its digits alone: no
/// sign, no leading zero, spelling the number; that of a negative number is a
/// `-` followed by the text of its absolute value.
pub proof fn lemma_decimal_text(n: int)
    ensures
        n >= 0 ==> {
            &&& decimal(n).len() > 0
            &&& all_digits(decimal(n))
            &&& digits_value(decimal(n)) == n
            &&& (n > 0 ==> decimal(n)[0] != '0')
        },
        n < 0 ==> decimal(n) == seq!['-'] + decimal(-n),
{
    if n >= 0 {
        lemma_decimal_nat_digits(n as nat);
        lemma_decimal_nat_leading(n as nat);
    }
}

fn digit_to_char(d: u32) -> (c: char)
    requires
        d < 10,
    ensures
        c == digit_char(d as int),
{
    match d {
        0 => '0',
        1 => '1',
        2 => '2',
        3 => '3',
        4 => '4',
        5 => '5',
        6 => '6',
        7 => '7',
        8 => '8',
        _ => '9',
    }
}

fn push_decimal_nat(s: &mut String, m: u32)
    ensures
        final(s)@ == old(s)@ + decimal_nat(m as nat),
    decreases m,
{
    if m >= 10 {
        push_decimal_nat(s, m / 10);
    }
    push_char(s, digit_to_char(m % 10));
    proof {
        if m >= 10 {
            assert(decimal_nat(m as nat) == decimal_nat((m / 10) as nat).push(
                digit_char((m % 10) as int),
            ));
        }
    }
}

/// Appends the decimal text of `n` to `s`, as `to_string` writes it.
pub fn push_decimal(s: &mut String, n: i32)
    ensures
        final(s)@ == old(s)@ + decimal(n as int),
{
    if n < 0 {
        push_char(s, '-');
        let m: u32 = (-(n as i64)) as u32;
        push_decimal_nat(s, m);
        assert(final(s)@ =~= old(s)@ + decimal(n as int));
    } else {
        push_decimal_nat(s, n as u32);
    }
}

/// The decimal text of `n`, as `i32::to_string` writes it.
pub fn format_i32(n: i32) -> (r: String)
    ensures
        r@ == decimal(n as int),
{
    let mut s = String::new();
    push_decimal(&mut s, n);
    assert(s@ =~= decimal(n as int));
    s
}

/// Reads `s` as `str::parse::<i32>` does; `None` where it returns an error.
pub fn parse_i32(s: &str) -> (r: Option<i32>)
    ensures
        r == parse_i32_spec(s@),
{
    let n: usize = s.unicode_len();
    if n == 0 {
        return None;
    }
    let first = s.get_char(0);
    let neg = first == '-';
    let start: usize = if first == '-' || first == '+' { 1 } else { 0 };
    let ghost ds = if start == 1 { s@.drop_first() } else { s@ };
    if start == n {
        return None;
    }
    let mut acc: i64 = 0;
    let mut i: usize = start;
    while i < n
        invariant
            start <= 1,
            n > 0,
            (start == 1) == (s@[0] == '-' || s@[0] == '+'),
            neg == (s@[0] == '-'),
            start <= i <= n,
            n == s@.len(),
            start == 1 ==> ds == s@.drop_first(),
            start == 0 ==> ds == s@,
            ds.len() == n - start,
            all_digits(ds.take(i - start)),
            acc == digits_value(ds.take(i - start)),
            0 <= acc <= 2147483648,
        decreases n - i,
    {
        let c = s.get_char(i);
        let ghost k = i - start;
        assert(0 <= k < ds.len());
        if start == 1 {
            assert(ds[k] == s@.drop_first()[k]);
            assert(s@.drop_first()[k] == s@[k + 1]);
        }
        assert(ds[k] == s@[i as int]);
        if !('0' <= c && c <= '9') {
            assert(!is_digit(ds[k]));
            assert(!all_digits(ds));
            return None;
        }
        let dv: i64 = (c as u32 - 48) as i64;
        acc = acc * 10 + dv;
        assert(ds.take(k + 1).drop_last() =~= ds.take(k));
        assert(all_digits(ds.take(k + 1)));
        i = i + 1;
        if acc > 2147483648 {
            proof {
                if all_digits(ds) {
                    lemma_digits_value_prefix(ds, k + 1);
                }
            }
            return None;
        }
    }
    assert(ds.take(n - start) =~= ds);
    if neg {
        let v: i64 = -acc;
        Some(v as i32)
    } else if acc <= 2147483647 {
        Some(acc as i32)
    } else {
        None
    }
}

} // verus!
