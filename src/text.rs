use vstd::prelude::*;
use crate::range::{digit_value, digits_value, is_digit, all_digits, number_text};

verus! {

pub open spec fn digit_char(d: nat) -> char {
    seq!['0', '1', '2', '3', '4', '5', '6', '7', '8', '9'][d as int]
}

/// The decimal digits of `n`, most significant first, without leading zeros.
pub open spec fn decimal(n: nat) -> Seq<char>
    decreases n,
{
    if n < 10 {
        seq![digit_char(n)]
    } else {
        decimal(n / 10).push(digit_char(n % 10))
    }
}

fn digit_str(d: u128) -> (r: &'static str)
    requires
        d < 10,
    ensures
        r@ == seq![digit_char(d as nat)],
{
    proof {
        reveal_strlit("0");
        reveal_strlit("1");
        reveal_strlit("2");
        reveal_strlit("3");
        reveal_strlit("4");
        reveal_strlit("5");
        reveal_strlit("6");
        reveal_strlit("7");
        reveal_strlit("8");
        reveal_strlit("9");
    }
    let r = if d == 0 {
        "0"
    } else if d == 1 {
        "1"
    } else if d == 2 {
        "2"
    } else if d == 3 {
        "3"
    } else if d == 4 {
        "4"
    } else if d == 5 {
        "5"
    } else if d == 6 {
        "6"
    } else if d == 7 {
        "7"
    } else if d == 8 {
        "8"
    } else {
        "9"
    };
    assert(r@ =~= seq![digit_char(d as nat)]);
    r
}

/// Appends the decimal digits of `n` to `out`.
pub fn push_decimal(out: &mut String, n: u128)
    ensures
        final(out)@ == old(out)@ + decimal(n as nat),
    decreases n,
{
    if n >= 10 {
        push_decimal(out, n / 10);
    }
    out.append(digit_str(n % 10));
    proof {
        if n >= 10 {
            assert(final(out)@ =~= old(out)@ + decimal(n as nat));
        } else {
            assert(final(out)@ =~= old(out)@ + decimal(n as nat));
        }
    }
}

/// The decimal text of `n`.
pub fn decimal_string(n: u128) -> (r: String)
    ensures
        r@ == decimal(n as nat),
{
    let mut s = String::new();
    push_decimal(&mut s, n);
    assert(s@ =~= decimal(n as nat));
    s
}

pub proof fn lemma_decimal_digits(n: nat)
    ensures
        all_digits(decimal(n)),
        decimal(n).len() > 0,
        digits_value(decimal(n)) == n,
    decreases n,
{
    let s = decimal(n);
    if n < 10 {
        assert(s.drop_last() =~= Seq::<char>::empty());
        assert(digit_value(s.last()) == n);
        assert(digits_value(s.drop_last()) == 0);
        assert(digits_value(s) == digits_value(s.drop_last()) * 10 + digit_value(s.last()));
    } else {
        lemma_decimal_digits(n / 10);
        assert(s.drop_last() =~= decimal(n / 10));
        assert(digit_value(s.last()) == n % 10);
        vstd::arithmetic::div_mod::lemma_fundamental_div_mod(n as int, 10);
        assert(digits_value(s) == digits_value(s.drop_last()) * 10 + digit_value(s.last()));
        assert forall|i: int| 0 <= i < s.len() implies is_digit(#[trigger] s[i]) by {
            if i < s.len() - 1 {
                assert(s[i] == decimal(n / 10)[i]);
            }
        }
    }
}

/// What integer parsing reads back from the decimal text of a `u64`.
pub proof fn lemma_number_text_decimal(n: u64)
    ensures
        number_text(decimal(n as nat)) == Some(n),
{
    lemma_decimal_digits(n as nat);
    let s = decimal(n as nat);
    assert(s[0] != '+') by {
        assert(is_digit(s[0]));
    }
}

pub const KB: u64 = 1024;

pub const MB: u64 = 1048576;

pub const GB: u64 = 1073741824;

/// `size / unit` in tenths, rounded to the nearest tenth, ties to an even
/// last digit.
pub open spec fn rounded_tenths(size: nat, unit: nat) -> nat {
    let q = (size * 10) / unit;
    let r = (size * 10) % unit;
    if r * 2 > unit || (r * 2 == unit && q % 2 == 1) {
        q + 1
    } else {
        q
    }
}

/// A count of tenths written with one decimal place, as `12.3`.
pub open spec fn one_decimal(t: nat) -> Seq<char> {
    decimal(t / 10) + seq!['.'] + decimal(t % 10)
}

/// A file size as shown to people: whole bytes below one KiB, else KiB, MiB
/// or GiB with one decimal place.
pub open spec fn size_text(size: nat) -> Seq<char> {
    if size < KB {
        decimal(size) + seq![' ', 'B']
    } else if size < MB {
        one_decimal(rounded_tenths(size, KB as nat)) + seq![' ', 'K', 'B']
    } else if size < GB {
        one_decimal(rounded_tenths(size, MB as nat)) + seq![' ', 'M', 'B']
    } else {
        one_decimal(rounded_tenths(size, GB as nat)) + seq![' ', 'G', 'B']
    }
}

fn tenths(size: u64, unit: u64) -> (r: u128)
    requires
        unit > 0,
    ensures
        r == rounded_tenths(size as nat, unit as nat),
{
    let t = size as u128 * 10;
    let q = t / unit as u128;
    let rem = t % unit as u128;
    if rem * 2 > unit as u128 || (rem * 2 == unit as u128 && q % 2 == 1) {
        q + 1
    } else {
        q
    }
}

/// Formats a byte count for the listing page, e.g. `5 B`, `1.5 KB`, `2.0 MB`.
pub fn format_size(size: u64) -> (r: String)
    ensures
        r@ == size_text(size as nat),
{
    let mut out = String::new();
    if size < KB {
        push_decimal(&mut out, size as u128);
        out.append(" B");
        proof {
            reveal_strlit(" B");
        }
        assert(out@ =~= size_text(size as nat));
        return out;
    }
    let unit = if size < MB {
        KB
    } else if size < GB {
        MB
    } else {
        GB
    };
    let t = tenths(size, unit);
    push_decimal(&mut out, t / 10);
    out.append(".");
    push_decimal(&mut out, t % 10);
    proof {
        reveal_strlit(".");
        reveal_strlit(" KB");
        reveal_strlit(" MB");
        reveal_strlit(" GB");
    }
    if size < MB {
        out.append(" KB");
    } else if size < GB {
        out.append(" MB");
    } else {
        out.append(" GB");
    }
    assert(out@ =~= size_text(size as nat));
    out
}

} // verus!
