//! Human-readable byte totals.

use vstd::prelude::*;
use vstd::string::StringExecFns;

verus! {

/// The character of a decimal digit.
pub open spec fn digit_char(d: int) -> char {
    if d == 0 {
        '0'
    } else if d == 1 {
        '1'
    } else if d == 2 {
        '2'
    } else if d == 3 {
        '3'
    } else if d == 4 {
        '4'
    } else if d == 5 {
        '5'
    } else if d == 6 {
        '6'
    } else if d == 7 {
        '7'
    } else if d == 8 {
        '8'
    } else {
        '9'
    }
}

/// A number in decimal, without leading zeros.
pub open spec fn decimal(n: nat) -> Seq<char>
    decreases n,
{
    if n < 10 {
        seq![digit_char(n as int)]
    } else {
        decimal(n / 10).push(digit_char((n % 10) as int))
    }
}

/// `n / d` rounded to the nearest whole number, a tie going to the even one.
pub open spec fn round_half_even(n: int, d: int) -> int {
    let q = n / d;
    let r = n % d;
    if 2 * r > d || (2 * r == d && q % 2 == 1) {
        q + 1
    } else {
        q
    }
}

/// The least power of two, from `step` on, that brings `n / step` under
/// two to the power 53.
pub open spec fn binade_step(n: int, step: int) -> int
    decreases n - step,
{
    if step >= 1 && n >= 0x20_0000_0000_0000 * step {
        binade_step(n, 2 * step)
    } else {
        step
    }
}

/// A byte count as the nearest number with 53 significant bits, a tie going
/// to the even one.
pub open spec fn to_53_bits(bytes: u64) -> int {
    let step = binade_step(bytes as int, 1);
    round_half_even(bytes as int, step) * step
}

/// A count of hundredths with two decimal places, followed by `unit`.
pub open spec fn two_places(hundredths: nat, unit: Seq<char>) -> Seq<char> {
    decimal(hundredths / 100) + seq![
        '.',
        digit_char(((hundredths % 100) / 10) as int),
        digit_char((hundredths % 10) as int),
    ] + unit
}

/// The text of a byte total: plain bytes under 1024, else the largest of
/// KiB, MiB and GiB that does not exceed it, to two decimal places.
pub open spec fn bytes_total_text(bytes: u64) -> Seq<char> {
    if bytes >= 0x4000_0000 {
        two_places(round_half_even(to_53_bits(bytes) * 100, 0x4000_0000) as nat, " GiB"@)
    } else if bytes >= 0x10_0000 {
        two_places(round_half_even(bytes * 100, 0x10_0000) as nat, " MiB"@)
    } else if bytes >= 0x400 {
        two_places(round_half_even(bytes * 100, 0x400) as nat, " KiB"@)
    } else {
        decimal(bytes as nat) + " B"@
    }
}

/// The text of one decimal digit.
pub fn digit_str(d: u64) -> (s: &'static str)
    requires
        d < 10,
    ensures
        s@ == seq![digit_char(d as int)],
{
    proof {
        reveal_strlit("0");
        reveal_strlit("1");
        reveal_strlit("2");
        reveal_strlit("3");
        reveal_strlit("4");
        reveal_strlit("5");
        reveal_strlit("6");
        reveal_strlit("7");
        reveal_strlit("8");
        reveal_strlit("9");
    }
    let s = if d == 0 {
        "0"
    } else if d == 1 {
        "1"
    } else if d == 2 {
        "2"
    } else if d == 3 {
        "3"
    } else if d == 4 {
        "4"
    } else if d == 5 {
        "5"
    } else if d == 6 {
        "6"
    } else if d == 7 {
        "7"
    } else if d == 8 {
        "8"
    } else {
        "9"
    };
    assert(s@ =~= seq![digit_char(d as int)]);
    s
}

/// Appends a number in decimal.
pub fn push_decimal(out: &mut String, n: u128)
    ensures
        final(out)@ == old(out)@ + decimal(n as nat),
    decreases n,
{
    if n >= 10 {
        push_decimal(out, n / 10);
    }
    let d: u64 = (n % 10) as u64;
    out.append(digit_str(d));
    proof {
        if n >= 10 {
            assert(final(out)@ =~= old(out)@ + decimal((n / 10) as nat).push(
                digit_char((n % 10) as int),
            ));
        } else {
            assert(final(out)@ =~= old(out)@ + seq![digit_char(n as int)]);
        }
    }
}

/// `n / d` to the nearest whole number, a tie going to the even one.
pub fn div_round_half_even(n: u128, d: u128) -> (q: u128)
    requires
        d > 0,
        n / d < u128::MAX,
    ensures
        q == round_half_even(n as int, d as int),
{
    let q: u128 = n / d;
    let r: u128 = n % d;
    // r > d / 2, without doubling r
    let above: bool = r > d - r;
    let tie: bool = r == d - r;
    if above || (tie && q % 2 == 1) {
        q + 1
    } else {
        q
    }
}

/// A byte count rounded to 53 significant bits.
pub fn round_to_53_bits(bytes: u64) -> (r: u128)
    ensures
        r == to_53_bits(bytes),
        r <= 0x1_0000_0000_0000_0000,
{
    let n: u128 = bytes as u128;
    let mut step: u128 = 1;
    while n >= 0x20_0000_0000_0000u128 * step
        invariant
            step == 1 || step == 2 || step == 4 || step == 8 || step == 0x10 || step == 0x20
                || step == 0x40 || step == 0x80 || step == 0x100 || step == 0x200 || step
                == 0x400 || step == 0x800,
            n == bytes,
            binade_step(bytes as int, 1) == binade_step(bytes as int, step as int),
        decreases 0x1000 - step,
    {
        step = step * 2;
    }
    assert(n / step < 0x20_0000_0000_0000) by (nonlinear_arith)
        requires
            n < 0x20_0000_0000_0000 * step,
            step >= 1,
    ;
    let q = div_round_half_even(n, step);
    assert(q * step <= 0x1_0000_0000_0000_0000) by (nonlinear_arith)
        requires
            q <= 0x20_0000_0000_0000,
            1 <= step <= 0x800,
    ;
    q * step
}

/// Two decimal places of a count of hundredths, followed by `unit`.
pub fn format_two_places(hundredths: u128, unit: &str) -> (s: String)
    ensures
        s@ == two_places(hundredths as nat, unit@),
{
    let mut s = String::new();
    push_decimal(&mut s, hundredths / 100);
    proof {
        reveal_strlit(".");
    }
    s.append(".");
    s.append(digit_str(((hundredths % 100) / 10) as u64));
    s.append(digit_str((hundredths % 10) as u64));
    s.append(unit);
    assert(s@ =~= two_places(hundredths as nat, unit@));
    s
}

/// Renders a byte total: plain bytes under 1024, else KiB, MiB or GiB to
/// two decimal places.
pub fn format_bytes_total(bytes: u64) -> (s: String)
    ensures
        s@ == bytes_total_text(bytes),
{
    let wide: u128 = bytes as u128;
    if bytes >= 0x4000_0000 {
        let rounded = round_to_53_bits(bytes);
        format_two_places(div_round_half_even(rounded * 100, 0x4000_0000), " GiB")
    } else if bytes >= 0x10_0000 {
        format_two_places(div_round_half_even(wide * 100, 0x10_0000), " MiB")
    } else if bytes >= 0x400 {
        format_two_places(div_round_half_even(wide * 100, 0x400), " KiB")
    } else {
        let mut s = String::new();
        push_decimal(&mut s, wide);
        s.append(" B");
        assert(s@ =~= decimal(bytes as nat) + " B"@);
        s
    }
}

} // verus!
