//! Byte counts and durations for people.

use vstd::prelude::*;
use vstd::string::*;

use crate::number::{decimal, decimal_two, numeral, two_digits};
use crate::text::cat;

verus! {

/// The quotient rounded to the nearest integer, to the even one where two are as near.
pub open spec fn nearest(a: nat, b: nat) -> nat
    recommends
        b > 0,
{
    let q = a / b;
    let r = a % b;
    if 2 * r < b || (2 * r == b && q % 2 == 0) {
        q
    } else {
        q + 1
    }
}

/// The distance between neighbouring numbers of 53 binary digits around `n`.
pub open spec fn spacing(n: nat) -> nat
    decreases n,
{
    if n < 0x20_0000_0000_0000 {
        1
    } else {
        2 * spacing(n / 2)
    }
}

/// The number rounded to 53 binary digits.
pub open spec fn to_53_bits(n: nat) -> nat {
    nearest(n, spacing(n)) * spacing(n)
}

/// How many bytes one unit stands for.
pub open spec fn unit_bytes(m: nat) -> nat {
    if m < 1024 {
        1
    } else if m < 1048576 {
        1024
    } else if m < 1073741824 {
        1048576
    } else if m < 1099511627776 {
        1073741824
    } else {
        1099511627776
    }
}

pub open spec fn unit_name(m: nat) -> Seq<char> {
    if m < 1024 {
        "B"@
    } else if m < 1048576 {
        "KB"@
    } else if m < 1073741824 {
        "MB"@
    } else if m < 1099511627776 {
        "GB"@
    } else {
        "TB"@
    }
}

/// A byte count in the largest unit that it reaches, with one decimal from kilobytes on. Counts are
/// taken to 53 binary digits, negative ones as none.
pub open spec fn human_text(n: int) -> Seq<char> {
    let m = to_53_bits(
        if n < 0 {
            0
        } else {
            n as nat
        },
    );
    if m < 1024 {
        numeral(m) + "B"@
    } else {
        let tenths = nearest(m * 10, unit_bytes(m));
        numeral(tenths / 10) + "."@ + numeral(tenths % 10) + unit_name(m)
    }
}

proof fn lemma_spacing_bound(n: nat)
    requires
        n <= i64::MAX,
    ensures
        1 <= spacing(n) <= 1024,
        n / spacing(n) < 0x20_0000_0000_0000,
{
    reveal_with_fuel(spacing, 12);
    lemma_spacing_digits(n);
}

proof fn lemma_spacing_digits(n: nat)
    ensures
        1 <= spacing(n),
        n / spacing(n) < 0x20_0000_0000_0000,
    decreases n,
{
    if n >= 0x20_0000_0000_0000 {
        lemma_spacing_digits(n / 2);
        let s = spacing(n / 2);
        vstd::arithmetic::div_mod::lemma_div_denominator(n as int, 2, s as int);
        assert(2 * s == spacing(n));
    }
}

fn spacing_of(n: u64) -> (r: u64)
    requires
        n <= i64::MAX,
    ensures
        r == spacing(n as nat),
{
    let mut step: u64 = 1;
    let mut rest: u64 = n;
    proof {
        lemma_spacing_bound(n as nat);
    }
    while rest >= 0x20_0000_0000_0000
        invariant
            rest <= n <= i64::MAX,
            1 <= step,
            step * spacing(rest as nat) == spacing(n as nat),
            spacing(n as nat) <= 1024,
        decreases rest,
    {
        proof {
            let s = spacing((rest / 2) as nat);
            lemma_spacing_bound((rest / 2) as nat);
            assert(spacing(rest as nat) == 2 * s);
            assert(step * (2 * s) == (step * 2) * s) by (nonlinear_arith);
            assert(step * 2 <= (step * 2) * s) by (nonlinear_arith)
                requires
                    s >= 1,
                    step >= 1,
            ;
        }
        step = step * 2;
        rest = rest / 2;
    }
    proof {
        assert(step * 1 == step) by (nonlinear_arith);
    }
    step
}

fn nearest_of(a: u128, b: u128) -> (r: u128)
    requires
        0 < b <= 0x1_0000_0000_0000,
        a <= 0x8000_0000_0000_0000_0000,
    ensures
        r == nearest(a as nat, b as nat),
{
    let q: u128 = a / b;
    let r: u128 = a % b;
    assert(q <= a) by (nonlinear_arith)
        requires
            q == a / b,
            b > 0,
    ;
    if 2 * r < b || (2 * r == b && q % 2 == 0) {
        q
    } else {
        q + 1
    }
}

/// Human-readable byte count (`1.5MB`).
pub fn human_bytes(n: i64) -> (r: String)
    ensures
        r@ == human_text(n as int),
{
    let c: u64 = if n < 0 {
        0
    } else {
        n as u64
    };
    let step = spacing_of(c);
    proof {
        lemma_spacing_bound(c as nat);
    }
    let q = nearest_of(c as u128, step as u128);
    proof {
        assert(q <= 0x20_0000_0000_0000);
        assert(q * step <= 0x20_0000_0000_0000 * 1024) by (nonlinear_arith)
            requires
                q <= 0x20_0000_0000_0000,
                step <= 1024,
                0 <= q,
                0 <= step,
        ;
    }
    let m: u128 = q * (step as u128);
    assert(m == to_53_bits(c as nat));
    if m < 1024 {
        return cat(decimal(m as u64).as_str(), "B");
    }
    let (unit, name): (u128, &str) = if m < 1048576 {
        (1024, "KB")
    } else if m < 1073741824 {
        (1048576, "MB")
    } else if m < 1099511627776 {
        (1073741824, "GB")
    } else {
        (1099511627776, "TB")
    };
    let tenths = nearest_of(m * 10, unit);
    proof {
        let a: int = m * 10;
        let b: int = unit as int;
        assert(a / b <= a / 1024) by (nonlinear_arith)
            requires
                b >= 1024,
                a >= 0,
        ;
    }
    let mut s = decimal((tenths / 10) as u64);
    s.append(".");
    s.append(decimal((tenths % 10) as u64).as_str());
    s.append(name);
    s
}

/// A duration as hours and minutes, or minutes and seconds.
pub open spec fn eta_text(s: nat) -> Seq<char> {
    if s >= 3600 {
        numeral(s / 3600) + "h"@ + two_digits((s % 3600) / 60) + "m"@
    } else {
        numeral(s / 60) + "m"@ + two_digits(s % 60) + "s"@
    }
}

/// The time that is left, in whole seconds.
pub fn fmt_eta(seconds: u64) -> (r: String)
    ensures
        r@ == eta_text(seconds as nat),
{
    if seconds >= 3600 {
        let mut r = decimal(seconds / 3600);
        r.append("h");
        r.append(decimal_two((seconds % 3600) / 60).as_str());
        r.append("m");
        r
    } else {
        let mut r = decimal(seconds / 60);
        r.append("m");
        r.append(decimal_two(seconds % 60).as_str());
        r.append("s");
        r
    }
}

} // verus!
