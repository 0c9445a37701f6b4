//! Node health: the disk health levels reported with a node's metrics and
//! the human-readable rendering of byte counts used in capacity messages.

use crate::text::{decimal, decimal_string, digit_char, digit_str};
use vstd::prelude::*;

verus! {

/// Health of the disk holding a node's data directory.
#[derive(Debug, Clone, Copy, PartialEq, Eq, Structural)]
pub enum DiskHealth {
    /// Enough free space.
    Healthy,
    /// Nearly full.
    Warning,
    /// Full, or about to fail.
    Critical,
    /// Not measured.
    Unknown,
}

/// 2 to the power `s`.
pub open spec fn two_to(s: nat) -> nat
    decreases s,
{
    if s == 0 {
        1
    } else {
        2 * two_to((s - 1) as nat)
    }
}

/// 1024 to the power `k`.
pub open spec fn kib_power(k: nat) -> nat
    decreases k,
{
    if k == 0 {
        1
    } else {
        1024 * kib_power((k - 1) as nat)
    }
}

/// `a / d` rounded to the nearest integer, a tie going to the even one.
pub open spec fn round_half_even(a: nat, d: nat) -> nat {
    let q = a / d;
    let r = a % d;
    if 2 * r > d || (2 * r == d && q % 2 == 1) {
        q + 1
    } else {
        q
    }
}

/// How many low bits of `b` a double cannot hold: the halvings that bring
/// `b` below 2^53.
pub open spec fn significand_shift(b: nat) -> nat
    decreases b,
{
    if b < 0x20000000000000 {
        0
    } else {
        1 + significand_shift(b / 2)
    }
}

/// The double nearest to `b` (a tie going to the even significand), which
/// is what `b as f64` gives.
pub open spec fn nearest_double(b: nat) -> nat {
    let s = significand_shift(b);
    round_half_even(b, two_to(s)) * two_to(s)
}

/// The unit a size of `n` bytes is shown in, counting from `k`: divide by
/// 1024 while the size is at least 1024, up to the fifth unit.
pub open spec fn unit_from(n: nat, k: nat) -> nat
    decreases 4 - k,
{
    if k < 4 && n >= 1024 * kib_power(k) {
        unit_from(n, k + 1)
    } else {
        k
    }
}

/// The name of the `k`-th unit.
pub open spec fn unit_name(k: nat) -> Seq<char> {
    if k == 0 {
        "B"@
    } else if k == 1 {
        "KB"@
    } else if k == 2 {
        "MB"@
    } else if k == 3 {
        "GB"@
    } else {
        "TB"@
    }
}

/// The text of `bytes` in the largest unit (of B, KB, MB, GB, TB) in which
/// the size is at least 1, with two decimals: the size is taken as the
/// nearest double, divided by 1024 per unit, and rounded to hundredths with
/// a tie going to the even digit.
pub open spec fn format_bytes_spec(bytes: u64) -> Seq<char> {
    let n = nearest_double(bytes as nat);
    let k = unit_from(n, 0);
    let h = round_half_even(n * 100, kib_power(k));
    decimal(h / 100) + seq!['.', digit_char((h % 100) / 10), digit_char(h % 10), ' '] + unit_name(k)
}

proof fn lemma_two_to_monotone(a: nat, b: nat)
    requires
        a <= b,
    ensures
        two_to(a) <= two_to(b),
    decreases b,
{
    if a < b {
        lemma_two_to_monotone(a, (b - 1) as nat);
    }
}

fn nearest_double_value(bytes: u64) -> (n: u128)
    ensures
        n == nearest_double(bytes as nat),
        n <= 0x1_0000_0000_0000_0000,
{
    let mut q: u64 = bytes;
    let mut p: u64 = 1;
    let ghost mut s: nat = 0;
    assert(bytes / 1 == bytes);
    while q >= 0x20000000000000
        invariant
            p == two_to(s),
            p > 0,
            p <= 2048,
            s <= 11,
            q == bytes / p,
            significand_shift(bytes as nat) == s + significand_shift(q as nat),
        decreases q,
    {
        proof {
            vstd::arithmetic::div_mod::lemma_fundamental_div_mod(bytes as int, p as int);
            let pq = p * q;
            assert(p * q <= bytes) by (nonlinear_arith)
                requires
                    bytes == p * (bytes / p) + bytes % p,
                    q == bytes / p,
                    bytes % p >= 0,
            ;
            assert(p < 2048) by (nonlinear_arith)
                requires
                    p * q <= bytes,
                    q >= 0x20000000000000,
                    bytes < 0x1_0000_0000_0000_0000,
                    p > 0,
            ;
            vstd::arithmetic::div_mod::lemma_div_denominator(bytes as int, p as int, 2);
            assert(two_to(11) == 2048) by { reveal_with_fuel(two_to, 12); }
            assert(two_to(10) == 1024) by { reveal_with_fuel(two_to, 11); }
            if s >= 11 {
                lemma_two_to_monotone(11, s);
            } else {
                lemma_two_to_monotone(s, 10);
            }
        }
        q = q / 2;
        p = p * 2;
        proof {
            s = s + 1;
        }
    }
    let r: u64 = bytes % p;
    proof {
        vstd::arithmetic::div_mod::lemma_fundamental_div_mod(bytes as int, p as int);
    }
    let rq: u64 = if 2 * r > p || (2 * r == p && q % 2 == 1) {
        q + 1
    } else {
        q
    };
    assert(rq as nat == round_half_even(bytes as nat, two_to(s)));
    assert((rq as u128) * (p as u128) <= 0x1_0000_0000_0000_0000) by (nonlinear_arith)
        requires
            rq <= 0x20000000000000,
            p <= 2048,
    ;
    (rq as u128) * (p as u128)
}

fn unit_str(k: usize) -> (s: &'static str)
    requires
        k <= 4,
    ensures
        s@ == unit_name(k as nat),
{
    if k == 0 {
        "B"
    } else if k == 1 {
        "KB"
    } else if k == 2 {
        "MB"
    } else if k == 3 {
        "GB"
    } else {
        "TB"
    }
}

/// Renders a byte count for people: "0.00 B", "1.00 KB", "1.50 MB", ...
/// See `format_bytes_spec` for the exact rule.
pub fn format_bytes(bytes: u64) -> (s: String)
    ensures
        s@ == format_bytes_spec(bytes),
{
    let n: u128 = nearest_double_value(bytes);
    let mut k: usize = 0;
    let mut div: u128 = 1;
    while k < 4 && n >= 1024 * div
        invariant
            k <= 4,
            div == kib_power(k as nat),
            div >= 1,
            div <= 0x100_0000_0000,
            unit_from(n as nat, 0) == unit_from(n as nat, k as nat),
        decreases 4 - k,
    {
        assert(div * 1024 <= 0x100_0000_0000) by {
            if k < 4 {
                assert(kib_power(1) == 1024);
                assert(kib_power(2) == 1048576) by { reveal_with_fuel(kib_power, 3); }
                assert(kib_power(3) == 1073741824) by { reveal_with_fuel(kib_power, 4); }
            }
        }
        div = div * 1024;
        k = k + 1;
    }
    assert(unit_from(n as nat, k as nat) == k);
    let a: u128 = n * 100;
    let q: u128 = a / div;
    let r: u128 = a % div;
    proof {
        vstd::arithmetic::div_mod::lemma_fundamental_div_mod(a as int, div as int);
        if k < 4 {
            assert(q < 102400) by (nonlinear_arith)
                requires
                    a == div * q + r,
                    r >= 0,
                    a == n * 100,
                    n < 1024 * div,
                    div > 0,
            ;
        } else {
            assert(kib_power(4) == 0x100_0000_0000) by { reveal_with_fuel(kib_power, 5); }
            assert(q <= 100 * 0x100_0000) by (nonlinear_arith)
                requires
                    a == div * q + r,
                    r >= 0,
                    a == n * 100,
                    n <= 0x1_0000_0000_0000_0000,
                    div == 0x100_0000_0000,
            ;
        }
    }
    let h: u128 = if 2 * r > div || (2 * r == div && q % 2 == 1) {
        q + 1
    } else {
        q
    };
    assert(h as nat == round_half_even(n as nat * 100, kib_power(k as nat)));
    let hv: u64 = h as u64;
    let mut s = decimal_string(hv / 100);
    let ghost int_part = s@;
    s.append(".");
    s.append(digit_str((hv % 100) / 10));
    s.append(digit_str(hv % 10));
    s.append(" ");
    s.append(unit_str(k));
    proof {
        reveal_strlit(".");
        reveal_strlit(" ");
    }
    assert(s@ =~= int_part + seq!['.', digit_char(((hv % 100) / 10) as nat), digit_char((hv % 10) as nat), ' '] + unit_name(k as nat));
    s
}

} // verus!
