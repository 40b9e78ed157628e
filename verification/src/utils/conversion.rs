use vstd::arithmetic::div_mod::{lemma_div_denominator, lemma_fundamental_div_mod};
use vstd::arithmetic::power2::{
    lemma_pow2_adds, lemma_pow2_pos, lemma_pow2_strictly_increases, lemma_pow2_unfold, pow2,
};
use vstd::prelude::*;

use crate::text::{copy_str, decimal, digit, digit_char, push_char, push_decimal, push_str};

verus! {

/// How many low bits an integer loses when converted to `f64`: none below
/// 2^53, otherwise one per bit beyond 53 significant bits.
pub open spec fn f64_shift(n: nat) -> nat
    decreases n,
{
    if n < 0x20000000000000 {
        0
    } else {
        1 + f64_shift(n / 2)
    }
}

/// The value of `n as f64` (round to nearest, ties to even, on 53
/// significant bits), as an integer.
pub open spec fn f64_of(n: nat) -> nat {
    let s = f64_shift(n);
    if s == 0 {
        n
    } else {
        let p = pow2(s);
        let q = n / p;
        let r = n % p;
        let h = pow2((s - 1) as nat);
        (if r > h || (r == h && q % 2 == 1) {
            q + 1
        } else {
            q
        }) * p
    }
}

/// The number of bytes in one unit `k` (B, KiB, MiB, GiB, TiB).
pub open spec fn unit_size(k: nat) -> nat {
    if k == 0 {
        1
    } else if k == 1 {
        1024
    } else if k == 2 {
        1048576
    } else if k == 3 {
        1073741824
    } else {
        1099511627776
    }
}

/// The name of unit `k`.
pub open spec fn unit_name(k: nat) -> Seq<char> {
    if k == 0 {
        "B"@
    } else if k == 1 {
        "KiB"@
    } else if k == 2 {
        "MiB"@
    } else if k == 3 {
        "GiB"@
    } else {
        "TiB"@
    }
}

/// The largest unit (at most TiB) of which `v` holds at least one.
pub open spec fn unit_index(v: nat) -> nat {
    if v >= unit_size(4) {
        4
    } else if v >= unit_size(3) {
        3
    } else if v >= unit_size(2) {
        2
    } else if v >= unit_size(1) {
        1
    } else {
        0
    }
}

/// `v` bytes in unit `k`, rounded to the nearest integer, halves away
/// from zero.
pub open spec fn rounded_units(v: nat, k: nat) -> nat {
    if k == 0 {
        v
    } else {
        (v + unit_size(k) / 2) / unit_size(k)
    }
}

/// The human-readable size of `bytes`: the value as `f64`, divided by 1024
/// while at least 1024 and below TiB, rounded, then the unit.
pub open spec fn human_bytes(bytes: nat) -> Seq<char> {
    let v = f64_of(bytes);
    let k = unit_index(v);
    decimal(rounded_units(v, k)) + " "@ + unit_name(k)
}

/// The value of `n as f64`, as an integer.
fn f64_value(n: u64) -> (v: u128)
    ensures
        v == f64_of(n as nat),
        v < 0x40000000000000000,
{
    if n < 0x20000000000000 {
        return n as u128;
    }
    let ghost nn = n as nat;
    let mut q: u128 = n as u128;
    let mut p: u128 = 1;
    let ghost mut s: nat = 0;
    proof {
        assert(pow2(0) == 1) by {
            vstd::arithmetic::power2::lemma2_to64();
        }
    }
    while q >= 0x20000000000000
        invariant
            p == pow2(s),
            q == nn / (p as nat),
            f64_shift(nn) == s + f64_shift(q as nat),
            s > 0 ==> q >= 0x10000000000000,
            q * p <= nn,
            nn < 0x10000000000000000,
            p > 0,
        decreases q,
    {
        proof {
            lemma_div_denominator(nn as int, p as int, 2);
            lemma_pow2_unfold(s + 1);
            assert(q / 2 >= 0x10000000000000);
            lemma_fundamental_div_mod(nn as int, p as int);
            assert(nn >= q * p) by (nonlinear_arith)
                requires
                    q == nn / (p as nat),
                    nn == p * (nn / (p as nat)) + nn % (p as nat),
                    nn % (p as nat) >= 0,
            ;
            assert(p <= nn) by (nonlinear_arith)
                requires
                    q >= 1,
                    q * p <= nn,
                    p > 0,
            ;
            assert((q / 2) * (p * 2) <= q * p) by (nonlinear_arith)
                requires
                    q >= 0x20000000000000,
                    p > 0,
            ;
        }
        q = q / 2;
        p = p * 2;
        proof {
            s = s + 1;
        }
    }
    proof {
        lemma_fundamental_div_mod(nn as int, p as int);
        assert(s > 0);
        lemma_pow2_unfold(s);
    }
    let r = n as u128 - q * p;
    let h = p / 2;
    let up = r > h || (r == h && q % 2 == 1);
    let q2 = if up {
        q + 1
    } else {
        q
    };
    proof {
        assert(p < 0x1000) by (nonlinear_arith)
            requires
                q >= 0x10000000000000,
                q * p <= nn,
                nn < 0x10000000000000000,
        ;
        assert(q2 * p < 0x40000000000000000) by (nonlinear_arith)
            requires
                q2 <= 0x20000000000000,
                p < 0x1000,
        ;
    }
    q2 * p
}

/// The human-readable size of `bytes`, e.g. `5 B`, `2 KiB`, `1024 KiB`
/// (see `human_bytes`).
pub fn bytes_to_human_readable(bytes: u64) -> (s: String)
    ensures
        s@ == human_bytes(bytes as nat),
{
    let v = f64_value(bytes);
    let (n, unit): (u128, &str) = if v >= 1099511627776 {
        ((v + 549755813888) / 1099511627776, "TiB")
    } else if v >= 1073741824 {
        ((v + 536870912) / 1073741824, "GiB")
    } else if v >= 1048576 {
        ((v + 524288) / 1048576, "MiB")
    } else if v >= 1024 {
        ((v + 512) / 1024, "KiB")
    } else {
        (v, "B")
    };
    let mut s = String::new();
    push_decimal(&mut s, n);
    push_str(&mut s, " ");
    push_str(&mut s, unit);
    s
}

/// `a / b` rounded to the nearest integer, halves to the even neighbour.
pub open spec fn div_round_even(a: nat, b: nat) -> nat {
    let q = a / b;
    let r = a % b;
    if 2 * r > b || (2 * r == b && q % 2 == 1) {
        q + 1
    } else {
        q
    }
}

/// The largest `e` with `den * 2^e <= num` (0 when `num < 2 * den`).
pub open spec fn binade(num: nat, den: nat) -> nat
    decreases num - den,
{
    if den == 0 || num < 2 * den {
        0
    } else {
        1 + binade(num, 2 * den)
    }
}

/// The `f64` nearest to `num / den` (ties to even), for `1 <= num / den <
/// 2^53`: a 53-bit significand `q` and a scale `s`, the value being
/// `q / 2^s`.
pub open spec fn f64_quotient(num: nat, den: nat) -> (nat, nat) {
    let s = (52 - binade(num, den)) as nat;
    (div_round_even(num * pow2(s), den), s)
}

/// The value `q / 2^s` printed with two decimals (`{:.2}`): rounded to
/// hundredths, halves to even.
pub open spec fn two_decimals(q: nat, s: nat) -> Seq<char> {
    let cents = div_round_even(q * 100, pow2(s));
    decimal(cents / 100).push('.').push(digit_char((cents % 100) / 10)).push(
        digit_char(cents % 10),
    )
}

/// The human-readable token count: below 1000 the count itself; otherwise
/// the count as `f64` divided by 1000 (and once more while at least 1000,
/// up to millions), printed with two decimals and `k` or `M`.
pub open spec fn tokens_text(t: nat) -> Seq<char> {
    if t < 1000 {
        decimal(t)
    } else {
        let (q1, s1) = f64_quotient(t, 1000);
        if q1 >= 1000 * pow2(s1) {
            let (q2, s2) = f64_quotient(q1, 1000 * pow2(s1));
            two_decimals(q2, s2) + "M"@
        } else {
            two_decimals(q1, s1) + "k"@
        }
    }
}

/// `a / b` rounded to the nearest integer, halves to even.
fn div_round_even_exec(a: u128, b: u128) -> (r: u128)
    requires
        b > 0,
        a < 0x1000000000000000000000000000000,
        b < 0x1000000000000000000000000000000,
    ensures
        r == div_round_even(a as nat, b as nat),
{
    let q = a / b;
    let r = a % b;
    if 2 * r > b || (2 * r == b && q % 2 == 1) {
        q + 1
    } else {
        q
    }
}

/// `2^s`.
fn pow2_exec(s: u32) -> (p: u128)
    requires
        s <= 64,
    ensures
        p == pow2(s as nat),
{
    let mut p: u128 = 1;
    let mut i: u32 = 0;
    proof {
        vstd::arithmetic::power2::lemma2_to64();
    }
    while i < s
        invariant
            i <= s,
            s <= 64,
            p == pow2(i as nat),
        decreases s - i,
    {
        proof {
            vstd::arithmetic::power2::lemma2_to64();
            lemma_pow2_unfold((i + 1) as nat);
            if i + 1 < 64 {
                lemma_pow2_strictly_increases((i + 1) as nat, 64);
            }
        }
        p = p * 2;
        i = i + 1;
    }
    p
}

/// The `f64` nearest to `num / den`, as `f64_quotient` gives it.
fn f64_quotient_exec(num: u128, den: u128) -> (r: (u128, u32))
    requires
        0 < den <= num,
        num < 0x10000000000000000,
        num < den * 0x20000000000000,
    ensures
        r.0 == f64_quotient(num as nat, den as nat).0,
        r.1 == f64_quotient(num as nat, den as nat).1,
        r.1 <= 52,
        r.0 <= 0x20000000000000,
{
    let mut d = den;
    let mut e: u32 = 0;
    proof {
        vstd::arithmetic::power2::lemma2_to64();
    }
    while num >= 2 * d
        invariant
            0 < den <= d <= num,
            num < 0x10000000000000000,
            num < den * 0x20000000000000,
            d == den * pow2(e as nat),
            binade(num as nat, den as nat) == e + binade(num as nat, d as nat),
            e <= 52,
        decreases num - d,
    {
        proof {
            lemma_pow2_unfold((e + 1) as nat);
            assert(d * 2 == den * pow2((e + 1) as nat)) by (nonlinear_arith)
                requires
                    d == den * pow2(e as nat),
                    pow2((e + 1) as nat) == 2 * pow2(e as nat),
            ;
            if e + 1 > 52 {
                lemma_pow2_strictly_increases(52, (e + 1) as nat);
                assert(pow2(53) == 0x20000000000000) by {
                    vstd::arithmetic::power2::lemma2_to64_rest();
                }
                lemma_pow2_unfold(53);
                assert(den * pow2((e + 1) as nat) >= den * 0x20000000000000) by (nonlinear_arith)
                    requires
                        pow2((e + 1) as nat) >= 0x20000000000000,
                        den > 0,
                ;
            }
        }
        d = 2 * d;
        e = e + 1;
    }
    let s: u32 = 52 - e;
    let p = pow2_exec(s);
    proof {
        lemma_pow2_adds(e as nat, s as nat);
        assert(pow2(52) == 0x10000000000000) by {
            vstd::arithmetic::power2::lemma2_to64_rest();
        }
        lemma_pow2_pos(e as nat);
        if s < 52 {
            lemma_pow2_strictly_increases(s as nat, 52);
        }
        assert(num * p < 0x1000000000000000000000000000000) by (nonlinear_arith)
            requires
                num < 0x10000000000000000,
                p <= 0x10000000000000,
        ;
        assert(num * p < den * 0x20000000000000) by (nonlinear_arith)
            requires
                num < d * 2,
                d == den * pow2(e as nat),
                p == pow2(s as nat),
                pow2(e as nat) * pow2(s as nat) == 0x10000000000000,
        ;
    }
    let q = div_round_even_exec(num * p, den);
    proof {
        assert((num * p) as nat / (den as nat) < 0x20000000000000) by (nonlinear_arith)
            requires
                num * p < den * 0x20000000000000,
                den > 0,
        ;
    }
    (q, s)
}

/// `q / 2^s` printed with two decimals, as `two_decimals` gives it.
fn push_two_decimals(out: &mut String, q: u128, s: u32)
    requires
        q <= 0x20000000000000,
        s <= 52,
    ensures
        final(out)@ == old(out)@ + two_decimals(q as nat, s as nat),
{
    let p = pow2_exec(s);
    proof {
        lemma_pow2_pos(s as nat);
        lemma_pow2_strictly_increases(s as nat, 53);
        assert(pow2(53) == 0x20000000000000) by {
            vstd::arithmetic::power2::lemma2_to64_rest();
        }
    }
    let cents = div_round_even_exec(q * 100, p);
    let ghost start = out@;
    push_decimal(out, cents / 100);
    push_char(out, '.');
    push_char(out, digit((cents % 100) / 10));
    push_char(out, digit(cents % 10));
    assert(out@ =~= start + two_decimals(q as nat, s as nat));
}

/// Converts a number of tokens to a human-readable string, e.g. `999`,
/// `1.50k`, `2.30M` (see `tokens_text`).
pub fn tokens_to_human_readable(tokens: u32) -> (s: String)
    ensures
        s@ == tokens_text(tokens as nat),
{
    let mut s = String::new();
    if tokens < 1000 {
        push_decimal(&mut s, tokens as u128);
        return s;
    }
    let (q1, s1) = f64_quotient_exec(tokens as u128, 1000);
    let p1 = pow2_exec(s1);
    proof {
        assert(pow2(52) == 0x10000000000000) by {
            vstd::arithmetic::power2::lemma2_to64_rest();
        }
        lemma_pow2_pos(s1 as nat);
        if s1 < 52 {
            lemma_pow2_strictly_increases(s1 as nat, 52);
        }
    }
    if q1 >= 1000 * p1 {
        let (q2, s2) = f64_quotient_exec(q1, 1000 * p1);
        push_two_decimals(&mut s, q2, s2);
        push_str(&mut s, "M");
    } else {
        push_two_decimals(&mut s, q1, s1);
        push_str(&mut s, "k");
    }
    s
}

} // verus!
