//! Human-readable byte counts and uptimes.
use vstd::prelude::*;
use crate::text::{decimal, digit_char, digit_to_char, push_char, push_decimal};

verus! {

/// 2 to the power `k`.
pub open spec fn exp2(k: nat) -> nat
    decreases k,
{
    if k == 0 {
        1
    } else {
        2 * exp2((k - 1) as nat)
    }
}

/// The number of binary digits of `n`.
pub open spec fn bit_len(n: nat) -> nat
    decreases n,
{
    if n == 0 {
        0
    } else {
        1 + bit_len(n / 2)
    }
}

/// `n / d` rounded to the nearest integer, ties to the even one.
pub open spec fn round_half_even(n: nat, d: nat) -> nat {
    let q = n / d;
    let r = n % d;
    if 2 * r > d || (2 * r == d && q % 2 == 1) {
        q + 1
    } else {
        q
    }
}

/// The value of `n as f64`: `n` rounded to 53 significant binary digits, ties
/// to even.
pub open spec fn f64_value(n: nat) -> nat {
    if bit_len(n) <= 53 {
        n
    } else {
        let p = exp2((bit_len(n) - 53) as nat);
        round_half_even(n, p) * p
    }
}

/// The unit a byte count of `v` is shown in: the largest of B, KB, MB, GB and TB
/// that is at most `v` (B below 1024).
pub open spec fn unit_index(v: nat) -> nat {
    if v < 0x400 {
        0
    } else if v < 0x10_0000 {
        1
    } else if v < 0x4000_0000 {
        2
    } else if v < 0x100_0000_0000 {
        3
    } else {
        4
    }
}

/// The size of unit `i`: 1024 to the power `i`.
pub open spec fn unit_scale(i: nat) -> nat {
    if i == 0 {
        1
    } else if i == 1 {
        0x400
    } else if i == 2 {
        0x10_0000
    } else if i == 3 {
        0x4000_0000
    } else {
        0x100_0000_0000
    }
}

/// The name of unit `i`.
pub open spec fn unit_name(i: nat) -> Seq<char> {
    if i == 0 {
        seq!['B']
    } else if i == 1 {
        seq!['K', 'B']
    } else if i == 2 {
        seq!['M', 'B']
    } else if i == 3 {
        seq!['G', 'B']
    } else {
        seq!['T', 'B']
    }
}

/// `b` bytes as `fmt_bytes` shows them: the count as an `f64`, divided by the
/// size of its unit, with one decimal (rounded to the nearest tenth, ties to
/// even), then the unit.
pub open spec fn bytes_text(b: nat) -> Seq<char> {
    let v = f64_value(b);
    let i = unit_index(v);
    let t = round_half_even(v * 10, unit_scale(i));
    decimal(t / 10) + seq!['.', digit_char(t % 10)] + unit_name(i)
}

proof fn lemma_bit_len_bound(n: nat, k: nat)
    requires
        n < exp2(k),
    ensures
        bit_len(n) <= k,
    decreases k,
{
    if k > 0 && n > 0 {
        lemma_bit_len_bound(n / 2, (k - 1) as nat);
    }
}

proof fn lemma_bit_len_lower(n: nat, k: nat)
    requires
        bit_len(n) > k,
    ensures
        n >= exp2(k),
    decreases k,
{
    if k > 0 {
        lemma_bit_len_lower(n / 2, (k - 1) as nat);
    }
}

proof fn lemma_exp2_plus8(k: nat)
    ensures
        exp2(k + 8) == 256 * exp2(k),
{
    reveal_with_fuel(exp2, 9);
}

proof fn lemma_exp2_values()
    ensures
        exp2(11) == 0x800,
        exp2(53) == 0x20_0000_0000_0000,
        exp2(64) == 0x1_0000_0000_0000_0000,
{
    reveal_with_fuel(exp2, 6);
    assert(exp2(3) == 8);
    assert(exp2(5) == 32);
    lemma_exp2_plus8(3);
    lemma_exp2_plus8(5);
    lemma_exp2_plus8(13);
    lemma_exp2_plus8(21);
    lemma_exp2_plus8(29);
    lemma_exp2_plus8(37);
    lemma_exp2_plus8(45);
    assert(exp2(0) == 1);
    lemma_exp2_plus8(0);
    lemma_exp2_plus8(8);
    lemma_exp2_plus8(16);
    lemma_exp2_plus8(24);
    lemma_exp2_plus8(32);
    lemma_exp2_plus8(40);
    lemma_exp2_plus8(48);
    lemma_exp2_plus8(56);
}

proof fn lemma_exp2_mono(j: nat, k: nat)
    requires
        j <= k,
    ensures
        exp2(j) <= exp2(k),
    decreases k,
{
    if j < k {
        lemma_exp2_mono(j, (k - 1) as nat);
    }
}

proof fn lemma_exp2_add(j: nat, k: nat)
    ensures
        exp2(j + k) == exp2(j) * exp2(k),
    decreases k,
{
    if k == 0 {
        assert(j + k == j);
        assert(exp2(k) == 1);
    } else {
        lemma_exp2_add(j, (k - 1) as nat);
        assert((j + k - 1) as nat == j + (k - 1) as nat);
        assert(exp2(j + k) == 2 * exp2((j + k - 1) as nat));
        assert(exp2(j) * exp2(k) == exp2(j) * (2 * exp2((k - 1) as nat)));
        assert(exp2(j) * (2 * exp2((k - 1) as nat)) == 2 * (exp2(j) * exp2((k - 1) as nat))) by (nonlinear_arith);
    }
}

proof fn lemma_below_exp2_bit_len(n: nat)
    ensures
        n < exp2(bit_len(n)),
    decreases n,
{
    if n > 0 {
        lemma_below_exp2_bit_len(n / 2);
    }
}

/// The value of `b as f64`, exactly.
fn f64_value_of(b: u64) -> (v: u128)
    ensures
        v == f64_value(b as nat),
        v <= 0x1_0000_0000_0000_0000,
{
    proof {
        lemma_exp2_values();
        lemma_bit_len_bound(b as nat, 64);
        lemma_below_exp2_bit_len(b as nat);
    }
    let mut x: u64 = b;
    let mut l: u64 = 0;
    while x > 0
        invariant
            bit_len(b as nat) == l + bit_len(x as nat),
            bit_len(b as nat) <= 64,
        decreases x,
    {
        x = x / 2;
        l = l + 1;
    }
    if l <= 53 {
        return b as u128;
    }
    let e = l - 53;
    let mut p: u128 = 1;
    let mut k: u64 = 0;
    while k < e
        invariant
            k <= e,
            e <= 11,
            p == exp2(k as nat),
            exp2(11) == 0x800,
        decreases e - k,
    {
        proof {
            lemma_exp2_mono((k + 1) as nat, 11);
        }
        p = p * 2;
        k = k + 1;
    }
    proof {
        lemma_exp2_mono(e as nat, 11);
        lemma_exp2_add(53, e as nat);
    }
    let n = b as u128;
    let q = n / p;
    let r = n % p;
    assert(q < 0x20_0000_0000_0000) by (nonlinear_arith)
        requires
            n < 0x20_0000_0000_0000 * p,
            q == n / p,
            p > 0,
    ;
    let q2 = if 2 * r > p || (2 * r == p && q % 2 == 1) { q + 1 } else { q };
    assert(q2 * p <= 0x20_0000_0000_0000 * p) by (nonlinear_arith)
        requires
            q2 <= 0x20_0000_0000_0000,
            p > 0,
    ;
    q2 * p
}

/// Appends the name of unit `i`.
fn push_unit(s: &mut String, i: u64)
    requires
        i <= 4,
    ensures
        final(s)@ == old(s)@ + unit_name(i as nat),
{
    let ghost start = s@;
    if i == 0 {
        push_char(s, 'B');
    } else {
        let c = if i == 1 {
            'K'
        } else if i == 2 {
            'M'
        } else if i == 3 {
            'G'
        } else {
            'T'
        };
        push_char(s, c);
        push_char(s, 'B');
    }
    assert(s@ =~= start + unit_name(i as nat));
}

/// A byte count in the largest unit that keeps it at least 1 (up to TB), with one
/// decimal: `1536` is `1.5KB`.
pub fn fmt_bytes(b: u64) -> (s: String)
    ensures
        s@ == bytes_text(b as nat),
{
    let v = f64_value_of(b);
    let i: u64 = if v < 0x400 {
        0
    } else if v < 0x10_0000 {
        1
    } else if v < 0x4000_0000 {
        2
    } else if v < 0x100_0000_0000 {
        3
    } else {
        4
    };
    let d: u128 = if i == 0 {
        1
    } else if i == 1 {
        0x400
    } else if i == 2 {
        0x10_0000
    } else if i == 3 {
        0x4000_0000
    } else {
        0x100_0000_0000
    };
    let n = v * 10;
    let q = n / d;
    let r = n % d;
    if i == 4 {
        assert(q <= 0xA00_0000) by (nonlinear_arith)
            requires
                q == n / d,
                n <= 0xA_0000_0000_0000_0000,
                d == 0x100_0000_0000,
        ;
    } else {
        assert(q < 0x2800) by (nonlinear_arith)
            requires
                q == n / d,
                n == v * 10,
                d >= 1,
                v < 0x400 * d,
        ;
    }
    let t = if 2 * r > d || (2 * r == d && q % 2 == 1) {
        q + 1
    } else {
        q
    };
    let t = t as u64;
    let mut s = String::new();
    push_decimal(&mut s, t / 10);
    push_char(&mut s, '.');
    push_char(&mut s, digit_to_char(t % 10));
    push_unit(&mut s, i);
    assert(s@ =~= decimal((t / 10) as nat) + seq!['.', digit_char((t % 10) as nat)] + unit_name(
        i as nat,
    ));
    s
}

/// An uptime of `s` seconds as `fmt_uptime` shows it: days, hours and minutes,
/// leaving out leading zero parts (`3d 7h 41m`, `7h 41m`, `41m`).
pub open spec fn uptime_text(s: nat) -> Seq<char> {
    let d = s / 86400;
    let h = (s % 86400) / 3600;
    let m = (s % 3600) / 60;
    if d > 0 {
        decimal(d) + seq!['d', ' '] + decimal(h) + seq!['h', ' '] + decimal(m) + seq!['m']
    } else if h > 0 {
        decimal(h) + seq!['h', ' '] + decimal(m) + seq!['m']
    } else {
        decimal(m) + seq!['m']
    }
}

/// A count below 1024 bytes is shown exactly, with a zero tenth: `17` shows as
/// `17.0B`.
pub proof fn lemma_small_counts_exact(b: nat)
    requires
        b < 1024,
    ensures
        bytes_text(b) == decimal(b) + ".0B"@,
{
    lemma_exp2_values();
    lemma_bit_len_bound(b, 11);
    assert(f64_value(b) == b);
    assert(unit_index(b) == 0);
    assert(round_half_even(b * 10, 1) == b * 10);
    assert((b * 10) / 10 == b);
    assert((b * 10) % 10 == 0);
    reveal_strlit(".0B");
    assert(seq!['.', digit_char(0)] + unit_name(0) =~= ".0B"@);
    assert(decimal(b) + seq!['.', digit_char(0)] + unit_name(0) =~= decimal(b) + ".0B"@);
}

/// The days, hours and minutes shown account for the whole uptime but its last
/// partial minute.
pub proof fn lemma_uptime_parts(s: nat)
    ensures
        (s % 86400) / 3600 < 24,
        (s % 3600) / 60 < 60,
        (s / 86400) * 86400 + ((s % 86400) / 3600) * 3600 + ((s % 3600) / 60) * 60 <= s,
        s < (s / 86400) * 86400 + ((s % 86400) / 3600) * 3600 + ((s % 3600) / 60) * 60 + 60,
{
    assert((s % 86400) % 3600 == s % 3600) by (nonlinear_arith);
    assert(s == (s / 86400) * 86400 + s % 86400) by (nonlinear_arith);
    assert(s % 86400 == ((s % 86400) / 3600) * 3600 + (s % 86400) % 3600) by (nonlinear_arith);
    assert(s % 3600 == ((s % 3600) / 60) * 60 + (s % 3600) % 60) by (nonlinear_arith);
}

/// The text for `d` days, `h` hours and `m` minutes, leaving out leading zero
/// parts: `3d 7h 41m`, `7h 41m`, `41m`.
pub open spec fn dhm_text(d: nat, h: nat, m: nat) -> Seq<char> {
    if d > 0 {
        decimal(d) + seq!['d', ' '] + decimal(h) + seq!['h', ' '] + decimal(m) + seq!['m']
    } else if h > 0 {
        decimal(h) + seq!['h', ' '] + decimal(m) + seq!['m']
    } else {
        decimal(m) + seq!['m']
    }
}

/// The uptime text shows days, hours (under 24) and minutes (under 60) that
/// account for the whole uptime but its last partial minute.
pub proof fn lemma_uptime_text_accounts(s: nat) -> (dhm: (nat, nat, nat))
    ensures
        dhm.1 < 24,
        dhm.2 < 60,
        dhm.0 * 86400 + dhm.1 * 3600 + dhm.2 * 60 <= s,
        s < dhm.0 * 86400 + dhm.1 * 3600 + dhm.2 * 60 + 60,
        uptime_text(s) == dhm_text(dhm.0, dhm.1, dhm.2),
{
    lemma_uptime_parts(s);
    (s / 86400, (s % 86400) / 3600, (s % 3600) / 60)
}

/// An uptime in seconds as days, hours and minutes, leaving out leading zero parts.
pub fn fmt_uptime(s: u64) -> (r: String)
    ensures
        r@ == uptime_text(s as nat),
{
    let d = s / 86400;
    let h = (s % 86400) / 3600;
    let m = (s % 3600) / 60;
    let mut r = String::new();
    if d > 0 {
        push_decimal(&mut r, d);
        push_char(&mut r, 'd');
        push_char(&mut r, ' ');
    }
    if d > 0 || h > 0 {
        push_decimal(&mut r, h);
        push_char(&mut r, 'h');
        push_char(&mut r, ' ');
    }
    push_decimal(&mut r, m);
    push_char(&mut r, 'm');
    assert(r@ =~= uptime_text(s as nat));
    r
}

} // verus!
