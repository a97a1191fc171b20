//! Human-readable progress text: media timestamps, byte counts and the pulse of an
//! indeterminate progress bar.
use vstd::prelude::*;
use crate::text::{decimal, decimal_u128, digit, digit_char, extend_chars, int_padded, int_padded_i64, string_of};

verus! {

/// Characters in a progress bar.
pub const BAR_WIDTH: usize = 20;

/// Characters in the moving pulse.
pub const PULSE_WIDTH: usize = 4;

/// `ms` (negative counts as zero) as `mm:ss`, or `hh:mm:ss` from one hour on; each field at
/// least two digits.
pub open spec fn spec_timestamp(ms: i64) -> Seq<char> {
    let total = if ms >= 0 { ms as int / 1000 } else { 0 };
    let hours = total / 3600;
    let minutes = (total % 3600) / 60;
    let seconds = total % 60;
    if hours > 0 {
        int_padded(hours, 2) + seq![':'] + int_padded(minutes, 2) + seq![':'] + int_padded(seconds, 2)
    } else {
        int_padded(minutes, 2) + seq![':'] + int_padded(seconds, 2)
    }
}

/// A media position in milliseconds as a clock reading.
pub fn timestamp(milliseconds: i64) -> (out: String)
    ensures
        out@ == spec_timestamp(milliseconds),
{
    let total: i64 = if milliseconds >= 0 { milliseconds / 1000 } else { 0 };
    let hours = total / 3600;
    let minutes = (total % 3600) / 60;
    let seconds = total % 60;
    let mut out: Vec<char> = Vec::new();
    if hours > 0 {
        let h = int_padded_i64(hours, 2);
        extend_chars(&mut out, &h);
        out.push(':');
    }
    let m = int_padded_i64(minutes, 2);
    extend_chars(&mut out, &m);
    out.push(':');
    let s = int_padded_i64(seconds, 2);
    extend_chars(&mut out, &s);
    string_of(&out)
}

/// The spacing between neighbouring `f64` values around `n`: one below 2^53, doubling with
/// each binary order of magnitude above.
pub open spec fn ulp(n: nat) -> nat
    decreases n,
{
    if n < 0x20_0000_0000_0000 { 1 } else { 2 * ulp(n / 2) }
}

/// `a / d` rounded to the nearest integer, ties to even.
pub open spec fn round_half_even(a: nat, d: nat) -> nat
    recommends
        d > 0,
{
    let q = a / d;
    let r = a % d;
    if 2 * r > d || (2 * r == d && q % 2 == 1) { q + 1 } else { q }
}

/// `n` as the nearest `f64` (ties to even), as `n as f64` converts it.
pub open spec fn f64_value(n: nat) -> nat {
    round_half_even(n, ulp(n)) * ulp(n)
}

/// `v / 2^k` written with one decimal, rounded as `{:.1}` rounds an exact binary fraction.
pub open spec fn one_decimal(v: nat, k: nat) -> Seq<char> {
    let t = round_half_even(10 * v, vstd::arithmetic::power2::pow2(k));
    decimal(t / 10) + seq!['.', digit_char(t % 10)]
}

/// A byte count in binary units with one decimal (`B` as a whole number), from the count
/// converted to `f64`.
pub open spec fn spec_bytes(n: u64) -> Seq<char> {
    let v = f64_value(n as nat);
    if v >= 0x4000_0000 {
        one_decimal(v, 30) + " GiB"@
    } else if v >= 0x10_0000 {
        one_decimal(v, 20) + " MiB"@
    } else if v >= 0x400 {
        one_decimal(v, 10) + " KiB"@
    } else {
        decimal(v) + " B"@
    }
}

proof fn lemma_ulp_small(n: nat)
    requires
        n < 0x20_0000_0000_0000,
    ensures
        ulp(n) == 1,
{
}

/// `n` converted to the nearest `f64`, as an exact integer.
fn f64_value_exec(n: u64) -> (v: u128)
    ensures
        v == f64_value(n as nat),
        v <= 0x2_0000_0000_0000_0000,
{
    let mut m: u64 = n;
    let mut u: u128 = 1;
    while m >= 0x20_0000_0000_0000
        invariant
            u >= 1,
            m == n as nat / u as nat,
            ulp(n as nat) == u * ulp(m as nat),
            u * (m as int) <= n,
            u == 1 || m >= 1,
        decreases m,
    {
        proof {
            vstd::arithmetic::div_mod::lemma_div_denominator(n as int, u as int, 2);
            assert(ulp(m as nat) == 2 * ulp((m / 2) as nat));
            assert(u * ulp(m as nat) == (u * 2) * ulp((m / 2) as nat)) by (nonlinear_arith)
                requires ulp(m as nat) == 2 * ulp((m / 2) as nat);
            assert((u * 2) * ((m / 2) as int) <= u * (m as int)) by (nonlinear_arith)
                requires u >= 1;
            assert(u * 2 <= 0x1_0000_0000_0000_0000) by (nonlinear_arith)
                requires u * (m as int) <= n, m >= 0x20_0000_0000_0000, n < 0x1_0000_0000_0000_0000, u >= 1;
        }
        m = m / 2;
        u = u * 2;
    }
    proof {
        lemma_ulp_small(m as nat);
        assert(u <= n + 1) by (nonlinear_arith)
            requires u * (m as int) <= n, u == 1 || m >= 1, u >= 1;
    }
    let q: u128 = (n as u128) / u;
    let r: u128 = (n as u128) % u;
    proof {
        assert(q * u <= n) by (nonlinear_arith)
            requires q == n as nat / u as nat, u >= 1;
        assert(q + 1 <= n + 1) by (nonlinear_arith)
            requires q == n as nat / u as nat, u >= 1;
    }
    let rounded: u128 = if 2 * r > u || (2 * r == u && q % 2 == 1) { q + 1 } else { q };
    proof {
        assert(rounded * u <= n + u) by (nonlinear_arith)
            requires rounded <= q + 1, q * u <= n;
    }
    rounded * u
}

proof fn lemma_pow2_values()
    ensures
        vstd::arithmetic::power2::pow2(10) == 0x400,
        vstd::arithmetic::power2::pow2(20) == 0x10_0000,
        vstd::arithmetic::power2::pow2(30) == 0x4000_0000,
{
    vstd::arithmetic::power2::lemma2_to64();
}

/// `v / 2^k` with one decimal.
fn one_decimal_exec(v: u128, k: u32, d: u128) -> (out: Vec<char>)
    requires
        v <= 0x2_0000_0000_0000_0000,
        d == vstd::arithmetic::power2::pow2(k as nat),
        1 <= d <= 0x4000_0000,
    ensures
        out@ == one_decimal(v as nat, k as nat),
{
    let a: u128 = 10 * v;
    let q: u128 = a / d;
    let r: u128 = a % d;
    proof {
        assert(q <= a) by (nonlinear_arith)
            requires q == a / d, d >= 1, a >= 0;
    }
    let t: u128 = if 2 * r > d || (2 * r == d && q % 2 == 1) { q + 1 } else { q };
    let mut out = decimal_u128(t / 10);
    out.push('.');
    out.push(digit((t % 10) as u64));
    out
}

/// A byte count in binary units (`512 B`, `1.5 KiB`, `2.0 MiB`).
pub fn bytes(count: u64) -> (out: String)
    ensures
        out@ == spec_bytes(count),
{
    let v = f64_value_exec(count);
    proof {
        lemma_pow2_values();
    }
    let mut text: Vec<char> = if v >= 0x4000_0000 {
        let mut t = one_decimal_exec(v, 30, 0x4000_0000);
        crate::text::extend_str(&mut t, " GiB");
        t
    } else if v >= 0x10_0000 {
        let mut t = one_decimal_exec(v, 20, 0x10_0000);
        crate::text::extend_str(&mut t, " MiB");
        t
    } else if v >= 0x400 {
        let mut t = one_decimal_exec(v, 10, 0x400);
        crate::text::extend_str(&mut t, " KiB");
        t
    } else {
        let mut t = decimal_u128(v);
        crate::text::extend_str(&mut t, " B");
        t
    };
    string_of(&text)
}

/// Where the pulse starts in `frame`: it travels right, then back left, and repeats.
pub open spec fn pulse_start(frame: usize) -> int {
    let travel = BAR_WIDTH - PULSE_WIDTH;
    let offset = frame as int % (2 * travel);
    if offset <= travel { offset } else { 2 * travel - offset }
}

/// The bar for `frame`: `PULSE_WIDTH` full blocks from `pulse_start`, light shade elsewhere.
pub open spec fn spec_pulse(frame: usize) -> Seq<char> {
    Seq::new(BAR_WIDTH as nat, |i: int| if pulse_start(frame) <= i < pulse_start(frame) + PULSE_WIDTH { '█' } else { '░' })
}

/// The frame of the bouncing indeterminate progress bar.
pub fn pulse(frame: usize) -> (out: String)
    ensures
        out@ == spec_pulse(frame),
{
    let travel = BAR_WIDTH - PULSE_WIDTH;
    let cycle = travel * 2;
    let offset = frame % cycle;
    let start = if offset <= travel { offset } else { cycle - offset };
    let mut chars: Vec<char> = Vec::new();
    let mut index: usize = 0;
    while index < BAR_WIDTH
        invariant
            index <= BAR_WIDTH,
            start == pulse_start(frame),
            chars@ == spec_pulse(frame).subrange(0, index as int),
        decreases BAR_WIDTH - index,
    {
        let c = if start <= index && index < start + PULSE_WIDTH { '█' } else { '░' };
        chars.push(c);
        index = index + 1;
    }
    assert(spec_pulse(frame).subrange(0, BAR_WIDTH as int) =~= spec_pulse(frame));
    string_of(&chars)
}

/// The pulse always lies wholly inside the bar, and the animation repeats every
/// `2 * (BAR_WIDTH - PULSE_WIDTH)` frames.
pub proof fn law_pulse_fits_and_repeats(frame: usize)
    requires
        frame + 2 * (BAR_WIDTH - PULSE_WIDTH) <= usize::MAX,
    ensures
        0 <= pulse_start(frame) && pulse_start(frame) + PULSE_WIDTH <= BAR_WIDTH,
        spec_pulse(frame).len() == BAR_WIDTH,
        spec_pulse((frame + 2 * (BAR_WIDTH - PULSE_WIDTH)) as usize) == spec_pulse(frame),
{
    let cycle = 2 * (BAR_WIDTH - PULSE_WIDTH) as int;
    vstd::arithmetic::div_mod::lemma_mod_add_multiples_vanish(frame as int, cycle);
    assert(spec_pulse((frame + 2 * (BAR_WIDTH - PULSE_WIDTH)) as usize) =~= spec_pulse(frame));
}

} // verus!
