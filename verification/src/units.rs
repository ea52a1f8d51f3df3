use vstd::prelude::*;
use vstd::arithmetic::power2::pow2;

use crate::text::{decimal, digit_char, push_char, push_decimal};

verus! {

/// `n / d` rounded to the nearest integer, ties going to the even neighbour.
pub open spec fn div_round_half_even(n: nat, d: nat) -> nat
    recommends
        d > 0,
{
    let q = n / d;
    let r = n % d;
    if 2 * r > d || (2 * r == d && q % 2 == 1) {
        q + 1
    } else {
        q
    }
}

/// How many low bits of `n` do not fit in the 53-bit significand of a double.
pub open spec fn excess_bits(n: nat) -> nat
    decreases n,
{
    if n < pow2(53) {
        0
    } else {
        proof {
            vstd::arithmetic::power2::lemma_pow2_pos(53);
        }
        1 + excess_bits(n / 2)
    }
}

/// The double nearest to `n` (ties to even), as an integer.
pub open spec fn nearest_double(n: nat) -> nat {
    div_round_half_even(n, pow2(excess_bits(n))) * pow2(excess_bits(n))
}

/// A number of tenths written with one decimal place, such as `1.5`.
pub open spec fn one_decimal(tenths: nat) -> Seq<char> {
    decimal(tenths / 10).push('.').push(digit_char(tenths % 10))
}

/// A byte count for people: bytes below 1024, else kilobytes below 1024 kB,
/// else megabytes, with one decimal place rounded half to even.
pub open spec fn size_text(bytes: nat) -> Seq<char> {
    if bytes < 1024 {
        decimal(bytes) + seq![' ', 'B']
    } else if bytes < 1024 * 1024 {
        one_decimal(div_round_half_even(bytes * 10, 1024)) + seq![' ', 'k', 'B']
    } else {
        one_decimal(div_round_half_even(nearest_double(bytes) * 10, 1024 * 1024)) + seq![
            ' ',
            'M',
            'B',
        ]
    }
}

proof fn lemma_pow2_values()
    ensures
        pow2(10) == 1024,
        pow2(20) == 1048576,
        pow2(53) == 0x20_0000_0000_0000,
        pow2(64) == 0x1_0000_0000_0000_0000,
{
    vstd::arithmetic::power2::lemma2_to64();
    vstd::arithmetic::power2::lemma2_to64_rest();
}

fn round_half_even_div(n: u128, d: u128) -> (r: u128)
    requires
        d > 0,
        n / d < u128::MAX,
    ensures
        r == div_round_half_even(n as nat, d as nat),
{
    let q = n / d;
    let rem = n % d;
    if rem > d - rem || (rem == d - rem && q % 2 == 1) {
        q + 1
    } else {
        q
    }
}

proof fn lemma_div_times_le(n: nat, d: nat)
    requires
        d > 0,
    ensures
        (n / d) * d <= n,
        n < (n / d) * d + d,
{
    vstd::arithmetic::div_mod::lemma_fundamental_div_mod(n as int, d as int);
    vstd::arithmetic::div_mod::lemma_mod_pos_bound(n as int, d as int);
    let q = n / d;
    let r = n % d;
    assert(q * d == d * q) by (nonlinear_arith);
}

proof fn lemma_halve(n: nat, s: nat)
    ensures
        (n / pow2(s)) / 2 == n / pow2(s + 1),
        pow2(s + 1) == pow2(s) * 2,
        pow2(s) > 0,
{
    vstd::arithmetic::power2::lemma_pow2_pos(s);
    vstd::arithmetic::power2::lemma_pow2_unfold(s + 1);
    vstd::arithmetic::div_mod::lemma_div_denominator(n as int, pow2(s) as int, 2);
    assert(pow2(s) * 2 == 2 * pow2(s)) by (nonlinear_arith);
}

/// The value that converting `n` to a double yields, as an integer.
fn to_nearest_double(n: u64) -> (r: u128)
    ensures
        r == nearest_double(n as nat),
        r <= 2 * (n as nat) + 1,
{
    proof {
        lemma_pow2_values();
        vstd::arithmetic::power2::lemma2_to64();
    }
    let mut m: u64 = n;
    let mut p: u128 = 1;
    let ghost mut s: nat = 0;
    while m >= 0x20_0000_0000_0000
        invariant
            p == pow2(s),
            p > 0,
            m as nat == n as nat / pow2(s),
            excess_bits(n as nat) == s + excess_bits(m as nat),
            pow2(53) == 0x20_0000_0000_0000,
            m as nat * p <= n,
            m == 0 ==> p == 1,
        decreases m,
    {
        proof {
            lemma_halve(n as nat, s);
            lemma_div_times_le(n as nat, pow2(s + 1));
            assert(m as nat * p >= p) by (nonlinear_arith)
                requires
                    m >= 1,
                    p > 0,
            ;
        }
        m = m / 2;
        p = p * 2;
        proof {
            s = s + 1;
        }
    }
    proof {
        lemma_div_times_le(n as nat, p as nat);
    }
    let q = round_half_even_div(n as u128, p);
    proof {
        assert(q <= m as nat + 1);
        assert(q * p <= m as nat * p + p) by (nonlinear_arith)
            requires
                q <= m as nat + 1,
                p > 0,
        ;
        if m == 0 {
            assert(p == 1);
        } else {
            assert(m as nat * p >= p) by (nonlinear_arith)
                requires
                    m >= 1,
                    p > 0,
            ;
        }
    }
    q * p
}

/// One decimal place of `numerator / denominator`, rounded half to even.
fn push_one_decimal(out: &mut String, numerator: u128, denominator: u128)
    requires
        denominator > 0,
        numerator <= u128::MAX / 10,
    ensures
        final(out)@ == old(out)@ + one_decimal(
            div_round_half_even(numerator as nat * 10, denominator as nat),
        ),
{
    let tenths = round_half_even_div(numerator * 10, denominator);
    push_decimal(out, tenths / 10);
    push_char(out, '.');
    let d: u8 = (tenths % 10) as u8;
    push_char(out, (d + 48) as char);
}

/// A byte count in human units, as printed beside a response.
pub fn format_size(bytes: usize) -> (r: String)
    ensures
        r@ == size_text(bytes as nat),
{
    let mut out = String::new();
    if bytes < 1024 {
        push_decimal(&mut out, bytes as u128);
        push_char(&mut out, ' ');
        push_char(&mut out, 'B');
    } else if bytes < 1024 * 1024 {
        push_one_decimal(&mut out, bytes as u128, 1024);
        push_char(&mut out, ' ');
        push_char(&mut out, 'k');
        push_char(&mut out, 'B');
    } else {
        let value = to_nearest_double(bytes as u64);
        push_one_decimal(&mut out, value, 1024 * 1024);
        push_char(&mut out, ' ');
        push_char(&mut out, 'M');
        push_char(&mut out, 'B');
    }
    assert(out@ =~= size_text(bytes as nat));
    out
}

/// What `{:.1}` prints for the duration of `secs` seconds and `nanos`
/// nanoseconds taken as a double (`Duration::as_secs_f64`).
pub uninterp spec fn seconds_with_one_decimal(secs: u64, nanos: u32) -> Seq<char>;

/// Formats `Duration::new(secs, nanos).as_secs_f64()` with one decimal place.
/// Trusted: the text is taken to be a function of `secs` and `nanos` alone,
/// named `seconds_with_one_decimal`; nothing more is claimed of it.
#[verifier::external_body]
fn seconds_one_decimal(secs: u64, nanos: u32) -> (r: String)
    requires
        nanos < 1_000_000_000,
    ensures
        r@ == seconds_with_one_decimal(secs, nanos),
{
    format!("{:.1}", std::time::Duration::new(secs, nanos).as_secs_f64())
}

/// The whole seconds of a duration (`Duration::as_secs`).
pub uninterp spec fn duration_secs(d: core::time::Duration) -> u64;

/// The fractional part of a duration in nanoseconds (`Duration::subsec_nanos`).
pub uninterp spec fn duration_nanos(d: core::time::Duration) -> u32;

/// `Duration::as_secs`: the whole seconds of a duration, named
/// `duration_secs`.
pub assume_specification[ core::time::Duration::as_secs ](d: &core::time::Duration) -> (r: u64)
    ensures
        r == duration_secs(*d),
;

/// `Duration::subsec_nanos`: the fractional part in nanoseconds, named
/// `duration_nanos`; always below one second, as its documentation states.
pub assume_specification[ core::time::Duration::subsec_nanos ](d: &core::time::Duration) -> (r: u32)
    ensures
        r == duration_nanos(*d),
        r < 1_000_000_000,
;

/// The elapsed time of a request: whole milliseconds below one second, else
/// seconds with one decimal place.
pub open spec fn elapsed_text(secs: u64, nanos: u32) -> Seq<char> {
    let ms = secs * 1000 + nanos / 1_000_000;
    if ms < 1000 {
        decimal(ms as nat) + seq!['m', 's']
    } else {
        seconds_with_one_decimal(secs, nanos).push('s')
    }
}

/// Formats the duration of `secs` seconds and `nanos` nanoseconds.
pub fn format_elapsed(secs: u64, nanos: u32) -> (r: String)
    requires
        nanos < 1_000_000_000,
    ensures
        r@ == elapsed_text(secs, nanos),
{
    let ms: u128 = secs as u128 * 1000 + (nanos / 1_000_000) as u128;
    if ms < 1000 {
        let mut out = String::new();
        push_decimal(&mut out, ms);
        push_char(&mut out, 'm');
        push_char(&mut out, 's');
        assert(out@ =~= elapsed_text(secs, nanos));
        out
    } else {
        let mut out = seconds_one_decimal(secs, nanos);
        push_char(&mut out, 's');
        out
    }
}

/// Formats a duration as printed beside a response and under the spinner.
pub fn format_duration(d: std::time::Duration) -> (r: String)
    ensures
        r@ == elapsed_text(duration_secs(d), duration_nanos(d)),
{
    let secs = d.as_secs();
    let nanos = d.subsec_nanos();
    format_elapsed(secs, nanos)
}

} // verus!
