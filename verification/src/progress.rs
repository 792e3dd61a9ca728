//! Download progress messages for the job UI.

use vstd::prelude::*;

use crate::decimal::{decimal_digits, digit_char, push_decimal};
use crate::text::{push_str_chars, string_from_chars};

verus! {

/// Bytes in one GiB.
pub open spec fn gib() -> nat {
    1073741824
}

/// `n / d` rounded to the nearest integer, ties to even.
pub open spec fn round_half_even_div(n: nat, d: nat) -> nat
    recommends
        d > 0,
{
    let q = n / d;
    let r = n % d;
    if 2 * r > d || (2 * r == d && q % 2 == 1) {
        q + 1
    } else {
        q
    }
}

/// Number of low bits a `u64` loses when converted to `f64` (53-bit significand).
pub open spec fn f64_dropped_bits(x: nat) -> nat
    decreases x,
{
    if x < 9007199254740992 {
        0
    } else {
        1 + f64_dropped_bits(x / 2)
    }
}

/// Two to the power `e`.
pub open spec fn two_pow(e: nat) -> nat
    decreases e,
{
    if e == 0 {
        1
    } else {
        2 * two_pow((e - 1) as nat)
    }
}

/// The value `x as f64` takes: `x` rounded to 53 significant bits, ties to even.
pub open spec fn f64_value(x: nat) -> nat {
    let p = two_pow(f64_dropped_bits(x));
    round_half_even_div(x, p) * p
}

/// Tenths of a GiB shown for `bytes` by `{:.1}` of `bytes as f64 / 2^30`: the exact
/// binary value rounded to one decimal, ties to even.
pub open spec fn gib_tenths(bytes: nat) -> nat {
    round_half_even_div(f64_value(bytes) * 10, gib())
}

/// The text `{:.1}` gives for a GiB amount.
pub open spec fn gib_text(bytes: nat) -> Seq<char> {
    let t = gib_tenths(bytes);
    decimal_digits(t / 10) + seq!['.', digit_char((t % 10) as int)]
}

/// The progress message for a shard download.
pub open spec fn spec_download_progress(label: Seq<char>, downloaded: nat, total: Option<nat>) -> Seq<
    char,
> {
    match total {
        Some(t) => "downloading shard "@ + label + " ("@ + gib_text(downloaded) + " / "@
            + gib_text(t) + " GiB)"@,
        None => "downloading shard "@ + label + " ("@ + gib_text(downloaded) + " GiB so far)"@,
    }
}

fn div_round_half_even(n: u128, d: u128) -> (r: u128)
    requires
        d > 0,
        n / d < u128::MAX,
    ensures
        r == round_half_even_div(n as nat, d as nat),
{
    let q = n / d;
    let rem = n % d;
    if rem > d - rem || (rem == d - rem && q % 2 == 1) {
        q + 1
    } else {
        q
    }
}

fn f64_value_exec(x: u64) -> (v: u128)
    ensures
        v == f64_value(x as nat),
        v <= 2 * (x as nat) + 1,
{
    let mut m: u64 = x;
    let mut p: u128 = 1;
    let ghost mut e: nat = 0;
    while m >= 9007199254740992u64
        invariant
            p == two_pow(e),
            m as nat == (x as nat) / (p as nat),
            f64_dropped_bits(x as nat) == e + f64_dropped_bits(m as nat),
            1 <= p <= x as nat + 1,
            m as nat * p <= x,
        decreases m,
    {
        proof {
            vstd::arithmetic::div_mod::lemma_div_denominator(x as int, p as int, 2);
            assert(p * 2 == 2 * p);
            assert(2 * p <= x as nat + 1) by (nonlinear_arith)
                requires
                    m as nat * p <= x,
                    m >= 2,
                    p >= 1,
            ;
            assert((m / 2) as nat * (2 * p) <= x) by (nonlinear_arith)
                requires
                    m as nat * p <= x,
                    p >= 1,
            ;
        }
        m = m / 2;
        p = p * 2;
        proof {
            e = e + 1;
        }
    }
    proof {
        vstd::arithmetic::div_mod::lemma_fundamental_div_mod(x as int, p as int);
    }
    let r = div_round_half_even(x as u128, p);
    assert(r * p <= 2 * (x as nat) + 1) by (nonlinear_arith)
        requires
            r <= (x as nat) / (p as nat) + 1,
            p * ((x as nat) / (p as nat)) <= x,
            1 <= p <= x as nat + 1,
    ;
    r * p
}

/// Tenths of a GiB, rounded as `{:.1}` rounds the `f64` quotient.
pub fn gib_tenths_exec(bytes: u64) -> (t: u64)
    ensures
        t == gib_tenths(bytes as nat),
{
    let v = f64_value_exec(bytes);
    let t = div_round_half_even(v * 10, 1073741824);
    assert(t <= 400000000000);
    t as u64
}

fn push_gib(out: &mut Vec<char>, bytes: u64)
    ensures
        final(out)@ == old(out)@ + gib_text(bytes as nat),
{
    let t = gib_tenths_exec(bytes);
    push_decimal(out, t / 10);
    out.push('.');
    let d: u8 = (t % 10) as u8;
    out.push((48u8 + d) as char);
    assert(final(out)@ =~= old(out)@ + gib_text(bytes as nat)) by {
        assert(decimal_digits((t / 10) as nat) + seq!['.', digit_char((t % 10) as int)] == gib_text(bytes as nat));
    }
}

/// Formats a shard download progress message for the job UI, in GiB to one decimal.
pub fn format_download_progress(label: &str, downloaded: u64, total: Option<u64>) -> (s: String)
    ensures
        s@ == spec_download_progress(
            label@,
            downloaded as nat,
            match total {
                Some(t) => Some(t as nat),
                None => None,
            },
        ),
{
    let mut out: Vec<char> = Vec::new();
    push_str_chars(&mut out, "downloading shard ");
    push_str_chars(&mut out, label);
    push_str_chars(&mut out, " (");
    push_gib(&mut out, downloaded);
    match total {
        Some(t) => {
            push_str_chars(&mut out, " / ");
            push_gib(&mut out, t);
            push_str_chars(&mut out, " GiB)");
        },
        None => {
            push_str_chars(&mut out, " GiB so far)");
        },
    }
    string_from_chars(out.as_slice())
}

} // verus!
