//! Byte-count formatting and snapshot records.
use crate::clock::{current_utc_timestamp, timestamp_text, ClockReading};
use crate::text::{decimal, padded, push_char, push_decimal, push_padded};
use vstd::arithmetic::power2::{lemma2_to64, lemma_pow2_unfold, pow2};
use vstd::prelude::*;

verus! {

pub const KB: u64 = 1024;

pub const MB: u64 = 1048576;

pub const GB: u64 = 1073741824;

/// 2^53: every integer below it is exactly an `f64`.
pub const F64_EXACT: u128 = 9007199254740992;

/// One speed/volume record stamped with the UTC time it was made.
pub struct AggregatedData {
    pub timestamp: String,
    pub adapter_name: String,
    pub download_speed: u64,
    pub upload_speed: u64,
    pub total_download: u64,
    pub total_upload: u64,
}

/// Number of low bits an integer loses when it is converted to `f64`
/// (zero below 2^53; one more for each doubling above).
pub open spec fn f64_dropped_bits(b: nat) -> nat
    decreases b,
{
    if b < F64_EXACT {
        0
    } else {
        1 + f64_dropped_bits(b / 2)
    }
}

/// `n / d` rounded to the nearest integer, ties to the even neighbour.
pub open spec fn div_round_half_even(n: nat, d: nat) -> nat {
    let q = n / d;
    let r = n % d;
    if r * 2 > d || (r * 2 == d && q % 2 == 1) {
        q + 1
    } else {
        q
    }
}

/// The value of `b as f64`: `b` rounded to 53 significant bits, ties to even.
pub open spec fn f64_value(b: nat) -> nat {
    let p = pow2(f64_dropped_bits(b));
    div_round_half_even(b, p) * p
}

/// `{:.2}` applied to `v / unit`: the quotient rounded to two decimals (ties to even),
/// then the integer part, a point and two digits.
pub open spec fn two_decimals(v: nat, unit: nat) -> Seq<char> {
    let h = div_round_half_even(v * 100, unit);
    decimal(h / 100) + seq!['.'] + padded(h % 100, 2)
}

/// What `format_bytes` renders for `b` bytes.
pub open spec fn format_bytes_text(b: nat) -> Seq<char> {
    if b >= GB {
        two_decimals(f64_value(b), GB as nat) + seq![' ', 'G', 'B']
    } else if b >= MB {
        two_decimals(f64_value(b), MB as nat) + seq![' ', 'M', 'B']
    } else if b >= KB {
        two_decimals(f64_value(b), KB as nat) + seq![' ', 'K', 'B']
    } else {
        decimal(b) + seq![' ', 'B']
    }
}

fn round_half_even(n: u128, d: u128) -> (r: u128)
    requires
        0 < d <= 18446744073709551616u128,
        n <= 1267650600228229401496703205376u128,
    ensures
        r == div_round_half_even(n as nat, d as nat),
        r <= n as nat / d as nat + 1,
{
    let q = n / d;
    let rem = n % d;
    proof {
        assert(q <= n) by (nonlinear_arith)
            requires
                q == n / d,
                d > 0,
        ;
    }
    if rem * 2 > d || (rem * 2 == d && q % 2 == 1) {
        q + 1
    } else {
        q
    }
}

/// `b as f64`, as an exact integer.
fn f64_value_of(b: u64) -> (r: u128)
    ensures
        r == f64_value(b as nat),
        r <= 36893488147419103232u128,
{
    let mut p: u128 = 1;
    let mut k: u64 = 0;
    proof {
        lemma2_to64();
        assert(b as nat / 1 == b as nat);
    }
    while (b as u128) / p >= F64_EXACT
        invariant
            p == pow2(k as nat),
            1 <= p < 4096,
            k < p,
            f64_dropped_bits(b as nat) == k + f64_dropped_bits(b as nat / p as nat),
        decreases 4096 - p,
    {
        proof {
            let bp = b as nat / p as nat;
            vstd::arithmetic::div_mod::lemma_div_denominator(b as int, p as int, 2);
            assert(bp / 2 == b as nat / (p as nat * 2));
            assert(p * F64_EXACT <= b) by (nonlinear_arith)
                requires
                    (b as nat) / (p as nat) >= F64_EXACT,
                    p > 0,
            ;
            assert(p * 2 < 4096) by (nonlinear_arith)
                requires
                    p * F64_EXACT <= b,
                    b < 18446744073709551616u128,
                    F64_EXACT == 9007199254740992u128,
            ;
            lemma_pow2_unfold((k + 1) as nat);
        }
        p = p * 2;
        k = k + 1;
    }
    proof {
        assert(f64_dropped_bits(b as nat / p as nat) == 0);
    }
    let q = round_half_even(b as u128, p);
    proof {
        let bp: nat = b as nat / p as nat;
        assert(bp * p <= b) by (nonlinear_arith)
            requires
                bp == b as nat / p as nat,
                p > 0,
        ;
        assert(q * p <= 36893488147419103232u128) by (nonlinear_arith)
            requires
                q <= bp + 1,
                p >= 1,
                p < 4096,
                b < 18446744073709551616u128,
                bp * p <= b,
        ;
    }
    q * p
}

/// Appends `v / unit` with two decimals.
fn push_two_decimals(out: &mut String, v: u128, unit: u128)
    requires
        v <= 36893488147419103232u128,
        1024 <= unit <= 18446744073709551616u128,
    ensures
        final(out)@ == old(out)@ + two_decimals(v as nat, unit as nat),
{
    let h = round_half_even(v * 100, unit);
    proof {
        let n: nat = (v * 100) as nat;
        let u: nat = unit as nat;
        assert(n / u <= n / 1024) by (nonlinear_arith)
            requires
                u >= 1024,
        ;
        vstd::arithmetic::div_mod::lemma_div_is_ordered(n as int, 3689348814741910323200int, 1024);
        assert(h < 18446744073709551616u128);
    }
    push_decimal(out, (h / 100) as u64);
    push_char(out, '.');
    push_padded(out, (h % 100) as u64, 2);
    assert(out@ =~= old(out)@ + two_decimals(v as nat, unit as nat));
}

/// Renders a byte count with a binary unit: `"512 B"`, `"1.50 KB"`, `"2.00 MB"`,
/// `"1.25 GB"`. Counts of 1024 and more are shown with two decimals, rounded as
/// `{:.2}` rounds the `f64` quotient.
pub fn format_bytes(bytes: u64) -> (r: String)
    ensures
        r@ == format_bytes_text(bytes as nat),
{
    let mut r = String::new();
    if bytes >= GB {
        let v = f64_value_of(bytes);
        push_two_decimals(&mut r, v, GB as u128);
        push_char(&mut r, ' ');
        push_char(&mut r, 'G');
        push_char(&mut r, 'B');
    } else if bytes >= MB {
        let v = f64_value_of(bytes);
        push_two_decimals(&mut r, v, MB as u128);
        push_char(&mut r, ' ');
        push_char(&mut r, 'M');
        push_char(&mut r, 'B');
    } else if bytes >= KB {
        let v = f64_value_of(bytes);
        push_two_decimals(&mut r, v, KB as u128);
        push_char(&mut r, ' ');
        push_char(&mut r, 'K');
        push_char(&mut r, 'B');
    } else {
        push_decimal(&mut r, bytes);
        push_char(&mut r, ' ');
        push_char(&mut r, 'B');
    }
    assert(r@ =~= format_bytes_text(bytes as nat));
    r
}

/// A transfer rate: the formatted byte count followed by `/s`.
pub fn format_speed(bytes_per_sec: u64) -> (r: String)
    ensures
        r@ == format_bytes_text(bytes_per_sec as nat) + seq!['/', 's'],
{
    let mut r = format_bytes(bytes_per_sec);
    push_char(&mut r, '/');
    push_char(&mut r, 's');
    assert(r@ =~= format_bytes_text(bytes_per_sec as nat) + seq!['/', 's']);
    r
}

/// Builds a record of the given speeds and totals, stamped with the current UTC
/// time as `%Y-%m-%d %H:%M:%S`.
pub fn aggregate_snapshot(
    download_speed: u64,
    upload_speed: u64,
    total_download: u64,
    total_upload: u64,
    adapter_name: &str,
) -> (r: AggregatedData)
    ensures
        exists|c: ClockReading| c.wf() && r.timestamp@ == timestamp_text(c),
        r.adapter_name@ == adapter_name@,
        r.download_speed == download_speed,
        r.upload_speed == upload_speed,
        r.total_download == total_download,
        r.total_upload == total_upload,
{
    let (clock, timestamp) = current_utc_timestamp();
    AggregatedData {
        timestamp,
        adapter_name: String::from_str(adapter_name),
        upload_speed,
        download_speed,
        total_upload,
        total_download,
    }
}

} // verus!
