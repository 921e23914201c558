//! Sampling rates, and the decisions and identities that are derived from a SHA-256 digest.

use vstd::prelude::*;
use vstd::arithmetic::div_mod::{lemma_div_denominator, lemma_fundamental_div_mod};
use vstd::arithmetic::mul::{
    lemma_mul_inequality, lemma_mul_is_commutative, lemma_mul_strict_inequality,
};
use vstd::arithmetic::power2::{
    lemma2_to64, lemma2_to64_rest, lemma_pow2_adds, lemma_pow2_pos, lemma_pow2_strictly_increases,
    lemma_pow2_unfold, pow2,
};
use vstd::bytes::{
    spec_u64_from_le_bytes, spec_u64_to_le_bytes, u64_from_le_bytes, u64_to_le_bytes,
};
use vstd::slice::slice_subrange;
use vstd::utf8::encode_utf8;
use crate::path::option_view;
use crate::text::{concat, format_hex, hex};

verus! {

/// A number in the binary32 format of IEEE 754, by its bits.
#[derive(Clone, Copy, PartialEq, Eq, Structural, Debug)]
pub struct SampleRate {
    pub bits: u32,
}

/// The bits of the number one.
pub const ONE_BITS: u32 = 0x3f80_0000;

/// The bits of the number zero with the sign set.
pub const NEGATIVE_ZERO_BITS: u32 = 0x8000_0000;

/// The bits of infinity.
pub const INFINITY_BITS: u32 = 0x7f80_0000;

/// The bits of negative infinity.
pub const NEGATIVE_INFINITY_BITS: u32 = 0xff80_0000;

impl SampleRate {
    /// The rate brought into the range from zero to one. What is not a number stays as it is.
    pub open spec fn clamped(self) -> SampleRate {
        if NEGATIVE_ZERO_BITS < self.bits <= NEGATIVE_INFINITY_BITS {
            SampleRate { bits: 0 }
        } else if ONE_BITS < self.bits <= INFINITY_BITS {
            SampleRate { bits: ONE_BITS }
        } else {
            self
        }
    }

    /// The rate brought into the range from zero to one.
    pub fn clamp(self) -> (rate: SampleRate)
        ensures
            rate == self.clamped(),
    {
        if NEGATIVE_ZERO_BITS < self.bits && self.bits <= NEGATIVE_INFINITY_BITS {
            SampleRate { bits: 0 }
        } else if ONE_BITS < self.bits && self.bits <= INFINITY_BITS {
            SampleRate { bits: ONE_BITS }
        } else {
            self
        }
    }

    /// The rate is positive and less than one.
    pub open spec fn is_fraction(self) -> bool {
        0 < self.bits < ONE_BITS
    }

    /// The significand of a fraction: the number is this times a power of two.
    pub open spec fn significand(self) -> nat {
        if self.bits < 0x80_0000 {
            self.bits as nat
        } else {
            (self.bits % 0x80_0000 + 0x80_0000) as nat
        }
    }

    /// The exponent of a fraction: the number is the significand times two to the power of this
    /// less 150.
    pub open spec fn exponent(self) -> nat {
        if self.bits < 0x80_0000 {
            1
        } else {
            (self.bits / 0x80_0000) as nat
        }
    }
}

/// The distance of neighbouring binary64 numbers where `value` lies.
pub open spec fn double_step(value: nat) -> nat
    decreases value,
{
    if value < 0x20_0000_0000_0000 {
        1
    } else {
        2 * double_step(value / 2)
    }
}

/// The binary64 number that is nearest to `value`, of two the one with the even significand.
pub open spec fn nearest_double(value: nat) -> nat {
    let step = double_step(value);
    let whole = value / step;
    let rest = value % step;
    if 2 * rest > step || 2 * rest == step && whole % 2 == 1 {
        (whole + 1) * step
    } else {
        whole * step
    }
}

/// A bucket out of `0..=u64::MAX` is sampled at the given rate.
///
/// For a fraction the bucket, as a binary64 number divided by two to the power of 64, is compared
/// with the rate. Both sides are multiplied by two to the power of 150.
pub open spec fn is_sampled(bucket: u64, rate: SampleRate) -> bool {
    let rate = rate.clamped();
    if rate.bits == ONE_BITS {
        true
    } else if rate.is_fraction() {
        nearest_double(bucket as nat) * pow2(86) < rate.significand() * pow2(rate.exponent())
    } else {
        false
    }
}

proof fn lemma_step_bounds(value: nat)
    requires
        value <= u64::MAX,
    ensures
        1 <= double_step(value) <= 0x800,
        double_step(value) > 1 ==> double_step(value) % 2 == 0,
{
    reveal_with_fuel(double_step, 13);
}

/// The binary64 number that is nearest to `value`.
fn round_to_double(value: u64) -> (rounded: u128)
    ensures
        rounded == nearest_double(value as nat),
        rounded <= 0x1_0000_0000_0000_0000,
{
    let mut step: u64 = 1;
    let mut whole: u64 = value;
    proof {
        lemma_step_bounds(value as nat);
    }
    while whole >= 0x20_0000_0000_0000
        invariant
            1 <= step <= 0x800,
            double_step(value as nat) <= 0x800,
            whole == value / step,
            step * double_step(whole as nat) == double_step(value as nat),
        decreases whole,
    {
        proof {
            lemma_div_denominator(value as int, step as int, 2);
            assert(double_step(whole as nat) == 2 * double_step((whole / 2) as nat));
            assert(step * (2 * double_step((whole / 2) as nat)) == (step * 2) * double_step(
                (whole / 2) as nat,
            )) by (nonlinear_arith);
            lemma_step_positive((whole / 2) as nat);
            assert((step * 2) * double_step((whole / 2) as nat) >= step * 2) by (nonlinear_arith)
                requires
                    double_step((whole / 2) as nat) >= 1,
                    step >= 1,
            ;
        }
        step = step * 2;
        whole = whole / 2;
    }
    proof {
        assert(step * 1 == step);
        assert(step == double_step(value as nat));
        lemma_fundamental_div_mod(value as int, step as int);
        assert(whole * step == step * (value as int / step as int)) by (nonlinear_arith)
            requires
                whole == value as int / step as int,
        ;
        assert((whole + 1) * step == whole * step + step) by (nonlinear_arith);
    }
    let rest: u64 = value % step;
    if 2 * rest > step || (2 * rest == step && whole % 2 == 1) {
        proof {
            lemma_round_up_bound(value, step, whole);
        }
        (whole as u128 + 1) * step as u128
    } else {
        whole as u128 * step as u128
    }
}

proof fn lemma_step_positive(value: nat)
    ensures
        double_step(value) >= 1,
    decreases value,
{
    if value >= 0x20_0000_0000_0000 {
        lemma_step_positive(value / 2);
    }
}

proof fn lemma_round_up_bound(value: u64, step: u64, whole: u64)
    requires
        1 <= step <= 0x800,
        step == double_step(value as nat),
        whole == value / step,
        whole < 0x20_0000_0000_0000,
    ensures
        (whole + 1) * step <= 0x1_0000_0000_0000_0000,
{
    assert((whole + 1) * step <= 0x20_0000_0000_0000 * 0x800) by (nonlinear_arith)
        requires
            whole + 1 <= 0x20_0000_0000_0000,
            step <= 0x800,
    ;
}

/// Two to the given power.
fn power_of_two(exponent: u32) -> (power: u128)
    requires
        exponent <= 100,
    ensures
        power == pow2(exponent as nat),
{
    let mut power: u128 = 1;
    let mut index: u32 = 0;
    proof {
        lemma2_to64();
    }
    while index < exponent
        invariant
            index <= exponent <= 100,
            power == pow2(index as nat),
        decreases exponent - index,
    {
        proof {
            lemma_pow2_unfold((index + 1) as nat);
            lemma_pow2_bound(index as nat);
        }
        power = power * 2;
        index += 1;
    }
    power
}

proof fn lemma_pow2_bound(exponent: nat)
    requires
        exponent <= 100,
    ensures
        pow2(exponent) <= 0x10_0000_0000_0000_0000_0000_0000,
{
    if exponent < 100 {
        lemma_pow2_strictly_increases(exponent, 100);
    }
    lemma_pow2_adds(50, 50);
    assert(pow2(50) == 0x4_0000_0000_0000) by {
        lemma2_to64_rest();
    }
    assert(0x4_0000_0000_0000 * 0x4_0000_0000_0000 == 0x10_0000_0000_0000_0000_0000_0000int)
        by (nonlinear_arith);
}

/// Whether a bucket is sampled at the given rate.
pub fn bucket_is_sampled(bucket: u64, rate: SampleRate) -> (sampled: bool)
    ensures
        sampled == is_sampled(bucket, rate),
{
    let rate = rate.clamp();
    if rate.bits == ONE_BITS {
        return true;
    }
    if rate.bits == 0 || rate.bits >= ONE_BITS {
        return false;
    }
    let (significand, exponent): (u32, u32) = if rate.bits < 0x80_0000 {
        (rate.bits, 1)
    } else {
        (rate.bits % 0x80_0000 + 0x80_0000, rate.bits / 0x80_0000)
    };
    let rounded: u128 = round_to_double(bucket);
    if exponent >= 86 {
        let power: u128 = power_of_two(exponent - 86);
        proof {
            lemma_pow2_adds(86, (exponent - 86) as nat);
            lemma_pow2_pos(86);
            lemma_pow2_bound((exponent - 86) as nat);
            lemma_pow2_small((exponent - 86) as nat);
            lemma_scaled_less(
                rounded as int,
                (significand * power) as int,
                pow2(86) as int,
            );
            assert((significand * power) * pow2(86) == significand * (pow2(86) * power))
                by (nonlinear_arith);
            assert(significand * power <= 0x100_0000 * 0x400_0000_0000) by (nonlinear_arith)
                requires
                    significand <= 0x100_0000,
                    0 <= power <= 0x400_0000_0000,
            ;
        }
        rounded < significand as u128 * power
    } else {
        let power: u128 = power_of_two(86 - exponent);
        proof {
            lemma_pow2_adds(exponent as nat, (86 - exponent) as nat);
            lemma_pow2_pos(exponent as nat);
            lemma_pow2_pos((86 - exponent) as nat);
            lemma_scaled_less(
                rounded * power,
                significand as int,
                pow2(exponent as nat) as int,
            );
            assert((rounded * power) * pow2(exponent as nat) == rounded * (pow2(exponent as nat)
                * power)) by (nonlinear_arith);
            lemma_quotient_compare(rounded as int, significand as int, power as int);
        }
        rounded <= (significand as u128 - 1) / power
    }
}

proof fn lemma_pow2_small(exponent: nat)
    requires
        exponent <= 41,
    ensures
        pow2(exponent) <= 0x400_0000_0000,
{
    lemma_pow2_strictly_increases(exponent, 42);
    lemma2_to64_rest();
}

proof fn lemma_scaled_less(left: int, right: int, scale: int)
    requires
        scale > 0,
    ensures
        left < right <==> left * scale < right * scale,
{
    if left < right {
        lemma_mul_strict_inequality(left, right, scale);
    } else {
        lemma_mul_inequality(right, left, scale);
    }
}

proof fn lemma_quotient_compare(value: int, limit: int, scale: int)
    requires
        scale > 0,
        value >= 0,
        limit >= 1,
    ensures
        value <= (limit - 1) / scale <==> value * scale < limit,
{
    let quotient = (limit - 1) / scale;
    lemma_fundamental_div_mod(limit - 1, scale);
    lemma_mul_is_commutative(scale, quotient);
    if value <= quotient {
        lemma_mul_inequality(value, quotient, scale);
    } else {
        lemma_mul_inequality(quotient + 1, value, scale);
        assert((quotient + 1) * scale == quotient * scale + scale) by (nonlinear_arith);
    }
}

/// The SHA-256 digest of some bytes.
pub uninterp spec fn sha256(bytes: Seq<u8>) -> Seq<u8>;

/// `Sha256::digest` computes the digest of some bytes, which has 32 bytes.
#[verifier::external_body]
fn sha256_digest(bytes: &[u8]) -> (digest: Vec<u8>)
    ensures
        digest@ == sha256(bytes@),
        digest@.len() == 32,
{
    <sha2::Sha256 as sha2::Digest>::digest(bytes).to_vec()
}

/// What is hashed for the sampling of the screenshots of a task.
pub open spec fn sampling_input(run_id: Seq<char>, maa_task_id: i64) -> Seq<u8> {
    encode_utf8("mxu-failure-attachment-v1:"@ + run_id) + spec_u64_to_le_bytes(maa_task_id as u64)
}

/// Whether the screenshots of a failed task are sent.
///
/// The decision depends on the run and the task alone, so it is the same wherever it is made.
pub fn should_sample_attachment(run_id: &str, maa_task_id: i64, sample_rate: SampleRate) -> (sampled:
    bool)
    ensures
        sampled == is_sampled(
            spec_u64_from_le_bytes(sha256(sampling_input(run_id@, maa_task_id)).take(8)),
            sample_rate,
        ),
{
    let rate = sample_rate.clamp();
    if rate.bits == 0 || rate.bits == NEGATIVE_ZERO_BITS {
        return false;
    }
    if rate.bits == ONE_BITS {
        return true;
    }
    let text = concat("mxu-failure-attachment-v1:", run_id);
    let mut input: Vec<u8> = Vec::new();
    input.extend_from_slice(text.as_str().as_bytes());
    let ghost front = input@;
    let id = u64_to_le_bytes(maa_task_id as u64);
    input.extend_from_slice(id.as_slice());
    assert(front =~= encode_utf8(text@));
    assert(input@ =~= sampling_input(run_id@, maa_task_id));
    let digest = sha256_digest(input.as_slice());
    let start = slice_subrange(digest.as_slice(), 0, 8);
    assert(start@ =~= digest@.take(8));
    bucket_is_sampled(u64_from_le_bytes(start), rate)
}

/// The anonymous identity of a machine whose own identity is `raw`, where it can be had.
pub open spec fn anonymous_id(raw: Option<Seq<char>>) -> Seq<char> {
    hex(sha256(encode_utf8("mxu-telemetry-v1:"@ + raw.unwrap_or("unknown-machine"@))))
}

/// The anonymous identity of a machine whose own identity is `raw`, where it can be had.
pub fn hashed_machine_id(raw: Option<String>) -> (id: String)
    ensures
        id@ == anonymous_id(option_view(raw)),
{
    let raw = match raw {
        Some(raw) => raw,
        None => "unknown-machine".to_owned(),
    };
    let salted = concat("mxu-telemetry-v1:", raw.as_str());
    let digest = sha256_digest(salted.as_str().as_bytes());
    format_hex(digest.as_slice())
}

/// At the rate zero and below nothing is sampled, and at the rate one and above everything is.
pub proof fn lemma_sampling_boundaries(bucket: u64, rate: SampleRate)
    ensures
        rate.bits == 0 || NEGATIVE_ZERO_BITS <= rate.bits <= NEGATIVE_INFINITY_BITS ==> !is_sampled(
            bucket,
            rate,
        ),
        ONE_BITS <= rate.bits <= INFINITY_BITS ==> is_sampled(bucket, rate),
        rate.clamped().clamped() == rate.clamped(),
        is_sampled(bucket, rate.clamped()) == is_sampled(bucket, rate),
{
}

proof fn lemma_fraction_grows(low: SampleRate, high: SampleRate)
    requires
        low.is_fraction(),
        high.is_fraction(),
        low.bits <= high.bits,
    ensures
        low.significand() * pow2(low.exponent()) <= high.significand() * pow2(high.exponent()),
{
    let (m, n) = (low.significand() as int, high.significand() as int);
    let (p, q) = (pow2(low.exponent()) as int, pow2(high.exponent()) as int);
    lemma_pow2_pos(low.exponent());
    lemma_pow2_pos(high.exponent());
    if low.exponent() == high.exponent() {
        assert(m <= n);
        lemma_mul_inequality(m, n, p);
    } else {
        assert(low.exponent() < high.exponent());
        lemma_pow2_unfold((low.exponent() + 1) as nat);
        if low.exponent() + 1 < high.exponent() {
            lemma_pow2_strictly_increases(low.exponent() + 1, high.exponent());
        }
        assert(2 * p <= q);
        assert(m <= 2 * n);
        assert(m * p <= n * q) by (nonlinear_arith)
            requires
                0 <= m <= 2 * n,
                0 < p,
                2 * p <= q,
        ;
    }
}

/// What is sampled at a rate is sampled at every higher rate as well.
pub proof fn lemma_sampling_monotone(bucket: u64, low: SampleRate, high: SampleRate)
    requires
        low.bits <= high.bits <= INFINITY_BITS,
    ensures
        is_sampled(bucket, low) ==> is_sampled(bucket, high),
{
    if low.clamped().is_fraction() && high.clamped().is_fraction() {
        lemma_fraction_grows(low.clamped(), high.clamped());
    }
}

} // verus!
