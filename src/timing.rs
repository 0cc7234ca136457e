//! Conversions between time and sample positions.
//!
//! Time is kept in whole microseconds. A sample rate counts interleaved
//! samples per second (both channels together), so a stereo stream at
//! 44100 frames per second has a rate of 88200.
use vstd::prelude::*;

verus! {

/// Microseconds in one second.
pub const MICROS_PER_SECOND: u64 = 1_000_000;

/// Largest even integer not above `n` (for `n >= 0`).
pub open spec fn even_floor(n: int) -> int {
    n - n % 2
}

/// Index reached after `micros` microseconds at `rate` samples per second,
/// before channel alignment: `floor(micros * rate / 10^6)`.
pub open spec fn raw_index(micros: int, rate: int) -> int {
    (micros * rate) / (MICROS_PER_SECOND as int)
}

/// The channel-aligned sample index of a time: the raw index rounded down
/// to the nearest even value, so that it always names a left-channel sample.
pub open spec fn sample_index(micros: int, rate: int) -> int {
    even_floor(raw_index(micros, rate))
}

/// Length in microseconds of `len` samples at `rate`, rounded up to the
/// next whole microsecond.
pub open spec fn duration_micros(len: int, rate: int) -> int {
    (len * (MICROS_PER_SECOND as int) + rate - 1) / rate
}

/// `10^n`.
pub open spec fn pow10(n: nat) -> nat
    decreases n,
{
    if n == 0 {
        1
    } else {
        10 * pow10((n - 1) as nat)
    }
}

/// `10^n` for `n <= 6` lies between one and a million.
pub proof fn lemma_pow10_bounds(n: nat)
    requires
        n <= 6,
    ensures
        1 <= pow10(n) <= 1_000_000,
    decreases n,
{
    reveal_with_fuel(pow10, 7);
    if n > 0 {
        lemma_pow10_bounds((n - 1) as nat);
    }
}

/// Converts a time to its channel-aligned sample index.
pub fn index_from_micros(micros: u64, rate: u64) -> (r: u128)
    ensures
        r == sample_index(micros as int, rate as int),
        r % 2 == 0,
        r <= raw_index(micros as int, rate as int),
{
    let m = micros as u128;
    let k = rate as u128;
    assert(m * k <= 0xffff_ffff_ffff_ffffu128 * 0xffff_ffff_ffff_ffffu128) by (nonlinear_arith)
        requires
            m <= 0xffff_ffff_ffff_ffffu128,
            k <= 0xffff_ffff_ffff_ffffu128,
    ;
    let index: u128 = m * k / (MICROS_PER_SECOND as u128);
    if index % 2 == 0 {
        index
    } else {
        index - 1
    }
}

/// Duration of `len` samples at `rate`, in microseconds rounded up.
pub fn duration_from_len(len: u64, rate: u64) -> (r: u64)
    requires
        rate > 0,
        len * (MICROS_PER_SECOND as int) <= u64::MAX,
    ensures
        r == duration_micros(len as int, rate as int),
{
    let total = len as u128 * (MICROS_PER_SECOND as u128) + rate as u128 - 1;
    let r = total / rate as u128;
    assert(r <= len * (MICROS_PER_SECOND as int)) by (nonlinear_arith)
        requires
            r == total as int / rate as int,
            total == len as int * (MICROS_PER_SECOND as int) + rate - 1,
            rate >= 1,
    ;
    r as u64
}

/// Truncates a time to `place` decimal places of a second (towards zero,
/// never to the nearest): `round_to_decimal(1_239_000, 2) == 1_230_000`.
pub fn round_to_decimal(micros: u128, place: u32) -> (r: u128)
    requires
        place <= 6,
    ensures
        r == micros as int - micros as int % (pow10((6 - place) as nat) as int),
{
    let mut unit: u128 = 1;
    let mut k: u32 = place;
    while k < 6
        invariant
            place <= k <= 6,
            unit == pow10((k - place) as nat),
        decreases 6 - k,
    {
        assert(pow10((k + 1 - place) as nat) == 10 * pow10((k - place) as nat));
        proof {
            lemma_pow10_bounds((k + 1 - place) as nat);
        }
        unit = unit * 10;
        k = k + 1;
    }
    proof {
        lemma_pow10_bounds((6 - place) as nat);
    }
    let q = micros / unit;
    assert(q * unit <= micros) by (nonlinear_arith)
        requires
            q == micros as int / unit as int,
            unit > 0,
    ;
    let r = q * unit;
    assert(r == micros as int - micros as int % (unit as int)) by (nonlinear_arith)
        requires
            r == q * unit,
            q == micros as int / unit as int,
            unit > 0,
    ;
    r
}

/// A computed sample index is even and never beyond the raw index, and
/// lies at most one step below it.
pub proof fn lemma_index_even_and_bounded(micros: nat, rate: nat)
    requires
        rate > 0,
    ensures
        sample_index(micros as int, rate as int) % 2 == 0,
        0 <= sample_index(micros as int, rate as int) <= raw_index(micros as int, rate as int),
        raw_index(micros as int, rate as int) - 1 <= sample_index(micros as int, rate as int),
{
    assert(micros * rate >= 0) by (nonlinear_arith)
        requires
            micros >= 0,
            rate >= 0,
    ;
}

} // verus!
