//! Q8.8 fixed-point codecs.
//!
//! Host values are IEEE-754 binary32 numbers. The library takes and returns
//! them as their bit patterns (`f32::to_bits` / `f32::from_bits`), so every
//! conversion below is integer logic whose result is stated exactly over the
//! real value that the bit pattern denotes.
//!
//! Two conventions exist side by side and are not interchangeable:
//! - unsigned Q8.8 (`u16`), used for `.mem` parameter export;
//! - signed Q8.8 (`i16`, two's complement), used on the UART wire.
use vstd::arithmetic::div_mod::{
    lemma_basic_div, lemma_div_by_multiple, lemma_div_denominator, lemma_div_is_ordered,
    lemma_mod_multiples_basic, lemma_small_mod,
};
use vstd::arithmetic::power2::{
    lemma2_to64, lemma_pow2_adds, lemma_pow2_pos, lemma_pow2_strictly_increases, pow2,
};
use vstd::bits::lemma_u32_shr_is_div;
use vstd::prelude::*;

verus! {

// ---------------------------------------------------------------------------
// The real value of an f32 bit pattern
// ---------------------------------------------------------------------------
/// Biased exponent field (bits 23..=30) of a binary32 bit pattern.
pub open spec fn f32_exponent(bits: u32) -> u32 {
    (bits >> 23u32) & 0xffu32
}

/// Fraction field (bits 0..=22) of a binary32 bit pattern.
pub open spec fn f32_fraction(bits: u32) -> u32 {
    bits & 0x7f_ffffu32
}

/// The sign bit is set (this includes `-0.0` and negative NaNs).
pub open spec fn f32_sign_set(bits: u32) -> bool {
    (bits >> 31u32) == 1u32
}

pub open spec fn f32_is_nan(bits: u32) -> bool {
    f32_exponent(bits) == 255 && f32_fraction(bits) != 0
}

pub open spec fn f32_is_infinite(bits: u32) -> bool {
    f32_exponent(bits) == 255 && f32_fraction(bits) == 0
}

pub open spec fn f32_is_finite(bits: u32) -> bool {
    f32_exponent(bits) != 255
}

/// Integer significand: a finite f32 denotes `±significand · 2^f32_scale`.
pub open spec fn f32_significand(bits: u32) -> nat {
    if f32_exponent(bits) == 0 {
        f32_fraction(bits) as nat
    } else {
        (f32_fraction(bits) + 0x80_0000) as nat
    }
}

/// Power of two that multiplies the significand of a finite f32.
pub open spec fn f32_scale(bits: u32) -> int {
    (if f32_exponent(bits) == 0 {
        1int
    } else {
        f32_exponent(bits) as int
    }) - 150
}

/// `|value · 2^k|` rounded toward zero, for a finite f32.
pub open spec fn f32_scaled_magnitude(bits: u32, k: int) -> nat {
    let s = f32_scale(bits) + k;
    if s >= 0 {
        f32_significand(bits) * pow2(s as nat)
    } else {
        f32_significand(bits) / pow2((-s) as nat)
    }
}

/// `value · 2^k` rounded toward zero, for a finite f32.
pub open spec fn f32_scaled_trunc(bits: u32, k: int) -> int {
    if f32_sign_set(bits) {
        -f32_scaled_magnitude(bits, k)
    } else {
        f32_scaled_magnitude(bits, k) as int
    }
}

/// `value · 2^k` is an integer (no fractional part is lost by truncation).
pub open spec fn f32_scaled_is_integral(bits: u32, k: int) -> bool {
    let s = f32_scale(bits) + k;
    s >= 0 || f32_significand(bits) % pow2((-s) as nat) == 0
}

/// The bit pattern is a finite f32 whose value times `2^k` is exactly `n`.
pub open spec fn f32_scaled_equals(bits: u32, k: int, n: int) -> bool {
    &&& f32_is_finite(bits)
    &&& f32_scaled_is_integral(bits, k)
    &&& f32_scaled_trunc(bits, k) == n
}

pub open spec fn clamp_int(x: int, lo: int, hi: int) -> int {
    if x < lo {
        lo
    } else if x > hi {
        hi
    } else {
        x
    }
}

/// `|value| · 2^149` of a finite f32: every finite f32 is an integer
/// multiple of `2^-149`.
pub open spec fn f32_exact_magnitude(bits: u32) -> nat {
    f32_significand(bits) * pow2((f32_scale(bits) + 149) as nat)
}

/// `value · 2^149` of a finite f32, an integer.
pub open spec fn f32_exact_value(bits: u32) -> int {
    if f32_sign_set(bits) {
        -f32_exact_magnitude(bits)
    } else {
        f32_exact_magnitude(bits) as int
    }
}

/// IEEE `a <= b` for two f32s that are not NaN.
pub open spec fn f32_le(a: u32, b: u32) -> bool {
    if (f32_is_infinite(a) && f32_sign_set(a)) || (f32_is_infinite(b) && !f32_sign_set(b)) {
        true
    } else if f32_is_infinite(a) || f32_is_infinite(b) {
        false
    } else {
        f32_exact_value(a) <= f32_exact_value(b)
    }
}

// ---------------------------------------------------------------------------
// What the codecs compute
// ---------------------------------------------------------------------------
/// Largest magnitude of a signed stimulus word: `trunc(127.99f32 · 256)`.
pub open spec fn stimulus_raw_limit() -> int {
    32765
}

/// Unsigned Q8.8 of an f32: `clamp(trunc(value · 256), 0, 65535)`,
/// with NaN mapped to 0 and infinities saturating.
pub open spec fn q88_unsigned_of(bits: u32) -> u16 {
    if f32_is_nan(bits) {
        0
    } else if f32_is_infinite(bits) {
        if f32_sign_set(bits) {
            0
        } else {
            65535
        }
    } else {
        clamp_int(f32_scaled_trunc(bits, 8), 0, 65535) as u16
    }
}

/// Signed Q8.8 of an f32: the input is clamped to `-127.99..=127.99` before
/// scaling, which makes this `clamp(trunc(value · 256), -32765, 32765)`,
/// with NaN mapped to 0 and infinities saturating.
pub open spec fn q88_signed_of(bits: u32) -> i16 {
    if f32_is_nan(bits) {
        0
    } else if f32_is_infinite(bits) {
        if f32_sign_set(bits) {
            -32765i16
        } else {
            32765
        }
    } else {
        clamp_int(f32_scaled_trunc(bits, 8), -stimulus_raw_limit(), stimulus_raw_limit()) as i16
    }
}

/// Bit pattern of `-127.99f32`, the lower clamp bound for host stimuli.
pub const STIMULUS_Q88_MIN: u32 = 0xc2ff_fae1;

/// Bit pattern of `127.99f32`, the upper clamp bound for host stimuli.
pub const STIMULUS_Q88_MAX: u32 = 0x42ff_fae1;

// ---------------------------------------------------------------------------
// Field extraction and assembly
// ---------------------------------------------------------------------------
proof fn lemma_field_bounds(bits: u32)
    ensures
        f32_exponent(bits) <= 255,
        f32_fraction(bits) <= 0x7f_ffff,
        (bits >> 31u32) <= 1,
{
    assert((bits >> 23u32) & 0xffu32 <= 255) by (bit_vector);
    assert(bits & 0x7f_ffffu32 <= 0x7f_ffff) by (bit_vector);
    assert((bits >> 31u32) <= 1) by (bit_vector);
}

/// Assemble a bit pattern from its sign, exponent and fraction fields.
pub(crate) fn f32_from_fields(negative: bool, exponent: u32, fraction: u32) -> (bits: u32)
    requires
        exponent <= 255,
        fraction <= 0x7f_ffff,
    ensures
        f32_exponent(bits) == exponent,
        f32_fraction(bits) == fraction,
        f32_sign_set(bits) == negative,
{
    let s: u32 = if negative {
        1
    } else {
        0
    };
    let bits = (s << 31u32) | (exponent << 23u32) | fraction;
    assert(((s << 31u32) | (exponent << 23u32) | fraction) >> 23u32 & 0xffu32 == exponent
        && ((s << 31u32) | (exponent << 23u32) | fraction) & 0x7f_ffffu32 == fraction
        && (((s << 31u32) | (exponent << 23u32) | fraction) >> 31u32 == 1u32) == (s == 1u32))
        by (bit_vector)
        requires
            s <= 1,
            exponent <= 255,
            fraction <= 0x7f_ffff,
    ;
    bits
}

/// `min(|trunc(value · 256)|, 65536)` for a finite f32.
fn q88_magnitude_capped(bits: u32) -> (m: u32)
    requires
        f32_is_finite(bits),
    ensures
        m as int == if f32_scaled_magnitude(bits, 8) > 65536 {
            65536
        } else {
            f32_scaled_magnitude(bits, 8) as int
        },
{
    proof {
        lemma_field_bounds(bits);
    }
    let e: u32 = (bits >> 23u32) & 0xffu32;
    let f: u32 = bits & 0x7f_ffffu32;
    let sig: u32 = if e == 0 {
        f
    } else {
        f + 0x80_0000
    };
    let eff: u32 = if e == 0 {
        1
    } else {
        e
    };
    assert(sig as nat == f32_significand(bits));
    assert(eff as int - 142 == f32_scale(bits) + 8);
    if eff >= 142 {
        proof {
            let s = (eff - 142) as nat;
            lemma_pow2_pos(s);
            assert(sig * pow2(s) >= sig) by (nonlinear_arith)
                requires
                    pow2(s) >= 1,
            ;
        }
        65536
    } else {
        let r: u32 = 142 - eff;
        if r >= 32 {
            proof {
                lemma2_to64();
                if r > 32 {
                    lemma_pow2_strictly_increases(32, r as nat);
                }
                lemma_basic_div(sig as int, pow2(r as nat) as int);
            }
            0
        } else {
            let q: u32 = sig >> r;
            proof {
                lemma_u32_shr_is_div(sig, r);
            }
            if q > 65536 {
                65536
            } else {
                q
            }
        }
    }
}

// ---------------------------------------------------------------------------
// Encoders
// ---------------------------------------------------------------------------
/// Encode an f32 (given by its bit pattern) as **unsigned** Q8.8.
///
/// `raw = clamp(value × 256, 0, 65535)`, truncated toward zero; NaN encodes
/// as 0, every negative input encodes as 0. This is the `.mem` export
/// convention.
pub fn encode_q88_unsigned(value: u32) -> (raw: u16)
    ensures
        raw == q88_unsigned_of(value),
{
    proof {
        lemma_field_bounds(value);
    }
    let e: u32 = (value >> 23u32) & 0xffu32;
    let f: u32 = value & 0x7f_ffffu32;
    let negative = (value >> 31u32) == 1u32;
    if e == 255 {
        if f != 0 || negative {
            0
        } else {
            65535
        }
    } else {
        let m = q88_magnitude_capped(value);
        if negative {
            0
        } else if m > 65535 {
            65535
        } else {
            m as u16
        }
    }
}

/// Encode a host stimulus (an f32 given by its bit pattern) as **signed**
/// Q8.8 (`i16`, two's complement).
///
/// The input is clamped to `STIMULUS_Q88_MIN..=STIMULUS_Q88_MAX` before it
/// is scaled by 256 and truncated toward zero, so saturation lands on
/// `±32765`; NaN encodes as 0. This is the UART wire convention.
pub fn encode_q88_signed(value: u32) -> (raw: i16)
    ensures
        raw == q88_signed_of(value),
        -32765 <= raw <= 32765,
{
    proof {
        lemma_field_bounds(value);
    }
    let e: u32 = (value >> 23u32) & 0xffu32;
    let f: u32 = value & 0x7f_ffffu32;
    let negative = (value >> 31u32) == 1u32;
    if e == 255 {
        if f != 0 {
            0
        } else if negative {
            -32765i16
        } else {
            32765
        }
    } else {
        let m = q88_magnitude_capped(value);
        if m > 32765 {
            if negative {
                -32765
            } else {
                32765
            }
        } else if negative {
            -(m as i16)
        } else {
            m as i16
        }
    }
}

// ---------------------------------------------------------------------------
// Decoders
// ---------------------------------------------------------------------------
/// The f32 whose value is exactly `±magnitude / 2^frac_bits`.
pub(crate) fn f32_of_scaled_integer(negative: bool, magnitude: u32, frac_bits: u32) -> (bits: u32)
    requires
        magnitude < 0x100_0000,
        frac_bits <= 100,
        magnitude == 0 ==> !negative,
    ensures
        f32_sign_set(bits) == negative,
        f32_scaled_equals(
            bits,
            frac_bits as int,
            if negative {
                -(magnitude as int)
            } else {
                magnitude as int
            },
        ),
{
    if magnitude == 0 {
        let bits = f32_from_fields(false, 0, 0);
        proof {
            let s = (149 - frac_bits) as nat;
            lemma_pow2_pos(s);
            lemma_basic_div(0, pow2(s) as int);
            lemma_small_mod(0, pow2(s));
        }
        return bits;
    }
    // Normalise: sig = magnitude · 2^k with 2^23 <= sig < 2^24.

    let mut sig: u32 = magnitude;
    let mut k: u32 = 0;
    proof {
        lemma2_to64();
    }
    while sig < 0x80_0000
        invariant
            1 <= magnitude < 0x100_0000,
            k <= 23,
            sig == magnitude * pow2(k as nat),
            sig < 0x100_0000,
            pow2(23) == 0x80_0000,
        decreases 23 - k,
    {
        proof {
            if k >= 23 {
                if k > 23 {
                    lemma_pow2_strictly_increases(23, k as nat);
                }
                assert(magnitude * pow2(k as nat) >= pow2(k as nat)) by (nonlinear_arith)
                    requires
                        magnitude >= 1,
                ;
            }
            lemma_pow2_adds(k as nat, 1);
            lemma2_to64();
            assert(sig * 2 == magnitude * pow2((k + 1) as nat)) by (nonlinear_arith)
                requires
                    sig == magnitude * pow2(k as nat),
                    pow2((k + 1) as nat) == pow2(k as nat) * 2,
            ;
        }
        sig = sig * 2;
        k = k + 1;
    }
    // value = sig · 2^(exponent - 150) = magnitude / 2^frac_bits
    let exponent: u32 = 150 - frac_bits - k;
    let bits = f32_from_fields(negative, exponent, sig - 0x80_0000);
    proof {
        assert(f32_significand(bits) == sig);
        assert(f32_scale(bits) + frac_bits == -(k as int));
        lemma_pow2_pos(k as nat);
        lemma_div_by_multiple(magnitude as int, pow2(k as nat) as int);
        lemma_mod_multiples_basic(magnitude as int, pow2(k as nat) as int);
    }
    bits
}

/// Decode an **unsigned** Q8.8 word to the f32 (bit pattern) of value
/// `raw / 256`. Every `u16` is a valid word (`0.0..=255.99609375`).
pub fn q88_to_f32(raw: u16) -> (bits: u32)
    ensures
        !f32_sign_set(bits),
        f32_scaled_equals(bits, 8, raw as int),
{
    f32_of_scaled_integer(false, raw as u32, 8)
}

/// Decode a **signed** Q8.8 wire word to the f32 (bit pattern) of value
/// `raw / 256`. Every `i16` is accepted (`-128.0..=127.99609375`),
/// including the words just outside what `encode_q88_signed` produces.
pub fn q88_signed_to_f32(raw: i16) -> (bits: u32)
    ensures
        f32_sign_set(bits) == (raw < 0),
        f32_scaled_equals(bits, 8, raw as int),
{
    if raw < 0 {
        let magnitude: u32 = (-(raw as i32)) as u32;
        f32_of_scaled_integer(true, magnitude, 8)
    } else {
        f32_of_scaled_integer(false, raw as u32, 8)
    }
}

// ---------------------------------------------------------------------------
// Laws of the two conventions
// ---------------------------------------------------------------------------
/// Every f32 whose value is exactly `raw / 256` (such as the one that
/// `q88_to_f32` returns) encodes back to `raw` on the unsigned path.
pub proof fn law_unsigned_word_round_trip(raw: u16, bits: u32)
    requires
        f32_scaled_equals(bits, 8, raw as int),
    ensures
        q88_unsigned_of(bits) == raw,
{
}

/// Every f32 whose value is exactly `raw / 256` with `raw` inside the
/// stimulus range `-32765..=32765` (such as the one that `q88_signed_to_f32`
/// returns) encodes back to `raw` on the signed path.
pub proof fn law_signed_word_round_trip(raw: i16, bits: u32)
    requires
        -32765 <= raw <= 32765,
        f32_scaled_equals(bits, 8, raw as int),
    ensures
        q88_signed_of(bits) == raw,
{
}

/// A value that is an exact multiple of 1/256 in `0.0..=255.99609375`
/// survives unsigned encoding followed by decoding: the decoded f32 has the
/// same value as the input.
pub proof fn law_unsigned_value_round_trip(value: u32, decoded: u32)
    requires
        f32_is_finite(value),
        f32_scaled_is_integral(value, 8),
        0 <= f32_scaled_trunc(value, 8) <= 65535,
        f32_scaled_equals(decoded, 8, q88_unsigned_of(value) as int),
    ensures
        f32_scaled_equals(decoded, 8, f32_scaled_trunc(value, 8)),
{
}

/// A value that is an exact multiple of 1/256 in the stimulus range
/// survives signed encoding followed by decoding: the decoded f32 has the
/// same value as the input.
pub proof fn law_signed_value_round_trip(value: u32, decoded: u32)
    requires
        f32_is_finite(value),
        f32_scaled_is_integral(value, 8),
        -32765 <= f32_scaled_trunc(value, 8) <= 32765,
        f32_scaled_equals(decoded, 8, q88_signed_of(value) as int),
    ensures
        f32_scaled_equals(decoded, 8, f32_scaled_trunc(value, 8)),
{
}

/// The signed and unsigned encoders produce the same raw number exactly on
/// the shared range: finite inputs whose truncated `value · 256` lies in
/// `0..=32765`.
pub proof fn law_conventions_agree_on_shared_range(value: u32)
    requires
        f32_is_finite(value),
        0 <= f32_scaled_trunc(value, 8) <= 32765,
    ensures
        q88_signed_of(value) as int == q88_unsigned_of(value) as int,
{
}

/// The unsigned (export) encoder turns every input with the sign bit set
/// into 0: negative stimuli do not survive the wrong convention.
pub proof fn law_unsigned_encoder_drops_negatives(value: u32)
    requires
        f32_sign_set(value),
    ensures
        q88_unsigned_of(value) == 0,
{
}

/// The signed encoder never reaches the two outermost `i16` words; its
/// output stays within `-32765..=32765`.
pub proof fn law_signed_encoder_saturates_inside_i16(value: u32)
    ensures
        -32765 <= q88_signed_of(value) <= 32765,
{
}

/// Read with the unsigned (export) decoder, a negative signed wire word
/// comes out as the large positive value `(raw + 65536) / 256`.
pub proof fn law_unsigned_decoder_misreads_negative_words(raw: i16, bits: u32)
    requires
        raw < 0,
        f32_scaled_equals(bits, 8, (raw as u16) as int),
    ensures
        f32_scaled_trunc(bits, 8) == raw + 65536,
        f32_scaled_trunc(bits, 8) >= 32768,
{
    assert(raw < 0 ==> (raw as u16) as i32 == raw as i32 + 65536) by (bit_vector);
}

/// The signed encoder is symmetric: negating an input (flipping its sign
/// bit) negates its word, so positive and negative saturation land on
/// `±32765`; NaN of either sign encodes as 0.
pub proof fn law_signed_encoder_is_symmetric(value: u32)
    ensures
        q88_signed_of(value ^ 0x8000_0000u32) == -q88_signed_of(value),
{
    let negated = value ^ 0x8000_0000u32;
    assert(((value ^ 0x8000_0000u32) >> 23u32) & 0xffu32 == (value >> 23u32) & 0xffu32) by (bit_vector);
    assert((value ^ 0x8000_0000u32) & 0x7f_ffffu32 == value & 0x7f_ffffu32) by (bit_vector);
    assert(((value ^ 0x8000_0000u32) >> 31u32 == 1u32) <==> !(value >> 31u32 == 1u32)) by (bit_vector);
    assert(f32_scaled_magnitude(negated, 8) == f32_scaled_magnitude(value, 8));
}

/// `|trunc(value · 256)|` of a finite f32 is its exact magnitude divided by
/// `2^141`, rounded down.
proof fn lemma_q88_magnitude_from_exact(bits: u32)
    requires
        f32_is_finite(bits),
    ensures
        f32_scaled_magnitude(bits, 8) == f32_exact_magnitude(bits) / pow2(141),
{
    lemma_field_bounds(bits);
    let sig = f32_significand(bits);
    let e = f32_scale(bits) + 150;
    assert(1 <= e <= 254);
    let s = e - 142;
    lemma_pow2_pos(141);
    if s >= 0 {
        lemma_pow2_adds(s as nat, 141);
        assert(((s as nat) + 141) as nat == (f32_scale(bits) + 149) as nat);
        let x = sig * pow2(s as nat);
        assert(sig * (pow2(s as nat) * pow2(141)) == x * pow2(141)) by (nonlinear_arith)
            requires
                x == sig * pow2(s as nat),
        ;
        lemma_div_by_multiple(x as int, pow2(141) as int);
    } else {
        let n = (142 - e) as nat;
        let m = (141 - n) as nat;
        assert(m == (f32_scale(bits) + 149) as nat);
        lemma_pow2_adds(m, n);
        assert(m + n == 141);
        lemma_pow2_pos(m);
        lemma_pow2_pos(n);
        lemma_div_denominator((sig * pow2(m)) as int, pow2(m) as int, pow2(n) as int);
        lemma_div_by_multiple(sig as int, pow2(m) as int);
    }
}

/// Truncation of `value · 256` toward zero follows the order of the values.
proof fn lemma_q88_trunc_monotone(a: u32, b: u32)
    requires
        f32_is_finite(a),
        f32_is_finite(b),
        f32_exact_value(a) <= f32_exact_value(b),
    ensures
        f32_scaled_trunc(a, 8) <= f32_scaled_trunc(b, 8),
{
    lemma_q88_magnitude_from_exact(a);
    lemma_q88_magnitude_from_exact(b);
    lemma_pow2_pos(141);
    let p = pow2(141) as int;
    let ma = f32_exact_magnitude(a) as int;
    let mb = f32_exact_magnitude(b) as int;
    if !f32_sign_set(a) && !f32_sign_set(b) {
        lemma_div_is_ordered(ma, mb, p);
    } else if f32_sign_set(a) && f32_sign_set(b) {
        lemma_div_is_ordered(mb, ma, p);
    } else if !f32_sign_set(a) && f32_sign_set(b) {
        assert(ma == 0 && mb == 0);
        lemma_basic_div(0, p);
    } else {
        lemma_div_is_ordered(0, ma, p);
        lemma_div_is_ordered(0, mb, p);
        lemma_basic_div(0, p);
    }
}

/// The unsigned encoder is monotone: `a <= b` (neither NaN) gives
/// `encode(a) <= encode(b)`.
pub proof fn law_unsigned_encoder_is_monotone(a: u32, b: u32)
    requires
        !f32_is_nan(a),
        !f32_is_nan(b),
        f32_le(a, b),
    ensures
        q88_unsigned_of(a) <= q88_unsigned_of(b),
{
    if f32_is_finite(a) && f32_is_finite(b) {
        lemma_q88_trunc_monotone(a, b);
    }
}

/// The signed encoder is monotone: `a <= b` (neither NaN) gives
/// `encode(a) <= encode(b)`.
pub proof fn law_signed_encoder_is_monotone(a: u32, b: u32)
    requires
        !f32_is_nan(a),
        !f32_is_nan(b),
        f32_le(a, b),
    ensures
        q88_signed_of(a) <= q88_signed_of(b),
{
    if f32_is_finite(a) && f32_is_finite(b) {
        lemma_q88_trunc_monotone(a, b);
    }
}

/// `|trunc(value · 256)| · 2^141 <= |value| · 2^149 < (|trunc(value · 256)| + 1) · 2^141`:
/// the magnitude of the truncated word brackets the exact magnitude.
proof fn lemma_q88_magnitude_brackets(bits: u32)
    requires
        f32_is_finite(bits),
    ensures
        f32_scaled_magnitude(bits, 8) * pow2(141) <= f32_exact_magnitude(bits),
        f32_exact_magnitude(bits) < (f32_scaled_magnitude(bits, 8) + 1) * pow2(141),
{
    lemma_q88_magnitude_from_exact(bits);
    lemma_pow2_pos(141);
    let p = pow2(141) as int;
    let x = f32_exact_magnitude(bits) as int;
    vstd::arithmetic::div_mod::lemma_fundamental_div_mod(x, p);
    vstd::arithmetic::div_mod::lemma_mod_bound(x, p);
    let m = x / p;
    assert(m * p <= x < (m + 1) * p) by (nonlinear_arith)
        requires
            x == p * m + x % p,
            0 <= x % p < p,
    ;
}

/// The unsigned encoder rounds toward zero and saturates: a value `v` in
/// `0.0..256.0` gives the word `w` with `w / 256 <= v < (w + 1) / 256`,
/// a value of at least 256 gives 65535, a value of at most 0 gives 0.
/// (All stated on `v · 2^149`, which is an integer for every finite f32.)
pub proof fn law_unsigned_encoder_rounds_down(v: u32)
    requires
        f32_is_finite(v),
    ensures
        f32_exact_value(v) <= 0 ==> q88_unsigned_of(v) == 0,
        0 <= f32_exact_value(v) < 65536 * pow2(141) ==> q88_unsigned_of(v) * pow2(141)
            <= f32_exact_value(v) < (q88_unsigned_of(v) + 1) * pow2(141),
        f32_exact_value(v) >= 65536 * pow2(141) ==> q88_unsigned_of(v) == 65535,
{
    lemma_q88_magnitude_brackets(v);
    lemma_pow2_pos(141);
    let m = f32_scaled_magnitude(v, 8) as int;
    let p = pow2(141) as int;
    if !f32_sign_set(v) && f32_exact_value(v) < 65536 * p {
        assert(m < 65536) by (nonlinear_arith)
            requires
                m * p <= f32_exact_value(v) < 65536 * p,
                p > 0,
        ;
    }
    if !f32_sign_set(v) && f32_exact_value(v) >= 65536 * p {
        assert(m >= 65536) by (nonlinear_arith)
            requires
                f32_exact_value(v) < (m + 1) * p,
                f32_exact_value(v) >= 65536 * p,
                p > 0,
        ;
    }
    if f32_exact_magnitude(v) == 0 {
        assert(m == 0) by (nonlinear_arith)
            requires
                m * p <= 0,
                m >= 0,
                p > 0,
        ;
    }
}

/// The signed encoder rounds toward zero and saturates at `±32765`: for
/// `0 <= v < 32766 / 256` the word `w` has `w / 256 <= v < (w + 1) / 256`,
/// for `-32766 / 256 < v <= 0` it has `(w - 1) / 256 < v <= w / 256`, and
/// beyond those bounds the word is `32765` or `-32765`.
/// (All stated on `v · 2^149`, which is an integer for every finite f32.)
pub proof fn law_signed_encoder_rounds_toward_zero(v: u32)
    requires
        f32_is_finite(v),
    ensures
        0 <= f32_exact_value(v) < 32766 * pow2(141) ==> q88_signed_of(v) * pow2(141)
            <= f32_exact_value(v) < (q88_signed_of(v) + 1) * pow2(141),
        -32766 * pow2(141) < f32_exact_value(v) <= 0 ==> (q88_signed_of(v) - 1) * pow2(141)
            < f32_exact_value(v) <= q88_signed_of(v) * pow2(141),
        f32_exact_value(v) >= 32766 * pow2(141) ==> q88_signed_of(v) == 32765,
        f32_exact_value(v) <= -32766 * pow2(141) ==> q88_signed_of(v) == -32765,
{
    lemma_q88_magnitude_brackets(v);
    lemma_pow2_pos(141);
    let m = f32_scaled_magnitude(v, 8) as int;
    let p = pow2(141) as int;
    let x = f32_exact_magnitude(v) as int;
    if x < 32766 * p {
        assert(m < 32766) by (nonlinear_arith)
            requires
                m * p <= x < 32766 * p,
                p > 0,
        ;
    } else {
        assert(m >= 32766) by (nonlinear_arith)
            requires
                x < (m + 1) * p,
                x >= 32766 * p,
                p > 0,
        ;
    }
    if x == 0 {
        assert(m == 0) by (nonlinear_arith)
            requires
                m * p <= 0,
                m >= 0,
                p > 0,
        ;
    }
    assert((-m) * p == -(m * p) && (-m + 1) * p == -((m - 1) * p) && (-m - 1) * p == -((m + 1)
        * p)) by (nonlinear_arith);
}

/// A bit pattern that `f32_scaled_equals(bits, 8, n)` describes (such as a
/// decoder's output for word `n`) has exact value `n / 256`:
/// `value · 2^149 == n · 2^141`.
pub proof fn law_q88_word_value_is_exact(bits: u32, n: int)
    requires
        f32_scaled_equals(bits, 8, n),
    ensures
        f32_exact_value(bits) == n * pow2(141),
{
    lemma_field_bounds(bits);
    let sig = f32_significand(bits) as int;
    let sh = f32_scale(bits) + 8;
    let m = f32_scaled_magnitude(bits, 8) as int;
    assert(-141 <= sh);
    if sh >= 0 {
        lemma_pow2_adds(sh as nat, 141);
        assert(((sh as nat) + 141) as nat == (f32_scale(bits) + 149) as nat);
        assert(sig * (pow2(sh as nat) * pow2(141)) == (sig * pow2(sh as nat)) * pow2(141))
            by (nonlinear_arith);
    } else {
        let d = (-sh) as nat;
        let r = (141 - d) as nat;
        assert(r == (f32_scale(bits) + 149) as nat);
        lemma_pow2_pos(d);
        lemma_pow2_adds(d, r);
        assert(d + r == 141);
        vstd::arithmetic::div_mod::lemma_fundamental_div_mod(sig, pow2(d) as int);
        assert(sig == pow2(d) * m);
        assert(sig * pow2(r) == m * pow2(141)) by (nonlinear_arith)
            requires
                sig == pow2(d) * m,
                pow2(141) == pow2(d) * pow2(r),
        ;
    }
    assert(f32_exact_magnitude(bits) as int == m * pow2(141));
    if f32_sign_set(bits) {
        assert(-(m * pow2(141)) == (-m) * pow2(141)) by (nonlinear_arith);
    }
}

} // verus!
