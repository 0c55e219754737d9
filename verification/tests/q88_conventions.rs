use silicon_bridge::{
    encode_q88_signed, encode_q88_unsigned, q88_signed_to_f32, q88_to_f32, STIMULUS_Q88_MAX,
    STIMULUS_Q88_MIN,
};

fn enc_s(value: f32) -> i16 {
    encode_q88_signed(value.to_bits())
}

fn enc_u(value: f32) -> u16 {
    encode_q88_unsigned(value.to_bits())
}

fn dec_s(raw: i16) -> f32 {
    f32::from_bits(q88_signed_to_f32(raw))
}

fn dec_u(raw: u16) -> f32 {
    f32::from_bits(q88_to_f32(raw))
}

#[test]
fn signed_encode_scales_by_256_in_both_directions() {
    assert_eq!(enc_s(0.0), 0);
    assert_eq!(enc_s(1.0), 256);
    assert_eq!(enc_s(-1.0), -256);
    assert_eq!(enc_s(0.5), 128);
    assert_eq!(enc_s(-0.5), -128);
    assert_eq!(enc_s(1.0 / 256.0), 1);
    assert_eq!(enc_s(-1.0 / 256.0), -1);
}

#[test]
fn signed_encode_truncates_toward_zero() {
    assert_eq!(enc_s(0.999), 255);
    assert_eq!(enc_s(-0.999), -255);
}

#[test]
fn signed_encode_clamps_at_both_ends() {
    assert_eq!(encode_q88_signed(STIMULUS_Q88_MAX), 32765);
    assert_eq!(encode_q88_signed(STIMULUS_Q88_MIN), -32765);
    assert_eq!(enc_s(128.0), 32765);
    assert_eq!(enc_s(-128.0), -32765);
    assert_eq!(enc_s(1.0e6), 32765);
    assert_eq!(enc_s(-1.0e6), -32765);
    assert_eq!(enc_s(f32::MAX), 32765);
    assert_eq!(enc_s(f32::MIN), -32765);
    assert_eq!(enc_s(f32::INFINITY), 32765);
    assert_eq!(enc_s(f32::NEG_INFINITY), -32765);
}

#[test]
fn signed_encode_maps_nan_to_zero() {
    assert_eq!(enc_s(f32::NAN), 0);
}

#[test]
fn signed_wire_words_are_big_endian() {
    assert_eq!(enc_s(1.0).to_be_bytes(), [0x01, 0x00]);
    assert_eq!(enc_s(-1.0).to_be_bytes(), [0xFF, 0x00]);
    assert_eq!(enc_s(-0.5).to_be_bytes(), [0xFF, 0x80]);
    assert_eq!(encode_q88_signed(STIMULUS_Q88_MAX).to_be_bytes(), [0x7F, 0xFD]);
}

#[test]
fn signed_encode_round_trips_through_q88_signed_to_f32() {
    for value in [-127.0_f32, -12.25, -1.0, -0.00390625, 0.0, 0.5, 64.75] {
        let raw = enc_s(value);
        assert_eq!(dec_s(raw), value, "round trip failed for {value}");
    }
}

#[test]
fn signed_decoder_covers_the_full_i16_wire_range() {
    assert_eq!(dec_s(i16::MIN), -128.0);
    assert_eq!(dec_s(i16::MAX), 32767.0 / 256.0);
    assert_eq!(dec_s(-32766), -32766.0 / 256.0);
    assert!(enc_s(-128.0) > i16::MIN);
    assert!(enc_s(f32::MAX) < i16::MAX);
}

#[test]
fn signed_and_unsigned_agree_only_on_the_shared_range() {
    for value in [0.0_f32, 0.5, 1.0, 64.25, 127.0] {
        assert_eq!(
            i32::from(enc_s(value)),
            i32::from(enc_u(value)),
            "conventions should agree for {value}"
        );
    }
    assert_eq!(enc_s(200.0), 32765);
    assert_eq!(enc_u(200.0), 51200);
}

#[test]
fn using_the_wrong_convention_corrupts_negative_values() {
    assert_eq!(enc_s(-1.0), -256);
    assert_eq!(enc_u(-1.0), 0);

    let wire = enc_s(-1.0);
    assert_eq!(dec_s(wire), -1.0);
    assert_eq!(dec_u(wire as u16), 255.0);
}

// ---------------------------------------------------------------------------
// Further cases
// ---------------------------------------------------------------------------

/// The bit-level encoders agree with the float arithmetic they stand for.
fn reference_signed(value: f32) -> i16 {
    (value.clamp(f32::from_bits(STIMULUS_Q88_MIN), f32::from_bits(STIMULUS_Q88_MAX)) * 256.0) as i16
}

fn reference_unsigned(value: f32) -> u16 {
    (value * 256.0).clamp(0.0, 65535.0) as u16
}

#[test]
fn encoders_match_float_arithmetic_on_a_spread_of_values() {
    let mut values = vec![
        0.0_f32,
        -0.0,
        f32::MIN_POSITIVE,
        -f32::MIN_POSITIVE,
        f32::from_bits(1),
        f32::from_bits(0x8000_0001),
        0.1,
        -0.1,
        255.99609375,
        256.0,
        255.999,
        65535.0 / 256.0,
        127.99,
        127.995,
        -127.995,
        1.0e-30,
        3.4e38,
        f32::INFINITY,
        f32::NEG_INFINITY,
    ];
    let mut bits: u32 = 0x1234_5677;
    for _ in 0..20_000 {
        bits = bits.wrapping_mul(1_664_525).wrapping_add(1_013_904_223);
        values.push(f32::from_bits(bits));
        values.push(f32::from_bits(bits & 0x437f_ffff));
        values.push(f32::from_bits(bits & 0xc37f_ffff));
    }
    for v in values {
        if v.is_nan() {
            assert_eq!(enc_s(v), 0);
            assert_eq!(enc_u(v), 0);
            continue;
        }
        assert_eq!(enc_s(v), reference_signed(v), "signed, {v:e} ({:#x})", v.to_bits());
        assert_eq!(enc_u(v), reference_unsigned(v), "unsigned, {v:e} ({:#x})", v.to_bits());
    }
}

#[test]
fn decoders_match_float_arithmetic_on_every_word() {
    for raw in 0..=u16::MAX {
        assert_eq!(q88_to_f32(raw), (raw as f32 / 256.0).to_bits());
        assert_eq!(enc_u(dec_u(raw)), raw);
    }
    for raw in i16::MIN..=i16::MAX {
        assert_eq!(q88_signed_to_f32(raw), (raw as f32 / 256.0).to_bits());
        if (-32765..=32765).contains(&raw) {
            assert_eq!(enc_s(dec_s(raw)), raw);
        }
    }
}

#[test]
fn unsigned_encoder_saturates_and_drops_negatives() {
    assert_eq!(enc_u(255.0), 65280);
    assert_eq!(enc_u(256.0), 65535);
    assert_eq!(enc_u(f32::INFINITY), 65535);
    assert_eq!(enc_u(f32::NEG_INFINITY), 0);
    assert_eq!(enc_u(-0.0), 0);
    assert_eq!(enc_u(-1.0e-3), 0);
    assert_eq!(enc_u(f32::NAN), 0);
    assert_eq!(enc_u(1.0 / 512.0), 0);
}

#[test]
fn stimulus_bounds_are_the_f32_nearest_to_127_99() {
    assert_eq!(f32::from_bits(STIMULUS_Q88_MAX), 127.99_f32);
    assert_eq!(f32::from_bits(STIMULUS_Q88_MIN), -127.99_f32);
}

#[test]
fn signed_encoder_is_symmetric() {
    for v in [0.0_f32, 0.004, 1.0, 12.3456, 127.99, 128.0, 1.0e9, f32::INFINITY] {
        assert_eq!(enc_s(-v), -enc_s(v), "{v}");
    }
}

#[test]
fn exact_multiples_survive_the_unsigned_round_trip() {
    for v in [0.0_f32, 0.00390625, 0.75, 1.5, 127.0, 255.99609375] {
        assert_eq!(dec_u(enc_u(v)), v);
    }
}

#[test]
fn encoders_are_monotone() {
    let mut values = vec![
        f32::NEG_INFINITY,
        -1.0e9,
        -128.0,
        -127.99,
        -1.0,
        -0.001,
        -0.0,
        0.0,
        1.0e-40,
        0.00390625,
        0.5,
        127.99,
        128.0,
        255.99,
        256.0,
        1.0e9,
        f32::INFINITY,
    ];
    let mut bits: u32 = 0x2468_ace1;
    for _ in 0..2_000 {
        bits = bits.wrapping_mul(1_664_525).wrapping_add(1_013_904_223);
        let v = f32::from_bits(bits & 0xc3ff_ffff);
        if !v.is_nan() {
            values.push(v);
        }
    }
    values.sort_by(|a, b| a.partial_cmp(b).unwrap());
    for pair in values.windows(2) {
        assert!(enc_s(pair[0]) <= enc_s(pair[1]), "{} {}", pair[0], pair[1]);
        assert!(enc_u(pair[0]) <= enc_u(pair[1]), "{} {}", pair[0], pair[1]);
    }
}

#[test]
fn nan_of_either_sign_encodes_as_zero() {
    assert_eq!(enc_s(-f32::NAN), 0);
    assert_eq!(enc_u(-f32::NAN), 0);
}
