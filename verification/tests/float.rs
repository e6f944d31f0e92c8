use visionary::float::FloatBits;

fn bits(x: f32) -> FloatBits {
    FloatBits(x.to_bits())
}

const SAMPLES: [f32; 22] = [
    0.0,
    -0.0,
    0.25,
    0.5,
    0.499_999_97,
    0.75,
    1.0,
    1.5,
    2.5,
    -0.5,
    -1.5,
    8.0,
    14.499_999,
    14.5,
    8_388_607.5,
    8_388_608.0,
    16_777_216.0,
    1.0e-45,
    3.0e38,
    -3.0e38,
    f32::INFINITY,
    f32::NEG_INFINITY,
];

#[test]
fn comparisons_are_those_of_the_numbers() {
    for a in SAMPLES {
        for b in SAMPLES {
            assert_eq!(bits(a).equals(bits(b)), a == b, "{a} == {b}");
            assert_eq!(bits(a).less_than(bits(b)), a < b, "{a} < {b}");
        }
        assert!(bits(a).is_number());
        assert!(!bits(a).equals(bits(f32::NAN)));
    }
    assert!(!bits(f32::NAN).is_number());
    assert!(!bits(f32::NAN).equals(bits(f32::NAN)));
}

#[test]
fn a_frame_is_shown_rounded_and_never_negative() {
    for x in SAMPLES {
        if x < 8_388_608.0 {
            assert_eq!(bits(x).displayed(), x.max(0.0).round() as u32, "{x}");
        }
        for y in SAMPLES {
            assert_eq!(
                bits(x).displayed() == bits(y).displayed(),
                x.max(0.0).round() == y.max(0.0).round(),
                "{x} {y}"
            );
        }
    }
    assert_eq!(bits(f32::NAN).displayed(), 0);
}

#[test]
fn truncation_is_that_of_the_numbers() {
    for x in SAMPLES {
        assert_eq!(bits(x).truncated(), x as i64, "{x}");
    }
    for x in [9.2e18, 9.3e18, -9.2e18, -9.3e18, 1.0e10, -123_456.79, f32::NAN] {
        assert_eq!(bits(x).truncated(), x as i64, "{x}");
    }
}
