use fnirsi::float::{F32, F64};

const NUMBERS: [f32; 13] = [
    f32::NEG_INFINITY,
    f32::MIN,
    -1.5,
    -f32::MIN_POSITIVE,
    -1e-45,
    -0.0,
    0.0,
    1e-45,
    f32::MIN_POSITIVE,
    1.5,
    f32::MAX,
    f32::INFINITY,
    f32::NAN,
];

fn held(v: f32) -> F32 {
    F32 { bits: v.to_bits() }
}

#[test]
fn order_is_that_of_the_numbers() {
    for a in NUMBERS {
        for b in NUMBERS {
            assert_eq!(held(a).is_below(held(b)), a < b, "{a} < {b}");
        }
    }
    let negative_nan = F32 { bits: 0xffc0_0001 };
    assert!(!negative_nan.is_below(held(1.0)));
    assert!(!held(1.0).is_below(negative_nan));
}

#[test]
fn kinds_of_numbers_are_told_apart() {
    for v in NUMBERS {
        assert_eq!(held(v).is_nan(), v.is_nan());
        assert_eq!(held(v).is_infinite(), v.is_infinite());
        let wide = f64::from(v);
        let wide_held = F64 {
            bits: wide.to_bits(),
        };
        assert_eq!(wide_held.is_nan(), wide.is_nan());
        assert_eq!(wide_held.is_at_most_zero(), wide <= 0.0, "{v}");
    }
}
