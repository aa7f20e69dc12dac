use llama_rs::score::{f32_gt, MINUS_1E10_BITS, NEG_INFINITY_BITS};

#[test]
fn float_comparison_on_bits_matches_f32() {
    let values = [
        0.0f32, -0.0, 1.0, -1.0, 0.5, -2.5, 1e10, -1e10, f32::INFINITY, f32::NEG_INFINITY, f32::NAN,
        f32::MIN_POSITIVE, -f32::MIN_POSITIVE, f32::MAX, f32::MIN,
    ];
    for &a in &values {
        for &b in &values {
            assert_eq!(f32_gt(a.to_bits(), b.to_bits()), a > b, "{a} > {b}");
        }
    }
    assert_eq!(NEG_INFINITY_BITS, f32::NEG_INFINITY.to_bits());
    assert_eq!(MINUS_1E10_BITS, (-1e10f32).to_bits());
}
