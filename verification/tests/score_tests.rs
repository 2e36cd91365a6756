use wordle_solver::score::{score_bits, score_code};

fn samples() -> Vec<f32> {
    vec![
        f32::NEG_INFINITY,
        f32::MIN,
        -5.807355,
        -1.0,
        -f32::MIN_POSITIVE,
        -1.0e-45,
        -0.0,
        0.0,
        1.0e-45,
        f32::MIN_POSITIVE,
        0.5,
        1.0,
        5.807355,
        7.924813,
        f32::MAX,
        f32::INFINITY,
        f32::NAN,
        -f32::NAN,
    ]
}

#[test]
fn codes_order_as_the_scores_do() {
    for a in samples() {
        for b in samples() {
            let by_code = score_code(a.to_bits()).cmp(&score_code(b.to_bits()));
            assert_eq!(by_code, a.total_cmp(&b));
        }
    }
}

#[test]
fn a_score_is_found_again_from_its_code() {
    for a in samples() {
        assert_eq!(score_bits(score_code(a.to_bits())), a.to_bits());
    }
    for code in [i32::MIN, -2, -1, 0, 1, 2, 1065353216, i32::MAX] {
        assert_eq!(score_code(score_bits(code)), code);
    }
}

#[test]
fn codes_of_some_scores() {
    assert_eq!(score_code(0.0f32.to_bits()), 0);
    assert_eq!(score_code((-0.0f32).to_bits()), -1);
    assert_eq!(score_code(1.0f32.to_bits()), 0x3f80_0000);
    assert_eq!(score_code((-1.0f32).to_bits()), -0x3f80_0001);
    assert_eq!(score_code(f32::INFINITY.to_bits()), 0x7f80_0000);
    assert_eq!(score_code(u32::MAX), i32::MIN);
    assert_eq!(score_bits(0), 0);
    assert_eq!(score_bits(-1), 0x8000_0000);
}
