use market_maker::binary64::Binary64;

fn number(x: f64) -> Binary64 {
    Binary64::from_bits(x.to_bits())
}

fn samples() -> Vec<f64> {
    vec![
        f64::NEG_INFINITY,
        -2.5,
        -1e-310,
        -0.0,
        0.0,
        1e-310,
        1.0,
        2.5,
        f64::MAX,
        f64::INFINITY,
        f64::NAN,
    ]
}

#[test]
fn comparisons_agree_with_the_machine() {
    for x in samples() {
        for y in samples() {
            assert_eq!(number(x).lt(number(y)), x < y);
            assert_eq!(number(x).gt(number(y)), x > y);
            assert_eq!(number(x).ge(number(y)), x >= y);
        }
    }
}

#[test]
fn negation_flips_the_sign_and_undoes_itself() {
    for x in samples() {
        assert_eq!(number(x).negated().bits, (-x).to_bits());
        assert_eq!(number(x).negated().negated().bits, x.to_bits());
    }
}

#[test]
fn maximum_is_that_of_the_machine() {
    assert_eq!(number(2.5).max(number(10.0)), number(10.0));
    assert_eq!(number(20.0).max(number(10.0)), number(20.0));
    assert_eq!(number(f64::NAN).max(number(10.0)), number(10.0));
    assert_eq!(number(10.0).max(number(f64::NAN)), number(10.0));
}

#[test]
fn only_nan_is_nan() {
    for x in samples() {
        assert_eq!(number(x).is_nan(), x.is_nan());
    }
    assert_eq!(Binary64::zero(), number(0.0));
}
