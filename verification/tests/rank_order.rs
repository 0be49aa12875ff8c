use seawater::column::ordered_ranks;
use seawater::rank::{rank, INFINITY_BITS, SIGN_BIT};

fn samples() -> Vec<f64> {
    vec![
        f64::NEG_INFINITY,
        f64::MIN,
        -1.0e300,
        -1013.25,
        -2.5,
        -1.0,
        -f64::MIN_POSITIVE,
        -5.0e-324,
        -0.0,
        0.0,
        5.0e-324,
        f64::MIN_POSITIVE,
        0.1,
        1.0,
        1.0000000000000002,
        2.5,
        1013.25,
        1.0e300,
        f64::MAX,
        f64::INFINITY,
    ]
}

#[test]
fn rank_of_one_is_its_magnitude_field() {
    assert_eq!(1.0f64.to_bits(), 0x3FF0_0000_0000_0000);
    assert_eq!(rank(1.0f64.to_bits()), Some(0x3FF0_0000_0000_0000));
}

#[test]
fn rank_of_minus_one_is_the_negated_magnitude_field() {
    assert_eq!(rank((-1.0f64).to_bits()), Some(-0x3FF0_0000_0000_0000));
}

#[test]
fn rank_of_either_zero_is_zero() {
    assert_eq!(rank(0.0f64.to_bits()), Some(0));
    assert_eq!(rank((-0.0f64).to_bits()), Some(0));
    assert_eq!(rank(SIGN_BIT), Some(0));
}

#[test]
fn rank_of_the_infinities() {
    assert_eq!(rank(f64::INFINITY.to_bits()), Some(0x7FF0_0000_0000_0000));
    assert_eq!(rank(f64::NEG_INFINITY.to_bits()), Some(-0x7FF0_0000_0000_0000));
    assert_eq!(f64::INFINITY.to_bits(), INFINITY_BITS);
}

#[test]
fn rank_of_the_smallest_and_largest_finite_values() {
    assert_eq!(rank(5.0e-324f64.to_bits()), Some(1));
    assert_eq!(rank((-5.0e-324f64).to_bits()), Some(-1));
    assert_eq!(rank(f64::MAX.to_bits()), Some(0x7FEF_FFFF_FFFF_FFFF));
    assert_eq!(rank(f64::MIN.to_bits()), Some(-0x7FEF_FFFF_FFFF_FFFF));
}

#[test]
fn rank_of_what_is_not_a_number_is_none() {
    assert_eq!(rank(f64::NAN.to_bits()), None);
    assert_eq!(rank((-f64::NAN).to_bits()), None);
    assert_eq!(rank(0x7FF0_0000_0000_0001), None);
    assert_eq!(rank(0xFFF0_0000_0000_0001), None);
    assert_eq!(rank(0x7FFF_FFFF_FFFF_FFFF), None);
    assert_eq!(rank(u64::MAX), None);
    assert_eq!(rank((0.0f64 / 0.0f64).to_bits()), None);
}

#[test]
fn rank_is_some_exactly_for_numbers() {
    for x in samples() {
        assert!(rank(x.to_bits()).is_some());
        assert!(!x.is_nan());
    }
}

#[test]
fn rank_orders_encodings_as_their_values_are_ordered() {
    let values = samples();
    for a in values.iter() {
        for b in values.iter() {
            let ra = rank(a.to_bits()).unwrap();
            let rb = rank(b.to_bits()).unwrap();
            assert_eq!(ra < rb, a < b);
            assert_eq!(ra == rb, a == b);
            assert_eq!(ra > rb, a > b);
            assert_eq!(ra <= rb, a <= b);
        }
    }
}

#[test]
fn rank_is_equal_only_for_equal_encodings_or_zeros() {
    let values = samples();
    for a in values.iter() {
        for b in values.iter() {
            let same = rank(a.to_bits()) == rank(b.to_bits());
            let both_zero = *a == 0.0 && *b == 0.0;
            assert_eq!(same, a.to_bits() == b.to_bits() || both_zero);
        }
    }
}

#[test]
fn rank_mirrors_under_a_change_of_sign() {
    for x in samples() {
        let up = rank(x.to_bits()).unwrap();
        let down = rank((-x).to_bits()).unwrap();
        assert_eq!(down, -up);
    }
}

#[test]
fn ordered_ranks_of_an_ascending_column() {
    let column = [0.0f64.to_bits(), 10.0f64.to_bits(), 20.5f64.to_bits()];
    assert_eq!(
        ordered_ranks(&column),
        Some(vec![0, 0x4024_0000_0000_0000, 0x4034_8000_0000_0000])
    );
}

#[test]
fn ordered_ranks_accepts_repeated_readings() {
    let column = [(-3.0f64).to_bits(), (-3.0f64).to_bits(), 0.0f64.to_bits(), (-0.0f64).to_bits()];
    assert_eq!(
        ordered_ranks(&column),
        Some(vec![-0x4008_0000_0000_0000, -0x4008_0000_0000_0000, 0, 0])
    );
}

#[test]
fn ordered_ranks_of_short_columns() {
    assert_eq!(ordered_ranks(&[]), Some(vec![]));
    assert_eq!(ordered_ranks(&[7.0f64.to_bits()]), Some(vec![0x401C_0000_0000_0000]));
    assert_eq!(ordered_ranks(&[f64::NAN.to_bits()]), None);
}

#[test]
fn ordered_ranks_rejects_a_descending_pair() {
    let column = [0.0f64.to_bits(), 10.0f64.to_bits(), 9.999f64.to_bits(), 20.0f64.to_bits()];
    assert_eq!(ordered_ranks(&column), None);
    let negative = [(-1.0f64).to_bits(), (-2.0f64).to_bits()];
    assert_eq!(ordered_ranks(&negative), None);
}

#[test]
fn ordered_ranks_rejects_a_reading_that_is_no_number() {
    let column = [0.0f64.to_bits(), f64::NAN.to_bits(), 20.0f64.to_bits()];
    assert_eq!(ordered_ranks(&column), None);
    let at_end = [0.0f64.to_bits(), 20.0f64.to_bits(), f64::NAN.to_bits()];
    assert_eq!(ordered_ranks(&at_end), None);
}

#[test]
fn ordered_ranks_agrees_with_a_comparison_of_the_values() {
    let values = samples();
    for a in values.iter() {
        for b in values.iter() {
            let column = [a.to_bits(), b.to_bits()];
            assert_eq!(ordered_ranks(&column).is_some(), a <= b);
        }
    }
}
