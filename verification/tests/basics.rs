use techalib::errors::{TechalibError, TechnicalysisError};
use techalib::float::{
    Float, FIFTY_BITS, HALF_BITS, HUNDRED_BITS, INFINITY_BITS, NAN_BITS, ONE_BITS, SIGN_BIT,
    THREE_BITS, TWO_BITS,
};
use techalib::helper::lookback;
use techalib::indicators::dema::dema_skip_period_unchecked;
use techalib::indicators::tema::tema_skip_period_unchecked;
use techalib::indicators::trima::get_middle_idx;
use techalib::series::{
    copy_into, first_non_finite, nan_value, push_nans, shift_window, tail_window,
};

fn f(x: f64) -> Float {
    Float::from_bits(x.to_bits())
}

fn samples() -> Vec<f64> {
    vec![
        0.0,
        -0.0,
        1.0,
        -1.0,
        0.5,
        -0.5,
        2.0,
        1e-320,
        -1e-320,
        f64::MIN_POSITIVE,
        f64::MAX,
        f64::MIN,
        f64::INFINITY,
        f64::NEG_INFINITY,
        f64::NAN,
        -f64::NAN,
        f64::from_bits(0x7ff0_0000_0000_0001),
        3.5,
        100.0,
        -7.25,
    ]
}

#[test]
fn the_constants_are_the_bits_of_their_values() {
    assert_eq!(ONE_BITS, 1.0f64.to_bits());
    assert_eq!(HALF_BITS, 0.5f64.to_bits());
    assert_eq!(TWO_BITS, 2.0f64.to_bits());
    assert_eq!(THREE_BITS, 3.0f64.to_bits());
    assert_eq!(FIFTY_BITS, 50.0f64.to_bits());
    assert_eq!(HUNDRED_BITS, 100.0f64.to_bits());
    assert_eq!(INFINITY_BITS, f64::INFINITY.to_bits());
    assert_eq!(NAN_BITS, f64::NAN.to_bits());
    assert_eq!(SIGN_BIT, (-0.0f64).to_bits());
    assert_eq!(nan_value().bits, NAN_BITS);
    assert_eq!(Float::from_bits(17).to_bits(), 17);
}

#[test]
fn the_classes_are_those_of_the_value() {
    for x in samples() {
        assert_eq!(f(x).is_finite(), x.is_finite(), "{x}");
        assert_eq!(f(x).is_nan(), x.is_nan(), "{x}");
        assert_eq!(f(x).abs().bits, x.abs().to_bits(), "{x}");
    }
}

#[test]
fn the_order_is_that_of_the_values() {
    for x in samples() {
        for y in samples() {
            assert_eq!(f(x).less_than(f(y)), x < y, "{x} < {y}");
            assert_eq!(f(x).greater_than(f(y)), x > y, "{x} > {y}");
            assert_eq!(f(x).at_most(f(y)), x <= y, "{x} <= {y}");
            assert_eq!(f(x).equals(f(y)), x == y, "{x} == {y}");
        }
    }
}

#[test]
fn lookback_of_a_bounded_period() {
    assert_eq!(lookback(2).unwrap(), 1);
    assert_eq!(lookback(30).unwrap(), 29);
    assert_eq!(lookback(100_000).unwrap(), 99_999);
    for period in [0usize, 1, 100_001, usize::MAX] {
        match lookback(period) {
            Err(TechnicalysisError::BadParam(msg)) => {
                assert!(msg.contains("between 2 and 100000"))
            }
            other => panic!("unexpected: {:?}", other),
        }
    }
}

#[test]
fn skip_periods_and_middles() {
    assert_eq!(dema_skip_period_unchecked(1), 0);
    assert_eq!(dema_skip_period_unchecked(30), 58);
    assert_eq!(tema_skip_period_unchecked(1), 0);
    assert_eq!(tema_skip_period_unchecked(30), 87);
    assert_eq!(get_middle_idx(1), 0);
    assert_eq!(get_middle_idx(2), 0);
    assert_eq!(get_middle_idx(3), 1);
    assert_eq!(get_middle_idx(5), 2);
    assert_eq!(get_middle_idx(6), 2);
    assert_eq!(get_middle_idx(30), 14);
}

#[test]
fn the_checks_report_their_faults() {
    assert!(TechalibError::check_period(2).is_ok());
    match TechalibError::check_period(1) {
        Err(TechalibError::BadParam(msg)) => assert_eq!(msg, "Period must be greater than 1"),
        other => panic!("unexpected: {:?}", other),
    }
    let a = [f(1.0), f(f64::NAN)];
    let b = [f(1.0)];
    assert!(TechalibError::check_same_length(&a, &a).is_ok());
    match TechalibError::check_same_length(&a, &b) {
        Err(TechalibError::BadParam(msg)) => assert_eq!(msg, "Data lengths must match"),
        other => panic!("unexpected: {:?}", other),
    }
    assert!(TechalibError::check_finite_at(0, &a).is_ok());
    match TechalibError::check_finite_at(1, &a) {
        Err(TechalibError::DataNonFinite(name)) => assert_eq!(name, "data"),
        other => panic!("unexpected: {:?}", other),
    }
    assert!(TechalibError::check_finite(f(1.0), "alpha").is_ok());
    match TechalibError::check_finite(f(f64::INFINITY), "alpha") {
        Err(TechalibError::DataNonFinite(name)) => assert_eq!(name, "alpha"),
        other => panic!("unexpected: {:?}", other),
    }
    assert!(TechalibError::check_overflow_at(0, &a).is_ok());
    match TechalibError::check_overflow_at(1, &a) {
        Err(TechalibError::Overflow(index, value)) => {
            assert_eq!(index, 1);
            assert_eq!(value.bits, a[1].bits);
        }
        other => panic!("unexpected: {:?}", other),
    }
    assert!(TechalibError::check_overflow(f(0.0)).is_ok());
    match TechalibError::check_overflow(f(f64::NEG_INFINITY)) {
        Err(TechalibError::Overflow(index, value)) => {
            assert_eq!(index, 0);
            assert_eq!(value.bits, f64::NEG_INFINITY.to_bits());
        }
        other => panic!("unexpected: {:?}", other),
    }
}

#[test]
fn windows_keep_the_newest_samples() {
    let data = [f(1.0), f(2.0), f(3.0), f(4.0)];
    let window = tail_window(&data, 3);
    let bits: Vec<u64> = window.iter().map(|x| x.bits).collect();
    assert_eq!(bits, vec![2.0f64.to_bits(), 3.0f64.to_bits(), 4.0f64.to_bits()]);
    assert_eq!(tail_window(&data, 0).len(), 0);
    let next = shift_window(&window, f(9.0));
    let bits: Vec<u64> = next.iter().map(|x| x.bits).collect();
    assert_eq!(bits, vec![3.0f64.to_bits(), 4.0f64.to_bits(), 9.0f64.to_bits()]);
    assert_eq!(first_non_finite(&next), None);
    let bad = shift_window(&shift_window(&next, f(f64::NAN)), f(f64::INFINITY));
    assert_eq!(first_non_finite(&bad), Some(1));
}

#[test]
fn outputs_are_filled_and_copied() {
    let mut output = vec![f(1.0)];
    push_nans(&mut output, 3);
    assert_eq!(output.len(), 4);
    assert_eq!(output[0].bits, 1.0f64.to_bits());
    assert!(output[1..].iter().all(|x| x.bits == NAN_BITS));
    push_nans(&mut output, 0);
    assert_eq!(output.len(), 4);
    let values = vec![f(5.0), f(6.0)];
    let mut buffer = [f(0.0), f(0.0)];
    copy_into(&values, &mut buffer);
    assert_eq!(buffer[0].bits, 5.0f64.to_bits());
    assert_eq!(buffer[1].bits, 6.0f64.to_bits());
}
