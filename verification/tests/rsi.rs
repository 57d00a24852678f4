use std::num::FpCategory;
use techalib::arith::Arith;
use techalib::errors::TechalibError;
use techalib::float::Float;
use techalib::indicators::rsi::{
    calculate_rsi, rsi, rsi_into, rsi_next_unchecked, RsiResult, RsiState,
};
use techalib::traits::State;

struct Ieee;

impl Arith for Ieee {
    fn add(&self, x: Float, y: Float) -> Float {
        f(v(x) + v(y))
    }

    fn sub(&self, x: Float, y: Float) -> Float {
        f(v(x) - v(y))
    }

    fn mul(&self, x: Float, y: Float) -> Float {
        f(v(x) * v(y))
    }

    fn div(&self, x: Float, y: Float) -> Float {
        f(v(x) / v(y))
    }

    fn sqrt(&self, x: Float) -> Float {
        f(v(x).sqrt())
    }

    fn count(&self, n: usize) -> Float {
        f(n as f64)
    }
}

fn f(x: f64) -> Float {
    Float::from_bits(x.to_bits())
}

fn v(x: Float) -> f64 {
    f64::from_bits(x.to_bits())
}

#[allow(dead_code)]
fn series(values: &[f64]) -> Vec<Float> {
    values.iter().map(|x| f(*x)).collect()
}

#[allow(dead_code)]
fn floats(values: &[Float]) -> Vec<f64> {
    values.iter().map(|x| v(*x)).collect()
}

#[allow(dead_code)]
fn ulp_at(x: f64) -> f64 {
    match x.classify() {
        FpCategory::Nan | FpCategory::Infinite => f64::NAN,
        _ => {
            let next = f64::from_bits(x.to_bits() + 1);
            next - x
        }
    }
}

#[allow(dead_code)]
fn approx_eq_float(a: f64, b: f64, eps_factor: f64) -> bool {
    let ulp_step = ulp_at(b);
    let min_tol: f64 = (1e-1_f64).max(ulp_step);
    let diff = (a - b).abs();
    let relative_tol = (eps_factor * b.abs().max(1.0)).min(min_tol);
    diff < relative_tol
}

#[allow(dead_code)]
fn assert_vec_float_eq(expected: &[f64], got: &[f64], epsilon: f64) {
    for (i, (x, y)) in expected.iter().zip(got.iter()).enumerate() {
        if x.is_nan() && y.is_nan() {
            continue;
        }
        assert!(
            approx_eq_float(*x, *y, epsilon),
            "[{i}] Expected: {}, got: {} (epsilon: {})",
            x,
            y,
            epsilon
        );
    }
}

#[allow(dead_code)]
fn assert_vec_eq_gen_data(expected: &[f64], got: &[f64]) {
    assert_eq!(expected.len(), got.len());
    assert_vec_float_eq(expected, got, 1e-8);
}

#[allow(dead_code)]
fn assert_vec_close(expected: &[f64], got: &[f64]) {
    assert_eq!(expected.len(), got.len());
    assert_vec_float_eq(expected, got, 1e-9);
}

#[allow(dead_code)]
fn same_bits(a: &[Float], b: &[Float]) -> bool {
    a.len() == b.len() && a.iter().zip(b.iter()).all(|(x, y)| x.bits == y.bits)
}

#[allow(dead_code)]
fn noise(len: usize, seed: u64) -> Vec<f64> {
    let mut state = seed;
    let mut out = Vec::with_capacity(len);
    for _ in 0..len {
        state = state
            .wrapping_mul(6364136223846793005)
            .wrapping_add(1442695040888963407);
        let unit = (state >> 11) as f64 / (1u64 << 53) as f64;
        out.push(50.0 + 100.0 * unit);
    }
    out
}

fn rsi_values(data: &[f64], period: usize) -> Vec<f64> {
    floats(&rsi(&Ieee, &series(data), period).unwrap().values)
}

#[test]
fn tests_rsi_empty_input() {
    let data: [Float; 0] = [];
    let period = 14;
    let result = rsi(&Ieee, &data, period);
    assert!(result.is_err());
    assert!(matches!(result, Err(TechalibError::InsufficientData)));
}

#[test]
fn tests_rsi_input_shorter_than_period() {
    let data = series(&[1.0, 2.0, 3.0]);
    let period = 5;
    let result = rsi(&Ieee, &data, period);
    assert!(result.is_err());
    assert!(matches!(result, Err(TechalibError::InsufficientData)));
}

#[test]
fn tests_rsi_input_length_equals_period() {
    let data = series(&[1.0, 2.0, 3.0]);
    let period = 3;
    let result = rsi(&Ieee, &data, period);
    assert!(result.is_err());
    assert!(matches!(result, Err(TechalibError::InsufficientData)));
}

#[test]
fn tests_rsi_period_1() {
    let data = series(&[10.0, 11.0, 10.0, 10.0, 12.0]);
    let period = 1;
    let result = rsi(&Ieee, &data, period);
    assert!(result.is_err());
    assert!(matches!(result, Err(TechalibError::BadParam(_))));
}

#[test]
fn tests_rsi_min_data_for_one_value_mixed() {
    let data = &[10.0, 11.0, 10.0];
    let period = 2;
    let expected = vec![f64::NAN, f64::NAN, 50.0];
    let result = rsi_values(data, period);
    assert_vec_close(&result, &expected);
}

#[test]
fn tests_rsi_alternating_up_down() {
    let data = &[10.0, 12.0, 10.0, 12.0, 10.0, 12.0];
    let period = 2;
    let expected = vec![f64::NAN, f64::NAN, 50.0, 75.0, 37.5, 68.75];
    let result = rsi_values(data, period);
    assert_vec_close(&result, &expected);
}

#[test]
fn tests_rsi_all_values_approximatelly_same() {
    let data = &[
        10.1, 9.9, 10.0, 10.2, 10.1, 10.12, 10.11, 10.12, 10.11, 10.10, 10.09, 10.10,
    ];
    let period = 3;
    let expected = vec![
        f64::NAN,
        f64::NAN,
        f64::NAN,
        60.0,
        46.15384615,
        49.64028777,
        47.34133791,
        50.76182839,
        46.25502375,
        40.81895857,
        34.70156925,
        46.68643523,
    ];
    let result = rsi_values(data, period);
    assert_vec_float_eq(&result, &expected, 1e-6);
}

#[test]
fn tests_rsi_all_values_same() {
    let data = &[10.0, 10.0, 10.0, 10.0, 10.0];
    let period = 3;
    let expected = vec![f64::NAN, f64::NAN, f64::NAN, 50.0, 50.0];
    let result = rsi_values(data, period);
    assert_vec_close(&result, &expected);
}

#[test]
fn tests_rsi_all_increasing() {
    let data = &[1.0, 2.0, 3.0, 4.0, 5.0];
    let period = 3;
    let expected = vec![f64::NAN, f64::NAN, f64::NAN, 100.0, 100.0];
    let result = rsi_values(data, period);
    assert_vec_close(&result, &expected);
}

#[test]
fn tests_rsi_all_decreasing() {
    let data = &[5.0, 4.0, 3.0, 2.0, 1.0];
    let period = 3;
    let expected = vec![f64::NAN, f64::NAN, f64::NAN, 0.0, 0.0];
    let result = rsi_values(data, period);
    assert_vec_close(&result, &expected);
}

#[test]
fn tests_rsi_input_with_nans() {
    let data = series(&[1.0, 2.0, f64::NAN, 4.0, 5.0]);
    let period = 2;
    let result = rsi(&Ieee, &data, period);
    assert!(result.is_err());
    assert!(matches!(result, Err(TechalibError::DataNonFinite(_))));
}

#[test]
fn tests_rsi_period_zero() {
    let data = series(&[1.0, 2.0, 3.0]);
    let period = 0;
    let result = rsi(&Ieee, &data, period);
    assert!(result.is_err());
    assert!(matches!(result, Err(TechalibError::BadParam(_))));
}

#[test]
fn tests_rsi_unexpected_nan_err() {
    let data = series(&[1.0, 2.0, 3.0, f64::NAN, 5.0, 6.0, 7.0]);
    let result = rsi(&Ieee, &data, 3);
    assert!(result.is_err());
    assert!(matches!(result, Err(TechalibError::DataNonFinite(_))));
}

#[test]
fn tests_rsi_non_finite_err() {
    let data = series(&[1.0, 2.0, 3.0, f64::INFINITY, 5.0, 6.0, 7.0]);
    let result = rsi(&Ieee, &data, 3);
    assert!(result.is_err());
    assert!(matches!(result, Err(TechalibError::DataNonFinite(_))));
}

#[test]
fn tests_rsi_finite_extreme_err_overflow_or_ok_all_finite() {
    let data = series(&[
        f64::MAX - 3.0,
        f64::MAX - 2.0,
        f64::MAX - 5.0,
        f64::MAX - 6.0,
        f64::MAX - 8.0,
        f64::MAX - 1.0,
    ]);
    let period = 3;
    match rsi(&Ieee, &data, period) {
        Ok(result) => {
            let result: RsiResult = result;
            assert!(
                floats(&result.values).iter().skip(period).all(|v| v.is_finite()),
                "Expected all values to be finite"
            );
        }
        Err(TechalibError::Overflow(_, _)) => {}
        Err(e) => panic!("Expected Ok(_) or Overflow, but got: {:?}", e),
    }
}

#[test]
fn tests_rsi_next_with_finite_neg_extreme_err_overflow_or_ok_all_finite() {
    let data = series(&[5.0, 10.0, 30.0, 3.0, 5.0, 6.0, 8.0]);
    let period = 3;
    let result = rsi(&Ieee, &data, period).unwrap();
    let mut state = result.state;
    match state.update(&Ieee, f(f64::MIN + 5.0)) {
        Ok(_) => {
            assert!(v(state.rsi).is_finite(), "Expected all values to be finite");
        }
        Err(TechalibError::Overflow(_, _)) => {}
        Err(e) => panic!("Expected Ok(_) or Overflow, but got: {:?}", e),
    }
}

#[test]
fn tests_rsi_different_length_input_output_err() {
    let input = series(&[1.0, 2.0, 3.0, 4.0, 5.0]);
    let mut output = series(&[0.0; 3]);
    let period = 3;
    let result = rsi_into(&Ieee, &input, period, output.as_mut_slice());
    assert!(result.is_err());
    assert!(matches!(result, Err(TechalibError::BadParam(_))));
}

#[test]
fn rsi_stays_between_0_and_100() {
    for (len, period, seed) in [(3usize, 2usize, 1u64), (40, 7, 2), (99, 49, 3), (60, 14, 4)] {
        let data: Vec<f64> = noise(len, seed).iter().map(|x| (x - 100.0) * 20.0).collect();
        let values = rsi_values(&data, period);
        assert_eq!(values.len(), data.len());
        for (i, value) in values.iter().enumerate() {
            if i < period {
                assert!(value.is_nan());
            } else {
                assert!((0.0..=100.0).contains(value));
            }
        }
    }
}

#[test]
fn rsi_of_extreme_swings_is_an_overflow_not_a_data_fault() {
    let data = series(&[f64::MAX, f64::MIN, f64::MAX, f64::MIN]);
    match rsi(&Ieee, &data, 2) {
        Err(TechalibError::Overflow(index, value)) => {
            assert_eq!(index, 1);
            assert!(v(value).is_infinite());
        }
        other => panic!("unexpected: {:?}", other),
    }
}

#[test]
fn rsi_of_a_prefix_is_a_prefix_of_the_rsi() {
    let data = series(&noise(50, 75));
    let whole = rsi(&Ieee, &data, 6).unwrap().values;
    for k in 7..=50 {
        let part = rsi(&Ieee, &data[..k], 6).unwrap().values;
        assert!(same_bits(&part, &whole[..k]));
    }
}

#[test]
fn rsi_update_continues_the_batch() {
    let data = series(&noise(40, 76));
    for k in 6..40 {
        let mut state = rsi(&Ieee, &data[..k], 5).unwrap().state;
        state.update(&Ieee, data[k]).unwrap();
        let longer = rsi(&Ieee, &data[..k + 1], 5).unwrap();
        assert_eq!(state.rsi.bits, longer.values[k].bits);
        assert_eq!(state.avg_gain.bits, longer.state.avg_gain.bits);
        assert_eq!(state.avg_loss.bits, longer.state.avg_loss.bits);
        assert_eq!(state.prev_value.bits, data[k].bits);
    }
}

#[test]
fn rsi_update_refuses_in_order_and_keeps_the_state() {
    let mut state = RsiState {
        rsi: f(50.0),
        prev_value: f(10.0),
        avg_gain: f(1.0),
        avg_loss: f(1.0),
        period: 1,
    };
    assert!(matches!(state.update(&Ieee, f(f64::NAN)), Err(TechalibError::BadParam(_))));
    state.period = 2;
    assert!(matches!(state.update(&Ieee, f(f64::NAN)), Err(TechalibError::DataNonFinite(_))));
    state.prev_value = f(f64::NAN);
    assert!(matches!(state.update(&Ieee, f(1.0)), Err(TechalibError::DataNonFinite(_))));
    state.prev_value = f(10.0);
    state.avg_gain = f(f64::INFINITY);
    assert!(matches!(state.update(&Ieee, f(1.0)), Err(TechalibError::DataNonFinite(_))));
    state.avg_gain = f(1.0);
    state.avg_loss = f(f64::NAN);
    assert!(matches!(state.update(&Ieee, f(1.0)), Err(TechalibError::DataNonFinite(_))));
    state.avg_loss = f(1.0);
    state.prev_value = f(f64::MAX);
    assert!(matches!(state.update(&Ieee, f(f64::MIN)), Err(TechalibError::Overflow(0, _))));
    assert_eq!(v(state.prev_value), f64::MAX);
    state.prev_value = f(10.0);
    state.update(&Ieee, f(12.0)).unwrap();
    assert_eq!(v(state.avg_gain), 1.5);
    assert_eq!(v(state.avg_loss), 0.5);
    assert_eq!(v(state.rsi), 75.0);
    assert_eq!(v(state.prev_value), 12.0);
}

#[test]
fn rsi_of_the_averages() {
    assert_eq!(v(calculate_rsi(&Ieee, f(0.0), f(0.0))), 50.0);
    assert_eq!(v(calculate_rsi(&Ieee, f(-0.0), f(-0.0))), 50.0);
    assert_eq!(v(calculate_rsi(&Ieee, f(2.0), f(0.0))), 100.0);
    assert_eq!(v(calculate_rsi(&Ieee, f(0.0), f(2.0))), 0.0);
    assert_eq!(v(calculate_rsi(&Ieee, f(3.0), f(1.0))), 75.0);
    let step = rsi_next_unchecked(&Ieee, f(-2.0), f(1.0), f(1.0), f(2.0));
    assert_eq!((v(step.1), v(step.2)), (0.5, 1.5));
    assert_eq!(v(step.0), 25.0);
    let step = rsi_next_unchecked(&Ieee, f(0.0), f(1.0), f(3.0), f(2.0));
    assert_eq!((v(step.0), v(step.1), v(step.2)), (25.0, 0.5, 1.5));
}
