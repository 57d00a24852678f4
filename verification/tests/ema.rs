use std::num::FpCategory;
use techalib::arith::Arith;
use techalib::errors::TechalibError;
use techalib::float::Float;
use techalib::indicators::ema::{
    ema, ema_into, ema_next_unchecked, get_alpha_value, period_to_alpha, EmaResult, EmaState,
};
use techalib::traits::State;

struct Ieee;

impl Arith for Ieee {
    fn add(&self, x: Float, y: Float) -> Float {
        f(v(x) + v(y))
    }

    fn sub(&self, x: Float, y: Float) -> Float {
        f(v(x) - v(y))
    }

    fn mul(&self, x: Float, y: Float) -> Float {
        f(v(x) * v(y))
    }

    fn div(&self, x: Float, y: Float) -> Float {
        f(v(x) / v(y))
    }

    fn sqrt(&self, x: Float) -> Float {
        f(v(x).sqrt())
    }

    fn count(&self, n: usize) -> Float {
        f(n as f64)
    }
}

fn f(x: f64) -> Float {
    Float::from_bits(x.to_bits())
}

fn v(x: Float) -> f64 {
    f64::from_bits(x.to_bits())
}

#[allow(dead_code)]
fn series(values: &[f64]) -> Vec<Float> {
    values.iter().map(|x| f(*x)).collect()
}

#[allow(dead_code)]
fn floats(values: &[Float]) -> Vec<f64> {
    values.iter().map(|x| v(*x)).collect()
}

#[allow(dead_code)]
fn ulp_at(x: f64) -> f64 {
    match x.classify() {
        FpCategory::Nan | FpCategory::Infinite => f64::NAN,
        _ => {
            let next = f64::from_bits(x.to_bits() + 1);
            next - x
        }
    }
}

#[allow(dead_code)]
fn approx_eq_float(a: f64, b: f64, eps_factor: f64) -> bool {
    let ulp_step = ulp_at(b);
    let min_tol: f64 = (1e-1_f64).max(ulp_step);
    let diff = (a - b).abs();
    let relative_tol = (eps_factor * b.abs().max(1.0)).min(min_tol);
    diff < relative_tol
}

#[allow(dead_code)]
fn assert_vec_float_eq(expected: &[f64], got: &[f64], epsilon: f64) {
    for (i, (x, y)) in expected.iter().zip(got.iter()).enumerate() {
        if x.is_nan() && y.is_nan() {
            continue;
        }
        assert!(
            approx_eq_float(*x, *y, epsilon),
            "[{i}] Expected: {}, got: {} (epsilon: {})",
            x,
            y,
            epsilon
        );
    }
}

#[allow(dead_code)]
fn assert_vec_eq_gen_data(expected: &[f64], got: &[f64]) {
    assert_eq!(expected.len(), got.len());
    assert_vec_float_eq(expected, got, 1e-8);
}

#[allow(dead_code)]
fn assert_vec_close(expected: &[f64], got: &[f64]) {
    assert_eq!(expected.len(), got.len());
    assert_vec_float_eq(expected, got, 1e-9);
}

#[allow(dead_code)]
fn same_bits(a: &[Float], b: &[Float]) -> bool {
    a.len() == b.len() && a.iter().zip(b.iter()).all(|(x, y)| x.bits == y.bits)
}

#[allow(dead_code)]
fn noise(len: usize, seed: u64) -> Vec<f64> {
    let mut state = seed;
    let mut out = Vec::with_capacity(len);
    for _ in 0..len {
        state = state
            .wrapping_mul(6364136223846793005)
            .wrapping_add(1442695040888963407);
        let unit = (state >> 11) as f64 / (1u64 << 53) as f64;
        out.push(50.0 + 100.0 * unit);
    }
    out
}

#[test]
fn tests_ema_invalid_period_lower_bound() {
    let data = series(&[1.0, 2.0, 3.0]);
    let result = ema(&Ieee, &data, 0, None);
    assert!(result.is_err());
    assert!(matches!(result, Err(TechalibError::BadParam(_))));
}

#[test]
fn tests_ema_period_higher_bound() {
    let data = series(&[1.0, 2.0, 3.0]);
    let result = ema(&Ieee, &data, 3, None);
    assert!(result.is_ok());
    let out = floats(&result.unwrap().values);
    assert!(out[2] == 2.0);
}

#[test]
fn tests_ema_unexpected_nan_err() {
    let data = series(&[1.0, 2.0, 3.0, f64::NAN]);
    let result = ema(&Ieee, &data, 3, None);
    assert!(result.is_err());
    assert!(matches!(result, Err(TechalibError::DataNonFinite(_))));
}

#[test]
fn tests_ema_non_finite_err() {
    let data = series(&[1.0, 2.0, 3.0, f64::INFINITY, 5.0, 6.0, 7.0]);
    let result = ema(&Ieee, &data, 3, None);
    assert!(result.is_err());
    assert!(matches!(result, Err(TechalibError::DataNonFinite(_))));
}

#[test]
fn tests_ema_insufficient_data_err() {
    let data = series(&[1.0, 2.0, 3.0]);
    let result = ema(&Ieee, &data, 4, None);
    assert!(matches!(result, Err(TechalibError::InsufficientData)));
}

#[test]
fn tests_ema_period_1() {
    let data = series(&[10.0, 11.0, 10.0, 10.0, 12.0]);
    let period = 1;
    let result = ema(&Ieee, &data, period, None);
    assert!(result.is_err());
    assert!(matches!(result, Err(TechalibError::BadParam(_))));
}

#[test]
fn tests_ema_test_period_to_alpha() {
    assert_eq!(v(period_to_alpha(&Ieee, 10, None).unwrap()), 0.18181818181818182);
    assert_eq!(
        v(period_to_alpha(&Ieee, 10, Some(f(2.0))).unwrap()),
        0.18181818181818182
    );
    assert!(period_to_alpha(&Ieee, 0, None).is_err());
    assert!(period_to_alpha(&Ieee, 10, Some(f(0.0))).is_err());
}

#[test]
fn ema_test_period_to_alpha() {
    assert_eq!(v(period_to_alpha(&Ieee, 10, None).unwrap()), 0.18181818181818182);
    assert_eq!(
        v(period_to_alpha(&Ieee, 10, Some(f(2.0))).unwrap()),
        0.18181818181818182
    );
    assert!(period_to_alpha(&Ieee, 0, None).is_err());
    assert!(period_to_alpha(&Ieee, 10, Some(f(0.0))).is_err());
}

#[test]
fn tests_ema_finite_extreme_err_overflow_or_ok_all_finite() {
    let data = series(&[
        f64::MAX - 3.0,
        f64::MAX - 2.0,
        f64::MAX - 5.0,
        f64::MAX - 6.0,
        f64::MAX - 8.0,
        f64::MAX - 1.0,
    ]);
    let period = 3;
    match ema(&Ieee, &data, period, None) {
        Ok(result) => {
            let result: EmaResult = result;
            assert!(
                floats(&result.values).iter().skip(period).all(|v| v.is_finite()),
                "Expected all values to be finite"
            );
        }
        Err(TechalibError::Overflow(_, _)) => {}
        Err(e) => panic!("Expected Ok(_) or Overflow, but got: {:?}", e),
    }
}

#[test]
fn tests_ema_next_with_finite_neg_extreme_err_overflow_or_ok_all_finite() {
    let data = series(&[5.0, 10.0, 30.0, 3.0, 5.0, 6.0, 8.0]);
    let period = 3;
    let result = ema(&Ieee, &data, period, None).unwrap();
    let mut state = result.state;
    match state.update(&Ieee, f(f64::MIN + 5.0)) {
        Ok(_) => {
            assert!(v(state.ema).is_finite(), "Expected all values to be finite");
        }
        Err(TechalibError::Overflow(_, _)) => {}
        Err(e) => panic!("Expected Ok(_) or Overflow, but got: {:?}", e),
    }
}

#[test]
fn tests_ema_different_length_input_output_err() {
    let input = series(&[1.0, 2.0, 3.0, 4.0, 5.0]);
    let mut output = series(&[0.0; 3]);
    let period = 3;
    let result = ema_into(&Ieee, &input, period, None, output.as_mut_slice());
    assert!(result.is_err());
    assert!(matches!(result, Err(TechalibError::BadParam(_))));
}

#[test]
fn ema_scales_with_the_input() {
    for (len, window, seed) in [(2usize, 2usize, 1u64), (40, 7, 2), (199, 49, 3)] {
        let input = noise(len, seed);
        let out = floats(&ema(&Ieee, &series(&input), window, None).unwrap().values);
        assert_eq!(out.len(), input.len());
        assert!(out[..window - 1].iter().all(|v| v.is_nan()));
        let k = 7.0;
        let scaled_input: Vec<f64> = input.iter().map(|v| v * k).collect();
        let scaled = floats(&ema(&Ieee, &series(&scaled_input), window, None).unwrap().values);
        for (orig, scaled) in out.iter().zip(&scaled) {
            if orig.is_nan() {
                assert!(scaled.is_nan());
            } else {
                assert!(approx_eq_float(*orig * k, *scaled, 1e-8));
            }
        }
    }
}

#[test]
fn ema_of_eight_samples_over_three() {
    let data = series(&[1.0, 2.0, 3.0, 4.0, 5.0, 3.0, 4.0, 2.0]);
    let result = ema(&Ieee, &data, 3, Some(period_to_alpha(&Ieee, 3, Some(f(2.0))).unwrap()))
        .unwrap();
    let values = floats(&result.values);
    assert!(values[0].is_nan());
    assert!(values[1].is_nan());
    assert_eq!(&values[2..], &[2.0, 3.0, 4.0, 3.5, 3.75, 2.875]);
    assert_eq!(v(result.state.alpha), 0.5);
    assert_eq!(v(result.state.ema), 2.875);
    assert_eq!(result.state.period, 3);
    let default = ema(&Ieee, &data, 3, None).unwrap();
    assert!(same_bits(&default.values, &result.values));
}

#[test]
fn ema_takes_the_weight_that_is_given() {
    let data = series(&[1.0, 2.0, 3.0, 7.0]);
    let result = ema(&Ieee, &data, 3, Some(f(0.25))).unwrap();
    assert_eq!(v(result.values[3]), 7.0 * 0.25 + 2.0 * 0.75);
    assert_eq!(v(get_alpha_value(&Ieee, Some(f(0.25)), 3).unwrap()), 0.25);
    assert_eq!(v(get_alpha_value(&Ieee, None, 3).unwrap()), 0.5);
    assert!(get_alpha_value(&Ieee, None, 0).is_err());
    assert!(period_to_alpha(&Ieee, 3, Some(f(-1.0))).is_err());
    assert_eq!(v(period_to_alpha(&Ieee, 3, Some(f(1.0))).unwrap()), 0.25);
    assert_eq!(v(ema_next_unchecked(&Ieee, f(8.0), f(4.0), f(0.25))), 5.0);
}

#[test]
fn ema_of_a_prefix_is_a_prefix_of_the_ema() {
    let data = series(&noise(60, 15));
    let whole = ema(&Ieee, &data, 7, None).unwrap().values;
    for k in 7..=60 {
        let part = ema(&Ieee, &data[..k], 7, None).unwrap().values;
        assert!(same_bits(&part, &whole[..k]));
    }
}

#[test]
fn ema_update_continues_the_batch() {
    let data = series(&noise(40, 16));
    for k in 5..40 {
        let mut state = ema(&Ieee, &data[..k], 5, None).unwrap().state;
        state.update(&Ieee, data[k]).unwrap();
        let longer = ema(&Ieee, &data[..k + 1], 5, None).unwrap();
        assert_eq!(state.ema.bits, longer.values[k].bits);
    }
}

#[test]
fn ema_update_refuses_in_order_and_keeps_the_state() {
    let mut state = EmaState { ema: f(2.0), period: 1, alpha: f(0.5) };
    assert!(matches!(state.update(&Ieee, f(f64::NAN)), Err(TechalibError::BadParam(_))));
    state.period = 3;
    assert!(matches!(state.update(&Ieee, f(f64::NAN)), Err(TechalibError::DataNonFinite(_))));
    state.ema = f(f64::NAN);
    assert!(matches!(state.update(&Ieee, f(1.0)), Err(TechalibError::DataNonFinite(_))));
    state.ema = f(2.0);
    state.alpha = f(f64::INFINITY);
    assert!(matches!(state.update(&Ieee, f(1.0)), Err(TechalibError::DataNonFinite(_))));
    state.alpha = f(-1.0);
    state.ema = f(f64::MAX);
    assert!(matches!(state.update(&Ieee, f(f64::MIN)), Err(TechalibError::Overflow(0, _))));
    assert_eq!(v(state.ema), f64::MAX);
    state.alpha = f(0.5);
    state.ema = f(2.0);
    state.update(&Ieee, f(4.0)).unwrap();
    assert_eq!(v(state.ema), 3.0);
}

#[test]
fn ema_reports_an_overflow_with_its_position() {
    let data = series(&[1.0, 1.0, f64::MAX, f64::MAX]);
    match ema(&Ieee, &data, 2, Some(f(2.0))) {
        Err(TechalibError::Overflow(index, value)) => {
            assert_eq!(index, 2);
            assert!(!v(value).is_finite());
        }
        other => panic!("unexpected: {:?}", other),
    }
}

#[test]
fn tests_ema_test_extremum_value_injection_without_panic() {
    let data = series(&[f64::MAX / 2.0, f64::MAX / 2.0, f64::MIN_POSITIVE, -0.0, 0.0]);
    let alpha = period_to_alpha(&Ieee, 2, Some(f(2.0))).unwrap();
    let out = floats(
        &ema(&Ieee, &data, 2, Some(alpha)).expect("sma must not error on finite extremes").values,
    );
    assert_eq!(out.len(), data.len());
    for (i, v) in out.iter().enumerate() {
        if i < 1 {
            assert!(v.is_nan());
        } else {
            assert!(v.is_finite(), "value at {i} is not finite: {v}");
        }
    }
}

#[test]
fn tests_ema_test_invalid_period_lower_bound() {
    let data = series(&[1.0, 2.0, 3.0]);
    let result = ema(&Ieee, &data, 0, Some(f(2.0)));
    assert!(result.is_err());
    if let Err(TechalibError::BadParam(msg)) = result {
        assert!(msg.contains("between 2 and 100000"));
    }
}

#[test]
fn tests_ema_test_period_higher_bound() {
    let data = series(&[1.0, 2.0, 3.0]);
    let alpha = period_to_alpha(&Ieee, 3, Some(f(2.0))).unwrap();
    let result = ema(&Ieee, &data, 3, Some(alpha));
    assert!(result.is_ok());
    let out = floats(&result.unwrap().values);
    assert!(out[2] == 2.0);
}

#[test]
fn tests_ema_test_insufficient_data() {
    let data = series(&[1.0, 2.0, 3.0]);
    let alpha = period_to_alpha(&Ieee, 4, Some(f(2.0))).unwrap();
    let result = ema(&Ieee, &data, 4, Some(alpha));
    assert!(matches!(result, Err(TechalibError::InsufficientData)));
}
