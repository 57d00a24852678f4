use std::num::FpCategory;
use techalib::arith::Arith;
use techalib::errors::TechalibError;
use techalib::float::Float;
use techalib::indicators::midpoint::{
    extrema_of, lookback_from_period, midpoint, midpoint_into, minmax, MidpointResult,
    MidpointState,
};
use techalib::traits::State;

struct Ieee;

impl Arith for Ieee {
    fn add(&self, x: Float, y: Float) -> Float {
        f(v(x) + v(y))
    }

    fn sub(&self, x: Float, y: Float) -> Float {
        f(v(x) - v(y))
    }

    fn mul(&self, x: Float, y: Float) -> Float {
        f(v(x) * v(y))
    }

    fn div(&self, x: Float, y: Float) -> Float {
        f(v(x) / v(y))
    }

    fn sqrt(&self, x: Float) -> Float {
        f(v(x).sqrt())
    }

    fn count(&self, n: usize) -> Float {
        f(n as f64)
    }
}

fn f(x: f64) -> Float {
    Float::from_bits(x.to_bits())
}

fn v(x: Float) -> f64 {
    f64::from_bits(x.to_bits())
}

#[allow(dead_code)]
fn series(values: &[f64]) -> Vec<Float> {
    values.iter().map(|x| f(*x)).collect()
}

#[allow(dead_code)]
fn floats(values: &[Float]) -> Vec<f64> {
    values.iter().map(|x| v(*x)).collect()
}

#[allow(dead_code)]
fn ulp_at(x: f64) -> f64 {
    match x.classify() {
        FpCategory::Nan | FpCategory::Infinite => f64::NAN,
        _ => {
            let next = f64::from_bits(x.to_bits() + 1);
            next - x
        }
    }
}

#[allow(dead_code)]
fn approx_eq_float(a: f64, b: f64, eps_factor: f64) -> bool {
    let ulp_step = ulp_at(b);
    let min_tol: f64 = (1e-1_f64).max(ulp_step);
    let diff = (a - b).abs();
    let relative_tol = (eps_factor * b.abs().max(1.0)).min(min_tol);
    diff < relative_tol
}

#[allow(dead_code)]
fn assert_vec_float_eq(expected: &[f64], got: &[f64], epsilon: f64) {
    for (i, (x, y)) in expected.iter().zip(got.iter()).enumerate() {
        if x.is_nan() && y.is_nan() {
            continue;
        }
        assert!(
            approx_eq_float(*x, *y, epsilon),
            "[{i}] Expected: {}, got: {} (epsilon: {})",
            x,
            y,
            epsilon
        );
    }
}

#[allow(dead_code)]
fn assert_vec_eq_gen_data(expected: &[f64], got: &[f64]) {
    assert_eq!(expected.len(), got.len());
    assert_vec_float_eq(expected, got, 1e-8);
}

#[allow(dead_code)]
fn assert_vec_close(expected: &[f64], got: &[f64]) {
    assert_eq!(expected.len(), got.len());
    assert_vec_float_eq(expected, got, 1e-9);
}

#[allow(dead_code)]
fn same_bits(a: &[Float], b: &[Float]) -> bool {
    a.len() == b.len() && a.iter().zip(b.iter()).all(|(x, y)| x.bits == y.bits)
}

#[allow(dead_code)]
fn noise(len: usize, seed: u64) -> Vec<f64> {
    let mut state = seed;
    let mut out = Vec::with_capacity(len);
    for _ in 0..len {
        state = state
            .wrapping_mul(6364136223846793005)
            .wrapping_add(1442695040888963407);
        let unit = (state >> 11) as f64 / (1u64 << 53) as f64;
        out.push(50.0 + 100.0 * unit);
    }
    out
}

#[test]
fn tests_midpoint_finite_extreme_err_overflow_or_ok_all_finite() {
    let data = series(&[
        f64::MAX - 3.0,
        f64::MAX - 2.0,
        f64::MAX - 5.0,
        f64::MAX - 6.0,
        f64::MAX - 8.0,
        f64::MAX - 1.0,
    ]);
    let period = 3;
    match midpoint(&Ieee, &data, period) {
        Ok(result) => {
            let result: MidpointResult = result;
            assert!(
                floats(&result.values).iter().skip(period).all(|v| v.is_finite()),
                "Expected all values to be finite"
            );
        }
        Err(TechalibError::Overflow(_, _)) => {}
        Err(e) => panic!("Expected Ok(_) or Overflow, but got: {:?}", e),
    }
}

#[test]
fn tests_midpoint_next_with_finite_neg_extreme_err_overflow_or_ok_all_finite() {
    let data = series(&[5.0, 10.0, 30.0, 3.0, 5.0, 6.0, 8.0]);
    let period = 3;
    let result = midpoint(&Ieee, &data, period).unwrap();
    let mut state = result.state;
    match state.update(&Ieee, f(f64::MIN + 5.0)) {
        Ok(_) => {
            assert!(v(state.midpoint).is_finite(), "Expected all values to be finite");
        }
        Err(TechalibError::Overflow(_, _)) => {}
        Err(e) => panic!("Expected Ok(_) or Overflow, but got: {:?}", e),
    }
}

#[test]
fn tests_midpoint_unexpected_nan_err() {
    let data = series(&[1.0, 2.0, 3.0, f64::NAN, 1.0, 2.0, 3.0]);
    let period = 3;
    let result = midpoint(&Ieee, &data, period);
    assert!(
        result.is_err(),
        "Expected an error for NaN data, got: {:?}",
        result
    );
    assert!(matches!(result, Err(TechalibError::DataNonFinite(_))));
}

#[test]
fn tests_midpoint_non_finite_err() {
    let data = series(&[1.0, 2.0, f64::INFINITY, 1.0, 2.0, 3.0]);
    let period = 3;
    let result = midpoint(&Ieee, &data, period);
    assert!(
        result.is_err(),
        "Expected an error for non-finite data, got: {:?}",
        result
    );
    assert!(matches!(result, Err(TechalibError::DataNonFinite(_))));
}

#[test]
fn tests_midpoint_empty_input_err() {
    let data: [Float; 0] = [];
    let period = 14;
    let result = midpoint(&Ieee, &data, period);
    assert!(result.is_err());
    assert!(matches!(result, Err(TechalibError::InsufficientData)));
}

#[test]
fn tests_midpoint_different_length_input_output_err() {
    let input = series(&[1.0, 2.0, 3.0, 4.0, 5.0]);
    let mut output = series(&[0.0; 3]);
    let period = 3;
    let result = midpoint_into(&Ieee, &input, period, output.as_mut_slice());
    assert!(result.is_err());
    assert!(matches!(result, Err(TechalibError::BadParam(_))));
}

#[test]
fn midpoint_is_the_middle_of_the_highest_and_the_lowest() {
    let data = [5.0, 10.0, 30.0, 3.0, -5.0, 6.0, 8.0, 8.0];
    let result = midpoint(&Ieee, &series(&data), 3).unwrap();
    let values = floats(&result.values);
    assert!(values[0].is_nan() && values[1].is_nan());
    assert_eq!(&values[2..], &[17.5, 16.5, 12.5, 0.5, 1.5, 7.0]);
    assert_eq!(v(result.state.midpoint), 7.0);
    let window: Vec<f64> = result.state.last_window.iter().map(|x| v(*x)).collect();
    assert_eq!(window, vec![6.0, 8.0, 8.0]);
    let ends = extrema_of(&series(&data), 2, 4);
    assert_eq!((v(ends.0), v(ends.1)), (30.0, -5.0));
}

#[test]
fn midpoint_follows_its_definition() {
    for (len, period, seed) in [(2usize, 2usize, 1u64), (40, 7, 2), (90, 14, 3)] {
        let input: Vec<f64> = noise(len, seed).iter().map(|x| x - 100.0).collect();
        let out = floats(&midpoint(&Ieee, &series(&input), period).unwrap().values);
        for i in 0..len {
            if i + 1 < period {
                assert!(out[i].is_nan());
            } else {
                let window = &input[i + 1 - period..=i];
                let max = window.iter().cloned().fold(f64::MIN, f64::max);
                let min = window.iter().cloned().fold(f64::MAX, f64::min);
                assert_eq!(out[i], (max + min) * 0.5);
            }
        }
    }
}

#[test]
fn midpoint_of_a_prefix_is_a_prefix_of_the_midpoint() {
    let data = series(&noise(50, 95));
    let whole = midpoint(&Ieee, &data, 6).unwrap().values;
    for k in 6..=50 {
        let part = midpoint(&Ieee, &data[..k], 6).unwrap().values;
        assert!(same_bits(&part, &whole[..k]));
    }
}

#[test]
fn midpoint_update_continues_the_batch() {
    let data = series(&noise(40, 96));
    for k in 5..40 {
        let mut state = midpoint(&Ieee, &data[..k], 5).unwrap().state;
        state.update(&Ieee, data[k]).unwrap();
        let longer = midpoint(&Ieee, &data[..k + 1], 5).unwrap();
        assert_eq!(state.midpoint.bits, longer.values[k].bits);
        let a: Vec<u64> = state.last_window.iter().map(|x| x.bits).collect();
        let b: Vec<u64> = longer.state.last_window.iter().map(|x| x.bits).collect();
        assert_eq!(a, b);
    }
}

#[test]
fn midpoint_update_refuses_in_order_and_keeps_the_state() {
    let mut state = MidpointState {
        midpoint: f(2.0),
        last_window: series(&[1.0, 2.0, 3.0]).into_iter().collect(),
        period: 1,
    };
    assert!(matches!(state.update(&Ieee, f(f64::NAN)), Err(TechalibError::BadParam(_))));
    assert!(matches!(state.update(&Ieee, f(1.0)), Err(TechalibError::BadParam(_))));
    state.period = 4;
    assert!(matches!(state.update(&Ieee, f(1.0)), Err(TechalibError::BadParam(_))));
    assert!(matches!(state.update(&Ieee, f(f64::NAN)), Err(TechalibError::BadParam(_))));
    state.period = 3;
    assert!(matches!(state.update(&Ieee, f(f64::NAN)), Err(TechalibError::DataNonFinite(_))));
    state.last_window[2] = f(f64::INFINITY);
    assert!(matches!(state.update(&Ieee, f(1.0)), Err(TechalibError::DataNonFinite(_))));
    state.last_window[1] = f(f64::MAX);
    state.last_window[2] = f(f64::MAX);
    assert!(matches!(state.update(&Ieee, f(f64::MAX)), Err(TechalibError::Overflow(0, _))));
    assert_eq!(v(state.last_window[0]), 1.0);
    assert_eq!(v(state.midpoint), 2.0);
    state.last_window[1] = f(2.0);
    state.last_window[2] = f(3.0);
    state.update(&Ieee, f(7.0)).unwrap();
    assert_eq!(v(state.midpoint), 4.5);
}

#[test]
fn midpoint_lookback_and_picks() {
    assert_eq!(lookback_from_period(14).unwrap(), 13);
    assert_eq!(lookback_from_period(2).unwrap(), 1);
    assert!(matches!(lookback_from_period(1), Err(TechalibError::BadParam(_))));
    assert!(matches!(lookback_from_period(0), Err(TechalibError::BadParam(_))));
    let picked = minmax(f(1.0), f(5.0), f(2.0));
    assert_eq!((v(picked.0), v(picked.1)), (5.0, 1.0));
    let picked = minmax(f(9.0), f(5.0), f(2.0));
    assert_eq!((v(picked.0), v(picked.1)), (9.0, 2.0));
    let picked = minmax(f(3.0), f(5.0), f(2.0));
    assert_eq!((v(picked.0), v(picked.1)), (5.0, 2.0));
    assert!(matches!(
        midpoint(&Ieee, &series(&[1.0, 2.0]), 1),
        Err(TechalibError::BadParam(_))
    ));
}
