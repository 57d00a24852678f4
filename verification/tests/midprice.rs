use std::num::FpCategory;
use techalib::arith::Arith;
use techalib::errors::TechalibError;
use techalib::float::Float;
use techalib::indicators::midprice::{
    lookback_from_period, midprice, midprice_into, minmax, MidpriceResult, MidpriceSample,
    MidpriceState,
};
use techalib::traits::State;

struct Ieee;

impl Arith for Ieee {
    fn add(&self, x: Float, y: Float) -> Float {
        f(v(x) + v(y))
    }

    fn sub(&self, x: Float, y: Float) -> Float {
        f(v(x) - v(y))
    }

    fn mul(&self, x: Float, y: Float) -> Float {
        f(v(x) * v(y))
    }

    fn div(&self, x: Float, y: Float) -> Float {
        f(v(x) / v(y))
    }

    fn sqrt(&self, x: Float) -> Float {
        f(v(x).sqrt())
    }

    fn count(&self, n: usize) -> Float {
        f(n as f64)
    }
}

fn f(x: f64) -> Float {
    Float::from_bits(x.to_bits())
}

fn v(x: Float) -> f64 {
    f64::from_bits(x.to_bits())
}

#[allow(dead_code)]
fn series(values: &[f64]) -> Vec<Float> {
    values.iter().map(|x| f(*x)).collect()
}

#[allow(dead_code)]
fn floats(values: &[Float]) -> Vec<f64> {
    values.iter().map(|x| v(*x)).collect()
}

#[allow(dead_code)]
fn ulp_at(x: f64) -> f64 {
    match x.classify() {
        FpCategory::Nan | FpCategory::Infinite => f64::NAN,
        _ => {
            let next = f64::from_bits(x.to_bits() + 1);
            next - x
        }
    }
}

#[allow(dead_code)]
fn approx_eq_float(a: f64, b: f64, eps_factor: f64) -> bool {
    let ulp_step = ulp_at(b);
    let min_tol: f64 = (1e-1_f64).max(ulp_step);
    let diff = (a - b).abs();
    let relative_tol = (eps_factor * b.abs().max(1.0)).min(min_tol);
    diff < relative_tol
}

#[allow(dead_code)]
fn assert_vec_float_eq(expected: &[f64], got: &[f64], epsilon: f64) {
    for (i, (x, y)) in expected.iter().zip(got.iter()).enumerate() {
        if x.is_nan() && y.is_nan() {
            continue;
        }
        assert!(
            approx_eq_float(*x, *y, epsilon),
            "[{i}] Expected: {}, got: {} (epsilon: {})",
            x,
            y,
            epsilon
        );
    }
}

#[allow(dead_code)]
fn assert_vec_eq_gen_data(expected: &[f64], got: &[f64]) {
    assert_eq!(expected.len(), got.len());
    assert_vec_float_eq(expected, got, 1e-8);
}

#[allow(dead_code)]
fn assert_vec_close(expected: &[f64], got: &[f64]) {
    assert_eq!(expected.len(), got.len());
    assert_vec_float_eq(expected, got, 1e-9);
}

#[allow(dead_code)]
fn same_bits(a: &[Float], b: &[Float]) -> bool {
    a.len() == b.len() && a.iter().zip(b.iter()).all(|(x, y)| x.bits == y.bits)
}

#[allow(dead_code)]
fn noise(len: usize, seed: u64) -> Vec<f64> {
    let mut state = seed;
    let mut out = Vec::with_capacity(len);
    for _ in 0..len {
        state = state
            .wrapping_mul(6364136223846793005)
            .wrapping_add(1442695040888963407);
        let unit = (state >> 11) as f64 / (1u64 << 53) as f64;
        out.push(50.0 + 100.0 * unit);
    }
    out
}

#[test]
fn tests_midprice_finite_extreme_err_overflow_or_ok_all_finite() {
    let high_prices = series(&[
        f64::MAX - 3.0,
        f64::MAX - 2.0,
        f64::MAX - 5.0,
        f64::MAX - 6.0,
        f64::MAX - 8.0,
        f64::MAX - 1.0,
    ]);
    let low_prices = series(&[
        f64::MAX - 5.0,
        f64::MAX - 9.0,
        f64::MAX - 9.0,
        f64::MAX - 8.0,
        f64::MAX - 10.0,
        f64::MAX - 11.0,
    ]);
    let period = 3;
    match midprice(&Ieee, &high_prices, &low_prices, period) {
        Ok(result) => {
            let result: MidpriceResult = result;
            assert!(
                floats(&result.values).iter().skip(period).all(|v| v.is_finite()),
                "Expected all values to be finite"
            );
        }
        Err(TechalibError::Overflow(_, _)) => {}
        Err(e) => panic!("Expected Ok(_) or Overflow, but got: {:?}", e),
    }
}

#[test]
fn tests_midprice_next_with_finite_neg_extreme_err_overflow_or_ok_all_finite() {
    let high_prices = series(&[5.0, 10.0, 30.0, 3.0, 5.0, 6.0, 8.0]);
    let low_prices = series(&[3.0, 8.0, 25.0, 1.0, 3.5, 3.5, 4.0]);
    let period = 3;
    let result = midprice(&Ieee, &high_prices, &low_prices, period).unwrap();
    let mut state = result.state;
    let midprice_sample = MidpriceSample {
        high: f(f64::MIN + 50.0),
        low: f(f64::MIN + 1.0),
    };
    match state.update(&Ieee, &midprice_sample) {
        Ok(_) => {
            assert!(v(state.midprice).is_finite(), "Expected all values to be finite");
        }
        Err(TechalibError::Overflow(_, _)) => {}
        Err(e) => panic!("Expected Ok(_) or Overflow, but got: {:?}", e),
    }
}

#[test]
fn tests_midprice_unexpected_nan_err() {
    let high_prices = series(&[1.0, 2.0, 3.0, f64::NAN, 1.0, 2.0, 3.0]);
    let low_prices = series(&[1.0, 2.0, 3.0, f64::NAN, 1.0, 2.0, 3.0]);
    let period = 3;
    let result = midprice(&Ieee, &high_prices, &low_prices, period);
    assert!(result.is_err());
    assert!(matches!(result, Err(TechalibError::DataNonFinite(_))));
}

#[test]
fn tests_midprice_non_finite_err() {
    let high_prices = series(&[1.0, 2.0, f64::INFINITY, 1.0, 2.0, 3.0]);
    let low_prices = series(&[1.0, 2.0, f64::INFINITY, 1.0, 2.0, 3.0]);
    let period = 3;
    let result = midprice(&Ieee, &high_prices, &low_prices, period);
    assert!(
        result.is_err(),
        "Expected an error for non-finite data, got: {:?}",
        result
    );
    assert!(matches!(result, Err(TechalibError::DataNonFinite(_))));
}

#[test]
fn tests_midprice_empty_input_err() {
    let high_prices: [Float; 0] = [];
    let low_prices: [Float; 0] = [];
    let period = 14;
    let result = midprice(&Ieee, &high_prices, &low_prices, period);
    assert!(result.is_err());
    assert!(matches!(result, Err(TechalibError::InsufficientData)));
}

#[test]
fn different_length_err() {
    let high_prices = series(&[1.0, 2.0, 3.0]);
    let low_prices = series(&[1.0, 2.0, 3.0, 4.0, 5.0]);
    let period = 2;
    let result = midprice(&Ieee, &high_prices, &low_prices, period);
    assert!(result.is_err());
    assert!(matches!(result, Err(TechalibError::BadParam(_))));
}

#[test]
fn midprice_is_the_middle_of_the_highest_high_and_the_lowest_low() {
    let highs = [5.0, 10.0, 30.0, 3.0, 5.0, 6.0, 8.0];
    let lows = [3.0, 8.0, 25.0, 1.0, 3.5, 3.5, 4.0];
    let result = midprice(&Ieee, &series(&highs), &series(&lows), 3).unwrap();
    let values = floats(&result.values);
    assert!(values[0].is_nan() && values[1].is_nan());
    assert_eq!(&values[2..], &[16.5, 15.5, 15.5, 3.5, 5.75]);
    assert_eq!(v(result.state.midprice), 5.75);
    let high_window: Vec<f64> = result.state.last_high_window.iter().map(|x| v(*x)).collect();
    let low_window: Vec<f64> = result.state.last_low_window.iter().map(|x| v(*x)).collect();
    assert_eq!(high_window, vec![5.0, 6.0, 8.0]);
    assert_eq!(low_window, vec![3.5, 3.5, 4.0]);
}

#[test]
fn midprice_of_a_prefix_is_a_prefix_of_the_midprice() {
    let highs = series(&noise(50, 105));
    let lows: Vec<Float> = noise(50, 105).iter().map(|x| f(x - 7.0)).collect();
    let whole = midprice(&Ieee, &highs, &lows, 6).unwrap().values;
    for k in 6..=50 {
        let part = midprice(&Ieee, &highs[..k], &lows[..k], 6).unwrap().values;
        assert!(same_bits(&part, &whole[..k]));
    }
}

#[test]
fn midprice_update_continues_the_batch() {
    let highs = series(&noise(40, 106));
    let lows: Vec<Float> = noise(40, 107).iter().map(|x| f(x - 60.0)).collect();
    for k in 5..40 {
        let mut state = midprice(&Ieee, &highs[..k], &lows[..k], 5).unwrap().state;
        state
            .update(&Ieee, &MidpriceSample { high: highs[k], low: lows[k] })
            .unwrap();
        let longer = midprice(&Ieee, &highs[..k + 1], &lows[..k + 1], 5).unwrap();
        assert_eq!(state.midprice.bits, longer.values[k].bits);
        let a: Vec<u64> = state.last_high_window.iter().map(|x| x.bits).collect();
        let b: Vec<u64> = longer.state.last_high_window.iter().map(|x| x.bits).collect();
        assert_eq!(a, b);
        let a: Vec<u64> = state.last_low_window.iter().map(|x| x.bits).collect();
        let b: Vec<u64> = longer.state.last_low_window.iter().map(|x| x.bits).collect();
        assert_eq!(a, b);
    }
}

#[test]
fn midprice_update_refuses_in_order_and_keeps_the_state() {
    let fresh = || MidpriceState {
        midprice: f(2.0),
        last_high_window: series(&[2.0, 3.0, 4.0]).into_iter().collect(),
        last_low_window: series(&[1.0, 2.0, 3.0]).into_iter().collect(),
        period: 3,
    };
    let sample = |high: f64, low: f64| MidpriceSample { high: f(high), low: f(low) };
    let mut state = fresh();
    assert!(matches!(
        state.update(&Ieee, &sample(f64::NAN, 1.0)),
        Err(TechalibError::DataNonFinite(_))
    ));
    assert!(matches!(
        state.update(&Ieee, &sample(1.0, f64::INFINITY)),
        Err(TechalibError::DataNonFinite(_))
    ));
    state.period = 1;
    assert!(matches!(state.update(&Ieee, &sample(2.0, 1.0)), Err(TechalibError::BadParam(_))));
    assert!(matches!(
        state.update(&Ieee, &sample(f64::NAN, 1.0)),
        Err(TechalibError::BadParam(_))
    ));
    let mut state = fresh();
    state.last_high_window.pop_front();
    assert!(matches!(state.update(&Ieee, &sample(2.0, 1.0)), Err(TechalibError::BadParam(_))));
    assert!(matches!(
        state.update(&Ieee, &sample(2.0, f64::NAN)),
        Err(TechalibError::BadParam(_))
    ));
    let mut state = fresh();
    state.last_low_window.push_back(f(1.0));
    assert!(matches!(state.update(&Ieee, &sample(2.0, 1.0)), Err(TechalibError::BadParam(_))));
    let mut state = fresh();
    state.last_high_window[1] = f(f64::NAN);
    assert!(matches!(
        state.update(&Ieee, &sample(2.0, 1.0)),
        Err(TechalibError::DataNonFinite(_))
    ));
    let mut state = fresh();
    state.last_low_window[1] = f(f64::NAN);
    assert!(matches!(
        state.update(&Ieee, &sample(2.0, 1.0)),
        Err(TechalibError::DataNonFinite(_))
    ));
    let mut state = fresh();
    state.last_low_window[1] = f(f64::MAX);
    state.last_low_window[2] = f(f64::MAX);
    assert!(matches!(
        state.update(&Ieee, &sample(f64::MAX, f64::MAX)),
        Err(TechalibError::Overflow(0, _))
    ));
    assert_eq!(v(state.last_high_window[0]), 2.0);
    let mut state = fresh();
    state.update(&Ieee, &sample(10.0, 0.0)).unwrap();
    assert_eq!(v(state.midprice), 5.0);
}

#[test]
fn midprice_into_and_lookback() {
    let highs = series(&[5.0, 10.0, 30.0, 3.0]);
    let lows = series(&[3.0, 8.0, 25.0, 1.0]);
    let mut output = series(&[0.0; 3]);
    let result = midprice_into(&Ieee, &highs, &lows, 3, output.as_mut_slice());
    assert!(matches!(result, Err(TechalibError::BadParam(_))));
    let mut output = series(&[0.0; 4]);
    let state = midprice_into(&Ieee, &highs, &lows, 3, output.as_mut_slice()).unwrap();
    assert_eq!(v(output[2]), 16.5);
    assert_eq!(state.midprice.bits, output[3].bits);
    assert_eq!(lookback_from_period(14).unwrap(), 13);
    assert!(matches!(lookback_from_period(1), Err(TechalibError::BadParam(_))));
    let picked = minmax(f(9.0), f(1.0), f(5.0), f(2.0));
    assert_eq!((v(picked.0), v(picked.1)), (9.0, 1.0));
    let picked = minmax(f(4.0), f(3.0), f(5.0), f(2.0));
    assert_eq!((v(picked.0), v(picked.1)), (5.0, 2.0));
    assert!(matches!(
        midprice(&Ieee, &highs, &lows, 1),
        Err(TechalibError::BadParam(_))
    ));
    let odd = series(&[5.0, f64::NAN, 30.0, 3.0]);
    assert!(matches!(
        midprice(&Ieee, &highs, &odd, 3),
        Err(TechalibError::DataNonFinite(_))
    ));
}
