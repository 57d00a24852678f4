use std::num::FpCategory;
use techalib::arith::Arith;
use techalib::errors::TechalibError;
use techalib::float::Float;
use techalib::indicators::sma::{
    init_sma_unchecked, inverse_of_period, sma, sma_into, sma_next_unchecked, sma_seed, SmaResult,
    SmaState,
};
use techalib::traits::State;

struct Ieee;

impl Arith for Ieee {
    fn add(&self, x: Float, y: Float) -> Float {
        f(v(x) + v(y))
    }

    fn sub(&self, x: Float, y: Float) -> Float {
        f(v(x) - v(y))
    }

    fn mul(&self, x: Float, y: Float) -> Float {
        f(v(x) * v(y))
    }

    fn div(&self, x: Float, y: Float) -> Float {
        f(v(x) / v(y))
    }

    fn sqrt(&self, x: Float) -> Float {
        f(v(x).sqrt())
    }

    fn count(&self, n: usize) -> Float {
        f(n as f64)
    }
}

fn f(x: f64) -> Float {
    Float::from_bits(x.to_bits())
}

fn v(x: Float) -> f64 {
    f64::from_bits(x.to_bits())
}

#[allow(dead_code)]
fn series(values: &[f64]) -> Vec<Float> {
    values.iter().map(|x| f(*x)).collect()
}

#[allow(dead_code)]
fn floats(values: &[Float]) -> Vec<f64> {
    values.iter().map(|x| v(*x)).collect()
}

#[allow(dead_code)]
fn ulp_at(x: f64) -> f64 {
    match x.classify() {
        FpCategory::Nan | FpCategory::Infinite => f64::NAN,
        _ => {
            let next = f64::from_bits(x.to_bits() + 1);
            next - x
        }
    }
}

#[allow(dead_code)]
fn approx_eq_float(a: f64, b: f64, eps_factor: f64) -> bool {
    let ulp_step = ulp_at(b);
    let min_tol: f64 = (1e-1_f64).max(ulp_step);
    let diff = (a - b).abs();
    let relative_tol = (eps_factor * b.abs().max(1.0)).min(min_tol);
    diff < relative_tol
}

#[allow(dead_code)]
fn assert_vec_float_eq(expected: &[f64], got: &[f64], epsilon: f64) {
    for (i, (x, y)) in expected.iter().zip(got.iter()).enumerate() {
        if x.is_nan() && y.is_nan() {
            continue;
        }
        assert!(
            approx_eq_float(*x, *y, epsilon),
            "[{i}] Expected: {}, got: {} (epsilon: {})",
            x,
            y,
            epsilon
        );
    }
}

#[allow(dead_code)]
fn assert_vec_eq_gen_data(expected: &[f64], got: &[f64]) {
    assert_eq!(expected.len(), got.len());
    assert_vec_float_eq(expected, got, 1e-8);
}

#[allow(dead_code)]
fn assert_vec_close(expected: &[f64], got: &[f64]) {
    assert_eq!(expected.len(), got.len());
    assert_vec_float_eq(expected, got, 1e-9);
}

#[allow(dead_code)]
fn same_bits(a: &[Float], b: &[Float]) -> bool {
    a.len() == b.len() && a.iter().zip(b.iter()).all(|(x, y)| x.bits == y.bits)
}

#[allow(dead_code)]
fn noise(len: usize, seed: u64) -> Vec<f64> {
    let mut state = seed;
    let mut out = Vec::with_capacity(len);
    for _ in 0..len {
        state = state
            .wrapping_mul(6364136223846793005)
            .wrapping_add(1442695040888963407);
        let unit = (state >> 11) as f64 / (1u64 << 53) as f64;
        out.push(50.0 + 100.0 * unit);
    }
    out
}

#[test]
fn tests_sma_finite_extreme_err_overflow_or_ok_all_finite() {
    let data = series(&[
        f64::MAX - 3.0,
        f64::MAX - 2.0,
        f64::MAX - 5.0,
        f64::MAX - 6.0,
        f64::MAX - 8.0,
        f64::MAX - 1.0,
    ]);
    let period = 3;
    match sma(&Ieee, &data, period) {
        Ok(result) => {
            let result: SmaResult = result;
            assert!(
                floats(&result.values).iter().skip(period).all(|v| v.is_finite()),
                "Expected all values to be finite"
            );
        }
        Err(TechalibError::Overflow(_, _)) => {}
        Err(e) => panic!("Expected Ok(_) or Overflow, but got: {:?}", e),
    }
}

#[test]
fn tests_sma_next_with_finite_neg_extreme_err_overflow_or_ok_all_finite() {
    let data = series(&[5.0, 10.0, 30.0, 3.0, 5.0, 6.0, 8.0]);
    let period = 3;
    let result = sma(&Ieee, &data, period).unwrap();
    let mut state = result.state;
    match state.update(&Ieee, f(f64::MIN + 5.0)) {
        Ok(_) => {
            assert!(v(state.sma).is_finite(), "Expected all values to be finite");
        }
        Err(TechalibError::Overflow(_, _)) => {}
        Err(e) => panic!("Expected Ok(_) or Overflow, but got: {:?}", e),
    }
}

#[test]
fn tests_sma_invalid_period_lower_bound() {
    let data = series(&[1.0, 2.0, 3.0]);
    let result = sma(&Ieee, &data, 0);
    assert!(result.is_err());
    if let Err(TechalibError::BadParam(msg)) = result {
        assert!(msg.contains("between 2 and 100000"));
    }
}

#[test]
fn tests_sma_period_higher_bound() {
    let data = series(&[1.0, 2.0, 3.0]);
    let result = sma(&Ieee, &data, 3);
    assert!(result.is_ok());
    let out = floats(&result.unwrap().values);
    assert!(out[2] == 2.0);
}

#[test]
fn tests_sma_unexpected_nan_err() {
    let data = series(&[1.0, 2.0, 3.0, f64::NAN, 1.0, 2.0, 3.0]);
    let result = sma(&Ieee, &data, 3);
    assert!(result.is_err());
    assert!(matches!(result, Err(TechalibError::DataNonFinite(_))));
}

#[test]
fn tests_sma_non_finite_err() {
    let data = series(&[1.0, 2.0, f64::INFINITY, 1.0, 2.0, 3.0]);
    let result = sma(&Ieee, &data, 3);
    assert!(
        result.is_err(),
        "Expected an error for non-finite data, got: {:?}",
        result
    );
    assert!(matches!(result, Err(TechalibError::DataNonFinite(_))));
}

#[test]
fn tests_sma_insufficient_data_err() {
    let data = series(&[1.0, 2.0, 3.0]);
    let result = sma(&Ieee, &data, 4);
    assert!(matches!(result, Err(TechalibError::InsufficientData)));
}

#[test]
fn tests_sma_period_1() {
    let data = series(&[10.0, 11.0, 10.0, 10.0, 12.0]);
    let period = 1;
    let result = sma(&Ieee, &data, period);
    assert!(result.is_err());
    assert!(matches!(result, Err(TechalibError::BadParam(_))));
}

fn slow_sma(data: &[f64], window: usize) -> Vec<f64> {
    let mut out = vec![f64::NAN; data.len()];
    if window == 0 || window > data.len() {
        return out;
    }
    for i in window - 1..data.len() {
        let slice = &data[i + 1 - window..=i];
        out[i] = slice.iter().sum::<f64>() / window as f64;
    }
    out
}

#[test]
fn sma_follows_its_definition_and_scales_with_the_input() {
    for (len, window, seed) in [(2usize, 2usize, 1u64), (40, 7, 2), (199, 49, 3), (64, 64, 4)] {
        let input = noise(len, seed);
        let out = floats(&sma(&Ieee, &series(&input), window).unwrap().values);
        assert_eq!(out.len(), input.len());
        assert!(out[..window - 1].iter().all(|v| v.is_nan()));

        let slow = slow_sma(&input, window);
        for (o, expect) in out.iter().zip(slow) {
            if o.is_nan() || expect.is_nan() {
                assert!(o.is_nan() && expect.is_nan());
            } else {
                assert!(approx_eq_float(*o, expect, 1e-8));
            }
        }

        let k = 4.3;
        let scaled_input: Vec<f64> = input.iter().map(|v| v * k).collect();
        let scaled = floats(&sma(&Ieee, &series(&scaled_input), window).unwrap().values);
        for (o, scaled) in out.iter().zip(scaled) {
            if o.is_nan() {
                assert!(scaled.is_nan());
            } else {
                assert!(approx_eq_float(scaled, o * k, 1e-8));
            }
        }
    }
}

#[test]
fn sma_of_eight_samples_over_three() {
    let data = series(&[1.0, 2.0, 3.0, 4.0, 5.0, 3.0, 4.0, 2.0]);
    let result = sma(&Ieee, &data, 3).unwrap();
    let values = floats(&result.values);
    assert!(values[0].is_nan());
    assert!(values[1].is_nan());
    assert_eq!(&values[2..], &[2.0, 3.0, 4.0, 4.0, 4.0, 3.0]);
    assert_eq!(result.state.period, 3);
    assert_eq!(v(result.state.sma), 3.0);
    let window: Vec<f64> = result.state.last_window.iter().map(|x| v(*x)).collect();
    assert_eq!(window, vec![3.0, 4.0, 2.0]);
}

#[test]
fn sma_fills_the_lookback_with_the_quiet_nan() {
    let data = series(&noise(30, 9));
    let result = sma(&Ieee, &data, 10).unwrap();
    for i in 0..9 {
        assert_eq!(result.values[i].bits, 0x7ff8_0000_0000_0000);
    }
    assert!(v(result.values[9]).is_finite());
}

#[test]
fn sma_of_a_prefix_is_a_prefix_of_the_sma() {
    let data = series(&noise(60, 5));
    let whole = sma(&Ieee, &data, 7).unwrap().values;
    for k in 7..=60 {
        let part = sma(&Ieee, &data[..k], 7).unwrap().values;
        assert!(same_bits(&part, &whole[..k]));
    }
}

#[test]
fn sma_update_continues_the_batch() {
    let data = series(&noise(40, 6));
    for k in 5..40 {
        let mut state = sma(&Ieee, &data[..k], 5).unwrap().state;
        state.update(&Ieee, data[k]).unwrap();
        let longer = sma(&Ieee, &data[..k + 1], 5).unwrap();
        assert_eq!(state.sma.bits, longer.values[k].bits);
        assert_eq!(state.sma.bits, longer.state.sma.bits);
        let a: Vec<u64> = state.last_window.iter().map(|x| x.bits).collect();
        let b: Vec<u64> = longer.state.last_window.iter().map(|x| x.bits).collect();
        assert_eq!(a, b);
    }
}

#[test]
fn sma_reports_the_first_fault() {
    let data = series(&[1.0, f64::NAN, 3.0]);
    assert!(matches!(sma(&Ieee, &data, 0), Err(TechalibError::BadParam(_))));
    assert!(matches!(sma(&Ieee, &data, 1), Err(TechalibError::BadParam(_))));
    assert!(matches!(sma(&Ieee, &data, 4), Err(TechalibError::InsufficientData)));
    match sma(&Ieee, &data, 2) {
        Err(TechalibError::DataNonFinite(name)) => assert_eq!(name, "data"),
        other => panic!("unexpected: {:?}", other),
    }
    let huge = series(&[f64::MAX, f64::MAX, 1.0, f64::INFINITY]);
    match sma(&Ieee, &huge, 2) {
        Err(TechalibError::Overflow(index, value)) => {
            assert_eq!(index, 1);
            assert!(v(value).is_infinite());
        }
        other => panic!("unexpected: {:?}", other),
    }
}

#[test]
fn sma_next_unchecked_is_the_rolling_mean() {
    let r = sma_next_unchecked(&Ieee, f(7.0), f(1.0), f(2.0), f(0.5));
    assert_eq!(v(r), 5.0);
}

#[test]
fn sma_into_writes_the_values_or_nothing() {
    let data = series(&[1.0, 2.0, 3.0, 4.0]);
    let mut output = series(&[9.0, 9.0, 9.0, 9.0]);
    let state = sma_into(&Ieee, &data, 2, output.as_mut_slice()).unwrap();
    assert!(v(output[0]).is_nan());
    assert_eq!(&floats(&output)[1..], &[1.5, 2.5, 3.5]);
    assert_eq!(v(state.sma), 3.5);

    let mut short = series(&[9.0, 9.0, 9.0]);
    let result = sma_into(&Ieee, &data, 2, short.as_mut_slice());
    assert!(matches!(result, Err(TechalibError::BadParam(_))));
    assert_eq!(floats(&short), vec![9.0, 9.0, 9.0]);

    let bad = series(&[1.0, 2.0, f64::NAN, 4.0]);
    let mut kept = series(&[9.0, 9.0, 9.0, 9.0]);
    assert!(sma_into(&Ieee, &bad, 2, kept.as_mut_slice()).is_err());
    assert_eq!(floats(&kept), vec![9.0, 9.0, 9.0, 9.0]);
}

#[test]
fn sma_update_refuses_in_order_and_keeps_the_state() {
    let mut state = SmaState {
        sma: f(2.0),
        last_window: series(&[1.0, 2.0, 3.0]).into_iter().collect(),
        period: 1,
    };
    assert!(matches!(state.update(&Ieee, f(f64::NAN)), Err(TechalibError::BadParam(_))));
    state.period = 3;
    assert!(matches!(state.update(&Ieee, f(f64::NAN)), Err(TechalibError::DataNonFinite(_))));
    state.sma = f(f64::INFINITY);
    assert!(matches!(state.update(&Ieee, f(1.0)), Err(TechalibError::DataNonFinite(_))));
    state.sma = f(2.0);
    state.period = 4;
    assert!(matches!(state.update(&Ieee, f(1.0)), Err(TechalibError::BadParam(_))));
    assert!(matches!(state.update(&Ieee, f(f64::NAN)), Err(TechalibError::BadParam(_))));
    state.sma = f(f64::NAN);
    assert!(matches!(state.update(&Ieee, f(1.0)), Err(TechalibError::BadParam(_))));
    state.sma = f(2.0);
    state.period = 3;
    state.last_window[1] = f(f64::NAN);
    assert!(matches!(state.update(&Ieee, f(1.0)), Err(TechalibError::DataNonFinite(_))));
    state.last_window[1] = f(2.0);
    assert!(matches!(state.update(&Ieee, f(f64::MAX)), Ok(())));
    state.sma = f(f64::MAX);
    let before: Vec<u64> = state.last_window.iter().map(|x| x.bits).collect();
    assert!(matches!(state.update(&Ieee, f(f64::MAX)), Err(TechalibError::Overflow(0, _))));
    let after: Vec<u64> = state.last_window.iter().map(|x| x.bits).collect();
    assert_eq!(before, after);
    assert_eq!(v(state.sma), f64::MAX);
}

#[test]
fn sma_seed_is_the_mean_or_the_first_fault() {
    let data = series(&[1.0, 2.0, 6.0, f64::NAN, f64::INFINITY]);
    let inv = inverse_of_period(&Ieee, 3);
    assert_eq!(v(inv), 1.0 / 3.0);
    assert_eq!(v(sma_seed(&Ieee, &data, 3, inv).unwrap()), 9.0 * (1.0 / 3.0));
    assert_eq!(sma_seed(&Ieee, &data, 5, inv).err(), Some(3));
    let mut output = series(&[7.0]);
    assert_eq!(init_sma_unchecked(&Ieee, &data, 4, inv, &mut output).err(), Some(3));
    assert_eq!(floats(&output), vec![7.0]);
    let seed = init_sma_unchecked(&Ieee, &data, 3, inv, &mut output).unwrap();
    assert_eq!(v(seed), 3.0);
    assert_eq!(output.len(), 3);
    assert_eq!(v(output[0]), 7.0);
    assert!(v(output[1]).is_nan() && v(output[2]).is_nan());
}

#[test]
fn sma_test_invalid_period() {
    let data = series(&[1.0, 2.0, 3.0]);
    let result = sma(&Ieee, &data, 0);
    assert!(result.is_err());
    if let Err(TechalibError::BadParam(msg)) = result {
        assert!(msg.contains("between 2 and 100000"));
    }
}

#[test]
fn sma_test_insufficient_data() {
    let data = series(&[1.0, 2.0]);
    let result = sma(&Ieee, &data, 3);
    assert!(matches!(result, Err(TechalibError::InsufficientData)));
}

#[test]
fn test_sma_test_invalid_period() {
    let data = series(&[1.0, 2.0, 3.0]);
    let result = sma(&Ieee, &data, 0);
    assert!(result.is_err());
    if let Err(TechalibError::BadParam(msg)) = result {
        assert!(msg.contains("between 2 and 100000"));
    }
}

#[test]
fn test_sma_test_insufficient_data() {
    let data = series(&[1.0, 2.0]);
    let result = sma(&Ieee, &data, 3);
    assert!(matches!(result, Err(TechalibError::InsufficientData)));
}

#[test]
fn tests_sma_test_extremum_value_injection_without_panic() {
    let data = series(&[f64::MAX / 2.0, f64::MAX / 2.0, f64::MIN_POSITIVE, -0.0, 0.0]);
    let out = floats(
        &sma(&Ieee, &data, 2).expect("sma must not error on finite extremes").values,
    );
    assert_eq!(out.len(), data.len());
    for (i, v) in out.iter().enumerate() {
        if i < 1 {
            assert!(v.is_nan());
        } else {
            assert!(v.is_finite(), "value at {i} is not finite: {v}");
        }
    }
}

#[test]
fn tests_sma_test_invalid_period_lower_bound() {
    let data = series(&[1.0, 2.0, 3.0]);
    let result = sma(&Ieee, &data, 0);
    assert!(result.is_err());
    if let Err(TechalibError::BadParam(msg)) = result {
        assert!(msg.contains("between 2 and 100000"));
    }
}

#[test]
fn tests_sma_test_period_higher_bound() {
    let data = series(&[1.0, 2.0, 3.0]);
    let result = sma(&Ieee, &data, 3);
    assert!(result.is_ok());
    let out = floats(&result.unwrap().values);
    assert!(out[2] == 2.0);
}

#[test]
fn tests_sma_test_insufficient_data() {
    let data = series(&[1.0, 2.0, 3.0]);
    let result = sma(&Ieee, &data, 4);
    assert!(matches!(result, Err(TechalibError::InsufficientData)));
}
