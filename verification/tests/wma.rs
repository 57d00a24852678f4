use std::num::FpCategory;
use techalib::arith::Arith;
use techalib::errors::TechalibError;
use techalib::float::Float;
use techalib::indicators::wma::{
    init_wma_unchecked, inv_weight_sum_linear, wma, wma_into, wma_next, wma_next_unchecked,
    WmaResult,
};
use techalib::traits::State;

struct Ieee;

impl Arith for Ieee {
    fn add(&self, x: Float, y: Float) -> Float {
        f(v(x) + v(y))
    }

    fn sub(&self, x: Float, y: Float) -> Float {
        f(v(x) - v(y))
    }

    fn mul(&self, x: Float, y: Float) -> Float {
        f(v(x) * v(y))
    }

    fn div(&self, x: Float, y: Float) -> Float {
        f(v(x) / v(y))
    }

    fn sqrt(&self, x: Float) -> Float {
        f(v(x).sqrt())
    }

    fn count(&self, n: usize) -> Float {
        f(n as f64)
    }
}

fn f(x: f64) -> Float {
    Float::from_bits(x.to_bits())
}

fn v(x: Float) -> f64 {
    f64::from_bits(x.to_bits())
}

#[allow(dead_code)]
fn series(values: &[f64]) -> Vec<Float> {
    values.iter().map(|x| f(*x)).collect()
}

#[allow(dead_code)]
fn floats(values: &[Float]) -> Vec<f64> {
    values.iter().map(|x| v(*x)).collect()
}

#[allow(dead_code)]
fn ulp_at(x: f64) -> f64 {
    match x.classify() {
        FpCategory::Nan | FpCategory::Infinite => f64::NAN,
        _ => {
            let next = f64::from_bits(x.to_bits() + 1);
            next - x
        }
    }
}

#[allow(dead_code)]
fn approx_eq_float(a: f64, b: f64, eps_factor: f64) -> bool {
    let ulp_step = ulp_at(b);
    let min_tol: f64 = (1e-1_f64).max(ulp_step);
    let diff = (a - b).abs();
    let relative_tol = (eps_factor * b.abs().max(1.0)).min(min_tol);
    diff < relative_tol
}

#[allow(dead_code)]
fn assert_vec_float_eq(expected: &[f64], got: &[f64], epsilon: f64) {
    for (i, (x, y)) in expected.iter().zip(got.iter()).enumerate() {
        if x.is_nan() && y.is_nan() {
            continue;
        }
        assert!(
            approx_eq_float(*x, *y, epsilon),
            "[{i}] Expected: {}, got: {} (epsilon: {})",
            x,
            y,
            epsilon
        );
    }
}

#[allow(dead_code)]
fn assert_vec_eq_gen_data(expected: &[f64], got: &[f64]) {
    assert_eq!(expected.len(), got.len());
    assert_vec_float_eq(expected, got, 1e-8);
}

#[allow(dead_code)]
fn assert_vec_close(expected: &[f64], got: &[f64]) {
    assert_eq!(expected.len(), got.len());
    assert_vec_float_eq(expected, got, 1e-9);
}

#[allow(dead_code)]
fn same_bits(a: &[Float], b: &[Float]) -> bool {
    a.len() == b.len() && a.iter().zip(b.iter()).all(|(x, y)| x.bits == y.bits)
}

#[allow(dead_code)]
fn noise(len: usize, seed: u64) -> Vec<f64> {
    let mut state = seed;
    let mut out = Vec::with_capacity(len);
    for _ in 0..len {
        state = state
            .wrapping_mul(6364136223846793005)
            .wrapping_add(1442695040888963407);
        let unit = (state >> 11) as f64 / (1u64 << 53) as f64;
        out.push(50.0 + 100.0 * unit);
    }
    out
}

#[test]
fn tests_wma_zeros_ok() {
    let input = series(&[0.0; 100]);
    let result = wma(&Ieee, &input, 30).unwrap();
    assert!(floats(&result.values).iter().skip(29).all(|&v| v == 0.0));
}

#[test]
fn tests_wma_period_1_err() {
    let input = series(&[0.0; 100]);
    let result = wma(&Ieee, &input, 1);
    assert!(result.is_err());
    assert!(matches!(result, Err(TechalibError::BadParam(_))));
}

#[test]
fn tests_wma_empty_input_err() {
    let data: [Float; 0] = [];
    let result = wma(&Ieee, &data, 3);
    assert!(result.is_err());
    assert!(matches!(result, Err(TechalibError::InsufficientData)));
}

#[test]
fn tests_wma_unexpected_nan_err() {
    let input = series(&[1.0, 2.0, f64::NAN, 4.0]);
    let result = wma(&Ieee, &input, 3);
    assert!(result.is_err());
    assert!(matches!(result, Err(TechalibError::DataNonFinite(_))));
}

#[test]
fn tests_wma_non_finite_err() {
    let input = series(&[1.0, 2.0, f64::INFINITY, 4.0]);
    let result = wma(&Ieee, &input, 3);
    assert!(result.is_err());
    assert!(matches!(result, Err(TechalibError::DataNonFinite(_))));
}

#[test]
fn tests_wma_finite_extreme_err_overflow_or_ok_all_finite() {
    let data = series(&[
        f64::MAX - 3.0,
        f64::MAX - 2.0,
        f64::MAX - 5.0,
        f64::MAX - 6.0,
        f64::MAX - 8.0,
        f64::MAX - 1.0,
    ]);
    let period = 3;
    match wma(&Ieee, &data, period) {
        Ok(result) => {
            let result: WmaResult = result;
            assert!(
                floats(&result.values).iter().skip(period).all(|v| v.is_finite()),
                "Expected all values to be finite"
            );
        }
        Err(TechalibError::Overflow(_, _)) => {}
        Err(e) => panic!("Expected Ok(_) or Overflow, but got: {:?}", e),
    }
}

#[test]
fn tests_wma_next_with_finite_neg_extreme_err_overflow_or_ok_all_finite() {
    let data = series(&[5.0, 10.0, 30.0, 3.0, 5.0, 6.0, 8.0]);
    let period = 3;
    let result = wma(&Ieee, &data, period).unwrap();
    let mut state = result.state;
    match state.update(&Ieee, f(f64::MIN + 5.0)) {
        Ok(_) => {
            assert!(v(state.wma).is_finite(), "Expected all values to be finite");
        }
        Err(TechalibError::Overflow(_, _)) => {}
        Err(e) => panic!("Expected Ok(_) or Overflow, but got: {:?}", e),
    }
}

fn slow_wma(data: &[f64], period: usize) -> Vec<f64> {
    let mut out = vec![f64::NAN; data.len()];
    let weights = (period * (period + 1)) as f64 / 2.0;
    for i in period - 1..data.len() {
        let mut sum = 0.0;
        for j in 0..period {
            sum += data[i + 1 - period + j] * (j + 1) as f64;
        }
        out[i] = sum / weights;
    }
    out
}

#[test]
fn wma_follows_its_definition() {
    for (len, period, seed) in [(2usize, 2usize, 1u64), (40, 7, 2), (120, 30, 3)] {
        let input = noise(len, seed);
        let out = floats(&wma(&Ieee, &series(&input), period).unwrap().values);
        assert_vec_eq_gen_data(&slow_wma(&input, period), &out);
    }
}

#[test]
fn wma_of_four_samples_over_three() {
    let result = wma(&Ieee, &series(&[1.0, 2.0, 3.0, 4.0]), 3).unwrap();
    let values = floats(&result.values);
    assert!(values[0].is_nan() && values[1].is_nan());
    assert!(approx_eq_float(values[2], 14.0 / 6.0, 1e-12));
    assert!(approx_eq_float(values[3], 20.0 / 6.0, 1e-12));
    assert_eq!(v(result.state.period_sub), 9.0);
    assert_eq!(v(result.state.period_sum), 11.0);
    assert_eq!(v(inv_weight_sum_linear(&Ieee, 3)), 2.0 / 12.0);
    let step = wma_next_unchecked(&Ieee, f(4.0), f(1.0), f(3.0), f(6.0), f(8.0), f(0.5));
    assert_eq!((v(step.0), v(step.1), v(step.2)), (10.0, 9.0, 11.0));
}

#[test]
fn wma_of_a_prefix_is_a_prefix_of_the_wma() {
    let data = series(&noise(50, 25));
    let whole = wma(&Ieee, &data, 6).unwrap().values;
    for k in 6..=50 {
        let part = wma(&Ieee, &data[..k], 6).unwrap().values;
        assert!(same_bits(&part, &whole[..k]));
    }
}

#[test]
fn wma_next_continues_the_batch() {
    let data = series(&noise(40, 26));
    for k in 5..40 {
        let state = wma(&Ieee, &data[..k], 5).unwrap().state;
        let next = state.next(&Ieee, data[k]).unwrap();
        let longer = wma(&Ieee, &data[..k + 1], 5).unwrap();
        assert_eq!(next.wma.bits, longer.values[k].bits);
        assert_eq!(next.period_sub.bits, longer.state.period_sub.bits);
        assert_eq!(next.period_sum.bits, longer.state.period_sum.bits);
        let a: Vec<u64> = next.window.iter().map(|x| x.bits).collect();
        let b: Vec<u64> = longer.state.window.iter().map(|x| x.bits).collect();
        assert_eq!(a, b);
    }
}

#[test]
fn wma_next_refuses_in_order() {
    let window: std::collections::VecDeque<Float> = series(&[1.0, 2.0, 3.0]).into_iter().collect();
    let call = |new: f64, prev: f64, period: usize| {
        wma_next(&Ieee, f(new), f(prev), period, f(6.0), f(8.0), &window)
    };
    assert!(matches!(call(f64::NAN, 1.0, 1), Err(TechalibError::BadParam(_))));
    assert!(matches!(call(f64::NAN, 1.0, 3), Err(TechalibError::DataNonFinite(_))));
    assert!(matches!(call(1.0, f64::NAN, 3), Err(TechalibError::DataNonFinite(_))));
    assert!(matches!(call(1.0, 1.0, 4), Err(TechalibError::BadParam(_))));
    assert!(matches!(call(f64::NAN, f64::NAN, 4), Err(TechalibError::BadParam(_))));
    match wma_next(&Ieee, f(1.0), f(1.0), 3, f(f64::NAN), f(8.0), &window) {
        Err(TechalibError::DataNonFinite(name)) => assert_eq!(name, "period_sub"),
        other => panic!("unexpected: {:?}", other),
    }
    match wma_next(&Ieee, f(1.0), f(1.0), 3, f(6.0), f(f64::INFINITY), &window) {
        Err(TechalibError::DataNonFinite(name)) => assert_eq!(name, "period_sum"),
        other => panic!("unexpected: {:?}", other),
    }
    assert!(matches!(call(f64::MAX, 1.0, 3), Err(TechalibError::Overflow(0, _))));
    assert!(call(4.0, 1.0, 3).is_ok());
    let bad: std::collections::VecDeque<Float> =
        series(&[1.0, f64::INFINITY, 3.0]).into_iter().collect();
    let result = wma_next(&Ieee, f(1.0), f(1.0), 3, f(6.0), f(8.0), &bad);
    assert!(matches!(result, Err(TechalibError::DataNonFinite(_))));
}

#[test]
fn wma_into_refuses_another_length() {
    let data = series(&[1.0, 2.0, 3.0, 4.0]);
    let mut output = series(&[0.0; 5]);
    let result = wma_into(&Ieee, &data, 3, output.as_mut_slice());
    assert!(matches!(result, Err(TechalibError::BadParam(_))));
    let mut output = series(&[0.0; 4]);
    let state = wma_into(&Ieee, &data, 3, output.as_mut_slice()).unwrap();
    assert_eq!(state.wma.bits, output[3].bits);
}

#[test]
fn wma_seed_is_the_first_value_or_the_first_fault() {
    let data = series(&[1.0, 2.0, 3.0, f64::NAN]);
    let mut output: Vec<Float> = Vec::new();
    let first = init_wma_unchecked(&Ieee, &data, 3, f(0.5), &mut output).unwrap();
    assert_eq!((v(first.0), v(first.1), v(first.2)), (7.0, 6.0, 8.0));
    assert_eq!(output.len(), 2);
    assert!(floats(&output).iter().all(|x| x.is_nan()));
    assert_eq!(init_wma_unchecked(&Ieee, &data, 4, f(0.5), &mut output).err(), Some(3));
    assert_eq!(output.len(), 2);
}

#[test]
fn wma_result_gives_up_its_values() {
    let data = series(&[1.0, 2.0, 3.0, 4.0, 5.0]);
    let result = wma(&Ieee, &data, 2).unwrap();
    let bits: Vec<u64> = result.values.iter().map(|x| x.bits).collect();
    let values: Vec<Float> = result.into();
    assert_eq!(values.iter().map(|x| x.bits).collect::<Vec<u64>>(), bits);
}
