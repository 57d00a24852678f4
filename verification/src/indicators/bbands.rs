//! Bollinger bands: a moving average with a band above and a band below it,
//! each a multiple of the rolling standard deviation away.
use crate::arith::{exact, minus, plus, root, times, Arith};
use crate::errors::{fails, length_text, step_overflow, Fault, TechalibError};
use crate::float::{zero, Float, TWO_BITS};
use crate::indicators::ema::{
    alpha_unchecked, alpha_value, ema_at, ema_next_unchecked, ema_step, lemma_ema_at_prefix,
};
use crate::indicators::sma::{
    inv_period_of, inverse_of_period, lemma_sma_at_prefix, running_sum, sma_at, sma_next_unchecked,
    sma_step,
};
use crate::series::{
    all_finite, bad, clean, copy_into, decided, filled, finite_upto, first_non_finite,
    lemma_clean_before_lookback, lemma_decided_at, lemma_decided_ok, lemma_prefix_runs_through,
    nan_value, nans, shifted, sound_failure, tail, tail_window,
};
use crate::traits::State;
use std::collections::VecDeque;
use vstd::prelude::*;

verus! {

/// The three bands of a series and the state that continues them.
#[derive(Debug)]
pub struct BBandsResult {
    pub upper: Vec<Float>,
    pub middle: Vec<Float>,
    pub lower: Vec<Float>,
    /// The state after the last sample.
    pub state: BBandsState,
}

/// What the next bands are computed from.
#[derive(Debug, Clone)]
pub struct BBandsState {
    pub upper: Float,
    pub middle: Float,
    pub lower: Float,
    /// The rolling mean and the rolling mean of the squares.
    pub moving_averages: MovingAverageState,
    /// The last `period` samples, oldest first.
    pub last_window: VecDeque<Float>,
    pub period: usize,
    pub std_dev_mult: DeviationMulipliers,
    pub ma_type: BBandsMA,
}

/// How many standard deviations the bands are away from the middle.
#[derive(Debug, Clone, Copy)]
pub struct DeviationMulipliers {
    pub up: Float,
    pub down: Float,
}

/// The rolling mean of the samples and of their squares.
#[derive(Debug, Clone, Copy)]
pub struct MovingAverageState {
    pub sma: Float,
    pub ma_square: Float,
}

/// The average that the middle band follows.
#[derive(Debug, Clone, Copy)]
pub enum BBandsMA {
    /// The simple moving average.
    SMA,
    /// The exponential moving average, with this weight where one is given.
    EMA(Option<Float>),
}

/// The average that the middle band follows, as a host names it: the
/// exponential average comes without a weight.
#[derive(Debug, Clone, Copy, PartialEq, Eq, Structural)]
pub enum PyBBandsMA {
    /// The simple moving average.
    SMA,
    /// The exponential moving average, with the weight of the period.
    EMA,
}

impl From<PyBBandsMA> for BBandsMA {
    /// The kind of average that the host has named; an exponential average
    /// takes the weight of its period.
    fn from(py_ma: PyBBandsMA) -> (ma: BBandsMA) {
        match py_ma {
            PyBBandsMA::SMA => BBandsMA::SMA,
            PyBBandsMA::EMA => BBandsMA::EMA(None),
        }
    }
}

impl vstd::std_specs::convert::FromSpecImpl<PyBBandsMA> for BBandsMA {
    open spec fn obeys_from_spec() -> bool {
        true
    }

    open spec fn from_spec(py_ma: PyBBandsMA) -> BBandsMA {
        match py_ma {
            PyBBandsMA::SMA => BBandsMA::SMA,
            PyBBandsMA::EMA => BBandsMA::EMA(None),
        }
    }
}

impl From<BBandsMA> for PyBBandsMA {
    /// The name of the kind of average, without the weight.
    fn from(ma: BBandsMA) -> (py_ma: PyBBandsMA) {
        match ma {
            BBandsMA::SMA => PyBBandsMA::SMA,
            BBandsMA::EMA(_) => PyBBandsMA::EMA,
        }
    }
}

impl vstd::std_specs::convert::FromSpecImpl<BBandsMA> for PyBBandsMA {
    open spec fn obeys_from_spec() -> bool {
        true
    }

    open spec fn from_spec(ma: BBandsMA) -> PyBBandsMA {
        match ma {
            BBandsMA::SMA => PyBBandsMA::SMA,
            BBandsMA::EMA(_) => PyBBandsMA::EMA,
        }
    }
}

/// The text of the refusal of a period below 2.
pub open spec fn bbands_period_text() -> Seq<char> {
    "SMA period must be greater than 1"@
}

/// The text of the refusal of a multiplier that is zero or below.
pub open spec fn deviations_text() -> Seq<char> {
    "Standard deviations must be greater than 0"@
}

/// The text of the refusal of a window whose length is not the period.
pub open spec fn bbands_window_text() -> Seq<char> {
    "Window length must match the SMA period"@
}

/// The squares of the samples.
pub open spec fn squares<A: Arith>(ar: &A, data: Seq<Float>) -> Seq<Float> {
    Seq::new(data.len(), |i: int| times(ar, data[i], data[i]))
}

/// The rolling standard deviation: the root of `|mean_sq - mean * mean|`.
pub open spec fn deviation<A: Arith>(ar: &A, mean: Float, mean_sq: Float) -> Float {
    root(ar, minus(ar, mean_sq, times(ar, mean, mean)).absolute())
}

/// The upper and the lower band around `middle`.
pub open spec fn bands_of<A: Arith>(
    ar: &A,
    middle: Float,
    mean: Float,
    mean_sq: Float,
    std: DeviationMulipliers,
) -> (Float, Float) {
    let dev = deviation(ar, mean, mean_sq);
    (plus(ar, middle, times(ar, std.up, dev)), minus(ar, middle, times(ar, std.down, dev)))
}

/// Why the parameters are refused, if they are: a period below 2, then a
/// multiplier that is zero or below.
pub open spec fn params_refusal(period: usize, std: DeviationMulipliers) -> Option<Fault> {
    if period <= 1 {
        Some(Fault::BadParam(bbands_period_text()))
    } else if std.up.le(zero()) || std.down.le(zero()) {
        Some(Fault::BadParam(deviations_text()))
    } else {
        None
    }
}

/// The weight of the exponential middle band; `0.0` for the simple one,
/// which takes no weight.
pub open spec fn middle_alpha<A: Arith>(ar: &A, ma_type: BBandsMA, period: usize) -> Float {
    match ma_type {
        BBandsMA::SMA => zero(),
        BBandsMA::EMA(alpha) => alpha_value(ar, alpha, period),
    }
}

/// The rolling mean of the squares at position `i`.
pub open spec fn mean_sq_at<A: Arith>(ar: &A, data: Seq<Float>, period: usize, i: int) -> Float {
    sma_at(ar, squares(ar, data), period, i)
}

/// The middle band at position `i`: the simple or the exponential average.
pub open spec fn middle_at<A: Arith>(
    ar: &A,
    data: Seq<Float>,
    period: usize,
    ma_type: BBandsMA,
    i: int,
) -> Float {
    match ma_type {
        BBandsMA::SMA => sma_at(ar, data, period, i),
        BBandsMA::EMA(alpha) => ema_at(ar, data, period, alpha_value(ar, alpha, period), i),
    }
}

/// The upper and the lower band at position `i`, from `period - 1` on: the
/// deviation is that of the simple rolling mean, whatever the middle band
/// follows.
pub open spec fn bands_at<A: Arith>(
    ar: &A,
    data: Seq<Float>,
    period: usize,
    std: DeviationMulipliers,
    ma_type: BBandsMA,
    i: int,
) -> (Float, Float) {
    bands_of(
        ar,
        middle_at(ar, data, period, ma_type, i),
        sma_at(ar, data, period, i),
        mean_sq_at(ar, data, period, i),
        std,
    )
}

/// The three bands that are due for `data`: NaN before `period - 1`.
pub open spec fn bbands_whole<A: Arith>(
    ar: &A,
    data: Seq<Float>,
    period: usize,
    std: DeviationMulipliers,
    ma_type: BBandsMA,
) -> (Seq<Float>, Seq<Float>, Seq<Float>) {
    (
        Seq::new(
            data.len(),
            |i: int|
                if i < period - 1 {
                    crate::float::nan()
                } else {
                    bands_at(ar, data, period, std, ma_type, i).0
                },
        ),
        Seq::new(
            data.len(),
            |i: int|
                if i < period - 1 {
                    crate::float::nan()
                } else {
                    middle_at(ar, data, period, ma_type, i)
                },
        ),
        Seq::new(
            data.len(),
            |i: int|
                if i < period - 1 {
                    crate::float::nan()
                } else {
                    bands_at(ar, data, period, std, ma_type, i).1
                },
        ),
    )
}

/// The first of `a`, `b`, `c` that is not finite, and `c` where all are.
pub open spec fn first_bad(a: Float, b: Float, c: Float) -> Float {
    if !a.finite() {
        a
    } else if !b.finite() {
        b
    } else {
        c
    }
}

/// For each position the value that is held to be finite there: at
/// `period - 1` the first of middle, upper and lower that is not, later the
/// first of upper, middle and lower.
pub open spec fn bbands_checked<A: Arith>(
    ar: &A,
    data: Seq<Float>,
    period: usize,
    std: DeviationMulipliers,
    ma_type: BBandsMA,
) -> Seq<Float> {
    Seq::new(
        data.len(),
        |i: int|
            {
                let middle = middle_at(ar, data, period, ma_type, i);
                let (upper, lower) = bands_at(ar, data, period, std, ma_type, i);
                if i == period - 1 {
                    first_bad(middle, upper, lower)
                } else {
                    first_bad(upper, middle, lower)
                }
            },
    )
}

/// What `r` holds, for [`decided`].
pub open spec fn bbands_got(r: Result<BBandsResult, TechalibError>) -> Result<
    (Seq<Float>, Seq<Float>, Seq<Float>),
    Fault,
> {
    match r {
        Ok(res) => Ok((res.upper@, res.middle@, res.lower@)),
        Err(e) => Err(e@),
    }
}

impl BBandsState {
    /// The three bands and the state are a result for `data` and the
    /// parameters: each band is NaN before `period - 1` and finite from there
    /// on, every sample is finite, and the state holds the last bands, the
    /// last `period` samples and the parameters.
    pub open spec fn closes(
        &self,
        upper: Seq<Float>,
        middle: Seq<Float>,
        lower: Seq<Float>,
        data: Seq<Float>,
        period: usize,
        std: DeviationMulipliers,
        ma_type: BBandsMA,
    ) -> bool {
        &&& filled(upper, data.len(), (period - 1) as nat)
        &&& filled(middle, data.len(), (period - 1) as nat)
        &&& filled(lower, data.len(), (period - 1) as nat)
        &&& all_finite(data)
        &&& self.period == period
        &&& self.std_dev_mult == std
        &&& self.ma_type == ma_type
        &&& self.last_window@ == tail(data, period)
        &&& self.upper == upper[data.len() - 1]
        &&& self.middle == middle[data.len() - 1]
        &&& self.lower == lower[data.len() - 1]
    }

    /// The state is the one after the last sample of `data`.
    pub open spec fn at_end_of<A: Arith>(
        &self,
        ar: &A,
        data: Seq<Float>,
        period: usize,
        std: DeviationMulipliers,
        ma_type: BBandsMA,
    ) -> bool {
        let last = data.len() - 1;
        &&& self.period == period
        &&& self.std_dev_mult == std
        &&& self.ma_type == ma_type
        &&& self.last_window@ == tail(data, period)
        &&& self.middle == middle_at(ar, data, period, ma_type, last)
        &&& self.moving_averages.sma == sma_at(ar, data, period, last)
        &&& self.moving_averages.ma_square == mean_sq_at(ar, data, period, last)
    }

    /// Why the state refuses `sample` before anything is computed, if it
    /// does: the first of these that holds.
    pub open spec fn refusal(&self, sample: Float) -> Option<Fault> {
        if self.period <= 1 {
            Some(Fault::BadParam(bbands_period_text()))
        } else if self.std_dev_mult.up.le(zero()) || self.std_dev_mult.down.le(zero()) {
            Some(Fault::BadParam(deviations_text()))
        } else if self.last_window@.len() != self.period {
            Some(Fault::BadParam(bbands_window_text()))
        } else if !sample.finite() {
            Some(Fault::DataNonFinite("sample"@))
        } else if !self.moving_averages.sma.finite() {
            Some(Fault::DataNonFinite("self.moving_averages.sma"@))
        } else if !self.middle.finite() {
            Some(Fault::DataNonFinite("self.middle"@))
        } else if !self.moving_averages.ma_square.finite() {
            Some(Fault::DataNonFinite("self.moving_averages.ma_square"@))
        } else if !self.std_dev_mult.up.finite() {
            Some(Fault::DataNonFinite("self.std_dev_mult.up"@))
        } else if !self.std_dev_mult.down.finite() {
            Some(Fault::DataNonFinite("self.std_dev_mult.down"@))
        } else if self.ma_type matches BBandsMA::EMA(Some(alpha)) && !alpha.finite() {
            Some(Fault::DataNonFinite("alpha"@))
        } else if !all_finite(self.last_window@) {
            Some(Fault::DataNonFinite("window"@))
        } else {
            None
        }
    }

    /// The values after `sample`: upper band, middle band, lower band, mean
    /// of the squares and mean, each one step on.
    pub open spec fn next_values<A: Arith>(&self, ar: &A, sample: Float) -> (
        Float,
        Float,
        Float,
        Float,
        Float,
    ) {
        bbands_step(
            ar,
            sample,
            self.last_window@[0],
            self.middle,
            self.moving_averages,
            self.ma_type,
            middle_alpha(ar, self.ma_type, self.period),
            self.std_dev_mult,
            inv_period_of(ar, self.period),
        )
    }
}

/// One step of the bands: the mean of the squares and the mean take a
/// rolling step, the middle band follows the mean or takes an exponential
/// step with `alpha`, and the bands stand around it.
pub open spec fn bbands_step<A: Arith>(
    ar: &A,
    new_value: Float,
    old_value: Float,
    prev_middle: Float,
    moving_avgs: MovingAverageState,
    ma_type: BBandsMA,
    alpha: Float,
    std: DeviationMulipliers,
    inv_period: Float,
) -> (Float, Float, Float, Float, Float) {
    let mean_sq = sma_step(
        ar,
        times(ar, new_value, new_value),
        times(ar, old_value, old_value),
        moving_avgs.ma_square,
        inv_period,
    );
    match ma_type {
        BBandsMA::SMA => {
            let middle = sma_step(ar, new_value, old_value, prev_middle, inv_period);
            let (upper, lower) = bands_of(ar, middle, middle, mean_sq, std);
            (upper, middle, lower, mean_sq, middle)
        },
        BBandsMA::EMA(_) => {
            let mean = sma_step(ar, new_value, old_value, moving_avgs.sma, inv_period);
            let middle = ema_step(ar, new_value, prev_middle, alpha);
            let (upper, lower) = bands_of(ar, middle, mean, mean_sq, std);
            (upper, middle, lower, mean_sq, mean)
        },
    }
}

/// The upper and the lower band around `middle`: see [`bands_of`].
pub fn bands<A: Arith>(
    ar: &A,
    middle: Float,
    mean: Float,
    mean_sq: Float,
    std: DeviationMulipliers,
) -> (r: (Float, Float))
    ensures
        exact(ar) ==> r == bands_of(ar, middle, mean, mean_sq, std),
{
    let spread = ar.sub(mean_sq, ar.mul(mean, mean));
    let dev = ar.sqrt(spread.abs());
    (ar.add(middle, ar.mul(std.up, dev)), ar.sub(middle, ar.mul(std.down, dev)))
}

/// One step of the bands: see [`bbands_step`].
pub fn bbands_next_unchecked<A: Arith>(
    ar: &A,
    new_value: Float,
    old_value: Float,
    prev_middle: Float,
    moving_avgs: MovingAverageState,
    ma_type: BBandsMA,
    alpha: Float,
    std: DeviationMulipliers,
    inv_period: Float,
) -> (r: (Float, Float, Float, Float, Float))
    ensures
        exact(ar) ==> r == bbands_step(
            ar,
            new_value,
            old_value,
            prev_middle,
            moving_avgs,
            ma_type,
            alpha,
            std,
            inv_period,
        ),
{
    let mean_sq = sma_next_unchecked(
        ar,
        ar.mul(new_value, new_value),
        ar.mul(old_value, old_value),
        moving_avgs.ma_square,
        inv_period,
    );
    match ma_type {
        BBandsMA::SMA => {
            let middle = sma_next_unchecked(ar, new_value, old_value, prev_middle, inv_period);
            let (upper, lower) = bands(ar, middle, middle, mean_sq, std);
            (upper, middle, lower, mean_sq, middle)
        },
        BBandsMA::EMA(_) => {
            let mean = sma_next_unchecked(ar, new_value, old_value, moving_avgs.sma, inv_period);
            let middle = ema_next_unchecked(ar, new_value, prev_middle, alpha);
            let (upper, lower) = bands(ar, middle, mean, mean_sq, std);
            (upper, middle, lower, mean_sq, mean)
        },
    }
}

/// Checks the period and the multipliers: see [`params_refusal`].
pub fn check_params(period: usize, std: DeviationMulipliers) -> (r: Result<(), TechalibError>)
    ensures
        params_refusal(period, std) matches Some(fault) ==> fails(r, fault),
        params_refusal(period, std) is None ==> r is Ok,
{
    if period <= 1 {
        return Err(TechalibError::bad_param("SMA period must be greater than 1"));
    }
    let zero = Float { bits: 0 };
    if std.up.at_most(zero) || std.down.at_most(zero) {
        return Err(TechalibError::bad_param("Standard deviations must be greater than 0"));
    }
    Ok(())
}

/// The weight of the exponential middle band, as `ar` gives it; `0.0` for
/// the simple one.
pub fn alpha_of_middle<A: Arith>(ar: &A, ma_type: BBandsMA, period: usize) -> (r: Float)
    ensures
        exact(ar) ==> r == middle_alpha(ar, ma_type, period),
        ma_type is SMA ==> r == zero(),
        ma_type matches BBandsMA::EMA(Some(a)) ==> r == a,
{
    match ma_type {
        BBandsMA::SMA => Float { bits: 0 },
        BBandsMA::EMA(Some(alpha)) => alpha,
        BBandsMA::EMA(None) => alpha_unchecked(ar, period, Float { bits: TWO_BITS }),
    }
}

/// The Bollinger bands of `data`.
///
/// The period and the multipliers are checked first (see
/// [`params_refusal`]), then the length of the series. The samples are then
/// taken in order: the first that is not finite, or one of whose bands is
/// not finite, ends the calculation with its report.
pub fn bbands<A: Arith>(
    ar: &A,
    data: &[Float],
    period: usize,
    std: DeviationMulipliers,
    ma_type: BBandsMA,
) -> (r: Result<BBandsResult, TechalibError>)
    ensures
        params_refusal(period, std) matches Some(fault) ==> fails(r, fault),
        params_refusal(period, std) is None && data@.len() < period ==> fails(
            r,
            Fault::InsufficientData,
        ),
        params_refusal(period, std) is None && data@.len() >= period ==> match r {
            Ok(res) => res.state.closes(
                res.upper@,
                res.middle@,
                res.lower@,
                data@,
                period,
                std,
                ma_type,
            ),
            Err(e) => sound_failure(e@, data@, period - 1),
        },
        exact(ar) && params_refusal(period, std) is None && data@.len() >= period ==> {
            &&& decided(
                bbands_got(r),
                data@,
                bbands_checked(ar, data@, period, std, ma_type),
                period - 1,
                bbands_whole(ar, data@, period, std, ma_type),
            )
            &&& r matches Ok(res) ==> res.state.at_end_of(ar, data@, period, std, ma_type)
        },
{
    check_params(period, std)?;
    let len = data.len();
    if len < period {
        return Err(TechalibError::InsufficientData);
    }
    let ghost checked = bbands_checked(ar, data@, period, std, ma_type);
    let ghost whole = bbands_whole(ar, data@, period, std, ma_type);
    let ghost lookback = period - 1;
    let inv = inverse_of_period(ar, period);
    let alpha = alpha_of_middle(ar, ma_type, period);

    let mut out_upper: Vec<Float> = Vec::new();
    let mut out_middle: Vec<Float> = Vec::new();
    let mut out_lower: Vec<Float> = Vec::new();
    let mut sum = Float { bits: 0 };
    let mut sum_sq = Float { bits: 0 };
    let mut idx: usize = 0;
    while idx < period
        invariant
            2 <= period <= len,
            params_refusal(period, std) is None,
            len == data@.len(),
            idx <= period,
            lookback == period - 1,
            checked == bbands_checked(ar, data@, period, std, ma_type),
            whole == bbands_whole(ar, data@, period, std, ma_type),
            finite_upto(data@, idx as int),
            out_upper@ =~= nans(
                (if idx < period {
                    idx
                } else {
                    (period - 1) as usize
                }) as nat,
            ),
            out_middle@ =~= out_upper@,
            out_lower@ =~= out_upper@,
            exact(ar) ==> sum == running_sum(ar, data@, idx as nat),
            exact(ar) ==> sum_sq == running_sum(ar, squares(ar, data@), idx as nat),
        decreases period - idx,
    {
        let value = data[idx];
        if !value.is_finite() {
            proof {
                if exact(ar) {
                    lemma_clean_before_lookback(data@, checked, lookback, idx as int);
                    assert(bad(data@, checked, lookback, idx as int));
                    lemma_decided_at(
                        Err(Fault::DataNonFinite("data"@)),
                        data@,
                        checked,
                        lookback,
                        whole,
                        idx as int,
                    );
                }
            }
            return Err(TechalibError::non_finite("data"));
        }
        sum = ar.add(sum, value);
        sum_sq = ar.add(sum_sq, ar.mul(value, value));
        if idx + 1 < period {
            out_upper.push(nan_value());
            out_middle.push(nan_value());
            out_lower.push(nan_value());
        }
        idx += 1;
    }
    let first_middle = ar.mul(sum, inv);
    let first_mean_sq = ar.mul(sum_sq, inv);
    let (first_upper, first_lower) = bands(ar, first_middle, first_middle, first_mean_sq, std);
    proof {
        if exact(ar) {
            lemma_clean_before_lookback(data@, checked, lookback, lookback);
            assert(first_middle == sma_at(ar, data@, period, lookback));
            assert(first_middle == middle_at(ar, data@, period, ma_type, lookback));
            assert(first_mean_sq == mean_sq_at(ar, data@, period, lookback));
            assert(checked[lookback] == first_bad(first_middle, first_upper, first_lower));
        }
    }
    if !first_middle.is_finite() || !first_upper.is_finite() || !first_lower.is_finite() {
        let worst = if !first_middle.is_finite() {
            first_middle
        } else if !first_upper.is_finite() {
            first_upper
        } else {
            first_lower
        };
        proof {
            if exact(ar) {
                assert(bad(data@, checked, lookback, lookback));
                lemma_decided_at(
                    Err(Fault::Overflow((period - 1) as usize, worst)),
                    data@,
                    checked,
                    lookback,
                    whole,
                    lookback,
                );
            }
        }
        return Err(TechalibError::Overflow(period - 1, worst));
    }
    out_upper.push(first_upper);
    out_middle.push(first_middle);
    out_lower.push(first_lower);
    let mut prev_upper = first_upper;
    let mut prev_middle = first_middle;
    let mut prev_lower = first_lower;
    let mut ma = MovingAverageState { sma: first_middle, ma_square: first_mean_sq };
    proof {
        if exact(ar) {
            assert(!bad(data@, checked, lookback, lookback));
            assert(out_upper@ =~= whole.0.take(period as int));
            assert(out_middle@ =~= whole.1.take(period as int));
            assert(out_lower@ =~= whole.2.take(period as int));
        }
    }

    while idx < len
        invariant
            2 <= period <= idx <= len,
            params_refusal(period, std) is None,
            len == data@.len(),
            lookback == period - 1,
            checked == bbands_checked(ar, data@, period, std, ma_type),
            whole == bbands_whole(ar, data@, period, std, ma_type),
            finite_upto(data@, idx as int),
            filled(out_upper@, idx as nat, lookback as nat),
            filled(out_middle@, idx as nat, lookback as nat),
            filled(out_lower@, idx as nat, lookback as nat),
            prev_upper == out_upper@[idx - 1],
            prev_middle == out_middle@[idx - 1],
            prev_lower == out_lower@[idx - 1],
            exact(ar) ==> inv == inv_period_of(ar, period),
            exact(ar) ==> alpha == middle_alpha(ar, ma_type, period),
            exact(ar) ==> prev_middle == middle_at(ar, data@, period, ma_type, idx - 1),
            exact(ar) ==> ma.sma == sma_at(ar, data@, period, idx - 1),
            exact(ar) ==> ma.ma_square == mean_sq_at(ar, data@, period, idx - 1),
            exact(ar) ==> clean(data@, checked, lookback, idx as int),
            exact(ar) ==> out_upper@ == whole.0.take(idx as int),
            exact(ar) ==> out_middle@ == whole.1.take(idx as int),
            exact(ar) ==> out_lower@ == whole.2.take(idx as int),
        decreases len - idx,
    {
        let value = data[idx];
        if !value.is_finite() {
            proof {
                if exact(ar) {
                    assert(bad(data@, checked, lookback, idx as int));
                    lemma_decided_at(
                        Err(Fault::DataNonFinite("data"@)),
                        data@,
                        checked,
                        lookback,
                        whole,
                        idx as int,
                    );
                }
            }
            return Err(TechalibError::non_finite("data"));
        }
        let (upper, middle, lower, mean_sq, mean) = bbands_next_unchecked(
            ar,
            value,
            data[idx - period],
            prev_middle,
            ma,
            ma_type,
            alpha,
            std,
            inv,
        );
        proof {
            if exact(ar) {
                assert(squares(ar, data@)[idx as int] == times(ar, value, value));
                assert(squares(ar, data@)[idx - period] == times(
                    ar,
                    data@[idx - period],
                    data@[idx - period],
                ));
                assert(mean_sq == mean_sq_at(ar, data@, period, idx as int));
                assert(mean == sma_at(ar, data@, period, idx as int));
                assert(middle == middle_at(ar, data@, period, ma_type, idx as int));
                assert(checked[idx as int] == first_bad(upper, middle, lower));
            }
        }
        if !upper.is_finite() || !middle.is_finite() || !lower.is_finite() {
            let worst = if !upper.is_finite() {
                upper
            } else if !middle.is_finite() {
                middle
            } else {
                lower
            };
            proof {
                if exact(ar) {
                    assert(bad(data@, checked, lookback, idx as int));
                    lemma_decided_at(
                        Err(Fault::Overflow(idx, worst)),
                        data@,
                        checked,
                        lookback,
                        whole,
                        idx as int,
                    );
                }
            }
            return Err(TechalibError::Overflow(idx, worst));
        }
        out_upper.push(upper);
        out_middle.push(middle);
        out_lower.push(lower);
        prev_upper = upper;
        prev_middle = middle;
        prev_lower = lower;
        ma = MovingAverageState { sma: mean, ma_square: mean_sq };
        proof {
            if exact(ar) {
                assert(!bad(data@, checked, lookback, idx as int));
                assert(out_upper@ =~= whole.0.take(idx + 1));
                assert(out_middle@ =~= whole.1.take(idx + 1));
                assert(out_lower@ =~= whole.2.take(idx + 1));
            }
        }
        idx += 1;
    }
    let state = BBandsState {
        upper: prev_upper,
        middle: prev_middle,
        lower: prev_lower,
        moving_averages: ma,
        last_window: tail_window(data, period),
        period,
        std_dev_mult: std,
        ma_type,
    };
    proof {
        if exact(ar) {
            assert(whole.0.take(len as int) == whole.0);
            assert(whole.1.take(len as int) == whole.1);
            assert(whole.2.take(len as int) == whole.2);
            lemma_decided_ok(data@, checked, lookback, whole);
        }
    }
    Ok(BBandsResult { upper: out_upper, middle: out_middle, lower: out_lower, state })
}

/// The Bollinger bands of `data`, written into the three outputs. An output
/// whose length is not that of the input is refused first. Where the
/// calculation fails, the outputs are left as they were.
pub fn bbands_into<A: Arith>(
    ar: &A,
    data: &[Float],
    period: usize,
    std: DeviationMulipliers,
    ma_type: BBandsMA,
    output_upper: &mut [Float],
    output_middle: &mut [Float],
    output_lower: &mut [Float],
) -> (r: Result<BBandsState, TechalibError>)
    ensures
        final(output_upper)@.len() == old(output_upper)@.len(),
        final(output_middle)@.len() == old(output_middle)@.len(),
        final(output_lower)@.len() == old(output_lower)@.len(),
        r is Err ==> final(output_upper)@ == old(output_upper)@ && final(output_middle)@ == old(
            output_middle,
        )@ && final(output_lower)@ == old(output_lower)@,
        old(output_upper)@.len() != data@.len() || old(output_middle)@.len() != data@.len() || old(
            output_lower,
        )@.len() != data@.len() ==> fails(r, Fault::BadParam(length_text())),
        old(output_upper)@.len() == data@.len() && old(output_middle)@.len() == data@.len() && old(
            output_lower,
        )@.len() == data@.len() ==> {
            &&& params_refusal(period, std) matches Some(fault) ==> fails(r, fault)
            &&& params_refusal(period, std) is None && data@.len() < period ==> fails(
                r,
                Fault::InsufficientData,
            )
            &&& params_refusal(period, std) is None && data@.len() >= period ==> match r {
                Ok(state) => state.closes(
                    final(output_upper)@,
                    final(output_middle)@,
                    final(output_lower)@,
                    data@,
                    period,
                    std,
                    ma_type,
                ),
                Err(e) => sound_failure(e@, data@, period - 1),
            }
            &&& exact(ar) && params_refusal(period, std) is None && data@.len() >= period ==> {
                &&& decided(
                    match r {
                        Ok(state) => Ok(
                            (final(output_upper)@, final(output_middle)@, final(output_lower)@),
                        ),
                        Err(e) => Err(e@),
                    },
                    data@,
                    bbands_checked(ar, data@, period, std, ma_type),
                    period - 1,
                    bbands_whole(ar, data@, period, std, ma_type),
                )
                &&& r matches Ok(state) ==> state.at_end_of(ar, data@, period, std, ma_type)
            }
        },
{
    TechalibError::check_same_length(output_upper, data)?;
    TechalibError::check_same_length(output_middle, data)?;
    TechalibError::check_same_length(output_lower, data)?;
    let res = bbands(ar, data, period, std, ma_type)?;
    copy_into(&res.upper, output_upper);
    copy_into(&res.middle, output_middle);
    copy_into(&res.lower, output_lower);
    Ok(res.state)
}

impl State<Float> for BBandsState {
    /// Takes `sample` into the window and moves the bands on by one step.
    ///
    /// The checks come in the order of [`BBandsState::refusal`]; then the
    /// bands are computed, and the first of upper, middle and lower that is
    /// not finite is reported as an overflow at position 0.
    fn update<A: Arith>(&mut self, ar: &A, sample: Float) -> (r: Result<(), TechalibError>)
        ensures
            old(self).refusal(sample) matches Some(fault) ==> fails(r, fault),
            old(self).refusal(sample) is None ==> match r {
                Ok(_) => {
                    &&& final(self).period == old(self).period
                    &&& final(self).std_dev_mult == old(self).std_dev_mult
                    &&& final(self).ma_type == old(self).ma_type
                    &&& final(self).last_window@ == shifted(old(self).last_window@, sample)
                    &&& final(self).upper.finite()
                    &&& final(self).middle.finite()
                    &&& final(self).lower.finite()
                },
                Err(e) => step_overflow(e@),
            },
            exact(ar) && old(self).refusal(sample) is None ==> {
                let v = old(self).next_values(ar, sample);
                if first_bad(v.0, v.1, v.2).finite() {
                    &&& r is Ok
                    &&& final(self).upper == v.0
                    &&& final(self).middle == v.1
                    &&& final(self).lower == v.2
                    &&& final(self).moving_averages.ma_square == v.3
                    &&& final(self).moving_averages.sma == v.4
                } else {
                    fails(r, Fault::Overflow(0, first_bad(v.0, v.1, v.2)))
                }
            },
    {
        if self.period <= 1 {
            return Err(TechalibError::bad_param("SMA period must be greater than 1"));
        }
        let zero = Float { bits: 0 };
        if self.std_dev_mult.up.at_most(zero) || self.std_dev_mult.down.at_most(zero) {
            return Err(TechalibError::bad_param("Standard deviations must be greater than 0"));
        }
        if self.last_window.len() != self.period {
            return Err(TechalibError::bad_param("Window length must match the SMA period"));
        }
        if !sample.is_finite() {
            return Err(TechalibError::non_finite("sample"));
        }
        if !self.moving_averages.sma.is_finite() {
            return Err(TechalibError::non_finite("self.moving_averages.sma"));
        }
        if !self.middle.is_finite() {
            return Err(TechalibError::non_finite("self.middle"));
        }
        if !self.moving_averages.ma_square.is_finite() {
            return Err(TechalibError::non_finite("self.moving_averages.ma_square"));
        }
        if !self.std_dev_mult.up.is_finite() {
            return Err(TechalibError::non_finite("self.std_dev_mult.up"));
        }
        if !self.std_dev_mult.down.is_finite() {
            return Err(TechalibError::non_finite("self.std_dev_mult.down"));
        }
        match self.ma_type {
            BBandsMA::EMA(Some(alpha)) => {
                if !alpha.is_finite() {
                    return Err(TechalibError::non_finite("alpha"));
                }
            },
            _ => {},
        }
        if first_non_finite(&self.last_window).is_some() {
            return Err(TechalibError::non_finite("window"));
        }
        let old_value = self.last_window[0];
        let alpha = alpha_of_middle(ar, self.ma_type, self.period);
        let inv = inverse_of_period(ar, self.period);
        let (upper, middle, lower, mean_sq, mean) = bbands_next_unchecked(
            ar,
            sample,
            old_value,
            self.middle,
            self.moving_averages,
            self.ma_type,
            alpha,
            self.std_dev_mult,
            inv,
        );
        if !upper.is_finite() {
            return Err(TechalibError::Overflow(0, upper));
        }
        if !middle.is_finite() {
            return Err(TechalibError::Overflow(0, middle));
        }
        if !lower.is_finite() {
            return Err(TechalibError::Overflow(0, lower));
        }
        let _ = self.last_window.pop_front();
        self.last_window.push_back(sample);
        self.upper = upper;
        self.middle = middle;
        self.lower = lower;
        self.moving_averages = MovingAverageState { sma: mean, ma_square: mean_sq };
        Ok(())
    }
}

/// The mean of the squares at a position depends on the samples up to that
/// position only.
pub proof fn lemma_mean_sq_prefix<A: Arith>(
    ar: &A,
    data: Seq<Float>,
    period: usize,
    k: int,
    i: int,
)
    requires
        0 <= i < k <= data.len(),
    ensures
        mean_sq_at(ar, data.take(k), period, i) == mean_sq_at(ar, data, period, i),
{
    assert(squares(ar, data.take(k)) =~= squares(ar, data).take(k));
    lemma_sma_at_prefix(ar, squares(ar, data), period, k, i);
}

/// The bands at a position depend on the samples up to that position only.
pub proof fn lemma_bbands_at_prefix<A: Arith>(
    ar: &A,
    data: Seq<Float>,
    period: usize,
    std: DeviationMulipliers,
    ma_type: BBandsMA,
    k: int,
    i: int,
)
    requires
        0 <= i < k <= data.len(),
    ensures
        middle_at(ar, data.take(k), period, ma_type, i) == middle_at(ar, data, period, ma_type, i),
        bands_at(ar, data.take(k), period, std, ma_type, i) == bands_at(
            ar,
            data,
            period,
            std,
            ma_type,
            i,
        ),
{
    lemma_mean_sq_prefix(ar, data, period, k, i);
    lemma_sma_at_prefix(ar, data, period, k, i);
    match ma_type {
        BBandsMA::SMA => {},
        BBandsMA::EMA(alpha) => {
            lemma_ema_at_prefix(ar, data, period, alpha_value(ar, alpha, period), k, i);
        },
    }
}

/// No lookahead: the bands of the first `k` samples are the first `k`
/// positions of the bands of the whole series.
pub proof fn lemma_bbands_no_lookahead<A: Arith>(
    ar: &A,
    data: Seq<Float>,
    period: usize,
    std: DeviationMulipliers,
    ma_type: BBandsMA,
    k: int,
)
    requires
        0 <= k <= data.len(),
    ensures
        bbands_whole(ar, data.take(k), period, std, ma_type).0 == bbands_whole(
            ar,
            data,
            period,
            std,
            ma_type,
        ).0.take(k),
        bbands_whole(ar, data.take(k), period, std, ma_type).1 == bbands_whole(
            ar,
            data,
            period,
            std,
            ma_type,
        ).1.take(k),
        bbands_whole(ar, data.take(k), period, std, ma_type).2 == bbands_whole(
            ar,
            data,
            period,
            std,
            ma_type,
        ).2.take(k),
{
    assert forall|i: int| 0 <= i < k implies {
        &&& middle_at(ar, data.take(k), period, ma_type, i) == middle_at(
            ar,
            data,
            period,
            ma_type,
            i,
        )
        &&& bands_at(ar, data.take(k), period, std, ma_type, i) == bands_at(
            ar,
            data,
            period,
            std,
            ma_type,
            i,
        )
    } by {
        lemma_bbands_at_prefix(ar, data, period, std, ma_type, k, i);
    }
    let part = bbands_whole(ar, data.take(k), period, std, ma_type);
    let all = bbands_whole(ar, data, period, std, ma_type);
    assert(part.0 =~= all.0.take(k));
    assert(part.1 =~= all.1.take(k));
    assert(part.2 =~= all.2.take(k));
}

/// Streaming consistency: from the state after the first `k` samples, the
/// bands after sample `k` are those that are due at position `k` of the
/// series with one sample more.
pub proof fn lemma_bbands_streaming<A: Arith>(
    ar: &A,
    data: Seq<Float>,
    period: usize,
    std: DeviationMulipliers,
    ma_type: BBandsMA,
    k: int,
    state: BBandsState,
)
    requires
        2 <= period <= k < data.len(),
        state.at_end_of(ar, data.take(k), period, std, ma_type),
    ensures
        state.next_values(ar, data[k]).0 == bbands_whole(
            ar,
            data.take(k + 1),
            period,
            std,
            ma_type,
        ).0[k],
        state.next_values(ar, data[k]).1 == bbands_whole(
            ar,
            data.take(k + 1),
            period,
            std,
            ma_type,
        ).1[k],
        state.next_values(ar, data[k]).2 == bbands_whole(
            ar,
            data.take(k + 1),
            period,
            std,
            ma_type,
        ).2[k],
        state.next_values(ar, data[k]).3 == mean_sq_at(ar, data.take(k + 1), period, k),
        state.next_values(ar, data[k]).4 == sma_at(ar, data.take(k + 1), period, k),
        shifted(state.last_window@, data[k]) == tail(data.take(k + 1), period),
{
    let longer = data.take(k + 1);
    assert(longer.take(k) =~= data.take(k));
    lemma_bbands_at_prefix(ar, longer, period, std, ma_type, k, k - 1);
    lemma_mean_sq_prefix(ar, longer, period, k, k - 1);
    lemma_sma_at_prefix(ar, longer, period, k, k - 1);
    assert(squares(ar, longer)[k] == times(ar, data[k], data[k]));
    assert(squares(ar, longer)[k - period] == times(ar, data[k - period], data[k - period]));
    assert(shifted(state.last_window@, data[k]) =~= tail(longer, period));
}

/// No lookahead, of the results: where the bands of a series come out,
/// those of its first `k` samples come out too, and they are the first `k`
/// positions of the bands of the whole series. `full` and `part` are what
/// [`bbands`] returns for an exact arithmetic.
pub proof fn lemma_bbands_prefix_result<A: Arith>(
    ar: &A,
    data: Seq<Float>,
    period: usize,
    std: DeviationMulipliers,
    ma_type: BBandsMA,
    k: int,
    full: Result<(Seq<Float>, Seq<Float>, Seq<Float>), Fault>,
    part: Result<(Seq<Float>, Seq<Float>, Seq<Float>), Fault>,
)
    requires
        0 <= k <= data.len(),
        decided(
            full,
            data,
            bbands_checked(ar, data, period, std, ma_type),
            period - 1,
            bbands_whole(ar, data, period, std, ma_type),
        ),
        decided(
            part,
            data.take(k),
            bbands_checked(ar, data.take(k), period, std, ma_type),
            period - 1,
            bbands_whole(ar, data.take(k), period, std, ma_type),
        ),
        full matches Ok(bands),
    ensures
        full matches Ok(bands) && part == Ok::<(Seq<Float>, Seq<Float>, Seq<Float>), Fault>(
            (bands.0.take(k), bands.1.take(k), bands.2.take(k)),
        ),
{
    let checked = bbands_checked(ar, data, period, std, ma_type);
    let first = bbands_checked(ar, data.take(k), period, std, ma_type);
    lemma_bbands_no_lookahead(ar, data, period, std, ma_type, k);
    assert forall|i: int| 0 <= i < k implies #[trigger] first[i] == checked[i] by {
        lemma_bbands_at_prefix(ar, data, period, std, ma_type, k, i);
    }
    lemma_prefix_runs_through(
        full,
        part,
        data,
        checked,
        first,
        period - 1,
        k,
        bbands_whole(ar, data, period, std, ma_type),
        bbands_whole(ar, data.take(k), period, std, ma_type),
    );
}

/// Streaming consistency, of the results: the state that [`bbands`]
/// returns for the first `k` samples takes sample `k`, where the bands of
/// the first `k + 1` samples come out and the stored means, multipliers
/// and weight are finite, and its step gives the bands at position `k`. The
/// bands, `state` and `longer` are what [`bbands`] returns for an exact
/// arithmetic; it does not test the means, the multipliers and the weight,
/// which the step does.
pub proof fn lemma_bbands_update_result<A: Arith>(
    ar: &A,
    data: Seq<Float>,
    period: usize,
    std: DeviationMulipliers,
    ma_type: BBandsMA,
    k: int,
    before: (Seq<Float>, Seq<Float>, Seq<Float>),
    state: BBandsState,
    longer: Result<(Seq<Float>, Seq<Float>, Seq<Float>), Fault>,
)
    requires
        params_refusal(period, std) is None,
        period <= k < data.len(),
        std.up.finite(),
        std.down.finite(),
        ma_type matches BBandsMA::EMA(Some(alpha)) ==> alpha.finite(),
        state.moving_averages.sma.finite(),
        state.moving_averages.ma_square.finite(),
        state.closes(before.0, before.1, before.2, data.take(k), period, std, ma_type),
        state.at_end_of(ar, data.take(k), period, std, ma_type),
        decided(
            longer,
            data.take(k + 1),
            bbands_checked(ar, data.take(k + 1), period, std, ma_type),
            period - 1,
            bbands_whole(ar, data.take(k + 1), period, std, ma_type),
        ),
        longer matches Ok(bands),
    ensures
        state.refusal(data[k]) is None,
        first_bad(
            state.next_values(ar, data[k]).0,
            state.next_values(ar, data[k]).1,
            state.next_values(ar, data[k]).2,
        ).finite(),
        longer matches Ok(bands) && state.next_values(ar, data[k]).0 == bands.0[k]
            && state.next_values(ar, data[k]).1 == bands.1[k] && state.next_values(
            ar,
            data[k],
        ).2 == bands.2[k],
        shifted(state.last_window@, data[k]) == tail(data.take(k + 1), period),
{
    let long = data.take(k + 1);
    let checked = bbands_checked(ar, long, period, std, ma_type);
    assert(!bad(long, checked, period - 1, k));
    assert(before.1[k - 1].finite());
    let window = state.last_window@;
    assert forall|i: int| 0 <= i < window.len() implies (#[trigger] window[i]).finite() by {
        assert(data.take(k)[k - period + i].finite());
    }
    lemma_bbands_streaming(ar, data, period, std, ma_type, k, state);
}

} // verus!
