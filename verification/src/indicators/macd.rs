//! Moving average convergence/divergence: the difference of a fast and a
//! slow exponential average, its own exponential average (the signal), and
//! the difference of the two (the histogram).
use crate::arith::{counted, exact, minus, over, plus, Arith};
use crate::errors::{fails, length_text, step_overflow, Fault, TechalibError};
use crate::float::{nan, two, Float, TWO_BITS};
use crate::indicators::ema::{alpha_of, alpha_unchecked, ema_next_unchecked, ema_step};
use crate::indicators::sma::{lemma_running_sum_same, running_sum};
use crate::series::{
    all_finite, bad, clean, copy_into, decided, filled, finite_upto, lemma_clean_before_lookback,
    lemma_decided_at, lemma_decided_ok, lemma_prefix_runs_through, nan_value, nans, sound_failure,
};
use crate::traits::State;
use vstd::prelude::*;

verus! {

/// The three series of a calculation and the state that continues them.
#[derive(Debug)]
pub struct MacdResult {
    /// The fast average minus the slow one.
    pub macd: Vec<Float>,
    /// The exponential average of `macd`.
    pub signal: Vec<Float>,
    /// `macd` minus `signal`.
    pub histogram: Vec<Float>,
    /// The state after the last sample.
    pub state: MacdState,
}

/// What the next values are computed from.
#[derive(Debug, Clone, Copy)]
pub struct MacdState {
    pub fast_ema: Float,
    pub slow_ema: Float,
    pub macd: Float,
    pub signal: Float,
    pub histogram: Float,
    pub fast_period: usize,
    pub slow_period: usize,
    pub signal_period: usize,
}

/// The text of the refusal of a fast period that is not below the slow one.
pub open spec fn fast_slow_text() -> Seq<char> {
    "Fast period must be less than slow period"@
}

/// The text of the refusal of a period below 2.
pub open spec fn periods_text() -> Seq<char> {
    "Periods must be greater than 1"@
}

/// Why the three periods are refused, if they are: a fast period that is
/// not below the slow one, then any period below 2.
pub open spec fn periods_refusal(fast: usize, slow: usize, signal: usize) -> Option<Fault> {
    if fast >= slow {
        Some(Fault::BadParam(fast_slow_text()))
    } else if fast <= 1 || slow <= 1 || signal <= 1 {
        Some(Fault::BadParam(periods_text()))
    } else {
        None
    }
}

/// The first position with values: `(slow - 1) + (signal - 1)`.
pub open spec fn macd_start(slow: usize, signal: usize) -> int {
    (slow - 1) + (signal - 1)
}

/// The first of `a`, `b`, `c` that is not finite, and `c` where all are.
pub open spec fn worst3(a: Float, b: Float, c: Float) -> Float {
    if !a.finite() {
        a
    } else if !b.finite() {
        b
    } else {
        c
    }
}

/// The fast average at position `i`, from `slow - 1` on: there the mean of
/// the last `fast` of the first `slow` samples, then one exponential step
/// for each sample.
pub open spec fn fast_ema_at<A: Arith>(
    ar: &A,
    data: Seq<Float>,
    fast: usize,
    slow: usize,
    i: int,
) -> Float
    decreases i,
{
    if i <= slow - 1 || i <= 0 {
        over(ar, running_sum(ar, data.skip(slow - fast), fast as nat), counted(ar, fast))
    } else {
        ema_step(ar, data[i], fast_ema_at(ar, data, fast, slow, i - 1), alpha_of(ar, fast, two()))
    }
}

/// The slow average at position `i`, from `slow - 1` on: there the mean of
/// the first `slow` samples, then one exponential step for each sample.
pub open spec fn slow_ema_at<A: Arith>(ar: &A, data: Seq<Float>, slow: usize, i: int) -> Float
    decreases i,
{
    if i <= slow - 1 || i <= 0 {
        over(ar, running_sum(ar, data, slow as nat), counted(ar, slow))
    } else {
        ema_step(ar, data[i], slow_ema_at(ar, data, slow, i - 1), alpha_of(ar, slow, two()))
    }
}

/// The fast average minus the slow one at position `i`, from `slow - 1` on.
pub open spec fn macd_line<A: Arith>(
    ar: &A,
    data: Seq<Float>,
    fast: usize,
    slow: usize,
    i: int,
) -> Float {
    minus(ar, fast_ema_at(ar, data, fast, slow, i), slow_ema_at(ar, data, slow, i))
}

/// The differences from position `slow - 1` to `i`, added up in order.
pub open spec fn macd_sum<A: Arith>(
    ar: &A,
    data: Seq<Float>,
    fast: usize,
    slow: usize,
    i: int,
) -> Float
    decreases i,
{
    if i <= slow - 1 || i <= 0 {
        macd_line(ar, data, fast, slow, slow - 1)
    } else {
        plus(ar, macd_sum(ar, data, fast, slow, i - 1), macd_line(ar, data, fast, slow, i))
    }
}

/// The signal at position `i`, from the first position with values on:
/// there the mean of the first `signal` differences, then one exponential
/// step for each difference.
pub open spec fn signal_at<A: Arith>(
    ar: &A,
    data: Seq<Float>,
    fast: usize,
    slow: usize,
    signal: usize,
    i: int,
) -> Float
    decreases i,
{
    if i <= macd_start(slow, signal) || i <= 0 {
        over(ar, macd_sum(ar, data, fast, slow, macd_start(slow, signal)), counted(ar, signal))
    } else {
        ema_step(
            ar,
            macd_line(ar, data, fast, slow, i),
            signal_at(ar, data, fast, slow, signal, i - 1),
            alpha_of(ar, signal, two()),
        )
    }
}

/// The difference minus the signal at position `i`.
pub open spec fn histogram_at<A: Arith>(
    ar: &A,
    data: Seq<Float>,
    fast: usize,
    slow: usize,
    signal: usize,
    i: int,
) -> Float {
    minus(ar, macd_line(ar, data, fast, slow, i), signal_at(ar, data, fast, slow, signal, i))
}

/// The differences that are due for `data`: NaN before the first position
/// with values.
pub open spec fn macd_values<A: Arith>(
    ar: &A,
    data: Seq<Float>,
    fast: usize,
    slow: usize,
    signal: usize,
) -> Seq<Float> {
    Seq::new(
        data.len(),
        |i: int|
            if i < macd_start(slow, signal) {
                nan()
            } else {
                macd_line(ar, data, fast, slow, i)
            },
    )
}

/// The signals that are due for `data`: NaN before the first position with
/// values.
pub open spec fn signal_values<A: Arith>(
    ar: &A,
    data: Seq<Float>,
    fast: usize,
    slow: usize,
    signal: usize,
) -> Seq<Float> {
    Seq::new(
        data.len(),
        |i: int|
            if i < macd_start(slow, signal) {
                nan()
            } else {
                signal_at(ar, data, fast, slow, signal, i)
            },
    )
}

/// The histogram that is due for `data`: NaN before the first position with
/// values.
pub open spec fn histogram_values<A: Arith>(
    ar: &A,
    data: Seq<Float>,
    fast: usize,
    slow: usize,
    signal: usize,
) -> Seq<Float> {
    Seq::new(
        data.len(),
        |i: int|
            if i < macd_start(slow, signal) {
                nan()
            } else {
                histogram_at(ar, data, fast, slow, signal, i)
            },
    )
}

/// For each position the value that is held to be finite there: the first
/// of difference, signal and histogram that is not.
pub open spec fn macd_checked<A: Arith>(
    ar: &A,
    data: Seq<Float>,
    fast: usize,
    slow: usize,
    signal: usize,
) -> Seq<Float> {
    Seq::new(
        data.len(),
        |i: int|
            worst3(
                macd_line(ar, data, fast, slow, i),
                signal_at(ar, data, fast, slow, signal, i),
                histogram_at(ar, data, fast, slow, signal, i),
            ),
    )
}

/// The three series that are due for `data`.
pub open spec fn macd_whole<A: Arith>(
    ar: &A,
    data: Seq<Float>,
    fast: usize,
    slow: usize,
    signal: usize,
) -> (Seq<Float>, Seq<Float>, Seq<Float>) {
    (
        macd_values(ar, data, fast, slow, signal),
        signal_values(ar, data, fast, slow, signal),
        histogram_values(ar, data, fast, slow, signal),
    )
}

/// What `r` holds, for [`decided`].
pub open spec fn macd_got(r: Result<MacdResult, TechalibError>) -> Result<
    (Seq<Float>, Seq<Float>, Seq<Float>),
    Fault,
> {
    match r {
        Ok(res) => Ok((res.macd@, res.signal@, res.histogram@)),
        Err(e) => Err(e@),
    }
}

/// The values after one more sample: the two averages, their difference,
/// the signal and the histogram.
pub open spec fn macd_step<A: Arith>(
    ar: &A,
    new_value: Float,
    prev_fast_ema: Float,
    prev_slow_ema: Float,
    prev_signal: Float,
    fast_alpha: Float,
    slow_alpha: Float,
    signal_alpha: Float,
) -> (Float, Float, Float, Float, Float) {
    let fast_ema = ema_step(ar, new_value, prev_fast_ema, fast_alpha);
    let slow_ema = ema_step(ar, new_value, prev_slow_ema, slow_alpha);
    let macd = minus(ar, fast_ema, slow_ema);
    let signal = ema_step(ar, macd, prev_signal, signal_alpha);
    let histogram = minus(ar, macd, signal);
    (fast_ema, slow_ema, macd, signal, histogram)
}

impl MacdState {
    /// The three series and the state are a result for `data` and the three
    /// periods: each series is NaN before the first position with values
    /// and finite from there on, every sample is finite, and the state holds
    /// the last values and the periods.
    pub open spec fn closes(
        &self,
        macd: Seq<Float>,
        signal: Seq<Float>,
        histogram: Seq<Float>,
        data: Seq<Float>,
        fast_period: usize,
        slow_period: usize,
        signal_period: usize,
    ) -> bool {
        let start = macd_start(slow_period, signal_period) as nat;
        &&& filled(macd, data.len(), start)
        &&& filled(signal, data.len(), start)
        &&& filled(histogram, data.len(), start)
        &&& all_finite(data)
        &&& self.fast_period == fast_period
        &&& self.slow_period == slow_period
        &&& self.signal_period == signal_period
        &&& self.macd == macd[data.len() - 1]
        &&& self.signal == signal[data.len() - 1]
        &&& self.histogram == histogram[data.len() - 1]
    }

    /// The state is the one after the last sample of `data`.
    pub open spec fn at_end_of<A: Arith>(
        &self,
        ar: &A,
        data: Seq<Float>,
        fast: usize,
        slow: usize,
        signal: usize,
    ) -> bool {
        let last = data.len() - 1;
        &&& self.fast_period == fast
        &&& self.slow_period == slow
        &&& self.signal_period == signal
        &&& self.fast_ema == fast_ema_at(ar, data, fast, slow, last)
        &&& self.slow_ema == slow_ema_at(ar, data, slow, last)
        &&& self.macd == macd_line(ar, data, fast, slow, last)
        &&& self.signal == signal_at(ar, data, fast, slow, signal, last)
        &&& self.histogram == histogram_at(ar, data, fast, slow, signal, last)
    }

    /// Why the state refuses `sample` before anything is computed, if it
    /// does: see [`next_refusal`].
    pub open spec fn refusal(&self, sample: Float) -> Option<Fault> {
        next_refusal(
            sample,
            self.fast_ema,
            self.slow_ema,
            self.signal,
            self.fast_period,
            self.slow_period,
            self.signal_period,
        )
    }

    /// The values after `sample`, with the weights of the three periods.
    pub open spec fn next_values<A: Arith>(&self, ar: &A, sample: Float) -> (
        Float,
        Float,
        Float,
        Float,
        Float,
    ) {
        macd_step(
            ar,
            sample,
            self.fast_ema,
            self.slow_ema,
            self.signal,
            alpha_of(ar, self.fast_period, two()),
            alpha_of(ar, self.slow_period, two()),
            alpha_of(ar, self.signal_period, two()),
        )
    }
}

/// Why [`macd_next`] refuses its arguments before anything is computed, if
/// it does: the periods first, then the first value that is not finite.
pub open spec fn next_refusal(
    new_value: Float,
    prev_fast_ema: Float,
    prev_slow_ema: Float,
    prev_signal: Float,
    fast_period: usize,
    slow_period: usize,
    signal_period: usize,
) -> Option<Fault> {
    if periods_refusal(fast_period, slow_period, signal_period) is Some {
        periods_refusal(fast_period, slow_period, signal_period)
    } else if !new_value.finite() {
        Some(Fault::DataNonFinite("new_value"@))
    } else if !prev_fast_ema.finite() {
        Some(Fault::DataNonFinite("prev_fast_ema"@))
    } else if !prev_slow_ema.finite() {
        Some(Fault::DataNonFinite("prev_slow_ema"@))
    } else if !prev_signal.finite() {
        Some(Fault::DataNonFinite("prev_signal"@))
    } else {
        None
    }
}

/// One step of the three averages: see [`macd_step`].
pub fn macd_next_unchecked<A: Arith>(
    ar: &A,
    new_value: Float,
    prev_fast_ema: Float,
    prev_slow_ema: Float,
    prev_signal: Float,
    fast_alpha: Float,
    slow_alpha: Float,
    signal_alpha: Float,
) -> (r: (Float, Float, Float, Float, Float))
    ensures
        exact(ar) ==> r == macd_step(
            ar,
            new_value,
            prev_fast_ema,
            prev_slow_ema,
            prev_signal,
            fast_alpha,
            slow_alpha,
            signal_alpha,
        ),
{
    let fast_ema = ema_next_unchecked(ar, new_value, prev_fast_ema, fast_alpha);
    let slow_ema = ema_next_unchecked(ar, new_value, prev_slow_ema, slow_alpha);
    let macd = ar.sub(fast_ema, slow_ema);
    let signal = ema_next_unchecked(ar, macd, prev_signal, signal_alpha);
    let histogram = ar.sub(macd, signal);
    (fast_ema, slow_ema, macd, signal, histogram)
}

/// Checks the three periods: see [`periods_refusal`].
pub fn check_periods(fast_period: usize, slow_period: usize, signal_period: usize) -> (r: Result<
    (),
    TechalibError,
>)
    ensures
        periods_refusal(fast_period, slow_period, signal_period) matches Some(fault) ==> fails(
            r,
            fault,
        ),
        periods_refusal(fast_period, slow_period, signal_period) is None ==> r is Ok,
{
    if fast_period >= slow_period {
        return Err(TechalibError::bad_param("Fast period must be less than slow period"));
    }
    if fast_period <= 1 || slow_period <= 1 || signal_period <= 1 {
        return Err(TechalibError::bad_param("Periods must be greater than 1"));
    }
    Ok(())
}

/// The state after one more sample, from the values of the state before.
///
/// The checks come in the order of [`next_refusal`]; then the values are
/// computed, and the first of difference, signal and histogram that is not
/// finite is reported as an overflow at position 0.
pub fn macd_next<A: Arith>(
    ar: &A,
    new_value: Float,
    prev_fast_ema: Float,
    prev_slow_ema: Float,
    prev_signal: Float,
    fast_period: usize,
    slow_period: usize,
    signal_period: usize,
) -> (r: Result<MacdState, TechalibError>)
    ensures
        next_refusal(
            new_value,
            prev_fast_ema,
            prev_slow_ema,
            prev_signal,
            fast_period,
            slow_period,
            signal_period,
        ) matches Some(fault) ==> fails(r, fault),
        next_refusal(
            new_value,
            prev_fast_ema,
            prev_slow_ema,
            prev_signal,
            fast_period,
            slow_period,
            signal_period,
        ) is None ==> match r {
            Ok(state) => {
                &&& state.fast_period == fast_period
                &&& state.slow_period == slow_period
                &&& state.signal_period == signal_period
                &&& state.macd.finite()
                &&& state.signal.finite()
                &&& state.histogram.finite()
            },
            Err(e) => step_overflow(e@),
        },
        exact(ar) && next_refusal(
            new_value,
            prev_fast_ema,
            prev_slow_ema,
            prev_signal,
            fast_period,
            slow_period,
            signal_period,
        ) is None ==> {
            let v = macd_step(
                ar,
                new_value,
                prev_fast_ema,
                prev_slow_ema,
                prev_signal,
                alpha_of(ar, fast_period, two()),
                alpha_of(ar, slow_period, two()),
                alpha_of(ar, signal_period, two()),
            );
            if worst3(v.2, v.3, v.4).finite() {
                r == Ok::<MacdState, TechalibError>(
                    MacdState {
                        fast_ema: v.0,
                        slow_ema: v.1,
                        macd: v.2,
                        signal: v.3,
                        histogram: v.4,
                        fast_period,
                        slow_period,
                        signal_period,
                    },
                )
            } else {
                fails(r, Fault::Overflow(0, worst3(v.2, v.3, v.4)))
            }
        },
{
    check_periods(fast_period, slow_period, signal_period)?;
    if !new_value.is_finite() {
        return Err(TechalibError::non_finite("new_value"));
    }
    if !prev_fast_ema.is_finite() {
        return Err(TechalibError::non_finite("prev_fast_ema"));
    }
    if !prev_slow_ema.is_finite() {
        return Err(TechalibError::non_finite("prev_slow_ema"));
    }
    if !prev_signal.is_finite() {
        return Err(TechalibError::non_finite("prev_signal"));
    }
    let fast_alpha = alpha_unchecked(ar, fast_period, Float { bits: TWO_BITS });
    let slow_alpha = alpha_unchecked(ar, slow_period, Float { bits: TWO_BITS });
    let signal_alpha = alpha_unchecked(ar, signal_period, Float { bits: TWO_BITS });
    let (fast_ema, slow_ema, macd, signal, histogram) = macd_next_unchecked(
        ar,
        new_value,
        prev_fast_ema,
        prev_slow_ema,
        prev_signal,
        fast_alpha,
        slow_alpha,
        signal_alpha,
    );
    if !macd.is_finite() {
        return Err(TechalibError::Overflow(0, macd));
    }
    if !signal.is_finite() {
        return Err(TechalibError::Overflow(0, signal));
    }
    if !histogram.is_finite() {
        return Err(TechalibError::Overflow(0, histogram));
    }
    Ok(
        MacdState {
            fast_ema,
            slow_ema,
            macd,
            signal,
            histogram,
            fast_period,
            slow_period,
            signal_period,
        },
    )
}

impl MacdState {
    /// The state after `new_value`: [`macd_next`] on the values of this one.
    pub fn next<A: Arith>(&self, ar: &A, new_value: Float) -> (r: Result<MacdState, TechalibError>)
        ensures
            self.refusal(new_value) matches Some(fault) ==> fails(r, fault),
            self.refusal(new_value) is None ==> match r {
                Ok(state) => {
                    &&& state.fast_period == self.fast_period
                    &&& state.slow_period == self.slow_period
                    &&& state.signal_period == self.signal_period
                    &&& state.macd.finite()
                    &&& state.signal.finite()
                    &&& state.histogram.finite()
                },
                Err(e) => step_overflow(e@),
            },
            exact(ar) && self.refusal(new_value) is None ==> {
                let v = self.next_values(ar, new_value);
                if worst3(v.2, v.3, v.4).finite() {
                    r == Ok::<MacdState, TechalibError>(
                        MacdState {
                            fast_ema: v.0,
                            slow_ema: v.1,
                            macd: v.2,
                            signal: v.3,
                            histogram: v.4,
                            fast_period: self.fast_period,
                            slow_period: self.slow_period,
                            signal_period: self.signal_period,
                        },
                    )
                } else {
                    fails(r, Fault::Overflow(0, worst3(v.2, v.3, v.4)))
                }
            },
    {
        macd_next(
            ar,
            new_value,
            self.fast_ema,
            self.slow_ema,
            self.signal,
            self.fast_period,
            self.slow_period,
            self.signal_period,
        )
    }
}

/// The moving average convergence/divergence of `data`.
///
/// The periods are checked first (see [`periods_refusal`]), then the length
/// of the series, which must be at least `slow_period + signal_period`. The
/// samples are then taken in order: the first that is not finite, or whose
/// difference, signal or histogram is not finite, ends the calculation with
/// its report.
pub fn macd<A: Arith>(
    ar: &A,
    data: &[Float],
    fast_period: usize,
    slow_period: usize,
    signal_period: usize,
) -> (r: Result<MacdResult, TechalibError>)
    ensures
        periods_refusal(fast_period, slow_period, signal_period) matches Some(fault) ==> fails(
            r,
            fault,
        ),
        periods_refusal(fast_period, slow_period, signal_period) is None && data@.len()
            < slow_period + signal_period ==> fails(r, Fault::InsufficientData),
        periods_refusal(fast_period, slow_period, signal_period) is None && data@.len()
            >= slow_period + signal_period ==> match r {
            Ok(res) => res.state.closes(
                res.macd@,
                res.signal@,
                res.histogram@,
                data@,
                fast_period,
                slow_period,
                signal_period,
            ),
            Err(e) => sound_failure(e@, data@, macd_start(slow_period, signal_period)),
        },
        exact(ar) && periods_refusal(fast_period, slow_period, signal_period) is None && data@.len()
            >= slow_period + signal_period ==> {
            &&& decided(
                macd_got(r),
                data@,
                macd_checked(ar, data@, fast_period, slow_period, signal_period),
                macd_start(slow_period, signal_period),
                macd_whole(ar, data@, fast_period, slow_period, signal_period),
            )
            &&& r matches Ok(res) ==> res.state.at_end_of(
                ar,
                data@,
                fast_period,
                slow_period,
                signal_period,
            )
        },
{
    check_periods(fast_period, slow_period, signal_period)?;
    let len = data.len();
    if len < slow_period || len - slow_period < signal_period {
        return Err(TechalibError::InsufficientData);
    }
    let fast_start = slow_period - fast_period;
    let start = (slow_period - 1) + (signal_period - 1);
    let ghost checked = macd_checked(ar, data@, fast_period, slow_period, signal_period);
    let ghost whole = macd_whole(ar, data@, fast_period, slow_period, signal_period);
    let ghost lookback = macd_start(slow_period, signal_period);

    let fast_alpha = alpha_unchecked(ar, fast_period, Float { bits: TWO_BITS });
    let slow_alpha = alpha_unchecked(ar, slow_period, Float { bits: TWO_BITS });
    let signal_alpha = alpha_unchecked(ar, signal_period, Float { bits: TWO_BITS });

    let mut out_macd: Vec<Float> = Vec::new();
    let mut out_signal: Vec<Float> = Vec::new();
    let mut out_histogram: Vec<Float> = Vec::new();
    let mut fast_sum = Float { bits: 0 };
    let mut slow_sum = Float { bits: 0 };

    let mut idx: usize = 0;
    while idx < slow_period
        invariant
            1 < fast_period < slow_period <= len,
            fast_start == slow_period - fast_period,
            signal_period >= 2,
            slow_period + signal_period <= len,
            lookback == macd_start(slow_period, signal_period),
            checked == macd_checked(ar, data@, fast_period, slow_period, signal_period),
            whole == macd_whole(ar, data@, fast_period, slow_period, signal_period),
            len == data@.len(),
            idx <= slow_period,
            finite_upto(data@, idx as int),
            out_macd@ =~= nans(idx as nat),
            out_signal@ =~= nans(idx as nat),
            out_histogram@ =~= nans(idx as nat),
            exact(ar) ==> slow_sum == running_sum(ar, data@, idx as nat),
            exact(ar) ==> fast_sum == running_sum(
                ar,
                data@.skip(fast_start as int),
                (if idx < fast_start {
                    0
                } else {
                    idx - fast_start
                }) as nat,
            ),
        decreases slow_period - idx,
    {
        let value = data[idx];
        if !value.is_finite() {
            proof {
                if exact(ar) {
                    lemma_clean_before_lookback(data@, checked, lookback, idx as int);
                    assert(bad(data@, checked, lookback, idx as int));
                    lemma_decided_at(
                        Err(Fault::DataNonFinite("data"@)),
                        data@,
                        checked,
                        lookback,
                        whole,
                        idx as int,
                    );
                }
            }
            return Err(TechalibError::non_finite("data"));
        }
        slow_sum = ar.add(slow_sum, value);
        if idx >= fast_start {
            fast_sum = ar.add(fast_sum, value);
        }
        out_macd.push(nan_value());
        out_signal.push(nan_value());
        out_histogram.push(nan_value());
        idx += 1;
    }
    let mut fast_ema = ar.div(fast_sum, ar.count(fast_period));
    let mut slow_ema = ar.div(slow_sum, ar.count(slow_period));
    let mut sum_macd = ar.sub(fast_ema, slow_ema);

    while idx < start
        invariant
            1 < fast_period < slow_period <= idx <= start < len,
            start == (slow_period - 1) + (signal_period - 1),
            signal_period >= 2,
            slow_period + signal_period <= len,
            lookback == macd_start(slow_period, signal_period),
            checked == macd_checked(ar, data@, fast_period, slow_period, signal_period),
            whole == macd_whole(ar, data@, fast_period, slow_period, signal_period),
            len == data@.len(),
            finite_upto(data@, idx as int),
            out_macd@ =~= nans(idx as nat),
            out_signal@ =~= nans(idx as nat),
            out_histogram@ =~= nans(idx as nat),
            exact(ar) ==> fast_alpha == alpha_of(ar, fast_period, two()),
            exact(ar) ==> slow_alpha == alpha_of(ar, slow_period, two()),
            exact(ar) ==> fast_ema == fast_ema_at(ar, data@, fast_period, slow_period, idx - 1),
            exact(ar) ==> slow_ema == slow_ema_at(ar, data@, slow_period, idx - 1),
            exact(ar) ==> sum_macd == macd_sum(ar, data@, fast_period, slow_period, idx - 1),
        decreases start - idx,
    {
        let value = data[idx];
        if !value.is_finite() {
            proof {
                if exact(ar) {
                    lemma_clean_before_lookback(data@, checked, lookback, idx as int);
                    assert(bad(data@, checked, lookback, idx as int));
                    lemma_decided_at(
                        Err(Fault::DataNonFinite("data"@)),
                        data@,
                        checked,
                        lookback,
                        whole,
                        idx as int,
                    );
                }
            }
            return Err(TechalibError::non_finite("data"));
        }
        fast_ema = ema_next_unchecked(ar, value, fast_ema, fast_alpha);
        slow_ema = ema_next_unchecked(ar, value, slow_ema, slow_alpha);
        let diff = ar.sub(fast_ema, slow_ema);
        sum_macd = ar.add(sum_macd, diff);
        out_macd.push(nan_value());
        out_signal.push(nan_value());
        out_histogram.push(nan_value());
        idx += 1;
    }

    // The first position with values.
    let value = data[start];
    if !value.is_finite() {
        proof {
            if exact(ar) {
                lemma_clean_before_lookback(data@, checked, lookback, start as int);
                assert(bad(data@, checked, lookback, start as int));
                lemma_decided_at(
                    Err(Fault::DataNonFinite("data"@)),
                    data@,
                    checked,
                    lookback,
                    whole,
                    start as int,
                );
            }
        }
        return Err(TechalibError::non_finite("data"));
    }
    fast_ema = ema_next_unchecked(ar, value, fast_ema, fast_alpha);
    slow_ema = ema_next_unchecked(ar, value, slow_ema, slow_alpha);
    let first_macd = ar.sub(fast_ema, slow_ema);
    sum_macd = ar.add(sum_macd, first_macd);
    let first_signal = ar.div(sum_macd, ar.count(signal_period));
    let first_histogram = ar.sub(first_macd, first_signal);
    proof {
        if exact(ar) {
            lemma_clean_before_lookback(data@, checked, lookback, start as int);
            assert(first_macd == macd_line(ar, data@, fast_period, slow_period, start as int));
            assert(first_signal == signal_at(
                ar,
                data@,
                fast_period,
                slow_period,
                signal_period,
                start as int,
            ));
            assert(checked[start as int] == worst3(first_macd, first_signal, first_histogram));
        }
    }
    if !first_macd.is_finite() || !first_signal.is_finite() || !first_histogram.is_finite() {
        let worst = if !first_macd.is_finite() {
            first_macd
        } else if !first_signal.is_finite() {
            first_signal
        } else {
            first_histogram
        };
        proof {
            if exact(ar) {
                assert(bad(data@, checked, lookback, start as int));
                lemma_decided_at(
                    Err(Fault::Overflow(start, worst)),
                    data@,
                    checked,
                    lookback,
                    whole,
                    start as int,
                );
            }
        }
        return Err(TechalibError::Overflow(start, worst));
    }
    out_macd.push(first_macd);
    out_signal.push(first_signal);
    out_histogram.push(first_histogram);
    let mut prev_macd = first_macd;
    let mut prev_signal = first_signal;
    let mut prev_histogram = first_histogram;
    idx = start + 1;
    proof {
        if exact(ar) {
            assert(!bad(data@, checked, lookback, start as int));
            assert(out_macd@ =~= whole.0.take(idx as int));
            assert(out_signal@ =~= whole.1.take(idx as int));
            assert(out_histogram@ =~= whole.2.take(idx as int));
        }
    }

    while idx < len
        invariant
            1 < fast_period < slow_period,
            signal_period >= 2,
            start == (slow_period - 1) + (signal_period - 1),
            lookback == start,
            start < idx <= len,
            len == data@.len(),
            checked == macd_checked(ar, data@, fast_period, slow_period, signal_period),
            whole == macd_whole(ar, data@, fast_period, slow_period, signal_period),
            finite_upto(data@, idx as int),
            filled(out_macd@, idx as nat, start as nat),
            filled(out_signal@, idx as nat, start as nat),
            filled(out_histogram@, idx as nat, start as nat),
            prev_macd == out_macd@[idx - 1],
            prev_signal == out_signal@[idx - 1],
            prev_histogram == out_histogram@[idx - 1],
            exact(ar) ==> fast_alpha == alpha_of(ar, fast_period, two()),
            exact(ar) ==> slow_alpha == alpha_of(ar, slow_period, two()),
            exact(ar) ==> signal_alpha == alpha_of(ar, signal_period, two()),
            exact(ar) ==> fast_ema == fast_ema_at(ar, data@, fast_period, slow_period, idx - 1),
            exact(ar) ==> slow_ema == slow_ema_at(ar, data@, slow_period, idx - 1),
            exact(ar) ==> prev_macd == macd_line(ar, data@, fast_period, slow_period, idx - 1),
            exact(ar) ==> prev_signal == signal_at(
                ar,
                data@,
                fast_period,
                slow_period,
                signal_period,
                idx - 1,
            ),
            exact(ar) ==> prev_histogram == histogram_at(
                ar,
                data@,
                fast_period,
                slow_period,
                signal_period,
                idx - 1,
            ),
            exact(ar) ==> clean(data@, checked, lookback, idx as int),
            exact(ar) ==> out_macd@ == whole.0.take(idx as int),
            exact(ar) ==> out_signal@ == whole.1.take(idx as int),
            exact(ar) ==> out_histogram@ == whole.2.take(idx as int),
        decreases len - idx,
    {
        let value = data[idx];
        if !value.is_finite() {
            proof {
                if exact(ar) {
                    assert(bad(data@, checked, lookback, idx as int));
                    lemma_decided_at(
                        Err(Fault::DataNonFinite("data"@)),
                        data@,
                        checked,
                        lookback,
                        whole,
                        idx as int,
                    );
                }
            }
            return Err(TechalibError::non_finite("data"));
        }
        let (next_fast, next_slow, next_macd, next_signal, next_histogram) = macd_next_unchecked(
            ar,
            value,
            fast_ema,
            slow_ema,
            prev_signal,
            fast_alpha,
            slow_alpha,
            signal_alpha,
        );
        proof {
            if exact(ar) {
                assert(next_fast == fast_ema_at(ar, data@, fast_period, slow_period, idx as int));
                assert(next_slow == slow_ema_at(ar, data@, slow_period, idx as int));
                assert(next_macd == macd_line(ar, data@, fast_period, slow_period, idx as int));
                assert(next_signal == signal_at(
                    ar,
                    data@,
                    fast_period,
                    slow_period,
                    signal_period,
                    idx as int,
                ));
                assert(checked[idx as int] == worst3(next_macd, next_signal, next_histogram));
            }
        }
        if !next_macd.is_finite() || !next_signal.is_finite() || !next_histogram.is_finite() {
            let worst = if !next_macd.is_finite() {
                next_macd
            } else if !next_signal.is_finite() {
                next_signal
            } else {
                next_histogram
            };
            proof {
                if exact(ar) {
                    assert(bad(data@, checked, lookback, idx as int));
                    lemma_decided_at(
                        Err(Fault::Overflow(idx, worst)),
                        data@,
                        checked,
                        lookback,
                        whole,
                        idx as int,
                    );
                }
            }
            return Err(TechalibError::Overflow(idx, worst));
        }
        fast_ema = next_fast;
        slow_ema = next_slow;
        out_macd.push(next_macd);
        out_signal.push(next_signal);
        out_histogram.push(next_histogram);
        prev_macd = next_macd;
        prev_signal = next_signal;
        prev_histogram = next_histogram;
        proof {
            if exact(ar) {
                assert(!bad(data@, checked, lookback, idx as int));
                assert(out_macd@ =~= whole.0.take(idx + 1));
                assert(out_signal@ =~= whole.1.take(idx + 1));
                assert(out_histogram@ =~= whole.2.take(idx + 1));
            }
        }
        idx += 1;
    }
    let state = MacdState {
        fast_ema,
        slow_ema,
        macd: prev_macd,
        signal: prev_signal,
        histogram: prev_histogram,
        fast_period,
        slow_period,
        signal_period,
    };
    proof {
        if exact(ar) {
            assert(whole.0.take(len as int) == whole.0);
            assert(whole.1.take(len as int) == whole.1);
            assert(whole.2.take(len as int) == whole.2);
            lemma_decided_ok(data@, checked, lookback, whole);
        }
    }
    Ok(MacdResult { macd: out_macd, signal: out_signal, histogram: out_histogram, state })
}

/// The moving average convergence/divergence of `data`, written into the
/// three outputs. An output whose length is not that of the input is refused
/// first. Where the calculation fails, the outputs are left as they were.
pub fn macd_into<A: Arith>(
    ar: &A,
    data: &[Float],
    fast_period: usize,
    slow_period: usize,
    signal_period: usize,
    output_macd: &mut [Float],
    output_signal: &mut [Float],
    output_histogram: &mut [Float],
) -> (r: Result<MacdState, TechalibError>)
    ensures
        final(output_macd)@.len() == old(output_macd)@.len(),
        final(output_signal)@.len() == old(output_signal)@.len(),
        final(output_histogram)@.len() == old(output_histogram)@.len(),
        r is Err ==> final(output_macd)@ == old(output_macd)@ && final(output_signal)@ == old(
            output_signal,
        )@ && final(output_histogram)@ == old(output_histogram)@,
        old(output_macd)@.len() != data@.len() || old(output_signal)@.len() != data@.len() || old(
            output_histogram,
        )@.len() != data@.len() ==> fails(r, Fault::BadParam(length_text())),
        old(output_macd)@.len() == data@.len() && old(output_signal)@.len() == data@.len() && old(
            output_histogram,
        )@.len() == data@.len() ==> {
            &&& periods_refusal(fast_period, slow_period, signal_period) matches Some(fault)
                ==> fails(r, fault)
            &&& periods_refusal(fast_period, slow_period, signal_period) is None && data@.len()
                < slow_period + signal_period ==> fails(r, Fault::InsufficientData)
            &&& periods_refusal(fast_period, slow_period, signal_period) is None && data@.len()
                >= slow_period + signal_period ==> match r {
                Ok(state) => state.closes(
                    final(output_macd)@,
                    final(output_signal)@,
                    final(output_histogram)@,
                    data@,
                    fast_period,
                    slow_period,
                    signal_period,
                ),
                Err(e) => sound_failure(e@, data@, macd_start(slow_period, signal_period)),
            }
            &&& exact(ar) && periods_refusal(fast_period, slow_period, signal_period) is None
                && data@.len() >= slow_period + signal_period ==> {
                &&& decided(
                    match r {
                        Ok(state) => Ok(
                            (
                                final(output_macd)@,
                                final(output_signal)@,
                                final(output_histogram)@,
                            ),
                        ),
                        Err(e) => Err(e@),
                    },
                    data@,
                    macd_checked(ar, data@, fast_period, slow_period, signal_period),
                    macd_start(slow_period, signal_period),
                    macd_whole(ar, data@, fast_period, slow_period, signal_period),
                )
                &&& r matches Ok(state) ==> state.at_end_of(
                    ar,
                    data@,
                    fast_period,
                    slow_period,
                    signal_period,
                )
            }
        },
{
    TechalibError::check_same_length(output_macd, data)?;
    TechalibError::check_same_length(output_signal, data)?;
    TechalibError::check_same_length(output_histogram, data)?;
    let res = macd(ar, data, fast_period, slow_period, signal_period)?;
    copy_into(&res.macd, output_macd);
    copy_into(&res.signal, output_signal);
    copy_into(&res.histogram, output_histogram);
    Ok(res.state)
}

/// The two averages at a position depend on the samples up to that position
/// only, for a prefix that holds the first `slow` samples.
pub proof fn lemma_macd_emas_prefix<A: Arith>(
    ar: &A,
    data: Seq<Float>,
    fast: usize,
    slow: usize,
    k: int,
    i: int,
)
    requires
        0 < fast < slow <= k <= data.len(),
        i < k,
    ensures
        fast_ema_at(ar, data.take(k), fast, slow, i) == fast_ema_at(ar, data, fast, slow, i),
        slow_ema_at(ar, data.take(k), slow, i) == slow_ema_at(ar, data, slow, i),
        macd_line(ar, data.take(k), fast, slow, i) == macd_line(ar, data, fast, slow, i),
    decreases i,
{
    if i <= slow - 1 || i <= 0 {
        lemma_running_sum_same(
            ar,
            data.take(k).skip(slow - fast),
            data.skip(slow - fast),
            fast as nat,
        );
        lemma_running_sum_same(ar, data.take(k), data, slow as nat);
    } else {
        lemma_macd_emas_prefix(ar, data, fast, slow, k, i - 1);
    }
}

/// The sum of the differences up to a position depends on the samples up to
/// that position only.
pub proof fn lemma_macd_sum_prefix<A: Arith>(
    ar: &A,
    data: Seq<Float>,
    fast: usize,
    slow: usize,
    k: int,
    i: int,
)
    requires
        0 < fast < slow <= k <= data.len(),
        i < k,
    ensures
        macd_sum(ar, data.take(k), fast, slow, i) == macd_sum(ar, data, fast, slow, i),
    decreases i,
{
    if i <= slow - 1 || i <= 0 {
        lemma_macd_emas_prefix(ar, data, fast, slow, k, slow - 1);
    } else {
        lemma_macd_sum_prefix(ar, data, fast, slow, k, i - 1);
        lemma_macd_emas_prefix(ar, data, fast, slow, k, i);
    }
}

/// The signal and the histogram at a position depend on the samples up to
/// that position only, for a prefix that reaches the first position with
/// values.
pub proof fn lemma_macd_signal_prefix<A: Arith>(
    ar: &A,
    data: Seq<Float>,
    fast: usize,
    slow: usize,
    signal: usize,
    k: int,
    i: int,
)
    requires
        0 < fast < slow,
        signal >= 1,
        macd_start(slow, signal) < k <= data.len(),
        i < k,
    ensures
        signal_at(ar, data.take(k), fast, slow, signal, i) == signal_at(
            ar,
            data,
            fast,
            slow,
            signal,
            i,
        ),
        histogram_at(ar, data.take(k), fast, slow, signal, i) == histogram_at(
            ar,
            data,
            fast,
            slow,
            signal,
            i,
        ),
    decreases i,
{
    lemma_macd_emas_prefix(ar, data, fast, slow, k, i);
    if i <= macd_start(slow, signal) || i <= 0 {
        lemma_macd_sum_prefix(ar, data, fast, slow, k, macd_start(slow, signal));
    } else {
        lemma_macd_signal_prefix(ar, data, fast, slow, signal, k, i - 1);
    }
}

/// No lookahead: the three series of the first `k` samples are the first
/// `k` positions of the three series of the whole input.
pub proof fn lemma_macd_no_lookahead<A: Arith>(
    ar: &A,
    data: Seq<Float>,
    fast: usize,
    slow: usize,
    signal: usize,
    k: int,
)
    requires
        0 < fast < slow,
        signal >= 1,
        0 <= k <= data.len(),
    ensures
        macd_values(ar, data.take(k), fast, slow, signal) == macd_values(
            ar,
            data,
            fast,
            slow,
            signal,
        ).take(k),
        signal_values(ar, data.take(k), fast, slow, signal) == signal_values(
            ar,
            data,
            fast,
            slow,
            signal,
        ).take(k),
        histogram_values(ar, data.take(k), fast, slow, signal) == histogram_values(
            ar,
            data,
            fast,
            slow,
            signal,
        ).take(k),
{
    assert forall|i: int| macd_start(slow, signal) <= i < k implies {
        &&& macd_line(ar, data.take(k), fast, slow, i) == macd_line(ar, data, fast, slow, i)
        &&& signal_at(ar, data.take(k), fast, slow, signal, i) == signal_at(
            ar,
            data,
            fast,
            slow,
            signal,
            i,
        )
        &&& histogram_at(ar, data.take(k), fast, slow, signal, i) == histogram_at(
            ar,
            data,
            fast,
            slow,
            signal,
            i,
        )
    } by {
        lemma_macd_emas_prefix(ar, data, fast, slow, k, i);
        lemma_macd_signal_prefix(ar, data, fast, slow, signal, k, i);
    }
    assert(macd_values(ar, data.take(k), fast, slow, signal) =~= macd_values(
        ar,
        data,
        fast,
        slow,
        signal,
    ).take(k));
    assert(signal_values(ar, data.take(k), fast, slow, signal) =~= signal_values(
        ar,
        data,
        fast,
        slow,
        signal,
    ).take(k));
    assert(histogram_values(ar, data.take(k), fast, slow, signal) =~= histogram_values(
        ar,
        data,
        fast,
        slow,
        signal,
    ).take(k));
}

/// Streaming consistency: from the state after the first `k` samples, the
/// values after sample `k` are those that are due at position `k` of the
/// series with one sample more.
pub proof fn lemma_macd_streaming<A: Arith>(
    ar: &A,
    data: Seq<Float>,
    fast: usize,
    slow: usize,
    signal: usize,
    k: int,
    state: MacdState,
)
    requires
        0 < fast < slow,
        signal >= 1,
        macd_start(slow, signal) < k < data.len(),
        state.at_end_of(ar, data.take(k), fast, slow, signal),
    ensures
        state.next_values(ar, data[k]).2 == macd_values(
            ar,
            data.take(k + 1),
            fast,
            slow,
            signal,
        )[k],
        state.next_values(ar, data[k]).3 == signal_values(
            ar,
            data.take(k + 1),
            fast,
            slow,
            signal,
        )[k],
        state.next_values(ar, data[k]).4 == histogram_values(
            ar,
            data.take(k + 1),
            fast,
            slow,
            signal,
        )[k],
        state.next_values(ar, data[k]).0 == fast_ema_at(ar, data.take(k + 1), fast, slow, k),
        state.next_values(ar, data[k]).1 == slow_ema_at(ar, data.take(k + 1), slow, k),
{
    lemma_macd_emas_prefix(ar, data, fast, slow, k, k - 1);
    lemma_macd_signal_prefix(ar, data, fast, slow, signal, k, k - 1);
    lemma_macd_emas_prefix(ar, data, fast, slow, k + 1, k - 1);
    lemma_macd_signal_prefix(ar, data, fast, slow, signal, k + 1, k - 1);
}

impl State<Float> for MacdState {
    /// Moves the state on by `sample`: the state becomes what
    /// [`MacdState::next`] returns.
    fn update<A: Arith>(&mut self, ar: &A, sample: Float) -> (r: Result<(), TechalibError>)
        ensures
            old(self).refusal(sample) matches Some(fault) ==> fails(r, fault),
            old(self).refusal(sample) is None ==> match r {
                Ok(_) => {
                    &&& final(self).fast_period == old(self).fast_period
                    &&& final(self).slow_period == old(self).slow_period
                    &&& final(self).signal_period == old(self).signal_period
                    &&& final(self).macd.finite()
                    &&& final(self).signal.finite()
                    &&& final(self).histogram.finite()
                },
                Err(e) => step_overflow(e@),
            },
            exact(ar) && old(self).refusal(sample) is None ==> {
                let v = old(self).next_values(ar, sample);
                if worst3(v.2, v.3, v.4).finite() {
                    &&& r is Ok
                    &&& *final(self) == (MacdState {
                        fast_ema: v.0,
                        slow_ema: v.1,
                        macd: v.2,
                        signal: v.3,
                        histogram: v.4,
                        fast_period: old(self).fast_period,
                        slow_period: old(self).slow_period,
                        signal_period: old(self).signal_period,
                    })
                } else {
                    fails(r, Fault::Overflow(0, worst3(v.2, v.3, v.4)))
                }
            },
    {
        let next = self.next(ar, sample)?;
        *self = next;
        Ok(())
    }
}

impl From<MacdResult> for (Vec<Float>, Vec<Float>, Vec<Float>) {
    /// The three series of the result, without its state.
    fn from(result: MacdResult) -> (series: (Vec<Float>, Vec<Float>, Vec<Float>)) {
        (result.macd, result.signal, result.histogram)
    }
}

impl vstd::std_specs::convert::FromSpecImpl<MacdResult> for (Vec<Float>, Vec<Float>, Vec<Float>) {
    open spec fn obeys_from_spec() -> bool {
        true
    }

    open spec fn from_spec(result: MacdResult) -> (Vec<Float>, Vec<Float>, Vec<Float>) {
        (result.macd, result.signal, result.histogram)
    }
}

/// No lookahead, of the results: where the three series of an input come
/// out, those of its first `k` samples come out too, and they are the first
/// `k` positions of the series of the whole input. `full` and `part` are
/// what [`macd`] returns for an exact arithmetic.
pub proof fn lemma_macd_prefix_result<A: Arith>(
    ar: &A,
    data: Seq<Float>,
    fast: usize,
    slow: usize,
    signal: usize,
    k: int,
    full: Result<(Seq<Float>, Seq<Float>, Seq<Float>), Fault>,
    part: Result<(Seq<Float>, Seq<Float>, Seq<Float>), Fault>,
)
    requires
        0 < fast < slow,
        signal >= 1,
        0 <= k <= data.len(),
        decided(
            full,
            data,
            macd_checked(ar, data, fast, slow, signal),
            macd_start(slow, signal),
            macd_whole(ar, data, fast, slow, signal),
        ),
        decided(
            part,
            data.take(k),
            macd_checked(ar, data.take(k), fast, slow, signal),
            macd_start(slow, signal),
            macd_whole(ar, data.take(k), fast, slow, signal),
        ),
        full matches Ok(series),
    ensures
        full matches Ok(series) && part == Ok::<(Seq<Float>, Seq<Float>, Seq<Float>), Fault>(
            (series.0.take(k), series.1.take(k), series.2.take(k)),
        ),
{
    let checked = macd_checked(ar, data, fast, slow, signal);
    let first = macd_checked(ar, data.take(k), fast, slow, signal);
    lemma_macd_no_lookahead(ar, data, fast, slow, signal, k);
    assert forall|i: int| 0 <= i < k && macd_start(slow, signal) <= i implies #[trigger] first[i]
        == checked[i] by {
        lemma_macd_emas_prefix(ar, data, fast, slow, k, i);
        lemma_macd_signal_prefix(ar, data, fast, slow, signal, k, i);
    }
    lemma_prefix_runs_through(
        full,
        part,
        data,
        checked,
        first,
        macd_start(slow, signal),
        k,
        macd_whole(ar, data, fast, slow, signal),
        macd_whole(ar, data.take(k), fast, slow, signal),
    );
}

/// Streaming consistency, of the results: the state that [`macd`] returns
/// for the first `k` samples takes sample `k`, where the series of the
/// first `k + 1` samples come out and the two stored averages are finite,
/// and its step gives the three values at position `k`. The series, `state`
/// and `longer` are what [`macd`] returns for an exact arithmetic; it does
/// not test the two averages, which the step does.
pub proof fn lemma_macd_update_result<A: Arith>(
    ar: &A,
    data: Seq<Float>,
    fast: usize,
    slow: usize,
    signal: usize,
    k: int,
    before: (Seq<Float>, Seq<Float>, Seq<Float>),
    state: MacdState,
    longer: Result<(Seq<Float>, Seq<Float>, Seq<Float>), Fault>,
)
    requires
        periods_refusal(fast, slow, signal) is None,
        macd_start(slow, signal) < k < data.len(),
        state.fast_ema.finite(),
        state.slow_ema.finite(),
        state.closes(before.0, before.1, before.2, data.take(k), fast, slow, signal),
        state.at_end_of(ar, data.take(k), fast, slow, signal),
        decided(
            longer,
            data.take(k + 1),
            macd_checked(ar, data.take(k + 1), fast, slow, signal),
            macd_start(slow, signal),
            macd_whole(ar, data.take(k + 1), fast, slow, signal),
        ),
        longer matches Ok(series),
    ensures
        state.refusal(data[k]) is None,
        worst3(
            state.next_values(ar, data[k]).2,
            state.next_values(ar, data[k]).3,
            state.next_values(ar, data[k]).4,
        ).finite(),
        longer matches Ok(series) && state.next_values(ar, data[k]).2 == series.0[k]
            && state.next_values(ar, data[k]).3 == series.1[k] && state.next_values(
            ar,
            data[k],
        ).4 == series.2[k],
{
    let long = data.take(k + 1);
    let checked = macd_checked(ar, long, fast, slow, signal);
    assert(!bad(long, checked, macd_start(slow, signal), k));
    assert(before.1[k - 1].finite());
    lemma_macd_streaming(ar, data, fast, slow, signal, k, state);
}

} // verus!
