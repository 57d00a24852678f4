//! Weighted moving average: the mean of the last `period` samples with
//! weights that rise linearly to the newest sample.
use crate::arith::{counted, exact, minus, over, plus, times, Arith};
use crate::errors::{fails, length_text, step_overflow, Fault, TechalibError};
use crate::float::{nan, one, two, zero, Float, ONE_BITS, TWO_BITS};
use crate::series::{
    all_finite, bad, clean, copy_into, decided, filled, finite_upto, first_non_finite,
    lemma_clean_before_lookback, lemma_decided_at, lemma_decided_ok, lemma_prefix_runs_through,
    nans, push_nans, shift_window, shifted, sound_failure, tail, tail_window,
};
use crate::traits::State;
use std::collections::VecDeque;
use vstd::prelude::*;

verus! {

/// The averages of a series and the state that continues them.
#[derive(Debug)]
pub struct WmaResult {
    /// One value for each sample: NaN before position `period - 1`.
    pub values: Vec<Float>,
    /// The state after the last sample.
    pub state: WmaState,
}

/// What the next average is computed from.
#[derive(Debug, Clone)]
pub struct WmaState {
    /// The last average.
    pub wma: Float,
    pub period: usize,
    /// The plain sum of the window.
    pub period_sub: Float,
    /// The weighted sum of the window, with the weights one step back: the
    /// oldest sample counts 0 times.
    pub period_sum: Float,
    /// The last `period` samples, oldest first.
    pub window: VecDeque<Float>,
}

/// The text of the refusal of a period below 2.
pub open spec fn wma_period_text() -> Seq<char> {
    "WMA period must be greater than 1"@
}

/// The text of the refusal of a window whose length is not the period.
pub open spec fn wma_window_text() -> Seq<char> {
    "Window length must match the WMA period"@
}

/// One over the sum of the weights: `2 / (period * (period + 1))`.
pub open spec fn inv_weight_linear<A: Arith>(ar: &A, period: usize) -> Float {
    let p = counted(ar, period);
    over(ar, two(), times(ar, p, plus(ar, p, one())))
}

/// The plain sum of the first `n` samples and their sum with each sample
/// times its position, counted from 0.
pub open spec fn linear_sums<A: Arith>(ar: &A, data: Seq<Float>, n: nat) -> (Float, Float)
    decreases n,
{
    if n == 0 {
        (zero(), zero())
    } else {
        let before = linear_sums(ar, data, (n - 1) as nat);
        (
            plus(ar, before.0, data[n - 1]),
            plus(ar, before.1, times(ar, data[n - 1], counted(ar, (n - 1) as usize))),
        )
    }
}

/// The average and the two sums after one more sample: the plain sum loses
/// `old_value` and gains `new_value`; the weighted sum gains `new_value`
/// `period` times, gives the average, and then loses the new plain sum.
pub open spec fn wma_step<A: Arith>(
    ar: &A,
    new_value: Float,
    old_value: Float,
    period: Float,
    period_sub: Float,
    period_sum: Float,
    inv_weight_sum: Float,
) -> (Float, Float, Float) {
    let new_sub = plus(ar, minus(ar, period_sub, old_value), new_value);
    let weighted = plus(ar, period_sum, times(ar, new_value, period));
    (times(ar, weighted, inv_weight_sum), new_sub, minus(ar, weighted, new_sub))
}

/// The average, the plain sum and the weighted sum of the window that ends
/// at position `i`, from `period - 1` on.
pub open spec fn wma_state_at<A: Arith>(ar: &A, data: Seq<Float>, period: usize, i: int) -> (
    Float,
    Float,
    Float,
)
    decreases i,
{
    if i <= period - 1 || i <= 0 {
        let sums = linear_sums(ar, data, period as nat);
        (times(ar, plus(ar, sums.1, sums.0), inv_weight_linear(ar, period)), sums.0, sums.1)
    } else {
        let before = wma_state_at(ar, data, period, i - 1);
        wma_step(
            ar,
            data[i],
            data[i - period],
            counted(ar, period),
            before.1,
            before.2,
            inv_weight_linear(ar, period),
        )
    }
}

/// The average that is due at position `i`: NaN before `period - 1`.
pub open spec fn wma_at<A: Arith>(ar: &A, data: Seq<Float>, period: usize, i: int) -> Float {
    if i < period - 1 {
        nan()
    } else {
        wma_state_at(ar, data, period, i).0
    }
}

/// The averages that are due for `data`, one for each sample.
pub open spec fn wma_values<A: Arith>(ar: &A, data: Seq<Float>, period: usize) -> Seq<Float> {
    Seq::new(data.len(), |i: int| wma_at(ar, data, period, i))
}

/// What `r` holds, for [`decided`].
pub open spec fn wma_got(r: Result<WmaResult, TechalibError>) -> Result<Seq<Float>, Fault> {
    match r {
        Ok(res) => Ok(res.values@),
        Err(e) => Err(e@),
    }
}

/// Why [`wma_next`] refuses its arguments before anything is computed, if
/// it does: the first of these that holds.
pub open spec fn next_refusal(
    new_value: Float,
    prev_wma: Float,
    period: usize,
    period_sub: Float,
    period_sum: Float,
    window: Seq<Float>,
) -> Option<Fault> {
    if period <= 1 {
        Some(Fault::BadParam(wma_period_text()))
    } else if window.len() != period {
        Some(Fault::BadParam(wma_window_text()))
    } else if !new_value.finite() {
        Some(Fault::DataNonFinite("new_value"@))
    } else if !prev_wma.finite() {
        Some(Fault::DataNonFinite("prev_wma"@))
    } else if !period_sub.finite() {
        Some(Fault::DataNonFinite("period_sub"@))
    } else if !period_sum.finite() {
        Some(Fault::DataNonFinite("period_sum"@))
    } else if !all_finite(window) {
        Some(Fault::DataNonFinite("window"@))
    } else {
        None
    }
}

impl WmaState {
    /// `values` and the state are a result for `data` and `period`: the
    /// values are NaN before the lookback and finite from there on, every
    /// sample is finite, and the state holds the last value and the last
    /// `period` samples.
    pub open spec fn closes(&self, values: Seq<Float>, data: Seq<Float>, period: usize) -> bool {
        &&& filled(values, data.len(), (period - 1) as nat)
        &&& all_finite(data)
        &&& self.period == period
        &&& self.window@ == tail(data, period)
        &&& self.wma == values[data.len() - 1]
    }

    /// The state is the one after the last sample of `data`.
    pub open spec fn at_end_of<A: Arith>(&self, ar: &A, data: Seq<Float>, period: usize) -> bool {
        let last = data.len() - 1;
        &&& self.period == period
        &&& self.window@ == tail(data, period)
        &&& self.wma == wma_state_at(ar, data, period, last).0
        &&& self.period_sub == wma_state_at(ar, data, period, last).1
        &&& self.period_sum == wma_state_at(ar, data, period, last).2
    }

    /// Why the state refuses `new_value` before anything is computed, if it
    /// does: see [`next_refusal`].
    pub open spec fn refusal(&self, new_value: Float) -> Option<Fault> {
        next_refusal(
            new_value,
            self.wma,
            self.period,
            self.period_sub,
            self.period_sum,
            self.window@,
        )
    }

    /// The average and the two sums after `new_value`.
    pub open spec fn next_values<A: Arith>(&self, ar: &A, new_value: Float) -> (
        Float,
        Float,
        Float,
    ) {
        wma_step(
            ar,
            new_value,
            self.window@[0],
            counted(ar, self.period),
            self.period_sub,
            self.period_sum,
            inv_weight_linear(ar, self.period),
        )
    }
}

/// One over the sum of the weights of `period`, as `ar` gives it.
pub fn inv_weight_sum_linear<A: Arith>(ar: &A, period: usize) -> (r: Float)
    ensures
        exact(ar) ==> r == inv_weight_linear(ar, period),
{
    let p = ar.count(period);
    let above = ar.add(p, Float { bits: ONE_BITS });
    ar.div(Float { bits: TWO_BITS }, ar.mul(p, above))
}

/// One step of the average: see [`wma_step`].
pub fn wma_next_unchecked<A: Arith>(
    ar: &A,
    new_value: Float,
    old_value: Float,
    period: Float,
    period_sub: Float,
    period_sum: Float,
    inv_weight_sum: Float,
) -> (r: (Float, Float, Float))
    ensures
        exact(ar) ==> r == wma_step(
            ar,
            new_value,
            old_value,
            period,
            period_sub,
            period_sum,
            inv_weight_sum,
        ),
{
    let new_period_sub = ar.add(ar.sub(period_sub, old_value), new_value);
    let new_weighted_sum = ar.add(period_sum, ar.mul(new_value, period));
    (
        ar.mul(new_weighted_sum, inv_weight_sum),
        new_period_sub,
        ar.sub(new_weighted_sum, new_period_sub),
    )
}

/// The average of the first window, its plain sum and its weighted sum. A
/// NaN is then appended to `output` for each position before `period - 1`.
/// On a sample that is not finite, the position of the first such sample
/// is returned and `output` is left as it was.
pub fn init_wma_unchecked<A: Arith>(
    ar: &A,
    data: &[Float],
    period: usize,
    inv_weight_sum: Float,
    output: &mut Vec<Float>,
) -> (r: Result<(Float, Float, Float), usize>)
    requires
        1 <= period <= data@.len(),
    ensures
        match r {
            Ok(v) => {
                &&& finite_upto(data@, period as int)
                &&& final(output)@ == old(output)@ + nans((period - 1) as nat)
                &&& exact(ar) ==> {
                    &&& v.1 == linear_sums(ar, data@, period as nat).0
                    &&& v.2 == linear_sums(ar, data@, period as nat).1
                    &&& v.0 == times(ar, plus(ar, v.2, v.1), inv_weight_sum)
                }
            },
            Err(j) => {
                &&& j < period && !data@[j as int].finite() && finite_upto(data@, j as int)
                &&& final(output)@ == old(output)@
            },
        },
{
    let mut period_sub = Float { bits: 0 };
    let mut period_sum = Float { bits: 0 };
    let mut idx: usize = 0;
    while idx < period
        invariant
            1 <= period <= data@.len(),
            idx <= period,
            finite_upto(data@, idx as int),
            output@ == old(output)@,
            exact(ar) ==> period_sub == linear_sums(ar, data@, idx as nat).0,
            exact(ar) ==> period_sum == linear_sums(ar, data@, idx as nat).1,
        decreases period - idx,
    {
        let value = data[idx];
        if !value.is_finite() {
            return Err(idx);
        }
        let weight = ar.count(idx);
        period_sub = ar.add(period_sub, value);
        period_sum = ar.add(period_sum, ar.mul(value, weight));
        idx += 1;
    }
    push_nans(output, period - 1);
    Ok((ar.mul(ar.add(period_sum, period_sub), inv_weight_sum), period_sub, period_sum))
}

/// The weighted moving average of `data` over `period` samples.
///
/// A period below 2 is refused, then a series shorter than the period. The
/// samples are then taken in order: the first that is not finite, or whose
/// average is not finite, ends the calculation with its report.
pub fn wma<A: Arith>(ar: &A, data: &[Float], period: usize) -> (r: Result<WmaResult, TechalibError>)
    ensures
        period < 2 ==> fails(r, Fault::BadParam(wma_period_text())),
        period >= 2 && data@.len() < period ==> fails(r, Fault::InsufficientData),
        period >= 2 && data@.len() >= period ==> match r {
            Ok(res) => res.state.closes(res.values@, data@, period),
            Err(e) => sound_failure(e@, data@, period - 1),
        },
        exact(ar) && period >= 2 && data@.len() >= period ==> {
            &&& decided(
                wma_got(r),
                data@,
                wma_values(ar, data@, period),
                period - 1,
                wma_values(ar, data@, period),
            )
            &&& r matches Ok(res) ==> res.state.at_end_of(ar, data@, period)
        },
{
    let len = data.len();
    if period < 2 {
        return Err(TechalibError::bad_param("WMA period must be greater than 1"));
    }
    if len < period {
        return Err(TechalibError::InsufficientData);
    }
    let ghost ideal = wma_values(ar, data@, period);
    let ghost lookback = period - 1;
    let inv = inv_weight_sum_linear(ar, period);
    let period_as_float = ar.count(period);
    let mut values: Vec<Float> = Vec::new();
    let (first, first_sub, first_sum) = match init_wma_unchecked(
        ar,
        data,
        period,
        inv,
        &mut values,
    ) {
        Ok(v) => v,
        Err(j) => {
            proof {
                if exact(ar) {
                    lemma_clean_before_lookback(data@, ideal, lookback, j as int);
                    assert(bad(data@, ideal, lookback, j as int));
                    lemma_decided_at(
                        Err::<Seq<Float>, Fault>(Fault::DataNonFinite("data"@)),
                        data@,
                        ideal,
                        lookback,
                        ideal,
                        j as int,
                    );
                }
            }
            return Err(TechalibError::non_finite("data"));
        },
    };
    proof {
        if exact(ar) {
            lemma_clean_before_lookback(data@, ideal, lookback, lookback);
            assert(first == ideal[lookback]);
        }
    }
    if !first.is_finite() {
        proof {
            if exact(ar) {
                assert(bad(data@, ideal, lookback, lookback));
                lemma_decided_at(
                    Err::<Seq<Float>, Fault>(Fault::Overflow((period - 1) as usize, first)),
                    data@,
                    ideal,
                    lookback,
                    ideal,
                    lookback,
                );
            }
        }
        return Err(TechalibError::Overflow(period - 1, first));
    }
    values.push(first);
    let mut prev = first;
    let mut period_sub = first_sub;
    let mut period_sum = first_sum;
    let mut idx: usize = period;
    proof {
        if exact(ar) {
            assert(!bad(data@, ideal, lookback, lookback));
            assert(values@ =~= ideal.take(period as int));
        }
    }
    while idx < len
        invariant
            2 <= period <= idx <= len,
            len == data@.len(),
            lookback == period - 1,
            ideal == wma_values(ar, data@, period),
            exact(ar) ==> inv == inv_weight_linear(ar, period),
            exact(ar) ==> period_as_float == counted(ar, period),
            finite_upto(data@, idx as int),
            filled(values@, idx as nat, lookback as nat),
            prev == values@[idx - 1],
            exact(ar) ==> prev == wma_state_at(ar, data@, period, idx - 1).0,
            exact(ar) ==> period_sub == wma_state_at(ar, data@, period, idx - 1).1,
            exact(ar) ==> period_sum == wma_state_at(ar, data@, period, idx - 1).2,
            exact(ar) ==> clean(data@, ideal, lookback, idx as int),
            exact(ar) ==> values@ == ideal.take(idx as int),
        decreases len - idx,
    {
        if !data[idx].is_finite() {
            proof {
                if exact(ar) {
                    assert(bad(data@, ideal, lookback, idx as int));
                    lemma_decided_at(
                        Err::<Seq<Float>, Fault>(Fault::DataNonFinite("data"@)),
                        data@,
                        ideal,
                        lookback,
                        ideal,
                        idx as int,
                    );
                }
            }
            return Err(TechalibError::non_finite("data"));
        }
        let (value, next_sub, next_sum) = wma_next_unchecked(
            ar,
            data[idx],
            data[idx - period],
            period_as_float,
            period_sub,
            period_sum,
            inv,
        );
        proof {
            if exact(ar) {
                assert(value == ideal[idx as int]);
            }
        }
        if !value.is_finite() {
            proof {
                if exact(ar) {
                    assert(bad(data@, ideal, lookback, idx as int));
                    lemma_decided_at(
                        Err::<Seq<Float>, Fault>(Fault::Overflow(idx, value)),
                        data@,
                        ideal,
                        lookback,
                        ideal,
                        idx as int,
                    );
                }
            }
            return Err(TechalibError::Overflow(idx, value));
        }
        values.push(value);
        prev = value;
        period_sub = next_sub;
        period_sum = next_sum;
        proof {
            if exact(ar) {
                assert(!bad(data@, ideal, lookback, idx as int));
                assert(values@ =~= ideal.take(idx + 1));
            }
        }
        idx += 1;
    }
    let state = WmaState {
        wma: prev,
        period,
        period_sub,
        period_sum,
        window: tail_window(data, period),
    };
    proof {
        if exact(ar) {
            assert(ideal.take(len as int) == ideal);
            lemma_decided_ok(data@, ideal, lookback, ideal);
        }
    }
    Ok(WmaResult { values, state })
}

/// The weighted moving average of `data`, written into `output`. An output
/// whose length is not that of the input is refused first. Where the
/// calculation fails, `output` is left as it was.
pub fn wma_into<A: Arith>(ar: &A, data: &[Float], period: usize, output: &mut [Float]) -> (r:
    Result<WmaState, TechalibError>)
    ensures
        final(output)@.len() == old(output)@.len(),
        r is Err ==> final(output)@ == old(output)@,
        old(output)@.len() != data@.len() ==> fails(r, Fault::BadParam(length_text())),
        old(output)@.len() == data@.len() ==> {
            &&& period < 2 ==> fails(r, Fault::BadParam(wma_period_text()))
            &&& period >= 2 && data@.len() < period ==> fails(r, Fault::InsufficientData)
            &&& period >= 2 && data@.len() >= period ==> match r {
                Ok(state) => state.closes(final(output)@, data@, period),
                Err(e) => sound_failure(e@, data@, period - 1),
            }
            &&& exact(ar) && period >= 2 && data@.len() >= period ==> {
                &&& decided(
                    match r {
                        Ok(state) => Ok(final(output)@),
                        Err(e) => Err(e@),
                    },
                    data@,
                    wma_values(ar, data@, period),
                    period - 1,
                    wma_values(ar, data@, period),
                )
                &&& r matches Ok(state) ==> state.at_end_of(ar, data@, period)
            }
        },
{
    TechalibError::check_same_length(output, data)?;
    let res = wma(ar, data, period)?;
    copy_into(&res.values, output);
    Ok(res.state)
}

/// The state after `new_value`, from the values of the state before.
///
/// The checks come in the order of [`next_refusal`]; then the sums and the
/// average are computed, and an average that is not finite is reported as
/// an overflow at position 0.
pub fn wma_next<A: Arith>(
    ar: &A,
    new_value: Float,
    prev_wma: Float,
    period: usize,
    period_sub: Float,
    period_sum: Float,
    window: &VecDeque<Float>,
) -> (r: Result<WmaState, TechalibError>)
    ensures
        next_refusal(new_value, prev_wma, period, period_sub, period_sum, window@) matches Some(
            fault,
        ) ==> fails(r, fault),
        next_refusal(new_value, prev_wma, period, period_sub, period_sum, window@) is None
            ==> match r {
            Ok(next) => {
                &&& next.period == period
                &&& next.window@ == shifted(window@, new_value)
                &&& next.wma.finite()
            },
            Err(e) => step_overflow(e@),
        },
        exact(ar) && next_refusal(new_value, prev_wma, period, period_sub, period_sum, window@)
            is None ==> {
            let v = wma_step(
                ar,
                new_value,
                window@[0],
                counted(ar, period),
                period_sub,
                period_sum,
                inv_weight_linear(ar, period),
            );
            if v.0.finite() {
                r matches Ok(next) && next.wma == v.0 && next.period_sub == v.1 && next.period_sum
                    == v.2
            } else {
                fails(r, Fault::Overflow(0, v.0))
            }
        },
{
    if period <= 1 {
        return Err(TechalibError::bad_param("WMA period must be greater than 1"));
    }
    if window.len() != period {
        return Err(TechalibError::bad_param("Window length must match the WMA period"));
    }
    if !new_value.is_finite() {
        return Err(TechalibError::non_finite("new_value"));
    }
    if !prev_wma.is_finite() {
        return Err(TechalibError::non_finite("prev_wma"));
    }
    if !period_sub.is_finite() {
        return Err(TechalibError::non_finite("period_sub"));
    }
    if !period_sum.is_finite() {
        return Err(TechalibError::non_finite("period_sum"));
    }
    if first_non_finite(window).is_some() {
        return Err(TechalibError::non_finite("window"));
    }
    let inv = inv_weight_sum_linear(ar, period);
    let old_value = window[0];
    let (wma, new_period_sub, new_period_sum) = wma_next_unchecked(
        ar,
        new_value,
        old_value,
        ar.count(period),
        period_sub,
        period_sum,
        inv,
    );
    if !wma.is_finite() {
        return Err(TechalibError::Overflow(0, wma));
    }
    let next_window = shift_window(window, new_value);
    Ok(
        WmaState {
            wma,
            period,
            period_sub: new_period_sub,
            period_sum: new_period_sum,
            window: next_window,
        },
    )
}

impl WmaState {
    /// The state after `new_value`: [`wma_next`] on the values of this one.
    pub fn next<A: Arith>(&self, ar: &A, new_value: Float) -> (r: Result<WmaState, TechalibError>)
        ensures
            self.refusal(new_value) matches Some(fault) ==> fails(r, fault),
            self.refusal(new_value) is None ==> match r {
                Ok(next) => {
                    &&& next.period == self.period
                    &&& next.window@ == shifted(self.window@, new_value)
                    &&& next.wma.finite()
                },
                Err(e) => step_overflow(e@),
            },
            exact(ar) && self.refusal(new_value) is None ==> {
                let v = self.next_values(ar, new_value);
                if v.0.finite() {
                    r matches Ok(next) && next.wma == v.0 && next.period_sub == v.1
                        && next.period_sum == v.2
                } else {
                    fails(r, Fault::Overflow(0, v.0))
                }
            },
    {
        wma_next(
            ar,
            new_value,
            self.wma,
            self.period,
            self.period_sub,
            self.period_sum,
            &self.window,
        )
    }
}

/// The sums of the first `n` samples are the same for two series that agree
/// on them.
pub proof fn lemma_linear_sums_same<A: Arith>(ar: &A, a: Seq<Float>, b: Seq<Float>, n: nat)
    requires
        forall|j: int| 0 <= j < n ==> a[j] == b[j],
    ensures
        linear_sums(ar, a, n) == linear_sums(ar, b, n),
    decreases n,
{
    if n > 0 {
        lemma_linear_sums_same(ar, a, b, (n - 1) as nat);
    }
}

/// The average and the sums at a position depend on the samples up to that
/// position only.
pub proof fn lemma_wma_at_prefix<A: Arith>(
    ar: &A,
    data: Seq<Float>,
    period: usize,
    k: int,
    i: int,
)
    requires
        0 <= i < k <= data.len(),
    ensures
        i >= period - 1 ==> wma_state_at(ar, data.take(k), period, i) == wma_state_at(
            ar,
            data,
            period,
            i,
        ),
        wma_at(ar, data.take(k), period, i) == wma_at(ar, data, period, i),
    decreases i,
{
    if i < period - 1 {
    } else if i <= period - 1 || i <= 0 {
        lemma_linear_sums_same(ar, data.take(k), data, period as nat);
    } else {
        lemma_wma_at_prefix(ar, data, period, k, i - 1);
    }
}

/// No lookahead: the averages of the first `k` samples are the first `k`
/// averages of the whole series.
pub proof fn lemma_wma_no_lookahead<A: Arith>(ar: &A, data: Seq<Float>, period: usize, k: int)
    requires
        0 <= k <= data.len(),
    ensures
        wma_values(ar, data.take(k), period) == wma_values(ar, data, period).take(k),
{
    assert forall|i: int| 0 <= i < k implies wma_at(ar, data.take(k), period, i) == wma_at(
        ar,
        data,
        period,
        i,
    ) by {
        lemma_wma_at_prefix(ar, data, period, k, i);
    }
    assert(wma_values(ar, data.take(k), period) =~= wma_values(ar, data, period).take(k));
}

/// Streaming consistency: from the state after the first `k` samples, the
/// average after sample `k` is the average that is due at position `k` of
/// the series with one sample more.
pub proof fn lemma_wma_streaming<A: Arith>(
    ar: &A,
    data: Seq<Float>,
    period: usize,
    k: int,
    state: WmaState,
)
    requires
        2 <= period <= k < data.len(),
        state.at_end_of(ar, data.take(k), period),
    ensures
        state.next_values(ar, data[k]).0 == wma_values(ar, data.take(k + 1), period)[k],
        state.next_values(ar, data[k]) == wma_state_at(ar, data.take(k + 1), period, k),
        shifted(state.window@, data[k]) == tail(data.take(k + 1), period),
{
    let longer = data.take(k + 1);
    assert(longer.take(k) =~= data.take(k));
    lemma_wma_at_prefix(ar, longer, period, k, k - 1);
    assert(shifted(state.window@, data[k]) =~= tail(longer, period));
}

impl State<Float> for WmaState {
    /// Moves the state on by `sample`: the state becomes what
    /// [`WmaState::next`] returns.
    fn update<A: Arith>(&mut self, ar: &A, sample: Float) -> (r: Result<(), TechalibError>)
        ensures
            old(self).refusal(sample) matches Some(fault) ==> fails(r, fault),
            old(self).refusal(sample) is None ==> match r {
                Ok(_) => {
                    &&& final(self).period == old(self).period
                    &&& final(self).window@ == shifted(old(self).window@, sample)
                    &&& final(self).wma.finite()
                },
                Err(e) => step_overflow(e@),
            },
            exact(ar) && old(self).refusal(sample) is None ==> {
                let v = old(self).next_values(ar, sample);
                if v.0.finite() {
                    &&& r is Ok
                    &&& final(self).wma == v.0
                    &&& final(self).period_sub == v.1
                    &&& final(self).period_sum == v.2
                } else {
                    fails(r, Fault::Overflow(0, v.0))
                }
            },
    {
        let next = self.next(ar, sample)?;
        *self = next;
        Ok(())
    }
}

impl From<WmaResult> for Vec<Float> {
    /// The values of the result, without its state.
    fn from(result: WmaResult) -> (values: Vec<Float>) {
        result.values
    }
}

impl vstd::std_specs::convert::FromSpecImpl<WmaResult> for Vec<Float> {
    open spec fn obeys_from_spec() -> bool {
        true
    }

    open spec fn from_spec(result: WmaResult) -> Vec<Float> {
        result.values
    }
}

/// No lookahead, of the results: where the averages of a series come out,
/// those of its first `k` samples come out too, and they are the first `k`
/// of the whole series. `full` and `part` are what [`wma`] returns for an
/// exact arithmetic.
pub proof fn lemma_wma_prefix_result<A: Arith>(
    ar: &A,
    data: Seq<Float>,
    period: usize,
    k: int,
    full: Result<Seq<Float>, Fault>,
    part: Result<Seq<Float>, Fault>,
)
    requires
        0 <= k <= data.len(),
        decided(
            full,
            data,
            wma_values(ar, data, period),
            period - 1,
            wma_values(ar, data, period),
        ),
        decided(
            part,
            data.take(k),
            wma_values(ar, data.take(k), period),
            period - 1,
            wma_values(ar, data.take(k), period),
        ),
        full matches Ok(values),
    ensures
        full matches Ok(values) && part == Ok::<Seq<Float>, Fault>(values.take(k)),
{
    let whole = wma_values(ar, data, period);
    let first = wma_values(ar, data.take(k), period);
    lemma_wma_no_lookahead(ar, data, period, k);
    assert forall|i: int| 0 <= i < k implies #[trigger] first[i] == whole[i] by {
        assert(whole.take(k)[i] == whole[i]);
    }
    lemma_prefix_runs_through(full, part, data, whole, first, period - 1, k, whole, first);
}

/// Streaming consistency, of the results: the state that [`wma`] returns
/// for the first `k` samples takes sample `k`, where the averages of the
/// first `k + 1` samples come out and the two stored sums are finite, and
/// its step gives the average at position `k`. `before`, `state` and
/// `longer` are what [`wma`] returns for an exact arithmetic; it does not
/// test the sums, which the step does.
pub proof fn lemma_wma_update_result<A: Arith>(
    ar: &A,
    data: Seq<Float>,
    period: usize,
    k: int,
    before: Seq<Float>,
    state: WmaState,
    longer: Result<Seq<Float>, Fault>,
)
    requires
        2 <= period <= k < data.len(),
        state.period_sub.finite(),
        state.period_sum.finite(),
        state.closes(before, data.take(k), period),
        state.at_end_of(ar, data.take(k), period),
        decided(
            longer,
            data.take(k + 1),
            wma_values(ar, data.take(k + 1), period),
            period - 1,
            wma_values(ar, data.take(k + 1), period),
        ),
        longer matches Ok(values),
    ensures
        state.refusal(data[k]) is None,
        state.next_values(ar, data[k]).0.finite(),
        longer matches Ok(values) && state.next_values(ar, data[k]).0 == values[k],
        shifted(state.window@, data[k]) == tail(data.take(k + 1), period),
{
    let long = data.take(k + 1);
    let ideal = wma_values(ar, long, period);
    assert(!bad(long, ideal, period - 1, k));
    assert(before[k - 1].finite());
    let window = state.window@;
    assert forall|i: int| 0 <= i < window.len() implies (#[trigger] window[i]).finite() by {
        assert(data.take(k)[k - period + i].finite());
    }
    lemma_wma_streaming(ar, data, period, k, state);
}

} // verus!
