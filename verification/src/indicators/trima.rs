//! Triangular moving average: the mean of the last `period` samples with
//! weights that rise to the middle of the window and fall from there.
use crate::arith::{counted, exact, minus, over, plus, times, Arith};
use crate::errors::{fails, length_text, step_overflow, Fault, TechalibError};
use crate::float::{nan, one, zero, Float, ONE_BITS};
use crate::indicators::sma::{lemma_running_sum_same, running_sum};
use crate::series::{
    all_finite, bad, clean, copy_into, decided, filled, finite_upto, first_non_finite,
    lemma_decided_at, lemma_decided_early, lemma_decided_ok, lemma_prefix_runs_through, nans,
    push_nans, shift_window, shifted, sound_failure, tail, tail_window,
};
use crate::traits::State;
use std::collections::VecDeque;
use vstd::prelude::*;

verus! {

/// The averages of a series and the state that continues them.
#[derive(Debug)]
pub struct TrimaResult {
    /// One value for each sample: NaN before position `period - 1`.
    pub values: Vec<Float>,
    /// The state after the last sample.
    pub state: TrimaState,
}

/// What the next average is computed from.
#[derive(Debug, Clone)]
pub struct TrimaState {
    /// The last average.
    pub trima: Float,
    /// The weighted sum of the window.
    pub sum: Float,
    /// The plain sum of the window up to its middle.
    pub trailing_sum: Float,
    /// The plain sum of the window after its middle.
    pub heading_sum: Float,
    /// The last `period` samples, oldest first.
    pub window: VecDeque<Float>,
    /// One over the sum of the weights.
    pub inv_weight_sum: Float,
    pub period: usize,
}

/// The text of the refusal of a period below 2.
pub open spec fn trima_period_text() -> Seq<char> {
    "TRIMA period must be greater than 1"@
}

/// The text of the refusal of a window whose length is not the period.
pub open spec fn trima_window_text() -> Seq<char> {
    "Window length must match the TRIMA period"@
}

/// The position in the window where the weights stop rising:
/// `period / 2 - 1` for an even period, `period / 2` for an odd one, which
/// is `(period - 1) / 2` for a period of 1 or more.
pub open spec fn middle_idx(period: usize) -> int {
    if period % 2 == 0 {
        period / 2 - 1
    } else {
        period as int / 2
    }
}

/// One over the sum of the weights: with `p = period / 2`, the sum is
/// `p * (p + 1)` for an even period and `(p + 1) * (p + 1)` for an odd one.
pub open spec fn inv_weight<A: Arith>(ar: &A, period: usize) -> Float {
    let p = counted(ar, period / 2);
    let above = plus(ar, p, one());
    if period % 2 == 0 {
        over(ar, one(), times(ar, p, above))
    } else {
        over(ar, one(), times(ar, above, above))
    }
}

/// The first `n` samples, each times its position counted from 1, added up
/// from `0.0`.
pub open spec fn rising_sum<A: Arith>(ar: &A, data: Seq<Float>, n: nat) -> Float
    decreases n,
{
    if n == 0 {
        zero()
    } else {
        plus(
            ar,
            rising_sum(ar, data, (n - 1) as nat),
            times(ar, data[n - 1], counted(ar, n as usize)),
        )
    }
}

/// The weighted sum and the heading sum of the first window after the last
/// `j` samples of the window were taken in, the last sample first: the
/// `j`-th has the weight `j`.
pub open spec fn falling_sums<A: Arith>(ar: &A, data: Seq<Float>, period: usize, j: nat) -> (
    Float,
    Float,
)
    decreases j,
{
    if j == 0 {
        (rising_sum(ar, data, (middle_idx(period) + 1) as nat), zero())
    } else {
        let before = falling_sums(ar, data, period, (j - 1) as nat);
        (
            plus(ar, before.0, times(ar, data[period - j], counted(ar, j as usize))),
            plus(ar, before.1, data[period - j]),
        )
    }
}

/// The sums after one more sample: `middle_value` moves from the heading
/// half to the trailing half, `old_value` leaves and `new_value` comes in.
/// An odd period counts the middle once more in the weighted sum.
pub open spec fn trima_step<A: Arith>(
    ar: &A,
    new_value: Float,
    middle_value: Float,
    old_value: Float,
    sum: Float,
    trailing_sum: Float,
    heading_sum: Float,
    odd: bool,
) -> (Float, Float, Float) {
    let new_trailing = plus(ar, minus(ar, trailing_sum, old_value), middle_value);
    let new_heading = plus(ar, minus(ar, heading_sum, middle_value), new_value);
    let base = plus(ar, minus(ar, sum, trailing_sum), new_heading);
    let new_sum = if odd {
        plus(ar, base, middle_value)
    } else {
        base
    };
    (new_sum, new_trailing, new_heading)
}

/// The weighted sum, the trailing sum and the heading sum of the window
/// that ends at position `i`, from `period - 1` on.
pub open spec fn sums_at<A: Arith>(ar: &A, data: Seq<Float>, period: usize, i: int) -> (
    Float,
    Float,
    Float,
)
    decreases i,
{
    if i <= period - 1 || i <= 0 {
        let rest = (period - 1 - middle_idx(period)) as nat;
        (
            falling_sums(ar, data, period, rest).0,
            running_sum(ar, data, (middle_idx(period) + 1) as nat),
            falling_sums(ar, data, period, rest).1,
        )
    } else {
        let before = sums_at(ar, data, period, i - 1);
        trima_step(
            ar,
            data[i],
            data[i - period + middle_idx(period) + 1],
            data[i - period],
            before.0,
            before.1,
            before.2,
            period % 2 != 0,
        )
    }
}

/// The average that is due at position `i`: NaN before `period - 1`, then
/// the weighted sum of the window times one over the sum of the weights.
pub open spec fn trima_at<A: Arith>(ar: &A, data: Seq<Float>, period: usize, i: int) -> Float {
    if i < period - 1 {
        nan()
    } else {
        times(ar, sums_at(ar, data, period, i).0, inv_weight(ar, period))
    }
}

/// The averages that are due for `data`, one for each sample.
pub open spec fn trima_values<A: Arith>(ar: &A, data: Seq<Float>, period: usize) -> Seq<Float> {
    Seq::new(data.len(), |i: int| trima_at(ar, data, period, i))
}

/// What `r` holds, for [`decided`].
pub open spec fn trima_got(r: Result<TrimaResult, TechalibError>) -> Result<Seq<Float>, Fault> {
    match r {
        Ok(res) => Ok(res.values@),
        Err(e) => Err(e@),
    }
}

impl TrimaState {
    /// `values` and the state are a result for `data` and `period`: the
    /// values are NaN before the lookback and finite from there on, every
    /// sample is finite, and the state holds the last value and the last
    /// `period` samples.
    pub open spec fn closes(&self, values: Seq<Float>, data: Seq<Float>, period: usize) -> bool {
        &&& filled(values, data.len(), (period - 1) as nat)
        &&& all_finite(data)
        &&& self.period == period
        &&& self.window@ == tail(data, period)
        &&& self.trima == values[data.len() - 1]
    }

    /// The state is the one after the last sample of `data`.
    pub open spec fn at_end_of<A: Arith>(&self, ar: &A, data: Seq<Float>, period: usize) -> bool {
        let last = data.len() - 1;
        &&& self.period == period
        &&& self.window@ == tail(data, period)
        &&& self.inv_weight_sum == inv_weight(ar, period)
        &&& self.sum == sums_at(ar, data, period, last).0
        &&& self.trailing_sum == sums_at(ar, data, period, last).1
        &&& self.heading_sum == sums_at(ar, data, period, last).2
        &&& self.trima == trima_at(ar, data, period, last)
    }

    /// Why the state refuses `new_value` before anything is computed, if it
    /// does: the first of these that holds.
    pub open spec fn refusal(&self, new_value: Float) -> Option<Fault> {
        if self.period <= 1 {
            Some(Fault::BadParam(trima_period_text()))
        } else if self.window@.len() != self.period {
            Some(Fault::BadParam(trima_window_text()))
        } else if !new_value.finite() {
            Some(Fault::DataNonFinite("new_value"@))
        } else if !self.trima.finite() {
            Some(Fault::DataNonFinite("prev_trima"@))
        } else if !self.sum.finite() {
            Some(Fault::DataNonFinite("sum"@))
        } else if !self.trailing_sum.finite() {
            Some(Fault::DataNonFinite("trailing_sum"@))
        } else if !self.heading_sum.finite() {
            Some(Fault::DataNonFinite("heading_sum"@))
        } else if !self.inv_weight_sum.finite() {
            Some(Fault::DataNonFinite("inv_weight_sum"@))
        } else if !all_finite(self.window@) {
            Some(Fault::DataNonFinite("window"@))
        } else {
            None
        }
    }

    /// The sums after `new_value`: the oldest sample of the window leaves,
    /// and the middle is that of the window with `new_value` in it.
    pub open spec fn next_sums<A: Arith>(&self, ar: &A, new_value: Float) -> (Float, Float, Float) {
        trima_step(
            ar,
            new_value,
            shifted(self.window@, new_value)[middle_idx(self.period)],
            self.window@[0],
            self.sum,
            self.trailing_sum,
            self.heading_sum,
            self.period % 2 != 0,
        )
    }

    /// The average after `new_value`.
    pub open spec fn next_trima<A: Arith>(&self, ar: &A, new_value: Float) -> Float {
        times(ar, self.next_sums(ar, new_value).0, self.inv_weight_sum)
    }
}

/// The position in the window where the weights stop rising:
/// `(period - 1) / 2`.
pub fn get_middle_idx(period: usize) -> (r: usize)
    requires
        period >= 1,
    ensures
        r == middle_idx(period),
        r == (period - 1) / 2,
        period >= 2 ==> r + 1 < period,
{
    if period % 2 == 0 {
        period / 2 - 1
    } else {
        period / 2
    }
}

/// One over the sum of the weights of `period`. A period below 2 is refused.
pub fn trima_inv_weight_sum<A: Arith>(ar: &A, period: usize) -> (r: Result<Float, TechalibError>)
    ensures
        period < 2 ==> fails(r, Fault::BadParam(trima_period_text())),
        period >= 2 ==> r is Ok,
        exact(ar) ==> (r matches Ok(v) ==> v == inv_weight(ar, period)),
{
    if period <= 1 {
        return Err(TechalibError::bad_param("TRIMA period must be greater than 1"));
    }
    let p = ar.count(period / 2);
    let one = Float { bits: ONE_BITS };
    let above = ar.add(p, one);
    if period % 2 == 0 {
        Ok(ar.div(one, ar.mul(p, above)))
    } else {
        Ok(ar.div(one, ar.mul(above, above)))
    }
}

/// The step of an even period: see [`trima_step`]. Returns the average and
/// the three sums.
pub fn trima_next_even_unchecked<A: Arith>(
    ar: &A,
    new_value: Float,
    middle_value: Float,
    old_value: Float,
    sum: Float,
    trailing_sum: Float,
    heading_sum: Float,
    inv_weight_sum: Float,
) -> (r: (Float, Float, Float, Float))
    ensures
        exact(ar) ==> {
            let s = trima_step(
                ar,
                new_value,
                middle_value,
                old_value,
                sum,
                trailing_sum,
                heading_sum,
                false,
            );
            r == (times(ar, s.0, inv_weight_sum), s.0, s.1, s.2)
        },
{
    let new_trailing_sum = ar.add(ar.sub(trailing_sum, old_value), middle_value);
    let new_heading_sum = ar.add(ar.sub(heading_sum, middle_value), new_value);
    let new_sum = ar.add(ar.sub(sum, trailing_sum), new_heading_sum);
    (ar.mul(new_sum, inv_weight_sum), new_sum, new_trailing_sum, new_heading_sum)
}

/// The step of an odd period: see [`trima_step`]. Returns the average and
/// the three sums.
pub fn trima_next_odd_unchecked<A: Arith>(
    ar: &A,
    new_value: Float,
    middle_value: Float,
    old_value: Float,
    sum: Float,
    trailing_sum: Float,
    heading_sum: Float,
    inv_weight_sum: Float,
) -> (r: (Float, Float, Float, Float))
    ensures
        exact(ar) ==> {
            let s = trima_step(
                ar,
                new_value,
                middle_value,
                old_value,
                sum,
                trailing_sum,
                heading_sum,
                true,
            );
            r == (times(ar, s.0, inv_weight_sum), s.0, s.1, s.2)
        },
{
    let new_trailing_sum = ar.add(ar.sub(trailing_sum, old_value), middle_value);
    let new_heading_sum = ar.add(ar.sub(heading_sum, middle_value), new_value);
    let base = ar.add(ar.sub(sum, trailing_sum), new_heading_sum);
    let new_sum = ar.add(base, middle_value);
    (ar.mul(new_sum, inv_weight_sum), new_sum, new_trailing_sum, new_heading_sum)
}

/// The position that [`init_trima_unchecked`] returns for a first window
/// with a sample that is not finite: that of the first such sample up to
/// the middle, else that of the last such sample after it.
pub open spec fn found_at(data: Seq<Float>, period: usize, j: int) -> bool {
    &&& 0 <= j < period
    &&& !data[j].finite()
    &&& j <= middle_idx(period) ==> finite_upto(data, j)
    &&& j > middle_idx(period) ==> finite_upto(data, middle_idx(period) + 1) && forall|i: int|
        j < i < period ==> (#[trigger] data[i]).finite()
}

/// The sums of the first window: the samples up to the middle are taken in
/// rising, then the rest from the last sample down. Returns the average,
/// the weighted sum, the trailing sum and the heading sum; a NaN is then
/// appended to `output` for each position before `period - 1`. On a sample
/// that is not finite its position is returned (see [`found_at`]) and
/// `output` is left as it was.
pub fn init_trima_unchecked<A: Arith>(
    ar: &A,
    data: &[Float],
    period: usize,
    inv_weight_sum: Float,
    output: &mut Vec<Float>,
) -> (r: Result<(Float, Float, Float, Float), usize>)
    requires
        2 <= period <= data@.len(),
    ensures
        match r {
            Ok(v) => {
                &&& finite_upto(data@, period as int)
                &&& final(output)@ == old(output)@ + nans((period - 1) as nat)
                &&& exact(ar) ==> {
                    &&& v.1 == sums_at(ar, data@, period, period - 1).0
                    &&& v.2 == sums_at(ar, data@, period, period - 1).1
                    &&& v.3 == sums_at(ar, data@, period, period - 1).2
                    &&& v.0 == times(ar, v.1, inv_weight_sum)
                }
            },
            Err(j) => found_at(data@, period, j as int) && final(output)@ == old(output)@,
        },
{
    let middle = get_middle_idx(period);
    let mut trailing_sum = Float { bits: 0 };
    let mut heading_sum = Float { bits: 0 };
    let mut sum = Float { bits: 0 };
    let mut idx: usize = 0;
    while idx <= middle
        invariant
            2 <= period <= data@.len(),
            middle == middle_idx(period),
            middle < period,
            idx <= middle + 1,
            finite_upto(data@, idx as int),
            output@ == old(output)@,
            exact(ar) ==> trailing_sum == running_sum(ar, data@, idx as nat),
            exact(ar) ==> sum == rising_sum(ar, data@, idx as nat),
        decreases middle + 1 - idx,
    {
        let value = data[idx];
        if !value.is_finite() {
            return Err(idx);
        }
        let weight = ar.count(idx + 1);
        trailing_sum = ar.add(trailing_sum, value);
        sum = ar.add(sum, ar.mul(value, weight));
        idx += 1;
    }
    let rest = period - 1 - middle;
    let mut taken: usize = 0;
    while taken < rest
        invariant
            2 <= period <= data@.len(),
            middle == middle_idx(period),
            rest == period - 1 - middle,
            taken <= rest,
            finite_upto(data@, middle + 1),
            forall|i: int| period - taken <= i < period ==> (#[trigger] data@[i]).finite(),
            output@ == old(output)@,
            exact(ar) ==> trailing_sum == running_sum(ar, data@, (middle + 1) as nat),
            exact(ar) ==> sum == falling_sums(ar, data@, period, taken as nat).0,
            exact(ar) ==> heading_sum == falling_sums(ar, data@, period, taken as nat).1,
        decreases rest - taken,
    {
        taken += 1;
        let value = data[period - taken];
        if !value.is_finite() {
            return Err(period - taken);
        }
        let weight = ar.count(taken);
        heading_sum = ar.add(heading_sum, value);
        sum = ar.add(sum, ar.mul(value, weight));
    }
    push_nans(output, period - 1);
    Ok((ar.mul(sum, inv_weight_sum), sum, trailing_sum, heading_sum))
}

/// The triangular moving average of `data` over `period` samples.
///
/// A period below 2 is refused, then a series shorter than the period. The
/// first sample that is not finite, or whose average is not finite, ends
/// the calculation with its report.
pub fn trima<A: Arith>(ar: &A, data: &[Float], period: usize) -> (r: Result<
    TrimaResult,
    TechalibError,
>)
    ensures
        period < 2 ==> fails(r, Fault::BadParam(trima_period_text())),
        period >= 2 && data@.len() < period ==> fails(r, Fault::InsufficientData),
        period >= 2 && data@.len() >= period ==> match r {
            Ok(res) => res.state.closes(res.values@, data@, period),
            Err(e) => sound_failure(e@, data@, period - 1),
        },
        exact(ar) && period >= 2 && data@.len() >= period ==> {
            &&& decided(
                trima_got(r),
                data@,
                trima_values(ar, data@, period),
                period - 1,
                trima_values(ar, data@, period),
            )
            &&& r matches Ok(res) ==> res.state.at_end_of(ar, data@, period)
        },
{
    let len = data.len();
    let inv = trima_inv_weight_sum(ar, period)?;
    if len < period {
        return Err(TechalibError::InsufficientData);
    }
    let odd = period % 2 != 0;
    let middle = get_middle_idx(period);
    let ghost ideal = trima_values(ar, data@, period);
    let ghost lookback = period - 1;
    let mut values: Vec<Float> = Vec::new();
    let (first, first_sum, first_trailing, first_heading) = match init_trima_unchecked(
        ar,
        data,
        period,
        inv,
        &mut values,
    ) {
        Ok(v) => v,
        Err(j) => {
            proof {
                if exact(ar) {
                    lemma_decided_early(
                        Err::<Seq<Float>, Fault>(Fault::DataNonFinite("data"@)),
                        data@,
                        ideal,
                        lookback,
                        ideal,
                        j as int,
                    );
                }
            }
            return Err(TechalibError::non_finite("data"));
        },
    };
    proof {
        if exact(ar) {
            assert(first == ideal[lookback]);
            assert forall|k: int| 0 <= k < lookback implies !#[trigger] bad(
                data@,
                ideal,
                lookback,
                k,
            ) by {}
        }
    }
    if !first.is_finite() {
        proof {
            if exact(ar) {
                assert(bad(data@, ideal, lookback, lookback));
                lemma_decided_at(
                    Err::<Seq<Float>, Fault>(Fault::Overflow((period - 1) as usize, first)),
                    data@,
                    ideal,
                    lookback,
                    ideal,
                    lookback,
                );
            }
        }
        return Err(TechalibError::Overflow(period - 1, first));
    }
    values.push(first);
    let mut prev = first;
    let mut sum = first_sum;
    let mut trailing_sum = first_trailing;
    let mut heading_sum = first_heading;
    let mut idx: usize = period;
    proof {
        if exact(ar) {
            assert(!bad(data@, ideal, lookback, lookback));
            assert(values@ =~= ideal.take(period as int));
        }
    }
    while idx < len
        invariant
            2 <= period <= idx <= len,
            len == data@.len(),
            lookback == period - 1,
            middle == middle_idx(period),
            middle < period,
            odd == (period % 2 != 0),
            ideal == trima_values(ar, data@, period),
            exact(ar) ==> inv == inv_weight(ar, period),
            finite_upto(data@, idx as int),
            filled(values@, idx as nat, lookback as nat),
            prev == values@[idx - 1],
            exact(ar) ==> sum == sums_at(ar, data@, period, idx - 1).0,
            exact(ar) ==> trailing_sum == sums_at(ar, data@, period, idx - 1).1,
            exact(ar) ==> heading_sum == sums_at(ar, data@, period, idx - 1).2,
            exact(ar) ==> clean(data@, ideal, lookback, idx as int),
            exact(ar) ==> values@ == ideal.take(idx as int),
        decreases len - idx,
    {
        if !data[idx].is_finite() {
            proof {
                if exact(ar) {
                    assert(bad(data@, ideal, lookback, idx as int));
                    lemma_decided_at(
                        Err::<Seq<Float>, Fault>(Fault::DataNonFinite("data"@)),
                        data@,
                        ideal,
                        lookback,
                        ideal,
                        idx as int,
                    );
                }
            }
            return Err(TechalibError::non_finite("data"));
        }
        let middle_value = data[idx - period + middle + 1];
        let old_value = data[idx - period];
        let (value, next_sum, next_trailing, next_heading) = if odd {
            trima_next_odd_unchecked(
                ar,
                data[idx],
                middle_value,
                old_value,
                sum,
                trailing_sum,
                heading_sum,
                inv,
            )
        } else {
            trima_next_even_unchecked(
                ar,
                data[idx],
                middle_value,
                old_value,
                sum,
                trailing_sum,
                heading_sum,
                inv,
            )
        };
        proof {
            if exact(ar) {
                assert(next_sum == sums_at(ar, data@, period, idx as int).0);
                assert(value == ideal[idx as int]);
            }
        }
        if !value.is_finite() {
            proof {
                if exact(ar) {
                    assert(bad(data@, ideal, lookback, idx as int));
                    lemma_decided_at(
                        Err::<Seq<Float>, Fault>(Fault::Overflow(idx, value)),
                        data@,
                        ideal,
                        lookback,
                        ideal,
                        idx as int,
                    );
                }
            }
            return Err(TechalibError::Overflow(idx, value));
        }
        values.push(value);
        prev = value;
        sum = next_sum;
        trailing_sum = next_trailing;
        heading_sum = next_heading;
        proof {
            if exact(ar) {
                assert(!bad(data@, ideal, lookback, idx as int));
                assert(values@ =~= ideal.take(idx + 1));
            }
        }
        idx += 1;
    }
    let state = TrimaState {
        trima: prev,
        sum,
        trailing_sum,
        heading_sum,
        window: tail_window(data, period),
        inv_weight_sum: inv,
        period,
    };
    proof {
        if exact(ar) {
            assert(ideal.take(len as int) == ideal);
            lemma_decided_ok(data@, ideal, lookback, ideal);
        }
    }
    Ok(TrimaResult { values, state })
}

/// The triangular moving average of `data`, written into `output`. An
/// output whose length is not that of the input is refused first. Where the
/// calculation fails, `output` is left as it was.
pub fn trima_into<A: Arith>(ar: &A, data: &[Float], period: usize, output: &mut [Float]) -> (r:
    Result<TrimaState, TechalibError>)
    ensures
        final(output)@.len() == old(output)@.len(),
        r is Err ==> final(output)@ == old(output)@,
        old(output)@.len() != data@.len() ==> fails(r, Fault::BadParam(length_text())),
        old(output)@.len() == data@.len() ==> {
            &&& period < 2 ==> fails(r, Fault::BadParam(trima_period_text()))
            &&& period >= 2 && data@.len() < period ==> fails(r, Fault::InsufficientData)
            &&& period >= 2 && data@.len() >= period ==> match r {
                Ok(state) => state.closes(final(output)@, data@, period),
                Err(e) => sound_failure(e@, data@, period - 1),
            }
            &&& exact(ar) && period >= 2 && data@.len() >= period ==> {
                &&& decided(
                    match r {
                        Ok(state) => Ok(final(output)@),
                        Err(e) => Err(e@),
                    },
                    data@,
                    trima_values(ar, data@, period),
                    period - 1,
                    trima_values(ar, data@, period),
                )
                &&& r matches Ok(state) ==> state.at_end_of(ar, data@, period)
            }
        },
{
    TechalibError::check_same_length(output, data)?;
    let res = trima(ar, data, period)?;
    copy_into(&res.values, output);
    Ok(res.state)
}

/// The state after `new_value`.
///
/// The checks come in the order of [`TrimaState::refusal`]; then the sums
/// and the average are computed, and an average that is not finite is
/// reported as an overflow at position 0.
pub fn trima_next<A: Arith>(ar: &A, new_value: Float, state: &TrimaState) -> (r: Result<
    TrimaState,
    TechalibError,
>)
    ensures
        state.refusal(new_value) matches Some(fault) ==> fails(r, fault),
        state.refusal(new_value) is None ==> match r {
            Ok(next) => {
                &&& next.period == state.period
                &&& next.inv_weight_sum == state.inv_weight_sum
                &&& next.window@ == shifted(state.window@, new_value)
                &&& next.trima.finite()
            },
            Err(e) => step_overflow(e@),
        },
        exact(ar) && state.refusal(new_value) is None ==> {
            let v = state.next_trima(ar, new_value);
            let s = state.next_sums(ar, new_value);
            if v.finite() {
                r matches Ok(next) && next.trima == v && next.sum == s.0 && next.trailing_sum
                    == s.1 && next.heading_sum == s.2
            } else {
                fails(r, Fault::Overflow(0, v))
            }
        },
{
    if state.period <= 1 {
        return Err(TechalibError::bad_param("TRIMA period must be greater than 1"));
    }
    if state.window.len() != state.period {
        return Err(TechalibError::bad_param("Window length must match the TRIMA period"));
    }
    if !new_value.is_finite() {
        return Err(TechalibError::non_finite("new_value"));
    }
    if !state.trima.is_finite() {
        return Err(TechalibError::non_finite("prev_trima"));
    }
    if !state.sum.is_finite() {
        return Err(TechalibError::non_finite("sum"));
    }
    if !state.trailing_sum.is_finite() {
        return Err(TechalibError::non_finite("trailing_sum"));
    }
    if !state.heading_sum.is_finite() {
        return Err(TechalibError::non_finite("heading_sum"));
    }
    if !state.inv_weight_sum.is_finite() {
        return Err(TechalibError::non_finite("inv_weight_sum"));
    }
    if first_non_finite(&state.window).is_some() {
        return Err(TechalibError::non_finite("window"));
    }
    let odd = state.period % 2 != 0;
    let middle = get_middle_idx(state.period);
    let old_value = state.window[0];
    let middle_value = state.window[middle + 1];
    let (trima, new_sum, new_trailing_sum, new_heading_sum) = if odd {
        trima_next_odd_unchecked(
            ar,
            new_value,
            middle_value,
            old_value,
            state.sum,
            state.trailing_sum,
            state.heading_sum,
            state.inv_weight_sum,
        )
    } else {
        trima_next_even_unchecked(
            ar,
            new_value,
            middle_value,
            old_value,
            state.sum,
            state.trailing_sum,
            state.heading_sum,
            state.inv_weight_sum,
        )
    };
    if !trima.is_finite() {
        return Err(TechalibError::Overflow(0, trima));
    }
    let window = shift_window(&state.window, new_value);
    Ok(
        TrimaState {
            trima,
            sum: new_sum,
            trailing_sum: new_trailing_sum,
            heading_sum: new_heading_sum,
            window,
            inv_weight_sum: state.inv_weight_sum,
            period: state.period,
        },
    )
}

impl TrimaState {
    /// The state after `new_value`: see [`trima_next`].
    pub fn next<A: Arith>(&self, ar: &A, new_value: Float) -> (r: Result<TrimaState, TechalibError>)
        ensures
            self.refusal(new_value) matches Some(fault) ==> fails(r, fault),
            self.refusal(new_value) is None ==> match r {
                Ok(next) => {
                    &&& next.period == self.period
                    &&& next.inv_weight_sum == self.inv_weight_sum
                    &&& next.window@ == shifted(self.window@, new_value)
                    &&& next.trima.finite()
                },
                Err(e) => step_overflow(e@),
            },
            exact(ar) && self.refusal(new_value) is None ==> {
                let v = self.next_trima(ar, new_value);
                let s = self.next_sums(ar, new_value);
                if v.finite() {
                    r matches Ok(next) && next.trima == v && next.sum == s.0 && next.trailing_sum
                        == s.1 && next.heading_sum == s.2
                } else {
                    fails(r, Fault::Overflow(0, v))
                }
            },
    {
        trima_next(ar, new_value, self)
    }
}

/// The sums of the first window are the same for two series that agree on
/// their first `period` samples.
pub proof fn lemma_first_sums_same<A: Arith>(ar: &A, a: Seq<Float>, b: Seq<Float>, period: usize)
    requires
        period >= 2,
        forall|j: int| 0 <= j < period ==> a[j] == b[j],
    ensures
        sums_at(ar, a, period, period - 1) == sums_at(ar, b, period, period - 1),
{
    lemma_running_sum_same(ar, a, b, (middle_idx(period) + 1) as nat);
    lemma_rising_sum_same(ar, a, b, (middle_idx(period) + 1) as nat);
    lemma_falling_sums_same(ar, a, b, period, (period - 1 - middle_idx(period)) as nat);
}

/// The rising sum of the first `n` samples is the same for two series that
/// agree on them.
pub proof fn lemma_rising_sum_same<A: Arith>(ar: &A, a: Seq<Float>, b: Seq<Float>, n: nat)
    requires
        forall|j: int| 0 <= j < n ==> a[j] == b[j],
    ensures
        rising_sum(ar, a, n) == rising_sum(ar, b, n),
    decreases n,
{
    if n > 0 {
        lemma_rising_sum_same(ar, a, b, (n - 1) as nat);
    }
}

/// The falling sums are the same for two series that agree on their first
/// `period` samples.
pub proof fn lemma_falling_sums_same<A: Arith>(
    ar: &A,
    a: Seq<Float>,
    b: Seq<Float>,
    period: usize,
    j: nat,
)
    requires
        period >= 2,
        j <= period - 1 - middle_idx(period),
        forall|i: int| 0 <= i < period ==> a[i] == b[i],
    ensures
        falling_sums(ar, a, period, j) == falling_sums(ar, b, period, j),
    decreases j,
{
    if j == 0 {
        lemma_rising_sum_same(ar, a, b, (middle_idx(period) + 1) as nat);
    } else {
        lemma_falling_sums_same(ar, a, b, period, (j - 1) as nat);
    }
}

/// The sums and the average at a position depend on the samples up to that
/// position only.
pub proof fn lemma_trima_at_prefix<A: Arith>(
    ar: &A,
    data: Seq<Float>,
    period: usize,
    k: int,
    i: int,
)
    requires
        period >= 2,
        0 <= i < k <= data.len(),
    ensures
        i >= period - 1 ==> sums_at(ar, data.take(k), period, i) == sums_at(ar, data, period, i),
        trima_at(ar, data.take(k), period, i) == trima_at(ar, data, period, i),
    decreases i,
{
    if i < period - 1 {
    } else if i == period - 1 {
        lemma_first_sums_same(ar, data.take(k), data, period);
    } else {
        lemma_trima_at_prefix(ar, data, period, k, i - 1);
    }
}

/// No lookahead: the averages of the first `k` samples are the first `k`
/// averages of the whole series.
pub proof fn lemma_trima_no_lookahead<A: Arith>(ar: &A, data: Seq<Float>, period: usize, k: int)
    requires
        period >= 2,
        0 <= k <= data.len(),
    ensures
        trima_values(ar, data.take(k), period) == trima_values(ar, data, period).take(k),
{
    assert forall|i: int| 0 <= i < k implies trima_at(ar, data.take(k), period, i) == trima_at(
        ar,
        data,
        period,
        i,
    ) by {
        lemma_trima_at_prefix(ar, data, period, k, i);
    }
    assert(trima_values(ar, data.take(k), period) =~= trima_values(ar, data, period).take(k));
}

/// Streaming consistency: from the state after the first `k` samples, the
/// average after sample `k` is the average that is due at position `k` of
/// the series with one sample more.
pub proof fn lemma_trima_streaming<A: Arith>(
    ar: &A,
    data: Seq<Float>,
    period: usize,
    k: int,
    state: TrimaState,
)
    requires
        2 <= period <= k < data.len(),
        state.at_end_of(ar, data.take(k), period),
    ensures
        state.next_trima(ar, data[k]) == trima_values(ar, data.take(k + 1), period)[k],
        state.next_sums(ar, data[k]) == sums_at(ar, data.take(k + 1), period, k),
        shifted(state.window@, data[k]) == tail(data.take(k + 1), period),
{
    let longer = data.take(k + 1);
    assert(longer.take(k) =~= data.take(k));
    lemma_trima_at_prefix(ar, longer, period, k, k - 1);
    assert(shifted(state.window@, data[k]) =~= tail(longer, period));
}

impl State<Float> for TrimaState {
    /// Moves the state on by `sample`: the state becomes what
    /// [`TrimaState::next`] returns.
    fn update<A: Arith>(&mut self, ar: &A, sample: Float) -> (r: Result<(), TechalibError>)
        ensures
            old(self).refusal(sample) matches Some(fault) ==> fails(r, fault),
            old(self).refusal(sample) is None ==> match r {
                Ok(_) => {
                    &&& final(self).period == old(self).period
                    &&& final(self).inv_weight_sum == old(self).inv_weight_sum
                    &&& final(self).window@ == shifted(old(self).window@, sample)
                    &&& final(self).trima.finite()
                },
                Err(e) => step_overflow(e@),
            },
            exact(ar) && old(self).refusal(sample) is None ==> {
                let v = old(self).next_trima(ar, sample);
                let s = old(self).next_sums(ar, sample);
                if v.finite() {
                    &&& r is Ok
                    &&& final(self).trima == v
                    &&& final(self).sum == s.0
                    &&& final(self).trailing_sum == s.1
                    &&& final(self).heading_sum == s.2
                } else {
                    fails(r, Fault::Overflow(0, v))
                }
            },
    {
        let next = self.next(ar, sample)?;
        *self = next;
        Ok(())
    }
}

impl From<TrimaResult> for Vec<Float> {
    /// The values of the result, without its state.
    fn from(result: TrimaResult) -> (values: Vec<Float>) {
        result.values
    }
}

impl vstd::std_specs::convert::FromSpecImpl<TrimaResult> for Vec<Float> {
    open spec fn obeys_from_spec() -> bool {
        true
    }

    open spec fn from_spec(result: TrimaResult) -> Vec<Float> {
        result.values
    }
}

/// No lookahead, of the results: where the averages of a series come out,
/// those of its first `k` samples come out too, and they are the first `k`
/// of the whole series. `full` and `part` are what [`trima`] returns for an
/// exact arithmetic.
pub proof fn lemma_trima_prefix_result<A: Arith>(
    ar: &A,
    data: Seq<Float>,
    period: usize,
    k: int,
    full: Result<Seq<Float>, Fault>,
    part: Result<Seq<Float>, Fault>,
)
    requires
        period >= 2,
        0 <= k <= data.len(),
        decided(
            full,
            data,
            trima_values(ar, data, period),
            period - 1,
            trima_values(ar, data, period),
        ),
        decided(
            part,
            data.take(k),
            trima_values(ar, data.take(k), period),
            period - 1,
            trima_values(ar, data.take(k), period),
        ),
        full matches Ok(values),
    ensures
        full matches Ok(values) && part == Ok::<Seq<Float>, Fault>(values.take(k)),
{
    let whole = trima_values(ar, data, period);
    let first = trima_values(ar, data.take(k), period);
    lemma_trima_no_lookahead(ar, data, period, k);
    assert forall|i: int| 0 <= i < k implies #[trigger] first[i] == whole[i] by {
        assert(whole.take(k)[i] == whole[i]);
    }
    lemma_prefix_runs_through(full, part, data, whole, first, period - 1, k, whole, first);
}

/// Streaming consistency, of the results: the state that [`trima`] returns
/// for the first `k` samples takes sample `k`, where the averages of the
/// first `k + 1` samples come out and the stored sums and weight are
/// finite, and its step gives the average at position `k`. `before`,
/// `state` and `longer` are what [`trima`] returns for an exact arithmetic;
/// it does not test the sums and the weight, which the step does.
pub proof fn lemma_trima_update_result<A: Arith>(
    ar: &A,
    data: Seq<Float>,
    period: usize,
    k: int,
    before: Seq<Float>,
    state: TrimaState,
    longer: Result<Seq<Float>, Fault>,
)
    requires
        2 <= period <= k < data.len(),
        state.sum.finite(),
        state.trailing_sum.finite(),
        state.heading_sum.finite(),
        state.inv_weight_sum.finite(),
        state.closes(before, data.take(k), period),
        state.at_end_of(ar, data.take(k), period),
        decided(
            longer,
            data.take(k + 1),
            trima_values(ar, data.take(k + 1), period),
            period - 1,
            trima_values(ar, data.take(k + 1), period),
        ),
        longer matches Ok(values),
    ensures
        state.refusal(data[k]) is None,
        state.next_trima(ar, data[k]).finite(),
        longer matches Ok(values) && state.next_trima(ar, data[k]) == values[k],
        shifted(state.window@, data[k]) == tail(data.take(k + 1), period),
{
    let long = data.take(k + 1);
    let ideal = trima_values(ar, long, period);
    assert(!bad(long, ideal, period - 1, k));
    assert(before[k - 1].finite());
    let window = state.window@;
    assert forall|i: int| 0 <= i < window.len() implies (#[trigger] window[i]).finite() by {
        assert(data.take(k)[k - period + i].finite());
    }
    lemma_trima_streaming(ar, data, period, k, state);
}

} // verus!
