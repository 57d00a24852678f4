//! Double exponential moving average: `2 * ema_1 - ema_2`, where `ema_2` is
//! the exponential average of `ema_1`.
use crate::arith::{exact, minus, plus, times, Arith};
use crate::errors::{fails, length_text, step_overflow, Fault, TechalibError};
use crate::float::{nan, two, Float, TWO_BITS};
use crate::indicators::ema::{
    alpha_value, ema_at, ema_next_unchecked, ema_period_text, ema_step, get_alpha_value,
    lemma_ema_at_prefix,
};
use crate::indicators::sma::{inv_period_of, inverse_of_period, sma_seed};
use crate::series::{
    all_finite, bad, clean, copy_into, decided, filled, finite_upto, lemma_decided_at,
    lemma_decided_early, lemma_decided_ok, lemma_prefix_runs_through, nans, push_nans,
    sound_failure,
};
use crate::traits::State;
use vstd::prelude::*;

verus! {

/// The averages of a series and the state that continues them.
#[derive(Debug)]
pub struct DemaResult {
    /// One value for each sample: NaN before position `2 * (period - 1)`.
    pub values: Vec<Float>,
    /// The state after the last sample.
    pub state: DemaState,
}

/// What the next average is computed from.
#[derive(Debug, Clone, Copy)]
pub struct DemaState {
    /// The last double exponential average.
    pub dema: Float,
    /// The exponential average of the samples.
    pub ema_1: Float,
    /// The exponential average of `ema_1`.
    pub ema_2: Float,
    pub period: usize,
    pub alpha: Float,
}

/// The lookback of the double exponential average: `2 * (period - 1)`.
pub open spec fn dema_skip(period: usize) -> int {
    2 * (period - 1)
}

/// `2 * ema_1 - ema_2`.
pub open spec fn dema_of<A: Arith>(ar: &A, ema_1: Float, ema_2: Float) -> Float {
    minus(ar, times(ar, two(), ema_1), ema_2)
}

/// The exponential averages of the samples from position `period - 1` to
/// `i`, added up in order.
pub open spec fn ema_sum<A: Arith>(
    ar: &A,
    data: Seq<Float>,
    period: usize,
    alpha: Float,
    i: int,
) -> Float
    decreases i,
{
    if i <= period - 1 || i <= 0 {
        ema_at(ar, data, period, alpha, period - 1)
    } else {
        plus(ar, ema_sum(ar, data, period, alpha, i - 1), ema_at(ar, data, period, alpha, i))
    }
}

/// The second average at position `i`, from the lookback on: there the mean
/// of the first `period` values of the first average, then one exponential
/// step for each of its values.
pub open spec fn ema2_at<A: Arith>(
    ar: &A,
    data: Seq<Float>,
    period: usize,
    alpha: Float,
    i: int,
) -> Float
    decreases i,
{
    if i <= dema_skip(period) || i <= 0 {
        times(ar, ema_sum(ar, data, period, alpha, dema_skip(period)), inv_period_of(ar, period))
    } else {
        ema_step(
            ar,
            ema_at(ar, data, period, alpha, i),
            ema2_at(ar, data, period, alpha, i - 1),
            alpha,
        )
    }
}

/// The average that is due at position `i`: NaN before the lookback.
pub open spec fn dema_at<A: Arith>(
    ar: &A,
    data: Seq<Float>,
    period: usize,
    alpha: Float,
    i: int,
) -> Float {
    if i < dema_skip(period) {
        nan()
    } else {
        dema_of(ar, ema_at(ar, data, period, alpha, i), ema2_at(ar, data, period, alpha, i))
    }
}

/// The averages that are due for `data`, one for each sample.
pub open spec fn dema_values<A: Arith>(
    ar: &A,
    data: Seq<Float>,
    period: usize,
    alpha: Float,
) -> Seq<Float> {
    Seq::new(data.len(), |i: int| dema_at(ar, data, period, alpha, i))
}

/// What `r` holds, for [`decided`].
pub open spec fn dema_got(r: Result<DemaResult, TechalibError>) -> Result<Seq<Float>, Fault> {
    match r {
        Ok(res) => Ok(res.values@),
        Err(e) => Err(e@),
    }
}

/// The two averages and the double average after one more sample.
pub open spec fn dema_step<A: Arith>(
    ar: &A,
    new_value: Float,
    prev_ema_1: Float,
    prev_ema_2: Float,
    alpha: Float,
) -> (Float, Float, Float) {
    let ema_1 = ema_step(ar, new_value, prev_ema_1, alpha);
    let ema_2 = ema_step(ar, ema_1, prev_ema_2, alpha);
    (dema_of(ar, ema_1, ema_2), ema_1, ema_2)
}

impl DemaState {
    /// `values` and the state are a result for `data` and `period`: the
    /// values are NaN before the lookback and finite from there on, every
    /// sample is finite, and the state holds the last value and the period.
    pub open spec fn closes(&self, values: Seq<Float>, data: Seq<Float>, period: usize) -> bool {
        &&& filled(values, data.len(), dema_skip(period) as nat)
        &&& all_finite(data)
        &&& self.period == period
        &&& self.dema == values[data.len() - 1]
    }

    /// The state is the one after the last sample of `data`.
    pub open spec fn at_end_of<A: Arith>(
        &self,
        ar: &A,
        data: Seq<Float>,
        period: usize,
        alpha: Float,
    ) -> bool {
        let last = data.len() - 1;
        &&& self.period == period
        &&& self.alpha == alpha
        &&& self.ema_1 == ema_at(ar, data, period, alpha, last)
        &&& self.ema_2 == ema2_at(ar, data, period, alpha, last)
        &&& self.dema == dema_at(ar, data, period, alpha, last)
    }

    /// Why the state refuses `new_value` before anything is computed, if it
    /// does: the first of these that holds.
    pub open spec fn refusal(&self, new_value: Float) -> Option<Fault> {
        if self.period <= 1 {
            Some(Fault::BadParam("Period must be greater than 1"@))
        } else if !new_value.finite() {
            Some(Fault::DataNonFinite("new_value"@))
        } else if !self.ema_1.finite() {
            Some(Fault::DataNonFinite("self.ema_1"@))
        } else if !self.ema_2.finite() {
            Some(Fault::DataNonFinite("self.ema_2"@))
        } else if !self.alpha.finite() {
            Some(Fault::DataNonFinite("self.alpha"@))
        } else {
            None
        }
    }

    /// The double average and the two averages after `new_value`.
    pub open spec fn next_values<A: Arith>(&self, ar: &A, new_value: Float) -> (
        Float,
        Float,
        Float,
    ) {
        dema_step(ar, new_value, self.ema_1, self.ema_2, self.alpha)
    }
}

/// The lookback of the double exponential average: `2 * (period - 1)`.
pub fn dema_skip_period_unchecked(period: usize) -> (r: usize)
    requires
        period >= 1,
        2 * (period - 1) <= usize::MAX,
    ensures
        r == 2 * (period - 1),
{
    2 * (period - 1)
}

/// `2 * ema_1 - ema_2`.
pub fn calculate_dema<A: Arith>(ar: &A, ema_1: Float, ema_2: Float) -> (r: Float)
    ensures
        exact(ar) ==> r == dema_of(ar, ema_1, ema_2),
{
    ar.sub(ar.mul(Float { bits: TWO_BITS }, ema_1), ema_2)
}

/// One step of the two averages: see [`dema_step`].
pub fn dema_next_unchecked<A: Arith>(
    ar: &A,
    new_value: Float,
    prev_ema_1: Float,
    prev_ema_2: Float,
    alpha: Float,
) -> (r: (Float, Float, Float))
    ensures
        exact(ar) ==> r == dema_step(ar, new_value, prev_ema_1, prev_ema_2, alpha),
{
    let ema_1 = ema_next_unchecked(ar, new_value, prev_ema_1, alpha);
    let ema_2 = ema_next_unchecked(ar, ema_1, prev_ema_2, alpha);
    (calculate_dema(ar, ema_1, ema_2), ema_1, ema_2)
}

/// The two averages at the lookback `skip_period`, and their double
/// average: the first average is seeded with the mean of the first `period`
/// samples and stepped up to the lookback, and the second is the mean of
/// its values on the way. On a sample that is not finite, the position of
/// the first such sample is returned.
pub fn dema_seed<A: Arith>(
    ar: &A,
    data: &[Float],
    period: usize,
    inv_period: Float,
    skip_period: usize,
    alpha: Float,
) -> (r: Result<(Float, Float, Float), usize>)
    requires
        period >= 2,
        skip_period == dema_skip(period),
        skip_period < data@.len(),
    ensures
        match r {
            Ok(v) => {
                &&& finite_upto(data@, skip_period + 1)
                &&& exact(ar) && inv_period == inv_period_of(ar, period) ==> {
                    &&& v.1 == ema_at(ar, data@, period, alpha, skip_period as int)
                    &&& v.2 == ema2_at(ar, data@, period, alpha, skip_period as int)
                    &&& v.0 == dema_of(ar, v.1, v.2)
                }
            },
            Err(j) => j <= skip_period && !data@[j as int].finite() && finite_upto(
                data@,
                j as int,
            ),
        },
{
    let mut ema_1 = match sma_seed(ar, data, period, inv_period) {
        Ok(seed) => seed,
        Err(j) => {
            return Err(j);
        },
    };
    let ghost exactly = exact(ar) && inv_period == inv_period_of(ar, period);
    let mut sum_ema_2 = ema_1;
    let mut idx: usize = period;
    while idx <= skip_period
        invariant
            2 <= period <= idx <= skip_period + 1,
            skip_period < data@.len(),
            skip_period == dema_skip(period),
            exactly == (exact(ar) && inv_period == inv_period_of(ar, period)),
            finite_upto(data@, idx as int),
            exactly ==> ema_1 == ema_at(ar, data@, period, alpha, idx - 1),
            exactly ==> sum_ema_2 == ema_sum(ar, data@, period, alpha, idx - 1),
        decreases skip_period + 1 - idx,
    {
        if !data[idx].is_finite() {
            return Err(idx);
        }
        ema_1 = ema_next_unchecked(ar, data[idx], ema_1, alpha);
        sum_ema_2 = ar.add(sum_ema_2, ema_1);
        idx += 1;
    }
    let ema_2 = ar.mul(sum_ema_2, inv_period);
    Ok((calculate_dema(ar, ema_1, ema_2), ema_1, ema_2))
}

/// The two averages at the lookback and their double average, as
/// [`dema_seed`] gives them; a NaN is then appended to `output` for each
/// position before the lookback. Where a sample is not finite, `output` is
/// left as it was.
pub fn init_dema_unchecked<A: Arith>(
    ar: &A,
    data: &[Float],
    period: usize,
    inv_period: Float,
    skip_period: usize,
    alpha: Float,
    output: &mut Vec<Float>,
) -> (r: Result<(Float, Float, Float), usize>)
    requires
        period >= 2,
        skip_period == dema_skip(period),
        skip_period < data@.len(),
    ensures
        match r {
            Ok(v) => {
                &&& finite_upto(data@, skip_period + 1)
                &&& final(output)@ == old(output)@ + nans(skip_period as nat)
                &&& exact(ar) && inv_period == inv_period_of(ar, period) ==> {
                    &&& v.1 == ema_at(ar, data@, period, alpha, skip_period as int)
                    &&& v.2 == ema2_at(ar, data@, period, alpha, skip_period as int)
                    &&& v.0 == dema_of(ar, v.1, v.2)
                }
            },
            Err(j) => {
                &&& j <= skip_period && !data@[j as int].finite() && finite_upto(data@, j as int)
                &&& final(output)@ == old(output)@
            },
        },
{
    match dema_seed(ar, data, period, inv_period, skip_period, alpha) {
        Ok(v) => {
            push_nans(output, skip_period);
            Ok(v)
        },
        Err(j) => Err(j),
    }
}

/// The double exponential moving average of `data` over `period` samples.
///
/// A period below 2 is refused, then a series of fewer than
/// `2 * (period - 1) + 1` samples. The first sample that is not finite, or
/// whose average is not finite, ends the calculation with its report.
pub fn dema<A: Arith>(ar: &A, data: &[Float], period: usize, alpha: Option<Float>) -> (r: Result<
    DemaResult,
    TechalibError,
>)
    ensures
        period < 2 ==> fails(r, Fault::BadParam(ema_period_text())),
        period >= 2 && data@.len() <= dema_skip(period) ==> fails(r, Fault::InsufficientData),
        period >= 2 && data@.len() > dema_skip(period) ==> match r {
            Ok(res) => res.state.closes(res.values@, data@, period) && (alpha matches Some(a)
                ==> res.state.alpha == a),
            Err(e) => sound_failure(e@, data@, dema_skip(period)),
        },
        exact(ar) && period >= 2 && data@.len() > dema_skip(period) ==> {
            &&& decided(
                dema_got(r),
                data@,
                dema_values(ar, data@, period, alpha_value(ar, alpha, period)),
                dema_skip(period),
                dema_values(ar, data@, period, alpha_value(ar, alpha, period)),
            )
            &&& r matches Ok(res) ==> res.state.at_end_of(
                ar,
                data@,
                period,
                alpha_value(ar, alpha, period),
            )
        },
{
    let len = data.len();
    if period < 2 {
        return Err(TechalibError::bad_param("EMA period must be greater than 1"));
    }
    if len == 0 || period - 1 > (len - 1) / 2 {
        return Err(TechalibError::InsufficientData);
    }
    let skip_period = dema_skip_period_unchecked(period);
    let alpha_used = get_alpha_value(ar, alpha, period)?;
    let ghost weight = alpha_value(ar, alpha, period);
    let ghost ideal = dema_values(ar, data@, period, weight);
    let ghost lookback = dema_skip(period);
    let inv = inverse_of_period(ar, period);
    let mut values: Vec<Float> = Vec::new();
    let (first, first_ema_1, first_ema_2) = match init_dema_unchecked(
        ar,
        data,
        period,
        inv,
        skip_period,
        alpha_used,
        &mut values,
    ) {
        Ok(v) => v,
        Err(j) => {
            proof {
                if exact(ar) {
                    lemma_decided_early(
                        Err::<Seq<Float>, Fault>(Fault::DataNonFinite("data"@)),
                        data@,
                        ideal,
                        lookback,
                        ideal,
                        j as int,
                    );
                }
            }
            return Err(TechalibError::non_finite("data"));
        },
    };
    proof {
        if exact(ar) {
            assert(first == ideal[lookback]);
            assert forall|k: int| 0 <= k < lookback implies !#[trigger] bad(
                data@,
                ideal,
                lookback,
                k,
            ) by {}
        }
    }
    if !first.is_finite() {
        proof {
            if exact(ar) {
                assert(bad(data@, ideal, lookback, lookback));
                lemma_decided_at(
                    Err::<Seq<Float>, Fault>(Fault::Overflow(skip_period, first)),
                    data@,
                    ideal,
                    lookback,
                    ideal,
                    lookback,
                );
            }
        }
        return Err(TechalibError::Overflow(skip_period, first));
    }
    values.push(first);
    let mut prev = first;
    let mut ema_1 = first_ema_1;
    let mut ema_2 = first_ema_2;
    let mut idx: usize = skip_period + 1;
    proof {
        if exact(ar) {
            assert(!bad(data@, ideal, lookback, lookback));
            assert(values@ =~= ideal.take(idx as int));
        }
    }
    while idx < len
        invariant
            period >= 2,
            skip_period == dema_skip(period),
            skip_period < idx <= len,
            len == data@.len(),
            lookback == dema_skip(period),
            weight == alpha_value(ar, alpha, period),
            ideal == dema_values(ar, data@, period, weight),
            exact(ar) ==> alpha_used == weight,
            finite_upto(data@, idx as int),
            filled(values@, idx as nat, lookback as nat),
            prev == values@[idx - 1],
            exact(ar) ==> ema_1 == ema_at(ar, data@, period, weight, idx - 1),
            exact(ar) ==> ema_2 == ema2_at(ar, data@, period, weight, idx - 1),
            exact(ar) ==> clean(data@, ideal, lookback, idx as int),
            exact(ar) ==> values@ == ideal.take(idx as int),
        decreases len - idx,
    {
        if !data[idx].is_finite() {
            proof {
                if exact(ar) {
                    assert(bad(data@, ideal, lookback, idx as int));
                    lemma_decided_at(
                        Err::<Seq<Float>, Fault>(Fault::DataNonFinite("data"@)),
                        data@,
                        ideal,
                        lookback,
                        ideal,
                        idx as int,
                    );
                }
            }
            return Err(TechalibError::non_finite("data"));
        }
        let (value, next_ema_1, next_ema_2) = dema_next_unchecked(
            ar,
            data[idx],
            ema_1,
            ema_2,
            alpha_used,
        );
        proof {
            if exact(ar) {
                assert(next_ema_1 == ema_at(ar, data@, period, weight, idx as int));
                assert(next_ema_2 == ema2_at(ar, data@, period, weight, idx as int));
                assert(value == ideal[idx as int]);
            }
        }
        if !value.is_finite() {
            proof {
                if exact(ar) {
                    assert(bad(data@, ideal, lookback, idx as int));
                    lemma_decided_at(
                        Err::<Seq<Float>, Fault>(Fault::Overflow(idx, value)),
                        data@,
                        ideal,
                        lookback,
                        ideal,
                        idx as int,
                    );
                }
            }
            return Err(TechalibError::Overflow(idx, value));
        }
        values.push(value);
        prev = value;
        ema_1 = next_ema_1;
        ema_2 = next_ema_2;
        proof {
            if exact(ar) {
                assert(!bad(data@, ideal, lookback, idx as int));
                assert(values@ =~= ideal.take(idx + 1));
            }
        }
        idx += 1;
    }
    let state = DemaState { dema: prev, ema_1, ema_2, period, alpha: alpha_used };
    proof {
        if exact(ar) {
            assert(ideal.take(len as int) == ideal);
            lemma_decided_ok(data@, ideal, lookback, ideal);
        }
    }
    Ok(DemaResult { values, state })
}

/// The double exponential moving average of `data`, written into `output`.
/// An output whose length is not that of the input is refused first. Where
/// the calculation fails, `output` is left as it was.
pub fn dema_into<A: Arith>(
    ar: &A,
    data: &[Float],
    period: usize,
    alpha: Option<Float>,
    output: &mut [Float],
) -> (r: Result<DemaState, TechalibError>)
    ensures
        final(output)@.len() == old(output)@.len(),
        r is Err ==> final(output)@ == old(output)@,
        old(output)@.len() != data@.len() ==> fails(r, Fault::BadParam(length_text())),
        old(output)@.len() == data@.len() ==> {
            &&& period < 2 ==> fails(r, Fault::BadParam(ema_period_text()))
            &&& period >= 2 && data@.len() <= dema_skip(period) ==> fails(
                r,
                Fault::InsufficientData,
            )
            &&& period >= 2 && data@.len() > dema_skip(period) ==> match r {
                Ok(state) => state.closes(final(output)@, data@, period) && (alpha matches Some(a)
                    ==> state.alpha == a),
                Err(e) => sound_failure(e@, data@, dema_skip(period)),
            }
            &&& exact(ar) && period >= 2 && data@.len() > dema_skip(period) ==> {
                &&& decided(
                    match r {
                        Ok(state) => Ok(final(output)@),
                        Err(e) => Err(e@),
                    },
                    data@,
                    dema_values(ar, data@, period, alpha_value(ar, alpha, period)),
                    dema_skip(period),
                    dema_values(ar, data@, period, alpha_value(ar, alpha, period)),
                )
                &&& r matches Ok(state) ==> state.at_end_of(
                    ar,
                    data@,
                    period,
                    alpha_value(ar, alpha, period),
                )
            }
        },
{
    TechalibError::check_same_length(output, data)?;
    let res = dema(ar, data, period, alpha)?;
    copy_into(&res.values, output);
    Ok(res.state)
}

impl DemaState {
    /// Moves the two averages and their double average on by `new_value`.
    ///
    /// The checks come in the order of [`DemaState::refusal`]; then the
    /// averages are computed, and a double average that is not finite is
    /// reported as an overflow at position 0. A state that refuses the
    /// sample stays as it was.
    pub fn next<A: Arith>(&mut self, ar: &A, new_value: Float) -> (r: Result<(), TechalibError>)
        ensures
            r is Err ==> *final(self) == *old(self),
            old(self).refusal(new_value) matches Some(fault) ==> fails(r, fault),
            old(self).refusal(new_value) is None ==> match r {
                Ok(_) => {
                    &&& final(self).period == old(self).period
                    &&& final(self).alpha == old(self).alpha
                    &&& final(self).dema.finite()
                },
                Err(e) => step_overflow(e@),
            },
            exact(ar) && old(self).refusal(new_value) is None ==> {
                let v = old(self).next_values(ar, new_value);
                if v.0.finite() {
                    &&& r is Ok
                    &&& final(self).dema == v.0
                    &&& final(self).ema_1 == v.1
                    &&& final(self).ema_2 == v.2
                } else {
                    fails(r, Fault::Overflow(0, v.0))
                }
            },
    {
        if self.period <= 1 {
            return Err(TechalibError::bad_param("Period must be greater than 1"));
        }
        if !new_value.is_finite() {
            return Err(TechalibError::non_finite("new_value"));
        }
        if !self.ema_1.is_finite() {
            return Err(TechalibError::non_finite("self.ema_1"));
        }
        if !self.ema_2.is_finite() {
            return Err(TechalibError::non_finite("self.ema_2"));
        }
        if !self.alpha.is_finite() {
            return Err(TechalibError::non_finite("self.alpha"));
        }
        let (dema, ema_1, ema_2) = dema_next_unchecked(
            ar,
            new_value,
            self.ema_1,
            self.ema_2,
            self.alpha,
        );
        if !dema.is_finite() {
            return Err(TechalibError::Overflow(0, dema));
        }
        self.dema = dema;
        self.ema_1 = ema_1;
        self.ema_2 = ema_2;
        Ok(())
    }
}

/// The sum of the first averages up to a position depends on the samples up
/// to that position only.
pub proof fn lemma_ema_sum_prefix<A: Arith>(
    ar: &A,
    data: Seq<Float>,
    period: usize,
    alpha: Float,
    k: int,
    i: int,
)
    requires
        period >= 1,
        period <= k <= data.len(),
        i < k,
    ensures
        ema_sum(ar, data.take(k), period, alpha, i) == ema_sum(ar, data, period, alpha, i),
    decreases i,
{
    if i <= period - 1 || i <= 0 {
        lemma_ema_at_prefix(ar, data, period, alpha, k, period - 1);
    } else {
        lemma_ema_sum_prefix(ar, data, period, alpha, k, i - 1);
        lemma_ema_at_prefix(ar, data, period, alpha, k, i);
    }
}

/// The second average at a position depends on the samples up to that
/// position only, for a prefix that reaches the lookback.
pub proof fn lemma_ema2_at_prefix<A: Arith>(
    ar: &A,
    data: Seq<Float>,
    period: usize,
    alpha: Float,
    k: int,
    i: int,
)
    requires
        period >= 2,
        dema_skip(period) < k <= data.len(),
        i < k,
    ensures
        ema2_at(ar, data.take(k), period, alpha, i) == ema2_at(ar, data, period, alpha, i),
    decreases i,
{
    if i <= dema_skip(period) || i <= 0 {
        lemma_ema_sum_prefix(ar, data, period, alpha, k, dema_skip(period));
    } else {
        lemma_ema2_at_prefix(ar, data, period, alpha, k, i - 1);
        lemma_ema_at_prefix(ar, data, period, alpha, k, i);
    }
}

/// No lookahead: the averages of the first `k` samples are the first `k`
/// averages of the whole series.
pub proof fn lemma_dema_no_lookahead<A: Arith>(
    ar: &A,
    data: Seq<Float>,
    period: usize,
    alpha: Float,
    k: int,
)
    requires
        period >= 2,
        0 <= k <= data.len(),
    ensures
        dema_values(ar, data.take(k), period, alpha) == dema_values(ar, data, period, alpha).take(
            k,
        ),
{
    assert forall|i: int| 0 <= i < k implies dema_at(ar, data.take(k), period, alpha, i)
        == dema_at(ar, data, period, alpha, i) by {
        if i >= dema_skip(period) {
            lemma_ema_at_prefix(ar, data, period, alpha, k, i);
            lemma_ema2_at_prefix(ar, data, period, alpha, k, i);
        }
    }
    assert(dema_values(ar, data.take(k), period, alpha) =~= dema_values(
        ar,
        data,
        period,
        alpha,
    ).take(k));
}

/// Streaming consistency: from the state after the first `k` samples, the
/// average after sample `k` is the average that is due at position `k` of
/// the series with one sample more.
pub proof fn lemma_dema_streaming<A: Arith>(
    ar: &A,
    data: Seq<Float>,
    period: usize,
    alpha: Float,
    k: int,
    state: DemaState,
)
    requires
        period >= 2,
        dema_skip(period) < k < data.len(),
        state.at_end_of(ar, data.take(k), period, alpha),
    ensures
        state.next_values(ar, data[k]).0 == dema_values(ar, data.take(k + 1), period, alpha)[k],
        state.next_values(ar, data[k]).1 == ema_at(ar, data.take(k + 1), period, alpha, k),
        state.next_values(ar, data[k]).2 == ema2_at(ar, data.take(k + 1), period, alpha, k),
{
    let longer = data.take(k + 1);
    assert(longer.take(k) =~= data.take(k));
    lemma_ema_at_prefix(ar, longer, period, alpha, k, k - 1);
    lemma_ema2_at_prefix(ar, longer, period, alpha, k, k - 1);
}

impl State<Float> for DemaState {
    /// Moves the state on by `sample`: see [`DemaState::next`].
    fn update<A: Arith>(&mut self, ar: &A, sample: Float) -> (r: Result<(), TechalibError>)
        ensures
            old(self).refusal(sample) matches Some(fault) ==> fails(r, fault),
            old(self).refusal(sample) is None ==> match r {
                Ok(_) => {
                    &&& final(self).period == old(self).period
                    &&& final(self).alpha == old(self).alpha
                    &&& final(self).dema.finite()
                },
                Err(e) => step_overflow(e@),
            },
            exact(ar) && old(self).refusal(sample) is None ==> {
                let v = old(self).next_values(ar, sample);
                if v.0.finite() {
                    &&& r is Ok
                    &&& final(self).dema == v.0
                    &&& final(self).ema_1 == v.1
                    &&& final(self).ema_2 == v.2
                } else {
                    fails(r, Fault::Overflow(0, v.0))
                }
            },
    {
        self.next(ar, sample)
    }
}

/// No lookahead, of the results: where the averages of a series come out,
/// those of its first `k` samples come out too, and they are the first `k`
/// of the whole series. `full` and `part` are what [`dema`] returns for an
/// exact arithmetic.
pub proof fn lemma_dema_prefix_result<A: Arith>(
    ar: &A,
    data: Seq<Float>,
    period: usize,
    alpha: Float,
    k: int,
    full: Result<Seq<Float>, Fault>,
    part: Result<Seq<Float>, Fault>,
)
    requires
        period >= 2,
        0 <= k <= data.len(),
        decided(
            full,
            data,
            dema_values(ar, data, period, alpha),
            dema_skip(period),
            dema_values(ar, data, period, alpha),
        ),
        decided(
            part,
            data.take(k),
            dema_values(ar, data.take(k), period, alpha),
            dema_skip(period),
            dema_values(ar, data.take(k), period, alpha),
        ),
        full matches Ok(values),
    ensures
        full matches Ok(values) && part == Ok::<Seq<Float>, Fault>(values.take(k)),
{
    let whole = dema_values(ar, data, period, alpha);
    let first = dema_values(ar, data.take(k), period, alpha);
    lemma_dema_no_lookahead(ar, data, period, alpha, k);
    assert forall|i: int| 0 <= i < k implies #[trigger] first[i] == whole[i] by {
        assert(whole.take(k)[i] == whole[i]);
    }
    lemma_prefix_runs_through(full, part, data, whole, first, dema_skip(period), k, whole, first);
}

/// Streaming consistency, of the results: the state that [`dema`] returns
/// for the first `k` samples takes sample `k`, where the averages of the
/// first `k + 1` samples come out and the two stored averages and the
/// weight are finite, and its step gives the average at position `k`.
/// `state` and `longer` are what [`dema`] returns for an exact arithmetic;
/// it does not test the two averages and the weight, which the step does.
pub proof fn lemma_dema_update_result<A: Arith>(
    ar: &A,
    data: Seq<Float>,
    period: usize,
    alpha: Float,
    k: int,
    state: DemaState,
    longer: Result<Seq<Float>, Fault>,
)
    requires
        period >= 2,
        dema_skip(period) < k < data.len(),
        alpha.finite(),
        state.ema_1.finite(),
        state.ema_2.finite(),
        state.at_end_of(ar, data.take(k), period, alpha),
        decided(
            longer,
            data.take(k + 1),
            dema_values(ar, data.take(k + 1), period, alpha),
            dema_skip(period),
            dema_values(ar, data.take(k + 1), period, alpha),
        ),
        longer matches Ok(values),
    ensures
        state.refusal(data[k]) is None,
        state.next_values(ar, data[k]).0.finite(),
        longer matches Ok(values) && state.next_values(ar, data[k]).0 == values[k],
{
    let long = data.take(k + 1);
    let ideal = dema_values(ar, long, period, alpha);
    assert(!bad(long, ideal, dema_skip(period), k));
    lemma_dema_streaming(ar, data, period, alpha, k, state);
}

} // verus!
