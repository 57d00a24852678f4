//! Triple exponential moving average: `3 * ema_1 - 3 * ema_2 + ema_3`, where
//! each average is the exponential average of the one before.
use crate::arith::{exact, minus, plus, times, Arith};
use crate::errors::{fails, length_text, step_overflow, Fault, TechalibError};
use crate::float::{nan, three, Float, THREE_BITS, TWO_BITS};
use crate::indicators::dema::{
    dema_next_unchecked, dema_seed, dema_skip, dema_skip_period_unchecked, ema2_at,
    lemma_ema2_at_prefix,
};
use crate::indicators::ema::{
    alpha_unchecked, alpha_value, ema_at, ema_next_unchecked, ema_period_text, ema_step,
    get_alpha_value, lemma_ema_at_prefix,
};
use crate::indicators::sma::{inv_period_of, inverse_of_period};
use crate::series::{
    all_finite, bad, clean, copy_into, decided, filled, finite_upto, lemma_decided_at,
    lemma_decided_early, lemma_decided_ok, lemma_prefix_runs_through, nans, push_nans,
    sound_failure,
};
use crate::traits::State;
use vstd::prelude::*;

verus! {

/// The averages of a series and the state that continues them.
#[derive(Debug)]
pub struct TemaResult {
    /// One value for each sample: NaN before position `3 * (period - 1)`.
    pub values: Vec<Float>,
    /// The state after the last sample.
    pub state: TemaState,
}

/// What the next average is computed from.
#[derive(Debug, Clone, Copy)]
pub struct TemaState {
    /// The last triple exponential average.
    pub tema: Float,
    /// The exponential average of the samples.
    pub ema_1: Float,
    /// The exponential average of `ema_1`.
    pub ema_2: Float,
    /// The exponential average of `ema_2`.
    pub ema_3: Float,
    pub period: usize,
    pub alpha: Float,
}

/// The lookback of the triple exponential average: `3 * (period - 1)`.
pub open spec fn tema_skip(period: usize) -> int {
    3 * (period - 1)
}

/// `3 * ema_1 - 3 * ema_2 + ema_3`.
pub open spec fn tema_of<A: Arith>(ar: &A, ema_1: Float, ema_2: Float, ema_3: Float) -> Float {
    plus(ar, minus(ar, times(ar, three(), ema_1), times(ar, three(), ema_2)), ema_3)
}

/// The second averages from the lookback of the double average to `i`,
/// added up in order.
pub open spec fn ema2_sum<A: Arith>(
    ar: &A,
    data: Seq<Float>,
    period: usize,
    alpha: Float,
    i: int,
) -> Float
    decreases i,
{
    if i <= dema_skip(period) || i <= 0 {
        ema2_at(ar, data, period, alpha, dema_skip(period))
    } else {
        plus(ar, ema2_sum(ar, data, period, alpha, i - 1), ema2_at(ar, data, period, alpha, i))
    }
}

/// The third average at position `i`, from the lookback on: there the mean
/// of the first `period` values of the second average, then one exponential
/// step for each of its values.
pub open spec fn ema3_at<A: Arith>(
    ar: &A,
    data: Seq<Float>,
    period: usize,
    alpha: Float,
    i: int,
) -> Float
    decreases i,
{
    if i <= tema_skip(period) || i <= 0 {
        times(ar, ema2_sum(ar, data, period, alpha, tema_skip(period)), inv_period_of(ar, period))
    } else {
        ema_step(
            ar,
            ema2_at(ar, data, period, alpha, i),
            ema3_at(ar, data, period, alpha, i - 1),
            alpha,
        )
    }
}

/// The average that is due at position `i`: NaN before the lookback.
pub open spec fn tema_at<A: Arith>(
    ar: &A,
    data: Seq<Float>,
    period: usize,
    alpha: Float,
    i: int,
) -> Float {
    if i < tema_skip(period) {
        nan()
    } else {
        tema_of(
            ar,
            ema_at(ar, data, period, alpha, i),
            ema2_at(ar, data, period, alpha, i),
            ema3_at(ar, data, period, alpha, i),
        )
    }
}

/// The averages that are due for `data`, one for each sample.
pub open spec fn tema_values<A: Arith>(
    ar: &A,
    data: Seq<Float>,
    period: usize,
    alpha: Float,
) -> Seq<Float> {
    Seq::new(data.len(), |i: int| tema_at(ar, data, period, alpha, i))
}

/// What `r` holds, for [`decided`].
pub open spec fn tema_got(r: Result<TemaResult, TechalibError>) -> Result<Seq<Float>, Fault> {
    match r {
        Ok(res) => Ok(res.values@),
        Err(e) => Err(e@),
    }
}

/// The three averages and the triple average after one more sample.
pub open spec fn tema_step<A: Arith>(
    ar: &A,
    new_value: Float,
    prev_ema_1: Float,
    prev_ema_2: Float,
    prev_ema_3: Float,
    alpha: Float,
) -> (Float, Float, Float, Float) {
    let ema_1 = ema_step(ar, new_value, prev_ema_1, alpha);
    let ema_2 = ema_step(ar, ema_1, prev_ema_2, alpha);
    let ema_3 = ema_step(ar, ema_2, prev_ema_3, alpha);
    (ema_1, ema_2, ema_3, tema_of(ar, ema_1, ema_2, ema_3))
}

/// Why [`tema_next`] refuses its arguments before the weight is looked at,
/// if it does: the first of these that holds.
pub open spec fn next_refusal(
    new_value: Float,
    prev_ema_1: Float,
    prev_ema_2: Float,
    prev_ema_3: Float,
    period: usize,
) -> Option<Fault> {
    if period <= 1 {
        Some(Fault::BadParam("Period must be greater than 1"@))
    } else if !new_value.finite() {
        Some(Fault::DataNonFinite("new_value"@))
    } else if !prev_ema_1.finite() {
        Some(Fault::DataNonFinite("prev_ema_1"@))
    } else if !prev_ema_2.finite() {
        Some(Fault::DataNonFinite("prev_ema_2"@))
    } else if !prev_ema_3.finite() {
        Some(Fault::DataNonFinite("prev_ema_3"@))
    } else {
        None
    }
}

/// What [`tema_next`] comes to with the weight `alpha`, once
/// [`next_refusal`] has let its arguments through: a weight that is not
/// finite is refused, and a triple average that is not finite is reported
/// as an overflow at position 0.
pub open spec fn next_outcome<A: Arith>(
    ar: &A,
    new_value: Float,
    prev_ema_1: Float,
    prev_ema_2: Float,
    prev_ema_3: Float,
    period: usize,
    alpha: Float,
) -> Result<TemaState, Fault> {
    let v = tema_step(ar, new_value, prev_ema_1, prev_ema_2, prev_ema_3, alpha);
    if !alpha.finite() {
        Err(Fault::DataNonFinite("alpha"@))
    } else if !v.3.finite() {
        Err(Fault::Overflow(0, v.3))
    } else {
        Ok(TemaState { tema: v.3, ema_1: v.0, ema_2: v.1, ema_3: v.2, period, alpha })
    }
}

/// `r` comes to `outcome`.
pub open spec fn comes_to(
    r: Result<TemaState, TechalibError>,
    outcome: Result<TemaState, Fault>,
) -> bool {
    match outcome {
        Ok(state) => r == Ok::<TemaState, TechalibError>(state),
        Err(fault) => fails(r, fault),
    }
}

impl TemaState {
    /// `values` and the state are a result for `data` and `period`: the
    /// values are NaN before the lookback and finite from there on, every
    /// sample is finite, and the state holds the last value and the period.
    pub open spec fn closes(&self, values: Seq<Float>, data: Seq<Float>, period: usize) -> bool {
        &&& filled(values, data.len(), tema_skip(period) as nat)
        &&& all_finite(data)
        &&& self.period == period
        &&& self.tema == values[data.len() - 1]
    }

    /// The state is the one after the last sample of `data`.
    pub open spec fn at_end_of<A: Arith>(
        &self,
        ar: &A,
        data: Seq<Float>,
        period: usize,
        alpha: Float,
    ) -> bool {
        let last = data.len() - 1;
        &&& self.period == period
        &&& self.alpha == alpha
        &&& self.ema_1 == ema_at(ar, data, period, alpha, last)
        &&& self.ema_2 == ema2_at(ar, data, period, alpha, last)
        &&& self.ema_3 == ema3_at(ar, data, period, alpha, last)
        &&& self.tema == tema_at(ar, data, period, alpha, last)
    }

    /// Why the state refuses `new_value` before its weight is looked at,
    /// if it does: see [`next_refusal`].
    pub open spec fn refusal(&self, new_value: Float) -> Option<Fault> {
        next_refusal(new_value, self.ema_1, self.ema_2, self.ema_3, self.period)
    }

    /// The three averages and the triple average after `new_value`.
    pub open spec fn next_values<A: Arith>(&self, ar: &A, new_value: Float) -> (
        Float,
        Float,
        Float,
        Float,
    ) {
        tema_step(ar, new_value, self.ema_1, self.ema_2, self.ema_3, self.alpha)
    }
}

/// The lookback of the triple exponential average: `3 * (period - 1)`.
pub fn tema_skip_period_unchecked(period: usize) -> (r: usize)
    requires
        period >= 1,
        3 * (period - 1) <= usize::MAX,
    ensures
        r == 3 * (period - 1),
{
    3 * (period - 1)
}

/// `3 * ema_1 - 3 * ema_2 + ema_3`.
pub fn calculate_tema<A: Arith>(ar: &A, ema_1: Float, ema_2: Float, ema_3: Float) -> (r: Float)
    ensures
        exact(ar) ==> r == tema_of(ar, ema_1, ema_2, ema_3),
{
    let three = Float { bits: THREE_BITS };
    ar.add(ar.sub(ar.mul(three, ema_1), ar.mul(three, ema_2)), ema_3)
}

/// One step of the three averages: see [`tema_step`].
pub fn tema_next_unchecked<A: Arith>(
    ar: &A,
    new_value: Float,
    prev_ema_1: Float,
    prev_ema_2: Float,
    prev_ema_3: Float,
    alpha: Float,
) -> (r: (Float, Float, Float, Float))
    ensures
        exact(ar) ==> r == tema_step(ar, new_value, prev_ema_1, prev_ema_2, prev_ema_3, alpha),
{
    let ema_1 = ema_next_unchecked(ar, new_value, prev_ema_1, alpha);
    let ema_2 = ema_next_unchecked(ar, ema_1, prev_ema_2, alpha);
    let ema_3 = ema_next_unchecked(ar, ema_2, prev_ema_3, alpha);
    (ema_1, ema_2, ema_3, calculate_tema(ar, ema_1, ema_2, ema_3))
}

/// The state after `new_value`, from the values of the state before. Where
/// no weight is given, it is that of `period` with the smoothing of `2.0`.
///
/// The checks come in the order of [`next_refusal`], then the weight must
/// be finite; then the averages are computed, and a triple average that is
/// not finite is reported as an overflow at position 0.
pub fn tema_next<A: Arith>(
    ar: &A,
    new_value: Float,
    prev_ema_1: Float,
    prev_ema_2: Float,
    prev_ema_3: Float,
    period: usize,
    alpha: Option<Float>,
) -> (r: Result<TemaState, TechalibError>)
    ensures
        next_refusal(new_value, prev_ema_1, prev_ema_2, prev_ema_3, period) matches Some(fault)
            ==> fails(r, fault),
        next_refusal(new_value, prev_ema_1, prev_ema_2, prev_ema_3, period) is None ==> match r {
            Ok(state) => {
                &&& state.period == period
                &&& state.alpha.finite()
                &&& state.tema.finite()
                &&& alpha matches Some(a) ==> state.alpha == a
            },
            Err(e) => {
                ||| e@ == Fault::DataNonFinite("alpha"@) && (alpha matches Some(a) ==> !a.finite())
                ||| step_overflow(e@) && (alpha matches Some(a) ==> a.finite())
            },
        },
        exact(ar) && next_refusal(new_value, prev_ema_1, prev_ema_2, prev_ema_3, period) is None
            ==> comes_to(
            r,
            next_outcome(
                ar,
                new_value,
                prev_ema_1,
                prev_ema_2,
                prev_ema_3,
                period,
                alpha_value(ar, alpha, period),
            ),
        ),
{
    if period <= 1 {
        return Err(TechalibError::bad_param("Period must be greater than 1"));
    }
    if !new_value.is_finite() {
        return Err(TechalibError::non_finite("new_value"));
    }
    if !prev_ema_1.is_finite() {
        return Err(TechalibError::non_finite("prev_ema_1"));
    }
    if !prev_ema_2.is_finite() {
        return Err(TechalibError::non_finite("prev_ema_2"));
    }
    if !prev_ema_3.is_finite() {
        return Err(TechalibError::non_finite("prev_ema_3"));
    }
    let alpha = match alpha {
        Some(a) => a,
        None => alpha_unchecked(ar, period, Float { bits: TWO_BITS }),
    };
    if !alpha.is_finite() {
        return Err(TechalibError::non_finite("alpha"));
    }
    let (ema_1, ema_2, ema_3, tema) = tema_next_unchecked(
        ar,
        new_value,
        prev_ema_1,
        prev_ema_2,
        prev_ema_3,
        alpha,
    );
    if !tema.is_finite() {
        return Err(TechalibError::Overflow(0, tema));
    }
    Ok(TemaState { tema, ema_1, ema_2, ema_3, period, alpha })
}

impl TemaState {
    /// The state after `new_value`: [`tema_next`] on the values and the
    /// weight of this one.
    pub fn next<A: Arith>(&self, ar: &A, new_value: Float) -> (r: Result<TemaState, TechalibError>)
        ensures
            self.refusal(new_value) matches Some(fault) ==> fails(r, fault),
            self.refusal(new_value) is None && !self.alpha.finite() ==> fails(
                r,
                Fault::DataNonFinite("alpha"@),
            ),
            self.refusal(new_value) is None && self.alpha.finite() ==> match r {
                Ok(state) => {
                    &&& state.period == self.period
                    &&& state.alpha == self.alpha
                    &&& state.tema.finite()
                },
                Err(e) => step_overflow(e@),
            },
            exact(ar) && self.refusal(new_value) is None ==> comes_to(
                r,
                next_outcome(
                    ar,
                    new_value,
                    self.ema_1,
                    self.ema_2,
                    self.ema_3,
                    self.period,
                    self.alpha,
                ),
            ),
    {
        tema_next(
            ar,
            new_value,
            self.ema_1,
            self.ema_2,
            self.ema_3,
            self.period,
            Some(self.alpha),
        )
    }
}

/// The three averages at the lookback `skip_period`, and their triple
/// average: the first two are taken to the lookback of the double average
/// and stepped on from there, and the third is the mean of the values of
/// the second on the way. A NaN is then appended to `output` for each
/// position before the lookback. On a sample that is not finite, the
/// position of the first such sample is returned and `output` is left as it
/// was.
pub fn init_tema_unchecked<A: Arith>(
    ar: &A,
    data: &[Float],
    period: usize,
    inv_period: Float,
    skip_period: usize,
    alpha: Float,
    output: &mut Vec<Float>,
) -> (r: Result<(Float, Float, Float, Float), usize>)
    requires
        period >= 2,
        skip_period == tema_skip(period),
        skip_period < data@.len(),
    ensures
        match r {
            Ok(v) => {
                &&& finite_upto(data@, skip_period + 1)
                &&& final(output)@ == old(output)@ + nans(skip_period as nat)
                &&& exact(ar) && inv_period == inv_period_of(ar, period) ==> {
                    &&& v.0 == ema_at(ar, data@, period, alpha, skip_period as int)
                    &&& v.1 == ema2_at(ar, data@, period, alpha, skip_period as int)
                    &&& v.2 == ema3_at(ar, data@, period, alpha, skip_period as int)
                    &&& v.3 == tema_of(ar, v.0, v.1, v.2)
                }
            },
            Err(j) => {
                &&& j <= skip_period && !data@[j as int].finite() && finite_upto(data@, j as int)
                &&& final(output)@ == old(output)@
            },
        },
{
    let dema_skip_period = dema_skip_period_unchecked(period);
    let (_, first_ema_1, first_ema_2) = match dema_seed(
        ar,
        data,
        period,
        inv_period,
        dema_skip_period,
        alpha,
    ) {
        Ok(v) => v,
        Err(j) => {
            return Err(j);
        },
    };
    let mut ema_1 = first_ema_1;
    let mut ema_2 = first_ema_2;
    let ghost exactly = exact(ar) && inv_period == inv_period_of(ar, period);
    let mut sum_ema_3 = ema_2;
    let mut idx: usize = dema_skip_period + 1;
    while idx <= skip_period
        invariant
            period >= 2,
            dema_skip_period == dema_skip(period),
            skip_period == tema_skip(period),
            dema_skip_period < idx <= skip_period + 1,
            skip_period < data@.len(),
            exactly == (exact(ar) && inv_period == inv_period_of(ar, period)),
            finite_upto(data@, idx as int),
            output@ == old(output)@,
            exactly ==> ema_1 == ema_at(ar, data@, period, alpha, idx - 1),
            exactly ==> ema_2 == ema2_at(ar, data@, period, alpha, idx - 1),
            exactly ==> sum_ema_3 == ema2_sum(ar, data@, period, alpha, idx - 1),
        decreases skip_period + 1 - idx,
    {
        if !data[idx].is_finite() {
            return Err(idx);
        }
        let (_, next_ema_1, next_ema_2) = dema_next_unchecked(ar, data[idx], ema_1, ema_2, alpha);
        ema_1 = next_ema_1;
        ema_2 = next_ema_2;
        sum_ema_3 = ar.add(sum_ema_3, ema_2);
        idx += 1;
    }
    let ema_3 = ar.mul(sum_ema_3, inv_period);
    push_nans(output, skip_period);
    Ok((ema_1, ema_2, ema_3, calculate_tema(ar, ema_1, ema_2, ema_3)))
}

/// The triple exponential moving average of `data` over `period` samples.
///
/// A period below 2 is refused, then a series of fewer than
/// `3 * (period - 1) + 1` samples. The first sample that is not finite, or
/// whose average is not finite, ends the calculation with its report.
pub fn tema<A: Arith>(ar: &A, data: &[Float], period: usize, alpha: Option<Float>) -> (r: Result<
    TemaResult,
    TechalibError,
>)
    ensures
        period < 2 ==> fails(r, Fault::BadParam(ema_period_text())),
        period >= 2 && data@.len() <= tema_skip(period) ==> fails(r, Fault::InsufficientData),
        period >= 2 && data@.len() > tema_skip(period) ==> match r {
            Ok(res) => res.state.closes(res.values@, data@, period) && (alpha matches Some(a)
                ==> res.state.alpha == a),
            Err(e) => sound_failure(e@, data@, tema_skip(period)),
        },
        exact(ar) && period >= 2 && data@.len() > tema_skip(period) ==> {
            &&& decided(
                tema_got(r),
                data@,
                tema_values(ar, data@, period, alpha_value(ar, alpha, period)),
                tema_skip(period),
                tema_values(ar, data@, period, alpha_value(ar, alpha, period)),
            )
            &&& r matches Ok(res) ==> res.state.at_end_of(
                ar,
                data@,
                period,
                alpha_value(ar, alpha, period),
            )
        },
{
    let len = data.len();
    if period < 2 {
        return Err(TechalibError::bad_param("EMA period must be greater than 1"));
    }
    if len == 0 || period - 1 > (len - 1) / 3 {
        return Err(TechalibError::InsufficientData);
    }
    let skip_period = tema_skip_period_unchecked(period);
    let alpha_used = get_alpha_value(ar, alpha, period)?;
    let ghost weight = alpha_value(ar, alpha, period);
    let ghost ideal = tema_values(ar, data@, period, weight);
    let ghost lookback = tema_skip(period);
    let inv = inverse_of_period(ar, period);
    let mut values: Vec<Float> = Vec::new();
    let (first_ema_1, first_ema_2, first_ema_3, first) = match init_tema_unchecked(
        ar,
        data,
        period,
        inv,
        skip_period,
        alpha_used,
        &mut values,
    ) {
        Ok(v) => v,
        Err(j) => {
            proof {
                if exact(ar) {
                    lemma_decided_early(
                        Err::<Seq<Float>, Fault>(Fault::DataNonFinite("data"@)),
                        data@,
                        ideal,
                        lookback,
                        ideal,
                        j as int,
                    );
                }
            }
            return Err(TechalibError::non_finite("data"));
        },
    };
    proof {
        if exact(ar) {
            assert(first == ideal[lookback]);
            assert forall|k: int| 0 <= k < lookback implies !#[trigger] bad(
                data@,
                ideal,
                lookback,
                k,
            ) by {}
        }
    }
    if !first.is_finite() {
        proof {
            if exact(ar) {
                assert(bad(data@, ideal, lookback, lookback));
                lemma_decided_at(
                    Err::<Seq<Float>, Fault>(Fault::Overflow(skip_period, first)),
                    data@,
                    ideal,
                    lookback,
                    ideal,
                    lookback,
                );
            }
        }
        return Err(TechalibError::Overflow(skip_period, first));
    }
    values.push(first);
    let mut prev = first;
    let mut ema_1 = first_ema_1;
    let mut ema_2 = first_ema_2;
    let mut ema_3 = first_ema_3;
    let mut idx: usize = skip_period + 1;
    proof {
        if exact(ar) {
            assert(!bad(data@, ideal, lookback, lookback));
            assert(values@ =~= ideal.take(idx as int));
        }
    }
    while idx < len
        invariant
            period >= 2,
            skip_period == tema_skip(period),
            skip_period < idx <= len,
            len == data@.len(),
            lookback == tema_skip(period),
            weight == alpha_value(ar, alpha, period),
            ideal == tema_values(ar, data@, period, weight),
            exact(ar) ==> alpha_used == weight,
            finite_upto(data@, idx as int),
            filled(values@, idx as nat, lookback as nat),
            prev == values@[idx - 1],
            exact(ar) ==> ema_1 == ema_at(ar, data@, period, weight, idx - 1),
            exact(ar) ==> ema_2 == ema2_at(ar, data@, period, weight, idx - 1),
            exact(ar) ==> ema_3 == ema3_at(ar, data@, period, weight, idx - 1),
            exact(ar) ==> clean(data@, ideal, lookback, idx as int),
            exact(ar) ==> values@ == ideal.take(idx as int),
        decreases len - idx,
    {
        if !data[idx].is_finite() {
            proof {
                if exact(ar) {
                    assert(bad(data@, ideal, lookback, idx as int));
                    lemma_decided_at(
                        Err::<Seq<Float>, Fault>(Fault::DataNonFinite("data"@)),
                        data@,
                        ideal,
                        lookback,
                        ideal,
                        idx as int,
                    );
                }
            }
            return Err(TechalibError::non_finite("data"));
        }
        let (next_ema_1, next_ema_2, next_ema_3, value) = tema_next_unchecked(
            ar,
            data[idx],
            ema_1,
            ema_2,
            ema_3,
            alpha_used,
        );
        proof {
            if exact(ar) {
                assert(next_ema_1 == ema_at(ar, data@, period, weight, idx as int));
                assert(next_ema_2 == ema2_at(ar, data@, period, weight, idx as int));
                assert(next_ema_3 == ema3_at(ar, data@, period, weight, idx as int));
                assert(value == ideal[idx as int]);
            }
        }
        if !value.is_finite() {
            proof {
                if exact(ar) {
                    assert(bad(data@, ideal, lookback, idx as int));
                    lemma_decided_at(
                        Err::<Seq<Float>, Fault>(Fault::Overflow(idx, value)),
                        data@,
                        ideal,
                        lookback,
                        ideal,
                        idx as int,
                    );
                }
            }
            return Err(TechalibError::Overflow(idx, value));
        }
        values.push(value);
        prev = value;
        ema_1 = next_ema_1;
        ema_2 = next_ema_2;
        ema_3 = next_ema_3;
        proof {
            if exact(ar) {
                assert(!bad(data@, ideal, lookback, idx as int));
                assert(values@ =~= ideal.take(idx + 1));
            }
        }
        idx += 1;
    }
    let state = TemaState { tema: prev, ema_1, ema_2, ema_3, period, alpha: alpha_used };
    proof {
        if exact(ar) {
            assert(ideal.take(len as int) == ideal);
            lemma_decided_ok(data@, ideal, lookback, ideal);
        }
    }
    Ok(TemaResult { values, state })
}

/// The triple exponential moving average of `data`, written into `output`.
/// An output whose length is not that of the input is refused first. Where
/// the calculation fails, `output` is left as it was.
pub fn tema_into<A: Arith>(
    ar: &A,
    data: &[Float],
    period: usize,
    alpha: Option<Float>,
    output: &mut [Float],
) -> (r: Result<TemaState, TechalibError>)
    ensures
        final(output)@.len() == old(output)@.len(),
        r is Err ==> final(output)@ == old(output)@,
        old(output)@.len() != data@.len() ==> fails(r, Fault::BadParam(length_text())),
        old(output)@.len() == data@.len() ==> {
            &&& period < 2 ==> fails(r, Fault::BadParam(ema_period_text()))
            &&& period >= 2 && data@.len() <= tema_skip(period) ==> fails(
                r,
                Fault::InsufficientData,
            )
            &&& period >= 2 && data@.len() > tema_skip(period) ==> match r {
                Ok(state) => state.closes(final(output)@, data@, period) && (alpha matches Some(a)
                    ==> state.alpha == a),
                Err(e) => sound_failure(e@, data@, tema_skip(period)),
            }
            &&& exact(ar) && period >= 2 && data@.len() > tema_skip(period) ==> {
                &&& decided(
                    match r {
                        Ok(state) => Ok(final(output)@),
                        Err(e) => Err(e@),
                    },
                    data@,
                    tema_values(ar, data@, period, alpha_value(ar, alpha, period)),
                    tema_skip(period),
                    tema_values(ar, data@, period, alpha_value(ar, alpha, period)),
                )
                &&& r matches Ok(state) ==> state.at_end_of(
                    ar,
                    data@,
                    period,
                    alpha_value(ar, alpha, period),
                )
            }
        },
{
    TechalibError::check_same_length(output, data)?;
    let res = tema(ar, data, period, alpha)?;
    copy_into(&res.values, output);
    Ok(res.state)
}

/// The sum of the second averages up to a position depends on the samples
/// up to that position only, for a prefix that reaches the lookback of the
/// double average.
pub proof fn lemma_ema2_sum_prefix<A: Arith>(
    ar: &A,
    data: Seq<Float>,
    period: usize,
    alpha: Float,
    k: int,
    i: int,
)
    requires
        period >= 2,
        dema_skip(period) < k <= data.len(),
        i < k,
    ensures
        ema2_sum(ar, data.take(k), period, alpha, i) == ema2_sum(ar, data, period, alpha, i),
    decreases i,
{
    if i <= dema_skip(period) || i <= 0 {
        lemma_ema2_at_prefix(ar, data, period, alpha, k, dema_skip(period));
    } else {
        lemma_ema2_sum_prefix(ar, data, period, alpha, k, i - 1);
        lemma_ema2_at_prefix(ar, data, period, alpha, k, i);
    }
}

/// The third average at a position depends on the samples up to that
/// position only, for a prefix that reaches the lookback.
pub proof fn lemma_ema3_at_prefix<A: Arith>(
    ar: &A,
    data: Seq<Float>,
    period: usize,
    alpha: Float,
    k: int,
    i: int,
)
    requires
        period >= 2,
        tema_skip(period) < k <= data.len(),
        i < k,
    ensures
        ema3_at(ar, data.take(k), period, alpha, i) == ema3_at(ar, data, period, alpha, i),
    decreases i,
{
    if i <= tema_skip(period) || i <= 0 {
        lemma_ema2_sum_prefix(ar, data, period, alpha, k, tema_skip(period));
    } else {
        lemma_ema3_at_prefix(ar, data, period, alpha, k, i - 1);
        lemma_ema2_at_prefix(ar, data, period, alpha, k, i);
    }
}

/// No lookahead: the averages of the first `k` samples are the first `k`
/// averages of the whole series.
pub proof fn lemma_tema_no_lookahead<A: Arith>(
    ar: &A,
    data: Seq<Float>,
    period: usize,
    alpha: Float,
    k: int,
)
    requires
        period >= 2,
        0 <= k <= data.len(),
    ensures
        tema_values(ar, data.take(k), period, alpha) == tema_values(ar, data, period, alpha).take(
            k,
        ),
{
    assert forall|i: int| 0 <= i < k implies tema_at(ar, data.take(k), period, alpha, i)
        == tema_at(ar, data, period, alpha, i) by {
        if i >= tema_skip(period) {
            lemma_ema_at_prefix(ar, data, period, alpha, k, i);
            lemma_ema2_at_prefix(ar, data, period, alpha, k, i);
            lemma_ema3_at_prefix(ar, data, period, alpha, k, i);
        }
    }
    assert(tema_values(ar, data.take(k), period, alpha) =~= tema_values(
        ar,
        data,
        period,
        alpha,
    ).take(k));
}

/// Streaming consistency: from the state after the first `k` samples, the
/// average after sample `k` is the average that is due at position `k` of
/// the series with one sample more.
pub proof fn lemma_tema_streaming<A: Arith>(
    ar: &A,
    data: Seq<Float>,
    period: usize,
    alpha: Float,
    k: int,
    state: TemaState,
)
    requires
        period >= 2,
        tema_skip(period) < k < data.len(),
        state.at_end_of(ar, data.take(k), period, alpha),
    ensures
        state.next_values(ar, data[k]).3 == tema_values(ar, data.take(k + 1), period, alpha)[k],
        state.next_values(ar, data[k]).0 == ema_at(ar, data.take(k + 1), period, alpha, k),
        state.next_values(ar, data[k]).1 == ema2_at(ar, data.take(k + 1), period, alpha, k),
        state.next_values(ar, data[k]).2 == ema3_at(ar, data.take(k + 1), period, alpha, k),
{
    let longer = data.take(k + 1);
    assert(longer.take(k) =~= data.take(k));
    lemma_ema_at_prefix(ar, longer, period, alpha, k, k - 1);
    lemma_ema2_at_prefix(ar, longer, period, alpha, k, k - 1);
    lemma_ema3_at_prefix(ar, longer, period, alpha, k, k - 1);
}

impl State<Float> for TemaState {
    /// Moves the state on by `sample`: the state becomes what
    /// [`TemaState::next`] returns.
    fn update<A: Arith>(&mut self, ar: &A, sample: Float) -> (r: Result<(), TechalibError>)
        ensures
            old(self).refusal(sample) matches Some(fault) ==> fails(r, fault),
            old(self).refusal(sample) is None && !old(self).alpha.finite() ==> fails(
                r,
                Fault::DataNonFinite("alpha"@),
            ),
            old(self).refusal(sample) is None && old(self).alpha.finite() ==> match r {
                Ok(_) => {
                    &&& final(self).period == old(self).period
                    &&& final(self).alpha == old(self).alpha
                    &&& final(self).tema.finite()
                },
                Err(e) => step_overflow(e@),
            },
            exact(ar) && old(self).refusal(sample) is None ==> match next_outcome(
                ar,
                sample,
                old(self).ema_1,
                old(self).ema_2,
                old(self).ema_3,
                old(self).period,
                old(self).alpha,
            ) {
                Ok(state) => r is Ok && *final(self) == state,
                Err(fault) => fails(r, fault),
            },
    {
        let next = self.next(ar, sample)?;
        *self = next;
        Ok(())
    }
}

impl From<TemaResult> for Vec<Float> {
    /// The values of the result, without its state.
    fn from(result: TemaResult) -> (values: Vec<Float>) {
        result.values
    }
}

impl vstd::std_specs::convert::FromSpecImpl<TemaResult> for Vec<Float> {
    open spec fn obeys_from_spec() -> bool {
        true
    }

    open spec fn from_spec(result: TemaResult) -> Vec<Float> {
        result.values
    }
}

/// No lookahead, of the results: where the averages of a series come out,
/// those of its first `k` samples come out too, and they are the first `k`
/// of the whole series. `full` and `part` are what [`tema`] returns for an
/// exact arithmetic.
pub proof fn lemma_tema_prefix_result<A: Arith>(
    ar: &A,
    data: Seq<Float>,
    period: usize,
    alpha: Float,
    k: int,
    full: Result<Seq<Float>, Fault>,
    part: Result<Seq<Float>, Fault>,
)
    requires
        period >= 2,
        0 <= k <= data.len(),
        decided(
            full,
            data,
            tema_values(ar, data, period, alpha),
            tema_skip(period),
            tema_values(ar, data, period, alpha),
        ),
        decided(
            part,
            data.take(k),
            tema_values(ar, data.take(k), period, alpha),
            tema_skip(period),
            tema_values(ar, data.take(k), period, alpha),
        ),
        full matches Ok(values),
    ensures
        full matches Ok(values) && part == Ok::<Seq<Float>, Fault>(values.take(k)),
{
    let whole = tema_values(ar, data, period, alpha);
    let first = tema_values(ar, data.take(k), period, alpha);
    lemma_tema_no_lookahead(ar, data, period, alpha, k);
    assert forall|i: int| 0 <= i < k implies #[trigger] first[i] == whole[i] by {
        assert(whole.take(k)[i] == whole[i]);
    }
    lemma_prefix_runs_through(full, part, data, whole, first, tema_skip(period), k, whole, first);
}

/// Streaming consistency, of the results: the state that [`tema`] returns
/// for the first `k` samples takes sample `k`, where the averages of the
/// first `k + 1` samples come out and the three stored averages and the
/// weight are finite, and its step gives the average at position `k`.
/// `state` and `longer` are what [`tema`] returns for an exact arithmetic;
/// it does not test the three averages and the weight, which the step does.
pub proof fn lemma_tema_update_result<A: Arith>(
    ar: &A,
    data: Seq<Float>,
    period: usize,
    alpha: Float,
    k: int,
    state: TemaState,
    longer: Result<Seq<Float>, Fault>,
)
    requires
        period >= 2,
        tema_skip(period) < k < data.len(),
        alpha.finite(),
        state.ema_1.finite(),
        state.ema_2.finite(),
        state.ema_3.finite(),
        state.at_end_of(ar, data.take(k), period, alpha),
        decided(
            longer,
            data.take(k + 1),
            tema_values(ar, data.take(k + 1), period, alpha),
            tema_skip(period),
            tema_values(ar, data.take(k + 1), period, alpha),
        ),
        longer matches Ok(values),
    ensures
        state.refusal(data[k]) is None,
        state.next_values(ar, data[k]).3.finite(),
        longer matches Ok(values) && state.next_values(ar, data[k]).3 == values[k],
        next_outcome(
            ar,
            data[k],
            state.ema_1,
            state.ema_2,
            state.ema_3,
            state.period,
            state.alpha,
        ) is Ok,
{
    let long = data.take(k + 1);
    let ideal = tema_values(ar, long, period, alpha);
    assert(!bad(long, ideal, tema_skip(period), k));
    lemma_tema_streaming(ar, data, period, alpha, k, state);
}

} // verus!
