//! Exponential moving average: each value is the new sample weighted by
//! `alpha` plus the value before weighted by `1 - alpha`.
use crate::arith::{counted, exact, minus, over, plus, times, Arith};
use crate::errors::{fails, length_text, step_overflow, Fault, TechalibError};
use crate::float::{nan, one, two, zero, Float, ONE_BITS, TWO_BITS};
use crate::helper::bounds_text;
use crate::indicators::sma::{init_sma_unchecked, inv_period_of, inverse_of_period, seed_mean};
use crate::series::{
    all_finite, bad, clean, copy_into, decided, filled, finite_upto, lemma_decided_at,
    lemma_decided_early, lemma_decided_ok, lemma_prefix_runs_through, sound_failure,
};
use crate::traits::State;
use vstd::prelude::*;

verus! {

/// The smoothing that stands in where none is given.
pub const DEFAULT_SMOOTHING_BITS: u64 = TWO_BITS;

/// The averages of a series and the state that continues them.
#[derive(Debug)]
pub struct EmaResult {
    /// One value for each sample: NaN before position `period - 1`.
    pub values: Vec<Float>,
    /// The state after the last sample.
    pub state: EmaState,
}

/// What the next average is computed from.
#[derive(Debug, Clone, Copy)]
pub struct EmaState {
    /// The last average.
    pub ema: Float,
    /// The period that the average was seeded with.
    pub period: usize,
    /// The weight of a new sample.
    pub alpha: Float,
}

/// The text of the refusal of a period below 2.
pub open spec fn ema_period_text() -> Seq<char> {
    "EMA period must be greater than 1"@
}

/// The text of the refusal of a period of 0.
pub open spec fn zero_period_text() -> Seq<char> {
    "Period must be greater than 0"@
}

/// The text of the refusal of a smoothing that is not above 0.
pub open spec fn smoothing_text() -> Seq<char> {
    "Smoothing must be greater than 0"@
}

/// One exponential step: `new * alpha + prev * (1 - alpha)`.
pub open spec fn ema_step<A: Arith>(
    ar: &A,
    new_value: Float,
    prev_ema: Float,
    alpha: Float,
) -> Float {
    plus(ar, times(ar, new_value, alpha), times(ar, prev_ema, minus(ar, one(), alpha)))
}

/// The weight of a new sample for a period: `smoothing / (period + 1)`.
pub open spec fn alpha_of<A: Arith>(ar: &A, period: usize, smoothing: Float) -> Float {
    over(ar, smoothing, plus(ar, counted(ar, period), one()))
}

/// The weight that an average is computed with: the one that is given, else
/// the one of the period with a smoothing of `2.0`.
pub open spec fn alpha_value<A: Arith>(ar: &A, alpha: Option<Float>, period: usize) -> Float {
    match alpha {
        Some(a) => a,
        None => alpha_of(ar, period, two()),
    }
}

/// The average that is due at position `i`: NaN before `period - 1`, the
/// mean of the first `period` samples there, and one exponential step from
/// the value before at each later position.
pub open spec fn ema_at<A: Arith>(
    ar: &A,
    data: Seq<Float>,
    period: usize,
    alpha: Float,
    i: int,
) -> Float
    decreases i,
{
    if i < period - 1 || i < 0 {
        nan()
    } else if i == period - 1 || i == 0 {
        seed_mean(ar, data, period, inv_period_of(ar, period))
    } else {
        ema_step(ar, data[i], ema_at(ar, data, period, alpha, i - 1), alpha)
    }
}

/// The averages that are due for `data`, one for each sample.
pub open spec fn ema_values<A: Arith>(
    ar: &A,
    data: Seq<Float>,
    period: usize,
    alpha: Float,
) -> Seq<Float> {
    Seq::new(data.len(), |i: int| ema_at(ar, data, period, alpha, i))
}

/// What `r` holds, for [`decided`].
pub open spec fn ema_got(r: Result<EmaResult, TechalibError>) -> Result<Seq<Float>, Fault> {
    match r {
        Ok(res) => Ok(res.values@),
        Err(e) => Err(e@),
    }
}

impl EmaState {
    /// `values` and the state are a result for `data` and `period`: the
    /// values are NaN before the lookback and finite from there on, every
    /// sample is finite, and the state holds the last value and the period.
    pub open spec fn closes(&self, values: Seq<Float>, data: Seq<Float>, period: usize) -> bool {
        &&& filled(values, data.len(), (period - 1) as nat)
        &&& all_finite(data)
        &&& self.period == period
        &&& self.ema == values[data.len() - 1]
    }

    /// Why the state refuses `sample` before anything is computed, if it
    /// does: the first of these that holds.
    pub open spec fn refusal(&self, sample: Float) -> Option<Fault> {
        if self.period <= 1 {
            Some(Fault::BadParam("Period must be greater than 1"@))
        } else if !sample.finite() {
            Some(Fault::DataNonFinite("sample"@))
        } else if !self.ema.finite() {
            Some(Fault::DataNonFinite("self.ema"@))
        } else if !self.alpha.finite() {
            Some(Fault::DataNonFinite("alpha"@))
        } else {
            None
        }
    }

    /// The average after `sample`: one exponential step.
    pub open spec fn next_ema<A: Arith>(&self, ar: &A, sample: Float) -> Float {
        ema_step(ar, sample, self.ema, self.alpha)
    }

    /// The state is the one after the last sample of `data`.
    pub open spec fn at_end_of<A: Arith>(
        &self,
        ar: &A,
        data: Seq<Float>,
        period: usize,
        alpha: Float,
    ) -> bool {
        &&& self.period == period
        &&& self.alpha == alpha
        &&& self.ema == ema_at(ar, data, period, alpha, data.len() - 1)
    }
}

/// `new_value * alpha + prev_ema * (1 - alpha)`.
pub fn ema_next_unchecked<A: Arith>(ar: &A, new_value: Float, prev_ema: Float, alpha: Float) -> (r:
    Float)
    ensures
        exact(ar) ==> r == ema_step(ar, new_value, prev_ema, alpha),
{
    let fresh = ar.mul(new_value, alpha);
    let rest = ar.sub(Float { bits: ONE_BITS }, alpha);
    let kept = ar.mul(prev_ema, rest);
    ar.add(fresh, kept)
}

/// `smoothing / (period + 1)`.
pub fn alpha_unchecked<A: Arith>(ar: &A, period: usize, smoothing: Float) -> (r: Float)
    ensures
        exact(ar) ==> r == alpha_of(ar, period, smoothing),
{
    let n = ar.count(period);
    let above = ar.add(n, Float { bits: ONE_BITS });
    ar.div(smoothing, above)
}

/// The weight of a new sample for `period`: `smoothing / (period + 1)`,
/// with a smoothing of `2.0` where none is given. A period of 0 is refused,
/// then a smoothing that is zero or below.
pub fn period_to_alpha<A: Arith>(ar: &A, period: usize, smoothing: Option<Float>) -> (r: Result<
    Float,
    TechalibError,
>)
    ensures
        period == 0 ==> fails(r, Fault::BadParam(zero_period_text())),
        period > 0 && (smoothing matches Some(s) && s.le(zero())) ==> fails(
            r,
            Fault::BadParam(smoothing_text()),
        ),
        period > 0 && !(smoothing matches Some(s) && s.le(zero())) ==> r is Ok,
        exact(ar) ==> (r matches Ok(alpha) ==> alpha == alpha_of(
            ar,
            period,
            match smoothing {
                Some(s) => s,
                None => two(),
            },
        )),
{
    if period == 0 {
        return Err(TechalibError::bad_param("Period must be greater than 0"));
    }
    let smoothing = match smoothing {
        Some(s) => {
            if s.at_most(Float { bits: 0 }) {
                return Err(TechalibError::bad_param("Smoothing must be greater than 0"));
            }
            s
        },
        None => Float { bits: DEFAULT_SMOOTHING_BITS },
    };
    Ok(alpha_unchecked(ar, period, smoothing))
}

/// The weight that an average is computed with: `alpha` where it is given,
/// else the weight of `period` with the smoothing of `2.0`.
pub fn get_alpha_value<A: Arith>(ar: &A, alpha: Option<Float>, period: usize) -> (r: Result<
    Float,
    TechalibError,
>)
    ensures
        alpha is None && period == 0 ==> fails(r, Fault::BadParam(zero_period_text())),
        alpha is Some || period > 0 ==> r is Ok,
        alpha matches Some(a) ==> (r matches Ok(v) && v == a),
        exact(ar) ==> (r matches Ok(v) ==> v == alpha_value(ar, alpha, period)),
{
    match alpha {
        Some(a) => Ok(a),
        None => period_to_alpha(ar, period, None),
    }
}

/// The exponential moving average of `data` over `period` samples.
///
/// A period below 2 is refused (a period of 0 with the text of
/// [`lookback`](crate::helper::lookback), which has no lookback for it), then
/// a series shorter than the period. The samples are then taken in order:
/// the first that is not finite, or whose average is not finite, ends the
/// calculation with its report.
pub fn ema<A: Arith>(ar: &A, data: &[Float], period: usize, alpha: Option<Float>) -> (r: Result<
    EmaResult,
    TechalibError,
>)
    ensures
        period == 0 ==> fails(r, Fault::BadParam(bounds_text())),
        period == 1 ==> fails(r, Fault::BadParam(ema_period_text())),
        period >= 2 && data@.len() < period ==> fails(r, Fault::InsufficientData),
        period >= 2 && data@.len() >= period ==> match r {
            Ok(res) => res.state.closes(res.values@, data@, period) && (alpha matches Some(a)
                ==> res.state.alpha == a),
            Err(e) => sound_failure(e@, data@, period - 1),
        },
        exact(ar) && period >= 2 && data@.len() >= period ==> {
            &&& decided(
                ema_got(r),
                data@,
                ema_values(ar, data@, period, alpha_value(ar, alpha, period)),
                period - 1,
                ema_values(ar, data@, period, alpha_value(ar, alpha, period)),
            )
            &&& r matches Ok(res) ==> res.state.at_end_of(
                ar,
                data@,
                period,
                alpha_value(ar, alpha, period),
            )
        },
{
    let len = data.len();
    if period == 0 {
        return Err(TechalibError::bad_param("period must be between 2 and 100000"));
    }
    if period == 1 {
        return Err(TechalibError::bad_param("EMA period must be greater than 1"));
    }
    if len < period {
        return Err(TechalibError::InsufficientData);
    }
    let alpha_used = get_alpha_value(ar, alpha, period)?;
    let ghost ideal = ema_values(ar, data@, period, alpha_value(ar, alpha, period));
    let ghost lookback = period - 1;
    let inv = inverse_of_period(ar, period);
    let mut values: Vec<Float> = Vec::new();
    let seed = match init_sma_unchecked(ar, data, period, inv, &mut values) {
        Ok(seed) => seed,
        Err(j) => {
            proof {
                if exact(ar) {
                    lemma_decided_early(
                        Err::<Seq<Float>, Fault>(Fault::DataNonFinite("data"@)),
                        data@,
                        ideal,
                        lookback,
                        ideal,
                        j as int,
                    );
                }
            }
            return Err(TechalibError::non_finite("data"));
        },
    };
    if !seed.is_finite() {
        proof {
            if exact(ar) {
                assert(bad(data@, ideal, lookback, lookback));
                lemma_decided_at(
                    Err::<Seq<Float>, Fault>(Fault::Overflow((period - 1) as usize, seed)),
                    data@,
                    ideal,
                    lookback,
                    ideal,
                    lookback,
                );
            }
        }
        return Err(TechalibError::Overflow(period - 1, seed));
    }
    values.push(seed);
    let mut prev = seed;
    let mut idx: usize = period;
    while idx < len
        invariant
            2 <= period <= idx <= len,
            len == data@.len(),
            lookback == period - 1,
            ideal == ema_values(ar, data@, period, alpha_value(ar, alpha, period)),
            exact(ar) ==> alpha_used == alpha_value(ar, alpha, period),
            finite_upto(data@, idx as int),
            filled(values@, idx as nat, lookback as nat),
            prev == values@[idx - 1],
            exact(ar) ==> clean(data@, ideal, lookback, idx as int),
            exact(ar) ==> values@ == ideal.take(idx as int),
        decreases len - idx,
    {
        if !data[idx].is_finite() {
            proof {
                if exact(ar) {
                    assert(bad(data@, ideal, lookback, idx as int));
                    lemma_decided_at(
                        Err::<Seq<Float>, Fault>(Fault::DataNonFinite("data"@)),
                        data@,
                        ideal,
                        lookback,
                        ideal,
                        idx as int,
                    );
                }
            }
            return Err(TechalibError::non_finite("data"));
        }
        let value = ema_next_unchecked(ar, data[idx], prev, alpha_used);
        proof {
            if exact(ar) {
                assert(values@[idx - 1] == ideal[idx - 1]);
                assert(value == ideal[idx as int]);
            }
        }
        if !value.is_finite() {
            proof {
                if exact(ar) {
                    assert(bad(data@, ideal, lookback, idx as int));
                    lemma_decided_at(
                        Err::<Seq<Float>, Fault>(Fault::Overflow(idx, value)),
                        data@,
                        ideal,
                        lookback,
                        ideal,
                        idx as int,
                    );
                }
            }
            return Err(TechalibError::Overflow(idx, value));
        }
        values.push(value);
        prev = value;
        proof {
            if exact(ar) {
                assert(!bad(data@, ideal, lookback, idx as int));
                assert(values@ =~= ideal.take(idx + 1));
            }
        }
        idx += 1;
    }
    let state = EmaState { ema: prev, period, alpha: alpha_used };
    proof {
        if exact(ar) {
            assert(ideal.take(len as int) == ideal);
            lemma_decided_ok(data@, ideal, lookback, ideal);
        }
    }
    Ok(EmaResult { values, state })
}

/// The exponential moving average of `data`, written into `output`. An
/// output whose length is not that of the input is refused first. Where the
/// calculation fails, `output` is left as it was.
pub fn ema_into<A: Arith>(
    ar: &A,
    data: &[Float],
    period: usize,
    alpha: Option<Float>,
    output: &mut [Float],
) -> (r: Result<EmaState, TechalibError>)
    ensures
        final(output)@.len() == old(output)@.len(),
        r is Err ==> final(output)@ == old(output)@,
        old(output)@.len() != data@.len() ==> fails(r, Fault::BadParam(length_text())),
        old(output)@.len() == data@.len() ==> {
            &&& period == 0 ==> fails(r, Fault::BadParam(bounds_text()))
            &&& period == 1 ==> fails(r, Fault::BadParam(ema_period_text()))
            &&& period >= 2 && data@.len() < period ==> fails(r, Fault::InsufficientData)
            &&& period >= 2 && data@.len() >= period ==> match r {
                Ok(state) => state.closes(final(output)@, data@, period) && (alpha matches Some(a)
                    ==> state.alpha == a),
                Err(e) => sound_failure(e@, data@, period - 1),
            }
            &&& exact(ar) && period >= 2 && data@.len() >= period ==> {
                &&& decided(
                    match r {
                        Ok(state) => Ok(final(output)@),
                        Err(e) => Err(e@),
                    },
                    data@,
                    ema_values(ar, data@, period, alpha_value(ar, alpha, period)),
                    period - 1,
                    ema_values(ar, data@, period, alpha_value(ar, alpha, period)),
                )
                &&& r matches Ok(state) ==> state.at_end_of(
                    ar,
                    data@,
                    period,
                    alpha_value(ar, alpha, period),
                )
            }
        },
{
    TechalibError::check_same_length(output, data)?;
    let res = ema(ar, data, period, alpha)?;
    copy_into(&res.values, output);
    Ok(res.state)
}

impl State<Float> for EmaState {
    /// Moves the average on by one exponential step.
    ///
    /// The checks come in the order of [`EmaState::refusal`]; then the new
    /// average is computed, and one that is not finite is reported as an
    /// overflow at position 0.
    fn update<A: Arith>(&mut self, ar: &A, sample: Float) -> (r: Result<(), TechalibError>)
        ensures
            old(self).refusal(sample) matches Some(fault) ==> fails(r, fault),
            old(self).refusal(sample) is None ==> match r {
                Ok(_) => {
                    &&& final(self).period == old(self).period
                    &&& final(self).alpha == old(self).alpha
                    &&& final(self).ema.finite()
                },
                Err(e) => step_overflow(e@),
            },
            exact(ar) && old(self).refusal(sample) is None ==> {
                let v = old(self).next_ema(ar, sample);
                if v.finite() {
                    r is Ok && final(self).ema == v
                } else {
                    fails(r, Fault::Overflow(0, v))
                }
            },
    {
        if self.period <= 1 {
            return Err(TechalibError::bad_param("Period must be greater than 1"));
        }
        if !sample.is_finite() {
            return Err(TechalibError::non_finite("sample"));
        }
        if !self.ema.is_finite() {
            return Err(TechalibError::non_finite("self.ema"));
        }
        if !self.alpha.is_finite() {
            return Err(TechalibError::non_finite("alpha"));
        }
        let ema = ema_next_unchecked(ar, sample, self.ema, self.alpha);
        if !ema.is_finite() {
            return Err(TechalibError::Overflow(0, ema));
        }
        self.ema = ema;
        Ok(())
    }
}

/// The average at a position depends on the samples up to that position
/// only: over a prefix of the series the same value is due.
pub proof fn lemma_ema_at_prefix<A: Arith>(
    ar: &A,
    data: Seq<Float>,
    period: usize,
    alpha: Float,
    k: int,
    i: int,
)
    requires
        0 <= i < k <= data.len(),
    ensures
        ema_at(ar, data.take(k), period, alpha, i) == ema_at(ar, data, period, alpha, i),
    decreases i,
{
    crate::indicators::sma::lemma_running_sum_prefix(ar, data, k, period as nat);
    if i < period - 1 {
    } else if i == period - 1 || i == 0 {
    } else {
        lemma_ema_at_prefix(ar, data, period, alpha, k, i - 1);
    }
}

/// No lookahead: the averages of the first `k` samples are the first `k`
/// averages of the whole series.
pub proof fn lemma_ema_no_lookahead<A: Arith>(
    ar: &A,
    data: Seq<Float>,
    period: usize,
    alpha: Float,
    k: int,
)
    requires
        0 <= k <= data.len(),
    ensures
        ema_values(ar, data.take(k), period, alpha) == ema_values(ar, data, period, alpha).take(k),
{
    assert forall|i: int| 0 <= i < k implies ema_at(ar, data.take(k), period, alpha, i) == ema_at(
        ar,
        data,
        period,
        alpha,
        i,
    ) by {
        lemma_ema_at_prefix(ar, data, period, alpha, k, i);
    }
    assert(ema_values(ar, data.take(k), period, alpha) =~= ema_values(
        ar,
        data,
        period,
        alpha,
    ).take(k));
}

/// Streaming consistency: from the state after the first `k` samples, the
/// average after sample `k` is the average that is due at position `k` of
/// the series with one sample more.
pub proof fn lemma_ema_streaming<A: Arith>(
    ar: &A,
    data: Seq<Float>,
    period: usize,
    alpha: Float,
    k: int,
    state: EmaState,
)
    requires
        2 <= period <= k < data.len(),
        state.at_end_of(ar, data.take(k), period, alpha),
    ensures
        state.next_ema(ar, data[k]) == ema_values(ar, data.take(k + 1), period, alpha)[k],
{
    lemma_ema_at_prefix(ar, data, period, alpha, k, k - 1);
    lemma_ema_at_prefix(ar, data, period, alpha, k + 1, k);
}

/// No lookahead, of the results: where the averages of a series come out,
/// those of its first `k` samples come out too, and they are the first `k`
/// of the whole series. `full` and `part` are what [`ema`] returns for an
/// exact arithmetic.
pub proof fn lemma_ema_prefix_result<A: Arith>(
    ar: &A,
    data: Seq<Float>,
    period: usize,
    alpha: Float,
    k: int,
    full: Result<Seq<Float>, Fault>,
    part: Result<Seq<Float>, Fault>,
)
    requires
        0 <= k <= data.len(),
        decided(
            full,
            data,
            ema_values(ar, data, period, alpha),
            period - 1,
            ema_values(ar, data, period, alpha),
        ),
        decided(
            part,
            data.take(k),
            ema_values(ar, data.take(k), period, alpha),
            period - 1,
            ema_values(ar, data.take(k), period, alpha),
        ),
        full matches Ok(values),
    ensures
        full matches Ok(values) && part == Ok::<Seq<Float>, Fault>(values.take(k)),
{
    let whole = ema_values(ar, data, period, alpha);
    lemma_ema_no_lookahead(ar, data, period, alpha, k);
    assert forall|i: int| 0 <= i < k implies #[trigger] ema_values(
        ar,
        data.take(k),
        period,
        alpha,
    )[i] == whole[i] by {
        assert(whole.take(k)[i] == whole[i]);
    }
    lemma_prefix_runs_through(
        full,
        part,
        data,
        whole,
        ema_values(ar, data.take(k), period, alpha),
        period - 1,
        k,
        whole,
        ema_values(ar, data.take(k), period, alpha),
    );
}

/// Streaming consistency, of the results: the state that [`ema`] returns
/// for the first `k` samples takes sample `k`, where the averages of the
/// first `k + 1` samples come out and the weight is finite, and its step
/// gives the average at position `k`. `before`, `state` and `longer` are
/// what [`ema`] returns for an exact arithmetic; it does not test the
/// weight, which the step does.
pub proof fn lemma_ema_update_result<A: Arith>(
    ar: &A,
    data: Seq<Float>,
    period: usize,
    alpha: Float,
    k: int,
    before: Seq<Float>,
    state: EmaState,
    longer: Result<Seq<Float>, Fault>,
)
    requires
        2 <= period <= k < data.len(),
        alpha.finite(),
        state.closes(before, data.take(k), period),
        state.at_end_of(ar, data.take(k), period, alpha),
        decided(
            longer,
            data.take(k + 1),
            ema_values(ar, data.take(k + 1), period, alpha),
            period - 1,
            ema_values(ar, data.take(k + 1), period, alpha),
        ),
        longer matches Ok(values),
    ensures
        state.refusal(data[k]) is None,
        state.next_ema(ar, data[k]).finite(),
        longer matches Ok(values) && state.next_ema(ar, data[k]) == values[k],
{
    let long = data.take(k + 1);
    let ideal = ema_values(ar, long, period, alpha);
    assert(!bad(long, ideal, period - 1, k));
    assert(before[k - 1].finite());
    lemma_ema_streaming(ar, data, period, alpha, k, state);
}

} // verus!
