//! Simple moving average: the mean of the last `period` samples.
use crate::arith::{counted, exact, minus, over, plus, times, Arith};
use crate::errors::{fails, length_text, step_overflow, Fault, TechalibError};
use crate::float::{nan, one, zero, Float, ONE_BITS};
use crate::helper::bounds_text;
use crate::series::{
    all_finite, bad, clean, copy_into, decided, filled, finite_upto, first_non_finite,
    lemma_decided_at, lemma_decided_early, lemma_decided_ok, lemma_prefix_runs_through, nans,
    push_nans, shifted, sound_failure, tail, tail_window,
};
use crate::traits::State;
use std::collections::VecDeque;
use vstd::prelude::*;

verus! {

/// The averages of a series and the state that continues them.
#[derive(Debug)]
pub struct SmaResult {
    /// One value for each sample: NaN before position `period - 1`.
    pub values: Vec<Float>,
    /// The state after the last sample.
    pub state: SmaState,
}

/// What the next average is computed from.
#[derive(Debug, Clone)]
pub struct SmaState {
    /// The last average.
    pub sma: Float,
    /// The last `period` samples, oldest first.
    pub last_window: VecDeque<Float>,
    /// The number of samples that are averaged.
    pub period: usize,
}

/// The text of the refusal of a period below 2.
pub open spec fn sma_period_text() -> Seq<char> {
    "SMA period must be greater than 1"@
}

/// The text of the refusal of a window whose length is not the period.
pub open spec fn sma_window_text() -> Seq<char> {
    "SMA state last_window length does not match period"@
}

/// `1 / period`.
pub open spec fn inv_period_of<A: Arith>(ar: &A, period: usize) -> Float {
    over(ar, one(), counted(ar, period))
}

/// The rolling mean: `prev + (new - old) * inv_period`.
pub open spec fn sma_step<A: Arith>(
    ar: &A,
    new_value: Float,
    old_value: Float,
    prev_sma: Float,
    inv_period: Float,
) -> Float {
    plus(ar, prev_sma, times(ar, minus(ar, new_value, old_value), inv_period))
}

/// The first `n` samples added up from `0.0`, the first sample first.
pub open spec fn running_sum<A: Arith>(ar: &A, data: Seq<Float>, n: nat) -> Float
    decreases n,
{
    if n == 0 {
        zero()
    } else {
        plus(ar, running_sum(ar, data, (n - 1) as nat), data[n - 1])
    }
}

/// The mean of the first `period` samples: their sum times `inv_period`.
pub open spec fn seed_mean<A: Arith>(
    ar: &A,
    data: Seq<Float>,
    period: usize,
    inv_period: Float,
) -> Float {
    times(ar, running_sum(ar, data, period as nat), inv_period)
}

/// The average that is due at position `i`: NaN before `period - 1`, the
/// mean of the first `period` samples there, and one rolling step from the
/// value before at each later position.
pub open spec fn sma_at<A: Arith>(ar: &A, data: Seq<Float>, period: usize, i: int) -> Float
    decreases i,
{
    if i < period - 1 || i < 0 {
        nan()
    } else if i == period - 1 || i == 0 {
        seed_mean(ar, data, period, inv_period_of(ar, period))
    } else {
        sma_step(
            ar,
            data[i],
            data[i - period],
            sma_at(ar, data, period, i - 1),
            inv_period_of(ar, period),
        )
    }
}

/// The averages that are due for `data`, one for each sample.
pub open spec fn sma_values<A: Arith>(ar: &A, data: Seq<Float>, period: usize) -> Seq<Float> {
    Seq::new(data.len(), |i: int| sma_at(ar, data, period, i))
}

/// What `r` holds, for [`decided`].
pub open spec fn sma_got(r: Result<SmaResult, TechalibError>) -> Result<Seq<Float>, Fault> {
    match r {
        Ok(res) => Ok(res.values@),
        Err(e) => Err(e@),
    }
}

impl SmaState {
    /// `values` and the state are a result for `data` and `period`: the
    /// values are NaN before the lookback and finite from there on, every
    /// sample is finite, and the state holds the last value and the last
    /// `period` samples.
    pub open spec fn closes(&self, values: Seq<Float>, data: Seq<Float>, period: usize) -> bool {
        &&& filled(values, data.len(), (period - 1) as nat)
        &&& all_finite(data)
        &&& self.period == period
        &&& self.last_window@ == tail(data, period)
        &&& self.sma == values[data.len() - 1]
    }

    /// Why the state refuses `sample` before anything is computed, if it
    /// does: the first of these that holds.
    pub open spec fn refusal(&self, sample: Float) -> Option<Fault> {
        if self.period <= 1 {
            Some(Fault::BadParam(sma_period_text()))
        } else if self.last_window@.len() != self.period {
            Some(Fault::BadParam(sma_window_text()))
        } else if !sample.finite() {
            Some(Fault::DataNonFinite("sample"@))
        } else if !self.sma.finite() {
            Some(Fault::DataNonFinite("self.sma"@))
        } else if !all_finite(self.last_window@) {
            Some(Fault::DataNonFinite("window"@))
        } else {
            None
        }
    }

    /// The average after `sample`: one rolling step in which the oldest
    /// sample of the window leaves.
    pub open spec fn next_sma<A: Arith>(&self, ar: &A, sample: Float) -> Float {
        sma_step(ar, sample, self.last_window@[0], self.sma, inv_period_of(ar, self.period))
    }

    /// The state is the one after the last sample of `data`.
    pub open spec fn at_end_of<A: Arith>(&self, ar: &A, data: Seq<Float>, period: usize) -> bool {
        &&& self.period == period
        &&& self.last_window@ == tail(data, period)
        &&& self.sma == sma_at(ar, data, period, data.len() - 1)
    }
}

/// `prev_sma + (new_value - old_value) * inv_period`.
pub fn sma_next_unchecked<A: Arith>(
    ar: &A,
    new_value: Float,
    old_value: Float,
    prev_sma: Float,
    inv_period: Float,
) -> (r: Float)
    ensures
        exact(ar) ==> r == sma_step(ar, new_value, old_value, prev_sma, inv_period),
{
    let delta = ar.sub(new_value, old_value);
    let share = ar.mul(delta, inv_period);
    ar.add(prev_sma, share)
}

/// `1 / period`, as `ar` gives it.
pub fn inverse_of_period<A: Arith>(ar: &A, period: usize) -> (r: Float)
    ensures
        exact(ar) ==> r == inv_period_of(ar, period),
{
    let n = ar.count(period);
    ar.div(Float { bits: ONE_BITS }, n)
}

/// The mean of the first `period` samples: their sum times `inv_period`.
/// On a sample that is not finite, the position of the first such sample
/// is returned.
pub fn sma_seed<A: Arith>(ar: &A, data: &[Float], period: usize, inv_period: Float) -> (r: Result<
    Float,
    usize,
>)
    requires
        1 <= period <= data@.len(),
    ensures
        match r {
            Ok(seed) => {
                &&& finite_upto(data@, period as int)
                &&& exact(ar) ==> seed == seed_mean(ar, data@, period, inv_period)
            },
            Err(j) => j < period && !data@[j as int].finite() && finite_upto(data@, j as int),
        },
{
    let mut sum = Float { bits: 0 };
    let mut idx: usize = 0;
    while idx < period
        invariant
            1 <= period <= data@.len(),
            idx <= period,
            finite_upto(data@, idx as int),
            exact(ar) ==> sum == running_sum(ar, data@, idx as nat),
        decreases period - idx,
    {
        let value = data[idx];
        if !value.is_finite() {
            return Err(idx);
        }
        sum = ar.add(sum, value);
        idx += 1;
    }
    Ok(ar.mul(sum, inv_period))
}

/// The mean of the first `period` samples, as [`sma_seed`] gives it; a NaN
/// is then appended to `output` for each position before `period - 1`.
/// Where a sample is not finite, `output` is left as it was.
pub fn init_sma_unchecked<A: Arith>(
    ar: &A,
    data: &[Float],
    period: usize,
    inv_period: Float,
    output: &mut Vec<Float>,
) -> (r: Result<Float, usize>)
    requires
        1 <= period <= data@.len(),
    ensures
        match r {
            Ok(seed) => {
                &&& finite_upto(data@, period as int)
                &&& final(output)@ == old(output)@ + nans((period - 1) as nat)
                &&& exact(ar) ==> seed == seed_mean(ar, data@, period, inv_period)
            },
            Err(j) => {
                &&& j < period && !data@[j as int].finite() && finite_upto(data@, j as int)
                &&& final(output)@ == old(output)@
            },
        },
{
    match sma_seed(ar, data, period, inv_period) {
        Ok(seed) => {
            push_nans(output, period - 1);
            Ok(seed)
        },
        Err(j) => Err(j),
    }
}

/// The simple moving average of `data` over `period` samples.
///
/// A period below 2 is refused (a period of 0 with the text of
/// [`lookback`](crate::helper::lookback), which has no lookback for it), then
/// a series shorter than the period. The samples are then taken in order:
/// the first that is not finite, or whose average is not finite, ends the
/// calculation with its report.
pub fn sma<A: Arith>(ar: &A, data: &[Float], period: usize) -> (r: Result<SmaResult, TechalibError>)
    ensures
        period == 0 ==> fails(r, Fault::BadParam(bounds_text())),
        period == 1 ==> fails(r, Fault::BadParam(sma_period_text())),
        period >= 2 && data@.len() < period ==> fails(r, Fault::InsufficientData),
        period >= 2 && data@.len() >= period ==> match r {
            Ok(res) => res.state.closes(res.values@, data@, period),
            Err(e) => sound_failure(e@, data@, period - 1),
        },
        exact(ar) && period >= 2 && data@.len() >= period ==> {
            &&& decided(
                sma_got(r),
                data@,
                sma_values(ar, data@, period),
                period - 1,
                sma_values(ar, data@, period),
            )
            &&& r matches Ok(res) ==> res.state.at_end_of(ar, data@, period)
        },
{
    let len = data.len();
    if period == 0 {
        return Err(TechalibError::bad_param("period must be between 2 and 100000"));
    }
    if period == 1 {
        return Err(TechalibError::bad_param("SMA period must be greater than 1"));
    }
    if len < period {
        return Err(TechalibError::InsufficientData);
    }
    let ghost ideal = sma_values(ar, data@, period);
    let ghost lookback = period - 1;
    let inv = inverse_of_period(ar, period);
    let mut values: Vec<Float> = Vec::new();
    let seed = match init_sma_unchecked(ar, data, period, inv, &mut values) {
        Ok(seed) => seed,
        Err(j) => {
            proof {
                if exact(ar) {
                    lemma_decided_early(
                        Err::<Seq<Float>, Fault>(Fault::DataNonFinite("data"@)),
                        data@,
                        ideal,
                        lookback,
                        ideal,
                        j as int,
                    );
                }
            }
            return Err(TechalibError::non_finite("data"));
        },
    };
    if !seed.is_finite() {
        proof {
            if exact(ar) {
                assert(bad(data@, ideal, lookback, lookback));
                lemma_decided_at(
                    Err::<Seq<Float>, Fault>(Fault::Overflow((period - 1) as usize, seed)),
                    data@,
                    ideal,
                    lookback,
                    ideal,
                    lookback,
                );
            }
        }
        return Err(TechalibError::Overflow(period - 1, seed));
    }
    values.push(seed);
    let mut prev = seed;
    let mut idx: usize = period;
    while idx < len
        invariant
            2 <= period <= idx <= len,
            len == data@.len(),
            lookback == period - 1,
            ideal == sma_values(ar, data@, period),
            exact(ar) ==> inv == inv_period_of(ar, period),
            finite_upto(data@, idx as int),
            filled(values@, idx as nat, lookback as nat),
            prev == values@[idx - 1],
            exact(ar) ==> clean(data@, ideal, lookback, idx as int),
            exact(ar) ==> values@ == ideal.take(idx as int),
        decreases len - idx,
    {
        if !data[idx].is_finite() {
            proof {
                if exact(ar) {
                    assert(bad(data@, ideal, lookback, idx as int));
                    lemma_decided_at(
                        Err::<Seq<Float>, Fault>(Fault::DataNonFinite("data"@)),
                        data@,
                        ideal,
                        lookback,
                        ideal,
                        idx as int,
                    );
                }
            }
            return Err(TechalibError::non_finite("data"));
        }
        let value = sma_next_unchecked(ar, data[idx], data[idx - period], prev, inv);
        proof {
            if exact(ar) {
                assert(values@[idx - 1] == ideal[idx - 1]);
                assert(value == ideal[idx as int]);
            }
        }
        if !value.is_finite() {
            proof {
                if exact(ar) {
                    assert(bad(data@, ideal, lookback, idx as int));
                    lemma_decided_at(
                        Err::<Seq<Float>, Fault>(Fault::Overflow(idx, value)),
                        data@,
                        ideal,
                        lookback,
                        ideal,
                        idx as int,
                    );
                }
            }
            return Err(TechalibError::Overflow(idx, value));
        }
        values.push(value);
        prev = value;
        proof {
            if exact(ar) {
                assert(!bad(data@, ideal, lookback, idx as int));
                assert(values@ =~= ideal.take(idx + 1));
            }
        }
        idx += 1;
    }
    let state = SmaState { sma: prev, last_window: tail_window(data, period), period };
    proof {
        if exact(ar) {
            assert(ideal.take(len as int) == ideal);
            lemma_decided_ok(data@, ideal, lookback, ideal);
        }
    }
    Ok(SmaResult { values, state })
}

/// The simple moving average of `data`, written into `output`. An output
/// whose length is not that of the input is refused first. Where the
/// calculation fails, `output` is left as it was.
pub fn sma_into<A: Arith>(ar: &A, data: &[Float], period: usize, output: &mut [Float]) -> (r:
    Result<SmaState, TechalibError>)
    ensures
        final(output)@.len() == old(output)@.len(),
        r is Err ==> final(output)@ == old(output)@,
        old(output)@.len() != data@.len() ==> fails(r, Fault::BadParam(length_text())),
        old(output)@.len() == data@.len() ==> {
            &&& period == 0 ==> fails(r, Fault::BadParam(bounds_text()))
            &&& period == 1 ==> fails(r, Fault::BadParam(sma_period_text()))
            &&& period >= 2 && data@.len() < period ==> fails(r, Fault::InsufficientData)
            &&& period >= 2 && data@.len() >= period ==> match r {
                Ok(state) => state.closes(final(output)@, data@, period),
                Err(e) => sound_failure(e@, data@, period - 1),
            }
            &&& exact(ar) && period >= 2 && data@.len() >= period ==> {
                &&& decided(
                    match r {
                        Ok(state) => Ok(final(output)@),
                        Err(e) => Err(e@),
                    },
                    data@,
                    sma_values(ar, data@, period),
                    period - 1,
                    sma_values(ar, data@, period),
                )
                &&& r matches Ok(state) ==> state.at_end_of(ar, data@, period)
            }
        },
{
    TechalibError::check_same_length(output, data)?;
    let res = sma(ar, data, period)?;
    copy_into(&res.values, output);
    Ok(res.state)
}

impl State<Float> for SmaState {
    /// Takes `sample` into the window and moves the average on by one
    /// rolling step.
    ///
    /// The checks come in the order of [`SmaState::refusal`]; then the new
    /// average is computed, and one that is not finite is reported as an
    /// overflow at position 0.
    fn update<A: Arith>(&mut self, ar: &A, sample: Float) -> (r: Result<(), TechalibError>)
        ensures
            old(self).refusal(sample) matches Some(fault) ==> fails(r, fault),
            old(self).refusal(sample) is None ==> match r {
                Ok(_) => {
                    &&& final(self).period == old(self).period
                    &&& final(self).last_window@ == shifted(old(self).last_window@, sample)
                    &&& final(self).sma.finite()
                },
                Err(e) => step_overflow(e@),
            },
            exact(ar) && old(self).refusal(sample) is None ==> {
                let v = old(self).next_sma(ar, sample);
                if v.finite() {
                    r is Ok && final(self).sma == v
                } else {
                    fails(r, Fault::Overflow(0, v))
                }
            },
    {
        if self.period <= 1 {
            return Err(TechalibError::bad_param("SMA period must be greater than 1"));
        }
        if self.last_window.len() != self.period {
            return Err(
                TechalibError::bad_param("SMA state last_window length does not match period"),
            );
        }
        if !sample.is_finite() {
            return Err(TechalibError::non_finite("sample"));
        }
        if !self.sma.is_finite() {
            return Err(TechalibError::non_finite("self.sma"));
        }
        if first_non_finite(&self.last_window).is_some() {
            return Err(TechalibError::non_finite("window"));
        }
        let old_value = self.last_window[0];
        let inv = inverse_of_period(ar, self.period);
        let sma = sma_next_unchecked(ar, sample, old_value, self.sma, inv);
        if !sma.is_finite() {
            return Err(TechalibError::Overflow(0, sma));
        }
        let _ = self.last_window.pop_front();
        self.last_window.push_back(sample);
        self.sma = sma;
        Ok(())
    }
}

/// The average at a position depends on the samples up to that position
/// only: over a prefix of the series the same value is due.
pub proof fn lemma_sma_at_prefix<A: Arith>(
    ar: &A,
    data: Seq<Float>,
    period: usize,
    k: int,
    i: int,
)
    requires
        0 <= i < k <= data.len(),
    ensures
        sma_at(ar, data.take(k), period, i) == sma_at(ar, data, period, i),
    decreases i,
{
    lemma_running_sum_prefix(ar, data, k, period as nat);
    if i < period - 1 {
    } else if i == period - 1 || i == 0 {
    } else {
        lemma_sma_at_prefix(ar, data, period, k, i - 1);
    }
}

/// The sum of the first `n` samples is the same over a prefix that holds them.
pub proof fn lemma_running_sum_prefix<A: Arith>(ar: &A, data: Seq<Float>, k: int, n: nat)
    requires
        0 <= k <= data.len(),
    ensures
        n <= k ==> running_sum(ar, data.take(k), n) == running_sum(ar, data, n),
    decreases n,
{
    if n > 0 {
        lemma_running_sum_prefix(ar, data, k, (n - 1) as nat);
    }
}

/// The sum of the first `n` samples is the same for two series that agree
/// on them.
pub proof fn lemma_running_sum_same<A: Arith>(ar: &A, a: Seq<Float>, b: Seq<Float>, n: nat)
    requires
        forall|j: int| 0 <= j < n ==> a[j] == b[j],
    ensures
        running_sum(ar, a, n) == running_sum(ar, b, n),
    decreases n,
{
    if n > 0 {
        lemma_running_sum_same(ar, a, b, (n - 1) as nat);
    }
}

/// No lookahead: the averages of the first `k` samples are the first `k`
/// averages of the whole series.
pub proof fn lemma_sma_no_lookahead<A: Arith>(ar: &A, data: Seq<Float>, period: usize, k: int)
    requires
        0 <= k <= data.len(),
    ensures
        sma_values(ar, data.take(k), period) == sma_values(ar, data, period).take(k),
{
    assert forall|i: int| 0 <= i < k implies sma_at(ar, data.take(k), period, i) == sma_at(
        ar,
        data,
        period,
        i,
    ) by {
        lemma_sma_at_prefix(ar, data, period, k, i);
    }
    assert(sma_values(ar, data.take(k), period) =~= sma_values(ar, data, period).take(k));
}

/// Streaming consistency: from the state after the first `k` samples, the
/// average after sample `k` is the average that is due at position `k` of
/// the series with one sample more.
pub proof fn lemma_sma_streaming<A: Arith>(
    ar: &A,
    data: Seq<Float>,
    period: usize,
    k: int,
    state: SmaState,
)
    requires
        2 <= period <= k < data.len(),
        state.at_end_of(ar, data.take(k), period),
    ensures
        state.next_sma(ar, data[k]) == sma_values(ar, data.take(k + 1), period)[k],
        shifted(state.last_window@, data[k]) == tail(data.take(k + 1), period),
{
    lemma_sma_at_prefix(ar, data, period, k, k - 1);
    lemma_sma_at_prefix(ar, data, period, k + 1, k);
    assert(shifted(state.last_window@, data[k]) =~= tail(data.take(k + 1), period));
}

/// No lookahead, of the results: where the averages of a series come out,
/// those of its first `k` samples come out too, and they are the first `k`
/// of the whole series. `full` and `part` are what [`sma`] returns for an
/// exact arithmetic.
pub proof fn lemma_sma_prefix_result<A: Arith>(
    ar: &A,
    data: Seq<Float>,
    period: usize,
    k: int,
    full: Result<Seq<Float>, Fault>,
    part: Result<Seq<Float>, Fault>,
)
    requires
        0 <= k <= data.len(),
        decided(
            full,
            data,
            sma_values(ar, data, period),
            period - 1,
            sma_values(ar, data, period),
        ),
        decided(
            part,
            data.take(k),
            sma_values(ar, data.take(k), period),
            period - 1,
            sma_values(ar, data.take(k), period),
        ),
        full matches Ok(values),
    ensures
        full matches Ok(values) && part == Ok::<Seq<Float>, Fault>(values.take(k)),
{
    lemma_sma_no_lookahead(ar, data, period, k);
    assert forall|i: int| 0 <= i < k implies #[trigger] sma_values(ar, data.take(k), period)[i]
        == sma_values(ar, data, period)[i] by {
        assert(sma_values(ar, data, period).take(k)[i] == sma_values(ar, data, period)[i]);
    }
    lemma_prefix_runs_through(
        full,
        part,
        data,
        sma_values(ar, data, period),
        sma_values(ar, data.take(k), period),
        period - 1,
        k,
        sma_values(ar, data, period),
        sma_values(ar, data.take(k), period),
    );
}

/// Streaming consistency, of the results: the state that [`sma`] returns
/// for the first `k` samples takes sample `k`, where the averages of the
/// first `k + 1` samples come out, and its step gives the average at
/// position `k` and the window of the longer series. `before`, `state` and
/// `longer` are what [`sma`] returns for an exact arithmetic.
pub proof fn lemma_sma_update_result<A: Arith>(
    ar: &A,
    data: Seq<Float>,
    period: usize,
    k: int,
    before: Seq<Float>,
    state: SmaState,
    longer: Result<Seq<Float>, Fault>,
)
    requires
        2 <= period <= k < data.len(),
        state.closes(before, data.take(k), period),
        state.at_end_of(ar, data.take(k), period),
        decided(
            longer,
            data.take(k + 1),
            sma_values(ar, data.take(k + 1), period),
            period - 1,
            sma_values(ar, data.take(k + 1), period),
        ),
        longer matches Ok(values),
    ensures
        state.refusal(data[k]) is None,
        state.next_sma(ar, data[k]).finite(),
        longer matches Ok(values) && state.next_sma(ar, data[k]) == values[k],
        shifted(state.last_window@, data[k]) == tail(data.take(k + 1), period),
{
    let long = data.take(k + 1);
    let ideal = sma_values(ar, long, period);
    assert(!bad(long, ideal, period - 1, k));
    assert(before[k - 1].finite());
    let window = state.last_window@;
    assert forall|i: int| 0 <= i < window.len() implies (#[trigger] window[i]).finite() by {
        assert(data.take(k)[k - period + i].finite());
    }
    lemma_sma_streaming(ar, data, period, k, state);
}

} // verus!
