//! Relative strength index with Wilder smoothing: how much of the recent
//! movement was upwards, from 0 to 100.
use crate::arith::{counted, exact, minus, over, plus, times, Arith};
use crate::errors::{fails, length_text, step_overflow, Fault, TechalibError};
use crate::float::{fifty, hundred, nan, one, zero, Float, FIFTY_BITS, HUNDRED_BITS, ONE_BITS};
use crate::series::{
    all_finite, bad, clean, copy_into, decided, filled, finite_upto, lemma_decided_at,
    lemma_decided_ok, lemma_prefix_runs_through, nan_value, nans, sound_failure,
};
use crate::traits::State;
use vstd::prelude::*;

verus! {

/// The index of a series and the state that continues it.
#[derive(Debug)]
pub struct RsiResult {
    /// One value for each sample: NaN before position `period`.
    pub values: Vec<Float>,
    /// The state after the last sample.
    pub state: RsiState,
}

/// What the next index is computed from.
#[derive(Debug, Clone, Copy)]
pub struct RsiState {
    /// The last index.
    pub rsi: Float,
    /// The last sample: the next change is counted from it.
    pub prev_value: Float,
    /// The smoothed average of the rises.
    pub avg_gain: Float,
    /// The smoothed average of the falls.
    pub avg_loss: Float,
    pub period: usize,
}

/// The text of the refusal of a period below 2.
pub open spec fn rsi_period_text() -> Seq<char> {
    "RSI period must be greater than 1"@
}

/// The index of an average gain and an average loss: 50 where both are
/// zero, 100 where only the loss is zero and the gain is above zero, else
/// `100 - 100 / (1 + gain / loss)`.
pub open spec fn rsi_of<A: Arith>(ar: &A, avg_gain: Float, avg_loss: Float) -> Float {
    if avg_loss.same(zero()) && avg_gain.same(zero()) {
        fifty()
    } else if avg_loss.same(zero()) && zero().lt(avg_gain) {
        hundred()
    } else {
        minus(ar, hundred(), over(ar, hundred(), plus(ar, one(), over(ar, avg_gain, avg_loss))))
    }
}

/// The averages after one more change `delta`, with `k = 1 / period`: both
/// decay by `1 - k`, and the change times `k` is added to the gain if it is
/// a rise, taken from the loss if it is a fall.
pub open spec fn rsi_averages<A: Arith>(
    ar: &A,
    delta: Float,
    prev_avg_gain: Float,
    prev_avg_loss: Float,
    period: Float,
) -> (Float, Float) {
    let k = over(ar, one(), period);
    let rest = minus(ar, one(), k);
    if zero().lt(delta) {
        (
            plus(ar, times(ar, prev_avg_gain, rest), times(ar, delta, k)),
            times(ar, prev_avg_loss, rest),
        )
    } else if delta.lt(zero()) {
        (
            times(ar, prev_avg_gain, rest),
            minus(ar, times(ar, prev_avg_loss, rest), times(ar, delta, k)),
        )
    } else {
        (times(ar, prev_avg_gain, rest), times(ar, prev_avg_loss, rest))
    }
}

/// The change at position `i`: the sample minus the one before.
pub open spec fn delta_at<A: Arith>(ar: &A, data: Seq<Float>, i: int) -> Float {
    minus(ar, data[i], data[i - 1])
}

/// The rises and the falls among the first `n` changes, each added up: a
/// change above zero is a rise, any other is taken from the falls.
pub open spec fn seed_sums<A: Arith>(ar: &A, data: Seq<Float>, n: nat) -> (Float, Float)
    decreases n,
{
    if n == 0 {
        (zero(), zero())
    } else {
        let before = seed_sums(ar, data, (n - 1) as nat);
        let delta = delta_at(ar, data, n as int);
        if zero().lt(delta) {
            (plus(ar, before.0, delta), before.1)
        } else {
            (before.0, minus(ar, before.1, delta))
        }
    }
}

/// The average gain and the average loss at position `i`, from `period`
/// on: there the rises and the falls of the first `period` changes, each
/// over `period`; then one smoothing step for each change.
pub open spec fn averages_at<A: Arith>(ar: &A, data: Seq<Float>, period: usize, i: int) -> (
    Float,
    Float,
)
    decreases i,
{
    if i <= period || i <= 0 {
        let sums = seed_sums(ar, data, period as nat);
        (over(ar, sums.0, counted(ar, period)), over(ar, sums.1, counted(ar, period)))
    } else {
        let before = averages_at(ar, data, period, i - 1);
        rsi_averages(ar, delta_at(ar, data, i), before.0, before.1, counted(ar, period))
    }
}

/// The index that is due at position `i`: NaN before `period`.
pub open spec fn rsi_at<A: Arith>(ar: &A, data: Seq<Float>, period: usize, i: int) -> Float {
    if i < period {
        nan()
    } else {
        let avg = averages_at(ar, data, period, i);
        rsi_of(ar, avg.0, avg.1)
    }
}

/// The index that is due for `data`, one value for each sample.
pub open spec fn rsi_values<A: Arith>(ar: &A, data: Seq<Float>, period: usize) -> Seq<Float> {
    Seq::new(data.len(), |i: int| rsi_at(ar, data, period, i))
}

/// For each position from 1 on the value that is held to be finite there:
/// the change, and from `period` on the index where the change is finite.
pub open spec fn rsi_checked<A: Arith>(ar: &A, data: Seq<Float>, period: usize) -> Seq<Float> {
    Seq::new(
        data.len(),
        |i: int|
            if i < period || !delta_at(ar, data, i).finite() {
                delta_at(ar, data, i)
            } else {
                rsi_at(ar, data, period, i)
            },
    )
}

/// What `r` holds, for [`decided`].
pub open spec fn rsi_got(r: Result<RsiResult, TechalibError>) -> Result<Seq<Float>, Fault> {
    match r {
        Ok(res) => Ok(res.values@),
        Err(e) => Err(e@),
    }
}

impl RsiState {
    /// `values` and the state are a result for `data` and `period`: the
    /// values are NaN before position `period` and finite from there on,
    /// every sample is finite, and the state holds the last value, the last
    /// sample and the period.
    pub open spec fn closes(&self, values: Seq<Float>, data: Seq<Float>, period: usize) -> bool {
        &&& filled(values, data.len(), period as nat)
        &&& all_finite(data)
        &&& self.period == period
        &&& self.prev_value == data[data.len() - 1]
        &&& self.rsi == values[data.len() - 1]
    }

    /// The state is the one after the last sample of `data`.
    pub open spec fn at_end_of<A: Arith>(&self, ar: &A, data: Seq<Float>, period: usize) -> bool {
        let last = data.len() - 1;
        &&& self.period == period
        &&& self.prev_value == data[last]
        &&& self.avg_gain == averages_at(ar, data, period, last).0
        &&& self.avg_loss == averages_at(ar, data, period, last).1
        &&& self.rsi == rsi_at(ar, data, period, last)
    }

    /// Why the state refuses `sample` before anything is computed, if it
    /// does: the first of these that holds.
    pub open spec fn refusal(&self, sample: Float) -> Option<Fault> {
        if self.period <= 1 {
            Some(Fault::BadParam(rsi_period_text()))
        } else if !sample.finite() {
            Some(Fault::DataNonFinite("sample"@))
        } else if !self.prev_value.finite() {
            Some(Fault::DataNonFinite("prev_value"@))
        } else if !self.avg_gain.finite() {
            Some(Fault::DataNonFinite("self.avg_gain"@))
        } else if !self.avg_loss.finite() {
            Some(Fault::DataNonFinite("self.avg_loss"@))
        } else {
            None
        }
    }

    /// The change that `sample` brings.
    pub open spec fn next_delta<A: Arith>(&self, ar: &A, sample: Float) -> Float {
        minus(ar, sample, self.prev_value)
    }

    /// The averages after `sample`.
    pub open spec fn next_averages<A: Arith>(&self, ar: &A, sample: Float) -> (Float, Float) {
        rsi_averages(
            ar,
            self.next_delta(ar, sample),
            self.avg_gain,
            self.avg_loss,
            counted(ar, self.period),
        )
    }

    /// The index after `sample`.
    pub open spec fn next_rsi<A: Arith>(&self, ar: &A, sample: Float) -> Float {
        rsi_of(ar, self.next_averages(ar, sample).0, self.next_averages(ar, sample).1)
    }
}

/// The index of an average gain and an average loss: see [`rsi_of`].
pub fn calculate_rsi<A: Arith>(ar: &A, avg_gain: Float, avg_loss: Float) -> (r: Float)
    ensures
        avg_loss.same(zero()) && avg_gain.same(zero()) ==> r == fifty(),
        avg_loss.same(zero()) && zero().lt(avg_gain) ==> r == hundred(),
        exact(ar) ==> r == rsi_of(ar, avg_gain, avg_loss),
{
    let zero = Float { bits: 0 };
    let hundred = Float { bits: HUNDRED_BITS };
    if avg_loss.equals(zero) {
        if avg_gain.equals(zero) {
            return Float { bits: FIFTY_BITS };
        }
        if zero.less_than(avg_gain) {
            return hundred;
        }
    }
    let rs = ar.div(avg_gain, avg_loss);
    let below = ar.add(Float { bits: ONE_BITS }, rs);
    ar.sub(hundred, ar.div(hundred, below))
}

/// The index and the averages after one more change: see [`rsi_averages`].
pub fn rsi_next_unchecked<A: Arith>(
    ar: &A,
    delta: Float,
    prev_avg_gain: Float,
    prev_avg_loss: Float,
    period: Float,
) -> (r: (Float, Float, Float))
    ensures
        exact(ar) ==> {
            let avg = rsi_averages(ar, delta, prev_avg_gain, prev_avg_loss, period);
            r == (rsi_of(ar, avg.0, avg.1), avg.0, avg.1)
        },
{
    let zero = Float { bits: 0 };
    let one = Float { bits: ONE_BITS };
    let k = ar.div(one, period);
    let rest = ar.sub(one, k);
    let (avg_gain, avg_loss) = if zero.less_than(delta) {
        (ar.add(ar.mul(prev_avg_gain, rest), ar.mul(delta, k)), ar.mul(prev_avg_loss, rest))
    } else if delta.less_than(zero) {
        (ar.mul(prev_avg_gain, rest), ar.sub(ar.mul(prev_avg_loss, rest), ar.mul(delta, k)))
    } else {
        (ar.mul(prev_avg_gain, rest), ar.mul(prev_avg_loss, rest))
    };
    (calculate_rsi(ar, avg_gain, avg_loss), avg_gain, avg_loss)
}

/// The relative strength index of `data` over `period` changes.
///
/// A period below 2 is refused, then a series of fewer than `period + 1`
/// samples. The samples are then taken in order: the first that is not
/// finite ends the calculation, and so does the first whose change from
/// the sample before, or whose index, is not finite.
pub fn rsi<A: Arith>(ar: &A, data: &[Float], period: usize) -> (r: Result<RsiResult, TechalibError>)
    ensures
        period < 2 ==> fails(r, Fault::BadParam(rsi_period_text())),
        period >= 2 && data@.len() <= period ==> fails(r, Fault::InsufficientData),
        period >= 2 && data@.len() > period ==> match r {
            Ok(res) => res.state.closes(res.values@, data@, period),
            Err(e) => sound_failure(e@, data@, 1),
        },
        exact(ar) && period >= 2 && data@.len() > period ==> {
            &&& decided(
                rsi_got(r),
                data@,
                rsi_checked(ar, data@, period),
                1,
                rsi_values(ar, data@, period),
            )
            &&& r matches Ok(res) ==> res.state.at_end_of(ar, data@, period)
        },
{
    let len = data.len();
    if period < 2 {
        return Err(TechalibError::bad_param("RSI period must be greater than 1"));
    }
    if len <= period {
        return Err(TechalibError::InsufficientData);
    }
    let ghost checked = rsi_checked(ar, data@, period);
    let ghost ideal = rsi_values(ar, data@, period);
    let zero = Float { bits: 0 };
    let period_as_float = ar.count(period);
    if !data[0].is_finite() {
        proof {
            if exact(ar) {
                assert(bad(data@, checked, 1, 0));
                lemma_decided_at(
                    Err::<Seq<Float>, Fault>(Fault::DataNonFinite("data"@)),
                    data@,
                    checked,
                    1,
                    ideal,
                    0,
                );
            }
        }
        return Err(TechalibError::non_finite("data"));
    }
    let mut values: Vec<Float> = Vec::new();
    values.push(nan_value());
    let mut gain = zero;
    let mut loss = zero;
    let mut idx: usize = 1;
    proof {
        assert(!bad(data@, checked, 1, 0));
    }
    while idx <= period
        invariant
            2 <= period < len,
            len == data@.len(),
            1 <= idx <= period + 1,
            zero == crate::float::zero(),
            checked == rsi_checked(ar, data@, period),
            ideal == rsi_values(ar, data@, period),
            finite_upto(data@, idx as int),
            values@ =~= nans(
                (if idx <= period {
                    idx
                } else {
                    period
                }) as nat,
            ),
            exact(ar) ==> clean(
                data@,
                checked,
                1,
                if idx <= period {
                    idx as int
                } else {
                    period as int
                },
            ),
            exact(ar) && idx == period + 1 ==> delta_at(ar, data@, period as int).finite(),
            exact(ar) ==> gain == seed_sums(ar, data@, (idx - 1) as nat).0,
            exact(ar) ==> loss == seed_sums(ar, data@, (idx - 1) as nat).1,
        decreases period + 1 - idx,
    {
        if !data[idx].is_finite() {
            proof {
                if exact(ar) {
                    assert(bad(data@, checked, 1, idx as int));
                    lemma_decided_at(
                        Err::<Seq<Float>, Fault>(Fault::DataNonFinite("data"@)),
                        data@,
                        checked,
                        1,
                        ideal,
                        idx as int,
                    );
                }
            }
            return Err(TechalibError::non_finite("data"));
        }
        let delta = ar.sub(data[idx], data[idx - 1]);
        if !delta.is_finite() {
            proof {
                if exact(ar) {
                    assert(bad(data@, checked, 1, idx as int));
                    lemma_decided_at(
                        Err::<Seq<Float>, Fault>(Fault::Overflow(idx, delta)),
                        data@,
                        checked,
                        1,
                        ideal,
                        idx as int,
                    );
                }
            }
            return Err(TechalibError::Overflow(idx, delta));
        }
        if zero.less_than(delta) {
            gain = ar.add(gain, delta);
        } else {
            loss = ar.sub(loss, delta);
        }
        if idx < period {
            values.push(nan_value());
            proof {
                if exact(ar) {
                    assert(!bad(data@, checked, 1, idx as int));
                }
            }
        }
        idx += 1;
    }
    let mut avg_gain = ar.div(gain, period_as_float);
    let mut avg_loss = ar.div(loss, period_as_float);
    let first = calculate_rsi(ar, avg_gain, avg_loss);
    proof {
        if exact(ar) {
            assert(first == rsi_at(ar, data@, period, period as int));
            assert(checked[period as int] == first);
        }
    }
    if !first.is_finite() {
        proof {
            if exact(ar) {
                assert(bad(data@, checked, 1, period as int));
                lemma_decided_at(
                    Err::<Seq<Float>, Fault>(Fault::Overflow(period, first)),
                    data@,
                    checked,
                    1,
                    ideal,
                    period as int,
                );
            }
        }
        return Err(TechalibError::Overflow(period, first));
    }
    values.push(first);
    let mut prev = first;
    proof {
        if exact(ar) {
            assert(!bad(data@, checked, 1, period as int));
            assert(values@ =~= ideal.take(period + 1));
        }
    }
    while idx < len
        invariant
            2 <= period < idx <= len,
            len == data@.len(),
            checked == rsi_checked(ar, data@, period),
            ideal == rsi_values(ar, data@, period),
            finite_upto(data@, idx as int),
            filled(values@, idx as nat, period as nat),
            prev == values@[idx - 1],
            exact(ar) ==> period_as_float == counted(ar, period),
            exact(ar) ==> avg_gain == averages_at(ar, data@, period, idx - 1).0,
            exact(ar) ==> avg_loss == averages_at(ar, data@, period, idx - 1).1,
            exact(ar) ==> clean(data@, checked, 1, idx as int),
            exact(ar) ==> values@ == ideal.take(idx as int),
        decreases len - idx,
    {
        if !data[idx].is_finite() {
            proof {
                if exact(ar) {
                    assert(bad(data@, checked, 1, idx as int));
                    lemma_decided_at(
                        Err::<Seq<Float>, Fault>(Fault::DataNonFinite("data"@)),
                        data@,
                        checked,
                        1,
                        ideal,
                        idx as int,
                    );
                }
            }
            return Err(TechalibError::non_finite("data"));
        }
        let delta = ar.sub(data[idx], data[idx - 1]);
        if !delta.is_finite() {
            proof {
                if exact(ar) {
                    assert(bad(data@, checked, 1, idx as int));
                    lemma_decided_at(
                        Err::<Seq<Float>, Fault>(Fault::Overflow(idx, delta)),
                        data@,
                        checked,
                        1,
                        ideal,
                        idx as int,
                    );
                }
            }
            return Err(TechalibError::Overflow(idx, delta));
        }
        let (value, next_gain, next_loss) = rsi_next_unchecked(
            ar,
            delta,
            avg_gain,
            avg_loss,
            period_as_float,
        );
        proof {
            if exact(ar) {
                assert(value == rsi_at(ar, data@, period, idx as int));
                assert(checked[idx as int] == value);
            }
        }
        if !value.is_finite() {
            proof {
                if exact(ar) {
                    assert(bad(data@, checked, 1, idx as int));
                    lemma_decided_at(
                        Err::<Seq<Float>, Fault>(Fault::Overflow(idx, value)),
                        data@,
                        checked,
                        1,
                        ideal,
                        idx as int,
                    );
                }
            }
            return Err(TechalibError::Overflow(idx, value));
        }
        values.push(value);
        prev = value;
        avg_gain = next_gain;
        avg_loss = next_loss;
        proof {
            if exact(ar) {
                assert(!bad(data@, checked, 1, idx as int));
                assert(values@ =~= ideal.take(idx + 1));
            }
        }
        idx += 1;
    }
    let state = RsiState { rsi: prev, prev_value: data[len - 1], avg_gain, avg_loss, period };
    proof {
        if exact(ar) {
            assert(ideal.take(len as int) == ideal);
            lemma_decided_ok(data@, checked, 1, ideal);
        }
    }
    Ok(RsiResult { values, state })
}

/// The relative strength index of `data`, written into `output`. An output
/// whose length is not that of the input is refused first. Where the
/// calculation fails, `output` is left as it was.
pub fn rsi_into<A: Arith>(ar: &A, data: &[Float], period: usize, output: &mut [Float]) -> (r:
    Result<RsiState, TechalibError>)
    ensures
        final(output)@.len() == old(output)@.len(),
        r is Err ==> final(output)@ == old(output)@,
        old(output)@.len() != data@.len() ==> fails(r, Fault::BadParam(length_text())),
        old(output)@.len() == data@.len() ==> {
            &&& period < 2 ==> fails(r, Fault::BadParam(rsi_period_text()))
            &&& period >= 2 && data@.len() <= period ==> fails(r, Fault::InsufficientData)
            &&& period >= 2 && data@.len() > period ==> match r {
                Ok(state) => state.closes(final(output)@, data@, period),
                Err(e) => sound_failure(e@, data@, 1),
            }
            &&& exact(ar) && period >= 2 && data@.len() > period ==> {
                &&& decided(
                    match r {
                        Ok(state) => Ok(final(output)@),
                        Err(e) => Err(e@),
                    },
                    data@,
                    rsi_checked(ar, data@, period),
                    1,
                    rsi_values(ar, data@, period),
                )
                &&& r matches Ok(state) ==> state.at_end_of(ar, data@, period)
            }
        },
{
    TechalibError::check_same_length(output, data)?;
    let res = rsi(ar, data, period)?;
    copy_into(&res.values, output);
    Ok(res.state)
}

impl State<Float> for RsiState {
    /// Moves the index on by the change from the last sample to `sample`.
    ///
    /// The checks come in the order of [`RsiState::refusal`]; then the
    /// change and the index are computed, and the first of the two that is
    /// not finite is reported as an overflow at position 0.
    fn update<A: Arith>(&mut self, ar: &A, sample: Float) -> (r: Result<(), TechalibError>)
        ensures
            old(self).refusal(sample) matches Some(fault) ==> fails(r, fault),
            old(self).refusal(sample) is None ==> match r {
                Ok(_) => {
                    &&& final(self).period == old(self).period
                    &&& final(self).prev_value == sample
                    &&& final(self).rsi.finite()
                },
                Err(e) => step_overflow(e@),
            },
            exact(ar) && old(self).refusal(sample) is None ==> {
                let delta = old(self).next_delta(ar, sample);
                let avg = old(self).next_averages(ar, sample);
                let v = old(self).next_rsi(ar, sample);
                if !delta.finite() {
                    fails(r, Fault::Overflow(0, delta))
                } else if !v.finite() {
                    fails(r, Fault::Overflow(0, v))
                } else {
                    &&& r is Ok
                    &&& final(self).rsi == v
                    &&& final(self).avg_gain == avg.0
                    &&& final(self).avg_loss == avg.1
                }
            },
    {
        if self.period <= 1 {
            return Err(TechalibError::bad_param("RSI period must be greater than 1"));
        }
        if !sample.is_finite() {
            return Err(TechalibError::non_finite("sample"));
        }
        if !self.prev_value.is_finite() {
            return Err(TechalibError::non_finite("prev_value"));
        }
        if !self.avg_gain.is_finite() {
            return Err(TechalibError::non_finite("self.avg_gain"));
        }
        if !self.avg_loss.is_finite() {
            return Err(TechalibError::non_finite("self.avg_loss"));
        }
        let delta = ar.sub(sample, self.prev_value);
        if !delta.is_finite() {
            return Err(TechalibError::Overflow(0, delta));
        }
        let (rsi, avg_gain, avg_loss) = rsi_next_unchecked(
            ar,
            delta,
            self.avg_gain,
            self.avg_loss,
            ar.count(self.period),
        );
        if !rsi.is_finite() {
            return Err(TechalibError::Overflow(0, rsi));
        }
        self.rsi = rsi;
        self.prev_value = sample;
        self.avg_gain = avg_gain;
        self.avg_loss = avg_loss;
        Ok(())
    }
}

/// The rises and falls of the first `n` changes are the same for two series
/// that agree on the first `n + 1` samples.
pub proof fn lemma_seed_sums_same<A: Arith>(ar: &A, a: Seq<Float>, b: Seq<Float>, n: nat)
    requires
        forall|j: int| 0 <= j <= n ==> a[j] == b[j],
    ensures
        seed_sums(ar, a, n) == seed_sums(ar, b, n),
    decreases n,
{
    if n > 0 {
        lemma_seed_sums_same(ar, a, b, (n - 1) as nat);
    }
}

/// The averages and the index at a position depend on the samples up to
/// that position only.
pub proof fn lemma_rsi_at_prefix<A: Arith>(
    ar: &A,
    data: Seq<Float>,
    period: usize,
    k: int,
    i: int,
)
    requires
        0 <= i < k <= data.len(),
    ensures
        i >= period ==> averages_at(ar, data.take(k), period, i) == averages_at(
            ar,
            data,
            period,
            i,
        ),
        rsi_at(ar, data.take(k), period, i) == rsi_at(ar, data, period, i),
    decreases i,
{
    if i < period {
    } else if i <= period || i <= 0 {
        lemma_seed_sums_same(ar, data.take(k), data, period as nat);
    } else {
        lemma_rsi_at_prefix(ar, data, period, k, i - 1);
    }
}

/// No lookahead: the index of the first `k` samples is the first `k`
/// positions of the index of the whole series.
pub proof fn lemma_rsi_no_lookahead<A: Arith>(ar: &A, data: Seq<Float>, period: usize, k: int)
    requires
        0 <= k <= data.len(),
    ensures
        rsi_values(ar, data.take(k), period) == rsi_values(ar, data, period).take(k),
{
    assert forall|i: int| 0 <= i < k implies rsi_at(ar, data.take(k), period, i) == rsi_at(
        ar,
        data,
        period,
        i,
    ) by {
        lemma_rsi_at_prefix(ar, data, period, k, i);
    }
    assert(rsi_values(ar, data.take(k), period) =~= rsi_values(ar, data, period).take(k));
}

/// Streaming consistency: from the state after the first `k` samples, the
/// index after sample `k` is the index that is due at position `k` of the
/// series with one sample more.
pub proof fn lemma_rsi_streaming<A: Arith>(
    ar: &A,
    data: Seq<Float>,
    period: usize,
    k: int,
    state: RsiState,
)
    requires
        2 <= period < k < data.len(),
        state.at_end_of(ar, data.take(k), period),
    ensures
        state.next_rsi(ar, data[k]) == rsi_values(ar, data.take(k + 1), period)[k],
        state.next_averages(ar, data[k]) == averages_at(ar, data.take(k + 1), period, k),
        state.next_delta(ar, data[k]) == delta_at(ar, data.take(k + 1), k),
{
    let longer = data.take(k + 1);
    assert(longer.take(k) =~= data.take(k));
    lemma_rsi_at_prefix(ar, longer, period, k, k - 1);
}

/// No lookahead, of the results: where the index of a series comes out,
/// that of its first `k` samples comes out too, and it is the first `k`
/// positions of the index of the whole series. `full` and `part` are what
/// [`rsi`] returns for an exact arithmetic.
pub proof fn lemma_rsi_prefix_result<A: Arith>(
    ar: &A,
    data: Seq<Float>,
    period: usize,
    k: int,
    full: Result<Seq<Float>, Fault>,
    part: Result<Seq<Float>, Fault>,
)
    requires
        0 <= k <= data.len(),
        decided(full, data, rsi_checked(ar, data, period), 1, rsi_values(ar, data, period)),
        decided(
            part,
            data.take(k),
            rsi_checked(ar, data.take(k), period),
            1,
            rsi_values(ar, data.take(k), period),
        ),
        full matches Ok(values),
    ensures
        full matches Ok(values) && part == Ok::<Seq<Float>, Fault>(values.take(k)),
{
    let checked = rsi_checked(ar, data, period);
    let first = rsi_checked(ar, data.take(k), period);
    lemma_rsi_no_lookahead(ar, data, period, k);
    assert forall|i: int| 0 <= i < k && 1 <= i implies #[trigger] first[i] == checked[i] by {
        lemma_rsi_at_prefix(ar, data, period, k, i);
    }
    lemma_prefix_runs_through(
        full,
        part,
        data,
        checked,
        first,
        1,
        k,
        rsi_values(ar, data, period),
        rsi_values(ar, data.take(k), period),
    );
}

/// Streaming consistency, of the results: the state that [`rsi`] returns
/// for the first `k` samples takes sample `k`, where the index of the first
/// `k + 1` samples comes out and the stored averages are finite, and its
/// step gives the index at position `k`. `before`, `state` and `longer` are
/// what [`rsi`] returns for an exact arithmetic; it does not test the
/// averages, which the step does.
pub proof fn lemma_rsi_update_result<A: Arith>(
    ar: &A,
    data: Seq<Float>,
    period: usize,
    k: int,
    before: Seq<Float>,
    state: RsiState,
    longer: Result<Seq<Float>, Fault>,
)
    requires
        2 <= period < k < data.len(),
        state.avg_gain.finite(),
        state.avg_loss.finite(),
        state.closes(before, data.take(k), period),
        state.at_end_of(ar, data.take(k), period),
        decided(
            longer,
            data.take(k + 1),
            rsi_checked(ar, data.take(k + 1), period),
            1,
            rsi_values(ar, data.take(k + 1), period),
        ),
        longer matches Ok(values),
    ensures
        state.refusal(data[k]) is None,
        state.next_delta(ar, data[k]).finite(),
        state.next_rsi(ar, data[k]).finite(),
        longer matches Ok(values) && state.next_rsi(ar, data[k]) == values[k],
        state.next_averages(ar, data[k]) == averages_at(ar, data.take(k + 1), period, k),
{
    let long = data.take(k + 1);
    let checked = rsi_checked(ar, long, period);
    assert(!bad(long, checked, 1, k));
    assert(data.take(k)[k - 1].finite());
    lemma_rsi_streaming(ar, data, period, k, state);
}

} // verus!
