//! Midpoint: the middle between the highest and the lowest of the last
//! `period` samples.
use crate::arith::{exact, plus, times, Arith};
use crate::errors::{fails, length_text, period_text, step_overflow, Fault, TechalibError};
use crate::float::{half, nan, Float, HALF_BITS};
use crate::series::{
    all_finite, bad, clean, copy_into, decided, filled, finite_upto, first_non_finite,
    lemma_decided_at, lemma_decided_ok, lemma_prefix_runs_through, nan_value, shift_window, shifted,
    sound_failure, tail, tail_window,
};
use crate::traits::State;
use std::collections::VecDeque;
use vstd::prelude::*;

verus! {

/// The midpoints of a series and the state that continues them.
#[derive(Debug)]
pub struct MidpointResult {
    /// One value for each sample: NaN before position `period - 1`.
    pub values: Vec<Float>,
    /// The state after the last sample.
    pub state: MidpointState,
}

/// What the next midpoint is computed from.
#[derive(Debug, Clone)]
pub struct MidpointState {
    /// The last midpoint.
    pub midpoint: Float,
    /// The last `period` samples, oldest first.
    pub last_window: VecDeque<Float>,
    pub period: usize,
}

/// The text of the refusal of a window whose length is not the period.
pub open spec fn midpoint_window_text() -> Seq<char> {
    "MIDPOINT state last_window length must be equal to period"@
}

/// The highest and the lowest after `new_value` was looked at: it replaces
/// the lowest if it is below it, else the highest if it is above it.
pub open spec fn pick(new_value: Float, maximum: Float, minimum: Float) -> (Float, Float) {
    if new_value.lt(minimum) {
        (maximum, new_value)
    } else if maximum.lt(new_value) {
        (new_value, minimum)
    } else {
        (maximum, minimum)
    }
}

/// The highest and the lowest of the first `n` samples of `window`, taken
/// in order from the first.
pub open spec fn extrema(window: Seq<Float>, n: nat) -> (Float, Float)
    decreases n,
{
    if n <= 1 {
        (window[0], window[0])
    } else {
        let before = extrema(window, (n - 1) as nat);
        pick(window[n - 1], before.0, before.1)
    }
}

/// The middle between `maximum` and `minimum`: their sum times `0.5`.
pub open spec fn midpoint_of<A: Arith>(ar: &A, maximum: Float, minimum: Float) -> Float {
    times(ar, plus(ar, maximum, minimum), half())
}

/// The `period` samples that end at position `i`.
pub open spec fn window_at(data: Seq<Float>, period: usize, i: int) -> Seq<Float> {
    data.subrange(i + 1 - period, i + 1)
}

/// The midpoint that is due at position `i`: NaN before `period - 1`, then
/// the middle between the highest and the lowest of the window.
pub open spec fn midpoint_at<A: Arith>(ar: &A, data: Seq<Float>, period: usize, i: int) -> Float {
    if i < period - 1 {
        nan()
    } else {
        let ends = extrema(window_at(data, period, i), period as nat);
        midpoint_of(ar, ends.0, ends.1)
    }
}

/// The midpoints that are due for `data`, one for each sample.
pub open spec fn midpoint_values<A: Arith>(ar: &A, data: Seq<Float>, period: usize) -> Seq<Float> {
    Seq::new(data.len(), |i: int| midpoint_at(ar, data, period, i))
}

/// What `r` holds, for [`decided`].
pub open spec fn midpoint_got(r: Result<MidpointResult, TechalibError>) -> Result<
    Seq<Float>,
    Fault,
> {
    match r {
        Ok(res) => Ok(res.values@),
        Err(e) => Err(e@),
    }
}

impl MidpointState {
    /// `values` and the state are a result for `data` and `period`: the
    /// values are NaN before the lookback and finite from there on, every
    /// sample is finite, and the state holds the last value and the last
    /// `period` samples.
    pub open spec fn closes(&self, values: Seq<Float>, data: Seq<Float>, period: usize) -> bool {
        &&& filled(values, data.len(), (period - 1) as nat)
        &&& all_finite(data)
        &&& self.period == period
        &&& self.last_window@ == tail(data, period)
        &&& self.midpoint == values[data.len() - 1]
    }

    /// Why the state refuses `sample` before anything is computed, if it
    /// does: the first of these that holds.
    pub open spec fn refusal(&self, sample: Float) -> Option<Fault> {
        if self.period <= 1 {
            Some(Fault::BadParam(period_text()))
        } else if self.last_window@.len() != self.period {
            Some(Fault::BadParam(midpoint_window_text()))
        } else if !sample.finite() {
            Some(Fault::DataNonFinite("sample"@))
        } else if !all_finite(self.last_window@) {
            Some(Fault::DataNonFinite("window"@))
        } else {
            None
        }
    }

    /// The midpoint after `sample`: that of the window with `sample` in it.
    pub open spec fn next_midpoint<A: Arith>(&self, ar: &A, sample: Float) -> Float {
        let ends = extrema(shifted(self.last_window@, sample), self.period as nat);
        midpoint_of(ar, ends.0, ends.1)
    }
}

/// The number of leading output positions without a value: `period - 1`. A
/// period below 2 is refused.
pub fn lookback_from_period(period: usize) -> (r: Result<usize, TechalibError>)
    ensures
        period >= 2 ==> (r matches Ok(lookback) && lookback == period - 1),
        period < 2 ==> fails(r, Fault::BadParam(period_text())),
{
    if period <= 1 {
        return Err(TechalibError::bad_param("Period must be greater than 1"));
    }
    Ok(period - 1)
}

/// The highest and the lowest after `new_value` was looked at: see [`pick`].
pub fn minmax(new_value: Float, maximum: Float, minimum: Float) -> (r: (Float, Float))
    ensures
        r == pick(new_value, maximum, minimum),
{
    if new_value.less_than(minimum) {
        (maximum, new_value)
    } else if new_value.greater_than(maximum) {
        (new_value, minimum)
    } else {
        (maximum, minimum)
    }
}

/// The middle between `maximum` and `minimum`.
pub fn calculate_midpoint<A: Arith>(ar: &A, maximum: Float, minimum: Float) -> (r: Float)
    ensures
        exact(ar) ==> r == midpoint_of(ar, maximum, minimum),
{
    ar.mul(ar.add(maximum, minimum), Float { bits: HALF_BITS })
}

/// The highest and the lowest of the `count` samples of `data` from
/// position `start` on.
pub fn extrema_of(data: &[Float], start: usize, count: usize) -> (r: (Float, Float))
    requires
        count >= 1,
        start + count <= data@.len(),
    ensures
        r == extrema(data@.subrange(start as int, start + count), count as nat),
{
    let ghost window = data@.subrange(start as int, start + count);
    let len = data.len();
    let mut maximum = data[start];
    let mut minimum = maximum;
    let mut taken: usize = 1;
    while taken < count
        invariant
            1 <= taken <= count,
            start + count <= len == data@.len(),
            window == data@.subrange(start as int, start + count),
            (maximum, minimum) == extrema(window, taken as nat),
        decreases count - taken,
    {
        let ends = minmax(data[start + taken], maximum, minimum);
        maximum = ends.0;
        minimum = ends.1;
        taken += 1;
    }
    (maximum, minimum)
}

/// The midpoint of a window of at least one sample.
pub fn midpoint_next_unchecked<A: Arith>(ar: &A, last_window: &VecDeque<Float>) -> (r: Float)
    requires
        last_window@.len() >= 1,
    ensures
        exact(ar) ==> r == midpoint_of(
            ar,
            extrema(last_window@, last_window@.len()).0,
            extrema(last_window@, last_window@.len()).1,
        ),
{
    let mut maximum = last_window[0];
    let mut minimum = maximum;
    let mut taken: usize = 1;
    while taken < last_window.len()
        invariant
            1 <= taken <= last_window@.len(),
            (maximum, minimum) == extrema(last_window@, taken as nat),
        decreases last_window@.len() - taken,
    {
        let ends = minmax(last_window[taken], maximum, minimum);
        maximum = ends.0;
        minimum = ends.1;
        taken += 1;
    }
    calculate_midpoint(ar, maximum, minimum)
}

/// The midpoint of `data` over `period` samples.
///
/// A period below 2 is refused, then a series shorter than the period. The
/// samples are then taken in order: the first that is not finite, or whose
/// midpoint is not finite, ends the calculation with its report.
pub fn midpoint<A: Arith>(ar: &A, data: &[Float], period: usize) -> (r: Result<
    MidpointResult,
    TechalibError,
>)
    ensures
        period < 2 ==> fails(r, Fault::BadParam(period_text())),
        period >= 2 && data@.len() < period ==> fails(r, Fault::InsufficientData),
        period >= 2 && data@.len() >= period ==> match r {
            Ok(res) => res.state.closes(res.values@, data@, period),
            Err(e) => sound_failure(e@, data@, period - 1),
        },
        exact(ar) && period >= 2 && data@.len() >= period ==> decided(
            midpoint_got(r),
            data@,
            midpoint_values(ar, data@, period),
            period - 1,
            midpoint_values(ar, data@, period),
        ),
{
    let len = data.len();
    let lookback = lookback_from_period(period)?;
    if len <= lookback {
        return Err(TechalibError::InsufficientData);
    }
    let ghost ideal = midpoint_values(ar, data@, period);
    let mut values: Vec<Float> = Vec::new();
    let mut prev = nan_value();
    let mut idx: usize = 0;
    while idx < len
        invariant
            period >= 2,
            lookback == period - 1,
            lookback < len,
            len == data@.len(),
            idx <= len,
            ideal == midpoint_values(ar, data@, period),
            finite_upto(data@, idx as int),
            filled(values@, idx as nat, lookback as nat),
            idx > lookback ==> prev == values@[idx - 1],
            exact(ar) ==> clean(data@, ideal, lookback as int, idx as int),
            exact(ar) ==> values@ == ideal.take(idx as int),
        decreases len - idx,
    {
        if !data[idx].is_finite() {
            proof {
                if exact(ar) {
                    assert(bad(data@, ideal, lookback as int, idx as int));
                    lemma_decided_at(
                        Err::<Seq<Float>, Fault>(Fault::DataNonFinite("data"@)),
                        data@,
                        ideal,
                        lookback as int,
                        ideal,
                        idx as int,
                    );
                }
            }
            return Err(TechalibError::non_finite("data"));
        }
        if idx < lookback {
            values.push(nan_value());
            proof {
                if exact(ar) {
                    assert(!bad(data@, ideal, lookback as int, idx as int));
                    assert(values@ =~= ideal.take(idx + 1));
                }
            }
        } else {
            let ends = extrema_of(data, idx - lookback, period);
            let value = calculate_midpoint(ar, ends.0, ends.1);
            proof {
                if exact(ar) {
                    assert(value == ideal[idx as int]);
                }
            }
            if !value.is_finite() {
                proof {
                    if exact(ar) {
                        assert(bad(data@, ideal, lookback as int, idx as int));
                        lemma_decided_at(
                            Err::<Seq<Float>, Fault>(Fault::Overflow(idx, value)),
                            data@,
                            ideal,
                            lookback as int,
                            ideal,
                            idx as int,
                        );
                    }
                }
                return Err(TechalibError::Overflow(idx, value));
            }
            values.push(value);
            prev = value;
            proof {
                if exact(ar) {
                    assert(!bad(data@, ideal, lookback as int, idx as int));
                    assert(values@ =~= ideal.take(idx + 1));
                }
            }
        }
        idx += 1;
    }
    let state = MidpointState { midpoint: prev, last_window: tail_window(data, period), period };
    proof {
        if exact(ar) {
            assert(ideal.take(len as int) == ideal);
            lemma_decided_ok(data@, ideal, lookback as int, ideal);
        }
    }
    Ok(MidpointResult { values, state })
}

/// The midpoint of `data`, written into `output`. An output whose length is
/// not that of the input is refused first. Where the calculation fails,
/// `output` is left as it was.
pub fn midpoint_into<A: Arith>(ar: &A, data: &[Float], period: usize, output: &mut [Float]) -> (r:
    Result<MidpointState, TechalibError>)
    ensures
        final(output)@.len() == old(output)@.len(),
        r is Err ==> final(output)@ == old(output)@,
        old(output)@.len() != data@.len() ==> fails(r, Fault::BadParam(length_text())),
        old(output)@.len() == data@.len() ==> {
            &&& period < 2 ==> fails(r, Fault::BadParam(period_text()))
            &&& period >= 2 && data@.len() < period ==> fails(r, Fault::InsufficientData)
            &&& period >= 2 && data@.len() >= period ==> match r {
                Ok(state) => state.closes(final(output)@, data@, period),
                Err(e) => sound_failure(e@, data@, period - 1),
            }
            &&& exact(ar) && period >= 2 && data@.len() >= period ==> decided(
                match r {
                    Ok(state) => Ok(final(output)@),
                    Err(e) => Err(e@),
                },
                data@,
                midpoint_values(ar, data@, period),
                period - 1,
                midpoint_values(ar, data@, period),
            )
        },
{
    TechalibError::check_same_length(output, data)?;
    let res = midpoint(ar, data, period)?;
    copy_into(&res.values, output);
    Ok(res.state)
}

impl State<Float> for MidpointState {
    /// Takes `sample` into the window and sets the midpoint to that of the
    /// new window.
    ///
    /// The checks come in the order of [`MidpointState::refusal`]; then the
    /// midpoint is computed, and one that is not finite is reported as an
    /// overflow at position 0.
    fn update<A: Arith>(&mut self, ar: &A, sample: Float) -> (r: Result<(), TechalibError>)
        ensures
            old(self).refusal(sample) matches Some(fault) ==> fails(r, fault),
            old(self).refusal(sample) is None ==> match r {
                Ok(_) => {
                    &&& final(self).period == old(self).period
                    &&& final(self).last_window@ == shifted(old(self).last_window@, sample)
                    &&& final(self).midpoint.finite()
                },
                Err(e) => step_overflow(e@),
            },
            exact(ar) && old(self).refusal(sample) is None ==> {
                let v = old(self).next_midpoint(ar, sample);
                if v.finite() {
                    r is Ok && final(self).midpoint == v
                } else {
                    fails(r, Fault::Overflow(0, v))
                }
            },
    {
        if self.period <= 1 {
            return Err(TechalibError::bad_param("Period must be greater than 1"));
        }
        if self.last_window.len() != self.period {
            return Err(
                TechalibError::bad_param(
                    "MIDPOINT state last_window length must be equal to period",
                ),
            );
        }
        if !sample.is_finite() {
            return Err(TechalibError::non_finite("sample"));
        }
        if first_non_finite(&self.last_window).is_some() {
            return Err(TechalibError::non_finite("window"));
        }
        let window = shift_window(&self.last_window, sample);
        let mid_point = midpoint_next_unchecked(ar, &window);
        if !mid_point.is_finite() {
            return Err(TechalibError::Overflow(0, mid_point));
        }
        self.last_window = window;
        self.midpoint = mid_point;
        Ok(())
    }
}

/// The highest and the lowest of a window of finite samples are samples of
/// the window, and every sample of the window lies between them.
pub proof fn lemma_extrema_bounds(window: Seq<Float>, n: nat)
    requires
        1 <= n <= window.len(),
        all_finite(window),
    ensures
        exists|a: int| 0 <= a < n && window[a] == extrema(window, n).0,
        exists|b: int| 0 <= b < n && window[b] == extrema(window, n).1,
        forall|j: int|
            0 <= j < n ==> extrema(window, n).1.le(#[trigger] window[j]) && window[j].le(
                extrema(window, n).0,
            ),
    decreases n,
{
    if n <= 1 {
        assert(window[0] == extrema(window, n).0);
        assert(window[0].finite());
    } else {
        lemma_extrema_bounds(window, (n - 1) as nat);
        let before = extrema(window, (n - 1) as nat);
        let a = choose|a: int| 0 <= a < n - 1 && window[a] == before.0;
        let b = choose|b: int| 0 <= b < n - 1 && window[b] == before.1;
        let last = window[n - 1];
        assert(last.finite());
        assert(window[a].finite() && window[b].finite());
        assert(before.1.le(window[a]));
        if last.lt(before.1) {
            assert(window[n - 1] == extrema(window, n).1);
            assert(window[a] == extrema(window, n).0);
        } else if before.0.lt(last) {
            assert(window[n - 1] == extrema(window, n).0);
            assert(window[b] == extrema(window, n).1);
        } else {
            assert(window[a] == extrema(window, n).0);
            assert(window[b] == extrema(window, n).1);
        }
        assert forall|j: int| 0 <= j < n implies extrema(window, n).1.le(#[trigger] window[j])
            && window[j].le(extrema(window, n).0) by {
            assert(window[j].finite());
            if j < n - 1 {
                assert(before.1.le(window[j]) && window[j].le(before.0));
            }
        }
    }
}

/// No lookahead: the midpoints of the first `k` samples are the first `k`
/// midpoints of the whole series.
pub proof fn lemma_midpoint_no_lookahead<A: Arith>(
    ar: &A,
    data: Seq<Float>,
    period: usize,
    k: int,
)
    requires
        period >= 1,
        0 <= k <= data.len(),
    ensures
        midpoint_values(ar, data.take(k), period) == midpoint_values(ar, data, period).take(k),
{
    assert forall|i: int| 0 <= i < k implies midpoint_at(ar, data.take(k), period, i)
        == midpoint_at(ar, data, period, i) by {
        if i >= period - 1 {
            assert(window_at(data.take(k), period, i) =~= window_at(data, period, i));
        }
    }
    assert(midpoint_values(ar, data.take(k), period) =~= midpoint_values(ar, data, period).take(
        k,
    ));
}

/// Streaming consistency: from a state that holds the last `period` of the
/// first `k` samples, the midpoint after sample `k` is the midpoint that is
/// due at position `k` of the series with one sample more.
pub proof fn lemma_midpoint_streaming<A: Arith>(
    ar: &A,
    data: Seq<Float>,
    period: usize,
    k: int,
    state: MidpointState,
)
    requires
        2 <= period <= k < data.len(),
        state.period == period,
        state.last_window@ == tail(data.take(k), period),
    ensures
        state.next_midpoint(ar, data[k]) == midpoint_values(ar, data.take(k + 1), period)[k],
        shifted(state.last_window@, data[k]) == tail(data.take(k + 1), period),
{
    let longer = data.take(k + 1);
    assert(shifted(state.last_window@, data[k]) =~= window_at(longer, period, k));
    assert(shifted(state.last_window@, data[k]) =~= tail(longer, period));
}

/// No lookahead, of the results: where the midpoints of a series come out,
/// those of its first `k` samples come out too, and they are the first `k`
/// of the whole series. `full` and `part` are what [`midpoint`] returns for an
/// exact arithmetic.
pub proof fn lemma_midpoint_prefix_result<A: Arith>(
    ar: &A,
    data: Seq<Float>,
    period: usize,
    k: int,
    full: Result<Seq<Float>, Fault>,
    part: Result<Seq<Float>, Fault>,
)
    requires
        period >= 1,
        0 <= k <= data.len(),
        decided(
            full,
            data,
            midpoint_values(ar, data, period),
            period - 1,
            midpoint_values(ar, data, period),
        ),
        decided(
            part,
            data.take(k),
            midpoint_values(ar, data.take(k), period),
            period - 1,
            midpoint_values(ar, data.take(k), period),
        ),
        full matches Ok(values),
    ensures
        full matches Ok(values) && part == Ok::<Seq<Float>, Fault>(values.take(k)),
{
    let whole = midpoint_values(ar, data, period);
    let first = midpoint_values(ar, data.take(k), period);
    lemma_midpoint_no_lookahead(ar, data, period, k);
    assert forall|i: int| 0 <= i < k implies #[trigger] first[i] == whole[i] by {
        assert(whole.take(k)[i] == whole[i]);
    }
    lemma_prefix_runs_through(full, part, data, whole, first, period - 1, k, whole, first);
}

/// Streaming consistency, of the results: the state that [`midpoint`]
/// returns for the first `k` samples takes sample `k`, where the midpoints
/// of the first `k + 1` samples come out, and its step gives the midpoint
/// at position `k`. `before`, `state` and `longer` are what [`midpoint`]
/// returns for an exact arithmetic.
pub proof fn lemma_midpoint_update_result<A: Arith>(
    ar: &A,
    data: Seq<Float>,
    period: usize,
    k: int,
    before: Seq<Float>,
    state: MidpointState,
    longer: Result<Seq<Float>, Fault>,
)
    requires
        2 <= period <= k < data.len(),
        state.closes(before, data.take(k), period),
        decided(
            longer,
            data.take(k + 1),
            midpoint_values(ar, data.take(k + 1), period),
            period - 1,
            midpoint_values(ar, data.take(k + 1), period),
        ),
        longer matches Ok(values),
    ensures
        state.refusal(data[k]) is None,
        state.next_midpoint(ar, data[k]).finite(),
        longer matches Ok(values) && state.next_midpoint(ar, data[k]) == values[k],
        shifted(state.last_window@, data[k]) == tail(data.take(k + 1), period),
{
    let long = data.take(k + 1);
    let ideal = midpoint_values(ar, long, period);
    assert(!bad(long, ideal, period - 1, k));
    let window = state.last_window@;
    assert forall|i: int| 0 <= i < window.len() implies (#[trigger] window[i]).finite() by {
        assert(data.take(k)[k - period + i].finite());
    }
    lemma_midpoint_streaming(ar, data, period, k, state);
}

} // verus!
