//! Midprice: the middle between the highest high and the lowest low of the
//! last `period` samples.
use crate::arith::{exact, plus, times, Arith};
use crate::errors::{fails, length_text, period_text, step_overflow, Fault, TechalibError};
use crate::float::{half, nan, Float, HALF_BITS};
use crate::series::{
    all_finite, bad, clean, copy_into, decided, filled, finite_upto, first_non_finite,
    lemma_decided_at, lemma_decided_ok, lemma_prefix_runs_through, nan_value, shift_window, shifted,
    sound_failure, tail, tail_window,
};
use crate::traits::State;
use std::collections::VecDeque;
use vstd::prelude::*;

verus! {

/// The midprices of a series and the state that continues them.
#[derive(Debug)]
pub struct MidpriceResult {
    /// One value for each sample: NaN before position `period - 1`.
    pub values: Vec<Float>,
    /// The state after the last sample.
    pub state: MidpriceState,
}

/// What the next midprice is computed from.
#[derive(Debug, Clone)]
pub struct MidpriceState {
    /// The last midprice.
    pub midprice: Float,
    /// The last `period` highs, oldest first.
    pub last_high_window: VecDeque<Float>,
    /// The last `period` lows, oldest first.
    pub last_low_window: VecDeque<Float>,
    pub period: usize,
}

/// One sample: the high and the low of a time step.
pub struct MidpriceSample {
    pub high: Float,
    pub low: Float,
}

/// The text of the refusal of a window of highs whose length is not the
/// period.
pub open spec fn high_window_text() -> Seq<char> {
    "MIDPRICE state last_high_window length must be equal to period"@
}

/// The text of the refusal of a window of lows whose length is not the
/// period.
pub open spec fn low_window_text() -> Seq<char> {
    "MIDPRICE state last_low_window length must be equal to period"@
}

/// The highest high and the lowest low after one more sample was looked at.
pub open spec fn pick(high_value: Float, low_value: Float, maximum: Float, minimum: Float) -> (
    Float,
    Float,
) {
    (
        if maximum.lt(high_value) {
            high_value
        } else {
            maximum
        },
        if low_value.lt(minimum) {
            low_value
        } else {
            minimum
        },
    )
}

/// The highest of the first `n` highs and the lowest of the first `n` lows,
/// taken in order from the first.
pub open spec fn extrema(highs: Seq<Float>, lows: Seq<Float>, n: nat) -> (Float, Float)
    decreases n,
{
    if n <= 1 {
        (highs[0], lows[0])
    } else {
        let before = extrema(highs, lows, (n - 1) as nat);
        pick(highs[n - 1], lows[n - 1], before.0, before.1)
    }
}

/// The middle between `maximum` and `minimum`: their sum times `0.5`.
pub open spec fn midprice_of<A: Arith>(ar: &A, maximum: Float, minimum: Float) -> Float {
    times(ar, plus(ar, maximum, minimum), half())
}

/// The `period` samples that end at position `i`.
pub open spec fn window_at(data: Seq<Float>, period: usize, i: int) -> Seq<Float> {
    data.subrange(i + 1 - period, i + 1)
}

/// The midprice that is due at position `i`: NaN before `period - 1`, then
/// the middle between the highest high and the lowest low of the window.
pub open spec fn midprice_at<A: Arith>(
    ar: &A,
    highs: Seq<Float>,
    lows: Seq<Float>,
    period: usize,
    i: int,
) -> Float {
    if i < period - 1 {
        nan()
    } else {
        let ends = extrema(
            window_at(highs, period, i),
            window_at(lows, period, i),
            period as nat,
        );
        midprice_of(ar, ends.0, ends.1)
    }
}

/// The midprices that are due for the two series, one for each sample.
pub open spec fn midprice_values<A: Arith>(
    ar: &A,
    highs: Seq<Float>,
    lows: Seq<Float>,
    period: usize,
) -> Seq<Float> {
    Seq::new(highs.len(), |i: int| midprice_at(ar, highs, lows, period, i))
}

/// For each position the high if it is not finite, else the low: the value
/// that is not finite where one of the two is not.
pub open spec fn worse(highs: Seq<Float>, lows: Seq<Float>) -> Seq<Float> {
    Seq::new(
        highs.len(),
        |i: int|
            if !highs[i].finite() {
                highs[i]
            } else {
                lows[i]
            },
    )
}

/// What `r` holds, for [`decided`].
pub open spec fn midprice_got(r: Result<MidpriceResult, TechalibError>) -> Result<
    Seq<Float>,
    Fault,
> {
    match r {
        Ok(res) => Ok(res.values@),
        Err(e) => Err(e@),
    }
}

impl MidpriceState {
    /// `values` and the state are a result for the two series and `period`:
    /// the values are NaN before the lookback and finite from there on,
    /// every high and low is finite, and the state holds the last value and
    /// the last `period` highs and lows.
    pub open spec fn closes(
        &self,
        values: Seq<Float>,
        highs: Seq<Float>,
        lows: Seq<Float>,
        period: usize,
    ) -> bool {
        &&& filled(values, highs.len(), (period - 1) as nat)
        &&& all_finite(highs)
        &&& all_finite(lows)
        &&& self.period == period
        &&& self.last_high_window@ == tail(highs, period)
        &&& self.last_low_window@ == tail(lows, period)
        &&& self.midprice == values[highs.len() - 1]
    }

    /// Why the state refuses `sample` before anything is computed, if it
    /// does: the first of these that holds.
    pub open spec fn refusal(&self, sample: &MidpriceSample) -> Option<Fault> {
        if self.period <= 1 {
            Some(Fault::BadParam(period_text()))
        } else if self.last_high_window@.len() != self.period {
            Some(Fault::BadParam(high_window_text()))
        } else if self.last_low_window@.len() != self.period {
            Some(Fault::BadParam(low_window_text()))
        } else if !sample.high.finite() {
            Some(Fault::DataNonFinite("sample.high"@))
        } else if !sample.low.finite() {
            Some(Fault::DataNonFinite("sample.low"@))
        } else if !all_finite(self.last_high_window@) {
            Some(Fault::DataNonFinite("last_high_window"@))
        } else if !all_finite(self.last_low_window@) {
            Some(Fault::DataNonFinite("last_low_window"@))
        } else {
            None
        }
    }

    /// The midprice after `sample`: that of the windows with `sample` in
    /// them.
    pub open spec fn next_midprice<A: Arith>(&self, ar: &A, sample: &MidpriceSample) -> Float {
        let ends = extrema(
            shifted(self.last_high_window@, sample.high),
            shifted(self.last_low_window@, sample.low),
            self.period as nat,
        );
        midprice_of(ar, ends.0, ends.1)
    }
}

/// The number of leading output positions without a value: `period - 1`. A
/// period below 2 is refused.
pub fn lookback_from_period(period: usize) -> (r: Result<usize, TechalibError>)
    ensures
        period >= 2 ==> (r matches Ok(lookback) && lookback == period - 1),
        period < 2 ==> fails(r, Fault::BadParam(period_text())),
{
    if period <= 1 {
        return Err(TechalibError::bad_param("Period must be greater than 1"));
    }
    Ok(period - 1)
}

/// The highest high and the lowest low after one more sample was looked at:
/// see [`pick`].
pub fn minmax(high_value: Float, low_value: Float, maximum: Float, minimum: Float) -> (r: (
    Float,
    Float,
))
    ensures
        r == pick(high_value, low_value, maximum, minimum),
{
    (
        if high_value.greater_than(maximum) {
            high_value
        } else {
            maximum
        },
        if low_value.less_than(minimum) {
            low_value
        } else {
            minimum
        },
    )
}

/// The middle between `maximum` and `minimum`.
pub fn calculate_midprice<A: Arith>(ar: &A, maximum: Float, minimum: Float) -> (r: Float)
    ensures
        exact(ar) ==> r == midprice_of(ar, maximum, minimum),
{
    ar.mul(ar.add(maximum, minimum), Float { bits: HALF_BITS })
}

/// The highest high and the lowest low of the `count` samples from position
/// `start` on.
pub fn extrema_of(high_prices: &[Float], low_prices: &[Float], start: usize, count: usize) -> (r: (
    Float,
    Float,
))
    requires
        count >= 1,
        high_prices@.len() == low_prices@.len(),
        start + count <= high_prices@.len(),
    ensures
        r == extrema(
            high_prices@.subrange(start as int, start + count),
            low_prices@.subrange(start as int, start + count),
            count as nat,
        ),
{
    let ghost highs = high_prices@.subrange(start as int, start + count);
    let ghost lows = low_prices@.subrange(start as int, start + count);
    let len = high_prices.len();
    let mut maximum = high_prices[start];
    let mut minimum = low_prices[start];
    let mut taken: usize = 1;
    while taken < count
        invariant
            1 <= taken <= count,
            start + count <= len == high_prices@.len() == low_prices@.len(),
            highs == high_prices@.subrange(start as int, start + count),
            lows == low_prices@.subrange(start as int, start + count),
            (maximum, minimum) == extrema(highs, lows, taken as nat),
        decreases count - taken,
    {
        let ends = minmax(high_prices[start + taken], low_prices[start + taken], maximum, minimum);
        maximum = ends.0;
        minimum = ends.1;
        taken += 1;
    }
    (maximum, minimum)
}

/// The midprice of two windows of one length, of at least one sample.
pub fn midprice_next_unchecked<A: Arith>(
    ar: &A,
    last_high_window: &VecDeque<Float>,
    last_low_window: &VecDeque<Float>,
) -> (r: Float)
    requires
        last_high_window@.len() >= 1,
        last_high_window@.len() == last_low_window@.len(),
    ensures
        exact(ar) ==> r == midprice_of(
            ar,
            extrema(last_high_window@, last_low_window@, last_high_window@.len()).0,
            extrema(last_high_window@, last_low_window@, last_high_window@.len()).1,
        ),
{
    let mut maximum = last_high_window[0];
    let mut minimum = last_low_window[0];
    let mut taken: usize = 1;
    while taken < last_high_window.len()
        invariant
            1 <= taken <= last_high_window@.len(),
            last_high_window@.len() == last_low_window@.len(),
            (maximum, minimum) == extrema(last_high_window@, last_low_window@, taken as nat),
        decreases last_high_window@.len() - taken,
    {
        let ends = minmax(last_high_window[taken], last_low_window[taken], maximum, minimum);
        maximum = ends.0;
        minimum = ends.1;
        taken += 1;
    }
    calculate_midprice(ar, maximum, minimum)
}

/// The midprice of the highs and lows over `period` samples.
///
/// Two series of different lengths are refused, then a period below 2,
/// then series shorter than the period. The samples are then taken in
/// order: the first whose high or low is not finite, or whose midprice is
/// not finite, ends the calculation with its report.
pub fn midprice<A: Arith>(
    ar: &A,
    high_prices: &[Float],
    low_prices: &[Float],
    period: usize,
) -> (r: Result<MidpriceResult, TechalibError>)
    ensures
        high_prices@.len() != low_prices@.len() ==> fails(r, Fault::BadParam(length_text())),
        high_prices@.len() == low_prices@.len() ==> {
            &&& period < 2 ==> fails(r, Fault::BadParam(period_text()))
            &&& period >= 2 && high_prices@.len() < period ==> fails(r, Fault::InsufficientData)
            &&& period >= 2 && high_prices@.len() >= period ==> match r {
                Ok(res) => res.state.closes(res.values@, high_prices@, low_prices@, period),
                Err(e) => sound_failure(e@, worse(high_prices@, low_prices@), period - 1),
            }
            &&& exact(ar) && period >= 2 && high_prices@.len() >= period ==> decided(
                midprice_got(r),
                worse(high_prices@, low_prices@),
                midprice_values(ar, high_prices@, low_prices@, period),
                period - 1,
                midprice_values(ar, high_prices@, low_prices@, period),
            )
        },
{
    TechalibError::check_same_length(high_prices, low_prices)?;
    let len = high_prices.len();
    let lookback = lookback_from_period(period)?;
    if len <= lookback {
        return Err(TechalibError::InsufficientData);
    }
    let ghost data = worse(high_prices@, low_prices@);
    let ghost ideal = midprice_values(ar, high_prices@, low_prices@, period);
    let mut values: Vec<Float> = Vec::new();
    let mut prev = nan_value();
    let mut idx: usize = 0;
    while idx < len
        invariant
            period >= 2,
            lookback == period - 1,
            lookback < len,
            len == high_prices@.len() == low_prices@.len(),
            idx <= len,
            data == worse(high_prices@, low_prices@),
            ideal == midprice_values(ar, high_prices@, low_prices@, period),
            finite_upto(high_prices@, idx as int),
            finite_upto(low_prices@, idx as int),
            finite_upto(data, idx as int),
            filled(values@, idx as nat, lookback as nat),
            idx > lookback ==> prev == values@[idx - 1],
            exact(ar) ==> clean(data, ideal, lookback as int, idx as int),
            exact(ar) ==> values@ == ideal.take(idx as int),
        decreases len - idx,
    {
        if !high_prices[idx].is_finite() || !low_prices[idx].is_finite() {
            proof {
                assert(!data[idx as int].finite());
                if exact(ar) {
                    assert(bad(data, ideal, lookback as int, idx as int));
                    lemma_decided_at(
                        Err::<Seq<Float>, Fault>(Fault::DataNonFinite("data"@)),
                        data,
                        ideal,
                        lookback as int,
                        ideal,
                        idx as int,
                    );
                }
            }
            return Err(TechalibError::non_finite("data"));
        }
        proof {
            assert(data[idx as int].finite());
        }
        if idx < lookback {
            values.push(nan_value());
            proof {
                if exact(ar) {
                    assert(!bad(data, ideal, lookback as int, idx as int));
                    assert(values@ =~= ideal.take(idx + 1));
                }
            }
        } else {
            let ends = extrema_of(high_prices, low_prices, idx - lookback, period);
            let value = calculate_midprice(ar, ends.0, ends.1);
            proof {
                if exact(ar) {
                    assert(value == ideal[idx as int]);
                }
            }
            if !value.is_finite() {
                proof {
                    if exact(ar) {
                        assert(bad(data, ideal, lookback as int, idx as int));
                        lemma_decided_at(
                            Err::<Seq<Float>, Fault>(Fault::Overflow(idx, value)),
                            data,
                            ideal,
                            lookback as int,
                            ideal,
                            idx as int,
                        );
                    }
                }
                return Err(TechalibError::Overflow(idx, value));
            }
            values.push(value);
            prev = value;
            proof {
                if exact(ar) {
                    assert(!bad(data, ideal, lookback as int, idx as int));
                    assert(values@ =~= ideal.take(idx + 1));
                }
            }
        }
        idx += 1;
    }
    let state = MidpriceState {
        midprice: prev,
        last_high_window: tail_window(high_prices, period),
        last_low_window: tail_window(low_prices, period),
        period,
    };
    proof {
        if exact(ar) {
            assert(ideal.take(len as int) == ideal);
            lemma_decided_ok(data, ideal, lookback as int, ideal);
        }
    }
    Ok(MidpriceResult { values, state })
}

/// The midprice of the highs and lows, written into `output`. Series of
/// different lengths are refused first, then an output whose length is not
/// theirs. Where the calculation fails, `output` is left as it was.
pub fn midprice_into<A: Arith>(
    ar: &A,
    high_prices: &[Float],
    low_prices: &[Float],
    period: usize,
    output: &mut [Float],
) -> (r: Result<MidpriceState, TechalibError>)
    ensures
        final(output)@.len() == old(output)@.len(),
        r is Err ==> final(output)@ == old(output)@,
        high_prices@.len() != low_prices@.len() || old(output)@.len() != high_prices@.len()
            ==> fails(r, Fault::BadParam(length_text())),
        high_prices@.len() == low_prices@.len() && old(output)@.len() == high_prices@.len() ==> {
            &&& period < 2 ==> fails(r, Fault::BadParam(period_text()))
            &&& period >= 2 && high_prices@.len() < period ==> fails(r, Fault::InsufficientData)
            &&& period >= 2 && high_prices@.len() >= period ==> match r {
                Ok(state) => state.closes(final(output)@, high_prices@, low_prices@, period),
                Err(e) => sound_failure(e@, worse(high_prices@, low_prices@), period - 1),
            }
            &&& exact(ar) && period >= 2 && high_prices@.len() >= period ==> decided(
                match r {
                    Ok(state) => Ok(final(output)@),
                    Err(e) => Err(e@),
                },
                worse(high_prices@, low_prices@),
                midprice_values(ar, high_prices@, low_prices@, period),
                period - 1,
                midprice_values(ar, high_prices@, low_prices@, period),
            )
        },
{
    TechalibError::check_same_length(high_prices, low_prices)?;
    TechalibError::check_same_length(output, high_prices)?;
    let res = midprice(ar, high_prices, low_prices, period)?;
    copy_into(&res.values, output);
    Ok(res.state)
}

impl<'a> State<&'a MidpriceSample> for MidpriceState {
    /// Takes `sample` into the windows and sets the midprice to that of the
    /// new windows.
    ///
    /// The checks come in the order of [`MidpriceState::refusal`]; then the
    /// midprice is computed, and one that is not finite is reported as an
    /// overflow at position 0.
    fn update<A: Arith>(&mut self, ar: &A, sample: &'a MidpriceSample) -> (r: Result<
        (),
        TechalibError,
    >)
        ensures
            old(self).refusal(sample) matches Some(fault) ==> fails(r, fault),
            old(self).refusal(sample) is None ==> match r {
                Ok(_) => {
                    &&& final(self).period == old(self).period
                    &&& final(self).last_high_window@ == shifted(
                        old(self).last_high_window@,
                        sample.high,
                    )
                    &&& final(self).last_low_window@ == shifted(
                        old(self).last_low_window@,
                        sample.low,
                    )
                    &&& final(self).midprice.finite()
                },
                Err(e) => step_overflow(e@),
            },
            exact(ar) && old(self).refusal(sample) is None ==> {
                let v = old(self).next_midprice(ar, sample);
                if v.finite() {
                    r is Ok && final(self).midprice == v
                } else {
                    fails(r, Fault::Overflow(0, v))
                }
            },
    {
        if self.period <= 1 {
            return Err(TechalibError::bad_param("Period must be greater than 1"));
        }
        if self.last_high_window.len() != self.period {
            return Err(
                TechalibError::bad_param(
                    "MIDPRICE state last_high_window length must be equal to period",
                ),
            );
        }
        if self.last_low_window.len() != self.period {
            return Err(
                TechalibError::bad_param(
                    "MIDPRICE state last_low_window length must be equal to period",
                ),
            );
        }
        if !sample.high.is_finite() {
            return Err(TechalibError::non_finite("sample.high"));
        }
        if !sample.low.is_finite() {
            return Err(TechalibError::non_finite("sample.low"));
        }
        if first_non_finite(&self.last_high_window).is_some() {
            return Err(TechalibError::non_finite("last_high_window"));
        }
        if first_non_finite(&self.last_low_window).is_some() {
            return Err(TechalibError::non_finite("last_low_window"));
        }
        let high_window = shift_window(&self.last_high_window, sample.high);
        let low_window = shift_window(&self.last_low_window, sample.low);
        let mid_price = midprice_next_unchecked(ar, &high_window, &low_window);
        if !mid_price.is_finite() {
            return Err(TechalibError::Overflow(0, mid_price));
        }
        self.last_high_window = high_window;
        self.last_low_window = low_window;
        self.midprice = mid_price;
        Ok(())
    }
}

/// The highest high and the lowest low of windows of finite samples are
/// samples of their windows, no high of the window is above the first and
/// no low of the window is below the second.
pub proof fn lemma_extrema_bounds(highs: Seq<Float>, lows: Seq<Float>, n: nat)
    requires
        1 <= n <= highs.len(),
        n <= lows.len(),
        all_finite(highs),
        all_finite(lows),
    ensures
        exists|a: int| 0 <= a < n && highs[a] == extrema(highs, lows, n).0,
        exists|b: int| 0 <= b < n && lows[b] == extrema(highs, lows, n).1,
        forall|j: int| 0 <= j < n ==> (#[trigger] highs[j]).le(extrema(highs, lows, n).0),
        forall|j: int| 0 <= j < n ==> extrema(highs, lows, n).1.le(#[trigger] lows[j]),
    decreases n,
{
    if n <= 1 {
        assert(highs[0] == extrema(highs, lows, n).0);
        assert(lows[0] == extrema(highs, lows, n).1);
        assert(highs[0].finite() && lows[0].finite());
    } else {
        lemma_extrema_bounds(highs, lows, (n - 1) as nat);
        let before = extrema(highs, lows, (n - 1) as nat);
        let a = choose|a: int| 0 <= a < n - 1 && highs[a] == before.0;
        let b = choose|b: int| 0 <= b < n - 1 && lows[b] == before.1;
        assert(highs[n - 1].finite() && lows[n - 1].finite());
        assert(highs[a].finite() && lows[b].finite());
        if before.0.lt(highs[n - 1]) {
            assert(highs[n - 1] == extrema(highs, lows, n).0);
        } else {
            assert(highs[a] == extrema(highs, lows, n).0);
        }
        if lows[n - 1].lt(before.1) {
            assert(lows[n - 1] == extrema(highs, lows, n).1);
        } else {
            assert(lows[b] == extrema(highs, lows, n).1);
        }
        assert forall|j: int| 0 <= j < n implies (#[trigger] highs[j]).le(
            extrema(highs, lows, n).0,
        ) by {
            assert(highs[j].finite());
            if j < n - 1 {
                assert(highs[j].le(before.0));
            }
        }
        assert forall|j: int| 0 <= j < n implies extrema(highs, lows, n).1.le(
            #[trigger] lows[j],
        ) by {
            assert(lows[j].finite());
            if j < n - 1 {
                assert(before.1.le(lows[j]));
            }
        }
    }
}

/// No lookahead: the midprices of the first `k` samples are the first `k`
/// midprices of the whole series.
pub proof fn lemma_midprice_no_lookahead<A: Arith>(
    ar: &A,
    highs: Seq<Float>,
    lows: Seq<Float>,
    period: usize,
    k: int,
)
    requires
        period >= 1,
        highs.len() == lows.len(),
        0 <= k <= highs.len(),
    ensures
        midprice_values(ar, highs.take(k), lows.take(k), period) == midprice_values(
            ar,
            highs,
            lows,
            period,
        ).take(k),
{
    assert forall|i: int| 0 <= i < k implies midprice_at(
        ar,
        highs.take(k),
        lows.take(k),
        period,
        i,
    ) == midprice_at(ar, highs, lows, period, i) by {
        if i >= period - 1 {
            assert(window_at(highs.take(k), period, i) =~= window_at(highs, period, i));
            assert(window_at(lows.take(k), period, i) =~= window_at(lows, period, i));
        }
    }
    assert(midprice_values(ar, highs.take(k), lows.take(k), period) =~= midprice_values(
        ar,
        highs,
        lows,
        period,
    ).take(k));
}

/// Streaming consistency: from a state that holds the last `period` of the
/// first `k` highs and lows, the midprice after sample `k` is the midprice
/// that is due at position `k` of the series with one sample more.
pub proof fn lemma_midprice_streaming<A: Arith>(
    ar: &A,
    highs: Seq<Float>,
    lows: Seq<Float>,
    period: usize,
    k: int,
    state: MidpriceState,
    sample: &MidpriceSample,
)
    requires
        2 <= period <= k < highs.len(),
        highs.len() == lows.len(),
        state.period == period,
        state.last_high_window@ == tail(highs.take(k), period),
        state.last_low_window@ == tail(lows.take(k), period),
        sample.high == highs[k],
        sample.low == lows[k],
    ensures
        state.next_midprice(ar, sample) == midprice_values(
            ar,
            highs.take(k + 1),
            lows.take(k + 1),
            period,
        )[k],
{
    assert(shifted(state.last_high_window@, sample.high) =~= window_at(
        highs.take(k + 1),
        period,
        k,
    ));
    assert(shifted(state.last_low_window@, sample.low) =~= window_at(lows.take(k + 1), period, k));
}

/// No lookahead, of the results: where the midprices of two series come
/// out, those of their first `k` samples come out too, and they are the
/// first `k` of the whole series. `full` and `part` are what [`midprice`]
/// returns for an exact arithmetic.
pub proof fn lemma_midprice_prefix_result<A: Arith>(
    ar: &A,
    highs: Seq<Float>,
    lows: Seq<Float>,
    period: usize,
    k: int,
    full: Result<Seq<Float>, Fault>,
    part: Result<Seq<Float>, Fault>,
)
    requires
        period >= 1,
        highs.len() == lows.len(),
        0 <= k <= highs.len(),
        decided(
            full,
            worse(highs, lows),
            midprice_values(ar, highs, lows, period),
            period - 1,
            midprice_values(ar, highs, lows, period),
        ),
        decided(
            part,
            worse(highs.take(k), lows.take(k)),
            midprice_values(ar, highs.take(k), lows.take(k), period),
            period - 1,
            midprice_values(ar, highs.take(k), lows.take(k), period),
        ),
        full matches Ok(values),
    ensures
        full matches Ok(values) && part == Ok::<Seq<Float>, Fault>(values.take(k)),
{
    let whole = midprice_values(ar, highs, lows, period);
    let first = midprice_values(ar, highs.take(k), lows.take(k), period);
    lemma_midprice_no_lookahead(ar, highs, lows, period, k);
    assert(worse(highs.take(k), lows.take(k)) =~= worse(highs, lows).take(k));
    assert forall|i: int| 0 <= i < k implies #[trigger] first[i] == whole[i] by {
        assert(whole.take(k)[i] == whole[i]);
    }
    lemma_prefix_runs_through(
        full,
        part,
        worse(highs, lows),
        whole,
        first,
        period - 1,
        k,
        whole,
        first,
    );
}

/// Streaming consistency, of the results: the state that [`midprice`]
/// returns for the first `k` samples takes sample `k`, where the midprices
/// of the first `k + 1` samples come out, and its step gives the midprice
/// at position `k`. `before`, `state` and `longer` are what [`midprice`]
/// returns for an exact arithmetic.
pub proof fn lemma_midprice_update_result<A: Arith>(
    ar: &A,
    highs: Seq<Float>,
    lows: Seq<Float>,
    period: usize,
    k: int,
    before: Seq<Float>,
    state: MidpriceState,
    sample: &MidpriceSample,
    longer: Result<Seq<Float>, Fault>,
)
    requires
        2 <= period <= k < highs.len(),
        highs.len() == lows.len(),
        sample.high == highs[k],
        sample.low == lows[k],
        state.closes(before, highs.take(k), lows.take(k), period),
        decided(
            longer,
            worse(highs.take(k + 1), lows.take(k + 1)),
            midprice_values(ar, highs.take(k + 1), lows.take(k + 1), period),
            period - 1,
            midprice_values(ar, highs.take(k + 1), lows.take(k + 1), period),
        ),
        longer matches Ok(values),
    ensures
        state.refusal(sample) is None,
        state.next_midprice(ar, sample).finite(),
        longer matches Ok(values) && state.next_midprice(ar, sample) == values[k],
{
    let long = worse(highs.take(k + 1), lows.take(k + 1));
    let ideal = midprice_values(ar, highs.take(k + 1), lows.take(k + 1), period);
    assert(!bad(long, ideal, period - 1, k));
    assert(long[k] == if !highs[k].finite() {
        highs[k]
    } else {
        lows[k]
    });
    let high = state.last_high_window@;
    assert forall|i: int| 0 <= i < high.len() implies (#[trigger] high[i]).finite() by {
        assert(highs.take(k)[k - period + i].finite());
    }
    let low = state.last_low_window@;
    assert forall|i: int| 0 <= i < low.len() implies (#[trigger] low[i]).finite() by {
        assert(lows.take(k)[k - period + i].finite());
    }
    lemma_midprice_streaming(ar, highs, lows, period, k, state, sample);
}

} // verus!
