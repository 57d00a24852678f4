//! What the indicators share in the handling of series and windows.
use crate::errors::Fault;
use crate::float::{nan, Float, NAN_BITS};
use std::collections::VecDeque;
use vstd::prelude::*;

verus! {

/// Every sample of `data` is finite.
pub open spec fn all_finite(data: Seq<Float>) -> bool {
    forall|i: int| 0 <= i < data.len() ==> (#[trigger] data[i]).finite()
}

/// The samples of `data` before position `k` are finite.
pub open spec fn finite_upto(data: Seq<Float>, k: int) -> bool {
    forall|i: int| 0 <= i < k ==> (#[trigger] data[i]).finite()
}

/// `n` positions without a value.
pub open spec fn nans(n: nat) -> Seq<Float> {
    Seq::new(n, |i: int| nan())
}

/// `values` is an output for an input of `len` samples: as long as the
/// input, NaN before `lookback`, finite from there on.
pub open spec fn filled(values: Seq<Float>, len: nat, lookback: nat) -> bool {
    &&& values.len() == len
    &&& forall|i: int| 0 <= i < lookback && i < len ==> (#[trigger] values[i]) == nan()
    &&& forall|i: int| lookback <= i < len ==> (#[trigger] values[i]).finite()
}

/// The last `period` samples of `data`, oldest first.
pub open spec fn tail(data: Seq<Float>, period: usize) -> Seq<Float> {
    data.subrange(data.len() - period, data.len() as int)
}

/// The window `window` after its oldest sample has left and `sample` has
/// come in.
pub open spec fn shifted(window: Seq<Float>, sample: Float) -> Seq<Float> {
    window.subrange(1, window.len() as int).push(sample)
}

/// Position `k` stops a calculation: the sample there is not finite, or the
/// value that is due there, `ideal[k]`, is not finite. Before `lookback` no
/// value is due.
pub open spec fn bad(data: Seq<Float>, ideal: Seq<Float>, lookback: int, k: int) -> bool {
    !data[k].finite() || (k >= lookback && !ideal[k].finite())
}

/// No position before `n` stops the calculation.
pub open spec fn clean(data: Seq<Float>, ideal: Seq<Float>, lookback: int, n: int) -> bool {
    forall|k: int| 0 <= k < n ==> !#[trigger] bad(data, ideal, lookback, k)
}

/// What is reported of a calculation that stops at position `k`: the sample
/// there if it is not finite, else the value that is due there.
pub open spec fn fault_at(data: Seq<Float>, ideal: Seq<Float>, k: int) -> Fault {
    if !data[k].finite() {
        Fault::DataNonFinite("data"@)
    } else {
        Fault::Overflow(k as usize, ideal[k])
    }
}

/// `got` is what a calculation over `data` comes to when `ideal` holds, for
/// each position, the value that is held to be finite there, and `whole` is
/// what the calculation returns where it runs through: `whole` where no
/// position stops it, and only there, else the report of the first position
/// that does.
pub open spec fn decided<T>(
    got: Result<T, Fault>,
    data: Seq<Float>,
    ideal: Seq<Float>,
    lookback: int,
    whole: T,
) -> bool {
    &&& clean(data, ideal, lookback, data.len() as int) ==> got == Ok::<T, Fault>(whole)
    &&& got is Ok ==> clean(data, ideal, lookback, data.len() as int)
    &&& forall|k: int|
        0 <= k < data.len() && clean(data, ideal, lookback, k) && #[trigger] bad(
            data,
            ideal,
            lookback,
            k,
        ) ==> got == Err::<T, Fault>(fault_at(data, ideal, k))
}

/// A report that is in order for a calculation over `data` whose parameters
/// were accepted: a sample that is not finite, or a value at or after
/// `lookback` that is not finite although every sample up to there is.
pub open spec fn sound_failure(fault: Fault, data: Seq<Float>, lookback: int) -> bool {
    match fault {
        Fault::DataNonFinite(text) => text == "data"@ && !all_finite(data),
        Fault::Overflow(k, v) => lookback <= k < data.len() && !v.finite() && finite_upto(
            data,
            k + 1,
        ),
        _ => false,
    }
}

/// The NaN that stands at an output position without a value.
pub fn nan_value() -> (r: Float)
    ensures
        r == nan(),
{
    Float { bits: NAN_BITS }
}

/// Appends `n` positions without a value to `output`.
pub fn push_nans(output: &mut Vec<Float>, n: usize)
    ensures
        final(output)@ == old(output)@ + nans(n as nat),
{
    let mut idx: usize = 0;
    while idx < n
        invariant
            idx <= n,
            output@ =~= old(output)@ + nans(idx as nat),
        decreases n - idx,
    {
        output.push(nan_value());
        idx += 1;
    }
}

/// The last `period` samples of `data` as a window, oldest first.
pub fn tail_window(data: &[Float], period: usize) -> (window: VecDeque<Float>)
    requires
        period <= data@.len(),
    ensures
        window@ == tail(data@, period),
{
    let len = data.len();
    let mut window: VecDeque<Float> = VecDeque::new();
    let mut idx: usize = len - period;
    while idx < len
        invariant
            len == data@.len(),
            period <= len,
            len - period <= idx <= len,
            window@ =~= data@.subrange(len - period, idx as int),
        decreases len - idx,
    {
        window.push_back(data[idx]);
        idx += 1;
    }
    window
}

/// The window `window` after its oldest sample has left and `sample` has
/// come in.
pub fn shift_window(window: &VecDeque<Float>, sample: Float) -> (next: VecDeque<Float>)
    requires
        window@.len() >= 1,
    ensures
        next@ == shifted(window@, sample),
{
    let mut next: VecDeque<Float> = VecDeque::new();
    let mut idx: usize = 1;
    while idx < window.len()
        invariant
            1 <= idx <= window@.len(),
            next@ =~= window@.subrange(1, idx as int),
        decreases window@.len() - idx,
    {
        next.push_back(window[idx]);
        idx += 1;
    }
    next.push_back(sample);
    next
}

/// The position of the first sample of `window` that is not finite.
pub fn first_non_finite(window: &VecDeque<Float>) -> (r: Option<usize>)
    ensures
        r is None <==> all_finite(window@),
        r matches Some(i) ==> i < window@.len() && !window@[i as int].finite() && finite_upto(
            window@,
            i as int,
        ),
{
    let mut idx: usize = 0;
    while idx < window.len()
        invariant
            idx <= window@.len(),
            finite_upto(window@, idx as int),
        decreases window@.len() - idx,
    {
        if !window[idx].is_finite() {
            return Some(idx);
        }
        idx += 1;
    }
    None
}

/// Writes `values` into `output`, position by position.
pub fn copy_into(values: &Vec<Float>, output: &mut [Float])
    requires
        values@.len() == old(output)@.len(),
    ensures
        final(output)@ == values@,
{
    let mut idx: usize = 0;
    while idx < values.len()
        invariant
            idx <= values@.len() == output@.len(),
            forall|i: int| 0 <= i < idx ==> output@[i] == values@[i],
        decreases values@.len() - idx,
    {
        output[idx] = values[idx];
        idx += 1;
    }
    proof {
        assert(output@ =~= values@);
    }
}

/// A calculation that stops at the first bad position is decided.
pub proof fn lemma_decided_at<T>(
    got: Result<T, Fault>,
    data: Seq<Float>,
    ideal: Seq<Float>,
    lookback: int,
    whole: T,
    k: int,
)
    requires
        0 <= k < data.len(),
        clean(data, ideal, lookback, k),
        bad(data, ideal, lookback, k),
        got == Err::<T, Fault>(fault_at(data, ideal, k)),
    ensures
        decided(got, data, ideal, lookback, whole),
{
    assert forall|j: int|
        0 <= j < data.len() && clean(data, ideal, lookback, j) && #[trigger] bad(
            data,
            ideal,
            lookback,
            j,
        ) implies j == k by {
        if j < k {
            assert(!bad(data, ideal, lookback, j));
        } else if j > k {
            assert(!bad(data, ideal, lookback, k));
        }
    }
}

/// A calculation that reports a sample at or before `lookback` that is not
/// finite is decided, whichever such sample it found first.
pub proof fn lemma_decided_early<T>(
    got: Result<T, Fault>,
    data: Seq<Float>,
    ideal: Seq<Float>,
    lookback: int,
    whole: T,
    j: int,
)
    requires
        0 <= j < data.len(),
        j <= lookback,
        !data[j].finite(),
        got == Err::<T, Fault>(Fault::DataNonFinite("data"@)),
    ensures
        decided(got, data, ideal, lookback, whole),
{
    assert(bad(data, ideal, lookback, j));
    assert forall|k: int|
        0 <= k < data.len() && clean(data, ideal, lookback, k) && #[trigger] bad(
            data,
            ideal,
            lookback,
            k,
        ) implies got == Err::<T, Fault>(fault_at(data, ideal, k)) by {
        if k > j {
            assert(!bad(data, ideal, lookback, j));
        }
    }
}

/// A calculation that no position stops is decided.
pub proof fn lemma_decided_ok<T>(data: Seq<Float>, ideal: Seq<Float>, lookback: int, whole: T)
    requires
        clean(data, ideal, lookback, data.len() as int),
    ensures
        decided(Ok::<T, Fault>(whole), data, ideal, lookback, whole),
{
}

/// Where the samples before `k` are finite and `k` is not after `lookback`,
/// no position before `k` stops the calculation.
pub proof fn lemma_clean_before_lookback(
    data: Seq<Float>,
    ideal: Seq<Float>,
    lookback: int,
    k: int,
)
    requires
        k <= lookback,
        finite_upto(data, k),
    ensures
        clean(data, ideal, lookback, k),
{
}

/// The quiet NaN that fills the lookback is a NaN, and no finite value.
pub proof fn lemma_nan_is_nan()
    ensures
        nan().nan(),
        !nan().finite(),
{
}

/// In an output, every position before the lookback holds a NaN, and the
/// position at the lookback holds the first finite value.
pub proof fn lemma_lookback_fill(values: Seq<Float>, len: nat, lookback: nat)
    requires
        filled(values, len, lookback),
    ensures
        forall|i: int| 0 <= i < lookback && i < len ==> (#[trigger] values[i]).nan(),
        lookback < len ==> values[lookback as int].finite(),
{
    lemma_nan_is_nan();
}

/// A sample that is not finite is reported as such, unless a value before
/// it is not finite and is reported first.
pub proof fn lemma_data_fault_reported<T>(
    got: Result<T, Fault>,
    data: Seq<Float>,
    ideal: Seq<Float>,
    lookback: int,
    whole: T,
    k: int,
)
    requires
        decided(got, data, ideal, lookback, whole),
        0 <= k < data.len(),
        !data[k].finite(),
        clean(data, ideal, lookback, k),
    ensures
        got == Err::<T, Fault>(Fault::DataNonFinite("data"@)),
{
    assert(bad(data, ideal, lookback, k));
}

/// Whatever the arithmetic returns, a sample that is not finite is reported
/// as such unless an overflow before it is reported; one at or before the
/// lookback is always reported as such.
pub proof fn lemma_sample_fault(fault: Fault, data: Seq<Float>, lookback: int, j: int)
    requires
        sound_failure(fault, data, lookback),
        0 <= j < data.len(),
        !data[j].finite(),
    ensures
        fault == Fault::DataNonFinite("data"@) || (fault matches Fault::Overflow(k, v) && k < j),
        j <= lookback ==> fault == Fault::DataNonFinite("data"@),
{
}

/// Over finite samples, whatever their size, a calculation whose
/// parameters were accepted gives its values or reports an overflow: what
/// it reports is never anything else.
pub proof fn lemma_finite_data_overflows_at_worst(fault: Fault, data: Seq<Float>, lookback: int)
    requires
        sound_failure(fault, data, lookback),
        all_finite(data),
    ensures
        fault is Overflow,
{
}

/// Where a calculation over a series runs through, so does the calculation
/// over its first `k` samples, provided the same value is due at each of
/// the first `k` positions from the lookback on.
pub proof fn lemma_prefix_runs_through<T>(
    full: Result<T, Fault>,
    part: Result<T, Fault>,
    data: Seq<Float>,
    ideal: Seq<Float>,
    ideal_k: Seq<Float>,
    lookback: int,
    k: int,
    whole: T,
    whole_k: T,
)
    requires
        0 <= k <= data.len(),
        decided(full, data, ideal, lookback, whole),
        decided(part, data.take(k), ideal_k, lookback, whole_k),
        forall|i: int| 0 <= i < k && lookback <= i ==> #[trigger] ideal_k[i] == ideal[i],
        full is Ok,
    ensures
        full == Ok::<T, Fault>(whole),
        part == Ok::<T, Fault>(whole_k),
{
    assert forall|j: int| 0 <= j < k implies !#[trigger] bad(
        data.take(k),
        ideal_k,
        lookback,
        j,
    ) by {
        assert(!bad(data, ideal, lookback, j));
    }
}

} // verus!
