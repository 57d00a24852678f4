//! The lookback of a period that is held to fixed bounds.
use crate::errors::TechnicalysisError;
use vstd::prelude::*;

verus! {

/// The smallest period that has a lookback.
pub const MINIMAL_PERIOD_VALUE: usize = 2;

/// The largest period that has a lookback.
pub const MAXIMAL_PERIOD_VALUE: usize = 100_000;

/// The text of the refusal of a period outside the bounds.
pub open spec fn bounds_text() -> Seq<char> {
    "period must be between 2 and 100000"@
}

/// The number of leading output positions without a value: `period - 1`,
/// for a period from 2 to 100000. Any other period is refused.
pub fn lookback(period: usize) -> (r: Result<usize, TechnicalysisError>)
    ensures
        2 <= period <= 100_000 ==> r == Ok::<usize, TechnicalysisError>((period - 1) as usize),
        !(2 <= period <= 100_000) ==> (r matches Err(TechnicalysisError::BadParam(text))
            && text@ == bounds_text()),
{
    if period < MINIMAL_PERIOD_VALUE || period > MAXIMAL_PERIOD_VALUE {
        Err(TechnicalysisError::BadParam("period must be between 2 and 100000".to_owned()))
    } else {
        Ok(period - 1)
    }
}

} // verus!
