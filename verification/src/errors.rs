//! The failures that an indicator can report, and the checks that report them.
use crate::float::Float;
use vstd::prelude::*;

verus! {

/// Why a calculation was refused.
#[derive(Debug)]
pub enum TechalibError {
    /// A parameter is structurally invalid; the text says which.
    BadParam(String),
    /// The input is shorter than the chosen periods need.
    InsufficientData,
    /// A sample or a stored value is infinite or NaN; the text names it.
    DataNonFinite(String),
    /// A computed value is infinite or NaN although what it was computed from
    /// was finite: the position in the output and the value.
    Overflow(usize, Float),
    /// The indicator is known but has no implementation.
    NotImplementedYet,
}

/// What a [`TechalibError`] says, with its texts as sequences of characters.
pub enum Fault {
    BadParam(Seq<char>),
    InsufficientData,
    DataNonFinite(Seq<char>),
    Overflow(usize, Float),
    NotImplementedYet,
}

impl View for TechalibError {
    type V = Fault;

    open spec fn view(&self) -> Fault {
        match *self {
            TechalibError::BadParam(text) => Fault::BadParam(text@),
            TechalibError::InsufficientData => Fault::InsufficientData,
            TechalibError::DataNonFinite(text) => Fault::DataNonFinite(text@),
            TechalibError::Overflow(index, value) => Fault::Overflow(index, value),
            TechalibError::NotImplementedYet => Fault::NotImplementedYet,
        }
    }
}

/// `r` is the failure that says `fault`.
pub open spec fn fails<T>(r: Result<T, TechalibError>, fault: Fault) -> bool {
    r matches Err(e) && e@ == fault
}

/// `fault` is the report of a step whose value is not finite: an overflow
/// at position 0 with a value that is not finite.
pub open spec fn step_overflow(fault: Fault) -> bool {
    fault matches Fault::Overflow(k, v) && k == 0 && !v.finite()
}

/// The text of the refusal of a period below 2.
pub open spec fn period_text() -> Seq<char> {
    "Period must be greater than 1"@
}

/// The text of the refusal of two series of different lengths.
pub open spec fn length_text() -> Seq<char> {
    "Data lengths must match"@
}

impl TechalibError {
    /// A refusal of a parameter, with `text` as its reason.
    pub fn bad_param(text: &str) -> (e: TechalibError)
        ensures
            e@ == Fault::BadParam(text@),
    {
        TechalibError::BadParam(text.to_owned())
    }

    /// A refusal of a non-finite value, with `name` saying which value it was.
    pub fn non_finite(name: &str) -> (e: TechalibError)
        ensures
            e@ == Fault::DataNonFinite(name@),
    {
        TechalibError::DataNonFinite(name.to_owned())
    }

    /// Accepts a period of 2 or more.
    pub fn check_period(period: usize) -> (r: Result<(), TechalibError>)
        ensures
            period >= 2 ==> r is Ok,
            period < 2 ==> fails(r, Fault::BadParam(period_text())),
    {
        if period < 2 {
            Err(TechalibError::bad_param("Period must be greater than 1"))
        } else {
            Ok(())
        }
    }

    /// Accepts two series of one length.
    pub fn check_same_length(data1: &[Float], data2: &[Float]) -> (r: Result<(), TechalibError>)
        ensures
            data1@.len() == data2@.len() ==> r is Ok,
            data1@.len() != data2@.len() ==> fails(r, Fault::BadParam(
                length_text(),
            )),
    {
        if data1.len() != data2.len() {
            Err(TechalibError::bad_param("Data lengths must match"))
        } else {
            Ok(())
        }
    }

    /// Accepts a finite sample at `index` of `data`.
    pub fn check_finite_at(index: usize, data: &[Float]) -> (r: Result<(), TechalibError>)
        requires
            index < data@.len(),
        ensures
            data@[index as int].finite() ==> r is Ok,
            !data@[index as int].finite() ==> fails(r, Fault::DataNonFinite(
                "data"@,
            )),
    {
        if !data[index].is_finite() {
            Err(TechalibError::non_finite("data"))
        } else {
            Ok(())
        }
    }

    /// Accepts a finite value; `name` says which value it is.
    pub fn check_finite(value: Float, name: &str) -> (r: Result<(), TechalibError>)
        ensures
            value.finite() ==> r is Ok,
            !value.finite() ==> fails(r, Fault::DataNonFinite(name@)),
    {
        if !value.is_finite() {
            Err(TechalibError::non_finite(name))
        } else {
            Ok(())
        }
    }

    /// Accepts a finite computed value at `index` of `data`.
    pub fn check_overflow_at(index: usize, data: &[Float]) -> (r: Result<(), TechalibError>)
        requires
            index < data@.len(),
        ensures
            data@[index as int].finite() ==> r is Ok,
            !data@[index as int].finite() ==> fails(
                r,
                Fault::Overflow(index, data@[index as int]),
            ),
    {
        if !data[index].is_finite() {
            Err(TechalibError::Overflow(index, data[index]))
        } else {
            Ok(())
        }
    }

    /// Accepts a finite computed value that has no position.
    pub fn check_overflow(value: Float) -> (r: Result<(), TechalibError>)
        ensures
            value.finite() ==> r is Ok,
            !value.finite() ==> fails(r, Fault::Overflow(0, value)),
    {
        if !value.is_finite() {
            Err(TechalibError::Overflow(0, value))
        } else {
            Ok(())
        }
    }
}

/// Why a period was refused by [`lookback`](crate::helper::lookback).
#[derive(Debug)]
pub enum TechnicalysisError {
    /// A parameter is structurally invalid; the text says which.
    BadParam(String),
    /// The input is shorter than the period needs.
    InsufficientData,
    /// A sample is a NaN.
    UnexpectedNan,
    /// The indicator is known but has no implementation.
    NotImplementedYet,
}

} // verus!
