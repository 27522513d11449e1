//! The closed set of error kinds the engine can surface.
//!
//! Errors are ordinary values: operators and kernels return them, nothing in
//! this crate panics or unwinds.

use vstd::prelude::*;

verus! {

/// Every failure the engine can report, as a closed taxonomy.
#[derive(Debug, PartialEq)]
pub enum Error {
    /// Positional access out of range.
    ExceedingBounds(usize),
    /// A column name did not resolve in a plan's schema.
    NoFieldInLogicalPlan(String),
    /// A binary kernel received arrays of the two given lengths.
    DifferentSizes(usize, usize),
    /// A logical expression has no physical counterpart.
    PhysicalExpressionNotSupported(String),
    /// Reserved for plan variants without a physical counterpart.
    PhysicalPlanNotSupported(String),
    /// A kernel cannot handle the named physical type.
    PhysicalTypeNotSupported(String),
    /// A kernel cannot handle the named primitive type combination.
    PrimitiveTypeNotSupported(String),
    /// A plan node is missing its child.
    MissingChildren(String),
    /// A physical plan node is missing its input.
    MissingInputPhysicalPlan(String),
    /// Aggregation finalized with zero groups.
    EmptyHashmapForAggregate,
    /// A kernel could not interpret an operand at its declared type.
    DowncastError,
    /// A scalar could not be inflated to an array.
    ScalarToArrayError(String),
    /// A selection predicate did not produce a boolean array.
    NoBooleanArrayForFilter,
    /// The data source failed to produce its batches.
    DataSourceError(String),
}

/// Mathematical image of an [`Error`]: string payloads as character sequences.
pub enum SpecError {
    ExceedingBounds(nat),
    NoFieldInLogicalPlan(Seq<char>),
    DifferentSizes(nat, nat),
    PhysicalExpressionNotSupported(Seq<char>),
    PhysicalPlanNotSupported(Seq<char>),
    PhysicalTypeNotSupported(Seq<char>),
    PrimitiveTypeNotSupported(Seq<char>),
    MissingChildren(Seq<char>),
    MissingInputPhysicalPlan(Seq<char>),
    EmptyHashmapForAggregate,
    DowncastError,
    ScalarToArrayError(Seq<char>),
    NoBooleanArrayForFilter,
    DataSourceError(Seq<char>),
}

impl View for Error {
    type V = SpecError;

    open spec fn view(&self) -> SpecError {
        match self {
            Error::ExceedingBounds(i) => SpecError::ExceedingBounds(*i as nat),
            Error::NoFieldInLogicalPlan(s) => SpecError::NoFieldInLogicalPlan(s@),
            Error::DifferentSizes(a, b) => SpecError::DifferentSizes(*a as nat, *b as nat),
            Error::PhysicalExpressionNotSupported(s) => SpecError::PhysicalExpressionNotSupported(
                s@,
            ),
            Error::PhysicalPlanNotSupported(s) => SpecError::PhysicalPlanNotSupported(s@),
            Error::PhysicalTypeNotSupported(s) => SpecError::PhysicalTypeNotSupported(s@),
            Error::PrimitiveTypeNotSupported(s) => SpecError::PrimitiveTypeNotSupported(s@),
            Error::MissingChildren(s) => SpecError::MissingChildren(s@),
            Error::MissingInputPhysicalPlan(s) => SpecError::MissingInputPhysicalPlan(s@),
            Error::EmptyHashmapForAggregate => SpecError::EmptyHashmapForAggregate,
            Error::DowncastError => SpecError::DowncastError,
            Error::ScalarToArrayError(s) => SpecError::ScalarToArrayError(s@),
            Error::NoBooleanArrayForFilter => SpecError::NoBooleanArrayForFilter,
            Error::DataSourceError(s) => SpecError::DataSourceError(s@),
        }
    }
}

} // verus!
