//! The error type shared by the parsing, aggregation and join stages.

use vstd::prelude::*;

verus! {

/// Why a document could not be turned into a surplus series.
///
/// Parsing failures are never recovered locally: aggregation and joining
/// propagate them unchanged to the caller.
#[derive(Debug, Clone, PartialEq, Eq)]
pub enum EntsoeError {
    /// An upstream reply was unusable: an embedded error payload, or an empty
    /// result where a value was required.
    InvalidResponse(String),
    /// A step-size string that is not `PT<minutes>M`.
    InvalidResolution(String),
    /// A period-start string that is not a supported timestamp form.
    InvalidTimestamp(String),
}

} // verus!
