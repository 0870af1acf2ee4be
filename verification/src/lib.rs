//! Verified core of a renewable-surplus forecast service.
//!
//! The library reconstructs absolute timestamps from resolution-and-position
//! encoded market documents, merges the sub-series of a document into one
//! chronological sequence, joins a generation series with a load series on
//! exact timestamp equality, and answers extremum and window queries over the
//! derived surplus series.
//!
//! Instants are modelled as seconds since the Unix epoch (UTC); quantities are
//! integer-scaled values (the caller picks the unit, e.g. thousandths of a
//! megawatt), so every computation here is exact integer arithmetic.

pub mod aggregate;
pub mod analysis;
pub mod api;
pub mod areas;
pub mod document;
pub mod error;
pub mod resolution;
pub mod text;
pub mod time;
