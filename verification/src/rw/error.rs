//! The error a writer reports when its output refuses what it was given.
use vstd::prelude::*;

verus! {

/// `std::io::Error`, a type that Verus carries through without looking
/// inside.
#[verifier::external_type_specification]
#[verifier::external_body]
pub struct ExIoError(std::io::Error);

/// `std::fmt::Error`, a type that Verus carries through without looking
/// inside.
#[verifier::external_type_specification]
#[verifier::external_body]
pub struct ExFmtError(std::fmt::Error);

/// Error of an output, either one that takes bytes or one that takes text.
#[derive(Debug)]
pub enum Error {
    /// The output takes bytes and failed with an I/O error.
    Io(std::io::Error),
    /// The output takes text and failed with a formatting error.
    Fmt(std::fmt::Error),
}

} // verus!
