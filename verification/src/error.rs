//! The error the forum services report.
use vstd::prelude::*;

verus! {

/// An error of the forum services; the verification subsystem reports
/// rejected input as `Validation` with a stable machine-readable message.
#[derive(Clone, Debug)]
pub enum ForumError {
    Validation(String),
}

} // verus!
