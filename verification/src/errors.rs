//! The closed error taxonomy of the bridge.
//!
//! Every failure a bridge call can produce is one of these values, carried as
//! data inside an encoded response. None of them ever crosses the boundary as
//! an unwinding fault.

use vstd::prelude::*;
use vstd::string::StringExecFns;

verus! {

/// A failure of one bridge call.
///
/// - `InvalidContext`: the request message was malformed or unparseable.
/// - `InvalidState`: a state-ingestion payload was malformed.
/// - `InvalidPointer`: a handle violated the liveness precondition.
/// - `MissingFlagName`: the context lacked the required toggle identifier.
/// - `Panic`: an internal fault was intercepted before it could cross the boundary.
/// - `NullError`: a handle violated the non-null precondition.
#[derive(Debug)]
pub enum FlatError {
    InvalidContext(String),
    InvalidState(String),
    InvalidPointer,
    MissingFlagName,
    Panic,
    NullError,
}

/// The caller-facing text of an error, character by character.
pub open spec fn spec_error_message(e: FlatError) -> Seq<char> {
    match e {
        FlatError::InvalidContext(m) => "Invalid context: "@ + m@,
        FlatError::InvalidState(m) => "Invalid state: "@ + m@,
        FlatError::InvalidPointer => "Invalid pointer encountered"@,
        FlatError::MissingFlagName => "Flag name was missing when building extended context"@,
        FlatError::Panic => "Engine panicked while processing the request. Please report this as a bug with the accompanying stack trace if available."@,
        FlatError::NullError => "Null error detected, this is a serious issue and you should report this as a bug."@,
    }
}

impl FlatError {
    /// The caller-facing text of this error.
    pub fn message(&self) -> (r: String)
        ensures
            r@ == spec_error_message(*self),
    {
        match self {
            FlatError::InvalidContext(m) => {
                let mut s = String::from_str("Invalid context: ");
                s.append(m.as_str());
                s
            },
            FlatError::InvalidState(m) => {
                let mut s = String::from_str("Invalid state: ");
                s.append(m.as_str());
                s
            },
            FlatError::InvalidPointer => String::from_str("Invalid pointer encountered"),
            FlatError::MissingFlagName => String::from_str(
                "Flag name was missing when building extended context",
            ),
            FlatError::Panic => String::from_str(
                "Engine panicked while processing the request. Please report this as a bug with the accompanying stack trace if available.",
            ),
            FlatError::NullError => String::from_str(
                "Null error detected, this is a serious issue and you should report this as a bug.",
            ),
        }
    }
}

} // verus!
