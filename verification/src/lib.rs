//! Aggregated metadata for global KZ maps, with fuzzy lookup and a few
//! formatting helpers for timestamps and run times.

#![allow(unused_imports)]
use vstd::prelude::*;

pub mod digits;
pub mod global_map;
pub mod serde;
pub mod time;

verus! {

/// The error type for fallible operations of this crate.
#[derive(Debug, Clone)]
pub enum Error {
    /// An error occured when talking to the `GlobalAPI`.
    GlobalAPI { message: String },
}

impl Error {
    /// The message carried by this error.
    pub fn message(&self) -> (r: &String)
        ensures
            r == match self {
                Error::GlobalAPI { message } => message,
            },
    {
        match self {
            Error::GlobalAPI { message } => message,
        }
    }
}

} // verus!
