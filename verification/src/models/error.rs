//! The error type shared by every stage of the pipeline.
//!
//! An error without a message is the silent "nothing to render" outcome;
//! an error with a message is a real failure that callers surface.

use vstd::prelude::*;

verus! {

/// Custom error for all cases of life
#[derive(Debug)]
pub struct HandlerError {
    pub message: Option<String>,
}

impl HandlerError {
    /// The silent outcome: no trigger matched, nothing to render.
    pub fn empty() -> (e: Self)
        ensures
            e.message is None,
    {
        HandlerError { message: None }
    }

    pub fn new(data: String) -> (e: Self)
        ensures
            e.message == Some(data),
    {
        HandlerError { message: Some(data) }
    }

    pub fn from_str(data: &str) -> (e: Self)
        ensures
            e.message is Some,
            e.message.unwrap()@ == data@,
    {
        HandlerError { message: Some(String::from_str(data)) }
    }

    /// True exactly when this is the silent no-match outcome.
    pub fn is_empty(&self) -> (r: bool)
        ensures
            r == (self.message is None),
    {
        self.message.is_none()
    }
}

impl PartialEq for HandlerError {
    fn eq(&self, other: &Self) -> (r: bool) {
        match (&self.message, &other.message) {
            (None, None) => true,
            (Some(a), Some(b)) => a.eq(b),
            _ => false,
        }
    }
}

impl vstd::std_specs::cmp::PartialEqSpecImpl for HandlerError {
    open spec fn obeys_eq_spec() -> bool {
        true
    }

    open spec fn eq_spec(&self, other: &Self) -> bool {
        match (self.message, other.message) {
            (None, None) => true,
            (Some(a), Some(b)) => a@ == b@,
            _ => false,
        }
    }
}

} // verus!
