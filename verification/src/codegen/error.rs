//! Code-generation errors.

use vstd::prelude::*;

verus! {

/// A code generation or runtime failure with contextual text.
#[derive(Debug)]
pub enum CraneliftError {
    Msg(String),
}

impl CraneliftError {
    /// The error's text, as its `Display` shows it.
    pub fn message(&self) -> (s: &String)
        ensures
            *self matches CraneliftError::Msg(m) && s@ == m@,
    {
        match self {
            CraneliftError::Msg(m) => m,
        }
    }
}

} // verus!
