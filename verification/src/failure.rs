//! Failures that are told to the user.

use vstd::prelude::*;

verus! {

/// What went wrong, in words.
#[derive(Debug)]
pub struct Failure {
    pub message: String,
}

impl View for Failure {
    type V = Seq<char>;

    open spec fn view(&self) -> Seq<char> {
        self.message@
    }
}

/// What went wrong, if anything did.
pub open spec fn failed<T>(result: Result<T, Failure>) -> Option<Seq<char>> {
    match result {
        Ok(_) => None,
        Err(e) => Some(e@),
    }
}

} // verus!
