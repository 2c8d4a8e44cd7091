//! The kind of system that the program runs on.

use vstd::prelude::*;

verus! {

#[derive(Debug, Clone, Copy, PartialEq, Eq, Structural)]
pub enum Platform {
    Unix,
    Windows,
}

/// The version that the program reports.
pub open spec fn version() -> Seq<char> {
    "0.1.0"@
}

pub fn version_text() -> (r: &'static str)
    ensures
        r@ == version(),
{
    "0.1.0"
}

} // verus!
