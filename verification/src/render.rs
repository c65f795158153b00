//! What the engine tells of itself.

use vstd::prelude::*;

verus! {

/// The version of the engine.
pub fn version() -> (r: &'static str)
    ensures
        r@ == "0.1.0"@,
{
    "0.1.0"
}

} // verus!
