//! The bypassed version: the binary the surrounding environment provides,
//! represented by a sentinel path no installation can own.

use vstd::prelude::*;

verus! {

/// The display name of the bypassed version.
pub fn display_name() -> (r: &'static str)
    ensures
        r@ == "system"@,
{
    "system"
}

/// The sentinel path an alias points at to mean "use the environment's
/// own binary": the POSIX null device. A front end for another operating
/// system substitutes its own impossible path.
pub fn path() -> (r: String)
    ensures
        r@ == "/dev/null"@,
{
    "/dev/null".to_owned()
}

} // verus!
