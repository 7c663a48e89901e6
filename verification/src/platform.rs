//! Facts about the machine the library runs on.
use vstd::prelude::*;

verus! {

/// The number of logical cores, from `num_cpus::get`, whose documentation
/// promises that it always returns at least 1. Which number comes back
/// depends on the machine and is not otherwise stated.
#[verifier::external_body]
pub(crate) fn logical_cpus() -> (r: usize)
    ensures
        r >= 1,
{
    num_cpus::get()
}

} // verus!
