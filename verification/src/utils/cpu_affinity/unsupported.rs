//! Thread affinity elsewhere.
use vstd::prelude::*;

use crate::utils::cpu_affinity::AffinityError;

verus! {

/// No thread can be kept on a core.
pub fn set_cpu_affinity(_cpu_id: usize) -> (tag: Result<i32, AffinityError>)
    ensures
        tag matches Err(AffinityError::Unsupported(message)) && message@
            == "CPU affinity not supported on this platform"@,
{
    Err(AffinityError::Unsupported("CPU affinity not supported on this platform"))
}

} // verus!
