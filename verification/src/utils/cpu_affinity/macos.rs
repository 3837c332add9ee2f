//! Thread affinity on macOS.
use vstd::prelude::*;

use crate::utils::cpu_affinity::AffinityError;

verus! {

/// The affinity tag for a core. Tag zero means no affinity, so the tags of the
/// cores begin with one. Threads with the same tag are scheduled together; which
/// core they run on is left to the operating system.
pub fn set_cpu_affinity(cpu_id: usize) -> (tag: Result<i32, AffinityError>)
    requires
        cpu_id < usize::MAX,
    ensures
        tag == Ok::<i32, AffinityError>((cpu_id + 1) as i32),
{
    Ok((cpu_id + 1) as i32)
}

/// What setting the tag answers, once the operating system has answered the call
/// with `status`. Zero means that the tag was set.
pub fn affinity_set(status: i32) -> (set: Result<(), AffinityError>)
    ensures
        set == if status == 0 {
            Ok::<(), AffinityError>(())
        } else {
            Err(AffinityError::Refused(status))
        },
{
    if status == 0 {
        Ok(())
    } else {
        Err(AffinityError::Refused(status))
    }
}

} // verus!
