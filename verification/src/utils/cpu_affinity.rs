//! Keeping a thread on one core, which lessens cache misses and context
//! switches.
use vstd::prelude::*;

pub mod linux;
pub mod macos;
pub mod unsupported;

verus! {

/// The operating systems that are told apart.
#[derive(Clone, Copy, Debug, PartialEq, Eq, Structural)]
pub enum Platform {
    Linux,
    MacOs,
    Other,
}

/// Why a thread cannot be kept on a core.
#[derive(Clone, Copy, Debug)]
pub enum AffinityError {
    /// The operating system has no such call, or it is not used yet.
    Unsupported(&'static str),
    /// The operating system refused the call, and answered with this status.
    Refused(i32),
}

/// The message for an operating system on which threads cannot be kept on a core.
pub open spec fn unsupported_message(platform: Platform) -> Seq<char> {
    if platform == Platform::Linux {
        "CPU affinity not yet implemented for Linux"@
    } else {
        "CPU affinity not supported on this platform"@
    }
}

/// The tag of the threads that are kept on a core.
pub open spec fn affinity_tag(cpu_id: usize) -> i32 {
    (cpu_id + 1) as i32
}

/// The number of cores, given what the operating system says of it.
pub open spec fn cores(platform: Platform, online: i64) -> usize {
    if platform == Platform::Other || online < 1 {
        1
    } else {
        online as usize
    }
}

/// There is at least one core, and where the operating system tells how many there are
/// it is believed.
pub proof fn law_there_is_a_core(platform: Platform, online: u32)
    ensures
        cores(platform, online as i64) >= 1,
        platform != Platform::Other && online > 0 ==> cores(platform, online as i64) == online,
        cores(platform, (-1) as i64) == 1,
        cores(Platform::Other, online as i64) == 1,
{
}

/// The affinity tag to be set for the current thread, so that it is scheduled
/// together with the threads that have the same tag.
pub fn set_current_thread_affinity(platform: Platform, cpu_id: usize) -> (tag: Result<
    i32,
    AffinityError,
>)
    requires
        platform == Platform::MacOs ==> cpu_id < usize::MAX,
    ensures
        match tag {
            Ok(tag) => platform == Platform::MacOs && tag == (cpu_id + 1) as i32,
            Err(AffinityError::Unsupported(message)) => platform != Platform::MacOs && message@
                == unsupported_message(platform),
            Err(AffinityError::Refused(_)) => false,
        },
        tag matches Ok(tag) ==> tag == affinity_tag(cpu_id),
{
    match platform {
        Platform::MacOs => macos::set_cpu_affinity(cpu_id),
        Platform::Linux => linux::set_cpu_affinity(cpu_id),
        Platform::Other => unsupported::set_cpu_affinity(cpu_id),
    }
}

/// The number of cores, given what the operating system says of it. There is at
/// least one.
pub fn get_num_cpus(platform: Platform, online: i64) -> (cpus: usize)
    ensures
        cpus == if platform == Platform::Other || online < 1 {
            1
        } else {
            online as usize
        },
        cpus == cores(platform, online),
{
    if platform == Platform::Other {
        return 1;
    }
    num_cpus_impl(online)
}

/// The number of cores on an operating system that tells it.
fn num_cpus_impl(online: i64) -> (cpus: usize)
    ensures
        cpus == if online < 1 {
            1
        } else {
            online as usize
        },
{
    if online < 1 {
        1
    } else {
        online as usize
    }
}

/// Cores below the range of the tags get tags of their own, none of which is the
/// one that means no affinity.
pub proof fn law_tags_are_distinct(a: usize, b: usize)
    requires
        a < i32::MAX,
        b < i32::MAX,
    ensures
        (a + 1) as i32 > 0,
        a != b ==> (a + 1) as i32 != (b + 1) as i32,
        affinity_tag(a) > 0,
        affinity_tag(a) - affinity_tag(b) == a - b,
        affinity_tag(0) == 1,
{
}

} // verus!
