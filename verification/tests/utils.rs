use bluefin::utils::cpu_affinity::{
    AffinityError, Platform, get_num_cpus, linux, macos, set_current_thread_affinity, unsupported,
};
use bluefin::utils::ring_buffer::RingBuffer;

#[test]
fn test_get_num_cpus() {
    for online in [-1i64, 0, 1, 8, 256] {
        let num = get_num_cpus(Platform::Linux, online);
        assert!(num >= 1, "Should have at least 1 CPU");
        assert!(num <= 256, "Sanity check: unlikely to have >256 CPUs");
    }
    assert_eq!(get_num_cpus(Platform::MacOs, 12), 12);
    assert_eq!(get_num_cpus(Platform::Other, 12), 1);
    assert_eq!(get_num_cpus(Platform::Linux, -1), 1);
}

#[test]
fn test_set_affinity_macos() {
    let result = set_current_thread_affinity(Platform::MacOs, 0);
    assert_eq!(result.unwrap(), 1);
}

#[test]
fn test_set_affinity_multiple_cores() {
    let num_cpus = get_num_cpus(Platform::MacOs, 8);
    for cpu_id in 0..std::cmp::min(4, num_cpus) {
        let result = set_current_thread_affinity(Platform::MacOs, cpu_id);
        assert_eq!(result.unwrap(), cpu_id as i32 + 1);
    }
}

#[test]
fn affinity_is_refused_elsewhere() {
    let Err(AffinityError::Unsupported(message)) =
        set_current_thread_affinity(Platform::Linux, 1)
    else {
        panic!("the tag was made");
    };
    assert_eq!(message, "CPU affinity not yet implemented for Linux");
    let Err(AffinityError::Unsupported(message)) =
        set_current_thread_affinity(Platform::Other, 1)
    else {
        panic!("the tag was made");
    };
    assert_eq!(message, "CPU affinity not supported on this platform");
    assert!(linux::set_cpu_affinity(0).is_err());
    assert!(unsupported::set_cpu_affinity(0).is_err());
    assert_eq!(macos::set_cpu_affinity(3).unwrap(), 4);
}

#[test]
fn a_refused_affinity_call_is_an_error() {
    assert!(matches!(macos::affinity_set(0), Ok(())));
    assert!(matches!(macos::affinity_set(46), Err(AffinityError::Refused(46))));
    assert!(matches!(macos::affinity_set(-1), Err(AffinityError::Refused(-1))));
}

#[test]
fn test_ring_buffer_basic() {
    let mut rb = RingBuffer::new(3);
    assert!(rb.is_empty());
    assert_eq!(rb.len(), 0);

    assert!(rb.push_back(1).is_none());
    assert!(rb.push_back(2).is_none());
    assert!(rb.push_back(3).is_none());
    assert!(rb.is_full());

    // Should reject when full
    assert_eq!(rb.push_back(4), Some(4));

    assert_eq!(rb.pop_front(), Some(1));
    assert_eq!(rb.pop_front(), Some(2));
    assert_eq!(rb.pop_front(), Some(3));
    assert!(rb.is_empty());
    assert_eq!(rb.pop_front(), None);
}

#[test]
fn test_ring_buffer_wraparound() {
    let mut rb = RingBuffer::new(3);

    rb.push_back(1);
    rb.push_back(2);
    assert_eq!(rb.pop_front(), Some(1));

    rb.push_back(3);
    rb.push_back(4);

    assert_eq!(rb.pop_front(), Some(2));
    assert_eq!(rb.pop_front(), Some(3));
    assert_eq!(rb.pop_front(), Some(4));
    assert!(rb.is_empty());
}

#[test]
fn ring_buffer_takes_elements_in_front() {
    let mut rb: RingBuffer<u32> = RingBuffer::new(3);
    assert!(rb.front().is_none());
    assert!(rb.push_back(1).is_none());
    assert!(rb.push_front(2).is_none());
    assert!(rb.push_front(3).is_none());
    assert_eq!(rb.push_front(4), Some(4));
    assert_eq!(rb.front(), Some(&3));
    assert_eq!(rb.pop_front(), Some(3));
    assert!(rb.push_back(5).is_none());
    assert_eq!(rb.pop_front(), Some(2));
    assert_eq!(rb.pop_front(), Some(1));
    assert_eq!(rb.pop_front(), Some(5));
    rb.push_back(6);
    rb.clear();
    assert!(rb.is_empty());
    let mut none: RingBuffer<u32> = RingBuffer::new(0);
    assert_eq!(none.push_back(1), Some(1));
    assert_eq!(none.pop_front(), None);
    let mut usual: RingBuffer<u8> = RingBuffer::default();
    for i in 0..128u32 {
        assert!(usual.push_back(i as u8).is_none());
    }
    assert!(usual.is_full());
}
