use hive::session::{gpu_allowed_from, intra_threads_for};

#[test]
fn the_thread_count_always_leaves_room_to_work() {
    for cores in [2usize, 3, 4, 8, 12, 64] {
        let threads = intra_threads_for(Some(cores));
        assert!(threads >= 2, "a single thread would crawl");
        assert!(threads <= cores, "asked for more threads than the machine has");
    }
    assert!(intra_threads_for(None) >= 2);
}

#[test]
fn half_the_cores_but_never_fewer_than_two() {
    assert_eq!(intra_threads_for(Some(16)), 8);
    assert_eq!(intra_threads_for(Some(5)), 2);
    assert_eq!(intra_threads_for(Some(1)), 2);
    assert_eq!(intra_threads_for(None), 2);
}

#[test]
fn the_environment_can_force_the_gpu_on() {
    assert!(gpu_allowed_from(true, None));
    assert!(!gpu_allowed_from(false, None));
    assert!(gpu_allowed_from(false, Some("1")));
    assert!(gpu_allowed_from(false, Some("true")));
    assert!(!gpu_allowed_from(false, Some("yes")));
}
