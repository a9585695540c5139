use sandpit::metrics::{
    update_avg_u64, update_collection_time, Metrics, GC_STATE_SLEEPING, GC_STATE_SWEEPING,
    GC_STATE_TRACING,
};

#[test]
fn fresh_metrics_are_zero_and_sleeping() {
    let m = Metrics::new();
    assert_eq!(m.get_major_collections(), 0);
    assert_eq!(m.get_minor_collections(), 0);
    assert_eq!(m.get_old_objects_count(), 0);
    assert_eq!(m.get_max_old_objects(), 0);
    assert_eq!(m.get_arena_size(), 0);
    assert_eq!(m.get_prev_arena_size(), 0);
    assert_eq!(m.get_max_arena_size(), 0);
    assert_eq!(m.get_major_collect_avg_time(), 0);
    assert_eq!(m.get_minor_collect_avg_time(), 0);
    assert_eq!(m.get_max_yield_time(), 0);
    assert_eq!(m.get_avg_yield_time(), 0);
    assert_eq!(m.get_state(), GC_STATE_SLEEPING);
    assert!(m.monitor_is_on);
}

#[test]
fn running_average_moves_by_the_distance_over_the_samples() {
    let mut avg: u64 = 10;
    update_avg_u64(&mut avg, 30, 4);
    assert_eq!(avg, 15);

    // a lower sample moves the average down
    let mut avg: u64 = 30;
    update_avg_u64(&mut avg, 10, 4);
    assert_eq!(avg, 25);

    let mut avg: u64 = 10;
    update_avg_u64(&mut avg, 4, 2);
    assert_eq!(avg, 7);

    // one sample: the average becomes the sample
    let mut avg: u64 = u64::MAX;
    update_avg_u64(&mut avg, 0, 1);
    assert_eq!(avg, 0);
}

#[test]
fn collection_averages_move_down_for_faster_collections() {
    let mut m = Metrics::new();
    m.minor_collections = 2;
    m.minor_collect_avg_time = 10;
    m.update_minor_collection_avg_time(4);
    assert_eq!(m.get_minor_collect_avg_time(), 7);
}

#[test]
fn collection_times_fold_into_their_averages() {
    let mut m = Metrics::new();
    m.major_collections = 2;
    m.minor_collections = 5;
    m.update_major_collection_avg_time(100);
    assert_eq!(m.get_major_collect_avg_time(), 50);
    m.update_minor_collection_avg_time(50);
    assert_eq!(m.get_minor_collect_avg_time(), 10);
}

#[test]
fn collection_time_average_moves_towards_the_sample() {
    let mut avg: usize = 100;
    update_collection_time(&mut avg, 40, 3);
    assert_eq!(avg, 80);

    update_collection_time(&mut avg, 200, 4);
    assert_eq!(avg, 110);

    update_collection_time(&mut avg, 0, 1);
    assert_eq!(avg, 0);
}

#[test]
fn a_major_collection_counts_only_the_objects_it_marked() {
    let mut m = Metrics::new();
    m.old_objects_count = 500;

    m.begin_collection(true);
    assert_eq!(m.get_state(), GC_STATE_TRACING);
    assert_eq!(m.get_old_objects_count(), 0);

    m.end_trace(42, 4096);
    assert_eq!(m.get_state(), GC_STATE_SWEEPING);
    assert_eq!(m.get_max_arena_size(), 4096);

    m.end_collection(true, 2048, 84);
    assert_eq!(m.get_state(), GC_STATE_SLEEPING);
    assert_eq!(m.get_old_objects_count(), 42);
    assert_eq!(m.get_major_collections(), 1);
    assert_eq!(m.get_minor_collections(), 0);
    assert_eq!(m.get_prev_arena_size(), 2048);
    assert_eq!(m.get_arena_size(), 2048);
    assert_eq!(m.get_max_old_objects(), 84);
    assert!(!m.major_trigger());
}

#[test]
fn minor_collections_add_to_the_old_objects() {
    let mut m = Metrics::new();
    m.old_objects_count = 10;
    m.max_old_objects = 20;
    m.max_arena_size = 9000;

    m.begin_collection(false);
    m.end_trace(15, 4096);
    m.end_collection(false, 1024, 0);

    assert_eq!(m.get_old_objects_count(), 25);
    assert_eq!(m.get_minor_collections(), 1);
    assert_eq!(m.get_max_old_objects(), 20);
    assert_eq!(m.get_max_arena_size(), 9000);
    assert!(m.major_trigger());
}
