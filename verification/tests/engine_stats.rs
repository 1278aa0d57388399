use thomas::systems::{advance_frame_stats, new_engine_stats, record_frame};

#[test]
fn record_frame_counts_a_frame_and_starts_the_timer() {
    let mut stats = new_engine_stats();
    record_frame(&mut stats);
    assert!(stats.frame_timer.is_running());
    assert_eq!(stats.frame_counter, 1);
    assert!(stats.frame_counts.is_empty());
    assert_eq!(stats.fps, 0);

    record_frame(&mut stats);
    assert_eq!(stats.frame_counter, 2);
}

#[test]
fn a_second_passing_stores_the_count_and_updates_the_rate() {
    let mut stats = new_engine_stats();
    advance_frame_stats(&mut stats, false);
    advance_frame_stats(&mut stats, false);
    advance_frame_stats(&mut stats, true);
    assert_eq!(stats.frame_counts, vec![2]);
    assert_eq!(stats.frame_counter, 1);
    assert_eq!(stats.fps, 2);
}
