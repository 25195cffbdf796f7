use sysinfo_reader::ringbuf::RingStatsBuffer;

#[test]
fn test_ring_stats_buffer() {
    let mut sts: RingStatsBuffer<u32> = RingStatsBuffer::new(3, false);
    sts.push_back(2);
    sts.push_back(3);
    sts.push_back(4);
    assert_eq!(sts.get_avg(), 3);
    sts.push_back(5);
    assert_eq!(sts.capacity(), 3);
    sts.calc_stats();
    assert_eq!(sts.get_avg(), 4);
    assert_eq!(sts.get_max(), 5);
    assert_eq!(sts.get_min(), 2);
    assert_eq!(sts.get_last(), Some(5));
    assert_eq!(sts.pop_front(), Some(3));
    assert_eq!(sts.len(), 2);
    let mut sts: RingStatsBuffer<u32> = RingStatsBuffer::new(3, true);
    sts.push_back(5);
    sts.push_back(1);
    sts.push_back(3);
    sts.push_back(4);
    sts.push_back(2);
    assert_eq!(sts.get_max(), 4);
    assert_eq!(sts.get_min(), 2);
    assert_eq!(sts.get_last_max(), 5);
    assert_eq!(sts.get_last_min(), 1);
}

fn window(buffer: &RingStatsBuffer<u64>) -> Vec<u64> {
    buffer.iter().copied().collect()
}

#[test]
fn new_buffer_has_no_data() {
    let buffer: RingStatsBuffer<u64> = RingStatsBuffer::new(4, true);
    assert_eq!(buffer.len(), 0);
    assert_eq!(buffer.capacity(), 4);
    assert!(buffer.has_reset_flag());
    assert!(buffer.committed().is_none());
    assert_eq!(buffer.get_last(), None);
    assert_eq!(buffer.get_avg(), 0);
    assert_eq!(buffer.get_last_min(), 0);
    assert_eq!(buffer.get_last_max(), 0);
    assert_eq!(buffer.get_min(), u64::MAX);
    assert_eq!(buffer.get_max(), 0);
    let other: RingStatsBuffer<u32> = RingStatsBuffer::new(4, false);
    assert!(!other.has_reset_flag());
    assert_eq!(other.get_min(), u32::MAX);
}

#[test]
fn length_never_exceeds_capacity_and_fills_up() {
    let mut buffer: RingStatsBuffer<u64> = RingStatsBuffer::new(5, false);
    for n in 1..=20u64 {
        buffer.push_back(n);
        assert!(buffer.len() <= 5);
        assert_eq!(buffer.len(), std::cmp::min(n as usize, 5));
    }
    assert_eq!(window(&buffer), vec![16, 17, 18, 19, 20]);
}

#[test]
fn first_epoch_commits_mean_and_extrema() {
    let mut buffer: RingStatsBuffer<u64> = RingStatsBuffer::new(4, false);
    for v in [7u64, 3, 10, 9] {
        assert!(buffer.committed().is_none());
        buffer.push_back(v);
    }
    let stats = buffer.committed().unwrap();
    assert_eq!(stats.avg, 7);
    assert_eq!(stats.min, 3);
    assert_eq!(stats.max, 10);
}

#[test]
fn mean_rounds_down() {
    let mut buffer: RingStatsBuffer<u64> = RingStatsBuffer::new(3, false);
    for v in [1u64, 2, 2] {
        buffer.push_back(v);
    }
    assert_eq!(buffer.get_avg(), 1);
}

#[test]
fn reset_mode_second_epoch_stands_alone() {
    let mut buffer: RingStatsBuffer<u64> = RingStatsBuffer::new(3, true);
    for v in [1u64, 2, 3] {
        buffer.push_back(v);
    }
    buffer.push_back(10);
    buffer.push_back(12);
    let live = buffer.live_extrema();
    assert_eq!((live.min, live.max), (10, 12));
    buffer.push_back(11);
    let stats = buffer.committed().unwrap();
    assert_eq!((stats.min, stats.max, stats.avg), (10, 12, 11));
    let live = buffer.live_extrema();
    assert_eq!((live.min, live.max), (u64::MAX, 0));
}

#[test]
fn no_reset_mode_keeps_all_time_extrema() {
    let mut buffer: RingStatsBuffer<u64> = RingStatsBuffer::new(3, false);
    for v in [1u64, 2, 3, 10, 12, 11] {
        buffer.push_back(v);
    }
    let live = buffer.live_extrema();
    assert_eq!((live.min, live.max), (1, 12));
    let stats = buffer.committed().unwrap();
    assert_eq!((stats.min, stats.max, stats.avg), (1, 12, 11));
}

#[test]
fn last_follows_every_push() {
    let mut buffer: RingStatsBuffer<u32> = RingStatsBuffer::new(2, true);
    for v in [9u32, 4, 7, 1, 1, 30] {
        buffer.push_back(v);
        assert_eq!(buffer.get_last(), Some(v));
    }
}

#[test]
fn capacity_three_without_reset_commits_once_per_epoch() {
    let mut buffer: RingStatsBuffer<u64> = RingStatsBuffer::new(3, false);
    buffer.push_back(2);
    buffer.push_back(3);
    assert!(buffer.committed().is_none());
    buffer.push_back(4);
    assert_eq!(window(&buffer), vec![2, 3, 4]);
    assert_eq!(buffer.committed().unwrap().avg, 3);
    buffer.push_back(5);
    assert_eq!(window(&buffer), vec![3, 4, 5]);
    assert_eq!(buffer.committed().unwrap().avg, 3);
    buffer.push_back(6);
    assert_eq!(buffer.committed().unwrap().avg, 3);
    buffer.push_back(7);
    assert_eq!(buffer.committed().unwrap().avg, 6);
}

#[test]
fn capacity_three_with_reset_starts_the_extrema_afresh() {
    let mut buffer: RingStatsBuffer<u64> = RingStatsBuffer::new(3, true);
    for v in [5u64, 1, 3] {
        buffer.push_back(v);
    }
    let stats = buffer.committed().unwrap();
    assert_eq!((stats.max, stats.min), (5, 1));
    let live = buffer.live_extrema();
    assert_eq!((live.min, live.max), (u64::MAX, 0));
    buffer.push_back(4);
    buffer.push_back(2);
    let live = buffer.live_extrema();
    assert_eq!((live.max, live.min), (4, 2));
    let stats = buffer.committed().unwrap();
    assert_eq!((stats.max, stats.min), (5, 1));
}

#[test]
fn capacity_zero_holds_nothing() {
    let mut buffer: RingStatsBuffer<u64> = RingStatsBuffer::new(0, false);
    buffer.push_back(5);
    buffer.push_back(2);
    assert_eq!(buffer.len(), 0);
    assert_eq!(buffer.get_last(), None);
    assert!(buffer.committed().is_none());
    assert_eq!(buffer.get_min(), 2);
    assert_eq!(buffer.get_max(), 5);
    assert_eq!(buffer.pop_front(), None);
}

#[test]
fn capacity_one_commits_every_push() {
    let mut buffer: RingStatsBuffer<u64> = RingStatsBuffer::new(1, true);
    buffer.push_back(8);
    let stats = buffer.committed().unwrap();
    assert_eq!((stats.min, stats.max, stats.avg), (8, 8, 8));
    buffer.push_back(3);
    let stats = buffer.committed().unwrap();
    assert_eq!((stats.min, stats.max, stats.avg), (3, 3, 3));
    assert_eq!(buffer.get_min(), u64::MAX);
}

#[test]
fn samples_above_the_u32_range_keep_their_minimum() {
    let mut buffer: RingStatsBuffer<u64> = RingStatsBuffer::new(2, false);
    buffer.push_back(10_000_000_000);
    buffer.push_back(20_000_000_000);
    let stats = buffer.committed().unwrap();
    assert_eq!((stats.min, stats.max, stats.avg), (10_000_000_000, 20_000_000_000, 15_000_000_000));
}

#[test]
fn mean_of_the_largest_samples_does_not_overflow() {
    let mut buffer: RingStatsBuffer<u64> = RingStatsBuffer::new(3, false);
    for _ in 0..3 {
        buffer.push_back(u64::MAX);
    }
    assert_eq!(buffer.get_avg(), u64::MAX);
    let mut small: RingStatsBuffer<u32> = RingStatsBuffer::new(2, false);
    small.push_back(u32::MAX);
    small.push_back(u32::MAX - 1);
    assert_eq!(small.get_avg(), u32::MAX - 1);
}

#[test]
fn forced_commit_begins_a_new_epoch() {
    let mut buffer: RingStatsBuffer<u64> = RingStatsBuffer::new(3, false);
    buffer.push_back(4);
    buffer.calc_stats();
    assert_eq!(buffer.get_avg(), 4);
    buffer.push_back(6);
    buffer.push_back(8);
    assert_eq!(buffer.get_avg(), 4);
    buffer.push_back(10);
    assert_eq!(buffer.get_avg(), 8);
}

#[test]
fn forced_commit_of_an_empty_window_publishes_nothing() {
    let mut buffer: RingStatsBuffer<u64> = RingStatsBuffer::new(3, true);
    buffer.calc_stats();
    assert!(buffer.committed().is_none());
    buffer.push_back(4);
    assert_eq!(buffer.pop_front(), Some(4));
    buffer.calc_stats();
    assert!(buffer.committed().is_none());
    assert_eq!(buffer.get_min(), 4);
}

#[test]
fn pop_front_takes_the_oldest() {
    let mut buffer: RingStatsBuffer<u64> = RingStatsBuffer::new(3, false);
    for v in [1u64, 2, 3, 4] {
        buffer.push_back(v);
    }
    assert_eq!(buffer.pop_front(), Some(2));
    assert_eq!(buffer.pop_front(), Some(3));
    assert_eq!(buffer.get_last(), Some(4));
    assert_eq!(buffer.pop_front(), Some(4));
    assert_eq!(buffer.pop_front(), None);
    assert_eq!(buffer.get_last(), None);
    assert_eq!(buffer.committed().unwrap().avg, 2);
}

#[test]
fn slices_hold_the_window_in_order() {
    let mut buffer: RingStatsBuffer<u64> = RingStatsBuffer::new(4, false);
    for v in 1..=7u64 {
        buffer.push_back(v);
    }
    let (front, back) = buffer.as_slices();
    let mut joined = front.to_vec();
    joined.extend_from_slice(back);
    assert_eq!(joined, vec![4, 5, 6, 7]);
    assert_eq!(window(&buffer), joined);
}

#[test]
fn the_largest_capacity_is_no_trouble() {
    let mut buffer: RingStatsBuffer<u64> = RingStatsBuffer::new(usize::MAX, true);
    assert_eq!(buffer.capacity(), usize::MAX);
    for v in 1..=100u64 {
        buffer.push_back(v);
    }
    assert_eq!(buffer.len(), 100);
    assert!(buffer.committed().is_none());
    assert_eq!(buffer.get_min(), 1);
    assert_eq!(buffer.get_max(), 100);
    buffer.calc_stats();
    let stats = buffer.committed().unwrap();
    assert_eq!((stats.min, stats.max, stats.avg), (1, 100, 50));
}
