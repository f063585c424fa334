use project_watcher::timeline::{debounced_times, TimelineError};

#[test]
fn burst_of_three_is_answered_once_after_the_last() {
    assert_eq!(debounced_times(&vec![0, 10, 20], 50), Ok(vec![70]));
}

#[test]
fn two_signals_far_apart_are_answered_twice() {
    assert_eq!(debounced_times(&vec![0, 100], 50), Ok(vec![50, 150]));
}

#[test]
fn lone_signal_is_answered_exactly_once() {
    assert_eq!(debounced_times(&vec![5], 50), Ok(vec![55]));
}

#[test]
fn no_signal_no_answer() {
    assert_eq!(debounced_times(&vec![], 50), Ok(vec![]));
    assert_eq!(debounced_times(&vec![], 0), Ok(vec![]));
}

#[test]
fn long_burst_counts_from_its_last_signal_not_its_first() {
    let arrivals: Vec<u64> = (0..40).map(|i| 1_000 + i * 49).collect();
    let last = 1_000 + 39 * 49;
    assert_eq!(debounced_times(&arrivals, 50), Ok(vec![last + 50]));
}

#[test]
fn spaced_signals_are_answered_one_by_one() {
    assert_eq!(
        debounced_times(&vec![0, 51, 200, 1_000], 50),
        Ok(vec![50, 101, 250, 1_050])
    );
}

#[test]
fn each_group_is_answered_once() {
    // three groups: {0, 10, 20}, {100}, {300, 340, 380}
    assert_eq!(
        debounced_times(&vec![0, 10, 20, 100, 300, 340, 380], 50),
        Ok(vec![70, 150, 430])
    );
}

#[test]
fn groups_are_answered_independently() {
    let whole = debounced_times(&vec![0, 10, 20, 100, 300, 340, 380], 50).unwrap();
    let mut parts = debounced_times(&vec![0, 10, 20], 50).unwrap();
    parts.extend(debounced_times(&vec![100, 300, 340, 380], 50).unwrap());
    assert_eq!(whole, parts);
}

#[test]
fn signal_at_the_very_end_of_a_countdown_finds_it_ended() {
    assert_eq!(debounced_times(&vec![0, 50], 50), Ok(vec![50, 100]));
    assert_eq!(debounced_times(&vec![0, 49], 50), Ok(vec![99]));
}

#[test]
fn signals_at_the_same_instant_are_one_burst() {
    assert_eq!(debounced_times(&vec![3, 3, 3], 5), Ok(vec![8]));
}

#[test]
fn zero_period_answers_every_signal_at_once() {
    assert_eq!(debounced_times(&vec![1, 2, 2, 9], 0), Ok(vec![1, 2, 2, 9]));
}

#[test]
fn arrival_out_of_order_is_refused() {
    assert_eq!(
        debounced_times(&vec![10, 5], 50),
        Err(TimelineError::OutOfOrder { index: 1 })
    );
    assert_eq!(
        debounced_times(&vec![0, 10, 20, 19, 18], 50),
        Err(TimelineError::OutOfOrder { index: 3 })
    );
}

#[test]
fn countdown_beyond_the_clock_is_refused() {
    assert_eq!(
        debounced_times(&vec![u64::MAX], 1),
        Err(TimelineError::Overflow)
    );
    assert_eq!(
        debounced_times(&vec![0, u64::MAX - 49], 50),
        Err(TimelineError::Overflow)
    );
    assert_eq!(
        debounced_times(&vec![0, u64::MAX - 50], 50),
        Ok(vec![50, u64::MAX])
    );
    assert_eq!(debounced_times(&vec![u64::MAX], 0), Ok(vec![u64::MAX]));
}

#[test]
fn disorder_is_reported_before_overflow() {
    assert_eq!(
        debounced_times(&vec![u64::MAX, 0], 50),
        Err(TimelineError::OutOfOrder { index: 1 })
    );
}

#[test]
fn never_more_answers_than_signals() {
    let arrivals: Vec<u64> = vec![0, 1, 2, 60, 61, 200, 900, 901, 902, 903];
    for period in [0u64, 1, 2, 50, 58, 59, 1_000] {
        let times = debounced_times(&arrivals, period).unwrap();
        assert!(times.len() <= arrivals.len());
        assert!(!times.is_empty());
        assert_eq!(*times.last().unwrap(), 903 + period);
    }
}
