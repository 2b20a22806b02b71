use intuition::timer::{LogLevel, Timer};

#[test]
fn fresh_timer_is_empty() {
    let t: Timer<2, 3> = Timer::new();
    assert_eq!(t.total_count(), 0);
    assert_eq!(t.total_time(), 0);
    assert_eq!(t.current_count(), 0);
    assert_eq!(t.current_time(), 0);
    assert!(t.recent_averages().is_empty());
    assert!(t.pending_logs().is_empty());
}

#[test]
fn counts_follow_number_of_iterations() {
    let mut t: Timer<3, 2> = Timer::new();
    for n in 1..=7usize {
        t.add_time(n);
    }
    assert_eq!(t.total_count(), 7);
    assert_eq!(t.current_count(), 7 % 3);
    assert_eq!(t.recent_averages().len(), std::cmp::min(7 / 3, 2));
    assert_eq!(t.total_time(), 28);
    assert_eq!(t.current_time(), 7);
}

#[test]
fn history_length_saturates_at_a() {
    let mut t: Timer<1, 4> = Timer::new();
    for n in 0..10usize {
        t.add_time(n);
        assert_eq!(t.recent_averages().len(), std::cmp::min(n + 1, 4));
    }
    assert_eq!(t.recent_averages(), &vec![6, 7, 8, 9]);
}

#[test]
fn latest_mean_is_average_of_last_window() {
    let mut t: Timer<4, 3> = Timer::new();
    for d in [100usize, 200, 300, 400, 1, 2, 3, 10] {
        t.add_time(d);
    }
    assert_eq!(t.recent_averages(), &vec![250, 4]);
    assert_eq!(*t.recent_averages().last().unwrap(), (1 + 2 + 3 + 10) / 4);
}

#[test]
fn window_mean_truncates() {
    let mut t: Timer<2, 3> = Timer::new();
    t.add_time(1);
    t.add_time(2);
    assert_eq!(t.recent_averages(), &vec![1]);
    assert_eq!(t.current_count(), 0);
    assert_eq!(t.current_time(), 0);
}

#[test]
fn logging_leaves_counts_times_and_means() {
    let mut t: Timer<2, 3> = Timer::new();
    t.add_time(10);
    t.add_time(20);
    t.add_time(5);
    t.info("i");
    t.warn("w");
    t.error(&String::from("e"));
    assert_eq!(t.total_count(), 3);
    assert_eq!(t.total_time(), 35);
    assert_eq!(t.current_count(), 1);
    assert_eq!(t.current_time(), 5);
    assert_eq!(t.recent_averages(), &vec![15]);
    let logs = t.pending_logs();
    assert_eq!(logs.len(), 3);
    assert_eq!(logs[0].level, LogLevel::Info);
    assert_eq!(logs[0].log, "i");
    assert_eq!(logs[1].level, LogLevel::Warn);
    assert_eq!(logs[1].log, "w");
    assert_eq!(logs[2].level, LogLevel::Error);
    assert_eq!(logs[2].log, "e");
}

#[test]
fn take_logs_hands_over_in_order() {
    let mut t: Timer<2, 3> = Timer::new();
    t.warn("x");
    t.info("y");
    let taken = t.take_logs();
    assert_eq!(taken.len(), 2);
    assert_eq!(taken[0].log, "x");
    assert_eq!(taken[1].log, "y");
    assert!(t.pending_logs().is_empty());
    assert!(t.take_logs().is_empty());
}

#[test]
fn iteration_returns_body_result_and_counts_once() {
    let mut t: Timer<1, 2> = Timer::new();
    let v = t.iteration(|| 6 * 7);
    assert_eq!(v, 42);
    assert_eq!(t.total_count(), 1);
    assert_eq!(t.current_count(), 0);
    assert_eq!(t.recent_averages().len(), 1);
    assert_eq!(t.recent_averages()[0], t.total_time());
}

#[test]
fn record_nanos_accepts_a_fitting_duration() {
    let mut t: Timer<2, 2> = Timer::new();
    assert!(t.record_nanos(7));
    assert_eq!(t.total_time(), 7);
    assert_eq!(t.current_time(), 7);
    assert_eq!(t.total_count(), 1);
}

#[test]
fn record_nanos_refuses_what_does_not_fit() {
    let mut t: Timer<2, 2> = Timer::new();
    assert!(!t.record_nanos(u128::MAX));
    assert_eq!(t.total_count(), 0);
    assert!(t.record_nanos(usize::MAX as u128));
    assert!(!t.can_add(1));
    assert!(!t.record_nanos(1));
    assert_eq!(t.total_count(), 1);
    assert_eq!(t.total_time(), usize::MAX);
}

#[test]
fn level_tags_have_fixed_width() {
    assert_eq!(LogLevel::Info.tag(), "INFO ");
    assert_eq!(LogLevel::Warn.tag(), "WARN ");
    assert_eq!(LogLevel::Error.tag(), "ERROR");
}
