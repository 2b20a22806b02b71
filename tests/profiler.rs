use intuition::profiler::{Profiler, ProfilerExt};
use intuition::timer::LogLevel;

fn one_scope() -> Profiler<2, 3> {
    Profiler::new("P", vec!["a"])
}

#[test]
fn four_iterations_give_two_means() {
    let mut p = one_scope();
    for d in [10u128, 20, 30, 40] {
        assert!(p.record_nanos(0, d));
    }
    let mut buf = p.state_buffer();
    p.snapshot_means(&mut buf);
    assert_eq!(buf, vec![("a", vec![15usize, 35])]);
    assert_eq!(p.timer(0).total_count(), 4);
    assert_eq!(p.timer(0).current_count(), 0);
}

#[test]
fn oldest_mean_is_evicted() {
    let mut p = one_scope();
    for _ in 0..6 {
        p.record_nanos(0, 1);
    }
    let mut buf = p.state_buffer();
    p.snapshot_means(&mut buf);
    assert_eq!(buf[0].1, vec![1usize, 1, 1]);
    p.record_nanos(0, 100);
    p.record_nanos(0, 100);
    p.snapshot_means(&mut buf);
    assert_eq!(buf[0].1, vec![1usize, 1, 100]);
}

#[test]
fn two_scopes_single_window() {
    let mut p: Profiler<1, 2> = Profiler::new("P", vec!["a", "b"]);
    p.record_nanos(0, 5);
    p.record_nanos(1, 7);
    let mut buf = p.state_buffer();
    p.snapshot_means(&mut buf);
    assert_eq!(buf, vec![("a", vec![5usize]), ("b", vec![7usize])]);
    assert_eq!(p.timer(0).total_count(), 1);
    assert_eq!(p.timer(1).total_count(), 1);
}

#[test]
fn warnings_drain_in_order_then_nothing() {
    let mut p = one_scope();
    p.log(0, LogLevel::Warn, "x");
    p.log(0, LogLevel::Warn, "y");
    let mut buf = p.log_buffer();
    p.drain_logs(&mut buf);
    let got: Vec<(LogLevel, String)> = buf[0].1.iter().map(|l| (l.level, l.log.clone())).collect();
    assert_eq!(got, vec![(LogLevel::Warn, "x".to_string()), (LogLevel::Warn, "y".to_string())]);
    p.drain_logs(&mut buf);
    assert_eq!(buf[0].1.len(), 2);
}

#[test]
fn state_buffer_matches_scopes() {
    let p: Profiler<4, 9> = Profiler::new("T", vec!["gen", "sum", "hash"]);
    let buf = p.state_buffer();
    assert_eq!(buf.len(), p.scopes().len());
    for (i, (name, means)) in buf.iter().enumerate() {
        assert_eq!(*name, p.scopes()[i]);
        assert!(means.is_empty());
        assert!(means.capacity() >= 9);
    }
    let logs = p.log_buffer();
    assert_eq!(logs.iter().map(|e| e.0).collect::<Vec<_>>(), vec!["gen", "sum", "hash"]);
    assert_eq!(p.title(), "T");
    assert_eq!(p.window_size(), 4);
    assert_eq!(p.num_averages(), 9);
}

#[test]
fn repeated_snapshot_is_identical() {
    let mut p: Profiler<1, 5> = Profiler::new("P", vec!["a", "b"]);
    p.record_nanos(0, 3);
    p.record_nanos(1, 4);
    p.record_nanos(1, 8);
    let mut first = p.state_buffer();
    p.snapshot_means(&mut first);
    let mut second = first.clone();
    p.snapshot_means(&mut second);
    assert_eq!(first, second);
    assert_eq!(second[1].1, vec![4usize, 8]);
}

#[test]
fn drain_appends_to_what_the_buffer_holds() {
    let mut p = one_scope();
    let mut buf = p.log_buffer();
    p.log(0, LogLevel::Info, "first");
    p.drain_logs(&mut buf);
    p.log(0, LogLevel::Error, "second");
    p.drain_logs(&mut buf);
    assert_eq!(buf[0].1.len(), 2);
    assert_eq!(buf[0].1[0].log, "first");
    assert_eq!(buf[0].1[1].log, "second");
    assert_eq!(buf[0].1[1].level, LogLevel::Error);
    assert!(p.timer(0).pending_logs().is_empty());
}

#[test]
fn drain_counts_every_record() {
    let mut p: Profiler<2, 2> = Profiler::new("P", vec!["a", "b", "c"]);
    let plan = [(0usize, "a1"), (2, "c1"), (0, "a2"), (1, "b1"), (2, "c2"), (0, "a3")];
    for (scope, msg) in plan {
        p.log(scope, LogLevel::Info, msg);
    }
    let mut buf = p.log_buffer();
    p.drain_logs(&mut buf);
    let total: usize = buf.iter().map(|e| e.1.len()).sum();
    assert_eq!(total, plan.len());
    let a: Vec<&str> = buf[0].1.iter().map(|l| l.log.as_str()).collect();
    let c: Vec<&str> = buf[2].1.iter().map(|l| l.log.as_str()).collect();
    assert_eq!(a, vec!["a1", "a2", "a3"]);
    assert_eq!(c, vec!["c1", "c2"]);
}

#[test]
fn logging_does_not_touch_means() {
    let mut p = one_scope();
    p.record_nanos(0, 4);
    p.record_nanos(0, 6);
    p.log(0, LogLevel::Error, "boom");
    assert_eq!(p.timer(0).recent_averages(), &vec![5]);
    assert_eq!(p.timer(0).total_count(), 2);
}

#[test]
fn profiler_iteration_returns_body_result() {
    let mut p: Profiler<1, 1> = Profiler::new("P", vec!["a", "b"]);
    let r = p.iteration(1, || "done");
    assert_eq!(r, "done");
    assert_eq!(p.timer(0).total_count(), 0);
    assert_eq!(p.timer(1).total_count(), 1);
}
