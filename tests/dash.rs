use intuition::dash::{
    body_split, log_tail_start, max_mean, plot_points, poll_timeout, row_percentages, scope_color,
    x_axis_marks, Color, Dash, Key, TabsState,
};
use intuition::profiler::{Profiler, ProfilerExt};
use intuition::timer::LogLevel;

fn two_scopes() -> Profiler<2, 100> {
    Profiler::new("Demo", vec!["a", "b"])
}

#[test]
fn new_dashboard_defaults() {
    let p = two_scopes();
    let d = Dash::from_profiler(&p);
    assert!(d.show_log());
    assert!(!d.should_quit());
    assert_eq!(d.controls().q_counter, 0);
    assert_eq!(d.tabs().index(), 0);
    assert_eq!(d.tabs().titles(), &vec!["Demo"]);
    assert_eq!(d.state_buffer().len(), 2);
    assert_eq!(d.log_buffer()[1].0, "b");
}

#[test]
fn two_q_presses_quit() {
    let p = two_scopes();
    let mut d = Dash::from_profiler(&p);
    d.on_key('q');
    assert!(!d.should_quit());
    d.on_key('q');
    assert!(d.should_quit());
}

#[test]
fn q_l_q_does_not_quit() {
    let p = two_scopes();
    let mut d = Dash::from_profiler(&p);
    d.on_key('q');
    d.on_key('l');
    d.on_key('q');
    assert!(!d.should_quit());
    assert_eq!(d.controls().q_counter, 1);
}

#[test]
fn other_key_resets_the_count() {
    let p = two_scopes();
    let mut d = Dash::from_profiler(&p);
    d.on_event(Key::Char('q'));
    d.on_event(Key::Char('x'));
    d.on_event(Key::Char('q'));
    assert!(!d.should_quit());
    d.on_event(Key::Char('q'));
    assert!(d.should_quit());
}

#[test]
fn toggling_logs_changes_the_next_frame() {
    let p = two_scopes();
    let mut d = Dash::from_profiler(&p);
    assert_eq!(d.body_split(), vec![50, 50]);
    d.on_key('l');
    assert!(!d.show_log());
    assert_eq!(d.body_split(), vec![100]);
    d.on_key('l');
    assert_eq!(d.body_split(), vec![50, 50]);
}

#[test]
fn left_with_one_tab_stays_on_it() {
    let p = two_scopes();
    let mut d = Dash::from_profiler(&p);
    d.on_left();
    assert_eq!(d.tabs().index(), 0);
    d.on_event(Key::Right);
    assert_eq!(d.tabs().index(), 0);
    d.on_event(Key::Up);
    d.on_event(Key::Down);
    assert_eq!(d.tabs().index(), 0);
}

#[test]
fn tabs_wrap_both_ways() {
    let mut t = TabsState::new(vec!["x", "y", "z"]);
    t.previous();
    assert_eq!(t.index(), 2);
    t.next();
    assert_eq!(t.index(), 0);
    t.next();
    assert_eq!(t.index(), 1);
}

#[test]
fn layout_of_two_scopes() {
    assert_eq!(body_split(true), vec![50, 50]);
    assert_eq!(row_percentages(2), vec![50, 50]);
    assert_eq!(body_split(false), vec![100]);
    assert_eq!(row_percentages(3), vec![33, 33, 33]);
    assert_eq!(row_percentages(1), vec![100]);
}

#[test]
fn history_axis_marks() {
    assert_eq!(x_axis_marks(100), vec![100, 50, 0]);
    assert_eq!(x_axis_marks(20), vec![20, 0]);
    assert_eq!(x_axis_marks(50), vec![50, 0]);
    assert_eq!(x_axis_marks(51), vec![51, 25, 0]);
    let p = two_scopes();
    let d = Dash::from_profiler(&p);
    assert_eq!(d.x_axis_marks(), vec![100, 50, 0]);
}

#[test]
fn zero_means_are_not_plotted() {
    assert_eq!(plot_points(&vec![0, 5, 0, 7]), vec![(1, 5), (3, 7)]);
    assert!(plot_points(&vec![]).is_empty());
    assert!(plot_points(&vec![0, 0]).is_empty());
}

#[test]
fn max_mean_of_snapshot() {
    assert_eq!(max_mean(&vec![]), 0);
    assert_eq!(max_mean(&vec![3, 9, 4]), 9);
    assert_eq!(max_mean(&vec![7]), 7);
}

#[test]
fn scope_colors_cycle() {
    assert_eq!(scope_color(0), Color::Cyan);
    assert_eq!(scope_color(1), Color::Red);
    assert_eq!(scope_color(2), Color::Yellow);
    assert_eq!(scope_color(3), Color::Magenta);
    assert_eq!(scope_color(4), Color::Cyan);
}

#[test]
fn log_tail_keeps_last_hundred() {
    assert_eq!(log_tail_start(0), 0);
    assert_eq!(log_tail_start(100), 0);
    assert_eq!(log_tail_start(250), 150);
}

#[test]
fn poll_timeout_never_negative() {
    assert_eq!(poll_timeout(50, 20), 30);
    assert_eq!(poll_timeout(50, 80), 0);
}

#[test]
fn tick_copies_means_and_drains_logs() {
    let mut p: Profiler<1, 3> = Profiler::new("Demo", vec!["a", "b"]);
    let mut d = Dash::from_profiler(&p);
    p.record_nanos(0, 9);
    p.log(1, LogLevel::Warn, "slow");
    d.on_tick(&mut p);
    assert_eq!(d.state_buffer()[0].1, vec![9]);
    assert!(d.state_buffer()[1].1.is_empty());
    assert_eq!(d.log_buffer()[1].1.len(), 1);
    assert_eq!(d.log_buffer()[1].1[0].log, "slow");
    assert!(p.timer(1).pending_logs().is_empty());
    d.on_tick(&mut p);
    assert_eq!(d.log_buffer()[1].1.len(), 1);
    assert_eq!(d.state_buffer()[0].1, vec![9]);
}
