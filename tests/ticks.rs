use joker_ecs::change_detection::MAX_CHANGE_AGE;
use joker_ecs::component::{ComponentTicks, Tick};

#[test]
fn same_tick_is_not_newer() {
    let t = Tick::new(5);
    assert!(!t.is_newer_than(Tick::new(5), Tick::new(5)));
}

#[test]
fn write_after_last_run_is_newer() {
    let written = Tick::new(11);
    assert!(written.is_newer_than(Tick::new(10), Tick::new(12)));
    assert!(!Tick::new(9).is_newer_than(Tick::new(10), Tick::new(12)));
}

#[test]
fn newer_across_wrap() {
    let last_run = Tick::new(u32::MAX - 2);
    let written = Tick::new(u32::MAX);
    let this_run = Tick::new(3);
    assert!(written.is_newer_than(last_run, this_run));
    assert!(Tick::new(1).is_newer_than(last_run, this_run));
    assert!(!Tick::new(u32::MAX - 3).is_newer_than(last_run, this_run));
}

#[test]
fn relative_to_wraps() {
    assert_eq!(Tick::new(2).relative_to(Tick::new(5)).get(), u32::MAX - 2);
    assert_eq!(Tick::new(7).relative_to(Tick::new(5)).get(), 2);
}

#[test]
fn check_tick_rebases_old_stamps() {
    let mut t = Tick::new(0);
    let now = Tick::new(MAX_CHANGE_AGE + 10);
    assert!(t.check_tick(now));
    assert_eq!(t.get(), 10);
    let mut fresh = Tick::new(20);
    assert!(!fresh.check_tick(now));
    assert_eq!(fresh.get(), 20);
}

#[test]
fn component_ticks_track_added_and_changed() {
    let mut ticks = ComponentTicks::new(Tick::new(3));
    assert!(ticks.is_added(Tick::new(2), Tick::new(4)));
    ticks.set_changed(Tick::new(8));
    assert!(ticks.is_changed(Tick::new(5), Tick::new(9)));
    assert!(!ticks.is_added(Tick::new(5), Tick::new(9)));
}

#[test]
fn max_change_age_value() {
    assert_eq!(MAX_CHANGE_AGE, u32::MAX - (2 * 518_400_000 - 1));
}
