use gpui_animation::animation::AnimationPriority;
use gpui_animation::interpolate::State;
use std::time::Duration;

fn ms(n: u64) -> Duration {
    Duration::from_millis(n)
}

#[test]
fn new_state_rests_at_its_style() {
    let s = State::new(7i32);
    assert_eq!((s.origin, s.from, s.to, s.cur), (7, 7, 7, 7));
    assert!(s.settled);
    assert_eq!(s.version, 0);
    assert_eq!(s.priority, AnimationPriority::Lowest);
}

#[test]
fn origin_retargets_at_the_initial_style() {
    let mut s = State::new(1i32);
    s.to = 5;
    s.cur = 3;
    let s = s.origin();
    assert_eq!(s.to, 1);
    assert_eq!(s.cur, 3);
    assert_eq!(s.origin, 1);
}

#[test]
fn same_target_compares_targets_only() {
    let mut a = State::new(1i32);
    let mut b = State::new(2i32);
    a.to = 9;
    b.to = 9;
    assert!(a.same_target(&b));
    b.to = 8;
    assert!(!a.same_target(&b));
}

#[test]
fn pre_animated_restarts_from_current() {
    let mut s = State::new(0i32);
    s.to = 10;
    s.cur = 4;
    let (ver, dt) = s.pre_animated(ms(200), ms(50));
    assert_eq!(ver, 1);
    assert_eq!(s.version, 1);
    assert_eq!(dt, ms(200));
    assert_eq!(s.from, 4);
    assert!(!s.settled);
}

#[test]
fn pre_animated_reversing_takes_reversed_duration() {
    let mut s = State::new(0i32);
    s.to = 10;
    s.from = 10;
    s.cur = 6;
    let (ver, dt) = s.pre_animated(ms(200), ms(80));
    assert_eq!(ver, 1);
    assert_eq!(dt, ms(80));
    assert_eq!(s.from, 6);
}

#[test]
fn animated_stale_version_is_over_and_changes_nothing() {
    let mut s = State::new(0i32);
    s.to = 10;
    s.pre_animated(ms(100), ms(100));
    let before = (s.from, s.to, s.cur, s.settled, s.version);
    assert!(s.animated(0, true, 99, true));
    assert_eq!((s.from, s.to, s.cur, s.settled, s.version), before);
}

#[test]
fn animated_in_progress_shows_blended() {
    let mut s = State::new(0i32);
    s.to = 10;
    let (ver, _) = s.pre_animated(ms(100), ms(100));
    assert!(!s.animated(ver, false, 4, false));
    assert_eq!(s.cur, 4);
    assert!(!s.settled);
}

#[test]
fn animated_at_end_shows_target() {
    let mut s = State::new(0i32);
    s.to = 10;
    let (ver, _) = s.pre_animated(ms(100), ms(100));
    assert!(s.animated(ver, true, 4, false));
    assert_eq!(s.cur, 10);
    assert!(s.settled);
    let (ver, _) = s.pre_animated(ms(100), ms(100));
    assert!(!s.animated(ver, true, 4, true));
    assert_eq!(s.cur, 10);
    assert!(s.settled);
}

#[test]
fn restart_outdates_older_animation() {
    let mut s = State::new(0i32);
    s.to = 10;
    let (first, _) = s.pre_animated(ms(100), ms(100));
    let (second, _) = s.pre_animated(ms(100), ms(100));
    assert_eq!(second, first + 1);
    let cur = s.cur;
    assert!(s.animated(first, false, 5, false));
    assert_eq!(s.cur, cur);
    assert!(!s.animated(second, false, 5, false));
    assert_eq!(s.cur, 5);
}
