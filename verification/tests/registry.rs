use gpui_animation::animation::{AnimationPriority, Event};
use gpui_animation::interpolate::State;
use gpui_animation::transition::TransitionRegistry;
use std::collections::HashMap;
use std::time::Duration;

type Registry = TransitionRegistry<i32, &'static str>;

fn ms(n: u64) -> Duration {
    Duration::from_millis(n)
}

fn ready() -> Registry {
    let mut r = Registry::new();
    assert!(r.init());
    r
}

#[test]
fn event_variants_compare_by_value() {
    assert_eq!(Event::HOVER, Event::HOVER);
    assert_ne!(Event::HOVER, Event::CLICK);
    assert_ne!(Event::NONE, Event::CLICK);
}

#[test]
fn init_reports_only_the_first_time() {
    let mut r = Registry::new();
    assert!(!r.is_initialized());
    assert!(r.init());
    assert!(r.is_initialized());
    assert!(!r.init());
    assert!(r.is_initialized());
}

#[test]
fn state_is_hidden_until_initialized() {
    let mut r = Registry::new();
    r.with_state_default(1, &5, |s| (s, ()));
    assert_eq!(r.state_mut(1, |s| (s, ())), None);
    r.init();
    assert_eq!(r.state_mut(1, |s| {
        let cur = s.cur;
        (s, cur)
    }), Some(5));
    assert_eq!(r.state_mut(2, |s| (s, ())), None);
}

#[test]
fn with_state_default_creates_once() {
    let mut r = ready();
    let seen = r.with_state_default(3, &40, |s| {
        let seen = (s.origin, s.from, s.to, s.cur, s.version, s.settled, s.priority);
        (s, seen)
    });
    assert_eq!(seen, (40, 40, 40, 40, 0, true, AnimationPriority::Lowest));
    let to = r.with_state_default(3, &99, |s| {
        let to = s.to;
        (s, to)
    });
    assert_eq!(to, 40);
    assert_eq!(r.state_keys(), vec![3]);
    assert!(r.state(4).is_none());
}

#[test]
fn background_task_registers_and_replaces() {
    let mut r = ready();
    assert!(r.is_idle());
    r.background_animated_task(1, Event::HOVER, ms(100), ms(150), "linear", 2, true);
    let a = r.active_animation(1).unwrap();
    assert_eq!((a.event, a.duration, a.origin_duration, a.transition, a.ver, a.persistent),
        (Event::HOVER, ms(100), ms(150), "linear", 2, true));
    r.background_animated_task(1, Event::CLICK, ms(10), ms(10), "expo", 3, false);
    let a = r.active_animation(1).unwrap();
    assert_eq!((a.event, a.transition, a.ver, a.persistent), (Event::CLICK, "expo", 3, false));
    assert!(!r.is_idle());
    assert_eq!(r.active_keys(), vec![1]);
}

#[test]
fn save_needs_a_persistent_animation() {
    let mut r = ready();
    r.save_persistent_context(1, 8, ms(100), "linear", AnimationPriority::High);
    assert!(r.saved_context(1).is_none());
    r.background_animated_task(1, Event::HOVER, ms(100), ms(100), "linear", 0, false);
    r.save_persistent_context(1, 8, ms(100), "linear", AnimationPriority::High);
    assert!(r.saved_context(1).is_none());
    r.background_animated_task(1, Event::HOVER, ms(100), ms(100), "linear", 0, true);
    r.save_persistent_context(1, 8, ms(120), "quad", AnimationPriority::High);
    let c = r.saved_context(1).unwrap();
    assert_eq!((c.event, c.style, c.duration, c.transition, c.priority),
        (Event::HOVER, 8, ms(120), "quad", AnimationPriority::High));
}

#[test]
fn remove_context_matches_event() {
    let mut r = ready();
    r.background_animated_task(1, Event::HOVER, ms(100), ms(100), "linear", 0, true);
    r.save_persistent_context(1, 8, ms(100), "linear", AnimationPriority::High);
    r.remove_persistent_context(1, Event::CLICK);
    assert!(r.saved_context(1).is_some());
    r.remove_persistent_context(2, Event::HOVER);
    assert!(r.saved_context(1).is_some());
    r.remove_persistent_context(1, Event::HOVER);
    assert!(r.saved_context(1).is_none());
}

#[test]
fn animated_handle_starts_on_changed_target() {
    let mut r = ready();
    r.with_state_default(1, &0, |s| (s, ()));
    let mut modified = State::new(0);
    modified.to = 10;
    let out = r.animated_handle(1, modified, ms(200), ms(30), "linear", Event::CLICK, false);
    assert_eq!(out, Some((1, ms(200))));
    let s = r.state(1).unwrap();
    assert_eq!((s.to, s.from, s.version, s.settled), (10, 0, 1, false));
    let a = r.active_animation(1).unwrap();
    assert_eq!((a.event, a.duration, a.origin_duration, a.ver, a.persistent),
        (Event::CLICK, ms(200), ms(200), 1, false));
}

#[test]
fn animated_handle_unchanged_target_starts_nothing() {
    let mut r = ready();
    r.with_state_default(1, &0, |s| (s, ()));
    let mut modified = State::new(0);
    modified.cur = 3;
    let out = r.animated_handle(1, modified, ms(200), ms(30), "linear", Event::CLICK, false);
    assert_eq!(out, None);
    assert!(r.is_idle());
    assert_eq!(r.state(1).unwrap().cur, 3);
}

#[test]
fn animated_handle_without_state_or_init_does_nothing() {
    let mut r = Registry::new();
    r.with_state_default(1, &0, |s| (s, ()));
    let mut modified = State::new(0);
    modified.to = 10;
    assert_eq!(r.animated_handle(1, modified, ms(200), ms(30), "l", Event::NONE, false), None);
    assert_eq!(r.with_state_default(1, &0, |s| {
        let to = s.to;
        (s, to)
    }), 0);
    r.init();
    let mut modified = State::new(0);
    modified.to = 10;
    assert_eq!(r.animated_handle(2, modified, ms(200), ms(30), "l", Event::NONE, false), None);
    assert!(r.state(2).is_none());
    assert!(r.is_idle());
}

#[test]
fn animated_handle_back_to_start_uses_reversed_duration() {
    let mut r = ready();
    r.with_state_default(1, &0, |s| (s, ()));
    let mut m = State::new(0);
    m.to = 10;
    r.animated_handle(1, m, ms(200), ms(200), "l", Event::HOVER, false);
    let s = r.state(1).unwrap();
    let mut back = State { origin: s.origin, from: s.from, to: 0, cur: 4, settled: s.settled, version: s.version, priority: s.priority };
    back.to = back.from;
    let out = r.animated_handle(1, back, ms(200), ms(80), "l", Event::HOVER, false);
    assert_eq!(out, Some((2, ms(80))));
}

fn one(k: u64, v: bool) -> HashMap<u64, bool> {
    let mut m = HashMap::new();
    m.insert(k, v);
    m
}

fn blend(k: u64, v: i32) -> HashMap<u64, i32> {
    let mut m = HashMap::new();
    m.insert(k, v);
    m
}

fn started(r: &mut Registry, key: u64, to: i32, event: Event, persistent: bool) -> usize {
    r.with_state_default(key, &0, |mut s| {
        s.priority = AnimationPriority::Medium;
        (s, ())
    });
    let mut m = State::new(0);
    m.priority = AnimationPriority::Medium;
    m.to = to;
    r.animated_handle(key, m, ms(100), ms(100), "l", event, persistent).unwrap().0
}

#[test]
fn tick_blends_running_animation() {
    let mut r = ready();
    started(&mut r, 1, 10, Event::NONE, false);
    let rep = r.advance_animations(&one(1, false), blend(1, 4));
    assert!(rep.changed);
    assert_eq!(rep.measured, vec![1]);
    assert!(rep.removed.is_empty());
    assert_eq!(r.state(1).unwrap().cur, 4);
    assert!(r.active_animation(1).is_some());
}

#[test]
fn tick_finishes_event_animation_and_hands_it_back() {
    let mut r = ready();
    started(&mut r, 1, 10, Event::CLICK, false);
    let rep = r.advance_animations(&one(1, true), blend(1, 4));
    assert_eq!(r.state(1).unwrap().cur, 10);
    assert!(r.state(1).unwrap().settled);
    assert!(r.active_animation(1).is_none());
    assert_eq!(rep.removed.get(&1), Some(&(ms(100), "l")));
    assert!(r.is_idle());
}

#[test]
fn tick_finishes_plain_animation_without_hand_back() {
    let mut r = ready();
    started(&mut r, 1, 10, Event::NONE, false);
    let rep = r.advance_animations(&one(1, true), blend(1, 4));
    assert!(rep.removed.is_empty());
    assert!(r.active_animation(1).is_none());
}

#[test]
fn tick_keeps_persistent_animation() {
    let mut r = ready();
    started(&mut r, 1, 10, Event::HOVER, true);
    let rep = r.advance_animations(&one(1, true), blend(1, 4));
    assert!(rep.removed.is_empty());
    assert!(r.active_animation(1).is_some());
    assert_eq!(r.state(1).unwrap().cur, 10);
}

#[test]
fn tick_drops_stale_animation() {
    let mut r = ready();
    let ver = started(&mut r, 1, 10, Event::CLICK, false);
    r.background_animated_task(1, Event::CLICK, ms(100), ms(70), "old", ver - 1, false);
    let rep = r.advance_animations(&one(1, false), blend(1, 4));
    assert!(rep.changed);
    assert!(rep.measured.is_empty());
    assert_eq!(rep.removed.get(&1), Some(&(ms(70), "old")));
    assert_eq!(r.state(1).unwrap().cur, 0);
    assert!(r.active_animation(1).is_none());
}

#[test]
fn tick_drops_animation_without_state() {
    let mut r = ready();
    r.background_animated_task(9, Event::CLICK, ms(100), ms(100), "l", 0, true);
    let rep = r.advance_animations(&HashMap::new(), HashMap::new());
    assert!(!rep.changed);
    assert!(rep.removed.is_empty());
    assert!(r.is_idle());
    assert!(r.state(9).is_none());
}

#[test]
fn settle_plays_saved_restyle() {
    let mut r = ready();
    started(&mut r, 1, 10, Event::HOVER, true);
    r.save_persistent_context(1, 20, ms(300), "quad", AnimationPriority::High);
    let rep = r.advance_animations(&one(1, true), blend(1, 4));
    assert!(r.state(1).unwrap().settled);
    let mut rs = HashMap::new();
    rs.insert(1, ms(300));
    let restarted = r.settle_states(rep.removed, &rs, &HashMap::new());
    assert_eq!(restarted, vec![1]);
    assert!(r.saved_context(1).is_none());
    let s = r.state(1).unwrap();
    assert_eq!((s.to, s.from, s.version, s.settled), (20, 10, 2, false));
    let a = r.active_animation(1).unwrap();
    assert_eq!((a.event, a.duration, a.origin_duration, a.transition, a.ver, a.persistent),
        (Event::HOVER, ms(300), ms(300), "quad", 2, true));
}

#[test]
fn settle_leaves_running_state_alone() {
    let mut r = ready();
    started(&mut r, 1, 10, Event::HOVER, true);
    r.save_persistent_context(1, 20, ms(300), "quad", AnimationPriority::High);
    let rep = r.advance_animations(&one(1, false), blend(1, 4));
    let restarted = r.settle_states(rep.removed, &HashMap::new(), &HashMap::new());
    assert!(restarted.is_empty());
    assert!(r.saved_context(1).is_some());
    assert_eq!(r.state(1).unwrap().to, 10);
}

#[test]
fn settle_falls_back_to_origin() {
    let mut r = ready();
    started(&mut r, 1, 10, Event::CLICK, false);
    let rep = r.advance_animations(&one(1, true), blend(1, 4));
    assert_eq!(rep.removed.len(), 1);
    r.background_animated_task(1, Event::CLICK, ms(5), ms(5), "other", 9, false);
    let mut rf = HashMap::new();
    rf.insert(1, ms(100));
    let restarted = r.settle_states(rep.removed, &HashMap::new(), &rf);
    assert_eq!(restarted, vec![1]);
    let s = r.state(1).unwrap();
    assert_eq!((s.to, s.from, s.version, s.settled), (0, 10, 2, false));
    assert_eq!(s.priority, AnimationPriority::Lowest);
    let a = r.active_animation(1).unwrap();
    assert_eq!((a.event, a.duration, a.transition, a.ver, a.persistent),
        (Event::NONE, ms(100), "l", 2, false));
}

#[test]
fn settle_without_registered_animation_does_not_fall_back() {
    let mut r = ready();
    started(&mut r, 1, 10, Event::CLICK, false);
    let rep = r.advance_animations(&one(1, true), blend(1, 4));
    let mut rf = HashMap::new();
    rf.insert(1, ms(100));
    let restarted = r.settle_states(rep.removed, &HashMap::new(), &rf);
    assert!(restarted.is_empty());
    assert_eq!(r.state(1).unwrap().to, 10);
    assert!(r.is_idle());
}

#[test]
fn restarted_animation_is_current_at_next_tick() {
    let mut r = ready();
    started(&mut r, 1, 10, Event::HOVER, true);
    r.save_persistent_context(1, 20, ms(300), "quad", AnimationPriority::High);
    let rep = r.advance_animations(&one(1, true), blend(1, 4));
    let mut rs = HashMap::new();
    rs.insert(1, ms(300));
    r.settle_states(rep.removed, &rs, &HashMap::new());
    let rep = r.advance_animations(&one(1, false), blend(1, 15));
    assert_eq!(rep.measured, vec![1]);
    assert_eq!(r.state(1).unwrap().cur, 15);
    assert_eq!(r.state(1).unwrap().origin, 0);
}

#[test]
fn save_then_remove_leaves_nothing_saved() {
    let mut r = ready();
    r.background_animated_task(1, Event::CLICK, ms(100), ms(100), "l", 0, true);
    r.save_persistent_context(1, 3, ms(10), "a", AnimationPriority::High);
    r.save_persistent_context(1, 4, ms(20), "b", AnimationPriority::High);
    assert_eq!(r.saved_context(1).map(|c| c.style), Some(4));
    r.remove_persistent_context(1, Event::CLICK);
    assert!(r.saved_context(1).is_none());
    assert!(r.active_animation(1).is_some());
}

#[test]
fn after_a_tick_every_animation_is_current() {
    let mut r = ready();
    let v1 = started(&mut r, 1, 10, Event::CLICK, false);
    started(&mut r, 2, 10, Event::HOVER, true);
    started(&mut r, 3, 10, Event::NONE, false);
    r.background_animated_task(1, Event::CLICK, ms(1), ms(1), "old", v1 - 1, false);
    r.background_animated_task(7, Event::CLICK, ms(1), ms(1), "lost", 0, false);
    let mut reached = HashMap::new();
    reached.insert(1, false);
    reached.insert(2, true);
    reached.insert(3, false);
    let mut blended = HashMap::new();
    blended.insert(1, 1);
    blended.insert(2, 2);
    blended.insert(3, 3);
    let rep = r.advance_animations(&reached, blended);
    let mut measured = rep.measured.clone();
    measured.sort();
    assert_eq!(measured, vec![2, 3]);
    let mut keys = r.active_keys();
    keys.sort();
    assert_eq!(keys, vec![2, 3]);
    for k in keys {
        let a = r.active_animation(k).unwrap();
        assert_eq!(a.ver, r.state(k).unwrap().version);
    }
    assert_eq!(r.state(1).unwrap().cur, 0);
    assert_eq!(r.state(2).unwrap().cur, 10);
    assert_eq!(r.state(3).unwrap().cur, 3);
}

#[test]
fn callbacks_change_the_stored_state() {
    let mut r = ready();
    let out = r.with_state_default(4, &1, |mut s| {
        s.to = 6;
        (s, "created")
    });
    assert_eq!(out, "created");
    assert_eq!(r.state(4).unwrap().to, 6);
    let out = r.state_mut(4, |mut s| {
        s.priority = AnimationPriority::High;
        s.cur = 2;
        (s, 9)
    });
    assert_eq!(out, Some(9));
    let s = r.state(4).unwrap();
    assert_eq!((s.cur, s.to, s.priority), (2, 6, AnimationPriority::High));
}

#[test]
fn ended_event_animation_lowers_priority() {
    let mut r = ready();
    started(&mut r, 1, 10, Event::CLICK, false);
    started(&mut r, 2, 10, Event::NONE, false);
    let mut reached = HashMap::new();
    reached.insert(1, true);
    reached.insert(2, true);
    let mut blended = HashMap::new();
    blended.insert(1, 0);
    blended.insert(2, 0);
    r.advance_animations(&reached, blended);
    assert_eq!(r.state(1).unwrap().priority, AnimationPriority::Lowest);
    assert_eq!(r.state(2).unwrap().priority, AnimationPriority::Medium);
}

#[test]
fn running_event_animation_keeps_priority() {
    let mut r = ready();
    started(&mut r, 1, 10, Event::CLICK, false);
    r.advance_animations(&one(1, false), blend(1, 4));
    assert_eq!(r.state(1).unwrap().priority, AnimationPriority::Medium);
}

#[test]
fn stale_event_animation_lowers_priority_without_measurement() {
    let mut r = ready();
    let ver = started(&mut r, 1, 10, Event::HOVER, false);
    r.background_animated_task(1, Event::HOVER, ms(100), ms(70), "old", ver - 1, false);
    let rep = r.advance_animations(&HashMap::new(), HashMap::new());
    assert!(rep.changed);
    assert_eq!(r.state(1).unwrap().priority, AnimationPriority::Lowest);
    assert_eq!(r.state(1).unwrap().cur, 0);
}

#[test]
fn saved_restyle_brings_its_priority() {
    let mut r = ready();
    started(&mut r, 1, 10, Event::HOVER, true);
    r.save_persistent_context(1, 20, ms(300), "quad", AnimationPriority::Highest);
    let rep = r.advance_animations(&one(1, true), blend(1, 4));
    let mut rs = HashMap::new();
    rs.insert(1, ms(300));
    r.settle_states(rep.removed, &rs, &HashMap::new());
    assert_eq!(r.state(1).unwrap().priority, AnimationPriority::Highest);
}

#[test]
fn settled_state_under_plain_animation_drops_priority() {
    let mut r = ready();
    started(&mut r, 1, 10, Event::NONE, false);
    r.advance_animations(&one(1, true), blend(1, 4));
    r.background_animated_task(1, Event::NONE, ms(5), ms(5), "other", 9, false);
    let restarted = r.settle_states(HashMap::new(), &HashMap::new(), &HashMap::new());
    assert!(restarted.is_empty());
    let s = r.state(1).unwrap();
    assert_eq!((s.priority, s.to, s.version), (AnimationPriority::Lowest, 10, 1));
    assert_eq!(r.active_animation(1).unwrap().transition, "other");
}
