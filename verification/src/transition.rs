use std::collections::HashMap;
use std::time::Duration;
use vstd::prelude::*;
use vstd::std_specs::iter::IteratorSpec;

use crate::animation::{AnimationPriority, Event};
use crate::interpolate::{restarted, resting_at, same_style, stepped, State};
use vstd::std_specs::cmp::PartialEqSpec;

pub mod color;
pub mod general;

verus! {

broadcast use vstd::std_specs::hash::group_hash_axioms;

/// An animation the ticker is driving: which event started it, how long it
/// runs, the duration it was configured with (before any shortening for a
/// reversal), the easing it uses, the state version it belongs to, and
/// whether it stays registered after reaching its end.
pub struct ActiveAnimation<Tr> {
    pub event: Event,
    pub duration: Duration,
    pub origin_duration: Duration,
    pub transition: Tr,
    pub ver: usize,
    pub persistent: bool,
}

/// A restyle put aside while a persistent animation runs; it is played once
/// the element's state has settled, with its priority.
pub struct PersistentContext<S, Tr> {
    pub event: Event,
    pub style: S,
    pub duration: Duration,
    pub transition: Tr,
    pub priority: AnimationPriority,
}

/// What the first half of a tick reports: whether any element's state was
/// touched (the host then redraws), the keys whose state took the host's
/// measurement (the host keeps their new progress), and, for every animation
/// started by an event that ended, its configured duration and easing.
pub struct TickReport<Tr> {
    pub changed: bool,
    pub measured: Vec<u64>,
    pub removed: HashMap<u64, (Duration, Tr)>,
}

/// What the first half of a tick does to one key that had animation `a`
/// running: with no state the animation is dropped; otherwise the state
/// steps, the animation stays registered exactly while it is not over, and
/// an animation started by an event, when it is over, drops the state's
/// priority to the lowest and hands back its configured duration and easing.
pub open spec fn advanced<S: Clone, Tr>(
    st: Option<State<S>>,
    a: ActiveAnimation<Tr>,
    reached_end: bool,
    blended: S,
    new_st: Option<State<S>>,
    new_a: Option<ActiveAnimation<Tr>>,
    removed: Option<(Duration, Tr)>,
) -> bool {
    match st {
        None => new_st is None && new_a is None && removed is None,
        Some(s) => {
            let done = new_a is None;
            let ends_event = done && a.event != Event::NONE;
            &&& new_st matches Some(ns) && {
                &&& stepped(
                    s,
                    State { priority: s.priority, ..ns },
                    a.ver,
                    reached_end,
                    blended,
                    a.persistent,
                    done,
                )
                &&& ns.priority == if ends_event {
                    AnimationPriority::Lowest
                } else {
                    s.priority
                }
            }
            &&& !done ==> new_a == Some(a)
            &&& removed == (if done && a.event != Event::NONE {
                Some((a.origin_duration, a.transition))
            } else {
                None
            })
        }
    }
}

/// What the second half of a tick does to one element whose state is `st`.
/// Only a settled state moves. If a restyle was saved for it, the restyle is
/// consumed: its style and priority become the state's, a new animation
/// starts and is registered as persistent under the restyle's event.
/// Otherwise, if a non-persistent animation is registered, the priority drops
/// to the lowest, and if moreover an event-started animation of this element
/// ended in the first half, the state animates back to its origin over that
/// animation's configured duration, with no event.
pub open spec fn settled_step<S: Clone + PartialEq, Tr>(
    st: State<S>,
    saved: Option<PersistentContext<S, Tr>>,
    a: Option<ActiveAnimation<Tr>>,
    rem: Option<(Duration, Tr)>,
    reversed_saved: Duration,
    reversed_fallback: Duration,
    new_st: State<S>,
    new_saved: Option<PersistentContext<S, Tr>>,
    new_a: Option<ActiveAnimation<Tr>>,
    restarted_here: bool,
) -> bool {
    if !st.settled {
        new_st == st && new_saved == saved && new_a == a && !restarted_here
    } else if saved is Some {
        let ctx = saved->0;
        &&& new_saved is None
        &&& restarted_here
        &&& new_a matches Some(na) && {
            &&& restarted(
                State { to: ctx.style, priority: ctx.priority, ..st },
                new_st,
                ctx.duration,
                reversed_saved,
                (na.ver, na.duration),
            )
            &&& na == ActiveAnimation {
                event: ctx.event,
                duration: na.duration,
                origin_duration: na.duration,
                transition: ctx.transition,
                ver: na.ver,
                persistent: true,
            }
        }
    } else if (a matches Some(aa) && !aa.persistent) && rem is None {
        &&& new_st == State { priority: AnimationPriority::Lowest, ..st }
        &&& new_saved == saved
        &&& new_a == a
        &&& !restarted_here
    } else if a matches Some(aa) && !aa.persistent {
        let ended = rem->0;
        &&& new_saved == saved
        &&& restarted_here
        &&& cloned(st.origin, new_st.to)
        &&& new_a matches Some(na) && {
            &&& restarted(
                State { priority: AnimationPriority::Lowest, ..st },
                State { to: st.to, ..new_st },
                ended.0,
                reversed_fallback,
                (na.ver, na.duration),
            )
            &&& na == ActiveAnimation {
                event: Event::NONE,
                duration: na.duration,
                origin_duration: na.duration,
                transition: ended.1,
                ver: na.ver,
                persistent: false,
            }
        }
    } else {
        new_st == st && new_saved == saved && new_a == a && !restarted_here
    }
}

/// Whether the second half of a tick restarts an animation on a state `st`:
/// it has settled, and a restyle is saved for it, or a non-persistent
/// animation is registered and an event-started one of it ended.
pub open spec fn restarts<S, Tr>(
    st: State<S>,
    saved: Option<PersistentContext<S, Tr>>,
    a: Option<ActiveAnimation<Tr>>,
    rem: Option<(Duration, Tr)>,
) -> bool {
    st.settled && (saved is Some || (a matches Some(aa) && !aa.persistent && rem is Some))
}

/// Every animation registered in `v` belongs to an element that has a state,
/// and to that state's current version.
pub open spec fn animations_current<S, Tr>(v: RegistryView<S, Tr>) -> bool {
    forall|k: u64|
        #![trigger v.active[k]]
        v.active.contains_key(k) ==> {
            &&& v.states.contains_key(k)
            &&& v.active[k].ver == v.states[k].version
        }
}

/// The registry as a mathematical value.
pub ghost struct RegistryView<S, Tr> {
    pub initialized: bool,
    pub states: Map<u64, State<S>>,
    pub active: Map<u64, ActiveAnimation<Tr>>,
    pub saved: Map<u64, PersistentContext<S, Tr>>,
}

/// The registry after `init`.
pub open spec fn initialized<S, Tr>(v: RegistryView<S, Tr>) -> RegistryView<S, Tr> {
    RegistryView { initialized: true, ..v }
}

/// The registry after saving a restyle for `key`: kept only while a
/// persistent animation runs there, and tagged with that animation's event.
pub open spec fn with_saved<S, Tr>(
    v: RegistryView<S, Tr>,
    key: u64,
    style: S,
    duration: Duration,
    transition: Tr,
    priority: AnimationPriority,
) -> RegistryView<S, Tr> {
    if v.active.contains_key(key) && v.active[key].persistent {
        RegistryView {
            saved: v.saved.insert(
                key,
                PersistentContext {
                    event: v.active[key].event,
                    style,
                    duration,
                    transition,
                    priority,
                },
            ),
            ..v
        }
    } else {
        v
    }
}

/// The registry after dropping the restyle saved for `key` under `event`.
pub open spec fn without_saved<S, Tr>(v: RegistryView<S, Tr>, key: u64, event: Event) -> RegistryView<
    S,
    Tr,
> {
    if v.saved.contains_key(key) && v.saved[key].event == event {
        RegistryView { saved: v.saved.remove(key), ..v }
    } else {
        v
    }
}

/// The entry of `m` at `k`, if any.
pub open spec fn entry<V>(m: Map<u64, V>, k: u64) -> Option<V> {
    if m.contains_key(k) {
        Some(m[k])
    } else {
        None
    }
}

/// Per element (by key): its animated state, the animation running on it,
/// and a restyle saved for later.
pub struct TransitionRegistry<S, Tr> {
    initialized: bool,
    states: HashMap<u64, State<S>>,
    active_animations: HashMap<u64, ActiveAnimation<Tr>>,
    saved_contexts: HashMap<u64, PersistentContext<S, Tr>>,
}

impl<S, Tr> View for TransitionRegistry<S, Tr> {
    type V = RegistryView<S, Tr>;

    closed spec fn view(&self) -> RegistryView<S, Tr> {
        RegistryView {
            initialized: self.initialized,
            states: self.states@,
            active: self.active_animations@,
            saved: self.saved_contexts@,
        }
    }
}

impl<S: Clone + PartialEq, Tr> TransitionRegistry<S, Tr> {
    /// An empty registry that has not been initialized.
    pub fn new() -> (r: Self)
        ensures
            r@ == (RegistryView::<S, Tr> {
                initialized: false,
                states: Map::empty(),
                active: Map::empty(),
                saved: Map::empty(),
            }),
    {
        TransitionRegistry {
            initialized: false,
            states: HashMap::new(),
            active_animations: HashMap::new(),
            saved_contexts: HashMap::new(),
        }
    }

    /// Marks the registry initialized. Returns whether this call did so,
    /// that is, whether the host must now start the ticker.
    pub fn init(&mut self) -> (fresh: bool)
        ensures
            fresh == !old(self)@.initialized,
            final(self)@ == initialized(old(self)@),
    {
        let fresh = !self.initialized;
        self.initialized = true;
        fresh
    }

    /// Whether `init` has run.
    pub fn is_initialized(&self) -> (r: bool)
        ensures
            r == self@.initialized,
    {
        self.initialized
    }

    /// Whether no animation is running, so the ticker may sleep until woken.
    pub fn is_idle(&self) -> (r: bool)
        ensures
            r == self@.active.is_empty(),
    {
        self.active_animations.is_empty()
    }

    /// Saves `style`, with its duration, easing and priority, to be played
    /// when the element's state settles, provided a persistent animation is
    /// running on it; the saved restyle inherits that animation's event and
    /// replaces any saved before. Otherwise nothing changes.
    pub fn save_persistent_context(
        &mut self,
        key: u64,
        style: S,
        duration: Duration,
        transition: Tr,
        priority: AnimationPriority,
    )
        ensures
            final(self)@ == with_saved(old(self)@, key, style, duration, transition, priority),
    {
        let event = match self.active_animations.get(&key) {
            Some(active) => if active.persistent {
                Some(active.event)
            } else {
                None
            },
            None => None,
        };
        if let Some(event) = event {
            self.saved_contexts.insert(
                key,
                PersistentContext { event, style, duration, transition, priority },
            );
        }
    }

    /// Drops the restyle saved for `key` if it was saved for `event`.
    pub fn remove_persistent_context(&mut self, key: u64, event: Event)
        ensures
            final(self)@ == without_saved(old(self)@, key, event),
            final(self)@.saved.contains_key(key) <==> (old(self)@.saved.contains_key(key)
                && old(self)@.saved[key].event != event),
            final(self)@.saved.contains_key(key) ==> final(self)@.saved[key] == old(
                self,
            )@.saved[key],
            forall|j: u64|
                j != key ==> entry(final(self)@.saved, j) == entry(old(self)@.saved, j),
            final(self)@.active == old(self)@.active,
            final(self)@.states == old(self)@.states,
            final(self)@.initialized == old(self)@.initialized,
    {
        let matches = match self.saved_contexts.get(&key) {
            Some(ctx) => ctx.event == event,
            None => false,
        };
        if matches {
            self.saved_contexts.remove(&key);
        }
    }

    /// Registers an animation for `key`, replacing the one running there.
    pub fn background_animated_task(
        &mut self,
        key: u64,
        event: Event,
        duration: Duration,
        origin_duration: Duration,
        transition: Tr,
        ver: usize,
        persistent: bool,
    )
        ensures
            final(self)@ == (RegistryView {
                active: old(self)@.active.insert(
                    key,
                    ActiveAnimation { event, duration, origin_duration, transition, ver, persistent },
                ),
                ..old(self)@
            }),
    {
        self.active_animations.insert(
            key,
            ActiveAnimation { event, duration, origin_duration, transition, ver, persistent },
        );
    }

    /// Runs `f` on the state of `key`, created resting at `default` if there
    /// was none: `f` takes the state and gives back the state to store,
    /// together with its result, which is returned.
    pub fn with_state_default<R, F: FnOnce(State<S>) -> (State<S>, R)>(
        &mut self,
        key: u64,
        default: &S,
        f: F,
    ) -> (r: R)
        requires
            forall|st: State<S>| call_requires(f, (st,)),
        ensures
            final(self)@ == (RegistryView {
                states: old(self)@.states.insert(key, final(self)@.states[key]),
                ..old(self)@
            }),
            final(self)@.states.contains_key(key),
            old(self)@.states.contains_key(key) ==> call_ensures(
                f,
                (old(self)@.states[key],),
                (final(self)@.states[key], r),
            ),
            !old(self)@.states.contains_key(key) ==> exists|start: State<S>|
                resting_at(*default, start) && call_ensures(
                    f,
                    (start,),
                    (final(self)@.states[key], r),
                ),
    {
        let ghost old_states = self.states@;
        let st = match self.states.remove(&key) {
            Some(st) => st,
            None => State {
                origin: default.clone(),
                from: default.clone(),
                to: default.clone(),
                cur: default.clone(),
                settled: true,
                version: 0,
                priority: AnimationPriority::Lowest,
            },
        };
        let ghost start = st;
        let (next, r) = f(st);
        proof {
            if !old_states.contains_key(key) {
                assert(resting_at(*default, start) && call_ensures(f, (start,), (next, r)));
            }
        }
        self.states.insert(key, next);
        assert(self.states@ =~= old_states.insert(key, next));
        r
    }

    /// Runs `f` on the state of `key`, provided the registry is initialized
    /// and the state exists: `f` takes the state and gives back the state to
    /// store, together with its result, which is returned. Otherwise nothing
    /// changes and `None` is returned.
    pub fn state_mut<R, F: FnOnce(State<S>) -> (State<S>, R)>(&mut self, key: u64, f: F) -> (r:
        Option<R>)
        requires
            forall|st: State<S>| call_requires(f, (st,)),
        ensures
            !(old(self)@.initialized && old(self)@.states.contains_key(key)) ==> {
                &&& r is None
                &&& final(self)@ == old(self)@
            },
            old(self)@.initialized && old(self)@.states.contains_key(key) ==> {
                &&& r matches Some(x) && call_ensures(
                    f,
                    (old(self)@.states[key],),
                    (final(self)@.states[key], x),
                )
                &&& final(self)@ == (RegistryView {
                    states: old(self)@.states.insert(key, final(self)@.states[key]),
                    ..old(self)@
                })
            },
    {
        if !self.initialized {
            return None;
        }
        let ghost old_states = self.states@;
        match self.states.remove(&key) {
            None => {
                assert(self.states@ =~= old_states);
                None
            },
            Some(st) => {
                let (next, r) = f(st);
                self.states.insert(key, next);
                assert(self.states@ =~= old_states.insert(key, next));
                Some(r)
            },
        }
    }

    /// The state of `key`, if it has one.
    pub fn state(&self, key: u64) -> (r: Option<&State<S>>)
        ensures
            r == (if self@.states.contains_key(key) {
                Some(&self@.states[key])
            } else {
                None
            }),
    {
        self.states.get(&key)
    }

    /// The animation running on `key`, if any.
    pub fn active_animation(&self, key: u64) -> (r: Option<&ActiveAnimation<Tr>>)
        ensures
            r == (if self@.active.contains_key(key) {
                Some(&self@.active[key])
            } else {
                None
            }),
    {
        self.active_animations.get(&key)
    }

    /// The restyle saved for `key`, if any.
    pub fn saved_context(&self, key: u64) -> (r: Option<&PersistentContext<S, Tr>>)
        ensures
            r == (if self@.saved.contains_key(key) {
                Some(&self@.saved[key])
            } else {
                None
            }),
    {
        self.saved_contexts.get(&key)
    }

    /// Applies a restyle to the state of `key`: `modified` is what the
    /// element's modifier made of the current state. When the target
    /// changed, a new animation starts from what is shown now and is
    /// registered; its duration is `reversed_duration` when the new target
    /// equals the start. Returns the new version and duration. Without an
    /// initialized registry or a state for `key` nothing happens.
    pub fn animated_handle(
        &mut self,
        key: u64,
        modified: State<S>,
        duration: Duration,
        reversed_duration: Duration,
        transition: Tr,
        event: Event,
        persistent: bool,
    ) -> (r: Option<(usize, Duration)>)
        requires
            modified.version < usize::MAX,
        ensures
            !(old(self)@.initialized && old(self)@.states.contains_key(key)) ==> {
                &&& r is None
                &&& final(self)@ == old(self)@
            },
            old(self)@.initialized && old(self)@.states.contains_key(key) ==> {
                let before = old(self)@.states[key];
                &&& S::obeys_eq_spec() ==> (r is Some <==> !same_style(before.to, modified.to))
                &&& r is None ==> final(self)@ == (RegistryView {
                    states: old(self)@.states.insert(key, modified),
                    ..old(self)@
                })
                &&& r matches Some(x) ==> {
                    &&& restarted(modified, final(self)@.states[key], duration, reversed_duration, x)
                    &&& final(self)@ == (RegistryView {
                        states: old(self)@.states.insert(key, final(self)@.states[key]),
                        active: old(self)@.active.insert(
                            key,
                            ActiveAnimation {
                                event,
                                duration: x.1,
                                origin_duration: duration,
                                transition,
                                ver: x.0,
                                persistent,
                            },
                        ),
                        ..old(self)@
                    })
                }
            },
    {
        if !self.initialized {
            return None;
        }
        let ghost old_states = self.states@;
        match self.states.remove(&key) {
            None => {
                assert(self.states@ =~= old_states);
                None
            },
            Some(before) => {
                let mut st = modified;
                if before.to != st.to {
                    let (ver, dt) = st.pre_animated(duration, reversed_duration);
                    self.states.insert(key, st);
                    assert(self.states@ =~= old_states.insert(key, self.states@[key]));
                    self.active_animations.insert(
                        key,
                        ActiveAnimation {
                            event,
                            duration: dt,
                            origin_duration: duration,
                            transition,
                            ver,
                            persistent,
                        },
                    );
                    Some((ver, dt))
                } else {
                    self.states.insert(key, st);
                    assert(self.states@ =~= old_states.insert(key, modified));
                    None
                }
            },
        }
    }

    /// The first half of a tick: every running animation steps its element's
    /// state. `reached` tells, per key, whether the host's measured progress
    /// has reached the end, and `blended` holds the style the host blended
    /// for that progress; both are needed for the keys whose animation belongs
    /// to its state's current version. See `advanced` for what happens per
    /// key.
    pub fn advance_animations(
        &mut self,
        reached: &HashMap<u64, bool>,
        blended: HashMap<u64, S>,
    ) -> (r: TickReport<Tr>)
        requires
            forall|k: u64|
                old(self)@.active.contains_key(k) && old(self)@.states.contains_key(k)
                    && old(self)@.active[k].ver == old(self)@.states[k].version ==> {
                    &&& reached@.contains_key(k)
                    &&& blended@.contains_key(k)
                },
        ensures
            final(self)@.initialized == old(self)@.initialized,
            final(self)@.saved == old(self)@.saved,
            forall|k: u64|
                #![trigger entry(final(self)@.states, k)]
                #![trigger entry(final(self)@.active, k)]
                #![trigger final(self)@.states[k]]
                #![trigger final(self)@.states.contains_key(k)]
                #![trigger final(self)@.active.contains_key(k)]
                #![trigger r.removed@.contains_key(k)]
                old(self)@.active.contains_key(k) ==> advanced(
                    entry(old(self)@.states, k),
                    old(self)@.active[k],
                    reached@[k],
                    blended@[k],
                    entry(final(self)@.states, k),
                    entry(final(self)@.active, k),
                    entry(r.removed@, k),
                ),
            forall|k: u64|
                #![trigger entry(final(self)@.states, k)]
                #![trigger entry(final(self)@.active, k)]
                #![trigger final(self)@.states[k]]
                #![trigger final(self)@.states.contains_key(k)]
                #![trigger final(self)@.active.contains_key(k)]
                #![trigger r.removed@.contains_key(k)]
                !old(self)@.active.contains_key(k) ==> {
                    &&& entry(final(self)@.states, k) == entry(old(self)@.states, k)
                    &&& !final(self)@.active.contains_key(k)
                    &&& !r.removed@.contains_key(k)
                },
            r.measured@.no_duplicates(),
            forall|k: u64|
                r.measured@.contains(k) <==> {
                    &&& old(self)@.active.contains_key(k)
                    &&& old(self)@.states.contains_key(k)
                    &&& old(self)@.active[k].ver == old(self)@.states[k].version
                },
            r.changed <==> exists|k: u64|
                old(self)@.active.contains_key(k) && old(self)@.states.contains_key(k),
            animations_current(final(self)@),
            final(self)@.states.dom() == old(self)@.states.dom(),
            forall|k: u64|
                #![trigger final(self)@.states[k]]
                old(self)@.active.contains_key(k) && old(self)@.states.contains_key(k)
                    && old(self)@.active[k].ver == old(self)@.states[k].version
                    && !reached@[k] ==> {
                    &&& final(self)@.states[k].cur == blended@[k]
                    &&& !final(self)@.states[k].settled
                    &&& final(self)@.states[k].priority == old(self)@.states[k].priority
                    &&& final(self)@.active.contains_key(k)
                    &&& final(self)@.active[k] == old(self)@.active[k]
                    &&& !r.removed@.contains_key(k)
                },
    {
        let ghost old_view = self@;
        let ghost b0 = blended@;
        let mut blended = blended;
        let keys = keys_of(&self.active_animations);
        let mut changed = false;
        let mut measured: Vec<u64> = Vec::new();
        let mut removed: HashMap<u64, (Duration, Tr)> = HashMap::new();
        let mut i: usize = 0;
        while i < keys.len()
            invariant
                0 <= i <= keys@.len(),
                keys@.no_duplicates(),
                keys@.to_set() == old_view.active.dom(),
                self@.initialized == old_view.initialized,
                self@.saved == old_view.saved,
                forall|k: u64|
                    old_view.active.contains_key(k) && old_view.states.contains_key(k)
                        && old_view.active[k].ver == old_view.states[k].version ==> {
                        &&& reached@.contains_key(k)
                        &&& b0.contains_key(k)
                    },
                forall|k: u64|
                    #![trigger entry(self@.states, k)]
                    #![trigger entry(self@.active, k)]
                    !keys@.take(i as int).contains(k) ==> {
                        &&& entry(self@.states, k) == entry(old_view.states, k)
                        &&& entry(self@.active, k) == entry(old_view.active, k)
                        &&& !removed@.contains_key(k)
                        &&& entry(blended@, k) == entry(b0, k)
                    },
                forall|k: u64|
                    #![trigger entry(self@.states, k)]
                    #![trigger entry(self@.active, k)]
                    keys@.take(i as int).contains(k) ==> advanced(
                        entry(old_view.states, k),
                        old_view.active[k],
                        reached@[k],
                        b0[k],
                        entry(self@.states, k),
                        entry(self@.active, k),
                        entry(removed@, k),
                    ),
                measured@.no_duplicates(),
                forall|k: u64|
                    measured@.contains(k) <==> {
                        &&& keys@.take(i as int).contains(k)
                        &&& old_view.states.contains_key(k)
                        &&& old_view.active[k].ver == old_view.states[k].version
                    },
                changed <==> exists|k: u64|
                    keys@.take(i as int).contains(k) && old_view.states.contains_key(k),
            decreases keys.len() - i,
        {
            let k: u64 = keys[i];
            let ghost before_states = self.states@;
            let ghost before_active = self.active_animations@;
            let ghost before_removed = removed@;
            let ghost before_blended = blended@;
            let ghost before_measured = measured@;
            assert(keys@.take(i + 1) == keys@.take(i as int).push(k));
            assert(!keys@.take(i as int).contains(k)) by {
                if keys@.take(i as int).contains(k) {
                    let j = choose|j: int| 0 <= j < i && keys@.take(i as int)[j] == k;
                    assert(keys@[j] == keys@[i as int]);
                }
            }
            assert(keys@.to_set().contains(k));
            assert(old_view.active.contains_key(k));
            assert(entry(self@.active, k) == entry(old_view.active, k));
            assert(entry(self@.states, k) == entry(old_view.states, k));
            let a = self.active_animations.remove(&k).unwrap();
            match self.states.remove(&k) {
                None => {
                    assert(self.states@ =~= before_states);
                },
                Some(mut st) => {
                    changed = true;
                    let stale = a.ver != st.version;
                    let done = if stale {
                        true
                    } else {
                        let reached_end = *reached.get(&k).unwrap();
                        let blend = blended.remove(&k).unwrap();
                        st.animated(a.ver, reached_end, blend, a.persistent)
                    };
                    if !stale {
                        assert(!measured@.contains(k));
                        measured.push(k);
                        assert(measured@.no_duplicates()) by {
                            assert forall|p: int, q: int|
                                0 <= p < measured@.len() && 0 <= q < measured@.len() && p != q
                                implies measured@[p] != measured@[q] by {
                                if q == measured@.len() - 1 {
                                    assert(before_measured.contains(before_measured[p]));
                                } else if p == measured@.len() - 1 {
                                    assert(before_measured.contains(before_measured[q]));
                                }
                            }
                        }
                    }
                    if done {
                        if a.event != Event::NONE {
                            st.priority = AnimationPriority::Lowest;
                            removed.insert(k, (a.origin_duration, a.transition));
                        }
                    } else {
                        self.active_animations.insert(k, a);
                    }
                    self.states.insert(k, st);
                },
            }
            let ghost cond = old_view.states.contains_key(k) && old_view.active[k].ver
                == old_view.states[k].version;
            assert(measured@ == if cond {
                before_measured.push(k)
            } else {
                before_measured
            });
            assert forall|x: u64| measured@.contains(x) <==> (before_measured.contains(x) || (x
                == k && cond)) by {
                if cond {
                    if measured@.contains(x) {
                        let j = choose|j: int| 0 <= j < measured@.len() && measured@[j] == x;
                        if j < before_measured.len() {
                            assert(before_measured[j] == x);
                        }
                    }
                    if before_measured.contains(x) {
                        let j = choose|j: int|
                            0 <= j < before_measured.len() && before_measured[j] == x;
                        assert(measured@[j] == x);
                    }
                    if x == k {
                        assert(measured@[measured@.len() - 1] == k);
                    }
                }
            }
            assert(advanced(
                entry(old_view.states, k),
                old_view.active[k],
                reached@[k],
                b0[k],
                entry(self@.states, k),
                entry(self@.active, k),
                entry(removed@, k),
            ));
            proof {
                let next = keys@.take(i + 1);
                let prev = keys@.take(i as int);
                assert forall|x: u64| next.contains(x) implies (prev.contains(x) || x == k) by {
                    let j = choose|j: int| 0 <= j < next.len() && next[j] == x;
                    if j < i {
                        assert(prev[j] == x);
                    }
                }
                assert forall|x: u64| #[trigger] next.contains(x) implies advanced(
                    entry(old_view.states, x),
                    old_view.active[x],
                    reached@[x],
                    b0[x],
                    entry(self@.states, x),
                    entry(self@.active, x),
                    entry(removed@, x),
                ) by {
                    if x != k {
                        assert(prev.contains(x));
                        assert(entry(self@.states, x) == entry(before_states, x));
                        assert(entry(self@.active, x) == entry(before_active, x));
                        assert(entry(removed@, x) == entry(before_removed, x));
                    }
                }
                assert forall|x: u64| #[trigger] measured@.contains(x) <==> {
                    &&& next.contains(x)
                    &&& old_view.states.contains_key(x)
                    &&& old_view.active[x].ver == old_view.states[x].version
                } by {
                    if prev.contains(x) {
                        let j = choose|j: int| 0 <= j < prev.len() && prev[j] == x;
                        assert(next[j] == x);
                    }
                    if next.contains(x) && x != k {
                        assert(prev.contains(x));
                    }
                    if x == k {
                        assert(next[i as int] == k);
                    }
                    assert(before_measured.contains(x) <==> (prev.contains(x)
                        && old_view.states.contains_key(x) && old_view.active[x].ver
                        == old_view.states[x].version));
                    assert(measured@.contains(x) <==> (before_measured.contains(x) || (x == k
                        && cond)));
                }
                assert forall|x: u64| x != k implies {
                    &&& entry(self@.states, x) == entry(before_states, x)
                    &&& entry(self@.active, x) == entry(before_active, x)
                    &&& entry(removed@, x) == entry(before_removed, x)
                    &&& entry(blended@, x) == entry(before_blended, x)
                } by {}
                assert forall|x: u64| !keys@.take(i + 1).contains(x) implies {
                    &&& x != k
                    &&& !keys@.take(i as int).contains(x)
                } by {
                    if x == k {
                        assert(keys@.take(i + 1)[i as int] == k);
                    }
                    if keys@.take(i as int).contains(x) {
                        let j = choose|j: int| 0 <= j < i && keys@.take(i as int)[j] == x;
                        assert(keys@.take(i + 1)[j] == x);
                    }
                }
            }
            i = i + 1;
        }
        assert(keys@.take(keys@.len() as int) == keys@);
        proof {
            assert forall|k: u64| !old_view.active.contains_key(k) implies !keys@.contains(k) by {
                if keys@.contains(k) {
                    assert(keys@.to_set().contains(k));
                }
            }
            assert forall|k: u64| old_view.active.contains_key(k) implies keys@.contains(k) by {
                assert(keys@.to_set().contains(k));
            }
            assert forall|k: u64| #[trigger] self@.active.contains_key(k) implies {
                &&& self@.states.contains_key(k)
                &&& self@.active[k].ver == self@.states[k].version
            } by {
                assert(entry(self@.active, k) == Some(self@.active[k]));
                if !old_view.active.contains_key(k) {
                    assert(!keys@.contains(k));
                } else {
                    assert(keys@.contains(k));
                    assert(entry(self@.states, k) is Some);
                }
            }
            assert forall|k: u64| #[trigger] self@.states.contains_key(k) <==> old_view.states.contains_key(k) by {
                assert(entry(self@.states, k) is Some <==> self@.states.contains_key(k));
                assert(entry(old_view.states, k) is Some <==> old_view.states.contains_key(k));
                if old_view.active.contains_key(k) {
                    assert(keys@.contains(k));
                } else {
                    assert(!keys@.contains(k));
                }
            }
            assert(self@.states.dom() =~= old_view.states.dom());
            assert forall|k: u64|
                #![trigger self@.states[k]]
                old_view.active.contains_key(k) && old_view.states.contains_key(k)
                    && old_view.active[k].ver == old_view.states[k].version
                    && !reached@[k] implies {
                &&& self@.states[k].cur == b0[k]
                &&& !self@.states[k].settled
                &&& self@.states[k].priority == old_view.states[k].priority
                &&& self@.active.contains_key(k)
                &&& self@.active[k] == old_view.active[k]
                &&& !removed@.contains_key(k)
            } by {
                assert(keys@.contains(k));
                lemma_running_blended(
                    old_view.states[k],
                    old_view.active[k],
                    b0[k],
                    entry(self@.states, k),
                    entry(self@.active, k),
                    entry(removed@, k),
                );
            }
        }
        TickReport { changed, measured, removed }
    }

    /// The second half of a tick: every settled state takes its saved
    /// restyle, or falls back to its origin (see `settled_step`). `removed`
    /// is what the first half reported; `reversed_saved` and
    /// `reversed_fallback` hold, per key, the saved restyle's duration and
    /// the ended animation's duration scaled by the element's progress, as
    /// the host computed them. Returns the keys whose animation restarted
    /// (the host resets their progress and start time).
    pub fn settle_states(
        &mut self,
        removed: HashMap<u64, (Duration, Tr)>,
        reversed_saved: &HashMap<u64, Duration>,
        reversed_fallback: &HashMap<u64, Duration>,
    ) -> (restarted_keys: Vec<u64>)
        requires
            forall|k: u64|
                #![trigger old(self)@.states[k]]
                old(self)@.states.contains_key(k) && restarts(
                    old(self)@.states[k],
                    entry(old(self)@.saved, k),
                    entry(old(self)@.active, k),
                    entry(removed@, k),
                ) ==> old(self)@.states[k].version < usize::MAX,
            forall|k: u64|
                old(self)@.states.contains_key(k) && old(self)@.states[k].settled && old(
                    self,
                )@.saved.contains_key(k) ==> reversed_saved@.contains_key(k),
            forall|k: u64|
                old(self)@.states.contains_key(k) && restarts(
                    old(self)@.states[k],
                    entry(old(self)@.saved, k),
                    entry(old(self)@.active, k),
                    entry(removed@, k),
                ) && !old(self)@.saved.contains_key(k) ==> reversed_fallback@.contains_key(k),
        ensures
            final(self)@.initialized == old(self)@.initialized,
            final(self)@.states.dom() == old(self)@.states.dom(),
            forall|k: u64|
                #![trigger final(self)@.states[k]]
                #![trigger entry(final(self)@.active, k)]
                #![trigger entry(final(self)@.saved, k)]
                #![trigger final(self)@.active.contains_key(k)]
                #![trigger final(self)@.saved.contains_key(k)]
                #![trigger restarted_keys@.contains(k)]
                old(self)@.states.contains_key(k) ==> settled_step(
                    old(self)@.states[k],
                    entry(old(self)@.saved, k),
                    entry(old(self)@.active, k),
                    entry(removed@, k),
                    reversed_saved@[k],
                    reversed_fallback@[k],
                    final(self)@.states[k],
                    entry(final(self)@.saved, k),
                    entry(final(self)@.active, k),
                    restarted_keys@.contains(k),
                ),
            forall|k: u64|
                #![trigger entry(final(self)@.saved, k)]
                #![trigger entry(final(self)@.active, k)]
                #![trigger final(self)@.active.contains_key(k)]
                #![trigger final(self)@.saved.contains_key(k)]
                #![trigger restarted_keys@.contains(k)]
                !old(self)@.states.contains_key(k) ==> {
                    &&& entry(final(self)@.saved, k) == entry(old(self)@.saved, k)
                    &&& entry(final(self)@.active, k) == entry(old(self)@.active, k)
                    &&& !restarted_keys@.contains(k)
                },
            restarted_keys@.no_duplicates(),
            animations_current(old(self)@) ==> animations_current(final(self)@),
            final(self)@.saved.dom().subset_of(old(self)@.saved.dom()),
            forall|k: u64|
                #![trigger final(self)@.states[k]]
                old(self)@.states.contains_key(k) && old(self)@.states[k].settled
                    && !old(self)@.saved.contains_key(k) && old(self)@.active.contains_key(k)
                    && !old(self)@.active[k].persistent && removed@.contains_key(k) ==> {
                    &&& cloned(old(self)@.states[k].origin, final(self)@.states[k].to)
                    &&& final(self)@.states[k].cur == old(self)@.states[k].cur
                    &&& final(self)@.states[k].priority == AnimationPriority::Lowest
                    &&& final(self)@.active.contains_key(k)
                    &&& final(self)@.active[k].event == Event::NONE
                    &&& final(self)@.active[k].transition == removed@[k].1
                    &&& final(self)@.active[k].ver == final(self)@.states[k].version
                    &&& restarted_keys@.contains(k)
                },
    {
        let ghost old_view = self@;
        let ghost r0 = removed@;
        let mut removed = removed;
        let keys = keys_of(&self.states);
        let mut restarted_keys: Vec<u64> = Vec::new();
        let mut i: usize = 0;
        while i < keys.len()
            invariant
                0 <= i <= keys@.len(),
                keys@.no_duplicates(),
                keys@.to_set() == old_view.states.dom(),
                self@.initialized == old_view.initialized,
                forall|k: u64|
                    #![trigger old_view.states[k]]
                    old_view.states.contains_key(k) && restarts(
                        old_view.states[k],
                        entry(old_view.saved, k),
                        entry(old_view.active, k),
                        entry(r0, k),
                    ) ==> old_view.states[k].version < usize::MAX,
                forall|k: u64|
                    old_view.states.contains_key(k) && old_view.states[k].settled
                        && old_view.saved.contains_key(k) ==> reversed_saved@.contains_key(k),
                forall|k: u64|
                    old_view.states.contains_key(k) && restarts(
                        old_view.states[k],
                        entry(old_view.saved, k),
                        entry(old_view.active, k),
                        entry(r0, k),
                    ) && !old_view.saved.contains_key(k) ==> reversed_fallback@.contains_key(k),
                forall|k: u64|
                    #![trigger entry(self@.states, k)]
                    #![trigger entry(self@.saved, k)]
                    #![trigger entry(self@.active, k)]
                    !keys@.take(i as int).contains(k) ==> {
                        &&& entry(self@.states, k) == entry(old_view.states, k)
                        &&& entry(self@.saved, k) == entry(old_view.saved, k)
                        &&& entry(self@.active, k) == entry(old_view.active, k)
                        &&& entry(removed@, k) == entry(r0, k)
                        &&& !restarted_keys@.contains(k)
                    },
                forall|k: u64|
                    #![trigger entry(self@.states, k)]
                    #![trigger entry(self@.saved, k)]
                    #![trigger entry(self@.active, k)]
                    keys@.take(i as int).contains(k) ==> {
                        &&& self@.states.contains_key(k)
                        &&& settled_step(
                            old_view.states[k],
                            entry(old_view.saved, k),
                            entry(old_view.active, k),
                            entry(r0, k),
                            reversed_saved@[k],
                            reversed_fallback@[k],
                            self@.states[k],
                            entry(self@.saved, k),
                            entry(self@.active, k),
                            restarted_keys@.contains(k),
                        )
                    },
                restarted_keys@.no_duplicates(),
            decreases keys.len() - i,
        {
            let k: u64 = keys[i];
            let ghost before_states = self.states@;
            let ghost before_saved = self.saved_contexts@;
            let ghost before_active = self.active_animations@;
            let ghost before_removed = removed@;
            let ghost before_restarted = restarted_keys@;
            let ghost prev = keys@.take(i as int);
            let ghost next = keys@.take(i + 1);
            assert(next == prev.push(k));
            assert(!prev.contains(k)) by {
                if prev.contains(k) {
                    let j = choose|j: int| 0 <= j < prev.len() && prev[j] == k;
                    assert(keys@[j] == keys@[i as int]);
                }
            }
            assert(keys@.to_set().contains(k));
            assert(entry(self@.states, k) == entry(old_view.states, k));
            assert(entry(self@.saved, k) == entry(old_view.saved, k));
            assert(entry(self@.active, k) == entry(old_view.active, k));
            assert(entry(removed@, k) == entry(r0, k));
            assert(!restarted_keys@.contains(k));
            let mut st = self.states.remove(&k).unwrap();
            let mut restarted_here = false;
            if st.settled {
                match self.saved_contexts.remove(&k) {
                    Some(ctx) => {
                        st = State { to: ctx.style, priority: ctx.priority, ..st };
                        let rd = *reversed_saved.get(&k).unwrap();
                        let (ver, dt) = st.pre_animated(ctx.duration, rd);
                        self.active_animations.insert(
                            k,
                            ActiveAnimation {
                                event: ctx.event,
                                duration: dt,
                                origin_duration: dt,
                                transition: ctx.transition,
                                ver,
                                persistent: true,
                            },
                        );
                        restarted_here = true;
                    },
                    None => {
                        assert(self.saved_contexts@ =~= before_saved);
                        let falls_back = match self.active_animations.get(&k) {
                            Some(a) => !a.persistent,
                            None => false,
                        };
                        if falls_back {
                            st.priority = AnimationPriority::Lowest;
                        }
                        if falls_back && removed.contains_key(&k) {
                            let (od, tr) = removed.remove(&k).unwrap();
                            let rd = *reversed_fallback.get(&k).unwrap();
                            let (ver, dt) = st.pre_animated(od, rd);
                            st.to = st.origin.clone();
                            self.active_animations.insert(
                                k,
                                ActiveAnimation {
                                    event: Event::NONE,
                                    duration: dt,
                                    origin_duration: dt,
                                    transition: tr,
                                    ver,
                                    persistent: false,
                                },
                            );
                            restarted_here = true;
                        }
                    },
                }
            }
            self.states.insert(k, st);
            if restarted_here {
                restarted_keys.push(k);
                assert(restarted_keys@.no_duplicates()) by {
                    assert forall|p: int, q: int|
                        0 <= p < restarted_keys@.len() && 0 <= q < restarted_keys@.len() && p
                            != q implies restarted_keys@[p] != restarted_keys@[q] by {
                        if q == restarted_keys@.len() - 1 {
                            assert(before_restarted.contains(before_restarted[p]));
                        } else if p == restarted_keys@.len() - 1 {
                            assert(before_restarted.contains(before_restarted[q]));
                        }
                    }
                }
            }
            proof {
                assert(restarted_keys@ == if restarted_here {
                    before_restarted.push(k)
                } else {
                    before_restarted
                });
                assert forall|x: u64| #[trigger] restarted_keys@.contains(x) <==> (
                before_restarted.contains(x) || (x == k && restarted_here)) by {
                    if restarted_here {
                        if restarted_keys@.contains(x) {
                            let j = choose|j: int|
                                0 <= j < restarted_keys@.len() && restarted_keys@[j] == x;
                            if j < before_restarted.len() {
                                assert(before_restarted[j] == x);
                            }
                        }
                        if before_restarted.contains(x) {
                            let j = choose|j: int|
                                0 <= j < before_restarted.len() && before_restarted[j] == x;
                            assert(restarted_keys@[j] == x);
                        }
                        if x == k {
                            assert(restarted_keys@[restarted_keys@.len() - 1] == k);
                        }
                    }
                }
                assert(settled_step(
                    old_view.states[k],
                    entry(old_view.saved, k),
                    entry(old_view.active, k),
                    entry(r0, k),
                    reversed_saved@[k],
                    reversed_fallback@[k],
                    self@.states[k],
                    entry(self@.saved, k),
                    entry(self@.active, k),
                    restarted_keys@.contains(k),
                ));
                assert forall|x: u64| x != k implies {
                    &&& entry(self@.states, x) == entry(before_states, x)
                    &&& entry(self@.saved, x) == entry(before_saved, x)
                    &&& entry(self@.active, x) == entry(before_active, x)
                    &&& entry(removed@, x) == entry(before_removed, x)
                } by {}
                assert forall|x: u64| next.contains(x) implies (prev.contains(x) || x == k) by {
                    let j = choose|j: int| 0 <= j < next.len() && next[j] == x;
                    if j < i {
                        assert(prev[j] == x);
                    }
                }
                assert forall|x: u64| #[trigger] next.contains(x) implies {
                    &&& self@.states.contains_key(x)
                    &&& settled_step(
                        old_view.states[x],
                        entry(old_view.saved, x),
                        entry(old_view.active, x),
                        entry(r0, x),
                        reversed_saved@[x],
                        reversed_fallback@[x],
                        self@.states[x],
                        entry(self@.saved, x),
                        entry(self@.active, x),
                        restarted_keys@.contains(x),
                    )
                } by {
                    if x != k {
                        assert(prev.contains(x));
                        assert(entry(self@.states, x) == entry(before_states, x));
                        assert(entry(self@.saved, x) == entry(before_saved, x));
                        assert(entry(self@.active, x) == entry(before_active, x));
                    }
                }
                assert forall|x: u64| !next.contains(x) implies {
                    &&& x != k
                    &&& !prev.contains(x)
                } by {
                    if x == k {
                        assert(next[i as int] == k);
                    }
                    if prev.contains(x) {
                        let j = choose|j: int| 0 <= j < prev.len() && prev[j] == x;
                        assert(next[j] == x);
                    }
                }
            }
            i = i + 1;
        }
        assert(keys@.take(keys@.len() as int) == keys@);
        proof {
            assert forall|k: u64| !old_view.states.contains_key(k) implies !keys@.contains(k) by {
                if keys@.contains(k) {
                    assert(keys@.to_set().contains(k));
                }
            }
            assert forall|k: u64| old_view.states.contains_key(k) implies keys@.contains(k) by {
                assert(keys@.to_set().contains(k));
            }
            assert forall|k: u64| #[trigger] self@.states.contains_key(k) <==> old_view.states.contains_key(k) by {
                if self@.states.contains_key(k) && !old_view.states.contains_key(k) {
                    assert(entry(self@.states, k) == entry(old_view.states, k));
                }
            }
            assert(self@.states.dom() =~= old_view.states.dom());
            assert forall|k: u64|
                #![trigger self@.states[k]]
                old_view.states.contains_key(k) && old_view.states[k].settled
                    && !old_view.saved.contains_key(k) && old_view.active.contains_key(k)
                    && !old_view.active[k].persistent && r0.contains_key(k) implies {
                &&& cloned(old_view.states[k].origin, self@.states[k].to)
                &&& self@.states[k].cur == old_view.states[k].cur
                &&& self@.states[k].priority == AnimationPriority::Lowest
                &&& self@.active.contains_key(k)
                &&& self@.active[k].event == Event::NONE
                &&& self@.active[k].transition == r0[k].1
                &&& self@.active[k].ver == self@.states[k].version
                &&& restarted_keys@.contains(k)
            } by {
                assert(keys@.contains(k));
                lemma_fallback_to_origin(
                    old_view.states[k],
                    entry(old_view.active, k),
                    entry(r0, k),
                    reversed_saved@[k],
                    reversed_fallback@[k],
                    self@.states[k],
                    entry(self@.saved, k),
                    entry(self@.active, k),
                    restarted_keys@.contains(k),
                );
            }
            assert forall|k: u64| #[trigger] self@.saved.contains_key(k) implies old_view.saved.contains_key(k) by {
                assert(entry(self@.saved, k) is Some);
                if old_view.states.contains_key(k) {
                    assert(keys@.contains(k));
                } else {
                    assert(!keys@.contains(k));
                }
            }
            if animations_current(old_view) {
                assert forall|k: u64| #[trigger] self@.active.contains_key(k) implies {
                    &&& self@.states.contains_key(k)
                    &&& self@.active[k].ver == self@.states[k].version
                } by {
                    assert(entry(self@.active, k) == Some(self@.active[k]));
                    if !old_view.states.contains_key(k) {
                        assert(!keys@.contains(k));
                        assert(entry(self@.active, k) == entry(old_view.active, k));
                    } else {
                        assert(keys@.contains(k));
                        assert(self@.states.contains_key(k));
                        assert(entry(old_view.active, k) is Some ==> old_view.active.contains_key(k));
                    }
                }
            }
        }
        restarted_keys
    }

    /// The keys that have an animation running, each once.
    pub fn active_keys(&self) -> (r: Vec<u64>)
        ensures
            r@.no_duplicates(),
            r@.to_set() == self@.active.dom(),
    {
        keys_of(&self.active_animations)
    }

    /// The keys that have a state, each once.
    pub fn state_keys(&self) -> (r: Vec<u64>)
        ensures
            r@.no_duplicates(),
            r@.to_set() == self@.states.dom(),
    {
        keys_of(&self.states)
    }
}

/// The keys of `m`, each once.
fn keys_of<V>(m: &HashMap<u64, V>) -> (r: Vec<u64>)
    ensures
        r@.no_duplicates(),
        r@.to_set() == m@.dom(),
{
    let mut out: Vec<u64> = Vec::new();
    let keys = m.keys();
    let ghost all = keys.remaining();
    assert(all.unref().to_set() == m@.dom());
    for k in it: keys
        invariant
            it.seq() == all,
            out@ == all.take(it.index()).unref(),
    {
        assert(all.take(it.index() + 1).unref() == all.take(it.index()).unref().push(*k));
        out.push(*k);
    }
    assert(all.take(all.len() as int) == all);
    assert(out@ == all.unref());
    out
}

/// Initializing is idempotent: a second `init` changes nothing.
pub proof fn lemma_init_idempotent<S, Tr>(v: RegistryView<S, Tr>)
    ensures
        initialized(initialized(v)) == initialized(v),
        initialized(v).initialized,
{
}

/// A restyle saved while a persistent animation runs is dropped again by
/// removing it under that animation's event: the registry is left as it was,
/// minus any restyle saved for that key before.
pub proof fn lemma_save_then_remove<S, Tr>(
    v: RegistryView<S, Tr>,
    key: u64,
    style: S,
    duration: Duration,
    transition: Tr,
    priority: AnimationPriority,
)
    requires
        v.active.contains_key(key),
        v.active[key].persistent,
    ensures
        without_saved(with_saved(v, key, style, duration, transition, priority), key, v.active[key].event)
            == (RegistryView { saved: v.saved.remove(key), ..v }),
{
    assert(v.saved.insert(
        key,
        PersistentContext { event: v.active[key].event, style, duration, transition, priority },
    ).remove(key) =~= v.saved.remove(key));
}

/// Removing a saved restyle under another event than the one it was saved
/// under leaves it in place.
pub proof fn lemma_remove_other_event_keeps<S, Tr>(
    v: RegistryView<S, Tr>,
    key: u64,
    style: S,
    duration: Duration,
    transition: Tr,
    priority: AnimationPriority,
    event: Event,
)
    requires
        v.active.contains_key(key),
        v.active[key].persistent,
        event != v.active[key].event,
    ensures
        without_saved(with_saved(v, key, style, duration, transition, priority), key, event) == with_saved(
            v,
            key,
            style,
            duration,
            transition,
            priority,
        ),
        with_saved(v, key, style, duration, transition, priority).saved.contains_key(key),
{
}

/// Without a persistent animation running, nothing is saved.
pub proof fn lemma_save_needs_persistent<S, Tr>(
    v: RegistryView<S, Tr>,
    key: u64,
    style: S,
    duration: Duration,
    transition: Tr,
    priority: AnimationPriority,
)
    requires
        !(v.active.contains_key(key) && v.active[key].persistent),
    ensures
        with_saved(v, key, style, duration, transition, priority) == v,
{
}

/// A persistent animation that reaches its end in a tick stays registered,
/// hands nothing back, and leaves its state settled at a clone of the
/// target.
pub proof fn lemma_persistent_stays<S: Clone, Tr>(
    s: State<S>,
    a: ActiveAnimation<Tr>,
    blended: S,
    new_st: Option<State<S>>,
    new_a: Option<ActiveAnimation<Tr>>,
    removed: Option<(Duration, Tr)>,
)
    requires
        a.persistent,
        a.ver == s.version,
        advanced(Some(s), a, true, blended, new_st, new_a, removed),
    ensures
        new_a == Some(a),
        removed is None,
        new_st matches Some(ns) && ns.settled && cloned(s.to, ns.cur) && ns.to == s.to
            && ns.version == s.version && ns.priority == s.priority,
{
}

/// A non-persistent animation that reaches its end in a tick is removed;
/// if an event started it, its configured duration and easing are handed
/// back.
pub proof fn lemma_finished_leaves<S: Clone, Tr>(
    s: State<S>,
    a: ActiveAnimation<Tr>,
    blended: S,
    new_st: Option<State<S>>,
    new_a: Option<ActiveAnimation<Tr>>,
    removed: Option<(Duration, Tr)>,
)
    requires
        !a.persistent,
        a.ver == s.version,
        advanced(Some(s), a, true, blended, new_st, new_a, removed),
    ensures
        new_a is None,
        removed == (if a.event != Event::NONE {
            Some((a.origin_duration, a.transition))
        } else {
            None
        }),
        new_st matches Some(ns) && ns.settled && cloned(s.to, ns.cur) && ns.to == s.to
            && ns.version == s.version && ns.priority == (if a.event != Event::NONE {
            AnimationPriority::Lowest
        } else {
            s.priority
        }),
{
}

/// An animation registered under an older version than its state's is
/// stale: a tick drops it and leaves the state as it was, but for the
/// priority, which drops to the lowest when an event started the animation.
pub proof fn lemma_stale_dropped<S: Clone, Tr>(
    s: State<S>,
    a: ActiveAnimation<Tr>,
    reached_end: bool,
    blended: S,
    new_st: Option<State<S>>,
    new_a: Option<ActiveAnimation<Tr>>,
    removed: Option<(Duration, Tr)>,
)
    requires
        a.ver != s.version,
        advanced(Some(s), a, reached_end, blended, new_st, new_a, removed),
    ensures
        new_a is None,
        new_st == Some(
            State {
                priority: if a.event != Event::NONE {
                    AnimationPriority::Lowest
                } else {
                    s.priority
                },
                ..s
            },
        ),
{
}

/// An animation on an element that has no state is dropped by a tick and
/// hands nothing back.
pub proof fn lemma_stateless_dropped<S: Clone, Tr>(
    a: ActiveAnimation<Tr>,
    reached_end: bool,
    blended: S,
    new_st: Option<State<S>>,
    new_a: Option<ActiveAnimation<Tr>>,
    removed: Option<(Duration, Tr)>,
)
    requires
        advanced(None, a, reached_end, blended, new_st, new_a, removed),
    ensures
        new_st is None,
        new_a is None,
        removed is None,
{
}

/// A tick never changes an element's origin, and versions never go down:
/// neither half of a tick moves the origin or lowers the version.
pub proof fn lemma_tick_keeps_origin<S: Clone + PartialEq, Tr>(
    s: State<S>,
    a: ActiveAnimation<Tr>,
    reached_end: bool,
    blended: S,
    mid: State<S>,
    mid_a: Option<ActiveAnimation<Tr>>,
    removed: Option<(Duration, Tr)>,
    saved: Option<PersistentContext<S, Tr>>,
    reversed_saved: Duration,
    reversed_fallback: Duration,
    last: State<S>,
    last_saved: Option<PersistentContext<S, Tr>>,
    last_a: Option<ActiveAnimation<Tr>>,
    restarted_here: bool,
)
    requires
        advanced(Some(s), a, reached_end, blended, Some(mid), mid_a, removed),
        settled_step(
            mid,
            saved,
            mid_a,
            removed,
            reversed_saved,
            reversed_fallback,
            last,
            last_saved,
            last_a,
            restarted_here,
        ),
    ensures
        last.origin == s.origin,
        last.version >= s.version,
{
}

/// An animation a tick restarts belongs to the state's new version, so the
/// next tick does not take it for stale; the state's version went up by one.
pub proof fn lemma_restarted_is_current<S: Clone + PartialEq, Tr>(
    st: State<S>,
    saved: Option<PersistentContext<S, Tr>>,
    a: Option<ActiveAnimation<Tr>>,
    rem: Option<(Duration, Tr)>,
    reversed_saved: Duration,
    reversed_fallback: Duration,
    new_st: State<S>,
    new_saved: Option<PersistentContext<S, Tr>>,
    new_a: Option<ActiveAnimation<Tr>>,
)
    requires
        settled_step(
            st,
            saved,
            a,
            rem,
            reversed_saved,
            reversed_fallback,
            new_st,
            new_saved,
            new_a,
            true,
        ),
    ensures
        new_a matches Some(na) && na.ver == new_st.version,
        new_st.version == st.version + 1,
        !new_st.settled,
{
}

/// A state that has not settled is left alone by the second half of a
/// tick, and a saved restyle waits for it.
pub proof fn lemma_unsettled_waits<S: Clone + PartialEq, Tr>(
    st: State<S>,
    saved: Option<PersistentContext<S, Tr>>,
    a: Option<ActiveAnimation<Tr>>,
    rem: Option<(Duration, Tr)>,
    reversed_saved: Duration,
    reversed_fallback: Duration,
    new_st: State<S>,
    new_saved: Option<PersistentContext<S, Tr>>,
    new_a: Option<ActiveAnimation<Tr>>,
    restarted_here: bool,
)
    requires
        !st.settled,
        settled_step(
            st,
            saved,
            a,
            rem,
            reversed_saved,
            reversed_fallback,
            new_st,
            new_saved,
            new_a,
            restarted_here,
        ),
    ensures
        new_st == st,
        new_saved == saved,
        new_a == a,
        !restarted_here,
{
}

/// Over a whole tick, given what its two halves state of the registry
/// before (`v0`), between (`v1`) and after (`v2`) them: the set of elements
/// with a state stays the same, saved restyles are only ever consumed, and
/// every animation left registered is on an element with a state, at its
/// current version.
pub proof fn lemma_tick_keeps_states<S, Tr>(
    v0: RegistryView<S, Tr>,
    v1: RegistryView<S, Tr>,
    v2: RegistryView<S, Tr>,
)
    requires
        v1.states.dom() == v0.states.dom(),
        v1.saved == v0.saved,
        animations_current(v1),
        v2.states.dom() == v1.states.dom(),
        v2.saved.dom().subset_of(v1.saved.dom()),
        animations_current(v1) ==> animations_current(v2),
    ensures
        v2.states.dom() == v0.states.dom(),
        v2.saved.dom().subset_of(v0.saved.dom()),
        forall|k: u64| #[trigger] v2.active.contains_key(k) ==> v2.states.contains_key(k),
        animations_current(v2),
{
    assert(animations_current(v2));
    assert forall|k: u64| #[trigger] v2.active.contains_key(k) implies v2.states.contains_key(k) by {
        assert(v2.active[k].ver == v2.states[k].version);
    }
}

/// In the first half of a tick, a current animation that has not reached its
/// end, whatever its event and persistence, stays registered, hands nothing
/// back, and leaves its state showing exactly the host's blended style,
/// unsettled, at the same priority.
pub proof fn lemma_running_blended<S: Clone, Tr>(
    s: State<S>,
    a: ActiveAnimation<Tr>,
    blended: S,
    new_st: Option<State<S>>,
    new_a: Option<ActiveAnimation<Tr>>,
    removed: Option<(Duration, Tr)>,
)
    requires
        a.ver == s.version,
        advanced(Some(s), a, false, blended, new_st, new_a, removed),
    ensures
        new_st matches Some(ns) && {
            &&& ns.cur == blended
            &&& !ns.settled
            &&& ns.priority == s.priority
            &&& ns.to == s.to
            &&& ns.from == s.from
            &&& ns.version == s.version
        },
        new_a == Some(a),
        removed is None,
{
    let ns = new_st->0;
    let done = new_a is None;
    crate::interpolate::lemma_animated_running(
        s,
        State { priority: s.priority, ..ns },
        blended,
        a.persistent,
        done,
    );
}

/// Dropping a saved restyle goes by the restyle's own event: the entry for
/// `key` goes exactly when one is saved under `event`, other entries stay,
/// and the animations registered play no part.
pub proof fn lemma_remove_by_own_event<S, Tr>(
    v: RegistryView<S, Tr>,
    key: u64,
    event: Event,
    other_active: Map<u64, ActiveAnimation<Tr>>,
)
    ensures
        without_saved(v, key, event).saved.contains_key(key) <==> (v.saved.contains_key(key)
            && v.saved[key].event != event),
        forall|j: u64|
            j != key ==> entry(without_saved(v, key, event).saved, j) == entry(v.saved, j),
        without_saved(v, key, event).active == v.active,
        without_saved(v, key, event).states == v.states,
        without_saved(RegistryView { active: other_active, ..v }, key, event).saved
            == without_saved(v, key, event).saved,
{
}

/// A saved restyle records the running animation's event together with the
/// given style, duration, easing and priority; nothing else changes.
pub proof fn lemma_save_records<S, Tr>(
    v: RegistryView<S, Tr>,
    key: u64,
    style: S,
    duration: Duration,
    transition: Tr,
    priority: AnimationPriority,
)
    requires
        v.active.contains_key(key),
        v.active[key].persistent,
    ensures
        with_saved(v, key, style, duration, transition, priority).saved[key] == (PersistentContext {
            event: v.active[key].event,
            style,
            duration,
            transition,
            priority,
        }),
        forall|j: u64|
            j != key ==> entry(with_saved(v, key, style, duration, transition, priority).saved, j)
                == entry(v.saved, j),
        with_saved(v, key, style, duration, transition, priority).active == v.active,
        with_saved(v, key, style, duration, transition, priority).states == v.states,
{
}

/// A settled state with a saved restyle plays it: the restyle is consumed,
/// its style and priority become the state's, the shown style stays, the
/// version goes up by one, and a persistent animation under the restyle's
/// event and easing is registered at that version.
pub proof fn lemma_saved_restyle_played<S: Clone + PartialEq, Tr>(
    st: State<S>,
    ctx: PersistentContext<S, Tr>,
    a: Option<ActiveAnimation<Tr>>,
    rem: Option<(Duration, Tr)>,
    reversed_saved: Duration,
    reversed_fallback: Duration,
    new_st: State<S>,
    new_saved: Option<PersistentContext<S, Tr>>,
    new_a: Option<ActiveAnimation<Tr>>,
    restarted_here: bool,
)
    requires
        st.settled,
        settled_step(
            st,
            Some(ctx),
            a,
            rem,
            reversed_saved,
            reversed_fallback,
            new_st,
            new_saved,
            new_a,
            restarted_here,
        ),
    ensures
        new_saved is None,
        restarted_here,
        new_st.to == ctx.style,
        new_st.priority == ctx.priority,
        new_st.cur == st.cur,
        new_st.origin == st.origin,
        cloned(st.cur, new_st.from),
        new_st.version == st.version + 1,
        !new_st.settled,
        new_a matches Some(na) && {
            &&& na.persistent
            &&& na.event == ctx.event
            &&& na.transition == ctx.transition
            &&& na.ver == new_st.version
            &&& na.origin_duration == na.duration
            &&& (na.duration == ctx.duration || na.duration == reversed_saved)
        },
{
}

/// When a settled state has no saved restyle, a non-persistent animation is
/// registered and an event-started animation of it ended, it animates back
/// to (a clone of) its origin, whatever the ended animation started from:
/// the shown style stays, the priority drops to the lowest, and an animation
/// with no event, not persistent, with the ended animation's easing, is
/// registered at the new version.
pub proof fn lemma_fallback_to_origin<S: Clone + PartialEq, Tr>(
    st: State<S>,
    a: Option<ActiveAnimation<Tr>>,
    rem: Option<(Duration, Tr)>,
    reversed_saved: Duration,
    reversed_fallback: Duration,
    new_st: State<S>,
    new_saved: Option<PersistentContext<S, Tr>>,
    new_a: Option<ActiveAnimation<Tr>>,
    restarted_here: bool,
)
    requires
        st.settled,
        a matches Some(aa) && !aa.persistent,
        rem is Some,
        settled_step(
            st,
            None,
            a,
            rem,
            reversed_saved,
            reversed_fallback,
            new_st,
            new_saved,
            new_a,
            restarted_here,
        ),
    ensures
        cloned(st.origin, new_st.to),
        new_st.cur == st.cur,
        new_st.origin == st.origin,
        new_st.priority == AnimationPriority::Lowest,
        new_st.version == st.version + 1,
        !new_st.settled,
        new_saved is None,
        restarted_here,
        new_a matches Some(na) && {
            let ended = rem->0;
            &&& na.event == Event::NONE
            &&& !na.persistent
            &&& na.transition == ended.1
            &&& na.ver == new_st.version
            &&& (na.duration == ended.0 || na.duration == reversed_fallback)
        },
{
}

/// A settled state with no saved restyle under a registered non-persistent
/// animation, when no event-started animation of it ended, only drops to the
/// lowest priority: nothing restarts and nothing else changes.
pub proof fn lemma_plain_settled_lowers<S: Clone + PartialEq, Tr>(
    st: State<S>,
    a: ActiveAnimation<Tr>,
    reversed_saved: Duration,
    reversed_fallback: Duration,
    new_st: State<S>,
    new_saved: Option<PersistentContext<S, Tr>>,
    new_a: Option<ActiveAnimation<Tr>>,
    restarted_here: bool,
)
    requires
        st.settled,
        !a.persistent,
        settled_step(
            st,
            None,
            Some(a),
            None,
            reversed_saved,
            reversed_fallback,
            new_st,
            new_saved,
            new_a,
            restarted_here,
        ),
    ensures
        new_st.priority == AnimationPriority::Lowest,
        new_st.cur == st.cur,
        new_st.to == st.to,
        new_st.from == st.from,
        new_st.version == st.version,
        new_st.settled,
        new_saved is None,
        new_a == Some(a),
        !restarted_here,
{
}

} // verus!
