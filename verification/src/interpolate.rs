use std::time::Duration;
use vstd::prelude::*;
use vstd::std_specs::cmp::PartialEqSpec;

use crate::animation::AnimationPriority;

verus! {

/// The styles one element animates between.
///
/// `origin` is the style the element was created with, `from` the style the
/// running animation started at, `to` its target, and `cur` what is shown
/// now. `settled` holds when the animation's progress has reached its end
/// (the host keeps the progress value itself, a float), and `version` counts
/// the animations started on this state: an animation registered under an
/// older version is stale. `priority` is the state's animation priority.
#[derive(Clone, Debug)]
pub struct State<S> {
    pub origin: S,
    pub from: S,
    pub to: S,
    pub cur: S,
    pub settled: bool,
    pub version: usize,
    pub priority: AnimationPriority,
}

/// `a` and `b` are equal under `S`'s equality.
pub open spec fn same_style<S: PartialEq>(a: S, b: S) -> bool {
    a.eq_spec(&b)
}

/// `s` rests at `init`: all four styles are clones of `init`, the state is
/// settled, no animation has been started on it and its priority is the
/// lowest.
pub open spec fn resting_at<S: Clone>(init: S, s: State<S>) -> bool {
    &&& cloned(init, s.origin)
    &&& cloned(init, s.from)
    &&& cloned(init, s.to)
    &&& cloned(init, s.cur)
    &&& s.settled
    &&& s.version == 0
    &&& s.priority == AnimationPriority::Lowest
}

/// What `pre_animated` does to a state: the version goes up by one, the
/// animation restarts from what is shown now, and the duration is the
/// reversed one exactly when the target equals the start (the animation
/// runs back over the part already played).
pub open spec fn restarted<S: PartialEq + Clone>(
    old: State<S>,
    new: State<S>,
    dt: Duration,
    reversed_dt: Duration,
    r: (usize, Duration),
) -> bool {
    &&& new.version == old.version + 1
    &&& r.0 == new.version
    &&& new.origin == old.origin
    &&& new.to == old.to
    &&& new.cur == old.cur
    &&& new.priority == old.priority
    &&& cloned(old.cur, new.from)
    &&& !new.settled
    &&& (r.1 == dt || r.1 == reversed_dt)
    &&& S::obeys_eq_spec() ==> r.1 == (if same_style(old.to, old.from) {
        reversed_dt
    } else {
        dt
    })
}

/// What `animated` does to a state for an animation registered under
/// version `ss_ver`; `done` tells whether the animation is over.
pub open spec fn stepped<S: Clone>(
    old: State<S>,
    new: State<S>,
    ss_ver: usize,
    reached_end: bool,
    blended: S,
    persistent: bool,
    done: bool,
) -> bool {
    if ss_ver != old.version {
        done && new == old
    } else if reached_end {
        &&& done == !persistent
        &&& new.settled
        &&& cloned(old.to, new.cur)
        &&& new.origin == old.origin
        &&& new.from == old.from
        &&& new.to == old.to
        &&& new.version == old.version
        &&& new.priority == old.priority
    } else {
        &&& !done
        &&& new == State { cur: blended, settled: false, ..old }
    }
}

/// `b` is a clone of `a`, entry by entry.
pub open spec fn opt_cloned<T: Clone>(a: Option<T>, b: Option<T>) -> bool {
    match a {
        None => b is None,
        Some(x) => b matches Some(y) && cloned(x, y),
    }
}

/// Interpolates two sequences element by element with `lerp`. The result
/// has the length of `to`: where both have an element it is
/// `lerp(from[i], to[i])`, past the end of `from` it is a clone of `to[i]`,
/// and the elements `from` has beyond `to` are dropped.
pub fn interpolate_vec<T: Clone, F: Fn(&T, &T) -> T>(from: &Vec<T>, to: &Vec<T>, lerp: F) -> (r:
    Vec<T>)
    requires
        forall|i: int|
            0 <= i < from.len() && i < to.len() ==> call_requires(lerp, (&from[i], &to[i])),
    ensures
        r.len() == to.len(),
        forall|i: int|
            0 <= i < r.len() ==> if i < from.len() {
                call_ensures(lerp, (&from[i], &to[i]), #[trigger] r[i])
            } else {
                cloned(to[i], r[i])
            },
{
    let max_len: usize = if from.len() >= to.len() {
        from.len()
    } else {
        to.len()
    };
    let mut result: Vec<T> = Vec::with_capacity(max_len);
    let mut i: usize = 0;
    while i < max_len
        invariant
            0 <= i <= max_len,
            max_len == if from.len() >= to.len() {
                from.len()
            } else {
                to.len()
            },
            forall|j: int|
                0 <= j < from.len() && j < to.len() ==> call_requires(lerp, (&from[j], &to[j])),
            result.len() == if i <= to.len() {
                i as int
            } else {
                to.len() as int
            },
            forall|j: int|
                0 <= j < result.len() ==> if j < from.len() {
                    call_ensures(lerp, (&from[j], &to[j]), #[trigger] result[j])
                } else {
                    cloned(to[j], result[j])
                },
        decreases max_len - i,
    {
        let f = from.get(i);
        let t = to.get(i);
        match (f, t) {
            (Some(a), Some(b)) => result.push(lerp(a, b)),
            (_, Some(b)) => result.push(b.clone()),
            _ => {},
        }
        i = i + 1;
    }
    result
}

/// One field of a style moving from `from` to `to`: interpolated with
/// `lerp` when the two differ, kept (a clone of `from`) when they are equal.
pub fn refine<T: Clone + PartialEq, F: FnOnce(&T, &T) -> T>(from: &T, to: &T, lerp: F) -> (r: T)
    requires
        call_requires(lerp, (from, to)),
    ensures
        call_ensures(lerp, (from, to), r) || cloned(*from, r),
        T::obeys_eq_spec() ==> if same_style(*from, *to) {
            cloned(*from, r)
        } else {
            call_ensures(lerp, (from, to), r)
        },
{
    if from.ne(to) {
        lerp(from, to)
    } else {
        from.clone()
    }
}

/// An optional field of a style refinement moving from `from` to `to`: when
/// both are set and differ, the interpolation of the two; otherwise a clone
/// of `to` (so an unset target stays unset and a newly set one is taken).
pub fn refine_option<T: Clone + PartialEq, F: FnOnce(&T, &T) -> T>(
    from: &Option<T>,
    to: &Option<T>,
    lerp: F,
) -> (r: Option<T>)
    requires
        from is Some && to is Some ==> call_requires(lerp, (&from->0, &to->0)),
    ensures
        !(from is Some && to is Some) ==> opt_cloned(*to, r),
        from is Some && to is Some ==> {
            let a = from->0;
            let b = to->0;
            &&& (r matches Some(x) && call_ensures(lerp, (&a, &b), x)) || opt_cloned(*to, r)
            &&& T::obeys_eq_spec() ==> if same_style(a, b) {
                opt_cloned(*to, r)
            } else {
                r matches Some(x) && call_ensures(lerp, (&a, &b), x)
            }
        },
{
    match (from, to) {
        (Some(a), Some(b)) => {
            if a.ne(b) {
                return Some(lerp(a, b));
            }
        },
        _ => {},
    }
    to.clone()
}

/// In-place form of `refine`: `out` takes the interpolation when the two
/// values differ and is left alone when they are equal.
pub fn fast_refine<T: PartialEq, F: FnOnce(&T, &T) -> T>(from: &T, to: &T, out: &mut T, lerp: F)
    requires
        call_requires(lerp, (from, to)),
    ensures
        call_ensures(lerp, (from, to), *final(out)) || *final(out) == *old(out),
        T::obeys_eq_spec() ==> if same_style(*from, *to) {
            *final(out) == *old(out)
        } else {
            call_ensures(lerp, (from, to), *final(out))
        },
{
    if from.ne(to) {
        *out = lerp(from, to);
    }
}

/// In-place form of `refine_option`: `out` takes the interpolation when both
/// values are set and differ, and is left alone otherwise.
pub fn fast_refine_option<T: PartialEq, F: FnOnce(&T, &T) -> T>(
    from: &Option<T>,
    to: &Option<T>,
    out: &mut Option<T>,
    lerp: F,
)
    requires
        from is Some && to is Some ==> call_requires(lerp, (&from->0, &to->0)),
    ensures
        !(from is Some && to is Some) ==> *final(out) == *old(out),
        from is Some && to is Some ==> {
            let a = from->0;
            let b = to->0;
            &&& (*final(out) matches Some(x) && call_ensures(lerp, (&a, &b), x)) || *final(out)
                == *old(out)
            &&& T::obeys_eq_spec() ==> if same_style(a, b) {
                *final(out) == *old(out)
            } else {
                *final(out) matches Some(x) && call_ensures(lerp, (&a, &b), x)
            }
        },
{
    match (from, to) {
        (Some(a), Some(b)) => {
            if a.ne(b) {
                *out = Some(lerp(a, b));
            }
        },
        _ => {},
    }
}

/// In-place interpolation of a nested optional refinement (the text style
/// inside a style refinement). When both are set and differ, the value in
/// `out` is replaced by `blend(from, to, out)`; when only the target is set,
/// `out` becomes a clone of it; otherwise `out` is left alone. A set `out` is
/// needed when the two set values differ.
pub fn fast_refine_nested<T: Clone + PartialEq, F: FnOnce(&T, &T, &T) -> T>(
    from: &Option<T>,
    to: &Option<T>,
    out: &mut Option<T>,
    blend: F,
)
    requires
        from is Some && to is Some && (T::obeys_eq_spec() ==> !same_style(from->0, to->0))
            ==> *old(out) is Some,
        from is Some && to is Some && *old(out) is Some ==> call_requires(
            blend,
            (&from->0, &to->0, &(*old(out))->0),
        ),
    ensures
        from is None && to is Some ==> opt_cloned(*to, *final(out)),
        to is None ==> *final(out) == *old(out),
        from is Some && to is Some ==> {
            let a = from->0;
            let b = to->0;
            let blended = *final(out) matches Some(x) && *old(out) is Some && call_ensures(
                blend,
                (&a, &b, &(*old(out))->0),
                x,
            );
            &&& blended || *final(out) == *old(out)
            &&& T::obeys_eq_spec() ==> if same_style(a, b) {
                *final(out) == *old(out)
            } else {
                blended
            }
        },
{
    match (from, to) {
        (Some(a), Some(b)) => {
            if a.ne(b) {
                let current = out.as_ref().unwrap();
                let next = blend(a, b, current);
                *out = Some(next);
            }
        },
        (None, Some(b)) => {
            *out = Some(b.clone());
        },
        _ => {},
    }
}

impl<S: Clone + PartialEq> State<S> {
    /// A state resting at `init`: all four styles are `init`, nothing runs.
    pub fn new(init: S) -> (r: Self)
        ensures
            r.to == init,
            resting_at(init, r),
            r.settled,
            r.version == 0,
            r.priority == AnimationPriority::Lowest,
            cloned(init, r.origin),
            cloned(init, r.from),
            cloned(init, r.cur),
    {
        State {
            origin: init.clone(),
            cur: init.clone(),
            from: init.clone(),
            to: init,
            settled: true,
            version: 0,
            priority: AnimationPriority::Lowest,
        }
    }

    /// Retargets the state at the style it was created with.
    pub fn origin(self) -> (r: Self)
        ensures
            cloned(self.origin, r.to),
            r.origin == self.origin,
            r.from == self.from,
            r.cur == self.cur,
            r.settled == self.settled,
            r.version == self.version,
            r.priority == self.priority,
    {
        let to = self.origin.clone();
        State { to, ..self }
    }

    /// Whether two states aim at the same target; states compare by `to`.
    pub fn same_target(&self, other: &Self) -> (r: bool)
        ensures
            S::obeys_eq_spec() ==> r == same_style(self.to, other.to),
    {
        self.to == other.to
    }

    /// Starts a new animation from the style shown now. Returns the new
    /// version and the duration the animation gets: `reversed_dt` (the
    /// host's duration scaled by the progress already made) when the target
    /// equals the start, `dt` otherwise.
    pub fn pre_animated(&mut self, dt: Duration, reversed_dt: Duration) -> (r: (usize, Duration))
        requires
            old(self).version < usize::MAX,
        ensures
            restarted(*old(self), *final(self), dt, reversed_dt, r),
            final(self).cur == old(self).cur,
            final(self).to == old(self).to,
            final(self).origin == old(self).origin,
            final(self).version == old(self).version + 1,
            r.0 == final(self).version,
            cloned(old(self).cur, final(self).from),
            !final(self).settled,
    {
        self.version = self.version + 1;
        let is_reversing = self.to == self.from;
        let actual_duration = if is_reversing {
            reversed_dt
        } else {
            dt
        };
        self.from = self.cur.clone();
        self.settled = false;
        (self.version, actual_duration)
    }

    /// Advances the state for an animation registered under `ss_ver`.
    /// A stale animation (another version) is over and leaves the state as
    /// it is. Otherwise the state takes the measurement: at the end the
    /// target is shown and the animation is over unless it is persistent;
    /// before the end `blended` is shown.
    pub fn animated(&mut self, ss_ver: usize, reached_end: bool, blended: S, persistent: bool) -> (done: bool)
        ensures
            stepped(*old(self), *final(self), ss_ver, reached_end, blended, persistent, done),
            ss_ver != old(self).version ==> done && *final(self) == *old(self),
            ss_ver == old(self).version && !reached_end ==> {
                &&& !done
                &&& final(self).cur == blended
                &&& !final(self).settled
            },
            ss_ver == old(self).version && reached_end ==> {
                &&& done == !persistent
                &&& final(self).settled
                &&& cloned(old(self).to, final(self).cur)
            },
    {
        if ss_ver != self.version {
            return true;
        }
        self.settled = reached_end;
        if reached_end {
            self.cur = self.to.clone();
            if persistent {
                return false;
            }
            return true;
        }
        self.cur = blended;
        false
    }
}

/// Restarting an animation outdates every animation registered under an
/// earlier version: stepping the restarted state for such an animation ends
/// it and changes nothing.
pub proof fn lemma_restart_outdates<S: PartialEq + Clone>(
    old: State<S>,
    new: State<S>,
    dt: Duration,
    reversed_dt: Duration,
    r: (usize, Duration),
    ver: usize,
    reached_end: bool,
    blended: S,
    persistent: bool,
    next: State<S>,
    done: bool,
)
    requires
        restarted(old, new, dt, reversed_dt, r),
        ver <= old.version,
        stepped(new, next, ver, reached_end, blended, persistent, done),
    ensures
        done,
        next == new,
{
}

/// The animation just started is current: stepping for the returned
/// version takes the measurement.
pub proof fn lemma_restart_is_current<S: PartialEq + Clone>(
    old: State<S>,
    new: State<S>,
    dt: Duration,
    reversed_dt: Duration,
    r: (usize, Duration),
    reached_end: bool,
    blended: S,
    persistent: bool,
    next: State<S>,
    done: bool,
)
    requires
        restarted(old, new, dt, reversed_dt, r),
        stepped(new, next, r.0, reached_end, blended, persistent, done),
    ensures
        next.settled == reached_end,
        next.version == new.version,
        next.origin == old.origin,
{
}

/// When the target equals the start and equality is lawful, a restart runs
/// for the reversed duration; otherwise for the given one.
pub proof fn lemma_restart_duration<S: PartialEq + Clone>(
    old: State<S>,
    new: State<S>,
    dt: Duration,
    reversed_dt: Duration,
    r: (usize, Duration),
)
    requires
        S::obeys_eq_spec(),
        restarted(old, new, dt, reversed_dt, r),
    ensures
        same_style(old.to, old.from) ==> r.1 == reversed_dt,
        !same_style(old.to, old.from) ==> r.1 == dt,
{
}

/// Before its end, a current animation is not over, whether persistent or
/// not, and the state shows exactly the host's blended style; nothing else
/// moves.
pub proof fn lemma_animated_running<S: Clone>(
    old: State<S>,
    new: State<S>,
    blended: S,
    persistent: bool,
    done: bool,
)
    requires
        stepped(old, new, old.version, false, blended, persistent, done),
    ensures
        !done,
        new.cur == blended,
        !new.settled,
        new.from == old.from,
        new.to == old.to,
        new.origin == old.origin,
        new.version == old.version,
        new.priority == old.priority,
{
}

/// At its end, a current animation shows (a clone of) its target, is
/// settled, and is over exactly when it is not persistent.
pub proof fn lemma_animated_end<S: Clone>(
    old: State<S>,
    new: State<S>,
    blended: S,
    persistent: bool,
    done: bool,
)
    requires
        stepped(old, new, old.version, true, blended, persistent, done),
    ensures
        done == !persistent,
        new.settled,
        cloned(old.to, new.cur),
        new.from == old.from,
        new.to == old.to,
        new.origin == old.origin,
        new.version == old.version,
        new.priority == old.priority,
{
}

/// A step for another version than the state's ends that animation and
/// leaves the state untouched, whatever was measured.
pub proof fn lemma_animated_stale<S: Clone>(
    old: State<S>,
    new: State<S>,
    ss_ver: usize,
    reached_end: bool,
    blended: S,
    persistent: bool,
    done: bool,
)
    requires
        ss_ver != old.version,
        stepped(old, new, ss_ver, reached_end, blended, persistent, done),
    ensures
        done,
        new == old,
{
}

/// Restarting keeps the style shown now: only the version (up by one), the
/// start (a clone of what is shown) and the settled flag (cleared) move.
pub proof fn lemma_restart_keeps_shown<S: PartialEq + Clone>(
    old: State<S>,
    new: State<S>,
    dt: Duration,
    reversed_dt: Duration,
    r: (usize, Duration),
)
    requires
        restarted(old, new, dt, reversed_dt, r),
    ensures
        new.cur == old.cur,
        new.to == old.to,
        new.origin == old.origin,
        new.priority == old.priority,
        new.version == old.version + 1,
        r.0 == new.version,
        cloned(old.cur, new.from),
        !new.settled,
{
}

/// A resting state shows clones of its style everywhere, is settled, has had
/// no animation and sits at the lowest priority.
pub proof fn lemma_resting<S: Clone>(init: S, s: State<S>)
    requires
        resting_at(init, s),
    ensures
        cloned(init, s.origin),
        cloned(init, s.from),
        cloned(init, s.to),
        cloned(init, s.cur),
        s.settled,
        s.version == 0,
        s.priority == AnimationPriority::Lowest,
{
}

/// An optional clone is set exactly when its source is, to a clone of it.
pub proof fn lemma_opt_cloned<T: Clone>(a: Option<T>, b: Option<T>)
    requires
        opt_cloned(a, b),
    ensures
        a is None <==> b is None,
        a is Some ==> cloned(a->0, b->0),
{
}

} // verus!
