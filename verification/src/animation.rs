use vstd::prelude::*;

verus! {

/// What started an animation: nothing in particular, the pointer hovering
/// over the element, or a click on it.
#[derive(Debug, Clone, Copy, Hash, PartialEq, Eq, Structural)]
pub enum Event {
    NONE,
    HOVER,
    CLICK,
}

/// How strongly an element's current styling holds against others; a state
/// whose event-started animation has ended drops to `Lowest`.
#[derive(Debug, Clone, Copy, Hash, PartialEq, Eq, Structural)]
pub enum AnimationPriority {
    Lowest,
    Low,
    Medium,
    High,
    Highest,
}

} // verus!
