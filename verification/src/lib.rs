//! Verified core of a transition engine for styled UI elements.
//!
//! The crate keeps, per element, the styles an element animates between and
//! the bookkeeping that decides which animations run, which are stale, and
//! which restart from a saved context. Everything that needs time or
//! floating-point arithmetic (easing curves, blending two styles, scaling a
//! duration) is supplied by the host as plain results; the decisions made on
//! those results are proved here.

pub mod animation;
pub mod interpolate;
pub mod transition;
