use vstd::prelude::*;

verus! {

/// Linear progress for colour transitions: the elapsed fraction of the
/// duration, clamped at the end.
#[derive(Debug, Clone, Copy)]
pub struct Linear;

} // verus!
