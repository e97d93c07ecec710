use vstd::prelude::*;

verus! {

/// The phase of a pinch gesture on the touchpad.
#[allow(non_camel_case_types)]
#[derive(Clone, Copy, Debug, PartialEq, Eq, Structural)]
pub enum PhaseZoomEventState {
    BEGIN,
    UPDATE,
    END,
}

} // verus!
