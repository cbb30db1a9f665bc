//! The decisions of the interactive loop: phase stepping and cancellation.
//!
//! The loop itself — event polling, frame pacing, the window surface — runs
//! outside; it hands events in as plain values and takes the next state
//! back.

use vstd::prelude::*;

verus! {

/// The number of discrete rotation phases one full turn is divided into.
pub const PHASE_COUNT: u32 = 100;

/// An input event, reduced to what the loop decides on.
#[derive(Debug, PartialEq, Eq, Structural, Clone, Copy)]
pub enum InputEvent {
    Quit,
    EscapeKey,
    Other,
}

/// Whether the loop keeps running after the event: anything but a quit
/// request or the escape key.
pub fn continues_after(event: InputEvent) -> (r: bool)
    ensures
        r == !(event is Quit || event is EscapeKey),
{
    match event {
        InputEvent::Quit => false,
        InputEvent::EscapeKey => false,
        InputEvent::Other => true,
    }
}

/// The rotation phase of the next frame: one step further, wrapping after
/// a full turn.
pub fn next_phase(counter: u32) -> (r: u32)
    requires
        counter < PHASE_COUNT,
    ensures
        r == ((counter + 1) % (PHASE_COUNT as int)),
        r < PHASE_COUNT,
{
    (counter + 1) % PHASE_COUNT
}

} // verus!
