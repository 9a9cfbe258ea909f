//! Hardware abstraction traits (display, input, time) that decouple
//! application logic from the execution environment.
use vstd::prelude::*;

use crate::event::Event;
use crate::renderer::Renderer;

verus! {

/// Driver for a physical or simulated display.
pub trait DisplayDriver {
    /// The concrete renderer used by this display.
    type Renderer: Renderer;

    /// Acquire a renderer for the current frame and invoke the drawing closure.
    fn draw<F>(&mut self, f: F) where F: FnOnce(&mut Self::Renderer);
}

/// Driver for input events.
pub trait InputDriver {
    /// Poll for a pending event, if any.
    fn poll_event(&mut self) -> Option<Event>;
}

/// Source of monotonic time.
pub trait TimeSource {
    /// The current time in milliseconds.
    fn now_ms(&self) -> u64;
}

} // verus!
