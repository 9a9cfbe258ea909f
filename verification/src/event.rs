//! Basic UI events delivered to widgets.
use vstd::prelude::*;

verus! {

/// Maximum number of simultaneous touch contacts reported in a single frame.
pub const MAX_TOUCH_POINTS: usize = 5;

/// Per-point event flag reported by a touch controller.
#[derive(Debug, Clone, Copy, PartialEq, Eq, Structural)]
pub enum TouchState {
    /// New contact this frame.
    Down,
    /// Contact lifted this frame.
    Up,
    /// Contact still held, possibly moved.
    Contact,
}

/// A single touch contact point within a frame.
#[derive(Debug, Clone, Copy, PartialEq, Eq, Structural)]
pub struct TouchPoint {
    /// Touch tracking ID assigned by the controller.
    pub id: u8,
    /// Horizontal coordinate.
    pub x: i32,
    /// Vertical coordinate.
    pub y: i32,
    /// Per-point event flag.
    pub state: TouchState,
}

impl Default for TouchPoint {
    /// A lifted contact at the origin with tracking ID 0.
    fn default() -> (r: Self)
        ensures
            r == (TouchPoint { id: 0, x: 0, y: 0, state: TouchState::Up }),
    {
        TouchPoint { id: 0, x: 0, y: 0, state: TouchState::Up }
    }
}

/// Identifiers for keyboard keys.
#[derive(Debug, Clone, Copy, PartialEq, Eq, Structural)]
pub enum Key {
    /// Escape key.
    Escape,
    /// Enter/Return key.
    Enter,
    /// Spacebar key.
    Space,
    /// Backspace key: editable fields delete the character before the caret.
    Backspace,
    /// Up arrow key.
    ArrowUp,
    /// Down arrow key.
    ArrowDown,
    /// Left arrow key.
    ArrowLeft,
    /// Right arrow key.
    ArrowRight,
    /// Function key with the given index (1-12).
    Function(u8),
    /// Printable character key.
    Character(char),
    /// Any other key not explicitly covered above.
    Other(u32),
}

/// Event types propagated through the widget tree.
#[derive(Debug, Clone, PartialEq, Eq)]
pub enum Event {
    /// Called periodically to advance animations or timers.
    Tick,
    /// A pointer (mouse or touch) was pressed at the given coordinates.
    PointerDown {
        /// Horizontal coordinate relative to the widget origin.
        x: i32,
        /// Vertical coordinate relative to the widget origin.
        y: i32,
    },
    /// The pointer was released.
    PointerUp {
        /// Horizontal coordinate relative to the widget origin.
        x: i32,
        /// Vertical coordinate relative to the widget origin.
        y: i32,
    },
    /// The pointer moved while still pressed.
    PointerMove {
        /// Horizontal coordinate relative to the widget origin.
        x: i32,
        /// Vertical coordinate relative to the widget origin.
        y: i32,
    },
    /// Multi-touch frame with per-point data; only `points[..count]` are valid.
    Touch {
        /// Number of active contact points (2..=[`MAX_TOUCH_POINTS`]).
        count: u8,
        /// Per-point data. Entries beyond `count` are meaningless.
        points: [TouchPoint; MAX_TOUCH_POINTS],
    },
    /// Stable contact began (debounced), for visual press feedback.
    PressDown {
        /// Horizontal coordinate.
        x: i32,
        /// Vertical coordinate.
        y: i32,
    },
    /// Stable contact released (debounced): the primary "click/tap" trigger.
    PressRelease {
        /// Horizontal coordinate.
        x: i32,
        /// Vertical coordinate.
        y: i32,
    },
    /// Two consecutive short taps detected at the given coordinates.
    DoubleTap {
        /// Horizontal coordinate.
        x: i32,
        /// Vertical coordinate.
        y: i32,
    },
    /// A drag gesture started: the pointer crossed the start threshold.
    DragStart {
        /// Horizontal coordinate of the move that crossed the threshold.
        x: i32,
        /// Vertical coordinate of the move that crossed the threshold.
        y: i32,
        /// Horizontal coordinate of the originating press.
        origin_x: i32,
        /// Vertical coordinate of the originating press.
        origin_y: i32,
    },
    /// Pointer position update while a drag is in progress.
    DragMove {
        /// Horizontal coordinate.
        x: i32,
        /// Vertical coordinate.
        y: i32,
    },
    /// The dragged pointer lifted; drop position for resolution logic.
    DragEnd {
        /// Horizontal coordinate.
        x: i32,
        /// Vertical coordinate.
        y: i32,
    },
    /// A keyboard key was pressed.
    KeyDown {
        /// Key that was pressed.
        key: Key,
    },
    /// A keyboard key was released.
    KeyUp {
        /// Key that was released.
        key: Key,
    },
}

} // verus!
