//! The input events that views read: finger contacts from the touch panel
//! and the gestures recognised from them.
use vstd::prelude::*;
use crate::geom::Point;

verus! {

/// The phase of a finger contact.
#[derive(Debug, Clone, Copy, PartialEq, Eq, Hash, Structural)]
pub enum FingerStatus {
    Down,
    Motion,
    Up,
}

/// A raw event of the touch panel.
#[derive(Debug, Clone, Copy, PartialEq, Eq, Structural)]
pub enum DeviceEvent {
    Finger { id: i32, status: FingerStatus, position: Point },
}

/// A gesture recognised from finger contacts.
#[derive(Debug, Clone, Copy, PartialEq, Eq, Structural)]
pub enum GestureEvent {
    Tap(Point),
}

} // verus!
