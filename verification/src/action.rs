//! Protocol requests as data.
//!
//! The verified state machine never talks to the display server itself:
//! every operation appends the requests it wants performed to a
//! `Vec<Action>`, and the unverified I/O layer replays them in order.

use vstd::prelude::*;

verus! {

/// A protocol-level window id.  Both client windows and the decoration
/// frames this manager creates are identified this way.
pub type Wid = u32;

/// One protocol request.  Coordinates given for a top-level window are
/// root-relative; coordinates given for a reparented client window are
/// relative to its frame.
#[derive(Clone, Debug, PartialEq, Eq)]
pub enum Action {
    /// Map (show) a window.
    MapWid(Wid),
    /// Unmap (hide) a window.
    UnmapWid(Wid),
    /// Give a window the input focus.
    SetFocus(Wid),
    /// Set position, size and border width of a window in one request.
    ConfigureWid { wid: Wid, x: i32, y: i32, w: u32, h: u32, border_width: u32 },
    /// Move a window without touching its size.
    MoveWid { wid: Wid, x: i32, y: i32 },
    /// Resize a window without touching its position.
    ResizeWid { wid: Wid, w: u32, h: u32 },
    /// Raise a window to the top of the stacking order.
    StackAbove(Wid),
    /// Lower a window to the bottom of the stacking order.
    StackBelow(Wid),
    /// Redraw a frame's decoration: its border colour and, when
    /// `visible` holds, its title strip.
    UpdateFrame { frame: Wid, inner: Wid, visible: bool, highlighted: bool },
    /// Ask a client politely to close (it advertised support for the
    /// delete protocol).
    SendDelete(Wid),
    /// Destroy a window outright.
    DestroyWid(Wid),
    /// Reparent a client window back to the root window.
    ReparentToRoot(Wid),
    /// Move the pointer by a relative offset.
    WarpPointer { dx: i16, dy: i16 },
    /// Synthesize a click of the primary pointer button.
    ClickLeft,
    /// Launch an external process.
    SpawnProcess(String),
    /// Release a frozen pointer grab, letting queued events through.
    AllowEventsSync,
    /// Release a frozen pointer grab, replaying the event to the client.
    AllowEventsReplay,
    /// Tell the status bar of a monitor where to sit and what to show.
    BarUpdate { screen: usize, x: i32, y: i32, w: u32, focused: bool },
}

} // verus!
