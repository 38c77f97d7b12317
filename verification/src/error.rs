//! The manager's error vocabulary.
//!
//! `Quit` and `Restart` are control-flow signals, not failures: they
//! unwind the event loop to a clean exit.  The remaining variants are
//! fatal startup conditions.

use vstd::prelude::*;

verus! {

#[derive(Clone, Debug)]
pub enum WmError {
    /// Terminated by the user.
    Quit,
    /// The user asked for a re-exec by the supervisor.
    Restart,
    /// Cannot connect with the display server.
    ConnectionFailed,
    /// Another window manager already owns the root window.
    WmAlreadyExists,
    /// Another client has already grabbed a key this manager wants.
    KeyAlreadyGrabbed,
    /// Another client has already grabbed a button this manager wants.
    ButtonAlreadyGrabbed,
    /// The display has no screen.
    NoScreen,
    /// No monitor is available.
    NoMonitor,
    /// A collaborator thread's channel closed underneath us.
    BrokenChannel,
    /// The configuration was rejected at startup.
    InvalidConfig { reason: String },
}

} // verus!
