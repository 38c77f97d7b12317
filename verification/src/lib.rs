//! A verified model of a tiling window manager.
//!
//! The crate tracks every client window's lifecycle and decoration frame,
//! the assignment of windows to virtual screens, the assignment of virtual
//! screens to physical monitors, the tiling layout strategies, and the
//! command processor that ties them together.  All mutating operations are
//! pure state transitions that additionally emit a list of protocol
//! requests ([`action::Action`]) for an unverified I/O layer to perform.

pub mod action;
pub mod config;
pub mod error;
pub mod geometry;
pub mod layout;
pub mod screen;
pub mod window;
pub mod winman;
