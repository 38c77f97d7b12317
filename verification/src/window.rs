//! One managed client window: lifecycle state, decoration frame,
//! floating geometry and highlight.
//!
//! A `Window` owns two protocol ids: the client window (`inner`) and the
//! decoration frame (`frame`) the manager reparented it into.  Every
//! operation is a guarded state transition; the protocol requests it
//! wants sent are appended to an action list and mirrored exactly by
//! `*_acts` spec functions.

use vstd::prelude::*;

use crate::action::{Action, Wid};
use crate::geometry::{Rect, FRAME_HEIGHT};

verus! {

/// Lifecycle of a client window.  `Created` is the state between
/// adoption and the first map; mapping a `Created` window additionally
/// grabs the input focus.  Parking a screen does not change this state:
/// it sets the separate `hidden` flag instead, so that re-attaching
/// restores exactly the previous state.
#[derive(Clone, Copy, Debug, PartialEq, Eq, Structural)]
pub enum WindowState {
    Created,
    Mapped,
    Unmapped,
}

#[derive(Clone, Copy, Debug)]
pub struct Window {
    /// The client's own window id; never reassigned.
    pub inner: Wid,
    /// The decoration frame the manager created; never reassigned.
    pub frame: Wid,
    pub state: WindowState,
    /// Forced invisible because the owning screen has no monitor.
    pub hidden: bool,
    /// Saturating count of unmap requests this manager issued itself;
    /// the matching notifications must not be mistaken for
    /// client-initiated unmaps.
    pub ignore_unmaps: u32,
    /// Present iff the window floats above the tiling layout.
    pub float_geometry: Option<Rect>,
    /// Whether the decoration strip is currently drawn.
    pub frame_visible: bool,
    pub highlighted: bool,
    pub border_width: u32,
    /// The client advertised support for the polite-close protocol.
    pub wm_delete: bool,
}

impl Window {
    pub open spec fn wf(self) -> bool {
        &&& self.inner != self.frame
        &&& self.border_width <= 0xff
        &&& match self.float_geometry {
            Some(r) => r.wf(),
            None => true,
        }
    }

    /// Does this window answer to the given protocol id (either of its
    /// two ids)?
    pub open spec fn contains_spec(self, wid: Wid) -> bool {
        self.inner == wid || self.frame == wid
    }

    pub open spec fn is_mapped_spec(self) -> bool {
        self.state == WindowState::Mapped
    }

    pub open spec fn is_viewable_spec(self) -> bool {
        !self.hidden && self.state == WindowState::Mapped
    }

    pub open spec fn is_floating_spec(self) -> bool {
        self.float_geometry is Some
    }

    pub fn new(
        inner: Wid,
        frame: Wid,
        state: WindowState,
        border_width: u32,
        wm_delete: bool,
        acts: &mut Vec<Action>,
    ) -> (w: Window)
        requires
            inner != frame,
            border_width <= 0xff,
        ensures
            w == (Window {
                inner,
                frame,
                state,
                hidden: false,
                ignore_unmaps: 0,
                float_geometry: None,
                frame_visible: false,
                highlighted: false,
                border_width,
                wm_delete,
            }),
            w.wf(),
            final(acts)@ == old(acts)@ + if state == WindowState::Mapped {
                seq![Action::MapWid(frame), Action::MapWid(inner)]
            } else {
                Seq::<Action>::empty()
            },
    {
        if state == WindowState::Mapped {
            acts.push(Action::MapWid(frame));
            acts.push(Action::MapWid(inner));
        }
        Window {
            inner,
            frame,
            state,
            hidden: false,
            ignore_unmaps: 0,
            float_geometry: None,
            frame_visible: false,
            highlighted: false,
            border_width,
            wm_delete,
        }
    }

    pub fn frame(&self) -> (r: Wid)
        ensures
            r == self.frame,
    {
        self.frame
    }

    pub fn inner(&self) -> (r: Wid)
        ensures
            r == self.inner,
    {
        self.inner
    }

    pub fn contains(&self, wid: Wid) -> (r: bool)
        ensures
            r == self.contains_spec(wid),
    {
        self.inner == wid || self.frame == wid
    }

    pub fn is_mapped(&self) -> (r: bool)
        ensures
            r == self.is_mapped_spec(),
    {
        self.state == WindowState::Mapped
    }

    pub fn is_viewable(&self) -> (r: bool)
        ensures
            r == self.is_viewable_spec(),
    {
        !self.hidden && self.state == WindowState::Mapped
    }

    pub fn is_floating(&self) -> (r: bool)
        ensures
            r == self.is_floating_spec(),
    {
        self.float_geometry.is_some()
    }

    pub fn get_float_geometry(&self) -> (r: Option<Rect>)
        ensures
            r == self.float_geometry,
    {
        self.float_geometry
    }

    /// Overwrite the floating rectangle of a window that already floats.
    pub fn set_float_geometry(&mut self, rect: Rect)
        requires
            old(self).is_floating_spec(),
            rect.wf(),
        ensures
            *final(self) == (Window { float_geometry: Some(rect), ..*old(self) }),
    {
        self.float_geometry = Some(rect);
    }

    /// State after `map`.
    pub open spec fn after_map(self) -> Window {
        if self.state == WindowState::Mapped {
            self
        } else {
            Window { state: WindowState::Mapped, ..self }
        }
    }

    /// Requests emitted by `map`.  A window that is already `Mapped`
    /// emits nothing: the transition is idempotent and the redundant
    /// protocol request is suppressed by the state check.
    pub open spec fn map_acts(self) -> Seq<Action> {
        if self.state == WindowState::Mapped {
            Seq::<Action>::empty()
        } else {
            (if !self.hidden {
                seq![Action::MapWid(self.frame), Action::MapWid(self.inner)]
            } else {
                Seq::<Action>::empty()
            }) + (if self.state == WindowState::Created {
                seq![Action::SetFocus(self.inner)]
            } else {
                Seq::<Action>::empty()
            })
        }
    }

    /// Which window takes the input focus as a result of `map`:
    /// only a first map out of `Created` grabs focus.
    pub open spec fn map_focus(self) -> Option<Wid> {
        if self.state == WindowState::Created {
            Some(self.inner)
        } else {
            None
        }
    }

    /// Make the window visible.  Idempotent: a `Mapped` window is left
    /// untouched and no request is re-sent.  A `Created` window is
    /// focused on its first map.
    pub fn map(&mut self, acts: &mut Vec<Action>) -> (focus: Option<Wid>)
        ensures
            *final(self) == old(self).after_map(),
            final(acts)@ == old(acts)@ + old(self).map_acts(),
            focus == if old(self).state == WindowState::Mapped {
                None::<Wid>
            } else {
                old(self).map_focus()
            },
    {
        if self.state == WindowState::Mapped {
            return None;
        }
        if !self.hidden {
            acts.push(Action::MapWid(self.frame));
            acts.push(Action::MapWid(self.inner));
        }
        let focus: Option<Wid> = if self.state == WindowState::Created {
            acts.push(Action::SetFocus(self.inner));
            Some(self.inner)
        } else {
            None
        };
        self.state = WindowState::Mapped;
        focus
    }

    /// State after `unmap`: `Unmapped`, with one more self-issued unmap
    /// to ignore (saturating).  Already-`Unmapped` windows are left
    /// untouched: the transition is guarded, so no redundant request is
    /// issued and no stray counter bump can later swallow a genuine
    /// client-initiated unmap notification.
    pub open spec fn after_unmap(self) -> Window {
        if self.state == WindowState::Unmapped {
            self
        } else {
            Window {
                state: WindowState::Unmapped,
                ignore_unmaps: if self.ignore_unmaps < u32::MAX {
                    (self.ignore_unmaps + 1) as u32
                } else {
                    self.ignore_unmaps
                },
                ..self
            }
        }
    }

    pub open spec fn unmap_acts(self) -> Seq<Action> {
        if self.state == WindowState::Unmapped {
            Seq::<Action>::empty()
        } else {
            seq![Action::UnmapWid(self.frame)]
        }
    }

    /// Take the window off the display.  Idempotent: an `Unmapped`
    /// window is left untouched and no request is re-sent.
    pub fn unmap(&mut self, acts: &mut Vec<Action>)
        ensures
            *final(self) == old(self).after_unmap(),
            final(acts)@ == old(acts)@ + old(self).unmap_acts(),
    {
        if self.state == WindowState::Unmapped {
            return ;
        }
        self.state = WindowState::Unmapped;
        if self.ignore_unmaps < u32::MAX {
            self.ignore_unmaps = self.ignore_unmaps + 1;
        }
        acts.push(Action::UnmapWid(self.frame));
    }

    /// State after `show`: no longer hidden; lifecycle state untouched.
    pub open spec fn after_show(self) -> Window {
        if self.hidden {
            Window { hidden: false, ..self }
        } else {
            self
        }
    }

    pub open spec fn show_acts(self) -> Seq<Action> {
        if self.hidden {
            seq![Action::MapWid(self.frame)]
        } else {
            Seq::<Action>::empty()
        }
    }

    /// Map the window again without changing its lifecycle state (the
    /// owning screen regained a monitor).  No-op unless hidden.
    pub fn show(&mut self, acts: &mut Vec<Action>)
        ensures
            *final(self) == old(self).after_show(),
            final(acts)@ == old(acts)@ + old(self).show_acts(),
    {
        if self.hidden {
            self.hidden = false;
            acts.push(Action::MapWid(self.frame));
        }
    }

    /// State after `hide`: hidden, lifecycle state untouched, one more
    /// self-issued unmap to ignore.
    pub open spec fn after_conceal(self) -> Window {
        if !self.hidden {
            Window {
                hidden: true,
                ignore_unmaps: if self.ignore_unmaps < u32::MAX {
                    (self.ignore_unmaps + 1) as u32
                } else {
                    self.ignore_unmaps
                },
                ..self
            }
        } else {
            self
        }
    }

    pub open spec fn conceal_acts(self) -> Seq<Action> {
        if !self.hidden {
            seq![Action::UnmapWid(self.frame)]
        } else {
            Seq::<Action>::empty()
        }
    }

    /// Unmap the window without changing its lifecycle state (the
    /// owning screen lost its monitor).  No-op if already hidden.
    pub fn conceal(&mut self, acts: &mut Vec<Action>)
        ensures
            *final(self) == old(self).after_conceal(),
            final(acts)@ == old(acts)@ + old(self).conceal_acts(),
    {
        if !self.hidden {
            self.hidden = true;
            if self.ignore_unmaps < u32::MAX {
                self.ignore_unmaps = self.ignore_unmaps + 1;
            }
            acts.push(Action::UnmapWid(self.frame));
        }
    }

    /// Request the input focus for the client window.
    pub fn focus(&self, acts: &mut Vec<Action>) -> (r: Wid)
        ensures
            r == self.inner,
            final(acts)@ == old(acts)@ + seq![Action::SetFocus(self.inner)],
    {
        acts.push(Action::SetFocus(self.inner));
        self.inner
    }

    /// State after `float`.
    pub open spec fn after_float(self, rect: Rect) -> Window {
        Window { float_geometry: Some(rect), frame_visible: true, ..self }
    }

    pub open spec fn float_acts(self) -> Seq<Action> {
        seq![
            Action::UpdateFrame {
                frame: self.frame,
                inner: self.inner,
                visible: true,
                highlighted: self.highlighted,
            },
            Action::StackAbove(self.frame),
        ]
    }

    /// Mark the window floating with the given rectangle (relative to
    /// its monitor's origin), show its decoration strip and raise it to
    /// the top of the stack.
    pub fn float(&mut self, rect: Rect, acts: &mut Vec<Action>)
        requires
            rect.wf(),
        ensures
            *final(self) == old(self).after_float(rect),
            final(acts)@ == old(acts)@ + old(self).float_acts(),
    {
        acts.push(Action::UpdateFrame {
            frame: self.frame,
            inner: self.inner,
            visible: true,
            highlighted: self.highlighted,
        });
        acts.push(Action::StackAbove(self.frame));
        self.float_geometry = Some(rect);
        self.frame_visible = true;
    }

    /// State after `sink`.
    pub open spec fn after_sink(self) -> Window {
        Window { float_geometry: None, frame_visible: false, ..self }
    }

    pub open spec fn sink_acts(self) -> Seq<Action> {
        seq![
            Action::UpdateFrame {
                frame: self.frame,
                inner: self.inner,
                visible: false,
                highlighted: self.highlighted,
            },
        ]
    }

    /// Clear the floating override and hide the decoration strip; the
    /// window re-enters the tiling layout on the next refresh.
    pub fn sink(&mut self, acts: &mut Vec<Action>)
        ensures
            *final(self) == old(self).after_sink(),
            final(acts)@ == old(acts)@ + old(self).sink_acts(),
    {
        acts.push(Action::UpdateFrame {
            frame: self.frame,
            inner: self.inner,
            visible: false,
            highlighted: self.highlighted,
        });
        self.float_geometry = None;
        self.frame_visible = false;
    }

    pub open spec fn after_set_highlight(self, on: bool) -> Window {
        Window { highlighted: on, ..self }
    }

    pub open spec fn set_highlight_acts(self, on: bool) -> Seq<Action> {
        seq![
            Action::UpdateFrame {
                frame: self.frame,
                inner: self.inner,
                visible: self.frame_visible,
                highlighted: on,
            },
        ]
    }

    /// Repaint the frame and border in the focused or regular style.
    pub fn set_highlight(&mut self, on: bool, acts: &mut Vec<Action>)
        ensures
            *final(self) == old(self).after_set_highlight(on),
            final(acts)@ == old(acts)@ + old(self).set_highlight_acts(on),
    {
        self.highlighted = on;
        acts.push(Action::UpdateFrame {
            frame: self.frame,
            inner: self.inner,
            visible: self.frame_visible,
            highlighted: on,
        });
    }

    /// Height of the decoration strip currently reserved above the
    /// client window inside its frame.
    pub open spec fn strip_spec(self) -> u32 {
        if self.frame_visible {
            FRAME_HEIGHT
        } else {
            0
        }
    }

    /// The client window's height inside a frame of height `h`: the
    /// frame minus the decoration strip, but never zero.
    pub open spec fn inner_height_spec(self, h: u32) -> u32 {
        if h > self.strip_spec() {
            (h - self.strip_spec()) as u32
        } else {
            1
        }
    }

    pub open spec fn configure_acts(self, r: Rect, bw: u32) -> Seq<Action> {
        seq![
            Action::ConfigureWid {
                wid: self.frame,
                x: r.x,
                y: r.y,
                w: r.w,
                h: r.h,
                border_width: bw,
            },
            Action::ConfigureWid {
                wid: self.inner,
                x: 0,
                y: self.strip_spec() as i32,
                w: r.w,
                h: self.inner_height_spec(r.h),
                border_width: 0,
            },
        ]
    }

    /// Apply a geometry to the frame, with the border width the caller
    /// (usually a layout pass) chose, and derive the client window's
    /// sub-rectangle: the full frame minus the decoration strip.
    pub fn configure(&self, r: Rect, bw: u32, acts: &mut Vec<Action>)
        ensures
            final(acts)@ == old(acts)@ + self.configure_acts(r, bw),
    {
        let strip: u32 = if self.frame_visible {
            FRAME_HEIGHT
        } else {
            0
        };
        let inner_h: u32 = if r.h > strip {
            r.h - strip
        } else {
            1
        };
        acts.push(Action::ConfigureWid {
            wid: self.frame,
            x: r.x,
            y: r.y,
            w: r.w,
            h: r.h,
            border_width: bw,
        });
        acts.push(Action::ConfigureWid {
            wid: self.inner,
            x: 0,
            y: strip as i32,
            w: r.w,
            h: inner_h,
            border_width: 0,
        });
    }

    /// Move the frame without touching its size (pointer drag).
    pub fn move_to(&self, x: i32, y: i32, acts: &mut Vec<Action>)
        ensures
            final(acts)@ == old(acts)@ + seq![
                Action::MoveWid { wid: self.frame, x, y },
            ],
    {
        acts.push(Action::MoveWid { wid: self.frame, x, y });
    }

    pub open spec fn resize_acts(self, w: u32, h: u32) -> Seq<Action> {
        seq![
            Action::ResizeWid { wid: self.frame, w, h },
            Action::ResizeWid { wid: self.inner, w, h: self.inner_height_spec(h) },
        ]
    }

    /// Resize the frame without touching its position (pointer drag),
    /// re-deriving the client window's height.
    pub fn resize(&self, w: u32, h: u32, acts: &mut Vec<Action>)
        ensures
            final(acts)@ == old(acts)@ + self.resize_acts(w, h),
    {
        let strip: u32 = if self.frame_visible {
            FRAME_HEIGHT
        } else {
            0
        };
        let inner_h: u32 = if h > strip {
            h - strip
        } else {
            1
        };
        acts.push(Action::ResizeWid { wid: self.frame, w, h });
        acts.push(Action::ResizeWid { wid: self.inner, w, h: inner_h });
    }

    /// Swallow one self-issued unmap notification, or record a
    /// client-initiated unmap.  Returns whether the lifecycle state
    /// changed (the caller refreshes layouts in that case).
    pub fn handle_unmap_notify(&mut self) -> (changed: bool)
        ensures
            *final(self) == if old(self).ignore_unmaps > 0 {
                (Window { ignore_unmaps: (old(self).ignore_unmaps - 1) as u32, ..*old(self) })
            } else {
                (Window { state: WindowState::Unmapped, ..*old(self) })
            },
            changed == (old(self).ignore_unmaps == 0),
    {
        if self.ignore_unmaps > 0 {
            self.ignore_unmaps = self.ignore_unmaps - 1;
            false
        } else {
            self.state = WindowState::Unmapped;
            true
        }
    }

    pub open spec fn release_acts(self) -> Seq<Action> {
        seq![Action::ReparentToRoot(self.inner), Action::DestroyWid(self.frame)]
    }

    /// Tear the frame down: reparent the client window back to the root
    /// and destroy the frame.  Issued whenever a window leaves the
    /// manager for good, even on error paths.
    pub fn release(self, acts: &mut Vec<Action>)
        ensures
            final(acts)@ == old(acts)@ + self.release_acts(),
    {
        acts.push(Action::ReparentToRoot(self.inner));
        acts.push(Action::DestroyWid(self.frame));
    }

    pub open spec fn close_acts(self) -> Seq<Action> {
        (if self.wm_delete {
            seq![Action::SendDelete(self.inner)]
        } else {
            seq![Action::DestroyWid(self.inner)]
        }) + self.release_acts()
    }

    /// Close the client: politely if it advertised support for the
    /// delete protocol, by force otherwise; then tear the frame down.
    pub fn close(self, acts: &mut Vec<Action>)
        ensures
            final(acts)@ == old(acts)@ + self.close_acts(),
    {
        if self.wm_delete {
            acts.push(Action::SendDelete(self.inner));
        } else {
            acts.push(Action::DestroyWid(self.inner));
        }
        self.release(acts);
    }
}

/// Mapping is idempotent: calling `map` twice in a row produces the
/// same state as calling it once, and the second call issues no
/// protocol request at all — the state check suppresses the redundant
/// map.
pub proof fn lemma_map_idempotent(w: Window)
    ensures
        w.after_map().after_map() == w.after_map(),
        w.after_map().map_acts() == Seq::<Action>::empty(),
{
}

/// Floating round-trip: float, sink, then float again with the same
/// rectangle restores exactly the window state of the first float — in
/// particular the stored floating rectangle, which is what the layout
/// pass draws, is persisted rather than recomputed from frame state.
pub proof fn lemma_float_sink_float_roundtrip(w: Window, r: Rect)
    ensures
        w.after_float(r).after_sink().after_float(r) == w.after_float(r),
        w.after_float(r).after_sink().after_float(r).float_geometry == Some(r),
{
}

} // verus!
