//! The coordinator: all virtual screens, the monitor topology, the
//! input focus, and an in-progress pointer drag.
//!
//! Every entry point is a pure decision function: it mutates the model
//! and appends the protocol requests it wants performed.  The focus
//! invariant — some window always holds the input focus, and exactly
//! one screen answers to it — is part of well-formedness and is
//! preserved by every operation.

use vstd::prelude::*;

use crate::action::{Action, Wid};
use crate::config::{Command, MOD_ALT};
use crate::error::WmError;
use crate::geometry::{Monitor, Rect};
use crate::layout::LayoutCmd;
use crate::screen::{
    concealed_all, conceal_all_acts, focus_any_fn, owns_win, shown_all, show_all_acts, the_win_idx,
    Screen,
};
use crate::window::Window;

verus! {

/// Wire masks of the pointer buttons in a motion event's state field.
pub const BUTTON1_MASK: u16 = 0x100;

pub const BUTTON3_MASK: u16 = 0x400;

/// One in-progress pointer-driven float move or resize.
#[derive(Clone, Copy, Debug)]
pub struct MouseDrag {
    /// The frame being dragged.
    pub frame: Wid,
    /// Pointer position when the drag began.
    pub start_x: i32,
    pub start_y: i32,
    /// The frame's geometry when the drag began.
    pub start: Rect,
    /// The geometry last applied during this drag.
    pub cur: Rect,
}

/// No protocol id is answered to by both screens.
pub open spec fn screens_disjoint(a: Screen, b: Screen) -> bool {
    forall|w: Wid|
        #![trigger a.contains_spec(w), b.contains_spec(w)]
        !(a.contains_spec(w) && b.contains_spec(w))
}

/// Requests of one refresh pass over every screen, in order.
pub open spec fn refresh_all_acts(ss: Seq<Screen>, f: Wid) -> Seq<Action>
    decreases ss.len(),
{
    if ss.len() == 0 {
        Seq::<Action>::empty()
    } else {
        refresh_all_acts(ss.drop_last(), f) + ss.last().refresh_acts_spec(Some(f))
    }
}

/// Requests of a pass that detaches every screen, in order.
pub open spec fn detach_all_acts(ss: Seq<Screen>) -> Seq<Action>
    decreases ss.len(),
{
    if ss.len() == 0 {
        Seq::<Action>::empty()
    } else {
        detach_all_acts(ss.drop_last()) + crate::screen::screen_detach_acts(ss.last())
    }
}

/// Requests of the pass that attaches monitor `k` to (freshly
/// detached) screen `k`, for every discovered monitor.
pub open spec fn attach_all_acts(ss_old: Seq<Screen>, ms: Seq<Monitor>) -> Seq<Action>
    decreases ms.len(),
{
    if ms.len() == 0 {
        Seq::<Action>::empty()
    } else {
        let k = ms.len() - 1;
        attach_all_acts(ss_old, ms.drop_last()) + crate::screen::screen_attach_acts(
            crate::screen::post_detach_ws(ss_old[k]),
            crate::screen::post_detach_bg(ss_old[k]),
            ss_old[k].id,
            ms[k],
        )
    }
}

#[verifier::ext_equal]
pub struct WinMan {
    /// The fixed pool of virtual screens, indexed by id.
    pub screens: Vec<Screen>,
    /// How many monitors the last topology pass discovered.
    pub monitor_count: usize,
    /// The window currently holding the input focus.
    pub focus: Wid,
    /// The in-progress pointer drag, if any.
    pub drag: Option<MouseDrag>,
}

impl WinMan {
    /// Is monitor `m` attached to some screen?
    pub open spec fn has_monitor(self, m: int) -> bool {
        exists|i: int|
            0 <= i < self.screens@.len() && (#[trigger] self.screens@[i]).monitor is Some
                && self.screens@[i].monitor.unwrap().id == m
    }

    /// Monitors are attached to at most one screen each, carry ids
    /// below the discovered count, and every discovered monitor is
    /// attached somewhere.
    pub open spec fn mon_wf(self) -> bool {
        &&& forall|i: int|
            0 <= i < self.screens@.len() && (#[trigger] self.screens@[i]).monitor is Some
                ==> self.screens@[i].monitor.unwrap().id < self.monitor_count
        &&& forall|i: int, j: int|
            0 <= i < j < self.screens@.len() && self.screens@[i].monitor is Some
                && self.screens@[j].monitor is Some ==> (#[trigger] self.screens@[i]).monitor.unwrap().id
                != (#[trigger] self.screens@[j]).monitor.unwrap().id
        &&& forall|m: int| 0 <= m < self.monitor_count ==> #[trigger] self.has_monitor(m)
    }

    /// Bounds an in-progress drag's stored geometry, so the motion
    /// arithmetic stays in range.
    pub open spec fn drag_wf(self) -> bool {
        match self.drag {
            Some(d) => d.start.wf() && d.cur.wf() && -0x8000 <= d.start_x <= 0x7fff && -0x8000
                <= d.start_y <= 0x7fff,
            None => true,
        }
    }

    pub open spec fn wf(self) -> bool {
        &&& self.screens@.len() >= 1
        &&& forall|i: int| 0 <= i < self.screens@.len() ==> (#[trigger] self.screens@[i]).wf()
        &&& forall|i: int| 0 <= i < self.screens@.len() ==> (#[trigger] self.screens@[i]).id == i
        &&& forall|i: int, j: int|
            0 <= i < j < self.screens@.len() ==> screens_disjoint(
                self.screens@[i],
                self.screens@[j],
            )
        &&& exists|i: int|
            0 <= i < self.screens@.len() && (#[trigger] self.screens@[i]).contains_spec(self.focus)
        &&& self.mon_wf()
        &&& self.drag_wf()
    }

    /// The unique screen answering to a given id, when one exists.
    pub open spec fn owner_of(self, wid: Wid) -> int {
        choose|i: int| 0 <= i < self.screens@.len() && (#[trigger] self.screens@[i]).contains_spec(wid)
    }

    pub open spec fn some_owner_of(self, wid: Wid) -> bool {
        exists|i: int| 0 <= i < self.screens@.len() && (#[trigger] self.screens@[i]).contains_spec(wid)
    }

    /// The focus invariant: after any operation some window — possibly
    /// a background — holds the input focus, and exactly one screen
    /// answers to it.
    pub proof fn lemma_focus_invariant(self)
        requires
            self.wf(),
        ensures
            exists|i: int|
                0 <= i < self.screens@.len() && (#[trigger] self.screens@[i]).contains_spec(
                    self.focus,
                ) && forall|j: int|
                    0 <= j < self.screens@.len() && j != i ==> !(
                    #[trigger] self.screens@[j]).contains_spec(self.focus),
    {
        let i = choose|i: int|
            0 <= i < self.screens@.len() && (#[trigger] self.screens@[i]).contains_spec(self.focus);
        assert forall|j: int|
            0 <= j < self.screens@.len() && j != i implies !(
        #[trigger] self.screens@[j]).contains_spec(self.focus) by {
            if self.screens@[j].contains_spec(self.focus) {
                if j < i {
                    assert(screens_disjoint(self.screens@[j], self.screens@[i]));
                } else {
                    assert(screens_disjoint(self.screens@[i], self.screens@[j]));
                }
            }
        };
        assert(0 <= i < self.screens@.len() && self.screens@[i].contains_spec(self.focus));
    }

    /// A fresh coordinator over a pool of parked screens; the first
    /// screen's background takes the focus.
    pub fn new(screens: Vec<Screen>, acts: &mut Vec<Action>) -> (r: WinMan)
        requires
            screens@.len() >= 1,
            forall|i: int| 0 <= i < screens@.len() ==> (#[trigger] screens@[i]).wf(),
            forall|i: int| 0 <= i < screens@.len() ==> (#[trigger] screens@[i]).id == i,
            forall|i: int, j: int|
                0 <= i < j < screens@.len() ==> screens_disjoint(screens@[i], screens@[j]),
            forall|i: int| 0 <= i < screens@.len() ==> (#[trigger] screens@[i]).monitor is None,
        ensures
            r.screens@ == screens@,
            r.monitor_count == 0,
            r.drag is None,
            r.focus == screens@[0].focus_any_target(),
            final(acts)@ == old(acts)@ + seq![Action::SetFocus(r.focus)],
            r.wf(),
    {
        let f: Wid = screens[0].focus_any(acts);
        let r = WinMan { screens, monitor_count: 0, focus: f, drag: None };
        proof {
            let ws0 = r.screens@[0].windows@;
            crate::screen::lemma_first_mapped(ws0);
            match crate::screen::first_mapped(ws0) {
                Some(i) => {
                    assert(ws0[i].contains_spec(ws0[i].inner));
                    assert(owns_win(ws0, f));
                },
                None => {},
            }
            assert(r.screens@[0].contains_spec(f));
        }
        r
    }

    /// The screen holding the focused window; total, because the focus
    /// invariant guarantees an owner.
    pub fn focused_screen_idx(&self) -> (r: usize)
        requires
            self.wf(),
        ensures
            r < self.screens@.len(),
            self.screens@[r as int].contains_spec(self.focus),
    {
        let n: usize = self.screens.len();
        let mut i: usize = 0;
        while i < n
            invariant
                i <= n,
                n == self.screens@.len(),
                self.wf(),
                forall|j: int| 0 <= j < i ==> !(#[trigger] self.screens@[j]).contains_spec(self.focus),
            decreases n - i,
        {
            if self.screens[i].contains(self.focus) {
                return i;
            }
            i = i + 1;
        }
        proof {
            assert(false);
        }
        0
    }

    /// The screen answering to a given id, if any.
    pub fn container_of(&self, wid: Wid) -> (r: Option<usize>)
        ensures
            match r {
                Some(i) => i < self.screens@.len() && self.screens@[i as int].contains_spec(wid),
                None => forall|j: int|
                    0 <= j < self.screens@.len() ==> !(#[trigger] self.screens@[j]).contains_spec(
                        wid,
                    ),
            },
    {
        let n: usize = self.screens.len();
        let mut i: usize = 0;
        while i < n
            invariant
                i <= n,
                n == self.screens@.len(),
                forall|j: int| 0 <= j < i ==> !(#[trigger] self.screens@[j]).contains_spec(wid),
            decreases n - i,
        {
            if self.screens[i].contains(wid) {
                return Some(i);
            }
            i = i + 1;
        }
        None
    }

    /// Is this id one of the windows (or backgrounds) under management?
    pub fn known_window(&self, wid: Wid) -> (r: bool)
        ensures
            r == self.some_owner_of(wid),
    {
        self.container_of(wid).is_some()
    }

    /// Any rewrite of the screens that keeps every screen's ids,
    /// identity and monitor in place keeps the coordinator well-formed.
    pub proof fn lemma_wf_transfer(self, o: WinMan)
        requires
            self.wf(),
            o.screens@.len() == self.screens@.len(),
            o.monitor_count == self.monitor_count,
            o.focus == self.focus || exists|i: int|
                0 <= i < o.screens@.len() && (#[trigger] o.screens@[i]).contains_spec(o.focus),
            forall|i: int| 0 <= i < o.screens@.len() ==> (#[trigger] o.screens@[i]).wf(),
            forall|i: int|
                0 <= i < o.screens@.len() ==> (#[trigger] o.screens@[i]).id
                    == self.screens@[i].id,
            forall|i: int|
                0 <= i < o.screens@.len() ==> (#[trigger] o.screens@[i]).monitor
                    == self.screens@[i].monitor,
            forall|i: int, w: Wid|
                0 <= i < o.screens@.len() ==> (#[trigger] o.screens@[i].contains_spec(w))
                    == self.screens@[i].contains_spec(w),
            o.drag_wf(),
        ensures
            o.wf(),
    {
        assert forall|i: int, j: int|
            0 <= i < j < o.screens@.len() implies screens_disjoint(
            o.screens@[i],
            o.screens@[j],
        ) by {
            assert(screens_disjoint(self.screens@[i], self.screens@[j]));
            assert forall|w: Wid|
                !(#[trigger] o.screens@[i].contains_spec(w) && #[trigger] o.screens@[
                j].contains_spec(w)) by {
                assert(o.screens@[i].contains_spec(w) == self.screens@[i].contains_spec(w));
                assert(o.screens@[j].contains_spec(w) == self.screens@[j].contains_spec(w));
            };
        };
        if o.focus == self.focus {
            let i0 = choose|i: int|
                0 <= i < self.screens@.len() && (#[trigger] self.screens@[i]).contains_spec(
                    self.focus,
                );
            assert(o.screens@[i0].contains_spec(o.focus));
        }
        assert forall|m: int| 0 <= m < o.monitor_count implies #[trigger] o.has_monitor(m) by {
            assert(self.has_monitor(m));
            let i = choose|i: int|
                0 <= i < self.screens@.len() && (#[trigger] self.screens@[i]).monitor is Some
                    && self.screens@[i].monitor.unwrap().id == m;
            assert(o.screens@[i].monitor is Some && o.screens@[i].monitor.unwrap().id == m);
        };
    }

    /// Re-run the active layout of every screen; issued whenever
    /// visibility or focus changed anywhere.
    pub fn refresh_all(&mut self, acts: &mut Vec<Action>)
        requires
            old(self).wf(),
        ensures
            final(self).monitor_count == old(self).monitor_count,
            final(self).focus == old(self).focus,
            final(self).drag == old(self).drag,
            final(self).screens@.len() == old(self).screens@.len(),
            forall|i: int|
                0 <= i < old(self).screens@.len() ==> {
                    &&& (#[trigger] final(self).screens@[i]).same_shape(old(self).screens@[i])
                    &&& final(self).screens@[i].monitor == old(self).screens@[i].monitor
                    &&& final(self).screens@[i].background == old(self).screens@[i].background
                    &&& final(self).screens@[i].windows@ == old(self).screens@[i].refresh_windows_spec(
                        Some(old(self).focus),
                    )
                },
            final(acts)@ == old(acts)@ + refresh_all_acts(old(self).screens@, old(self).focus),
            final(self).wf(),
    {
        let f: Wid = self.focus;
        let ghost ss = self.screens@;
        let n: usize = self.screens.len();
        let ghost base = acts@;
        let mut i: usize = 0;
        while i < n
            invariant
                i <= n,
                n == ss.len(),
                self.screens@.len() == n,
                self.monitor_count == old(self).monitor_count,
                self.focus == f,
                f == old(self).focus,
                self.drag == old(self).drag,
                forall|j: int| 0 <= j < n ==> (#[trigger] ss[j]).wf(),
                forall|j: int|
                    0 <= j < i ==> {
                        &&& (#[trigger] self.screens@[j]).same_shape(ss[j])
                        &&& self.screens@[j].monitor == ss[j].monitor
                        &&& self.screens@[j].background == ss[j].background
                        &&& self.screens@[j].windows@ == ss[j].refresh_windows_spec(Some(f))
                        &&& self.screens@[j].wf()
                    },
                forall|j: int| i <= j < n ==> self.screens@[j] == ss[j],
                acts@ == base + refresh_all_acts(ss.take(i as int), f),
            decreases n - i,
        {
            let s = &mut self.screens[i];
            s.refresh_layout(Some(f), acts);
            proof {
                assert(ss.take(i as int + 1).drop_last() =~= ss.take(i as int));
                assert(ss.take(i as int + 1).last() == ss[i as int]);
                assert(acts@ =~= base + refresh_all_acts(ss.take(i as int + 1), f));
            }
            i = i + 1;
        }
        proof {
            assert(ss.take(n as int) =~= ss);
            assert forall|j: int, w: Wid|
                0 <= j < n implies (#[trigger] self.screens@[j].contains_spec(w)) == ss[
            j].contains_spec(w) by {
                crate::screen::lemma_hl_ids(ss[j].windows@, Some(f));
                if ss[j].monitor is Some {
                    crate::screen::lemma_ids_owns_eq(ss[j].windows@, self.screens@[j].windows@);
                }
            };
            old(self).lemma_wf_transfer(*self);
        }
    }

    /// Re-run monitor discovery: detach every screen, then attach the
    /// discovered monitors to the screens of the same index.  The
    /// caller must have grown the screen pool to cover every monitor.
    pub fn setup_monitors(&mut self, monitors: Vec<Monitor>, acts: &mut Vec<Action>)
        requires
            old(self).wf(),
            monitors@.len() <= old(self).screens@.len(),
            forall|k: int| 0 <= k < monitors@.len() ==> (#[trigger] monitors@[k]).wf(),
            forall|k: int| 0 <= k < monitors@.len() ==> (#[trigger] monitors@[k]).id == k,
        ensures
            final(self).monitor_count == monitors@.len(),
            final(self).focus == old(self).focus,
            final(self).drag == old(self).drag,
            final(self).screens@.len() == old(self).screens@.len(),
            forall|k: int|
                0 <= k < old(self).screens@.len() ==> {
                    &&& (#[trigger] final(self).screens@[k]).same_shape(old(self).screens@[k])
                    &&& final(self).screens@[k].monitor == (if k < monitors@.len() {
                        Some(monitors@[k])
                    } else {
                        None::<Monitor>
                    })
                    &&& final(self).screens@[k].background == (if k < monitors@.len() {
                        crate::screen::post_detach_bg(old(self).screens@[k]).after_map()
                    } else {
                        crate::screen::post_detach_bg(old(self).screens@[k])
                    })
                    &&& final(self).screens@[k].windows@ == (if k < monitors@.len() {
                        shown_all(crate::screen::post_detach_ws(old(self).screens@[k]))
                    } else {
                        crate::screen::post_detach_ws(old(self).screens@[k])
                    })
                },
            final(acts)@ == old(acts)@ + detach_all_acts(old(self).screens@) + attach_all_acts(
                old(self).screens@,
                monitors@,
            ),
            final(self).wf(),
    {
        let ghost ss = old(self).screens@;
        let n: usize = self.screens.len();
        let ghost base = acts@;
        let mut i: usize = 0;
        while i < n
            invariant
                i <= n,
                n == ss.len(),
                self.screens@.len() == n,
                self.monitor_count == old(self).monitor_count,
                self.focus == old(self).focus,
                self.drag == old(self).drag,
                forall|j: int| 0 <= j < n ==> (#[trigger] ss[j]).wf(),
                forall|j: int|
                    0 <= j < i ==> {
                        &&& (#[trigger] self.screens@[j]).same_shape(ss[j])
                        &&& self.screens@[j].monitor is None
                        &&& self.screens@[j].background == crate::screen::post_detach_bg(ss[j])
                        &&& self.screens@[j].windows@ == crate::screen::post_detach_ws(ss[j])
                        &&& self.screens@[j].wf()
                    },
                forall|j: int| i <= j < n ==> self.screens@[j] == ss[j],
                acts@ == base + detach_all_acts(ss.take(i as int)),
            decreases n - i,
        {
            let s = &mut self.screens[i];
            let _ = s.detach(acts);
            proof {
                assert(ss.take(i as int + 1).drop_last() =~= ss.take(i as int));
                assert(ss.take(i as int + 1).last() == ss[i as int]);
                assert(acts@ =~= base + detach_all_acts(ss.take(i as int + 1)));
            }
            i = i + 1;
        }
        proof {
            assert(ss.take(n as int) =~= ss);
        }
        let ghost base2 = acts@;
        let ghost mid = self.screens@;
        let mn: usize = monitors.len();
        let mut k: usize = 0;
        while k < mn
            invariant
                k <= mn,
                mn == monitors@.len(),
                mn <= n,
                n == ss.len(),
                self.screens@.len() == n,
                self.monitor_count == old(self).monitor_count,
                self.focus == old(self).focus,
                self.drag == old(self).drag,
                forall|j: int| 0 <= j < mn ==> (#[trigger] monitors@[j]).wf(),
                forall|j: int|
                    0 <= j < n ==> (#[trigger] mid[j]).same_shape(ss[j]) && mid[j].monitor is None
                        && mid[j].background == crate::screen::post_detach_bg(ss[j])
                        && mid[j].windows@ == crate::screen::post_detach_ws(ss[j]) && mid[j].wf(),
                forall|j: int|
                    0 <= j < k ==> {
                        &&& (#[trigger] self.screens@[j]).same_shape(ss[j])
                        &&& self.screens@[j].monitor == Some(monitors@[j])
                        &&& self.screens@[j].background == crate::screen::post_detach_bg(
                            ss[j],
                        ).after_map()
                        &&& self.screens@[j].windows@ == shown_all(
                            crate::screen::post_detach_ws(ss[j]),
                        )
                        &&& self.screens@[j].wf()
                    },
                forall|j: int| k <= j < n ==> self.screens@[j] == mid[j],
                acts@ == base2 + attach_all_acts(ss, monitors@.take(k as int)),
            decreases mn - k,
        {
            let m: Monitor = monitors[k];
            proof {
                assert(self.screens@[k as int] == mid[k as int]);
                assert(mid[k as int].wf());
                assert(mid[k as int].monitor is None);
                assert(monitors@[k as int].wf());
            }
            let s = &mut self.screens[k];
            s.attach(m, acts);
            proof {
                assert(monitors@.take(k as int + 1).drop_last() =~= monitors@.take(k as int));
                assert(monitors@.take(k as int + 1).last() == monitors@[k as int]);
                assert(acts@ =~= base2 + attach_all_acts(ss, monitors@.take(k as int + 1)));
            }
            k = k + 1;
        }
        self.monitor_count = mn;
        proof {
            assert(monitors@.take(mn as int) =~= monitors@);
            assert forall|k2: int|
                0 <= k2 < n implies {
                &&& (#[trigger] self.screens@[k2]).same_shape(ss[k2])
                &&& self.screens@[k2].monitor == (if k2 < mn as int {
                    Some(monitors@[k2])
                } else {
                    None::<Monitor>
                })
                &&& self.screens@[k2].background == (if k2 < mn as int {
                    crate::screen::post_detach_bg(ss[k2]).after_map()
                } else {
                    crate::screen::post_detach_bg(ss[k2])
                })
                &&& self.screens@[k2].windows@ == (if k2 < mn as int {
                    shown_all(crate::screen::post_detach_ws(ss[k2]))
                } else {
                    crate::screen::post_detach_ws(ss[k2])
                })
                &&& self.screens@[k2].wf()
            } by {
                if k2 >= mn as int {
                    assert(self.screens@[k2] == mid[k2]);
                }
            };
            assert forall|j: int, w: Wid|
                0 <= j < n implies (#[trigger] self.screens@[j].contains_spec(w)) == ss[
            j].contains_spec(w) by {
                let a = ss[j].windows@;
                let b = self.screens@[j].windows@;
                let pd = crate::screen::post_detach_ws(ss[j]);
                crate::screen::lemma_park_ids(a);
                crate::screen::lemma_park_ids(pd);
                assert(b.len() == a.len());
                assert forall|i2: int|
                    0 <= i2 < b.len() implies (#[trigger] b[i2]).frame == a[i2].frame && b[i2].inner
                    == a[i2].inner by {
                    if j < mn as int {
                        assert(b[i2] == shown_all(pd)[i2]);
                        assert(shown_all(pd)[i2].frame == pd[i2].frame && shown_all(pd)[i2].inner
                            == pd[i2].inner);
                    } else {
                        assert(b[i2] == pd[i2]);
                    }
                    if ss[j].monitor is Some {
                        assert(pd[i2].frame == concealed_all(a)[i2].frame && pd[i2].inner
                            == concealed_all(a)[i2].inner);
                    }
                };
                crate::screen::lemma_ids_owns_eq(a, b);
                assert(owns_win(b, w) == owns_win(a, w));
                assert(self.screens@[j].background.inner == ss[j].background.inner
                    && self.screens@[j].background.frame == ss[j].background.frame);
            };
            assert forall|i2: int, j2: int|
                0 <= i2 < j2 < n implies screens_disjoint(
                self.screens@[i2],
                self.screens@[j2],
            ) by {
                assert(screens_disjoint(ss[i2], ss[j2]));
                assert forall|w: Wid|
                    !(#[trigger] self.screens@[i2].contains_spec(w) && #[trigger] self.screens@[
                    j2].contains_spec(w)) by {
                    assert(self.screens@[i2].contains_spec(w) == ss[i2].contains_spec(w));
                    assert(self.screens@[j2].contains_spec(w) == ss[j2].contains_spec(w));
                };
            };
            let i0 = choose|i: int|
                0 <= i < ss.len() && (#[trigger] ss[i]).contains_spec(old(self).focus);
            assert(self.screens@[i0].contains_spec(self.focus));
            assert forall|m: int| 0 <= m < self.monitor_count implies #[trigger] self.has_monitor(
                m,
            ) by {
                assert(self.screens@[m].monitor == Some(monitors@[m]));
            };
        }
    }

    /// One screen changed, gaining at most the two fresh ids of an
    /// adopted window and losing nothing: the coordinator stays
    /// well-formed provided the focus rests on the changed screen or
    /// did not move.
    pub proof fn lemma_one_screen_changed_wf(
        self,
        o: WinMan,
        screen_idx: int,
        inner: Wid,
        frame: Wid,
    )
        requires
            self.wf(),
            o.screens@.len() == self.screens@.len(),
            o.monitor_count == self.monitor_count,
            0 <= screen_idx < self.screens@.len(),
            forall|j: int|
                0 <= j < o.screens@.len() && j != screen_idx ==> #[trigger] o.screens@[j]
                    == self.screens@[j],
            o.screens@[screen_idx].wf(),
            o.screens@[screen_idx].id == self.screens@[screen_idx].id,
            o.screens@[screen_idx].monitor == self.screens@[screen_idx].monitor,
            forall|w: Wid|
                #[trigger] o.screens@[screen_idx].contains_spec(w)
                    ==> self.screens@[screen_idx].contains_spec(w) || w == inner || w == frame,
            forall|w: Wid|
                #[trigger] self.screens@[screen_idx].contains_spec(w)
                    ==> o.screens@[screen_idx].contains_spec(w),
            forall|i: int|
                0 <= i < self.screens@.len() ==> !(#[trigger] self.screens@[i]).contains_spec(inner)
                    && !self.screens@[i].contains_spec(frame),
            o.screens@[screen_idx].contains_spec(o.focus) || o.focus == self.focus,
            o.drag_wf(),
        ensures
            o.wf(),
    {
        if o.focus == self.focus && !o.screens@[screen_idx].contains_spec(o.focus) {
            let i0 = choose|i: int|
                0 <= i < self.screens@.len() && (#[trigger] self.screens@[i]).contains_spec(
                    self.focus,
                );
            if i0 == screen_idx {
                assert(o.screens@[screen_idx].contains_spec(o.focus));
            } else {
                assert(o.screens@[i0].contains_spec(o.focus));
            }
        }
        assert forall|a: int, b: int|
            0 <= a < b < o.screens@.len() implies screens_disjoint(
            o.screens@[a],
            o.screens@[b],
        ) by {
            assert(screens_disjoint(self.screens@[a], self.screens@[b]));
            assert forall|w: Wid|
                !(#[trigger] o.screens@[a].contains_spec(w) && #[trigger] o.screens@[
            b].contains_spec(w)) by {
                if o.screens@[a].contains_spec(w) && o.screens@[b].contains_spec(w) {
                    if a == screen_idx {
                        assert(self.screens@[a].contains_spec(w) || w == inner || w == frame);
                        assert(!self.screens@[b].contains_spec(w));
                    } else if b == screen_idx {
                        assert(self.screens@[b].contains_spec(w) || w == inner || w == frame);
                        assert(!self.screens@[a].contains_spec(w));
                    }
                }
            };
        };
        assert forall|m: int| 0 <= m < o.monitor_count implies #[trigger] o.has_monitor(m) by {
            assert(self.has_monitor(m));
            let i = choose|i: int|
                0 <= i < self.screens@.len() && (#[trigger] self.screens@[i]).monitor is Some
                    && self.screens@[i].monitor.unwrap().id == m;
            assert(o.screens@[i].monitor == self.screens@[i].monitor);
        };
    }

    /// One screen lost ids (or kept them) and nothing else changed: the
    /// coordinator stays well-formed provided the focus is still owned
    /// somewhere.
    pub proof fn lemma_one_screen_shrunk_wf(self, o: WinMan, screen_idx: int)
        requires
            self.wf(),
            o.screens@.len() == self.screens@.len(),
            o.monitor_count == self.monitor_count,
            0 <= screen_idx < self.screens@.len(),
            forall|j: int|
                0 <= j < o.screens@.len() && j != screen_idx ==> #[trigger] o.screens@[j]
                    == self.screens@[j],
            o.screens@[screen_idx].wf(),
            o.screens@[screen_idx].id == self.screens@[screen_idx].id,
            o.screens@[screen_idx].monitor == self.screens@[screen_idx].monitor,
            forall|w: Wid|
                #[trigger] o.screens@[screen_idx].contains_spec(w)
                    ==> self.screens@[screen_idx].contains_spec(w),
            exists|i: int|
                0 <= i < o.screens@.len() && (#[trigger] o.screens@[i]).contains_spec(o.focus),
            o.drag_wf(),
        ensures
            o.wf(),
    {
        assert forall|a: int, b: int|
            0 <= a < b < o.screens@.len() implies screens_disjoint(
            o.screens@[a],
            o.screens@[b],
        ) by {
            assert(screens_disjoint(self.screens@[a], self.screens@[b]));
            assert forall|w: Wid|
                !(#[trigger] o.screens@[a].contains_spec(w) && #[trigger] o.screens@[
            b].contains_spec(w)) by {
                if o.screens@[a].contains_spec(w) && o.screens@[b].contains_spec(w) {
                    if a == screen_idx {
                        assert(self.screens@[a].contains_spec(w));
                    } else if b == screen_idx {
                        assert(self.screens@[b].contains_spec(w));
                    }
                }
            };
        };
        assert forall|m: int| 0 <= m < o.monitor_count implies #[trigger] o.has_monitor(m) by {
            assert(self.has_monitor(m));
            let i = choose|i: int|
                0 <= i < self.screens@.len() && (#[trigger] self.screens@[i]).monitor is Some
                    && self.screens@[i].monitor.unwrap().id == m;
            assert(o.screens@[i].monitor == self.screens@[i].monitor);
        };
    }

    /// A window became visible: re-run every layout.
    pub fn on_map_notify(&mut self, wid: Wid, acts: &mut Vec<Action>)
        requires
            old(self).wf(),
        ensures
            !old(self).some_owner_of(wid) ==> *final(self) == *old(self) && final(acts)@ == old(acts)@,
            old(self).some_owner_of(wid) ==> {
                &&& final(self).monitor_count == old(self).monitor_count
                &&& final(self).focus == old(self).focus
                &&& final(self).drag == old(self).drag
                &&& final(self).screens@.len() == old(self).screens@.len()
                &&& forall|i: int|
                    0 <= i < old(self).screens@.len() ==> {
                        &&& (#[trigger] final(self).screens@[i]).same_shape(old(self).screens@[i])
                        &&& final(self).screens@[i].monitor == old(self).screens@[i].monitor
                        &&& final(self).screens@[i].background == old(self).screens@[i].background
                        &&& final(self).screens@[i].windows@ == old(self).screens@[i].refresh_windows_spec(Some(old(self).focus))
                    }
                &&& final(acts)@ == old(acts)@ + refresh_all_acts(
                    old(self).screens@,
                    old(self).focus,
                )
            },
            final(self).wf(),
    {
        if self.known_window(wid) {
            self.refresh_all(acts);
        }
    }

    /// A window was unmapped: swallow the notification if this manager
    /// caused it itself, otherwise record the client-initiated unmap;
    /// then re-run every layout.
    pub fn on_unmap_notify(&mut self, wid: Wid, acts: &mut Vec<Action>)
        requires
            old(self).wf(),
        ensures
            final(self).monitor_count == old(self).monitor_count,
            final(self).focus == old(self).focus,
            final(self).drag == old(self).drag,
            final(self).screens@.len() == old(self).screens@.len(),
            final(self).wf(),
            !old(self).some_owner_of(wid) ==> *final(self) == *old(self) && final(acts)@ == old(acts)@,
            (old(self).some_owner_of(wid) && owns_win(
                old(self).screens@[old(self).owner_of(wid)].windows@,
                wid,
            )) ==> {
                let si = old(self).owner_of(wid);
                let sk = old(self).screens@[si];
                let ti = the_win_idx(sk.windows@, wid);
                let w2 = if sk.windows@[ti].ignore_unmaps > 0 {
                    (Window { ignore_unmaps: (sk.windows@[ti].ignore_unmaps - 1) as u32, ..sk.windows@[ti] })
                } else {
                    (Window { state: crate::window::WindowState::Unmapped, ..sk.windows@[ti] })
                };
                forall|i: int|
                    0 <= i < old(self).screens@.len() ==> {
                        &&& (#[trigger] final(self).screens@[i]).same_shape(old(self).screens@[i])
                        &&& final(self).screens@[i].monitor == old(self).screens@[i].monitor
                        &&& final(self).screens@[i].background == old(self).screens@[i].background
                        &&& final(self).screens@[i].windows@ == crate::screen::refresh_windows_fn(
                            if i == si {
                                sk.windows@.update(ti, w2)
                            } else {
                                old(self).screens@[i].windows@
                            },
                            old(self).screens@[i].monitor,
                            Some(old(self).focus),
                        )
                    }
            },
    {
        let si: usize = match self.container_of(wid) {
            Some(si) => si,
            None => {
                return ;
            },
        };
        let ghost sk = old(self).screens@[si as int];
        let wi: usize = match self.screens[si].window_index(wid) {
            Some(wi) => wi,
            None => {
                proof {
                    let oi = old(self).owner_of(wid);
                    assert(old(self).screens@[oi].contains_spec(wid));
                    if oi != si as int {
                        if oi < si as int {
                            assert(screens_disjoint(
                                old(self).screens@[oi],
                                old(self).screens@[si as int],
                            ));
                        } else {
                            assert(screens_disjoint(
                                old(self).screens@[si as int],
                                old(self).screens@[oi],
                            ));
                        }
                        assert(false);
                    }
                }
                return ;
            },
        };
        proof {
            assert(self.screens@[si as int].windows@[wi as int].contains_spec(wid));
            let ti = the_win_idx(sk.windows@, wid);
            assert(sk.windows@[ti].contains_spec(wid));
            if ti != wi as int {
                assert(crate::screen::wins_disjoint(sk.windows@[ti], sk.windows@[wi as int]));
                assert(false);
            }
            assert((si as int) < old(self).screens@.len());
            assert(old(self).screens@[si as int].contains_spec(wid));
            let oi = old(self).owner_of(wid);
            assert(old(self).screens@[oi].contains_spec(wid));
            if oi != si as int {
                if oi < si as int {
                    assert(screens_disjoint(old(self).screens@[oi], old(self).screens@[si as int]));
                } else {
                    assert(screens_disjoint(old(self).screens@[si as int], old(self).screens@[oi]));
                }
                assert(false);
            }
        }
        let s = &mut self.screens[si];
        let mut w: Window = s.windows[wi];
        let _changed: bool = w.handle_unmap_notify();
        s.windows.set(wi, w);
        proof {
            let b = self.screens@[si as int].windows@;
            let a = sk.windows@;
            assert(b == a.update(wi as int, w));
            assert forall|j: int| 0 <= j < b.len() implies (#[trigger] b[j]).wf() && b[j].frame
                == a[j].frame && b[j].inner == a[j].inner by {
                assert(a[j].wf());
                if j == wi as int {
                    assert(b[j] == w);
                } else {
                    assert(b[j] == a[j]);
                }
            };
            crate::screen::lemma_windows_wf_transfer(a, b, sk.background);
            crate::screen::lemma_ids_owns_eq(a, b);
            assert(self.screens@[si as int].wf());
            let i0 = choose|i: int|
                0 <= i < old(self).screens@.len() && (#[trigger] old(self).screens@[i]).contains_spec(old(self).focus);
            assert(self.screens@[i0].contains_spec(self.focus)) by {
                if i0 == si as int {
                    assert(owns_win(b, old(self).focus) == owns_win(a, old(self).focus));
                }
            };
            old(self).lemma_one_screen_shrunk_wf(*self, si as int);
        }
        self.refresh_all(acts);
    }

    /// How the focus moves when the window holding `wid` leaves screen
    /// `si` (by destruction, close or migration).
    pub open spec fn after_forget_focus(self, si: int, wid: Wid) -> Wid {
        match self.screens@[si].forget_nf(wid, Some(self.focus)) {
            Some(x) => x,
            None => self.focus,
        }
    }

    /// A client window was destroyed by its owner: move the focus off
    /// it, forget it, tear its frame down, and re-run every layout.
    /// The requests emitted are those of `Screen::forget_window`, then
    /// `Window::release`, then one refresh of every screen.
    pub fn on_destroy_notify(&mut self, wid: Wid, acts: &mut Vec<Action>)
        requires
            old(self).wf(),
        ensures
            final(self).monitor_count == old(self).monitor_count,
            final(self).drag == old(self).drag,
            final(self).screens@.len() == old(self).screens@.len(),
            final(self).wf(),
            !old(self).some_owner_of(wid) ==> *final(self) == *old(self) && final(acts)@ == old(acts)@,
            (old(self).some_owner_of(wid) && !owns_win(
                old(self).screens@[old(self).owner_of(wid)].windows@,
                wid,
            )) ==> *final(self) == *old(self) && final(acts)@ == old(acts)@,
            (old(self).some_owner_of(wid) && owns_win(
                old(self).screens@[old(self).owner_of(wid)].windows@,
                wid,
            )) ==> {
                let si = old(self).owner_of(wid);
                let sk = old(self).screens@[si];
                let ti = the_win_idx(sk.windows@, wid);
                let fnew = old(self).after_forget_focus(si, wid);
                &&& final(self).focus == fnew
                &&& forall|i: int|
                    0 <= i < old(self).screens@.len() ==> {
                        &&& (#[trigger] final(self).screens@[i]).same_shape(old(self).screens@[i])
                        &&& final(self).screens@[i].monitor == old(self).screens@[i].monitor
                        &&& final(self).screens@[i].background == old(self).screens@[i].background
                        &&& final(self).screens@[i].windows@ == crate::screen::refresh_windows_fn(
                            if i == si {
                                crate::screen::refresh_windows_fn(
                                    sk.windows@.remove(ti),
                                    sk.monitor,
                                    sk.forget_eff(wid, Some(old(self).focus)),
                                )
                            } else {
                                old(self).screens@[i].windows@
                            },
                            old(self).screens@[i].monitor,
                            Some(fnew),
                        )
                    }
            },
    {
        let si: usize = match self.container_of(wid) {
            Some(si) => si,
            None => {
                return ;
            },
        };
        proof {
            let oi = old(self).owner_of(wid);
            assert(old(self).screens@[oi].contains_spec(wid));
            if oi != si as int {
                if oi < si as int {
                    assert(screens_disjoint(old(self).screens@[oi], old(self).screens@[si as int]));
                } else {
                    assert(screens_disjoint(old(self).screens@[si as int], old(self).screens@[oi]));
                }
                assert(false);
            }
        }
        if self.screens[si].background.contains(wid) {
            proof {
                let sk = old(self).screens@[si as int];
                if owns_win(sk.windows@, wid) {
                    let i = choose|i: int|
                        0 <= i < sk.windows@.len() && #[trigger] sk.windows@[i].contains_spec(wid);
                    assert(crate::screen::wins_disjoint(sk.windows@[i], sk.background));
                    assert(false);
                }
            }
            return ;
        }
        let f: Wid = self.focus;
        let s = &mut self.screens[si];
        let (win, nf) = s.forget_window(wid, Some(f), acts);
        if let Some(x) = nf {
            self.focus = x;
        }
        win.release(acts);
        proof {
            self.lemma_post_forget_wf(*old(self), si as int, wid);
        }
        self.refresh_all(acts);
    }

    /// After `forget_window` ran on screen `si` and the focus was
    /// updated from its result, the coordinator is well-formed again.
    proof fn lemma_post_forget_wf(self, pre: WinMan, si: int, wid: Wid)
        requires
            pre.wf(),
            0 <= si < pre.screens@.len(),
            owns_win(pre.screens@[si].windows@, wid),
            self.screens@.len() == pre.screens@.len(),
            self.monitor_count == pre.monitor_count,
            forall|j: int|
                0 <= j < self.screens@.len() && j != si ==> #[trigger] self.screens@[j]
                    == pre.screens@[j],
            self.screens@[si].wf(),
            self.screens@[si].same_shape(pre.screens@[si]),
            self.screens@[si].monitor == pre.screens@[si].monitor,
            self.screens@[si].background == pre.screens@[si].background,
            self.screens@[si].windows@ == crate::screen::refresh_windows_fn(
                pre.screens@[si].windows@.remove(the_win_idx(pre.screens@[si].windows@, wid)),
                pre.screens@[si].monitor,
                pre.screens@[si].forget_eff(wid, Some(pre.focus)),
            ),
            self.focus == pre.after_forget_focus(si, wid),
            self.drag_wf(),
        ensures
            self.wf(),
    {
        let sk = pre.screens@[si];
        let ti = the_win_idx(sk.windows@, wid);
        assert(sk.windows@[ti].contains_spec(wid));
        let rem = sk.windows@.remove(ti);
        let eff = sk.forget_eff(wid, Some(pre.focus));
        crate::screen::lemma_hl_ids(rem, eff);
        if sk.monitor is Some {
            crate::screen::lemma_ids_owns_eq(rem, self.screens@[si].windows@);
        }
        assert forall|a: int| 0 <= a < rem.len() implies #[trigger] rem[a] == (if a < ti {
            sk.windows@[a]
        } else {
            sk.windows@[a + 1]
        }) by {};
        assert forall|x: Wid|
            #[trigger] self.screens@[si].contains_spec(x) implies sk.contains_spec(x) by {
            if owns_win(self.screens@[si].windows@, x) {
                assert(owns_win(rem, x));
                let i = choose|i: int| 0 <= i < rem.len() && #[trigger] rem[i].contains_spec(x);
                if i < ti {
                    assert(sk.windows@[i].contains_spec(x));
                } else {
                    assert(sk.windows@[i + 1].contains_spec(x));
                }
            }
        };
        match sk.forget_nf(wid, Some(pre.focus)) {
            Some(x) => {
                sk.lemma_forget_nf_contained(wid, Some(pre.focus));
                assert(owns_win(rem, x) || sk.background.contains_spec(x));
                assert(self.screens@[si].contains_spec(x)) by {
                    if owns_win(rem, x) {
                        assert(owns_win(self.screens@[si].windows@, x));
                    }
                };
                assert(self.screens@[si].contains_spec(self.focus));
            },
            None => {
                assert(!sk.contains_spec(pre.focus));
                let i0 = choose|i: int|
                    0 <= i < pre.screens@.len() && (#[trigger] pre.screens@[i]).contains_spec(
                        pre.focus,
                    );
                assert(i0 != si);
                assert(self.screens@[i0].contains_spec(self.focus));
            },
        }
        pre.lemma_one_screen_shrunk_wf(self, si);
    }

    /// The root window reported a focus reset: fall back to the screen
    /// showing the first monitor, if any monitor is attached.
    pub fn focus_fallback(&mut self, acts: &mut Vec<Action>)
        requires
            old(self).wf(),
        ensures
            final(self).screens@ == old(self).screens@,
            final(self).monitor_count == old(self).monitor_count,
            final(self).drag == old(self).drag,
            final(self).wf(),
            old(self).monitor_count == 0 ==> *final(self) == *old(self) && final(acts)@ == old(acts)@,
            old(self).monitor_count > 0 ==> exists|i: int|
                {
                    &&& 0 <= i < old(self).screens@.len()
                    &&& (#[trigger] old(self).screens@[i]).monitor is Some
                    &&& old(self).screens@[i].monitor.unwrap().id == 0
                    &&& final(self).focus == old(self).screens@[i].focus_any_target()
                    &&& final(acts)@ == old(acts)@ + seq![Action::SetFocus(final(self).focus)]
                },
    {
        if self.monitor_count == 0 {
            return ;
        }
        let si: usize = self.screen_idx_by_monitor(0);
        let f: Wid = self.screens[si].focus_any(acts);
        self.focus = f;
        proof {
            crate::screen::lemma_focus_any_contained(
                self.screens@[si as int].windows@,
                self.screens@[si as int].background,
            );
            assert(self.screens@[si as int].contains_spec(f));
            assert(self.screens@[si as int].contains_spec(self.focus));
            old(self).lemma_wf_transfer(*self);
        }
    }

    /// The monitor topology changed: re-run discovery, focus the first
    /// screen's choice, and re-run every layout.
    pub fn monitors_changed(&mut self, monitors: Vec<Monitor>, acts: &mut Vec<Action>)
        requires
            old(self).wf(),
            monitors@.len() <= old(self).screens@.len(),
            forall|k: int| 0 <= k < monitors@.len() ==> (#[trigger] monitors@[k]).wf(),
            forall|k: int| 0 <= k < monitors@.len() ==> (#[trigger] monitors@[k]).id == k,
        ensures
            final(self).monitor_count == monitors@.len(),
            final(self).drag == old(self).drag,
            final(self).screens@.len() == old(self).screens@.len(),
            final(self).wf(),
            final(self).focus == focus_any_fn(
                if 0 < monitors@.len() {
                    shown_all(crate::screen::post_detach_ws(old(self).screens@[0]))
                } else {
                    crate::screen::post_detach_ws(old(self).screens@[0])
                },
                if 0 < monitors@.len() {
                    crate::screen::post_detach_bg(old(self).screens@[0]).after_map()
                } else {
                    crate::screen::post_detach_bg(old(self).screens@[0])
                },
            ),
            forall|k: int|
                0 <= k < old(self).screens@.len() ==> {
                    &&& (#[trigger] final(self).screens@[k]).same_shape(old(self).screens@[k])
                    &&& final(self).screens@[k].monitor == (if k < monitors@.len() {
                        Some(monitors@[k])
                    } else {
                        None::<Monitor>
                    })
                    &&& final(self).screens@[k].background == (if k < monitors@.len() {
                        crate::screen::post_detach_bg(old(self).screens@[k]).after_map()
                    } else {
                        crate::screen::post_detach_bg(old(self).screens@[k])
                    })
                    &&& final(self).screens@[k].windows@ == crate::screen::refresh_windows_fn(
                        if k < monitors@.len() {
                            shown_all(crate::screen::post_detach_ws(old(self).screens@[k]))
                        } else {
                            crate::screen::post_detach_ws(old(self).screens@[k])
                        },
                        if k < monitors@.len() {
                            Some(monitors@[k])
                        } else {
                            None::<Monitor>
                        },
                        Some(final(self).focus),
                    )
                },
            exists|mid: Seq<Screen>|
                {
                    &&& mid.len() == old(self).screens@.len()
                    &&& (forall|k: int|
                        0 <= k < mid.len() ==> {
                            &&& (#[trigger] mid[k]).same_shape(old(self).screens@[k])
                            &&& mid[k].monitor == (if k < monitors@.len() {
                                Some(monitors@[k])
                            } else {
                                None::<Monitor>
                            })
                            &&& mid[k].background == (if k < monitors@.len() {
                                crate::screen::post_detach_bg(old(self).screens@[k]).after_map()
                            } else {
                                crate::screen::post_detach_bg(old(self).screens@[k])
                            })
                            &&& mid[k].windows@ == (if k < monitors@.len() {
                                shown_all(crate::screen::post_detach_ws(old(self).screens@[k]))
                            } else {
                                crate::screen::post_detach_ws(old(self).screens@[k])
                            })
                        })
                    &&& final(acts)@ == old(acts)@ + detach_all_acts(old(self).screens@)
                        + attach_all_acts(old(self).screens@, monitors@) + seq![
                        Action::SetFocus(final(self).focus),
                    ] + refresh_all_acts(mid, final(self).focus)
                },
    {
        self.setup_monitors(monitors, acts);
        let f: Wid = self.screens[0].focus_any(acts);
        self.focus = f;
        let ghost mid_now = self.screens@;
        proof {
            crate::screen::lemma_focus_any_contained(
                self.screens@[0].windows@,
                self.screens@[0].background,
            );
            assert(self.screens@[0].contains_spec(f));
            assert(self.screens@[0].contains_spec(self.focus));
            let ghost pre_focus = WinMan { focus: old(self).focus, ..*self };
            assert(pre_focus.wf());
            pre_focus.lemma_wf_transfer(*self);
        }
        self.refresh_all(acts);
        proof {
            assert(acts@ =~= old(acts)@ + detach_all_acts(old(self).screens@) + attach_all_acts(
                old(self).screens@,
                monitors@,
            ) + seq![Action::SetFocus(f)] + refresh_all_acts(mid_now, f));
        }
    }

    /// Disjointness carries over to any rewrite of the screens that
    /// keeps every screen's ids in place; focus ownership and monitor
    /// bookkeeping are the caller's to show.
    pub proof fn lemma_wf_screens_transfer(self, o: WinMan)
        requires
            self.wf(),
            o.screens@.len() == self.screens@.len(),
            forall|i: int| 0 <= i < o.screens@.len() ==> (#[trigger] o.screens@[i]).wf(),
            forall|i: int|
                0 <= i < o.screens@.len() ==> (#[trigger] o.screens@[i]).id
                    == self.screens@[i].id,
            forall|i: int, w: Wid|
                0 <= i < o.screens@.len() ==> (#[trigger] o.screens@[i].contains_spec(w))
                    == self.screens@[i].contains_spec(w),
            exists|i: int|
                0 <= i < o.screens@.len() && (#[trigger] o.screens@[i]).contains_spec(o.focus),
            o.mon_wf(),
            o.drag_wf(),
        ensures
            o.wf(),
    {
        assert forall|i: int, j: int|
            0 <= i < j < o.screens@.len() implies screens_disjoint(
            o.screens@[i],
            o.screens@[j],
        ) by {
            assert(screens_disjoint(self.screens@[i], self.screens@[j]));
            assert forall|w: Wid|
                !(#[trigger] o.screens@[i].contains_spec(w) && #[trigger] o.screens@[
            j].contains_spec(w)) by {
                assert(o.screens@[i].contains_spec(w) == self.screens@[i].contains_spec(w));
                assert(o.screens@[j].contains_spec(w) == self.screens@[j].contains_spec(w));
            };
        };
    }

    /// The screens after the focused screen `si` handed its monitor
    /// over to the parked screen `id`, before the closing refresh: `si`
    /// detached (background unmapped, windows hidden), `id` attached
    /// (background mapped, windows shown), everything else untouched.
    pub open spec fn park_handover_mid(
        pre: Seq<Screen>,
        si: int,
        id: int,
        m: Monitor,
        mid: Seq<Screen>,
    ) -> bool {
        &&& mid.len() == pre.len()
        &&& forall|i: int|
            0 <= i < pre.len() ==> {
                &&& (#[trigger] mid[i]).same_shape(pre[i])
                &&& mid[i].monitor == (if i == si {
                    None::<Monitor>
                } else if i == id {
                    Some(m)
                } else {
                    pre[i].monitor
                })
                &&& mid[i].background == (if i == si {
                    pre[i].background.after_unmap()
                } else if i == id {
                    pre[i].background.after_map()
                } else {
                    pre[i].background
                })
                &&& mid[i].windows@ == (if i == si {
                    concealed_all(pre[i].windows@)
                } else if i == id {
                    shown_all(pre[i].windows@)
                } else {
                    pre[i].windows@
                })
            }
    }

    /// `mid` is `pre` with exactly screen `si`'s window list replaced:
    /// everything else about every screen is unchanged.  The clauses
    /// determine `mid`'s layout-relevant content completely, so any
    /// request list computed over `mid` is pinned.
    pub open spec fn one_screen_mid(
        pre: Seq<Screen>,
        si: int,
        ws2: Seq<Window>,
        mid: Seq<Screen>,
    ) -> bool {
        &&& 0 <= si < pre.len()
        &&& mid.len() == pre.len()
        &&& forall|j: int| 0 <= j < pre.len() && j != si ==> #[trigger] mid[j] == pre[j]
        &&& mid[si].same_shape(pre[si])
        &&& mid[si].monitor == pre[si].monitor
        &&& mid[si].background == pre[si].background
        &&& mid[si].windows@ == ws2
    }

    /// `mid` is `pre` with exactly the window lists of screens `sa`
    /// and `sb` replaced.
    pub open spec fn two_screen_mid(
        pre: Seq<Screen>,
        sa: int,
        wsa: Seq<Window>,
        sb: int,
        wsb: Seq<Window>,
        mid: Seq<Screen>,
    ) -> bool {
        &&& 0 <= sa < pre.len()
        &&& 0 <= sb < pre.len()
        &&& sa != sb
        &&& mid.len() == pre.len()
        &&& forall|j: int|
            0 <= j < pre.len() && j != sa && j != sb ==> #[trigger] mid[j] == pre[j]
        &&& mid[sa].same_shape(pre[sa])
        &&& mid[sa].monitor == pre[sa].monitor
        &&& mid[sa].background == pre[sa].background
        &&& mid[sa].windows@ == wsa
        &&& mid[sb].same_shape(pre[sb])
        &&& mid[sb].monitor == pre[sb].monitor
        &&& mid[sb].background == pre[sb].background
        &&& mid[sb].windows@ == wsb
    }

    /// The screen pool after screens `si` and `id` traded their
    /// monitor assignments in place.
    pub open spec fn swapped_screens(pre: Seq<Screen>, si: int, id: int) -> Seq<Screen> {
        Seq::new(
            pre.len(),
            |i: int|
                if i == si {
                    Screen { monitor: pre[id].monitor, ..pre[si] }
                } else if i == id {
                    Screen { monitor: pre[si].monitor, ..pre[id] }
                } else {
                    pre[i]
                },
        )
    }

    /// What showing virtual screen `id` does, state and requests.  The
    /// park-handover branch pins its requests through an intermediate
    /// screen description that the clauses determine completely.
    pub open spec fn switch_screen_post(
        pre: WinMan,
        post: WinMan,
        id: int,
        a0: Seq<Action>,
        a1: Seq<Action>,
    ) -> bool {
        let si = pre.owner_of(pre.focus);
        &&& post.monitor_count == pre.monitor_count
        &&& post.drag == pre.drag
        &&& post.screens@.len() == pre.screens@.len()
        &&& (id >= pre.screens@.len() ==> post == pre && a1 == a0)
        &&& ((id < pre.screens@.len() && pre.screens@[id].monitor is None && pre.screens@[si].monitor is None)
            ==> post.screens@ == pre.screens@ && post.focus == pre.focus && a1 == a0)
        &&& ((id < pre.screens@.len() && pre.screens@[id].monitor is None && pre.screens@[si].monitor is Some)
            ==> {
            let m = pre.screens@[si].monitor.unwrap();
            let fnew = focus_any_fn(
                shown_all(pre.screens@[id].windows@),
                pre.screens@[id].background.after_map(),
            );
            &&& post.focus == fnew
            &&& exists|mid: Seq<Screen>|
                {
                    &&& #[trigger] WinMan::park_handover_mid(pre.screens@, si, id, m, mid)
                    &&& a1 == a0 + crate::screen::screen_detach_acts(pre.screens@[si])
                        + crate::screen::screen_attach_acts(
                        pre.screens@[id].windows@,
                        pre.screens@[id].background,
                        pre.screens@[id].id,
                        m,
                    ) + seq![Action::SetFocus(fnew)] + refresh_all_acts(mid, fnew)
                }
            &&& forall|i: int|
                0 <= i < pre.screens@.len() ==> {
                    &&& (#[trigger] post.screens@[i]).same_shape(pre.screens@[i])
                    &&& post.screens@[i].monitor == (if i == si {
                        None::<Monitor>
                    } else if i == id {
                        Some(m)
                    } else {
                        pre.screens@[i].monitor
                    })
                    &&& post.screens@[i].background == (if i == si {
                        pre.screens@[i].background.after_unmap()
                    } else if i == id {
                        pre.screens@[i].background.after_map()
                    } else {
                        pre.screens@[i].background
                    })
                    &&& post.screens@[i].windows@ == crate::screen::refresh_windows_fn(
                        if i == si {
                            concealed_all(pre.screens@[i].windows@)
                        } else if i == id {
                            shown_all(pre.screens@[i].windows@)
                        } else {
                            pre.screens@[i].windows@
                        },
                        if i == si {
                            None::<Monitor>
                        } else if i == id {
                            Some(m)
                        } else {
                            pre.screens@[i].monitor
                        },
                        Some(fnew),
                    )
                }
        })
        &&& ((id < pre.screens@.len() && pre.screens@[id].monitor is Some && si == id) ==> post
            == pre && a1 == a0)
        &&& ((id < pre.screens@.len() && pre.screens@[id].monitor is Some && si != id) ==> {
            let fnew = pre.screens@[id].focus_any_target();
            &&& post.focus == fnew
            &&& a1 == a0 + seq![Action::SetFocus(fnew)] + refresh_all_acts(
                WinMan::swapped_screens(pre.screens@, si, id),
                fnew,
            )
            &&& forall|i: int|
                0 <= i < pre.screens@.len() ==> {
                    &&& (#[trigger] post.screens@[i]).same_shape(pre.screens@[i])
                    &&& post.screens@[i].background == pre.screens@[i].background
                    &&& post.screens@[i].monitor == (if i == si {
                        pre.screens@[id].monitor
                    } else if i == id {
                        pre.screens@[si].monitor
                    } else {
                        pre.screens@[i].monitor
                    })
                    &&& post.screens@[i].windows@ == crate::screen::refresh_windows_fn(
                        pre.screens@[i].windows@,
                        if i == si {
                            pre.screens@[id].monitor
                        } else if i == id {
                            pre.screens@[si].monitor
                        } else {
                            pre.screens@[i].monitor
                        },
                        Some(fnew),
                    )
                }
        })
    }

    /// Show virtual screen `id`.  If it has no monitor, the focused
    /// screen's monitor is handed over (the old screen parks, its
    /// windows hidden); if it is already shown on another monitor, the
    /// two screens trade monitors in place.  Either way the target
    /// screen's `focus_any` choice takes the focus and every layout is
    /// re-run.  A no-op if the id is out of range, if the target
    /// already holds the active monitor, or if the focused screen has
    /// no monitor to hand over.
    #[verifier::rlimit(100)]
    pub fn switch_screen(&mut self, id: usize, acts: &mut Vec<Action>)
        requires
            old(self).wf(),
        ensures
            final(self).wf(),
            WinMan::switch_screen_post(*old(self), *final(self), id as int, old(acts)@, final(acts)@),
    {
        let n: usize = self.screens.len();
        if id >= n {
            return ;
        }
        let si: usize = self.focused_screen_idx();
        proof {
            let oi = old(self).owner_of(old(self).focus);
            assert(old(self).screens@[oi].contains_spec(old(self).focus));
            if oi != si as int {
                if oi < si as int {
                    assert(screens_disjoint(old(self).screens@[oi], old(self).screens@[si as int]));
                } else {
                    assert(screens_disjoint(old(self).screens@[si as int], old(self).screens@[oi]));
                }
                assert(false);
            }
        }
        if self.screens[id].monitor().is_none() {
            let s = &mut self.screens[si];
            let m_opt: Option<Monitor> = s.detach(acts);
            let m: Monitor = match m_opt {
                None => {
                    proof {
                        assert(self.screens@ =~= old(self).screens@);
                        old(self).lemma_wf_transfer(*self);
                    }
                    return ;
                },
                Some(m) => m,
            };
            proof {
                assert(si != id);
            }
            let s2 = &mut self.screens[id];
            s2.attach(m, acts);
            let f2: Wid = self.screens[id].focus_any(acts);
            self.focus = f2;
            let ghost mid_now = self.screens@;
            proof {
                self.lemma_switch_park_wf(*old(self), si as int, id as int, m);
                assert(WinMan::park_handover_mid(
                    old(self).screens@,
                    si as int,
                    id as int,
                    m,
                    mid_now,
                ));
            }
            self.refresh_all(acts);
            proof {
                assert(acts@ =~= old(acts)@ + crate::screen::screen_detach_acts(
                    old(self).screens@[si as int],
                ) + crate::screen::screen_attach_acts(
                    old(self).screens@[id as int].windows@,
                    old(self).screens@[id as int].background,
                    old(self).screens@[id as int].id,
                    m,
                ) + seq![Action::SetFocus(f2)] + refresh_all_acts(mid_now, f2));
            }
        } else {
            if si == id {
                return ;
            }
            let sa = &mut self.screens[si];
            let ma: Option<Monitor> = sa.replace_monitor(None);
            let sb = &mut self.screens[id];
            let mb: Option<Monitor> = sb.replace_monitor(ma);
            let sa2 = &mut self.screens[si];
            let _ = sa2.replace_monitor(mb);
            proof {
                assert(self.screens@ =~= Seq::new(
                    old(self).screens@.len(),
                    |i: int|
                        if i == si as int {
                            Screen {
                                monitor: old(self).screens@[id as int].monitor,
                                ..old(self).screens@[si as int]
                            }
                        } else if i == id as int {
                            Screen {
                                monitor: old(self).screens@[si as int].monitor,
                                ..old(self).screens@[id as int]
                            }
                        } else {
                            old(self).screens@[i]
                        },
                ));
            }
            let ghost swapped_now = self.screens@;
            let f2: Wid = self.screens[id].focus_any(acts);
            self.focus = f2;
            proof {
                self.lemma_switch_swap_wf(*old(self), si as int, id as int);
                assert(f2 == old(self).screens@[id as int].focus_any_target()) by {
                    assert(swapped_now[id as int].windows@ == old(
                        self,
                    ).screens@[id as int].windows@);
                    assert(swapped_now[id as int].background == old(
                        self,
                    ).screens@[id as int].background);
                };
            }
            self.refresh_all(acts);
            proof {
                let osi = old(self).owner_of(old(self).focus);
                assert(swapped_now =~= WinMan::swapped_screens(
                    old(self).screens@,
                    osi,
                    id as int,
                ));
                assert(acts@ =~= old(acts)@ + seq![Action::SetFocus(f2)] + refresh_all_acts(
                    swapped_now,
                    f2,
                ));
                assert(refresh_all_acts(swapped_now, f2) == refresh_all_acts(
                    WinMan::swapped_screens(old(self).screens@, osi, id as int),
                    f2,
                ));
            }
        }
    }

    /// What migrating the focused window to screen `id` does, state and
    /// requests: the source screen refocuses and forgets the window,
    /// the target adopts it at its sorted position (hiding it first if
    /// the target is parked), then every layout is re-run.  The
    /// background is never migrated; a target at id-space capacity
    /// drops the window after the removal.
    #[verifier::opaque]
    pub open spec fn move_to_screen_post(
        pre: WinMan,
        post: WinMan,
        id: int,
        a0: Seq<Action>,
        a1: Seq<Action>,
    ) -> bool {
        let si = pre.owner_of(pre.focus);
        &&& post.monitor_count == pre.monitor_count
        &&& post.drag == pre.drag
        &&& post.screens@.len() == pre.screens@.len()
        &&& (id >= pre.screens@.len() ==> post == pre && a1 == a0)
        &&& ((id < pre.screens@.len() && !owns_win(pre.screens@[si].windows@, pre.focus)) ==> post
            == pre && a1 == a0)
        &&& ((id < pre.screens@.len() && si == id && owns_win(pre.screens@[id].windows@, pre.focus))
            ==> post == pre && a1 == a0)
        &&& ((id < pre.screens@.len() && si != id && owns_win(pre.screens@[si].windows@, pre.focus))
            ==> {
            let sk = pre.screens@[si];
            let ti = the_win_idx(sk.windows@, pre.focus);
            let moved = sk.windows@[ti];
            let dst = pre.screens@[id];
            let fnew = pre.after_forget_focus(si, pre.focus);
            let src_ws2 = crate::screen::refresh_windows_fn(
                sk.windows@.remove(ti),
                sk.monitor,
                sk.forget_eff(pre.focus, Some(pre.focus)),
            );
            &&& post.focus == fnew
            &&& forall|i: int|
                0 <= i < pre.screens@.len() ==> (#[trigger] post.screens@[i]).same_shape(
                    pre.screens@[i],
                ) && post.screens@[i].monitor == pre.screens@[i].monitor
                    && post.screens@[i].background == pre.screens@[i].background
            &&& post.screens@[si].windows@ == crate::screen::refresh_windows_fn(
                src_ws2,
                sk.monitor,
                Some(fnew),
            )
            &&& (dst.windows@.len() < 0xfffe ==> exists|p: int, mid: Seq<Screen>|
                {
                    &&& #[trigger] Screen::is_insert_pos(dst.windows@, moved.frame, p)
                    &&& #[trigger] WinMan::two_screen_mid(
                        pre.screens@,
                        si,
                        src_ws2,
                        id,
                        crate::screen::refresh_windows_fn(
                            dst.windows@.insert(p, dst.add_prepared(moved)),
                            dst.monitor,
                            Some(fnew),
                        ),
                        mid,
                    )
                    &&& post.screens@[id].windows@ == crate::screen::refresh_windows_fn(
                        crate::screen::refresh_windows_fn(
                            dst.windows@.insert(p, dst.add_prepared(moved)),
                            dst.monitor,
                            Some(fnew),
                        ),
                        dst.monitor,
                        Some(fnew),
                    )
                    &&& a1 == a0 + crate::screen::forget_focused_acts(sk, pre.focus) + (
                    if dst.monitor is None && moved.is_mapped_spec() {
                        moved.conceal_acts()
                    } else {
                        Seq::<Action>::empty()
                    }) + crate::screen::refresh_acts_fn(
                        dst.windows@.insert(p, dst.add_prepared(moved)),
                        dst.monitor,
                        dst.background,
                        dst.active_kind(),
                        dst.border_visible,
                        dst.border_width,
                        dst.id,
                        Some(fnew),
                    ) + refresh_all_acts(mid, fnew)
                })
            &&& (dst.windows@.len() >= 0xfffe ==> exists|mid: Seq<Screen>|
                {
                    &&& #[trigger] WinMan::one_screen_mid(pre.screens@, si, src_ws2, mid)
                    &&& a1 == a0 + crate::screen::forget_focused_acts(sk, pre.focus)
                        + refresh_all_acts(mid, fnew)
                })
            &&& forall|i: int|
                0 <= i < pre.screens@.len() && i != si && i != id
                    ==> #[trigger] post.screens@[i].windows@ == crate::screen::refresh_windows_fn(
                    pre.screens@[i].windows@,
                    pre.screens@[i].monitor,
                    Some(fnew),
                )
        })
    }

    /// Move the focused window to virtual screen `id`: refuse the
    /// background; otherwise take it out of its screen (the focus moves
    /// to a surviving window there first), insert it into the target,
    /// and re-run every layout.  A no-op if the id is out of range or
    /// names the screen the window is already on.
    #[verifier::rlimit(100)]
    pub fn move_window_to_screen(&mut self, id: usize, acts: &mut Vec<Action>)
        requires
            old(self).wf(),
        ensures
            final(self).wf(),
            final(self).monitor_count == old(self).monitor_count,
            final(self).drag == old(self).drag,
            final(self).screens@.len() == old(self).screens@.len(),
            WinMan::move_to_screen_post(
                *old(self),
                *final(self),
                id as int,
                old(acts)@,
                final(acts)@,
            ),
    {
        let n: usize = self.screens.len();
        if id >= n {
            proof {
                reveal(WinMan::move_to_screen_post);
                assert(WinMan::move_to_screen_post(
                    *old(self),
                    *self,
                    id as int,
                    old(acts)@,
                    acts@,
                ));
            }
            return ;
        }
        let si: usize = self.focused_screen_idx();
        proof {
            let oi = old(self).owner_of(old(self).focus);
            assert(old(self).screens@[oi].contains_spec(old(self).focus));
            if oi != si as int {
                if oi < si as int {
                    assert(screens_disjoint(old(self).screens@[oi], old(self).screens@[si as int]));
                } else {
                    assert(screens_disjoint(old(self).screens@[si as int], old(self).screens@[oi]));
                }
                assert(false);
            }
        }
        let f: Wid = self.focus;
        let has_client: bool = match self.screens[si].window_index(f) {
            Some(_) => true,
            None => false,
        };
        if !has_client {
            proof {
                reveal(WinMan::move_to_screen_post);
                assert(WinMan::move_to_screen_post(
                    *old(self),
                    *self,
                    id as int,
                    old(acts)@,
                    acts@,
                ));
            }
            return ;
        }
        if si == id {
            proof {
                reveal(WinMan::move_to_screen_post);
                assert(WinMan::move_to_screen_post(
                    *old(self),
                    *self,
                    id as int,
                    old(acts)@,
                    acts@,
                ));
            }
            return ;
        }
        let ghost sk = old(self).screens@[si as int];
        let s = &mut self.screens[si];
        let (win, nf) = s.forget_window(f, Some(f), acts);
        match nf {
            Some(x) => {
                self.focus = x;
            },
            None => {
                proof {
                    assert(false);
                }
            },
        }
        proof {
            self.lemma_post_forget_wf(*old(self), si as int, f);
            // the moved window's ids are fresh everywhere now
            let ti = the_win_idx(sk.windows@, f);
            let rem = sk.windows@.remove(ti);
            crate::screen::lemma_hl_ids(rem, sk.forget_eff(f, Some(f)));
            if sk.monitor is Some {
                crate::screen::lemma_ids_owns_eq(rem, self.screens@[si as int].windows@);
            }
            assert forall|a: int| 0 <= a < rem.len() implies #[trigger] rem[a] == (if a < ti {
                sk.windows@[a]
            } else {
                sk.windows@[a + 1]
            }) by {};
            assert forall|i: int|
                0 <= i < self.screens@.len() implies !(#[trigger] self.screens@[i]).contains_spec(
                win.inner,
            ) && !self.screens@[i].contains_spec(win.frame) by {
                assert(sk.windows@[ti].contains_spec(win.inner) && sk.windows@[ti].contains_spec(
                    win.frame,
                ));
                assert(sk.contains_spec(win.inner) && sk.contains_spec(win.frame));
                if i != si as int {
                    if i < si as int {
                        assert(screens_disjoint(old(self).screens@[i], sk));
                    } else {
                        assert(screens_disjoint(sk, old(self).screens@[i]));
                    }
                    assert(self.screens@[i] == old(self).screens@[i]);
                } else {
                    assert forall|x: Wid|
                        x == win.inner || x == win.frame implies !self.screens@[
                    i].contains_spec(x) by {
                        if owns_win(self.screens@[i].windows@, x) {
                            assert(owns_win(rem, x));
                            let a = choose|a: int|
                                0 <= a < rem.len() && #[trigger] rem[a].contains_spec(x);
                            let oa = if a < ti {
                                a
                            } else {
                                a + 1
                            };
                            assert(oa != ti);
                            assert(crate::screen::wins_disjoint(
                                sk.windows@[oa],
                                sk.windows@[ti],
                            ));
                        }
                        assert(crate::screen::wins_disjoint(sk.windows@[ti], sk.background));
                    };
                }
            };
        }
        let ghost pre_add = *self;
        let ghost acts_forgot = acts@;
        proof {
            assert(acts_forgot =~= old(acts)@ + crate::screen::forget_focused_acts(
                sk,
                old(self).focus,
            ));
        }
        let d = &mut self.screens[id];
        d.add_window(win, Some(self.focus), acts);
        proof {
            let dst = old(self).screens@[id as int];
            assert(pre_add.screens@[id as int] == dst);
            if dst.add_rejected(win) {
                // only the capacity guard can fire: the ids are fresh
                assert(self.screens@ == pre_add.screens@);
                pre_add.lemma_wf_transfer(*self);
            } else {
                WinMan::lemma_adopted_insert_wf(pre_add, *self, id as int, win, self.focus);
            }
        }
        let ghost mid_now = self.screens@;
        let ghost acts_added = acts@;
        self.refresh_all(acts);
        proof {
            reveal(WinMan::move_to_screen_post);
            let dst = old(self).screens@[id as int];
            let ti = the_win_idx(sk.windows@, old(self).focus);
            let fnew = self.focus;
            let src_ws2 = crate::screen::refresh_windows_fn(
                sk.windows@.remove(ti),
                sk.monitor,
                sk.forget_eff(old(self).focus, Some(old(self).focus)),
            );
            if dst.add_rejected(win) {
                assert(dst.windows@.len() >= 0xfffe);
                assert(WinMan::one_screen_mid(old(self).screens@, si as int, src_ws2, mid_now));
                assert(acts@ =~= old(acts)@ + crate::screen::forget_focused_acts(
                    sk,
                    old(self).focus,
                ) + refresh_all_acts(mid_now, fnew));
                WinMan::lemma_move_post_cap(
                    *old(self),
                    *self,
                    id as int,
                    old(acts)@,
                    acts@,
                    mid_now,
                );
            } else {
                let p = choose|p: int|
                    {
                        &&& #[trigger] Screen::is_insert_pos(dst.windows@, win.frame, p)
                        &&& mid_now[id as int].windows@ == crate::screen::refresh_windows_fn(
                            dst.windows@.insert(p, dst.add_prepared(win)),
                            dst.monitor,
                            Some(fnew),
                        )
                        &&& acts_added == acts_forgot + (if dst.monitor is None
                            && win.is_mapped_spec() {
                            win.conceal_acts()
                        } else {
                            Seq::<Action>::empty()
                        }) + crate::screen::refresh_acts_fn(
                            dst.windows@.insert(p, dst.add_prepared(win)),
                            dst.monitor,
                            dst.background,
                            dst.active_kind(),
                            dst.border_visible,
                            dst.border_width,
                            dst.id,
                            Some(fnew),
                        )
                    };
                assert(win == sk.windows@[ti]);
                assert(acts@ =~= old(acts)@ + crate::screen::forget_focused_acts(
                    sk,
                    old(self).focus,
                ) + (if dst.monitor is None && win.is_mapped_spec() {
                    win.conceal_acts()
                } else {
                    Seq::<Action>::empty()
                }) + crate::screen::refresh_acts_fn(
                    dst.windows@.insert(p, dst.add_prepared(win)),
                    dst.monitor,
                    dst.background,
                    dst.active_kind(),
                    dst.border_visible,
                    dst.border_width,
                    dst.id,
                    Some(fnew),
                ) + refresh_all_acts(mid_now, fnew));
                assert(WinMan::two_screen_mid(
                    old(self).screens@,
                    si as int,
                    src_ws2,
                    id as int,
                    crate::screen::refresh_windows_fn(
                        dst.windows@.insert(p, dst.add_prepared(win)),
                        dst.monitor,
                        Some(fnew),
                    ),
                    mid_now,
                ));
                WinMan::lemma_move_post_ok(
                    *old(self),
                    *self,
                    id as int,
                    old(acts)@,
                    acts@,
                    p,
                    mid_now,
                );
            }
        }
    }

    /// The migration postcondition, assembled from the facts the body
    /// established, for a target below the id-space capacity.
    proof fn lemma_move_post_ok(
        pre: WinMan,
        post: WinMan,
        id: int,
        a0: Seq<Action>,
        a1: Seq<Action>,
        p: int,
        mid: Seq<Screen>,
    )
        requires
            0 <= id < pre.screens@.len(),
            pre.owner_of(pre.focus) != id,
            owns_win(pre.screens@[pre.owner_of(pre.focus)].windows@, pre.focus),
            post.monitor_count == pre.monitor_count,
            post.drag == pre.drag,
            post.screens@.len() == pre.screens@.len(),
            ({
                let si = pre.owner_of(pre.focus);
                let sk = pre.screens@[si];
                let ti = the_win_idx(sk.windows@, pre.focus);
                let moved = sk.windows@[ti];
                let dst = pre.screens@[id];
                let fnew = pre.after_forget_focus(si, pre.focus);
                let src_ws2 = crate::screen::refresh_windows_fn(
                    sk.windows@.remove(ti),
                    sk.monitor,
                    sk.forget_eff(pre.focus, Some(pre.focus)),
                );
                &&& dst.windows@.len() < 0xfffe
                &&& post.focus == fnew
                &&& forall|i: int|
                    0 <= i < pre.screens@.len() ==> (#[trigger] post.screens@[i]).same_shape(
                        pre.screens@[i],
                    ) && post.screens@[i].monitor == pre.screens@[i].monitor
                        && post.screens@[i].background == pre.screens@[i].background
                &&& post.screens@[si].windows@ == crate::screen::refresh_windows_fn(
                    src_ws2,
                    sk.monitor,
                    Some(fnew),
                )
                &&& Screen::is_insert_pos(dst.windows@, moved.frame, p)
                &&& WinMan::two_screen_mid(
                    pre.screens@,
                    si,
                    src_ws2,
                    id,
                    crate::screen::refresh_windows_fn(
                        dst.windows@.insert(p, dst.add_prepared(moved)),
                        dst.monitor,
                        Some(fnew),
                    ),
                    mid,
                )
                &&& post.screens@[id].windows@ == crate::screen::refresh_windows_fn(
                    crate::screen::refresh_windows_fn(
                        dst.windows@.insert(p, dst.add_prepared(moved)),
                        dst.monitor,
                        Some(fnew),
                    ),
                    dst.monitor,
                    Some(fnew),
                )
                &&& a1 == a0 + crate::screen::forget_focused_acts(sk, pre.focus) + (
                if dst.monitor is None && moved.is_mapped_spec() {
                    moved.conceal_acts()
                } else {
                    Seq::<Action>::empty()
                }) + crate::screen::refresh_acts_fn(
                    dst.windows@.insert(p, dst.add_prepared(moved)),
                    dst.monitor,
                    dst.background,
                    dst.active_kind(),
                    dst.border_visible,
                    dst.border_width,
                    dst.id,
                    Some(fnew),
                ) + refresh_all_acts(mid, fnew)
                &&& forall|i: int|
                    0 <= i < pre.screens@.len() && i != si && i != id
                        ==> #[trigger] post.screens@[i].windows@
                        == crate::screen::refresh_windows_fn(
                        pre.screens@[i].windows@,
                        pre.screens@[i].monitor,
                        Some(fnew),
                    )
            }),
        ensures
            WinMan::move_to_screen_post(pre, post, id, a0, a1),
    {
        reveal(WinMan::move_to_screen_post);
    }

    /// The migration postcondition for a target at capacity: the
    /// window left its screen and was dropped.
    proof fn lemma_move_post_cap(
        pre: WinMan,
        post: WinMan,
        id: int,
        a0: Seq<Action>,
        a1: Seq<Action>,
        mid: Seq<Screen>,
    )
        requires
            0 <= id < pre.screens@.len(),
            pre.owner_of(pre.focus) != id,
            owns_win(pre.screens@[pre.owner_of(pre.focus)].windows@, pre.focus),
            post.monitor_count == pre.monitor_count,
            post.drag == pre.drag,
            post.screens@.len() == pre.screens@.len(),
            ({
                let si = pre.owner_of(pre.focus);
                let sk = pre.screens@[si];
                let ti = the_win_idx(sk.windows@, pre.focus);
                let dst = pre.screens@[id];
                let fnew = pre.after_forget_focus(si, pre.focus);
                let src_ws2 = crate::screen::refresh_windows_fn(
                    sk.windows@.remove(ti),
                    sk.monitor,
                    sk.forget_eff(pre.focus, Some(pre.focus)),
                );
                &&& dst.windows@.len() >= 0xfffe
                &&& post.focus == fnew
                &&& forall|i: int|
                    0 <= i < pre.screens@.len() ==> (#[trigger] post.screens@[i]).same_shape(
                        pre.screens@[i],
                    ) && post.screens@[i].monitor == pre.screens@[i].monitor
                        && post.screens@[i].background == pre.screens@[i].background
                &&& post.screens@[si].windows@ == crate::screen::refresh_windows_fn(
                    src_ws2,
                    sk.monitor,
                    Some(fnew),
                )
                &&& WinMan::one_screen_mid(pre.screens@, si, src_ws2, mid)
                &&& a1 == a0 + crate::screen::forget_focused_acts(sk, pre.focus)
                    + refresh_all_acts(mid, fnew)
                &&& forall|i: int|
                    0 <= i < pre.screens@.len() && i != si && i != id
                        ==> #[trigger] post.screens@[i].windows@
                        == crate::screen::refresh_windows_fn(
                        pre.screens@[i].windows@,
                        pre.screens@[i].monitor,
                        Some(fnew),
                    )
            }),
        ensures
            WinMan::move_to_screen_post(pre, post, id, a0, a1),
    {
        reveal(WinMan::move_to_screen_post);
    }

    /// Dispatch one command from the keybinding table.  `Quit` and
    /// `Restart` unwind as distinguished errors; everything else
    /// mutates the model.  The screen-switch, window-migration and drag
    /// semantics are specified on the public operations this function
    /// dispatches to.
    #[verifier::rlimit(100)]
    pub fn process_command(&mut self, cmd: &Command, acts: &mut Vec<Action>) -> (r: Result<
        (),
        WmError,
    >)
        requires
            old(self).wf(),
        ensures
            final(self).wf(),
            final(self).screens@.len() == old(self).screens@.len(),
            r is Err <==> (cmd is Quit || cmd is Restart),
            cmd is Quit ==> (r matches Err(e) && e is Quit) && *final(self) == *old(self) && final(acts)@ == old(acts)@,
            cmd is Restart ==> (r matches Err(e) && e is Restart) && *final(self) == *old(self)
                && final(acts)@ == old(acts)@,
            (cmd is ShowBorder || cmd is HideBorder) ==> {
                let on = cmd is ShowBorder;
                &&& final(self).focus == old(self).focus
                &&& final(self).monitor_count == old(self).monitor_count
                &&& forall|i: int|
                    0 <= i < old(self).screens@.len() ==> {
                        &&& (#[trigger] final(self).screens@[i]).border_visible == on
                        &&& final(self).screens@[i].id == old(self).screens@[i].id
                        &&& final(self).screens@[i].layouts@ == old(self).screens@[i].layouts@
                        &&& final(self).screens@[i].active_layout == old(self).screens@[i].active_layout
                        &&& final(self).screens@[i].border_width == old(self).screens@[i].border_width
                        &&& final(self).screens@[i].monitor == old(self).screens@[i].monitor
                        &&& final(self).screens@[i].background == old(self).screens@[i].background
                        &&& final(self).screens@[i].windows@ == crate::screen::refresh_windows_fn(
                            old(self).screens@[i].windows@,
                            old(self).screens@[i].monitor,
                            Some(old(self).focus),
                        )
                    }
            },
            (cmd is FocusNext || cmd is FocusPrev) ==> {
                let fsi = old(self).owner_of(old(self).focus);
                let fnew = old(self).screens@[fsi].focus_step_target(
                    old(self).focus,
                    cmd is FocusNext,
                );
                &&& final(self).focus == fnew
                &&& final(self).monitor_count == old(self).monitor_count
                &&& forall|i: int|
                    0 <= i < old(self).screens@.len() ==> (
                    #[trigger] final(self).screens@[i]).same_shape(old(self).screens@[i]) && final(self).screens@[i].windows@ == crate::screen::refresh_windows_fn(
                        old(self).screens@[i].windows@,
                        old(self).screens@[i].monitor,
                        Some(fnew),
                    )
            },
            cmd matches Command::MovePointerRel(dx, dy) ==> *final(self) == *old(self) && final(acts)@ == old(acts)@ + seq![Action::WarpPointer { dx: *dx, dy: *dy }],
            cmd is MouseClickLeft ==> *final(self) == *old(self) && final(acts)@ == old(acts)@
                + seq![Action::ClickLeft],
            cmd matches Command::Spawn(s) ==> *final(self) == *old(self) && final(acts)@ == old(acts)@ + seq![Action::SpawnProcess(*s)],
            (cmd is Close && owns_win(
                old(self).screens@[old(self).owner_of(old(self).focus)].windows@,
                old(self).focus,
            )) ==> {
                let si = old(self).owner_of(old(self).focus);
                let sk = old(self).screens@[si];
                let ti = the_win_idx(sk.windows@, old(self).focus);
                let fnew = old(self).after_forget_focus(si, old(self).focus);
                &&& final(self).focus == fnew
                &&& final(self).screens@[si].windows@ == crate::screen::refresh_windows_fn(
                    crate::screen::refresh_windows_fn(
                        sk.windows@.remove(ti),
                        sk.monitor,
                        sk.forget_eff(old(self).focus, Some(old(self).focus)),
                    ),
                    sk.monitor,
                    Some(fnew),
                )
                &&& exists|mid: Seq<Screen>|
                    {
                        &&& #[trigger] WinMan::one_screen_mid(
                            old(self).screens@,
                            si,
                            crate::screen::refresh_windows_fn(
                                sk.windows@.remove(ti),
                                sk.monitor,
                                sk.forget_eff(old(self).focus, Some(old(self).focus)),
                            ),
                            mid,
                        )
                        &&& final(acts)@ == old(acts)@ + crate::screen::forget_focused_acts(
                            sk,
                            old(self).focus,
                        ) + sk.windows@[ti].close_acts() + refresh_all_acts(mid, fnew)
                    }
                &&& forall|i: int|
                    0 <= i < old(self).screens@.len() && i != si
                        ==> #[trigger] final(self).screens@[i].windows@
                        == crate::screen::refresh_windows_fn(
                        old(self).screens@[i].windows@,
                        old(self).screens@[i].monitor,
                        Some(fnew),
                    )
            },
            (cmd is Close && !owns_win(
                old(self).screens@[old(self).owner_of(old(self).focus)].windows@,
                old(self).focus,
            )) ==> *final(self) == *old(self) && final(acts)@ == old(acts)@,
            (cmd is Sink && owns_win(
                old(self).screens@[old(self).owner_of(old(self).focus)].windows@,
                old(self).focus,
            )) ==> {
                let si = old(self).owner_of(old(self).focus);
                let sk = old(self).screens@[si];
                let ti = the_win_idx(sk.windows@, old(self).focus);
                &&& final(self).focus == old(self).focus
                &&& final(self).screens@[si].windows@ == crate::screen::refresh_windows_fn(
                    sk.windows@.update(ti, sk.windows@[ti].after_sink()),
                    sk.monitor,
                    Some(old(self).focus),
                )
                &&& forall|i: int|
                    0 <= i < old(self).screens@.len() && i != si
                        ==> #[trigger] final(self).screens@[i].windows@
                        == crate::screen::refresh_windows_fn(
                        old(self).screens@[i].windows@,
                        old(self).screens@[i].monitor,
                        Some(old(self).focus),
                    )
            },
            (cmd is Sink && !owns_win(
                old(self).screens@[old(self).owner_of(old(self).focus)].windows@,
                old(self).focus,
            )) ==> *final(self) == *old(self) && final(acts)@ == old(acts)@,
            cmd is NextLayout ==> {
                let fsi = old(self).owner_of(old(self).focus);
                let sk = old(self).screens@[fsi];
                &&& final(self).focus == old(self).focus
                &&& final(self).screens@[fsi].active_layout as int == (if sk.active_layout + 1
                    == sk.layouts@.len() {
                    0int
                } else {
                    sk.active_layout + 1
                })
                &&& final(self).screens@[fsi].windows@ == crate::screen::refresh_windows_fn(
                    sk.windows@,
                    sk.monitor,
                    Some(old(self).focus),
                )
                &&& forall|i: int|
                    0 <= i < old(self).screens@.len() && i != fsi ==> #[trigger] final(self).screens@[i] == old(self).screens@[i]
            },
            cmd matches Command::Screen(sid) ==> WinMan::switch_screen_post(
                *old(self),
                *final(self),
                *sid as int,
                old(acts)@,
                final(acts)@,
            ),
            cmd matches Command::MoveToScreen(mid2) ==> WinMan::move_to_screen_post(
                *old(self),
                *final(self),
                *mid2 as int,
                old(acts)@,
                final(acts)@,
            ),
            cmd is FocusNextMonitor ==> WinMan::focus_monitor_post(
                *old(self),
                *final(self),
                true,
                old(acts)@,
                final(acts)@,
            ),
            cmd is FocusPrevMonitor ==> WinMan::focus_monitor_post(
                *old(self),
                *final(self),
                false,
                old(acts)@,
                final(acts)@,
            ),
            cmd matches Command::LayoutCommand(lc) ==> {
                let fsi = old(self).owner_of(old(self).focus);
                let sk = old(self).screens@[fsi];
                &&& final(self).focus == old(self).focus
                &&& final(self).screens@[fsi].layouts@ == sk.layouts@.update(
                    sk.active_layout as int,
                    sk.active_kind().after_command(*lc),
                )
                &&& final(self).screens@[fsi].windows@ == crate::screen::refresh_windows_fn(
                    sk.windows@,
                    sk.monitor,
                    Some(old(self).focus),
                )
                &&& forall|i: int|
                    0 <= i < old(self).screens@.len() && i != fsi ==> #[trigger] final(self).screens@[i] == old(self).screens@[i]
            },
    {
        match cmd {
            Command::Quit => Err(WmError::Quit),
            Command::Restart => Err(WmError::Restart),
            Command::ShowBorder => {
                self.set_borders(true, acts);
                Ok(())
            },
            Command::HideBorder => {
                self.set_borders(false, acts);
                Ok(())
            },
            Command::Close => {
                self.close_focused(acts);
                Ok(())
            },
            Command::Sink => {
                self.sink_focused(acts);
                Ok(())
            },
            Command::FocusNext => {
                self.focus_step_cmd(true, acts);
                Ok(())
            },
            Command::FocusPrev => {
                self.focus_step_cmd(false, acts);
                Ok(())
            },
            Command::FocusNextMonitor => {
                self.focus_monitor_step(true, acts);
                Ok(())
            },
            Command::FocusPrevMonitor => {
                self.focus_monitor_step(false, acts);
                Ok(())
            },
            Command::NextLayout => {
                let si: usize = self.focused_screen_idx();
                proof {
                    self.lemma_owner_is(si as int, self.focus);
                }
                let f: Wid = self.focus;
                let ghost pre = *self;
                let s = &mut self.screens[si];
                s.next_layout(Some(f), acts);
                proof {
                    self.lemma_same_ids_one_screen_wf(pre, si as int);
                }
                Ok(())
            },
            Command::LayoutCommand(lc) => {
                let si: usize = self.focused_screen_idx();
                proof {
                    self.lemma_owner_is(si as int, self.focus);
                }
                let f: Wid = self.focus;
                let lc2: LayoutCmd = *lc;
                let ghost pre = *self;
                let s = &mut self.screens[si];
                s.layout_command(lc2, Some(f), acts);
                proof {
                    self.lemma_same_ids_one_screen_wf(pre, si as int);
                }
                Ok(())
            },
            Command::Screen(id) => {
                self.switch_screen(*id, acts);
                Ok(())
            },
            Command::MoveToScreen(id) => {
                self.move_window_to_screen(*id, acts);
                Ok(())
            },
            Command::MovePointerRel(dx, dy) => {
                acts.push(Action::WarpPointer { dx: *dx, dy: *dy });
                Ok(())
            },
            Command::MouseClickLeft => {
                acts.push(Action::ClickLeft);
                Ok(())
            },
            Command::Spawn(s) => {
                acts.push(Action::SpawnProcess(s.clone()));
                Ok(())
            },
        }
    }

    /// The unique owner of an owned id is whichever index a scan found.
    proof fn lemma_owner_is(self, si: int, wid: Wid)
        requires
            self.wf(),
            0 <= si < self.screens@.len(),
            self.screens@[si].contains_spec(wid),
        ensures
            self.owner_of(wid) == si,
    {
        let oi = self.owner_of(wid);
        assert(self.screens@[oi].contains_spec(wid));
        if oi != si {
            if oi < si {
                assert(screens_disjoint(self.screens@[oi], self.screens@[si]));
            } else {
                assert(screens_disjoint(self.screens@[si], self.screens@[oi]));
            }
            assert(false);
        }
    }

    /// One screen changed without touching any window id, monitor or
    /// background: well-formedness carries over.
    proof fn lemma_same_ids_one_screen_wf(self, pre: WinMan, si: int)
        requires
            pre.wf(),
            0 <= si < pre.screens@.len(),
            self.screens@.len() == pre.screens@.len(),
            self.monitor_count == pre.monitor_count,
            self.focus == pre.focus,
            self.drag == pre.drag,
            forall|j: int|
                0 <= j < self.screens@.len() && j != si ==> #[trigger] self.screens@[j]
                    == pre.screens@[j],
            self.screens@[si].wf(),
            self.screens@[si].id == pre.screens@[si].id,
            self.screens@[si].monitor == pre.screens@[si].monitor,
            self.screens@[si].background == pre.screens@[si].background,
            self.screens@[si].windows@ == crate::screen::refresh_windows_fn(
                pre.screens@[si].windows@,
                pre.screens@[si].monitor,
                Some(pre.focus),
            ),
        ensures
            self.wf(),
    {
        assert forall|i: int, w: Wid|
            0 <= i < self.screens@.len() implies (#[trigger] self.screens@[i].contains_spec(w))
            == pre.screens@[i].contains_spec(w) by {
            if i == si && pre.screens@[si].monitor is Some {
                crate::screen::lemma_hl_ids(pre.screens@[si].windows@, Some(pre.focus));
                crate::screen::lemma_ids_owns_eq(
                    pre.screens@[si].windows@,
                    self.screens@[si].windows@,
                );
            }
        };
        pre.lemma_wf_transfer(self);
    }

    /// Toggle border visibility on every screen and re-run every
    /// layout.
    pub fn set_borders(&mut self, on: bool, acts: &mut Vec<Action>)
        requires
            old(self).wf(),
        ensures
            final(self).monitor_count == old(self).monitor_count,
            final(self).focus == old(self).focus,
            final(self).drag == old(self).drag,
            final(self).screens@.len() == old(self).screens@.len(),
            final(self).wf(),
            forall|i: int|
                0 <= i < old(self).screens@.len() ==> {
                    &&& (#[trigger] final(self).screens@[i]).border_visible == on
                    &&& final(self).screens@[i].id == old(self).screens@[i].id
                    &&& final(self).screens@[i].layouts@ == old(self).screens@[i].layouts@
                    &&& final(self).screens@[i].active_layout == old(self).screens@[i].active_layout
                    &&& final(self).screens@[i].border_width == old(self).screens@[i].border_width
                    &&& final(self).screens@[i].monitor == old(self).screens@[i].monitor
                    &&& final(self).screens@[i].background == old(self).screens@[i].background
                    &&& final(self).screens@[i].windows@ == crate::screen::refresh_windows_fn(
                        old(self).screens@[i].windows@,
                        old(self).screens@[i].monitor,
                        Some(old(self).focus),
                    )
                },
            final(acts)@ == old(acts)@ + refresh_all_acts(
                old(self).screens@.map_values(|s: Screen| Screen { border_visible: on, ..s }),
                old(self).focus,
            ),
    {
        let n: usize = self.screens.len();
        let ghost ss = old(self).screens@;
        let mut i: usize = 0;
        while i < n
            invariant
                i <= n,
                n == ss.len(),
                self.screens@.len() == n,
                self.monitor_count == old(self).monitor_count,
                self.focus == old(self).focus,
                self.drag == old(self).drag,
                forall|j: int| 0 <= j < n ==> (#[trigger] ss[j]).wf(),
                forall|j: int|
                    0 <= j < i ==> #[trigger] self.screens@[j] == (Screen {
                        border_visible: on,
                        ..ss[j]
                    }),
                forall|j: int| i <= j < n ==> self.screens@[j] == ss[j],
            decreases n - i,
        {
            let s = &mut self.screens[i];
            if on {
                s.show_border();
            } else {
                s.hide_border();
            }
            i = i + 1;
        }
        proof {
            assert forall|i2: int, w: Wid|
                0 <= i2 < n implies (#[trigger] self.screens@[i2].contains_spec(w)) == ss[
            i2].contains_spec(w) by {};
            old(self).lemma_wf_transfer(*self);
            assert(self.screens@ =~= ss.map_values(
                |s: Screen| Screen { border_visible: on, ..s },
            ));
        }
        self.refresh_all(acts);
    }

    /// Close the focused window: politely if the client supports it.
    /// The focus moves to a surviving window first; a focused
    /// background is never closed.
    pub fn close_focused(&mut self, acts: &mut Vec<Action>)
        requires
            old(self).wf(),
        ensures
            final(self).monitor_count == old(self).monitor_count,
            final(self).drag == old(self).drag,
            final(self).screens@.len() == old(self).screens@.len(),
            final(self).wf(),
            !owns_win(
                old(self).screens@[old(self).owner_of(old(self).focus)].windows@,
                old(self).focus,
            ) ==> *final(self) == *old(self) && final(acts)@ == old(acts)@,
            owns_win(
                old(self).screens@[old(self).owner_of(old(self).focus)].windows@,
                old(self).focus,
            ) ==> {
                let si = old(self).owner_of(old(self).focus);
                let sk = old(self).screens@[si];
                let ti = the_win_idx(sk.windows@, old(self).focus);
                let fnew = old(self).after_forget_focus(si, old(self).focus);
                &&& final(self).focus == fnew
                &&& forall|i: int|
                    0 <= i < old(self).screens@.len() ==> (
                    #[trigger] final(self).screens@[i]).same_shape(old(self).screens@[i])
                        && final(self).screens@[i].monitor == old(self).screens@[i].monitor
                        && final(self).screens@[i].background == old(self).screens@[i].background
                &&& final(self).screens@[si].windows@ == crate::screen::refresh_windows_fn(
                    crate::screen::refresh_windows_fn(
                        sk.windows@.remove(ti),
                        sk.monitor,
                        sk.forget_eff(old(self).focus, Some(old(self).focus)),
                    ),
                    sk.monitor,
                    Some(fnew),
                )
                &&& exists|mid: Seq<Screen>|
                    {
                        &&& #[trigger] WinMan::one_screen_mid(
                            old(self).screens@,
                            si,
                            crate::screen::refresh_windows_fn(
                                sk.windows@.remove(ti),
                                sk.monitor,
                                sk.forget_eff(old(self).focus, Some(old(self).focus)),
                            ),
                            mid,
                        )
                        &&& final(acts)@ == old(acts)@ + crate::screen::forget_focused_acts(
                            sk,
                            old(self).focus,
                        ) + sk.windows@[ti].close_acts() + refresh_all_acts(mid, fnew)
                    }
                &&& forall|i: int|
                    0 <= i < old(self).screens@.len() && i != si
                        ==> #[trigger] final(self).screens@[i].windows@
                        == crate::screen::refresh_windows_fn(
                        old(self).screens@[i].windows@,
                        old(self).screens@[i].monitor,
                        Some(fnew),
                    )
            },
    {
        let si: usize = self.focused_screen_idx();
        proof {
            self.lemma_owner_is(si as int, self.focus);
        }
        let f: Wid = self.focus;
        let has_client: bool = match self.screens[si].window_index(f) {
            Some(_) => true,
            None => false,
        };
        if !has_client {
            return ;
        }
        let ghost sk = old(self).screens@[si as int];
        let s = &mut self.screens[si];
        let (win, nf) = s.forget_window(f, Some(f), acts);
        match nf {
            Some(x) => {
                self.focus = x;
            },
            None => {
                proof {
                    assert(false);
                }
            },
        }
        win.close(acts);
        proof {
            self.lemma_post_forget_wf(*old(self), si as int, f);
        }
        let ghost mid_now = self.screens@;
        self.refresh_all(acts);
        proof {
            let ti = the_win_idx(sk.windows@, old(self).focus);
            assert(WinMan::one_screen_mid(
                old(self).screens@,
                si as int,
                crate::screen::refresh_windows_fn(
                    sk.windows@.remove(ti),
                    sk.monitor,
                    sk.forget_eff(old(self).focus, Some(old(self).focus)),
                ),
                mid_now,
            ));
            assert(win == sk.windows@[ti]);
            assert(acts@ =~= old(acts)@ + crate::screen::forget_focused_acts(
                sk,
                old(self).focus,
            ) + sk.windows@[ti].close_acts() + refresh_all_acts(mid_now, self.focus));
        }
    }

    /// Clear the focused window's floating override, returning it to
    /// the tiling layout; a focused background is ignored.
    pub fn sink_focused(&mut self, acts: &mut Vec<Action>)
        requires
            old(self).wf(),
        ensures
            final(self).monitor_count == old(self).monitor_count,
            final(self).focus == old(self).focus,
            final(self).drag == old(self).drag,
            final(self).screens@.len() == old(self).screens@.len(),
            final(self).wf(),
            !owns_win(
                old(self).screens@[old(self).owner_of(old(self).focus)].windows@,
                old(self).focus,
            ) ==> *final(self) == *old(self) && final(acts)@ == old(acts)@,
            owns_win(
                old(self).screens@[old(self).owner_of(old(self).focus)].windows@,
                old(self).focus,
            ) ==> {
                let si = old(self).owner_of(old(self).focus);
                let sk = old(self).screens@[si];
                let ti = the_win_idx(sk.windows@, old(self).focus);
                &&& final(self).screens@[si].windows@ == crate::screen::refresh_windows_fn(
                    sk.windows@.update(ti, sk.windows@[ti].after_sink()),
                    sk.monitor,
                    Some(old(self).focus),
                )
                &&& forall|i: int|
                    0 <= i < old(self).screens@.len() && i != si
                        ==> #[trigger] final(self).screens@[i].windows@
                        == crate::screen::refresh_windows_fn(
                        old(self).screens@[i].windows@,
                        old(self).screens@[i].monitor,
                        Some(old(self).focus),
                    )
                &&& forall|i: int|
                    0 <= i < old(self).screens@.len() ==> (
                    #[trigger] final(self).screens@[i]).same_shape(old(self).screens@[i])
                        && final(self).screens@[i].monitor == old(self).screens@[i].monitor
                        && final(self).screens@[i].background == old(self).screens@[i].background
            },
    {
        let si: usize = self.focused_screen_idx();
        proof {
            self.lemma_owner_is(si as int, self.focus);
        }
        let f: Wid = self.focus;
        let ghost sk = old(self).screens@[si as int];
        let wi: usize = match self.screens[si].window_index(f) {
            Some(wi) => wi,
            None => {
                return ;
            },
        };
        proof {
            let ti = the_win_idx(sk.windows@, f);
            assert(sk.windows@[wi as int].contains_spec(f));
            assert(sk.windows@[ti].contains_spec(f));
            if ti != wi as int {
                assert(crate::screen::wins_disjoint(sk.windows@[ti], sk.windows@[wi as int]));
                assert(false);
            }
        }
        let s = &mut self.screens[si];
        let w = &mut s.windows[wi];
        w.sink(acts);
        proof {
            let b = self.screens@[si as int].windows@;
            let a = sk.windows@;
            assert forall|j: int| 0 <= j < b.len() implies (#[trigger] b[j]).wf() && b[j].frame
                == a[j].frame && b[j].inner == a[j].inner by {
                assert(a[j].wf());
                if j != wi as int {
                    assert(b[j] == a[j]);
                }
            };
            crate::screen::lemma_windows_wf_transfer(a, b, sk.background);
            crate::screen::lemma_ids_owns_eq(a, b);
            let i0 = choose|i: int|
                0 <= i < old(self).screens@.len() && (#[trigger] old(self).screens@[i]).contains_spec(old(self).focus);
            assert(self.screens@[i0].contains_spec(self.focus)) by {
                if i0 == si as int {
                    assert(owns_win(b, old(self).focus) == owns_win(a, old(self).focus));
                }
            };
            old(self).lemma_one_screen_shrunk_wf(*self, si as int);
        }
        self.refresh_all(acts);
    }

    /// Move the focus one step through the focused screen's cyclic
    /// order and re-run every layout.
    pub fn focus_step_cmd(&mut self, forward: bool, acts: &mut Vec<Action>)
        requires
            old(self).wf(),
        ensures
            final(self).monitor_count == old(self).monitor_count,
            final(self).drag == old(self).drag,
            final(self).screens@.len() == old(self).screens@.len(),
            final(self).wf(),
            final(self).focus == old(self).screens@[old(self).owner_of(
                old(self).focus,
            )].focus_step_target(old(self).focus, forward),
            forall|i: int|
                0 <= i < old(self).screens@.len() ==> (
                #[trigger] final(self).screens@[i]).same_shape(old(self).screens@[i]) && final(self).screens@[i].monitor == old(self).screens@[i].monitor && final(self).screens@[i].background == old(self).screens@[i].background && final(self).screens@[i].windows@ == crate::screen::refresh_windows_fn(
                    old(self).screens@[i].windows@,
                    old(self).screens@[i].monitor,
                    Some(final(self).focus),
                ),
    {
        let si: usize = self.focused_screen_idx();
        proof {
            self.lemma_owner_is(si as int, self.focus);
        }
        let f: Wid = self.focus;
        let f2: Wid = if forward {
            self.screens[si].focus_next(f, acts)
        } else {
            self.screens[si].focus_prev(f, acts)
        };
        self.focus = f2;
        proof {
            old(self).screens@[si as int].lemma_focus_step_contained(f, forward);
            assert(self.screens@[si as int].contains_spec(self.focus));
            old(self).lemma_wf_transfer(*self);
        }
        self.refresh_all(acts);
        proof {
            assert(acts@ =~= old(acts)@ + seq![Action::SetFocus(f2)] + refresh_all_acts(
                old(self).screens@,
                f2,
            ));
        }
    }

    /// Move the focus to the next (or previous) monitor in cyclic
    /// order: that monitor's screen picks its `focus_any` target.  A
    /// no-op when the focused screen has no monitor.
    /// What moving the focus to the next (or previous) monitor does: a
    /// no-op when the focused screen has no monitor; otherwise the
    /// screen showing monitor `(m ± 1) mod monitor_count` picks its
    /// `focus_any` target, the focus request is issued, and every
    /// layout is re-run.
    pub open spec fn focus_monitor_post(
        pre: WinMan,
        post: WinMan,
        forward: bool,
        a0: Seq<Action>,
        a1: Seq<Action>,
    ) -> bool {
        let fsi = pre.owner_of(pre.focus);
        &&& post.monitor_count == pre.monitor_count
        &&& post.drag == pre.drag
        &&& post.screens@.len() == pre.screens@.len()
        &&& (pre.screens@[fsi].monitor is None ==> post == pre && a1 == a0)
        &&& (pre.screens@[fsi].monitor is Some ==> {
            let m = pre.screens@[fsi].monitor.unwrap();
            let next = if forward {
                if m.id + 1 == pre.monitor_count {
                    0int
                } else {
                    m.id + 1
                }
            } else {
                if m.id == 0 {
                    pre.monitor_count - 1
                } else {
                    m.id - 1
                }
            };
            &&& exists|i: int|
                {
                    &&& 0 <= i < pre.screens@.len()
                    &&& (#[trigger] pre.screens@[i]).monitor is Some
                    &&& pre.screens@[i].monitor.unwrap().id == next
                    &&& post.focus == pre.screens@[i].focus_any_target()
                }
            &&& a1 == a0 + seq![Action::SetFocus(post.focus)] + refresh_all_acts(
                pre.screens@,
                post.focus,
            )
            &&& forall|i: int|
                0 <= i < pre.screens@.len() ==> (#[trigger] post.screens@[i]).same_shape(
                    pre.screens@[i],
                ) && post.screens@[i].monitor == pre.screens@[i].monitor
                    && post.screens@[i].background == pre.screens@[i].background
                    && post.screens@[i].windows@ == crate::screen::refresh_windows_fn(
                    pre.screens@[i].windows@,
                    pre.screens@[i].monitor,
                    Some(post.focus),
                )
        })
    }

    /// Move the focus to the next (or previous) monitor in cyclic
    /// order: that monitor's screen picks its `focus_any` target.  A
    /// no-op when the focused screen has no monitor.
    pub fn focus_monitor_step(&mut self, forward: bool, acts: &mut Vec<Action>)
        requires
            old(self).wf(),
        ensures
            final(self).wf(),
            WinMan::focus_monitor_post(
                *old(self),
                *final(self),
                forward,
                old(acts)@,
                final(acts)@,
            ),
    {
        let si: usize = self.focused_screen_idx();
        proof {
            self.lemma_owner_is(si as int, self.focus);
        }
        let m: Monitor = match self.screens[si].monitor() {
            Some(m) => m,
            None => {
                return ;
            },
        };
        proof {
            assert(m.id < self.monitor_count);
        }
        let next: usize = if forward {
            if m.id + 1 == self.monitor_count {
                0
            } else {
                m.id + 1
            }
        } else {
            if m.id == 0 {
                self.monitor_count - 1
            } else {
                m.id - 1
            }
        };
        let ti: usize = self.screen_idx_by_monitor(next);
        let f2: Wid = self.screens[ti].focus_any(acts);
        self.focus = f2;
        proof {
            crate::screen::lemma_focus_any_contained(
                self.screens@[ti as int].windows@,
                self.screens@[ti as int].background,
            );
            assert(self.screens@[ti as int].contains_spec(self.focus));
            old(self).lemma_wf_transfer(*self);
        }
        self.refresh_all(acts);
        proof {
            assert(acts@ =~= old(acts)@ + seq![Action::SetFocus(f2)] + refresh_all_acts(
                old(self).screens@,
                f2,
            ));
        }
    }

    /// A coordinate clamped into the wire's signed 16-bit range.
    pub open spec fn clamp_pos(v: int) -> i32 {
        if v < -0x8000 {
            -0x8000i32
        } else if v > 0x7fff {
            0x7fffi32
        } else {
            v as i32
        }
    }

    /// A size clamped into the wire's unsigned 16-bit range, floored at
    /// one pixel.
    pub open spec fn clamp_size(v: int) -> u32 {
        if v < 1 {
            1u32
        } else if v > 0xffff {
            0xffffu32
        } else {
            v as u32
        }
    }

    /// Who a click on `child` focuses: the window (or background)
    /// answering to it.
    pub open spec fn click_focus_target(self, child: Wid) -> Wid {
        let si = self.owner_of(child);
        let sk = self.screens@[si];
        if owns_win(sk.windows@, child) {
            sk.windows@[the_win_idx(sk.windows@, child)].inner
        } else {
            sk.background.inner
        }
    }

    /// A pointer button went down on `child`: focus it and re-run every
    /// layout.  With the drag modifier held, release the pointer grab
    /// in frozen mode and name the frame the caller should start a drag
    /// on (after it fetched the frame's geometry); without it, replay
    /// the click to the client.  The background cannot be dragged.
    pub fn on_button_press(&mut self, child: Wid, state: u16, acts: &mut Vec<Action>) -> (r: Option<
        Wid,
    >)
        requires
            old(self).wf(),
        ensures
            final(self).monitor_count == old(self).monitor_count,
            final(self).drag == old(self).drag,
            final(self).screens@.len() == old(self).screens@.len(),
            final(self).wf(),
            final(self).focus == (if old(self).some_owner_of(child) {
                old(self).click_focus_target(child)
            } else {
                old(self).focus
            }),
            forall|i: int|
                0 <= i < old(self).screens@.len() ==> {
                    &&& (#[trigger] final(self).screens@[i]).same_shape(old(self).screens@[i])
                    &&& final(self).screens@[i].monitor == old(self).screens@[i].monitor
                    &&& final(self).screens@[i].background == old(self).screens@[i].background
                    &&& final(self).screens@[i].windows@ == (if old(self).some_owner_of(child) {
                        old(self).screens@[i].refresh_windows_spec(Some(final(self).focus))
                    } else {
                        old(self).screens@[i].windows@
                    })
                },
            r == (if state & MOD_ALT != 0 && old(self).some_owner_of(child) && owns_win(
                old(self).screens@[old(self).owner_of(child)].windows@,
                child,
            ) {
                Some(
                    old(self).screens@[old(self).owner_of(child)].windows@[the_win_idx(
                        old(self).screens@[old(self).owner_of(child)].windows@,
                        child,
                    )].frame,
                )
            } else {
                None::<Wid>
            }),
            final(acts)@ == old(acts)@ + (if old(self).some_owner_of(child) {
                seq![Action::SetFocus(final(self).focus)] + refresh_all_acts(
                    old(self).screens@,
                    final(self).focus,
                )
            } else {
                Seq::<Action>::empty()
            }) + (if state & MOD_ALT != 0 {
                seq![Action::AllowEventsSync]
            } else {
                seq![Action::AllowEventsReplay]
            }),
    {
        let mut target: Option<Wid> = None;
        let si_opt: Option<usize> = self.container_of(child);
        if let Some(si) = si_opt {
            proof {
                let oi = old(self).owner_of(child);
                assert(old(self).screens@[oi].contains_spec(child));
                if oi != si as int {
                    if oi < si as int {
                        assert(screens_disjoint(
                            old(self).screens@[oi],
                            old(self).screens@[si as int],
                        ));
                    } else {
                        assert(screens_disjoint(
                            old(self).screens@[si as int],
                            old(self).screens@[oi],
                        ));
                    }
                    assert(false);
                }
            }
            let ghost sk = old(self).screens@[si as int];
            let f2: Wid;
            match self.screens[si].window_index(child) {
                Some(wi) => {
                    proof {
                        let ti = the_win_idx(sk.windows@, child);
                        assert(sk.windows@[wi as int].contains_spec(child));
                        assert(sk.windows@[ti].contains_spec(child));
                        if ti != wi as int {
                            assert(crate::screen::wins_disjoint(
                                sk.windows@[ti],
                                sk.windows@[wi as int],
                            ));
                            assert(false);
                        }
                    }
                    f2 = self.screens[si].windows[wi].focus(acts);
                    if state & MOD_ALT != 0 {
                        target = Some(self.screens[si].windows[wi].frame);
                    }
                    proof {
                        assert(self.screens@[si as int].windows@[wi as int].contains_spec(f2));
                        assert(owns_win(self.screens@[si as int].windows@, f2));
                    }
                },
                None => {
                    f2 = self.screens[si].background.focus(acts);
                },
            }
            self.focus = f2;
            proof {
                assert(self.screens@[si as int].contains_spec(self.focus));
                old(self).lemma_wf_transfer(*self);
            }
            self.refresh_all(acts);
        }
        if state & MOD_ALT != 0 {
            acts.push(Action::AllowEventsSync);
        } else {
            acts.push(Action::AllowEventsReplay);
        }
        proof {
            if old(self).some_owner_of(child) {
                assert(acts@ =~= old(acts)@ + (seq![Action::SetFocus(self.focus)]
                    + refresh_all_acts(old(self).screens@, self.focus)) + (if state & MOD_ALT != 0 {
                    seq![Action::AllowEventsSync]
                } else {
                    seq![Action::AllowEventsReplay]
                }));
            }
        }
        target
    }

    /// Start a pointer drag on a frame whose geometry the caller just
    /// fetched: the window becomes floating at its current position
    /// (relative to its monitor) and the drag state records the
    /// starting geometry.  A no-op if the frame is not a client window
    /// of an attached screen.
    pub fn begin_drag(
        &mut self,
        frame: Wid,
        root_x: i32,
        root_y: i32,
        geo: Rect,
        acts: &mut Vec<Action>,
    )
        requires
            old(self).wf(),
            geo.wf(),
            -0x8000 <= root_x <= 0x7fff,
            -0x8000 <= root_y <= 0x7fff,
        ensures
            final(self).monitor_count == old(self).monitor_count,
            final(self).focus == old(self).focus,
            final(self).screens@.len() == old(self).screens@.len(),
            final(self).wf(),
            (old(self).some_owner_of(frame) && old(self).screens@[old(self).owner_of(
                frame,
            )].monitor is Some && owns_win(
                old(self).screens@[old(self).owner_of(frame)].windows@,
                frame,
            )) ==> {
                let si = old(self).owner_of(frame);
                let sk = old(self).screens@[si];
                let m = sk.monitor.unwrap();
                let ti = the_win_idx(sk.windows@, frame);
                let rel = Rect {
                    x: WinMan::clamp_pos(geo.x - m.rect.x),
                    y: WinMan::clamp_pos(geo.y - m.rect.y),
                    w: geo.w,
                    h: geo.h,
                };
                &&& final(self).drag == Some(
                    MouseDrag { frame, start_x: root_x, start_y: root_y, start: geo, cur: geo },
                )
                &&& forall|i: int|
                    0 <= i < old(self).screens@.len() ==> (
                    #[trigger] final(self).screens@[i]).same_shape(old(self).screens@[i])
                        && final(self).screens@[i].monitor == old(self).screens@[i].monitor
                        && final(self).screens@[i].background == old(self).screens@[i].background
                &&& final(self).screens@[si].windows@ == crate::screen::refresh_windows_fn(
                    sk.windows@.update(ti, sk.windows@[ti].after_float(rel)),
                    sk.monitor,
                    Some(old(self).focus),
                )
                &&& forall|i: int|
                    0 <= i < old(self).screens@.len() && i != si
                        ==> #[trigger] final(self).screens@[i].windows@
                        == crate::screen::refresh_windows_fn(
                        old(self).screens@[i].windows@,
                        old(self).screens@[i].monitor,
                        Some(old(self).focus),
                    )
            },
            !(old(self).some_owner_of(frame) && old(self).screens@[old(self).owner_of(
                frame,
            )].monitor is Some && owns_win(
                old(self).screens@[old(self).owner_of(frame)].windows@,
                frame,
            )) ==> *final(self) == *old(self) && final(acts)@ == old(acts)@,
    {
        let si: usize = match self.container_of(frame) {
            Some(si) => si,
            None => {
                return ;
            },
        };
        proof {
            let oi = old(self).owner_of(frame);
            assert(old(self).screens@[oi].contains_spec(frame));
            if oi != si as int {
                if oi < si as int {
                    assert(screens_disjoint(old(self).screens@[oi], old(self).screens@[si as int]));
                } else {
                    assert(screens_disjoint(old(self).screens@[si as int], old(self).screens@[oi]));
                }
                assert(false);
            }
        }
        let m: Monitor = match self.screens[si].monitor() {
            Some(m) => m,
            None => {
                return ;
            },
        };
        let ghost sk = old(self).screens@[si as int];
        let wi: usize = match self.screens[si].window_index(frame) {
            Some(wi) => wi,
            None => {
                return ;
            },
        };
        proof {
            let ti = the_win_idx(sk.windows@, frame);
            assert(sk.windows@[wi as int].contains_spec(frame));
            assert(sk.windows@[ti].contains_spec(frame));
            if ti != wi as int {
                assert(crate::screen::wins_disjoint(sk.windows@[ti], sk.windows@[wi as int]));
                assert(false);
            }
        }
        let rel_x: i32 = if geo.x - m.rect.x < -0x8000 {
            -0x8000
        } else if geo.x - m.rect.x > 0x7fff {
            0x7fff
        } else {
            geo.x - m.rect.x
        };
        let rel_y: i32 = if geo.y - m.rect.y < -0x8000 {
            -0x8000
        } else if geo.y - m.rect.y > 0x7fff {
            0x7fff
        } else {
            geo.y - m.rect.y
        };
        let rel = Rect { x: rel_x, y: rel_y, w: geo.w, h: geo.h };
        let s = &mut self.screens[si];
        let w = &mut s.windows[wi];
        w.float(rel, acts);
        self.drag = Some(MouseDrag { frame, start_x: root_x, start_y: root_y, start: geo, cur: geo });
        proof {
            let b = self.screens@[si as int].windows@;
            let a = sk.windows@;
            assert(b == a.update(wi as int, a[wi as int].after_float(rel)));
            assert forall|j: int| 0 <= j < b.len() implies (#[trigger] b[j]).wf() && b[j].frame
                == a[j].frame && b[j].inner == a[j].inner by {
                assert(a[j].wf());
                if j != wi as int {
                    assert(b[j] == a[j]);
                }
            };
            crate::screen::lemma_windows_wf_transfer(a, b, sk.background);
            crate::screen::lemma_ids_owns_eq(a, b);
            let i0 = choose|i: int|
                0 <= i < old(self).screens@.len() && (#[trigger] old(self).screens@[i]).contains_spec(old(self).focus);
            assert(self.screens@[i0].contains_spec(self.focus)) by {
                if i0 == si as int {
                    assert(owns_win(b, old(self).focus) == owns_win(a, old(self).focus));
                }
            };
            old(self).lemma_one_screen_shrunk_wf(*self, si as int);
        }
        self.refresh_all(acts);
    }

    /// The pointer moved during a drag: with the primary button held,
    /// translate the frame; with the secondary button, resize it with a
    /// one-pixel floor.  Without the drag modifier and a button, or
    /// without an active drag, nothing happens.  A vanished drag target
    /// is a benign no-op.
    pub fn on_motion(&mut self, state: u16, root_x: i32, root_y: i32, acts: &mut Vec<Action>)
        requires
            old(self).wf(),
            -0x8000 <= root_x <= 0x7fff,
            -0x8000 <= root_y <= 0x7fff,
        ensures
            final(self).screens@ == old(self).screens@,
            final(self).monitor_count == old(self).monitor_count,
            final(self).focus == old(self).focus,
            final(self).wf(),
            (state & MOD_ALT == 0 || state & (BUTTON1_MASK | BUTTON3_MASK) == 0 || old(self).drag is None) ==> *final(self) == *old(self) && final(acts)@ == old(acts)@,
            (state & MOD_ALT != 0 && state & (BUTTON1_MASK | BUTTON3_MASK) != 0 && old(self).drag is Some) ==> {
                let d = old(self).drag.unwrap();
                let dx = root_x - d.start_x;
                let dy = root_y - d.start_y;
                let known = old(self).some_owner_of(d.frame) && owns_win(
                    old(self).screens@[old(self).owner_of(d.frame)].windows@,
                    d.frame,
                );
                if state & BUTTON1_MASK != 0 {
                    let nx = WinMan::clamp_pos(d.start.x + dx);
                    let ny = WinMan::clamp_pos(d.start.y + dy);
                    &&& final(self).drag == Some(
                        MouseDrag { cur: Rect { x: nx, y: ny, w: d.cur.w, h: d.cur.h }, ..d },
                    )
                    &&& final(acts)@ == old(acts)@ + (if known {
                        seq![
                            Action::MoveWid {
                                wid: old(self).screens@[old(self).owner_of(d.frame)].windows@[
                                    the_win_idx(
                                        old(self).screens@[old(self).owner_of(d.frame)].windows@,
                                        d.frame,
                                    )
                                ].frame,
                                x: nx,
                                y: ny,
                            },
                        ]
                    } else {
                        Seq::<Action>::empty()
                    })
                } else {
                    let nw = WinMan::clamp_size(d.start.w + dx);
                    let nh = WinMan::clamp_size(d.start.h + dy);
                    &&& final(self).drag == Some(
                        MouseDrag { cur: Rect { x: d.cur.x, y: d.cur.y, w: nw, h: nh }, ..d },
                    )
                    &&& final(acts)@ == old(acts)@ + (if known {
                        old(self).screens@[old(self).owner_of(d.frame)].windows@[the_win_idx(
                            old(self).screens@[old(self).owner_of(d.frame)].windows@,
                            d.frame,
                        )].resize_acts(nw, nh)
                    } else {
                        Seq::<Action>::empty()
                    })
                }
            },
    {
        if state & MOD_ALT == 0 || state & (BUTTON1_MASK | BUTTON3_MASK) == 0 {
            return ;
        }
        let d: MouseDrag = match self.drag {
            Some(d) => d,
            None => {
                return ;
            },
        };
        proof {
            assert(d.start.wf() && d.cur.wf());
            assert(-0x8000 <= d.start_x <= 0x7fff && -0x8000 <= d.start_y <= 0x7fff);
        }
        let dx: i32 = root_x - d.start_x;
        let dy: i32 = root_y - d.start_y;
        let si_opt: Option<usize> = self.container_of(d.frame);
        let wi_opt: Option<(usize, usize)> = match si_opt {
            Some(si) => match self.screens[si].window_index(d.frame) {
                Some(wi) => Some((si, wi)),
                None => None,
            },
            None => None,
        };
        proof {
            if old(self).some_owner_of(d.frame) {
                let oi = old(self).owner_of(d.frame);
                assert(old(self).screens@[oi].contains_spec(d.frame));
                match si_opt {
                    Some(si) => {
                        if oi != si as int {
                            if oi < si as int {
                                assert(screens_disjoint(
                                    old(self).screens@[oi],
                                    old(self).screens@[si as int],
                                ));
                            } else {
                                assert(screens_disjoint(
                                    old(self).screens@[si as int],
                                    old(self).screens@[oi],
                                ));
                            }
                            assert(false);
                        }
                        match wi_opt {
                            Some((si2, wi)) => {
                                let sk = old(self).screens@[oi];
                                let ti = the_win_idx(sk.windows@, d.frame);
                                assert(sk.windows@[wi as int].contains_spec(d.frame));
                                assert(sk.windows@[ti].contains_spec(d.frame));
                                if ti != wi as int {
                                    assert(crate::screen::wins_disjoint(
                                        sk.windows@[ti],
                                        sk.windows@[wi as int],
                                    ));
                                    assert(false);
                                }
                            },
                            None => {
                                assert(!owns_win(old(self).screens@[oi].windows@, d.frame));
                            },
                        }
                    },
                    None => {
                        assert(false);
                    },
                }
            } else {
                assert(si_opt is None || wi_opt is None) by {
                    if si_opt is Some {
                        let si = si_opt.unwrap();
                        if wi_opt is Some {
                            assert(owns_win(self.screens@[si as int].windows@, d.frame));
                            assert(old(self).some_owner_of(d.frame));
                        }
                    }
                };
            }
        }
        if state & BUTTON1_MASK != 0 {
            let nx: i32 = if d.start.x + dx < -0x8000 {
                -0x8000
            } else if d.start.x + dx > 0x7fff {
                0x7fff
            } else {
                d.start.x + dx
            };
            let ny: i32 = if d.start.y + dy < -0x8000 {
                -0x8000
            } else if d.start.y + dy > 0x7fff {
                0x7fff
            } else {
                d.start.y + dy
            };
            if let Some((si, wi)) = wi_opt {
                self.screens[si].windows[wi].move_to(nx, ny, acts);
            }
            self.drag = Some(
                MouseDrag { cur: Rect { x: nx, y: ny, w: d.cur.w, h: d.cur.h }, ..d },
            );
        } else {
            let wsum: i64 = d.start.w as i64 + dx as i64;
            let hsum: i64 = d.start.h as i64 + dy as i64;
            let nw: u32 = if wsum < 1 {
                1
            } else if wsum > 0xffff {
                0xffff
            } else {
                wsum as u32
            };
            let nh: u32 = if hsum < 1 {
                1
            } else if hsum > 0xffff {
                0xffff
            } else {
                hsum as u32
            };
            if let Some((si, wi)) = wi_opt {
                self.screens[si].windows[wi].resize(nw, nh, acts);
            }
            self.drag = Some(
                MouseDrag { cur: Rect { x: d.cur.x, y: d.cur.y, w: nw, h: nh }, ..d },
            );
        }
        proof {
            old(self).lemma_wf_transfer(*self);
        }
    }

    /// The drag ended: commit the frame's final geometry (relative to
    /// its monitor's origin) as the window's floating rectangle and
    /// clear the drag.  A vanished or no-longer-floating target only
    /// clears the drag.
    pub fn on_button_release(&mut self, acts: &mut Vec<Action>)
        requires
            old(self).wf(),
        ensures
            final(self).monitor_count == old(self).monitor_count,
            final(self).focus == old(self).focus,
            final(self).screens@.len() == old(self).screens@.len(),
            final(self).drag is None,
            final(self).wf(),
            old(self).drag is None ==> *final(self) == *old(self) && final(acts)@ == old(acts)@,
            (old(self).drag is Some && {
                let d = old(self).drag.unwrap();
                old(self).some_owner_of(d.frame) && old(self).screens@[old(self).owner_of(
                    d.frame,
                )].monitor is Some && owns_win(
                    old(self).screens@[old(self).owner_of(d.frame)].windows@,
                    d.frame,
                ) && old(self).screens@[old(self).owner_of(d.frame)].windows@[the_win_idx(
                    old(self).screens@[old(self).owner_of(d.frame)].windows@,
                    d.frame,
                )].is_floating_spec()
            }) ==> {
                let d = old(self).drag.unwrap();
                let si = old(self).owner_of(d.frame);
                let sk = old(self).screens@[si];
                let m = sk.monitor.unwrap();
                let ti = the_win_idx(sk.windows@, d.frame);
                let rel = Rect {
                    x: WinMan::clamp_pos(d.cur.x - m.rect.x),
                    y: WinMan::clamp_pos(d.cur.y - m.rect.y),
                    w: d.cur.w,
                    h: d.cur.h,
                };
                &&& final(self).screens@[si].windows@ == crate::screen::refresh_windows_fn(
                    sk.windows@.update(
                        ti,
                        (Window { float_geometry: Some(rel), ..sk.windows@[ti] }),
                    ),
                    sk.monitor,
                    Some(old(self).focus),
                )
                &&& forall|i: int|
                    0 <= i < old(self).screens@.len() && i != si
                        ==> #[trigger] final(self).screens@[i].windows@
                        == crate::screen::refresh_windows_fn(
                        old(self).screens@[i].windows@,
                        old(self).screens@[i].monitor,
                        Some(old(self).focus),
                    )
            },
    {
        let d: MouseDrag = match self.drag {
            Some(d) => d,
            None => {
                return ;
            },
        };
        self.drag = None;
        let si: usize = match self.container_of(d.frame) {
            Some(si) => si,
            None => {
                proof {
                    old(self).lemma_wf_transfer(*self);
                }
                return ;
            },
        };
        proof {
            let oi = old(self).owner_of(d.frame);
            assert(old(self).screens@[oi].contains_spec(d.frame));
            if oi != si as int {
                if oi < si as int {
                    assert(screens_disjoint(old(self).screens@[oi], old(self).screens@[si as int]));
                } else {
                    assert(screens_disjoint(old(self).screens@[si as int], old(self).screens@[oi]));
                }
                assert(false);
            }
        }
        let m: Monitor = match self.screens[si].monitor() {
            Some(m) => m,
            None => {
                proof {
                    old(self).lemma_wf_transfer(*self);
                }
                return ;
            },
        };
        let ghost sk = old(self).screens@[si as int];
        let wi: usize = match self.screens[si].window_index(d.frame) {
            Some(wi) => wi,
            None => {
                proof {
                    old(self).lemma_wf_transfer(*self);
                }
                return ;
            },
        };
        proof {
            let ti = the_win_idx(sk.windows@, d.frame);
            assert(sk.windows@[wi as int].contains_spec(d.frame));
            assert(sk.windows@[ti].contains_spec(d.frame));
            if ti != wi as int {
                assert(crate::screen::wins_disjoint(sk.windows@[ti], sk.windows@[wi as int]));
                assert(false);
            }
        }
        if !self.screens[si].windows[wi].is_floating() {
            proof {
                old(self).lemma_wf_transfer(*self);
            }
            return ;
        }
        proof {
            assert(d.cur.wf());
        }
        let rel_x: i32 = if d.cur.x - m.rect.x < -0x8000 {
            -0x8000
        } else if d.cur.x - m.rect.x > 0x7fff {
            0x7fff
        } else {
            d.cur.x - m.rect.x
        };
        let rel_y: i32 = if d.cur.y - m.rect.y < -0x8000 {
            -0x8000
        } else if d.cur.y - m.rect.y > 0x7fff {
            0x7fff
        } else {
            d.cur.y - m.rect.y
        };
        let rel = Rect { x: rel_x, y: rel_y, w: d.cur.w, h: d.cur.h };
        let s = &mut self.screens[si];
        let w = &mut s.windows[wi];
        w.set_float_geometry(rel);
        proof {
            let b = self.screens@[si as int].windows@;
            let a = sk.windows@;
            assert forall|j: int| 0 <= j < b.len() implies (#[trigger] b[j]).wf() && b[j].frame
                == a[j].frame && b[j].inner == a[j].inner by {
                assert(a[j].wf());
                if j != wi as int {
                    assert(b[j] == a[j]);
                }
            };
            crate::screen::lemma_windows_wf_transfer(a, b, sk.background);
            crate::screen::lemma_ids_owns_eq(a, b);
            let i0 = choose|i: int|
                0 <= i < old(self).screens@.len() && (#[trigger] old(self).screens@[i]).contains_spec(old(self).focus);
            assert(self.screens@[i0].contains_spec(self.focus)) by {
                if i0 == si as int {
                    assert(owns_win(b, old(self).focus) == owns_win(a, old(self).focus));
                }
            };
            old(self).lemma_one_screen_shrunk_wf(*self, si as int);
        }
        self.refresh_all(acts);
    }

    /// Well-formedness after the focused screen handed its monitor to a
    /// parked screen and that screen's `focus_any` choice took the
    /// focus.
    proof fn lemma_switch_park_wf(self, pre: WinMan, si: int, id: int, m: Monitor)
        requires
            pre.wf(),
            0 <= si < pre.screens@.len(),
            0 <= id < pre.screens@.len(),
            si != id,
            pre.screens@[si].monitor == Some(m),
            pre.screens@[id].monitor is None,
            self.screens@.len() == pre.screens@.len(),
            self.monitor_count == pre.monitor_count,
            forall|j: int|
                0 <= j < self.screens@.len() && j != si && j != id ==> #[trigger] self.screens@[j]
                    == pre.screens@[j],
            self.screens@[si].wf(),
            self.screens@[id].wf(),
            self.screens@[si].id == pre.screens@[si].id,
            self.screens@[id].id == pre.screens@[id].id,
            self.screens@[si].monitor is None,
            self.screens@[id].monitor == Some(m),
            self.screens@[si].background == pre.screens@[si].background.after_unmap(),
            self.screens@[id].background == pre.screens@[id].background.after_map(),
            self.screens@[si].windows@ == concealed_all(pre.screens@[si].windows@),
            self.screens@[id].windows@ == shown_all(pre.screens@[id].windows@),
            self.focus == focus_any_fn(self.screens@[id].windows@, self.screens@[id].background),
            self.drag_wf(),
        ensures
            self.wf(),
    {
        assert forall|i: int, w: Wid|
            0 <= i < self.screens@.len() implies (#[trigger] self.screens@[i].contains_spec(w))
            == pre.screens@[i].contains_spec(w) by {
            if i == si || i == id {
                crate::screen::lemma_park_ids(pre.screens@[i].windows@);
                crate::screen::lemma_ids_owns_eq(pre.screens@[i].windows@, self.screens@[i].windows@);
            }
        };
        crate::screen::lemma_focus_any_contained(
            self.screens@[id].windows@,
            self.screens@[id].background,
        );
        assert(self.screens@[id].contains_spec(self.focus));
        assert(self.mon_wf()) by {
            assert forall|i: int|
                0 <= i < self.screens@.len() && (#[trigger] self.screens@[i]).monitor
                    is Some implies self.screens@[i].monitor.unwrap().id < self.monitor_count by {
                if i != id {
                    assert(self.screens@[i].monitor == pre.screens@[i].monitor);
                } else {
                    assert(pre.screens@[si].monitor.unwrap().id < pre.monitor_count);
                }
            };
            assert forall|i: int, j: int|
                0 <= i < j < self.screens@.len() && self.screens@[i].monitor is Some
                    && self.screens@[j].monitor is Some implies (
            #[trigger] self.screens@[i]).monitor.unwrap().id != (
            #[trigger] self.screens@[j]).monitor.unwrap().id by {
                let pi = if i == id {
                    si
                } else {
                    i
                };
                let pj = if j == id {
                    si
                } else {
                    j
                };
                assert(self.screens@[i].monitor == pre.screens@[pi].monitor);
                assert(self.screens@[j].monitor == pre.screens@[pj].monitor);
                if pi < pj {
                    assert(pre.screens@[pi].monitor.unwrap().id != pre.screens@[
                    pj].monitor.unwrap().id);
                } else {
                    assert(pre.screens@[pj].monitor.unwrap().id != pre.screens@[
                    pi].monitor.unwrap().id);
                }
            };
            assert forall|m2: int|
                0 <= m2 < self.monitor_count implies #[trigger] self.has_monitor(m2) by {
                assert(pre.has_monitor(m2));
                let i = choose|i: int|
                    0 <= i < pre.screens@.len() && (#[trigger] pre.screens@[i]).monitor is Some
                        && pre.screens@[i].monitor.unwrap().id == m2;
                if i == si {
                    assert(self.screens@[id].monitor is Some
                        && self.screens@[id].monitor.unwrap().id == m2);
                } else {
                    assert(self.screens@[i].monitor is Some && self.screens@[
                    i].monitor.unwrap().id == m2);
                }
            };
        };
        pre.lemma_wf_screens_transfer(self);
    }

    /// Well-formedness after two screens traded their monitors and the
    /// target's `focus_any` choice took the focus.
    proof fn lemma_switch_swap_wf(self, pre: WinMan, si: int, id: int)
        requires
            pre.wf(),
            0 <= si < pre.screens@.len(),
            0 <= id < pre.screens@.len(),
            si != id,
            self.screens@.len() == pre.screens@.len(),
            self.monitor_count == pre.monitor_count,
            forall|j: int|
                0 <= j < self.screens@.len() && j != si && j != id ==> #[trigger] self.screens@[j]
                    == pre.screens@[j],
            self.screens@[si] == (Screen { monitor: pre.screens@[id].monitor, ..pre.screens@[si] }),
            self.screens@[id] == (Screen { monitor: pre.screens@[si].monitor, ..pre.screens@[id] }),
            self.focus == focus_any_fn(self.screens@[id].windows@, self.screens@[id].background),
            self.drag_wf(),
        ensures
            self.wf(),
    {
        assert forall|i: int, w: Wid|
            0 <= i < self.screens@.len() implies (#[trigger] self.screens@[i].contains_spec(w))
            == pre.screens@[i].contains_spec(w) by {};
        crate::screen::lemma_focus_any_contained(
            self.screens@[id].windows@,
            self.screens@[id].background,
        );
        assert(self.screens@[id].contains_spec(self.focus));
        assert(self.mon_wf()) by {
            assert forall|i: int|
                0 <= i < self.screens@.len() && (#[trigger] self.screens@[i]).monitor
                    is Some implies self.screens@[i].monitor.unwrap().id < self.monitor_count by {
                let pi = if i == id {
                    si
                } else if i == si {
                    id
                } else {
                    i
                };
                assert(self.screens@[i].monitor == pre.screens@[pi].monitor);
            };
            assert forall|i: int, j: int|
                0 <= i < j < self.screens@.len() && self.screens@[i].monitor is Some
                    && self.screens@[j].monitor is Some implies (
            #[trigger] self.screens@[i]).monitor.unwrap().id != (
            #[trigger] self.screens@[j]).monitor.unwrap().id by {
                let pi = if i == id {
                    si
                } else if i == si {
                    id
                } else {
                    i
                };
                let pj = if j == id {
                    si
                } else if j == si {
                    id
                } else {
                    j
                };
                assert(self.screens@[i].monitor == pre.screens@[pi].monitor);
                assert(self.screens@[j].monitor == pre.screens@[pj].monitor);
                assert(pi != pj);
                if pi < pj {
                    assert(pre.screens@[pi].monitor.unwrap().id != pre.screens@[
                    pj].monitor.unwrap().id);
                } else {
                    assert(pre.screens@[pj].monitor.unwrap().id != pre.screens@[
                    pi].monitor.unwrap().id);
                }
            };
            assert forall|m2: int|
                0 <= m2 < self.monitor_count implies #[trigger] self.has_monitor(m2) by {
                assert(pre.has_monitor(m2));
                let i = choose|i: int|
                    0 <= i < pre.screens@.len() && (#[trigger] pre.screens@[i]).monitor is Some
                        && pre.screens@[i].monitor.unwrap().id == m2;
                let ni = if i == si {
                    id
                } else if i == id {
                    si
                } else {
                    i
                };
                assert(self.screens@[ni].monitor == pre.screens@[i].monitor);
                assert(self.screens@[ni].monitor is Some && self.screens@[
                ni].monitor.unwrap().id == m2);
            };
        };
        pre.lemma_wf_screens_transfer(self);
    }

    pub open spec fn adopted_base(
        inner: Wid,
        frame: Wid,
        state: crate::window::WindowState,
        border_width: u32,
        wm_delete: bool,
    ) -> Window {
        Window {
            inner,
            frame,
            state,
            hidden: false,
            ignore_unmaps: 0,
            float_geometry: None,
            frame_visible: false,
            highlighted: false,
            border_width,
            wm_delete,
        }
    }

    /// The window value a freshly adopted client starts from.
    pub open spec fn adopted_window(
        inner: Wid,
        frame: Wid,
        state: crate::window::WindowState,
        border_width: u32,
        wm_delete: bool,
        float_rect: Option<Rect>,
        map_now: bool,
    ) -> Window {
        let w0 = WinMan::adopted_base(inner, frame, state, border_width, wm_delete);
        let w1 = match float_rect {
            Some(r) => w0.after_float(r),
            None => w0,
        };
        if map_now {
            w1.after_map()
        } else {
            w1
        }
    }

    /// The requests emitted while wrapping, floating and mapping a
    /// freshly adopted client window.
    pub open spec fn adopt_acts(
        inner: Wid,
        frame: Wid,
        state: crate::window::WindowState,
        border_width: u32,
        wm_delete: bool,
        float_rect: Option<Rect>,
        map_now: bool,
    ) -> Seq<Action> {
        let w0 = WinMan::adopted_base(inner, frame, state, border_width, wm_delete);
        let w1 = match float_rect {
            Some(r) => w0.after_float(r),
            None => w0,
        };
        (if state == crate::window::WindowState::Mapped {
            seq![Action::MapWid(frame), Action::MapWid(inner)]
        } else {
            Seq::<Action>::empty()
        }) + (match float_rect {
            Some(_) => w0.float_acts(),
            None => Seq::<Action>::empty(),
        }) + (if map_now {
            w1.map_acts()
        } else {
            Seq::<Action>::empty()
        })
    }

    /// Wrap, optionally float, and optionally map a fresh client
    /// window.  Returns the window and the focus it grabbed, if any.
    fn build_adopted(
        inner: Wid,
        frame: Wid,
        state: crate::window::WindowState,
        border_width: u32,
        wm_delete: bool,
        float_rect: Option<Rect>,
        map_now: bool,
        acts: &mut Vec<Action>,
    ) -> (r: (Window, Option<Wid>))
        requires
            inner != frame,
            border_width <= 0xff,
            match float_rect {
                Some(r) => r.wf(),
                None => true,
            },
        ensures
            r.0 == WinMan::adopted_window(
                inner,
                frame,
                state,
                border_width,
                wm_delete,
                float_rect,
                map_now,
            ),
            r.0.wf(),
            r.1 == (if map_now && state == crate::window::WindowState::Created {
                Some(inner)
            } else {
                None::<Wid>
            }),
            final(acts)@ == old(acts)@ + WinMan::adopt_acts(
                inner,
                frame,
                state,
                border_width,
                wm_delete,
                float_rect,
                map_now,
            ),
    {
        let mut win: Window = Window::new(inner, frame, state, border_width, wm_delete, acts);
        if let Some(r) = float_rect {
            win.float(r, acts);
        }
        let nf: Option<Wid> = if map_now {
            win.map(acts)
        } else {
            None
        };
        proof {
            assert(acts@ =~= old(acts)@ + WinMan::adopt_acts(
                inner,
                frame,
                state,
                border_width,
                wm_delete,
                float_rect,
                map_now,
            ));
        }
        (win, nf)
    }

    /// Adopt a freshly framed client window: wrap its two ids, float it
    /// if it is a dialog, map it if asked (a first map out of `Created`
    /// grabs the focus), and add it to the chosen screen.  The ids must
    /// be new to every screen; a screen at id-space capacity ignores
    /// the request.
    #[verifier::rlimit(100)]
    pub fn manage_window(
        &mut self,
        screen_idx: usize,
        inner: Wid,
        frame: Wid,
        state: crate::window::WindowState,
        border_width: u32,
        wm_delete: bool,
        float_rect: Option<Rect>,
        map_now: bool,
        acts: &mut Vec<Action>,
    )
        requires
            old(self).wf(),
            screen_idx < old(self).screens@.len(),
            inner != frame,
            border_width <= 0xff,
            match float_rect {
                Some(r) => r.wf(),
                None => true,
            },
            forall|i: int|
                0 <= i < old(self).screens@.len() ==> !(#[trigger] old(self).screens@[i]).contains_spec(inner) && !old(self).screens@[i].contains_spec(frame),
        ensures
            final(self).monitor_count == old(self).monitor_count,
            final(self).drag == old(self).drag,
            final(self).screens@.len() == old(self).screens@.len(),
            old(self).screens@[screen_idx as int].windows@.len() >= 0xfffe ==> *final(self) == *old(
                self,
            ) && final(acts)@ == old(acts)@,
            old(self).screens@[screen_idx as int].windows@.len() < 0xfffe ==> {
                let w2 = WinMan::adopted_window(
                    inner,
                    frame,
                    state,
                    border_width,
                    wm_delete,
                    float_rect,
                    map_now,
                );
                let sk = old(self).screens@[screen_idx as int];
                let w3 = sk.add_prepared(w2);
                let fnew = if map_now && state == crate::window::WindowState::Created {
                    inner
                } else {
                    old(self).focus
                };
                &&& final(self).focus == fnew
                &&& forall|j: int|
                    0 <= j < old(self).screens@.len() && j != screen_idx
                        ==> final(self).screens@[j] == old(self).screens@[j]
                &&& (#[trigger] final(self).screens@[screen_idx as int]).same_shape(sk)
                &&& final(self).screens@[screen_idx as int].monitor == sk.monitor
                &&& final(self).screens@[screen_idx as int].background == sk.background
                &&& exists|p: int|
                    {
                        &&& #[trigger] Screen::is_insert_pos(sk.windows@, frame, p)
                        &&& final(self).screens@[screen_idx as int].windows@
                            == crate::screen::refresh_windows_fn(
                            sk.windows@.insert(p, w3),
                            sk.monitor,
                            Some(fnew),
                        )
                        &&& final(acts)@ == old(acts)@ + WinMan::adopt_acts(
                            inner,
                            frame,
                            state,
                            border_width,
                            wm_delete,
                            float_rect,
                            map_now,
                        ) + (if sk.monitor is None && w2.is_mapped_spec() {
                            w2.conceal_acts()
                        } else {
                            Seq::<Action>::empty()
                        }) + crate::screen::refresh_acts_fn(
                            sk.windows@.insert(p, w3),
                            sk.monitor,
                            sk.background,
                            sk.active_kind(),
                            sk.border_visible,
                            sk.border_width,
                            sk.id,
                            Some(fnew),
                        )
                    }
            },
            final(self).wf(),
    {
        if self.screens[screen_idx].windows.len() >= 0xfffe {
            return ;
        }
        let (win, grabbed) = WinMan::build_adopted(
            inner,
            frame,
            state,
            border_width,
            wm_delete,
            float_rect,
            map_now,
            acts,
        );
        if let Some(f2) = grabbed {
            self.focus = f2;
        }
        let ghost fnew = self.focus;
        let ghost sk = old(self).screens@[screen_idx as int];
        let s = &mut self.screens[screen_idx];
        s.add_window(win, Some(self.focus), acts);
        proof {
            let w2 = WinMan::adopted_window(
                inner,
                frame,
                state,
                border_width,
                wm_delete,
                float_rect,
                map_now,
            );
            assert(!sk.add_rejected(w2)) by {
                if owns_win(sk.windows@, w2.frame) {
                    let i = choose|i: int|
                        0 <= i < sk.windows@.len() && #[trigger] sk.windows@[i].contains_spec(
                            w2.frame,
                        );
                }
                if owns_win(sk.windows@, w2.inner) {
                    let i = choose|i: int|
                        0 <= i < sk.windows@.len() && #[trigger] sk.windows@[i].contains_spec(
                            w2.inner,
                        );
                }
            };
            WinMan::lemma_adopted_insert_wf(*old(self), *self, screen_idx as int, w2, fnew);
        }
    }

    /// The coordinator stays well-formed after one screen adopted a
    /// window with globally fresh ids.
    proof fn lemma_adopted_insert_wf(pre: WinMan, post: WinMan, screen_idx: int, w2: Window, fnew: Wid)
        requires
            pre.wf(),
            0 <= screen_idx < pre.screens@.len(),
            post.screens@.len() == pre.screens@.len(),
            post.monitor_count == pre.monitor_count,
            post.focus == fnew,
            fnew == pre.focus || fnew == w2.inner,
            w2.wf(),
            forall|j: int|
                0 <= j < post.screens@.len() && j != screen_idx ==> #[trigger] post.screens@[j]
                    == pre.screens@[j],
            post.screens@[screen_idx].wf(),
            post.screens@[screen_idx].id == pre.screens@[screen_idx].id,
            post.screens@[screen_idx].monitor == pre.screens@[screen_idx].monitor,
            post.screens@[screen_idx].background == pre.screens@[screen_idx].background,
            exists|p: int|
                #[trigger] Screen::is_insert_pos(pre.screens@[screen_idx].windows@, w2.frame, p)
                    && post.screens@[screen_idx].windows@ == crate::screen::refresh_windows_fn(
                    pre.screens@[screen_idx].windows@.insert(
                        p,
                        pre.screens@[screen_idx].add_prepared(w2),
                    ),
                    pre.screens@[screen_idx].monitor,
                    Some(fnew),
                ),
            forall|i: int|
                0 <= i < pre.screens@.len() ==> !(#[trigger] pre.screens@[i]).contains_spec(
                    w2.inner,
                ) && !pre.screens@[i].contains_spec(w2.frame),
            post.drag_wf(),
        ensures
            post.wf(),
    {
        let sk = pre.screens@[screen_idx];
        let sknew = post.screens@[screen_idx];
        let inner = w2.inner;
        let frame = w2.frame;
        let p = choose|p: int|
            #[trigger] Screen::is_insert_pos(sk.windows@, w2.frame, p) && sknew.windows@
                == crate::screen::refresh_windows_fn(
                sk.windows@.insert(p, sk.add_prepared(w2)),
                sk.monitor,
                Some(fnew),
            );
        let ins = sk.windows@.insert(p, sk.add_prepared(w2));
        assert forall|x: Wid| #[trigger] owns_win(ins, x) implies owns_win(sk.windows@, x) || x
            == inner || x == frame by {
            let i = choose|i: int| 0 <= i < ins.len() && #[trigger] ins[i].contains_spec(x);
            if i < p {
                assert(ins[i] == sk.windows@[i]);
            } else if i == p {
                assert(ins[i] == sk.add_prepared(w2));
            } else {
                assert(ins[i] == sk.windows@[i - 1]);
            }
        };
        assert(owns_win(ins, inner) && owns_win(ins, frame)) by {
            assert(ins[p] == sk.add_prepared(w2));
            assert(ins[p].contains_spec(inner) && ins[p].contains_spec(frame));
        };
        crate::screen::lemma_hl_ids(ins, Some(fnew));
        if sk.monitor is Some {
            crate::screen::lemma_ids_owns_eq(ins, sknew.windows@);
        }
        assert forall|x: Wid| #[trigger] sknew.contains_spec(x) implies sk.contains_spec(x) || x
            == inner || x == frame by {
            if owns_win(sknew.windows@, x) {
                assert(owns_win(ins, x));
            }
        };
        assert forall|x: Wid| #[trigger] sk.contains_spec(x) implies sknew.contains_spec(x) by {
            if owns_win(sk.windows@, x) {
                let i = choose|i: int|
                    0 <= i < sk.windows@.len() && #[trigger] sk.windows@[i].contains_spec(x);
                if i < p {
                    assert(ins[i] == sk.windows@[i]);
                    assert(ins[i].contains_spec(x));
                } else {
                    assert(ins[i + 1] == sk.windows@[i]);
                    assert(ins[i + 1].contains_spec(x));
                }
                assert(owns_win(ins, x));
                assert(owns_win(sknew.windows@, x));
            }
        };
        if fnew == w2.inner {
            assert(owns_win(sknew.windows@, inner)) by {
                assert(owns_win(ins, inner));
            };
            assert(sknew.contains_spec(fnew));
        }
        pre.lemma_one_screen_changed_wf(post, screen_idx, inner, frame);
    }

    /// The screen showing monitor `mon_id`; total below the discovered
    /// monitor count.
    pub fn screen_idx_by_monitor(&self, mon_id: usize) -> (r: usize)
        requires
            self.wf(),
            mon_id < self.monitor_count,
        ensures
            r < self.screens@.len(),
            self.screens@[r as int].monitor is Some,
            self.screens@[r as int].monitor.unwrap().id == mon_id,
    {
        let n: usize = self.screens.len();
        let mut i: usize = 0;
        while i < n
            invariant
                i <= n,
                n == self.screens@.len(),
                self.wf(),
                mon_id < self.monitor_count,
                forall|j: int|
                    0 <= j < i ==> !((#[trigger] self.screens@[j]).monitor is Some
                        && self.screens@[j].monitor.unwrap().id == mon_id),
            decreases n - i,
        {
            let attached: bool = match self.screens[i].monitor() {
                Some(m) => m.id == mon_id,
                None => false,
            };
            if attached {
                return i;
            }
            i = i + 1;
        }
        proof {
            assert(self.has_monitor(mon_id as int));
            assert(false);
        }
        0
    }
}

} // verus!
