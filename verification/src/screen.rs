//! A virtual screen (workspace): an ordered set of windows, an
//! always-present background window, a ring of layout strategies, and
//! optionally the monitor it is currently shown on.
//!
//! Windows are kept strictly sorted by frame id, so every layout pass
//! sees them in the same deterministic order however they arrived.  A
//! screen with no monitor is "parked": its windows exist but are forced
//! invisible until a monitor is attached again.

use vstd::prelude::*;

use crate::action::{Action, Wid};
use crate::geometry::{Monitor, Rect, BAR_HEIGHT};
use crate::layout::{arrange, arrange_spec, area_ok, LayoutCmd, LayoutKind, Placement};
use crate::window::Window;

verus! {

/// The two windows of `a` and the two windows of `b` are four distinct
/// protocol ids.
pub open spec fn wins_disjoint(a: Window, b: Window) -> bool {
    &&& a.inner != b.inner
    &&& a.inner != b.frame
    &&& a.frame != b.inner
    &&& a.frame != b.frame
}

/// A window that takes part in the tiling layout: mapped and not
/// floating.
pub open spec fn is_tiled(w: Window) -> bool {
    w.is_mapped_spec() && !w.is_floating_spec()
}

/// Indices of the tiled windows, in order.
pub open spec fn tiled_idxs(ws: Seq<Window>) -> Seq<int>
    decreases ws.len(),
{
    if ws.len() == 0 {
        Seq::<int>::empty()
    } else {
        tiled_idxs(ws.drop_last()) + if is_tiled(ws.last()) {
            seq![ws.len() - 1]
        } else {
            Seq::<int>::empty()
        }
    }
}

/// Frames of the tiled windows, in order.
pub open spec fn tiled_frames(ws: Seq<Window>) -> Seq<Wid>
    decreases ws.len(),
{
    if ws.len() == 0 {
        Seq::<Wid>::empty()
    } else {
        tiled_frames(ws.drop_last()) + if is_tiled(ws.last()) {
            seq![ws.last().frame]
        } else {
            Seq::<Wid>::empty()
        }
    }
}

pub proof fn lemma_tiled_props(ws: Seq<Window>)
    ensures
        tiled_idxs(ws).len() == tiled_frames(ws).len(),
        tiled_idxs(ws).len() <= ws.len(),
        forall|k: int|
            0 <= k < tiled_idxs(ws).len() ==> 0 <= #[trigger] tiled_idxs(ws)[k] < ws.len()
                && is_tiled(ws[tiled_idxs(ws)[k]]) && tiled_frames(ws)[k] == ws[tiled_idxs(
                ws,
            )[k]].frame,
        forall|k1: int, k2: int|
            0 <= k1 < k2 < tiled_idxs(ws).len() ==> tiled_idxs(ws)[k1] < tiled_idxs(ws)[k2],
    decreases ws.len(),
{
    if ws.len() > 0 {
        lemma_tiled_props(ws.drop_last());
    }
}

/// Does some window of the sequence answer to this id?
pub open spec fn owns_win(ws: Seq<Window>, wid: Wid) -> bool {
    exists|i: int| 0 <= i < ws.len() && #[trigger] ws[i].contains_spec(wid)
}

/// The index of the window answering to this id (unique when the
/// sequence is pairwise disjoint).
pub open spec fn the_win_idx(ws: Seq<Window>, wid: Wid) -> int {
    choose|i: int| 0 <= i < ws.len() && #[trigger] ws[i].contains_spec(wid)
}

/// The frame of the window holding the focused id, if this screen has
/// it; what a full-screen layout raises.
pub open spec fn focused_frame_spec(ws: Seq<Window>, focused: Option<Wid>) -> Option<Wid> {
    match focused {
        Some(x) => if owns_win(ws, x) {
            Some(ws[the_win_idx(ws, x)].frame)
        } else {
            None
        },
        None => None,
    }
}

/// All windows un-hidden (a monitor came back).
pub open spec fn shown_all(ws: Seq<Window>) -> Seq<Window> {
    ws.map_values(|w: Window| w.after_show())
}

pub open spec fn show_all_acts(ws: Seq<Window>) -> Seq<Action>
    decreases ws.len(),
{
    if ws.len() == 0 {
        Seq::<Action>::empty()
    } else {
        show_all_acts(ws.drop_last()) + ws.last().show_acts()
    }
}

/// All windows hidden (the monitor went away).
pub open spec fn concealed_all(ws: Seq<Window>) -> Seq<Window> {
    ws.map_values(|w: Window| w.after_conceal())
}

pub open spec fn conceal_all_acts(ws: Seq<Window>) -> Seq<Action>
    decreases ws.len(),
{
    if ws.len() == 0 {
        Seq::<Action>::empty()
    } else {
        conceal_all_acts(ws.drop_last()) + ws.last().conceal_acts()
    }
}

/// One window after the highlight pass: a mapped window is highlighted
/// exactly when it holds the focused id.
pub open spec fn hl_one(w: Window, focused: Option<Wid>) -> Window {
    if w.is_mapped_spec() {
        w.after_set_highlight(
            match focused {
                Some(x) => w.contains_spec(x),
                None => false,
            },
        )
    } else {
        w
    }
}

pub open spec fn hl_all(ws: Seq<Window>, focused: Option<Wid>) -> Seq<Window> {
    ws.map_values(|w: Window| hl_one(w, focused))
}

pub open spec fn hl_all_acts(ws: Seq<Window>, focused: Option<Wid>) -> Seq<Action>
    decreases ws.len(),
{
    if ws.len() == 0 {
        Seq::<Action>::empty()
    } else {
        hl_all_acts(ws.drop_last(), focused) + if ws.last().is_mapped_spec() {
            ws.last().set_highlight_acts(
                match focused {
                    Some(x) => ws.last().contains_spec(x),
                    None => false,
                },
            )
        } else {
            Seq::<Action>::empty()
        }
    }
}

/// The requests that place one tiled window: configure it to its
/// placement and raise it if the layout asked for that.
pub open spec fn one_tile_acts(w: Window, p: Placement) -> Seq<Action> {
    w.configure_acts(Rect { x: p.x, y: p.y, w: p.w, h: p.h }, p.border_width) + if p.raise {
        seq![Action::StackAbove(w.frame)]
    } else {
        Seq::<Action>::empty()
    }
}

/// The requests that place the first `k` tiled windows.
pub open spec fn tile_all_acts(
    ws: Seq<Window>,
    idxs: Seq<int>,
    places: Seq<Placement>,
    k: int,
) -> Seq<Action>
    decreases k,
{
    if k <= 0 {
        Seq::<Action>::empty()
    } else {
        tile_all_acts(ws, idxs, places, k - 1) + one_tile_acts(ws[idxs[k - 1]], places[k - 1])
    }
}

/// Where a floating window is drawn: its stored rectangle, relative to
/// the monitor's origin, never touched by the tiling pass.
pub open spec fn float_place_rect(m: Monitor, g: Rect) -> Rect {
    Rect { x: (m.rect.x + g.x) as i32, y: (m.rect.y + g.y) as i32, w: g.w, h: g.h }
}

/// The requests that place every mapped floating window.
pub open spec fn float_all_acts(ws: Seq<Window>, m: Monitor) -> Seq<Action>
    decreases ws.len(),
{
    if ws.len() == 0 {
        Seq::<Action>::empty()
    } else {
        float_all_acts(ws.drop_last(), m) + if ws.last().is_mapped_spec()
            && ws.last().is_floating_spec() {
            ws.last().configure_acts(
                float_place_rect(m, ws.last().float_geometry.unwrap()),
                ws.last().border_width,
            )
        } else {
            Seq::<Action>::empty()
        }
    }
}

/// The first mapped window of the sequence, if any: the focus target
/// of last resort walks windows in stored (id) order.
pub open spec fn first_mapped(ws: Seq<Window>) -> Option<int>
    decreases ws.len(),
{
    if ws.len() == 0 {
        None
    } else if ws[0].is_mapped_spec() {
        Some(0int)
    } else {
        match first_mapped(ws.drop_first()) {
            Some(i) => Some(i + 1),
            None => None,
        }
    }
}

pub proof fn lemma_first_mapped(ws: Seq<Window>)
    ensures
        match first_mapped(ws) {
            Some(i) => 0 <= i < ws.len() && ws[i].is_mapped_spec() && forall|j: int|
                0 <= j < i ==> !(#[trigger] ws[j]).is_mapped_spec(),
            None => forall|j: int| 0 <= j < ws.len() ==> !(#[trigger] ws[j]).is_mapped_spec(),
        },
    decreases ws.len(),
{
    if ws.len() > 0 && !ws[0].is_mapped_spec() {
        let t = ws.drop_first();
        lemma_first_mapped(t);
        match first_mapped(t) {
            Some(i) => {
                assert(ws[i + 1] == t[i]);
                assert forall|j: int| 0 <= j < i + 1 implies !(#[trigger] ws[j]).is_mapped_spec() by {
                    if j > 0 {
                        assert(t[j - 1] == ws[j]);
                    }
                };
            },
            None => {
                assert forall|j: int|
                    0 <= j < ws.len() implies !(#[trigger] ws[j]).is_mapped_spec() by {
                    if j > 0 {
                        assert(t[j - 1] == ws[j]);
                    }
                };
            },
        }
    }
}

/// `first_mapped` is exactly the first index whose window is mapped.
pub proof fn lemma_first_mapped_at(ws: Seq<Window>, i: int)
    requires
        0 <= i < ws.len(),
        ws[i].is_mapped_spec(),
        forall|j: int| 0 <= j < i ==> !(#[trigger] ws[j]).is_mapped_spec(),
    ensures
        first_mapped(ws) == Some(i),
    decreases i,
{
    if i > 0 {
        let t = ws.drop_first();
        assert(forall|j: int| 0 <= j < t.len() ==> t[j] == ws[j + 1]);
        lemma_first_mapped_at(t, i - 1);
    }
}

pub proof fn lemma_first_mapped_none(ws: Seq<Window>)
    requires
        forall|j: int| 0 <= j < ws.len() ==> !(#[trigger] ws[j]).is_mapped_spec(),
    ensures
        first_mapped(ws) is None,
    decreases ws.len(),
{
    if ws.len() > 0 {
        let t = ws.drop_first();
        assert(forall|j: int| 0 <= j < t.len() ==> t[j] == ws[j + 1]);
        lemma_first_mapped_none(t);
    }
}

/// Who `focus_any` focuses: the first mapped window, else the
/// background.
pub open spec fn focus_any_fn(ws: Seq<Window>, bg: Window) -> Wid {
    match first_mapped(ws) {
        Some(i) => ws[i].inner,
        None => bg.inner,
    }
}

/// `focus_any` always lands on something the same screen answers to.
pub proof fn lemma_focus_any_contained(ws: Seq<Window>, bg: Window)
    ensures
        owns_win(ws, focus_any_fn(ws, bg)) || bg.contains_spec(focus_any_fn(ws, bg)),
{
    lemma_first_mapped(ws);
    match first_mapped(ws) {
        Some(i) => {
            assert(ws[i].contains_spec(ws[i].inner));
        },
        None => {},
    }
}

/// A pass that rewrites windows without touching their ids keeps the
/// ordering and disjointness parts of a screen's well-formedness.
pub proof fn lemma_windows_wf_transfer(a: Seq<Window>, b: Seq<Window>, bg: Window)
    requires
        a.len() == b.len(),
        forall|i: int| 0 <= i < b.len() ==> (#[trigger] b[i]).wf(),
        forall|i: int|
            0 <= i < b.len() ==> (#[trigger] b[i]).frame == a[i].frame && b[i].inner == a[i].inner,
        forall|i: int, j: int| 0 <= i < j < a.len() ==> a[i].frame < a[j].frame,
        forall|i: int, j: int|
            0 <= i < a.len() && 0 <= j < a.len() && i != j ==> wins_disjoint(a[i], a[j]),
        forall|i: int| 0 <= i < a.len() ==> wins_disjoint(#[trigger] a[i], bg),
    ensures
        forall|i: int, j: int| 0 <= i < j < b.len() ==> b[i].frame < b[j].frame,
        forall|i: int, j: int|
            0 <= i < b.len() && 0 <= j < b.len() && i != j ==> wins_disjoint(b[i], b[j]),
        forall|i: int| 0 <= i < b.len() ==> wins_disjoint(#[trigger] b[i], bg),
{
    assert forall|i: int, j: int| 0 <= i < j < b.len() implies b[i].frame < b[j].frame by {
        assert(b[i].frame == a[i].frame && b[j].frame == a[j].frame);
    };
    assert forall|i: int, j: int|
        0 <= i < b.len() && 0 <= j < b.len() && i != j implies wins_disjoint(b[i], b[j]) by {
        assert(wins_disjoint(a[i], a[j]));
        assert(b[i].frame == a[i].frame && b[i].inner == a[i].inner);
        assert(b[j].frame == a[j].frame && b[j].inner == a[j].inner);
    };
    assert forall|i: int| 0 <= i < b.len() implies wins_disjoint(#[trigger] b[i], bg) by {
        assert(wins_disjoint(a[i], bg));
        assert(b[i].frame == a[i].frame && b[i].inner == a[i].inner);
    };
}

/// Does the background or any window of the sequence answer to the
/// focused id?
pub open spec fn owns_opt_fn(ws: Seq<Window>, bg: Window, focused: Option<Wid>) -> bool {
    match focused {
        Some(x) => bg.contains_spec(x) || owns_win(ws, x),
        None => false,
    }
}

/// The area handed to a layout on monitor `m`: the monitor minus the
/// bar strip, except that the full-screen layout covers the bar.
pub open spec fn layout_area_fn(kind: LayoutKind, m: Monitor) -> Rect {
    if kind.is_fullscreen_spec() {
        m.rect
    } else {
        Rect {
            x: m.rect.x,
            y: (m.rect.y + BAR_HEIGHT as i32) as i32,
            w: m.rect.w,
            h: (m.rect.h - BAR_HEIGHT) as u32,
        }
    }
}

/// The bookkeeping requests that end every refresh and attachment:
/// place and fill the status bar, then the background below everything.
pub open spec fn update_acts_fn(
    ws: Seq<Window>,
    bg: Window,
    id: usize,
    m: Monitor,
    focused: Option<Wid>,
) -> Seq<Action> {
    seq![
        Action::BarUpdate {
            screen: id,
            x: m.rect.x,
            y: m.rect.y,
            w: m.rect.w,
            focused: owns_opt_fn(ws, bg, focused),
        },
    ] + bg.configure_acts(m.rect, bg.border_width) + seq![Action::StackBelow(bg.frame)]
}

/// Every request of one refresh over the given screen components.
pub open spec fn refresh_acts_fn(
    ws: Seq<Window>,
    mon: Option<Monitor>,
    bg: Window,
    kind: LayoutKind,
    bv: bool,
    bw: u32,
    id: usize,
    focused: Option<Wid>,
) -> Seq<Action> {
    match mon {
        None => Seq::<Action>::empty(),
        Some(m) => tile_all_acts(
            ws,
            tiled_idxs(ws),
            arrange_spec(
                kind,
                layout_area_fn(kind, m),
                tiled_frames(ws),
                bv,
                bw,
                focused_frame_spec(ws, focused),
            ),
            tiled_idxs(ws).len() as int,
        ) + float_all_acts(ws, m) + hl_all_acts(ws, focused) + update_acts_fn(
            ws,
            bg,
            id,
            m,
            focused,
        ),
    }
}

/// The windows after one refresh over the given components.
pub open spec fn refresh_windows_fn(
    ws: Seq<Window>,
    mon: Option<Monitor>,
    focused: Option<Wid>,
) -> Seq<Window> {
    if mon is None {
        ws
    } else {
        hl_all(ws, focused)
    }
}

/// Window sequences with pointwise equal ids answer to exactly the
/// same ids.
pub proof fn lemma_ids_owns_eq(a: Seq<Window>, b: Seq<Window>)
    requires
        a.len() == b.len(),
        forall|i: int|
            0 <= i < b.len() ==> (#[trigger] b[i]).frame == a[i].frame && b[i].inner == a[i].inner,
    ensures
        forall|x: Wid| #[trigger] owns_win(b, x) == owns_win(a, x),
{
    assert forall|x: Wid| #[trigger] owns_win(b, x) == owns_win(a, x) by {
        if owns_win(a, x) {
            let i = choose|i: int| 0 <= i < a.len() && #[trigger] a[i].contains_spec(x);
            assert(b[i].contains_spec(x));
        }
        if owns_win(b, x) {
            let i = choose|i: int| 0 <= i < b.len() && #[trigger] b[i].contains_spec(x);
            assert(a[i].contains_spec(x));
        }
    };
}

/// The highlight pass keeps every id in place.
pub proof fn lemma_hl_ids(ws: Seq<Window>, f: Option<Wid>)
    ensures
        hl_all(ws, f).len() == ws.len(),
        forall|i: int|
            0 <= i < ws.len() ==> (#[trigger] hl_all(ws, f)[i]).frame == ws[i].frame && hl_all(
                ws,
                f,
            )[i].inner == ws[i].inner,
{
    assert forall|i: int|
        0 <= i < ws.len() implies (#[trigger] hl_all(ws, f)[i]).frame == ws[i].frame && hl_all(
        ws,
        f,
    )[i].inner == ws[i].inner by {
        assert(hl_all(ws, f)[i] == hl_one(ws[i], f));
    };
}

/// Hiding or showing windows keeps every id in place.
pub proof fn lemma_park_ids(ws: Seq<Window>)
    ensures
        shown_all(ws).len() == ws.len(),
        concealed_all(ws).len() == ws.len(),
        forall|i: int|
            0 <= i < ws.len() ==> (#[trigger] shown_all(ws)[i]).frame == ws[i].frame && shown_all(
                ws,
            )[i].inner == ws[i].inner,
        forall|i: int|
            0 <= i < ws.len() ==> (#[trigger] concealed_all(ws)[i]).frame == ws[i].frame
                && concealed_all(ws)[i].inner == ws[i].inner,
{
    assert forall|i: int|
        0 <= i < ws.len() implies (#[trigger] shown_all(ws)[i]).frame == ws[i].frame && shown_all(
        ws,
    )[i].inner == ws[i].inner by {
        assert(shown_all(ws)[i] == ws[i].after_show());
    };
    assert forall|i: int|
        0 <= i < ws.len() implies (#[trigger] concealed_all(ws)[i]).frame == ws[i].frame
        && concealed_all(ws)[i].inner == ws[i].inner by {
        assert(concealed_all(ws)[i] == ws[i].after_conceal());
    };
}

/// The requests one screen emits when it loses its monitor.
pub open spec fn screen_detach_acts(s: Screen) -> Seq<Action> {
    if s.monitor is None {
        Seq::<Action>::empty()
    } else {
        s.background.unmap_acts() + conceal_all_acts(s.windows@)
    }
}

/// A screen's windows after losing its monitor (unchanged if parked).
pub open spec fn post_detach_ws(s: Screen) -> Seq<Window> {
    if s.monitor is None {
        s.windows@
    } else {
        concealed_all(s.windows@)
    }
}

/// A screen's background after losing its monitor.
pub open spec fn post_detach_bg(s: Screen) -> Window {
    if s.monitor is None {
        s.background
    } else {
        s.background.after_unmap()
    }
}

/// The requests one screen emits when it gains a monitor.
pub open spec fn screen_attach_acts(ws: Seq<Window>, bg: Window, id: usize, m: Monitor) -> Seq<
    Action,
> {
    update_acts_fn(ws, bg, id, m, None) + bg.map_acts() + show_all_acts(ws)
}

/// The requests `forget_window` emits when the departing window's
/// screen holds the focused id `f` (the common case: closing or
/// migrating the focused window): the pre-removal cyclic focus step,
/// the post-removal fallback if that step landed on the departing
/// window itself, and the screen's own refresh.
pub open spec fn forget_focused_acts(sk: Screen, f: Wid) -> Seq<Action> {
    let ti = the_win_idx(sk.windows@, f);
    seq![Action::SetFocus(sk.focus_step_target(f, true))] + (if sk.forget_repair(f, Some(f)) {
        seq![Action::SetFocus(focus_any_fn(sk.windows@.remove(ti), sk.background))]
    } else {
        Seq::<Action>::empty()
    }) + refresh_acts_fn(
        sk.windows@.remove(ti),
        sk.monitor,
        sk.background,
        sk.active_kind(),
        sk.border_visible,
        sk.border_width,
        sk.id,
        sk.forget_eff(f, Some(f)),
    )
}

/// Removing a window keeps a window sequence's ordering and
/// disjointness.
pub proof fn lemma_wf_windows_remove(ws: Seq<Window>, bg: Window, i: int)
    requires
        0 <= i < ws.len(),
        forall|a: int, b: int| 0 <= a < b < ws.len() ==> ws[a].frame < ws[b].frame,
        forall|a: int| 0 <= a < ws.len() ==> (#[trigger] ws[a]).wf(),
        forall|a: int, b: int|
            0 <= a < ws.len() && 0 <= b < ws.len() && a != b ==> wins_disjoint(ws[a], ws[b]),
        forall|a: int| 0 <= a < ws.len() ==> wins_disjoint(#[trigger] ws[a], bg),
    ensures
        forall|a: int, b: int|
            0 <= a < b < ws.remove(i).len() ==> ws.remove(i)[a].frame < ws.remove(i)[b].frame,
        forall|a: int| 0 <= a < ws.remove(i).len() ==> (#[trigger] ws.remove(i)[a]).wf(),
        forall|a: int, b: int|
            0 <= a < ws.remove(i).len() && 0 <= b < ws.remove(i).len() && a != b ==> wins_disjoint(
                ws.remove(i)[a],
                ws.remove(i)[b],
            ),
        forall|a: int| 0 <= a < ws.remove(i).len() ==> wins_disjoint(#[trigger] ws.remove(i)[a], bg),
{
    let s2 = ws.remove(i);
    assert forall|a: int| 0 <= a < s2.len() implies #[trigger] s2[a] == (if a < i {
        ws[a]
    } else {
        ws[a + 1]
    }) by {};
    assert forall|a: int, b: int| 0 <= a < b < s2.len() implies s2[a].frame < s2[b].frame by {
        assert(s2[a] == (if a < i { ws[a] } else { ws[a + 1] }));
        assert(s2[b] == (if b < i { ws[b] } else { ws[b + 1] }));
    };
    assert forall|a: int, b: int|
        0 <= a < s2.len() && 0 <= b < s2.len() && a != b implies wins_disjoint(s2[a], s2[b]) by {
        assert(s2[a] == (if a < i { ws[a] } else { ws[a + 1] }));
        assert(s2[b] == (if b < i { ws[b] } else { ws[b + 1] }));
    };
    assert forall|a: int| 0 <= a < s2.len() implies wins_disjoint(#[trigger] s2[a], bg) by {
        assert(s2[a] == (if a < i { ws[a] } else { ws[a + 1] }));
    };
}

/// Inserting a fresh window at its sorted position keeps a window
/// sequence's ordering and disjointness.
pub proof fn lemma_wf_windows_insert(ws: Seq<Window>, bg: Window, p: int, w: Window)
    requires
        0 <= p <= ws.len(),
        w.wf(),
        forall|a: int, b: int| 0 <= a < b < ws.len() ==> ws[a].frame < ws[b].frame,
        forall|a: int| 0 <= a < ws.len() ==> (#[trigger] ws[a]).wf(),
        forall|a: int, b: int|
            0 <= a < ws.len() && 0 <= b < ws.len() && a != b ==> wins_disjoint(ws[a], ws[b]),
        forall|a: int| 0 <= a < ws.len() ==> wins_disjoint(#[trigger] ws[a], bg),
        forall|a: int| 0 <= a < p ==> (#[trigger] ws[a]).frame < w.frame,
        forall|a: int| p <= a < ws.len() ==> (#[trigger] ws[a]).frame > w.frame,
        forall|a: int|
            0 <= a < ws.len() ==> !(#[trigger] ws[a]).contains_spec(w.inner)
                && !ws[a].contains_spec(w.frame),
        !bg.contains_spec(w.inner) && !bg.contains_spec(w.frame),
    ensures
        forall|a: int, b: int|
            0 <= a < b < ws.insert(p, w).len() ==> ws.insert(p, w)[a].frame < ws.insert(
                p,
                w,
            )[b].frame,
        forall|a: int| 0 <= a < ws.insert(p, w).len() ==> (#[trigger] ws.insert(p, w)[a]).wf(),
        forall|a: int, b: int|
            0 <= a < ws.insert(p, w).len() && 0 <= b < ws.insert(p, w).len() && a != b
                ==> wins_disjoint(ws.insert(p, w)[a], ws.insert(p, w)[b]),
        forall|a: int|
            0 <= a < ws.insert(p, w).len() ==> wins_disjoint(#[trigger] ws.insert(p, w)[a], bg),
{
    let s2 = ws.insert(p, w);
    assert(s2.len() == ws.len() + 1);
    assert forall|a: int| 0 <= a < s2.len() implies #[trigger] s2[a] == (if a < p {
        ws[a]
    } else if a == p {
        w
    } else {
        ws[a - 1]
    }) by {};
    assert forall|a: int| 0 <= a < ws.len() implies wins_disjoint(#[trigger] ws[a], w) by {
        assert(!ws[a].contains_spec(w.inner) && !ws[a].contains_spec(w.frame));
    };
    assert forall|a: int, b: int| 0 <= a < b < s2.len() implies s2[a].frame < s2[b].frame by {
        assert(s2[a] == (if a < p { ws[a] } else if a == p { w } else { ws[a - 1] }));
        assert(s2[b] == (if b < p { ws[b] } else if b == p { w } else { ws[b - 1] }));
    };
    assert forall|a: int, b: int|
        0 <= a < s2.len() && 0 <= b < s2.len() && a != b implies wins_disjoint(s2[a], s2[b]) by {
        assert(s2[a] == (if a < p { ws[a] } else if a == p { w } else { ws[a - 1] }));
        assert(s2[b] == (if b < p { ws[b] } else if b == p { w } else { ws[b - 1] }));
    };
    assert forall|a: int| 0 <= a < s2.len() implies wins_disjoint(#[trigger] s2[a], bg) by {
        assert(s2[a] == (if a < p { ws[a] } else if a == p { w } else { ws[a - 1] }));
        if s2[a] == w {
            assert(!bg.contains_spec(w.inner) && !bg.contains_spec(w.frame));
        }
    };
}

pub struct Screen {
    /// Stable position of this screen in the coordinator's pool.
    pub id: usize,
    /// The monitor this screen is currently shown on, if any.
    pub monitor: Option<Monitor>,
    /// Client windows, strictly sorted by frame id.
    pub windows: Vec<Window>,
    /// The always-present filler window below all client windows; the
    /// focus target of last resort.
    pub background: Window,
    /// The ring of layout strategies.
    pub layouts: Vec<LayoutKind>,
    /// Cursor into `layouts`.
    pub active_layout: usize,
    pub border_visible: bool,
    /// Border width the tiling layouts reserve when borders are shown.
    pub border_width: u32,
}

impl Screen {
    pub open spec fn wf(self) -> bool {
        &&& forall|i: int, j: int|
            0 <= i < j < self.windows@.len() ==> self.windows@[i].frame < self.windows@[j].frame
        &&& forall|i: int| 0 <= i < self.windows@.len() ==> (#[trigger] self.windows@[i]).wf()
        &&& forall|i: int, j: int|
            0 <= i < self.windows@.len() && 0 <= j < self.windows@.len() && i != j
                ==> wins_disjoint(self.windows@[i], self.windows@[j])
        &&& forall|i: int|
            0 <= i < self.windows@.len() ==> wins_disjoint(
                #[trigger] self.windows@[i],
                self.background,
            )
        &&& self.background.wf()
        &&& self.layouts@.len() >= 1
        &&& self.active_layout < self.layouts@.len()
        &&& forall|i: int| 0 <= i < self.layouts@.len() ==> (#[trigger] self.layouts@[i]).wf()
        &&& match self.monitor {
            Some(m) => m.wf(),
            None => true,
        }
        &&& self.border_width <= 0xff
        &&& self.windows@.len() <= 0xfffe
    }

    /// Everything but the window list, the monitor and the background
    /// is unchanged.
    pub open spec fn same_shape(self, o: Screen) -> bool {
        &&& self.id == o.id
        &&& self.layouts@ == o.layouts@
        &&& self.active_layout == o.active_layout
        &&& self.border_visible == o.border_visible
        &&& self.border_width == o.border_width
    }

    /// Does this screen answer to the given protocol id, through its
    /// background or any window's client or frame id?
    pub open spec fn contains_spec(self, wid: Wid) -> bool {
        self.background.contains_spec(wid) || owns_win(self.windows@, wid)
    }

    pub open spec fn owns_opt(self, focused: Option<Wid>) -> bool {
        match focused {
            Some(x) => self.contains_spec(x),
            None => false,
        }
    }

    pub open spec fn active_kind(self) -> LayoutKind {
        self.layouts@[self.active_layout as int]
    }

    /// The area handed to the active layout: the monitor, minus the
    /// strip reserved for the status bar (the full-screen layout covers
    /// the bar instead).
    pub open spec fn layout_area(self, m: Monitor) -> Rect {
        layout_area_fn(self.active_kind(), m)
    }

    /// The requests of the bookkeeping pass that ends every refresh and
    /// attachment: place the status bar and the background.
    pub open spec fn update_acts_spec(self, m: Monitor, focused: Option<Wid>) -> Seq<Action> {
        update_acts_fn(self.windows@, self.background, self.id, m, focused)
    }

    /// Who `focus_any` on this screen focuses.
    pub open spec fn focus_any_target(self) -> Wid {
        focus_any_fn(self.windows@, self.background)
    }

    /// A fresh screen: parked, empty, with the default layout ring.
    pub fn new(id: usize, background: Window, border_width: u32) -> (r: Screen)
        requires
            background.wf(),
            border_width <= 0xff,
        ensures
            r.id == id,
            r.monitor is None,
            r.windows@.len() == 0,
            r.background == background,
            r.layouts@ == seq![
                LayoutKind::Horizontal { ratio: None },
                LayoutKind::Vertical,
                LayoutKind::FullScreen,
            ],
            r.active_layout == 0,
            r.border_visible == false,
            r.border_width == border_width,
            r.wf(),
    {
        let mut layouts: Vec<LayoutKind> = Vec::new();
        layouts.push(LayoutKind::Horizontal { ratio: None });
        layouts.push(LayoutKind::Vertical);
        layouts.push(LayoutKind::FullScreen);
        proof {
            assert(layouts@ =~= seq![
                LayoutKind::Horizontal { ratio: None },
                LayoutKind::Vertical,
                LayoutKind::FullScreen,
            ]);
        }
        Screen {
            id,
            monitor: None,
            windows: Vec::new(),
            background,
            layouts,
            active_layout: 0,
            border_visible: false,
            border_width,
        }
    }

    pub fn monitor(&self) -> (r: Option<Monitor>)
        ensures
            r == self.monitor,
    {
        self.monitor
    }

    pub fn background(&self) -> (r: &Window)
        ensures
            r == &self.background,
    {
        &self.background
    }

    pub fn contains(&self, wid: Wid) -> (r: bool)
        ensures
            r == self.contains_spec(wid),
    {
        if self.background.contains(wid) {
            return true;
        }
        let n: usize = self.windows.len();
        let mut i: usize = 0;
        while i < n
            invariant
                i <= n,
                n == self.windows@.len(),
                forall|j: int| 0 <= j < i ==> !(#[trigger] self.windows@[j]).contains_spec(wid),
            decreases n - i,
        {
            if self.windows[i].contains(wid) {
                return true;
            }
            i = i + 1;
        }
        false
    }

    /// The position of the window answering to this id, background
    /// excluded.
    pub fn window_index(&self, wid: Wid) -> (r: Option<usize>)
        ensures
            match r {
                Some(i) => i < self.windows@.len() && self.windows@[i as int].contains_spec(wid),
                None => !owns_win(self.windows@, wid),
            },
    {
        let n: usize = self.windows.len();
        let mut i: usize = 0;
        while i < n
            invariant
                i <= n,
                n == self.windows@.len(),
                forall|j: int| 0 <= j < i ==> !(#[trigger] self.windows@[j]).contains_spec(wid),
            decreases n - i,
        {
            if self.windows[i].contains(wid) {
                return Some(i);
            }
            i = i + 1;
        }
        None
    }

    pub fn show_border(&mut self)
        ensures
            *final(self) == (Screen { border_visible: true, ..*old(self) }),
    {
        self.border_visible = true;
    }

    pub fn hide_border(&mut self)
        ensures
            *final(self) == (Screen { border_visible: false, ..*old(self) }),
    {
        self.border_visible = false;
    }

    /// Show this screen on a monitor: place the bar and background, map
    /// the background, and un-hide every window.
    pub fn attach(&mut self, monitor: Monitor, acts: &mut Vec<Action>)
        requires
            old(self).wf(),
            old(self).monitor is None,
            monitor.wf(),
        ensures
            final(self).same_shape(*old(self)),
            final(self).monitor == Some(monitor),
            final(self).background == old(self).background.after_map(),
            final(self).windows@ == shown_all(old(self).windows@),
            final(self).wf(),
            final(acts)@ == old(acts)@ + old(self).update_acts_spec(monitor, None)
                + old(self).background.map_acts() + show_all_acts(old(self).windows@),
    {
        let ghost ws = self.windows@;
        self.monitor = Some(monitor);
        // bar and background bookkeeping
        acts.push(Action::BarUpdate {
            screen: self.id,
            x: monitor.rect.x,
            y: monitor.rect.y,
            w: monitor.rect.w,
            focused: false,
        });
        self.background.configure(monitor.rect, self.background.border_width, acts);
        acts.push(Action::StackBelow(self.background.frame));
        let _ = self.background.map(acts);
        let ghost base = acts@;
        let n: usize = self.windows.len();
        let mut i: usize = 0;
        while i < n
            invariant
                i <= n,
                n == ws.len(),
                self.windows@.len() == n,
                self.same_shape(*old(self)),
                self.monitor == Some(monitor),
                self.background == old(self).background.after_map(),
                forall|j: int| 0 <= j < i ==> self.windows@[j] == ws[j].after_show(),
                forall|j: int| i <= j < n ==> self.windows@[j] == ws[j],
                acts@ == base + show_all_acts(ws.take(i as int)),
            decreases n - i,
        {
            let mut w: Window = self.windows[i];
            proof {
                assert(w == ws[i as int]);
            }
            w.show(acts);
            self.windows.set(i, w);
            proof {
                assert(ws.take(i as int + 1).drop_last() =~= ws.take(i as int));
                assert(ws.take(i as int + 1).last() == ws[i as int]);
                assert(acts@ =~= base + show_all_acts(ws.take(i as int + 1)));
            }
            i = i + 1;
        }
        proof {
            assert(ws.take(n as int) =~= ws);
            assert(self.windows@ =~= shown_all(ws));
            assert forall|j: int| 0 <= j < n implies (#[trigger] self.windows@[j]).wf()
                && self.windows@[j].frame == ws[j].frame && self.windows@[j].inner
                == ws[j].inner by {
                assert(self.windows@[j] == ws[j].after_show());
                assert(ws[j].wf());
            };
            lemma_windows_wf_transfer(ws, self.windows@, self.background);
        }
    }

    /// Take this screen off its monitor, if it has one: unmap the
    /// background, hide every window, and hand the monitor back.
    pub fn detach(&mut self, acts: &mut Vec<Action>) -> (r: Option<Monitor>)
        requires
            old(self).wf(),
        ensures
            r == old(self).monitor,
            final(self).same_shape(*old(self)),
            final(self).monitor is None,
            old(self).monitor is None ==> *final(self) == *old(self) && final(acts)@ == old(
                acts,
            )@,
            old(self).monitor is Some ==> final(self).background == old(
                self,
            ).background.after_unmap() && final(self).windows@ == concealed_all(
                old(self).windows@,
            ) && final(acts)@ == old(acts)@ + old(self).background.unmap_acts()
                + conceal_all_acts(old(self).windows@),
            final(self).wf(),
    {
        if self.monitor.is_none() {
            return None;
        }
        let r: Option<Monitor> = self.monitor;
        self.monitor = None;
        let ghost ws = self.windows@;
        self.background.unmap(acts);
        let ghost base = acts@;
        let n: usize = self.windows.len();
        let mut i: usize = 0;
        while i < n
            invariant
                i <= n,
                n == ws.len(),
                self.windows@.len() == n,
                self.same_shape(*old(self)),
                self.monitor is None,
                r == old(self).monitor,
                self.background == old(self).background.after_unmap(),
                forall|j: int| 0 <= j < i ==> self.windows@[j] == ws[j].after_conceal(),
                forall|j: int| i <= j < n ==> self.windows@[j] == ws[j],
                acts@ == base + conceal_all_acts(ws.take(i as int)),
            decreases n - i,
        {
            let mut w: Window = self.windows[i];
            proof {
                assert(w == ws[i as int]);
            }
            w.conceal(acts);
            self.windows.set(i, w);
            proof {
                assert(ws.take(i as int + 1).drop_last() =~= ws.take(i as int));
                assert(ws.take(i as int + 1).last() == ws[i as int]);
                assert(acts@ =~= base + conceal_all_acts(ws.take(i as int + 1)));
            }
            i = i + 1;
        }
        proof {
            assert(ws.take(n as int) =~= ws);
            assert(self.windows@ =~= concealed_all(ws));
            assert forall|j: int| 0 <= j < n implies (#[trigger] self.windows@[j]).wf()
                && self.windows@[j].frame == ws[j].frame && self.windows@[j].inner
                == ws[j].inner by {
                assert(self.windows@[j] == ws[j].after_conceal());
                assert(ws[j].wf());
            };
            lemma_windows_wf_transfer(ws, self.windows@, self.background);
        }
        r
    }

    /// Collect the positions and frames of the tiled windows, in
    /// stored (id) order.
    fn collect_tiled(&self) -> (r: (Vec<usize>, Vec<Wid>))
        ensures
            r.0@.len() == tiled_idxs(self.windows@).len(),
            forall|k: int|
                0 <= k < r.0@.len() ==> #[trigger] r.0@[k] as int == tiled_idxs(self.windows@)[k],
            r.1@ == tiled_frames(self.windows@),
    {
        let ghost ws = self.windows@;
        let n: usize = self.windows.len();
        let mut idxs: Vec<usize> = Vec::new();
        let mut frames: Vec<Wid> = Vec::new();
        let mut i: usize = 0;
        while i < n
            invariant
                i <= n,
                n == ws.len(),
                self.windows@ == ws,
                idxs@.len() == tiled_idxs(ws.take(i as int)).len(),
                forall|k: int|
                    0 <= k < idxs@.len() ==> #[trigger] idxs@[k] as int == tiled_idxs(
                        ws.take(i as int),
                    )[k],
                frames@ == tiled_frames(ws.take(i as int)),
            decreases n - i,
        {
            let w: Window = self.windows[i];
            proof {
                assert(ws.take(i as int + 1).drop_last() =~= ws.take(i as int));
                assert(ws.take(i as int + 1).last() == ws[i as int]);
            }
            if w.is_mapped() && !w.is_floating() {
                idxs.push(i);
                frames.push(w.frame());
            }
            i = i + 1;
        }
        proof {
            assert(ws.take(n as int) =~= ws);
        }
        (idxs, frames)
    }

    /// The frame of the window holding the focused id, if any; the
    /// full-screen layout raises it.
    fn focused_frame(&self, focused: Option<Wid>) -> (r: Option<Wid>)
        requires
            self.wf(),
        ensures
            r == focused_frame_spec(self.windows@, focused),
    {
        let ghost ws = self.windows@;
        match focused {
            Some(x) => match self.window_index(x) {
                Some(j) => {
                    let fr: Wid = self.windows[j].frame;
                    proof {
                        assert(ws[j as int].contains_spec(x));
                        assert(owns_win(ws, x));
                        let t = the_win_idx(ws, x);
                        assert(ws[t].contains_spec(x));
                        if t != j as int {
                            assert(wins_disjoint(ws[t], ws[j as int]));
                            assert(false);
                        }
                    }
                    Some(fr)
                },
                None => None,
            },
            None => None,
        }
    }

    /// Emit the bookkeeping requests that end a refresh or an
    /// attachment: bar placement and content, then the background
    /// placed below everything.
    fn emit_update(&self, m: Monitor, focused: Option<Wid>, acts: &mut Vec<Action>)
        ensures
            final(acts)@ == old(acts)@ + self.update_acts_spec(m, focused),
    {
        let focused_here: bool = match focused {
            Some(x) => self.contains(x),
            None => false,
        };
        acts.push(Action::BarUpdate {
            screen: self.id,
            x: m.rect.x,
            y: m.rect.y,
            w: m.rect.w,
            focused: focused_here,
        });
        self.background.configure(m.rect, self.background.border_width, acts);
        acts.push(Action::StackBelow(self.background.frame));
        proof {
            assert(acts@ =~= old(acts)@ + self.update_acts_spec(m, focused));
        }
    }

    /// The windows after a refresh: on a parked screen nothing moves;
    /// on an attached screen the highlight pass rewrites every mapped
    /// window.
    pub open spec fn refresh_windows_spec(self, focused: Option<Wid>) -> Seq<Window> {
        refresh_windows_fn(self.windows@, self.monitor, focused)
    }

    /// Every request of one refresh, in order: tile the mapped
    /// non-floating windows, place the mapped floating windows at
    /// monitor origin plus their stored rectangle, repaint highlights,
    /// then the bar-and-background bookkeeping.  A parked screen does
    /// nothing.
    pub open spec fn refresh_acts_spec(self, focused: Option<Wid>) -> Seq<Action> {
        refresh_acts_fn(
            self.windows@,
            self.monitor,
            self.background,
            self.active_kind(),
            self.border_visible,
            self.border_width,
            self.id,
            focused,
        )
    }

    /// Recompute geometry for every visible window: a no-op when
    /// parked; otherwise the active layout places the tiled windows in
    /// the monitor area (minus the bar strip, unless full-screen), each
    /// mapped floating window is put at its stored rectangle, and every
    /// mapped window's highlight is recomputed against the focused id.
    #[verifier::rlimit(100)]
    pub fn refresh_layout(&mut self, focused: Option<Wid>, acts: &mut Vec<Action>)
        requires
            old(self).wf(),
        ensures
            final(self).same_shape(*old(self)),
            final(self).monitor == old(self).monitor,
            final(self).background == old(self).background,
            final(self).windows@ == old(self).refresh_windows_spec(focused),
            final(acts)@ == old(acts)@ + old(self).refresh_acts_spec(focused),
            final(self).wf(),
    {
        let m: Monitor = match self.monitor {
            None => {
                return ;
            },
            Some(m) => m,
        };
        let ghost ws = self.windows@;
        let ghost g_idxs = tiled_idxs(ws);
        let ghost g_frames = tiled_frames(ws);
        proof {
            lemma_tiled_props(ws);
            assert forall|j: int| 0 <= j < ws.len() implies (#[trigger] ws[j]).wf() by {
                assert(old(self).windows@[j].wf());
            };
        }
        let n: usize = self.windows.len();
        let (idxs, frames) = self.collect_tiled();
        // the layout pass
        let kind: LayoutKind = self.layouts[self.active_layout];
        let area: Rect = if kind.is_fullscreen() {
            m.rect
        } else {
            Rect {
                x: m.rect.x,
                y: m.rect.y + (BAR_HEIGHT as i32),
                w: m.rect.w,
                h: m.rect.h - BAR_HEIGHT,
            }
        };
        proof {
            assert(area == self.layout_area(m));
            assert(area_ok(area));
        }
        let ff: Option<Wid> = self.focused_frame(focused);
        let bv: bool = self.border_visible;
        let bw: u32 = self.border_width;
        let places: Vec<Placement> = arrange(&kind, area, &frames, bv, bw, ff);
        let ghost g_places = arrange_spec(kind, area, g_frames, bv, bw, ff);
        let ghost base0 = acts@;
        let tn: usize = idxs.len();
        let mut k: usize = 0;
        while k < tn
            invariant
                k <= tn,
                tn == g_idxs.len(),
                idxs@.len() == tn,
                places@ == g_places,
                g_places.len() == tn,
                g_idxs == tiled_idxs(ws),
                forall|k2: int| 0 <= k2 < tn ==> #[trigger] idxs@[k2] as int == g_idxs[k2],
                self.windows@ == ws,
                acts@ == base0 + tile_all_acts(ws, g_idxs, g_places, k as int),
            decreases tn - k,
        {
            proof {
                lemma_tiled_props(ws);
                assert(idxs@[k as int] as int == g_idxs[k as int]);
                assert(0 <= tiled_idxs(ws)[k as int] < ws.len());
            }
            let wi: usize = idxs[k];
            let w: Window = self.windows[wi];
            let p: Placement = places[k];
            w.configure(Rect { x: p.x, y: p.y, w: p.w, h: p.h }, p.border_width, acts);
            if p.raise {
                acts.push(Action::StackAbove(w.frame));
            }
            proof {
                assert(w == ws[g_idxs[k as int]]);
                assert(acts@ =~= base0 + tile_all_acts(ws, g_idxs, g_places, k as int + 1));
            }
            k = k + 1;
        }
        // floating windows keep their stored rectangle
        let ghost base1 = acts@;
        let mut i2: usize = 0;
        while i2 < n
            invariant
                i2 <= n,
                n == ws.len(),
                self.windows@ == ws,
                m.wf(),
                forall|j: int| 0 <= j < n ==> (#[trigger] ws[j]).wf(),
                acts@ == base1 + float_all_acts(ws.take(i2 as int), m),
            decreases n - i2,
        {
            let w: Window = self.windows[i2];
            proof {
                assert(ws.take(i2 as int + 1).drop_last() =~= ws.take(i2 as int));
                assert(ws.take(i2 as int + 1).last() == ws[i2 as int]);
                assert(ws[i2 as int].wf());
            }
            if w.is_mapped() && w.is_floating() {
                match w.get_float_geometry() {
                    Some(g) => {
                        let rect = Rect {
                            x: m.rect.x + g.x,
                            y: m.rect.y + g.y,
                            w: g.w,
                            h: g.h,
                        };
                        w.configure(rect, w.border_width, acts);
                        proof {
                            assert(acts@ =~= base1 + float_all_acts(ws.take(i2 as int + 1), m));
                        }
                    },
                    None => {
                        proof {
                            assert(false);
                        }
                    },
                }
            } else {
                proof {
                    assert(acts@ =~= base1 + float_all_acts(ws.take(i2 as int + 1), m));
                }
            }
            i2 = i2 + 1;
        }
        proof {
            assert(ws.take(n as int) =~= ws);
        }
        // highlight pass
        let ghost base2 = acts@;
        let mut i3: usize = 0;
        while i3 < n
            invariant
                i3 <= n,
                n == ws.len(),
                self.windows@.len() == n,
                self.same_shape(*old(self)),
                self.monitor == Some(m),
                self.background == old(self).background,
                forall|j: int| 0 <= j < i3 ==> self.windows@[j] == hl_one(ws[j], focused),
                forall|j: int| i3 <= j < n ==> self.windows@[j] == ws[j],
                acts@ == base2 + hl_all_acts(ws.take(i3 as int), focused),
            decreases n - i3,
        {
            let w0: Window = self.windows[i3];
            proof {
                assert(w0 == ws[i3 as int]);
                assert(ws.take(i3 as int + 1).drop_last() =~= ws.take(i3 as int));
                assert(ws.take(i3 as int + 1).last() == ws[i3 as int]);
            }
            if w0.is_mapped() {
                let hl: bool = match focused {
                    Some(x) => w0.contains(x),
                    None => false,
                };
                let mut w: Window = w0;
                w.set_highlight(hl, acts);
                self.windows.set(i3, w);
            }
            proof {
                assert(acts@ =~= base2 + hl_all_acts(ws.take(i3 as int + 1), focused));
            }
            i3 = i3 + 1;
        }
        proof {
            assert(ws.take(n as int) =~= ws);
            assert(self.windows@ =~= hl_all(ws, focused));
        }
        // bar and background bookkeeping
        proof {
            assert forall|j: int| 0 <= j < n implies (#[trigger] self.windows@[j]).wf()
                && self.windows@[j].frame == ws[j].frame && self.windows@[j].inner
                == ws[j].inner by {
                assert(self.windows@[j] == hl_one(ws[j], focused));
                assert(ws[j].wf());
            };
            assert(self.update_acts_spec(m, focused) == old(self).update_acts_spec(m, focused))
                by {
                match focused {
                    Some(x) => {
                        if owns_win(self.windows@, x) {
                            let j = choose|j: int|
                                0 <= j < n && #[trigger] self.windows@[j].contains_spec(x);
                            assert(ws[j].contains_spec(x));
                        }
                        if owns_win(ws, x) {
                            let j = choose|j: int|
                                0 <= j < n && #[trigger] ws[j].contains_spec(x);
                            assert(self.windows@[j].contains_spec(x));
                        }
                    },
                    None => {},
                }
            };
        }
        self.emit_update(m, focused, acts);
        proof {
            lemma_windows_wf_transfer(ws, self.windows@, self.background);
            assert(acts@ =~= old(acts)@ + old(self).refresh_acts_spec(focused));
        }
    }

    /// Focus the first mapped window in id order, or the background if
    /// no window is mapped: the guarantee that some window always holds
    /// the input focus.
    pub fn focus_any(&self, acts: &mut Vec<Action>) -> (r: Wid)
        ensures
            r == self.focus_any_target(),
            final(acts)@ == old(acts)@ + seq![Action::SetFocus(r)],
    {
        let ghost ws = self.windows@;
        let n: usize = self.windows.len();
        let mut hit: Option<usize> = None;
        let mut i: usize = 0;
        while i < n
            invariant
                i <= n,
                n == ws.len(),
                ws == self.windows@,
                match hit {
                    Some(q) => q < i && ws[q as int].is_mapped_spec() && forall|j: int|
                        0 <= j < q ==> !(#[trigger] ws[j]).is_mapped_spec(),
                    None => forall|j: int| 0 <= j < i ==> !(#[trigger] ws[j]).is_mapped_spec(),
                },
            decreases n - i,
        {
            if hit.is_none() && self.windows[i].is_mapped() {
                hit = Some(i);
            }
            i = i + 1;
        }
        match hit {
            Some(q) => {
                proof {
                    lemma_first_mapped_at(ws, q as int);
                }
                self.windows[q].focus(acts)
            },
            None => {
                proof {
                    lemma_first_mapped_none(ws);
                }
                self.background.focus(acts)
            },
        }
    }

    /// Who one cyclic focus step lands on.  From a window this screen
    /// does not hold (or from the background), fall back to the first
    /// mapped window; from a window outside the tiling walk (unmapped
    /// or floating), the same; otherwise the neighbouring tiled window
    /// in id order, wrapping around.
    pub open spec fn focus_step_target(self, focused: Wid, forward: bool) -> Wid {
        let ws = self.windows@;
        if !self.contains_spec(focused) || self.background.contains_spec(focused) {
            self.focus_any_target()
        } else {
            let ci = the_win_idx(ws, focused);
            let l = tiled_idxs(ws);
            if l.contains(ci) {
                let p = choose|p: int| 0 <= p < l.len() && l[p] == ci;
                let np = if forward {
                    if p + 1 == l.len() {
                        0int
                    } else {
                        p + 1
                    }
                } else {
                    if p == 0 {
                        l.len() - 1
                    } else {
                        p - 1
                    }
                };
                ws[l[np]].inner
            } else {
                self.focus_any_target()
            }
        }
    }

    /// One cyclic step of the focus through the mapped, non-floating
    /// windows in id order.
    fn focus_step(&self, focused: Wid, forward: bool, acts: &mut Vec<Action>) -> (r: Wid)
        requires
            self.wf(),
        ensures
            r == self.focus_step_target(focused, forward),
            final(acts)@ == old(acts)@ + seq![Action::SetFocus(r)],
    {
        let ghost ws = self.windows@;
        if !self.contains(focused) || self.background.contains(focused) {
            return self.focus_any(acts);
        }
        let ci: usize = match self.window_index(focused) {
            Some(ci) => ci,
            None => {
                proof {
                    assert(false);
                }
                return self.focus_any(acts);
            },
        };
        proof {
            assert(ws[ci as int].contains_spec(focused));
            assert(owns_win(ws, focused));
            let t = the_win_idx(ws, focused);
            assert(ws[t].contains_spec(focused));
            if t != ci as int {
                assert(wins_disjoint(ws[t], ws[ci as int]));
                assert(false);
            }
            lemma_tiled_props(ws);
        }
        let (idxs, _frames) = self.collect_tiled();
        let ghost l = tiled_idxs(ws);
        let ln: usize = idxs.len();
        let mut hit: Option<usize> = None;
        let mut p: usize = 0;
        while p < ln
            invariant
                p <= ln,
                ln == l.len(),
                idxs@.len() == ln,
                forall|k: int| 0 <= k < ln ==> #[trigger] idxs@[k] as int == l[k],
                match hit {
                    Some(q) => q < p && l[q as int] == ci as int,
                    None => forall|k: int| 0 <= k < p ==> #[trigger] l[k] != ci as int,
                },
            decreases ln - p,
        {
            if hit.is_none() && idxs[p] == ci {
                hit = Some(p);
            }
            p = p + 1;
        }
        match hit {
            Some(q) => {
                proof {
                    assert(l[q as int] == ci as int);
                    assert(l.contains(ci as int));
                    let cp = choose|cp: int| 0 <= cp < l.len() && l[cp] == ci as int;
                    lemma_tiled_props(ws);
                    if cp < q as int {
                        assert(l[cp] < l[q as int]);
                    }
                    if cp > q as int {
                        assert(l[q as int] < l[cp]);
                    }
                }
                let np: usize = if forward {
                    if q + 1 == ln {
                        0
                    } else {
                        q + 1
                    }
                } else {
                    if q == 0 {
                        ln - 1
                    } else {
                        q - 1
                    }
                };
                proof {
                    lemma_tiled_props(ws);
                    assert(0 <= tiled_idxs(ws)[np as int] < ws.len());
                }
                self.windows[idxs[np]].focus(acts)
            },
            None => {
                proof {
                    if l.contains(ci as int) {
                        let k = choose|k: int| 0 <= k < l.len() && l[k] == ci as int;
                        assert(l[k] != ci as int);
                    }
                }
                self.focus_any(acts)
            },
        }
    }

    /// Move the focus to the next tiled window in cyclic id order; from
    /// outside the walk, to the first mapped window or the background.
    pub fn focus_next(&self, focused: Wid, acts: &mut Vec<Action>) -> (r: Wid)
        requires
            self.wf(),
        ensures
            r == self.focus_step_target(focused, true),
            final(acts)@ == old(acts)@ + seq![Action::SetFocus(r)],
    {
        self.focus_step(focused, true, acts)
    }

    /// Move the focus to the previous tiled window in cyclic id order:
    /// the exact reverse of `focus_next`.
    pub fn focus_prev(&self, focused: Wid, acts: &mut Vec<Action>) -> (r: Wid)
        requires
            self.wf(),
        ensures
            r == self.focus_step_target(focused, false),
            final(acts)@ == old(acts)@ + seq![Action::SetFocus(r)],
    {
        self.focus_step(focused, false, acts)
    }

    /// Rotate the layout ring by one and refresh.
    pub fn next_layout(&mut self, focused: Option<Wid>, acts: &mut Vec<Action>)
        requires
            old(self).wf(),
        ensures
            final(self).same_shape(
                Screen { active_layout: final(self).active_layout, ..*old(self) },
            ),
            final(self).monitor == old(self).monitor,
            final(self).background == old(self).background,
            final(self).active_layout as int == (if old(self).active_layout + 1 == old(
                self,
            ).layouts@.len() {
                0int
            } else {
                old(self).active_layout + 1
            }),
            final(self).windows@ == refresh_windows_fn(
                old(self).windows@,
                old(self).monitor,
                focused,
            ),
            final(acts)@ == old(acts)@ + refresh_acts_fn(
                old(self).windows@,
                old(self).monitor,
                old(self).background,
                final(self).active_kind(),
                old(self).border_visible,
                old(self).border_width,
                old(self).id,
                focused,
            ),
            final(self).wf(),
    {
        let ln: usize = self.layouts.len();
        let next: usize = if self.active_layout + 1 == ln {
            0
        } else {
            self.active_layout + 1
        };
        self.active_layout = next;
        self.refresh_layout(focused, acts);
    }

    /// Hand the active layout a ratio adjustment and refresh.
    pub fn layout_command(&mut self, cmd: LayoutCmd, focused: Option<Wid>, acts: &mut Vec<Action>)
        requires
            old(self).wf(),
        ensures
            final(self).id == old(self).id,
            final(self).monitor == old(self).monitor,
            final(self).background == old(self).background,
            final(self).active_layout == old(self).active_layout,
            final(self).border_visible == old(self).border_visible,
            final(self).border_width == old(self).border_width,
            final(self).layouts@ == old(self).layouts@.update(
                old(self).active_layout as int,
                old(self).active_kind().after_command(cmd),
            ),
            final(self).windows@ == refresh_windows_fn(
                old(self).windows@,
                old(self).monitor,
                focused,
            ),
            final(acts)@ == old(acts)@ + refresh_acts_fn(
                old(self).windows@,
                old(self).monitor,
                old(self).background,
                old(self).active_kind().after_command(cmd),
                old(self).border_visible,
                old(self).border_width,
                old(self).id,
                focused,
            ),
            final(self).wf(),
    {
        let mut k: LayoutKind = self.layouts[self.active_layout];
        k.process_command(cmd);
        self.layouts.set(self.active_layout, k);
        self.refresh_layout(focused, acts);
    }

    /// What a window looks like when it enters this screen: on a
    /// parked screen a mapped window is forced hidden first.
    pub open spec fn add_prepared(self, win: Window) -> Window {
        if self.monitor is None && win.is_mapped_spec() {
            win.after_conceal()
        } else {
            win
        }
    }

    /// A window the screen will not adopt: one whose ids it already
    /// answers to, or one beyond the id-space capacity.
    pub open spec fn add_rejected(self, win: Window) -> bool {
        self.contains_spec(win.frame) || self.contains_spec(win.inner) || self.windows@.len()
            >= 0xfffe
    }

    /// The sorted position a fresh frame id takes among the windows.
    pub open spec fn is_insert_pos(ws: Seq<Window>, f: Wid, p: int) -> bool {
        &&& 0 <= p <= ws.len()
        &&& forall|j: int| 0 <= j < p ==> (#[trigger] ws[j]).frame < f
        &&& forall|j: int| p <= j < ws.len() ==> (#[trigger] ws[j]).frame > f
    }

    /// Adopt a window: a no-op if the screen already answers to one of
    /// its ids; on a parked screen the window is hidden first; then it
    /// is inserted at its id-sorted position and the layout refreshed.
    pub fn add_window(&mut self, win: Window, focused: Option<Wid>, acts: &mut Vec<Action>)
        requires
            old(self).wf(),
            win.wf(),
        ensures
            final(self).same_shape(*old(self)),
            final(self).monitor == old(self).monitor,
            final(self).background == old(self).background,
            final(self).wf(),
            old(self).add_rejected(win) ==> *final(self) == *old(self) && final(acts)@ == old(
                acts,
            )@,
            !old(self).add_rejected(win) ==> exists|p: int|
                {
                    &&& #[trigger] Screen::is_insert_pos(old(self).windows@, win.frame, p)
                    &&& final(self).windows@ == refresh_windows_fn(
                        old(self).windows@.insert(p, old(self).add_prepared(win)),
                        old(self).monitor,
                        focused,
                    )
                    &&& final(acts)@ == old(acts)@ + (if old(self).monitor is None
                        && win.is_mapped_spec() {
                        win.conceal_acts()
                    } else {
                        Seq::<Action>::empty()
                    }) + refresh_acts_fn(
                        old(self).windows@.insert(p, old(self).add_prepared(win)),
                        old(self).monitor,
                        old(self).background,
                        old(self).active_kind(),
                        old(self).border_visible,
                        old(self).border_width,
                        old(self).id,
                        focused,
                    )
                },
    {
        let nw: usize = self.windows.len();
        if self.contains(win.frame) || self.contains(win.inner) || nw >= 0xfffe {
            return ;
        }
        let ghost ws = self.windows@;
        let mut w2: Window = win;
        if self.monitor.is_none() && w2.is_mapped() {
            w2.conceal(acts);
        }
        proof {
            assert(w2 == old(self).add_prepared(win));
        }
        let mut p: usize = 0;
        while p < nw && self.windows[p].frame < win.frame
            invariant
                p <= nw,
                nw == ws.len(),
                ws == self.windows@,
                forall|j: int| 0 <= j < p ==> (#[trigger] ws[j]).frame < win.frame,
            decreases nw - p,
        {
            p = p + 1;
        }
        proof {
            assert forall|j: int| p <= j < nw implies (#[trigger] ws[j]).frame > win.frame by {
                if p < nw {
                    assert(!ws[p as int].contains_spec(win.frame));
                    assert(ws[p as int].frame >= win.frame);
                    if j > p {
                        assert(ws[p as int].frame < ws[j].frame);
                    }
                }
            };
            assert(Screen::is_insert_pos(ws, win.frame, p as int));
            assert forall|a: int|
                0 <= a < ws.len() implies !(#[trigger] ws[a]).contains_spec(w2.inner)
                && !ws[a].contains_spec(w2.frame) by {
                assert(!owns_win(ws, win.inner) || false);
                assert(!ws[a].contains_spec(win.inner));
                assert(!ws[a].contains_spec(win.frame));
            };
            lemma_wf_windows_insert(ws, self.background, p as int, w2);
        }
        self.windows.insert(p, w2);
        self.refresh_layout(focused, acts);
        proof {
            assert(Screen::is_insert_pos(old(self).windows@, win.frame, p as int));
        }
    }

    /// Who the focus moves to when the window holding `wid` is
    /// forgotten: nobody unless this screen holds the focused id; the
    /// next window in cyclic order, chosen while the departing window
    /// is still present; or, if the walk landed on the departing window
    /// itself, whatever `focus_any` picks once it is gone.
    pub open spec fn forget_nf(self, wid: Wid, focused: Option<Wid>) -> Option<Wid> {
        let ws = self.windows@;
        let ti = the_win_idx(ws, wid);
        match focused {
            Some(f) => if self.contains_spec(f) {
                let nf1 = self.focus_step_target(f, true);
                if ws[ti].contains_spec(nf1) {
                    Some(focus_any_fn(ws.remove(ti), self.background))
                } else {
                    Some(nf1)
                }
            } else {
                None
            },
            None => None,
        }
    }

    /// The focus the refresh after a removal highlights against.
    pub open spec fn forget_eff(self, wid: Wid, focused: Option<Wid>) -> Option<Wid> {
        match self.forget_nf(wid, focused) {
            Some(x) => Some(x),
            None => focused,
        }
    }

    /// Remove the window answering to `wid` and hand it back.  If the
    /// focused id lives on this screen, the focus is moved first, while
    /// the departing window is still a valid cyclic-walk anchor; should
    /// the walk land on the departing window itself, the focus falls
    /// back to `focus_any` after the removal, so it always rests on a
    /// still-valid window.  Ends with a refresh.
    pub fn forget_window(&mut self, wid: Wid, focused: Option<Wid>, acts: &mut Vec<Action>) -> (r:
        (Window, Option<Wid>))
        requires
            old(self).wf(),
            owns_win(old(self).windows@, wid),
        ensures
            final(self).same_shape(*old(self)),
            final(self).monitor == old(self).monitor,
            final(self).background == old(self).background,
            final(self).wf(),
            r.0 == old(self).windows@[the_win_idx(old(self).windows@, wid)],
            r.1 == old(self).forget_nf(wid, focused),
            final(self).windows@ == refresh_windows_fn(
                old(self).windows@.remove(the_win_idx(old(self).windows@, wid)),
                old(self).monitor,
                old(self).forget_eff(wid, focused),
            ),
            final(acts)@ == old(acts)@ + (match focused {
                Some(f) => if old(self).contains_spec(f) {
                    seq![Action::SetFocus(old(self).focus_step_target(f, true))]
                } else {
                    Seq::<Action>::empty()
                },
                None => Seq::<Action>::empty(),
            }) + (if old(self).forget_repair(wid, focused) {
                seq![
                    Action::SetFocus(
                        focus_any_fn(
                            old(self).windows@.remove(the_win_idx(old(self).windows@, wid)),
                            old(self).background,
                        ),
                    ),
                ]
            } else {
                Seq::<Action>::empty()
            }) + refresh_acts_fn(
                old(self).windows@.remove(the_win_idx(old(self).windows@, wid)),
                old(self).monitor,
                old(self).background,
                old(self).active_kind(),
                old(self).border_visible,
                old(self).border_width,
                old(self).id,
                old(self).forget_eff(wid, focused),
            ),
    {
        let ghost ws = self.windows@;
        let ghost ti = the_win_idx(ws, wid);
        let mut nf: Option<Wid> = None;
        if let Some(f) = focused {
            if self.contains(f) {
                nf = Some(self.focus_next(f, acts));
            }
        }
        let idx: usize = match self.window_index(wid) {
            Some(i) => i,
            None => {
                proof {
                    assert(false);
                }
                0
            },
        };
        proof {
            assert(ws[idx as int].contains_spec(wid));
            assert(ws[ti].contains_spec(wid));
            if ti != idx as int {
                assert(wins_disjoint(ws[ti], ws[idx as int]));
                assert(false);
            }
            lemma_wf_windows_remove(ws, self.background, idx as int);
        }
        let removed: Window = self.windows.remove(idx);
        if let Some(x) = nf {
            if removed.contains(x) {
                let t2: Wid = self.focus_any(acts);
                nf = Some(t2);
            }
        }
        proof {
            assert(nf == old(self).forget_nf(wid, focused));
        }
        let eff: Option<Wid> = match nf {
            Some(x) => Some(x),
            None => focused,
        };
        self.refresh_layout(eff, acts);
        (removed, nf)
    }

    /// A cyclic focus step always lands on something this screen
    /// answers to.
    pub proof fn lemma_focus_step_contained(self, f: Wid, fw: bool)
        requires
            self.wf(),
        ensures
            self.contains_spec(self.focus_step_target(f, fw)),
    {
        let ws = self.windows@;
        if !self.contains_spec(f) || self.background.contains_spec(f) {
            lemma_focus_any_contained(ws, self.background);
        } else {
            let ci = the_win_idx(ws, f);
            let l = tiled_idxs(ws);
            if l.contains(ci) {
                let p = choose|p: int| 0 <= p < l.len() && l[p] == ci;
                lemma_tiled_props(ws);
                let np = if fw {
                    if p + 1 == l.len() {
                        0int
                    } else {
                        p + 1
                    }
                } else {
                    if p == 0 {
                        l.len() - 1
                    } else {
                        p - 1
                    }
                };
                assert(0 <= l[np] < ws.len());
                assert(ws[l[np]].contains_spec(ws[l[np]].inner));
            } else {
                lemma_focus_any_contained(ws, self.background);
            }
        }
    }

    /// After forgetting a window, the focus chosen by `forget_nf` rests
    /// on something the post-removal screen still answers to.
    pub proof fn lemma_forget_nf_contained(self, wid: Wid, focused: Option<Wid>)
        requires
            self.wf(),
            owns_win(self.windows@, wid),
            self.forget_nf(wid, focused) is Some,
        ensures
            owns_win(
                self.windows@.remove(the_win_idx(self.windows@, wid)),
                self.forget_nf(wid, focused).unwrap(),
            ) || self.background.contains_spec(self.forget_nf(wid, focused).unwrap()),
    {
        let ws = self.windows@;
        let ti = the_win_idx(ws, wid);
        assert(ws[ti].contains_spec(wid));
        let s2 = ws.remove(ti);
        assert forall|a: int| 0 <= a < s2.len() implies #[trigger] s2[a] == (if a < ti {
            ws[a]
        } else {
            ws[a + 1]
        }) by {};
        let f = focused.unwrap();
        let nf1 = self.focus_step_target(f, true);
        if ws[ti].contains_spec(nf1) {
            lemma_focus_any_contained(s2, self.background);
        } else {
            self.lemma_focus_step_contained(f, true);
            if owns_win(ws, nf1) {
                let j = choose|j: int| 0 <= j < ws.len() && #[trigger] ws[j].contains_spec(nf1);
                assert(j != ti);
                if j < ti {
                    assert(s2[j] == ws[j]);
                    assert(s2[j].contains_spec(nf1));
                } else {
                    assert(s2[j - 1] == ws[j]);
                    assert(s2[j - 1].contains_spec(nf1));
                }
            }
        }
    }

    /// Whether the cyclic walk landed on the departing window itself,
    /// forcing the post-removal fallback.
    pub open spec fn forget_repair(self, wid: Wid, focused: Option<Wid>) -> bool {
        let ws = self.windows@;
        let ti = the_win_idx(ws, wid);
        match focused {
            Some(f) => self.contains_spec(f) && ws[ti].contains_spec(
                self.focus_step_target(f, true),
            ),
            None => false,
        }
    }

    /// Hand this screen another monitor assignment (or none) in place,
    /// without touching any window; used when two screens trade their
    /// monitors.  Returns the previous assignment.
    pub fn replace_monitor(&mut self, m: Option<Monitor>) -> (r: Option<Monitor>)
        requires
            old(self).wf(),
            match m {
                Some(mm) => mm.wf(),
                None => true,
            },
        ensures
            r == old(self).monitor,
            *final(self) == (Screen { monitor: m, ..*old(self) }),
            final(self).wf(),
    {
        let r: Option<Monitor> = self.monitor;
        self.monitor = m;
        r
    }
}

} // verus!
