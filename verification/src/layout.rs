//! Tiling layout strategies.
//!
//! A layout is a pure function from a monitor area, an ordered list of
//! frame ids and a border flag to one placement per frame.  The three
//! strategies are a closed ring: horizontal split (optionally with a
//! resizable primary pane), vertical split, and full-screen.

use vstd::prelude::*;

use vstd::arithmetic::div_mod::{
    lemma_div_is_ordered_by_denominator, lemma_div_pos_is_pos, lemma_fundamental_div_mod,
    lemma_remainder_lower,
};
use vstd::arithmetic::mul::lemma_mul_inequality;

use crate::action::Wid;
use crate::geometry::Rect;

verus! {

/// An adjustment of the active layout's primary-pane ratio.
#[derive(Clone, Copy, Debug, PartialEq, Eq, Structural)]
pub enum LayoutCmd {
    Grow,
    Shrink,
}

/// One tiling strategy together with its private state.
#[derive(Clone, Copy, Debug, PartialEq, Eq, Structural)]
pub enum LayoutKind {
    /// Splits the width.  With no ratio configured every window gets an
    /// equal slice; with a ratio, window 0 gets `ratio` percent of the
    /// width and the remaining windows split the rest equally.
    Horizontal { ratio: Option<u32> },
    /// Splits the height equally.
    Vertical,
    /// Every window covers the whole area; the focused one is raised.
    FullScreen,
}

/// Bounds on a layout area: wide enough for wire coordinates plus the
/// reserved bar strip, and sized within the wire's 16-bit limits.
pub open spec fn area_ok(r: Rect) -> bool {
    &&& -0x8000 <= r.x <= 0x9000
    &&& -0x8000 <= r.y <= 0x9000
    &&& 1 <= r.w <= 0xffff
    &&& 1 <= r.h <= 0xffff
}

/// A computed position, size, border and stacking for one frame.
#[derive(Clone, Copy, Debug, PartialEq, Eq, Structural)]
pub struct Placement {
    pub frame: Wid,
    pub x: i32,
    pub y: i32,
    pub w: u32,
    pub h: u32,
    pub border_width: u32,
    pub raise: bool,
}

/// Lowest and highest value the primary-pane ratio may take.
pub const RATIO_MIN: u32 = 5;

pub const RATIO_MAX: u32 = 95;

/// Step by which one ratio adjustment moves the primary pane.
pub const RATIO_STEP: u32 = 5;

impl LayoutKind {
    pub open spec fn wf(self) -> bool {
        match self {
            LayoutKind::Horizontal { ratio } => match ratio {
                Some(r) => RATIO_MIN <= r <= RATIO_MAX,
                None => true,
            },
            _ => true,
        }
    }

    pub open spec fn is_fullscreen_spec(self) -> bool {
        self is FullScreen
    }

    pub fn is_fullscreen(&self) -> (r: bool)
        ensures
            r == self.is_fullscreen_spec(),
    {
        matches!(self, LayoutKind::FullScreen)
    }

    /// The strategy's name.
    pub fn name(&self) -> (r: &'static str)
        ensures
            self is Horizontal ==> r@ == "horizontal"@,
            self is Vertical ==> r@ == "vertical"@,
            self is FullScreen ==> r@ == "full-screen"@,
    {
        match self {
            LayoutKind::Horizontal { .. } => "horizontal",
            LayoutKind::Vertical => "vertical",
            LayoutKind::FullScreen => "full-screen",
        }
    }

    /// State after a ratio adjustment: the primary-pane ratio moves one
    /// step, staying within `[RATIO_MIN, RATIO_MAX]`; a previously
    /// unconfigured ratio starts from the midpoint.  The other
    /// strategies ignore the command.
    pub open spec fn after_command(self, cmd: LayoutCmd) -> LayoutKind {
        match self {
            LayoutKind::Horizontal { ratio } => {
                let cur = match ratio {
                    Some(r) => r,
                    None => 50u32,
                };
                let new = match cmd {
                    LayoutCmd::Grow => if cur + RATIO_STEP <= RATIO_MAX {
                        (cur + RATIO_STEP) as u32
                    } else {
                        cur
                    },
                    LayoutCmd::Shrink => if cur >= RATIO_MIN + RATIO_STEP {
                        (cur - RATIO_STEP) as u32
                    } else {
                        cur
                    },
                };
                LayoutKind::Horizontal { ratio: Some(new) }
            },
            _ => self,
        }
    }

    /// Adjust the primary-pane ratio.
    pub fn process_command(&mut self, cmd: LayoutCmd)
        requires
            old(self).wf(),
        ensures
            *final(self) == old(self).after_command(cmd),
            final(self).wf(),
    {
        match self {
            LayoutKind::Horizontal { ratio } => {
                let cur: u32 = match ratio {
                    Some(r) => *r,
                    None => 50,
                };
                let new: u32 = match cmd {
                    LayoutCmd::Grow => if cur + RATIO_STEP <= RATIO_MAX {
                        cur + RATIO_STEP
                    } else {
                        cur
                    },
                    LayoutCmd::Shrink => if cur >= RATIO_MIN + RATIO_STEP {
                        cur - RATIO_STEP
                    } else {
                        cur
                    },
                };
                *self = LayoutKind::Horizontal { ratio: Some(new) };
            },
            _ => {},
        }
    }
}

/// A slice shrunk to leave room for a border of width `b` on every
/// side, floored at one pixel so a degenerate area never produces a
/// zero-sized window.
pub open spec fn shrink(v: int, b: int) -> u32 {
    if v > 2 * b {
        (v - 2 * b) as u32
    } else {
        1u32
    }
}

/// Width of the primary pane of a horizontal split.
pub open spec fn h_main(mw: int, n: int, ratio: Option<u32>) -> int {
    if n <= 1 {
        mw
    } else {
        match ratio {
            Some(r) => mw * r / 100,
            None => mw / n,
        }
    }
}

/// Width of each non-primary pane of a horizontal split.
pub open spec fn h_rest(mw: int, n: int, ratio: Option<u32>) -> int {
    if n <= 1 {
        0
    } else {
        match ratio {
            Some(r) => (mw - mw * r / 100) / (n - 1),
            None => mw / n,
        }
    }
}

/// Horizontal offset of pane `i` of a horizontal split.
pub open spec fn h_xoff(mw: int, n: int, ratio: Option<u32>, i: int) -> int {
    if i <= 0 {
        0
    } else {
        h_main(mw, n, ratio) + (i - 1) * h_rest(mw, n, ratio)
    }
}

/// The placement a strategy computes for the window at position `i` of
/// the (id-sorted) slice of visible, tiled frames.
pub open spec fn placement_at(
    kind: LayoutKind,
    area: Rect,
    frames: Seq<Wid>,
    border_visible: bool,
    bw: u32,
    focused_frame: Option<Wid>,
    i: int,
) -> Placement {
    let n = frames.len() as int;
    let b: int = if border_visible {
        bw as int
    } else {
        0
    };
    let bword: u32 = if border_visible {
        bw
    } else {
        0
    };
    match kind {
        LayoutKind::Horizontal { ratio } => {
            let slice = if i == 0 {
                h_main(area.w as int, n, ratio)
            } else {
                h_rest(area.w as int, n, ratio)
            };
            Placement {
                frame: frames[i],
                x: (area.x + h_xoff(area.w as int, n, ratio, i)) as i32,
                y: area.y,
                w: shrink(slice, b),
                h: shrink(area.h as int, b),
                border_width: bword,
                raise: false,
            }
        },
        LayoutKind::Vertical => Placement {
            frame: frames[i],
            x: area.x,
            y: (area.y + i * (area.h as int / n)) as i32,
            w: shrink(area.w as int, b),
            h: shrink(area.h as int / n, b),
            border_width: bword,
            raise: false,
        },
        LayoutKind::FullScreen => Placement {
            frame: frames[i],
            x: area.x,
            y: area.y,
            w: area.w,
            h: area.h,
            border_width: 0,
            raise: focused_frame == Some(frames[i]),
        },
    }
}

/// All placements of one layout pass, in the order of `frames`.
pub open spec fn arrange_spec(
    kind: LayoutKind,
    area: Rect,
    frames: Seq<Wid>,
    border_visible: bool,
    bw: u32,
    focused_frame: Option<Wid>,
) -> Seq<Placement> {
    Seq::new(frames.len(), |i: int| placement_at(kind, area, frames, border_visible, bw, focused_frame, i))
}

/// `i` multiples of `a / d` never exceed `a`, for `i <= d`.
proof fn lemma_mul_div_bound(a: int, d: int, i: int)
    requires
        0 <= a,
        1 <= d,
        0 <= i <= d,
    ensures
        0 <= i * (a / d),
        i * (a / d) <= a,
{
    let q = a / d;
    lemma_div_pos_is_pos(a, d);
    lemma_mul_inequality(i, d, q);
    lemma_fundamental_div_mod(a, d);
    lemma_remainder_lower(a, d);
    assert(i * q >= 0) by (nonlinear_arith)
        requires
            i >= 0,
            q >= 0,
    ;
}

/// The pane widths and offsets of a horizontal split all lie within the
/// area's width.
proof fn lemma_h_bounds(mw: int, n: int, ratio: Option<u32>, i: int)
    requires
        0 <= mw,
        0 <= n,
        0 <= i,
        i <= n || i <= 1,
        match ratio {
            Some(r) => 0 <= r <= 100,
            None => true,
        },
    ensures
        0 <= h_main(mw, n, ratio) <= mw,
        0 <= h_rest(mw, n, ratio) <= mw,
        0 <= h_xoff(mw, n, ratio, i) <= mw,
{
    let main = h_main(mw, n, ratio);
    let rest = h_rest(mw, n, ratio);
    if n <= 1 {
        assert(h_xoff(mw, n, ratio, i) == if i <= 0 {
            0int
        } else {
            mw + (i - 1) * 0
        });
    } else {
        match ratio {
            Some(r) => {
                assert(0 <= mw * r / 100 <= mw) by {
                    lemma_mul_inequality(r as int, 100, mw);
                    assert(mw * r == r * mw) by (nonlinear_arith);
                    assert(100 * mw == mw * 100) by (nonlinear_arith);
                    lemma_div_pos_is_pos(mw * r, 100);
                    lemma_fundamental_div_mod(mw * 100, 100);
                    vstd::arithmetic::div_mod::lemma_div_multiples_vanish(mw, 100);
                    lemma_div_is_ordered(mw * r, mw * 100, 100);
                };
                lemma_div_pos_is_pos(mw - main, n - 1);
                lemma_mul_div_bound(mw - main, n - 1, n - 1);
                if i >= 1 {
                    lemma_mul_div_bound(mw - main, n - 1, i - 1);
                    assert(h_xoff(mw, n, ratio, i) == main + (i - 1) * rest);
                    assert((i - 1) * rest <= mw - main) by {
                        lemma_mul_inequality(i - 1, n - 1, rest);
                        lemma_mul_div_bound(mw - main, n - 1, n - 1);
                    };
                }
                assert(rest <= mw) by {
                    lemma_mul_div_bound(mw - main, n - 1, 1);
                    assert(1 * rest == rest) by (nonlinear_arith);
                };
            },
            None => {
                lemma_div_pos_is_pos(mw, n);
                lemma_div_is_ordered_by_denominator(mw, 1, n);
                vstd::arithmetic::div_mod::lemma_div_basics(mw);
                if i >= 1 {
                    assert(h_xoff(mw, n, ratio, i) == main + (i - 1) * rest);
                    assert(main + (i - 1) * rest == i * (mw / n)) by (nonlinear_arith)
                        requires
                            main == mw / n && rest == mw / n,
                    ;
                    lemma_mul_div_bound(mw, n, i);
                }
            },
        }
    }
}

use vstd::arithmetic::div_mod::lemma_div_is_ordered;

/// Compute the placement of every frame in `frames` for one layout
/// pass over `area`.
pub fn arrange(
    kind: &LayoutKind,
    area: Rect,
    frames: &Vec<Wid>,
    border_visible: bool,
    bw: u32,
    focused_frame: Option<Wid>,
) -> (r: Vec<Placement>)
    requires
        kind.wf(),
        area_ok(area),
        bw <= 0xff,
        frames@.len() <= 0xffff,
    ensures
        r@ == arrange_spec(*kind, area, frames@, border_visible, bw, focused_frame),
{
    let ghost gspec = arrange_spec(*kind, area, frames@, border_visible, bw, focused_frame);
    let n: usize = frames.len();
    let b: u32 = if border_visible {
        bw
    } else {
        0
    };
    let mut r: Vec<Placement> = Vec::new();
    match kind {
        LayoutKind::Horizontal { ratio } => {
            let mw: u32 = area.w;
            let n32: u32 = n as u32;
            let main: u32;
            let rest: u32;
            if n <= 1 {
                main = mw;
                rest = 0;
            } else {
                match ratio {
                    Some(rt) => {
                        proof {
                            lemma_h_bounds(mw as int, n as int, Some(*rt), 0);
                            assert((mw as int) * (*rt as int) <= 0xffff * 95) by (nonlinear_arith)
                                requires
                                    mw <= 0xffff,
                                    *rt <= 95,
                            ;
                        }
                        main = mw * *rt / 100;
                        rest = (mw - main) / (n32 - 1);
                    },
                    None => {
                        main = mw / n32;
                        rest = mw / n32;
                    },
                }
            }
            assert(main == h_main(mw as int, n as int, *ratio)
                && rest == h_rest(mw as int, n as int, *ratio)) by {
                lemma_h_bounds(mw as int, n as int, *ratio, 0);
            };
            let mut xoff: u32 = 0;
            let mut i: usize = 0;
            while i < n
                invariant
                    i <= n,
                    n == frames@.len() <= 0xffff,
                    n32 == n as u32,
                    mw == area.w,
                    area_ok(area),
                    bw <= 0xff,
                    b == if border_visible { bw } else { 0u32 },
                    kind is Horizontal,
                    *kind == (LayoutKind::Horizontal { ratio: *ratio }),
                    kind.wf(),
                    main == h_main(mw as int, n as int, *ratio),
                    rest == h_rest(mw as int, n as int, *ratio),
                    xoff == h_xoff(mw as int, n as int, *ratio, i as int),
                    xoff <= mw,
                    r@.len() == i,
                    forall|j: int| 0 <= j < i ==> r@[j] == gspec[j],
                    gspec == arrange_spec(*kind, area, frames@, border_visible, bw, focused_frame),
                decreases n - i,
            {
                let slice: u32 = if i == 0 {
                    main
                } else {
                    rest
                };
                proof {
                    lemma_h_bounds(mw as int, n as int, *ratio, i as int);
                    lemma_h_bounds(mw as int, n as int, *ratio, i as int + 1);
                }
                let w: u32 = if slice > 2 * b {
                    slice - 2 * b
                } else {
                    1
                };
                let h: u32 = if area.h > 2 * b {
                    area.h - 2 * b
                } else {
                    1
                };
                let x: i32 = area.x + (xoff as i32);
                r.push(Placement {
                    frame: frames[i],
                    x,
                    y: area.y,
                    w,
                    h,
                    border_width: b,
                    raise: false,
                });
                proof {
                    assert(r@[i as int] == gspec[i as int]);
                    if i as int + 1 > 1 {
                        assert(h_xoff(mw as int, n as int, *ratio, i as int + 1)
                            == main + (i as int) * rest);
                        if i == 0 {
                            assert(main + 0 * rest == main) by (nonlinear_arith);
                        } else {
                            assert(main + (i as int) * rest
                                == (main + (i as int - 1) * rest) + rest) by (nonlinear_arith);
                        }
                    }
                }
                xoff = xoff + slice;
                i = i + 1;
            }
        },
        LayoutKind::Vertical => {
            let mh: u32 = area.h;
            let n32: u32 = n as u32;
            let slice: u32 = if n <= 1 {
                mh
            } else {
                mh / n32
            };
            proof {
                if n > 1 {
                    lemma_div_pos_is_pos(mh as int, n as int);
                    lemma_div_is_ordered_by_denominator(mh as int, 1, n as int);
                    vstd::arithmetic::div_mod::lemma_div_basics(mh as int);
                }
            }
            let mut yoff: u32 = 0;
            let mut i: usize = 0;
            while i < n
                invariant
                    i <= n,
                    n == frames@.len() <= 0xffff,
                    n32 == n as u32,
                    mh == area.h,
                    area_ok(area),
                    bw <= 0xff,
                    b == if border_visible { bw } else { 0u32 },
                    *kind == LayoutKind::Vertical,
                    n >= 1 ==> slice == (if n as int <= 1 { mh as int } else { mh as int / n as int }),
                    yoff == (i as int) * (if n as int <= 1 { mh as int } else { mh as int / n as int }),
                    yoff <= mh,
                    r@.len() == i,
                    forall|j: int| 0 <= j < i ==> r@[j] == gspec[j],
                    gspec == arrange_spec(*kind, area, frames@, border_visible, bw, focused_frame),
                decreases n - i,
            {
                proof {
                    let sl: int = if n as int <= 1 {
                        mh as int
                    } else {
                        mh as int / n as int
                    };
                    if n as int <= 1 {
                        assert(mh as int / n as int == mh as int) by {
                            vstd::arithmetic::div_mod::lemma_div_basics(mh as int);
                        };
                    }
                    lemma_mul_div_bound(mh as int, n as int, i as int + 1);
                    assert((i as int + 1) * sl == (i as int) * sl + sl) by (nonlinear_arith);
                    if n as int <= 1 {
                        assert((i as int + 1) * sl <= mh as int) by (nonlinear_arith)
                            requires
                                i as int + 1 <= n as int <= 1,
                                sl == mh as int,
                                mh >= 0,
                        ;
                    }
                }
                let w: u32 = if area.w > 2 * b {
                    area.w - 2 * b
                } else {
                    1
                };
                let h: u32 = if slice > 2 * b {
                    slice - 2 * b
                } else {
                    1
                };
                let y: i32 = area.y + (yoff as i32);
                r.push(Placement {
                    frame: frames[i],
                    x: area.x,
                    y,
                    w,
                    h,
                    border_width: b,
                    raise: false,
                });
                proof {
                    assert(r@[i as int] == gspec[i as int]);
                }
                yoff = yoff + slice;
                i = i + 1;
            }
        },
        LayoutKind::FullScreen => {
            let mut i: usize = 0;
            while i < n
                invariant
                    i <= n,
                    n == frames@.len() <= 0xffff,
                    *kind == LayoutKind::FullScreen,
                    r@.len() == i,
                    forall|j: int| 0 <= j < i ==> r@[j] == gspec[j],
                    gspec == arrange_spec(*kind, area, frames@, border_visible, bw, focused_frame),
                decreases n - i,
            {
                let raise: bool = match focused_frame {
                    Some(f) => f == frames[i],
                    None => false,
                };
                r.push(Placement {
                    frame: frames[i],
                    x: area.x,
                    y: area.y,
                    w: area.w,
                    h: area.h,
                    border_width: 0,
                    raise,
                });
                proof {
                    assert(r@[i as int] == gspec[i as int]);
                }
                i = i + 1;
            }
        },
    }
    proof {
        assert(r@ =~= gspec);
    }
    r
}

/// The horizontal split assigns disjoint panes inside the area: each
/// window's outer rectangle — position plus size plus the border drawn
/// on both sides — stays within the area's width, and distinct panes
/// never overlap.  This holds whenever every pane is wide enough for
/// its borders; a degenerate area falls back to one-pixel floors
/// instead, where nothing useful can be guaranteed.
pub proof fn lemma_horizontal_tiles_disjoint(
    area: Rect,
    frames: Seq<Wid>,
    border_visible: bool,
    bw: u32,
    focused_frame: Option<Wid>,
    ratio: Option<u32>,
)
    requires
        area_ok(area),
        bw <= 0xff,
        1 <= frames.len() <= 0xffff,
        match ratio {
            Some(r) => RATIO_MIN <= r <= RATIO_MAX,
            None => true,
        },
        h_main(area.w as int, frames.len() as int, ratio) > 2 * (if border_visible {
            bw as int
        } else {
            0
        }),
        frames.len() > 1 ==> h_rest(area.w as int, frames.len() as int, ratio) > 2 * (
        if border_visible {
            bw as int
        } else {
            0
        }),
        area.h > 2 * (if border_visible {
            bw as int
        } else {
            0
        }),
    ensures
        forall|i: int|
            #![trigger placement_at(LayoutKind::Horizontal { ratio }, area, frames, border_visible, bw, focused_frame, i)]
            0 <= i < frames.len() ==> {
                let p = placement_at(
                    LayoutKind::Horizontal { ratio },
                    area,
                    frames,
                    border_visible,
                    bw,
                    focused_frame,
                    i,
                );
                let b: int = if border_visible {
                    bw as int
                } else {
                    0
                };
                &&& area.x <= p.x
                &&& p.x + p.w + 2 * b <= area.x + area.w
                &&& p.y == area.y
                &&& p.h + 2 * b <= area.h
            },
        forall|i: int, j: int|
            #![trigger placement_at(LayoutKind::Horizontal { ratio }, area, frames, border_visible, bw, focused_frame, i), placement_at(LayoutKind::Horizontal { ratio }, area, frames, border_visible, bw, focused_frame, j)]
            0 <= i < j < frames.len() ==> {
                let b: int = if border_visible {
                    bw as int
                } else {
                    0
                };
                let pi = placement_at(
                    LayoutKind::Horizontal { ratio },
                    area,
                    frames,
                    border_visible,
                    bw,
                    focused_frame,
                    i,
                );
                let pj = placement_at(
                    LayoutKind::Horizontal { ratio },
                    area,
                    frames,
                    border_visible,
                    bw,
                    focused_frame,
                    j,
                );
                pi.x + pi.w + 2 * b <= pj.x
            },
{
    let n = frames.len() as int;
    let mw = area.w as int;
    let b: int = if border_visible {
        bw as int
    } else {
        0
    };
    let main = h_main(mw, n, ratio);
    let rest = h_rest(mw, n, ratio);
    assert forall|i: int|
        #![trigger h_xoff(mw, n, ratio, i)]
        0 <= i < n implies h_xoff(mw, n, ratio, i) + (if i == 0 {
        main
    } else {
        rest
    }) == h_xoff(mw, n, ratio, i + 1) by {
        if i == 0 {
            assert(main + 0 * rest == main) by (nonlinear_arith);
        } else {
            assert(main + (i - 1) * rest + rest == main + i * rest) by (nonlinear_arith);
        }
    };
    assert forall|i: int|
        #![trigger placement_at(LayoutKind::Horizontal { ratio }, area, frames, border_visible, bw, focused_frame, i)]
        0 <= i < n implies {
        let p = placement_at(
            LayoutKind::Horizontal { ratio },
            area,
            frames,
            border_visible,
            bw,
            focused_frame,
            i,
        );
        area.x <= p.x && p.x + p.w + 2 * b <= area.x + area.w && p.y == area.y && p.h + 2 * b
            <= area.h
    } by {
        lemma_h_bounds(mw, n, ratio, i);
        lemma_h_bounds(mw, n, ratio, i + 1);
        let slice = if i == 0 {
            main
        } else {
            rest
        };
        assert(slice > 2 * b);
        assert(shrink(slice, b) == slice - 2 * b);
        assert(h_xoff(mw, n, ratio, i) + slice == h_xoff(mw, n, ratio, i + 1));
    };
    assert forall|i: int, j: int|
        #![trigger placement_at(LayoutKind::Horizontal { ratio }, area, frames, border_visible, bw, focused_frame, i), placement_at(LayoutKind::Horizontal { ratio }, area, frames, border_visible, bw, focused_frame, j)]
        0 <= i < j < n implies {
        let pi = placement_at(
            LayoutKind::Horizontal { ratio },
            area,
            frames,
            border_visible,
            bw,
            focused_frame,
            i,
        );
        let pj = placement_at(
            LayoutKind::Horizontal { ratio },
            area,
            frames,
            border_visible,
            bw,
            focused_frame,
            j,
        );
        pi.x + pi.w + 2 * b <= pj.x
    } by {
        lemma_h_bounds(mw, n, ratio, i);
        lemma_h_bounds(mw, n, ratio, i + 1);
        lemma_h_bounds(mw, n, ratio, j);
        let slice = if i == 0 {
            main
        } else {
            rest
        };
        assert(slice > 2 * b);
        assert(shrink(slice, b) == slice - 2 * b);
        assert(h_xoff(mw, n, ratio, i) + slice == h_xoff(mw, n, ratio, i + 1));
        assert(h_xoff(mw, n, ratio, i + 1) <= h_xoff(mw, n, ratio, j)) by {
            if i + 1 == j {
            } else {
                assert(rest >= 0);
                assert(main + i * rest <= main + (j - 1) * rest) by (nonlinear_arith)
                    requires
                        rest >= 0,
                        i <= j - 1,
                ;
            }
        };
    };
}

/// The vertical split is the symmetric statement, dividing the height.
pub proof fn lemma_vertical_tiles_disjoint(
    area: Rect,
    frames: Seq<Wid>,
    border_visible: bool,
    bw: u32,
    focused_frame: Option<Wid>,
)
    requires
        area_ok(area),
        bw <= 0xff,
        1 <= frames.len() <= 0xffff,
        area.h as int / frames.len() as int > 2 * (if border_visible {
            bw as int
        } else {
            0
        }),
        area.w > 2 * (if border_visible {
            bw as int
        } else {
            0
        }),
    ensures
        forall|i: int|
            #![trigger placement_at(LayoutKind::Vertical, area, frames, border_visible, bw, focused_frame, i)]
            0 <= i < frames.len() ==> {
                let p = placement_at(
                    LayoutKind::Vertical,
                    area,
                    frames,
                    border_visible,
                    bw,
                    focused_frame,
                    i,
                );
                let b: int = if border_visible {
                    bw as int
                } else {
                    0
                };
                &&& area.y <= p.y
                &&& p.y + p.h + 2 * b <= area.y + area.h
                &&& p.x == area.x
                &&& p.w + 2 * b <= area.w
            },
        forall|i: int, j: int|
            #![trigger placement_at(LayoutKind::Vertical, area, frames, border_visible, bw, focused_frame, i), placement_at(LayoutKind::Vertical, area, frames, border_visible, bw, focused_frame, j)]
            0 <= i < j < frames.len() ==> {
                let b: int = if border_visible {
                    bw as int
                } else {
                    0
                };
                let pi = placement_at(
                    LayoutKind::Vertical,
                    area,
                    frames,
                    border_visible,
                    bw,
                    focused_frame,
                    i,
                );
                let pj = placement_at(
                    LayoutKind::Vertical,
                    area,
                    frames,
                    border_visible,
                    bw,
                    focused_frame,
                    j,
                );
                pi.y + pi.h + 2 * b <= pj.y
            },
{
    let n = frames.len() as int;
    let mh = area.h as int;
    let b: int = if border_visible {
        bw as int
    } else {
        0
    };
    let slice = mh / n;
    assert(n >= 1);
    assert forall|i: int|
        #![trigger placement_at(LayoutKind::Vertical, area, frames, border_visible, bw, focused_frame, i)]
        0 <= i < n implies {
        let p = placement_at(
            LayoutKind::Vertical,
            area,
            frames,
            border_visible,
            bw,
            focused_frame,
            i,
        );
        area.y <= p.y && p.y + p.h + 2 * b <= area.y + area.h && p.x == area.x && p.w + 2 * b
            <= area.w
    } by {
        lemma_mul_div_bound(mh, n, i);
        lemma_mul_div_bound(mh, n, i + 1);
        assert((i + 1) * slice == i * slice + slice) by (nonlinear_arith);
        assert(shrink(slice, b) == slice - 2 * b);
        if n == 1 {
            assert(mh / 1 == mh) by {
                vstd::arithmetic::div_mod::lemma_div_basics(mh);
            };
        }
    };
    assert forall|i: int, j: int|
        #![trigger placement_at(LayoutKind::Vertical, area, frames, border_visible, bw, focused_frame, i), placement_at(LayoutKind::Vertical, area, frames, border_visible, bw, focused_frame, j)]
        0 <= i < j < n implies {
        let pi = placement_at(
            LayoutKind::Vertical,
            area,
            frames,
            border_visible,
            bw,
            focused_frame,
            i,
        );
        let pj = placement_at(
            LayoutKind::Vertical,
            area,
            frames,
            border_visible,
            bw,
            focused_frame,
            j,
        );
        pi.y + pi.h + 2 * b <= pj.y
    } by {
        lemma_mul_div_bound(mh, n, i);
        lemma_mul_div_bound(mh, n, j);
        assert((i + 1) * slice == i * slice + slice) by (nonlinear_arith);
        assert(shrink(slice, b) == slice - 2 * b);
        assert((i + 1) * slice <= j * slice) by (nonlinear_arith)
            requires
                slice >= 0,
                i + 1 <= j,
        ;
    };
}

/// Strictly ascending protocol ids: the order every screen keeps its
/// windows in.
pub open spec fn strictly_sorted(s: Seq<Wid>) -> bool {
    forall|i: int, j: int| 0 <= i < j < s.len() ==> s[i] < s[j]
}

/// Two strictly sorted id sequences over the same id set are the same
/// sequence.
pub proof fn lemma_sorted_same_set(a: Seq<Wid>, b: Seq<Wid>)
    requires
        strictly_sorted(a),
        strictly_sorted(b),
        a.to_set() == b.to_set(),
    ensures
        a == b,
    decreases a.len(),
{
    if a.len() == 0 {
        if b.len() > 0 {
            assert(b.to_set().contains(b[0]));
            assert(a.to_set().contains(b[0]));
        }
        assert(a =~= b);
    } else {
        assert(a.to_set().contains(a[0]));
        assert(b.to_set().contains(a[0]));
        if b.len() == 0 {
            assert(b.to_set().contains(a[0]));
            assert(false);
        }
        assert(b.to_set().contains(b[0]));
        assert(a.to_set().contains(b[0]));
        let ia = choose|i: int| 0 <= i < a.len() && a[i] == b[0];
        let ib = choose|i: int| 0 <= i < b.len() && b[i] == a[0];
        assert(a[0] <= a[ia] && b[0] <= b[ib]);
        assert(a[0] == b[0]);
        let at = a.drop_first();
        let bt = b.drop_first();
        assert(at.to_set() =~= bt.to_set()) by {
            assert forall|x: Wid| at.to_set().contains(x) implies bt.to_set().contains(x) by {
                let i = choose|i: int| 0 <= i < at.len() && at[i] == x;
                assert(a[i + 1] == x);
                assert(a.to_set().contains(x));
                assert(a[0] < x);
                let j = choose|j: int| 0 <= j < b.len() && b[j] == x;
                assert(j != 0);
                assert(bt[j - 1] == x);
            };
            assert forall|x: Wid| bt.to_set().contains(x) implies at.to_set().contains(x) by {
                let i = choose|i: int| 0 <= i < bt.len() && bt[i] == x;
                assert(b[i + 1] == x);
                assert(b.to_set().contains(x));
                assert(b[0] < x);
                let j = choose|j: int| 0 <= j < a.len() && a[j] == x;
                assert(j != 0);
                assert(at[j - 1] == x);
            };
        };
        lemma_sorted_same_set(at, bt);
        assert(a =~= b) by {
            assert(forall|i: int| 1 <= i < a.len() ==> a[i] == at[i - 1]);
            assert(forall|i: int| 1 <= i < b.len() ==> b[i] == bt[i - 1]);
        };
    }
}

/// Layout purity: a strategy's output depends only on the *set* of
/// window ids it is given, not on their arrival order, because every
/// screen feeds a layout its windows pre-sorted by id.  Two sorted
/// presentations of the same set receive identical placements.
pub proof fn lemma_layout_purity(
    kind: LayoutKind,
    area: Rect,
    a: Seq<Wid>,
    b: Seq<Wid>,
    border_visible: bool,
    bw: u32,
    focused_frame: Option<Wid>,
)
    requires
        strictly_sorted(a),
        strictly_sorted(b),
        a.to_set() == b.to_set(),
    ensures
        arrange_spec(kind, area, a, border_visible, bw, focused_frame)
            == arrange_spec(kind, area, b, border_visible, bw, focused_frame),
{
    lemma_sorted_same_set(a, b);
}

} // verus!
