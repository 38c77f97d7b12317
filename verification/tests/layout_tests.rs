use daily::action::Wid;
use daily::geometry::Rect;
use daily::layout::{arrange, LayoutCmd, LayoutKind};

fn area(x: i32, y: i32, w: u32, h: u32) -> Rect {
    Rect { x, y, w, h }
}

#[test]
fn horizontal_equal_split_three_windows() {
    // Three tiled windows on a 900-wide area, no border: three equal
    // 300-wide slices at x = 0, 300, 600, all with the area's y and
    // height.
    let frames: Vec<Wid> = vec![11, 22, 33];
    let kind = LayoutKind::Horizontal { ratio: None };
    let r = arrange(&kind, area(0, 0, 900, 600), &frames, false, 1, None);
    assert_eq!(r.len(), 3);
    let xs: Vec<i32> = r.iter().map(|p| p.x).collect();
    assert_eq!(xs, vec![0, 300, 600]);
    for p in &r {
        assert_eq!(p.w, 300);
        assert_eq!(p.h, 600);
        assert_eq!(p.y, 0);
        assert_eq!(p.border_width, 0);
        assert!(!p.raise);
    }
}

#[test]
fn horizontal_split_keeps_window_order() {
    let frames: Vec<Wid> = vec![5, 9, 14];
    let kind = LayoutKind::Horizontal { ratio: None };
    let r = arrange(&kind, area(100, 50, 300, 200), &frames, false, 1, None);
    let ids: Vec<Wid> = r.iter().map(|p| p.frame).collect();
    assert_eq!(ids, vec![5, 9, 14]);
}

#[test]
fn horizontal_primary_ratio_split() {
    // A 60% primary pane on a 1000-wide area with two followers:
    // 600 + 200 + 200.
    let frames: Vec<Wid> = vec![1, 2, 3];
    let kind = LayoutKind::Horizontal { ratio: Some(60) };
    let r = arrange(&kind, area(0, 0, 1000, 500), &frames, false, 1, None);
    assert_eq!(r[0].x, 0);
    assert_eq!(r[0].w, 600);
    assert_eq!(r[1].x, 600);
    assert_eq!(r[1].w, 200);
    assert_eq!(r[2].x, 800);
    assert_eq!(r[2].w, 200);
}

#[test]
fn horizontal_border_shrinks_slices() {
    // With borders visible, each slice loses two border widths on each
    // axis and carries the border width.
    let frames: Vec<Wid> = vec![1, 2];
    let kind = LayoutKind::Horizontal { ratio: None };
    let r = arrange(&kind, area(0, 0, 200, 100), &frames, true, 3, None);
    assert_eq!(r[0].w, 100 - 6);
    assert_eq!(r[0].h, 100 - 6);
    assert_eq!(r[0].border_width, 3);
}

#[test]
fn vertical_equal_split() {
    let frames: Vec<Wid> = vec![7, 8];
    let kind = LayoutKind::Vertical;
    let r = arrange(&kind, area(10, 20, 400, 600), &frames, false, 1, None);
    assert_eq!(r[0].y, 20);
    assert_eq!(r[1].y, 320);
    assert_eq!(r[0].h, 300);
    assert_eq!(r[1].h, 300);
    assert_eq!(r[0].w, 400);
    assert_eq!(r[0].x, 10);
}

#[test]
fn fullscreen_covers_area_and_raises_focus() {
    let frames: Vec<Wid> = vec![4, 6, 9];
    let kind = LayoutKind::FullScreen;
    let r = arrange(&kind, area(-5, 8, 800, 600), &frames, true, 2, Some(6));
    for p in &r {
        assert_eq!(p.x, -5);
        assert_eq!(p.y, 8);
        assert_eq!(p.w, 800);
        assert_eq!(p.h, 600);
        assert_eq!(p.border_width, 0);
    }
    assert!(!r[0].raise);
    assert!(r[1].raise);
    assert!(!r[2].raise);
}

#[test]
fn layout_purity_same_set_same_placements() {
    // Two layout passes over the same sorted id set are identical.
    let frames: Vec<Wid> = vec![3, 17, 64];
    let kind = LayoutKind::Horizontal { ratio: Some(50) };
    let a = arrange(&kind, area(0, 0, 640, 480), &frames, false, 1, None);
    let b = arrange(&kind, area(0, 0, 640, 480), &frames, false, 1, None);
    assert_eq!(a, b);
}

#[test]
fn ratio_adjustment_stays_within_bounds() {
    let mut k = LayoutKind::Horizontal { ratio: Some(90) };
    k.process_command(LayoutCmd::Grow);
    assert_eq!(k, LayoutKind::Horizontal { ratio: Some(95) });
    k.process_command(LayoutCmd::Grow);
    assert_eq!(k, LayoutKind::Horizontal { ratio: Some(95) });
    let mut k2 = LayoutKind::Horizontal { ratio: Some(10) };
    k2.process_command(LayoutCmd::Shrink);
    assert_eq!(k2, LayoutKind::Horizontal { ratio: Some(5) });
    k2.process_command(LayoutCmd::Shrink);
    assert_eq!(k2, LayoutKind::Horizontal { ratio: Some(5) });
}

#[test]
fn ratio_adjustment_starts_from_midpoint() {
    let mut k = LayoutKind::Horizontal { ratio: None };
    k.process_command(LayoutCmd::Grow);
    assert_eq!(k, LayoutKind::Horizontal { ratio: Some(55) });
}

#[test]
fn vertical_ignores_ratio_commands() {
    let mut k = LayoutKind::Vertical;
    k.process_command(LayoutCmd::Grow);
    assert_eq!(k, LayoutKind::Vertical);
}

#[test]
fn layout_names() {
    assert_eq!(LayoutKind::Horizontal { ratio: None }.name(), "horizontal");
    assert_eq!(LayoutKind::Vertical.name(), "vertical");
    assert_eq!(LayoutKind::FullScreen.name(), "full-screen");
}
