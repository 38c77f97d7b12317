use daily::action::Action;
use daily::geometry::{Monitor, Rect};
use daily::screen::Screen;
use daily::window::{Window, WindowState};

fn monitor(id: usize, x: i32, y: i32, w: u32, h: u32) -> Monitor {
    Monitor { id, rect: Rect { x, y, w, h } }
}

fn screen_with(id: usize, bg: (u32, u32)) -> Screen {
    let mut acts: Vec<Action> = Vec::new();
    let background = Window::new(bg.0, bg.1, WindowState::Unmapped, 0, false, &mut acts);
    Screen::new(id, background, 1)
}

fn client(inner: u32, frame: u32) -> Window {
    let mut acts: Vec<Action> = Vec::new();
    Window::new(inner, frame, WindowState::Mapped, 1, false, &mut acts)
}

#[test]
fn attach_empty_screen_maps_background_and_refresh_is_harmless() {
    // Scenario: an empty, unattached screen gains a monitor.  The
    // background is mapped; a refresh touches no window and emits only
    // the bar-and-background bookkeeping.
    let mut s = screen_with(0, (100, 101));
    let mut acts: Vec<Action> = Vec::new();
    s.attach(monitor(0, 0, 0, 800, 600), &mut acts);
    assert!(s.background().is_mapped());
    assert!(acts.contains(&Action::MapWid(101)));
    let mut acts2: Vec<Action> = Vec::new();
    s.refresh_layout(None, &mut acts2);
    // bar update, background frame + inner configure, stack below
    assert_eq!(acts2.len(), 4);
    assert!(matches!(acts2[0], Action::BarUpdate { .. }));
    assert!(matches!(acts2[3], Action::StackBelow(101)));
}

#[test]
fn detach_hides_windows_and_returns_monitor() {
    let mut s = screen_with(0, (100, 101));
    let mut acts: Vec<Action> = Vec::new();
    s.attach(monitor(3, 0, 0, 800, 600), &mut acts);
    s.add_window(client(1, 2), None, &mut acts);
    let m = s.detach(&mut acts);
    assert_eq!(m, Some(monitor(3, 0, 0, 800, 600)));
    assert!(s.monitor().is_none());
    assert!(s.windows[0].hidden);
    // detaching again is a no-op
    assert_eq!(s.detach(&mut acts), None);
}

#[test]
fn add_window_keeps_windows_sorted_by_frame() {
    let mut s = screen_with(0, (100, 101));
    let mut acts: Vec<Action> = Vec::new();
    s.add_window(client(31, 32), None, &mut acts);
    s.add_window(client(11, 12), None, &mut acts);
    s.add_window(client(21, 22), None, &mut acts);
    let frames: Vec<u32> = s.windows.iter().map(|w| w.frame).collect();
    assert_eq!(frames, vec![12, 22, 32]);
}

#[test]
fn add_window_ignores_duplicate_ids() {
    let mut s = screen_with(0, (100, 101));
    let mut acts: Vec<Action> = Vec::new();
    s.add_window(client(1, 2), None, &mut acts);
    s.add_window(client(1, 2), None, &mut acts);
    assert_eq!(s.windows.len(), 1);
}

#[test]
fn add_window_on_parked_screen_hides_mapped_window() {
    let mut s = screen_with(0, (100, 101));
    let mut acts: Vec<Action> = Vec::new();
    s.add_window(client(1, 2), None, &mut acts);
    assert!(s.windows[0].hidden);
    assert!(acts.contains(&Action::UnmapWid(2)));
}

#[test]
fn focus_next_walks_mapped_windows_cyclically() {
    let mut s = screen_with(0, (100, 101));
    let mut acts: Vec<Action> = Vec::new();
    s.attach(monitor(0, 0, 0, 900, 600), &mut acts);
    s.add_window(client(11, 12), None, &mut acts);
    s.add_window(client(21, 22), None, &mut acts);
    s.add_window(client(31, 32), None, &mut acts);
    // focused w2 (inner 21): the next in id order is w3
    assert_eq!(s.focus_next(21, &mut acts), 31);
    // wrap-around from the last window
    assert_eq!(s.focus_next(31, &mut acts), 11);
    // from the background, fall back to the first mapped window
    assert_eq!(s.focus_next(100, &mut acts), 11);
    // the exact reverse
    assert_eq!(s.focus_prev(11, &mut acts), 31);
}

#[test]
fn forget_focused_window_moves_focus_before_removal() {
    // Scenario: focused w2 of {w1, w2, w3} is closed.  The focus moves
    // to w3 — the next in cyclic order, chosen while w2 is still
    // present — and then w2 leaves the window set.
    let mut s = screen_with(0, (100, 101));
    let mut acts: Vec<Action> = Vec::new();
    s.attach(monitor(0, 0, 0, 900, 616), &mut acts);
    s.add_window(client(11, 12), None, &mut acts);
    s.add_window(client(21, 22), None, &mut acts);
    s.add_window(client(31, 32), None, &mut acts);
    let (removed, new_focus) = s.forget_window(21, Some(21), &mut acts);
    assert_eq!(removed.inner, 21);
    assert_eq!(new_focus, Some(31));
    let frames: Vec<u32> = s.windows.iter().map(|w| w.frame).collect();
    assert_eq!(frames, vec![12, 32]);
    removed.close(&mut acts);
    assert!(acts.contains(&Action::DestroyWid(21)));
}

#[test]
fn forget_last_window_falls_back_to_background() {
    let mut s = screen_with(0, (100, 101));
    let mut acts: Vec<Action> = Vec::new();
    s.attach(monitor(0, 0, 0, 900, 616), &mut acts);
    s.add_window(client(11, 12), None, &mut acts);
    let (_removed, new_focus) = s.forget_window(11, Some(11), &mut acts);
    // the cyclic walk can only land on the departing window itself, so
    // the focus falls back to the background after removal
    assert_eq!(new_focus, Some(100));
}

#[test]
fn floating_window_keeps_its_rectangle_across_layout_changes() {
    // Scenario: a floating window at (10, 10, 200, 150) relative to its
    // monitor's origin; rotating the tiling layout leaves its drawn
    // rectangle at monitor origin plus the stored rectangle.
    let mut s = screen_with(0, (100, 101));
    let mut acts: Vec<Action> = Vec::new();
    s.attach(monitor(0, 40, 30, 900, 616), &mut acts);
    let mut w = client(11, 12);
    w.float(Rect { x: 10, y: 10, w: 200, h: 150 }, &mut acts);
    s.add_window(w, None, &mut acts);
    let mut acts2: Vec<Action> = Vec::new();
    s.next_layout(None, &mut acts2);
    let placed = acts2.iter().any(|a| {
        matches!(
            a,
            Action::ConfigureWid { wid: 12, x: 50, y: 40, w: 200, h: 150, .. }
        )
    });
    assert!(placed, "floating window was not drawn at monitor origin + stored rect");
    // rotate again: still at the same place
    let mut acts3: Vec<Action> = Vec::new();
    s.next_layout(None, &mut acts3);
    let placed2 = acts3.iter().any(|a| {
        matches!(
            a,
            Action::ConfigureWid { wid: 12, x: 50, y: 40, w: 200, h: 150, .. }
        )
    });
    assert!(placed2);
}

#[test]
fn next_layout_rotates_through_the_ring() {
    let mut s = screen_with(0, (100, 101));
    let mut acts: Vec<Action> = Vec::new();
    assert_eq!(s.active_layout, 0);
    s.next_layout(None, &mut acts);
    assert_eq!(s.active_layout, 1);
    s.next_layout(None, &mut acts);
    assert_eq!(s.active_layout, 2);
    s.next_layout(None, &mut acts);
    assert_eq!(s.active_layout, 0);
}

#[test]
fn refresh_highlights_only_the_focused_window() {
    let mut s = screen_with(0, (100, 101));
    let mut acts: Vec<Action> = Vec::new();
    s.attach(monitor(0, 0, 0, 900, 616), &mut acts);
    s.add_window(client(11, 12), None, &mut acts);
    s.add_window(client(21, 22), None, &mut acts);
    let mut acts2: Vec<Action> = Vec::new();
    s.refresh_layout(Some(21), &mut acts2);
    assert!(!s.windows[0].highlighted);
    assert!(s.windows[1].highlighted);
}
