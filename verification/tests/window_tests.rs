use daily::action::Action;
use daily::geometry::Rect;
use daily::window::{Window, WindowState};

fn fresh(inner: u32, frame: u32, state: WindowState) -> Window {
    let mut acts: Vec<Action> = Vec::new();
    Window::new(inner, frame, state, 1, false, &mut acts)
}

#[test]
fn map_twice_is_idempotent_and_silent() {
    // Second map of a mapped window: same state, no protocol request.
    let mut w = fresh(1, 2, WindowState::Unmapped);
    let mut acts: Vec<Action> = Vec::new();
    w.map(&mut acts);
    assert_eq!(w.state, WindowState::Mapped);
    let after_first = w;
    let n = acts.len();
    w.map(&mut acts);
    assert_eq!(w.state, after_first.state);
    assert_eq!(w.hidden, after_first.hidden);
    assert_eq!(w.float_geometry, after_first.float_geometry);
    assert_eq!(acts.len(), n);
}

#[test]
fn first_map_of_created_window_grabs_focus() {
    let mut w = fresh(10, 11, WindowState::Created);
    let mut acts: Vec<Action> = Vec::new();
    let focus = w.map(&mut acts);
    assert_eq!(focus, Some(10));
    assert_eq!(
        acts,
        vec![Action::MapWid(11), Action::MapWid(10), Action::SetFocus(10)]
    );
}

#[test]
fn map_of_unmapped_window_does_not_grab_focus() {
    let mut w = fresh(10, 11, WindowState::Unmapped);
    let mut acts: Vec<Action> = Vec::new();
    let focus = w.map(&mut acts);
    assert_eq!(focus, None);
    assert_eq!(acts, vec![Action::MapWid(11), Action::MapWid(10)]);
}

#[test]
fn float_sink_float_restores_geometry() {
    // Round-trip: float, sink, float again with the same rectangle
    // restores the stored floating rectangle exactly.
    let mut w = fresh(1, 2, WindowState::Created);
    let mut acts: Vec<Action> = Vec::new();
    let r = Rect { x: 10, y: 10, w: 200, h: 150 };
    w.float(r, &mut acts);
    let first = w.float_geometry;
    assert_eq!(first, Some(r));
    w.sink(&mut acts);
    assert_eq!(w.float_geometry, None);
    assert!(!w.frame_visible);
    w.float(r, &mut acts);
    assert_eq!(w.float_geometry, first);
    assert!(w.frame_visible);
}

#[test]
fn conceal_and_show_preserve_lifecycle_state() {
    let mut w = fresh(1, 2, WindowState::Mapped);
    let mut acts: Vec<Action> = Vec::new();
    w.conceal(&mut acts);
    assert!(w.hidden);
    assert_eq!(w.state, WindowState::Mapped);
    assert_eq!(acts, vec![Action::UnmapWid(2)]);
    w.show(&mut acts);
    assert!(!w.hidden);
    assert_eq!(w.state, WindowState::Mapped);
    assert_eq!(acts, vec![Action::UnmapWid(2), Action::MapWid(2)]);
    // showing again is a no-op
    w.show(&mut acts);
    assert_eq!(acts.len(), 2);
}

#[test]
fn self_issued_unmap_notification_is_swallowed() {
    // The saturating counter absorbs exactly the unmaps this manager
    // issued itself; a further notification records a client unmap.
    let mut w = fresh(1, 2, WindowState::Mapped);
    let mut acts: Vec<Action> = Vec::new();
    w.conceal(&mut acts);
    assert_eq!(w.ignore_unmaps, 1);
    let changed = w.handle_unmap_notify();
    assert!(!changed);
    assert_eq!(w.state, WindowState::Mapped);
    let changed2 = w.handle_unmap_notify();
    assert!(changed2);
    assert_eq!(w.state, WindowState::Unmapped);
}

#[test]
fn close_is_polite_when_client_supports_it() {
    let mut acts: Vec<Action> = Vec::new();
    let w = Window::new(5, 6, WindowState::Mapped, 1, true, &mut acts);
    acts.clear();
    w.close(&mut acts);
    assert_eq!(
        acts,
        vec![
            Action::SendDelete(5),
            Action::ReparentToRoot(5),
            Action::DestroyWid(6)
        ]
    );
}

#[test]
fn close_destroys_when_client_lacks_delete_protocol() {
    let mut acts: Vec<Action> = Vec::new();
    let w = Window::new(5, 6, WindowState::Mapped, 1, false, &mut acts);
    acts.clear();
    w.close(&mut acts);
    assert_eq!(
        acts,
        vec![
            Action::DestroyWid(5),
            Action::ReparentToRoot(5),
            Action::DestroyWid(6)
        ]
    );
}

#[test]
fn configure_derives_inner_subrectangle() {
    // The client window sits below the decoration strip when the frame
    // is visible.
    let mut w = fresh(1, 2, WindowState::Mapped);
    let mut acts: Vec<Action> = Vec::new();
    w.float(Rect { x: 0, y: 0, w: 100, h: 100 }, &mut acts);
    acts.clear();
    w.configure(Rect { x: 7, y: 9, w: 300, h: 216 }, 2, &mut acts);
    assert_eq!(
        acts,
        vec![
            Action::ConfigureWid { wid: 2, x: 7, y: 9, w: 300, h: 216, border_width: 2 },
            Action::ConfigureWid { wid: 1, x: 0, y: 16, w: 300, h: 200, border_width: 0 },
        ]
    );
}
