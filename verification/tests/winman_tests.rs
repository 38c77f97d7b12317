use daily::action::Action;
use daily::config::{Command, Config, KeybindAction, MOD_SUPER};
use daily::error::WmError;
use daily::geometry::{Monitor, Rect};
use daily::screen::Screen;
use daily::window::{Window, WindowState};
use daily::winman::WinMan;

fn pool(n: usize) -> Vec<Screen> {
    let mut screens: Vec<Screen> = Vec::new();
    let mut acts: Vec<Action> = Vec::new();
    for i in 0..n {
        let bg = Window::new(
            1000 + i as u32,
            2000 + i as u32,
            WindowState::Unmapped,
            0,
            false,
            &mut acts,
        );
        screens.push(Screen::new(i, bg, 1));
    }
    screens
}

fn monitor(id: usize, x: i32, y: i32, w: u32, h: u32) -> Monitor {
    Monitor { id, rect: Rect { x, y, w, h } }
}

#[test]
fn new_coordinator_focuses_first_screen_background() {
    let mut acts: Vec<Action> = Vec::new();
    let wm = WinMan::new(pool(3), &mut acts);
    assert_eq!(wm.focus, 1000);
    assert_eq!(acts, vec![Action::SetFocus(1000)]);
}

#[test]
fn switch_to_parked_screen_hands_the_monitor_over() {
    // Scenario: screen 0 shows monitor A and holds hidden-able windows;
    // screen 2 is parked.  Switching to screen 2 parks screen 0 (its
    // windows hidden, monitor detached), attaches monitor A to screen 2
    // and focuses something there.
    let mut acts: Vec<Action> = Vec::new();
    let mut wm = WinMan::new(pool(3), &mut acts);
    wm.setup_monitors(vec![monitor(0, 0, 0, 800, 600)], &mut acts);
    wm.manage_window(0, 10, 11, WindowState::Mapped, 1, false, None, false, &mut acts);
    assert!(wm.screens[0].monitor().is_some());
    wm.switch_screen(2, &mut acts);
    assert!(wm.screens[0].monitor().is_none());
    assert!(wm.screens[0].windows[0].hidden);
    assert_eq!(wm.screens[2].monitor(), Some(monitor(0, 0, 0, 800, 600)));
    assert!(wm.screens[2].contains(wm.focus));
    assert!(wm.known_window(wm.focus));
}

#[test]
fn switch_between_two_shown_screens_trades_monitors() {
    let mut acts: Vec<Action> = Vec::new();
    let mut wm = WinMan::new(pool(3), &mut acts);
    wm.setup_monitors(
        vec![monitor(0, 0, 0, 800, 600), monitor(1, 800, 0, 1024, 768)],
        &mut acts,
    );
    // focus lives on screen 0 (monitor 0); switch to screen 1
    wm.focus_fallback(&mut acts);
    wm.switch_screen(1, &mut acts);
    assert_eq!(wm.screens[0].monitor(), Some(monitor(1, 800, 0, 1024, 768)));
    assert_eq!(wm.screens[1].monitor(), Some(monitor(0, 0, 0, 800, 600)));
    assert!(wm.screens[1].contains(wm.focus));
}

#[test]
fn manage_created_window_takes_focus() {
    let mut acts: Vec<Action> = Vec::new();
    let mut wm = WinMan::new(pool(2), &mut acts);
    wm.setup_monitors(vec![monitor(0, 0, 0, 800, 600)], &mut acts);
    wm.manage_window(0, 50, 51, WindowState::Created, 1, false, None, true, &mut acts);
    assert_eq!(wm.focus, 50);
    assert!(wm.known_window(50));
    assert!(wm.known_window(51));
}

#[test]
fn move_window_to_other_screen_migrates_it() {
    let mut acts: Vec<Action> = Vec::new();
    let mut wm = WinMan::new(pool(3), &mut acts);
    wm.setup_monitors(vec![monitor(0, 0, 0, 800, 600)], &mut acts);
    wm.manage_window(0, 50, 51, WindowState::Created, 1, false, None, true, &mut acts);
    assert_eq!(wm.focus, 50);
    wm.move_window_to_screen(1, &mut acts);
    assert!(!wm.screens[0].contains(50));
    assert!(wm.screens[1].contains(50));
    // the source screen's focus fell back to its background
    assert_eq!(wm.focus, 1000);
}

#[test]
fn destroyed_window_is_forgotten_and_frame_torn_down() {
    let mut acts: Vec<Action> = Vec::new();
    let mut wm = WinMan::new(pool(2), &mut acts);
    wm.setup_monitors(vec![monitor(0, 0, 0, 800, 600)], &mut acts);
    wm.manage_window(0, 50, 51, WindowState::Created, 1, false, None, true, &mut acts);
    acts.clear();
    wm.on_destroy_notify(50, &mut acts);
    assert!(!wm.known_window(50));
    assert!(acts.contains(&Action::DestroyWid(51)));
    assert!(wm.known_window(wm.focus));
}

#[test]
fn focus_always_rests_on_a_managed_window() {
    // The focus invariant across a whole sequence of adds and removals:
    // after every operation some window (possibly a background) holds
    // the focus, and the coordinator knows exactly one owner for it.
    let mut acts: Vec<Action> = Vec::new();
    let mut wm = WinMan::new(pool(3), &mut acts);
    assert!(wm.known_window(wm.focus));
    wm.setup_monitors(vec![monitor(0, 0, 0, 800, 600)], &mut acts);
    assert!(wm.known_window(wm.focus));
    for k in 0..4u32 {
        wm.manage_window(
            0,
            50 + 2 * k,
            51 + 2 * k,
            WindowState::Created,
            1,
            false,
            None,
            true,
            &mut acts,
        );
        assert!(wm.known_window(wm.focus));
    }
    wm.move_window_to_screen(1, &mut acts);
    assert!(wm.known_window(wm.focus));
    for wid in [50u32, 52, 54, 56] {
        wm.on_destroy_notify(wid, &mut acts);
        assert!(wm.known_window(wm.focus));
        // exactly one screen answers to the focused id
        let owners = (0..3).filter(|&i| wm.screens[i].contains(wm.focus)).count();
        assert_eq!(owners, 1);
    }
    // everything is gone; the focus rests on a background again
    assert!(wm.focus == 1000 || wm.focus == 2000 || wm.focus == 1001 || wm.focus == 2001);
}

#[test]
fn quit_and_restart_unwind_as_errors() {
    let mut acts: Vec<Action> = Vec::new();
    let mut wm = WinMan::new(pool(1), &mut acts);
    let r = wm.process_command(&Command::Quit, &mut acts);
    assert!(matches!(r, Err(WmError::Quit)));
    let r2 = wm.process_command(&Command::Restart, &mut acts);
    assert!(matches!(r2, Err(WmError::Restart)));
}

#[test]
fn border_commands_toggle_every_screen() {
    let mut acts: Vec<Action> = Vec::new();
    let mut wm = WinMan::new(pool(2), &mut acts);
    wm.process_command(&Command::ShowBorder, &mut acts).unwrap();
    assert!(wm.screens[0].border_visible);
    assert!(wm.screens[1].border_visible);
    wm.process_command(&Command::HideBorder, &mut acts).unwrap();
    assert!(!wm.screens[0].border_visible);
    assert!(!wm.screens[1].border_visible);
}

#[test]
fn pointer_commands_emit_their_requests() {
    let mut acts: Vec<Action> = Vec::new();
    let mut wm = WinMan::new(pool(1), &mut acts);
    acts.clear();
    wm.process_command(&Command::MovePointerRel(-32, 4), &mut acts).unwrap();
    wm.process_command(&Command::MouseClickLeft, &mut acts).unwrap();
    wm.process_command(&Command::Spawn("/usr/bin/xterm".to_owned()), &mut acts).unwrap();
    assert_eq!(
        acts,
        vec![
            Action::WarpPointer { dx: -32, dy: 4 },
            Action::ClickLeft,
            Action::SpawnProcess("/usr/bin/xterm".to_owned()),
        ]
    );
}

#[test]
fn close_command_removes_the_focused_window() {
    let mut acts: Vec<Action> = Vec::new();
    let mut wm = WinMan::new(pool(2), &mut acts);
    wm.setup_monitors(vec![monitor(0, 0, 0, 800, 600)], &mut acts);
    wm.manage_window(0, 50, 51, WindowState::Created, 1, false, None, true, &mut acts);
    wm.manage_window(0, 60, 61, WindowState::Created, 1, false, None, true, &mut acts);
    assert_eq!(wm.focus, 60);
    acts.clear();
    wm.process_command(&Command::Close, &mut acts).unwrap();
    assert!(!wm.known_window(60));
    assert!(acts.contains(&Action::DestroyWid(60)));
    assert_eq!(wm.focus, 50);
}

#[test]
fn drag_floats_moves_and_commits_geometry() {
    let mut acts: Vec<Action> = Vec::new();
    let mut wm = WinMan::new(pool(1), &mut acts);
    wm.setup_monitors(vec![monitor(0, 100, 0, 800, 600)], &mut acts);
    wm.manage_window(0, 50, 51, WindowState::Created, 1, false, None, true, &mut acts);
    let target = wm.on_button_press(50, daily::config::MOD_ALT, &mut acts);
    assert_eq!(target, Some(51));
    let geo = Rect { x: 150, y: 60, w: 400, h: 300 };
    wm.begin_drag(51, 500, 400, geo, &mut acts);
    assert!(wm.drag.is_some());
    acts.clear();
    // move 30 right, 20 down with the primary button
    wm.on_motion(daily::config::MOD_ALT | daily::winman::BUTTON1_MASK, 530, 420, &mut acts);
    assert!(acts.contains(&Action::MoveWid { wid: 51, x: 180, y: 80 }));
    wm.on_button_release(&mut acts);
    assert!(wm.drag.is_none());
    // the committed floating rectangle is monitor-relative
    let idx = wm.screens[0].window_index(50).unwrap();
    assert_eq!(
        wm.screens[0].windows[idx].float_geometry,
        Some(Rect { x: 80, y: 80, w: 400, h: 300 })
    );
}

#[test]
fn default_keybind_table_matches_commands() {
    let cfg = Config::default();
    let close = cfg.keybind_match(KeybindAction::Press, MOD_SUPER, 54);
    assert!(matches!(close, Some(&Command::Close)));
    let none = cfg.keybind_match(KeybindAction::Press, MOD_SUPER, 255);
    assert!(none.is_none());
    // exact-match only: a superset of modifiers does not match
    let superset = cfg.keybind_match(KeybindAction::Press, MOD_SUPER | 1, 54);
    assert!(superset.is_none());
    assert_eq!(cfg.keybind_iter().len(), 33);
}

#[test]
fn parse_color_reads_hex_and_rejects_junk() {
    assert_eq!(daily::config::parse_color("#00f080").unwrap(), 0x00f080);
    assert_eq!(daily::config::parse_color("343255").unwrap(), 0x343255);
    assert_eq!(daily::config::parse_color("##ff").unwrap(), 0xff);
    assert!(matches!(
        daily::config::parse_color("zz"),
        Err(WmError::InvalidConfig { .. })
    ));
    assert!(matches!(
        daily::config::parse_color(""),
        Err(WmError::InvalidConfig { .. })
    ));
    assert!(matches!(
        daily::config::parse_color("#123456789"),
        Err(WmError::InvalidConfig { .. })
    ));
    // the 32-bit boundary, exactly
    assert_eq!(daily::config::parse_color("ffffffff").unwrap(), 0xffff_ffff);
    assert!(matches!(
        daily::config::parse_color("100000000"),
        Err(WmError::InvalidConfig { .. })
    ));
}
