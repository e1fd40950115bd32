use winsnap::snap::WindowProbe;
use winsnap::tray::center_target;
use winsnap::keys::{key_action, key_press, key_release, key_to_num, wheel_scales, HeldKeys, Key, KeyAction};
use winsnap::tray::{
    apply_command, command_id, elapsed_at_least, gray_pixel, gray_pixels, hook_event, icon_choice,
    initial_tip, keep_gray, tray_click, tray_menu, tray_tip, watchdog_action, HookOutcome, IconChoice,
    MenuEntry, TrayClick, TrayCommand, TrayFlags, WatchAction, ID_SEPARATOR, ID_TRAY_ANIMATE,
    ID_TRAY_AUTOSTART, ID_TRAY_CENTER, ID_TRAY_EXIT, ID_TRAY_PAUSE, ID_TRAY_SNAP_SCREEN,
    ID_TRAY_SNAP_WINDOW,
};

#[test]
fn gray_pixel_values() {
    // Opaque pure red: (255 * 77) >> 8 = 76.
    assert_eq!(gray_pixel(0xFFFF0000), 0xFF4C4C4C);
    assert_eq!(gray_pixel(0x80FFFFFF), 0x80FFFFFF);
    assert_eq!(gray_pixel(0x00000000), 0x00000000);
    // Green: (255 * 150) >> 8 = 149; blue: (255 * 29) >> 8 = 28.
    assert_eq!(gray_pixel(0xFF00FF00), 0xFF959595);
    assert_eq!(gray_pixel(0x400000FF), 0x401C1C1C);
}

#[test]
fn gray_is_idempotent() {
    for p in [0xFF123456u32, 0x7FABCDEF, 0x01FF8000, 0xDEADBEEF] {
        let g = gray_pixel(p);
        assert_eq!(gray_pixel(g), g);
        assert_eq!(g >> 24, p >> 24);
    }
}

#[test]
fn gray_icon_pixels() {
    let mut px = vec![0xFFFF0000u32, 0xFF00FF00, 0x00000000];
    gray_pixels(&mut px);
    assert_eq!(px, vec![0xFF4C4C4C, 0xFF959595, 0x00000000]);
}

#[test]
fn menu_lines() {
    let flags = TrayFlags::new();
    assert_eq!(flags, TrayFlags { animate: false, snap_screen: true, snap_window: false, paused: false });
    let m = tray_menu(&flags, true);
    let e = |id, checked| MenuEntry { id, checked };
    assert_eq!(
        m,
        vec![
            e(ID_TRAY_CENTER, false),
            e(ID_TRAY_AUTOSTART, true),
            e(ID_TRAY_ANIMATE, false),
            e(ID_TRAY_SNAP_SCREEN, true),
            e(ID_TRAY_SNAP_WINDOW, false),
            e(ID_TRAY_PAUSE, false),
            e(ID_SEPARATOR, false),
            e(ID_TRAY_EXIT, false),
        ]
    );
}

#[test]
fn menu_commands() {
    let mut f = TrayFlags::new();
    assert_eq!(command_id(0x0001_03EC), 1004);
    assert_eq!(apply_command(&mut f, 1004), TrayCommand::Animate(true));
    assert!(f.animate);
    assert_eq!(apply_command(&mut f, 1005), TrayCommand::SnapScreen(false));
    assert_eq!(apply_command(&mut f, 1006), TrayCommand::SnapWindow(true));
    assert_eq!(apply_command(&mut f, 1003), TrayCommand::Pause(true));
    assert_eq!(apply_command(&mut f, 1000), TrayCommand::CenterAll);
    assert_eq!(apply_command(&mut f, 1002), TrayCommand::ToggleAutostart);
    assert_eq!(apply_command(&mut f, 1001), TrayCommand::Exit);
    assert_eq!(apply_command(&mut f, 77), TrayCommand::Other);
    assert_eq!(f, TrayFlags { animate: true, snap_screen: false, snap_window: true, paused: true });
    // Twice restores.
    let before = f;
    apply_command(&mut f, 1003);
    apply_command(&mut f, 1003);
    assert_eq!(f, before);
}

#[test]
fn icon_clicks() {
    assert_eq!(tray_click(0x0202), TrayClick::ToggleConsole);
    assert_eq!(tray_click(0x0205), TrayClick::ShowMenu);
    assert_eq!(tray_click(0x0200), TrayClick::Other);
}

#[test]
fn mouse_hook() {
    assert_eq!(
        hook_event(0, 0x0201, true),
        HookOutcome { left: Some(true), right: None, request: 1, swallow: true }
    );
    assert_eq!(
        hook_event(0, 0x0201, false),
        HookOutcome { left: Some(true), right: None, request: 0, swallow: false }
    );
    assert_eq!(
        hook_event(0, 0x0202, true),
        HookOutcome { left: Some(false), right: None, request: 0, swallow: true }
    );
    assert_eq!(
        hook_event(0, 0x0204, true),
        HookOutcome { left: None, right: Some(true), request: 2, swallow: true }
    );
    assert_eq!(
        hook_event(0, 0x0205, false),
        HookOutcome { left: None, right: Some(false), request: 0, swallow: false }
    );
    assert_eq!(
        hook_event(-1, 0x0201, true),
        HookOutcome { left: None, right: None, request: 0, swallow: false }
    );
    assert_eq!(
        hook_event(0, 0x0200, true),
        HookOutcome { left: None, right: None, request: 0, swallow: false }
    );
}

#[test]
fn tooltips() {
    assert_eq!(tray_tip(false, "1.2.3"), "winsnap v1.2.3 - 窗口管理工具（输入 ` 禁用）\0");
    assert_eq!(tray_tip(true, "1.2.3"), "winsnap v1.2.3 - 监听已禁用（输入 ` 恢复）\0");
    assert_eq!(initial_tip("0.1.0"), "winsnap v0.1.0 - 窗口管理工具\0");
}

#[test]
fn icons_and_watchdog() {
    assert_eq!(icon_choice(false, 5), IconChoice::Color);
    assert_eq!(icon_choice(true, 5), IconChoice::CachedGray);
    assert_eq!(icon_choice(true, 0), IconChoice::MakeGray);
    assert!(keep_gray(7, 3));
    assert!(!keep_gray(3, 3));
    assert!(!keep_gray(0, 3));
    assert!(elapsed_at_least(10_000, 4_000, 5000));
    assert!(!elapsed_at_least(8_000, 4_000, 5000));
    assert!(!elapsed_at_least(1_000, 4_000, 5000));
    assert_eq!(watchdog_action(false, false, false, 99_999, 0), WatchAction::Nothing);
    assert_eq!(watchdog_action(true, false, false, 20_000, 10_000), WatchAction::Respawn);
    assert_eq!(watchdog_action(true, false, false, 12_000, 10_000), WatchAction::Nothing);
    assert_eq!(watchdog_action(true, true, false, 0, 0), WatchAction::RestoreIcon);
    assert_eq!(watchdog_action(true, true, true, 0, 0), WatchAction::Nothing);
}

#[test]
fn key_actions() {
    assert_eq!(key_to_num(Key::Kp7), Some('7'));
    assert_eq!(key_to_num(Key::LeftArrow), None);
    assert_eq!(key_action(Key::BackQuote, false, false, true), KeyAction::TogglePause);
    assert_eq!(key_action(Key::BackQuote, true, true, false), KeyAction::TogglePause);
    assert_eq!(key_action(Key::Kp5, true, false, false), KeyAction::Place('5'));
    assert_eq!(key_action(Key::Kp5, true, true, false), KeyAction::Nothing);
    assert_eq!(key_action(Key::Kp5, false, false, false), KeyAction::Nothing);
    assert_eq!(key_action(Key::Kp5, true, false, true), KeyAction::Nothing);
    assert_eq!(key_action(Key::LeftArrow, true, false, false), KeyAction::Edge(0));
    assert_eq!(key_action(Key::RightArrow, true, false, false), KeyAction::Edge(1));
    assert_eq!(key_action(Key::UpArrow, true, false, false), KeyAction::Edge(2));
    assert_eq!(key_action(Key::DownArrow, true, false, false), KeyAction::Edge(3));
    assert_eq!(key_action(Key::Other, true, false, false), KeyAction::Nothing);
    assert!(wheel_scales(false, true));
    assert!(!wheel_scales(true, true));
    assert!(!wheel_scales(false, false));
}

#[test]
fn centring_targets() {
    let mut p = WindowProbe {
        hwnd: 1,
        visible: true,
        is_desktop: false,
        iconic: false,
        is_console: false,
        cloaked: false,
        frame: (0, 0, 800, 600),
        visual: (0, 0, 0, 0),
        desktop_layer: false,
        has_caption: true,
    };
    let wa = (0, 0, 1920, 1040);
    assert_eq!(center_target(&p, wa), Some((560, 220)));
    p.has_caption = false;
    assert_eq!(center_target(&p, wa), None);
    p.has_caption = true;
    p.is_console = true;
    assert_eq!(center_target(&p, wa), None);
    p.is_console = false;
    p.frame = (0, 0, 0, 600);
    assert_eq!(center_target(&p, wa), None);
}

#[test]
fn paused_keys_do_nothing() {
    for k in [Key::Kp1, Key::Kp9, Key::LeftArrow, Key::DownArrow, Key::Other] {
        assert_eq!(key_action(k, true, false, true), KeyAction::Nothing);
    }
}

#[test]
fn held_keys_press_and_release() {
    let mut held = HeldKeys::new();
    assert!(!held.contains("Alt"));
    held.press("Alt");
    held.press("KeyA");
    held.press("Alt");
    assert!(held.contains("Alt"));
    assert!(held.contains("KeyA"));
    held.release("Alt");
    assert!(!held.contains("Alt"));
    assert!(held.contains("KeyA"));
    // A key released twice, or never pressed, changes nothing else.
    held.release("Alt");
    held.release("ShiftLeft");
    assert!(held.contains("KeyA"));
    assert!(!held.contains("ShiftLeft"));
}

#[test]
fn key_press_records_and_decides() {
    let mut held = HeldKeys::new();
    let a = key_press(&mut held, "Kp5", Key::Kp5, true, false, false);
    assert_eq!(a, KeyAction::Place('5'));
    assert!(held.contains("Kp5"));
    let b = key_press(&mut held, "BackQuote", Key::BackQuote, false, false, true);
    assert_eq!(b, KeyAction::TogglePause);
    assert!(held.contains("BackQuote"));
    key_release(&mut held, "Kp5");
    assert!(!held.contains("Kp5"));
    assert!(held.contains("BackQuote"));
}
