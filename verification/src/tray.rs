//! Decisions of the tray icon: the grey icon shown while listening is paused,
//! the right-click menu and its commands, the low-level mouse hook, the
//! tooltip and the watchdog that keeps the icon alive.

use vstd::prelude::*;
use crate::geometry::{centered_fits, centered_origin, centered_spec, Rect};
use crate::snap::WindowProbe;
use crate::text::push_str;

verus! {

// ── Centring all windows ──

/// A window is centred by the menu's "centre all" when it is visible, not
/// the desktop window, not this program's console and has a caption.
pub open spec fn centred_by_menu(p: WindowProbe) -> bool {
    p.visible && !p.is_desktop && !p.is_console && p.has_caption
}

/// Where "centre all" moves the window `p` in the work area `wa` of its
/// monitor: centred (never left of or above 0), or `None` when the window
/// is skipped or its frame is empty.
pub fn center_target(p: &WindowProbe, wa: Rect) -> (r: Option<(i32, i32)>)
    requires
        centred_by_menu(*p) ==> centered_fits(p.frame, wa),
    ensures
        !centred_by_menu(*p) ==> r is None,
        centred_by_menu(*p) ==> (match centered_spec(p.frame, wa) {
            Some(q) => r == Some((q.0 as i32, q.1 as i32)),
            None => r is None,
        }),
{
    if !(p.visible && !p.is_desktop && !p.is_console && p.has_caption) {
        return None;
    }
    centered_origin(p.frame, wa)
}

// ── Grey icon ──

/// Red, green and blue channels of a pixel `0xAARRGGBB`.
pub open spec fn red(p: u32) -> u32 {
    (p >> 16u32) & 0xffu32
}

pub open spec fn green(p: u32) -> u32 {
    (p >> 8u32) & 0xffu32
}

pub open spec fn blue(p: u32) -> u32 {
    p & 0xffu32
}

pub open spec fn alpha(p: u32) -> u32 {
    (p >> 24u32) & 0xffu32
}

/// Rec. 601 luma of a pixel in 8-bit fixed point:
/// `(77 r + 150 g + 29 b) >> 8`.
pub open spec fn luma(p: u32) -> u32 {
    (((red(p) * 77u32 + green(p) * 150u32 + blue(p) * 29u32) as u32) >> 8u32) & 0xffu32
}

/// The grey version of a pixel: alpha kept, the three colour channels set
/// to its luma.
pub open spec fn gray_pixel_spec(p: u32) -> u32 {
    (alpha(p) << 24u32) | (luma(p) << 16u32) | (luma(p) << 8u32) | luma(p)
}

/// The grey version of the pixel `p` (`0xAARRGGBB`): alpha kept, each
/// colour channel replaced by the Rec. 601 luma `(77 r + 150 g + 29 b) >> 8`.
pub fn gray_pixel(p: u32) -> (r: u32)
    ensures
        r == gray_pixel_spec(p),
        alpha(r) == alpha(p),
        red(r) == luma(p) && green(r) == luma(p) && blue(r) == luma(p),
{
    let a = (p >> 24) & 0xFF;
    let r = (p >> 16) & 0xFF;
    let g = (p >> 8) & 0xFF;
    let b = p & 0xFF;
    assert(r * 77 + g * 150 + b * 29 <= 0xffff_ffff) by (bit_vector)
        requires
            r == (p >> 16u32) & 0xffu32,
            g == (p >> 8u32) & 0xffu32,
            b == p & 0xffu32,
    ;
    let gray = ((r * 77 + g * 150 + b * 29) >> 8) & 0xFF;
    let out = (a << 24) | (gray << 16) | (gray << 8) | gray;
    proof {
        lemma_gray_channels(p);
        assert(out == gray_pixel_spec(p)) by (bit_vector)
            requires
                a == (p >> 24u32) & 0xffu32,
                r == (p >> 16u32) & 0xffu32,
                g == (p >> 8u32) & 0xffu32,
                b == p & 0xffu32,
                gray == (((r * 77u32 + g * 150u32 + b * 29u32) as u32) >> 8u32) & 0xffu32,
                out == (a << 24u32) | (gray << 16u32) | (gray << 8u32) | gray,
        ;
    }
    out
}

proof fn lemma_gray_channels(p: u32)
    ensures
        alpha(gray_pixel_spec(p)) == alpha(p),
        red(gray_pixel_spec(p)) == luma(p),
        green(gray_pixel_spec(p)) == luma(p),
        blue(gray_pixel_spec(p)) == luma(p),
{
    assert(alpha(gray_pixel_spec(p)) == alpha(p)) by (bit_vector);
    assert(red(gray_pixel_spec(p)) == luma(p)) by (bit_vector);
    assert(green(gray_pixel_spec(p)) == luma(p)) by (bit_vector);
    assert(blue(gray_pixel_spec(p)) == luma(p)) by (bit_vector);
}

/// Law: greying a grey pixel changes nothing (the weights add up to 256),
/// so greying an icon twice gives the same icon as greying it once.
pub proof fn lemma_gray_idempotent(p: u32)
    ensures
        gray_pixel_spec(gray_pixel_spec(p)) == gray_pixel_spec(p),
{
    assert(gray_pixel_spec(gray_pixel_spec(p)) == gray_pixel_spec(p)) by (bit_vector);
}

/// Greys every pixel of an icon in place (see `gray_pixel`).
pub fn gray_pixels(pixels: &mut Vec<u32>)
    ensures
        final(pixels)@.len() == old(pixels)@.len(),
        forall|i: int| 0 <= i < old(pixels)@.len() ==> #[trigger] final(pixels)@[i] == gray_pixel_spec(old(pixels)@[i]),
{
    let ghost orig = pixels@;
    let mut i: usize = 0;
    while i < pixels.len()
        invariant
            pixels@.len() == orig.len(),
            i <= pixels.len(),
            forall|k: int| 0 <= k < i ==> #[trigger] pixels@[k] == gray_pixel_spec(orig[k]),
            forall|k: int| i <= k < orig.len() ==> #[trigger] pixels@[k] == orig[k],
        decreases pixels.len() - i,
    {
        let g = gray_pixel(pixels[i]);
        pixels.set(i, g);
        i = i + 1;
    }
}

// ── Menu and commands ──

pub const ID_TRAY_CENTER: u16 = 1000;
pub const ID_TRAY_EXIT: u16 = 1001;
pub const ID_TRAY_AUTOSTART: u16 = 1002;
pub const ID_TRAY_PAUSE: u16 = 1003;
pub const ID_TRAY_ANIMATE: u16 = 1004;
pub const ID_TRAY_SNAP_SCREEN: u16 = 1005;
pub const ID_TRAY_SNAP_WINDOW: u16 = 1006;
/// The separator line of the menu.
pub const ID_SEPARATOR: u16 = 0;

/// The switches that the tray menu toggles.
#[derive(Clone, Copy, Debug, PartialEq, Eq, Structural)]
pub struct TrayFlags {
    /// Keyboard placement moves windows with an animation.
    pub animate: bool,
    /// Dragged windows snap to screen edges.
    pub snap_screen: bool,
    /// Dragged windows snap to other windows' edges.
    pub snap_window: bool,
    /// Hotkeys and mouse handling are paused.
    pub paused: bool,
}

impl TrayFlags {
    /// The switches at start-up: screen snapping on, everything else off.
    pub fn new() -> (f: Self)
        ensures
            f == (TrayFlags { animate: false, snap_screen: true, snap_window: false, paused: false }),
    {
        TrayFlags { animate: false, snap_screen: true, snap_window: false, paused: false }
    }
}

/// One line of the tray menu: its command id (`ID_SEPARATOR` for the
/// separator) and whether it shows a check mark.
#[derive(Clone, Copy, Debug, PartialEq, Eq, Structural)]
pub struct MenuEntry {
    pub id: u16,
    pub checked: bool,
}

pub open spec fn entry(id: u16, checked: bool) -> MenuEntry {
    MenuEntry { id, checked }
}

/// The tray menu: centre all, start with Windows, animation, screen
/// snapping, window snapping, pause, a separator, exit; each switch checked
/// when it is on.
pub open spec fn menu_spec(f: TrayFlags, autostart: bool) -> Seq<MenuEntry> {
    seq![
        entry(ID_TRAY_CENTER, false),
        entry(ID_TRAY_AUTOSTART, autostart),
        entry(ID_TRAY_ANIMATE, f.animate),
        entry(ID_TRAY_SNAP_SCREEN, f.snap_screen),
        entry(ID_TRAY_SNAP_WINDOW, f.snap_window),
        entry(ID_TRAY_PAUSE, f.paused),
        entry(ID_SEPARATOR, false),
        entry(ID_TRAY_EXIT, false),
    ]
}

/// The lines of the tray menu for the switches `flags`, with `autostart`
/// telling whether starting with Windows is on (see `menu_spec`).
pub fn tray_menu(flags: &TrayFlags, autostart: bool) -> (r: Vec<MenuEntry>)
    ensures
        r@ == menu_spec(*flags, autostart),
{
    let mut v: Vec<MenuEntry> = Vec::new();
    v.push(MenuEntry { id: ID_TRAY_CENTER, checked: false });
    v.push(MenuEntry { id: ID_TRAY_AUTOSTART, checked: autostart });
    v.push(MenuEntry { id: ID_TRAY_ANIMATE, checked: flags.animate });
    v.push(MenuEntry { id: ID_TRAY_SNAP_SCREEN, checked: flags.snap_screen });
    v.push(MenuEntry { id: ID_TRAY_SNAP_WINDOW, checked: flags.snap_window });
    v.push(MenuEntry { id: ID_TRAY_PAUSE, checked: flags.paused });
    v.push(MenuEntry { id: ID_SEPARATOR, checked: false });
    v.push(MenuEntry { id: ID_TRAY_EXIT, checked: false });
    assert(v@ =~= menu_spec(*flags, autostart));
    v
}

/// What a menu command asks for; the switches carry their new state.
#[derive(Clone, Copy, Debug, PartialEq, Eq, Structural)]
pub enum TrayCommand {
    CenterAll,
    ToggleAutostart,
    Exit,
    Animate(bool),
    SnapScreen(bool),
    SnapWindow(bool),
    Pause(bool),
    /// Not one of the menu's commands.
    Other,
}

/// The command and the new switches for menu id `id`.
pub open spec fn command_spec(f: TrayFlags, id: u32) -> (TrayCommand, TrayFlags) {
    if id == ID_TRAY_CENTER as u32 {
        (TrayCommand::CenterAll, f)
    } else if id == ID_TRAY_AUTOSTART as u32 {
        (TrayCommand::ToggleAutostart, f)
    } else if id == ID_TRAY_ANIMATE as u32 {
        (TrayCommand::Animate(!f.animate), TrayFlags { animate: !f.animate, ..f })
    } else if id == ID_TRAY_SNAP_SCREEN as u32 {
        (TrayCommand::SnapScreen(!f.snap_screen), TrayFlags { snap_screen: !f.snap_screen, ..f })
    } else if id == ID_TRAY_SNAP_WINDOW as u32 {
        (TrayCommand::SnapWindow(!f.snap_window), TrayFlags { snap_window: !f.snap_window, ..f })
    } else if id == ID_TRAY_PAUSE as u32 {
        (TrayCommand::Pause(!f.paused), TrayFlags { paused: !f.paused, ..f })
    } else if id == ID_TRAY_EXIT as u32 {
        (TrayCommand::Exit, f)
    } else {
        (TrayCommand::Other, f)
    }
}

/// The menu id carried by the low word of a command message's `wparam`.
pub fn command_id(wparam: usize) -> (r: u32)
    ensures
        r == (wparam as u32) & 0xffffu32,
{
    (wparam as u32) & 0xFFFF
}

/// Carries out the menu command `id` on the switches: a switch is flipped
/// and its new state returned; other commands leave the switches alone.
pub fn apply_command(flags: &mut TrayFlags, id: u32) -> (r: TrayCommand)
    ensures
        (r, *final(flags)) == command_spec(*old(flags), id),
{
    if id == ID_TRAY_CENTER as u32 {
        TrayCommand::CenterAll
    } else if id == ID_TRAY_AUTOSTART as u32 {
        TrayCommand::ToggleAutostart
    } else if id == ID_TRAY_ANIMATE as u32 {
        flags.animate = !flags.animate;
        TrayCommand::Animate(flags.animate)
    } else if id == ID_TRAY_SNAP_SCREEN as u32 {
        flags.snap_screen = !flags.snap_screen;
        TrayCommand::SnapScreen(flags.snap_screen)
    } else if id == ID_TRAY_SNAP_WINDOW as u32 {
        flags.snap_window = !flags.snap_window;
        TrayCommand::SnapWindow(flags.snap_window)
    } else if id == ID_TRAY_PAUSE as u32 {
        flags.paused = !flags.paused;
        TrayCommand::Pause(flags.paused)
    } else if id == ID_TRAY_EXIT as u32 {
        TrayCommand::Exit
    } else {
        TrayCommand::Other
    }
}

/// Law: choosing a switch twice from the menu leaves every switch as it
/// was.
pub proof fn lemma_toggle_twice(f: TrayFlags, id: u32)
    ensures
        command_spec(command_spec(f, id).1, id).1 == f,
{
}

/// A click on the tray icon.
#[derive(Clone, Copy, Debug, PartialEq, Eq, Structural)]
pub enum TrayClick {
    /// Left button released: show or hide the console.
    ToggleConsole,
    /// Right button released: open the menu.
    ShowMenu,
    /// Anything else goes to the default window procedure.
    Other,
}

/// What the tray icon's mouse message `event` asks for.
pub fn tray_click(event: u32) -> (r: TrayClick)
    ensures
        r == (if event == 0x0202 { TrayClick::ToggleConsole } else if event == 0x0205 { TrayClick::ShowMenu } else { TrayClick::Other }),
{
    if event == 0x0202 {
        TrayClick::ToggleConsole
    } else if event == 0x0205 {
        TrayClick::ShowMenu
    } else {
        TrayClick::Other
    }
}

// ── Low-level mouse hook ──

pub const WM_LBUTTONDOWN: u32 = 0x0201;
pub const WM_LBUTTONUP: u32 = 0x0202;
pub const WM_RBUTTONDOWN: u32 = 0x0204;
pub const WM_RBUTTONUP: u32 = 0x0205;

/// What the mouse hook does with one message: the new state of the left
/// and right buttons (if the message changes one), the drag request it
/// raises (1 move, 2 resize, 0 none), and whether it swallows the message
/// instead of passing it on.
#[derive(Clone, Copy, Debug, PartialEq, Eq, Structural)]
pub struct HookOutcome {
    pub left: Option<bool>,
    pub right: Option<bool>,
    pub request: u32,
    pub swallow: bool,
}

pub open spec fn hook_spec(code: i32, msg: u32, alt: bool) -> HookOutcome {
    if code < 0 {
        HookOutcome { left: None, right: None, request: 0, swallow: false }
    } else if msg == WM_LBUTTONDOWN {
        HookOutcome { left: Some(true), right: None, request: if alt { 1 } else { 0 }, swallow: alt }
    } else if msg == WM_LBUTTONUP {
        HookOutcome { left: Some(false), right: None, request: 0, swallow: alt }
    } else if msg == WM_RBUTTONDOWN {
        HookOutcome { left: None, right: Some(true), request: if alt { 2 } else { 0 }, swallow: alt }
    } else if msg == WM_RBUTTONUP {
        HookOutcome { left: None, right: Some(false), request: 0, swallow: alt }
    } else {
        HookOutcome { left: None, right: None, request: 0, swallow: false }
    }
}

/// The hook's handling of the message `msg` with hook code `code`, given
/// whether Alt is held (see `hook_spec`): button presses and releases are
/// tracked; with Alt held they are swallowed, and a press asks for a move
/// (left) or resize (right) drag.
pub fn hook_event(code: i32, msg: u32, alt: bool) -> (r: HookOutcome)
    ensures
        r == hook_spec(code, msg, alt),
        r.swallow ==> alt,
        r.request != 0 ==> r.swallow && (msg == WM_LBUTTONDOWN || msg == WM_RBUTTONDOWN),
{
    let none = HookOutcome { left: None, right: None, request: 0, swallow: false };
    if code < 0 {
        return none;
    }
    if msg == WM_LBUTTONDOWN {
        HookOutcome { left: Some(true), right: None, request: if alt { 1 } else { 0 }, swallow: alt }
    } else if msg == WM_LBUTTONUP {
        HookOutcome { left: Some(false), right: None, request: 0, swallow: alt }
    } else if msg == WM_RBUTTONDOWN {
        HookOutcome { left: None, right: Some(true), request: if alt { 2 } else { 0 }, swallow: alt }
    } else if msg == WM_RBUTTONUP {
        HookOutcome { left: None, right: Some(false), request: 0, swallow: alt }
    } else {
        none
    }
}

// ── Tooltip ──

/// The tooltip text (NUL-terminated): the version `version` and whether
/// listening is paused.
pub open spec fn tip_spec(paused: bool, version: Seq<char>) -> Seq<char> {
    if paused {
        "winsnap v"@ + version + " - 监听已禁用（输入 ` 恢复）\0"@
    } else {
        "winsnap v"@ + version + " - 窗口管理工具（输入 ` 禁用）\0"@
    }
}

/// The tooltip of the tray icon for program version `version`, telling
/// how to pause or resume listening.
pub fn tray_tip(paused: bool, version: &str) -> (r: String)
    ensures
        r@ == tip_spec(paused, version@),
{
    let mut out = String::new();
    push_str(&mut out, "winsnap v");
    push_str(&mut out, version);
    if paused {
        push_str(&mut out, " - 监听已禁用（输入 ` 恢复）\0");
    } else {
        push_str(&mut out, " - 窗口管理工具（输入 ` 禁用）\0");
    }
    proof {
        reveal_strlit("");
        assert(out@ =~= tip_spec(paused, version@));
    }
    out
}

/// The tooltip the icon is created with (NUL-terminated).
pub fn initial_tip(version: &str) -> (r: String)
    ensures
        r@ == "winsnap v"@ + version@ + " - 窗口管理工具\0"@,
{
    let mut out = String::new();
    push_str(&mut out, "winsnap v");
    push_str(&mut out, version);
    push_str(&mut out, " - 窗口管理工具\0");
    proof {
        reveal_strlit("");
        assert(out@ =~= "winsnap v"@ + version@ + " - 窗口管理工具\0"@);
    }
    out
}

// ── Icon choice ──

/// Which icon the tray shows.
#[derive(Clone, Copy, Debug, PartialEq, Eq, Structural)]
pub enum IconChoice {
    /// The coloured application icon.
    Color,
    /// The grey icon made earlier (cached handle).
    CachedGray,
    /// Make the grey icon now.
    MakeGray,
}

/// The icon for the listening state: coloured while active, grey while
/// paused, reusing a grey icon made before (`cached` non-zero).
pub fn icon_choice(paused: bool, cached: isize) -> (r: IconChoice)
    ensures
        r == (if !paused { IconChoice::Color } else if cached != 0 { IconChoice::CachedGray } else { IconChoice::MakeGray }),
{
    if !paused {
        IconChoice::Color
    } else if cached != 0 {
        IconChoice::CachedGray
    } else {
        IconChoice::MakeGray
    }
}

/// A freshly made grey icon is kept for reuse when it exists and is not the
/// coloured icon it falls back to.
pub fn keep_gray(gray: isize, color: isize) -> (r: bool)
    ensures
        r == (gray != 0 && gray != color),
{
    gray != 0 && gray != color
}

// ── Watchdog ──

/// What the watchdog does on one of its checks.
#[derive(Clone, Copy, Debug, PartialEq, Eq, Structural)]
pub enum WatchAction {
    /// Nothing to do (no tray window yet, icon present, or respawned too
    /// recently).
    Nothing,
    /// The tray window is gone: start the tray thread again.
    Respawn,
    /// The icon is missing: ask the tray thread to add it again.
    RestoreIcon,
}

/// Whether at least `gap` milliseconds passed from `last` to `now`
/// (a clock that went back counts as no time).
pub fn elapsed_at_least(now: u64, last: u64, gap: u64) -> (r: bool)
    ensures
        r == (if now >= last { now - last >= gap } else { 0 >= gap }),
{
    now.saturating_sub(last) >= gap
}

/// The watchdog's decision: with no tray window yet nothing happens; a
/// dead tray window is respawned at most once per 5 seconds (`now_ms`
/// against the last respawn `last_respawn_ms`); a live window whose icon
/// is missing gets its icon back.
pub fn watchdog_action(window_set: bool, window_alive: bool, icon_present: bool, now_ms: u64, last_respawn_ms: u64) -> (r: WatchAction)
    ensures
        r == (if !window_set {
            WatchAction::Nothing
        } else if !window_alive {
            if now_ms >= last_respawn_ms && now_ms - last_respawn_ms >= 5000 { WatchAction::Respawn } else { WatchAction::Nothing }
        } else if !icon_present {
            WatchAction::RestoreIcon
        } else {
            WatchAction::Nothing
        }),
{
    if !window_set {
        WatchAction::Nothing
    } else if !window_alive {
        if elapsed_at_least(now_ms, last_respawn_ms, 5000) {
            WatchAction::Respawn
        } else {
            WatchAction::Nothing
        }
    } else if !icon_present {
        WatchAction::RestoreIcon
    } else {
        WatchAction::Nothing
    }
}

} // verus!
