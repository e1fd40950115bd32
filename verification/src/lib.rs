//! winsnap's logic: moving, snapping, resizing and placing top-level windows
//! with Alt and the mouse or keyboard, the tray menu and the single-instance
//! check, the command line mode, and the ANSI-coloured, CJK-aware console
//! log.
//!
//! Text and console formatting: `text`, `width`, `ansi`, `style`, `align`,
//! `format`, `log`. Window geometry and interaction: `geometry`, `snap`,
//! `drag`, `keys`, `tray`, `single`, `autostart`, `cmd`.

pub mod text;
pub mod geometry;
pub mod width;
pub mod ansi;
pub mod style;
pub mod align;
pub mod format;
pub mod log;
pub mod snap;
pub mod drag;
pub mod keys;
pub mod tray;
pub mod single;
pub mod autostart;
pub mod cmd;

pub use align::{cell, format_row, pad_center, pad_left, pad_right, truncate, Alignment, Cell};
pub use ansi::strip_ansi;
pub use format::format_size;
pub use style::{
    black, blue, bold, bold_blue, bold_bright_cyan, bold_cyan, bold_green, bold_magenta, bold_red,
    bold_yellow, bright_black, bright_blue, bright_cyan, bright_green, bright_magenta, bright_red,
    bright_yellow, cyan, gray, green, magenta, red, white, yellow, Style,
};
pub use width::DisplayWidth;
