# winsnap

A Windows tray tool for moving and sizing windows:

- Alt + left drag moves a window; its visible edges snap to the screen edges
  and, when enabled, to the visible edges of other windows (7 px to snap,
  30 px to let go). On release, an edge close to the screen edge is made
  flush with it.
- Alt + right drag resizes from the nearest edge or corner (never below
  100 x 100).
- Alt + arrow keys send the window against a screen edge; Alt + keypad 1-9
  places it on a 3 x 3 grid; Alt + wheel scales it by 10 % inside the work
  area.
- The tray menu centres all windows, toggles animation, snapping, start-up
  with Windows and listening; the backquote key pauses and resumes.
- `winsnap --cmd snap|list|screen|restore ...` is a one-shot JSON interface
  for scripts.

Layout:

- `src/` is the library, verified with Verus: window geometry (`geometry`),
  snapping and edge visibility (`snap`), the drag state machine (`drag`),
  keyboard actions (`keys`), tray decisions and the grey icon (`tray`), the
  single-instance state machine (`single`), the start-up shortcut script
  (`autostart`), the command line mode (`cmd`), and the coloured, CJK-aware
  console text (`text`, `width`, `ansi`, `style`, `align`, `format`, `log`).
- `app/` is the program around it: Win32 calls, the tray thread, the mouse
  hook, keyboard events, animation and the main polling loop.
- `tests/` exercises the library on concrete values.
