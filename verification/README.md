# mon_osd

Brightness, contrast and volume control for displays on macOS (Apple
Silicon): DDC/CI to external monitors, DisplayServices for the built-in
panel, CoreAudio for system volume.

- `src/` is the library, verified with Verus: DDC/CI packet framing and the
  write/read/retry exchange (`ddc`), the cached-VCP-value state file
  (`cache`), the display-identity mapping file and pinned volume index
  (`display_map`), EDID identity parsing (`ioav`), command decisions such as
  feature codes, clamping, mute states, display selection and routing
  (`control`), CoreAudio status reporting (`system_audio`), and the shared
  character-level text handling (`text`).
- `app/` is the `mon-osd` command: argument parsing, the IOKit, CoreGraphics,
  DisplayServices and CoreAudio calls, sleeps, and the files under
  `~/.cache/mon-osd`.
- `tests/` exercises the library.
