# oxin

The policy core of 0xin, a tiling Wayland compositor, written in Verus:
the decisions the compositor makes about windows, input, configuration
and scripts are functions here, with contracts that Verus proves.

- `src/` is the verified library. `desk` holds the workspaces, outputs,
  focus and what each action does to them; `refresh` places every window;
  `neighbor` picks the window next to the focused one; `keybind`, `pointer`
  and `touch` decide what input does; `commit` says when a window maps;
  `lock` keeps the session lock;
  `settings`, `parse`, `names` and `defaults` read the line-based
  configuration; `staging`, `registrars`,
  `module`, `action`, `events`, `host`, `park`, `drive` and `session` are
  the rules the scripting layer keeps; `plugins` and `order` decide which
  plugin files run and in what order; `control`, `power`, `capture` and
  `outputs` serve the control socket and the output protocols; `cursor`
  decodes the theme's cursor files (through the xcursor crate) and picks
  the image to draw; `wallpaper` sizes and crops the wallpaper.
- Each module states its laws as public proof functions named `law_...`.
- `app/` is the program around the library: environment, files, the
  control socket, xkb, finding the cursor theme's files, image decoding and
  scaling, and the touch gesture recognizer, which works on fractional
  positions. It is not a compositor:
  it reads the configuration, finds the plugins, loads the cursor theme and
  serves the control socket, but drives no display, no input devices and
  no windows.
- This build has no script interpreter. The rules the scripting layer
  keeps (staging, registrars, settings, fuel and deadlines, error texts)
  are here and verified, but nothing runs `init.lua` or a plugin: a script
  that exists is reported, and the run starts on the built-in
  configuration.
- `tests/` runs the library on concrete values.
