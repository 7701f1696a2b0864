# focuswm

A task-focused Wayland desktop: every virtual desktop is one task, and the shell
tracks the time that each task has the focus.

`src/` is the library, written in Verus and verified:

| Modules | What they hold |
|---------|----------------|
| `model`, `task`, `settings`, `timelog`, `tasklist`, `saved`, `tasklaws`, `pinned` | Tasks, windows on desktops, time accumulation, what is kept on disk |
| `render`, `frame` | Pixel conversion, viewports, cropping, flattening a surface tree |
| `engine`, `event`, `protocol`, `keymap`, `textinput`, `socket`, `egl` | The compositor's decisions: surfaces and ids, commits, commands, typed text, the listening socket, GL textures |
| `geom`, `frames`, `focus`, `keys`, `toast`, `color` | Floating frames, focus, keyboard and pointer input, toasts and the tray |
| `desk`, `form`, `report`, `github`, `launch` | The sidebar, dialogs, time reports, linked issues, client programs |
| `text`, `scan` | Text and numbers |

Lengths and positions are integers in 1/256 of a pixel, calendar days are day
numbers. Public proof functions named `law_…` state what holds across functions.

`app/` is the program around it: the Wayland host on Smithay, XWayland, GL
textures, the state file, GitHub and a console that drives the shell.
`tests/` runs the library.
