# tmux_gui

A desktop window that lists project folders and starts or manages a tmux
session in each one. The decisions it makes are a library verified with
Verus; the window itself is a thin egui front end.

## Layout

- `src/text.rs`: text operations the rest needs (trimming, splitting into
  lines and fields, decimal numbers), each with its meaning as a spec function.
- `src/projects.rs`: a project (name, folder, start command), its tmux session
  name, and where the project list is kept.
- `src/tmux.rs`: the argument lists of every tmux command used, how its output
  and its failures are read, which tmux program and which terminal emulator to
  run.
- `src/state.rs`: what the window shows and remembers, and how each user action
  and each refresh changes it. The caller runs the commands that a decision
  asks for and hands back their outcome.
- `tests/`: tests of the library on concrete values.
- `app/`: the egui window, file and process I/O, and the JSON files
  (`projects.json` and `settings.json` under the configuration folder's
  `tmux-gui/`).
