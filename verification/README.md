# panes

The state behind a tabbed, split-pane terminal window, verified with Verus.

- `src/panel.rs`: a tab's layout, a binary tree of horizontal and vertical
  splits whose leaves are panels showing terminals; lookup, replacement,
  removal and directional navigation, each specified by a spec function,
  with laws on the left-to-right order of panels.
- `src/sequences.rs`: the sequence operations those laws are phrased in.
- `src/state.rs`: the tabs of the window and the operations on them (open,
  close, cycle, split, close a panel, navigate, retitle), with a
  well-formedness invariant that every operation keeps.
- `src/title.rs`: default tab titles ("Terminal N") and decimal rendering.
- `src/keys.rs`: which key press asks for which operation.
- `app/`: the freya front end. It spawns the terminals, hands out fresh ids,
  keeps the font size and the live terminal handles, and feeds key presses
  and terminal events to the library.

## Not yet specified

- Alt+4 asks for a grid split (`Command::SplitIntoGrid`). No grid layout is
  specified yet, so the library recognises the key but offers no grid split,
  and the front end leaves the state unchanged on it.
- Alt+1 asks for `Command::CloseAllExceptActive`, implemented as
  `AppState::close_all_except_active`: the shown tab keeps only its focused
  panel.
- The per-tab output mark (`Tab::outputting`, set by
  `AppState::record_output`, cleared by `AppState::sweep_idle` after a second
  without output) works on millisecond timestamps that the front end reads
  from its clock.
