# flows

A menu-bar launcher: a tray menu, built from a JSON configuration, opens web
pages and runs shell commands whose text may hold `${env.X}`, `${vars.X}`,
`${secrets.X}` and `${param.X}` placeholders.

- `src/` is the verified library (Verus): the configuration model and its
  paths, placeholder evaluation, the menu model and its item identifiers, the
  application state, the process tree of a command, the window events and the
  tray's decisions.
- `app/` is the desktop program around it: the window toolkit, shell runs,
  files, the process table and signals.
- `tests/` runs the library on concrete values.
