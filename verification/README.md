# vantage

The verified core of the Vantage shell, written in Verus.

- `src/` is the library: word expansion (`state`), parsing a line's words into a
  pipeline (`parser`), what to do with a line and how each pipeline stage is wired
  (`pipeline`), the built-in commands' decisions (`builtins`), the `sys` report lines,
  uptime text and benchmark history (`report`), the prompt with its memory and CPU
  dashboard (`prompt`), the project summary (`monitor`), and command-name
  completion (`complete`). Each public function states its result over spec functions, and
  the library's laws stand there as proof functions.
- `app/` is the program around it: line editing, running processes, reading the
  file system and the system tables, and the floating-point figures.
- `tests/` runs the library on concrete values.
