# labbridger

A bridge for the home lab: it scans the network for devices, keeps an eye on
relay targets, starts and stops them remotely, relays HTTP requests to them and
guards all of it with bearer tokens.

- `src/` is the library. It decides: who may pass, which hosts to ping, what a
  scan means, where a request goes and with which headers, how a target is
  started or stopped step by step, and what is answered. Verus proves the
  contracts of its functions. What it does not prove are the contracts of the
  calls into other crates and of two functions of the standard library
  (`src/outside.rs`, and `String::push` in `src/text.rs`): they say what is
  relied on.
- `app/` is the program. It reads the configuration, opens sockets, runs
  commands and timers, and performs the steps that the library names.
- `tests/` runs the library on concrete values.

Where a task takes several steps (a start by smart plug, a stop sequence, a
probe), the library returns the next step as a value; the program performs it
and hands the outcome back.
