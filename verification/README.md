# jyn

Personal task management, verified with Verus: short task IDs, due-date
parsing and rendering, recurrence phrases and rules, the bookkeeping of
recurring tasks, the task workspace's naming rules and layered
configuration.

## Layout

- `src/` is the library. Its functions carry contracts that Verus proves,
  except the small `#[verifier::external_body]` wrappers that call
  `chrono`, `rrule`, `joy-core` and the standard library (string case
  mapping, path joining): Verus believes their contracts, and each one's
  doc comment says what it claims of the call.
  - `text.rs`: char sequences, trimming, splitting, number parsing and
    rendering.
  - `calendar.rs`: dates and UTC instants as plain values; `chrono` does
    the calendar arithmetic, parsing and formatting behind small
    wrappers.
  - `paths.rs`: joining file-system paths.
  - `item.rs`: the work item that tasks extend.
  - `color.rs`: ANSI colours and the table frame of a listing.
  - `jot/`: short IDs (`display`), due dates (`due`), the task model,
    the workspace's file names and IDs (`storage`) and what `jot` prints
    (`report`).
  - `jyn/`: due dates with weekdays and offsets, recurrence phrases and
    rules (through the `rrule` crate), recurring-task bookkeeping
    (`model`), configuration values (`config`) and the decisions of the
    `config`, `tutorial` and `update` subcommands (`commands`).
- `tests/` runs the library on concrete values, with the real outside
  crates behind the wrappers.
- `app/` is the command line around the library: argument parsing, files,
  the environment, the terminal and the network.
