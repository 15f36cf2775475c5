# fuel_lab

A small fuel-price book: records of the form
`<name>,<yyyy.mm.dd hh:mm>,<price>,<r>:<g>:<b>`, a storage that keeps them
in order, a command language for batch edits (`ADD <record>`,
`REM <condition>`, `SAVE <file>`) with conditions such as `price < 1000` or
`name == Diesel`, and a window to edit the list.

## Layout

- `src/` is the library, written in Verus. Its functions carry contracts and
  are proved, except seven small wrappers around std and chrono (`string_of`,
  `lowercase_of`, `uppercase_of`, `parse_date_time`, `format_date_time`,
  `display_date_time`, and `FuelDate::now`, which reads the clock): their
  contracts are taken on trust and say only what std's and chrono's
  documentation and source show.
  - `text.rs`: trimming, splitting, lines, words, joining and comparing text,
    proved against spec functions that say what std's string functions do.
  - `number.rs`: reading a `u8` in decimal, with std's error kinds.
  - `date.rs`: record dates as plain fields; reading, writing, display and
    the clock go through chrono.
  - `fuel.rs`: a record, reading it from a line, writing it as a line and
    for display.
  - `storage.rs`: the record list, reading many records, removals, and the
    save format.
  - `condition.rs`, `command.rs`: conditions and commands.
  - `screen.rs`: the state of the editing window and what each message does
    to it; outside work (dialogs, files, the clock) is returned as an
    `Effect`.
- `app/` is the program: the iced window, rfd file dialogs, file I/O, and the
  floating-point side of prices.
- `tests/` exercises the library.

Prices are floating-point numbers in the program. The library holds them as
a type parameter `P`, and takes the reading, writing and comparing of prices
as functions from the caller, so that everything else about records is
proved for any price type.
