# lib_gerber_edit

A library for manipulating RS-274X (Extended Gerber) and Excellon drill files, verified with Verus.

All lengths in the public API are in **millimetres**. They are numbers of any type that implements
`Scalar`; `Fixed`, with nine decimal places, is one whose arithmetic is proved.

## Layout

- `src/` is the library, with contracts that Verus proves.
  - `excellon_format/`: reading, writing, editing and measuring drill files
  - `gerber/`: RS-274X layers, from a parsed document to the commands of a file
  - `layer`, `layer_type`, `board`: layers of any kind, and boards made of them
  - `gerber_ascii`: text as strokes of a Gerber layer
  - `unit_able`, `scalar`, `fixed`, `table`, `text`: units, numbers, tables and characters
  - `laws/`: what holds of several operations together, such as that a drill file that was read can
    be written and read again, or that a board that is moved there and back has not changed
- `tests/` runs the library on concrete files.
- `app/` is ordinary Rust around it: floating-point lengths, files and folders, the font, and the
  conversion between the library's commands and those of the `gerber_parser` crate.

## What is trusted

The library calls `gerber_parser::parse` on the bytes of a file, `chrono::Utc::now` for the date in
a file, a few functions of `std` on strings, and the conversion of `std` from a type to itself. What
is believed of each is stated at the function that makes the call, or at the function itself.
`gerber_parser::parse` panics on some files; `gerber::guard` says on which and finds them.

A caller hands in two functions where floating-point numbers meet the library: one that takes over a
parsed document, and one that turns commands into the text of a file.
