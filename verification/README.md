# spbf

A reader and writer for SPBF, a small binary container format. A file has a
fixed header (magic bytes, file type and version), a build name and version,
a chain of data-format entries and a chain of data entries, each data entry
naming its format by a 16-bit id. There are four layouts: strings padded to
even lengths ("aligned") or ended by a zero byte ("unaligned"), each in
little- or big-endian byte order.

The library is written in Verus. Every function in `src/` is verified
against its contract, except three small trusted wrappers around std that
Verus believes without proof: `String::from_utf8` and
`String::from_utf8_lossy` (in `src/text.rs`) and `Vec::into_boxed_slice`
(in `src/write/mod.rs`). Their doc comments say what is assumed of them.

- `src/lib.rs`: the file type and version and their header bytes.
- `src/read/`: checking the header and parsing the body of each layout
  (`aligned.rs`, `unaligned.rs`), with the spec of what a file reads as, and
  `laws.rs` on the version error. A chain that runs in a circle is refused
  rather than followed forever.
- `src/write/`: the writer's state as a mathematical value (`state.rs`), its
  operations, the layout of each file type (`aligned.rs`, `unaligned.rs`),
  the writer made from a read file (`from_read.rs`), when writing is refused
  and with which error (`limits.rs`), the reference counts that keep every
  block under a format (`cover.rs`) and laws relating the operations
  (`laws.rs`).
- `src/roundtrip.rs`: what a read gives back of a write, and that rewriting
  what was read gives the same bytes.
- `src/text.rs`, `src/endian.rs`, `src/search.rs`, `src/raw.rs`: UTF-8 text,
  byte order, first-match search and padding helpers.

`tests/` holds the tests, run against the compiled library.
