# gr2_rs

A parser for RAD Game Tools' Granny 2 (`.gr2` / `.model`) 3D asset files, written in Rust and
verified with [Verus](https://github.com/verus-lang/verus). It depends on no other crate.

- Reads files of version 6 and 7 in all four variants: little and big endian, pointers of 32 and
  of 64 bits.
- Decompresses BitKnit (types 3 and 4) and Oodle1 (type 2) sections. Oodle0 is not supported.
- Applies relocations, also where the relocation table is compressed itself.
- Walks the struct definitions that a file holds, and extracts struct instances into a tree of
  fields and values. References are kept as offsets and followed on request.
- Checks the CRC-32 of a file, apart from parsing it.

## Layout

| Path | What it is |
|------|------------|
| `src/` | the library; every function in it is verified |
| `tests/` | its tests |
| `app/` | the command-line tool: `gr2-rs [--types] <file.model>` |

What a function does is stated over mathematical models: `bitknit::model` and the `oodle1` modules
say what a stream decodes to, `reader::parse` what a file loads as, `reader::image` and
`reader::layout` what the loaded bytes mean. The functions named `law_...` state what holds of
these models: sizes, round trips, invariants.

No function panics on malformed data: what cannot be read is an error or `None`. Sizes and offsets
that would leave the address range stop at its end, where nothing can be read.

Floating-point numbers are kept as their bits (`element::Float32`) and shown with the fewest digits
that stand for them, found in whole numbers alone. Two functions of the standard library are called
through trusted wrappers: `str::from_utf8`, and `format!` for a quoted string.
