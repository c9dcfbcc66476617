//! A verified parser for Granny 2 (`.gr2` / `.model`) 3D asset files.
//!
//! * [`reader`]: loading a file, its sections and relocations, and extracting typed data from it.
//! * [`format`]: the on-disk structures, the type codes and endian-aware reads.
//! * [`element`]: the tree of fields and values that extraction yields.
//! * [`bitknit`], [`oodle1`]: the two decompressors; [`lz`] is what they share.
//! * [`dump`]: a readable listing of a loaded file; [`debug`] shows values in it and in error
//!   messages.
//! * [`text`], [`number`]: numbers as text. For a floating-point number [`shortest`] finds the
//!   digits, on the large numbers of [`big`].
//! * [`positional`], [`reading`], [`floats`], [`listing`]: what bytes, digits, floating-point numbers
//!   and listings stand for, as laws.
//! * [`sums`]: sums over sequences, for the proofs.

pub mod big;
pub mod bitknit;
pub mod debug;
pub mod dump;
pub mod element;
pub mod floats;
pub mod format;
pub mod listing;
pub mod lz;
pub mod number;
pub mod oodle1;
pub mod positional;
pub mod reader;
pub mod reading;
pub mod shortest;
pub mod sums;
pub mod text;
