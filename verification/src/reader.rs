//! Loads, decompresses and resolves a GR2 file.
//!
//! All four variants of the format are read: little and big endian, with pointers of thirty-two
//! and of sixty-four bits. Oodle0 sections are not supported. Data fields are read in the byte
//! order of the file; mixed marshalling is not applied.
use crate::bitknit;
use crate::format::{
    Compression, Endianness, Header, MagicBlock, MemberType, PointerWidth, SectionHeader,
};
use crate::oodle1;
use crate::text::{decimal, decimal_text, hex8, padded_hex_text};
use vstd::prelude::*;
use vstd::string::*;

pub mod access;
pub mod contents;
pub mod crc;
pub mod damage;
pub mod extract;
pub mod image;
pub mod laws;
pub mod layout;
pub mod linking;
pub mod parse;
pub mod pointers;
pub mod relocation;
pub mod resolution;
pub mod sizes;
pub mod values;

verus! {

// ---------------------------------------------------------------------------
// Errors
// ---------------------------------------------------------------------------

/// The kinds of I/O error that are told apart.
#[derive(Debug, Clone, Copy, PartialEq, Eq, Structural)]
pub enum IoErrorKind {
    UnexpectedEof,
    Other,
}

/// An I/O error: its kind and its message.
#[derive(Debug)]
pub struct IoError {
    pub kind: IoErrorKind,
    pub message: String,
}

impl IoError {
    pub fn to_string(&self) -> (r: String)
        ensures
            r@ == self.message@,
    {
        self.message.clone()
    }
}

#[derive(Debug)]
pub enum Error {
    Io(IoError),
    UnknownMagic,
    Truncated,
    UnsupportedVersion(u32),
    UnsupportedCompression(Compression),
    UnsupportedHeaderFormat(u32),
    SectionOutOfBounds { section: usize },
    BitKnit(bitknit::Error),
    Oodle1(oodle1::Error),
    InvalidRelocation(String),
    InvalidType(String),
    CrcMismatch { expected: u32, computed: u32 },
}

/// What an [`Error`] stands for.
pub enum ErrorModel {
    Io { kind: IoErrorKind, message: Seq<char> },
    UnknownMagic,
    Truncated,
    UnsupportedVersion(u32),
    UnsupportedCompression(Compression),
    UnsupportedHeaderFormat(u32),
    SectionOutOfBounds { section: usize },
    BitKnit(bitknit::Error),
    Oodle1(oodle1::ErrorModel),
    InvalidRelocation(Seq<char>),
    InvalidType(Seq<char>),
    CrcMismatch { expected: u32, computed: u32 },
}

impl View for Error {
    type V = ErrorModel;

    open spec fn view(&self) -> ErrorModel {
        match *self {
            Error::Io(e) => ErrorModel::Io { kind: e.kind, message: e.message@ },
            Error::UnknownMagic => ErrorModel::UnknownMagic,
            Error::Truncated => ErrorModel::Truncated,
            Error::UnsupportedVersion(v) => ErrorModel::UnsupportedVersion(v),
            Error::UnsupportedCompression(c) => ErrorModel::UnsupportedCompression(c),
            Error::UnsupportedHeaderFormat(v) => ErrorModel::UnsupportedHeaderFormat(v),
            Error::SectionOutOfBounds { section } => ErrorModel::SectionOutOfBounds { section },
            Error::BitKnit(e) => ErrorModel::BitKnit(e),
            Error::Oodle1(e) => ErrorModel::Oodle1(e@),
            Error::InvalidRelocation(s) => ErrorModel::InvalidRelocation(s@),
            Error::InvalidType(s) => ErrorModel::InvalidType(s@),
            Error::CrcMismatch { expected, computed } => ErrorModel::CrcMismatch {
                expected,
                computed,
            },
        }
    }
}

impl ErrorModel {
    /// The message shown for this error.
    pub open spec fn text(self) -> Seq<char> {
        match self {
            ErrorModel::Io { kind, message } => "I/O: "@ + message,
            ErrorModel::UnknownMagic => "unknown GR2 magic signature"@,
            ErrorModel::Truncated => "file truncated"@,
            ErrorModel::UnsupportedVersion(v) => "unsupported GR2 version "@ + decimal_text(
                v as nat,
            ) + " (need 6 or 7)"@,
            ErrorModel::UnsupportedCompression(c) => "unsupported compression: "@ + c.text(),
            ErrorModel::UnsupportedHeaderFormat(v) => "unsupported header format "@
                + decimal_text(v as nat) + " (only 0 = uncompressed)"@,
            ErrorModel::SectionOutOfBounds { section } => "section "@ + decimal_text(
                section as nat,
            ) + " out of bounds"@,
            ErrorModel::BitKnit(e) => e.text(),
            ErrorModel::Oodle1(e) => e.text(),
            ErrorModel::InvalidRelocation(s) => "invalid relocation: "@ + s,
            ErrorModel::InvalidType(s) => "invalid type: "@ + s,
            ErrorModel::CrcMismatch { expected, computed } => "CRC mismatch: expected 0x"@
                + padded_hex_text(expected as nat, 8) + ", computed 0x"@ + padded_hex_text(
                computed as nat,
                8,
            ),
        }
    }
}

/// The error that another error was made from.
pub enum ErrorSource<'a> {
    Io(&'a IoError),
    BitKnit(&'a bitknit::Error),
    Oodle1(&'a oodle1::Error),
}

impl Error {
    pub fn to_string(&self) -> (r: String)
        ensures
            r@ == self@.text(),
    {
        match self {
            Error::Io(e) => {
                let mut s = "I/O: ".to_string();
                s.append(e.message.as_str());
                s
            },
            Error::UnknownMagic => "unknown GR2 magic signature".to_string(),
            Error::Truncated => "file truncated".to_string(),
            Error::UnsupportedVersion(v) => {
                let mut s = "unsupported GR2 version ".to_string();
                s.append(decimal(*v as u64).as_str());
                s.append(" (need 6 or 7)");
                s
            },
            Error::UnsupportedCompression(c) => {
                let mut s = "unsupported compression: ".to_string();
                s.append(c.to_string().as_str());
                s
            },
            Error::UnsupportedHeaderFormat(v) => {
                let mut s = "unsupported header format ".to_string();
                s.append(decimal(*v as u64).as_str());
                s.append(" (only 0 = uncompressed)");
                s
            },
            Error::SectionOutOfBounds { section } => {
                let mut s = "section ".to_string();
                s.append(decimal(*section as u64).as_str());
                s.append(" out of bounds");
                s
            },
            Error::BitKnit(e) => e.to_string(),
            Error::Oodle1(e) => e.to_string(),
            Error::InvalidRelocation(msg) => {
                let mut s = "invalid relocation: ".to_string();
                s.append(msg.as_str());
                s
            },
            Error::InvalidType(msg) => {
                let mut s = "invalid type: ".to_string();
                s.append(msg.as_str());
                s
            },
            Error::CrcMismatch { expected, computed } => {
                let mut s = "CRC mismatch: expected 0x".to_string();
                s.append(hex8(*expected).as_str());
                s.append(", computed 0x");
                s.append(hex8(*computed).as_str());
                s
            },
        }
    }

    /// The error that this one was made from, if any.
    pub fn source(&self) -> (r: Option<ErrorSource<'_>>)
        ensures
            r == match *self {
                Error::Io(e) => Some(ErrorSource::Io(&e)),
                Error::BitKnit(e) => Some(ErrorSource::BitKnit(&e)),
                Error::Oodle1(e) => Some(ErrorSource::Oodle1(&e)),
                _ => None,
            },
    {
        match self {
            Error::Io(e) => Some(ErrorSource::Io(e)),
            Error::BitKnit(e) => Some(ErrorSource::BitKnit(e)),
            Error::Oodle1(e) => Some(ErrorSource::Oodle1(e)),
            _ => None,
        }
    }
}

impl From<IoError> for Error {
    fn from(e: IoError) -> (r: Self) {
        Error::Io(e)
    }
}

impl vstd::std_specs::convert::FromSpecImpl<IoError> for Error {
    open spec fn obeys_from_spec() -> bool {
        true
    }

    open spec fn from_spec(e: IoError) -> Self {
        Error::Io(e)
    }
}

impl From<bitknit::Error> for Error {
    fn from(e: bitknit::Error) -> (r: Self) {
        Error::BitKnit(e)
    }
}

impl vstd::std_specs::convert::FromSpecImpl<bitknit::Error> for Error {
    open spec fn obeys_from_spec() -> bool {
        true
    }

    open spec fn from_spec(e: bitknit::Error) -> Self {
        Error::BitKnit(e)
    }
}

impl From<oodle1::Error> for Error {
    fn from(e: oodle1::Error) -> (r: Self) {
        Error::Oodle1(e)
    }
}

impl vstd::std_specs::convert::FromSpecImpl<oodle1::Error> for Error {
    open spec fn obeys_from_spec() -> bool {
        true
    }

    open spec fn from_spec(e: oodle1::Error) -> Self {
        Error::Oodle1(e)
    }
}

// ---------------------------------------------------------------------------
// The loaded file
// ---------------------------------------------------------------------------

/// A decompressed section.
#[derive(Debug, Clone, Copy)]
pub struct Section {
    pub header: SectionHeader,
    /// Where the data of the section starts in the flat buffer.
    pub base_address: usize,
}

/// A file that was loaded, decompressed and relocated.
#[derive(Debug)]
pub struct Gr2File {
    pub magic: MagicBlock,
    pub header: Header,
    pub sections: Vec<Section>,
    /// The data of all sections, one after another.
    pub flat: Vec<u8>,
    pub endianness: Endianness,
    pub pointer_width: PointerWidth,
}

/// One member of a struct definition.
#[derive(Debug, Clone)]
pub struct MemberDef {
    pub member_type: MemberType,
    pub name: String,
    /// Offset of the member's own struct definition; zero where it has none.
    pub children_ptr: usize,
    pub array_size: u32,
}

/// The least size of a file: magic block and main header.
pub const MIN_FILE_SIZE: usize = 0x58;

/// The largest size of a decompressed section.
pub const MAX_SECTION_SIZE: usize = 0x1000_0000;

/// The largest number of elements that an array is resolved with.
pub const MAX_ARRAY_COUNT: u32 = 0x100_0000;

/// The deepest nesting of inline structs that is followed.
pub const MAX_EXTRACT_DEPTH: usize = 32;

} // verus!
