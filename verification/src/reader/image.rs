//! What the flat buffer of a loaded file says: numbers, pointers, strings, struct definitions.
use crate::element::Float32;
use crate::format::{
    as_i16, as_i32, as_i8, member_type_of, u16_at, u32_at, u64_at, Endianness, MemberType,
    PointerWidth,
};
use crate::reader::ErrorModel;
use crate::text::{decimal_text, hex_text};
use vstd::prelude::*;
use vstd::utf8::{decode_utf8, valid_utf8};

verus! {

/// A flat buffer and the format that it is read in.
pub struct Image {
    pub flat: Seq<u8>,
    pub endianness: Endianness,
    pub pointer_width: PointerWidth,
}

/// What a [`crate::reader::MemberDef`] stands for.
pub struct MemberModel {
    pub member_type: MemberType,
    pub name: Seq<char>,
    pub children_ptr: usize,
    pub array_size: u32,
}

/// The first offset from `start` on with a zero byte; the end of the buffer where there is none.
pub open spec fn text_end(flat: Seq<u8>, start: int) -> int
    decreases flat.len() - start,
{
    if start >= flat.len() || flat[start] == 0 {
        start
    } else {
        text_end(flat, start + 1)
    }
}

impl Image {
    /// The `n` bytes at `off` lie in the buffer.
    pub open spec fn holds(self, off: int, n: int) -> bool {
        0 <= off && off + n <= self.flat.len()
    }

    pub open spec fn u8_at(self, off: int) -> Option<u8> {
        if self.holds(off, 1) {
            Some(self.flat[off])
        } else {
            None
        }
    }

    pub open spec fn i8_at(self, off: int) -> Option<i8> {
        if self.holds(off, 1) {
            Some(as_i8(self.flat[off]))
        } else {
            None
        }
    }

    pub open spec fn u16_at(self, off: int) -> Option<u16> {
        if self.holds(off, 2) {
            Some(u16_at(self.flat, off, self.endianness))
        } else {
            None
        }
    }

    pub open spec fn i16_at(self, off: int) -> Option<i16> {
        if self.holds(off, 2) {
            Some(as_i16(u16_at(self.flat, off, self.endianness)))
        } else {
            None
        }
    }

    pub open spec fn u32_at(self, off: int) -> Option<u32> {
        if self.holds(off, 4) {
            Some(u32_at(self.flat, off, self.endianness))
        } else {
            None
        }
    }

    pub open spec fn i32_at(self, off: int) -> Option<i32> {
        if self.holds(off, 4) {
            Some(as_i32(u32_at(self.flat, off, self.endianness)))
        } else {
            None
        }
    }

    pub open spec fn f32_at(self, off: int) -> Option<Float32> {
        if self.holds(off, 4) {
            Some(Float32 { bits: u32_at(self.flat, off, self.endianness) })
        } else {
            None
        }
    }

    pub open spec fn u64_at(self, off: int) -> Option<u64> {
        if self.holds(off, 8) {
            Some(u64_at(self.flat, off, self.endianness))
        } else {
            None
        }
    }

    /// The pointer at `off`, whatever it holds.
    pub open spec fn raw_pointer(self, off: int) -> usize {
        match self.pointer_width {
            PointerWidth::P32 => u32_at(self.flat, off, self.endianness) as usize,
            PointerWidth::P64 => u64_at(self.flat, off, self.endianness) as usize,
        }
    }

    /// The pointer at `off`, where it is not null and points into the buffer.
    pub open spec fn ptr_at(self, off: int) -> Option<usize> {
        let p = self.raw_pointer(off);
        if self.holds(off, self.pointer_width.bytes() as int) && 0 < p < self.flat.len() {
            Some(p)
        } else {
            None
        }
    }

    /// The zero-terminated text at `off`, where there is one: offset zero is the null pointer.
    pub open spec fn string_at(self, off: int) -> Option<Seq<char>> {
        let bytes = self.flat.subrange(off, text_end(self.flat, off));
        if 0 < off < self.flat.len() && valid_utf8(bytes) {
            Some(decode_utf8(bytes))
        } else {
            None
        }
    }

    /// The size of a member definition.
    pub open spec fn member_size(self) -> int {
        match self.pointer_width {
            PointerWidth::P32 => 32,
            PointerWidth::P64 => 44,
        }
    }

    /// The name of a member: empty where the pointer leads nowhere.
    pub open spec fn member_name(self, p: int) -> Seq<char> {
        if 0 < p < self.flat.len() {
            match self.string_at(p) {
                Some(s) => s,
                None => "<invalid>"@,
            }
        } else {
            ""@
        }
    }

    /// The member definition at `off`.
    pub open spec fn member_at(self, off: int) -> Result<MemberModel, ErrorModel> {
        let width = self.pointer_width.bytes();
        let code = u32_at(self.flat, off, self.endianness);
        if !self.holds(off, self.member_size()) {
            Err(
                ErrorModel::InvalidType(
                    "member definition at 0x"@ + hex_text(off as nat)
                        + " extends past flat buffer"@,
                ),
            )
        } else {
            match member_type_of(code) {
                None => Err(
                    ErrorModel::InvalidType(
                        "unknown member type "@ + decimal_text(code as nat) + " at offset 0x"@
                            + hex_text(off as nat),
                    ),
                ),
                Some(member_type) => Ok(
                    MemberModel {
                        member_type,
                        name: self.member_name(self.raw_pointer(off + 4) as int),
                        children_ptr: self.raw_pointer(off + 4 + width),
                        array_size: u32_at(self.flat, off + 4 + 2 * width, self.endianness),
                    },
                ),
            }
        }
    }

    /// The struct definition at `off`: its members up to the terminator or the end of the
    /// buffer.
    pub open spec fn struct_at(self, off: int) -> Result<Seq<MemberModel>, ErrorModel>
        decreases self.flat.len() - off,
    {
        if !self.holds(off, self.member_size()) {
            Ok(Seq::empty())
        } else {
            match self.member_at(off) {
                Err(e) => Err(e),
                Ok(m) => if m.member_type == MemberType::Terminator {
                    Ok(Seq::empty())
                } else {
                    match self.struct_at(off + self.member_size()) {
                        Err(e) => Err(e),
                        Ok(rest) => Ok(seq![m] + rest),
                    }
                },
            }
        }
    }
}

} // verus!
