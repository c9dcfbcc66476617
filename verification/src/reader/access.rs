//! Reading from the flat buffer of a loaded file.
use crate::element::Float32;
use crate::format::{
    rd_f32, rd_i16, rd_i32, rd_u16, rd_u32, rd_u64, to_i8, MemberType, PointerWidth, SectionRef,
};
use crate::reader::image::{text_end, Image, MemberModel};
use crate::reader::{Error, ErrorModel, Gr2File, MemberDef};
use crate::text::{decimal, hex};
use vstd::prelude::*;
use vstd::string::*;
use vstd::utf8::{decode_utf8, valid_utf8};

verus! {

/// The bytes as text, where they are UTF-8. Calls `std::str::from_utf8`, which is taken to accept
/// exactly the well-formed UTF-8 sequences and to return the characters that they encode.
#[verifier::external_body]
fn utf8_text(bytes: &[u8]) -> (r: Option<&str>)
    ensures
        r is Some <==> valid_utf8(bytes@),
        r is Some ==> r->Some_0@ == decode_utf8(bytes@),
{
    std::str::from_utf8(bytes).ok()
}

/// `x`, or the largest offset where that is smaller. Nothing can be read there.
pub open spec fn clamped(x: int) -> int {
    if x < usize::MAX {
        x
    } else {
        usize::MAX as int
    }
}

/// Adds offsets, stopping at the largest one.
pub fn offset_sum(a: usize, b: usize) -> (r: usize)
    ensures
        r == clamped(a + b),
{
    if a <= usize::MAX - b {
        a + b
    } else {
        usize::MAX
    }
}

impl View for MemberDef {
    type V = MemberModel;

    open spec fn view(&self) -> MemberModel {
        MemberModel {
            member_type: self.member_type,
            name: self.name@,
            children_ptr: self.children_ptr,
            array_size: self.array_size,
        }
    }
}

/// The models of a sequence of members.
pub open spec fn member_models(s: Seq<MemberDef>) -> Seq<MemberModel> {
    Seq::new(s.len(), |i: int| s[i]@)
}

impl Gr2File {
    /// The flat buffer with the format that it is read in.
    pub open spec fn image(&self) -> Image {
        Image {
            flat: self.flat@,
            endianness: self.endianness,
            pointer_width: self.pointer_width,
        }
    }

    /// Whether the `n` bytes at `offset` lie in the flat buffer.
    pub(crate) fn in_bounds(&self, offset: usize, n: usize) -> (r: bool)
        ensures
            r == self.image().holds(offset as int, n as int),
            r ==> offset + n <= self.flat.len(),
    {
        n <= self.flat.len() && offset <= self.flat.len() - n
    }

    /// Reads the zero-terminated UTF-8 text at `offset`. There is none at offset zero, out of
    /// bounds, and where the bytes are not UTF-8.
    pub fn read_string(&self, offset: usize) -> (r: Option<&str>)
        ensures
            match self.image().string_at(offset as int) {
                Some(s) => r is Some && r->Some_0@ == s,
                None => r is None,
            },
    {
        if offset == 0 || offset >= self.flat.len() {
            return None;
        }
        let mut end: usize = offset;
        while end < self.flat.len() && self.flat[end] != 0
            invariant
                offset <= end <= self.flat.len(),
                text_end(self.flat@, end as int) == text_end(self.flat@, offset as int),
            decreases self.flat.len() - end,
        {
            end = end + 1;
        }
        utf8_text(vstd::slice::slice_subrange(self.flat.as_slice(), offset, end))
    }

    /// The flat offset that a section reference points to.
    pub open spec fn target(&self, r: SectionRef) -> Option<usize> {
        if r.valid() && r.section < self.sections@.len() {
            Some(clamped(self.sections@[r.section as int].base_address + r.offset) as usize)
        } else {
            None
        }
    }

    /// The flat offset that a section reference points to.
    pub fn resolve_ref(&self, r: SectionRef) -> (res: Option<usize>)
        ensures
            res == self.target(r),
    {
        if !r.is_valid() {
            return None;
        }
        let sect: usize = r.section as usize;
        if sect >= self.sections.len() {
            return None;
        }
        Some(offset_sum(self.sections[sect].base_address, r.offset as usize))
    }

    /// Reads the pointer at `offset`, whatever it holds.
    fn plain_ptr(&self, offset: usize) -> (r: usize)
        requires
            self.image().holds(offset as int, self.pointer_width.bytes() as int),
        ensures
            r == self.image().raw_pointer(offset as int),
    {
        match self.pointer_width {
            PointerWidth::P64 => rd_u64(self.flat.as_slice(), offset, self.endianness) as usize,
            PointerWidth::P32 => rd_u32(self.flat.as_slice(), offset, self.endianness) as usize,
        }
    }

    /// Reads a relocated pointer: the flat offset that it points to, where it is not null and
    /// points into the buffer.
    pub fn read_ptr(&self, offset: usize) -> (r: Option<usize>)
        ensures
            r == self.image().ptr_at(offset as int),
    {
        if !self.in_bounds(offset, self.pointer_width.size()) {
            return None;
        }
        let addr: usize = self.plain_ptr(offset);
        if addr == 0 || addr >= self.flat.len() {
            None
        } else {
            Some(addr)
        }
    }

    pub fn read_u32(&self, offset: usize) -> (r: Option<u32>)
        ensures
            r == self.image().u32_at(offset as int),
    {
        if self.in_bounds(offset, 4) {
            Some(rd_u32(self.flat.as_slice(), offset, self.endianness))
        } else {
            None
        }
    }

    pub fn read_i32(&self, offset: usize) -> (r: Option<i32>)
        ensures
            r == self.image().i32_at(offset as int),
    {
        if self.in_bounds(offset, 4) {
            Some(rd_i32(self.flat.as_slice(), offset, self.endianness))
        } else {
            None
        }
    }

    pub fn read_f32(&self, offset: usize) -> (r: Option<Float32>)
        ensures
            r == self.image().f32_at(offset as int),
    {
        if self.in_bounds(offset, 4) {
            Some(rd_f32(self.flat.as_slice(), offset, self.endianness))
        } else {
            None
        }
    }

    pub fn read_u8(&self, offset: usize) -> (r: Option<u8>)
        ensures
            r == self.image().u8_at(offset as int),
    {
        if offset < self.flat.len() {
            Some(self.flat[offset])
        } else {
            None
        }
    }

    pub fn read_i8(&self, offset: usize) -> (r: Option<i8>)
        ensures
            r == self.image().i8_at(offset as int),
    {
        if offset < self.flat.len() {
            Some(to_i8(self.flat[offset]))
        } else {
            None
        }
    }

    pub fn read_u16(&self, offset: usize) -> (r: Option<u16>)
        ensures
            r == self.image().u16_at(offset as int),
    {
        if self.in_bounds(offset, 2) {
            Some(rd_u16(self.flat.as_slice(), offset, self.endianness))
        } else {
            None
        }
    }

    pub fn read_i16(&self, offset: usize) -> (r: Option<i16>)
        ensures
            r == self.image().i16_at(offset as int),
    {
        if self.in_bounds(offset, 2) {
            Some(rd_i16(self.flat.as_slice(), offset, self.endianness))
        } else {
            None
        }
    }

    pub fn read_u64(&self, offset: usize) -> (r: Option<u64>)
        ensures
            r == self.image().u64_at(offset as int),
    {
        if self.in_bounds(offset, 8) {
            Some(rd_u64(self.flat.as_slice(), offset, self.endianness))
        } else {
            None
        }
    }

    /// The decompressed data of a section.
    pub fn section_data(&self, index: usize) -> (r: Option<&[u8]>)
        ensures
            r is Some <==> index < self.sections@.len() && (
            self.sections@[index as int].header.uncompressed_size == 0
                || self.sections@[index as int].base_address
                + self.sections@[index as int].header.uncompressed_size <= self.flat@.len()),
            r is Some ==> r->Some_0@ == if self.sections@[index as int].header.uncompressed_size
                == 0 {
                Seq::empty()
            } else {
                self.flat@.subrange(
                    self.sections@[index as int].base_address as int,
                    self.sections@[index as int].base_address
                        + self.sections@[index as int].header.uncompressed_size,
                )
            },
    {
        if index >= self.sections.len() {
            return None;
        }
        let sect = self.sections[index];
        let size: usize = sect.header.uncompressed_size as usize;
        if size == 0 {
            let empty = vstd::slice::slice_subrange(self.flat.as_slice(), 0, 0);
            assert(empty@ =~= Seq::empty());
            return Some(empty);
        }
        if self.in_bounds(sect.base_address, size) {
            Some(
                vstd::slice::slice_subrange(
                    self.flat.as_slice(),
                    sect.base_address,
                    sect.base_address + size,
                ),
            )
        } else {
            None
        }
    }

    /// Size of a member definition in this file.
    pub fn member_def_size(&self) -> (r: usize)
        ensures
            r == self.image().member_size(),
    {
        match self.pointer_width {
            PointerWidth::P32 => 32,
            PointerWidth::P64 => 44,
        }
    }

    /// Reads the member definition at `offset`.
    pub fn read_member_def(&self, offset: usize) -> (r: Result<MemberDef, Error>)
        ensures
            match self.image().member_at(offset as int) {
                Ok(m) => r is Ok && r->Ok_0@ == m,
                Err(e) => r is Err && r->Err_0@ == e,
            },
    {
        if !self.in_bounds(offset, self.member_def_size()) {
            let mut s = "member definition at 0x".to_string();
            s.append(hex(offset as u64).as_str());
            s.append(" extends past flat buffer");
            return Err(Error::InvalidType(s));
        }
        let p: usize = self.pointer_width.size();
        let code: u32 = rd_u32(self.flat.as_slice(), offset, self.endianness);
        let member_type = match MemberType::try_from(code) {
            Ok(t) => t,
            Err(v) => {
                let mut s = "unknown member type ".to_string();
                s.append(decimal(v as u64).as_str());
                s.append(" at offset 0x");
                s.append(hex(offset as u64).as_str());
                return Err(Error::InvalidType(s));
            },
        };
        let name_ptr: usize = self.plain_ptr(offset + 4);
        let children_ptr: usize = self.plain_ptr(offset + 4 + p);
        let array_size: u32 = rd_u32(self.flat.as_slice(), offset + 4 + 2 * p, self.endianness);
        let name = if name_ptr > 0 && name_ptr < self.flat.len() {
            match self.read_string(name_ptr) {
                Some(s) => s.to_string(),
                None => "<invalid>".to_string(),
            }
        } else {
            "".to_string()
        };
        Ok(MemberDef { member_type, name, children_ptr, array_size })
    }

    /// Reads the struct definition at `offset`: its members up to the terminator or the end of
    /// the flat buffer.
    pub fn walk_struct_def(&self, offset: usize) -> (r: Result<Vec<MemberDef>, Error>)
        ensures
            match self.image().struct_at(offset as int) {
                Ok(members) => r is Ok && member_models(r->Ok_0@) == members,
                Err(e) => r is Err && r->Err_0@ == e,
            },
    {
        let member_size: usize = self.member_def_size();
        let mut members: Vec<MemberDef> = Vec::new();
        let mut off: usize = offset;
        let ghost image = self.image();
        while self.in_bounds(off, member_size)
            invariant
                image == self.image(),
                member_size == image.member_size(),
                match image.struct_at(offset as int) {
                    Ok(all) => image.struct_at(off as int) is Ok && all == member_models(members@)
                        + image.struct_at(off as int)->Ok_0,
                    Err(e) => image.struct_at(off as int) == Err::<Seq<MemberModel>, ErrorModel>(e),
                },
            decreases self.flat.len() - off,
        {
            let m = match self.read_member_def(off) {
                Ok(m) => m,
                Err(e) => {
                    return Err(e);
                },
            };
            let ghost before = member_models(members@);
            if m.member_type == MemberType::Terminator {
                assert(before + Seq::empty() =~= before);
                return Ok(members);
            }
            members.push(m);
            off = off + member_size;
            proof {
                assert(member_models(members@) =~= before.push(m@));
                if image.struct_at(off as int) is Ok {
                    let rest = image.struct_at(off as int)->Ok_0;
                    assert(before + (seq![m@] + rest) =~= before.push(m@) + rest);
                }
            }
        }
        assert(member_models(members@) + Seq::empty() =~= member_models(members@));
        Ok(members)
    }
}

} // verus!
