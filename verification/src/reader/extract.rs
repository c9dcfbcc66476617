//! Extracting typed fields from the flat buffer, and following references.
use crate::debug::debug_string;
use crate::element::{
    field_models, lemma_field_models_push, lemma_value_models_push, value_models, Field,
    FieldModel, Float32, Value, ValueModel,
};
use crate::format::{rd_f32, rd_u32, MemberType};
use crate::reader::access::{clamped, member_models, offset_sum};
use crate::reader::image::{Image, MemberModel};
use crate::reader::{
    Error, ErrorModel, Gr2File, MemberDef, MAX_ARRAY_COUNT, MAX_EXTRACT_DEPTH,
};
use crate::text::{decimal, hex};
use vstd::prelude::*;
use vstd::string::*;

verus! {

fn invalid_type(msg: &str) -> (r: Error)
    ensures
        r@ == ErrorModel::InvalidType(msg@),
{
    Error::InvalidType(msg.to_string())
}

/// `a * b`, or the largest size where that is smaller.
fn size_product(a: usize, b: usize) -> (r: usize)
    ensures
        r == clamped(a * b),
{
    match a.checked_mul(b) {
        Some(r) => r,
        None => usize::MAX,
    }
}

/// A struct definition never holds the terminator that ends it.
pub proof fn law_no_terminator_among_members(image: Image, off: int)
    ensures
        image.struct_at(off) is Ok ==> forall|i: int|
            0 <= i < image.struct_at(off)->Ok_0.len() ==> (
            #[trigger] image.struct_at(off)->Ok_0[i]).member_type != MemberType::Terminator,
    decreases image.flat.len() - off,
{
    if image.holds(off, image.member_size()) && image.member_at(off) is Ok {
        let m = image.member_at(off)->Ok_0;
        let next = off + image.member_size();
        if m.member_type != MemberType::Terminator && image.struct_at(next) is Ok {
            law_no_terminator_among_members(image, next);
            let rest = image.struct_at(next)->Ok_0;
            assert forall|i: int| 0 <= i < image.struct_at(off)->Ok_0.len() implies (
            #[trigger] image.struct_at(off)->Ok_0[i]).member_type != MemberType::Terminator by {
                if i > 0 {
                    assert(image.struct_at(off)->Ok_0[i] == rest[i - 1]);
                }
            }
        }
    }
}

/// Members that fail to have a size make all longer prefixes fail in the same way.
pub proof fn lemma_prefix_size_fails(
    image: Image,
    members: Seq<MemberModel>,
    k: int,
    n: int,
    depth: int,
)
    requires
        k <= n,
        depth <= MAX_EXTRACT_DEPTH,
        image.prefix_size(members, k, depth) is Err,
    ensures
        image.prefix_size(members, n, depth) == image.prefix_size(members, k, depth),
    decreases n - k,
{
    if k < n {
        lemma_prefix_size_fails(image, members, k, n - 1, depth);
    }
}

/// Members that fail to be read make all longer prefixes fail in the same way.
pub proof fn lemma_prefix_fields_fails(
    image: Image,
    members: Seq<MemberModel>,
    k: int,
    n: int,
    off: int,
    depth: int,
)
    requires
        k <= n,
        depth <= MAX_EXTRACT_DEPTH,
        image.prefix_fields(members, k, off, depth) is Err,
    ensures
        image.prefix_fields(members, n, off, depth) == image.prefix_fields(members, k, off, depth),
    decreases n - k,
{
    if k < n {
        lemma_prefix_fields_fails(image, members, k, n - 1, off, depth);
    }
}

proof fn lemma_structs_fail(
    image: Image,
    type_off: int,
    off: int,
    size: int,
    k: int,
    n: int,
    depth: int,
)
    requires
        k <= n,
        depth <= MAX_EXTRACT_DEPTH,
        image.structs_at(type_off, off, size, k, depth) is Err,
    ensures
        image.structs_at(type_off, off, size, n, depth) == image.structs_at(
            type_off,
            off,
            size,
            k,
            depth,
        ),
    decreases n - k,
{
    if k < n {
        lemma_structs_fail(image, type_off, off, size, k, n - 1, depth);
    }
}

proof fn lemma_elements_fail(image: Image, type_off: int, off: int, size: int, k: int, n: int)
    requires
        k <= n,
        image.elements(type_off, off, size, k) is Err,
    ensures
        image.elements(type_off, off, size, n) == image.elements(type_off, off, size, k),
    decreases n - k,
{
    if k < n {
        lemma_elements_fail(image, type_off, off, size, k, n - 1);
    }
}

/// The models of a sequence of structs.
pub open spec fn struct_models(s: Seq<Vec<Field>>) -> Seq<Seq<FieldModel>> {
    Seq::new(s.len(), |i: int| field_models(s[i]@))
}

impl Gr2File {
    /// The size of one element of a member.
    fn element_size(&self, m: &MemberDef, depth: usize) -> (r: Result<usize, Error>)
        requires
            depth <= MAX_EXTRACT_DEPTH,
        ensures
            match self.image().element_size(m@, depth as int) {
                Ok(n) => r is Ok && r->Ok_0 == n,
                Err(e) => r is Err && r->Err_0@ == e,
            },
        decreases MAX_EXTRACT_DEPTH + 1 - depth, 0int,
    {
        if m.member_type == MemberType::Inline {
            if m.children_ptr > 0 {
                match self.walk_struct_def(m.children_ptr) {
                    Ok(children) => self.compute_struct_size(children.as_slice(), depth + 1),
                    Err(e) => Err(e),
                }
            } else {
                Ok(0)
            }
        } else {
            Ok(m.member_type.size(self.pointer_width))
        }
    }

    /// The size of a struct with the given members, at nesting depth `depth`. A size that is too
    /// large to be one is given as the largest one.
    pub fn compute_struct_size(&self, members: &[MemberDef], depth: usize) -> (r: Result<
        usize,
        Error,
    >)
        ensures
            match self.image().members_size(member_models(members@), depth as int) {
                Ok(n) => r is Ok && r->Ok_0 == n,
                Err(e) => r is Err && r->Err_0@ == e,
            },
        decreases MAX_EXTRACT_DEPTH + 1 - depth, 1int,
    {
        if depth > MAX_EXTRACT_DEPTH {
            let mut s = "struct size computation depth exceeded ".to_string();
            s.append(decimal(MAX_EXTRACT_DEPTH as u64).as_str());
            return Err(Error::InvalidType(s));
        }
        let ghost image = self.image();
        let ghost models = member_models(members@);
        let mut sum: usize = 0;
        let mut i: usize = 0;
        while i < members.len()
            invariant
                i <= members.len(),
                depth <= MAX_EXTRACT_DEPTH,
                image == self.image(),
                models == member_models(members@),
                image.prefix_size(models, i as int, depth as int) == Ok::<int, ErrorModel>(
                    sum as int,
                ),
            decreases members.len() - i,
        {
            let m = &members[i];
            match self.element_size(m, depth) {
                Ok(size) => {
                    let count: usize = if m.array_size < 1 {
                        1
                    } else {
                        m.array_size as usize
                    };
                    sum = offset_sum(sum, size_product(size, count));
                },
                Err(e) => {
                    proof {
                        lemma_prefix_size_fails(
                            image,
                            models,
                            i + 1,
                            models.len() as int,
                            depth as int,
                        );
                    }
                    return Err(e);
                },
            }
            i = i + 1;
        }
        Ok(sum)
    }

    /// The size of one instance of the struct defined at `type_offset`.
    pub fn struct_data_size(&self, type_offset: usize) -> (r: Result<usize, Error>)
        ensures
            match self.image().struct_size(type_offset as int) {
                Ok(n) => r is Ok && r->Ok_0 == n,
                Err(e) => r is Err && r->Err_0@ == e,
            },
    {
        match self.walk_struct_def(type_offset) {
            Ok(members) => self.compute_struct_size(members.as_slice(), 0),
            Err(e) => Err(e),
        }
    }

    /// Reads the number of type `t` at `off`.
    fn read_scalar(&self, t: MemberType, off: usize) -> (r: Option<Value>)
        ensures
            match self.image().scalar_at(t, off as int) {
                Some(v) => r is Some && r->Some_0@ == v,
                None => r is None,
            },
    {
        match t {
            MemberType::Int8 | MemberType::BinormalInt8 => match self.read_i8(off) {
                Some(v) => Some(Value::Int8(v)),
                None => None,
            },
            MemberType::UInt8 | MemberType::NormalUInt8 => match self.read_u8(off) {
                Some(v) => Some(Value::UInt8(v)),
                None => None,
            },
            MemberType::Int16 | MemberType::BinormalInt16 => match self.read_i16(off) {
                Some(v) => Some(Value::Int16(v)),
                None => None,
            },
            MemberType::UInt16 | MemberType::NormalUInt16 => match self.read_u16(off) {
                Some(v) => Some(Value::UInt16(v)),
                None => None,
            },
            MemberType::Real16 => match self.read_u16(off) {
                Some(v) => Some(Value::Real16(v)),
                None => None,
            },
            MemberType::Int32 => match self.read_i32(off) {
                Some(v) => Some(Value::Int32(v)),
                None => None,
            },
            MemberType::UInt32 => match self.read_u32(off) {
                Some(v) => Some(Value::UInt32(v)),
                None => None,
            },
            MemberType::Real32 => match self.read_f32(off) {
                Some(v) => Some(Value::Real32(v)),
                None => None,
            },
            _ => None,
        }
    }

    /// Reads `count` numbers of type `t` in a row.
    fn extract_scalar_array(&self, t: MemberType, off: usize, count: usize) -> (r: Result<
        Value,
        Error,
    >)
        requires
            count >= 1,
        ensures
            match self.image().scalars_at(t, off as int, count as nat) {
                Ok(v) => r is Ok && r->Ok_0@ == v,
                Err(e) => r is Err && r->Err_0@ == e,
            },
    {
        let ghost image = self.image();
        let stride: usize = t.size(self.pointer_width);
        if count == 1 {
            assert(image.scalar_at(t, off + stride * 0) == image.scalar_at(t, off as int));
            return match self.read_scalar(t, off) {
                Some(v) => Ok(v),
                None => Err(Error::Truncated),
            };
        }
        let mut vals: Vec<Value> = Vec::new();
        let mut at: usize = off;
        let mut i: usize = 0;
        while i < count
            invariant
                i <= count,
                image == self.image(),
                stride == t.bytes(image.pointer_width),
                at == clamped(off + stride * i),
                value_models(vals@) == Seq::new(
                    i as nat,
                    |k: int| image.scalar_at(t, off + stride * k).unwrap(),
                ),
                forall|k: int|
                    0 <= k < i ==> #[trigger] image.scalar_at(t, off + stride * k) is Some,
            decreases count - i,
        {
            proof {
                assert(image.flat.len() == self.flat.len());
                lemma_scalar_past_end(image, t, off + stride * i, at as int);
            }
            match self.read_scalar(t, at) {
                Some(v) => {
                    proof {
                        lemma_value_models_push(vals@, v);
                        assert(Seq::new(
                            (i + 1) as nat,
                            |k: int| image.scalar_at(t, off + stride * k).unwrap(),
                        ) =~= value_models(vals@).push(v@));
                    }
                    vals.push(v);
                },
                None => {
                    assert(image.scalar_at(t, off + stride * i) is None);
                    return Err(Error::Truncated);
                },
            }
            proof {
                assert(stride * (i + 1) == stride * i + stride) by (nonlinear_arith);
                assert(stride * i >= 0) by (nonlinear_arith);
            }
            at = offset_sum(at, stride);
            i = i + 1;
        }
        Ok(Value::Array(vals))
    }

    /// Reads the pointer `delta` bytes behind `off`.
    fn read_ptr_behind(&self, off: usize, delta: usize) -> (r: Option<usize>)
        ensures
            r == self.image().ptr_at(off + delta),
    {
        if off <= usize::MAX - delta {
            self.read_ptr(off + delta)
        } else {
            assert(self.flat@.len() == self.flat.len());
            None
        }
    }

    /// Reads the number `delta` bytes behind `off`.
    fn read_u32_behind(&self, off: usize, delta: usize) -> (r: Option<u32>)
        ensures
            r == self.image().u32_at(off + delta),
    {
        if off <= usize::MAX - delta {
            self.read_u32(off + delta)
        } else {
            assert(self.flat@.len() == self.flat.len());
            None
        }
    }

    /// Reads three floating-point numbers in a row.
    fn read_floats3(&self, off: usize) -> (r: [Float32; 3])
        requires
            off + 12 <= self.flat.len(),
        ensures
            r@ == self.image().floats_at(off as int, 3),
    {
        let r: [Float32; 3] = [
            rd_f32(self.flat.as_slice(), off, self.endianness),
            rd_f32(self.flat.as_slice(), off + 4, self.endianness),
            rd_f32(self.flat.as_slice(), off + 8, self.endianness),
        ];
        assert(r@ =~= self.image().floats_at(off as int, 3));
        r
    }

    /// Reads a transform: flags, translation, rotation, and a matrix for scale and shear.
    fn extract_transform(&self, off: usize) -> (r: Result<Value, Error>)
        ensures
            self.image().holds(off as int, 68) ==> r is Ok && r->Ok_0@ == (ValueModel::Transform {
                flags: self.image().u32_at(off as int).unwrap(),
                translation: self.image().floats_at(off + 4, 3),
                rotation: self.image().floats_at(off + 16, 4),
                scale_shear: self.image().floats_at(off + 32, 9),
            }),
            !self.image().holds(off as int, 68) ==> r is Err && r->Err_0 == Error::Truncated,
    {
        if self.flat.len() < 68 || off > self.flat.len() - 68 {
            return Err(Error::Truncated);
        }
        let ghost image = self.image();
        let flags: u32 = rd_u32(self.flat.as_slice(), off, self.endianness);
        let translation = self.read_floats3(off + 4);
        let rotation: [Float32; 4] = [
            rd_f32(self.flat.as_slice(), off + 16, self.endianness),
            rd_f32(self.flat.as_slice(), off + 20, self.endianness),
            rd_f32(self.flat.as_slice(), off + 24, self.endianness),
            rd_f32(self.flat.as_slice(), off + 28, self.endianness),
        ];
        let scale_shear: [[Float32; 3]; 3] = [
            self.read_floats3(off + 32),
            self.read_floats3(off + 44),
            self.read_floats3(off + 56),
        ];
        proof {
            assert(rotation@ =~= image.floats_at(off + 16, 4));
            assert(scale_shear@[0]@ + scale_shear@[1]@ + scale_shear@[2]@ =~= image.floats_at(
                off + 32,
                9,
            ));
        }
        Ok(Value::Transform { flags, translation, rotation, scale_shear })
    }

    /// Reads the value of a member at `off`, whose elements are `size` bytes long.
    fn extract_value(&self, m: &MemberDef, off: usize, size: usize, depth: usize) -> (r: Result<
        Value,
        Error,
    >)
        requires
            depth <= MAX_EXTRACT_DEPTH,
            m.member_type != MemberType::Terminator,
        ensures
            match self.image().value_at(m@, off as int, size as int, depth as int) {
                Ok(v) => r is Ok && r->Ok_0@ == v,
                Err(e) => r is Err && r->Err_0@ == e,
            },
        decreases MAX_EXTRACT_DEPTH + 1 - depth, 1int,
    {
        let p: usize = self.pointer_width.size();
        let count: usize = if m.array_size < 1 {
            1
        } else {
            m.array_size as usize
        };
        match m.member_type {
            MemberType::String => match self.read_ptr(off) {
                Some(at) => match self.read_string(at) {
                    Some(s) => Ok(Value::String(Some(s.to_string()))),
                    None => Ok(Value::String(None)),
                },
                None => Ok(Value::String(None)),
            },
            MemberType::Reference => Ok(Value::Reference { offset: self.read_ptr(off) }),
            MemberType::ReferenceToArray => match self.read_u32(off) {
                Some(count) => Ok(
                    Value::ReferenceToArray { count, offset: self.read_ptr_behind(off, 4) },
                ),
                None => Err(Error::Truncated),
            },
            MemberType::ArrayOfReferences => match self.read_u32(off) {
                Some(count) => Ok(
                    Value::ArrayOfReferences { count, offset: self.read_ptr_behind(off, 4) },
                ),
                None => Err(Error::Truncated),
            },
            MemberType::VariantReference => Ok(
                Value::VariantReference {
                    type_offset: self.read_ptr(off),
                    data_offset: self.read_ptr_behind(off, p),
                },
            ),
            MemberType::ReferenceToVariantArray => match self.read_u32_behind(off, p) {
                Some(count) => Ok(
                    Value::ReferenceToVariantArray {
                        type_offset: self.read_ptr(off),
                        count,
                        data_offset: self.read_ptr_behind(off, p + 4),
                    },
                ),
                None => Err(Error::Truncated),
            },
            MemberType::Transform => self.extract_transform(off),
            MemberType::Inline => if m.children_ptr == 0 {
                let fields: Vec<Field> = Vec::new();
                assert(field_models(fields@) =~= Seq::empty());
                Ok(Value::Struct(fields))
            } else if count == 1 {
                match self.extract_struct_inner(m.children_ptr, off, depth + 1) {
                    Ok(fields) => Ok(Value::Struct(fields)),
                    Err(e) => Err(e),
                }
            } else {
                match self.extract_structs(m.children_ptr, off, size, count, depth) {
                    Ok(items) => Ok(Value::Array(items)),
                    Err(e) => Err(e),
                }
            },
            MemberType::EmptyReference => Ok(Value::EmptyReference),
            MemberType::Terminator => Ok(Value::EmptyReference),
            t => self.extract_scalar_array(t, off, count),
        }
    }

    /// Reads `count` structs, each `size` bytes behind the one before it.
    fn extract_structs(
        &self,
        type_offset: usize,
        off: usize,
        size: usize,
        count: usize,
        depth: usize,
    ) -> (r: Result<Vec<Value>, Error>)
        requires
            depth <= MAX_EXTRACT_DEPTH,
        ensures
            match self.image().structs_at(
                type_offset as int,
                off as int,
                size as int,
                count as int,
                depth as int,
            ) {
                Ok(items) => r is Ok && value_models(r->Ok_0@) == items,
                Err(e) => r is Err && r->Err_0@ == e,
            },
        decreases MAX_EXTRACT_DEPTH + 1 - depth, 0int,
    {
        let ghost image = self.image();
        let mut items: Vec<Value> = Vec::new();
        let mut at: usize = off;
        let mut i: usize = 0;
        assert(value_models(items@) =~= Seq::empty());
        while i < count
            invariant
                i <= count,
                depth <= MAX_EXTRACT_DEPTH,
                image == self.image(),
                at == clamped(off + i * size),
                image.structs_at(
                    type_offset as int,
                    off as int,
                    size as int,
                    i as int,
                    depth as int,
                ) == Ok::<Seq<ValueModel>, ErrorModel>(value_models(items@)),
            decreases count - i,
        {
            match self.extract_struct_inner(type_offset, at, depth + 1) {
                Ok(fields) => {
                    let item = Value::Struct(fields);
                    proof {
                        lemma_value_models_push(items@, item);
                    }
                    items.push(item);
                },
                Err(e) => {
                    proof {
                        lemma_structs_fail(
                            image,
                            type_offset as int,
                            off as int,
                            size as int,
                            i + 1,
                            count as int,
                            depth as int,
                        );
                    }
                    return Err(e);
                },
            }
            proof {
                assert((i + 1) * size == i * size + size) by (nonlinear_arith);
                assert(i * size >= 0) by (nonlinear_arith);
            }
            at = offset_sum(at, size);
            i = i + 1;
        }
        Ok(items)
    }

    /// Reads the fields of the struct at `data_offset`, defined at `type_offset`, at nesting depth
    /// `depth`.
    pub fn extract_struct_inner(
        &self,
        type_offset: usize,
        data_offset: usize,
        depth: usize,
    ) -> (r: Result<Vec<Field>, Error>)
        ensures
            match self.image().extracted(type_offset as int, data_offset as int, depth as int) {
                Ok(fields) => r is Ok && field_models(r->Ok_0@) == fields,
                Err(e) => r is Err && r->Err_0@ == e,
            },
        decreases MAX_EXTRACT_DEPTH + 1 - depth, 2int,
    {
        if depth > MAX_EXTRACT_DEPTH {
            let mut s = "struct extraction depth exceeded ".to_string();
            s.append(decimal(MAX_EXTRACT_DEPTH as u64).as_str());
            s.append(" (possible cycle at type offset 0x");
            s.append(hex(type_offset as u64).as_str());
            s.append(")");
            return Err(Error::InvalidType(s));
        }
        let members = match self.walk_struct_def(type_offset) {
            Ok(members) => members,
            Err(e) => {
                return Err(e);
            },
        };
        let ghost image = self.image();
        let ghost models = member_models(members@);
        let ghost n = models.len() as int;
        proof {
            law_no_terminator_among_members(image, type_offset as int);
        }
        let mut fields: Vec<Field> = Vec::new();
        let mut off: usize = data_offset;
        let mut i: usize = 0;
        assert(field_models(fields@) =~= Seq::empty());
        while i < members.len()
            invariant
                i <= members.len(),
                depth <= MAX_EXTRACT_DEPTH,
                image == self.image(),
                models == member_models(members@),
                n == models.len(),
                image.struct_at(type_offset as int) == Ok::<Seq<MemberModel>, ErrorModel>(models),
                forall|k: int|
                    0 <= k < models.len() ==> (#[trigger] models[k]).member_type
                        != MemberType::Terminator,
                image.prefix_fields(models, i as int, data_offset as int, depth as int) == Ok::<
                    (Seq<FieldModel>, int),
                    ErrorModel,
                >((field_models(fields@), off as int)),
            decreases members.len() - i,
        {
            let m = &members[i];
            assert(m@ == models[i as int]);
            let size: usize = match self.element_size(m, depth) {
                Ok(size) => size,
                Err(e) => {
                    proof {
                        lemma_prefix_fields_fails(
                            image,
                            models,
                            i + 1,
                            n,
                            data_offset as int,
                            depth as int,
                        );
                    }
                    return Err(e);
                },
            };
            let value = match self.extract_value(m, off, size, depth) {
                Ok(value) => value,
                Err(e) => {
                    proof {
                        lemma_prefix_fields_fails(
                            image,
                            models,
                            i + 1,
                            n,
                            data_offset as int,
                            depth as int,
                        );
                    }
                    return Err(e);
                },
            };
            let count: usize = if m.array_size < 1 {
                1
            } else {
                m.array_size as usize
            };
            let field = Field { name: m.name.clone(), member_type: m.member_type, value };
            proof {
                lemma_field_models_push(fields@, field);
            }
            fields.push(field);
            off = offset_sum(off, size_product(size, count));
            i = i + 1;
        }
        Ok(fields)
    }

    /// Reads the fields of the struct at `data_offset`, defined at `type_offset`.
    pub fn extract_struct(&self, type_offset: usize, data_offset: usize) -> (r: Result<
        Vec<Field>,
        Error,
    >)
        ensures
            match self.image().extracted(type_offset as int, data_offset as int, 0) {
                Ok(fields) => r is Ok && field_models(r->Ok_0@) == fields,
                Err(e) => r is Err && r->Err_0@ == e,
            },
    {
        self.extract_struct_inner(type_offset, data_offset, 0)
    }

    /// Reads the root node that the header points to.
    pub fn extract_root(&self) -> (r: Result<Vec<Field>, Error>)
        ensures
            match self.root() {
                Ok(fields) => r is Ok && field_models(r->Ok_0@) == fields,
                Err(e) => r is Err && r->Err_0@ == e,
            },
    {
        let type_offset: usize = match self.resolve_ref(self.header.root_type) {
            Some(off) => off,
            None => {
                return Err(invalid_type("root_type ref is invalid"));
            },
        };
        let data_offset: usize = match self.resolve_ref(self.header.root_node) {
            Some(off) => off,
            None => {
                return Err(invalid_type("root_node ref is invalid"));
            },
        };
        self.extract_struct(type_offset, data_offset)
    }

    /// The fields of the root node.
    pub open spec fn root(&self) -> Result<Seq<FieldModel>, ErrorModel> {
        match self.target(self.header.root_type) {
            None => Err(ErrorModel::InvalidType("root_type ref is invalid"@)),
            Some(t) => match self.target(self.header.root_node) {
                None => Err(ErrorModel::InvalidType("root_node ref is invalid"@)),
                Some(off) => self.image().extracted(t as int, off as int, 0),
            },
        }
    }

    /// Reads the struct that a reference leads to; the first one where it leads to an array. A
    /// variant reference names its own type. Fails where the value is no such reference, its
    /// offset is null, or the type definition is missing.
    pub fn resolve_value(&self, value: &Value, type_offset: usize) -> (r: Result<
        Vec<Field>,
        Error,
    >)
        ensures
            match self.image().referent(value@, type_offset as int) {
                Ok(fields) => r is Ok && field_models(r->Ok_0@) == fields,
                Err(e) => r is Err && r->Err_0@ == e,
            },
    {
        match value {
            Value::Reference { offset: Some(off) } => self.extract_defined(type_offset, *off),
            Value::Reference { offset: None } => Err(invalid_type("null reference")),
            Value::VariantReference { type_offset: Some(t), data_offset: Some(off) } => {
                self.extract_defined(*t, *off)
            },
            Value::VariantReference { .. } => Err(invalid_type("null variant reference")),
            Value::ReferenceToArray { offset: Some(off), .. } => self.extract_defined(
                type_offset,
                *off,
            ),
            Value::ArrayOfReferences { offset: Some(off), .. } => self.extract_defined(
                type_offset,
                *off,
            ),
            Value::ReferenceToArray { offset: None, .. } => Err(
                invalid_type("null array reference"),
            ),
            Value::ArrayOfReferences { offset: None, .. } => Err(
                invalid_type("null array reference"),
            ),
            _ => {
                let mut s = "value is not a resolvable reference: ".to_string();
                s.append(debug_string(value).as_str());
                Err(Error::InvalidType(s))
            },
        }
    }

    /// Reads the struct at `data_offset`, where a definition lies at `type_offset`.
    fn extract_defined(&self, type_offset: usize, data_offset: usize) -> (r: Result<
        Vec<Field>,
        Error,
    >)
        ensures
            match self.image().defined(type_offset as int, data_offset as int) {
                Ok(fields) => r is Ok && field_models(r->Ok_0@) == fields,
                Err(e) => r is Err && r->Err_0@ == e,
            },
    {
        if self.in_bounds(type_offset, self.member_def_size()) {
            self.extract_struct(type_offset, data_offset)
        } else {
            let mut s = "type definition at 0x".to_string();
            s.append(hex(type_offset as u64).as_str());
            s.append(" is missing");
            Err(Error::InvalidType(s))
        }
    }

    /// Reads the `count` structs of an array.
    fn extract_array(&self, type_offset: usize, data_offset: usize, count: u32) -> (r: Result<
        Vec<Vec<Field>>,
        Error,
    >)
        ensures
            match self.image().array_at(type_offset as int, data_offset as int, count) {
                Ok(items) => r is Ok && struct_models(r->Ok_0@) == items && items.len() == count,
                Err(e) => r is Err && r->Err_0@ == e,
            },
    {
        if count > MAX_ARRAY_COUNT {
            let mut s = "array count ".to_string();
            s.append(decimal(count as u64).as_str());
            s.append(" exceeds maximum (");
            s.append(decimal(MAX_ARRAY_COUNT as u64).as_str());
            s.append(")");
            return Err(Error::InvalidType(s));
        }
        let size: usize = match self.struct_data_size(type_offset) {
            Ok(size) => size,
            Err(e) => {
                return Err(e);
            },
        };
        let ghost image = self.image();
        let mut items: Vec<Vec<Field>> = Vec::new();
        let mut at: usize = data_offset;
        let mut i: u32 = 0;
        assert(struct_models(items@) =~= Seq::empty());
        while i < count
            invariant
                i <= count,
                image == self.image(),
                at == clamped(data_offset + i * size),
                count <= MAX_ARRAY_COUNT,
                image.struct_size(type_offset as int) == Ok::<int, ErrorModel>(size as int),
                items@.len() == i,
                image.elements(type_offset as int, data_offset as int, size as int, i as int)
                    == Ok::<Seq<Seq<FieldModel>>, ErrorModel>(struct_models(items@)),
            decreases count - i,
        {
            match self.extract_struct(type_offset, at) {
                Ok(fields) => {
                    let ghost before = struct_models(items@);
                    items.push(fields);
                    assert(struct_models(items@) =~= before.push(field_models(fields@)));
                },
                Err(e) => {
                    proof {
                        lemma_elements_fail(
                            image,
                            type_offset as int,
                            data_offset as int,
                            size as int,
                            i + 1,
                            count as int,
                        );
                    }
                    return Err(e);
                },
            }
            proof {
                assert((i + 1) * size == i * size + size) by (nonlinear_arith);
                assert(i * size >= 0) by (nonlinear_arith);
            }
            at = offset_sum(at, size);
            i = i + 1;
        }
        Ok(items)
    }

    /// Reads all the structs that an array reference leads to.
    pub fn resolve_array(&self, value: &Value, type_offset: usize) -> (r: Result<
        Vec<Vec<Field>>,
        Error,
    >)
        ensures
            match self.image().referents(value@, type_offset as int) {
                Ok(items) => r is Ok && struct_models(r->Ok_0@) == items,
                Err(e) => r is Err && r->Err_0@ == e,
            },
    {
        match value {
            Value::ReferenceToArray { count, offset: Some(off) } => self.extract_array(
                type_offset,
                *off,
                *count,
            ),
            Value::ArrayOfReferences { count, offset: Some(off) } => self.extract_array(
                type_offset,
                *off,
                *count,
            ),
            Value::ReferenceToArray { offset: None, .. } => Err(
                invalid_type("null array reference"),
            ),
            Value::ArrayOfReferences { offset: None, .. } => Err(
                invalid_type("null array reference"),
            ),
            _ => {
                let mut s = "value is not a ReferenceToArray or ArrayOfReferences: ".to_string();
                s.append(debug_string(value).as_str());
                Err(Error::InvalidType(s))
            },
        }
    }

    /// Reads all the structs that a variant array leads to, by the type that it names itself.
    pub fn resolve_variant_array(&self, value: &Value) -> (r: Result<Vec<Vec<Field>>, Error>)
        ensures
            match self.image().variant_referents(value@) {
                Ok(items) => r is Ok && struct_models(r->Ok_0@) == items,
                Err(e) => r is Err && r->Err_0@ == e,
            },
    {
        match value {
            Value::ReferenceToVariantArray {
                type_offset: Some(t),
                count,
                data_offset: Some(off),
            } => self.extract_array(*t, *off, *count),
            Value::ReferenceToVariantArray { .. } => Err(
                invalid_type("null variant array reference"),
            ),
            _ => {
                let mut s = "value is not a ReferenceToVariantArray: ".to_string();
                s.append(debug_string(value).as_str());
                Err(Error::InvalidType(s))
            },
        }
    }
}

/// Nothing is read at or past the largest offset.
proof fn lemma_scalar_past_end(image: Image, t: MemberType, a: int, b: int)
    requires
        b == clamped(a),
        image.flat.len() <= usize::MAX,
    ensures
        image.scalar_at(t, a) == image.scalar_at(t, b),
{
}

} // verus!
