use crate::endianness::{Endianness, EndiannessMode};
use crate::data::{
    seq_product, DataBuilder, DataBuilderRange, DataType, FieldKey, FullDataType, FullDataTypeArraySpec,
    FullDataTypeArraySpecType, NumberType, RustByteSize,
};
use crate::field::BuilderRange;
use crate::field_attrs::{law_unplaced_field_follows_last, spec_parse_metas, AttrBuilder, AttrBuilderType, FieldMeta, LastField};
use std::ops::Range;
use crate::object_attrs::str_eq;
use vstd::prelude::*;

verus! {

/// Why the bits of an array field could not be worked out.
#[derive(Clone, Copy, Debug, PartialEq, Eq)]
pub enum ArrayRangeError {
    /// The range given ends before it starts.
    EndBeforeStart,
    /// The range given is not as long as the elements together.
    ElementsDoNotMatch,
    /// Neither a range nor the end of the field before was known.
    NoRange,
    /// The range given does not split evenly between the elements.
    UnevenSplit,
}

/// The bits of an element array of `length` elements of `element_bits` bits each: a range
/// given must hold them exactly; otherwise they start where the field before ended.
pub open spec fn spec_element_array_range(range: BuilderRange, element_bits: int, length: int) -> Result<
    BuilderRange,
    ArrayRangeError,
> {
    match range {
        BuilderRange::Range(r) => if r.end < r.start {
            Err(ArrayRangeError::EndBeforeStart)
        } else if r.end - r.start != element_bits * length {
            Err(ArrayRangeError::ElementsDoNotMatch)
        } else {
            Ok(range)
        },
        BuilderRange::LastEnd(e) => Ok(BuilderRange::Range(e..(e + element_bits * length) as usize)),
        BuilderRange::Unset => Err(ArrayRangeError::NoRange),
    }
}

/// Works out the bits of an element array whose element length is given.
pub fn element_array_range(range: BuilderRange, element_bits: usize, length: usize) -> (r: Result<
    BuilderRange,
    ArrayRangeError,
>)
    requires
        element_bits * length <= usize::MAX,
        range matches BuilderRange::LastEnd(e) ==> e + element_bits * length <= usize::MAX,
    ensures
        r == spec_element_array_range(range, element_bits as int, length as int),
{
    let product: usize = element_bits * length;
    match range {
        BuilderRange::Range(r) => {
            if r.end < r.start {
                Err(ArrayRangeError::EndBeforeStart)
            } else if r.end - r.start != product {
                Err(ArrayRangeError::ElementsDoNotMatch)
            } else {
                Ok(BuilderRange::Range(r))
            }
        },
        BuilderRange::LastEnd(e) => Ok(BuilderRange::Range(e..e + product)),
        BuilderRange::Unset => Err(ArrayRangeError::NoRange),
    }
}

/// The bits of an array whose element length is inferred: a range given must split evenly
/// between the `length` elements; otherwise the elements take their type's `element_bits`
/// each, starting where the field before ended.
pub open spec fn spec_inferred_array_range(range: BuilderRange, element_bits: int, length: int) -> Result<
    BuilderRange,
    ArrayRangeError,
> {
    match range {
        BuilderRange::Range(r) => if r.end < r.start {
            Err(ArrayRangeError::EndBeforeStart)
        } else if (r.end - r.start) % length != 0 {
            Err(ArrayRangeError::UnevenSplit)
        } else {
            Ok(range)
        },
        BuilderRange::LastEnd(e) => Ok(BuilderRange::Range(e..(e + element_bits * length) as usize)),
        BuilderRange::Unset => Err(ArrayRangeError::NoRange),
    }
}

/// Works out the bits of an array whose element length is inferred from the element type.
pub fn inferred_array_range(range: BuilderRange, element_bits: usize, length: usize) -> (r: Result<
    BuilderRange,
    ArrayRangeError,
>)
    requires
        range matches BuilderRange::Range(r) ==> (r.start <= r.end ==> length > 0),
        range matches BuilderRange::LastEnd(e) ==> e + element_bits * length <= usize::MAX,
    ensures
        r == spec_inferred_array_range(range, element_bits as int, length as int),
{
    match range {
        BuilderRange::Range(r) => {
            if r.end < r.start {
                Err(ArrayRangeError::EndBeforeStart)
            } else if (r.end - r.start) % length != 0 {
                Err(ArrayRangeError::UnevenSplit)
            } else {
                Ok(BuilderRange::Range(r))
            }
        },
        BuilderRange::LastEnd(e) => {
            proof {
                assert(0 <= element_bits * length) by (nonlinear_arith);
            }
            let product: usize = element_bits * length;
            Ok(BuilderRange::Range(e..e + product))
        },
        BuilderRange::Unset => Err(ArrayRangeError::NoRange),
    }
}

/// The endianness a field of `size` bytes ends up with: a field that is not a number, or a
/// number with an endianness of its own, keeps it; a number of one byte or less without one
/// switches to the standard mode; a larger number without one takes the structure's default, or packed
/// little endian when the structure has none either.
pub open spec fn spec_field_endianness(field: Endianness, is_number: bool, size: int, default: Endianness) -> Endianness {
    if !is_number {
        field
    } else if field.mode != EndiannessMode::Nested {
        field
    } else if size <= 1 {
        Endianness { mode: EndiannessMode::Standard, ..field }
    } else if default.mode != EndiannessMode::Nested {
        default
    } else {
        Endianness::little_packed_spec()
    }
}

/// Settles the endianness of a field once its type is known.
pub fn field_endianness(field: Endianness, is_number: bool, size: usize, default: &Endianness) -> (r: Endianness)
    ensures
        r == spec_field_endianness(field, is_number, size as int, *default),
{
    let mut e = field;
    if is_number && !e.perhaps_endianness(size) {
        if default.has_endianness() {
            e = *default;
        } else if size == 1 {
            e = Endianness::big();
        } else {
            e = Endianness::little_packed();
        }
    }
    e
}

/// The type of a field as its path names it.
#[derive(Clone, Copy, Debug, PartialEq, Eq)]
pub enum PathType {
    Boolean,
    /// A primitive integer of this many bytes.
    Number { size: usize, signed: bool },
    /// A primitive float of this many bytes.
    Float { size: usize },
    /// A `char`, of this many bytes.
    Char { size: usize },
    /// Another bitfield, of this many bytes.
    Struct { size: usize },
    /// An enum stored in an unsigned primitive of this many bytes.
    Enum { size: usize },
}

/// Why the type a field's path names was refused.
#[derive(Clone, Copy, Debug, PartialEq, Eq)]
pub enum PathTypeError {
    /// A float given fewer or more bits than its own; the bits given.
    FloatNotFullSized(usize),
    /// `usize` or `isize`, whose size depends on the target.
    AmbiguousSize,
    /// A type that is not a primitive, given no bits to take.
    UnknownWithoutLength,
    /// The path names no type, or is not a single name where one is needed.
    NoType,
    /// The attributes describe an array but the type is not one.
    ArrayOnPath,
}

/// The primitive types a path can name, with their size in bytes and whether they are
/// signed integers; `bool`, `char` and the floats are told apart by name.
pub open spec fn primitive_number(n: Seq<char>) -> Option<(usize, bool)> {
    if n == "u8"@ {
        Some((1usize, false))
    } else if n == "i8"@ {
        Some((1usize, true))
    } else if n == "u16"@ {
        Some((2usize, false))
    } else if n == "i16"@ {
        Some((2usize, true))
    } else if n == "u32"@ {
        Some((4usize, false))
    } else if n == "i32"@ {
        Some((4usize, true))
    } else if n == "u64"@ {
        Some((8usize, false))
    } else if n == "i64"@ {
        Some((8usize, true))
    } else if n == "u128"@ {
        Some((16usize, false))
    } else if n == "i128"@ {
        Some((16usize, true))
    } else {
        None
    }
}

/// Whether a type name reads its size from the bits given (a float checks them, a type that
/// is not a primitive takes its byte size from them).
pub open spec fn sized_by_bits(n: Seq<char>) -> bool {
    primitive_number(n) is None && n != "bool"@ && n != "char"@ && n != "usize"@ && n != "isize"@
}

/// What the type a path names is, for a field whose attributes gave it type `ty` and bits
/// `range`: `name` is the path's last segment and `single` tells whether the path is a single
/// name. A `bool` following another field takes the one bit after it.
pub open spec fn spec_path_type(name: Option<Seq<char>>, single: bool, ty: AttrBuilderType, range: BuilderRange) -> (
    Result<PathType, PathTypeError>,
    BuilderRange,
) {
    match ty {
        AttrBuilderType::NoType => match name {
            None => (Err(PathTypeError::NoType), range),
            Some(n) => if n == "bool"@ {
                match range {
                    BuilderRange::LastEnd(start) => (Ok(PathType::Boolean), BuilderRange::Range(start..(start + 1) as usize)),
                    _ => (Ok(PathType::Boolean), range),
                }
            } else if primitive_number(n) is Some {
                let (size, signed) = primitive_number(n)->Some_0;
                (Ok(PathType::Number { size, signed }), range)
            } else if n == "char"@ {
                (Ok(PathType::Char { size: 4 }), range)
            } else if n == "usize"@ || n == "isize"@ {
                (Err(PathTypeError::AmbiguousSize), range)
            } else if n == "f32"@ || n == "f64"@ {
                let size: usize = if n == "f32"@ { 4 } else { 8 };
                match range {
                    BuilderRange::Range(r) => if r.end - r.start != 8 * size {
                        (Err(PathTypeError::FloatNotFullSized((r.end - r.start) as usize)), range)
                    } else {
                        (Ok(PathType::Float { size }), range)
                    },
                    _ => (Ok(PathType::Float { size }), range),
                }
            } else {
                match range {
                    BuilderRange::Range(r) => (Ok(PathType::Struct { size: ((r.end - r.start + 7) / 8) as usize }), range),
                    _ => (Err(PathTypeError::UnknownWithoutLength), range),
                }
            },
        },
        AttrBuilderType::Struct(size) => if single {
            (Ok(PathType::Struct { size }), range)
        } else {
            (Err(PathTypeError::NoType), range)
        },
        AttrBuilderType::Enum(size) => if single {
            (Ok(PathType::Enum { size }), range)
        } else {
            (Err(PathTypeError::NoType), range)
        },
        _ => (Err(PathTypeError::ArrayOnPath), range),
    }
}

fn number_of_name(n: &str) -> (r: Option<(usize, bool)>)
    ensures
        r == primitive_number(n@),
{
    if str_eq(n, "u8") {
        Some((1, false))
    } else if str_eq(n, "i8") {
        Some((1, true))
    } else if str_eq(n, "u16") {
        Some((2, false))
    } else if str_eq(n, "i16") {
        Some((2, true))
    } else if str_eq(n, "u32") {
        Some((4, false))
    } else if str_eq(n, "i32") {
        Some((4, true))
    } else if str_eq(n, "u64") {
        Some((8, false))
    } else if str_eq(n, "i64") {
        Some((8, true))
    } else if str_eq(n, "u128") {
        Some((16, false))
    } else if str_eq(n, "i128") {
        Some((16, true))
    } else {
        None
    }
}

/// Reads the type a field's path names; see `spec_path_type`.
pub fn path_type(name: Option<&str>, single: bool, ty: &AttrBuilderType, range: &mut BuilderRange) -> (r: Result<
    PathType,
    PathTypeError,
>)
    requires
        *ty is NoType ==> (name matches Some(n) ==> (n@ == "bool"@ ==> (*old(range) matches BuilderRange::LastEnd(s)
            ==> s < usize::MAX))),
        *ty is NoType ==> (name matches Some(n) ==> (sized_by_bits(n@) ==> (*old(range) matches BuilderRange::Range(r)
            ==> r.start <= r.end))),
    ensures
        (r, *final(range)) == spec_path_type(
            match name {
                Some(n) => Some(n@),
                None => None,
            },
            single,
            *ty,
            *old(range),
        ),
{
    match ty {
        AttrBuilderType::NoType => {
            match name {
                None => Err(PathTypeError::NoType),
                Some(n) => {
                    if str_eq(n, "bool") {
                        if let BuilderRange::LastEnd(start) = *range {
                            *range = BuilderRange::Range(start..start + 1);
                        }
                        Ok(PathType::Boolean)
                    } else if let Some((size, signed)) = number_of_name(n) {
                        Ok(PathType::Number { size, signed })
                    } else if str_eq(n, "char") {
                        Ok(PathType::Char { size: 4 })
                    } else if str_eq(n, "usize") || str_eq(n, "isize") {
                        Err(PathTypeError::AmbiguousSize)
                    } else if str_eq(n, "f32") || str_eq(n, "f64") {
                        let size: usize = if str_eq(n, "f32") {
                            4
                        } else {
                            8
                        };
                        if let BuilderRange::Range(r) = range {
                            if r.end - r.start != 8 * size {
                                return Err(PathTypeError::FloatNotFullSized(r.end - r.start));
                            }
                        }
                        Ok(PathType::Float { size })
                    } else {
                        match range {
                            BuilderRange::Range(r) => {
                                let bits: usize = r.end - r.start;
                                Ok(PathType::Struct { size: bits / 8 + if bits % 8 != 0 { 1 } else { 0 } })
                            },
                            _ => Err(PathTypeError::UnknownWithoutLength),
                        }
                    }
                },
            }
        },
        AttrBuilderType::Struct(size) => {
            if single {
                Ok(PathType::Struct { size: *size })
            } else {
                Err(PathTypeError::NoType)
            }
        },
        AttrBuilderType::Enum(size) => {
            if single {
                Ok(PathType::Enum { size: *size })
            } else {
                Err(PathTypeError::NoType)
            }
        },
        _ => Err(PathTypeError::ArrayOnPath),
    }
}

/// The unsigned size a primitive of `size` bytes has.
pub open spec fn spec_byte_size(size: usize) -> RustByteSize {
    if size == 1 {
        RustByteSize::One
    } else if size == 2 {
        RustByteSize::Two
    } else if size == 4 {
        RustByteSize::Four
    } else if size == 8 {
        RustByteSize::Eight
    } else {
        RustByteSize::Sixteen
    }
}

fn byte_size(size: usize) -> (r: RustByteSize)
    ensures
        r == spec_byte_size(size),
{
    if size == 1 {
        RustByteSize::One
    } else if size == 2 {
        RustByteSize::Two
    } else if size == 4 {
        RustByteSize::Four
    } else if size == 8 {
        RustByteSize::Eight
    } else {
        RustByteSize::Sixteen
    }
}

/// The type a field of path type `p` has, its size in bytes, and whether it is a number (a
/// number takes an endianness; a `bool` or another bitfield does not).
pub open spec fn spec_path_data_type(p: PathType) -> (DataType, usize, bool) {
    match p {
        PathType::Boolean => (DataType::Number(NumberType::Bool, RustByteSize::One), 1, false),
        PathType::Number { size, signed } => (
            DataType::Number(if signed { NumberType::Signed } else { NumberType::Unsigned }, spec_byte_size(size)),
            size,
            true,
        ),
        PathType::Float { size } => (DataType::Number(NumberType::Float, spec_byte_size(size)), size, true),
        PathType::Char { size } => (DataType::Number(NumberType::Char, spec_byte_size(size)), size, true),
        PathType::Struct { size } => (DataType::Nested { rust_byte_size: size }, size, false),
        PathType::Enum { size } => (DataType::Nested { rust_byte_size: size }, size, true),
    }
}

fn path_data_type(p: PathType) -> (r: (DataType, usize, bool))
    ensures
        r == spec_path_data_type(p),
{
    match p {
        PathType::Boolean => (DataType::Number(NumberType::Bool, RustByteSize::One), 1, false),
        PathType::Number { size, signed } => (
            DataType::Number(if signed { NumberType::Signed } else { NumberType::Unsigned }, byte_size(size)),
            size,
            true,
        ),
        PathType::Float { size } => (DataType::Number(NumberType::Float, byte_size(size)), size, true),
        PathType::Char { size } => (DataType::Number(NumberType::Char, byte_size(size)), size, true),
        PathType::Struct { size } => (DataType::Nested { rust_byte_size: size }, size, false),
        PathType::Enum { size } => (DataType::Nested { rust_byte_size: size }, size, true),
    }
}

/// The bits one value of path type `p` takes when none are given: one for a `bool`, its
/// whole size otherwise.
pub open spec fn spec_element_bits(p: PathType) -> int {
    if p is Boolean {
        1
    } else {
        spec_path_data_type(p).1 * 8
    }
}

/// No product of the first dimensions leaves `usize`.
pub open spec fn prefixes_fit(s: Seq<usize>) -> bool {
    forall|k: int| 0 <= k <= s.len() ==> #[trigger] seq_product(s.take(k)) <= usize::MAX
}

/// The number of elements of an array of dimensions `s`, when no product leaves `usize`.
pub fn element_count(s: &Vec<usize>) -> (r: Option<usize>)
    ensures
        r is Some <==> prefixes_fit(s@),
        r matches Some(p) ==> p == seq_product(s@),
{
    let mut acc: usize = 1;
    let mut k: usize = 0;
    proof {
        assert(s@.take(0) =~= Seq::<usize>::empty());
    }
    while k < s.len()
        invariant
            k <= s@.len(),
            acc == seq_product(s@.take(k as int)),
            forall|j: int| 0 <= j <= k ==> #[trigger] seq_product(s@.take(j)) <= usize::MAX,
        decreases s@.len() - k,
    {
        proof {
            assert(s@.take(k + 1).drop_last() =~= s@.take(k as int));
            assert(seq_product(s@.take(k + 1)) == acc * s@[k as int]);
        }
        match acc.checked_mul(s[k]) {
            Some(v) => {
                acc = v;
            },
            None => {
                assert(!(seq_product(s@.take(k + 1)) <= usize::MAX));
                return None;
            },
        }
        k = k + 1;
    }
    proof {
        assert(s@.take(s@.len() as int) =~= s@);
    }
    Some(acc)
}

/// The bits a field takes, from the bits its attributes gave (`range`, `ty`) and its type:
/// an array's bits are worked out from its element bits and element count.
pub open spec fn spec_field_bits(range: BuilderRange, ty: AttrBuilderType, element: PathType, sizings: Seq<usize>) -> Result<
    BuilderRange,
    ArrayRangeError,
> {
    if sizings.len() == 0 {
        Ok(range)
    } else {
        match ty {
            AttrBuilderType::ElementArray(bits, _) => spec_element_array_range(range, bits as int, seq_product(sizings)),
            _ => spec_inferred_array_range(range, spec_element_bits(element), seq_product(sizings)),
        }
    }
}

/// The declared bits of a placed field and where it ends: a field still following the one
/// before takes `bits` bits from there.
pub open spec fn spec_placed_range(range: BuilderRange, bits: int) -> (DataBuilderRange, usize) {
    match range {
        BuilderRange::Range(r) => (DataBuilderRange::Range(r), r.end),
        BuilderRange::LastEnd(s) => (DataBuilderRange::Range(s..(s + bits) as usize), (s + bits) as usize),
        BuilderRange::Unset => (DataBuilderRange::Unset, 0),
    }
}

/// How an array field's elements are laid out, from its attributes.
pub open spec fn spec_array_kind(ty: AttrBuilderType) -> FullDataTypeArraySpecType {
    match ty {
        AttrBuilderType::BlockArray(_) => FullDataTypeArraySpecType::Block,
        AttrBuilderType::ElementArray(..) => FullDataTypeArraySpecType::Element,
        _ => FullDataTypeArraySpecType::NotSpecified,
    }
}

/// Placing a field keeps every count inside `usize`.
pub open spec fn place_field_fits(attrs: AttrBuilder, element: PathType, sizings: Seq<usize>) -> bool {
    let eb = spec_element_bits(element);
    let n = seq_product(sizings);
    let size = spec_path_data_type(element).1;
    &&& prefixes_fit(sizings)
    &&& eb <= usize::MAX
    &&& size * (if n > 1 { n } else { 1 }) <= usize::MAX
    &&& if sizings.len() == 0 {
        attrs.bit_range matches BuilderRange::LastEnd(s) ==> s + eb <= usize::MAX
    } else {
        match attrs.ty {
            AttrBuilderType::ElementArray(b, _) => {
                &&& b * n <= usize::MAX
                &&& attrs.bit_range matches BuilderRange::LastEnd(e) ==> e + b * n <= usize::MAX
            },
            _ => {
                &&& attrs.bit_range matches BuilderRange::Range(r) ==> (r.start <= r.end ==> n > 0)
                &&& attrs.bit_range matches BuilderRange::LastEnd(e) ==> e + eb * n <= usize::MAX
            },
        }
    }
}

/// Tests `place_field_fits`.
pub fn place_field_fits_check(attrs: &AttrBuilder, element: PathType, sizings: &Vec<usize>) -> (r: bool)
    ensures
        r == place_field_fits(*attrs, element, sizings@),
{
    let n: usize = match element_count(sizings) {
        Some(n) => n,
        None => {
            return false;
        },
    };
    let (_, size, _) = path_data_type(element);
    let eb: usize = if let PathType::Boolean = element {
        1
    } else {
        if size > usize::MAX / 8 {
            return false;
        }
        size * 8
    };
    let count: usize = if n > 1 {
        n
    } else {
        1
    };
    if size.checked_mul(count).is_none() {
        return false;
    }
    if sizings.len() == 0 {
        match &attrs.bit_range {
            BuilderRange::LastEnd(s) => eb <= usize::MAX - *s,
            _ => true,
        }
    } else {
        match &attrs.ty {
            AttrBuilderType::ElementArray(b, _) => {
                match b.checked_mul(n) {
                    None => false,
                    Some(total) => match &attrs.bit_range {
                        BuilderRange::LastEnd(e) => total <= usize::MAX - *e,
                        _ => true,
                    },
                }
            },
            _ => {
                match &attrs.bit_range {
                    BuilderRange::Range(r) => !(r.start <= r.end) || n > 0,
                    BuilderRange::LastEnd(e) => match eb.checked_mul(n) {
                        None => false,
                        Some(total) => total <= usize::MAX - *e,
                    },
                    BuilderRange::Unset => true,
                }
            },
        }
    }
}

fn copy_builder_range(r: &BuilderRange) -> (c: BuilderRange)
    ensures
        c == *r,
{
    match r {
        BuilderRange::Range(x) => BuilderRange::Range(x.start..x.end),
        BuilderRange::LastEnd(e) => BuilderRange::LastEnd(*e),
        BuilderRange::Unset => BuilderRange::Unset,
    }
}

/// Places a declared field: works out its bits from its attributes and its type (a field
/// that gives no bits takes its type's size right after the field before; an array takes
/// its element bits times its element count), its type and endianness, and where it ends
/// for the field after it.
pub fn place_field(
    index: usize,
    attrs: AttrBuilder,
    element: PathType,
    sizings: &Vec<usize>,
    default_endianness: &Endianness,
) -> (r: Result<(DataBuilder, LastField), ArrayRangeError>)
    requires
        place_field_fits(attrs, element, sizings@),
    ensures
        match spec_field_bits(attrs.bit_range, attrs.ty, element, sizings@) {
            Err(e) => r == Err::<(DataBuilder, LastField), ArrayRangeError>(e),
            Ok(bits) => r matches Ok((d, l)) && {
                let (dt, size, is_number) = spec_path_data_type(element);
                let n = seq_product(sizings@);
                let (range, end) = spec_placed_range(bits, spec_element_bits(element));
                &&& d.id == FieldKey::Declared(index)
                &&& d.ty.data_type == dt
                &&& (sizings@.len() == 0 ==> d.ty.array_spec is None)
                &&& (sizings@.len() > 0 ==> (d.ty.array_spec matches Some(a) && a.sizings@ == sizings@
                    && a.ty == spec_array_kind(attrs.ty)))
                &&& d.bit_range == range
                &&& d.endianness == spec_field_endianness(
                    attrs.endianness,
                    is_number,
                    size * (if n > 1 { n } else { 1 }),
                    *default_endianness,
                )
                &&& d.reserve == attrs.reserve
                &&& d.overlap == attrs.overlap
                &&& d.is_captured_id == attrs.capture_id
                &&& l == (LastField { end, is_variant_id: false })
            },
        },
{
    let n: usize = element_count(sizings).unwrap();
    let (dt, size, is_number) = path_data_type(element);
    let eb: usize = if let PathType::Boolean = element {
        1
    } else {
        size * 8
    };
    let bits = if sizings.len() == 0 {
        copy_builder_range(&attrs.bit_range)
    } else {
        let range = copy_builder_range(&attrs.bit_range);
        let found = match &attrs.ty {
            AttrBuilderType::ElementArray(b, _) => element_array_range(range, *b, n),
            _ => inferred_array_range(range, eb, n),
        };
        match found {
            Ok(b) => b,
            Err(e) => {
                return Err(e);
            },
        }
    };
    let count: usize = if n > 1 {
        n
    } else {
        1
    };
    let endianness = field_endianness(attrs.endianness, is_number, size * count, default_endianness);
    let (range, end): (DataBuilderRange, usize) = match bits {
        BuilderRange::Range(r) => {
            let e = r.end;
            (DataBuilderRange::Range(r), e)
        },
        BuilderRange::LastEnd(s) => (DataBuilderRange::Range(s..s + eb), s + eb),
        BuilderRange::Unset => (DataBuilderRange::Unset, 0),
    };
    let array_spec = if sizings.len() == 0 {
        None
    } else {
        let kind = match &attrs.ty {
            AttrBuilderType::BlockArray(_) => FullDataTypeArraySpecType::Block,
            AttrBuilderType::ElementArray(..) => FullDataTypeArraySpecType::Element,
            _ => FullDataTypeArraySpecType::NotSpecified,
        };
        Some(FullDataTypeArraySpec { ty: kind, sizings: sizings.clone() })
    };
    let d = DataBuilder {
        id: FieldKey::Declared(index),
        ty: FullDataType { data_type: dt, array_spec },
        bit_range: range,
        endianness,
        reserve: attrs.reserve,
        overlap: attrs.overlap,
        is_captured_id: attrs.capture_id,
    };
    Ok((d, LastField { end, is_variant_id: false }))
}

/// Fields are chained: a field whose attributes leave its bits to follow the field before
/// (whose end is `last.end`) is placed at `last.end` with its type's own size, 1 bit for a
/// `bool` and 8 bits a byte otherwise, and the end it hands to the field after it is the end
/// of that range.
pub proof fn law_placed_fields_chain(
    metas: Seq<FieldMeta>,
    last: LastField,
    element: PathType,
)
    requires
        spec_parse_metas(metas, Some(last), metas.len() as int).1 is Ok,
        spec_parse_metas(metas, Some(last), metas.len() as int).0.bit_range is Unset,
        last.end + spec_element_bits(element) <= usize::MAX,
    ensures
        ({
            let b = spec_parse_metas(metas, Some(last), metas.len() as int).0;
            let range = BuilderRange::LastEnd(last.end);
            let end = (last.end + spec_element_bits(element)) as usize;
            &&& spec_field_bits(range, b.ty, element, Seq::empty()) == Ok::<BuilderRange, ArrayRangeError>(range)
            &&& spec_placed_range(range, spec_element_bits(element)) == (
                DataBuilderRange::Range(last.end..end),
                end,
            )
        }),
{
    law_unplaced_field_follows_last(metas, Some(last));
}

} // verus!
