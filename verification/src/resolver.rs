use crate::data::{DataType, FieldKey, NumberType, RustByteSize};
use crate::endianness::Endianness;
use crate::error::SolvingError;
use crate::field::{copy_range, OverlapOptions, ReserveFieldOption};
use crate::solve::{BuiltData, BuiltDataView, BuiltRangeType, RangeShape};
use std::ops::Range;
use vstd::prelude::*;

verus! {

/// `ceil(x / 8)`.
pub open spec fn ceil8(x: int) -> int {
    (x + 7) / 8
}

/// `x.div_ceil(8)` without overflow.
pub fn div_ceil8(x: usize) -> (r: usize)
    ensures
        r == ceil8(x as int),
{
    x / 8 + if x % 8 != 0 {
        1
    } else {
        0
    }
}

#[derive(Clone, Copy, Debug, PartialEq, Eq)]
pub enum ResolverPrimitiveStrategyTy {
    Standard,
    Alternate,
}

/// How a primitive moves between its value and the byte array. The endianness is what
/// selects the `to_*_bytes` / `from_*_bytes` conversion of the generated code.
#[derive(Clone, Copy, Debug, PartialEq, Eq)]
pub struct ResolverPrimitiveStrategy {
    pub ty: ResolverPrimitiveStrategyTy,
    pub endianness: Endianness,
}

#[derive(Clone, Copy, Debug, PartialEq, Eq)]
pub enum ResolverArrayType {
    Element,
    Block,
}

/// The type of one value of a resolved field: a primitive number or a nested bitfield.
#[allow(inconsistent_fields)]
#[derive(Clone, Copy, Debug, PartialEq, Eq)]
pub enum ResolverSubType {
    Primitive {
        number_ty: NumberType,
        resolver_strategy: ResolverPrimitiveStrategy,
        rust_size: RustByteSize,
    },
    Nested { rust_size: usize },
}

/// The type of a resolved field, with array dimensions as a sequence.
pub enum ResolverTypeView {
    Single(ResolverSubType),
    Array { sub_ty: ResolverSubType, array_ty: ResolverArrayType, sizings: Seq<usize> },
}

/// The type of a resolved field: a single value or an array of them.
#[allow(inconsistent_fields)]
#[derive(Debug)]
pub enum ResolverType {
    Primitive {
        number_ty: NumberType,
        resolver_strategy: ResolverPrimitiveStrategy,
        rust_size: RustByteSize,
    },
    Nested { rust_size: usize },
    Array { sub_ty: ResolverSubType, array_ty: ResolverArrayType, sizings: Vec<usize> },
}

impl View for ResolverType {
    type V = ResolverTypeView;

    open spec fn view(&self) -> ResolverTypeView {
        match self {
            ResolverType::Primitive { number_ty, resolver_strategy, rust_size } => ResolverTypeView::Single(
                ResolverSubType::Primitive {
                    number_ty: *number_ty,
                    resolver_strategy: *resolver_strategy,
                    rust_size: *rust_size,
                },
            ),
            ResolverType::Nested { rust_size } => ResolverTypeView::Single(
                ResolverSubType::Nested { rust_size: *rust_size },
            ),
            ResolverType::Array { sub_ty, array_ty, sizings } => ResolverTypeView::Array {
                sub_ty: *sub_ty,
                array_ty: *array_ty,
                sizings: sizings@,
            },
        }
    }
}

/// A sub type as a whole type.
pub fn resolver_type_from_sub(value: ResolverSubType) -> (r: ResolverType)
    ensures
        r@ == ResolverTypeView::Single(value),
{
    match value {
        ResolverSubType::Primitive { number_ty, resolver_strategy, rust_size } => ResolverType::Primitive {
            number_ty,
            resolver_strategy,
            rust_size,
        },
        ResolverSubType::Nested { rust_size } => ResolverType::Nested { rust_size },
    }
}

/// The size in bytes of one value of a sub type.
pub open spec fn sub_rust_size(s: ResolverSubType) -> int {
    match s {
        ResolverSubType::Primitive { rust_size, .. } => rust_size.spec_bytes(),
        ResolverSubType::Nested { rust_size } => rust_size as int,
    }
}

impl ResolverType {
    pub fn is_nested(&self) -> (r: bool)
        ensures
            r == (*self is Nested),
    {
        matches!(self, Self::Nested { .. })
    }
}

/// Where a resolved field lives in the byte array.
#[derive(Debug)]
pub struct ResolverData {
    /// Amount of bits in the first byte this field has bits in that are not used by this field.
    pub zeros_on_left: usize,
    /// Amount of bits in the first byte this field has bits in that are used by this field.
    pub available_bits_in_first_byte: usize,
    /// the first byte this field is stored in
    pub starting_inject_byte: usize,
    /// if the structure is flipped. (reverse the bytes order)
    pub flip: Option<usize>,
    pub field_name: FieldKey,
    pub bit_range: Range<usize>,
}

impl ResolverData {
    pub fn available_bits_in_first_byte(&self) -> (r: usize)
        ensures
            r == self.available_bits_in_first_byte,
    {
        self.available_bits_in_first_byte
    }

    pub fn starting_inject_byte(&self) -> (r: usize)
        ensures
            r == self.starting_inject_byte,
    {
        self.starting_inject_byte
    }

    /// Returns the next byte index in sequence based of the given `index` and whether or not the
    /// Structure in has a reverse bytes order.
    pub fn next_index(&self, index: usize) -> (r: usize)
        requires
            self.flip is Some ==> index >= 1,
            self.flip is None ==> index < usize::MAX,
        ensures
            r == if self.flip is Some {
                index - 1
            } else {
                index + 1
            },
    {
        if self.flip.is_some() {
            index - 1
        } else {
            index + 1
        }
    }

    /// Returns the `starting_inject_byte` plus or minus `offset` depending on if the bytes order is reversed.
    pub fn offset_starting_inject_byte(&self, offset: usize) -> (r: usize)
        requires
            self.flip matches Some(flip) ==> flip - self.starting_inject_byte - offset >= 0,
            self.flip is None ==> self.starting_inject_byte + offset <= usize::MAX,
        ensures
            r == match self.flip {
                Some(flip) => flip - self.starting_inject_byte - offset,
                None => self.starting_inject_byte + offset,
            },
    {
        let sib = self.starting_inject_byte();
        if let Some(flip) = self.flip {
            (flip - sib) - offset
        } else {
            sib + offset
        }
    }

    /// The index of the byte that holds the field's last bit.
    pub fn fields_last_bits_index(&self) -> (r: usize)
        requires
            self.bit_range.end > 0,
        ensures
            r == ceil8(self.bit_range.end as int) - 1,
    {
        div_ceil8(self.bit_range.end) - 1
    }

    pub fn bit_range(&self) -> (r: &Range<usize>)
        ensures
            *r == self.bit_range,
    {
        &self.bit_range
    }

    pub fn bit_range_start(&self) -> (r: usize)
        ensures
            r == self.bit_range.start,
    {
        self.bit_range.start
    }

    pub fn bit_range_end(&self) -> (r: usize)
        ensures
            r == self.bit_range.end,
    {
        self.bit_range.end
    }

    /// Pure bit length calculation
    pub fn bit_length(&self) -> (r: usize)
        requires
            self.bit_range.start <= self.bit_range.end,
        ensures
            r == self.bit_range.end - self.bit_range.start,
    {
        self.bit_range.end - self.bit_range.start
    }

    pub fn flip(&self) -> (r: Option<usize>)
        ensures
            r == self.flip,
    {
        self.flip
    }
}

/// A resolved field as plain values.
pub struct ResolverView {
    pub bit_range: Range<usize>,
    pub flip: Option<usize>,
    pub zeros_on_left: usize,
    pub available_bits_in_first_byte: usize,
    pub starting_inject_byte: usize,
    pub field_name: FieldKey,
    pub ty: ResolverTypeView,
    pub reserve: ReserveFieldOption,
    pub is_captured_id: bool,
    pub overlap: OverlapOptions,
}

/// Everything the code generation needs to read and write one field.
#[derive(Debug)]
pub struct Resolver {
    pub data: Box<ResolverData>,
    pub ty: Box<ResolverType>,
    pub reserve: ReserveFieldOption,
    pub is_captured_id: bool,
    pub overlap: OverlapOptions,
}

impl View for Resolver {
    type V = ResolverView;

    open spec fn view(&self) -> ResolverView {
        ResolverView {
            bit_range: self.data.bit_range,
            flip: self.data.flip,
            zeros_on_left: self.data.zeros_on_left,
            available_bits_in_first_byte: self.data.available_bits_in_first_byte,
            starting_inject_byte: self.data.starting_inject_byte,
            field_name: self.data.field_name,
            ty: self.ty@,
            reserve: self.reserve,
            is_captured_id: self.is_captured_id,
            overlap: self.overlap,
        }
    }
}

impl ResolverView {
    pub open spec fn bit_length(self) -> int {
        self.bit_range.end - self.bit_range.start
    }

    /// How many of the field's bits count toward the structure's size.
    pub open spec fn bit_size(self) -> int {
        match self.overlap {
            OverlapOptions::Redundant => 0,
            OverlapOptions::Allow(skip) => self.bit_length() - skip,
            OverlapOptions::NoOverlap => self.bit_length(),
        }
    }

    /// Like `bit_size`, but fill fields and captured ids count nothing.
    pub open spec fn bit_size_no_fill(self) -> int {
        if self.reserve.spec_count_bits() && !self.is_captured_id {
            self.bit_size()
        } else {
            0
        }
    }

    /// Bit lengths can be taken and overlaps subtracted without leaving `usize`.
    pub open spec fn well_formed(self) -> bool {
        &&& self.bit_range.start <= self.bit_range.end
        &&& (self.overlap matches OverlapOptions::Allow(skip) ==> skip <= self.bit_length())
    }
}

impl Resolver {
    pub fn bit_length(&self) -> (r: usize)
        requires
            self@.well_formed(),
        ensures
            r == self@.bit_length(),
    {
        self.data.bit_length()
    }

    pub fn bit_range(&self) -> (r: &Range<usize>)
        ensures
            *r == self.data.bit_range,
    {
        self.data.bit_range()
    }

    pub fn starting_inject_byte(&self) -> (r: usize)
        ensures
            r == self.data.starting_inject_byte,
    {
        self.data.starting_inject_byte()
    }

    pub fn available_bits_in_first_byte(&self) -> (r: usize)
        ensures
            r == self.data.available_bits_in_first_byte,
    {
        self.data.available_bits_in_first_byte()
    }

    pub fn zeros_on_left(&self) -> (r: usize)
        ensures
            r == self.data.zeros_on_left,
    {
        self.data.zeros_on_left
    }

    /// The index, within the field's own bytes, of the byte that holds its last bit.
    pub fn fields_last_bits_index(&self) -> (r: usize)
        requires
            self@.well_formed(),
            self@.bit_length() > 0,
        ensures
            r == ceil8(self@.bit_length()) - 1,
    {
        div_ceil8(self.bit_length()) - 1
    }

    /// Whether the field's bits reach past its first byte.
    pub fn spans_multiple_bytes(&self) -> (r: bool)
        requires
            self@.well_formed(),
        ensures
            r == (self@.bit_length() > self.data.available_bits_in_first_byte),
    {
        self.bit_length() > self.data.available_bits_in_first_byte()
    }

    /// The type of a single value of the field (the element type of an array).
    pub fn get_resolved_ty(&self) -> (r: ResolverSubType)
        ensures
            match self.ty@ {
                ResolverTypeView::Single(s) => r == s,
                ResolverTypeView::Array { sub_ty, .. } => r == sub_ty,
            },
    {
        match &*self.ty {
            ResolverType::Primitive { number_ty, resolver_strategy, rust_size } => ResolverSubType::Primitive {
                number_ty: *number_ty,
                resolver_strategy: *resolver_strategy,
                rust_size: *rust_size,
            },
            ResolverType::Nested { rust_size } => ResolverSubType::Nested { rust_size: *rust_size },
            ResolverType::Array { sub_ty, .. } => *sub_ty,
        }
    }

    /// this returns how many bits of the fields pertain to total structure bits.
    /// where as `bit_length()` give you bits the fields actually needs.
    pub fn bit_size(&self) -> (r: usize)
        requires
            self@.well_formed(),
        ensures
            r == self@.bit_size(),
    {
        if self.overlap.is_redundant() {
            0
        } else {
            let minus: usize = if let OverlapOptions::Allow(skip) = self.overlap {
                skip
            } else {
                0
            };
            self.bit_length() - minus
        }
    }

    /// this returns how many bits of the fields pertain to total structure bits, counting
    /// nothing for fill fields and captured ids.
    pub fn bit_size_no_fill(&self) -> (r: usize)
        requires
            self@.well_formed(),
        ensures
            r == self@.bit_size_no_fill(),
    {
        if self.reserve.count_bits() && !self.is_captured_id {
            self.bit_size()
        } else {
            0
        }
    }
}

/// A solved field.
#[derive(Debug)]
pub struct SolvedData {
    pub resolver: Resolver,
}

impl View for SolvedData {
    type V = ResolverView;

    open spec fn view(&self) -> ResolverView {
        self.resolver@
    }
}

/// The sub type a built field's values have.
pub open spec fn spec_sub_type(b: BuiltDataView) -> ResolverSubType {
    match b.ty {
        DataType::Number(number_ty, rust_size) => ResolverSubType::Primitive {
            number_ty,
            resolver_strategy: ResolverPrimitiveStrategy {
                ty: if b.endianness.mode == crate::endianness::EndiannessMode::Alternative {
                    ResolverPrimitiveStrategyTy::Alternate
                } else {
                    ResolverPrimitiveStrategyTy::Standard
                },
                endianness: b.endianness,
            },
            rust_size,
        },
        DataType::Nested { rust_byte_size } => ResolverSubType::Nested { rust_size: rust_byte_size },
    }
}

/// The type of the resolved field.
pub open spec fn spec_resolver_type(b: BuiltDataView) -> ResolverTypeView {
    match b.shape {
        RangeShape::Single => ResolverTypeView::Single(spec_sub_type(b)),
        RangeShape::Block(s) => ResolverTypeView::Array {
            sub_ty: spec_sub_type(b),
            array_ty: ResolverArrayType::Block,
            sizings: s,
        },
        RangeShape::Element(s) => ResolverTypeView::Array {
            sub_ty: spec_sub_type(b),
            array_ty: ResolverArrayType::Element,
            sizings: s,
        },
    }
}

/// The bit range a field ends up with in a structure of `struct_bit_size` bits: mirrored
/// (`start..end` becomes `struct_bit_size - end..struct_bit_size - start`) when the fields are
/// laid out from the last bit index.
pub open spec fn spec_placed_range(b: BuiltDataView, struct_bit_size: usize) -> Range<usize> {
    if b.endianness.field_order_reversed() && struct_bit_size != 0 {
        Range {
            start: (struct_bit_size - b.bit_range.end) as usize,
            end: (struct_bit_size - b.bit_range.start) as usize,
        }
    } else {
        b.bit_range
    }
}

/// The field resolved inside a structure of `struct_bit_size` bits, or the underflow that
/// placing it would cause.
pub open spec fn spec_from_built(b: BuiltDataView, struct_bit_size: usize) -> Result<
    ResolverView,
    SolvingError,
> {
    if b.endianness.byte_order_reversed() && struct_bit_size == 0 {
        Err(SolvingError::ResolverUnderflow(b.id))
    } else if b.endianness.field_order_reversed() && struct_bit_size != 0 && b.bit_range.end
        > struct_bit_size {
        Err(SolvingError::ResolverUnderflow(b.id))
    } else {
        let range = spec_placed_range(b, struct_bit_size);
        Ok(
            ResolverView {
                bit_range: range,
                flip: if b.endianness.byte_order_reversed() {
                    Some((ceil8(struct_bit_size as int) - 1) as usize)
                } else {
                    None
                },
                zeros_on_left: (range.start % 8) as usize,
                available_bits_in_first_byte: (8 - range.start % 8) as usize,
                starting_inject_byte: (range.start / 8) as usize,
                field_name: b.id,
                ty: spec_resolver_type(b),
                reserve: b.reserve,
                is_captured_id: b.is_captured_id,
                overlap: b.overlap,
            },
        )
    }
}

impl SolvedData {
    pub fn attr_capture_id(&self) -> (r: bool)
        ensures
            r == self.resolver.is_captured_id,
    {
        self.resolver.is_captured_id
    }

    pub fn attr_reserve(&self) -> (r: &ReserveFieldOption)
        ensures
            *r == self.resolver.reserve,
    {
        &self.resolver.reserve
    }

    pub fn bit_length(&self) -> (r: usize)
        requires
            self@.well_formed(),
        ensures
            r == self@.bit_length(),
    {
        self.resolver.bit_length()
    }

    pub fn bit_range(&self) -> (r: &Range<usize>)
        ensures
            *r == self@.bit_range,
    {
        self.resolver.bit_range()
    }

    /// Resolves a placed field inside a structure of `struct_bit_size` bits: applies the
    /// structure's field order (mirroring the range) and byte order (the index of the last
    /// byte), and works out the byte and bit the field starts at. A subtraction that would
    /// go below zero is reported as an error.
    pub fn from_built(pre_field: BuiltData, struct_bit_size: usize) -> (r: Result<Self, SolvingError>)
        requires
            pre_field@.bit_range.start <= pre_field@.bit_range.end,
        ensures
            match spec_from_built(pre_field@, struct_bit_size) {
                Ok(v) => r matches Ok(s) && s@ == v,
                Err(e) => r == Err::<Self, SolvingError>(e),
            },
    {
        let ghost b = pre_field@;
        let byte_rev = pre_field.endianness.is_byte_order_reversed();
        let flip = if byte_rev {
            if struct_bit_size == 0 {
                return Err(SolvingError::ResolverUnderflow(pre_field.id));
            }
            Some(div_ceil8(struct_bit_size) - 1)
        } else {
            None
        };
        let mut bit_range = copy_range(&pre_field.bit_range.bit_range);
        // Reverse field order
        if pre_field.endianness.is_field_order_reversed() && struct_bit_size != 0 {
            if bit_range.end > struct_bit_size {
                return Err(SolvingError::ResolverUnderflow(pre_field.id));
            }
            let new_start = struct_bit_size - bit_range.end;
            let new_end = struct_bit_size - bit_range.start;
            bit_range = Range { start: new_start, end: new_end };
        }
        let start = bit_range.start;
        let zeros_on_left: usize = start % 8;
        let available_bits_in_first_byte: usize = 8 - zeros_on_left;
        // calculate the starting byte index in the outgoing buffer
        let starting_inject_byte: usize = start / 8;
        let sub_ty = match &pre_field.ty {
            DataType::Number(number_type, rust_byte_size) => {
                let resolver_strategy = ResolverPrimitiveStrategy {
                    ty: if pre_field.endianness.is_alternative() {
                        ResolverPrimitiveStrategyTy::Alternate
                    } else {
                        ResolverPrimitiveStrategyTy::Standard
                    },
                    endianness: pre_field.endianness,
                };
                ResolverSubType::Primitive {
                    number_ty: *number_type,
                    resolver_strategy,
                    rust_size: *rust_byte_size,
                }
            },
            DataType::Nested { rust_byte_size } => ResolverSubType::Nested {
                rust_size: *rust_byte_size,
            },
        };
        let ty = Box::new(
            match pre_field.bit_range.ty {
                BuiltRangeType::SingleElement => resolver_type_from_sub(sub_ty),
                BuiltRangeType::BlockArray(vec) => ResolverType::Array {
                    array_ty: ResolverArrayType::Block,
                    sizings: vec,
                    sub_ty,
                },
                BuiltRangeType::ElementArray(vec) => ResolverType::Array {
                    array_ty: ResolverArrayType::Element,
                    sizings: vec,
                    sub_ty,
                },
            },
        );
        let resolver = Resolver {
            data: Box::new(
                ResolverData {
                    bit_range,
                    flip,
                    zeros_on_left,
                    available_bits_in_first_byte,
                    starting_inject_byte,
                    field_name: pre_field.id,
                },
            ),
            ty,
            reserve: pre_field.reserve,
            is_captured_id: pre_field.is_captured_id,
            overlap: pre_field.overlap,
        };
        assert(resolver@.ty == spec_resolver_type(b));
        Ok(SolvedData { resolver })
    }
}

} // verus!
