use crate::data::{
    seq_product, DataBuilder, DataBuilderRange, DataType, FieldKey, FullDataType,
    FullDataTypeArraySpecType,
};
use crate::endianness::Endianness;
use crate::field::{copy_range, ranges_conflict, bit_ranges_conflict, OverlapOptions, ReserveFieldOption};
use std::ops::Range;
use vstd::prelude::*;

verus! {

/// The shape of a field's bit range, with array dimensions as a sequence.
pub enum RangeShape {
    Single,
    Block(Seq<usize>),
    Element(Seq<usize>),
}

/// Whether a field's bits hold one value or an array of values.
#[derive(Debug)]
pub enum BuiltRangeType {
    SingleElement,
    BlockArray(Vec<usize>),
    ElementArray(Vec<usize>),
}

impl View for BuiltRangeType {
    type V = RangeShape;

    open spec fn view(&self) -> RangeShape {
        match self {
            BuiltRangeType::SingleElement => RangeShape::Single,
            BuiltRangeType::BlockArray(v) => RangeShape::Block(v@),
            BuiltRangeType::ElementArray(v) => RangeShape::Element(v@),
        }
    }
}

impl Clone for BuiltRangeType {
    fn clone(&self) -> (r: Self)
        ensures
            r@ == self@,
    {
        match self {
            BuiltRangeType::SingleElement => BuiltRangeType::SingleElement,
            BuiltRangeType::BlockArray(v) => BuiltRangeType::BlockArray(v.clone()),
            BuiltRangeType::ElementArray(v) => BuiltRangeType::ElementArray(v.clone()),
        }
    }
}

/// The range shape a field type calls for.
pub open spec fn shape_of(t: FullDataType) -> RangeShape {
    match t.array_spec {
        Some(a) => if a.ty == FullDataTypeArraySpecType::Block {
            RangeShape::Block(a.sizings@)
        } else {
            RangeShape::Element(a.sizings@)
        },
        None => RangeShape::Single,
    }
}

pub struct BuiltRange {
    /// This is the full bit range of the field. array elements each calculate their own
    /// range within this range.
    pub bit_range: Range<usize>,
    /// The range type determines if the `bit_range` contains a single value or contains a array of values.
    pub ty: BuiltRangeType,
}

/// Where a field starts when it follows the field that ended at `last`.
pub open spec fn spec_start(last: Option<usize>) -> int {
    match last {
        Some(p) => p as int,
        None => 0,
    }
}

/// The bits a declared field takes when the previous field ended at `last`.
pub open spec fn spec_builder_range(b: DataBuilderRange, t: FullDataType, last: Option<usize>) -> Range<usize> {
    match b {
        DataBuilderRange::Range(r) => r,
        DataBuilderRange::Size(n) => Range {
            start: spec_start(last) as usize,
            end: (spec_start(last) + n) as usize,
        },
        DataBuilderRange::Unset => Range {
            start: spec_start(last) as usize,
            end: (spec_start(last) + t.spec_unset_bits()) as usize,
        },
    }
}

impl BuiltRange {
    pub fn range(&self) -> (r: &Range<usize>)
        ensures
            *r == self.bit_range,
    {
        &self.bit_range
    }

    pub fn bit_length(&self) -> (r: usize)
        requires
            self.bit_range.start <= self.bit_range.end,
        ensures
            r == self.bit_range.end - self.bit_range.start,
    {
        self.bit_range.end - self.bit_range.start
    }

    pub fn end(&self) -> (r: usize)
        ensures
            r == self.bit_range.end,
    {
        self.bit_range.end
    }

    pub fn from_builder(
        builder: &DataBuilderRange,
        data_ty: &FullDataType,
        last_field_end: Option<usize>,
    ) -> (r: Self)
        requires
            data_ty.unset_bits_fit(),
            *builder matches DataBuilderRange::Size(n) ==> spec_start(last_field_end) + n
                <= usize::MAX,
            *builder is Unset ==> spec_start(last_field_end) + data_ty.spec_unset_bits()
                <= usize::MAX,
        ensures
            r.bit_range == spec_builder_range(*builder, *data_ty, last_field_end),
            r.ty@ == shape_of(*data_ty),
    {
        let start: usize = if let Some(prev) = &last_field_end {
            *prev
        } else {
            0
        };
        let ty = if let Some(a_spec) = &data_ty.array_spec {
            match a_spec.ty {
                FullDataTypeArraySpecType::NotSpecified | FullDataTypeArraySpecType::Element => {
                    BuiltRangeType::ElementArray(a_spec.sizings.clone())
                },
                FullDataTypeArraySpecType::Block => {
                    BuiltRangeType::BlockArray(a_spec.sizings.clone())
                },
            }
        } else {
            BuiltRangeType::SingleElement
        };
        assert(ty@ == shape_of(*data_ty));
        match builder {
            DataBuilderRange::Range(bit_range) => {
                let r = copy_range(bit_range);
                assert(r == spec_builder_range(*builder, *data_ty, last_field_end));
                Self { bit_range: r, ty }
            },
            DataBuilderRange::Size(bit_length) => {
                let bit_range = Range { start, end: start + *bit_length };
                Self { bit_range, ty }
            },
            DataBuilderRange::Unset => {
                let base: usize = data_ty.data_type.default_bit_size();
                let mut ty_size: usize = base;
                if let BuiltRangeType::ElementArray(items) = &ty {
                    let mut k: usize = 0;
                    while k < items.len()
                        invariant
                            0 <= k <= items.len(),
                            data_ty.is_element_array(),
                            items@ == data_ty.spec_sizings(),
                            data_ty.unset_bits_fit(),
                            base == data_ty.data_type.spec_default_bit_size(),
                            ty_size == seq_product(items@.take(k as int)) * base,
                        decreases items.len() - k,
                    {
                        proof {
                            assert(items@.take(k + 1).drop_last() =~= items@.take(k as int));
                            let p = seq_product(items@.take(k as int));
                            assert(seq_product(items@.take(k + 1)) == p * items@[k as int]);
                            assert(seq_product(items@.take(k + 1)) * base <= usize::MAX);
                            assert(p * base * items@[k as int] == p * items@[k as int] * base)
                                by (nonlinear_arith);
                        }
                        ty_size = ty_size * items[k];
                        k = k + 1;
                    }
                    proof {
                        assert(items@.take(k as int) =~= items@);
                        let p = seq_product(items@);
                        assert(p * base == base * p) by (nonlinear_arith);
                    }
                    assert(ty_size == data_ty.spec_unset_bits());
                } else {
                    assert(!data_ty.is_element_array());
                    assert(ty_size == data_ty.spec_unset_bits());
                }
                let bit_range = Range { start, end: start + ty_size };
                Self { bit_range, ty }
            },
        }
    }
}

impl Clone for BuiltRange {
    fn clone(&self) -> (r: Self)
        ensures
            r.bit_range == self.bit_range,
            r.ty@ == self.ty@,
    {
        BuiltRange { bit_range: copy_range(&self.bit_range), ty: self.ty.clone() }
    }
}

/// A field after its bits have been placed.
pub struct BuiltDataView {
    pub id: FieldKey,
    pub ty: DataType,
    pub bit_range: Range<usize>,
    pub shape: RangeShape,
    pub endianness: Endianness,
    pub reserve: ReserveFieldOption,
    pub overlap: OverlapOptions,
    pub is_captured_id: bool,
}

/// A field whose bits have been placed, before the structure-wide orders are applied.
pub struct BuiltData {
    /// The name or ident of the field.
    pub id: FieldKey,
    pub ty: DataType,
    pub bit_range: BuiltRange,
    pub endianness: Endianness,
    /// Describes when the field should be considered.
    pub reserve: ReserveFieldOption,
    /// How much you care about the field overlapping other fields.
    pub overlap: OverlapOptions,
    pub is_captured_id: bool,
}

impl View for BuiltData {
    type V = BuiltDataView;

    open spec fn view(&self) -> BuiltDataView {
        BuiltDataView {
            id: self.id,
            ty: self.ty,
            bit_range: self.bit_range.bit_range,
            shape: self.bit_range.ty@,
            endianness: self.endianness,
            reserve: self.reserve,
            overlap: self.overlap,
            is_captured_id: self.is_captured_id,
        }
    }
}

/// Whether field `a`, placed after field `b`, is refused for sharing bits with it: fake fields
/// never conflict, fields that allow overlapping never conflict.
pub open spec fn spec_conflict(a: BuiltDataView, b: BuiltDataView) -> bool {
    &&& !a.reserve.spec_is_fake_field()
    &&& a.overlap is NoOverlap
    &&& b.overlap is NoOverlap
    &&& ranges_conflict(a.bit_range, b.bit_range)
}

impl Clone for BuiltData {
    fn clone(&self) -> (r: Self)
        ensures
            r@ == self@,
    {
        BuiltData {
            id: self.id,
            ty: self.ty,
            bit_range: self.bit_range.clone(),
            endianness: self.endianness,
            reserve: self.reserve,
            overlap: self.overlap,
            is_captured_id: self.is_captured_id,
        }
    }
}

impl BuiltData {
    pub fn conflict(&self, other: &Self) -> (r: bool)
        ensures
            r == spec_conflict(self@, other@),
    {
        if self.reserve.is_fake_field() {
            return false;
        }
        if !self.overlap.enabled() && !other.overlap.enabled() {
            return bit_ranges_conflict(&self.bit_range.bit_range, &other.bit_range.bit_range);
        }
        false
    }
}

} // verus!
