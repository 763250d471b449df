use crate::endianness::Endianness;
use crate::field::{OverlapOptions, ReserveFieldOption};
use std::ops::Range;
use vstd::prelude::*;

verus! {

/// The kind of primitive a field holds.
#[derive(Clone, Copy, Debug, PartialEq, Eq)]
pub enum NumberType {
    Float,
    Unsigned,
    Signed,
    Char,
    Bool,
}

/// The size of a primitive rust type.
#[derive(Clone, Copy, Debug, PartialEq, Eq)]
pub enum RustByteSize {
    One,
    Two,
    Four,
    Eight,
    Sixteen,
}

impl RustByteSize {
    pub open spec fn spec_bytes(self) -> int {
        match self {
            RustByteSize::One => 1,
            RustByteSize::Two => 2,
            RustByteSize::Four => 4,
            RustByteSize::Eight => 8,
            RustByteSize::Sixteen => 16,
        }
    }

    pub fn bytes(&self) -> (r: usize)
        ensures
            r == self.spec_bytes(),
    {
        match self {
            RustByteSize::One => 1,
            RustByteSize::Two => 2,
            RustByteSize::Four => 4,
            RustByteSize::Eight => 8,
            RustByteSize::Sixteen => 16,
        }
    }

    pub fn bits(&self) -> (r: usize)
        ensures
            r == self.spec_bytes() * 8,
    {
        self.bytes() * 8
    }
}

/// Identifies a field of a field set: a field the user declared, by its position among the
/// declared fields, one of the fields the solver adds itself, or an element of an array field.
#[derive(Clone, Copy, Debug, PartialEq, Eq)]
pub enum FieldKey {
    /// The field at this position in the declaration.
    Declared(usize),
    /// The id field of an enum.
    VariantId,
    /// The reserve field added to fill bits.
    FillBits,
    /// The element at this index of an array field. The name of element `i` of field `f` is
    /// `f_i`; an element of an element is again named after the field, with its own index.
    Element(ArrayField, usize),
}

/// The field an array element belongs to.
#[derive(Clone, Copy, Debug, PartialEq, Eq)]
pub enum ArrayField {
    Declared(usize),
    VariantId,
    FillBits,
}

/// The key of element `index` of the field, or element, `outer`: it is named after the field
/// that holds the array.
pub open spec fn spec_element_key(outer: FieldKey, index: usize) -> FieldKey {
    match outer {
        FieldKey::Declared(d) => FieldKey::Element(ArrayField::Declared(d), index),
        FieldKey::VariantId => FieldKey::Element(ArrayField::VariantId, index),
        FieldKey::FillBits => FieldKey::Element(ArrayField::FillBits, index),
        FieldKey::Element(f, _) => FieldKey::Element(f, index),
    }
}

/// Names element `index` of the field, or element, `outer`.
pub fn element_key(outer: FieldKey, index: usize) -> (r: FieldKey)
    ensures
        r == spec_element_key(outer, index),
{
    match outer {
        FieldKey::Declared(d) => FieldKey::Element(ArrayField::Declared(d), index),
        FieldKey::VariantId => FieldKey::Element(ArrayField::VariantId, index),
        FieldKey::FillBits => FieldKey::Element(ArrayField::FillBits, index),
        FieldKey::Element(f, _) => FieldKey::Element(f, index),
    }
}

/// The type of a field's value (or of one element of an array field).
#[derive(Clone, Copy, Debug, PartialEq, Eq)]
pub enum DataType {
    Number(NumberType, RustByteSize),
    /// Another bitfield type; its name stays with the declaration the field came from.
    Nested { rust_byte_size: usize },
}

impl DataType {
    /// The amount of bits a value takes when no bit length is given: one for a `bool`,
    /// the size of the rust type otherwise.
    pub open spec fn spec_default_bit_size(self) -> int {
        match self {
            DataType::Number(NumberType::Bool, _) => 1,
            DataType::Number(_, size) => size.spec_bytes() * 8,
            DataType::Nested { rust_byte_size } => rust_byte_size * 8,
        }
    }

    pub fn default_bit_size(&self) -> (r: usize)
        requires
            self.spec_default_bit_size() <= usize::MAX,
        ensures
            r == self.spec_default_bit_size(),
    {
        match self {
            DataType::Number(NumberType::Bool, _) => 1,
            DataType::Number(_, size) => size.bits(),
            DataType::Nested { rust_byte_size } => rust_byte_size * 8,
        }
    }

    /// Numbers have an endianness, nested bitfields do not.
    pub fn needs_endianness(&self) -> (r: bool)
        ensures
            r == (*self is Number),
    {
        matches!(self, DataType::Number(..))
    }
}

/// How an array field was declared.
#[derive(Clone, Copy, Debug, PartialEq, Eq)]
pub enum FullDataTypeArraySpecType {
    NotSpecified,
    Element,
    Block,
}

/// The array dimensions of a field, innermost last.
pub struct FullDataTypeArraySpec {
    pub ty: FullDataTypeArraySpecType,
    pub sizings: Vec<usize>,
}

/// The type of a field: the element type and, for arrays, the dimensions.
pub struct FullDataType {
    pub data_type: DataType,
    pub array_spec: Option<FullDataTypeArraySpec>,
}

/// The product of `s`.
pub open spec fn seq_product(s: Seq<usize>) -> int
    decreases s.len(),
{
    if s.len() == 0 {
        1
    } else {
        seq_product(s.drop_last()) * s.last()
    }
}

impl FullDataType {
    /// Whether the field is an array whose elements are laid out one after the other.
    pub open spec fn is_element_array(self) -> bool {
        match self.array_spec {
            Some(a) => a.ty != FullDataTypeArraySpecType::Block,
            None => false,
        }
    }

    /// Whether the field is an array laid out as a single block of bits.
    pub open spec fn is_block_array(self) -> bool {
        match self.array_spec {
            Some(a) => a.ty == FullDataTypeArraySpecType::Block,
            None => false,
        }
    }

    /// The dimensions of an array field (empty for other fields).
    pub open spec fn spec_sizings(self) -> Seq<usize> {
        match self.array_spec {
            Some(a) => a.sizings@,
            None => Seq::empty(),
        }
    }

    /// The bits a field of this type takes when no length was given: the default size of
    /// the element, times the number of elements for an element array.
    pub open spec fn spec_unset_bits(self) -> int {
        if self.is_element_array() {
            self.data_type.spec_default_bit_size() * seq_product(self.spec_sizings())
        } else {
            self.data_type.spec_default_bit_size()
        }
    }

    /// No intermediate product of the element size and the dimensions leaves `usize`.
    pub open spec fn unset_bits_fit(self) -> bool {
        &&& self.data_type.spec_default_bit_size() <= usize::MAX
        &&& self.is_element_array() ==> forall|k: int|
            0 <= k <= self.spec_sizings().len() ==> #[trigger] seq_product(
                self.spec_sizings().take(k),
            ) * self.data_type.spec_default_bit_size() <= usize::MAX
    }
}

impl FullDataType {
    /// The bits a field of this type takes when no length was given.
    pub fn unset_bits(&self) -> (r: usize)
        requires
            self.unset_bits_fit(),
        ensures
            r == self.spec_unset_bits(),
    {
        let base: usize = self.data_type.default_bit_size();
        let mut ty_size: usize = base;
        if let Some(a) = &self.array_spec {
            if !matches!(a.ty, FullDataTypeArraySpecType::Block) {
                let items = &a.sizings;
                let mut k: usize = 0;
                while k < items.len()
                    invariant
                        0 <= k <= items.len(),
                        self.is_element_array(),
                        items@ == self.spec_sizings(),
                        self.unset_bits_fit(),
                        base == self.data_type.spec_default_bit_size(),
                        ty_size == seq_product(items@.take(k as int)) * base,
                    decreases items.len() - k,
                {
                    proof {
                        assert(items@.take(k + 1).drop_last() =~= items@.take(k as int));
                        let p = seq_product(items@.take(k as int));
                        assert(seq_product(items@.take(k + 1)) == p * items@[k as int]);
                        assert(seq_product(items@.take(k + 1)) * base <= usize::MAX);
                        assert(p * base * items@[k as int] == p * items@[k as int] * base)
                            by (nonlinear_arith);
                    }
                    ty_size = ty_size * items[k];
                    k = k + 1;
                }
                proof {
                    assert(items@.take(k as int) =~= items@);
                    let p = seq_product(items@);
                    assert(p * base == base * p) by (nonlinear_arith);
                }
            }
        }
        ty_size
    }
}

impl FullDataType {
    /// Tests `unset_bits_fit`.
    pub fn unset_bits_fit_check(&self) -> (r: bool)
        ensures
            r == self.unset_bits_fit(),
    {
        if let DataType::Nested { rust_byte_size } = self.data_type {
            if rust_byte_size > usize::MAX / 8 {
                return false;
            }
        }
        let base: usize = self.data_type.default_bit_size();
        if let Some(a) = &self.array_spec {
            if !matches!(a.ty, FullDataTypeArraySpecType::Block) {
                let items = &a.sizings;
                let mut acc: usize = base;
                let mut k: usize = 0;
                proof {
                    assert(items@.take(0) =~= Seq::<usize>::empty());
                }
                while k < items.len()
                    invariant
                        0 <= k <= items.len(),
                        self.is_element_array(),
                        items@ == self.spec_sizings(),
                        base == self.data_type.spec_default_bit_size(),
                        acc == seq_product(items@.take(k as int)) * base,
                        forall|j: int| 0 <= j <= k ==> #[trigger] seq_product(items@.take(j)) * base <= usize::MAX,
                    decreases items.len() - k,
                {
                    proof {
                        assert(items@.take(k + 1).drop_last() =~= items@.take(k as int));
                        let p = seq_product(items@.take(k as int));
                        assert(seq_product(items@.take(k + 1)) == p * items@[k as int]);
                        assert(p * base * items@[k as int] == p * items@[k as int] * base) by (nonlinear_arith);
                    }
                    match acc.checked_mul(items[k]) {
                        Some(v) => {
                            acc = v;
                        },
                        None => {
                            return false;
                        },
                    }
                    k = k + 1;
                }
            }
        }
        true
    }
}

impl DataBuilder {
    /// Tests `well_formed`.
    pub fn well_formed_check(&self) -> (r: bool)
        ensures
            r == self.well_formed(),
    {
        if let DataBuilderRange::Range(r) = &self.bit_range {
            if r.start > r.end {
                return false;
            }
        }
        if !self.ty.unset_bits_fit_check() {
            return false;
        }
        if let OverlapOptions::Allow(skip) = self.overlap {
            let length: usize = match &self.bit_range {
                DataBuilderRange::Range(r) => r.end - r.start,
                DataBuilderRange::Size(n) => *n,
                DataBuilderRange::Unset => self.ty.unset_bits(),
            };
            skip <= length
        } else {
            true
        }
    }
}

/// What the user said about a field's bits.
#[derive(Debug)]
pub enum DataBuilderRange {
    /// The exact bits.
    Range(Range<usize>),
    /// A bit length, the field starting where the previous one ended.
    Size(usize),
    /// Nothing: the type's size, starting where the previous field ended.
    Unset,
}

/// A field of a field set as declared.
pub struct DataBuilder {
    pub id: FieldKey,
    pub ty: FullDataType,
    pub bit_range: DataBuilderRange,
    pub endianness: Endianness,
    pub reserve: ReserveFieldOption,
    pub overlap: OverlapOptions,
    pub is_captured_id: bool,
}

impl DataBuilder {
    /// The amount of bits the declared field uses.
    pub fn bit_length(&self) -> (r: usize)
        requires
            self.well_formed(),
        ensures
            r == self.spec_bit_length(),
    {
        match &self.bit_range {
            DataBuilderRange::Range(r) => r.end - r.start,
            DataBuilderRange::Size(n) => *n,
            DataBuilderRange::Unset => self.ty.unset_bits(),
        }
    }

    /// The amount of bits the declared field uses.
    pub open spec fn spec_bit_length(self) -> int {
        match self.bit_range {
            DataBuilderRange::Range(r) => r.end - r.start,
            DataBuilderRange::Size(n) => n as int,
            DataBuilderRange::Unset => self.ty.spec_unset_bits(),
        }
    }

    /// The farthest bit the field can reach past the start it is given.
    pub open spec fn spec_extent(self) -> int {
        match self.bit_range {
            DataBuilderRange::Range(r) => r.end as int,
            DataBuilderRange::Size(n) => n as int,
            DataBuilderRange::Unset => self.ty.spec_unset_bits(),
        }
    }

    /// The declaration can be measured without leaving `usize`.
    pub open spec fn well_formed(self) -> bool {
        &&& (self.bit_range matches DataBuilderRange::Range(r) ==> r.start <= r.end)
        &&& self.ty.unset_bits_fit()
        &&& (self.overlap matches OverlapOptions::Allow(skip) ==> skip <= self.spec_bit_length())
    }
}

} // verus!
