use crate::data::DataBuilder;
use crate::field::OverlapOptions;
use crate::endianness::Endianness;
use vstd::prelude::*;

verus! {

/// An option that can add reserve bits to the end of a field set.
#[derive(Clone, Copy, Debug, PartialEq, Eq)]
pub enum FillBits {
    /// Does not fill bits.
    NoFill,
    /// Fills a specific amount of bits.
    Bits(usize),
    /// Fills bits up until the total amount of bits used is a multiple of 8.
    Auto,
}

impl Default for FillBits {
    fn default() -> (r: Self)
        ensures
            r is NoFill,
    {
        FillBits::NoFill
    }
}

impl FillBits {
    pub fn is_none(&self) -> (r: bool)
        ensures
            r == (*self is NoFill),
    {
        matches!(self, Self::NoFill)
    }

    /// The most bits this option can add.
    pub open spec fn spec_extent(self) -> int {
        match self {
            FillBits::NoFill => 0,
            FillBits::Bits(n) => n as int,
            FillBits::Auto => 7,
        }
    }
}

/// Tells bondrewd to enforce specific rules about the amount of bits used by the entire `field_set`
#[derive(Clone, Copy, Debug, PartialEq, Eq)]
pub enum StructEnforcement {
    /// No enforcement on the amount of bits used by the entire `field_set`
    NoRules,
    /// Enforce the `BIT_SIZE` equals `BYTE_SIZE` * 8
    EnforceFullBytes,
    /// Enforce the amount of bits that need to be used tot a specific value.
    EnforceBitAmount(usize),
}

impl Default for StructEnforcement {
    fn default() -> (r: Self)
        ensures
            r is NoRules,
    {
        StructEnforcement::NoRules
    }
}

/// Attributes that apply to a whole field set.
#[derive(Clone, Copy, Debug)]
pub struct AttrsBuilder {
    /// Imposes checks on the sizing of the `field_set`
    pub enforcement: StructEnforcement,
    pub default_endianness: Endianness,
}

impl Default for AttrsBuilder {
    fn default() -> (r: Self)
        ensures
            r.enforcement is NoRules,
            r.default_endianness == Endianness::nested_spec(),
    {
        AttrsBuilder { enforcement: StructEnforcement::NoRules, default_endianness: Endianness::nested() }
    }
}

/// A builder for a single set of fields (a structure or one enum variant).
pub struct FieldSetBuilder {
    /// the set of fields.
    pub fields: Vec<DataBuilder>,
    /// Tells system to add bits to the end as a reserve field.
    pub fill_bits: FillBits,
    pub attrs: AttrsBuilder,
}


/// The bits that field `f` adds to its field set's size: none for fake fields and redundant
/// fields, its length less the shared bits otherwise.
pub open spec fn counted_bits(f: DataBuilder) -> int {
    if f.reserve.spec_count_bits() {
        match f.overlap {
            OverlapOptions::NoOverlap => f.spec_bit_length(),
            OverlapOptions::Allow(bits) => f.spec_bit_length() - bits,
            OverlapOptions::Redundant => 0,
        }
    } else {
        0
    }
}

/// The bits that the first `n` fields add.
pub open spec fn sum_counted_bits(fields: Seq<DataBuilder>, n: int) -> int
    decreases n,
{
    if n <= 0 {
        0
    } else {
        sum_counted_bits(fields, n - 1) + counted_bits(fields[n - 1])
    }
}

proof fn lemma_counted_prefix(fields: Seq<DataBuilder>, i: int, n: int)
    requires
        0 <= i <= n <= fields.len(),
        forall|k: int| 0 <= k < fields.len() ==> (#[trigger] fields[k]).well_formed(),
    ensures
        0 <= sum_counted_bits(fields, i) <= sum_counted_bits(fields, n),
    decreases n,
{
    if n > 0 {
        let f = fields[n - 1];
        assert(f.well_formed());
        crate::field_set::lemma_unset_bits_nonneg(f);
        if i < n {
            lemma_counted_prefix(fields, i, n - 1);
        } else {
            lemma_counted_prefix(fields, i - 1, n - 1);
        }
    }
}

impl FieldSetBuilder {
    pub fn new() -> (r: Self)
        ensures
            r.fields@.len() == 0,
            r.fill_bits is NoFill,
            r.attrs.enforcement is NoRules,
            r.attrs.default_endianness == Endianness::nested_spec(),
    {
        FieldSetBuilder { fields: Vec::new(), fill_bits: FillBits::NoFill, attrs: AttrsBuilder::default() }
    }

    pub fn add_field(&mut self, new_data: DataBuilder)
        ensures
            final(self).fields@ == old(self).fields@.push(new_data),
            final(self).fill_bits == old(self).fill_bits,
            final(self).attrs == old(self).attrs,
    {
        self.fields.push(new_data);
    }

    pub fn with_field(self, new_data: DataBuilder) -> (r: Self)
        ensures
            r.fields@ == self.fields@.push(new_data),
            r.fill_bits == self.fill_bits,
            r.attrs == self.attrs,
    {
        let mut this = self;
        this.fields.push(new_data);
        this
    }

    /// The bits the declared fields add to the field set's size.
    pub fn bit_length(&self) -> (bl: usize)
        requires
            forall|k: int| 0 <= k < self.fields@.len() ==> (#[trigger] self.fields@[k]).well_formed(),
            sum_counted_bits(self.fields@, self.fields@.len() as int) <= usize::MAX,
        ensures
            bl == sum_counted_bits(self.fields@, self.fields@.len() as int),
    {
        let mut bl: usize = 0;
        let mut i: usize = 0;
        while i < self.fields.len()
            invariant
                i <= self.fields@.len(),
                forall|k: int| 0 <= k < self.fields@.len() ==> (#[trigger] self.fields@[k]).well_formed(),
                sum_counted_bits(self.fields@, self.fields@.len() as int) <= usize::MAX,
                bl == sum_counted_bits(self.fields@, i as int),
            decreases self.fields@.len() - i,
        {
            let f = &self.fields[i];
            proof {
                lemma_counted_prefix(self.fields@, i + 1, self.fields@.len() as int);
                assert(f.well_formed());
            }
            if f.reserve.count_bits() {
                let add: usize = match f.overlap {
                    OverlapOptions::NoOverlap => f.bit_length(),
                    OverlapOptions::Allow(bits) => f.bit_length() - bits,
                    OverlapOptions::Redundant => 0,
                };
                bl = bl + add;
            }
            i = i + 1;
        }
        bl
    }
}

} // verus!
