use crate::endianness::Endianness;
use std::ops::Range;
use crate::text::{decimal, decimal_string};
use vstd::string::StringExecFns;
use vstd::prelude::*;

verus! {

#[derive(Clone, Copy, Debug, PartialEq, Eq)]
pub enum NumberSignage {
    Signed,
    Unsigned,
}

/// Describes when a field is read and written.
#[derive(Clone, Copy, Debug, PartialEq, Eq)]
pub enum ReserveFieldOption {
    /// Do not suppress in `from_bytes` or `into_bytes`.
    NotReserve,
    /// User defined, meaning that the field shall not be written-to or read-from on `into_bytes` or
    /// `from_bytes` calls.
    ReserveField,
    /// used with imaginary fields that bondrewd creates, such as fill_bytes or variant_ids.
    /// these typically do not get any standard generated functions.
    FakeField,
    /// used for enum variant id field
    EnumId,
    /// User defined, meaning that the field shall not be written to on `into_bytes` calls.
    ReadOnly,
}

impl ReserveFieldOption {
    pub open spec fn spec_wants_write_fns(self) -> bool {
        self == ReserveFieldOption::NotReserve
    }

    pub open spec fn spec_wants_read_fns(self) -> bool {
        self == ReserveFieldOption::NotReserve || self == ReserveFieldOption::ReadOnly
    }

    pub open spec fn spec_count_bits(self) -> bool {
        self != ReserveFieldOption::FakeField
    }

    pub open spec fn spec_is_fake_field(self) -> bool {
        self == ReserveFieldOption::EnumId || self == ReserveFieldOption::FakeField
    }

    pub fn wants_write_fns(&self) -> (r: bool)
        ensures
            r == self.spec_wants_write_fns(),
    {
        match self {
            Self::EnumId | Self::ReadOnly | Self::FakeField | Self::ReserveField => false,
            Self::NotReserve => true,
        }
    }

    pub fn wants_read_fns(&self) -> (r: bool)
        ensures
            r == self.spec_wants_read_fns(),
    {
        match self {
            Self::EnumId | Self::FakeField | Self::ReserveField => false,
            Self::NotReserve | Self::ReadOnly => true,
        }
    }

    pub fn count_bits(&self) -> (r: bool)
        ensures
            r == self.spec_count_bits(),
    {
        match self {
            Self::FakeField => false,
            Self::EnumId | Self::ReserveField | Self::NotReserve | Self::ReadOnly => true,
        }
    }

    pub fn is_fake_field(&self) -> (r: bool)
        ensures
            r == self.spec_is_fake_field(),
    {
        match self {
            Self::EnumId | Self::FakeField => true,
            Self::ReserveField | Self::NotReserve | Self::ReadOnly => false,
        }
    }
}

/// A field that gets write functions also gets read functions, and a field that gets
/// read functions is not a fake field.
pub proof fn law_reserve_options_nest(r: ReserveFieldOption)
    ensures
        r.spec_wants_write_fns() ==> r.spec_wants_read_fns(),
        r.spec_wants_read_fns() ==> !r.spec_is_fake_field() && r.spec_count_bits(),
{
}

/// How much a field may share its bits with other fields.
#[derive(Clone, Copy, Debug, PartialEq, Eq)]
pub enum OverlapOptions {
    NoOverlap,
    Allow(usize),
    Redundant,
}

impl OverlapOptions {
    pub fn enabled(&self) -> (r: bool)
        ensures
            r == !(*self is NoOverlap),
    {
        !matches!(self, Self::NoOverlap)
    }

    pub fn is_redundant(&self) -> (r: bool)
        ensures
            r == (*self is Redundant),
    {
        matches!(self, Self::Redundant)
    }
}

/// Whether the bit ranges `a` and `b` are reported as conflicting: one starts at or inside
/// the other, or one ends inside the other.
pub open spec fn ranges_conflict(a: Range<usize>, b: Range<usize>) -> bool {
    ||| (a.start >= b.start && (a.start == b.start || a.start < b.end))
    ||| (b.start >= a.start && (b.start == a.start || b.start < a.end))
    ||| (b.end > a.start && b.end <= a.end)
    ||| (a.end > b.start && a.end <= b.end)
}

/// Whether bit `i` lies in the half-open range `r`.
pub open spec fn in_range(r: Range<usize>, i: int) -> bool {
    r.start <= i < r.end
}

/// For ranges that hold at least one bit each, a conflict is exactly a shared bit.
pub proof fn law_conflict_is_shared_bit(a: Range<usize>, b: Range<usize>)
    requires
        a.start < a.end,
        b.start < b.end,
    ensures
        ranges_conflict(a, b) <==> exists|i: int| #[trigger] in_range(a, i) && in_range(b, i),
        ranges_conflict(a, b) == ranges_conflict(b, a),
{
    if ranges_conflict(a, b) {
        if a.start >= b.start {
            assert(in_range(a, a.start as int) && in_range(b, a.start as int));
        } else {
            assert(in_range(a, b.start as int) && in_range(b, b.start as int));
        }
    }
}

/// Checks two bit ranges the way the solver and the field parser check fields against
/// each other.
pub fn bit_ranges_conflict(a: &Range<usize>, b: &Range<usize>) -> (r: bool)
    ensures
        r == ranges_conflict(*a, *b),
{
    // check that a's start is not within b's range
    if a.start >= b.start && (a.start == b.start || a.start < b.end) {
        return true;
    }
    // check that b's start is not within a's range
    if b.start >= a.start && (b.start == a.start || b.start < a.end) {
        return true;
    }
    if b.end > a.start && b.end <= a.end {
        return true;
    }
    if a.end > b.start && a.end <= b.end {
        return true;
    }
    false
}

/// Placement information of a parsed field.
#[derive(Debug)]
pub struct Attributes {
    pub endianness: Box<Endianness>,
    pub bit_range: Range<usize>,
    pub reserve: ReserveFieldOption,
    pub overlap: OverlapOptions,
    /// This should only ever be true on the Invalid case for enums that what to capture the invalid Id.
    pub capture_id: bool,
}

/// A copy of a bit range.
pub fn copy_range(r: &Range<usize>) -> (c: Range<usize>)
    ensures
        c == *r,
{
    Range { start: r.start, end: r.end }
}

impl Clone for Attributes {
    fn clone(&self) -> (r: Self)
        ensures
            r == *self,
    {
        Attributes {
            endianness: Box::new(*self.endianness),
            bit_range: copy_range(&self.bit_range),
            reserve: self.reserve,
            overlap: self.overlap,
            capture_id: self.capture_id,
        }
    }
}

impl Clone for BuilderRange {
    fn clone(&self) -> (r: Self)
        ensures
            r == *self,
    {
        match self {
            BuilderRange::Range(range) => BuilderRange::Range(copy_range(range)),
            BuilderRange::LastEnd(e) => BuilderRange::LastEnd(*e),
            BuilderRange::Unset => BuilderRange::Unset,
        }
    }
}

impl Attributes {
    /// Returns the amount of bits the field should occupy in byte form.
    pub fn bit_length(&self) -> (r: usize)
        requires
            self.bit_range.start <= self.bit_range.end,
        ensures
            r == self.bit_range.end - self.bit_range.start,
    {
        self.bit_range.end - self.bit_range.start
    }

    /// Returns `true` if the two fields contain bits that overlap, which is never the case
    /// when either of them allows overlapping.
    pub fn overlapping(&self, other: &Self) -> (r: bool)
        ensures
            r == (self.overlap is NoOverlap && other.overlap is NoOverlap && ranges_conflict(
                self.bit_range,
                other.bit_range,
            )),
    {
        if self.overlap.enabled() || other.overlap.enabled() {
            return false;
        }
        bit_ranges_conflict(&self.bit_range, &other.bit_range)
    }

    /// How many of the field's bits count toward the structure's size.
    pub open spec fn spec_bit_size(self) -> int {
        match self.overlap {
            OverlapOptions::Redundant => 0,
            OverlapOptions::Allow(skip) => self.bit_range.end - self.bit_range.start - skip,
            OverlapOptions::NoOverlap => self.bit_range.end - self.bit_range.start,
        }
    }

    /// this returns how many bits of the fields pertain to total structure bits.
    /// where as `bit_length()` give you bits the fields actually needs.
    pub fn bit_size(&self) -> (r: usize)
        requires
            self.spec_bit_size() >= 0,
            self.bit_range.start <= self.bit_range.end,
        ensures
            r == self.spec_bit_size(),
    {
        match self.overlap {
            OverlapOptions::Redundant => 0,
            OverlapOptions::Allow(skip) => (self.bit_range.end - self.bit_range.start) - skip,
            OverlapOptions::NoOverlap => self.bit_range.end - self.bit_range.start,
        }
    }

    /// Like `bit_size`, but fields that do not count bits (fill fields) give zero.
    pub fn bit_size_no_fill(&self) -> (r: usize)
        requires
            self.spec_bit_size() >= 0,
            self.bit_range.start <= self.bit_range.end,
        ensures
            r == if self.reserve.spec_count_bits() {
                self.spec_bit_size()
            } else {
                0
            },
    {
        if !self.reserve.count_bits() {
            return 0;
        }
        self.bit_size()
    }
}

/// What is left of a field's attributes when no bit range could be determined for it.
pub struct TryFromAttrBuilderError {
    pub endianness: Box<Endianness>,
    pub reserve: ReserveFieldOption,
    pub overlap: OverlapOptions,
    pub capture_id: bool,
}

impl TryFromAttrBuilderError {
    /// Completes the attributes with the bit range that was determined later.
    pub fn fix(self, bit_range: Range<usize>) -> (r: Attributes)
        ensures
            r.endianness == self.endianness,
            r.bit_range == bit_range,
            r.reserve == self.reserve,
            r.overlap == self.overlap,
            r.capture_id == self.capture_id,
    {
        Attributes {
            endianness: self.endianness,
            bit_range,
            reserve: self.reserve,
            overlap: self.overlap,
            capture_id: self.capture_id,
        }
    }
}

/// The bit range of a field while its attributes are parsed.
#[derive(Debug)]
pub enum BuilderRange {
    /// a range of bits to use.
    Range(Range<usize>),
    /// used to pass on the last starting location to another part to figure out.
    LastEnd(usize),
    Unset,
}

impl Default for BuilderRange {
    fn default() -> (r: Self)
        ensures
            r is Unset,
    {
        Self::Unset
    }
}

/// The bits of a field that lie in a single byte: `start..=last` as global bit indices.
#[derive(Clone, Copy, Debug, PartialEq, Eq)]
pub struct ByteBitRange {
    pub start: usize,
    pub last: usize,
}

/// The number of bits in the inclusive ranges `ranges`.
pub open spec fn inclusive_ranges_bits(ranges: Seq<ByteBitRange>) -> int
    decreases ranges.len(),
{
    if ranges.len() == 0 {
        0
    } else {
        inclusive_ranges_bits(ranges.drop_last()) + (ranges.last().last - ranges.last().start + 1)
    }
}

pub struct FieldBits {
    /// A list of each bit range for the field. each bit range should pertain to a single byte. the first
    /// element SHALL be the lowest byte index, and the last element SHALL be the highest byte index.
    pub ranges: Vec<ByteBitRange>,
}

impl FieldBits {
    pub fn count(&self) -> (c: usize)
        requires
            forall|i: int| 0 <= i < self.ranges.len() ==> #[trigger] self.ranges[i].start <= self.ranges[i].last,
            inclusive_ranges_bits(self.ranges@) <= usize::MAX,
        ensures
            c == inclusive_ranges_bits(self.ranges@),
    {
        let mut c: usize = 0;
        let mut i: usize = 0;
        while i < self.ranges.len()
            invariant
                i <= self.ranges.len(),
                forall|j: int| 0 <= j < self.ranges.len() ==> #[trigger] self.ranges[j].start <= self.ranges[j].last,
                inclusive_ranges_bits(self.ranges@) <= usize::MAX,
                c == inclusive_ranges_bits(self.ranges@.take(i as int)),
            decreases self.ranges.len() - i,
        {
            let r = self.ranges[i];
            proof {
                assert(self.ranges@.take(i + 1).drop_last() =~= self.ranges@.take(i as int));
                lemma_inclusive_ranges_bits_prefix(self.ranges@, i + 1);
            }
            c = c + (r.last - r.start + 1);
            i = i + 1;
        }
        assert(self.ranges@.take(i as int) =~= self.ranges@);
        c
    }
}

proof fn lemma_inclusive_ranges_bits_prefix(s: Seq<ByteBitRange>, n: int)
    requires
        0 <= n <= s.len(),
        forall|j: int| 0 <= j < s.len() ==> #[trigger] s[j].start <= s[j].last,
    ensures
        inclusive_ranges_bits(s.take(n)) <= inclusive_ranges_bits(s),
    decreases s.len(),
{
    if n < s.len() {
        assert(s.drop_last().take(n) =~= s.take(n));
        lemma_inclusive_ranges_bits_prefix(s.drop_last(), n);
    } else {
        assert(s.take(n) =~= s);
    }
}

/// The name of the `index`-th field of a tuple structure: `field_` followed by the index.
pub open spec fn tuple_field_name(index: usize) -> Seq<char> {
    "field_"@ + decimal(index as nat)
}

/// Writes a tuple field's name.
fn format_tuple_field_name(index: usize) -> (s: String)
    ensures
        s@ == tuple_field_name(index),
{
    String::from_str("field_").concat(decimal_string(index).as_str())
}

/// A field is named or, in a tuple structure, known by its index.
pub enum NameOrIndex {
    Name(String),
    Index(usize),
}

impl NameOrIndex {
    pub fn field_name(&self) -> (r: String)
        ensures
            match self {
                NameOrIndex::Name(name) => r@ == name@,
                NameOrIndex::Index(index) => r@ == tuple_field_name(*index),
            },
    {
        match self {
            NameOrIndex::Name(name) => name.clone(),
            NameOrIndex::Index(index) => format_tuple_field_name(*index),
        }
    }
}

pub struct StructAttributes {
    pub endianess: Endianness,
}

pub struct FieldAttributes {
    pub name: NameOrIndex,
    pub bits: FieldBits,
    pub little_endian: bool,
}

impl FieldAttributes {
    pub fn is_little_endian(&self) -> (r: bool)
        ensures
            r == self.little_endian,
    {
        self.little_endian
    }
}

} // verus!
