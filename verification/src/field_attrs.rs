use crate::endianness::Endianness;
use crate::field::{Attributes, BuilderRange, OverlapOptions, ReserveFieldOption, TryFromAttrBuilderError};
use crate::object_attrs::{lowercase_of, spec_endianness_name, endianness_from_string, str_eq};
use crate::text::parsed_usize;
use std::ops::Range;
use vstd::prelude::*;

verus! {

/// Calls `str::parse::<usize>`, which accepts an optional `+` followed by decimal digits
/// alone whose value fits a `usize`.
#[verifier::external_body]
fn parse_usize(s: &str) -> (r: Option<usize>)
    ensures
        r == parsed_usize(s@),
{
    s.parse::<usize>().ok()
}

/// The first position at or after `from` where `..` starts in `s`.
pub open spec fn first_dots(s: Seq<char>, from: int) -> Option<int>
    decreases s.len() - from,
{
    if from < 0 || from + 1 >= s.len() {
        None
    } else if s[from] == '.' && s[from + 1] == '.' {
        Some(from)
    } else {
        first_dots(s, from + 1)
    }
}

proof fn lemma_first_dots_bounds(s: Seq<char>, from: int)
    requires
        0 <= from,
    ensures
        first_dots(s, from) matches Some(p) ==> from <= p && p + 1 < s.len() && s[p] == '.' && s[p + 1] == '.',
    decreases s.len() - from,
{
    if from + 1 < s.len() && !(s[from] == '.' && s[from + 1] == '.') {
        lemma_first_dots_bounds(s, from + 1);
    }
}

/// Finds where `..` first starts in `s` at or after `from`.
fn find_dots(s: &str, from: usize) -> (r: Option<usize>)
    ensures
        r matches Some(p) ==> first_dots(s@, from as int) == Some(p as int),
        r is None ==> first_dots(s@, from as int) is None,
{
    let n = s.unicode_len();
    let mut i = from;
    while i < n && i + 1 < n
        invariant
            n == s@.len(),
            from <= i,
            first_dots(s@, from as int) == first_dots(s@, i as int),
        decreases n - i,
    {
        if s.get_char(i) == '.' && s.get_char(i + 1) == '.' {
            return Some(i);
        }
        i = i + 1;
    }
    None
}

/// Whether `c` occurs in `s`.
fn contains_char(s: &str, c: char) -> (r: bool)
    ensures
        r == s@.contains(c),
{
    let n = s.unicode_len();
    let mut i: usize = 0;
    while i < n
        invariant
            n == s@.len(),
            i <= n,
            forall|j: int| 0 <= j < i ==> s@[j] != c,
        decreases n - i,
    {
        if s.get_char(i) == c {
            assert(s@[i as int] == c);
            return true;
        }
        i = i + 1;
    }
    false
}

/// What a `bits = "START..END"` text gives.
#[derive(Clone, Copy, Debug, PartialEq, Eq)]
pub enum BitsText {
    /// Both ends read.
    Range(usize, usize),
    /// The text does not split into exactly two parts at `..`; it is set aside.
    Ignored,
    /// The start was read, the end was not; `has_equals` when the end holds `=`.
    BadEnd { has_equals: bool },
    /// The end was read, the start was not.
    BadStart,
    /// Neither end was read.
    BadBoth,
}

/// The parts of `s` split at `..`, when there are exactly two.
pub open spec fn spec_split_dots(s: Seq<char>) -> Option<(Seq<char>, Seq<char>)> {
    match first_dots(s, 0) {
        None => None,
        Some(p) => {
            let rest = s.subrange(p + 2, s.len() as int);
            if first_dots(rest, 0) is Some {
                None
            } else {
                Some((s.subrange(0, p), rest))
            }
        },
    }
}

/// What a `bits` text gives.
pub open spec fn spec_bits_text(s: Seq<char>) -> BitsText {
    match spec_split_dots(s) {
        None => BitsText::Ignored,
        Some((a, b)) => match (parsed_usize(a), parsed_usize(b)) {
            (Some(start), Some(end)) => BitsText::Range(start, end),
            (Some(_), None) => BitsText::BadEnd { has_equals: b.contains('=') },
            (None, Some(_)) => BitsText::BadStart,
            (None, None) => BitsText::BadBoth,
        },
    }
}

/// Reads a `bits` text: splits it at `..` and reads both ends as numbers.
pub fn read_bits_text(s: &str) -> (r: BitsText)
    ensures
        r == spec_bits_text(s@),
{
    let n = s.unicode_len();
    let p = match find_dots(s, 0) {
        Some(p) => p,
        None => {
            return BitsText::Ignored;
        },
    };
    proof {
        lemma_first_dots_bounds(s@, 0);
    }
    let rest = s.substring_char(p + 2, n);
    if find_dots(rest, 0).is_some() {
        return BitsText::Ignored;
    }
    let first = s.substring_char(0, p);
    match (parse_usize(first), parse_usize(rest)) {
        (Some(start), Some(end)) => BitsText::Range(start, end),
        (Some(_), None) => BitsText::BadEnd { has_equals: contains_char(rest, '=') },
        (None, Some(_)) => BitsText::BadStart,
        (None, None) => BitsText::BadBoth,
    }
}


/// The type a field's attributes give it while they are read.
#[derive(Debug, PartialEq, Eq)]
pub enum AttrBuilderType {
    /// No type attribute yet.
    NoType,
    /// A nested bitfield of this many bytes.
    Struct(usize),
    /// An enum stored in an unsigned primitive of this many bytes.
    Enum(usize),
    /// An element array: the bits of each element and the element type, if one was given.
    ElementArray(usize, Box<Option<AttrBuilderType>>),
    /// A block array and the element type, if one was given.
    BlockArray(Box<Option<AttrBuilderType>>),
}

/// A field's attributes while they are read.
pub struct AttrBuilder {
    pub endianness: Endianness,
    pub bit_range: BuilderRange,
    pub ty: AttrBuilderType,
    pub reserve: ReserveFieldOption,
    pub overlap: OverlapOptions,
    /// This should only ever be true when it the first field in a variant of an enum.
    pub capture_id: bool,
}

/// One end of a range literal.
#[derive(Debug, PartialEq, Eq)]
pub enum RangeBound {
    Missing,
    /// An integer literal, read as a `usize` or with the text of why it could not be.
    Int(Result<usize, String>),
    /// A literal that is not an integer.
    NotInteger,
    /// An expression that is not a literal.
    NotLiteral,
}

/// A range written in an attribute: `START..END` or, `closed`, `START..=END`.
#[derive(Debug, PartialEq, Eq)]
pub struct LitRange {
    pub start: RangeBound,
    pub end: RangeBound,
    pub closed: bool,
}

/// The value side of a `name = value` attribute.
#[derive(Debug, PartialEq, Eq)]
pub enum MetaValue {
    /// A string literal.
    Str(String),
    /// An integer literal, read as a `usize` or with the text of why it could not be.
    Int(Result<usize, String>),
    /// A range expression.
    Range(LitRange),
    /// Anything else.
    Other,
}

/// One field attribute; a name is absent when the path is not a single identifier.
#[derive(Debug, PartialEq, Eq)]
pub enum FieldMeta {
    NameValue { name: Option<String>, value: MetaValue },
    Path { name: Option<String> },
    List,
}

/// What the field before this one tells: where it ended and whether it is an enum's id field.
#[derive(Clone, Copy, Debug, PartialEq, Eq)]
pub struct LastField {
    pub end: usize,
    pub is_variant_id: bool,
}

/// The field attributes that take a value.
#[derive(Clone, Copy, Debug, PartialEq, Eq, Structural)]
pub enum FieldAttrName {
    Endianness,
    BitLength,
    ByteLength,
    EnumPrimitive,
    StructSize,
    Bits,
    ElementBitLength,
    ElementByteLength,
    BlockBitLength,
    BlockByteLength,
    OverlappingBits,
}

/// What is wrong with an end of a range literal.
#[derive(Debug, PartialEq, Eq)]
pub enum RangeProblem {
    Missing,
    NotInteger,
    NotLiteral,
    NotUsize(String),
}

/// Why a field's attributes were refused.
#[derive(Debug, PartialEq, Eq)]
pub enum FieldAttrError {
    /// The attribute needs a string literal.
    ExpectedStr(FieldAttrName),
    /// The attribute needs an integer literal.
    ExpectedInt(FieldAttrName),
    /// The integer could not be read as a `usize`; the text says why.
    NotUsize(FieldAttrName, String),
    UnknownEndianness,
    /// `bit_length` or `byte_length` given when the bits are already known.
    LengthTwice(FieldAttrName),
    /// A second type attribute.
    TypeTwice,
    UnknownEnumPrimitive,
    /// `bits` given when the bits are already known.
    BitsTwice,
    /// An end of a `bits` range literal; `end` for the upper end.
    BitsRangeEnd { end: bool, problem: RangeProblem },
    /// A `bits` text whose end holds `=`.
    BitsTextDeprecated,
    BitsTextBadEnd,
    BitsTextBadStart,
    BitsTextBadBoth,
    /// `bits` without a range.
    BitsNotRange,
    /// An array attribute met a range without an end.
    NoEndWithArray(FieldAttrName),
    /// A block array's length differs from the bits already given.
    BlockLengthMismatch(FieldAttrName),
    /// An attribute no field takes.
    NotValidAttribute(String),
    /// `capture_id` not on the first field of an enum variant.
    CaptureIdNotFirst,
    /// A list attribute.
    ListAttribute,
}

impl AttrBuilder {
    pub fn new() -> (r: Self)
        ensures
            r.endianness == Endianness::nested_spec(),
            r.bit_range is Unset,
            r.ty == AttrBuilderType::NoType,
            r.reserve == ReserveFieldOption::NotReserve,
            r.overlap == OverlapOptions::NoOverlap,
            !r.capture_id,
    {
        Self {
            endianness: Endianness::nested(),
            bit_range: BuilderRange::Unset,
            ty: AttrBuilderType::NoType,
            reserve: ReserveFieldOption::NotReserve,
            overlap: OverlapOptions::NoOverlap,
            capture_id: false,
        }
    }
}

/// The attribute a name stands for, if it takes a value.
pub open spec fn spec_value_attr(n: Seq<char>) -> Option<FieldAttrName> {
    if n == "endianness"@ {
        Some(FieldAttrName::Endianness)
    } else if n == "bit_length"@ {
        Some(FieldAttrName::BitLength)
    } else if n == "byte_length"@ {
        Some(FieldAttrName::ByteLength)
    } else if n == "enum_primitive"@ {
        Some(FieldAttrName::EnumPrimitive)
    } else if n == "struct_size"@ {
        Some(FieldAttrName::StructSize)
    } else if n == "bits"@ {
        Some(FieldAttrName::Bits)
    } else if n == "element_bit_length"@ {
        Some(FieldAttrName::ElementBitLength)
    } else if n == "element_byte_length"@ {
        Some(FieldAttrName::ElementByteLength)
    } else if n == "block_bit_length"@ {
        Some(FieldAttrName::BlockBitLength)
    } else if n == "block_byte_length"@ {
        Some(FieldAttrName::BlockByteLength)
    } else if n == "overlapping_bits"@ {
        Some(FieldAttrName::OverlappingBits)
    } else {
        None
    }
}

fn value_attr(n: &str) -> (r: Option<FieldAttrName>)
    ensures
        r == spec_value_attr(n@),
{
    if str_eq(n, "endianness") {
        Some(FieldAttrName::Endianness)
    } else if str_eq(n, "bit_length") {
        Some(FieldAttrName::BitLength)
    } else if str_eq(n, "byte_length") {
        Some(FieldAttrName::ByteLength)
    } else if str_eq(n, "enum_primitive") {
        Some(FieldAttrName::EnumPrimitive)
    } else if str_eq(n, "struct_size") {
        Some(FieldAttrName::StructSize)
    } else if str_eq(n, "bits") {
        Some(FieldAttrName::Bits)
    } else if str_eq(n, "element_bit_length") {
        Some(FieldAttrName::ElementBitLength)
    } else if str_eq(n, "element_byte_length") {
        Some(FieldAttrName::ElementByteLength)
    } else if str_eq(n, "block_bit_length") {
        Some(FieldAttrName::BlockBitLength)
    } else if str_eq(n, "block_byte_length") {
        Some(FieldAttrName::BlockByteLength)
    } else if str_eq(n, "overlapping_bits") {
        Some(FieldAttrName::OverlappingBits)
    } else {
        None
    }
}

/// The size in bytes of the unsigned primitive a lower case `enum_primitive` names.
pub open spec fn spec_enum_primitive(lower: Seq<char>) -> Option<usize> {
    if lower == "u8"@ {
        Some(1usize)
    } else if lower == "u16"@ {
        Some(2usize)
    } else if lower == "u32"@ {
        Some(4usize)
    } else if lower == "u64"@ {
        Some(8usize)
    } else if lower == "u128"@ {
        Some(16usize)
    } else {
        None
    }
}


fn enum_primitive(lower: &str) -> (r: Option<usize>)
    ensures
        r == spec_enum_primitive(lower@),
{
    if str_eq(lower, "u8") {
        Some(1)
    } else if str_eq(lower, "u16") {
        Some(2)
    } else if str_eq(lower, "u32") {
        Some(4)
    } else if str_eq(lower, "u64") {
        Some(8)
    } else if str_eq(lower, "u128") {
        Some(16)
    } else {
        None
    }
}

/// Where a field starts when it follows `last`.
pub open spec fn start_after(last: Option<LastField>) -> int {
    match last {
        Some(l) => l.end as int,
        None => 0,
    }
}

/// An element array of `bits`-bit elements of the type given so far.
pub open spec fn element_array_of(ty: AttrBuilderType, bits: usize) -> AttrBuilderType {
    match ty {
        AttrBuilderType::Struct(_) | AttrBuilderType::Enum(_) => AttrBuilderType::ElementArray(bits, Box::new(Some(ty))),
        _ => AttrBuilderType::ElementArray(bits, Box::new(None)),
    }
}

/// A block array of the type given so far.
pub open spec fn block_array_of(ty: AttrBuilderType) -> AttrBuilderType {
    match ty {
        AttrBuilderType::Struct(_) | AttrBuilderType::Enum(_) => AttrBuilderType::BlockArray(Box::new(Some(ty))),
        _ => AttrBuilderType::BlockArray(Box::new(None)),
    }
}

/// An integer value of an attribute.
pub open spec fn spec_int(attr: FieldAttrName, value: MetaValue) -> Result<usize, FieldAttrError> {
    match value {
        MetaValue::Int(Ok(x)) => Ok(x),
        MetaValue::Int(Err(t)) => Err(FieldAttrError::NotUsize(attr, t)),
        _ => Err(FieldAttrError::ExpectedInt(attr)),
    }
}

/// One end of a `bits` range literal.
pub open spec fn spec_range_bound(b: RangeBound, end: bool) -> Result<usize, FieldAttrError> {
    match b {
        RangeBound::Int(Ok(v)) => Ok(v),
        RangeBound::Int(Err(t)) => Err(FieldAttrError::BitsRangeEnd { end, problem: RangeProblem::NotUsize(t) }),
        RangeBound::Missing => Err(FieldAttrError::BitsRangeEnd { end, problem: RangeProblem::Missing }),
        RangeBound::NotInteger => Err(FieldAttrError::BitsRangeEnd { end, problem: RangeProblem::NotInteger }),
        RangeBound::NotLiteral => Err(FieldAttrError::BitsRangeEnd { end, problem: RangeProblem::NotLiteral }),
    }
}

/// The bits a range literal names: `START..END`, or `START..=END` up to and with `END`.
pub open spec fn spec_lit_range(lr: LitRange) -> Result<Range<usize>, FieldAttrError> {
    match spec_range_bound(lr.start, false) {
        Err(e) => Err(e),
        Ok(start) => match spec_range_bound(lr.end, true) {
            Err(e) => Err(e),
            Ok(end) => Ok(
                if lr.closed {
                    Range { start, end: (end + 1) as usize }
                } else {
                    Range { start, end }
                },
            ),
        },
    }
}

/// What a `name = value` attribute does to the field's attributes so far: the attributes
/// after it (including what changed before an error) and whether it was accepted.
pub open spec fn spec_value_step(attr: FieldAttrName, value: MetaValue, last: Option<LastField>, b: AttrBuilder) -> (AttrBuilder, Result<(), FieldAttrError>) {
    let ok = Ok::<(), FieldAttrError>(());
    let start = start_after(last);
    match attr {
        FieldAttrName::Endianness => match value {
            MetaValue::Str(s) => match spec_endianness_name(lowercase_of(s@)) {
                Some(e) => (AttrBuilder { endianness: e, ..b }, ok),
                None => (b, Err(FieldAttrError::UnknownEndianness)),
            },
            _ => (b, Err(FieldAttrError::ExpectedStr(attr))),
        },
        FieldAttrName::BitLength | FieldAttrName::ByteLength => if b.bit_range is Unset {
            match spec_int(attr, value) {
                Ok(x) => {
                    let bits = if attr == FieldAttrName::BitLength { x as int } else { x * 8 };
                    (AttrBuilder { bit_range: BuilderRange::Range(Range { start: start as usize, end: (start + bits) as usize }), ..b }, ok)
                },
                Err(e) => (b, Err(e)),
            }
        } else {
            (b, Err(FieldAttrError::LengthTwice(attr)))
        },
        FieldAttrName::EnumPrimitive => if !(b.ty is NoType) {
            (b, Err(FieldAttrError::TypeTwice))
        } else {
            match value {
                MetaValue::Str(s) => match spec_enum_primitive(lowercase_of(s@)) {
                    Some(n) => (AttrBuilder { ty: AttrBuilderType::Enum(n), ..b }, ok),
                    None => (b, Err(FieldAttrError::UnknownEnumPrimitive)),
                },
                _ => (b, Err(FieldAttrError::ExpectedStr(attr))),
            }
        },
        FieldAttrName::StructSize => if !(b.ty is NoType) {
            (b, Err(FieldAttrError::TypeTwice))
        } else {
            match spec_int(attr, value) {
                Ok(x) => (AttrBuilder { ty: AttrBuilderType::Struct(x), ..b }, ok),
                Err(e) => (b, Err(e)),
            }
        },
        FieldAttrName::Bits => if !(b.bit_range is Unset) {
            (b, Err(FieldAttrError::BitsTwice))
        } else {
            match value {
                MetaValue::Range(lr) => match spec_lit_range(lr) {
                    Ok(r) => (AttrBuilder { bit_range: BuilderRange::Range(r), ..b }, ok),
                    Err(e) => (b, Err(e)),
                },
                MetaValue::Str(s) => match spec_bits_text(s@) {
                    BitsText::Range(a, c) => (AttrBuilder { bit_range: BuilderRange::Range(Range { start: a, end: c }), ..b }, ok),
                    BitsText::Ignored => (b, ok),
                    BitsText::BadEnd { has_equals } => (b, Err(if has_equals { FieldAttrError::BitsTextDeprecated } else { FieldAttrError::BitsTextBadEnd })),
                    BitsText::BadStart => (b, Err(FieldAttrError::BitsTextBadStart)),
                    BitsText::BadBoth => (b, Err(FieldAttrError::BitsTextBadBoth)),
                },
                _ => (b, Err(FieldAttrError::BitsNotRange)),
            }
        },
        FieldAttrName::ElementBitLength | FieldAttrName::ElementByteLength => match spec_int(attr, value) {
            Err(e) => (b, Err(e)),
            Ok(x) => {
                let bits = (if attr == FieldAttrName::ElementBitLength { x as int } else { x * 8 }) as usize;
                match b.bit_range {
                    BuilderRange::Unset => (AttrBuilder { ty: element_array_of(b.ty, bits), bit_range: BuilderRange::LastEnd(start as usize), ..b }, ok),
                    BuilderRange::Range(r) => (AttrBuilder { ty: element_array_of(b.ty, bits), bit_range: BuilderRange::Range(r), ..b }, ok),
                    BuilderRange::LastEnd(_) => (AttrBuilder { bit_range: BuilderRange::Unset, ..b }, Err(FieldAttrError::NoEndWithArray(attr))),
                }
            },
        },
        FieldAttrName::BlockBitLength | FieldAttrName::BlockByteLength => match spec_int(attr, value) {
            Err(e) => (b, Err(e)),
            Ok(x) => {
                let bits = if attr == FieldAttrName::BlockBitLength { x as int } else { x * 8 };
                match b.bit_range {
                    BuilderRange::Unset => (AttrBuilder { ty: block_array_of(b.ty), bit_range: BuilderRange::Range(Range { start: start as usize, end: (start + bits) as usize }), ..b }, ok),
                    BuilderRange::Range(r) => if r.end - r.start == bits {
                        (AttrBuilder { ty: block_array_of(b.ty), bit_range: BuilderRange::Range(r), ..b }, ok)
                    } else {
                        (AttrBuilder { ty: block_array_of(b.ty), bit_range: BuilderRange::Unset, ..b }, Err(FieldAttrError::BlockLengthMismatch(attr)))
                    },
                    BuilderRange::LastEnd(_) => (AttrBuilder { bit_range: BuilderRange::Unset, ..b }, Err(FieldAttrError::NoEndWithArray(attr))),
                }
            },
        },
        FieldAttrName::OverlappingBits => match spec_int(attr, value) {
            Ok(x) => (AttrBuilder { overlap: OverlapOptions::Allow(x), ..b }, ok),
            Err(e) => (b, Err(e)),
        },
    }
}

/// What one field attribute does to the field's attributes so far: the attributes after it
/// (including what changed before an error) and whether it was accepted. Unknown names are
/// refused, except `doc`; paths that are not a single name are passed over.
pub open spec fn spec_parse_meta(meta: FieldMeta, last: Option<LastField>, b: AttrBuilder) -> (AttrBuilder, Result<(), FieldAttrError>) {
    let ok = Ok::<(), FieldAttrError>(());
    match meta {
        FieldMeta::NameValue { name: Some(n), value } => match spec_value_attr(n@) {
            Some(attr) => spec_value_step(attr, value, last, b),
            None => if n@ == "doc"@ {
                (b, ok)
            } else {
                (b, Err(FieldAttrError::NotValidAttribute(n)))
            },
        },
        FieldMeta::NameValue { name: None, .. } => (b, ok),
        FieldMeta::Path { name: Some(n) } => if n@ == "reserve"@ {
            (AttrBuilder { reserve: ReserveFieldOption::ReserveField, ..b }, ok)
        } else if n@ == "read_only"@ {
            (AttrBuilder { reserve: ReserveFieldOption::ReadOnly, ..b }, ok)
        } else if n@ == "capture_id"@ {
            if last matches Some(l) && l.is_variant_id {
                (AttrBuilder { capture_id: true, ..b }, ok)
            } else {
                (b, Err(FieldAttrError::CaptureIdNotFirst))
            }
        } else if n@ == "redundant"@ {
            (AttrBuilder { overlap: OverlapOptions::Redundant, reserve: ReserveFieldOption::ReadOnly, ..b }, ok)
        } else if n@ == "doc"@ {
            (b, ok)
        } else {
            (b, Err(FieldAttrError::NotValidAttribute(n)))
        },
        FieldMeta::Path { name: None } => (b, ok),
        FieldMeta::List => (b, Err(FieldAttrError::ListAttribute)),
    }
}

/// The sums and differences an attribute makes stay inside `usize`.
pub open spec fn meta_fits(meta: FieldMeta, last: Option<LastField>, b: AttrBuilder) -> bool {
    let start = start_after(last);
    match meta {
        FieldMeta::NameValue { name: Some(n), value: MetaValue::Int(Ok(x)) } => match spec_value_attr(n@) {
            Some(FieldAttrName::BitLength) => b.bit_range is Unset ==> start + x <= usize::MAX,
            Some(FieldAttrName::ByteLength) => b.bit_range is Unset ==> start + x * 8 <= usize::MAX,
            Some(FieldAttrName::ElementByteLength) => !(b.bit_range is LastEnd) ==> x * 8 <= usize::MAX,
            Some(FieldAttrName::BlockBitLength) => {
                &&& b.bit_range is Unset ==> start + x <= usize::MAX
                &&& b.bit_range matches BuilderRange::Range(r) ==> r.start <= r.end
            },
            Some(FieldAttrName::BlockByteLength) => {
                &&& !(b.bit_range is LastEnd) ==> x * 8 <= usize::MAX
                &&& b.bit_range is Unset ==> start + x * 8 <= usize::MAX
                &&& b.bit_range matches BuilderRange::Range(r) ==> r.start <= r.end
            },
            _ => true,
        },
        FieldMeta::NameValue { name: Some(n), value: MetaValue::Range(lr) } => (spec_value_attr(n@) == Some(FieldAttrName::Bits)
            && b.bit_range is Unset && lr.closed && lr.start matches RangeBound::Int(Ok(_))) ==> (lr.end matches RangeBound::Int(Ok(e)) ==> e < usize::MAX),
        _ => true,
    }
}


fn int_value(attr: FieldAttrName, value: &MetaValue) -> (r: Result<usize, FieldAttrError>)
    ensures
        r == spec_int(attr, *value),
{
    match value {
        MetaValue::Int(Ok(x)) => Ok(*x),
        MetaValue::Int(Err(t)) => Err(FieldAttrError::NotUsize(attr, t.clone())),
        _ => Err(FieldAttrError::ExpectedInt(attr)),
    }
}

fn range_bound(b: &RangeBound, end: bool) -> (r: Result<usize, FieldAttrError>)
    ensures
        r == spec_range_bound(*b, end),
{
    match b {
        RangeBound::Int(Ok(v)) => Ok(*v),
        RangeBound::Int(Err(t)) => Err(FieldAttrError::BitsRangeEnd { end, problem: RangeProblem::NotUsize(t.clone()) }),
        RangeBound::Missing => Err(FieldAttrError::BitsRangeEnd { end, problem: RangeProblem::Missing }),
        RangeBound::NotInteger => Err(FieldAttrError::BitsRangeEnd { end, problem: RangeProblem::NotInteger }),
        RangeBound::NotLiteral => Err(FieldAttrError::BitsRangeEnd { end, problem: RangeProblem::NotLiteral }),
    }
}

/// Reads a range literal: the start, then the end, each an integer.
pub fn get_lit_range(lr: &LitRange) -> (r: Result<Range<usize>, FieldAttrError>)
    requires
        (lr.closed && lr.start matches RangeBound::Int(Ok(_))) ==> (lr.end matches RangeBound::Int(Ok(e)) ==> e < usize::MAX),
    ensures
        r == spec_lit_range(*lr),
{
    let start = match range_bound(&lr.start, false) {
        Ok(v) => v,
        Err(e) => {
            return Err(e);
        },
    };
    let end = match range_bound(&lr.end, true) {
        Ok(v) => v,
        Err(e) => {
            return Err(e);
        },
    };
    if lr.closed {
        Ok(Range { start, end: end + 1 })
    } else {
        Ok(Range { start, end })
    }
}

fn start_after_exec(last: Option<LastField>) -> (r: usize)
    ensures
        r == start_after(last),
{
    match last {
        Some(l) => l.end,
        None => 0,
    }
}

/// Turns the type given so far into the element type of an array: element arrays keep
/// `bits` per element.
fn make_array_type(builder: &mut AttrBuilder, element_bits: Option<usize>)
    ensures
        final(builder).ty == match element_bits {
            Some(bits) => element_array_of(old(builder).ty, bits),
            None => block_array_of(old(builder).ty),
        },
        final(builder).bit_range == old(builder).bit_range,
        final(builder).endianness == old(builder).endianness,
        final(builder).reserve == old(builder).reserve,
        final(builder).overlap == old(builder).overlap,
        final(builder).capture_id == old(builder).capture_id,
{
    let mut old_ty = AttrBuilderType::NoType;
    std::mem::swap(&mut old_ty, &mut builder.ty);
    let inner: Option<AttrBuilderType> = match old_ty {
        AttrBuilderType::Struct(n) => Some(AttrBuilderType::Struct(n)),
        AttrBuilderType::Enum(n) => Some(AttrBuilderType::Enum(n)),
        _ => None,
    };
    builder.ty = match element_bits {
        Some(bits) => AttrBuilderType::ElementArray(bits, Box::new(inner)),
        None => AttrBuilderType::BlockArray(Box::new(inner)),
    };
}

/// Takes the bit range out, leaving it unset.
fn take_bit_range(builder: &mut AttrBuilder) -> (r: BuilderRange)
    ensures
        r == old(builder).bit_range,
        final(builder).bit_range is Unset,
        final(builder).ty == old(builder).ty,
        final(builder).endianness == old(builder).endianness,
        final(builder).reserve == old(builder).reserve,
        final(builder).overlap == old(builder).overlap,
        final(builder).capture_id == old(builder).capture_id,
{
    let mut taken = BuilderRange::Unset;
    std::mem::swap(&mut taken, &mut builder.bit_range);
    taken
}

/// Applies a `name = value` attribute that the name `attr` stands for.
fn value_step(attr: FieldAttrName, value: &MetaValue, last: Option<LastField>, builder: &mut AttrBuilder) -> (r: Result<(), FieldAttrError>)
    requires
        ({
            let start = start_after(last);
            let b = *old(builder);
            match *value {
                MetaValue::Int(Ok(x)) => match attr {
                    FieldAttrName::BitLength => b.bit_range is Unset ==> start + x <= usize::MAX,
                    FieldAttrName::ByteLength => b.bit_range is Unset ==> start + x * 8 <= usize::MAX,
                    FieldAttrName::ElementByteLength => !(b.bit_range is LastEnd) ==> x * 8 <= usize::MAX,
                    FieldAttrName::BlockBitLength => {
                        &&& b.bit_range is Unset ==> start + x <= usize::MAX
                        &&& b.bit_range matches BuilderRange::Range(r) ==> r.start <= r.end
                    },
                    FieldAttrName::BlockByteLength => {
                        &&& !(b.bit_range is LastEnd) ==> x * 8 <= usize::MAX
                        &&& b.bit_range is Unset ==> start + x * 8 <= usize::MAX
                        &&& b.bit_range matches BuilderRange::Range(r) ==> r.start <= r.end
                    },
                    _ => true,
                },
                MetaValue::Range(lr) => (attr == FieldAttrName::Bits && b.bit_range is Unset && lr.closed
                    && lr.start matches RangeBound::Int(Ok(_))) ==> (lr.end matches RangeBound::Int(Ok(e)) ==> e < usize::MAX),
                _ => true,
            }
        }),
    ensures
        (*final(builder), r) == spec_value_step(attr, *value, last, *old(builder)),
{
    let start = start_after_exec(last);
    match attr {
        FieldAttrName::Endianness => match value {
            MetaValue::Str(s) => match endianness_from_string(s.as_str()) {
                Some(e) => {
                    builder.endianness = e;
                    Ok(())
                },
                None => Err(FieldAttrError::UnknownEndianness),
            },
            _ => Err(FieldAttrError::ExpectedStr(attr)),
        },
        FieldAttrName::BitLength | FieldAttrName::ByteLength => {
            if let BuilderRange::Unset = builder.bit_range {
                let x = match int_value(attr, value) {
                    Ok(x) => x,
                    Err(e) => {
                        return Err(e);
                    },
                };
                let bits: usize = if attr == FieldAttrName::BitLength {
                    x
                } else {
                    x * 8
                };
                builder.bit_range = BuilderRange::Range(Range { start, end: start + bits });
                Ok(())
            } else {
                Err(FieldAttrError::LengthTwice(attr))
            }
        },
        FieldAttrName::EnumPrimitive => {
            if !matches!(builder.ty, AttrBuilderType::NoType) {
                return Err(FieldAttrError::TypeTwice);
            }
            match value {
                MetaValue::Str(s) => {
                    let lower = crate::object_attrs::lowercase(s.as_str());
                    match enum_primitive(lower.as_str()) {
                        Some(n) => {
                            builder.ty = AttrBuilderType::Enum(n);
                            Ok(())
                        },
                        None => Err(FieldAttrError::UnknownEnumPrimitive),
                    }
                },
                _ => Err(FieldAttrError::ExpectedStr(attr)),
            }
        },
        FieldAttrName::StructSize => {
            if !matches!(builder.ty, AttrBuilderType::NoType) {
                return Err(FieldAttrError::TypeTwice);
            }
            match int_value(attr, value) {
                Ok(x) => {
                    builder.ty = AttrBuilderType::Struct(x);
                    Ok(())
                },
                Err(e) => Err(e),
            }
        },
        FieldAttrName::Bits => {
            if !matches!(builder.bit_range, BuilderRange::Unset) {
                return Err(FieldAttrError::BitsTwice);
            }
            match value {
                MetaValue::Range(lr) => match get_lit_range(lr) {
                    Ok(r) => {
                        builder.bit_range = BuilderRange::Range(r);
                        Ok(())
                    },
                    Err(e) => Err(e),
                },
                MetaValue::Str(s) => match read_bits_text(s.as_str()) {
                    BitsText::Range(a, c) => {
                        builder.bit_range = BuilderRange::Range(Range { start: a, end: c });
                        Ok(())
                    },
                    BitsText::Ignored => Ok(()),
                    BitsText::BadEnd { has_equals } => {
                        if has_equals {
                            Err(FieldAttrError::BitsTextDeprecated)
                        } else {
                            Err(FieldAttrError::BitsTextBadEnd)
                        }
                    },
                    BitsText::BadStart => Err(FieldAttrError::BitsTextBadStart),
                    BitsText::BadBoth => Err(FieldAttrError::BitsTextBadBoth),
                },
                _ => Err(FieldAttrError::BitsNotRange),
            }
        },
        FieldAttrName::ElementBitLength | FieldAttrName::ElementByteLength => {
            let x = match int_value(attr, value) {
                Ok(x) => x,
                Err(e) => {
                    return Err(e);
                },
            };
            let taken = take_bit_range(builder);
            match taken {
                BuilderRange::Unset => {
                    let bits: usize = if attr == FieldAttrName::ElementBitLength {
                        x
                    } else {
                        x * 8
                    };
                    make_array_type(builder, Some(bits));
                    builder.bit_range = BuilderRange::LastEnd(start);
                    Ok(())
                },
                BuilderRange::Range(range) => {
                    let bits: usize = if attr == FieldAttrName::ElementBitLength {
                        x
                    } else {
                        x * 8
                    };
                    make_array_type(builder, Some(bits));
                    builder.bit_range = BuilderRange::Range(range);
                    Ok(())
                },
                BuilderRange::LastEnd(_) => Err(FieldAttrError::NoEndWithArray(attr)),
            }
        },
        FieldAttrName::BlockBitLength | FieldAttrName::BlockByteLength => {
            let x = match int_value(attr, value) {
                Ok(x) => x,
                Err(e) => {
                    return Err(e);
                },
            };
            let taken = take_bit_range(builder);
            match taken {
                BuilderRange::Unset => {
                    let bits: usize = if attr == FieldAttrName::BlockBitLength {
                        x
                    } else {
                        x * 8
                    };
                    make_array_type(builder, None);
                    builder.bit_range = BuilderRange::Range(Range { start, end: start + bits });
                    Ok(())
                },
                BuilderRange::Range(range) => {
                    make_array_type(builder, None);
                    let bits: usize = if attr == FieldAttrName::BlockBitLength {
                        x
                    } else {
                        x * 8
                    };
                    if range.end - range.start == bits {
                        builder.bit_range = BuilderRange::Range(range);
                        Ok(())
                    } else {
                        Err(FieldAttrError::BlockLengthMismatch(attr))
                    }
                },
                BuilderRange::LastEnd(_) => Err(FieldAttrError::NoEndWithArray(attr)),
            }
        },
        FieldAttrName::OverlappingBits => match int_value(attr, value) {
            Ok(x) => {
                builder.overlap = OverlapOptions::Allow(x);
                Ok(())
            },
            Err(e) => Err(e),
        },
    }
}


impl AttrBuilder {
    /// Applies one field attribute to the attributes read so far.
    pub fn parse_meta(meta: &FieldMeta, last_field: Option<LastField>, builder: &mut Self) -> (r: Result<(), FieldAttrError>)
        requires
            meta_fits(*meta, last_field, *old(builder)),
        ensures
            (*final(builder), r) == spec_parse_meta(*meta, last_field, *old(builder)),
    {
        match meta {
            FieldMeta::NameValue { name: Some(n), value } => match value_attr(n.as_str()) {
                Some(attr) => value_step(attr, value, last_field, builder),
                None => {
                    if str_eq(n.as_str(), "doc") {
                        Ok(())
                    } else {
                        Err(FieldAttrError::NotValidAttribute(n.clone()))
                    }
                },
            },
            FieldMeta::NameValue { name: None, .. } => Ok(()),
            FieldMeta::Path { name: Some(name) } => {
                let n = name.as_str();
                if str_eq(n, "reserve") {
                    builder.reserve = ReserveFieldOption::ReserveField;
                    Ok(())
                } else if str_eq(n, "read_only") {
                    builder.reserve = ReserveFieldOption::ReadOnly;
                    Ok(())
                } else if str_eq(n, "capture_id") {
                    match last_field {
                        Some(lf) => {
                            if lf.is_variant_id {
                                builder.capture_id = true;
                                Ok(())
                            } else {
                                Err(FieldAttrError::CaptureIdNotFirst)
                            }
                        },
                        None => Err(FieldAttrError::CaptureIdNotFirst),
                    }
                } else if str_eq(n, "redundant") {
                    builder.overlap = OverlapOptions::Redundant;
                    builder.reserve = ReserveFieldOption::ReadOnly;
                    Ok(())
                } else if str_eq(n, "doc") {
                    Ok(())
                } else {
                    Err(FieldAttrError::NotValidAttribute(name.clone()))
                }
            },
            FieldMeta::Path { name: None } => Ok(()),
            FieldMeta::List => Err(FieldAttrError::ListAttribute),
        }
    }
}


/// The attributes of a field before any attribute is read.
pub open spec fn new_attr_builder() -> AttrBuilder {
    AttrBuilder {
        endianness: Endianness::nested_spec(),
        bit_range: BuilderRange::Unset,
        ty: AttrBuilderType::NoType,
        reserve: ReserveFieldOption::NotReserve,
        overlap: OverlapOptions::NoOverlap,
        capture_id: false,
    }
}

/// The attributes after the first `n` attributes, stopping at the first refused one.
pub open spec fn spec_parse_metas(metas: Seq<FieldMeta>, last: Option<LastField>, n: int) -> (AttrBuilder, Result<(), FieldAttrError>)
    decreases n,
{
    if n <= 0 {
        (new_attr_builder(), Ok(()))
    } else {
        let prev = spec_parse_metas(metas, last, n - 1);
        if prev.1 is Err {
            prev
        } else {
            spec_parse_meta(metas[n - 1], last, prev.0)
        }
    }
}

/// Every attribute that is read keeps its sums inside `usize`.
pub open spec fn metas_fit(metas: Seq<FieldMeta>, last: Option<LastField>) -> bool {
    forall|k: int|
        0 <= k < metas.len() && (#[trigger] spec_parse_metas(metas, last, k)).1 is Ok ==> meta_fits(
            metas[k],
            last,
            spec_parse_metas(metas, last, k).0,
        )
}

/// Tests `meta_fits`: whether reading `meta` into `b` keeps its sums inside `usize`.
pub fn meta_fits_check(meta: &FieldMeta, last: Option<LastField>, b: &AttrBuilder) -> (r: bool)
    ensures
        r == meta_fits(*meta, last, *b),
{
    let start = start_after_exec(last);
    match meta {
        FieldMeta::NameValue { name: Some(n), value: MetaValue::Int(Ok(x)) } => {
            let x = *x;
            let unset = matches!(b.bit_range, BuilderRange::Unset);
            let last_end = matches!(b.bit_range, BuilderRange::LastEnd(_));
            let range_ordered = match &b.bit_range {
                BuilderRange::Range(r) => r.start <= r.end,
                _ => true,
            };
            let bytes_fit = x <= usize::MAX / 8;
            let after_start = x <= usize::MAX - start;
            let bytes_after_start = bytes_fit && x * 8 <= usize::MAX - start;
            match value_attr(n.as_str()) {
                Some(FieldAttrName::BitLength) => !unset || after_start,
                Some(FieldAttrName::ByteLength) => !unset || bytes_after_start,
                Some(FieldAttrName::ElementByteLength) => last_end || bytes_fit,
                Some(FieldAttrName::BlockBitLength) => (!unset || after_start) && range_ordered,
                Some(FieldAttrName::BlockByteLength) => (last_end || bytes_fit) && (!unset || bytes_after_start)
                    && range_ordered,
                _ => true,
            }
        },
        FieldMeta::NameValue { name: Some(n), value: MetaValue::Range(lr) } => {
            let applies = value_attr(n.as_str()) == Some(FieldAttrName::Bits) && matches!(b.bit_range, BuilderRange::Unset)
                && lr.closed && matches!(lr.start, RangeBound::Int(Ok(_)));
            if applies {
                match &lr.end {
                    RangeBound::Int(Ok(e)) => *e < usize::MAX,
                    _ => true,
                }
            } else {
                true
            }
        },
        _ => true,
    }
}

/// Tests `metas_fit`: whether reading `metas` in order keeps every sum inside `usize`, up to
/// the first attribute that is refused.
pub fn metas_fit_check(metas: &Vec<FieldMeta>, last: Option<LastField>) -> (r: bool)
    ensures
        r == metas_fit(metas@, last),
{
    let mut builder = AttrBuilder::new();
    let mut i: usize = 0;
    while i < metas.len()
        invariant
            i <= metas@.len(),
            spec_parse_metas(metas@, last, i as int) == (builder, Ok::<(), FieldAttrError>(())),
            forall|k: int|
                0 <= k < i && (#[trigger] spec_parse_metas(metas@, last, k)).1 is Ok ==> meta_fits(
                    metas@[k],
                    last,
                    spec_parse_metas(metas@, last, k).0,
                ),
        decreases metas@.len() - i,
    {
        if !meta_fits_check(&metas[i], last, &builder) {
            assert(spec_parse_metas(metas@, last, i as int).1 is Ok);
            return false;
        }
        match AttrBuilder::parse_meta(&metas[i], last, &mut builder) {
            Ok(()) => {},
            Err(_) => {
                proof {
                    assert forall|k: int|
                        0 <= k < metas@.len() && (#[trigger] spec_parse_metas(metas@, last, k)).1 is Ok implies meta_fits(
                            metas@[k],
                            last,
                            spec_parse_metas(metas@, last, k).0,
                        ) by {
                        if k > i {
                            lemma_parse_error_sticks(metas@, last, i + 1, k);
                        }
                    }
                }
                return true;
            },
        }
        i = i + 1;
    }
    true
}

impl AttrBuilder {
    /// Reads a field's attributes in order; a field whose bits are still unknown starts where
    /// the field before it ended.
    pub fn parse(metas: &Vec<FieldMeta>, last_field: Option<LastField>) -> (r: Result<AttrBuilder, FieldAttrError>)
        requires
            metas_fit(metas@, last_field),
        ensures
            ({
                let (b, res) = spec_parse_metas(metas@, last_field, metas@.len() as int);
                match res {
                    Err(e) => r == Err::<AttrBuilder, FieldAttrError>(e),
                    Ok(_) => r == Ok::<AttrBuilder, FieldAttrError>(
                        if b.bit_range is Unset {
                            AttrBuilder { bit_range: BuilderRange::LastEnd(start_after(last_field) as usize), ..b }
                        } else {
                            b
                        },
                    ),
                }
            }),
    {
        let mut builder = AttrBuilder::new();
        let mut i: usize = 0;
        while i < metas.len()
            invariant
                i <= metas@.len(),
                metas_fit(metas@, last_field),
                spec_parse_metas(metas@, last_field, i as int) == (builder, Ok::<(), FieldAttrError>(())),
            decreases metas@.len() - i,
        {
            assert(spec_parse_metas(metas@, last_field, i as int).1 is Ok);
            match Self::parse_meta(&metas[i], last_field, &mut builder) {
                Ok(()) => {},
                Err(e) => {
                    proof {
                        lemma_parse_error_sticks(metas@, last_field, i + 1, metas@.len() as int);
                    }
                    return Err(e);
                },
            }
            i = i + 1;
        }
        if let BuilderRange::Unset = builder.bit_range {
            builder.bit_range = BuilderRange::LastEnd(start_after_exec(last_field));
        }
        Ok(builder)
    }

    /// The field's attributes, once its bits are known; what is left otherwise.
    pub fn try_into_attributes(self) -> (r: Result<Attributes, TryFromAttrBuilderError>)
        ensures
            match self.bit_range {
                BuilderRange::Range(range) => r matches Ok(a) && {
                    &&& *a.endianness == self.endianness
                    &&& a.bit_range == range
                    &&& a.reserve == self.reserve
                    &&& a.overlap == self.overlap
                    &&& a.capture_id == self.capture_id
                },
                _ => r matches Err(e) && {
                    &&& *e.endianness == self.endianness
                    &&& e.reserve == self.reserve
                    &&& e.overlap == self.overlap
                    &&& e.capture_id == self.capture_id
                },
            },
    {
        if let BuilderRange::Range(bit_range) = self.bit_range {
            Ok(
                Attributes {
                    endianness: Box::new(self.endianness),
                    bit_range,
                    reserve: self.reserve,
                    overlap: self.overlap,
                    capture_id: self.capture_id,
                },
            )
        } else {
            Err(
                TryFromAttrBuilderError {
                    endianness: Box::new(self.endianness),
                    reserve: self.reserve,
                    overlap: self.overlap,
                    capture_id: self.capture_id,
                },
            )
        }
    }
}

proof fn lemma_parse_error_sticks(metas: Seq<FieldMeta>, last: Option<LastField>, i: int, n: int)
    requires
        0 <= i <= n,
        spec_parse_metas(metas, last, i).1 is Err,
    ensures
        spec_parse_metas(metas, last, n) == spec_parse_metas(metas, last, i),
    decreases n - i,
{
    if n > i {
        lemma_parse_error_sticks(metas, last, i, n - 1);
    }
}


/// A field given `bit_length = x` (and its bits not given otherwise) takes the `x` bits right
/// after the field before it; `byte_length = x` takes `8 * x` bits the same way.
pub proof fn law_length_follows_last_field(x: usize, last: Option<LastField>, b: AttrBuilder)
    requires
        b.bit_range is Unset,
    ensures
        spec_value_step(FieldAttrName::BitLength, MetaValue::Int(Ok(x)), last, b) == (
            AttrBuilder {
                bit_range: BuilderRange::Range(
                    Range { start: start_after(last) as usize, end: (start_after(last) + x) as usize },
                ),
                ..b
            },
            Ok::<(), FieldAttrError>(()),
        ),
        spec_value_step(FieldAttrName::ByteLength, MetaValue::Int(Ok(x)), last, b) == (
            AttrBuilder {
                bit_range: BuilderRange::Range(
                    Range { start: start_after(last) as usize, end: (start_after(last) + x * 8) as usize },
                ),
                ..b
            },
            Ok::<(), FieldAttrError>(()),
        ),
{
}

/// A field whose attributes never place it starts where the field before it ended.
pub proof fn law_unplaced_field_follows_last(metas: Seq<FieldMeta>, last: Option<LastField>)
    requires
        spec_parse_metas(metas, last, metas.len() as int).1 is Ok,
        spec_parse_metas(metas, last, metas.len() as int).0.bit_range is Unset,
    ensures
        ({
            let b = spec_parse_metas(metas, last, metas.len() as int).0;
            let placed = AttrBuilder { bit_range: BuilderRange::LastEnd(start_after(last) as usize), ..b };
            placed.bit_range == BuilderRange::LastEnd(start_after(last) as usize)
        }),
{
}

/// Documentation attributes change nothing, and once the bits are known, a second length is
/// refused without changing anything.
pub proof fn law_doc_and_second_length(n: String, value: MetaValue, last: Option<LastField>, b: AttrBuilder, x: usize)
    requires
        n@ == "doc"@,
        !(b.bit_range is Unset),
    ensures
        spec_parse_meta(FieldMeta::NameValue { name: Some(n), value }, last, b) == (b, Ok::<(), FieldAttrError>(())),
        spec_parse_meta(FieldMeta::Path { name: Some(n) }, last, b) == (b, Ok::<(), FieldAttrError>(())),
        spec_value_step(FieldAttrName::BitLength, MetaValue::Int(Ok(x)), last, b) == (
            b,
            Err::<(), FieldAttrError>(FieldAttrError::LengthTwice(FieldAttrName::BitLength)),
        ),
{
    reveal_strlit("doc");
    reveal_strlit("bits");
    reveal_strlit("endianness");
    reveal_strlit("reserve");
    reveal_strlit("read_only");
    reveal_strlit("capture_id");
    reveal_strlit("redundant");
    reveal_strlit("bit_length");
    reveal_strlit("byte_length");
    reveal_strlit("enum_primitive");
    reveal_strlit("struct_size");
    reveal_strlit("element_bit_length");
    reveal_strlit("element_byte_length");
    reveal_strlit("block_bit_length");
    reveal_strlit("block_byte_length");
    reveal_strlit("overlapping_bits");
    assert(n@.len() == 3);
    assert(n@ != "bits"@) by {
        assert(n@[0] != "bits"@[0]);
    }
    assert(spec_value_attr(n@) is None);
}

/// `element_bit_length = x` makes the field an element array of `x`-bit elements and
/// `element_byte_length = x` one of `8 * x`-bit elements, keeping a nested type given before
/// (a bitfield or enum) as the element type; a field whose bits were not given otherwise then
/// starts right after the field before it.
pub proof fn law_element_length_sets_element_bits(x: usize, last: Option<LastField>, b: AttrBuilder)
    requires
        !(b.bit_range is LastEnd),
        x * 8 <= usize::MAX,
    ensures
        ({
            let (bb, rb) = spec_value_step(FieldAttrName::ElementBitLength, MetaValue::Int(Ok(x)), last, b);
            let (by, ry) = spec_value_step(FieldAttrName::ElementByteLength, MetaValue::Int(Ok(x)), last, b);
            &&& rb is Ok && ry is Ok
            &&& bb.ty matches AttrBuilderType::ElementArray(bits, _) && bits == x
            &&& by.ty matches AttrBuilderType::ElementArray(bits, _) && bits == 8 * x
            &&& (b.ty matches AttrBuilderType::Struct(n) ==> by.ty == AttrBuilderType::ElementArray(
                (8 * x) as usize,
                Box::new(Some(AttrBuilderType::Struct(n))),
            ))
            &&& (b.ty matches AttrBuilderType::Struct(n) ==> bb.ty == AttrBuilderType::ElementArray(
                x,
                Box::new(Some(AttrBuilderType::Struct(n))),
            ))
            &&& (b.ty matches AttrBuilderType::Enum(n) ==> by.ty == AttrBuilderType::ElementArray(
                (8 * x) as usize,
                Box::new(Some(AttrBuilderType::Enum(n))),
            ) && bb.ty == AttrBuilderType::ElementArray(x, Box::new(Some(AttrBuilderType::Enum(n)))))
            &&& (!(b.ty is Struct) && !(b.ty is Enum) ==> by.ty == AttrBuilderType::ElementArray(
                (8 * x) as usize,
                Box::new(None),
            ) && bb.ty == AttrBuilderType::ElementArray(x, Box::new(None)))
            &&& (b.bit_range is Unset ==> bb.bit_range == BuilderRange::LastEnd(start_after(last) as usize)
                && by.bit_range == BuilderRange::LastEnd(start_after(last) as usize))
            &&& (b.bit_range is Range ==> bb.bit_range == b.bit_range && by.bit_range == b.bit_range)
            &&& bb.endianness == b.endianness && by.endianness == b.endianness
            &&& bb.reserve == b.reserve && by.reserve == b.reserve
            &&& bb.overlap == b.overlap && by.overlap == b.overlap
        }),
{
}

} // verus!
