use crate::attrs::{AttrsBuilder, FieldSetBuilder, FillBits, StructEnforcement};
use crate::data::DataBuilder;
use crate::endianness::{ByteOrder, Endianness, EndiannessMode, FieldOrder};
use crate::field_set::SolvedFieldSetAttributes;
use crate::solved::{EnumBuilder, StructBuilder};
use crate::variants::VariantBuilder;
use vstd::prelude::*;

verus! {

/// Which end of a structure its first bit is counted from.
#[derive(Clone, Copy, Debug, PartialEq, Eq)]
pub enum BitTraversal {
    Back,
    Front,
}

/// The lower case form of a string, as `str::to_lowercase` gives it.
pub uninterp spec fn lowercase_of(s: Seq<char>) -> Seq<char>;

/// Calls `str::to_lowercase`. Its result is a function of the string alone (Unicode's
/// lower case mapping), named `lowercase_of`; nothing more is stated of it.
#[verifier::external_body]
pub(crate) fn lowercase(s: &str) -> (r: String)
    ensures
        r@ == lowercase_of(s@),
{
    s.to_lowercase()
}

/// Whether two strings hold the same characters.
pub fn str_eq(a: &str, b: &str) -> (r: bool)
    ensures
        r == (a@ == b@),
{
    let n = a.unicode_len();
    if n != b.unicode_len() {
        return false;
    }
    let mut i: usize = 0;
    while i < n
        invariant
            n == a@.len(),
            n == b@.len(),
            i <= n,
            forall|j: int| 0 <= j < i ==> a@[j] == b@[j],
        decreases n - i,
    {
        if a.get_char(i) != b.get_char(i) {
            return false;
        }
        i = i + 1;
    }
    assert(a@ =~= b@);
    true
}

/// The traversal a lower case attribute value names.
pub open spec fn spec_traversal(lower: Seq<char>) -> Option<BitTraversal> {
    if lower == "back"@ {
        Some(BitTraversal::Back)
    } else if lower == "front"@ {
        Some(BitTraversal::Front)
    } else {
        None
    }
}

impl BitTraversal {
    /// Reads an already lower case `bit_traversal` value: `back` or `front`.
    pub fn from_lowercase(lower: &str) -> (r: Option<BitTraversal>)
        ensures
            r == spec_traversal(lower@),
    {
        if str_eq(lower, "back") {
            Some(BitTraversal::Back)
        } else if str_eq(lower, "front") {
            Some(BitTraversal::Front)
        } else {
            None
        }
    }

    /// Reads a `bit_traversal` value in any case: `back` or `front`.
    pub fn from_string(value: &str) -> (r: Option<BitTraversal>)
        ensures
            r == spec_traversal(lowercase_of(value@)),
    {
        let lower = lowercase(value);
        Self::from_lowercase(lower.as_str())
    }
}

/// The endianness a lower case attribute value names.
pub open spec fn spec_endianness_name(lower: Seq<char>) -> Option<Endianness> {
    if lower == "le"@ || lower == "lsb"@ || lower == "little"@ || lower == "lil"@ {
        Some(Endianness::little_packed_spec())
    } else if lower == "ale"@ || lower == "little-aliened"@ || lower == "lilali"@ {
        Some(Endianness::little_aligned_spec())
    } else if lower == "be"@ || lower == "msb"@ || lower == "big"@ {
        Some(Endianness::big_spec())
    } else if lower == "ne"@ || lower == "native"@ || lower == "none"@ {
        Some(Endianness::nested_spec())
    } else {
        None
    }
}

/// Every name of an endianness reads as that endianness: `le`, `lsb`, `little` and `lil` as
/// packed little endian (the alternative mode, bytes and fields from the last); `ale`,
/// `little-aliened` and `lilali` as aligned little endian (the standard mode, bytes and fields
/// from the last); `be`, `msb` and `big` as big endian (the standard mode, bytes and fields
/// from the first); and `ne`, `native` and `none` as nested.
pub proof fn law_endianness_names()
    ensures
        ({
            let packed = Endianness {
                mode: EndiannessMode::Alternative,
                byte_order: ByteOrder::LastToFirst,
                reverse_byte_order: false,
                field_order: FieldOrder::LastToFirst,
                reverse_field_order: false,
            };
            let aligned = Endianness {
                mode: EndiannessMode::Standard,
                byte_order: ByteOrder::LastToFirst,
                reverse_byte_order: false,
                field_order: FieldOrder::LastToFirst,
                reverse_field_order: false,
            };
            let big = Endianness {
                mode: EndiannessMode::Standard,
                byte_order: ByteOrder::FirstToLast,
                reverse_byte_order: false,
                field_order: FieldOrder::FirstToLast,
                reverse_field_order: false,
            };
            let nested = Endianness {
                mode: EndiannessMode::Nested,
                byte_order: ByteOrder::FirstToLast,
                reverse_byte_order: false,
                field_order: FieldOrder::FirstToLast,
                reverse_field_order: false,
            };
            &&& spec_endianness_name("le"@) == Some(packed)
            &&& spec_endianness_name("lsb"@) == Some(packed)
            &&& spec_endianness_name("little"@) == Some(packed)
            &&& spec_endianness_name("lil"@) == Some(packed)
            &&& spec_endianness_name("ale"@) == Some(aligned)
            &&& spec_endianness_name("little-aliened"@) == Some(aligned)
            &&& spec_endianness_name("lilali"@) == Some(aligned)
            &&& spec_endianness_name("be"@) == Some(big)
            &&& spec_endianness_name("msb"@) == Some(big)
            &&& spec_endianness_name("big"@) == Some(big)
            &&& spec_endianness_name("ne"@) == Some(nested)
            &&& spec_endianness_name("native"@) == Some(nested)
            &&& spec_endianness_name("none"@) == Some(nested)
        }),
{
    reveal_strlit("le");
    reveal_strlit("lsb");
    reveal_strlit("little");
    reveal_strlit("lil");
    reveal_strlit("ale");
    reveal_strlit("little-aliened");
    reveal_strlit("lilali");
    reveal_strlit("be");
    reveal_strlit("msb");
    reveal_strlit("big");
    reveal_strlit("ne");
    reveal_strlit("native");
    reveal_strlit("none");
    assert("le"@.len() == 2);
    assert("lsb"@.len() == 3);
    assert("little"@.len() == 6);
    assert("lil"@.len() == 3);
    assert("ale"@.len() == 3);
    assert("little-aliened"@.len() == 14);
    assert("lilali"@.len() == 6);
    assert("be"@.len() == 2);
    assert("msb"@.len() == 3);
    assert("big"@.len() == 3);
    assert("ne"@.len() == 2);
    assert("native"@.len() == 6);
    assert("none"@.len() == 4);
    assert("le"@[0] == 'l');
    assert("le"@[1] == 'e');
    assert("lsb"@[0] == 'l');
    assert("lsb"@[1] == 's');
    assert("lsb"@[2] == 'b');
    assert("little"@[0] == 'l');
    assert("little"@[1] == 'i');
    assert("little"@[2] == 't');
    assert("lil"@[0] == 'l');
    assert("lil"@[1] == 'i');
    assert("lil"@[2] == 'l');
    assert("ale"@[0] == 'a');
    assert("ale"@[1] == 'l');
    assert("ale"@[2] == 'e');
    assert("little-aliened"@[0] == 'l');
    assert("little-aliened"@[1] == 'i');
    assert("little-aliened"@[2] == 't');
    assert("lilali"@[0] == 'l');
    assert("lilali"@[1] == 'i');
    assert("lilali"@[2] == 'l');
    assert("be"@[0] == 'b');
    assert("be"@[1] == 'e');
    assert("msb"@[0] == 'm');
    assert("msb"@[1] == 's');
    assert("msb"@[2] == 'b');
    assert("big"@[0] == 'b');
    assert("big"@[1] == 'i');
    assert("big"@[2] == 'g');
    assert("ne"@[0] == 'n');
    assert("ne"@[1] == 'e');
    assert("native"@[0] == 'n');
    assert("native"@[1] == 'a');
    assert("native"@[2] == 't');
    assert("none"@[0] == 'n');
    assert("none"@[1] == 'o');
    assert("none"@[2] == 'n');
}

/// Reads an already lower case `endianness` value.
pub fn endianness_from_lowercase(lower: &str) -> (r: Option<Endianness>)
    ensures
        r == spec_endianness_name(lower@),
{
    if str_eq(lower, "le") || str_eq(lower, "lsb") || str_eq(lower, "little") || str_eq(lower, "lil") {
        Some(Endianness::little_packed())
    } else if str_eq(lower, "ale") || str_eq(lower, "little-aliened") || str_eq(lower, "lilali") {
        Some(Endianness::little_aligned())
    } else if str_eq(lower, "be") || str_eq(lower, "msb") || str_eq(lower, "big") {
        Some(Endianness::big())
    } else if str_eq(lower, "ne") || str_eq(lower, "native") || str_eq(lower, "none") {
        Some(Endianness::nested())
    } else {
        None
    }
}

/// Reads an `endianness` value in any case: `le`, `ale`, `be` or `ne` and their other names.
pub fn endianness_from_string(value: &str) -> (r: Option<Endianness>)
    ensures
        r == spec_endianness_name(lowercase_of(value@)),
{
    let lower = lowercase(value);
    endianness_from_lowercase(lower.as_str())
}

/// Why the attributes of a structure, enum or variant were refused.
#[derive(Clone, Copy, Debug, PartialEq, Eq)]
pub enum AttrError {
    /// More than one of `enforce_full_bytes`, `enforce_bytes`, `enforce_bits`.
    MultipleEnforcements,
    /// More than one of `fill`, `fill_bits`, `fill_bytes`.
    MultipleFills,
    /// Both `payload_bit_length` and `payload_byte_length`.
    PayloadLengthTwice,
    /// Both `id_bit_length` and `id_byte_length`.
    IdLengthTwice,
    /// The variant at this position was given an id by attribute and by literal.
    VariantIdTwice(usize),
    /// The variant at this position is a second `invalid` variant.
    SecondInvalidVariant(usize),
    /// The enum has no variant.
    NoVariants,
}

/// The structure attributes as written.
#[derive(Clone, Copy, Debug)]
pub struct StructDarling {
    pub default_endianness: Option<Endianness>,
    pub bit_traversal: Option<BitTraversal>,
    pub reverse: bool,
    pub dump: bool,
    pub enforce_full_bytes: bool,
    pub enforce_bytes: Option<usize>,
    pub enforce_bits: Option<usize>,
    pub fill_bits: Option<usize>,
    pub fill_bytes: Option<usize>,
    pub fill: bool,
}

/// The structure attributes once decided.
#[derive(Clone, Copy, Debug)]
pub struct StructDarlingSimplified {
    pub default_endianness: Option<Endianness>,
    pub dump: bool,
    pub enforcement: StructEnforcement,
    pub fill_bits: FillBits,
}

impl Default for StructDarlingSimplified {
    fn default() -> (r: Self)
        ensures
            r.default_endianness is None,
            !r.dump,
            r.enforcement is NoRules,
            r.fill_bits is NoFill,
    {
        Self {
            default_endianness: None,
            dump: false,
            enforcement: StructEnforcement::NoRules,
            fill_bits: FillBits::NoFill,
        }
    }
}

/// The size rule that the three enforcement attributes ask for.
pub open spec fn spec_enforcement(
    enforce_full_bytes: bool,
    enforce_bytes: Option<usize>,
    enforce_bits: Option<usize>,
) -> Result<StructEnforcement, AttrError> {
    if enforce_full_bytes {
        if enforce_bytes is None && enforce_bits is None {
            Ok(StructEnforcement::EnforceFullBytes)
        } else {
            Err(AttrError::MultipleEnforcements)
        }
    } else if let Some(bytes) = enforce_bytes {
        if enforce_bits is None {
            Ok(StructEnforcement::EnforceBitAmount((bytes * 8) as usize))
        } else {
            Err(AttrError::MultipleEnforcements)
        }
    } else if let Some(bits) = enforce_bits {
        Ok(StructEnforcement::EnforceBitAmount(bits))
    } else {
        Ok(StructEnforcement::NoRules)
    }
}

/// The fill that the three fill attributes ask for.
pub open spec fn spec_fill(fill_bits: Option<usize>, fill_bytes: Option<usize>, fill: bool) -> Result<FillBits, AttrError> {
    if fill {
        if fill_bytes is None && fill_bits is None {
            Ok(FillBits::Auto)
        } else {
            Err(AttrError::MultipleFills)
        }
    } else if let Some(bytes) = fill_bytes {
        if fill_bits is None {
            Ok(FillBits::Bits((bytes * 8) as usize))
        } else {
            Err(AttrError::MultipleFills)
        }
    } else if let Some(bits) = fill_bits {
        Ok(FillBits::Bits(bits))
    } else {
        Ok(FillBits::NoFill)
    }
}

/// A byte count given in an attribute can be turned into bits.
pub open spec fn bytes_fit(bytes: Option<usize>) -> bool {
    bytes matches Some(b) ==> b * 8 <= usize::MAX
}

/// A default endianness with the traversal and `reverse` attributes applied.
pub open spec fn spec_adjusted_endianness(darling: StructDarling) -> Option<Endianness> {
    match darling.default_endianness {
        Some(val) => {
            let val = match darling.bit_traversal {
                Some(bt) => Endianness { reverse_field_order: bt == BitTraversal::Back, ..val },
                None => val,
            };
            Some(
                if darling.reverse {
                    Endianness { reverse_byte_order: true, ..val }
                } else {
                    val
                },
            )
        },
        None => None,
    }
}

impl StructDarlingSimplified {
    pub fn try_solve_enforcement(
        enforce_full_bytes: bool,
        enforce_bytes: Option<usize>,
        enforce_bits: Option<usize>,
    ) -> (r: Result<StructEnforcement, AttrError>)
        requires
            bytes_fit(enforce_bytes),
        ensures
            r == spec_enforcement(enforce_full_bytes, enforce_bytes, enforce_bits),
    {
        if enforce_full_bytes {
            if enforce_bytes.is_none() && enforce_bits.is_none() {
                Ok(StructEnforcement::EnforceFullBytes)
            } else {
                Err(AttrError::MultipleEnforcements)
            }
        } else if let Some(bytes) = enforce_bytes {
            if enforce_bits.is_none() {
                Ok(StructEnforcement::EnforceBitAmount(bytes * 8))
            } else {
                Err(AttrError::MultipleEnforcements)
            }
        } else if let Some(bits) = enforce_bits {
            Ok(StructEnforcement::EnforceBitAmount(bits))
        } else {
            Ok(StructEnforcement::NoRules)
        }
    }

    pub fn try_solve_fill_bits(fill_bits: Option<usize>, fill_bytes: Option<usize>, fill: bool) -> (r: Result<
        FillBits,
        AttrError,
    >)
        requires
            bytes_fit(fill_bytes),
        ensures
            r == spec_fill(fill_bits, fill_bytes, fill),
    {
        if fill {
            if fill_bytes.is_none() && fill_bits.is_none() {
                Ok(FillBits::Auto)
            } else {
                Err(AttrError::MultipleFills)
            }
        } else if let Some(bytes) = fill_bytes {
            if fill_bits.is_none() {
                Ok(FillBits::Bits(bytes * 8))
            } else {
                Err(AttrError::MultipleFills)
            }
        } else if let Some(bits) = fill_bits {
            Ok(FillBits::Bits(bits))
        } else {
            Ok(FillBits::NoFill)
        }
    }

    /// Takes what `other` sets: its endianness when it has one, its size rule and fill when
    /// they are not the defaults, and its dump flag.
    pub fn merge(&mut self, other: StructDarlingSimplified) -> (r: Result<(), AttrError>)
        ensures
            r is Ok,
            final(self).default_endianness == if other.default_endianness is Some {
                other.default_endianness
            } else {
                old(self).default_endianness
            },
            final(self).enforcement == if other.enforcement is NoRules {
                old(self).enforcement
            } else {
                other.enforcement
            },
            final(self).fill_bits == if other.fill_bits is NoFill {
                old(self).fill_bits
            } else {
                other.fill_bits
            },
            final(self).dump == other.dump,
    {
        if let Some(val) = other.default_endianness {
            self.default_endianness = Some(val);
        }
        if !matches!(other.enforcement, StructEnforcement::NoRules) {
            self.enforcement = other.enforcement;
        }
        if !matches!(other.fill_bits, FillBits::NoFill) {
            self.fill_bits = other.fill_bits;
        }
        self.dump = other.dump;
        Ok(())
    }

    /// Decides the structure attributes: the endianness with traversal and `reverse`
    /// applied, the size rule, and the fill.
    pub fn try_from_darling(darling: StructDarling) -> (r: Result<Self, AttrError>)
        requires
            bytes_fit(darling.enforce_bytes),
            bytes_fit(darling.fill_bytes),
        ensures
            match (
                spec_enforcement(darling.enforce_full_bytes, darling.enforce_bytes, darling.enforce_bits),
                spec_fill(darling.fill_bits, darling.fill_bytes, darling.fill),
            ) {
                (Err(e), _) => r == Err::<Self, AttrError>(e),
                (Ok(_), Err(e)) => r == Err::<Self, AttrError>(e),
                (Ok(enforcement), Ok(fill_bits)) => r matches Ok(s) && {
                    &&& s.default_endianness == spec_adjusted_endianness(darling)
                    &&& s.dump == darling.dump
                    &&& s.enforcement == enforcement
                    &&& s.fill_bits == fill_bits
                },
            },
    {
        let default_endianness = if let Some(val) = darling.default_endianness {
            let mut val = val;
            if let Some(bt) = darling.bit_traversal {
                val.set_reverse_field_order(matches!(bt, BitTraversal::Back));
            }
            if darling.reverse {
                val.set_reverse_byte_order(true);
            }
            Some(val)
        } else {
            None
        };
        let enforcement = match Self::try_solve_enforcement(
            darling.enforce_full_bytes,
            darling.enforce_bytes,
            darling.enforce_bits,
        ) {
            Ok(e) => e,
            Err(e) => {
                return Err(e);
            },
        };
        let fill_bits = match Self::try_solve_fill_bits(darling.fill_bits, darling.fill_bytes, darling.fill) {
            Ok(f) => f,
            Err(e) => {
                return Err(e);
            },
        };
        Ok(Self { default_endianness, dump: darling.dump, enforcement, fill_bits })
    }
}


/// The attributes of an enum variant as written.
#[derive(Clone, Copy, Debug)]
pub struct VariantDarling {
    pub id: Option<usize>,
    pub invalid: bool,
    pub default_endianness: Option<Endianness>,
    pub bit_traversal: Option<BitTraversal>,
    pub reverse: bool,
    pub dump: bool,
    pub enforce_full_bytes: bool,
    pub enforce_bytes: Option<usize>,
    pub enforce_bits: Option<usize>,
    pub fill_bits: Option<usize>,
    pub fill_bytes: Option<usize>,
    pub fill: bool,
}

/// What a variant's own attributes decide about the variant.
#[derive(Clone, Copy, Debug, PartialEq, Eq)]
pub struct VariantDarlingSimplified {
    pub id: Option<usize>,
    pub invalid: bool,
}

/// A variant's endianness: its own when it has one, else the one it inherits, with its
/// traversal applied; `reverse` reverses the field order.
pub open spec fn spec_variant_endianness(value: VariantDarling, inherited: Option<Endianness>) -> Option<Endianness> {
    let e = if value.default_endianness is Some {
        value.default_endianness
    } else {
        inherited
    };
    match e {
        Some(val) => {
            let val = match value.bit_traversal {
                Some(bt) => Endianness { reverse_field_order: bt == BitTraversal::Back, ..val },
                None => val,
            };
            Some(
                if value.reverse {
                    Endianness { reverse_field_order: true, ..val }
                } else {
                    val
                },
            )
        },
        None => None,
    }
}

impl VariantDarlingSimplified {
    /// Applies a variant's attributes to the attributes it inherits (`attrs`): endianness,
    /// size rule and fill when it sets them, and its dump flag; returns its id and whether it
    /// is the default variant.
    pub fn do_thing(value: VariantDarling, attrs: &mut StructDarlingSimplified) -> (r: Result<Self, AttrError>)
        requires
            bytes_fit(value.enforce_bytes),
            bytes_fit(value.fill_bytes),
        ensures
            final(attrs).default_endianness == spec_variant_endianness(value, old(attrs).default_endianness),
            match (
                spec_enforcement(value.enforce_full_bytes, value.enforce_bytes, value.enforce_bits),
                spec_fill(value.fill_bits, value.fill_bytes, value.fill),
            ) {
                (Err(e), _) => r == Err::<Self, AttrError>(e) && final(attrs).enforcement == old(attrs).enforcement
                    && final(attrs).fill_bits == old(attrs).fill_bits && final(attrs).dump == old(attrs).dump,
                (Ok(_), Err(e)) => r == Err::<Self, AttrError>(e) && final(attrs).enforcement == old(attrs).enforcement
                    && final(attrs).fill_bits == old(attrs).fill_bits && final(attrs).dump == old(attrs).dump,
                (Ok(enforcement), Ok(fill_bits)) => {
                    &&& r == Ok::<Self, AttrError>(VariantDarlingSimplified { id: value.id, invalid: value.invalid })
                    &&& final(attrs).enforcement == if enforcement is NoRules {
                        old(attrs).enforcement
                    } else {
                        enforcement
                    }
                    &&& final(attrs).fill_bits == if fill_bits is NoFill {
                        old(attrs).fill_bits
                    } else {
                        fill_bits
                    }
                    &&& final(attrs).dump == value.dump
                },
            },
    {
        if let Some(val) = value.default_endianness {
            attrs.default_endianness = Some(val);
        }
        if let Some(val) = attrs.default_endianness {
            let mut val = val;
            if let Some(bt) = value.bit_traversal {
                val.set_reverse_field_order(matches!(bt, BitTraversal::Back));
            }
            if value.reverse {
                val.set_reverse_field_order(true);
            }
            attrs.default_endianness = Some(val);
        }
        let enforcement = match StructDarlingSimplified::try_solve_enforcement(
            value.enforce_full_bytes,
            value.enforce_bytes,
            value.enforce_bits,
        ) {
            Ok(e) => e,
            Err(e) => {
                return Err(e);
            },
        };
        let fill_bits = match StructDarlingSimplified::try_solve_fill_bits(value.fill_bits, value.fill_bytes, value.fill) {
            Ok(f) => f,
            Err(e) => {
                return Err(e);
            },
        };
        if !matches!(enforcement, StructEnforcement::NoRules) {
            attrs.enforcement = enforcement;
        }
        if !matches!(fill_bits, FillBits::NoFill) {
            attrs.fill_bits = fill_bits;
        }
        attrs.dump = value.dump;
        Ok(VariantDarlingSimplified { id: value.id, invalid: value.invalid })
    }
}

/// The enum attributes as written.
#[derive(Clone, Copy, Debug)]
pub struct EnumDarling {
    pub payload_bit_length: Option<usize>,
    pub payload_byte_length: Option<usize>,
    pub id_bit_length: Option<usize>,
    pub id_byte_length: Option<usize>,
    pub default_endianness: Option<Endianness>,
    pub bit_traversal: Option<BitTraversal>,
    pub reverse: bool,
    pub dump: bool,
    pub enforce_full_bytes: bool,
    pub enforce_bytes: Option<usize>,
    pub enforce_bits: Option<usize>,
    pub fill_bits: Option<usize>,
    pub fill_bytes: Option<usize>,
    pub fill: bool,
}

/// The sizes an enum's attributes decide.
#[derive(Clone, Copy, Debug, PartialEq, Eq)]
pub struct EnumDarlingSimplified {
    pub payload_bit_length: Option<usize>,
    pub id_bit_length: Option<usize>,
}

/// An enum's attributes once decided: its own and those it shares with structures.
#[derive(Clone, Copy, Debug)]
pub struct ObjectDarlingSimplifiedPackage {
    pub enum_attrs: EnumDarlingSimplified,
    pub struct_attrs: StructDarlingSimplified,
}

/// The structure attributes of an enum's attributes.
pub open spec fn struct_part(value: EnumDarling) -> StructDarling {
    StructDarling {
        default_endianness: value.default_endianness,
        bit_traversal: value.bit_traversal,
        reverse: value.reverse,
        dump: value.dump,
        enforce_full_bytes: value.enforce_full_bytes,
        enforce_bytes: value.enforce_bytes,
        enforce_bits: value.enforce_bits,
        fill_bits: value.fill_bits,
        fill_bytes: value.fill_bytes,
        fill: value.fill,
    }
}

/// A length given in bits or in bytes, or nothing when neither is given.
pub open spec fn bits_or_bytes(bits: Option<usize>, bytes: Option<usize>) -> Option<usize> {
    match bits {
        Some(b) => Some(b),
        None => match bytes {
            Some(b) => Some((b * 8) as usize),
            None => None,
        },
    }
}

fn bits_or_bytes_exec(bits: Option<usize>, bytes: Option<usize>) -> (r: Option<usize>)
    requires
        bytes_fit(bytes),
    ensures
        r == bits_or_bytes(bits, bytes),
{
    match bits {
        Some(b) => Some(b),
        None => match bytes {
            Some(b) => Some(b * 8),
            None => None,
        },
    }
}

impl ObjectDarlingSimplifiedPackage {
    /// Decides an enum's attributes: first those it shares with structures, then its payload
    /// and id lengths, each given in bits or in bytes but not both.
    pub fn try_from_darling(value: EnumDarling) -> (r: Result<Self, AttrError>)
        requires
            bytes_fit(value.enforce_bytes),
            bytes_fit(value.fill_bytes),
            bytes_fit(value.payload_byte_length),
            bytes_fit(value.id_byte_length),
        ensures
            match (
                spec_enforcement(value.enforce_full_bytes, value.enforce_bytes, value.enforce_bits),
                spec_fill(value.fill_bits, value.fill_bytes, value.fill),
            ) {
                (Err(e), _) => r == Err::<Self, AttrError>(e),
                (Ok(_), Err(e)) => r == Err::<Self, AttrError>(e),
                (Ok(enforcement), Ok(fill_bits)) => if value.payload_bit_length is Some && value.payload_byte_length is Some {
                    r == Err::<Self, AttrError>(AttrError::PayloadLengthTwice)
                } else if value.id_bit_length is Some && value.id_byte_length is Some {
                    r == Err::<Self, AttrError>(AttrError::IdLengthTwice)
                } else {
                    r matches Ok(p) && {
                        &&& p.struct_attrs.default_endianness == spec_adjusted_endianness(struct_part(value))
                        &&& p.struct_attrs.dump == value.dump
                        &&& p.struct_attrs.enforcement == enforcement
                        &&& p.struct_attrs.fill_bits == fill_bits
                        &&& p.enum_attrs.payload_bit_length == bits_or_bytes(value.payload_bit_length, value.payload_byte_length)
                        &&& p.enum_attrs.id_bit_length == bits_or_bytes(value.id_bit_length, value.id_byte_length)
                    }
                },
            },
    {
        let struct_attrs = match StructDarlingSimplified::try_from_darling(
            StructDarling {
                default_endianness: value.default_endianness,
                bit_traversal: value.bit_traversal,
                reverse: value.reverse,
                dump: value.dump,
                enforce_full_bytes: value.enforce_full_bytes,
                enforce_bytes: value.enforce_bytes,
                enforce_bits: value.enforce_bits,
                fill_bits: value.fill_bits,
                fill_bytes: value.fill_bytes,
                fill: value.fill,
            },
        ) {
            Ok(s) => s,
            Err(e) => {
                return Err(e);
            },
        };
        if value.payload_bit_length.is_some() && value.payload_byte_length.is_some() {
            return Err(AttrError::PayloadLengthTwice);
        }
        let payload_bit_length = bits_or_bytes_exec(value.payload_bit_length, value.payload_byte_length);
        if value.id_bit_length.is_some() && value.id_byte_length.is_some() {
            return Err(AttrError::IdLengthTwice);
        }
        let id_bit_length = bits_or_bytes_exec(value.id_bit_length, value.id_byte_length);
        Ok(
            ObjectDarlingSimplifiedPackage {
                enum_attrs: EnumDarlingSimplified { payload_bit_length, id_bit_length },
                struct_attrs,
            },
        )
    }
}


/// What a variant's attributes decide once applied to those of its enum: its id, whether it
/// is the default variant, its fill, and the attributes of its field set.
#[derive(Clone, Copy, Debug)]
pub struct VariantSettings {
    pub id: Option<usize>,
    pub invalid: bool,
    pub fill_bits: FillBits,
    pub attrs: AttrsBuilder,
}

/// An endianness, or the default one.
pub open spec fn endianness_or_default(e: Option<Endianness>) -> Endianness {
    match e {
        Some(v) => v,
        None => Endianness::nested_spec(),
    }
}

fn endianness_or_default_exec(e: Option<Endianness>) -> (r: Endianness)
    ensures
        r == endianness_or_default(e),
{
    match e {
        Some(v) => v,
        None => Endianness::nested(),
    }
}

/// Applies the attributes of the variant at position `index` to its enum's attributes
/// `struct_attrs`. `lit_id` is the id the variant's discriminant gives, which may not be
/// given beside an `id` attribute.
pub fn variant_settings(
    struct_attrs: &StructDarlingSimplified,
    value: VariantDarling,
    lit_id: Option<usize>,
    index: usize,
) -> (r: Result<VariantSettings, AttrError>)
    requires
        bytes_fit(value.enforce_bytes),
        bytes_fit(value.fill_bytes),
    ensures
        match (
            spec_enforcement(value.enforce_full_bytes, value.enforce_bytes, value.enforce_bits),
            spec_fill(value.fill_bits, value.fill_bytes, value.fill),
        ) {
            (Err(e), _) => r == Err::<VariantSettings, AttrError>(e),
            (Ok(_), Err(e)) => r == Err::<VariantSettings, AttrError>(e),
            (Ok(enforcement), Ok(fill_bits)) => if value.id is Some && lit_id is Some {
                r == Err::<VariantSettings, AttrError>(AttrError::VariantIdTwice(index))
            } else {
                r matches Ok(v) && {
                    &&& v.id == if value.id is Some {
                        value.id
                    } else {
                        lit_id
                    }
                    &&& v.invalid == value.invalid
                    &&& v.fill_bits == if fill_bits is NoFill {
                        FillBits::NoFill
                    } else {
                        fill_bits
                    }
                    &&& v.attrs.enforcement == enforcement
                    &&& v.attrs.default_endianness == endianness_or_default(
                        spec_variant_endianness(value, struct_attrs.default_endianness),
                    )
                }
            },
        },
{
    let mut attrs = StructDarlingSimplified::default();
    attrs.default_endianness = struct_attrs.default_endianness;
    let variant_attrs = match VariantDarlingSimplified::do_thing(value, &mut attrs) {
        Ok(v) => v,
        Err(e) => {
            return Err(e);
        },
    };
    let default_endianness = endianness_or_default_exec(attrs.default_endianness);
    let id = if variant_attrs.id.is_none() {
        lit_id
    } else if lit_id.is_some() {
        return Err(AttrError::VariantIdTwice(index));
    } else {
        variant_attrs.id
    };
    Ok(
        VariantSettings {
            id,
            invalid: variant_attrs.invalid,
            fill_bits: attrs.fill_bits,
            attrs: AttrsBuilder { enforcement: attrs.enforcement, default_endianness },
        },
    )
}

/// Collects an enum's variants in declaration order, setting the default variant apart.
pub struct EnumVariantsBuilder {
    pub variants: Vec<VariantBuilder>,
    pub invalid: Option<VariantBuilder>,
}

impl EnumVariantsBuilder {
    pub fn new() -> (r: Self)
        ensures
            r.variants@.len() == 0,
            r.invalid is None,
    {
        EnumVariantsBuilder { variants: Vec::new(), invalid: None }
    }

    /// Adds the next variant; only one may be the default (`invalid`) variant.
    pub fn add_variant(&mut self, invalid: bool, variant: VariantBuilder) -> (r: Result<(), AttrError>)
        ensures
            if invalid && old(self).invalid is Some {
                &&& r == Err::<(), AttrError>(AttrError::SecondInvalidVariant(variant.index))
                &&& final(self).variants@ == old(self).variants@
                &&& final(self).invalid == old(self).invalid
            } else if invalid {
                &&& r is Ok
                &&& final(self).variants@ == old(self).variants@
                &&& final(self).invalid == Some(variant)
            } else {
                &&& r is Ok
                &&& final(self).variants@ == old(self).variants@.push(variant)
                &&& final(self).invalid == old(self).invalid
            },
    {
        if invalid {
            if self.invalid.is_some() {
                return Err(AttrError::SecondInvalidVariant(variant.index));
            }
            self.invalid = Some(variant);
        } else {
            self.variants.push(variant);
        }
        Ok(())
    }

    /// Builds the enum: the default variant is the one marked so, else the last variant.
    pub fn finish(
        self,
        struct_attrs: &StructDarlingSimplified,
        enum_attrs: &EnumDarlingSimplified,
    ) -> (r: Result<EnumBuilder, AttrError>)
        ensures
            self.invalid is None && self.variants@.len() == 0 ==> r == Err::<EnumBuilder, AttrError>(AttrError::NoVariants),
            !(self.invalid is None && self.variants@.len() == 0) ==> (r matches Ok(e) && {
                &&& e.invalid == match self.invalid {
                    Some(iv) => iv,
                    None => self.variants@.last(),
                }
                &&& e.variants@ == if self.invalid is Some {
                    self.variants@
                } else {
                    self.variants@.drop_last()
                }
                &&& e.solved_attrs == SolvedFieldSetAttributes { dump: struct_attrs.dump }
                &&& e.id_bit_length == enum_attrs.id_bit_length
                &&& e.payload_bit_length == enum_attrs.payload_bit_length
                &&& e.attrs.enforcement == struct_attrs.enforcement
                &&& e.attrs.default_endianness == endianness_or_default(struct_attrs.default_endianness)
            }),
    {
        let mut variants = self.variants;
        let invalid = match self.invalid {
            Some(iv) => iv,
            None => match variants.pop() {
                Some(last) => last,
                None => {
                    return Err(AttrError::NoVariants);
                },
            },
        };
        Ok(
            EnumBuilder {
                invalid,
                variants,
                solved_attrs: SolvedFieldSetAttributes { dump: struct_attrs.dump },
                payload_bit_length: enum_attrs.payload_bit_length,
                id_bit_length: enum_attrs.id_bit_length,
                attrs: AttrsBuilder {
                    enforcement: struct_attrs.enforcement,
                    default_endianness: endianness_or_default_exec(struct_attrs.default_endianness),
                },
            },
        )
    }
}

/// The structure builder that a structure's decided attributes and fields make.
pub fn struct_builder_from_attrs(
    attrs: &StructDarlingSimplified,
    fields: Vec<DataBuilder>,
    tuple: bool,
) -> (r: StructBuilder)
    ensures
        r.field_set.fields@ == fields@,
        r.field_set.fill_bits == attrs.fill_bits,
        r.field_set.attrs.enforcement == attrs.enforcement,
        r.field_set.attrs.default_endianness == endianness_or_default(attrs.default_endianness),
        r.attrs == (SolvedFieldSetAttributes { dump: attrs.dump }),
        r.tuple == tuple,
{
    let default_endianness = endianness_or_default_exec(attrs.default_endianness);
    StructBuilder {
        field_set: FieldSetBuilder {
            fields,
            fill_bits: attrs.fill_bits,
            attrs: AttrsBuilder { enforcement: attrs.enforcement, default_endianness },
        },
        attrs: SolvedFieldSetAttributes { dump: attrs.dump },
        tuple,
    }
}

} // verus!
