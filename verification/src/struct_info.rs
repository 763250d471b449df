use crate::attrs::{FillBits, StructEnforcement};
use crate::endianness::Endianness;
use vstd::prelude::*;

verus! {

/// The attributes of a structure or variant, as read one at a time from its `bondrewd` list.
#[derive(Clone, Copy, Debug)]
pub struct AttrInfo {
    /// Print the generated code.
    pub dump: bool,
    pub enforcement: StructEnforcement,
    pub default_endianess: Endianness,
    pub fill_bits: FillBits,
    /// Enum only: the variant's id.
    pub id: Option<u128>,
    /// When this is used with an Enum, Invalid means the variant catches every unused id.
    pub invalid: bool,
}

impl Default for AttrInfo {
    fn default() -> (r: Self)
        ensures
            !r.dump,
            r.enforcement is NoRules,
            r.default_endianess == Endianness::nested_spec(),
            r.fill_bits is NoFill,
            r.id is None,
            !r.invalid,
    {
        AttrInfo {
            enforcement: StructEnforcement::NoRules,
            default_endianess: Endianness::nested(),
            fill_bits: FillBits::NoFill,
            id: None,
            invalid: false,
            dump: false,
        }
    }
}

} // verus!
