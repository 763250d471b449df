use convert_case::{Case, Casing};
use crate::text::{decimal, decimal_string};
use std::ops::Range;
use vstd::prelude::*;
use vstd::string::StringExecFns;

verus! {

/// The snake case form of a name, as `convert_case` gives it.
pub uninterp spec fn snake_case_of(s: Seq<char>) -> Seq<char>;

/// The screaming snake case form of a name, as `convert_case` gives it.
pub uninterp spec fn upper_snake_case_of(s: Seq<char>) -> Seq<char>;

/// Calls `convert_case::Casing::to_case` with `Case::Snake`. The result is a function of the
/// name alone, named `snake_case_of`; nothing more is stated of it.
#[verifier::external_body]
fn to_snake_case(s: &str) -> (r: String)
    ensures
        r@ == snake_case_of(s@),
{
    s.to_case(Case::Snake)
}

/// Calls `convert_case::Casing::to_case` with `Case::UpperSnake`. The result is a function of
/// the name alone, named `upper_snake_case_of`; nothing more is stated of it.
#[verifier::external_body]
fn to_upper_snake_case(s: &str) -> (r: String)
    ensures
        r@ == upper_snake_case_of(s@),
{
    s.to_case(Case::UpperSnake)
}

/// The names of the constants that hold a variant's size in bytes and in bits.
pub fn variant_size_const_names(variant_name: &str) -> (r: (String, String))
    ensures
        r.0@ == upper_snake_case_of(variant_name@) + "_BYTE_SIZE"@,
        r.1@ == upper_snake_case_of(variant_name@) + "_BIT_SIZE"@,
{
    let upper_v_name = to_upper_snake_case(variant_name);
    let byte_name = upper_v_name.clone().concat("_BYTE_SIZE");
    let bit_name = upper_v_name.concat("_BIT_SIZE");
    (byte_name, bit_name)
}

/// The names of the checked slice type and of the function that checks a slice, for a
/// structure, or for a variant of the enum `enum_name`; `mutable` for the writing kind.
pub fn check_slice_names(name: &str, enum_name: Option<&str>, mutable: bool) -> (r: (String, String))
    ensures
        r.0@ == match enum_name {
            Some(e) => e@,
            None => name@,
        } + if mutable {
            "CheckedMut"@
        } else {
            "Checked"@
        },
        r.1@ == if mutable {
            "check_slice_mut"@
        } else {
            "check_slice"@
        } + match enum_name {
            Some(_) => "_"@ + snake_case_of(name@),
            None => Seq::<char>::empty(),
        },
{
    let suffix = if mutable {
        "CheckedMut"
    } else {
        "Checked"
    };
    let fn_base = if mutable {
        "check_slice_mut"
    } else {
        "check_slice"
    };
    match enum_name {
        Some(ename) => {
            let checked = String::from_str(ename).concat(suffix);
            let snake = to_snake_case(name);
            let fn_name = String::from_str(fn_base).concat("_").concat(snake.as_str());
            assert(fn_name@ =~= fn_base@ + ("_"@ + snake_case_of(name@)));
            (checked, fn_name)
        },
        None => {
            let checked = String::from_str(name).concat(suffix);
            let fn_name = String::from_str(fn_base);
            assert(fn_name@ =~= fn_base@ + Seq::<char>::empty());
            (checked, fn_name)
        },
    }
}

fn format_bits_through(first: usize, last: usize) -> (s: String)
    ensures
        s@ == "bits "@ + decimal(first as nat) + " through "@ + decimal(last as nat),
{
    let mut s = String::from_str("bits ");
    s.append(decimal_string(first).as_str());
    s.append(" through ");
    s.append(decimal_string(last).as_str());
    s
}

fn format_single_bit(index: usize) -> (s: String)
    ensures
        s@ == "bit "@ + decimal(index as nat),
{
    String::from_str("bit ").concat(decimal_string(index).as_str())
}

/// The words that the documentation of a field's read and write functions uses for the bits
/// the field takes: `bits A through B` for several bits, `bit A` for one.
pub fn get_bits_effected(bit_range: &Range<usize>) -> (r: String)
    requires
        bit_range.start <= bit_range.end,
    ensures
        bit_range.end - bit_range.start > 1 ==> r@ == "bits "@ + decimal(bit_range.start as nat) + " through "@
            + decimal((bit_range.end - 1) as nat),
        bit_range.end - bit_range.start <= 1 ==> r@ == "bit "@ + decimal(bit_range.start as nat),
{
    if bit_range.end - bit_range.start > 1 {
        format_bits_through(bit_range.start, bit_range.end - 1)
    } else {
        format_single_bit(bit_range.start)
    }
}

} // verus!
