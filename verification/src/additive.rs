use crate::field::Attributes;
use crate::masks::{get_left_and_mask, get_right_and_mask, left_mask, right_mask};
use crate::resolver::{ceil8, div_ceil8, ResolverData};
use vstd::prelude::*;

verus! {

/// How far a little endian field's bytes are shifted right (negative: left) so that its most
/// significant bits land in the bits its first byte has free.
pub open spec fn little_right_shift(amount_of_bits: int, available: int) -> int {
    let bits_needed_in_msb = if amount_of_bits % 8 == 0 {
        8
    } else {
        amount_of_bits % 8
    };
    let shift = bits_needed_in_msb - available % 8;
    if shift == 8 {
        0
    } else {
        shift
    }
}

/// How far a big endian field's bytes are shifted right so that its bits line up with the
/// bits its first byte has free.
pub open spec fn big_right_shift(amount_of_bits: int, available: int) -> int {
    let shift = amount_of_bits % 8 - available % 8;
    if shift < 0 {
        shift + 8
    } else {
        shift
    }
}

/// How far a nested field's bytes are shifted right to line up with its first byte.
pub open spec fn nested_right_shift(available: int) -> int {
    (8 - available % 8) % 8
}

/// The bits of a field's first byte that belong to it.
pub open spec fn first_byte_mask(available: int) -> u8 {
    right_mask(available)
}

/// The bits of a field's last byte that belong to it.
pub open spec fn last_byte_mask(amount_of_bits: int, available: int) -> u8 {
    let bits_in_last_byte = (amount_of_bits - available) % 8;
    if bits_in_last_byte == 0 {
        left_mask(8)
    } else {
        left_mask(bits_in_last_byte)
    }
}

/// The shifts agree with the field's length: after a shift, the field's last bit falls where
/// a whole number of bytes of it ends, and a nested field starts on a byte boundary.
pub proof fn law_shifts_line_up(amount_of_bits: int, available: int)
    requires
        0 <= amount_of_bits,
        0 <= available,
    ensures
        0 <= big_right_shift(amount_of_bits, available) < 8,
        (available % 8 + big_right_shift(amount_of_bits, available)) % 8 == amount_of_bits % 8,
        -7 <= little_right_shift(amount_of_bits, available) < 8,
        (available % 8 + little_right_shift(amount_of_bits, available)) % 8 == amount_of_bits % 8,
        0 <= nested_right_shift(available) < 8,
        (available % 8 + nested_right_shift(available)) % 8 == 0,
{
}

/// Shifts and masks for writing a little endian field in place.
pub struct ResolverDataLittleAdditive {
    pub right_shift: i8,
    pub first_bit_mask: u8,
    pub last_bit_mask: u8,
}

/// The shift for writing a nested field in place.
pub struct ResolverDataNestedAdditive {
    pub right_shift: i8,
}

/// Shifts and masks for writing a big endian field in place.
pub struct ResolverDataBigAdditive {
    pub right_shift: i8,
    pub first_bit_mask: u8,
    pub last_bit_mask: u8,
    pub bits_in_last_byte: usize,
}

/// A resolved field reaches at least to the end of its first byte.
pub open spec fn spans_first_byte(qi: &ResolverData) -> bool {
    &&& qi.bit_range.start <= qi.bit_range.end
    &&& qi.available_bits_in_first_byte <= qi.bit_range.end - qi.bit_range.start
}

impl ResolverDataLittleAdditive {
    pub fn from_resolver_data(qi: &ResolverData) -> (r: Self)
        requires
            spans_first_byte(qi),
        ensures
            r.right_shift == little_right_shift(qi.bit_range.end - qi.bit_range.start, qi.available_bits_in_first_byte as int),
            r.first_bit_mask == first_byte_mask(qi.available_bits_in_first_byte as int),
            r.last_bit_mask == last_byte_mask(qi.bit_range.end - qi.bit_range.start, qi.available_bits_in_first_byte as int),
    {
        let amount_of_bits = qi.bit_length();
        let bits_in_last_byte = (amount_of_bits - qi.available_bits_in_first_byte()) % 8;
        let mut bits_needed_in_msb: usize = amount_of_bits % 8;
        if bits_needed_in_msb == 0 {
            bits_needed_in_msb = 8;
        }
        let available_in_byte: usize = qi.available_bits_in_first_byte() % 8;
        let mut right_shift: i8 = (bits_needed_in_msb as i8) - (available_in_byte as i8);
        if right_shift == 8 {
            right_shift = 0;
        }
        let first_bit_mask = get_right_and_mask(qi.available_bits_in_first_byte());
        let last_bit_mask = if bits_in_last_byte == 0 {
            get_left_and_mask(8)
        } else {
            get_left_and_mask(bits_in_last_byte)
        };
        Self { right_shift, first_bit_mask, last_bit_mask }
    }
}

impl ResolverDataNestedAdditive {
    pub fn from_resolver_data(quote_info: &ResolverData) -> (r: Self)
        ensures
            r.right_shift == nested_right_shift(quote_info.available_bits_in_first_byte as int),
    {
        let available_in_byte: usize = quote_info.available_bits_in_first_byte() % 8;
        let right_shift: i8 = (8i8 - (available_in_byte as i8)) % 8;
        Self { right_shift }
    }
}

impl ResolverDataBigAdditive {
    pub fn from_resolver_data(qi: &ResolverData) -> (r: Self)
        requires
            spans_first_byte(qi),
        ensures
            r.right_shift == big_right_shift(qi.bit_range.end - qi.bit_range.start, qi.available_bits_in_first_byte as int),
            r.first_bit_mask == first_byte_mask(qi.available_bits_in_first_byte as int),
            r.last_bit_mask == last_byte_mask(qi.bit_range.end - qi.bit_range.start, qi.available_bits_in_first_byte as int),
            r.bits_in_last_byte == (qi.bit_range.end - qi.bit_range.start - qi.available_bits_in_first_byte) % 8,
    {
        let amount_of_bits = qi.bit_length();
        let bits_in_last_byte = (amount_of_bits - qi.available_bits_in_first_byte()) % 8;
        let bits_in_msb: usize = amount_of_bits % 8;
        let available_in_byte: usize = qi.available_bits_in_first_byte() % 8;
        let mut right_shift: i8 = (bits_in_msb as i8) - (available_in_byte as i8);
        if right_shift < 0 {
            right_shift = right_shift + 8;
        }
        let first_bit_mask = get_right_and_mask(qi.available_bits_in_first_byte());
        let last_bit_mask = if bits_in_last_byte == 0 {
            get_left_and_mask(8)
        } else {
            get_left_and_mask(bits_in_last_byte)
        };
        Self { right_shift, first_bit_mask, last_bit_mask, bits_in_last_byte }
    }
}


/// Where a field lives in the byte array, described by its bit count and its first byte.
pub struct QuoteInfo {
    /// Amount of bits the field uses in bit form.
    pub amount_of_bits: usize,
    /// Amount of bits in the first byte this field has bits in that are not used by this field.
    pub zeros_on_left: usize,
    /// Amount of bits in the first byte this field has bits in that are used by this field.
    pub available_bits_in_first_byte: usize,
    /// the first byte this field is stored in
    pub starting_inject_byte: usize,
    /// if the structure is flipped. (reverse the bytes order)
    pub flip: Option<usize>,
}

impl QuoteInfo {
    /// Works out where a field starts: the bit inside its first byte, and that byte, counted
    /// from the end when the structure's byte order is reversed (`flip` is the last index).
    pub fn new_inner(attrs: &Attributes, flip: Option<usize>) -> (r: Self)
        requires
            attrs.bit_range.start <= attrs.bit_range.end,
            flip matches Some(f) ==> attrs.bit_range.start / 8 <= f,
        ensures
            r.amount_of_bits == attrs.bit_range.end - attrs.bit_range.start,
            r.zeros_on_left == attrs.bit_range.start % 8,
            r.available_bits_in_first_byte == 8 - attrs.bit_range.start % 8,
            r.starting_inject_byte == match flip {
                Some(f) => f - attrs.bit_range.start / 8,
                None => (attrs.bit_range.start / 8) as int,
            },
            r.flip == flip,
    {
        let amount_of_bits = attrs.bit_length();
        let zeros_on_left: usize = attrs.bit_range.start % 8;
        let available_bits_in_first_byte: usize = 8 - zeros_on_left;
        let mut starting_inject_byte: usize = attrs.bit_range.start / 8;
        let flip = if let Some(flip) = flip {
            starting_inject_byte = flip - starting_inject_byte;
            Some(flip)
        } else {
            None
        };
        Self { amount_of_bits, zeros_on_left, available_bits_in_first_byte, starting_inject_byte, flip }
    }

    /// Amount of bits the field uses in bit form.
    pub fn amount_of_bits(&self) -> (r: usize)
        ensures
            r == self.amount_of_bits,
    {
        self.amount_of_bits
    }

    pub fn starting_inject_byte(&self) -> (r: usize)
        ensures
            r == self.starting_inject_byte,
    {
        self.starting_inject_byte
    }

    pub fn available_bits_in_first_byte(&self) -> (r: usize)
        ensures
            r == self.available_bits_in_first_byte,
    {
        self.available_bits_in_first_byte
    }

    pub fn zeros_on_left(&self) -> (r: usize)
        ensures
            r == self.zeros_on_left,
    {
        self.zeros_on_left
    }

    /// Returns the next byte index in sequence based of the given `index` and whether or not the
    /// Structure in has a reverse bytes order.
    pub fn next_index(&self, index: usize) -> (r: usize)
        requires
            self.flip is Some ==> index >= 1,
            self.flip is None ==> index < usize::MAX,
        ensures
            r == if self.flip is Some {
                index - 1
            } else {
                index + 1
            },
    {
        if self.flip.is_some() {
            index - 1
        } else {
            index + 1
        }
    }

    /// Returns the `starting_inject_byte` plus or minus `offset` depending on if the bytes order is reversed.
    pub fn offset_starting_inject_byte(&self, offset: usize) -> (r: usize)
        requires
            self.flip is Some ==> offset <= self.starting_inject_byte,
            self.flip is None ==> self.starting_inject_byte + offset <= usize::MAX,
        ensures
            r == if self.flip is Some {
                self.starting_inject_byte - offset
            } else {
                self.starting_inject_byte + offset
            },
    {
        if self.flip.is_some() {
            self.starting_inject_byte - offset
        } else {
            self.starting_inject_byte + offset
        }
    }

    /// The index, inside the field's own bytes, of the byte that holds its last bit.
    pub fn fields_last_bits_index(&self) -> (r: usize)
        requires
            self.amount_of_bits > 0,
        ensures
            r == ceil8(self.amount_of_bits as int) - 1,
    {
        div_ceil8(self.amount_of_bits) - 1
    }

    pub fn flip(&self) -> (r: Option<usize>)
        ensures
            r == self.flip,
    {
        self.flip
    }
}

/// Shifts and masks for a big endian field described by a `QuoteInfo`.
pub struct BigQuoteInfo {
    pub right_shift: i8,
    pub first_bit_mask: u8,
    pub last_bit_mask: u8,
    pub bits_in_last_byte: usize,
}

/// Shifts and masks for a little endian field described by a `QuoteInfo`.
pub struct LittleQuoteInfo {
    pub right_shift: i8,
    pub first_bit_mask: u8,
    pub last_bit_mask: u8,
}

/// The shift for a field without endianness described by a `QuoteInfo`.
pub struct NoneQuoteInfo {
    pub right_shift: i8,
}

impl BigQuoteInfo {
    pub fn from_quote_info(qi: &QuoteInfo) -> (r: Self)
        requires
            qi.available_bits_in_first_byte <= qi.amount_of_bits,
        ensures
            r.right_shift == big_right_shift(qi.amount_of_bits as int, qi.available_bits_in_first_byte as int),
            r.first_bit_mask == first_byte_mask(qi.available_bits_in_first_byte as int),
            r.last_bit_mask == last_byte_mask(qi.amount_of_bits as int, qi.available_bits_in_first_byte as int),
            r.bits_in_last_byte == (qi.amount_of_bits - qi.available_bits_in_first_byte) % 8,
    {
        let bits_in_last_byte = (qi.amount_of_bits() - qi.available_bits_in_first_byte()) % 8;
        let bits_in_msb: usize = qi.amount_of_bits() % 8;
        let available_in_byte: usize = qi.available_bits_in_first_byte() % 8;
        let mut right_shift: i8 = (bits_in_msb as i8) - (available_in_byte as i8);
        if right_shift < 0 {
            right_shift = right_shift + 8;
        }
        let first_bit_mask = get_right_and_mask(qi.available_bits_in_first_byte());
        let last_bit_mask = if bits_in_last_byte == 0 {
            get_left_and_mask(8)
        } else {
            get_left_and_mask(bits_in_last_byte)
        };
        Self { right_shift, first_bit_mask, last_bit_mask, bits_in_last_byte }
    }
}

impl LittleQuoteInfo {
    pub fn from_quote_info(qi: &QuoteInfo) -> (r: Self)
        requires
            qi.available_bits_in_first_byte <= qi.amount_of_bits,
        ensures
            r.right_shift == little_right_shift(qi.amount_of_bits as int, qi.available_bits_in_first_byte as int),
            r.first_bit_mask == first_byte_mask(qi.available_bits_in_first_byte as int),
            r.last_bit_mask == last_byte_mask(qi.amount_of_bits as int, qi.available_bits_in_first_byte as int),
    {
        let bits_in_last_byte = (qi.amount_of_bits() - qi.available_bits_in_first_byte()) % 8;
        let mut bits_needed_in_msb: usize = qi.amount_of_bits() % 8;
        if bits_needed_in_msb == 0 {
            bits_needed_in_msb = 8;
        }
        let available_in_byte: usize = qi.available_bits_in_first_byte() % 8;
        let mut right_shift: i8 = (bits_needed_in_msb as i8) - (available_in_byte as i8);
        if right_shift == 8 {
            right_shift = 0;
        }
        let first_bit_mask = get_right_and_mask(qi.available_bits_in_first_byte());
        let last_bit_mask = if bits_in_last_byte == 0 {
            get_left_and_mask(8)
        } else {
            get_left_and_mask(bits_in_last_byte)
        };
        Self { right_shift, first_bit_mask, last_bit_mask }
    }
}

impl NoneQuoteInfo {
    pub fn from_quote_info(quote_info: &QuoteInfo) -> (r: Self)
        ensures
            r.right_shift == 8 - quote_info.available_bits_in_first_byte % 8,
    {
        let available_in_byte: usize = quote_info.available_bits_in_first_byte() % 8;
        let right_shift: i8 = 8i8 - (available_in_byte as i8);
        Self { right_shift }
    }
}

} // verus!
