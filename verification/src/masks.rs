use crate::text::{decimal, decimal_string, signed_decimal, signed_decimal_string};
use vstd::string::StringExecFns;
use vstd::prelude::*;

verus! {

/// A byte whose `num` least significant bits are set (no bit for `num` outside `1..=8`).
pub open spec fn right_mask(num: int) -> u8 {
    if 1 <= num <= 8 {
        0xffu8 >> ((8 - num) as u8)
    } else {
        0u8
    }
}

/// A byte whose `num` most significant bits are set (no bit for `num` outside `1..=8`).
pub open spec fn left_mask(num: int) -> u8 {
    if 1 <= num <= 8 {
        0xffu8 << ((8 - num) as u8)
    } else {
        0u8
    }
}

/// Whether bit `i` (0 is the least significant bit) of `x` is set.
pub open spec fn bit_is_set(x: u8, i: u8) -> bool {
    (x >> i) & 1u8 == 1u8
}

proof fn lemma_mask_table()
    by (bit_vector)
    ensures
        0xffu8 >> 0u8 == 0xffu8,
        0xffu8 >> 1u8 == 0x7fu8,
        0xffu8 >> 2u8 == 0x3fu8,
        0xffu8 >> 3u8 == 0x1fu8,
        0xffu8 >> 4u8 == 0x0fu8,
        0xffu8 >> 5u8 == 0x07u8,
        0xffu8 >> 6u8 == 0x03u8,
        0xffu8 >> 7u8 == 0x01u8,
        0xffu8 << 0u8 == 0xffu8,
        0xffu8 << 1u8 == 0xfeu8,
        0xffu8 << 2u8 == 0xfcu8,
        0xffu8 << 3u8 == 0xf8u8,
        0xffu8 << 4u8 == 0xf0u8,
        0xffu8 << 5u8 == 0xe0u8,
        0xffu8 << 6u8 == 0xc0u8,
        0xffu8 << 7u8 == 0x80u8,
{
}

/// Returns a u8 mask with provided `num` amount of 1's on the left side (most significant bit)
pub fn get_left_and_mask(num: usize) -> (mask: u8)
    ensures
        mask == left_mask(num as int),
{
    proof {
        lemma_mask_table();
    }
    match num {
        8 => 0b1111_1111,
        7 => 0b1111_1110,
        6 => 0b1111_1100,
        5 => 0b1111_1000,
        4 => 0b1111_0000,
        3 => 0b1110_0000,
        2 => 0b1100_0000,
        1 => 0b1000_0000,
        _ => 0b0000_0000,
    }
}

/// Returns a u8 mask with provided `num` amount of 1's on the right side (least significant bit)
pub fn get_right_and_mask(num: usize) -> (mask: u8)
    ensures
        mask == right_mask(num as int),
{
    proof {
        lemma_mask_table();
    }
    match num {
        8 => 0b1111_1111,
        7 => 0b0111_1111,
        6 => 0b0011_1111,
        5 => 0b0001_1111,
        4 => 0b0000_1111,
        3 => 0b0000_0111,
        2 => 0b0000_0011,
        1 => 0b0000_0001,
        _ => 0b0000_0000,
    }
}


proof fn lemma_partition_table()
    by (bit_vector)
    ensures
        0xffu8 & 0u8 == 0u8 && 0xffu8 | 0u8 == 0xffu8,
        0u8 & 0xffu8 == 0u8 && 0u8 | 0xffu8 == 0xffu8,
        0xfeu8 & 0x01u8 == 0u8 && 0xfeu8 | 0x01u8 == 0xffu8,
        0xfcu8 & 0x03u8 == 0u8 && 0xfcu8 | 0x03u8 == 0xffu8,
        0xf8u8 & 0x07u8 == 0u8 && 0xf8u8 | 0x07u8 == 0xffu8,
        0xf0u8 & 0x0fu8 == 0u8 && 0xf0u8 | 0x0fu8 == 0xffu8,
        0xe0u8 & 0x1fu8 == 0u8 && 0xe0u8 | 0x1fu8 == 0xffu8,
        0xc0u8 & 0x3fu8 == 0u8 && 0xc0u8 | 0x3fu8 == 0xffu8,
        0x80u8 & 0x7fu8 == 0u8 && 0x80u8 | 0x7fu8 == 0xffu8,
{
}

/// Every mask built by `get_left_and_mask` is the complement of the one built by
/// `get_right_and_mask` for the remaining bits of the byte: together they cover the
/// byte exactly once.
pub proof fn law_left_and_right_masks_partition_byte(n: u8)
    requires
        n <= 8,
    ensures
        left_mask(n as int) & right_mask(8 - n) == 0u8,
        left_mask(n as int) | right_mask(8 - n) == 0xffu8,
{
    lemma_mask_table();
    lemma_partition_table();
}

proof fn lemma_right_mask_bits(n: u8, i: u8)
    by (bit_vector)
    requires
        1 <= n <= 8,
        i < 8,
    ensures
        ((0xffu8 >> ((8 - n) as u8)) >> i) & 1u8 == 1u8 <==> i < n,
        ((0xffu8 << ((8 - n) as u8)) >> i) & 1u8 == 1u8 <==> 8 - n <= i,
{
}

/// `get_right_and_mask(n)` sets exactly the `n` least significant bits and
/// `get_left_and_mask(n)` exactly the `n` most significant bits of a byte.
pub proof fn law_mask_bits(n: u8, i: u8)
    requires
        1 <= n <= 8,
        i < 8,
    ensures
        bit_is_set(right_mask(n as int), i) <==> i < n,
        bit_is_set(left_mask(n as int), i) <==> 8 - n <= i,
{
    lemma_right_mask_bits(n, i);
}

/// The starting byte index of a big-endian field: `ceil((amount_of_bits - right_rotation) / 8)`,
/// where a difference that is not positive gives `0`.
pub open spec fn be_first_index(amount_of_bits: int, right_rotation: int) -> int {
    let d = amount_of_bits - right_rotation;
    if d <= 0 {
        0
    } else {
        (d + 7) / 8
    }
}

/// The text of the error `get_be_starting_index` returns: the four numbers in decimal
/// between fixed words.
pub open spec fn be_starting_index_error(
    amount_of_bits: usize,
    right_rotation: i8,
    last_index: usize,
    first: usize,
) -> Seq<char> {
    "Failed getting the starting index for big endianness, aob: "@ + decimal(amount_of_bits as nat)
        + ", rr: "@ + signed_decimal(right_rotation as int) + ", li: "@ + decimal(last_index as nat)
        + ", f: "@ + decimal(first as nat) + "."@
}

/// Writes the error of `get_be_starting_index`.
fn be_starting_index_error_text(
    amount_of_bits: usize,
    right_rotation: i8,
    last_index: usize,
    first: usize,
) -> (s: String)
    ensures
        s@ == be_starting_index_error(amount_of_bits, right_rotation, last_index, first),
{
    let mut s = String::from_str("Failed getting the starting index for big endianness, aob: ");
    s.append(decimal_string(amount_of_bits).as_str());
    s.append(", rr: ");
    s.append(signed_decimal_string(right_rotation).as_str());
    s.append(", li: ");
    s.append(decimal_string(last_index).as_str());
    s.append(", f: ");
    s.append(decimal_string(first).as_str());
    s.append(".");
    s
}

/// calculate the starting bit index for a field.
///
/// Returns the index of the byte the first bits of the field
///
/// # Arguments
/// * `amount_of_bits` - amount of bits the field will be after `into_bytes`.
/// * `right_rotation` - amount of bit Rotations to preform on the field. Note if rotation is not needed
///                         to retain all used bits then a shift could be used.
/// * `last_index` - total struct bytes size minus 1.
pub fn get_be_starting_index(amount_of_bits: usize, right_rotation: i8, last_index: usize) -> (res:
    Result<usize, String>)
    ensures
        last_index < be_first_index(amount_of_bits as int, right_rotation as int) ==> (res matches Err(
            msg,
        ) && msg@ == be_starting_index_error(
            amount_of_bits,
            right_rotation,
            last_index,
            be_first_index(amount_of_bits as int, right_rotation as int) as usize,
        )),
        be_first_index(amount_of_bits as int, right_rotation as int) <= last_index ==> res
            == Ok::<usize, String>(
            (last_index - be_first_index(amount_of_bits as int, right_rotation as int)) as usize,
        ),
{
    let first: usize = if right_rotation >= 0 {
        let r: usize = right_rotation as usize;
        if amount_of_bits <= r {
            0
        } else {
            let d: usize = amount_of_bits - r;
            d / 8 + if d % 8 != 0 {
                1
            } else {
                0
            }
        }
    } else {
        let m: usize = (0i16 - right_rotation as i16) as usize;
        amount_of_bits / 8 + (amount_of_bits % 8 + m + 7) / 8
    };
    if last_index < first {
        Err(be_starting_index_error_text(amount_of_bits, right_rotation, last_index, first))
    } else {
        Ok(last_index - first)
    }
}

/// The mask of a byte whose bits `start..=end` are set, bit 0 being the most significant bit.
pub open spec fn span_mask(start: int, end: int) -> u8 {
    right_mask(end - start + 1) << ((7 - end) as u8)
}

/// A mask that selects a run of bits in a byte, and the left shift that moves a value
/// into that run.
pub struct MaskAndShift {
    /// mask to get only the relevant bits.
    pub mask: u8,
    /// left shift amount.
    pub shift: u32,
}

proof fn lemma_grow_ones(k: u8)
    by (bit_vector)
    requires
        1 <= k < 8,
    ensures
        ((0xffu8 >> ((8 - k) as u8)) << 1u8) | 1u8 == 0xffu8 >> ((8 - (k + 1)) as u8),
{
}

impl MaskAndShift {
    /// `start` should never be greater than `end`. `end` should be less than or equal to 7.
    pub fn from_start_end(start: usize, end: usize) -> (res: Self)
        requires
            start <= end,
            end < 8,
        ensures
            res.shift == 7 - end,
            res.mask == span_mask(start as int, end as int),
    {
        let bits: usize = (end - start) + 1;
        let mut mask: u8 = 0;
        let mut k: usize = 0;
        proof {
            lemma_mask_table();
        }
        while k < bits
            invariant
                0 <= k <= bits,
                bits <= 8,
                mask == right_mask(k as int),
            decreases bits - k,
        {
            proof {
                lemma_mask_table();
                if k >= 1 {
                    lemma_grow_ones(k as u8);
                }
            }
            assert((0u8 << 1u8) | 1u8 == 1u8) by (bit_vector);
            mask = mask << 1u8;
            mask = mask | 1;
            k = k + 1;
        }
        let shift: u32 = ((8 - bits) - start) as u32;
        let mask: u8 = mask << shift;
        Self { mask, shift }
    }

    pub fn split(self) -> (res: (u8, u32))
        ensures
            res == (self.mask, self.shift),
    {
        (self.mask, self.shift)
    }
}

proof fn lemma_span_mask_bits(s: u8, e: u8, i: u8)
    by (bit_vector)
    requires
        s <= e < 8,
        i < 8,
    ensures
        (((0xffu8 >> ((7 - e + s) as u8)) << ((7 - e) as u8)) >> i) & 1u8 == 1u8 <==> 7 - e <= i
            && i <= 7 - s,
{
}

proof fn lemma_edge_masks(k: u8)
    by (bit_vector)
    requires
        1 <= k <= 8,
    ensures
        (0xffu8 >> ((8 - k) as u8)) << ((8 - k) as u8) == 0xffu8 << ((8 - k) as u8),
        (0xffu8 >> ((8 - k) as u8)) << 0u8 == 0xffu8 >> ((8 - k) as u8),
{
}

/// The mask of `MaskAndShift::from_start_end(start, end)` holds exactly the bits
/// `start..=end` of the byte, counted from the most significant bit.
pub proof fn law_span_mask_bits(start: u8, end: u8, i: u8)
    requires
        start <= end < 8,
        i < 8,
    ensures
        bit_is_set(span_mask(start as int, end as int), i) <==> 7 - end <= i <= 7 - start,
{
    lemma_span_mask_bits(start, end, i);
}

/// A span that starts at the most significant bit is a left mask, one that ends at the
/// least significant bit is a right mask.
pub proof fn law_span_mask_matches_edge_masks(n: u8)
    requires
        1 <= n <= 8,
    ensures
        span_mask(0, n - 1) == left_mask(n as int),
        span_mask(8 - n, 7) == right_mask(n as int),
{
    lemma_edge_masks(n);
}

} // verus!
