use crate::attrs::{FieldSetBuilder, FillBits};
use crate::error::SolvingError;
use crate::resolver::{ceil8, div_ceil8};
use vstd::prelude::*;

verus! {

/// `2` to the power `n`.
pub open spec fn pow2(n: nat) -> nat
    decreases n,
{
    if n == 0 {
        1
    } else {
        2 * pow2((n - 1) as nat)
    }
}

/// The number of bits in the binary form of `x` (zero for zero).
pub open spec fn spec_bits_needed(x: nat) -> nat
    decreases x,
{
    if x == 0 {
        0
    } else {
        1 + spec_bits_needed(x / 2)
    }
}

proof fn lemma_shift_is_half(x: usize)
    by (bit_vector)
    ensures
        x >> 1usize == x / 2,
{
}

proof fn lemma_bits_needed_small(x: nat)
    ensures
        spec_bits_needed(x) <= x,
    decreases x,
{
    if x > 0 {
        lemma_bits_needed_small(x / 2);
    }
}

/// Finds the minimal number of bits that can hold `x`.
pub fn bits_needed(x: usize) -> (n: usize)
    ensures
        n == spec_bits_needed(x as nat),
{
    let ghost x0 = x;
    let mut x = x;
    // find minimal id size from largest id value
    let mut n: usize = 0;
    proof {
        lemma_bits_needed_small(x0 as nat);
    }
    while x != 0
        invariant
            n + spec_bits_needed(x as nat) == spec_bits_needed(x0 as nat),
            spec_bits_needed(x0 as nat) <= x0,
        decreases x,
    {
        proof {
            lemma_shift_is_half(x);
        }
        x = x >> 1;
        n = n + 1;
    }
    n
}

/// `bits_needed(x)` is the least number of bits whose values reach `x`: `x` is below
/// `2^bits_needed(x)`, and a non-zero `x` is at least `2^(bits_needed(x) - 1)`.
pub proof fn law_bits_needed_is_minimal(x: nat)
    ensures
        x < pow2(spec_bits_needed(x)),
        x > 0 ==> pow2((spec_bits_needed(x) - 1) as nat) <= x,
    decreases x,
{
    if x > 0 {
        law_bits_needed_is_minimal(x / 2);
    }
}

/// Whether `x` is one of the values of `v`.
pub fn contains_id(v: &Vec<usize>, x: usize) -> (r: bool)
    ensures
        r == v@.contains(x),
{
    let mut i: usize = 0;
    while i < v.len()
        invariant
            i <= v.len(),
            forall|j: int| 0 <= j < i ==> v@[j] != x,
        decreases v.len() - i,
    {
        if v[i] == x {
            return true;
        }
        i = i + 1;
    }
    false
}

/// Contains builder information for constructing variant style bitfield models.
pub struct VariantBuilder {
    /// The id value that this variant shall be used for.
    pub id: Option<usize>,
    /// the `field_set`
    pub field_set: FieldSetBuilder,
    pub tuple: bool,
    /// The position of the variant in the enum's declaration.
    pub index: usize,
}

/// A variant whose id has been decided.
pub struct VariantBuilt<'a> {
    /// The id value that this variant shall be used for.
    pub id: usize,
    /// the `field_set`
    pub field_set: &'a FieldSetBuilder,
    pub tuple: bool,
    /// The position of the variant in the enum's declaration.
    pub index: usize,
}

/// Records the id a variant was given, refusing an id that an earlier variant was given.
pub fn check_for_id(variant: &VariantBuilder, used_ids: &mut Vec<usize>) -> (r: Result<(), SolvingError>)
    ensures
        match variant.id {
            Some(v) => if old(used_ids)@.contains(v) {
                r == Err::<(), SolvingError>(SolvingError::VariantConflict(variant.index))
                    && final(used_ids)@ == old(used_ids)@
            } else {
                r is Ok && final(used_ids)@ == old(used_ids)@.push(v)
            },
            None => r is Ok && final(used_ids)@ == old(used_ids)@,
        },
{
    if let Some(value) = variant.id {
        if contains_id(used_ids, value) {
            return Err(SolvingError::VariantConflict(variant.index));
        }
        used_ids.push(value);
    }
    Ok(())
}

/// Whether `f` is the first id at or after `from` that no variant has taken.
pub open spec fn is_first_free(used: Seq<usize>, from: int, f: int) -> bool {
    &&& f >= from
    &&& !used.contains(f as usize)
    &&& forall|h: usize| from <= h < f ==> #[trigger] used.contains(h)
}

/// The first id at or after `from` that is not in `used`.
pub open spec fn first_free(used: Seq<usize>, from: int) -> int {
    choose|f: int| is_first_free(used, from, f)
}

proof fn lemma_first_free_unique(used: Seq<usize>, from: int, f: int)
    requires
        is_first_free(used, from, f),
        0 <= from,
        f <= usize::MAX,
    ensures
        first_free(used, from) == f,
{
    let g = first_free(used, from);
    assert(is_first_free(used, from, g));
    if g < f {
        let gu = g as usize;
        assert(from <= gu < f);
        assert(used.contains(gu));
    } else if f < g {
        let fu = f as usize;
        assert(from <= fu < g);
        assert(used.contains(fu));
    }
    assert(g == f);
}

/// There is always a free id at or after `from` when the taken ones are bounded, and it is
/// at most one past the bound.
pub proof fn lemma_first_free_exists(used: Seq<usize>, from: int, bound: int)
    requires
        forall|u: usize| used.contains(u) ==> u <= bound,
        0 <= from <= bound + 1,
        bound + 1 <= usize::MAX,
    ensures
        is_first_free(used, from, first_free(used, from)),
        first_free(used, from) <= bound + 1,
    decreases bound + 1 - from,
{
    if !used.contains(from as usize) {
        assert(is_first_free(used, from, from));
        lemma_first_free_unique(used, from, from);
    } else {
        lemma_first_free_exists(used, from + 1, bound);
        let f = first_free(used, from + 1);
        assert(is_first_free(used, from, f)) by {
            assert forall|h: usize| from <= h < f implies #[trigger] used.contains(h) by {
                if h == from {
                } else {
                    assert(from + 1 <= h);
                }
            }
        }
        lemma_first_free_unique(used, from, f);
    }
}

/// Gives a variant its id: the one it declared, or the first id not taken at or after
/// `next`. `next` becomes the id after it and `largest_variant_id` keeps the largest id.
pub fn get_built_variant<'a>(
    variant: &'a VariantBuilder,
    used_ids: &mut Vec<usize>,
    next: &mut usize,
    largest_variant_id: &mut usize,
    bound: Ghost<int>,
) -> (r: Result<VariantBuilt<'a>, SolvingError>)
    requires
        forall|u: usize| old(used_ids)@.contains(u) ==> u <= bound@,
        *old(next) <= bound@ + 1,
        variant.id matches Some(v) ==> v <= bound@,
        bound@ + 2 <= usize::MAX,
    ensures
        r matches Ok(b) && ({
            let id = match variant.id {
                Some(v) => v as int,
                None => first_free(old(used_ids)@, *old(next) as int),
            };
            &&& b.id == id
            &&& *b.field_set == variant.field_set
            &&& b.tuple == variant.tuple
            &&& b.index == variant.index
            &&& final(used_ids)@ == match variant.id {
                Some(_) => old(used_ids)@,
                None => old(used_ids)@.push(id as usize),
            }
            &&& *final(next) == id + 1
            &&& *final(largest_variant_id) == if *old(largest_variant_id) < id {
                id as usize
            } else {
                *old(largest_variant_id)
            }
            &&& id <= bound@ + 1
        }),
{
    let id = if let Some(value) = variant.id {
        value
    } else {
        let mut guess: usize = *next;
        while contains_id(used_ids, guess)
            invariant
                guess >= *next,
                guess <= bound@ + 1,
                forall|h: usize| *next <= h < guess ==> #[trigger] used_ids@.contains(h),
                forall|u: usize| used_ids@.contains(u) ==> u <= bound@,
                bound@ + 2 <= usize::MAX,
            decreases bound@ + 1 - guess,
        {
            guess = guess + 1;
        }
        proof {
            lemma_first_free_unique(used_ids@, *next as int, guess as int);
        }
        used_ids.push(guess);
        guess
    };
    *next = id + 1;
    if *largest_variant_id < id {
        *largest_variant_id = id;
    }
    Ok(VariantBuilt { id, field_set: &variant.field_set, tuple: variant.tuple, index: variant.index })
}

/// The fill a variant needs so that, after the id field, it reaches the byte boundary after
/// the largest variant; refused when the variant is larger than the largest, the error giving
/// the variant's payload first and then the size it goes over.
pub fn detect_variant_fill(
    variant_payload_length: usize,
    largest_bit_size: usize,
    id_bits: usize,
    fill_bits: &FillBits,
) -> (r: Result<FillBits, SolvingError>)
    requires
        variant_payload_length <= largest_bit_size && (*fill_bits is Auto || variant_payload_length < largest_bit_size)
            ==> largest_bit_size + id_bits + 7 <= usize::MAX,
    ensures
        largest_bit_size < variant_payload_length ==> r == Err::<FillBits, SolvingError>(
            SolvingError::VariantPayloadBitLength {
                largest_payload_length: variant_payload_length,
                bit_length: largest_bit_size,
            },
        ),
        variant_payload_length <= largest_bit_size ==> r == Ok::<FillBits, SolvingError>(
            if *fill_bits is Auto || variant_payload_length < largest_bit_size {
                FillBits::Bits(
                    (ceil8(largest_bit_size + id_bits) * 8 - (id_bits + variant_payload_length)) as usize,
                )
            } else {
                FillBits::NoFill
            },
        ),
{
    if largest_bit_size < variant_payload_length {
        return Err(
            SolvingError::VariantPayloadBitLength {
                largest_payload_length: variant_payload_length,
                bit_length: largest_bit_size,
            },
        );
    }
    Ok(
        if matches!(fill_bits, FillBits::Auto) || variant_payload_length < largest_bit_size {
            let mut target: usize = largest_bit_size + id_bits;
            target = div_ceil8(target) * 8;
            let fill: usize = target - (id_bits + variant_payload_length);
            FillBits::Bits(fill)
        } else {
            FillBits::NoFill
        },
    )
}

/// A variant padded by `detect_variant_fill` ends, after the id field, on the byte boundary
/// after the largest variant.
pub proof fn law_variant_fill_reaches_byte_boundary(
    variant_payload_length: usize,
    largest_bit_size: usize,
    id_bits: usize,
)
    requires
        variant_payload_length <= largest_bit_size,
    ensures
        ({
            let fill = ceil8(largest_bit_size + id_bits) * 8 - (id_bits + variant_payload_length);
            &&& fill >= 0
            &&& (id_bits + variant_payload_length + fill) % 8 == 0
            &&& id_bits + variant_payload_length + fill >= largest_bit_size + id_bits
            &&& id_bits + variant_payload_length + fill < largest_bit_size + id_bits + 8
        }),
{
}

} // verus!
