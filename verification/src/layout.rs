use crate::attrs::FieldSetBuilder;
use crate::error::SolvingError;
use crate::field::{in_range, law_conflict_is_shared_bit, ranges_conflict};
use crate::field_set::{
    field_set_fits, lemma_place_bounds, lemma_resolve_props, spec_built, spec_built_seq, spec_place_error,
    spec_placed_total, spec_resolve, spec_solve_field_set, spec_with_fill,
    law_solved_fields_do_not_conflict,
};
use crate::resolver::{ceil8, spec_from_built, ResolverView};
use crate::solve::BuiltDataView;
use std::ops::Range;
use vstd::prelude::*;

verus! {

/// The bits of a structure with `value` written over the bits `r`.
pub open spec fn write_bits(bits: Seq<bool>, r: Range<usize>, value: Seq<bool>) -> Seq<bool> {
    Seq::new(bits.len(), |k: int| if in_range(r, k) { value[k - r.start] } else { bits[k] })
}

/// The bits `r` of a structure.
pub open spec fn read_bits(bits: Seq<bool>, r: Range<usize>) -> Seq<bool> {
    bits.subrange(r.start as int, r.end as int)
}

/// Reading a field's bits gives back what was written to them.
pub proof fn law_read_gives_back_write(bits: Seq<bool>, r: Range<usize>, value: Seq<bool>)
    requires
        r.start <= r.end <= bits.len(),
        value.len() == r.end - r.start,
    ensures
        write_bits(bits, r, value).len() == bits.len(),
        read_bits(write_bits(bits, r, value), r) == value,
{
    assert(read_bits(write_bits(bits, r, value), r) =~= value);
}

/// Writing bits that a field does not share leaves what the field reads unchanged.
pub proof fn law_write_keeps_disjoint_bits(bits: Seq<bool>, w: Range<usize>, r: Range<usize>, value: Seq<bool>)
    requires
        w.start <= w.end <= bits.len(),
        r.start <= r.end <= bits.len(),
        value.len() == w.end - w.start,
        forall|k: int| !(#[trigger] in_range(w, k) && in_range(r, k)),
    ensures
        read_bits(write_bits(bits, w, value), r) == read_bits(bits, r),
{
    assert forall|k: int| 0 <= k < r.end - r.start implies read_bits(write_bits(bits, w, value), r)[k] == read_bits(bits, r)[k] by {
        assert(in_range(r, r.start + k));
        assert(!in_range(w, r.start + k));
    }
    assert(read_bits(write_bits(bits, w, value), r) =~= read_bits(bits, r));
}

/// Adding a fill field keeps the fields before it.
proof fn lemma_with_fill_keeps(fill: crate::attrs::FillBits, s: Seq<ResolverView>, has_id_field: bool, total_bits: usize, m: int)
    requires
        spec_with_fill(fill, s, has_id_field, total_bits) is Ok,
        0 <= m < s.len(),
    ensures
        spec_with_fill(fill, s, has_id_field, total_bits)->Ok_0.len() >= s.len(),
        spec_with_fill(fill, s, has_id_field, total_bits)->Ok_0[m] == s[m],
{
}

/// Two placed fields that may not share bits keep apart once resolved: the resolved ranges
/// are the placed ones, or both mirrored in the same structure.
proof fn lemma_resolved_apart(a: BuiltDataView, b: BuiltDataView, flip: usize)
    requires
        a.endianness == b.endianness,
        a.bit_range.start <= a.bit_range.end,
        b.bit_range.start <= b.bit_range.end,
        !ranges_conflict(a.bit_range, b.bit_range),
        spec_from_built(a, flip) is Ok,
        spec_from_built(b, flip) is Ok,
    ensures
        forall|k: int|
            !(#[trigger] in_range(spec_from_built(a, flip)->Ok_0.bit_range, k) && in_range(
                spec_from_built(b, flip)->Ok_0.bit_range,
                k,
            )),
{
    let ra = spec_from_built(a, flip)->Ok_0.bit_range;
    let rb = spec_from_built(b, flip)->Ok_0.bit_range;
    if a.bit_range.start < a.bit_range.end && b.bit_range.start < b.bit_range.end {
        law_conflict_is_shared_bit(a.bit_range, b.bit_range);
        assert forall|k: int| !(#[trigger] in_range(ra, k) && in_range(rb, k)) by {
            if in_range(ra, k) && in_range(rb, k) {
                if a.endianness.field_order_reversed() && flip != 0 {
                    assert(in_range(a.bit_range, flip - 1 - k) && in_range(b.bit_range, flip - 1 - k));
                } else {
                    assert(in_range(a.bit_range, k) && in_range(b.bit_range, k));
                }
            }
        }
    }
}

/// In a field set that solves, two declared fields that may not share bits (neither allows
/// overlapping and the later one is not a fake field) hold disjoint bits, so writing either
/// leaves what the other reads unchanged.
pub proof fn law_solved_fields_keep_their_bits(value: FieldSetBuilder, id: Option<BuiltDataView>, i: int, j: int)
    requires
        field_set_fits(value, id),
        spec_solve_field_set(value, id) is Ok,
        0 <= j < i < value.fields@.len(),
        value.fields@[i].overlap is NoOverlap,
        value.fields@[j].overlap is NoOverlap,
        !value.fields@[i].reserve.spec_is_fake_field(),
    ensures
        ({
            let s = spec_solve_field_set(value, id)->Ok_0;
            &&& i < s.len()
            &&& forall|k: int| !(#[trigger] in_range(s[i].bit_range, k) && in_range(s[j].bit_range, k))
            &&& forall|bits: Seq<bool>, v: Seq<bool>|
                s[i].bit_range.end <= bits.len() && s[j].bit_range.end <= bits.len() && v.len()
                    == s[j].bit_length() ==> #[trigger] read_bits(write_bits(bits, s[j].bit_range, v), s[i].bit_range)
                    == read_bits(bits, s[i].bit_range)
            &&& forall|bits: Seq<bool>, v: Seq<bool>|
                s[i].bit_range.end <= bits.len() && s[j].bit_range.end <= bits.len() && v.len()
                    == s[i].bit_length() ==> #[trigger] read_bits(write_bits(bits, s[i].bit_range, v), s[j].bit_range)
                    == read_bits(bits, s[j].bit_range)
        }),
{
    let fields = value.fields@;
    let e = value.attrs.default_endianness;
    let n = fields.len() as int;
    let flip = (ceil8(spec_placed_total(fields, id, e, n)) * 8) as usize;
    let built = spec_built_seq(fields, id, e);
    lemma_resolve_props(value, id, flip, n);
    let solved = spec_resolve(built, id, flip, n)->Ok_0;
    let s = spec_solve_field_set(value, id)->Ok_0;
    lemma_with_fill_keeps(value.fill_bits, solved, id is Some, flip, i);
    lemma_with_fill_keeps(value.fill_bits, solved, id is Some, flip, j);
    law_solved_fields_do_not_conflict(value, id, i, j);
    let bi = spec_built(fields, id, e, i);
    let bj = spec_built(fields, id, e, j);
    assert(spec_from_built(bi, flip) == Ok::<ResolverView, SolvingError>(solved[i]));
    assert(spec_from_built(bj, flip) == Ok::<ResolverView, SolvingError>(solved[j]));
    assert(solved[i].well_formed() && solved[j].well_formed());
    lemma_place_bounds(value, id, i);
    lemma_place_bounds(value, id, j);
    lemma_resolved_apart(bi, bj, flip);
    assert forall|bits: Seq<bool>, v: Seq<bool>|
        s[i].bit_range.end <= bits.len() && s[j].bit_range.end <= bits.len() && v.len() == s[j].bit_length() implies
        #[trigger] read_bits(write_bits(bits, s[j].bit_range, v), s[i].bit_range) == read_bits(bits, s[i].bit_range) by {
        law_write_keeps_disjoint_bits(bits, s[j].bit_range, s[i].bit_range, v);
    }
    assert forall|bits: Seq<bool>, v: Seq<bool>|
        s[i].bit_range.end <= bits.len() && s[j].bit_range.end <= bits.len() && v.len() == s[i].bit_length() implies
        #[trigger] read_bits(write_bits(bits, s[i].bit_range, v), s[j].bit_range) == read_bits(bits, s[j].bit_range) by {
        law_write_keeps_disjoint_bits(bits, s[i].bit_range, s[j].bit_range, v);
    }
}

} // verus!
