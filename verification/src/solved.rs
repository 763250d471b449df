use crate::attrs::{AttrsBuilder, FieldSetBuilder, FillBits, StructEnforcement};
use crate::data::{DataType, FieldKey, NumberType, RustByteSize};
use crate::error::SolvingError;
use crate::field::{OverlapOptions, ReserveFieldOption};
use crate::field_set::{
    all_well_formed, enum_variant_fits, enum_variant_fits_check, field_set_fits, field_set_fits_check, id_end, lemma_solved_bounds, lemma_with_fill_bounds, opt_view, sum_extents,
    spec_enforcement_error, spec_solve_field_set, spec_with_fill, sum_bit_lengths,
    sum_bit_size_no_fill, lemma_no_fill_le_lengths, SolvedFieldSet, SolvedFieldSetAttributes,
};
use crate::resolver::{ceil8, div_ceil8, spec_from_built, ResolverView, SolvedData};
use crate::solve::{BuiltData, BuiltDataView, BuiltRange, BuiltRangeType, RangeShape};
use crate::variants::{
    bits_needed, check_for_id, first_free, get_built_variant, is_first_free, lemma_first_free_exists,
    law_bits_needed_is_minimal, pow2, spec_bits_needed, VariantBuilder,
    VariantBuilt,
};
use crate::endianness::Endianness;
use std::ops::Range;
use vstd::prelude::*;

verus! {

/// The id, declaration position and form of a solved variant.
#[derive(Clone, Copy, Debug, PartialEq, Eq)]
pub struct VariantInfo {
    pub id: usize,
    /// The position of the variant in the enum's declaration.
    pub index: usize,
    pub tuple: bool,
}

/// Builds an enum bitfield model.
pub struct EnumBuilder {
    /// The default variant for situations where no other variant matches.
    pub invalid: VariantBuilder,
    /// The collection of variant `field_sets`.
    pub variants: Vec<VariantBuilder>,
    pub solved_attrs: SolvedFieldSetAttributes,
    pub payload_bit_length: Option<usize>,
    pub id_bit_length: Option<usize>,
    pub attrs: AttrsBuilder,
}

impl EnumBuilder {
    /// The name of the id field.
    pub const VARIANT_ID_NAME: &'static str = "variant_id";
    /// The name of the id field in kebab case.
    pub const VARIANT_ID_NAME_KEBAB: &'static str = "variant-id";

    /// An enum with only its default variant and default attributes.
    pub fn new(invalid: VariantBuilder) -> (r: Self)
        ensures
            r.invalid == invalid,
            r.variants@.len() == 0,
            !r.solved_attrs.dump,
            r.id_bit_length is None,
            r.payload_bit_length is None,
            r.attrs.enforcement is NoRules,
            r.attrs.default_endianness == Endianness::nested_spec(),
    {
        Self {
            invalid,
            variants: Vec::new(),
            solved_attrs: SolvedFieldSetAttributes::default(),
            id_bit_length: None,
            payload_bit_length: None,
            attrs: AttrsBuilder::default(),
        }
    }
}

/// Builds a structure bitfield model.
pub struct StructBuilder {
    pub field_set: FieldSetBuilder,
    pub attrs: SolvedFieldSetAttributes,
    /// Is it a tuple struct/variant
    pub tuple: bool,
}

/// The variants in the order ids are given: the declared ones, then the invalid one.
pub open spec fn all_variants(value: EnumBuilder) -> Seq<VariantBuilder> {
    value.variants@.push(value.invalid)
}

/// The declared ids of the first `n` variants, or the first variant that repeats an id.
pub open spec fn spec_check_ids(all: Seq<VariantBuilder>, n: int) -> Result<Seq<usize>, SolvingError>
    decreases n,
{
    if n <= 0 {
        Ok(Seq::empty())
    } else {
        match spec_check_ids(all, n - 1) {
            Err(e) => Err(e),
            Ok(used) => match all[n - 1].id {
                Some(v) => if used.contains(v) {
                    Err(SolvingError::VariantConflict(all[n - 1].index))
                } else {
                    Ok(used.push(v))
                },
                None => Ok(used),
            },
        }
    }
}

/// The state of id assignment after `n` variants.
pub struct AssignState {
    pub ids: Seq<usize>,
    pub used: Seq<usize>,
    pub next: int,
    pub largest: int,
}

/// Ids given to the first `n` variants: a declared id, or the first free id from the one
/// after the previous variant's.
pub open spec fn spec_assign(all: Seq<VariantBuilder>, used0: Seq<usize>, n: int) -> AssignState
    decreases n,
{
    if n <= 0 {
        AssignState { ids: Seq::empty(), used: used0, next: 0, largest: 0 }
    } else {
        let st = spec_assign(all, used0, n - 1);
        let v = all[n - 1];
        let id = match v.id {
            Some(x) => x as int,
            None => first_free(st.used, st.next),
        };
        AssignState {
            ids: st.ids.push(id as usize),
            used: if v.id is None {
                st.used.push(id as usize)
            } else {
                st.used
            },
            next: id + 1,
            largest: if st.largest < id {
                id
            } else {
                st.largest
            },
        }
    }
}

/// The size of the id field: the declared one, what the enforced total leaves after the
/// payload, or the bits the largest id needs.
pub open spec fn spec_id_bits(value: EnumBuilder, largest: int) -> int {
    match value.id_bit_length {
        Some(b) => b as int,
        None => match (value.payload_bit_length, value.attrs.enforcement) {
            (Some(p), StructEnforcement::EnforceBitAmount(t)) => t - p,
            _ => spec_bits_needed(largest as nat) as int,
        },
    }
}

/// The unsigned type that holds an id of `id_bits` bits; refused, with the id's bit length,
/// when no unsigned type does.
pub open spec fn spec_id_size(id_bits: int) -> Result<RustByteSize, SolvingError> {
    let c = ceil8(id_bits);
    if c == 1 {
        Ok(RustByteSize::One)
    } else if c == 2 {
        Ok(RustByteSize::Two)
    } else if 3 <= c <= 4 {
        Ok(RustByteSize::Four)
    } else if 5 <= c <= 8 {
        Ok(RustByteSize::Eight)
    } else if 9 <= c <= 16 {
        Ok(RustByteSize::Sixteen)
    } else {
        Err(SolvingError::VariantIdType(id_bits as usize))
    }
}

/// The id field of an enum: the first `id_bits` bits.
pub open spec fn spec_id_field(value: EnumBuilder, id_bits: int, size: RustByteSize) -> BuiltDataView {
    BuiltDataView {
        id: FieldKey::VariantId,
        ty: DataType::Number(NumberType::Unsigned, size),
        bit_range: Range { start: 0, end: id_bits as usize },
        shape: RangeShape::Single,
        endianness: value.attrs.default_endianness,
        reserve: ReserveFieldOption::FakeField,
        overlap: OverlapOptions::NoOverlap,
        is_captured_id: false,
    }
}

/// The ids, id size and id field of an enum, or the first error met deciding them.
pub open spec fn spec_id_stage(value: EnumBuilder) -> Result<(AssignState, BuiltDataView), SolvingError> {
    let all = all_variants(value);
    match spec_check_ids(all, all.len() as int) {
        Err(e) => Err(e),
        Ok(used) => {
            let st = spec_assign(all, used, all.len() as int);
            let id_bits = spec_id_bits(value, st.largest);
            match spec_id_size(id_bits) {
                Err(e) => Err(e),
                Ok(size) => if spec_bits_needed(st.largest as nat) > id_bits {
                    Err(
                        SolvingError::VariantIdBitLength {
                            variant_id_max_value: st.largest as usize,
                            bit_length: id_bits as usize,
                        },
                    )
                } else {
                    Ok((st, spec_id_field(value, id_bits, size)))
                },
            }
        },
    }
}

/// The largest id any variant declares.
pub open spec fn max_declared_id(all: Seq<VariantBuilder>, n: int) -> int
    decreases n,
{
    if n <= 0 {
        0
    } else {
        let m = max_declared_id(all, n - 1);
        match all[n - 1].id {
            Some(v) => if v > m {
                v as int
            } else {
                m
            },
            None => m,
        }
    }
}


proof fn lemma_declared_le_max(all: Seq<VariantBuilder>, n: int, k: int)
    requires
        0 <= k < n <= all.len(),
    ensures
        all[k].id matches Some(v) ==> v <= max_declared_id(all, n),
        max_declared_id(all, n) >= 0,
    decreases n,
{
    if k < n - 1 {
        lemma_declared_le_max(all, n - 1, k);
    }
    lemma_max_declared_nonneg(all, n);
}

proof fn lemma_max_declared_nonneg(all: Seq<VariantBuilder>, n: int)
    ensures
        max_declared_id(all, n) >= 0,
    decreases n,
{
    if n > 0 {
        lemma_max_declared_nonneg(all, n - 1);
    }
}

/// What a successful id check gives: every declared id is recorded, no two variants declare
/// the same id, and every recorded id is a declared one.
proof fn lemma_check_ids(all: Seq<VariantBuilder>, n: int)
    requires
        0 <= n <= all.len(),
        spec_check_ids(all, n) is Ok,
    ensures
        forall|k: int| 0 <= k < n && (#[trigger] all[k]).id is Some ==> spec_check_ids(all, n)->Ok_0.contains(all[k].id->Some_0),
        forall|i: int, j: int|
            0 <= i < j < n && (#[trigger] all[i]).id is Some && (#[trigger] all[j]).id is Some ==> all[i].id != all[j].id,
        forall|x: usize| spec_check_ids(all, n)->Ok_0.contains(x) ==> x <= max_declared_id(all, n),
    decreases n,
{
    if n > 0 {
        lemma_check_ids(all, n - 1);
        lemma_max_declared_nonneg(all, n - 1);
        let used = spec_check_ids(all, n - 1)->Ok_0;
        if let Some(v) = all[n - 1].id {
            assert forall|i: int| 0 <= i < n - 1 && (#[trigger] all[i]).id is Some implies all[i].id != all[n - 1].id by {
                assert(used.contains(all[i].id->Some_0));
            }
            assert forall|k: int| 0 <= k < n && (#[trigger] all[k]).id is Some implies spec_check_ids(all, n)->Ok_0.contains(all[k].id->Some_0) by {
                if k < n - 1 {
                    assert(used.contains(all[k].id->Some_0));
                    assert(used.push(v)[used.index_of(all[k].id->Some_0)] == all[k].id->Some_0);
                } else {
                    assert(used.push(v)[used.len() as int] == v);
                }
            }
            assert forall|x: usize| spec_check_ids(all, n)->Ok_0.contains(x) implies x <= max_declared_id(all, n) by {
                let w = spec_check_ids(all, n)->Ok_0;
                let h = w.index_of(x);
                if h < used.len() {
                    assert(used[h] == x);
                    assert(used.contains(x));
                }
            }
        }
    }
}

/// What id assignment gives after `n` variants: ids that are the declared ones or free ones,
/// pairwise distinct, bounded, with `largest` the largest of them.
proof fn lemma_assign(all: Seq<VariantBuilder>, used0: Seq<usize>, n: int, m: int)
    requires
        0 <= n <= all.len(),
        0 <= m,
        m + all.len() + 1 <= usize::MAX,
        forall|x: usize| used0.contains(x) ==> x <= m,
        forall|k: int| 0 <= k < all.len() && (#[trigger] all[k]).id is Some ==> all[k].id->Some_0 <= m && used0.contains(all[k].id->Some_0),
        forall|i: int, j: int|
            0 <= i < j < all.len() && (#[trigger] all[i]).id is Some && (#[trigger] all[j]).id is Some ==> all[i].id != all[j].id,
    ensures
        ({
            let st = spec_assign(all, used0, n);
            &&& st.ids.len() == n
            &&& forall|x: usize| used0.contains(x) ==> st.used.contains(x)
            &&& forall|u: usize| st.used.contains(u) ==> u <= m + n
            &&& forall|k: int| 0 <= k < n ==> st.used.contains(#[trigger] st.ids[k])
            &&& forall|k: int| 0 <= k < n ==> st.ids[k] <= m + n
            &&& forall|k: int| 0 <= k < n && (#[trigger] all[k]).id is Some ==> st.ids[k] == all[k].id->Some_0
            &&& forall|k: int| 0 <= k < n && (#[trigger] all[k]).id is None ==> !used0.contains(st.ids[k])
            &&& forall|i: int, j: int| 0 <= i < j < n ==> #[trigger] st.ids[i] != #[trigger] st.ids[j]
            &&& 0 <= st.next <= m + n + 1
            &&& 0 <= st.largest <= m + n
            &&& forall|k: int| 0 <= k < n ==> #[trigger] st.ids[k] <= st.largest
            &&& (st.largest == 0 || exists|k: int| 0 <= k < n && #[trigger] st.ids[k] == st.largest)
        }),
    decreases n,
{
    if n > 0 {
        lemma_assign(all, used0, n - 1, m);
        let st = spec_assign(all, used0, n - 1);
        let v = all[n - 1];
        let new_st = spec_assign(all, used0, n);
        if v.id is None {
            lemma_first_free_exists(st.used, st.next, m + n - 1);
        }
        let id = new_st.ids[n - 1];
        assert(new_st.ids == st.ids.push(id));
        assert forall|k: int| 0 <= k < n - 1 implies new_st.ids[k] == st.ids[k] by {}
        assert forall|x: usize| used0.contains(x) implies new_st.used.contains(x) by {
            if v.id is None {
                assert(st.used.contains(x));
                assert(st.used.push(id)[st.used.index_of(x)] == x);
            }
        }
        assert forall|u: usize| new_st.used.contains(u) implies u <= m + n by {
            if v.id is None {
                let h = st.used.push(id).index_of(u);
                if h < st.used.len() {
                    assert(st.used[h] == u);
                    assert(st.used.contains(u));
                }
            }
        }
        assert forall|k: int| 0 <= k < n implies new_st.used.contains(#[trigger] new_st.ids[k]) by {
            if k < n - 1 {
                assert(st.used.contains(st.ids[k]));
                if v.id is None {
                    assert(st.used.push(id)[st.used.index_of(st.ids[k])] == st.ids[k]);
                }
            } else if v.id is None {
                assert(st.used.push(id)[st.used.len() as int] == id);
            } else {
                assert(used0.contains(v.id->Some_0));
            }
        }
        assert forall|i: int, j: int| 0 <= i < j < n implies #[trigger] new_st.ids[i] != #[trigger] new_st.ids[j] by {
            if j == n - 1 {
                assert(new_st.ids[i] == st.ids[i]);
                if v.id is None {
                    assert(st.used.contains(st.ids[i]));
                } else if all[i].id is None {
                    assert(!used0.contains(st.ids[i]));
                    assert(used0.contains(v.id->Some_0));
                } else {
                    assert(all[i].id != all[n - 1].id);
                }
            } else {
                assert(new_st.ids[i] == st.ids[i]);
                assert(new_st.ids[j] == st.ids[j]);
            }
        }
        assert forall|k: int| 0 <= k < n && (#[trigger] all[k]).id is None implies !used0.contains(new_st.ids[k]) by {
            if k == n - 1 {
                assert(!st.used.contains(id));
            }
        }
        if st.largest != 0 && st.largest >= id {
            let w = choose|k: int| 0 <= k < n - 1 && #[trigger] st.ids[k] == st.largest;
            assert(new_st.ids[w] == st.largest);
        }
        if st.largest < id {
            assert(new_st.ids[n - 1] == new_st.largest);
        }
    }
}


/// Once a repeated id is found, checking more variants gives the same error.
proof fn lemma_check_error_sticks(all: Seq<VariantBuilder>, i: int, n: int)
    requires
        0 <= i <= n,
        spec_check_ids(all, i) is Err,
    ensures
        spec_check_ids(all, n) == spec_check_ids(all, i),
    decreases n - i,
{
    if n > i {
        lemma_check_error_sticks(all, i, n - 1);
    }
}

/// A solved enum, as values.
pub struct EnumView {
    /// The id field.
    pub id: ResolverView,
    /// The fields of the default variant.
    pub invalid: Seq<ResolverView>,
    pub invalid_name: VariantInfo,
    /// The declared variants with their fields, in declaration order.
    pub variants: Seq<(VariantInfo, Seq<ResolverView>)>,
    pub dump: bool,
}

/// The fields of variant `k`, solved after the id field `idf`.
pub open spec fn spec_variant_solution(all: Seq<VariantBuilder>, idf: BuiltDataView, k: int) -> Result<Seq<ResolverView>, SolvingError> {
    spec_solve_field_set(all[k].field_set, Some(idf))
}

/// The first error among the first `n` declared variants.
pub open spec fn spec_declared_error(all: Seq<VariantBuilder>, idf: BuiltDataView, n: int) -> Option<SolvingError>
    decreases n,
{
    if n <= 0 {
        None
    } else {
        match spec_declared_error(all, idf, n - 1) {
            Some(e) => Some(e),
            None => match spec_variant_solution(all, idf, n - 1) {
                Err(e) => Some(e),
                Ok(_) => None,
            },
        }
    }
}

/// The first error met solving the variants: the default variant is solved first, then the
/// declared ones in order.
pub open spec fn spec_variants_error(all: Seq<VariantBuilder>, idf: BuiltDataView) -> Option<SolvingError> {
    match spec_variant_solution(all, idf, all.len() - 1) {
        Err(e) => Some(e),
        Ok(_) => spec_declared_error(all, idf, all.len() - 1),
    }
}

/// The largest payload, fill left out, among the first `n` variants.
pub open spec fn spec_largest_payload(all: Seq<VariantBuilder>, idf: BuiltDataView, n: int) -> int
    decreases n,
{
    if n <= 0 {
        0
    } else {
        let m = spec_largest_payload(all, idf, n - 1);
        let b = sum_bit_size_no_fill(spec_variant_solution(all, idf, n - 1)->Ok_0);
        if m < b {
            b
        } else {
            m
        }
    }
}

/// The fields of variant `k` once its fill field, placed inside `flip` bits, is added.
pub open spec fn spec_filled(all: Seq<VariantBuilder>, idf: BuiltDataView, flip: usize, k: int) -> Seq<ResolverView> {
    spec_with_fill(all[k].field_set.fill_bits, spec_variant_solution(all, idf, k)->Ok_0, true, flip)->Ok_0
}

/// The id, position and form of variant `k`.
pub open spec fn spec_variant_info(all: Seq<VariantBuilder>, ids: Seq<usize>, k: int) -> VariantInfo {
    VariantInfo { id: ids[k], index: all[k].index, tuple: all[k].tuple }
}

/// The solved enum, or the first error met: the ids, then each variant's fields after the id
/// field, then the size rules on the largest variant plus the id field.
pub open spec fn spec_solve_enum(value: EnumBuilder) -> Result<EnumView, SolvingError> {
    let all = all_variants(value);
    let n = all.len() as int;
    match spec_id_stage(value) {
        Err(e) => Err(e),
        Ok((st, idf)) => match spec_variants_error(all, idf) {
            Some(e) => Err(e),
            None => {
                let bit_size = spec_largest_payload(all, idf, n) + idf.bit_range.end;
                let flip = (bit_size / 8 * 8) as usize;
                match spec_enforcement_error(value.attrs.enforcement, bit_size) {
                    Some(e) => Err(e),
                    None => match spec_from_built(idf, bit_size as usize) {
                        Err(e) => Err(e),
                        Ok(id) => Ok(
                            EnumView {
                                id,
                                invalid: spec_filled(all, idf, flip, n - 1),
                                invalid_name: spec_variant_info(all, st.ids, n - 1),
                                variants: Seq::new(
                                    (n - 1) as nat,
                                    |k: int| (spec_variant_info(all, st.ids, k), spec_filled(all, idf, flip, k)),
                                ),
                                dump: value.solved_attrs.dump,
                            },
                        ),
                    },
                }
            },
        },
    }
}

/// An enum can be solved without any count leaving `usize`, and the id size it asks for
/// does not come from a payload larger than its total.
pub open spec fn enum_fits(value: EnumBuilder) -> bool {
    let all = all_variants(value);
    &&& enum_ids_fit(value)
    &&& spec_id_stage(value) matches Ok((st, idf)) ==> forall|k: int|
        0 <= k < all.len() ==> enum_variant_fits(#[trigger] all[k].field_set, Some(idf))
}

/// Once no declared id repeats, the ids of an enum can be given without a count leaving
/// `usize`, and the id size it asks for does not come from a payload larger than its total.
pub open spec fn enum_ids_fit(value: EnumBuilder) -> bool {
    let all = all_variants(value);
    spec_check_ids(all, all.len() as int) is Ok ==> {
        &&& max_declared_id(all, all.len() as int) + all.len() + 1 <= usize::MAX
        &&& match (value.id_bit_length, value.payload_bit_length, value.attrs.enforcement) {
            (None, Some(p), StructEnforcement::EnforceBitAmount(t)) => p <= t,
            _ => true,
        }
    }
}

/// Whether the ids of `s` go strictly up.
pub open spec fn sorted_by_id<T>(s: Seq<(VariantInfo, T)>) -> bool {
    forall|i: int, j: int| 0 <= i < j < s.len() ==> (#[trigger] s[i]).0.id < (#[trigger] s[j]).0.id
}

/// Whether `a` and `b` have the same length and each holds every entry of the other.
pub open spec fn same_entries<T>(a: Seq<T>, b: Seq<T>) -> bool {
    &&& a.len() == b.len()
    &&& forall|j: int| 0 <= j < a.len() ==> b.contains(#[trigger] a[j])
    &&& forall|k: int| 0 <= k < b.len() ==> a.contains(#[trigger] b[k])
}

/// The solved variants as values.
pub open spec fn entries_of(v: Seq<(VariantInfo, SolvedFieldSet)>) -> Seq<(VariantInfo, Seq<ResolverView>)> {
    v.map_values(|e: (VariantInfo, SolvedFieldSet)| (e.0, e.1.spec_fields()))
}


/// A structure or enum whose fields have all been placed and resolved.
pub enum SolvedType {
    Enum {
        /// The id field, or the field that determines the variant.
        id: SolvedData,
        /// The default variant, used when no other variant matches.
        invalid: SolvedFieldSet,
        /// The default variant's id, position and form.
        invalid_name: VariantInfo,
        /// The variants, ordered by id.
        variants: Vec<(VariantInfo, SolvedFieldSet)>,
        dump: bool,
    },
    Struct(SolvedFieldSet),
}

/// The solved bitfield model of a structure or enum.
pub struct Solved {
    pub ty: SolvedType,
}

/// Records the ids the variants declare (the declared variants, then the default one),
/// refusing an id declared twice.
fn check_ids(value: &EnumBuilder) -> (r: Result<Vec<usize>, SolvingError>)
    ensures
        match spec_check_ids(all_variants(*value), all_variants(*value).len() as int) {
            Ok(u) => r matches Ok(v) && v@ == u,
            Err(e) => r matches Err(x) && x == e,
        },
{
    let ghost all = all_variants(*value);
    let mut used_ids: Vec<usize> = Vec::new();
    let mut i: usize = 0;
    while i < value.variants.len()
        invariant
            all == all_variants(*value),
            i <= value.variants.len(),
            spec_check_ids(all, i as int) == Ok::<Seq<usize>, SolvingError>(used_ids@),
        decreases value.variants.len() - i,
    {
        assert(all[i as int] == value.variants@[i as int]);
        let checked = check_for_id(&value.variants[i], &mut used_ids);
        if let Err(e) = checked {
            proof {
                lemma_check_error_sticks(all, i + 1, all.len() as int);
            }
            return Err(e);
        }
        i = i + 1;
    }
    assert(all[i as int] == value.invalid);
    match check_for_id(&value.invalid, &mut used_ids) {
        Ok(()) => Ok(used_ids),
        Err(e) => Err(e),
    }
}

/// Gives every variant its id, in declaration order and the default variant last, and
/// finds the largest id.
fn assign_ids<'a>(value: &'a EnumBuilder, used: Vec<usize>) -> (r: Result<(Vec<VariantBuilt<'a>>, VariantBuilt<'a>, usize), SolvingError>)
    requires
        spec_check_ids(all_variants(*value), all_variants(*value).len() as int) == Ok::<Seq<usize>, SolvingError>(used@),
        max_declared_id(all_variants(*value), all_variants(*value).len() as int) + all_variants(*value).len() + 1 <= usize::MAX,
    ensures
        r matches Ok((built, invalid, largest)) && ({
            let all = all_variants(*value);
            let st = spec_assign(all, used@, all.len() as int);
            &&& built@.len() == value.variants@.len()
            &&& forall|k: int| 0 <= k < built@.len() ==> {
                &&& (#[trigger] built@[k]).id == st.ids[k]
                &&& *built@[k].field_set == all[k].field_set
                &&& built@[k].tuple == all[k].tuple
                &&& built@[k].index == all[k].index
            }
            &&& invalid.id == st.ids[all.len() - 1]
            &&& *invalid.field_set == value.invalid.field_set
            &&& invalid.tuple == value.invalid.tuple
            &&& invalid.index == value.invalid.index
            &&& largest == st.largest
        }),
{
    let ghost all = all_variants(*value);
    let ghost n = all.len() as int;
    let ghost m = max_declared_id(all, n);
    let mut used_ids = used;
    proof {
        lemma_check_ids(all, n);
        lemma_max_declared_nonneg(all, n);
        assert forall|k: int| 0 <= k < all.len() && (#[trigger] all[k]).id is Some implies all[k].id->Some_0 <= m by {
            lemma_declared_le_max(all, n, k);
        }
        lemma_assign(all, used@, 0, m);
    }
    let mut last: usize = 0;
    let mut largest_variant_id: usize = 0;
    let mut built_variants: Vec<VariantBuilt<'a>> = Vec::new();
    let mut i: usize = 0;
    while i < value.variants.len()
        invariant
            all == all_variants(*value),
            n == all.len(),
            m == max_declared_id(all, n),
            0 <= m,
            m + n + 1 <= usize::MAX,
            forall|x: usize| used@.contains(x) ==> x <= m,
            forall|k: int| 0 <= k < all.len() && (#[trigger] all[k]).id is Some ==> all[k].id->Some_0 <= m && used@.contains(all[k].id->Some_0),
            forall|a: int, b: int|
                0 <= a < b < all.len() && (#[trigger] all[a]).id is Some && (#[trigger] all[b]).id is Some ==> all[a].id != all[b].id,
            i <= value.variants.len(),
            built_variants@.len() == i,
            ({
                let st = spec_assign(all, used@, i as int);
                &&& used_ids@ == st.used
                &&& last == st.next
                &&& largest_variant_id == st.largest
                &&& forall|k: int| 0 <= k < i ==> {
                    &&& (#[trigger] built_variants@[k]).id == st.ids[k]
                    &&& *built_variants@[k].field_set == all[k].field_set
                    &&& built_variants@[k].tuple == all[k].tuple
                    &&& built_variants@[k].index == all[k].index
                }
            }),
        decreases value.variants.len() - i,
    {
        proof {
            lemma_assign(all, used@, i as int, m);
            lemma_assign(all, used@, i + 1, m);
        }
        assert(all[i as int] == value.variants@[i as int]);
        let built = match get_built_variant(&value.variants[i], &mut used_ids, &mut last, &mut largest_variant_id, Ghost(m + i)) {
            Ok(b) => b,
            Err(e) => {
                return Err(e);
            },
        };
        built_variants.push(built);
        i = i + 1;
    }
    proof {
        lemma_assign(all, used@, i as int, m);
        lemma_assign(all, used@, i + 1, m);
    }
    assert(all[i as int] == value.invalid);
    let invalid = match get_built_variant(&value.invalid, &mut used_ids, &mut last, &mut largest_variant_id, Ghost(m + i)) {
        Ok(b) => b,
        Err(e) => {
            return Err(e);
        },
    };
    Ok((built_variants, invalid, largest_variant_id))
}


/// A variant set that solves after an id field cannot ask for automatic filling.
proof fn lemma_variant_fill_not_auto(fs: FieldSetBuilder, idf: BuiltDataView)
    requires
        spec_solve_field_set(fs, Some(idf)) is Ok,
    ensures
        !(fs.fill_bits is Auto),
{
}

/// Once a declared variant fails, later ones do not change the error.
proof fn lemma_declared_error_sticks(all: Seq<VariantBuilder>, idf: BuiltDataView, i: int, n: int)
    requires
        0 <= i <= n,
        spec_declared_error(all, idf, i) is Some,
    ensures
        spec_declared_error(all, idf, n) == spec_declared_error(all, idf, i),
    decreases n - i,
{
    if n > i {
        lemma_declared_error_sticks(all, idf, i, n - 1);
    }
}

/// Without an error among the first `n` declared variants, each of them solves.
proof fn lemma_no_declared_error(all: Seq<VariantBuilder>, idf: BuiltDataView, n: int, k: int)
    requires
        0 <= k < n,
        spec_declared_error(all, idf, n) is None,
    ensures
        spec_variant_solution(all, idf, k) is Ok,
    decreases n,
{
    if k < n - 1 {
        lemma_no_declared_error(all, idf, n - 1, k);
    }
}

impl Solved {
    /// Solves one variant's fields after the id field and keeps the largest payload seen.
    fn solve_variant(
        variant: &VariantBuilt,
        id_field: &BuiltData,
        solved_attrs: &SolvedFieldSetAttributes,
        largest_bit_size: &mut usize,
        id_bits: usize,
    ) -> (r: Result<(VariantInfo, SolvedFieldSet, FillBits), SolvingError>)
        requires
            enum_variant_fits(*variant.field_set, Some(id_field@)),
        ensures
            match spec_solve_field_set(*variant.field_set, Some(id_field@)) {
                Ok(s) => r matches Ok((info, set, fill)) && {
                    &&& info == VariantInfo { id: variant.id, index: variant.index, tuple: variant.tuple }
                    &&& set.spec_fields() == s
                    &&& set.attrs == *solved_attrs
                    &&& fill == variant.field_set.fill_bits
                    &&& *final(largest_bit_size) == if *old(largest_bit_size) < sum_bit_size_no_fill(s) {
                        sum_bit_size_no_fill(s)
                    } else {
                        *old(largest_bit_size) as int
                    }
                },
                Err(e) => r matches Err(x) && x == e,
            },
    {
        let solved_variant = match SolvedFieldSet::try_from_field_set(variant.field_set, solved_attrs, Some(id_field)) {
            Ok(s) => s,
            Err(e) => {
                return Err(e);
            },
        };
        proof {
            lemma_solved_bounds(*variant.field_set, Some(id_field@));
        }
        let bit_length = solved_variant.total_bits_no_fill();
        if *largest_bit_size < bit_length {
            *largest_bit_size = bit_length;
        }
        let variant_info = VariantInfo { id: variant.id, index: variant.index, tuple: variant.tuple };
        Ok((variant_info, solved_variant, variant.field_set.fill_bits))
    }
}

/// Inserts a solved variant at the place its id takes among ids that go strictly up.
fn insert_by_id(out: &mut Vec<(VariantInfo, SolvedFieldSet)>, info: VariantInfo, set: SolvedFieldSet)
    requires
        sorted_by_id(old(out)@),
        forall|j: int| 0 <= j < old(out)@.len() ==> (#[trigger] old(out)@[j]).0.id != info.id,
    ensures
        sorted_by_id(final(out)@),
        exists|p: int| 0 <= p <= old(out)@.len() && final(out)@ == old(out)@.insert(p, (info, set)),
{
    let mut p: usize = 0;
    while p < out.len() && out[p].0.id < info.id
        invariant
            p <= out@.len(),
            forall|j: int| 0 <= j < p ==> (#[trigger] out@[j]).0.id < info.id,
        decreases out@.len() - p,
    {
        p = p + 1;
    }
    let ghost before = out@;
    out.insert(p, (info, set));
    proof {
        before.insert_ensures(p as int, (info, set));
        assert forall|i: int, j: int| 0 <= i < j < out@.len() implies (#[trigger] out@[i]).0.id < (#[trigger] out@[j]).0.id by {
            if j < p {
                assert(out@[i] == before[i]);
                assert(out@[j] == before[j]);
            } else if j == p {
                assert(out@[i] == before[i]);
            } else if i == p {
                assert(out@[j] == before[j - 1]);
                assert(before[p as int].0.id != info.id);
                if p < j - 1 {
                    assert(before[p as int].0.id < before[j - 1].0.id);
                }
            } else if i < p {
                assert(out@[i] == before[i]);
                assert(out@[j] == before[j - 1]);
            } else {
                assert(out@[i] == before[i - 1]);
                assert(out@[j] == before[j - 1]);
            }
        }
    }
}


/// Gives the variants their ids and builds the id field: its size is the declared one, what
/// the enforced total leaves after the payload, or the bits the largest id needs.
fn solve_ids<'a>(value: &'a EnumBuilder) -> (r: Result<(Vec<VariantBuilt<'a>>, VariantBuilt<'a>, BuiltData), SolvingError>)
    requires
        enum_ids_fit(*value),
    ensures
        match spec_id_stage(*value) {
            Ok((st, idf)) => r matches Ok((built, invalid, id_field)) && {
                let all = all_variants(*value);
                &&& id_field@ == idf
                &&& built@.len() == value.variants@.len()
                &&& forall|k: int| 0 <= k < built@.len() ==> {
                    &&& (#[trigger] built@[k]).id == st.ids[k]
                    &&& *built@[k].field_set == all[k].field_set
                    &&& built@[k].tuple == all[k].tuple
                    &&& built@[k].index == all[k].index
                }
                &&& invalid.id == st.ids[all.len() - 1]
                &&& *invalid.field_set == value.invalid.field_set
                &&& invalid.tuple == value.invalid.tuple
                &&& invalid.index == value.invalid.index
            },
            Err(e) => r matches Err(x) && x == e,
        },
{
    let used_ids = match check_ids(value) {
        Ok(u) => u,
        Err(e) => {
            return Err(e);
        },
    };
    let (built_variants, built_invalid, largest_variant_id) = match assign_ids(value, used_ids) {
        Ok(t) => t,
        Err(e) => {
            return Err(e);
        },
    };
    let id_bits: usize = match value.id_bit_length {
        Some(bits) => bits,
        None => match (value.payload_bit_length, value.attrs.enforcement) {
            (Some(payload_size), StructEnforcement::EnforceBitAmount(total_size)) => total_size - payload_size,
            _ => bits_needed(largest_variant_id),
        },
    };
    let c = div_ceil8(id_bits);
    let bytes = if c == 1 {
        RustByteSize::One
    } else if c == 2 {
        RustByteSize::Two
    } else if 3 <= c && c <= 4 {
        RustByteSize::Four
    } else if 5 <= c && c <= 8 {
        RustByteSize::Eight
    } else if 9 <= c && c <= 16 {
        RustByteSize::Sixteen
    } else {
        return Err(SolvingError::VariantIdType(id_bits));
    };
    if bits_needed(largest_variant_id) > id_bits {
        return Err(
            SolvingError::VariantIdBitLength { variant_id_max_value: largest_variant_id, bit_length: id_bits },
        );
    }
    let id_field = BuiltData {
        id: FieldKey::VariantId,
        ty: DataType::Number(NumberType::Unsigned, bytes),
        bit_range: BuiltRange { bit_range: Range { start: 0, end: id_bits }, ty: BuiltRangeType::SingleElement },
        endianness: value.attrs.default_endianness,
        reserve: ReserveFieldOption::FakeField,
        overlap: OverlapOptions::NoOverlap,
        is_captured_id: false,
    };
    Ok((built_variants, built_invalid, id_field))
}


/// `v` holds entries `m..` of `target`, each of them, and nothing else.
pub open spec fn covers_from<T>(v: Seq<T>, target: Seq<T>, m: int) -> bool {
    &&& forall|j: int| #![trigger v[j]] 0 <= j < v.len() ==> exists|k: int| m <= k < target.len() && #[trigger] target[k] == v[j]
    &&& forall|k: int| #![trigger target[k]] m <= k < target.len() ==> exists|j: int| 0 <= j < v.len() && #[trigger] v[j] == target[k]
}

proof fn lemma_entries_insert(v: Seq<(VariantInfo, SolvedFieldSet)>, p: int, e: (VariantInfo, SolvedFieldSet))
    requires
        0 <= p <= v.len(),
    ensures
        entries_of(v.insert(p, e)) == entries_of(v).insert(p, (e.0, e.1.spec_fields())),
{
    v.insert_ensures(p, e);
    entries_of(v).insert_ensures(p, (e.0, e.1.spec_fields()));
    assert(entries_of(v.insert(p, e)) =~= entries_of(v).insert(p, (e.0, e.1.spec_fields())));
}

/// Inserting entry `m` of `target` anywhere into a sequence that covers entries `m + 1..`
/// covers entries `m..`.
proof fn lemma_cover_insert<T>(v: Seq<T>, target: Seq<T>, m: int, p: int)
    requires
        0 <= m < target.len(),
        0 <= p <= v.len(),
        covers_from(v, target, m + 1),
    ensures
        covers_from(v.insert(p, target[m]), target, m),
{
    let w = v.insert(p, target[m]);
    v.insert_ensures(p, target[m]);
    assert forall|j: int| #![trigger w[j]] 0 <= j < w.len() implies exists|k: int| m <= k < target.len() && #[trigger] target[k] == w[j] by {
        if j < p {
            assert(w[j] == v[j]);
            let k = choose|k: int| m + 1 <= k < target.len() && #[trigger] target[k] == v[j];
            assert(target[k] == w[j]);
        } else if j == p {
            assert(target[m] == w[j]);
        } else {
            assert(w[j] == v[j - 1]);
            let k = choose|k: int| m + 1 <= k < target.len() && #[trigger] target[k] == v[j - 1];
            assert(target[k] == w[j]);
        }
    }
    assert forall|k: int| #![trigger target[k]] m <= k < target.len() implies exists|j: int| 0 <= j < w.len() && #[trigger] w[j] == target[k] by {
        if k == m {
            assert(w[p] == target[k]);
        } else {
            let j = choose|j: int| 0 <= j < v.len() && #[trigger] v[j] == target[k];
            if j < p {
                assert(w[j] == target[k]);
            } else {
                assert(w[j + 1] == target[k]);
            }
        }
    }
}

proof fn lemma_cover_same_entries<T>(v: Seq<T>, target: Seq<T>)
    requires
        covers_from(v, target, 0),
        v.len() == target.len(),
    ensures
        same_entries(v, target),
{
    assert forall|j: int| 0 <= j < v.len() implies target.contains(#[trigger] v[j]) by {
        let k = choose|k: int| 0 <= k < target.len() && #[trigger] target[k] == v[j];
        assert(target[k] == v[j]);
    }
    assert forall|k: int| 0 <= k < target.len() implies v.contains(#[trigger] target[k]) by {
        let j = choose|j: int| 0 <= j < v.len() && #[trigger] v[j] == target[k];
        assert(v[j] == target[k]);
    }
}

/// The ids an enum's variants get are pairwise distinct, each declared id is the one given,
/// and every id is at most the largest one.
pub proof fn law_variant_ids_distinct(value: EnumBuilder)
    requires
        enum_fits(value),
        spec_id_stage(value) is Ok,
    ensures
        ({
            let all = all_variants(value);
            let st = spec_id_stage(value)->Ok_0.0;
            &&& st.ids.len() == all.len()
            &&& forall|i: int, j: int| 0 <= i < j < all.len() ==> #[trigger] st.ids[i] != #[trigger] st.ids[j]
            &&& forall|k: int| 0 <= k < all.len() && (#[trigger] all[k]).id is Some ==> st.ids[k] == all[k].id->Some_0
            &&& forall|k: int| 0 <= k < all.len() ==> #[trigger] st.ids[k] <= st.largest
        }),
{
    let all = all_variants(value);
    let n = all.len() as int;
    let m = max_declared_id(all, n);
    let used = spec_check_ids(all, n)->Ok_0;
    lemma_check_ids(all, n);
    lemma_max_declared_nonneg(all, n);
    assert forall|k: int| 0 <= k < all.len() && (#[trigger] all[k]).id is Some implies all[k].id->Some_0 <= m by {
        lemma_declared_le_max(all, n, k);
    }
    lemma_assign(all, used, n, m);
}


/// Whether `s` is the solved enum `v`, its variants ordered by id and every field set
/// carrying `attrs`.
pub open spec fn enum_solved_as(s: Solved, v: EnumView, attrs: SolvedFieldSetAttributes) -> bool {
    match s.ty {
        SolvedType::Enum { id, invalid, invalid_name, variants, dump } => {
            &&& id@ == v.id
            &&& invalid.spec_fields() == v.invalid
            &&& invalid.attrs == attrs
            &&& invalid_name == v.invalid_name
            &&& dump == v.dump
            &&& sorted_by_id(variants@)
            &&& same_entries(entries_of(variants@), v.variants)
            &&& forall|j: int| 0 <= j < variants@.len() ==> (#[trigger] variants@[j]).1.attrs == attrs
        },
        SolvedType::Struct(_) => false,
    }
}

/// Bounds on one variant's solution that the enum's arithmetic needs.
proof fn lemma_variant_bounds(all: Seq<VariantBuilder>, idf: BuiltDataView, k: int, flip: usize)
    requires
        0 <= k < all.len(),
        enum_variant_fits(all[k].field_set, Some(idf)),
        spec_variant_solution(all, idf, k) is Ok,
    ensures
        ({
            let sol = spec_variant_solution(all, idf, k)->Ok_0;
            let fill = all[k].field_set.fill_bits;
            &&& all_well_formed(sol)
            &&& sum_bit_lengths(sol) <= usize::MAX
            &&& 0 <= sum_bit_size_no_fill(sol)
            &&& sum_bit_size_no_fill(sol) + 135 <= usize::MAX
            &&& (if sol.len() > 0 { sol.last().bit_range.end as int } else { 0 }) + fill.spec_extent() <= usize::MAX
            &&& !(fill is Auto)
            &&& spec_with_fill(fill, sol, true, flip) is Ok
        }),
{
    let fs = all[k].field_set;
    let sol = spec_variant_solution(all, idf, k)->Ok_0;
    lemma_solved_bounds(fs, Some(idf));
    lemma_variant_fill_not_auto(fs, Some(idf)->Some_0);
    let x = id_end(Some(idf)) + sum_extents(fs.fields@, Some(idf), fs.fields@.len() as int) + fs.fill_bits.spec_extent() + 7;
    if sol.len() > 0 {
        assert(sol[sol.len() - 1] == sol.last());
    }
    lemma_with_fill_bounds(fs.fill_bits, sol, true, flip, x, x);
}

impl Solved {
    /// Solves an enum: gives every variant its id, builds the id field, solves each variant
    /// after it (the default variant first), pads every variant with its fill, checks the
    /// size rules on the largest variant plus the id field and orders the variants by id.
    #[verifier::rlimit(40)]
    pub fn try_from_enum_builder(value: EnumBuilder) -> (r: Result<Solved, SolvingError>)
        requires
            enum_fits(value),
        ensures
            match spec_solve_enum(value) {
                Ok(v) => r matches Ok(s) && enum_solved_as(s, v, value.solved_attrs),
                Err(e) => r matches Err(x) && x == e,
            },
    {
        let ghost all = all_variants(value);
        let ghost n = all.len() as int;
        let (built_variants, built_invalid, id_field) = match solve_ids(&value) {
            Ok(t) => t,
            Err(e) => {
                return Err(e);
            },
        };
        let ghost st = spec_id_stage(value)->Ok_0.0;
        let ghost idf = id_field@;
        let id_bits = id_field.bit_range.bit_range.end;
        assert(id_bits <= 128);
        assert(all[n - 1] == value.invalid);
        assert(enum_variant_fits(all[n - 1].field_set, Some(idf)));
        let mut largest_bit_size: usize = 0;
        let (invalid_name, invalid_set, invalid_fill) = match Self::solve_variant(
            &built_invalid,
            &id_field,
            &value.solved_attrs,
            &mut largest_bit_size,
            id_bits,
        ) {
            Ok(t) => t,
            Err(e) => {
                return Err(e);
            },
        };
        proof {
            lemma_variant_bounds(all, idf, n - 1, 0);
            law_variant_ids_distinct(value);
        }
        let mut solved_list: Vec<(VariantInfo, SolvedFieldSet, FillBits)> = Vec::new();
        let mut i: usize = 0;
        while i < built_variants.len()
            invariant
                all == all_variants(value),
                n == all.len(),
                st == spec_id_stage(value)->Ok_0.0,
                spec_id_stage(value) == Ok::<(AssignState, BuiltDataView), SolvingError>((st, idf)),
                st.ids.len() == n,
                forall|a: int, b: int| 0 <= a < b < n ==> #[trigger] st.ids[a] != #[trigger] st.ids[b],
                id_field@ == idf,
                id_bits == idf.bit_range.end,
                id_bits <= 128,
                forall|k: int| 0 <= k < all.len() ==> enum_variant_fits(#[trigger] all[k].field_set, Some(idf)),
                built_variants@.len() == n - 1,
                forall|k: int| 0 <= k < built_variants@.len() ==> {
                    &&& (#[trigger] built_variants@[k]).id == st.ids[k]
                    &&& *built_variants@[k].field_set == all[k].field_set
                    &&& built_variants@[k].tuple == all[k].tuple
                    &&& built_variants@[k].index == all[k].index
                },
                i <= built_variants@.len(),
                spec_variant_solution(all, idf, n - 1) is Ok,
                spec_declared_error(all, idf, i as int) is None,
                largest_bit_size == ({
                    let b = sum_bit_size_no_fill(spec_variant_solution(all, idf, n - 1)->Ok_0);
                    let l = spec_largest_payload(all, idf, i as int);
                    if b < l {
                        l
                    } else {
                        b
                    }
                }),
                largest_bit_size + 135 <= usize::MAX,
                solved_list@.len() == i,
                forall|k: int| 0 <= k < i ==> {
                    &&& (#[trigger] solved_list@[k]).0 == spec_variant_info(all, st.ids, k)
                    &&& solved_list@[k].1.spec_fields() == spec_variant_solution(all, idf, k)->Ok_0
                    &&& solved_list@[k].1.attrs == value.solved_attrs
                    &&& solved_list@[k].2 == all[k].field_set.fill_bits
                },
            decreases built_variants@.len() - i,
        {
            let ghost k = i as int;
            assert(enum_variant_fits(all[k].field_set, Some(idf)));
            match Self::solve_variant(
                &built_variants[i],
                &id_field,
                &value.solved_attrs,
                &mut largest_bit_size,
                id_bits,
            ) {
                Ok(t) => {
                    proof {
                        lemma_variant_bounds(all, idf, k, 0);
                    }
                    solved_list.push(t);
                },
                Err(e) => {
                    proof {
                        lemma_declared_error_sticks(all, idf, k + 1, n - 1);
                    }
                    return Err(e);
                },
            }
            i = i + 1;
        }
        let bit_size: usize = largest_bit_size + id_bits;
        let flip_size: usize = (bit_size / 8) * 8;
        let ghost target = Seq::new(
            (n - 1) as nat,
            |k: int| (spec_variant_info(all, st.ids, k), spec_filled(all, idf, flip_size, k)),
        );
        let mut invalid = invalid_set;
        proof {
            lemma_variant_bounds(all, idf, n - 1, flip_size);
        }
        match SolvedFieldSet::maybe_add_fill_field(&invalid_fill, &mut invalid, true, Some(id_bits), flip_size) {
            Ok(()) => {},
            Err(e) => {
                return Err(e);
            },
        }
        proof {
            assert forall|k: int| 0 <= k < n - 1 implies #[trigger] spec_variant_solution(all, idf, k) is Ok by {
                lemma_no_declared_error(all, idf, n - 1, k);
            }
        }
        let ghost listed = solved_list@;
        let mut variants: Vec<(VariantInfo, SolvedFieldSet)> = Vec::new();
        let mut m: usize = solved_list.len();
        while m > 0
            invariant
                all == all_variants(value),
                n == all.len(),
                st == spec_id_stage(value)->Ok_0.0,
                forall|a: int, b: int| 0 <= a < b < n ==> #[trigger] st.ids[a] != #[trigger] st.ids[b],
                st.ids.len() == n,
                id_bits == idf.bit_range.end,
                forall|k: int| 0 <= k < all.len() ==> enum_variant_fits(#[trigger] all[k].field_set, Some(idf)),
                listed.len() == n - 1,
                forall|k: int| 0 <= k < n - 1 ==> {
                    &&& (#[trigger] listed[k]).0 == spec_variant_info(all, st.ids, k)
                    &&& listed[k].1.spec_fields() == spec_variant_solution(all, idf, k)->Ok_0
                    &&& listed[k].1.attrs == value.solved_attrs
                    &&& listed[k].2 == all[k].field_set.fill_bits
                    &&& spec_variant_solution(all, idf, k) is Ok
                },
                target == Seq::new(
                    (n - 1) as nat,
                    |k: int| (spec_variant_info(all, st.ids, k), spec_filled(all, idf, flip_size, k)),
                ),
                m <= listed.len(),
                solved_list@ == listed.subrange(0, m as int),
                variants@.len() == n - 1 - m,
                sorted_by_id(variants@),
                covers_from(entries_of(variants@), target, m as int),
                forall|j: int| 0 <= j < variants@.len() ==> (#[trigger] variants@[j]).1.attrs == value.solved_attrs,
            decreases m,
        {
            let ghost k = m - 1;
            let popped = solved_list.pop();
            assert(popped == Some(listed[k]));
            let (info, mut set, fill) = popped.unwrap();
            m = m - 1;
            proof {
                lemma_variant_bounds(all, idf, k, flip_size);
            }
            match SolvedFieldSet::maybe_add_fill_field(&fill, &mut set, true, Some(id_bits), flip_size) {
                Ok(()) => {},
                Err(e) => {
                    return Err(e);
                },
            }
            assert(set.spec_fields() == spec_filled(all, idf, flip_size, k));
            assert((info, set.spec_fields()) == target[k]);
            assert forall|j: int| 0 <= j < variants@.len() implies (#[trigger] variants@[j]).0.id != info.id by {
                let e = entries_of(variants@)[j];
                let w = choose|w: int| k + 1 <= w < target.len() && #[trigger] target[w] == e;
                assert(target[w].0.id == st.ids[w]);
            }
            let ghost before = variants@;
            insert_by_id(&mut variants, info, set);
            proof {
                let p = choose|p: int| 0 <= p <= before.len() && variants@ == before.insert(p, (info, set));
                lemma_entries_insert(before, p, (info, set));
                lemma_cover_insert(entries_of(before), target, k, p);
                before.insert_ensures(p, (info, set));
                assert forall|j: int| 0 <= j < variants@.len() implies (#[trigger] variants@[j]).1.attrs == value.solved_attrs by {
                    if j < p {
                        assert(variants@[j] == before[j]);
                    } else if j > p {
                        assert(variants@[j] == before[j - 1]);
                    }
                }
            }
        }
        match value.attrs.enforcement {
            StructEnforcement::NoRules => {},
            StructEnforcement::EnforceFullBytes => {
                if bit_size % 8 != 0 {
                    return Err(SolvingError::EnforceFullBytes);
                }
            },
            StructEnforcement::EnforceBitAmount(expected_total_bits) => {
                if bit_size != expected_total_bits {
                    return Err(SolvingError::EnforceBitCount { actual: bit_size, user: expected_total_bits });
                }
            },
        }
        let id = match SolvedData::from_built(id_field, bit_size) {
            Ok(d) => d,
            Err(e) => {
                return Err(e);
            },
        };
        proof {
            lemma_cover_same_entries(entries_of(variants@), target);
        }
        Ok(
            Solved {
                ty: SolvedType::Enum {
                    id,
                    invalid,
                    invalid_name,
                    variants,
                    dump: value.solved_attrs.dump,
                },
            },
        )
    }
}


/// Distinguishes between enums and structs or a single `field_set` vs multiple
/// `field_sets` that switch based on an id field.
pub enum BuilderType {
    /// Multiple `field_sets` that switch based on an id field.
    Enum(Box<EnumBuilder>),
    /// A single `field_set`.
    Struct(Box<StructBuilder>),
}

/// Builds a bitfield model of either kind.
pub struct GenericBuilder {
    /// Define if we are building a single `field_set` or variant type containing
    /// multiple `field_sets` switched by an id field.
    pub ty: BuilderType,
}

impl GenericBuilder {
    pub fn from_struct_builder(s: Box<StructBuilder>) -> (r: Self)
        ensures
            r.ty == BuilderType::Struct(s),
    {
        Self { ty: BuilderType::Struct(s) }
    }

    pub fn get(&self) -> (r: &BuilderType)
        ensures
            *r == self.ty,
    {
        &self.ty
    }
}

/// Whether a builder of either kind can be solved without any count leaving `usize`.
pub open spec fn generic_fits(value: GenericBuilder) -> bool {
    match value.ty {
        BuilderType::Enum(e) => enum_fits(*e),
        BuilderType::Struct(s) => field_set_fits(s.field_set, None),
    }
}

/// Tests `enum_ids_fit`.
fn enum_ids_fit_check(value: &EnumBuilder) -> (r: bool)
    ensures
        r == enum_ids_fit(*value),
{
    let ghost all = all_variants(*value);
    if check_ids(value).is_err() {
        return true;
    }
    let mut m: usize = 0;
    let mut i: usize = 0;
    while i < value.variants.len()
        invariant
            all == all_variants(*value),
            i <= value.variants@.len(),
            m == max_declared_id(all, i as int),
        decreases value.variants@.len() - i,
    {
        assert(all[i as int] == value.variants@[i as int]);
        if let Some(v) = value.variants[i].id {
            if v > m {
                m = v;
            }
        }
        i = i + 1;
    }
    if let Some(v) = value.invalid.id {
        if v > m {
            m = v;
        }
    }
    assert(m == max_declared_id(all, all.len() as int));
    let n: usize = value.variants.len();
    if m > usize::MAX - 2 || n > usize::MAX - 2 - m {
        return false;
    }
    match (value.id_bit_length, value.payload_bit_length, value.attrs.enforcement) {
        (None, Some(p), StructEnforcement::EnforceBitAmount(t)) => p <= t,
        _ => true,
    }
}

/// Tests `enum_fits`.
pub fn enum_fits_check(value: &EnumBuilder) -> (r: bool)
    ensures
        r == enum_fits(*value),
{
    if !enum_ids_fit_check(value) {
        return false;
    }
    let id_field = match solve_ids(value) {
        Ok((_, _, f)) => f,
        Err(_) => {
            return true;
        },
    };
    let ghost all = all_variants(*value);
    assert(spec_id_stage(*value) is Ok);
    assert(spec_id_stage(*value)->Ok_0.1 == id_field@);
    let mut k: usize = 0;
    while k < value.variants.len()
        invariant
            all == all_variants(*value),
            k <= value.variants@.len(),
            spec_id_stage(*value) is Ok,
            spec_id_stage(*value)->Ok_0.1 == id_field@,
            forall|j: int| 0 <= j < k ==> enum_variant_fits(#[trigger] all[j].field_set, Some(id_field@)),
        decreases value.variants@.len() - k,
    {
        assert(all[k as int] == value.variants@[k as int]);
        if !enum_variant_fits_check(&value.variants[k].field_set, Some(&id_field)) {
            assert(!enum_variant_fits(all[k as int].field_set, Some(id_field@)));
            return false;
        }
        k = k + 1;
    }
    assert(all[all.len() - 1] == value.invalid);
    enum_variant_fits_check(&value.invalid.field_set, Some(&id_field))
}

/// Tests `generic_fits`: whether `Solved::try_from_generic` can be called on `value`.
pub fn generic_fits_check(value: &GenericBuilder) -> (r: bool)
    ensures
        r == generic_fits(*value),
{
    match &value.ty {
        BuilderType::Enum(e) => enum_fits_check(e),
        BuilderType::Struct(s) => field_set_fits_check(&s.field_set, None),
    }
}

/// Whether `s` is the solved structure with fields `fields`.
pub open spec fn struct_solved_as(s: Solved, fields: Seq<ResolverView>, attrs: SolvedFieldSetAttributes) -> bool {
    match s.ty {
        SolvedType::Struct(set) => set.spec_fields() == fields && set.attrs == attrs,
        SolvedType::Enum { .. } => false,
    }
}

/// The largest payload among field sets, fill left out.
pub open spec fn max_no_fill(sets: Seq<Seq<ResolverView>>) -> int
    decreases sets.len(),
{
    if sets.len() == 0 {
        0
    } else {
        let m = max_no_fill(sets.drop_last());
        let b = sum_bit_size_no_fill(sets.last());
        if m < b {
            b
        } else {
            m
        }
    }
}

/// The field sets of an enum's variants, as values.
pub open spec fn variant_field_sets(v: Seq<(VariantInfo, SolvedFieldSet)>) -> Seq<Seq<ResolverView>> {
    v.map_values(|e: (VariantInfo, SolvedFieldSet)| e.1.spec_fields())
}

impl Solved {
    /// Solves a structure's field set.
    pub fn try_from_struct_builder(value: &StructBuilder) -> (r: Result<Solved, SolvingError>)
        requires
            field_set_fits(value.field_set, None),
        ensures
            match spec_solve_field_set(value.field_set, None) {
                Ok(s) => r matches Ok(sol) && struct_solved_as(sol, s, value.attrs),
                Err(e) => r matches Err(x) && x == e,
            },
    {
        match SolvedFieldSet::try_from_field_set(&value.field_set, &value.attrs, None) {
            Ok(fs) => Ok(Solved { ty: SolvedType::Struct(fs) }),
            Err(e) => Err(e),
        }
    }

    /// Solves a structure or an enum.
    pub fn try_from_generic(value: GenericBuilder) -> (r: Result<Solved, SolvingError>)
        requires
            generic_fits(value),
        ensures
            match value.ty {
                BuilderType::Enum(e) => match spec_solve_enum(*e) {
                    Ok(v) => r matches Ok(s) && enum_solved_as(s, v, e.solved_attrs),
                    Err(err) => r matches Err(x) && x == err,
                },
                BuilderType::Struct(st) => match spec_solve_field_set(st.field_set, None) {
                    Ok(f) => r matches Ok(s) && struct_solved_as(s, f, st.attrs),
                    Err(err) => r matches Err(x) && x == err,
                },
            },
    {
        match value.ty {
            BuilderType::Enum(e) => Self::try_from_enum_builder(*e),
            BuilderType::Struct(s) => Self::try_from_struct_builder(&*s),
        }
    }

    /// The bits the model uses, fill left out: a structure's fields, or the largest variant
    /// plus the id field.
    pub open spec fn spec_total_bits_no_fill(&self) -> int {
        match self.ty {
            SolvedType::Enum { id, invalid, variants, .. } => max_no_fill(
                variant_field_sets(variants@).insert(0, invalid.spec_fields()),
            ) + id@.bit_length(),
            SolvedType::Struct(set) => sum_bit_size_no_fill(set.spec_fields()),
        }
    }

    /// Every count of `spec_total_bits_no_fill` fits in `usize`.
    pub open spec fn sizes_fit(&self) -> bool {
        match self.ty {
            SolvedType::Enum { id, invalid, variants, .. } => {
                &&& forall|j: int| 0 <= j < variants@.len() ==> {
                    &&& all_well_formed((#[trigger] variants@[j]).1.spec_fields())
                    &&& sum_bit_size_no_fill(variants@[j].1.spec_fields()) <= usize::MAX
                }
                &&& all_well_formed(invalid.spec_fields())
                &&& sum_bit_size_no_fill(invalid.spec_fields()) <= usize::MAX
                &&& id@.well_formed()
                &&& max_no_fill(variant_field_sets(variants@).insert(0, invalid.spec_fields()))
                    + id@.bit_length() <= usize::MAX
            },
            SolvedType::Struct(set) => {
                &&& all_well_formed(set.spec_fields())
                &&& sum_bit_size_no_fill(set.spec_fields()) <= usize::MAX
            },
        }
    }

    pub fn total_bits_no_fill(&self) -> (r: usize)
        requires
            self.sizes_fit(),
        ensures
            r == self.spec_total_bits_no_fill(),
    {
        match &self.ty {
            SolvedType::Enum { id, invalid, variants, .. } => {
                let ghost sets = variant_field_sets(variants@).insert(0, invalid.spec_fields());
                proof {
                    lemma_no_fill_le_lengths(invalid.spec_fields());
                    assert(sets.take(1) =~= seq![invalid.spec_fields()]);
                    assert(sets.take(1).drop_last() =~= Seq::<Seq<ResolverView>>::empty());
                    lemma_max_no_fill_bound(sets, 1);
                    lemma_max_no_fill_prefix(sets, 1);
                    assert(sets.take(0) =~= Seq::<Seq<ResolverView>>::empty());
                }
                let mut largest: usize = 0;
                // check invalid variant
                let other = invalid.total_bits_no_fill();
                if other > largest {
                    largest = other;
                }
                // check variants
                let mut i: usize = 0;
                while i < variants.len()
                    invariant
                        self.sizes_fit(),
                        self.ty == (SolvedType::Enum { id: *id, invalid: *invalid, invalid_name: self.ty->invalid_name, variants: *variants, dump: self.ty->dump }),
                        sets == variant_field_sets(variants@).insert(0, invalid.spec_fields()),
                        i <= variants@.len(),
                        largest == max_no_fill(sets.take(i + 1)),
                        max_no_fill(sets) + id@.bit_length() <= usize::MAX,
                        max_no_fill(sets.take(i + 1)) <= max_no_fill(sets),
                    decreases variants@.len() - i,
                {
                    proof {
                        assert(sets.take(i + 2).drop_last() =~= sets.take(i + 1));
                        assert(sets[i + 1] == variants@[i as int].1.spec_fields());
                        assert(sets.take(i + 2).last() == sets[i + 1]);
                        lemma_max_no_fill_prefix(sets, i + 2);
                        lemma_max_no_fill_bound(sets, i + 2);
                    }
                    let other = variants[i].1.total_bits_no_fill();
                    if other > largest {
                        largest = other;
                    }
                    i = i + 1;
                }
                assert(sets.take(i + 1) =~= sets);
                let id_length = id.bit_length();
                largest + id_length
            },
            SolvedType::Struct(solved_field_set) => solved_field_set.total_bits_no_fill(),
        }
    }

    /// Whether every count of the model's size fits in `usize`.
    pub fn sizes_fit_check(&self) -> (r: bool)
        ensures
            r == self.sizes_fit(),
    {
        match &self.ty {
            SolvedType::Enum { id, invalid, variants, .. } => {
                let ghost sets = variant_field_sets(variants@).insert(0, invalid.spec_fields());
                let first = match invalid.checked_bits_no_fill() {
                    Some(t) => t,
                    None => return false,
                };
                proof {
                    assert(sets.take(1) =~= seq![invalid.spec_fields()]);
                    assert(sets.take(1).drop_last() =~= Seq::<Seq<ResolverView>>::empty());
                    assert(sets[0] == invalid.spec_fields());
                    lemma_max_no_fill_prefix(sets, 1);
                    assert(sets.take(0) =~= Seq::<Seq<ResolverView>>::empty());
                }
                let mut largest: usize = first;
                let mut i: usize = 0;
                while i < variants.len()
                    invariant
                        self.ty == (SolvedType::Enum { id: *id, invalid: *invalid, invalid_name: self.ty->invalid_name, variants: *variants, dump: self.ty->dump }),
                        sets == variant_field_sets(variants@).insert(0, invalid.spec_fields()),
                        i <= variants@.len(),
                        largest == max_no_fill(sets.take(i + 1)),
                        forall|j: int| 0 <= j < i ==> {
                            &&& all_well_formed((#[trigger] variants@[j]).1.spec_fields())
                            &&& sum_bit_size_no_fill(variants@[j].1.spec_fields()) <= usize::MAX
                        },
                    decreases variants@.len() - i,
                {
                    let other = match variants[i].1.checked_bits_no_fill() {
                        Some(t) => t,
                        None => return false,
                    };
                    proof {
                        assert(sets.take(i + 2).drop_last() =~= sets.take(i + 1));
                        assert(sets[i + 1] == variants@[i as int].1.spec_fields());
                        lemma_max_no_fill_prefix(sets, i + 2);
                    }
                    if other > largest {
                        largest = other;
                    }
                    i = i + 1;
                }
                assert(sets.take(i + 1) =~= sets);
                let r = &id.resolver;
                let id_ok: bool = r.data.bit_range.start <= r.data.bit_range.end && match r.overlap {
                    OverlapOptions::Allow(skip) => skip <= r.data.bit_range.end - r.data.bit_range.start,
                    _ => true,
                };
                if !id_ok {
                    return false;
                }
                let len = r.data.bit_range.end - r.data.bit_range.start;
                largest <= usize::MAX - len
            },
            SolvedType::Struct(set) => set.checked_bits_no_fill().is_some(),
        }
    }

    /// The bytes the model takes, fill left out, or `None` when a count of it leaves `usize`.
    pub fn byte_size(&self) -> (r: Option<usize>)
        ensures
            r is Some <==> self.sizes_fit(),
            r matches Some(n) ==> n == ceil8(self.spec_total_bits_no_fill()),
    {
        if self.sizes_fit_check() {
            Some(self.total_bytes_no_fill())
        } else {
            None
        }
    }

    pub fn total_bytes_no_fill(&self) -> (r: usize)
        requires
            self.sizes_fit(),
        ensures
            r == ceil8(self.spec_total_bits_no_fill()),
    {
        div_ceil8(self.total_bits_no_fill())
    }

    pub fn dump(&self) -> (r: bool)
        ensures
            r == match self.ty {
                SolvedType::Enum { dump, .. } => dump,
                SolvedType::Struct(set) => set.attrs.dump,
            },
    {
        match &self.ty {
            SolvedType::Enum { dump, .. } => *dump,
            SolvedType::Struct(solved_field_set) => solved_field_set.attrs.dump,
        }
    }
}

proof fn lemma_max_no_fill_prefix(sets: Seq<Seq<ResolverView>>, k: int)
    requires
        0 < k <= sets.len(),
    ensures
        max_no_fill(sets.take(k)) == ({
            let m = max_no_fill(sets.take(k - 1));
            let b = sum_bit_size_no_fill(sets[k - 1]);
            if m < b {
                b
            } else {
                m
            }
        }),
{
    assert(sets.take(k).drop_last() =~= sets.take(k - 1));
    assert(sets.take(k).last() == sets[k - 1]);
}

proof fn lemma_max_no_fill_bound(sets: Seq<Seq<ResolverView>>, k: int)
    requires
        0 <= k <= sets.len(),
    ensures
        max_no_fill(sets.take(k)) <= max_no_fill(sets),
    decreases sets.len(),
{
    if k == sets.len() {
        assert(sets.take(k) =~= sets);
    } else {
        lemma_max_no_fill_bound(sets.drop_last(), k);
        assert(sets.drop_last().take(k) =~= sets.take(k));
    }
}


proof fn lemma_pow2_mono(a: nat, b: nat)
    requires
        a <= b,
    ensures
        pow2(a) <= pow2(b),
    decreases b,
{
    if a < b {
        lemma_pow2_mono(a, (b - 1) as nat);
    }
}

/// Every id an enum gives its variants can be written in its id field: each is below
/// `2^id_bits`.
pub proof fn law_variant_ids_fit_id_field(value: EnumBuilder)
    requires
        enum_fits(value),
        spec_id_stage(value) is Ok,
    ensures
        ({
            let (st, idf) = spec_id_stage(value)->Ok_0;
            &&& idf.bit_range.start == 0
            &&& forall|k: int| 0 <= k < st.ids.len() ==> (#[trigger] st.ids[k]) < pow2(idf.bit_range.end as nat)
        }),
{
    let (st, idf) = spec_id_stage(value)->Ok_0;
    law_variant_ids_distinct(value);
    law_bits_needed_is_minimal(st.largest as nat);
    lemma_pow2_mono(spec_bits_needed(st.largest as nat), idf.bit_range.end as nat);
}

/// A solved enum keeps its size rule: the largest variant plus the id field is a whole
/// number of bytes, or exactly the enforced number of bits.
pub proof fn law_enum_enforcement_holds(value: EnumBuilder)
    requires
        spec_solve_enum(value) is Ok,
    ensures
        ({
            let all = all_variants(value);
            let idf = spec_id_stage(value)->Ok_0.1;
            let bit_size = spec_largest_payload(all, idf, all.len() as int) + idf.bit_range.end;
            &&& value.attrs.enforcement is EnforceFullBytes ==> bit_size % 8 == 0
            &&& value.attrs.enforcement matches StructEnforcement::EnforceBitAmount(t) ==> bit_size == t
        }),
{
}

/// A solved enum keeps one variant per declared variant, in order by id, with the default
/// variant apart; their ids are pairwise distinct (the default's too), a declared id is the
/// one the variant gets, and every id fits the id field.
pub proof fn law_solved_enum_ids(value: EnumBuilder, s: Solved)
    requires
        enum_fits(value),
        spec_solve_enum(value) is Ok,
        enum_solved_as(s, spec_solve_enum(value)->Ok_0, value.solved_attrs),
    ensures
        s.ty matches SolvedType::Enum { invalid_name, variants, .. } && {
            let n = value.variants@.len();
            let bits = spec_id_stage(value)->Ok_0.1.bit_range.end;
            &&& variants@.len() == n
            &&& forall|i: int, j: int| 0 <= i < j < n ==> (#[trigger] variants@[i]).0.id < (#[trigger] variants@[j]).0.id
            &&& forall|i: int| 0 <= i < n ==> (#[trigger] variants@[i]).0.id != invalid_name.id
            &&& forall|i: int| 0 <= i < n ==> (#[trigger] variants@[i]).0.id < pow2(bits as nat)
            &&& invalid_name.id < pow2(bits as nat)
            &&& value.invalid.id matches Some(d) ==> invalid_name.id == d
            &&& forall|k: int| 0 <= k < n && (#[trigger] value.variants@[k]).id is Some
                ==> exists|j: int| 0 <= j < n && #[trigger] variants@[j].0 == VariantInfo {
                    id: value.variants@[k].id->Some_0,
                    index: value.variants@[k].index,
                    tuple: value.variants@[k].tuple,
                }
        },
{
    let all = all_variants(value);
    let n = value.variants@.len() as int;
    let v = spec_solve_enum(value)->Ok_0;
    let st = spec_id_stage(value)->Ok_0.0;
    law_variant_ids_distinct(value);
    law_variant_ids_fit_id_field(value);
    if let SolvedType::Enum { invalid_name, variants, .. } = s.ty {
        let e = entries_of(variants@);
        assert(v.variants.len() == n);
        assert forall|i: int| 0 <= i < n implies (#[trigger] variants@[i]).0.id != invalid_name.id && variants@[i].0.id
            < pow2(spec_id_stage(value)->Ok_0.1.bit_range.end as nat) by {
            assert(e[i] == (variants@[i].0, variants@[i].1.spec_fields()));
            assert(v.variants.contains(e[i]));
            let k = choose|k: int| 0 <= k < v.variants.len() && v.variants[k] == e[i];
            assert(v.variants[k].0.id == st.ids[k]);
            assert(all[n] == value.invalid);
            assert(st.ids[k] != st.ids[n]);
        }
        assert forall|k: int| 0 <= k < n && (#[trigger] value.variants@[k]).id is Some implies exists|j: int|
            0 <= j < n && #[trigger] variants@[j].0 == VariantInfo {
                id: value.variants@[k].id->Some_0,
                index: value.variants@[k].index,
                tuple: value.variants@[k].tuple,
            } by {
            assert(all[k] == value.variants@[k]);
            assert(v.variants[k].0 == spec_variant_info(all, st.ids, k));
            assert(e.contains(v.variants[k]));
            let j = choose|j: int| 0 <= j < e.len() && e[j] == v.variants[k];
            assert(e[j] == (variants@[j].0, variants@[j].1.spec_fields()));
        }
    }
}

} // verus!
