use crate::attrs::{FieldSetBuilder, FillBits, StructEnforcement};
use crate::data::{DataBuilder, DataBuilderRange, DataType, FieldKey, NumberType, RustByteSize};
use crate::endianness::Endianness;
use crate::error::{SolvingError, UnfinishedFeature};
use crate::field::{copy_range, in_range, law_conflict_is_shared_bit, ranges_conflict, OverlapOptions, ReserveFieldOption};
use crate::resolver::{
    ceil8, div_ceil8, spec_from_built, spec_placed_range, ResolverView, SolvedData,
};
use crate::solve::{
    shape_of, spec_builder_range, spec_conflict, spec_start, BuiltData, BuiltDataView,
    BuiltRange, BuiltRangeType, RangeShape,
};
use std::ops::Range;
use vstd::prelude::*;

verus! {

#[derive(Clone, Copy, Debug, PartialEq, Eq)]
pub struct SolvedFieldSetAttributes {
    pub dump: bool,
}

impl Default for SolvedFieldSetAttributes {
    fn default() -> (r: Self)
        ensures
            !r.dump,
    {
        SolvedFieldSetAttributes { dump: false }
    }
}

/// The fields of a structure or enum variant with their bits placed.
#[derive(Debug)]
pub struct SolvedFieldSet {
    pub attrs: SolvedFieldSetAttributes,
    pub fields: Vec<SolvedData>,
}

/// A field set of an enum variant can be solved, and filled once more by the enum, without
/// any count leaving `usize`: past its own solution's bound, the enum's fill may take up to
/// the fill once more, and the id field (at most 128 bits) and the rounding to whole bytes
/// (7 bits) are added to the largest payload.
pub open spec fn enum_variant_fits(value: FieldSetBuilder, id: Option<BuiltDataView>) -> bool {
    &&& field_set_fits(value, id)
    &&& id_end(id) + sum_extents(value.fields@, id, value.fields@.len() as int) + 2 * value.fill_bits.spec_extent() + 142 <= usize::MAX
}

/// The views of solved fields.
pub open spec fn views_of(fields: Seq<SolvedData>) -> Seq<ResolverView> {
    fields.map_values(|f: SolvedData| f@)
}

/// The sum of the bit lengths of `s`.
pub open spec fn sum_bit_lengths(s: Seq<ResolverView>) -> int
    decreases s.len(),
{
    if s.len() == 0 {
        0
    } else {
        sum_bit_lengths(s.drop_last()) + s.last().bit_length()
    }
}

/// The sum of the bits that count toward the size of `s`, fill fields left out.
pub open spec fn sum_bit_size_no_fill(s: Seq<ResolverView>) -> int
    decreases s.len(),
{
    if s.len() == 0 {
        0
    } else {
        sum_bit_size_no_fill(s.drop_last()) + s.last().bit_size_no_fill()
    }
}

/// Every field of `s` has a measurable length.
pub open spec fn all_well_formed(s: Seq<ResolverView>) -> bool {
    forall|i: int| 0 <= i < s.len() ==> #[trigger] s[i].well_formed()
}

proof fn lemma_sum_prefix(s: Seq<ResolverView>, k: int)
    requires
        0 <= k <= s.len(),
        all_well_formed(s),
    ensures
        sum_bit_lengths(s.take(k)) <= sum_bit_lengths(s),
        sum_bit_size_no_fill(s.take(k)) <= sum_bit_size_no_fill(s),
        0 <= sum_bit_size_no_fill(s.take(k)),
    decreases s.len(),
{
    if k < s.len() {
        assert(s.drop_last().take(k) =~= s.take(k));
        lemma_sum_prefix(s.drop_last(), k);
        assert(s.last().well_formed());
    } else {
        assert(s.take(k) =~= s);
        if s.len() > 0 {
            lemma_sum_prefix(s.drop_last(), k - 1);
            assert(s.last().well_formed());
        }
    }
}

impl SolvedFieldSet {
    pub open spec fn spec_fields(&self) -> Seq<ResolverView> {
        views_of(self.fields@)
    }

    /// Sum of the bit lengths of the fields.
    pub fn total_bits(&self) -> (total: usize)
        requires
            all_well_formed(self.spec_fields()),
            sum_bit_lengths(self.spec_fields()) <= usize::MAX,
        ensures
            total == sum_bit_lengths(self.spec_fields()),
    {
        let mut total: usize = 0;
        let mut i: usize = 0;
        while i < self.fields.len()
            invariant
                i <= self.fields.len(),
                all_well_formed(self.spec_fields()),
                sum_bit_lengths(self.spec_fields()) <= usize::MAX,
                total == sum_bit_lengths(self.spec_fields().take(i as int)),
            decreases self.fields.len() - i,
        {
            proof {
                assert(self.spec_fields().take(i + 1).drop_last() =~= self.spec_fields().take(i as int));
                lemma_sum_prefix(self.spec_fields(), i + 1);
                assert(self.spec_fields()[i as int].well_formed());
            }
            let bit_length = self.fields[i].bit_length();
            total = total + bit_length;
            i = i + 1;
        }
        assert(self.spec_fields().take(i as int) =~= self.spec_fields());
        total
    }

    /// Sum of the bits of the fields that count toward the structure's size.
    pub fn total_bits_no_fill(&self) -> (total: usize)
        requires
            all_well_formed(self.spec_fields()),
            sum_bit_size_no_fill(self.spec_fields()) <= usize::MAX,
        ensures
            total == sum_bit_size_no_fill(self.spec_fields()),
    {
        let mut total: usize = 0;
        let mut i: usize = 0;
        while i < self.fields.len()
            invariant
                i <= self.fields.len(),
                all_well_formed(self.spec_fields()),
                sum_bit_size_no_fill(self.spec_fields()) <= usize::MAX,
                total == sum_bit_size_no_fill(self.spec_fields().take(i as int)),
            decreases self.fields.len() - i,
        {
            proof {
                assert(self.spec_fields().take(i + 1).drop_last() =~= self.spec_fields().take(i as int));
                lemma_sum_prefix(self.spec_fields(), i + 1);
                assert(self.spec_fields()[i as int].well_formed());
            }
            let field_bits = self.fields[i].resolver.bit_size_no_fill();
            total = total + field_bits;
            i = i + 1;
        }
        assert(self.spec_fields().take(i as int) =~= self.spec_fields());
        total
    }

    pub fn total_bytes(&self) -> (r: usize)
        requires
            all_well_formed(self.spec_fields()),
            sum_bit_lengths(self.spec_fields()) <= usize::MAX,
        ensures
            r == ceil8(sum_bit_lengths(self.spec_fields())),
    {
        div_ceil8(self.total_bits())
    }

    pub fn total_bytes_no_fill(&self) -> (r: usize)
        requires
            all_well_formed(self.spec_fields()),
            sum_bit_size_no_fill(self.spec_fields()) <= usize::MAX,
        ensures
            r == ceil8(sum_bit_size_no_fill(self.spec_fields())),
    {
        div_ceil8(self.total_bits_no_fill())
    }

    /// The bits the fields count toward the structure's size, or `None` when a field's range
    /// is not measurable or the sum leaves `usize`.
    pub fn checked_bits_no_fill(&self) -> (r: Option<usize>)
        ensures
            r is Some <==> all_well_formed(self.spec_fields()) && sum_bit_size_no_fill(self.spec_fields()) <= usize::MAX,
            r matches Some(t) ==> t == sum_bit_size_no_fill(self.spec_fields()),
    {
        let ghost s = self.spec_fields();
        let mut i: usize = 0;
        while i < self.fields.len()
            invariant
                i <= self.fields.len(),
                s == self.spec_fields(),
                all_well_formed(s.take(i as int)),
            decreases self.fields.len() - i,
        {
            let f = &self.fields[i].resolver;
            let ok: bool = f.data.bit_range.start <= f.data.bit_range.end && match f.overlap {
                OverlapOptions::Allow(skip) => skip <= f.data.bit_range.end - f.data.bit_range.start,
                _ => true,
            };
            if !ok {
                assert(!s[i as int].well_formed());
                return None;
            }
            assert forall|j: int| 0 <= j < i + 1 implies #[trigger] s.take(i + 1)[j].well_formed() by {
                if j < i {
                    assert(s.take(i + 1)[j] == s.take(i as int)[j]);
                }
            }
            i = i + 1;
        }
        assert(s.take(i as int) =~= s);
        let mut total: usize = 0;
        let mut k: usize = 0;
        while k < self.fields.len()
            invariant
                k <= self.fields.len(),
                s == self.spec_fields(),
                all_well_formed(s),
                total == sum_bit_size_no_fill(s.take(k as int)),
            decreases self.fields.len() - k,
        {
            proof {
                assert(s.take(k + 1).drop_last() =~= s.take(k as int));
                assert(s[k as int].well_formed());
                lemma_sum_prefix(s, k + 1);
                lemma_sum_prefix(s, k as int);
            }
            let bits = self.fields[k].resolver.bit_size_no_fill();
            if total > usize::MAX - bits {
                proof {
                    lemma_sum_prefix(s, k + 1);
                }
                return None;
            }
            total = total + bits;
            k = k + 1;
        }
        assert(s.take(k as int) =~= s);
        Some(total)
    }

    /// The name of the field that captures an enum's id, if there is one.
    pub fn get_captured_id_name(&self) -> (r: Option<FieldKey>)
        ensures
            r matches Some(k) ==> exists|i: int|
                0 <= i < self.fields.len() && (#[trigger] self.spec_fields()[i]).is_captured_id
                    && self.spec_fields()[i].field_name == k && forall|j: int|
                    0 <= j < i ==> !(#[trigger] self.spec_fields()[j]).is_captured_id,
            r is None ==> forall|i: int|
                0 <= i < self.fields.len() ==> !(#[trigger] self.spec_fields()[i]).is_captured_id,
    {
        let mut i: usize = 0;
        while i < self.fields.len()
            invariant
                i <= self.fields.len(),
                forall|j: int| 0 <= j < i ==> !(#[trigger] self.spec_fields()[j]).is_captured_id,
            decreases self.fields.len() - i,
        {
            if self.fields[i].attr_capture_id() {
                assert(self.spec_fields()[i as int].is_captured_id);
                return Some(self.fields[i].resolver.data.field_name);
            }
            i = i + 1;
        }
        None
    }
}


/// How far a declared field can reach: a captured id reaches the end of the id field.
pub open spec fn field_extent(f: DataBuilder, id: Option<BuiltDataView>) -> int {
    if f.is_captured_id {
        match id {
            Some(d) => d.bit_range.end as int,
            None => 0,
        }
    } else {
        f.spec_extent()
    }
}

/// The sum of the extents of the first `n` fields.
pub open spec fn sum_extents(fields: Seq<DataBuilder>, id: Option<BuiltDataView>, n: int) -> int
    decreases n,
{
    if n <= 0 {
        0
    } else {
        sum_extents(fields, id, n - 1) + field_extent(fields[n - 1], id)
    }
}

pub open spec fn id_end(id: Option<BuiltDataView>) -> int {
    match id {
        Some(d) => d.bit_range.end as int,
        None => 0,
    }
}

pub open spec fn id_length(id: Option<BuiltDataView>) -> int {
    match id {
        Some(d) => d.bit_range.end - d.bit_range.start,
        None => 0,
    }
}

/// The bits of a declared field when the previous field ended at `last`: a captured id takes
/// the id field's bits.
pub open spec fn spec_field_range(f: DataBuilder, id: Option<BuiltDataView>, last: Option<usize>) -> Range<usize> {
    if f.is_captured_id {
        match id {
            Some(d) => d.bit_range,
            None => Range { start: 0, end: 0 },
        }
    } else {
        spec_builder_range(f.bit_range, f.ty, last)
    }
}

/// Where the last field that counts for placement ended, before field `i`. The first field
/// follows the id field; redundant fields do not move the next start.
pub open spec fn spec_last_end(fields: Seq<DataBuilder>, id: Option<BuiltDataView>, i: int) -> Option<usize>
    decreases i,
{
    if i <= 0 {
        match id {
            Some(d) => Some((d.bit_range.end - d.bit_range.start) as usize),
            None => None,
        }
    } else {
        let prev = spec_last_end(fields, id, i - 1);
        if fields[i - 1].overlap is Redundant {
            prev
        } else {
            Some(spec_field_range(fields[i - 1], id, prev).end)
        }
    }
}

/// Field `i` of the set with its bits placed.
pub open spec fn spec_built(fields: Seq<DataBuilder>, id: Option<BuiltDataView>, e: Endianness, i: int) -> BuiltDataView {
    let f = fields[i];
    BuiltDataView {
        id: f.id,
        ty: f.ty.data_type,
        bit_range: spec_field_range(f, id, spec_last_end(fields, id, i)),
        shape: if f.is_captured_id {
            match id {
                Some(d) => d.shape,
                None => RangeShape::Single,
            }
        } else {
            shape_of(f.ty)
        },
        endianness: e,
        reserve: f.reserve,
        overlap: f.overlap,
        is_captured_id: f.is_captured_id,
    }
}

pub open spec fn spec_built_seq(fields: Seq<DataBuilder>, id: Option<BuiltDataView>, e: Endianness) -> Seq<BuiltDataView> {
    Seq::new(fields.len(), |i: int| spec_built(fields, id, e, i))
}

/// The first error met while placing the first `n` fields: a captured id outside an enum,
/// or a field that conflicts with one placed before it.
pub open spec fn spec_place_error(fields: Seq<DataBuilder>, id: Option<BuiltDataView>, e: Endianness, n: int) -> Option<SolvingError>
    decreases n,
{
    if n <= 0 {
        None
    } else {
        match spec_place_error(fields, id, e, n - 1) {
            Some(err) => Some(err),
            None => {
                let k = n - 1;
                if fields[k].is_captured_id && id is None {
                    Some(SolvingError::Unfinished(UnfinishedFeature::CaptureIdOutsideEnum))
                } else if exists|j: int|
                    0 <= j < k && #[trigger] spec_conflict(
                        spec_built(fields, id, e, k),
                        spec_built(fields, id, e, j),
                    ) {
                    Some(SolvingError::Overlap)
                } else {
                    None
                }
            },
        }
    }
}

/// The id field's bits plus the bits of the first `n` placed fields.
pub open spec fn spec_placed_total(fields: Seq<DataBuilder>, id: Option<BuiltDataView>, e: Endianness, n: int) -> int
    decreases n,
{
    if n <= 0 {
        id_length(id)
    } else {
        spec_placed_total(fields, id, e, n - 1) + (spec_built(fields, id, e, n - 1).bit_range.end
            - spec_built(fields, id, e, n - 1).bit_range.start)
    }
}

/// Resolving the first `n` placed fields inside `flip_bits` bits, each checked against the id
/// field first.
pub open spec fn spec_resolve(built: Seq<BuiltDataView>, id: Option<BuiltDataView>, flip_bits: usize, n: int) -> Result<Seq<ResolverView>, SolvingError>
    decreases n,
{
    if n <= 0 {
        Ok(Seq::empty())
    } else {
        match spec_resolve(built, id, flip_bits, n - 1) {
            Err(err) => Err(err),
            Ok(prev) => if id matches Some(d) && spec_conflict(d, built[n - 1]) {
                Err(SolvingError::Overlap)
            } else {
                match spec_from_built(built[n - 1], flip_bits) {
                    Err(err) => Err(err),
                    Ok(r) => Ok(prev.push(r)),
                }
            },
        }
    }
}

/// The error the size rules give for a field set of `bit_size` bits.
pub open spec fn spec_enforcement_error(enforcement: StructEnforcement, bit_size: int) -> Option<SolvingError> {
    match enforcement {
        StructEnforcement::NoRules => None,
        StructEnforcement::EnforceFullBytes => if bit_size % 8 != 0 {
            Some(SolvingError::EnforceFullBytes)
        } else {
            None
        },
        StructEnforcement::EnforceBitAmount(expected) => if bit_size != expected {
            Some(SolvingError::EnforceBitCount { actual: bit_size as usize, user: expected })
        } else {
            None
        },
    }
}

/// The fill field: `amount` reserved bits after the end of the last field.
pub open spec fn spec_fill_built(fields: Seq<ResolverView>, amount: int) -> BuiltDataView {
    let first = if fields.len() > 0 {
        fields.last().bit_range.end as int
    } else {
        0
    };
    BuiltDataView {
        id: FieldKey::FillBits,
        ty: DataType::Number(NumberType::Unsigned, RustByteSize::One),
        bit_range: Range { start: first as usize, end: (first + amount) as usize },
        shape: RangeShape::Block(seq![ceil8(amount) as usize]),
        endianness: Endianness::nested_spec(),
        reserve: ReserveFieldOption::FakeField,
        overlap: OverlapOptions::NoOverlap,
        is_captured_id: false,
    }
}

/// How many fill bits a field set gets: none, the amount asked for, or (automatically) enough
/// to reach a whole byte; automatic filling is not available for enum variants.
pub open spec fn spec_fill_amount(fill: FillBits, fields: Seq<ResolverView>, has_id_field: bool) -> Result<Option<int>, SolvingError> {
    match fill {
        FillBits::NoFill => Ok(None),
        FillBits::Bits(bits) => Ok(Some(bits as int)),
        FillBits::Auto => if has_id_field {
            Err(SolvingError::Unfinished(UnfinishedFeature::AutoFillInEnum))
        } else if sum_bit_lengths(fields) % 8 == 0 {
            Ok(None)
        } else {
            Ok(Some(8 - sum_bit_lengths(fields) % 8))
        },
    }
}

/// The fields after the fill field (if any) was added.
pub open spec fn spec_with_fill(fill: FillBits, fields: Seq<ResolverView>, has_id_field: bool, total_bits: usize) -> Result<Seq<ResolverView>, SolvingError> {
    match spec_fill_amount(fill, fields, has_id_field) {
        Err(err) => Err(err),
        Ok(None) => Ok(fields),
        Ok(Some(amount)) => match spec_from_built(spec_fill_built(fields, amount), total_bits) {
            Ok(f) => Ok(fields.push(f)),
            Err(err) => Err(err),
        },
    }
}

/// The solved fields of a field set (following the id field `id` when it is an enum variant),
/// or the first error met.
pub open spec fn spec_solve_field_set(value: FieldSetBuilder, id: Option<BuiltDataView>) -> Result<Seq<ResolverView>, SolvingError> {
    let fields = value.fields@;
    let e = value.attrs.default_endianness;
    let n = fields.len() as int;
    match spec_place_error(fields, id, e, n) {
        Some(err) => Err(err),
        None => {
            let flip_bits = (ceil8(spec_placed_total(fields, id, e, n)) * 8) as usize;
            match spec_resolve(spec_built_seq(fields, id, e), id, flip_bits, n) {
                Err(err) => Err(err),
                Ok(solved) => match spec_enforcement_error(value.attrs.enforcement, sum_bit_lengths(solved)) {
                    Some(err) => Err(err),
                    None => spec_with_fill(value.fill_bits, solved, id is Some, flip_bits),
                },
            }
        },
    }
}

/// The field set can be solved without any count leaving `usize`.
pub open spec fn field_set_fits(value: FieldSetBuilder, id: Option<BuiltDataView>) -> bool {
    let fields = value.fields@;
    &&& forall|k: int| 0 <= k < fields.len() ==> (#[trigger] fields[k]).well_formed()
    &&& forall|k: int|
        0 <= k < fields.len() && (#[trigger] fields[k]).is_captured_id ==> (fields[k].overlap matches OverlapOptions::Allow(skip) ==> skip <= id_length(id))
    &&& (id matches Some(d) ==> d.bit_range.start <= d.bit_range.end)
    &&& id_end(id) + sum_extents(fields, id, fields.len() as int) + value.fill_bits.spec_extent() + 7 <= usize::MAX
}


/// The end of the id field's bits plus the extents of every field, when that stays inside
/// `usize`.
fn extents_total(value: &FieldSetBuilder, id: Option<&BuiltData>) -> (r: Option<usize>)
    requires
        forall|k: int| 0 <= k < value.fields@.len() ==> (#[trigger] value.fields@[k]).well_formed(),
    ensures
        r matches Some(t) ==> t == id_end(opt_view(id)) + sum_extents(value.fields@, opt_view(id), value.fields@.len() as int),
        r is None ==> id_end(opt_view(id)) + sum_extents(value.fields@, opt_view(id), value.fields@.len() as int) > usize::MAX,
{
    let ghost idv = opt_view(id);
    let mut total: usize = match id {
        Some(d) => d.bit_range.bit_range.end,
        None => 0,
    };
    let mut k: usize = 0;
    while k < value.fields.len()
        invariant
            k <= value.fields@.len(),
            idv == opt_view(id),
            forall|j: int| 0 <= j < value.fields@.len() ==> (#[trigger] value.fields@[j]).well_formed(),
            total == id_end(idv) + sum_extents(value.fields@, idv, k as int),
        decreases value.fields@.len() - k,
    {
        let f = &value.fields[k];
        let extent: usize = if f.is_captured_id {
            match id {
                Some(d) => d.bit_range.bit_range.end,
                None => 0,
            }
        } else {
            match &f.bit_range {
                DataBuilderRange::Range(r) => r.end,
                DataBuilderRange::Size(n) => *n,
                DataBuilderRange::Unset => f.ty.unset_bits(),
            }
        };
        assert(extent == field_extent(value.fields@[k as int], idv));
        proof {
            lemma_sum_extents_nonneg(value.fields@, idv, k as int + 1);
        }
        match total.checked_add(extent) {
            Some(t) => {
                total = t;
            },
            None => {
                proof {
                    lemma_sum_extents_grows(value.fields@, idv, k as int + 1, value.fields@.len() as int);
                }
                return None;
            },
        }
        k = k + 1;
    }
    Some(total)
}

/// The extents of fields are never negative.
proof fn lemma_sum_extents_nonneg(fields: Seq<DataBuilder>, id: Option<BuiltDataView>, n: int)
    requires
        n <= fields.len(),
    ensures
        sum_extents(fields, id, n) >= 0,
    decreases n,
{
    if n > 0 {
        lemma_sum_extents_nonneg(fields, id, n - 1);
        assert(field_extent(fields[n - 1], id) >= 0) by {
            if !fields[n - 1].is_captured_id {
                if fields[n - 1].bit_range is Unset {
                    crate::field_set::lemma_unset_bits_nonneg(fields[n - 1]);
                }
            }
        }
    }
}

/// Adding more fields never makes the sum of extents smaller.
proof fn lemma_sum_extents_grows(fields: Seq<DataBuilder>, id: Option<BuiltDataView>, m: int, n: int)
    requires
        0 <= m <= n <= fields.len(),
    ensures
        sum_extents(fields, id, m) <= sum_extents(fields, id, n),
    decreases n - m,
{
    if m < n {
        lemma_sum_extents_grows(fields, id, m, n - 1);
        assert(field_extent(fields[n - 1], id) >= 0) by {
            if !fields[n - 1].is_captured_id {
                if fields[n - 1].bit_range is Unset {
                    lemma_unset_bits_nonneg(fields[n - 1]);
                }
            }
        }
    }
}

/// Tests `field_set_fits`.
pub fn field_set_fits_check(value: &FieldSetBuilder, id: Option<&BuiltData>) -> (r: bool)
    ensures
        r == field_set_fits(*value, opt_view(id)),
{
    let ghost idv = opt_view(id);
    if let Some(d) = id {
        if d.bit_range.bit_range.start > d.bit_range.bit_range.end {
            return false;
        }
    }
    let mut k: usize = 0;
    while k < value.fields.len()
        invariant
            k <= value.fields@.len(),
            idv == opt_view(id),
            idv matches Some(d) ==> d.bit_range.start <= d.bit_range.end,
            forall|j: int| 0 <= j < k ==> (#[trigger] value.fields@[j]).well_formed(),
            forall|j: int|
                0 <= j < k && (#[trigger] value.fields@[j]).is_captured_id ==> (value.fields@[j].overlap matches OverlapOptions::Allow(skip)
                    ==> skip <= id_length(idv)),
        decreases value.fields@.len() - k,
    {
        let f = &value.fields[k];
        if !f.well_formed_check() {
            return false;
        }
        if f.is_captured_id {
            if let OverlapOptions::Allow(skip) = f.overlap {
                let id_len: usize = match id {
                    Some(d) => d.bit_range.bit_range.end - d.bit_range.bit_range.start,
                    None => 0,
                };
                if skip > id_len {
                    return false;
                }
            }
        }
        k = k + 1;
    }
    proof {
        lemma_sum_extents_nonneg(value.fields@, idv, value.fields@.len() as int);
    }
    let extra: usize = match value.fill_bits {
        FillBits::NoFill => 7,
        FillBits::Bits(n) => {
            if n > usize::MAX - 7 {
                return false;
            }
            n + 7
        },
        FillBits::Auto => 14,
    };
    match extents_total(value, id) {
        Some(t) => t <= usize::MAX - extra,
        None => false,
    }
}

/// Tests `enum_variant_fits`.
pub fn enum_variant_fits_check(value: &FieldSetBuilder, id: Option<&BuiltData>) -> (r: bool)
    ensures
        r == enum_variant_fits(*value, opt_view(id)),
{
    if !field_set_fits_check(value, id) {
        return false;
    }
    proof {
        lemma_sum_extents_nonneg(value.fields@, opt_view(id), value.fields@.len() as int);
    }
    let extra: usize = match value.fill_bits {
        FillBits::NoFill => 142,
        FillBits::Bits(n) => {
            if n > (usize::MAX - 142) / 2 {
                return false;
            }
            2 * n + 142
        },
        FillBits::Auto => 156,
    };
    match extents_total(value, id) {
        Some(t) => t <= usize::MAX - extra,
        None => false,
    }
}

/// The view of an optional field.
pub open spec fn opt_view(d: Option<&BuiltData>) -> Option<BuiltDataView> {
    match d {
        Some(b) => Some(b@),
        None => None,
    }
}

proof fn lemma_product_nonneg(s: Seq<usize>)
    ensures
        crate::data::seq_product(s) >= 0,
    decreases s.len(),
{
    if s.len() > 0 {
        lemma_product_nonneg(s.drop_last());
        let p = crate::data::seq_product(s.drop_last());
        let l = s.last() as int;
        assert(p * l >= 0) by (nonlinear_arith)
            requires
                p >= 0,
                l >= 0,
        ;
    }
}

proof fn lemma_extent_nonneg(f: DataBuilder, id: Option<BuiltDataView>)
    ensures
        field_extent(f, id) >= 0,
        f.ty.spec_unset_bits() >= 0,
{
    lemma_product_nonneg(f.ty.spec_sizings());
    let p = crate::data::seq_product(f.ty.spec_sizings());
    let b = f.ty.data_type.spec_default_bit_size();
    assert(b * p >= 0) by (nonlinear_arith)
        requires
            p >= 0,
            b >= 0,
    ;
}

/// The bits a field takes when nothing is said about them are never negative.
pub proof fn lemma_unset_bits_nonneg(f: DataBuilder)
    ensures
        f.ty.spec_unset_bits() >= 0,
        f.spec_bit_length() >= 0 || f.bit_range is Range,
{
    lemma_extent_nonneg(f, None);
}

proof fn lemma_sum_extents_mono(fields: Seq<DataBuilder>, id: Option<BuiltDataView>, i: int, n: int)
    requires
        0 <= i <= n <= fields.len(),
    ensures
        0 <= sum_extents(fields, id, i) <= sum_extents(fields, id, n),
    decreases n,
{
    if n > 0 {
        lemma_extent_nonneg(fields[n - 1], id);
        if i < n {
            lemma_sum_extents_mono(fields, id, i, n - 1);
        } else {
            lemma_sum_extents_mono(fields, id, i - 1, n - 1);
        }
    }
}

/// Every start, end and running total while placing fields stays below the bound of
/// `field_set_fits`.
pub proof fn lemma_place_bounds(value: FieldSetBuilder, id: Option<BuiltDataView>, i: int)
    requires
        field_set_fits(value, id),
        0 <= i <= value.fields@.len(),
    ensures
        spec_start(spec_last_end(value.fields@, id, i)) <= id_end(id) + sum_extents(value.fields@, id, i),
        spec_placed_total(value.fields@, id, value.attrs.default_endianness, i) <= id_length(id)
            + sum_extents(value.fields@, id, i),
        id_length(id) <= id_end(id),
        0 <= spec_placed_total(value.fields@, id, value.attrs.default_endianness, i),
        i < value.fields@.len() ==> ({
            let b = spec_built(value.fields@, id, value.attrs.default_endianness, i);
            &&& b.bit_range.start <= b.bit_range.end
            &&& b.bit_range.end <= id_end(id) + sum_extents(value.fields@, id, i + 1)
            &&& b.bit_range.end - b.bit_range.start <= field_extent(value.fields@[i], id)
        }),
    decreases i,
{
    let fields = value.fields@;
    let e = value.attrs.default_endianness;
    let n = fields.len() as int;
    lemma_sum_extents_mono(fields, id, i, n);
    if i > 0 {
        lemma_place_bounds(value, id, i - 1);
        lemma_sum_extents_mono(fields, id, i - 1, i);
    }
    if i < n {
        let f = fields[i];
        assert(f.well_formed());
        lemma_extent_nonneg(f, id);
        lemma_sum_extents_mono(fields, id, i + 1, n);
        if i > 0 {
            lemma_sum_extents_mono(fields, id, i, i + 1);
        }
    }
}

/// Once placing fails, it fails with the same error for every longer prefix.
proof fn lemma_place_error_sticks(fields: Seq<DataBuilder>, id: Option<BuiltDataView>, e: Endianness, i: int, n: int)
    requires
        0 <= i <= n,
        spec_place_error(fields, id, e, i) is Some,
    ensures
        spec_place_error(fields, id, e, n) == spec_place_error(fields, id, e, i),
    decreases n - i,
{
    if i < n {
        lemma_place_error_sticks(fields, id, e, i, n - 1);
    }
}

/// Once resolving fails, it fails with the same error for every longer prefix.
proof fn lemma_resolve_error_sticks(built: Seq<BuiltDataView>, id: Option<BuiltDataView>, flip_bits: usize, i: int, n: int)
    requires
        0 <= i <= n,
        spec_resolve(built, id, flip_bits, i) is Err,
    ensures
        spec_resolve(built, id, flip_bits, n) == spec_resolve(built, id, flip_bits, i),
    decreases n - i,
{
    if i < n {
        lemma_resolve_error_sticks(built, id, flip_bits, i, n - 1);
    }
}

/// A resolved field keeps the length of its placed range, ends no later than the end of
/// that range or the structure, and can be measured.
proof fn lemma_from_built_props(b: BuiltDataView, struct_bit_size: usize)
    requires
        b.bit_range.start <= b.bit_range.end,
        b.overlap matches OverlapOptions::Allow(skip) ==> skip <= b.bit_range.end - b.bit_range.start,
        spec_from_built(b, struct_bit_size) is Ok,
    ensures
        ({
            let v = spec_from_built(b, struct_bit_size)->Ok_0;
            &&& v.well_formed()
            &&& v.bit_length() == b.bit_range.end - b.bit_range.start
            &&& v.bit_range.end <= b.bit_range.end || v.bit_range.end <= struct_bit_size
        }),
{
}

/// Resolving the first `n` placed fields gives one resolved field per placed field, each
/// measurable, ending no later than its placed range or the structure, and together as long
/// as the placed fields.
pub proof fn lemma_resolve_props(value: FieldSetBuilder, id: Option<BuiltDataView>, flip_bits: usize, n: int)
    requires
        field_set_fits(value, id),
        0 <= n <= value.fields@.len(),
        spec_resolve(spec_built_seq(value.fields@, id, value.attrs.default_endianness), id, flip_bits, n) is Ok,
    ensures
        ({
            let s = spec_resolve(spec_built_seq(value.fields@, id, value.attrs.default_endianness), id, flip_bits, n)->Ok_0;
            &&& s.len() == n
            &&& all_well_formed(s)
            &&& sum_bit_lengths(s) == spec_placed_total(value.fields@, id, value.attrs.default_endianness, n) - id_length(id)
            &&& forall|m: int| 0 <= m < n ==> (#[trigger] s[m]).bit_range.end <= id_end(id) + sum_extents(value.fields@, id, value.fields@.len() as int) || s[m].bit_range.end <= flip_bits
            &&& forall|m: int| 0 <= m < n ==> spec_from_built(
                spec_built(value.fields@, id, value.attrs.default_endianness, m),
                flip_bits,
            ) == Ok::<ResolverView, SolvingError>(#[trigger] s[m])
        }),
    decreases n,
{
    let fields = value.fields@;
    let e = value.attrs.default_endianness;
    let built = spec_built_seq(fields, id, e);
    if n > 0 {
        lemma_resolve_props(value, id, flip_bits, n - 1);
        let prev = spec_resolve(built, id, flip_bits, n - 1)->Ok_0;
        lemma_place_bounds(value, id, n - 1);
        lemma_sum_extents_mono(fields, id, n, fields.len() as int);
        let b = built[n - 1];
        assert(b == spec_built(fields, id, e, n - 1));
        assert(fields[n - 1].well_formed());
        lemma_from_built_props(b, flip_bits);
        let s = spec_resolve(built, id, flip_bits, n)->Ok_0;
        assert(s == prev.push(spec_from_built(b, flip_bits)->Ok_0));
        assert(s.drop_last() =~= prev);
        assert forall|m: int| 0 <= m < s.len() implies (#[trigger] s[m]).well_formed() by {
            if m < n - 1 {
                assert(s[m] == prev[m]);
            }
        }
        assert forall|m: int| 0 <= m < n implies (#[trigger] s[m]).bit_range.end <= id_end(id) + sum_extents(fields, id, fields.len() as int) || s[m].bit_range.end <= flip_bits by {
            if m < n - 1 {
                assert(s[m] == prev[m]);
            }
        }
        assert forall|m: int| 0 <= m < n implies spec_from_built(spec_built(fields, id, e, m), flip_bits) == Ok::<ResolverView, SolvingError>(#[trigger] s[m]) by {
            if m < n - 1 {
                assert(s[m] == prev[m]);
            }
        }
    }
}

impl SolvedFieldSet {
    /// Adds the reserve field that `fill` calls for after the last field. Automatic filling
    /// is refused when the field set follows an enum id field.
    pub fn maybe_add_fill_field(
        fill: &FillBits,
        out: &mut SolvedFieldSet,
        has_id_field: bool,
        id_bit_size: Option<usize>,
        total_bits: usize,
    ) -> (r: Result<(), SolvingError>)
        requires
            all_well_formed(old(out).spec_fields()),
            sum_bit_lengths(old(out).spec_fields()) <= usize::MAX,
            (if old(out).spec_fields().len() > 0 {
                old(out).spec_fields().last().bit_range.end as int
            } else {
                0
            }) + fill.spec_extent() <= usize::MAX,
        ensures
            final(out).attrs == old(out).attrs,
            match spec_with_fill(*fill, old(out).spec_fields(), has_id_field, total_bits) {
                Ok(s) => r is Ok && final(out).spec_fields() == s,
                Err(e) => r == Err::<(), SolvingError>(e),
            },
    {
        let ghost old_fields = out.spec_fields();
        let bit_size = out.total_bits();
        let auto_fill: Option<usize> = match fill {
            FillBits::NoFill => None,
            FillBits::Bits(bits) => Some(*bits),
            FillBits::Auto => {
                if has_id_field {
                    return Err(SolvingError::Unfinished(UnfinishedFeature::AutoFillInEnum));
                }
                let unused_bits: usize = bit_size % 8;
                if unused_bits == 0 {
                    None
                } else {
                    Some(8 - unused_bits)
                }
            },
        };
        if let Some(fill_bits) = auto_fill {
            let first_bit: usize = if out.fields.len() > 0 {
                out.fields[out.fields.len() - 1].bit_range().end
            } else {
                0
            };
            let end_bit: usize = first_bit + fill_bits;
            let fill_bytes_size: usize = div_ceil8(end_bit - first_bit);
            proof {
                if old_fields.len() > 0 {
                    assert(old_fields.last() == out.fields@[out.fields@.len() - 1]@);
                }
            }
            let sizes = vec![fill_bytes_size];
            assert(sizes@ =~= seq![fill_bytes_size]);
            let fill_field = BuiltData {
                id: FieldKey::FillBits,
                ty: DataType::Number(NumberType::Unsigned, RustByteSize::One),
                bit_range: BuiltRange {
                    bit_range: Range { start: first_bit, end: end_bit },
                    ty: BuiltRangeType::BlockArray(sizes),
                },
                endianness: Endianness::default(),
                reserve: ReserveFieldOption::FakeField,
                overlap: OverlapOptions::NoOverlap,
                is_captured_id: false,
            };
            assert(fill_field@ == spec_fill_built(old_fields, fill_bits as int));
            match SolvedData::from_built(fill_field, total_bits) {
                Ok(solved) => {
                    out.fields.push(solved);
                    assert(out.spec_fields() =~= old_fields.push(solved@));
                },
                Err(e) => {
                    return Err(e);
                },
            }
        }
        Ok(())
    }

    /// Solves a field set: places every field (after the id field `id_field`, for an enum
    /// variant), refuses fields that conflict, mirrors and resolves them for the structure's
    /// orders, checks the size rules and adds the fill field.
    pub fn try_from_field_set(
        value: &FieldSetBuilder,
        attrs: &SolvedFieldSetAttributes,
        id_field: Option<&BuiltData>,
    ) -> (r: Result<SolvedFieldSet, SolvingError>)
        requires
            field_set_fits(*value, opt_view(id_field)),
        ensures
            match spec_solve_field_set(*value, opt_view(id_field)) {
                Ok(s) => r matches Ok(out) && out.spec_fields() == s && out.attrs == *attrs,
                Err(e) => r matches Err(x) && x == e,
            },
    {
        let ghost id = opt_view(id_field);
        let ghost fields = value.fields@;
        let ghost e = value.attrs.default_endianness;
        let n = value.fields.len();
        let mut pre_fields: Vec<BuiltData> = Vec::new();
        proof {
            lemma_place_bounds(*value, id, 0);
        }
        let mut last_end_bit_index: Option<usize> = match id_field {
            Some(f) => Some(f.bit_range.bit_length()),
            None => None,
        };
        let mut total_bit_size: usize = match id_field {
            Some(f) => f.bit_range.bit_length(),
            None => 0,
        };
        let mut i: usize = 0;
        while i < n
            invariant
                field_set_fits(*value, id),
                id == opt_view(id_field),
                fields == value.fields@,
                e == value.attrs.default_endianness,
                n == fields.len(),
                i <= n,
                pre_fields@.len() == i,
                forall|k: int| 0 <= k < i ==> (#[trigger] pre_fields@[k])@ == spec_built(fields, id, e, k),
                last_end_bit_index == spec_last_end(fields, id, i as int),
                total_bit_size == spec_placed_total(fields, id, e, i as int),
                spec_place_error(fields, id, e, i as int) is None,
            decreases n - i,
        {
            proof {
                lemma_place_bounds(*value, id, i as int);
                lemma_place_bounds(*value, id, i + 1);
                lemma_sum_extents_mono(fields, id, i + 1, n as int);
            }
            let value_field = &value.fields[i];
            assert(value_field.well_formed());
            let bit_range = if value_field.is_captured_id {
                if let Some(idf) = id_field {
                    idf.bit_range.clone()
                } else {
                    proof {
                        lemma_place_error_sticks(fields, id, e, i + 1, n as int);
                    }
                    return Err(SolvingError::Unfinished(UnfinishedFeature::CaptureIdOutsideEnum));
                }
            } else {
                BuiltRange::from_builder(&value_field.bit_range, &value_field.ty, last_end_bit_index)
            };
            // update internal last_end_bit_index to allow automatic bit-range feature to work.
            if !value_field.overlap.is_redundant() {
                last_end_bit_index = Some(bit_range.end());
            }
            let field = BuiltData {
                endianness: value.attrs.default_endianness,
                ty: value_field.ty.data_type,
                bit_range,
                id: value_field.id,
                reserve: value_field.reserve,
                overlap: value_field.overlap,
                is_captured_id: value_field.is_captured_id,
            };
            assert(field@ == spec_built(fields, id, e, i as int));
            let mut j: usize = 0;
            while j < pre_fields.len()
                invariant
                    j <= pre_fields@.len(),
                    pre_fields@.len() == i,
                    field@ == spec_built(fields, id, e, i as int),
                    forall|k: int| 0 <= k < i ==> (#[trigger] pre_fields@[k])@ == spec_built(fields, id, e, k),
                    forall|m: int| 0 <= m < j ==> !spec_conflict(field@, #[trigger] spec_built(fields, id, e, m)),
                    i < n,
                    n == fields.len(),
                    fields == value.fields@,
                    e == value.attrs.default_endianness,
                    id == opt_view(id_field),
                    spec_place_error(fields, id, e, i as int) is None,
                    !(value_field.is_captured_id && id is None),
                    value_field == fields[i as int],
                decreases pre_fields.len() - j,
            {
                if field.conflict(&pre_fields[j]) {
                    proof {
                        assert(spec_conflict(spec_built(fields, id, e, i as int), spec_built(fields, id, e, j as int)));
                        assert(spec_place_error(fields, id, e, i + 1) == Some(SolvingError::Overlap));
                        lemma_place_error_sticks(fields, id, e, i + 1, n as int);
                    }
                    return Err(SolvingError::Overlap);
                }
                j = j + 1;
            }
            assert(!(exists|m: int| 0 <= m < i && #[trigger] spec_conflict(spec_built(fields, id, e, i as int), spec_built(fields, id, e, m))));
            total_bit_size = total_bit_size + field.bit_range.bit_length();
            pre_fields.push(field);
            i = i + 1;
        }
        proof {
            lemma_place_bounds(*value, id, n as int);
        }
        let flip_bits: usize = div_ceil8(total_bit_size) * 8;
        let ghost built = spec_built_seq(fields, id, e);
        let mut solved_fields: Vec<SolvedData> = Vec::new();
        let mut k: usize = 0;
        assert(views_of(solved_fields@) =~= Seq::<ResolverView>::empty());
        while k < n
            invariant
                spec_place_error(fields, id, e, n as int) is None,
                flip_bits == (ceil8(spec_placed_total(fields, id, e, n as int)) * 8) as usize,
                field_set_fits(*value, id),
                id == opt_view(id_field),
                fields == value.fields@,
                e == value.attrs.default_endianness,
                built == spec_built_seq(fields, id, e),
                n == fields.len(),
                pre_fields@.len() == n,
                forall|m: int| 0 <= m < n ==> (#[trigger] pre_fields@[m])@ == spec_built(fields, id, e, m),
                k <= n,
                spec_resolve(built, id, flip_bits, k as int) == Ok::<Seq<ResolverView>, SolvingError>(views_of(solved_fields@)),
            decreases n - k,
        {
            proof {
                lemma_place_bounds(*value, id, k as int);
            }
            assert(built[k as int] == pre_fields@[k as int]@);
            if let Some(f) = id_field {
                if f.conflict(&pre_fields[k]) {
                    proof {
                        assert(id == Some(f@));
                        assert(spec_conflict(f@, built[k as int]));
                        assert(spec_resolve(built, id, flip_bits, k + 1) == Err::<Seq<ResolverView>, SolvingError>(SolvingError::Overlap));
                        lemma_resolve_error_sticks(built, id, flip_bits, k + 1, n as int);
                    }
                    return Err(SolvingError::Overlap);
                }
            }
            let pre = pre_fields[k].clone();
            match SolvedData::from_built(pre, flip_bits) {
                Ok(solved) => {
                    let ghost prev = solved_fields@;
                    solved_fields.push(solved);
                    assert(views_of(solved_fields@) =~= views_of(prev).push(solved@));
                },
                Err(err) => {
                    proof {
                        lemma_resolve_error_sticks(built, id, flip_bits, k + 1, n as int);
                    }
                    return Err(err);
                },
            }
            k = k + 1;
        }
        let mut out = SolvedFieldSet { fields: solved_fields, attrs: *attrs };
        proof {
            lemma_place_bounds(*value, id, n as int);
            lemma_resolve_props(*value, id, flip_bits, n as int);
        }
        let bit_size = out.total_bits();
        match value.attrs.enforcement {
            StructEnforcement::NoRules => {},
            StructEnforcement::EnforceFullBytes => {
                if bit_size % 8 != 0 {
                    return Err(SolvingError::EnforceFullBytes);
                }
            },
            StructEnforcement::EnforceBitAmount(expected_total_bits) => {
                if bit_size != expected_total_bits {
                    return Err(SolvingError::EnforceBitCount { actual: bit_size, user: expected_total_bits });
                }
            },
        }
        // add reserve for fill bytes. this happens after bit enforcement because bit_enforcement is for checking user code.
        proof {
            let s = out.spec_fields();
            if s.len() > 0 {
                assert(s[s.len() - 1].bit_range.end == s.last().bit_range.end);
            }
        }
        match Self::maybe_add_fill_field(&value.fill_bits, &mut out, id_field.is_some(), None, flip_bits) {
            Ok(()) => Ok(out),
            Err(err) => Err(err),
        }
    }
}


proof fn lemma_no_place_error_prefix(fields: Seq<DataBuilder>, id: Option<BuiltDataView>, e: Endianness, i: int, n: int)
    requires
        0 <= i <= n,
        spec_place_error(fields, id, e, n) is None,
    ensures
        spec_place_error(fields, id, e, i) is None,
    decreases n - i,
{
    if i < n {
        lemma_no_place_error_prefix(fields, id, e, i, n - 1);
    }
}

/// In a field set that solves, no field conflicts with a field declared before it: their
/// bits are disjoint unless one of them allows overlapping or is a fake field.
pub proof fn law_solved_fields_do_not_conflict(value: FieldSetBuilder, id: Option<BuiltDataView>, i: int, j: int)
    requires
        spec_solve_field_set(value, id) is Ok,
        0 <= j < i < value.fields@.len(),
    ensures
        !spec_conflict(
            spec_built(value.fields@, id, value.attrs.default_endianness, i),
            spec_built(value.fields@, id, value.attrs.default_endianness, j),
        ),
{
    let fields = value.fields@;
    let e = value.attrs.default_endianness;
    lemma_no_place_error_prefix(fields, id, e, i + 1, fields.len() as int);
    lemma_no_place_error_prefix(fields, id, e, i, i + 1);
}

/// A field given only a length, or nothing, starts where the field before it ended, unless
/// that field is redundant (then it starts where that one started from).
pub proof fn law_fields_follow_each_other(value: FieldSetBuilder, id: Option<BuiltDataView>, k: int)
    requires
        0 < k < value.fields@.len(),
        !value.fields@[k].is_captured_id,
        !(value.fields@[k].bit_range is Range),
    ensures
        ({
            let fields = value.fields@;
            let e = value.attrs.default_endianness;
            &&& !(fields[k - 1].overlap is Redundant) ==> spec_built(fields, id, e, k).bit_range.start
                == spec_built(fields, id, e, k - 1).bit_range.end
            &&& fields[k - 1].overlap is Redundant ==> spec_built(fields, id, e, k).bit_range.start
                == spec_start(spec_last_end(fields, id, k - 1))
        }),
{
}

/// The first field given only a length, or nothing, starts right after the id field (at bit
/// zero in a structure).
pub proof fn law_first_field_starts_after_id(value: FieldSetBuilder, id: Option<BuiltDataView>)
    requires
        0 < value.fields@.len(),
        !value.fields@[0].is_captured_id,
        !(value.fields@[0].bit_range is Range),
        id matches Some(d) ==> d.bit_range.start <= d.bit_range.end,
    ensures
        spec_built(value.fields@, id, value.attrs.default_endianness, 0).bit_range.start == id_length(id),
{
}

/// Mirrors `r` inside a structure of `total` bits.
pub open spec fn mirror_range(r: Range<usize>, total: usize) -> Range<usize> {
    Range { start: (total - r.end) as usize, end: (total - r.start) as usize }
}

/// Laying fields out from the last bit index mirrors each range: mirroring twice gives the
/// range back, keeps its length, and keeps two ranges apart exactly when they were apart.
pub proof fn law_mirror_is_involution(a: Range<usize>, b: Range<usize>, total: usize)
    requires
        a.start < a.end <= total,
        b.start < b.end <= total,
    ensures
        mirror_range(mirror_range(a, total), total) == a,
        mirror_range(a, total).end - mirror_range(a, total).start == a.end - a.start,
        crate::field::ranges_conflict(mirror_range(a, total), mirror_range(b, total))
            == crate::field::ranges_conflict(a, b),
{
    crate::field::law_conflict_is_shared_bit(a, b);
    crate::field::law_conflict_is_shared_bit(mirror_range(a, total), mirror_range(b, total));
    let ma = mirror_range(a, total);
    let mb = mirror_range(b, total);
    if crate::field::ranges_conflict(a, b) {
        let i = choose|i: int| crate::field::in_range(a, i) && crate::field::in_range(b, i);
        assert(crate::field::in_range(ma, total - 1 - i) && crate::field::in_range(mb, total - 1 - i));
    }
    if crate::field::ranges_conflict(ma, mb) {
        let i = choose|i: int| crate::field::in_range(ma, i) && crate::field::in_range(mb, i);
        assert(crate::field::in_range(a, total - 1 - i) && crate::field::in_range(b, total - 1 - i));
    }
}

/// A resolved field is the placed field mirrored when the structure lays fields out from the
/// last bit index.
pub proof fn law_resolved_range_is_mirrored(b: BuiltDataView, total: usize)
    requires
        spec_from_built(b, total) is Ok,
    ensures
        b.endianness.field_order_reversed() && total != 0 ==> spec_from_built(b, total)->Ok_0.bit_range
            == mirror_range(b.bit_range, total),
        !(b.endianness.field_order_reversed() && total != 0) ==> spec_from_built(b, total)->Ok_0.bit_range
            == b.bit_range,
{
}

/// With automatic fill bits, a structure that solves uses a whole number of bytes.
pub proof fn law_auto_fill_makes_whole_bytes(value: FieldSetBuilder)
    requires
        field_set_fits(value, None),
        value.fill_bits is Auto,
        spec_solve_field_set(value, None) is Ok,
    ensures
        sum_bit_lengths(spec_solve_field_set(value, None)->Ok_0) % 8 == 0,
{
    let fields = value.fields@;
    let e = value.attrs.default_endianness;
    let n = fields.len() as int;
    let flip_bits = (ceil8(spec_placed_total(fields, None, e, n)) * 8) as usize;
    lemma_place_bounds(value, None, n);
    lemma_resolve_props(value, None, flip_bits, n);
    let solved = spec_resolve(spec_built_seq(fields, None, e), None, flip_bits, n)->Ok_0;
    let total = sum_bit_lengths(solved);
    if total % 8 != 0 {
        let amount = 8 - total % 8;
        let fb = spec_fill_built(solved, amount);
        if solved.len() > 0 {
            assert(solved[solved.len() - 1] == solved.last());
            assert(solved[solved.len() - 1].bit_range.end <= id_end(None) + sum_extents(fields, None, n) || solved[solved.len() - 1].bit_range.end <= flip_bits);
        }
        lemma_sum_extents_mono(fields, None, n, n);
        let pt = spec_placed_total(fields, None, e, n);
        assert(0 <= pt && pt + 7 <= usize::MAX);
        assert(ceil8(pt) * 8 <= pt + 7);
        assert(flip_bits as int <= pt + 7);
        let first = if solved.len() > 0 {
            solved.last().bit_range.end as int
        } else {
            0
        };
        assert(first <= sum_extents(fields, None, n) + 7);
        assert(first + amount <= usize::MAX);
        assert(fb.bit_range.end - fb.bit_range.start == amount);
        lemma_from_built_props(fb, flip_bits);
        let f = spec_from_built(fb, flip_bits)->Ok_0;
        let out = solved.push(f);
        assert(out.drop_last() =~= solved);
        assert(sum_bit_lengths(out) == total + amount);
    }
}

/// A structure that solves under `enforce_bits` or `enforce_bytes` uses exactly the bits
/// asked for (fill bits come after the check), and under `enforce_full_bytes` a whole number
/// of bytes.
pub proof fn law_enforcement_holds(value: FieldSetBuilder, id: Option<BuiltDataView>)
    requires
        field_set_fits(value, id),
        spec_solve_field_set(value, id) is Ok,
    ensures
        ({
            let fields = value.fields@;
            let e = value.attrs.default_endianness;
            let n = fields.len() as int;
            let total = spec_placed_total(fields, id, e, n) - id_length(id);
            &&& value.attrs.enforcement matches StructEnforcement::EnforceBitAmount(bits) ==> total == bits
            &&& value.attrs.enforcement is EnforceFullBytes ==> total % 8 == 0
        }),
{
    let fields = value.fields@;
    let e = value.attrs.default_endianness;
    let n = fields.len() as int;
    let flip_bits = (ceil8(spec_placed_total(fields, id, e, n)) * 8) as usize;
    lemma_place_bounds(value, id, n);
    lemma_resolve_props(value, id, flip_bits, n);
}


/// The bits of a field set that count toward its size are never more than its bits.
pub proof fn lemma_no_fill_le_lengths(s: Seq<ResolverView>)
    requires
        all_well_formed(s),
    ensures
        0 <= sum_bit_size_no_fill(s) <= sum_bit_lengths(s),
    decreases s.len(),
{
    if s.len() > 0 {
        assert(s.drop_last().len() < s.len());
        assert(all_well_formed(s.drop_last())) by {
            assert forall|i: int| 0 <= i < s.drop_last().len() implies (#[trigger] s.drop_last()[i]).well_formed() by {
                assert(s.drop_last()[i] == s[i]);
            }
        }
        lemma_no_fill_le_lengths(s.drop_last());
        assert(s[s.len() - 1].well_formed());
    }
}

/// Adding a fill field keeps the fields measurable and adds at most the fill's extent to the
/// total and to the ends; it cannot fail unless automatic filling is asked for.
pub proof fn lemma_with_fill_bounds(fill: FillBits, s: Seq<ResolverView>, has_id_field: bool, total_bits: usize, x: int, end: int)
    requires
        all_well_formed(s),
        sum_bit_lengths(s) <= x,
        forall|m: int| 0 <= m < s.len() ==> (#[trigger] s[m]).bit_range.end <= end,
        0 <= end,
        end + fill.spec_extent() <= usize::MAX,
    ensures
        !(fill is Auto) ==> spec_with_fill(fill, s, has_id_field, total_bits) is Ok,
        spec_with_fill(fill, s, has_id_field, total_bits) matches Ok(r) ==> {
            &&& all_well_formed(r)
            &&& sum_bit_lengths(r) <= x + fill.spec_extent()
            &&& forall|m: int| 0 <= m < r.len() ==> (#[trigger] r[m]).bit_range.end <= end + fill.spec_extent()
            &&& 0 <= sum_bit_size_no_fill(r) <= sum_bit_lengths(r)
        },
{
    lemma_no_fill_le_lengths(s);
    lemma_no_fill_le_lengths(s);
    if let Ok(Some(amount)) = spec_fill_amount(fill, s, has_id_field) {
        lemma_no_fill_le_lengths(s);
        assert(0 <= amount <= fill.spec_extent());
        let fb = spec_fill_built(s, amount);
        if s.len() > 0 {
            assert(s[s.len() - 1] == s.last());
        }
        assert(fb.bit_range.end - fb.bit_range.start == amount);
        lemma_from_built_props(fb, total_bits);
        let f = spec_from_built(fb, total_bits)->Ok_0;
        let r = s.push(f);
        assert(r.drop_last() =~= s);
        assert forall|m: int| 0 <= m < r.len() implies (#[trigger] r[m]).well_formed() by {
            if m < s.len() {
                assert(r[m] == s[m]);
            }
        }
        assert forall|m: int| 0 <= m < r.len() implies (#[trigger] r[m]).bit_range.end <= end + fill.spec_extent() by {
            if m < s.len() {
                assert(r[m] == s[m]);
            }
        }
        lemma_no_fill_le_lengths(r);
    }
}

/// What a solved field set looks like: measurable fields, and a total and ends bounded by the
/// bound of `field_set_fits`.
pub proof fn lemma_solved_bounds(value: FieldSetBuilder, id: Option<BuiltDataView>)
    requires
        field_set_fits(value, id),
        spec_solve_field_set(value, id) is Ok,
    ensures
        ({
            let r = spec_solve_field_set(value, id)->Ok_0;
            let x = id_end(id) + sum_extents(value.fields@, id, value.fields@.len() as int) + value.fill_bits.spec_extent() + 7;
            &&& all_well_formed(r)
            &&& sum_bit_lengths(r) <= x
            &&& forall|m: int| 0 <= m < r.len() ==> (#[trigger] r[m]).bit_range.end <= x
            &&& 0 <= sum_bit_size_no_fill(r) <= sum_bit_lengths(r)
        }),
{
    let fields = value.fields@;
    let e = value.attrs.default_endianness;
    let n = fields.len() as int;
    let flip_bits = (ceil8(spec_placed_total(fields, id, e, n)) * 8) as usize;
    lemma_place_bounds(value, id, n);
    lemma_resolve_props(value, id, flip_bits, n);
    lemma_sum_extents_mono(fields, id, n, n);
    let solved = spec_resolve(spec_built_seq(fields, id, e), id, flip_bits, n)->Ok_0;
    let pt = spec_placed_total(fields, id, e, n);
    assert(0 <= pt && pt + 7 <= usize::MAX);
    assert(ceil8(pt) * 8 <= pt + 7);
    let end = id_end(id) + sum_extents(fields, id, n) + 7;
    assert forall|m: int| 0 <= m < solved.len() implies (#[trigger] solved[m]).bit_range.end <= end by {
        assert(solved[m].bit_range.end <= id_end(id) + sum_extents(fields, id, n) || solved[m].bit_range.end <= flip_bits);
    }
    lemma_with_fill_bounds(value.fill_bits, solved, id is Some, flip_bits, sum_bit_lengths(solved), end);
}

/// Two placed fields clash only when neither lets the other share its bits: a field that
/// allows overlapping or is redundant never clashes with another, whichever of the two comes
/// first, and a fake field never clashes with the fields before it; two fields that allow no
/// overlap and share a bit always clash.
pub proof fn law_overlap_allowed_never_conflicts(a: BuiltDataView, b: BuiltDataView, bit: int)
    ensures
        !(a.overlap is NoOverlap) ==> !spec_conflict(a, b),
        !(b.overlap is NoOverlap) ==> !spec_conflict(a, b),
        a.reserve.spec_is_fake_field() ==> !spec_conflict(a, b),
        a.overlap is NoOverlap && b.overlap is NoOverlap && !a.reserve.spec_is_fake_field() && in_range(a.bit_range, bit)
            && in_range(b.bit_range, bit) ==> spec_conflict(a, b),
{
    if in_range(a.bit_range, bit) && in_range(b.bit_range, bit) {
        law_conflict_is_shared_bit(a.bit_range, b.bit_range);
    }
}

/// A field set is placed without error when no field captures an id outside an enum and
/// every two fields whose bits meet have one that allows overlapping or is redundant, or the
/// later one is a fake field: fields marked redundant above the fields that share their bits
/// are accepted, as the fields that follow them are.
pub proof fn law_overlapping_fields_are_placed(fields: Seq<DataBuilder>, id: Option<BuiltDataView>, e: Endianness, n: int)
    requires
        0 <= n <= fields.len(),
        forall|k: int| 0 <= k < n ==> !((#[trigger] fields[k]).is_captured_id && id is None),
        forall|i: int, j: int|
            0 <= j < i < n && ranges_conflict(
                #[trigger] spec_built(fields, id, e, i).bit_range,
                #[trigger] spec_built(fields, id, e, j).bit_range,
            ) ==> fields[i].reserve.spec_is_fake_field() || !(fields[i].overlap is NoOverlap) || !(fields[j].overlap is NoOverlap),
    ensures
        spec_place_error(fields, id, e, n) is None,
    decreases n,
{
    if n > 0 {
        law_overlapping_fields_are_placed(fields, id, e, n - 1);
        let k = n - 1;
        assert(!(fields[k].is_captured_id && id is None));
        assert forall|j: int| 0 <= j < k implies !#[trigger] spec_conflict(spec_built(fields, id, e, k), spec_built(fields, id, e, j)) by {
            if ranges_conflict(spec_built(fields, id, e, k).bit_range, spec_built(fields, id, e, j).bit_range) {
                assert(fields[k].reserve.spec_is_fake_field() || !(fields[k].overlap is NoOverlap) || !(fields[j].overlap is NoOverlap));
            }
        }
    }
}

} // verus!
