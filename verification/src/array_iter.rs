use crate::data::{element_key, seq_product, spec_element_key, FieldKey};
use crate::field::{OverlapOptions, ReserveFieldOption};
use crate::resolver::{
    resolver_type_from_sub, sub_rust_size, Resolver, ResolverArrayType, ResolverData,
    ResolverSubType, ResolverType, ResolverTypeView, ResolverView,
};
use std::ops::Range;
use vstd::prelude::*;

verus! {

impl Clone for ResolverType {
    fn clone(&self) -> (r: Self)
        ensures
            r@ == self@,
    {
        match self {
            ResolverType::Primitive { number_ty, resolver_strategy, rust_size } => ResolverType::Primitive {
                number_ty: *number_ty,
                resolver_strategy: *resolver_strategy,
                rust_size: *rust_size,
            },
            ResolverType::Nested { rust_size } => ResolverType::Nested { rust_size: *rust_size },
            ResolverType::Array { sub_ty, array_ty, sizings } => ResolverType::Array {
                sub_ty: *sub_ty,
                array_ty: *array_ty,
                sizings: sizings.clone(),
            },
        }
    }
}

/// The size in bytes of a value of the type: an element's size times every dimension.
pub open spec fn spec_rust_size(t: ResolverTypeView) -> int {
    match t {
        ResolverTypeView::Single(s) => sub_rust_size(s),
        ResolverTypeView::Array { sub_ty, sizings, .. } => sub_rust_size(sub_ty) * seq_product(sizings),
    }
}

/// The size of an array of `sub` can be worked out dimension by dimension inside `usize`.
pub open spec fn array_size_fits(sub: ResolverSubType, sizings: Seq<usize>) -> bool {
    forall|k: int| 0 <= k <= sizings.len() ==> sub_rust_size(sub) * seq_product(#[trigger] sizings.take(k)) <= usize::MAX
}

/// The size of the type can be worked out dimension by dimension inside `usize`.
pub open spec fn rust_size_fits(t: ResolverTypeView) -> bool {
    match t {
        ResolverTypeView::Single(s) => true,
        ResolverTypeView::Array { sub_ty, sizings, .. } => array_size_fits(sub_ty, sizings),
    }
}

impl ResolverType {
    /// The size in bytes of a value of the type.
    pub fn rust_size(&self) -> (r: usize)
        requires
            rust_size_fits(self@),
        ensures
            r == spec_rust_size(self@),
    {
        match self {
            ResolverType::Primitive { rust_size, .. } => rust_size.bytes(),
            ResolverType::Nested { rust_size } => *rust_size,
            ResolverType::Array { sub_ty, sizings, .. } => {
                let mut size: usize = match sub_ty {
                    ResolverSubType::Primitive { rust_size, .. } => rust_size.bytes(),
                    ResolverSubType::Nested { rust_size } => *rust_size,
                };
                let ghost base = sub_rust_size(*sub_ty);
                assert(self@ == ResolverTypeView::Array { sub_ty: *sub_ty, array_ty: self@->array_ty, sizings: sizings@ });
                assert(array_size_fits(*sub_ty, sizings@));
                let mut i: usize = 0;
                assert(sizings@.take(0) =~= Seq::<usize>::empty());
                while i < sizings.len()
                    invariant
                        i <= sizings@.len(),
                        base == sub_rust_size(*sub_ty),
                        size == base * seq_product(sizings@.take(i as int)),
                        array_size_fits(*sub_ty, sizings@),
                    decreases sizings@.len() - i,
                {
                    assert(sizings@.take(i + 1).drop_last() =~= sizings@.take(i as int));
                    assert(sizings@.take(i + 1).last() == sizings@[i as int]);
                    assert(base * seq_product(sizings@.take(i + 1)) == base * seq_product(sizings@.take(i as int)) * sizings@[i as int]) by (nonlinear_arith)
                        requires
                            seq_product(sizings@.take(i + 1)) == seq_product(sizings@.take(i as int)) * sizings@[i as int],
                    ;
                    assert(sub_rust_size(*sub_ty) * seq_product(sizings@.take(i + 1)) <= usize::MAX);
                    size = size * sizings[i];
                    i = i + 1;
                }
                assert(sizings@.take(i as int) =~= sizings@);
                size
            },
        }
    }
}

/// The type of one element of an array whose dimensions are `sizings`: the sub type, or an
/// array of the remaining dimensions.
pub open spec fn element_type(sub_ty: ResolverSubType, array_ty: ResolverArrayType, sizings: Seq<usize>) -> ResolverTypeView {
    if sizings.len() <= 1 {
        ResolverTypeView::Single(sub_ty)
    } else {
        ResolverTypeView::Array { sub_ty, array_ty, sizings: sizings.drop_last() }
    }
}

/// A resolved element occupying `start..end`.
pub open spec fn element_view(name: FieldKey, ty: ResolverTypeView, start: int, end: int, flip: Option<usize>) -> ResolverView {
    ResolverView {
        bit_range: Range { start: start as usize, end: end as usize },
        flip: if flip is Some {
            Some((end - start) as usize)
        } else {
            None
        },
        zeros_on_left: (start % 8) as usize,
        available_bits_in_first_byte: (8 - start % 8) as usize,
        starting_inject_byte: (start / 8) as usize,
        field_name: name,
        ty,
        reserve: ReserveFieldOption::NotReserve,
        is_captured_id: false,
        overlap: OverlapOptions::NoOverlap,
    }
}

fn element_resolver(name: FieldKey, ty: &ResolverType, start: usize, end: usize, flip: Option<usize>) -> (r: Resolver)
    requires
        start <= end,
    ensures
        r@ == element_view(name, ty@, start as int, end as int, flip),
{
    let zeros_on_left: usize = start % 8;
    Resolver {
        data: Box::new(
            ResolverData {
                flip: if flip.is_some() {
                    Some(end - start)
                } else {
                    None
                },
                starting_inject_byte: start / 8,
                bit_range: Range { start, end },
                zeros_on_left,
                available_bits_in_first_byte: 8 - zeros_on_left,
                field_name: name,
            },
        ),
        ty: Box::new(ty.clone()),
        reserve: ReserveFieldOption::NotReserve,
        is_captured_id: false,
        overlap: OverlapOptions::NoOverlap,
    }
}

/// Walks the elements of an element array, each `element_bit_size` bits after the previous.
pub struct ElementArrayIter {
    pub outer_ident: FieldKey,
    /// The indices of the elements still to be returned.
    pub element_range: Range<usize>,
    /// The starting bit index of the first element
    pub starting_bit_index: usize,
    /// type the array is holding.
    pub ty: ResolverType,
    /// The amount of bits an single element consumes.
    pub element_bit_size: usize,
    pub flip: Option<usize>,
}

impl ElementArrayIter {
    /// Where element `index` lies.
    pub open spec fn element_start(&self, index: int) -> int {
        self.starting_bit_index + index * self.element_bit_size
    }

    /// Every element's bits can be counted inside `usize`.
    pub open spec fn fits(&self) -> bool {
        &&& self.element_range.start <= self.element_range.end
        &&& self.starting_bit_index + self.element_range.end * self.element_bit_size <= usize::MAX
    }

    pub fn new(
        outer_ident: FieldKey,
        ty: ResolverType,
        starting_bit_index: usize,
        elements: usize,
        element_bit_size: usize,
        flip: Option<usize>,
    ) -> (r: Self)
        ensures
            r.outer_ident == outer_ident,
            r.element_range == (Range { start: 0usize, end: elements }),
            r.starting_bit_index == starting_bit_index,
            r.ty == ty,
            r.element_bit_size == element_bit_size,
            r.flip == flip,
    {
        Self { outer_ident, element_range: Range { start: 0, end: elements }, starting_bit_index, ty, element_bit_size, flip }
    }

    /// Splits an element array field into its outermost elements, each an equal share of the
    /// field's bits.
    pub fn from_values(
        resolver_data: &ResolverData,
        sub_ty: &ResolverSubType,
        array_ty: &ResolverArrayType,
        sizings: &Vec<usize>,
    ) -> (r: Option<Self>)
        requires
            sizings@.len() > 0,
            sizings@.last() > 0,
            resolver_data.bit_range.start <= resolver_data.bit_range.end,
        ensures
            r matches Some(it) && {
                &&& it.outer_ident == resolver_data.field_name
                &&& it.element_range == (Range { start: 0usize, end: sizings@.last() })
                &&& it.starting_bit_index == resolver_data.bit_range.start
                &&& it.ty@ == element_type(*sub_ty, *array_ty, sizings@)
                &&& it.element_bit_size == (resolver_data.bit_range.end - resolver_data.bit_range.start) / (sizings@.last() as int)
                &&& it.flip == resolver_data.flip
            },
    {
        let mut sizings = sizings.clone();
        let ghost all = sizings@;
        let elements = sizings.pop().unwrap();
        let ty: ResolverType = if sizings.len() == 0 {
            resolver_type_from_sub(*sub_ty)
        } else {
            assert(sizings@ =~= all.drop_last());
            ResolverType::Array { sub_ty: *sub_ty, array_ty: *array_ty, sizings }
        };
        let element_bit_size = resolver_data.bit_length() / elements;
        Some(
            ElementArrayIter::new(
                resolver_data.field_name,
                ty,
                resolver_data.bit_range_start(),
                elements,
                element_bit_size,
                resolver_data.flip(),
            ),
        )
    }

    /// Returns the next element, or `None` once every element was returned.
    pub fn next(&mut self) -> (r: Option<Resolver>)
        requires
            old(self).fits(),
        ensures
            final(self).fits(),
            final(self).outer_ident == old(self).outer_ident,
            final(self).starting_bit_index == old(self).starting_bit_index,
            final(self).ty == old(self).ty,
            final(self).element_bit_size == old(self).element_bit_size,
            final(self).flip == old(self).flip,
            final(self).element_range.end == old(self).element_range.end,
            if old(self).element_range.start < old(self).element_range.end {
                let start = old(self).element_start(old(self).element_range.start as int);
                &&& final(self).element_range.start == old(self).element_range.start + 1
                &&& r matches Some(res) && res@ == element_view(
                    spec_element_key(old(self).outer_ident, old(self).element_range.start),
                    old(self).ty@,
                    start,
                    start + old(self).element_bit_size,
                    old(self).flip,
                )
            } else {
                &&& final(self).element_range == old(self).element_range
                &&& r is None
            },
    {
        if self.element_range.start < self.element_range.end {
            let index = self.element_range.start;
            self.element_range = Range { start: index + 1, end: self.element_range.end };
            proof {
                let e = self.element_bit_size as int;
                let n = self.element_range.end as int;
                assert((index + 1) * e <= n * e) by (nonlinear_arith)
                    requires
                        index + 1 <= n,
                        0 <= e,
                ;
                assert((index + 1) * e == index * e + e) by (nonlinear_arith);
            }
            let start: usize = self.starting_bit_index + index * self.element_bit_size;
            let end: usize = start + self.element_bit_size;
            Some(element_resolver(element_key(self.outer_ident, index), &self.ty, start, end, self.flip))
        } else {
            None
        }
    }
}

/// The elements of an element array lie one after the other, inside the field's bits: element
/// `i` ends where element `i + 1` starts, and the last one ends no later than the field.
pub proof fn law_element_ranges_tile(start: int, bit_length: int, elements: int, i: int)
    requires
        0 <= start,
        0 <= bit_length,
        0 < elements,
        0 <= i < elements,
    ensures
        ({
            let e = bit_length / elements;
            &&& start + i * e + e == start + (i + 1) * e
            &&& start <= start + i * e
            &&& start + (i + 1) * e <= start + bit_length
        }),
{
    let e = bit_length / elements;
    assert(e * elements <= bit_length) by (nonlinear_arith)
        requires
            e == bit_length / elements,
            0 < elements,
            0 <= bit_length,
    ;
    assert((i + 1) * e <= elements * e) by (nonlinear_arith)
        requires
            i + 1 <= elements,
            0 <= e,
    ;
    assert(0 <= i * e) by (nonlinear_arith)
        requires
            0 <= i,
            0 <= e,
    ;
    assert((i + 1) * e == i * e + e) by (nonlinear_arith);
    assert(elements * e == e * elements) by (nonlinear_arith);
}


/// How many bits the next element of a block array takes when `remaining_bits` are left and
/// a whole element takes `type_bits`: the odd remainder goes first.
pub open spec fn block_step(type_bits: int, remaining_bits: int) -> int {
    if remaining_bits % type_bits != 0 {
        remaining_bits % type_bits
    } else {
        type_bits
    }
}

/// Walks the elements of a block array, which share the field's bits with only the first
/// element taking less than a whole element.
pub struct BlockArrayIter {
    pub outer_ident: FieldKey,
    /// Starts as array length, but is decremented each time next is called.
    pub remaining_elements: usize,
    /// the starting bit index of the next element
    pub starting_bit_index: usize,
    /// The type of one element.
    pub ty: ResolverType,
    /// Amount of remaining bits to consume.
    pub remaining_bits: usize,
    /// The array length.
    pub total_elements: usize,
    pub flip: Option<usize>,
}

impl BlockArrayIter {
    /// The bits one whole element takes.
    pub open spec fn type_bits(&self) -> int {
        spec_rust_size(self.ty@) * 8
    }

    /// The next element can be taken without a count leaving `usize`.
    pub open spec fn can_step(&self) -> bool {
        self.remaining_elements != 0 ==> {
            &&& rust_size_fits(self.ty@)
            &&& self.type_bits() <= usize::MAX
            &&& self.type_bits() > 0
            &&& self.remaining_bits > 0
            &&& self.starting_bit_index + self.remaining_bits <= usize::MAX
            &&& self.remaining_elements <= self.total_elements
        }
    }

    pub fn new(
        outer_ident: FieldKey,
        ty: ResolverType,
        starting_bit_index: usize,
        elements: usize,
        amount_of_bits: usize,
        flip: Option<usize>,
    ) -> (r: Self)
        ensures
            r.outer_ident == outer_ident,
            r.remaining_elements == elements,
            r.starting_bit_index == starting_bit_index,
            r.ty == ty,
            r.remaining_bits == amount_of_bits,
            r.total_elements == elements,
            r.flip == flip,
    {
        Self {
            outer_ident,
            remaining_elements: elements,
            starting_bit_index,
            ty,
            remaining_bits: amount_of_bits,
            total_elements: elements,
            flip,
        }
    }

    /// Splits a block array field into its outermost elements; `None` for a field without
    /// dimensions.
    pub fn from_values(
        resolver_data: &ResolverData,
        sub_ty: &ResolverSubType,
        array_ty: &ResolverArrayType,
        sizings: &Vec<usize>,
    ) -> (r: Option<Self>)
        requires
            resolver_data.bit_range.start <= resolver_data.bit_range.end,
        ensures
            sizings@.len() == 0 ==> r is None,
            sizings@.len() > 0 ==> (r matches Some(it) && {
                &&& it.outer_ident == resolver_data.field_name
                &&& it.remaining_elements == sizings@.last()
                &&& it.total_elements == sizings@.last()
                &&& it.starting_bit_index == resolver_data.bit_range.start
                &&& it.ty@ == element_type(*sub_ty, *array_ty, sizings@)
                &&& it.remaining_bits == resolver_data.bit_range.end - resolver_data.bit_range.start
                &&& it.flip == resolver_data.flip
            }),
    {
        let flip = resolver_data.flip();
        let mut sizings = sizings.clone();
        let ghost all = sizings@;
        let elements = match sizings.pop() {
            Some(e) => e,
            None => {
                return None;
            },
        };
        let ty: ResolverType = if sizings.len() == 0 {
            resolver_type_from_sub(*sub_ty)
        } else {
            assert(sizings@ =~= all.drop_last());
            ResolverType::Array { sub_ty: *sub_ty, array_ty: *array_ty, sizings }
        };
        Some(
            BlockArrayIter::new(
                resolver_data.field_name,
                ty,
                resolver_data.bit_range_start(),
                elements,
                resolver_data.bit_length(),
                flip,
            ),
        )
    }

    /// Returns the next element, or `None` once every element was returned.
    pub fn next(&mut self) -> (r: Option<Resolver>)
        requires
            old(self).can_step(),
        ensures
            final(self).outer_ident == old(self).outer_ident,
            final(self).ty == old(self).ty,
            final(self).total_elements == old(self).total_elements,
            final(self).flip == old(self).flip,
            if old(self).remaining_elements != 0 {
                let step = block_step(old(self).type_bits(), old(self).remaining_bits as int);
                let start = old(self).starting_bit_index as int;
                &&& final(self).remaining_elements == old(self).remaining_elements - 1
                &&& final(self).starting_bit_index == start + step
                &&& final(self).remaining_bits == old(self).remaining_bits - step
                &&& r matches Some(res) && res@ == element_view(
                    spec_element_key(
                        old(self).outer_ident,
                        (old(self).total_elements - old(self).remaining_elements) as usize,
                    ),
                    old(self).ty@,
                    start,
                    start + step,
                    old(self).flip,
                )
            } else {
                &&& final(self).remaining_elements == old(self).remaining_elements
                &&& final(self).starting_bit_index == old(self).starting_bit_index
                &&& final(self).remaining_bits == old(self).remaining_bits
                &&& r is None
            },
    {
        if self.remaining_elements != 0 {
            let mut ty_size: usize = self.ty.rust_size() * 8;
            if self.remaining_bits % ty_size != 0 {
                ty_size = self.remaining_bits % ty_size;
            }
            proof {
                let t = self.type_bits();
                let rb = self.remaining_bits as int;
                assert(rb % t == 0 ==> rb >= t) by (nonlinear_arith)
                    requires
                        rb > 0,
                        t > 0,
                ;
                assert(rb % t <= rb) by (nonlinear_arith)
                    requires
                        rb > 0,
                        t > 0,
                ;
                assert(ty_size <= rb);
            }
            let start = self.starting_bit_index;
            let end = start + ty_size;
            let index: usize = self.total_elements - self.remaining_elements;
            self.starting_bit_index = start + ty_size;
            self.remaining_bits = self.remaining_bits - ty_size;
            self.remaining_elements = self.remaining_elements - 1;
            Some(element_resolver(element_key(self.outer_ident, index), &self.ty, start, end, self.flip))
        } else {
            None
        }
    }
}

/// Taking one element of a block array whose bits fit its elements (more than all but one
/// whole element, at most all of them) leaves bits that fit the remaining elements exactly
/// as whole elements; so the elements tile the field and the last one ends with it.
pub proof fn law_block_step_keeps_tiling(type_bits: int, elements: int, remaining_bits: int)
    requires
        type_bits > 0,
        elements > 0,
        (elements - 1) * type_bits < remaining_bits <= elements * type_bits,
    ensures
        ({
            let step = block_step(type_bits, remaining_bits);
            &&& 0 < step <= type_bits
            &&& remaining_bits - step == (elements - 1) * type_bits
        }),
{
    let t = type_bits;
    let r = remaining_bits;
    let e = elements;
    let q = r / t;
    assert(r == q * t + r % t && 0 <= r % t < t) by (nonlinear_arith)
        requires
            t > 0,
            q == r / t,
    ;
    if r % t != 0 {
        assert(q == e - 1) by (nonlinear_arith)
            requires
                (e - 1) * t < r <= e * t,
                r == q * t + r % t,
                0 < r % t < t,
                t > 0,
        ;
    } else {
        assert(q == e) by (nonlinear_arith)
            requires
                (e - 1) * t < r <= e * t,
                r == q * t,
                t > 0,
        ;
        assert((e - 1) * t == e * t - t) by (nonlinear_arith);
    }
}

} // verus!
