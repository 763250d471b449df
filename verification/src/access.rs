use crate::endianness::EndiannessMode;
use crate::field_set::SolvedFieldSet;
use crate::solved::{enum_solved_as, enum_fits, law_solved_enum_ids, sorted_by_id, spec_id_stage, spec_solve_enum, EnumBuilder, Solved, SolvedType, VariantInfo};
use crate::variants::pow2;
use crate::masks::{bit_is_set, law_span_mask_bits, right_mask, span_mask};
use crate::array_iter::{
    block_step, element_type, element_view, law_element_ranges_tile, rust_size_fits, BlockArrayIter, ElementArrayIter,
};
use crate::data::spec_element_key;
use crate::resolver::{sub_rust_size, Resolver, SolvedData, ResolverArrayType, ResolverSubType, ResolverType, ResolverTypeView, ResolverView};
use std::ops::Range;
use vstd::prelude::*;

verus! {

/// One byte of a field's bits, as the generated read and write functions touch it: the
/// byte's index, the mask of the field's bits in it, the left shift that moves the value's
/// bits into place in the byte, and the right shift that brings them down from the value.
#[derive(Clone, Copy, Debug, PartialEq, Eq)]
pub struct ByteStep {
    pub byte: usize,
    pub mask: u8,
    pub left_shift: u8,
    pub right_shift: u32,
    /// How many of the field's bits the byte holds.
    pub bits: u8,
}

/// The `n` least significant bits set (all for `n >= 128`).
pub open spec fn ones(n: u128) -> u128 {
    u128::MAX >> ((128u128 - n) as u128)
}

/// Byte `old` with the bits under `mask` replaced by the value's bits brought into place.
pub open spec fn write_byte_parts(old: u8, mask: u8, ls: u8, rs: u32, v: u128) -> u8 {
    (old & !mask) | ((((v >> rs) << ls) as u8) & mask)
}

/// The value's bits that byte `b` holds under `mask`, back in their place in the value.
pub open spec fn read_byte_parts(b: u8, mask: u8, ls: u8, rs: u32) -> u128 {
    (((b & mask) >> ls) as u128) << rs
}

/// The bytes after writing the value `v` through the first `n` steps of `plan`.
pub open spec fn write_steps(bytes: Seq<u8>, plan: Seq<ByteStep>, v: u128, n: int) -> Seq<u8>
    decreases n,
{
    if n <= 0 {
        bytes
    } else {
        let b = write_steps(bytes, plan, v, n - 1);
        let st = plan[n - 1];
        b.update(st.byte as int, write_byte_parts(b[st.byte as int], st.mask, st.left_shift, st.right_shift, v))
    }
}

/// The value read from `bytes` through the first `n` steps of `plan`.
pub open spec fn read_steps(bytes: Seq<u8>, plan: Seq<ByteStep>, n: int) -> u128
    decreases n,
{
    if n <= 0 {
        0
    } else {
        let st = plan[n - 1];
        read_steps(bytes, plan, n - 1) | read_byte_parts(bytes[st.byte as int], st.mask, st.left_shift, st.right_shift)
    }
}

/// The first bit, counted from the most significant, of byte `j` that the field's bits
/// `s..e` take.
pub open spec fn lo_bit(s: int, j: int) -> int {
    if s > 8 * j {
        s - 8 * j
    } else {
        0
    }
}

/// One past the last bit of byte `j` that the field's bits `s..e` take.
pub open spec fn hi_bit(e: int, j: int) -> int {
    if e < 8 * j + 8 {
        e - 8 * j
    } else {
        8
    }
}

/// Step `k` of the plan of a field with bits `s..e` of the structure, its value's most
/// significant bit first: byte `s / 8 + k` (counted from the last byte `f` when the byte
/// order is reversed), the field's bits of that byte, and the shifts between byte and value.
pub open spec fn plan_step(s: int, e: int, flip: Option<usize>, k: int) -> ByteStep {
    span_step(s, e, flip, 0, k)
}

/// Step `k` of the bits `a..b` of the structure holding the value's bits `off..off + b - a`,
/// the most significant first.
pub open spec fn span_step(a: int, b: int, flip: Option<usize>, off: int, k: int) -> ByteStep {
    let j = a / 8 + k;
    let lo = lo_bit(a, j);
    let hi = hi_bit(b, j);
    ByteStep {
        byte: (match flip {
            Some(f) => f - j,
            None => j,
        }) as usize,
        mask: right_mask(hi - lo) << ((8 - hi) as u8),
        left_shift: (8 - hi) as u8,
        right_shift: (off + b - 8 * j - hi) as u32,
        bits: (hi - lo) as u8,
    }
}

/// The number of bytes that the bits `s..e` touch.
pub open spec fn plan_len(s: int, e: int) -> int {
    (e - 1) / 8 - s / 8 + 1
}

/// Whether `plan` is the plan of a field with bits `s..e`.
pub open spec fn is_plan(plan: Seq<ByteStep>, s: int, e: int, flip: Option<usize>) -> bool {
    &&& plan.len() == plan_len(s, e)
    &&& forall|k: int| 0 <= k < plan.len() ==> #[trigger] plan[k] == plan_step(s, e, flip, k)
}

/// What a plan for bits `s..e` asks: a field of 1 to 128 bits inside `total_bytes` bytes,
/// reversed from a last byte inside them.
pub open spec fn plan_fits(s: int, e: int, flip: Option<usize>, total_bytes: int) -> bool {
    &&& 0 <= s < e
    &&& e - s <= 128
    &&& e <= 8 * total_bytes
    &&& e <= usize::MAX
    &&& flip matches Some(f) ==> (e - 1) / 8 <= f < total_bytes
}

/// Whether a step stays inside `len` bytes and its shifts inside their types.
pub open spec fn step_ok(st: ByteStep, len: int) -> bool {
    &&& st.byte < len
    &&& st.left_shift < 8
    &&& st.right_shift < 128
}

/// Works out, byte by byte, which bits of the structure's bytes the field `field` takes and
/// how its value moves in and out of them: the plan the generated read and write functions
/// follow for a field laid out most significant bit first.
pub fn field_access_plan(field: &SolvedData, total_bytes: usize) -> (r: Vec<ByteStep>)
    requires
        plan_fits(field@.bit_range.start as int, field@.bit_range.end as int, field@.flip, total_bytes as int),
    ensures
        is_plan(r@, field@.bit_range.start as int, field@.bit_range.end as int, field@.flip),
{
    bits_plan(field.resolver.data.bit_range.start, field.resolver.data.bit_range.end, field.resolver.data.flip, total_bytes)
}

/// The plan of the bits `s..e`, most significant bit first.
fn bits_plan(s: usize, e: usize, flip: Option<usize>, total_bytes: usize) -> (r: Vec<ByteStep>)
    requires
        plan_fits(s as int, e as int, flip, total_bytes as int),
    ensures
        is_plan(r@, s as int, e as int, flip),
{
    let mut plan: Vec<ByteStep> = Vec::new();
    push_span_steps(&mut plan, s, e, flip, 0, total_bytes);
    assert forall|k: int| 0 <= k < plan@.len() implies #[trigger] plan@[k] == plan_step(s as int, e as int, flip, k) by {
        assert(plan@[k] == span_step(s as int, e as int, flip, 0, k));
    }
    plan
}

/// Appends the steps of the bits `a..b` holding the value's bits from `off` up.
fn push_span_steps(plan: &mut Vec<ByteStep>, a: usize, b: usize, flip: Option<usize>, off: u32, total_bytes: usize)
    requires
        plan_fits(a as int, b as int, flip, total_bytes as int),
        off + (b - a) <= 128,
    ensures
        final(plan)@ == old(plan)@ + Seq::new(plan_len(a as int, b as int) as nat, |k: int| span_step(a as int, b as int, flip, off as int, k)),
{
    let ghost start = plan@;
    let first: usize = a / 8;
    let last: usize = (b - 1) / 8;
    let mut j: usize = first;
    while j <= last
        invariant
            plan_fits(a as int, b as int, flip, total_bytes as int),
            off + (b - a) <= 128,
            first == a / 8,
            last == (b - 1) / 8,
            first <= j <= last + 1,
            plan@.len() == start.len() + (j - first),
            forall|k: int| 0 <= k < start.len() ==> #[trigger] plan@[k] == start[k],
            forall|k: int| 0 <= k < j - first ==> #[trigger] plan@[start.len() + k] == span_step(a as int, b as int, flip, off as int, k),
        decreases last + 1 - j,
    {
        let lo: usize = if a > 8 * j {
            a - 8 * j
        } else {
            0
        };
        let hi: usize = if b - 8 * j < 8 {
            b - 8 * j
        } else {
            8
        };
        let cnt: usize = hi - lo;
        let mask: u8 = (0xffu8 >> ((8 - cnt) as u8)) << ((8 - hi) as u8);
        let byte: usize = match flip {
            Some(f) => f - j,
            None => j,
        };
        assert(8 * j <= b - 1);
        let step = ByteStep {
            byte,
            mask,
            left_shift: (8 - hi) as u8,
            right_shift: off + (b - 8 * j - hi) as u32,
            bits: cnt as u8,
        };
        proof {
            assert(1 <= cnt <= 8);
            assert(step == span_step(a as int, b as int, flip, off as int, (j - first) as int));
        }
        plan.push(step);
        j = j + 1;
    }
    let ghost tail = Seq::new(plan_len(a as int, b as int) as nat, |k: int| span_step(a as int, b as int, flip, off as int, k));
    assert(j == last + 1);
    assert forall|k: int| 0 <= k < plan@.len() implies plan@[k] == (start + tail)[k] by {
        if k >= start.len() {
            let kk = k - start.len();
            assert(plan@[start.len() + kk] == span_step(a as int, b as int, flip, off as int, kk));
        }
    }
    assert(plan@ =~= start + tail);
}

/// The number of bytes a slice needs for every step of `plan` to find its byte: one past the
/// last byte a step touches (none for an empty plan).
pub fn bytes_needed(plan: &Vec<ByteStep>) -> (r: usize)
    requires
        forall|k: int| 0 <= k < plan@.len() ==> (#[trigger] plan@[k]).byte < usize::MAX,
    ensures
        forall|k: int| 0 <= k < plan@.len() ==> (#[trigger] plan@[k]).byte < r,
        plan@.len() == 0 ==> r == 0,
        plan@.len() > 0 ==> exists|k: int| 0 <= k < plan@.len() && (#[trigger] plan@[k]).byte + 1 == r,
{
    let mut r: usize = 0;
    let mut k: usize = 0;
    while k < plan.len()
        invariant
            k <= plan@.len(),
            forall|i: int| 0 <= i < plan@.len() ==> (#[trigger] plan@[i]).byte < usize::MAX,
            forall|i: int| 0 <= i < k ==> (#[trigger] plan@[i]).byte < r,
            k == 0 ==> r == 0,
            k > 0 ==> exists|i: int| 0 <= i < k && (#[trigger] plan@[i]).byte + 1 == r,
        decreases plan@.len() - k,
    {
        let b = plan[k].byte;
        if b + 1 > r {
            r = b + 1;
            assert(plan@[k as int].byte + 1 == r);
        }
        k = k + 1;
    }
    r
}

/// Writes the value `v` into `bytes` through `plan`, as a generated write function does.
pub fn write_through_plan(bytes: &mut Vec<u8>, plan: &Vec<ByteStep>, v: u128)
    requires
        forall|k: int| 0 <= k < plan@.len() ==> step_ok(#[trigger] plan@[k], old(bytes)@.len() as int),
    ensures
        final(bytes)@ == write_steps(old(bytes)@, plan@, v, plan@.len() as int),
{
    let mut k: usize = 0;
    while k < plan.len()
        invariant
            k <= plan@.len(),
            forall|i: int| 0 <= i < plan@.len() ==> step_ok(#[trigger] plan@[i], bytes@.len() as int),
            bytes@ == write_steps(old(bytes)@, plan@, v, k as int),
            bytes@.len() == old(bytes)@.len(),
        decreases plan@.len() - k,
    {
        let st = plan[k];
        let old_byte = bytes[st.byte];
        let new_byte: u8 = (old_byte & !st.mask) | ((#[verifier::truncate] (((v >> st.right_shift) << st.left_shift) as u8)) & st.mask);
        bytes.set(st.byte, new_byte);
        k = k + 1;
    }
}

/// Reads a value from `bytes` through `plan`, as a generated read function does.
pub fn read_through_plan(bytes: &Vec<u8>, plan: &Vec<ByteStep>) -> (r: u128)
    requires
        forall|k: int| 0 <= k < plan@.len() ==> step_ok(#[trigger] plan@[k], bytes@.len() as int),
    ensures
        r == read_steps(bytes@, plan@, plan@.len() as int),
{
    let mut r: u128 = 0;
    let mut k: usize = 0;
    while k < plan.len()
        invariant
            k <= plan@.len(),
            forall|i: int| 0 <= i < plan@.len() ==> step_ok(#[trigger] plan@[i], bytes@.len() as int),
            r == read_steps(bytes@, plan@, k as int),
        decreases plan@.len() - k,
    {
        let st = plan[k];
        r = r | ((((bytes[st.byte] & st.mask) >> st.left_shift) as u128) << st.right_shift);
        k = k + 1;
    }
    r
}

/// The bits `rs..rs + cnt` of a value go into a byte under a mask of `cnt` bits and come
/// back out unchanged.
proof fn lemma_byte_round_trip(v: u128, old: u8, mask: u8, ls: u8, rs: u32, cnt: u8)
    by (bit_vector)
    requires
        1 <= cnt,
        ls + cnt <= 8,
        rs + cnt <= 128,
        mask == (0xffu8 >> ((8 - cnt) as u8)) << ls,
    ensures
        read_byte_parts(write_byte_parts(old, mask, ls, rs, v), mask, ls, rs) == v & ones((rs + cnt) as u128)
            & !ones(rs as u128),
{
}

/// A write through a byte keeps the bits outside its mask.
pub proof fn law_write_keeps_bits_outside_mask(old: u8, mask: u8, ls: u8, rs: u32, v: u128)
    by (bit_vector)
    ensures
        write_byte_parts(old, mask, ls, rs, v) & !mask == old & !mask,
{
}

proof fn lemma_ones_mono(a: u128, b: u128)
    by (bit_vector)
    requires
        a <= b,
        b <= 128,
    ensures
        ones(a) & ones(b) == ones(a),
{
}

proof fn lemma_merge(v: u128, oa: u128, ob: u128, oc: u128)
    by (bit_vector)
    requires
        oa & ob == oa,
        ob & oc == ob,
    ensures
        (v & oc & !ob) | (v & ob & !oa) == v & oc & !oa,
{
}

proof fn lemma_edges(x: u128)
    by (bit_vector)
    ensures
        0u128 | x == x,
        x & !ones(0u128) == x,
{
}

/// The arithmetic of step `k` of a plan: it takes 1 to 8 bits of its byte, its shifts stay
/// inside their types, its mask is that run of bits, and the steps take the value's bits in
/// turn from the most significant, the last ending at bit zero.
proof fn lemma_step_arith(s: int, e: int, flip: Option<usize>, total: int, k: int)
    requires
        plan_fits(s, e, flip, total),
        0 <= k < plan_len(s, e),
    ensures
        ({
            let j = s / 8 + k;
            let cnt = hi_bit(e, j) - lo_bit(s, j);
            let st = plan_step(s, e, flip, k);
            &&& 1 <= cnt <= 8
            &&& st.left_shift + cnt <= 8
            &&& st.left_shift == 8 - hi_bit(e, j)
            &&& st.right_shift + cnt <= 128
            &&& st.mask == (0xffu8 >> ((8 - cnt) as u8)) << st.left_shift
            &&& step_ok(st, total)
            &&& k == 0 ==> st.right_shift + cnt == e - s
            &&& k > 0 ==> st.right_shift + cnt == plan_step(s, e, flip, k - 1).right_shift
            &&& k == plan_len(s, e) - 1 ==> st.right_shift == 0
        }),
{
    let j = s / 8 + k;
    assert(8 * (s / 8) <= s < 8 * (s / 8) + 8);
    assert(8 * ((e - 1) / 8) <= e - 1 < 8 * ((e - 1) / 8) + 8);
    assert(8 * j <= e - 1);
}

/// Steps of a plan write different bytes.
proof fn lemma_steps_distinct(s: int, e: int, flip: Option<usize>, total: int, a: int, b: int)
    requires
        plan_fits(s, e, flip, total),
        0 <= a < b < plan_len(s, e),
    ensures
        plan_step(s, e, flip, a).byte != plan_step(s, e, flip, b).byte,
{
    let ja = s / 8 + a;
    let jb = s / 8 + b;
    assert(0 <= s / 8);
    assert(jb <= (e - 1) / 8);
    assert((e - 1) / 8 <= e);
    match flip {
        Some(f) => {
            assert(0 <= f - jb < f - ja <= f);
            assert(plan_step(s, e, flip, a).byte == (f - ja) as usize);
            assert(plan_step(s, e, flip, b).byte == (f - jb) as usize);
            assert((f - ja) as usize == f - ja);
            assert((f - jb) as usize == f - jb);
            assert(ja < jb);
            assert(f - ja != f - jb);
            assert(plan_step(s, e, flip, a).byte != plan_step(s, e, flip, b).byte);
        },
        None => {
            assert(ja as usize == ja && jb as usize == jb);
        },
    }
}

/// After writing through the first `n` steps, the byte of step `k < n` holds what step `k`
/// wrote, and the bytes keep their number.
proof fn lemma_written_byte(bytes: Seq<u8>, plan: Seq<ByteStep>, v: u128, n: int, k: int)
    requires
        0 <= k < n <= plan.len(),
        forall|i: int| 0 <= i < plan.len() ==> (#[trigger] plan[i]).byte < bytes.len(),
        forall|a: int, b: int| 0 <= a < b < plan.len() ==> #[trigger] plan[a].byte != #[trigger] plan[b].byte,
    ensures
        write_steps(bytes, plan, v, n).len() == bytes.len(),
        write_steps(bytes, plan, v, n)[plan[k].byte as int] == write_byte_parts(
            bytes[plan[k].byte as int],
            plan[k].mask,
            plan[k].left_shift,
            plan[k].right_shift,
            v,
        ),
    decreases n,
{
    lemma_write_len(bytes, plan, v, n);
    if k < n - 1 {
        lemma_written_byte(bytes, plan, v, n - 1, k);
        assert(plan[k].byte != plan[n - 1].byte);
    } else {
        lemma_write_len(bytes, plan, v, n - 1);
        lemma_untouched(bytes, plan, v, n - 1, plan[k].byte as int);
    }
}

proof fn lemma_write_len(bytes: Seq<u8>, plan: Seq<ByteStep>, v: u128, n: int)
    requires
        n <= plan.len(),
        forall|i: int| 0 <= i < plan.len() ==> (#[trigger] plan[i]).byte < bytes.len(),
    ensures
        write_steps(bytes, plan, v, n).len() == bytes.len(),
    decreases n,
{
    if n > 0 {
        lemma_write_len(bytes, plan, v, n - 1);
    }
}

/// A byte that none of the first `n` steps writes keeps its value.
proof fn lemma_untouched(bytes: Seq<u8>, plan: Seq<ByteStep>, v: u128, n: int, idx: int)
    requires
        n <= plan.len(),
        0 <= idx < bytes.len(),
        forall|i: int| 0 <= i < plan.len() ==> (#[trigger] plan[i]).byte < bytes.len(),
        forall|i: int| 0 <= i < n ==> (#[trigger] plan[i]).byte != idx,
    ensures
        write_steps(bytes, plan, v, n)[idx] == bytes[idx],
    decreases n,
{
    if n > 0 {
        lemma_untouched(bytes, plan, v, n - 1, idx);
        lemma_write_len(bytes, plan, v, n - 1);
        assert(plan[n - 1].byte != idx);
    }
}

/// Reading the first `n` steps of what a plan wrote gives the value's bits from the right
/// shift of step `n - 1` up to the field's width.
proof fn lemma_read_prefix(bytes: Seq<u8>, plan: Seq<ByteStep>, s: int, e: int, flip: Option<usize>, v: u128, n: int)
    requires
        plan_fits(s, e, flip, bytes.len() as int),
        is_plan(plan, s, e, flip),
        1 <= n <= plan.len(),
        forall|i: int| 0 <= i < plan.len() ==> (#[trigger] plan[i]).byte < bytes.len(),
        forall|a: int, b: int| 0 <= a < b < plan.len() ==> #[trigger] plan[a].byte != #[trigger] plan[b].byte,
    ensures
        read_steps(write_steps(bytes, plan, v, plan.len() as int), plan, n) == v & ones((e - s) as u128) & !ones(
            plan[n - 1].right_shift as u128,
        ),
    decreases n,
{
    let total = bytes.len() as int;
    let len = plan.len() as int;
    let written = write_steps(bytes, plan, v, len);
    let w = (e - s) as u128;
    let k = n - 1;
    lemma_step_arith(s, e, flip, total, k);
    lemma_written_byte(bytes, plan, v, len, k);
    let st = plan[k];
    let got = read_byte_parts(written[st.byte as int], st.mask, st.left_shift, st.right_shift);
    assert(read_steps(written, plan, n) == read_steps(written, plan, n - 1) | got);
    if n == 1 {
        let cnt = (w - st.right_shift) as u8;
        lemma_byte_round_trip(v, bytes[st.byte as int], st.mask, st.left_shift, st.right_shift, cnt);
        assert(got == v & ones(w) & !ones(st.right_shift as u128));
        lemma_edges(v & ones(w) & !ones(st.right_shift as u128));
    } else {
        lemma_read_prefix(bytes, plan, s, e, flip, v, n - 1);
        lemma_step_arith(s, e, flip, total, k - 1);
        let prev = plan[k - 1].right_shift;
        let cnt = (prev - st.right_shift) as u8;
        lemma_byte_round_trip(v, bytes[st.byte as int], st.mask, st.left_shift, st.right_shift, cnt);
        assert(got == v & ones(prev as u128) & !ones(st.right_shift as u128));
        lemma_ones_mono(st.right_shift as u128, prev as u128);
        lemma_ones_mono(prev as u128, w);
        lemma_merge(v, ones(st.right_shift as u128), ones(prev as u128), ones(w));
    }
}

/// Writing a value through a field's plan and reading it back through the same plan gives
/// the value cut to the field's width; the bytes keep their number.
pub proof fn law_plan_write_then_read(bytes: Seq<u8>, plan: Seq<ByteStep>, s: int, e: int, flip: Option<usize>, v: u128)
    requires
        plan_fits(s, e, flip, bytes.len() as int),
        is_plan(plan, s, e, flip),
    ensures
        write_steps(bytes, plan, v, plan.len() as int).len() == bytes.len(),
        read_steps(write_steps(bytes, plan, v, plan.len() as int), plan, plan.len() as int) == v & ones((e - s) as u128),
{
    let total = bytes.len() as int;
    let len = plan.len() as int;
    assert forall|i: int| 0 <= i < len implies (#[trigger] plan[i]).byte < bytes.len() by {
        lemma_step_arith(s, e, flip, total, i);
    }
    assert forall|a: int, b: int| 0 <= a < b < len implies #[trigger] plan[a].byte != #[trigger] plan[b].byte by {
        lemma_steps_distinct(s, e, flip, total, a, b);
    }
    lemma_write_len(bytes, plan, v, len);
    lemma_read_prefix(bytes, plan, s, e, flip, v, len);
    lemma_step_arith(s, e, flip, total, len - 1);
    lemma_edges(v & ones((e - s) as u128));
}

/// The mask of each step holds exactly the field's bits of its byte: bit `i` of the mask
/// (0 the least significant) is set exactly when the structure's bit `8 * j + 7 - i` (bit
/// indices counted from the first byte's most significant bit) is one of the field's bits
/// `s..e`; and that bit carries the value's bit `e - 1 - (8 * j + 7 - i)`, its most
/// significant bit first.
pub proof fn law_plan_masks_hold_field_bits(s: int, e: int, flip: Option<usize>, total: int, k: int, i: u8)
    requires
        plan_fits(s, e, flip, total),
        0 <= k < plan_len(s, e),
        i < 8,
    ensures
        ({
            let j = s / 8 + k;
            let st = plan_step(s, e, flip, k);
            &&& bit_is_set(st.mask, i) <==> s <= 8 * j + 7 - i < e
            &&& st.right_shift + i - st.left_shift == e - 1 - (8 * j + 7 - i)
        }),
{
    lemma_step_arith(s, e, flip, total, k);
    let j = s / 8 + k;
    let lo = lo_bit(s, j);
    let hi = hi_bit(e, j);
    assert(8 * (s / 8) <= s < 8 * (s / 8) + 8);
    assert(plan_step(s, e, flip, k).mask == span_mask(lo, hi - 1));
    law_span_mask_bits(lo as u8, (hi - 1) as u8, i);
}

/// Whether a resolved field's value is laid out most significant bit first in the
/// structure's bit order: a primitive of the standard (big endian) mode, or a nested bitfield,
/// whose bytes, read as one big endian number, take the field's bits from the first on. A
/// reversed byte order only counts the bytes from the last, which the field's `flip` gives.
pub open spec fn msb_first(v: ResolverView) -> bool {
    match v.ty {
        ResolverTypeView::Single(ResolverSubType::Primitive { resolver_strategy, .. }) => {
            resolver_strategy.endianness.mode == EndiannessMode::Standard
        },
        ResolverTypeView::Single(ResolverSubType::Nested { .. }) => true,
        _ => false,
    }
}

/// Whether a resolved field is a primitive of the alternative (packed little endian) mode,
/// whose value's bytes, the least significant first, take the field's bits in turn.
pub open spec fn lsb_chunks(v: ResolverView) -> bool {
    match v.ty {
        ResolverTypeView::Single(ResolverSubType::Primitive { resolver_strategy, .. }) => {
            resolver_strategy.endianness.mode == EndiannessMode::Alternative
        },
        _ => false,
    }
}

/// Whether `plan` is the plan of the field `f`: its little endian plan for a primitive of the
/// alternative mode, else its most significant bit first plan.
pub open spec fn is_field_plan(plan: Seq<ByteStep>, f: ResolverView) -> bool {
    let s = f.bit_range.start as int;
    let e = f.bit_range.end as int;
    if lsb_chunks(f) {
        is_le_plan(plan, s, e, f.flip)
    } else {
        is_plan(plan, s, e, f.flip)
    }
}

/// Whether a field of a single value gets a plan: one whose layout is one of the two above
/// and whose bits a plan fits.
pub open spec fn planned(f: ResolverView, total: int) -> bool {
    (msb_first(f) || lsb_chunks(f)) && plan_fits(f.bit_range.start as int, f.bit_range.end as int, f.flip, total)
}

/// The byte plan of a field: the plan of a single value, the plans of an array's elements,
/// or none.
#[derive(Debug, PartialEq)]
pub enum FieldPlan {
    Bits(Vec<ByteStep>),
    Elements(ArrayPlans),
    Unplanned,
}

/// Whether `p` is the plan of the field `f`: a single value's plan exactly when it gets one,
/// an array's element plans exactly when its elements can be walked at every depth.
pub open spec fn field_plan_of(f: ResolverView, total: int, p: FieldPlan) -> bool {
    match p {
        FieldPlan::Bits(q) => planned(f, total) && is_field_plan(q@, f),
        FieldPlan::Elements(a) => f.ty is Array && array_plans_of(f, total, a),
        FieldPlan::Unplanned => !planned(f, total) && !(f.ty is Array && deep_walkable(f)),
    }
}

/// Whether `plans` holds the plan of each field.
pub open spec fn plans_of(fields: Seq<ResolverView>, total: int, plans: Seq<FieldPlan>) -> bool {
    &&& plans.len() == fields.len()
    &&& forall|k: int| 0 <= k < plans.len() ==> field_plan_of(#[trigger] fields[k], total, plans[k])
}

/// Works out the plan of one field of a structure of `total_bytes` bytes.
pub fn field_plan(field: &Resolver, total_bytes: usize) -> (r: FieldPlan)
    ensures
        field_plan_of(field@, total_bytes as int, r),
{
    match &*field.ty {
        ResolverType::Array { .. } => match gen_array_plans(field, total_bytes) {
            Some(a) => FieldPlan::Elements(a),
            None => FieldPlan::Unplanned,
        },
        _ => match plan_if_fits(field, total_bytes) {
            Some(p) => FieldPlan::Bits(p),
            None => FieldPlan::Unplanned,
        },
    }
}

/// Works out the byte plan of every field of a solved structure of `total_bytes` bytes: the
/// plan of each primitive or nested bitfield of 1 to 128 bits, the element plans of each array
/// whose elements can be walked.
pub fn gen_struct_fields(set: &SolvedFieldSet, total_bytes: usize) -> (r: Vec<FieldPlan>)
    ensures
        plans_of(set.spec_fields(), total_bytes as int, r@),
{
    let mut out: Vec<FieldPlan> = Vec::new();
    let mut k: usize = 0;
    while k < set.fields.len()
        invariant
            k <= set.fields@.len(),
            out@.len() == k,
            forall|i: int| 0 <= i < k ==> field_plan_of((#[trigger] set.fields@[i])@, total_bytes as int, out@[i]),
        decreases set.fields@.len() - k,
    {
        let p = field_plan(&set.fields[k].resolver, total_bytes);
        out.push(p);
        k = k + 1;
    }
    proof {
        assert forall|k: int| 0 <= k < out@.len() implies #[trigger] set.spec_fields()[k] == set.fields@[k]@ by {}
    }
    out
}

/// The plan of one field, when it gets one.
pub fn plan_if_fits(field: &Resolver, total_bytes: usize) -> (r: Option<Vec<ByteStep>>)
    ensures
        r is Some <==> planned(field@, total_bytes as int),
        r matches Some(p) ==> is_field_plan(p@, field@),
{
    let (msb, lsb): (bool, bool) = match &*field.ty {
        ResolverType::Primitive { resolver_strategy, .. } => (
            resolver_strategy.endianness.is_standard(),
            resolver_strategy.endianness.is_alternative(),
        ),
        ResolverType::Nested { .. } => (true, false),
        _ => (false, false),
    };
    let s: usize = field.data.bit_range.start;
    let e: usize = field.data.bit_range.end;
    let fits: bool = s < e && e - s <= 128 && e / 8 + (if e % 8 != 0 {
        1usize
    } else {
        0usize
    }) <= total_bytes && match field.data.flip {
        Some(f) => (e - 1) / 8 <= f && f < total_bytes,
        None => true,
    };
    if fits && lsb {
        Some(bits_plan_le(s, e, field.data.flip, total_bytes))
    } else if fits && msb {
        Some(bits_plan(s, e, field.data.flip, total_bytes))
    } else {
        None
    }
}

/// The dimensions of an array field, the outermost last (none for a single value).
pub open spec fn array_sizings(f: ResolverView) -> Seq<usize> {
    match f.ty {
        ResolverTypeView::Array { sizings, .. } => sizings,
        _ => Seq::empty(),
    }
}

/// The number of outermost elements of an array field.
pub open spec fn element_count_of(f: ResolverView) -> int {
    array_sizings(f).last() as int
}

/// Whether a field is a block array.
pub open spec fn is_block_array(f: ResolverView) -> bool {
    f.ty matches ResolverTypeView::Array { array_ty: ResolverArrayType::Block, .. }
}

/// Element `i` of an element array: an equal share of the field's bits, one after the other
/// from the field's first bit.
pub open spec fn array_element(f: ResolverView, i: int) -> ResolverView {
    match f.ty {
        ResolverTypeView::Array { sub_ty, array_ty, sizings } => {
            let size = f.bit_length() / (sizings.last() as int);
            let start = f.bit_range.start + i * size;
            element_view(
                spec_element_key(f.field_name, i as usize),
                element_type(sub_ty, array_ty, sizings),
                start,
                start + size,
                f.flip,
            )
        },
        _ => f,
    }
}

/// The bits one whole element of an array field takes.
pub open spec fn block_type_bits(f: ResolverView) -> int {
    match f.ty {
        ResolverTypeView::Array { sub_ty, .. } => sub_rust_size(sub_ty) * 8,
        _ => 0,
    }
}

/// The first bit of element `i` of a block array whose bits start at `start`, and the bits
/// left from there on, when `bits` bits hold the elements and a whole element takes
/// `type_bits`: each element takes the odd remainder, else a whole element.
pub open spec fn block_cursor(start: int, bits: int, type_bits: int, i: nat) -> (int, int)
    decreases i,
{
    if i == 0 {
        (start, bits)
    } else {
        let prev = block_cursor(start, bits, type_bits, (i - 1) as nat);
        let step = block_step(type_bits, prev.1);
        (prev.0 + step, prev.1 - step)
    }
}

/// Where element `i` of a block array of one dimension lies, as a field of its own.
pub open spec fn block_element(f: ResolverView, i: int) -> ResolverView {
    match f.ty {
        ResolverTypeView::Array { sub_ty, array_ty, sizings } => {
            let c = block_cursor(f.bit_range.start as int, f.bit_length(), block_type_bits(f), i as nat);
            let step = block_step(block_type_bits(f), c.1);
            element_view(
                spec_element_key(f.field_name, i as usize),
                element_type(sub_ty, array_ty, sizings),
                c.0,
                c.0 + step,
                f.flip,
            )
        },
        _ => f,
    }
}

/// Element `i` of an array field.
pub open spec fn element_of(f: ResolverView, i: int) -> ResolverView {
    if is_block_array(f) {
        block_element(f, i)
    } else {
        array_element(f, i)
    }
}

/// Whether the elements of a block array of one dimension can be walked: a whole element
/// takes 1 to `usize::MAX` bits, and bits are left before each element.
pub open spec fn blocks_walkable(f: ResolverView) -> bool {
    &&& 0 < block_type_bits(f) <= usize::MAX
    &&& forall|i: int|
        0 <= i < element_count_of(f) ==> (#[trigger] block_cursor(
            f.bit_range.start as int,
            f.bit_length(),
            block_type_bits(f),
            i as nat,
        )).1 > 0
}

/// Whether the outermost elements of an array field can be walked: an element array with at
/// least one element, or a block array of one dimension whose elements can be walked.
pub open spec fn walkable(f: ResolverView) -> bool {
    &&& f.ty is Array
    &&& array_sizings(f).len() >= 1
    &&& f.bit_range.start <= f.bit_range.end
    &&& if is_block_array(f) {
        array_sizings(f).len() == 1 && blocks_walkable(f)
    } else {
        array_sizings(f).last() > 0
    }
}

/// Walks the outermost elements of an array field as the generated code does; `None` for a
/// field that is no array or whose elements cannot be walked.
pub fn array_elements(field: &Resolver) -> (r: Option<Vec<Resolver>>)
    ensures
        r is Some <==> walkable(field@),
        r matches Some(v) ==> {
            &&& v@.len() == element_count_of(field@)
            &&& forall|i: int| 0 <= i < v@.len() ==> (#[trigger] v@[i])@ == element_of(field@, i)
        },
{
    let data = &field.data;
    match &*field.ty {
        ResolverType::Array { sub_ty, array_ty: ResolverArrayType::Element, sizings } => {
            if sizings.len() == 0 || data.bit_range.start > data.bit_range.end {
                return None;
            }
            let n: usize = sizings[sizings.len() - 1];
            if n == 0 {
                return None;
            }
            let mut it = match ElementArrayIter::from_values(data, sub_ty, &ResolverArrayType::Element, sizings) {
                Some(it) => it,
                None => return None,
            };
            let ghost first = it;
            proof {
                assert(sizings@.last() == n);
                let e = it.element_bit_size as int;
                assert(n * e <= data.bit_range.end - data.bit_range.start) by (nonlinear_arith)
                    requires
                        e == (data.bit_range.end - data.bit_range.start) / (n as int),
                        n > 0,
                        data.bit_range.start <= data.bit_range.end,
                ;
            }
            let mut out: Vec<Resolver> = Vec::new();
            let mut k: usize = 0;
            while k < n
                invariant
                    it.fits(),
                    it.element_range == (Range { start: k, end: n }),
                    it.outer_ident == first.outer_ident,
                    it.starting_bit_index == first.starting_bit_index,
                    it.ty == first.ty,
                    it.element_bit_size == first.element_bit_size,
                    it.flip == first.flip,
                    first.outer_ident == field@.field_name,
                    first.starting_bit_index == field@.bit_range.start,
                    first.ty@ == element_type(*sub_ty, ResolverArrayType::Element, sizings@),
                    first.element_bit_size == field@.bit_length() / (n as int),
                    first.flip == field@.flip,
                    field@.ty == (ResolverTypeView::Array { sub_ty: *sub_ty, array_ty: ResolverArrayType::Element, sizings: sizings@ }),
                    sizings@.len() >= 1,
                    sizings@.last() == n,
                    k <= n,
                    out@.len() == k,
                    forall|i: int| 0 <= i < k ==> (#[trigger] out@[i])@ == element_of(field@, i),
                decreases n - k,
            {
                match it.next() {
                    Some(res) => {
                        proof {
                            assert(res@ == element_of(field@, k as int));
                        }
                        out.push(res);
                    },
                    None => {
                        return None;
                    },
                }
                k = k + 1;
            }
            Some(out)
        },
        ResolverType::Array { sub_ty, array_ty: ResolverArrayType::Block, sizings } => {
            if sizings.len() != 1 || data.bit_range.start > data.bit_range.end {
                return None;
            }
            let bytes: usize = match sub_ty {
                ResolverSubType::Primitive { rust_size, .. } => rust_size.bytes(),
                ResolverSubType::Nested { rust_size } => *rust_size,
            };
            if bytes == 0 || bytes > usize::MAX / 8 {
                return None;
            }
            let n: usize = sizings[0];
            let mut it = match BlockArrayIter::from_values(data, sub_ty, &ResolverArrayType::Block, sizings) {
                Some(it) => it,
                None => return None,
            };
            let ghost f = field@;
            let ghost tb = block_type_bits(f);
            proof {
                assert(sizings@.last() == n);
                assert(sizings@.drop_last().len() == 0);
                assert(it.type_bits() == tb);
            }
            let mut out: Vec<Resolver> = Vec::new();
            let mut k: usize = 0;
            while k < n
                invariant
                    f == field@,
                    tb == block_type_bits(f),
                    0 < tb <= usize::MAX,
                    it.type_bits() == tb,
                    rust_size_fits(it.ty@),
                    it.ty@ == element_type(*sub_ty, ResolverArrayType::Block, sizings@),
                    it.outer_ident == f.field_name,
                    it.flip == f.flip,
                    it.total_elements == n,
                    it.remaining_elements == n - k,
                    (it.starting_bit_index as int, it.remaining_bits as int) == block_cursor(
                        f.bit_range.start as int,
                        f.bit_length(),
                        tb,
                        k as nat,
                    ),
                    it.starting_bit_index + it.remaining_bits == f.bit_range.end,
                    f.ty == (ResolverTypeView::Array { sub_ty: *sub_ty, array_ty: ResolverArrayType::Block, sizings: sizings@ }),
                    f.bit_range.start <= f.bit_range.end,
                    sizings@.len() == 1,
                    sizings@[0] == n,
                    k <= n,
                    out@.len() == k,
                    forall|i: int|
                        0 <= i < k ==> (#[trigger] block_cursor(f.bit_range.start as int, f.bit_length(), tb, i as nat)).1 > 0,
                    forall|i: int| 0 <= i < k ==> (#[trigger] out@[i])@ == element_of(f, i),
                decreases n - k,
            {
                if it.remaining_bits == 0 {
                    proof {
                        assert(block_cursor(f.bit_range.start as int, f.bit_length(), tb, k as nat).1 == 0);
                    }
                    return None;
                }
                match it.next() {
                    Some(res) => {
                        proof {
                            assert(res@ == element_of(f, k as int));
                            assert(block_cursor(f.bit_range.start as int, f.bit_length(), tb, (k + 1) as nat) == (
                                it.starting_bit_index as int,
                                it.remaining_bits as int,
                            ));
                        }
                        out.push(res);
                    },
                    None => {
                        return None;
                    },
                }
                k = k + 1;
            }
            Some(out)
        },
        _ => None,
    }
}

/// The byte plans of the elements of an array field: a plan (or none) per element for an
/// array of one dimension, the plans of each element's own elements otherwise.
#[derive(Debug, PartialEq)]
pub enum ArrayPlans {
    Values(Vec<Option<Vec<ByteStep>>>),
    Arrays(Vec<ArrayPlans>),
}

/// Whether `p` holds the byte plans of the elements of the array field `f`, element by
/// element and dimension by dimension.
pub open spec fn array_plans_of(f: ResolverView, total: int, p: ArrayPlans) -> bool
    decreases array_sizings(f).len(),
{
    &&& walkable(f)
    &&& match p {
        ArrayPlans::Values(v) => {
            &&& array_sizings(f).len() == 1
            &&& v@.len() == element_count_of(f)
            &&& forall|i: int|
                0 <= i < v@.len() ==> {
                    let el = element_of(f, i);
                    &&& (#[trigger] v@[i] is Some <==> planned(el, total))
                    &&& (v@[i] matches Some(q) ==> is_field_plan(q@, el))
                }
        },
        ArrayPlans::Arrays(a) => {
            &&& array_sizings(f).len() > 1
            &&& a@.len() == element_count_of(f)
            &&& forall|i: int|
                0 <= i < a@.len() ==> {
                    &&& array_sizings(element_of(f, i)).len() < array_sizings(f).len()
                    &&& array_plans_of(element_of(f, i), total, #[trigger] a@[i])
                }
        },
    }
}

/// Element `i` of the array field `f` can be walked at every depth and `subs[i]` holds its
/// plans.
pub open spec fn element_plans_ok(f: ResolverView, total: int, subs: Seq<ArrayPlans>, i: int) -> bool {
    &&& array_sizings(element_of(f, i)).len() < array_sizings(f).len()
    &&& deep_walkable(element_of(f, i))
    &&& array_plans_of(element_of(f, i), total, subs[i])
}

/// Whether every element, at every depth, of an array field can be walked.
pub open spec fn deep_walkable(f: ResolverView) -> bool
    decreases array_sizings(f).len(),
{
    &&& walkable(f)
    &&& array_sizings(f).len() > 1 ==> forall|i: int|
        0 <= i < element_count_of(f) ==> {
            &&& array_sizings(element_of(f, i)).len() < array_sizings(f).len()
            &&& deep_walkable(#[trigger] element_of(f, i))
        }
}

/// The element `i` of an element array of several dimensions is an array of one dimension
/// less.
proof fn lemma_element_dims(f: ResolverView, i: int)
    requires
        walkable(f),
        array_sizings(f).len() > 1,
    ensures
        !is_block_array(f),
        array_sizings(element_of(f, i)) == array_sizings(f).drop_last(),
{
}

/// Works out the byte plans of the elements of an array field, walking its elements as the
/// generated code does; `None` for a field that is no array or where an element at some
/// depth cannot be walked.
pub fn gen_array_plans(field: &Resolver, total_bytes: usize) -> (r: Option<ArrayPlans>)
    ensures
        r is Some <==> deep_walkable(field@),
        r matches Some(p) ==> array_plans_of(field@, total_bytes as int, p),
    decreases array_sizings(field@).len(),
{
    let elements = match array_elements(field) {
        Some(v) => v,
        None => {
            assert(!deep_walkable(field@));
            return None;
        },
    };
    let deep: bool = match &*field.ty {
        ResolverType::Array { sizings, .. } => sizings.len() > 1,
        _ => false,
    };
    assert(deep == (array_sizings(field@).len() > 1));
    if !deep {
        let mut plans: Vec<Option<Vec<ByteStep>>> = Vec::new();
        let mut k: usize = 0;
        while k < elements.len()
            invariant
                k <= elements@.len(),
                plans@.len() == k,
                forall|i: int|
                    0 <= i < k ==> {
                        let el = (#[trigger] elements@[i])@;
                        &&& (plans@[i] is Some <==> planned(el, total_bytes as int))
                        &&& (plans@[i] matches Some(q) ==> is_field_plan(q@, el))
                    },
            decreases elements@.len() - k,
        {
            plans.push(plan_if_fits(&elements[k], total_bytes));
            k = k + 1;
        }
        proof {
            assert forall|i: int| 0 <= i < plans@.len() implies {
                let el = element_of(field@, i);
                &&& (#[trigger] plans@[i] is Some <==> planned(el, total_bytes as int))
                &&& (plans@[i] matches Some(q) ==> is_field_plan(q@, el))
            } by {
                assert(elements@[i]@ == element_of(field@, i));
            }
        }
        let r = ArrayPlans::Values(plans);
        assert(deep_walkable(field@));
        assert(array_plans_of(field@, total_bytes as int, r));
        Some(r)
    } else {
        let mut subs: Vec<ArrayPlans> = Vec::new();
        let mut k: usize = 0;
        while k < elements.len()
            invariant
                walkable(field@),
                array_sizings(field@).len() > 1,
                elements@.len() == element_count_of(field@),
                forall|i: int| 0 <= i < elements@.len() ==> (#[trigger] elements@[i])@ == element_of(field@, i),
                k <= elements@.len(),
                subs@.len() == k,
                forall|i: int| 0 <= i < k ==> #[trigger] element_plans_ok(field@, total_bytes as int, subs@, i),
            decreases elements@.len() - k,
        {
            proof {
                lemma_element_dims(field@, k as int);
                assert(elements@[k as int]@ == element_of(field@, k as int));
            }
            let p = match gen_array_plans(&elements[k], total_bytes) {
                Some(p) => p,
                None => {
                    proof {
                        assert(!deep_walkable(element_of(field@, k as int)));
                    }
                    return None;
                },
            };
            let ghost before = subs@;
            subs.push(p);
            proof {
                assert forall|i: int| 0 <= i < k + 1 implies #[trigger] element_plans_ok(field@, total_bytes as int, subs@, i) by {
                    if i < k {
                        assert(element_plans_ok(field@, total_bytes as int, before, i));
                        assert(subs@[i] == before[i]);
                    } else {
                        lemma_element_dims(field@, i);
                    }
                }
            }
            k = k + 1;
        }
        let r = ArrayPlans::Arrays(subs);
        proof {
            assert forall|i: int| 0 <= i < subs@.len() implies {
                &&& array_sizings(element_of(field@, i)).len() < array_sizings(field@).len()
                &&& array_plans_of(element_of(field@, i), total_bytes as int, #[trigger] subs@[i])
            } by {
                assert(element_plans_ok(field@, total_bytes as int, subs@, i));
            }
            assert forall|i: int| 0 <= i < element_count_of(field@) implies {
                &&& array_sizings(element_of(field@, i)).len() < array_sizings(field@).len()
                &&& deep_walkable(#[trigger] element_of(field@, i))
            } by {
                assert(element_plans_ok(field@, total_bytes as int, subs@, i));
            }
            assert(deep_walkable(field@));
            assert(array_plans_of(field@, total_bytes as int, r));
        }
        Some(r)
    }
}

/// The byte plans of a solved enum of `total_bytes` bytes: the id field's, the default
/// variant's fields', and each variant's fields' with the variant's id; none for a
/// structure.
pub fn gen_enum_fields(solved: &Solved, total_bytes: usize) -> (r: Option<
    (Option<Vec<ByteStep>>, Vec<FieldPlan>, Vec<(VariantInfo, Vec<FieldPlan>)>),
>)
    ensures
        match &solved.ty {
            SolvedType::Struct(_) => r is None,
            SolvedType::Enum { id, invalid, variants, .. } => r matches Some((id_plan, invalid_plans, variant_plans)) && {
                &&& (id_plan is Some <==> planned(id@, total_bytes as int))
                &&& (id_plan matches Some(p) ==> is_field_plan(p@, id@))
                &&& plans_of(invalid.spec_fields(), total_bytes as int, invalid_plans@)
                &&& variant_plans@.len() == variants@.len()
                &&& forall|k: int|
                    0 <= k < variants@.len() ==> (#[trigger] variant_plans@[k]).0 == variants@[k].0 && plans_of(
                        variants@[k].1.spec_fields(),
                        total_bytes as int,
                        variant_plans@[k].1@,
                    )
            },
        },
{
    match &solved.ty {
        SolvedType::Struct(_) => None,
        SolvedType::Enum { id, invalid, variants, .. } => {
            let id_plan = plan_if_fits(&id.resolver, total_bytes);
            let invalid_plans = gen_struct_fields(invalid, total_bytes);
            let mut variant_plans: Vec<(VariantInfo, Vec<FieldPlan>)> = Vec::new();
            let mut k: usize = 0;
            while k < variants.len()
                invariant
                    k <= variants@.len(),
                    variant_plans@.len() == k,
                    forall|i: int|
                        0 <= i < k ==> (#[trigger] variant_plans@[i]).0 == variants@[i].0 && plans_of(
                            variants@[i].1.spec_fields(),
                            total_bytes as int,
                            variant_plans@[i].1@,
                        ),
                decreases variants@.len() - k,
            {
                let info = variants[k].0;
                variant_plans.push((info, gen_struct_fields(&variants[k].1, total_bytes)));
                k = k + 1;
            }
            Some((id_plan, invalid_plans, variant_plans))
        },
    }
}

/// The shape a step needs for a value's bits to go into its byte and come back: a run of
/// `bits` bits under its mask, whose shifts stay inside the byte and the value.
pub open spec fn step_shape(st: ByteStep) -> bool {
    &&& st.left_shift + st.bits <= 8
    &&& st.right_shift + st.bits <= 128
    &&& st.mask == (0xffu8 >> ((8 - st.bits) as u8)) << st.left_shift
}

/// The value's bits that a step carries, in their place in the value.
pub open spec fn step_value_bits(st: ByteStep) -> u128 {
    ones((st.right_shift + st.bits) as u128) & !ones(st.right_shift as u128)
}

/// The value's bits that the first `n` steps carry.
pub open spec fn covered(plan: Seq<ByteStep>, n: int) -> u128
    decreases n,
{
    if n <= 0 {
        0
    } else {
        covered(plan, n - 1) | step_value_bits(plan[n - 1])
    }
}

/// Steps that write the same byte write different bits of it.
pub open spec fn steps_apart(plan: Seq<ByteStep>) -> bool {
    forall|a: int, b: int|
        0 <= a < b < plan.len() ==> #[trigger] plan[a].byte != #[trigger] plan[b].byte || plan[a].mask & plan[b].mask == 0
}

proof fn lemma_bits_round_trip(v: u128, old: u8, mask: u8, ls: u8, rs: u32, cnt: u8)
    by (bit_vector)
    requires
        ls + cnt <= 8,
        rs + cnt <= 128,
        mask == (0xffu8 >> ((8 - cnt) as u8)) << ls,
    ensures
        read_byte_parts(write_byte_parts(old, mask, ls, rs, v) & mask, mask, ls, rs) == v & (ones((rs + cnt) as u128)
            & !ones(rs as u128)),
{
}

proof fn lemma_read_under_mask(b: u8, mask: u8, ls: u8, rs: u32)
    by (bit_vector)
    ensures
        read_byte_parts(b, mask, ls, rs) == read_byte_parts(b & mask, mask, ls, rs),
{
}

proof fn lemma_write_other_mask(x: u8, m: u8, ls: u8, rs: u32, v: u128, m2: u8)
    by (bit_vector)
    requires
        m & m2 == 0,
    ensures
        write_byte_parts(x, m, ls, rs, v) & m2 == x & m2,
{
}

proof fn lemma_write_own_mask(x: u8, y: u8, m: u8, ls: u8, rs: u32, v: u128)
    by (bit_vector)
    ensures
        write_byte_parts(x, m, ls, rs, v) & m == write_byte_parts(y, m, ls, rs, v) & m,
{
}

proof fn lemma_and_comm(a: u8, b: u8)
    by (bit_vector)
    ensures
        a & b == b & a,
{
}

proof fn lemma_or_and(v: u128, c: u128, d: u128)
    by (bit_vector)
    ensures
        (v & c) | (v & d) == v & (c | d),
        v & 0u128 == 0u128,
{
}

/// After writing through the first `n` steps, the bits under the mask of step `k < n` are
/// what step `k` wrote.
proof fn lemma_written_bits(bytes: Seq<u8>, plan: Seq<ByteStep>, v: u128, n: int, k: int)
    requires
        0 <= k < n <= plan.len(),
        forall|i: int| 0 <= i < plan.len() ==> (#[trigger] plan[i]).byte < bytes.len(),
        steps_apart(plan),
    ensures
        write_steps(bytes, plan, v, n)[plan[k].byte as int] & plan[k].mask == write_byte_parts(
            bytes[plan[k].byte as int],
            plan[k].mask,
            plan[k].left_shift,
            plan[k].right_shift,
            v,
        ) & plan[k].mask,
    decreases n,
{
    lemma_write_len(bytes, plan, v, n - 1);
    let prev = write_steps(bytes, plan, v, n - 1);
    let st = plan[n - 1];
    let sk = plan[k];
    if k < n - 1 {
        lemma_written_bits(bytes, plan, v, n - 1, k);
        if st.byte == sk.byte {
            assert(sk.mask & st.mask == 0);
            lemma_and_comm(sk.mask, st.mask);
            lemma_write_other_mask(prev[st.byte as int], st.mask, st.left_shift, st.right_shift, v, sk.mask);
        }
    } else {
        lemma_write_own_mask(prev[st.byte as int], bytes[st.byte as int], st.mask, st.left_shift, st.right_shift, v);
    }
}

/// Reading the first `n` steps of what a plan wrote gives the value's bits those steps carry.
proof fn lemma_read_covered(bytes: Seq<u8>, plan: Seq<ByteStep>, v: u128, n: int)
    requires
        0 <= n <= plan.len(),
        forall|i: int| 0 <= i < plan.len() ==> (#[trigger] plan[i]).byte < bytes.len(),
        forall|i: int| 0 <= i < plan.len() ==> step_shape(#[trigger] plan[i]),
        steps_apart(plan),
    ensures
        read_steps(write_steps(bytes, plan, v, plan.len() as int), plan, n) == v & covered(plan, n),
    decreases n,
{
    let len = plan.len() as int;
    let written = write_steps(bytes, plan, v, len);
    if n == 0 {
        lemma_or_and(v, 0, 0);
    } else {
        lemma_read_covered(bytes, plan, v, n - 1);
        let st = plan[n - 1];
        assert(step_shape(st));
        lemma_written_bits(bytes, plan, v, len, n - 1);
        let wb = written[st.byte as int];
        lemma_read_under_mask(wb, st.mask, st.left_shift, st.right_shift);
        lemma_bits_round_trip(v, bytes[st.byte as int], st.mask, st.left_shift, st.right_shift, st.bits);
        lemma_or_and(v, covered(plan, n - 1), step_value_bits(st));
    }
}

/// The byte index of the structure's byte `j`, counted from the last byte `f` when the byte
/// order is reversed.
pub open spec fn byte_index(flip: Option<usize>, j: int) -> usize {
    (match flip {
        Some(f) => f - j,
        None => j,
    }) as usize
}

/// The arithmetic of step `k` of the bits `a..b` holding the value's bits from `off` up.
proof fn lemma_span_arith(a: int, b: int, flip: Option<usize>, off: int, total: int, k: int)
    requires
        plan_fits(a, b, flip, total),
        0 <= off,
        off + (b - a) <= 128,
        0 <= k < plan_len(a, b),
    ensures
        ({
            let j = a / 8 + k;
            let st = span_step(a, b, flip, off, k);
            &&& 1 <= st.bits <= 8
            &&& st.bits == hi_bit(b, j) - lo_bit(a, j)
            &&& st.left_shift == 8 - hi_bit(b, j)
            &&& step_shape(st)
            &&& step_ok(st, total)
            &&& st.byte == byte_index(flip, j)
            &&& k == 0 ==> st.right_shift + st.bits == off + b - a
            &&& k > 0 ==> st.right_shift + st.bits == span_step(a, b, flip, off, k - 1).right_shift
            &&& k == plan_len(a, b) - 1 ==> st.right_shift == off
            &&& off <= st.right_shift
        }),
{
    let j = a / 8 + k;
    assert(8 * (a / 8) <= a < 8 * (a / 8) + 8);
    assert(8 * ((b - 1) / 8) <= b - 1 < 8 * ((b - 1) / 8) + 8);
    assert(8 * j <= b - 1);
    let cnt = hi_bit(b, j) - lo_bit(a, j);
    assert((cnt as u8) as int == cnt);
}

/// The number of value bytes of a field of bits `s..e`: its chunks of 8 bits, the last
/// holding the rest.
pub open spec fn le_chunks(s: int, e: int) -> int {
    (e - s + 7) / 8
}

/// Where chunk `i` of the bits `s..e` ends.
pub open spec fn chunk_end(s: int, e: int, i: int) -> int {
    if i < le_chunks(s, e) - 1 {
        s + 8 * i + 8
    } else {
        e
    }
}

/// Step `t` (0 or 1) of chunk `i` of a little endian field of bits `s..e`: the value's byte
/// `i` (its bits `8 * i` up) takes the chunk's bits, most significant first, in one or two
/// bytes of the structure; a chunk inside one byte has an empty second step.
pub open spec fn le_step(s: int, e: int, flip: Option<usize>, i: int, t: int) -> ByteStep {
    let a = s + 8 * i;
    let b = chunk_end(s, e, i);
    if t == 0 || plan_len(a, b) > 1 {
        span_step(a, b, flip, 8 * i, t)
    } else {
        ByteStep {
            byte: span_step(a, b, flip, 8 * i, 0).byte,
            mask: 0,
            left_shift: 0,
            right_shift: (8 * i) as u32,
            bits: 0,
        }
    }
}

/// Whether `plan` is the little endian plan of a field with bits `s..e`: two steps per
/// value byte, the least significant value byte first.
pub open spec fn is_le_plan(plan: Seq<ByteStep>, s: int, e: int, flip: Option<usize>) -> bool {
    &&& plan.len() == 2 * le_chunks(s, e)
    &&& forall|p: int| 0 <= p < plan.len() ==> #[trigger] plan[p] == le_step(s, e, flip, p / 2, p % 2)
}

/// Facts on chunk `i`: it lies inside the field, holds 1 to 8 bits, and the next chunk starts
/// where it ends.
proof fn lemma_chunk(s: int, e: int, i: int)
    requires
        0 <= s < e,
        0 <= i < le_chunks(s, e),
    ensures
        s + 8 * i < chunk_end(s, e, i) <= s + 8 * i + 8,
        chunk_end(s, e, i) <= e,
        i == le_chunks(s, e) - 1 ==> chunk_end(s, e, i) == e,
        i < le_chunks(s, e) - 1 ==> chunk_end(s, e, i) == s + 8 * (i + 1),
        (s + 8 * i) / 8 == s / 8 + i,
{
    assert(8 * ((e - s + 7) / 8) <= e - s + 7 < 8 * ((e - s + 7) / 8) + 8);
    assert((s + 8 * i) / 8 == s / 8 + i) by {
        assert(8 * (s / 8) <= s < 8 * (s / 8) + 8);
    }
}

/// Works out the little endian plan of a field: each byte of its value, the least
/// significant first, takes the next 8 of the field's bits (the last byte the rest), most
/// significant bit first, as the generated code writes a primitive's `to_le_bytes`.
pub fn field_access_plan_le(field: &SolvedData, total_bytes: usize) -> (r: Vec<ByteStep>)
    requires
        plan_fits(field@.bit_range.start as int, field@.bit_range.end as int, field@.flip, total_bytes as int),
    ensures
        is_le_plan(r@, field@.bit_range.start as int, field@.bit_range.end as int, field@.flip),
{
    bits_plan_le(field.resolver.data.bit_range.start, field.resolver.data.bit_range.end, field.resolver.data.flip, total_bytes)
}

/// The little endian plan of the bits `s..e`.
fn bits_plan_le(s: usize, e: usize, flip: Option<usize>, total_bytes: usize) -> (r: Vec<ByteStep>)
    requires
        plan_fits(s as int, e as int, flip, total_bytes as int),
    ensures
        is_le_plan(r@, s as int, e as int, flip),
{
    let chunks: usize = (e - s + 7) / 8;
    let mut plan: Vec<ByteStep> = Vec::new();
    let mut i: usize = 0;
    while i < chunks
        invariant
            plan_fits(s as int, e as int, flip, total_bytes as int),
            chunks == le_chunks(s as int, e as int),
            i <= chunks,
            plan@.len() == 2 * i,
            forall|p: int| 0 <= p < plan@.len() ==> #[trigger] plan@[p] == le_step(s as int, e as int, flip, p / 2, p % 2),
        decreases chunks - i,
    {
        proof {
            lemma_chunk(s as int, e as int, i as int);
        }
        let a: usize = s + 8 * i;
        let b: usize = if i < chunks - 1 {
            a + 8
        } else {
            e
        };
        let ghost before = plan@;
        proof {
            assert(plan_fits(a as int, b as int, flip, total_bytes as int));
        }
        push_span_steps(&mut plan, a, b, flip, (8 * i) as u32, total_bytes);
        if (b - 1) / 8 == a / 8 {
            let byte: usize = plan[plan.len() - 1].byte;
            plan.push(ByteStep { byte, mask: 0, left_shift: 0, right_shift: (8 * i) as u32, bits: 0 });
        }
        proof {
            assert forall|p: int| 0 <= p < plan@.len() implies #[trigger] plan@[p] == le_step(s as int, e as int, flip, p / 2, p % 2) by {
                if p >= 2 * i {
                    assert(p / 2 == i);
                    if p % 2 == 0 {
                        assert(plan@[p] == span_step(a as int, b as int, flip, 8 * i, 0));
                    } else if plan_len(a as int, b as int) > 1 {
                        assert(plan@[p] == span_step(a as int, b as int, flip, 8 * i, 1));
                    }
                } else {
                    assert(plan@[p] == before[p]);
                }
            }
        }
        i = i + 1;
    }
    plan
}

proof fn lemma_masks_apart(c1: u8, l1: u8, c2: u8, l2: u8)
    by (bit_vector)
    requires
        l1 + c1 <= 8,
        l2 + c2 <= l1,
    ensures
        ((0xffu8 >> ((8 - c1) as u8)) << l1) & ((0xffu8 >> ((8 - c2) as u8)) << l2) == 0,
{
}

proof fn lemma_zero_masks(x: u8)
    by (bit_vector)
    ensures
        x & 0 == 0,
        0u8 & x == 0,
        (0xffu8 >> ((8 - 0u8) as u8)) << 0u8 == 0,
{
}

proof fn lemma_ones_zero()
    by (bit_vector)
    ensures
        ones(0u128) == 0,
{
}

proof fn lemma_three_parts(oa: u128, ob: u128, oc: u128)
    by (bit_vector)
    requires
        oa & ob == oa,
        ob & oc == ob,
    ensures
        (oa | (oc & !ob)) | (ob & !oa) == oc,
{
}

/// The first step of chunk `i` of a little endian plan: its shape, its byte, and the value's
/// bits it carries (the top of the chunk's value bits `8 * i` up).
proof fn lemma_le_step0(s: int, e: int, flip: Option<usize>, total: int, i: int)
    requires
        plan_fits(s, e, flip, total),
        0 <= i < le_chunks(s, e),
    ensures
        ({
            let c = chunk_end(s, e, i) - (s + 8 * i);
            let st0 = le_step(s, e, flip, i, 0);
            &&& step_shape(st0)
            &&& st0.byte < total
            &&& st0.bits >= 1
            &&& st0.byte == byte_index(flip, s / 8 + i)
            &&& st0.left_shift + st0.bits == 8 - s % 8
            &&& st0.right_shift + st0.bits == 8 * i + c
            &&& 8 * i <= st0.right_shift
            &&& 1 <= c <= 8
            &&& 8 * i + c <= e - s
            &&& s / 8 + i <= (e - 1) / 8
            &&& (plan_len(s + 8 * i, chunk_end(s, e, i)) == 1 ==> st0.right_shift == 8 * i)
            &&& (i < le_chunks(s, e) - 1 ==> c == 8)
        }),
{
    lemma_chunk(s, e, i);
    let a = s + 8 * i;
    let b = chunk_end(s, e, i);
    assert(plan_fits(a, b, flip, total));
    lemma_span_arith(a, b, flip, 8 * i, total, 0);
    assert(8 * (s / 8) <= s < 8 * (s / 8) + 8);
    assert(lo_bit(a, a / 8) == s % 8);
    assert(8 * ((e - 1) / 8) <= e - 1 < 8 * ((e - 1) / 8) + 8);
}

/// The second step of chunk `i` of a little endian plan: empty when the chunk lies in one
/// byte, else the rest of the chunk's bits in the next byte, down to the chunk's value bit
/// `8 * i`.
proof fn lemma_le_step1(s: int, e: int, flip: Option<usize>, total: int, i: int)
    requires
        plan_fits(s, e, flip, total),
        0 <= i < le_chunks(s, e),
    ensures
        ({
            let st0 = le_step(s, e, flip, i, 0);
            let st1 = le_step(s, e, flip, i, 1);
            &&& step_shape(st1)
            &&& st1.byte < total
            &&& st1.bits == 0 ==> st1.mask == 0
            &&& st1.bits != 0 ==> st1.byte == byte_index(flip, s / 8 + i + 1) && s / 8 + i + 1 <= (e - 1) / 8
            &&& st1.bits != 0 ==> st1.left_shift + st1.bits == 8
            &&& st1.bits != 0 && i < le_chunks(s, e) - 1 ==> st1.bits == s % 8
            &&& st1.right_shift == 8 * i
            &&& st1.right_shift + st1.bits == st0.right_shift
        }),
{
    lemma_chunk(s, e, i);
    lemma_le_step0(s, e, flip, total, i);
    let a = s + 8 * i;
    let b = chunk_end(s, e, i);
    assert(plan_fits(a, b, flip, total));
    assert(8 * (s / 8) <= s < 8 * (s / 8) + 8);
    assert(8 * ((b - 1) / 8) <= b - 1 < 8 * ((b - 1) / 8) + 8);
    assert(8 * ((e - 1) / 8) <= e - 1 < 8 * ((e - 1) / 8) + 8);
    assert(plan_len(a, b) <= 2);
    if plan_len(a, b) > 1 {
        lemma_span_arith(a, b, flip, 8 * i, total, 1);
        lemma_span_arith(a, b, flip, 8 * i, total, 0);
    } else {
        lemma_zero_masks(0);
    }
}

/// Two steps `p < q` of a little endian plan write different bytes or different bits.
#[verifier::rlimit(40)]
proof fn lemma_le_pair_apart(plan: Seq<ByteStep>, s: int, e: int, flip: Option<usize>, total: int, p: int, q: int)
    requires
        plan_fits(s, e, flip, total),
        is_le_plan(plan, s, e, flip),
        0 <= p < q < plan.len(),
    ensures
        plan[p].byte != plan[q].byte || plan[p].mask & plan[q].mask == 0,
{
    let i = p / 2;
    let t = p % 2;
    let i2 = q / 2;
    let t2 = q % 2;
    assert(plan[p] == le_step(s, e, flip, i, t));
    assert(plan[q] == le_step(s, e, flip, i2, t2));
    assert(0 <= i <= i2 < le_chunks(s, e));
    lemma_le_step0(s, e, flip, total, i);
    lemma_le_step1(s, e, flip, total, i);
    lemma_le_step0(s, e, flip, total, i2);
    lemma_le_step1(s, e, flip, total, i2);
    let sp = plan[p];
    let sq = plan[q];
    if sp.bits == 0 || sq.bits == 0 {
        lemma_zero_masks(sp.mask);
        lemma_zero_masks(sq.mask);
    } else {
        let jp = s / 8 + i + t;
        let jq = s / 8 + i2 + t2;
        assert(sp.byte == byte_index(flip, jp));
        assert(sq.byte == byte_index(flip, jq));
        assert(0 <= jp <= (e - 1) / 8 && 0 <= jq <= (e - 1) / 8);
        if jp != jq {
            match flip {
                Some(f) => {
                    assert((f - jp) as usize == f - jp);
                    assert((f - jq) as usize == f - jq);
                },
                None => {
                    assert(jp as usize == jp && jq as usize == jq);
                },
            }
        } else {
            assert(t == 1 && t2 == 0 && i2 == i + 1);
            lemma_masks_apart(sp.bits, sp.left_shift, sq.bits, sq.left_shift);
        }
    }
}

/// The steps of a little endian plan that write one byte write different bits of it.
proof fn lemma_le_apart(plan: Seq<ByteStep>, s: int, e: int, flip: Option<usize>, total: int)
    requires
        plan_fits(s, e, flip, total),
        is_le_plan(plan, s, e, flip),
    ensures
        steps_apart(plan),
{
    assert forall|p: int, q: int| 0 <= p < q < plan.len() implies #[trigger] plan[p].byte != #[trigger] plan[q].byte
        || plan[p].mask & plan[q].mask == 0 by {
        lemma_le_pair_apart(plan, s, e, flip, total, p, q);
    }
}

/// The value bits the first `2 * i` steps of a little endian plan carry: the value's low
/// `8 * i` bits, and all of its bits once every chunk is done.
#[verifier::rlimit(40)]
proof fn lemma_le_covered(plan: Seq<ByteStep>, s: int, e: int, flip: Option<usize>, total: int, i: int)
    requires
        plan_fits(s, e, flip, total),
        is_le_plan(plan, s, e, flip),
        0 <= i <= le_chunks(s, e),
    ensures
        covered(plan, 2 * i) == ones((if i == le_chunks(s, e) { e - s } else { 8 * i }) as u128),
    decreases i,
{
    if i == 0 {
        lemma_ones_zero();
    } else {
        let k = i - 1;
        lemma_le_covered(plan, s, e, flip, total, k);
        lemma_le_step0(s, e, flip, total, k);
        lemma_le_step1(s, e, flip, total, k);
        lemma_chunk(s, e, k);
        let st0 = le_step(s, e, flip, k, 0);
        let st1 = le_step(s, e, flip, k, 1);
        assert(plan[2 * k] == st0);
        assert(plan[2 * k + 1] == st1);
        let c = chunk_end(s, e, k) - (s + 8 * k);
        let top = (8 * k + c) as u128;
        let low = (8 * k) as u128;
        let mid = st0.right_shift as u128;
        assert(covered(plan, 2 * k) == ones(low));
        assert(step_value_bits(st0) == ones(top) & !ones(mid));
        assert(step_value_bits(st1) == ones(mid) & !ones(low));
        assert(covered(plan, 2 * k + 1) == covered(plan, 2 * k) | step_value_bits(st0));
        assert(covered(plan, 2 * k + 2) == covered(plan, 2 * k + 1) | step_value_bits(st1));
        lemma_ones_mono(low, mid);
        lemma_ones_mono(mid, top);
        lemma_three_parts(ones(low), ones(mid), ones(top));
        assert(top == (if i == le_chunks(s, e) { e - s } else { 8 * i }) as u128);
        assert(2 * i == 2 * k + 2);
    }
}

/// Writing a value through a field's little endian plan and reading it back through the same
/// plan gives the value cut to the field's width; the bytes keep their number.
pub proof fn law_le_plan_write_then_read(bytes: Seq<u8>, plan: Seq<ByteStep>, s: int, e: int, flip: Option<usize>, v: u128)
    requires
        plan_fits(s, e, flip, bytes.len() as int),
        is_le_plan(plan, s, e, flip),
    ensures
        write_steps(bytes, plan, v, plan.len() as int).len() == bytes.len(),
        read_steps(write_steps(bytes, plan, v, plan.len() as int), plan, plan.len() as int) == v & ones((e - s) as u128),
{
    let total = bytes.len() as int;
    assert forall|p: int| 0 <= p < plan.len() implies (#[trigger] plan[p]).byte < bytes.len() && step_shape(plan[p]) by {
        lemma_le_step0(s, e, flip, total, p / 2);
        lemma_le_step1(s, e, flip, total, p / 2);
    }
    lemma_le_apart(plan, s, e, flip, total);
    lemma_write_len(bytes, plan, v, plan.len() as int);
    lemma_read_covered(bytes, plan, v, plan.len() as int);
    lemma_le_covered(plan, s, e, flip, total, le_chunks(s, e));
}

/// The position of the first variant from `from` on whose id is `id`, or `-1` when none is.
pub open spec fn first_with_id(v: Seq<(VariantInfo, SolvedFieldSet)>, id: int, from: int) -> int
    decreases v.len() - from,
{
    if from >= v.len() {
        -1
    } else if v[from].0.id == id {
        from
    } else {
        first_with_id(v, id, from + 1)
    }
}

/// The variant a read id selects, as the generated `from_bytes` matches it: the variant with
/// that id, or the default variant when none has it; `None` for a structure.
pub open spec fn spec_variant_of_id(s: Solved, id: int) -> Option<VariantInfo> {
    match s.ty {
        SolvedType::Struct(_) => None,
        SolvedType::Enum { invalid_name, variants, .. } => {
            let k = first_with_id(variants@, id, 0);
            Some(
                if k >= 0 {
                    variants@[k].0
                } else {
                    invalid_name
                },
            )
        },
    }
}

/// Picks the variant a read id selects: the variant with that id, else the default variant.
pub fn variant_of_id(solved: &Solved, id: u128) -> (r: Option<VariantInfo>)
    ensures
        r == spec_variant_of_id(*solved, id as int),
{
    match &solved.ty {
        SolvedType::Struct(_) => None,
        SolvedType::Enum { invalid_name, variants, .. } => {
            let ghost found = first_with_id(variants@, id as int, 0);
            assert(spec_variant_of_id(*solved, id as int) == Some(
                if found >= 0 {
                    variants@[found].0
                } else {
                    *invalid_name
                },
            ));
            let mut k: usize = 0;
            while k < variants.len()
                invariant
                    k <= variants@.len(),
                    found == first_with_id(variants@, id as int, 0),
                    spec_variant_of_id(*solved, id as int) == Some(
                        if found >= 0 {
                            variants@[found].0
                        } else {
                            *invalid_name
                        },
                    ),
                    first_with_id(variants@, id as int, 0) == first_with_id(variants@, id as int, k as int),
                decreases variants@.len() - k,
            {
                if variants[k].0.id as u128 == id {
                    assert(first_with_id(variants@, id as int, k as int) == k as int);
                    return Some(variants[k].0);
                }
                k = k + 1;
            }
            Some(*invalid_name)
        },
    }
}

/// In variants ordered by id, the first from `from` on with the id of variant `j` is `j`.
proof fn lemma_first_with_id(v: Seq<(VariantInfo, SolvedFieldSet)>, from: int, j: int)
    requires
        sorted_by_id(v),
        0 <= from <= j < v.len(),
    ensures
        first_with_id(v, v[j].0.id as int, from) == j,
    decreases j - from,
{
    if from < j {
        assert(v[from].0.id < v[j].0.id);
        lemma_first_with_id(v, from + 1, j);
    }
}

proof fn lemma_ones_step(x: u128, w: u128)
    by (bit_vector)
    requires
        1 <= w <= 128,
        (x >> 1u128) & ones((w - 1) as u128) == x >> 1u128,
    ensures
        x & ones(w) == x,
{
}

proof fn lemma_half(x: u128)
    by (bit_vector)
    ensures
        x >> 1u128 == x / 2,
        x == 0 ==> x & ones(0u128) == x,
{
}

/// A value below `2^w` keeps all its bits under the mask of the `w` lowest bits.
proof fn lemma_and_ones_below_pow2(x: u128, w: nat)
    requires
        w <= 128,
        x < pow2(w),
    ensures
        x & ones(w as u128) == x,
    decreases w,
{
    lemma_half(x);
    if w == 0 {
        assert(x == 0);
    } else {
        let h = x >> 1u128;
        assert(h < pow2((w - 1) as nat));
        lemma_and_ones_below_pow2(h, (w - 1) as nat);
        assert(((w - 1) as nat) as u128 == (w as u128 - 1) as u128);
        lemma_ones_step(x, w as u128);
    }
}

/// Writing the id of a variant of a solved enum through the id field's plan and reading the id
/// back through that plan selects that variant again; and an id no variant has selects the
/// default variant.
pub proof fn law_variant_id_round_trip(value: EnumBuilder, s: Solved, bytes: Seq<u8>, plan: Seq<ByteStep>, j: int, other: u128)
    requires
        enum_fits(value),
        spec_solve_enum(value) is Ok,
        enum_solved_as(s, spec_solve_enum(value)->Ok_0, value.solved_attrs),
        s.ty matches SolvedType::Enum { id, variants, .. } && {
            &&& 0 <= j < variants@.len()
            &&& planned(id@, bytes.len() as int)
            &&& is_field_plan(plan, id@)
        },
    ensures
        s.ty matches SolvedType::Enum { variants, invalid_name, .. } && {
            let written = write_steps(bytes, plan, variants@[j].0.id as u128, plan.len() as int);
            &&& written.len() == bytes.len()
            &&& spec_variant_of_id(s, read_steps(written, plan, plan.len() as int) as int) == Some(variants@[j].0)
            &&& (forall|i: int| 0 <= i < variants@.len() ==> (#[trigger] variants@[i]).0.id != other) ==> spec_variant_of_id(
                s,
                other as int,
            ) == Some(invalid_name)
        },
{
    law_solved_enum_ids(value, s);
    if let SolvedType::Enum { id, variants, invalid_name, .. } = s.ty {
        let v = spec_solve_enum(value)->Ok_0;
        let idf = spec_id_stage(value)->Ok_0.1;
        let x = variants@[j].0.id;
        let st = id@.bit_range.start as int;
        let en = id@.bit_range.end as int;
        assert(id@ == v.id);
        assert(en - st == idf.bit_range.end - idf.bit_range.start);
        assert(idf.bit_range.start == 0);
        assert(x < pow2(idf.bit_range.end as nat));
        assert((en - st) as nat == idf.bit_range.end as nat);
        lemma_and_ones_below_pow2(x as u128, (en - st) as nat);
        if lsb_chunks(id@) {
            law_le_plan_write_then_read(bytes, plan, st, en, id@.flip, x as u128);
        } else {
            law_plan_write_then_read(bytes, plan, st, en, id@.flip, x as u128);
        }
        lemma_first_with_id(variants@, 0, j);
        if forall|i: int| 0 <= i < variants@.len() ==> (#[trigger] variants@[i]).0.id != other {
            lemma_no_id(variants@, other as int, 0);
        }
    }
}

/// When no variant has the id, none is found from any position on.
proof fn lemma_no_id(v: Seq<(VariantInfo, SolvedFieldSet)>, id: int, from: int)
    requires
        0 <= from,
        forall|i: int| 0 <= i < v.len() ==> (#[trigger] v[i]).0.id != id,
    ensures
        first_with_id(v, id, from) == -1,
    decreases v.len() - from,
{
    if from < v.len() {
        assert(v[from].0.id != id);
        lemma_no_id(v, id, from + 1);
    }
}

/// Step `st` touches, of the structure's byte `j`, only bits of the field's bits `s..e`: its
/// run of `bits` bits ends `left_shift` bits before the byte's end.
pub open spec fn step_within(st: ByteStep, s: int, e: int, flip: Option<usize>, j: int) -> bool {
    &&& st.byte == byte_index(flip, j)
    &&& 0 <= j <= (e - 1) / 8
    &&& step_shape(st)
    &&& (st.bits > 0 ==> s <= 8 * j + 8 - st.left_shift - st.bits && 8 * j + 8 - st.left_shift <= e)
    &&& (st.bits == 0 ==> st.mask == 0)
}

/// Each step of a span's steps touches only the span's bits.
proof fn lemma_span_step_within(a: int, b: int, flip: Option<usize>, off: int, total: int, k: int)
    requires
        plan_fits(a, b, flip, total),
        0 <= off,
        off + (b - a) <= 128,
        0 <= k < plan_len(a, b),
    ensures
        step_within(span_step(a, b, flip, off, k), a, b, flip, a / 8 + k),
{
    lemma_span_arith(a, b, flip, off, total, k);
    assert(8 * (a / 8) <= a < 8 * (a / 8) + 8);
    assert(8 * ((b - 1) / 8) <= b - 1 < 8 * ((b - 1) / 8) + 8);
}

/// The structure's byte whose bits step `p` of a field's plan touches, all of them the
/// field's bits.
proof fn lemma_plan_step_within(plan: Seq<ByteStep>, f: ResolverView, total: int, p: int) -> (j: int)
    requires
        planned(f, total),
        is_field_plan(plan, f),
        0 <= p < plan.len(),
    ensures
        step_within(plan[p], f.bit_range.start as int, f.bit_range.end as int, f.flip, j),
{
    let s = f.bit_range.start as int;
    let e = f.bit_range.end as int;
    if lsb_chunks(f) {
        let i = p / 2;
        let t = p % 2;
        assert(plan[p] == le_step(s, e, f.flip, i, t));
        lemma_chunk(s, e, i);
        let a = s + 8 * i;
        let b = chunk_end(s, e, i);
        assert(plan_fits(a, b, f.flip, total));
        assert(8 * ((b - 1) / 8) <= b - 1 < 8 * ((b - 1) / 8) + 8);
        assert(8 * ((e - 1) / 8) <= e - 1 < 8 * ((e - 1) / 8) + 8);
        if t == 0 || plan_len(a, b) > 1 {
            lemma_span_step_within(a, b, f.flip, 8 * i, total, t);
            a / 8 + t
        } else {
            lemma_span_step_within(a, b, f.flip, 8 * i, total, 0);
            lemma_zero_masks(0);
            a / 8
        }
    } else {
        assert(plan[p] == span_step(s, e, f.flip, 0, p));
        lemma_span_step_within(s, e, f.flip, 0, total, p);
        s / 8 + p
    }
}

/// Steps of two fields with no bit in common write different bytes or different bits.
proof fn lemma_steps_of_apart_fields(st: ByteStep, s1: int, e1: int, j1: int, sg: ByteStep, s2: int, e2: int, j2: int, flip: Option<usize>, total: int)
    requires
        step_within(st, s1, e1, flip, j1),
        step_within(sg, s2, e2, flip, j2),
        plan_fits(s1, e1, flip, total),
        plan_fits(s2, e2, flip, total),
        e1 <= s2 || e2 <= s1,
    ensures
        st.byte != sg.byte || st.mask & sg.mask == 0,
{
    if st.bits == 0 || sg.bits == 0 {
        lemma_zero_masks(st.mask);
        lemma_zero_masks(sg.mask);
    } else if j1 != j2 {
        match flip {
            Some(f) => {
                assert((f - j1) as usize == f - j1);
                assert((f - j2) as usize == f - j2);
            },
            None => {
                assert(j1 as usize == j1 && j2 as usize == j2);
            },
        }
    } else if e1 <= s2 {
        lemma_masks_apart(st.bits, st.left_shift, sg.bits, sg.left_shift);
    } else {
        lemma_masks_apart(sg.bits, sg.left_shift, st.bits, st.left_shift);
        lemma_and_comm(sg.mask, st.mask);
    }
}

/// Writing through the first `n` steps keeps the bits of byte `idx` under `m` when no step
/// on that byte writes under `m`.
proof fn lemma_write_keeps_masked(bytes: Seq<u8>, plan: Seq<ByteStep>, v: u128, n: int, idx: int, m: u8)
    requires
        0 <= n <= plan.len(),
        0 <= idx < bytes.len(),
        forall|q: int| 0 <= q < plan.len() ==> (#[trigger] plan[q]).byte < bytes.len(),
        forall|q: int| 0 <= q < n && (#[trigger] plan[q]).byte == idx ==> plan[q].mask & m == 0,
    ensures
        write_steps(bytes, plan, v, n)[idx] & m == bytes[idx] & m,
    decreases n,
{
    if n > 0 {
        lemma_write_keeps_masked(bytes, plan, v, n - 1, idx, m);
        lemma_write_len(bytes, plan, v, n - 1);
        let prev = write_steps(bytes, plan, v, n - 1);
        let st = plan[n - 1];
        if st.byte == idx {
            lemma_write_other_mask(prev[idx], st.mask, st.left_shift, st.right_shift, v, m);
        }
    }
}

/// Reading the first `n` steps depends only on the bits under the steps' masks.
proof fn lemma_read_masked(b1: Seq<u8>, b2: Seq<u8>, plan: Seq<ByteStep>, n: int)
    requires
        0 <= n <= plan.len(),
        forall|q: int|
            0 <= q < n ==> b1[(#[trigger] plan[q]).byte as int] & plan[q].mask == b2[plan[q].byte as int] & plan[q].mask,
    ensures
        read_steps(b1, plan, n) == read_steps(b2, plan, n),
    decreases n,
{
    if n > 0 {
        lemma_read_masked(b1, b2, plan, n - 1);
        let st = plan[n - 1];
        lemma_read_under_mask(b1[st.byte as int], st.mask, st.left_shift, st.right_shift);
        lemma_read_under_mask(b2[st.byte as int], st.mask, st.left_shift, st.right_shift);
    }
}

/// Writing one field through its plan leaves what another field's plan reads as it was,
/// when the two fields have no bit in common and count their bytes the same way: so the
/// fields of a structure, which never share a bit, can be written in any order and each read
/// back.
pub proof fn law_write_keeps_other_fields(bytes: Seq<u8>, pf: Seq<ByteStep>, f: ResolverView, pg: Seq<ByteStep>, g: ResolverView, v: u128)
    requires
        planned(f, bytes.len() as int),
        planned(g, bytes.len() as int),
        is_field_plan(pf, f),
        is_field_plan(pg, g),
        f.flip == g.flip,
        f.bit_range.end <= g.bit_range.start || g.bit_range.end <= f.bit_range.start,
    ensures
        write_steps(bytes, pg, v, pg.len() as int).len() == bytes.len(),
        read_steps(write_steps(bytes, pg, v, pg.len() as int), pf, pf.len() as int) == read_steps(bytes, pf, pf.len() as int),
{
    let total = bytes.len() as int;
    let s1 = f.bit_range.start as int;
    let e1 = f.bit_range.end as int;
    let s2 = g.bit_range.start as int;
    let e2 = g.bit_range.end as int;
    assert forall|q: int| 0 <= q < pg.len() implies (#[trigger] pg[q]).byte < bytes.len() by {
        let j = lemma_plan_step_within(pg, g, total, q);
        assert(8 * ((e2 - 1) / 8) <= e2 - 1);
        match g.flip {
            Some(fl) => {
                assert((fl - j) as usize == fl - j);
            },
            None => {
                assert(j as usize == j);
            },
        }
    }
    lemma_write_len(bytes, pg, v, pg.len() as int);
    let written = write_steps(bytes, pg, v, pg.len() as int);
    assert forall|p: int| 0 <= p < pf.len() implies written[(#[trigger] pf[p]).byte as int] & pf[p].mask
        == bytes[pf[p].byte as int] & pf[p].mask by {
        let jf = lemma_plan_step_within(pf, f, total, p);
        assert(8 * ((e1 - 1) / 8) <= e1 - 1);
        match f.flip {
            Some(fl) => {
                assert((fl - jf) as usize == fl - jf);
            },
            None => {
                assert(jf as usize == jf);
            },
        }
        assert forall|q: int| 0 <= q < pg.len() && (#[trigger] pg[q]).byte == pf[p].byte implies pg[q].mask & pf[p].mask
            == 0 by {
            let jg = lemma_plan_step_within(pg, g, total, q);
            lemma_steps_of_apart_fields(pf[p], s1, e1, jf, pg[q], s2, e2, jg, f.flip, total);
            lemma_and_comm(pf[p].mask, pg[q].mask);
        }
        lemma_write_keeps_masked(bytes, pg, v, pg.len() as int, pf[p].byte as int, pf[p].mask);
    }
    lemma_read_masked(written, bytes, pf, pf.len() as int);
}

/// The bytes after writing `values[i]` through `plans[i]` for each of the first `n` fields in
/// turn, as a generated `into_bytes` does.
pub open spec fn write_fields(bytes: Seq<u8>, plans: Seq<Seq<ByteStep>>, values: Seq<u128>, n: int) -> Seq<u8>
    decreases n,
{
    if n <= 0 {
        bytes
    } else {
        let b = write_fields(bytes, plans, values, n - 1);
        write_steps(b, plans[n - 1], values[n - 1], plans[n - 1].len() as int)
    }
}

/// Whether `plans` are the plans of `fields`, all planned inside `total` bytes, counting their
/// bytes the same way, no two sharing a bit.
pub open spec fn fields_planned_apart(fields: Seq<ResolverView>, plans: Seq<Seq<ByteStep>>, total: int) -> bool {
    &&& plans.len() == fields.len()
    &&& forall|i: int| 0 <= i < fields.len() ==> planned(#[trigger] fields[i], total) && is_field_plan(plans[i], fields[i])
    &&& forall|i: int| 0 <= i < fields.len() ==> (#[trigger] fields[i]).flip == fields[0].flip
    &&& forall|i: int, j: int|
        0 <= i < j < fields.len() ==> (#[trigger] fields[i]).bit_range.end <= (#[trigger] fields[j]).bit_range.start
            || fields[j].bit_range.end <= fields[i].bit_range.start
}

/// Writing the fields in turn keeps the number of bytes.
proof fn lemma_write_fields_len(bytes: Seq<u8>, fields: Seq<ResolverView>, plans: Seq<Seq<ByteStep>>, values: Seq<u128>, n: int)
    requires
        fields_planned_apart(fields, plans, bytes.len() as int),
        values.len() == fields.len(),
        0 <= n <= fields.len(),
    ensures
        write_fields(bytes, plans, values, n).len() == bytes.len(),
    decreases n,
{
    if n > 0 {
        lemma_write_fields_len(bytes, fields, plans, values, n - 1);
        let b = write_fields(bytes, plans, values, n - 1);
        assert(planned(fields[n - 1], bytes.len() as int));
        let f = fields[n - 1];
        if lsb_chunks(f) {
            law_le_plan_write_then_read(b, plans[n - 1], f.bit_range.start as int, f.bit_range.end as int, f.flip, values[n - 1]);
        } else {
            law_plan_write_then_read(b, plans[n - 1], f.bit_range.start as int, f.bit_range.end as int, f.flip, values[n - 1]);
        }
    }
}

/// Writing every field of a structure through its plan, in turn, and then reading field `k`
/// back through its plan gives the value written to it, cut to the field's width: what
/// `from_bytes` gives back of `into_bytes`, field by field.
pub proof fn law_write_fields_then_read(bytes: Seq<u8>, fields: Seq<ResolverView>, plans: Seq<Seq<ByteStep>>, values: Seq<u128>, k: int)
    requires
        fields_planned_apart(fields, plans, bytes.len() as int),
        values.len() == fields.len(),
        0 <= k < fields.len(),
    ensures
        write_fields(bytes, plans, values, fields.len() as int).len() == bytes.len(),
        read_steps(write_fields(bytes, plans, values, fields.len() as int), plans[k], plans[k].len() as int) == values[k]
            & ones(fields[k].bit_length() as u128),
{
    lemma_write_fields_len(bytes, fields, plans, values, fields.len() as int);
    lemma_read_after_writes(bytes, fields, plans, values, k, fields.len() as int);
}

/// Field `k` reads its value back after the first `n > k` fields are written.
proof fn lemma_read_after_writes(bytes: Seq<u8>, fields: Seq<ResolverView>, plans: Seq<Seq<ByteStep>>, values: Seq<u128>, k: int, n: int)
    requires
        fields_planned_apart(fields, plans, bytes.len() as int),
        values.len() == fields.len(),
        0 <= k < n <= fields.len(),
    ensures
        read_steps(write_fields(bytes, plans, values, n), plans[k], plans[k].len() as int) == values[k] & ones(
            fields[k].bit_length() as u128,
        ),
    decreases n,
{
    let total = bytes.len() as int;
    lemma_write_fields_len(bytes, fields, plans, values, n - 1);
    let b = write_fields(bytes, plans, values, n - 1);
    let f = fields[k];
    assert(planned(f, total));
    if n - 1 == k {
        if lsb_chunks(f) {
            law_le_plan_write_then_read(b, plans[k], f.bit_range.start as int, f.bit_range.end as int, f.flip, values[k]);
        } else {
            law_plan_write_then_read(b, plans[k], f.bit_range.start as int, f.bit_range.end as int, f.flip, values[k]);
        }
    } else {
        lemma_read_after_writes(bytes, fields, plans, values, k, n - 1);
        let g = fields[n - 1];
        assert(planned(g, total));
        assert(f.flip == fields[0].flip && g.flip == fields[0].flip);
        assert(f.bit_range.end <= g.bit_range.start || g.bit_range.end <= f.bit_range.start);
        law_write_keeps_other_fields(b, plans[k], f, plans[n - 1], g, values[n - 1]);
    }
}

} // verus!
