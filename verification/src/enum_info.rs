use crate::struct_info::AttrInfo as StructAttrInfo;
use crate::variants::spec_bits_needed;
use vstd::prelude::*;

verus! {

/// Where an enum's id field goes.
#[derive(Clone, Copy, Debug, PartialEq, Eq)]
pub enum IdPosition {
    Leading,
    Trailing,
}

/// The decided sizes of an enum whose id and payload sizes come from its attributes.
#[derive(Clone, Copy, Debug)]
pub struct AttrInfo {
    pub id_bits: usize,
    pub id_position: IdPosition,
    /// The largest variant's size, which every variant is filled up to.
    pub payload_bit_size: usize,
    pub attrs: StructAttrInfo,
}

/// The sizes an enum's attributes give, before they are decided.
#[derive(Clone, Copy, Debug)]
pub struct AttrInfoBuilder {
    pub id_bits: Option<usize>,
    pub id_position: IdPosition,
    pub total_bit_size: Option<usize>,
    pub payload_bit_size: Option<usize>,
}

impl Default for AttrInfoBuilder {
    fn default() -> (r: Self)
        ensures
            r.id_bits is None,
            r.id_position == IdPosition::Leading,
            r.total_bit_size is None,
            r.payload_bit_size is None,
    {
        Self { id_bits: None, id_position: IdPosition::Leading, total_bit_size: None, payload_bit_size: None }
    }
}

/// Why an enum's sizes were refused.
#[derive(Clone, Copy, Debug, PartialEq, Eq)]
pub enum EnumSizeError {
    /// The total given is not larger than the largest variant, leaving no room for the id.
    NoRoomForId,
    /// Id, payload and total were all given but do not add up.
    SizesDisagree { id: usize, payload: usize, total: usize },
    /// A variant is larger than the payload given.
    VariantOverPayload,
    /// The id is smaller than the ids need.
    IdTooSmall,
    /// The payload and id are smaller than the largest variant.
    PayloadTooSmall,
    /// Neither the id's length nor both the payload and the total were given.
    NoIdLength,
}

/// The id and payload sizes the attributes decide, before the final checks.
pub open spec fn spec_enum_sizes(b: AttrInfoBuilder, largest: int, min_id_size: int) -> Result<(int, int), EnumSizeError> {
    match (b.payload_bit_size, b.total_bit_size) {
        (Some(payload), None) => match b.id_bits {
            Some(id) => Ok((id as int, payload as int)),
            None => Ok((min_id_size, payload as int)),
        },
        (None, Some(total)) => match b.id_bits {
            Some(id) => Ok((id as int, total - id)),
            None => if largest < total {
                Ok((total - largest, largest))
            } else {
                Err(EnumSizeError::NoRoomForId)
            },
        },
        (Some(payload), Some(total)) => match b.id_bits {
            Some(id) => if payload + id != total {
                Err(EnumSizeError::SizesDisagree { id, payload, total })
            } else if payload < largest {
                Err(EnumSizeError::VariantOverPayload)
            } else {
                Ok((id as int, payload as int))
            },
            None => Ok((min_id_size, largest)),
        },
        (None, None) => match b.id_bits {
            Some(id) => Ok((id as int, largest)),
            None => Ok((min_id_size, largest)),
        },
    }
}

/// The sums the decision makes stay inside `usize`.
pub open spec fn enum_sizes_fit(b: AttrInfoBuilder, largest: int, min_id_size: int) -> bool {
    &&& match (b.payload_bit_size, b.total_bit_size, b.id_bits) {
        (Some(p), Some(_), Some(id)) => p + id <= usize::MAX,
        (None, Some(t), Some(id)) => id <= t,
        _ => true,
    }
    &&& (spec_enum_sizes(b, largest, min_id_size) matches Ok((id, payload)) ==> id + payload <= usize::MAX)
}

/// Decides an enum's id and payload sizes from the sizes its attributes give, the largest
/// variant and the bits its largest id needs, and checks that they hold every variant and id.
pub fn resolve_enum_attrs(
    builder: &AttrInfoBuilder,
    attrs: &StructAttrInfo,
    largest: usize,
    min_id_size: usize,
) -> (r: Result<AttrInfo, EnumSizeError>)
    requires
        enum_sizes_fit(*builder, largest as int, min_id_size as int),
    ensures
        match spec_enum_sizes(*builder, largest as int, min_id_size as int) {
            Err(e) => r == Err::<AttrInfo, EnumSizeError>(e),
            Ok((id, payload)) => if id < min_id_size {
                r == Err::<AttrInfo, EnumSizeError>(EnumSizeError::IdTooSmall)
            } else if payload + id < largest {
                r == Err::<AttrInfo, EnumSizeError>(EnumSizeError::PayloadTooSmall)
            } else {
                r matches Ok(info) && {
                    &&& info.id_bits == id
                    &&& info.payload_bit_size == payload
                    &&& info.id_position == builder.id_position
                    &&& info.attrs == *attrs
                }
            },
        },
{
    let (id_bits, payload_bit_size): (usize, usize) = match (builder.payload_bit_size, builder.total_bit_size) {
        (Some(payload), None) => match builder.id_bits {
            Some(id) => (id, payload),
            None => (min_id_size, payload),
        },
        (None, Some(total)) => match builder.id_bits {
            Some(id) => (id, total - id),
            None => {
                if largest < total {
                    (total - largest, largest)
                } else {
                    return Err(EnumSizeError::NoRoomForId);
                }
            },
        },
        (Some(payload), Some(total)) => match builder.id_bits {
            Some(id) => {
                if payload + id != total {
                    return Err(EnumSizeError::SizesDisagree { id, payload, total });
                }
                if payload < largest {
                    return Err(EnumSizeError::VariantOverPayload);
                }
                (id, payload)
            },
            None => (min_id_size, largest),
        },
        (None, None) => match builder.id_bits {
            Some(id) => (id, largest),
            None => (min_id_size, largest),
        },
    };
    if id_bits < min_id_size {
        return Err(EnumSizeError::IdTooSmall);
    }
    if payload_bit_size + id_bits < largest {
        return Err(EnumSizeError::PayloadTooSmall);
    }
    Ok(AttrInfo { id_bits, id_position: builder.id_position, payload_bit_size, attrs: *attrs })
}

/// A decided enum keeps the sizes its attributes give: the id and payload add up to the
/// total, and a given payload or id is the one used (unless payload and total are given
/// without an id, when both are set aside).
pub proof fn law_resolved_sizes_hold_variants(b: AttrInfoBuilder, largest: int, min_id_size: int)
    requires
        spec_enum_sizes(b, largest, min_id_size) is Ok,
        spec_enum_sizes(b, largest, min_id_size)->Ok_0.0 >= min_id_size,
        spec_enum_sizes(b, largest, min_id_size)->Ok_0.0 + spec_enum_sizes(b, largest, min_id_size)->Ok_0.1 >= largest,
        b.total_bit_size matches Some(t) ==> b.payload_bit_size is Some || b.id_bits is Some || largest < t,
        !(b.payload_bit_size is Some && b.total_bit_size is Some && b.id_bits is None),
    ensures
        ({
            let (id, payload) = spec_enum_sizes(b, largest, min_id_size)->Ok_0;
            &&& b.total_bit_size matches Some(t) ==> id + payload == t
            &&& b.payload_bit_size matches Some(p) ==> payload == p
            &&& b.id_bits matches Some(i) ==> id == i
        }),
{
}

/// The width in bits of the unsigned type that holds an id of `id_bits` bits; none above 128.
pub fn id_type_width(id_bits: usize) -> (r: Option<usize>)
    ensures
        id_bits <= 8 ==> r == Some(8usize),
        8 < id_bits <= 16 ==> r == Some(16usize),
        16 < id_bits <= 32 ==> r == Some(32usize),
        32 < id_bits <= 64 ==> r == Some(64usize),
        64 < id_bits <= 128 ==> r == Some(128usize),
        128 < id_bits ==> r is None,
{
    if id_bits <= 8 {
        Some(8)
    } else if id_bits <= 16 {
        Some(16)
    } else if id_bits <= 32 {
        Some(32)
    } else if id_bits <= 64 {
        Some(64)
    } else if id_bits <= 128 {
        Some(128)
    } else {
        None
    }
}


/// Why the ids of an enum's variants were refused.
#[derive(Clone, Copy, Debug, PartialEq, Eq)]
pub enum VariantIdError {
    /// The variant at this position repeats a declared id.
    IdUsedTwice(usize),
    /// The variant at this position is a second catch-all variant.
    SecondInvalid(usize),
    /// The enum has no variant.
    NoVariants,
}

/// Whether `x` is one of the values of `v`.
fn contains_u128(v: &Vec<u128>, x: u128) -> (r: bool)
    ensures
        r == v@.contains(x),
{
    let mut i: usize = 0;
    while i < v.len()
        invariant
            i <= v.len(),
            forall|j: int| 0 <= j < i ==> v@[j] != x,
        decreases v.len() - i,
    {
        if v[i] == x {
            return true;
        }
        i = i + 1;
    }
    false
}

/// The declared ids of the first `n` variants, or the first variant that repeats one or is
/// a second catch-all variant.
pub open spec fn spec_old_checks(declared: Seq<Option<u128>>, invalid: Seq<bool>, n: int) -> Result<(Seq<u128>, Option<usize>), VariantIdError>
    decreases n,
{
    if n <= 0 {
        Ok((Seq::empty(), None))
    } else {
        match spec_old_checks(declared, invalid, n - 1) {
            Err(e) => Err(e),
            Ok((used, inv)) => {
                let k = n - 1;
                let used2 = match declared[k] {
                    Some(v) => if used.contains(v) {
                        None
                    } else {
                        Some(used.push(v))
                    },
                    None => Some(used),
                };
                match used2 {
                    None => Err(VariantIdError::IdUsedTwice(k as usize)),
                    Some(u) => if invalid[k] {
                        if inv is None {
                            Ok((u, Some(k as usize)))
                        } else {
                            Err(VariantIdError::SecondInvalid(k as usize))
                        }
                    } else {
                        Ok((u, inv))
                    },
                }
            },
        }
    }
}

/// Whether the ids `ids` keep every declared id, give each other variant an id no variant
/// declared, and repeat no id.
pub open spec fn ids_fit_declarations(declared: Seq<Option<u128>>, ids: Seq<u128>) -> bool {
    &&& ids.len() == declared.len()
    &&& forall|k: int| 0 <= k < declared.len() && (#[trigger] declared[k]) is Some ==> ids[k] == declared[k]->Some_0
    &&& forall|a: int, b: int| 0 <= a < b < ids.len() ==> #[trigger] ids[a] != #[trigger] ids[b]
}

/// Whether some variant declares the id `h`.
pub open spec fn declares(declared: Seq<Option<u128>>, h: u128) -> bool {
    exists|a: int| 0 <= a < declared.len() && declared[a] == Some(h)
}

/// Whether each variant that declares no id has the smallest id that no variant declares
/// and no variant before it was given.
pub open spec fn takes_lowest_free(declared: Seq<Option<u128>>, ids: Seq<u128>) -> bool {
    forall|k: int, h: u128|
        0 <= k < declared.len() && (#[trigger] declared[k]) is None && (h as int) < ids[k] ==> declares(declared, h)
            || #[trigger] ids.take(k).contains(h)
}

/// Gives the variants of an enum their ids: each keeps the id it
/// declares, and the others, in declaration order, get the smallest ids not taken yet
/// counting up from zero. Also finds the catch-all variant. Refuses a repeated declared id
/// and a second catch-all variant.
pub fn assign_variant_ids(declared: &Vec<Option<u128>>, invalid: &Vec<bool>) -> (r: Result<(Vec<u128>, Option<usize>), VariantIdError>)
    requires
        invalid@.len() == declared@.len(),
        declared@.len() < 0x1_0000_0000_0000_0000,
    ensures
        match spec_old_checks(declared@, invalid@, declared@.len() as int) {
            Err(e) => r == Err::<(Vec<u128>, Option<usize>), VariantIdError>(e),
            Ok((_, inv)) => r matches Ok((ids, i)) && i == inv && ids_fit_declarations(declared@, ids@)
                && takes_lowest_free(declared@, ids@),
        },
{
    let n = declared.len();
    let mut used_ids: Vec<u128> = Vec::new();
    let mut invalid_index: Option<usize> = None;
    let mut i: usize = 0;
    while i < n
        invariant
            n == declared@.len(),
            invalid@.len() == n,
            i <= n,
            spec_old_checks(declared@, invalid@, i as int) == Ok::<(Seq<u128>, Option<usize>), VariantIdError>((used_ids@, invalid_index)),
        decreases n - i,
    {
        if let Some(value) = declared[i] {
            if contains_u128(&used_ids, value) {
                proof {
                    lemma_old_checks_sticks(declared@, invalid@, i + 1, n as int);
                }
                return Err(VariantIdError::IdUsedTwice(i));
            }
            used_ids.push(value);
        }
        if invalid[i] {
            if invalid_index.is_none() {
                invalid_index = Some(i);
            } else {
                proof {
                    lemma_old_checks_sticks(declared@, invalid@, i + 1, n as int);
                }
                return Err(VariantIdError::SecondInvalid(i));
            }
        }
        i = i + 1;
    }
    proof {
        lemma_old_checks_props(declared@, invalid@, n as int);
    }
    // every variant without an id gets the next id no variant took
    let mut ids: Vec<u128> = Vec::new();
    let mut current_guess: u128 = 0;
    let ghost declared_used = used_ids@;
    let mut k: usize = 0;
    while k < n
        invariant
            n == declared@.len(),
            n < 0x1_0000_0000_0000_0000,
            k <= n,
            ids@.len() == k,
            used_ids@.len() <= n + k,
            forall|h: u128| (h as int) < current_guess ==> #[trigger] used_ids@.contains(h),
            forall|x: u128| declared_used.contains(x) ==> used_ids@.contains(x),
            forall|a: int| 0 <= a < k ==> used_ids@.contains(#[trigger] ids@[a]),
            forall|a: int| 0 <= a < n && (#[trigger] declared@[a]) is Some ==> declared_used.contains(declared@[a]->Some_0),
            forall|a: int| 0 <= a < k && (#[trigger] declared@[a]) is Some ==> ids@[a] == declared@[a]->Some_0,
            forall|a: int| 0 <= a < k && (#[trigger] declared@[a]) is None ==> !declared_used.contains(ids@[a]),
            forall|a: int, b: int| 0 <= a < b < n && (#[trigger] declared@[a]) is Some && (#[trigger] declared@[b]) is Some ==> declared@[a] != declared@[b],
            forall|a: int, b: int| 0 <= a < b < k ==> #[trigger] ids@[a] != #[trigger] ids@[b],
            forall|x: u128| declared_used.contains(x) ==> declares(declared@, x),
            forall|x: u128| #[trigger] used_ids@.contains(x) ==> declared_used.contains(x) || ids@.contains(x),
            forall|a: int, h: u128|
                0 <= a < k && (#[trigger] declared@[a]) is None && (h as int) < ids@[a] ==> declares(declared@, h)
                    || #[trigger] ids@.take(a).contains(h),
        decreases n - k,
    {
        let ghost at_start = used_ids@;
        let ghost ids_before = ids@;
        match declared[k] {
            Some(v) => {
                ids.push(v);
                assert(declared_used.contains(v));
            },
            None => {
                while contains_u128(&used_ids, current_guess)
                    invariant
                        forall|h: u128| (h as int) < current_guess ==> #[trigger] used_ids@.contains(h),
                        used_ids@.len() < 0x1_0000_0000_0000_0000_0000,
                    decreases used_ids@.len() - current_guess,
                {
                    proof {
                        lemma_prefix_fits(used_ids@, current_guess + 1);
                    }
                    current_guess = current_guess + 1;
                }
                proof {
                    lemma_prefix_fits(used_ids@, current_guess as int);
                }
                let ghost before = used_ids@;
                proof {
                    assert forall|h: u128| (h as int) < current_guess implies declares(declared@, h)
                        || #[trigger] ids_before.contains(h) by {
                        assert(before.contains(h));
                    }
                }
                ids.push(current_guess);
                used_ids.push(current_guess);
                proof {
                    assert(ids@.take(k as int) =~= ids_before);
                    assert forall|h: u128| (h as int) < current_guess + 1 implies #[trigger] used_ids@.contains(h) by {
                        if h == current_guess {
                            assert(used_ids@[before.len() as int] == h);
                        } else {
                            assert(before.contains(h));
                            let j = choose|j: int| 0 <= j < before.len() && before[j] == h;
                            assert(used_ids@[j] == h);
                        }
                    }
                    assert forall|x: u128| before.contains(x) implies used_ids@.contains(x) by {
                        let j = choose|j: int| 0 <= j < before.len() && before[j] == x;
                        assert(used_ids@[j] == x);
                    }
                }
                current_guess = current_guess + 1;
            },
        }
        proof {
            assert forall|a: int| 0 <= a < k + 1 implies used_ids@.contains(#[trigger] ids@[a]) by {
                if a == k {
                    if declared@[a] is None {
                        assert(used_ids@[used_ids@.len() - 1] == ids@[a]);
                    }
                }
            }
            assert forall|a: int| 0 <= a <= k implies #[trigger] ids@.take(a) == ids_before.take(a) by {
                assert(ids@.take(a) =~= ids_before.take(a));
            }
            assert(ids_before.take(k as int) =~= ids_before);
            assert forall|x: u128| ids_before.contains(x) implies #[trigger] ids@.contains(x) by {
                let j = choose|j: int| 0 <= j < ids_before.len() && ids_before[j] == x;
                assert(ids@[j] == x);
            }
            assert forall|x: u128| #[trigger] used_ids@.contains(x) implies declared_used.contains(x) || ids@.contains(x) by {
                if at_start.contains(x) {
                    if ids_before.contains(x) {
                        assert(ids@.contains(x));
                    }
                } else {
                    let j = choose|j: int| 0 <= j < used_ids@.len() && used_ids@[j] == x;
                    assert(j == used_ids@.len() - 1);
                    assert(ids@[k as int] == x);
                }
            }
            assert forall|a: int, b: int| 0 <= a < b < k + 1 implies #[trigger] ids@[a] != #[trigger] ids@[b] by {
                if b == k {
                    assert(at_start.contains(ids@[a]));
                    if declared@[b] is None {
                        assert(!at_start.contains(ids@[b]));
                    } else if declared@[a] is None {
                        assert(!declared_used.contains(ids@[a]));
                    }
                }
            }
            assert forall|a: int, h: u128|
                0 <= a < k + 1 && (#[trigger] declared@[a]) is None && (h as int) < ids@[a] implies declares(declared@, h)
                    || #[trigger] ids@.take(a).contains(h) by {
                assert(ids@.take(a) == ids_before.take(a));
                if a < k {
                    assert(ids@[a] == ids_before[a]);
                }
            }
        }
        k = k + 1;
    }
    Ok((ids, invalid_index))
}

/// Whether a run of checks that failed stays failed, with the same refusal, on a longer
/// prefix of the variants.
proof fn lemma_old_checks_sticks(declared: Seq<Option<u128>>, invalid: Seq<bool>, m: int, n: int)
    requires
        0 <= m <= n,
        spec_old_checks(declared, invalid, m) is Err,
    ensures
        spec_old_checks(declared, invalid, n) == spec_old_checks(declared, invalid, m),
    decreases n - m,
{
    if m < n {
        lemma_old_checks_sticks(declared, invalid, m, n - 1);
    }
}

/// What the checks that passed on the first `n` variants keep: at most one id per variant,
/// every declared id, and declared ids that are pairwise distinct.
proof fn lemma_old_checks_props(declared: Seq<Option<u128>>, invalid: Seq<bool>, n: int)
    requires
        0 <= n <= declared.len(),
        spec_old_checks(declared, invalid, n) is Ok,
    ensures
        ({
            let used = spec_old_checks(declared, invalid, n)->Ok_0.0;
            &&& used.len() <= n
            &&& forall|a: int| 0 <= a < n && (#[trigger] declared[a]) is Some ==> used.contains(declared[a]->Some_0)
            &&& forall|a: int, b: int| 0 <= a < b < n && (#[trigger] declared[a]) is Some && (#[trigger] declared[b]) is Some ==> declared[a] != declared[b]
            &&& forall|x: u128| used.contains(x) ==> declares(declared, x)
        }),
    decreases n,
{
    if n > 0 {
        lemma_old_checks_props(declared, invalid, n - 1);
        let prev = spec_old_checks(declared, invalid, n - 1)->Ok_0.0;
        let used = spec_old_checks(declared, invalid, n)->Ok_0.0;
        assert forall|x: u128| used.contains(x) implies declares(declared, x) by {
            let j = choose|j: int| 0 <= j < used.len() && used[j] == x;
            if j < prev.len() {
                assert(prev[j] == x);
                assert(prev.contains(x));
            } else {
                assert(declared[n - 1] == Some(x));
            }
        }
        assert forall|a: int| 0 <= a < n && (#[trigger] declared[a]) is Some implies used.contains(declared[a]->Some_0) by {
            if a < n - 1 {
                assert(prev.contains(declared[a]->Some_0));
                let j = choose|j: int| 0 <= j < prev.len() && prev[j] == declared[a]->Some_0;
                assert(used[j] == declared[a]->Some_0);
            } else {
                assert(used[used.len() - 1] == declared[a]->Some_0);
            }
        }
    }
}

/// Counting: a sequence that holds every value below `g` has at least `g` items.
proof fn lemma_prefix_fits(used: Seq<u128>, g: int)
    requires
        0 <= g <= 0x1_0000_0000_0000_0000_0000_0000_0000_0000,
        forall|h: u128| (h as int) < g ==> #[trigger] used.contains(h),
    ensures
        g <= used.len(),
    decreases g,
{
    if g > 0 {
        let x = (g - 1) as u128;
        assert(used.contains(x));
        let i = choose|i: int| 0 <= i < used.len() && used[i] == x;
        let rest = used.remove(i);
        assert forall|h: u128| (h as int) < g - 1 implies #[trigger] rest.contains(h) by {
            assert(used.contains(h));
            let j = choose|j: int| 0 <= j < used.len() && used[j] == h;
            if j < i {
                assert(rest[j] == h);
            } else {
                assert(rest[j - 1] == h);
            }
        }
        lemma_prefix_fits(rest, g - 1);
    }
}

/// The largest of the first `n` values of `ids`, zero for none.
pub open spec fn max_id(ids: Seq<u128>, n: int) -> u128
    decreases n,
{
    if n <= 0 {
        0
    } else {
        let rest = max_id(ids, n - 1);
        if rest < ids[n - 1] {
            ids[n - 1]
        } else {
            rest
        }
    }
}

/// The bits an id field needs to hold the largest of the ids; refused when there is no id,
/// since no variant then tells the size.
pub fn min_id_bits(ids: &Vec<u128>) -> (r: Result<usize, VariantIdError>)
    ensures
        ids@.len() == 0 ==> r == Err::<usize, VariantIdError>(VariantIdError::NoVariants),
        ids@.len() > 0 ==> r == Ok::<usize, VariantIdError>(spec_bits_needed(max_id(ids@, ids@.len() as int) as nat) as usize),
{
    if ids.len() == 0 {
        return Err(VariantIdError::NoVariants);
    }
    let mut largest: u128 = 0;
    let mut i: usize = 0;
    while i < ids.len()
        invariant
            i <= ids@.len(),
            largest == max_id(ids@, i as int),
        decreases ids@.len() - i,
    {
        if largest < ids[i] {
            largest = ids[i];
        }
        i = i + 1;
    }
    let mut x: u128 = largest;
    let mut n: usize = 0;
    proof {
        lemma_bits_needed_fits(x as nat);
    }
    while x != 0
        invariant
            n + spec_bits_needed(x as nat) == spec_bits_needed(largest as nat),
            n <= 128 - spec_bits_needed(x as nat),
            spec_bits_needed(x as nat) <= 128,
        decreases x,
    {
        x = x / 2;
        n = n + 1;
    }
    Ok(n)
}

/// A value below `2^128` needs at most 128 bits.
proof fn lemma_bits_needed_fits(x: nat)
    requires
        x < 0x1_0000_0000_0000_0000_0000_0000_0000_0000,
    ensures
        spec_bits_needed(x) <= 128,
{
    vstd::arithmetic::power2::lemma2_to64();
    vstd::arithmetic::power2::lemma_pow2_adds(64, 64);
    assert(vstd::arithmetic::power2::pow2(128) == 0x1_0000_0000_0000_0000_0000_0000_0000_0000);
    lemma_bits_needed_below(x, 128);
}

/// A value below `2^k` needs at most `k` bits.
proof fn lemma_bits_needed_below(x: nat, k: nat)
    requires
        x < vstd::arithmetic::power2::pow2(k),
    ensures
        spec_bits_needed(x) <= k,
    decreases x,
{
    if x > 0 {
        if k == 0 {
            vstd::arithmetic::power2::lemma2_to64();
        } else {
            vstd::arithmetic::power2::lemma_pow2_unfold(k);
            lemma_bits_needed_below(x / 2, (k - 1) as nat);
        }
    }
}

/// Which size given by an enum's attributes a variant goes over.
#[derive(Clone, Copy, Debug, PartialEq, Eq)]
pub enum VariantSizeError {
    /// The variant at this position, without its id, is larger than the payload given.
    OverPayload(usize),
    /// The variant at this position, without its id, is larger than the total less the id.
    OverTotal(usize),
}

/// Whether a variant of `size` bits, `id_bits` of them its id, fits the sizes the enum's
/// attributes give: its payload within the payload given, or else within the total less
/// the id where both are given.
pub open spec fn variant_fits(b: AttrInfoBuilder, size: int, id_bits: int) -> bool {
    match b.payload_bit_size {
        Some(p) => size - id_bits <= p,
        None => match (b.total_bit_size, b.id_bits) {
            (Some(t), Some(i)) => size - id_bits <= t - i,
            _ => true,
        },
    }
}

/// The largest of the first `n` variant sizes, zero for none.
pub open spec fn largest_size(sizes: Seq<(usize, usize)>, n: int) -> int
    decreases n,
{
    if n <= 0 {
        0
    } else {
        let rest = largest_size(sizes, n - 1);
        if rest < sizes[n - 1].0 {
            sizes[n - 1].0 as int
        } else {
            rest
        }
    }
}

/// Checks each variant, given as its size and its id field's size, against the sizes the
/// enum's attributes give, and returns the largest variant size. Refuses the first variant
/// that does not fit.
pub fn check_variant_sizes(builder: &AttrInfoBuilder, sizes: &Vec<(usize, usize)>) -> (r: Result<usize, VariantSizeError>)
    requires
        forall|i: int| 0 <= i < sizes@.len() ==> (#[trigger] sizes@[i]).1 <= sizes@[i].0,
        builder.payload_bit_size is None && builder.total_bit_size is Some && builder.id_bits is Some
            ==> builder.id_bits->Some_0 <= builder.total_bit_size->Some_0,
    ensures
        r is Ok <==> forall|i: int| 0 <= i < sizes@.len() ==> variant_fits(*builder, (#[trigger] sizes@[i]).0 as int, sizes@[i].1 as int),
        r matches Ok(l) ==> l == largest_size(sizes@, sizes@.len() as int),
        r matches Err(e) ==> ({
            let i = match e {
                VariantSizeError::OverPayload(i) => i,
                VariantSizeError::OverTotal(i) => i,
            };
            &&& i < sizes@.len()
            &&& !variant_fits(*builder, sizes@[i as int].0 as int, sizes@[i as int].1 as int)
            &&& forall|j: int| 0 <= j < i ==> variant_fits(*builder, (#[trigger] sizes@[j]).0 as int, sizes@[j].1 as int)
            &&& (e is OverPayload <==> builder.payload_bit_size is Some)
        }),
{
    let mut largest: usize = 0;
    let mut i: usize = 0;
    while i < sizes.len()
        invariant
            i <= sizes@.len(),
            largest == largest_size(sizes@, i as int),
            forall|j: int| 0 <= j < sizes@.len() ==> (#[trigger] sizes@[j]).1 <= sizes@[j].0,
            forall|j: int| 0 <= j < i ==> variant_fits(*builder, (#[trigger] sizes@[j]).0 as int, sizes@[j].1 as int),
            builder.payload_bit_size is None && builder.total_bit_size is Some && builder.id_bits is Some
                ==> builder.id_bits->Some_0 <= builder.total_bit_size->Some_0,
        decreases sizes@.len() - i,
    {
        let (size, id_size) = sizes[i];
        if largest < size {
            largest = size;
        }
        match builder.payload_bit_size {
            Some(bit_size) => {
                if bit_size < size - id_size {
                    return Err(VariantSizeError::OverPayload(i));
                }
            },
            None => {
                if let (Some(bit_size), Some(id_bits)) = (builder.total_bit_size, builder.id_bits) {
                    if bit_size - id_bits < size - id_size {
                        return Err(VariantSizeError::OverTotal(i));
                    }
                }
            },
        }
        i = i + 1;
    }
    Ok(largest)
}

/// The length of the id field that the variants of an enum start with:
/// the id length given, or else the total less the payload; refused when neither is given.
pub fn id_bits_from_attrs(builder: &AttrInfoBuilder) -> (r: Result<usize, EnumSizeError>)
    requires
        builder.id_bits is None && builder.payload_bit_size is Some && builder.total_bit_size is Some
            ==> builder.payload_bit_size->Some_0 <= builder.total_bit_size->Some_0,
    ensures
        match (builder.id_bits, builder.payload_bit_size, builder.total_bit_size) {
            (Some(id), _, _) => r == Ok::<usize, EnumSizeError>(id),
            (None, Some(payload), Some(total)) => r == Ok::<usize, EnumSizeError>((total - payload) as usize),
            _ => r == Err::<usize, EnumSizeError>(EnumSizeError::NoIdLength),
        },
{
    if let Some(id_bits) = builder.id_bits {
        Ok(id_bits)
    } else if let (Some(payload_size), Some(total_size)) = (builder.payload_bit_size, builder.total_bit_size) {
        Ok(total_size - payload_size)
    } else {
        Err(EnumSizeError::NoIdLength)
    }
}

} // verus!
