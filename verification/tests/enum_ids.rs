use bondrewd_derive::enum_info::{
    assign_variant_ids, check_variant_sizes, id_bits_from_attrs, EnumSizeError, min_id_bits, AttrInfoBuilder, IdPosition,
    VariantIdError, VariantSizeError,
};

fn builder(id: Option<usize>, total: Option<usize>, payload: Option<usize>) -> AttrInfoBuilder {
    AttrInfoBuilder {
        id_bits: id,
        id_position: IdPosition::Leading,
        total_bit_size: total,
        payload_bit_size: payload,
    }
}

#[test]
fn undeclared_ids_count_up_from_zero() {
    let declared = vec![None, None, None];
    let invalid = vec![false, false, false];
    let (ids, inv) = assign_variant_ids(&declared, &invalid).ok().unwrap();
    assert_eq!(ids, vec![0, 1, 2]);
    assert_eq!(inv, None);
}

#[test]
fn undeclared_ids_skip_declared_ones() {
    // the second variant takes 0 and the fourth takes 2, so the others get 1 and 3
    let declared = vec![None, Some(0), None, Some(2), None];
    let invalid = vec![false, false, true, false, false];
    let (ids, inv) = assign_variant_ids(&declared, &invalid).ok().unwrap();
    assert_eq!(ids, vec![1, 0, 3, 2, 4]);
    assert_eq!(inv, Some(2));
}

#[test]
fn declared_ids_are_kept_and_gaps_filled() {
    let declared = vec![Some(5), None, Some(1), None];
    let invalid = vec![false, false, false, false];
    let (ids, _) = assign_variant_ids(&declared, &invalid).ok().unwrap();
    assert_eq!(ids, vec![5, 0, 1, 2]);
}

#[test]
fn repeated_declared_id_is_refused() {
    let declared = vec![Some(3), None, Some(3)];
    let invalid = vec![false, false, false];
    assert_eq!(
        assign_variant_ids(&declared, &invalid).err(),
        Some(VariantIdError::IdUsedTwice(2))
    );
}

#[test]
fn second_catch_all_is_refused() {
    let declared = vec![None, None, None];
    let invalid = vec![true, false, true];
    assert_eq!(
        assign_variant_ids(&declared, &invalid).err(),
        Some(VariantIdError::SecondInvalid(2))
    );
}

#[test]
fn repeated_id_is_found_before_second_catch_all() {
    let declared = vec![Some(1), Some(1)];
    let invalid = vec![true, true];
    assert_eq!(
        assign_variant_ids(&declared, &invalid).err(),
        Some(VariantIdError::IdUsedTwice(1))
    );
}

#[test]
fn no_variants_give_no_ids() {
    let declared: Vec<Option<u128>> = vec![];
    let invalid: Vec<bool> = vec![];
    let (ids, inv) = assign_variant_ids(&declared, &invalid).ok().unwrap();
    assert!(ids.is_empty());
    assert_eq!(inv, None);
    assert_eq!(min_id_bits(&ids).err(), Some(VariantIdError::NoVariants));
}

#[test]
fn id_bits_follow_the_largest_id() {
    assert_eq!(min_id_bits(&vec![0]).ok(), Some(0));
    assert_eq!(min_id_bits(&vec![1]).ok(), Some(1));
    assert_eq!(min_id_bits(&vec![3, 0, 4]).ok(), Some(3));
    assert_eq!(min_id_bits(&vec![255]).ok(), Some(8));
    assert_eq!(min_id_bits(&vec![256, 2]).ok(), Some(9));
    assert_eq!(min_id_bits(&vec![u128::MAX]).ok(), Some(128));
}

#[test]
fn variant_sizes_within_payload() {
    let sizes = vec![(10, 2), (6, 2), (12, 2)];
    assert_eq!(check_variant_sizes(&builder(None, None, Some(10)), &sizes).ok(), Some(12));
    assert_eq!(check_variant_sizes(&builder(None, None, None), &sizes).ok(), Some(12));
}

#[test]
fn variant_over_payload_is_refused() {
    let sizes = vec![(10, 2), (13, 2), (20, 2)];
    assert_eq!(
        check_variant_sizes(&builder(None, None, Some(10)), &sizes).err(),
        Some(VariantSizeError::OverPayload(1))
    );
}

#[test]
fn variant_over_total_less_id_is_refused() {
    let sizes = vec![(10, 2), (15, 2)];
    // a total of 16 with 3 id bits leaves 13 bits, and the second variant needs 13: fits
    assert_eq!(check_variant_sizes(&builder(Some(3), Some(16), None), &sizes).ok(), Some(15));
    // with 4 id bits only 12 are left
    assert_eq!(
        check_variant_sizes(&builder(Some(4), Some(16), None), &sizes).err(),
        Some(VariantSizeError::OverTotal(1))
    );
    // a total without an id size checks nothing here
    assert_eq!(check_variant_sizes(&builder(None, Some(4), None), &sizes).ok(), Some(15));
}

#[test]
fn id_length_from_attributes() {
    assert_eq!(id_bits_from_attrs(&builder(Some(3), Some(16), Some(8))).ok(), Some(3));
    assert_eq!(id_bits_from_attrs(&builder(None, Some(16), Some(10))).ok(), Some(6));
    assert_eq!(id_bits_from_attrs(&builder(None, Some(16), None)).err(), Some(EnumSizeError::NoIdLength));
    assert_eq!(id_bits_from_attrs(&builder(None, None, None)).err(), Some(EnumSizeError::NoIdLength));
}
