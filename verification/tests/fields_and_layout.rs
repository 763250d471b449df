use bondrewd_derive::additive::{
    BigQuoteInfo, LittleQuoteInfo, NoneQuoteInfo, QuoteInfo, ResolverDataBigAdditive,
    ResolverDataLittleAdditive, ResolverDataNestedAdditive,
};
use bondrewd_derive::array_iter::{BlockArrayIter, ElementArrayIter};
use bondrewd_derive::attrs::FillBits;
use bondrewd_derive::data::{element_key, ArrayField, FieldKey, NumberType, RustByteSize};
use bondrewd_derive::endianness::Endianness;
use bondrewd_derive::enum_info::{
    id_type_width, resolve_enum_attrs, AttrInfoBuilder, EnumSizeError, IdPosition,
};
use bondrewd_derive::field::{
    bit_ranges_conflict, Attributes, ByteBitRange, FieldBits, NameOrIndex, OverlapOptions,
    ReserveFieldOption,
};
use bondrewd_derive::names::{check_slice_names, get_bits_effected, variant_size_const_names};
use bondrewd_derive::resolver::{
    ResolverArrayType, ResolverData, ResolverPrimitiveStrategy, ResolverPrimitiveStrategyTy,
    ResolverSubType, ResolverType,
};
use bondrewd_derive::struct_info::AttrInfo as StructAttrInfo;
use bondrewd_derive::variants::{bits_needed, detect_variant_fill};
use bondrewd_derive::error::SolvingError;

fn data(start: usize, end: usize) -> ResolverData {
    ResolverData {
        zeros_on_left: start % 8,
        available_bits_in_first_byte: 8 - start % 8,
        starting_inject_byte: start / 8,
        flip: None,
        field_name: FieldKey::Declared(0),
        bit_range: start..end,
    }
}

fn u8_sub() -> ResolverSubType {
    ResolverSubType::Primitive {
        number_ty: NumberType::Unsigned,
        resolver_strategy: ResolverPrimitiveStrategy {
            ty: ResolverPrimitiveStrategyTy::Standard,
            endianness: Endianness::big(),
        },
        rust_size: RustByteSize::One,
    }
}

#[test]
fn reserve_options_nest() {
    let all = [
        ReserveFieldOption::NotReserve,
        ReserveFieldOption::ReserveField,
        ReserveFieldOption::FakeField,
        ReserveFieldOption::EnumId,
        ReserveFieldOption::ReadOnly,
    ];
    for r in all {
        if r.wants_write_fns() {
            assert!(r.wants_read_fns());
        }
        if r.wants_read_fns() {
            assert!(!r.is_fake_field() && r.count_bits());
        }
    }
    assert!(ReserveFieldOption::EnumId.is_fake_field());
    assert!(!ReserveFieldOption::FakeField.count_bits());
    assert!(ReserveFieldOption::ReadOnly.wants_read_fns());
    assert!(!ReserveFieldOption::ReadOnly.wants_write_fns());
}

#[test]
fn overlap_options() {
    assert!(!OverlapOptions::NoOverlap.enabled());
    assert!(OverlapOptions::Allow(2).enabled());
    assert!(OverlapOptions::Redundant.enabled());
    assert!(OverlapOptions::Redundant.is_redundant());
    assert!(!OverlapOptions::Allow(2).is_redundant());
}

#[test]
fn conflict_is_a_shared_bit() {
    assert!(bit_ranges_conflict(&(0..8), &(7..9)));
    assert!(!bit_ranges_conflict(&(0..8), &(8..9)));
    assert!(bit_ranges_conflict(&(2..4), &(0..8)));
    assert!(!bit_ranges_conflict(&(5..9), &(1..5)));
}

#[test]
fn attributes_sizes() {
    let a = Attributes {
        endianness: Box::new(Endianness::big()),
        bit_range: 3..15,
        reserve: ReserveFieldOption::NotReserve,
        overlap: OverlapOptions::Allow(4),
        capture_id: false,
    };
    assert_eq!(a.bit_length(), 12);
    assert_eq!(a.bit_size(), 8);
    assert_eq!(a.bit_size_no_fill(), 8);
    let b = a.clone();
    assert!(!a.overlapping(&b));
    let mut c = a.clone();
    c.overlap = OverlapOptions::NoOverlap;
    let mut d = a.clone();
    d.overlap = OverlapOptions::NoOverlap;
    assert!(c.overlapping(&d));
}

#[test]
fn field_bits_count() {
    let fb = FieldBits { ranges: vec![ByteBitRange { start: 3, last: 7 }, ByteBitRange { start: 8, last: 9 }] };
    assert_eq!(fb.count(), 7);
}

#[test]
fn tuple_field_names() {
    assert_eq!(NameOrIndex::Index(3).field_name(), "field_3");
    assert_eq!(NameOrIndex::Index(0).field_name(), "field_0");
    assert_eq!(NameOrIndex::Index(120).field_name(), "field_120");
    assert_eq!(NameOrIndex::Name("age".to_string()).field_name(), "age");
}

#[test]
fn bits_needed_is_minimal() {
    assert_eq!(bits_needed(0), 0);
    assert_eq!(bits_needed(1), 1);
    assert_eq!(bits_needed(2), 2);
    assert_eq!(bits_needed(3), 2);
    assert_eq!(bits_needed(4), 3);
    assert_eq!(bits_needed(255), 8);
    assert_eq!(bits_needed(256), 9);
}

#[test]
fn variant_fill_reaches_byte_boundary() {
    // a 3 bit variant after a 2 bit id, when the largest is 10: fill to 16 bits
    assert_eq!(detect_variant_fill(3, 10, 2, &FillBits::NoFill), Ok(FillBits::Bits(11)));
    // the largest variant itself needs no fill unless automatic filling is asked
    assert_eq!(detect_variant_fill(10, 10, 2, &FillBits::NoFill), Ok(FillBits::NoFill));
    assert_eq!(detect_variant_fill(10, 10, 2, &FillBits::Auto), Ok(FillBits::Bits(4)));
    assert_eq!(
        detect_variant_fill(11, 10, 2, &FillBits::NoFill),
        Err(SolvingError::VariantPayloadBitLength { largest_payload_length: 11, bit_length: 10 })
    );
}

#[test]
fn shifts_line_up() {
    // 12 bits starting at bit 5: 3 bits in the first byte.
    let d = data(5, 17);
    let little = ResolverDataLittleAdditive::from_resolver_data(&d);
    assert_eq!(little.right_shift, 1);
    assert_eq!(little.first_bit_mask, 0b0000_0111);
    assert_eq!(little.last_bit_mask, 0b1000_0000);
    let big = ResolverDataBigAdditive::from_resolver_data(&d);
    assert_eq!(big.right_shift, 1);
    assert_eq!(big.bits_in_last_byte, 1);
    assert_eq!(big.first_bit_mask, 0b0000_0111);
    assert_eq!(big.last_bit_mask, 0b1000_0000);
    assert_eq!((d.available_bits_in_first_byte as i32 % 8 + big.right_shift as i32) % 8, 12 % 8);
    let nested = ResolverDataNestedAdditive::from_resolver_data(&d);
    assert_eq!(nested.right_shift, 5);
    assert_eq!((3 + nested.right_shift as i32) % 8, 0);

    // a whole number of bytes starting on a byte boundary
    let d = data(8, 24);
    let little = ResolverDataLittleAdditive::from_resolver_data(&d);
    assert_eq!(little.right_shift, 0);
    assert_eq!(little.last_bit_mask, 0xff);
    let big = ResolverDataBigAdditive::from_resolver_data(&d);
    assert_eq!(big.right_shift, 0);
    assert_eq!(ResolverDataNestedAdditive::from_resolver_data(&d).right_shift, 0);
}

#[test]
fn quote_info_values() {
    let attrs = Attributes {
        endianness: Box::new(Endianness::big()),
        bit_range: 5..17,
        reserve: ReserveFieldOption::NotReserve,
        overlap: OverlapOptions::NoOverlap,
        capture_id: false,
    };
    let qi = QuoteInfo::new_inner(&attrs, None);
    assert_eq!(qi.amount_of_bits(), 12);
    assert_eq!(qi.zeros_on_left(), 5);
    assert_eq!(qi.available_bits_in_first_byte(), 3);
    assert_eq!(qi.starting_inject_byte(), 0);
    assert_eq!(qi.next_index(0), 1);
    assert_eq!(qi.offset_starting_inject_byte(2), 2);
    assert_eq!(qi.fields_last_bits_index(), 1);
    let flipped = QuoteInfo::new_inner(&attrs, Some(3));
    assert_eq!(flipped.starting_inject_byte(), 3);
    assert_eq!(flipped.next_index(3), 2);
    assert_eq!(flipped.flip(), Some(3));
    let big = BigQuoteInfo::from_quote_info(&qi);
    assert_eq!((big.right_shift, big.first_bit_mask, big.last_bit_mask, big.bits_in_last_byte), (1, 0b111, 0b1000_0000, 1));
    let little = LittleQuoteInfo::from_quote_info(&qi);
    assert_eq!((little.right_shift, little.first_bit_mask, little.last_bit_mask), (1, 0b111, 0b1000_0000));
    // unlike the nested shift, this one is 8 rather than 0 on a byte boundary
    assert_eq!(NoneQuoteInfo::from_quote_info(&qi).right_shift, 5);
    let aligned = QuoteInfo::new_inner(
        &Attributes {
            endianness: Box::new(Endianness::big()),
            bit_range: 8..16,
            reserve: ReserveFieldOption::NotReserve,
            overlap: OverlapOptions::NoOverlap,
            capture_id: false,
        },
        None,
    );
    assert_eq!(NoneQuoteInfo::from_quote_info(&aligned).right_shift, 8);
}

#[test]
fn element_ranges_tile() {
    let d = data(3, 27);
    let mut it = ElementArrayIter::from_values(&d, &u8_sub(), &ResolverArrayType::Element, &vec![3]).unwrap();
    let mut got = Vec::new();
    let mut names = Vec::new();
    while let Some(r) = it.next() {
        names.push(r.data.field_name);
        got.push(r.data.bit_range.clone());
    }
    assert_eq!(got, vec![3..11, 11..19, 19..27]);
    assert_eq!(
        names,
        vec![
            FieldKey::Element(ArrayField::Declared(0), 0),
            FieldKey::Element(ArrayField::Declared(0), 1),
            FieldKey::Element(ArrayField::Declared(0), 2),
        ]
    );
    assert!(it.next().is_none());
}

#[test]
fn element_of_a_two_dimensional_array_is_an_array() {
    let d = data(0, 24);
    let it = ElementArrayIter::from_values(&d, &u8_sub(), &ResolverArrayType::Element, &vec![3, 2]).unwrap();
    assert_eq!(it.element_bit_size, 12);
    assert_eq!(it.element_range, 0..2);
    assert!(matches!(it.ty, ResolverType::Array { ref sizings, .. } if sizings == &vec![3]));
}

#[test]
fn block_elements_tile() {
    // a [u8; 4] held in 28 bits: the first element takes the odd 4 bits
    let d = data(0, 28);
    let mut it = BlockArrayIter::from_values(&d, &u8_sub(), &ResolverArrayType::Block, &vec![4]).unwrap();
    let mut got = Vec::new();
    let mut names = Vec::new();
    while let Some(r) = it.next() {
        names.push(r.data.field_name);
        got.push(r.data.bit_range.clone());
    }
    assert_eq!(got, vec![0..4, 4..12, 12..20, 20..28]);
    assert_eq!(names, (0..4).map(|i| FieldKey::Element(ArrayField::Declared(0), i)).collect::<Vec<_>>());
    assert_eq!(it.remaining_bits, 0);
    assert!(BlockArrayIter::from_values(&d, &u8_sub(), &ResolverArrayType::Block, &vec![]).is_none());
}

#[test]
fn block_array_of_20_bits_in_three_bytes() {
    // `block_bit_length = 20` on `[u8; 3]`: the first element loses its 4 high bits
    let d = data(0, 20);
    let mut it = BlockArrayIter::from_values(&d, &u8_sub(), &ResolverArrayType::Block, &vec![3]).unwrap();
    let r0 = it.next().unwrap();
    let r1 = it.next().unwrap();
    let r2 = it.next().unwrap();
    assert!(it.next().is_none());
    assert_eq!(r0.data.bit_range, 0..4);
    assert_eq!(r1.data.bit_range, 4..12);
    assert_eq!(r2.data.bit_range, 12..20);
    assert_eq!(r2.data.field_name, FieldKey::Element(ArrayField::Declared(0), 2));
}

#[test]
fn elements_of_an_element_are_named_after_the_field() {
    let outer = FieldKey::Element(ArrayField::Declared(4), 1);
    assert_eq!(element_key(outer, 3), FieldKey::Element(ArrayField::Declared(4), 3));
    assert_eq!(element_key(FieldKey::FillBits, 0), FieldKey::Element(ArrayField::FillBits, 0));
}

#[test]
fn rust_size_of_types() {
    let t = ResolverType::Array { sub_ty: u8_sub(), array_ty: ResolverArrayType::Block, sizings: vec![3, 4] };
    assert_eq!(t.rust_size(), 12);
    assert_eq!(ResolverType::Nested { rust_size: 5 }.rust_size(), 5);
}

#[test]
fn enum_sizes_from_attributes() {
    let attrs = StructAttrInfo::default();
    let mut b = AttrInfoBuilder::default();
    assert_eq!(b.id_position, IdPosition::Leading);
    // nothing given: the largest variant and the bits the ids need
    let r = resolve_enum_attrs(&b, &attrs, 10, 2).ok().unwrap();
    assert_eq!((r.id_bits, r.payload_bit_size), (2, 10));
    // a total: the id takes what the largest variant leaves
    b.total_bit_size = Some(16);
    let r = resolve_enum_attrs(&b, &attrs, 10, 2).ok().unwrap();
    assert_eq!((r.id_bits, r.payload_bit_size), (6, 10));
    assert_eq!(resolve_enum_attrs(&b, &attrs, 16, 2).err(), Some(EnumSizeError::NoRoomForId));
    // all three given must add up
    b.payload_bit_size = Some(12);
    b.id_bits = Some(3);
    assert_eq!(
        resolve_enum_attrs(&b, &attrs, 10, 2).err(),
        Some(EnumSizeError::SizesDisagree { id: 3, payload: 12, total: 16 })
    );
    b.id_bits = Some(4);
    let r = resolve_enum_attrs(&b, &attrs, 10, 2).ok().unwrap();
    assert_eq!((r.id_bits, r.payload_bit_size), (4, 12));
    assert_eq!(resolve_enum_attrs(&b, &attrs, 13, 2).err(), Some(EnumSizeError::VariantOverPayload));
    // an id smaller than the ids need
    let mut c = AttrInfoBuilder::default();
    c.id_bits = Some(1);
    assert_eq!(resolve_enum_attrs(&c, &attrs, 10, 2).err(), Some(EnumSizeError::IdTooSmall));
    // a payload smaller than the largest variant
    let mut p = AttrInfoBuilder::default();
    p.payload_bit_size = Some(4);
    assert_eq!(resolve_enum_attrs(&p, &attrs, 10, 2).err(), Some(EnumSizeError::PayloadTooSmall));
}

#[test]
fn id_type_widths() {
    assert_eq!(id_type_width(0), Some(8));
    assert_eq!(id_type_width(8), Some(8));
    assert_eq!(id_type_width(9), Some(16));
    assert_eq!(id_type_width(33), Some(64));
    assert_eq!(id_type_width(128), Some(128));
    assert_eq!(id_type_width(129), None);
}

#[test]
fn generated_names() {
    let (byte, bit) = variant_size_const_names("EyeColor");
    assert_eq!(byte, "EYE_COLOR_BYTE_SIZE");
    assert_eq!(bit, "EYE_COLOR_BIT_SIZE");
    assert_eq!(
        check_slice_names("EyeColor", Some("Person"), true),
        ("PersonCheckedMut".to_string(), "check_slice_mut_eye_color".to_string())
    );
    assert_eq!(
        check_slice_names("Person", None, false),
        ("PersonChecked".to_string(), "check_slice".to_string())
    );
}

#[test]
fn bits_effected_words() {
    assert_eq!(get_bits_effected(&(1..33)), "bits 1 through 32");
    assert_eq!(get_bits_effected(&(33..47)), "bits 33 through 46");
    assert_eq!(get_bits_effected(&(0..1)), "bit 0");
    assert_eq!(get_bits_effected(&(5..5)), "bit 5");
}
