use bondrewd_derive::endianness::Endianness;
use bondrewd_derive::field::BuilderRange;
use bondrewd_derive::data::{DataBuilderRange, DataType, FieldKey, FullDataTypeArraySpecType, NumberType, RustByteSize};
use bondrewd_derive::field_attrs::{AttrBuilder, AttrBuilderType, LastField};
use bondrewd_derive::field_type::{
    element_array_range, field_endianness, inferred_array_range, path_type, place_field, place_field_fits_check, ArrayRangeError, PathType,
    PathTypeError,
};

fn range_of(r: Result<BuilderRange, ArrayRangeError>) -> Option<std::ops::Range<usize>> {
    match r {
        Ok(BuilderRange::Range(r)) => Some(r),
        _ => None,
    }
}

#[test]
fn element_array_follows_last_field() {
    // 32 characters of 16 bits each, after a field that ended at bit 7
    assert_eq!(range_of(element_array_range(BuilderRange::LastEnd(7), 16, 32)), Some(7..519));
}

#[test]
fn element_array_range_must_hold_elements_exactly() {
    assert_eq!(range_of(element_array_range(BuilderRange::Range(8..32), 8, 3)), Some(8..32));
    assert_eq!(
        element_array_range(BuilderRange::Range(8..30), 8, 3).err(),
        Some(ArrayRangeError::ElementsDoNotMatch)
    );
    assert_eq!(
        element_array_range(BuilderRange::Range(9..8), 8, 3).err(),
        Some(ArrayRangeError::EndBeforeStart)
    );
    assert_eq!(element_array_range(BuilderRange::Unset, 8, 3).err(), Some(ArrayRangeError::NoRange));
}

#[test]
fn inferred_array_range_splits_evenly() {
    assert_eq!(range_of(inferred_array_range(BuilderRange::Range(4..28), 8, 4)), Some(4..28));
    assert_eq!(
        inferred_array_range(BuilderRange::Range(4..27), 8, 4).err(),
        Some(ArrayRangeError::UnevenSplit)
    );
    assert_eq!(range_of(inferred_array_range(BuilderRange::LastEnd(3), 8, 4)), Some(3..35));
    assert_eq!(inferred_array_range(BuilderRange::Unset, 8, 4).err(), Some(ArrayRangeError::NoRange));
}

#[test]
fn field_endianness_defaults() {
    let nested = Endianness::nested();
    let big = Endianness::big();
    let little = Endianness::little_packed();
    // a field with its own endianness keeps it
    assert_eq!(field_endianness(little, true, 4, &big), little);
    // a field that is not a number keeps whatever it has
    assert_eq!(field_endianness(nested, false, 4, &big), nested);
    // a larger number without one takes the structure's default
    assert_eq!(field_endianness(nested, true, 4, &big), big);
    // and packed little endian when the structure has none
    assert_eq!(field_endianness(nested, true, 4, &nested), little);
    // a one byte number without one gets the standard mode
    let one = field_endianness(nested, true, 1, &nested);
    assert!(one.has_endianness());
    assert_eq!(one.byte_order, nested.byte_order);
}

#[test]
fn primitive_paths() {
    let mut r = BuilderRange::LastEnd(5);
    assert_eq!(path_type(Some("bool"), true, &AttrBuilderType::NoType, &mut r), Ok(PathType::Boolean));
    assert!(matches!(r, BuilderRange::Range(ref x) if *x == (5..6)));
    let mut r = BuilderRange::LastEnd(5);
    assert_eq!(
        path_type(Some("i16"), true, &AttrBuilderType::NoType, &mut r),
        Ok(PathType::Number { size: 2, signed: true })
    );
    assert!(matches!(r, BuilderRange::LastEnd(5)));
    assert_eq!(
        path_type(Some("u128"), false, &AttrBuilderType::NoType, &mut BuilderRange::Unset),
        Ok(PathType::Number { size: 16, signed: false })
    );
    assert_eq!(
        path_type(Some("char"), true, &AttrBuilderType::NoType, &mut BuilderRange::Unset),
        Ok(PathType::Char { size: 4 })
    );
    assert_eq!(
        path_type(Some("usize"), true, &AttrBuilderType::NoType, &mut BuilderRange::Unset),
        Err(PathTypeError::AmbiguousSize)
    );
}

#[test]
fn float_paths_must_be_full_sized() {
    assert_eq!(
        path_type(Some("f32"), true, &AttrBuilderType::NoType, &mut BuilderRange::Range(0..32)),
        Ok(PathType::Float { size: 4 })
    );
    assert_eq!(
        path_type(Some("f64"), true, &AttrBuilderType::NoType, &mut BuilderRange::Range(3..50)),
        Err(PathTypeError::FloatNotFullSized(47))
    );
    assert_eq!(
        path_type(Some("f64"), true, &AttrBuilderType::NoType, &mut BuilderRange::LastEnd(3)),
        Ok(PathType::Float { size: 8 })
    );
}

#[test]
fn other_paths_are_bitfields_sized_by_their_bits() {
    assert_eq!(
        path_type(Some("PersonParts"), true, &AttrBuilderType::NoType, &mut BuilderRange::Range(7..16)),
        Ok(PathType::Struct { size: 2 })
    );
    assert_eq!(
        path_type(Some("PersonParts"), true, &AttrBuilderType::NoType, &mut BuilderRange::LastEnd(7)),
        Err(PathTypeError::UnknownWithoutLength)
    );
    assert_eq!(
        path_type(Some("Eye"), true, &AttrBuilderType::Enum(1), &mut BuilderRange::Unset),
        Ok(PathType::Enum { size: 1 })
    );
    assert_eq!(
        path_type(Some("Eye"), false, &AttrBuilderType::Struct(1), &mut BuilderRange::Unset),
        Err(PathTypeError::NoType)
    );
    assert_eq!(
        path_type(None, true, &AttrBuilderType::NoType, &mut BuilderRange::Unset),
        Err(PathTypeError::NoType)
    );
    assert_eq!(
        path_type(Some("u8"), true, &AttrBuilderType::BlockArray(Box::new(None)), &mut BuilderRange::Unset),
        Err(PathTypeError::ArrayOnPath)
    );
}

#[test]
fn zero_length_array_after_last_field() {
    assert_eq!(range_of(inferred_array_range(BuilderRange::LastEnd(9), 8, 0)), Some(9..9));
}

#[test]
fn a_field_without_bits_takes_its_size_after_the_last() {
    let mut attrs = AttrBuilder::new();
    attrs.bit_range = BuilderRange::LastEnd(3);
    let element = PathType::Number { size: 2, signed: false };
    assert!(place_field_fits_check(&attrs, element, &vec![]));
    let (d, last) = place_field(4, attrs, element, &vec![], &Endianness::big()).ok().unwrap();
    assert_eq!(d.id, FieldKey::Declared(4));
    assert_eq!(d.ty.data_type, DataType::Number(NumberType::Unsigned, RustByteSize::Two));
    assert!(matches!(d.bit_range, DataBuilderRange::Range(ref r) if *r == (3..19)));
    assert_eq!(last, LastField { end: 19, is_variant_id: false });
    assert_eq!(d.endianness, Endianness::big());
}

#[test]
fn an_element_array_of_chars_after_the_last() {
    let mut attrs = AttrBuilder::new();
    attrs.bit_range = BuilderRange::LastEnd(7);
    attrs.ty = AttrBuilderType::ElementArray(16, Box::new(None));
    let element = PathType::Char { size: 4 };
    let (d, last) = place_field(0, attrs, element, &vec![32], &Endianness::big()).ok().unwrap();
    assert!(matches!(d.bit_range, DataBuilderRange::Range(ref r) if *r == (7..519)));
    assert_eq!(last.end, 519);
    let spec = d.ty.array_spec.unwrap();
    assert_eq!(spec.ty, FullDataTypeArraySpecType::Element);
    assert_eq!(spec.sizings, vec![32]);
}

#[test]
fn placing_refuses_a_range_that_does_not_hold_the_elements() {
    let mut attrs = AttrBuilder::new();
    attrs.bit_range = BuilderRange::Range(0..30);
    attrs.ty = AttrBuilderType::ElementArray(8, Box::new(None));
    let r = place_field(0, attrs, PathType::Number { size: 1, signed: false }, &vec![4], &Endianness::big());
    assert_eq!(r.err(), Some(ArrayRangeError::ElementsDoNotMatch));
    let mut huge = AttrBuilder::new();
    huge.bit_range = BuilderRange::LastEnd(usize::MAX);
    assert!(!place_field_fits_check(&huge, PathType::Boolean, &vec![]));
}
