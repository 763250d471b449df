use bondrewd_derive::attrs::{AttrsBuilder, FieldSetBuilder, FillBits, StructEnforcement};
use bondrewd_derive::data::{
    DataBuilder, DataBuilderRange, DataType, FieldKey, FullDataType, NumberType, RustByteSize,
};
use bondrewd_derive::endianness::Endianness;
use bondrewd_derive::error::{SolvingError, UnfinishedFeature};
use bondrewd_derive::field::{OverlapOptions, ReserveFieldOption};
use bondrewd_derive::field_set::SolvedFieldSetAttributes;
use bondrewd_derive::solved::{
    enum_fits_check, generic_fits_check, BuilderType, EnumBuilder, GenericBuilder, Solved, SolvedType, StructBuilder, VariantInfo,
};
use bondrewd_derive::access::{gen_enum_fields, read_through_plan, variant_of_id, write_through_plan, ByteStep};
use bondrewd_derive::variants::VariantBuilder;

fn number(i: usize, range: DataBuilderRange) -> DataBuilder {
    DataBuilder {
        id: FieldKey::Declared(i),
        ty: FullDataType {
            data_type: DataType::Number(NumberType::Unsigned, RustByteSize::One),
            array_spec: None,
        },
        bit_range: range,
        endianness: Endianness::big(),
        reserve: ReserveFieldOption::NotReserve,
        overlap: OverlapOptions::NoOverlap,
        is_captured_id: false,
    }
}

fn variant(index: usize, id: Option<usize>, fields: Vec<DataBuilder>) -> VariantBuilder {
    VariantBuilder {
        id,
        field_set: FieldSetBuilder {
            fields,
            fill_bits: FillBits::NoFill,
            attrs: AttrsBuilder { enforcement: StructEnforcement::NoRules, default_endianness: Endianness::big() },
        },
        tuple: false,
        index,
    }
}

/// The `EyeColor` enum: three unit variants and one that captures the id, with a 3-bit id.
fn eye_color() -> EnumBuilder {
    let mut captured = number(0, DataBuilderRange::Unset);
    captured.is_captured_id = true;
    let mut e = EnumBuilder::new(variant(3, None, vec![captured]));
    e.variants = vec![variant(0, None, vec![]), variant(1, None, vec![]), variant(2, None, vec![])];
    e.id_bit_length = Some(3);
    e.attrs.default_endianness = Endianness::big();
    e
}

fn parts(s: &Solved) -> (usize, Vec<VariantInfo>, VariantInfo) {
    match &s.ty {
        SolvedType::Enum { id, variants, invalid_name, .. } => (
            id.resolver.data.bit_range.end,
            variants.iter().map(|(info, _)| *info).collect(),
            *invalid_name,
        ),
        SolvedType::Struct(_) => panic!("expected an enum"),
    }
}

#[test]
fn eye_color_gets_ids_in_order() {
    let s = Solved::try_from_enum_builder(eye_color()).ok().unwrap();
    let (id_end, variants, invalid) = parts(&s);
    assert_eq!(id_end, 3);
    assert_eq!(
        variants,
        vec![
            VariantInfo { id: 0, index: 0, tuple: false },
            VariantInfo { id: 1, index: 1, tuple: false },
            VariantInfo { id: 2, index: 2, tuple: false },
        ]
    );
    assert_eq!(invalid, VariantInfo { id: 3, index: 3, tuple: false });
    // the captured id counts nothing: the enum is its 3 id bits
    assert_eq!(s.total_bits_no_fill(), 3);
    assert_eq!(s.total_bytes_no_fill(), 1);
    match &s.ty {
        SolvedType::Enum { id, invalid, dump, .. } => {
            assert_eq!(id.resolver.data.field_name, FieldKey::VariantId);
            assert_eq!(id.resolver.data.bit_range, 0..3);
            assert_eq!(invalid.fields.len(), 1);
            assert!(invalid.fields[0].attr_capture_id());
            assert_eq!(invalid.fields[0].resolver.data.bit_range, 0..3);
            assert!(!*dump);
        },
        SolvedType::Struct(_) => panic!("expected an enum"),
    }
}

#[test]
fn variant_ids_distinct_and_declared_kept() {
    let mut e = EnumBuilder::new(variant(3, None, vec![]));
    e.variants = vec![variant(0, Some(2), vec![]), variant(1, None, vec![]), variant(2, None, vec![])];
    let s = Solved::try_from_enum_builder(e).ok().unwrap();
    let (id_end, variants, invalid) = parts(&s);
    // declared 2; then the first free id after 2 is 3, then 4; the invalid one gets 5.
    let ids: Vec<usize> = variants.iter().map(|v| v.id).collect();
    assert_eq!(ids, vec![2, 3, 4]);
    let indices: Vec<usize> = variants.iter().map(|v| v.index).collect();
    assert_eq!(indices, vec![0, 1, 2]);
    assert_eq!(invalid.id, 5);
    // the largest id 5 needs 3 bits
    assert_eq!(id_end, 3);
}

#[test]
fn variants_are_ordered_by_id() {
    let mut e = EnumBuilder::new(variant(3, Some(0), vec![]));
    e.variants = vec![variant(0, Some(7), vec![]), variant(1, Some(3), vec![]), variant(2, None, vec![])];
    let s = Solved::try_from_enum_builder(e).ok().unwrap();
    let (id_end, variants, invalid) = parts(&s);
    // undeclared variant 2 follows the id 3 of variant 1: first free from 4 is 4
    let ids: Vec<usize> = variants.iter().map(|v| v.id).collect();
    assert_eq!(ids, vec![3, 4, 7]);
    let indices: Vec<usize> = variants.iter().map(|v| v.index).collect();
    assert_eq!(indices, vec![1, 2, 0]);
    assert_eq!(invalid.id, 0);
    // every id fits the id field: 7 < 2^3
    assert_eq!(id_end, 3);
}

#[test]
fn repeated_id_is_a_conflict() {
    let mut e = EnumBuilder::new(variant(2, None, vec![]));
    e.variants = vec![variant(0, Some(1), vec![]), variant(1, Some(1), vec![])];
    let r = Solved::try_from_enum_builder(e);
    assert_eq!(r.err(), Some(SolvingError::VariantConflict(1)));
}

#[test]
fn id_too_small_for_largest_id() {
    let mut e = eye_color();
    e.id_bit_length = Some(1);
    let r = Solved::try_from_enum_builder(e);
    assert_eq!(r.err(), Some(SolvingError::VariantIdBitLength { variant_id_max_value: 3, bit_length: 1 }));
}

#[test]
fn id_without_a_type() {
    let mut e = eye_color();
    e.id_bit_length = Some(200);
    let r = Solved::try_from_enum_builder(e);
    assert_eq!(r.err(), Some(SolvingError::VariantIdType(200)));
    // a lone variant with id 0 needs no bits, and no type holds zero bits
    let lone = EnumBuilder::new(variant(0, None, vec![]));
    let r = Solved::try_from_enum_builder(lone);
    assert_eq!(r.err(), Some(SolvingError::VariantIdType(0)));
}

#[test]
fn enum_size_rules() {
    let mut e = eye_color();
    e.attrs.enforcement = StructEnforcement::EnforceFullBytes;
    let r = Solved::try_from_enum_builder(e);
    assert_eq!(r.err(), Some(SolvingError::EnforceFullBytes));

    let mut e = eye_color();
    e.attrs.enforcement = StructEnforcement::EnforceBitAmount(3);
    assert!(Solved::try_from_enum_builder(e).is_ok());

    let mut e = eye_color();
    e.attrs.enforcement = StructEnforcement::EnforceBitAmount(8);
    let r = Solved::try_from_enum_builder(e);
    assert_eq!(r.err(), Some(SolvingError::EnforceBitCount { actual: 3, user: 8 }));
}

#[test]
fn id_size_from_total_and_payload() {
    let mut e = EnumBuilder::new(variant(1, None, vec![number(0, DataBuilderRange::Size(4))]));
    e.variants = vec![variant(0, None, vec![number(0, DataBuilderRange::Size(2))])];
    e.payload_bit_length = Some(4);
    e.attrs.enforcement = StructEnforcement::EnforceBitAmount(8);
    let s = Solved::try_from_enum_builder(e).ok().unwrap();
    let (id_end, _, _) = parts(&s);
    // 8 total bits less a 4 bit payload leaves 4 id bits
    assert_eq!(id_end, 4);
    assert_eq!(s.total_bits_no_fill(), 8);
}

#[test]
fn first_field_starts_after_id() {
    let mut e = EnumBuilder::new(variant(1, None, vec![number(0, DataBuilderRange::Size(4))]));
    e.variants = vec![variant(0, None, vec![number(0, DataBuilderRange::Size(2)), number(1, DataBuilderRange::Size(3))])];
    let s = Solved::try_from_enum_builder(e).ok().unwrap();
    match &s.ty {
        SolvedType::Enum { id, invalid, variants, .. } => {
            // ids 0 and 1 need one bit
            assert_eq!(id.resolver.data.bit_range, 0..1);
            assert_eq!(invalid.fields[0].resolver.data.bit_range, 1..5);
            let (_, set) = &variants[0];
            assert_eq!(set.fields[0].resolver.data.bit_range, 1..3);
            assert_eq!(set.fields[1].resolver.data.bit_range, 3..6);
        },
        SolvedType::Struct(_) => panic!("expected an enum"),
    }
    // largest payload 5 plus the id bit
    assert_eq!(s.total_bits_no_fill(), 6);
}

#[test]
fn variant_fill_is_added_again_by_the_enum() {
    let mut fs = FieldSetBuilder::new().with_field(number(0, DataBuilderRange::Size(4)));
    fs.fill_bits = FillBits::Bits(2);
    let inv = VariantBuilder { id: None, field_set: fs, tuple: true, index: 0 };
    let e = EnumBuilder::new(inv);
    // the lone variant with id 0 needs no id bits, so give it one
    let mut e = e;
    e.id_bit_length = Some(1);
    let s = Solved::try_from_enum_builder(e).ok().unwrap();
    match &s.ty {
        SolvedType::Enum { invalid, invalid_name, .. } => {
            assert!(invalid_name.tuple);
            // the field, the fill of the variant itself, and the fill the enum adds
            let r: Vec<_> = invalid.fields.iter().map(|f| f.resolver.data.bit_range.clone()).collect();
            assert_eq!(r, vec![1..5, 5..7, 7..9]);
        },
        SolvedType::Struct(_) => panic!("expected an enum"),
    }
}

#[test]
fn auto_fill_in_enum_is_unfinished() {
    let mut fs = FieldSetBuilder::new().with_field(number(0, DataBuilderRange::Size(4)));
    fs.fill_bits = FillBits::Auto;
    let mut e = EnumBuilder::new(VariantBuilder { id: None, field_set: fs, tuple: false, index: 0 });
    e.id_bit_length = Some(2);
    let r = Solved::try_from_enum_builder(e);
    assert_eq!(r.err(), Some(SolvingError::Unfinished(UnfinishedFeature::AutoFillInEnum)));
}

#[test]
fn generic_builder_solves_both_kinds() {
    let g = GenericBuilder { ty: BuilderType::Enum(Box::new(eye_color())) };
    assert!(matches!(Solved::try_from_generic(g).ok().map(|s| s.ty), Some(SolvedType::Enum { .. })));
    let sb = StructBuilder {
        field_set: FieldSetBuilder::new().with_field(number(0, DataBuilderRange::Size(5))),
        attrs: SolvedFieldSetAttributes::default(),
        tuple: false,
    };
    let g = GenericBuilder::from_struct_builder(Box::new(sb));
    assert!(matches!(g.get(), BuilderType::Struct(_)));
    let s = Solved::try_from_generic(g).ok().unwrap();
    assert_eq!(s.total_bits_no_fill(), 5);
}

#[test]
fn variant_id_names() {
    assert_eq!(EnumBuilder::VARIANT_ID_NAME, "variant_id");
    assert_eq!(EnumBuilder::VARIANT_ID_NAME_KEBAB, "variant-id");
}

#[test]
fn solvable_enum_sizes_are_found() {
    assert!(enum_fits_check(&eye_color()));
    assert!(generic_fits_check(&GenericBuilder { ty: BuilderType::Enum(Box::new(eye_color())) }));
    let mut e = eye_color();
    e.variants[0].id = Some(usize::MAX - 1);
    assert!(!enum_fits_check(&e));
}

#[test]
fn enum_byte_plans() {
    let s = Solved::try_from_enum_builder(eye_color()).ok().unwrap();
    let (id_plan, invalid_plans, variant_plans) = gen_enum_fields(&s, 1).unwrap();
    // the 3-bit id takes the top 3 bits of the only byte
    assert_eq!(id_plan, Some(vec![ByteStep { byte: 0, mask: 0xe0, left_shift: 5, right_shift: 0, bits: 3 }]));
    assert_eq!(variant_plans.len(), 3);
    assert_eq!(variant_plans[1].0.id, 1);
    assert!(!invalid_plans.is_empty());
}

#[test]
fn read_ids_select_variants() {
    let s = Solved::try_from_enum_builder(eye_color()).ok().unwrap();
    let (id_plan, _, _) = gen_enum_fields(&s, 1).unwrap();
    let id_plan = id_plan.unwrap();
    for id in 0u128..3 {
        let mut bytes = vec![0u8; 1];
        write_through_plan(&mut bytes, &id_plan, id);
        let read = read_through_plan(&bytes, &id_plan);
        assert_eq!(read, id);
        assert_eq!(variant_of_id(&s, read), Some(VariantInfo { id: id as usize, index: id as usize, tuple: false }));
    }
    // ids no declared variant has select the default variant
    assert_eq!(variant_of_id(&s, 3), Some(VariantInfo { id: 3, index: 3, tuple: false }));
    assert_eq!(variant_of_id(&s, 7), Some(VariantInfo { id: 3, index: 3, tuple: false }));
    assert_eq!(s.byte_size(), Some(1));
}
