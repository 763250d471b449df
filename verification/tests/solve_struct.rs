use bondrewd_derive::attrs::{AttrsBuilder, FieldSetBuilder, FillBits, StructEnforcement};
use bondrewd_derive::data::{
    DataBuilder, DataBuilderRange, DataType, FieldKey, FullDataType, FullDataTypeArraySpec,
    FullDataTypeArraySpecType, NumberType, RustByteSize,
};
use bondrewd_derive::endianness::Endianness;
use bondrewd_derive::error::{SolvingError, UnfinishedFeature};
use bondrewd_derive::field::{OverlapOptions, ReserveFieldOption};
use bondrewd_derive::field_set::{SolvedFieldSet, SolvedFieldSetAttributes};
use bondrewd_derive::solved::{generic_fits_check, BuilderType, GenericBuilder, Solved, SolvedType, StructBuilder};
use std::ops::Range;

fn number(i: usize, nt: NumberType, size: RustByteSize, range: DataBuilderRange) -> DataBuilder {
    DataBuilder {
        id: FieldKey::Declared(i),
        ty: FullDataType { data_type: DataType::Number(nt, size), array_spec: None },
        bit_range: range,
        endianness: Endianness::big(),
        reserve: ReserveFieldOption::NotReserve,
        overlap: OverlapOptions::NoOverlap,
        is_captured_id: false,
    }
}

/// The `PersonParts` structure: a bool, two 2-bit fields and a 4-bit field.
fn person_parts(endianness: Endianness, fill: FillBits, enforcement: StructEnforcement) -> StructBuilder {
    let fields = vec![
        number(0, NumberType::Bool, RustByteSize::One, DataBuilderRange::Unset),
        number(1, NumberType::Unsigned, RustByteSize::One, DataBuilderRange::Size(2)),
        number(2, NumberType::Unsigned, RustByteSize::One, DataBuilderRange::Size(2)),
        number(3, NumberType::Unsigned, RustByteSize::One, DataBuilderRange::Size(4)),
    ];
    StructBuilder {
        field_set: FieldSetBuilder {
            fields,
            fill_bits: fill,
            attrs: AttrsBuilder { enforcement, default_endianness: endianness },
        },
        attrs: SolvedFieldSetAttributes { dump: false },
        tuple: false,
    }
}

fn solved_set(s: &Solved) -> &SolvedFieldSet {
    match &s.ty {
        SolvedType::Struct(set) => set,
        SolvedType::Enum { .. } => panic!("expected a structure"),
    }
}

fn ranges(set: &SolvedFieldSet) -> Vec<Range<usize>> {
    set.fields.iter().map(|f| f.resolver.data.bit_range.clone()).collect()
}

#[test]
fn person_parts_fields_follow_each_other() {
    let s = Solved::try_from_struct_builder(&person_parts(Endianness::big(), FillBits::NoFill, StructEnforcement::NoRules))
        .ok()
        .unwrap();
    let set = solved_set(&s);
    assert_eq!(ranges(set), vec![0..1, 1..3, 3..5, 5..9]);
    assert_eq!(set.total_bits(), 9);
    assert_eq!(set.total_bytes(), 2);
    assert_eq!(s.total_bits_no_fill(), 9);
    assert_eq!(s.total_bytes_no_fill(), 2);
    assert!(!s.dump());
    let toes = &set.fields[3].resolver;
    assert_eq!(toes.data.zeros_on_left, 5);
    assert_eq!(toes.data.available_bits_in_first_byte, 3);
    assert_eq!(toes.data.starting_inject_byte, 0);
    assert_eq!(toes.data.flip, None);
    assert!(toes.spans_multiple_bytes());
    assert_eq!(toes.data.field_name, FieldKey::Declared(3));
}

#[test]
fn solved_fields_do_not_conflict() {
    let s = Solved::try_from_struct_builder(&person_parts(Endianness::big(), FillBits::NoFill, StructEnforcement::NoRules))
        .ok()
        .unwrap();
    let r = ranges(solved_set(&s));
    for i in 0..r.len() {
        for j in 0..r.len() {
            if i != j {
                assert!(r[i].end <= r[j].start || r[j].end <= r[i].start);
            }
        }
    }
}

#[test]
fn auto_fill_makes_whole_bytes() {
    let s = Solved::try_from_struct_builder(&person_parts(Endianness::big(), FillBits::Auto, StructEnforcement::NoRules))
        .ok()
        .unwrap();
    let set = solved_set(&s);
    assert_eq!(ranges(set), vec![0..1, 1..3, 3..5, 5..9, 9..16]);
    assert_eq!(set.fields[4].resolver.data.field_name, FieldKey::FillBits);
    assert_eq!(set.fields[4].resolver.reserve, ReserveFieldOption::FakeField);
    assert_eq!(set.total_bits() % 8, 0);
    // the fill field does not count toward the size without fill
    assert_eq!(set.total_bits_no_fill(), 9);
}

#[test]
fn fill_bits_adds_exact_amount() {
    let s = Solved::try_from_struct_builder(&person_parts(Endianness::big(), FillBits::Bits(3), StructEnforcement::NoRules))
        .ok()
        .unwrap();
    let set = solved_set(&s);
    assert_eq!(ranges(set).last().cloned(), Some(9..12));
    assert_eq!(set.total_bits(), 12);
}

#[test]
fn reversed_byte_order_sets_flip() {
    let mut e = Endianness::big();
    e.set_reverse_byte_order(true);
    let s = Solved::try_from_struct_builder(&person_parts(e, FillBits::NoFill, StructEnforcement::NoRules))
        .ok()
        .unwrap();
    let set = solved_set(&s);
    // 9 bits are placed inside 16 bits: the last byte index is 1.
    for f in &set.fields {
        assert_eq!(f.resolver.data.flip, Some(1));
    }
}

#[test]
fn back_traversal_mirrors_ranges() {
    let mut e = Endianness::big();
    e.set_reverse_field_order(true);
    let s = Solved::try_from_struct_builder(&person_parts(e, FillBits::NoFill, StructEnforcement::NoRules))
        .ok()
        .unwrap();
    let set = solved_set(&s);
    // mirrored inside 16 bits: start' = 16 - end, end' = 16 - start
    assert_eq!(ranges(set), vec![15..16, 13..15, 11..13, 7..11]);
}

#[test]
fn enforcement_holds() {
    let s = Solved::try_from_struct_builder(&person_parts(
        Endianness::big(),
        FillBits::NoFill,
        StructEnforcement::EnforceBitAmount(9),
    ));
    assert!(s.is_ok());
    let r = Solved::try_from_struct_builder(&person_parts(
        Endianness::big(),
        FillBits::NoFill,
        StructEnforcement::EnforceBitAmount(8),
    ));
    assert_eq!(r.err(), Some(SolvingError::EnforceBitCount { actual: 9, user: 8 }));
}

#[test]
fn enforce_full_bytes_refuses_odd_bits() {
    let r = Solved::try_from_struct_builder(&person_parts(
        Endianness::big(),
        FillBits::NoFill,
        StructEnforcement::EnforceFullBytes,
    ));
    assert_eq!(r.err(), Some(SolvingError::EnforceFullBytes));
    // the size rule is checked before the fill is added
    let r = Solved::try_from_struct_builder(&person_parts(
        Endianness::big(),
        FillBits::Auto,
        StructEnforcement::EnforceFullBytes,
    ));
    assert_eq!(r.err(), Some(SolvingError::EnforceFullBytes));
}

#[test]
fn overlapping_fields_are_refused() {
    let fields = vec![
        number(0, NumberType::Unsigned, RustByteSize::One, DataBuilderRange::Range(0..8)),
        number(1, NumberType::Unsigned, RustByteSize::One, DataBuilderRange::Range(4..12)),
    ];
    let mut fs = FieldSetBuilder::new();
    for f in fields {
        fs.add_field(f);
    }
    let sb = StructBuilder { field_set: fs, attrs: SolvedFieldSetAttributes { dump: true }, tuple: false };
    let r = Solved::try_from_struct_builder(&sb);
    assert_eq!(r.err(), Some(SolvingError::Overlap));
}

#[test]
fn allowed_overlap_is_accepted() {
    let mut second = number(1, NumberType::Unsigned, RustByteSize::One, DataBuilderRange::Range(4..12));
    second.overlap = OverlapOptions::Allow(4);
    let fs = FieldSetBuilder::new()
        .with_field(number(0, NumberType::Unsigned, RustByteSize::One, DataBuilderRange::Range(0..8)))
        .with_field(second);
    assert_eq!(fs.bit_length(), 12);
    let sb = StructBuilder { field_set: fs, attrs: SolvedFieldSetAttributes { dump: true }, tuple: false };
    let s = Solved::try_from_struct_builder(&sb).ok().unwrap();
    assert!(s.dump());
    // every bit a field holds counts in `total_bits`; the shared bits count once without fill
    assert_eq!(solved_set(&s).total_bits(), 16);
    assert_eq!(solved_set(&s).total_bits_no_fill(), 12);
}

#[test]
fn captured_id_outside_enum_is_unfinished() {
    let mut f = number(0, NumberType::Unsigned, RustByteSize::One, DataBuilderRange::Unset);
    f.is_captured_id = true;
    let sb = StructBuilder {
        field_set: FieldSetBuilder::new().with_field(f),
        attrs: SolvedFieldSetAttributes::default(),
        tuple: false,
    };
    let r = Solved::try_from_struct_builder(&sb);
    assert_eq!(r.err(), Some(SolvingError::Unfinished(UnfinishedFeature::CaptureIdOutsideEnum)));
}

#[test]
fn zero_bit_structure_with_reversed_bytes_underflows() {
    let mut e = Endianness::big();
    e.set_reverse_byte_order(true);
    let sb = StructBuilder {
        field_set: FieldSetBuilder {
            fields: vec![number(0, NumberType::Unsigned, RustByteSize::One, DataBuilderRange::Size(0))],
            fill_bits: FillBits::NoFill,
            attrs: AttrsBuilder { enforcement: StructEnforcement::NoRules, default_endianness: e },
        },
        attrs: SolvedFieldSetAttributes::default(),
        tuple: false,
    };
    let r = Solved::try_from_struct_builder(&sb);
    assert_eq!(r.err(), Some(SolvingError::ResolverUnderflow(FieldKey::Declared(0))));
}

#[test]
fn unset_field_takes_type_size() {
    let fs = FieldSetBuilder::new()
        .with_field(number(0, NumberType::Unsigned, RustByteSize::Four, DataBuilderRange::Unset))
        .with_field(number(1, NumberType::Signed, RustByteSize::Two, DataBuilderRange::Unset));
    let sb = StructBuilder { field_set: fs, attrs: SolvedFieldSetAttributes::default(), tuple: true };
    let s = Solved::try_from_struct_builder(&sb).ok().unwrap();
    assert_eq!(ranges(solved_set(&s)), vec![0..32, 32..48]);
}

#[test]
fn simple_example_is_53_bits_in_7_bytes() {
    let fs = FieldSetBuilder {
        fields: vec![
            number(0, NumberType::Bool, RustByteSize::One, DataBuilderRange::Unset),
            number(1, NumberType::Float, RustByteSize::Four, DataBuilderRange::Unset),
            number(2, NumberType::Signed, RustByteSize::Two, DataBuilderRange::Size(14)),
            number(3, NumberType::Unsigned, RustByteSize::One, DataBuilderRange::Size(6)),
        ],
        fill_bits: FillBits::NoFill,
        attrs: AttrsBuilder { enforcement: StructEnforcement::NoRules, default_endianness: Endianness::big() },
    };
    let sb = StructBuilder { field_set: fs, attrs: SolvedFieldSetAttributes::default(), tuple: false };
    let s = Solved::try_from_struct_builder(&sb).ok().unwrap();
    let set = solved_set(&s);
    assert_eq!(ranges(set), vec![0..1, 1..33, 33..47, 47..53]);
    assert_eq!(s.total_bits_no_fill(), 53);
    assert_eq!(s.total_bytes_no_fill(), 7);
}

#[test]
fn redundant_fields_do_not_count_or_move_the_next_field() {
    let mut redundant = number(1, NumberType::Unsigned, RustByteSize::One, DataBuilderRange::Range(0..8));
    redundant.overlap = OverlapOptions::Redundant;
    redundant.reserve = ReserveFieldOption::ReadOnly;
    let fs = FieldSetBuilder::new()
        .with_field(number(0, NumberType::Unsigned, RustByteSize::One, DataBuilderRange::Unset))
        .with_field(redundant)
        .with_field(number(2, NumberType::Unsigned, RustByteSize::One, DataBuilderRange::Unset));
    assert_eq!(fs.bit_length(), 16);
    let sb = StructBuilder { field_set: fs, attrs: SolvedFieldSetAttributes::default(), tuple: false };
    let s = Solved::try_from_struct_builder(&sb).ok().unwrap();
    let set = solved_set(&s);
    assert_eq!(ranges(set), vec![0..8, 0..8, 8..16]);
    assert_eq!(set.total_bits_no_fill(), 16);
}

/// Writes `value`'s low bits over `r` in a bit buffer, first bit first.
fn write_field(bits: &mut [bool], r: &Range<usize>, value: u64) {
    let width = r.end - r.start;
    for k in 0..width {
        bits[r.start + k] = (value >> (width - 1 - k)) & 1 == 1;
    }
}

fn read_field(bits: &[bool], r: &Range<usize>) -> u64 {
    let mut v = 0u64;
    for k in r.clone() {
        v = (v << 1) | (bits[k] as u64);
    }
    v
}

#[test]
fn solved_fields_read_back_what_was_written() {
    let s = Solved::try_from_struct_builder(&person_parts(Endianness::big(), FillBits::Auto, StructEnforcement::NoRules))
        .ok()
        .unwrap();
    let set = solved_set(&s);
    let r = ranges(set);
    let mut bits = vec![false; set.total_bits()];
    let values = [1u64, 2, 3, 9];
    for (range, v) in r.iter().zip(values.iter()) {
        write_field(&mut bits, range, *v);
    }
    for (range, v) in r.iter().zip(values.iter()) {
        assert_eq!(read_field(&bits, range), *v);
    }
    // writing one field again leaves the others as they were
    write_field(&mut bits, &r[1], 0);
    assert_eq!(read_field(&bits, &r[0]), 1);
    assert_eq!(read_field(&bits, &r[1]), 0);
    assert_eq!(read_field(&bits, &r[2]), 3);
    assert_eq!(read_field(&bits, &r[3]), 9);
}

/// The `Person` structure: 32 characters of 2 bytes each, then 7, 3, 9 and 60 bits, with
/// the byte order reversed.
#[test]
fn person_fields_follow_each_other_in_74_bytes() {
    let mut name = number(0, NumberType::Char, RustByteSize::Four, DataBuilderRange::Size(32 * 16));
    name.ty.array_spec = Some(FullDataTypeArraySpec { ty: FullDataTypeArraySpecType::Element, sizings: vec![32] });
    let mut eye_color = number(2, NumberType::Unsigned, RustByteSize::One, DataBuilderRange::Size(3));
    eye_color.ty.data_type = DataType::Nested { rust_byte_size: 1 };
    let mut parts = number(3, NumberType::Unsigned, RustByteSize::Two, DataBuilderRange::Size(9));
    parts.ty.data_type = DataType::Nested { rust_byte_size: 2 };
    let mut e = Endianness::big();
    e.set_reverse_byte_order(true);
    let fs = FieldSetBuilder {
        fields: vec![
            name,
            number(1, NumberType::Unsigned, RustByteSize::One, DataBuilderRange::Size(7)),
            eye_color,
            parts,
            number(4, NumberType::Unsigned, RustByteSize::Eight, DataBuilderRange::Size(60)),
        ],
        fill_bits: FillBits::NoFill,
        attrs: AttrsBuilder { enforcement: StructEnforcement::NoRules, default_endianness: e },
    };
    let sb = StructBuilder { field_set: fs, attrs: SolvedFieldSetAttributes::default(), tuple: false };
    let s = Solved::try_from_struct_builder(&sb).ok().unwrap();
    let set = solved_set(&s);
    assert_eq!(ranges(set), vec![0..512, 512..519, 519..522, 522..531, 531..591]);
    assert_eq!(s.total_bits_no_fill(), 591);
    assert_eq!(s.total_bytes_no_fill(), 74);
    for f in &set.fields {
        assert_eq!(f.resolver.data.flip, Some(73));
    }
}

#[test]
fn solvable_sizes_are_found() {
    let small = GenericBuilder {
        ty: BuilderType::Struct(Box::new(person_parts(Endianness::big(), FillBits::NoFill, StructEnforcement::NoRules))),
    };
    assert!(generic_fits_check(&small));
    let mut huge = person_parts(Endianness::big(), FillBits::NoFill, StructEnforcement::NoRules);
    huge.field_set.fields[3].bit_range = DataBuilderRange::Size(usize::MAX - 4);
    assert!(!generic_fits_check(&GenericBuilder { ty: BuilderType::Struct(Box::new(huge)) }));
}
