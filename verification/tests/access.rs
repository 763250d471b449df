use bondrewd_derive::access::{
    array_elements, bytes_needed, gen_array_plans, gen_struct_fields, read_through_plan, write_through_plan, ArrayPlans, ByteStep,
    FieldPlan,
};
use bondrewd_derive::attrs::{AttrsBuilder, FieldSetBuilder, FillBits, StructEnforcement};
use bondrewd_derive::data::{
    DataBuilder, DataBuilderRange, DataType, FieldKey, FullDataType, FullDataTypeArraySpec,
    FullDataTypeArraySpecType, NumberType, RustByteSize,
};
use bondrewd_derive::endianness::Endianness;
use bondrewd_derive::field::{OverlapOptions, ReserveFieldOption};
use bondrewd_derive::field_set::SolvedFieldSetAttributes;
use bondrewd_derive::solved::{Solved, SolvedType, StructBuilder};

fn number(i: usize, nt: NumberType, size: RustByteSize, range: DataBuilderRange, endianness: Endianness) -> DataBuilder {
    DataBuilder {
        id: FieldKey::Declared(i),
        ty: FullDataType { data_type: DataType::Number(nt, size), array_spec: None },
        bit_range: range,
        endianness,
        reserve: ReserveFieldOption::NotReserve,
        overlap: OverlapOptions::NoOverlap,
        is_captured_id: false,
    }
}

/// The steps of a field's plan of a single value.
fn bits(p: &FieldPlan) -> &Vec<ByteStep> {
    match p {
        FieldPlan::Bits(b) => b,
        _ => panic!("expected the plan of a single value"),
    }
}

/// The `SimpleExample` structure: bits 0, 1..33, 33..47 and 47..53 of 7 bytes.
fn simple_example(e: Endianness) -> Solved {
    let fs = FieldSetBuilder {
        fields: vec![
            number(0, NumberType::Bool, RustByteSize::One, DataBuilderRange::Unset, e),
            number(1, NumberType::Float, RustByteSize::Four, DataBuilderRange::Unset, e),
            number(2, NumberType::Signed, RustByteSize::Two, DataBuilderRange::Size(14), e),
            number(3, NumberType::Unsigned, RustByteSize::One, DataBuilderRange::Size(6), e),
        ],
        fill_bits: FillBits::NoFill,
        attrs: AttrsBuilder { enforcement: StructEnforcement::NoRules, default_endianness: e },
    };
    let sb = StructBuilder { field_set: fs, attrs: SolvedFieldSetAttributes::default(), tuple: false };
    Solved::try_from_struct_builder(&sb).ok().unwrap()
}

#[test]
fn plan_of_a_field_across_two_bytes() {
    let s = simple_example(Endianness::big());
    let SolvedType::Struct(set) = &s.ty else { panic!("expected a structure") };
    let plans = gen_struct_fields(set, 7);
    assert_eq!(plans.len(), 4);
    assert_eq!(plans[0], FieldPlan::Bits(vec![ByteStep { byte: 0, mask: 0x80, left_shift: 7, right_shift: 0, bits: 1 }]));
    // bits 33..47: the low 7 bits of byte 4, then the high 7 bits of byte 5
    assert_eq!(
        plans[2],
        FieldPlan::Bits(vec![
            ByteStep { byte: 4, mask: 0x7f, left_shift: 0, right_shift: 7, bits: 7 },
            ByteStep { byte: 5, mask: 0xfe, left_shift: 1, right_shift: 0, bits: 7 },
        ])
    );
    assert_eq!(bits(&plans[1]).len(), 5);
}

#[test]
fn write_then_read_gives_the_value_back() {
    let s = simple_example(Endianness::big());
    let SolvedType::Struct(set) = &s.ty else { panic!("expected a structure") };
    let plans = gen_struct_fields(set, 7);
    let mut bytes = vec![0xffu8; 7];
    let values = [1u128, 0x4048_f5c3, 0x2abc, 0x15];
    for (p, v) in plans.iter().zip(values.iter()) {
        write_through_plan(&mut bytes, bits(p), *v);
    }
    for (p, v) in plans.iter().zip(values.iter()) {
        assert_eq!(read_through_plan(&bytes, bits(p)), *v);
    }
    // the 53 bits leave the last 3 bits of byte 6 as they were
    assert_eq!(bytes[6] & 0x07, 0x07);
    // a value wider than its field is cut to the field's width
    write_through_plan(&mut bytes, bits(&plans[3]), 0xff);
    assert_eq!(read_through_plan(&bytes, bits(&plans[3])), 0x3f);
    assert_eq!(read_through_plan(&bytes, bits(&plans[2])), 0x2abc);
}

#[test]
fn reversed_byte_order_counts_bytes_from_the_last() {
    let mut e = Endianness::big();
    e.set_reverse_byte_order(true);
    let s = simple_example(e);
    let SolvedType::Struct(set) = &s.ty else { panic!("expected a structure") };
    let plans = gen_struct_fields(set, 7);
    assert_eq!(plans[0], FieldPlan::Bits(vec![ByteStep { byte: 6, mask: 0x80, left_shift: 7, right_shift: 0, bits: 1 }]));
    let three = bits(&plans[2]);
    assert_eq!(three[0].byte, 2);
    assert_eq!(three[1].byte, 1);
    let mut bytes = vec![0u8; 7];
    write_through_plan(&mut bytes, three, 0x1234);
    assert_eq!(read_through_plan(&bytes, three), 0x1234);
}

#[test]
fn little_endian_fields_get_chunk_plans() {
    let s = simple_example(Endianness::little_packed());
    let SolvedType::Struct(set) = &s.ty else { panic!("expected a structure") };
    let plans = gen_struct_fields(set, 7);
    assert!(plans.iter().all(|p| matches!(p, FieldPlan::Bits(_))));
    // bits 33..47: the value's low byte takes bits 33..41, its high 6 bits take 41..47
    assert_eq!(
        plans[2],
        FieldPlan::Bits(vec![
            ByteStep { byte: 4, mask: 0x7f, left_shift: 0, right_shift: 1, bits: 7 },
            ByteStep { byte: 5, mask: 0x80, left_shift: 7, right_shift: 0, bits: 1 },
            ByteStep { byte: 5, mask: 0x7e, left_shift: 1, right_shift: 8, bits: 6 },
            ByteStep { byte: 5, mask: 0, left_shift: 0, right_shift: 8, bits: 0 },
        ])
    );
    let mut bytes = vec![0u8; 7];
    let values = [1u128, 0x4048_f5c3, 0x2abc, 0x15];
    for (p, v) in plans.iter().zip(values.iter()) {
        write_through_plan(&mut bytes, bits(p), *v);
    }
    for (p, v) in plans.iter().zip(values.iter()) {
        assert_eq!(read_through_plan(&bytes, bits(p)), *v);
    }
}

#[test]
fn packed_little_endian_nine_bits() {
    // a 9 bit number of all ones packs as [0b1111_1111, 0b1000_0000]
    let fs = FieldSetBuilder {
        fields: vec![number(
            0,
            NumberType::Unsigned,
            RustByteSize::Two,
            DataBuilderRange::Size(9),
            Endianness::little_packed(),
        )],
        fill_bits: FillBits::NoFill,
        attrs: AttrsBuilder { enforcement: StructEnforcement::NoRules, default_endianness: Endianness::little_packed() },
    };
    let sb = StructBuilder { field_set: fs, attrs: SolvedFieldSetAttributes::default(), tuple: false };
    let s = Solved::try_from_struct_builder(&sb).ok().unwrap();
    assert_eq!(s.byte_size(), Some(2));
    let SolvedType::Struct(set) = &s.ty else { panic!("expected a structure") };
    let plans = gen_struct_fields(set, 2);
    let plan = bits(&plans[0]);
    let mut bytes = vec![0u8; 2];
    write_through_plan(&mut bytes, plan, 0xffff);
    assert_eq!(bytes, vec![0b1111_1111, 0b1000_0000]);
    assert_eq!(read_through_plan(&bytes, plan), 0x1ff);
    let mut bytes = vec![0u8; 2];
    write_through_plan(&mut bytes, plan, 0x100);
    assert_eq!(bytes, vec![0, 0b1000_0000]);
}

#[test]
fn element_arrays_get_a_plan_per_element() {
    let mut arr = number(0, NumberType::Unsigned, RustByteSize::One, DataBuilderRange::Size(12), Endianness::big());
    arr.ty.array_spec = Some(FullDataTypeArraySpec { ty: FullDataTypeArraySpecType::Element, sizings: vec![3] });
    let fs = FieldSetBuilder {
        fields: vec![arr],
        fill_bits: FillBits::NoFill,
        attrs: AttrsBuilder { enforcement: StructEnforcement::NoRules, default_endianness: Endianness::big() },
    };
    let sb = StructBuilder { field_set: fs, attrs: SolvedFieldSetAttributes::default(), tuple: false };
    let s = Solved::try_from_struct_builder(&sb).ok().unwrap();
    let SolvedType::Struct(set) = &s.ty else { panic!("expected a structure") };
    assert!(matches!(gen_struct_fields(set, 2)[0], FieldPlan::Elements(_)));
    let Some(ArrayPlans::Values(plans)) = gen_array_plans(&set.fields[0].resolver, 2) else {
        panic!("expected the plans of one dimension")
    };
    assert_eq!(plans.len(), 3);
    // three 4-bit elements: the high and low half of byte 0, then the high half of byte 1
    assert_eq!(plans[0], Some(vec![ByteStep { byte: 0, mask: 0xf0, left_shift: 4, right_shift: 0, bits: 4 }]));
    assert_eq!(plans[1], Some(vec![ByteStep { byte: 0, mask: 0x0f, left_shift: 0, right_shift: 0, bits: 4 }]));
    assert_eq!(plans[2], Some(vec![ByteStep { byte: 1, mask: 0xf0, left_shift: 4, right_shift: 0, bits: 4 }]));
    // a field that is no array has no element plans
    let simple = simple_example(Endianness::big());
    let SolvedType::Struct(set) = &simple.ty else { panic!("expected a structure") };
    assert!(gen_array_plans(&set.fields[0].resolver, 7).is_none());
    assert!(array_elements(&set.fields[0].resolver).is_none());
}

#[test]
fn nested_fields_get_a_big_endian_plan() {
    let mut nested = number(0, NumberType::Unsigned, RustByteSize::One, DataBuilderRange::Size(9), Endianness::big());
    nested.ty.data_type = DataType::Nested { rust_byte_size: 2 };
    let fs = FieldSetBuilder {
        fields: vec![nested],
        fill_bits: FillBits::NoFill,
        attrs: AttrsBuilder { enforcement: StructEnforcement::NoRules, default_endianness: Endianness::big() },
    };
    let sb = StructBuilder { field_set: fs, attrs: SolvedFieldSetAttributes::default(), tuple: false };
    let s = Solved::try_from_struct_builder(&sb).ok().unwrap();
    let SolvedType::Struct(set) = &s.ty else { panic!("expected a structure") };
    let plans = gen_struct_fields(set, 2);
    assert_eq!(
        plans[0],
        FieldPlan::Bits(vec![
            ByteStep { byte: 0, mask: 0xff, left_shift: 0, right_shift: 1, bits: 8 },
            ByteStep { byte: 1, mask: 0x80, left_shift: 7, right_shift: 0, bits: 1 },
        ])
    );
}

#[test]
fn byte_size_of_a_structure() {
    let s = simple_example(Endianness::big());
    assert!(s.sizes_fit_check());
    assert_eq!(s.byte_size(), Some(7));
    let SolvedType::Struct(set) = &s.ty else { panic!("expected a structure") };
    assert_eq!(set.checked_bits_no_fill(), Some(53));
}

#[test]
fn block_arrays_give_the_first_element_the_remainder() {
    let mut arr = number(0, NumberType::Unsigned, RustByteSize::One, DataBuilderRange::Size(30), Endianness::big());
    arr.ty.array_spec = Some(FullDataTypeArraySpec { ty: FullDataTypeArraySpecType::Block, sizings: vec![4] });
    let fs = FieldSetBuilder {
        fields: vec![arr],
        fill_bits: FillBits::NoFill,
        attrs: AttrsBuilder { enforcement: StructEnforcement::NoRules, default_endianness: Endianness::big() },
    };
    let sb = StructBuilder { field_set: fs, attrs: SolvedFieldSetAttributes::default(), tuple: false };
    let s = Solved::try_from_struct_builder(&sb).ok().unwrap();
    let SolvedType::Struct(set) = &s.ty else { panic!("expected a structure") };
    let elements = array_elements(&set.fields[0].resolver).unwrap();
    let ranges: Vec<(usize, usize)> =
        elements.iter().map(|e| (e.data.bit_range.start, e.data.bit_range.end)).collect();
    assert_eq!(ranges, vec![(0, 6), (6, 14), (14, 22), (22, 30)]);
    let Some(ArrayPlans::Values(plans)) = gen_array_plans(&set.fields[0].resolver, 4) else {
        panic!("expected the plans of one dimension")
    };
    assert_eq!(plans.len(), 4);
    // 30 bits for four bytes: the first element takes the 6 odd bits, the others 8 each
    assert_eq!(plans[0], Some(vec![ByteStep { byte: 0, mask: 0xfc, left_shift: 2, right_shift: 0, bits: 6 }]));
    assert_eq!(
        plans[1],
        Some(vec![
            ByteStep { byte: 0, mask: 0x03, left_shift: 0, right_shift: 6, bits: 2 },
            ByteStep { byte: 1, mask: 0xfc, left_shift: 2, right_shift: 0, bits: 6 },
        ])
    );
    let mut bytes = vec![0u8; 4];
    let values = [0x2au128, 0xa5, 0x3c, 0xff];
    for (p, v) in plans.iter().zip(values.iter()) {
        write_through_plan(&mut bytes, p.as_ref().unwrap(), *v);
    }
    for (p, v) in plans.iter().zip(values.iter()) {
        assert_eq!(read_through_plan(&bytes, p.as_ref().unwrap()), *v);
    }
}

#[test]
fn arrays_of_arrays_get_plans_per_dimension() {
    let mut arr = number(0, NumberType::Unsigned, RustByteSize::One, DataBuilderRange::Size(16), Endianness::big());
    arr.ty.array_spec = Some(FullDataTypeArraySpec { ty: FullDataTypeArraySpecType::Element, sizings: vec![2, 2] });
    let fs = FieldSetBuilder {
        fields: vec![arr],
        fill_bits: FillBits::NoFill,
        attrs: AttrsBuilder { enforcement: StructEnforcement::NoRules, default_endianness: Endianness::big() },
    };
    let sb = StructBuilder { field_set: fs, attrs: SolvedFieldSetAttributes::default(), tuple: false };
    let s = Solved::try_from_struct_builder(&sb).ok().unwrap();
    let SolvedType::Struct(set) = &s.ty else { panic!("expected a structure") };
    let Some(ArrayPlans::Arrays(outer)) = gen_array_plans(&set.fields[0].resolver, 2) else {
        panic!("expected plans of two dimensions")
    };
    assert_eq!(outer.len(), 2);
    // the second outer element is byte 1, its second inner element the low half of byte 1
    let ArrayPlans::Values(inner) = &outer[1] else { panic!("expected the plans of one dimension") };
    assert_eq!(inner.len(), 2);
    assert_eq!(inner[1], Some(vec![ByteStep { byte: 1, mask: 0x0f, left_shift: 0, right_shift: 0, bits: 4 }]));
}

#[test]
fn slices_need_bytes_up_to_the_last_step() {
    let s = simple_example(Endianness::big());
    let SolvedType::Struct(set) = &s.ty else { panic!("expected a structure") };
    let plans = gen_struct_fields(set, 7);
    // bits 33..47 end in byte 5; bits 47..53 in byte 6
    assert_eq!(bytes_needed(bits(&plans[2])), 6);
    assert_eq!(bytes_needed(bits(&plans[3])), 7);
    assert_eq!(bytes_needed(&Vec::new()), 0);
    // with the byte order reversed, the first field's bit is in the last byte
    let mut e = Endianness::big();
    e.set_reverse_byte_order(true);
    let r = simple_example(e);
    let SolvedType::Struct(set) = &r.ty else { panic!("expected a structure") };
    let plans = gen_struct_fields(set, 7);
    assert_eq!(bytes_needed(bits(&plans[0])), 7);
}

#[test]
fn fields_wider_than_128_bits_get_no_plan() {
    let mut nested = number(0, NumberType::Unsigned, RustByteSize::One, DataBuilderRange::Size(160), Endianness::big());
    nested.ty.data_type = DataType::Nested { rust_byte_size: 20 };
    let fs = FieldSetBuilder {
        fields: vec![nested],
        fill_bits: FillBits::NoFill,
        attrs: AttrsBuilder { enforcement: StructEnforcement::NoRules, default_endianness: Endianness::big() },
    };
    let sb = StructBuilder { field_set: fs, attrs: SolvedFieldSetAttributes::default(), tuple: false };
    let s = Solved::try_from_struct_builder(&sb).ok().unwrap();
    let SolvedType::Struct(set) = &s.ty else { panic!("expected a structure") };
    assert_eq!(gen_struct_fields(set, 20), vec![FieldPlan::Unplanned]);
}
