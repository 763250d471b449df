use bondrewd_derive::attrs::{AttrsBuilder, FieldSetBuilder, FillBits, StructEnforcement};
use bondrewd_derive::endianness::Endianness;
use bondrewd_derive::field_set::SolvedFieldSetAttributes;
use bondrewd_derive::object_attrs::{
    endianness_from_lowercase, endianness_from_string,
    str_eq, struct_builder_from_attrs, variant_settings, AttrError, BitTraversal, EnumDarling,
    EnumDarlingSimplified, EnumVariantsBuilder, ObjectDarlingSimplifiedPackage, StructDarling,
    StructDarlingSimplified, VariantDarling, VariantDarlingSimplified,
};
use bondrewd_derive::variants::VariantBuilder;

fn struct_darling() -> StructDarling {
    StructDarling {
        default_endianness: None,
        bit_traversal: None,
        reverse: false,
        dump: false,
        enforce_full_bytes: false,
        enforce_bytes: None,
        enforce_bits: None,
        fill_bits: None,
        fill_bytes: None,
        fill: false,
    }
}

fn variant_darling() -> VariantDarling {
    VariantDarling {
        id: None,
        invalid: false,
        default_endianness: None,
        bit_traversal: None,
        reverse: false,
        dump: false,
        enforce_full_bytes: false,
        enforce_bytes: None,
        enforce_bits: None,
        fill_bits: None,
        fill_bytes: None,
        fill: false,
    }
}

fn enum_darling() -> EnumDarling {
    EnumDarling {
        payload_bit_length: None,
        payload_byte_length: None,
        id_bit_length: None,
        id_byte_length: None,
        default_endianness: None,
        bit_traversal: None,
        reverse: false,
        dump: false,
        enforce_full_bytes: false,
        enforce_bytes: None,
        enforce_bits: None,
        fill_bits: None,
        fill_bytes: None,
        fill: false,
    }
}

fn unit_variant(index: usize) -> VariantBuilder {
    VariantBuilder { id: None, field_set: FieldSetBuilder::new(), tuple: false, index }
}

#[test]
fn bit_traversal_values_in_any_case() {
    assert_eq!(BitTraversal::from_string("back"), Some(BitTraversal::Back));
    assert_eq!(BitTraversal::from_string("BACK"), Some(BitTraversal::Back));
    assert_eq!(BitTraversal::from_string("Front"), Some(BitTraversal::Front));
    assert_eq!(BitTraversal::from_string("sideways"), None);
    assert_eq!(BitTraversal::from_lowercase("front"), Some(BitTraversal::Front));
    assert_eq!(BitTraversal::from_lowercase("FRONT"), None);
}

#[test]
fn string_equality() {
    assert!(str_eq("abc", "abc"));
    assert!(!str_eq("abc", "abd"));
    assert!(!str_eq("abc", "ab"));
    assert!(str_eq("", ""));
}

#[test]
fn enforcement_attributes() {
    assert_eq!(
        StructDarlingSimplified::try_solve_enforcement(true, None, None),
        Ok(StructEnforcement::EnforceFullBytes)
    );
    assert_eq!(
        StructDarlingSimplified::try_solve_enforcement(true, Some(2), None),
        Err(AttrError::MultipleEnforcements)
    );
    assert_eq!(
        StructDarlingSimplified::try_solve_enforcement(false, Some(2), None),
        Ok(StructEnforcement::EnforceBitAmount(16))
    );
    assert_eq!(
        StructDarlingSimplified::try_solve_enforcement(false, Some(2), Some(3)),
        Err(AttrError::MultipleEnforcements)
    );
    assert_eq!(
        StructDarlingSimplified::try_solve_enforcement(false, None, Some(3)),
        Ok(StructEnforcement::EnforceBitAmount(3))
    );
    assert_eq!(StructDarlingSimplified::try_solve_enforcement(false, None, None), Ok(StructEnforcement::NoRules));
}

#[test]
fn fill_attributes() {
    assert_eq!(StructDarlingSimplified::try_solve_fill_bits(None, None, true), Ok(FillBits::Auto));
    assert_eq!(StructDarlingSimplified::try_solve_fill_bits(Some(1), None, true), Err(AttrError::MultipleFills));
    assert_eq!(StructDarlingSimplified::try_solve_fill_bits(None, Some(3), false), Ok(FillBits::Bits(24)));
    assert_eq!(StructDarlingSimplified::try_solve_fill_bits(Some(1), Some(3), false), Err(AttrError::MultipleFills));
    assert_eq!(StructDarlingSimplified::try_solve_fill_bits(Some(5), None, false), Ok(FillBits::Bits(5)));
    assert_eq!(StructDarlingSimplified::try_solve_fill_bits(None, None, false), Ok(FillBits::NoFill));
}

#[test]
fn structure_attributes_apply_traversal_and_reverse() {
    let mut d = struct_darling();
    d.default_endianness = Some(Endianness::big());
    d.bit_traversal = Some(BitTraversal::Back);
    d.reverse = true;
    d.dump = true;
    d.enforce_bits = Some(12);
    let s = StructDarlingSimplified::try_from_darling(d).ok().unwrap();
    let e = s.default_endianness.unwrap();
    assert!(e.is_field_order_reversed());
    assert!(e.is_byte_order_reversed());
    assert!(s.dump);
    assert_eq!(s.enforcement, StructEnforcement::EnforceBitAmount(12));
    assert_eq!(s.fill_bits, FillBits::NoFill);

    let mut bad = struct_darling();
    bad.fill = true;
    bad.fill_bits = Some(2);
    assert_eq!(StructDarlingSimplified::try_from_darling(bad).err(), Some(AttrError::MultipleFills));
}

#[test]
fn merge_takes_what_is_set() {
    let mut a = StructDarlingSimplified::default();
    a.enforcement = StructEnforcement::EnforceFullBytes;
    a.fill_bits = FillBits::Bits(3);
    let mut b = StructDarlingSimplified::default();
    b.default_endianness = Some(Endianness::little_packed());
    b.dump = true;
    assert_eq!(a.merge(b), Ok(()));
    assert_eq!(a.enforcement, StructEnforcement::EnforceFullBytes);
    assert_eq!(a.fill_bits, FillBits::Bits(3));
    assert_eq!(a.default_endianness, Some(Endianness::little_packed()));
    assert!(a.dump);
}

#[test]
fn variant_attributes_override_inherited() {
    let mut attrs = StructDarlingSimplified::default();
    attrs.default_endianness = Some(Endianness::big());
    attrs.enforcement = StructEnforcement::EnforceFullBytes;
    let mut v = variant_darling();
    v.id = Some(4);
    v.invalid = true;
    v.reverse = true;
    v.fill_bytes = Some(1);
    let r = VariantDarlingSimplified::do_thing(v, &mut attrs);
    assert_eq!(r, Ok(VariantDarlingSimplified { id: Some(4), invalid: true }));
    // `reverse` on a variant reverses its field order
    assert!(attrs.default_endianness.unwrap().is_field_order_reversed());
    assert_eq!(attrs.enforcement, StructEnforcement::EnforceFullBytes);
    assert_eq!(attrs.fill_bits, FillBits::Bits(8));

    let mut bad = variant_darling();
    bad.enforce_full_bytes = true;
    bad.enforce_bits = Some(3);
    let mut attrs = StructDarlingSimplified::default();
    assert_eq!(VariantDarlingSimplified::do_thing(bad, &mut attrs), Err(AttrError::MultipleEnforcements));
}

#[test]
fn enum_attributes() {
    let mut d = enum_darling();
    d.payload_byte_length = Some(2);
    d.id_bit_length = Some(3);
    let p = ObjectDarlingSimplifiedPackage::try_from_darling(d).ok().unwrap();
    assert_eq!(p.enum_attrs, EnumDarlingSimplified { payload_bit_length: Some(16), id_bit_length: Some(3) });

    let mut twice = enum_darling();
    twice.payload_bit_length = Some(2);
    twice.payload_byte_length = Some(2);
    assert_eq!(ObjectDarlingSimplifiedPackage::try_from_darling(twice).err(), Some(AttrError::PayloadLengthTwice));

    let mut twice = enum_darling();
    twice.id_bit_length = Some(2);
    twice.id_byte_length = Some(2);
    assert_eq!(ObjectDarlingSimplifiedPackage::try_from_darling(twice).err(), Some(AttrError::IdLengthTwice));
}

#[test]
fn variant_settings_decide_the_id() {
    let parent = StructDarlingSimplified::default();
    let mut v = variant_darling();
    v.id = Some(1);
    assert_eq!(variant_settings(&parent, v, Some(2), 5).err(), Some(AttrError::VariantIdTwice(5)));
    let s = variant_settings(&parent, variant_darling(), Some(2), 5).ok().unwrap();
    assert_eq!(s.id, Some(2));
    assert_eq!(s.attrs.default_endianness, Endianness::nested());
    let s = variant_settings(&parent, v, None, 5).ok().unwrap();
    assert_eq!(s.id, Some(1));
}

#[test]
fn enum_variants_collect_the_default_variant() {
    let mut b = EnumVariantsBuilder::new();
    assert_eq!(b.add_variant(false, unit_variant(0)), Ok(()));
    assert_eq!(b.add_variant(true, unit_variant(1)), Ok(()));
    assert_eq!(b.add_variant(true, unit_variant(2)), Err(AttrError::SecondInvalidVariant(2)));
    assert_eq!(b.add_variant(false, unit_variant(3)), Ok(()));
    let attrs = StructDarlingSimplified::default();
    let enum_attrs = EnumDarlingSimplified { payload_bit_length: None, id_bit_length: Some(2) };
    let e = b.finish(&attrs, &enum_attrs).ok().unwrap();
    assert_eq!(e.invalid.index, 1);
    let indices: Vec<usize> = e.variants.iter().map(|v| v.index).collect();
    assert_eq!(indices, vec![0, 3]);
    assert_eq!(e.id_bit_length, Some(2));

    // without an invalid variant the last one is the default
    let mut b = EnumVariantsBuilder::new();
    b.add_variant(false, unit_variant(0)).unwrap();
    b.add_variant(false, unit_variant(1)).unwrap();
    let e = b.finish(&attrs, &enum_attrs).ok().unwrap();
    assert_eq!(e.invalid.index, 1);
    assert_eq!(e.variants.len(), 1);

    let b = EnumVariantsBuilder::new();
    assert_eq!(b.finish(&attrs, &enum_attrs).err(), Some(AttrError::NoVariants));
}

#[test]
fn structure_builder_from_attributes() {
    let mut attrs = StructDarlingSimplified::default();
    attrs.fill_bits = FillBits::Auto;
    attrs.dump = true;
    let sb = struct_builder_from_attrs(&attrs, Vec::new(), true);
    assert_eq!(sb.field_set.fill_bits, FillBits::Auto);
    assert_eq!(sb.attrs, SolvedFieldSetAttributes { dump: true });
    assert!(sb.tuple);
    let expected = AttrsBuilder { enforcement: StructEnforcement::NoRules, default_endianness: Endianness::nested() };
    assert_eq!(sb.field_set.attrs.enforcement, expected.enforcement);
    assert_eq!(sb.field_set.attrs.default_endianness, expected.default_endianness);
}

#[test]
fn endianness_names_in_any_case() {
    assert_eq!(endianness_from_string("LE"), Some(Endianness::little_packed()));
    assert_eq!(endianness_from_string("Little"), Some(Endianness::little_packed()));
    assert_eq!(endianness_from_string("lilali"), Some(Endianness::little_aligned()));
    assert_eq!(endianness_from_string("MSB"), Some(Endianness::big()));
    assert_eq!(endianness_from_string("Native"), Some(Endianness::nested()));
    assert_eq!(endianness_from_string("middle"), None);
    assert_eq!(endianness_from_lowercase("BE"), None);
    assert_eq!(endianness_from_lowercase("be"), Some(Endianness::big()));
}
