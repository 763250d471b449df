use bondrewd_derive::endianness::Endianness;
use bondrewd_derive::field::{BuilderRange, OverlapOptions, ReserveFieldOption};
use bondrewd_derive::field_attrs::{
    get_lit_range, metas_fit_check, read_bits_text, AttrBuilder, AttrBuilderType, BitsText, FieldAttrError,
    FieldAttrName, FieldMeta, LastField, LitRange, MetaValue, RangeBound, RangeProblem,
};

fn nv(name: &str, value: MetaValue) -> FieldMeta {
    FieldMeta::NameValue { name: Some(name.to_string()), value }
}

fn path(name: &str) -> FieldMeta {
    FieldMeta::Path { name: Some(name.to_string()) }
}

fn int_value(x: usize) -> MetaValue {
    MetaValue::Int(Ok(x))
}

fn text(s: &str) -> MetaValue {
    MetaValue::Str(s.to_string())
}

fn after(end: usize) -> Option<LastField> {
    Some(LastField { end, is_variant_id: false })
}

fn range_of(b: &AttrBuilder) -> Option<std::ops::Range<usize>> {
    match &b.bit_range {
        BuilderRange::Range(r) => Some(r.clone()),
        _ => None,
    }
}

#[test]
fn bit_length_follows_last_field() {
    let b = AttrBuilder::parse(&vec![nv("bit_length", int_value(5))], after(3)).unwrap();
    assert_eq!(range_of(&b), Some(3..8));
    let b = AttrBuilder::parse(&vec![nv("byte_length", int_value(2))], None).unwrap();
    assert_eq!(range_of(&b), Some(0..16));
}

#[test]
fn unplaced_field_follows_last() {
    let b = AttrBuilder::parse(&vec![path("reserve")], after(11)).unwrap();
    assert!(matches!(b.bit_range, BuilderRange::LastEnd(11)));
    assert_eq!(b.reserve, ReserveFieldOption::ReserveField);
    let b = AttrBuilder::parse(&vec![], None).unwrap();
    assert!(matches!(b.bit_range, BuilderRange::LastEnd(0)));
}

#[test]
fn doc_and_second_length() {
    let b = AttrBuilder::parse(&vec![nv("doc", text("a field")), path("doc")], None).unwrap();
    assert!(matches!(b.bit_range, BuilderRange::LastEnd(0)));
    let r = AttrBuilder::parse(&vec![nv("bit_length", int_value(5)), nv("byte_length", int_value(1))], None);
    assert_eq!(r.err(), Some(FieldAttrError::LengthTwice(FieldAttrName::ByteLength)));
}

#[test]
fn endianness_names() {
    let b = AttrBuilder::parse(&vec![nv("endianness", text("BE"))], None).unwrap();
    assert_eq!(b.endianness, Endianness::big());
    let b = AttrBuilder::parse(&vec![nv("endianness", text("little"))], None).unwrap();
    assert_eq!(b.endianness, Endianness::little_packed());
    let b = AttrBuilder::parse(&vec![nv("endianness", text("ale"))], None).unwrap();
    assert_eq!(b.endianness, Endianness::little_aligned());
    let r = AttrBuilder::parse(&vec![nv("endianness", text("sideways"))], None);
    assert_eq!(r.err(), Some(FieldAttrError::UnknownEndianness));
    let r = AttrBuilder::parse(&vec![nv("endianness", int_value(3))], None);
    assert_eq!(r.err(), Some(FieldAttrError::ExpectedStr(FieldAttrName::Endianness)));
}

#[test]
fn types_and_arrays() {
    let b = AttrBuilder::parse(&vec![nv("enum_primitive", text("U16")), nv("element_bit_length", int_value(4))], after(2)).unwrap();
    assert_eq!(b.ty, AttrBuilderType::ElementArray(4, Box::new(Some(AttrBuilderType::Enum(2)))));
    assert!(matches!(b.bit_range, BuilderRange::LastEnd(2)));
    let b = AttrBuilder::parse(&vec![nv("struct_size", int_value(3)), nv("block_byte_length", int_value(2))], None).unwrap();
    assert_eq!(b.ty, AttrBuilderType::BlockArray(Box::new(Some(AttrBuilderType::Struct(3)))));
    assert_eq!(range_of(&b), Some(0..16));
    let r = AttrBuilder::parse(&vec![nv("struct_size", int_value(3)), nv("enum_primitive", text("u8"))], None);
    assert_eq!(r.err(), Some(FieldAttrError::TypeTwice));
    let r = AttrBuilder::parse(&vec![nv("enum_primitive", text("i8"))], None);
    assert_eq!(r.err(), Some(FieldAttrError::UnknownEnumPrimitive));
    let r = AttrBuilder::parse(&vec![nv("bit_length", int_value(8)), nv("block_bit_length", int_value(9))], None);
    assert_eq!(r.err(), Some(FieldAttrError::BlockLengthMismatch(FieldAttrName::BlockBitLength)));
    let r = AttrBuilder::parse(&vec![nv("element_bit_length", int_value(2)), nv("element_byte_length", int_value(1))], None);
    assert_eq!(r.err(), Some(FieldAttrError::NoEndWithArray(FieldAttrName::ElementByteLength)));
}

#[test]
fn bits_ranges() {
    let lr = LitRange { start: RangeBound::Int(Ok(2)), end: RangeBound::Int(Ok(5)), closed: false };
    let b = AttrBuilder::parse(&vec![nv("bits", MetaValue::Range(lr))], None).unwrap();
    assert_eq!(range_of(&b), Some(2..5));
    let closed = LitRange { start: RangeBound::Int(Ok(2)), end: RangeBound::Int(Ok(5)), closed: true };
    assert_eq!(get_lit_range(&closed), Ok(2..6));
    let no_start = LitRange { start: RangeBound::Missing, end: RangeBound::Int(Ok(5)), closed: false };
    assert_eq!(
        get_lit_range(&no_start),
        Err(FieldAttrError::BitsRangeEnd { end: false, problem: RangeProblem::Missing })
    );
    let bad_end = LitRange { start: RangeBound::Int(Ok(1)), end: RangeBound::NotLiteral, closed: false };
    assert_eq!(
        get_lit_range(&bad_end),
        Err(FieldAttrError::BitsRangeEnd { end: true, problem: RangeProblem::NotLiteral })
    );
    let b = AttrBuilder::parse(&vec![nv("bits", text("3..9"))], None).unwrap();
    assert_eq!(range_of(&b), Some(3..9));
    let r = AttrBuilder::parse(&vec![nv("bits", text("3..=9"))], None);
    assert_eq!(r.err(), Some(FieldAttrError::BitsTextDeprecated));
    let r = AttrBuilder::parse(&vec![nv("bits", int_value(4))], None);
    assert_eq!(r.err(), Some(FieldAttrError::BitsNotRange));
    let r = AttrBuilder::parse(&vec![nv("bit_length", int_value(4)), nv("bits", text("0..4"))], None);
    assert_eq!(r.err(), Some(FieldAttrError::BitsTwice));
}

#[test]
fn bits_texts() {
    assert_eq!(read_bits_text("0..2"), BitsText::Range(0, 2));
    assert_eq!(read_bits_text("0..2..4"), BitsText::Ignored);
    assert_eq!(read_bits_text("12"), BitsText::Ignored);
    assert_eq!(read_bits_text("1..x"), BitsText::BadEnd { has_equals: false });
    assert_eq!(read_bits_text("x..1"), BitsText::BadStart);
    assert_eq!(read_bits_text(".."), BitsText::BadBoth);
    assert_eq!(read_bits_text("+3..+10"), BitsText::Range(3, 10));
    assert_eq!(read_bits_text(" 3..10"), BitsText::BadStart);
    assert_eq!(read_bits_text("-3..10"), BitsText::BadStart);
    assert_eq!(read_bits_text("3..=10"), BitsText::BadEnd { has_equals: true });
    assert_eq!(read_bits_text("0..99999999999999999999999"), BitsText::BadEnd { has_equals: false });
}

#[test]
fn path_attributes() {
    let b = AttrBuilder::parse(&vec![path("redundant")], None).unwrap();
    assert_eq!(b.overlap, OverlapOptions::Redundant);
    assert_eq!(b.reserve, ReserveFieldOption::ReadOnly);
    let b = AttrBuilder::parse(&vec![path("read_only"), nv("overlapping_bits", int_value(3))], None).unwrap();
    assert_eq!(b.reserve, ReserveFieldOption::ReadOnly);
    assert_eq!(b.overlap, OverlapOptions::Allow(3));
    let id = Some(LastField { end: 3, is_variant_id: true });
    let b = AttrBuilder::parse(&vec![path("capture_id")], id).unwrap();
    assert!(b.capture_id);
    let r = AttrBuilder::parse(&vec![path("capture_id")], after(3));
    assert_eq!(r.err(), Some(FieldAttrError::CaptureIdNotFirst));
    let r = AttrBuilder::parse(&vec![path("frobnicate")], None);
    assert_eq!(r.err(), Some(FieldAttrError::NotValidAttribute("frobnicate".to_string())));
    let r = AttrBuilder::parse(&vec![FieldMeta::List], None);
    assert_eq!(r.err(), Some(FieldAttrError::ListAttribute));
    let r = AttrBuilder::parse(&vec![nv("bit_length", MetaValue::Int(Err("too large".to_string())))], None);
    assert_eq!(r.err(), Some(FieldAttrError::NotUsize(FieldAttrName::BitLength, "too large".to_string())));
}

#[test]
fn attributes_once_bits_known() {
    let b = AttrBuilder::parse(&vec![nv("bit_length", int_value(4))], after(1)).unwrap();
    let a = b.try_into_attributes().ok().unwrap();
    assert_eq!(a.bit_range, 1..5);
    let b = AttrBuilder::parse(&vec![], after(1)).unwrap();
    let e = b.try_into_attributes().err().unwrap();
    let fixed = e.fix(1..9);
    assert_eq!(fixed.bit_range, 1..9);
}

#[test]
fn sums_that_leave_usize_are_found() {
    let long = vec![nv("bit_length", MetaValue::Int(Ok(usize::MAX)))];
    assert!(metas_fit_check(&long, None));
    assert!(!metas_fit_check(&long, Some(LastField { end: 1, is_variant_id: false })));
    let bytes = vec![nv("byte_length", MetaValue::Int(Ok(usize::MAX / 8 + 1)))];
    assert!(!metas_fit_check(&bytes, None));
    // once an attribute is refused, what follows is never read
    let refused = vec![nv("not_an_attribute", MetaValue::Int(Ok(1))), nv("byte_length", MetaValue::Int(Ok(usize::MAX)))];
    assert!(metas_fit_check(&refused, None));
}
