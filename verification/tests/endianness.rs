use bondrewd_derive::endianness::{ByteOrder, Endianness, EndiannessMode, FieldOrder};

#[test]
fn documented_endianness_orders() {
    let big = Endianness::big();
    assert!(!big.is_field_order_reversed());
    assert!(!big.is_byte_order_reversed());
    assert!(big.is_standard());
    assert!(big.has_endianness());

    let aligned = Endianness::little_aligned();
    assert!(aligned.is_field_order_reversed());
    assert!(aligned.is_byte_order_reversed());

    let packed = Endianness::little_packed();
    assert!(!packed.is_field_order_reversed());
    assert!(!packed.is_byte_order_reversed());
    assert!(packed.is_alternative());

    let nested = Endianness::nested();
    assert!(!nested.is_field_order_reversed());
    assert!(!nested.is_byte_order_reversed());
    assert!(!nested.has_endianness());
    assert_eq!(nested.mode(), EndiannessMode::Nested);
}

#[test]
fn reverse_flags_flip_orders() {
    let mut e = Endianness::big();
    e.set_reverse_field_order(true);
    assert!(e.is_field_order_reversed());
    e.set_reverse_byte_order(true);
    assert!(e.is_byte_order_reversed());
    e.reverse_byte_order();
    assert!(!e.is_byte_order_reversed());

    let mut p = Endianness::little_packed();
    p.set_reverse_field_order(true);
    assert!(p.is_field_order_reversed());
}

#[test]
fn set_orders_and_mode() {
    let mut e = Endianness::default();
    assert_eq!(e, Endianness::nested());
    e.set_mode(EndiannessMode::Standard);
    assert!(e.is_standard());
    e.set_byte_order(ByteOrder::LastToFirst);
    assert!(e.is_byte_order_reversed());
    assert!(ByteOrder::LastToFirst.is_reversed());
    assert!(!ByteOrder::FirstToLast.is_reversed());
    assert_eq!(e.field_order, FieldOrder::FirstToLast);
}

#[test]
fn perhaps_endianness_for_single_bytes() {
    let mut e = Endianness::nested();
    assert!(e.perhaps_endianness(1));
    assert!(e.has_endianness());
    let mut z = Endianness::nested();
    assert!(z.perhaps_endianness(0));
    assert!(z.has_endianness());
    let mut f = Endianness::nested();
    assert!(!f.perhaps_endianness(4));
    assert!(!f.has_endianness());
}
