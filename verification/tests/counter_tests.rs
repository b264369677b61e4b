use microbench::counter::{Bytes, BytesFormat, Chars, Items};

#[test]
fn bytes_of_ascii_text() {
    assert_eq!(Bytes::of_str("abcd"), Bytes::new(4u64));
}

#[test]
fn chars_of_ascii_text() {
    assert_eq!(Chars::of_str("abcd"), Chars::new(4u64));
}

#[test]
fn multibyte_text_counts() {
    // One two-byte code point and three ASCII characters.
    let s = "\u{3c0}abc";
    assert_eq!(Chars::of_str(s), Chars::new(4u64));
    assert_eq!(Bytes::of_str(s), Bytes::new(5u64));
    assert!(Bytes::of_str(s) > Bytes::new(4u64));
}

#[test]
fn bytes_of_type_and_value() {
    assert_eq!(Bytes::of::<u32>(), Bytes::new(4u64));
    assert_eq!(Bytes::of_val(&0u64), Bytes::new(8u64));
}

#[test]
fn bytes_of_slice_counts_elements() {
    let a: [i32; 3] = [1, 2, 3];
    assert_eq!(Bytes::of_slice(&a[..]), Bytes::new(12u64));
}

#[test]
fn counts_widen_from_any_unsigned() {
    assert_eq!(Items::new(7u8), Items::new(7u64));
    assert_eq!(Chars::new(9u16), Chars::new(9usize));
    assert_eq!(Bytes::new(3u32), Bytes::new(3u64));
}

#[test]
fn bytes_format_defaults_to_decimal() {
    assert_eq!(BytesFormat::default(), BytesFormat::Decimal);
    assert_ne!(BytesFormat::Binary, BytesFormat::Decimal);
}
