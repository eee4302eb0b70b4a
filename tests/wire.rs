use udp_auth::wire::{parse_u32, push_decimal, push_fixed_field, split_bytes, trimmed_field};

#[test]
fn parses_unsigned_decimal() {
    assert_eq!(parse_u32(b"0"), Some(0));
    assert_eq!(parse_u32(b"42"), Some(42));
    assert_eq!(parse_u32(b"+42"), Some(42));
    assert_eq!(parse_u32(b"007"), Some(7));
    assert_eq!(parse_u32(b"4294967295"), Some(u32::MAX));
    assert_eq!(parse_u32(b"4294967296"), None);
    assert_eq!(parse_u32(b"99999999999999999999"), None);
    assert_eq!(parse_u32(b""), None);
    assert_eq!(parse_u32(b"+"), None);
    assert_eq!(parse_u32(b" 1"), None);
    assert_eq!(parse_u32(b"1a"), None);
}

#[test]
fn writes_decimal() {
    let mut v = b"n=".to_vec();
    push_decimal(&mut v, 0);
    assert_eq!(v, b"n=0".to_vec());
    let mut w = Vec::new();
    push_decimal(&mut w, u32::MAX);
    assert_eq!(w, b"4294967295".to_vec());
}

#[test]
fn fixed_fields_cut_and_pad() {
    let mut v = vec![9u8];
    push_fixed_field(&mut v, b"abcdef", 4);
    assert_eq!(v, vec![9u8, b'a', b'b', b'c', b'd']);
    let mut w = Vec::new();
    push_fixed_field(&mut w, b"ab", 4);
    assert_eq!(w, vec![b'a', b'b', 0, 0]);
}

#[test]
fn trims_trailing_zeros_only() {
    let b = [0u8, b'a', 0, b'b', 0, 0];
    assert_eq!(trimmed_field(&b, 0, 6), vec![0u8, b'a', 0, b'b']);
    assert_eq!(trimmed_field(&b, 4, 2), Vec::<u8>::new());
}

#[test]
fn splits_on_separator() {
    assert_eq!(
        split_bytes(b"a+b++c", b'+'),
        vec![b"a".to_vec(), b"b".to_vec(), vec![], b"c".to_vec()]
    );
    assert_eq!(split_bytes(b"abc", b'+'), vec![b"abc".to_vec()]);
}
