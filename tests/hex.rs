use hashsum::hex::to_hex;

#[test]
fn hex_renders_each_byte_as_two_lowercase_digits() {
    assert_eq!(to_hex(&[]), "");
    assert_eq!(to_hex(&[0x00, 0x0f, 0xab, 0xff, 0x10]), "000fabff10");
    let all: Vec<u8> = (0..=255u8).collect();
    let text = to_hex(&all);
    assert_eq!(text.len(), 512);
    assert_eq!(&text[..6], "000102");
    assert_eq!(&text[506..], "fdfeff");
}

#[test]
fn hex_rendering_is_repeatable() {
    let bytes = [0xde, 0xad, 0xbe, 0xef];
    assert_eq!(to_hex(&bytes), to_hex(&bytes));
    assert_eq!(to_hex(&bytes), "deadbeef");
}
