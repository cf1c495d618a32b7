use mirajazz::text::extract_str;

#[test]
fn extract_str_removes_nul_symbols() {
    assert_eq!(extract_str(b"\0CRT\0 1.2\0\0").unwrap(), "CRT 1.2");
}

#[test]
fn extract_str_keeps_other_text() {
    assert_eq!(extract_str("Größe 5 \u{1F600}".as_bytes()).unwrap(), "Größe 5 \u{1F600}");
    assert_eq!(extract_str(b"").unwrap(), "");
    assert_eq!(extract_str(&[0, 0, 0]).unwrap(), "");
}

#[test]
fn extract_str_refuses_what_is_not_utf8() {
    let error = extract_str(&[0x41, 0x00, 0xff]).unwrap_err();
    assert_eq!(error.valid_up_to(), 2);
    assert!(extract_str(&[0xc3]).is_err());
    assert!(extract_str(&[0xed, 0xa0, 0x80]).is_err());
}

#[test]
fn extract_str_checks_the_bytes_before_nul_symbols_go() {
    let error = extract_str(&[0xc3, 0x00, 0xa9]).unwrap_err();
    assert_eq!(error.valid_up_to(), 0);
    assert_eq!(error, std::str::from_utf8(&[0xc3, 0x00, 0xa9]).unwrap_err());
}
