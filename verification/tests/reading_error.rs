use life::state::ReadingError;

#[test]
fn io_errors_convert() {
    let e = std::io::Error::new(std::io::ErrorKind::NotFound, "missing");
    match ReadingError::from(e) {
        ReadingError::Io(inner) => assert_eq!(inner.kind(), std::io::ErrorKind::NotFound),
        ReadingError::Utf8(_) => panic!("wrong variant"),
    }
}

#[test]
fn utf8_errors_convert() {
    let e = String::from_utf8(vec![0xff, 0xfe]).unwrap_err();
    match ReadingError::from(e) {
        ReadingError::Utf8(inner) => assert_eq!(inner.as_bytes(), &[0xff, 0xfe]),
        ReadingError::Io(_) => panic!("wrong variant"),
    }
}
