use hurl::fs::{string_from_utf8, strip_bom, CliError};

#[test]
fn test_strip_bom() {
    let mut bytes = vec![];
    strip_bom(&mut bytes);
    assert!(bytes.is_empty());

    let mut bytes = vec![0xef, 0xbb, 0xbf, 0x68, 0x65, 0x6c, 0x6c, 0x6f];
    strip_bom(&mut bytes);
    assert_eq!(bytes, vec![0x68, 0x65, 0x6c, 0x6c, 0x6f]);

    let mut bytes = vec![0x68, 0x65, 0x6c, 0x6c, 0x6f];
    strip_bom(&mut bytes);
    assert_eq!(bytes, vec![0x68, 0x65, 0x6c, 0x6c, 0x6f]);
}

#[test]
fn test_string_from_utf8_bom() {
    let mut bytes = vec![];
    strip_bom(&mut bytes);
    assert_eq!(string_from_utf8(vec![]).unwrap(), "");
    assert_eq!(
        string_from_utf8(vec![0xef, 0xbb, 0xbf, 0x68, 0x65, 0x6c, 0x6c, 0x6f]).unwrap(),
        "hello"
    );
    assert_eq!(string_from_utf8(vec![0x68, 0x65, 0x6c, 0x6c, 0x6f]).unwrap(), "hello");
    assert_eq!(
        string_from_utf8(vec![0xef]).err().unwrap(),
        CliError {
            message: "incomplete utf-8 byte sequence from index 0".to_string()
        }
    );
}

#[test]
fn test_strip_bom_only_at_start() {
    let mut bytes = vec![0x41, 0xef, 0xbb, 0xbf];
    strip_bom(&mut bytes);
    assert_eq!(bytes, vec![0x41, 0xef, 0xbb, 0xbf]);
    let mut bytes = vec![0xef, 0xbb];
    strip_bom(&mut bytes);
    assert_eq!(bytes, vec![0xef, 0xbb]);
    assert_eq!(
        string_from_utf8(vec![0x61, 0xff]).err().unwrap().message,
        "invalid utf-8 sequence of 1 bytes from index 1"
    );
}
