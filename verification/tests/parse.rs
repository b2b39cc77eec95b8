use tls_sni::error::ParseError;
use tls_sni::tls::{parse_client_hello, parse_tls_record, TlsClientHello, TlsRecord};

// A ClientHello captured without a server name extension.
fn hello_without_sni() -> Vec<u8> {
    vec![
        0x16, 0x03, 0x01, 0x00, 0xa1, 0x01, 0x00, 0x00, 0x9d, 0x03, 0x03, 0x52, 0x36, 0x2c, 0x10,
        0x12, 0xcf, 0x23, 0x62, 0x82, 0x56, 0xe7, 0x45, 0xe9, 0x03, 0xce, 0xa6, 0x96, 0xe9, 0xf6,
        0x2a, 0x60, 0xba, 0x0a, 0xe8, 0x31, 0x1d, 0x70, 0xde, 0xa5, 0xe4, 0x19, 0x49, 0x00, 0x00,
        0x04, 0xc0, 0x30, 0x00, 0xff, 0x02, 0x01, 0x00, 0x00, 0x6f, 0x00, 0x0b, 0x00, 0x04, 0x03,
        0x00, 0x01, 0x02, 0x00, 0x0a, 0x00, 0x34, 0x00, 0x32, 0x00, 0x0e, 0x00, 0x0d, 0x00, 0x19,
        0x00, 0x0b, 0x00, 0x0c, 0x00, 0x18, 0x00, 0x09, 0x00, 0x0a, 0x00, 0x16, 0x00, 0x17, 0x00,
        0x08, 0x00, 0x06, 0x00, 0x07, 0x00, 0x14, 0x00, 0x15, 0x00, 0x04, 0x00, 0x05, 0x00, 0x12,
        0x00, 0x13, 0x00, 0x01, 0x00, 0x02, 0x00, 0x03, 0x00, 0x0f, 0x00, 0x10, 0x00, 0x11, 0x00,
        0x23, 0x00, 0x00, 0x00, 0x0d, 0x00, 0x22, 0x00, 0x20, 0x06, 0x01, 0x06, 0x02, 0x06, 0x03,
        0x05, 0x01, 0x05, 0x02, 0x05, 0x03, 0x04, 0x01, 0x04, 0x02, 0x04, 0x03, 0x03, 0x01, 0x03,
        0x02, 0x03, 0x03, 0x02, 0x01, 0x02, 0x02, 0x02, 0x03, 0x01, 0x01, 0x00, 0x0f, 0x00, 0x01,
        0x01,
    ]
}

// A ClientHello captured with a server name extension for www.google.com.
fn hello_with_sni() -> Vec<u8> {
    vec![
        0x16, 0x03, 0x01, 0x00, 0xba, 0x01, 0x00, 0x00, 0xb6, 0x03, 0x03, 0xce, 0xf3, 0xc8, 0x77,
        0x36, 0x6a, 0x81, 0x3b, 0x2f, 0x22, 0xc8, 0xd3, 0x29, 0xed, 0xf8, 0xb6, 0xec, 0xd9, 0x73,
        0xfb, 0x76, 0x66, 0x6c, 0xbb, 0xa0, 0x50, 0xbd, 0x42, 0x13, 0xd5, 0xc4, 0xf1, 0x00, 0x00,
        0x1e, 0xc0, 0x2b, 0xc0, 0x2f, 0xcc, 0xa9, 0xcc, 0xa8, 0xc0, 0x2c, 0xc0, 0x30, 0xc0, 0x0a,
        0xc0, 0x09, 0xc0, 0x13, 0xc0, 0x14, 0x00, 0x33, 0x00, 0x39, 0x00, 0x2f, 0x00, 0x35, 0x00,
        0x0a, 0x01, 0x00, 0x00, 0x6f, 0x00, 0x00, 0x00, 0x13, 0x00, 0x11, 0x00, 0x00, 0x0e, 0x77,
        0x77, 0x77, 0x2e, 0x67, 0x6f, 0x6f, 0x67, 0x6c, 0x65, 0x2e, 0x63, 0x6f, 0x6d, 0x00, 0x17,
        0x00, 0x00, 0xff, 0x01, 0x00, 0x01, 0x00, 0x00, 0x0a, 0x00, 0x0a, 0x00, 0x08, 0x00, 0x1d,
        0x00, 0x17, 0x00, 0x18, 0x00, 0x19, 0x00, 0x0b, 0x00, 0x02, 0x01, 0x00, 0x00, 0x23, 0x00,
        0x00, 0x00, 0x10, 0x00, 0x0e, 0x00, 0x0c, 0x02, 0x68, 0x32, 0x08, 0x68, 0x74, 0x74, 0x70,
        0x2f, 0x31, 0x2e, 0x31, 0x00, 0x05, 0x00, 0x05, 0x01, 0x00, 0x00, 0x00, 0x00, 0x00, 0x0d,
        0x00, 0x18, 0x00, 0x16, 0x04, 0x03, 0x05, 0x03, 0x06, 0x03, 0x08, 0x04, 0x08, 0x05, 0x08,
        0x06, 0x04, 0x01, 0x05, 0x01, 0x06, 0x01, 0x02, 0x03, 0x02, 0x01,
    ]
}

#[test]
fn test_parse_without_server_name() {
    let data = hello_without_sni();
    if let Ok(TlsRecord {
        content_type,
        version_major,
        version_minor,
        fragment,
    }) = parse_tls_record(&data)
    {
        assert_eq!(22, content_type);
        assert_eq!(3, version_major);
        assert_eq!(1, version_minor);
        assert_eq!(161, fragment.len());
        assert_eq!(1, fragment[0]);
        assert_eq!(Some(&1), fragment.last());
    } else {
        assert!(false);
    };

    let TlsClientHello { server_name, .. } = parse_client_hello(&data).unwrap();
    assert_eq!(None, server_name);
}

#[test]
fn test_parse_with_server_name() {
    let data = hello_with_sni();
    let TlsClientHello { server_name, .. } = parse_client_hello(&data).unwrap();
    assert_eq!(Some("www.google.com"), server_name);
}

#[test]
fn hostname_is_borrowed_from_the_buffer() {
    let data = hello_with_sni();
    let hello = parse_client_hello(&data).unwrap();
    let name = hello.server_name.unwrap();
    assert!(data
        .windows(name.len())
        .any(|window| window == name.as_bytes()));
}

#[test]
fn truncated_prefixes_never_panic() {
    let data = hello_with_sni();
    for cut in 0..data.len() {
        let _ = parse_client_hello(&data[..cut]);
    }
    let data = hello_without_sni();
    for cut in 0..data.len() {
        let _ = parse_client_hello(&data[..cut]);
    }
}

#[test]
fn empty_buffer_lacks_length_field() {
    assert!(matches!(
        parse_client_hello(&[]),
        Err(ParseError::TruncatedLength)
    ));
}

#[test]
fn declared_record_longer_than_buffer() {
    let data = [0x16, 0x03, 0x01, 0x00, 0x0a, 0x01];
    assert!(matches!(
        parse_client_hello(&data),
        Err(ParseError::TruncatedBody)
    ));
}

#[test]
fn wrong_major_version_is_unsupported() {
    let mut data = hello_with_sni();
    data[1] = 0x04;
    assert!(matches!(
        parse_client_hello(&data),
        Err(ParseError::UnsupportedVersion)
    ));
}

#[test]
fn wrong_content_type_is_not_handshake() {
    let mut data = hello_with_sni();
    data[0] = 0x15;
    assert!(matches!(
        parse_client_hello(&data),
        Err(ParseError::NotHandshake)
    ));
}

#[test]
fn wrong_handshake_type_is_not_client_hello() {
    let mut data = hello_with_sni();
    data[5] = 0x02;
    assert!(matches!(
        parse_client_hello(&data),
        Err(ParseError::NotClientHello)
    ));
}

#[test]
fn wrong_client_version_is_unsupported() {
    let mut data = hello_with_sni();
    data[9] = 0x04;
    assert!(matches!(
        parse_client_hello(&data),
        Err(ParseError::UnsupportedClientVersion)
    ));
}
