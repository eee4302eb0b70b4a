use udp_auth::check::{AuthError, ErrorMessage};
use udp_auth::package::Package;
use udp_auth::sas::{
    request_package, validation_package, SASPackageRequest, SASPackageResponse, SASPackageStatus,
    SASPackageValidation, SasEntry,
};

fn padded(s: &[u8], width: usize) -> Vec<u8> {
    let mut v = s.to_vec();
    v.resize(width, 0);
    v
}

fn reply(type_lo: u8, id: &[u8], nonce: u32, token: &[u8]) -> Vec<u8> {
    let mut b = vec![0u8, type_lo];
    b.extend_from_slice(&padded(id, 12));
    b.extend_from_slice(&nonce.to_be_bytes());
    b.extend_from_slice(token);
    b
}

#[test]
fn itr_example_encodes_and_renders() {
    let p = SASPackageRequest::new("ABC123", "42").unwrap();
    let mut expected = vec![0x00u8, 0x01];
    expected.extend_from_slice(b"ABC123\0\0\0\0\0\0");
    expected.extend_from_slice(&[0x00, 0x00, 0x00, 0x2A]);
    assert_eq!(p.as_bytes(), &expected);

    let r = SASPackageResponse::new(&reply(2, b"ABC123", 42, b"tok-xyz")).unwrap();
    assert_eq!(r.render(), "ABC123:42:tok-xyz");
    assert_eq!(r.entry().id, b"ABC123".to_vec());
    assert_eq!(r.entry().nonce, 42);
    assert_eq!(r.entry().token, b"tok-xyz".to_vec());
}

#[test]
fn request_round_trip() {
    let p = SASPackageRequest::new("user7", "4294967295").unwrap();
    let mut b = p.as_bytes().clone();
    assert_eq!(b.len(), 18);
    b[1] = 2;
    let r = SASPackageResponse::new(&b).unwrap();
    assert_eq!(r.entry().id, b"user7".to_vec());
    assert_eq!(r.entry().nonce, 4294967295);
    assert_eq!(r.entry().token, Vec::<u8>::new());
}

#[test]
fn validation_round_trip() {
    let p = SASPackageValidation::new("id-1", "0", "secret-token").unwrap();
    let mut b = p.as_bytes().clone();
    assert_eq!(b.len(), 82);
    assert_eq!(&b[0..2], &[0u8, 3]);
    let mut echo = vec![0u8, 6, 0, 1];
    echo.extend_from_slice(&b[2..82]);
    let g = udp_auth::gas::GASPackageResponse::new(&echo, 1).unwrap();
    assert_eq!(g.entries()[0].id, b"id-1".to_vec());
    assert_eq!(g.entries()[0].nonce, 0);
    assert_eq!(g.entries()[0].token, b"secret-token".to_vec());
    b[1] = 2;
    let r = SASPackageResponse::new(&b).unwrap();
    assert_eq!(r.entry().id, b"id-1".to_vec());
    assert_eq!(r.entry().token, padded(b"secret-token", 64));
}

#[test]
fn response_token_is_rest_of_datagram() {
    let r = SASPackageResponse::new(&reply(2, b"ABC", 7, b"tok\0\0")).unwrap();
    assert_eq!(r.entry().token, b"tok\0\0".to_vec());
    assert_eq!(r.entry().id, b"ABC".to_vec());
    assert_eq!(r.render(), "ABC:7:tok\0\0");
}

#[test]
fn long_id_and_token_are_cut() {
    let p = SASPackageRequest::new("ABCDEFGHIJKLMNOP", "1").unwrap();
    assert_eq!(&p.as_bytes()[2..14], b"ABCDEFGHIJKL");
    assert_eq!(p.as_bytes().len(), 18);
    let token: String = std::iter::repeat('t').take(70).collect();
    let v = SASPackageValidation::new("ABCDEFGHIJKLMNOP", "1", &token).unwrap();
    assert_eq!(v.as_bytes().len(), 82);
    assert_eq!(&v.as_bytes()[2..14], b"ABCDEFGHIJKL");
    assert_eq!(&v.as_bytes()[18..82], &token.as_bytes()[..64]);
}

#[test]
fn short_fields_are_zero_padded() {
    let v = SASPackageValidation::new("a", "258", "tk").unwrap();
    let b = v.as_bytes();
    assert_eq!(&b[2..14], &padded(b"a", 12)[..]);
    assert_eq!(&b[14..18], &[0u8, 0, 1, 2]);
    assert_eq!(&b[18..82], &padded(b"tk", 64)[..]);
}

#[test]
fn bad_nonce_is_invalid_argument() {
    assert_eq!(SASPackageRequest::new("a", "abc").err(), Some(AuthError::InvalidArgument));
    assert_eq!(SASPackageRequest::new("a", "").err(), Some(AuthError::InvalidArgument));
    assert_eq!(SASPackageRequest::new("a", "-1").err(), Some(AuthError::InvalidArgument));
    assert_eq!(
        SASPackageRequest::new("a", "4294967296").err(),
        Some(AuthError::InvalidArgument)
    );
    assert_eq!(SASPackageValidation::new("a", "1x", "t").err(), Some(AuthError::InvalidArgument));
    assert!(SASPackageRequest::new("a", "+7").is_ok());
}

#[test]
fn invalid_parameter_wins_over_expected_kind() {
    let b = vec![1u8, 0, 0, 3, 9, 9, 9];
    let e = Some(AuthError::Protocol(ErrorMessage::InvalidParameter));
    assert_eq!(SASPackageResponse::new(&b).err(), e);
    assert_eq!(SASPackageStatus::new(&b).err(), e);
    assert_eq!(udp_auth::gas::GASPackageResponse::new(&b, 0).err(), e);
    assert_eq!(udp_auth::gas::GASPackageStatus::new(&b, 0).err(), e);
    assert_eq!(udp_auth::gas::GASPackageStatus::new(&b, usize::MAX).err(), e);
    assert_eq!(udp_auth::gas::GASPackageResponse::new(&b, usize::MAX).err(), e);
    assert_eq!(Package::new_response_itr(&b).err(), e);
    assert_eq!(ErrorMessage::InvalidParameter.text(), "Error: Invalid parameter!");
}

#[test]
fn every_error_code_has_its_text() {
    let texts = [
        (1u8, ErrorMessage::InvalidMessageCode, "Error: Invalid message code!"),
        (2, ErrorMessage::IncorrectMessageLength, "Error: Incorrect message length!"),
        (3, ErrorMessage::InvalidParameter, "Error: Invalid parameter!"),
        (4, ErrorMessage::InvalidSingleToken, "Error: Invalid single token!"),
        (5, ErrorMessage::AsciiDecodeError, "Error: ASCII decode error!"),
    ];
    for (code, m, text) in texts {
        let b = vec![1u8, 0, 0, code];
        assert_eq!(SASPackageResponse::new(&b).err(), Some(AuthError::Protocol(m)));
        assert_eq!(m.text(), text);
    }
}

#[test]
fn wrong_kind_is_unexpected() {
    let b = reply(4, b"ABC123", 42, b"tok");
    assert_eq!(SASPackageResponse::new(&b).err(), Some(AuthError::UnexpectedTokenType));
    let unknown_code = vec![1u8, 0, 0, 9];
    assert_eq!(
        SASPackageResponse::new(&unknown_code).err(),
        Some(AuthError::UnexpectedTokenType)
    );
}

#[test]
fn short_packets_are_truncated() {
    assert_eq!(SASPackageResponse::new(&[0u8]).err(), Some(AuthError::Truncated));
    assert_eq!(SASPackageResponse::new(&[1u8, 0]).err(), Some(AuthError::Truncated));
    assert_eq!(SASPackageResponse::new(&[0u8, 2, 65]).err(), Some(AuthError::Truncated));
    assert_eq!(SASPackageStatus::new(&padded(&[0, 4], 82)).err(), Some(AuthError::Truncated));
}

#[test]
fn non_ascii_field_is_encoding_error() {
    let mut b = reply(2, b"ABC", 1, b"tok");
    b[3] = 0xFF;
    assert_eq!(SASPackageResponse::new(&b).err(), Some(AuthError::EncodingError));
    let mut c = reply(2, b"ABC", 1, b"tok");
    c[19] = 0x80;
    assert_eq!(SASPackageResponse::new(&c).err(), Some(AuthError::EncodingError));
}

#[test]
fn status_byte_after_echo() {
    let mut b = padded(&[0, 4], 82);
    b.push(1);
    let s = SASPackageStatus::new(&b).unwrap();
    assert_eq!(s.status(), 1);
    assert_eq!(s.as_bytes(), &b);
}

#[test]
fn request_arguments() {
    let args = vec!["ABC123".to_string(), "42".to_string()];
    let p = request_package(&args).unwrap();
    assert_eq!(p.as_bytes(), SASPackageRequest::new("ABC123", "42").unwrap().as_bytes());
    assert_eq!(
        request_package(&vec!["ABC123".to_string()]).err(),
        Some(AuthError::InvalidArgument)
    );
}

#[test]
fn validation_arguments() {
    let p = validation_package(&vec!["id:5:tok".to_string()]).unwrap();
    assert_eq!(p.as_bytes(), SASPackageValidation::new("id", "5", "tok").unwrap().as_bytes());
    let extra = validation_package(&vec!["id:5:tok:more".to_string()]).unwrap();
    assert_eq!(extra.as_bytes(), p.as_bytes());
    assert_eq!(
        validation_package(&vec!["id:5".to_string()]).err(),
        Some(AuthError::InvalidArgument)
    );
    assert_eq!(validation_package(&vec![]).err(), Some(AuthError::InvalidArgument));
}

#[test]
fn entry_renders_nonce_in_decimal() {
    let e = SasEntry { id: b"x".to_vec(), nonce: 1234567890, token: b"".to_vec() };
    assert_eq!(e.render(), "x:1234567890:");
    let z = SasEntry { id: b"".to_vec(), nonce: 0, token: b"t".to_vec() };
    assert_eq!(z.render(), ":0:t");
}

#[test]
fn legacy_package_request_and_response() {
    let p = Package::new_request_itr(&"ABC123".to_string(), &"42".to_string()).unwrap();
    assert_eq!(&p.to_bytes(), SASPackageRequest::new("ABC123", "42").unwrap().as_bytes());
    let b = reply(2, b"ABC123", 42, b"tok-xyz");
    let r = Package::new_response_itr(&b).unwrap();
    assert_eq!(r.to_bytes(), b);
    let with_nul = reply(2, b"ABC123", 42, b"tok\0");
    assert_eq!(Package::new_response_itr(&with_nul).unwrap().to_bytes(), with_nul);
    assert_eq!(
        Package::new_response_itr(&reply(1, b"A", 1, b"")).err(),
        Some(AuthError::UnexpectedTokenType)
    );
    assert_eq!(
        Package::new_request_itr(&"A".to_string(), &"x".to_string()).err(),
        Some(AuthError::InvalidArgument)
    );
}
