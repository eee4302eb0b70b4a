use udp_auth::check::AuthError;
use udp_auth::gas::{
    make_sas_from_arg, request_package, response_buffer_size, status_buffer_size,
    validation_package, GASPackageRequest, GASPackageResponse, GASPackageStatus,
    GASPackageValidation,
};

fn entry(id: &[u8], nonce: u32, token: &[u8]) -> Vec<u8> {
    let mut v = id.to_vec();
    v.resize(12, 0);
    v.extend_from_slice(&nonce.to_be_bytes());
    let mut t = token.to_vec();
    t.resize(64, 0);
    v.extend_from_slice(&t);
    v
}

fn args(a: &[&str]) -> Vec<String> {
    a.iter().map(|s| s.to_string()).collect()
}

#[test]
fn group_request_layout() {
    let (p, n) = request_package(&args(&["2", "a:1:x", "b:2:y"])).unwrap();
    assert_eq!(n, 2);
    let mut expected = vec![0u8, 5, 0, 2];
    expected.extend_from_slice(&entry(b"a", 1, b"x"));
    expected.extend_from_slice(&entry(b"b", 2, b"y"));
    assert_eq!(p.as_bytes(), &expected);
    assert_eq!(p.as_bytes().len(), 4 + 80 * 2);
}

#[test]
fn group_count_mismatch_is_invalid() {
    assert_eq!(
        request_package(&args(&["2", "a:1:x", "b:2:y", "c:3:z"])).err(),
        Some(AuthError::InvalidArgument)
    );
    assert_eq!(request_package(&args(&["2", "a:1:x"])).err(), Some(AuthError::InvalidArgument));
    assert_eq!(request_package(&args(&["two"])).err(), Some(AuthError::InvalidArgument));
    assert_eq!(request_package(&args(&[])).err(), Some(AuthError::InvalidArgument));
}

#[test]
fn group_entry_needs_three_pieces() {
    assert_eq!(request_package(&args(&["1", "a:1"])).err(), Some(AuthError::InvalidArgument));
    assert_eq!(
        request_package(&args(&["1", "a:1:x:y"])).err(),
        Some(AuthError::InvalidArgument)
    );
    assert_eq!(request_package(&args(&["1", "a:n:x"])).err(), Some(AuthError::InvalidArgument));
    let bad = vec![make_sas_from_arg(b"a:1")];
    assert_eq!(GASPackageRequest::new(&bad).err(), Some(AuthError::InvalidArgument));
}

#[test]
fn empty_group_request() {
    let (p, n) = request_package(&args(&["0"])).unwrap();
    assert_eq!(n, 0);
    assert_eq!(p.as_bytes(), &vec![0u8, 5, 0, 0]);
}

#[test]
fn split_pieces() {
    assert_eq!(
        make_sas_from_arg(b"id:7:tok"),
        vec![b"id".to_vec(), b"7".to_vec(), b"tok".to_vec()]
    );
    assert_eq!(make_sas_from_arg(b""), vec![Vec::<u8>::new()]);
    assert_eq!(make_sas_from_arg(b"::"), vec![Vec::<u8>::new(), vec![], vec![]]);
}

#[test]
fn group_validation_layout() {
    let (p, n) = validation_package(&args(&["a:1:x+b:2:y+overall"])).unwrap();
    assert_eq!(n, 2);
    let mut expected = vec![0u8, 7, 0, 2];
    expected.extend_from_slice(&entry(b"a", 1, b"x"));
    expected.extend_from_slice(&entry(b"b", 2, b"y"));
    expected.extend_from_slice(b"overall");
    assert_eq!(p.as_bytes(), &expected);

    let pieces = vec![b"a:1:x".to_vec(), b"whole".to_vec()];
    let v = GASPackageValidation::new(&pieces).unwrap();
    let mut one = vec![0u8, 7, 0, 1];
    one.extend_from_slice(&entry(b"a", 1, b"x"));
    one.extend_from_slice(b"whole");
    assert_eq!(v.as_bytes(), &one);
}

#[test]
fn group_validation_errors() {
    assert_eq!(
        validation_package(&args(&["a:1+overall"])).err(),
        Some(AuthError::InvalidArgument)
    );
    assert_eq!(validation_package(&args(&[])).err(), Some(AuthError::InvalidArgument));
    assert_eq!(GASPackageValidation::new(&vec![]).err(), Some(AuthError::InvalidArgument));
    let (only_token, n) = validation_package(&args(&["tok"])).unwrap();
    assert_eq!(n, 0);
    assert_eq!(only_token.as_bytes(), &vec![0u8, 7, 0, 0, b't', b'o', b'k']);
}

#[test]
fn group_response_decodes_and_renders() {
    let mut b = vec![0u8, 6, 0, 2];
    b.extend_from_slice(&entry(b"a", 1, b"x"));
    b.extend_from_slice(&entry(b"bb", 22, b"yy"));
    b.extend_from_slice(b"grp");
    let r = GASPackageResponse::new(&b, 2).unwrap();
    assert_eq!(r.entries().len(), 2);
    assert_eq!(r.entries()[1].id, b"bb".to_vec());
    assert_eq!(r.entries()[1].nonce, 22);
    assert_eq!(r.token(), &b"grp".to_vec());
    assert_eq!(r.n_sas(), 2);
    assert_eq!(r.render(), "a:1:x+bb:22:yy+grp");
}

#[test]
fn group_response_errors() {
    let mut b = vec![0u8, 6, 0, 1];
    b.extend_from_slice(&entry(b"a", 1, b"x"));
    assert_eq!(GASPackageResponse::new(&b[..50], 1).err(), Some(AuthError::Truncated));
    assert_eq!(GASPackageResponse::new(&b, 1).unwrap().render(), "a:1:x+");
    let mut w = b.clone();
    w[1] = 5;
    assert_eq!(GASPackageResponse::new(&w, 1).err(), Some(AuthError::UnexpectedTokenType));
    let mut n = b.clone();
    n[4] = 200;
    assert_eq!(GASPackageResponse::new(&n, 1).err(), Some(AuthError::EncodingError));
}

#[test]
fn group_status_after_entries_and_token() {
    let mut b = vec![0u8, 8, 0, 1];
    b.extend_from_slice(&entry(b"a", 1, b"x"));
    b.extend_from_slice(&[0u8; 64]);
    assert_eq!(GASPackageStatus::new(&b, 1).err(), Some(AuthError::Truncated));
    b.push(7);
    let s = GASPackageStatus::new(&b, 1).unwrap();
    assert_eq!(s.status(), 7);
    assert_eq!(s.n_sas(), 1);
    assert_eq!(b.len(), status_buffer_size(1));
    assert_eq!(GASPackageStatus::new(&b, usize::MAX).err(), Some(AuthError::Truncated));
    assert_eq!(GASPackageStatus::new(&b, 2).err(), Some(AuthError::Truncated));
}

#[test]
fn group_overall_token_is_kept_as_received() {
    let mut b = vec![0u8, 6, 0, 1];
    b.extend_from_slice(&entry(b"a", 1, b"x"));
    b.extend_from_slice(b"grp\0");
    let r = GASPackageResponse::new(&b, 1).unwrap();
    assert_eq!(r.token(), &b"grp\0".to_vec());
    assert_eq!(r.entries()[0].token, b"x".to_vec());
    assert_eq!(GASPackageResponse::new(&b, usize::MAX).err(), Some(AuthError::Truncated));
}

#[test]
fn buffer_sizes_follow_count() {
    assert_eq!(response_buffer_size(0), 68);
    assert_eq!(response_buffer_size(2), 228);
    assert_eq!(status_buffer_size(0), 69);
    assert_eq!(status_buffer_size(3), 309);
}
