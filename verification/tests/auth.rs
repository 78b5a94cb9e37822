use postgres_protocol::authentication::md5_hash;

#[test]
fn md5() {
    let username = b"md5_user";
    let password = b"password";
    let salt = [0x2a, 0x3d, 0x8f, 0xe0];

    assert_eq!(md5_hash(username, password, salt), "md562af4dd09bbb41884907a838a3233294");
}

#[test]
fn md5_token_shape() {
    let token = md5_hash(b"u", b"p", [0, 0, 0, 0]);
    assert_eq!(token.len(), 35);
    assert!(token.starts_with("md5"));
    assert!(token[3..].bytes().all(|b| b.is_ascii_hexdigit()));
}
