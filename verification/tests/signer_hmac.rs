use playlog::signer::Signer;

#[test]
fn known_hmac_sha256_vector() {
    // RFC 4231, test case 2: key "Jefe", data "what do ya want for nothing?".
    let signer = Signer::new("Jefe".to_string()).unwrap();
    assert_eq!(
        signer.sign_hex("what do ya want for nothing?"),
        "5bdcc146bf60754e6a042426089575c75a003f089d2739839dec58b964ec3843"
    );
}

#[test]
fn signature_is_32_bytes_and_64_hex_digits() {
    let signer = Signer::new("key".to_string()).unwrap();
    assert_eq!(signer.sign("body").len(), 32);
    let hex = signer.sign_hex("body");
    assert_eq!(hex.len(), 64);
    assert!(hex.chars().all(|c| c.is_ascii_hexdigit() && !c.is_ascii_uppercase()));
}

#[test]
fn signing_is_deterministic() {
    let signer = Signer::new("topsecret".to_string()).unwrap();
    let body = "{\"event\":\"start\",\"data\":{\"artist\":\"A\"}}";
    assert_eq!(signer.sign(body), signer.sign(body));
    assert_eq!(signer.sign_hex(body), signer.sign_hex(body));
}

#[test]
fn changing_one_byte_changes_the_signature() {
    let signer = Signer::new("topsecret".to_string()).unwrap();
    assert_ne!(signer.sign_hex("body-a"), signer.sign_hex("body-b"));
}

#[test]
fn changing_the_key_changes_the_signature() {
    let a = Signer::new("key-one".to_string()).unwrap();
    let b = Signer::new("key-two".to_string()).unwrap();
    assert_ne!(a.sign_hex("body"), b.sign_hex("body"));
}

#[test]
fn hex_rendering_matches_raw_tag() {
    let signer = Signer::new("Jefe".to_string()).unwrap();
    let raw = signer.sign("what do ya want for nothing?");
    assert_eq!(signer.sign_hex("what do ya want for nothing?"), hex::encode(raw));
}

#[test]
fn empty_secret_is_rejected() {
    assert!(Signer::new(String::new()).is_err());
    assert!(Signer::new("x".to_string()).is_ok());
}
