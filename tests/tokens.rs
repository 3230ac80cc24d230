use jwt_simple::algorithms::{RS256KeyPair, RSAKeyPairLike};
use jwt_simple::claims::Claims;
use jwt_simple::prelude::Duration;
use plan_catalog::jwks::{base64_decode, find_jwk_by_kid, parse_jwt_header, Jwk, Jwks, JwksError};
use plan_catalog::jwt_verifier::{JwtVerifier, VerifyTokenInHeadersError};

const ALPHABET: &[u8] = b"ABCDEFGHIJKLMNOPQRSTUVWXYZabcdefghijklmnopqrstuvwxyz0123456789-_";

fn b64url(data: &[u8]) -> String {
    let mut out = String::new();
    for chunk in data.chunks(3) {
        let b = [chunk[0], *chunk.get(1).unwrap_or(&0), *chunk.get(2).unwrap_or(&0)];
        let v = ((b[0] as u32) << 16) | ((b[1] as u32) << 8) | b[2] as u32;
        let n = chunk.len() + 1;
        for i in 0..n {
            out.push(ALPHABET[((v >> (18 - 6 * i)) & 63) as usize] as char);
        }
    }
    out
}

fn token_with_header(header: &str) -> String {
    format!("{}.{}.{}", b64url(header.as_bytes()), b64url(b"{}"), b64url(b"sig"))
}

fn rsa_jwk(kid: &str, n: Option<String>, e: Option<String>) -> Jwk {
    Jwk {
        kty: "RSA".to_string(),
        kid: Some(kid.to_string()),
        use_: None,
        alg: None,
        n,
        e,
        x: None,
        y: None,
        crv: None,
    }
}

#[test]
fn base64url_decodes_with_or_without_padding() {
    assert_eq!(base64_decode("aGVsbG8").unwrap(), b"hello".to_vec());
    assert_eq!(base64_decode("aGVsbG8=").unwrap(), b"hello".to_vec());
    assert_eq!(base64_decode("aGk").unwrap(), b"hi".to_vec());
    assert_eq!(base64_decode("-_8").unwrap(), vec![0xfb, 0xff]);
    assert_eq!(base64_decode("+/8").unwrap(), vec![0xfb, 0xff]);
    assert_eq!(base64_decode("").unwrap(), Vec::<u8>::new());
    assert_eq!(base64_decode("QUJD=ignored!").unwrap(), b"ABC".to_vec());
    assert!(matches!(base64_decode("ab$c"), Err(JwksError::ParseError(_))));
}

#[test]
fn header_is_read_from_the_first_segment() {
    let h = parse_jwt_header(&token_with_header(r#"{"alg":"RS256","typ":"JWT","kid":"k1"}"#)).unwrap();
    assert_eq!(h.alg, "RS256");
    assert_eq!(h.typ, Some("JWT".to_string()));
    assert_eq!(h.kid, Some("k1".to_string()));
    let h = parse_jwt_header(&token_with_header(r#"{"alg":"RS256","kid":null}"#)).unwrap();
    assert_eq!(h.kid, None);
    assert_eq!(h.typ, None);
    assert!(matches!(parse_jwt_header(&token_with_header(r#"{"typ":"JWT"}"#)), Err(JwksError::ParseError(_))));
    assert!(matches!(parse_jwt_header(&token_with_header("not json")), Err(JwksError::ParseError(_))));
    assert!(matches!(parse_jwt_header("a$b.c.d"), Err(JwksError::InvalidToken)));
}

#[test]
fn tokens_without_three_segments_are_invalid() {
    let verifier = JwtVerifier::new(Jwks { keys: vec![] });
    let good = token_with_header(r#"{"alg":"RS256","kid":"k1"}"#);
    for bad in [String::new(), "abc".to_string(), "a.b".to_string(), format!("{}.x", good), "a.b.c.d.e".to_string()] {
        assert!(matches!(verifier.verify_token(&bad), Err(JwksError::InvalidToken)), "{}", bad);
    }
}

#[test]
fn keys_are_found_by_id() {
    let jwks = Jwks { keys: vec![rsa_jwk("a", None, None), rsa_jwk("b", Some("AQAB".to_string()), None)] };
    assert_eq!(find_jwk_by_kid(&jwks, "b").unwrap().n, Some("AQAB".to_string()));
    assert!(find_jwk_by_kid(&jwks, "c").is_none());
}

#[test]
fn missing_or_unknown_kid_is_key_not_found() {
    let verifier = JwtVerifier::new(Jwks { keys: vec![rsa_jwk("k1", Some("AQAB".to_string()), Some("AQAB".to_string()))] });
    let no_kid = token_with_header(r#"{"alg":"RS256"}"#);
    assert!(matches!(verifier.verify_token(&no_kid), Err(JwksError::KeyNotFound)));
    let other = token_with_header(r#"{"alg":"RS256","kid":"zz"}"#);
    assert!(matches!(verifier.verify_token(&other), Err(JwksError::KeyNotFound)));
    let bare = JwtVerifier::new(Jwks { keys: vec![rsa_jwk("k1", None, Some("AQAB".to_string()))] });
    let t = token_with_header(r#"{"alg":"RS256","kid":"k1"}"#);
    assert!(matches!(bare.verify_token(&t), Err(JwksError::KeyNotFound)));
}

#[test]
fn unsupported_algorithms_are_refused() {
    let verifier = JwtVerifier::new(Jwks { keys: vec![rsa_jwk("k1", Some("AQAB".to_string()), Some("AQAB".to_string()))] });
    let t = token_with_header(r#"{"alg":"HS256","kid":"k1"}"#);
    match verifier.verify_token(&t) {
        Err(JwksError::VerificationError(m)) => {
            assert!(m.contains("'RSA'"));
            assert!(m.contains("'HS256'"));
        }
        other => panic!("unexpected {:?}", other),
    }
}

#[test]
fn signed_tokens_verify_and_tampered_ones_do_not() {
    let key = RS256KeyPair::generate(2048).unwrap().with_key_id("k1");
    let parts = key.public_key().to_components();
    let jwk = rsa_jwk("k1", Some(b64url(&parts.n)), Some(b64url(&parts.e)));
    let verifier = JwtVerifier::new(Jwks { keys: vec![jwk] });
    let token = key.sign(Claims::create(Duration::from_hours(1))).unwrap();
    assert!(matches!(verifier.verify_token(&token), Ok(true)));

    let mut bytes = token.into_bytes();
    let last = bytes.len() - 2;
    bytes[last] = if bytes[last] == b'A' { b'B' } else { b'A' };
    let tampered = String::from_utf8(bytes).unwrap();
    assert!(matches!(verifier.verify_token(&tampered), Err(JwksError::VerificationError(_))));
}

#[test]
fn authorization_header_needs_the_bearer_prefix() {
    let verifier = JwtVerifier::new(Jwks { keys: vec![] });
    assert!(matches!(verifier.verify_token_in_headers(None), Err(VerifyTokenInHeadersError::MissingAuthorizationHeader)));
    assert!(matches!(verifier.verify_token_in_headers(Some("Basic abc")), Err(VerifyTokenInHeadersError::InvalidAuthorizationHeader)));
    assert!(matches!(
        verifier.verify_token_in_headers(Some("Bearer a.b")),
        Err(VerifyTokenInHeadersError::JwksError(JwksError::InvalidToken))
    ));
}

#[test]
fn error_messages_name_the_kind() {
    assert_eq!(JwksError::KeyNotFound.message(), "Key not found in JWKS");
    assert_eq!(JwksError::InvalidToken.message(), "Invalid JWT token format");
    assert_eq!(JwksError::ParseError("x".to_string()).message(), "Parse error: x");
}

#[test]
fn url_decoder_reads_dash_as_plus() {
    assert_eq!(base64_decode("-").unwrap(), Vec::<u8>::new());
    assert!(matches!(base64_decode("*"), Err(JwksError::ParseError(_))));
}
