use crate::jwks::{
    base64_decode, base64url_decoded, find_jwk_by_kid, jwt_header_of, key_with_kid,
    joined_text, parse_jwt_header, text_is, HeaderParse, Jwk, Jwks, JwksError,
};
use jwt_simple::algorithms::{RS256PublicKey, RS384PublicKey, RS512PublicKey, RSAPublicKeyLike};
use jwt_simple::claims::NoCustomClaims;
use vstd::prelude::*;
use vstd::string::*;

verus! {

#[verifier::external_type_specification]
#[verifier::external_body]
pub struct ExRs256PublicKey(RS256PublicKey);

#[verifier::external_type_specification]
#[verifier::external_body]
pub struct ExRs384PublicKey(RS384PublicKey);

#[verifier::external_type_specification]
#[verifier::external_body]
pub struct ExRs512PublicKey(RS512PublicKey);

/// Relies on `RS256PublicKey::from_components`: an RSA public key from its
/// big-endian modulus and exponent, or why none can be built.
#[verifier::external_body]
fn rs256_key(n: &[u8], e: &[u8]) -> Result<RS256PublicKey, String> {
    RS256PublicKey::from_components(n, e).map_err(|err| format!("{:?}", err))
}

/// Relies on `RSAPublicKeyLike::verify_token` for RS256 with default options:
/// checks the signature and the time claims; no claim is promised here.
#[verifier::external_body]
fn rs256_verify(key: &RS256PublicKey, token: &str) -> Result<(), String> {
    key.verify_token::<NoCustomClaims>(token, None).map(|_| ()).map_err(|err| format!("{:?}", err))
}

/// Relies on `RS384PublicKey::from_components`: an RSA public key from its
/// big-endian modulus and exponent, or why none can be built.
#[verifier::external_body]
fn rs384_key(n: &[u8], e: &[u8]) -> Result<RS384PublicKey, String> {
    RS384PublicKey::from_components(n, e).map_err(|err| format!("{:?}", err))
}

/// Relies on `RSAPublicKeyLike::verify_token` for RS384 with default options:
/// checks the signature and the time claims; no claim is promised here.
#[verifier::external_body]
fn rs384_verify(key: &RS384PublicKey, token: &str) -> Result<(), String> {
    key.verify_token::<NoCustomClaims>(token, None).map(|_| ()).map_err(|err| format!("{:?}", err))
}

/// Relies on `RS512PublicKey::from_components`: an RSA public key from its
/// big-endian modulus and exponent, or why none can be built.
#[verifier::external_body]
fn rs512_key(n: &[u8], e: &[u8]) -> Result<RS512PublicKey, String> {
    RS512PublicKey::from_components(n, e).map_err(|err| format!("{:?}", err))
}

/// Relies on `RSAPublicKeyLike::verify_token` for RS512 with default options:
/// checks the signature and the time claims; no claim is promised here.
#[verifier::external_body]
fn rs512_verify(key: &RS512PublicKey, token: &str) -> Result<(), String> {
    key.verify_token::<NoCustomClaims>(token, None).map(|_| ()).map_err(|err| format!("{:?}", err))
}

/// The RSA signature algorithms that tokens may use.
pub enum RsaAlgorithm {
    Rs256,
    Rs384,
    Rs512,
}

/// The supported algorithm for a key type and a header `alg`: RSA keys with
/// RS256, RS384 or RS512.
pub open spec fn rsa_algorithm(kty: Seq<char>, alg: Seq<char>) -> Option<RsaAlgorithm> {
    if kty != "RSA"@ {
        None
    } else if alg == "RS256"@ {
        Some(RsaAlgorithm::Rs256)
    } else if alg == "RS384"@ {
        Some(RsaAlgorithm::Rs384)
    } else if alg == "RS512"@ {
        Some(RsaAlgorithm::Rs512)
    } else {
        None
    }
}

/// The supported algorithm for a key type and a header `alg`, if any.
pub fn select_algorithm(kty: &str, alg: &str) -> (r: Option<RsaAlgorithm>)
    ensures
        r == rsa_algorithm(kty@, alg@),
{
    if !text_is(kty, "RSA") {
        None
    } else if text_is(alg, "RS256") {
        Some(RsaAlgorithm::Rs256)
    } else if text_is(alg, "RS384") {
        Some(RsaAlgorithm::Rs384)
    } else if text_is(alg, "RS512") {
        Some(RsaAlgorithm::Rs512)
    } else {
        None
    }
}

/// The outcome of a signature check, as the verifier reports it: success is
/// `true`, a failure a `VerificationError` with the checker's reason.
pub fn signature_outcome(checked: Result<(), String>) -> (r: Result<bool, JwksError>)
    ensures
        checked is Ok ==> r == Ok::<bool, JwksError>(true),
        checked matches Err(m) ==> r matches Err(JwksError::VerificationError(msg)) && msg@
            == "JWT verification failed: "@ + m@,
{
    match checked {
        Ok(()) => Ok(true),
        Err(m) => Err(JwksError::VerificationError(joined_text("JWT verification failed: ", m.as_str()))),
    }
}

fn key_failure(m: String) -> (r: JwksError)
    ensures
        r matches JwksError::VerificationError(msg) && msg@ == "Failed to create RSA key: "@ + m@,
{
    JwksError::VerificationError(joined_text("Failed to create RSA key: ", m.as_str()))
}

fn check_rsa(alg: RsaAlgorithm, n: &[u8], e: &[u8], token: &str) -> (r: Result<bool, JwksError>)
    ensures
        r == Ok::<bool, JwksError>(true) || r matches Err(JwksError::VerificationError(_)),
{
    match alg {
        RsaAlgorithm::Rs256 => match rs256_key(n, e) {
            Ok(key) => signature_outcome(rs256_verify(&key, token)),
            Err(m) => Err(key_failure(m)),
        },
        RsaAlgorithm::Rs384 => match rs384_key(n, e) {
            Ok(key) => signature_outcome(rs384_verify(&key, token)),
            Err(m) => Err(key_failure(m)),
        },
        RsaAlgorithm::Rs512 => match rs512_key(n, e) {
            Ok(key) => signature_outcome(rs512_verify(&key, token)),
            Err(m) => Err(key_failure(m)),
        },
    }
}

/// The error for a key type and algorithm pair that is not supported.
pub open spec fn unsupported_message(kty: Seq<char>, alg: Seq<char>) -> Seq<char> {
    "Unsupported key type '"@ + kty + "' or algorithm '"@ + alg
        + "'. Currently supported: RSA with RS256/RS384/RS512"@
}

/// What verifying `token` against the key set `keys` may give: each failure
/// that does not depend on the signature check, case by case; past them,
/// `Ok(true)` or a `VerificationError` from the check.
pub open spec fn token_outcome(keys: Seq<Jwk>, token: Seq<char>, r: Result<bool, JwksError>) -> bool {
    &&& (r is Ok ==> r == Ok::<bool, JwksError>(true))
    &&& match jwt_header_of(token) {
        HeaderParse::Invalid => r matches Err(JwksError::InvalidToken),
        HeaderParse::Unparsable => r matches Err(JwksError::ParseError(_)),
        HeaderParse::Found(alg, _, None) => r matches Err(JwksError::KeyNotFound),
        HeaderParse::Found(alg, _, Some(kid)) => match key_with_kid(keys, kid) {
            None => r matches Err(JwksError::KeyNotFound),
            Some(jwk) => match rsa_algorithm(jwk.kty@, alg) {
                None => r matches Err(JwksError::VerificationError(msg)) && msg@
                    == unsupported_message(jwk.kty@, alg),
                Some(_) => if jwk.n is None || jwk.e is None {
                    r matches Err(JwksError::KeyNotFound)
                } else if base64url_decoded(jwk.n->Some_0@) is None || base64url_decoded(
                    jwk.e->Some_0@,
                ) is None {
                    r matches Err(JwksError::ParseError(_))
                } else {
                    r is Ok || r matches Err(JwksError::VerificationError(_))
                },
            },
        },
    }
}

/// Verifies bearer tokens against a fetched signing-key set.
pub struct JwtVerifier {
    pub jwks: Jwks,
}

/// Why an `Authorization` header did not authorize.
#[derive(Debug)]
pub enum VerifyTokenInHeadersError {
    MissingAuthorizationHeader,
    InvalidAuthorizationHeader,
    JwksError(JwksError),
    WorkersError(String),
}

/// The token after a `Bearer ` prefix.
pub open spec fn bearer_token(header: Seq<char>) -> Option<Seq<char>> {
    if header.len() >= 7 && header.subrange(0, 7) == "Bearer "@ {
        Some(header.subrange(7, header.len() as int))
    } else {
        None
    }
}

impl JwtVerifier {
    /// A verifier over an already fetched key set.
    pub fn new(jwks: Jwks) -> (r: JwtVerifier)
        ensures
            r.jwks == jwks,
    {
        JwtVerifier { jwks }
    }

    /// Verifies a compact token: its header must name a key of the set by
    /// `kid`, the key must be RSA with RS256, RS384 or RS512 as `alg`, and
    /// the signature must check out under that key. Any failure is an error;
    /// success is `Ok(true)`.
    pub fn verify_token(&self, token: &str) -> (r: Result<bool, JwksError>)
        ensures
            token_outcome(self.jwks.keys@, token@, r),
    {
        let header = match parse_jwt_header(token) {
            Ok(h) => h,
            Err(e) => {
                return Err(e);
            },
        };
        let kid = match header.kid {
            Some(k) => k,
            None => {
                return Err(JwksError::KeyNotFound);
            },
        };
        let jwk = match find_jwk_by_kid(&self.jwks, kid.as_str()) {
            Some(k) => k,
            None => {
                return Err(JwksError::KeyNotFound);
            },
        };
        let alg = match select_algorithm(jwk.kty.as_str(), header.alg.as_str()) {
            Some(a) => a,
            None => {
                let mut msg = String::from_str("Unsupported key type '");
                msg.append(jwk.kty.as_str());
                msg.append("' or algorithm '");
                msg.append(header.alg.as_str());
                msg.append("'. Currently supported: RSA with RS256/RS384/RS512");
                return Err(JwksError::VerificationError(msg));
            },
        };
        let n = match &jwk.n {
            Some(n) => n,
            None => {
                return Err(JwksError::KeyNotFound);
            },
        };
        let e = match &jwk.e {
            Some(e) => e,
            None => {
                return Err(JwksError::KeyNotFound);
            },
        };
        let n_bytes = match base64_decode(n.as_str()) {
            Ok(b) => b,
            Err(err) => {
                return Err(err);
            },
        };
        let e_bytes = match base64_decode(e.as_str()) {
            Ok(b) => b,
            Err(err) => {
                return Err(err);
            },
        };
        check_rsa(alg, n_bytes.as_slice(), e_bytes.as_slice(), token)
    }

    /// Verifies the token of an `Authorization` header value: the header
    /// must be present and start with `Bearer `.
    pub fn verify_token_in_headers(&self, authorization: Option<&str>) -> (r: Result<
        bool,
        VerifyTokenInHeadersError,
    >)
        ensures
            match authorization {
                None => r matches Err(VerifyTokenInHeadersError::MissingAuthorizationHeader),
                Some(h) => match bearer_token(h@) {
                    None => r matches Err(VerifyTokenInHeadersError::InvalidAuthorizationHeader),
                    Some(t) => match r {
                        Ok(b) => token_outcome(self.jwks.keys@, t, Ok(b)),
                        Err(VerifyTokenInHeadersError::JwksError(e)) => token_outcome(
                            self.jwks.keys@,
                            t,
                            Err(e),
                        ),
                        Err(_) => false,
                    },
                },
            },
    {
        let header = match authorization {
            Some(h) => h,
            None => {
                return Err(VerifyTokenInHeadersError::MissingAuthorizationHeader);
            },
        };
        let n = header.unicode_len();
        if n < 7 || !text_is(header.substring_char(0, 7), "Bearer ") {
            return Err(VerifyTokenInHeadersError::InvalidAuthorizationHeader);
        }
        let token = header.substring_char(7, n);
        match self.verify_token(token) {
            Ok(b) => Ok(b),
            Err(e) => Err(VerifyTokenInHeadersError::JwksError(e)),
        }
    }
}

} // verus!
