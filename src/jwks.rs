use crate::json::{json_view, members_view, parse_json, parsed_json, Json, JsonView};
use vstd::prelude::*;
use vstd::string::*;
use vstd::utf8::{decode_utf8, valid_utf8};

verus! {

/// A JSON Web Key Set.
#[derive(Debug)]
pub struct Jwks {
    pub keys: Vec<Jwk>,
}

/// A JSON Web Key.
#[derive(Debug)]
pub struct Jwk {
    /// Key type.
    pub kty: String,
    /// Key id.
    pub kid: Option<String>,
    /// Intended use.
    pub use_: Option<String>,
    /// Algorithm.
    pub alg: Option<String>,
    /// RSA modulus, base64url.
    pub n: Option<String>,
    /// RSA exponent, base64url.
    pub e: Option<String>,
    /// EC x coordinate.
    pub x: Option<String>,
    /// EC y coordinate.
    pub y: Option<String>,
    /// EC curve.
    pub crv: Option<String>,
}

/// The header of a compact JWT.
#[derive(Debug)]
pub struct JwtHeader {
    pub alg: String,
    pub typ: Option<String>,
    pub kid: Option<String>,
}

/// Why a token could not be verified.
#[derive(Debug)]
pub enum JwksError {
    NetworkError(String),
    ParseError(String),
    KeyNotFound,
    InvalidToken,
    VerificationError(String),
}

/// The two strings one after the other.
pub(crate) fn joined_text(a: &str, b: &str) -> (r: String)
    ensures
        r@ == a@ + b@,
{
    let mut r = String::from_str(a);
    r.append(b);
    r
}

/// A one-line description of an error.
pub open spec fn error_message(e: JwksError) -> Seq<char> {
    match e {
        JwksError::NetworkError(msg) => "Network error: "@ + msg@,
        JwksError::ParseError(msg) => "Parse error: "@ + msg@,
        JwksError::KeyNotFound => "Key not found in JWKS"@,
        JwksError::InvalidToken => "Invalid JWT token format"@,
        JwksError::VerificationError(msg) => "Verification error: "@ + msg@,
    }
}

impl JwksError {
    /// A one-line description of the error.
    pub fn message(&self) -> (r: String)
        ensures
            r@ == error_message(*self),
    {
        match self {
            JwksError::NetworkError(msg) => joined_text("Network error: ", msg.as_str()),
            JwksError::ParseError(msg) => joined_text("Parse error: ", msg.as_str()),
            JwksError::KeyNotFound => String::from_str("Key not found in JWKS"),
            JwksError::InvalidToken => String::from_str("Invalid JWT token format"),
            JwksError::VerificationError(msg) => joined_text("Verification error: ", msg.as_str()),
        }
    }
}

// ---- base64url -----------------------------------------------------------

/// The standard-alphabet character that a base64url character stands for.
pub open spec fn url_to_standard(c: char) -> char {
    if c == '-' {
        '+'
    } else if c == '_' {
        '/'
    } else {
        c
    }
}

/// The 6-bit value of a standard base64 character.
pub open spec fn sextet_of(c: char) -> Option<u8> {
    if 'A' <= c <= 'Z' {
        Some((c as u32 - 'A' as u32) as u8)
    } else if 'a' <= c <= 'z' {
        Some((c as u32 - 'a' as u32 + 26) as u8)
    } else if '0' <= c <= '9' {
        Some((c as u32 - '0' as u32 + 52) as u8)
    } else if c == '+' {
        Some(62u8)
    } else if c == '/' {
        Some(63u8)
    } else {
        None
    }
}

/// The 6-bit values of the characters before the first `=`, or none if one
/// of them is not in the standard alphabet `A-Za-z0-9+/`.
pub open spec fn sextets(s: Seq<char>) -> Option<Seq<u8>>
    decreases s.len(),
{
    if s.len() == 0 || s[0] == '=' {
        Some(Seq::empty())
    } else {
        match sextet_of(s[0]) {
            None => None,
            Some(x) => match sextets(s.drop_first()) {
                None => None,
                Some(rest) => Some(seq![x] + rest),
            },
        }
    }
}

/// The bytes that 6-bit groups encode: each four give three bytes, and a
/// trailing two or three give one or two.
pub open spec fn sextet_bytes(v: Seq<u8>) -> Seq<u8>
    decreases v.len(),
{
    if v.len() >= 4 {
        seq![
            (v[0] * 4 + v[1] / 16) as u8,
            ((v[1] % 16) * 16 + v[2] / 4) as u8,
            ((v[2] % 4) * 64 + v[3]) as u8,
        ] + sextet_bytes(v.subrange(4, v.len() as int))
    } else if v.len() == 3 {
        seq![(v[0] * 4 + v[1] / 16) as u8, ((v[1] % 16) * 16 + v[2] / 4) as u8]
    } else if v.len() == 2 {
        seq![(v[0] * 4 + v[1] / 16) as u8]
    } else {
        Seq::empty()
    }
}

/// Base64 decoding in the standard alphabet: padding optional, anything
/// after the first `=` ignored, a trailing group of under 8 bits dropped.
pub open spec fn base64_decoded(s: Seq<char>) -> Option<Seq<u8>> {
    match sextets(s) {
        Some(v) => Some(sextet_bytes(v)),
        None => None,
    }
}

/// The standard-alphabet text of a base64url text.
pub open spec fn url_to_standard_text(s: Seq<char>) -> Seq<char> {
    s.map_values(|c: char| url_to_standard(c))
}

/// Base64url decoding: `-` and `_` are read as `+` and `/`, then the text is
/// decoded in the standard alphabet.
pub open spec fn base64url_decoded(s: Seq<char>) -> Option<Seq<u8>> {
    base64_decoded(url_to_standard_text(s))
}

fn sextet(c: char) -> (r: Option<u8>)
    ensures
        r == sextet_of(c),
{
    if 'A' <= c && c <= 'Z' {
        Some((c as u32 - 'A' as u32) as u8)
    } else if 'a' <= c && c <= 'z' {
        Some((c as u32 - 'a' as u32 + 26) as u8)
    } else if '0' <= c && c <= '9' {
        Some((c as u32 - '0' as u32 + 52) as u8)
    } else if c == '+' {
        Some(62u8)
    } else if c == '/' {
        Some(63u8)
    } else {
        None
    }
}

/// The characters of a string.
fn chars_of(s: &str) -> (r: Vec<char>)
    ensures
        r@ == s@,
{
    let n = s.unicode_len();
    let mut r: Vec<char> = Vec::new();
    let mut i: usize = 0;
    while i < n
        invariant
            i <= n == s@.len(),
            r@ == s@.subrange(0, i as int),
        decreases n - i,
    {
        r.push(s.get_char(i));
        i = i + 1;
        assert(r@ =~= s@.subrange(0, i as int));
    }
    assert(r@ =~= s@);
    r
}

/// Base64url decoding of a string; a character outside the alphabet before
/// the first `=` is a `ParseError`.
pub fn base64_decode(input: &str) -> (r: Result<Vec<u8>, JwksError>)
    ensures
        match base64url_decoded(input@) {
            Some(b) => r matches Ok(v) && v@ == b,
            None => r matches Err(JwksError::ParseError(_)),
        },
{
    let chars = chars_of(input);
    base64_decode_simple(&url_chars(&chars))
}

/// The characters with `-` and `_` replaced by `+` and `/`.
fn url_chars(input: &Vec<char>) -> (r: Vec<char>)
    ensures
        r@ == url_to_standard_text(input@),
{
    let mut r: Vec<char> = Vec::new();
    let mut i: usize = 0;
    while i < input.len()
        invariant
            i <= input@.len(),
            r@ == url_to_standard_text(input@.subrange(0, i as int)),
        decreases input.len() - i,
    {
        let c = input[i];
        let std = if c == '-' {
            '+'
        } else if c == '_' {
            '/'
        } else {
            c
        };
        r.push(std);
        i = i + 1;
        assert(r@ =~= url_to_standard_text(input@.subrange(0, i as int)));
    }
    assert(input@.subrange(0, i as int) =~= input@);
    r
}

/// Standard base64 decoding of the characters before the first `=`; any
/// character outside `A-Za-z0-9+/` there is a `ParseError`.
fn base64_decode_simple(input: &Vec<char>) -> (r: Result<Vec<u8>, JwksError>)
    ensures
        match base64_decoded(input@) {
            Some(b) => r matches Ok(v) && v@ == b,
            None => r matches Err(JwksError::ParseError(_)),
        },
{
    match sextet_values(input) {
        None => Err(JwksError::ParseError(String::from_str("Invalid base64 character"))),
        Some(vals) => Ok(sextet_bytes_of(&vals)),
    }
}

/// The 6-bit values of the characters before the first `=`.
fn sextet_values(input: &Vec<char>) -> (r: Option<Vec<u8>>)
    ensures
        match sextets(input@) {
            Some(v) => r matches Some(x) && x@ == v,
            None => r is None,
        },
        r matches Some(x) ==> forall|j: int| 0 <= j < x@.len() ==> #[trigger] x@[j] < 64,
{
    let ghost s = input@;
    let n = input.len();
    let mut vals: Vec<u8> = Vec::new();
    let mut i: usize = 0;
    assert(s.subrange(0, n as int) =~= s);
    assert forall|rest: Seq<u8>| vals@ + rest =~= rest by {}
    while i < n && input[i] != '='
        invariant
            i <= n == s.len(),
            s == input@,
            forall|j: int| 0 <= j < vals@.len() ==> #[trigger] vals@[j] < 64,
            sextets(s) == match sextets(s.subrange(i as int, n as int)) {
                None => None,
                Some(rest) => Some(vals@ + rest),
            },
        decreases n - i,
    {
        assert(s.subrange(i as int, n as int).drop_first() =~= s.subrange(i + 1, n as int));
        match sextet(input[i]) {
            None => {
                return None;
            },
            Some(x) => {
                let ghost before = vals@;
                vals.push(x);
                assert(vals@ =~= before + seq![x]);
                assert forall|rest: Seq<u8>| before + (seq![x] + rest) =~= vals@ + rest by {}
            },
        }
        i = i + 1;
    }
    assert(sextets(s.subrange(i as int, n as int)) == Some(Seq::<u8>::empty()));
    assert(vals@ + Seq::<u8>::empty() =~= vals@);
    Some(vals)
}

/// The bytes that a list of 6-bit values encodes.
fn sextet_bytes_of(vals: &Vec<u8>) -> (r: Vec<u8>)
    requires
        forall|j: int| 0 <= j < vals@.len() ==> #[trigger] vals@[j] < 64,
    ensures
        r@ == sextet_bytes(vals@),
{
    let ghost v = vals@;
    let m = vals.len();
    let mut out: Vec<u8> = Vec::new();
    let mut k: usize = 0;
    assert(v.subrange(0, m as int) =~= v);
    assert(out@ + sextet_bytes(v) =~= sextet_bytes(v));
    while m - k >= 4
        invariant
            k <= m == v.len(),
            vals@ == v,
            forall|j: int| 0 <= j < v.len() ==> #[trigger] v[j] < 64,
            sextet_bytes(v) == out@ + sextet_bytes(v.subrange(k as int, m as int)),
        decreases m - k,
    {
        let a = vals[k];
        let b = vals[k + 1];
        let c = vals[k + 2];
        let d = vals[k + 3];
        let ghost rest = v.subrange(k as int, m as int);
        assert(rest.subrange(4, rest.len() as int) =~= v.subrange(k + 4, m as int));
        assert(rest[0] == a && rest[1] == b && rest[2] == c && rest[3] == d);
        let ghost before = out@;
        out.push((a * 4 + b / 16) as u8);
        out.push(((b % 16) * 16 + c / 4) as u8);
        out.push(((c % 4) * 64 + d) as u8);
        assert(out@ =~= before + seq![
            (a * 4 + b / 16) as u8,
            ((b % 16) * 16 + c / 4) as u8,
            ((c % 4) * 64 + d) as u8,
        ]);
        k = k + 4;
    }
    let ghost tail = v.subrange(k as int, m as int);
    let ghost before = out@;
    if m - k == 3 {
        let a = vals[k];
        let b = vals[k + 1];
        let c = vals[k + 2];
        assert(tail[0] == a && tail[1] == b && tail[2] == c);
        out.push((a * 4 + b / 16) as u8);
        out.push(((b % 16) * 16 + c / 4) as u8);
        assert(out@ =~= before + sextet_bytes(tail));
    } else if m - k == 2 {
        let a = vals[k];
        let b = vals[k + 1];
        assert(tail[0] == a && tail[1] == b);
        out.push((a * 4 + b / 16) as u8);
        assert(out@ =~= before + sextet_bytes(tail));
    } else {
        assert(out@ =~= before + sextet_bytes(tail));
    }
    out
}

// ---- header ----------------------------------------------------------------

/// The number of `.` in a token: a compact JWT has exactly two.
pub open spec fn dot_count(s: Seq<char>) -> nat
    decreases s.len(),
{
    if s.len() == 0 {
        0
    } else {
        dot_count(s.drop_last()) + if s.last() == '.' {
            1nat
        } else {
            0nat
        }
    }
}

/// The characters before the first `.`.
pub open spec fn first_segment(s: Seq<char>) -> Seq<char>
    decreases s.len(),
{
    if s.len() == 0 {
        Seq::empty()
    } else {
        let p = first_segment(s.drop_last());
        if p.len() == s.len() - 1 && s.last() != '.' {
            p.push(s.last())
        } else {
            p
        }
    }
}

/// A member that may be absent or null, else must be a string.
pub open spec fn optional_text(m: Map<Seq<char>, JsonView>, name: Seq<char>) -> Option<
    Option<Seq<char>>,
> {
    if !m.contains_key(name) {
        Some(None)
    } else {
        match m[name] {
            JsonView::Null => Some(None),
            JsonView::Str(t) => Some(Some(t)),
            _ => None,
        }
    }
}

/// The `(alg, typ, kid)` of a header document: an object whose `alg` is a
/// string and whose `typ` and `kid` are strings, null or absent.
pub open spec fn header_of(v: JsonView) -> Option<(Seq<char>, Option<Seq<char>>, Option<Seq<char>>)> {
    match v {
        JsonView::Object(m) => if m.contains_key("alg"@) && m["alg"@] is Str && optional_text(
            m,
            "typ"@,
        ) is Some && optional_text(m, "kid"@) is Some {
            Some((m["alg"@]->Str_0, optional_text(m, "typ"@)->0, optional_text(m, "kid"@)->0))
        } else {
            None
        },
        _ => None,
    }
}

/// What the header segment of a token holds.
pub enum HeaderParse {
    /// Not three segments, or a header that is not base64url-encoded UTF-8.
    Invalid,
    /// A header that is not a JSON object of the expected shape.
    Unparsable,
    /// The header's `(alg, typ, kid)`.
    Found(Seq<char>, Option<Seq<char>>, Option<Seq<char>>),
}

pub open spec fn jwt_header_of(token: Seq<char>) -> HeaderParse {
    if dot_count(token) != 2 {
        HeaderParse::Invalid
    } else {
        match base64url_decoded(first_segment(token)) {
            None => HeaderParse::Invalid,
            Some(bytes) => if !valid_utf8(bytes) {
                HeaderParse::Invalid
            } else {
                match parsed_json(decode_utf8(bytes)) {
                    None => HeaderParse::Unparsable,
                    Some(v) => match header_of(v) {
                        None => HeaderParse::Unparsable,
                        Some(h) => HeaderParse::Found(h.0, h.1, h.2),
                    },
                }
            },
        }
    }
}

/// A token that does not have exactly three dot-separated segments is
/// invalid, whatever its segments hold.
pub proof fn lemma_segment_count_decides(token: Seq<char>)
    requires
        dot_count(token) != 2,
    ensures
        jwt_header_of(token) is Invalid,
{
}

pub open spec fn opt_text(o: Option<String>) -> Option<Seq<char>> {
    match o {
        Some(s) => Some(s@),
        None => None,
    }
}

/// Relies on `std::str::from_utf8`: it accepts exactly the valid UTF-8 byte
/// strings and reads them as the characters they encode.
#[verifier::external_body]
fn utf8_text(b: &[u8]) -> (r: Option<&str>)
    ensures
        r is Some <==> valid_utf8(b@),
        r matches Some(t) ==> t@ == decode_utf8(b@),
{
    std::str::from_utf8(b).ok()
}

/// Whether the two strings have the same characters.
pub(crate) fn text_is(a: &str, b: &str) -> (r: bool)
    ensures
        r == (a@ == b@),
{
    let n = a.unicode_len();
    if n != b.unicode_len() {
        return false;
    }
    let mut i: usize = 0;
    while i < n
        invariant
            i <= n == a@.len() == b@.len(),
            a@.subrange(0, i as int) == b@.subrange(0, i as int),
        decreases n - i,
    {
        if a.get_char(i) != b.get_char(i) {
            return false;
        }
        i = i + 1;
        assert(a@.subrange(0, i as int) =~= a@.subrange(0, i - 1).push(a@[i - 1]));
        assert(b@.subrange(0, i as int) =~= b@.subrange(0, i - 1).push(b@[i - 1]));
    }
    assert(a@ =~= a@.subrange(0, n as int));
    assert(b@ =~= b@.subrange(0, n as int));
    true
}

/// The member named `name` of an object's member list.
fn member<'a>(members: &'a Vec<(String, Json)>, name: &str) -> (r: Option<&'a Json>)
    requires
        crate::json::names_distinct(members@),
    ensures
        r is Some <==> members_view(members@).contains_key(name@),
        r matches Some(x) ==> members_view(members@)[name@] == x@,
        r matches Some(x) ==> exists|i: int| 0 <= i < members@.len() && members@[i].1 == *x,
{
    proof {
        crate::json::lemma_members_view(members@);
    }
    let mut i: usize = 0;
    while i < members.len()
        invariant
            i <= members@.len(),
            crate::json::names_distinct(members@),
            forall|j: int| 0 <= j < i ==> members@[j].0@ != name@,
        decreases members.len() - i,
    {
        if text_is(members[i].0.as_str(), name) {
            proof {
                crate::json::lemma_members_view(members@);
                assert(members_view(members@).contains_key(members@[i as int].0@));
                assert(members_view(members@)[name@] == json_view(members@[i as int].1));
            }
            return Some(&members[i].1);
        }
        i = i + 1;
    }
    proof {
        crate::json::lemma_members_view(members@);
        if members_view(members@).contains_key(name@) {
            let j = choose|j: int| 0 <= j < members@.len() && members@[j].0@ == name@;
        }
    }
    None
}

/// A member that may be absent or null, else must be a string.
fn optional_member(members: &Vec<(String, Json)>, name: &str) -> (r: Option<Option<String>>)
    requires
        crate::json::names_distinct(members@),
    ensures
        match optional_text(members_view(members@), name@) {
            None => r is None,
            Some(o) => r matches Some(x) && opt_text(x) == o,
        },
{
    match member(members, name) {
        None => Some(None),
        Some(Json::Null) => Some(None),
        Some(Json::Str(t)) => Some(Some(t.clone())),
        Some(_) => None,
    }
}

/// Splits a compact token at its dots: the number of dots and the characters
/// of the first segment.
fn split_token(token: &str) -> (r: (usize, Vec<char>))
    ensures
        r.0 == dot_count(token@),
        r.1@ == first_segment(token@),
{
    let chars = chars_of(token);
    let n = chars.len();
    let mut dots: usize = 0;
    let mut first: Vec<char> = Vec::new();
    let mut i: usize = 0;
    while i < n
        invariant
            i <= n == chars@.len(),
            chars@ == token@,
            dots <= i,
            dots == dot_count(chars@.subrange(0, i as int)),
            first@ == first_segment(chars@.subrange(0, i as int)),
        decreases n - i,
    {
        assert(chars@.subrange(0, i + 1).drop_last() =~= chars@.subrange(0, i as int));
        let c = chars[i];
        if first.len() == i && c != '.' {
            first.push(c);
        }
        if c == '.' {
            dots = dots + 1;
        }
        i = i + 1;
    }
    assert(chars@.subrange(0, n as int) =~= chars@);
    (dots, first)
}

/// Reads the header of a compact token: three dot-separated segments, the
/// first one base64url-encoded JSON. A token of another shape, or a header
/// that is not base64url-encoded UTF-8, is `InvalidToken`; a header that is
/// not a JSON object with a string `alg` is a `ParseError`.
pub fn parse_jwt_header(token: &str) -> (r: Result<JwtHeader, JwksError>)
    ensures
        match jwt_header_of(token@) {
            HeaderParse::Invalid => r matches Err(JwksError::InvalidToken),
            HeaderParse::Unparsable => r matches Err(JwksError::ParseError(_)),
            HeaderParse::Found(alg, typ, kid) => r matches Ok(h) && h.alg@ == alg && opt_text(
                h.typ,
            ) == typ && opt_text(h.kid) == kid,
        },
{
    let (dots, first) = split_token(token);
    if dots != 2 {
        return Err(JwksError::InvalidToken);
    }
    let bytes = match base64_decode_simple(&url_chars(&first)) {
        Ok(b) => b,
        Err(_) => {
            return Err(JwksError::InvalidToken);
        },
    };
    let text = match utf8_text(bytes.as_slice()) {
        Some(t) => t,
        None => {
            return Err(JwksError::InvalidToken);
        },
    };
    let doc = match parse_json(text) {
        Ok(d) => d,
        Err(_) => {
            return Err(JwksError::ParseError(String::from_str("Failed to parse JWT header")));
        },
    };
    let bad = JwksError::ParseError(String::from_str("JWT header is not an object with a string alg"));
    match &doc {
        Json::Object(members) => {
            let alg = match member(members, "alg") {
                Some(Json::Str(a)) => a.clone(),
                _ => {
                    return Err(bad);
                },
            };
            let typ = match optional_member(members, "typ") {
                Some(t) => t,
                None => {
                    return Err(bad);
                },
            };
            let kid = match optional_member(members, "kid") {
                Some(k) => k,
                None => {
                    return Err(bad);
                },
            };
            Ok(JwtHeader { alg, typ, kid })
        },
        _ => Err(bad),
    }
}

// ---- keys ------------------------------------------------------------------

pub open spec fn has_kid(k: Jwk, kid: Seq<char>) -> bool {
    k.kid matches Some(x) && x@ == kid
}

/// The first key of the set whose id is `kid`.
pub open spec fn key_with_kid(keys: Seq<Jwk>, kid: Seq<char>) -> Option<Jwk>
    decreases keys.len(),
{
    if keys.len() == 0 {
        None
    } else if has_kid(keys[0], kid) {
        Some(keys[0])
    } else {
        key_with_kid(keys.drop_first(), kid)
    }
}

/// The first key of the set whose id is `kid`, if any.
pub fn find_jwk_by_kid<'a>(jwks: &'a Jwks, kid: &str) -> (r: Option<&'a Jwk>)
    ensures
        match key_with_kid(jwks.keys@, kid@) {
            None => r is None,
            Some(k) => r matches Some(x) && *x == k,
        },
{
    let n = jwks.keys.len();
    let mut i: usize = 0;
    assert(jwks.keys@.subrange(0, n as int) =~= jwks.keys@);
    while i < n
        invariant
            i <= n == jwks.keys@.len(),
            key_with_kid(jwks.keys@, kid@) == key_with_kid(jwks.keys@.subrange(i as int, n as int), kid@),
        decreases n - i,
    {
        let k = &jwks.keys[i];
        let ghost rest = jwks.keys@.subrange(i as int, n as int);
        assert(rest.drop_first() =~= jwks.keys@.subrange(i + 1, n as int));
        assert(rest[0] == *k);
        match &k.kid {
            Some(x) => {
                if text_is(x.as_str(), kid) {
                    return Some(k);
                }
            },
            None => {},
        }
        i = i + 1;
    }
    None
}

} // verus!
