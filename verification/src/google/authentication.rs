//! Service-account authentication: the signed JSON Web Token (RS256) that
//! is exchanged for an access token.
use vstd::prelude::*;

use base64::engine::general_purpose::URL_SAFE_NO_PAD as Base64;
use base64::Engine;
use rsa::pkcs1::DecodeRsaPrivateKey;
use rsa::pkcs8::DecodePrivateKey;
use rsa::RsaPrivateKey;
use vstd::pervasive::unreached;
use vstd::utf8::encode_utf8;

use crate::text::{chars_of, free_of, join_with, lemma_split_join, split_on, string_of, trim, trimmed};

verus! {

/// A private key of RSA.
#[verifier::external_type_specification]
#[verifier::external_body]
pub struct ExRsaPrivateKey(rsa::RsaPrivateKey);

/// The error of the RSA operations.
#[verifier::external_type_specification]
#[verifier::external_body]
pub struct ExRsaError(rsa::Error);

/// The error of JSON serialisation.
#[verifier::external_type_specification]
#[verifier::external_body]
pub struct ExJsonError(serde_json::Error);

/// The permissions that the token asks for.
pub const TOKEN_SCOPE: &'static str = "https://www.googleapis.com/auth/firebase.remoteconfig https://www.googleapis.com/auth/cloud-platform";

/// The signature algorithm named in the token header.
pub const ALGORITHM: &'static str = "RS256";

/// The token type named in the token header.
pub const TOKEN_TYPE: &'static str = "JWT";

/// How long a token stays valid, in minutes.
pub const TOKEN_LIFETIME_MINUTES: i64 = 58;

/// Why no token could be made.
#[derive(Debug, Clone, Copy, PartialEq, Eq, Structural)]
pub enum JwtError {
    /// The private key is neither PKCS#8 nor PKCS#1 PEM.
    UnreadableKey,
    /// The private key was read but failed validation or precomputation.
    InvalidKey,
    /// Signing failed.
    Signing,
    /// The expiry time is out of the clock's range.
    Clock,
    /// A text is too long to be encoded.
    TooLong,
}

/// A service account's credential, as its JSON key file holds it.
pub struct Credential {
    pub client_email: String,
    pub token_uri: String,
    pub private_key: String,
}

/// The claims of a token.
pub struct Claim {
    pub iss: String,
    pub scope: String,
    pub aud: String,
    pub exp: i64,
    pub iat: i64,
}

/// The header of a token.
pub struct TokenHeader {
    pub alg: String,
    pub typ: String,
}

/// An RSA private key read from PEM text. Its view records the text it
/// was read from and whether it was read as PKCS#8 (else as PKCS#1); the
/// fields are private and only the reading calls below make such a key.
pub struct SigningKey {
    key: RsaPrivateKey,
    source: Ghost<Seq<char>>,
    pkcs8: Ghost<bool>,
}

impl View for SigningKey {
    type V = (Seq<char>, bool);

    closed spec fn view(&self) -> (Seq<char>, bool) {
        (self.source@, self.pkcs8@)
    }
}

// ---------------------------------------------------------------------
// What the outside calls compute.

/// A character of the URL-safe base64 alphabet.
pub open spec fn url_safe_char(c: char) -> bool {
    ||| 'A' <= c <= 'Z'
    ||| 'a' <= c <= 'z'
    ||| '0' <= c <= '9'
    ||| c == '-'
    ||| c == '_'
}

/// Every character of `text` is of the URL-safe base64 alphabet.
pub open spec fn url_safe(text: Seq<char>) -> bool {
    forall|i: int| 0 <= i < text.len() ==> url_safe_char(#[trigger] text[i])
}

/// The character of the URL-safe base64 alphabet for the six bits `v`.
pub open spec fn base64_char(v: int) -> char {
    if v < 26 {
        (v + 65) as char
    } else if v < 52 {
        (v - 26 + 97) as char
    } else if v < 62 {
        (v - 52 + 48) as char
    } else if v == 62 {
        '-'
    } else {
        '_'
    }
}

/// Unpadded URL-safe base64 (RFC 4648, section 5): each three bytes become
/// four characters of six bits each; a last one or two bytes become two or
/// three characters, the missing bits zero.
pub open spec fn base64_url(bytes: Seq<u8>) -> Seq<char>
    decreases bytes.len(),
{
    let b0 = bytes[0] as int;
    let b1 = bytes[1] as int;
    let b2 = bytes[2] as int;
    if bytes.len() == 0 {
        Seq::empty()
    } else if bytes.len() == 1 {
        seq![base64_char(b0 / 4), base64_char((b0 % 4) * 16)]
    } else if bytes.len() == 2 {
        seq![base64_char(b0 / 4), base64_char((b0 % 4) * 16 + b1 / 16), base64_char((b1 % 16) * 4)]
    } else {
        seq![
            base64_char(b0 / 4),
            base64_char((b0 % 4) * 16 + b1 / 16),
            base64_char((b1 % 16) * 4 + b2 / 64),
            base64_char(b2 % 64),
        ] + base64_url(bytes.skip(3))
    }
}

/// The hexadecimal digit for `d`, in lower case.
pub open spec fn hex_char(d: int) -> char {
    if d < 10 {
        (d + 48) as char
    } else {
        (d - 10 + 97) as char
    }
}

/// How JSON writes the character `c` inside a string: a double quote, a
/// backslash and the control characters are escaped (`\b`, `\t`, `\n`,
/// `\f`, `\r`, else `\u00` and two hexadecimal digits); all others stand
/// as they are.
pub open spec fn json_escape(c: char) -> Seq<char> {
    let u = c as u32;
    if c == '"' {
        seq!['\\', '"']
    } else if c == '\\' {
        seq!['\\', '\\']
    } else if u == 8 {
        seq!['\\', 'b']
    } else if u == 9 {
        seq!['\\', 't']
    } else if u == 10 {
        seq!['\\', 'n']
    } else if u == 12 {
        seq!['\\', 'f']
    } else if u == 13 {
        seq!['\\', 'r']
    } else if u < 32 {
        seq!['\\', 'u', '0', '0', hex_char((u / 16) as int), hex_char((u % 16) as int)]
    } else {
        seq![c]
    }
}

/// The characters of `text`, each as JSON writes it inside a string.
pub open spec fn json_escaped(text: Seq<char>) -> Seq<char>
    decreases text.len(),
{
    if text.len() == 0 {
        Seq::empty()
    } else {
        json_escaped(text.drop_last()) + json_escape(text.last())
    }
}

/// `text` as a JSON string: escaped, between double quotes.
pub open spec fn json_string(text: Seq<char>) -> Seq<char> {
    seq!['"'] + json_escaped(text) + seq!['"']
}

/// What `hmac_sha256::Hash::hash` returns for bytes.
pub uninterp spec fn sha256_of(data: Seq<u8>) -> Seq<u8>;

/// Whether `RsaPrivateKey::from_pkcs8_pem` reads a key from the text.
pub uninterp spec fn pkcs8_pem_decodes(pem: Seq<char>) -> bool;

/// Whether `RsaPrivateKey::from_pkcs1_pem` reads a key from the text.
pub uninterp spec fn pkcs1_pem_decodes(pem: Seq<char>) -> bool;

/// Whether `RsaPrivateKey::validate` accepts the key read from the text
/// (as PKCS#8 when the flag is set, else as PKCS#1).
pub uninterp spec fn key_validates(key: (Seq<char>, bool)) -> bool;

/// Whether `RsaPrivateKey::precompute` succeeds on the key read from the
/// text.
pub uninterp spec fn key_precomputes(key: (Seq<char>, bool)) -> bool;

/// What `RsaPrivateKey::sign` with PKCS#1 v1.5 padding for SHA-256 returns
/// for the key read from the text and the digest: the signature, or `None`
/// when it fails.
pub uninterp spec fn rs256_of(key: (Seq<char>, bool), digest: Seq<u8>) -> Option<Seq<u8>>;

// ---------------------------------------------------------------------
// Outside calls.

/// `serde_json::to_string` on a text: the text as a JSON string. It does
/// not fail: a text is written into a vector, which cannot fail.
#[verifier::external_body]
fn json_quote(text: &str) -> (quoted: Result<String, serde_json::Error>)
    ensures
        quoted is Ok,
        quoted matches Ok(q) ==> q@ == json_string(text@),
{
    serde_json::to_string(text)
}

/// `URL_SAFE_NO_PAD.encode` of the `base64` crate: unpadded URL-safe
/// base64. It panics only when the encoded length overflows, which the
/// bound on the input rules out.
#[verifier::external_body]
fn base64_encode(bytes: &[u8]) -> (text: String)
    requires
        bytes@.len() <= usize::MAX / 2,
    ensures
        text@ == base64_url(bytes@),
{
    Base64.encode(bytes)
}

/// `hmac_sha256::Hash::hash`: the SHA-256 digest. Stated: the result is the
/// named value, 32 bytes long.
#[verifier::external_body]
fn sha256(data: &[u8]) -> (digest: Vec<u8>)
    ensures
        digest@ == sha256_of(data@),
        digest@.len() == 32,
{
    hmac_sha256::Hash::hash(data).to_vec()
}

/// `RsaPrivateKey::from_pkcs8_pem`. Stated: whether a key comes back is the
/// named value, and the key records the text, read as PKCS#8.
#[verifier::external_body]
fn decode_pkcs8_pem(pem: &str) -> (key: Option<SigningKey>)
    ensures
        key is Some == pkcs8_pem_decodes(pem@),
        key matches Some(k) ==> k@ == key_record(pem@, true),
{
    match RsaPrivateKey::from_pkcs8_pem(pem) {
        Ok(key) => Some(SigningKey { key, source: Ghost(pem@), pkcs8: Ghost(true) }),
        Err(_) => None,
    }
}

/// `RsaPrivateKey::from_pkcs1_pem`. Stated: whether a key comes back is the
/// named value, and the key records the text, read as PKCS#1.
#[verifier::external_body]
fn decode_pkcs1_pem(pem: &str) -> (key: Option<SigningKey>)
    ensures
        key is Some == pkcs1_pem_decodes(pem@),
        key matches Some(k) ==> k@ == key_record(pem@, false),
{
    match RsaPrivateKey::from_pkcs1_pem(pem) {
        Ok(key) => Some(SigningKey { key, source: Ghost(pem@), pkcs8: Ghost(false) }),
        Err(_) => None,
    }
}

/// `RsaPrivateKey::validate`. Stated: whether it succeeds is the named
/// value for the text the key was read from. A key is wholly given by that
/// text: reading it fills in all its values and tries the precomputation.
#[verifier::external_body]
fn validate_key(key: &SigningKey) -> (checked: Result<(), rsa::Error>)
    ensures
        checked is Ok == key_validates(key@),
{
    key.key.validate()
}

/// `RsaPrivateKey::precompute`. Stated: whether it succeeds is the named
/// value for the text the key was read from, and the record is kept. It
/// does nothing once the values are computed, so repeating it changes
/// neither the key nor the outcome.
#[verifier::external_body]
fn precompute_key(key: &mut SigningKey) -> (done: Result<(), rsa::Error>)
    ensures
        final(key)@ == old(key)@,
        done is Ok == key_precomputes(old(key)@),
{
    key.key.precompute()
}

/// `RsaPrivateKey::sign` with PKCS#1 v1.5 padding for a SHA-256 digest.
/// Stated: the outcome is the named value for the key's text and the
/// digest (signing uses no random numbers), and a digest that is not 32
/// bytes long is refused.
#[verifier::external_body]
fn sign_pkcs1v15_sha256(key: &SigningKey, digest: &[u8]) -> (signature: Result<
    Vec<u8>,
    rsa::Error,
>)
    ensures
        signature is Ok == rs256_of(key@, digest@) is Some,
        signature matches Ok(s) ==> rs256_of(key@, digest@) == Some(s@),
        digest@.len() != 32 ==> signature is Err,
{
    key.key.sign(rsa::pkcs1v15::Pkcs1v15Sign::new::<hmac_sha256::Hash>(), digest)
}

/// `chrono::Local::now`, read as seconds since the Unix epoch with
/// `DateTime::timestamp`. Nothing is stated: the result is the time.
#[verifier::external_body]
fn clock_seconds() -> (seconds: i64) {
    chrono::Local::now().timestamp()
}

/// The time `now` (seconds since the Unix epoch, `DateTime::from_timestamp`)
/// moved forward by `minutes` minutes with `DateTime::checked_add_signed`,
/// read back with `DateTime::timestamp`; `None` when a date falls out of
/// chrono's range (years -262143 to 262142, about 8.2e12 seconds either
/// side of the epoch). Stated: a result is exactly `60 * minutes` seconds
/// after `now`, and there is one for every `now` within 8e12 seconds of
/// the epoch. Not stated: the exact bounds of the range.
#[verifier::external_body]
fn seconds_after(now: i64, minutes: i64) -> (later: Option<i64>)
    requires
        0 <= minutes <= 1_000_000,
    ensures
        later matches Some(s) ==> s == now + 60 * minutes,
        -8_000_000_000_000 <= now <= 8_000_000_000_000 ==> later is Some,
{
    match chrono::DateTime::from_timestamp(now, 0) {
        Some(time) => match time.checked_add_signed(chrono::Duration::minutes(minutes)) {
            Some(later) => Some(later.timestamp()),
            None => None,
        },
        None => None,
    }
}

/// The record of a key read from `text`, as PKCS#8 or else PKCS#1.
pub open spec fn key_record(text: Seq<char>, pkcs8: bool) -> (Seq<char>, bool) {
    (text, pkcs8)
}

/// Every base64 character is of the URL-safe alphabet.
pub proof fn lemma_base64_url_safe(bytes: Seq<u8>)
    ensures
        url_safe(base64_url(bytes)),
    decreases bytes.len(),
{
    if bytes.len() >= 3 {
        lemma_base64_url_safe(bytes.skip(3));
    }
}

// ---------------------------------------------------------------------
// Decimal numbers.

/// The decimal digit for `d`.
pub open spec fn digit_char(d: int) -> char {
    if d == 0 {
        '0'
    } else if d == 1 {
        '1'
    } else if d == 2 {
        '2'
    } else if d == 3 {
        '3'
    } else if d == 4 {
        '4'
    } else if d == 5 {
        '5'
    } else if d == 6 {
        '6'
    } else if d == 7 {
        '7'
    } else if d == 8 {
        '8'
    } else {
        '9'
    }
}

/// The decimal digits of `n`, most significant first, without leading
/// zeros.
pub open spec fn decimal_digits(n: nat) -> Seq<char>
    decreases n,
{
    if n < 10 {
        seq![digit_char(n as int)]
    } else {
        decimal_digits(n / 10).push(digit_char((n % 10) as int))
    }
}

/// `n` written in decimal, with a minus sign when negative, as JSON writes
/// an integer.
pub open spec fn decimal_text(n: int) -> Seq<char> {
    if n < 0 {
        seq!['-'] + decimal_digits((-n) as nat)
    } else {
        decimal_digits(n as nat)
    }
}

/// `serde_json::to_string` on an integer: its decimal digits, with a
/// minus sign when negative. It does not fail: the number is written into
/// a vector, which cannot fail.
#[verifier::external_body]
fn json_integer(n: i64) -> (text: Result<String, serde_json::Error>)
    ensures
        text is Ok,
        text matches Ok(t) ==> t@ == decimal_text(n as int),
{
    serde_json::to_string(&n)
}

/// `n` written in decimal, as JSON writes it.
pub fn decimal_of(n: i64) -> (out: Vec<char>)
    ensures
        out@ == decimal_text(n as int),
{
    match json_integer(n) {
        Ok(text) => chars_of(text.as_str()),
        Err(_) => unreached(),
    }
}

// ---------------------------------------------------------------------
// JSON documents.

/// The token header as JSON: `{"alg":…,"typ":…}`.
pub open spec fn header_json_of(alg: Seq<char>, typ: Seq<char>) -> Seq<char> {
    seq!['{', '"', 'a', 'l', 'g', '"', ':'] + json_string(alg) + seq![
        ',',
        '"',
        't',
        'y',
        'p',
        '"',
        ':',
    ] + json_string(typ) + seq!['}']
}

/// The token header as JSON.
pub open spec fn header_json(header: TokenHeader) -> Seq<char> {
    header_json_of(header.alg@, header.typ@)
}

/// The claims as JSON: `{"iss":…,"scope":…,"aud":…,"exp":…,"iat":…}`.
pub open spec fn claim_json(claim: Claim) -> Seq<char> {
    seq!['{', '"', 'i', 's', 's', '"', ':'] + json_string(claim.iss@) + seq![
        ',',
        '"',
        's',
        'c',
        'o',
        'p',
        'e',
        '"',
        ':',
    ] + json_string(claim.scope@) + seq![',', '"', 'a', 'u', 'd', '"', ':'] + json_string(
        claim.aud@,
    ) + seq![',', '"', 'e', 'x', 'p', '"', ':'] + decimal_text(claim.exp as int) + seq![
        ',',
        '"',
        'i',
        'a',
        't',
        '"',
        ':',
    ] + decimal_text(claim.iat as int) + seq!['}']
}

/// Appends `more` to `out`.
fn push_all(out: &mut Vec<char>, more: Vec<char>)
    ensures
        final(out)@ == old(out)@ + more@,
{
    let mut more = more;
    out.append(&mut more);
}

/// The text as a JSON string.
fn quoted_chars(text: &str) -> (quoted: Vec<char>)
    ensures
        quoted@ == json_string(text@),
{
    match json_quote(text) {
        Ok(q) => chars_of(q.as_str()),
        Err(_) => unreached(),
    }
}

/// The token header serialised as JSON, its fields in declaration order.
pub fn header_json_text(header: &TokenHeader) -> (json: String)
    ensures
        json@ == header_json(*header),
{
    let alg = quoted_chars(header.alg.as_str());
    let typ = quoted_chars(header.typ.as_str());
    let mut out: Vec<char> = vec!['{', '"', 'a', 'l', 'g', '"', ':'];
    push_all(&mut out, alg);
    push_all(&mut out, vec![',', '"', 't', 'y', 'p', '"', ':']);
    push_all(&mut out, typ);
    push_all(&mut out, vec!['}']);
    assert(out@ =~= header_json(*header));
    string_of(&out)
}

/// The claims serialised as JSON, their fields in declaration order.
pub fn claim_json_text(claim: &Claim) -> (json: String)
    ensures
        json@ == claim_json(*claim),
{
    let iss = quoted_chars(claim.iss.as_str());
    let scope = quoted_chars(claim.scope.as_str());
    let aud = quoted_chars(claim.aud.as_str());
    let mut out: Vec<char> = vec!['{', '"', 'i', 's', 's', '"', ':'];
    push_all(&mut out, iss);
    push_all(&mut out, vec![',', '"', 's', 'c', 'o', 'p', 'e', '"', ':']);
    push_all(&mut out, scope);
    push_all(&mut out, vec![',', '"', 'a', 'u', 'd', '"', ':']);
    push_all(&mut out, aud);
    push_all(&mut out, vec![',', '"', 'e', 'x', 'p', '"', ':']);
    push_all(&mut out, decimal_of(claim.exp));
    push_all(&mut out, vec![',', '"', 'i', 'a', 't', '"', ':']);
    push_all(&mut out, decimal_of(claim.iat));
    push_all(&mut out, vec!['}']);
    assert(out@ =~= claim_json(*claim));
    string_of(&out)
}

// ---------------------------------------------------------------------
// The token.

/// The URL-safe base64 of the text's UTF-8 bytes.
pub open spec fn encoded_text(text: Seq<char>) -> Seq<char> {
    base64_url(encode_utf8(text))
}

/// The text's UTF-8 encoding is too long to be encoded.
pub open spec fn too_long(text: Seq<char>) -> bool {
    encode_utf8(text).len() > usize::MAX / 2
}

/// The part of the token that is signed: the encoded header, a dot and the
/// encoded claims.
pub open spec fn signing_input(header: TokenHeader, claim: Claim) -> Seq<char> {
    encoded_text(header_json(header)) + seq!['.'] + encoded_text(claim_json(claim))
}

/// The whole token: the signed part, a dot and the encoded signature.
pub open spec fn token_text(header: TokenHeader, claim: Claim, signature: Seq<u8>) -> Seq<char> {
    signing_input(header, claim) + seq!['.'] + base64_url(signature)
}

/// The digest that is signed for the encoded header and claims: SHA-256 of
/// the UTF-8 bytes of both joined by a dot.
pub open spec fn digest_of(header: Seq<char>, payload: Seq<char>) -> Seq<u8> {
    sha256_of(encode_utf8(header + seq!['.'] + payload))
}

/// The key read from the (trimmed) PEM text: PKCS#8 when that reads, else
/// PKCS#1.
pub open spec fn key_source(text: Seq<char>) -> (Seq<char>, bool) {
    key_record(text, pkcs8_pem_decodes(text))
}

/// The text reads as a key in one of the two formats.
pub open spec fn key_readable(text: Seq<char>) -> bool {
    pkcs8_pem_decodes(text) || pkcs1_pem_decodes(text)
}

/// What reading a key from the trimmed PEM text gives: the key's record, or
/// why it cannot be used.
pub open spec fn key_outcome(text: Seq<char>) -> Result<(Seq<char>, bool), JwtError> {
    if !key_readable(text) {
        Err(JwtError::UnreadableKey)
    } else if !key_validates(key_source(text)) || !key_precomputes(key_source(text)) {
        Err(JwtError::InvalidKey)
    } else {
        Ok(key_source(text))
    }
}

/// What signing the digest with the key read from the trimmed PEM text
/// gives: the signature's bytes, or why there are none.
pub open spec fn signature_outcome(text: Seq<char>, digest: Seq<u8>) -> Result<Seq<u8>, JwtError> {
    match key_outcome(text) {
        Err(e) => Err(e),
        Ok(key) => match rs256_of(key, digest) {
            None => Err(JwtError::Signing),
            Some(signature) => if signature.len() > usize::MAX / 2 {
                Err(JwtError::TooLong)
            } else {
                Ok(signature)
            },
        },
    }
}

/// What making the token for the header, the claims and the PEM private key
/// gives: the token, or why there is none.
pub open spec fn token_outcome(header: TokenHeader, claim: Claim, pem: Seq<char>) -> Result<
    Seq<char>,
    JwtError,
> {
    if too_long(header_json(header)) || too_long(claim_json(claim)) {
        Err(JwtError::TooLong)
    } else {
        let header_part = encoded_text(header_json(header));
        let claim_part = encoded_text(claim_json(claim));
        match signature_outcome(trimmed(pem), digest_of(header_part, claim_part)) {
            Ok(signature) => Ok(token_text(header, claim, signature)),
            Err(e) => Err(e),
        }
    }
}

/// The claims were made for the credential: issued by its account, for
/// the token endpoint, with the fixed scope.
pub open spec fn claim_for(claim: Claim, credential: Credential) -> bool {
    &&& claim.iss@ == credential.client_email@
    &&& claim.scope@ == TOKEN_SCOPE@
    &&& claim.aud@ == credential.token_uri@
}

/// `a`, a dot, `b`.
fn dotted(a: &str, b: &str) -> (out: Vec<char>)
    ensures
        out@ == a@ + seq!['.'] + b@,
{
    let mut out = chars_of(a);
    out.push('.');
    push_all(&mut out, chars_of(b));
    out
}

/// The text's UTF-8 bytes in URL-safe base64.
fn encode_text(text: &str) -> (encoded: Result<String, JwtError>)
    ensures
        encoded matches Ok(e) ==> e@ == encoded_text(text@) && !too_long(text@),
        encoded matches Err(e) ==> e == JwtError::TooLong && too_long(text@),
{
    let bytes = text.as_bytes();
    if bytes.len() > usize::MAX / 2 {
        return Err(JwtError::TooLong);
    }
    Ok(base64_encode(bytes))
}

/// The signed part of the token for the header and the claims; refused
/// exactly when the UTF-8 of the header's or the claims' JSON is longer
/// than half the address space.
pub fn signing_input_text(header: &TokenHeader, claim: &Claim) -> (input: Result<String, JwtError>)
    ensures
        input matches Ok(i) ==> i@ == signing_input(*header, *claim),
        input is Err <==> too_long(header_json(*header)) || too_long(claim_json(*claim)),
        input matches Err(e) ==> e == JwtError::TooLong,
{
    let header_text = header_json_text(header);
    let claim_text = claim_json_text(claim);
    let header_part = match encode_text(header_text.as_str()) {
        Ok(e) => e,
        Err(e) => return Err(e),
    };
    let claim_part = match encode_text(claim_text.as_str()) {
        Ok(e) => e,
        Err(e) => return Err(e),
    };
    Ok(string_of(&dotted(header_part.as_str(), claim_part.as_str())))
}

/// The digest that is signed: SHA-256 of the UTF-8 bytes of the encoded
/// header, a dot and the encoded claims.
pub fn signing_digest(header: &str, payload: &str) -> (digest: Vec<u8>)
    ensures
        digest@ == digest_of(header@, payload@),
        digest@.len() == 32,
{
    let document = string_of(&dotted(header, payload));
    sha256(document.as_str().as_bytes())
}

/// Reads the RSA private key from PEM text: the text is trimmed and read as
/// PKCS#8, or else as PKCS#1; the key is then validated and its
/// precomputed values filled in. The key, or the reason there is none, is
/// what `key_outcome` gives for the trimmed text.
pub fn read_key(pem: String) -> (key: Result<SigningKey, JwtError>)
    ensures
        key matches Ok(k) ==> key_outcome(trimmed(pem@)) == Ok::<(Seq<char>, bool), JwtError>(k@),
        key matches Err(e) ==> key_outcome(trimmed(pem@)) == Err::<(Seq<char>, bool), JwtError>(e),
{
    let text = trim(pem.as_str());
    let decoded = match decode_pkcs8_pem(text) {
        Some(k) => Some(k),
        None => decode_pkcs1_pem(text),
    };
    let mut key = match decoded {
        Some(k) => k,
        None => return Err(JwtError::UnreadableKey),
    };
    assert(key@ == key_source(text@));
    match validate_key(&key) {
        Ok(()) => {},
        Err(_) => return Err(JwtError::InvalidKey),
    }
    match precompute_key(&mut key) {
        Ok(()) => {},
        Err(_) => return Err(JwtError::InvalidKey),
    }
    Ok(key)
}

/// The RSA private key of the PEM text, read as `read_key` reads it, for a
/// text that gives a usable key (on any other the reading fails).
pub fn create_key(pem: String) -> (key: SigningKey)
    requires
        key_outcome(trimmed(pem@)) is Ok,
    ensures
        key@ == key_source(trimmed(pem@)),
{
    match read_key(pem) {
        Ok(k) => k,
        Err(_) => unreached(),
    }
}

/// Signs the encoded header and claims with the PEM private key: the RS256
/// signature (PKCS#1 v1.5, SHA-256) of their digest (`signing_digest`) by
/// the key that `create_key` reads, in URL-safe base64; for a key and
/// digest that give a signature (on any other the signing fails).
pub fn sign_jwt(header: &str, payload: &str, key: String) -> (signature: String)
    requires
        signature_outcome(trimmed(key@), digest_of(header@, payload@)) is Ok,
    ensures
        signature@ == base64_url(signature_outcome(trimmed(key@), digest_of(header@, payload@))->Ok_0),
{
    let digest = signing_digest(header, payload);
    let key = create_key(key);
    let signed = match sign_pkcs1v15_sha256(&key, digest.as_slice()) {
        Ok(bytes) => bytes,
        Err(_) => unreached(),
    };
    base64_encode(signed.as_slice())
}

/// Signs as `sign_jwt` does where the key and digest give a signature, and
/// otherwise says why they do not: the outcome is what
/// `signature_outcome` gives.
pub fn try_sign_jwt(header: &str, payload: &str, key: String) -> (signature: Result<String, JwtError>)
    ensures
        signature matches Ok(s) ==> (signature_outcome(trimmed(key@), digest_of(header@, payload@))
            matches Ok(bytes) && s@ == base64_url(bytes)),
        signature matches Err(e) ==> signature_outcome(trimmed(key@), digest_of(header@, payload@))
            == Err::<Seq<u8>, JwtError>(e),
{
    let digest = signing_digest(header, payload);
    let signing_key = match read_key(key.clone()) {
        Ok(k) => k,
        Err(e) => return Err(e),
    };
    let signed = match sign_pkcs1v15_sha256(&signing_key, digest.as_slice()) {
        Ok(bytes) => bytes,
        Err(_) => return Err(JwtError::Signing),
    };
    if signed.len() > usize::MAX / 2 {
        return Err(JwtError::TooLong);
    }
    Ok(sign_jwt(header, payload, key))
}

/// The token: the signed part, a dot and the encoded signature.
pub fn seal(input: &str, signature: &str) -> (token: String)
    ensures
        token@ == input@ + seq!['.'] + signature@,
{
    string_of(&dotted(input, signature))
}

impl Claim {
    /// The claims for the credential with the given expiry and issue times.
    pub fn new(credential: &Credential, expires_at: i64, issued_at: i64) -> (claim: Claim)
        ensures
            claim_for(claim, *credential),
            claim.exp == expires_at,
            claim.iat == issued_at,
    {
        Claim {
            iss: credential.client_email.clone(),
            scope: String::from_str(TOKEN_SCOPE),
            aud: credential.token_uri.clone(),
            exp: expires_at,
            iat: issued_at,
        }
    }

    /// The claims for the credential for two clock readings: expiring 58
    /// minutes after the first, issued at the second. Refused with `Clock`
    /// only when the expiry falls out of the clock's range, which readings
    /// within 8e12 seconds of the epoch never do.
    pub fn expiring(credential: &Credential, read_for_expiry: i64, read_for_issue: i64) -> (claim:
        Result<Claim, JwtError>)
        ensures
            claim matches Ok(c) ==> claim_for(c, *credential) && c.exp == read_for_expiry + 60
                * TOKEN_LIFETIME_MINUTES && c.iat == read_for_issue,
            claim matches Err(e) ==> e == JwtError::Clock,
            -8_000_000_000_000 <= read_for_expiry <= 8_000_000_000_000 ==> claim is Ok,
    {
        match seconds_after(read_for_expiry, TOKEN_LIFETIME_MINUTES) {
            Some(expires_at) => Ok(Claim::new(credential, expires_at, read_for_issue)),
            None => Err(JwtError::Clock),
        }
    }

    /// The claims for the credential, expiring 58 minutes from now and
    /// issued now: the clock is read for the expiry, then for the issue
    /// time, and the claims are those that `expiring` makes of the two
    /// readings.
    pub fn issued_now(credential: &Credential) -> (claim: Result<Claim, JwtError>)
        ensures
            claim matches Ok(c) ==> claim_for(c, *credential),
            claim matches Err(e) ==> e == JwtError::Clock,
    {
        let read_for_expiry = clock_seconds();
        let read_for_issue = clock_seconds();
        Claim::expiring(credential, read_for_expiry, read_for_issue)
    }
}

/// A successful token has three dot-separated parts: the encoded header,
/// the encoded claims and the encoded RS256 signature, by the key read from
/// the PEM text, of the first two parts joined by a dot.
pub proof fn law_token_signed_by_key(header: TokenHeader, claim: Claim, pem: Seq<char>)
    requires
        token_outcome(header, claim, pem) is Ok,
    ensures
        split_on(token_outcome(header, claim, pem)->Ok_0, '.').len() == 3,
        split_on(token_outcome(header, claim, pem)->Ok_0, '.')[0] == encoded_text(
            header_json(header),
        ),
        split_on(token_outcome(header, claim, pem)->Ok_0, '.')[1] == encoded_text(
            claim_json(claim),
        ),
        key_outcome(trimmed(pem)) is Ok,
        rs256_of(
            key_source(trimmed(pem)),
            digest_of(
                split_on(token_outcome(header, claim, pem)->Ok_0, '.')[0],
                split_on(token_outcome(header, claim, pem)->Ok_0, '.')[1],
            ),
        ) matches Some(signature) && split_on(token_outcome(header, claim, pem)->Ok_0, '.')[2]
            == base64_url(signature),
        forall|k: int|
            0 <= k < 3 ==> url_safe(#[trigger] split_on(token_outcome(header, claim, pem)->Ok_0, '.')[k]),
{
    let a = encoded_text(header_json(header));
    let b = encoded_text(claim_json(claim));
    let signature = signature_outcome(trimmed(pem), digest_of(a, b))->Ok_0;
    let c = base64_url(signature);
    lemma_three_parts(encode_utf8(header_json(header)), encode_utf8(claim_json(claim)), signature);
    assert(token_outcome(header, claim, pem)->Ok_0 == a + seq!['.'] + b + seq!['.'] + c);
    lemma_base64_url_safe(encode_utf8(header_json(header)));
    lemma_base64_url_safe(encode_utf8(claim_json(claim)));
    lemma_base64_url_safe(signature);
    let parts = split_on(token_outcome(header, claim, pem)->Ok_0, '.');
    assert(parts == seq![a, b, c]);
    assert forall|k: int| 0 <= k < 3 implies url_safe(#[trigger] parts[k]) by {
        if k == 0 {
            assert(parts[k] == a);
        } else if k == 1 {
            assert(parts[k] == b);
        } else {
            assert(parts[k] == c);
        }
    }
}

/// Three base64 texts joined by dots split back into the three texts.
pub proof fn lemma_three_parts(x: Seq<u8>, y: Seq<u8>, z: Seq<u8>)
    ensures
        split_on(
            base64_url(x) + seq!['.'] + base64_url(y) + seq!['.'] + base64_url(z),
            '.',
        ) == seq![base64_url(x), base64_url(y), base64_url(z)],
{
    let parts = seq![base64_url(x), base64_url(y), base64_url(z)];
    lemma_base64_url_safe(x);
    lemma_base64_url_safe(y);
    lemma_base64_url_safe(z);
    assert forall|k: int| 0 <= k < 3 implies free_of(#[trigger] parts[k], '.') by {
        let p = parts[k];
        assert(url_safe(p));
        assert forall|i: int| 0 <= i < p.len() implies p[i] != '.' by {
            assert(url_safe_char(p[i]));
        }
    }
    let two = seq![base64_url(x), base64_url(y)];
    assert(parts.drop_last() =~= two);
    assert(two.drop_last() =~= seq![base64_url(x)]);
    assert(join_with(seq![base64_url(x)], '.') == base64_url(x));
    assert(join_with(two, '.') == join_with(seq![base64_url(x)], '.') + seq!['.'] + base64_url(y));
    assert(join_with(parts, '.') == join_with(two, '.') + seq!['.'] + base64_url(z));
    lemma_split_join(parts, '.');
}

/// The signed token for the credential and header with the given claims:
/// the header and claims as JSON in URL-safe base64 and the RS256 signature
/// by the credential's private key, or the reason there is none, as
/// `token_outcome` gives them.
pub fn encode_jwt_with_claim(credential: Credential, token_info: &TokenHeader, claim: &Claim) -> (token: Result<String, JwtError>)
    ensures
        token matches Ok(t) ==> token_outcome(*token_info, *claim, credential.private_key@)
            == Ok::<Seq<char>, JwtError>(t@),
        token matches Err(e) ==> token_outcome(*token_info, *claim, credential.private_key@)
            == Err::<Seq<char>, JwtError>(e),
{
    let header_text = header_json_text(token_info);
    let header = match encode_text(header_text.as_str()) {
        Ok(e) => e,
        Err(e) => return Err(e),
    };
    let claim_text = claim_json_text(claim);
    let payload = match encode_text(claim_text.as_str()) {
        Ok(e) => e,
        Err(e) => return Err(e),
    };
    let signature = match try_sign_jwt(header.as_str(), payload.as_str(), credential.private_key) {
        Ok(s) => s,
        Err(e) => return Err(e),
    };
    let input = string_of(&dotted(header.as_str(), payload.as_str()));
    Ok(seal(input.as_str(), signature.as_str()))
}

/// The signed token for the credential and header: claims issued now for
/// the credential (`Claim::issued_now`), then the token that
/// `encode_jwt_with_claim` makes with them. The token has exactly three
/// dot-separated parts, each in the URL-safe alphabet.
pub fn encode_jwt(credential: Credential, token_info: &TokenHeader) -> (token: Result<String, JwtError>)
    ensures
        token matches Ok(t) ==> exists|claim: Claim|
            claim_for(claim, credential) && #[trigger] token_outcome(
                *token_info,
                claim,
                credential.private_key@,
            ) == Ok::<Seq<char>, JwtError>(t@),
        token matches Err(e) ==> e == JwtError::Clock || exists|claim: Claim|
            claim_for(claim, credential) && #[trigger] token_outcome(
                *token_info,
                claim,
                credential.private_key@,
            ) == Err::<Seq<char>, JwtError>(e),
        token matches Ok(t) ==> split_on(t@, '.').len() == 3,
        token matches Ok(t) ==> forall|k: int| 0 <= k < 3 ==> url_safe(#[trigger] split_on(t@, '.')[k]),
{
    let claim = match Claim::issued_now(&credential) {
        Ok(c) => c,
        Err(e) => return Err(e),
    };
    let ghost pem = credential.private_key@;
    let token = encode_jwt_with_claim(credential, token_info, &claim);
    proof {
        if token is Ok {
            law_token_signed_by_key(*token_info, claim, pem);
        }
    }
    token
}

/// The signed token that asks for access with the service account's
/// credential: header `{"alg":"RS256","typ":"JWT"}`, claims issued now.
pub fn generate_request_jwt(credential: Credential) -> (token: Result<String, JwtError>)
    ensures
        token matches Ok(t) ==> exists|header: TokenHeader, claim: Claim|
            header.alg@ == ALGORITHM@ && header.typ@ == TOKEN_TYPE@ && claim_for(claim, credential)
                && #[trigger] token_outcome(header, claim, credential.private_key@) == Ok::<
                Seq<char>,
                JwtError,
            >(t@),
        token matches Err(e) ==> e == JwtError::Clock || exists|header: TokenHeader, claim: Claim|
            header.alg@ == ALGORITHM@ && header.typ@ == TOKEN_TYPE@ && claim_for(claim, credential)
                && #[trigger] token_outcome(header, claim, credential.private_key@) == Err::<
                Seq<char>,
                JwtError,
            >(e),
        token matches Ok(t) ==> split_on(t@, '.').len() == 3,
        token matches Ok(t) ==> forall|k: int| 0 <= k < 3 ==> url_safe(#[trigger] split_on(t@, '.')[k]),
{
    let token_info = TokenHeader { alg: String::from_str(ALGORITHM), typ: String::from_str(TOKEN_TYPE) };
    encode_jwt(credential, &token_info)
}

/// Signing depends only on the encoded header and claims and on the key's
/// text without surrounding white space: equal inputs give equal outcomes,
/// whichever white space surrounds the PEM text.
pub proof fn law_signing_deterministic(
    header: Seq<char>,
    payload: Seq<char>,
    key: Seq<char>,
    other_key: Seq<char>,
)
    requires
        trimmed(key) == trimmed(other_key),
    ensures
        signature_outcome(trimmed(key), digest_of(header, payload)) == signature_outcome(
            trimmed(other_key),
            digest_of(header, payload),
        ),
{
}

} // verus!
