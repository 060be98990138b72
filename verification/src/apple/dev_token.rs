//! The Apple developer token: an ES256 JWT signed with the listener's
//! MusicKit `.p8` key, valid for twelve hours from the moment it is minted.
use vstd::prelude::*;

use crate::apple::{AppleError, AppleErrorView};
use crate::text::{has_prefix, push_str, string_of};

verus! {

/// How long a developer token lives: 12 hours covers any session.
pub const TOKEN_LIFETIME_SECS: u64 = 43200;

#[verifier::external_type_specification]
#[verifier::external_body]
pub struct ExEncodingKey(jsonwebtoken::EncodingKey);

#[verifier::external_type_specification]
#[verifier::external_body]
pub struct ExJwtError(jsonwebtoken::errors::Error);

/// Whether `jsonwebtoken` reads these bytes as a PEM-encoded EC private key
/// (named; the PEM and PKCS#8 parsing is not restated).
pub uninterp spec fn ec_pem_accepted(pem: Seq<u8>) -> bool;

/// Calls `jsonwebtoken::EncodingKey::from_ec_pem`, which parses the PEM and
/// extracts the key. The contract claims that whether it succeeds is a
/// function of the bytes, named [`ec_pem_accepted`].
#[verifier::external_body]
fn ec_key_from_pem(pem: &[u8]) -> (r: Result<jsonwebtoken::EncodingKey, jsonwebtoken::errors::Error>)
    ensures
        r is Ok <==> ec_pem_accepted(pem@),
{
    jsonwebtoken::EncodingKey::from_ec_pem(pem)
}

/// The signing input of a JWT whose header names the algorithm `alg` and
/// the key `kid`, and whose claims are `text_claims` then `number_claims`,
/// in that order: the base64url JSON of the header, a dot, and the base64url
/// JSON of the claims (named; the JSON is not restated).
pub uninterp spec fn jwt_signing_input(
    alg: Seq<char>,
    kid: Seq<char>,
    text_claims: Seq<(Seq<char>, Seq<char>)>,
    number_claims: Seq<(Seq<char>, u64)>,
) -> Seq<char>;

/// The views of `(name, text)` claims.
pub open spec fn text_claims_view(v: Seq<(String, String)>) -> Seq<(Seq<char>, Seq<char>)> {
    v.map_values(|c: (String, String)| (c.0@, c.1@))
}

/// The views of `(name, number)` claims.
pub open spec fn number_claims_view(v: Seq<(String, u64)>) -> Seq<(Seq<char>, u64)> {
    v.map_values(|c: (String, u64)| (c.0@, c.1))
}

/// Calls `jsonwebtoken::encode` with a header naming the algorithm `alg`
/// (parsed by `jsonwebtoken::Algorithm::from_str`) and the key `kid`, and
/// with the claims collected, in order, into a JSON object. `encode` joins
/// the signing input, a dot and the signature; the contract claims that
/// shape, with the signing input named [`jwt_signing_input`]. Nothing is
/// claimed of the signature, which ECDSA randomises, nor of when signing
/// fails.
#[verifier::external_body]
fn sign_jwt(
    key: &jsonwebtoken::EncodingKey,
    alg: &str,
    kid: &str,
    text_claims: &Vec<(String, String)>,
    number_claims: &Vec<(String, u64)>,
) -> (r: Result<String, jsonwebtoken::errors::Error>)
    ensures
        r matches Ok(t) ==> has_prefix(
            t@,
            jwt_signing_input(alg@, kid@, text_claims_view(text_claims@), number_claims_view(number_claims@)) + "."@,
        ),
{
    let mut header = jsonwebtoken::Header::new(alg.parse()?);
    header.kid = Some(kid.to_owned());
    let mut claims = serde_json::Map::new();
    for (name, value) in text_claims {
        claims.insert(name.clone(), serde_json::Value::from(value.as_str()));
    }
    for (name, value) in number_claims {
        claims.insert(name.clone(), serde_json::Value::from(*value));
    }
    jsonwebtoken::encode(&header, &claims, key)
}

/// Calls `Display` on a `jsonwebtoken` error. Nothing is claimed of the text.
#[verifier::external_body]
fn jwt_error_text(e: &jsonwebtoken::errors::Error) -> (r: String) {
    e.to_string()
}

/// The claims of a developer token.
#[derive(Debug)]
pub struct TokenClaims {
    /// The Apple team that issues the token.
    pub iss: String,
    /// When it was issued, in seconds since the Unix epoch.
    pub iat: u64,
    /// When it expires.
    pub exp: u64,
}

/// The claims of a token for `team_id` minted at `now`: issued now, expiring
/// twelve hours later.
pub fn developer_claims(team_id: &str, now: u64) -> (r: TokenClaims)
    requires
        now <= u64::MAX - TOKEN_LIFETIME_SECS,
    ensures
        r.iss@ == team_id@,
        r.iat == now,
        r.exp == now + TOKEN_LIFETIME_SECS,
{
    TokenClaims { iss: team_id.to_owned(), iat: now, exp: now + TOKEN_LIFETIME_SECS }
}

/// The signing input of the developer token for `team_id` and `key_id`
/// minted at `now`: an ES256 header naming the key, and the claims `iss`
/// (the team), `iat` (now) and `exp` (twelve hours later), in that order.
pub open spec fn developer_signing_input(key_id: Seq<char>, team_id: Seq<char>, now: u64) -> Seq<char> {
    jwt_signing_input(
        "ES256"@,
        key_id,
        seq![("iss"@, team_id)],
        seq![("iat"@, now), ("exp"@, (now + TOKEN_LIFETIME_SECS) as u64)],
    )
}

/// What the listener is told when the key can't be read.
pub open spec fn bad_key_text() -> Seq<char> {
    "couldn't read your Apple key. Check that apple.p8_path in ~/.config/rocola/config.toml points at the AuthKey_….p8 file you downloaded from Apple."@
}

/// The prefix of what the listener is told when signing fails.
pub open spec fn sign_failed_prefix() -> Seq<char> {
    "couldn't sign the Apple token: "@
}

/// Apple developer token: ES256 JWT signed with the user's `MusicKit` .p8
/// key, minted at `now` (seconds since the Unix epoch). Short-lived and
/// in-memory only — 12 hours covers any session.
///
/// # Errors
///
/// Returns [`AppleError::BadKey`] when `p8_pem` isn't a valid EC private key
/// or when signing fails.
pub fn mint_developer_token(p8_pem: &str, team_id: &str, key_id: &str, now: u64) -> (r: Result<
    String,
    AppleError,
>)
    requires
        now <= u64::MAX - TOKEN_LIFETIME_SECS,
    ensures
        !ec_pem_accepted(vstd::utf8::encode_utf8(p8_pem@)) ==> (r matches Err(e) && e@
            == AppleErrorView::BadKey(bad_key_text())),
        ec_pem_accepted(vstd::utf8::encode_utf8(p8_pem@)) ==> (r matches Err(e) ==> (e@ is BadKey
            && e@->BadKey_0.take(sign_failed_prefix().len() as int) == sign_failed_prefix())),
        r matches Ok(t) ==> has_prefix(t@, developer_signing_input(key_id@, team_id@, now) + "."@),
{
    let key = match ec_key_from_pem(p8_pem.as_bytes()) {
        Ok(k) => k,
        Err(_) => {
            return Err(
                AppleError::BadKey(
                    "couldn't read your Apple key. Check that apple.p8_path in ~/.config/rocola/config.toml points at the AuthKey_….p8 file you downloaded from Apple.".to_owned(),
                ),
            );
        },
    };
    let claims = developer_claims(team_id, now);
    let mut text_claims: Vec<(String, String)> = Vec::new();
    text_claims.push(("iss".to_owned(), claims.iss));
    let mut number_claims: Vec<(String, u64)> = Vec::new();
    number_claims.push(("iat".to_owned(), claims.iat));
    number_claims.push(("exp".to_owned(), claims.exp));
    proof {
        reveal_strlit("iss");
        reveal_strlit("iat");
        reveal_strlit("exp");
        assert(text_claims_view(text_claims@) =~= seq![("iss"@, team_id@)]);
        assert(number_claims_view(number_claims@) =~= seq![("iat"@, now), ("exp"@, (now + TOKEN_LIFETIME_SECS) as u64)]);
    }
    match sign_jwt(&key, "ES256", key_id, &text_claims, &number_claims) {
        Ok(token) => Ok(token),
        Err(e) => {
            let detail = jwt_error_text(&e);
            let mut out: Vec<char> = Vec::new();
            push_str(&mut out, "couldn't sign the Apple token: ");
            let ghost head = out@;
            push_str(&mut out, detail.as_str());
            assert(out@.take(sign_failed_prefix().len() as int) =~= head);
            Err(AppleError::BadKey(string_of(&out)))
        },
    }
}

} // verus!
