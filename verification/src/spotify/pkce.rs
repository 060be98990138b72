//! PKCE (RFC 7636) for the Spotify sign-in, and the authorisation link.
use base64::engine::general_purpose::URL_SAFE_NO_PAD;
use base64::Engine;
use rand::RngExt;
use sha2::{Digest, Sha256};
use vstd::prelude::*;

use crate::normalize::is_ascii_alnum;
use crate::text::{chars_of, push_all, push_str, replace_all, replace_chars, string_of};

verus! {

/// Where Spotify sends the browser back to: rocola's loopback listener.
pub const REDIRECT_URI: &'static str = "http://127.0.0.1:8888/callback";

/// A PKCE verifier and the challenge derived from it.
#[derive(Debug)]
pub struct Pkce {
    pub verifier: String,
    pub challenge: String,
}

impl Clone for Pkce {
    fn clone(&self) -> (r: Self)
        ensures
            r.verifier@ == self.verifier@,
            r.challenge@ == self.challenge@,
    {
        Pkce { verifier: self.verifier.clone(), challenge: self.challenge.clone() }
    }
}

/// What SHA-256 computes over `data` (named; the hash is not restated).
pub uninterp spec fn sha256_of(data: Seq<u8>) -> Seq<u8>;

/// The digit for the six-bit value `v` in the URL-safe Base64 alphabet
/// (RFC 4648 §5): `A–Z`, `a–z`, `0–9`, `-`, `_`.
pub open spec fn b64_digit(v: int) -> char {
    if v < 26 {
        (65 + v) as char
    } else if v < 52 {
        (97 + v - 26) as char
    } else if v < 62 {
        (48 + v - 52) as char
    } else if v == 62 {
        '-'
    } else {
        '_'
    }
}

/// The unpadded URL-safe Base64 encoding of `data`: each three bytes become
/// four digits of six bits each; a last one or two bytes become two or three
/// digits, with no `=` padding.
pub open spec fn base64_url_of(data: Seq<u8>) -> Seq<char>
    decreases data.len(),
{
    if data.len() == 0 {
        seq![]
    } else if data.len() == 1 {
        let a = data[0] as int;
        seq![b64_digit(a / 4), b64_digit((a % 4) * 16)]
    } else if data.len() == 2 {
        let a = data[0] as int;
        let b = data[1] as int;
        seq![b64_digit(a / 4), b64_digit((a % 4) * 16 + b / 16), b64_digit((b % 16) * 4)]
    } else {
        let a = data[0] as int;
        let b = data[1] as int;
        let c = data[2] as int;
        seq![
            b64_digit(a / 4),
            b64_digit((a % 4) * 16 + b / 16),
            b64_digit((b % 16) * 4 + c / 64),
            b64_digit(c % 64),
        ] + base64_url_of(data.skip(3))
    }
}

/// A character RFC 7636 allows in a verifier: ASCII letters and digits,
/// `-`, `.`, `_` and `~`.
pub open spec fn is_unreserved(c: char) -> bool {
    is_ascii_alnum(c) || c == '-' || c == '.' || c == '_' || c == '~'
}

/// The code challenge for a verifier: the Base64url of the SHA-256 of its
/// UTF-8 bytes.
pub open spec fn challenge_of(verifier: Seq<char>) -> Seq<char> {
    base64_url_of(sha256_of(vstd::utf8::encode_utf8(verifier)))
}

/// Calls `sha2::Sha256::digest`. The contract claims that the digest is a
/// function of the bytes, named [`sha256_of`], and that it is 32 bytes long.
#[verifier::external_body]
fn sha256(data: &[u8]) -> (r: Vec<u8>)
    ensures
        r@ == sha256_of(data@),
        r@.len() == 32,
{
    Sha256::digest(data).to_vec()
}

/// Calls `base64`'s `URL_SAFE_NO_PAD.encode`. The contract states the
/// encoding the crate documents: URL-safe alphabet, no padding
/// ([`base64_url_of`]).
#[verifier::external_body]
fn base64_url(data: &[u8]) -> (r: String)
    ensures
        r@ == base64_url_of(data@),
{
    URL_SAFE_NO_PAD.encode(data)
}

/// Calls `rand`'s thread-local generator for a uniformly drawn index below
/// `n` (`random_range(0..n)`, which panics on an empty range, hence the
/// requirement). Only the bound is claimed: the draw is random.
#[verifier::external_body]
pub(crate) fn random_below(n: usize) -> (r: usize)
    requires
        n > 0,
    ensures
        r < n,
{
    rand::rng().random_range(0..n)
}

/// The character at position `i` of the unreserved alphabet
/// `A–Z a–z 0–9 - . _ ~` (66 characters).
pub open spec fn unreserved_at(i: int) -> char {
    if i < 26 {
        (65 + i) as char
    } else if i < 52 {
        (97 + i - 26) as char
    } else if i < 62 {
        (48 + i - 52) as char
    } else if i == 62 {
        '-'
    } else if i == 63 {
        '.'
    } else if i == 64 {
        '_'
    } else {
        '~'
    }
}

/// The verifier that a sequence of draws below 66 spells: each draw picks a
/// character of the unreserved alphabet.
pub open spec fn verifier_of_draws(draws: Seq<usize>) -> Seq<char> {
    draws.map_values(|d: usize| unreserved_at(d as int))
}

/// The verifier spelled by `draws`, each below 66.
pub fn verifier_from_draws(draws: &Vec<usize>) -> (r: String)
    requires
        forall|k: int| 0 <= k < draws@.len() ==> #[trigger] draws@[k] < 66,
    ensures
        r@ == verifier_of_draws(draws@),
{
    let mut v: Vec<char> = Vec::new();
    let n = draws.len();
    let mut k: usize = 0;
    while k < n
        invariant
            n == draws@.len(),
            k <= n,
            forall|j: int| 0 <= j < draws@.len() ==> #[trigger] draws@[j] < 66,
            v@ == verifier_of_draws(draws@.take(k as int)),
        decreases n - k,
    {
        let i = draws[k];
        let b: u8 = if i < 26 {
            65 + i as u8
        } else if i < 52 {
            97 + (i - 26) as u8
        } else if i < 62 {
            48 + (i - 52) as u8
        } else if i == 62 {
            45
        } else if i == 63 {
            46
        } else if i == 64 {
            95
        } else {
            126
        };
        let c = b as char;
        assert(c == unreserved_at(i as int));
        v.push(c);
        assert(verifier_of_draws(draws@.take(k + 1)) =~= verifier_of_draws(draws@.take(k as int)).push(
            unreserved_at(draws@[k as int] as int),
        ));
        k = k + 1;
    }
    assert(draws@.take(n as int) =~= draws@);
    string_of(&v)
}

/// The S256 code challenge for `verifier`.
pub fn challenge_for(verifier: &str) -> (r: String)
    ensures
        r@ == challenge_of(verifier@),
{
    let digest = sha256(verifier.as_bytes());
    base64_url(digest.as_slice())
}

impl Pkce {
    /// A fresh random verifier of 64 unreserved characters, and its
    /// challenge.
    pub fn new() -> (r: Pkce)
        ensures
            r.verifier@.len() == 64,
            forall|i: int| 0 <= i < 64 ==> is_unreserved(#[trigger] r.verifier@[i]),
            r.challenge@ == challenge_of(r.verifier@),
    {
        let mut draws: Vec<usize> = Vec::new();
        let mut k: usize = 0;
        while k < 64
            invariant
                k <= 64,
                draws@.len() == k,
                forall|j: int| 0 <= j < k ==> #[trigger] draws@[j] < 66,
            decreases 64 - k,
        {
            draws.push(random_below(66));
            k = k + 1;
        }
        let verifier = verifier_from_draws(&draws);
        assert forall|i: int| 0 <= i < 64 implies is_unreserved(#[trigger] verifier@[i]) by {
            assert(verifier@[i] == unreserved_at(draws@[i] as int));
        }
        let challenge = challenge_for(verifier.as_str());
        Pkce { verifier, challenge }
    }
}

impl Default for Pkce {
    fn default() -> (r: Self)
        ensures
            r.verifier@.len() == 64,
            forall|i: int| 0 <= i < 64 ==> is_unreserved(#[trigger] r.verifier@[i]),
            r.challenge@ == challenge_of(r.verifier@),
    {
        Self::new()
    }
}

/// The redirect URI with `:` and `/` percent-encoded.
pub open spec fn encoded_redirect() -> Seq<char> {
    replace_all(replace_all(REDIRECT_URI@, ":"@, "%3A"@), "/"@, "%2F"@)
}

/// The Spotify authorisation link for this client, challenge and state.
pub open spec fn authorize_url_of(client_id: Seq<char>, challenge: Seq<char>, state: Seq<char>) -> Seq<char> {
    "https://accounts.spotify.com/authorize?client_id="@ + client_id
        + "&response_type=code&redirect_uri="@ + encoded_redirect()
        + "&code_challenge_method=S256&code_challenge="@ + challenge + "&state="@ + state
        + "&scope=playlist-read-private%20playlist-read-collaborative"@
}

/// The link that starts the sign-in in the browser.
pub fn authorize_url(client_id: &str, pkce: &Pkce, state: &str) -> (r: String)
    ensures
        r@ == authorize_url_of(client_id@, pkce.challenge@, state@),
{
    let uri = chars_of(REDIRECT_URI);
    let colon = chars_of(":");
    let pct_colon = chars_of("%3A");
    let slash = chars_of("/");
    let pct_slash = chars_of("%2F");
    proof {
        reveal_strlit(":");
        reveal_strlit("/");
    }
    let once = replace_chars(&uri, &colon, &pct_colon);
    let redirect = replace_chars(&once, &slash, &pct_slash);
    let mut out: Vec<char> = Vec::new();
    push_str(&mut out, "https://accounts.spotify.com/authorize?client_id=");
    push_str(&mut out, client_id);
    push_str(&mut out, "&response_type=code&redirect_uri=");
    push_all(&mut out, &redirect);
    push_str(&mut out, "&code_challenge_method=S256&code_challenge=");
    push_str(&mut out, pkce.challenge.as_str());
    push_str(&mut out, "&state=");
    push_str(&mut out, state);
    push_str(&mut out, "&scope=playlist-read-private%20playlist-read-collaborative");
    string_of(&out)
}

} // verus!
