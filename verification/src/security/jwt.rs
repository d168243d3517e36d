//! HS256 JSON Web Tokens carrying capability claims: the signature and the
//! token's structure are checked by `jsonwebtoken`; reading the claims out
//! of the verified payload and checking their expiry is done here. Times
//! are seconds since the Unix epoch.

use vstd::prelude::*;
use crate::security::capability::{Claims, Error, TokenValidator, texts};
use crate::security::tokens::{json_text_at, json_text_field, json_u64_at, json_u64_field};
use crate::support::join_text;

verus! {

/// What `jsonwebtoken::decode` makes of the token `raw` with the HS256
/// secret `secret`, expiry left unchecked: the JSON text of its claims when
/// the token is well formed, signed with `secret` and carries an `exp`
/// claim, or the text of the error.
pub uninterp spec fn hs256_payload(raw: Seq<char>, secret: Seq<u8>) -> Result<Seq<u8>, Seq<char>>;

/// Checks `raw` through `jsonwebtoken::decode` with HS256 and `secret`,
/// the expiry check switched off (the clock is read elsewhere), and gives
/// the claims as JSON text (`serde_json::to_vec`) or the error's text.
/// The result depends on `raw` and `secret` alone.
#[verifier::external_body]
fn decode_hs256(raw: &str, secret: &[u8]) -> (r: Result<Vec<u8>, String>)
    ensures
        match r {
            Ok(b) => hs256_payload(raw@, secret@) == Ok::<Seq<u8>, Seq<char>>(b@),
            Err(e) => hs256_payload(raw@, secret@) == Err::<Seq<u8>, Seq<char>>(e@),
        },
{
    let mut validation = jsonwebtoken::Validation::new(jsonwebtoken::Algorithm::HS256);
    validation.validate_exp = false;
    let key = jsonwebtoken::DecodingKey::from_secret(secret);
    match jsonwebtoken::decode::<serde_json::Value>(raw, &key, &validation) {
        Ok(data) => serde_json::to_vec(&data.claims).map_err(|e| e.to_string()),
        Err(e) => Err(e.to_string()),
    }
}

/// What `serde_json` reads from bytes as a JSON value, then under `key`:
/// the length of the array there, none when it is missing or no array; or
/// the text of the parse error.
pub uninterp spec fn json_array_len_at(bytes: Seq<u8>, key: Seq<char>) -> Result<Option<nat>, Seq<char>>;

/// What `serde_json` reads from bytes as a JSON value, then under `key`
/// at position `i`: the text there, none when it is missing or no text; or
/// the text of the parse error.
pub uninterp spec fn json_array_text_at(bytes: Seq<u8>, key: Seq<char>, i: nat) -> Result<
    Option<Seq<char>>,
    Seq<char>,
>;

/// Parses `bytes` through `serde_json::from_slice` and gives the length of
/// the array under `key` (`Value::as_array`).
#[verifier::external_body]
fn json_array_len_field(bytes: &[u8], key: &str) -> (r: Result<Option<usize>, String>)
    ensures
        match r {
            Ok(Some(n)) => json_array_len_at(bytes@, key@) == Ok::<Option<nat>, Seq<char>>(Some(n as nat)),
            Ok(None) => json_array_len_at(bytes@, key@) == Ok::<Option<nat>, Seq<char>>(None),
            Err(e) => json_array_len_at(bytes@, key@) == Err::<Option<nat>, Seq<char>>(e@),
        },
{
    match serde_json::from_slice::<serde_json::Value>(bytes) {
        Ok(v) => Ok(v[key].as_array().map(|a| a.len())),
        Err(e) => Err(e.to_string()),
    }
}

/// Parses `bytes` through `serde_json::from_slice` and gives the text at
/// position `i` of the array under `key` (`Value::as_str`).
#[verifier::external_body]
fn json_array_text_field(bytes: &[u8], key: &str, i: usize) -> (r: Result<Option<String>, String>)
    ensures
        match r {
            Ok(Some(t)) => json_array_text_at(bytes@, key@, i as nat) == Ok::<Option<Seq<char>>, Seq<char>>(
                Some(t@),
            ),
            Ok(None) => json_array_text_at(bytes@, key@, i as nat) == Ok::<Option<Seq<char>>, Seq<char>>(
                None,
            ),
            Err(e) => json_array_text_at(bytes@, key@, i as nat) == Err::<Option<Seq<char>>, Seq<char>>(e@),
        },
{
    match serde_json::from_slice::<serde_json::Value>(bytes) {
        Ok(v) => Ok(v[key][i].as_str().map(|t| t.to_string())),
        Err(e) => Err(e.to_string()),
    }
}

/// The plain values of a claim set: subject, vault, permissions, issue
/// time, expiry and token identifier.
pub type ClaimsView = (Seq<char>, Seq<char>, Seq<Seq<char>>, u64, u64, Seq<char>);

/// The plain values of `c`.
pub open spec fn claims_view(c: Claims) -> ClaimsView {
    (c.sub@, c.vault@, texts(c.permissions@), c.iat, c.exp, c.jti@)
}

/// The message for a claim that is missing or of the wrong type.
pub open spec fn bad_claim(name: Seq<char>) -> Seq<char> {
    "Missing or invalid claim: "@ + name
}

/// The texts of the array under `key`, `n` long.
pub open spec fn array_texts(b: Seq<u8>, key: Seq<char>, n: nat) -> Seq<Seq<char>> {
    Seq::new(n, |i: int| json_array_text_at(b, key, i as nat)->Ok_0->0)
}

/// Whether the array under `key`, `n` long, holds texts only; the first
/// problem met otherwise.
pub open spec fn array_problem(b: Seq<u8>, key: Seq<char>, n: nat) -> Option<Seq<char>>
    decreases n,
{
    if n == 0 {
        None
    } else {
        match array_problem(b, key, (n - 1) as nat) {
            Some(m) => Some(m),
            None => match json_array_text_at(b, key, (n - 1) as nat) {
                Err(m) => Some(m),
                Ok(None) => Some(bad_claim(key)),
                Ok(Some(_)) => None,
            },
        }
    }
}

/// A text claim of the JSON payload `b`.
pub open spec fn text_claim(b: Seq<u8>, key: Seq<char>) -> Result<Seq<char>, Seq<char>> {
    match json_text_at(b, key) {
        Err(m) => Err(m),
        Ok(None) => Err(bad_claim(key)),
        Ok(Some(t)) => Ok(t),
    }
}

/// A number claim of the JSON payload `b`.
pub open spec fn number_claim(b: Seq<u8>, key: Seq<char>) -> Result<u64, Seq<char>> {
    match json_u64_at(b, key) {
        Err(m) => Err(m),
        Ok(None) => Err(bad_claim(key)),
        Ok(Some(n)) => Ok(n),
    }
}

/// The text-list claim of the JSON payload `b`.
pub open spec fn texts_claim(b: Seq<u8>, key: Seq<char>) -> Result<Seq<Seq<char>>, Seq<char>> {
    match json_array_len_at(b, key) {
        Err(m) => Err(m),
        Ok(None) => Err(bad_claim(key)),
        Ok(Some(n)) => match array_problem(b, key, n) {
            Some(m) => Err(m),
            None => Ok(array_texts(b, key, n)),
        },
    }
}

/// The claim set read from the JSON payload `b`, field by field in the
/// order subject, vault, permissions, issue time, expiry, identifier; the
/// first problem met otherwise.
pub open spec fn claims_in(b: Seq<u8>) -> Result<ClaimsView, Seq<char>> {
    match text_claim(b, "sub"@) {
        Err(m) => Err(m),
        Ok(sub) => match text_claim(b, "vault"@) {
            Err(m) => Err(m),
            Ok(vault) => match texts_claim(b, "permissions"@) {
                Err(m) => Err(m),
                Ok(perms) => match number_claim(b, "iat"@) {
                    Err(m) => Err(m),
                    Ok(iat) => match number_claim(b, "exp"@) {
                        Err(m) => Err(m),
                        Ok(exp) => match text_claim(b, "jti"@) {
                            Err(m) => Err(m),
                            Ok(jti) => Ok((sub, vault, perms, iat, exp, jti)),
                        },
                    },
                },
            },
        },
    }
}

/// What validating `raw` with `secret` at `now` gives: the claims of a
/// token that verifies and has not expired, allowing `leeway` seconds of
/// clock skew; the decoding error, the claim problem, or `ExpiredSignature`
/// otherwise.
pub open spec fn hs256_validation(raw: Seq<char>, secret: Seq<u8>, leeway: u64, now: u64) -> Result<
    ClaimsView,
    Seq<char>,
> {
    match hs256_payload(raw, secret) {
        Err(m) => Err(m),
        Ok(b) => match claims_in(b) {
            Err(m) => Err(m),
            Ok(c) => if c.4 < now - leeway {
                Err("ExpiredSignature"@)
            } else {
                Ok(c)
            },
        },
    }
}

/// A text claim of `b`, or the error for it.
fn read_text_claim(b: &Vec<u8>, key: &str) -> (r: Result<String, Error>)
    ensures
        match text_claim(b@, key@) {
            Ok(t) => r matches Ok(s) && s@ == t,
            Err(m) => r matches Err(e) && e.message() == m,
        },
{
    match json_text_field(b.as_slice(), key) {
        Err(m) => Err(Error::new(m.as_str())),
        Ok(None) => {
            let m = join_text("Missing or invalid claim: ", key);
            Err(Error::new(m.as_str()))
        },
        Ok(Some(t)) => Ok(t),
    }
}

/// A number claim of `b`, or the error for it.
fn read_number_claim(b: &Vec<u8>, key: &str) -> (r: Result<u64, Error>)
    ensures
        match number_claim(b@, key@) {
            Ok(n) => r == Ok::<u64, Error>(n),
            Err(m) => r matches Err(e) && e.message() == m,
        },
{
    match json_u64_field(b.as_slice(), key) {
        Err(m) => Err(Error::new(m.as_str())),
        Ok(None) => {
            let m = join_text("Missing or invalid claim: ", key);
            Err(Error::new(m.as_str()))
        },
        Ok(Some(n)) => Ok(n),
    }
}

/// The text-list claim of `b`, or the error for it.
fn read_texts_claim(b: &Vec<u8>, key: &str) -> (r: Result<Vec<String>, Error>)
    ensures
        match texts_claim(b@, key@) {
            Ok(t) => r matches Ok(v) && texts(v@) == t,
            Err(m) => r matches Err(e) && e.message() == m,
        },
{
    let n = match json_array_len_field(b.as_slice(), key) {
        Err(m) => {
            return Err(Error::new(m.as_str()));
        },
        Ok(None) => {
            let m = join_text("Missing or invalid claim: ", key);
            return Err(Error::new(m.as_str()));
        },
        Ok(Some(n)) => n,
    };
    let mut out: Vec<String> = Vec::new();
    let mut i: usize = 0;
    while i < n
        invariant
            i <= n,
            json_array_len_at(b@, key@) == Ok::<Option<nat>, Seq<char>>(Some(n as nat)),
            array_problem(b@, key@, i as nat) is None,
            out@.len() == i,
            texts(out@) == array_texts(b@, key@, i as nat),
        decreases n - i,
    {
        let t = match json_array_text_field(b.as_slice(), key, i) {
            Err(m) => {
                proof {
                    lemma_problem_persists(b@, key@, (i + 1) as nat, n as nat);
                }
                return Err(Error::new(m.as_str()));
            },
            Ok(None) => {
                proof {
                    lemma_problem_persists(b@, key@, (i + 1) as nat, n as nat);
                }
                let m = join_text("Missing or invalid claim: ", key);
                return Err(Error::new(m.as_str()));
            },
            Ok(Some(t)) => t,
        };
        let ghost before = out@;
        out.push(t);
        proof {
            let now = texts(out@);
            let want = array_texts(b@, key@, (i + 1) as nat);
            let prev = array_texts(b@, key@, i as nat);
            assert(texts(before) == prev);
            assert forall|j: int| 0 <= j < now.len() implies now[j] == want[j] by {
                if j < i {
                    assert(out@[j] == before[j]);
                    assert(prev[j] == want[j]);
                }
            }
            assert(now =~= want);
        }
        i = i + 1;
    }
    Ok(out)
}

/// Once the first `i` positions of an array show a problem, so do the
/// first `n`, with the same message.
proof fn lemma_problem_persists(b: Seq<u8>, key: Seq<char>, i: nat, n: nat)
    requires
        i <= n,
        array_problem(b, key, i) is Some,
    ensures
        array_problem(b, key, n) == array_problem(b, key, i),
    decreases n - i,
{
    if i < n {
        lemma_problem_persists(b, key, i, (n - 1) as nat);
    }
}

/// The claim set in the JSON payload `b`, read field by field.
fn read_claims(b: &Vec<u8>) -> (r: Result<Claims, Error>)
    ensures
        match claims_in(b@) {
            Ok(c) => r matches Ok(k) && claims_view(k) == c,
            Err(m) => r matches Err(e) && e.message() == m,
        },
{
    let sub = match read_text_claim(b, "sub") {
        Ok(t) => t,
        Err(e) => {
            proof {
                reveal_strlit("sub");
            }
            return Err(e);
        },
    };
    let vault = match read_text_claim(b, "vault") {
        Ok(t) => t,
        Err(e) => {
            return Err(e);
        },
    };
    let permissions = match read_texts_claim(b, "permissions") {
        Ok(t) => t,
        Err(e) => {
            return Err(e);
        },
    };
    let iat = match read_number_claim(b, "iat") {
        Ok(n) => n,
        Err(e) => {
            return Err(e);
        },
    };
    let exp = match read_number_claim(b, "exp") {
        Ok(n) => n,
        Err(e) => {
            return Err(e);
        },
    };
    let jti = match read_text_claim(b, "jti") {
        Ok(t) => t,
        Err(e) => {
            return Err(e);
        },
    };
    Ok(Claims { sub, vault, permissions, iat, exp, jti })
}

/// Validates the HS256 token `raw` with `secret` at `now_secs`, allowing
/// `leeway` seconds of clock skew: refused when the token does not decode
/// or verify, when a claim is missing, or when it expired before
/// `now_secs - leeway`.
pub fn validate_hs256(raw: &str, secret: &[u8], leeway: u64, now_secs: u64) -> (r: Result<Claims, Error>)
    ensures
        match hs256_validation(raw@, secret@, leeway, now_secs) {
            Ok(c) => r matches Ok(k) && claims_view(k) == c,
            Err(m) => r matches Err(e) && e.message() == m,
        },
{
    let payload = match decode_hs256(raw, secret) {
        Ok(b) => b,
        Err(m) => {
            return Err(Error::new(m.as_str()));
        },
    };
    let claims = match read_claims(&payload) {
        Ok(c) => c,
        Err(e) => {
            return Err(e);
        },
    };
    if now_secs >= leeway && claims.exp < now_secs - leeway {
        proof {
            reveal_strlit("ExpiredSignature");
        }
        return Err(Error::new("ExpiredSignature"));
    }
    Ok(claims)
}

/// The clock leeway of `jsonwebtoken`'s default validation, in seconds.
pub const DEFAULT_LEEWAY: u64 = 60;

/// Validates HS256 tokens signed with one shared secret.
pub struct JwtValidator {
    secret: Vec<u8>,
}

impl JwtValidator {
    /// The secret's bytes.
    pub closed spec fn secret_bytes(&self) -> Seq<u8> {
        self.secret@
    }

    /// A validator for tokens signed with `secret` (its UTF-8 bytes).
    pub fn new(secret: &str) -> (v: Self)
        ensures
            v.secret_bytes() == vstd::utf8::encode_utf8(secret@),
    {
        JwtValidator { secret: vstd::slice::slice_to_vec(secret.as_bytes()) }
    }

    /// The claims of `raw` at `now_secs`: it must decode, verify with the
    /// secret and not have expired more than a minute before `now_secs`.
    pub fn validate_at(&self, raw: &str, now_secs: u64) -> (r: Result<Claims, Error>)
        ensures
            match hs256_validation(raw@, self.secret_bytes(), DEFAULT_LEEWAY, now_secs) {
                Ok(c) => r matches Ok(k) && claims_view(k) == c,
                Err(m) => r matches Err(e) && e.message() == m,
            },
    {
        validate_hs256(raw, self.secret.as_slice(), DEFAULT_LEEWAY, now_secs)
    }
}

/// Whole seconds since the epoch now, 0 before it.
fn now_secs() -> (s: u64) {
    let now = crate::support::now_millis();
    if now < 0 {
        0
    } else {
        (now / 1000) as u64
    }
}

impl TokenValidator for JwtValidator {
    /// The claims of `raw` now.
    fn validate(&self, raw: &str) -> (r: Result<Claims, Error>) {
        self.validate_at(raw, now_secs())
    }
}

} // verus!
