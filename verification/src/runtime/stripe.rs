//! The payment provider's logic: checking and building payment and payout
//! requests, verifying the signature of webhooks (HMAC-SHA256 through the
//! `hmac` and `sha2` crates, hex through `hex`), and reading webhook events.
//! Sending requests over the network is left to the caller.

use vstd::prelude::*;
use hmac::Mac;
use crate::runtime::config::{ConfigError, StripeConfig, config_error_text, stripe_problem};
use crate::runtime::text::{byte_len, lowercase, lowercase_text, same_text};
use crate::support::{decimal, decimal_text, join_text, hex_text, hex_encode};

verus! {

/// The HMAC-SHA256 of `msg` under `key`.
pub uninterp spec fn hmac_sha256(key: Seq<u8>, msg: Seq<u8>) -> Seq<u8>;

/// Computes the HMAC-SHA256 of `msg` under `key` through
/// `Hmac::<Sha256>::new_from_slice`, `Mac::update` and `Mac::finalize`.
/// HMAC accepts keys of any length (`new_from_slice` of hmac 0.12 always
/// returns `Ok`), and the tag is a function of the key and message alone.
#[verifier::external_body]
fn compute_hmac_sha256(key: &[u8], msg: &[u8]) -> (r: Option<Vec<u8>>)
    ensures
        r is Some,
        r->0@ == hmac_sha256(key@, msg@),
{
    match hmac::Hmac::<sha2::Sha256>::new_from_slice(key) {
        Ok(mut mac) => {
            mac.update(msg);
            Some(mac.finalize().into_bytes().to_vec())
        },
        Err(_) => None,
    }
}

/// The text `String::from_utf8_lossy` reads from bytes.
pub uninterp spec fn lossy_text(bytes: Seq<u8>) -> Seq<char>;

/// Reads bytes as text through `String::from_utf8_lossy`, which replaces
/// invalid sequences; valid UTF-8 is read unchanged.
#[verifier::external_body]
fn lossy(bytes: &[u8]) -> (r: String)
    ensures
        r@ == lossy_text(bytes@),
        vstd::utf8::valid_utf8(bytes@) ==> r@ == vstd::utf8::decode_utf8(bytes@),
{
    String::from_utf8_lossy(bytes).into_owned()
}

/// Whether a byte is left as it is by URL encoding: an ASCII letter or
/// digit, or one of `-`, `.`, `_`, `~`.
pub open spec fn url_safe(b: u8) -> bool {
    (48 <= b <= 57) || (65 <= b <= 90) || (97 <= b <= 122) || b == 45 || b == 46 || b == 95 || b == 126
}

/// The uppercase hex digit of a nibble.
pub open spec fn upper_hex_digit(n: int) -> char {
    if n < 10 {
        ('0' as int + n) as char
    } else {
        ('A' as int + n - 10) as char
    }
}

/// URL encoding of bytes: safe bytes as their character, others as `%`
/// and two uppercase hex digits.
pub open spec fn url_encoded_bytes(b: Seq<u8>) -> Seq<char>
    decreases b.len(),
{
    if b.len() == 0 {
        Seq::empty()
    } else {
        let last = b.last();
        url_encoded_bytes(b.drop_last()) + if url_safe(last) {
            seq![last as char]
        } else {
            seq!['%', upper_hex_digit(last as int / 16), upper_hex_digit(last as int % 16)]
        }
    }
}

/// URL-encodes `s` through `urlencoding::encode`, which keeps ASCII letters,
/// digits and `-._~` and writes every other byte of the UTF-8 encoding as
/// `%` followed by two uppercase hex digits.
#[verifier::external_body]
fn url_encode(s: &str) -> (r: String)
    ensures
        r@ == url_encoded_bytes(vstd::utf8::encode_utf8(s@)),
{
    urlencoding::encode(s).into_owned()
}

/// Errors of the payment provider.
#[derive(Debug, Clone, PartialEq)]
pub enum PaymentError {
    /// The feature is not implemented.
    Unimplemented,
    /// The configuration is invalid.
    Configuration(ConfigError),
    /// The request's parameters are invalid.
    InvalidRequest(String),
    /// The API key was refused.
    AuthenticationFailed,
    /// A webhook's signature does not verify.
    WebhookVerificationFailed,
    /// The provider's API reported an error.
    ApiError(String),
    /// The network failed.
    NetworkError(String),
}

/// The message of a payment error.
pub open spec fn payment_error_text(e: PaymentError) -> Seq<char> {
    match e {
        PaymentError::Unimplemented => "Feature not yet implemented"@,
        PaymentError::Configuration(c) => "Configuration error: "@ + config_error_text(c),
        PaymentError::InvalidRequest(m) => "Invalid request: "@ + m@,
        PaymentError::AuthenticationFailed => "Authentication failed"@,
        PaymentError::WebhookVerificationFailed => "Webhook verification failed"@,
        PaymentError::ApiError(m) => "API error: "@ + m@,
        PaymentError::NetworkError(m) => "Network error: "@ + m@,
    }
}

impl PaymentError {
    /// The message of the error.
    pub fn to_text(&self) -> (r: String)
        ensures
            r@ == payment_error_text(*self),
    {
        match self {
            PaymentError::Unimplemented => "Feature not yet implemented".to_owned(),
            PaymentError::Configuration(c) => {
                let t = c.to_text();
                join_text("Configuration error: ", t.as_str())
            },
            PaymentError::InvalidRequest(m) => join_text("Invalid request: ", m.as_str()),
            PaymentError::AuthenticationFailed => "Authentication failed".to_owned(),
            PaymentError::WebhookVerificationFailed => "Webhook verification failed".to_owned(),
            PaymentError::ApiError(m) => join_text("API error: ", m.as_str()),
            PaymentError::NetworkError(m) => join_text("Network error: ", m.as_str()),
        }
    }
}

/// A webhook event, as the platform reads it.
#[derive(Debug, Clone, PartialEq)]
pub enum WebhookEvent {
    PaymentIntentSucceeded { payment_intent_id: String, user_id: String, amount_cents: u64 },
    PaymentIntentFailed { payment_intent_id: String, user_id: String },
    PayoutSucceeded { payout_id: String, creator_id: String, amount_cents: u64 },
    PayoutFailed { payout_id: String, creator_id: String },
}

/// A payment intent as the provider returns it.
#[derive(Debug, Clone, PartialEq)]
pub struct PaymentIntentResponse {
    pub id: String,
    pub amount: u64,
    pub currency: String,
    pub status: String,
    pub client_secret: String,
    pub metadata: Vec<(String, String)>,
}

/// A payout as the provider returns it.
#[derive(Debug, Clone, PartialEq)]
pub struct PayoutResponse {
    pub id: String,
    pub amount: u64,
    pub currency: String,
    pub status: String,
    pub metadata: Vec<(String, String)>,
}

/// A webhook event as the provider sends it.
#[derive(Debug, Clone, PartialEq)]
pub struct StripeEvent {
    pub event_type: String,
    pub data: StripeEventData,
}

/// The object a webhook event is about.
#[derive(Debug, Clone, PartialEq)]
pub struct StripeEventData {
    pub object: StripePaymentIntent,
}

/// A payment intent inside a webhook event.
#[derive(Debug, Clone, PartialEq)]
pub struct StripePaymentIntent {
    pub id: String,
    pub amount: u64,
    pub currency: String,
    pub status: String,
    pub metadata: Vec<(String, String)>,
}

/// What a payment provider offers; implemented by the providers of applications.
pub trait PaymentProvider {
    /// Starts a payment and returns its identifier.
    fn create_payment_intent(&self, user_id: &str, amount_cents: u64, currency: &str) -> Result<String, PaymentError>;

    /// Verifies and reads a webhook.
    fn handle_webhook(&self, payload: &[u8], signature: &str) -> Result<WebhookEvent, PaymentError>;

    /// Starts a payout and returns its identifier.
    fn create_payout(&self, creator_id: &str, amount_cents: u64, currency: &str) -> Result<String, PaymentError>;
}

/// The value of the last metadata entry under `key`, if any.
pub open spec fn metadata_value(m: Seq<(String, String)>, key: Seq<char>) -> Option<Seq<char>>
    decreases m.len(),
{
    if m.len() == 0 {
        None
    } else if m.last().0@ == key {
        Some(m.last().1@)
    } else {
        metadata_value(m.drop_last(), key)
    }
}

/// The value stored under `key` in metadata.
fn metadata_get(m: &Vec<(String, String)>, key: &str) -> (r: Option<String>)
    ensures
        match metadata_value(m@, key@) {
            Some(v) => r is Some && r->0@ == v,
            None => r is None,
        },
{
    let mut found: Option<String> = None;
    let mut i: usize = 0;
    while i < m.len()
        invariant
            i <= m@.len(),
            match metadata_value(m@.take(i as int), key@) {
                Some(v) => found is Some && found->0@ == v,
                None => found is None,
            },
        decreases m.len() - i,
    {
        proof {
            assert(m@.take(i + 1).drop_last() =~= m@.take(i as int));
        }
        if same_text(m[i].0.as_str(), key) {
            found = Some(m[i].1.clone());
        }
        i = i + 1;
    }
    proof {
        assert(m@.take(m.len() as int) =~= m@);
    }
    found
}

/// The byte of `,`.
pub open spec fn comma() -> u8 {
    44
}

/// The parts of `b` between commas.
pub open spec fn comma_parts(b: Seq<u8>) -> Seq<Seq<u8>>
    decreases b.len(),
{
    if b.len() == 0 {
        seq![Seq::empty()]
    } else {
        let init = comma_parts(b.drop_last());
        if b.last() == comma() {
            init.push(Seq::empty())
        } else {
            init.update(init.len() - 1, init.last().push(b.last()))
        }
    }
}

/// The rest of the last part that begins with `prefix`.
pub open spec fn last_with_prefix(parts: Seq<Seq<u8>>, prefix: Seq<u8>) -> Option<Seq<u8>>
    decreases parts.len(),
{
    if parts.len() == 0 {
        None
    } else {
        let p = parts.last();
        if p.len() >= prefix.len() && p.take(prefix.len() as int) == prefix {
            Some(p.skip(prefix.len() as int))
        } else {
            last_with_prefix(parts.drop_last(), prefix)
        }
    }
}

/// The bytes of `t=`.
pub open spec fn t_prefix() -> Seq<u8> {
    seq![116u8, 61]
}

/// The bytes of `v1=`.
pub open spec fn v1_prefix() -> Seq<u8> {
    seq![118u8, 49, 61]
}

/// Whether a webhook signature header verifies for `payload` under
/// `secret`: it has a `t=` part (timestamp) and a `v1=` part (signature),
/// and the signature is the hex HMAC-SHA256, under the secret, of the
/// timestamp, a dot and the payload read as text.
pub open spec fn signature_verifies(secret: Seq<char>, payload: Seq<u8>, header: Seq<char>) -> bool {
    let parts = comma_parts(vstd::utf8::encode_utf8(header));
    match (last_with_prefix(parts, t_prefix()), last_with_prefix(parts, v1_prefix())) {
        (Some(ts), Some(sig)) => {
            let signed = ts + seq![46u8] + vstd::utf8::encode_utf8(lossy_text(payload));
            let mac = hmac_sha256(vstd::utf8::encode_utf8(secret), signed);
            vstd::utf8::encode_utf8(hex_text(mac)) == sig
        },
        _ => false,
    }
}

/// The `(key, value)` parameters of a request.
pub open spec fn params_view(p: Seq<(String, String)>) -> Seq<(Seq<char>, Seq<char>)> {
    p.map_values(|kv: (String, String)| (kv.0@, kv.1@))
}

/// The form encoding of parameters: `key=value` pairs, each side URL
/// encoded, joined by `&`.
pub open spec fn form_text(p: Seq<(Seq<char>, Seq<char>)>) -> Seq<char>
    decreases p.len(),
{
    if p.len() == 0 {
        Seq::empty()
    } else {
        let pair = url_encoded_bytes(vstd::utf8::encode_utf8(p.last().0)) + "="@ + url_encoded_bytes(
            vstd::utf8::encode_utf8(p.last().1),
        );
        if p.len() == 1 {
            pair
        } else {
            form_text(p.drop_last()) + "&"@ + pair
        }
    }
}

/// Form-encodes request parameters.
pub fn form_encode(params: &Vec<(String, String)>) -> (r: String)
    ensures
        r@ == form_text(params_view(params@)),
{
    let mut out = "".to_owned();
    proof {
        reveal_strlit("");
        assert(params_view(params@.take(0)) =~= Seq::<(Seq<char>, Seq<char>)>::empty());
    }
    let mut i: usize = 0;
    while i < params.len()
        invariant
            i <= params@.len(),
            out@ == form_text(params_view(params@.take(i as int))),
        decreases params.len() - i,
    {
        let k = url_encode(params[i].0.as_str());
        let v = url_encode(params[i].1.as_str());
        let a = join_text(k.as_str(), "=");
        let pair = join_text(a.as_str(), v.as_str());
        proof {
            assert(params_view(params@.take(i + 1)).drop_last() =~= params_view(params@.take(i as int)));
        }
        if i == 0 {
            out = pair;
        } else {
            let b = join_text(out.as_str(), "&");
            out = join_text(b.as_str(), pair.as_str());
        }
        proof {
            reveal_strlit("");
        }
        i = i + 1;
    }
    proof {
        assert(params@.take(params.len() as int) =~= params@);
    }
    out
}

/// A client of the payment provider: its credentials and API address.
#[derive(Debug, Clone)]
pub struct StripeClient {
    config: StripeConfig,
    base_url: String,
}

impl StripeClient {
    /// The credentials of the client.
    pub closed spec fn config_spec(&self) -> StripeConfig {
        self.config
    }

    /// The address of the provider's API.
    pub closed spec fn base_url_spec(&self) -> Seq<char> {
        self.base_url@
    }

    /// A client for `config`, refused when the credentials do not validate.
    pub fn new(config: StripeConfig) -> (r: Result<StripeClient, PaymentError>)
        ensures
            match stripe_problem(config) {
                None => r is Ok && r->Ok_0.config_spec() == config && r->Ok_0.base_url_spec()
                    == "https://api.stripe.com/v1"@,
                Some(m) => r is Err && r->Err_0 is Configuration && r->Err_0->Configuration_0
                    is InvalidCredential && r->Err_0->Configuration_0->InvalidCredential_0@ == m,
            },
    {
        match config.validate() {
            Ok(()) => {},
            Err(e) => {
                return Err(PaymentError::Configuration(e));
            },
        }
        Ok(StripeClient { config, base_url: "https://api.stripe.com/v1".to_owned() })
    }

    /// The address of the provider's API.
    pub fn base_url(&self) -> (r: &str)
        ensures
            r@ == self.base_url_spec(),
    {
        self.base_url.as_str()
    }

    /// The API key of the client.
    pub fn api_key(&self) -> (r: &str)
        ensures
            r@ == self.config_spec().api_key@,
    {
        self.config.api_key.as_str()
    }

    /// Whether the client runs in test mode.
    pub fn is_test_mode(&self) -> (r: bool)
        ensures
            r == self.config_spec().test_mode,
    {
        self.config.test_mode
    }

    /// The parameters of a payment intent for `user_id`: refused below 50
    /// cents, and for a currency that is not three bytes long.
    pub fn payment_intent_params(&self, user_id: &str, amount_cents: u64, currency: &str) -> (r:
        Result<Vec<(String, String)>, PaymentError>)
        ensures
            amount_cents < 50 ==> r is Err && r->Err_0 is InvalidRequest && r->Err_0->InvalidRequest_0@
                == "Amount must be at least 50 cents"@,
            amount_cents >= 50 && byte_len(currency@) != 3 ==> r is Err && r->Err_0 is InvalidRequest
                && r->Err_0->InvalidRequest_0@ == "Currency must be 3-letter ISO code"@,
            amount_cents >= 50 && byte_len(currency@) == 3 ==> r is Ok && params_view(r->Ok_0@) == seq![
                ("amount"@, decimal(amount_cents as nat)),
                ("currency"@, lowercase(currency@)),
                ("automatic_payment_methods[enabled]"@, "true"@),
                ("metadata[user_id]"@, user_id@),
                ("metadata[source]"@, "toka_credit_purchase"@),
            ] + if self.config_spec().test_mode {
                seq![("metadata[test_mode]"@, "true"@)]
            } else {
                Seq::empty()
            },
    {
        if amount_cents < 50 {
            return Err(PaymentError::InvalidRequest("Amount must be at least 50 cents".to_owned()));
        }
        if currency.as_bytes().len() != 3 {
            return Err(PaymentError::InvalidRequest("Currency must be 3-letter ISO code".to_owned()));
        }
        let mut params: Vec<(String, String)> = Vec::new();
        params.push(("amount".to_owned(), decimal_text(amount_cents)));
        params.push(("currency".to_owned(), lowercase_text(currency)));
        params.push(("automatic_payment_methods[enabled]".to_owned(), "true".to_owned()));
        params.push(("metadata[user_id]".to_owned(), user_id.to_owned()));
        params.push(("metadata[source]".to_owned(), "toka_credit_purchase".to_owned()));
        if self.config.test_mode {
            params.push(("metadata[test_mode]".to_owned(), "true".to_owned()));
        }
        proof {
            let expected = seq![
                ("amount"@, decimal(amount_cents as nat)),
                ("currency"@, lowercase(currency@)),
                ("automatic_payment_methods[enabled]"@, "true"@),
                ("metadata[user_id]"@, user_id@),
                ("metadata[source]"@, "toka_credit_purchase"@),
            ] + if self.config.test_mode {
                seq![("metadata[test_mode]"@, "true"@)]
            } else {
                Seq::empty()
            };
            assert(params_view(params@) =~= expected);
        }
        Ok(params)
    }

    /// Verifies the signature header of a webhook: `Ok` exactly when it
    /// has a `t=` and a `v1=` part and the signature matches.
    pub fn verify_webhook_signature(&self, payload: &[u8], signature_header: &str) -> (r: Result<
        (),
        PaymentError,
    >)
        ensures
            r is Ok <==> signature_verifies(self.config_spec().webhook_secret@, payload@, signature_header@),
            r is Err ==> r->Err_0 is WebhookVerificationFailed,
    {
        let hb = signature_header.as_bytes();
        let ghost hbs = hb@;
        let mut timestamp: Option<Vec<u8>> = None;
        let mut signature: Option<Vec<u8>> = None;
        let mut part: Vec<u8> = Vec::new();
        let mut i: usize = 0;
        proof {
            assert(hbs.take(0) =~= Seq::<u8>::empty());
            assert(comma_parts(hbs.take(0)) =~= seq![Seq::<u8>::empty()]);
            assert(parts_before(hbs, 0) =~= Seq::<Seq<u8>>::empty());
            assert(parts_before(hbs, 0).push(part@) =~= comma_parts(hbs.take(0)));
        }
        while i < hb.len()
            invariant
                i <= hb@.len(),
                hbs == hb@,
                comma_parts(hbs.take(i as int)) == parts_before(hbs, i as int).push(part@),
                match last_with_prefix(parts_before(hbs, i as int), t_prefix()) {
                    Some(t) => timestamp is Some && timestamp->0@ == t,
                    None => timestamp is None,
                },
                match last_with_prefix(parts_before(hbs, i as int), v1_prefix()) {
                    Some(s) => signature is Some && signature->0@ == s,
                    None => signature is None,
                },
            decreases hb.len() - i,
        {
            if hb[i] == 44 {
                let ghost before = parts_before(hbs, i as int);
                if starts_with_bytes(&part, 116, 61, 0, 2) {
                    timestamp = Some(bytes_after(&part, 2));
                } else if starts_with_bytes(&part, 118, 49, 61, 3) {
                    signature = Some(bytes_after(&part, 3));
                }
                proof {
                    lemma_last_with_prefix_push(before, part@, t_prefix());
                    lemma_last_with_prefix_push(before, part@, v1_prefix());
                    lemma_parts_comma(hbs, i as int);
                    lemma_parts_nonempty(hbs.take(i + 1));
                    assert(before.push(part@) =~= comma_parts(hbs.take(i as int)));
                    let c = comma_parts(hbs.take(i + 1));
                    assert(c =~= c.drop_last().push(c.last()));
                    assert(seq![t_prefix()[0], t_prefix()[1]] =~= t_prefix());
                    assert(seq![v1_prefix()[0], v1_prefix()[1], v1_prefix()[2]] =~= v1_prefix());
                }
                part = Vec::new();
            } else {
                proof {
                    lemma_parts_byte(hbs, i as int);
                    lemma_parts_nonempty(hbs.take(i + 1));
                    let c = comma_parts(hbs.take(i + 1));
                    assert(c =~= c.drop_last().push(c.last()));
                }
                part.push(hb[i]);
            }
            i = i + 1;
        }
        let ghost before = parts_before(hbs, i as int);
        if starts_with_bytes(&part, 116, 61, 0, 2) {
            timestamp = Some(bytes_after(&part, 2));
        } else if starts_with_bytes(&part, 118, 49, 61, 3) {
            signature = Some(bytes_after(&part, 3));
        }
        proof {
            lemma_last_with_prefix_push(before, part@, t_prefix());
            lemma_last_with_prefix_push(before, part@, v1_prefix());
            assert(hbs.take(i as int) =~= hbs);
            assert(seq![t_prefix()[0], t_prefix()[1]] =~= t_prefix());
            assert(seq![v1_prefix()[0], v1_prefix()[1], v1_prefix()[2]] =~= v1_prefix());
        }
        let ts = match timestamp {
            Some(t) => t,
            None => {
                return Err(PaymentError::WebhookVerificationFailed);
            },
        };
        let expected = match signature {
            Some(s) => s,
            None => {
                return Err(PaymentError::WebhookVerificationFailed);
            },
        };
        let text = lossy(payload);
        let mut signed: Vec<u8> = ts;
        signed.push(46);
        let tb = text.as_str().as_bytes();
        append_bytes(&mut signed, tb);
        let mac = match compute_hmac_sha256(self.config.webhook_secret.as_str().as_bytes(), signed.as_slice()) {
            Some(m) => m,
            None => {
                return Err(PaymentError::WebhookVerificationFailed);
            },
        };
        let computed = hex_encode(mac.as_slice());
        let cb = computed.as_str().as_bytes();
        proof {
            assert(hbs == vstd::utf8::encode_utf8(signature_header@));
            let parts = comma_parts(hbs);
            assert(last_with_prefix(parts, t_prefix()) == Some(ts@));
            assert(last_with_prefix(parts, v1_prefix()) == Some(expected@));
            assert(signed@ == ts@ + seq![46u8] + vstd::utf8::encode_utf8(lossy_text(payload@)));
            assert(mac@ == hmac_sha256(vstd::utf8::encode_utf8(self.config.webhook_secret@), signed@));
            assert(cb@ == vstd::utf8::encode_utf8(hex_text(mac@)));
        }
        if !same_bytes(cb, expected.as_slice()) {
            return Err(PaymentError::WebhookVerificationFailed);
        }
        Ok(())
    }

    /// Reads a provider event: a payment intent that succeeded or failed,
    /// whose metadata must name the user; other event types are refused.
    pub fn convert_stripe_event(&self, event: StripeEvent) -> (r: Result<WebhookEvent, PaymentError>)
        ensures
            ({
                let pi = event.data.object;
                let user = metadata_value(pi.metadata@, "user_id"@);
                let known = event.event_type@ == "payment_intent.succeeded"@ || event.event_type@
                    == "payment_intent.payment_failed"@;
                &&& !known ==> r is Err && r->Err_0 is ApiError && r->Err_0->ApiError_0@
                    == "Unsupported event type: "@ + event.event_type@
                &&& known && user is None ==> r is Err && r->Err_0 is ApiError && r->Err_0->ApiError_0@
                    == "Missing user_id in payment intent metadata"@
                &&& event.event_type@ == "payment_intent.succeeded"@ && user is Some ==> r is Ok
                    && r->Ok_0 is PaymentIntentSucceeded
                    && r->Ok_0->PaymentIntentSucceeded_payment_intent_id == pi.id
                    && r->Ok_0->PaymentIntentSucceeded_user_id@ == user->0
                    && r->Ok_0->PaymentIntentSucceeded_amount_cents == pi.amount
                &&& event.event_type@ == "payment_intent.payment_failed"@ && user is Some ==> r is Ok
                    && r->Ok_0 is PaymentIntentFailed
                    && r->Ok_0->PaymentIntentFailed_payment_intent_id == pi.id
                    && r->Ok_0->PaymentIntentFailed_user_id@ == user->0
            }),
    {
        proof {
            reveal_strlit("payment_intent.succeeded");
            reveal_strlit("payment_intent.payment_failed");
            assert("payment_intent.succeeded"@[15] != "payment_intent.payment_failed"@[15]);
        }
        let succeeded = same_text(event.event_type.as_str(), "payment_intent.succeeded");
        let failed = same_text(event.event_type.as_str(), "payment_intent.payment_failed");
        if !succeeded && !failed {
            let message = join_text("Unsupported event type: ", event.event_type.as_str());
            return Err(PaymentError::ApiError(message));
        }
        let pi = event.data.object;
        let user_id = match metadata_get(&pi.metadata, "user_id") {
            Some(u) => u,
            None => {
                return Err(
                    PaymentError::ApiError("Missing user_id in payment intent metadata".to_owned()),
                );
            },
        };
        proof {
            assert(user_id@ == metadata_value(pi.metadata@, "user_id"@)->0);
        }
        if succeeded {
            Ok(
                WebhookEvent::PaymentIntentSucceeded {
                    payment_intent_id: pi.id,
                    user_id,
                    amount_cents: pi.amount,
                },
            )
        } else {
            Ok(WebhookEvent::PaymentIntentFailed { payment_intent_id: pi.id, user_id })
        }
    }

    /// The request that creates a payment intent: the address of the
    /// payment intents of the API and the form-encoded parameters; refused
    /// as `payment_intent_params` refuses.
    pub fn payment_intent_request(&self, user_id: &str, amount_cents: u64, currency: &str) -> (r:
        Result<(String, String), PaymentError>)
        ensures
            amount_cents < 50 ==> r is Err && r->Err_0 is InvalidRequest && r->Err_0->InvalidRequest_0@
                == "Amount must be at least 50 cents"@,
            amount_cents >= 50 && byte_len(currency@) != 3 ==> r is Err && r->Err_0 is InvalidRequest
                && r->Err_0->InvalidRequest_0@ == "Currency must be 3-letter ISO code"@,
            amount_cents >= 50 && byte_len(currency@) == 3 ==> r is Ok && r->Ok_0.0@ == self.base_url_spec()
                + "/payment_intents"@ && r->Ok_0.1@ == form_text(
                seq![
                    ("amount"@, decimal(amount_cents as nat)),
                    ("currency"@, lowercase(currency@)),
                    ("automatic_payment_methods[enabled]"@, "true"@),
                    ("metadata[user_id]"@, user_id@),
                    ("metadata[source]"@, "toka_credit_purchase"@),
                ] + if self.config_spec().test_mode {
                    seq![("metadata[test_mode]"@, "true"@)]
                } else {
                    Seq::empty()
                },
            ),
    {
        let params = match self.payment_intent_params(user_id, amount_cents, currency) {
            Ok(p) => p,
            Err(e) => {
                return Err(e);
            },
        };
        let body = form_encode(&params);
        let url = join_text(self.base_url(), "/payment_intents");
        Ok((url, body))
    }

    /// The error of a request the API refused, given the text of its answer
    /// when that could be read.
    pub fn api_failure(error_text: Option<String>) -> (e: PaymentError)
        ensures
            e is ApiError,
            e->ApiError_0@ == "Stripe API error: "@ + match error_text {
                Some(t) => t@,
                None => "Unknown error"@,
            },
    {
        match error_text {
            Some(t) => PaymentError::ApiError(join_text("Stripe API error: ", t.as_str())),
            None => PaymentError::ApiError(join_text("Stripe API error: ", "Unknown error")),
        }
    }

    /// The error of a request that could not be sent.
    pub fn request_failure(message: &str) -> (e: PaymentError)
        ensures
            e is NetworkError,
            e->NetworkError_0@ == "Request failed: "@ + message@,
    {
        PaymentError::NetworkError(join_text("Request failed: ", message))
    }

    /// The error of an answer that could not be parsed.
    pub fn parse_failure(message: &str) -> (e: PaymentError)
        ensures
            e is ApiError,
            e->ApiError_0@ == "Failed to parse response: "@ + message@,
    {
        PaymentError::ApiError(join_text("Failed to parse response: ", message))
    }

    /// A payout to `creator_id`. Live payouts are refused; in test mode the
    /// payout is answered at once, pending, under the identifier
    /// `po_test_{creator}_{amount}`.
    pub fn create_payout_impl(&self, creator_id: &str, amount_cents: u64, currency: &str) -> (r:
        Result<PayoutResponse, PaymentError>)
        ensures
            !self.config_spec().test_mode ==> r is Err && r->Err_0 is InvalidRequest
                && r->Err_0->InvalidRequest_0@ == "Live payouts not implemented yet"@,
            self.config_spec().test_mode ==> r is Ok && r->Ok_0.id@ == "po_test_"@ + creator_id@ + "_"@
                + decimal(amount_cents as nat) && r->Ok_0.amount == amount_cents
                && r->Ok_0.currency@ == lowercase(currency@) && r->Ok_0.status@ == "pending"@
                && params_view(r->Ok_0.metadata@) == seq![
                ("creator_id"@, creator_id@),
                ("source"@, "toka_creator_payout"@),
            ],
    {
        if !self.config.test_mode {
            return Err(PaymentError::InvalidRequest("Live payouts not implemented yet".to_owned()));
        }
        let amount_text = decimal_text(amount_cents);
        let a = join_text("po_test_", creator_id);
        let b = join_text(a.as_str(), "_");
        let id = join_text(b.as_str(), amount_text.as_str());
        let mut metadata: Vec<(String, String)> = Vec::new();
        metadata.push(("creator_id".to_owned(), creator_id.to_owned()));
        metadata.push(("source".to_owned(), "toka_creator_payout".to_owned()));
        proof {
            assert(params_view(metadata@) =~= seq![
                ("creator_id"@, creator_id@),
                ("source"@, "toka_creator_payout"@),
            ]);
        }
        Ok(
            PayoutResponse {
                id,
                amount: amount_cents,
                currency: lowercase_text(currency),
                status: "pending".to_owned(),
                metadata,
            },
        )
    }
}

/// The parts of `b` ended by a comma before position `i`.
pub open spec fn parts_before(b: Seq<u8>, i: int) -> Seq<Seq<u8>> {
    comma_parts(b.take(i)).drop_last()
}

proof fn lemma_parts_byte(b: Seq<u8>, i: int)
    requires
        0 <= i < b.len(),
        b[i] != comma(),
    ensures
        parts_before(b, i + 1) == parts_before(b, i),
        comma_parts(b.take(i + 1)).last() == comma_parts(b.take(i)).last().push(b[i]),
        comma_parts(b.take(i)).len() >= 1,
{
    assert(b.take(i + 1).drop_last() =~= b.take(i));
    lemma_parts_nonempty(b.take(i));
    assert(parts_before(b, i + 1) =~= parts_before(b, i));
}

proof fn lemma_parts_comma(b: Seq<u8>, i: int)
    requires
        0 <= i < b.len(),
        b[i] == comma(),
    ensures
        parts_before(b, i + 1) == comma_parts(b.take(i)),
        comma_parts(b.take(i + 1)).last() == Seq::<u8>::empty(),
{
    assert(b.take(i + 1).drop_last() =~= b.take(i));
    assert(parts_before(b, i + 1) =~= comma_parts(b.take(i)));
}

proof fn lemma_parts_nonempty(b: Seq<u8>)
    ensures
        comma_parts(b).len() >= 1,
    decreases b.len(),
{
    if b.len() > 0 {
        lemma_parts_nonempty(b.drop_last());
    }
}

proof fn lemma_last_with_prefix_push(parts: Seq<Seq<u8>>, p: Seq<u8>, prefix: Seq<u8>)
    ensures
        last_with_prefix(parts.push(p), prefix) == if p.len() >= prefix.len() && p.take(
            prefix.len() as int,
        ) == prefix {
            Some(p.skip(prefix.len() as int))
        } else {
            last_with_prefix(parts, prefix)
        },
{
    assert(parts.push(p).drop_last() =~= parts);
}

/// Whether `v` begins with the first `n` (2 or 3) of the bytes `a`, `b`, `c`.
fn starts_with_bytes(v: &Vec<u8>, a: u8, b: u8, c: u8, n: usize) -> (r: bool)
    requires
        n == 2 || n == 3,
    ensures
        r == (v@.len() >= n && v@.take(n as int) == if n == 2 {
            seq![a, b]
        } else {
            seq![a, b, c]
        }),
{
    if v.len() < n {
        return false;
    }
    let r = if n == 2 {
        v[0] == a && v[1] == b
    } else {
        v[0] == a && v[1] == b && v[2] == c
    };
    proof {
        let p = if n == 2 {
            seq![a, b]
        } else {
            seq![a, b, c]
        };
        if r {
            assert(v@.take(n as int) =~= p);
        } else if v@.take(n as int) == p {
            assert(v@.take(n as int)[0] == p[0] && v@.take(n as int)[1] == p[1]);
            if n == 3 {
                assert(v@.take(n as int)[2] == p[2]);
            }
        }
    }
    r
}

/// A copy of `v[from..]`.
fn bytes_after(v: &Vec<u8>, from: usize) -> (r: Vec<u8>)
    requires
        from <= v@.len(),
    ensures
        r@ == v@.skip(from as int),
{
    let mut out: Vec<u8> = Vec::new();
    let mut i: usize = from;
    while i < v.len()
        invariant
            from <= i <= v@.len(),
            out@ == v@.subrange(from as int, i as int),
        decreases v.len() - i,
    {
        out.push(v[i]);
        proof {
            assert(out@ =~= v@.subrange(from as int, i + 1));
        }
        i = i + 1;
    }
    proof {
        assert(out@ =~= v@.skip(from as int));
    }
    out
}

/// Appends the bytes of `src` to `dst`.
fn append_bytes(dst: &mut Vec<u8>, src: &[u8])
    ensures
        final(dst)@ == old(dst)@ + src@,
{
    let mut j: usize = 0;
    while j < src.len()
        invariant
            j <= src@.len(),
            dst@ == old(dst)@ + src@.take(j as int),
        decreases src.len() - j,
    {
        dst.push(src[j]);
        proof {
            assert(src@.take(j + 1) =~= src@.take(j as int).push(src@[j as int]));
        }
        j = j + 1;
    }
    proof {
        assert(src@.take(src@.len() as int) =~= src@);
    }
}

/// Whether two byte strings are equal.
fn same_bytes(a: &[u8], b: &[u8]) -> (r: bool)
    ensures
        r == (a@ == b@),
{
    if a.len() != b.len() {
        return false;
    }
    let mut i: usize = 0;
    while i < a.len()
        invariant
            i <= a@.len(),
            a@.len() == b@.len(),
            forall|j: int| 0 <= j < i ==> a@[j] == b@[j],
        decreases a.len() - i,
    {
        if a[i] != b[i] {
            return false;
        }
        i = i + 1;
    }
    proof {
        assert(a@ =~= b@);
    }
    true
}

} // verus!
