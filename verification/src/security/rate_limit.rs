//! The vocabulary of rate limiting: what a check decides, what is limited
//! (addresses, users, keys, endpoints), the limits, the usage counted in a
//! window, and the HTTP answers to a limited request. Times and durations
//! are milliseconds; addresses are their text.

use vstd::prelude::*;
use crate::security::capability::texts;
use crate::support::{decimal, decimal_text, join_text, now_millis, random_uuid, signed_decimal_text, signed_decimal};

verus! {

/// HTTP status of a request refused for its rate.
pub const TOO_MANY_REQUESTS: u16 = 429;

/// HTTP status of a request refused for a severe violation.
pub const FORBIDDEN: u16 = 403;

/// HTTP status when the rate limiter is unavailable.
pub const SERVICE_UNAVAILABLE: u16 = 503;

/// What a rate check decides.
#[derive(Debug, Clone, Copy, PartialEq, Eq, Structural)]
pub enum RateLimitResult {
    /// Allowed.
    Allowed {
        /// Capacity left in the window.
        remaining: u64,
        /// Time until the window resets.
        reset_after: i64,
        /// The limit.
        limit: u64,
    },
    /// Limited.
    Limited {
        /// Time to wait before retrying.
        retry_after: i64,
        /// The limit.
        limit: u64,
        /// Requests made in the window.
        current_usage: u64,
    },
}

impl RateLimitResult {
    /// Whether the request is allowed.
    pub fn is_allowed(&self) -> (r: bool)
        ensures
            r == self is Allowed,
    {
        match self {
            RateLimitResult::Allowed { .. } => true,
            RateLimitResult::Limited { .. } => false,
        }
    }

    /// The time to wait, for a limited request.
    pub fn retry_after(&self) -> (r: Option<i64>)
        ensures
            r == match *self {
                RateLimitResult::Limited { retry_after, .. } => Some(retry_after),
                RateLimitResult::Allowed { .. } => None,
            },
    {
        match self {
            RateLimitResult::Limited { retry_after, .. } => Some(*retry_after),
            RateLimitResult::Allowed { .. } => None,
        }
    }

    /// The capacity left, for an allowed request.
    pub fn remaining(&self) -> (r: Option<u64>)
        ensures
            r == match *self {
                RateLimitResult::Allowed { remaining, .. } => Some(remaining),
                RateLimitResult::Limited { .. } => None,
            },
    {
        match self {
            RateLimitResult::Allowed { remaining, .. } => Some(*remaining),
            RateLimitResult::Limited { .. } => None,
        }
    }
}

/// Errors of rate limiting.
#[derive(Debug)]
pub enum RateLimitError {
    /// The storage backend failed.
    Storage(String),
    /// The configuration is invalid.
    InvalidConfig(String),
    /// The limit was exceeded.
    LimitExceeded(String),
    /// Something else went wrong.
    Internal(String),
}

/// The text of an error.
pub open spec fn rate_error_text(e: RateLimitError) -> Seq<char> {
    match e {
        RateLimitError::Storage(m) => "Storage backend error: "@ + m@,
        RateLimitError::InvalidConfig(m) => "Invalid configuration: "@ + m@,
        RateLimitError::LimitExceeded(m) => "Rate limit exceeded: "@ + m@,
        RateLimitError::Internal(m) => "Internal error: "@ + m@,
    }
}

impl RateLimitError {
    /// The error's text.
    pub fn to_text(&self) -> (s: String)
        ensures
            s@ == rate_error_text(*self),
    {
        match self {
            RateLimitError::Storage(m) => join_text("Storage backend error: ", m.as_str()),
            RateLimitError::InvalidConfig(m) => join_text("Invalid configuration: ", m.as_str()),
            RateLimitError::LimitExceeded(m) => join_text("Rate limit exceeded: ", m.as_str()),
            RateLimitError::Internal(m) => join_text("Internal error: ", m.as_str()),
        }
    }
}

/// What is rate limited.
#[derive(Debug, Clone, PartialEq, Eq, Hash)]
pub enum RateLimitKey {
    /// A client address, by its text.
    IpAddress(String),
    /// A user.
    UserId(String),
    /// An API key.
    ApiKey(String),
    /// An endpoint.
    Endpoint(String),
    /// Anything else.
    Custom(String),
    /// Several dimensions at once.
    Composite(Vec<String>),
}

/// The texts of `v` separated by `:`.
pub open spec fn colon_joined(v: Seq<Seq<char>>) -> Seq<char>
    decreases v.len(),
{
    if v.len() == 0 {
        Seq::empty()
    } else if v.len() == 1 {
        v[0]
    } else {
        colon_joined(v.drop_last()) + ":"@ + v.last()
    }
}

/// The storage key of a rate-limit key.
pub open spec fn storage_key(k: RateLimitKey) -> Seq<char> {
    match k {
        RateLimitKey::IpAddress(ip) => "ip:"@ + ip@,
        RateLimitKey::UserId(id) => "user:"@ + id@,
        RateLimitKey::ApiKey(key) => "apikey:"@ + key@,
        RateLimitKey::Endpoint(e) => "endpoint:"@ + e@,
        RateLimitKey::Custom(key) => "custom:"@ + key@,
        RateLimitKey::Composite(parts) => "composite:"@ + colon_joined(texts(parts@)),
    }
}

/// The texts of `v` separated by `:`.
fn join_colons(v: &Vec<String>) -> (r: String)
    ensures
        r@ == colon_joined(texts(v@)),
{
    let mut out = String::new();
    let mut i: usize = 0;
    while i < v.len()
        invariant
            i <= v@.len(),
            out@ == colon_joined(texts(v@.take(i as int))),
        decreases v.len() - i,
    {
        proof {
            assert(texts(v@.take(i + 1)).drop_last() =~= texts(v@.take(i as int)));
            assert(texts(v@.take(i + 1)).last() == v@[i as int]@);
        }
        if i == 0 {
            out = v[i].clone();
        } else {
            let with_colon = join_text(out.as_str(), ":");
            out = join_text(with_colon.as_str(), v[i].as_str());
        }
        i = i + 1;
    }
    proof {
        assert(v@.take(v@.len() as int) =~= v@);
    }
    out
}

impl RateLimitKey {
    /// The key under which the usage is stored: a prefix naming the
    /// dimension, then the value; the parts of a composite key are joined
    /// by `:`.
    pub fn to_storage_key(&self) -> (s: String)
        ensures
            s@ == storage_key(*self),
    {
        match self {
            RateLimitKey::IpAddress(ip) => join_text("ip:", ip.as_str()),
            RateLimitKey::UserId(id) => join_text("user:", id.as_str()),
            RateLimitKey::ApiKey(key) => join_text("apikey:", key.as_str()),
            RateLimitKey::Endpoint(e) => join_text("endpoint:", e.as_str()),
            RateLimitKey::Custom(key) => join_text("custom:", key.as_str()),
            RateLimitKey::Composite(parts) => {
                let joined = join_colons(parts);
                join_text("composite:", joined.as_str())
            },
        }
    }

    /// A composite key of `parts`.
    pub fn composite(parts: Vec<String>) -> (k: RateLimitKey)
        ensures
            k == RateLimitKey::Composite(parts),
    {
        RateLimitKey::Composite(parts)
    }
}

/// How requests are counted.
#[derive(Debug, Clone, Copy, PartialEq, Eq, Structural)]
pub enum RateLimitAlgorithm {
    /// A bucket of tokens, refilled over time.
    TokenBucket,
    /// Fixed windows.
    FixedWindow,
    /// A sliding window.
    SlidingWindow,
    /// Limits that adapt.
    Adaptive,
}

/// A rate limit.
#[derive(Debug, Clone)]
pub struct RateLimitConfig {
    /// Requests allowed per window.
    pub limit: u64,
    /// The window.
    pub window: i64,
    /// How requests are counted.
    pub algorithm: RateLimitAlgorithm,
    /// Burst capacity of a token bucket.
    pub burst_capacity: Option<u64>,
    /// Whether the limit is shared between instances.
    pub distributed: bool,
    /// Whether the limit adapts.
    pub adaptive: bool,
}

impl Default for RateLimitConfig {
    fn default() -> (c: Self)
        ensures
            c.limit == 100,
            c.window == 60_000,
            c.algorithm == RateLimitAlgorithm::TokenBucket,
            c.burst_capacity == Some(10u64),
            !c.distributed,
            !c.adaptive,
    {
        RateLimitConfig {
            limit: 100,
            window: 60_000,
            algorithm: RateLimitAlgorithm::TokenBucket,
            burst_capacity: Some(10),
            distributed: false,
            adaptive: false,
        }
    }
}

/// What is known of a request to be rate limited.
#[derive(Debug)]
pub struct AuthRateLimitContext {
    /// The client's address, as text.
    pub ip_address: Option<String>,
    /// The user, once authenticated.
    pub user_id: Option<String>,
    /// The API key used.
    pub api_key: Option<String>,
    /// The endpoint requested.
    pub endpoint: Option<String>,
    /// The client's user agent.
    pub user_agent: Option<String>,
    /// Identifier of the request.
    pub request_id: Option<u128>,
    /// Whether the request is a failed authentication.
    pub is_auth_failure: bool,
    /// Further details, as key and value.
    pub metadata: Vec<(String, String)>,
}

/// The rate-limit keys of a request: its address, user, API key and
/// endpoint, where known; and for a failed authentication, the address and
/// the user each paired with the endpoint.
pub open spec fn keys_of(c: AuthRateLimitContext) -> Seq<Seq<char>> {
    ip_keys(c) + user_keys(c) + api_keys(c) + endpoint_keys(c) + failed_ip_keys(c) + failed_user_keys(c)
}

/// The key of the request's address, where known.
pub open spec fn ip_keys(c: AuthRateLimitContext) -> Seq<Seq<char>> {
    match c.ip_address {
        Some(a) => seq![storage_key(RateLimitKey::IpAddress(a))],
        None => Seq::empty(),
    }
}

/// The key of the request's user, where known.
pub open spec fn user_keys(c: AuthRateLimitContext) -> Seq<Seq<char>> {
    match c.user_id {
        Some(u) => seq![storage_key(RateLimitKey::UserId(u))],
        None => Seq::empty(),
    }
}

/// The key of the request's API key, where known.
pub open spec fn api_keys(c: AuthRateLimitContext) -> Seq<Seq<char>> {
    match c.api_key {
        Some(k) => seq![storage_key(RateLimitKey::ApiKey(k))],
        None => Seq::empty(),
    }
}

/// The key of the request's endpoint, where known.
pub open spec fn endpoint_keys(c: AuthRateLimitContext) -> Seq<Seq<char>> {
    match c.endpoint {
        Some(e) => seq![storage_key(RateLimitKey::Endpoint(e))],
        None => Seq::empty(),
    }
}

/// For a failed authentication, the address paired with the endpoint.
pub open spec fn failed_ip_keys(c: AuthRateLimitContext) -> Seq<Seq<char>> {
    if c.is_auth_failure && c.ip_address is Some && c.endpoint is Some {
        seq!["composite:"@ + "auth_fail_ip:"@ + c.ip_address->0@ + ":"@ + "endpoint:"@ + c.endpoint->0@]
    } else {
        Seq::empty()
    }
}

/// For a failed authentication, the user paired with the endpoint.
pub open spec fn failed_user_keys(c: AuthRateLimitContext) -> Seq<Seq<char>> {
    if c.is_auth_failure && c.user_id is Some && c.endpoint is Some {
        seq!["composite:"@ + "auth_fail_user:"@ + c.user_id->0@ + ":"@ + "endpoint:"@ + c.endpoint->0@]
    } else {
        Seq::empty()
    }
}

/// The storage keys of a list of keys.
pub open spec fn storage_keys(v: Seq<RateLimitKey>) -> Seq<Seq<char>> {
    v.map_values(|k: RateLimitKey| storage_key(k))
}

/// A copy of an optional text.
fn copy_text(t: &Option<String>) -> (r: Option<String>)
    ensures
        r == *t,
{
    match t {
        Some(s) => Some(s.clone()),
        None => None,
    }
}

impl AuthRateLimitContext {
    /// A context that knows nothing yet but a fresh request identifier.
    pub fn new() -> (c: Self)
        ensures
            c.ip_address is None,
            c.user_id is None,
            c.api_key is None,
            c.endpoint is None,
            c.user_agent is None,
            c.request_id is Some,
            !c.is_auth_failure,
            c.metadata@.len() == 0,
    {
        AuthRateLimitContext {
            ip_address: None,
            user_id: None,
            api_key: None,
            endpoint: None,
            user_agent: None,
            request_id: Some(random_uuid()),
            is_auth_failure: false,
            metadata: Vec::new(),
        }
    }

    /// The context with the client's address.
    pub fn with_ip(self, ip: String) -> (c: Self)
        ensures
            c == (AuthRateLimitContext { ip_address: Some(ip), ..self }),
    {
        let mut c = self;
        c.ip_address = Some(ip);
        c
    }

    /// The context with the user.
    pub fn with_user_id(self, user_id: String) -> (c: Self)
        ensures
            c == (AuthRateLimitContext { user_id: Some(user_id), ..self }),
    {
        let mut c = self;
        c.user_id = Some(user_id);
        c
    }

    /// The context with the endpoint.
    pub fn with_endpoint(self, endpoint: String) -> (c: Self)
        ensures
            c == (AuthRateLimitContext { endpoint: Some(endpoint), ..self }),
    {
        let mut c = self;
        c.endpoint = Some(endpoint);
        c
    }

    /// The context with the request identifier.
    pub fn with_request_id(self, request_id: u128) -> (c: Self)
        ensures
            c == (AuthRateLimitContext { request_id: Some(request_id), ..self }),
    {
        let mut c = self;
        c.request_id = Some(request_id);
        c
    }

    /// The context of a failed authentication.
    pub fn with_auth_failure(self) -> (c: Self)
        ensures
            c == (AuthRateLimitContext { is_auth_failure: true, ..self }),
    {
        let mut c = self;
        c.is_auth_failure = true;
        c
    }

    /// The context with `value` under `key`, in place of an earlier value.
    pub fn with_metadata(self, key: String, value: String) -> (c: Self)
        ensures
            c.ip_address == self.ip_address,
            c.user_id == self.user_id,
            c.endpoint == self.endpoint,
            c.is_auth_failure == self.is_auth_failure,
            c.api_key == self.api_key,
            c.user_agent == self.user_agent,
            c.request_id == self.request_id,
            exists|i: int|
                0 <= i < c.metadata@.len() && #[trigger] c.metadata@[i].0@ == key@ && c.metadata@[i].1 == value,
            self.metadata@.len() == 0 ==> c.metadata@ == seq![(key, value)],
    {
        let mut c = self;
        let mut i: usize = 0;
        while i < c.metadata.len()
            invariant
                i <= c.metadata@.len(),
                c.ip_address == self.ip_address,
                c.user_id == self.user_id,
                c.endpoint == self.endpoint,
                c.is_auth_failure == self.is_auth_failure,
                c.api_key == self.api_key,
                c.user_agent == self.user_agent,
                c.request_id == self.request_id,
                c.metadata@ == self.metadata@,
            decreases c.metadata.len() - i,
        {
            if crate::runtime::text::same_text(c.metadata[i].0.as_str(), key.as_str()) {
                let name = c.metadata[i].0.clone();
                c.metadata.set(i, (name, value));
                proof {
                    assert(c.metadata@[i as int].0@ == key@);
                }
                return c;
            }
            i = i + 1;
        }
        let n = c.metadata.len();
        c.metadata.push((key, value));
        proof {
            assert(c.metadata@[n as int].0@ == key@);
            if self.metadata@.len() == 0 {
                assert(c.metadata@ =~= seq![(key, value)]);
            }
        }
        c
    }

    /// The rate-limit keys of the request.
    pub fn generate_keys(&self) -> (keys: Vec<RateLimitKey>)
        ensures
            storage_keys(keys@) == keys_of(*self),
    {
        let mut keys: Vec<RateLimitKey> = Vec::new();
        let ghost ip = ip_keys(*self);
        let ghost user = user_keys(*self);
        let ghost api = api_keys(*self);
        let ghost endpoint = endpoint_keys(*self);
        if let Some(a) = &self.ip_address {
            keys.push(RateLimitKey::IpAddress(a.clone()));
        }
        proof {
            assert(storage_keys(keys@) =~= ip);
        }
        if let Some(u) = &self.user_id {
            keys.push(RateLimitKey::UserId(u.clone()));
        }
        proof {
            assert(storage_keys(keys@) =~= ip + user);
        }
        if let Some(k) = &self.api_key {
            keys.push(RateLimitKey::ApiKey(k.clone()));
        }
        proof {
            assert(storage_keys(keys@) =~= ip + user + api);
        }
        if let Some(e) = &self.endpoint {
            keys.push(RateLimitKey::Endpoint(e.clone()));
        }
        proof {
            assert(storage_keys(keys@) =~= ip + user + api + endpoint);
        }
        let ghost before_fail = storage_keys(keys@);
        if self.is_auth_failure {
            if let (Some(a), Some(e)) = (&self.ip_address, &self.endpoint) {
                let mut parts: Vec<String> = Vec::new();
                parts.push(join_text("auth_fail_ip:", a.as_str()));
                parts.push(join_text("endpoint:", e.as_str()));
                let ghost tp = texts(parts@);
                proof {
                    assert(tp.len() == 2);
                    assert(tp.drop_last() =~= seq![tp[0]]);
                    assert(colon_joined(seq![tp[0]]) == tp[0]);
                    assert(tp.last() == tp[1]);
                    assert(colon_joined(tp) == tp[0] + ":"@ + tp[1]);
                }
                let ghost before = keys@;
                keys.push(RateLimitKey::composite(parts));
                proof {
                    assert(storage_key(keys@.last()) =~= "composite:"@ + "auth_fail_ip:"@ + a@ + ":"@ + "endpoint:"@
                        + e@);
                    assert(storage_keys(keys@) =~= storage_keys(before).push(storage_key(keys@.last())));
                }
            }
        }
        let ghost mid = storage_keys(keys@);
        proof {
            let fail_ip = failed_ip_keys(*self);
            assert(mid =~= before_fail + fail_ip);
        }
        if self.is_auth_failure {
            if let (Some(u), Some(e)) = (&self.user_id, &self.endpoint) {
                let mut parts: Vec<String> = Vec::new();
                parts.push(join_text("auth_fail_user:", u.as_str()));
                parts.push(join_text("endpoint:", e.as_str()));
                let ghost tp = texts(parts@);
                proof {
                    assert(tp.len() == 2);
                    assert(tp.drop_last() =~= seq![tp[0]]);
                    assert(colon_joined(seq![tp[0]]) == tp[0]);
                    assert(tp.last() == tp[1]);
                    assert(colon_joined(tp) == tp[0] + ":"@ + tp[1]);
                }
                let ghost before = keys@;
                keys.push(RateLimitKey::composite(parts));
                proof {
                    assert(storage_key(keys@.last()) =~= "composite:"@ + "auth_fail_user:"@ + u@ + ":"@
                        + "endpoint:"@ + e@);
                    assert(storage_keys(keys@) =~= storage_keys(before).push(storage_key(keys@.last())));
                }
            }
        }
        proof {
            let fail_user = failed_user_keys(*self);
            assert(storage_keys(keys@) =~= mid + fail_user);
        }
        keys
    }
}

impl Default for AuthRateLimitContext {
    fn default() -> (c: Self)
        ensures
            c.ip_address is None,
            c.user_id is None,
            c.api_key is None,
            c.endpoint is None,
            c.request_id is Some,
            !c.is_auth_failure,
    {
        AuthRateLimitContext::new()
    }
}

/// Usage counted for a key.
#[derive(Debug, Clone, Copy)]
pub struct RateLimitUsage {
    /// Requests in the window.
    pub count: u64,
    /// Start of the window.
    pub window_start: i64,
    /// First request of the window.
    pub first_request: i64,
    /// Last request of the window.
    pub last_request: i64,
    /// Requests ever.
    pub total_requests: u64,
}

impl RateLimitUsage {
    /// Usage of `count` requests in a window that started at
    /// `window_start`, first and last seen now.
    pub fn new(count: u64, window_start: i64) -> (u: Self)
        ensures
            u.count == count,
            u.window_start == window_start,
            u.first_request == u.last_request,
            u.total_requests == count,
    {
        let now = now_millis();
        RateLimitUsage { count, window_start, first_request: now, last_request: now, total_requests: count }
    }

    /// Whether `now` lies within `window` of the window's start.
    pub fn is_within_window_at(&self, window: i64, now: i64) -> (r: bool)
        ensures
            r == (now - self.window_start <= window),
    {
        (now as i128) - (self.window_start as i128) <= window as i128
    }

    /// Whether now lies within `window` of the window's start.
    pub fn is_within_window(&self, window: i64) -> (r: bool) {
        self.is_within_window_at(window, now_millis())
    }

    /// Starts a new window at `new_start`.
    pub fn reset_window(&mut self, new_start: i64)
        ensures
            *final(self) == (RateLimitUsage {
                count: 0,
                window_start: new_start,
                first_request: new_start,
                last_request: new_start,
                total_requests: old(self).total_requests,
            }),
    {
        self.count = 0;
        self.window_start = new_start;
        self.first_request = new_start;
        self.last_request = new_start;
    }

    /// Counts `amount` more requests, the last seen now.
    pub fn increment(&mut self, amount: u64)
        requires
            old(self).count + amount <= u64::MAX,
            old(self).total_requests + amount <= u64::MAX,
        ensures
            final(self).count == old(self).count + amount,
            final(self).total_requests == old(self).total_requests + amount,
            final(self).window_start == old(self).window_start,
            final(self).first_request == old(self).first_request,
    {
        self.count = self.count + amount;
        self.total_requests = self.total_requests + amount;
        self.last_request = now_millis();
    }
}

/// A standard HTTP answer of the rate limiter.
#[derive(Debug, Clone)]
pub struct RateLimitResponse {
    /// HTTP status.
    pub status: u16,
    /// JSON body.
    pub body: String,
    /// HTTP headers.
    pub headers: Vec<(String, String)>,
}

/// Whole seconds of a duration, truncated toward zero.
pub open spec fn whole_seconds(ms: i64) -> int {
    if ms >= 0 {
        ms / 1000
    } else {
        -((-ms) / 1000)
    }
}

/// The JSON body of a refusal for the rate: its fields in key order.
pub open spec fn too_many_body(retry_after: i64, limit: u64) -> Seq<char> {
    "{\"error\":\"Too Many Requests\",\"limit\":"@ + decimal(limit as nat)
        + ",\"message\":\"Rate limit exceeded. Try again in "@ + signed_decimal(whole_seconds(retry_after))
        + " seconds.\",\"retry_after\":"@ + signed_decimal(whole_seconds(retry_after)) + "}"@
}

impl RateLimitResponse {
    /// The answer to a request over its limit: status 429 and a JSON body
    /// with the error, the limit, a message and the seconds to wait.
    pub fn too_many_requests(retry_after: i64, limit: u64, headers: Vec<(String, String)>) -> (r: Self)
        ensures
            r.status == TOO_MANY_REQUESTS,
            r.body@ == too_many_body(retry_after, limit),
            r.headers == headers,
    {
        let seconds: i64 = if retry_after >= 0 {
            retry_after / 1000
        } else {
            -((-(retry_after as i128)) / 1000) as i64
        };
        let wait = signed_decimal_text(seconds);
        proof {
            assert(seconds == whole_seconds(retry_after));
        }
        let b1 = join_text("{\"error\":\"Too Many Requests\",\"limit\":", decimal_text(limit).as_str());
        let b2 = join_text(b1.as_str(), ",\"message\":\"Rate limit exceeded. Try again in ");
        let b3 = join_text(b2.as_str(), wait.as_str());
        let b4 = join_text(b3.as_str(), " seconds.\",\"retry_after\":");
        let b5 = join_text(b4.as_str(), wait.as_str());
        let body = join_text(b5.as_str(), "}");
        proof {
            assert(wait@ == signed_decimal(whole_seconds(retry_after)));
        }
        RateLimitResponse { status: TOO_MANY_REQUESTS, body, headers }
    }

    /// The answer to a severe violation: status 403.
    pub fn forbidden(headers: Vec<(String, String)>) -> (r: Self)
        ensures
            r.status == FORBIDDEN,
            r.body@
                == "{\"error\":\"Forbidden\",\"message\":\"Request blocked due to rate limiting policy violation\"}"@,
            r.headers == headers,
    {
        RateLimitResponse {
            status: FORBIDDEN,
            body: "{\"error\":\"Forbidden\",\"message\":\"Request blocked due to rate limiting policy violation\"}".to_owned(),
            headers,
        }
    }

    /// The answer when the rate limiter is unavailable: status 503.
    pub fn service_unavailable(headers: Vec<(String, String)>) -> (r: Self)
        ensures
            r.status == SERVICE_UNAVAILABLE,
            r.body@
                == "{\"error\":\"Service Unavailable\",\"message\":\"Rate limiting service is temporarily unavailable\"}"@,
            r.headers == headers,
    {
        RateLimitResponse {
            status: SERVICE_UNAVAILABLE,
            body: "{\"error\":\"Service Unavailable\",\"message\":\"Rate limiting service is temporarily unavailable\"}".to_owned(),
            headers,
        }
    }
}

/// Storage shared between instances; its backend is not chosen yet.
#[derive(Debug)]
pub struct DistributedRateLimitStorage {}

impl DistributedRateLimitStorage {
    /// The storage.
    pub fn new() -> (s: Self) {
        DistributedRateLimitStorage {}
    }
}

} // verus!
