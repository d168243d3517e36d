//! Rate limiting in front of a web service: which paths are exempt, the
//! context of a request, the headers that tell a client its limits, and the
//! policies of the kinds of endpoints. Durations are milliseconds. The
//! checks themselves are made by the rate limiter the middleware holds.

use vstd::prelude::*;
use crate::runtime::text::{starts_with, starts_with_text};
use crate::security::rate_limit::{
    AuthRateLimitContext, RateLimitAlgorithm, RateLimitConfig, RateLimitResult, whole_seconds,
};
use crate::support::{decimal, decimal_text, join_text, signed_decimal, signed_decimal_text};
use crate::keyed::{distinct_keys, put_entry, value_at};

verus! {

/// Configuration of the middleware.
#[derive(Debug)]
pub struct MiddlewareConfig {
    /// Paths exempt from rate limiting, by prefix.
    pub skip_paths: Vec<String>,
    /// Limits of particular endpoints, by path, each path once.
    pub endpoint_configs: Vec<(String, RateLimitConfig)>,
    /// Whether responses carry rate-limit headers.
    pub include_headers: bool,
    /// The prefix of the header names.
    pub header_prefix: String,
    /// Whether checks are logged.
    pub enable_logging: bool,
}

impl Default for MiddlewareConfig {
    /// Health and metrics paths exempt, no endpoint limits, headers
    /// prefixed `X-RateLimit-`, logging on.
    fn default() -> (c: Self)
        ensures
            c.skip_paths@.len() == 2,
            c.skip_paths@[0]@ == "/health"@,
            c.skip_paths@[1]@ == "/metrics"@,
            c.endpoint_configs@.len() == 0,
            c.include_headers,
            c.header_prefix@ == "X-RateLimit-"@,
            c.enable_logging,
    {
        let mut skip_paths: Vec<String> = Vec::new();
        skip_paths.push("/health".to_string());
        skip_paths.push("/metrics".to_string());
        MiddlewareConfig {
            skip_paths,
            endpoint_configs: Vec::new(),
            include_headers: true,
            header_prefix: "X-RateLimit-".to_string(),
            enable_logging: true,
        }
    }
}

/// The whole seconds of a duration in milliseconds, rounded toward zero.
pub fn seconds_of(ms: i64) -> (r: i64)
    ensures
        r == whole_seconds(ms),
{
    if ms >= 0 {
        ms / 1000
    } else {
        let m: i128 = -(ms as i128);
        let q: i128 = m / 1000;
        (-q) as i64
    }
}

/// The rate-limit headers of a check, as name and value: for an allowed
/// request the limit, the capacity left and the seconds until the window
/// resets; for a limited one the limit, no capacity left, the seconds to
/// wait and the requests made.
pub open spec fn rate_headers(prefix: Seq<char>, r: RateLimitResult) -> Seq<(Seq<char>, Seq<char>)> {
    match r {
        RateLimitResult::Allowed { remaining, reset_after, limit } => seq![
            (prefix + "Limit"@, decimal(limit as nat)),
            (prefix + "Remaining"@, decimal(remaining as nat)),
            (prefix + "Reset"@, signed_decimal(whole_seconds(reset_after))),
        ],
        RateLimitResult::Limited { retry_after, limit, current_usage } => seq![
            (prefix + "Limit"@, decimal(limit as nat)),
            (prefix + "Remaining"@, "0"@),
            (prefix + "Retry-After"@, signed_decimal(whole_seconds(retry_after))),
            (prefix + "Current"@, decimal(current_usage as nat)),
        ],
    }
}

/// The texts of a list of name and value pairs.
pub open spec fn pair_texts(v: Seq<(String, String)>) -> Seq<(Seq<char>, Seq<char>)> {
    v.map_values(|p: (String, String)| (p.0@, p.1@))
}

/// Rate limiting of the requests to a service, through `rate_limiter`.
pub struct AuthRateLimitMiddleware<R> {
    rate_limiter: R,
    config: MiddlewareConfig,
}

impl<R> AuthRateLimitMiddleware<R> {
    /// The configuration.
    pub closed spec fn config_spec(&self) -> MiddlewareConfig {
        self.config
    }

    /// The rate limiter.
    pub closed spec fn limiter_spec(&self) -> R {
        self.rate_limiter
    }

    /// A middleware checking through `rate_limiter` with `config`.
    pub fn new(rate_limiter: R, config: MiddlewareConfig) -> (m: Self)
        ensures
            m.limiter_spec() == rate_limiter,
            m.config_spec() == config,
    {
        AuthRateLimitMiddleware { rate_limiter, config }
    }

    /// A middleware with the default configuration.
    pub fn with_defaults(rate_limiter: R) -> (m: Self)
        ensures
            m.limiter_spec() == rate_limiter,
            m.config_spec().skip_paths@.len() == 2,
            m.config_spec().skip_paths@[0]@ == "/health"@,
            m.config_spec().skip_paths@[1]@ == "/metrics"@,
            m.config_spec().endpoint_configs@.len() == 0,
            m.config_spec().include_headers,
            m.config_spec().header_prefix@ == "X-RateLimit-"@,
            m.config_spec().enable_logging,
    {
        Self::new(rate_limiter, MiddlewareConfig::default())
    }

    /// The rate limiter.
    pub fn rate_limiter(&self) -> (r: &R)
        ensures
            *r == self.limiter_spec(),
    {
        &self.rate_limiter
    }

    /// The configuration.
    pub fn config(&self) -> (r: &MiddlewareConfig)
        ensures
            *r == self.config_spec(),
    {
        &self.config
    }

    /// Whether `path` is exempt: it begins with one of the skipped paths.
    pub fn should_skip_path(&self, path: &str) -> (r: bool)
        ensures
            r == exists|i: int|
                0 <= i < self.config_spec().skip_paths@.len() && starts_with_text(
                    path@,
                    #[trigger] self.config_spec().skip_paths@[i]@,
                ),
    {
        let skips = &self.config.skip_paths;
        let mut i: usize = 0;
        while i < skips.len()
            invariant
                i <= skips@.len(),
                skips == &self.config_spec().skip_paths,
                forall|j: int| 0 <= j < i ==> !starts_with_text(path@, #[trigger] skips@[j]@),
            decreases skips.len() - i,
        {
            if starts_with(path, skips[i].as_str()) {
                return true;
            }
            i = i + 1;
        }
        false
    }

    /// The context of a request to `path`, with a fresh request identifier,
    /// the client's address and user where known, its user agent kept as
    /// metadata, and whether it is a failed authentication.
    pub fn extract_context(
        &self,
        ip: Option<String>,
        user_id: Option<String>,
        path: &str,
        user_agent: Option<String>,
        is_auth_failure: bool,
    ) -> (c: AuthRateLimitContext)
        ensures
            c.endpoint is Some && c.endpoint->0@ == path@,
            c.ip_address == ip,
            c.user_id == user_id,
            c.api_key is None,
            c.user_agent is None,
            c.request_id is Some,
            c.is_auth_failure == is_auth_failure,
            match user_agent {
                Some(ua) => c.metadata@.len() == 1 && c.metadata@[0].0@ == "user_agent"@
                    && c.metadata@[0].1 == ua,
                None => c.metadata@.len() == 0,
            },
    {
        let id = crate::support::random_uuid();
        let mut context = AuthRateLimitContext::new().with_endpoint(path.to_string()).with_request_id(
            id,
        );
        if let Some(a) = ip {
            context = context.with_ip(a);
        }
        if let Some(u) = user_id {
            context = context.with_user_id(u);
        }
        if let Some(ua) = user_agent {
            context = context.with_metadata("user_agent".to_string(), ua);
        }
        if is_auth_failure {
            context = context.with_auth_failure();
        }
        context
    }

    /// The rate-limit headers of `result`, each name beginning with the
    /// configured prefix; none when headers are turned off.
    pub fn generate_headers(&self, result: &RateLimitResult) -> (h: Vec<(String, String)>)
        ensures
            self.config_spec().include_headers ==> pair_texts(h@) == rate_headers(
                self.config_spec().header_prefix@,
                *result,
            ),
            !self.config_spec().include_headers ==> h@.len() == 0,
    {
        let mut headers: Vec<(String, String)> = Vec::new();
        if !self.config.include_headers {
            return headers;
        }
        let prefix = self.config.header_prefix.as_str();
        match result {
            RateLimitResult::Allowed { remaining, reset_after, limit } => {
                headers.push((join_text(prefix, "Limit"), decimal_text(*limit)));
                headers.push((join_text(prefix, "Remaining"), decimal_text(*remaining)));
                headers.push((join_text(prefix, "Reset"), signed_decimal_text(seconds_of(*reset_after))));
            },
            RateLimitResult::Limited { retry_after, limit, current_usage } => {
                headers.push((join_text(prefix, "Limit"), decimal_text(*limit)));
                headers.push((join_text(prefix, "Remaining"), "0".to_string()));
                headers.push(
                    (join_text(prefix, "Retry-After"), signed_decimal_text(seconds_of(*retry_after))),
                );
                headers.push((join_text(prefix, "Current"), decimal_text(*current_usage)));
            },
        }
        assert(pair_texts(headers@) =~= rate_headers(self.config_spec().header_prefix@, *result));
        headers
    }
}

/// Rate-limit policies of the kinds of endpoints.
#[derive(Debug, Clone, Copy, PartialEq, Eq, Structural)]
pub enum EndpointPolicy {
    /// Login and token endpoints.
    Authentication {
        /// Requests per window.
        normal_limit: u64,
        /// Requests per window after failures.
        failure_limit: u64,
        /// The window.
        window: i64,
    },
    /// API endpoints.
    Api {
        /// Requests per window.
        limit: u64,
        /// The window.
        window: i64,
        /// Burst capacity.
        burst: Option<u64>,
    },
    /// Public endpoints.
    Public {
        /// Requests per window.
        limit: u64,
        /// The window.
        window: i64,
    },
    /// Administration endpoints.
    Admin {
        /// Requests per window.
        limit: u64,
        /// The window.
        window: i64,
        /// Whether further authentication is required.
        require_auth: bool,
    },
}

/// The rate limit of a policy: a token bucket with the policy's limit and
/// window, whose burst is a tenth of the limit for authentication, the given
/// burst for APIs, half the limit for public endpoints, and one request for
/// administration, whose limit also adapts.
pub open spec fn policy_config(p: EndpointPolicy) -> RateLimitConfig {
    match p {
        EndpointPolicy::Authentication { normal_limit, window, .. } => RateLimitConfig {
            limit: normal_limit,
            window,
            algorithm: RateLimitAlgorithm::TokenBucket,
            burst_capacity: Some((normal_limit / 10) as u64),
            distributed: false,
            adaptive: false,
        },
        EndpointPolicy::Api { limit, window, burst } => RateLimitConfig {
            limit,
            window,
            algorithm: RateLimitAlgorithm::TokenBucket,
            burst_capacity: burst,
            distributed: false,
            adaptive: false,
        },
        EndpointPolicy::Public { limit, window } => RateLimitConfig {
            limit,
            window,
            algorithm: RateLimitAlgorithm::TokenBucket,
            burst_capacity: Some((limit / 2) as u64),
            distributed: false,
            adaptive: false,
        },
        EndpointPolicy::Admin { limit, window, .. } => RateLimitConfig {
            limit,
            window,
            algorithm: RateLimitAlgorithm::TokenBucket,
            burst_capacity: Some(1u64),
            distributed: false,
            adaptive: true,
        },
    }
}

impl EndpointPolicy {
    /// The rate limit of the policy.
    pub fn to_config(&self) -> (c: RateLimitConfig)
        ensures
            c == policy_config(*self),
    {
        match self {
            EndpointPolicy::Authentication { normal_limit, window, .. } => RateLimitConfig {
                limit: *normal_limit,
                window: *window,
                algorithm: RateLimitAlgorithm::TokenBucket,
                burst_capacity: Some(*normal_limit / 10),
                distributed: false,
                adaptive: false,
            },
            EndpointPolicy::Api { limit, window, burst } => RateLimitConfig {
                limit: *limit,
                window: *window,
                algorithm: RateLimitAlgorithm::TokenBucket,
                burst_capacity: *burst,
                distributed: false,
                adaptive: false,
            },
            EndpointPolicy::Public { limit, window } => RateLimitConfig {
                limit: *limit,
                window: *window,
                algorithm: RateLimitAlgorithm::TokenBucket,
                burst_capacity: Some(*limit / 2),
                distributed: false,
                adaptive: false,
            },
            EndpointPolicy::Admin { limit, window, .. } => RateLimitConfig {
                limit: *limit,
                window: *window,
                algorithm: RateLimitAlgorithm::TokenBucket,
                burst_capacity: Some(1),
                distributed: false,
                adaptive: true,
            },
        }
    }

    /// Whether the policy requires further authentication: an
    /// administration policy that says so.
    pub fn requires_auth(&self) -> (r: bool)
        ensures
            r == (*self matches EndpointPolicy::Admin { require_auth, .. } && require_auth),
    {
        match self {
            EndpointPolicy::Admin { require_auth, .. } => *require_auth,
            _ => false,
        }
    }
}

/// Builds a middleware configuration from the policies of endpoints.
pub struct PolicyBuilder {
    endpoint_policies: Vec<(String, EndpointPolicy)>,
}

impl PolicyBuilder {
    /// The policies, by path.
    pub closed spec fn policies(&self) -> Seq<(String, EndpointPolicy)> {
        self.endpoint_policies@
    }

    /// The invariant of a builder: each path once.
    pub open spec fn wf(&self) -> bool {
        distinct_keys(self.policies())
    }

    /// A builder without policies.
    pub fn new() -> (b: Self)
        ensures
            b.wf(),
            b.policies().len() == 0,
    {
        PolicyBuilder { endpoint_policies: Vec::new() }
    }

    /// The builder with `policy` for `path`, in place of an earlier one.
    fn with_policy(self, path: String, policy: EndpointPolicy) -> (b: Self)
        requires
            self.wf(),
        ensures
            b.wf(),
            forall|k: Seq<char>|
                #[trigger] value_at(b.policies(), k) == if k == path@ {
                    Some(policy)
                } else {
                    value_at(self.policies(), k)
                },
    {
        let mut b = self;
        put_entry(&mut b.endpoint_policies, path, policy);
        b
    }

    /// The builder with an authentication policy for `path`.
    pub fn auth_endpoint(self, path: String, normal_limit: u64, failure_limit: u64, window: i64) -> (b:
        Self)
        requires
            self.wf(),
        ensures
            b.wf(),
            forall|k: Seq<char>|
                #[trigger] value_at(b.policies(), k) == if k == path@ {
                    Some(EndpointPolicy::Authentication { normal_limit, failure_limit, window })
                } else {
                    value_at(self.policies(), k)
                },
    {
        self.with_policy(path, EndpointPolicy::Authentication { normal_limit, failure_limit, window })
    }

    /// The builder with an API policy for `path`.
    pub fn api_endpoint(self, path: String, limit: u64, window: i64, burst: Option<u64>) -> (b: Self)
        requires
            self.wf(),
        ensures
            b.wf(),
            forall|k: Seq<char>|
                #[trigger] value_at(b.policies(), k) == if k == path@ {
                    Some(EndpointPolicy::Api { limit, window, burst })
                } else {
                    value_at(self.policies(), k)
                },
    {
        self.with_policy(path, EndpointPolicy::Api { limit, window, burst })
    }

    /// The builder with a public policy for `path`.
    pub fn public_endpoint(self, path: String, limit: u64, window: i64) -> (b: Self)
        requires
            self.wf(),
        ensures
            b.wf(),
            forall|k: Seq<char>|
                #[trigger] value_at(b.policies(), k) == if k == path@ {
                    Some(EndpointPolicy::Public { limit, window })
                } else {
                    value_at(self.policies(), k)
                },
    {
        self.with_policy(path, EndpointPolicy::Public { limit, window })
    }

    /// The builder with an administration policy for `path`.
    pub fn admin_endpoint(self, path: String, limit: u64, window: i64, require_auth: bool) -> (b: Self)
        requires
            self.wf(),
        ensures
            b.wf(),
            forall|k: Seq<char>|
                #[trigger] value_at(b.policies(), k) == if k == path@ {
                    Some(EndpointPolicy::Admin { limit, window, require_auth })
                } else {
                    value_at(self.policies(), k)
                },
    {
        self.with_policy(path, EndpointPolicy::Admin { limit, window, require_auth })
    }

    /// The default middleware configuration with the rate limit of each
    /// policy for its path.
    pub fn build(self) -> (c: MiddlewareConfig)
        requires
            self.wf(),
        ensures
            c.skip_paths@.len() == 2,
            c.skip_paths@[0]@ == "/health"@,
            c.skip_paths@[1]@ == "/metrics"@,
            c.include_headers,
            c.header_prefix@ == "X-RateLimit-"@,
            c.enable_logging,
            distinct_keys(c.endpoint_configs@),
            c.endpoint_configs@.len() == self.policies().len(),
            forall|k: Seq<char>|
                #[trigger] value_at(c.endpoint_configs@, k) == match value_at(self.policies(), k) {
                    Some(p) => Some(policy_config(p)),
                    None => None,
                },
    {
        let mut config = MiddlewareConfig::default();
        let policies = &self.endpoint_policies;
        let mut i: usize = 0;
        while i < policies.len()
            invariant
                i <= policies@.len(),
                policies@ == self.policies(),
                distinct_keys(policies@),
                config.skip_paths@.len() == 2,
                config.skip_paths@[0]@ == "/health"@,
                config.skip_paths@[1]@ == "/metrics"@,
                config.include_headers,
                config.header_prefix@ == "X-RateLimit-"@,
                config.enable_logging,
                config.endpoint_configs@.len() == i,
                forall|j: int|
                    0 <= j < i ==> (#[trigger] config.endpoint_configs@[j]).0@ == policies@[j].0@
                        && config.endpoint_configs@[j].1 == policy_config(policies@[j].1),
            decreases policies.len() - i,
        {
            let name = policies[i].0.clone();
            let limit = policies[i].1.to_config();
            config.endpoint_configs.push((name, limit));
            i = i + 1;
        }
        proof {
            let cs = config.endpoint_configs@;
            let ps = self.policies();
            assert forall|a: int, b: int|
                #![trigger cs[a], cs[b]]
                0 <= a < b < cs.len() implies cs[a].0@ != cs[b].0@ by {
                assert(cs[a].0@ == ps[a].0@ && cs[b].0@ == ps[b].0@);
                assert(ps[a].0@ != ps[b].0@);
            }
            assert forall|k: Seq<char>|
                #[trigger] value_at(cs, k) == match value_at(ps, k) {
                    Some(p) => Some(policy_config(p)),
                    None => None,
                } by {
                if exists|j: int| 0 <= j < ps.len() && #[trigger] ps[j].0@ == k {
                    let j = choose|j: int| 0 <= j < ps.len() && #[trigger] ps[j].0@ == k;
                    assert(cs[j].0@ == k);
                    let c = choose|c: int| 0 <= c < cs.len() && #[trigger] cs[c].0@ == k;
                    assert(cs[c].0@ == ps[c].0@);
                    if c != j {
                        if c < j {
                            assert(ps[c].0@ != ps[j].0@);
                        } else {
                            assert(ps[j].0@ != ps[c].0@);
                        }
                    }
                } else {
                    if exists|c: int| 0 <= c < cs.len() && #[trigger] cs[c].0@ == k {
                        let c = choose|c: int| 0 <= c < cs.len() && #[trigger] cs[c].0@ == k;
                        assert(ps[c].0@ == k);
                    }
                }
            }
        }
        config
    }
}

impl Default for PolicyBuilder {
    /// A builder without policies.
    fn default() -> (b: Self)
        ensures
            b.wf(),
            b.policies().len() == 0,
    {
        PolicyBuilder::new()
    }
}

} // verus!
