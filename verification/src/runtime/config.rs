//! Configuration of the runtime: the environment, the payment provider's
//! credentials and the server. Values come from the process environment,
//! which the caller reads; this module checks and assembles them.

use vstd::prelude::*;
use crate::runtime::text::{
    byte_len, lowercase, lowercase_text, parse_port, parsed_u16, same_text, starts_with,
    starts_with_text,
};
use crate::support::join_text;

verus! {

/// Where the runtime runs.
#[derive(Debug, Clone, Copy, PartialEq, Eq, Structural)]
pub enum Environment {
    Development,
    Sandbox,
    Production,
}

/// Configuration errors.
#[derive(Debug, Clone, PartialEq)]
pub enum ConfigError {
    /// A required credential is missing.
    MissingCredential(String),
    /// A credential has an invalid form or value.
    InvalidCredential(String),
    /// The environment name is unknown.
    InvalidEnvironment(String),
}

/// The message of a configuration error.
pub open spec fn config_error_text(e: ConfigError) -> Seq<char> {
    match e {
        ConfigError::MissingCredential(s) => "Missing required credential: "@ + s@,
        ConfigError::InvalidCredential(s) => "Invalid credential: "@ + s@,
        ConfigError::InvalidEnvironment(s) => "Invalid environment: "@ + s@,
    }
}

impl ConfigError {
    /// The message of the error.
    pub fn to_text(&self) -> (r: String)
        ensures
            r@ == config_error_text(*self),
    {
        match self {
            ConfigError::MissingCredential(s) => join_text("Missing required credential: ", s.as_str()),
            ConfigError::InvalidCredential(s) => join_text("Invalid credential: ", s.as_str()),
            ConfigError::InvalidEnvironment(s) => join_text("Invalid environment: ", s.as_str()),
        }
    }
}

/// The environment a lowercase name stands for.
pub open spec fn environment_named(lower: Seq<char>) -> Option<Environment> {
    if lower == "development"@ || lower == "dev"@ {
        Some(Environment::Development)
    } else if lower == "sandbox"@ || lower == "test"@ {
        Some(Environment::Sandbox)
    } else if lower == "production"@ || lower == "prod"@ {
        Some(Environment::Production)
    } else {
        None
    }
}

/// Whether `r` is the refusal of an invalid credential with message `m`.
pub open spec fn is_invalid_credential<T>(r: Result<T, ConfigError>, m: Seq<char>) -> bool {
    r is Err && r->Err_0 is InvalidCredential && r->Err_0->InvalidCredential_0@ == m
}

impl Environment {
    /// The environment named by `lower`, the lowercase form of `original`;
    /// an unknown name is refused, quoting `original`.
    pub fn from_lowercase(lower: &str, original: &str) -> (r: Result<Environment, ConfigError>)
        ensures
            match environment_named(lower@) {
                Some(e) => r == Ok::<Environment, ConfigError>(e),
                None => r is Err && r->Err_0 is InvalidEnvironment && r->Err_0->InvalidEnvironment_0@
                    == original@,
            },
    {
        if same_text(lower, "development") || same_text(lower, "dev") {
            Ok(Environment::Development)
        } else if same_text(lower, "sandbox") || same_text(lower, "test") {
            Ok(Environment::Sandbox)
        } else if same_text(lower, "production") || same_text(lower, "prod") {
            Ok(Environment::Production)
        } else {
            Err(ConfigError::InvalidEnvironment(original.to_owned()))
        }
    }

    /// The environment named by `s`, in any case: `development` or `dev`,
    /// `sandbox` or `test`, `production` or `prod`.
    pub fn from_str(s: &str) -> (r: Result<Environment, ConfigError>)
        ensures
            match environment_named(lowercase(s@)) {
                Some(e) => r == Ok::<Environment, ConfigError>(e),
                None => r is Err && r->Err_0 is InvalidEnvironment && r->Err_0->InvalidEnvironment_0@
                    == s@,
            },
    {
        let lower = lowercase_text(s);
        Environment::from_lowercase(lower.as_str(), s)
    }

    /// The environment given by the setting `TOKA_ENV`: development when it
    /// is unset or unknown.
    pub fn from_setting(setting: Option<&str>) -> (r: Environment)
        ensures
            r == match setting {
                Some(s) => match environment_named(lowercase(s@)) {
                    Some(e) => e,
                    None => Environment::Development,
                },
                None => Environment::Development,
            },
    {
        match setting {
            Some(s) => match Environment::from_str(s) {
                Ok(e) => e,
                Err(_) => Environment::Development,
            },
            None => Environment::Development,
        }
    }
}

/// Credentials of the payment provider.
#[derive(Debug, Clone, PartialEq)]
pub struct StripeConfig {
    /// Secret API key (`sk_test_...` or `sk_live_...`).
    pub api_key: String,
    /// Secret that signs webhooks.
    pub webhook_secret: String,
    /// Whether the provider runs in test mode.
    pub test_mode: bool,
    /// The environment the credentials are for.
    pub environment: Environment,
}

/// The first problem of payment credentials, as its message.
pub open spec fn stripe_problem(c: StripeConfig) -> Option<Seq<char>> {
    if byte_len(c.api_key@) < 50 {
        Some("API key appears too short"@)
    } else if byte_len(c.webhook_secret@) < 20 {
        Some("Webhook secret appears too short"@)
    } else if c.environment == Environment::Production && c.test_mode {
        Some("Production environment cannot use test mode"@)
    } else if c.environment != Environment::Production && !c.test_mode {
        Some("Sandbox/Development environment must use test mode"@)
    } else {
        None
    }
}

impl StripeConfig {
    /// Payment credentials for `environment`: production needs a live key
    /// (`sk_live_`), the other environments a test key (`sk_test_`); test
    /// mode follows the environment.
    pub fn from_parts(api_key: String, webhook_secret: String, environment: Environment) -> (r:
        Result<StripeConfig, ConfigError>)
        ensures
            environment == Environment::Production && !starts_with_text(api_key@, "sk_live_"@)
                ==> is_invalid_credential(
                r,
                "Production environment requires live API key (sk_live_...)"@,
            ),
            environment != Environment::Production && !starts_with_text(api_key@, "sk_test_"@)
                ==> is_invalid_credential(
                r,
                "Sandbox/Development environment requires test API key (sk_test_...)"@,
            ),
            environment == Environment::Production && starts_with_text(api_key@, "sk_live_"@)
                ==> r == Ok::<StripeConfig, ConfigError>(
                StripeConfig { api_key, webhook_secret, test_mode: false, environment },
            ),
            environment != Environment::Production && starts_with_text(api_key@, "sk_test_"@)
                ==> r == Ok::<StripeConfig, ConfigError>(
                StripeConfig { api_key, webhook_secret, test_mode: true, environment },
            ),
    {
        let test_mode = match environment {
            Environment::Production => {
                if !starts_with(api_key.as_str(), "sk_live_") {
                    return Err(
                        ConfigError::InvalidCredential(
                            "Production environment requires live API key (sk_live_...)".to_owned(),
                        ),
                    );
                }
                false
            },
            _ => {
                if !starts_with(api_key.as_str(), "sk_test_") {
                    return Err(
                        ConfigError::InvalidCredential(
                            "Sandbox/Development environment requires test API key (sk_test_...)".to_owned(),
                        ),
                    );
                }
                true
            },
        };
        Ok(StripeConfig { api_key, webhook_secret, test_mode, environment })
    }

    /// Checks the credentials: keys long enough, and test mode matching the
    /// environment.
    pub fn validate(&self) -> (r: Result<(), ConfigError>)
        ensures
            match stripe_problem(*self) {
                None => r is Ok,
                Some(m) => is_invalid_credential(r, m),
            },
    {
        if self.api_key.as_str().as_bytes().len() < 50 {
            return Err(ConfigError::InvalidCredential("API key appears too short".to_owned()));
        }
        if self.webhook_secret.as_str().as_bytes().len() < 20 {
            return Err(ConfigError::InvalidCredential("Webhook secret appears too short".to_owned()));
        }
        match self.environment {
            Environment::Production => {
                if self.test_mode {
                    return Err(
                        ConfigError::InvalidCredential(
                            "Production environment cannot use test mode".to_owned(),
                        ),
                    );
                }
            },
            _ => {
                if !self.test_mode {
                    return Err(
                        ConfigError::InvalidCredential(
                            "Sandbox/Development environment must use test mode".to_owned(),
                        ),
                    );
                }
            },
        }
        Ok(())
    }
}

/// Server configuration.
#[derive(Debug, Clone, PartialEq)]
pub struct ServerConfig {
    /// Host to bind to.
    pub host: String,
    /// Port to bind to.
    pub port: u16,
    /// Base URL of the webhook endpoints.
    pub webhook_base_url: String,
}

/// The first problem of a server configuration, as its message.
pub open spec fn server_problem(c: ServerConfig) -> Option<Seq<char>> {
    if c.port == 0 {
        Some("Port cannot be 0"@)
    } else if !starts_with_text(c.webhook_base_url@, "http"@) {
        Some("Webhook base URL must start with http:// or https://"@)
    } else {
        None
    }
}

impl ServerConfig {
    /// The server configuration from the settings `SERVER_HOST` (default
    /// `127.0.0.1`), `SERVER_PORT` (default 8080, else a valid port number)
    /// and `WEBHOOK_BASE_URL` (required).
    pub fn from_parts(host: Option<String>, port: Option<String>, webhook_base_url: Option<String>) -> (r:
        Result<ServerConfig, ConfigError>)
        ensures
            match port {
                Some(p) => parsed_u16(p@) is None ==> is_invalid_credential(
                    r,
                    "SERVER_PORT must be a valid port number"@,
                ),
                None => true,
            },
            ({
                let pn = match port {
                    Some(p) => parsed_u16(p@),
                    None => Some(8080u16),
                };
                &&& pn is Some && webhook_base_url is None ==> r is Err && r->Err_0 is MissingCredential
                    && r->Err_0->MissingCredential_0@ == "WEBHOOK_BASE_URL"@
                &&& pn is Some && webhook_base_url is Some ==> r is Ok && r->Ok_0.port == pn->0
                    && r->Ok_0.webhook_base_url == webhook_base_url->0 && r->Ok_0.host@ == match host {
                    Some(h) => h@,
                    None => "127.0.0.1"@,
                }
            }),
    {
        let host = match host {
            Some(h) => h,
            None => "127.0.0.1".to_owned(),
        };
        let port_number = match port {
            Some(p) => match parse_port(p.as_str()) {
                Some(n) => n,
                None => {
                    return Err(
                        ConfigError::InvalidCredential(
                            "SERVER_PORT must be a valid port number".to_owned(),
                        ),
                    );
                },
            },
            None => 8080,
        };
        let webhook_base_url = match webhook_base_url {
            Some(u) => u,
            None => {
                return Err(ConfigError::MissingCredential("WEBHOOK_BASE_URL".to_owned()));
            },
        };
        Ok(ServerConfig { host, port: port_number, webhook_base_url })
    }

    /// Checks the server configuration: a port other than 0, and a webhook
    /// base URL that starts with `http`.
    pub fn validate(&self) -> (r: Result<(), ConfigError>)
        ensures
            match server_problem(*self) {
                None => r is Ok,
                Some(m) => is_invalid_credential(r, m),
            },
    {
        if self.port == 0 {
            return Err(ConfigError::InvalidCredential("Port cannot be 0".to_owned()));
        }
        if !starts_with(self.webhook_base_url.as_str(), "http") {
            return Err(
                ConfigError::InvalidCredential(
                    "Webhook base URL must start with http:// or https://".to_owned(),
                ),
            );
        }
        Ok(())
    }
}

/// The whole runtime configuration.
#[derive(Debug, Clone, PartialEq)]
pub struct RuntimeConfig {
    /// Payment provider credentials.
    pub stripe: StripeConfig,
    /// Server configuration.
    pub server: ServerConfig,
    /// Current environment.
    pub environment: Environment,
}

impl RuntimeConfig {
    /// The runtime configuration from its parts: refused when the payment
    /// credentials are for another environment, or when a part is invalid.
    pub fn from_parts(stripe: StripeConfig, server: ServerConfig, environment: Environment) -> (r:
        Result<RuntimeConfig, ConfigError>)
        ensures
            stripe.environment != environment ==> is_invalid_credential(
                r,
                "Stripe config environment doesn't match runtime environment"@,
            ),
            stripe.environment == environment ==> match (stripe_problem(stripe), server_problem(server)) {
                (Some(m), _) => is_invalid_credential(r, m),
                (None, Some(m)) => is_invalid_credential(r, m),
                (None, None) => r == Ok::<RuntimeConfig, ConfigError>(
                    RuntimeConfig { stripe, server, environment },
                ),
            },
    {
        if stripe.environment != environment {
            return Err(
                ConfigError::InvalidCredential(
                    "Stripe config environment doesn't match runtime environment".to_owned(),
                ),
            );
        }
        let config = RuntimeConfig { stripe, server, environment };
        match config.validate() {
            Ok(()) => Ok(config),
            Err(e) => Err(e),
        }
    }

    /// Checks the payment credentials, then the server configuration.
    pub fn validate(&self) -> (r: Result<(), ConfigError>)
        ensures
            match (stripe_problem(self.stripe), server_problem(self.server)) {
                (Some(m), _) => is_invalid_credential(r, m),
                (None, Some(m)) => is_invalid_credential(r, m),
                (None, None) => r is Ok,
            },
    {
        match self.stripe.validate() {
            Ok(()) => {},
            Err(e) => {
                return Err(e);
            },
        }
        self.server.validate()
    }
}

} // verus!
