//! Application-wide configuration: the provider catalogue, the server
//! address, and feature switches, with validation and layered merging.
//!
//! Reading and deserializing a configuration file happens outside the
//! library; what is owned and proved here is the validation rule (provider
//! names unique, the default provider must exist) and the merge rule
//! (partial overrides take precedence field by field).

use vstd::prelude::*;

use crate::error::Error;
use crate::text::str_eq;

verus! {

/// Which kind of completion service a provider entry talks to.
#[derive(Debug, Clone, Copy, PartialEq, Eq, Structural)]
pub enum ProviderType {
    OpenAI,
    Anthropic,
    Google,
    Local,
}

/// Request-rate limits of one provider.
#[derive(Debug, Clone, Copy, PartialEq, Eq, Structural)]
pub struct RateLimitConfig {
    pub requests_per_minute: u32,
    pub tokens_per_minute: u32,
}

/// One configured completion provider.
#[derive(Debug)]
pub struct ProviderConfig {
    pub name: String,
    pub provider_type: ProviderType,
    pub api_key: String,
    pub base_url: Option<String>,
    pub models: Vec<String>,
    pub rate_limit: Option<RateLimitConfig>,
}

/// Mathematical image of a `ProviderConfig`.
pub ghost struct ProviderConfigView {
    pub name: Seq<char>,
    pub provider_type: ProviderType,
    pub api_key: Seq<char>,
    pub base_url: Option<Seq<char>>,
    pub models: Seq<Seq<char>>,
    pub rate_limit: Option<RateLimitConfig>,
}

impl View for ProviderConfig {
    type V = ProviderConfigView;

    open spec fn view(&self) -> ProviderConfigView {
        ProviderConfigView {
            name: self.name@,
            provider_type: self.provider_type,
            api_key: self.api_key@,
            base_url: match self.base_url {
                Some(ref u) => Some(u@),
                None => None,
            },
            models: self.models@.map_values(|m: String| m@),
            rate_limit: self.rate_limit,
        }
    }
}

/// Address the embedded server binds to.
#[derive(Debug)]
pub struct ServerConfig {
    pub host: String,
    pub port: u16,
}

impl Default for ServerConfig {
    fn default() -> (r: Self)
        ensures
            r.host@ == "127.0.0.1"@,
            r.port == 3000,
    {
        ServerConfig { host: String::from_str("127.0.0.1"), port: 3000 }
    }
}

/// Feature switches.
#[derive(Debug, Clone, Copy, PartialEq, Eq, Structural)]
pub struct FeaturesConfig {
    pub streaming_enabled: bool,
    pub function_calling_enabled: bool,
}

impl Default for FeaturesConfig {
    fn default() -> (r: Self)
        ensures
            !r.streaming_enabled,
            !r.function_calling_enabled,
    {
        FeaturesConfig { streaming_enabled: false, function_calling_enabled: false }
    }
}

/// The whole application configuration.
#[derive(Debug)]
pub struct AppConfig {
    pub providers: Vec<ProviderConfig>,
    pub default_provider: Option<String>,
    pub server: ServerConfig,
    pub features: FeaturesConfig,
}

impl Default for AppConfig {
    fn default() -> (r: Self)
        ensures
            r.providers@.len() == 0,
            r.default_provider is None,
            r.server.host@ == "127.0.0.1"@,
            r.server.port == 3000,
            !r.features.streaming_enabled,
            !r.features.function_calling_enabled,
    {
        AppConfig {
            providers: Vec::new(),
            default_provider: None,
            server: ServerConfig::default(),
            features: FeaturesConfig::default(),
        }
    }
}

/// The names of the providers in `s`.
pub open spec fn provider_names(s: Seq<ProviderConfig>) -> Seq<Seq<char>> {
    s.map_values(|p: ProviderConfig| p.name@)
}

/// Partial override of the whole configuration.
#[derive(Debug)]
pub struct PartialAppConfig {
    pub providers: Option<Vec<ProviderConfig>>,
    pub default_provider: Option<Option<String>>,
    pub server: Option<PartialServerConfig>,
    pub features: Option<PartialFeaturesConfig>,
}

/// Partial override of the server address.
#[derive(Debug)]
pub struct PartialServerConfig {
    pub host: Option<String>,
    pub port: Option<u16>,
}

/// Partial override of the feature switches.
#[derive(Debug, Clone, Copy)]
pub struct PartialFeaturesConfig {
    pub streaming_enabled: Option<bool>,
    pub function_calling_enabled: Option<bool>,
}

impl AppConfig {
    /// Checks the two well-formedness rules: provider names are unique, and
    /// the default provider, when set, names a configured provider. Fails
    /// with a configuration error naming the violated rule, exactly when a
    /// rule is violated.
    pub fn validate(&self) -> (r: Result<(), Error>)
        ensures
            r is Ok <==> {
                &&& forall|i: int, j: int|
                    0 <= i < j < self.providers@.len() ==> provider_names(self.providers@)[i]
                        != provider_names(self.providers@)[j]
                &&& (self.default_provider matches Some(d) ==> provider_names(
                    self.providers@,
                ).contains(d@))
            },
            r matches Err(e) ==> e is Config,
    {
        let n = self.providers.len();
        let mut i: usize = 0;
        while i < n
            invariant
                i <= n,
                n == self.providers@.len(),
                forall|a: int, b: int|
                    0 <= a < b < self.providers@.len() && a < i ==> provider_names(
                        self.providers@,
                    )[a] != provider_names(self.providers@)[b],
            decreases n - i,
        {
            let mut j = i + 1;
            while j < n
                invariant
                    i < j <= n,
                    n == self.providers@.len(),
                    forall|b: int|
                        i < b < j ==> provider_names(self.providers@)[i as int] != provider_names(
                            self.providers@,
                        )[b],
                decreases n - j,
            {
                if str_eq(self.providers[i].name.as_str(), self.providers[j].name.as_str()) {
                    proof {
                        assert(provider_names(self.providers@)[i as int] == self.providers@[i as int].name@);
                        assert(provider_names(self.providers@)[j as int] == self.providers@[j as int].name@);
                        assert(provider_names(self.providers@)[i as int] == provider_names(
                            self.providers@,
                        )[j as int]);
                    }
                    let msg = String::from_str("Duplicate provider name: ").concat(
                        self.providers[j].name.as_str(),
                    );
                    return Err(Error::Config(msg));
                }
                j += 1;
            }
            i += 1;
        }
        if let Some(d) = &self.default_provider {
            let mut k: usize = 0;
            while k < n
                invariant
                    k <= n,
                    n == self.providers@.len(),
                    forall|a: int, b: int|
                        0 <= a < b < self.providers@.len() ==> provider_names(self.providers@)[a]
                            != provider_names(self.providers@)[b],
                    self.default_provider matches Some(dd) && dd@ == d@,
                    forall|b: int| 0 <= b < k ==> provider_names(self.providers@)[b] != d@,
                decreases n - k,
            {
                if str_eq(self.providers[k].name.as_str(), d.as_str()) {
                    proof {
                        assert(provider_names(self.providers@)[k as int] == d@);
                    }
                    return Ok(());
                }
                k += 1;
            }
            proof {
                assert(!provider_names(self.providers@).contains(d@));
            }
            let msg = String::from_str("Default provider '").concat(d.as_str()).concat(
                "' not found",
            );
            return Err(Error::Config(msg));
        }
        Ok(())
    }

    /// Merges a partial configuration over this one: every field the partial
    /// sets replaces the corresponding field here, everything else is kept.
    pub fn merge(self, partial: PartialAppConfig) -> (r: AppConfig)
        ensures
            r.providers@ == (match partial.providers {
                Some(p) => p@,
                None => self.providers@,
            }),
            r.default_provider == (match partial.default_provider {
                Some(d) => d,
                None => self.default_provider,
            }),
            r.server.host@ == (match partial.server {
                Some(s) => match s.host {
                    Some(h) => h@,
                    None => self.server.host@,
                },
                None => self.server.host@,
            }),
            r.server.port == (match partial.server {
                Some(s) => match s.port {
                    Some(p) => p,
                    None => self.server.port,
                },
                None => self.server.port,
            }),
            r.features.streaming_enabled == (match partial.features {
                Some(f) => match f.streaming_enabled {
                    Some(b) => b,
                    None => self.features.streaming_enabled,
                },
                None => self.features.streaming_enabled,
            }),
            r.features.function_calling_enabled == (match partial.features {
                Some(f) => match f.function_calling_enabled {
                    Some(b) => b,
                    None => self.features.function_calling_enabled,
                },
                None => self.features.function_calling_enabled,
            }),
    {
        let mut merged = self;
        if let Some(providers) = partial.providers {
            merged.providers = providers;
        }
        if let Some(default) = partial.default_provider {
            merged.default_provider = default;
        }
        if let Some(server) = partial.server {
            if let Some(host) = server.host {
                merged.server.host = host;
            }
            if let Some(port) = server.port {
                merged.server.port = port;
            }
        }
        if let Some(features) = partial.features {
            if let Some(streaming) = features.streaming_enabled {
                merged.features.streaming_enabled = streaming;
            }
            if let Some(function_calling) = features.function_calling_enabled {
                merged.features.function_calling_enabled = function_calling;
            }
        }
        merged
    }

    /// The first configured provider named `name`, if any.
    pub fn get_provider(&self, name: &str) -> (r: Option<&ProviderConfig>)
        ensures
            r matches Some(p) ==> exists|k: int|
                0 <= k < self.providers@.len() && self.providers@[k] == *p && p.name@ == name@
                    && (forall|b: int| 0 <= b < k ==> provider_names(self.providers@)[b] != name@),
            r is None ==> !provider_names(self.providers@).contains(name@),
    {
        let mut k: usize = 0;
        while k < self.providers.len()
            invariant
                k <= self.providers@.len(),
                forall|b: int| 0 <= b < k ==> provider_names(self.providers@)[b] != name@,
            decreases self.providers@.len() - k,
        {
            if str_eq(self.providers[k].name.as_str(), name) {
                return Some(&self.providers[k]);
            }
            k += 1;
        }
        proof {
            assert(!provider_names(self.providers@).contains(name@));
        }
        None
    }
}

} // verus!
