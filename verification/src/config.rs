//! Configuration of the application: the provider defaults and the
//! precedence rule that values from the environment override values from a
//! configuration file, which override the built-in defaults.
//!
//! The library works on plain values: the surrounding binary reads the
//! configuration file and the environment and hands the raw strings in; the
//! numeric settings are parsed and checked here.

use vstd::prelude::*;

use crate::error::Error;
use crate::text::{is_u32_numeral, parse_u32, spec_digits_val, spec_numeric_body};

verus! {

/// Settings of the OpenAI-compatible provider.
#[derive(Debug)]
pub struct OpenAIConfig {
    pub default_model: String,
    pub api_base: String,
    pub max_retries: u32,
    pub timeout_seconds: u32,
}

/// Mathematical image of an `OpenAIConfig`.
pub ghost struct OpenAIConfigView {
    pub default_model: Seq<char>,
    pub api_base: Seq<char>,
    pub max_retries: u32,
    pub timeout_seconds: u32,
}

impl View for OpenAIConfig {
    type V = OpenAIConfigView;

    open spec fn view(&self) -> OpenAIConfigView {
        OpenAIConfigView {
            default_model: self.default_model@,
            api_base: self.api_base@,
            max_retries: self.max_retries,
            timeout_seconds: self.timeout_seconds,
        }
    }
}

impl Clone for OpenAIConfig {
    fn clone(&self) -> (r: Self)
        ensures
            r@ == self@,
    {
        OpenAIConfig {
            default_model: self.default_model.clone(),
            api_base: self.api_base.clone(),
            max_retries: self.max_retries,
            timeout_seconds: self.timeout_seconds,
        }
    }
}

/// The built-in defaults of `OpenAIConfig`.
pub open spec fn spec_default_openai() -> OpenAIConfigView {
    OpenAIConfigView {
        default_model: "gpt-4"@,
        api_base: "https://api.openai.com/v1"@,
        max_retries: 3,
        timeout_seconds: 30,
    }
}

impl Default for OpenAIConfig {
    fn default() -> (r: Self)
        ensures
            r@ == spec_default_openai(),
    {
        OpenAIConfig {
            default_model: String::from_str("gpt-4"),
            api_base: String::from_str("https://api.openai.com/v1"),
            max_retries: 3,
            timeout_seconds: 30,
        }
    }
}

/// Main configuration structure.
#[derive(Debug)]
pub struct Config {
    pub openai: OpenAIConfig,
}

impl View for Config {
    type V = OpenAIConfigView;

    open spec fn view(&self) -> OpenAIConfigView {
        self.openai@
    }
}

impl Clone for Config {
    fn clone(&self) -> (r: Self)
        ensures
            r@ == self@,
    {
        Config { openai: self.openai.clone() }
    }
}

impl Default for Config {
    fn default() -> (r: Self)
        ensures
            r@ == spec_default_openai(),
    {
        Config { openai: OpenAIConfig::default() }
    }
}

/// The raw environment settings, exactly as read from the process
/// environment by the caller: `None` where a variable is unset.
#[derive(Debug, Default)]
pub struct EnvSettings {
    pub model: Option<String>,
    pub api_base: Option<String>,
    pub max_retries: Option<String>,
    pub timeout_seconds: Option<String>,
}

impl EnvSettings {
    /// No environment overrides at all.
    pub fn none() -> (r: EnvSettings)
        ensures
            r.model is None,
            r.api_base is None,
            r.max_retries is None,
            r.timeout_seconds is None,
    {
        EnvSettings { model: None, api_base: None, max_retries: None, timeout_seconds: None }
    }
}

/// Are the numeric environment settings well-formed decimal numbers?
pub open spec fn env_numerals_ok(env: &EnvSettings) -> bool {
    &&& (env.max_retries matches Some(s) ==> is_u32_numeral(s@))
    &&& (env.timeout_seconds matches Some(s) ==> is_u32_numeral(s@))
}

/// The configuration that `base` becomes under the overrides in `env`.
pub open spec fn spec_with_env(base: OpenAIConfigView, env: &EnvSettings) -> OpenAIConfigView {
    OpenAIConfigView {
        default_model: match env.model {
            Some(m) => m@,
            None => base.default_model,
        },
        api_base: match env.api_base {
            Some(a) => a@,
            None => base.api_base,
        },
        max_retries: match env.max_retries {
            Some(s) => spec_digits_val(spec_numeric_body(s@)) as u32,
            None => base.max_retries,
        },
        timeout_seconds: match env.timeout_seconds {
            Some(s) => spec_digits_val(spec_numeric_body(s@)) as u32,
            None => base.timeout_seconds,
        },
    }
}

impl Config {
    /// Applies the environment overrides in `env` to this configuration.
    /// Fails with a configuration error exactly when a numeric variable is
    /// set to something that is not an unsigned decimal number in range; the
    /// configuration is unchanged then.
    fn apply_env(&mut self, env: &EnvSettings) -> (r: Result<(), Error>)
        ensures
            r is Ok <==> env_numerals_ok(env),
            r is Ok ==> final(self)@ == spec_with_env(old(self)@, env),
            r matches Err(e) ==> e is Config && final(self)@ == old(self)@,
    {
        let retries: Option<u32> = match &env.max_retries {
            Some(s) => {
                match parse_u32(s.as_str()) {
                    Some(v) => Some(v),
                    None => {
                        return Err(
                            Error::Config(String::from_str("Invalid OPENAI_MAX_RETRIES value")),
                        );
                    },
                }
            },
            None => None,
        };
        let timeout: Option<u32> = match &env.timeout_seconds {
            Some(s) => {
                match parse_u32(s.as_str()) {
                    Some(v) => Some(v),
                    None => {
                        return Err(
                            Error::Config(String::from_str("Invalid OPENAI_TIMEOUT value")),
                        );
                    },
                }
            },
            None => None,
        };
        if let Some(m) = &env.model {
            self.openai.default_model = m.clone();
        }
        if let Some(a) = &env.api_base {
            self.openai.api_base = a.clone();
        }
        if let Some(v) = retries {
            self.openai.max_retries = v;
        }
        if let Some(v) = timeout {
            self.openai.timeout_seconds = v;
        }
        Ok(())
    }

    /// The configuration read from the environment alone: the defaults with
    /// the overrides in `env` applied.
    pub fn from_env(env: &EnvSettings) -> (r: Result<Config, Error>)
        ensures
            r is Ok <==> env_numerals_ok(env),
            r matches Ok(c) ==> c@ == spec_with_env(spec_default_openai(), env),
            r matches Err(e) ==> e is Config,
    {
        let mut c = Config::default();
        match c.apply_env(env) {
            Ok(()) => Ok(c),
            Err(e) => Err(e),
        }
    }

    /// The loading rule: start from the file's configuration where one was
    /// given, else from the defaults, and let environment variables take
    /// precedence. Fails exactly when a numeric environment variable is
    /// malformed.
    pub fn load(file_config: Option<Config>, env: &EnvSettings) -> (r: Result<Config, Error>)
        ensures
            r is Ok <==> env_numerals_ok(env),
            r matches Ok(c) ==> (file_config matches Some(f) ==> c@ == spec_with_env(f@, env)),
            r matches Ok(c) ==> (file_config is None ==> c@ == spec_with_env(
                spec_default_openai(),
                env,
            )),
            r matches Err(e) ==> e is Config,
    {
        let mut c = match file_config {
            Some(f) => f,
            None => Config::default(),
        };
        match c.apply_env(env) {
            Ok(()) => Ok(c),
            Err(e) => Err(e),
        }
    }
}

} // verus!
