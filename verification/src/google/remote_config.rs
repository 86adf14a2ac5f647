//! The remote configuration document: where the tunnel address is read
//! from, and the text that is sent back with the new address.
use vstd::prelude::*;

use crate::text::{chars_of, remove_chars, string_of, without_chars};

verus! {

/// The path, after the service's base address, of the project's remote
/// configuration.
pub const REMOTE_CONFIG_PATH: &'static str = "/v1/projects/ebisu-mobile/remoteConfig";

/// How many times a configuration request is attempted.
pub const MAX_ATTEMPTS: u32 = 3;

/// The pause between two attempts, in seconds.
pub const RETRY_PAUSE_SECS: u64 = 5;

/// Why no configuration could be had.
#[derive(Debug, Clone, Copy, PartialEq, Eq, Structural)]
pub enum ConfigError {
    /// The service's answer is not a configuration document.
    Undecodable,
}

/// A parameter's default value.
pub struct RemoveConfigValue {
    pub value: String,
}

/// A configuration parameter.
pub struct RemoteConfigParameter {
    pub default_value: RemoveConfigValue,
}

/// The parameters that are read: the tunnel endpoint (`FIRELINK_ENDPOINT`).
pub struct RemoteConfigParameters {
    pub firelink_endpoint: RemoteConfigParameter,
}

/// The configuration document, as far as it is read.
pub struct Config {
    pub parameters: RemoteConfigParameters,
}

impl Config {
    /// The default value of the `FIRELINK_ENDPOINT` parameter.
    pub open spec fn firelink_endpoint_spec(&self) -> Seq<char> {
        self.parameters.firelink_endpoint.default_value.value@
    }

    /// The default value of the `FIRELINK_ENDPOINT` parameter.
    pub fn firelink_endpoint(&self) -> (endpoint: String)
        ensures
            endpoint@ == self.firelink_endpoint_spec(),
    {
        self.parameters.firelink_endpoint.default_value.value.clone()
    }
}

/// The configuration as read, with the text it was read from.
pub struct Manager {
    pub config: Config,
    pub raw: String,
}

impl Manager {
    /// The manager for a configuration document: `parsed` is the document
    /// read from `raw`, or `None` when `raw` could not be read as one.
    pub fn from_response(parsed: Option<Config>, raw: String) -> (manager: Result<Manager, ConfigError>)
        ensures
            parsed is None <==> manager is Err,
            manager matches Ok(m) ==> m.config == parsed->0 && m.raw@ == raw@,
    {
        match parsed {
            Some(config) => Ok(Manager { config, raw }),
            None => Err(ConfigError::Undecodable),
        }
    }

    /// The address of the registered tunnel: the `FIRELINK_ENDPOINT` value.
    pub fn get_patient(&self) -> (patient: String)
        ensures
            patient@ == self.config.firelink_endpoint_spec(),
    {
        self.config.firelink_endpoint()
    }

    /// The configuration text without line feeds and tabs, to be sent back.
    pub fn get_skeleton(&self) -> (skeleton: String)
        ensures
            skeleton@ == without_chars(self.raw@, '\n', '\t'),
    {
        let chars = chars_of(self.raw.as_str());
        string_of(&remove_chars(&chars, '\n', '\t'))
    }
}

/// The address of the project's remote configuration on the service at
/// `base`.
pub fn remote_config_endpoint(base: &str) -> (endpoint: String)
    ensures
        endpoint@ == base@ + REMOTE_CONFIG_PATH@,
{
    let mut endpoint = String::from_str(base);
    endpoint.append(REMOTE_CONFIG_PATH);
    endpoint
}

/// Whether an update was accepted: `status` is the response's status code,
/// or `None` when the request failed. Accepted exactly on a 2xx status.
pub fn update_accepted(status: Option<u16>) -> (accepted: bool)
    ensures
        accepted == (status matches Some(code) && 200 <= code <= 299),
{
    match status {
        Some(code) => 200 <= code && code <= 299,
        None => false,
    }
}

} // verus!
