//! Per-host client settings and the program's argument shapes, as plain
//! data.
//!
//! A host's settings carry exactly one form of authentication: either a
//! username with a password, or a token. That rule is enforced once, at
//! construction; everything downstream may rely on it.

use vstd::prelude::*;

use crate::ip::IpAddr;

verus! {

/// Why a set of client settings was rejected.
#[derive(Clone, Copy, Debug, PartialEq, Eq, Structural)]
pub enum ConfigError {
    /// No authentication was given at all.
    MissingAuthentication,
    /// A username was given without a password.
    MissingPassword,
    /// A password was given without a username.
    MissingUsername,
    /// Both a token and a username or password were given.
    MultipleAuthentication,
}

/// Settings for one host's update client.
#[derive(Debug, Clone)]
pub struct ClientConfig {
    /// URL of the dynamic DNS update API.
    pub dyndns_url: String,
    /// Username, for password authentication.
    pub username: Option<String>,
    /// Password, for password authentication.
    pub password: Option<String>,
    /// Token, for token authentication.
    pub token: Option<String>,
    /// Server error retry backoff time in minutes.
    pub server_backoff: u64,
}

/// Exactly one form of authentication is present: a token alone, or a
/// username and password together.
pub open spec fn wf_client_config(c: &ClientConfig) -> bool {
    match (c.token, c.username, c.password) {
        (Some(_), None, None) => true,
        (None, Some(_), Some(_)) => true,
        _ => false,
    }
}

impl ClientConfig {
    /// Builds validated settings. Fails unless exactly one form of
    /// authentication is given, naming what is missing or duplicated.
    pub fn new(
        dyndns_url: String,
        username: Option<String>,
        password: Option<String>,
        token: Option<String>,
        server_backoff: u64,
    ) -> (r: Result<ClientConfig, ConfigError>)
        ensures
            match r {
                Ok(c) => {
                    &&& wf_client_config(&c)
                    &&& c.dyndns_url@ == dyndns_url@
                    &&& c.username == username
                    &&& c.password == password
                    &&& c.token == token
                    &&& c.server_backoff == server_backoff
                },
                Err(e) => match (token, username, password) {
                    (None, None, None) => e == ConfigError::MissingAuthentication,
                    (None, Some(_), None) => e == ConfigError::MissingPassword,
                    (None, None, Some(_)) => e == ConfigError::MissingUsername,
                    _ => e == ConfigError::MultipleAuthentication,
                },
            },
            r is Ok <==> match (token, username, password) {
                (Some(_), None, None) => true,
                (None, Some(_), Some(_)) => true,
                _ => false,
            },
    {
        match (&token, &username, &password) {
            (None, None, None) => Err(ConfigError::MissingAuthentication),
            (None, Some(_), None) => Err(ConfigError::MissingPassword),
            (None, None, Some(_)) => Err(ConfigError::MissingUsername),
            (Some(_), Some(_), _) => Err(ConfigError::MultipleAuthentication),
            (Some(_), _, Some(_)) => Err(ConfigError::MultipleAuthentication),
            _ => Ok(
                ClientConfig {
                    dyndns_url,
                    username,
                    password,
                    token,
                    server_backoff,
                },
            ),
        }
    }
}

/// The whole configuration: an optional cache directory, an optional
/// daemon polling interval in seconds, and the hosts to keep updated.
pub struct Config {
    /// Directory holding one cache file per hostname.
    pub cache_dir: Option<String>,
    /// Seconds between daemon passes.
    pub daemon_poll_interval: Option<u64>,
    /// Hostnames with their client settings.
    pub hosts: Vec<(String, ClientConfig)>,
}

/// Every host's settings are validated.
pub open spec fn wf_config(c: &Config) -> bool {
    forall|i: int| 0 <= i < c.hosts@.len() ==> wf_client_config(&c.hosts@[i].1)
}

/// Arguments for running as a long-lived daemon.
pub struct DaemonArgs {
    /// Path to the configuration file.
    pub config_file: String,
    /// Polling interval in seconds.
    pub poll_interval: Option<u64>,
}

/// Arguments for updating a single host from the command line.
pub struct HostArgs {
    /// Hostname to update.
    pub hostname: String,
    /// The host's client settings.
    pub client_config: ClientConfig,
    /// Address override.
    pub ip: Option<IpAddr>,
}

/// Arguments for clearing one host's cache entry.
pub struct ClearCacheArgs {
    /// Hostname to remove from the cache.
    pub hostname: String,
}

/// The program's subcommands.
pub enum Command {
    /// Run as a long-lived daemon.
    Daemon(DaemonArgs),
    /// Update one host with settings from the command line.
    UpdateHost(HostArgs),
    /// Clear one host's cache entry.
    ClearCache(ClearCacheArgs),
}

/// The program's arguments.
pub struct Args {
    /// Path to the cache directory.
    pub cache_dir: Option<String>,
    /// Path to the configuration file.
    pub config_file: String,
    /// Address override.
    pub ip: Option<IpAddr>,
    /// The chosen subcommand, if any.
    pub command: Option<Command>,
}

} // verus!
