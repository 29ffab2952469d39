//! The settings of the service, decided from the values of its environment
//! variables.
use vstd::prelude::*;
use vstd::string::*;
use crate::text::str_eq;

verus! {

#[derive(Debug, PartialEq, Eq, Structural)]
pub enum ConfigError {
    MissingEncryptionKey,
    MissingAccessKeyId,
    MissingAccessKeySecret,
    InvalidUseHttps,
}

impl ConfigError {
    /// The message shown for the error.
    pub fn message(&self) -> (r: String)
        ensures
            r@ == match self {
                ConfigError::MissingEncryptionKey => "Must specify SM_ENCRYPTION_KEY environment variable"@,
                ConfigError::MissingAccessKeyId => "Must specify SM_ACCESS_KEY_ID environment variable"@,
                ConfigError::MissingAccessKeySecret => "Must specify SM_ACCESS_KEY_SECRET environment variable"@,
                ConfigError::InvalidUseHttps => "SM_USE_HTTPS must be either true or false"@,
            },
    {
        match self {
            ConfigError::MissingEncryptionKey => String::from_str(
                "Must specify SM_ENCRYPTION_KEY environment variable",
            ),
            ConfigError::MissingAccessKeyId => String::from_str(
                "Must specify SM_ACCESS_KEY_ID environment variable",
            ),
            ConfigError::MissingAccessKeySecret => String::from_str(
                "Must specify SM_ACCESS_KEY_SECRET environment variable",
            ),
            ConfigError::InvalidUseHttps => String::from_str(
                "SM_USE_HTTPS must be either true or false",
            ),
        }
    }
}

/// The settings, before the server address is read as a socket address.
pub struct Settings {
    pub encryption_key: String,
    pub access_key_id: String,
    pub access_key_secret: String,
    pub database_path: String,
    pub use_https: bool,
    /// The address asked for, if any; else the default of the protocol.
    pub server_address: String,
    pub certificate_path: String,
    pub private_key_path: String,
}

/// The raw values of the environment variables, `None` where unset.
pub struct Environment {
    pub encryption_key: Option<String>,
    pub access_key_id: Option<String>,
    pub access_key_secret: Option<String>,
    pub database_path: Option<String>,
    pub use_https: Option<String>,
    pub server_address: Option<String>,
    pub certificate_path: Option<String>,
    pub private_key_path: Option<String>,
}

fn or_default(v: Option<String>, default: &str) -> (r: String)
    ensures
        r@ == match v {
            Some(s) => s@,
            None => default@,
        },
{
    match v {
        Some(s) => s,
        None => String::from_str(default),
    }
}

impl Settings {
    /// The settings: the three secrets are required, `SM_USE_HTTPS` must be
    /// `true` or `false` where set, the rest have defaults.
    pub fn from_environment(env: Environment) -> (r: Result<Settings, ConfigError>)
        ensures
            env.encryption_key is None ==> r == Err::<Settings, ConfigError>(
                ConfigError::MissingEncryptionKey,
            ),
            env.encryption_key is Some && env.access_key_id is None ==> r == Err::<
                Settings,
                ConfigError,
            >(ConfigError::MissingAccessKeyId),
            env.encryption_key is Some && env.access_key_id is Some && env.access_key_secret is None
                ==> r == Err::<Settings, ConfigError>(ConfigError::MissingAccessKeySecret),
            env.encryption_key is Some && env.access_key_id is Some && env.access_key_secret is Some
                ==> match env.use_https {
                Some(u) => if u@ == "true"@ || u@ == "false"@ {
                    r matches Ok(s) && s.use_https == (u@ == "true"@)
                } else {
                    r == Err::<Settings, ConfigError>(ConfigError::InvalidUseHttps)
                },
                None => r matches Ok(s) && !s.use_https,
            },
            r matches Ok(s) ==> {
                &&& env.encryption_key matches Some(k) && s.encryption_key@ == k@
                &&& env.access_key_id matches Some(k) && s.access_key_id@ == k@
                &&& env.access_key_secret matches Some(k) && s.access_key_secret@ == k@
                &&& s.certificate_path@ == match env.certificate_path {
                    Some(p) => p@,
                    None => "sm.cert.pem"@,
                }
                &&& s.private_key_path@ == match env.private_key_path {
                    Some(p) => p@,
                    None => "sm.key.pem"@,
                }
                &&& s.database_path@ == match env.database_path {
                    Some(p) => p@,
                    None => "secrets.db"@,
                }
                &&& s.server_address@ == match env.server_address {
                    Some(a) => a@,
                    None => if s.use_https {
                        "0.0.0.0:8443"@
                    } else {
                        "0.0.0.0:8080"@
                    },
                }
            },
    {
        let encryption_key = match env.encryption_key {
            Some(v) => v,
            None => {
                return Err(ConfigError::MissingEncryptionKey);
            },
        };
        let access_key_id = match env.access_key_id {
            Some(v) => v,
            None => {
                return Err(ConfigError::MissingAccessKeyId);
            },
        };
        let access_key_secret = match env.access_key_secret {
            Some(v) => v,
            None => {
                return Err(ConfigError::MissingAccessKeySecret);
            },
        };
        let use_https = match &env.use_https {
            Some(u) => if str_eq(u.as_str(), "true") {
                true
            } else if str_eq(u.as_str(), "false") {
                false
            } else {
                return Err(ConfigError::InvalidUseHttps);
            },
            None => false,
        };
        let server_address = match env.server_address {
            Some(a) => a,
            None => if use_https {
                String::from_str("0.0.0.0:8443")
            } else {
                String::from_str("0.0.0.0:8080")
            },
        };
        Ok(
            Settings {
                encryption_key,
                access_key_id,
                access_key_secret,
                database_path: or_default(env.database_path, "secrets.db"),
                use_https,
                server_address,
                certificate_path: or_default(env.certificate_path, "sm.cert.pem"),
                private_key_path: or_default(env.private_key_path, "sm.key.pem"),
            },
        )
    }
}

} // verus!
