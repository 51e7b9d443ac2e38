//! The command line's model and the rules that pick the realm and seed file.
use crate::config::Config;
use crate::release::text_eq;
use std::path::PathBuf;
use vstd::prelude::*;

verus! {

/// Command-line settings: an optional realm, an optional seed file and the
/// command to run.
#[derive(Debug)]
pub struct Cli {
    pub realm: Option<String>,
    pub seed_file: Option<PathBuf>,
    pub command: Commands,
}

#[derive(Debug)]
#[allow(inconsistent_fields)]
pub enum Commands {
    /// Age encryption keys and operations
    Age { action: AgeAction },
    /// SSH keys and operations
    Ssh { action: SshAction },
    /// Ed25519 signing keys and operations
    Sign { action: SignAction },
    /// Passwords, mnemonics, and raw bytes
    Derive { action: DeriveAction },
    /// Status, configuration sources, and derived keys
    Status,
    /// Update to the latest release
    Update { check: bool },
    /// Set a configuration value
    SetValue { key: String, value: String },
    /// Get a configuration value
    Get { key: String },
}

#[derive(Debug)]
pub enum AgeAction {
    /// Show the age public key
    Pub,
    /// Show the age private key
    Key,
    /// Encrypt a file with age
    Encrypt {
        recipients: Vec<String>,
        recipient_files: Vec<PathBuf>,
        self_: bool,
        passphrase: bool,
        armor: bool,
        output: Option<PathBuf>,
        file: Option<PathBuf>,
    },
    /// Decrypt a file with age
    Decrypt { key: Option<PathBuf>, passphrase: bool, output: Option<PathBuf>, file: Option<PathBuf> },
}

#[derive(Debug)]
pub enum SshAction {
    /// Show the SSH public key
    Pub,
    /// Show the SSH private key
    Key,
    /// Add the SSH key to the agent
    Add { lifetime: Option<u32>, confirm: bool },
}

#[derive(Debug)]
pub enum SignAction {
    /// Show the signing public key
    Pub,
    /// Sign data
    Data { output: Option<PathBuf>, binary: bool, file: Option<PathBuf> },
    /// Verify a signature (base64, or @file)
    Verify { signature: String, pubkey: Option<String>, file: Option<PathBuf> },
}

#[derive(Debug)]
pub enum DeriveAction {
    /// Derive the password of a site
    Password { site: String, length: usize, no_symbols: bool, symbols: String, counter: u32 },
    /// Derive a BIP39 mnemonic
    Mnemonic { words: usize },
    /// Derive raw bytes
    Raw { path: String, length: usize, hex: bool, base64: bool, binary: bool },
}

/// The realm in force: the one given on the command line, else the one of the
/// loaded configuration, else "default".
pub open spec fn realm_in_force(flag: Option<String>, loaded: Option<&Config>) -> Seq<char> {
    if flag is Some {
        flag->Some_0@
    } else if loaded is Some && loaded->Some_0.realm is Some {
        loaded->Some_0.realm->Some_0@
    } else {
        "default"@
    }
}

/// A key of the configuration file that `set` and `get` accept.
#[derive(Debug, Clone, Copy, PartialEq, Eq, Structural)]
pub enum ConfigKey {
    Realm,
    SeedFile,
}

/// Where a setting in force came from, in priority order.
#[derive(Debug, Clone, Copy, PartialEq, Eq, Structural)]
pub enum SettingSource {
    Flag,
    Env,
    Config,
    Default,
}

/// Reads a configuration key: "realm" or "seed-file".
pub fn config_key(key: &str) -> (r: Option<ConfigKey>)
    ensures
        r == if key@ == "realm"@ {
            Some(ConfigKey::Realm)
        } else if key@ == "seed-file"@ {
            Some(ConfigKey::SeedFile)
        } else {
            None::<ConfigKey>
        },
{
    if text_eq(key, "realm") {
        Some(ConfigKey::Realm)
    } else if text_eq(key, "seed-file") {
        Some(ConfigKey::SeedFile)
    } else {
        None
    }
}

/// Where the realm in force came from. A flag and the environment variable
/// reach the program the same way; the variable is named when it is set.
pub fn realm_source(flag: bool, env: bool, config: bool) -> (r: SettingSource)
    ensures
        r == if flag && !env {
            SettingSource::Flag
        } else if env {
            SettingSource::Env
        } else if config {
            SettingSource::Config
        } else {
            SettingSource::Default
        },
{
    if flag && !env {
        SettingSource::Flag
    } else if env {
        SettingSource::Env
    } else if config {
        SettingSource::Config
    } else {
        SettingSource::Default
    }
}

/// Where the seed file in force came from, given that there is one.
pub fn seed_file_source(flag: bool, env: bool) -> (r: SettingSource)
    ensures
        r == if flag && !env {
            SettingSource::Flag
        } else if env {
            SettingSource::Env
        } else {
            SettingSource::Config
        },
{
    if flag && !env {
        SettingSource::Flag
    } else if env {
        SettingSource::Env
    } else {
        SettingSource::Config
    }
}

/// Encryption is to the user's own key when asked for, or when no other
/// recipient is named.
pub fn encrypts_to_self(self_: bool, recipients: usize, recipient_files: usize) -> (r: bool)
    ensures
        r == (self_ || (recipients == 0 && recipient_files == 0)),
{
    self_ || (recipients == 0 && recipient_files == 0)
}

impl Cli {
    /// The realm to work in; `loaded` is the configuration, if it could be read.
    pub fn get_realm(&self, loaded: Option<&Config>) -> (r: String)
        ensures
            r@ == realm_in_force(self.realm, loaded),
    {
        if let Some(r) = &self.realm {
            return r.clone();
        }
        if let Some(config) = loaded {
            if let Some(r) = &config.realm {
                return r.clone();
            }
        }
        "default".to_owned()
    }

    /// The seed file to read: the one given on the command line, else the one
    /// of the configuration, if it could be read.
    pub fn get_seed_file(&self, loaded: Option<&Config>) -> (r: Option<PathBuf>)
        ensures
            r == if self.seed_file is Some {
                self.seed_file
            } else if loaded is Some {
                loaded->Some_0.seed_file
            } else {
                None::<PathBuf>
            },
    {
        if let Some(f) = &self.seed_file {
            return Some(f.clone());
        }
        if let Some(config) = loaded {
            return match &config.seed_file {
                Some(f) => Some(f.clone()),
                None => None,
            };
        }
        None
    }
}

} // verus!
