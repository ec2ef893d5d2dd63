//! The persisted user configuration and the settings a running component
//! keeps: the credential and the endpoint URL.
//!
//! Absence of a stored value is not an error: the URL falls back to the
//! canonical endpoint and the credential to empty, which blocks streaming
//! until it is set. Reading and writing the configuration file itself is
//! the host's concern; the rules of defaulting and of merging an edit are
//! here.

use crate::text::{blank_chars, is_blank};
use crate::DEFAULT_API_URL;
use vstd::prelude::*;

verus! {

/// The stored user configuration; either value may be absent.
#[derive(Clone, Debug)]
pub struct UserConfig {
    pub api_key: Option<String>,
    pub api_url: Option<String>,
}

impl Default for UserConfig {
    /// No credential, and the canonical endpoint URL.
    fn default() -> (r: UserConfig)
        ensures
            r.api_key is None,
            r.api_url is Some && r.api_url->Some_0@ == DEFAULT_API_URL@,
    {
        UserConfig { api_key: None, api_url: Some(DEFAULT_API_URL.to_owned()) }
    }
}

impl UserConfig {
    /// The configuration to use after a load: what was stored, or the
    /// default when nothing (or nothing readable) was stored.
    pub fn or_default(loaded: Option<UserConfig>) -> (r: UserConfig)
        ensures
            match loaded {
                Some(c) => r.api_key == c.api_key && r.api_url == c.api_url,
                None => r.api_key is None && r.api_url is Some && r.api_url->Some_0@
                    == DEFAULT_API_URL@,
            },
    {
        match loaded {
            Some(c) => c,
            None => UserConfig::default(),
        }
    }
}

/// The configuration to store after a user edit: a blank value is stored
/// as absent, any other value as given.
pub fn updated_user_config(api_key: &str, api_url: &str) -> (r: UserConfig)
    ensures
        blank_chars(api_key@) ==> r.api_key is None,
        !blank_chars(api_key@) ==> r.api_key is Some && r.api_key->Some_0@ == api_key@,
        blank_chars(api_url@) ==> r.api_url is None,
        !blank_chars(api_url@) ==> r.api_url is Some && r.api_url->Some_0@ == api_url@,
{
    let key = if is_blank(api_key) {
        None
    } else {
        Some(api_key.to_owned())
    };
    let url = if is_blank(api_url) {
        None
    } else {
        Some(api_url.to_owned())
    };
    UserConfig { api_key: key, api_url: url }
}

/// Knows where the configuration file lives; the host performs the actual
/// reading and writing.
#[derive(Clone)]
pub struct ConfigManager {
    config_path: String,
}

impl View for ConfigManager {
    type V = Seq<char>;

    closed spec fn view(&self) -> Seq<char> {
        self.config_path@
    }
}

impl ConfigManager {
    /// A manager for the file at the given path.
    pub fn new(config_path: &str) -> (r: ConfigManager)
        ensures
            r@ == config_path@,
    {
        ConfigManager { config_path: config_path.to_owned() }
    }

    /// The path of the configuration file.
    pub fn path(&self) -> (r: &str)
        ensures
            r@ == self@,
    {
        self.config_path.as_str()
    }
}

/// The settings a running component keeps: credential and endpoint URL.
#[derive(Clone, Debug)]
pub struct Settings {
    pub api_key: String,
    pub api_url: String,
}

impl Settings {
    /// Fresh settings: empty credential, canonical endpoint.
    pub fn new() -> (r: Settings)
        ensures
            r.api_key@ == Seq::<char>::empty(),
            r.api_url@ == DEFAULT_API_URL@,
    {
        Settings { api_key: String::new(), api_url: DEFAULT_API_URL.to_owned() }
    }

    /// Applies a loaded configuration: a stored value replaces the current
    /// one, an absent value leaves it unchanged.
    pub fn apply_user_config(&mut self, cfg: UserConfig)
        ensures
            match cfg.api_key {
                Some(k) => final(self).api_key == k,
                None => final(self).api_key == old(self).api_key,
            },
            match cfg.api_url {
                Some(u) => final(self).api_url == u,
                None => final(self).api_url == old(self).api_url,
            },
    {
        match cfg.api_key {
            Some(k) => {
                self.api_key = k;
            },
            None => {},
        }
        match cfg.api_url {
            Some(u) => {
                self.api_url = u;
            },
            None => {},
        }
    }

    /// The configuration to store for these settings: blank values become
    /// absent.
    pub fn to_user_config(&self) -> (r: UserConfig)
        ensures
            blank_chars(self.api_key@) ==> r.api_key is None,
            !blank_chars(self.api_key@) ==> r.api_key is Some && r.api_key->Some_0@
                == self.api_key@,
            blank_chars(self.api_url@) ==> r.api_url is None,
            !blank_chars(self.api_url@) ==> r.api_url is Some && r.api_url->Some_0@
                == self.api_url@,
    {
        updated_user_config(self.api_key.as_str(), self.api_url.as_str())
    }

    /// Whether the credential is set (not blank).
    pub fn key_present(&self) -> (r: bool)
        ensures
            r == !blank_chars(self.api_key@),
    {
        !is_blank(self.api_key.as_str())
    }

    /// Whether both the credential and the URL are set, as connecting
    /// requires.
    pub fn ready(&self) -> (r: bool)
        ensures
            r == (!blank_chars(self.api_key@) && !blank_chars(self.api_url@)),
    {
        !is_blank(self.api_key.as_str()) && !is_blank(self.api_url.as_str())
    }
}

} // verus!
