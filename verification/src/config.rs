//! The user configuration: the default identity and the session lifetime.

use crate::error::MfjError;
use vstd::prelude::*;

verus! {

/// How long an unlocked pocket stays unlocked, unless configured: 8 hours.
pub const DEFAULT_SESSION_TTL: u64 = 28800;

/// The session lifetime a configuration without one gets.
pub fn default_ttl() -> (r: u64)
    ensures
        r == DEFAULT_SESSION_TTL,
{
    DEFAULT_SESSION_TTL
}

/// The configuration.
#[derive(Debug)]
pub struct Config {
    pub default_identity: String,
    pub session_ttl_seconds: u64,
}

impl Config {
    /// A configuration with the given default identity and the default
    /// session lifetime.
    pub fn new(default_identity: String) -> (r: Config)
        ensures
            r.default_identity@ == default_identity@,
            r.session_ttl_seconds == DEFAULT_SESSION_TTL,
    {
        Config { default_identity, session_ttl_seconds: DEFAULT_SESSION_TTL }
    }

    /// The configuration, which commands that need an identity require.
    pub fn require(config: Option<Config>) -> (r: Result<Config, MfjError>)
        ensures
            match config {
                Some(c) => r matches Ok(d) && d == c,
                None => r == Err::<Config, MfjError>(MfjError::NoConfig),
            },
    {
        match config {
            Some(c) => Ok(c),
            None => Err(MfjError::NoConfig),
        }
    }

    /// The same configuration with `name` as its default identity.
    pub fn with_default(self, name: String) -> (r: Config)
        ensures
            r.default_identity@ == name@,
            r.session_ttl_seconds == self.session_ttl_seconds,
    {
        Config { default_identity: name, session_ttl_seconds: self.session_ttl_seconds }
    }

    /// The configuration to save once the identity `name` is created, if any:
    /// with no configuration yet, a new one with `name` as default; with one,
    /// that one with `name` as default if `set_default` asks for it, and
    /// otherwise nothing to save.
    pub fn after_identity_init(config: Option<Config>, name: String, set_default: bool) -> (r: Option<Config>)
        ensures
            match config {
                None => r matches Some(c) && c.default_identity@ == name@ && c.session_ttl_seconds
                    == DEFAULT_SESSION_TTL,
                Some(old) => if set_default {
                    r matches Some(c) && c.default_identity@ == name@ && c.session_ttl_seconds
                        == old.session_ttl_seconds
                } else {
                    r is None
                },
            },
    {
        match config {
            None => Some(Config::new(name)),
            Some(c) => if set_default {
                Some(c.with_default(name))
            } else {
                None
            },
        }
    }

    /// Whether the identity `name` may be removed: the default identity may
    /// not.
    pub fn check_removable(&self, name: &str) -> (r: Result<(), MfjError>)
        ensures
            self.default_identity@ == name@ ==> r == Err::<(), MfjError>(MfjError::DefaultIdentity),
            self.default_identity@ != name@ ==> r is Ok,
    {
        if self.is_default(name) {
            Err(MfjError::DefaultIdentity)
        } else {
            Ok(())
        }
    }

    /// Whether `name` is the default identity.
    pub fn is_default(&self, name: &str) -> (r: bool)
        ensures
            r == (self.default_identity@ == name@),
    {
        self.default_identity == name.to_owned()
    }
}

} // verus!
