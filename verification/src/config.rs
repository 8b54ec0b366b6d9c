//! Persistent configuration: host and port overrides.
//!
//! The settings live in a JSON file under the platform's config directory (reading
//! and writing it is the caller's).  This module holds the settings and the `get` /
//! `set` logic of the `config` subcommand.  Resolution order for proxy mode: CLI
//! flag, then config file, then built-in default.

use vstd::prelude::*;
use crate::text::{decimal, parse_uint, parse_uint_chars, chars_of, push_decimal, push_str};

verus! {

/// Persistent settings written to disk by the `config` subcommand.
#[derive(Debug)]
pub struct Config {
    /// Persistent host override (equivalent to `--host`).
    pub host: Option<String>,
    /// Persistent port override (equivalent to `--port`).
    pub port: Option<u16>,
}

impl Config {
    /// No override set.
    pub fn new() -> (r: Config)
        ensures
            r.host is None,
            r.port is None,
    {
        Config { host: None, port: None }
    }
}

impl Default for Config {
    fn default() -> (r: Config)
        ensures
            r.host is None,
            r.port is None,
    {
        Config::new()
    }
}

/// Why a `config` subcommand failed.
#[derive(Debug)]
pub enum ConfigError {
    /// The key is neither `host` nor `port`.
    UnknownKey(String),
    /// The value given for `port` is not a `u16`.
    InvalidPort(String),
}

/// `s` as `{:?}` writes it: a Rust string literal, quoted and escaped.
pub uninterp spec fn debug_text(s: Seq<char>) -> Seq<char>;

/// Formats `s` with `format!("{s:?}")` (std's `Debug` for `str`).  Its result is
/// named `debug_text(s@)`; std's documentation shows that it is wrapped in double
/// quotes, which is all that is stated of it.
#[verifier::external_body]
fn debug_quoted(s: &str) -> (r: String)
    ensures
        r@ == debug_text(s@),
        r@.len() >= 2,
        r@[0] == '"',
        r@.last() == '"',
{
    format!("{s:?}")
}

impl ConfigError {
    /// A human-readable description of the error: `unknown key "k"; valid keys:
    /// host, port` or `invalid port "v": must be a number 1–65535`.
    pub fn message(&self) -> (r: String)
        ensures
            match self {
                ConfigError::UnknownKey(k) => r@ == "unknown key "@ + debug_text(k@) + "; valid keys: host, port"@,
                ConfigError::InvalidPort(v) => r@ == "invalid port "@ + debug_text(v@) + ": must be a number 1–65535"@,
            },
    {
        match self {
            ConfigError::UnknownKey(k) => {
                let mut s = "unknown key ".to_owned();
                let q = debug_quoted(k.as_str());
                push_str(&mut s, q.as_str());
                push_str(&mut s, "; valid keys: host, port");
                s
            },
            ConfigError::InvalidPort(v) => {
                let mut s = "invalid port ".to_owned();
                let q = debug_quoted(v.as_str());
                push_str(&mut s, q.as_str());
                push_str(&mut s, ": must be a number 1–65535");
                s
            },
        }
    }
}

/// The line that `config get key` prints, or the error.
pub open spec fn spec_config_get(host: Option<Seq<char>>, port: Option<u16>, key: Seq<char>) -> Result<Seq<char>, Seq<char>> {
    if key == "host"@ {
        Ok(match host {
            Some(h) => h,
            None => "(not set)"@,
        })
    } else if key == "port"@ {
        Ok(match port {
            Some(p) => decimal(p as nat),
            None => "(not set)"@,
        })
    } else {
        Err(key)
    }
}

/// The view of the host setting.
pub open spec fn host_view(cfg: Config) -> Option<Seq<char>> {
    match cfg.host {
        Some(h) => Some(h@),
        None => None,
    }
}

/// The line that `config get key` prints for `cfg`: the value of `key`, or
/// `(not set)`.  Any key other than `host` and `port` is refused.
pub fn get(cfg: &Config, key: &str) -> (r: Result<String, ConfigError>)
    ensures
        match r {
            Ok(line) => spec_config_get(host_view(*cfg), cfg.port, key@) == Ok::<Seq<char>, Seq<char>>(line@),
            Err(ConfigError::UnknownKey(k)) => spec_config_get(host_view(*cfg), cfg.port, key@) == Err::<Seq<char>, Seq<char>>(k@),
            Err(ConfigError::InvalidPort(_)) => false,
        },
{
    let k = key.to_owned();
    if k == "host".to_owned() {
        Ok(match &cfg.host {
            Some(h) => h.clone(),
            None => "(not set)".to_owned(),
        })
    } else if k == "port".to_owned() {
        Ok(match cfg.port {
            Some(p) => {
                let mut s = String::new();
                push_decimal(&mut s, p as u64);
                assert(s@ =~= decimal(p as nat));
                s
            },
            None => "(not set)".to_owned(),
        })
    } else {
        Err(ConfigError::UnknownKey(k))
    }
}

/// The settings `(host, port)` after `config set key value`; `None` when the key is
/// unknown or the value given for `port` is not a `u16`.
pub open spec fn spec_config_set(host: Option<Seq<char>>, port: Option<u16>, key: Seq<char>, value: Seq<char>) -> Option<
    (Option<Seq<char>>, Option<u16>),
> {
    if key == "host"@ {
        Some((Some(value), port))
    } else if key == "port"@ {
        match parse_uint(value, 65535) {
            Some(n) => Some((host, Some(n as u16))),
            None => None,
        }
    } else {
        None
    }
}

/// Writes `value` for `key` into `cfg`: `host` takes any value, `port` a `u16`
/// (`str::parse::<u16>`).  On an error `cfg` is unchanged.
pub fn set(cfg: &mut Config, key: &str, value: &str) -> (r: Result<(), ConfigError>)
    ensures
        key@ == "host"@ ==> r is Ok && host_view(*final(cfg)) == Some(value@) && final(cfg).port == old(cfg).port,
        key@ == "port"@ ==> match parse_uint(value@, 65535) {
            Some(n) => r is Ok && final(cfg).port == Some(n as u16) && host_view(*final(cfg)) == host_view(*old(cfg)),
            None => (r matches Err(ConfigError::InvalidPort(v)) && v@ == value@) && host_view(*final(cfg)) == host_view(*old(cfg)) && final(cfg).port == old(cfg).port,
        },
        key@ != "host"@ && key@ != "port"@ ==> (r matches Err(ConfigError::UnknownKey(k)) && k@ == key@) && host_view(*final(cfg)) == host_view(*old(cfg)) && final(cfg).port == old(cfg).port,
        match spec_config_set(host_view(*old(cfg)), old(cfg).port, key@, value@) {
            Some((h, p)) => r is Ok && host_view(*final(cfg)) == h && final(cfg).port == p,
            None => r is Err && host_view(*final(cfg)) == host_view(*old(cfg)) && final(cfg).port == old(cfg).port,
        },
{
    let k = key.to_owned();
    proof {
        reveal_strlit("host");
        reveal_strlit("port");
        assert("host"@[0] != "port"@[0]);
    }
    if k == "host".to_owned() {
        cfg.host = Some(value.to_owned());
        Ok(())
    } else if k == "port".to_owned() {
        let c = chars_of(value);
        assert(c@.subrange(0, c@.len() as int) =~= c@);
        match parse_uint_chars(&c, 0, c.len(), 65535) {
            Some(n) => {
                cfg.port = Some(n as u16);
                Ok(())
            },
            None => Err(ConfigError::InvalidPort(value.to_owned())),
        }
    } else {
        Err(ConfigError::UnknownKey(k))
    }
}

/// The confirmation `config set` prints: `Set key = value  (path)`.
pub fn set_confirmation(key: &str, value: &str, path: &str) -> (r: String)
    ensures
        r@ == "Set "@ + key@ + " = "@ + value@ + "  ("@ + path@ + ")"@,
{
    let mut s = "Set ".to_owned();
    push_str(&mut s, key);
    push_str(&mut s, " = ");
    push_str(&mut s, value);
    push_str(&mut s, "  (");
    push_str(&mut s, path);
    push_str(&mut s, ")");
    s
}

/// What `config get` reads back after a successful `config set key value`: the host
/// exactly as written, the port as the decimal text of the number written, and any
/// other key as it read before.
pub proof fn law_set_then_get(
    host: Option<Seq<char>>,
    port: Option<u16>,
    key: Seq<char>,
    value: Seq<char>,
    other: Seq<char>,
)
    requires
        spec_config_set(host, port, key, value) is Some,
    ensures
        key == "host"@ ==> spec_config_get(
            spec_config_set(host, port, key, value)->Some_0.0,
            spec_config_set(host, port, key, value)->Some_0.1,
            key,
        ) == Ok::<Seq<char>, Seq<char>>(value),
        key == "port"@ ==> spec_config_get(
            spec_config_set(host, port, key, value)->Some_0.0,
            spec_config_set(host, port, key, value)->Some_0.1,
            key,
        ) == Ok::<Seq<char>, Seq<char>>(decimal(parse_uint(value, 65535)->Some_0)),
        other != key ==> spec_config_get(
            spec_config_set(host, port, key, value)->Some_0.0,
            spec_config_set(host, port, key, value)->Some_0.1,
            other,
        ) == spec_config_get(host, port, other),
{
    reveal_strlit("host");
    reveal_strlit("port");
    assert("host"@[0] != "port"@[0]);
}

} // verus!
