//! Agent configuration: the endpoint, the check-in interval and the
//! TLS relaxation flag, with the environment-variable override rules.
//!
//! Settings come from a file, and an environment variable of matching
//! name always overrides the file-loaded value; an absent variable
//! leaves it untouched. Reading the file and the environment is I/O
//! and happens outside this crate; the override rules themselves are
//! decided here.

use vstd::prelude::*;

use crate::text::{eq_true_ignore_case, is_true_ignore_case, parse_u64, u64_dec_parse};

verus! {

/// Agent settings, loaded once at process start.
#[derive(Clone, Debug)]
pub struct Config {
    /// Endpoint for check-ins; absence disables transmission but not
    /// collection.
    pub api_url: Option<String>,
    /// Seconds between check-in ticks.
    pub interval_seconds: u64,
    /// Accept invalid TLS certificates; lab use only, never a default.
    pub tls_insecure: bool,
}

/// The default check-in interval, in seconds.
pub fn default_interval() -> (r: u64)
    ensures
        r == 1800,
{
    1800
}

impl Default for Config {
    /// No endpoint, a half-hour interval, and strict TLS.
    fn default() -> (r: Config)
        ensures
            r.api_url is None,
            r.interval_seconds == 1800,
            !r.tls_insecure,
    {
        Config { api_url: None, interval_seconds: default_interval(), tls_insecure: false }
    }
}

/// The view of an optional string.
pub open spec fn opt_setting(o: Option<String>) -> Option<Seq<char>> {
    match o {
        Some(s) => Some(s@),
        None => None,
    }
}

/// Applies the environment overrides to a loaded configuration. A
/// present variable always wins over the file value; an absent one
/// changes nothing. The interval override must parse as a decimal
/// number of seconds or it is ignored; the TLS override is true
/// exactly when the variable spells "true" in any ASCII case.
pub fn apply_env_overrides(
    cfg: Config,
    api_url: Option<String>,
    interval: Option<String>,
    tls: Option<String>,
) -> (r: Config)
    ensures
        opt_setting(r.api_url) == (match opt_setting(api_url) {
            Some(u) => Some(u),
            None => opt_setting(cfg.api_url),
        }),
        r.interval_seconds == (match interval {
            Some(s) => match u64_dec_parse(s@) {
                Some(n) => n,
                None => cfg.interval_seconds,
            },
            None => cfg.interval_seconds,
        }),
        r.tls_insecure == (match tls {
            Some(t) => eq_true_ignore_case(t@),
            None => cfg.tls_insecure,
        }),
{
    let mut r = cfg;
    match api_url {
        Some(u) => {
            r.api_url = Some(u);
        },
        None => {},
    }
    match interval {
        Some(s) => {
            match parse_u64(s.as_str()) {
                Some(n) => {
                    r.interval_seconds = n;
                },
                None => {},
            }
        },
        None => {},
    }
    match tls {
        Some(t) => {
            r.tls_insecure = is_true_ignore_case(t.as_str());
        },
        None => {},
    }
    r
}

} // verus!
