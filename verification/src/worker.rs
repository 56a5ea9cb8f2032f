//! The delivery worker's settings: who it is, how much it claims at once,
//! how many deliveries it keeps in flight and how long it idles.

use vstd::prelude::*;
use core::time::Duration;
use crate::settings::{self, opt_chars, given_or};
use crate::text;

verus! {

/// Deliveries in flight at once, per worker process, unless configured.
pub const DEFAULT_CONCURRENCY: usize = 8;

/// The duration `Duration::from_millis` makes of a number of milliseconds.
pub uninterp spec fn milliseconds(millis: u64) -> Duration;

/// `core::time::Duration::from_millis`: a duration of exactly `millis`
/// milliseconds. Total, and deterministic in its argument.
pub assume_specification[ core::time::Duration::from_millis ](millis: u64) -> (d: Duration)
    ensures
        d == milliseconds(millis),
;

/// `WORKER_CONCURRENCY` read as written (`8` when unset): a number, and
/// at least one.
pub open spec fn concurrency_spec(raw: Option<Seq<char>>) -> Result<int, Seq<char>> {
    match text::parse_uint(given_or(raw, "8"@), usize::MAX as int) {
        None => Err("WORKER_CONCURRENCY must be a number"@),
        Some(n) => if n == 0 {
            Err("WORKER_CONCURRENCY must be at least 1"@)
        } else {
            Ok(n)
        },
    }
}

/// The in-flight limit. The SMTP connection pool is sized from the same
/// number, so that it is never the smaller of the two.
pub fn concurrency_from(raw: Option<&str>) -> (r: Result<usize, String>)
    ensures
        match (r, concurrency_spec(opt_chars(raw))) {
            (Ok(n), Ok(m)) => n as int == m,
            (Err(e), Err(m)) => e@ == m,
            _ => false,
        },
{
    let v = settings::given_or_chars(raw, "8");
    let n = match text::parse_u64(&v) {
        Some(n) => n,
        None => {
            return Err(text::string_of(&text::chars_of("WORKER_CONCURRENCY must be a number")));
        },
    };
    if n > usize::MAX as u64 {
        return Err(text::string_of(&text::chars_of("WORKER_CONCURRENCY must be a number")));
    }
    if n == 0 {
        return Err(text::string_of(&text::chars_of("WORKER_CONCURRENCY must be at least 1")));
    }
    Ok(n as usize)
}

/// How a worker runs.
pub struct Config {
    pub worker_name: String,
    pub batch: i64,
    pub concurrency: usize,
    pub idle: Duration,
}

/// The settings, in the order they are read, that decide a worker's
/// configuration.
pub struct WorkerSettings<'a> {
    /// `WORKER_NAME`
    pub name: Option<&'a str>,
    /// `HOSTNAME`
    pub hostname: Option<&'a str>,
    /// `WORKER_BATCH`
    pub batch: Option<&'a str>,
    /// `WORKER_IDLE_MS`
    pub idle_ms: Option<&'a str>,
    /// `WORKER_CONCURRENCY`
    pub concurrency: Option<&'a str>,
}

/// A worker configuration as values.
pub struct ConfigModel {
    pub worker_name: Seq<char>,
    pub batch: i64,
    pub concurrency: int,
    pub idle_ms: int,
}

/// The worker configuration the settings make. The name falls back to
/// the host name and then to `postbud-worker`; each number is read as
/// written, with its default when unset, and the first that is not a
/// number is the error.
pub open spec fn config_spec(
    name: Option<Seq<char>>,
    hostname: Option<Seq<char>>,
    batch: Option<Seq<char>>,
    idle_ms: Option<Seq<char>>,
    concurrency: Option<Seq<char>>,
) -> Result<ConfigModel, Seq<char>> {
    if text::parse_int(given_or(batch, "20"@)) is None {
        Err("WORKER_BATCH must be a number"@)
    } else if text::parse_uint(given_or(idle_ms, "2000"@), u64::MAX as int) is None {
        Err("WORKER_IDLE_MS must be a number"@)
    } else {
        match concurrency_spec(concurrency) {
            Err(e) => Err(e),
            Ok(c) => Ok(
                ConfigModel {
                    worker_name: given_or(name, given_or(hostname, "postbud-worker"@)),
                    batch: text::parse_int(given_or(batch, "20"@))->0,
                    concurrency: c,
                    idle_ms: text::parse_uint(given_or(idle_ms, "2000"@), u64::MAX as int)->0,
                },
            ),
        }
    }
}

impl Config {
    /// The configuration as values; the idle time as the duration it is.
    pub open spec fn matches(&self, m: ConfigModel) -> bool {
        &&& self.worker_name@ == m.worker_name
        &&& self.batch == m.batch
        &&& self.concurrency as int == m.concurrency
        &&& 0 <= m.idle_ms <= u64::MAX
        &&& self.idle == milliseconds(m.idle_ms as u64)
    }

    /// The configuration the settings make, as [`config_spec`] says.
    pub fn from_settings(s: &WorkerSettings) -> (r: Result<Config, String>)
        ensures
            match (r, config_spec(
                opt_chars(s.name),
                opt_chars(s.hostname),
                opt_chars(s.batch),
                opt_chars(s.idle_ms),
                opt_chars(s.concurrency),
            )) {
                (Ok(c), Ok(m)) => c.matches(m),
                (Err(e), Err(m)) => e@ == m,
                _ => false,
            },
    {
        let host_or_default = settings::given_or_chars(s.hostname, "postbud-worker");
        let worker_name = match s.name {
            Some(n) => text::string_of(&text::chars_of(n)),
            None => text::string_of(&host_or_default),
        };
        let b = settings::given_or_chars(s.batch, "20");
        let batch = match text::parse_i64(&b) {
            Some(n) => n,
            None => {
                return Err(text::string_of(&text::chars_of("WORKER_BATCH must be a number")));
            },
        };
        let i = settings::given_or_chars(s.idle_ms, "2000");
        let idle_ms = match text::parse_u64(&i) {
            Some(n) => n,
            None => {
                return Err(text::string_of(&text::chars_of("WORKER_IDLE_MS must be a number")));
            },
        };
        let concurrency = match concurrency_from(s.concurrency) {
            Ok(n) => n,
            Err(e) => {
                return Err(e);
            },
        };
        Ok(Config { worker_name, batch, concurrency, idle: Duration::from_millis(idle_ms) })
    }
}

} // verus!
