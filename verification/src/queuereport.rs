//! Settings of the queue reporter, which reads the relay's queue and posts
//! it to the API.

use vstd::prelude::*;
use core::time::Duration;
use crate::retry;
use crate::settings::{self, opt_chars, given_or};
use crate::text;

verus! {

/// Where the queue is read from and where it is posted.
pub struct Config {
    pub socket: String,
    pub postbud_url: String,
    pub token: String,
    pub interval: Duration,
}

/// The settings, in the order they are read, that decide the reporter's
/// configuration.
pub struct ReporterSettings<'a> {
    /// `SHOWQ_SOCKET`
    pub socket: Option<&'a str>,
    /// `POSTBUD_URL`
    pub postbud_url: Option<&'a str>,
    /// `BOUNCE_INGEST_TOKEN`
    pub token: Option<&'a str>,
    /// `QUEUE_REPORT_INTERVAL`, in seconds
    pub interval: Option<&'a str>,
}

/// A reporter configuration as values.
pub struct ConfigModel {
    pub socket: Seq<char>,
    pub postbud_url: Seq<char>,
    pub token: Seq<char>,
    pub interval_secs: int,
}

/// The reporting interval in seconds: the setting when it reads as a
/// number, five otherwise.
pub open spec fn interval_spec(raw: Option<Seq<char>>) -> int {
    match raw {
        Some(v) => match text::parse_uint(v, u64::MAX as int) {
            Some(n) => n,
            None => 5,
        },
        None => 5,
    }
}

/// The reporter configuration the settings make: the API's address and
/// the ingest token are required; the socket has Postfix's usual path.
pub open spec fn config_spec(
    socket: Option<Seq<char>>,
    postbud_url: Option<Seq<char>>,
    token: Option<Seq<char>>,
    interval: Option<Seq<char>>,
) -> Result<ConfigModel, Seq<char>> {
    if postbud_url is None {
        Err("POSTBUD_URL is required for queue-report"@)
    } else if token is None {
        Err("BOUNCE_INGEST_TOKEN is required for queue-report"@)
    } else {
        Ok(
            ConfigModel {
                socket: given_or(socket, "/var/spool/postfix/public/showq"@),
                postbud_url: postbud_url->0,
                token: token->0,
                interval_secs: interval_spec(interval),
            },
        )
    }
}

impl Config {
    /// The configuration as values; the interval as the duration it is.
    pub open spec fn matches(&self, m: ConfigModel) -> bool {
        &&& self.socket@ == m.socket
        &&& self.postbud_url@ == m.postbud_url
        &&& self.token@ == m.token
        &&& 0 <= m.interval_secs <= u64::MAX
        &&& self.interval == retry::seconds(m.interval_secs as u64)
    }

    /// Where a snapshot is posted: the API's queue endpoint under
    /// `postbud_url`, whatever trailing slashes that was given with.
    pub fn queue_url(&self) -> (r: String)
        ensures
            r@ == text::strip_end(self.postbud_url@, '/') + "/v1/relay/queue"@,
    {
        let base = text::chars_of(self.postbud_url.as_str());
        let trimmed = text::stripped_end(&base, '/');
        let path = text::chars_of("/v1/relay/queue");
        let all = text::concat(&trimmed, &path);
        text::string_of(&all)
    }

    /// The configuration the settings make, as [`config_spec`] says.
    pub fn from_settings(s: &ReporterSettings) -> (r: Result<Config, String>)
        ensures
            match (r, config_spec(
                opt_chars(s.socket),
                opt_chars(s.postbud_url),
                opt_chars(s.token),
                opt_chars(s.interval),
            )) {
                (Ok(c), Ok(m)) => c.matches(m),
                (Err(e), Err(m)) => e@ == m,
                _ => false,
            },
    {
        let socket = settings::given_or_chars(s.socket, "/var/spool/postfix/public/showq");
        let postbud_url = match s.postbud_url {
            Some(u) => text::chars_of(u),
            None => {
                return Err(text::string_of(&text::chars_of("POSTBUD_URL is required for queue-report")));
            },
        };
        let token = match s.token {
            Some(t) => text::chars_of(t),
            None => {
                return Err(
                    text::string_of(&text::chars_of("BOUNCE_INGEST_TOKEN is required for queue-report")),
                );
            },
        };
        let secs = match s.interval {
            Some(v) => match text::parse_u64(&text::chars_of(v)) {
                Some(n) => n,
                None => 5,
            },
            None => 5,
        };
        Ok(
            Config {
                socket: text::string_of(&socket),
                postbud_url: text::string_of(&postbud_url),
                token: text::string_of(&token),
                interval: Duration::from_secs(secs),
            },
        )
    }
}

} // verus!
