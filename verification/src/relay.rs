//! The handoff to Postfix, and what each answer means for the message.
//!
//! postbud is not an MTA and must never become one: it builds a message,
//! hands it to one smarthost, and writes down what the smarthost said.

use vstd::prelude::*;
use crate::retry;
use crate::settings;
use crate::text;
use core::time::Duration;

verus! {

/// What the relay said about one handoff.
#[derive(Debug, Clone)]
pub enum Outcome {
    /// Taken. `queue_id` is Postfix's own id for the message, and the only
    /// handle a bounce arriving days later will carry.
    Accepted { queue_id: Option<String> },
    /// 4xx, unreachable, or a timeout: try again on the schedule.
    Transient { code: Option<i32>, detail: String },
    /// 5xx: stop, and record why.
    Permanent { code: Option<i32>, detail: String },
}

/// The text after `p`'s first occurrence in `s` starts at the returned
/// index.
pub open spec fn find_from(s: Seq<char>, p: Seq<char>, i: int) -> Option<int>
    decreases s.len() + 1 - i,
{
    if i < 0 || i + p.len() > s.len() {
        None
    } else if text::occurs_at(s, p, i) {
        Some(i)
    } else {
        find_from(s, p, i + 1)
    }
}

/// The leading ASCII letters and digits of `s`.
pub open spec fn alnum_prefix(s: Seq<char>) -> Seq<char>
    decreases s.len(),
{
    if s.len() > 0 && text::is_ascii_alnum(s[0]) {
        seq![s[0]] + alnum_prefix(s.drop_first())
    } else {
        Seq::empty()
    }
}

/// The queue id in Postfix's acceptance line (`2.0.0 Ok: queued as
/// 4bXlNq2Qh8z1Yk`): the letters and digits right after the first
/// `queued as `, when there are any.
pub open spec fn queue_id_spec(response: Seq<char>) -> Option<Seq<char>> {
    match find_from(response, "queued as "@, 0) {
        Some(i) => {
            let id = alnum_prefix(response.skip(i + "queued as "@.len()));
            if id.len() > 0 {
                Some(id)
            } else {
                None
            }
        },
        None => None,
    }
}

fn is_ascii_alnum_char(c: char) -> (r: bool)
    ensures
        r == text::is_ascii_alnum(c),
{
    ('0' <= c && c <= '9') || ('a' <= c && c <= 'z') || ('A' <= c && c <= 'Z')
}

fn find_seq(s: &[char], p: &[char]) -> (r: Option<usize>)
    ensures
        match r {
            Some(k) => find_from(s@, p@, 0) == Some(k as int) && k + p@.len() <= s@.len(),
            None => find_from(s@, p@, 0) is None,
        },
{
    let n = s.len();
    let m = p.len();
    if m > n {
        return None;
    }
    if m == 0 {
        assert(s@.subrange(0, 0) =~= p@);
        return Some(0);
    }
    let mut i: usize = 0;
    while i <= n - m
        invariant
            n == s@.len(),
            m == p@.len(),
            1 <= m <= n,
            i <= n - m + 1,
            find_from(s@, p@, 0) == find_from(s@, p@, i as int),
        decreases n - m + 1 - i,
    {
        if text::occurs_at_exec(s, p, i) {
            return Some(i);
        }
        i = i + 1;
    }
    None
}

/// Pull the queue id out of Postfix's acceptance line.
///
/// Absence is tolerated (a relay that phrases it differently still
/// delivered the mail) but costs bounce correlation for that message.
pub fn queue_id_from(response: &str) -> (r: Option<String>)
    ensures
        r.deep_view() == queue_id_spec(response@),
{
    let s = text::chars_of(response);
    let p = text::chars_of("queued as ");
    let n = s.len();
    let start = match find_seq(&s, &p) {
        Some(k) => k + p.len(),
        None => {
            return None;
        },
    };
    let ghost rest = s@.skip(start as int);
    let mut j: usize = start;
    let mut id: Vec<char> = Vec::new();
    assert(s@.skip(start as int) =~= s@.subrange(start as int, n as int));
    while j < n && is_ascii_alnum_char(s[j])
        invariant
            start <= j <= n == s@.len(),
            rest == s@.skip(start as int),
            alnum_prefix(rest) == id@ + alnum_prefix(s@.skip(j as int)),
        decreases n - j,
    {
        assert(s@.skip(j as int)[0] == s@[j as int]);
        assert(s@.skip(j as int).drop_first() =~= s@.skip(j + 1));
        let ghost before = id@;
        id.push(s[j]);
        assert(before + (seq![s@[j as int]] + alnum_prefix(s@.skip(j + 1))) =~= id@ + alnum_prefix(
            s@.skip(j + 1),
        ));
        j = j + 1;
    }
    assert(alnum_prefix(s@.skip(j as int)) =~= Seq::<char>::empty());
    assert(id@ + Seq::<char>::empty() =~= id@);
    if id.len() == 0 {
        None
    } else {
        Some(text::string_of(&id))
    }
}

/// The `From:` header: the display name, when there is one, in front of
/// the address in angle brackets.
pub fn from_header(mail_from: &str, from_name: Option<&str>) -> (r: String)
    ensures
        r@ == match from_name {
            Some(n) => n@ + " <"@ + mail_from@ + ">"@,
            None => mail_from@,
        },
{
    match from_name {
        Some(n) => {
            let a = text::chars_of(n);
            let b = text::chars_of(" <");
            let c = text::chars_of(mail_from);
            let d = text::chars_of(">");
            let ab = text::concat(&a, &b);
            let abc = text::concat(&ab, &c);
            let all = text::concat(&abc, &d);
            text::string_of(&all)
        },
        None => {
            let c = text::chars_of(mail_from);
            text::string_of(&c)
        },
    }
}

/// The `Message-ID:` header value: the message's own id at the SENDER's
/// domain (`postbud.invalid` when the address has none), in the angle
/// brackets RFC 5322 requires.
pub open spec fn message_id_spec(id: Seq<char>, mail_from: Seq<char>) -> Seq<char> {
    let domain = match text::rsplit_once(mail_from, '@') {
        Some(p) => p.1,
        None => "postbud.invalid"@,
    };
    "<"@ + id + "@"@ + domain + ">"@
}

pub fn message_id(id: &str, mail_from: &str) -> (r: String)
    ensures
        r@ == message_id_spec(id@, mail_from@),
{
    let from = text::chars_of(mail_from);
    let domain = match text::rsplit_once_char(&from, '@') {
        Some((_, d)) => d,
        None => text::chars_of("postbud.invalid"),
    };
    let a = text::chars_of("<");
    let b = text::chars_of(id);
    let c = text::chars_of("@");
    let e = text::chars_of(">");
    let ab = text::concat(&a, &b);
    let abc = text::concat(&ab, &c);
    let abcd = text::concat(&abc, &domain);
    let all = text::concat(&abcd, &e);
    text::string_of(&all)
}

/// The shape of a message body.
#[derive(Debug, Clone, Copy, PartialEq, Eq, Structural)]
pub enum BodyShape {
    /// Both texts, as `multipart/alternative`.
    Alternative,
    HtmlOnly,
    TextOnly,
}

/// Which body a message gets; a message with neither text is refused.
pub fn body_shape(has_text: bool, has_html: bool) -> (r: Result<BodyShape, &'static str>)
    ensures
        has_text && has_html ==> r == Ok::<BodyShape, &'static str>(BodyShape::Alternative),
        !has_text && has_html ==> r == Ok::<BodyShape, &'static str>(BodyShape::HtmlOnly),
        has_text && !has_html ==> r == Ok::<BodyShape, &'static str>(BodyShape::TextOnly),
        !has_text && !has_html ==> (r matches Err(m) && m@
            == "message has neither a text nor an html body"@),
{
    if has_text && has_html {
        Ok(BodyShape::Alternative)
    } else if has_html {
        Ok(BodyShape::HtmlOnly)
    } else if has_text {
        Ok(BodyShape::TextOnly)
    } else {
        Err("message has neither a text nor an html body")
    }
}

/// How the relay is reached.
#[derive(Debug, Clone, Copy, PartialEq, Eq, Structural)]
pub enum TlsMode {
    StartTls,
    Tls,
    Plain,
}

/// The `RELAY_TLS` setting: `starttls`, `tls` or `none`; anything else is
/// not a mode.
pub open spec fn tls_mode_spec(setting: Seq<char>) -> Option<TlsMode> {
    if setting == "starttls"@ {
        Some(TlsMode::StartTls)
    } else if setting == "tls"@ {
        Some(TlsMode::Tls)
    } else if setting == "none"@ {
        Some(TlsMode::Plain)
    } else {
        None
    }
}

/// The mode a `RELAY_TLS` setting names, as [`tls_mode_spec`] says.
pub fn tls_mode(setting: &str) -> (r: Option<TlsMode>)
    ensures
        r == tls_mode_spec(setting@),
{
    let c = text::chars_of(setting);
    if text::is_literal(&c, "starttls") {
        Some(TlsMode::StartTls)
    } else if text::is_literal(&c, "tls") {
        Some(TlsMode::Tls)
    } else if text::is_literal(&c, "none") {
        Some(TlsMode::Plain)
    } else {
        None
    }
}

/// How the relay is reached: host, port, transport security and, when
/// both halves are set, credentials.
pub struct Settings {
    pub host: String,
    pub port: u16,
    pub tls: TlsMode,
    pub credentials: Option<(String, String)>,
}

/// Why the relay settings make no relay.
#[derive(Debug, Clone)]
pub enum SettingsError {
    /// `RELAY_HOST` is not set.
    MissingHost,
    /// `RELAY_PORT` is not a port number.
    BadPort,
    /// `RELAY_TLS` names no mode; the value as given.
    BadTls(String),
}

/// The relay settings as read from the environment, absent when unset.
pub struct RelaySettings<'a> {
    /// `RELAY_HOST`
    pub host: Option<&'a str>,
    /// `RELAY_PORT`
    pub port: Option<&'a str>,
    /// `RELAY_TLS`
    pub tls: Option<&'a str>,
    /// `RELAY_USERNAME`
    pub user: Option<&'a str>,
    /// `RELAY_PASSWORD`
    pub password: Option<&'a str>,
}

/// Relay settings as values.
pub struct SettingsModel {
    pub host: Seq<char>,
    pub port: int,
    pub tls: TlsMode,
    pub credentials: Option<(Seq<char>, Seq<char>)>,
}

/// A settings error as a value.
pub enum SettingsErrorModel {
    MissingHost,
    BadPort,
    BadTls(Seq<char>),
}

/// The relay the settings describe. The host is required; the port
/// defaults to 25 and the mode to `starttls`, each taken as written.
/// Credentials are used only when both the user and the password are set.
pub open spec fn settings_spec(
    host: Option<Seq<char>>,
    port: Option<Seq<char>>,
    tls: Option<Seq<char>>,
    user: Option<Seq<char>>,
    password: Option<Seq<char>>,
) -> Result<SettingsModel, SettingsErrorModel> {
    let mode = settings::given_or(tls, "starttls"@);
    if host is None {
        Err(SettingsErrorModel::MissingHost)
    } else if text::parse_uint(settings::given_or(port, "25"@), u16::MAX as int) is None {
        Err(SettingsErrorModel::BadPort)
    } else if tls_mode_spec(mode) is None {
        Err(SettingsErrorModel::BadTls(mode))
    } else {
        Ok(
            SettingsModel {
                host: host->0,
                port: text::parse_uint(settings::given_or(port, "25"@), u16::MAX as int)->0,
                tls: tls_mode_spec(mode)->0,
                credentials: match (user, password) {
                    (Some(u), Some(p)) => Some((u, p)),
                    _ => None,
                },
            },
        )
    }
}

impl Settings {
    pub open spec fn matches(&self, m: SettingsModel) -> bool {
        &&& self.host@ == m.host
        &&& self.port as int == m.port
        &&& self.tls == m.tls
        &&& match (self.credentials, m.credentials) {
            (Some((u, p)), Some((mu, mp))) => u@ == mu && p@ == mp,
            (None, None) => true,
            _ => false,
        }
    }
}

impl SettingsError {
    pub open spec fn matches(&self, m: SettingsErrorModel) -> bool {
        match (self, m) {
            (SettingsError::MissingHost, SettingsErrorModel::MissingHost) => true,
            (SettingsError::BadPort, SettingsErrorModel::BadPort) => true,
            (SettingsError::BadTls(v), SettingsErrorModel::BadTls(mv)) => v@ == mv,
            _ => false,
        }
    }
}

/// The relay the settings describe, as [`settings_spec`] says.
pub fn settings(s: &RelaySettings) -> (r: Result<Settings, SettingsError>)
    ensures
        match (r, settings_spec(
            settings::opt_chars(s.host),
            settings::opt_chars(s.port),
            settings::opt_chars(s.tls),
            settings::opt_chars(s.user),
            settings::opt_chars(s.password),
        )) {
            (Ok(v), Ok(m)) => v.matches(m),
            (Err(e), Err(m)) => e.matches(m),
            _ => false,
        },
{
    let host = match s.host {
        Some(h) => text::string_of(&text::chars_of(h)),
        None => {
            return Err(SettingsError::MissingHost);
        },
    };
    let p = settings::given_or_chars(s.port, "25");
    let port = match text::parse_u64(&p) {
        Some(n) => if n <= 65535 {
            n as u16
        } else {
            return Err(SettingsError::BadPort);
        },
        None => {
            return Err(SettingsError::BadPort);
        },
    };
    let mode = settings::given_or_chars(s.tls, "starttls");
    let tls = if text::is_literal(&mode, "starttls") {
        TlsMode::StartTls
    } else if text::is_literal(&mode, "tls") {
        TlsMode::Tls
    } else if text::is_literal(&mode, "none") {
        TlsMode::Plain
    } else {
        return Err(SettingsError::BadTls(text::string_of(&mode)));
    };
    let credentials = match (s.user, s.password) {
        (Some(u), Some(pw)) => Some(
            (text::string_of(&text::chars_of(u)), text::string_of(&text::chars_of(pw))),
        ),
        _ => None,
    };
    Ok(Settings { host, port, tls, credentials })
}

/// The leading run of non-whitespace of `s`.
pub open spec fn leading_run(s: Seq<char>) -> Seq<char>
    decreases s.len(),
{
    if s.len() > 0 && !text::is_ws(s[0]) {
        seq![s[0]] + leading_run(s.drop_first())
    } else {
        Seq::empty()
    }
}

/// `split_whitespace().next()`: the first word, if any.
pub open spec fn first_word_spec(s: Seq<char>) -> Option<Seq<char>> {
    let t = text::trim_start(s);
    if t.len() == 0 {
        None
    } else {
        Some(leading_run(t))
    }
}

/// The reply code in the status the SMTP client reports: its first word
/// read as a number, `0` when it is not one.
pub open spec fn reply_code_spec(status: Seq<char>) -> i32 {
    match first_word_spec(status) {
        Some(w) => match text::parse_int(w) {
            Some(v) => if i32::MIN <= v <= i32::MAX {
                v as i32
            } else {
                0
            },
            None => 0,
        },
        None => 0,
    }
}

fn first_word(v: &[char]) -> (r: Option<Vec<char>>)
    ensures
        match r {
            Some(w) => first_word_spec(v@) == Some(w@),
            None => first_word_spec(v@) is None,
        },
{
    let t = text::trimmed_start(v);
    let n = t.len();
    if n == 0 {
        return None;
    }
    let mut k: usize = 0;
    let mut w: Vec<char> = Vec::new();
    assert(t@.skip(0) =~= t@);
    while k < n && !text::is_whitespace(t[k])
        invariant
            k <= n == t@.len(),
            leading_run(t@) == w@ + leading_run(t@.skip(k as int)),
        decreases n - k,
    {
        assert(t@.skip(k as int)[0] == t@[k as int]);
        assert(t@.skip(k as int).drop_first() =~= t@.skip(k + 1));
        let ghost before = w@;
        w.push(t[k]);
        assert(before + (seq![t@[k as int]] + leading_run(t@.skip(k + 1))) =~= w@ + leading_run(
            t@.skip(k + 1),
        ));
        k = k + 1;
    }
    assert(leading_run(t@.skip(k as int)) =~= Seq::<char>::empty());
    assert(w@ + Seq::<char>::empty() =~= w@);
    Some(w)
}

/// The numeric reply code of an SMTP status text.
pub fn reply_code(status: &str) -> (r: i32)
    ensures
        r == reply_code_spec(status@),
{
    let c = text::chars_of(status);
    match first_word(&c) {
        Some(w) => match text::parse_i64(&w) {
            Some(v) => if i32::MIN as i64 <= v && v <= i32::MAX as i64 {
                v as i32
            } else {
                0
            },
            None => 0,
        },
        None => 0,
    }
}

// ------------------------------------------------------------ delivery

pub enum OutcomeView {
    Accepted { queue_id: Option<Seq<char>> },
    Transient { code: Option<i32>, detail: Seq<char> },
    Permanent { code: Option<i32>, detail: Seq<char> },
}

impl View for Outcome {
    type V = OutcomeView;

    open spec fn view(&self) -> OutcomeView {
        match self {
            Outcome::Accepted { queue_id } => OutcomeView::Accepted { queue_id: queue_id.deep_view() },
            Outcome::Transient { code, detail } => OutcomeView::Transient {
                code: *code,
                detail: detail@,
            },
            Outcome::Permanent { code, detail } => OutcomeView::Permanent {
                code: *code,
                detail: detail@,
            },
        }
    }
}

/// What is recorded for one delivery attempt.
#[derive(Debug)]
pub enum Record {
    /// The relay took it.
    Sent { attempt: i32, queue_id: Option<String> },
    /// Retry after `delay`.
    Retry { attempt: i32, code: Option<i32>, detail: String, delay: Duration },
    /// Dead: no further attempt.
    Failed { attempt: i32, code: Option<i32>, detail: String },
}

pub enum RecordView {
    Sent { attempt: i32, queue_id: Option<Seq<char>> },
    Retry { attempt: i32, code: Option<i32>, detail: Seq<char>, delay: Duration },
    Failed { attempt: i32, code: Option<i32>, detail: Seq<char> },
}

impl View for Record {
    type V = RecordView;

    open spec fn view(&self) -> RecordView {
        match self {
            Record::Sent { attempt, queue_id } => RecordView::Sent {
                attempt: *attempt,
                queue_id: queue_id.deep_view(),
            },
            Record::Retry { attempt, code, detail, delay } => RecordView::Retry {
                attempt: *attempt,
                code: *code,
                detail: detail@,
                delay: *delay,
            },
            Record::Failed { attempt, code, detail } => RecordView::Failed {
                attempt: *attempt,
                code: *code,
                detail: detail@,
            },
        }
    }
}

/// How an attempt is recorded: an acceptance as sent; a permanent failure
/// as failed; a transient one retried on the schedule, and failed, with
/// the attempt count in front of the reason, once the schedule has run out.
pub open spec fn record_spec(attempts_before: i32, o: OutcomeView) -> RecordView {
    let attempt = (attempts_before + 1) as i32;
    match o {
        OutcomeView::Accepted { queue_id } => RecordView::Sent { attempt, queue_id },
        OutcomeView::Permanent { code, detail } => RecordView::Failed { attempt, code, detail },
        OutcomeView::Transient { code, detail } => match retry::backoff_secs(attempt as u32) {
            Some(secs) => RecordView::Retry { attempt, code, detail, delay: retry::seconds(secs) },
            None => RecordView::Failed {
                attempt,
                code,
                detail: "giving up after "@ + text::decimal(attempt as int) + " attempts: "@ + detail,
            },
        },
    }
}

/// Decide how one delivery attempt is recorded, given the attempts made
/// before it and what the relay said.
pub fn delivery_record(attempts_before: i32, outcome: Outcome) -> (r: Record)
    requires
        attempts_before < i32::MAX,
    ensures
        r@ == record_spec(attempts_before, outcome@),
{
    let attempt = attempts_before + 1;
    match outcome {
        Outcome::Accepted { queue_id } => Record::Sent { attempt, queue_id },
        Outcome::Permanent { code, detail } => Record::Failed { attempt, code, detail },
        Outcome::Transient { code, detail } => match retry::backoff(attempt as u32) {
            Some(delay) => Record::Retry { attempt, code, detail, delay },
            None => {
                let a = text::chars_of("giving up after ");
                let n = text::decimal_of(attempt as i64);
                let b = text::chars_of(" attempts: ");
                let d = text::chars_of(detail.as_str());
                let an = text::concat(&a, &n);
                let anb = text::concat(&an, &b);
                let all = text::concat(&anb, &d);
                Record::Failed { attempt, code, detail: text::string_of(&all) }
            },
        },
    }
}

/// A permanent failure is never retried, and no message is retried past
/// the schedule: from the ninth attempt on, a transient failure is final.
pub proof fn no_retry_past_the_schedule(attempts_before: i32, o: OutcomeView)
    requires
        attempts_before < i32::MAX,
        o is Permanent || (o is Transient && attempts_before + 1 >= 9),
    ensures
        record_spec(attempts_before, o) is Failed,
{
}

/// A transient failure is retried on the schedule whatever its reply code
/// (an unreachable relay gives none): until the schedule runs out, the
/// attempt is recorded with its code and reason as they came, and the next
/// one waits the schedule's delay for the attempts made so far.
pub proof fn a_transient_failure_is_retried_on_the_schedule(
    attempts_before: i32,
    code: Option<i32>,
    detail: Seq<char>,
)
    requires
        0 <= attempts_before,
        attempts_before + 1 < 9,
    ensures
        record_spec(attempts_before, OutcomeView::Transient { code, detail }) == (RecordView::Retry {
            attempt: (attempts_before + 1) as i32,
            code,
            detail,
            delay: retry::seconds(retry::schedule()[attempts_before + 1]),
        }),
{
}

/// An accepted message is recorded as sent, with the queue id it came
/// with, whatever attempt it was.
pub proof fn an_acceptance_is_always_recorded_as_sent(attempts_before: i32, queue_id: Option<Seq<char>>)
    requires
        attempts_before < i32::MAX,
    ensures
        record_spec(attempts_before, OutcomeView::Accepted { queue_id })
            == (RecordView::Sent { attempt: (attempts_before + 1) as i32, queue_id }),
{
}

} // verus!
