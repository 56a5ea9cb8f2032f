//! Reading aggregate reports out of a mailbox: which parts of a message
//! may be a report, and how a round is counted.

use vstd::prelude::*;
use mail_parser::{MessageParser, PartType};
use core::time::Duration;
use crate::retry;
use crate::settings::{self, opt_chars, filled_spec, or_default, number_spec};
use crate::text;

verus! {

/// Messages to take from the mailbox in one pass: a bound against a
/// mailbox that has gone unread for a year, not a throughput setting.
pub const BATCH: usize = 200;

/// The unread messages a pass takes: the oldest (lowest uid) first, and
/// at most [`BATCH`]. As values: ascending; as many as there are, up to
/// the batch; each taken as often as it was found; and none left behind
/// older than one taken.
pub open spec fn oldest_batch_spec(uids: Seq<u32>, r: Seq<u32>) -> bool {
    &&& r.len() == (if uids.len() < BATCH { uids.len() as int } else { BATCH as int })
    &&& forall|i: int, j: int| 0 <= i < j < r.len() ==> r[i] <= r[j]
    &&& forall|x: u32| r.to_multiset().count(x) <= uids.to_multiset().count(x)
    &&& forall|x: u32, i: int|
        #![trigger uids.to_multiset().count(x), r[i]]
        uids.to_multiset().count(x) > r.to_multiset().count(x) && 0 <= i < r.len() ==> r[i] <= x
}

/// Position of a smallest element of a non-empty list.
fn position_of_least(v: &Vec<u32>) -> (m: usize)
    requires
        v@.len() > 0,
    ensures
        m < v@.len(),
        forall|k: int| 0 <= k < v@.len() ==> v@[m as int] <= #[trigger] v@[k],
{
    let mut m: usize = 0;
    let mut j: usize = 1;
    while j < v.len()
        invariant
            v@.len() > 0,
            m < j <= v@.len(),
            forall|k: int| 0 <= k < j ==> v@[m as int] <= #[trigger] v@[k],
        decreases v@.len() - j,
    {
        if v[j] < v[m] {
            m = j;
        }
        j = j + 1;
    }
    m
}

/// The unread messages to take in one pass, as [`oldest_batch_spec`] says.
pub fn oldest_batch(uids: &[u32]) -> (r: Vec<u32>)
    ensures
        oldest_batch_spec(uids@, r@),
{
    broadcast use vstd::seq_lib::group_to_multiset_ensures;
    let mut rest: Vec<u32> = Vec::new();
    let mut k: usize = 0;
    while k < uids.len()
        invariant
            k <= uids@.len(),
            rest@ == uids@.take(k as int),
        decreases uids@.len() - k,
    {
        rest.push(uids[k]);
        assert(rest@ =~= uids@.take(k + 1));
        k = k + 1;
    }
    assert(rest@ =~= uids@);
    let mut out: Vec<u32> = Vec::new();
    assert(out@.to_multiset().add(rest@.to_multiset()) =~= uids@.to_multiset());
    while out.len() < BATCH && rest.len() > 0
        invariant
            out@.len() <= BATCH,
            out@.len() + rest@.len() == uids@.len(),
            out@.to_multiset().add(rest@.to_multiset()) == uids@.to_multiset(),
            forall|i: int, j: int| 0 <= i < j < out@.len() ==> out@[i] <= out@[j],
            forall|i: int, k2: int| 0 <= i < out@.len() && 0 <= k2 < rest@.len() ==> out@[i] <= rest@[k2],
        decreases rest@.len(),
    {
        let m = position_of_least(&rest);
        let ghost before_out = out@;
        let ghost before_rest = rest@;
        let v = rest.remove(m);
        out.push(v);
        proof {
            assert(before_rest.remove(m as int) == rest@);
            assert(out@ == before_out.push(v));
            before_rest.to_multiset_ensures();
            before_out.to_multiset_ensures();
            assert(before_rest.remove(m as int).to_multiset() =~= before_rest.to_multiset().remove(
                before_rest[m as int],
            ));
            assert(before_out.push(v).to_multiset() =~= before_out.to_multiset().insert(v));
            assert(rest@.to_multiset() =~= before_rest.to_multiset().remove(v));
            assert(out@.to_multiset() =~= before_out.to_multiset().insert(v));
            assert(before_rest.to_multiset().count(v) > 0) by {
                assert(before_rest.contains(v)) by {
                    assert(before_rest[m as int] == v);
                }
            }
            assert(out@.to_multiset().add(rest@.to_multiset()) =~= uids@.to_multiset());
            assert forall|i: int, k2: int| 0 <= i < out@.len() && 0 <= k2 < rest@.len() implies out@[i] <= rest@[k2] by {
                let src = if k2 < m { k2 } else { k2 + 1 };
                assert(rest@[k2] == before_rest[src]);
                if i < before_out.len() {
                    assert(out@[i] == before_out[i]);
                }
            }
            assert forall|i: int, j: int| 0 <= i < j < out@.len() implies out@[i] <= out@[j] by {
                if j == before_out.len() {
                    assert(before_out[i] <= before_rest[m as int]);
                }
            }
        }
    }
    proof {
        assert forall|x: u32| out@.to_multiset().count(x) <= uids@.to_multiset().count(x) by {}
        assert forall|x: u32, i: int|
            uids@.to_multiset().count(x) > out@.to_multiset().count(x) && 0 <= i < out@.len()
            implies out@[i] <= x by {
            assert(rest@.to_multiset().count(x) > 0);
            assert(rest@.contains(x));
            let k2 = choose|k2: int| 0 <= k2 < rest@.len() && rest@[k2] == x;
            assert(out@[i] <= rest@[k2]);
        }
    }
    out
}

/// Where aggregate reports are fetched from.
pub struct Config {
    pub host: String,
    pub port: u16,
    pub user: String,
    pub password: String,
    /// Where reports arrive.
    pub mailbox: String,
    /// Where they go once stored.
    pub archive: String,
    pub interval: Duration,
}

/// A mailbox configuration as values.
pub struct ConfigModel {
    pub host: Seq<char>,
    pub port: int,
    pub user: Seq<char>,
    pub password: Seq<char>,
    pub mailbox: Seq<char>,
    pub archive: Seq<char>,
    pub interval_secs: int,
}

/// The settings, in the order they are read, that decide the mailbox
/// configuration.
pub struct MailboxSettings<'a> {
    /// `DMARC_EMAIL_IMAP`
    pub host: Option<&'a str>,
    /// `DMARC_EMAIL_USERNAME`
    pub user: Option<&'a str>,
    /// `DMARC_EMAIL_PASSWORD`
    pub password: Option<&'a str>,
    /// `DMARC_EMAIL_PORT`
    pub port: Option<&'a str>,
    /// `DMARC_EMAIL_MAILBOX`
    pub mailbox: Option<&'a str>,
    /// `DMARC_EMAIL_ARCHIVE`
    pub archive: Option<&'a str>,
    /// `DMARC_EMAIL_INTERVAL`, in seconds
    pub interval: Option<&'a str>,
}

/// The text of a setting that was given (for an error message).
pub open spec fn raw_of(raw: Option<Seq<char>>) -> Seq<char> {
    match raw {
        Some(v) => v,
        None => Seq::empty(),
    }
}

/// The mailbox configuration the settings make: `Ok(None)` when no host
/// is set (collecting reports is off), an error when a host is set and
/// the rest is missing or malformed, checked in the order the settings
/// are listed.
pub open spec fn config_spec(
    host: Option<Seq<char>>,
    user: Option<Seq<char>>,
    password: Option<Seq<char>>,
    port: Option<Seq<char>>,
    mailbox: Option<Seq<char>>,
    archive: Option<Seq<char>>,
    interval: Option<Seq<char>>,
) -> Result<Option<ConfigModel>, Seq<char>> {
    match filled_spec(host) {
        None => Ok(None),
        Some(h) => if filled_spec(user) is None {
            Err("DMARC_EMAIL_IMAP is set but DMARC_EMAIL_USERNAME is not"@)
        } else if filled_spec(password) is None {
            Err("DMARC_EMAIL_IMAP is set but DMARC_EMAIL_PASSWORD is not"@)
        } else if number_spec(port, u16::MAX as int, 993) is None {
            Err("DMARC_EMAIL_PORT is not a number: "@ + raw_of(port))
        } else if number_spec(interval, u64::MAX as int, 3600) is None {
            Err("DMARC_EMAIL_INTERVAL is not a number: "@ + raw_of(interval))
        } else {
            Ok(
                Some(
                    ConfigModel {
                        host: h,
                        port: number_spec(port, u16::MAX as int, 993)->0,
                        user: filled_spec(user)->0,
                        password: filled_spec(password)->0,
                        mailbox: or_default(mailbox, "INBOX"@),
                        archive: or_default(archive, "Archive"@),
                        interval_secs: number_spec(interval, u64::MAX as int, 3600)->0,
                    },
                ),
            )
        },
    }
}

impl Config {
    /// The configuration as values; the interval as the duration it is.
    pub open spec fn matches(&self, m: ConfigModel) -> bool {
        &&& self.host@ == m.host
        &&& self.port as int == m.port
        &&& self.user@ == m.user
        &&& self.password@ == m.password
        &&& self.mailbox@ == m.mailbox
        &&& self.archive@ == m.archive
        &&& 0 <= m.interval_secs <= u64::MAX
        &&& self.interval == retry::seconds(m.interval_secs as u64)
    }

    /// The configuration the settings make, as [`config_spec`] says. A
    /// half-configured mailbox is an error rather than a silent no-op.
    pub fn from_settings(s: &MailboxSettings) -> (r: Result<Option<Config>, String>)
        ensures
            match (r, config_spec(
                opt_chars(s.host),
                opt_chars(s.user),
                opt_chars(s.password),
                opt_chars(s.port),
                opt_chars(s.mailbox),
                opt_chars(s.archive),
                opt_chars(s.interval),
            )) {
                (Ok(None), Ok(None)) => true,
                (Ok(Some(c)), Ok(Some(m))) => c.matches(m),
                (Err(e), Err(m)) => e@ == m,
                _ => false,
            },
    {
        let host = match settings::filled(s.host) {
            Some(h) => h,
            None => return Ok(None),
        };
        let user = match settings::filled(s.user) {
            Some(u) => u,
            None => return Err(
                text::string_of(&text::chars_of("DMARC_EMAIL_IMAP is set but DMARC_EMAIL_USERNAME is not")),
            ),
        };
        let password = match settings::filled(s.password) {
            Some(p) => p,
            None => return Err(
                text::string_of(&text::chars_of("DMARC_EMAIL_IMAP is set but DMARC_EMAIL_PASSWORD is not")),
            ),
        };
        let port = match settings::number(s.port, 65535, 993) {
            Some(p) => p as u16,
            None => {
                let raw = match s.port {
                    Some(v) => v,
                    None => "",
                };
                return Err(settings::message_with("DMARC_EMAIL_PORT is not a number: ", raw));
            },
        };
        let interval = match settings::number(s.interval, u64::MAX, 3600) {
            Some(n) => n,
            None => {
                let raw = match s.interval {
                    Some(v) => v,
                    None => "",
                };
                return Err(settings::message_with("DMARC_EMAIL_INTERVAL is not a number: ", raw));
            },
        };
        Ok(
            Some(
                Config {
                    host: text::string_of(&host),
                    port,
                    user: text::string_of(&user),
                    password: text::string_of(&password),
                    mailbox: settings::filled_or(s.mailbox, "INBOX"),
                    archive: settings::filled_or(s.archive, "Archive"),
                    interval: Duration::from_secs(interval),
                },
            ),
        )
    }
}

/// What one polling round did.
#[derive(Debug, Default, Clone, Copy, PartialEq, Eq)]
pub struct Outcome {
    pub examined: usize,
    pub stored: usize,
    pub duplicates: usize,
    pub unreadable: usize,
}

impl Outcome {
    /// A round that examined nothing; not worth a log line.
    pub fn quiet(&self) -> (r: bool)
        ensures
            r == (self.examined == 0),
    {
        self.examined == 0
    }

    /// A round that has examined nothing yet.
    pub fn new() -> (r: Outcome)
        ensures
            r.examined == 0 && r.stored == 0 && r.duplicates == 0 && r.unreadable == 0,
    {
        Outcome { examined: 0, stored: 0, duplicates: 0, unreadable: 0 }
    }

    /// Count one examined message: `Some(true)` stored a new report,
    /// `Some(false)` only duplicates, `None` nothing readable.
    pub fn count(&mut self, result: Option<bool>)
        requires
            old(self).examined < usize::MAX,
            result == Some(true) ==> old(self).stored < usize::MAX,
            result == Some(false) ==> old(self).duplicates < usize::MAX,
            result is None ==> old(self).unreadable < usize::MAX,
        ensures
            final(self).examined == old(self).examined + 1,
            result == Some(true) ==> final(self).stored == old(self).stored + 1
                && final(self).duplicates == old(self).duplicates && final(self).unreadable == old(
                self,
            ).unreadable,
            result == Some(false) ==> final(self).duplicates == old(self).duplicates + 1
                && final(self).stored == old(self).stored && final(self).unreadable == old(
                self,
            ).unreadable,
            result is None ==> final(self).unreadable == old(self).unreadable + 1
                && final(self).stored == old(self).stored && final(self).duplicates == old(
                self,
            ).duplicates,
    {
        self.examined = self.examined + 1;
        match result {
            Some(true) => {
                self.stored = self.stored + 1;
            },
            Some(false) => {
                self.duplicates = self.duplicates + 1;
            },
            None => {
                self.unreadable = self.unreadable + 1;
            },
        }
    }
}

/// One part of a mail message, as far as report hunting cares.
#[derive(Debug, Clone, PartialEq, Eq)]
pub enum MailPart {
    /// A text part (`text/*` other than html).
    Text(String),
    /// Any non-text part.
    Binary(Vec<u8>),
    /// Inline binary data.
    InlineBinary(Vec<u8>),
    /// Html, a nested message, or a multipart container.
    Other,
}

pub enum PartView {
    Text(Seq<char>),
    Binary(Seq<u8>),
    InlineBinary(Seq<u8>),
    Other,
}

impl View for MailPart {
    type V = PartView;

    open spec fn view(&self) -> PartView {
        match self {
            MailPart::Text(t) => PartView::Text(t@),
            MailPart::Binary(b) => PartView::Binary(b@),
            MailPart::InlineBinary(b) => PartView::InlineBinary(b@),
            MailPart::Other => PartView::Other,
        }
    }
}

pub open spec fn part_views(v: Seq<MailPart>) -> Seq<PartView> {
    v.map_values(|p: MailPart| p@)
}

/// The parts `mail_parser` finds in a raw message, or `None` when it
/// reads no message at all.
pub uninterp spec fn mail_parts(raw: Seq<u8>) -> Option<Seq<PartView>>;

/// `mail_parser::MessageParser::default().parse`, each part's body told
/// apart by its kind (text, binary, inline binary, anything else) and
/// moved out as it is. Which parts a message yields is named rather than
/// stated; it depends on the bytes alone.
#[verifier::external_body]
fn parse_parts(raw: &[u8]) -> (r: Option<Vec<MailPart>>)
    ensures
        match r {
            Some(v) => mail_parts(raw@) == Some(part_views(v@)),
            None => mail_parts(raw@) is None,
        },
{
    let message = MessageParser::default().parse(raw)?;
    Some(message.parts.iter().map(|part| match &part.body {
        PartType::Text(t) => MailPart::Text(t.to_string()),
        PartType::Binary(b) => MailPart::Binary(b.to_vec()),
        PartType::InlineBinary(b) => MailPart::InlineBinary(b.to_vec()),
        _ => MailPart::Other,
    }).collect())
}

/// A text part that begins (after leading whitespace) like an XML
/// document or a bare `<feedback>` report.
pub open spec fn looks_like_report(t: Seq<char>) -> bool {
    text::starts_with(text::trim_start(t), "<?xml"@) || text::starts_with(
        text::trim_start(t),
        "<feedback"@,
    )
}

/// The parts that may carry a report: every binary part verbatim, and the
/// text parts that look like a report, as UTF-8.
pub open spec fn candidates_spec(parts: Seq<PartView>) -> Seq<Seq<u8>>
    decreases parts.len(),
{
    if parts.len() == 0 {
        Seq::empty()
    } else {
        let rest = candidates_spec(parts.drop_last());
        match parts.last() {
            PartView::Binary(b) => rest.push(b),
            PartView::InlineBinary(b) => rest.push(b),
            PartView::Text(t) => if looks_like_report(t) {
                rest.push(vstd::utf8::encode_utf8(t))
            } else {
                rest
            },
            PartView::Other => rest,
        }
    }
}

fn bytes_of(v: &[u8]) -> (r: Vec<u8>)
    ensures
        r@ == v@,
{
    let mut out: Vec<u8> = Vec::new();
    let mut i: usize = 0;
    while i < v.len()
        invariant
            i <= v@.len(),
            out@ == v@.take(i as int),
        decreases v@.len() - i,
    {
        out.push(v[i]);
        assert(out@ =~= v@.take(i + 1));
        i = i + 1;
    }
    assert(v@.take(v@.len() as int) =~= v@);
    out
}

/// The candidates among parsed parts.
pub fn candidates_of(parts: &[MailPart]) -> (r: Vec<Vec<u8>>)
    ensures
        r@.map_values(|b: Vec<u8>| b@) == candidates_spec(part_views(parts@)),
{
    let ghost pv = part_views(parts@);
    let xml = text::chars_of("<?xml");
    let feedback = text::chars_of("<feedback");
    let mut out: Vec<Vec<u8>> = Vec::new();
    let mut i: usize = 0;
    while i < parts.len()
        invariant
            i <= parts@.len(),
            pv == part_views(parts@),
            xml@ == "<?xml"@,
            feedback@ == "<feedback"@,
            out@.map_values(|b: Vec<u8>| b@) == candidates_spec(pv.take(i as int)),
        decreases parts@.len() - i,
    {
        assert(pv.take(i + 1).drop_last() =~= pv.take(i as int));
        assert(pv.take(i + 1).last() == parts@[i as int]@);
        let ghost before = out@.map_values(|b: Vec<u8>| b@);
        match &parts[i] {
            MailPart::Binary(b) => {
                out.push(bytes_of(b.as_slice()));
                assert(out@.map_values(|b: Vec<u8>| b@) =~= before.push(b@));
            },
            MailPart::InlineBinary(b) => {
                out.push(bytes_of(b.as_slice()));
                assert(out@.map_values(|b: Vec<u8>| b@) =~= before.push(b@));
            },
            MailPart::Text(t) => {
                let c = text::chars_of(t.as_str());
                let head = text::trimmed_start(&c);
                if text::starts_with_seq(&head, &xml) || text::starts_with_seq(&head, &feedback) {
                    let bytes = bytes_of(t.as_str().as_bytes());
                    out.push(bytes);
                    assert(out@.map_values(|b: Vec<u8>| b@) =~= before.push(
                        vstd::utf8::encode_utf8(t@),
                    ));
                }
            },
            MailPart::Other => {},
        }
        i = i + 1;
    }
    assert(pv.take(parts@.len() as int) =~= pv);
    out
}

/// What `candidates` offers of a raw message.
pub open spec fn message_candidates(raw: Seq<u8>) -> Seq<Seq<u8>> {
    match mail_parts(raw) {
        Some(parts) => candidates_spec(parts),
        None => Seq::empty(),
    }
}

/// The parts of a raw message that may carry a report. A message that
/// does not parse offers nothing.
pub fn candidates(raw: &[u8]) -> (r: Vec<Vec<u8>>)
    ensures
        r@.map_values(|b: Vec<u8>| b@) == message_candidates(raw@),
{
    match parse_parts(raw) {
        Some(parts) => candidates_of(parts.as_slice()),
        None => {
            let out: Vec<Vec<u8>> = Vec::new();
            assert(out@.map_values(|b: Vec<u8>| b@) =~= Seq::<Seq<u8>>::empty());
            out
        },
    }
}

/// How one message ends once its candidates were tried: stored when any
/// report was new; otherwise the first failure, if there was one; a
/// message with only duplicates is no failure.
pub fn message_verdict(stored: bool, failures: &Vec<String>) -> (r: Result<bool, String>)
    ensures
        stored ==> r == Ok::<bool, String>(true),
        !stored && failures@.len() == 0 ==> r == Ok::<bool, String>(false),
        !stored && failures@.len() > 0 ==> (r matches Err(m) && m@ == failures@[0]@),
{
    if !stored && failures.len() > 0 {
        return Err(failures[0].clone());
    }
    Ok(stored)
}

} // verus!
