//! Settings read from the environment, once fetched.

use postbud::ledger::{pool_size, retention_days};
use postbud::oidc::{login_settings, OidcSettings};
use postbud::poller::{Config as MailboxConfig, MailboxSettings};
use postbud::queuereport::{Config as ReporterConfig, ReporterSettings};
use postbud::relay::{settings as relay_settings, RelaySettings, SettingsError, TlsMode};
use postbud::settings::{filled_or, number};
use postbud::text::{cut_ok_at, parse_u64};
use postbud::worker::{concurrency_from, Config as WorkerConfig, WorkerSettings};
use std::time::Duration;

fn chars(s: &str) -> Vec<char> {
    s.chars().collect()
}

fn mailbox<'a>(host: Option<&'a str>) -> MailboxSettings<'a> {
    MailboxSettings {
        host,
        user: Some("reports"),
        password: Some("secret"),
        port: None,
        mailbox: None,
        archive: None,
        interval: None,
    }
}

#[test]
fn unsigned_numbers_parse_as_rust_reads_them() {
    assert_eq!(parse_u64(&chars("0")), Some(0));
    assert_eq!(parse_u64(&chars("+42")), Some(42));
    assert_eq!(parse_u64(&chars("18446744073709551615")), Some(u64::MAX));
    assert_eq!(parse_u64(&chars("18446744073709551616")), None);
    assert_eq!(parse_u64(&chars("-1")), None);
    assert_eq!(parse_u64(&chars("+")), None);
    assert_eq!(parse_u64(&chars("")), None);
    assert_eq!(parse_u64(&chars(" 7")), None);
    assert_eq!(parse_u64(&chars("7a")), None);
}

#[test]
fn a_numeric_setting_is_trimmed_bounded_and_defaulted() {
    assert_eq!(number(None, 65535, 993), Some(993));
    assert_eq!(number(Some("   "), 65535, 993), Some(993));
    assert_eq!(number(Some(" 143 "), 65535, 993), Some(143));
    assert_eq!(number(Some("65536"), 65535, 993), None);
    assert_eq!(number(Some("imap"), 65535, 993), None);
    assert_eq!(filled_or(Some("  Reports "), "INBOX"), "Reports");
    assert_eq!(filled_or(Some("  "), "INBOX"), "INBOX");
}

#[test]
fn report_collection_is_off_without_a_host() {
    assert!(matches!(MailboxConfig::from_settings(&mailbox(None)), Ok(None)));
    assert!(matches!(MailboxConfig::from_settings(&mailbox(Some("  "))), Ok(None)));
}

#[test]
fn a_mailbox_takes_its_defaults() {
    let c = MailboxConfig::from_settings(&mailbox(Some(" imap.example.com ")))
        .unwrap()
        .unwrap();
    assert_eq!(c.host, "imap.example.com");
    assert_eq!(c.port, 993);
    assert_eq!(c.user, "reports");
    assert_eq!(c.password, "secret");
    assert_eq!(c.mailbox, "INBOX");
    assert_eq!(c.archive, "Archive");
    assert_eq!(c.interval, Duration::from_secs(3600));
}

#[test]
fn a_half_configured_mailbox_is_an_error() {
    let mut s = mailbox(Some("imap.example.com"));
    s.user = Some("  ");
    assert_eq!(
        MailboxConfig::from_settings(&s).err().unwrap(),
        "DMARC_EMAIL_IMAP is set but DMARC_EMAIL_USERNAME is not"
    );
    let mut s = mailbox(Some("imap.example.com"));
    s.password = None;
    assert_eq!(
        MailboxConfig::from_settings(&s).err().unwrap(),
        "DMARC_EMAIL_IMAP is set but DMARC_EMAIL_PASSWORD is not"
    );
}

#[test]
fn a_malformed_mailbox_number_names_what_was_given() {
    let mut s = mailbox(Some("imap.example.com"));
    s.port = Some("imaps");
    assert_eq!(
        MailboxConfig::from_settings(&s).err().unwrap(),
        "DMARC_EMAIL_PORT is not a number: imaps"
    );
    let mut s = mailbox(Some("imap.example.com"));
    s.interval = Some("hourly");
    assert_eq!(
        MailboxConfig::from_settings(&s).err().unwrap(),
        "DMARC_EMAIL_INTERVAL is not a number: hourly"
    );
    let mut s = mailbox(Some("imap.example.com"));
    s.port = Some(" 143 ");
    s.interval = Some("60");
    s.mailbox = Some("Reports");
    let c = MailboxConfig::from_settings(&s).unwrap().unwrap();
    assert_eq!(c.port, 143);
    assert_eq!(c.interval, Duration::from_secs(60));
    assert_eq!(c.mailbox, "Reports");
}

#[test]
fn worker_concurrency_defaults_to_eight_and_is_at_least_one() {
    assert_eq!(concurrency_from(None).unwrap(), 8);
    assert_eq!(concurrency_from(Some("3")).unwrap(), 3);
    assert_eq!(
        concurrency_from(Some("0")).err().unwrap(),
        "WORKER_CONCURRENCY must be at least 1"
    );
    assert_eq!(
        concurrency_from(Some("many")).err().unwrap(),
        "WORKER_CONCURRENCY must be a number"
    );
    assert_eq!(
        concurrency_from(Some(" 3")).err().unwrap(),
        "WORKER_CONCURRENCY must be a number"
    );
}

#[test]
fn a_worker_is_named_after_its_host_by_default() {
    let s = WorkerSettings {
        name: None,
        hostname: Some("node-a"),
        batch: None,
        idle_ms: None,
        concurrency: None,
    };
    let c = WorkerConfig::from_settings(&s).unwrap();
    assert_eq!(c.worker_name, "node-a");
    assert_eq!(c.batch, 20);
    assert_eq!(c.concurrency, 8);
    assert_eq!(c.idle, Duration::from_millis(2000));

    let s = WorkerSettings {
        name: None,
        hostname: None,
        batch: Some("-5"),
        idle_ms: Some("250"),
        concurrency: Some("2"),
    };
    let c = WorkerConfig::from_settings(&s).unwrap();
    assert_eq!(c.worker_name, "postbud-worker");
    assert_eq!(c.batch, -5);
    assert_eq!(c.idle, Duration::from_millis(250));
    assert_eq!(c.concurrency, 2);
}

#[test]
fn a_worker_setting_that_is_not_a_number_is_reported_first_come() {
    let s = WorkerSettings {
        name: Some("w1"),
        hostname: None,
        batch: Some("lots"),
        idle_ms: Some("never"),
        concurrency: Some("0"),
    };
    assert_eq!(
        WorkerConfig::from_settings(&s).err().unwrap(),
        "WORKER_BATCH must be a number"
    );
    let s = WorkerSettings { batch: None, ..s };
    assert_eq!(
        WorkerConfig::from_settings(&s).err().unwrap(),
        "WORKER_IDLE_MS must be a number"
    );
    let s = WorkerSettings { idle_ms: None, ..s };
    assert_eq!(
        WorkerConfig::from_settings(&s).err().unwrap(),
        "WORKER_CONCURRENCY must be at least 1"
    );
}

#[test]
fn the_queue_reporter_needs_an_address_and_a_token() {
    let s = ReporterSettings { socket: None, postbud_url: None, token: Some("t"), interval: None };
    assert_eq!(
        ReporterConfig::from_settings(&s).err().unwrap(),
        "POSTBUD_URL is required for queue-report"
    );
    let s = ReporterSettings {
        socket: None,
        postbud_url: Some("http://api:8080"),
        token: None,
        interval: None,
    };
    assert_eq!(
        ReporterConfig::from_settings(&s).err().unwrap(),
        "BOUNCE_INGEST_TOKEN is required for queue-report"
    );
}

#[test]
fn the_queue_reporter_falls_back_to_five_seconds() {
    let s = ReporterSettings {
        socket: None,
        postbud_url: Some("http://api:8080"),
        token: Some("t"),
        interval: Some("soon"),
    };
    let c = ReporterConfig::from_settings(&s).unwrap();
    assert_eq!(c.socket, "/var/spool/postfix/public/showq");
    assert_eq!(c.postbud_url, "http://api:8080");
    assert_eq!(c.token, "t");
    assert_eq!(c.interval, Duration::from_secs(5));
    let s = ReporterSettings { interval: Some("30"), socket: Some("/tmp/showq"), ..s };
    let c = ReporterConfig::from_settings(&s).unwrap();
    assert_eq!(c.interval, Duration::from_secs(30));
    assert_eq!(c.socket, "/tmp/showq");
}

#[test]
fn the_relay_needs_a_host_and_a_port_number() {
    let base = RelaySettings { host: None, port: None, tls: None, user: None, password: None };
    assert!(matches!(relay_settings(&base), Err(SettingsError::MissingHost)));
    let s = RelaySettings { host: Some("relay.tailnet"), port: Some("99999"), ..base };
    assert!(matches!(relay_settings(&s), Err(SettingsError::BadPort)));
    let s = RelaySettings { host: Some("relay.tailnet"), tls: Some("ssl"), ..base };
    match relay_settings(&s) {
        Err(SettingsError::BadTls(v)) => assert_eq!(v, "ssl"),
        _ => panic!("an unknown mode is refused"),
    }
}

#[test]
fn the_relay_defaults_to_starttls_on_port_25() {
    let s = RelaySettings {
        host: Some("relay.tailnet"),
        port: None,
        tls: None,
        user: Some("u"),
        password: None,
    };
    let r = relay_settings(&s).ok().unwrap();
    assert_eq!(r.host, "relay.tailnet");
    assert_eq!(r.port, 25);
    assert_eq!(r.tls, TlsMode::StartTls);
    assert!(r.credentials.is_none());
    let s = RelaySettings { port: Some("587"), tls: Some("none"), password: Some("p"), ..s };
    let r = relay_settings(&s).ok().unwrap();
    assert_eq!(r.port, 587);
    assert_eq!(r.tls, TlsMode::Plain);
    assert_eq!(r.credentials, Some(("u".to_string(), "p".to_string())));
}

#[test]
fn the_pool_ceiling_falls_back_to_eight() {
    assert_eq!(pool_size(None), 8);
    assert_eq!(pool_size(Some("0")), 8);
    assert_eq!(pool_size(Some("x")), 8);
    assert_eq!(pool_size(Some("4294967296")), 8);
    assert_eq!(pool_size(Some("16")), 16);
}

#[test]
fn body_retention_defaults_to_thirty_days() {
    assert_eq!(retention_days(None).unwrap(), 30);
    assert_eq!(retention_days(Some("7")).unwrap(), 7);
    assert_eq!(
        retention_days(Some("a week")).err().unwrap(),
        "BODY_RETENTION_DAYS must be a number"
    );
}

#[test]
fn oidc_login_is_off_without_an_issuer_and_refused_when_half_set() {
    let s = OidcSettings { issuer: None, client_id: None, users: None, client_secret: None };
    assert!(matches!(login_settings(&s), Ok(None)));
    let s = OidcSettings { issuer: Some("https://id.example.com/"), ..s };
    assert_eq!(
        login_settings(&s).err().unwrap(),
        "ADMIN_OIDC_ISSUER is set but ADMIN_OIDC_CLIENT_ID is not"
    );
    let s = OidcSettings { client_id: Some("postbud"), ..s };
    assert_eq!(
        login_settings(&s).err().unwrap(),
        "ADMIN_OIDC_ISSUER is set but ADMIN_OIDC_USERS is not"
    );
    let s = OidcSettings { users: Some(" , ,"), ..s };
    assert_eq!(
        login_settings(&s).err().unwrap(),
        "ADMIN_OIDC_USERS must name at least one admin"
    );
    let s = OidcSettings { users: Some("ada@example.com, grace"), ..s };
    let l = login_settings(&s).unwrap().unwrap();
    assert_eq!(l.issuer, "https://id.example.com");
    assert_eq!(l.client_id, "postbud");
    assert_eq!(l.client_secret, None);
    assert_eq!(l.users, vec!["ada@example.com".to_string(), "grace".to_string()]);
}

#[test]
fn a_cut_is_safe_short_of_the_end_or_on_a_character_boundary() {
    assert!(cut_ok_at(&chars("mailto:x"), 7));
    assert!(cut_ok_at(&chars("mail"), 7));
    assert!(cut_ok_at(&chars("mailt\u{f6}"), 7));
    assert!(!cut_ok_at(&chars("mailt\u{f6}x"), 6));
    assert!(cut_ok_at(&chars(""), 0));
}

#[test]
fn the_queue_report_goes_to_the_api_queue_endpoint() {
    let s = ReporterSettings {
        socket: None,
        postbud_url: Some("http://api:8080//"),
        token: Some("t"),
        interval: None,
    };
    let c = ReporterConfig::from_settings(&s).unwrap();
    assert_eq!(c.queue_url(), "http://api:8080/v1/relay/queue");
}
