//! Domain-verification evaluation.

use postbud::dnscheck::{
    dmarc_names, evaluate, organizational_domain, report_auth_names, resolvers, rua_domains,
    Expected, Observed, Resolvers, Status,
};

fn expected() -> Expected {
    Expected {
        spf: "v=spf1 ip4:192.0.2.10 -all".into(),
        dkim_public_key: "MIIBIjANBgkqAAAA".into(),
        mx: Some("mail.example.com".into()),
    }
}

fn all_good() -> Observed {
    Observed {
        domain_txt: vec!["v=spf1 ip4:192.0.2.10 -all".into()],
        dkim_txt: vec!["v=DKIM1; h=sha256; k=rsa; p=MIIBIjANBgkqAAAA".into()],
        dmarc_txt: vec!["v=DMARC1; p=none".into()],
        dmarc_found_at: Some("_dmarc.sub.example.com".into()),
        mx: vec!["mail.example.com.".into()],
        report_auth: Vec::new(),
    }
}

#[test]
fn a_fully_published_domain_is_valid() {
    let r = evaluate(&expected(), &all_good());
    assert!(r.valid, "{r:?}");
}

#[test]
fn duplicate_spf_is_a_mismatch_even_if_one_matches() {
    let mut o = all_good();
    o.domain_txt
        .push("v=spf1 include:other.example ~all".into());
    let r = evaluate(&expected(), &o);
    assert_eq!(r.spf.status, Status::Mismatch);
    assert!(r.spf.observed.unwrap().contains("PermError"));
    assert!(!r.valid);
}

#[test]
fn wrong_dkim_key_is_a_mismatch_not_ok() {
    let mut o = all_good();
    o.dkim_txt = vec!["v=DKIM1; k=rsa; p=SOMEOTHERKEY".into()];
    let r = evaluate(&expected(), &o);
    assert_eq!(r.dkim.status, Status::Mismatch);
    assert!(!r.valid);
}

#[test]
fn dkim_comparison_survives_chunking_artifacts() {
    let mut o = all_good();
    o.dkim_txt = vec!["v=DKIM1; k=rsa; p=MIIBIjANB\" \"gkqAAAA".into()];
    let r = evaluate(&expected(), &o);
    assert_eq!(r.dkim.status, Status::Okay);
}

#[test]
fn unrelated_txt_records_do_not_disturb_spf() {
    let mut o = all_good();
    o.domain_txt.insert(0, "brevo-code:abc123".into());
    o.domain_txt.push("google-site-verification=xyz".into());
    let r = evaluate(&expected(), &o);
    assert_eq!(r.spf.status, Status::Okay);
}

#[test]
fn missing_records_report_missing() {
    let o = Observed::default();
    let r = evaluate(&expected(), &o);
    assert_eq!(r.spf.status, Status::Missing);
    assert_eq!(r.dkim.status, Status::Missing);
    assert_eq!(r.dmarc.status, Status::Missing);
    assert_eq!(r.mx.unwrap().status, Status::Missing);
    assert!(!r.valid);
}

#[test]
fn a_domain_without_expected_mx_ignores_mx() {
    let mut e = expected();
    e.mx = None;
    let mut o = all_good();
    o.mx.clear();
    let r = evaluate(&e, &o);
    assert!(r.mx.is_none());
    assert!(r.valid);
}

#[test]
fn mx_matching_ignores_case_and_trailing_dot() {
    let mut o = all_good();
    o.mx = vec!["MAIL.EXAMPLE.COM".into()];
    let r = evaluate(&expected(), &o);
    assert_eq!(r.mx.unwrap().status, Status::Okay);
}

#[test]
fn dmarc_lookup_skips_intermediate_labels() {
    assert_eq!(
        dmarc_names("mail.sub.example.com"),
        vec![
            "_dmarc.mail.sub.example.com".to_string(),
            "_dmarc.example.com".to_string(),
        ]
    );
    assert_eq!(
        dmarc_names("example.com"),
        vec!["_dmarc.example.com".to_string()]
    );
}

#[test]
fn dmarc_names_normalize_case_and_the_root_dot() {
    assert_eq!(
        dmarc_names("Mail.Example.COM."),
        vec![
            "_dmarc.mail.example.com".to_string(),
            "_dmarc.example.com".to_string(),
        ]
    );
}

#[test]
fn rua_addresses_yield_their_hosts() {
    assert_eq!(
        rua_domains("v=DMARC1; p=none; rua=mailto:a@x.example,mailto:b@y.example!10m"),
        vec!["x.example".to_string(), "y.example".to_string()]
    );
    assert!(rua_domains("v=DMARC1; p=reject").is_empty());
}

#[test]
fn a_same_domain_rua_needs_no_authorization() {
    assert!(
        report_auth_names("example.com", "v=DMARC1; p=none; rua=mailto:d@example.com")
            .is_empty()
    );
    assert!(
        report_auth_names(
            "mail.example.com",
            "v=DMARC1; p=none; rua=mailto:d@example.com"
        )
        .is_empty()
    );
}

#[test]
fn an_external_rua_names_the_record_the_other_host_must_publish() {
    assert_eq!(
        report_auth_names(
            "sub.example.com",
            "v=DMARC1; p=none; rua=mailto:d@other.example"
        ),
        vec!["sub.example.com._report._dmarc.other.example".to_string()]
    );
}

#[test]
fn an_unauthorized_external_rua_is_reported_missing() {
    let mut o = all_good();
    o.report_auth = vec![(
        "sub.example.com._report._dmarc.other.example".into(),
        Vec::new(),
    )];
    let r = evaluate(&expected(), &o);
    let auth = r.report_auth.expect("a destination was checked");
    assert_eq!(auth.status, Status::Missing);
    assert!(auth.observed.unwrap().contains("will NOT be sent"));
    assert!(r.valid);
}

#[test]
fn an_authorized_external_rua_is_ok_and_no_destination_is_none() {
    let mut o = all_good();
    o.report_auth = vec![(
        "sub.example.com._report._dmarc.other.example".into(),
        vec!["v=DMARC1".into()],
    )];
    assert_eq!(
        evaluate(&expected(), &o).report_auth.unwrap().status,
        Status::Okay
    );
    assert!(evaluate(&expected(), &all_good()).report_auth.is_none());
}

#[test]
fn the_observed_texts_are_what_an_operator_needs() {
    let r = evaluate(&expected(), &all_good());
    assert_eq!(r.spf.observed.as_deref(), Some("v=spf1 ip4:192.0.2.10 -all"));
    assert_eq!(
        r.dmarc.observed.as_deref(),
        Some("v=DMARC1; p=none (at _dmarc.sub.example.com)")
    );
    assert_eq!(r.mx.unwrap().observed.as_deref(), Some("mail.example.com."));
    let mut o = all_good();
    o.domain_txt = vec!["v=spf1  a".into(), "V=SPF1 b".into(), "v=spf1 c".into()];
    let r = evaluate(&expected(), &o);
    assert_eq!(
        r.spf.observed.as_deref(),
        Some("3 SPF records \u{2014} RFC 7208 PermError; receivers treat the domain as having none")
    );
    assert_eq!(Status::Okay.as_str(), "ok");
    assert_eq!(Status::Missing.as_str(), "missing");
    assert_eq!(Status::Mismatch.as_str(), "mismatch");
}

#[test]
fn the_organizational_domain_is_the_last_two_labels() {
    assert_eq!(organizational_domain("a.b.Example.COM."), "example.com");
    assert_eq!(organizational_domain("Example.com"), "example.com");
    assert_eq!(organizational_domain("localhost"), "localhost");
}

#[test]
fn several_unauthorized_destinations_are_all_named() {
    let mut o = all_good();
    o.report_auth = vec![
        ("a._report._dmarc.x.example".into(), vec!["v=spf1".into()]),
        ("a._report._dmarc.y.example".into(), vec![" v=dmarc1; ".into()]),
        ("a._report._dmarc.z.example".into(), Vec::new()),
    ];
    let auth = evaluate(&expected(), &o).report_auth.unwrap();
    assert_eq!(auth.status, Status::Missing);
    assert_eq!(
        auth.observed.as_deref(),
        Some("reports will NOT be sent: a._report._dmarc.x.example, a._report._dmarc.z.example is missing")
    );
}

#[test]
fn rua_hosts_are_deduplicated_and_need_mailto() {
    assert_eq!(
        rua_domains("v=DMARC1; RUA = mailto:a@X.example. , https://x.example, MAILTO:b@x.example; rua=mailto:c@w.example"),
        vec!["x.example".to_string(), "w.example".to_string()]
    );
}

#[test]
fn a_record_cut_inside_a_character_is_refused_before_evaluation() {
    assert!(postbud::dnscheck::cuts_ok(&all_good()));
    // "v=spf\u{e9}" puts byte 6 inside the two-byte é.
    let mut o = all_good();
    o.domain_txt.push("v=spf\u{e9}1".into());
    assert!(!postbud::dnscheck::cuts_ok(&o));
    // Short records are never cut.
    let mut o = all_good();
    o.domain_txt.push("\u{e9}".into());
    assert!(postbud::dnscheck::cuts_ok(&o));
    // DMARC candidates after the first DMARC record are not read.
    let mut o = all_good();
    o.dmarc_txt.push("v=DMARC\u{e9}".into());
    assert!(postbud::dnscheck::cuts_ok(&o));
    let mut o = all_good();
    o.dmarc_txt.insert(0, "v=DMARC\u{e9}".into());
    assert!(!postbud::dnscheck::cuts_ok(&o));
}

#[test]
fn rua_uris_are_cut_after_seven_bytes() {
    assert!(postbud::dnscheck::rua_cuts("v=DMARC1; p=none; rua=mailto:a@x.example"));
    assert!(!postbud::dnscheck::rua_cuts("v=DMARC1; rua=mailto\u{e9}a@x.example"));
    // Only the rua tag is read.
    assert!(postbud::dnscheck::rua_cuts("v=DMARC1; ruf=mailto\u{e9}a@x.example"));
}

#[test]
fn the_first_dmarc_record_is_the_one_applied() {
    let txt = vec![
        "google-site-verification=abc".to_string(),
        "  v=dmarc1; p=reject".to_string(),
        "v=DMARC1; p=none".to_string(),
    ];
    assert_eq!(postbud::dnscheck::dmarc_record_index(&txt), Some(1));
    assert_eq!(postbud::dnscheck::dmarc_record_index(&txt[..1]), None);
}

#[test]
fn a_failing_domain_is_rechecked_in_minutes_and_a_valid_one_daily() {
    let due = postbud::dnscheck::domain_check_due;
    assert!(due(None));
    assert!(!due(Some((false, 900))));
    assert!(due(Some((false, 901))));
    assert!(!due(Some((true, 86_400))));
    assert!(due(Some((true, 86_401))));
}

#[test]
fn public_resolvers_answer_unless_told_otherwise() {
    assert_eq!(resolvers(None), Resolvers::Public);
    assert_eq!(resolvers(Some(" , ")), Resolvers::Public);
    assert_eq!(resolvers(Some(" System ")), Resolvers::System);
    assert_eq!(
        resolvers(Some("1.1.1.1, 9.9.9.9,")),
        Resolvers::Listed(vec!["1.1.1.1".to_string(), "9.9.9.9".to_string()])
    );
}
