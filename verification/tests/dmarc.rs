//! Aggregate report reading: unwrapping, screening, and the report itself.

use postbud::dmarc::raw;
use postbud::dmarc::{clipped, extract, report_from, screened_text, xml_error, Error, MAX_UNCOMPRESSED};
use std::io::Write as _;

const REPORT: &str = r#"<?xml version="1.0" ?>
<feedback>
  <version>1.0</version>
  <report_metadata>
    <org_name>reporter.example</org_name>
    <email>noreply-dmarc@reporter.example</email>
    <report_id>20260819.abc123@reporter.example</report_id>
    <date_range><begin>1787011200</begin><end>1787097599</end></date_range>
  </report_metadata>
  <policy_published>
    <domain>mail.example.com</domain>
    <adkim>r</adkim><aspf>r</aspf><p>quarantine</p><sp>quarantine</sp><pct>100</pct>
  </policy_published>
  <record>
    <row>
      <source_ip>198.51.100.7</source_ip>
      <count>31</count>
      <policy_evaluated><disposition>none</disposition><dkim>pass</dkim><spf>pass</spf></policy_evaluated>
    </row>
    <identifiers><header_from>Mail.Example.COM</header_from></identifiers>
    <auth_results>
      <dkim><domain>mail.example.com</domain><result>pass</result><selector>sel2026</selector></dkim>
      <spf><domain>mail.example.com</domain><result>pass</result></spf>
    </auth_results>
  </record>
</feedback>"#;

fn s(v: &str) -> Option<String> {
    Some(v.to_string())
}

/// The fields of `REPORT`, as the document lays them out.
fn report_fields() -> raw::Feedback {
    raw::Feedback {
        report_metadata: Some(raw::ReportMetadata {
            org_name: s("reporter.example"),
            email: s("noreply-dmarc@reporter.example"),
            report_id: s("20260819.abc123@reporter.example"),
            date_range: Some(raw::DateRange { begin: s("1787011200"), end: s("1787097599") }),
        }),
        policy_published: Some(raw::PolicyPublished {
            domain: s("mail.example.com"),
            adkim: s("r"),
            aspf: s("r"),
            p: s("quarantine"),
            sp: s("quarantine"),
            pct: s("100"),
        }),
        records: vec![raw::Record {
            row: Some(raw::Row {
                source_ip: s("198.51.100.7"),
                count: s("31"),
                policy_evaluated: Some(raw::PolicyEvaluated {
                    disposition: s("none"),
                    dkim: s("pass"),
                    spf: s("pass"),
                    reason: Vec::new(),
                }),
            }),
            identifiers: Some(raw::Identifiers { header_from: s("Mail.Example.COM") }),
            auth_results: Some(raw::AuthResults {
                dkim: vec![raw::DkimAuth {
                    domain: s("mail.example.com"),
                    result: s("pass"),
                    selector: s("sel2026"),
                }],
                spf: vec![raw::SpfAuth { domain: s("mail.example.com"), result: s("pass") }],
            }),
        }],
    }
}

#[test]
fn a_bare_document_needs_no_unwrapping() {
    let docs = extract(REPORT.as_bytes()).expect("passes through");
    assert_eq!(docs.len(), 1);
    assert_eq!(docs[0], REPORT.as_bytes());
}

#[test]
fn a_document_declaring_entities_is_refused() {
    let xml = "<?xml version=\"1.0\"?>\n\
               <!DOCTYPE feedback [<!ENTITY boom \"AAAAAAAA\">]>\n\
               <feedback>&boom;</feedback>";
    assert!(matches!(screened_text(xml.as_bytes()), Err(Error::Doctype)));
}

#[test]
fn a_decompression_bomb_is_refused() {
    let mut enc = flate2::write::GzEncoder::new(Vec::new(), flate2::Compression::best());
    let chunk = vec![b'A'; 1024 * 1024];
    for _ in 0..(MAX_UNCOMPRESSED / chunk.len() + 1) {
        enc.write_all(&chunk).unwrap();
    }
    let blob = enc.finish().unwrap();
    assert!(blob.len() < 1024 * 1024, "bomb should be small on the wire");
    assert!(matches!(extract(&blob), Err(Error::TooLarge)));
}

#[test]
fn a_gzipped_report_is_unwrapped() {
    let mut enc = flate2::write::GzEncoder::new(Vec::new(), flate2::Compression::default());
    enc.write_all(REPORT.as_bytes()).unwrap();
    let blob = enc.finish().unwrap();
    let docs = extract(&blob).expect("unwraps");
    assert_eq!(docs, vec![REPORT.as_bytes().to_vec()]);
    // The document unwrapped is the one whose fields read as this report.
    assert_eq!(report_from(&report_fields()).unwrap().domain, "mail.example.com");
}

#[test]
fn a_zipped_report_is_unwrapped() {
    let mut zw = zip::ZipWriter::new(std::io::Cursor::new(Vec::new()));
    zw.add_directory("reports/", zip::write::SimpleFileOptions::default()).unwrap();
    zw.start_file("report.xml", zip::write::SimpleFileOptions::default())
        .unwrap();
    zw.write_all(REPORT.as_bytes()).unwrap();
    let blob = zw.finish().unwrap().into_inner();
    let docs = extract(&blob).expect("unwraps");
    assert_eq!(docs, vec![REPORT.as_bytes().to_vec()]);
    // The document unwrapped is the one whose fields read as this report.
    assert_eq!(report_from(&report_fields()).unwrap().domain, "mail.example.com");
}

#[test]
fn a_zip_of_only_directories_is_empty_and_a_crowded_one_refused() {
    let mut zw = zip::ZipWriter::new(std::io::Cursor::new(Vec::new()));
    zw.add_directory("nothing/", zip::write::SimpleFileOptions::default()).unwrap();
    let blob = zw.finish().unwrap().into_inner();
    assert!(matches!(extract(&blob), Err(Error::Empty)));

    let mut zw = zip::ZipWriter::new(std::io::Cursor::new(Vec::new()));
    for i in 0..17 {
        zw.start_file(format!("r{i}.xml"), zip::write::SimpleFileOptions::default()).unwrap();
        zw.write_all(b"<feedback/>").unwrap();
    }
    let blob = zw.finish().unwrap().into_inner();
    assert!(matches!(extract(&blob), Err(Error::TooManyMembers)));
}

#[test]
fn a_broken_archive_is_an_archive_error() {
    let blob = b"PK\x03\x04 certainly not a zip".to_vec();
    match extract(&blob) {
        Err(Error::Archive(m)) => assert!(!m.is_empty() && !m.contains('\n')),
        other => panic!("expected an archive error, got {other:?}"),
    }
    let gz = [0x1f, 0x8b, 0x00, 0x01, 0x02];
    assert!(matches!(extract(&gz), Err(Error::Archive(_))));
}

#[test]
fn screening_strips_marks_and_whitespace() {
    let doc = format!("\u{feff}\u{feff}  {REPORT}\n\n");
    assert_eq!(screened_text(doc.as_bytes()).unwrap(), REPORT);
    let late = format!("{}<!DOCTYPE x>", " ".repeat(5000));
    let text = format!("<feedback>{late}</feedback>");
    assert!(screened_text(text.as_bytes()).is_ok(), "only the head is screened");
}

#[test]
fn a_report_parses_whole() {
    let r = report_from(&report_fields()).expect("a report");
    assert_eq!(r.org_name, "reporter.example");
    assert_eq!(r.report_id, "20260819.abc123@reporter.example");
    assert_eq!(r.domain, "mail.example.com");
    assert_eq!(r.p.as_deref(), Some("quarantine"));
    assert_eq!(r.pct, Some(100));
    assert_eq!(r.begin, 1787011200);
    assert_eq!(r.records.len(), 1);
    let rec = &r.records[0];
    assert_eq!(rec.source_ip, "198.51.100.7");
    assert_eq!(rec.count, 31);
    assert!(rec.passed());
    assert_eq!(rec.header_from, "mail.example.com");
    assert_eq!(rec.auth.dkim[0].selector.as_deref(), Some("sel2026"));
}

#[test]
fn missing_essentials_are_not_a_report() {
    let mut f = report_fields();
    f.policy_published.as_mut().unwrap().domain = s("   ");
    assert!(matches!(report_from(&f), Err(Error::NotAReport("no policy domain"))));
    let mut f = report_fields();
    f.report_metadata.as_mut().unwrap().report_id = None;
    assert!(matches!(report_from(&f), Err(Error::NotAReport("no report_id"))));
    let mut f = report_fields();
    f.policy_published = None;
    assert!(matches!(report_from(&f), Err(Error::NotAReport("no policy_published"))));
    let f = raw::Feedback::default();
    assert!(matches!(report_from(&f), Err(Error::NotAReport("no report_metadata"))));
}

#[test]
fn absent_or_unreadable_fields_have_their_defaults() {
    let f = raw::Feedback {
        report_metadata: Some(raw::ReportMetadata { report_id: s(" x "), ..Default::default() }),
        policy_published: Some(raw::PolicyPublished {
            domain: s(" Example.COM "),
            pct: s("lots"),
            ..Default::default()
        }),
        records: vec![raw::Record::default()],
    };
    let r = report_from(&f).unwrap();
    assert_eq!(r.org_name, "unknown");
    assert_eq!(r.report_id, "x");
    assert_eq!(r.domain, "example.com");
    assert_eq!(r.begin, 0);
    assert_eq!(r.pct, None);
    let rec = &r.records[0];
    assert_eq!(rec.source_ip, "");
    assert_eq!(rec.count, 0);
    assert_eq!(rec.disposition, "unknown");
    assert_eq!(rec.dkim_aligned, "unknown");
    assert!(!rec.passed());
    assert!(rec.auth.dkim.is_empty() && rec.reasons.is_empty());
}

#[test]
fn overrides_and_raw_results_are_kept() {
    let mut f = report_fields();
    let rec = &mut f.records[0];
    let ev = rec.row.as_mut().unwrap().policy_evaluated.as_mut().unwrap();
    ev.dkim = s("FAIL");
    ev.spf = s(" fail ");
    ev.reason = vec![raw::Reason { kind: s(" Forwarded "), comment: s(" known forwarder ") }];
    rec.auth_results.as_mut().unwrap().spf =
        vec![raw::SpfAuth { domain: s("Bounces.Sender.EXAMPLE"), result: s("PASS") }];
    let r = report_from(&f).unwrap();
    let rec = &r.records[0];
    assert!(!rec.passed());
    assert_eq!(rec.spf_aligned, "fail");
    assert_eq!(rec.reasons[0].kind, "forwarded");
    assert_eq!(rec.reasons[0].comment.as_deref(), Some("known forwarder"));
    assert_eq!(rec.auth.spf[0].domain, "bounces.sender.example");
    assert_eq!(rec.auth.spf[0].result, "pass");
}

#[test]
fn a_failure_message_is_one_short_line() {
    let long = format!("bad\n\tthing {}", "A".repeat(500_000));
    let m = clipped(&long);
    assert!(m.chars().count() <= 163);
    assert!(m.ends_with("..."));
    assert!(m.starts_with("bad thing AAA"));
    assert!(!m.contains('\n'));
    assert_eq!(clipped("  a\u{7}b  c "), "a b c");
    let e = xml_error(&long);
    let text = e.message();
    assert!(text.len() < 400, "error was {} bytes", text.len());
    assert!(!text.contains('\n'));
}

#[test]
fn every_error_says_what_it_is() {
    assert_eq!(
        Error::TooLarge.message(),
        "report is larger than 33554432 bytes uncompressed"
    );
    assert_eq!(Error::TooManyMembers.message(), "archive carries more than 16 members");
    assert_eq!(Error::Doctype.message(), "document declares a DOCTYPE or ENTITY");
    assert_eq!(Error::Empty.message(), "no XML document in the attachment");
    assert_eq!(Error::Archive("x".into()).message(), "unreadable archive: x");
    assert_eq!(Error::Xml("y".into()).message(), "unreadable XML: y");
    assert_eq!(
        Error::NotAReport("no report_id").message(),
        "not a DMARC aggregate report: no report_id"
    );
}

#[test]
fn an_import_reads_reports_by_their_file_names() {
    assert!(postbud::dmarc::is_report_file_name("google.com!example.com!1700000000!1700086400.xml"));
    assert!(postbud::dmarc::is_report_file_name("REPORT.XML.GZ"));
    assert!(postbud::dmarc::is_report_file_name("report.gz"));
    assert!(postbud::dmarc::is_report_file_name("Report.Zip"));
    assert!(!postbud::dmarc::is_report_file_name("notes.txt"));
    assert!(!postbud::dmarc::is_report_file_name("xml"));
    assert!(!postbud::dmarc::is_report_file_name("archive.zip.bak"));
}

#[test]
fn an_import_counts_stored_reports_and_duplicates_apart() {
    let mut tally = postbud::dmarc::Ingested::new();
    tally.count(true, 3);
    tally.count(false, 5);
    tally.count(true, 2);
    assert_eq!(
        tally,
        postbud::dmarc::Ingested { stored: 2, duplicates: 1, records: 5 }
    );
}

/// The fields of a one-record report as its document lays them out.
fn one_record(
    evaluated: raw::PolicyEvaluated,
    header_from: &str,
    auth: raw::AuthResults,
    source_ip: &str,
    count: &str,
) -> raw::Record {
    raw::Record {
        row: Some(raw::Row {
            source_ip: s(source_ip),
            count: s(count),
            policy_evaluated: Some(evaluated),
        }),
        identifiers: Some(raw::Identifiers { header_from: s(header_from) }),
        auth_results: Some(auth),
    }
}

fn evaluated(disposition: &str, dkim: &str, spf: &str) -> raw::PolicyEvaluated {
    raw::PolicyEvaluated {
        disposition: s(disposition),
        dkim: s(dkim),
        spf: s(spf),
        reason: Vec::new(),
    }
}

#[test]
fn an_unaligned_source_keeps_the_domain_that_authenticated() {
    let policy = raw::PolicyPublished { domain: s("example.com"), p: s("none"), ..Default::default() };
    let f = raw::Feedback {
        report_metadata: Some(raw::ReportMetadata {
            org_name: s("reporter.example"),
            report_id: s("r2"),
            date_range: Some(raw::DateRange { begin: s("1"), end: s("2") }),
            ..Default::default()
        }),
        records: vec![one_record(
            evaluated("none", "pass", "fail"),
            "example.com",
            raw::AuthResults {
                dkim: vec![raw::DkimAuth {
                    domain: s("example.com"),
                    result: s("pass"),
                    selector: s("third"),
                }],
                spf: vec![raw::SpfAuth { domain: s("bounces.sender.example"), result: s("pass") }],
            },
            "203.0.113.9",
            "2",
        )],
        policy_published: Some(policy),
    };
    let r = report_from(&f).expect("parses");
    let rec = &r.records[0];
    assert_eq!(rec.spf_aligned, "fail");
    assert!(rec.passed());
    assert_eq!(rec.auth.spf[0].domain, "bounces.sender.example");
    assert_eq!(rec.auth.spf[0].result, "pass");
}

#[test]
fn a_sparse_report_still_parses() {
    let f = raw::Feedback {
        report_metadata: Some(raw::ReportMetadata {
            org_name: s("r"),
            report_id: s("x"),
            ..Default::default()
        }),
        policy_published: Some(raw::PolicyPublished { domain: s("example.com"), ..Default::default() }),
        records: Vec::new(),
    };
    let r = report_from(&f).expect("parses");
    assert_eq!(r.domain, "example.com");
    assert_eq!(r.sp, None);
    assert_eq!(r.pct, None);
    assert_eq!(r.begin, 0);
    assert!(r.records.is_empty());
}

#[test]
fn policy_overrides_are_kept() {
    let policy = raw::PolicyPublished { domain: s("example.com"), p: s("reject"), ..Default::default() };
    let mut ev = evaluated("none", "fail", "fail");
    ev.reason = vec![raw::Reason { kind: s("forwarded"), comment: s("known forwarder") }];
    let f = raw::Feedback {
        report_metadata: Some(raw::ReportMetadata {
            org_name: s("r"),
            report_id: s("x"),
            ..Default::default()
        }),
        records: vec![one_record(
            ev,
            "example.com",
            raw::AuthResults::default(),
            "203.0.113.1",
            "1",
        )],
        policy_published: Some(policy),
    };
    let r = report_from(&f).expect("parses");
    let rec = &r.records[0];
    assert!(!rec.passed());
    assert_eq!(rec.reasons[0].kind, "forwarded");
    assert_eq!(rec.reasons[0].comment.as_deref(), Some("known forwarder"));
}

#[test]
fn several_records_all_survive() {
    let mut f = report_fields();
    f.records.push(one_record(
        evaluated("quarantine", "fail", "fail"),
        "mail.example.com",
        raw::AuthResults::default(),
        "203.0.113.2",
        "4",
    ));
    let r = report_from(&f).expect("parses");
    assert_eq!(r.records.len(), 2);
    assert_eq!(r.records[1].disposition, "quarantine");
    assert!(!r.records[1].passed());
}

#[test]
fn a_failure_message_cannot_run_away() {
    // What a deserialiser says when it chokes quotes the input it choked on.
    let junk = format!("<feedback>{}</feedback>", "A".repeat(500_000));
    let quoted = format!("invalid type: string \"{junk}\",\n expected struct Feedback");
    let err = xml_error(&quoted);
    let text = err.message();
    assert!(text.len() < 400, "error was {} bytes", text.len());
    assert!(!text.contains('\n'), "error must stay on one line");
}

#[test]
fn something_that_is_not_a_report_is_rejected_not_half_parsed() {
    let f = raw::Feedback {
        report_metadata: Some(raw::ReportMetadata { org_name: s("r"), ..Default::default() }),
        policy_published: Some(raw::PolicyPublished { domain: s("example.com"), ..Default::default() }),
        records: Vec::new(),
    };
    assert!(matches!(report_from(&f), Err(Error::NotAReport(_))));
    // An HTML page decodes to no report fields at all.
    assert!(report_from(&raw::Feedback::default()).is_err());
}
