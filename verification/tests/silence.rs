//! Telling "nothing happened" apart from "nothing works".

use postbud::silence::{bounce_signal, dmarc_signal, Signal, BOUNCE_EVIDENCE_SENDS, DMARC_STALE_DAYS};

#[test]
fn a_small_sender_with_no_bounces_is_not_accused() {
    let signal = bounce_signal(66, 0);
    assert!(matches!(signal, Signal::Inconclusive { .. }), "{signal:?}");
    assert!(!signal.is_silent());
}

#[test]
fn a_busy_sender_with_no_bounces_is_the_alarm() {
    assert!(bounce_signal(5_000, 0).is_silent());
    assert!(bounce_signal(BOUNCE_EVIDENCE_SENDS, 0).is_silent());
    assert!(!bounce_signal(BOUNCE_EVIDENCE_SENDS - 1, 0).is_silent());
}

#[test]
fn any_bounce_at_all_is_health() {
    assert!(matches!(bounce_signal(1, 1), Signal::Healthy { .. }));
    assert!(matches!(bounce_signal(100_000, 1), Signal::Healthy { .. }));
}

#[test]
fn never_having_had_a_report_is_not_an_alarm() {
    let signal = dmarc_signal(None);
    assert!(matches!(signal, Signal::Inconclusive { .. }), "{signal:?}");
}

#[test]
fn reports_still_arriving_are_health() {
    for age in 0..=DMARC_STALE_DAYS {
        assert!(
            matches!(dmarc_signal(Some(age)), Signal::Healthy { .. }),
            "{age} days should be healthy"
        );
    }
}

#[test]
fn a_gap_in_daily_reports_is_the_alarm() {
    assert!(dmarc_signal(Some(DMARC_STALE_DAYS + 1)).is_silent());
    assert!(dmarc_signal(Some(30)).is_silent());
}

#[test]
fn the_details_say_what_the_numbers_were() {
    assert_eq!(
        bounce_signal(10, 3),
        Signal::Healthy { detail: "3 recorded \u{2014} the DSN path is carrying".into() }
    );
    assert_eq!(
        bounce_signal(-7, 0),
        Signal::Inconclusive {
            detail: "-7 sent; below 500 a clean sheet is ordinary, so this cannot yet tell a working path from a broken one".into()
        }
    );
    assert_eq!(
        dmarc_signal(Some(0)),
        Signal::Healthy { detail: "newest report arrived today".into() }
    );
    assert_eq!(
        dmarc_signal(Some(1)),
        Signal::Healthy { detail: "newest report arrived yesterday".into() }
    );
    assert_eq!(
        dmarc_signal(Some(2)),
        Signal::Healthy { detail: "newest report is 2 days old".into() }
    );
    let Signal::Silent { detail } = dmarc_signal(Some(12)) else {
        panic!("twelve days is the alarm")
    };
    assert!(detail.starts_with("newest report is 12 days old. Receivers send daily"));
    let Signal::Silent { detail } = bounce_signal(i64::MAX, i64::MIN) else {
        panic!("no bounce at that volume is the alarm")
    };
    assert!(detail.starts_with("9223372036854775807 sent and not one bounce recorded."));
}
