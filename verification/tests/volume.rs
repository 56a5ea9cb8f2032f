//! The evidence floor of the volume signal.

use postbud::volume::{evidence_floor, Volume, MIN_DAILY, MIN_HISTORY_DAYS};

#[test]
fn small_traffic_is_inconclusive_whatever_the_history() {
    let v = evidence_floor(16, 30).expect("below the floor");
    assert!(!v.is_unusual());
    assert_eq!(
        v,
        Volume::Inconclusive {
            detail: "16 in the last day; under 50 no multiple of a typical day is worth reporting"
                .into()
        }
    );
    assert!(evidence_floor(MIN_DAILY - 1, 1000).is_some());
}

#[test]
fn a_new_tenant_has_no_typical_day_yet() {
    assert_eq!(
        evidence_floor(500, 2),
        Some(Volume::Inconclusive {
            detail: "500 in the last day, but only 2 day(s) of history \u{2014} there is no typical day to compare against yet".into()
        })
    );
}

#[test]
fn enough_evidence_leaves_the_verdict_to_the_ratio() {
    assert_eq!(evidence_floor(MIN_DAILY, MIN_HISTORY_DAYS), None);
    assert_eq!(evidence_floor(5_000, 30), None);
}

#[test]
fn only_the_unusual_verdict_is_unusual() {
    assert!(Volume::Unusual { detail: String::new() }.is_unusual());
    assert!(!Volume::Normal { detail: String::new() }.is_unusual());
    assert!(!Volume::Inconclusive { detail: String::new() }.is_unusual());
}
