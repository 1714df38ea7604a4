//! Which conditions open incidents, and when they end.
use railwatch::alerts::{new_id, AlertEngine, Policy, PolicyError};
use railwatch::device::simulated_sample;
use railwatch::measurements::imbalance;
use railwatch::model::Telemetry;

fn sample(ms: u64, fault: bool) -> Telemetry {
    let mut t = simulated_sample(ms, fault);
    t.monotonic_ms = ms;
    t.captured_at_ms = ms as i64;
    t.session_id = "s".into();
    t
}

#[test]
fn hardware_is_immediate_software_waits_and_idle_is_quiet() {
    let mut e = AlertEngine::default();
    let p = Policy::default();
    assert!(e.observe(&sample(0, false), &p, 3000).is_empty());
    let r = e.observe(&sample(500, true), &p, 3000);
    assert_eq!(r.len(), 2);
    assert!(r.iter().all(|r| r.source == "hardware"));
    e.observe(&sample(2000, true), &p, 3000);
    let r = e.observe(&sample(3500, true), &p, 3000);
    assert!(r.iter().any(|r| r.source == "software"));
    assert!(e.observe(&sample(4000, true), &p, 3000).is_empty());
}

#[test]
fn stale_group_cannot_clear_hardware_fault() {
    let mut e = AlertEngine::default();
    let p = Policy::default();
    e.observe(&sample(0, true), &p, 3000);
    let mut t = sample(500, false);
    t.alerts_raw.clear();
    t.safeguards.clear();
    e.observe(&t, &p, 3000);
    assert_eq!(e.active.len(), 2);
}

#[test]
fn missing_path_and_zero_load() {
    assert_eq!(imbalance(&[0; 6]), (0, 0));
    assert_eq!(imbalance(&[0, 3000, 3000, 3000, 3000, 3000]), (3000, 100));
}

#[test]
fn random_identifiers_differ_and_have_their_form() {
    let mut e = AlertEngine::default();
    let r = e.observe(&sample(0, true), &Policy::default(), 3000);
    assert_eq!(r.len(), 2);
    assert_ne!(r[0].id, r[1].id);
    for incident in &r {
        assert_eq!(incident.id.len(), 36);
        assert_eq!(incident.id.as_bytes()[14], b'4');
        assert_eq!(incident.id.split('-').count(), 5);
    }
}

#[test]
fn given_identifiers_name_what_opens() {
    let mut e = AlertEngine::default();
    let t = sample(0, true);
    let p = Policy::default();
    let n = railwatch::alerts::conditions(&t, &p).len();
    let ids: Vec<String> = (0..n).map(|i| format!("id-{i}")).collect();
    let r = e.observe_with(&t, &p, 3000, &ids);
    assert_eq!(r.len(), 2);
    assert!(r.iter().all(|i| i.id.starts_with("id-")));
    assert!(r.iter().all(|i| i.recovered_at_ms.is_none()));
    assert!(r.iter().all(|i| i.device_id == "demo-ai1600ts"));
}

#[test]
fn hardware_clears_as_soon_as_it_reports_so() {
    let mut e = AlertEngine::default();
    let p = Policy::default();
    e.observe(&sample(0, true), &p, 3000);
    let r = e.observe(&sample(500, false), &p, 3000);
    assert_eq!(r.len(), 2);
    assert!(r.iter().all(|i| i.recovered_at_ms == Some(500)));
    assert!(e.active.is_empty());
}

#[test]
fn a_gap_restarts_the_wait_for_software() {
    let mut e = AlertEngine::default();
    let p = Policy::default();
    e.observe(&sample(0, true), &p, 3000);
    let r = e.observe(&sample(4000, true), &p, 3000);
    assert!(r.iter().all(|i| i.source != "software"));
    let r = e.observe(&sample(7000, true), &p, 3000);
    assert!(r.iter().any(|i| i.source == "software"));
}

#[test]
fn software_recovers_after_its_time() {
    let mut e = AlertEngine::default();
    let p = Policy::default();
    for ms in [0, 1500, 3000] {
        e.observe(&sample(ms, true), &p, 3000);
    }
    assert_eq!(e.active.len(), 3);
    assert_eq!(e.observe(&sample(4000, false), &p, 3000).len(), 2);
    assert!(e.observe(&sample(6500, false), &p, 3000).is_empty());
    let r = e.observe(&sample(9000, false), &p, 3000);
    assert_eq!(r.len(), 1);
    assert_eq!(r[0].source, "software");
    assert_eq!(r[0].recovered_at_ms, Some(9000));
}

#[test]
fn an_interruption_opens_once_and_ends_with_a_reading() {
    let mut e = AlertEngine::default();
    let p = Policy::default();
    let last = sample(0, false);
    e.observe(&last, &p, 3000);
    let opened = e.monitoring_lost(&last, "PSU disconnected", 70).unwrap();
    assert_eq!(opened.kind, "monitoring.unavailable");
    assert_eq!(opened.message, "Monitoring interrupted: PSU disconnected");
    assert_eq!(opened.started_at_ms, 70);
    assert!(e.monitoring_lost(&last, "again", 80).is_none());
    let r = e.observe(&sample(9000, false), &p, 3000);
    assert_eq!(r.len(), 1);
    assert_eq!(r[0].id, opened.id);
    assert_eq!(r[0].recovered_at_ms, Some(9000));
}

#[test]
fn each_limit_of_a_policy_is_checked() {
    let p = Policy::default();
    assert_eq!(p.validate(), Ok(()));
    let mut load = p;
    load.minimum_connector_ma = 999;
    assert_eq!(load.validate(), Err(PolicyError::ConnectorLoad));
    let mut hysteresis = p;
    hysteresis.clear_deviation_percent = 40;
    assert_eq!(hysteresis.validate(), Err(PolicyError::Hysteresis));
    let mut spread = p;
    spread.minimum_spread_ma = 0;
    assert_eq!(spread.validate(), Err(PolicyError::Spread));
    let mut durations = p;
    durations.recovery_ms = 60_001;
    assert_eq!(durations.validate(), Err(PolicyError::Durations));
    assert_eq!(
        PolicyError::Durations.message(),
        "durations must be 500..60000 ms"
    );
}

#[test]
fn an_unloaded_connector_is_quiet() {
    let mut e = AlertEngine::default();
    let p = Policy::default();
    for ms in [0, 2000, 4000, 6000] {
        let mut t = sample(ms, false);
        t.connector_currents_ma[1] = [0, 900, 900, 900, 900, 900];
        assert!(e.observe(&t, &p, 3000).is_empty());
    }
}

#[test]
fn one_even_reading_or_another_session_restarts_the_wait() {
    let p = Policy::default();
    for interrupted in [false, true] {
        let mut e = AlertEngine::default();
        let mut opened = vec![];
        for ms in (0..=8000).step_by(500) {
            let mut t = sample(ms, interrupted || ms != 2500);
            if interrupted && ms >= 2500 {
                t.session_id = "other".into();
            }
            let events = e.observe(&t, &p, 3000);
            if events.iter().any(|i| i.source == "software") {
                opened.push(ms);
            }
        }
        assert_eq!(opened, [if interrupted { 5500 } else { 6000 }]);
    }
}

#[test]
fn imbalance_depends_on_neither_order_nor_level() {
    let even = [1000, 2000, 3000, 4000, 5000, 6000];
    assert_eq!(imbalance(&even), (5000, 71));
    assert_eq!(imbalance(&[6000, 1000, 4000, 3000, 2000, 5000]), (5000, 71));
    assert_eq!(imbalance(&even.map(|v| 7 * v)), (35_000, 71));
}

#[test]
fn events_tell_what_opens_and_ends() {
    let mut e = AlertEngine::default();
    let p = Policy::default();
    let opened = e.observe(&sample(0, true), &p, 3000);
    assert_eq!(opened.len(), e.active.len());
    assert!(opened.iter().all(|r| r.recovered_at_ms.is_none()));
    assert!(e.observe(&sample(100, true), &p, 3000).is_empty());
    let ended = e.observe(&sample(500, false), &p, 3000);
    assert_eq!(e.active.len(), 0);
    assert_eq!(ended.len(), opened.len());
    for (end, open) in ended.iter().zip(&opened) {
        assert_eq!(end.id, open.id);
        assert_eq!(end.recovered_at_ms, Some(500));
    }
}

#[test]
fn new_identifiers_differ_and_have_their_form() {
    let (one, other) = (new_id(), new_id());
    assert_ne!(one, other);
    assert_eq!(one.len(), 36);
    assert_eq!(one.as_bytes()[14], b'4');
}
