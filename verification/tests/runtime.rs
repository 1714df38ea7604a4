//! One monitor, its snapshot, and what waits for storage.
use railwatch::alerts::{Incident, Policy};
use railwatch::device::simulated_sample;
use railwatch::model::Telemetry;
use railwatch::runtime::{
    bound_pending, check_options, prune_due, simulated_reading, Batch, Delivery, Monitor, Snapshot,
    StartError,
};

fn monitor() -> Monitor {
    Monitor::new("session".into())
}

fn reading(ms: u64, fault: bool) -> Telemetry {
    let mut t = simulated_sample(0, fault);
    t.monotonic_ms = ms;
    t.captured_at_ms = ms as i64;
    t
}

fn cycle(m: &mut Monitor, s: &mut Snapshot, ms: u64, fault: bool) -> (Telemetry, Batch) {
    let mut t = reading(ms, fault);
    let events = m.observe(&mut t, None, s);
    assert!(m.can_absorb(&t, &events, s));
    let batch = m.absorb(&t, events, s);
    (t, batch)
}

fn incident(device: &str, kind: &str, id: &str) -> Incident {
    Incident {
        id: id.into(),
        device_id: device.into(),
        kind: kind.into(),
        source: "hardware".into(),
        severity: "critical".into(),
        message: "m".into(),
        started_at_ms: 1,
        recovered_at_ms: None,
        acknowledged_at_ms: None,
        policy: None,
        trigger_sample: simulated_sample(0, false),
    }
}

#[test]
fn faults_are_injected_into_the_simulator_only() {
    assert_eq!(check_options(true, Some(1), Some(2)), Ok(()));
    assert_eq!(check_options(false, None, None), Ok(()));
    assert_eq!(
        check_options(false, None, Some(2)),
        Err(StartError::InjectionWithoutSimulator)
    );
    assert_eq!(
        StartError::InjectionWithoutSimulator.message(),
        "fault injection requires --simulate"
    );
}

#[test]
fn the_simulator_faults_and_disconnects_when_told() {
    assert_eq!(
        simulated_reading(1, Some(2), None).unwrap().alerts_raw[9],
        0
    );
    assert_eq!(
        simulated_reading(2, Some(2), None).unwrap().alerts_raw[9],
        1
    );
    assert_eq!(
        simulated_reading(2, None, Some(2)).unwrap_err(),
        "simulated disconnect"
    );
    assert!(prune_due(0) && prune_due(120) && !prune_due(59));
}

#[test]
fn a_reading_reaches_clients_and_storage() {
    let mut m = monitor();
    let mut s = Snapshot::started(5, 3, Policy::default(), vec![]);
    assert_eq!((s.started_at_ms, s.policy_revision), (5, 3));
    m.simulator_started(&vec![], &mut s);
    assert_eq!(s.device.as_ref().unwrap().id, "demo-ai1600ts");
    let mut t = reading(0, true);
    let events = m.observe(&mut t, Some((1000, 10)), &s);
    assert_eq!((t.captured_at_ms, t.monotonic_ms), (1000, 10));
    assert_eq!(t.session_id, "session");
    let batch = m.absorb(&t, events, &mut s);
    assert_eq!(batch.events.len(), 2);
    assert_eq!(batch.evidence.len(), 2);
    m.settle(&t, Delivery::Taken, &mut s);
    m.advance();
    assert!(s.connected && s.storage_error.is_none());
    assert_eq!(s.active_incidents.len(), 2);
    assert_eq!(s.dropped_samples, 0);
    assert_eq!(m.sequence, 1);
}

#[test]
fn a_full_queue_keeps_transitions_and_monitoring_goes_on() {
    let mut m = monitor();
    let mut s = Snapshot::default();
    let (t, batch) = cycle(&mut m, &mut s, 1000, true);
    let waiting = batch.events.len();
    m.settle(&t, Delivery::Full(batch), &mut s);
    assert_eq!(s.dropped_samples, 1);
    assert!(s.storage_error.as_deref().unwrap().contains("history has gaps"));
    assert!(s.connected);
    assert_eq!(m.events.len(), waiting);
    let (t, batch) = cycle(&mut m, &mut s, 2000, true);
    assert_eq!(batch.events.len(), waiting);
    assert!(m.events.is_empty());
    m.settle(&t, Delivery::Closed, &mut s);
    assert_eq!(s.dropped_samples, 2);
    s.stored(2000, &Err("disk full".into()));
    assert_eq!(s.storage_error.as_deref(), Some("disk full"));
    s.stored(2000, &Ok(()));
    assert_eq!(s.storage_error, None);
    assert_eq!(s.last_persisted_at_ms, Some(2000));
}

#[test]
fn evidence_covers_a_minute_before_and_two_after() {
    let mut m = monitor();
    let mut s = Snapshot::default();
    for ms in [0, 20_000, 70_000] {
        cycle(&mut m, &mut s, ms, false);
    }
    assert_eq!(m.ring.len(), 2);
    let (_, batch) = cycle(&mut m, &mut s, 71_000, true);
    assert_eq!(batch.events.len(), 2);
    assert_eq!(batch.evidence.len(), 2 * (2 + 1));
    assert_eq!(m.windows.len(), 2);
    let (_, batch) = cycle(&mut m, &mut s, 191_000, true);
    assert_eq!(m.windows.len(), 2);
    assert!(batch.evidence.len() >= 2);
    let (_, batch) = cycle(&mut m, &mut s, 191_001, true);
    assert!(m.windows.is_empty());
    assert!(batch.evidence.is_empty());
}

#[test]
fn losses_are_counted() {
    let mut s = Snapshot::default();
    let mut events: Vec<Incident> = (0..260)
        .map(|n| incident("d", "k", &format!("{n}")))
        .collect();
    let mut evidence: Vec<(String, Telemetry)> = (0..2050)
        .map(|n| (format!("{n}"), simulated_sample(0, false)))
        .collect();
    bound_pending(&mut events, &mut evidence, &mut s);
    assert_eq!(events.len(), 256);
    assert_eq!(events[0].id, "4");
    assert_eq!(evidence.len(), 2048);
    assert_eq!(evidence[0].0, "2");
    assert_eq!(s.dropped_incident_updates, 4);
    assert_eq!(s.dropped_evidence_samples, 2);
}

#[test]
fn the_oldest_window_makes_room() {
    let mut m = monitor();
    let mut s = Snapshot::default();
    let t = reading(1000, false);
    let events: Vec<Incident> = (0..33)
        .map(|n| incident("d", &format!("k{n}"), &format!("{n}")))
        .collect();
    m.absorb(&t, events, &mut s);
    assert_eq!(m.windows.len(), 32);
    assert_eq!(m.windows[0], ("1".to_owned(), 121_000));
    assert_eq!(s.truncated_evidence_windows, 1);
}

#[test]
fn a_disconnection_freezes_what_was_read() {
    let mut m = monitor();
    let mut s = Snapshot::default();
    assert!(m.interrupt("no PSU", 1, &mut s).is_none());
    assert_eq!(s.last_error.as_deref(), Some("no PSU"));
    let (t, _) = cycle(&mut m, &mut s, 1000, false);
    m.settle(&t, Delivery::Taken, &mut s);
    let batch = m.interrupt("simulated disconnect", 2000, &mut s).unwrap();
    assert!(!s.connected);
    assert_eq!(s.telemetry.as_ref().unwrap().power_uw, 250_000_000);
    assert_eq!(s.active_incidents.len(), 1);
    assert_eq!(batch.events.len(), 1);
    assert_eq!(batch.evidence.len(), 1);
    assert_eq!(batch.evidence[0].0, batch.events[0].id);
    m.settle_interruption(Delivery::Full(batch), &mut s);
    assert_eq!(
        s.storage_error.as_deref(),
        Some("storage queue full; incident persistence pending")
    );
    let batch = m
        .interrupt_with("again", 3000, "unused".into(), &mut s)
        .unwrap();
    assert_eq!(batch.events.len(), 1);
    assert_eq!(batch.events[0].started_at_ms, 2000);
    s.open_failed("gone");
    assert_eq!(s.last_error.as_deref(), Some("gone"));
}

#[test]
fn a_restart_resumes_the_incidents_of_the_supply() {
    let mut m = monitor();
    let mut s = Snapshot::default();
    let stored = vec![
        incident("msi-1", "alarm", "a"),
        incident("msi-2", "alarm", "b"),
        incident("msi-1", "other", "c"),
        incident("msi-1", "alarm", "d"),
    ];
    let info = railwatch::device::describe(
        &railwatch::device::Discovery {
            path: "/dev/hidraw0".into(),
            pid: 0x808c,
            model: "PSU".into(),
            driver: "hid-generic".into(),
        },
        "1".into(),
        "r".into(),
        "hidraw0",
    );
    let mut info = info;
    info.id = "msi-1".into();
    assert!(!m.is_current(&info));
    m.device_opened(&info, &stored, "next".into(), &mut s);
    assert!(m.is_current(&info));
    assert_eq!(m.session, "next");
    assert_eq!(m.engine.active.len(), 2);
    assert_eq!(m.engine.active.get("alarm").unwrap().id, "d");
    m.device_opened(&info, &vec![], "third".into(), &mut s);
    assert_eq!(m.engine.active.len(), 2);
}

#[test]
fn acknowledgements_reach_open_incidents_without_clearing_them() {
    let mut m = monitor();
    let mut s = Snapshot::default();
    let (t, _) = cycle(&mut m, &mut s, 1000, true);
    m.settle(&t, Delivery::Taken, &mut s);
    s.active_incidents[0].acknowledged_at_ms = Some(1500);
    let kind = s.active_incidents[0].kind.clone();
    let (t, _) = cycle(&mut m, &mut s, 2000, true);
    m.settle(&t, Delivery::Taken, &mut s);
    assert_eq!(
        m.engine.active.get(&kind).unwrap().acknowledged_at_ms,
        Some(1500)
    );
    assert_eq!(s.active_incidents.len(), 2);
}

#[test]
fn three_incidents_open_on_a_fault() {
    let mut m = monitor();
    let mut s = Snapshot::default();
    for ms in [0, 1000, 2000, 3000] {
        let (t, _) = cycle(&mut m, &mut s, ms, true);
        m.settle(&t, Delivery::Taken, &mut s);
    }
    assert_eq!(s.active_incidents.len(), 3);
}

#[test]
fn counters_that_are_full_are_noticed() {
    let m = monitor();
    let mut s = Snapshot::default();
    s.dropped_incident_updates = u64::MAX;
    let t = reading(0, false);
    assert!(m.can_absorb(&t, &vec![], &s));
    let many: Vec<Incident> = (0..257).map(|_| incident("d", "k", "i")).collect();
    assert!(!m.can_absorb(&t, &many, &s));
    let late = reading(u64::MAX, false);
    assert!(!m.can_absorb(&late, &vec![], &s));
}

#[test]
fn failing_supplies_that_take_turns_stay_within_the_limits() {
    let mut m = monitor();
    let mut s = Snapshot::default();
    for ms in 0..40 {
        let (t, _) = cycle(&mut m, &mut s, ms * 1000, false);
        m.settle(&t, Delivery::Taken, &mut s);
    }
    let mut info = railwatch::device::describe(
        &railwatch::device::Discovery {
            path: "/dev/hidraw0".into(),
            pid: 0x808c,
            model: "PSU".into(),
            driver: "hid-generic".into(),
        },
        "1".into(),
        "r".into(),
        "hidraw0",
    );
    for turn in 0..300 {
        info.id = format!("msi-{}", turn % 2);
        let ring = std::mem::take(&mut m.ring);
        m.device_opened(&info, &vec![], format!("session {turn}"), &mut s);
        m.ring = ring;
        assert!(m.can_interrupt(&s));
        let batch = m
            .interrupt_with("gone", turn, format!("{turn}"), &mut s)
            .unwrap();
        assert!(batch.events.len() <= 256 && batch.evidence.len() <= 2048);
        m.settle_interruption(Delivery::Full(batch), &mut s);
    }
    assert_eq!(m.events.len(), 256);
    assert_eq!(m.events[0].id, "44");
    assert_eq!(s.dropped_incident_updates, 44);
    assert_eq!(m.evidence.len(), 2048);
    assert_eq!(s.dropped_evidence_samples, 300 * 40 - 2048);
    s.dropped_incident_updates = u64::MAX;
    info.id = "msi-9".into();
    m.device_opened(&info, &vec![], "full".into(), &mut s);
    assert!(!m.can_interrupt(&s));
    s.telemetry = None;
    assert!(m.can_interrupt(&s));
}
