//! The limits that callers test for, and the texts that everything is written in.
use railwatch::alerts::{is_readable, AlertEngine};
use railwatch::arith::{minute_start, on_minute};
use railwatch::calendar::{LocalTime, Period};
use railwatch::desktop::can_show;
use railwatch::device::{
    advance_exchange, drain, simulated_sample, Drained, ExchangeError, Reply, Waited,
};
use railwatch::history::{can_estimate_input, can_measure_gap, Recorder};
use railwatch::measurements::is_measurable;
use railwatch::model::{family, Family};
use railwatch::ordered_map::OrderedMap;
use railwatch::runtime::{simulated_reading, Delivery, Monitor, Snapshot, MAX_GAP_MS};
use railwatch::text::{
    join_all, parse_i64, push_padded, push_signed, push_thousandths, split, unpadded,
    without_prefix,
};
use railwatch::wire::READ;

#[test]
fn stale_input_is_read_thirty_two_times_at_most() {
    let mut seen = Some(0);
    let mut reads = 0;
    while let Some(n) = seen {
        reads += 1;
        seen = drain(n, Drained::Input).unwrap();
    }
    assert_eq!(reads, 32);
    assert_eq!(drain(0, Drained::Nothing), Ok(None));
    assert_eq!(drain(3, Drained::Ended), Err(ExchangeError::Disconnected));
}

#[test]
fn a_transaction_waits_for_its_own_reply() {
    let mut reply = vec![0u8; 64];
    reply[0] = READ;
    reply[1] = 0xe0;
    let wait = |event: Waited| advance_exchange(&event, READ, 0xe0);
    assert_eq!(wait(Waited::Input(reply.clone())), Ok(Reply::Accepted));
    reply[1] = 0xc1;
    assert_eq!(wait(Waited::Input(reply)), Ok(Reply::Unrelated));
    assert_eq!(wait(Waited::Interrupted), Ok(Reply::Unrelated));
    assert_eq!(wait(Waited::HungUp), Err(ExchangeError::Disconnected));
    assert_eq!(wait(Waited::TimedOut), Err(ExchangeError::TimedOut(0xe0)));
}

#[test]
fn disconnection_freezes_values_and_stops_energy() {
    let mut monitor = Monitor::new("session".into());
    let mut snapshot = Snapshot::default();
    let mut recorder = Recorder::new();
    let mut measured = 0;
    for second in 0..4u64 {
        match simulated_reading(monitor.sequence, None, Some(2)) {
            Ok(mut t) => {
                let at = second * 1000;
                let events = monitor.observe(&mut t, Some((at as i64, at)), &snapshot);
                let batch = monitor.absorb(&t, events, &mut snapshot);
                for part in recorder.plan(&batch.sample, MAX_GAP_MS) {
                    measured += part.to_ms - part.from_ms;
                }
                recorder.commit(&batch.sample);
                monitor.settle(&t, Delivery::Taken, &mut snapshot);
            }
            Err(e) => {
                let at = second as i64 * 1000;
                let batch = monitor.interrupt(&e, at, &mut snapshot).unwrap();
                assert!(recorder.plan(&batch.sample, MAX_GAP_MS).is_empty());
                monitor.settle_interruption(Delivery::Taken, &mut snapshot);
            }
        }
        monitor.advance();
    }
    assert_eq!(
        snapshot.last_error.as_deref(),
        Some("simulated disconnect")
    );
    let (_, stale) = railwatch::ipc::freshness(&snapshot, 3000);
    assert!(stale);
    let last = snapshot.telemetry.as_ref().unwrap();
    assert_eq!(last.sequence, 1);
    assert!(last.power_uw > 0);
    assert_eq!(measured, 1000);
}

#[test]
fn a_backlog_keeps_monitoring_and_everything_waits() {
    let mut monitor = Monitor::new("session".into());
    let mut snapshot = Snapshot::default();
    let mut stored = vec![];
    for second in 0..30u64 {
        let mut t = simulated_reading(monitor.sequence, Some(1), None).unwrap();
        let at = second * 1000;
        let events = monitor.observe(&mut t, Some((at as i64, at)), &snapshot);
        let batch = monitor.absorb(&t, events, &mut snapshot);
        let delivery = if (5..25).contains(&second) {
            Delivery::Full(batch)
        } else {
            stored.push(batch);
            Delivery::Taken
        };
        monitor.settle(&t, delivery, &mut snapshot);
        monitor.advance();
        assert!(snapshot.connected);
        assert_eq!(snapshot.telemetry.as_ref().unwrap().sequence, second);
    }
    assert_eq!(snapshot.dropped_samples, 20);
    assert_eq!(snapshot.dropped_evidence_samples, 0);
    assert_eq!(snapshot.active_incidents.len(), 3);
    for incident in &snapshot.active_incidents {
        let kept = stored
            .iter()
            .flat_map(|b| &b.evidence)
            .filter(|(id, _)| *id == incident.id);
        assert_eq!(kept.count(), 30);
    }
}

#[test]
fn readings_out_of_range_are_noticed() {
    let mut t = simulated_sample(0, false);
    assert!(is_readable(&t) && can_show(&t) && can_estimate_input(&t));
    t.power_uw = i64::MAX;
    assert!(!can_estimate_input(&t));
    t.efficiency_millipercent = 0;
    assert!(can_estimate_input(&t));
    t.connector_currents_ma[0] = [5_000_000_000_000_000; 6];
    assert!(is_readable(&t) && !can_show(&t));
    t.connector_currents_ma[0][0] = i64::MAX;
    assert!(!is_measurable(&t.connector_currents_ma[0]));
    assert!(!is_readable(&t) && !can_show(&t));
}

#[test]
fn gaps_that_leave_64_bits_are_noticed() {
    let mut recorder = Recorder::new();
    let mut t = simulated_sample(0, false);
    t.monotonic_ms = 1;
    t.captured_at_ms = i64::MIN;
    assert!(can_measure_gap(&recorder, &t, 3500));
    recorder.commit(&t);
    t.captured_at_ms = 0;
    assert!(!can_measure_gap(&recorder, &t, 3500));
    t.captured_at_ms = -1;
    assert!(can_measure_gap(&recorder, &t, 3500));
    assert!(recorder.plan(&t, 3500).is_empty());
    t.sequence += 1;
    t.monotonic_ms = 1001;
    t.captured_at_ms = i64::MIN + 1000;
    assert!(!can_measure_gap(&recorder, &t, 3500));
    assert!(can_measure_gap(&recorder, &t, 999));
    t.captured_at_ms = i64::MAX - 55_807 - 1000;
    recorder.commit(&t);
    t.sequence += 1;
    t.monotonic_ms = 2001;
    t.captured_at_ms += 1000;
    assert!(can_measure_gap(&recorder, &t, 3500));
    assert_eq!(recorder.plan(&t, 3500).len(), 1);
    t.captured_at_ms += 1;
    assert!(!can_measure_gap(&recorder, &t, 3500));
}

#[test]
fn an_interruption_takes_the_given_name() {
    let mut engine = AlertEngine::default();
    let t = simulated_sample(0, false);
    let event = engine
        .monitoring_lost_with(&t, "cable pulled", 7, "id".into())
        .unwrap();
    assert_eq!((event.id.as_str(), event.started_at_ms), ("id", 7));
    assert!(engine
        .monitoring_lost_with(&t, "cable pulled", 8, "other".into())
        .is_none());
}

#[test]
fn minutes_begin_below() {
    assert_eq!(minute_start(119_999), 60_000);
    assert_eq!(minute_start(-1), -60_000);
    assert_eq!(minute_start(-60_000), -60_000);
    assert!(on_minute(-60_000) && !on_minute(59_999));
}

#[test]
fn periods_are_named_and_keyed() {
    assert!(Period::named("decade").is_none());
    let local = LocalTime {
        date: "2026-03-01".into(),
        hour: 7,
        offset: "-03:00".into(),
        week_year: 2026,
        week: 9,
        year: 2026,
        month: 3,
    };
    for (name, key) in [
        ("hour", "2026-03-01T07:00-03:00"),
        ("day", "2026-03-01"),
        ("week", "2026-W09"),
        ("month", "2026-03"),
        ("year", "2026"),
    ] {
        let period = Period::named(name).unwrap();
        assert_eq!(period.name(), name);
        assert_eq!(period.key_of(&local), key);
    }
}

#[test]
fn entries_stay_in_order() {
    let mut map: OrderedMap<u8> = OrderedMap::new();
    for (key, value) in [("b", 1), ("a", 2), ("ab", 3), ("b", 4)] {
        map.insert(key.into(), value);
    }
    let keys: Vec<&str> = (0..map.len()).map(|i| map.key_at(i).as_str()).collect();
    assert_eq!(keys, ["a", "ab", "b"]);
    assert_eq!(*map.value_at(2), 4);
    assert_eq!(map.get("a"), Some(&2));
    assert_eq!(map.remove("ab"), Some(3));
    assert_eq!(map.remove("ab"), None);
    map.remove_at(0);
    assert!(map.contains_key("b") && !map.contains_key("a"));
}

#[test]
fn numbers_are_written_and_read() {
    let mut out = String::new();
    push_signed(&mut out, -42);
    out.push(' ');
    push_padded(&mut out, 7, 3);
    out.push(' ');
    push_thousandths(&mut out, -1_050);
    assert_eq!(out, "-42 007 -1.050");
    assert_eq!(parse_i64("-9223372036854775808"), Some(i64::MIN));
    assert_eq!(parse_i64("9223372036854775808"), None);
    assert_eq!(parse_i64("+7"), Some(7));
    assert_eq!(parse_i64("-"), None);
    assert_eq!(parse_i64(""), None);
    assert_eq!(parse_i64(" 1"), None);
}

#[test]
fn texts_are_split_and_joined() {
    let parts = split("a:bb:", ':');
    assert_eq!(parts, ["a", "bb", ""]);
    assert_eq!(join_all(&parts, "--"), "a--bb--");
    assert_eq!(without_prefix("HID_ID=3", "HID_ID=").as_deref(), Some("3"));
    assert_eq!(without_prefix("HID", "HID_ID="), None);
    assert_eq!(unpadded("\0 x\0"), "\0 x");
}

#[test]
fn supplies_are_known_by_their_product() {
    assert!(matches!(family(0x808c), Some(Family::Ts)));
    assert!(family(1).is_none());
}
