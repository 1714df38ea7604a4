//! What the command line, the plugin stream and the desktop window show.
use railwatch::alerts::{AlertEngine, Policy};
use railwatch::calendar::Period;
use railwatch::cli::{check_count, is_complete, print, write_csv, CountError, Rounded};
use railwatch::clock::monotonic_ms;
use railwatch::desktop::{
    cooling_rows, conductor_amps, cost_today, device_rows, device_title, duty, energy_rows,
    incident_rows, period_at, queue_notice, write_configuration, write_connector, write_evidence,
    write_problem, write_rail, write_status, write_tariff, EnergyLine, Graph, Queued,
};
use railwatch::device::simulated_sample;
use railwatch::plugin::refreshed;
use railwatch::pricing::Tariff;
use railwatch::runtime::{Monitor, Snapshot};

fn snapshot() -> Snapshot {
    let mut s = Snapshot::default();
    Monitor::new("s".into()).simulator_started(&vec![], &mut s);
    let mut t = simulated_sample(2, true);
    t.monotonic_ms = 1000;
    s.telemetry = Some(t);
    s.connected = true;
    s
}

fn rounded() -> Rounded {
    Rounded {
        output_w: "252.0".into(),
        efficiency: "90.00".into(),
        temperature: "52.0".into(),
    }
}

#[test]
fn counts_are_positive_and_reached() {
    assert_eq!(check_count(Some(0)), Err(CountError::Zero));
    assert_eq!(check_count(Some(1)), Ok(()));
    assert_eq!(check_count(None), Ok(()));
    assert!(is_complete(Some(2), 2) && !is_complete(Some(2), 1));
    assert!(!is_complete(None, 9));
    assert_eq!(CountError::Zero.message(), "count must be positive");
}

#[test]
fn a_snapshot_is_shown_line_by_line() {
    let mut s = snapshot();
    s.storage_error = Some("disk full".into());
    s.telemetry.as_mut().unwrap().group_errors = vec!["fan_duty: late".into()];
    assert_eq!(
        print(&s, Some(40), false, &rounded()),
        [
            "MPG Ai1600TS (simulated)  Monitoring",
            "Output 252.0 W | efficiency 90.00% | temperature 52.0 °C | fan 700 RPM",
            "Connector 1: 0.000  0.000  0.000  0.000  0.000  0.000 A",
            "Connector 2: 0.000  3.000  3.000  3.000  3.000  3.000 A",
            "Reading unavailable: fan_duty: late",
            "storage_error: disk full",
            "0 active incidents | age 40 ms | 0 dropped history samples",
        ]
    );
    let empty = Snapshot::default();
    assert_eq!(
        print(&empty, None, true, &rounded()),
        [
            "No PSU  MONITORING INTERRUPTED",
            "0 active incidents | age null ms | 0 dropped history samples",
        ]
    );
}

#[test]
fn exported_fields_are_quoted() {
    let rows = vec![vec![Some("2025-01-01".to_owned()), None, Some("say \"hi\"".to_owned())]];
    assert_eq!(
        write_csv(&rows),
        "period,output_kwh,estimated_input_kwh,output_observed_ms,input_observed_ms,\
         priced_observed_ms,cost,currency,incomplete_pricing\n\
         \"2025-01-01\",\"\",\"say \"\"hi\"\"\"\n"
    );
    assert!(write_csv(&vec![]).ends_with("incomplete_pricing\n"));
}

#[test]
fn passed_on_readings_grow_stale() {
    assert_eq!(refreshed(None, 9, Some(3), false), (Some(3), false));
    assert_eq!(refreshed(Some(1000), 4500, Some(3), false), (Some(3500), false));
    assert_eq!(refreshed(Some(1000), 4501, None, false), (Some(3501), true));
    assert_eq!(refreshed(Some(1000), 1000, None, true), (Some(0), true));
}

#[test]
fn clocks_count_milliseconds() {
    assert_eq!(monotonic_ms(0, 999_999), 0);
    assert_eq!(monotonic_ms(12, 345_678_901), 12_345);
}

#[test]
fn the_window_tells_of_the_connection() {
    let s = snapshot();
    assert_eq!(
        write_status(&s, false, 1040),
        ("Monitoring · updated 40 ms ago".to_owned(), false)
    );
    let frozen = ("Monitoring interrupted. Readings are frozen.".to_owned(), true);
    assert_eq!(write_status(&s, true, 1040), frozen);
    assert_eq!(write_status(&s, false, 5000), frozen);
    assert_eq!(write_status(&Snapshot::default(), false, 0), frozen);
    assert_eq!(device_title(&s), "MPG Ai1600TS (simulated)");
    assert_eq!(device_title(&Snapshot::default()), "Railwatch");
}

#[test]
fn the_window_tells_all_that_is_wrong() {
    let mut s = snapshot();
    assert_eq!(write_problem(&s), "");
    s.storage_error = Some("disk full".into());
    s.last_error = Some("gone".into());
    s.dropped_incident_updates = 2;
    s.truncated_evidence_windows = 1;
    assert_eq!(
        write_problem(&s),
        "History recording failed: disk full · gone · \
         History incomplete: 2 incident updates lost · \
         History incomplete: 1 evidence windows shortened"
    );
    s.telemetry.as_mut().unwrap().group_errors = vec!["a".into(), "b".into()];
    assert!(write_problem(&s).ends_with(" · Some readings unavailable: a; b"));
}

#[test]
fn the_window_tells_of_loads_rails_and_fan() {
    let t = simulated_sample(0, true);
    assert_eq!(
        write_connector(&t.connector_currents_ma[1]),
        "Total 15.000 A · deviation 100% · spread 3.000 A"
    );
    assert_eq!(write_connector(&[0; 6]), "No load observed");
    assert_eq!(conductor_amps(375), "0.375");
    assert_eq!(write_rail(&t.rails[0]), "12V     12.090 V     18.000 A");
    assert_eq!(duty(Some(35)), "35%");
    assert_eq!(duty(None), "Unavailable");
    let mut fan = t.fan;
    fan.calculated_duty_percent = None;
    fan.mode_raw = None;
    assert_eq!(
        cooling_rows(&fan),
        [
            "Fan speed: 700 RPM",
            "Raw mode: Unavailable",
            "Requested duty: 35%   Calculated: Unavailable   Actual: 35%",
            "Zero fan enabled: false",
        ]
    );
}

#[test]
fn the_window_tells_of_the_supply() {
    let s = snapshot();
    assert_eq!(
        device_rows(&s, "[\"telemetry\"]"),
        [
            "Identity: demo-ai1600ts",
            "Backend: simulator",
            "Firmware revision: Unavailable",
            "Capabilities: [\"telemetry\"]",
            "Policy revision: 0",
            "History samples dropped: 0",
            "Last history commit: null",
        ]
    );
    assert_eq!(
        device_rows(&Snapshot::default(), "null")[0],
        "Identity: Unavailable"
    );
}

#[test]
fn the_window_tells_of_energy_and_prices() {
    let line = |cost: Option<&str>, incomplete_pricing| EnergyLine {
        period: "2025-01-01".into(),
        wall_kwh: "0.500000".into(),
        output_kwh: "0.450000".into(),
        currency: cost.map(|_| "BRL".into()),
        cost: cost.map(Into::into),
        minutes: "60.0".into(),
        incomplete_pricing,
    };
    assert_eq!(energy_rows(&vec![]), ["No recorded energy in this range."]);
    assert_eq!(
        energy_rows(&vec![line(Some("0.5"), true), line(None, false)]),
        [
            "2025-01-01     0.500000 kWh wall     0.450000 kWh output     BRL 0.5     60.0 min observed · partial pricing",
            "2025-01-01     0.500000 kWh wall     0.450000 kWh output      Unpriced     60.0 min observed",
        ]
    );
    assert_eq!(cost_today(&line(None, false)), " Add a price per kWh");
    assert_eq!(cost_today(&line(Some("0.5"), false)), "BRL 0.5");
    let tariff = Tariff {
        effective_at_ms: 0,
        microcurrency_per_kwh: 1_250_000,
        currency: "BRL".into(),
    };
    assert_eq!(
        write_tariff(&tariff),
        "BRL  1.250000 per kWh  from 1970-01-01T00:00:00+00:00"
    );
}

#[test]
fn the_window_tells_of_incidents_and_evidence() {
    let mut engine = AlertEngine::default();
    let t = simulated_sample(0, true);
    let mut list = engine.observe(&t, &Policy::default(), 3500);
    list[1].recovered_at_ms = Some(1);
    list[1].acknowledged_at_ms = Some(1);
    let rows = incident_rows(&list);
    assert_eq!(rows.len(), 2);
    assert_eq!(rows[0].detail, "hardware · Active · 1970-01-01T00:00:00+00:00");
    assert_eq!(rows[0].title, list[0].message);
    assert!(!rows[0].acknowledged);
    assert!(rows[1].acknowledged);
    assert!(rows[1].detail.contains("Recovered"));
    assert_eq!(rows[0].critical, list[0].severity == "critical");
    let mut late = t.clone();
    late.captured_at_ms = 9;
    assert_eq!(
        write_evidence(&vec![t, late]),
        "2 retained readings. First: 0. Last: 9. Export full evidence with railwatch evidence <incident-id> --json."
    );
    assert!(write_evidence(&vec![]).starts_with("0 retained readings. First: . Last: ."));
    assert_eq!(
        write_configuration(&vec![81, 192, 1, 192, 224, 88, 224, 20, 20, 180, 0]),
        "Safeguard configuration bytes: 1, 192, 224, 88, 224, 20, 20, 180. Timer units and write semantics are unqualified."
    );
}

#[test]
fn the_window_answers_its_user() {
    assert_eq!(queue_notice(Queued::Accepted), None);
    assert!(queue_notice(Queued::Full).unwrap().contains("Still processing"));
    assert!(queue_notice(Queued::Closed).unwrap().contains("worker stopped"));
    assert_eq!(period_at(3), Some(Period::Month));
    assert_eq!(period_at(5), None);
    assert_eq!(period_at(-1), None);
}

#[test]
fn the_graph_shows_each_reading_once() {
    let mut g = Graph::new();
    let mut s = snapshot();
    g.show(&s, false);
    g.show(&s, false);
    assert_eq!(g.points, [Some(252_000_000)]);
    for n in 3..190 {
        s.telemetry.as_mut().unwrap().sequence = n;
        g.show(&s, n == 189);
    }
    assert_eq!(g.points.len(), 180);
    assert_eq!(g.points[179], None);
    let mut h = Graph::new();
    h.show(&Snapshot::default(), true);
    h.show(&Snapshot::default(), true);
    assert_eq!(h.points, [None]);
}
