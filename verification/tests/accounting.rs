//! Energy, prices and periods.
use railwatch::calendar::{timestamp, Period, Zone};
use railwatch::device::simulated_sample;
use railwatch::history::{
    check_acknowledged, check_incidents, check_query, check_samples, check_schema, check_tariffs,
    next_revision, prune_before, set_tariff, summarize, summary, write_amount, EnergyRow,
    EnergySummary, PolicyUpdateError, QueryError, Recorder, SummaryError, TariffError,
};
use railwatch::model::{Family, Telemetry};
use railwatch::pricing::{parse_price, PriceError, Tariff};

/// A history in memory: minutes, prices and the samples that were seen.
struct History {
    recorder: Recorder,
    seen: Vec<(String, String, u64)>,
    rows: Vec<EnergyRow>,
    tariffs: Vec<Tariff>,
}

impl History {
    fn new() -> Self {
        History {
            recorder: Recorder::new(),
            seen: vec![],
            rows: vec![],
            tariffs: vec![],
        }
    }

    fn record(&mut self, sample: &Telemetry, max_gap_ms: u64) {
        let key = (
            sample.device_id.clone(),
            sample.session_id.clone(),
            sample.sequence,
        );
        if self.seen.contains(&key) {
            return;
        }
        self.seen.push(key);
        for part in self.recorder.plan(sample, max_gap_ms) {
            let p = self.recorder.previous.as_ref().unwrap();
            let wall = (sample.captured_at_ms - p.captured_at_ms) as f64;
            let integrate = |left: i64, right: i64| -> i64 {
                let a = (part.from_ms - p.captured_at_ms) as f64 / wall;
                let b = (part.to_ms - p.captured_at_ms) as f64 / wall;
                let left_at = left as f64 + (right - left) as f64 * a;
                let right_at = left as f64 + (right - left) as f64 * b;
                ((left_at + right_at) * 0.5 * (part.to_ms - part.from_ms) as f64 / 1000.0).round()
                    as i64
            };
            let output = integrate(p.power_uw, sample.power_uw);
            let input = self
                .recorder
                .inputs(sample)
                .map(|(a, b)| integrate(a, b));
            let row = part.energy(output, input);
            match self.rows.iter_mut().find(|r| r.minute_ms == row.minute_ms) {
                Some(r) => {
                    r.output_uj += row.output_uj;
                    r.input_uj += row.input_uj;
                    r.observed_ms += row.observed_ms;
                    r.input_observed_ms += row.input_observed_ms;
                }
                None => self.rows.push(row),
            }
        }
        self.recorder.commit(sample);
    }

    fn set_tariff(&mut self, at: i64, rate: i64) {
        set_tariff(&mut self.tariffs, tariff(at, rate, "BRL"), false).unwrap();
    }

    fn summary(&self, from: i64, to: i64, period: &str, zone: &str) -> Vec<EnergySummary> {
        let (period, zone) = check_query(from, to, period, zone).unwrap();
        let mut rows: Vec<EnergyRow> = self
            .rows
            .iter()
            .copied()
            .filter(|r| r.minute_ms >= from && r.minute_ms < to)
            .collect();
        rows.sort_by_key(|r| r.minute_ms);
        summary(&rows, &self.tariffs, period, &zone).unwrap().unwrap()
    }
}

fn tariff(at: i64, rate: i64, currency: &str) -> Tariff {
    Tariff {
        effective_at_ms: at,
        microcurrency_per_kwh: rate,
        currency: currency.into(),
    }
}

fn kwh(uj: i128) -> f64 {
    uj as f64 / 3_600_000_000_000.0
}

fn sample(at: i64, seq: u64) -> Telemetry {
    let report = railwatch::wire::request(0x51, 0xe0, &[]).unwrap();
    let mut t = railwatch::protocol::decode_telemetry(&report, Family::Ts).unwrap();
    t.device_id = "test".into();
    t.session_id = "session".into();
    t.sequence = seq;
    t.captured_at_ms = at;
    t.monotonic_ms = at as u64;
    t.power_uw = 500_000_000;
    t.efficiency_millipercent = 100_000;
    t
}

#[test]
fn price_precision() {
    assert_eq!(parse_price("1.25").unwrap(), 1_250_000);
    assert_eq!(parse_price("0").unwrap(), 0);
    for s in ["-1", "NaN", "1e3", ".5", "0.0000001"] {
        assert!(parse_price(s).is_err());
    }
}

#[test]
fn energy_survives_pruning_and_late_tariffs() {
    let mut h = History::new();
    h.record(&sample(0, 1), 3_600_000);
    h.record(&sample(3_600_000, 2), 3_600_000);
    let s = h.summary(0, 3_600_000, "hour", "UTC");
    assert_eq!(s[0].cost, None);
    assert!((kwh(s[0].output_uj) - 0.5).abs() < 1e-9);
    h.set_tariff(0, 1_000_000);
    assert!(prune_before(100 * 3_600_000) > 3_600_000);
    h.seen.clear();
    for period in ["hour", "day", "week", "month", "year"] {
        let s = h.summary(0, 3_600_000, period, "UTC");
        assert_eq!(s[0].cost.as_deref(), Some("0.500000"));
    }
}

#[test]
fn price_change_and_duplicate_sample() {
    let mut h = History::new();
    h.record(&sample(0, 1), 3_600_000);
    h.record(&sample(3_600_000, 2), 3_600_000);
    h.record(&sample(3_600_000, 2), 3_600_000);
    for (at, rate) in [(0, 1_000_000), (1_800_000, 2_000_000)] {
        h.set_tariff(at, rate);
    }
    assert_eq!(
        h.summary(0, 3_600_000, "day", "UTC")[0].cost.as_deref(),
        Some("0.750000")
    );
}

#[test]
fn no_integration_over_gap_restart_or_bad_efficiency() {
    let mut h = History::new();
    h.record(&sample(0, 1), 3000);
    h.record(&sample(5000, 2), 3000);
    assert!(h.summary(0, 60_000, "hour", "UTC").is_empty());
    let mut next = sample(6000, 3);
    next.efficiency_millipercent = 0;
    h.record(&next, 3000);
    let s = h.summary(0, 60_000, "hour", "UTC");
    assert_eq!(s[0].input_observed_ms, 0);
    assert_eq!(s[0].output_observed_ms, 1000);
}

#[test]
fn dst_repeated_hour_is_not_combined() {
    let mut h = History::new();
    let start = timestamp("2025-11-02T05:00:00Z").unwrap();
    let mut t = simulated_sample(0, false);
    t.session_id = "dst".into();
    t.power_uw = 500_000_000;
    t.efficiency_millipercent = 100_000;
    t.captured_at_ms = start;
    t.monotonic_ms = 0;
    h.record(&t, 7_200_000);
    t.captured_at_ms += 7_200_000;
    t.monotonic_ms += 7_200_000;
    t.sequence = 1;
    h.record(&t, 7_200_000);
    let rows = h.summary(start, start + 7_200_000, "hour", "America/New_York");
    assert_eq!(rows.len(), 2);
    assert!(rows[0].period.ends_with("-04:00"));
    assert!(rows[1].period.ends_with("-05:00"));
    assert!((rows.iter().map(|r| kwh(r.output_uj)).sum::<f64>() - 1.).abs() < 1e-9);
}

#[test]
fn restart_gap_and_partial_prices_remain_visible() {
    let mut t = simulated_sample(0, false);
    t.session_id = "first".into();
    t.power_uw = 500_000_000;
    t.efficiency_millipercent = 100_000;
    t.captured_at_ms = 0;
    t.monotonic_ms = 0;
    let mut h = History::new();
    h.record(&t, 60000);
    t.sequence = 1;
    t.monotonic_ms = 60000;
    t.captured_at_ms = 60000;
    h.record(&t, 60000);
    h.recorder = Recorder::new();
    t.session_id = "second".into();
    t.captured_at_ms = 3_600_000;
    t.monotonic_ms = 0;
    h.record(&t, 60000);
    t.sequence = 2;
    t.captured_at_ms += 60000;
    t.monotonic_ms += 60000;
    h.record(&t, 60000);
    h.set_tariff(3_600_000, 1_000_000);
    let rows = h.summary(0, 7_200_000, "day", "UTC");
    assert_eq!(rows[0].output_observed_ms, 120000);
    assert_eq!(rows[0].priced_observed_ms, 60000);
    assert!(rows[0].incomplete_pricing);
    assert_eq!(rows[0].cost.as_deref(), Some("0.008333"));
}

#[test]
fn large_hourly_queries_reject_excess_buckets_without_losing_daily_history() {
    let rows: Vec<EnergyRow> = (0..=10_000)
        .map(|n| EnergyRow {
            minute_ms: n * 3_600_000,
            output_uj: 3_600_000_000,
            input_uj: 3_600_000_000,
            observed_ms: 60_000,
            input_observed_ms: 60_000,
        })
        .collect();
    let end = 10_001 * 3_600_000i64;
    let (hour, zone) = check_query(0, end, "hour", "UTC").unwrap();
    let error = summary(&rows, &vec![], hour, &zone).unwrap().unwrap_err();
    assert!(error.message().contains("larger period"));
    let (day, zone) = check_query(0, end, "day", "UTC").unwrap();
    let days = summary(&rows, &vec![], day, &zone).unwrap().unwrap();
    assert_eq!(
        days.iter().map(|d| d.output_observed_ms).sum::<i64>(),
        10_001 * 60_000
    );
    assert!((days.iter().map(|d| kwh(d.output_uj)).sum::<f64>() - 10.001).abs() < 1e-9);
}

#[test]
fn prices_have_each_of_their_errors() {
    assert_eq!(parse_price("0.000001"), Ok(1));
    assert_eq!(parse_price("1000000.5"), Ok(1_000_000_500_000));
    assert_eq!(parse_price("1."), Ok(1_000_000));
    assert_eq!(parse_price("1.2.3"), Err(PriceError::Malformed));
    assert_eq!(parse_price(""), Err(PriceError::Malformed));
    assert_eq!(parse_price("٣"), Err(PriceError::Malformed));
    assert_eq!(parse_price("1000001"), Err(PriceError::OutOfRange));
    assert_eq!(
        parse_price("9223372036854775808"),
        Err(PriceError::TooLarge)
    );
    assert_eq!(
        PriceError::OutOfRange.message(),
        "price exceeds supported range"
    );
}

#[test]
fn tariffs_have_each_of_their_errors() {
    let mut book = vec![];
    assert_eq!(
        set_tariff(&mut book, tariff(1, 0, "BRL"), false),
        Err(TariffError::Unaligned)
    );
    assert_eq!(
        set_tariff(&mut book, tariff(-60_000, -1, "BRL"), false),
        Err(TariffError::Price)
    );
    assert_eq!(
        set_tariff(&mut book, tariff(0, 1_000_000_000_001, "BRL"), false),
        Err(TariffError::Price)
    );
    for currency in ["brl", "BR", "BRLL", "BRÉ"] {
        assert_eq!(
            set_tariff(&mut book, tariff(0, 0, currency), false),
            Err(TariffError::Currency)
        );
    }
    assert!(book.is_empty());
    assert_eq!(set_tariff(&mut book, tariff(0, 5, "BRL"), false), Ok(()));
    assert_eq!(
        set_tariff(&mut book, tariff(60_000, 5, "EUR"), false),
        Err(TariffError::MixedCurrency)
    );
    assert_eq!(
        set_tariff(&mut book, tariff(0, 6, "BRL"), false),
        Err(TariffError::Occupied)
    );
    assert_eq!(set_tariff(&mut book, tariff(0, 6, "BRL"), true), Ok(()));
    assert_eq!(
        set_tariff(&mut book, tariff(-120_000, 7, "BRL"), false),
        Ok(())
    );
    let rates: Vec<(i64, i64)> = book
        .iter()
        .map(|t| (t.effective_at_ms, t.microcurrency_per_kwh))
        .collect();
    assert_eq!(rates, [(-120_000, 7), (0, 6)]);
    assert_eq!(
        TariffError::Full.message(),
        "tariff history is limited to 4096 dated rates"
    );
}

#[test]
fn a_full_price_history_only_replaces() {
    let mut book: Vec<Tariff> = (0..4096).map(|n| tariff(n * 60_000, n, "BRL")).collect();
    assert!(check_tariffs(&book).is_ok());
    assert_eq!(
        set_tariff(&mut book, tariff(-60_000, 1, "BRL"), true),
        Err(TariffError::Full)
    );
    assert_eq!(
        set_tariff(&mut book, tariff(60_000, 9, "BRL"), false),
        Err(TariffError::Full)
    );
    assert_eq!(set_tariff(&mut book, tariff(60_000, 9, "BRL"), true), Ok(()));
    assert_eq!(book[1].microcurrency_per_kwh, 9);
    book.push(tariff(4096 * 60_000, 1, "BRL"));
    assert!(check_tariffs(&book).is_err());
}

#[test]
fn energy_queries_have_each_of_their_errors() {
    for (from, to, period, zone, error) in [
        (60_000, 60_000, "day", "UTC", SummaryError::Range),
        (0, 59_999, "day", "UTC", SummaryError::Range),
        (-1, 60_000, "day", "UTC", SummaryError::Range),
        (-60_000, 60_000, "decade", "UTC", SummaryError::Period),
        (-60_000, 60_000, "day", "Mars/Olympus", SummaryError::Zone),
    ] {
        assert_eq!(check_query(from, to, period, zone).unwrap_err(), error);
    }
    let (period, zone) = check_query(-60_000, 60_000, "week", "Asia/Tokyo").unwrap();
    assert_eq!(period, Period::Week);
    assert_eq!(zone.name(), "Asia/Tokyo");
    let row = EnergyRow {
        minute_ms: i64::MAX,
        output_uj: 1,
        input_uj: 1,
        observed_ms: 1,
        input_observed_ms: 1,
    };
    assert_eq!(
        summary(&vec![row], &vec![], Period::Day, &Zone::utc())
            .unwrap()
            .unwrap_err(),
        SummaryError::StoredTime
    );
}

#[test]
fn periods_are_told_in_the_order_of_their_keys() {
    let row = |minute_ms, input_uj| EnergyRow {
        minute_ms,
        output_uj: 2 * input_uj,
        input_uj,
        observed_ms: 60_000,
        input_observed_ms: 30_000,
    };
    let keys = vec![
        Some("b".to_owned()),
        Some("a".to_owned()),
        Some("b".to_owned()),
    ];
    let rows = vec![row(0, 10), row(60_000, 20), row(120_000, 40)];
    let book = vec![tariff(60_000, 3_600_000_000_000, "EUR")];
    let told = summarize(&keys, &rows, &book).unwrap().unwrap();
    assert_eq!(told.len(), 2);
    assert_eq!(told[0].period, "a");
    assert_eq!(told[0].estimated_input_uj, 20);
    assert_eq!(told[0].cost.as_deref(), Some("0.000020"));
    assert_eq!(told[1].period, "b");
    assert_eq!(told[1].output_uj, 100);
    assert_eq!(told[1].priced_observed_ms, 30_000);
    assert_eq!(told[1].output_observed_ms, 120_000);
    assert_eq!(told[1].currency.as_deref(), Some("EUR"));
    assert_eq!(told[1].cost.as_deref(), Some("0.000040"));
    assert!(told[1].incomplete_pricing);
    let missing = vec![None, None, None];
    assert_eq!(
        summarize(&missing, &rows, &book).unwrap().unwrap_err(),
        SummaryError::StoredTime
    );
    let full = EnergyRow {
        minute_ms: 0,
        output_uj: 0,
        input_uj: 0,
        observed_ms: i64::MAX,
        input_observed_ms: 0,
    };
    assert!(summarize(&keys, &vec![full, full, full], &book).is_none());
}

#[test]
fn periods_have_their_keys() {
    let h = |at: &str, period: Period, zone: &str| {
        let at = timestamp(at).unwrap();
        railwatch::history::period_key(at, period, &Zone::parse(zone).unwrap()).unwrap()
    };
    let at = "2024-12-30T23:30:00Z";
    assert_eq!(h(at, Period::Hour, "UTC"), "2024-12-30T23:00+00:00");
    assert_eq!(h(at, Period::Hour, "Asia/Kolkata"), "2024-12-31T05:00+05:30");
    assert_eq!(h(at, Period::Day, "America/Sao_Paulo"), "2024-12-30");
    assert_eq!(h(at, Period::Week, "UTC"), "2025-W01");
    assert_eq!(h(at, Period::Month, "UTC"), "2024-12");
    assert_eq!(h(at, Period::Year, "Pacific/Kiritimati"), "2024");
}

#[test]
fn parts_follow_the_minutes() {
    let mut r = Recorder::new();
    assert!(r.plan(&sample(59_000, 1), 3000).is_empty());
    r.commit(&sample(59_000, 1));
    let parts = r.plan(&sample(61_000, 2), 3000);
    let shape: Vec<(i64, i64, i64)> = parts
        .iter()
        .map(|p| (p.minute_ms, p.from_ms, p.to_ms))
        .collect();
    assert_eq!(shape, [(0, 59_000, 60_000), (60_000, 60_000, 61_000)]);
    let mut other = sample(61_000, 2);
    other.session_id = "another".into();
    assert!(r.plan(&other, 3000).is_empty());
    let mut clock_set = sample(61_000, 2);
    clock_set.captured_at_ms += 101;
    assert!(r.plan(&clock_set, 3000).is_empty());
    let row = parts[0].energy(7, None);
    assert_eq!((row.input_uj, row.input_observed_ms), (0, 0));
    assert_eq!((row.output_uj, row.observed_ms), (7, 1000));
}

#[test]
fn amounts_have_six_places() {
    assert_eq!(write_amount(0), "0.000000");
    assert_eq!(write_amount(1_234_567), "1.234567");
    assert_eq!(write_amount(42), "0.000042");
}

#[test]
fn other_queries_have_each_of_their_errors() {
    assert!(check_samples(0, 1, 10_000).is_ok());
    assert_eq!(check_samples(1, 1, 10), Err(QueryError::Samples));
    assert_eq!(check_samples(0, 1, 0), Err(QueryError::Samples));
    assert_eq!(check_samples(0, 1, 10_001), Err(QueryError::Samples));
    assert!(check_incidents(1000).is_ok());
    assert_eq!(check_incidents(0), Err(QueryError::Incidents));
    assert_eq!(check_incidents(1001), Err(QueryError::Incidents));
    assert!(check_acknowledged(1).is_ok());
    assert_eq!(check_acknowledged(0), Err(QueryError::NoIncident));
    assert!(check_schema(None).is_ok());
    assert!(check_schema(Some("1")).is_ok());
    assert_eq!(check_schema(Some("2")), Err(QueryError::Schema));
    assert_eq!(QueryError::Schema.message(), "unsupported database schema");
}

#[test]
fn policy_revisions_prevent_lost_updates() {
    let p = railwatch::alerts::Policy::default();
    assert_eq!(next_revision(&p, 0, 0), Ok(1));
    assert_eq!(next_revision(&p, 1, 0), Err(PolicyUpdateError::Stale));
    assert_eq!(
        next_revision(&p, u64::MAX, u64::MAX),
        Err(PolicyUpdateError::Overflow)
    );
    let mut bad = p;
    bad.trigger_ms = 1;
    let error = next_revision(&bad, 0, 0).unwrap_err();
    assert_eq!(error.message(), "durations must be 500..60000 ms");
}

#[test]
fn totals_depend_on_neither_period_nor_zone_and_can_be_split() {
    let rows: Vec<EnergyRow> = (0..180)
        .map(|n| EnergyRow {
            minute_ms: n * 3_600_000,
            output_uj: 7 * n,
            input_uj: 9 * n,
            observed_ms: 60_000,
            input_observed_ms: 30_000 + n,
        })
        .collect();
    let book = vec![tariff(100 * 3_600_000, 1_000_000, "BRL")];
    let totals = |rows: &[EnergyRow], period: Period, zone: &str| {
        let zone = Zone::parse(zone).unwrap();
        let list = summary(&rows.to_vec(), &book, period, &zone).unwrap().unwrap();
        assert!(list.windows(2).all(|w| w[0].period < w[1].period));
        list.iter().fold((0, 0, 0, 0), |t, s| {
            (
                t.0 + s.output_uj,
                t.1 + s.output_observed_ms,
                t.2 + s.input_observed_ms,
                t.3 + s.priced_observed_ms,
            )
        })
    };
    let whole = totals(&rows, Period::Hour, "UTC");
    let priced: i64 = rows[100..].iter().map(|r| r.input_observed_ms).sum();
    assert_eq!(whole.3, priced);
    for (period, zone) in [
        (Period::Day, "America/Sao_Paulo"),
        (Period::Week, "Asia/Kathmandu"),
        (Period::Month, "UTC"),
        (Period::Year, "Pacific/Apia"),
    ] {
        assert_eq!(totals(&rows, period, zone), whole);
        for at in [0, 1, 99, 150] {
            let (a, b) = rows.split_at(at);
            let (a, b) = (totals(a, period, zone), totals(b, period, zone));
            assert_eq!((a.0 + b.0, a.1 + b.1, a.2 + b.2, a.3 + b.3), whole);
        }
    }
}

#[test]
fn any_gap_can_be_allowed() {
    let mut recorder = Recorder::new();
    recorder.commit(&sample(0, 1));
    let parts = recorder.plan(&sample(90_000, 2), u64::MAX);
    assert_eq!(parts.len(), 2);
    let mut late = sample(90_000, 2);
    late.monotonic_ms = u64::MAX;
    assert!(recorder.plan(&late, u64::MAX).is_empty());
}

#[test]
fn written_prices_are_read_back() {
    for micro in [0, 1, 999_999, 1_000_000, 1_250_000, 1_000_000_999_999] {
        assert_eq!(parse_price(&write_amount(micro.into())), Ok(micro));
    }
    assert_eq!(parse_price("1.5"), parse_price("1.50"));
    assert_eq!(parse_price("1.5"), parse_price("1.500000"));
    assert_eq!(parse_price("7."), parse_price("7"));
    assert_eq!(parse_price("x.5").is_err(), parse_price("x.50").is_err());
}
