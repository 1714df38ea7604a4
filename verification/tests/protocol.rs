//! Reports of the wire and what is decoded from them.
use railwatch::model::Family;
use railwatch::protocol::{decode_safeguards, decode_telemetry, unsigned_linear11_scaled};
use railwatch::wire::{
    self, busy_pattern, decode_ts_safeguards, decode_ts_telemetry, normalize, request, response,
    unsigned_linear11, Error, Scale, READ, WRITE,
};

#[test]
fn framing_rejects_invalid_reports() {
    let q = request(READ, 0xe0, &[]).unwrap();
    assert_eq!(&q[..4], &[0, 0x51, 0xe0, 0]);
    assert_eq!(normalize(&q).unwrap(), &q[1..]);
    let buffer = [0; 66];
    for n in 0..64 {
        assert_eq!(normalize(&buffer[..n]), Err(Error::ReportLength));
    }
    assert!(normalize(&buffer).is_err());
    assert_eq!(request(WRITE, 0xc0, &[0; 63]), Err(Error::PayloadLength));
}

#[test]
fn numeric_boundaries_and_all_encodings_fit() {
    assert_eq!(unsigned_linear11(0x07ff, Scale::Milli), 2_047_000);
    assert_eq!(unsigned_linear11(0xf801, Scale::Milli), 500);
    assert_eq!(unsigned_linear11(0x8001, Scale::Micro), 15);
    for raw in 0..=u16::MAX {
        assert!(unsigned_linear11(raw, Scale::Micro) >= 0);
    }
}

#[test]
fn fault_status_and_echo_are_preserved() {
    let mut q = request(READ, 0xc1, &[]).unwrap();
    q[3] = 99;
    assert_eq!(decode_ts_safeguards(&q).unwrap()[0].status_raw, 99);
    assert_eq!(decode_ts_telemetry(&q), Err(Error::EchoMismatch));
    q[2] = 0xe0;
    q[3] = 0xfe;
    assert_eq!(decode_ts_telemetry(&q), Err(Error::Busy));
}

#[test]
fn unqualified_families_never_use_ts_offsets() {
    let report = request(READ, 0xe0, &[]).unwrap();
    assert!(decode_telemetry(&report, Family::P).is_err());
    assert!(decode_telemetry(&report, Family::T).is_err());
    let sample = decode_telemetry(&report, Family::Ts).unwrap();
    assert_eq!(
        sample
            .rails
            .iter()
            .map(|r| r.label.as_str())
            .collect::<Vec<_>>(),
        ["12V", "5V", "3.3V"]
    );
    assert_eq!(sample.connector_currents_ma.len(), 2);
    assert!(sample.fan.mode_raw.is_none());
}

#[test]
fn framing_and_lengths() {
    let q = request(READ, 0xe0, &[]).unwrap();
    assert_eq!(&q[..4], &[0, 0x51, 0xe0, 0]);
    assert_eq!(normalize(&q).unwrap(), &q[1..]);
    for n in 0..64 {
        assert!(normalize(&vec![0; n]).is_err());
    }
    assert!(request(WRITE, 0xc0, &[0; 63]).is_err());
}

#[test]
fn vendor_numeric_boundaries() {
    assert_eq!(
        unsigned_linear11_scaled(&0x07ffu16.to_le_bytes(), 1000),
        2_047_000
    );
    assert_eq!(
        unsigned_linear11_scaled(&0xf801u16.to_le_bytes(), 1000),
        500
    );
    assert_eq!(
        unsigned_linear11_scaled(&0x8001u16.to_le_bytes(), 1_000_000),
        15
    );
}

#[test]
fn unknown_safeguard_is_preserved() {
    let mut q = request(READ, 0xc1, &[]).unwrap();
    q[3] = 99;
    assert_eq!(decode_safeguards(&q).unwrap()[0].status_raw, 99);
}

#[test]
fn rejects_wrong_family_busy_and_wrong_echo() {
    let mut q = request(READ, 0xe0, &[]).unwrap();
    assert!(decode_telemetry(&q, Family::P).is_err());
    q[3] = 0xfe;
    assert!(decode_telemetry(&q, Family::Ts).is_err());
    q[3] = 0;
    q[2] = 0xc1;
    assert!(decode_telemetry(&q, Family::Ts).is_err());
}

#[test]
fn binary_counter_low_byte_is_not_an_error_sentinel() {
    let mut report = [0u8; 64];
    report[0] = READ;
    report[1] = 0xd1;
    report[2..6].copy_from_slice(&11518u32.to_le_bytes());
    assert_eq!(report[2], 0xfe);
    assert_eq!(
        u32::from_le_bytes(
            response(&report, READ, 0xd1, 4)
                .unwrap()
                .try_into()
                .unwrap()
        ),
        11518
    );
}

/// A report of 44 payload bytes with the given values at their places.
fn telemetry_report(values: &[(usize, u16)]) -> [u8; 64] {
    let mut report = [0u8; 64];
    report[0] = READ;
    report[1] = 0xe0;
    for (at, value) in values {
        report[2 + at..4 + at].copy_from_slice(&value.to_le_bytes());
    }
    report
}

#[test]
fn telemetry_values_stand_at_their_places() {
    let report = telemetry_report(&[
        (30, 180),
        (32, 0xe000 | 1306),
        (34, 57),
        (36, 700),
    ]);
    let t = decode_telemetry(&report, Family::Ts).unwrap();
    assert_eq!(t.power_uw, 180_000_000);
    assert_eq!(t.efficiency_millipercent, 81_625);
    assert_eq!(t.temperature_mc, 57_000);
    assert_eq!(t.fan.rpm, 700);
    assert!(t.alerts_raw.is_empty() && t.safeguards.is_empty());
}

#[test]
fn implausible_telemetry_is_refused() {
    let report = telemetry_report(&[(34, 0x07ff)]);
    assert_eq!(
        decode_ts_telemetry(&report),
        Err(Error::ImplausibleTelemetry)
    );
    let error = decode_telemetry(&report, Family::Ts).unwrap_err();
    assert_eq!(error.message(), "implausible telemetry values");
}

#[test]
fn requests_answer_themselves() {
    let q = request(READ, 0x42, &[35, 36, 37, 1]).unwrap();
    assert_eq!(response(&q, READ, 0x42, 4).unwrap(), &[35, 36, 37, 1]);
    assert_eq!(response(&q, READ, 0x42, 63), Err(Error::PayloadLength));
    assert_eq!(response(&q[1..], READ, 0x41, 4), Err(Error::EchoMismatch));
}

#[test]
fn only_a_lone_sentinel_is_busy() {
    let mut report = [0u8; 64];
    report[2] = 0xfe;
    assert!(busy_pattern(&report));
    report[63] = 1;
    assert!(!busy_pattern(&report));
}

#[test]
fn every_refused_report_has_its_words() {
    for (error, words) in [
        (wire::Error::PayloadLength, "invalid payload length"),
        (wire::Error::ReportLength, "invalid HID report length"),
        (
            wire::Error::EchoMismatch,
            "response does not match outstanding command",
        ),
        (wire::Error::Busy, "device returned busy/error sentinel"),
        (
            wire::Error::ImplausibleTelemetry,
            "implausible telemetry values",
        ),
    ] {
        assert_eq!(error.message(), words);
    }
}

/// The reports of a unit at 180 W, composed of the readings that its registers hold.
fn idle_graphics_reports() -> ([u8; 64], [u8; 64], [u8; 64]) {
    let mut values = vec![(30, 180), (32, 0xe000 | 1306), (34, 57), (36, 0)];
    for conductor in 0..6 {
        let sixteenths = if conductor == 5 { 7 } else { 6 };
        values.push((18 + 2 * conductor, 0xe000 | sixteenths));
    }
    let telemetry = telemetry_report(&values);
    let mut safeguards = [0u8; 64];
    safeguards[..2].copy_from_slice(&[READ, 0xc1]);
    let mut limits = [0u8; 64];
    limits[..2].copy_from_slice(&[READ, 0xc0]);
    limits[2..10].copy_from_slice(&[1, 192, 224, 88, 224, 20, 20, 180]);
    (telemetry, safeguards, limits)
}

#[test]
fn captured_linux_ai1600ts_report_decodes() {
    let (e0, c1, c0) = idle_graphics_reports();
    let t = decode_telemetry(&e0, Family::Ts).unwrap();
    assert_eq!(t.power_uw, 180_000_000);
    assert_eq!(t.efficiency_millipercent, 81625);
    assert_eq!(t.temperature_mc, 57000);
    assert_eq!(t.fan.rpm, 0);
    assert_eq!(t.connector_currents_ma[0], [0; 6]);
    assert_eq!(
        t.connector_currents_ma[1],
        [375, 375, 375, 375, 375, 437]
    );
    let snapshots = decode_safeguards(&c1).unwrap();
    assert_eq!(snapshots.len(), 2);
    assert!(snapshots.iter().all(|s| s.status_raw == 0));
    assert_eq!(
        response(&c0, READ, 0xc0, 8).unwrap(),
        [1, 192, 224, 88, 224, 20, 20, 180]
    );
}
