//! Recognising supplies, judging replies and composing readings.
use railwatch::device::{
    apply_group, capture, check_handshake, describe, device_id, identify, judge_reply, qualify,
    revision, serial_number, simulated_sample, Discovery, ExchangeError, Group, OpenError, Poll,
    Reply,
};
use railwatch::wire::{self, request, READ};

fn found(pid: u16, driver: &str) -> Discovery {
    Discovery {
        path: "/dev/hidraw3".into(),
        pid,
        model: "MSI MPG Ai1600TS".into(),
        driver: driver.into(),
    }
}

#[test]
fn supplies_are_recognised_by_their_properties() {
    let uevent = "DRIVER=hid-generic\nHID_ID=0003:00000DB0:0000808C\nHID_NAME=MSI MPG\n";
    assert_eq!(identify(uevent), Some((0x808c, "MSI MPG".into())));
    assert_eq!(
        identify("HID_ID=0003:00000db0:0000aa6f"),
        Some((0xaa6f, "MSI PSU".into()))
    );
    for other in [
        "",
        "HID_NAME=MSI MPG",
        "HID_ID=0003:00000DB0",
        "HID_ID=0003:00000DB1:0000808C",
        "HID_ID=0003:00000DB0:00001234",
        "HID_ID=0003:00000DB0:0000808C:1",
        "HID_ID=0003:zz:0000808C",
    ] {
        assert_eq!(identify(other), None, "{other}");
    }
}

#[test]
fn one_qualified_supply_of_the_generic_driver_is_opened() {
    assert!(qualify(&vec![found(0x808c, "hid-generic")]).is_ok());
    let message = |list| qualify(&list).unwrap_err().message();
    assert_eq!(
        message(vec![]),
        "select exactly one supported PSU with --device; found 0"
    );
    assert_eq!(
        message(vec![
            found(0x808c, "hid-generic"),
            found(0xaa6f, "hid-generic")
        ]),
        "select exactly one supported PSU with --device; found 2"
    );
    assert_eq!(
        message(vec![found(0xc9eb, "hid-generic")]),
        "model is detected but its telemetry layout is not yet qualified"
    );
    assert_eq!(
        message(vec![found(0x808c, "msi-psu")]),
        "PSU has driver msi-psu; use its kernel backend instead of concurrent raw access"
    );
}

#[test]
fn the_handshake_names_the_maker() {
    let mut q = request(0xfa, READ, b"MPG Ai1600TS").unwrap();
    assert!(check_handshake(&q).is_ok());
    q[3] = b'X';
    assert!(matches!(check_handshake(&q), Err(OpenError::Handshake)));
    q[1] = 0x51;
    assert!(matches!(
        check_handshake(&q),
        Err(OpenError::Report(wire::Error::EchoMismatch))
    ));
}

#[test]
fn serial_numbers_are_text_of_their_length() {
    let report = |payload: &[u8]| request(READ, 0x13, payload).unwrap();
    assert_eq!(serial_number(&report(b"\x08 AB12\0\0\0ignored")).unwrap(), "AB12");
    assert_eq!(serial_number(&report(b"\x00")).unwrap(), "");
    assert_eq!(
        serial_number(&report("\x03é1".as_bytes())).unwrap(),
        "é1"
    );
    assert!(matches!(
        serial_number(&report(&[62])),
        Err(OpenError::SerialLength)
    ));
    let error = serial_number(&report(&[1, 0xff])).unwrap_err();
    assert!(matches!(error, OpenError::SerialText(_)));
    assert_eq!(
        error.message(),
        String::from_utf8(vec![0xff]).unwrap_err().to_string()
    );
}

#[test]
fn revisions_are_read_even_where_they_are_no_text() {
    let report = |payload: &[u8]| request(READ, 0x12, payload).unwrap();
    assert_eq!(revision(&report(b"12")).unwrap(), "12");
    assert_eq!(revision(&report(&[0x31, 0xff])).unwrap(), "1\u{fffd}");
    assert!(revision(&request(READ, 0x13, &[]).unwrap()).is_err());
}

#[test]
fn identities_hold_the_serial_number_or_else_the_node() {
    assert_eq!(device_id(0x808c, "AB12", "hidraw3"), "msi-808c-AB12");
    assert_eq!(device_id(0x0042, "", "hidraw3"), "msi-0042-hidraw3");
    let info = describe(
        &found(0x808c, "hid-generic"),
        "AB12".into(),
        "12".into(),
        "hidraw3",
    );
    assert_eq!(info.id, "msi-808c-AB12");
    assert_eq!(info.backend, "hidraw");
    assert_eq!(info.path, "/dev/hidraw3");
    assert_eq!(info.serial.as_deref(), Some("AB12"));
    assert_eq!(info.revision.as_deref(), Some("12"));
    assert!(!info.simulated);
    assert_eq!(info.capabilities.len(), 4);
}

#[test]
fn replies_are_accepted_passed_over_or_refused() {
    let q = request(READ, 0xe0, &[1]).unwrap();
    assert_eq!(judge_reply(&q, READ, 0xe0), Ok(Reply::Accepted));
    assert_eq!(judge_reply(&q[1..], READ, 0xe1), Ok(Reply::Unrelated));
    assert_eq!(
        judge_reply(&[], READ, 0xe0),
        Err(ExchangeError::Disconnected)
    );
    assert_eq!(
        judge_reply(&q[..20], READ, 0xe0),
        Err(ExchangeError::Report(wire::Error::ReportLength))
    );
    let busy = request(READ, 0xe0, &[0xfe]).unwrap();
    let error = judge_reply(&busy, READ, 0xe0).unwrap_err();
    assert_eq!(
        error.message(),
        "device returned busy/error sentinel for command 0xe0"
    );
    assert_eq!(
        ExchangeError::TimedOut(0x5).message(),
        "command 0x5 timed out; write outcome may be unknown"
    );
}

#[test]
fn the_newest_captures_are_kept() {
    let mut captures = vec![];
    for n in 0..70u8 {
        capture(&mut captures, n, vec![n]);
    }
    assert_eq!(captures.len(), 64);
    assert_eq!(captures[0], (6, vec![6]));
    assert_eq!(captures[63], (69, vec![69]));
}

#[test]
fn groups_are_read_in_order_and_fail_on_their_own() {
    let main = request(READ, 0xe0, &[]).unwrap();
    let mut poll = Poll::begin(&main, "msi-808c-1", 7, 9).unwrap();
    let mut alarms = [0u8; 18];
    alarms[9] = 1;
    let replies: Vec<Result<Vec<u8>, String>> = vec![
        Ok(request(READ, 0xe1, &alarms).unwrap().to_vec()),
        Err("command 0xc1 timed out; write outcome may be unknown".into()),
        Ok(request(READ, 0x42, &[35, 36, 37, 1]).unwrap().to_vec()),
        Ok(request(READ, 0x41, &[2, 0, 0]).unwrap().to_vec()),
        Ok(request(READ, 0xd0, &[1, 1, 0, 0]).unwrap().to_vec()),
        Err("PSU disconnected".into()),
    ];
    let mut commands = vec![];
    for reply in &replies {
        commands.push(poll.next_group().unwrap().command());
        poll.accept(reply).unwrap();
    }
    assert_eq!(commands, [0xe1, 0xc1, 0x42, 0x41, 0xd0, 0xd1]);
    assert!(poll.next_group().is_none());
    let t = poll.telemetry;
    assert_eq!(t.device_id, "msi-808c-1");
    assert_eq!((t.captured_at_ms, t.monotonic_ms), (7, 9));
    assert_eq!(t.alerts_raw, alarms);
    assert_eq!(t.alert_names.len(), 1);
    assert_eq!(t.fan.actual_duty_percent, Some(35));
    assert_eq!(t.fan.calculated_duty_percent, Some(36));
    assert_eq!(t.fan.requested_duty_percent, Some(37));
    assert_eq!(t.fan.zero_fan, Some(true));
    assert_eq!(t.fan.mode_raw, Some(2));
    assert_eq!(t.session_seconds, Some(257));
    assert_eq!(t.lifetime_seconds, None);
    assert!(t.safeguards.is_empty());
    assert_eq!(
        t.group_errors,
        [
            "safeguards: command 0xc1 timed out; write outcome may be unknown",
            "runtime_d1: PSU disconnected"
        ]
    );
}

#[test]
fn invalid_duties_are_noted_and_foreign_replies_refused() {
    let mut t = simulated_sample(0, false);
    let invalid = Ok(request(READ, 0x42, &[101, 0, 0, 0]).unwrap().to_vec());
    assert!(apply_group(&mut t, Group::FanDuty, &invalid).is_ok());
    assert_eq!(t.group_errors, ["invalid fan duty"]);
    assert_eq!(t.fan.actual_duty_percent, Some(35));
    let foreign = Ok(request(READ, 0x41, &[]).unwrap().to_vec());
    assert_eq!(
        apply_group(&mut t, Group::FanDuty, &foreign),
        Err(wire::Error::EchoMismatch)
    );
    let faults = Ok(request(READ, 0xc1, &[3]).unwrap().to_vec());
    assert!(apply_group(&mut t, Group::Safeguards, &faults).is_ok());
    assert_eq!(t.safeguards[0].status_raw, 3);
    assert_eq!(t.group_errors.len(), 1);
}

#[test]
fn the_simulator_draws_a_steady_load() {
    let t = simulated_sample(41, false);
    assert_eq!(t.power_uw, 251_000_000);
    assert_eq!(t.estimated_input_uw(), Some(278_888_888));
    assert_eq!(t.rails[2].label, "3.3V");
    assert_eq!(
        t.connector_currents_ma[1],
        [2000, 2100, 1900, 2000, 2000, 2000]
    );
    let f = simulated_sample(0, true);
    assert_eq!(f.alerts_raw[9], 1);
    assert_eq!(f.safeguards[1].status_raw, 2);
    assert_eq!(f.alert_names.len(), 1);
}
