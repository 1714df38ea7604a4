//! Announcements and their sounds.
use railwatch::notify::{
    announce, read_notice, read_silence, silence, tone, write_silence, Notice, NotifyCommand, SilenceError,
    State,
};

fn notice(id: &str, critical: bool) -> Notice {
    Notice {
        id: id.into(),
        acknowledged: false,
        critical,
        message: format!("message {id}"),
    }
}

#[test]
fn tones_are_bounded_pcm() {
    for c in [false, true] {
        let t = tone(c);
        assert_eq!(t.len(), 48044);
        assert_eq!(&t[..4], b"RIFF");
        let peak = t[44..]
            .chunks_exact(2)
            .map(|s| i16::from_le_bytes([s[0], s[1]]).unsigned_abs())
            .max()
            .unwrap();
        assert!(peak > 5000 && peak < 5300);
    }
}

#[test]
fn tones_are_the_rounded_sines() {
    for critical in [false, true] {
        let out = tone(critical);
        let rate = 24000u32;
        let mut head: Vec<u8> = vec![];
        head.extend(b"RIFF");
        head.extend((36 + rate * 2).to_le_bytes());
        head.extend(b"WAVEfmt ");
        head.extend(16u32.to_le_bytes());
        head.extend(1u16.to_le_bytes());
        head.extend(1u16.to_le_bytes());
        head.extend(rate.to_le_bytes());
        head.extend((rate * 2).to_le_bytes());
        head.extend(2u16.to_le_bytes());
        head.extend(16u16.to_le_bytes());
        head.extend(b"data");
        head.extend((rate * 2).to_le_bytes());
        assert_eq!(out[..44], head[..]);
        for n in 0..rate {
            let t = n as f64 / rate as f64;
            let phase = t % 0.4;
            let envelope = if phase < 0.25 {
                (phase / 0.02).min(1.) * ((0.25 - phase) / 0.02).min(1.)
            } else {
                0.
            };
            let sample = (envelope
                * 0.16
                * 32767.
                * (std::f64::consts::TAU * if critical { 880. } else { 660. } * t).sin())
                as i16;
            let at = 44 + 2 * n as usize;
            assert_eq!(
                i16::from_le_bytes([out[at], out[at + 1]]),
                sample,
                "sample {n}"
            );
        }
    }
}

#[test]
fn warnings_are_delivered_once_and_critical_alerts_three_times() {
    let mut state = State::new();
    let notices = vec![notice("w", false), notice("c", true)];
    let mut announced = vec![];
    for round in 1..=6i64 {
        let now = round * 30_000;
        let pending = state.due(&notices, now);
        announced.push(
            pending
                .iter()
                .map(|p| p.id.clone())
                .collect::<Vec<_>>()
                .join("+"),
        );
        state.record(&pending, now, None);
        assert!(state.due(&notices, now + 29_999).is_empty());
    }
    assert_eq!(announced, ["w+c", "c", "c", "", "", ""]);
}

#[test]
fn failed_deliveries_are_tried_again_and_remembered() {
    let mut state = State::new();
    let notices = vec![notice("w", false)];
    for round in 1..=4i64 {
        let pending = state.due(&notices, round * 40_000);
        assert_eq!(pending.len(), if round <= 3 { 1 } else { 0 });
        state.record(&pending, round * 40_000, Some("no desktop".into()));
    }
    let d = state.deliveries.get("w").unwrap();
    assert_eq!(d.attempts, 3);
    assert!(!d.delivered);
    assert_eq!(d.error.as_deref(), Some("no desktop"));
    assert_eq!(d.last_at_ms, 120_000);
}

#[test]
fn acknowledged_incidents_are_not_announced() {
    let mut state = State::new();
    let mut n = notice("c", true);
    n.acknowledged = true;
    assert!(state.due(&vec![n], 100_000).is_empty());
    assert!(state.deliveries.is_empty());
}

#[test]
fn incidents_share_one_announcement() {
    let pending: Vec<Notice> = ["a", "b", "c", "d", "e"]
        .iter()
        .map(|id| notice(id, false))
        .collect();
    let a = announce(&pending, false, 0, 10);
    assert_eq!(a.title, "MSI PSU warning");
    assert_eq!(a.message, "message a\nmessage b\nmessage c\nmessage d");
    assert!(!a.critical && a.sound);
    let critical = announce(&vec![notice("a", false), notice("b", true)], false, 11, 10);
    assert_eq!(critical.title, "MSI PSU critical alert");
    assert!(critical.critical && !critical.sound);
    assert!(!announce(&pending, true, 0, 10).sound);
}

#[test]
fn old_and_excess_deliveries_are_forgotten() {
    let mut state = State::new();
    let old = vec![notice("old", true)];
    state.record(&old, 0, None);
    let many: Vec<Notice> = (0..4097).map(|n| notice(&format!("{n:05}"), true)).collect();
    state.record(&many, 2_592_000_000, None);
    assert_eq!(state.deliveries.len(), 4096);
    assert!(state.deliveries.get("old").is_none());
    assert!(state.deliveries.get("00000").is_none());
    assert!(state.deliveries.get("04096").is_some());
}

#[test]
fn silences_end_and_are_read_back() {
    assert_eq!(silence(1000, 15), Ok(901_000));
    assert_eq!(silence(0, 1440), Ok(86_400_000));
    assert_eq!(silence(0, 1441), Err(SilenceError::TooLong));
    assert_eq!(
        SilenceError::TooLong.message(),
        "silence must be at most 24 hours"
    );
    for until in [0, 1, -7, i64::MAX, i64::MIN] {
        assert_eq!(read_silence(Some(&write_silence(until))), until);
    }
    assert_eq!(read_silence(None), 0);
    assert_eq!(read_silence(Some("soon")), 0);
    assert_eq!(read_silence(Some("12\n")), 0);
    assert_ne!(
        NotifyCommand::Status,
        NotifyCommand::Silence { minutes: 15 }
    );
}

#[test]
fn announcements_are_few_and_far_between_in_any_run() {
    let mut state = State::new();
    let mut times = vec![];
    for round in 0..200i64 {
        let now = 1_000_000 + round * 7_000;
        let mut incident = notice("c", true);
        incident.acknowledged = (10..20).contains(&round);
        let pending = state.due(&vec![incident, notice("w", false)], now);
        if pending.is_empty() {
            continue;
        }
        if pending.iter().any(|n| n.id == "c") {
            times.push(now);
        }
        let error = (round % 2 == 0).then(|| "no player".to_owned());
        state.record(&pending, now, error.clone());
        assert_eq!(state.deliveries.get(&pending[0].id).unwrap().error, error);
    }
    assert_eq!(times.len(), 3);
    assert!(times.windows(2).all(|w| w[1] - w[0] >= 30_000));
    assert!(times.iter().all(|t| !(1_070_000..1_140_000).contains(t)));
}

#[test]
fn incidents_are_read_as_far_as_they_were_sent() {
    let n = read_notice(Some("a"), true, Some("critical"), Some("hot")).unwrap();
    assert_eq!(n.id, "a");
    assert!(n.acknowledged && n.critical);
    assert_eq!(n.message, "hot");
    let n = read_notice(Some("b"), false, Some("warning"), None).unwrap();
    assert!(!n.acknowledged && !n.critical);
    assert_eq!(n.message, "PSU incident");
    assert!(!read_notice(Some("c"), false, None, None).unwrap().critical);
    assert!(read_notice(None, false, Some("critical"), Some("hot")).is_none());
}
