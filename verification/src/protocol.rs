//! Readings of the wire as telemetry, and the names of the hardware alarms.
use crate::model::{Family, Fan, FaultSnapshot, Rail, Telemetry, TelemetryModel};
use crate::text;
use crate::wire;
use vstd::arithmetic::power2::*;
use vstd::prelude::*;

pub use crate::wire::{busy_pattern, normalize, request, response, READ, VID, WRITE};

verus! {

/// How many alarms the TS family reports.
pub const ALERT_COUNT: usize = 18;

/// The names of the alarms, in the order of their bytes.
pub const TS_ALERTS: [&'static str; 18] = [
    "ocp_12v",
    "ocp_5v",
    "ocp_3v3",
    "connector1_conductor1_ocp",
    "connector1_conductor2_ocp",
    "connector1_conductor3_ocp",
    "connector1_conductor4_ocp",
    "connector1_conductor5_ocp",
    "connector1_conductor6_ocp",
    "connector2_conductor1_ocp",
    "connector2_conductor2_ocp",
    "connector2_conductor3_ocp",
    "connector2_conductor4_ocp",
    "connector2_conductor5_ocp",
    "connector2_conductor6_ocp",
    "over_power",
    "over_temperature",
    "fan_fault",
];

/// The name of an alarm.
pub open spec fn alert_name(i: int) -> Seq<char> {
    TS_ALERTS@[i]@
}

/// By what the name of an alarm is told apart: two of its characters, one, or its length.
spec fn mark(name: Seq<char>) -> int {
    if name.len() == 25 {
        10 * (name[9] as int) + name[20] as int
    } else if name.len() == 7 {
        name[4] as int
    } else {
        name.len() as int
    }
}

/// What tells the alarms apart, one by one.
spec fn mark_at(i: int) -> int {
    if i == 0 {
        49
    } else if i == 1 {
        6
    } else if i == 2 {
        51
    } else if i == 3 {
        539
    } else if i == 4 {
        540
    } else if i == 5 {
        541
    } else if i == 6 {
        542
    } else if i == 7 {
        543
    } else if i == 8 {
        544
    } else if i == 9 {
        549
    } else if i == 10 {
        550
    } else if i == 11 {
        551
    } else if i == 12 {
        552
    } else if i == 13 {
        553
    } else if i == 14 {
        554
    } else if i == 15 {
        10
    } else if i == 16 {
        16
    } else {
        9
    }
}

/// The names are told apart as they are said to be.
proof fn names_are_marked(i: int)
    requires
        0 <= i < ALERT_COUNT,
    ensures
        mark(alert_name(i)) == mark_at(i),
{
    reveal_strlit("ocp_12v");
    reveal_strlit("ocp_5v");
    reveal_strlit("ocp_3v3");
    reveal_strlit("connector1_conductor1_ocp");
    reveal_strlit("connector1_conductor2_ocp");
    reveal_strlit("connector1_conductor3_ocp");
    reveal_strlit("connector1_conductor4_ocp");
    reveal_strlit("connector1_conductor5_ocp");
    reveal_strlit("connector1_conductor6_ocp");
    reveal_strlit("connector2_conductor1_ocp");
    reveal_strlit("connector2_conductor2_ocp");
    reveal_strlit("connector2_conductor3_ocp");
    reveal_strlit("connector2_conductor4_ocp");
    reveal_strlit("connector2_conductor5_ocp");
    reveal_strlit("connector2_conductor6_ocp");
    reveal_strlit("over_power");
    reveal_strlit("over_temperature");
    reveal_strlit("fan_fault");
}

/// No two alarms have the same name.
pub proof fn alarm_names_differ(i: int, j: int)
    requires
        0 <= i < j < ALERT_COUNT,
    ensures
        alert_name(i) != alert_name(j),
{
    names_are_marked(i);
    names_are_marked(j);
}

/// What is left of a number when only its low sixty-four bits are kept.
pub open spec fn low64(n: int) -> int {
    let low = n % 0x1_0000_0000_0000_0000;
    if low < 0x8000_0000_0000_0000 {
        low
    } else {
        low - 0x1_0000_0000_0000_0000
    }
}

/// The vendor's number with any scale: shifted left without a check, or rounded down.
pub open spec fn linear11_scaled(raw: u16, scale: int) -> int {
    if wire::exponent(raw) >= 0 {
        low64(wire::mantissa(raw) * scale * pow2(wire::exponent(raw) as nat))
    } else {
        wire::mantissa(raw) * scale / (pow2((-wire::exponent(raw)) as nat) as int)
    }
}

/// Decodes two bytes with any scale.
pub fn unsigned_linear11_scaled(bytes: &[u8], scale: i64) -> (value: i64)
    requires
        bytes@.len() >= 2,
        i64::MIN <= wire::mantissa(wire::le16(bytes@, 0)) * scale <= i64::MAX,
    ensures
        value == linear11_scaled(wire::le16(bytes@, 0), scale as int),
{
    let raw = wire::read_le16(bytes, 0);
    let high: u16 = raw / 2048;
    let digits: i64 = (raw % 2048) as i64;
    let scaled: i64 = digits * scale;
    if high < 16 {
        let p = wire::power_of_two(high);
        scaled.wrapping_mul(p)
    } else {
        let p = wire::power_of_two(32 - high);
        if scaled >= 0 {
            assert(scaled as int / p as int == linear11_scaled(raw, scale as int));
            scaled / p
        } else {
            let up: i128 = (-(scaled as i128) + (p as i128) - 1) / (p as i128);
            assert(-(up as int) == scaled as int / p as int && 0 <= up <= -(scaled as int))
                by (nonlinear_arith)
                requires
                    p >= 1,
                    scaled < 0,
                    up as int == (-(scaled as int) + p as int - 1) / p as int,
            ;
            (-up) as i64
        }
    }
}

/// Why a report did not become telemetry.
#[derive(Debug, Clone, Copy, PartialEq, Eq, Structural)]
pub enum DecodeError {
    /// The layout of this family has not been qualified.
    UnqualifiedFamily,
    /// The report itself was refused.
    Report(wire::Error),
}

impl DecodeError {
    /// The words in which an error is reported.
    pub open spec fn words(self) -> Seq<char> {
        match self {
            DecodeError::UnqualifiedFamily =>
                "this family requires its own qualified telemetry decoder"@,
            DecodeError::Report(e) => e.words(),
        }
    }

    /// The words in which an error is reported.
    pub fn message(&self) -> (text: &'static str)
        ensures
            text@ == self.words(),
    {
        match self {
            DecodeError::UnqualifiedFamily =>
                "this family requires its own qualified telemetry decoder",
            DecodeError::Report(e) => e.message(),
        }
    }
}

/// The labels of the rails, in the order of the wire.
pub open spec fn rail_label(rail: int) -> Seq<char> {
    if rail == 0 {
        "12V"@
    } else if rail == 1 {
        "5V"@
    } else {
        "3.3V"@
    }
}

/// A reading with the values of a payload, no identity, and no optional group.
pub open spec fn shows(t: TelemetryModel, d: Seq<u8>) -> bool {
    &&& t.device_id.len() == 0
    &&& t.session_id.len() == 0
    &&& t.sequence == 0
    &&& t.captured_at_ms == 0
    &&& t.monotonic_ms == 0
    &&& t.power_uw == wire::reading(d, 30, wire::Scale::Micro)
    &&& t.efficiency_millipercent == wire::reading(d, 32, wire::Scale::Milli)
    &&& t.temperature_mc == wire::reading(d, 34, wire::Scale::Milli)
    &&& t.rails.len() == 3
    &&& forall|r: int|
        #![trigger t.rails[r]]
        0 <= r < 3 ==> t.rails[r].label == rail_label(r) && t.rails[r].voltage_mv
            == wire::rail_voltage(d, r) && t.rails[r].current_ma == wire::rail_current(d, r)
    &&& t.connector_currents_ma.len() == 2
    &&& forall|c: int, i: int|
        #![trigger t.connector_currents_ma[c]@[i]]
        0 <= c < 2 && 0 <= i < 6 ==> t.connector_currents_ma[c]@[i] == wire::conductor_current(
            d,
            c,
            i,
        )
    &&& t.fan.rpm == wire::reading(d, 36, wire::Scale::Base)
    &&& t.fan.mode_raw is None
    &&& t.fan.requested_duty_percent is None
    &&& t.fan.actual_duty_percent is None
    &&& t.fan.calculated_duty_percent is None
    &&& t.fan.zero_fan is None
    &&& t.alerts_raw.len() == 0
    &&& t.alert_names.len() == 0
    &&& t.safeguards.len() == 0
    &&& t.session_seconds is None
    &&& t.lifetime_seconds is None
    &&& t.input_voltage_mv is None
    &&& t.group_errors.len() == 0
}

/// A rail with its label.
fn labelled(label: &str, raw: wire::Rail) -> (rail: Rail)
    ensures
        rail.label@ == label@,
        rail.voltage_mv == raw.voltage_mv,
        rail.current_ma == raw.current_ma,
{
    Rail { label: label.to_owned(), voltage_mv: raw.voltage_mv, current_ma: raw.current_ma }
}

/// Decodes a telemetry report of a qualified family.
pub fn decode_telemetry(report: &[u8], family: Family) -> (r: Result<Telemetry, DecodeError>)
    ensures
        if family != Family::Ts {
            r matches Err(e) && e == DecodeError::UnqualifiedFamily
        } else {
            match wire::payload(report@, READ, 0xe0, 44) {
                Err(e) => r matches Err(f) && f == DecodeError::Report(e),
                Ok(d) => if wire::plausible(d) {
                    r matches Ok(t) && shows(t@, d)
                } else {
                    r matches Err(f) && f == DecodeError::Report(wire::Error::ImplausibleTelemetry)
                },
            }
        },
{
    if family != Family::Ts {
        return Err(DecodeError::UnqualifiedFamily);
    }
    let raw = match wire::decode_ts_telemetry(report) {
        Ok(raw) => raw,
        Err(e) => {
            return Err(DecodeError::Report(e));
        },
    };
    let rails: Vec<Rail> = vec![
        labelled("12V", raw.rails[0]),
        labelled("5V", raw.rails[1]),
        labelled("3.3V", raw.rails[2]),
    ];
    let connector_currents_ma: Vec<[i64; 6]> = vec![
        raw.connector_currents_ma[0],
        raw.connector_currents_ma[1],
    ];
    Ok(
        Telemetry {
            device_id: String::new(),
            session_id: String::new(),
            sequence: 0,
            captured_at_ms: 0,
            monotonic_ms: 0,
            power_uw: raw.power_uw,
            efficiency_millipercent: raw.efficiency_millipercent,
            temperature_mc: raw.temperature_mc,
            rails,
            connector_currents_ma,
            fan: Fan {
                rpm: raw.fan_rpm,
                mode_raw: None,
                requested_duty_percent: None,
                actual_duty_percent: None,
                calculated_duty_percent: None,
                zero_fan: None,
            },
            alerts_raw: Vec::new(),
            alert_names: Vec::new(),
            safeguards: Vec::new(),
            session_seconds: None,
            lifetime_seconds: None,
            input_voltage_mv: None,
            group_errors: Vec::new(),
        },
    )
}

/// A recorded fault holds its part of a payload, from `base` on.
pub open spec fn fault_shows(s: FaultSnapshot, d: Seq<u8>, base: int) -> bool {
    &&& s.status_raw == d[base]
    &&& s.runtime_seconds == wire::le32(d, base + 1)
    &&& s.lifetime_seconds == wire::le32(d, base + 5)
    &&& forall|i: int|
        #![trigger s.currents_ma@[i]]
        0 <= i < 6 ==> s.currents_ma@[i] == wire::reading(d, base + 9 + 2 * i, wire::Scale::Milli)
}

/// A recorded fault as the model keeps it.
fn kept(s: wire::FaultSnapshot) -> (k: FaultSnapshot)
    ensures
        k.status_raw == s.status_raw,
        k.runtime_seconds == s.runtime_seconds,
        k.lifetime_seconds == s.lifetime_seconds,
        k.currents_ma == s.currents_ma,
{
    FaultSnapshot {
        status_raw: s.status_raw,
        runtime_seconds: s.runtime_seconds,
        lifetime_seconds: s.lifetime_seconds,
        currents_ma: s.currents_ma,
    }
}

/// Decodes a safeguard report, one snapshot per connector; unknown states are kept as they are.
pub fn decode_safeguards(report: &[u8]) -> (r: wire::Result<Vec<FaultSnapshot>>)
    ensures
        match wire::payload(report@, READ, 0xc1, 42) {
            Err(e) => r matches Err(f) && f == e,
            Ok(d) => r matches Ok(s) && s@.len() == 2 && fault_shows(s@[0], d, 0) && fault_shows(
                s@[1],
                d,
                21,
            ),
        },
{
    match wire::decode_ts_safeguards(report) {
        Ok(raw) => {
            let kept_faults: Vec<FaultSnapshot> = vec![kept(raw[0]), kept(raw[1])];
            Ok(kept_faults)
        },
        Err(e) => Err(e),
    }
}

/// What a telemetry report shows of a payload: the rails by their labels, with voltage and current,
/// and all other readings, each from its own place.
pub proof fn telemetry_shows_its_payload(t: TelemetryModel, d: Seq<u8>)
    requires
        shows(t, d),
    ensures
        t.rails.len() == 3,
        t.rails[0].label == "12V"@,
        t.rails[0].voltage_mv == wire::reading(d, 38, wire::Scale::Milli),
        t.rails[0].current_ma == wire::reading(d, 0, wire::Scale::Milli),
        t.rails[1].label == "5V"@,
        t.rails[1].voltage_mv == wire::reading(d, 40, wire::Scale::Milli),
        t.rails[1].current_ma == wire::reading(d, 2, wire::Scale::Milli),
        t.rails[2].label == "3.3V"@,
        t.rails[2].voltage_mv == wire::reading(d, 42, wire::Scale::Milli),
        t.rails[2].current_ma == wire::reading(d, 4, wire::Scale::Milli),
        t.connector_currents_ma.len() == 2,
        forall|i: int|
            0 <= i < 6 ==> #[trigger] t.connector_currents_ma[0]@[i] == wire::reading(
                d,
                6 + 2 * i,
                wire::Scale::Milli,
            ),
        forall|i: int|
            0 <= i < 6 ==> #[trigger] t.connector_currents_ma[1]@[i] == wire::reading(
                d,
                18 + 2 * i,
                wire::Scale::Milli,
            ),
        t.power_uw == wire::reading(d, 30, wire::Scale::Micro),
        t.efficiency_millipercent == wire::reading(d, 32, wire::Scale::Milli),
        t.temperature_mc == wire::reading(d, 34, wire::Scale::Milli),
        t.fan.rpm == wire::reading(d, 36, wire::Scale::Base),
{
}

/// What was not read is absent, never normal: a telemetry report alone says nothing of alarms,
/// protections, duties, the fan's mode, the counters or the input voltage.
pub proof fn absence_is_not_normal(t: TelemetryModel, d: Seq<u8>)
    requires
        shows(t, d),
    ensures
        t.alerts_raw.len() == 0 && t.alert_names.len() == 0 && t.safeguards.len() == 0,
        t.fan.mode_raw is None && t.fan.zero_fan is None,
        t.fan.requested_duty_percent is None && t.fan.actual_duty_percent is None
            && t.fan.calculated_duty_percent is None,
        t.session_seconds is None && t.lifetime_seconds is None && t.input_voltage_mv is None,
        t.device_id.len() == 0 && t.session_id.len() == 0 && t.group_errors.len() == 0,
        t.sequence == 0 && t.captured_at_ms == 0 && t.monotonic_ms == 0,
{
}

/// A recorded fault is 21 bytes: its status, two counts of seconds with the low byte first, and the
/// currents of the six conductors.
pub proof fn faults_show_their_payload(s: FaultSnapshot, d: Seq<u8>, base: int)
    requires
        fault_shows(s, d, base),
    ensures
        s.status_raw == d[base],
        s.runtime_seconds == d[base + 1] + 0x100 * d[base + 2] + 0x1_0000 * d[base + 3]
            + 0x100_0000 * d[base + 4],
        s.lifetime_seconds == d[base + 5] + 0x100 * d[base + 6] + 0x1_0000 * d[base + 7]
            + 0x100_0000 * d[base + 8],
        forall|i: int|
            0 <= i < 6 ==> #[trigger] s.currents_ma@[i] == wire::reading(
                d,
                base + 9 + 2 * i,
                wire::Scale::Milli,
            ),
{
}

/// A number with any scale is that of a reading where it fits: the same bits give the number times
/// the power of two in the unit of the scale, rounded down; of what does not fit, the low 64 bits are
/// kept.
pub proof fn scaled_numbers_follow_the_readings(raw: u16, scale: int)
    ensures
        ({
            let number = raw as int % 2048;
            let power = raw as int / 2048;
            let value = linear11_scaled(raw, scale);
            &&& power < 16 ==> {
                let whole = number * scale * pow2(power as nat);
                &&& i64::MIN <= value <= i64::MAX
                &&& (whole - value) % 0x1_0000_0000_0000_0000 == 0
                &&& i64::MIN <= whole <= i64::MAX ==> value == whole
            }
            &&& power >= 16 ==> value * pow2((32 - power) as nat) <= number * scale < (value + 1)
                * pow2((32 - power) as nat)
        }),
{
    let number = raw as int % 2048;
    let power = raw as int / 2048;
    let m = number * scale;
    if power >= 16 {
        let p = pow2((32 - power) as nat) as int;
        lemma_pow2_pos((32 - power) as nat);
        vstd::arithmetic::div_mod::lemma_fundamental_div_mod(m, p);
        vstd::arithmetic::div_mod::lemma_mod_bound(m, p);
        let v = m / p;
        assert(v * p <= m < (v + 1) * p) by (nonlinear_arith)
            requires
                m == p * v + m % p,
                0 <= m % p < p,
        ;
    } else {
        let whole = number * scale * pow2(power as nat);
        assert(linear11_scaled(raw, scale) == low64(whole));
    }
}

/// The alarms in the order of their bytes: overcurrent of the three rails, of the six conductors of
/// each connector, then power, temperature and fan.
pub proof fn alarms_have_their_names(c: int, k: int)
    requires
        0 <= c < 2,
        0 <= k < 6,
    ensures
        alert_name(0) == "ocp_12v"@,
        alert_name(1) == "ocp_5v"@,
        alert_name(2) == "ocp_3v3"@,
        alert_name(3 + 6 * c + k) == "connector"@ + text::decimal((c + 1) as nat) + "_conductor"@
            + text::decimal((k + 1) as nat) + "_ocp"@,
        alert_name(15) == "over_power"@,
        alert_name(16) == "over_temperature"@,
        alert_name(17) == "fan_fault"@,
{
    reveal_strlit("connector");
    reveal_strlit("_conductor");
    reveal_strlit("_ocp");
    reveal_strlit("connector1_conductor1_ocp");
    reveal_strlit("connector1_conductor2_ocp");
    reveal_strlit("connector1_conductor3_ocp");
    reveal_strlit("connector1_conductor4_ocp");
    reveal_strlit("connector1_conductor5_ocp");
    reveal_strlit("connector1_conductor6_ocp");
    reveal_strlit("connector2_conductor1_ocp");
    reveal_strlit("connector2_conductor2_ocp");
    reveal_strlit("connector2_conductor3_ocp");
    reveal_strlit("connector2_conductor4_ocp");
    reveal_strlit("connector2_conductor5_ocp");
    reveal_strlit("connector2_conductor6_ocp");
    let one = text::decimal((c + 1) as nat);
    let other = text::decimal((k + 1) as nat);
    assert(one =~= seq![text::digit_char(c + 1)]);
    assert(other =~= seq![text::digit_char(k + 1)]);
    let i = 3 + 6 * c + k;
    assert(alert_name(i) =~= "connector"@ + one + "_conductor"@ + other + "_ocp"@);
}

} // verus!
