//! What is measured, as every part of the library shares it.
use crate::arith;
use vstd::prelude::*;

verus! {

/// The families of supplies that are told apart.
#[derive(Debug, Clone, Copy, PartialEq, Eq, Structural)]
pub enum Family {
    Ts,
    T,
    P,
}

/// The family of a product number.
pub open spec fn family_of(pid: u16) -> Option<Family> {
    if pid == 0x808c || pid == 0xaa6f {
        Some(Family::Ts)
    } else if pid == 0xc9eb {
        Some(Family::T)
    } else if pid == 0x56d4 || pid == 0xe749 {
        Some(Family::P)
    } else {
        None
    }
}

/// The family of a product number.
pub fn family(pid: u16) -> (f: Option<Family>)
    ensures
        f == family_of(pid),
{
    match pid {
        0x808c | 0xaa6f => Some(Family::Ts),
        0xc9eb => Some(Family::T),
        0x56d4 | 0xe749 => Some(Family::P),
        _ => None,
    }
}

/// A supply rail.
#[derive(Debug, PartialEq)]
pub struct Rail {
    pub label: String,
    pub voltage_mv: i64,
    pub current_ma: i64,
}

/// A supply rail, with its label as characters.
pub struct RailModel {
    pub label: Seq<char>,
    pub voltage_mv: i64,
    pub current_ma: i64,
}

impl View for Rail {
    type V = RailModel;

    open spec fn view(&self) -> RailModel {
        RailModel {
            label: self.label@,
            voltage_mv: self.voltage_mv,
            current_ma: self.current_ma,
        }
    }
}

impl DeepView for Rail {
    type V = RailModel;

    open spec fn deep_view(&self) -> RailModel {
        self@
    }
}

impl Clone for Rail {
    fn clone(&self) -> (copy: Self)
        ensures
            copy@ == self@,
    {
        Rail {
            label: self.label.clone(),
            voltage_mv: self.voltage_mv,
            current_ma: self.current_ma,
        }
    }
}

/// The fan, as far as the device reports it.
#[derive(Debug, Clone, Copy, PartialEq)]
pub struct Fan {
    pub rpm: i64,
    pub mode_raw: Option<u8>,
    pub requested_duty_percent: Option<u8>,
    pub actual_duty_percent: Option<u8>,
    pub calculated_duty_percent: Option<u8>,
    pub zero_fan: Option<bool>,
}

/// What a connector's protection recorded.
#[derive(Debug, Clone, Copy, PartialEq)]
pub struct FaultSnapshot {
    pub status_raw: u8,
    pub runtime_seconds: u32,
    pub lifetime_seconds: u32,
    pub currents_ma: [i64; 6],
}

/// One reading of a supply.
#[derive(Debug, PartialEq)]
pub struct Telemetry {
    pub device_id: String,
    pub session_id: String,
    pub sequence: u64,
    pub captured_at_ms: i64,
    pub monotonic_ms: u64,
    pub power_uw: i64,
    pub efficiency_millipercent: i64,
    pub temperature_mc: i64,
    pub rails: Vec<Rail>,
    pub connector_currents_ma: Vec<[i64; 6]>,
    pub fan: Fan,
    pub alerts_raw: Vec<u8>,
    pub alert_names: Vec<String>,
    pub safeguards: Vec<FaultSnapshot>,
    pub session_seconds: Option<u32>,
    pub lifetime_seconds: Option<u32>,
    pub input_voltage_mv: Option<i64>,
    pub group_errors: Vec<String>,
}

/// One reading of a supply, with its texts as characters and its lists as sequences.
pub struct TelemetryModel {
    pub device_id: Seq<char>,
    pub session_id: Seq<char>,
    pub sequence: u64,
    pub captured_at_ms: i64,
    pub monotonic_ms: u64,
    pub power_uw: i64,
    pub efficiency_millipercent: i64,
    pub temperature_mc: i64,
    pub rails: Seq<RailModel>,
    pub connector_currents_ma: Seq<[i64; 6]>,
    pub fan: Fan,
    pub alerts_raw: Seq<u8>,
    pub alert_names: Seq<Seq<char>>,
    pub safeguards: Seq<FaultSnapshot>,
    pub session_seconds: Option<u32>,
    pub lifetime_seconds: Option<u32>,
    pub input_voltage_mv: Option<i64>,
    pub group_errors: Seq<Seq<char>>,
}

impl View for Telemetry {
    type V = TelemetryModel;

    open spec fn view(&self) -> TelemetryModel {
        TelemetryModel {
            device_id: self.device_id@,
            session_id: self.session_id@,
            sequence: self.sequence,
            captured_at_ms: self.captured_at_ms,
            monotonic_ms: self.monotonic_ms,
            power_uw: self.power_uw,
            efficiency_millipercent: self.efficiency_millipercent,
            temperature_mc: self.temperature_mc,
            rails: self.rails.deep_view(),
            connector_currents_ma: self.connector_currents_ma@,
            fan: self.fan,
            alerts_raw: self.alerts_raw@,
            alert_names: self.alert_names.deep_view(),
            safeguards: self.safeguards@,
            session_seconds: self.session_seconds,
            lifetime_seconds: self.lifetime_seconds,
            input_voltage_mv: self.input_voltage_mv,
            group_errors: self.group_errors.deep_view(),
        }
    }
}

impl DeepView for Telemetry {
    type V = TelemetryModel;

    open spec fn deep_view(&self) -> TelemetryModel {
        self@
    }
}

/// A copy of a list of texts.
pub fn copy_texts(texts: &Vec<String>) -> (copy: Vec<String>)
    ensures
        copy.deep_view() == texts.deep_view(),
{
    let copy = texts.clone();
    assert(copy.deep_view() =~= texts.deep_view());
    copy
}

/// A copy of the connectors' currents.
fn copy_currents(currents: &Vec<[i64; 6]>) -> (copy: Vec<[i64; 6]>)
    ensures
        copy@ == currents@,
{
    let mut copy: Vec<[i64; 6]> = Vec::new();
    let mut i: usize = 0;
    while i < currents.len()
        invariant
            i <= currents@.len(),
            copy@ == currents@.take(i as int),
        decreases currents@.len() - i,
    {
        copy.push(currents[i]);
        i = i + 1;
        assert(copy@ =~= currents@.take(i as int));
    }
    assert(currents@.take(i as int) =~= currents@);
    copy
}

impl Clone for Telemetry {
    fn clone(&self) -> (copy: Self)
        ensures
            copy@ == self@,
    {
        let rails = self.rails.clone();
        assert(rails.deep_view() =~= self.rails.deep_view());
        let currents = copy_currents(&self.connector_currents_ma);
        let alerts = self.alerts_raw.clone();
        assert(alerts@ =~= self.alerts_raw@);
        let safeguards = self.safeguards.clone();
        assert(safeguards@ =~= self.safeguards@);
        Telemetry {
            device_id: self.device_id.clone(),
            session_id: self.session_id.clone(),
            sequence: self.sequence,
            captured_at_ms: self.captured_at_ms,
            monotonic_ms: self.monotonic_ms,
            power_uw: self.power_uw,
            efficiency_millipercent: self.efficiency_millipercent,
            temperature_mc: self.temperature_mc,
            rails,
            connector_currents_ma: currents,
            fan: self.fan,
            alerts_raw: alerts,
            alert_names: copy_texts(&self.alert_names),
            safeguards,
            session_seconds: self.session_seconds,
            lifetime_seconds: self.lifetime_seconds,
            input_voltage_mv: self.input_voltage_mv,
            group_errors: copy_texts(&self.group_errors),
        }
    }
}

impl TelemetryModel {
    /// The power drawn from the wall, where the efficiency is usable.
    pub open spec fn input_uw(self) -> Option<int> {
        if 0 < self.efficiency_millipercent <= 100_000 {
            Some(arith::quotient(self.power_uw * 100_000, self.efficiency_millipercent as int))
        } else {
            None
        }
    }
}

impl Telemetry {
    /// Estimates the power drawn from the wall as the output divided by the efficiency.
    pub fn estimated_input_uw(&self) -> (input: Option<i64>)
        requires
            0 < self.efficiency_millipercent <= 100_000 ==> i64::MIN <= self.power_uw * 100_000
                <= i64::MAX,
        ensures
            match input {
                Some(w) => self@.input_uw() == Some(w as int),
                None => self@.input_uw() is None,
            },
    {
        if self.efficiency_millipercent > 0 && self.efficiency_millipercent <= 100_000 {
            let scaled: i64 = self.power_uw * 100_000;
            Some(arith::divide(scaled as i128, self.efficiency_millipercent as i128) as i64)
        } else {
            None
        }
    }
}

/// A supply and what it can tell.
#[derive(Debug)]
pub struct DeviceInfo {
    pub id: String,
    pub model: String,
    pub pid: u16,
    pub serial: Option<String>,
    pub revision: Option<String>,
    pub path: String,
    pub backend: String,
    pub simulated: bool,
    pub capabilities: Vec<String>,
}

/// A supply and what it can tell, with its texts as characters.
pub struct DeviceModel {
    pub id: Seq<char>,
    pub model: Seq<char>,
    pub pid: u16,
    pub serial: Option<Seq<char>>,
    pub revision: Option<Seq<char>>,
    pub path: Seq<char>,
    pub backend: Seq<char>,
    pub simulated: bool,
    pub capabilities: Seq<Seq<char>>,
}

/// The characters of an optional text.
pub open spec fn optional_text(text: Option<String>) -> Option<Seq<char>> {
    match text {
        Some(t) => Some(t@),
        None => None,
    }
}

/// A copy of an optional text.
pub fn copy_optional_text(text: &Option<String>) -> (copy: Option<String>)
    ensures
        optional_text(copy) == optional_text(*text),
{
    match text {
        Some(t) => Some(t.clone()),
        None => None,
    }
}

impl View for DeviceInfo {
    type V = DeviceModel;

    open spec fn view(&self) -> DeviceModel {
        DeviceModel {
            id: self.id@,
            model: self.model@,
            pid: self.pid,
            serial: optional_text(self.serial),
            revision: optional_text(self.revision),
            path: self.path@,
            backend: self.backend@,
            simulated: self.simulated,
            capabilities: self.capabilities.deep_view(),
        }
    }
}

impl Clone for DeviceInfo {
    fn clone(&self) -> (copy: Self)
        ensures
            copy@ == self@,
    {
        DeviceInfo {
            id: self.id.clone(),
            model: self.model.clone(),
            pid: self.pid,
            serial: copy_optional_text(&self.serial),
            revision: copy_optional_text(&self.revision),
            path: self.path.clone(),
            backend: self.backend.clone(),
            simulated: self.simulated,
            capabilities: copy_texts(&self.capabilities),
        }
    }
}

/// The power from the wall is the output divided by the efficiency: it is the whole number of
/// microwatts of which the efficiency leaves the output, the fraction dropped. There is none where
/// the efficiency is no percentage above nothing.
pub proof fn input_is_the_output_over_the_efficiency(t: TelemetryModel)
    ensures
        t.efficiency_millipercent <= 0 || t.efficiency_millipercent > 100_000
            ==> t.input_uw() is None,
        0 < t.efficiency_millipercent <= 100_000 ==> {
            let e = t.efficiency_millipercent as int;
            &&& t.input_uw() matches Some(w)
            &&& t.power_uw >= 0 ==> w * e <= t.power_uw * 100_000 < (w + 1) * e
            &&& t.power_uw <= 0 ==> (w - 1) * e < t.power_uw * 100_000 <= w * e
        },
{
    if 0 < t.efficiency_millipercent <= 100_000 {
        arith::fractions_are_dropped(t.power_uw * 100_000, t.efficiency_millipercent as int);
    }
}

/// No supply gives more than it draws: the power from the wall is at least the output, and exactly
/// the output where nothing is lost.
pub proof fn input_is_at_least_the_output(t: TelemetryModel)
    requires
        0 < t.efficiency_millipercent <= 100_000,
        t.power_uw >= 0,
    ensures
        t.input_uw() matches Some(w) && w >= t.power_uw && (t.efficiency_millipercent == 100_000
            ==> w == t.power_uw),
{
    input_is_the_output_over_the_efficiency(t);
    let e = t.efficiency_millipercent as int;
    let p = t.power_uw as int;
    let w = t.input_uw()->0;
    assert(w >= p) by (nonlinear_arith)
        requires
            0 < e <= 100_000,
            p >= 0,
            p * 100_000 < (w + 1) * e,
    ;
    assert(e == 100_000 ==> w == p) by (nonlinear_arith)
        requires
            w * e <= p * 100_000 < (w + 1) * e,
    ;
}

/// Each product that is supported belongs to one family, and no other product does.
pub proof fn products_have_their_families(pid: u16)
    ensures
        family_of(pid) == Some(Family::Ts) <==> pid == 0x808c || pid == 0xaa6f,
        family_of(pid) == Some(Family::T) <==> pid == 0xc9eb,
        family_of(pid) == Some(Family::P) <==> pid == 0x56d4 || pid == 0xe749,
{
}

/// The model of a reading keeps every field of it, and the lists in their order.
pub proof fn readings_are_modelled_in_full(t: Telemetry)
    ensures
        t@.device_id == t.device_id@,
        t@.session_id == t.session_id@,
        t@.sequence == t.sequence,
        t@.captured_at_ms == t.captured_at_ms,
        t@.monotonic_ms == t.monotonic_ms,
        t@.power_uw == t.power_uw,
        t@.efficiency_millipercent == t.efficiency_millipercent,
        t@.temperature_mc == t.temperature_mc,
        t@.fan == t.fan,
        t@.session_seconds == t.session_seconds,
        t@.lifetime_seconds == t.lifetime_seconds,
        t@.input_voltage_mv == t.input_voltage_mv,
        t@.connector_currents_ma == t.connector_currents_ma@,
        t@.alerts_raw == t.alerts_raw@,
        t@.safeguards == t.safeguards@,
        t@.rails.len() == t.rails@.len(),
        forall|i: int|
            0 <= i < t.rails@.len() ==> {
                &&& (#[trigger] t@.rails[i]).label == t.rails@[i].label@
                &&& t@.rails[i].voltage_mv == t.rails@[i].voltage_mv
                &&& t@.rails[i].current_ma == t.rails@[i].current_ma
            },
        t@.alert_names.len() == t.alert_names@.len(),
        forall|i: int|
            0 <= i < t.alert_names@.len() ==> #[trigger] t@.alert_names[i] == t.alert_names@[i]@,
        t@.group_errors.len() == t.group_errors@.len(),
        forall|i: int|
            0 <= i < t.group_errors@.len() ==> #[trigger] t@.group_errors[i] == t.group_errors@[i]@,
{
}

/// The model of a supply keeps every field of it.
pub proof fn supplies_are_modelled_in_full(d: DeviceInfo)
    ensures
        d@.id == d.id@,
        d@.model == d.model@,
        d@.pid == d.pid,
        d.serial matches Some(words) ==> d@.serial == Some(words@),
        d.serial is None ==> d@.serial is None,
        d.revision matches Some(words) ==> d@.revision == Some(words@),
        d.revision is None ==> d@.revision is None,
        d@.path == d.path@,
        d@.backend == d.backend@,
        d@.simulated == d.simulated,
        d@.capabilities.len() == d.capabilities@.len(),
        forall|i: int|
            0 <= i < d.capabilities@.len() ==> #[trigger] d@.capabilities[i]
                == d.capabilities@[i]@,
{
}

} // verus!
