//! Conditions of a reading, and the incidents that they open and close.
use crate::measurements;
use crate::model::{Telemetry, TelemetryModel};
use crate::ordered_map::{self, Entries, OrderedMap};
use crate::protocol;
use crate::text;
use vstd::prelude::*;
use vstd::string::StringExecFns;

verus! {

/// When an uneven load becomes an incident, and when it is over.
#[derive(Debug, Clone, Copy)]
pub struct Policy {
    pub imbalance_enabled: bool,
    pub minimum_connector_ma: i64,
    pub deviation_percent: u32,
    pub clear_deviation_percent: u32,
    pub minimum_spread_ma: i64,
    pub trigger_ms: u64,
    pub recovery_ms: u64,
}

impl View for Policy {
    type V = Policy;

    open spec fn view(&self) -> Policy {
        *self
    }
}

impl Default for Policy {
    fn default() -> (p: Self)
        ensures
            p == Policy::standard(),
    {
        Policy {
            imbalance_enabled: true,
            minimum_connector_ma: 6000,
            deviation_percent: 40,
            clear_deviation_percent: 20,
            minimum_spread_ma: 500,
            trigger_ms: 3000,
            recovery_ms: 5000,
        }
    }
}

/// Why a policy was refused.
#[derive(Debug, Clone, Copy, PartialEq, Eq, Structural)]
pub enum PolicyError {
    ConnectorLoad,
    Hysteresis,
    Spread,
    Durations,
}

impl PolicyError {
    /// The words in which an error is reported.
    pub open spec fn words(self) -> Seq<char> {
        match self {
            PolicyError::ConnectorLoad => "minimum connector load must be 1000..100000 mA"@,
            PolicyError::Hysteresis => "invalid deviation hysteresis"@,
            PolicyError::Spread => "invalid spread threshold"@,
            PolicyError::Durations => "durations must be 500..60000 ms"@,
        }
    }

    /// The words in which an error is reported.
    pub fn message(&self) -> (text: &'static str)
        ensures
            text@ == self.words(),
    {
        match self {
            PolicyError::ConnectorLoad => "minimum connector load must be 1000..100000 mA",
            PolicyError::Hysteresis => "invalid deviation hysteresis",
            PolicyError::Spread => "invalid spread threshold",
            PolicyError::Durations => "durations must be 500..60000 ms",
        }
    }
}

impl Policy {
    /// The policy that applies until another one is set.
    pub open spec fn standard() -> Policy {
        Policy {
            imbalance_enabled: true,
            minimum_connector_ma: 6000,
            deviation_percent: 40,
            clear_deviation_percent: 20,
            minimum_spread_ma: 500,
            trigger_ms: 3000,
            recovery_ms: 5000,
        }
    }

    /// The first of the limits that a policy breaks.
    pub open spec fn verdict(self) -> Result<(), PolicyError> {
        if !(1000 <= self.minimum_connector_ma <= 100_000) {
            Err(PolicyError::ConnectorLoad)
        } else if !(1 <= self.deviation_percent <= 500 && self.clear_deviation_percent
            < self.deviation_percent) {
            Err(PolicyError::Hysteresis)
        } else if !(1 <= self.minimum_spread_ma <= 20_000) {
            Err(PolicyError::Spread)
        } else if !(500 <= self.trigger_ms <= 60_000 && 500 <= self.recovery_ms <= 60_000) {
            Err(PolicyError::Durations)
        } else {
            Ok(())
        }
    }

    /// Checks the limits of a policy.
    pub fn validate(&self) -> (r: Result<(), PolicyError>)
        ensures
            r == self.verdict(),
    {
        if self.minimum_connector_ma < 1000 || self.minimum_connector_ma > 100_000 {
            return Err(PolicyError::ConnectorLoad);
        }
        if self.deviation_percent < 1 || self.deviation_percent > 500
            || self.clear_deviation_percent >= self.deviation_percent {
            return Err(PolicyError::Hysteresis);
        }
        if self.minimum_spread_ma < 1 || self.minimum_spread_ma > 20_000 {
            return Err(PolicyError::Spread);
        }
        if self.trigger_ms < 500 || self.trigger_ms > 60_000 || self.recovery_ms < 500
            || self.recovery_ms > 60_000 {
            return Err(PolicyError::Durations);
        }
        Ok(())
    }
}

/// The policy that applies at first is a valid one.
pub proof fn standard_policy_is_valid()
    ensures
        Policy::standard().verdict() is Ok,
{
}

/// A condition that began, and perhaps ended.
#[derive(Debug)]
pub struct Incident {
    pub id: String,
    pub device_id: String,
    pub kind: String,
    pub source: String,
    pub severity: String,
    pub message: String,
    pub started_at_ms: i64,
    pub recovered_at_ms: Option<i64>,
    pub acknowledged_at_ms: Option<i64>,
    pub policy: Option<Policy>,
    pub trigger_sample: Telemetry,
}

/// A condition that began, and perhaps ended, with its texts as characters.
pub struct IncidentModel {
    pub id: Seq<char>,
    pub device_id: Seq<char>,
    pub kind: Seq<char>,
    pub source: Seq<char>,
    pub severity: Seq<char>,
    pub message: Seq<char>,
    pub started_at_ms: i64,
    pub recovered_at_ms: Option<i64>,
    pub acknowledged_at_ms: Option<i64>,
    pub policy: Option<Policy>,
    pub trigger_sample: TelemetryModel,
}

impl View for Incident {
    type V = IncidentModel;

    open spec fn view(&self) -> IncidentModel {
        IncidentModel {
            id: self.id@,
            device_id: self.device_id@,
            kind: self.kind@,
            source: self.source@,
            severity: self.severity@,
            message: self.message@,
            started_at_ms: self.started_at_ms,
            recovered_at_ms: self.recovered_at_ms,
            acknowledged_at_ms: self.acknowledged_at_ms,
            policy: self.policy,
            trigger_sample: self.trigger_sample@,
        }
    }
}

impl DeepView for Incident {
    type V = IncidentModel;

    open spec fn deep_view(&self) -> IncidentModel {
        self@
    }
}

impl Clone for Incident {
    fn clone(&self) -> (copy: Self)
        ensures
            copy@ == self@,
    {
        Incident {
            id: self.id.clone(),
            device_id: self.device_id.clone(),
            kind: self.kind.clone(),
            source: self.source.clone(),
            severity: self.severity.clone(),
            message: self.message.clone(),
            started_at_ms: self.started_at_ms,
            recovered_at_ms: self.recovered_at_ms,
            acknowledged_at_ms: self.acknowledged_at_ms,
            policy: self.policy,
            trigger_sample: self.trigger_sample.clone(),
        }
    }
}

/// What a reading says of one kind of incident.
#[derive(Debug)]
pub struct Condition {
    /// The condition holds.
    pub asserted: bool,
    /// The condition is over, where it does not hold.
    pub clear: bool,
    /// The device itself reports it.
    pub hardware: bool,
    pub message: String,
}

/// What a reading says of one kind of incident, with its message as characters.
pub struct ConditionModel {
    pub asserted: bool,
    pub clear: bool,
    pub hardware: bool,
    pub message: Seq<char>,
}

impl View for Condition {
    type V = ConditionModel;

    open spec fn view(&self) -> ConditionModel {
        ConditionModel {
            asserted: self.asserted,
            clear: self.clear,
            hardware: self.hardware,
            message: self.message@,
        }
    }
}

/// The kind of the incident that is open while no reading arrives.
pub open spec fn unavailable() -> Seq<char> {
    "monitoring.unavailable"@
}

/// The alarms of a reading count: all are present and their group was read.
pub open spec fn alarms_read(t: TelemetryModel) -> bool {
    t.alerts_raw.len() == protocol::ALERT_COUNT && forall|i: int|
        0 <= i < t.group_errors.len() ==> !"hardware_alerts"@.is_prefix_of(
            #[trigger] t.group_errors[i],
        )
}

/// The kind of an alarm.
pub open spec fn alarm_kind(i: int) -> Seq<char> {
    "hardware."@ + protocol::alert_name(i)
}

/// What a reading says of an alarm.
pub open spec fn alarm_condition(t: TelemetryModel, i: int) -> ConditionModel {
    ConditionModel {
        asserted: t.alerts_raw[i] != 0,
        clear: true,
        hardware: true,
        message: "PSU reports "@ + protocol::alert_name(i),
    }
}

/// The kind of a connector's protection.
pub open spec fn safeguard_kind(c: int) -> Seq<char> {
    "safeguard.connector"@ + text::decimal((c + 1) as nat)
}

/// The meaning of a protection status.
pub open spec fn status_words(status: u8) -> Seq<char> {
    if status == 0 {
        "normal"@
    } else if status == 1 {
        "overcurrent"@
    } else if status == 2 {
        "current imbalance"@
    } else if status == 3 {
        "OCP_18A status"@
    } else {
        "unknown protection status"@
    }
}

/// What a reading says of a connector's protection.
pub open spec fn safeguard_condition(t: TelemetryModel, c: int) -> ConditionModel {
    let status = t.safeguards[c].status_raw;
    ConditionModel {
        asserted: status != 0,
        clear: true,
        hardware: true,
        message: "Connector "@ + text::decimal((c + 1) as nat) + ": "@ + status_words(status)
            + " ("@ + text::decimal(status as nat) + ")"@,
    }
}

/// The kind of a connector's imbalance.
pub open spec fn imbalance_kind(c: int) -> Seq<char> {
    "software.connector"@ + text::decimal((c + 1) as nat) + ".imbalance"@
}

/// What a reading says of a connector's imbalance.
///
/// Between the two deviations the condition neither holds nor is over.
pub open spec fn imbalance_condition(t: TelemetryModel, p: Policy, c: int) -> ConditionModel {
    let currents = t.connector_currents_ma[c]@;
    let spread = measurements::spread(currents);
    let deviation = measurements::deviation(currents);
    let loaded = measurements::total(currents) >= p.minimum_connector_ma;
    ConditionModel {
        asserted: p.imbalance_enabled && loaded && spread >= p.minimum_spread_ma && deviation
            >= p.deviation_percent,
        clear: !p.imbalance_enabled || !loaded || deviation <= p.clear_deviation_percent || spread
            < p.minimum_spread_ma,
        hardware: false,
        message: "Connector "@ + text::decimal((c + 1) as nat) + " current deviation "@
            + text::decimal(deviation as nat) + "%, spread "@ + text::thousandths(spread) + " A"@,
    }
}

/// The conditions of the first `n` alarms.
pub open spec fn alarm_entries(t: TelemetryModel, n: nat) -> Entries<ConditionModel>
    decreases n,
{
    if n == 0 {
        Seq::empty()
    } else {
        ordered_map::put(
            alarm_entries(t, (n - 1) as nat),
            alarm_kind(n - 1),
            alarm_condition(t, n - 1),
        )
    }
}

/// The conditions of the alarms, where they were read, and of the first `n` protections.
pub open spec fn hardware_entries(t: TelemetryModel, n: nat) -> Entries<ConditionModel>
    decreases n,
{
    if n == 0 {
        if alarms_read(t) {
            alarm_entries(t, protocol::ALERT_COUNT as nat)
        } else {
            Seq::empty()
        }
    } else {
        ordered_map::put(
            hardware_entries(t, (n - 1) as nat),
            safeguard_kind(n - 1),
            safeguard_condition(t, n - 1),
        )
    }
}

/// The conditions that the hardware reports, and those of the first `n` connectors.
pub open spec fn condition_entries(t: TelemetryModel, p: Policy, n: nat) -> Entries<ConditionModel>
    decreases n,
{
    if n == 0 {
        hardware_entries(t, t.safeguards.len())
    } else {
        ordered_map::put(
            condition_entries(t, p, (n - 1) as nat),
            imbalance_kind(n - 1),
            imbalance_condition(t, p, n - 1),
        )
    }
}

/// All conditions of a reading, in the order of their kinds.
pub open spec fn conditions_of(t: TelemetryModel, p: Policy) -> Entries<ConditionModel> {
    condition_entries(t, p, t.connector_currents_ma.len())
}

/// The load of every connector can be measured and shown.
pub open spec fn readable(t: TelemetryModel) -> bool {
    forall|c: int|
        #![trigger t.connector_currents_ma[c]]
        0 <= c < t.connector_currents_ma.len() ==> measurements::measurable(
            t.connector_currents_ma[c]@,
        ) && measurements::spread(t.connector_currents_ma[c]@) <= text::EXACT_THOUSANDTHS
}

/// Whether the load of every connector can be measured and shown.
pub fn is_readable(t: &Telemetry) -> (r: bool)
    ensures
        r == readable(t@),
{
    let mut c: usize = 0;
    while c < t.connector_currents_ma.len()
        invariant
            c <= t.connector_currents_ma@.len(),
            forall|k: int|
                #![trigger t@.connector_currents_ma[k]]
                0 <= k < c ==> measurements::measurable(t@.connector_currents_ma[k]@)
                    && measurements::spread(t@.connector_currents_ma[k]@) <= text::EXACT_THOUSANDTHS,
        decreases t.connector_currents_ma@.len() - c,
    {
        let ghost current = t@.connector_currents_ma[c as int];
        if !measurements::is_measurable(&t.connector_currents_ma[c]) {
            return false;
        }
        let (spread, _) = measurements::imbalance(&t.connector_currents_ma[c]);
        if spread > text::EXACT_THOUSANDTHS {
            return false;
        }
        c = c + 1;
    }
    true
}

/// Whether the alarms of a reading count.
fn alarms_count(t: &Telemetry) -> (r: bool)
    ensures
        r == alarms_read(t@),
{
    if t.alerts_raw.len() != protocol::ALERT_COUNT {
        return false;
    }
    let mut i: usize = 0;
    while i < t.group_errors.len()
        invariant
            i <= t.group_errors@.len(),
            forall|j: int|
                0 <= j < i ==> !"hardware_alerts"@.is_prefix_of(#[trigger] t@.group_errors[j]),
        decreases t.group_errors@.len() - i,
    {
        if text::begins_with(t.group_errors[i].as_str(), "hardware_alerts") {
            assert("hardware_alerts"@.is_prefix_of(t@.group_errors[i as int]));
            return false;
        }
        i = i + 1;
    }
    true
}

/// The kind and message of a connector's protection.
fn safeguard(c: usize, status: u8) -> (r: (String, Condition))
    requires
        c < usize::MAX,
    ensures
        r.0@ == safeguard_kind(c as int),
        r.1@ == (ConditionModel {
            asserted: status != 0,
            clear: true,
            hardware: true,
            message: "Connector "@ + text::decimal((c + 1) as nat) + ": "@ + status_words(status)
                + " ("@ + text::decimal(status as nat) + ")"@,
        }),
{
    let mut kind = "safeguard.connector".to_owned();
    text::push_decimal(&mut kind, (c + 1) as u128);
    let words = match status {
        0 => "normal",
        1 => "overcurrent",
        2 => "current imbalance",
        3 => "OCP_18A status",
        _ => "unknown protection status",
    };
    let mut message = "Connector ".to_owned();
    text::push_decimal(&mut message, (c + 1) as u128);
    message.append(": ");
    message.append(words);
    message.append(" (");
    text::push_decimal(&mut message, status as u128);
    message.append(")");
    (kind, Condition { asserted: status != 0, clear: true, hardware: true, message })
}

/// The kind and condition of a connector's imbalance.
fn connector(t: &Telemetry, p: &Policy, c: usize) -> (r: (String, Condition))
    requires
        c < t.connector_currents_ma@.len(),
        c < usize::MAX,
        readable(t@),
    ensures
        r.0@ == imbalance_kind(c as int),
        r.1@ == imbalance_condition(t@, *p, c as int),
{
    let ghost current = t@.connector_currents_ma[c as int];
    let (spread, deviation) = measurements::imbalance(&t.connector_currents_ma[c]);
    let loaded = measurements::load(&t.connector_currents_ma[c]) >= p.minimum_connector_ma;
    let mut kind = "software.connector".to_owned();
    text::push_decimal(&mut kind, (c + 1) as u128);
    kind.append(".imbalance");
    let mut message = "Connector ".to_owned();
    text::push_decimal(&mut message, (c + 1) as u128);
    message.append(" current deviation ");
    text::push_decimal(&mut message, deviation as u128);
    message.append("%, spread ");
    text::push_thousandths(&mut message, spread);
    message.append(" A");
    (
        kind,
        Condition {
            asserted: p.imbalance_enabled && loaded && spread >= p.minimum_spread_ma && deviation
                >= p.deviation_percent,
            clear: !p.imbalance_enabled || !loaded || deviation <= p.clear_deviation_percent
                || spread < p.minimum_spread_ma,
            hardware: false,
            message,
        },
    )
}

/// All conditions of a reading, in the order of their kinds.
pub fn conditions(t: &Telemetry, p: &Policy) -> (map: OrderedMap<Condition>)
    requires
        readable(t@),
    ensures
        map.wf(),
        map@ == conditions_of(t@, *p),
{
    let mut map: OrderedMap<Condition> = OrderedMap::new();
    if alarms_count(t) {
        let mut i: usize = 0;
        while i < protocol::ALERT_COUNT
            invariant
                i <= protocol::ALERT_COUNT,
                t.alerts_raw@.len() == protocol::ALERT_COUNT,
                map.wf(),
                map@ == alarm_entries(t@, i as nat),
            decreases protocol::ALERT_COUNT - i,
        {
            let name = protocol::TS_ALERTS[i];
            map.insert(
                text::joined("hardware.", name),
                Condition {
                    asserted: t.alerts_raw[i] != 0,
                    clear: true,
                    hardware: true,
                    message: text::joined("PSU reports ", name),
                },
            );
            i = i + 1;
        }
    }
    let mut c: usize = 0;
    while c < t.safeguards.len()
        invariant
            c <= t.safeguards@.len(),
            map.wf(),
            map@ == hardware_entries(t@, c as nat),
        decreases t.safeguards@.len() - c,
    {
        let (kind, condition) = safeguard(c, t.safeguards[c].status_raw);
        map.insert(kind, condition);
        c = c + 1;
    }
    let mut k: usize = 0;
    while k < t.connector_currents_ma.len()
        invariant
            k <= t.connector_currents_ma@.len(),
            readable(t@),
            map.wf(),
            map@ == condition_entries(t@, *p, k as nat),
        decreases t.connector_currents_ma@.len() - k,
    {
        let (kind, condition) = connector(t, p, k);
        map.insert(kind, condition);
        k = k + 1;
    }
    map
}

/// The open incidents, and since when each condition has been on its way in or out.
pub struct AlertEngine {
    /// The open incidents by kind.
    pub active: OrderedMap<Incident>,
    /// Since when a condition that holds has held.
    pub pending: OrderedMap<u64>,
    /// Since when a condition that is over has been over.
    pub recovering: OrderedMap<u64>,
    /// The session and time of the last reading.
    pub last: Option<(String, u64)>,
}

/// The state of an engine.
pub struct EngineModel {
    /// The open incidents by kind.
    pub active: Entries<IncidentModel>,
    /// Since when a condition that holds has held.
    pub pending: Entries<u64>,
    /// Since when a condition that is over has been over.
    pub recovering: Entries<u64>,
    /// The session and time of the last reading.
    pub last: Option<(Seq<char>, u64)>,
}

impl View for AlertEngine {
    type V = EngineModel;

    open spec fn view(&self) -> EngineModel {
        EngineModel {
            active: self.active@,
            pending: self.pending@,
            recovering: self.recovering@,
            last: match self.last {
                Some((session, at)) => Some((session@, at)),
                None => None,
            },
        }
    }
}

impl Default for AlertEngine {
    fn default() -> (engine: Self)
        ensures
            engine.wf(),
            engine@ == EngineModel::fresh(),
    {
        AlertEngine {
            active: OrderedMap::new(),
            pending: OrderedMap::new(),
            recovering: OrderedMap::new(),
            last: None,
        }
    }
}

/// How much time lies between two readings of the clock; none where it went back.
pub open spec fn elapsed(now: u64, since: u64) -> int {
    if now > since {
        now - since
    } else {
        0
    }
}

/// The incident that a condition opens.
pub open spec fn opened(
    kind: Seq<char>,
    c: ConditionModel,
    id: Seq<char>,
    t: TelemetryModel,
    p: Policy,
) -> IncidentModel {
    IncidentModel {
        id,
        device_id: t.device_id,
        kind,
        source: if c.hardware {
            "hardware"@
        } else {
            "software"@
        },
        severity: if c.hardware {
            "critical"@
        } else {
            "warning"@
        },
        message: c.message,
        started_at_ms: t.captured_at_ms,
        recovered_at_ms: None,
        acknowledged_at_ms: None,
        policy: if c.hardware {
            None
        } else {
            Some(p)
        },
        trigger_sample: t,
    }
}

/// An incident that ended at `at`.
pub open spec fn recovered(incident: IncidentModel, at: i64) -> IncidentModel {
    IncidentModel { recovered_at_ms: Some(at), ..incident }
}

impl EngineModel {
    /// Nothing has been observed.
    pub open spec fn fresh() -> EngineModel {
        EngineModel {
            active: Seq::empty(),
            pending: Seq::empty(),
            recovering: Seq::empty(),
            last: None,
        }
    }

    /// All three tables are in order.
    pub open spec fn ordered(self) -> bool {
        &&& ordered_map::ascending(self.active)
        &&& ordered_map::ascending(self.pending)
        &&& ordered_map::ascending(self.recovering)
    }

    /// A reading does not continue the last one: another session, or too long a gap.
    pub open spec fn interrupted(self, t: TelemetryModel, max_gap_ms: u64) -> bool {
        match self.last {
            None => true,
            Some((session, at)) => session != t.session_id || elapsed(t.monotonic_ms, at)
                > max_gap_ms,
        }
    }

    /// The state in which the conditions of a reading are judged.
    ///
    /// After an interruption all timers start anew, and the reading ends the interruption.
    pub open spec fn begun(self, t: TelemetryModel, max_gap_ms: u64) -> EngineModel {
        let reset = self.interrupted(t, max_gap_ms);
        EngineModel {
            active: ordered_map::without(self.active, unavailable()),
            pending: if reset {
                Seq::empty()
            } else {
                self.pending
            },
            recovering: if reset {
                Seq::empty()
            } else {
                self.recovering
            },
            last: Some((t.session_id, t.monotonic_ms)),
        }
    }

    /// The end of an interruption, where one was open.
    pub open spec fn restored(self, t: TelemetryModel) -> Seq<IncidentModel> {
        match ordered_map::lookup(self.active, unavailable()) {
            Some(incident) => seq![recovered(incident, t.captured_at_ms)],
            None => Seq::empty(),
        }
    }

    /// Since when a condition that holds has held.
    pub open spec fn held_since(self, kind: Seq<char>, now: u64) -> u64 {
        match ordered_map::lookup(self.pending, kind) {
            Some(at) => at,
            None => now,
        }
    }

    /// Since when a condition that is over has been over.
    pub open spec fn over_since(self, kind: Seq<char>, now: u64) -> u64 {
        match ordered_map::lookup(self.recovering, kind) {
            Some(at) => at,
            None => now,
        }
    }

    /// A condition opens an incident: at once by hardware, else after it has held long enough.
    pub open spec fn opens(
        self,
        kind: Seq<char>,
        c: ConditionModel,
        t: TelemetryModel,
        p: Policy,
    ) -> bool {
        &&& c.asserted
        &&& c.hardware || elapsed(t.monotonic_ms, self.held_since(kind, t.monotonic_ms))
            >= p.trigger_ms
        &&& !ordered_map::holds(self.active, kind)
    }

    /// A condition is over for good: at once by hardware, else after long enough.
    pub open spec fn settles(
        self,
        kind: Seq<char>,
        c: ConditionModel,
        t: TelemetryModel,
        p: Policy,
    ) -> bool {
        &&& !c.asserted
        &&& c.clear
        &&& c.hardware || elapsed(t.monotonic_ms, self.over_since(kind, t.monotonic_ms))
            >= p.recovery_ms
    }

    /// The state after one condition was judged.
    pub open spec fn judged(
        self,
        kind: Seq<char>,
        c: ConditionModel,
        id: Seq<char>,
        t: TelemetryModel,
        p: Policy,
    ) -> EngineModel {
        EngineModel {
            active: if self.opens(kind, c, t, p) {
                ordered_map::put(self.active, kind, opened(kind, c, id, t, p))
            } else if self.settles(kind, c, t, p) {
                ordered_map::without(self.active, kind)
            } else {
                self.active
            },
            pending: if c.asserted {
                ordered_map::put(self.pending, kind, self.held_since(kind, t.monotonic_ms))
            } else {
                ordered_map::without(self.pending, kind)
            },
            recovering: if !c.asserted && c.clear && !self.settles(kind, c, t, p) {
                ordered_map::put(self.recovering, kind, self.over_since(kind, t.monotonic_ms))
            } else {
                ordered_map::without(self.recovering, kind)
            },
            last: self.last,
        }
    }

    /// What one condition reports: an incident that it opens, or one that it ends.
    pub open spec fn reported(
        self,
        kind: Seq<char>,
        c: ConditionModel,
        id: Seq<char>,
        t: TelemetryModel,
        p: Policy,
    ) -> Seq<IncidentModel> {
        if self.opens(kind, c, t, p) {
            seq![opened(kind, c, id, t, p)]
        } else if self.settles(kind, c, t, p) && ordered_map::holds(self.active, kind) {
            seq![recovered(ordered_map::lookup(self.active, kind)->0, t.captured_at_ms)]
        } else {
            Seq::empty()
        }
    }

    /// The state after the first `n` conditions; `ids[i]` names what the `i`-th one opens.
    pub open spec fn judged_through(
        self,
        conditions: Entries<ConditionModel>,
        ids: Seq<Seq<char>>,
        t: TelemetryModel,
        p: Policy,
        n: nat,
    ) -> EngineModel
        decreases n,
    {
        if n == 0 {
            self
        } else {
            self.judged_through(conditions, ids, t, p, (n - 1) as nat).judged(
                conditions[n - 1].0,
                conditions[n - 1].1,
                ids[n - 1],
                t,
                p,
            )
        }
    }

    /// What the first `n` conditions report, in their order.
    pub open spec fn reported_through(
        self,
        conditions: Entries<ConditionModel>,
        ids: Seq<Seq<char>>,
        t: TelemetryModel,
        p: Policy,
        n: nat,
    ) -> Seq<IncidentModel>
        decreases n,
    {
        if n == 0 {
            Seq::empty()
        } else {
            self.reported_through(conditions, ids, t, p, (n - 1) as nat) + self.judged_through(
                conditions,
                ids,
                t,
                p,
                (n - 1) as nat,
            ).reported(conditions[n - 1].0, conditions[n - 1].1, ids[n - 1], t, p)
        }
    }

    /// The state after a reading was observed.
    pub open spec fn observed(
        self,
        t: TelemetryModel,
        p: Policy,
        max_gap_ms: u64,
        ids: Seq<Seq<char>>,
    ) -> EngineModel {
        let conditions = conditions_of(t, p);
        self.begun(t, max_gap_ms).judged_through(conditions, ids, t, p, conditions.len())
    }

    /// The incidents that a reading opens and ends.
    pub open spec fn events(
        self,
        t: TelemetryModel,
        p: Policy,
        max_gap_ms: u64,
        ids: Seq<Seq<char>>,
    ) -> Seq<IncidentModel> {
        let conditions = conditions_of(t, p);
        self.restored(t) + self.begun(t, max_gap_ms).reported_through(
            conditions,
            ids,
            t,
            p,
            conditions.len(),
        )
    }
}

impl AlertEngine {
    /// All three tables are in order.
    pub open spec fn wf(&self) -> bool {
        self.active.wf() && self.pending.wf() && self.recovering.wf()
    }

    /// A well-formed engine has its tables in order.
    pub proof fn wf_is_ordered(&self)
        requires
            self.wf(),
        ensures
            self@.ordered(),
    {
        self.active.wf_ascends();
        self.pending.wf_ascends();
        self.recovering.wf_ascends();
    }

    /// Judges one condition of a reading.
    fn judge(
        &mut self,
        kind: &String,
        c: &Condition,
        id: &String,
        t: &Telemetry,
        p: &Policy,
        events: &mut Vec<Incident>,
    )
        requires
            old(self).wf(),
        ensures
            final(self).wf(),
            final(self)@ == old(self)@.judged(kind@, c@, id@, t@, *p),
            final(events).deep_view() == old(events).deep_view() + old(self)@.reported(
                kind@,
                c@,
                id@,
                t@,
                *p,
            ),
    {
        let ghost before = self@;
        let ghost reports = events.deep_view();
        proof {
            self.wf_is_ordered();
        }
        let now: u64 = t.monotonic_ms;
        if c.asserted {
            let _ = self.recovering.remove(kind.as_str());
            let since: u64 = match self.pending.get(kind.as_str()) {
                Some(at) => *at,
                None => now,
            };
            if self.pending.contains_key(kind.as_str()) {
                proof {
                    ordered_map::put_same(before.pending, kind@, since);
                }
            } else {
                self.pending.insert(kind.clone(), now);
            }
            if (c.hardware || now.saturating_sub(since) >= p.trigger_ms)
                && !self.active.contains_key(kind.as_str()) {
                let incident = Incident {
                    id: id.clone(),
                    device_id: t.device_id.clone(),
                    kind: kind.clone(),
                    source: if c.hardware { "hardware".to_owned() } else { "software".to_owned() },
                    severity: if c.hardware { "critical".to_owned() } else { "warning".to_owned() },
                    message: c.message.clone(),
                    started_at_ms: t.captured_at_ms,
                    recovered_at_ms: None,
                    acknowledged_at_ms: None,
                    policy: if c.hardware { None } else { Some(*p) },
                    trigger_sample: t.clone(),
                };
                self.active.insert(kind.clone(), incident.clone());
                events.push(incident);
                assert(events.deep_view() =~= reports + before.reported(kind@, c@, id@, t@, *p));
            } else {
                assert(events.deep_view() =~= reports + before.reported(kind@, c@, id@, t@, *p));
            }
        } else {
            let _ = self.pending.remove(kind.as_str());
            if c.clear {
                let since: u64 = match self.recovering.get(kind.as_str()) {
                    Some(at) => *at,
                    None => now,
                };
                if c.hardware || now.saturating_sub(since) >= p.recovery_ms {
                    match self.active.remove(kind.as_str()) {
                        Some(mut incident) => {
                            incident.recovered_at_ms = Some(t.captured_at_ms);
                            events.push(incident);
                        },
                        None => {},
                    }
                    let _ = self.recovering.remove(kind.as_str());
                    assert(events.deep_view() =~= reports + before.reported(
                        kind@,
                        c@,
                        id@,
                        t@,
                        *p,
                    ));
                } else {
                    if self.recovering.contains_key(kind.as_str()) {
                        proof {
                            ordered_map::put_same(before.recovering, kind@, since);
                        }
                    } else {
                        self.recovering.insert(kind.clone(), now);
                    }
                    assert(events.deep_view() =~= reports + before.reported(
                        kind@,
                        c@,
                        id@,
                        t@,
                        *p,
                    ));
                }
            } else {
                let _ = self.recovering.remove(kind.as_str());
                assert(events.deep_view() =~= reports + before.reported(kind@, c@, id@, t@, *p));
            }
        }
    }

    /// Starts a reading: resets the timers after an interruption, and ends the interruption.
    fn begin(&mut self, t: &Telemetry, max_gap_ms: u64) -> (events: Vec<Incident>)
        requires
            old(self).wf(),
        ensures
            final(self).wf(),
            final(self)@ == old(self)@.begun(t@, max_gap_ms),
            events.deep_view() == old(self)@.restored(t@),
    {
        let ghost before = self@;
        let reset = match &self.last {
            None => true,
            Some((session, at)) => *session != t.session_id || t.monotonic_ms.saturating_sub(*at)
                > max_gap_ms,
        };
        if reset {
            self.pending.clear();
            self.recovering.clear();
        }
        self.last = Some((t.session_id.clone(), t.monotonic_ms));
        let mut events: Vec<Incident> = Vec::new();
        match self.active.remove("monitoring.unavailable") {
            Some(mut incident) => {
                incident.recovered_at_ms = Some(t.captured_at_ms);
                events.push(incident);
            },
            None => {},
        }
        assert(events.deep_view() =~= before.restored(t@));
        events
    }

    /// Observes a reading whose `i`-th condition opens its incident under `ids[i]`.
    pub fn observe_with(
        &mut self,
        t: &Telemetry,
        p: &Policy,
        max_gap_ms: u64,
        ids: &Vec<String>,
    ) -> (events: Vec<Incident>)
        requires
            old(self).wf(),
            readable(t@),
            ids@.len() == conditions_of(t@, *p).len(),
        ensures
            final(self).wf(),
            final(self)@ == old(self)@.observed(t@, *p, max_gap_ms, ids.deep_view()),
            events.deep_view() == old(self)@.events(t@, *p, max_gap_ms, ids.deep_view()),
    {
        let ghost before = self@;
        let all = conditions(t, p);
        let mut events = self.begin(t, max_gap_ms);
        let ghost begun = self@;
        let mut i: usize = 0;
        assert(events.deep_view() =~= before.restored(t@) + begun.reported_through(
            all@,
            ids.deep_view(),
            t@,
            *p,
            0,
        ));
        while i < all.len()
            invariant
                i <= all@.len(),
                all.wf(),
                all@.len() == ids@.len(),
                self.wf(),
                self@ == begun.judged_through(all@, ids.deep_view(), t@, *p, i as nat),
                events.deep_view() == before.restored(t@) + begun.reported_through(
                    all@,
                    ids.deep_view(),
                    t@,
                    *p,
                    i as nat,
                ),
            decreases all@.len() - i,
        {
            let ghost reports = begun.reported_through(all@, ids.deep_view(), t@, *p, i as nat);
            let ghost now = self@;
            self.judge(all.key_at(i), all.value_at(i), &ids[i], t, p, &mut events);
            i = i + 1;
            assert(ids.deep_view()[i - 1] == ids@[i - 1]@);
            assert(events.deep_view() =~= before.restored(t@) + begun.reported_through(
                all@,
                ids.deep_view(),
                t@,
                *p,
                i as nat,
            ));
        }
        events
    }

    /// Observes a reading. What it opens gets a random identifier of its own.
    pub fn observe(&mut self, t: &Telemetry, p: &Policy, max_gap_ms: u64) -> (events: Vec<Incident>)
        requires
            old(self).wf(),
            readable(t@),
        ensures
            final(self).wf(),
            exists|ids: Seq<Seq<char>>| #[trigger]
                old(self)@.names(t@, *p, ids) && final(self)@ == old(self)@.observed(
                    t@,
                    *p,
                    max_gap_ms,
                    ids,
                ) && events.deep_view() == old(self)@.events(t@, *p, max_gap_ms, ids),
    {
        let ghost before = self@;
        let all = conditions(t, p);
        let mut ids: Vec<String> = Vec::new();
        let mut i: usize = 0;
        while i < all.len()
            invariant
                i <= all@.len(),
                all.wf(),
                self.wf(),
                self@ == before,
                ids@.len() == i,
                forall|k: int|
                    #![trigger ids@[k]]
                    0 <= k < i && all@[k].1.asserted && !ordered_map::holds(
                        before.active,
                        all@[k].0,
                    ) ==> is_random_id(ids@[k]@),
            decreases all@.len() - i,
        {
            if all.value_at(i).asserted && !self.active.contains_key(all.key_at(i).as_str()) {
                ids.push(fresh_id());
            } else {
                ids.push(String::new());
            }
            i = i + 1;
        }
        let events = self.observe_with(t, p, max_gap_ms, &ids);
        assert(before.names(t@, *p, ids.deep_view()));
        events
    }

    /// Opens the interruption under `id`, where it is not open; all timers start anew.
    pub fn monitoring_lost_with(
        &mut self,
        last: &Telemetry,
        message: &str,
        at: i64,
        id: String,
    ) -> (event: Option<Incident>)
        requires
            old(self).wf(),
        ensures
            final(self).wf(),
            final(self)@ == old(self)@.lost(last@, message@, at, id@),
            match event {
                Some(incident) => !ordered_map::holds(old(self)@.active, unavailable())
                    && incident@ == interruption(last@, message@, at, id@),
                None => ordered_map::holds(old(self)@.active, unavailable()),
            },
    {
        self.pending.clear();
        self.recovering.clear();
        if self.active.contains_key("monitoring.unavailable") {
            return None;
        }
        let incident = Incident {
            id,
            device_id: last.device_id.clone(),
            kind: "monitoring.unavailable".to_owned(),
            source: "monitor".to_owned(),
            severity: "warning".to_owned(),
            message: text::joined("Monitoring interrupted: ", message),
            started_at_ms: at,
            recovered_at_ms: None,
            acknowledged_at_ms: None,
            policy: None,
            trigger_sample: last.clone(),
        };
        self.active.insert("monitoring.unavailable".to_owned(), incident.clone());
        Some(incident)
    }

    /// Opens the interruption under a random identifier, where it is not open.
    pub fn monitoring_lost(&mut self, last: &Telemetry, message: &str, at: i64) -> (event: Option<
        Incident,
    >)
        requires
            old(self).wf(),
        ensures
            final(self).wf(),
            exists|id: Seq<char>| #[trigger]
                is_random_id(id) && final(self)@ == old(self)@.lost(last@, message@, at, id) && match event {
                    Some(incident) => !ordered_map::holds(old(self)@.active, unavailable())
                        && incident@ == interruption(last@, message@, at, id),
                    None => ordered_map::holds(old(self)@.active, unavailable()),
                },
    {
        let id = fresh_id();
        let ghost named = id@;
        let event = self.monitoring_lost_with(last, message, at, id);
        assert(is_random_id(named));
        event
    }
}

/// The incident that is open while no reading arrives.
pub open spec fn interruption(
    last: TelemetryModel,
    message: Seq<char>,
    at: i64,
    id: Seq<char>,
) -> IncidentModel {
    IncidentModel {
        id,
        device_id: last.device_id,
        kind: unavailable(),
        source: "monitor"@,
        severity: "warning"@,
        message: "Monitoring interrupted: "@ + message,
        started_at_ms: at,
        recovered_at_ms: None,
        acknowledged_at_ms: None,
        policy: None,
        trigger_sample: last,
    }
}

impl EngineModel {
    /// The state after readings stopped to arrive.
    pub open spec fn lost(
        self,
        last: TelemetryModel,
        message: Seq<char>,
        at: i64,
        id: Seq<char>,
    ) -> EngineModel {
        EngineModel {
            active: if ordered_map::holds(self.active, unavailable()) {
                self.active
            } else {
                ordered_map::put(self.active, unavailable(), interruption(last, message, at, id))
            },
            pending: Seq::empty(),
            recovering: Seq::empty(),
            last: self.last,
        }
    }

    /// There is an identifier per condition, and a random one for each that can open an incident.
    pub open spec fn names(self, t: TelemetryModel, p: Policy, ids: Seq<Seq<char>>) -> bool {
        let conditions = conditions_of(t, p);
        &&& ids.len() == conditions.len()
        &&& forall|i: int|
            #![trigger ids[i]]
            0 <= i < ids.len() && conditions[i].1.asserted && !ordered_map::holds(
                self.active,
                conditions[i].0,
            ) ==> is_random_id(ids[i])
    }
}

/// A digit of a random identifier.
pub open spec fn is_hex_digit(c: char) -> bool {
    '0' <= c <= '9' || 'a' <= c <= 'f'
}

/// The form of a random identifier: hyphenated groups of hexadecimal digits, of version four.
pub open spec fn is_random_id(id: Seq<char>) -> bool {
    &&& id.len() == 36
    &&& id[14] == '4'
    &&& forall|i: int|
        #![trigger id[i]]
        0 <= i < 36 ==> if i == 8 || i == 13 || i == 18 || i == 23 {
            id[i] == '-'
        } else {
            is_hex_digit(id[i])
        }
}

/// A new identifier from `uuid::Uuid::new_v4`, written in the hyphenated form.
///
/// Its digits are drawn at random: only its form is claimed, and that it is of version four.
#[verifier::external_body]
pub(crate) fn fresh_id() -> (id: String)
    ensures
        is_random_id(id@),
{
    uuid::Uuid::new_v4().to_string()
}

/// A new identifier, for a session as well as for an incident.
pub fn new_id() -> (id: String)
    ensures
        is_random_id(id@),
{
    fresh_id()
}

/// The conditions of a reading are in the order of their kinds, each kind once.
pub proof fn conditions_ascend(t: TelemetryModel, p: Policy)
    ensures
        ordered_map::ascending(conditions_of(t, p)),
{
    connector_entries_ascend(t, p, t.connector_currents_ma.len());
}

/// The conditions of the first alarms are in order.
proof fn alarm_entries_ascend(t: TelemetryModel, n: nat)
    ensures
        ordered_map::ascending(alarm_entries(t, n)),
    decreases n,
{
    if n > 0 {
        alarm_entries_ascend(t, (n - 1) as nat);
        ordered_map::put_is_a_map_update(
            alarm_entries(t, (n - 1) as nat),
            alarm_kind(n - 1),
            alarm_condition(t, n - 1),
        );
    }
}

/// The conditions of the alarms and the first protections are in order.
proof fn hardware_entries_ascend(t: TelemetryModel, n: nat)
    ensures
        ordered_map::ascending(hardware_entries(t, n)),
    decreases n,
{
    if n > 0 {
        hardware_entries_ascend(t, (n - 1) as nat);
        ordered_map::put_is_a_map_update(
            hardware_entries(t, (n - 1) as nat),
            safeguard_kind(n - 1),
            safeguard_condition(t, n - 1),
        );
    } else {
        alarm_entries_ascend(t, protocol::ALERT_COUNT as nat);
    }
}

/// The conditions up to some connectors are in order.
proof fn connector_entries_ascend(t: TelemetryModel, p: Policy, n: nat)
    ensures
        ordered_map::ascending(condition_entries(t, p, n)),
    decreases n,
{
    if n > 0 {
        connector_entries_ascend(t, p, (n - 1) as nat);
        ordered_map::put_is_a_map_update(
            condition_entries(t, p, (n - 1) as nat),
            imbalance_kind(n - 1),
            imbalance_condition(t, p, n - 1),
        );
    } else {
        hardware_entries_ascend(t, t.safeguards.len());
    }
}

/// No two alarms have the same kind.
proof fn alarm_kinds_differ(i: int, j: int)
    requires
        0 <= i < protocol::ALERT_COUNT,
        0 <= j < protocol::ALERT_COUNT,
        i != j,
    ensures
        alarm_kind(i) != alarm_kind(j),
{
    let head = "hardware."@.len() as int;
    assert(alarm_kind(i).skip(head) =~= protocol::alert_name(i));
    assert(alarm_kind(j).skip(head) =~= protocol::alert_name(j));
    if i < j {
        protocol::alarm_names_differ(i, j);
    } else {
        protocol::alarm_names_differ(j, i);
    }
}

/// No two connectors share the kind of their protection or of their imbalance.
proof fn connector_kinds_differ(c: int, d: int)
    requires
        0 <= c,
        0 <= d,
        c != d,
    ensures
        safeguard_kind(c) != safeguard_kind(d),
        imbalance_kind(c) != imbalance_kind(d),
{
    let one = text::decimal((c + 1) as nat);
    let other = text::decimal((d + 1) as nat);
    text::decimal_reads_back((c + 1) as nat);
    text::decimal_reads_back((d + 1) as nat);
    assert(one != other);
    let head = "safeguard.connector"@.len() as int;
    assert(safeguard_kind(c).skip(head) =~= one);
    assert(safeguard_kind(d).skip(head) =~= other);
    let head = "software.connector"@.len() as int;
    if one.len() == other.len() {
        assert(imbalance_kind(c).subrange(head, head + one.len()) =~= one);
        assert(imbalance_kind(d).subrange(head, head + one.len()) =~= other);
    } else {
        assert(imbalance_kind(c).len() != imbalance_kind(d).len());
    }
}

/// Alarms, protections and imbalances have no kind in common.
proof fn kinds_stand_apart(i: int, c: int, d: int)
    ensures
        alarm_kind(i) != safeguard_kind(c),
        alarm_kind(i) != imbalance_kind(d),
        safeguard_kind(c) != imbalance_kind(d),
{
    reveal_strlit("hardware.");
    reveal_strlit("safeguard.connector");
    reveal_strlit("software.connector");
    assert(alarm_kind(i)[0] == 'h');
    assert(safeguard_kind(c)[0] == 's' && safeguard_kind(c)[1] == 'a');
    assert(imbalance_kind(d)[0] == 's' && imbalance_kind(d)[1] == 'o');
}

/// Each of the first alarms has its condition.
proof fn alarms_are_found(t: TelemetryModel, n: nat, i: int)
    requires
        0 <= i < n <= protocol::ALERT_COUNT,
    ensures
        ordered_map::lookup(alarm_entries(t, n), alarm_kind(i)) == Some(alarm_condition(t, i)),
    decreases n,
{
    let rest = alarm_entries(t, (n - 1) as nat);
    alarm_entries_ascend(t, (n - 1) as nat);
    ordered_map::put_is_a_map_update(rest, alarm_kind(n - 1), alarm_condition(t, n - 1));
    if i < n - 1 {
        alarms_are_found(t, (n - 1) as nat, i);
        alarm_kinds_differ(i, n - 1);
    }
}

/// Each alarm that was read, and each of the first protections, has its condition.
proof fn hardware_is_found(t: TelemetryModel, n: nat, i: int)
    requires
        n <= t.safeguards.len(),
    ensures
        alarms_read(t) && 0 <= i < protocol::ALERT_COUNT ==> ordered_map::lookup(
            hardware_entries(t, n),
            alarm_kind(i),
        ) == Some(alarm_condition(t, i)),
        0 <= i < n ==> ordered_map::lookup(hardware_entries(t, n), safeguard_kind(i)) == Some(
            safeguard_condition(t, i),
        ),
    decreases n,
{
    if n == 0 {
        if alarms_read(t) && 0 <= i < protocol::ALERT_COUNT {
            alarms_are_found(t, protocol::ALERT_COUNT as nat, i);
        }
    } else {
        let rest = hardware_entries(t, (n - 1) as nat);
        hardware_is_found(t, (n - 1) as nat, i);
        hardware_entries_ascend(t, (n - 1) as nat);
        ordered_map::put_is_a_map_update(rest, safeguard_kind(n - 1), safeguard_condition(t, n - 1));
        kinds_stand_apart(i, n - 1, 0);
        if 0 <= i < n - 1 {
            connector_kinds_differ(i, n - 1);
        }
    }
}

/// Each alarm that was read, each protection, and each of the first loads has its condition.
proof fn conditions_are_found(t: TelemetryModel, p: Policy, n: nat, i: int)
    requires
        n <= t.connector_currents_ma.len(),
    ensures
        alarms_read(t) && 0 <= i < protocol::ALERT_COUNT ==> ordered_map::lookup(
            condition_entries(t, p, n),
            alarm_kind(i),
        ) == Some(alarm_condition(t, i)),
        0 <= i < t.safeguards.len() ==> ordered_map::lookup(
            condition_entries(t, p, n),
            safeguard_kind(i),
        ) == Some(safeguard_condition(t, i)),
        0 <= i < n ==> ordered_map::lookup(condition_entries(t, p, n), imbalance_kind(i)) == Some(
            imbalance_condition(t, p, i),
        ),
    decreases n,
{
    if n == 0 {
        hardware_is_found(t, t.safeguards.len(), i);
    } else {
        let rest = condition_entries(t, p, (n - 1) as nat);
        conditions_are_found(t, p, (n - 1) as nat, i);
        connector_entries_ascend(t, p, (n - 1) as nat);
        ordered_map::put_is_a_map_update(
            rest,
            imbalance_kind(n - 1),
            imbalance_condition(t, p, n - 1),
        );
        kinds_stand_apart(i, i, n - 1);
        if 0 <= i < n - 1 {
            connector_kinds_differ(i, n - 1);
        }
    }
}

/// Nothing that a reading says is lost: each alarm that was read, each protection and each load
/// has its own condition.
pub proof fn conditions_are_complete(t: TelemetryModel, p: Policy, i: int)
    ensures
        alarms_read(t) && 0 <= i < protocol::ALERT_COUNT ==> ordered_map::lookup(
            conditions_of(t, p),
            alarm_kind(i),
        ) == Some(alarm_condition(t, i)),
        0 <= i < t.safeguards.len() ==> ordered_map::lookup(conditions_of(t, p), safeguard_kind(i))
            == Some(safeguard_condition(t, i)),
        0 <= i < t.connector_currents_ma.len() ==> ordered_map::lookup(
            conditions_of(t, p),
            imbalance_kind(i),
        ) == Some(imbalance_condition(t, p, i)),
{
    conditions_are_found(t, p, t.connector_currents_ma.len(), i);
}

/// The three tables agree on `kind`.
pub open spec fn agree(a: EngineModel, b: EngineModel, kind: Seq<char>) -> bool {
    &&& ordered_map::lookup(a.active, kind) == ordered_map::lookup(b.active, kind)
    &&& ordered_map::lookup(a.pending, kind) == ordered_map::lookup(b.pending, kind)
    &&& ordered_map::lookup(a.recovering, kind) == ordered_map::lookup(b.recovering, kind)
}

/// Judging a condition keeps the tables in order and touches no other kind.
pub proof fn judging_is_local(
    e: EngineModel,
    kind: Seq<char>,
    c: ConditionModel,
    id: Seq<char>,
    t: TelemetryModel,
    p: Policy,
)
    requires
        e.ordered(),
    ensures
        e.judged(kind, c, id, t, p).ordered(),
        forall|k: Seq<char>| k != kind ==> #[trigger] agree(e.judged(kind, c, id, t, p), e, k),
{
    ordered_map::put_is_a_map_update(e.active, kind, opened(kind, c, id, t, p));
    ordered_map::without_is_a_map_removal(e.active, kind);
    ordered_map::put_is_a_map_update(e.pending, kind, e.held_since(kind, t.monotonic_ms));
    ordered_map::without_is_a_map_removal(e.pending, kind);
    ordered_map::put_is_a_map_update(e.recovering, kind, e.over_since(kind, t.monotonic_ms));
    ordered_map::without_is_a_map_removal(e.recovering, kind);
}

/// What a condition does depends on its own kind alone.
proof fn judging_depends_on_its_kind(
    a: EngineModel,
    b: EngineModel,
    kind: Seq<char>,
    c: ConditionModel,
    id: Seq<char>,
    t: TelemetryModel,
    p: Policy,
)
    requires
        a.ordered(),
        b.ordered(),
        agree(a, b, kind),
    ensures
        agree(a.judged(kind, c, id, t, p), b.judged(kind, c, id, t, p), kind),
        a.reported(kind, c, id, t, p) == b.reported(kind, c, id, t, p),
        a.opens(kind, c, t, p) == b.opens(kind, c, t, p),
        a.settles(kind, c, t, p) == b.settles(kind, c, t, p),
{
    ordered_map::put_is_a_map_update(a.active, kind, opened(kind, c, id, t, p));
    ordered_map::without_is_a_map_removal(a.active, kind);
    ordered_map::put_is_a_map_update(a.pending, kind, a.held_since(kind, t.monotonic_ms));
    ordered_map::without_is_a_map_removal(a.pending, kind);
    ordered_map::put_is_a_map_update(a.recovering, kind, a.over_since(kind, t.monotonic_ms));
    ordered_map::without_is_a_map_removal(a.recovering, kind);
    ordered_map::put_is_a_map_update(b.active, kind, opened(kind, c, id, t, p));
    ordered_map::without_is_a_map_removal(b.active, kind);
    ordered_map::put_is_a_map_update(b.pending, kind, b.held_since(kind, t.monotonic_ms));
    ordered_map::without_is_a_map_removal(b.pending, kind);
    ordered_map::put_is_a_map_update(b.recovering, kind, b.over_since(kind, t.monotonic_ms));
    ordered_map::without_is_a_map_removal(b.recovering, kind);
}

/// The first conditions touch no kind but their own.
proof fn prefix_is_local(
    e: EngineModel,
    conditions: Entries<ConditionModel>,
    ids: Seq<Seq<char>>,
    t: TelemetryModel,
    p: Policy,
    n: nat,
    kind: Seq<char>,
)
    requires
        e.ordered(),
        n <= conditions.len(),
        forall|i: int| 0 <= i < n ==> (#[trigger] conditions[i]).0 != kind,
    ensures
        e.judged_through(conditions, ids, t, p, n).ordered(),
        agree(e.judged_through(conditions, ids, t, p, n), e, kind),
    decreases n,
{
    if n > 0 {
        let m = (n - 1) as nat;
        prefix_is_local(e, conditions, ids, t, p, m, kind);
        assert(conditions[m as int].0 != kind);
        judging_is_local(
            e.judged_through(conditions, ids, t, p, m),
            conditions[m as int].0,
            conditions[m as int].1,
            ids[m as int],
            t,
            p,
        );
        assert(agree(
            e.judged_through(conditions, ids, t, p, n),
            e.judged_through(conditions, ids, t, p, m),
            kind,
        ));
    }
}

/// The tables stay in order through any number of conditions.
proof fn prefix_is_ordered(
    e: EngineModel,
    conditions: Entries<ConditionModel>,
    ids: Seq<Seq<char>>,
    t: TelemetryModel,
    p: Policy,
    n: nat,
)
    requires
        e.ordered(),
    ensures
        e.judged_through(conditions, ids, t, p, n).ordered(),
    decreases n,
{
    if n > 0 {
        let m = (n - 1) as nat;
        prefix_is_ordered(e, conditions, ids, t, p, m);
        judging_is_local(
            e.judged_through(conditions, ids, t, p, m),
            conditions[m as int].0,
            conditions[m as int].1,
            ids[m as int],
            t,
            p,
        );
    }
}

/// Starting a reading keeps the tables in order.
proof fn begun_is_ordered(e: EngineModel, t: TelemetryModel, max_gap_ms: u64)
    requires
        e.ordered(),
    ensures
        e.begun(t, max_gap_ms).ordered(),
{
    ordered_map::without_is_a_map_removal(e.active, unavailable());
}

/// The `i`-th condition finds its kind as the reading began.
proof fn condition_meets_its_start(
    e: EngineModel,
    conditions: Entries<ConditionModel>,
    ids: Seq<Seq<char>>,
    t: TelemetryModel,
    p: Policy,
    i: int,
)
    requires
        e.ordered(),
        ordered_map::ascending(conditions),
        0 <= i < conditions.len(),
    ensures
        e.judged_through(conditions, ids, t, p, i as nat).ordered(),
        agree(e.judged_through(conditions, ids, t, p, i as nat), e, conditions[i].0),
{
    assert forall|j: int| 0 <= j < i implies (#[trigger] conditions[j]).0 != conditions[i].0 by {
        text::precedes_is_asymmetric(conditions[j].0, conditions[i].0);
    }
    prefix_is_local(e, conditions, ids, t, p, i as nat, conditions[i].0);
}

/// Later conditions leave the outcome of the `i`-th as it is.
proof fn outcome_stays(
    e: EngineModel,
    conditions: Entries<ConditionModel>,
    ids: Seq<Seq<char>>,
    t: TelemetryModel,
    p: Policy,
    i: int,
    n: nat,
)
    requires
        e.ordered(),
        ordered_map::ascending(conditions),
        0 <= i < n <= conditions.len(),
    ensures
        agree(
            e.judged_through(conditions, ids, t, p, n),
            e.judged(conditions[i].0, conditions[i].1, ids[i], t, p),
            conditions[i].0,
        ),
    decreases n,
{
    let m = (n - 1) as nat;
    let kind = conditions[i].0;
    if i == m {
        condition_meets_its_start(e, conditions, ids, t, p, i);
        judging_depends_on_its_kind(
            e.judged_through(conditions, ids, t, p, m),
            e,
            kind,
            conditions[i].1,
            ids[i],
            t,
            p,
        );
    } else {
        outcome_stays(e, conditions, ids, t, p, i, m);
        prefix_is_ordered(e, conditions, ids, t, p, m);
        text::precedes_is_asymmetric(conditions[i].0, conditions[m as int].0);
        judging_is_local(
            e.judged_through(conditions, ids, t, p, m),
            conditions[m as int].0,
            conditions[m as int].1,
            ids[m as int],
            t,
            p,
        );
        assert(agree(
            e.judged_through(conditions, ids, t, p, n),
            e.judged_through(conditions, ids, t, p, m),
            kind,
        ));
    }
}

/// Each condition is judged by itself: its kind ends as if it had been the only one.
pub proof fn each_condition_stands_alone(
    e: EngineModel,
    t: TelemetryModel,
    p: Policy,
    max_gap_ms: u64,
    ids: Seq<Seq<char>>,
    i: int,
)
    requires
        e.ordered(),
        0 <= i < conditions_of(t, p).len(),
    ensures
        agree(
            e.observed(t, p, max_gap_ms, ids),
            e.begun(t, max_gap_ms).judged(
                conditions_of(t, p)[i].0,
                conditions_of(t, p)[i].1,
                ids[i],
                t,
                p,
            ),
            conditions_of(t, p)[i].0,
        ),
{
    conditions_ascend(t, p);
    begun_is_ordered(e, t, max_gap_ms);
    outcome_stays(
        e.begun(t, max_gap_ms),
        conditions_of(t, p),
        ids,
        t,
        p,
        i,
        conditions_of(t, p).len(),
    );
}

/// Observing keeps the tables in order.
pub proof fn observing_keeps_order(
    e: EngineModel,
    t: TelemetryModel,
    p: Policy,
    max_gap_ms: u64,
    ids: Seq<Seq<char>>,
)
    requires
        e.ordered(),
    ensures
        e.observed(t, p, max_gap_ms, ids).ordered(),
{
    begun_is_ordered(e, t, max_gap_ms);
    prefix_is_ordered(
        e.begun(t, max_gap_ms),
        conditions_of(t, p),
        ids,
        t,
        p,
        conditions_of(t, p).len(),
    );
}

/// A reading that says nothing of a kind neither opens nor ends an incident of it.
///
/// So a group that could not be read never clears a fault.
pub proof fn silence_changes_nothing(
    e: EngineModel,
    t: TelemetryModel,
    p: Policy,
    max_gap_ms: u64,
    ids: Seq<Seq<char>>,
    kind: Seq<char>,
)
    requires
        e.ordered(),
        kind != unavailable(),
        !ordered_map::holds(conditions_of(t, p), kind),
    ensures
        ordered_map::lookup(e.observed(t, p, max_gap_ms, ids).active, kind) == ordered_map::lookup(e.active, kind),
{
    begun_is_ordered(e, t, max_gap_ms);
    ordered_map::without_is_a_map_removal(e.active, unavailable());
    let conditions = conditions_of(t, p);
    assert forall|i: int| 0 <= i < conditions.len() implies (#[trigger] conditions[i]).0
        != kind by {
        assert(!(conditions[i].0 == kind)) by {
            if conditions[i].0 == kind {
                assert(ordered_map::holds(conditions, kind));
            }
        }
    }
    prefix_is_local(e.begun(t, max_gap_ms), conditions, ids, t, p, conditions.len(), kind);
}

/// What the hardware reports is an open incident as soon as it is observed.
pub proof fn hardware_is_immediate(
    e: EngineModel,
    t: TelemetryModel,
    p: Policy,
    max_gap_ms: u64,
    ids: Seq<Seq<char>>,
    i: int,
)
    requires
        e.ordered(),
        0 <= i < conditions_of(t, p).len(),
        conditions_of(t, p)[i].1.hardware,
        conditions_of(t, p)[i].1.asserted,
    ensures
        ordered_map::holds(e.observed(t, p, max_gap_ms, ids).active, conditions_of(t, p)[i].0),
{
    let begun = e.begun(t, max_gap_ms);
    let kind = conditions_of(t, p)[i].0;
    each_condition_stands_alone(e, t, p, max_gap_ms, ids, i);
    begun_is_ordered(e, t, max_gap_ms);
    ordered_map::put_is_a_map_update(
        begun.active,
        kind,
        opened(kind, conditions_of(t, p)[i].1, ids[i], t, p),
    );
    let end = e.observed(t, p, max_gap_ms, ids).active;
    assert(ordered_map::lookup(end, kind) is Some);
}

/// What the hardware no longer reports is closed as soon as that is observed.
pub proof fn hardware_clears_at_once(
    e: EngineModel,
    t: TelemetryModel,
    p: Policy,
    max_gap_ms: u64,
    ids: Seq<Seq<char>>,
    i: int,
)
    requires
        e.ordered(),
        0 <= i < conditions_of(t, p).len(),
        conditions_of(t, p)[i].1.hardware,
        conditions_of(t, p)[i].1.clear,
        !conditions_of(t, p)[i].1.asserted,
    ensures
        ordered_map::lookup(e.observed(t, p, max_gap_ms, ids).active, conditions_of(t, p)[i].0) is None,
{
    let begun = e.begun(t, max_gap_ms);
    each_condition_stands_alone(e, t, p, max_gap_ms, ids, i);
    begun_is_ordered(e, t, max_gap_ms);
    ordered_map::without_is_a_map_removal(begun.active, conditions_of(t, p)[i].0);
}

/// An incident of the hardware is open exactly while its condition is reported.
proof fn hardware_is_followed(
    e: EngineModel,
    t: TelemetryModel,
    p: Policy,
    max_gap_ms: u64,
    ids: Seq<Seq<char>>,
    kind: Seq<char>,
    c: ConditionModel,
)
    requires
        e.ordered(),
        ordered_map::lookup(conditions_of(t, p), kind) == Some(c),
        c.hardware,
        c.clear,
    ensures
        ordered_map::holds(e.observed(t, p, max_gap_ms, ids).active, kind) == c.asserted,
{
    conditions_ascend(t, p);
    ordered_map::present_at_rank(conditions_of(t, p), kind);
    let i = ordered_map::rank(conditions_of(t, p), kind) as int;
    if c.asserted {
        hardware_is_immediate(e, t, p, max_gap_ms, ids, i);
    } else {
        hardware_clears_at_once(e, t, p, max_gap_ms, ids, i);
    }
}

/// After a reading whose alarms were read, the incident of an alarm is open if and only if the
/// supply reports the alarm.
pub proof fn alarms_are_open_while_reported(
    e: EngineModel,
    t: TelemetryModel,
    p: Policy,
    max_gap_ms: u64,
    ids: Seq<Seq<char>>,
    i: int,
)
    requires
        e.ordered(),
        alarms_read(t),
        0 <= i < protocol::ALERT_COUNT,
    ensures
        ordered_map::holds(e.observed(t, p, max_gap_ms, ids).active, alarm_kind(i)) == (
        t.alerts_raw[i] != 0),
{
    conditions_are_complete(t, p, i);
    hardware_is_followed(e, t, p, max_gap_ms, ids, alarm_kind(i), alarm_condition(t, i));
}

/// After a reading with the protections of some connectors, the incident of a connector's
/// protection is open if and only if its status is not the normal one.
pub proof fn protections_are_open_while_reported(
    e: EngineModel,
    t: TelemetryModel,
    p: Policy,
    max_gap_ms: u64,
    ids: Seq<Seq<char>>,
    c: int,
)
    requires
        e.ordered(),
        0 <= c < t.safeguards.len(),
    ensures
        ordered_map::holds(e.observed(t, p, max_gap_ms, ids).active, safeguard_kind(c)) == (
        t.safeguards[c].status_raw != 0),
{
    conditions_are_complete(t, p, c);
    hardware_is_followed(e, t, p, max_gap_ms, ids, safeguard_kind(c), safeguard_condition(t, c));
}

/// An uneven load opens no incident before it has held for the whole trigger time.
pub proof fn software_waits(
    e: EngineModel,
    t: TelemetryModel,
    p: Policy,
    max_gap_ms: u64,
    ids: Seq<Seq<char>>,
    i: int,
)
    requires
        e.ordered(),
        0 <= i < conditions_of(t, p).len(),
        !conditions_of(t, p)[i].1.hardware,
        elapsed(
            t.monotonic_ms,
            e.begun(t, max_gap_ms).held_since(conditions_of(t, p)[i].0, t.monotonic_ms),
        ) < p.trigger_ms,
        !ordered_map::holds(e.begun(t, max_gap_ms).active, conditions_of(t, p)[i].0),
    ensures
        ordered_map::lookup(e.observed(t, p, max_gap_ms, ids).active, conditions_of(t, p)[i].0) is None,
{
    let begun = e.begun(t, max_gap_ms);
    each_condition_stands_alone(e, t, p, max_gap_ms, ids, i);
    begun_is_ordered(e, t, max_gap_ms);
    ordered_map::without_is_a_map_removal(begun.active, conditions_of(t, p)[i].0);
}

/// An uneven load that has held for the whole trigger time is an open incident.
pub proof fn held_load_is_reported(
    e: EngineModel,
    t: TelemetryModel,
    p: Policy,
    max_gap_ms: u64,
    ids: Seq<Seq<char>>,
    i: int,
)
    requires
        e.ordered(),
        0 <= i < conditions_of(t, p).len(),
        conditions_of(t, p)[i].1.asserted,
        elapsed(
            t.monotonic_ms,
            e.begun(t, max_gap_ms).held_since(conditions_of(t, p)[i].0, t.monotonic_ms),
        ) >= p.trigger_ms,
    ensures
        ordered_map::holds(e.observed(t, p, max_gap_ms, ids).active, conditions_of(t, p)[i].0),
{
    let begun = e.begun(t, max_gap_ms);
    let kind = conditions_of(t, p)[i].0;
    each_condition_stands_alone(e, t, p, max_gap_ms, ids, i);
    begun_is_ordered(e, t, max_gap_ms);
    ordered_map::put_is_a_map_update(
        begun.active,
        kind,
        opened(kind, conditions_of(t, p)[i].1, ids[i], t, p),
    );
    let end = e.observed(t, p, max_gap_ms, ids).active;
    assert(ordered_map::lookup(end, kind) is Some);
}

/// An uneven load that is over stays an open incident until it has been over for the whole
/// recovery time, and ends then.
pub proof fn recovery_waits(
    e: EngineModel,
    t: TelemetryModel,
    p: Policy,
    max_gap_ms: u64,
    ids: Seq<Seq<char>>,
    i: int,
)
    requires
        e.ordered(),
        0 <= i < conditions_of(t, p).len(),
        !conditions_of(t, p)[i].1.hardware,
        !conditions_of(t, p)[i].1.asserted,
        conditions_of(t, p)[i].1.clear,
    ensures
        ordered_map::lookup(e.observed(t, p, max_gap_ms, ids).active, conditions_of(t, p)[i].0)
            == if elapsed(
            t.monotonic_ms,
            e.begun(t, max_gap_ms).over_since(conditions_of(t, p)[i].0, t.monotonic_ms),
        ) < p.recovery_ms {
            ordered_map::lookup(e.begun(t, max_gap_ms).active, conditions_of(t, p)[i].0)
        } else {
            None
        },
{
    let begun = e.begun(t, max_gap_ms);
    each_condition_stands_alone(e, t, p, max_gap_ms, ids, i);
    begun_is_ordered(e, t, max_gap_ms);
    ordered_map::without_is_a_map_removal(begun.active, conditions_of(t, p)[i].0);
}

/// The time of a condition counts from the first of the readings in which it held, and a reading
/// in which it does not hold ends it.
pub proof fn waiting_counts_from_the_first_reading(
    e: EngineModel,
    t: TelemetryModel,
    p: Policy,
    max_gap_ms: u64,
    ids: Seq<Seq<char>>,
    i: int,
)
    requires
        e.ordered(),
        0 <= i < conditions_of(t, p).len(),
    ensures
        ordered_map::lookup(e.observed(t, p, max_gap_ms, ids).pending, conditions_of(t, p)[i].0)
            == if !conditions_of(t, p)[i].1.asserted {
            None
        } else if e.interrupted(t, max_gap_ms) || !ordered_map::holds(
            e.pending,
            conditions_of(t, p)[i].0,
        ) {
            Some(t.monotonic_ms)
        } else {
            ordered_map::lookup(e.pending, conditions_of(t, p)[i].0)
        },
{
    let begun = e.begun(t, max_gap_ms);
    let kind = conditions_of(t, p)[i].0;
    each_condition_stands_alone(e, t, p, max_gap_ms, ids, i);
    begun_is_ordered(e, t, max_gap_ms);
    ordered_map::put_is_a_map_update(begun.pending, kind, begun.held_since(kind, t.monotonic_ms));
    ordered_map::without_is_a_map_removal(begun.pending, kind);
}

/// After a gap or in another session an uneven load has to hold for its whole time again.
pub proof fn interruption_restarts_the_wait(
    e: EngineModel,
    t: TelemetryModel,
    p: Policy,
    max_gap_ms: u64,
    ids: Seq<Seq<char>>,
    i: int,
)
    requires
        e.ordered(),
        e.interrupted(t, max_gap_ms),
        p.trigger_ms > 0,
        0 <= i < conditions_of(t, p).len(),
        !conditions_of(t, p)[i].1.hardware,
        !ordered_map::holds(e.begun(t, max_gap_ms).active, conditions_of(t, p)[i].0),
    ensures
        ordered_map::lookup(e.observed(t, p, max_gap_ms, ids).active, conditions_of(t, p)[i].0) is None,
{
    assert(ordered_map::lookup(e.begun(t, max_gap_ms).pending, conditions_of(t, p)[i].0) is None);
    software_waits(e, t, p, max_gap_ms, ids, i);
}

/// An engine after the first `n` of some readings under one policy; `ids[i]` holds the names for
/// the `i`-th of them.
pub open spec fn after_readings(
    e: EngineModel,
    readings: Seq<TelemetryModel>,
    p: Policy,
    max_gap_ms: u64,
    ids: Seq<Seq<Seq<char>>>,
    n: nat,
) -> EngineModel
    decreases n,
{
    if n == 0 {
        e
    } else {
        after_readings(e, readings, p, max_gap_ms, ids, (n - 1) as nat).observed(
            readings[n - 1],
            p,
            max_gap_ms,
            ids[n - 1],
        )
    }
}

/// A reading follows the one before it: in the same session, and without a longer gap.
pub open spec fn follows(readings: Seq<TelemetryModel>, max_gap_ms: u64, i: int) -> bool {
    &&& readings[i - 1].session_id == readings[i].session_id
    &&& elapsed(readings[i].monotonic_ms, readings[i - 1].monotonic_ms) <= max_gap_ms
}

/// The load of a connector is uneven in a reading.
pub open spec fn is_uneven(readings: Seq<TelemetryModel>, p: Policy, c: int, i: int) -> bool {
    imbalance_condition(readings[i], p, c).asserted
}

/// The load of a connector was uneven in every reading from the `j`-th to the `n`-th, each of which
/// follows the one before it.
pub open spec fn uneven_throughout(
    readings: Seq<TelemetryModel>,
    p: Policy,
    max_gap_ms: u64,
    c: int,
    j: int,
    n: int,
) -> bool {
    &&& forall|i: int| j <= i <= n ==> #[trigger] is_uneven(readings, p, c, i)
    &&& forall|i: int| j < i <= n ==> #[trigger] follows(readings, max_gap_ms, i)
}

/// The first reading from which on the load of a connector was uneven up to the `n`-th.
spec fn uneven_from(
    readings: Seq<TelemetryModel>,
    p: Policy,
    max_gap_ms: u64,
    c: int,
    n: nat,
) -> nat
    decreases n,
{
    if n > 0 && follows(readings, max_gap_ms, n as int) && is_uneven(readings, p, c, n - 1) {
        uneven_from(readings, p, max_gap_ms, c, (n - 1) as nat)
    } else {
        n
    }
}

/// Readings with a connector whose clock never goes back.
pub open spec fn is_run(readings: Seq<TelemetryModel>, c: int) -> bool {
    &&& forall|i: int|
        #![trigger readings[i]]
        0 <= i < readings.len() ==> 0 <= c < readings[i].connector_currents_ma.len()
    &&& forall|i: int, j: int|
        0 <= i <= j < readings.len() ==> (#[trigger] readings[i]).monotonic_ms <= (
        #[trigger] readings[j]).monotonic_ms
}

/// The load was uneven since that first reading, and not since an earlier one.
proof fn uneven_from_is_the_first(
    readings: Seq<TelemetryModel>,
    p: Policy,
    max_gap_ms: u64,
    c: int,
    n: nat,
)
    ensures
        ({
            let start = uneven_from(readings, p, max_gap_ms, c, n);
            &&& start <= n
            &&& forall|i: int| start <= i < n ==> #[trigger] is_uneven(readings, p, c, i)
            &&& forall|i: int| start < i <= n ==> #[trigger] follows(readings, max_gap_ms, i)
            &&& start > 0 ==> !follows(readings, max_gap_ms, start as int) || !is_uneven(
                readings,
                p,
                c,
                start - 1,
            )
        }),
    decreases n,
{
    if n > 0 {
        uneven_from_is_the_first(readings, p, max_gap_ms, c, (n - 1) as nat);
    }
}

/// An observation orders the tables, makes its reading the last one, and counts the time of an
/// uneven load.
proof fn uneven_load_is_counted(
    e: EngineModel,
    t: TelemetryModel,
    p: Policy,
    max_gap_ms: u64,
    ids: Seq<Seq<char>>,
    c: int,
)
    requires
        e.ordered(),
        0 <= c < t.connector_currents_ma.len(),
    ensures
        e.observed(t, p, max_gap_ms, ids).ordered(),
        e.observed(t, p, max_gap_ms, ids).last == Some((t.session_id, t.monotonic_ms)),
        ordered_map::lookup(e.observed(t, p, max_gap_ms, ids).pending, imbalance_kind(c))
            == if imbalance_condition(t, p, c).asserted {
            Some(e.begun(t, max_gap_ms).held_since(imbalance_kind(c), t.monotonic_ms))
        } else {
            None
        },
{
    let kind = imbalance_kind(c);
    observing_keeps_order(e, t, p, max_gap_ms, ids);
    last_is_the_reading(e, t, p, max_gap_ms, ids);
    conditions_are_complete(t, p, c);
    conditions_ascend(t, p);
    ordered_map::present_at_rank(conditions_of(t, p), kind);
    let i = ordered_map::rank(conditions_of(t, p), kind) as int;
    waiting_counts_from_the_first_reading(e, t, p, max_gap_ms, ids, i);
}

/// Since when the load of a connector has been uneven is the time of that first reading.
proof fn uneven_time_is_kept(
    e: EngineModel,
    readings: Seq<TelemetryModel>,
    p: Policy,
    max_gap_ms: u64,
    ids: Seq<Seq<Seq<char>>>,
    c: int,
    n: nat,
)
    requires
        e.ordered(),
        !ordered_map::holds(e.pending, imbalance_kind(c)),
        is_run(readings, c),
        n < readings.len(),
    ensures
        after_readings(e, readings, p, max_gap_ms, ids, n).ordered(),
        after_readings(e, readings, p, max_gap_ms, ids, n).begun(
            readings[n as int],
            max_gap_ms,
        ).held_since(imbalance_kind(c), readings[n as int].monotonic_ms) == readings[uneven_from(
            readings,
            p,
            max_gap_ms,
            c,
            n,
        ) as int].monotonic_ms,
    decreases n,
{
    let kind = imbalance_kind(c);
    let before = after_readings(e, readings, p, max_gap_ms, ids, n);
    let t = readings[n as int];
    if n > 0 {
        let m = (n - 1) as nat;
        let earlier = after_readings(e, readings, p, max_gap_ms, ids, m);
        uneven_time_is_kept(e, readings, p, max_gap_ms, ids, c, m);
        uneven_load_is_counted(earlier, readings[m as int], p, max_gap_ms, ids[m as int], c);
        assert(before.interrupted(t, max_gap_ms) == !follows(readings, max_gap_ms, n as int));
    } else {
        assert(ordered_map::lookup(before.begun(t, max_gap_ms).pending, kind) is None);
    }
}

/// After an observation the last reading is the one that was observed.
proof fn last_is_the_reading(
    e: EngineModel,
    t: TelemetryModel,
    p: Policy,
    max_gap_ms: u64,
    ids: Seq<Seq<char>>,
)
    ensures
        e.observed(t, p, max_gap_ms, ids).last == Some((t.session_id, t.monotonic_ms)),
{
    last_is_kept(
        e.begun(t, max_gap_ms),
        conditions_of(t, p),
        ids,
        t,
        p,
        conditions_of(t, p).len(),
    );
}

/// Judging conditions does not change which reading was the last.
proof fn last_is_kept(
    e: EngineModel,
    conditions: Entries<ConditionModel>,
    ids: Seq<Seq<char>>,
    t: TelemetryModel,
    p: Policy,
    n: nat,
)
    ensures
        e.judged_through(conditions, ids, t, p, n).last == e.last,
    decreases n,
{
    if n > 0 {
        last_is_kept(e, conditions, ids, t, p, (n - 1) as nat);
    }
}

/// The imbalance of a connector opens an incident if and only if its load was uneven in every
/// reading back to one that is at least the trigger time older, all of one session and without a
/// longer gap between two of them.
///
/// So one even reading, a gap or another session starts the wait anew, and a connector below the
/// minimum load opens nothing.
pub proof fn imbalance_opens_after_its_time(
    e: EngineModel,
    readings: Seq<TelemetryModel>,
    p: Policy,
    max_gap_ms: u64,
    ids: Seq<Seq<Seq<char>>>,
    c: int,
    n: nat,
)
    requires
        e.ordered(),
        !ordered_map::holds(e.pending, imbalance_kind(c)),
        is_run(readings, c),
        n < readings.len(),
        !ordered_map::holds(
            after_readings(e, readings, p, max_gap_ms, ids, n).active,
            imbalance_kind(c),
        ),
    ensures
        ordered_map::holds(
            after_readings(e, readings, p, max_gap_ms, ids, (n + 1) as nat).active,
            imbalance_kind(c),
        ) <==> exists|j: int|
            0 <= j <= n && #[trigger] uneven_throughout(readings, p, max_gap_ms, c, j, n as int)
                && readings[n as int].monotonic_ms - readings[j].monotonic_ms >= p.trigger_ms,
{
    let kind = imbalance_kind(c);
    let before = after_readings(e, readings, p, max_gap_ms, ids, n);
    let after = after_readings(e, readings, p, max_gap_ms, ids, (n + 1) as nat);
    let t = readings[n as int];
    let start = uneven_from(readings, p, max_gap_ms, c, n) as int;
    let begun = before.begun(t, max_gap_ms);
    let condition = imbalance_condition(t, p, c);
    uneven_time_is_kept(e, readings, p, max_gap_ms, ids, c, n);
    uneven_from_is_the_first(readings, p, max_gap_ms, c, n);
    conditions_are_complete(t, p, c);
    conditions_ascend(t, p);
    ordered_map::present_at_rank(conditions_of(t, p), kind);
    let i = ordered_map::rank(conditions_of(t, p), kind) as int;
    begun_is_ordered(before, t, max_gap_ms);
    ordered_map::without_is_a_map_removal(before.active, unavailable());
    assert(!ordered_map::holds(begun.active, kind));
    assert(readings[start].monotonic_ms <= t.monotonic_ms);
    assert(condition.asserted == is_uneven(readings, p, c, n as int));
    let held = elapsed(t.monotonic_ms, readings[start].monotonic_ms);
    assert(held == t.monotonic_ms - readings[start].monotonic_ms);
    if condition.asserted && held >= p.trigger_ms {
        held_load_is_reported(before, t, p, max_gap_ms, ids[n as int], i);
        assert(uneven_throughout(readings, p, max_gap_ms, c, start, n as int));
    } else {
        if condition.asserted {
            software_waits(before, t, p, max_gap_ms, ids[n as int], i);
        } else {
            each_condition_stands_alone(before, t, p, max_gap_ms, ids[n as int], i);
            ordered_map::without_is_a_map_removal(begun.active, kind);
        }
        assert(!ordered_map::holds(after.active, kind));
        assert forall|j: int|
            0 <= j <= n && #[trigger] uneven_throughout(
                readings,
                p,
                max_gap_ms,
                c,
                j,
                n as int,
            ) implies readings[n as int].monotonic_ms - readings[j].monotonic_ms < p.trigger_ms by {
            assert(is_uneven(readings, p, c, n as int));
            if j < start {
                assert(is_uneven(readings, p, c, start - 1));
                assert(follows(readings, max_gap_ms, start));
            }
            assert(readings[start].monotonic_ms <= readings[j].monotonic_ms);
        }
    }
}

/// An incident that is open while its condition holds stays the same incident.
pub proof fn open_incidents_are_not_repeated(
    e: EngineModel,
    t: TelemetryModel,
    p: Policy,
    max_gap_ms: u64,
    ids: Seq<Seq<char>>,
    i: int,
)
    requires
        e.ordered(),
        0 <= i < conditions_of(t, p).len(),
        conditions_of(t, p)[i].1.asserted,
        ordered_map::holds(e.begun(t, max_gap_ms).active, conditions_of(t, p)[i].0),
    ensures
        ordered_map::lookup(e.observed(t, p, max_gap_ms, ids).active, conditions_of(t, p)[i].0) == ordered_map::lookup(
            e.begun(t, max_gap_ms).active,
            conditions_of(t, p)[i].0,
        ),
        e.begun(t, max_gap_ms).reported(
            conditions_of(t, p)[i].0,
            conditions_of(t, p)[i].1,
            ids[i],
            t,
            p,
        ).len() == 0,
{
    each_condition_stands_alone(e, t, p, max_gap_ms, ids, i);
}

/// Between the two deviations nothing opens and nothing ends.
pub proof fn hysteresis_holds_still(
    e: EngineModel,
    t: TelemetryModel,
    p: Policy,
    max_gap_ms: u64,
    ids: Seq<Seq<char>>,
    i: int,
)
    requires
        e.ordered(),
        0 <= i < conditions_of(t, p).len(),
        !conditions_of(t, p)[i].1.asserted,
        !conditions_of(t, p)[i].1.clear,
    ensures
        ordered_map::lookup(e.observed(t, p, max_gap_ms, ids).active, conditions_of(t, p)[i].0) == ordered_map::lookup(
            e.begun(t, max_gap_ms).active,
            conditions_of(t, p)[i].0,
        ),
{
    each_condition_stands_alone(e, t, p, max_gap_ms, ids, i);
}

/// A connector below the minimum load is never reported, and what it had is on its way out.
pub proof fn unloaded_connector_is_quiet(t: TelemetryModel, p: Policy, c: int)
    requires
        0 <= c < t.connector_currents_ma.len(),
        measurements::total(t.connector_currents_ma[c]@) < p.minimum_connector_ma,
    ensures
        !imbalance_condition(t, p, c).asserted,
        imbalance_condition(t, p, c).clear,
{
}

/// Each report is what its condition says on its own, in the order of the kinds.
pub proof fn reports_stand_alone(
    e: EngineModel,
    conditions: Entries<ConditionModel>,
    ids: Seq<Seq<char>>,
    t: TelemetryModel,
    p: Policy,
    n: nat,
)
    requires
        e.ordered(),
        ordered_map::ascending(conditions),
        0 < n <= conditions.len(),
    ensures
        e.reported_through(conditions, ids, t, p, n) == e.reported_through(
            conditions,
            ids,
            t,
            p,
            (n - 1) as nat,
        ) + e.reported(conditions[n - 1].0, conditions[n - 1].1, ids[n - 1], t, p),
{
    condition_meets_its_start(e, conditions, ids, t, p, n - 1);
    judging_depends_on_its_kind(
        e.judged_through(conditions, ids, t, p, (n - 1) as nat),
        e,
        conditions[n - 1].0,
        conditions[n - 1].1,
        ids[n - 1],
        t,
        p,
    );
}

/// A reading in which no condition holds reports nothing where nothing was open.
pub proof fn nothing_open_and_nothing_asserted_is_quiet(
    e: EngineModel,
    t: TelemetryModel,
    p: Policy,
    max_gap_ms: u64,
    ids: Seq<Seq<char>>,
)
    requires
        e.ordered(),
        e.active.len() == 0,
        forall|i: int|
            0 <= i < conditions_of(t, p).len() ==> !(#[trigger] conditions_of(t, p)[i]).1.asserted,
    ensures
        e.events(t, p, max_gap_ms, ids).len() == 0,
{
    conditions_ascend(t, p);
    begun_is_ordered(e, t, max_gap_ms);
    quiet_through(
        e.begun(t, max_gap_ms),
        conditions_of(t, p),
        ids,
        t,
        p,
        conditions_of(t, p).len(),
    );
}

/// The first conditions report nothing where nothing is open and none of them holds.
proof fn quiet_through(
    e: EngineModel,
    conditions: Entries<ConditionModel>,
    ids: Seq<Seq<char>>,
    t: TelemetryModel,
    p: Policy,
    n: nat,
)
    requires
        e.ordered(),
        e.active.len() == 0,
        ordered_map::ascending(conditions),
        n <= conditions.len(),
        forall|i: int| 0 <= i < conditions.len() ==> !(#[trigger] conditions[i]).1.asserted,
    ensures
        e.reported_through(conditions, ids, t, p, n).len() == 0,
    decreases n,
{
    if n > 0 {
        quiet_through(e, conditions, ids, t, p, (n - 1) as nat);
        reports_stand_alone(e, conditions, ids, t, p, n);
        assert(!conditions[n - 1].1.asserted);
    }
}

/// Every open incident stands under its own kind and has not ended.
pub open spec fn keyed_by_kind(active: Entries<IncidentModel>) -> bool {
    forall|i: int|
        #![trigger active[i]]
        0 <= i < active.len() ==> active[i].1.kind == active[i].0 && active[i].1.recovered_at_ms is None
}

/// Keeping an open incident under its kind keeps all incidents under their kinds.
proof fn put_keeps_kinds(active: Entries<IncidentModel>, incident: IncidentModel)
    requires
        keyed_by_kind(active),
        incident.recovered_at_ms is None,
        ordered_map::ascending(active),
    ensures
        keyed_by_kind(ordered_map::put(active, incident.kind, incident)),
{
    let new = ordered_map::put(active, incident.kind, incident);
    let at = ordered_map::rank(active, incident.kind) as int;
    ordered_map::put_is_a_map_update(active, incident.kind, incident);
    if ordered_map::holds(active, incident.kind) {
        ordered_map::present_at_rank(active, incident.kind);
    } else {
        ordered_map::rank_is_bounded(active, incident.kind);
    }
    assert forall|i: int|
        #![trigger new[i]]
        0 <= i < new.len() implies new[i].1.kind == new[i].0 && new[i].1.recovered_at_ms is None by {
        if !ordered_map::holds(active, incident.kind) {
            if i < at {
                assert(new[i] == active[i]);
            } else if i > at {
                assert(new[i] == active[i - 1]);
            }
        } else if i != at {
            assert(new[i] == active[i]);
        }
    }
}

/// Removing a kind keeps all incidents under their kinds.
proof fn without_keeps_kinds(active: Entries<IncidentModel>, kind: Seq<char>)
    requires
        keyed_by_kind(active),
        ordered_map::ascending(active),
    ensures
        keyed_by_kind(ordered_map::without(active, kind)),
{
    if ordered_map::holds(active, kind) {
        ordered_map::present_at_rank(active, kind);
        let new = ordered_map::without(active, kind);
        let at = ordered_map::rank(active, kind) as int;
        assert forall|i: int|
            #![trigger new[i]]
            0 <= i < new.len() implies new[i].1.kind == new[i].0
            && new[i].1.recovered_at_ms is None by {
            let a = if i < at { i } else { i + 1 };
            assert(new[i] == active[a]);
        }
    }
}

/// The open incidents stay under their kinds, and none of them has ended, through any conditions.
proof fn kinds_through(
    e: EngineModel,
    conditions: Entries<ConditionModel>,
    ids: Seq<Seq<char>>,
    t: TelemetryModel,
    p: Policy,
    n: nat,
)
    requires
        e.ordered(),
        keyed_by_kind(e.active),
    ensures
        keyed_by_kind(e.judged_through(conditions, ids, t, p, n).active),
    decreases n,
{
    if n > 0 {
        let m = (n - 1) as nat;
        kinds_through(e, conditions, ids, t, p, m);
        prefix_is_ordered(e, conditions, ids, t, p, m);
        let now = e.judged_through(conditions, ids, t, p, m);
        let kind = conditions[m as int].0;
        put_keeps_kinds(now.active, opened(kind, conditions[m as int].1, ids[m as int], t, p));
        without_keeps_kinds(now.active, kind);
    }
}

/// Every observation leaves the open incidents under their kinds, none of them ended.
pub proof fn observing_keeps_open_incidents_open(
    e: EngineModel,
    t: TelemetryModel,
    p: Policy,
    max_gap_ms: u64,
    ids: Seq<Seq<char>>,
)
    requires
        e.ordered(),
        keyed_by_kind(e.active),
    ensures
        keyed_by_kind(e.observed(t, p, max_gap_ms, ids).active),
{
    begun_is_ordered(e, t, max_gap_ms);
    without_keeps_kinds(e.active, unavailable());
    kinds_through(
        e.begun(t, max_gap_ms),
        conditions_of(t, p),
        ids,
        t,
        p,
        conditions_of(t, p).len(),
    );
}

/// The next reading ends an interruption.
pub proof fn reading_ends_an_interruption(
    e: EngineModel,
    t: TelemetryModel,
    p: Policy,
    max_gap_ms: u64,
    ids: Seq<Seq<char>>,
)
    requires
        e.ordered(),
        ordered_map::holds(e.active, unavailable()),
    ensures
        e.events(t, p, max_gap_ms, ids).len() > 0,
        e.events(t, p, max_gap_ms, ids)[0] == recovered(
            ordered_map::lookup(e.active, unavailable())->0,
            t.captured_at_ms,
        ),
{
}

/// An interruption is opened once, however often readings fail, and closes nothing.
pub proof fn interruption_is_opened_once(
    e: EngineModel,
    last: TelemetryModel,
    message: Seq<char>,
    at: i64,
    id: Seq<char>,
    kind: Seq<char>,
)
    requires
        e.ordered(),
    ensures
        e.lost(last, message, at, id).ordered(),
        ordered_map::holds(e.lost(last, message, at, id).active, unavailable()),
        kind != unavailable() ==> ordered_map::lookup(e.lost(last, message, at, id).active, kind) == ordered_map::lookup(
            e.active,
            kind,
        ),
        ordered_map::holds(e.active, unavailable()) ==> e.lost(last, message, at, id).active == e.active,
{
    ordered_map::put_is_a_map_update(e.active, unavailable(), interruption(last, message, at, id));
}

/// No condition has the kind of an interruption.
proof fn no_condition_is_an_interruption(t: TelemetryModel, p: Policy)
    ensures
        !ordered_map::holds(conditions_of(t, p), unavailable()),
{
    no_load_is_an_interruption(t, p, t.connector_currents_ma.len());
}

/// No alarm has the kind of an interruption.
proof fn no_alarm_is_an_interruption(t: TelemetryModel, n: nat)
    ensures
        !ordered_map::holds(alarm_entries(t, n), unavailable()),
    decreases n,
{
    if n > 0 {
        no_alarm_is_an_interruption(t, (n - 1) as nat);
        alarm_entries_ascend(t, (n - 1) as nat);
        ordered_map::put_is_a_map_update(
            alarm_entries(t, (n - 1) as nat),
            alarm_kind(n - 1),
            alarm_condition(t, n - 1),
        );
        reveal_strlit("hardware.");
        reveal_strlit("monitoring.unavailable");
        assert(alarm_kind(n - 1)[0] == 'h' && unavailable()[0] == 'm');
    }
}

/// No protection has the kind of an interruption.
proof fn no_protection_is_an_interruption(t: TelemetryModel, n: nat)
    ensures
        !ordered_map::holds(hardware_entries(t, n), unavailable()),
    decreases n,
{
    if n > 0 {
        no_protection_is_an_interruption(t, (n - 1) as nat);
        hardware_entries_ascend(t, (n - 1) as nat);
        ordered_map::put_is_a_map_update(
            hardware_entries(t, (n - 1) as nat),
            safeguard_kind(n - 1),
            safeguard_condition(t, n - 1),
        );
        reveal_strlit("safeguard.connector");
        reveal_strlit("monitoring.unavailable");
        assert(safeguard_kind(n - 1)[0] == 's' && unavailable()[0] == 'm');
    } else {
        no_alarm_is_an_interruption(t, protocol::ALERT_COUNT as nat);
    }
}

/// No load has the kind of an interruption.
proof fn no_load_is_an_interruption(t: TelemetryModel, p: Policy, n: nat)
    ensures
        !ordered_map::holds(condition_entries(t, p, n), unavailable()),
    decreases n,
{
    if n > 0 {
        no_load_is_an_interruption(t, p, (n - 1) as nat);
        connector_entries_ascend(t, p, (n - 1) as nat);
        ordered_map::put_is_a_map_update(
            condition_entries(t, p, (n - 1) as nat),
            imbalance_kind(n - 1),
            imbalance_condition(t, p, n - 1),
        );
        reveal_strlit("software.connector");
        reveal_strlit("monitoring.unavailable");
        assert(imbalance_kind(n - 1)[0] == 's' && unavailable()[0] == 'm');
    } else {
        no_protection_is_an_interruption(t, t.safeguards.len());
    }
}

/// Every open incident stands under its own kind.
pub open spec fn under_their_kinds(active: Entries<IncidentModel>) -> bool {
    forall|i: int| #![trigger active[i]] 0 <= i < active.len() ==> active[i].1.kind == active[i].0
}

/// What a condition reports on its own.
spec fn told_by(
    e: EngineModel,
    conditions: Entries<ConditionModel>,
    ids: Seq<Seq<char>>,
    t: TelemetryModel,
    p: Policy,
    k: int,
) -> Seq<IncidentModel> {
    e.reported(conditions[k].0, conditions[k].1, ids[k], t, p)
}

/// The incident under a kind is of that kind.
proof fn found_incident_is_of_its_kind(active: Entries<IncidentModel>, kind: Seq<char>)
    requires
        ordered_map::ascending(active),
        under_their_kinds(active),
    ensures
        ordered_map::lookup(active, kind) matches Some(incident) ==> incident.kind == kind,
{
    if ordered_map::holds(active, kind) {
        ordered_map::present_at_rank(active, kind);
    }
}

/// Every report comes from a condition, and is of its kind.
proof fn source_of(
    e: EngineModel,
    conditions: Entries<ConditionModel>,
    ids: Seq<Seq<char>>,
    t: TelemetryModel,
    p: Policy,
    n: nat,
    x: int,
) -> (k: int)
    requires
        e.ordered(),
        under_their_kinds(e.active),
        ordered_map::ascending(conditions),
        n <= conditions.len(),
        0 <= x < e.reported_through(conditions, ids, t, p, n).len(),
    ensures
        0 <= k < n,
        told_by(e, conditions, ids, t, p, k) == seq![
            e.reported_through(conditions, ids, t, p, n)[x],
        ],
        e.reported_through(conditions, ids, t, p, n)[x].kind == conditions[k].0,
    decreases n,
{
    let rest = e.reported_through(conditions, ids, t, p, (n - 1) as nat);
    let last = told_by(e, conditions, ids, t, p, n - 1);
    reports_stand_alone(e, conditions, ids, t, p, n);
    if x < rest.len() {
        source_of(e, conditions, ids, t, p, (n - 1) as nat, x)
    } else {
        found_incident_is_of_its_kind(e.active, conditions[n - 1].0);
        assert(last =~= seq![e.reported_through(conditions, ids, t, p, n)[x]]);
        n - 1
    }
}

/// Every report of a condition is among all reports.
proof fn every_report_is_told(
    e: EngineModel,
    conditions: Entries<ConditionModel>,
    ids: Seq<Seq<char>>,
    t: TelemetryModel,
    p: Policy,
    n: nat,
    k: int,
) -> (x: int)
    requires
        e.ordered(),
        ordered_map::ascending(conditions),
        0 <= k < n <= conditions.len(),
        told_by(e, conditions, ids, t, p, k).len() > 0,
    ensures
        0 <= x < e.reported_through(conditions, ids, t, p, n).len(),
        e.reported_through(conditions, ids, t, p, n)[x] == told_by(
            e,
            conditions,
            ids,
            t,
            p,
            k,
        )[0],
    decreases n,
{
    let rest = e.reported_through(conditions, ids, t, p, (n - 1) as nat);
    reports_stand_alone(e, conditions, ids, t, p, n);
    if k < n - 1 {
        every_report_is_told(e, conditions, ids, t, p, (n - 1) as nat, k)
    } else {
        rest.len() as int
    }
}

/// No kind is reported twice.
proof fn reports_differ(
    e: EngineModel,
    conditions: Entries<ConditionModel>,
    ids: Seq<Seq<char>>,
    t: TelemetryModel,
    p: Policy,
    n: nat,
    x: int,
    y: int,
)
    requires
        e.ordered(),
        under_their_kinds(e.active),
        ordered_map::ascending(conditions),
        n <= conditions.len(),
        0 <= x < y < e.reported_through(conditions, ids, t, p, n).len(),
    ensures
        e.reported_through(conditions, ids, t, p, n)[x].kind != e.reported_through(
            conditions,
            ids,
            t,
            p,
            n,
        )[y].kind,
    decreases n,
{
    let m = (n - 1) as nat;
    let rest = e.reported_through(conditions, ids, t, p, m);
    reports_stand_alone(e, conditions, ids, t, p, n);
    if y < rest.len() {
        reports_differ(e, conditions, ids, t, p, m, x, y);
    } else {
        let k = source_of(e, conditions, ids, t, p, m, x);
        found_incident_is_of_its_kind(e.active, conditions[m as int].0);
        text::precedes_is_asymmetric(conditions[k].0, conditions[m as int].0);
    }
}

/// An observation leaves no interruption open.
proof fn no_interruption_is_left(
    e: EngineModel,
    t: TelemetryModel,
    p: Policy,
    max_gap_ms: u64,
    ids: Seq<Seq<char>>,
)
    requires
        e.ordered(),
    ensures
        !ordered_map::holds(e.observed(t, p, max_gap_ms, ids).active, unavailable()),
{
    let conditions = conditions_of(t, p);
    begun_is_ordered(e, t, max_gap_ms);
    ordered_map::without_is_a_map_removal(e.active, unavailable());
    no_condition_is_an_interruption(t, p);
    assert forall|i: int| 0 <= i < conditions.len() implies (#[trigger] conditions[i]).0
        != unavailable() by {
        if conditions[i].0 == unavailable() {
            assert(ordered_map::holds(conditions, unavailable()));
        }
    }
    prefix_is_local(
        e.begun(t, max_gap_ms),
        conditions,
        ids,
        t,
        p,
        conditions.len(),
        unavailable(),
    );
    assert(ordered_map::lookup(e.observed(t, p, max_gap_ms, ids).active, unavailable()) is None);
}

/// An incident is reported for a kind: one that begins, or one that ended.
pub open spec fn tells_of(events: Seq<IncidentModel>, kind: Seq<char>, ended: bool) -> bool {
    exists|x: int|
        0 <= x < events.len() && (#[trigger] events[x]).kind == kind
            && events[x].recovered_at_ms is Some == ended
}

/// What changes with one reading is told, kind by kind.
proof fn kind_tells_what_changed(
    e: EngineModel,
    t: TelemetryModel,
    p: Policy,
    max_gap_ms: u64,
    ids: Seq<Seq<char>>,
    kind: Seq<char>,
)
    requires
        e.ordered(),
        under_their_kinds(e.active),
    ensures
        ({
            let before = ordered_map::lookup(e.active, kind);
            let after = ordered_map::lookup(e.observed(t, p, max_gap_ms, ids).active, kind);
            let events = e.events(t, p, max_gap_ms, ids);
            match (before, after) {
                (None, Some(_)) => tells_of(events, kind, false),
                (Some(_), None) => tells_of(events, kind, true),
                (Some(old), Some(new)) => old == new,
                (None, None) => true,
            }
        }),
{
    let conditions = conditions_of(t, p);
    let begun = e.begun(t, max_gap_ms);
    let events = e.events(t, p, max_gap_ms, ids);
    let first = e.restored(t);
    begun_is_ordered(e, t, max_gap_ms);
    ordered_map::without_is_a_map_removal(e.active, unavailable());
    conditions_ascend(t, p);
    found_incident_is_of_its_kind(e.active, kind);
    if kind == unavailable() {
        no_interruption_is_left(e, t, p, max_gap_ms, ids);
        if ordered_map::holds(e.active, kind) {
            assert(events[0] == first[0]);
        }
    } else if ordered_map::holds(conditions, kind) {
        ordered_map::present_at_rank(conditions, kind);
        let i = ordered_map::rank(conditions, kind) as int;
        let c = conditions[i].1;
        each_condition_stands_alone(e, t, p, max_gap_ms, ids, i);
        ordered_map::put_is_a_map_update(begun.active, kind, opened(kind, c, ids[i], t, p));
        ordered_map::without_is_a_map_removal(begun.active, kind);
        let told = told_by(begun, conditions, ids, t, p, i);
        if told.len() > 0 {
            let x = every_report_is_told(begun, conditions, ids, t, p, conditions.len(), i);
            assert(events[first.len() + x] == told[0]);
        }
    } else {
        silence_changes_nothing(e, t, p, max_gap_ms, ids, kind);
    }
}

/// What `observe` returns is what changed: no kind occurs twice; an incident without the time of
/// its end is one that is open now and was not; one that ended did so with this reading and has
/// left; and every incident that opened or left is among them. All other open incidents are as
/// they were, and no interruption stays open.
pub proof fn events_tell_what_changed(
    e: EngineModel,
    t: TelemetryModel,
    p: Policy,
    max_gap_ms: u64,
    ids: Seq<Seq<char>>,
)
    requires
        e.ordered(),
        under_their_kinds(e.active),
    ensures
        ({
            let now = e.observed(t, p, max_gap_ms, ids).active;
            let events = e.events(t, p, max_gap_ms, ids);
            &&& forall|x: int, y: int|
                0 <= x < y < events.len() ==> (#[trigger] events[x]).kind != (
                #[trigger] events[y]).kind
            &&& forall|x: int|
                #![trigger events[x]]
                0 <= x < events.len() ==> match events[x].recovered_at_ms {
                    None => !ordered_map::holds(e.active, events[x].kind) && ordered_map::lookup(
                        now,
                        events[x].kind,
                    ) == Some(events[x]),
                    Some(_) => !ordered_map::holds(now, events[x].kind) && (ordered_map::lookup(
                        e.active,
                        events[x].kind,
                    ) matches Some(old) && events[x] == recovered(old, t.captured_at_ms)),
                }
            &&& forall|kind: Seq<char>|
                #![trigger ordered_map::lookup(now, kind)]
                match (ordered_map::lookup(e.active, kind), ordered_map::lookup(now, kind)) {
                    (None, Some(_)) => tells_of(events, kind, false),
                    (Some(_), None) => tells_of(events, kind, true),
                    (Some(old), Some(new)) => old == new,
                    (None, None) => true,
                }
            &&& !ordered_map::holds(now, unavailable())
        }),
{
    let conditions = conditions_of(t, p);
    let begun = e.begun(t, max_gap_ms);
    let now = e.observed(t, p, max_gap_ms, ids).active;
    let events = e.events(t, p, max_gap_ms, ids);
    let first = e.restored(t);
    let rest = begun.reported_through(conditions, ids, t, p, conditions.len());
    begun_is_ordered(e, t, max_gap_ms);
    ordered_map::without_is_a_map_removal(e.active, unavailable());
    conditions_ascend(t, p);
    no_condition_is_an_interruption(t, p);
    no_interruption_is_left(e, t, p, max_gap_ms, ids);
    found_incident_is_of_its_kind(e.active, unavailable());
    begun_is_under_kinds(e, t, max_gap_ms);
    assert forall|x: int, y: int| 0 <= x < y < events.len() implies (#[trigger] events[x]).kind
        != (#[trigger] events[y]).kind by {
        let b = y - first.len();
        assert(events[y] == rest[b]);
        let k = source_of(begun, conditions, ids, t, p, conditions.len(), b);
        if x < first.len() {
            assert(events[x] == first[x]);
            if conditions[k].0 == unavailable() {
                assert(ordered_map::holds(conditions, unavailable()));
            }
        } else {
            assert(events[x] == rest[x - first.len()]);
            reports_differ(
                begun,
                conditions,
                ids,
                t,
                p,
                conditions.len(),
                x - first.len(),
                b,
            );
        }
    }
    assert forall|x: int| #![trigger events[x]] 0 <= x < events.len() implies match events[x].recovered_at_ms {
        None => !ordered_map::holds(e.active, events[x].kind) && ordered_map::lookup(
            now,
            events[x].kind,
        ) == Some(events[x]),
        Some(_) => !ordered_map::holds(now, events[x].kind) && (ordered_map::lookup(
            e.active,
            events[x].kind,
        ) matches Some(old) && events[x] == recovered(old, t.captured_at_ms)),
    } by {
        if x < first.len() {
            assert(events[x] == first[x]);
        } else {
            assert(events[x] == rest[x - first.len()]);
            let k = source_of(begun, conditions, ids, t, p, conditions.len(), x - first.len());
            let kind = conditions[k].0;
            let c = conditions[k].1;
            if kind == unavailable() {
                assert(ordered_map::holds(conditions, unavailable()));
            }
            let told = told_by(begun, conditions, ids, t, p, k);
            assert(told[0] == events[x]);
            each_condition_stands_alone(e, t, p, max_gap_ms, ids, k);
            ordered_map::put_is_a_map_update(begun.active, kind, opened(kind, c, ids[k], t, p));
            ordered_map::without_is_a_map_removal(begun.active, kind);
            assert(ordered_map::lookup(begun.active, kind) == ordered_map::lookup(e.active, kind));
            if begun.opens(kind, c, t, p) {
                assert(!ordered_map::holds(begun.active, kind));
            } else {
                assert(ordered_map::lookup(now, kind) is None);
            }
        }
    }
    assert forall|kind: Seq<char>|
        #![trigger ordered_map::lookup(now, kind)]
        match (ordered_map::lookup(e.active, kind), ordered_map::lookup(now, kind)) {
            (None, Some(_)) => tells_of(events, kind, false),
            (Some(_), None) => tells_of(events, kind, true),
            (Some(old), Some(new)) => old == new,
            (None, None) => true,
        } by {
        kind_tells_what_changed(e, t, p, max_gap_ms, ids, kind);
    }
}

/// As a reading begins, every open incident stands under its own kind.
proof fn begun_is_under_kinds(e: EngineModel, t: TelemetryModel, max_gap_ms: u64)
    requires
        e.ordered(),
        under_their_kinds(e.active),
    ensures
        under_their_kinds(e.begun(t, max_gap_ms).active),
{
    if ordered_map::holds(e.active, unavailable()) {
        ordered_map::present_at_rank(e.active, unavailable());
        let left = ordered_map::without(e.active, unavailable());
        let at = ordered_map::rank(e.active, unavailable()) as int;
        assert forall|i: int| #![trigger left[i]] 0 <= i < left.len() implies left[i].1.kind
            == left[i].0 by {
            let a = if i < at { i } else { i + 1 };
            assert(left[i] == e.active[a]);
        }
    }
}

/// The time between two readings of a clock is their difference, and none where the clock went back.
pub proof fn elapsed_time_is_a_difference(now: u64, since: u64)
    ensures
        now >= since ==> elapsed(now, since) == now - since,
        now <= since ==> elapsed(now, since) == 0,
{
}

/// A policy is valid if and only if it asks for a load of 1 to 100 A, for a deviation of 1 to 500 %
/// that ends below itself, for a spread of 1 mA to 20 A, and for times of half a second to a minute.
/// The first of these that does not hold is what it is refused for.
pub proof fn policies_have_limits(p: Policy)
    ensures
        ({
            let load = 1000 <= p.minimum_connector_ma <= 100_000;
            let deviation = 1 <= p.deviation_percent <= 500 && p.clear_deviation_percent
                < p.deviation_percent;
            let spread = 1 <= p.minimum_spread_ma <= 20_000;
            let times = 500 <= p.trigger_ms <= 60_000 && 500 <= p.recovery_ms <= 60_000;
            &&& p.verdict() is Ok <==> load && deviation && spread && times
            &&& p.verdict() == Err::<(), PolicyError>(PolicyError::ConnectorLoad) <==> !load
            &&& p.verdict() == Err::<(), PolicyError>(PolicyError::Hysteresis) <==> load
                && !deviation
            &&& p.verdict() == Err::<(), PolicyError>(PolicyError::Spread) <==> load && deviation
                && !spread
            &&& p.verdict() == Err::<(), PolicyError>(PolicyError::Durations) <==> load && deviation
                && spread && !times
        }),
{
}

/// At first an imbalance is an incident from 6 A on, where a conductor is 40 % off the mean and two
/// are half an ampere apart, for three seconds, until it was at most 20 % for five.
pub proof fn standard_policy_has_its_limits()
    ensures
        Policy::standard().imbalance_enabled,
        Policy::standard().minimum_connector_ma == 6000,
        Policy::standard().deviation_percent == 40,
        Policy::standard().clear_deviation_percent == 20,
        Policy::standard().minimum_spread_ma == 500,
        Policy::standard().trigger_ms == 3000,
        Policy::standard().recovery_ms == 5000,
{
}

/// The load of a connector is uneven if and only if it is looked at, it is at least the least load, two
/// conductors differ by at least the least spread, and one is off the mean by at least the deviation,
/// above it or below it. It is over where it is not looked at, the load is less, no two conductors
/// differ that much, or none is off the mean by a whole percent more than the lower deviation.
pub proof fn uneven_loads_are_told_by_arithmetic(t: TelemetryModel, p: Policy, c: int)
    requires
        0 <= c < t.connector_currents_ma.len(),
        p.minimum_connector_ma > 0,
        p.minimum_spread_ma > 0,
        ({
            let a = t.connector_currents_ma[c]@;
            let load = a[0] + a[1] + a[2] + a[3] + a[4] + a[5];
            load > 0 ==> forall|i: int|
                0 <= i < 6 ==> {
                    &&& 100 * (6 * (#[trigger] a[i]) - load) < 0x1_0000_0000 * load
                    &&& 100 * (load - 6 * a[i]) < 0x1_0000_0000 * load
                }
        }),
    ensures
        ({
            let a = t.connector_currents_ma[c]@;
            let load = a[0] + a[1] + a[2] + a[3] + a[4] + a[5];
            let condition = imbalance_condition(t, p, c);
            let spread = exists|i: int, j: int|
                0 <= i < 6 && 0 <= j < 6 && (#[trigger] a[i]) - (#[trigger] a[j])
                    >= p.minimum_spread_ma;
            let off = exists|i: int|
                0 <= i < 6 && (100 * (6 * (#[trigger] a[i]) - load) >= p.deviation_percent * load
                    || 100 * (load - 6 * a[i]) >= p.deviation_percent * load);
            let still_off = exists|i: int|
                0 <= i < 6 && (100 * (6 * (#[trigger] a[i]) - load) >= (p.clear_deviation_percent
                    + 1) * load || 100 * (load - 6 * a[i]) >= (p.clear_deviation_percent + 1)
                    * load);
            &&& condition.asserted <==> p.imbalance_enabled && load >= p.minimum_connector_ma
                && spread && off
            &&& condition.clear <==> !p.imbalance_enabled || load < p.minimum_connector_ma
                || !spread || !still_off
            &&& !condition.hardware
        }),
{
    let a = t.connector_currents_ma[c]@;
    let load = a[0] + a[1] + a[2] + a[3] + a[4] + a[5];
    measurements::spread_is_the_greatest_difference(a);
    if load > 0 {
        measurements::deviation_reaches_a_limit(a, p.deviation_percent as int);
        measurements::deviation_reaches_a_limit(a, p.clear_deviation_percent + 1);
        let most = measurements::spread(a);
        if most >= p.minimum_spread_ma {
            let (i, j) = choose|i: int, j: int|
                0 <= i < 6 && 0 <= j < 6 && (#[trigger] a[i]) - (#[trigger] a[j]) == most;
            assert(a[i] - a[j] >= p.minimum_spread_ma);
        }
    }
}

/// No condition of the protections and loads has the kind of an alarm.
proof fn alarms_have_kinds_of_their_own(t: TelemetryModel, p: Policy, n: nat, i: int)
    requires
        !alarms_read(t),
    ensures
        !ordered_map::holds(hardware_entries(t, n), alarm_kind(i)),
    decreases n,
{
    if n > 0 {
        alarms_have_kinds_of_their_own(t, p, (n - 1) as nat, i);
        hardware_entries_ascend(t, (n - 1) as nat);
        ordered_map::put_is_a_map_update(
            hardware_entries(t, (n - 1) as nat),
            safeguard_kind(n - 1),
            safeguard_condition(t, n - 1),
        );
        kinds_stand_apart(i, n - 1, 0);
    }
}

/// Where the alarms were not read, no condition has the kind of an alarm.
proof fn unread_alarms_have_no_condition(t: TelemetryModel, p: Policy, n: nat, i: int)
    requires
        !alarms_read(t),
    ensures
        !ordered_map::holds(condition_entries(t, p, n), alarm_kind(i)),
    decreases n,
{
    if n > 0 {
        unread_alarms_have_no_condition(t, p, (n - 1) as nat, i);
        connector_entries_ascend(t, p, (n - 1) as nat);
        ordered_map::put_is_a_map_update(
            condition_entries(t, p, (n - 1) as nat),
            imbalance_kind(n - 1),
            imbalance_condition(t, p, n - 1),
        );
        kinds_stand_apart(i, 0, n - 1);
    } else {
        alarms_have_kinds_of_their_own(t, p, t.safeguards.len(), i);
    }
}

/// No alarm has the kind of a protection.
proof fn protections_have_kinds_of_their_own(t: TelemetryModel, n: nat, c: int)
    ensures
        !ordered_map::holds(alarm_entries(t, n), safeguard_kind(c)),
    decreases n,
{
    if n > 0 {
        protections_have_kinds_of_their_own(t, (n - 1) as nat, c);
        alarm_entries_ascend(t, (n - 1) as nat);
        ordered_map::put_is_a_map_update(
            alarm_entries(t, (n - 1) as nat),
            alarm_kind(n - 1),
            alarm_condition(t, n - 1),
        );
        kinds_stand_apart(n - 1, c, 0);
    }
}

/// The protections of other connectors have no condition of this one.
proof fn unread_protections_are_no_hardware(t: TelemetryModel, n: nat, c: int)
    requires
        n <= c,
    ensures
        !ordered_map::holds(hardware_entries(t, n), safeguard_kind(c)),
    decreases n,
{
    if n > 0 {
        unread_protections_are_no_hardware(t, (n - 1) as nat, c);
        hardware_entries_ascend(t, (n - 1) as nat);
        ordered_map::put_is_a_map_update(
            hardware_entries(t, (n - 1) as nat),
            safeguard_kind(n - 1),
            safeguard_condition(t, n - 1),
        );
        connector_kinds_differ(n - 1, c);
    } else {
        protections_have_kinds_of_their_own(t, protocol::ALERT_COUNT as nat, c);
    }
}

/// Where the protection of a connector was not read, no condition has its kind.
proof fn unread_protections_have_no_condition(t: TelemetryModel, p: Policy, n: nat, c: int)
    requires
        t.safeguards.len() <= c,
    ensures
        !ordered_map::holds(condition_entries(t, p, n), safeguard_kind(c)),
    decreases n,
{
    if n > 0 {
        unread_protections_have_no_condition(t, p, (n - 1) as nat, c);
        connector_entries_ascend(t, p, (n - 1) as nat);
        ordered_map::put_is_a_map_update(
            condition_entries(t, p, (n - 1) as nat),
            imbalance_kind(n - 1),
            imbalance_condition(t, p, n - 1),
        );
        kinds_stand_apart(0, c, n - 1);
    } else {
        unread_protections_are_no_hardware(t, t.safeguards.len(), c);
    }
}

/// An alarm follows its byte. Where all eighteen were read, its incident is open after the reading if
/// and only if the byte is set; where they were not, or their group failed, nothing changes for it.
pub proof fn alarms_follow_their_bytes(
    e: EngineModel,
    t: TelemetryModel,
    p: Policy,
    max_gap_ms: u64,
    ids: Seq<Seq<char>>,
    i: int,
)
    requires
        e.ordered(),
        0 <= i < 18,
    ensures
        ({
            let kind = "hardware."@ + protocol::alert_name(i);
            let now = e.observed(t, p, max_gap_ms, ids).active;
            let read = t.alerts_raw.len() == 18 && forall|k: int|
                0 <= k < t.group_errors.len() ==> !"hardware_alerts"@.is_prefix_of(
                    #[trigger] t.group_errors[k],
                );
            if read {
                ordered_map::holds(now, kind) <==> t.alerts_raw[i] != 0
            } else {
                ordered_map::lookup(now, kind) == ordered_map::lookup(e.active, kind)
            }
        }),
{
    if alarms_read(t) {
        alarms_are_open_while_reported(e, t, p, max_gap_ms, ids, i);
    } else {
        unread_alarms_have_no_condition(t, p, t.connector_currents_ma.len(), i);
        reveal_strlit("hardware.");
        reveal_strlit("monitoring.unavailable");
        assert(alarm_kind(i)[0] == 'h' && unavailable()[0] == 'm');
        silence_changes_nothing(e, t, p, max_gap_ms, ids, alarm_kind(i));
    }
}

/// A connector's protection follows its status. Where it was read, its incident is open after the
/// reading if and only if the status is not zero; where it was not, nothing changes for it.
pub proof fn protections_follow_their_status(
    e: EngineModel,
    t: TelemetryModel,
    p: Policy,
    max_gap_ms: u64,
    ids: Seq<Seq<char>>,
    c: int,
)
    requires
        e.ordered(),
        0 <= c,
    ensures
        ({
            let kind = "safeguard.connector"@ + text::decimal((c + 1) as nat);
            let now = e.observed(t, p, max_gap_ms, ids).active;
            if c < t.safeguards.len() {
                ordered_map::holds(now, kind) <==> t.safeguards[c].status_raw != 0
            } else {
                ordered_map::lookup(now, kind) == ordered_map::lookup(e.active, kind)
            }
        }),
{
    if c < t.safeguards.len() {
        protections_are_open_while_reported(e, t, p, max_gap_ms, ids, c);
    } else {
        unread_protections_have_no_condition(t, p, t.connector_currents_ma.len(), c);
        reveal_strlit("safeguard.connector");
        reveal_strlit("monitoring.unavailable");
        assert(safeguard_kind(c)[0] == 's' && unavailable()[0] == 'm');
        silence_changes_nothing(e, t, p, max_gap_ms, ids, safeguard_kind(c));
    }
}

/// What a condition opens is found under its kind.
proof fn opened_incident_is_found(
    e: EngineModel,
    t: TelemetryModel,
    p: Policy,
    max_gap_ms: u64,
    ids: Seq<Seq<char>>,
    kind: Seq<char>,
    c: ConditionModel,
) -> (i: int)
    requires
        e.ordered(),
        kind != unavailable(),
        ordered_map::lookup(conditions_of(t, p), kind) == Some(c),
        !ordered_map::holds(e.active, kind),
        ordered_map::holds(e.observed(t, p, max_gap_ms, ids).active, kind),
    ensures
        ordered_map::lookup(e.observed(t, p, max_gap_ms, ids).active, kind) == Some(
            opened(kind, c, ids[i], t, p),
        ),
{
    conditions_ascend(t, p);
    ordered_map::present_at_rank(conditions_of(t, p), kind);
    let i = ordered_map::rank(conditions_of(t, p), kind) as int;
    let begun = e.begun(t, max_gap_ms);
    each_condition_stands_alone(e, t, p, max_gap_ms, ids, i);
    begun_is_ordered(e, t, max_gap_ms);
    ordered_map::without_is_a_map_removal(e.active, unavailable());
    ordered_map::put_is_a_map_update(begun.active, kind, opened(kind, c, ids[i], t, p));
    ordered_map::without_is_a_map_removal(begun.active, kind);
    let now = e.observed(t, p, max_gap_ms, ids).active;
    assert(ordered_map::lookup(now, kind) is Some);
    i
}

/// What an alarm opens is a critical incident of the hardware: it begins with the reading, names the
/// alarm, and keeps the reading.
pub proof fn alarms_open_critical_incidents(
    e: EngineModel,
    t: TelemetryModel,
    p: Policy,
    max_gap_ms: u64,
    ids: Seq<Seq<char>>,
    i: int,
)
    requires
        e.ordered(),
        0 <= i < 18,
        !ordered_map::holds(e.active, "hardware."@ + protocol::alert_name(i)),
        ordered_map::holds(
            e.observed(t, p, max_gap_ms, ids).active,
            "hardware."@ + protocol::alert_name(i),
        ),
    ensures
        ({
            let kind = "hardware."@ + protocol::alert_name(i);
            &&& ordered_map::lookup(e.observed(t, p, max_gap_ms, ids).active, kind) matches Some(
                incident,
            )
            &&& incident == (IncidentModel {
                id: incident.id,
                device_id: t.device_id,
                kind,
                source: "hardware"@,
                severity: "critical"@,
                message: "PSU reports "@ + protocol::alert_name(i),
                started_at_ms: t.captured_at_ms,
                recovered_at_ms: None,
                acknowledged_at_ms: None,
                policy: None,
                trigger_sample: t,
            })
        }),
{
    let kind = alarm_kind(i);
    reveal_strlit("hardware.");
    reveal_strlit("monitoring.unavailable");
    assert(kind[0] == 'h' && unavailable()[0] == 'm');
    if alarms_read(t) {
        conditions_are_complete(t, p, i);
        let at = opened_incident_is_found(
            e,
            t,
            p,
            max_gap_ms,
            ids,
            kind,
            alarm_condition(t, i),
        );
    } else {
        unread_alarms_have_no_condition(t, p, t.connector_currents_ma.len(), i);
        silence_changes_nothing(e, t, p, max_gap_ms, ids, kind);
    }
}

/// What a connector's protection opens is a critical incident of the hardware: it names the connector,
/// counted from one, what its status means, and the status.
pub proof fn protections_open_critical_incidents(
    e: EngineModel,
    t: TelemetryModel,
    p: Policy,
    max_gap_ms: u64,
    ids: Seq<Seq<char>>,
    c: int,
)
    requires
        e.ordered(),
        0 <= c < t.safeguards.len(),
        !ordered_map::holds(
            e.active,
            "safeguard.connector"@ + text::decimal((c + 1) as nat),
        ),
        t.safeguards[c].status_raw != 0,
    ensures
        ({
            let kind = "safeguard.connector"@ + text::decimal((c + 1) as nat);
            let status = t.safeguards[c].status_raw;
            let meaning = if status == 1 {
                "overcurrent"@
            } else if status == 2 {
                "current imbalance"@
            } else if status == 3 {
                "OCP_18A status"@
            } else {
                "unknown protection status"@
            };
            &&& ordered_map::lookup(e.observed(t, p, max_gap_ms, ids).active, kind) matches Some(
                incident,
            )
            &&& incident == (IncidentModel {
                id: incident.id,
                device_id: t.device_id,
                kind,
                source: "hardware"@,
                severity: "critical"@,
                message: "Connector "@ + text::decimal((c + 1) as nat) + ": "@ + meaning + " ("@
                    + text::decimal(status as nat) + ")"@,
                started_at_ms: t.captured_at_ms,
                recovered_at_ms: None,
                acknowledged_at_ms: None,
                policy: None,
                trigger_sample: t,
            })
        }),
{
    let kind = safeguard_kind(c);
    reveal_strlit("safeguard.connector");
    reveal_strlit("monitoring.unavailable");
    assert(kind[0] == 's' && unavailable()[0] == 'm');
    conditions_are_complete(t, p, c);
    protections_follow_their_status(e, t, p, max_gap_ms, ids, c);
    let at = opened_incident_is_found(
        e,
        t,
        p,
        max_gap_ms,
        ids,
        kind,
        safeguard_condition(t, c),
    );
}

/// What an uneven load opens is a warning of the software: it names the connector, counted from one,
/// with its deviation and spread, and keeps the policy by which it was judged.
pub proof fn uneven_loads_open_warnings(
    e: EngineModel,
    t: TelemetryModel,
    p: Policy,
    max_gap_ms: u64,
    ids: Seq<Seq<char>>,
    c: int,
)
    requires
        e.ordered(),
        0 <= c < t.connector_currents_ma.len(),
        !ordered_map::holds(
            e.active,
            "software.connector"@ + text::decimal((c + 1) as nat) + ".imbalance"@,
        ),
        ordered_map::holds(
            e.observed(t, p, max_gap_ms, ids).active,
            "software.connector"@ + text::decimal((c + 1) as nat) + ".imbalance"@,
        ),
    ensures
        ({
            let kind = "software.connector"@ + text::decimal((c + 1) as nat) + ".imbalance"@;
            let currents = t.connector_currents_ma[c]@;
            &&& ordered_map::lookup(e.observed(t, p, max_gap_ms, ids).active, kind) matches Some(
                incident,
            )
            &&& incident == (IncidentModel {
                id: incident.id,
                device_id: t.device_id,
                kind,
                source: "software"@,
                severity: "warning"@,
                message: "Connector "@ + text::decimal((c + 1) as nat) + " current deviation "@
                    + text::decimal(measurements::deviation(currents) as nat) + "%, spread "@
                    + text::thousandths(measurements::spread(currents)) + " A"@,
                started_at_ms: t.captured_at_ms,
                recovered_at_ms: None,
                acknowledged_at_ms: None,
                policy: Some(p),
                trigger_sample: t,
            })
        }),
{
    let kind = imbalance_kind(c);
    reveal_strlit("software.connector");
    reveal_strlit("monitoring.unavailable");
    assert(kind[0] == 's' && unavailable()[0] == 'm');
    conditions_are_complete(t, p, c);
    let at = opened_incident_is_found(
        e,
        t,
        p,
        max_gap_ms,
        ids,
        kind,
        imbalance_condition(t, p, c),
    );
}

/// An incident that ends keeps all that it was, and ends with the reading; one that begins has not
/// ended and is not acknowledged.
pub proof fn incidents_end_with_the_reading(
    e: EngineModel,
    t: TelemetryModel,
    p: Policy,
    max_gap_ms: u64,
    ids: Seq<Seq<char>>,
    x: int,
)
    requires
        e.ordered(),
        under_their_kinds(e.active),
        0 <= x < e.events(t, p, max_gap_ms, ids).len(),
    ensures
        ({
            let event = e.events(t, p, max_gap_ms, ids)[x];
            match event.recovered_at_ms {
                Some(at) => at == t.captured_at_ms && (ordered_map::lookup(
                    e.active,
                    event.kind,
                ) matches Some(old) && event == (IncidentModel {
                    recovered_at_ms: Some(t.captured_at_ms),
                    ..old
                })),
                None => event.started_at_ms == t.captured_at_ms && event.device_id == t.device_id
                    && event.acknowledged_at_ms is None && event.trigger_sample == t,
            }
        }),
{
    events_tell_what_changed(e, t, p, max_gap_ms, ids);
    let events = e.events(t, p, max_gap_ms, ids);
    let conditions = conditions_of(t, p);
    let begun = e.begun(t, max_gap_ms);
    let first = e.restored(t);
    begun_is_ordered(e, t, max_gap_ms);
    begun_is_under_kinds(e, t, max_gap_ms);
    conditions_ascend(t, p);
    if x >= first.len() {
        let k = source_of(begun, conditions, ids, t, p, conditions.len(), x - first.len());
        let told = told_by(begun, conditions, ids, t, p, k);
        assert(told[0] == events[x]);
    } else {
        assert(events[x] == first[x]);
    }
}

/// The interruption that opens where readings stop to arrive is a warning of the monitor: it begins
/// with the loss, names its cause, and keeps the last reading. All timers start anew.
pub proof fn interruptions_are_warnings(
    e: EngineModel,
    last: TelemetryModel,
    message: Seq<char>,
    at: i64,
    id: Seq<char>,
)
    requires
        e.ordered(),
        !ordered_map::holds(e.active, "monitoring.unavailable"@),
    ensures
        ordered_map::lookup(e.lost(last, message, at, id).active, "monitoring.unavailable"@)
            == Some(
            IncidentModel {
                id,
                device_id: last.device_id,
                kind: "monitoring.unavailable"@,
                source: "monitor"@,
                severity: "warning"@,
                message: "Monitoring interrupted: "@ + message,
                started_at_ms: at,
                recovered_at_ms: None,
                acknowledged_at_ms: None,
                policy: None,
                trigger_sample: last,
            },
        ),
        e.lost(last, message, at, id).pending.len() == 0,
        e.lost(last, message, at, id).recovering.len() == 0,
{
    ordered_map::put_is_a_map_update(e.active, unavailable(), interruption(last, message, at, id));
}

/// A reading follows the one before it where it is of the same session and at most the longest gap
/// later.
pub proof fn readings_follow_without_a_gap(
    readings: Seq<TelemetryModel>,
    max_gap_ms: u64,
    i: int,
)
    requires
        readings[i - 1].monotonic_ms <= readings[i].monotonic_ms,
    ensures
        follows(readings, max_gap_ms, i) <==> readings[i - 1].session_id == readings[i].session_id
            && readings[i].monotonic_ms - readings[i - 1].monotonic_ms <= max_gap_ms,
{
}

/// A load is uneven in a reading where its condition holds there.
pub proof fn uneven_readings_are_those_that_assert(
    readings: Seq<TelemetryModel>,
    p: Policy,
    c: int,
    i: int,
)
    ensures
        is_uneven(readings, p, c, i) <==> imbalance_condition(readings[i], p, c).asserted,
        is_over(readings, p, c, i) <==> imbalance_condition(readings[i], p, c).clear
            && !imbalance_condition(readings[i], p, c).asserted,
{
}

/// The uneven load of a connector is over in a reading.
pub open spec fn is_over(readings: Seq<TelemetryModel>, p: Policy, c: int, i: int) -> bool {
    imbalance_condition(readings[i], p, c).clear && !imbalance_condition(readings[i], p, c).asserted
}

/// The uneven load of a connector was over in every reading from the `j`-th to the `n`-th, each of
/// which follows the one before it.
pub open spec fn over_throughout(
    readings: Seq<TelemetryModel>,
    p: Policy,
    max_gap_ms: u64,
    c: int,
    j: int,
    n: int,
) -> bool {
    &&& forall|i: int| j <= i <= n ==> #[trigger] is_over(readings, p, c, i)
    &&& forall|i: int| j < i <= n ==> #[trigger] follows(readings, max_gap_ms, i)
}

/// The first reading from which on the uneven load of a connector was over up to the `n`-th.
spec fn over_from(
    readings: Seq<TelemetryModel>,
    p: Policy,
    max_gap_ms: u64,
    c: int,
    n: nat,
) -> nat
    decreases n,
{
    if n > 0 && follows(readings, max_gap_ms, n as int) && is_over(readings, p, c, n - 1) {
        over_from(readings, p, max_gap_ms, c, (n - 1) as nat)
    } else {
        n
    }
}

/// The load was over since that first reading, and not since an earlier one.
proof fn over_from_is_the_first(
    readings: Seq<TelemetryModel>,
    p: Policy,
    max_gap_ms: u64,
    c: int,
    n: nat,
)
    ensures
        ({
            let start = over_from(readings, p, max_gap_ms, c, n);
            &&& start <= n
            &&& forall|i: int| start <= i < n ==> #[trigger] is_over(readings, p, c, i)
            &&& forall|i: int| start < i <= n ==> #[trigger] follows(readings, max_gap_ms, i)
            &&& start > 0 ==> !follows(readings, max_gap_ms, start as int) || !is_over(
                readings,
                p,
                c,
                start - 1,
            )
        }),
    decreases n,
{
    if n > 0 {
        over_from_is_the_first(readings, p, max_gap_ms, c, (n - 1) as nat);
    }
}

/// An observation counts the time for which an uneven load has been over, while its incident is open.
proof fn recovery_is_counted(
    e: EngineModel,
    t: TelemetryModel,
    p: Policy,
    max_gap_ms: u64,
    ids: Seq<Seq<char>>,
    c: int,
)
    requires
        e.ordered(),
        0 <= c < t.connector_currents_ma.len(),
        ordered_map::holds(e.observed(t, p, max_gap_ms, ids).active, imbalance_kind(c)),
    ensures
        ({
            let condition = imbalance_condition(t, p, c);
            let over = condition.clear && !condition.asserted;
            let now = e.observed(t, p, max_gap_ms, ids);
            &&& over ==> ordered_map::holds(e.active, imbalance_kind(c))
            &&& ordered_map::lookup(now.recovering, imbalance_kind(c)) == if over {
                Some(e.begun(t, max_gap_ms).over_since(imbalance_kind(c), t.monotonic_ms))
            } else {
                None
            }
        }),
{
    let kind = imbalance_kind(c);
    let begun = e.begun(t, max_gap_ms);
    conditions_are_complete(t, p, c);
    conditions_ascend(t, p);
    ordered_map::present_at_rank(conditions_of(t, p), kind);
    let i = ordered_map::rank(conditions_of(t, p), kind) as int;
    let condition = imbalance_condition(t, p, c);
    each_condition_stands_alone(e, t, p, max_gap_ms, ids, i);
    begun_is_ordered(e, t, max_gap_ms);
    ordered_map::without_is_a_map_removal(e.active, unavailable());
    ordered_map::without_is_a_map_removal(begun.active, kind);
    ordered_map::put_is_a_map_update(
        begun.recovering,
        kind,
        begun.over_since(kind, t.monotonic_ms),
    );
    ordered_map::without_is_a_map_removal(begun.recovering, kind);
    let end = e.observed(t, p, max_gap_ms, ids).active;
    assert(ordered_map::lookup(end, kind) is Some);
    if condition.clear && !condition.asserted {
        assert(!begun.settles(kind, condition, t, p));
        assert(ordered_map::holds(begun.active, kind));
    }
}

/// Since when an uneven load has been over is the time of that first reading, while its incident is
/// open.
proof fn recovery_time_is_kept(
    e: EngineModel,
    readings: Seq<TelemetryModel>,
    p: Policy,
    max_gap_ms: u64,
    ids: Seq<Seq<Seq<char>>>,
    c: int,
    n: nat,
)
    requires
        e.ordered(),
        !ordered_map::holds(e.recovering, imbalance_kind(c)),
        is_run(readings, c),
        n < readings.len(),
        ordered_map::holds(
            after_readings(e, readings, p, max_gap_ms, ids, n).active,
            imbalance_kind(c),
        ),
    ensures
        after_readings(e, readings, p, max_gap_ms, ids, n).ordered(),
        after_readings(e, readings, p, max_gap_ms, ids, n).begun(
            readings[n as int],
            max_gap_ms,
        ).over_since(imbalance_kind(c), readings[n as int].monotonic_ms) == readings[over_from(
            readings,
            p,
            max_gap_ms,
            c,
            n,
        ) as int].monotonic_ms,
    decreases n,
{
    let kind = imbalance_kind(c);
    let before = after_readings(e, readings, p, max_gap_ms, ids, n);
    let t = readings[n as int];
    if n > 0 {
        let m = (n - 1) as nat;
        let earlier = after_readings(e, readings, p, max_gap_ms, ids, m);
        readings_keep_order(e, readings, p, max_gap_ms, ids, m);
        recovery_is_counted(earlier, readings[m as int], p, max_gap_ms, ids[m as int], c);
        observing_keeps_order(earlier, readings[m as int], p, max_gap_ms, ids[m as int]);
        last_is_the_reading(earlier, readings[m as int], p, max_gap_ms, ids[m as int]);
        assert(before.interrupted(t, max_gap_ms) == !follows(readings, max_gap_ms, n as int));
        if is_over(readings, p, c, m as int) {
            recovery_time_is_kept(e, readings, p, max_gap_ms, ids, c, m);
        }
    } else {
        assert(ordered_map::lookup(before.begun(t, max_gap_ms).recovering, kind) is None);
    }
}

/// Readings keep the tables in order.
proof fn readings_keep_order(
    e: EngineModel,
    readings: Seq<TelemetryModel>,
    p: Policy,
    max_gap_ms: u64,
    ids: Seq<Seq<Seq<char>>>,
    n: nat,
)
    requires
        e.ordered(),
    ensures
        after_readings(e, readings, p, max_gap_ms, ids, n).ordered(),
    decreases n,
{
    if n > 0 {
        let m = (n - 1) as nat;
        readings_keep_order(e, readings, p, max_gap_ms, ids, m);
        observing_keeps_order(
            after_readings(e, readings, p, max_gap_ms, ids, m),
            readings[m as int],
            p,
            max_gap_ms,
            ids[m as int],
        );
    }
}

/// The incident of an uneven load ends if and only if the load was over in every reading back to one
/// that is at least the recovery time older, all of one session and without a longer gap between two
/// of them.
///
/// So one uneven reading, one between the two deviations, a gap or another session starts the wait
/// anew.
pub proof fn imbalance_ends_after_its_time(
    e: EngineModel,
    readings: Seq<TelemetryModel>,
    p: Policy,
    max_gap_ms: u64,
    ids: Seq<Seq<Seq<char>>>,
    c: int,
    n: nat,
)
    requires
        e.ordered(),
        !ordered_map::holds(e.recovering, imbalance_kind(c)),
        is_run(readings, c),
        n < readings.len(),
        ordered_map::holds(
            after_readings(e, readings, p, max_gap_ms, ids, n).active,
            imbalance_kind(c),
        ),
    ensures
        !ordered_map::holds(
            after_readings(e, readings, p, max_gap_ms, ids, (n + 1) as nat).active,
            imbalance_kind(c),
        ) <==> exists|j: int|
            0 <= j <= n && #[trigger] over_throughout(readings, p, max_gap_ms, c, j, n as int)
                && readings[n as int].monotonic_ms - readings[j].monotonic_ms >= p.recovery_ms,
{
    let kind = imbalance_kind(c);
    let before = after_readings(e, readings, p, max_gap_ms, ids, n);
    let after = after_readings(e, readings, p, max_gap_ms, ids, (n + 1) as nat);
    let t = readings[n as int];
    let start = over_from(readings, p, max_gap_ms, c, n) as int;
    let begun = before.begun(t, max_gap_ms);
    let condition = imbalance_condition(t, p, c);
    recovery_time_is_kept(e, readings, p, max_gap_ms, ids, c, n);
    over_from_is_the_first(readings, p, max_gap_ms, c, n);
    conditions_are_complete(t, p, c);
    conditions_ascend(t, p);
    ordered_map::present_at_rank(conditions_of(t, p), kind);
    let i = ordered_map::rank(conditions_of(t, p), kind) as int;
    begun_is_ordered(before, t, max_gap_ms);
    ordered_map::without_is_a_map_removal(before.active, unavailable());
    reveal_strlit("software.connector");
    reveal_strlit("monitoring.unavailable");
    assert(kind[0] == 's' && unavailable()[0] == 'm');
    assert(ordered_map::holds(begun.active, kind));
    each_condition_stands_alone(before, t, p, max_gap_ms, ids[n as int], i);
    ordered_map::without_is_a_map_removal(begun.active, kind);
    ordered_map::put_is_a_map_update(
        begun.active,
        kind,
        opened(kind, condition, ids[n as int][i], t, p),
    );
    assert(readings[start].monotonic_ms <= t.monotonic_ms);
    let over = is_over(readings, p, c, n as int);
    let held = elapsed(t.monotonic_ms, readings[start].monotonic_ms);
    assert(held == t.monotonic_ms - readings[start].monotonic_ms);
    if over && held >= p.recovery_ms {
        assert(ordered_map::lookup(after.active, kind) is None);
        assert(over_throughout(readings, p, max_gap_ms, c, start, n as int));
    } else {
        assert(ordered_map::lookup(after.active, kind) is Some);
        assert(ordered_map::holds(after.active, kind));
        assert forall|j: int|
            0 <= j <= n && #[trigger] over_throughout(
                readings,
                p,
                max_gap_ms,
                c,
                j,
                n as int,
            ) implies readings[n as int].monotonic_ms - readings[j].monotonic_ms < p.recovery_ms by {
            assert(is_over(readings, p, c, n as int));
            if j < start {
                assert(is_over(readings, p, c, start - 1));
                assert(follows(readings, max_gap_ms, start));
            }
            assert(readings[start].monotonic_ms <= readings[j].monotonic_ms);
        }
    }
}

/// An engine that observed nothing has no open incident, and counts no time.
pub proof fn nothing_is_open_at_first()
    ensures
        EngineModel::fresh().active.len() == 0,
        EngineModel::fresh().pending.len() == 0,
        EngineModel::fresh().recovering.len() == 0,
        EngineModel::fresh().last is None,
{
}

/// The model of an incident keeps every field of it.
pub proof fn incidents_are_modelled_in_full(i: Incident)
    ensures
        i@.id == i.id@,
        i@.device_id == i.device_id@,
        i@.kind == i.kind@,
        i@.source == i.source@,
        i@.severity == i.severity@,
        i@.message == i.message@,
        i@.started_at_ms == i.started_at_ms,
        i@.recovered_at_ms == i.recovered_at_ms,
        i@.acknowledged_at_ms == i.acknowledged_at_ms,
        i@.policy == i.policy,
        i@.trigger_sample == i.trigger_sample@,
{
}

/// What a load has to be for a time: uneven, or over, in every reading of it, all of them of one session
/// and none later than the longest gap after the one before it.
pub proof fn times_have_no_gap(
    readings: Seq<TelemetryModel>,
    p: Policy,
    max_gap_ms: u64,
    c: int,
    j: int,
    n: int,
)
    requires
        0 <= j <= n < readings.len(),
        is_run(readings, c),
    ensures
        ({
            let unbroken = forall|i: int|
                j < i <= n ==> readings[i - 1].session_id == (#[trigger] readings[i]).session_id
                    && readings[i].monotonic_ms - readings[i - 1].monotonic_ms <= max_gap_ms;
            &&& uneven_throughout(readings, p, max_gap_ms, c, j, n) <==> unbroken && forall|i: int|
                j <= i <= n ==> (#[trigger] imbalance_condition(readings[i], p, c)).asserted
            &&& over_throughout(readings, p, max_gap_ms, c, j, n) <==> unbroken && forall|i: int|
                j <= i <= n ==> (#[trigger] imbalance_condition(readings[i], p, c)).clear
                    && !imbalance_condition(readings[i], p, c).asserted
        }),
{
    assert forall|i: int| j < i <= n implies (#[trigger] follows(readings, max_gap_ms, i) <==> readings[i
        - 1].session_id == readings[i].session_id && readings[i].monotonic_ms - readings[i
        - 1].monotonic_ms <= max_gap_ms) by {
        assert(readings[i - 1].monotonic_ms <= readings[i].monotonic_ms);
    }
    let unbroken = forall|i: int|
        j < i <= n ==> readings[i - 1].session_id == (#[trigger] readings[i]).session_id
            && readings[i].monotonic_ms - readings[i - 1].monotonic_ms <= max_gap_ms;
    if forall|i: int| j < i <= n ==> #[trigger] follows(readings, max_gap_ms, i) {
        assert forall|i: int| j < i <= n implies readings[i - 1].session_id == (
        #[trigger] readings[i]).session_id && readings[i].monotonic_ms - readings[i
            - 1].monotonic_ms <= max_gap_ms by {
            assert(follows(readings, max_gap_ms, i));
        }
    }
    if unbroken {
        assert forall|i: int| j < i <= n implies #[trigger] follows(readings, max_gap_ms, i) by {
            assert(readings[i].session_id == readings[i - 1].session_id);
        }
    }
    if forall|i: int| j <= i <= n ==> #[trigger] is_uneven(readings, p, c, i) {
        assert forall|i: int| j <= i <= n implies (#[trigger] imbalance_condition(
            readings[i],
            p,
            c,
        )).asserted by {
            assert(is_uneven(readings, p, c, i));
        }
    }
    if forall|i: int| j <= i <= n ==> #[trigger] is_over(readings, p, c, i) {
        assert forall|i: int| j <= i <= n implies (#[trigger] imbalance_condition(
            readings[i],
            p,
            c,
        )).clear && !imbalance_condition(readings[i], p, c).asserted by {
            assert(is_over(readings, p, c, i));
        }
    }
}

} // verus!
