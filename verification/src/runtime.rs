//! One monitor owns the readings; what storage cannot take in time is kept within limits.
use crate::alerts::{self, AlertEngine, EngineModel, Incident, IncidentModel, Policy};
use crate::bounded;
use crate::device;
use crate::model::{self, DeviceInfo, DeviceModel, Telemetry, TelemetryModel};
use crate::ordered_map::{self, Entries, OrderedMap};
use vstd::prelude::*;

verus! {

/// The longest time between two readings that still counts as continuous.
pub const MAX_GAP_MS: u64 = 3500;

/// How many batches wait for storage at most.
pub const STORAGE_QUEUE_SIZE: usize = 16;

/// How many incident updates wait for storage at most.
pub const MAX_PENDING_EVENTS: usize = 256;

/// How many evidence readings wait for storage at most.
pub const MAX_PENDING_EVIDENCE: usize = 2048;

/// For how many incidents evidence is captured at the same time.
pub const MAX_EVIDENCE_WINDOWS: usize = 32;

/// How long evidence is captured after an incident began.
pub const EVIDENCE_MS: u64 = 120_000;

/// How long readings are kept for the evidence of an incident to come.
pub const RING_MS: u64 = 60_000;

/// Why monitoring was not started.
#[derive(Debug, Clone, Copy, PartialEq, Eq, Structural)]
pub enum StartError {
    /// Faults are injected into the simulator only.
    InjectionWithoutSimulator,
}

impl StartError {
    /// The words in which the error is reported.
    pub open spec fn words(self) -> Seq<char> {
        "fault injection requires --simulate"@
    }

    /// The words in which the error is reported.
    pub fn message(&self) -> (words: &'static str)
        ensures
            words@ == self.words(),
    {
        "fault injection requires --simulate"
    }
}

/// Checks that faults are injected into the simulator only.
pub fn check_options(
    simulate: bool,
    fault_after: Option<u64>,
    disconnect_after: Option<u64>,
) -> (r: Result<(), StartError>)
    ensures
        r == if simulate || (fault_after is None && disconnect_after is None) {
            Ok::<(), StartError>(())
        } else {
            Err(StartError::InjectionWithoutSimulator)
        },
{
    if simulate || (fault_after.is_none() && disconnect_after.is_none()) {
        Ok(())
    } else {
        Err(StartError::InjectionWithoutSimulator)
    }
}

/// What the monitor shows to its clients.
pub struct Snapshot {
    pub device: Option<DeviceInfo>,
    pub telemetry: Option<Telemetry>,
    pub connected: bool,
    pub last_error: Option<String>,
    pub storage_error: Option<String>,
    pub dropped_samples: u64,
    pub dropped_incident_updates: u64,
    pub dropped_evidence_samples: u64,
    pub truncated_evidence_windows: u64,
    pub active_incidents: Vec<Incident>,
    pub policy_revision: u64,
    pub policy: Policy,
    pub last_persisted_at_ms: Option<i64>,
    pub started_at_ms: i64,
}

/// What the monitor shows to its clients, with texts as characters and lists as sequences.
pub struct SnapshotModel {
    pub device: Option<DeviceModel>,
    pub telemetry: Option<TelemetryModel>,
    pub connected: bool,
    pub last_error: Option<Seq<char>>,
    pub storage_error: Option<Seq<char>>,
    pub dropped_samples: u64,
    pub dropped_incident_updates: u64,
    pub dropped_evidence_samples: u64,
    pub truncated_evidence_windows: u64,
    pub active_incidents: Seq<IncidentModel>,
    pub policy_revision: u64,
    pub policy: Policy,
    pub last_persisted_at_ms: Option<i64>,
    pub started_at_ms: i64,
}

impl View for Snapshot {
    type V = SnapshotModel;

    open spec fn view(&self) -> SnapshotModel {
        SnapshotModel {
            device: match self.device {
                Some(info) => Some(info@),
                None => None,
            },
            telemetry: match self.telemetry {
                Some(t) => Some(t@),
                None => None,
            },
            connected: self.connected,
            last_error: model::optional_text(self.last_error),
            storage_error: model::optional_text(self.storage_error),
            dropped_samples: self.dropped_samples,
            dropped_incident_updates: self.dropped_incident_updates,
            dropped_evidence_samples: self.dropped_evidence_samples,
            truncated_evidence_windows: self.truncated_evidence_windows,
            active_incidents: self.active_incidents.deep_view(),
            policy_revision: self.policy_revision,
            policy: self.policy,
            last_persisted_at_ms: self.last_persisted_at_ms,
            started_at_ms: self.started_at_ms,
        }
    }
}

impl SnapshotModel {
    /// Nothing was read yet, under the standard policy.
    pub open spec fn blank() -> SnapshotModel {
        SnapshotModel {
            device: None,
            telemetry: None,
            connected: false,
            last_error: None,
            storage_error: None,
            dropped_samples: 0,
            dropped_incident_updates: 0,
            dropped_evidence_samples: 0,
            truncated_evidence_windows: 0,
            active_incidents: Seq::empty(),
            policy_revision: 0,
            policy: Policy::standard(),
            last_persisted_at_ms: None,
            started_at_ms: 0,
        }
    }
}

impl Default for Snapshot {
    fn default() -> (s: Self)
        ensures
            s@ == SnapshotModel::blank(),
    {
        let s = Snapshot {
            device: None,
            telemetry: None,
            connected: false,
            last_error: None,
            storage_error: None,
            dropped_samples: 0,
            dropped_incident_updates: 0,
            dropped_evidence_samples: 0,
            truncated_evidence_windows: 0,
            active_incidents: Vec::new(),
            policy_revision: 0,
            policy: Policy::default(),
            last_persisted_at_ms: None,
            started_at_ms: 0,
        };
        assert(s@.active_incidents =~= Seq::<IncidentModel>::empty());
        s
    }
}

impl Clone for Snapshot {
    fn clone(&self) -> (copy: Self)
        ensures
            copy@ == self@,
    {
        let active = self.active_incidents.clone();
        assert(active.deep_view() =~= self.active_incidents.deep_view());
        Snapshot {
            device: match &self.device {
                Some(info) => Some(info.clone()),
                None => None,
            },
            telemetry: match &self.telemetry {
                Some(t) => Some(t.clone()),
                None => None,
            },
            connected: self.connected,
            last_error: model::copy_optional_text(&self.last_error),
            storage_error: model::copy_optional_text(&self.storage_error),
            dropped_samples: self.dropped_samples,
            dropped_incident_updates: self.dropped_incident_updates,
            dropped_evidence_samples: self.dropped_evidence_samples,
            truncated_evidence_windows: self.truncated_evidence_windows,
            active_incidents: active,
            policy_revision: self.policy_revision,
            policy: self.policy,
            last_persisted_at_ms: self.last_persisted_at_ms,
            started_at_ms: self.started_at_ms,
        }
    }
}

impl Snapshot {
    /// The state at the start, with what was stored before.
    pub fn started(at_ms: i64, revision: u64, policy: Policy, active: Vec<Incident>) -> (s: Snapshot)
        ensures
            s@ == (SnapshotModel {
                started_at_ms: at_ms,
                policy_revision: revision,
                policy,
                active_incidents: active.deep_view(),
                ..SnapshotModel::blank()
            }),
    {
        let mut s = Snapshot::default();
        s.started_at_ms = at_ms;
        s.policy_revision = revision;
        s.policy = policy;
        s.active_incidents = active;
        s
    }

    /// Notes that no supply could be opened.
    pub fn open_failed(&mut self, message: &str)
        ensures
            final(self)@ == (SnapshotModel {
                connected: false,
                last_error: Some(message@),
                ..old(self)@
            }),
    {
        self.connected = false;
        self.last_error = Some(message.to_owned());
    }

    /// Notes what became of a batch whose sample was captured at `captured_at_ms`.
    pub fn stored(&mut self, captured_at_ms: i64, outcome: &Result<(), String>)
        ensures
            final(self)@ == match outcome {
                Ok(_) => SnapshotModel {
                    storage_error: None,
                    last_persisted_at_ms: Some(captured_at_ms),
                    ..old(self)@
                },
                Err(e) => SnapshotModel { storage_error: Some(e@), ..old(self)@ },
            },
    {
        match outcome {
            Ok(_) => {
                self.storage_error = None;
                self.last_persisted_at_ms = Some(captured_at_ms);
            },
            Err(e) => {
                self.storage_error = Some(e.clone());
            },
        }
    }
}

/// Old samples are pruned with every sixtieth reading.
pub fn prune_due(sequence: u64) -> (due: bool)
    ensures
        due == (sequence % 60 == 0),
{
    sequence % 60 == 0
}

/// The outcome of a reading of the simulator.
pub fn simulated_reading(
    sequence: u64,
    fault_after: Option<u64>,
    disconnect_after: Option<u64>,
) -> (r: Result<Telemetry, String>)
    ensures
        if disconnect_after matches Some(n) && sequence >= n {
            r matches Err(e) && e@ == "simulated disconnect"@
        } else {
            r matches Ok(t) && device::simulates(
                t@,
                sequence,
                fault_after matches Some(n) && sequence >= n,
            )
        },
{
    let gone = match disconnect_after {
        Some(n) => sequence >= n,
        None => false,
    };
    if gone {
        return Err("simulated disconnect".to_owned());
    }
    let fault = match fault_after {
        Some(n) => sequence >= n,
        None => false,
    };
    Ok(device::simulated_sample(sequence, fault))
}

/// A reading with what is to be stored beside it.
pub struct Batch {
    pub sample: Telemetry,
    pub events: Vec<Incident>,
    pub evidence: Vec<(String, Telemetry)>,
}

/// A reading with what is to be stored beside it, as sequences.
pub struct BatchModel {
    pub sample: TelemetryModel,
    pub events: Seq<IncidentModel>,
    pub evidence: Seq<(Seq<char>, TelemetryModel)>,
}

impl View for Batch {
    type V = BatchModel;

    open spec fn view(&self) -> BatchModel {
        BatchModel {
            sample: self.sample@,
            events: self.events.deep_view(),
            evidence: self.evidence.deep_view(),
        }
    }
}

/// The monitor: its place in the session, its alerts, and what storage has not taken yet.
pub struct Monitor {
    pub session: String,
    pub sequence: u64,
    pub current_id: String,
    pub engine: AlertEngine,
    /// The readings of the last minute, oldest first.
    pub ring: Vec<Telemetry>,
    /// The incidents for which evidence is captured, each with its last moment.
    pub windows: Vec<(String, u64)>,
    /// The incident updates that wait for storage.
    pub events: Vec<Incident>,
    /// The evidence that waits for storage.
    pub evidence: Vec<(String, Telemetry)>,
}

/// The state of a monitor.
pub struct MonitorModel {
    pub session: Seq<char>,
    pub sequence: u64,
    pub current_id: Seq<char>,
    pub engine: EngineModel,
    pub ring: Seq<TelemetryModel>,
    pub windows: Seq<(Seq<char>, u64)>,
    pub events: Seq<IncidentModel>,
    pub evidence: Seq<(Seq<char>, TelemetryModel)>,
}

impl View for Monitor {
    type V = MonitorModel;

    open spec fn view(&self) -> MonitorModel {
        MonitorModel {
            session: self.session@,
            sequence: self.sequence,
            current_id: self.current_id@,
            engine: self.engine@,
            ring: self.ring.deep_view(),
            windows: self.windows.deep_view(),
            events: self.events.deep_view(),
            evidence: self.evidence.deep_view(),
        }
    }
}

/// Open incidents by kind, with those of one device among the first `n` of a list added; a later
/// one replaces an earlier one of its kind.
pub open spec fn with_incidents(
    active: Entries<IncidentModel>,
    list: Seq<IncidentModel>,
    id: Seq<char>,
    n: nat,
) -> Entries<IncidentModel>
    decreases n,
{
    if n == 0 {
        active
    } else {
        let rest = with_incidents(active, list, id, (n - 1) as nat);
        if list[n - 1].device_id == id {
            ordered_map::put(rest, list[n - 1].kind, list[n - 1])
        } else {
            rest
        }
    }
}

/// An engine that has observed nothing but knows the open incidents of a device.
pub open spec fn resumed(list: Seq<IncidentModel>, id: Seq<char>) -> EngineModel {
    EngineModel {
        active: with_incidents(Seq::empty(), list, id, list.len()),
        ..EngineModel::fresh()
    }
}

/// The simulator, as it is described to clients.
pub open spec fn simulator() -> DeviceModel {
    DeviceModel {
        id: "demo-ai1600ts"@,
        model: "MPG Ai1600TS (simulated)"@,
        pid: 0x808c,
        serial: None,
        revision: None,
        path: "simulator"@,
        backend: "simulator"@,
        simulated: true,
        capabilities: seq!["telemetry"@, "conductor_currents"@, "hardware_alerts"@],
    }
}

/// Describes the simulator.
fn simulator_info() -> (info: DeviceInfo)
    ensures
        info@ == simulator(),
{
    let capabilities: Vec<String> = vec![
        "telemetry".to_owned(),
        "conductor_currents".to_owned(),
        "hardware_alerts".to_owned(),
    ];
    assert(capabilities.deep_view() =~= seq![
        "telemetry"@,
        "conductor_currents"@,
        "hardware_alerts"@,
    ]);
    DeviceInfo {
        id: "demo-ai1600ts".to_owned(),
        model: "MPG Ai1600TS (simulated)".to_owned(),
        pid: 0x808c,
        serial: None,
        revision: None,
        path: "simulator".to_owned(),
        backend: "simulator".to_owned(),
        simulated: true,
        capabilities,
    }
}

/// Adds the open incidents of one device.
fn restore(active: &mut OrderedMap<Incident>, list: &Vec<Incident>, id: &str)
    requires
        old(active).wf(),
    ensures
        final(active).wf(),
        final(active)@ == with_incidents(old(active)@, list.deep_view(), id@, list@.len()),
{
    let ghost before = active@;
    let wanted = id.to_owned();
    let mut i: usize = 0;
    while i < list.len()
        invariant
            i <= list@.len(),
            wanted@ == id@,
            active.wf(),
            active@ == with_incidents(before, list.deep_view(), id@, i as nat),
        decreases list@.len() - i,
    {
        assert(list.deep_view()[i as int] == list@[i as int]@);
        if list[i].device_id == wanted {
            active.insert(list[i].kind.clone(), list[i].clone());
        }
        i = i + 1;
    }
}

impl Monitor {
    /// The alerts are in order.
    pub open spec fn wf(&self) -> bool {
        self.engine.wf()
    }

    /// A monitor that has read nothing.
    pub fn new(session: String) -> (m: Monitor)
        ensures
            m.wf(),
            m@ == (MonitorModel {
                session: session@,
                sequence: 0,
                current_id: Seq::empty(),
                engine: EngineModel::fresh(),
                ring: Seq::empty(),
                windows: Seq::empty(),
                events: Seq::empty(),
                evidence: Seq::empty(),
            }),
    {
        let m = Monitor {
            session,
            sequence: 0,
            current_id: String::new(),
            engine: AlertEngine::default(),
            ring: Vec::new(),
            windows: Vec::new(),
            events: Vec::new(),
            evidence: Vec::new(),
        };
        assert(m@.current_id =~= Seq::<char>::empty());
        assert(m@.ring =~= Seq::<TelemetryModel>::empty());
        assert(m@.windows =~= Seq::<(Seq<char>, u64)>::empty());
        assert(m@.events =~= Seq::<IncidentModel>::empty());
        assert(m@.evidence =~= Seq::<(Seq<char>, TelemetryModel)>::empty());
        m
    }

    /// Whether a supply is the one that was read last.
    pub fn is_current(&self, info: &DeviceInfo) -> (same: bool)
        ensures
            same == (self.current_id@ == info.id@),
    {
        self.current_id == info.id
    }

    /// Begins a session with a supply that was opened. Another supply than the last one starts
    /// with the open incidents that were `stored` for it.
    pub fn device_opened(
        &mut self,
        info: &DeviceInfo,
        stored: &Vec<Incident>,
        session: String,
        snapshot: &mut Snapshot,
    )
        requires
            old(self).wf(),
        ensures
            final(self).wf(),
            final(snapshot)@ == (SnapshotModel { device: Some(info@), ..old(snapshot)@ }),
            final(self)@ == if old(self)@.current_id == info@.id {
                MonitorModel { session: session@, ring: Seq::empty(), ..old(self)@ }
            } else {
                MonitorModel {
                    session: session@,
                    current_id: info@.id,
                    engine: resumed(stored.deep_view(), info@.id),
                    ring: Seq::empty(),
                    windows: Seq::empty(),
                    ..old(self)@
                }
            },
    {
        if !self.is_current(info) {
            self.current_id = info.id.clone();
            self.engine = AlertEngine::default();
            restore(&mut self.engine.active, stored, info.id.as_str());
            self.windows.clear();
            assert(self@.windows =~= Seq::<(Seq<char>, u64)>::empty());
        }
        self.session = session;
        self.ring.clear();
        assert(self@.ring =~= Seq::<TelemetryModel>::empty());
        snapshot.device = Some(info.clone());
    }

    /// Shows the simulator, unless it or a supply was shown before.
    pub fn simulator_started(&mut self, stored: &Vec<Incident>, snapshot: &mut Snapshot)
        requires
            old(self).wf(),
        ensures
            final(self).wf(),
            if old(self)@.current_id.len() == 0 {
                &&& final(snapshot)@ == (SnapshotModel {
                    device: Some(simulator()),
                    ..old(snapshot)@
                })
                &&& final(self)@ == (MonitorModel {
                    current_id: simulator().id,
                    engine: EngineModel {
                        active: with_incidents(
                            old(self)@.engine.active,
                            stored.deep_view(),
                            simulator().id,
                            stored@.len(),
                        ),
                        ..old(self)@.engine
                    },
                    ..old(self)@
                })
            } else {
                final(self)@ == old(self)@ && final(snapshot)@ == old(snapshot)@
            },
    {
        if self.current_id.as_str().is_empty() {
            let info = simulator_info();
            self.current_id = info.id.clone();
            restore(&mut self.engine.active, stored, info.id.as_str());
            snapshot.device = Some(info);
        }
    }

    /// Moves on to the next reading.
    pub fn advance(&mut self)
        requires
            old(self).sequence < u64::MAX,
        ensures
            final(self)@ == (MonitorModel {
                sequence: (old(self)@.sequence + 1) as u64,
                ..old(self)@
            }),
            old(self).wf() ==> final(self).wf(),
    {
        self.sequence = self.sequence + 1;
    }
}

/// Open incidents with the acknowledgements of the first `n` that clients see.
pub open spec fn acknowledged(
    active: Entries<IncidentModel>,
    shown: Seq<IncidentModel>,
    n: nat,
) -> Entries<IncidentModel>
    decreases n,
{
    if n == 0 {
        active
    } else {
        let rest = acknowledged(active, shown, (n - 1) as nat);
        let incident = shown[n - 1];
        match ordered_map::lookup(rest, incident.kind) {
            Some(own) => if own.id == incident.id {
                ordered_map::put(
                    rest,
                    incident.kind,
                    IncidentModel { acknowledged_at_ms: incident.acknowledged_at_ms, ..own },
                )
            } else {
                rest
            },
            None => rest,
        }
    }
}

/// Takes over the acknowledgements that clients see.
fn take_acknowledgements(active: &mut OrderedMap<Incident>, shown: &Vec<Incident>)
    requires
        old(active).wf(),
    ensures
        final(active).wf(),
        final(active)@ == acknowledged(old(active)@, shown.deep_view(), shown@.len()),
{
    let ghost before = active@;
    let mut i: usize = 0;
    while i < shown.len()
        invariant
            i <= shown@.len(),
            active.wf(),
            active@ == acknowledged(before, shown.deep_view(), i as nat),
        decreases shown@.len() - i,
    {
        let incident = &shown[i];
        assert(shown.deep_view()[i as int] == shown@[i as int]@);
        let mut own: Option<Incident> = None;
        match active.get(incident.kind.as_str()) {
            Some(held) => {
                if held.id == incident.id {
                    own = Some(held.clone());
                }
            },
            None => {},
        }
        match own {
            Some(mut held) => {
                held.acknowledged_at_ms = incident.acknowledged_at_ms;
                active.insert(incident.kind.clone(), held);
            },
            None => {},
        }
        i = i + 1;
    }
}

/// A reading with its place in the session, and with its times where they are taken now.
pub open spec fn stamped(
    t: TelemetryModel,
    session: Seq<char>,
    sequence: u64,
    times: Option<(i64, u64)>,
) -> TelemetryModel {
    TelemetryModel {
        session_id: session,
        sequence,
        captured_at_ms: match times {
            Some((wall, _)) => wall,
            None => t.captured_at_ms,
        },
        monotonic_ms: match times {
            Some((_, monotonic)) => monotonic,
            None => t.monotonic_ms,
        },
        ..t
    }
}

impl Monitor {
    /// Gives a reading its place in the session, takes over the acknowledgements that clients
    /// see, and observes the reading. `times` are the times of a simulated reading.
    pub fn observe(
        &mut self,
        t: &mut Telemetry,
        times: Option<(i64, u64)>,
        snapshot: &Snapshot,
    ) -> (events: Vec<Incident>)
        requires
            old(self).wf(),
            alerts::readable(old(t)@),
        ensures
            final(self).wf(),
            final(t)@ == stamped(old(t)@, old(self)@.session, old(self)@.sequence, times),
            final(self)@ == (MonitorModel { engine: final(self)@.engine, ..old(self)@ }),
            ({
                let engine = EngineModel {
                    active: acknowledged(
                        old(self)@.engine.active,
                        snapshot@.active_incidents,
                        snapshot@.active_incidents.len(),
                    ),
                    ..old(self)@.engine
                };
                exists|ids: Seq<Seq<char>>| #[trigger]
                    engine.names(final(t)@, snapshot.policy, ids) && final(self)@.engine
                        == engine.observed(final(t)@, snapshot.policy, MAX_GAP_MS, ids)
                        && events.deep_view() == engine.events(
                        final(t)@,
                        snapshot.policy,
                        MAX_GAP_MS,
                        ids,
                    )
            }),
    {
        t.session_id = self.session.clone();
        t.sequence = self.sequence;
        match times {
            Some((wall, monotonic)) => {
                t.captured_at_ms = wall;
                t.monotonic_ms = monotonic;
            },
            None => {},
        }
        take_acknowledgements(&mut self.engine.active, &snapshot.active_incidents);
        let policy = snapshot.policy;
        self.engine.observe(t, &policy, MAX_GAP_MS)
    }
}

/// Evidence while the events of a reading are taken in.
pub struct Capture {
    pub windows: Seq<(Seq<char>, u64)>,
    pub evidence: Seq<(Seq<char>, TelemetryModel)>,
    /// How many windows were closed early.
    pub truncated: nat,
}

/// The readings of the last minute, as evidence of an incident.
pub open spec fn before_incident(id: Seq<char>, ring: Seq<TelemetryModel>) -> Seq<
    (Seq<char>, TelemetryModel),
> {
    Seq::new(ring.len(), |i: int| (id, ring[i]))
}

/// A reading, as evidence of every incident with an open window.
pub open spec fn during_incidents(windows: Seq<(Seq<char>, u64)>, t: TelemetryModel) -> Seq<
    (Seq<char>, TelemetryModel),
> {
    Seq::new(windows.len(), |i: int| (windows[i].0, t))
}

impl Capture {
    /// After one event: an incident that begins gets what was read before it, and a window of
    /// its own; the oldest window makes room.
    pub open spec fn taken(
        self,
        event: IncidentModel,
        ring: Seq<TelemetryModel>,
        now: u64,
    ) -> Capture {
        if event.recovered_at_ms is Some {
            self
        } else {
            let full = self.windows.len() == MAX_EVIDENCE_WINDOWS;
            let window = (event.id, (now + EVIDENCE_MS) as u64);
            Capture {
                windows: if full {
                    self.windows.drop_first().push(window)
                } else {
                    self.windows.push(window)
                },
                evidence: self.evidence + before_incident(event.id, ring),
                truncated: if full {
                    self.truncated + 1
                } else {
                    self.truncated
                },
            }
        }
    }

    /// After the first `n` events.
    pub open spec fn taken_through(
        self,
        events: Seq<IncidentModel>,
        ring: Seq<TelemetryModel>,
        now: u64,
        n: nat,
    ) -> Capture
        decreases n,
    {
        if n == 0 {
            self
        } else {
            self.taken_through(events, ring, now, (n - 1) as nat).taken(events[n - 1], ring, now)
        }
    }
}

/// The windows that are still open.
pub open spec fn open_windows(windows: Seq<(Seq<char>, u64)>, now: u64) -> Seq<(Seq<char>, u64)>
    decreases windows.len(),
{
    if windows.len() == 0 {
        Seq::empty()
    } else if now <= windows.last().1 {
        open_windows(windows.drop_last(), now).push(windows.last())
    } else {
        open_windows(windows.drop_last(), now)
    }
}

/// The readings from the first one that is not too old.
pub open spec fn recent(ring: Seq<TelemetryModel>, now: u64) -> Seq<TelemetryModel>
    decreases ring.len(),
{
    if ring.len() > 0 && alerts::elapsed(now, ring[0].monotonic_ms) > RING_MS {
        recent(ring.drop_first(), now)
    } else {
        ring
    }
}

/// How many entries of a list lie beyond a limit.
pub open spec fn excess<T>(list: Seq<T>, limit: usize) -> nat {
    if list.len() > limit {
        (list.len() - limit) as nat
    } else {
        0
    }
}

/// How far a number lies beyond a limit.
pub open spec fn over(n: int, limit: usize) -> int {
    if n > limit {
        n - limit
    } else {
        0
    }
}

/// The newest entries of a list within a limit.
pub open spec fn newest<T>(list: Seq<T>, limit: usize) -> Seq<T> {
    list.skip(excess(list, limit) as int)
}

impl MonitorModel {
    /// Evidence after the events of a reading.
    pub open spec fn capture(self, t: TelemetryModel, events: Seq<IncidentModel>) -> Capture {
        Capture { windows: self.windows, evidence: self.evidence, truncated: 0 }.taken_through(
            events,
            self.ring,
            t.monotonic_ms,
            events.len(),
        )
    }

    /// The windows that are open after a reading.
    pub open spec fn windows_after(self, t: TelemetryModel, events: Seq<IncidentModel>) -> Seq<
        (Seq<char>, u64),
    > {
        open_windows(self.capture(t, events).windows, t.monotonic_ms)
    }

    /// All evidence that waits after a reading, before it is bounded.
    pub open spec fn evidence_after(self, t: TelemetryModel, events: Seq<IncidentModel>) -> Seq<
        (Seq<char>, TelemetryModel),
    > {
        self.capture(t, events).evidence + during_incidents(self.windows_after(t, events), t)
    }

    /// The state after a reading and its events, with everything that waited handed over.
    pub open spec fn absorbed(self, t: TelemetryModel, events: Seq<IncidentModel>) -> MonitorModel {
        MonitorModel {
            ring: recent(self.ring.push(t), t.monotonic_ms),
            windows: self.windows_after(t, events),
            events: Seq::empty(),
            evidence: Seq::empty(),
            ..self
        }
    }

    /// What is handed to storage after a reading and its events.
    pub open spec fn batch(self, t: TelemetryModel, events: Seq<IncidentModel>) -> BatchModel {
        BatchModel {
            sample: t,
            events: newest(self.events + events, MAX_PENDING_EVENTS),
            evidence: newest(self.evidence_after(t, events), MAX_PENDING_EVIDENCE),
        }
    }

    /// What clients see of losses after a reading and its events.
    pub open spec fn accounted(
        self,
        s: SnapshotModel,
        t: TelemetryModel,
        events: Seq<IncidentModel>,
    ) -> SnapshotModel {
        SnapshotModel {
            truncated_evidence_windows: (s.truncated_evidence_windows + self.capture(
                t,
                events,
            ).truncated) as u64,
            dropped_incident_updates: (s.dropped_incident_updates + excess(
                self.events + events,
                MAX_PENDING_EVENTS,
            )) as u64,
            dropped_evidence_samples: (s.dropped_evidence_samples + excess(
                self.evidence_after(t, events),
                MAX_PENDING_EVIDENCE,
            )) as u64,
            ..s
        }
    }

    /// The counters of losses and the end of an evidence window can be represented.
    pub open spec fn countable(
        self,
        s: SnapshotModel,
        t: TelemetryModel,
        events: Seq<IncidentModel>,
    ) -> bool {
        &&& t.monotonic_ms + EVIDENCE_MS <= u64::MAX
        &&& s.truncated_evidence_windows + self.capture(t, events).truncated <= u64::MAX
        &&& s.dropped_incident_updates + excess(self.events + events, MAX_PENDING_EVENTS)
            <= u64::MAX
        &&& s.dropped_evidence_samples + excess(
            self.evidence_after(t, events),
            MAX_PENDING_EVIDENCE,
        ) <= u64::MAX
    }
}

/// Appends the readings of the last minute as evidence of an incident.
fn append_before(evidence: &mut Vec<(String, Telemetry)>, id: &String, ring: &Vec<Telemetry>)
    ensures
        final(evidence).deep_view() == old(evidence).deep_view() + before_incident(
            id@,
            ring.deep_view(),
        ),
{
    let ghost before = evidence.deep_view();
    let ghost all = before_incident(id@, ring.deep_view());
    let mut i: usize = 0;
    assert(evidence.deep_view() =~= before + all.take(0));
    while i < ring.len()
        invariant
            i <= ring@.len(),
            all == before_incident(id@, ring.deep_view()),
            evidence.deep_view() == before + all.take(i as int),
        decreases ring@.len() - i,
    {
        let ghost so_far = evidence.deep_view();
        let entry = (id.clone(), ring[i].clone());
        assert(entry.deep_view() == all[i as int]);
        evidence.push(entry);
        assert(evidence.deep_view() =~= so_far.push(all[i as int]));
        i = i + 1;
        assert(all.take(i as int) =~= all.take(i - 1).push(all[i - 1]));
        assert(evidence.deep_view() =~= before + all.take(i as int));
    }
    assert(all.take(i as int) =~= all);
}

/// Appends a reading as evidence of every incident with an open window.
fn append_during(
    evidence: &mut Vec<(String, Telemetry)>,
    windows: &Vec<(String, u64)>,
    t: &Telemetry,
)
    ensures
        final(evidence).deep_view() == old(evidence).deep_view() + during_incidents(
            windows.deep_view(),
            t@,
        ),
{
    let ghost before = evidence.deep_view();
    let ghost all = during_incidents(windows.deep_view(), t@);
    let mut i: usize = 0;
    assert(evidence.deep_view() =~= before + all.take(0));
    while i < windows.len()
        invariant
            i <= windows@.len(),
            all == during_incidents(windows.deep_view(), t@),
            evidence.deep_view() == before + all.take(i as int),
        decreases windows@.len() - i,
    {
        let ghost so_far = evidence.deep_view();
        let entry = (windows[i].0.clone(), t.clone());
        assert(entry.deep_view() == all[i as int]);
        evidence.push(entry);
        assert(evidence.deep_view() =~= so_far.push(all[i as int]));
        i = i + 1;
        assert(all.take(i as int) =~= all.take(i - 1).push(all[i - 1]));
        assert(evidence.deep_view() =~= before + all.take(i as int));
    }
    assert(all.take(i as int) =~= all);
}

/// Closes the windows whose last moment has passed.
fn close_windows(windows: &mut Vec<(String, u64)>, now: u64)
    ensures
        final(windows).deep_view() == open_windows(old(windows).deep_view(), now),
{
    let ghost before = windows.deep_view();
    let mut kept: Vec<(String, u64)> = Vec::new();
    let mut i: usize = 0;
    assert(kept.deep_view() =~= open_windows(before.take(0), now));
    while i < windows.len()
        invariant
            i <= windows@.len(),
            windows.deep_view() == before,
            kept.deep_view() == open_windows(before.take(i as int), now),
        decreases windows@.len() - i,
    {
        let ghost kept_before = kept.deep_view();
        assert(before[i as int] == (windows@[i as int].0@, windows@[i as int].1));
        if now <= windows[i].1 {
            kept.push((windows[i].0.clone(), windows[i].1));
            assert(kept.deep_view() =~= kept_before.push(before[i as int]));
        }
        i = i + 1;
        assert(before.take(i as int).drop_last() =~= before.take(i - 1));
    }
    assert(before.take(i as int) =~= before);
    *windows = kept;
}

/// Forgets the readings before the first one that is not too old.
fn forget_old(ring: &mut Vec<Telemetry>, now: u64)
    ensures
        final(ring).deep_view() == recent(old(ring).deep_view(), now),
{
    let ghost before = ring.deep_view();
    let mut gone: usize = 0;
    assert(before.skip(0) =~= before);
    while gone < ring.len() && now.saturating_sub(ring[gone].monotonic_ms) > RING_MS
        invariant
            gone <= ring@.len(),
            ring.deep_view() == before,
            recent(before, now) == recent(before.skip(gone as int), now),
        decreases ring@.len() - gone,
    {
        assert(before.skip(gone as int)[0] == ring@[gone as int]@);
        assert(before.skip(gone as int).drop_first() =~= before.skip(gone + 1));
        gone = gone + 1;
    }
    proof {
        if gone < ring@.len() {
            assert(before.skip(gone as int)[0] == ring@[gone as int]@);
        }
    }
    let ghost whole = ring@;
    bounded::drop_oldest(ring, gone);
    assert(ring.deep_view() =~= before.skip(gone as int));
}

/// How many of the first `n` events begin an incident.
pub open spec fn beginnings(events: Seq<IncidentModel>, n: nat) -> nat
    decreases n,
{
    if n == 0 {
        0
    } else if events[n - 1].recovered_at_ms is Some {
        beginnings(events, (n - 1) as nat)
    } else {
        beginnings(events, (n - 1) as nat) + 1
    }
}

/// Each incident that begins adds one minute of readings to the evidence.
proof fn evidence_grows(
    c: Capture,
    events: Seq<IncidentModel>,
    ring: Seq<TelemetryModel>,
    now: u64,
    n: nat,
)
    ensures
        c.taken_through(events, ring, now, n).evidence.len() == c.evidence.len() + beginnings(
            events,
            n,
        ) * ring.len(),
        c.taken_through(events, ring, now, n).truncated <= c.truncated + n,
        beginnings(events, n) <= n,
    decreases n,
{
    if n > 0 {
        evidence_grows(c, events, ring, now, (n - 1) as nat);
        let before = beginnings(events, (n - 1) as nat);
        assert((before + 1) * ring.len() == before * ring.len() + ring.len())
            by (nonlinear_arith);
    } else {
        assert(0 * ring.len() == 0) by (nonlinear_arith);
    }
}

/// The windows after some events, and how many were closed early.
fn windows_with(windows: &Vec<(String, u64)>, events: &Vec<Incident>, now: u64, Ghost(c): Ghost<Capture>, Ghost(ring): Ghost<Seq<TelemetryModel>>) -> (r: (Vec<(String, u64)>, usize))
    requires
        now + EVIDENCE_MS <= u64::MAX,
        c.windows == windows.deep_view(),
        c.truncated == 0,
    ensures
        r.0.deep_view() == c.taken_through(events.deep_view(), ring, now, events@.len()).windows,
        r.1 == c.taken_through(events.deep_view(), ring, now, events@.len()).truncated,
{
    let mut kept: Vec<(String, u64)> = Vec::new();
    let mut k: usize = 0;
    while k < windows.len()
        invariant
            k <= windows@.len(),
            kept.deep_view() == windows.deep_view().take(k as int),
        decreases windows@.len() - k,
    {
        let entry = (windows[k].0.clone(), windows[k].1);
        assert(entry.deep_view() == windows.deep_view()[k as int]);
        let ghost so_far = kept.deep_view();
        kept.push(entry);
        assert(kept.deep_view() =~= so_far.push(windows.deep_view()[k as int]));
        k = k + 1;
        assert(kept.deep_view() =~= windows.deep_view().take(k as int));
    }
    assert(windows.deep_view().take(k as int) =~= windows.deep_view());
    let mut truncated: usize = 0;
    let mut i: usize = 0;
    while i < events.len()
        invariant
            i <= events@.len(),
            now + EVIDENCE_MS <= u64::MAX,
            truncated <= i,
            c.truncated == 0,
            kept.deep_view() == c.taken_through(events.deep_view(), ring, now, i as nat).windows,
            truncated == c.taken_through(events.deep_view(), ring, now, i as nat).truncated,
        decreases events@.len() - i,
    {
        assert(events.deep_view()[i as int] == events@[i as int]@);
        if events[i].recovered_at_ms.is_none() {
            let ghost so_far = kept.deep_view();
            let entry = (events[i].id.clone(), now + EVIDENCE_MS);
            if kept.len() == MAX_EVIDENCE_WINDOWS {
                let _oldest = kept.remove(0);
                truncated = truncated + 1;
                assert(kept.deep_view() =~= so_far.drop_first());
            }
            let ghost room = kept.deep_view();
            kept.push(entry);
            assert(kept.deep_view() =~= room.push(entry.deep_view()));
        }
        i = i + 1;
    }
    (kept, truncated)
}

/// Keeps what waits within its limits; what is lost is counted.
pub fn bound_pending(
    events: &mut Vec<Incident>,
    evidence: &mut Vec<(String, Telemetry)>,
    snapshot: &mut Snapshot,
)
    requires
        old(snapshot).dropped_incident_updates + excess(old(events)@, MAX_PENDING_EVENTS)
            <= u64::MAX,
        old(snapshot).dropped_evidence_samples + excess(old(evidence)@, MAX_PENDING_EVIDENCE)
            <= u64::MAX,
    ensures
        final(events)@ == newest(old(events)@, MAX_PENDING_EVENTS),
        final(evidence)@ == newest(old(evidence)@, MAX_PENDING_EVIDENCE),
        final(snapshot)@ == (SnapshotModel {
            dropped_incident_updates: (old(snapshot).dropped_incident_updates + excess(
                old(events)@,
                MAX_PENDING_EVENTS,
            )) as u64,
            dropped_evidence_samples: (old(snapshot).dropped_evidence_samples + excess(
                old(evidence)@,
                MAX_PENDING_EVIDENCE,
            )) as u64,
            ..old(snapshot)@
        }),
{
    let lost_events: usize = events.len().saturating_sub(MAX_PENDING_EVENTS);
    let lost_evidence: usize = evidence.len().saturating_sub(MAX_PENDING_EVIDENCE);
    bounded::drop_oldest(events, lost_events);
    bounded::drop_oldest(evidence, lost_evidence);
    snapshot.dropped_incident_updates = snapshot.dropped_incident_updates + lost_events as u64;
    snapshot.dropped_evidence_samples = snapshot.dropped_evidence_samples + lost_evidence as u64;
}

impl Monitor {
    /// Takes in an observed reading with its events, and hands over what storage is to take.
    pub fn absorb(&mut self, t: &Telemetry, events: Vec<Incident>, snapshot: &mut Snapshot) -> (batch:
        Batch)
        requires
            old(self).wf(),
            old(self)@.countable(old(snapshot)@, t@, events.deep_view()),
        ensures
            final(self).wf(),
            final(self)@ == old(self)@.absorbed(t@, events.deep_view()),
            final(snapshot)@ == old(self)@.accounted(old(snapshot)@, t@, events.deep_view()),
            batch@ == old(self)@.batch(t@, events.deep_view()),
    {
        let ghost before = self@;
        let ghost news = events.deep_view();
        let ghost start = Capture {
            windows: before.windows,
            evidence: before.evidence,
            truncated: 0,
        };
        let now: u64 = t.monotonic_ms;
        let (windows, truncated) = windows_with(
            &self.windows,
            &events,
            now,
            Ghost(start),
            Ghost(before.ring),
        );
        self.windows = windows;
        snapshot.truncated_evidence_windows = snapshot.truncated_evidence_windows + truncated as u64;
        let mut i: usize = 0;
        while i < events.len()
            invariant
                i <= events@.len(),
                news == events.deep_view(),
                self.wf(),
                self@ == (MonitorModel {
                    windows: before.capture(t@, news).windows,
                    evidence: start.taken_through(news, before.ring, now, i as nat).evidence,
                    ..before
                }),
            decreases events@.len() - i,
        {
            assert(news[i as int] == events@[i as int]@);
            if events[i].recovered_at_ms.is_none() {
                append_before(&mut self.evidence, &events[i].id, &self.ring);
            }
            i = i + 1;
        }
        let mut events = events;
        self.events.append(&mut events);
        assert(self@.events =~= before.events + news);
        close_windows(&mut self.windows, now);
        append_during(&mut self.evidence, &self.windows, t);
        let ghost ring = self@.ring;
        self.ring.push(t.clone());
        assert(self@.ring =~= ring.push(t@));
        forget_old(&mut self.ring, now);
        let mut pending_events: Vec<Incident> = Vec::new();
        let mut pending_evidence: Vec<(String, Telemetry)> = Vec::new();
        pending_events.append(&mut self.events);
        pending_evidence.append(&mut self.evidence);
        assert(self@.events =~= Seq::<IncidentModel>::empty());
        assert(self@.evidence =~= Seq::<(Seq<char>, TelemetryModel)>::empty());
        assert(pending_events.deep_view() =~= before.events + news);
        assert(pending_evidence.deep_view() =~= before.evidence_after(t@, news));
        bound_pending(&mut pending_events, &mut pending_evidence, snapshot);
        assert(pending_events.deep_view() =~= newest(before.events + news, MAX_PENDING_EVENTS));
        assert(pending_evidence.deep_view() =~= newest(
            before.evidence_after(t@, news),
            MAX_PENDING_EVIDENCE,
        ));
        Batch { sample: t.clone(), events: pending_events, evidence: pending_evidence }
    }
}

/// The incidents of a table, in the order of their kinds.
pub open spec fn incidents_in(active: Entries<IncidentModel>) -> Seq<IncidentModel> {
    Seq::new(active.len(), |i: int| active[i].1)
}

/// Copies the incidents of a table, in the order of their kinds.
fn list_incidents(active: &OrderedMap<Incident>) -> (list: Vec<Incident>)
    requires
        active.wf(),
    ensures
        list.deep_view() == incidents_in(active@),
{
    let mut list: Vec<Incident> = Vec::new();
    let mut i: usize = 0;
    while i < active.len()
        invariant
            i <= active@.len(),
            active.wf(),
            list.deep_view() == incidents_in(active@).take(i as int),
        decreases active@.len() - i,
    {
        let ghost so_far = list.deep_view();
        list.push(active.value_at(i).clone());
        i = i + 1;
        assert(list.deep_view() =~= so_far.push(active@[i - 1].1));
        assert(list.deep_view() =~= incidents_in(active@).take(i as int));
    }
    assert(incidents_in(active@).take(i as int) =~= incidents_in(active@));
    list
}

/// What became of a batch that was offered to storage.
pub enum Delivery {
    /// Storage took it.
    Taken,
    /// The queue was full and gave it back.
    Full(Batch),
    /// Storage is gone, and the batch with it.
    Closed,
}

/// The words that tell of a full queue while readings arrive.
pub open spec fn queue_full() -> Seq<char> {
    "storage queue full; live monitoring continues, history has gaps"@
}

/// The words that tell of a full queue while no reading arrives.
pub open spec fn incident_waits() -> Seq<char> {
    "storage queue full; incident persistence pending"@
}

impl MonitorModel {
    /// The state after a batch was offered to storage: what came back waits again.
    pub open spec fn offered(self, delivery: Delivery) -> MonitorModel {
        match delivery {
            Delivery::Full(batch) => MonitorModel {
                events: batch@.events,
                evidence: batch@.evidence,
                ..self
            },
            _ => self,
        }
    }

    /// What clients see once the batch of a reading was offered to storage.
    pub open spec fn live(
        self,
        s: SnapshotModel,
        t: TelemetryModel,
        delivery: Delivery,
    ) -> SnapshotModel {
        SnapshotModel {
            connected: true,
            last_error: None,
            telemetry: Some(t),
            active_incidents: incidents_in(self.engine.active),
            dropped_samples: if delivery is Taken {
                s.dropped_samples
            } else {
                (s.dropped_samples + 1) as u64
            },
            storage_error: if delivery is Taken {
                s.storage_error
            } else {
                Some(queue_full())
            },
            ..s
        }
    }

    /// The state after readings stopped to arrive, with everything that waited handed over.
    pub open spec fn interrupted(
        self,
        last: TelemetryModel,
        message: Seq<char>,
        at: i64,
        id: Seq<char>,
    ) -> MonitorModel {
        MonitorModel {
            engine: self.engine.lost(last, message, at, id),
            events: Seq::empty(),
            evidence: Seq::empty(),
            ..self
        }
    }

    /// The incident updates that wait when readings stop to arrive, before they are bounded.
    pub open spec fn last_events(
        self,
        last: TelemetryModel,
        message: Seq<char>,
        at: i64,
        id: Seq<char>,
    ) -> Seq<IncidentModel> {
        if ordered_map::holds(self.engine.active, alerts::unavailable()) {
            self.events
        } else {
            self.events.push(alerts::interruption(last, message, at, id))
        }
    }

    /// All evidence that waits when readings stop to arrive, before it is bounded.
    pub open spec fn last_evidence(self, id: Seq<char>) -> Seq<(Seq<char>, TelemetryModel)> {
        if ordered_map::holds(self.engine.active, alerts::unavailable()) {
            self.evidence
        } else {
            self.evidence + before_incident(id, self.ring)
        }
    }

    /// What is handed to storage when readings stop to arrive.
    pub open spec fn last_batch(
        self,
        last: TelemetryModel,
        message: Seq<char>,
        at: i64,
        id: Seq<char>,
    ) -> BatchModel {
        BatchModel {
            sample: last,
            events: newest(self.last_events(last, message, at, id), MAX_PENDING_EVENTS),
            evidence: newest(self.last_evidence(id), MAX_PENDING_EVIDENCE),
        }
    }

    /// How many incident updates are lost when readings stop to arrive.
    pub open spec fn events_lost(self) -> int {
        let opened: int = if ordered_map::holds(self.engine.active, alerts::unavailable()) {
            0
        } else {
            1
        };
        over(self.events.len() + opened, MAX_PENDING_EVENTS)
    }

    /// How many evidence readings are lost when readings stop to arrive.
    pub open spec fn evidence_lost(self) -> int {
        let opened: int = if ordered_map::holds(self.engine.active, alerts::unavailable()) {
            0
        } else {
            self.ring.len() as int
        };
        over(self.evidence.len() + opened, MAX_PENDING_EVIDENCE)
    }

    /// What clients see of losses when readings stop to arrive after a first one.
    pub open spec fn counted(self, s: SnapshotModel) -> SnapshotModel {
        if s.telemetry is None {
            s
        } else {
            SnapshotModel {
                dropped_incident_updates: (s.dropped_incident_updates + self.events_lost()) as u64,
                dropped_evidence_samples: (s.dropped_evidence_samples + self.evidence_lost())
                    as u64,
                ..s
            }
        }
    }

    /// The counters of losses can be represented when readings stop to arrive.
    pub open spec fn can_stop(self, s: SnapshotModel) -> bool {
        s.telemetry is Some ==> {
            &&& s.dropped_incident_updates + self.events_lost() <= u64::MAX
            &&& s.dropped_evidence_samples + self.evidence_lost() <= u64::MAX
        }
    }

    /// What clients see when readings stop to arrive: the last reading stays as it is.
    pub open spec fn frozen(self, s: SnapshotModel, message: Seq<char>) -> SnapshotModel {
        SnapshotModel {
            connected: false,
            last_error: Some(message),
            active_incidents: incidents_in(self.engine.active),
            ..s
        }
    }
}

/// What waits together with what an interruption reported: the updates and the evidence.
spec fn waiting_with(m: MonitorModel, event: Option<Incident>) -> (
    Seq<IncidentModel>,
    Seq<(Seq<char>, TelemetryModel)>,
) {
    match event {
        None => (m.events, m.evidence),
        Some(e) => (m.events.push(e@), m.evidence + before_incident(e@.id, m.ring)),
    }
}

impl Monitor {
    /// Whether the counters of losses can take what a reading with its events would add.
    pub fn can_absorb(&self, t: &Telemetry, events: &Vec<Incident>, snapshot: &Snapshot) -> (r: bool)
        ensures
            r == self@.countable(snapshot@, t@, events.deep_view()),
    {
        let ghost news = events.deep_view();
        let ghost start = Capture { windows: self@.windows, evidence: self@.evidence, truncated: 0 };
        let now: u64 = t.monotonic_ms;
        if now > u64::MAX - EVIDENCE_MS {
            return false;
        }
        let (mut windows, truncated) = windows_with(
            &self.windows,
            events,
            now,
            Ghost(start),
            Ghost(self@.ring),
        );
        close_windows(&mut windows, now);
        let ring_length: usize = self.ring.len();
        let mut began: usize = 0;
        let mut i: usize = 0;
        while i < events.len()
            invariant
                i <= events@.len(),
                news == events.deep_view(),
                began <= i,
                began == beginnings(news, i as nat),
            decreases events@.len() - i,
        {
            assert(news[i as int] == events@[i as int]@);
            if events[i].recovered_at_ms.is_none() {
                began = began + 1;
            }
            i = i + 1;
        }
        proof {
            evidence_grows(start, news, self@.ring, now, news.len());
            let most = u64::MAX as int;
            assert(0 <= began * ring_length <= most * most) by (nonlinear_arith)
                requires
                    0 <= began <= most,
                    0 <= ring_length <= most,
            ;
        }
        let minutes: u128 = (began as u128) * (ring_length as u128);
        let evidence: u128 = self.evidence.len() as u128 + minutes + windows.len() as u128;
        let waiting: u128 = self.events.len() as u128 + events.len() as u128;
        let most: u128 = u64::MAX as u128;
        let lost_events: u128 = if waiting > MAX_PENDING_EVENTS as u128 {
            waiting - MAX_PENDING_EVENTS as u128
        } else {
            0
        };
        let lost_evidence: u128 = if evidence > MAX_PENDING_EVIDENCE as u128 {
            evidence - MAX_PENDING_EVIDENCE as u128
        } else {
            0
        };
        snapshot.truncated_evidence_windows as u128 + truncated as u128 <= most
            && snapshot.dropped_incident_updates as u128 + lost_events <= most
            && lost_evidence <= most - snapshot.dropped_evidence_samples as u128
    }

    /// Shows a reading to clients once its batch was offered to storage.
    pub fn settle(&mut self, t: &Telemetry, delivery: Delivery, snapshot: &mut Snapshot)
        requires
            old(self).wf(),
            delivery is Taken || old(snapshot).dropped_samples < u64::MAX,
        ensures
            final(self).wf(),
            final(self)@ == old(self)@.offered(delivery),
            final(snapshot)@ == old(self)@.live(old(snapshot)@, t@, delivery),
    {
        match delivery {
            Delivery::Taken => {},
            Delivery::Full(batch) => {
                snapshot.dropped_samples = snapshot.dropped_samples + 1;
                snapshot.storage_error = Some(
                    "storage queue full; live monitoring continues, history has gaps".to_owned(),
                );
                self.events = batch.events;
                self.evidence = batch.evidence;
            },
            Delivery::Closed => {
                snapshot.dropped_samples = snapshot.dropped_samples + 1;
                snapshot.storage_error = Some(
                    "storage queue full; live monitoring continues, history has gaps".to_owned(),
                );
            },
        }
        snapshot.connected = true;
        snapshot.last_error = None;
        snapshot.telemetry = Some(t.clone());
        snapshot.active_incidents = list_incidents(&self.engine.active);
    }

    /// Whether the counters of losses can take what is lost when readings stop to arrive.
    pub fn can_interrupt(&self, snapshot: &Snapshot) -> (r: bool)
        requires
            self.wf(),
        ensures
            r == self@.can_stop(snapshot@),
    {
        if snapshot.telemetry.is_none() {
            return true;
        }
        let open = self.engine.active.contains_key("monitoring.unavailable");
        let mut events: u128 = self.events.len() as u128;
        let mut evidence: u128 = self.evidence.len() as u128;
        if !open {
            events = events + 1;
            evidence = evidence + self.ring.len() as u128;
        }
        let lost_events: u128 = if events > MAX_PENDING_EVENTS as u128 {
            events - MAX_PENDING_EVENTS as u128
        } else {
            0
        };
        let lost_evidence: u128 = if evidence > MAX_PENDING_EVIDENCE as u128 {
            evidence - MAX_PENDING_EVIDENCE as u128
        } else {
            0
        };
        let most: u128 = u64::MAX as u128;
        snapshot.dropped_incident_updates as u128 + lost_events <= most
            && snapshot.dropped_evidence_samples as u128 + lost_evidence <= most
    }

    /// Hands over what waits together with what the interruption reported.
    fn hand_over(&mut self, last: Telemetry, event: Option<Incident>, snapshot: &mut Snapshot) -> (batch:
        Batch)
        requires
            old(self).wf(),
            ({
                let (events, evidence) = waiting_with(old(self)@, event);
                &&& old(snapshot).dropped_incident_updates + excess(events, MAX_PENDING_EVENTS)
                    <= u64::MAX
                &&& old(snapshot).dropped_evidence_samples + excess(evidence, MAX_PENDING_EVIDENCE)
                    <= u64::MAX
            }),
        ensures
            final(self).wf(),
            final(self)@ == (MonitorModel {
                events: Seq::empty(),
                evidence: Seq::empty(),
                ..old(self)@
            }),
            ({
                let (events, evidence) = waiting_with(old(self)@, event);
                &&& batch@ == (BatchModel {
                    sample: last@,
                    events: newest(events, MAX_PENDING_EVENTS),
                    evidence: newest(evidence, MAX_PENDING_EVIDENCE),
                })
                &&& final(snapshot)@ == (SnapshotModel {
                    dropped_incident_updates: (old(snapshot).dropped_incident_updates + excess(
                        events,
                        MAX_PENDING_EVENTS,
                    )) as u64,
                    dropped_evidence_samples: (old(snapshot).dropped_evidence_samples + excess(
                        evidence,
                        MAX_PENDING_EVIDENCE,
                    )) as u64,
                    ..old(snapshot)@
                })
            }),
    {
        let ghost before = self@;
        let ghost all = waiting_with(before, event);
        match event {
            Some(e) => {
                append_before(&mut self.evidence, &e.id, &self.ring);
                self.events.push(e);
                assert(self@.events =~= before.events.push(e@));
            },
            None => {},
        }
        let mut events: Vec<Incident> = Vec::new();
        let mut evidence: Vec<(String, Telemetry)> = Vec::new();
        events.append(&mut self.events);
        evidence.append(&mut self.evidence);
        assert(events.deep_view() =~= all.0);
        assert(evidence.deep_view() =~= all.1);
        assert(self@.events =~= Seq::<IncidentModel>::empty());
        assert(self@.evidence =~= Seq::<(Seq<char>, TelemetryModel)>::empty());
        bound_pending(&mut events, &mut evidence, snapshot);
        assert(events.deep_view() =~= newest(all.0, MAX_PENDING_EVENTS));
        assert(evidence.deep_view() =~= newest(all.1, MAX_PENDING_EVIDENCE));
        Batch { sample: last, events, evidence }
    }

    /// Notes that no reading arrived; the interruption opens under `id`. There is nothing to
    /// store before the first reading.
    pub fn interrupt_with(
        &mut self,
        message: &str,
        at: i64,
        id: String,
        snapshot: &mut Snapshot,
    ) -> (batch: Option<Batch>)
        requires
            old(self).wf(),
            old(self)@.can_stop(old(snapshot)@),
        ensures
            final(self).wf(),
            final(snapshot)@ == final(self)@.frozen(
                old(self)@.counted(old(snapshot)@),
                message@,
            ),
            match old(snapshot)@.telemetry {
                None => batch is None && final(self)@ == old(self)@,
                Some(last) => {
                    &&& final(self)@ == old(self)@.interrupted(last, message@, at, id@)
                    &&& batch matches Some(b)
                    &&& b@ == old(self)@.last_batch(last, message@, at, id@)
                },
            },
    {
        snapshot.connected = false;
        snapshot.last_error = Some(message.to_owned());
        let last: Option<Telemetry> = match &snapshot.telemetry {
            None => None,
            Some(t) => Some(t.clone()),
        };
        let batch = match last {
            None => None,
            Some(last) => {
                let event = self.engine.monitoring_lost_with(&last, message, at, id);
                Some(self.hand_over(last, event, snapshot))
            },
        };
        snapshot.active_incidents = list_incidents(&self.engine.active);
        batch
    }

    /// Notes that no reading arrived; the interruption opens under a random identifier.
    pub fn interrupt(&mut self, message: &str, at: i64, snapshot: &mut Snapshot) -> (batch: Option<
        Batch,
    >)
        requires
            old(self).wf(),
            old(self)@.can_stop(old(snapshot)@),
        ensures
            final(self).wf(),
            final(snapshot)@ == final(self)@.frozen(
                old(self)@.counted(old(snapshot)@),
                message@,
            ),
            match old(snapshot)@.telemetry {
                None => batch is None && final(self)@ == old(self)@,
                Some(last) => exists|id: Seq<char>| #[trigger]
                    alerts::is_random_id(id) && final(self)@ == old(self)@.interrupted(
                        last,
                        message@,
                        at,
                        id,
                    ) && (batch matches Some(b) && b@ == old(self)@.last_batch(
                        last,
                        message@,
                        at,
                        id,
                    )),
            },
    {
        let id = alerts::fresh_id();
        let ghost named = id@;
        let batch = self.interrupt_with(message, at, id, snapshot);
        assert(alerts::is_random_id(named));
        batch
    }

    /// Notes whether storage took what was handed over when readings stopped to arrive.
    pub fn settle_interruption(&mut self, delivery: Delivery, snapshot: &mut Snapshot)
        requires
            old(self).wf(),
        ensures
            final(self).wf(),
            final(self)@ == old(self)@.offered(delivery),
            final(snapshot)@ == if delivery is Full {
                SnapshotModel { storage_error: Some(incident_waits()), ..old(snapshot)@ }
            } else {
                old(snapshot)@
            },
    {
        match delivery {
            Delivery::Full(batch) => {
                self.events = batch.events;
                self.evidence = batch.evidence;
                snapshot.storage_error = Some(
                    "storage queue full; incident persistence pending".to_owned(),
                );
            },
            _ => {},
        }
    }
}

impl MonitorModel {
    /// What waits and what is captured lies within the limits.
    pub open spec fn within_limits(self) -> bool {
        &&& self.windows.len() <= MAX_EVIDENCE_WINDOWS
        &&& self.events.len() <= MAX_PENDING_EVENTS
        &&& self.evidence.len() <= MAX_PENDING_EVIDENCE
    }

    /// With a batch that a full queue gave back, where it did.
    pub open spec fn retaining(self, batch: BatchModel, refused: bool) -> MonitorModel {
        if refused {
            MonitorModel { events: batch.events, evidence: batch.evidence, ..self }
        } else {
            self
        }
    }
}

/// What happens to a monitor.
pub enum Step {
    /// A reading is observed and taken in, and its batch offered to storage.
    Reading {
        engine: EngineModel,
        t: TelemetryModel,
        events: Seq<IncidentModel>,
        refused: bool,
    },
    /// No reading arrives, and what waits is offered to storage.
    Lost {
        last: TelemetryModel,
        message: Seq<char>,
        at: i64,
        id: Seq<char>,
        refused: bool,
    },
    /// A supply is opened: the same one again, or another one with its own alerts.
    Opened { session: Seq<char>, other: Option<(Seq<char>, EngineModel)> },
    /// The simulator is shown, or the monitor moves on to the next reading.
    Moved { sequence: u64, current_id: Seq<char>, engine: EngineModel },
}

impl Step {
    /// The state after a step.
    pub open spec fn leaves(self, m: MonitorModel) -> MonitorModel {
        match self {
            Step::Reading { engine, t, events, refused } => {
                let observed = MonitorModel { engine, ..m };
                observed.absorbed(t, events).retaining(observed.batch(t, events), refused)
            },
            Step::Lost { last, message, at, id, refused } => m.interrupted(
                last,
                message,
                at,
                id,
            ).retaining(m.last_batch(last, message, at, id), refused),
            Step::Opened { session, other } => match other {
                None => MonitorModel { session, ring: Seq::empty(), ..m },
                Some((current_id, engine)) => MonitorModel {
                    session,
                    current_id,
                    engine,
                    ring: Seq::empty(),
                    windows: Seq::empty(),
                    ..m
                },
            },
            Step::Moved { sequence, current_id, engine } => MonitorModel {
                sequence,
                current_id,
                engine,
                ..m
            },
        }
    }
}

/// The state after the first `n` of some steps.
pub open spec fn after_steps(m: MonitorModel, steps: Seq<Step>, n: nat) -> MonitorModel
    decreases n,
{
    if n == 0 {
        m
    } else {
        steps[n - 1].leaves(after_steps(m, steps, (n - 1) as nat))
    }
}

/// What is handed over lies within the limits, whatever waited before.
pub proof fn batches_are_bounded(
    m: MonitorModel,
    t: TelemetryModel,
    events: Seq<IncidentModel>,
    message: Seq<char>,
    at: i64,
    id: Seq<char>,
)
    ensures
        m.batch(t, events).events.len() <= MAX_PENDING_EVENTS,
        m.batch(t, events).evidence.len() <= MAX_PENDING_EVIDENCE,
        m.last_batch(t, message, at, id).events.len() <= MAX_PENDING_EVENTS,
        m.last_batch(t, message, at, id).evidence.len() <= MAX_PENDING_EVIDENCE,
{
}

/// What waits stays within its limits, whatever is read, however often readings fail, whichever
/// supplies take turns, and whatever storage does.
pub proof fn memory_is_bounded(m: MonitorModel, steps: Seq<Step>, n: nat)
    requires
        m.within_limits(),
    ensures
        after_steps(m, steps, n).within_limits(),
    decreases n,
{
    if n > 0 {
        memory_is_bounded(m, steps, (n - 1) as nat);
        let before = after_steps(m, steps, (n - 1) as nat);
        match steps[n - 1] {
            Step::Reading { engine, t, events, refused } => {
                let observed = MonitorModel { engine, ..before };
                let start = Capture {
                    windows: observed.windows,
                    evidence: observed.evidence,
                    truncated: 0,
                };
                windows_are_bounded(start, events, observed.ring, t.monotonic_ms, events.len());
                closing_opens_none(observed.capture(t, events).windows, t.monotonic_ms);
            },
            _ => {},
        }
    }
}

/// What comes back from a full queue is what was offered to it: offering it again is a step.
pub proof fn refusals_are_steps(m: MonitorModel, delivery: Delivery, batch: BatchModel)
    requires
        delivery matches Delivery::Full(refused) ==> refused@ == batch,
    ensures
        m.offered(delivery) == m.retaining(batch, delivery is Full),
{
}

/// Loss is explicit when readings stop to arrive too: every incident update and every evidence
/// reading is either handed over or counted as lost.
pub proof fn loss_at_an_interruption_is_explicit(
    m: MonitorModel,
    s: SnapshotModel,
    last: TelemetryModel,
    message: Seq<char>,
    at: i64,
    id: Seq<char>,
)
    requires
        s.telemetry is Some,
        m.can_stop(s),
    ensures
        m.last_batch(last, message, at, id).events.len() + m.counted(s).dropped_incident_updates
            == m.last_events(last, message, at, id).len() + s.dropped_incident_updates,
        m.last_batch(last, message, at, id).evidence.len() + m.counted(s).dropped_evidence_samples
            == m.last_evidence(id).len() + s.dropped_evidence_samples,
{
}

/// No more windows are open than there may be.
proof fn windows_are_bounded(
    c: Capture,
    events: Seq<IncidentModel>,
    ring: Seq<TelemetryModel>,
    now: u64,
    n: nat,
)
    requires
        c.windows.len() <= MAX_EVIDENCE_WINDOWS,
    ensures
        c.taken_through(events, ring, now, n).windows.len() <= MAX_EVIDENCE_WINDOWS,
        c.taken_through(events, ring, now, n).windows.len() + c.taken_through(
            events,
            ring,
            now,
            n,
        ).truncated == c.windows.len() + c.truncated + beginnings(events, n),
    decreases n,
{
    if n > 0 {
        windows_are_bounded(c, events, ring, now, (n - 1) as nat);
    }
}

/// Closing windows opens none.
proof fn closing_opens_none(windows: Seq<(Seq<char>, u64)>, now: u64)
    ensures
        open_windows(windows, now).len() <= windows.len(),
    decreases windows.len(),
{
    if windows.len() > 0 {
        closing_opens_none(windows.drop_last(), now);
    }
}

/// Loss is explicit: every incident update, every evidence reading and every evidence window is
/// either kept or counted as lost.
pub proof fn loss_is_explicit(
    m: MonitorModel,
    s: SnapshotModel,
    t: TelemetryModel,
    events: Seq<IncidentModel>,
)
    requires
        m.windows.len() <= MAX_EVIDENCE_WINDOWS,
        m.countable(s, t, events),
    ensures
        m.batch(t, events).events.len() + m.accounted(s, t, events).dropped_incident_updates
            == m.events.len() + events.len() + s.dropped_incident_updates,
        m.batch(t, events).evidence.len() + m.accounted(s, t, events).dropped_evidence_samples
            == m.evidence_after(t, events).len() + s.dropped_evidence_samples,
        m.capture(t, events).windows.len() + m.accounted(s, t, events).truncated_evidence_windows
            == m.windows.len() + beginnings(events, events.len()) + s.truncated_evidence_windows,
{
    let start = Capture { windows: m.windows, evidence: m.evidence, truncated: 0 };
    windows_are_bounded(start, events, m.ring, t.monotonic_ms, events.len());
}

/// The newest updates survive: nothing is lost while what waits is within its limits.
pub proof fn nothing_is_lost_within_the_limits(
    m: MonitorModel,
    t: TelemetryModel,
    events: Seq<IncidentModel>,
)
    requires
        m.events.len() + events.len() <= MAX_PENDING_EVENTS,
        m.evidence_after(t, events).len() <= MAX_PENDING_EVIDENCE,
    ensures
        m.batch(t, events).events == m.events + events,
        m.batch(t, events).evidence == m.evidence_after(t, events),
{
    assert((m.events + events).skip(0) =~= m.events + events);
    assert(m.evidence_after(t, events).skip(0) =~= m.evidence_after(t, events));
}

/// What a full queue gave back is offered again before anything newer.
pub proof fn refused_batches_are_retried(
    m: MonitorModel,
    refused: Batch,
    t: TelemetryModel,
    events: Seq<IncidentModel>,
)
    requires
        refused@.events.len() + events.len() <= MAX_PENDING_EVENTS,
    ensures
        m.offered(Delivery::Full(refused)).batch(t, events).events == refused@.events + events,
        refused@.evidence.is_prefix_of(
            m.offered(Delivery::Full(refused)).evidence_after(t, events),
        ),
{
    let waiting = m.offered(Delivery::Full(refused));
    assert((refused@.events + events).skip(0) =~= refused@.events + events);
    let start = Capture { windows: waiting.windows, evidence: waiting.evidence, truncated: 0 };
    evidence_is_appended(start, events, waiting.ring, t.monotonic_ms, events.len());
    let all = waiting.evidence_after(t, events);
    let taken = waiting.capture(t, events).evidence;
    assert(all.take(refused@.evidence.len() as int) =~= refused@.evidence) by {
        assert(taken.take(refused@.evidence.len() as int) =~= refused@.evidence);
        assert forall|i: int| 0 <= i < refused@.evidence.len() implies all[i]
            == refused@.evidence[i] by {
            assert(taken.take(refused@.evidence.len() as int)[i] == taken[i]);
        }
    }
}

/// Evidence is only appended to.
proof fn evidence_is_appended(
    c: Capture,
    events: Seq<IncidentModel>,
    ring: Seq<TelemetryModel>,
    now: u64,
    n: nat,
)
    ensures
        c.evidence.len() <= c.taken_through(events, ring, now, n).evidence.len(),
        c.taken_through(events, ring, now, n).evidence.take(c.evidence.len() as int)
            == c.evidence,
    decreases n,
{
    if n > 0 {
        evidence_is_appended(c, events, ring, now, (n - 1) as nat);
        let before = c.taken_through(events, ring, now, (n - 1) as nat).evidence;
        let after = c.taken_through(events, ring, now, n).evidence;
        assert(after.take(c.evidence.len() as int) =~= before.take(c.evidence.len() as int));
    } else {
        assert(c.evidence.take(c.evidence.len() as int) =~= c.evidence);
    }
}

/// Live monitoring does not depend on storage: whatever became of the batch, clients see the
/// reading and its incidents.
pub proof fn monitoring_continues_without_storage(
    m: MonitorModel,
    s: SnapshotModel,
    t: TelemetryModel,
    delivery: Delivery,
)
    ensures
        m.live(s, t, delivery).connected,
        m.live(s, t, delivery).telemetry == Some(t),
        m.live(s, t, delivery).last_error is None,
        m.live(s, t, delivery).active_incidents == incidents_in(m.engine.active),
        m.offered(delivery).engine == m.engine,
        m.offered(delivery).ring == m.ring,
        m.offered(delivery).windows == m.windows,
{
}

/// A disconnection freezes what was read and keeps every open incident.
pub proof fn disconnection_freezes_readings(
    m: MonitorModel,
    s: SnapshotModel,
    last: TelemetryModel,
    message: Seq<char>,
    at: i64,
    id: Seq<char>,
    kind: Seq<char>,
)
    requires
        m.engine.ordered(),
        ordered_map::holds(m.engine.active, kind),
    ensures
        m.interrupted(last, message, at, id).frozen(s, message).telemetry == s.telemetry,
        !m.interrupted(last, message, at, id).frozen(s, message).connected,
        ordered_map::lookup(m.interrupted(last, message, at, id).engine.active, kind)
            == ordered_map::lookup(m.engine.active, kind),
{
    ordered_map::put_is_a_map_update(
        m.engine.active,
        alerts::unavailable(),
        alerts::interruption(last, message, at, id),
    );
}

/// The newest reading is always kept, and where time does not run backwards every reading that
/// is kept is at most one minute old.
pub proof fn ring_holds_the_last_minute(ring: Seq<TelemetryModel>, t: TelemetryModel)
    ensures
        ({
            let kept = recent(ring.push(t), t.monotonic_ms);
            &&& kept.len() > 0
            &&& kept.last() == t
            &&& (forall|i: int, j: int|
                0 <= i <= j < ring.len() ==> ring[i].monotonic_ms <= ring[j].monotonic_ms)
                ==> forall|i: int|
                0 <= i < kept.len() ==> t.monotonic_ms - (#[trigger] kept[i]).monotonic_ms
                    <= RING_MS
        }),
{
    newest_is_kept(ring.push(t), t.monotonic_ms);
}

/// What is kept of a list that ends with a reading of now.
proof fn newest_is_kept(ring: Seq<TelemetryModel>, now: u64)
    requires
        ring.len() > 0,
        ring.last().monotonic_ms == now,
    ensures
        recent(ring, now).len() > 0,
        recent(ring, now).last() == ring.last(),
        (forall|i: int, j: int|
            0 <= i <= j < ring.len() - 1 ==> ring[i].monotonic_ms <= ring[j].monotonic_ms)
            ==> forall|i: int|
            0 <= i < recent(ring, now).len() ==> now - (#[trigger] recent(ring, now)[i]).monotonic_ms
                <= RING_MS,
    decreases ring.len(),
{
    if alerts::elapsed(now, ring[0].monotonic_ms) > RING_MS {
        newest_is_kept(ring.drop_first(), now);
        assert((forall|i: int, j: int|
            0 <= i <= j < ring.len() - 1 ==> ring[i].monotonic_ms <= ring[j].monotonic_ms) ==> (
        forall|i: int, j: int|
            0 <= i <= j < ring.drop_first().len() - 1 ==> ring.drop_first()[i].monotonic_ms
                <= ring.drop_first()[j].monotonic_ms));
    } else if forall|i: int, j: int|
        0 <= i <= j < ring.len() - 1 ==> ring[i].monotonic_ms <= ring[j].monotonic_ms {
        assert forall|i: int| 0 <= i < ring.len() implies now - (
        #[trigger] ring[i]).monotonic_ms <= RING_MS by {
            if i < ring.len() - 1 {
                assert(ring[0].monotonic_ms <= ring[i].monotonic_ms);
            }
        }
    }
}

/// An open window takes in every reading until its last moment.
pub proof fn open_windows_take_readings(m: MonitorModel, t: TelemetryModel, w: int)
    requires
        0 <= w < m.windows.len(),
        t.monotonic_ms <= m.windows[w].1,
    ensures
        m.windows_after(t, Seq::empty()).contains(m.windows[w]),
        m.evidence_after(t, Seq::empty()).contains((m.windows[w].0, t)),
{
    let none = Seq::<IncidentModel>::empty();
    let kept = m.windows_after(t, none);
    open_window_is_kept(m.windows, t.monotonic_ms, w);
    let at = choose|i: int| 0 <= i < kept.len() && kept[i] == m.windows[w];
    let all = m.evidence_after(t, none);
    assert(all[m.evidence.len() + at] == (m.windows[w].0, t));
}

/// A window whose last moment has not passed stays open.
proof fn open_window_is_kept(windows: Seq<(Seq<char>, u64)>, now: u64, w: int)
    requires
        0 <= w < windows.len(),
        now <= windows[w].1,
    ensures
        open_windows(windows, now).contains(windows[w]),
    decreases windows.len(),
{
    let rest = open_windows(windows.drop_last(), now);
    if w == windows.len() - 1 {
        assert(open_windows(windows, now)[rest.len() as int] == windows[w]);
    } else {
        open_window_is_kept(windows.drop_last(), now, w);
        let at = choose|i: int| 0 <= i < rest.len() && rest[i] == windows[w];
        assert(open_windows(windows, now)[at] == windows[w]);
    }
}

/// An incident that begins last keeps what was read before it, the reading that began it, and a
/// window for two minutes more.
pub proof fn beginnings_open_windows(
    m: MonitorModel,
    t: TelemetryModel,
    events: Seq<IncidentModel>,
)
    requires
        events.len() > 0,
        events.last().recovered_at_ms is None,
        t.monotonic_ms + EVIDENCE_MS <= u64::MAX,
    ensures
        m.windows_after(t, events).len() > 0,
        m.windows_after(t, events).last() == (
            events.last().id,
            (t.monotonic_ms + EVIDENCE_MS) as u64,
        ),
        m.evidence_after(t, events).last() == (events.last().id, t),
        forall|i: int|
            #![trigger m.ring[i]]
            0 <= i < m.ring.len() ==> m.evidence_after(t, events).contains(
                (events.last().id, m.ring[i]),
            ),
{
    let c = m.capture(t, events);
    let all = m.evidence_after(t, events);
    assert(c.windows.last().1 == t.monotonic_ms + EVIDENCE_MS);
    assert forall|i: int| 0 <= i < m.ring.len() implies all.contains(
        (events.last().id, #[trigger] m.ring[i]),
    ) by {
        let at = c.evidence.len() - m.ring.len() + i;
        assert(c.evidence[at] == (events.last().id, m.ring[i]));
        assert(all[at] == c.evidence[at]);
    }
}

/// A restart resumes the open incidents of the supply: the last one stored of each kind.
pub proof fn restart_resumes_incidents(list: Seq<IncidentModel>, id: Seq<char>, i: int)
    requires
        0 <= i < list.len(),
        list[i].device_id == id,
        forall|j: int|
            #![trigger list[j]]
            i < j < list.len() && list[j].device_id == id ==> list[j].kind != list[i].kind,
    ensures
        ordered_map::lookup(resumed(list, id).active, list[i].kind) == Some(list[i]),
        resumed(list, id).ordered(),
{
    resumed_through(list, id, list.len(), i);
}

/// The open incidents of a supply among the first `n`.
proof fn resumed_through(list: Seq<IncidentModel>, id: Seq<char>, n: nat, i: int)
    requires
        n <= list.len(),
    ensures
        ordered_map::ascending(with_incidents(Seq::empty(), list, id, n)),
        0 <= i < n && list[i].device_id == id && (forall|j: int|
            #![trigger list[j]]
            i < j < n && list[j].device_id == id ==> list[j].kind != list[i].kind)
            ==> ordered_map::lookup(with_incidents(Seq::empty(), list, id, n), list[i].kind)
            == Some(list[i]),
    decreases n,
{
    if n > 0 {
        resumed_through(list, id, (n - 1) as nat, i);
        let rest = with_incidents(Seq::empty(), list, id, (n - 1) as nat);
        ordered_map::put_is_a_map_update(rest, list[n - 1].kind, list[n - 1]);
    }
}

/// Acknowledging clears nothing: every incident stays open, and nothing of it changes but when
/// it was acknowledged.
pub proof fn acknowledging_clears_nothing(
    active: Entries<IncidentModel>,
    shown: Seq<IncidentModel>,
    n: nat,
    kind: Seq<char>,
)
    requires
        ordered_map::ascending(active),
        n <= shown.len(),
    ensures
        ordered_map::ascending(acknowledged(active, shown, n)),
        match (
            ordered_map::lookup(active, kind),
            ordered_map::lookup(acknowledged(active, shown, n), kind),
        ) {
            (None, None) => true,
            (Some(before), Some(after)) => after == (IncidentModel {
                acknowledged_at_ms: after.acknowledged_at_ms,
                ..before
            }),
            _ => false,
        },
    decreases n,
{
    if n > 0 {
        acknowledging_clears_nothing(active, shown, (n - 1) as nat, kind);
        let rest = acknowledged(active, shown, (n - 1) as nat);
        let incident = shown[n - 1];
        match ordered_map::lookup(rest, incident.kind) {
            Some(own) => {
                ordered_map::put_is_a_map_update(
                    rest,
                    incident.kind,
                    IncidentModel { acknowledged_at_ms: incident.acknowledged_at_ms, ..own },
                );
            },
            None => {},
        }
    }
}

/// An acknowledgement that clients see reaches the open incident it belongs to.
pub proof fn acknowledgements_arrive(
    active: Entries<IncidentModel>,
    shown: Seq<IncidentModel>,
    i: int,
)
    requires
        ordered_map::ascending(active),
        0 <= i < shown.len(),
        forall|j: int|
            #![trigger shown[j]]
            i < j < shown.len() ==> shown[j].kind != shown[i].kind,
        ordered_map::lookup(active, shown[i].kind) matches Some(own) && own.id == shown[i].id,
    ensures
        ordered_map::lookup(acknowledged(active, shown, shown.len()), shown[i].kind) matches Some(
            own,
        ) && own.acknowledged_at_ms == shown[i].acknowledged_at_ms,
{
    acknowledged_through(active, shown, i, shown.len());
}

/// The acknowledgement of one incident after the first `n`.
proof fn acknowledged_through(
    active: Entries<IncidentModel>,
    shown: Seq<IncidentModel>,
    i: int,
    n: nat,
)
    requires
        ordered_map::ascending(active),
        0 <= i < n <= shown.len(),
        forall|j: int|
            #![trigger shown[j]]
            i < j < shown.len() ==> shown[j].kind != shown[i].kind,
        ordered_map::lookup(active, shown[i].kind) matches Some(own) && own.id == shown[i].id,
    ensures
        ordered_map::lookup(acknowledged(active, shown, n), shown[i].kind) matches Some(own)
            && own.acknowledged_at_ms == shown[i].acknowledged_at_ms,
    decreases n,
{
    let rest = acknowledged(active, shown, (n - 1) as nat);
    acknowledging_clears_nothing(active, shown, (n - 1) as nat, shown[i].kind);
    let incident = shown[n - 1];
    match ordered_map::lookup(rest, incident.kind) {
        Some(own) => {
            ordered_map::put_is_a_map_update(
                rest,
                incident.kind,
                IncidentModel { acknowledged_at_ms: incident.acknowledged_at_ms, ..own },
            );
        },
        None => {},
    }
    if n - 1 > i {
        acknowledged_through(active, shown, i, (n - 1) as nat);
    }
}

/// The limits of the monitor: three and a half seconds between readings, sixteen batches, 256 updates,
/// 2048 readings of evidence and 32 windows, two minutes after an incident and one before it.
pub proof fn limits_have_their_values()
    ensures
        MAX_GAP_MS == 3500,
        STORAGE_QUEUE_SIZE == 16,
        MAX_PENDING_EVENTS == 256,
        MAX_PENDING_EVIDENCE == 2048,
        MAX_EVIDENCE_WINDOWS == 32,
        EVIDENCE_MS == 120_000,
        RING_MS == 60_000,
{
}

/// What is handed over with a reading are the newest 256 of the updates that waited and those of the
/// reading, and the newest 2048 readings of evidence, in their order. As many as are left out are
/// counted as lost; nothing else that clients see changes.
pub proof fn the_newest_are_handed_over(
    m: MonitorModel,
    s: SnapshotModel,
    t: TelemetryModel,
    events: Seq<IncidentModel>,
)
    requires
        m.countable(s, t, events),
    ensures
        ({
            let all = m.events + events;
            let kept = m.batch(t, events).events;
            let lost = all.len() - kept.len();
            &&& kept.len() == if all.len() <= 256 {
                all.len() as int
            } else {
                256
            }
            &&& forall|i: int| 0 <= i < kept.len() ==> #[trigger] kept[i] == all[lost + i]
            &&& m.accounted(s, t, events).dropped_incident_updates == s.dropped_incident_updates
                + lost
        }),
        ({
            let all = m.evidence_after(t, events);
            let kept = m.batch(t, events).evidence;
            let lost = all.len() - kept.len();
            &&& kept.len() == if all.len() <= 2048 {
                all.len() as int
            } else {
                2048
            }
            &&& forall|i: int| 0 <= i < kept.len() ==> #[trigger] kept[i] == all[lost + i]
            &&& m.accounted(s, t, events).dropped_evidence_samples == s.dropped_evidence_samples
                + lost
        }),
        m.batch(t, events).sample == t,
        m.accounted(s, t, events) == (SnapshotModel {
            truncated_evidence_windows: m.accounted(s, t, events).truncated_evidence_windows,
            dropped_incident_updates: m.accounted(s, t, events).dropped_incident_updates,
            dropped_evidence_samples: m.accounted(s, t, events).dropped_evidence_samples,
            ..s
        }),
        m.absorbed(t, events).events.len() == 0,
        m.absorbed(t, events).evidence.len() == 0,
        m.absorbed(t, events).engine == m.engine,
        m.absorbed(t, events).session == m.session,
        m.absorbed(t, events).sequence == m.sequence,
        m.absorbed(t, events).current_id == m.current_id,
{
}

/// What is handed over when readings stop to arrive are the newest 256 updates, the interruption at
/// their end where it begins, and the newest 2048 readings of evidence, with those of the last minute
/// at their end where it begins.
pub proof fn the_newest_are_handed_over_at_an_interruption(
    m: MonitorModel,
    last: TelemetryModel,
    message: Seq<char>,
    at: i64,
    id: Seq<char>,
)
    requires
        m.engine.ordered(),
    ensures
        ({
            let interruption = ordered_map::lookup(
                m.interrupted(last, message, at, id).engine.active,
                "monitoring.unavailable"@,
            )->0;
            let begins = !ordered_map::holds(m.engine.active, "monitoring.unavailable"@);
            let all = if begins {
                m.events.push(interruption)
            } else {
                m.events
            };
            let kept = m.last_batch(last, message, at, id).events;
            &&& kept.len() == if all.len() <= 256 {
                all.len() as int
            } else {
                256
            }
            &&& forall|i: int|
                0 <= i < kept.len() ==> #[trigger] kept[i] == all[all.len() - kept.len() + i]
        }),
        ({
            let begins = !ordered_map::holds(m.engine.active, "monitoring.unavailable"@);
            let all = if begins {
                m.evidence + Seq::new(m.ring.len(), |i: int| (id, m.ring[i]))
            } else {
                m.evidence
            };
            let kept = m.last_batch(last, message, at, id).evidence;
            &&& kept.len() == if all.len() <= 2048 {
                all.len() as int
            } else {
                2048
            }
            &&& forall|i: int|
                0 <= i < kept.len() ==> #[trigger] kept[i] == all[all.len() - kept.len() + i]
        }),
        m.last_batch(last, message, at, id).sample == last,
        m.interrupted(last, message, at, id).ring == m.ring,
        m.interrupted(last, message, at, id).windows == m.windows,
        m.interrupted(last, message, at, id).events.len() == 0,
        m.interrupted(last, message, at, id).evidence.len() == 0,
        m.interrupted(last, message, at, id).session == m.session,
        m.interrupted(last, message, at, id).sequence == m.sequence,
        m.interrupted(last, message, at, id).current_id == m.current_id,
{
    ordered_map::put_is_a_map_update(
        m.engine.active,
        alerts::unavailable(),
        alerts::interruption(last, message, at, id),
    );
    if !ordered_map::holds(m.engine.active, alerts::unavailable()) {
        assert(before_incident(id, m.ring) =~= Seq::new(m.ring.len(), |i: int| (id, m.ring[i])));
    }
}

/// What clients see when readings stop to arrive: not connected, why, and the incidents; the rest stays.
pub proof fn interruptions_change_the_state_alone(
    m: MonitorModel,
    s: SnapshotModel,
    message: Seq<char>,
)
    ensures
        m.frozen(s, message) == (SnapshotModel {
            connected: false,
            last_error: Some(message),
            active_incidents: m.frozen(s, message).active_incidents,
            ..s
        }),
        s.telemetry is None ==> m.counted(s) == s,
        m.counted(s) == (SnapshotModel {
            dropped_incident_updates: m.counted(s).dropped_incident_updates,
            dropped_evidence_samples: m.counted(s).dropped_evidence_samples,
            ..s
        }),
{
}

/// Clients see the open incidents in the order of their kinds, all of them.
pub proof fn clients_see_every_open_incident(
    m: MonitorModel,
    s: SnapshotModel,
    message: Seq<char>,
    t: TelemetryModel,
    delivery: Delivery,
)
    requires
        m.engine.ordered(),
    ensures
        m.live(s, t, delivery).active_incidents.len() == m.engine.active.len(),
        m.frozen(s, message).active_incidents.len() == m.engine.active.len(),
        forall|i: int|
            0 <= i < m.engine.active.len() ==> {
                &&& #[trigger] m.live(s, t, delivery).active_incidents[i]
                    == m.engine.active[i].1
                &&& m.frozen(s, message).active_incidents[i] == m.engine.active[i].1
            },
        forall|i: int, j: int|
            0 <= i < j < m.engine.active.len() ==> crate::text::precedes(
                (#[trigger] m.engine.active[i]).0,
                (#[trigger] m.engine.active[j]).0,
            ),
{
}

/// A batch that storage did not take counts as one reading lost, and clients are told why; nothing is
/// counted for one that it took. A batch that came back from a full queue waits again.
pub proof fn readings_that_storage_did_not_take_are_counted(
    m: MonitorModel,
    s: SnapshotModel,
    t: TelemetryModel,
    delivery: Delivery,
)
    requires
        s.dropped_samples < u64::MAX,
    ensures
        m.live(s, t, delivery) == (SnapshotModel {
            connected: true,
            last_error: None,
            telemetry: Some(t),
            active_incidents: m.live(s, t, delivery).active_incidents,
            dropped_samples: m.live(s, t, delivery).dropped_samples,
            storage_error: m.live(s, t, delivery).storage_error,
            ..s
        }),
        match delivery {
            Delivery::Taken => {
                &&& m.live(s, t, delivery).dropped_samples == s.dropped_samples
                &&& m.live(s, t, delivery).storage_error == s.storage_error
                &&& m.offered(delivery) == m
            },
            Delivery::Full(batch) => {
                &&& m.live(s, t, delivery).dropped_samples == s.dropped_samples + 1
                &&& m.live(s, t, delivery).storage_error == Some(
                    "storage queue full; live monitoring continues, history has gaps"@,
                )
                &&& m.offered(delivery) == (MonitorModel {
                    events: batch@.events,
                    evidence: batch@.evidence,
                    ..m
                })
            },
            Delivery::Closed => {
                &&& m.live(s, t, delivery).dropped_samples == s.dropped_samples + 1
                &&& m.live(s, t, delivery).storage_error == Some(
                    "storage queue full; live monitoring continues, history has gaps"@,
                )
                &&& m.offered(delivery) == m
            },
        },
{
}

/// A reading gets its place in the session, and the times that are taken for it; nothing else of it
/// changes.
pub proof fn readings_get_their_place(
    t: TelemetryModel,
    session: Seq<char>,
    sequence: u64,
    wall: i64,
    monotonic: u64,
)
    ensures
        stamped(t, session, sequence, None) == (TelemetryModel {
            session_id: session,
            sequence,
            ..t
        }),
        stamped(t, session, sequence, Some((wall, monotonic))) == (TelemetryModel {
            session_id: session,
            sequence,
            captured_at_ms: wall,
            monotonic_ms: monotonic,
            ..t
        }),
{
}

/// What is forgotten of a list of readings: those at its beginning that are more than a minute old.
proof fn the_oldest_are_forgotten(ring: Seq<TelemetryModel>, now: u64)
    ensures
        ({
            let kept = recent(ring, now);
            let dropped = ring.len() - kept.len();
            &&& 0 <= dropped
            &&& kept == ring.skip(dropped)
            &&& forall|i: int|
                0 <= i < dropped ==> now - (#[trigger] ring[i]).monotonic_ms > 60_000
            &&& kept.len() > 0 ==> now - kept[0].monotonic_ms <= 60_000
        }),
    decreases ring.len(),
{
    if ring.len() > 0 && now - ring[0].monotonic_ms > 60_000 {
        let rest = ring.drop_first();
        the_oldest_are_forgotten(rest, now);
        let kept = recent(ring, now);
        let dropped = ring.len() - kept.len();
        assert(kept =~= ring.skip(dropped));
        assert forall|i: int| 0 <= i < dropped implies now - (
        #[trigger] ring[i]).monotonic_ms > 60_000 by {
            if i > 0 {
                assert(ring[i] == rest[i - 1]);
            }
        }
    } else {
        assert(ring.skip(0) =~= ring);
    }
}

/// The readings of the last minute are those that were kept and the new one, without those at the
/// beginning that are more than a minute old.
pub proof fn readings_are_kept_for_a_minute(
    m: MonitorModel,
    t: TelemetryModel,
    events: Seq<IncidentModel>,
)
    ensures
        ({
            let all = m.ring.push(t);
            let kept = m.absorbed(t, events).ring;
            let dropped = all.len() - kept.len();
            &&& 0 <= dropped
            &&& kept == all.skip(dropped)
            &&& forall|i: int|
                0 <= i < dropped ==> t.monotonic_ms - (#[trigger] all[i]).monotonic_ms > 60_000
            &&& kept.len() > 0
            &&& t.monotonic_ms - kept[0].monotonic_ms <= 60_000
        }),
{
    the_oldest_are_forgotten(m.ring.push(t), t.monotonic_ms);
    ring_holds_the_last_minute(m.ring, t);
}

/// A window is open up to its last moment, and the order stays.
pub proof fn windows_close_after_their_last_moment(windows: Seq<(Seq<char>, u64)>, now: u64)
    ensures
        open_windows(windows, now) == windows.filter(|w: (Seq<char>, u64)| now <= w.1),
    decreases windows.len(),
{
    reveal(Seq::filter);
    if windows.len() > 0 {
        windows_close_after_their_last_moment(windows.drop_last(), now);
    } else {
        assert(open_windows(windows, now) =~= windows);
    }
}

/// A reading without events is evidence of each incident whose window is open, once, after all that
/// waited.
pub proof fn readings_are_evidence(m: MonitorModel, t: TelemetryModel)
    ensures
        ({
            let open = m.windows.filter(|w: (Seq<char>, u64)| t.monotonic_ms <= w.1);
            let none = Seq::<IncidentModel>::empty();
            &&& m.windows_after(t, none) == open
            &&& m.absorbed(t, none).windows == open
            &&& m.evidence_after(t, none) == m.evidence + Seq::new(
                open.len(),
                |i: int| (open[i].0, t),
            )
        }),
{
    let none = Seq::<IncidentModel>::empty();
    let open = m.windows.filter(|w: (Seq<char>, u64)| t.monotonic_ms <= w.1);
    windows_close_after_their_last_moment(m.windows, t.monotonic_ms);
    assert(m.windows_after(t, none) == open);
    assert(during_incidents(open, t) =~= Seq::new(open.len(), |i: int| (open[i].0, t)));
}

/// An update that ends an incident changes nothing of the evidence. One that begins an incident brings
/// all that was kept before it, and a window of two minutes; where 32 are open the first one closes
/// early, and that is counted.
pub proof fn beginnings_bring_evidence(
    c: Capture,
    event: IncidentModel,
    ring: Seq<TelemetryModel>,
    now: u64,
)
    requires
        now + 120_000 <= u64::MAX,
    ensures
        event.recovered_at_ms is Some ==> c.taken(event, ring, now) == c,
        event.recovered_at_ms is None ==> {
            let after = c.taken(event, ring, now);
            &&& after.windows.len() > 0
            &&& after.windows.last().0 == event.id
            &&& after.windows.last().1 == now + 120_000
            &&& after.windows.drop_last() == if c.windows.len() == 32 {
                c.windows.drop_first()
            } else {
                c.windows
            }
            &&& after.truncated == c.truncated + if c.windows.len() == 32 {
                1int
            } else {
                0
            }
            &&& after.evidence == c.evidence + Seq::new(ring.len(), |i: int| (event.id, ring[i]))
        },
{
    if event.recovered_at_ms is None {
        let after = c.taken(event, ring, now);
        assert(before_incident(event.id, ring) =~= Seq::new(
            ring.len(),
            |i: int| (event.id, ring[i]),
        ));
        if c.windows.len() == 32 {
            assert(after.windows.drop_last() =~= c.windows.drop_first());
        } else {
            assert(after.windows.drop_last() =~= c.windows);
        }
    }
}

/// The updates of a reading are taken in one after another, with what was kept before the reading.
pub proof fn updates_are_taken_in_turn(
    m: MonitorModel,
    t: TelemetryModel,
    events: Seq<IncidentModel>,
    event: IncidentModel,
)
    ensures
        m.capture(t, events.push(event)) == m.capture(t, events).taken(
            event,
            m.ring,
            t.monotonic_ms,
        ),
        m.capture(t, Seq::empty()).windows == m.windows,
        m.capture(t, Seq::empty()).evidence == m.evidence,
        m.capture(t, Seq::empty()).truncated == 0,
{
    let start = Capture { windows: m.windows, evidence: m.evidence, truncated: 0 };
    let more = events.push(event);
    taken_alike(start, events, more, m.ring, t.monotonic_ms, events.len());
    assert(more[more.len() - 1] == event);
}

/// Updates that begin alike are taken in alike.
proof fn taken_alike(
    c: Capture,
    a: Seq<IncidentModel>,
    b: Seq<IncidentModel>,
    ring: Seq<TelemetryModel>,
    now: u64,
    n: nat,
)
    requires
        n <= a.len(),
        n <= b.len(),
        forall|i: int| 0 <= i < n ==> a[i] == b[i],
    ensures
        c.taken_through(a, ring, now, n) == c.taken_through(b, ring, now, n),
    decreases n,
{
    if n > 0 {
        taken_alike(c, a, b, ring, now, (n - 1) as nat);
    }
}

/// A restart resumes nothing but stored incidents of the supply: what is open of a kind is the last one
/// stored of it, and nothing is open of a kind of which none was stored. No time is counted yet.
pub proof fn restart_resumes_nothing_else(
    list: Seq<IncidentModel>,
    id: Seq<char>,
    kind: Seq<char>,
)
    ensures
        ordered_map::holds(resumed(list, id).active, kind) <==> exists|i: int|
            0 <= i < list.len() && (#[trigger] list[i]).device_id == id && list[i].kind == kind,
        resumed(list, id).pending.len() == 0,
        resumed(list, id).recovering.len() == 0,
        resumed(list, id).last is None,
{
    stored_kinds(list, id, kind, list.len());
}

/// Of which kinds an incident is open after the first `n` that were stored.
proof fn stored_kinds(list: Seq<IncidentModel>, id: Seq<char>, kind: Seq<char>, n: nat)
    requires
        n <= list.len(),
    ensures
        ordered_map::ascending(with_incidents(Seq::empty(), list, id, n)),
        ordered_map::holds(with_incidents(Seq::empty(), list, id, n), kind) <==> exists|i: int|
            0 <= i < n && (#[trigger] list[i]).device_id == id && list[i].kind == kind,
    decreases n,
{
    if n > 0 {
        stored_kinds(list, id, kind, (n - 1) as nat);
        let rest = with_incidents(Seq::empty(), list, id, (n - 1) as nat);
        ordered_map::put_is_a_map_update(rest, list[n - 1].kind, list[n - 1]);
        if list[n - 1].device_id == id && list[n - 1].kind == kind {
            assert(list[n - 1].kind == kind);
        }
    }
}

/// An incident that clients do not see, under its kind and with its id, stays as it was.
pub proof fn other_incidents_are_not_acknowledged(
    active: Entries<IncidentModel>,
    shown: Seq<IncidentModel>,
    n: nat,
    kind: Seq<char>,
)
    requires
        ordered_map::ascending(active),
        n <= shown.len(),
        forall|i: int|
            0 <= i < n ==> (#[trigger] shown[i]).kind != kind || (ordered_map::lookup(
                active,
                kind,
            ) matches Some(own) ==> shown[i].id != own.id),
    ensures
        ordered_map::lookup(acknowledged(active, shown, n), kind) == ordered_map::lookup(
            active,
            kind,
        ),
    decreases n,
{
    if n > 0 {
        other_incidents_are_not_acknowledged(active, shown, (n - 1) as nat, kind);
        acknowledging_clears_nothing(active, shown, (n - 1) as nat, kind);
        let rest = acknowledged(active, shown, (n - 1) as nat);
        let incident = shown[n - 1];
        match ordered_map::lookup(rest, incident.kind) {
            Some(own) => {
                ordered_map::put_is_a_map_update(
                    rest,
                    incident.kind,
                    IncidentModel { acknowledged_at_ms: incident.acknowledged_at_ms, ..own },
                );
            },
            None => {},
        }
    }
}

/// At first nothing was read, nothing failed and nothing was lost.
pub proof fn nothing_is_shown_at_first()
    ensures
        SnapshotModel::blank().device is None,
        SnapshotModel::blank().telemetry is None,
        !SnapshotModel::blank().connected,
        SnapshotModel::blank().last_error is None,
        SnapshotModel::blank().storage_error is None,
        SnapshotModel::blank().dropped_samples == 0,
        SnapshotModel::blank().dropped_incident_updates == 0,
        SnapshotModel::blank().dropped_evidence_samples == 0,
        SnapshotModel::blank().truncated_evidence_windows == 0,
        SnapshotModel::blank().active_incidents.len() == 0,
        SnapshotModel::blank().policy_revision == 0,
        SnapshotModel::blank().last_persisted_at_ms is None,
        SnapshotModel::blank().started_at_ms == 0,
{
}

/// Counting goes on as long as the counters are not near their end, and the clock is not either.
pub proof fn counting_goes_on(
    m: MonitorModel,
    s: SnapshotModel,
    t: TelemetryModel,
    events: Seq<IncidentModel>,
)
    requires
        m.windows.len() <= 32,
        t.monotonic_ms + 120_000 <= u64::MAX,
        s.truncated_evidence_windows + events.len() <= u64::MAX,
        s.dropped_incident_updates + m.events.len() + events.len() <= u64::MAX,
        s.dropped_evidence_samples + m.evidence_after(t, events).len() <= u64::MAX,
    ensures
        m.countable(s, t, events),
{
    let start = Capture { windows: m.windows, evidence: m.evidence, truncated: 0 };
    few_are_truncated(start, events, m.ring, t.monotonic_ms, events.len());
}

/// At most one window is closed early for each update.
proof fn few_are_truncated(
    c: Capture,
    events: Seq<IncidentModel>,
    ring: Seq<TelemetryModel>,
    now: u64,
    n: nat,
)
    ensures
        c.taken_through(events, ring, now, n).truncated <= c.truncated + n,
    decreases n,
{
    if n > 0 {
        few_are_truncated(c, events, ring, now, (n - 1) as nat);
    }
}

/// An interruption can be counted as long as the counters are not near their end.
pub proof fn interruptions_can_be_counted(m: MonitorModel, s: SnapshotModel)
    requires
        s.dropped_incident_updates + m.events.len() + 1 <= u64::MAX,
        s.dropped_evidence_samples + m.evidence.len() + m.ring.len() <= u64::MAX,
    ensures
        m.can_stop(s),
{
}

/// The simulator is told apart from a supply, and its readings are its own.
pub proof fn the_simulator_is_no_supply(t: TelemetryModel, sequence: u64, fault: bool)
    requires
        device::simulates(t, sequence, fault),
    ensures
        simulator().simulated,
        simulator().id == t.device_id,
        simulator().id == "demo-ai1600ts"@,
        simulator().model == "MPG Ai1600TS (simulated)"@,
        model::family_of(simulator().pid) is Some,
        simulator().pid == 0x808c,
        simulator().serial is None,
        simulator().revision is None,
        simulator().path == "simulator"@,
        simulator().backend == "simulator"@,
        simulator().capabilities == seq![
            "telemetry"@,
            "conductor_currents"@,
            "hardware_alerts"@,
        ],
{
}

/// While no reading arrives, clients are told that incidents wait where the queue is full.
pub proof fn waiting_incidents_are_told()
    ensures
        incident_waits() == "storage queue full; incident persistence pending"@,
{
}

/// The model of a snapshot keeps every field of it.
pub proof fn snapshots_are_modelled_in_full(s: Snapshot)
    ensures
        s.device matches Some(info) ==> s@.device == Some(info@),
        s.device is None ==> s@.device is None,
        s.telemetry matches Some(t) ==> s@.telemetry == Some(t@),
        s.telemetry is None ==> s@.telemetry is None,
        s@.connected == s.connected,
        s.last_error matches Some(words) ==> s@.last_error == Some(words@),
        s.last_error is None ==> s@.last_error is None,
        s.storage_error matches Some(words) ==> s@.storage_error == Some(words@),
        s.storage_error is None ==> s@.storage_error is None,
        s@.dropped_samples == s.dropped_samples,
        s@.dropped_incident_updates == s.dropped_incident_updates,
        s@.dropped_evidence_samples == s.dropped_evidence_samples,
        s@.truncated_evidence_windows == s.truncated_evidence_windows,
        s@.active_incidents.len() == s.active_incidents@.len(),
        forall|i: int|
            0 <= i < s.active_incidents@.len() ==> #[trigger] s@.active_incidents[i]
                == s.active_incidents@[i]@,
        s@.policy_revision == s.policy_revision,
        s@.policy == s.policy,
        s@.last_persisted_at_ms == s.last_persisted_at_ms,
        s@.started_at_ms == s.started_at_ms,
{
}

/// The model of a monitor keeps every field of it.
pub proof fn monitors_are_modelled_in_full(m: Monitor)
    ensures
        m@.session == m.session@,
        m@.sequence == m.sequence,
        m@.current_id == m.current_id@,
        m@.engine == m.engine@,
        m@.ring.len() == m.ring@.len(),
        forall|i: int| 0 <= i < m.ring@.len() ==> #[trigger] m@.ring[i] == m.ring@[i]@,
        m@.windows.len() == m.windows@.len(),
        forall|i: int|
            0 <= i < m.windows@.len() ==> (#[trigger] m@.windows[i]).0 == m.windows@[i].0@
                && m@.windows[i].1 == m.windows@[i].1,
        m@.events.len() == m.events@.len(),
        forall|i: int| 0 <= i < m.events@.len() ==> #[trigger] m@.events[i] == m.events@[i]@,
        m@.evidence.len() == m.evidence@.len(),
        forall|i: int|
            0 <= i < m.evidence@.len() ==> (#[trigger] m@.evidence[i]).0 == m.evidence@[i].0@
                && m@.evidence[i].1 == m.evidence@[i].1@,
{
}

/// A reading can be taken in if and only if its windows of evidence end within what the clock shows, and
/// each counter has room for what is lost with it.
pub proof fn counters_need_room(
    m: MonitorModel,
    s: SnapshotModel,
    t: TelemetryModel,
    events: Seq<IncidentModel>,
)
    ensures
        ({
            let updates = m.events.len() + events.len() - m.batch(t, events).events.len();
            let samples = m.evidence_after(t, events).len() - m.batch(t, events).evidence.len();
            m.countable(s, t, events) <==> t.monotonic_ms + 120_000 <= u64::MAX
                && s.truncated_evidence_windows + m.capture(t, events).truncated <= u64::MAX
                && s.dropped_incident_updates + updates <= u64::MAX && s.dropped_evidence_samples
                + samples <= u64::MAX
        }),
{
}

/// An interruption can be counted if and only if there was no reading before it, or each counter has room
/// for what is lost with it.
pub proof fn interruptions_need_room(
    m: MonitorModel,
    s: SnapshotModel,
    last: TelemetryModel,
    message: Seq<char>,
    at: i64,
    id: Seq<char>,
)
    ensures
        ({
            let batch = m.last_batch(last, message, at, id);
            let updates = m.last_events(last, message, at, id).len() - batch.events.len();
            let samples = m.last_evidence(id).len() - batch.evidence.len();
            m.can_stop(s) <==> s.telemetry is None || (s.dropped_incident_updates + updates
                <= u64::MAX && s.dropped_evidence_samples + samples <= u64::MAX)
        }),
{
}

} // verus!
