//! Framed requests over private sockets: who may ask for what, and how fresh an answer is.
use crate::alerts::{self, IncidentModel, Policy};
use crate::runtime::{Snapshot, SnapshotModel};
use crate::text;
use vstd::prelude::*;

verus! {

/// The interface of the monitor.
pub const INTERFACE: &'static str = "io.github.railwatch.Monitor1";

/// The longest request in bytes, with its terminator.
pub const MAX_REQUEST: u64 = 65_536;

/// How many requests a client may send over one connection.
pub const REQUESTS_PER_CONNECTION: usize = 256;

/// How many clients are served at the same time.
pub const MAX_CLIENTS: usize = 32;

/// How many records a query returns unless it says otherwise.
pub const DEFAULT_LIMIT: usize = 1000;

/// The age beyond which a reading is stale.
pub const STALE_MS: u64 = 3500;

/// Why bytes are no message.
#[derive(Debug, Clone, Copy, PartialEq, Eq, Structural)]
pub enum FrameError {
    /// There are more than there may be.
    TooLarge,
    /// The terminator is missing.
    Unterminated,
}

impl FrameError {
    /// The words in which an error is reported.
    pub open spec fn words(self) -> Seq<char> {
        match self {
            FrameError::TooLarge => "message exceeds size limit"@,
            FrameError::Unterminated => "unterminated message"@,
        }
    }

    /// The words in which an error is reported.
    pub fn message(&self) -> (words: &'static str)
        ensures
            words@ == self.words(),
    {
        match self {
            FrameError::TooLarge => "message exceeds size limit",
            FrameError::Unterminated => "unterminated message",
        }
    }
}

/// The bytes that a reader takes from a stream for one message: up to and with the first zero, but
/// no more than `most`.
pub open spec fn taken(stream: Seq<u8>, most: nat) -> Seq<u8>
    decreases most,
{
    if stream.len() == 0 || most == 0 {
        Seq::empty()
    } else if stream[0] == 0 {
        seq![0u8]
    } else {
        seq![stream[0]] + taken(stream.drop_first(), (most - 1) as nat)
    }
}

/// The message that taken bytes hold; none at the end of a stream.
pub open spec fn message_in(bytes: Seq<u8>, max: u64) -> Result<Option<Seq<u8>>, FrameError> {
    if bytes.len() == 0 {
        Ok(None)
    } else if bytes.len() > max {
        Err(FrameError::TooLarge)
    } else if bytes.last() != 0 {
        Err(FrameError::Unterminated)
    } else {
        Ok(Some(bytes.drop_last()))
    }
}

/// Reads a message from the bytes that were taken for it, of which there may be `max`.
pub fn read_frame(bytes: Vec<u8>, max: u64) -> (r: Result<Option<Vec<u8>>, FrameError>)
    ensures
        match message_in(bytes@, max) {
            Err(e) => r matches Err(f) && f == e,
            Ok(None) => r matches Ok(None),
            Ok(Some(message)) => r matches Ok(Some(m)) && m@ == message,
        },
{
    let mut bytes = bytes;
    if bytes.len() == 0 {
        return Ok(None);
    }
    if bytes.len() as u64 > max {
        return Err(FrameError::TooLarge);
    }
    let last = bytes.pop();
    if last == Some(0u8) {
        Ok(Some(bytes))
    } else {
        Err(FrameError::Unterminated)
    }
}

/// A message with its terminator.
pub fn frame(message: Vec<u8>) -> (bytes: Vec<u8>)
    ensures
        bytes@ == message@.push(0),
{
    let mut bytes = message;
    bytes.push(0);
    bytes
}

/// A message without zeros comes back as it was sent, whatever follows it in the stream.
pub proof fn messages_come_back(message: Seq<u8>, rest: Seq<u8>, max: u64)
    requires
        message.len() < max,
        !message.contains(0),
    ensures
        taken(message.push(0) + rest, (max + 1) as nat) == message.push(0),
        message_in(taken(message.push(0) + rest, (max + 1) as nat), max) == Ok::<
            Option<Seq<u8>>,
            FrameError,
        >(Some(message)),
{
    taken_to_the_zero(message, rest, (max + 1) as nat);
    assert(message.push(0).drop_last() =~= message);
}

/// A reader stops behind the first zero.
proof fn taken_to_the_zero(message: Seq<u8>, rest: Seq<u8>, most: nat)
    requires
        message.len() < most,
        !message.contains(0),
    ensures
        taken(message.push(0) + rest, most) == message.push(0),
    decreases message.len(),
{
    let stream = message.push(0) + rest;
    if message.len() == 0 {
        assert(stream[0] == 0);
        assert(message.push(0) =~= seq![0u8]);
    } else {
        let tail = message.drop_first();
        assert(message.contains(message[0]));
        assert(stream[0] == message[0]);
        assert(stream.drop_first() =~= tail.push(0) + rest);
        assert(!tail.contains(0)) by {
            if tail.contains(0) {
                let i = choose|i: int| 0 <= i < tail.len() && tail[i] == 0;
                assert(message[i + 1] == 0);
            }
        }
        taken_to_the_zero(tail, rest, (most - 1) as nat);
        assert(seq![message[0]] + tail.push(0) =~= message.push(0));
    }
}

/// What a client asks, apart from the parameters.
#[derive(Debug)]
pub struct Request {
    pub method: String,
    pub more: bool,
    pub oneway: bool,
}

/// The methods that are answered.
#[derive(Debug, Clone, Copy, PartialEq, Eq, Structural)]
pub enum Method {
    GetInfo,
    GetInterfaceDescription,
    Snapshot,
    Devices,
    Incidents,
    Evidence,
    Samples,
    Energy,
    Tariffs,
    Policy,
    Acknowledge,
    SetTariff,
    SetPolicy,
    Inspect,
}

/// Why a request is refused.
#[derive(Debug)]
pub enum ServiceError {
    /// Only a regular request is answered once.
    Irregular,
    /// The interface is not known.
    UnknownInterface,
    /// The method is not known.
    UnknownMethod(String),
    /// The request has to come over the control socket.
    ControlRequired,
    /// The transaction with the supply has to be asked for over the control socket.
    ControlRequiredForDevice,
}

impl ServiceError {
    /// The words in which an error is reported.
    pub open spec fn words(self) -> Seq<char> {
        match self {
            ServiceError::Irregular =>
                "this method requires a regular request; Watch supports streaming"@,
            ServiceError::UnknownInterface => "unknown interface"@,
            ServiceError::UnknownMethod(method) => "unknown method: "@ + method@,
            ServiceError::ControlRequired => "control socket required"@,
            ServiceError::ControlRequiredForDevice =>
                "control socket required for device diagnostic transactions"@,
        }
    }

    /// The words in which an error is reported.
    pub fn message(&self) -> (words: String)
        ensures
            words@ == self.words(),
    {
        match self {
            ServiceError::Irregular =>
                "this method requires a regular request; Watch supports streaming".to_owned(),
            ServiceError::UnknownInterface => "unknown interface".to_owned(),
            ServiceError::UnknownMethod(method) =>
                text::joined("unknown method: ", method.as_str()),
            ServiceError::ControlRequired => "control socket required".to_owned(),
            ServiceError::ControlRequiredForDevice =>
                "control socket required for device diagnostic transactions".to_owned(),
        }
    }
}

/// The head of every method of the interface.
pub open spec fn interface_head() -> Seq<char> {
    "io.github.railwatch.Monitor1."@
}

/// The method of the interface that a name means.
pub open spec fn method_named(name: Seq<char>) -> Option<Method> {
    if name == "Snapshot"@ {
        Some(Method::Snapshot)
    } else if name == "Devices"@ {
        Some(Method::Devices)
    } else if name == "Incidents"@ {
        Some(Method::Incidents)
    } else if name == "Evidence"@ {
        Some(Method::Evidence)
    } else if name == "Samples"@ {
        Some(Method::Samples)
    } else if name == "Energy"@ {
        Some(Method::Energy)
    } else if name == "Tariffs"@ {
        Some(Method::Tariffs)
    } else if name == "Policy"@ {
        Some(Method::Policy)
    } else if name == "Acknowledge"@ {
        Some(Method::Acknowledge)
    } else if name == "SetTariff"@ {
        Some(Method::SetTariff)
    } else if name == "SetPolicy"@ {
        Some(Method::SetPolicy)
    } else if name == "Inspect"@ {
        Some(Method::Inspect)
    } else {
        None
    }
}

impl Method {
    /// The method changes what is stored.
    pub open spec fn mutates(self) -> bool {
        self == Method::Acknowledge || self == Method::SetTariff || self == Method::SetPolicy
    }

    /// The method is for the control socket.
    pub open spec fn controls(self) -> bool {
        self.mutates() || self == Method::Inspect
    }
}

/// What becomes of a request before its parameters are read.
pub enum Routing {
    /// A method answers it.
    To(Method),
    /// Only a regular request is answered once.
    Irregular,
    /// The interface is not known.
    UnknownInterface,
    /// The method is not known.
    UnknownMethod(Seq<char>),
    /// The request has to come over the control socket.
    ControlRequired,
}

/// What becomes of a request before its parameters are read.
pub open spec fn routed(request: Request, admin: bool) -> Routing {
    let name = request.method@;
    let head = interface_head();
    if request.more || request.oneway {
        Routing::Irregular
    } else if name == "org.varlink.service.GetInfo"@ {
        Routing::To(Method::GetInfo)
    } else if name == "org.varlink.service.GetInterfaceDescription"@ {
        Routing::To(Method::GetInterfaceDescription)
    } else if !head.is_prefix_of(name) {
        Routing::UnknownInterface
    } else {
        let rest = name.skip(head.len() as int);
        match method_named(rest) {
            None => Routing::UnknownMethod(rest),
            Some(method) => if method.mutates() && !admin {
                Routing::ControlRequired
            } else {
                Routing::To(method)
            },
        }
    }
}

/// The method of the interface that a name means.
fn find_method(name: &String) -> (method: Option<Method>)
    ensures
        method == method_named(name@),
{
    if *name == "Snapshot".to_owned() {
        Some(Method::Snapshot)
    } else if *name == "Devices".to_owned() {
        Some(Method::Devices)
    } else if *name == "Incidents".to_owned() {
        Some(Method::Incidents)
    } else if *name == "Evidence".to_owned() {
        Some(Method::Evidence)
    } else if *name == "Samples".to_owned() {
        Some(Method::Samples)
    } else if *name == "Energy".to_owned() {
        Some(Method::Energy)
    } else if *name == "Tariffs".to_owned() {
        Some(Method::Tariffs)
    } else if *name == "Policy".to_owned() {
        Some(Method::Policy)
    } else if *name == "Acknowledge".to_owned() {
        Some(Method::Acknowledge)
    } else if *name == "SetTariff".to_owned() {
        Some(Method::SetTariff)
    } else if *name == "SetPolicy".to_owned() {
        Some(Method::SetPolicy)
    } else if *name == "Inspect".to_owned() {
        Some(Method::Inspect)
    } else {
        None
    }
}

/// Decides which method answers a request, before its parameters are read.
pub fn dispatch(request: &Request, admin: bool) -> (r: Result<Method, ServiceError>)
    ensures
        match routed(*request, admin) {
            Routing::To(method) => r matches Ok(m) && m == method,
            Routing::Irregular => r matches Err(ServiceError::Irregular),
            Routing::UnknownInterface => r matches Err(ServiceError::UnknownInterface),
            Routing::UnknownMethod(rest) => r matches Err(ServiceError::UnknownMethod(name))
                && name@ == rest,
            Routing::ControlRequired => r matches Err(ServiceError::ControlRequired),
        },
{
    if request.more || request.oneway {
        return Err(ServiceError::Irregular);
    }
    if request.method == "org.varlink.service.GetInfo".to_owned() {
        return Ok(Method::GetInfo);
    }
    if request.method == "org.varlink.service.GetInterfaceDescription".to_owned() {
        return Ok(Method::GetInterfaceDescription);
    }
    let name = match text::without_prefix(
        request.method.as_str(),
        "io.github.railwatch.Monitor1.",
    ) {
        Some(name) => name,
        None => {
            return Err(ServiceError::UnknownInterface);
        },
    };
    match find_method(&name) {
        None => Err(ServiceError::UnknownMethod(name)),
        Some(method) => match method {
            Method::Acknowledge | Method::SetTariff | Method::SetPolicy => if admin {
                Ok(method)
            } else {
                Err(ServiceError::ControlRequired)
            },
            _ => Ok(method),
        },
    }
}

/// A method may go on once its parameters were read.
pub open spec fn permitted(method: Method, admin: bool) -> bool {
    method == Method::Inspect ==> admin
}

/// Decides whether a method may go on once its parameters were read.
pub fn permit(method: Method, admin: bool) -> (r: Result<(), ServiceError>)
    ensures
        if permitted(method, admin) {
            r is Ok
        } else {
            r matches Err(ServiceError::ControlRequiredForDevice)
        },
{
    if method == Method::Inspect && !admin {
        Err(ServiceError::ControlRequiredForDevice)
    } else {
        Ok(())
    }
}

/// A request reaches a method and may go on.
pub open spec fn served(request: Request, admin: bool, method: Method) -> bool {
    routed(request, admin) == Routing::To(method) && permitted(method, admin)
}

/// The read socket changes nothing and starts no transaction with a supply.
pub proof fn control_needs_the_control_socket(request: Request, method: Method)
    requires
        served(request, false, method),
    ensures
        !method.controls(),
{
}

/// The control socket may do all that the read socket may.
pub proof fn control_includes_reading(request: Request, method: Method)
    requires
        served(request, false, method),
    ensures
        served(request, true, method),
{
}

/// Whether a request asks for a stream of snapshots.
pub fn is_watch(request: &Request) -> (r: bool)
    ensures
        r == (request.method@ == "io.github.railwatch.Monitor1.Watch"@ && request.more
            && !request.oneway),
{
    request.method == "io.github.railwatch.Monitor1.Watch".to_owned() && request.more
        && !request.oneway
}

/// Whether an interface is the one that is described.
pub fn is_described(name: &str) -> (r: bool)
    ensures
        r == (name@ == "io.github.railwatch.Monitor1"@),
{
    name.to_owned() == "io.github.railwatch.Monitor1".to_owned()
}

/// How old the reading of a snapshot is.
pub open spec fn age(s: SnapshotModel, now_ms: u64) -> Option<int> {
    match s.telemetry {
        Some(t) => Some(alerts::elapsed(now_ms, t.monotonic_ms)),
        None => None,
    }
}

/// A snapshot does not show the present: there is no connection, no reading, or none of late.
pub open spec fn is_stale(s: SnapshotModel, now_ms: u64) -> bool {
    !s.connected || match age(s, now_ms) {
        Some(ms) => ms > STALE_MS,
        None => true,
    }
}

/// How old the reading of a snapshot is, and whether it is stale.
pub fn freshness(s: &Snapshot, now_ms: u64) -> (r: (Option<u64>, bool))
    ensures
        match r.0 {
            Some(ms) => age(s@, now_ms) == Some(ms as int),
            None => age(s@, now_ms) is None,
        },
        r.1 == is_stale(s@, now_ms),
{
    match &s.telemetry {
        Some(t) => {
            let ms: u64 = now_ms.saturating_sub(t.monotonic_ms);
            (Some(ms), !s.connected || ms > STALE_MS)
        },
        None => (None, true),
    }
}

/// Incidents of which those named `id` are acknowledged.
pub open spec fn acknowledged(list: Seq<IncidentModel>, id: Seq<char>, at_ms: i64) -> Seq<
    IncidentModel,
> {
    Seq::new(
        list.len(),
        |i: int|
            if list[i].id == id {
                IncidentModel { acknowledged_at_ms: Some(at_ms), ..list[i] }
            } else {
                list[i]
            },
    )
}

/// Shows an incident as acknowledged.
pub fn acknowledge(s: &mut Snapshot, id: &str, at_ms: i64)
    ensures
        final(s)@ == (SnapshotModel {
            active_incidents: acknowledged(old(s)@.active_incidents, id@, at_ms),
            ..old(s)@
        }),
{
    let ghost before = s@;
    let ghost all = acknowledged(before.active_incidents, id@, at_ms);
    let wanted = id.to_owned();
    let mut i: usize = 0;
    while i < s.active_incidents.len()
        invariant
            i <= s.active_incidents@.len(),
            wanted@ == id@,
            all == acknowledged(before.active_incidents, id@, at_ms),
            s.active_incidents@.len() == before.active_incidents.len(),
            forall|k: int|
                #![trigger s.active_incidents@[k]]
                0 <= k < i ==> s.active_incidents@[k]@ == all[k],
            forall|k: int|
                #![trigger s.active_incidents@[k]]
                i <= k < s.active_incidents@.len() ==> s.active_incidents@[k]@
                    == before.active_incidents[k],
            s@ == (SnapshotModel {
                active_incidents: s.active_incidents.deep_view(),
                ..before
            }),
        decreases s.active_incidents@.len() - i,
    {
        assert(s.active_incidents@[i as int]@ == before.active_incidents[i as int]);
        if s.active_incidents[i].id == wanted {
            let mut incident = s.active_incidents[i].clone();
            incident.acknowledged_at_ms = Some(at_ms);
            s.active_incidents.set(i, incident);
        }
        i = i + 1;
    }
    assert(s@.active_incidents =~= all);
}

/// Shows a policy that was stored.
pub fn adopt_policy(s: &mut Snapshot, policy: Policy, revision: u64)
    ensures
        final(s)@ == (SnapshotModel { policy, policy_revision: revision, ..old(s)@ }),
{
    s.policy = policy;
    s.policy_revision = revision;
}

/// Whether a client is served. Without a group for it, the control socket is for the
/// administrator and the owner of the daemon; `peer` is the user at the other end.
pub fn admits(clients: usize, admin: bool, grouped: bool, peer: Option<u32>, owner: u32) -> (r: bool)
    ensures
        r == (clients < MAX_CLIENTS && (!admin || grouped || peer == Some(0u32) || peer == Some(
            owner,
        ))),
{
    if clients >= MAX_CLIENTS {
        return false;
    }
    if admin && !grouped {
        match peer {
            Some(user) => user == 0 || user == owner,
            None => false,
        }
    } else {
        true
    }
}

/// The limits of the service: requests of 64 KiB, 256 of them over a connection, 32 clients, a thousand
/// records, and three and a half seconds until a reading is stale.
pub proof fn the_service_has_limits()
    ensures
        MAX_REQUEST == 65_536,
        REQUESTS_PER_CONNECTION == 256,
        MAX_CLIENTS == 32,
        DEFAULT_LIMIT == 1000,
        STALE_MS == 3500,
{
}

/// A reader takes a stream from its beginning, up to and with its first zero; it stops before one only
/// where the stream ends or no more may be taken.
pub proof fn readers_stop_behind_a_zero(stream: Seq<u8>, most: nat)
    ensures
        ({
            let n = taken(stream, most).len() as int;
            &&& n <= most
            &&& n <= stream.len()
            &&& taken(stream, most) == stream.take(n)
            &&& forall|i: int| 0 <= i < n - 1 ==> #[trigger] stream[i] != 0
            &&& n == most || n == stream.len() || (n > 0 && stream[n - 1] == 0)
        }),
    decreases most,
{
    let n = taken(stream, most).len() as int;
    if stream.len() > 0 && most > 0 && stream[0] != 0 {
        let rest = stream.drop_first();
        readers_stop_behind_a_zero(rest, (most - 1) as nat);
        assert(taken(stream, most) =~= stream.take(n));
        assert forall|i: int| 0 <= i < n - 1 implies #[trigger] stream[i] != 0 by {
            if i > 0 {
                assert(rest[i - 1] != 0);
            }
        }
        if n > 1 {
            assert(rest[n - 2] == stream[n - 1]);
        }
    } else {
        assert(taken(stream, most) =~= stream.take(n));
    }
}

/// Bytes are a message if and only if they are not too many and end with a zero, and the message is what
/// stands before it. No bytes are the end of the stream. Too many are refused as such, and others for
/// the zero that is missing.
pub proof fn messages_end_with_a_zero(bytes: Seq<u8>, max: u64)
    ensures
        message_in(bytes, max) == Ok::<Option<Seq<u8>>, FrameError>(None) <==> bytes.len() == 0,
        message_in(bytes, max) matches Ok(Some(message)) ==> bytes == message.push(0)
            && bytes.len() <= max,
        bytes.len() > 0 && bytes.last() == 0 && bytes.len() <= max ==> message_in(bytes, max) is Ok,
        message_in(bytes, max) == Err::<Option<Seq<u8>>, FrameError>(FrameError::TooLarge)
            <==> bytes.len() > 0 && bytes.len() > max,
        message_in(bytes, max) == Err::<Option<Seq<u8>>, FrameError>(FrameError::Unterminated)
            <==> 0 < bytes.len() <= max && bytes.last() != 0,
{
    if 0 < bytes.len() <= max && bytes.last() == 0 {
        assert(bytes =~= bytes.drop_last().push(0));
    }
}

/// The names of the methods stand apart.
proof fn method_names_differ()
    ensures
        method_named("Snapshot"@) == Some(Method::Snapshot),
        method_named("Devices"@) == Some(Method::Devices),
        method_named("Incidents"@) == Some(Method::Incidents),
        method_named("Evidence"@) == Some(Method::Evidence),
        method_named("Samples"@) == Some(Method::Samples),
        method_named("Energy"@) == Some(Method::Energy),
        method_named("Tariffs"@) == Some(Method::Tariffs),
        method_named("Policy"@) == Some(Method::Policy),
        method_named("Acknowledge"@) == Some(Method::Acknowledge),
        method_named("SetTariff"@) == Some(Method::SetTariff),
        method_named("SetPolicy"@) == Some(Method::SetPolicy),
        method_named("Inspect"@) == Some(Method::Inspect),
{
    reveal_strlit("Snapshot");
    reveal_strlit("Devices");
    reveal_strlit("Incidents");
    reveal_strlit("Evidence");
    reveal_strlit("Samples");
    reveal_strlit("Energy");
    reveal_strlit("Tariffs");
    reveal_strlit("Policy");
    reveal_strlit("Acknowledge");
    reveal_strlit("SetTariff");
    reveal_strlit("SetPolicy");
    reveal_strlit("Inspect");
    assert("Snapshot"@[0] == 'S' && "Snapshot"@[1] == 'n');
    assert("Devices"@[0] == 'D' && "Devices"@[1] == 'e');
    assert("Incidents"@[0] == 'I' && "Incidents"@[1] == 'n' && "Incidents"@[2] == 'c' && "Incidents"@[3] == 'i');
    assert("Evidence"@[0] == 'E' && "Evidence"@[1] == 'v');
    assert("Samples"@[0] == 'S' && "Samples"@[1] == 'a');
    assert("Energy"@[0] == 'E' && "Energy"@[1] == 'n');
    assert("Tariffs"@[0] == 'T' && "Tariffs"@[1] == 'a');
    assert("Policy"@[0] == 'P' && "Policy"@[1] == 'o');
    assert("Acknowledge"@[0] == 'A' && "Acknowledge"@[1] == 'c');
    assert("SetTariff"@[0] == 'S' && "SetTariff"@[1] == 'e' && "SetTariff"@[2] == 't' && "SetTariff"@[3] == 'T');
    assert("SetPolicy"@[0] == 'S' && "SetPolicy"@[1] == 'e' && "SetPolicy"@[2] == 't' && "SetPolicy"@[3] == 'P');
    assert("Inspect"@[0] == 'I' && "Inspect"@[1] == 'n' && "Inspect"@[2] == 's' && "Inspect"@[3] == 'p');
}

/// A regular request of the interface reaches the method that it names. Three of them change what is
/// stored and are refused without the control socket; a fourth is refused there once its parameters were
/// read. All others are served to everyone.
pub proof fn requests_reach_the_method_they_name(request: Request, admin: bool, name: Seq<char>)
    requires
        !request.more,
        !request.oneway,
        request.method@ == "io.github.railwatch.Monitor1."@ + name,
    ensures
        name == "Snapshot"@ ==> served(request, admin, Method::Snapshot),
        name == "Devices"@ ==> served(request, admin, Method::Devices),
        name == "Incidents"@ ==> served(request, admin, Method::Incidents),
        name == "Evidence"@ ==> served(request, admin, Method::Evidence),
        name == "Samples"@ ==> served(request, admin, Method::Samples),
        name == "Energy"@ ==> served(request, admin, Method::Energy),
        name == "Tariffs"@ ==> served(request, admin, Method::Tariffs),
        name == "Policy"@ ==> served(request, admin, Method::Policy),
        name == "Acknowledge"@ ==> if admin {
            served(request, admin, Method::Acknowledge)
        } else {
            routed(request, admin) == Routing::ControlRequired
        },
        name == "SetTariff"@ ==> if admin {
            served(request, admin, Method::SetTariff)
        } else {
            routed(request, admin) == Routing::ControlRequired
        },
        name == "SetPolicy"@ ==> if admin {
            served(request, admin, Method::SetPolicy)
        } else {
            routed(request, admin) == Routing::ControlRequired
        },
        name == "Inspect"@ ==> {
            &&& routed(request, admin) == Routing::To(Method::Inspect)
            &&& permitted(Method::Inspect, admin) <==> admin
        },
        name != "Snapshot"@ && name != "Devices"@ && name != "Incidents"@ && name != "Evidence"@
            && name != "Samples"@ && name != "Energy"@ && name != "Tariffs"@ && name != "Policy"@
            && name != "Acknowledge"@ && name != "SetTariff"@ && name != "SetPolicy"@ && name
            != "Inspect"@ ==> routed(request, admin) == Routing::UnknownMethod(name),
{
    method_names_differ();
    let head = "io.github.railwatch.Monitor1."@;
    assert(request.method@.skip(head.len() as int) =~= name);
    assert(request.method@.take(head.len() as int) =~= head);
    reveal_strlit("io.github.railwatch.Monitor1.");
    reveal_strlit("org.varlink.service.GetInfo");
    reveal_strlit("org.varlink.service.GetInterfaceDescription");
    assert(request.method@[0] == 'i');
    assert("org.varlink.service.GetInfo"@[0] == 'o');
    assert("org.varlink.service.GetInterfaceDescription"@[0] == 'o');
}

/// Every other request: one that asks for more answers or for none is irregular, two methods of the
/// protocol are served to everyone, and no other interface is known.
pub proof fn other_requests_are_refused(request: Request, admin: bool)
    ensures
        request.more || request.oneway ==> routed(request, admin) == Routing::Irregular,
        !request.more && !request.oneway ==> {
            &&& request.method@ == "org.varlink.service.GetInfo"@ ==> served(
                request,
                admin,
                Method::GetInfo,
            )
            &&& request.method@ == "org.varlink.service.GetInterfaceDescription"@ ==> served(
                request,
                admin,
                Method::GetInterfaceDescription,
            )
            &&& request.method@ != "org.varlink.service.GetInfo"@ && request.method@
                != "org.varlink.service.GetInterfaceDescription"@
                && !"io.github.railwatch.Monitor1."@.is_prefix_of(request.method@) ==> routed(
                request,
                admin,
            ) == Routing::UnknownInterface
        },
{
    reveal_strlit("org.varlink.service.GetInfo");
    reveal_strlit("org.varlink.service.GetInterfaceDescription");
}

/// Without the control socket nothing is acknowledged, no price and no policy is set, and no supply is
/// asked; a method is for the control socket if and only if it is one of these.
pub proof fn reading_changes_nothing(request: Request, method: Method)
    ensures
        served(request, false, method) ==> method != Method::Acknowledge && method
            != Method::SetTariff && method != Method::SetPolicy && method != Method::Inspect,
        method.controls() <==> method == Method::Acknowledge || method == Method::SetTariff
            || method == Method::SetPolicy || method == Method::Inspect,
{
}

/// A reading is as old as the time since it was taken. A snapshot is stale if and only if there is no
/// connection, no reading, or one that is older than three and a half seconds.
pub proof fn readings_are_stale_after_a_while(s: SnapshotModel, now_ms: u64)
    ensures
        age(s, now_ms) is None <==> s.telemetry is None,
        s.telemetry matches Some(t) ==> age(s, now_ms) == Some(
            if now_ms >= t.monotonic_ms {
                now_ms - t.monotonic_ms
            } else {
                0
            },
        ),
        is_stale(s, now_ms) <==> !s.connected || s.telemetry is None || (s.telemetry matches Some(t)
            && now_ms - t.monotonic_ms > 3500),
{
}

/// An acknowledgement reaches the incidents with its name and no other, and changes nothing else of them.
pub proof fn acknowledgements_are_for_one_name(
    list: Seq<IncidentModel>,
    id: Seq<char>,
    at_ms: i64,
    i: int,
)
    requires
        0 <= i < list.len(),
    ensures
        acknowledged(list, id, at_ms).len() == list.len(),
        list[i].id != id ==> acknowledged(list, id, at_ms)[i] == list[i],
        list[i].id == id ==> acknowledged(list, id, at_ms)[i] == (IncidentModel {
            acknowledged_at_ms: Some(at_ms),
            ..list[i]
        }),
{
}

} // verus!
