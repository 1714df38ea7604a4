//! Recognising a supply, accepting its replies, and composing one reading from its groups.
use crate::bounded;
use crate::model::{self, DeviceInfo, DeviceModel, Family, Fan, FaultSnapshot, Rail, RailModel, Telemetry, TelemetryModel};
use crate::protocol;
use crate::text;
use crate::wire;
use vstd::prelude::*;
use vstd::string::StringExecFns;
use vstd::utf8::*;

verus! {

/// A supply that was found on the bus.
#[derive(Debug)]
pub struct Discovery {
    pub path: String,
    pub pid: u16,
    pub model: String,
    pub driver: String,
}

/// The product number and name of a supported supply, from the properties of its bus device.
///
/// The identity is the second and third of three hexadecimal fields.
pub open spec fn identity(uevent: Seq<char>) -> Option<(u16, Seq<char>)> {
    match text::field_line(text::lines(uevent), "HID_ID="@) {
        None => None,
        Some(id) => {
            let parts = text::pieces(id, ':');
            if parts.len() != 3 {
                None
            } else {
                match (text::hex16_value(parts[1]), text::hex16_value(parts[2])) {
                    (Some(vendor), Some(pid)) => if vendor == wire::VID && model::family_of(
                        pid as u16,
                    ) is Some {
                        Some(
                            (
                                pid as u16,
                                match text::field_line(text::lines(uevent), "HID_NAME="@) {
                                    Some(name) => name,
                                    None => "MSI PSU"@,
                                },
                            ),
                        )
                    } else {
                        None
                    },
                    _ => None,
                }
            }
        },
    }
}

/// Recognises a supported supply by the properties of its bus device.
pub fn identify(uevent: &str) -> (found: Option<(u16, String)>)
    ensures
        match found {
            Some((pid, name)) => identity(uevent@) == Some((pid, name@)),
            None => identity(uevent@) is None,
        },
{
    let id = match text::field(uevent, "HID_ID=") {
        Some(id) => id,
        None => {
            return None;
        },
    };
    let parts = text::split(id.as_str(), ':');
    let ghost fields = parts.deep_view();
    if parts.len() != 3 {
        return None;
    }
    assert(fields[1] == parts@[1]@ && fields[2] == parts@[2]@);
    let vendor: u16 = match text::parse_hex16(parts[1].as_str()) {
        Some(v) => v,
        None => {
            return None;
        },
    };
    let pid: u16 = match text::parse_hex16(parts[2].as_str()) {
        Some(v) => v,
        None => {
            return None;
        },
    };
    if vendor != wire::VID || model::family(pid).is_none() {
        return None;
    }
    let name = match text::field(uevent, "HID_NAME=") {
        Some(name) => name,
        None => "MSI PSU".to_owned(),
    };
    Some((pid, name))
}

/// Why a supply was not opened.
#[derive(Debug)]
pub enum OpenError {
    /// There is not exactly one candidate.
    Candidates(usize),
    /// The telemetry of the model has no qualified layout.
    Unqualified,
    /// Another driver than the generic one owns the device.
    ForeignDriver(String),
    /// The device did not introduce itself as expected.
    Handshake,
    /// The serial number does not fit in its report.
    SerialLength,
    /// The serial number is not text, with the words in which its bytes were refused.
    SerialText(String),
    /// A report was refused.
    Report(wire::Error),
}

impl OpenError {
    /// The words in which an error is reported.
    pub open spec fn words(self) -> Seq<char> {
        match self {
            OpenError::Candidates(n) =>
                "select exactly one supported PSU with --device; found "@ + text::decimal(n as nat),
            OpenError::Unqualified =>
                "model is detected but its telemetry layout is not yet qualified"@,
            OpenError::ForeignDriver(driver) => "PSU has driver "@ + driver@
                + "; use its kernel backend instead of concurrent raw access"@,
            OpenError::Handshake => "unexpected handshake identity"@,
            OpenError::SerialLength => "invalid serial length"@,
            OpenError::SerialText(refusal) => refusal@,
            OpenError::Report(e) => e.words(),
        }
    }

    /// The words in which an error is reported.
    pub fn message(&self) -> (words: String)
        ensures
            words@ == self.words(),
    {
        match self {
            OpenError::Candidates(n) => {
                let mut words = "select exactly one supported PSU with --device; found ".to_owned();
                text::push_decimal(&mut words, *n as u128);
                words
            },
            OpenError::Unqualified =>
                "model is detected but its telemetry layout is not yet qualified".to_owned(),
            OpenError::ForeignDriver(driver) => {
                let mut words = text::joined("PSU has driver ", driver.as_str());
                words.append("; use its kernel backend instead of concurrent raw access");
                words
            },
            OpenError::Handshake => "unexpected handshake identity".to_owned(),
            OpenError::SerialLength => "invalid serial length".to_owned(),
            OpenError::SerialText(refusal) => refusal.clone(),
            OpenError::Report(e) => e.message().to_owned(),
        }
    }
}

/// Checks that there is one candidate, of a qualified family, that only the generic driver holds.
pub fn qualify(candidates: &Vec<Discovery>) -> (r: Result<(), OpenError>)
    ensures
        match r {
            Ok(_) => candidates@.len() == 1 && model::family_of(candidates@[0].pid) == Some(
                Family::Ts,
            ) && candidates@[0].driver@ == "hid-generic"@,
            Err(OpenError::Candidates(n)) => n == candidates@.len() && n != 1,
            Err(OpenError::Unqualified) => candidates@.len() == 1 && model::family_of(
                candidates@[0].pid,
            ) != Some(Family::Ts),
            Err(OpenError::ForeignDriver(driver)) => candidates@.len() == 1 && model::family_of(
                candidates@[0].pid,
            ) == Some(Family::Ts) && driver@ == candidates@[0].driver@ && driver@
                != "hid-generic"@,
            Err(_) => false,
        },
{
    if candidates.len() != 1 {
        return Err(OpenError::Candidates(candidates.len()));
    }
    match model::family(candidates[0].pid) {
        Some(Family::Ts) => {},
        _ => {
            return Err(OpenError::Unqualified);
        },
    }
    if candidates[0].driver != "hid-generic".to_owned() {
        return Err(OpenError::ForeignDriver(candidates[0].driver.clone()));
    }
    Ok(())
}

/// The bytes with which a supply introduces itself.
pub open spec fn greeting() -> Seq<u8> {
    seq![77u8, 80, 71, 32]
}

/// Checks the reply to the handshake.
pub fn check_handshake(reply: &[u8]) -> (r: Result<(), OpenError>)
    ensures
        match wire::payload(reply@, 0xfa, wire::READ, 62) {
            Err(e) => r matches Err(OpenError::Report(f)) && f == e,
            Ok(body) => if greeting().is_prefix_of(body) {
                r is Ok
            } else {
                r matches Err(OpenError::Handshake)
            },
        },
{
    match wire::response(reply, 0xfa, wire::READ, 62) {
        Err(e) => Err(OpenError::Report(e)),
        Ok(body) => {
            if body[0] == 77 && body[1] == 80 && body[2] == 71 && body[3] == 32 {
                assert(greeting() =~= body@.subrange(0, 4));
                Ok(())
            } else {
                proof {
                    if greeting().is_prefix_of(body@) {
                        assert(body@.subrange(0, 4)[0] == 77);
                        assert(body@.subrange(0, 4)[1] == 80);
                        assert(body@.subrange(0, 4)[2] == 71);
                        assert(body@.subrange(0, 4)[3] == 32);
                    }
                }
                Err(OpenError::Handshake)
            }
        },
    }
}

/// The words in which `String::from_utf8` refuses some bytes that are not valid UTF-8.
pub uninterp spec fn utf8_refusal(bytes: Seq<u8>) -> Seq<char>;

/// The text of some bytes, from `String::from_utf8`, where they are valid UTF-8, and else the text
/// of its `FromUtf8Error`.
#[verifier::external_body]
fn utf8_text(bytes: &[u8]) -> (decoded: Result<String, String>)
    ensures
        match decoded {
            Ok(t) => valid_utf8(bytes@) && t@ == decode_utf8(bytes@),
            Err(refusal) => !valid_utf8(bytes@) && refusal@ == utf8_refusal(bytes@),
        },
{
    String::from_utf8(bytes.to_vec()).map_err(|e| e.to_string())
}

/// What `String::from_utf8_lossy` makes of some bytes.
pub uninterp spec fn lossy_text(bytes: Seq<u8>) -> Seq<char>;

/// The text of some bytes, from `String::from_utf8_lossy`.
///
/// Valid UTF-8 is decoded as it is; how the rest is replaced is left to the name.
#[verifier::external_body]
fn lossy(bytes: &[u8]) -> (decoded: String)
    ensures
        decoded@ == lossy_text(bytes@),
        valid_utf8(bytes@) ==> decoded@ == decode_utf8(bytes@),
{
    String::from_utf8_lossy(bytes).into_owned()
}

/// The bytes of a serial number in the payload that holds it: a length and as many bytes.
pub open spec fn serial_bytes(p: Seq<u8>) -> Option<Seq<u8>> {
    if p[0] <= 61 {
        Some(p.subrange(1, 1 + p[0]))
    } else {
        None
    }
}

/// Reads the serial number from its report.
pub fn serial_number(reply: &[u8]) -> (r: Result<String, OpenError>)
    ensures
        match wire::payload(reply@, wire::READ, 0x13, 62) {
            Err(e) => r matches Err(OpenError::Report(f)) && f == e,
            Ok(p) => match serial_bytes(p) {
                None => r matches Err(OpenError::SerialLength),
                Some(bytes) => if valid_utf8(bytes) {
                    r matches Ok(serial) && serial@ == text::without_white_start(
                        text::without_white_end(text::without_nuls(decode_utf8(bytes))),
                    )
                } else {
                    r matches Err(OpenError::SerialText(refusal)) && refusal@ == utf8_refusal(bytes)
                },
            },
        },
{
    let p = match wire::response(reply, wire::READ, 0x13, 62) {
        Ok(p) => p,
        Err(e) => {
            return Err(OpenError::Report(e));
        },
    };
    let n: usize = p[0] as usize;
    if n > 61 {
        return Err(OpenError::SerialLength);
    }
    let bytes = vstd::slice::slice_subrange(p, 1, 1 + n);
    match utf8_text(bytes) {
        Ok(serial) => Ok(text::unpadded(serial.as_str())),
        Err(refusal) => Err(OpenError::SerialText(refusal)),
    }
}

/// Reads the revision from its report.
pub fn revision(reply: &[u8]) -> (r: Result<String, OpenError>)
    ensures
        match wire::payload(reply@, wire::READ, 0x12, 2) {
            Err(e) => r matches Err(OpenError::Report(f)) && f == e,
            Ok(p) => r matches Ok(name) && name@ == lossy_text(p),
        },
{
    match wire::response(reply, wire::READ, 0x12, 2) {
        Ok(p) => Ok(lossy(p)),
        Err(e) => Err(OpenError::Report(e)),
    }
}

/// The stable name of a supply: its product number, and its serial number or else its node.
pub open spec fn device_name(pid: u16, serial: Seq<char>, node: Seq<char>) -> Seq<char> {
    "msi-"@ + text::hex4(pid) + "-"@ + if serial.len() > 0 {
        serial
    } else {
        node
    }
}

/// The stable name of a supply.
pub fn device_id(pid: u16, serial: &str, node: &str) -> (id: String)
    ensures
        id@ == device_name(pid, serial@, node@),
{
    let mut id = "msi-".to_owned();
    text::push_hex4(&mut id, pid);
    id.append("-");
    if serial.is_empty() {
        id.append(node);
    } else {
        id.append(serial);
    }
    id
}

/// What becomes of input that arrived during a transaction.
#[derive(Debug, Clone, Copy, PartialEq, Eq, Structural)]
pub enum Reply {
    /// It answers the outstanding command.
    Accepted,
    /// It answers another command and is passed over.
    Unrelated,
}

/// Why a transaction failed.
#[derive(Debug, Clone, Copy, PartialEq, Eq, Structural)]
pub enum ExchangeError {
    /// The device is gone.
    Disconnected,
    /// The device answered with its busy sentinel.
    Busy(u8),
    /// The input has neither of the two accepted lengths.
    Report(wire::Error),
    /// No reply arrived in time.
    TimedOut(u8),
}

impl ExchangeError {
    /// The words in which an error is reported.
    pub open spec fn words(self) -> Seq<char> {
        match self {
            ExchangeError::Disconnected => "PSU disconnected"@,
            ExchangeError::Busy(command) =>
                "device returned busy/error sentinel for command 0x"@ + text::hex(command as nat),
            ExchangeError::Report(e) => e.words(),
            ExchangeError::TimedOut(command) => "command 0x"@ + text::hex(command as nat)
                + " timed out; write outcome may be unknown"@,
        }
    }

    /// The words in which an error is reported.
    pub fn message(&self) -> (words: String)
        ensures
            words@ == self.words(),
    {
        match self {
            ExchangeError::Disconnected => "PSU disconnected".to_owned(),
            ExchangeError::Busy(command) => {
                let mut words =
                    "device returned busy/error sentinel for command 0x".to_owned();
                text::push_hex(&mut words, *command);
                words
            },
            ExchangeError::Report(e) => e.message().to_owned(),
            ExchangeError::TimedOut(command) => {
                let mut words = "command 0x".to_owned();
                text::push_hex(&mut words, *command);
                words.append(" timed out; write outcome may be unknown");
                words
            },
        }
    }
}

/// What input means for an outstanding command.
pub open spec fn reply_verdict(input: Seq<u8>, opcode: u8, command: u8) -> Result<
    Reply,
    ExchangeError,
> {
    if input.len() == 0 {
        Err(ExchangeError::Disconnected)
    } else {
        match wire::report_body(input) {
            Err(e) => Err(ExchangeError::Report(e)),
            Ok(body) => if body[0] != opcode || body[1] != command {
                Ok(Reply::Unrelated)
            } else if wire::is_busy(body) {
                Err(ExchangeError::Busy(command))
            } else {
                Ok(Reply::Accepted)
            },
        }
    }
}

/// Judges input that arrived while a command is outstanding.
pub fn judge_reply(input: &[u8], opcode: u8, command: u8) -> (r: Result<Reply, ExchangeError>)
    ensures
        r == reply_verdict(input@, opcode, command),
{
    if input.len() == 0 {
        return Err(ExchangeError::Disconnected);
    }
    match wire::normalize(input) {
        Err(e) => Err(ExchangeError::Report(e)),
        Ok(body) => if body[0] != opcode || body[1] != command {
            Ok(Reply::Unrelated)
        } else if wire::busy_pattern(body) {
            Err(ExchangeError::Busy(command))
        } else {
            Ok(Reply::Accepted)
        },
    }
}

/// How many stale inputs are read before a request is sent.
pub const STALE_READS: u32 = 32;

/// How long a reply is waited for, in milliseconds.
pub const REPLY_MS: u64 = 400;

/// What a read of stale input found.
#[derive(Debug, Clone, Copy, PartialEq, Eq, Structural)]
pub enum Drained {
    /// There is none left.
    Nothing,
    /// There was some.
    Input,
    /// The device is gone.
    Ended,
}

/// How many stale inputs were read, while more are to be read; then the request is sent.
pub fn drain(read: u32, found: Drained) -> (r: Result<Option<u32>, ExchangeError>)
    requires
        read < STALE_READS,
    ensures
        r == match found {
            Drained::Nothing => Ok::<Option<u32>, ExchangeError>(None),
            Drained::Input => if read + 1 < STALE_READS {
                Ok(Some((read + 1) as u32))
            } else {
                Ok(None)
            },
            Drained::Ended => Err(ExchangeError::Disconnected),
        },
{
    match found {
        Drained::Nothing => Ok(None),
        Drained::Input => if read + 1 < STALE_READS {
            Ok(Some(read + 1))
        } else {
            Ok(None)
        },
        Drained::Ended => Err(ExchangeError::Disconnected),
    }
}

/// What happened while a reply was waited for.
#[derive(Debug)]
pub enum Waited {
    /// The time is over.
    TimedOut,
    /// The wait was interrupted, or there was nothing to read after all.
    Interrupted,
    /// The device is gone.
    HungUp,
    /// Input arrived.
    Input(Vec<u8>),
}

/// What becomes of a transaction after a wait: an accepted reply ends it, and whatever is unrelated
/// is waited out.
pub fn advance_exchange(event: &Waited, opcode: u8, command: u8) -> (r: Result<
    Reply,
    ExchangeError,
>)
    ensures
        r == match event {
            Waited::TimedOut => Err::<Reply, ExchangeError>(ExchangeError::TimedOut(command)),
            Waited::Interrupted => Ok(Reply::Unrelated),
            Waited::HungUp => Err(ExchangeError::Disconnected),
            Waited::Input(bytes) => reply_verdict(bytes@, opcode, command),
        },
{
    match event {
        Waited::TimedOut => Err(ExchangeError::TimedOut(command)),
        Waited::Interrupted => Ok(Reply::Unrelated),
        Waited::HungUp => Err(ExchangeError::Disconnected),
        Waited::Input(bytes) => judge_reply(bytes.as_slice(), opcode, command),
    }
}

/// An accepted reply always has a payload of any length that fits.
pub proof fn accepted_replies_have_payloads(input: Seq<u8>, opcode: u8, command: u8, length: nat)
    requires
        reply_verdict(input, opcode, command) == Ok::<Reply, ExchangeError>(Reply::Accepted),
        length <= wire::MAX_PAYLOAD,
    ensures
        wire::payload(input, opcode, command, length) is Ok,
{
}

/// How many replies are kept for diagnosis.
pub const CAPTURE_LIMIT: usize = 64;

/// Keeps a reply for diagnosis, and forgets the oldest one beyond the limit.
pub fn capture(captures: &mut Vec<(u8, Vec<u8>)>, command: u8, reply: Vec<u8>)
    ensures
        final(captures)@ == bounded::pushed(old(captures)@, (command, reply), CAPTURE_LIMIT as int),
{
    bounded::push_bounded(captures, (command, reply), CAPTURE_LIMIT);
}

/// The groups of a reading that may fail on their own; absence never means normal.
#[derive(Debug, Clone, Copy, PartialEq, Eq, Structural)]
pub enum Group {
    Alerts,
    Safeguards,
    FanDuty,
    FanSetting,
    SessionTime,
    Lifetime,
}

/// The names of the alarms that are set among the first `n`.
pub open spec fn set_names(p: Seq<u8>, n: nat) -> Seq<Seq<char>>
    decreases n,
{
    if n == 0 {
        Seq::empty()
    } else if p[n - 1] != 0 {
        set_names(p, (n - 1) as nat).push(protocol::alert_name(n - 1))
    } else {
        set_names(p, (n - 1) as nat)
    }
}

/// The duties and the flag of a fan payload are within their ranges.
pub open spec fn duty_is_valid(p: Seq<u8>) -> bool {
    p[0] <= 100 && p[1] <= 100 && p[2] <= 100 && p[3] <= 1
}

/// A reading with one more group that could not be read.
pub open spec fn with_group_error(t: TelemetryModel, error: Seq<char>) -> TelemetryModel {
    TelemetryModel { group_errors: t.group_errors.push(error), ..t }
}

impl Group {
    /// The command that reads the group.
    pub open spec fn code(self) -> u8 {
        match self {
            Group::Alerts => 0xe1,
            Group::Safeguards => 0xc1,
            Group::FanDuty => 0x42,
            Group::FanSetting => 0x41,
            Group::SessionTime => 0xd0,
            Group::Lifetime => 0xd1,
        }
    }

    /// The length of the group's payload.
    pub open spec fn size(self) -> nat {
        match self {
            Group::Alerts => 18,
            Group::Safeguards => 42,
            Group::FanDuty => 4,
            Group::FanSetting => 3,
            Group::SessionTime => 4,
            Group::Lifetime => 4,
        }
    }

    /// The name under which a failure of the group is noted.
    pub open spec fn label(self) -> Seq<char> {
        match self {
            Group::Alerts => "hardware_alerts: "@,
            Group::Safeguards => "safeguards: "@,
            Group::FanDuty => "fan_duty: "@,
            Group::FanSetting => "fan_setting: "@,
            Group::SessionTime => "runtime_d0: "@,
            Group::Lifetime => "runtime_d1: "@,
        }
    }

    /// The command that reads the group.
    pub fn command(self) -> (code: u8)
        ensures
            code == self.code(),
    {
        match self {
            Group::Alerts => 0xe1,
            Group::Safeguards => 0xc1,
            Group::FanDuty => 0x42,
            Group::FanSetting => 0x41,
            Group::SessionTime => 0xd0,
            Group::Lifetime => 0xd1,
        }
    }

    /// A reading before and after it took in the group's payload.
    pub open spec fn absorbed(self, before: TelemetryModel, after: TelemetryModel, p: Seq<u8>) -> bool {
        match self {
            Group::Alerts => after == (TelemetryModel {
                alerts_raw: p,
                alert_names: set_names(p, 18),
                ..before
            }),
            Group::Safeguards => {
                &&& after == (TelemetryModel { safeguards: after.safeguards, ..before })
                &&& after.safeguards.len() == 2
                &&& protocol::fault_shows(after.safeguards[0], p, 0)
                &&& protocol::fault_shows(after.safeguards[1], p, 21)
            },
            Group::FanDuty => after == if duty_is_valid(p) {
                TelemetryModel {
                    fan: Fan {
                        actual_duty_percent: Some(p[0]),
                        calculated_duty_percent: Some(p[1]),
                        requested_duty_percent: Some(p[2]),
                        zero_fan: Some(p[3] == 1),
                        ..before.fan
                    },
                    ..before
                }
            } else {
                with_group_error(before, "invalid fan duty"@)
            },
            Group::FanSetting => after == (TelemetryModel {
                fan: Fan { mode_raw: Some(p[0]), ..before.fan },
                ..before
            }),
            Group::SessionTime => after == (TelemetryModel {
                session_seconds: Some(wire::le32(p, 0)),
                ..before
            }),
            Group::Lifetime => after == (TelemetryModel {
                lifetime_seconds: Some(wire::le32(p, 0)),
                ..before
            }),
        }
    }
}

/// Notes that a group could not be read.
fn note_group_error(t: &mut Telemetry, label: &str, error: &str)
    ensures
        final(t)@ == with_group_error(old(t)@, label@ + error@),
{
    let ghost before = t@;
    t.group_errors.push(text::joined(label, error));
    assert(t@.group_errors =~= before.group_errors.push(label@ + error@));
}

/// The names of the alarms that are set.
fn names_of(p: &[u8]) -> (names: Vec<String>)
    requires
        p@.len() == 18,
    ensures
        names.deep_view() == set_names(p@, 18),
{
    let mut names: Vec<String> = Vec::new();
    let mut i: usize = 0;
    assert(names.deep_view() =~= set_names(p@, 0));
    while i < protocol::ALERT_COUNT
        invariant
            i <= protocol::ALERT_COUNT,
            p@.len() == 18,
            names.deep_view() == set_names(p@, i as nat),
        decreases protocol::ALERT_COUNT - i,
    {
        if p[i] != 0 {
            let ghost before = names.deep_view();
            names.push(protocol::TS_ALERTS[i].to_owned());
            assert(names.deep_view() =~= before.push(protocol::alert_name(i as int)));
        }
        i = i + 1;
    }
    names
}

/// Takes the reply of a group into a reading. A failed read is noted; a foreign reply is refused.
pub fn apply_group(t: &mut Telemetry, group: Group, reply: &Result<Vec<u8>, String>) -> (r:
    wire::Result<()>)
    ensures
        match reply {
            Err(error) => r is Ok && final(t)@ == with_group_error(
                old(t)@,
                group.label() + error@,
            ),
            Ok(bytes) => match wire::payload(bytes@, wire::READ, group.code(), group.size()) {
                Err(e) => r == Err::<(), wire::Error>(e) && final(t)@ == old(t)@,
                Ok(p) => r is Ok && group.absorbed(old(t)@, final(t)@, p),
            },
        },
{
    let ghost before = t@;
    match group {
        Group::Alerts => match reply {
            Err(error) => {
                note_group_error(t, "hardware_alerts: ", error.as_str());
                Ok(())
            },
            Ok(bytes) => match wire::response(bytes.as_slice(), wire::READ, 0xe1, 18) {
                Err(e) => Err(e),
                Ok(p) => {
                    t.alerts_raw = vstd::slice::slice_to_vec(p);
                    t.alert_names = names_of(p);
                    assert(t@ == (TelemetryModel {
                        alerts_raw: p@,
                        alert_names: set_names(p@, 18),
                        ..before
                    }));
                    Ok(())
                },
            },
        },
        Group::Safeguards => match reply {
            Err(error) => {
                note_group_error(t, "safeguards: ", error.as_str());
                Ok(())
            },
            Ok(bytes) => match protocol::decode_safeguards(bytes.as_slice()) {
                Err(e) => Err(e),
                Ok(safeguards) => {
                    t.safeguards = safeguards;
                    Ok(())
                },
            },
        },
        Group::FanDuty => match reply {
            Err(error) => {
                note_group_error(t, "fan_duty: ", error.as_str());
                Ok(())
            },
            Ok(bytes) => match wire::response(bytes.as_slice(), wire::READ, 0x42, 4) {
                Err(e) => Err(e),
                Ok(p) => {
                    if p[0] <= 100 && p[1] <= 100 && p[2] <= 100 && p[3] <= 1 {
                        t.fan.actual_duty_percent = Some(p[0]);
                        t.fan.calculated_duty_percent = Some(p[1]);
                        t.fan.requested_duty_percent = Some(p[2]);
                        t.fan.zero_fan = Some(p[3] == 1);
                    } else {
                        t.group_errors.push("invalid fan duty".to_owned());
                        assert(t@.group_errors =~= before.group_errors.push("invalid fan duty"@));
                    }
                    Ok(())
                },
            },
        },
        Group::FanSetting => match reply {
            Err(error) => {
                note_group_error(t, "fan_setting: ", error.as_str());
                Ok(())
            },
            Ok(bytes) => match wire::response(bytes.as_slice(), wire::READ, 0x41, 3) {
                Err(e) => Err(e),
                Ok(p) => {
                    t.fan.mode_raw = Some(p[0]);
                    Ok(())
                },
            },
        },
        Group::SessionTime => match reply {
            Err(error) => {
                note_group_error(t, "runtime_d0: ", error.as_str());
                Ok(())
            },
            Ok(bytes) => match wire::response(bytes.as_slice(), wire::READ, 0xd0, 4) {
                Err(e) => Err(e),
                Ok(p) => {
                    t.session_seconds = Some(wire::read_le32(p, 0));
                    Ok(())
                },
            },
        },
        Group::Lifetime => match reply {
            Err(error) => {
                note_group_error(t, "runtime_d1: ", error.as_str());
                Ok(())
            },
            Ok(bytes) => match wire::response(bytes.as_slice(), wire::READ, 0xd1, 4) {
                Err(e) => Err(e),
                Ok(p) => {
                    t.lifetime_seconds = Some(wire::read_le32(p, 0));
                    Ok(())
                },
            },
        },
    }
}

/// A connector's protection that recorded nothing but `status`.
pub open spec fn recorded(s: FaultSnapshot, status: u8) -> bool {
    &&& s.status_raw == status
    &&& s.runtime_seconds == 0
    &&& s.lifetime_seconds == 0
    &&& s.currents_ma@ == seq![0i64, 0, 0, 0, 0, 0]
}

/// The rails of the simulator.
pub open spec fn simulated_rails() -> Seq<RailModel> {
    seq![
        RailModel { label: "12V"@, voltage_mv: 12090, current_ma: 18000 },
        RailModel { label: "5V"@, voltage_mv: 5020, current_ma: 6000 },
        RailModel { label: "3.3V"@, voltage_mv: 3320, current_ma: 1000 },
    ]
}

/// The currents of the simulator's loaded connector.
pub open spec fn simulated_currents(fault: bool) -> Seq<i64> {
    if fault {
        seq![0i64, 3000, 3000, 3000, 3000, 3000]
    } else {
        seq![2000i64, 2100, 1900, 2000, 2000, 2000]
    }
}

/// A reading of the simulator, not yet timed.
pub open spec fn simulates(t: TelemetryModel, sequence: u64, fault: bool) -> bool {
    &&& t.device_id == "demo-ai1600ts"@
    &&& t.session_id.len() == 0
    &&& t.sequence == sequence
    &&& t.captured_at_ms == 0
    &&& t.monotonic_ms == 0
    &&& t.power_uw == 250_000_000 + (sequence % 40) * 1_000_000
    &&& t.efficiency_millipercent == 90_000
    &&& t.temperature_mc == 52_000
    &&& t.rails == simulated_rails()
    &&& t.connector_currents_ma.len() == 2
    &&& t.connector_currents_ma[0]@ == seq![0i64, 0, 0, 0, 0, 0]
    &&& t.connector_currents_ma[1]@ == simulated_currents(fault)
    &&& t.fan == (Fan {
        rpm: 700,
        mode_raw: Some(0),
        requested_duty_percent: Some(35),
        actual_duty_percent: Some(35),
        calculated_duty_percent: Some(35),
        zero_fan: Some(false),
    })
    &&& t.alerts_raw == Seq::new(
        18,
        |i: int|
            if i == 9 && fault {
                1u8
            } else {
                0u8
            },
    )
    &&& t.alert_names == if fault {
        seq![protocol::alert_name(9)]
    } else {
        Seq::empty()
    }
    &&& t.safeguards.len() == 2
    &&& recorded(t.safeguards[0], 0)
    &&& recorded(
        t.safeguards[1],
        if fault {
            2
        } else {
            0
        },
    )
    &&& t.session_seconds is None
    &&& t.lifetime_seconds is None
    &&& t.input_voltage_mv is None
    &&& t.group_errors.len() == 0
}

/// A rail of the simulator.
fn simulated_rail(label: &str, voltage_mv: i64, current_ma: i64) -> (rail: Rail)
    ensures
        rail@ == (RailModel { label: label@, voltage_mv, current_ma }),
{
    Rail { label: label.to_owned(), voltage_mv, current_ma }
}

/// A reading of the simulator: a steady load, or one conductor without its share.
pub fn simulated_sample(sequence: u64, fault: bool) -> (t: Telemetry)
    ensures
        simulates(t@, sequence, fault),
{
    let rails: Vec<Rail> = vec![
        simulated_rail("12V", 12090, 18000),
        simulated_rail("5V", 5020, 6000),
        simulated_rail("3.3V", 3320, 1000),
    ];
    assert(rails.deep_view() =~= simulated_rails());
    let loaded: [i64; 6] = if fault {
        [0, 3000, 3000, 3000, 3000, 3000]
    } else {
        [2000, 2100, 1900, 2000, 2000, 2000]
    };
    assert(loaded@ =~= simulated_currents(fault));
    let unloaded: [i64; 6] = [0, 0, 0, 0, 0, 0];
    assert(unloaded@ =~= seq![0i64, 0, 0, 0, 0, 0]);
    let connector_currents_ma: Vec<[i64; 6]> = vec![unloaded, loaded];
    let alarm: u8 = if fault {
        1
    } else {
        0
    };
    let alerts_raw: Vec<u8> = vec![0, 0, 0, 0, 0, 0, 0, 0, 0, alarm, 0, 0, 0, 0, 0, 0, 0, 0];
    assert(alerts_raw@ =~= Seq::new(
        18,
        |i: int|
            if i == 9 && fault {
                1u8
            } else {
                0u8
            },
    ));
    let mut alert_names: Vec<String> = Vec::new();
    if fault {
        alert_names.push(protocol::TS_ALERTS[9].to_owned());
        assert(alert_names.deep_view() =~= seq![protocol::alert_name(9)]);
    } else {
        assert(alert_names.deep_view() =~= Seq::<Seq<char>>::empty());
    }
    let safeguards: Vec<FaultSnapshot> = vec![
        FaultSnapshot {
            status_raw: 0,
            runtime_seconds: 0,
            lifetime_seconds: 0,
            currents_ma: unloaded,
        },
        FaultSnapshot {
            status_raw: if fault {
                2
            } else {
                0
            },
            runtime_seconds: 0,
            lifetime_seconds: 0,
            currents_ma: unloaded,
        },
    ];
    Telemetry {
        device_id: "demo-ai1600ts".to_owned(),
        session_id: String::new(),
        sequence,
        captured_at_ms: 0,
        monotonic_ms: 0,
        power_uw: 250_000_000 + (sequence % 40) as i64 * 1_000_000,
        efficiency_millipercent: 90_000,
        temperature_mc: 52_000,
        rails,
        connector_currents_ma,
        fan: Fan {
            rpm: 700,
            mode_raw: Some(0),
            requested_duty_percent: Some(35),
            actual_duty_percent: Some(35),
            calculated_duty_percent: Some(35),
            zero_fan: Some(false),
        },
        alerts_raw,
        alert_names,
        safeguards,
        session_seconds: None,
        lifetime_seconds: None,
        input_voltage_mv: None,
        group_errors: Vec::new(),
    }
}

/// A supply that was opened, as it is described to clients.
pub open spec fn described(
    d: Discovery,
    serial: Seq<char>,
    revision: Seq<char>,
    node: Seq<char>,
) -> DeviceModel {
    DeviceModel {
        id: device_name(d.pid, serial, node),
        model: d.model@,
        pid: d.pid,
        serial: Some(serial),
        revision: Some(revision),
        path: d.path@,
        backend: "hidraw"@,
        simulated: false,
        capabilities: seq![
            "telemetry"@,
            "conductor_currents"@,
            "hardware_alerts"@,
            "device_diagnostics"@,
        ],
    }
}

/// Describes a supply that was opened; `node` is the last part of its path.
pub fn describe(d: &Discovery, serial: String, revision: String, node: &str) -> (info: DeviceInfo)
    ensures
        info@ == described(*d, serial@, revision@, node@),
{
    let capabilities: Vec<String> = vec![
        "telemetry".to_owned(),
        "conductor_currents".to_owned(),
        "hardware_alerts".to_owned(),
        "device_diagnostics".to_owned(),
    ];
    assert(capabilities.deep_view() =~= seq![
        "telemetry"@,
        "conductor_currents"@,
        "hardware_alerts"@,
        "device_diagnostics"@,
    ]);
    DeviceInfo {
        id: device_id(d.pid, serial.as_str(), node),
        model: d.model.clone(),
        pid: d.pid,
        serial: Some(serial),
        revision: Some(revision),
        path: d.path.clone(),
        backend: "hidraw".to_owned(),
        simulated: false,
        capabilities,
    }
}

/// The groups in the order in which they are read.
pub open spec fn group_at(step: int) -> Option<Group> {
    if step == 0 {
        Some(Group::Alerts)
    } else if step == 1 {
        Some(Group::Safeguards)
    } else if step == 2 {
        Some(Group::FanDuty)
    } else if step == 3 {
        Some(Group::FanSetting)
    } else if step == 4 {
        Some(Group::SessionTime)
    } else if step == 5 {
        Some(Group::Lifetime)
    } else {
        None
    }
}

/// A reading in progress.
#[derive(Debug)]
pub struct Poll {
    pub telemetry: Telemetry,
    /// How many groups were read.
    pub step: usize,
}

impl Poll {
    /// Begins a reading with the report of the rails.
    pub fn begin(report: &[u8], device_id: &str, captured_at_ms: i64, monotonic_ms: u64) -> (r: Result<
        Poll,
        protocol::DecodeError,
    >)
        ensures
            match wire::payload(report@, wire::READ, 0xe0, 44) {
                Err(e) => r matches Err(f) && f == protocol::DecodeError::Report(e),
                Ok(d) => if wire::plausible(d) {
                    &&& r matches Ok(poll)
                    &&& poll.step == 0
                    &&& exists|bare: TelemetryModel|
                        #[trigger] protocol::shows(bare, d) && poll.telemetry@ == (TelemetryModel {
                            device_id: device_id@,
                            captured_at_ms,
                            monotonic_ms,
                            ..bare
                        })
                } else {
                    r matches Err(f) && f == protocol::DecodeError::Report(
                        wire::Error::ImplausibleTelemetry,
                    )
                },
            },
    {
        match protocol::decode_telemetry(report, Family::Ts) {
            Err(e) => Err(e),
            Ok(mut t) => {
                let ghost bare = t@;
                t.device_id = device_id.to_owned();
                t.captured_at_ms = captured_at_ms;
                t.monotonic_ms = monotonic_ms;
                proof {
                    assert(protocol::shows(bare, wire::payload(report@, wire::READ, 0xe0, 44)->Ok_0));
                    assert(t@ == (TelemetryModel {
                        device_id: device_id@,
                        captured_at_ms,
                        monotonic_ms,
                        ..bare
                    }));
                }
                Ok(Poll { telemetry: t, step: 0 })
            },
        }
    }

    /// The group to read next, until the reading is complete.
    pub fn next_group(&self) -> (group: Option<Group>)
        ensures
            group == group_at(self.step as int),
    {
        match self.step {
            0 => Some(Group::Alerts),
            1 => Some(Group::Safeguards),
            2 => Some(Group::FanDuty),
            3 => Some(Group::FanSetting),
            4 => Some(Group::SessionTime),
            5 => Some(Group::Lifetime),
            _ => None,
        }
    }

    /// Takes the reply of the group that is due. A foreign reply abandons the reading.
    pub fn accept(&mut self, reply: &Result<Vec<u8>, String>) -> (r: wire::Result<()>)
        ensures
            match group_at(old(self).step as int) {
                None => r is Ok && *final(self) == *old(self),
                Some(group) => match reply {
                    Err(error) => r is Ok && final(self).step == old(self).step + 1
                        && final(self).telemetry@ == with_group_error(
                        old(self).telemetry@,
                        group.label() + error@,
                    ),
                    Ok(bytes) => match wire::payload(
                        bytes@,
                        wire::READ,
                        group.code(),
                        group.size(),
                    ) {
                        Err(e) => r == Err::<(), wire::Error>(e) && final(self).step
                            == old(self).step && final(self).telemetry@ == old(self).telemetry@,
                        Ok(p) => r is Ok && final(self).step == old(self).step + 1
                            && group.absorbed(old(self).telemetry@, final(self).telemetry@, p),
                    },
                },
            },
    {
        match self.next_group() {
            None => Ok(()),
            Some(group) => match apply_group(&mut self.telemetry, group, reply) {
                Ok(_) => {
                    self.step = self.step + 1;
                    Ok(())
                },
                Err(e) => Err(e),
            },
        }
    }
}

/// A reading without what belongs to a group.
pub open spec fn without_group(group: Group, t: TelemetryModel) -> TelemetryModel {
    match group {
        Group::Alerts => TelemetryModel {
            alerts_raw: Seq::empty(),
            alert_names: Seq::empty(),
            group_errors: Seq::empty(),
            ..t
        },
        Group::Safeguards => TelemetryModel {
            safeguards: Seq::empty(),
            group_errors: Seq::empty(),
            ..t
        },
        Group::FanDuty => TelemetryModel {
            fan: Fan {
                actual_duty_percent: None,
                calculated_duty_percent: None,
                requested_duty_percent: None,
                zero_fan: None,
                ..t.fan
            },
            group_errors: Seq::empty(),
            ..t
        },
        Group::FanSetting => TelemetryModel {
            fan: Fan { mode_raw: None, ..t.fan },
            group_errors: Seq::empty(),
            ..t
        },
        Group::SessionTime => TelemetryModel {
            session_seconds: None,
            group_errors: Seq::empty(),
            ..t
        },
        Group::Lifetime => TelemetryModel {
            lifetime_seconds: None,
            group_errors: Seq::empty(),
            ..t
        },
    }
}

/// Groups fail on their own: whatever a group's payload holds, a reading keeps all that does not
/// belong to the group, and loses no error that was noted before.
pub proof fn groups_are_independent(
    group: Group,
    before: TelemetryModel,
    after: TelemetryModel,
    p: Seq<u8>,
)
    requires
        group.absorbed(before, after, p),
    ensures
        without_group(group, after) == without_group(group, before),
        before.group_errors.is_prefix_of(after.group_errors),
{
    assert(before.group_errors.is_prefix_of(after.group_errors)) by {
        assert(after.group_errors.take(before.group_errors.len() as int) =~= before.group_errors);
    }
}

/// Input is judged by its bytes. None means that the device is gone; input of 64 bytes, or of one zero
/// and 64 bytes, answers the command where it begins with the opcode and the command, and is passed over
/// where it does not; an answer of 0xfe and zeros means that the device is busy; any other length is
/// refused.
pub proof fn replies_are_judged_by_their_bytes(input: Seq<u8>, opcode: u8, command: u8)
    ensures
        ({
            let framed = input.len() == 64 || (input.len() == 65 && input[0] == 0);
            let at = input.len() - 64;
            let answers = input[at] == opcode && input[at + 1] == command;
            let busy = input[at + 2] == 0xfe && forall|k: int|
                at + 3 <= k < input.len() ==> #[trigger] input[k] == 0;
            reply_verdict(input, opcode, command) == if input.len() == 0 {
                Err::<Reply, ExchangeError>(ExchangeError::Disconnected)
            } else if !framed {
                Err(ExchangeError::Report(wire::Error::ReportLength))
            } else if !answers {
                Ok(Reply::Unrelated)
            } else if busy {
                Err(ExchangeError::Busy(command))
            } else {
                Ok(Reply::Accepted)
            }
        }),
{
    wire::replies_are_unframed(input, opcode, command, 0);
}

/// The names of the alarms that are set are those of the bytes that are not zero, in their order.
pub proof fn set_bytes_have_their_names(p: Seq<u8>, n: nat)
    ensures
        set_names(p, n) == Seq::new(n, |i: int| i).filter(|i: int| p[i] != 0).map_values(
            |i: int| protocol::alert_name(i),
        ),
    decreases n,
{
    reveal(Seq::filter);
    let all = Seq::new(n, |i: int| i);
    let set = |i: int| p[i] != 0;
    let name = |i: int| protocol::alert_name(i);
    if n > 0 {
        set_bytes_have_their_names(p, (n - 1) as nat);
        let rest = Seq::new((n - 1) as nat, |i: int| i);
        assert(all.drop_last() =~= rest);
        assert(rest.filter(set).push(n - 1).map_values(name) =~= rest.filter(set).map_values(
            name,
        ).push(protocol::alert_name(n - 1)));
    } else {
        assert(set_names(p, n) =~= all.filter(set).map_values(name));
    }
}

/// Every group has its command, the length of its payload, and the name under which its failure is
/// noted; all six are read, one after another.
pub proof fn groups_have_their_commands()
    ensures
        group_at(0) == Some(Group::Alerts) && Group::Alerts.code() == 0xe1 && Group::Alerts.size()
            == 18 && Group::Alerts.label() == "hardware_alerts: "@,
        group_at(1) == Some(Group::Safeguards) && Group::Safeguards.code() == 0xc1
            && Group::Safeguards.size() == 42 && Group::Safeguards.label() == "safeguards: "@,
        group_at(2) == Some(Group::FanDuty) && Group::FanDuty.code() == 0x42
            && Group::FanDuty.size() == 4 && Group::FanDuty.label() == "fan_duty: "@,
        group_at(3) == Some(Group::FanSetting) && Group::FanSetting.code() == 0x41
            && Group::FanSetting.size() == 3 && Group::FanSetting.label() == "fan_setting: "@,
        group_at(4) == Some(Group::SessionTime) && Group::SessionTime.code() == 0xd0
            && Group::SessionTime.size() == 4 && Group::SessionTime.label() == "runtime_d0: "@,
        group_at(5) == Some(Group::Lifetime) && Group::Lifetime.code() == 0xd1
            && Group::Lifetime.size() == 4 && Group::Lifetime.label() == "runtime_d1: "@,
        forall|step: int| step >= 6 ==> (#[trigger] group_at(step)) is None,
{
}

/// The alarms of a reading are the bytes of their payload.
pub proof fn alarms_are_taken_as_they_are(before: TelemetryModel, after: TelemetryModel, p: Seq<u8>)
    requires
        Group::Alerts.absorbed(before, after, p),
    ensures
        after.alerts_raw == p,
        after.alert_names == Seq::new(18, |i: int| i).filter(|i: int| p[i] != 0).map_values(
            |i: int| protocol::alert_name(i),
        ),
        after.group_errors == before.group_errors,
{
    set_bytes_have_their_names(p, 18);
}

/// The protections of a reading are those of its two connectors: each is a status, two times and six
/// currents, in 21 bytes.
pub proof fn protections_are_taken_as_they_are(
    before: TelemetryModel,
    after: TelemetryModel,
    p: Seq<u8>,
    c: int,
)
    requires
        Group::Safeguards.absorbed(before, after, p),
        0 <= c < 2,
    ensures
        after.safeguards.len() == 2,
        after.safeguards[c].status_raw == p[21 * c],
        after.safeguards[c].runtime_seconds == p[21 * c + 1] + 0x100 * p[21 * c + 2] + 0x1_0000
            * p[21 * c + 3] + 0x100_0000 * p[21 * c + 4],
        after.safeguards[c].lifetime_seconds == p[21 * c + 5] + 0x100 * p[21 * c + 6] + 0x1_0000
            * p[21 * c + 7] + 0x100_0000 * p[21 * c + 8],
        forall|i: int|
            0 <= i < 6 ==> #[trigger] after.safeguards[c].currents_ma@[i] == wire::reading(
                p,
                21 * c + 9 + 2 * i,
                wire::Scale::Milli,
            ),
        after.group_errors == before.group_errors,
{
    protocol::faults_show_their_payload(after.safeguards[c], p, 21 * c);
}

/// The duties of the fan are percents, and its flag is zero or one: the actual, the calculated and the
/// requested duty, and whether the fan stands still. Other bytes are noted as an error and change no
/// duty.
pub proof fn duties_are_taken_as_they_are(
    before: TelemetryModel,
    after: TelemetryModel,
    p: Seq<u8>,
)
    requires
        Group::FanDuty.absorbed(before, after, p),
    ensures
        after.fan.rpm == before.fan.rpm,
        after.fan.mode_raw == before.fan.mode_raw,
        if p[0] <= 100 && p[1] <= 100 && p[2] <= 100 && (p[3] == 0 || p[3] == 1) {
            &&& after.fan.actual_duty_percent == Some(p[0])
            &&& after.fan.calculated_duty_percent == Some(p[1])
            &&& after.fan.requested_duty_percent == Some(p[2])
            &&& after.fan.zero_fan == Some(p[3] != 0)
            &&& after.group_errors == before.group_errors
        } else {
            &&& after.fan == before.fan
            &&& after.group_errors == before.group_errors.push("invalid fan duty"@)
        },
{
}

/// The setting of the fan is the first byte of its payload, and the times are four bytes, the low one
/// first.
pub proof fn settings_and_times_are_taken_as_they_are(
    before: TelemetryModel,
    after: TelemetryModel,
    p: Seq<u8>,
)
    ensures
        Group::FanSetting.absorbed(before, after, p) ==> after == (TelemetryModel {
            fan: Fan { mode_raw: Some(p[0]), ..before.fan },
            ..before
        }),
        Group::SessionTime.absorbed(before, after, p) ==> {
            &&& after == (TelemetryModel { session_seconds: after.session_seconds, ..before })
            &&& after.session_seconds matches Some(s) && s == p[0] + 0x100 * p[1] + 0x1_0000 * p[2]
                + 0x100_0000 * p[3]
        },
        Group::Lifetime.absorbed(before, after, p) ==> {
            &&& after == (TelemetryModel { lifetime_seconds: after.lifetime_seconds, ..before })
            &&& after.lifetime_seconds matches Some(s) && s == p[0] + 0x100 * p[1] + 0x1_0000 * p[2]
                + 0x100_0000 * p[3]
        },
{
}

/// A group that was not read is noted behind the other errors, and changes nothing else.
pub proof fn failures_are_noted_last(t: TelemetryModel, error: Seq<char>)
    ensures
        with_group_error(t, error).group_errors.len() == t.group_errors.len() + 1,
        with_group_error(t, error).group_errors.last() == error,
        with_group_error(t, error).group_errors.drop_last() == t.group_errors,
        with_group_error(t, error) == (TelemetryModel {
            group_errors: with_group_error(t, error).group_errors,
            ..t
        }),
{
    assert(with_group_error(t, error).group_errors.drop_last() =~= t.group_errors);
}

/// A serial number has as many bytes as the first byte says, and they follow it; more than 61 do not fit.
pub proof fn serial_numbers_follow_their_length(p: Seq<u8>)
    requires
        p.len() == 62,
    ensures
        p[0] > 61 ==> serial_bytes(p) is None,
        p[0] <= 61 ==> {
            &&& serial_bytes(p) matches Some(bytes)
            &&& bytes.len() == p[0]
            &&& forall|i: int| 0 <= i < p[0] ==> #[trigger] bytes[i] == p[i + 1]
        },
{
}

/// A supply introduces itself as `MPG`, with a space behind it.
pub proof fn supplies_greet(i: int)
    requires
        0 <= i < 4,
    ensures
        greeting().len() == 4,
        greeting()[i] as int == "MPG "@[i] as int,
{
    reveal_strlit("MPG ");
}

/// The name of a supply holds its product number in four hexadecimal digits, and behind it the serial
/// number, or the node where there is none. So supplies of different products have different names, and
/// so have those of one product with different serial numbers.
pub proof fn names_tell_supplies_apart(
    pid: u16,
    serial: Seq<char>,
    node: Seq<char>,
    other: u16,
    serial2: Seq<char>,
    node2: Seq<char>,
)
    ensures
        ({
            let name = device_name(pid, serial, node);
            &&& name.take(4) == "msi-"@
            &&& text::hex16_value(name.subrange(4, 8)) == Some(pid as int)
            &&& name[8] == '-'
            &&& name.skip(9) == if serial.len() == 0 {
                node
            } else {
                serial
            }
        }),
        pid != other ==> device_name(pid, serial, node) != device_name(other, serial2, node2),
        serial.len() > 0 && serial2.len() > 0 && serial != serial2 ==> device_name(
            pid,
            serial,
            node,
        ) != device_name(other, serial2, node2),
{
    name_parts(pid, serial, node);
    name_parts(other, serial2, node2);
}

/// The parts of a supply's name.
proof fn name_parts(pid: u16, serial: Seq<char>, node: Seq<char>)
    ensures
        ({
            let name = device_name(pid, serial, node);
            &&& name.take(4) == "msi-"@
            &&& name.subrange(4, 8) == text::hex4(pid)
            &&& text::hex16_value(name.subrange(4, 8)) == Some(pid as int)
            &&& name[8] == '-'
            &&& name.skip(9) == if serial.len() == 0 {
                node
            } else {
                serial
            }
        }),
{
    reveal_strlit("msi-");
    reveal_strlit("-");
    text::hexadecimal_numbers_read_back(pid);
    let name = device_name(pid, serial, node);
    assert(name.take(4) =~= "msi-"@);
    assert(name.subrange(4, 8) =~= text::hex4(pid));
    assert(name.skip(9) =~= if serial.len() == 0 {
        node
    } else {
        serial
    });
}

/// A bus device is a supported supply if and only if its identity is three fields, of which the second
/// is the number of the maker and the third that of a known product, both in hexadecimal. Its name is
/// that of the bus device, or a general one.
pub proof fn supplies_are_known_by_their_numbers(
    uevent: Seq<char>,
    bus: Seq<char>,
    vendor: Seq<char>,
    product: Seq<char>,
)
    requires
        !bus.contains(':'),
        !vendor.contains(':'),
        !product.contains(':'),
        text::field_line(text::lines(uevent), "HID_ID="@) == Some(
            bus + seq![':'] + vendor + seq![':'] + product,
        ),
    ensures
        ({
            let known = text::hex16_value(vendor) == Some(0x0db0int) && (text::hex16_value(
                product,
            ) matches Some(pid) && model::family_of(pid as u16) is Some);
            &&& identity(uevent) is Some <==> known
            &&& identity(uevent) matches Some(found) ==> text::hex16_value(product) matches Some(
                pid,
            ) && found.0 == pid as u16 && found.1 == match text::field_line(
                text::lines(uevent),
                "HID_NAME="@,
            ) {
                Some(name) => name,
                None => "MSI PSU"@,
            }
        }),
{
    text::pieces_of_three(bus, vendor, product, ':');
}

/// A bus device without an identity is none.
pub proof fn supplies_have_an_identity(uevent: Seq<char>)
    requires
        text::field_line(text::lines(uevent), "HID_ID="@) is None,
    ensures
        identity(uevent) is None,
{
}

/// The simulator is found out: where it has its fault, and only there, the load of the second connector
/// is uneven under the standard policy, its tenth alarm is set, and its protection reports an imbalance.
pub proof fn the_simulated_fault_is_found(t: TelemetryModel, sequence: u64, fault: bool)
    requires
        simulates(t, sequence, fault),
    ensures
        crate::alerts::imbalance_condition(t, crate::alerts::Policy::standard(), 1).asserted
            <==> fault,
        crate::alerts::imbalance_condition(t, crate::alerts::Policy::standard(), 1).clear
            <==> !fault,
        !crate::alerts::imbalance_condition(t, crate::alerts::Policy::standard(), 0).asserted,
        forall|i: int| 0 <= i < 18 ==> (#[trigger] t.alerts_raw[i] != 0 <==> i == 9 && fault),
        t.alerts_raw.len() == 18,
        t.safeguards[0].status_raw == 0,
        t.safeguards[1].status_raw == if fault {
            2u8
        } else {
            0u8
        },
        t.group_errors.len() == 0,
        250_000_000 <= t.power_uw <= 289_000_000,
        t.sequence == sequence,
{
    let p = crate::alerts::Policy::standard();
    crate::alerts::standard_policy_has_its_limits();
    let a = t.connector_currents_ma[1]@;
    if fault {
        assert(a[0] == 0 && a[1] == 3000 && a[2] == 3000 && a[3] == 3000 && a[4] == 3000 && a[5]
            == 3000);
    } else {
        assert(a[0] == 2000 && a[1] == 2100 && a[2] == 1900 && a[3] == 2000 && a[4] == 2000 && a[5]
            == 2000);
    }
    crate::alerts::uneven_loads_are_told_by_arithmetic(t, p, 1);
    if fault {
        assert(a[1] - a[0] >= p.minimum_spread_ma);
        assert(100 * (15_000 - 6 * a[0]) >= p.deviation_percent * 15_000);
    }
    let b = t.connector_currents_ma[0]@;
    assert(b[0] == 0 && b[1] == 0 && b[2] == 0 && b[3] == 0 && b[4] == 0 && b[5] == 0);
    crate::alerts::uneven_loads_are_told_by_arithmetic(t, p, 0);
}

/// A supply that was opened is described by what was found of it: no simulator, with its numbers.
pub proof fn descriptions_name_the_supply(
    d: Discovery,
    serial: Seq<char>,
    revision: Seq<char>,
    node: Seq<char>,
)
    ensures
        ({
            let info = described(d, serial, revision, node);
            &&& info.id == device_name(d.pid, serial, node)
            &&& info.pid == d.pid
            &&& info.model == d.model@
            &&& info.path == d.path@
            &&& info.serial == Some(serial)
            &&& info.revision == Some(revision)
            &&& info.backend == "hidraw"@
            &&& !info.simulated
            &&& info.capabilities.contains("telemetry"@)
            &&& info.capabilities.contains("conductor_currents"@)
            &&& info.capabilities.contains("hardware_alerts"@)
            &&& info.capabilities.contains("device_diagnostics"@)
            &&& info.capabilities.len() == 4
        }),
{
    let list = described(d, serial, revision, node).capabilities;
    assert(list[0] == "telemetry"@ && list[1] == "conductor_currents"@ && list[2]
        == "hardware_alerts"@ && list[3] == "device_diagnostics"@);
}

/// The limits of an exchange: 32 inputs are passed over before a command, a reply is awaited for 400
/// milliseconds, and 64 replies are kept.
pub proof fn exchanges_have_limits()
    ensures
        STALE_READS == 32,
        REPLY_MS == 400,
        CAPTURE_LIMIT == 64,
{
}

/// The simulator has a steady load, apart from its output, which goes up by a watt with each reading and
/// starts anew with each fortieth.
pub proof fn the_simulator_is_steady(t: TelemetryModel, sequence: u64, fault: bool)
    requires
        simulates(t, sequence, fault),
    ensures
        t.device_id == "demo-ai1600ts"@,
        t.power_uw == 1_000_000 * (250 + sequence as int % 40),
        t.efficiency_millipercent == 90_000,
        t.temperature_mc == 52_000,
        t.rails.len() == 3,
        t.rails[0] == (RailModel { label: "12V"@, voltage_mv: 12090, current_ma: 18000 }),
        t.rails[1] == (RailModel { label: "5V"@, voltage_mv: 5020, current_ma: 6000 }),
        t.rails[2] == (RailModel { label: "3.3V"@, voltage_mv: 3320, current_ma: 1000 }),
        t.connector_currents_ma.len() == 2,
        forall|i: int| 0 <= i < 6 ==> #[trigger] t.connector_currents_ma[0]@[i] == 0,
        t.fan.rpm == 700,
        t.fan.mode_raw == Some(0u8),
        t.fan.requested_duty_percent == Some(35u8),
        t.fan.actual_duty_percent == Some(35u8),
        t.fan.calculated_duty_percent == Some(35u8),
        t.fan.zero_fan == Some(false),
        t.alert_names.len() == if fault {
            1nat
        } else {
            0
        },
        t.safeguards.len() == 2,
        forall|c: int|
            0 <= c < 2 ==> (#[trigger] t.safeguards[c]).runtime_seconds == 0
                && t.safeguards[c].lifetime_seconds == 0 && t.safeguards[c].currents_ma@ == seq![
                0i64,
                0,
                0,
                0,
                0,
                0,
            ],
        t.session_seconds is None,
        t.lifetime_seconds is None,
        t.input_voltage_mv is None,
{
    assert forall|c: int| 0 <= c < 2 implies (#[trigger] t.safeguards[c]).runtime_seconds == 0
        && t.safeguards[c].lifetime_seconds == 0 && t.safeguards[c].currents_ma@ == seq![
        0i64,
        0,
        0,
        0,
        0,
        0,
    ] by {
        assert(recorded(t.safeguards[c], t.safeguards[c].status_raw));
    }
    let unloaded = t.connector_currents_ma[0]@;
    assert(unloaded == seq![0i64, 0, 0, 0, 0, 0]);
}

} // verus!
