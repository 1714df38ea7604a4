//! Report framing and decoding of the TS family: fixed layouts and integer arithmetic only.
use vstd::arithmetic::power2::*;
use vstd::prelude::*;

verus! {

/// The USB vendor of the supported supplies.
pub const VID: u16 = 0x0db0;

/// The opcode of a read.
pub const READ: u8 = 0x51;

/// The opcode of a write.
pub const WRITE: u8 = 0x50;

/// The largest payload that fits in a report.
pub const MAX_PAYLOAD: usize = 62;

/// Why a report was refused.
#[derive(Debug, Clone, Copy, PartialEq, Eq, Structural)]
pub enum Error {
    /// The payload does not fit in a report.
    PayloadLength,
    /// The report has neither of the two accepted lengths.
    ReportLength,
    /// The report answers another command.
    EchoMismatch,
    /// The device answered with its busy sentinel.
    Busy,
    /// The decoded values are outside what a supply can report.
    ImplausibleTelemetry,
}

impl Error {
    /// The words in which an error is reported.
    pub open spec fn words(self) -> Seq<char> {
        match self {
            Error::PayloadLength => "invalid payload length"@,
            Error::ReportLength => "invalid HID report length"@,
            Error::EchoMismatch => "response does not match outstanding command"@,
            Error::Busy => "device returned busy/error sentinel"@,
            Error::ImplausibleTelemetry => "implausible telemetry values"@,
        }
    }

    /// The words in which an error is reported.
    pub fn message(&self) -> (text: &'static str)
        ensures
            text@ == self.words(),
    {
        match self {
            Error::PayloadLength => "invalid payload length",
            Error::ReportLength => "invalid HID report length",
            Error::EchoMismatch => "response does not match outstanding command",
            Error::Busy => "device returned busy/error sentinel",
            Error::ImplausibleTelemetry => "implausible telemetry values",
        }
    }
}

/// A result on decoded frames.
pub type Result<T> = core::result::Result<T, Error>;

/// The bytes that a borrowed result shows.
pub open spec fn shown(r: Result<&[u8]>) -> Result<Seq<u8>> {
    match r {
        Ok(bytes) => Ok(bytes@),
        Err(e) => Err(e),
    }
}

/// An output report: the report number zero, the command, and the payload padded with zeros.
pub open spec fn request_report(opcode: u8, command: u8, payload: Seq<u8>) -> Seq<u8> {
    Seq::new(
        65,
        |i: int|
            if i == 1 {
                opcode
            } else if i == 2 {
                command
            } else if 3 <= i < 3 + payload.len() {
                payload[i - 3]
            } else {
                0u8
            },
    )
}

/// Builds the write buffer of an unnumbered report, with its leading zero.
pub fn request(opcode: u8, command: u8, payload: &[u8]) -> (r: Result<[u8; 65]>)
    ensures
        r matches Ok(report) ==> payload@.len() <= MAX_PAYLOAD && report@ == request_report(
            opcode,
            command,
            payload@,
        ),
        r matches Err(e) ==> payload@.len() > MAX_PAYLOAD && e == Error::PayloadLength,
{
    if payload.len() > MAX_PAYLOAD {
        return Err(Error::PayloadLength);
    }
    let mut report: [u8; 65] = [0;65];
    report[1] = opcode;
    report[2] = command;
    let mut i: usize = 0;
    while i < payload.len()
        invariant
            i <= payload@.len() <= MAX_PAYLOAD,
            report@ == request_report(opcode, command, payload@.take(i as int)),
        decreases payload@.len() - i,
    {
        report[3 + i] = payload[i];
        i = i + 1;
        assert(report@ =~= request_report(opcode, command, payload@.take(i as int)));
    }
    assert(payload@.take(i as int) =~= payload@);
    Ok(report)
}

/// The sixty-four bytes of a report, without the report number where it is present.
pub open spec fn report_body(report: Seq<u8>) -> Result<Seq<u8>> {
    if report.len() == 64 {
        Ok(report)
    } else if report.len() == 65 && report[0] == 0 {
        Ok(report.skip(1))
    } else {
        Err(Error::ReportLength)
    }
}

/// Strips the report number of a captured buffer.
pub fn normalize(report: &[u8]) -> (r: Result<&[u8]>)
    ensures
        shown(r) == report_body(report@),
{
    if report.len() == 64 {
        Ok(report)
    } else if report.len() == 65 && report[0] == 0 {
        let body = vstd::slice::slice_subrange(report, 1, 65);
        assert(body@ =~= report@.skip(1));
        Ok(body)
    } else {
        Err(Error::ReportLength)
    }
}

/// Nothing but the sentinel byte follows the echo.
///
/// Counters can have the same low byte, so the sentinel counts only over an empty payload.
pub open spec fn is_busy(report: Seq<u8>) -> bool {
    report.len() > 2 && report[2] == 0xfe && forall|i: int|
        3 <= i < report.len() ==> #[trigger] report[i] == 0
}

/// Whether a report holds the sentinel and nothing else.
pub fn busy_pattern(report: &[u8]) -> (busy: bool)
    ensures
        busy == is_busy(report@),
{
    if report.len() <= 2 || report[2] != 0xfe {
        return false;
    }
    let mut i: usize = 3;
    while i < report.len()
        invariant
            3 <= i <= report@.len(),
            forall|j: int| 3 <= j < i ==> #[trigger] report@[j] == 0,
        decreases report@.len() - i,
    {
        if report[i] != 0 {
            assert(report@[i as int] != 0);
            return false;
        }
        i = i + 1;
    }
    true
}

/// The payload of a report that answers `opcode` and `command`.
pub open spec fn payload(report: Seq<u8>, opcode: u8, command: u8, length: nat) -> Result<Seq<u8>> {
    match report_body(report) {
        Err(e) => Err(e),
        Ok(body) => if body[0] != opcode || body[1] != command {
            Err(Error::EchoMismatch)
        } else if is_busy(body) {
            Err(Error::Busy)
        } else if length > MAX_PAYLOAD {
            Err(Error::PayloadLength)
        } else {
            Ok(body.subrange(2, 2 + length as int))
        },
    }
}

/// The payload of a report, where it answers the outstanding command.
pub fn response(report: &[u8], opcode: u8, command: u8, length: usize) -> (r: Result<&[u8]>)
    ensures
        shown(r) == payload(report@, opcode, command, length as nat),
{
    let body = match normalize(report) {
        Ok(body) => body,
        Err(e) => {
            return Err(e);
        },
    };
    if body[0] != opcode || body[1] != command {
        return Err(Error::EchoMismatch);
    }
    if busy_pattern(body) {
        return Err(Error::Busy);
    }
    if length > MAX_PAYLOAD {
        return Err(Error::PayloadLength);
    }
    Ok(vstd::slice::slice_subrange(body, 2, 2 + length))
}

/// A report built for a command answers that command, with the payload that was put in.
pub proof fn request_answers_itself(opcode: u8, command: u8, sent: Seq<u8>, length: nat)
    requires
        sent.len() <= MAX_PAYLOAD,
        length <= sent.len(),
        !is_busy(request_report(opcode, command, sent).skip(1)),
    ensures
        payload(request_report(opcode, command, sent), opcode, command, length) == Ok::<
            Seq<u8>,
            Error,
        >(sent.take(length as int)),
{
    let report = request_report(opcode, command, sent);
    assert(report.skip(1).subrange(2, 2 + length as int) =~= sent.take(length as int));
}

/// The unit in which a reading is kept.
#[derive(Debug, Clone, Copy, PartialEq, Eq, Structural)]
pub enum Scale {
    /// Whole units.
    Base,
    /// Thousandths.
    Milli,
    /// Millionths.
    Micro,
}

impl Scale {
    /// How many of the kept units make one.
    pub open spec fn per_unit(self) -> int {
        match self {
            Scale::Base => 1,
            Scale::Milli => 1000,
            Scale::Micro => 1_000_000,
        }
    }

    /// How many of the kept units make one.
    pub fn factor(self) -> (n: i64)
        ensures
            n == self.per_unit(),
    {
        match self {
            Scale::Base => 1,
            Scale::Milli => 1000,
            Scale::Micro => 1_000_000,
        }
    }
}

/// The signed five-bit exponent.
pub open spec fn exponent(raw: u16) -> int {
    let high = raw as int / 2048;
    if high < 16 {
        high
    } else {
        high - 32
    }
}

/// The unsigned eleven-bit mantissa.
pub open spec fn mantissa(raw: u16) -> int {
    raw as int % 2048
}

/// The vendor's number: the scaled mantissa times a power of two, rounded down.
pub open spec fn linear11(raw: u16, scale: int) -> int {
    if exponent(raw) >= 0 {
        mantissa(raw) * scale * pow2(exponent(raw) as nat)
    } else {
        mantissa(raw) * scale / (pow2((-exponent(raw)) as nat) as int)
    }
}

/// Two to the power of a small exponent.
pub fn power_of_two(exponent: u16) -> (p: i64)
    requires
        exponent <= 16,
    ensures
        p == pow2(exponent as nat),
        1 <= p <= 65536,
{
    proof {
        lemma2_to64();
    }
    let mut p: i64 = 1;
    let mut i: u16 = 0;
    while i < exponent
        invariant
            i <= exponent <= 16,
            p == pow2(i as nat),
            1 <= p <= 65536,
            i < 16 ==> p <= 32768,
        decreases exponent - i,
    {
        proof {
            lemma2_to64();
            lemma_pow2_unfold((i + 1) as nat);
            if i + 1 < 16 {
                lemma_pow2_strictly_increases((i + 1) as nat, 16);
            }
        }
        p = p * 2;
        i = i + 1;
    }
    p
}

/// Every encoding is decoded without loss of sign: values are never negative and stay bounded.
pub proof fn linear11_fits(raw: u16, scale: Scale)
    ensures
        0 <= linear11(raw, scale.per_unit()) <= 67_076_096_000_000,
{
    lemma2_to64();
    let m = mantissa(raw) * scale.per_unit();
    assert(0 <= m <= 2_047_000_000) by (nonlinear_arith)
        requires
            m == mantissa(raw) * scale.per_unit(),
            0 <= mantissa(raw) <= 2047,
            1 <= scale.per_unit() <= 1_000_000,
    ;
    if exponent(raw) >= 0 {
        let p = pow2(exponent(raw) as nat) as int;
        if exponent(raw) < 15 {
            lemma_pow2_strictly_increases(exponent(raw) as nat, 15);
        }
        lemma_pow2_pos(exponent(raw) as nat);
        assert(0 <= m * p <= 67_076_096_000_000) by (nonlinear_arith)
            requires
                0 <= m <= 2_047_000_000,
                1 <= p <= 32768,
        ;
    } else {
        let p = pow2((-exponent(raw)) as nat) as int;
        lemma_pow2_pos((-exponent(raw)) as nat);
        assert(0 <= m / p <= m) by (nonlinear_arith)
            requires
                0 <= m,
                1 <= p,
        ;
    }
}

/// Decodes one reading.
pub fn unsigned_linear11(raw: u16, scale: Scale) -> (value: i64)
    ensures
        value == linear11(raw, scale.per_unit()),
        0 <= value,
{
    let high: u16 = raw / 2048;
    let factor = scale.factor();
    let digits: i64 = (raw % 2048) as i64;
    proof {
        linear11_fits(raw, scale);
        assert(0 <= digits * factor <= 2_047_000_000) by (nonlinear_arith)
            requires
                0 <= digits <= 2047,
                1 <= factor <= 1_000_000,
        ;
    }
    if high < 16 {
        let p = power_of_two(high);
        assert(digits * factor * p <= 67_076_096_000_000);
        digits * factor * p
    } else {
        let p = power_of_two(32 - high);
        digits * factor / p
    }
}

/// A little-endian number of sixteen bits.
pub open spec fn le16(bytes: Seq<u8>, at: int) -> u16 {
    (bytes[at] + 256 * bytes[at + 1]) as u16
}

/// A little-endian number of thirty-two bits.
pub open spec fn le32(bytes: Seq<u8>, at: int) -> u32 {
    (bytes[at] + 256 * bytes[at + 1] + 65536 * bytes[at + 2] + 16777216 * bytes[at + 3]) as u32
}

/// Reads a little-endian number of sixteen bits.
pub fn read_le16(bytes: &[u8], at: usize) -> (n: u16)
    requires
        at + 1 < bytes@.len(),
    ensures
        n == le16(bytes@, at as int),
{
    bytes[at] as u16 + 256 * (bytes[at + 1] as u16)
}

/// Reads a little-endian number of thirty-two bits.
pub fn read_le32(bytes: &[u8], at: usize) -> (n: u32)
    requires
        at + 3 < bytes@.len(),
    ensures
        n == le32(bytes@, at as int),
{
    bytes[at] as u32 + 256 * (bytes[at + 1] as u32) + 65536 * (bytes[at + 2] as u32) + 16777216 * (
    bytes[at + 3] as u32)
}

/// The reading at an offset of a payload, in the given unit.
pub open spec fn reading(bytes: Seq<u8>, at: int, scale: Scale) -> int {
    linear11(le16(bytes, at), scale.per_unit())
}

/// Decodes the reading at an offset of a payload.
fn value(bytes: &[u8], at: usize, scale: Scale) -> (v: i64)
    requires
        at + 1 < bytes@.len(),
    ensures
        v == reading(bytes@, at as int, scale),
{
    unsigned_linear11(read_le16(bytes, at), scale)
}

/// A rail as it is measured.
#[derive(Debug, Clone, Copy, PartialEq, Eq, Structural)]
pub struct Rail {
    pub voltage_mv: i64,
    pub current_ma: i64,
}

/// One decoded telemetry payload of the TS family.
#[derive(Debug, Clone, Copy, PartialEq, Eq)]
pub struct TsTelemetry {
    pub power_uw: i64,
    pub efficiency_millipercent: i64,
    pub temperature_mc: i64,
    pub fan_rpm: i64,
    /// The 12 V, 5 V and 3.3 V rails, in this order.
    pub rails: [Rail; 3],
    pub connector_currents_ma: [[i64; 6]; 2],
}

/// The voltage of a rail in a telemetry payload.
pub open spec fn rail_voltage(d: Seq<u8>, rail: int) -> int {
    reading(d, 38 + 2 * rail, Scale::Milli)
}

/// The current of a rail in a telemetry payload.
pub open spec fn rail_current(d: Seq<u8>, rail: int) -> int {
    reading(d, 2 * rail, Scale::Milli)
}

/// The current of a conductor in a telemetry payload.
pub open spec fn conductor_current(d: Seq<u8>, connector: int, conductor: int) -> int {
    reading(d, 6 + connector * 12 + conductor * 2, Scale::Milli)
}

impl TsTelemetry {
    /// Every field holds its reading of the payload.
    pub open spec fn decodes(self, d: Seq<u8>) -> bool {
        &&& self.power_uw == reading(d, 30, Scale::Micro)
        &&& self.efficiency_millipercent == reading(d, 32, Scale::Milli)
        &&& self.temperature_mc == reading(d, 34, Scale::Milli)
        &&& self.fan_rpm == reading(d, 36, Scale::Base)
        &&& forall|r: int|
            #![trigger self.rails@[r]]
            0 <= r < 3 ==> self.rails@[r].voltage_mv == rail_voltage(d, r)
                && self.rails@[r].current_ma == rail_current(d, r)
        &&& forall|c: int, i: int|
            #![trigger self.connector_currents_ma@[c]@[i]]
            0 <= c < 2 && 0 <= i < 6 ==> self.connector_currents_ma@[c]@[i]
                == conductor_current(d, c, i)
    }
}

/// The readings of a telemetry payload lie within what a supply can report.
pub open spec fn plausible(d: Seq<u8>) -> bool {
    &&& reading(d, 30, Scale::Micro) <= 2_500_000_000
    &&& reading(d, 34, Scale::Milli) <= 200_000
    &&& reading(d, 32, Scale::Milli) <= 100_000
    &&& forall|r: int| 0 <= r < 3 ==> #[trigger] rail_voltage(d, r) <= 20_000
    &&& forall|r: int| 0 <= r < 3 ==> #[trigger] rail_current(d, r) <= 200_000
    &&& forall|c: int, i: int|
        0 <= c < 2 && 0 <= i < 6 ==> #[trigger] conductor_current(d, c, i) <= 50_000
}

/// The six conductor currents of a connector.
fn conductors(d: &[u8], base: usize) -> (currents: [i64; 6])
    requires
        base <= MAX_PAYLOAD,
        base + 11 < d@.len(),
    ensures
        forall|i: int|
            #![trigger currents@[i]]
            0 <= i < 6 ==> currents@[i] == reading(d@, base + 2 * i, Scale::Milli),
{
    [
        value(d, base, Scale::Milli),
        value(d, base + 2, Scale::Milli),
        value(d, base + 4, Scale::Milli),
        value(d, base + 6, Scale::Milli),
        value(d, base + 8, Scale::Milli),
        value(d, base + 10, Scale::Milli),
    ]
}

/// Whether all six currents are at most `limit`.
fn all_at_most(currents: &[i64; 6], limit: i64) -> (r: bool)
    ensures
        r == forall|i: int| 0 <= i < 6 ==> #[trigger] currents@[i] <= limit,
{
    let mut i: usize = 0;
    while i < 6
        invariant
            i <= 6,
            forall|j: int| 0 <= j < i ==> #[trigger] currents@[j] <= limit,
        decreases 6 - i,
    {
        if currents[i] > limit {
            assert(currents@[i as int] > limit);
            return false;
        }
        i = i + 1;
    }
    true
}

/// Decodes the telemetry report of the TS family.
pub fn decode_ts_telemetry(report: &[u8]) -> (r: Result<TsTelemetry>)
    ensures
        match payload(report@, READ, 0xe0, 44) {
            Err(e) => r == Err::<TsTelemetry, Error>(e),
            Ok(d) => if plausible(d) {
                r matches Ok(t) && t.decodes(d)
            } else {
                r == Err::<TsTelemetry, Error>(Error::ImplausibleTelemetry)
            },
        },
{
    let d = match response(report, READ, 0xe0, 44) {
        Ok(d) => d,
        Err(e) => {
            return Err(e);
        },
    };
    let t = TsTelemetry {
        power_uw: value(d, 30, Scale::Micro),
        efficiency_millipercent: value(d, 32, Scale::Milli),
        temperature_mc: value(d, 34, Scale::Milli),
        fan_rpm: value(d, 36, Scale::Base),
        rails: [
            Rail { voltage_mv: value(d, 38, Scale::Milli), current_ma: value(d, 0, Scale::Milli) },
            Rail { voltage_mv: value(d, 40, Scale::Milli), current_ma: value(d, 2, Scale::Milli) },
            Rail { voltage_mv: value(d, 42, Scale::Milli), current_ma: value(d, 4, Scale::Milli) },
        ],
        connector_currents_ma: [conductors(d, 6), conductors(d, 18)],
    };
    assert(t.decodes(d@));
    let rails_ok = t.rails[0].voltage_mv <= 20_000 && t.rails[0].current_ma <= 200_000
        && t.rails[1].voltage_mv <= 20_000 && t.rails[1].current_ma <= 200_000
        && t.rails[2].voltage_mv <= 20_000 && t.rails[2].current_ma <= 200_000;
    let currents_ok = all_at_most(&t.connector_currents_ma[0], 50_000) && all_at_most(
        &t.connector_currents_ma[1],
        50_000,
    );
    proof {
        let p = plausible(d@);
        if rails_ok {
            assert forall|r: int| 0 <= r < 3 implies #[trigger] rail_voltage(d@, r) <= 20_000 by {
                assert(t.rails@[r].voltage_mv <= 20_000);
            }
            assert forall|r: int| 0 <= r < 3 implies #[trigger] rail_current(d@, r) <= 200_000 by {
                assert(t.rails@[r].current_ma <= 200_000);
            }
        } else if p {
            assert forall|r: int| 0 <= r < 3 implies (#[trigger] t.rails@[r]).voltage_mv <= 20_000
                && t.rails@[r].current_ma <= 200_000 by {
                assert(rail_voltage(d@, r) <= 20_000 && rail_current(d@, r) <= 200_000);
            }
        }
        if currents_ok {
            assert forall|c: int, i: int| 0 <= c < 2 && 0 <= i < 6 implies #[trigger]
            conductor_current(d@, c, i) <= 50_000 by {
                assert(t.connector_currents_ma@[c]@[i] <= 50_000);
            }
        } else if p {
            assert forall|c: int, i: int| 0 <= c < 2 && 0 <= i < 6 implies #[trigger]
            t.connector_currents_ma@[c]@[i] <= 50_000 by {
                assert(conductor_current(d@, c, i) <= 50_000);
            }
        }
    }
    if t.power_uw > 2_500_000_000 || t.temperature_mc > 200_000 || t.efficiency_millipercent
        > 100_000 || !rails_ok || !currents_ok {
        return Err(Error::ImplausibleTelemetry);
    }
    Ok(t)
}

/// What a connector's protection recorded.
#[derive(Debug, Clone, Copy, PartialEq, Eq)]
pub struct FaultSnapshot {
    pub status_raw: u8,
    pub runtime_seconds: u32,
    pub lifetime_seconds: u32,
    pub currents_ma: [i64; 6],
}

impl FaultSnapshot {
    /// Every field holds its part of the payload, from `base` on.
    pub open spec fn decodes(self, d: Seq<u8>, base: int) -> bool {
        &&& self.status_raw == d[base]
        &&& self.runtime_seconds == le32(d, base + 1)
        &&& self.lifetime_seconds == le32(d, base + 5)
        &&& forall|i: int|
            #![trigger self.currents_ma@[i]]
            0 <= i < 6 ==> self.currents_ma@[i] == reading(d, base + 9 + 2 * i, Scale::Milli)
    }
}

/// Decodes one recorded fault.
fn fault(d: &[u8], base: usize) -> (s: FaultSnapshot)
    requires
        base + 20 < d@.len() <= MAX_PAYLOAD,
    ensures
        s.decodes(d@, base as int),
{
    FaultSnapshot {
        status_raw: d[base],
        runtime_seconds: read_le32(d, base + 1),
        lifetime_seconds: read_le32(d, base + 5),
        currents_ma: conductors(d, base + 9),
    }
}

/// Decodes the safeguard report of the TS family, one snapshot per connector.
pub fn decode_ts_safeguards(report: &[u8]) -> (r: Result<[FaultSnapshot; 2]>)
    ensures
        match payload(report@, READ, 0xc1, 42) {
            Err(e) => r == Err::<[FaultSnapshot; 2], Error>(e),
            Ok(d) => r matches Ok(s) && s@[0].decodes(d, 0) && s@[1].decodes(d, 21),
        },
{
    match response(report, READ, 0xc1, 42) {
        Ok(d) => Ok([fault(d, 0), fault(d, 21)]),
        Err(e) => Err(e),
    }
}

/// A reading is a word of two bytes, the low one first: eleven bits of a number and five bits of a
/// signed power of two. Its value is the number times that power in the unit of the reading, the
/// fraction dropped.
pub proof fn readings_are_numbers_times_powers_of_two(bytes: Seq<u8>, at: int, scale: Scale)
    ensures
        ({
            let word = bytes[at] + 256 * bytes[at + 1];
            let number = word % 2048;
            let power = word / 2048;
            let unit = match scale {
                Scale::Base => 1int,
                Scale::Milli => 1000,
                Scale::Micro => 1_000_000,
            };
            let value = reading(bytes, at, scale);
            &&& power < 16 ==> value == number * unit * pow2(power as nat)
            &&& power >= 16 ==> value * pow2((32 - power) as nat) <= number * unit < (value + 1)
                * pow2((32 - power) as nat)
        }),
{
    let word = bytes[at] + 256 * bytes[at + 1];
    let power = word / 2048;
    if power >= 16 {
        let m = mantissa(le16(bytes, at)) * scale.per_unit();
        let p = pow2((32 - power) as nat) as int;
        lemma_pow2_pos((32 - power) as nat);
        vstd::arithmetic::div_mod::lemma_fundamental_div_mod(m, p);
        vstd::arithmetic::div_mod::lemma_mod_bound(m, p);
        let v = m / p;
        assert(v * p <= m < (v + 1) * p) by (nonlinear_arith)
            requires
                m == p * v + m % p,
                0 <= m % p < p,
        ;
    }
}

/// Each reading of a telemetry payload stands at its own place: the currents of the 12 V, 5 V and
/// 3.3 V rails from byte 0 on, those of the first connector's conductors from 6 on and of the second
/// one's from 18 on, then power, efficiency, temperature and fan, and the voltages of the rails.
pub proof fn telemetry_has_its_layout(t: TsTelemetry, d: Seq<u8>)
    requires
        t.decodes(d),
    ensures
        t.rails@[0].current_ma == reading(d, 0, Scale::Milli),
        t.rails@[1].current_ma == reading(d, 2, Scale::Milli),
        t.rails@[2].current_ma == reading(d, 4, Scale::Milli),
        forall|i: int|
            0 <= i < 6 ==> #[trigger] t.connector_currents_ma@[0]@[i] == reading(
                d,
                6 + 2 * i,
                Scale::Milli,
            ),
        forall|i: int|
            0 <= i < 6 ==> #[trigger] t.connector_currents_ma@[1]@[i] == reading(
                d,
                18 + 2 * i,
                Scale::Milli,
            ),
        t.power_uw == reading(d, 30, Scale::Micro),
        t.efficiency_millipercent == reading(d, 32, Scale::Milli),
        t.temperature_mc == reading(d, 34, Scale::Milli),
        t.fan_rpm == reading(d, 36, Scale::Base),
        t.rails@[0].voltage_mv == reading(d, 38, Scale::Milli),
        t.rails@[1].voltage_mv == reading(d, 40, Scale::Milli),
        t.rails@[2].voltage_mv == reading(d, 42, Scale::Milli),
{
}

/// A payload is accepted if and only if its power is at most 2500 W, its efficiency at most 100 %,
/// its temperature at most 200 degrees, its rails at most 20 V and 200 A, and its twelve conductors at
/// most 50 A.
pub proof fn implausible_payloads_are_refused(d: Seq<u8>)
    ensures
        plausible(d) <==> {
            &&& reading(d, 30, Scale::Micro) <= 2_500_000_000
            &&& reading(d, 32, Scale::Milli) <= 100_000
            &&& reading(d, 34, Scale::Milli) <= 200_000
            &&& reading(d, 38, Scale::Milli) <= 20_000
            &&& reading(d, 40, Scale::Milli) <= 20_000
            &&& reading(d, 42, Scale::Milli) <= 20_000
            &&& reading(d, 0, Scale::Milli) <= 200_000
            &&& reading(d, 2, Scale::Milli) <= 200_000
            &&& reading(d, 4, Scale::Milli) <= 200_000
            &&& forall|k: int|
                3 <= k < 15 ==> #[trigger] reading(d, 2 * k, Scale::Milli) <= 50_000
        },
{
    if plausible(d) {
        assert(rail_voltage(d, 0) <= 20_000 && rail_voltage(d, 1) <= 20_000 && rail_voltage(d, 2)
            <= 20_000);
        assert(rail_current(d, 0) <= 200_000 && rail_current(d, 1) <= 200_000 && rail_current(d, 2)
            <= 200_000);
        assert forall|k: int| 3 <= k < 15 implies #[trigger] reading(d, 2 * k, Scale::Milli)
            <= 50_000 by {
            if k < 9 {
                assert(conductor_current(d, 0, k - 3) <= 50_000);
            } else {
                assert(conductor_current(d, 1, k - 9) <= 50_000);
            }
        }
    } else if forall|k: int| 3 <= k < 15 ==> #[trigger] reading(d, 2 * k, Scale::Milli) <= 50_000 {
        assert forall|c: int, i: int| 0 <= c < 2 && 0 <= i < 6 implies #[trigger] conductor_current(
            d,
            c,
            i,
        ) <= 50_000 by {
            assert(reading(d, 2 * (3 + 6 * c + i), Scale::Milli) <= 50_000);
            assert(6 + c * 12 + i * 2 == 2 * (3 + 6 * c + i));
        }
        assert forall|r: int| 0 <= r < 3 implies #[trigger] rail_voltage(d, r) == reading(
            d,
            38 + 2 * r,
            Scale::Milli,
        ) by {}
    }
}

/// A reply is a report of 64 bytes, or of 65 with a leading zero. It is refused where it echoes
/// another command, where it holds nothing but the busy sentinel, and where more is asked for than it
/// holds; else the payload is what follows the two bytes of the echo.
pub proof fn replies_are_unframed(report: Seq<u8>, opcode: u8, command: u8, length: nat)
    ensures
        ({
            let framed = report.len() == 64 || (report.len() == 65 && report[0] == 0);
            let at = report.len() - 64;
            let answers = report[at] == opcode && report[at + 1] == command;
            let busy = report[at + 2] == 0xfe && forall|k: int|
                at + 3 <= k < report.len() ==> #[trigger] report[k] == 0;
            let r = payload(report, opcode, command, length);
            &&& r == Err::<Seq<u8>, Error>(Error::ReportLength) <==> !framed
            &&& r == Err::<Seq<u8>, Error>(Error::EchoMismatch) <==> framed && !answers
            &&& r == Err::<Seq<u8>, Error>(Error::Busy) <==> framed && answers && busy
            &&& r == Err::<Seq<u8>, Error>(Error::PayloadLength) <==> framed && answers && !busy
                && length > 62
            &&& r matches Ok(d) ==> framed && answers && !busy && d.len() == length && forall|k: int|
                0 <= k < length ==> #[trigger] d[k] == report[at + 2 + k]
            &&& r != Err::<Seq<u8>, Error>(Error::ImplausibleTelemetry)
        }),
{
    if report.len() == 64 || (report.len() == 65 && report[0] == 0) {
        let at = report.len() - 64;
        let body = report_body(report)->Ok_0;
        assert(forall|k: int| 0 <= k < 64 ==> #[trigger] body[k] == report[at + k]);
        assert(body.len() == 64);
        if forall|k: int| at + 3 <= k < report.len() ==> #[trigger] report[k] == 0 {
            assert forall|i: int| 3 <= i < body.len() implies #[trigger] body[i] == 0 by {
                assert(report[at + i] == 0);
            }
        }
        if forall|i: int| 3 <= i < body.len() ==> #[trigger] body[i] == 0 {
            assert forall|k: int| at + 3 <= k < report.len() implies #[trigger] report[k] == 0 by {
                assert(body[k - at] == 0);
            }
        }
    }
}

/// A request is 65 bytes: a zero, the opcode, the command, and the payload in front of zeros.
pub proof fn requests_are_framed(opcode: u8, command: u8, sent: Seq<u8>)
    requires
        sent.len() <= 62,
    ensures
        ({
            let report = request_report(opcode, command, sent);
            &&& report.len() == 65
            &&& report[0] == 0
            &&& report[1] == opcode
            &&& report[2] == command
            &&& forall|k: int| 0 <= k < sent.len() ==> #[trigger] sent[k] == report[3 + k]
            &&& forall|k: int| 3 + sent.len() <= k < 65 ==> #[trigger] report[k] == 0
        }),
{
}

/// A recorded fault is 21 bytes: its status, two counts of seconds with the low byte first, and the
/// currents of the six conductors.
pub proof fn faults_have_their_layout(s: FaultSnapshot, d: Seq<u8>, base: int)
    requires
        s.decodes(d, base),
    ensures
        s.status_raw == d[base],
        s.runtime_seconds == d[base + 1] + 0x100 * d[base + 2] + 0x1_0000 * d[base + 3]
            + 0x100_0000 * d[base + 4],
        s.lifetime_seconds == d[base + 5] + 0x100 * d[base + 6] + 0x1_0000 * d[base + 7]
            + 0x100_0000 * d[base + 8],
        forall|i: int|
            0 <= i < 6 ==> #[trigger] s.currents_ma@[i] == reading(
                d,
                base + 9 + 2 * i,
                Scale::Milli,
            ),
{
}

/// The report that answers a command is taken for no other command.
pub proof fn replies_answer_one_command(
    report: Seq<u8>,
    one: (u8, u8),
    other: (u8, u8),
    length: nat,
)
    requires
        payload(report, one.0, one.1, length) is Ok,
        one != other,
    ensures
        payload(report, other.0, other.1, length) == Err::<Seq<u8>, Error>(Error::EchoMismatch),
{
}

/// The numbers of the protocol.
pub proof fn reports_have_their_numbers()
    ensures
        VID == 0x0db0,
        READ == 0x51,
        WRITE == 0x50,
        MAX_PAYLOAD == 62,
{
}

} // verus!
