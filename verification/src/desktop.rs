//! What the desktop window shows.
use crate::alerts::{self, Incident, IncidentModel};
use crate::bounded;
use crate::calendar::{self, Period};
use crate::device;
use crate::history;
use crate::ipc;
use crate::measurements;
use crate::model::{self, Fan, Rail, RailModel, Telemetry, TelemetryModel};
use crate::pricing::{Tariff, TariffModel};
use crate::runtime::{Snapshot, SnapshotModel};
use crate::protocol;
use crate::text;
use crate::wire;
use vstd::prelude::*;
use vstd::string::StringExecFns;

verus! {

/// The age beyond which a reading is shown as frozen.
pub const FROZEN_MS: u64 = 3500;

/// How many readings the graph shows.
pub const GRAPH_LENGTH: usize = 180;

/// The words that stand between problems.
pub open spec fn dot() -> Seq<char> {
    " · "@
}

/// The window shows no present readings.
pub open spec fn is_frozen(s: SnapshotModel, stale: bool, now_ms: u64) -> bool {
    stale || match ipc::age(s, now_ms) {
        Some(ms) => ms > FROZEN_MS,
        None => true,
    }
}

/// What the head of the window tells of the connection.
pub open spec fn status(s: SnapshotModel, stale: bool, now_ms: u64) -> Seq<char> {
    if is_frozen(s, stale, now_ms) {
        "Monitoring interrupted. Readings are frozen."@
    } else {
        "Monitoring · updated "@ + text::decimal(ipc::age(s, now_ms)->0 as nat) + " ms ago"@
    }
}

/// Tells of the connection, and whether the readings are frozen.
pub fn write_status(s: &Snapshot, stale: bool, now_ms: u64) -> (r: (String, bool))
    ensures
        r.0@ == status(s@, stale, now_ms),
        r.1 == is_frozen(s@, stale, now_ms),
{
    let mut age: u64 = 0;
    let mut frozen = true;
    match &s.telemetry {
        Some(t) => {
            age = now_ms.saturating_sub(t.monotonic_ms);
            frozen = stale || age > FROZEN_MS;
        },
        None => {},
    }
    if frozen {
        ("Monitoring interrupted. Readings are frozen.".to_owned(), true)
    } else {
        let mut words = "Monitoring · updated ".to_owned();
        text::push_decimal(&mut words, age as u128);
        words.append(" ms ago");
        (words, false)
    }
}

/// The name of the supply in the head of the window.
pub fn device_title(s: &Snapshot) -> (title: String)
    ensures
        title@ == match s@.device {
            Some(info) => info.model,
            None => "Railwatch"@,
        },
{
    match &s.device {
        Some(info) => info.model.clone(),
        None => "Railwatch".to_owned(),
    }
}

/// The messages of incidents.
pub open spec fn messages(list: Seq<IncidentModel>) -> Seq<Seq<char>> {
    Seq::new(list.len(), |i: int| list[i].message)
}

/// A problem for an error, where there is one.
pub open spec fn failure(label: Seq<char>, error: Option<Seq<char>>) -> Seq<Seq<char>> {
    match error {
        Some(words) => seq![label + words],
        None => Seq::empty(),
    }
}

/// A problem for a loss, where there is one.
pub open spec fn loss(count: u64, label: Seq<char>) -> Seq<Seq<char>> {
    if count > 0 {
        seq!["History incomplete: "@ + text::decimal(count as nat) + label]
    } else {
        Seq::empty()
    }
}

/// All that is wrong, in the order in which it is told.
pub open spec fn problems(s: SnapshotModel) -> Seq<Seq<char>> {
    messages(s.active_incidents) + failure("History recording failed: "@, s.storage_error) + failure(
        ""@,
        s.last_error,
    ) + loss(s.dropped_incident_updates, " incident updates lost"@) + loss(
        s.dropped_evidence_samples,
        " evidence samples lost"@,
    ) + loss(s.truncated_evidence_windows, " evidence windows shortened"@)
}

/// All that is wrong, in one text, with the groups that could not be read.
pub open spec fn problem_text(s: SnapshotModel) -> Seq<char> {
    let told = text::join(problems(s), dot());
    match s.telemetry {
        Some(t) => if t.group_errors.len() > 0 {
            told + " · Some readings unavailable: "@ + text::join(t.group_errors, "; "@)
        } else {
            told
        },
        None => told,
    }
}

/// Appends a problem for an error, where there is one.
fn push_failure(list: &mut Vec<String>, label: &str, error: &Option<String>)
    ensures
        final(list).deep_view() == old(list).deep_view() + failure(
            label@,
            model::optional_text(*error),
        ),
{
    let ghost before = list.deep_view();
    match error {
        Some(words) => {
            text::push_text(list, text::joined(label, words.as_str()));
        },
        None => {},
    }
    assert(list.deep_view() =~= before + failure(label@, model::optional_text(*error)));
}

/// Appends a problem for a loss, where there is one.
fn push_loss(list: &mut Vec<String>, count: u64, label: &str)
    ensures
        final(list).deep_view() == old(list).deep_view() + loss(count, label@),
{
    let ghost before = list.deep_view();
    if count > 0 {
        let mut words = "History incomplete: ".to_owned();
        text::push_decimal(&mut words, count as u128);
        words.append(label);
        text::push_text(list, words);
    }
    assert(list.deep_view() =~= before + loss(count, label@));
}

/// Tells all that is wrong, in one text.
pub fn write_problem(s: &Snapshot) -> (words: String)
    ensures
        words@ == problem_text(s@),
{
    let ghost all = messages(s@.active_incidents);
    let mut list: Vec<String> = Vec::new();
    let mut i: usize = 0;
    assert(list.deep_view() =~= all.take(0));
    while i < s.active_incidents.len()
        invariant
            i <= s.active_incidents@.len(),
            all == messages(s@.active_incidents),
            list.deep_view() == all.take(i as int),
        decreases s.active_incidents@.len() - i,
    {
        text::push_text(&mut list, s.active_incidents[i].message.clone());
        i = i + 1;
        assert(list.deep_view() =~= all.take(i as int));
    }
    assert(all.take(i as int) =~= all);
    push_failure(&mut list, "History recording failed: ", &s.storage_error);
    push_failure(&mut list, "", &s.last_error);
    push_loss(&mut list, s.dropped_incident_updates, " incident updates lost");
    push_loss(&mut list, s.dropped_evidence_samples, " evidence samples lost");
    push_loss(&mut list, s.truncated_evidence_windows, " evidence windows shortened");
    let mut words = text::join_all(&list, " · ");
    match &s.telemetry {
        Some(t) => {
            if t.group_errors.len() > 0 {
                words.append(" · Some readings unavailable: ");
                let errors = text::join_all(&t.group_errors, "; ");
                words.append(errors.as_str());
            }
        },
        None => {},
    }
    words
}

/// What is told of a connector's load.
pub open spec fn connector_summary(currents: Seq<i64>) -> Seq<char> {
    let total = measurements::total(currents);
    if total == 0 {
        "No load observed"@
    } else {
        "Total "@ + text::thousandths(total) + " A · deviation "@ + text::decimal(
            measurements::deviation(currents) as nat,
        ) + "% · spread "@ + text::thousandths(measurements::spread(currents)) + " A"@
    }
}

/// The current of a conductor in amperes.
pub fn conductor_amps(current_ma: i64) -> (words: String)
    requires
        text::shows_exactly(current_ma as int),
    ensures
        words@ == text::thousandths(current_ma as int),
{
    let mut words = String::new();
    text::push_thousandths(&mut words, current_ma);
    assert(words@ =~= text::thousandths(current_ma as int));
    words
}

/// The line of a rail.
pub open spec fn rail_line(rail: RailModel) -> Seq<char> {
    rail.label + "     "@ + text::thousandths(rail.voltage_mv as int) + " V     "@
        + text::thousandths(rail.current_ma as int) + " A"@
}

/// Tells of a rail.
pub fn write_rail(rail: &Rail) -> (words: String)
    requires
        text::shows_exactly(rail.voltage_mv as int),
        text::shows_exactly(rail.current_ma as int),
    ensures
        words@ == rail_line(rail@),
{
    let mut words = text::joined(rail.label.as_str(), "     ");
    text::push_thousandths(&mut words, rail.voltage_mv);
    words.append(" V     ");
    text::push_thousandths(&mut words, rail.current_ma);
    words.append(" A");
    words
}

/// A duty in percent.
pub open spec fn duty_text(percent: Option<u8>) -> Seq<char> {
    match percent {
        Some(v) => text::decimal(v as nat) + "%"@,
        None => "Unavailable"@,
    }
}

/// Tells of a duty.
pub fn duty(percent: Option<u8>) -> (words: String)
    ensures
        words@ == duty_text(percent),
{
    match percent {
        Some(v) => {
            let mut words = String::new();
            text::push_decimal(&mut words, v as u128);
            words.append("%");
            assert(words@ =~= duty_text(percent));
            words
        },
        None => "Unavailable".to_owned(),
    }
}

/// The lines of the fan.
pub open spec fn cooling_lines(fan: Fan) -> Seq<Seq<char>> {
    seq![
        "Fan speed: "@ + text::signed(fan.rpm as int) + " RPM"@,
        "Raw mode: "@ + match fan.mode_raw {
            Some(v) => text::decimal(v as nat),
            None => "Unavailable"@,
        },
        "Requested duty: "@ + duty_text(fan.requested_duty_percent) + "   Calculated: "@
            + duty_text(fan.calculated_duty_percent) + "   Actual: "@ + duty_text(
            fan.actual_duty_percent,
        ),
        "Zero fan enabled: "@ + match fan.zero_fan {
            Some(true) => "true"@,
            Some(false) => "false"@,
            None => "Unavailable"@,
        },
    ]
}

/// Tells of the fan.
pub fn cooling_rows(fan: &Fan) -> (rows: Vec<String>)
    ensures
        rows.deep_view() == cooling_lines(*fan),
{
    let mut rows: Vec<String> = Vec::new();
    let mut speed = "Fan speed: ".to_owned();
    text::push_signed(&mut speed, fan.rpm as i128);
    speed.append(" RPM");
    text::push_text(&mut rows, speed);
    let mut mode = "Raw mode: ".to_owned();
    match fan.mode_raw {
        Some(v) => {
            text::push_decimal(&mut mode, v as u128);
        },
        None => {
            mode.append("Unavailable");
        },
    }
    text::push_text(&mut rows, mode);
    let requested = duty(fan.requested_duty_percent);
    let calculated = duty(fan.calculated_duty_percent);
    let actual = duty(fan.actual_duty_percent);
    let mut duties = text::joined("Requested duty: ", requested.as_str());
    duties.append("   Calculated: ");
    duties.append(calculated.as_str());
    duties.append("   Actual: ");
    duties.append(actual.as_str());
    text::push_text(&mut rows, duties);
    let zero = match fan.zero_fan {
        Some(on) => if on {
            "true"
        } else {
            "false"
        },
        None => "Unavailable",
    };
    text::push_text(&mut rows, text::joined("Zero fan enabled: ", zero));
    assert(rows.deep_view() =~= cooling_lines(*fan));
    rows
}

/// A text, or that it is unavailable.
pub open spec fn available(words: Option<Seq<char>>) -> Seq<char> {
    match words {
        Some(w) => w,
        None => "Unavailable"@,
    }
}

/// The lines of the supply; its capabilities are given as they are transmitted.
pub open spec fn device_lines(s: SnapshotModel, capabilities: Seq<char>) -> Seq<Seq<char>> {
    seq![
        "Identity: "@ + available(
            match s.device {
                Some(info) => Some(info.id),
                None => None,
            },
        ),
        "Backend: "@ + available(
            match s.device {
                Some(info) => Some(info.backend),
                None => None,
            },
        ),
        "Firmware revision: "@ + available(
            match s.device {
                Some(info) => info.revision,
                None => None,
            },
        ),
        "Capabilities: "@ + capabilities,
        "Policy revision: "@ + text::decimal(s.policy_revision as nat),
        "History samples dropped: "@ + text::decimal(s.dropped_samples as nat),
        "Last history commit: "@ + match s.last_persisted_at_ms {
            Some(at) => text::signed(at as int),
            None => "null"@,
        },
    ]
}

/// Tells of the supply.
pub fn device_rows(s: &Snapshot, capabilities: &str) -> (rows: Vec<String>)
    ensures
        rows.deep_view() == device_lines(s@, capabilities@),
{
    let mut rows: Vec<String> = Vec::new();
    let mut identity = "Unavailable".to_owned();
    let mut backend = "Unavailable".to_owned();
    let mut revision = "Unavailable".to_owned();
    match &s.device {
        Some(info) => {
            identity = info.id.clone();
            backend = info.backend.clone();
            match &info.revision {
                Some(words) => {
                    revision = words.clone();
                },
                None => {},
            }
        },
        None => {},
    }
    text::push_text(&mut rows, text::joined("Identity: ", identity.as_str()));
    text::push_text(&mut rows, text::joined("Backend: ", backend.as_str()));
    text::push_text(&mut rows, text::joined("Firmware revision: ", revision.as_str()));
    text::push_text(&mut rows, text::joined("Capabilities: ", capabilities));
    let mut policy = "Policy revision: ".to_owned();
    text::push_decimal(&mut policy, s.policy_revision as u128);
    text::push_text(&mut rows, policy);
    let mut dropped = "History samples dropped: ".to_owned();
    text::push_decimal(&mut dropped, s.dropped_samples as u128);
    text::push_text(&mut rows, dropped);
    let mut commit = "Last history commit: ".to_owned();
    match s.last_persisted_at_ms {
        Some(at) => {
            text::push_signed(&mut commit, at as i128);
        },
        None => {
            commit.append("null");
        },
    }
    text::push_text(&mut rows, commit);
    assert(rows.deep_view() =~= device_lines(s@, capabilities@));
    rows
}

/// Tells of a connector's load.
pub fn write_connector(currents: &[i64; 6]) -> (words: String)
    requires
        measurements::measurable(currents@),
        text::shows_exactly(measurements::total(currents@)),
        text::shows_exactly(measurements::spread(currents@)),
    ensures
        words@ == connector_summary(currents@),
{
    let total: i64 = measurements::load(currents);
    let (spread, deviation) = measurements::imbalance(currents);
    if total == 0 {
        return "No load observed".to_owned();
    }
    let mut words = "Total ".to_owned();
    text::push_thousandths(&mut words, total);
    words.append(" A · deviation ");
    text::push_decimal(&mut words, deviation as u128);
    words.append("% · spread ");
    text::push_thousandths(&mut words, spread);
    words.append(" A");
    words
}

/// What is told of the energy of a period; the decimals are given as they are shown.
pub struct EnergyLine {
    pub period: String,
    /// The energy from the wall in kilowatt-hours, with six decimals.
    pub wall_kwh: String,
    /// The energy to the computer in kilowatt-hours, with six decimals.
    pub output_kwh: String,
    pub currency: Option<String>,
    pub cost: Option<String>,
    /// The observed time in minutes, with one decimal.
    pub minutes: String,
    pub incomplete_pricing: bool,
}

/// A text, or another one in its place.
pub open spec fn text_or(words: Option<String>, other: Seq<char>) -> Seq<char> {
    match words {
        Some(w) => w@,
        None => other,
    }
}

/// A text, or another one in its place.
fn either(words: &Option<String>, other: &str) -> (r: String)
    ensures
        r@ == text_or(*words, other@),
{
    match words {
        Some(w) => w.clone(),
        None => other.to_owned(),
    }
}

/// The mark of a period of which not all was priced.
pub open spec fn partial_mark(incomplete: bool) -> Seq<char> {
    if incomplete {
        " · partial pricing"@
    } else {
        ""@
    }
}

/// The line of a period.
pub open spec fn energy_line(e: EnergyLine) -> Seq<char> {
    e.period@ + "     "@ + e.wall_kwh@ + " kWh wall     "@ + e.output_kwh@ + " kWh output     "@
        + text_or(e.currency, ""@) + " "@ + text_or(e.cost, "Unpriced"@) + "     "@ + e.minutes@
        + " min observed"@ + partial_mark(e.incomplete_pricing)
}

/// The lines of energy.
pub open spec fn energy_lines(list: Seq<EnergyLine>) -> Seq<Seq<char>> {
    if list.len() == 0 {
        seq!["No recorded energy in this range."@]
    } else {
        Seq::new(list.len(), |i: int| energy_line(list[i]))
    }
}

/// Tells of a period.
fn write_energy(e: &EnergyLine) -> (words: String)
    ensures
        words@ == energy_line(*e),
{
    let currency = either(&e.currency, "");
    let cost = either(&e.cost, "Unpriced");
    let mut words = text::joined(e.period.as_str(), "     ");
    words.append(e.wall_kwh.as_str());
    words.append(" kWh wall     ");
    words.append(e.output_kwh.as_str());
    words.append(" kWh output     ");
    words.append(currency.as_str());
    words.append(" ");
    words.append(cost.as_str());
    words.append("     ");
    words.append(e.minutes.as_str());
    words.append(" min observed");
    let mark = if e.incomplete_pricing {
        " · partial pricing"
    } else {
        ""
    };
    words.append(mark);
    words
}

/// Tells of energy.
pub fn energy_rows(list: &Vec<EnergyLine>) -> (rows: Vec<String>)
    ensures
        rows.deep_view() == energy_lines(list@),
{
    let mut rows: Vec<String> = Vec::new();
    if list.len() == 0 {
        text::push_text(&mut rows, "No recorded energy in this range.".to_owned());
        assert(rows.deep_view() =~= energy_lines(list@));
        return rows;
    }
    let ghost all = energy_lines(list@);
    let mut i: usize = 0;
    assert(rows.deep_view() =~= all.take(0));
    while i < list.len()
        invariant
            i <= list@.len(),
            list@.len() > 0,
            all == energy_lines(list@),
            rows.deep_view() == all.take(i as int),
        decreases list@.len() - i,
    {
        text::push_text(&mut rows, write_energy(&list[i]));
        i = i + 1;
        assert(rows.deep_view() =~= all.take(i as int));
    }
    assert(all.take(i as int) =~= all);
    rows
}

/// The cost of today, as far as there is a price.
pub fn cost_today(e: &EnergyLine) -> (words: String)
    ensures
        words@ == text_or(e.currency, ""@) + " "@ + text_or(e.cost, "Add a price per kWh"@),
{
    let currency = either(&e.currency, "");
    let cost = either(&e.cost, "Add a price per kWh");
    let mut words = text::joined(currency.as_str(), " ");
    words.append(cost.as_str());
    words
}

/// What is told of an incident.
#[derive(Debug)]
pub struct IncidentRow {
    pub id: String,
    pub title: String,
    pub detail: String,
    pub critical: bool,
    pub acknowledged: bool,
}

/// What is told of an incident below its title.
pub open spec fn incident_detail(i: IncidentModel) -> Seq<char> {
    i.source + dot() + if i.recovered_at_ms is None {
        "Active"@
    } else {
        "Recovered"@
    } + dot() + calendar::instant_text(i.started_at_ms)
}

impl IncidentRow {
    /// The row tells of an incident.
    pub open spec fn tells(self, i: IncidentModel) -> bool {
        &&& self.id@ == i.id
        &&& self.title@ == i.message
        &&& self.detail@ == incident_detail(i)
        &&& self.critical == (i.severity == "critical"@)
        &&& self.acknowledged == (i.acknowledged_at_ms is Some)
    }
}

/// Tells of incidents.
pub fn incident_rows(list: &Vec<Incident>) -> (rows: Vec<IncidentRow>)
    ensures
        rows@.len() == list@.len(),
        forall|i: int| #![trigger rows@[i]] 0 <= i < rows@.len() ==> rows@[i].tells(list@[i]@),
{
    let mut rows: Vec<IncidentRow> = Vec::new();
    let mut k: usize = 0;
    while k < list.len()
        invariant
            k <= list@.len(),
            rows@.len() == k,
            forall|i: int| #![trigger rows@[i]] 0 <= i < rows@.len() ==> rows@[i].tells(list@[i]@),
        decreases list@.len() - k,
    {
        let i = &list[k];
        let started = calendar::write_instant(i.started_at_ms);
        let mut detail = text::joined(i.source.as_str(), " · ");
        if i.recovered_at_ms.is_none() {
            detail.append("Active");
        } else {
            detail.append("Recovered");
        }
        detail.append(" · ");
        detail.append(started.as_str());
        rows.push(
            IncidentRow {
                id: i.id.clone(),
                title: i.message.clone(),
                detail,
                critical: i.severity == "critical".to_owned(),
                acknowledged: i.acknowledged_at_ms.is_some(),
            },
        );
        k = k + 1;
    }
    rows
}

/// The line of a dated price.
pub open spec fn tariff_line(t: TariffModel) -> Seq<char> {
    t.currency + "  "@ + history::amount(t.microcurrency_per_kwh as int) + " per kWh  from "@
        + calendar::instant_text(t.effective_at_ms)
}

/// Tells of a dated price.
pub fn write_tariff(t: &Tariff) -> (words: String)
    requires
        0 <= t.microcurrency_per_kwh <= history::MAX_RATE,
    ensures
        words@ == tariff_line(t@),
{
    let rate = history::write_amount(t.microcurrency_per_kwh as i128);
    let from = calendar::write_instant(t.effective_at_ms);
    let mut words = text::joined(t.currency.as_str(), "  ");
    words.append(rate.as_str());
    words.append(" per kWh  from ");
    words.append(from.as_str());
    words
}

/// The bytes of a report in decimal.
pub open spec fn byte_texts(bytes: Seq<u8>) -> Seq<Seq<char>> {
    Seq::new(bytes.len(), |i: int| text::decimal(bytes[i] as nat))
}

/// The eight bytes of a safeguard report behind its head, or as many as there are.
pub open spec fn configuration(report: Seq<u8>) -> Seq<u8> {
    if report.len() <= 2 {
        Seq::empty()
    } else if report.len() < 10 {
        report.skip(2)
    } else {
        report.subrange(2, 10)
    }
}

/// Tells of the safeguard configuration in a report.
pub fn write_configuration(report: &Vec<u8>) -> (words: String)
    ensures
        words@ == "Safeguard configuration bytes: "@ + text::join(
            byte_texts(configuration(report@)),
            ", "@,
        ) + ". Timer units and write semantics are unqualified."@,
{
    let ghost bytes = configuration(report@);
    let ghost all = byte_texts(bytes);
    let mut list: Vec<String> = Vec::new();
    let mut i: usize = 2;
    assert(list.deep_view() =~= all.take(0));
    while i < report.len() && i < 10
        invariant
            2 <= i <= 10,
            bytes == configuration(report@),
            all == byte_texts(bytes),
            i - 2 <= bytes.len(),
            list.deep_view() == all.take(i - 2),
        decreases 10 - i,
    {
        let mut number = String::new();
        text::push_decimal(&mut number, report[i] as u128);
        assert(bytes[i - 2] == report@[i as int]);
        assert(number@ =~= all[i - 2]);
        text::push_text(&mut list, number);
        i = i + 1;
        assert(list.deep_view() =~= all.take(i - 2));
    }
    assert(all.take(i - 2) =~= all);
    let payload = text::join_all(&list, ", ");
    let mut words = text::joined("Safeguard configuration bytes: ", payload.as_str());
    words.append(". Timer units and write semantics are unqualified.");
    words
}

/// When a reading of a list was captured, as text; nothing where it is missing.
pub open spec fn captured_text(samples: Seq<TelemetryModel>, i: int) -> Seq<char> {
    if 0 <= i < samples.len() {
        text::signed(samples[i].captured_at_ms as int)
    } else {
        Seq::empty()
    }
}

/// What is told of the evidence of an incident.
pub open spec fn evidence_text(samples: Seq<TelemetryModel>) -> Seq<char> {
    text::decimal(samples.len()) + " retained readings. First: "@ + captured_text(samples, 0)
        + ". Last: "@ + captured_text(samples, samples.len() - 1)
        + ". Export full evidence with railwatch evidence <incident-id> --json."@
}

/// Tells of the evidence of an incident.
pub fn write_evidence(samples: &Vec<Telemetry>) -> (words: String)
    ensures
        words@ == evidence_text(samples.deep_view()),
{
    let mut words = String::new();
    text::push_decimal(&mut words, samples.len() as u128);
    words.append(" retained readings. First: ");
    if samples.len() > 0 {
        text::push_signed(&mut words, samples[0].captured_at_ms as i128);
    }
    words.append(". Last: ");
    if samples.len() > 0 {
        let last: usize = samples.len() - 1;
        text::push_signed(&mut words, samples[last].captured_at_ms as i128);
    }
    words.append(". Export full evidence with railwatch evidence <incident-id> --json.");
    assert(words@ =~= evidence_text(samples.deep_view()));
    words
}

/// What becomes of an action of the user that is queued.
#[derive(Debug, Clone, Copy, PartialEq, Eq, Structural)]
pub enum Queued {
    Accepted,
    Full,
    Closed,
}

/// What the user is told where an action was not queued.
pub fn queue_notice(queued: Queued) -> (notice: Option<&'static str>)
    ensures
        match queued {
            Queued::Accepted => notice is None,
            Queued::Full => notice matches Some(words) && words@
                == "Still processing earlier requests. Try again shortly."@,
            Queued::Closed => notice matches Some(words) && words@
                == "The connection worker stopped. Reopen the application."@,
        },
{
    match queued {
        Queued::Accepted => None,
        Queued::Full => Some("Still processing earlier requests. Try again shortly."),
        Queued::Closed => Some("The connection worker stopped. Reopen the application."),
    }
}

/// The periods in the order in which they are offered.
pub fn period_at(index: i32) -> (period: Option<Period>)
    ensures
        period == if index == 0 {
            Some(Period::Hour)
        } else if index == 1 {
            Some(Period::Day)
        } else if index == 2 {
            Some(Period::Week)
        } else if index == 3 {
            Some(Period::Month)
        } else if index == 4 {
            Some(Period::Year)
        } else {
            None
        },
{
    match index {
        0 => Some(Period::Hour),
        1 => Some(Period::Day),
        2 => Some(Period::Week),
        3 => Some(Period::Month),
        4 => Some(Period::Year),
        _ => None,
    }
}

/// The session and place of the reading of a snapshot.
pub open spec fn place(s: SnapshotModel) -> Option<(Seq<char>, u64)> {
    match s.telemetry {
        Some(t) => Some((t.session_id, t.sequence)),
        None => None,
    }
}

/// What the graph shows of a snapshot: the output in microwatts, or a gap where it is stale.
pub open spec fn point(s: SnapshotModel, stale: bool) -> Option<i64> {
    if stale {
        None
    } else {
        match s.telemetry {
            Some(t) => Some(t.power_uw),
            None => Some(0),
        }
    }
}

/// What the graph shows of the past.
pub struct Graph {
    pub points: Vec<Option<i64>>,
    /// Whether anything was shown.
    pub started: bool,
    /// The session and place of the last reading.
    pub last: Option<(String, u64)>,
}

impl Graph {
    /// The session and place of the last reading, once anything was shown.
    pub open spec fn shown(&self) -> Option<Option<(Seq<char>, u64)>> {
        if self.started {
            Some(
                match self.last {
                    Some((session, sequence)) => Some((session@, sequence)),
                    None => None,
                },
            )
        } else {
            None
        }
    }

    /// Nothing was shown.
    pub fn new() -> (graph: Graph)
        ensures
            graph.points@.len() == 0,
            graph.shown() is None,
    {
        Graph { points: Vec::new(), started: false, last: None }
    }

    /// Shows another reading; the same one is shown once, and the oldest leaves.
    pub fn show(&mut self, s: &Snapshot, stale: bool)
        ensures
            final(self).shown() == Some(place(s@)),
            final(self).points@ == if old(self).shown() == Some(place(s@)) {
                old(self).points@
            } else {
                bounded::pushed(old(self).points@, point(s@, stale), GRAPH_LENGTH as int)
            },
    {
        let (next, power) = match &s.telemetry {
            Some(t) => (Some((t.session_id.clone(), t.sequence)), t.power_uw),
            None => (None, 0),
        };
        let same = match (&self.last, &next) {
            (Some((session, sequence)), Some((now, at))) => *session == *now && *sequence == *at,
            (None, None) => true,
            _ => false,
        };
        if !(self.started && same) {
            let value: Option<i64> = if stale {
                None
            } else {
                Some(power)
            };
            bounded::push_bounded(&mut self.points, value, GRAPH_LENGTH);
            self.last = next;
            self.started = true;
        }
    }
}

/// All that a reading shows with three decimals is exact, and its loads can be measured.
pub open spec fn showable(t: TelemetryModel) -> bool {
    &&& forall|c: int|
        #![trigger t.connector_currents_ma[c]]
        0 <= c < t.connector_currents_ma.len() ==> load_is_showable(t.connector_currents_ma[c]@)
    &&& forall|r: int|
        #![trigger t.rails[r]]
        0 <= r < t.rails.len() ==> text::shows_exactly(t.rails[r].voltage_mv as int)
            && text::shows_exactly(t.rails[r].current_ma as int)
}

/// All that a connector shows with three decimals is exact, and its load can be measured.
pub open spec fn load_is_showable(currents: Seq<i64>) -> bool {
    &&& measurements::measurable(currents)
    &&& text::shows_exactly(measurements::total(currents))
    &&& text::shows_exactly(measurements::spread(currents))
    &&& forall|i: int| 0 <= i < currents.len() ==> text::shows_exactly(#[trigger] currents[i] as int)
}

/// Whether three decimals of a number of thousandths are exact.
fn is_exact(n: i64) -> (r: bool)
    ensures
        r == text::shows_exactly(n as int),
{
    n >= -text::EXACT_THOUSANDTHS && n <= text::EXACT_THOUSANDTHS
}

/// Whether the load of a connector can be shown.
fn can_show_load(currents: &[i64; 6]) -> (r: bool)
    ensures
        r == load_is_showable(currents@),
{
    if !measurements::is_measurable(currents) {
        return false;
    }
    let (spread, _) = measurements::imbalance(currents);
    if !is_exact(measurements::load(currents)) || !is_exact(spread) {
        return false;
    }
    let mut i: usize = 0;
    while i < 6
        invariant
            i <= 6,
            forall|k: int| 0 <= k < i ==> text::shows_exactly(#[trigger] currents@[k] as int),
        decreases 6 - i,
    {
        if !is_exact(currents[i]) {
            assert(!text::shows_exactly(currents@[i as int] as int));
            return false;
        }
        i = i + 1;
    }
    true
}

/// Whether a reading can be shown.
pub fn can_show(t: &Telemetry) -> (r: bool)
    ensures
        r == showable(t@),
{
    let mut c: usize = 0;
    while c < t.connector_currents_ma.len()
        invariant
            c <= t.connector_currents_ma@.len(),
            forall|k: int|
                #![trigger t@.connector_currents_ma[k]]
                0 <= k < c ==> load_is_showable(t@.connector_currents_ma[k]@),
        decreases t.connector_currents_ma@.len() - c,
    {
        if !can_show_load(&t.connector_currents_ma[c]) {
            assert(!load_is_showable(t@.connector_currents_ma[c as int]@));
            return false;
        }
        c = c + 1;
    }
    let mut r: usize = 0;
    while r < t.rails.len()
        invariant
            r <= t.rails@.len(),
            c == t.connector_currents_ma@.len(),
            forall|k: int|
                #![trigger t@.connector_currents_ma[k]]
                0 <= k < c ==> load_is_showable(t@.connector_currents_ma[k]@),
            forall|k: int|
                #![trigger t@.rails[k]]
                0 <= k < r ==> text::shows_exactly(t@.rails[k].voltage_mv as int)
                    && text::shows_exactly(t@.rails[k].current_ma as int),
        decreases t.rails@.len() - r,
    {
        if !is_exact(t.rails[r].voltage_mv) || !is_exact(t.rails[r].current_ma) {
            assert(t@.rails[r as int] == t.rails@[r as int]@);
            return false;
        }
        r = r + 1;
    }
    true
}

/// Whatever a supply reports can be observed and shown: a reading that was decoded never leaves the
/// limits of the measurements or of the decimals.
pub proof fn decoded_readings_can_be_shown(t: TelemetryModel, d: Seq<u8>)
    requires
        wire::plausible(d),
        protocol::shows(t, d),
    ensures
        alerts::readable(t),
        showable(t),
{
    assert forall|c: int| #![trigger t.connector_currents_ma[c]] 0 <= c < 2 implies load_is_showable(
        t.connector_currents_ma[c]@,
    ) && measurements::spread(t.connector_currents_ma[c]@) <= text::EXACT_THOUSANDTHS by {
        let currents = t.connector_currents_ma[c]@;
        assert forall|i: int| 0 <= i < 6 implies 0 <= #[trigger] currents[i] <= 50_000 by {
            assert(currents[i] == wire::conductor_current(d, c, i));
            wire::linear11_fits(wire::le16(d, 6 + c * 12 + i * 2), wire::Scale::Milli);
        }
        measurements::reported_currents_are_measurable(currents);
    }
    assert forall|r: int| #![trigger t.rails[r]] 0 <= r < 3 implies text::shows_exactly(
        t.rails[r].voltage_mv as int,
    ) && text::shows_exactly(t.rails[r].current_ma as int) by {
        assert(wire::rail_voltage(d, r) <= 20_000);
        assert(wire::rail_current(d, r) <= 200_000);
        wire::linear11_fits(wire::le16(d, 38 + 2 * r), wire::Scale::Milli);
        wire::linear11_fits(wire::le16(d, 2 * r), wire::Scale::Milli);
    }
}

/// Whatever the simulator reports can be observed and shown.
pub proof fn simulated_readings_can_be_shown(t: TelemetryModel, sequence: u64, fault: bool)
    requires
        device::simulates(t, sequence, fault),
    ensures
        alerts::readable(t),
        showable(t),
{
    assert forall|c: int| #![trigger t.connector_currents_ma[c]] 0 <= c < 2 implies load_is_showable(
        t.connector_currents_ma[c]@,
    ) && measurements::spread(t.connector_currents_ma[c]@) <= text::EXACT_THOUSANDTHS by {
        measurements::reported_currents_are_measurable(t.connector_currents_ma[c]@);
    }
}

/// The window shows a reading as frozen after three and a half seconds, and its graph 180 readings.
pub proof fn the_window_has_limits()
    ensures
        FROZEN_MS == 3500,
        GRAPH_LENGTH == 180,
{
}

/// Readings are frozen if and only if the daemon says so, there is none, or it is older than three and a
/// half seconds; otherwise the window tells how old it is.
pub proof fn old_readings_are_frozen(s: SnapshotModel, stale: bool, now_ms: u64)
    ensures
        is_frozen(s, stale, now_ms) <==> stale || s.telemetry is None || (s.telemetry matches Some(t)
            && now_ms - t.monotonic_ms > 3500),
        is_frozen(s, stale, now_ms) ==> status(s, stale, now_ms)
            == "Monitoring interrupted. Readings are frozen."@,
        !is_frozen(s, stale, now_ms) ==> (s.telemetry matches Some(t) && status(s, stale, now_ms)
            == "Monitoring · updated "@ + text::decimal(
            if now_ms >= t.monotonic_ms {
                (now_ms - t.monotonic_ms) as nat
            } else {
                0
            },
        ) + " ms ago"@),
{
    ipc::readings_are_stale_after_a_while(s, now_ms);
}

/// Every open incident is told, then why history is not recorded, why no reading arrives, and what was
/// lost: updates, readings of evidence, and windows of evidence. Nothing else is wrong.
pub proof fn everything_wrong_is_told(s: SnapshotModel)
    ensures
        ({
            let told = problems(s);
            let n = s.active_incidents.len() as int;
            let storage = if s.storage_error is Some {
                1int
            } else {
                0
            };
            let last = if s.last_error is Some {
                1int
            } else {
                0
            };
            let updates = if s.dropped_incident_updates != 0 {
                1int
            } else {
                0
            };
            let samples = if s.dropped_evidence_samples != 0 {
                1int
            } else {
                0
            };
            let windows = if s.truncated_evidence_windows != 0 {
                1int
            } else {
                0
            };
            &&& told.len() == n + storage + last + updates + samples + windows
            &&& forall|i: int|
                0 <= i < n ==> told[i] == (#[trigger] s.active_incidents[i]).message
            &&& s.storage_error matches Some(e) ==> told[n] == "History recording failed: "@ + e
            &&& s.last_error matches Some(e) ==> told[n + storage] == e
            &&& updates == 1 ==> told[n + storage + last] == "History incomplete: "@ + text::decimal(
                s.dropped_incident_updates as nat,
            ) + " incident updates lost"@
            &&& samples == 1 ==> told[n + storage + last + updates] == "History incomplete: "@
                + text::decimal(s.dropped_evidence_samples as nat) + " evidence samples lost"@
            &&& windows == 1 ==> told[n + storage + last + updates + samples]
                == "History incomplete: "@ + text::decimal(s.truncated_evidence_windows as nat)
                + " evidence windows shortened"@
        }),
{
    reveal_strlit("");
    if s.last_error is Some {
        assert(""@ + s.last_error->0 =~= s.last_error->0);
    }
}

/// The text of what is wrong holds all of it, and names the groups that were not read.
pub proof fn unread_groups_are_named(s: SnapshotModel)
    ensures
        (s.telemetry is None || s.telemetry->0.group_errors.len() == 0) ==> problem_text(s)
            == text::join(problems(s), " · "@),
        (s.telemetry matches Some(t) && t.group_errors.len() > 0) ==> problem_text(s) == text::join(
            problems(s),
            " · "@,
        ) + " · Some readings unavailable: "@ + text::join(
            s.telemetry->0.group_errors,
            "; "@,
        ),
{
}

/// A connector is told to have no load where its currents add up to none; otherwise its total, deviation
/// and spread are told.
pub proof fn loads_are_told(a: Seq<i64>)
    requires
        a.len() == 6,
    ensures
        ({
            let total = a[0] + a[1] + a[2] + a[3] + a[4] + a[5];
            &&& total == 0 ==> connector_summary(a) == "No load observed"@
            &&& total != 0 ==> connector_summary(a) == "Total "@ + text::thousandths(total)
                + " A · deviation "@ + text::decimal(measurements::deviation(a) as nat)
                + "% · spread "@ + text::thousandths(measurements::spread(a)) + " A"@
        }),
{
    measurements::total_is_the_sum(a);
}

/// The line of a rail has its name, its volts and its amperes.
pub proof fn rails_are_told(rail: RailModel)
    ensures
        rail_line(rail) == rail.label + "     "@ + text::thousandths(rail.voltage_mv as int)
            + " V     "@ + text::thousandths(rail.current_ma as int) + " A"@,
{
}

/// What is told of the fan: its speed, its mode, its three duties and whether it may stand still; what
/// was not read is said to be unavailable.
pub proof fn fans_are_told(fan: Fan)
    ensures
        ({
            let lines = cooling_lines(fan);
            let told = |duty: Option<u8>|
                match duty {
                    Some(v) => text::decimal(v as nat) + "%"@,
                    None => "Unavailable"@,
                };
            &&& lines.len() == 4
            &&& lines[0] == "Fan speed: "@ + text::signed(fan.rpm as int) + " RPM"@
            &&& lines[1] == "Raw mode: "@ + match fan.mode_raw {
                Some(v) => text::decimal(v as nat),
                None => "Unavailable"@,
            }
            &&& lines[2] == "Requested duty: "@ + told(fan.requested_duty_percent)
                + "   Calculated: "@ + told(fan.calculated_duty_percent) + "   Actual: "@ + told(
                fan.actual_duty_percent,
            )
            &&& fan.zero_fan == Some(true) ==> lines[3] == "Zero fan enabled: "@ + "true"@
            &&& fan.zero_fan == Some(false) ==> lines[3] == "Zero fan enabled: "@ + "false"@
            &&& fan.zero_fan is None ==> lines[3] == "Zero fan enabled: "@ + "Unavailable"@
        }),
{
}

/// What is told of the supply: its name, how it is reached, its revision, what it can do, the policy in
/// force, what was lost and when history was written last.
pub proof fn supplies_are_told(s: SnapshotModel, capabilities: Seq<char>)
    ensures
        ({
            let lines = device_lines(s, capabilities);
            &&& lines.len() == 7
            &&& s.device matches Some(info) ==> {
                &&& lines[0] == "Identity: "@ + info.id
                &&& lines[1] == "Backend: "@ + info.backend
                &&& info.revision matches Some(words) ==> lines[2] == "Firmware revision: "@ + words
                &&& info.revision is None ==> lines[2] == "Firmware revision: "@ + "Unavailable"@
            }
            &&& s.device is None ==> {
                &&& lines[0] == "Identity: "@ + "Unavailable"@
                &&& lines[1] == "Backend: "@ + "Unavailable"@
                &&& lines[2] == "Firmware revision: "@ + "Unavailable"@
            }
            &&& lines[3] == "Capabilities: "@ + capabilities
            &&& lines[4] == "Policy revision: "@ + text::decimal(s.policy_revision as nat)
            &&& lines[5] == "History samples dropped: "@ + text::decimal(s.dropped_samples as nat)
            &&& s.last_persisted_at_ms matches Some(at) ==> lines[6] == "Last history commit: "@
                + text::signed(at as int)
            &&& s.last_persisted_at_ms is None ==> lines[6] == "Last history commit: "@ + "null"@
        }),
{
}

/// What is told of a period: its energy at the wall and at the output, its cost where it has one, how
/// long it was observed, and whether some of it has no price. Without a period there is a line that says
/// so.
pub proof fn energy_is_told(list: Seq<EnergyLine>, i: int)
    ensures
        list.len() == 0 ==> energy_lines(list) == seq!["No recorded energy in this range."@],
        0 <= i < list.len() ==> {
            let e = list[i];
            let currency = match e.currency {
                Some(words) => words@,
                None => ""@,
            };
            let cost = match e.cost {
                Some(words) => words@,
                None => "Unpriced"@,
            };
            let line = e.period@ + "     "@ + e.wall_kwh@ + " kWh wall     "@ + e.output_kwh@
                + " kWh output     "@ + currency + " "@ + cost + "     "@ + e.minutes@
                + " min observed"@;
            &&& energy_lines(list).len() == list.len()
            &&& e.incomplete_pricing ==> energy_lines(list)[i] == line + " · partial pricing"@
            &&& !e.incomplete_pricing ==> energy_lines(list)[i] == line
        },
{
    reveal_strlit("");
    if 0 <= i < list.len() && !list[i].incomplete_pricing {
        let line = energy_line(list[i]);
        assert(energy_lines(list)[i] == line);
    }
}

/// A row tells its incident: whether it is open, critical or acknowledged, and since when.
pub proof fn incidents_are_told(row: IncidentRow, i: IncidentModel)
    requires
        row.tells(i),
    ensures
        row.id@ == i.id,
        row.title@ == i.message,
        row.critical <==> i.severity == "critical"@,
        row.acknowledged <==> i.acknowledged_at_ms is Some,
        i.recovered_at_ms is None ==> row.detail@ == i.source + " · "@ + "Active"@ + " · "@
            + calendar::instant_text(i.started_at_ms),
        i.recovered_at_ms is Some ==> row.detail@ == i.source + " · "@ + "Recovered"@ + " · "@
            + calendar::instant_text(i.started_at_ms),
{
}

/// A price is told with its currency and its first moment.
pub proof fn prices_are_told(t: TariffModel)
    ensures
        tariff_line(t) == t.currency + "  "@ + history::amount(t.microcurrency_per_kwh as int)
            + " per kWh  from "@ + calendar::instant_text(t.effective_at_ms),
{
}

/// The configuration of a report are the bytes from the third to the tenth, as far as there are any,
/// and each is told as a number.
pub proof fn configurations_are_told(report: Seq<u8>, i: int)
    ensures
        configuration(report).len() == if report.len() <= 2 {
            0
        } else if report.len() <= 10 {
            report.len() - 2
        } else {
            8
        },
        0 <= i < configuration(report).len() ==> {
            &&& configuration(report)[i] == report[i + 2]
            &&& byte_texts(configuration(report))[i] == text::decimal(report[i + 2] as nat)
        },
        byte_texts(configuration(report)).len() == configuration(report).len(),
{
}

/// Evidence is told by how many readings it has, and when the first and the last were taken.
pub proof fn evidence_is_told(samples: Seq<TelemetryModel>)
    ensures
        samples.len() > 0 ==> evidence_text(samples) == text::decimal(samples.len())
            + " retained readings. First: "@ + text::signed(samples.first().captured_at_ms as int)
            + ". Last: "@ + text::signed(samples.last().captured_at_ms as int)
            + ". Export full evidence with railwatch evidence <incident-id> --json."@,
        samples.len() == 0 ==> captured_text(samples, 0).len() == 0 && captured_text(
            samples,
            samples.len() - 1,
        ).len() == 0,
{
}

/// The graph shows the output of a reading, nothing of a snapshot without one, and a gap while readings
/// are stale. A reading is known by its session and its place in it.
pub proof fn graphs_show_the_output(s: SnapshotModel)
    ensures
        point(s, true) is None,
        s.telemetry matches Some(t) ==> point(s, false) == Some(t.power_uw) && place(s) == Some(
            (t.session_id, t.sequence),
        ),
        s.telemetry is None ==> point(s, false) == Some(0i64) && place(s) is None,
{
}

/// A reading can be shown if and only if the loads of all its connectors can be measured, and no current,
/// load, spread or voltage of it is beyond four million millions in either direction.
pub proof fn only_huge_readings_are_not_shown(t: TelemetryModel)
    ensures
        ({
            let exact = |n: int| -4_000_000_000_000_000 <= n <= 4_000_000_000_000_000;
            let loads = forall|c: int|
                0 <= c < t.connector_currents_ma.len() ==> {
                    let a = (#[trigger] t.connector_currents_ma[c])@;
                    &&& measurements::measurable(a)
                    &&& exact(a[0] + a[1] + a[2] + a[3] + a[4] + a[5])
                    &&& exact(measurements::spread(a))
                    &&& exact(a[0] as int) && exact(a[1] as int) && exact(a[2] as int) && exact(
                        a[3] as int,
                    ) && exact(a[4] as int) && exact(a[5] as int)
                };
            let rails = forall|r: int|
                0 <= r < t.rails.len() ==> exact((#[trigger] t.rails[r]).voltage_mv as int)
                    && exact(t.rails[r].current_ma as int);
            showable(t) <==> loads && rails
        }),
{
    assert forall|c: int| 0 <= c < t.connector_currents_ma.len() implies load_is_showable(
        (#[trigger] t.connector_currents_ma[c])@,
    ) == {
        let a = t.connector_currents_ma[c]@;
        let exact = |n: int| -4_000_000_000_000_000 <= n <= 4_000_000_000_000_000;
        &&& measurements::measurable(a)
        &&& exact(a[0] + a[1] + a[2] + a[3] + a[4] + a[5])
        &&& exact(measurements::spread(a))
        &&& exact(a[0] as int) && exact(a[1] as int) && exact(a[2] as int) && exact(a[3] as int)
            && exact(a[4] as int) && exact(a[5] as int)
    } by {
        let a = t.connector_currents_ma[c]@;
        measurements::total_is_the_sum(a);
        if text::shows_exactly(a[0] as int) && text::shows_exactly(a[1] as int)
            && text::shows_exactly(a[2] as int) && text::shows_exactly(a[3] as int)
            && text::shows_exactly(a[4] as int) && text::shows_exactly(a[5] as int) {
            assert forall|i: int| 0 <= i < a.len() implies text::shows_exactly(
                #[trigger] a[i] as int,
            ) by {
                assert(i == 0 || i == 1 || i == 2 || i == 3 || i == 4 || i == 5);
            }
        }
    }
}

} // verus!
