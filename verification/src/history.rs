//! Energy is kept apart from samples and prices, so a later price leaves recorded history alone.
use crate::alerts;
use crate::arith;
use crate::calendar::{self, Period, Zone};
use crate::model::{Telemetry, TelemetryModel};
use crate::ordered_map::{self, Entries, OrderedMap};
use crate::pricing::{Tariff, TariffModel};
use crate::text;
use vstd::prelude::*;
use vstd::string::StringExecFns;

verus! {

/// A part of the time between two readings that lies within one minute.
#[derive(Debug, Clone, Copy, PartialEq, Eq, Structural)]
pub struct Segment {
    pub minute_ms: i64,
    pub from_ms: i64,
    pub to_ms: i64,
}

/// A reading continues the one before: the same supply and session, a later place in it, and a
/// short time between them on which the two clocks agree.
pub open spec fn continues(p: TelemetryModel, t: TelemetryModel, max_gap_ms: u64) -> bool {
    let elapsed = alerts::elapsed(t.monotonic_ms, p.monotonic_ms);
    let wall = t.captured_at_ms - p.captured_at_ms;
    &&& p.session_id == t.session_id
    &&& p.device_id == t.device_id
    &&& t.sequence > p.sequence
    &&& 0 < elapsed <= max_gap_ms
    &&& wall > 0
    &&& -100 <= wall - elapsed <= 100
}

/// Where the part of a time ends that begins at `at` and stays within one minute.
pub open spec fn part_end(at: int, end: int) -> int {
    if arith::minute_floor(at) + 60_000 < end {
        arith::minute_floor(at) + 60_000
    } else {
        end
    }
}

/// The parts, minute by minute, of the time from `at` to `end`.
pub open spec fn parts(at: int, end: int) -> Seq<Segment>
    decreases end - at,
{
    if at >= end {
        Seq::empty()
    } else {
        seq![
            Segment {
                minute_ms: arith::minute_floor(at) as i64,
                from_ms: at as i64,
                to_ms: part_end(at, end) as i64,
            },
        ] + parts(part_end(at, end), end)
    }
}

/// The parts of the time between two readings over which energy is recorded.
pub open spec fn recorded(p: Option<TelemetryModel>, t: TelemetryModel, max_gap_ms: u64) -> Seq<
    Segment,
> {
    match p {
        Some(p) => if continues(p, t, max_gap_ms) {
            parts(p.captured_at_ms as int, t.captured_at_ms as int)
        } else {
            Seq::empty()
        },
        None => Seq::empty(),
    }
}

/// The first minute of a time begins and its last minute ends at a time that can be represented.
pub open spec fn minutes_fit(from: i64, to: i64) -> bool {
    &&& arith::minute_floor(from as int) >= i64::MIN
    &&& arith::minute_floor(to - 1) + 60_000 <= i64::MAX
}

/// The time between two readings can be represented, and so can its minutes where energy is
/// recorded over it.
pub open spec fn measurable_gap(
    p: Option<TelemetryModel>,
    t: TelemetryModel,
    max_gap_ms: u64,
) -> bool {
    match p {
        Some(p) => {
            &&& i64::MIN <= t.captured_at_ms - p.captured_at_ms <= i64::MAX
            &&& continues(p, t, max_gap_ms) ==> minutes_fit(p.captured_at_ms, t.captured_at_ms)
        },
        None => true,
    }
}

/// Whether a reading continues the last one.
fn does_continue(p: &Telemetry, sample: &Telemetry, max_gap_ms: u64) -> (r: bool)
    ensures
        r == continues(p@, sample@, max_gap_ms),
{
    let elapsed: u64 = sample.monotonic_ms.saturating_sub(p.monotonic_ms);
    let wall: i128 = sample.captured_at_ms as i128 - p.captured_at_ms as i128;
    let drift: i128 = wall - elapsed as i128;
    p.session_id == sample.session_id && p.device_id == sample.device_id && sample.sequence
        > p.sequence && elapsed > 0 && elapsed <= max_gap_ms && wall > 0 && drift <= 100 && drift
        >= -100
}

/// Whether the first minute of a time begins and its last one ends at a time that can be
/// represented.
fn do_minutes_fit(from: i64, to: i64) -> (r: bool)
    requires
        from < to,
    ensures
        r == minutes_fit(from, to),
{
    // The first time of which the minute begins within 64 bits, and the last one of which it ends.
    from >= -9_223_372_036_854_720_000 && to - 1 < 9_223_372_036_854_720_000
}

/// Whether the time since the last sample can be represented, and its minutes where energy is
/// recorded over it.
pub fn can_measure_gap(recorder: &Recorder, sample: &Telemetry, max_gap_ms: u64) -> (r: bool)
    ensures
        r == measurable_gap(recorder@, sample@, max_gap_ms),
{
    match &recorder.previous {
        Some(p) => {
            let wall: i128 = sample.captured_at_ms as i128 - p.captured_at_ms as i128;
            wall >= i64::MIN as i128 && wall <= i64::MAX as i128 && (!does_continue(
                p,
                sample,
                max_gap_ms,
            ) || do_minutes_fit(p.captured_at_ms, sample.captured_at_ms))
        },
        None => true,
    }
}

/// Splits a time into its parts, minute by minute.
fn split_minutes(from: i64, to: i64) -> (list: Vec<Segment>)
    requires
        minutes_fit(from, to),
    ensures
        list@ == parts(from as int, to as int),
{
    let mut list: Vec<Segment> = Vec::new();
    let mut at: i64 = from;
    assert(list@ + parts(at as int, to as int) =~= parts(at as int, to as int));
    while at < to
        invariant
            minutes_fit(at, to),
            list@ + parts(at as int, to as int) == parts(from as int, to as int),
        decreases to - at,
    {
        let minute: i64 = arith::minute_start(at);
        let end: i64 = if minute + 60_000 < to {
            minute + 60_000
        } else {
            to
        };
        let ghost so_far = list@;
        let segment = Segment { minute_ms: minute, from_ms: at, to_ms: end };
        list.push(segment);
        assert(so_far + (seq![segment] + parts(end as int, to as int)) =~= list@ + parts(
            end as int,
            to as int,
        ));
        at = end;
    }
    assert(list@ + Seq::<Segment>::empty() =~= list@);
    list
}

/// The power from the wall can be estimated without leaving 64 bits.
pub open spec fn input_fits(t: TelemetryModel) -> bool {
    0 < t.efficiency_millipercent <= 100_000 ==> i64::MIN <= t.power_uw * 100_000 <= i64::MAX
}

/// Whether the power from the wall can be estimated without leaving 64 bits.
pub fn can_estimate_input(t: &Telemetry) -> (r: bool)
    ensures
        r == input_fits(t@),
{
    if t.efficiency_millipercent > 0 && t.efficiency_millipercent <= 100_000 {
        let scaled: i128 = t.power_uw as i128 * 100_000;
        scaled >= i64::MIN as i128 && scaled <= i64::MAX as i128
    } else {
        true
    }
}

/// What is remembered of the last sample.
pub struct Recorder {
    pub previous: Option<Telemetry>,
}

/// The last sample.
pub open spec fn last_sample(previous: Option<Telemetry>) -> Option<TelemetryModel> {
    match previous {
        Some(t) => Some(t@),
        None => None,
    }
}

impl View for Recorder {
    type V = Option<TelemetryModel>;

    open spec fn view(&self) -> Option<TelemetryModel> {
        last_sample(self.previous)
    }
}

impl Recorder {
    /// Nothing was recorded yet.
    pub fn new() -> (recorder: Recorder)
        ensures
            recorder@ is None,
    {
        Recorder { previous: None }
    }

    /// The parts of the time since the last sample over which energy is recorded.
    pub fn plan(&self, sample: &Telemetry, max_gap_ms: u64) -> (list: Vec<Segment>)
        requires
            measurable_gap(self@, sample@, max_gap_ms),
        ensures
            list@ == recorded(self@, sample@, max_gap_ms),
    {
        match &self.previous {
            Some(p) => if does_continue(p, sample, max_gap_ms) {
                split_minutes(p.captured_at_ms, sample.captured_at_ms)
            } else {
                Vec::new()
            },
            None => Vec::new(),
        }
    }

    /// The powers from the wall at both ends of the time since the last sample, where both are known.
    pub fn inputs(&self, sample: &Telemetry) -> (ends: Option<(i64, i64)>)
        requires
            self@ matches Some(p) ==> input_fits(p),
            input_fits(sample@),
        ensures
            match ends {
                Some((before, now)) => self@ matches Some(p) && p.input_uw() == Some(before as int)
                    && sample@.input_uw() == Some(now as int),
                None => match self@ {
                    Some(p) => p.input_uw() is None || sample@.input_uw() is None,
                    None => true,
                },
            },
    {
        match &self.previous {
            Some(p) => match (p.estimated_input_uw(), sample.estimated_input_uw()) {
                (Some(before), Some(now)) => Some((before, now)),
                _ => None,
            },
            None => None,
        }
    }

    /// Remembers a sample that was recorded.
    pub fn commit(&mut self, sample: &Telemetry)
        ensures
            final(self)@ == Some(sample@),
    {
        self.previous = Some(sample.clone());
    }
}

/// The energy of one minute.
#[derive(Debug, Clone, Copy, PartialEq, Eq, Structural)]
pub struct EnergyRow {
    pub minute_ms: i64,
    pub output_uj: i64,
    pub input_uj: i64,
    pub observed_ms: i64,
    pub input_observed_ms: i64,
}

impl Segment {
    /// The energy of a part: an input that is not known is not observed either.
    pub open spec fn row(self, output_uj: i64, input_uj: Option<i64>) -> EnergyRow {
        EnergyRow {
            minute_ms: self.minute_ms,
            output_uj,
            input_uj: match input_uj {
                Some(n) => n,
                None => 0,
            },
            observed_ms: (self.to_ms - self.from_ms) as i64,
            input_observed_ms: if input_uj is Some {
                (self.to_ms - self.from_ms) as i64
            } else {
                0
            },
        }
    }

    /// The energy of a part.
    pub fn energy(&self, output_uj: i64, input_uj: Option<i64>) -> (row: EnergyRow)
        requires
            0 <= self.to_ms - self.from_ms <= i64::MAX,
        ensures
            row == self.row(output_uj, input_uj),
    {
        let observed: i64 = self.to_ms - self.from_ms;
        match input_uj {
            Some(n) => EnergyRow {
                minute_ms: self.minute_ms,
                output_uj,
                input_uj: n,
                observed_ms: observed,
                input_observed_ms: observed,
            },
            None => EnergyRow {
                minute_ms: self.minute_ms,
                output_uj,
                input_uj: 0,
                observed_ms: observed,
                input_observed_ms: 0,
            },
        }
    }
}

/// How long some parts are together.
pub open spec fn duration(list: Seq<Segment>) -> int
    decreases list.len(),
{
    if list.len() == 0 {
        0
    } else {
        duration(list.drop_last()) + (list.last().to_ms - list.last().from_ms)
    }
}

/// The parts of a time follow each other without gap or overlap from its beginning to its end,
/// each within the minute that it names: every observed millisecond is recorded once.
pub proof fn parts_cover_the_time(from: i64, to: i64)
    requires
        from < to,
        minutes_fit(from, to),
    ensures
        ({
            let list = parts(from as int, to as int);
            &&& list.len() > 0
            &&& list[0].from_ms == from
            &&& list.last().to_ms == to
            &&& duration(list) == to - from
            &&& forall|i: int|
                #![trigger list[i]]
                0 <= i < list.len() ==> {
                    &&& list[i].minute_ms == arith::minute_floor(list[i].from_ms as int)
                    &&& list[i].minute_ms <= list[i].from_ms < list[i].to_ms
                    &&& list[i].to_ms <= list[i].minute_ms + 60_000
                }
            &&& forall|i: int|
                #![trigger list[i]]
                0 < i < list.len() ==> list[i].from_ms == list[i - 1].to_ms
        }),
    decreases to - from,
{
    let list = parts(from as int, to as int);
    let end = part_end(from as int, to as int) as i64;
    let first = Segment {
        minute_ms: arith::minute_floor(from as int) as i64,
        from_ms: from,
        to_ms: end,
    };
    let rest = parts(end as int, to as int);
    assert(list == seq![first] + rest);
    assert(list[0] == first);
    duration_adds(first, rest);
    if end < to {
        parts_cover_the_time(end, to);
        assert forall|i: int| #![trigger list[i]] 0 < i < list.len() implies list[i].from_ms
            == list[i - 1].to_ms by {
            assert(list[i] == rest[i - 1]);
            if i > 1 {
                assert(list[i - 1] == rest[i - 2]);
                assert(rest[i - 1].from_ms == rest[i - 2].to_ms);
            }
        }
        assert forall|i: int| #![trigger list[i]] 0 <= i < list.len() implies {
            &&& list[i].minute_ms == arith::minute_floor(list[i].from_ms as int)
            &&& list[i].minute_ms <= list[i].from_ms < list[i].to_ms
            &&& list[i].to_ms <= list[i].minute_ms + 60_000
        } by {
            if i > 0 {
                assert(list[i] == rest[i - 1]);
            }
        }
        assert(list.last() == rest.last());
    } else {
        assert(rest =~= Seq::<Segment>::empty());
        assert(list =~= seq![first]);
    }
}

/// A time is parted where a minute ends, and nowhere else: each part but the first begins with its
/// minute.
pub proof fn later_parts_begin_with_their_minute(from: i64, to: i64)
    requires
        from < to,
        minutes_fit(from, to),
    ensures
        ({
            let list = parts(from as int, to as int);
            forall|i: int| 0 < i < list.len() ==> (#[trigger] list[i]).from_ms == list[i].minute_ms
        }),
    decreases to - from,
{
    let list = parts(from as int, to as int);
    let end = part_end(from as int, to as int) as i64;
    let rest = parts(end as int, to as int);
    if end < to {
        later_parts_begin_with_their_minute(end, to);
        assert(rest[0].from_ms == end && rest[0].minute_ms == end);
        assert forall|i: int| 0 < i < list.len() implies (#[trigger] list[i]).from_ms
            == list[i].minute_ms by {
            assert(list[i] == rest[i - 1]);
        }
    }
}

/// The parts of a time touch each other.
proof fn parts_touch(from: i64, to: i64)
    requires
        from < to,
        minutes_fit(from, to),
    ensures
        ({
            let list = parts(from as int, to as int);
            forall|i: int, j: int|
                #![trigger list[i], list[j]]
                0 <= i < j < list.len() && j == i + 1 ==> list[j].from_ms == list[i].to_ms
        }),
    decreases to - from,
{
    let list = parts(from as int, to as int);
    let end = part_end(from as int, to as int) as i64;
    let rest = parts(end as int, to as int);
    if end < to {
        parts_touch(end, to);
        assert(rest[0].from_ms == end);
        assert forall|i: int, j: int|
            #![trigger list[i], list[j]]
            0 <= i < j < list.len() && j == i + 1 implies list[j].from_ms == list[i].to_ms by {
            assert(list[j] == rest[j - 1]);
            if i > 0 {
                assert(list[i] == rest[i - 1]);
            }
        }
    }
}

/// A part at the front adds its own length.
proof fn duration_adds(first: Segment, rest: Seq<Segment>)
    ensures
        duration(seq![first] + rest) == (first.to_ms - first.from_ms) + duration(rest),
    decreases rest.len(),
{
    let all = seq![first] + rest;
    if rest.len() == 0 {
        assert(all =~= seq![first]);
        assert(all.drop_last() =~= Seq::<Segment>::empty());
        assert(duration(all.drop_last()) == 0);
    } else {
        duration_adds(first, rest.drop_last());
        assert(all.drop_last() =~= seq![first] + rest.drop_last());
    }
}

/// No energy is recorded across a restart, a gap, another supply, or a clock that was set or
/// stood still.
pub proof fn interruptions_record_nothing(
    p: TelemetryModel,
    t: TelemetryModel,
    max_gap_ms: u64,
)
    requires
        ({
            let elapsed = alerts::elapsed(t.monotonic_ms, p.monotonic_ms);
            let wall = t.captured_at_ms - p.captured_at_ms;
            ||| p.session_id != t.session_id
            ||| p.device_id != t.device_id
            ||| t.sequence <= p.sequence
            ||| elapsed == 0
            ||| elapsed > max_gap_ms
            ||| wall <= 0
            ||| wall - elapsed > 100
            ||| elapsed - wall > 100
        }),
    ensures
        recorded(Some(p), t, max_gap_ms).len() == 0,
{
}

/// How many dated prices a history holds at most.
pub const MAX_TARIFFS: usize = 4096;

/// The highest price of a kilowatt-hour, in millionths.
pub const MAX_RATE: i64 = 1_000_000_000_000;

/// Why a price was not accepted.
#[derive(Debug, Clone, Copy, PartialEq, Eq, Structural)]
pub enum TariffError {
    /// It does not begin with a minute.
    Unaligned,
    /// It is negative or too high.
    Price,
    /// The currency is not named by three capital letters.
    Currency,
    /// There are too many dated prices.
    Full,
    /// The other prices are in another currency.
    MixedCurrency,
    /// There is a price from that time on, which was not to be replaced.
    Occupied,
}

impl TariffError {
    /// The words in which an error is reported.
    pub open spec fn words(self) -> Seq<char> {
        match self {
            TariffError::Unaligned => "tariff effective time must be at a minute boundary"@,
            TariffError::Price => "invalid electricity price"@,
            TariffError::Currency => "use a three-letter currency such as BRL"@,
            TariffError::Full => "tariff history is limited to 4096 dated rates"@,
            TariffError::MixedCurrency => "cannot combine currencies in one price history"@,
            TariffError::Occupied => "UNIQUE constraint failed: tariffs.effective_ms"@,
        }
    }

    /// The words in which an error is reported.
    pub fn message(&self) -> (words: &'static str)
        ensures
            words@ == self.words(),
    {
        match self {
            TariffError::Unaligned => "tariff effective time must be at a minute boundary",
            TariffError::Price => "invalid electricity price",
            TariffError::Currency => "use a three-letter currency such as BRL",
            TariffError::Full => "tariff history is limited to 4096 dated rates",
            TariffError::MixedCurrency => "cannot combine currencies in one price history",
            TariffError::Occupied => "UNIQUE constraint failed: tariffs.effective_ms",
        }
    }
}

/// A capital letter of the Latin alphabet.
pub open spec fn is_capital(c: char) -> bool {
    'A' <= c <= 'Z'
}

/// The name of a currency: three capital letters.
pub open spec fn is_currency(name: Seq<char>) -> bool {
    name.len() == 3 && is_capital(name[0]) && is_capital(name[1]) && is_capital(name[2])
}

/// Dated prices in the order of their dates, one for each.
pub open spec fn dated(book: Seq<TariffModel>) -> bool {
    forall|i: int, j: int|
        0 <= i < j < book.len() ==> (#[trigger] book[i]).effective_at_ms < (
        #[trigger] book[j]).effective_at_ms
}

/// How many prices are from an earlier time on than `at`.
pub open spec fn earlier(book: Seq<TariffModel>, at: i64) -> nat
    decreases book.len(),
{
    if book.len() == 0 || book[0].effective_at_ms >= at {
        0
    } else {
        1 + earlier(book.drop_first(), at)
    }
}

/// Whether there is a price from `at` on.
pub open spec fn is_occupied(book: Seq<TariffModel>, at: i64) -> bool {
    let place = earlier(book, at) as int;
    place < book.len() && book[place].effective_at_ms == at
}

/// What becomes of a price that is to be added to, or in place of one in, a history of prices.
pub open spec fn tariff_verdict(
    book: Seq<TariffModel>,
    tariff: TariffModel,
    replace: bool,
) -> Result<(), TariffError> {
    let occupied = is_occupied(book, tariff.effective_at_ms);
    if !arith::is_minute(tariff.effective_at_ms as int) {
        Err(TariffError::Unaligned)
    } else if tariff.microcurrency_per_kwh < 0 || tariff.microcurrency_per_kwh > MAX_RATE {
        Err(TariffError::Price)
    } else if !is_currency(tariff.currency) {
        Err(TariffError::Currency)
    } else if book.len() >= MAX_TARIFFS && !(replace && occupied) {
        Err(TariffError::Full)
    } else if book.len() > 0 && book[0].currency != tariff.currency {
        Err(TariffError::MixedCurrency)
    } else if occupied && !replace {
        Err(TariffError::Occupied)
    } else {
        Ok(())
    }
}

/// A history of prices after a price was accepted.
pub open spec fn with_tariff(book: Seq<TariffModel>, tariff: TariffModel) -> Seq<TariffModel> {
    let place = earlier(book, tariff.effective_at_ms) as int;
    if is_occupied(book, tariff.effective_at_ms) {
        book.update(place, tariff)
    } else {
        book.insert(place, tariff)
    }
}

/// Whether a text names a currency.
fn names_currency(name: &str) -> (r: bool)
    ensures
        r == is_currency(name@),
{
    let chars = text::chars_of(name);
    chars.len() == 3 && chars[0] >= 'A' && chars[0] <= 'Z' && chars[1] >= 'A' && chars[1] <= 'Z'
        && chars[2] >= 'A' && chars[2] <= 'Z'
}

/// The place of a time among dated prices.
fn place_of(book: &Vec<Tariff>, at: i64) -> (place: usize)
    ensures
        place == earlier(book.deep_view(), at),
        place <= book@.len(),
{
    let ghost all = book.deep_view();
    let mut place: usize = 0;
    assert(all.skip(0) =~= all);
    while place < book.len() && book[place].effective_at_ms < at
        invariant
            place <= book@.len(),
            all == book.deep_view(),
            earlier(all, at) == place + earlier(all.skip(place as int), at),
        decreases book@.len() - place,
    {
        assert(all.skip(place as int)[0] == book@[place as int]@);
        assert(all.skip(place as int).drop_first() =~= all.skip(place + 1));
        place = place + 1;
    }
    proof {
        if place < book@.len() {
            assert(all.skip(place as int)[0] == book@[place as int]@);
        }
    }
    place
}

/// Accepts a price into a history of prices. Only `replace` puts it in the place of another one.
pub fn set_tariff(book: &mut Vec<Tariff>, tariff: Tariff, replace: bool) -> (r: Result<
    (),
    TariffError,
>)
    ensures
        r == tariff_verdict(old(book).deep_view(), tariff@, replace),
        final(book).deep_view() == if r is Ok {
            with_tariff(old(book).deep_view(), tariff@)
        } else {
            old(book).deep_view()
        },
{
    let ghost before = book.deep_view();
    if !arith::on_minute(tariff.effective_at_ms) {
        return Err(TariffError::Unaligned);
    }
    if tariff.microcurrency_per_kwh < 0 || tariff.microcurrency_per_kwh > MAX_RATE {
        return Err(TariffError::Price);
    }
    if !names_currency(tariff.currency.as_str()) {
        return Err(TariffError::Currency);
    }
    let place = place_of(book, tariff.effective_at_ms);
    let occupied = place < book.len() && book[place].effective_at_ms == tariff.effective_at_ms;
    proof {
        if place < book@.len() {
            assert(before[place as int] == book@[place as int]@);
        }
    }
    if book.len() >= MAX_TARIFFS && !(replace && occupied) {
        return Err(TariffError::Full);
    }
    if book.len() > 0 {
        assert(before[0] == book@[0]@);
        if book[0].currency != tariff.currency {
            return Err(TariffError::MixedCurrency);
        }
    }
    if occupied {
        if !replace {
            return Err(TariffError::Occupied);
        }
        book.set(place, tariff);
        assert(book.deep_view() =~= before.update(place as int, tariff@));
    } else {
        book.insert(place, tariff);
        assert(book.deep_view() =~= before.insert(place as int, tariff@));
    }
    Ok(())
}

/// The place of a time among dated prices splits them.
proof fn place_splits(book: Seq<TariffModel>, at: i64)
    requires
        dated(book),
    ensures
        earlier(book, at) <= book.len(),
        forall|i: int| 0 <= i < earlier(book, at) ==> (#[trigger] book[i]).effective_at_ms < at,
        forall|i: int|
            earlier(book, at) <= i < book.len() ==> (#[trigger] book[i]).effective_at_ms >= at,
    decreases book.len(),
{
    if book.len() > 0 && book[0].effective_at_ms < at {
        let rest = book.drop_first();
        assert(dated(rest)) by {
            assert forall|i: int, j: int| 0 <= i < j < rest.len() implies (
            #[trigger] rest[i]).effective_at_ms < (#[trigger] rest[j]).effective_at_ms by {
                assert(rest[i] == book[i + 1] && rest[j] == book[j + 1]);
            }
        }
        place_splits(rest, at);
        assert forall|i: int| 0 <= i < earlier(book, at) implies (
        #[trigger] book[i]).effective_at_ms < at by {
            if i > 0 {
                assert(rest[i - 1] == book[i]);
            }
        }
        assert forall|i: int| earlier(book, at) <= i < book.len() implies (
        #[trigger] book[i]).effective_at_ms >= at by {
            assert(rest[i - 1] == book[i]);
        }
    }
}

/// A new dated price leaves the earlier and later ones as they are: the history stays in order,
/// each other date keeps its price, and the date of the new one has it.
pub proof fn other_dates_keep_their_prices(
    book: Seq<TariffModel>,
    tariff: TariffModel,
    replace: bool,
    i: int,
)
    requires
        dated(book),
        tariff_verdict(book, tariff, replace) is Ok,
    ensures
        dated(with_tariff(book, tariff)),
        with_tariff(book, tariff).contains(tariff),
        0 <= i < book.len() && book[i].effective_at_ms != tariff.effective_at_ms ==> with_tariff(
            book,
            tariff,
        ).contains(book[i]),
        !replace && 0 <= i < book.len() ==> with_tariff(book, tariff).contains(book[i]),
{
    let at = tariff.effective_at_ms;
    let place = earlier(book, at) as int;
    let after = with_tariff(book, tariff);
    place_splits(book, at);
    assert(after[place] == tariff);
    if is_occupied(book, at) {
        assert forall|a: int, b: int| 0 <= a < b < after.len() implies (
        #[trigger] after[a]).effective_at_ms < (#[trigger] after[b]).effective_at_ms by {
            assert(book[a].effective_at_ms < book[b].effective_at_ms);
        }
        if 0 <= i < book.len() && i != place {
            assert(after[i] == book[i]);
        }
    } else {
        assert forall|a: int, b: int| 0 <= a < b < after.len() implies (
        #[trigger] after[a]).effective_at_ms < (#[trigger] after[b]).effective_at_ms by {
            let x = if a < place { a } else { a - 1 };
            let y = if b < place { b } else { b - 1 };
            if a != place && b != place {
                assert(after[a] == book[x] && after[b] == book[y]);
            } else if a == place {
                assert(after[b] == book[b - 1]);
            } else {
                assert(after[a] == book[a]);
            }
        }
        if 0 <= i < book.len() {
            if i < place {
                assert(after[i] == book[i]);
            } else {
                assert(after[i + 1] == book[i]);
            }
        }
    }
}

/// All prices are in one currency.
pub open spec fn one_currency(book: Seq<TariffModel>) -> bool {
    forall|i: int, j: int|
        0 <= i < book.len() && 0 <= j < book.len() ==> (#[trigger] book[i]).currency == (
        #[trigger] book[j]).currency
}

/// Currencies are never combined, and a history never grows beyond its limit.
pub proof fn currencies_never_mix(book: Seq<TariffModel>, tariff: TariffModel, replace: bool)
    requires
        dated(book),
        one_currency(book),
        book.len() <= MAX_TARIFFS,
        tariff_verdict(book, tariff, replace) is Ok,
    ensures
        one_currency(with_tariff(book, tariff)),
        with_tariff(book, tariff).len() <= MAX_TARIFFS,
{
    let at = tariff.effective_at_ms;
    let place = earlier(book, at) as int;
    let after = with_tariff(book, tariff);
    place_splits(book, at);
    assert forall|k: int| 0 <= k < after.len() implies (#[trigger] after[k]).currency
        == tariff.currency by {
        if k != place {
            let old = if is_occupied(book, at) || k < place { k } else { k - 1 };
            assert(after[k] == book[old]);
            assert(book[old].currency == book[0].currency);
        }
    }
}

/// Why stored prices cannot be used.
#[derive(Debug, Clone, Copy, PartialEq, Eq, Structural)]
pub enum StoredTariffs {
    /// There are more than are supported.
    TooMany,
}

impl StoredTariffs {
    /// The words in which the error is reported.
    pub fn message(&self) -> (words: &'static str)
        ensures
            words@ == "stored tariff history exceeds the supported limit"@,
    {
        "stored tariff history exceeds the supported limit"
    }
}

/// Checks how many prices are stored.
pub fn check_tariffs(stored: &Vec<Tariff>) -> (r: Result<(), StoredTariffs>)
    ensures
        r == if stored@.len() <= MAX_TARIFFS {
            Ok::<(), StoredTariffs>(())
        } else {
            Err(StoredTariffs::TooMany)
        },
{
    if stored.len() <= MAX_TARIFFS {
        Ok(())
    } else {
        Err(StoredTariffs::TooMany)
    }
}

/// How many periods an answer holds at most.
pub const MAX_SUMMARY_BUCKETS: usize = 10_000;

/// Why energy was not summed up.
#[derive(Debug, Clone, Copy, PartialEq, Eq, Structural)]
pub enum SummaryError {
    /// The range is empty or not aligned to minutes.
    Range,
    /// The period has no such name.
    Period,
    /// The time zone has no such name.
    Zone,
    /// A stored time has no date.
    StoredTime,
    /// There are too many periods.
    TooManyPeriods,
}

impl SummaryError {
    /// The words in which an error is reported.
    pub open spec fn words(self) -> Seq<char> {
        match self {
            SummaryError::Range => "range must be increasing and aligned to minutes"@,
            SummaryError::Period => "invalid period"@,
            SummaryError::Zone => "failed to parse timezone"@,
            SummaryError::StoredTime => "invalid stored timestamp"@,
            SummaryError::TooManyPeriods =>
                "energy query exceeds 10000 periods; choose a shorter range or a larger period"@,
        }
    }

    /// The words in which an error is reported.
    pub fn message(&self) -> (words: &'static str)
        ensures
            words@ == self.words(),
    {
        match self {
            SummaryError::Range => "range must be increasing and aligned to minutes",
            SummaryError::Period => "invalid period",
            SummaryError::Zone => "failed to parse timezone",
            SummaryError::StoredTime => "invalid stored timestamp",
            SummaryError::TooManyPeriods =>
                "energy query exceeds 10000 periods; choose a shorter range or a larger period",
        }
    }
}

/// A range of whole minutes that is not empty.
pub open spec fn is_range(from: i64, to: i64) -> bool {
    from < to && arith::is_minute(from as int) && arith::is_minute(to as int)
}

/// Checks what is asked of the energy that is recorded.
pub fn check_query(from: i64, to: i64, period: &str, timezone: &str) -> (r: Result<
    (Period, Zone),
    SummaryError,
>)
    ensures
        if !is_range(from, to) {
            r matches Err(SummaryError::Range)
        } else if forall|p: Period| #[trigger] p.title() != period@ {
            r matches Err(SummaryError::Period)
        } else if !calendar::zone_known(timezone@) {
            r matches Err(SummaryError::Zone)
        } else {
            r matches Ok((p, z)) && p.title() == period@ && z@ == timezone@
        },
{
    if !(from < to && arith::on_minute(from) && arith::on_minute(to)) {
        return Err(SummaryError::Range);
    }
    match Period::named(period) {
        None => Err(SummaryError::Period),
        Some(p) => {
            assert(p.title() == period@);
            match Zone::parse(timezone) {
                None => Err(SummaryError::Zone),
                Some(z) => Ok((p, z)),
            }
        },
    }
}

/// The price at a time: the last one that is dated not after it.
pub open spec fn rate_at(book: Seq<TariffModel>, at: i64) -> Option<TariffModel>
    decreases book.len(),
{
    if book.len() == 0 {
        None
    } else if book.last().effective_at_ms <= at {
        Some(book.last())
    } else {
        rate_at(book.drop_last(), at)
    }
}

/// The price at a time is the latest that is dated not after it.
pub proof fn latest_price_applies(book: Seq<TariffModel>, at: i64, i: int)
    requires
        dated(book),
        0 <= i < book.len(),
        book[i].effective_at_ms <= at,
    ensures
        rate_at(book, at) matches Some(rate) && book[i].effective_at_ms <= rate.effective_at_ms
            <= at,
    decreases book.len(),
{
    if book.last().effective_at_ms > at {
        assert(book.drop_last()[i] == book[i]);
        latest_price_applies(book.drop_last(), at, i);
    }
}

/// What is summed up for one period.
pub struct Bucket {
    pub output_uj: i128,
    pub input_uj: i128,
    pub output_observed_ms: i64,
    pub input_observed_ms: i64,
    pub priced_observed_ms: i64,
    pub currency: Option<String>,
    /// Microjoules times millionths of the currency per kilowatt-hour.
    pub cost: i128,
}

/// What is summed up for one period, without limits.
pub struct BucketModel {
    pub output_uj: int,
    pub input_uj: int,
    pub output_observed_ms: int,
    pub input_observed_ms: int,
    pub priced_observed_ms: int,
    pub currency: Option<Seq<char>>,
    pub cost: int,
}

impl View for Bucket {
    type V = BucketModel;

    open spec fn view(&self) -> BucketModel {
        BucketModel {
            output_uj: self.output_uj as int,
            input_uj: self.input_uj as int,
            output_observed_ms: self.output_observed_ms as int,
            input_observed_ms: self.input_observed_ms as int,
            priced_observed_ms: self.priced_observed_ms as int,
            currency: match self.currency {
                Some(c) => Some(c@),
                None => None,
            },
            cost: self.cost as int,
        }
    }
}

/// What rounds a cost to the nearest millionth of the currency.
pub const HALF_KWH_UJ: i128 = 1_800_000_000_000;

/// The microjoules of a kilowatt-hour.
pub const KWH_UJ: i128 = 3_600_000_000_000;

impl BucketModel {
    /// Nothing was summed up.
    pub open spec fn empty() -> BucketModel {
        BucketModel {
            output_uj: 0,
            input_uj: 0,
            output_observed_ms: 0,
            input_observed_ms: 0,
            priced_observed_ms: 0,
            currency: None,
            cost: 0,
        }
    }

    /// With the energy of one more minute, at the price of that minute.
    pub open spec fn with_row(self, row: EnergyRow, rate: Option<TariffModel>) -> BucketModel {
        let summed = BucketModel {
            output_uj: self.output_uj + row.output_uj,
            input_uj: self.input_uj + row.input_uj,
            output_observed_ms: self.output_observed_ms + row.observed_ms,
            input_observed_ms: self.input_observed_ms + row.input_observed_ms,
            ..self
        };
        match rate {
            Some(rate) => BucketModel {
                priced_observed_ms: self.priced_observed_ms + row.input_observed_ms,
                currency: Some(rate.currency),
                cost: self.cost + row.input_uj * rate.microcurrency_per_kwh,
                ..summed
            },
            None => summed,
        }
    }

    /// The sums can be represented, and the cost can be rounded.
    pub open spec fn fits(self) -> bool {
        &&& i64::MIN <= self.output_observed_ms <= i64::MAX
        &&& i64::MIN <= self.input_observed_ms <= i64::MAX
        &&& i64::MIN <= self.priced_observed_ms <= i64::MAX
        &&& i128::MIN < self.cost <= i128::MAX - HALF_KWH_UJ
    }

    /// The cost in millionths of the currency, rounded to the nearest.
    pub open spec fn micro(self) -> int {
        arith::quotient(self.cost + HALF_KWH_UJ, KWH_UJ as int)
    }
}

/// How far summing up has come.
pub enum Tally {
    /// The sums by the key of their period.
    Sums(Entries<BucketModel>),
    /// The energy cannot be summed up.
    Refused(SummaryError),
    /// A sum does not fit.
    Overflow,
}

/// The sums of one period.
pub open spec fn sums_of(buckets: Entries<BucketModel>, key: Seq<char>) -> BucketModel {
    match ordered_map::lookup(buckets, key) {
        Some(b) => b,
        None => BucketModel::empty(),
    }
}

impl Tally {
    /// After one more minute, whose period is `key` where its time has a date.
    pub open spec fn with_row(
        self,
        key: Option<Seq<char>>,
        row: EnergyRow,
        book: Seq<TariffModel>,
    ) -> Tally {
        match self {
            Tally::Sums(buckets) => match key {
                None => Tally::Refused(SummaryError::StoredTime),
                Some(key) => if buckets.len() >= MAX_SUMMARY_BUCKETS && !ordered_map::holds(
                    buckets,
                    key,
                ) {
                    Tally::Refused(SummaryError::TooManyPeriods)
                } else {
                    let sums = sums_of(buckets, key).with_row(row, rate_at(book, row.minute_ms));
                    if sums.fits() {
                        Tally::Sums(ordered_map::put(buckets, key, sums))
                    } else {
                        Tally::Overflow
                    }
                },
            },
            _ => self,
        }
    }
}

/// The outcome of summing up the first `n` minutes.
pub open spec fn tally(
    keys: Seq<Option<Seq<char>>>,
    rows: Seq<EnergyRow>,
    book: Seq<TariffModel>,
    n: nat,
) -> Tally
    decreases n,
{
    if n == 0 {
        Tally::Sums(Seq::empty())
    } else {
        tally(keys, rows, book, (n - 1) as nat).with_row(keys[n - 1], rows[n - 1], book)
    }
}

/// What is told of one period. The energy is exact, in microjoules.
#[derive(Debug)]
pub struct EnergySummary {
    pub period: String,
    pub output_uj: i128,
    pub estimated_input_uj: i128,
    pub output_observed_ms: i64,
    pub input_observed_ms: i64,
    pub priced_observed_ms: i64,
    pub cost: Option<String>,
    pub currency: Option<String>,
    pub incomplete_pricing: bool,
}

/// What is told of one period, with texts as characters.
pub struct SummaryModel {
    pub period: Seq<char>,
    pub output_uj: int,
    pub estimated_input_uj: int,
    pub output_observed_ms: int,
    pub input_observed_ms: int,
    pub priced_observed_ms: int,
    pub cost: Option<Seq<char>>,
    pub currency: Option<Seq<char>>,
    pub incomplete_pricing: bool,
}

impl View for EnergySummary {
    type V = SummaryModel;

    open spec fn view(&self) -> SummaryModel {
        SummaryModel {
            period: self.period@,
            output_uj: self.output_uj as int,
            estimated_input_uj: self.estimated_input_uj as int,
            output_observed_ms: self.output_observed_ms as int,
            input_observed_ms: self.input_observed_ms as int,
            priced_observed_ms: self.priced_observed_ms as int,
            cost: match self.cost {
                Some(c) => Some(c@),
                None => None,
            },
            currency: match self.currency {
                Some(c) => Some(c@),
                None => None,
            },
            incomplete_pricing: self.incomplete_pricing,
        }
    }
}

impl DeepView for EnergySummary {
    type V = SummaryModel;

    open spec fn deep_view(&self) -> SummaryModel {
        self@
    }
}

/// An amount of millionths as a decimal with six places.
pub open spec fn amount(micro: int) -> Seq<char> {
    text::signed(arith::quotient(micro, 1_000_000)) + "."@ + text::padded(
        arith::remainder(micro, 1_000_000),
        6,
    )
}

/// What is told of a period with these sums.
pub open spec fn told(key: Seq<char>, b: BucketModel) -> SummaryModel {
    SummaryModel {
        period: key,
        output_uj: b.output_uj,
        estimated_input_uj: b.input_uj,
        output_observed_ms: b.output_observed_ms,
        input_observed_ms: b.input_observed_ms,
        priced_observed_ms: b.priced_observed_ms,
        cost: if b.priced_observed_ms > 0 {
            Some(amount(b.micro()))
        } else {
            None
        },
        currency: b.currency,
        incomplete_pricing: b.priced_observed_ms < b.output_observed_ms,
    }
}

/// What is told of all periods, in the order of their keys.
pub open spec fn told_all(buckets: Entries<BucketModel>) -> Seq<SummaryModel> {
    Seq::new(buckets.len(), |i: int| told(buckets[i].0, buckets[i].1))
}

/// The price at a time.
fn find_rate(book: &Vec<Tariff>, at: i64) -> (found: Option<usize>)
    requires
        dated(book.deep_view()),
    ensures
        match found {
            Some(i) => i < book@.len() && rate_at(book.deep_view(), at) == Some(book@[i as int]@),
            None => rate_at(book.deep_view(), at) is None,
        },
{
    let ghost all = book.deep_view();
    let mut low: usize = 0;
    let mut high: usize = book.len();
    while low < high
        invariant
            low <= high <= book@.len(),
            all == book.deep_view(),
            dated(all),
            forall|i: int| 0 <= i < low ==> (#[trigger] all[i]).effective_at_ms <= at,
            forall|i: int| high <= i < all.len() ==> (#[trigger] all[i]).effective_at_ms > at,
        decreases high - low,
    {
        let middle: usize = low + (high - low) / 2;
        assert(all[middle as int] == book@[middle as int]@);
        if book[middle].effective_at_ms <= at {
            low = middle + 1;
        } else {
            high = middle;
        }
    }
    proof {
        rate_is_before(all, at, low as int);
    }
    if low == 0 {
        None
    } else {
        Some(low - 1)
    }
}

/// The price at a time stands before the first one that is dated after it.
proof fn rate_is_before(book: Seq<TariffModel>, at: i64, place: int)
    requires
        0 <= place <= book.len(),
        forall|i: int| 0 <= i < place ==> (#[trigger] book[i]).effective_at_ms <= at,
        forall|i: int| place <= i < book.len() ==> (#[trigger] book[i]).effective_at_ms > at,
    ensures
        rate_at(book, at) == if place == 0 {
            None
        } else {
            Some(book[place - 1])
        },
    decreases book.len(),
{
    if book.len() > 0 && place < book.len() {
        assert forall|i: int| 0 <= i < place implies (
        #[trigger] book.drop_last()[i]).effective_at_ms <= at by {
            assert(book.drop_last()[i] == book[i]);
        }
        assert forall|i: int| place <= i < book.len() - 1 implies (
        #[trigger] book.drop_last()[i]).effective_at_ms > at by {
            assert(book.drop_last()[i] == book[i]);
        }
        rate_is_before(book.drop_last(), at, place);
    }
}

/// Energy sums of `n` minutes are small enough to be represented.
pub open spec fn moderate(b: BucketModel, n: int) -> bool {
    &&& -n * 0x8000_0000_0000_0000 <= b.output_uj <= n * 0x8000_0000_0000_0000
    &&& -n * 0x8000_0000_0000_0000 <= b.input_uj <= n * 0x8000_0000_0000_0000
}

impl Bucket {
    /// Nothing was summed up.
    fn empty() -> (b: Bucket)
        ensures
            b@ == BucketModel::empty(),
    {
        Bucket {
            output_uj: 0,
            input_uj: 0,
            output_observed_ms: 0,
            input_observed_ms: 0,
            priced_observed_ms: 0,
            currency: None,
            cost: 0,
        }
    }

    /// With the energy of one more minute; nothing where a sum does not fit.
    fn with_row(&self, row: &EnergyRow, rate: Option<&Tariff>, Ghost(n): Ghost<int>) -> (sum: Option<Bucket>)
        requires
            self@.fits(),
            0 <= n < u64::MAX,
            moderate(self@, n),
        ensures
            ({
                let next = self@.with_row(
                    *row,
                    match rate {
                        Some(r) => Some(r@),
                        None => None,
                    },
                );
                &&& moderate(next, n + 1)
                &&& sum matches Some(b) ==> next.fits() && b@ == next
                &&& sum is None ==> !next.fits()
            }),
    {
        let output_uj: i128 = self.output_uj + row.output_uj as i128;
        let input_uj: i128 = self.input_uj + row.input_uj as i128;
        let output_observed: i128 = self.output_observed_ms as i128 + row.observed_ms as i128;
        let input_observed: i128 = self.input_observed_ms as i128 + row.input_observed_ms as i128;
        if output_observed < i64::MIN as i128 || output_observed > i64::MAX as i128
            || input_observed < i64::MIN as i128 || input_observed > i64::MAX as i128 {
            return None;
        }
        match rate {
            Some(rate) => {
                let priced: i128 = self.priced_observed_ms as i128 + row.input_observed_ms as i128;
                if priced < i64::MIN as i128 || priced > i64::MAX as i128 {
                    return None;
                }
                proof {
                    product_fits(row.input_uj as int, rate.microcurrency_per_kwh as int);
                }
                let price: i128 = row.input_uj as i128 * rate.microcurrency_per_kwh as i128;
                let cost: i128 = match self.cost.checked_add(price) {
                    Some(c) => c,
                    None => {
                        return None;
                    },
                };
                if cost == i128::MIN || cost > i128::MAX - HALF_KWH_UJ {
                    return None;
                }
                Some(
                    Bucket {
                        output_uj,
                        input_uj,
                        output_observed_ms: output_observed as i64,
                        input_observed_ms: input_observed as i64,
                        priced_observed_ms: priced as i64,
                        currency: Some(rate.currency.clone()),
                        cost,
                    },
                )
            },
            None => Some(
                Bucket {
                    output_uj,
                    input_uj,
                    output_observed_ms: output_observed as i64,
                    input_observed_ms: input_observed as i64,
                    priced_observed_ms: self.priced_observed_ms,
                    currency: match &self.currency {
                        Some(c) => Some(c.clone()),
                        None => None,
                    },
                    cost: self.cost,
                },
            ),
        }
    }
}

/// The product of two numbers of 64 bits fits in 128.
proof fn product_fits(a: int, b: int)
    requires
        i64::MIN <= a <= i64::MAX,
        i64::MIN <= b <= i64::MAX,
    ensures
        i128::MIN <= a * b <= i128::MAX,
{
    assert(-0x4000_0000_0000_0000_0000_0000_0000_0000 <= a * b
        <= 0x4000_0000_0000_0000_0000_0000_0000_0000) by (nonlinear_arith)
        requires
            -0x8000_0000_0000_0000 <= a <= 0x7fff_ffff_ffff_ffff,
            -0x8000_0000_0000_0000 <= b <= 0x7fff_ffff_ffff_ffff,
    ;
}

/// All sums fit and are moderate.
pub open spec fn all_fit(buckets: Entries<BucketModel>, n: int) -> bool {
    forall|i: int|
        #![trigger buckets[i]]
        0 <= i < buckets.len() ==> buckets[i].1.fits() && moderate(buckets[i].1, n)
}

/// Sums that fit stay so with one more minute.
proof fn sums_keep_fitting(buckets: Entries<BucketModel>, key: Seq<char>, b: BucketModel, n: int)
    requires
        ordered_map::ascending(buckets),
        all_fit(buckets, n),
        b.fits(),
        moderate(b, n + 1),
        n >= 0,
    ensures
        all_fit(ordered_map::put(buckets, key, b), n + 1),
{
    let after = ordered_map::put(buckets, key, b);
    ordered_map::put_is_a_map_update(buckets, key, b);
    assert forall|i: int| #![trigger after[i]] 0 <= i < after.len() implies after[i].1.fits()
        && moderate(after[i].1, n + 1) by {
        ordered_map::unique_key(after, after[i].0, i);
        if after[i].0 != key {
            assert(ordered_map::lookup(buckets, after[i].0) == Some(after[i].1));
            ordered_map::present_at_rank(buckets, after[i].0);
            let at = ordered_map::rank(buckets, after[i].0) as int;
            assert(buckets[at].1 == after[i].1);
        }
    }
}

/// Sums up the energy of minutes by the keys of their periods; nothing where a sum does not fit.
fn sum_up(keys: &Vec<Option<String>>, rows: &Vec<EnergyRow>, book: &Vec<Tariff>) -> (r: Option<
    Result<OrderedMap<Bucket>, SummaryError>,
>)
    requires
        keys@.len() == rows@.len(),
        dated(book.deep_view()),
    ensures
        match tally(keys.deep_view(), rows@, book.deep_view(), rows@.len()) {
            Tally::Sums(buckets) => r matches Some(Ok(map)) && map.wf() && map@ == buckets
                && all_fit(buckets, rows@.len() as int),
            Tally::Refused(e) => r matches Some(Err(f)) && f == e,
            Tally::Overflow => r is None,
        },
{
    let ghost all_keys = keys.deep_view();
    let mut map: OrderedMap<Bucket> = OrderedMap::new();
    let mut i: usize = 0;
    while i < rows.len()
        invariant
            i <= rows@.len(),
            keys@.len() == rows@.len(),
            all_keys == keys.deep_view(),
            dated(book.deep_view()),
            map.wf(),
            tally(all_keys, rows@, book.deep_view(), i as nat) == Tally::Sums(map@),
            all_fit(map@, i as int),
        decreases rows@.len() - i,
    {
        let ghost so_far = tally(all_keys, rows@, book.deep_view(), i as nat);
        let ghost next = tally(all_keys, rows@, book.deep_view(), (i + 1) as nat);
        assert(next == so_far.with_row(all_keys[i as int], rows@[i as int], book.deep_view()));
        let key = match &keys[i] {
            Some(key) => key,
            None => {
                proof {
                    refusals_stay(all_keys, rows@, book.deep_view(), (i + 1) as nat);
                }
                return Some(Err(SummaryError::StoredTime));
            },
        };
        assert(all_keys[i as int] == Some(key@));
        let found = map.find(key.as_str());
        if map.len() >= MAX_SUMMARY_BUCKETS && found.is_none() {
            proof {
                refusals_stay(all_keys, rows@, book.deep_view(), (i + 1) as nat);
            }
            return Some(Err(SummaryError::TooManyPeriods));
        }
        let rate: Option<&Tariff> = match find_rate(book, rows[i].minute_ms) {
            Some(at) => Some(&book[at]),
            None => None,
        };
        proof {
            map.wf_ascends();
        }
        let sum = match found {
            Some(at) => map.value_at(at).with_row(&rows[i], rate, Ghost(i as int)),
            None => Bucket::empty().with_row(&rows[i], rate, Ghost(i as int)),
        };
        match sum {
            Some(bucket) => {
                proof {
                    sums_keep_fitting(map@, key@, bucket@, i as int);
                }
                map.insert(key.clone(), bucket);
            },
            None => {
                proof {
                    refusals_stay(all_keys, rows@, book.deep_view(), (i + 1) as nat);
                }
                return None;
            },
        }
        i = i + 1;
    }
    Some(Ok(map))
}

/// Once summing up has failed, more minutes change nothing.
proof fn refusals_stay(
    keys: Seq<Option<Seq<char>>>,
    rows: Seq<EnergyRow>,
    book: Seq<TariffModel>,
    n: nat,
)
    requires
        n <= rows.len(),
        !(tally(keys, rows, book, n) is Sums),
    ensures
        tally(keys, rows, book, rows.len()) == tally(keys, rows, book, n),
    decreases rows.len() - n,
{
    if n < rows.len() {
        assert(tally(keys, rows, book, n + 1) == tally(keys, rows, book, n));
        refusals_stay(keys, rows, book, n + 1);
    }
}

/// Writes an amount of millionths as a decimal with six places.
pub fn write_amount(micro: i128) -> (words: String)
    requires
        micro > i128::MIN,
    ensures
        words@ == amount(micro as int),
{
    let whole: i128 = arith::divide(micro, 1_000_000);
    let rest: i128 = micro - whole * 1_000_000;
    let mut words = String::new();
    text::push_signed(&mut words, whole);
    words.append(".");
    text::push_padded(&mut words, rest, 6);
    assert(words@ =~= amount(micro as int));
    words
}

/// Tells of a period.
fn tell(key: &String, b: &Bucket) -> (s: EnergySummary)
    requires
        b@.fits(),
    ensures
        s@ == told(key@, b@),
{
    let cost = if b.priced_observed_ms > 0 {
        let micro: i128 = arith::divide(b.cost + HALF_KWH_UJ, KWH_UJ);
        Some(write_amount(micro))
    } else {
        None
    };
    EnergySummary {
        period: key.clone(),
        output_uj: b.output_uj,
        estimated_input_uj: b.input_uj,
        output_observed_ms: b.output_observed_ms,
        input_observed_ms: b.input_observed_ms,
        priced_observed_ms: b.priced_observed_ms,
        cost,
        currency: match &b.currency {
            Some(c) => Some(c.clone()),
            None => None,
        },
        incomplete_pricing: b.priced_observed_ms < b.output_observed_ms,
    }
}

/// Tells of all periods, in the order of their keys.
fn tell_all(map: &OrderedMap<Bucket>, Ghost(n): Ghost<int>) -> (list: Vec<EnergySummary>)
    requires
        map.wf(),
        all_fit(map@, n),
    ensures
        list.deep_view() == told_all(map@),
{
    let mut list: Vec<EnergySummary> = Vec::new();
    let mut i: usize = 0;
    while i < map.len()
        invariant
            i <= map@.len(),
            map.wf(),
            all_fit(map@, n),
            list.deep_view() == told_all(map@).take(i as int),
        decreases map@.len() - i,
    {
        assert(map@[i as int].1.fits());
        let ghost so_far = list.deep_view();
        list.push(tell(map.key_at(i), map.value_at(i)));
        i = i + 1;
        assert(list.deep_view() =~= so_far.push(told_all(map@)[i - 1]));
        assert(list.deep_view() =~= told_all(map@).take(i as int));
    }
    assert(told_all(map@).take(i as int) =~= told_all(map@));
    list
}

/// Sums up the energy of minutes by the keys of their periods.
pub fn summarize(keys: &Vec<Option<String>>, rows: &Vec<EnergyRow>, book: &Vec<Tariff>) -> (r: Option<
    Result<Vec<EnergySummary>, SummaryError>,
>)
    requires
        keys@.len() == rows@.len(),
        dated(book.deep_view()),
    ensures
        match tally(keys.deep_view(), rows@, book.deep_view(), rows@.len()) {
            Tally::Sums(buckets) => r matches Some(Ok(list)) && list.deep_view() == told_all(
                buckets,
            ),
            Tally::Refused(e) => r matches Some(Err(f)) && f == e,
            Tally::Overflow => r is None,
        },
{
    match sum_up(keys, rows, book) {
        Some(Ok(map)) => Some(Ok(tell_all(&map, Ghost(rows@.len() as int)))),
        Some(Err(e)) => Some(Err(e)),
        None => None,
    }
}

/// The key of the period in which a minute lies, where its time has a date.
pub open spec fn key_at(at: i64, period: Period, zone: Seq<char>) -> Option<Seq<char>> {
    if calendar::is_instant(at) {
        Some(period.key(calendar::shown_at(at, zone)))
    } else {
        None
    }
}

/// The keys of the periods in which minutes lie.
pub open spec fn keys_of(rows: Seq<EnergyRow>, period: Period, zone: Seq<char>) -> Seq<
    Option<Seq<char>>,
> {
    Seq::new(rows.len(), |i: int| key_at(rows[i].minute_ms, period, zone))
}

/// The key of the period in which a time lies, where the time has a date.
pub fn period_key(at: i64, period: Period, zone: &Zone) -> (key: Option<String>)
    requires
        calendar::is_instant(at) ==> calendar::is_local_everywhere(at),
    ensures
        match key {
            Some(k) => key_at(at, period, zone@) == Some(k@),
            None => key_at(at, period, zone@) is None,
        },
{
    match calendar::local_time(at, zone) {
        Some(local) => Some(period.key_of(&local)),
        None => None,
    }
}

/// Sums up the energy of minutes by period in a time zone; nothing where a sum does not fit.
pub fn summary(rows: &Vec<EnergyRow>, book: &Vec<Tariff>, period: Period, zone: &Zone) -> (r: Option<
    Result<Vec<EnergySummary>, SummaryError>,
>)
    requires
        dated(book.deep_view()),
        forall|i: int|
            #![trigger rows@[i]]
            0 <= i < rows@.len() && calendar::is_instant(rows@[i].minute_ms)
                ==> calendar::is_local_everywhere(rows@[i].minute_ms),
    ensures
        match tally(keys_of(rows@, period, zone@), rows@, book.deep_view(), rows@.len()) {
            Tally::Sums(buckets) => r matches Some(Ok(list)) && list.deep_view() == told_all(
                buckets,
            ),
            Tally::Refused(e) => r matches Some(Err(f)) && f == e,
            Tally::Overflow => r is None,
        },
{
    let ghost all = keys_of(rows@, period, zone@);
    let mut keys: Vec<Option<String>> = Vec::new();
    let mut i: usize = 0;
    assert(keys.deep_view() =~= all.take(0));
    while i < rows.len()
        invariant
            i <= rows@.len(),
            all == keys_of(rows@, period, zone@),
            keys.deep_view() == all.take(i as int),
            keys@.len() == i,
            forall|k: int|
                #![trigger rows@[k]]
                0 <= k < rows@.len() && calendar::is_instant(rows@[k].minute_ms)
                    ==> calendar::is_local_everywhere(rows@[k].minute_ms),
        decreases rows@.len() - i,
    {
        let ghost so_far = keys.deep_view();
        let key = period_key(rows[i].minute_ms, period, zone);
        assert(key.deep_view() == all[i as int]);
        keys.push(key);
        i = i + 1;
        assert(keys.deep_view() =~= so_far.push(all[i - 1]));
        assert(keys.deep_view() =~= all.take(i as int));
    }
    assert(all.take(i as int) =~= all);
    summarize(&keys, rows, book)
}

/// Two tables with the same keys and, under each, the same energy and the same observed time.
pub open spec fn same_energy(a: Entries<BucketModel>, b: Entries<BucketModel>) -> bool {
    &&& a.len() == b.len()
    &&& forall|i: int|
        #![trigger a[i]]
        #![trigger b[i]]
        0 <= i < a.len() ==> {
            &&& a[i].0 == b[i].0
            &&& a[i].1.output_uj == b[i].1.output_uj
            &&& a[i].1.input_uj == b[i].1.input_uj
            &&& a[i].1.output_observed_ms == b[i].1.output_observed_ms
            &&& a[i].1.input_observed_ms == b[i].1.input_observed_ms
        }
}

/// Tables with the same keys have a key at the same place.
proof fn same_rank(a: Entries<BucketModel>, b: Entries<BucketModel>, key: Seq<char>)
    requires
        same_energy(a, b),
    ensures
        ordered_map::rank(a, key) == ordered_map::rank(b, key),
        ordered_map::holds(a, key) == ordered_map::holds(b, key),
    decreases a.len(),
{
    if a.len() > 0 {
        assert(a[0].0 == b[0].0);
        let c = a.drop_first();
        let d = b.drop_first();
        assert(same_energy(c, d)) by {
            assert forall|i: int|
                #![trigger c[i]]
                #![trigger d[i]]
                0 <= i < c.len() implies {
                &&& c[i].0 == d[i].0
                &&& c[i].1.output_uj == d[i].1.output_uj
                &&& c[i].1.input_uj == d[i].1.input_uj
                &&& c[i].1.output_observed_ms == d[i].1.output_observed_ms
                &&& c[i].1.input_observed_ms == d[i].1.input_observed_ms
            } by {
                assert(c[i] == a[i + 1] && d[i] == b[i + 1]);
            }
        }
        same_rank(c, d, key);
    }
    if ordered_map::holds(a, key) {
        let i = choose|i: int| 0 <= i < a.len() && (#[trigger] a[i]).0 == key;
        assert(b[i].0 == key);
    }
    if ordered_map::holds(b, key) {
        let i = choose|i: int| 0 <= i < b.len() && (#[trigger] b[i]).0 == key;
        assert(a[i].0 == key);
    }
}

/// Prices never change recorded energy: whatever the dated prices are, the periods, their energy
/// and their observed time are the same.
pub proof fn prices_do_not_change_energy(
    keys: Seq<Option<Seq<char>>>,
    rows: Seq<EnergyRow>,
    one: Seq<TariffModel>,
    other: Seq<TariffModel>,
    n: nat,
)
    requires
        keys.len() == rows.len(),
        n <= rows.len(),
    ensures
        match (tally(keys, rows, one, n), tally(keys, rows, other, n)) {
            (Tally::Sums(a), Tally::Sums(b)) => same_energy(a, b),
            (Tally::Refused(e), Tally::Refused(f)) => e == f,
            (Tally::Sums(_), Tally::Refused(_)) => false,
            (Tally::Refused(_), Tally::Sums(_)) => false,
            _ => true,
        },
    decreases n,
{
    if n > 0 {
        prices_do_not_change_energy(keys, rows, one, other, (n - 1) as nat);
        match (tally(keys, rows, one, (n - 1) as nat), tally(keys, rows, other, (n - 1) as nat)) {
            (Tally::Sums(a), Tally::Sums(b)) => match keys[n - 1] {
                Some(key) => {
                    sums_ascend(keys, rows, one, (n - 1) as nat);
                    sums_ascend(keys, rows, other, (n - 1) as nat);
                    same_rank(a, b, key);
                    ordered_map::rank_is_bounded(a, key);
                    if ordered_map::holds(a, key) {
                        ordered_map::present_at_rank(a, key);
                        ordered_map::present_at_rank(b, key);
                    }
                },
                None => {},
            },
            _ => {},
        }
    }
}

/// The keys of the sums ascend.
proof fn sums_ascend(
    keys: Seq<Option<Seq<char>>>,
    rows: Seq<EnergyRow>,
    book: Seq<TariffModel>,
    n: nat,
)
    ensures
        tally(keys, rows, book, n) matches Tally::Sums(buckets) ==> ordered_map::ascending(buckets),
    decreases n,
{
    if n > 0 {
        sums_ascend(keys, rows, book, (n - 1) as nat);
        match (tally(keys, rows, book, (n - 1) as nat), keys[n - 1]) {
            (Tally::Sums(buckets), Some(key)) => {
                ordered_map::put_is_a_map_update(
                    buckets,
                    key,
                    sums_of(buckets, key).with_row(
                        rows[n - 1],
                        rate_at(book, rows[n - 1].minute_ms),
                    ),
                );
            },
            _ => {},
        }
    }
}

/// What is summed up over any number of minutes or periods.
pub struct Totals {
    pub output_uj: int,
    pub input_uj: int,
    pub output_observed_ms: int,
    pub input_observed_ms: int,
    pub priced_observed_ms: int,
}

impl Totals {
    /// Nothing was summed up.
    pub open spec fn none() -> Totals {
        Totals {
            output_uj: 0,
            input_uj: 0,
            output_observed_ms: 0,
            input_observed_ms: 0,
            priced_observed_ms: 0,
        }
    }

    /// Two totals together.
    pub open spec fn plus(self, other: Totals) -> Totals {
        Totals {
            output_uj: self.output_uj + other.output_uj,
            input_uj: self.input_uj + other.input_uj,
            output_observed_ms: self.output_observed_ms + other.output_observed_ms,
            input_observed_ms: self.input_observed_ms + other.input_observed_ms,
            priced_observed_ms: self.priced_observed_ms + other.priced_observed_ms,
        }
    }

    /// What one minute adds: its input counts as priced where there is a price at its time.
    pub open spec fn of_row(row: EnergyRow, book: Seq<TariffModel>) -> Totals {
        Totals {
            output_uj: row.output_uj as int,
            input_uj: row.input_uj as int,
            output_observed_ms: row.observed_ms as int,
            input_observed_ms: row.input_observed_ms as int,
            priced_observed_ms: if rate_at(book, row.minute_ms) is Some {
                row.input_observed_ms as int
            } else {
                0
            },
        }
    }

    /// What is told of one period.
    pub open spec fn of_period(s: SummaryModel) -> Totals {
        Totals {
            output_uj: s.output_uj,
            input_uj: s.estimated_input_uj,
            output_observed_ms: s.output_observed_ms,
            input_observed_ms: s.input_observed_ms,
            priced_observed_ms: s.priced_observed_ms,
        }
    }
}

/// The totals of some minutes.
pub open spec fn totals_recorded(rows: Seq<EnergyRow>, book: Seq<TariffModel>) -> Totals
    decreases rows.len(),
{
    if rows.len() == 0 {
        Totals::none()
    } else {
        totals_recorded(rows.drop_last(), book).plus(Totals::of_row(rows.last(), book))
    }
}

/// The totals of what is told of some periods.
pub open spec fn totals_told(list: Seq<SummaryModel>) -> Totals
    decreases list.len(),
{
    if list.len() == 0 {
        Totals::none()
    } else {
        totals_told(list.drop_last()).plus(Totals::of_period(list.last()))
    }
}

/// Telling something else in one place changes the totals by the difference.
proof fn totals_of_update(list: Seq<SummaryModel>, i: int, s: SummaryModel)
    requires
        0 <= i < list.len(),
    ensures
        totals_told(list.update(i, s)).plus(Totals::of_period(list[i])) == totals_told(list).plus(
            Totals::of_period(s),
        ),
    decreases list.len(),
{
    let after = list.update(i, s);
    if i == list.len() - 1 {
        assert(after.drop_last() =~= list.drop_last());
    } else {
        totals_of_update(list.drop_last(), i, s);
        assert(after.drop_last() =~= list.drop_last().update(i, s));
    }
}

/// Telling of one more period adds it to the totals.
proof fn totals_of_insert(list: Seq<SummaryModel>, i: int, s: SummaryModel)
    requires
        0 <= i <= list.len(),
    ensures
        totals_told(list.insert(i, s)) == totals_told(list).plus(Totals::of_period(s)),
    decreases list.len(),
{
    let after = list.insert(i, s);
    if i == list.len() {
        assert(after.drop_last() =~= list);
    } else {
        totals_of_insert(list.drop_last(), i, s);
        assert(after.drop_last() =~= list.drop_last().insert(i, s));
        assert(after.last() == list.last());
    }
}

/// The totals over the periods of the first minutes are the totals over these minutes.
proof fn totals_agree(
    keys: Seq<Option<Seq<char>>>,
    rows: Seq<EnergyRow>,
    book: Seq<TariffModel>,
    n: nat,
)
    requires
        n <= rows.len(),
    ensures
        tally(keys, rows, book, n) matches Tally::Sums(buckets) ==> totals_told(told_all(buckets))
            == totals_recorded(rows.take(n as int), book),
    decreases n,
{
    if n > 0 {
        totals_agree(keys, rows, book, (n - 1) as nat);
        assert(rows.take(n as int).drop_last() =~= rows.take(n - 1));
        match (tally(keys, rows, book, (n - 1) as nat), keys[n - 1]) {
            (Tally::Sums(buckets), Some(key)) => {
                sums_ascend(keys, rows, book, (n - 1) as nat);
                let sum = sums_of(buckets, key).with_row(
                    rows[n - 1],
                    rate_at(book, rows[n - 1].minute_ms),
                );
                let at = ordered_map::rank(buckets, key) as int;
                let list = told_all(buckets);
                let after = told_all(ordered_map::put(buckets, key, sum));
                ordered_map::rank_is_bounded(buckets, key);
                if ordered_map::holds(buckets, key) {
                    ordered_map::present_at_rank(buckets, key);
                    assert(after =~= list.update(at, told(key, sum)));
                    totals_of_update(list, at, told(key, sum));
                } else {
                    assert(after =~= list.insert(at, told(key, sum)));
                    totals_of_insert(list, at, told(key, sum));
                }
            },
            _ => {},
        }
    }
}

/// Grouping loses nothing: the periods that are told together have the energy, the observed times
/// and the priced time of all minutes, whatever the keys of the periods are.
pub proof fn grouping_loses_nothing(
    keys: Seq<Option<Seq<char>>>,
    rows: Seq<EnergyRow>,
    book: Seq<TariffModel>,
)
    ensures
        tally(keys, rows, book, rows.len()) matches Tally::Sums(buckets) ==> totals_told(
            told_all(buckets),
        ) == totals_recorded(rows, book),
{
    totals_agree(keys, rows, book, rows.len());
    assert(rows.take(rows.len() as int) =~= rows);
}

/// The totals that are told depend neither on the period nor on the time zone.
pub proof fn totals_do_not_depend_on_the_period(
    rows: Seq<EnergyRow>,
    book: Seq<TariffModel>,
    one: (Period, Seq<char>),
    other: (Period, Seq<char>),
)
    ensures
        match (
            tally(keys_of(rows, one.0, one.1), rows, book, rows.len()),
            tally(keys_of(rows, other.0, other.1), rows, book, rows.len()),
        ) {
            (Tally::Sums(a), Tally::Sums(b)) => totals_told(told_all(a)) == totals_told(
                told_all(b),
            ),
            _ => true,
        },
{
    grouping_loses_nothing(keys_of(rows, one.0, one.1), rows, book);
    grouping_loses_nothing(keys_of(rows, other.0, other.1), rows, book);
}

/// The totals of two stretches of minutes together are those of one and of the other.
proof fn totals_add(a: Seq<EnergyRow>, b: Seq<EnergyRow>, book: Seq<TariffModel>)
    ensures
        totals_recorded(a + b, book) == totals_recorded(a, book).plus(totals_recorded(b, book)),
    decreases b.len(),
{
    if b.len() == 0 {
        assert(a + b =~= a);
    } else {
        totals_add(a, b.drop_last(), book);
        assert((a + b).drop_last() =~= a + b.drop_last());
        assert((a + b).last() == b.last());
    }
}

/// A range that is split at a minute has the totals of its two parts together.
pub proof fn ranges_can_be_split(
    a: Seq<EnergyRow>,
    b: Seq<EnergyRow>,
    book: Seq<TariffModel>,
    period: Period,
    zone: Seq<char>,
)
    ensures
        totals_recorded(a + b, book) == totals_recorded(a, book).plus(totals_recorded(b, book)),
        match (
            tally(keys_of(a + b, period, zone), a + b, book, (a + b).len()),
            tally(keys_of(a, period, zone), a, book, a.len()),
            tally(keys_of(b, period, zone), b, book, b.len()),
        ) {
            (Tally::Sums(whole), Tally::Sums(first), Tally::Sums(second)) => totals_told(
                told_all(whole),
            ) == totals_told(told_all(first)).plus(totals_told(told_all(second))),
            _ => true,
        },
{
    totals_add(a, b, book);
    grouping_loses_nothing(keys_of(a + b, period, zone), a + b, book);
    grouping_loses_nothing(keys_of(a, period, zone), a, book);
    grouping_loses_nothing(keys_of(b, period, zone), b, book);
}

/// Some of the first `n` minutes lies in the period of a key.
pub open spec fn has_minute(keys: Seq<Option<Seq<char>>>, key: Seq<char>, n: nat) -> bool {
    exists|j: int| 0 <= j < n && #[trigger] keys[j] == Some(key)
}

/// The periods are told in the order of their keys, each once, and a period is told if and only if
/// energy was recorded in it.
pub proof fn periods_are_those_with_energy(
    keys: Seq<Option<Seq<char>>>,
    rows: Seq<EnergyRow>,
    book: Seq<TariffModel>,
    n: nat,
    key: Seq<char>,
)
    ensures
        tally(keys, rows, book, n) matches Tally::Sums(buckets) ==> {
            &&& ordered_map::ascending(buckets)
            &&& ordered_map::holds(buckets, key) <==> has_minute(keys, key, n)
        },
    decreases n,
{
    sums_ascend(keys, rows, book, n);
    if n > 0 {
        periods_are_those_with_energy(keys, rows, book, (n - 1) as nat, key);
        sums_ascend(keys, rows, book, (n - 1) as nat);
        match (tally(keys, rows, book, (n - 1) as nat), keys[n - 1]) {
            (Tally::Sums(buckets), Some(last)) => {
                ordered_map::put_is_a_map_update(
                    buckets,
                    last,
                    sums_of(buckets, last).with_row(
                        rows[n - 1],
                        rate_at(book, rows[n - 1].minute_ms),
                    ),
                );
                if has_minute(keys, key, (n - 1) as nat) {
                    let j = choose|j: int| 0 <= j < n - 1 && #[trigger] keys[j] == Some(key);
                    assert(keys[j] == Some(key));
                    assert(has_minute(keys, key, n));
                }
                if has_minute(keys, key, n) {
                    let j = choose|j: int| 0 <= j < n && #[trigger] keys[j] == Some(key);
                    if j < n - 1 {
                        assert(keys[j] == Some(key));
                        assert(has_minute(keys, key, (n - 1) as nat));
                    }
                }
            },
            _ => {},
        }
    }
}

/// What is recorded between two readings: `outputs[i]` is the energy of the `i`-th part, and
/// `inputs[i]` its input, where the input is known at both ends.
pub open spec fn rows_between(
    p: TelemetryModel,
    t: TelemetryModel,
    max_gap_ms: u64,
    outputs: Seq<i64>,
    inputs: Seq<i64>,
) -> Seq<EnergyRow> {
    let list = recorded(Some(p), t, max_gap_ms);
    let known = p.input_uw() is Some && t.input_uw() is Some;
    Seq::new(
        list.len(),
        |i: int|
            list[i].row(
                outputs[i],
                if known {
                    Some(inputs[i])
                } else {
                    None
                },
            ),
    )
}

/// The observed time of some parts is their length, and so is that of the input where it is known.
proof fn parts_are_counted(list: Seq<Segment>, rows: Seq<EnergyRow>, known: bool, n: nat)
    requires
        n <= list.len(),
        rows.len() == list.len(),
        forall|i: int|
            #![trigger rows[i]]
            0 <= i < rows.len() ==> {
                &&& rows[i].observed_ms == list[i].to_ms - list[i].from_ms
                &&& rows[i].input_observed_ms == if known {
                    list[i].to_ms - list[i].from_ms
                } else {
                    0
                }
            },
    ensures
        ({
            let totals = totals_recorded(rows.take(n as int), Seq::empty());
            &&& totals.output_observed_ms == duration(list.take(n as int))
            &&& totals.input_observed_ms == if known {
                duration(list.take(n as int))
            } else {
                0
            }
        }),
    decreases n,
{
    if n > 0 {
        parts_are_counted(list, rows, known, (n - 1) as nat);
        assert(rows.take(n as int).drop_last() =~= rows.take(n - 1));
        assert(list.take(n as int).drop_last() =~= list.take(n - 1));
        assert(rows.take(n as int).last() == rows[n - 1]);
        assert(list.take(n as int).last() == list[n - 1]);
    }
}

/// Where a reading continues the last one, all the time between them is observed, and its input
/// where that is known at both ends; else nothing is recorded.
pub proof fn observed_time_grows_by_the_time_between(
    p: TelemetryModel,
    t: TelemetryModel,
    max_gap_ms: u64,
    outputs: Seq<i64>,
    inputs: Seq<i64>,
)
    requires
        measurable_gap(Some(p), t, max_gap_ms),
    ensures
        ({
            let wall = t.captured_at_ms - p.captured_at_ms;
            let rows = rows_between(p, t, max_gap_ms, outputs, inputs);
            let totals = totals_recorded(rows, Seq::empty());
            if continues(p, t, max_gap_ms) {
                &&& totals.output_observed_ms == wall
                &&& totals.input_observed_ms == if p.input_uw() is Some && t.input_uw() is Some {
                    wall
                } else {
                    0
                }
            } else {
                rows.len() == 0
            }
        }),
{
    if continues(p, t, max_gap_ms) {
        let list = recorded(Some(p), t, max_gap_ms);
        let rows = rows_between(p, t, max_gap_ms, outputs, inputs);
        let known = p.input_uw() is Some && t.input_uw() is Some;
        parts_cover_the_time(p.captured_at_ms, t.captured_at_ms);
        assert forall|i: int| #![trigger rows[i]] 0 <= i < rows.len() implies {
            &&& rows[i].observed_ms == list[i].to_ms - list[i].from_ms
            &&& rows[i].input_observed_ms == if known {
                list[i].to_ms - list[i].from_ms
            } else {
                0
            }
        } by {
            assert(list[i].to_ms - list[i].from_ms <= 60_000);
        }
        parts_are_counted(list, rows, known, list.len());
        assert(rows.take(rows.len() as int) =~= rows);
        assert(list.take(list.len() as int) =~= list);
    }
}

/// An answer never holds more periods than it may.
pub proof fn answers_are_bounded(
    keys: Seq<Option<Seq<char>>>,
    rows: Seq<EnergyRow>,
    book: Seq<TariffModel>,
    n: nat,
)
    ensures
        tally(keys, rows, book, n) matches Tally::Sums(buckets) ==> buckets.len()
            <= MAX_SUMMARY_BUCKETS,
    decreases n,
{
    if n > 0 {
        answers_are_bounded(keys, rows, book, (n - 1) as nat);
        sums_ascend(keys, rows, book, (n - 1) as nat);
        match (tally(keys, rows, book, (n - 1) as nat), keys[n - 1]) {
            (Tally::Sums(buckets), Some(key)) => {
                ordered_map::rank_is_bounded(buckets, key);
                if ordered_map::holds(buckets, key) {
                    ordered_map::present_at_rank(buckets, key);
                }
            },
            _ => {},
        }
    }
}

/// A cost is rounded to the nearest millionth of the currency: it is off by at most half of one.
pub proof fn costs_are_rounded_to_the_nearest(b: BucketModel)
    requires
        b.cost >= 0,
    ensures
        b.cost - HALF_KWH_UJ < b.micro() * KWH_UJ <= b.cost + HALF_KWH_UJ,
{
}

/// Without a price there is no cost, and all that was observed counts as unpriced.
pub proof fn without_prices_there_is_no_cost(
    keys: Seq<Option<Seq<char>>>,
    rows: Seq<EnergyRow>,
    n: nat,
    i: int,
)
    ensures
        tally(keys, rows, Seq::empty(), n) matches Tally::Sums(buckets) ==> (0 <= i < buckets.len()
            ==> {
            let s = told(buckets[i].0, buckets[i].1);
            &&& s.cost is None
            &&& s.currency is None
            &&& s.priced_observed_ms == 0
            &&& s.incomplete_pricing == (s.output_observed_ms > 0)
        }),
    decreases n,
{
    if n > 0 {
        match (tally(keys, rows, Seq::empty(), (n - 1) as nat), keys[n - 1]) {
            (Tally::Sums(buckets), Some(key)) => {
                let at = ordered_map::rank(buckets, key) as int;
                ordered_map::rank_is_bounded(buckets, key);
                sums_ascend(keys, rows, Seq::empty(), (n - 1) as nat);
                if ordered_map::holds(buckets, key) {
                    ordered_map::present_at_rank(buckets, key);
                    without_prices_there_is_no_cost(keys, rows, (n - 1) as nat, at);
                    without_prices_there_is_no_cost(keys, rows, (n - 1) as nat, i);
                } else if i < at {
                    without_prices_there_is_no_cost(keys, rows, (n - 1) as nat, i);
                } else {
                    without_prices_there_is_no_cost(keys, rows, (n - 1) as nat, i - 1);
                }
            },
            _ => {},
        }
    }
}

/// Why stored records were not read or changed.
#[derive(Debug, Clone, Copy, PartialEq, Eq, Structural)]
pub enum QueryError {
    /// The range of samples is empty, or their limit is not from 1 to 10000.
    Samples,
    /// The limit of incidents is not from 1 to 1000.
    Incidents,
    /// There is no such incident.
    NoIncident,
    /// The database is of another form.
    Schema,
}

impl QueryError {
    /// The words in which an error is reported.
    pub open spec fn words(self) -> Seq<char> {
        match self {
            QueryError::Samples => "invalid sample query"@,
            QueryError::Incidents => "incident limit must be 1..1000"@,
            QueryError::NoIncident => "incident not found"@,
            QueryError::Schema => "unsupported database schema"@,
        }
    }

    /// The words in which an error is reported.
    pub fn message(&self) -> (words: &'static str)
        ensures
            words@ == self.words(),
    {
        match self {
            QueryError::Samples => "invalid sample query",
            QueryError::Incidents => "incident limit must be 1..1000",
            QueryError::NoIncident => "incident not found",
            QueryError::Schema => "unsupported database schema",
        }
    }
}

/// Checks what is asked of the samples.
pub fn check_samples(from: i64, to: i64, limit: usize) -> (r: Result<(), QueryError>)
    ensures
        r == if from < to && 1 <= limit <= 10_000 {
            Ok::<(), QueryError>(())
        } else {
            Err(QueryError::Samples)
        },
{
    if from < to && limit >= 1 && limit <= 10_000 {
        Ok(())
    } else {
        Err(QueryError::Samples)
    }
}

/// Checks what is asked of the incidents.
pub fn check_incidents(limit: usize) -> (r: Result<(), QueryError>)
    ensures
        r == if 1 <= limit <= 1000 {
            Ok::<(), QueryError>(())
        } else {
            Err(QueryError::Incidents)
        },
{
    if limit >= 1 && limit <= 1000 {
        Ok(())
    } else {
        Err(QueryError::Incidents)
    }
}

/// Checks that an acknowledgement reached one incident.
pub fn check_acknowledged(changed: usize) -> (r: Result<(), QueryError>)
    ensures
        r == if changed == 1 {
            Ok::<(), QueryError>(())
        } else {
            Err(QueryError::NoIncident)
        },
{
    if changed == 1 {
        Ok(())
    } else {
        Err(QueryError::NoIncident)
    }
}

/// Checks the form of a database; a new one has none.
pub fn check_schema(version: Option<&str>) -> (r: Result<(), QueryError>)
    ensures
        r == if version matches Some(v) && v@ != "1"@ {
            Err::<(), QueryError>(QueryError::Schema)
        } else {
            Ok(())
        },
{
    match version {
        Some(v) => {
            if v.to_owned() == "1".to_owned() {
                Ok(())
            } else {
                Err(QueryError::Schema)
            }
        },
        None => Ok(()),
    }
}

/// The time before which raw samples are pruned: two days ago.
pub fn prune_before(now_ms: i64) -> (before: i64)
    requires
        now_ms >= i64::MIN + 48 * 3_600_000,
    ensures
        before == now_ms - 48 * 3_600_000,
{
    now_ms - 48 * 3_600_000
}

/// Why a policy was not replaced.
#[derive(Debug, Clone, Copy, PartialEq, Eq, Structural)]
pub enum PolicyUpdateError {
    /// The policy is not valid.
    Invalid(alerts::PolicyError),
    /// The policy was replaced in the meantime.
    Stale,
    /// There is no later revision.
    Overflow,
}

impl PolicyUpdateError {
    /// The words in which an error is reported.
    pub open spec fn words(self) -> Seq<char> {
        match self {
            PolicyUpdateError::Invalid(e) => e.words(),
            PolicyUpdateError::Stale => "stale policy revision"@,
            PolicyUpdateError::Overflow => "revision overflow"@,
        }
    }

    /// The words in which an error is reported.
    pub fn message(&self) -> (words: &'static str)
        ensures
            words@ == self.words(),
    {
        match self {
            PolicyUpdateError::Invalid(e) => e.message(),
            PolicyUpdateError::Stale => "stale policy revision",
            PolicyUpdateError::Overflow => "revision overflow",
        }
    }
}

/// What becomes of a policy that is to replace revision `expected` where `current` is stored.
pub open spec fn policy_verdict(policy: alerts::Policy, current: u64, expected: u64) -> Result<
    u64,
    PolicyUpdateError,
> {
    match policy.verdict() {
        Err(e) => Err(PolicyUpdateError::Invalid(e)),
        Ok(_) => if current != expected {
            Err(PolicyUpdateError::Stale)
        } else if expected == u64::MAX {
            Err(PolicyUpdateError::Overflow)
        } else {
            Ok((expected + 1) as u64)
        },
    }
}

/// The revision of a policy that replaces revision `expected` where `current` is stored.
pub fn next_revision(policy: &alerts::Policy, current: u64, expected: u64) -> (r: Result<
    u64,
    PolicyUpdateError,
>)
    ensures
        r == policy_verdict(*policy, current, expected),
{
    match policy.validate() {
        Err(e) => Err(PolicyUpdateError::Invalid(e)),
        Ok(_) => if current != expected {
            Err(PolicyUpdateError::Stale)
        } else if expected == u64::MAX {
            Err(PolicyUpdateError::Overflow)
        } else {
            Ok(expected + 1)
        },
    }
}

/// No update is lost: of two that expect the same revision, the second is refused.
pub proof fn updates_are_not_lost(
    first: alerts::Policy,
    second: alerts::Policy,
    current: u64,
    expected: u64,
)
    requires
        policy_verdict(first, current, expected) is Ok,
        second.verdict() is Ok,
    ensures
        policy_verdict(second, policy_verdict(first, current, expected)->Ok_0, expected)
            == Err::<u64, PolicyUpdateError>(PolicyUpdateError::Stale),
{
}

/// The time between two readings is recorded, all of it and once, if and only if they are of one
/// session of one supply, the second has a later place in it, they are at most the longest gap apart,
/// and both clocks went on by the same time, to a tenth of a second. Nothing else matters: neither what
/// was measured nor when it was. The parts follow each other from one reading to the other, and a new
/// one begins with each minute.
///
/// The minutes at both ends can be represented.
pub proof fn all_time_between_readings_is_recorded(
    p: TelemetryModel,
    t: TelemetryModel,
    max_gap_ms: u64,
)
    requires
        p.captured_at_ms >= -9_223_372_036_854_720_000,
        t.captured_at_ms <= 9_223_372_036_854_720_000,
    ensures
        ({
            let list = recorded(Some(p), t, max_gap_ms);
            let wall = t.captured_at_ms - p.captured_at_ms;
            let elapsed = t.monotonic_ms - p.monotonic_ms;
            let continued = p.session_id == t.session_id && p.device_id == t.device_id && p.sequence
                < t.sequence && 0 < elapsed <= max_gap_ms && wall > 0 && -100 <= wall - elapsed
                <= 100;
            &&& continued <==> list.len() > 0
            &&& continued ==> {
                &&& list[0].from_ms == p.captured_at_ms
                &&& list.last().to_ms == t.captured_at_ms
                &&& duration(list) == wall
                &&& forall|i: int|
                    #![trigger list[i]]
                    0 <= i < list.len() ==> {
                        &&& list[i].minute_ms as int % 60_000 == 0
                        &&& list[i].minute_ms <= list[i].from_ms < list[i].to_ms
                        &&& list[i].to_ms <= list[i].minute_ms + 60_000
                    }
                &&& forall|i: int, j: int|
                    #![trigger list[i], list[j]]
                    0 <= i < j < list.len() && j == i + 1 ==> list[j].from_ms == list[i].to_ms
                &&& forall|i: int|
                    0 < i < list.len() ==> (#[trigger] list[i]).from_ms == list[i].minute_ms
            }
            &&& wall <= i64::MAX && wall >= i64::MIN ==> measurable_gap(Some(p), t, max_gap_ms)
        }),
{
    let list = recorded(Some(p), t, max_gap_ms);
    if p.captured_at_ms < t.captured_at_ms {
        arith::minutes_follow_each_other(p.captured_at_ms as int, 0);
        arith::minutes_follow_each_other(t.captured_at_ms - 1, 0);
        assert(minutes_fit(p.captured_at_ms, t.captured_at_ms));
        let all = parts(p.captured_at_ms as int, t.captured_at_ms as int);
        assert({
            &&& all.len() > 0
            &&& all[0].from_ms == p.captured_at_ms
            &&& all.last().to_ms == t.captured_at_ms
            &&& duration(all) == t.captured_at_ms - p.captured_at_ms
            &&& forall|i: int|
                #![trigger all[i]]
                0 <= i < all.len() ==> {
                    &&& all[i].minute_ms == arith::minute_floor(all[i].from_ms as int)
                    &&& all[i].minute_ms <= all[i].from_ms < all[i].to_ms
                    &&& all[i].to_ms <= all[i].minute_ms + 60_000
                }
        }) by {
            parts_cover_the_time(p.captured_at_ms, t.captured_at_ms);
        }
        parts_touch(p.captured_at_ms, t.captured_at_ms);
        later_parts_begin_with_their_minute(p.captured_at_ms, t.captured_at_ms);
    }
    assert forall|i: int| #![trigger list[i]] 0 <= i < list.len() implies list[i].minute_ms as int
        % 60_000 == 0 by {
        assert(list[i].minute_ms == arith::minute_floor(list[i].from_ms as int));
    }
}

/// The first sample records nothing.
pub proof fn the_first_sample_records_nothing(t: TelemetryModel, max_gap_ms: u64)
    ensures
        recorded(None, t, max_gap_ms).len() == 0,
        measurable_gap(None, t, max_gap_ms),
{
}

/// How long parts are that follow each other is told by their ends.
pub proof fn durations_add_up(list: Seq<Segment>, next: Segment)
    ensures
        duration(Seq::empty()) == 0,
        duration(list.push(next)) == duration(list) + next.to_ms - next.from_ms,
{
    assert(list.push(next).drop_last() =~= list);
}

/// The energy of a part belongs to its minute, for as long as the part is; an input that is not known
/// counts neither as energy nor as time.
pub proof fn parts_have_their_energy(part: Segment, output_uj: i64, input_uj: Option<i64>)
    requires
        part.from_ms <= part.to_ms <= part.from_ms + 60_000,
    ensures
        ({
            let row = part.row(output_uj, input_uj);
            &&& row.minute_ms == part.minute_ms
            &&& row.output_uj == output_uj
            &&& row.observed_ms == part.to_ms - part.from_ms
            &&& input_uj matches Some(n) ==> row.input_uj == n && row.input_observed_ms
                == part.to_ms - part.from_ms
            &&& input_uj is None ==> row.input_uj == 0 && row.input_observed_ms == 0
        }),
{
}

/// A time is occupied if and only if a price is dated at it.
pub proof fn occupied_times_have_a_price(book: Seq<TariffModel>, at: i64)
    requires
        dated(book),
    ensures
        is_occupied(book, at) <==> exists|i: int|
            0 <= i < book.len() && (#[trigger] book[i]).effective_at_ms == at,
{
    place_splits(book, at);
    if exists|i: int| 0 <= i < book.len() && (#[trigger] book[i]).effective_at_ms == at {
        let i = choose|i: int| 0 <= i < book.len() && (#[trigger] book[i]).effective_at_ms == at;
        let place = earlier(book, at) as int;
        assert(book[place].effective_at_ms >= at);
        if place < i {
            assert(book[place].effective_at_ms < book[i].effective_at_ms);
        }
    }
}

/// A price is accepted if and only if it begins with a minute, lies between nothing and a million of
/// the currency, names its currency by three capital letters, is in the currency of all others, and
/// has a free date, or replaces the price of its date; of other dates than 4096 none more is accepted.
pub proof fn prices_are_accepted_as_they_should_be(
    book: Seq<TariffModel>,
    tariff: TariffModel,
    replace: bool,
)
    requires
        dated(book),
    ensures
        ({
            let taken = exists|i: int|
                0 <= i < book.len() && (#[trigger] book[i]).effective_at_ms
                    == tariff.effective_at_ms;
            let named = tariff.currency.len() == 3 && forall|i: int|
                0 <= i < 3 ==> 'A' <= #[trigger] tariff.currency[i] <= 'Z';
            let aligned = tariff.effective_at_ms as int % 60_000 == 0;
            let priced = 0 <= tariff.microcurrency_per_kwh <= 1_000_000_000_000;
            let full = book.len() >= 4096 && !(replace && taken);
            let mixed = book.len() > 0 && book[0].currency != tariff.currency;
            let verdict = tariff_verdict(book, tariff, replace);
            &&& verdict is Ok <==> aligned && priced && named && !full && !mixed && (taken ==> replace)
            &&& verdict == Err::<(), TariffError>(TariffError::Unaligned) <==> !aligned
            &&& verdict == Err::<(), TariffError>(TariffError::Price) <==> aligned && !priced
            &&& verdict == Err::<(), TariffError>(TariffError::Currency) <==> aligned && priced
                && !named
            &&& verdict == Err::<(), TariffError>(TariffError::Full) <==> aligned && priced && named
                && full
            &&& verdict == Err::<(), TariffError>(TariffError::MixedCurrency) <==> aligned && priced
                && named && !full && mixed
            &&& verdict == Err::<(), TariffError>(TariffError::Occupied) <==> aligned && priced
                && named && !full && !mixed && taken && !replace
        }),
{
    occupied_times_have_a_price(book, tariff.effective_at_ms);
    let name = tariff.currency;
    if is_currency(name) {
        assert forall|i: int| 0 <= i < 3 implies 'A' <= #[trigger] name[i] <= 'Z' by {
            assert(i == 0 || i == 1 || i == 2);
        }
    } else if name.len() == 3 && forall|i: int| 0 <= i < 3 ==> 'A' <= #[trigger] name[i] <= 'Z' {
        assert('A' <= name[0] <= 'Z' && 'A' <= name[1] <= 'Z' && 'A' <= name[2] <= 'Z');
    }
}

/// Accepting a price adds it, and takes away none but the price of the same date.
pub proof fn accepting_a_price_adds_it_alone(
    book: Seq<TariffModel>,
    tariff: TariffModel,
    other: TariffModel,
)
    requires
        dated(book),
        other.effective_at_ms != tariff.effective_at_ms,
    ensures
        with_tariff(book, tariff).contains(tariff),
        with_tariff(book, tariff).contains(other) <==> book.contains(other),
        dated(with_tariff(book, tariff)),
{
    let at = tariff.effective_at_ms;
    let place = earlier(book, at) as int;
    let after = with_tariff(book, tariff);
    place_splits(book, at);
    assert(after[place] == tariff);
    if after.contains(other) {
        let k = choose|k: int| 0 <= k < after.len() && after[k] == other;
        if is_occupied(book, at) || k < place {
            assert(book[k] == other);
        } else {
            assert(book[k - 1] == other);
        }
    }
    if book.contains(other) {
        let k = choose|k: int| 0 <= k < book.len() && book[k] == other;
        if is_occupied(book, at) || k < place {
            assert(after[k] == other);
        } else {
            assert(after[k + 1] == other);
        }
    }
    assert forall|a: int, b: int| 0 <= a < b < after.len() implies (
    #[trigger] after[a]).effective_at_ms < (#[trigger] after[b]).effective_at_ms by {
        if is_occupied(book, at) {
            assert(book[a].effective_at_ms < book[b].effective_at_ms);
        } else {
            let x = if a < place { a } else { a - 1 };
            let y = if b < place { b } else { b - 1 };
            if a != place && b != place {
                assert(after[a] == book[x] && after[b] == book[y]);
            } else if a == place {
                assert(after[b] == book[b - 1]);
            } else {
                assert(after[a] == book[a]);
            }
        }
    }
}

/// The price at a time is one of those that are dated, not after the time, and none is dated between;
/// before the first date there is no price.
pub proof fn a_time_has_the_last_price_before_it(book: Seq<TariffModel>, at: i64)
    requires
        dated(book),
    ensures
        match rate_at(book, at) {
            Some(rate) => book.contains(rate) && rate.effective_at_ms <= at && forall|i: int|
                0 <= i < book.len() ==> (#[trigger] book[i]).effective_at_ms
                    <= rate.effective_at_ms || book[i].effective_at_ms > at,
            None => forall|i: int| 0 <= i < book.len() ==> (#[trigger] book[i]).effective_at_ms > at,
        },
    decreases book.len(),
{
    if book.len() > 0 {
        let rest = book.drop_last();
        let last = book.len() - 1;
        if book.last().effective_at_ms <= at {
            assert(book[last] == book.last());
            assert forall|i: int| 0 <= i < book.len() implies (#[trigger] book[i]).effective_at_ms
                <= book.last().effective_at_ms by {
                if i < last {
                    assert(book[i].effective_at_ms < book[last].effective_at_ms);
                }
            }
        } else {
            assert(dated(rest)) by {
                assert forall|i: int, j: int| 0 <= i < j < rest.len() implies (
                #[trigger] rest[i]).effective_at_ms < (#[trigger] rest[j]).effective_at_ms by {
                    assert(rest[i] == book[i] && rest[j] == book[j]);
                }
            }
            a_time_has_the_last_price_before_it(rest, at);
            assert forall|i: int| 0 <= i < rest.len() implies #[trigger] book[i] == rest[i] by {}
            if let Some(rate) = rate_at(book, at) {
                let k = choose|k: int| 0 <= k < rest.len() && rest[k] == rate;
                assert(book[k] == rate);
            }
        }
    }
}

/// A minute counts in the period of its key, with all that was recorded in it and at the price of its
/// own time, and in no other period. A minute without a date, or of one period too many, refuses the
/// whole answer; an answer that was refused stays so.
pub proof fn a_minute_counts_in_its_own_period(
    keys: Seq<Option<Seq<char>>>,
    rows: Seq<EnergyRow>,
    book: Seq<TariffModel>,
    n: nat,
    key: Seq<char>,
)
    ensures
        tally(keys, rows, book, 0) == Tally::Sums(Seq::empty()),
        match (tally(keys, rows, book, n), tally(keys, rows, book, n + 1)) {
            (Tally::Sums(before), Tally::Sums(after)) => {
                let was = match ordered_map::lookup(before, key) {
                    Some(b) => b,
                    None => BucketModel {
                        output_uj: 0,
                        input_uj: 0,
                        output_observed_ms: 0,
                        input_observed_ms: 0,
                        priced_observed_ms: 0,
                        currency: None,
                        cost: 0,
                    },
                };
                let row = rows[n as int];
                if keys[n as int] == Some(key) {
                    &&& ordered_map::lookup(after, key) matches Some(now)
                    &&& now.output_uj == was.output_uj + row.output_uj
                    &&& now.input_uj == was.input_uj + row.input_uj
                    &&& now.output_observed_ms == was.output_observed_ms + row.observed_ms
                    &&& now.input_observed_ms == was.input_observed_ms + row.input_observed_ms
                    &&& match rate_at(book, row.minute_ms) {
                        Some(rate) => {
                            &&& now.priced_observed_ms == was.priced_observed_ms
                                + row.input_observed_ms
                            &&& now.currency == Some(rate.currency)
                            &&& now.cost == was.cost + row.input_uj * rate.microcurrency_per_kwh
                        },
                        None => {
                            &&& now.priced_observed_ms == was.priced_observed_ms
                            &&& now.currency == was.currency
                            &&& now.cost == was.cost
                        },
                    }
                } else {
                    ordered_map::lookup(after, key) == ordered_map::lookup(before, key)
                }
            },
            (Tally::Sums(before), Tally::Refused(e)) => match keys[n as int] {
                None => e == SummaryError::StoredTime,
                Some(k) => e == SummaryError::TooManyPeriods && before.len() >= 10_000
                    && !ordered_map::holds(before, k),
            },
            (Tally::Sums(_), Tally::Overflow) => keys[n as int] is Some,
            (before, after) => before == after,
        },
        tally(keys, rows, book, n) matches Tally::Sums(before) ==> {
            &&& keys[n as int] is None ==> tally(keys, rows, book, n + 1) is Refused
            &&& keys[n as int] matches Some(k) ==> before.len() >= 10_000 && !ordered_map::holds(
                before,
                k,
            ) ==> tally(keys, rows, book, n + 1) is Refused
        },
{
    assert(tally(keys, rows, book, (n + 1) as nat) == tally(keys, rows, book, n).with_row(
        keys[n as int],
        rows[n as int],
        book,
    ));
    match (tally(keys, rows, book, n), keys[n as int]) {
        (Tally::Sums(before), Some(k)) => {
            sums_ascend(keys, rows, book, n);
            ordered_map::put_is_a_map_update(
                before,
                k,
                sums_of(before, k).with_row(
                    rows[n as int],
                    rate_at(book, rows[n as int].minute_ms),
                ),
            );
        },
        _ => {},
    }
}

/// What is told of a period are its sums. The cost is told where a part of the time has a price: it is
/// the priced input in kilowatt-hours times the price, to the nearest millionth of the currency, and
/// is told with six places. Pricing is incomplete where less time is priced than was observed.
pub proof fn sums_are_told_as_they_are(key: Seq<char>, b: BucketModel)
    ensures
        ({
            let s = told(key, b);
            &&& s.period == key
            &&& s.output_uj == b.output_uj
            &&& s.estimated_input_uj == b.input_uj
            &&& s.output_observed_ms == b.output_observed_ms
            &&& s.input_observed_ms == b.input_observed_ms
            &&& s.priced_observed_ms == b.priced_observed_ms
            &&& s.currency == b.currency
            &&& s.incomplete_pricing <==> b.priced_observed_ms < b.output_observed_ms
            &&& s.cost is Some <==> b.priced_observed_ms > 0
            &&& b.priced_observed_ms > 0 && b.cost >= 0 ==> exists|micro: int|
                s.cost == Some(#[trigger] amount(micro)) && b.cost - 1_800_000_000_000 < micro
                    * 3_600_000_000_000 <= b.cost + 1_800_000_000_000
        }),
{
    if b.priced_observed_ms > 0 && b.cost >= 0 {
        let micro = b.micro();
        arith::fractions_are_dropped(b.cost + 1_800_000_000_000, 3_600_000_000_000);
        assert(told(key, b).cost == Some(amount(micro)));
    }
}

/// All periods are told, in the order of their keys.
pub proof fn all_periods_are_told(buckets: Entries<BucketModel>, i: int)
    ensures
        told_all(buckets).len() == buckets.len(),
        0 <= i < buckets.len() ==> told_all(buckets)[i] == told(buckets[i].0, buckets[i].1),
{
}

/// An amount is told with the whole units of the currency, a point, and six digits that denote the
/// millionths.
pub proof fn amounts_have_six_places(micro: nat)
    ensures
        ({
            let words = amount(micro as int);
            let point = words.len() - 7;
            &&& words.take(point) == text::decimal(micro / 1_000_000)
            &&& words[point] == '.'
            &&& text::all_digits(words.skip(point + 1))
            &&& text::number(words.skip(point + 1)) == micro % 1_000_000
        }),
{
    let words = amount(micro as int);
    let whole = text::decimal(micro / 1_000_000);
    let rest = micro % 1_000_000;
    let tail = text::padded(rest as int, 6);
    reveal_strlit(".");
    reveal_with_fuel(text::decimal, 7);
    text::padded_reads_back(rest, 6);
    assert(text::decimal(rest).len() <= 6);
    text::signs_stand_in_front(micro / 1_000_000);
    assert(words =~= whole + seq!['.'] + tail);
    let point = words.len() - 7;
    assert(words.take(point) =~= whole);
    assert(words.skip(point + 1) =~= tail);
}

/// A minute lies in the period in which the calendar of the zone puts its time: two minutes are summed
/// up together by month if and only if they are of the same month of the same year, and likewise by
/// year, by week and by day.
pub proof fn minutes_share_their_periods(at: i64, other: i64, zone: Seq<char>)
    requires
        calendar::is_instant(at),
        calendar::is_instant(other),
    ensures
        key_at(at, Period::Day, zone) == key_at(other, Period::Day, zone) <==> calendar::local_date(
            at,
            zone,
        ) == calendar::local_date(other, zone),
        key_at(at, Period::Year, zone) == key_at(other, Period::Year, zone)
            <==> calendar::local_year(at, zone) == calendar::local_year(other, zone),
        calendar::local_month(at, zone) < 100 && calendar::local_month(other, zone) < 100 ==> (
        key_at(at, Period::Month, zone) == key_at(other, Period::Month, zone)
            <==> calendar::local_year(at, zone) == calendar::local_year(other, zone)
            && calendar::local_month(at, zone) == calendar::local_month(other, zone)),
        calendar::local_week(at, zone).1 < 100 && calendar::local_week(other, zone).1 < 100 ==> (
        key_at(at, Period::Week, zone) == key_at(other, Period::Week, zone)
            <==> calendar::local_week(at, zone) == calendar::local_week(other, zone)),
        calendar::local_hour(at, zone) < 100 && calendar::local_hour(other, zone) < 100
            && calendar::local_offset(at, zone).len() == calendar::local_offset(other, zone).len()
            ==> (key_at(at, Period::Hour, zone) == key_at(other, Period::Hour, zone)
            <==> calendar::local_date(at, zone) == calendar::local_date(other, zone)
            && calendar::local_hour(at, zone) == calendar::local_hour(other, zone)
            && calendar::local_offset(at, zone) == calendar::local_offset(other, zone)),
{
    let a = calendar::shown_at(at, zone);
    let b = calendar::shown_at(other, zone);
    calendar::clocks_show_the_zone(at, zone);
    calendar::clocks_show_the_zone(other, zone);
    let x = calendar::LocalTimeModel {
        hour: if a.hour < 100 && b.hour < 100 { a.hour } else { 0 },
        week: if a.week < 100 && b.week < 100 { a.week } else { 0 },
        month: if a.month < 100 && b.month < 100 { a.month } else { 0 },
        ..a
    };
    let y = calendar::LocalTimeModel {
        hour: if a.hour < 100 && b.hour < 100 { b.hour } else { 0 },
        week: if a.week < 100 && b.week < 100 { b.week } else { 0 },
        month: if a.month < 100 && b.month < 100 { b.month } else { 0 },
        ..b
    };
    calendar::periods_are_told_apart(x, y);
    assert(Period::Day.key(x) == Period::Day.key(a) && Period::Day.key(y) == Period::Day.key(b));
    assert(Period::Year.key(x) == Period::Year.key(a) && Period::Year.key(y) == Period::Year.key(
        b,
    ));
}

/// A time without a date lies in no period, and every other time in one.
pub proof fn dates_have_periods(at: i64, period: Period, zone: Seq<char>)
    ensures
        key_at(at, period, zone) is Some <==> -8_334_601_228_800_000 <= at
            <= 8_210_266_876_799_999,
{
}

/// The minutes of a query are summed up under the keys of their own times.
pub proof fn minutes_have_their_keys(rows: Seq<EnergyRow>, period: Period, zone: Seq<char>, i: int)
    requires
        0 <= i < rows.len(),
    ensures
        keys_of(rows, period, zone).len() == rows.len(),
        keys_of(rows, period, zone)[i] == key_at(rows[i].minute_ms, period, zone),
{
}

/// A policy is stored as the next revision if and only if it is valid and replaces the one that is
/// stored.
pub proof fn policies_replace_the_stored_one(policy: alerts::Policy, current: u64, expected: u64)
    ensures
        ({
            let r = policy_verdict(policy, current, expected);
            &&& r is Ok <==> policy.verdict() is Ok && current == expected && expected < u64::MAX
            &&& r matches Ok(next) ==> next == expected + 1
            &&& r == Err::<u64, PolicyUpdateError>(PolicyUpdateError::Stale)
                <==> policy.verdict() is Ok && current != expected
            &&& r == Err::<u64, PolicyUpdateError>(PolicyUpdateError::Overflow)
                <==> policy.verdict() is Ok && current == expected && expected == u64::MAX
            &&& policy.verdict() matches Err(e) ==> r == Err::<u64, PolicyUpdateError>(
                PolicyUpdateError::Invalid(e),
            )
        }),
{
}

/// A range is asked for in whole minutes, and is not empty.
pub proof fn ranges_are_whole_minutes(from: i64, to: i64)
    ensures
        is_range(from, to) <==> from < to && from as int % 60_000 == 0 && to as int % 60_000 == 0,
{
}

/// The power from the wall can be estimated for every output below 92 kilowatts, in either direction.
pub proof fn ordinary_powers_have_an_input(t: TelemetryModel)
    requires
        -92_000_000_000 <= t.power_uw <= 92_000_000_000,
    ensures
        input_fits(t),
{
}

/// The limits of the records: 4096 prices of at most a million a kilowatt-hour, ten thousand periods in an
/// answer; a kilowatt-hour is 3.6 million joules.
pub proof fn records_have_limits()
    ensures
        MAX_TARIFFS == 4096,
        MAX_RATE == 1_000_000 * 1_000_000,
        MAX_SUMMARY_BUCKETS == 10_000,
        KWH_UJ == 3_600_000 * 1_000_000,
        2 * HALF_KWH_UJ == 3_600_000 * 1_000_000,
{
}

/// The power from the wall cannot be estimated only where the efficiency is one and a hundred thousand
/// times the output leaves 64 bits.
pub proof fn only_huge_powers_have_no_input(t: TelemetryModel)
    ensures
        !input_fits(t) <==> 1 <= t.efficiency_millipercent <= 100_000 && (t.power_uw * 100_000
            > 0x7fff_ffff_ffff_ffff || t.power_uw * 100_000 < -0x8000_0000_0000_0000),
{
}

/// The sums of a period fit if and only if its times have 64 bits and its cost has 128, with half a
/// kilowatt-hour to spare for its rounding.
pub proof fn sums_have_room(b: BucketModel)
    ensures
        b.fits() <==> {
            &&& -0x8000_0000_0000_0000 <= b.output_observed_ms < 0x8000_0000_0000_0000
            &&& -0x8000_0000_0000_0000 <= b.input_observed_ms < 0x8000_0000_0000_0000
            &&& -0x8000_0000_0000_0000 <= b.priced_observed_ms < 0x8000_0000_0000_0000
            &&& -0x8000_0000_0000_0000_0000_0000_0000_0000 < b.cost
            &&& b.cost + 1_800_000_000_000 < 0x8000_0000_0000_0000_0000_0000_0000_0000
        },
{
}

} // verus!
