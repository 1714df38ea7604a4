//! What the command line prints and exports.
use crate::desktop;
use crate::model::{self, Telemetry, TelemetryModel};
use crate::runtime::{Snapshot, SnapshotModel};
use crate::text;
use vstd::prelude::*;
use vstd::string::StrSliceExecFns;
use vstd::string::StringExecFns;

verus! {

/// Why a stream was not started.
#[derive(Debug, Clone, Copy, PartialEq, Eq, Structural)]
pub enum CountError {
    /// Nothing was asked for.
    Zero,
}

impl CountError {
    /// The words in which the error is reported.
    pub fn message(&self) -> (words: &'static str)
        ensures
            words@ == "count must be positive"@,
    {
        "count must be positive"
    }
}

/// Checks how many snapshots are asked for; without a number they do not end.
pub fn check_count(count: Option<usize>) -> (r: Result<(), CountError>)
    ensures
        r == if count == Some(0usize) {
            Err::<(), CountError>(CountError::Zero)
        } else {
            Ok(())
        },
{
    match count {
        Some(0) => Err(CountError::Zero),
        _ => Ok(()),
    }
}

/// Whether as many snapshots were delivered as were asked for.
pub fn is_complete(count: Option<usize>, delivered: usize) -> (r: bool)
    ensures
        r == match count {
            Some(limit) => delivered >= limit,
            None => false,
        },
{
    match count {
        Some(limit) => delivered >= limit,
        None => false,
    }
}

/// A text with every quotation mark doubled.
pub open spec fn doubled(field: Seq<char>) -> Seq<char>
    decreases field.len(),
{
    if field.len() == 0 {
        Seq::empty()
    } else if field.last() == '"' {
        doubled(field.drop_last()) + seq!['"', '"']
    } else {
        doubled(field.drop_last()).push(field.last())
    }
}

/// A field of an exported table; what is absent is empty.
pub open spec fn quoted(field: Option<Seq<char>>) -> Seq<char> {
    seq!['"'] + doubled(
        match field {
            Some(words) => words,
            None => Seq::empty(),
        },
    ) + seq!['"']
}

/// The fields of a line, each in quotation marks.
pub open spec fn quoted_all(fields: Seq<Option<Seq<char>>>) -> Seq<Seq<char>> {
    Seq::new(fields.len(), |i: int| quoted(fields[i]))
}

/// The names of the columns.
pub open spec fn columns() -> Seq<char> {
    "period,output_kwh,estimated_input_kwh,output_observed_ms,input_observed_ms,priced_observed_ms,cost,currency,incomplete_pricing\n"@
}

/// The first `n` lines of a table, below the names of the columns.
pub open spec fn table(rows: Seq<Seq<Option<Seq<char>>>>, n: nat) -> Seq<char>
    decreases n,
{
    if n == 0 {
        columns()
    } else {
        table(rows, (n - 1) as nat) + text::join(quoted_all(rows[n - 1]), ","@) + "\n"@
    }
}

/// Writes a field of a table.
fn quote(field: &Option<String>) -> (words: String)
    ensures
        words@ == quoted(model::optional_text(*field)),
{
    proof {
        reveal_strlit("\"");
        reveal_strlit("\"\"");
    }
    assert("\""@ =~= seq!['"']);
    assert("\"\""@ =~= seq!['"', '"']);
    let mut words = "\"".to_owned();
    match field {
        Some(inner) => {
            let chars = text::chars_of(inner.as_str());
            let mut i: usize = 0;
            assert(words@ =~= seq!['"'] + doubled(chars@.take(0)));
            while i < chars.len()
                invariant
                    i <= chars@.len(),
                    chars@ == inner@,
                    "\"\""@ == seq!['"', '"'],
                    words@ == seq!['"'] + doubled(chars@.take(i as int)),
                decreases chars@.len() - i,
            {
                assert(chars@.take(i + 1).drop_last() =~= chars@.take(i as int));
                assert(chars@.take(i + 1).last() == chars@[i as int]);
                if chars[i] == '"' {
                    words.append("\"\"");
                } else {
                    words.append(inner.as_str().substring_char(i, i + 1));
                }
                i = i + 1;
                assert(words@ =~= seq!['"'] + doubled(chars@.take(i as int)));
            }
            assert(chars@.take(i as int) =~= chars@);
        },
        None => {
            assert(words@ =~= seq!['"'] + doubled(Seq::empty()));
        },
    }
    words.append("\"");
    words
}

/// Writes a table of energy, with the fields of each line in the order of the columns.
pub fn write_csv(rows: &Vec<Vec<Option<String>>>) -> (document: String)
    ensures
        document@ == table(rows.deep_view(), rows@.len()),
{
    let ghost all = rows.deep_view();
    let mut document =
        "period,output_kwh,estimated_input_kwh,output_observed_ms,input_observed_ms,priced_observed_ms,cost,currency,incomplete_pricing\n".to_owned();
    let mut i: usize = 0;
    while i < rows.len()
        invariant
            i <= rows@.len(),
            all == rows.deep_view(),
            document@ == table(all, i as nat),
        decreases rows@.len() - i,
    {
        let row = &rows[i];
        assert(all[i as int] == row.deep_view());
        let mut fields: Vec<String> = Vec::new();
        let mut k: usize = 0;
        assert(fields.deep_view() =~= quoted_all(row.deep_view()).take(0));
        while k < row.len()
            invariant
                k <= row@.len(),
                fields.deep_view() == quoted_all(row.deep_view()).take(k as int),
            decreases row@.len() - k,
        {
            let ghost so_far = fields.deep_view();
            assert(row.deep_view()[k as int] == model::optional_text(row@[k as int]));
            fields.push(quote(&row[k]));
            k = k + 1;
            assert(fields.deep_view() =~= so_far.push(quoted_all(row.deep_view())[k - 1]));
            assert(fields.deep_view() =~= quoted_all(row.deep_view()).take(k as int));
        }
        assert(quoted_all(row.deep_view()).take(k as int) =~= quoted_all(row.deep_view()));
        let line = text::join_all(&fields, ",");
        document.append(line.as_str());
        document.append("\n");
        i = i + 1;
    }
    document
}

/// A text with every second quotation mark dropped.
pub open spec fn halved(field: Seq<char>) -> Seq<char>
    decreases field.len(),
{
    if field.len() == 0 {
        Seq::empty()
    } else if field.last() == '"' && field.len() >= 2 {
        halved(field.drop_last().drop_last()).push('"')
    } else {
        halved(field.drop_last()).push(field.last())
    }
}

/// A field can be read back from a table: dropping every second quotation mark gives it.
pub proof fn fields_read_back(field: Seq<char>)
    ensures
        halved(doubled(field)) == field,
    decreases field.len(),
{
    if field.len() > 0 {
        fields_read_back(field.drop_last());
        let head = doubled(field.drop_last());
        if field.last() == '"' {
            assert(doubled(field).drop_last().drop_last() =~= head);
        } else {
            assert(doubled(field).drop_last() =~= head);
        }
        assert(field.drop_last().push(field.last()) =~= field);
    } else {
        assert(field =~= Seq::<char>::empty());
    }
}

/// The readings that are shown with fewer decimals than they have.
pub struct Rounded {
    /// The output in watts, with one decimal.
    pub output_w: String,
    /// The efficiency in percent, with two decimals.
    pub efficiency: String,
    /// The temperature in degrees Celsius, with one decimal.
    pub temperature: String,
}

/// The currents of a connector in amperes.
pub open spec fn amperes(currents: Seq<i64>) -> Seq<Seq<char>> {
    Seq::new(currents.len(), |i: int| text::thousandths(currents[i] as int))
}

/// The line of a connector.
pub open spec fn connector_line(t: TelemetryModel, c: int) -> Seq<char> {
    "Connector "@ + text::decimal((c + 1) as nat) + ": "@ + text::join(
        amperes(t.connector_currents_ma[c]@),
        "  "@,
    ) + " A"@
}

/// The lines of a reading.
pub open spec fn reading_lines(t: TelemetryModel, r: Rounded) -> Seq<Seq<char>> {
    seq![
        "Output "@ + r.output_w@ + " W | efficiency "@ + r.efficiency@ + "% | temperature "@
            + r.temperature@ + " °C | fan "@ + text::signed(t.fan.rpm as int) + " RPM"@,
    ] + Seq::new(t.connector_currents_ma.len(), |c: int| connector_line(t, c)) + Seq::new(
        t.group_errors.len(),
        |i: int| "Reading unavailable: "@ + t.group_errors[i],
    )
}

/// A line for an error, where there is one.
pub open spec fn error_line(label: Seq<char>, error: Option<Seq<char>>) -> Seq<Seq<char>> {
    match error {
        Some(words) => seq![label + words],
        None => Seq::empty(),
    }
}

/// The lines that show a snapshot.
pub open spec fn status_lines(
    s: SnapshotModel,
    age_ms: Option<u64>,
    stale: bool,
    r: Rounded,
) -> Seq<Seq<char>> {
    seq![
        match s.device {
            Some(info) => info.model,
            None => "No PSU"@,
        } + "  "@ + if stale {
            "MONITORING INTERRUPTED"@
        } else {
            "Monitoring"@
        },
    ] + match s.telemetry {
        Some(t) => reading_lines(t, r),
        None => Seq::empty(),
    } + error_line("last_error: "@, s.last_error) + error_line("storage_error: "@, s.storage_error)
        + seq![
        text::decimal(s.active_incidents.len()) + " active incidents | age "@ + match age_ms {
            Some(ms) => text::decimal(ms as nat),
            None => "null"@,
        } + " ms | "@ + text::decimal(s.dropped_samples as nat) + " dropped history samples"@,
    ]
}

/// The currents of a connector in amperes, in one text.
fn write_amperes(currents: &[i64; 6]) -> (words: String)
    ensures
        words@ == text::join(amperes(currents@), "  "@),
{
    let mut list: Vec<String> = Vec::new();
    let mut i: usize = 0;
    assert(list.deep_view() =~= amperes(currents@).take(0));
    while i < 6
        invariant
            i <= 6,
            list.deep_view() == amperes(currents@).take(i as int),
        decreases 6 - i,
    {
        let ghost so_far = list.deep_view();
        let mut words = String::new();
        text::push_thousandths(&mut words, currents[i]);
        assert(words@ =~= amperes(currents@)[i as int]);
        list.push(words);
        i = i + 1;
        assert(list.deep_view() =~= so_far.push(amperes(currents@)[i - 1]));
        assert(list.deep_view() =~= amperes(currents@).take(i as int));
    }
    assert(amperes(currents@).take(6) =~= amperes(currents@));
    text::join_all(&list, "  ")
}

/// Appends the lines of a reading.
fn push_reading(lines: &mut Vec<String>, t: &Telemetry, r: &Rounded)
    ensures
        final(lines).deep_view() == old(lines).deep_view() + reading_lines(t@, *r),
{
    let ghost before = lines.deep_view();
    let ghost all = reading_lines(t@, *r);
    let mut line = text::joined("Output ", r.output_w.as_str());
    line.append(" W | efficiency ");
    line.append(r.efficiency.as_str());
    line.append("% | temperature ");
    line.append(r.temperature.as_str());
    line.append(" °C | fan ");
    text::push_signed(&mut line, t.fan.rpm as i128);
    line.append(" RPM");
    text::push_text(lines, line);
    assert(lines.deep_view() =~= before + all.take(1));
    let mut c: usize = 0;
    while c < t.connector_currents_ma.len()
        invariant
            c <= t.connector_currents_ma@.len(),
            all == reading_lines(t@, *r),
            lines.deep_view() == before + all.take(1 + c),
        decreases t.connector_currents_ma@.len() - c,
    {
        let mut line = "Connector ".to_owned();
        text::push_decimal(&mut line, c as u128 + 1);
        line.append(": ");
        let values = write_amperes(&t.connector_currents_ma[c]);
        line.append(values.as_str());
        line.append(" A");
        assert(line@ =~= connector_line(t@, c as int));
        assert(all[1 + c] == connector_line(t@, c as int));
        text::push_text(lines, line);
        c = c + 1;
        assert(lines.deep_view() =~= before + all.take(1 + c));
    }
    let mut i: usize = 0;
    while i < t.group_errors.len()
        invariant
            i <= t.group_errors@.len(),
            c == t.connector_currents_ma@.len(),
            all == reading_lines(t@, *r),
            lines.deep_view() == before + all.take(1 + c + i),
        decreases t.group_errors@.len() - i,
    {
        assert(t@.group_errors[i as int] == t.group_errors@[i as int]@);
        let line = text::joined("Reading unavailable: ", t.group_errors[i].as_str());
        assert(all[1 + c + i] == line@);
        text::push_text(lines, line);
        i = i + 1;
        assert(lines.deep_view() =~= before + all.take(1 + c + i));
    }
    assert(all.take(1 + c + i) =~= all);
}

/// Appends a line for an error, where there is one.
fn push_error(lines: &mut Vec<String>, label: &str, error: &Option<String>)
    ensures
        final(lines).deep_view() == old(lines).deep_view() + error_line(
            label@,
            model::optional_text(*error),
        ),
{
    let ghost before = lines.deep_view();
    match error {
        Some(words) => {
            text::push_text(lines, text::joined(label, words.as_str()));
        },
        None => {},
    }
    assert(lines.deep_view() =~= before + error_line(label@, model::optional_text(*error)));
}

/// Shows a snapshot, line by line.
pub fn print(s: &Snapshot, age_ms: Option<u64>, stale: bool, r: &Rounded) -> (lines: Vec<String>)
    requires
        s@.telemetry matches Some(t) ==> desktop::showable(t),
    ensures
        lines.deep_view() == status_lines(s@, age_ms, stale, *r),
{
    let mut lines: Vec<String> = Vec::new();
    let mut line = match &s.device {
        Some(info) => info.model.clone(),
        None => "No PSU".to_owned(),
    };
    line.append("  ");
    if stale {
        line.append("MONITORING INTERRUPTED");
    } else {
        line.append("Monitoring");
    }
    text::push_text(&mut lines, line);
    match &s.telemetry {
        Some(t) => {
            push_reading(&mut lines, t, r);
        },
        None => {},
    }
    let ghost upper = lines.deep_view();
    push_error(&mut lines, "last_error: ", &s.last_error);
    push_error(&mut lines, "storage_error: ", &s.storage_error);
    let mut line = String::new();
    text::push_decimal(&mut line, s.active_incidents.len() as u128);
    line.append(" active incidents | age ");
    match age_ms {
        Some(ms) => {
            text::push_decimal(&mut line, ms as u128);
        },
        None => {
            line.append("null");
        },
    }
    line.append(" ms | ");
    text::push_decimal(&mut line, s.dropped_samples as u128);
    line.append(" dropped history samples");
    text::push_text(&mut lines, line);
    assert(lines.deep_view() =~= status_lines(s@, age_ms, stale, *r));
    lines
}

/// Doubling goes from character to character: a quotation mark becomes two, and any other character
/// stays.
pub proof fn quotation_marks_are_doubled(a: Seq<char>, b: Seq<char>, c: char)
    ensures
        doubled(a + b) == doubled(a) + doubled(b),
        doubled(seq![c]) == if c == '"' {
            seq![c, c]
        } else {
            seq![c]
        },
        doubled(Seq::empty()).len() == 0,
    decreases b.len(),
{
    assert(seq![c].drop_last() =~= Seq::<char>::empty());
    assert(doubled(Seq::<char>::empty()) =~= Seq::<char>::empty());
    if c == '"' {
        assert(doubled(seq![c]) =~= seq![c, c]);
    } else {
        assert(doubled(seq![c]) =~= seq![c]);
    }
    if b.len() == 0 {
        assert(a + b =~= a);
        assert(doubled(a + b) =~= doubled(a) + doubled(b));
    } else {
        quotation_marks_are_doubled(a, b.drop_last(), c);
        assert((a + b).drop_last() =~= a + b.drop_last());
        assert(doubled(a + b) =~= doubled(a) + doubled(b));
    }
}

/// A field stands between quotation marks, with those in it doubled; what is absent is an empty one.
pub proof fn fields_stand_between_quotation_marks(words: Seq<char>)
    ensures
        quoted(None) == seq!['"', '"'],
        quoted(Some(words)).len() == doubled(words).len() + 2,
        quoted(Some(words)).first() == '"',
        quoted(Some(words)).last() == '"',
        quoted(Some(words)).subrange(1, quoted(Some(words)).len() - 1) == doubled(words),
{
    assert(quoted(None) =~= seq!['"', '"']);
    assert(quoted(Some(words)).subrange(1, quoted(Some(words)).len() - 1) =~= doubled(words));
}

/// A table begins with the names of its columns. Each of its lines has the fields of its row in their
/// order, in quotation marks and with commas between them, and ends with a line feed.
pub proof fn tables_have_a_line_for_each_row(
    rows: Seq<Seq<Option<Seq<char>>>>,
    row: Seq<Option<Seq<char>>>,
)
    ensures
        table(Seq::empty(), 0)
            == "period,output_kwh,estimated_input_kwh,output_observed_ms,input_observed_ms,priced_observed_ms,cost,currency,incomplete_pricing\n"@,
        table(rows.push(row), rows.len() + 1) == (table(rows, rows.len()) + text::join(
            Seq::new(row.len(), |i: int| quoted(row[i])),
            seq![','],
        )).push('\n'),
{
    let more = rows.push(row);
    tables_begin_alike(rows, more, rows.len());
    reveal_strlit(",");
    reveal_strlit("\n");
    assert(","@ =~= seq![',']);
    assert(more[rows.len() as int] == row);
    assert(quoted_all(row) =~= Seq::new(row.len(), |i: int| quoted(row[i])));
    assert(table(more, rows.len() + 1) =~= (table(rows, rows.len()) + text::join(
        Seq::new(row.len(), |i: int| quoted(row[i])),
        seq![','],
    )).push('\n'));
}

/// Tables of rows that begin alike begin alike.
proof fn tables_begin_alike(
    a: Seq<Seq<Option<Seq<char>>>>,
    b: Seq<Seq<Option<Seq<char>>>>,
    n: nat,
)
    requires
        n <= a.len(),
        n <= b.len(),
        forall|i: int| 0 <= i < n ==> a[i] == b[i],
    ensures
        table(a, n) == table(b, n),
    decreases n,
{
    if n > 0 {
        tables_begin_alike(a, b, (n - 1) as nat);
    }
}

/// The line of a connector names it, counted from one, and lists the currents of its conductors in
/// amperes, in their order.
pub proof fn connectors_list_their_currents(t: TelemetryModel, c: int)
    requires
        0 <= c < t.connector_currents_ma.len(),
    ensures
        ({
            let a = t.connector_currents_ma[c]@;
            connector_line(t, c) == "Connector "@ + text::decimal((c + 1) as nat) + ": "@
                + text::join(
                Seq::new(6, |i: int| text::thousandths(a[i] as int)),
                "  "@,
            ) + " A"@
        }),
{
    let a = t.connector_currents_ma[c]@;
    assert(amperes(a) =~= Seq::new(6, |i: int| text::thousandths(a[i] as int)));
}

/// A reading has a line of its own, one for each connector and one for each group that was not read.
pub proof fn readings_have_their_lines(t: TelemetryModel, r: Rounded)
    ensures
        ({
            let lines = reading_lines(t, r);
            let connectors = t.connector_currents_ma.len();
            &&& lines.len() == 1 + connectors + t.group_errors.len()
            &&& lines[0] == "Output "@ + r.output_w@ + " W | efficiency "@ + r.efficiency@
                + "% | temperature "@ + r.temperature@ + " °C | fan "@ + text::signed(
                t.fan.rpm as int,
            ) + " RPM"@
            &&& forall|c: int|
                0 <= c < connectors ==> #[trigger] lines[1 + c] == connector_line(t, c)
            &&& forall|i: int|
                0 <= i < t.group_errors.len() ==> lines[1 + connectors + i]
                    == "Reading unavailable: "@ + #[trigger] t.group_errors[i]
        }),
{
}

/// What is printed of a snapshot: the supply and whether it is monitored, the reading where there is one,
/// the errors, and at last how many incidents are open, how old the reading is and what was lost.
pub proof fn snapshots_are_printed_in_full(
    s: SnapshotModel,
    age_ms: Option<u64>,
    stale: bool,
    r: Rounded,
)
    ensures
        ({
            let lines = status_lines(s, age_ms, stale, r);
            let reading = match s.telemetry {
                Some(t) => reading_lines(t, r),
                None => Seq::empty(),
            };
            let last = if s.last_error is Some {
                1int
            } else {
                0
            };
            let storage = if s.storage_error is Some {
                1int
            } else {
                0
            };
            let name = match s.device {
                Some(info) => info.model,
                None => "No PSU"@,
            };
            let age = match age_ms {
                Some(ms) => text::decimal(ms as nat),
                None => "null"@,
            };
            &&& lines.len() == 2 + reading.len() + last + storage
            &&& stale ==> lines[0] == name + "  "@ + "MONITORING INTERRUPTED"@
            &&& !stale ==> lines[0] == name + "  "@ + "Monitoring"@
            &&& forall|i: int| 0 <= i < reading.len() ==> lines[1 + i] == #[trigger] reading[i]
            &&& s.last_error matches Some(e) ==> lines[1 + reading.len() as int] == "last_error: "@ + e
            &&& s.storage_error matches Some(e) ==> lines[1 + reading.len() + last]
                == "storage_error: "@ + e
            &&& lines.last() == text::decimal(s.active_incidents.len())
                + " active incidents | age "@ + age + " ms | "@ + text::decimal(
                s.dropped_samples as nat,
            ) + " dropped history samples"@
        }),
{
}

} // verus!
