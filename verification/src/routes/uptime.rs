//! The endpoints behind the uptime dashboard: windows and exports.

use vstd::prelude::*;

use crate::text::chars_of;
use crate::text::decimal;
use crate::text::decimal_text;
use crate::uptime::Heartbeat;
use crate::uptime::Status;

verus! {

/// Longest chart window the detail endpoint serves.
pub const MAX_WINDOW_HOURS: u64 = 720;

/// Hours of the detail view, unless asked otherwise.
pub const DETAIL_HOURS: u64 = 6;

/// Hours of an export, unless asked otherwise.
pub const EXPORT_HOURS: u64 = 24;

/// What the detail endpoint is asked.
#[derive(Debug, Clone, Copy)]
pub struct DetailQuery {
    pub hours: Option<u64>,
}

#[derive(Debug, Clone, Copy, PartialEq, Eq, Structural)]
pub enum ExportFormat {
    Csv,
    Json,
}

impl Default for ExportFormat {
    fn default() -> (r: Self)
        ensures
            r == ExportFormat::Csv,
    {
        ExportFormat::Csv
    }
}

/// What the export endpoint is asked.
#[derive(Debug, Clone, Copy)]
pub struct ExportQuery {
    pub hours: Option<u64>,
    pub format: ExportFormat,
}

/// The hours of a window: at least one, at most thirty days.
pub open spec fn clamped_hours(asked: Option<u64>, default: u64) -> u64 {
    let hours = match asked {
        Some(hours) => hours,
        None => default,
    };
    if hours < 1 {
        1
    } else if hours > MAX_WINDOW_HOURS {
        MAX_WINDOW_HOURS
    } else {
        hours
    }
}

/// The hours of a window: at least one, at most thirty days.
pub fn window_hours(asked: Option<u64>, default: u64) -> (r: u64)
    ensures
        r == clamped_hours(asked, default),
        1 <= r <= MAX_WINDOW_HOURS,
{
    let hours: u64 = match asked {
        Some(hours) => hours,
        None => default,
    };
    if hours < 1 {
        1
    } else if hours > MAX_WINDOW_HOURS {
        MAX_WINDOW_HOURS
    } else {
        hours
    }
}

/// Whether a CSV field has to be quoted.
pub open spec fn needs_quotes(s: Seq<char>) -> bool {
    s.contains(',') || s.contains('"') || s.contains('\n') || s.contains('\r')
}

/// A text with its quotes doubled.
pub open spec fn doubled(s: Seq<char>) -> Seq<char>
    decreases s.len(),
{
    if s.len() == 0 {
        Seq::empty()
    } else if s.last() == '"' {
        doubled(s.drop_last()).push('"').push('"')
    } else {
        doubled(s.drop_last()).push(s.last())
    }
}

/// A text as a CSV field.
pub open spec fn csv_text(s: Seq<char>) -> Seq<char> {
    if needs_quotes(s) {
        seq!['"'] + doubled(s) + seq!['"']
    } else {
        s
    }
}

/// A CSV field, quoted when it holds a comma, quote or newline.
pub fn csv_field(value: &str) -> (r: String)
    ensures
        r@ == csv_text(value@),
{
    let v = chars_of(value);
    let mut quoted = false;
    let mut inside = String::new();
    let mut i: usize = 0;
    proof {
        assert(v@.take(0) =~= Seq::<char>::empty());
        reveal_strlit("");
        assert(inside@ =~= Seq::<char>::empty());
    }
    while i < v.len()
        invariant
            i <= v@.len(),
            inside@ == doubled(v@.take(i as int)),
            quoted == exists|j: int|
                0 <= j < i && (#[trigger] v@[j] == ',' || v@[j] == '"' || v@[j] == '\n' || v@[j]
                    == '\r'),
        decreases v@.len() - i,
    {
        proof {
            assert(v@.take(i as int + 1).drop_last() =~= v@.take(i as int));
        }
        let c = v[i];
        if c == ',' || c == '"' || c == '\n' || c == '\r' {
            quoted = true;
        }
        if c == '"' {
            inside.push('"');
        }
        inside.push(c);
        i += 1;
    }
    proof {
        assert(v@.take(v@.len() as int) =~= v@);
        assert(quoted == needs_quotes(v@)) by {
            if quoted {
                let j = choose|j: int|
                    0 <= j < v@.len() && (#[trigger] v@[j] == ',' || v@[j] == '"' || v@[j] == '\n'
                        || v@[j] == '\r');
                assert(v@.contains(v@[j]));
            }
        }
    }
    if quoted {
        let mut out = "\"".to_owned();
        out.append(inside.as_str());
        out.push('"');
        proof {
            reveal_strlit("\"");
            assert(out@ =~= seq!['"'] + doubled(v@) + seq!['"']);
        }
        out
    } else {
        value.to_owned()
    }
}

pub open spec fn status_name(status: Status) -> Seq<char> {
    match status {
        Status::Up => "up"@,
        Status::Degraded => "degraded"@,
        Status::Down => "down"@,
    }
}

/// What a status is called.
pub fn status_key(status: Status) -> (r: &'static str)
    ensures
        r@ == status_name(status),
{
    match status {
        Status::Up => "up",
        Status::Degraded => "degraded",
        Status::Down => "down",
    }
}

/// A heartbeat as a CSV line.
pub open spec fn csv_line(beat: Heartbeat) -> Seq<char> {
    decimal(beat.at as nat) + ","@ + status_name(beat.status) + ","@ + (match beat.latency_ms {
        Some(ms) => decimal(ms as nat),
        None => Seq::empty(),
    }) + ","@ + csv_text(beat.message@) + "\n"@
}

/// Heartbeats as CSV lines.
pub open spec fn csv_lines(beats: Seq<Heartbeat>) -> Seq<char>
    decreases beats.len(),
{
    if beats.len() == 0 {
        Seq::empty()
    } else {
        csv_lines(beats.drop_last()) + csv_line(beats.last())
    }
}

/// Every heartbeat as CSV, under a line of headings.
pub fn csv(beats: &Vec<Heartbeat>) -> (r: String)
    ensures
        r@ == "at,status,latency_ms,message\n"@ + csv_lines(beats@),
{
    let mut out = "at,status,latency_ms,message\n".to_owned();
    let ghost head = out@;
    let mut i: usize = 0;
    proof {
        assert(beats@.take(0) =~= Seq::<Heartbeat>::empty());
        assert(out@ =~= head + csv_lines(beats@.take(0)));
    }
    while i < beats.len()
        invariant
            i <= beats@.len(),
            out@ == head + csv_lines(beats@.take(i as int)),
        decreases beats@.len() - i,
    {
        let ghost before = out@;
        proof {
            assert(beats@.take(i as int + 1).drop_last() =~= beats@.take(i as int));
        }
        let at = decimal_text(beats[i].at);
        out.append(at.as_str());
        out.append(",");
        out.append(status_key(beats[i].status));
        out.append(",");
        if let Some(ms) = beats[i].latency_ms {
            let latency = decimal_text(ms as u64);
            out.append(latency.as_str());
        }
        out.append(",");
        let message = csv_field(beats[i].message.as_str());
        out.append(message.as_str());
        out.append("\n");
        proof {
            assert(out@ =~= before + csv_line(beats@[i as int]));
            assert(out@ =~= head + csv_lines(beats@.take(i as int + 1)));
        }
        i += 1;
    }
    proof {
        assert(beats@.take(beats@.len() as int) =~= beats@);
    }
    out
}

/// The name and the type of an export's file.
#[derive(Debug)]
pub struct ExportFile {
    pub content_type: &'static str,
    /// The `Content-Disposition` that names the file.
    pub disposition: String,
}

/// What an export's file is called, and of what type it is.
pub fn export_file(slug: &str, hours: u64, format: ExportFormat) -> (r: ExportFile)
    ensures
        r.content_type@ == match format {
            ExportFormat::Csv => "text/csv; charset=utf-8"@,
            ExportFormat::Json => "application/json"@,
        },
        r.disposition@ == "attachment; filename=\""@ + slug@ + "-"@ + decimal(hours as nat) + "h."@
            + (match format {
            ExportFormat::Csv => "csv"@,
            ExportFormat::Json => "json"@,
        }) + "\""@,
{
    let mut disposition = "attachment; filename=\"".to_owned();
    disposition.append(slug);
    disposition.append("-");
    let number = decimal_text(hours);
    disposition.append(number.as_str());
    disposition.append("h.");
    let content_type = match format {
        ExportFormat::Csv => {
            disposition.append("csv");
            "text/csv; charset=utf-8"
        },
        ExportFormat::Json => {
            disposition.append("json");
            "application/json"
        },
    };
    disposition.append("\"");
    ExportFile { content_type, disposition }
}

// ---------------------------------------------------------------------------------------
// What holds of every export
// ---------------------------------------------------------------------------------------

/// A text with its doubled quotes made single again.
pub open spec fn undoubled(s: Seq<char>) -> Seq<char>
    decreases s.len(),
{
    if s.len() == 0 {
        Seq::empty()
    } else if s.len() >= 2 && s.last() == '"' && s[s.len() - 2] == '"' {
        undoubled(s.drop_last().drop_last()).push('"')
    } else {
        undoubled(s.drop_last()).push(s.last())
    }
}

/// The text that a CSV field holds.
pub open spec fn csv_value(field: Seq<char>) -> Seq<char> {
    if field.len() >= 2 && field[0] == '"' {
        undoubled(field.subrange(1, field.len() - 1))
    } else {
        field
    }
}

proof fn lemma_doubled(s: Seq<char>)
    ensures
        undoubled(doubled(s)) == s,
    decreases s.len(),
{
    if s.len() > 0 {
        let front = s.drop_last();
        lemma_doubled(front);
        let d = doubled(front);
        assert(s =~= front.push(s.last()));
        if s.last() == '"' {
            let all = d.push('"').push('"');
            assert(all.drop_last().drop_last() =~= d);
            assert(all[all.len() - 2] == '"');
        } else {
            let all = d.push(s.last());
            assert(all.drop_last() =~= d);
        }
    } else {
        assert(s =~= Seq::<char>::empty());
    }
}

/// What is written as a CSV field is what is read back from it.
pub proof fn lemma_csv_fields_round_trip(s: Seq<char>)
    ensures
        csv_value(csv_text(s)) == s,
{
    if needs_quotes(s) {
        lemma_doubled(s);
        let field = csv_text(s);
        assert(field.subrange(1, field.len() - 1) =~= doubled(s));
        assert(field[0] == '"');
    } else if s.len() >= 2 && s[0] == '"' {
        assert(s.contains(s[0]));
    }
}

} // verus!
