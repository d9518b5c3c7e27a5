use vstd::prelude::*;

use crate::activity::{Activity, ActivityView, views};
use crate::text::{decimal_u64, parse_u64, split_fields, split_on, strip_quotes, trim_quotes};

verus! {

/// Why a definition line gave no activity.
#[derive(Clone, Copy, Debug, PartialEq, Eq, Structural)]
pub enum ParseError {
    /// An empty line, or a comment (starting with `#`): skipped silently.
    Blank,
    /// No `,` after the name.
    MissingNote,
    /// No `,` after the note.
    MissingCooloff,
    /// The third field is not a decimal `u64`.
    InvalidCooloff,
}

impl ParseError {
    /// A short description of the failure.
    pub fn message(&self) -> &'static str {
        match self {
            ParseError::Blank => "Empty or disabled line",
            ParseError::MissingNote => "Missing note",
            ParseError::MissingCooloff => "Missing cooloff days",
            ParseError::InvalidCooloff => "Error parsing cooloff days",
        }
    }
}

/// One completion record of the log.
pub struct LogEvent {
    pub name: String,
    pub timestamp: u64,
}

pub open spec fn is_blank_line(line: Seq<char>) -> bool {
    line.len() == 0 || line[0] == '#'
}

/// What a definition line `name,note,cooloff_days` denotes. Fields after the
/// third are ignored; the name loses its surrounding double quotes.
pub open spec fn activity_of_line(line: Seq<char>) -> Result<ActivityView, ParseError> {
    if is_blank_line(line) {
        Err(ParseError::Blank)
    } else {
        let f = split_fields(line, ',');
        if f.len() < 2 {
            Err(ParseError::MissingNote)
        } else if f.len() < 3 {
            Err(ParseError::MissingCooloff)
        } else {
            match decimal_u64(f[2]) {
                None => Err(ParseError::InvalidCooloff),
                Some(d) => Ok(
                    ActivityView {
                        name: trim_quotes(f[0]),
                        note: f[1],
                        cooloff_days: d,
                        last_activity: 0,
                    },
                ),
            }
        }
    }
}

/// What a log line `name;timestamp` denotes, if anything. Fields after the
/// second are ignored.
pub open spec fn event_of_line(line: Seq<char>) -> Option<(Seq<char>, u64)> {
    let f = split_fields(line, ';');
    if f.len() < 2 {
        None
    } else {
        match decimal_u64(f[1]) {
            None => None,
            Some(t) => Some((f[0], t)),
        }
    }
}

/// The registry that a definitions text gives: the activities of its lines,
/// in order, each line that does not parse skipped.
pub open spec fn activities_of_lines(lines: Seq<Seq<char>>) -> Seq<ActivityView>
    decreases lines.len(),
{
    if lines.len() == 0 {
        Seq::empty()
    } else {
        let prev = activities_of_lines(lines.drop_last());
        match activity_of_line(lines.last()) {
            Ok(a) => prev.push(a),
            Err(_) => prev,
        }
    }
}

pub open spec fn line_views(lines: Seq<String>) -> Seq<Seq<char>> {
    lines.map_values(|l: String| l@)
}

/// Parses one definition line.
pub fn parse_activity_line(line: &str) -> (r: Result<Activity, ParseError>)
    ensures
        match r {
            Ok(a) => activity_of_line(line@) == Ok::<ActivityView, ParseError>(a@),
            Err(e) => activity_of_line(line@) == Err::<ActivityView, ParseError>(e),
        },
{
    let n = line.unicode_len();
    if n == 0 || line.get_char(0) == '#' {
        return Err(ParseError::Blank);
    }
    let fields = split_on(line, ',');
    let ghost f = split_fields(line@, ',');
    if fields.len() < 2 {
        return Err(ParseError::MissingNote);
    }
    if fields.len() < 3 {
        return Err(ParseError::MissingCooloff);
    }
    assert(fields@[0]@ == f[0] && fields@[1]@ == f[1] && fields@[2]@ == f[2]);
    let cooloff_days = match parse_u64(fields[2].as_str()) {
        Some(d) => d,
        None => {
            return Err(ParseError::InvalidCooloff);
        },
    };
    let name = strip_quotes(fields[0].as_str());
    Ok(Activity::new(name.as_str(), fields[1].as_str(), cooloff_days))
}

/// Parses one log line; `None` for a line that is not `name;timestamp`.
pub fn parse_log_line(line: &str) -> (r: Option<LogEvent>)
    ensures
        match r {
            Some(e) => event_of_line(line@) == Some((e.name@, e.timestamp)),
            None => event_of_line(line@) is None,
        },
{
    let fields = split_on(line, ';');
    let ghost f = split_fields(line@, ';');
    if fields.len() < 2 {
        return None;
    }
    assert(fields@[0]@ == f[0] && fields@[1]@ == f[1]);
    match parse_u64(fields[1].as_str()) {
        Some(t) => Some(LogEvent { name: String::from_str(fields[0].as_str()), timestamp: t }),
        None => None,
    }
}

/// Builds the registry from the lines of a definitions text.
pub fn load_activities(lines: &Vec<String>) -> (r: Vec<Activity>)
    ensures
        views(r@) == activities_of_lines(line_views(lines@)),
{
    let mut activities: Vec<Activity> = Vec::new();
    let mut i: usize = 0;
    assert(line_views(lines@).subrange(0, 0) =~= Seq::<Seq<char>>::empty());
    assert(views(activities@) =~= Seq::<ActivityView>::empty());
    while i < lines.len()
        invariant
            i <= lines@.len(),
            views(activities@) == activities_of_lines(line_views(lines@).subrange(0, i as int)),
        decreases lines.len() - i,
    {
        let ghost prefix = line_views(lines@).subrange(0, i + 1);
        assert(prefix.drop_last() =~= line_views(lines@).subrange(0, i as int));
        assert(prefix.last() == lines@[i as int]@);
        match parse_activity_line(lines[i].as_str()) {
            Ok(a) => {
                activities.push(a);
                assert(views(activities@) =~= activities_of_lines(prefix));
            },
            Err(_) => {},
        }
        i = i + 1;
    }
    assert(line_views(lines@).subrange(0, lines@.len() as int) =~= line_views(lines@));
    activities
}

} // verus!
