use vstd::prelude::*;

use crate::activity::{Activity, SECONDS_IN_DAY};
use crate::text::{decimal_string, decimal_text};

verus! {

/// Whole cooloff days between `last_activity` and `now`; `0` when
/// `last_activity` lies after `now`.
pub open spec fn elapsed_days(now: u64, last_activity: u64) -> nat {
    if last_activity <= now {
        ((now - last_activity) / (SECONDS_IN_DAY as int)) as nat
    } else {
        0
    }
}

/// Text of the time since the last completion: `"<N> Tage"`.
pub open spec fn elapsed_text(now: u64, last_activity: u64) -> Seq<char> {
    decimal_text(elapsed_days(now, last_activity)) + " Tage"@
}

/// Text of the last completion: `"Never"` when there was none.
pub open spec fn last_text(now: u64, last_activity: u64) -> Seq<char> {
    if last_activity == 0 {
        "Never"@
    } else {
        elapsed_text(now, last_activity)
    }
}

/// Text of one activity: `name (note - Alle <days> Tage) Letzte: <last>`.
pub open spec fn activity_text(name: Seq<char>, note: Seq<char>, cooloff_days: u64, last: Seq<char>) -> Seq<char> {
    name + " ("@ + note + " - Alle "@ + decimal_text(cooloff_days as nat) + " Tage) Letzte: "@ + last
}

/// A log line without its line end: `name;timestamp`.
pub open spec fn log_line_text(name: Seq<char>, timestamp: u64) -> Seq<char> {
    name + seq![';'] + decimal_text(timestamp as nat)
}

/// Time since the last completion at `last_activity`, as seen at `now`.
pub fn get_elapsed_days(now: u64, last_activity: u64) -> (r: String)
    ensures
        r@ == elapsed_text(now, last_activity),
{
    let days: u64 = if last_activity <= now {
        (now - last_activity) / SECONDS_IN_DAY
    } else {
        0
    };
    decimal_string(days).concat(" Tage")
}

/// The line that shows `activity` to the user at time `now`.
pub fn describe_activity(activity: &Activity, now: u64) -> (r: String)
    ensures
        r@ == activity_text(
            activity.name@,
            activity.note@,
            activity.cooloff_days,
            last_text(now, activity.last_activity),
        ),
{
    let last = if activity.last_activity == 0 {
        String::from_str("Never")
    } else {
        get_elapsed_days(now, activity.last_activity)
    };
    let text = String::from_str(activity.name.as_str()).concat(" (").concat(activity.note.as_str()).concat(
        " - Alle ",
    ).concat(decimal_string(activity.cooloff_days).as_str()).concat(" Tage) Letzte: ").concat(
        last.as_str(),
    );
    text
}

/// The log line that records a completion of `activity` at `timestamp`,
/// without its line end.
pub fn log_entry(activity: &Activity, timestamp: u64) -> (r: String)
    ensures
        r@ == log_line_text(activity.name@, timestamp),
{
    proof {
        reveal_strlit(";");
    }
    let r = String::from_str(activity.name.as_str()).concat(";").concat(
        decimal_string(timestamp).as_str(),
    );
    assert(r@ =~= log_line_text(activity.name@, timestamp));
    r
}

} // verus!
