use vstd::prelude::*;

use crate::activity::{ActivityView, cooloff_seconds_of, due_score_of};
use crate::parse::{activities_of_lines, activity_of_line};
use crate::registry::{
    first_match,
    first_match_from,
    lemma_first_match_from,
    merge_event,
    merge_log,
    sorted_by_due,
};
use crate::parse::event_of_line;
use crate::report::log_line_text;
use crate::text::{
    all_digits,
    decimal_text,
    decimal_u64,
    lemma_decimal_round_trip,
    lemma_decimal_text,
    lemma_split_fields_extend,
    lemma_split_fields_single,
    split_fields,
};

verus! {

/// A definition line with fewer than three comma-separated fields is
/// rejected, and adding it to a definitions text leaves the loaded registry
/// as it was.
pub proof fn lemma_short_line_skipped(lines: Seq<Seq<char>>, line: Seq<char>)
    requires
        split_fields(line, ',').len() < 3,
    ensures
        activity_of_line(line) is Err,
        activities_of_lines(lines.push(line)) == activities_of_lines(lines),
{
    lemma_malformed_line_skipped(lines, line);
}

/// Any line that does not parse leaves the loaded registry, and so its
/// size, as it was.
pub proof fn lemma_malformed_line_skipped(lines: Seq<Seq<char>>, line: Seq<char>)
    requires
        activity_of_line(line) is Err,
    ensures
        activities_of_lines(lines.push(line)) == activities_of_lines(lines),
        activities_of_lines(lines.push(line)).len() == activities_of_lines(lines).len(),
{
    assert(lines.push(line).drop_last() =~= lines);
}

/// The cooloff of a parsed definition is its day count times
/// `SECONDS_IN_DAY` seconds, exactly.
pub proof fn lemma_cooloff_in_seconds(line: Seq<char>, d: u64)
    requires
        activity_of_line(line) is Ok,
        decimal_u64(split_fields(line, ',')[2]) == Some(d),
    ensures
        cooloff_seconds_of(activity_of_line(line)->Ok_0) == d * 43200,
        activity_of_line(line)->Ok_0.cooloff_days == d,
{
}

/// Merging an event for a known activity sets its last completion to the
/// later of the previous value and the event's time, and changes nothing
/// else.
pub proof fn lemma_merge_takes_max(reg: Seq<ActivityView>, name: Seq<char>, t: u64, i: int)
    requires
        first_match(reg, name) == Some(i),
    ensures
        0 <= i < reg.len(),
        merge_event(reg, name, t).len() == reg.len(),
        merge_event(reg, name, t)[i].last_activity == if reg[i].last_activity < t {
            t
        } else {
            reg[i].last_activity
        },
        forall|j: int| 0 <= j < reg.len() && j != i ==> merge_event(reg, name, t)[j] == reg[j],
{
    lemma_first_match_from(reg, name, 0);
}

proof fn lemma_first_match_same_names(a: Seq<ActivityView>, b: Seq<ActivityView>, name: Seq<char>, i: int)
    requires
        a.len() == b.len(),
        forall|k: int| 0 <= k < a.len() ==> a[k].name == b[k].name,
    ensures
        first_match_from(a, name, i) == first_match_from(b, name, i),
    decreases a.len() - i,
{
    if 0 <= i < a.len() && a[i].name != name {
        lemma_first_match_same_names(a, b, name, i + 1);
    }
}

/// Merging two log events in either order gives the same registry: the
/// result does not depend on the order in which the log lists them.
pub proof fn lemma_merge_events_commute(
    reg: Seq<ActivityView>,
    n1: Seq<char>,
    t1: u64,
    n2: Seq<char>,
    t2: u64,
)
    ensures
        merge_event(merge_event(reg, n1, t1), n2, t2) == merge_event(
            merge_event(reg, n2, t2),
            n1,
            t1,
        ),
{
    let r1 = merge_event(reg, n1, t1);
    let r2 = merge_event(reg, n2, t2);
    lemma_first_match_from(reg, n1, 0);
    lemma_first_match_from(reg, n2, 0);
    lemma_first_match_same_names(reg, r1, n2, 0);
    lemma_first_match_same_names(reg, r2, n1, 0);
    let a = merge_event(r1, n2, t2);
    let b = merge_event(r2, n1, t1);
    assert(a =~= b);
}

/// Exchanging two neighbouring lines of a log does not change the registry
/// that merging it gives; so no reordering of a log does.
pub proof fn lemma_log_order_irrelevant(reg: Seq<ActivityView>, lines: Seq<Seq<char>>, i: int)
    requires
        0 <= i,
        i + 1 < lines.len(),
    ensures
        merge_log(reg, lines.update(i, lines[i + 1]).update(i + 1, lines[i])) == merge_log(
            reg,
            lines,
        ),
    decreases lines.len(),
{
    let swapped = lines.update(i, lines[i + 1]).update(i + 1, lines[i]);
    if i + 2 < lines.len() {
        lemma_log_order_irrelevant(reg, lines.drop_last(), i);
        assert(swapped.drop_last() =~= lines.drop_last().update(i, lines[i + 1]).update(
            i + 1,
            lines[i],
        ));
        assert(swapped.last() == lines.last());
    } else {
        let common = lines.drop_last().drop_last();
        assert(swapped.drop_last().drop_last() =~= common);
        let base = merge_log(reg, common);
        assert(lines.drop_last().drop_last() == common);
        assert(lines.drop_last().last() == lines[i]);
        assert(lines.last() == lines[i + 1]);
        assert(swapped.drop_last().last() == lines[i + 1]);
        assert(swapped.last() == lines[i]);
        assert(merge_log(reg, lines.drop_last()) == match event_of_line(lines[i]) {
            Some(e) => merge_event(base, e.0, e.1),
            None => base,
        });
        assert(merge_log(reg, swapped.drop_last()) == match event_of_line(lines[i + 1]) {
            Some(e) => merge_event(base, e.0, e.1),
            None => base,
        });
        match (event_of_line(lines[i]), event_of_line(lines[i + 1])) {
            (Some(a), Some(b)) => {
                lemma_merge_events_commute(base, a.0, a.1, b.0, b.1);
            },
            _ => {},
        }
    }
}

/// An event for a name that no activity has leaves the registry unchanged.
pub proof fn lemma_unknown_name_unchanged(reg: Seq<ActivityView>, name: Seq<char>, t: u64)
    requires
        forall|k: int| 0 <= k < reg.len() ==> reg[k].name != name,
    ensures
        merge_event(reg, name, t) == reg,
{
    lemma_first_match_from(reg, name, 0);
}

/// In a registry ordered by due score, an activity with a smaller due score
/// stands before one with a larger, whatever order they were given in.
pub proof fn lemma_lower_due_first(s: Seq<ActivityView>, i: int, j: int)
    requires
        sorted_by_due(s),
        0 <= i < s.len(),
        0 <= j < s.len(),
        due_score_of(s[i]) < due_score_of(s[j]),
    ensures
        i < j,
{
}

/// A log line written for a completion reads back as that completion, for
/// every name without a `;`.
pub proof fn lemma_log_line_round_trip(name: Seq<char>, timestamp: u64)
    requires
        forall|k: int| 0 <= k < name.len() ==> name[k] != ';',
    ensures
        event_of_line(log_line_text(name, timestamp)) == Some((name, timestamp)),
{
    let digits = decimal_text(timestamp as nat);
    lemma_decimal_text(timestamp as nat);
    lemma_decimal_round_trip(timestamp);
    assert forall|k: int| 0 <= k < digits.len() implies digits[k] != ';' by {
        assert(all_digits(digits));
    }
    let head = name + seq![';'];
    lemma_split_fields_single(name, ';');
    assert(head.drop_last() =~= name);
    assert(split_fields(head, ';') =~= seq![name, Seq::<char>::empty()]);
    lemma_split_fields_extend(head, digits, ';');
    assert(Seq::<char>::empty() + digits =~= digits);
    assert(split_fields(log_line_text(name, timestamp), ';') =~= seq![name, digits]);
}

} // verus!
