use vstd::prelude::*;

use crate::activity::{Activity, ActivityView, due_score_of, views};
use crate::parse::{event_of_line, line_views, parse_log_line};

verus! {

broadcast use vstd::seq_lib::group_to_multiset_ensures;

/// Position of the first activity at or after `i` whose name is `name`.
pub open spec fn first_match_from(reg: Seq<ActivityView>, name: Seq<char>, i: int) -> Option<int>
    decreases reg.len() - i,
{
    if i < 0 || i >= reg.len() {
        None
    } else if reg[i].name == name {
        Some(i)
    } else {
        first_match_from(reg, name, i + 1)
    }
}

/// Position of the first activity named `name`: later duplicates are shadowed.
pub open spec fn first_match(reg: Seq<ActivityView>, name: Seq<char>) -> Option<int> {
    first_match_from(reg, name, 0)
}

/// `a` after a completion at time `t`: the later of the two times is kept.
pub open spec fn with_completion(a: ActivityView, t: u64) -> ActivityView {
    ActivityView {
        name: a.name,
        note: a.note,
        cooloff_days: a.cooloff_days,
        last_activity: if a.last_activity < t { t } else { a.last_activity },
    }
}

/// The registry after one log event: the first activity of that name records
/// the completion; an event for an unknown name changes nothing.
pub open spec fn merge_event(reg: Seq<ActivityView>, name: Seq<char>, t: u64) -> Seq<ActivityView> {
    match first_match(reg, name) {
        Some(i) => reg.update(i, with_completion(reg[i], t)),
        None => reg,
    }
}

/// The registry after the events of a log, in order; lines that are no event
/// are skipped.
pub open spec fn merge_log(reg: Seq<ActivityView>, lines: Seq<Seq<char>>) -> Seq<ActivityView>
    decreases lines.len(),
{
    if lines.len() == 0 {
        reg
    } else {
        let prev = merge_log(reg, lines.drop_last());
        match event_of_line(lines.last()) {
            Some(e) => merge_event(prev, e.0, e.1),
            None => prev,
        }
    }
}

/// Ascending by due score: the most overdue activity comes first.
pub open spec fn sorted_by_due(s: Seq<ActivityView>) -> bool {
    forall|i: int, j: int| 0 <= i < j < s.len() ==> due_score_of(s[i]) <= due_score_of(s[j])
}

pub proof fn lemma_first_match_from(reg: Seq<ActivityView>, name: Seq<char>, i: int)
    requires
        0 <= i,
    ensures
        match first_match_from(reg, name, i) {
            Some(k) => i <= k < reg.len() && reg[k].name == name && forall|j: int|
                i <= j < k ==> reg[j].name != name,
            None => forall|j: int| i <= j < reg.len() ==> reg[j].name != name,
        },
    decreases reg.len() - i,
{
    if i < reg.len() && reg[i].name != name {
        lemma_first_match_from(reg, name, i + 1);
    }
}

/// Finds the first activity named `name`.
pub fn find_activity(activities: &Vec<Activity>, name: &str) -> (r: Option<usize>)
    ensures
        match r {
            Some(i) => first_match(views(activities@), name@) == Some(i as int)
                && i < activities@.len() && activities@[i as int].name@ == name@
                && forall|j: int| 0 <= j < i ==> activities@[j].name@ != name@,
            None => first_match(views(activities@), name@) is None
                && forall|j: int| 0 <= j < activities@.len() ==> activities@[j].name@ != name@,
        },
{
    let ghost v = views(activities@);
    let target = String::from_str(name);
    let mut i: usize = 0;
    while i < activities.len()
        invariant
            i <= activities@.len(),
            v == views(activities@),
            target@ == name@,
            first_match_from(v, name@, i as int) == first_match(v, name@),
            forall|j: int| 0 <= j < i ==> activities@[j].name@ != name@,
        decreases activities.len() - i,
    {
        assert(v[i as int].name == activities@[i as int].name@);
        if activities[i].name == target {
            return Some(i);
        }
        i = i + 1;
    }
    None
}

/// Records a completion of `name` at `timestamp`: the first activity of that
/// name keeps the later of its own time and `timestamp`.
pub fn merge_log_event(activities: &mut Vec<Activity>, name: &str, timestamp: u64)
    ensures
        views(final(activities)@) == merge_event(views(old(activities)@), name@, timestamp),
{
    match find_activity(activities, name) {
        Some(i) => {
            if activities[i].last_activity < timestamp {
                activities[i].last_activity = timestamp;
            }
            assert(views(activities@) =~= merge_event(views(old(activities)@), name@, timestamp));
        },
        None => {},
    }
}

/// Index of an activity with the smallest due score; `v` is not empty.
fn most_due(v: &Vec<Activity>) -> (m: usize)
    requires
        v@.len() > 0,
    ensures
        m < v@.len(),
        forall|k: int| 0 <= k < v@.len() ==> due_score_of(v@[m as int]@) <= due_score_of(#[trigger] v@[k]@),
{
    let mut m: usize = 0;
    let mut best: u128 = v[0].due_score();
    let mut i: usize = 1;
    while i < v.len()
        invariant
            1 <= i <= v@.len(),
            m < v@.len(),
            best == due_score_of(v@[m as int]@),
            forall|k: int| 0 <= k < i ==> due_score_of(v@[m as int]@) <= due_score_of(#[trigger] v@[k]@),
        decreases v.len() - i,
    {
        let s = v[i].due_score();
        if s < best {
            m = i;
            best = s;
        }
        i = i + 1;
    }
    m
}

/// Orders the activities by ascending due score.
pub fn sort_by_due(activities: &mut Vec<Activity>)
    ensures
        views(final(activities)@).to_multiset() == views(old(activities)@).to_multiset(),
        sorted_by_due(views(final(activities)@)),
{
    let ghost orig = views(activities@).to_multiset();
    let mut sorted: Vec<Activity> = Vec::new();
    assert(views(sorted@) =~= Seq::<ActivityView>::empty());
    assert(views(sorted@).to_multiset().add(views(activities@).to_multiset()) =~= orig);
    while activities.len() > 0
        invariant
            views(sorted@).to_multiset().add(views(activities@).to_multiset()) == orig,
            sorted_by_due(views(sorted@)),
            forall|i: int, j: int|
                0 <= i < sorted@.len() && 0 <= j < activities@.len() ==> #[trigger] due_score_of(
                    sorted@[i]@,
                ) <= #[trigger] due_score_of(activities@[j]@),
        decreases activities.len(),
    {
        let m = most_due(activities);
        let ghost before = activities@;
        let ghost sorted_before = sorted@;
        let x = activities.remove(m);
        assert(views(activities@) =~= views(before).remove(m as int));
        sorted.push(x);
        assert(views(sorted@) =~= views(sorted_before).push(x@));
        assert(views(sorted@).to_multiset().add(views(activities@).to_multiset()) =~= orig);
        assert forall|j: int| 0 <= j < activities@.len() implies due_score_of(x@) <= due_score_of(
            #[trigger] activities@[j]@,
        ) by {
            if j < m {
                assert(activities@[j] == before[j]);
            } else {
                assert(activities@[j] == before[j + 1]);
            }
        }
    }
    *activities = sorted;
}

/// Merges the events of a log into the registry, then orders it by ascending
/// due score. `log_lines` are the lines of the log; lines that are not
/// `name;timestamp` are skipped.
pub fn sort_by_due_activity(activities: &mut Vec<Activity>, log_lines: &Vec<String>)
    ensures
        views(final(activities)@).to_multiset() == merge_log(
            views(old(activities)@),
            line_views(log_lines@),
        ).to_multiset(),
        sorted_by_due(views(final(activities)@)),
{
    let ghost orig = views(activities@);
    let mut i: usize = 0;
    assert(line_views(log_lines@).subrange(0, 0) =~= Seq::<Seq<char>>::empty());
    while i < log_lines.len()
        invariant
            i <= log_lines@.len(),
            views(activities@) == merge_log(orig, line_views(log_lines@).subrange(0, i as int)),
        decreases log_lines.len() - i,
    {
        let ghost prefix = line_views(log_lines@).subrange(0, i + 1);
        assert(prefix.drop_last() =~= line_views(log_lines@).subrange(0, i as int));
        assert(prefix.last() == log_lines@[i as int]@);
        match parse_log_line(log_lines[i].as_str()) {
            Some(e) => merge_log_event(activities, e.name.as_str(), e.timestamp),
            None => {},
        }
        i = i + 1;
    }
    assert(line_views(log_lines@).subrange(0, log_lines@.len() as int) =~= line_views(log_lines@));
    sort_by_due(activities);
}

} // verus!
