use vstd::prelude::*;

verus! {

/// Length of one cooloff "day" in seconds. Stored intervals are counted in
/// this unit; it is half of a calendar day and is kept as is so that existing
/// definition files keep their meaning.
pub const SECONDS_IN_DAY: u64 = 43200;

/// One recurring activity.
pub struct Activity {
    pub name: String,
    pub note: String,
    pub cooloff_days: u64,
    /// Epoch seconds of the latest known completion; `0` means never.
    pub last_activity: u64,
}

/// Mathematical model of an `Activity`.
pub struct ActivityView {
    pub name: Seq<char>,
    pub note: Seq<char>,
    pub cooloff_days: u64,
    pub last_activity: u64,
}

impl View for Activity {
    type V = ActivityView;

    open spec fn view(&self) -> ActivityView {
        ActivityView {
            name: self.name@,
            note: self.note@,
            cooloff_days: self.cooloff_days,
            last_activity: self.last_activity,
        }
    }
}

/// The models of a sequence of activities, in the same order.
pub open spec fn views(s: Seq<Activity>) -> Seq<ActivityView> {
    s.map_values(|a: Activity| a@)
}

/// Cooloff interval of an activity, in seconds.
pub open spec fn cooloff_seconds_of(a: ActivityView) -> int {
    a.cooloff_days * SECONDS_IN_DAY
}

/// The epoch second at which an activity becomes due again.
pub open spec fn due_score_of(a: ActivityView) -> int {
    a.last_activity + cooloff_seconds_of(a)
}

impl Activity {
    /// A fresh activity that was never performed.
    pub fn new(name: &str, note: &str, cooloff_days: u64) -> (r: Activity)
        ensures
            r@ == (ActivityView { name: name@, note: note@, cooloff_days, last_activity: 0 }),
    {
        Activity {
            name: String::from_str(name),
            note: String::from_str(note),
            cooloff_days,
            last_activity: 0,
        }
    }

    /// Cooloff interval in seconds: `cooloff_days * SECONDS_IN_DAY`, exactly.
    pub fn cooloff_seconds(&self) -> (r: u128)
        ensures
            r == cooloff_seconds_of(self@),
    {
        assert(self.cooloff_days * 43200 <= u64::MAX * 43200) by (nonlinear_arith);
        (self.cooloff_days as u128) * (SECONDS_IN_DAY as u128)
    }

    /// Due score: `last_activity + cooloff_seconds`.
    pub fn due_score(&self) -> (r: u128)
        ensures
            r == due_score_of(self@),
    {
        (self.last_activity as u128) + self.cooloff_seconds()
    }
}

} // verus!
