use activity_tracker::activity::{Activity, SECONDS_IN_DAY};
use activity_tracker::parse::{load_activities, parse_activity_line, parse_log_line, ParseError};
use activity_tracker::registry::{find_activity, merge_log_event, sort_by_due, sort_by_due_activity};
use activity_tracker::report::{describe_activity, get_elapsed_days, log_entry};
use activity_tracker::text::{parse_u64, split_on, strip_quotes};

fn lines(v: &[&str]) -> Vec<String> {
    v.iter().map(|s| s.to_string()).collect()
}

fn names(v: &[Activity]) -> Vec<String> {
    v.iter().map(|a| a.name.clone()).collect()
}

#[test]
fn parse_definition_line_with_quotes() {
    let a = parse_activity_line("\"Water Plants\",Hydration,2").unwrap();
    assert_eq!(a.name, "Water Plants");
    assert_eq!(a.note, "Hydration");
    assert_eq!(a.cooloff_days, 2);
    assert_eq!(a.last_activity, 0);
    assert_eq!(a.cooloff_seconds(), 86400);
}

#[test]
fn parse_definition_line_extra_fields_ignored() {
    let a = parse_activity_line("Run,outside,3,whatever").unwrap();
    assert_eq!(a.name, "Run");
    assert_eq!(a.cooloff_days, 3);
}

#[test]
fn parse_definition_line_plus_sign() {
    let a = parse_activity_line("Run,outside,+7").unwrap();
    assert_eq!(a.cooloff_days, 7);
}

#[test]
fn parse_blank_and_comment_lines() {
    assert_eq!(parse_activity_line("").err(), Some(ParseError::Blank));
    assert_eq!(parse_activity_line("# a,b,3").err(), Some(ParseError::Blank));
}

#[test]
fn parse_missing_fields() {
    assert_eq!(parse_activity_line("just a name").err(), Some(ParseError::MissingNote));
    assert_eq!(parse_activity_line("name,note").err(), Some(ParseError::MissingCooloff));
}

#[test]
fn parse_invalid_cooloff() {
    assert_eq!(parse_activity_line("a,b,x").err(), Some(ParseError::InvalidCooloff));
    assert_eq!(parse_activity_line("a,b,-1").err(), Some(ParseError::InvalidCooloff));
    assert_eq!(parse_activity_line("a,b, 3").err(), Some(ParseError::InvalidCooloff));
    assert_eq!(parse_activity_line("a,b,").err(), Some(ParseError::InvalidCooloff));
    assert_eq!(
        parse_activity_line("a,b,18446744073709551616").err(),
        Some(ParseError::InvalidCooloff)
    );
}

#[test]
fn parse_error_messages() {
    assert_eq!(ParseError::MissingNote.message(), "Missing note");
    assert_eq!(ParseError::InvalidCooloff.message(), "Error parsing cooloff days");
}

#[test]
fn cooloff_is_days_times_43200() {
    assert_eq!(SECONDS_IN_DAY, 43200);
    for d in [0u64, 1, 2, 30, 365, 1_000_000] {
        let a = parse_activity_line(&format!("x,y,{}", d)).unwrap();
        assert_eq!(a.cooloff_seconds(), d as u128 * 43200);
    }
    let a = parse_activity_line("x,y,18446744073709551615").unwrap();
    assert_eq!(a.cooloff_days, u64::MAX);
    assert_eq!(a.cooloff_seconds(), u64::MAX as u128 * 43200);
    assert_eq!(a.due_score(), u64::MAX as u128 * 43200);
}

#[test]
fn malformed_lines_do_not_change_registry_size() {
    let good = lines(&["a,b,1", "c,d,2"]);
    let mixed = lines(&["a,b,1", "", "# x", "broken", "e,f", "g,h,zz", "c,d,2"]);
    assert_eq!(load_activities(&good).len(), 2);
    let loaded = load_activities(&mixed);
    assert_eq!(names(&loaded), vec!["a".to_string(), "c".to_string()]);
}

#[test]
fn split_and_strip_helpers() {
    assert_eq!(split_on("a,,b", ','), vec!["a", "", "b"]);
    assert_eq!(split_on("", ','), vec![""]);
    assert_eq!(strip_quotes("\"\"a\"b\"\""), "a\"b");
    assert_eq!(strip_quotes("\"\"\""), "");
    assert_eq!(parse_u64("0042"), Some(42));
    assert_eq!(parse_u64("+"), None);
    assert_eq!(parse_u64(""), None);
}

#[test]
fn parse_log_lines() {
    let e = parse_log_line("Water Plants;1000000000").unwrap();
    assert_eq!(e.name, "Water Plants");
    assert_eq!(e.timestamp, 1000000000);
    assert!(parse_log_line("no separator").is_none());
    assert!(parse_log_line("a;notanumber").is_none());
    assert_eq!(parse_log_line("a;5;extra").unwrap().timestamp, 5);
}

#[test]
fn find_first_of_duplicates() {
    let v = vec![Activity::new("a", "1", 1), Activity::new("b", "2", 1), Activity::new("b", "3", 1)];
    assert_eq!(find_activity(&v, "b"), Some(1));
    assert_eq!(find_activity(&v, "a"), Some(0));
    assert_eq!(find_activity(&v, "z"), None);
}

#[test]
fn merge_keeps_maximum_in_any_order() {
    let mut v1 = vec![Activity::new("a", "", 1)];
    merge_log_event(&mut v1, "a", 100);
    assert_eq!(v1[0].last_activity, 100);
    merge_log_event(&mut v1, "a", 50);
    assert_eq!(v1[0].last_activity, 100);
    let mut v2 = vec![Activity::new("a", "", 1)];
    merge_log_event(&mut v2, "a", 50);
    merge_log_event(&mut v2, "a", 100);
    assert_eq!(v2[0].last_activity, 100);
}

#[test]
fn merge_unknown_name_changes_nothing() {
    let mut v = vec![Activity::new("a", "n", 1), Activity::new("b", "m", 2)];
    merge_log_event(&mut v, "zzz", 12345);
    assert_eq!(names(&v), vec!["a".to_string(), "b".to_string()]);
    assert_eq!(v[0].last_activity, 0);
    assert_eq!(v[1].last_activity, 0);
}

#[test]
fn sort_is_by_due_score_regardless_of_input_order() {
    let build = |order: &[usize]| {
        let all = [("a", 3u64, 0u64), ("b", 1, 200000), ("c", 2, 0)];
        let mut v = Vec::new();
        for &i in order {
            let mut x = Activity::new(all[i].0, "", all[i].1);
            x.last_activity = all[i].2;
            v.push(x);
        }
        sort_by_due(&mut v);
        names(&v)
    };
    // due scores: c = 86400, a = 129600, b = 243200
    let expected = vec!["c".to_string(), "a".to_string(), "b".to_string()];
    assert_eq!(build(&[0, 1, 2]), expected);
    assert_eq!(build(&[2, 1, 0]), expected);
    assert_eq!(build(&[1, 0, 2]), expected);
}

#[test]
fn end_to_end_empty_log() {
    let defs = lines(&["\"Water Plants\",Hydration,2", "\"Pay Bills\",Finance,30"]);
    let mut v = load_activities(&defs);
    sort_by_due_activity(&mut v, &Vec::new());
    assert_eq!(v[0].name, "Water Plants");
    assert_eq!(v[0].last_activity, 0);
    assert_eq!(v[1].last_activity, 0);
    assert_eq!(v[0].due_score(), 2 * 43200);
    assert_eq!(v[1].due_score(), 30 * 43200);
}

#[test]
fn end_to_end_log_flips_order() {
    let defs = lines(&["\"Water Plants\",Hydration,2", "\"Pay Bills\",Finance,30"]);
    let mut v = load_activities(&defs);
    sort_by_due_activity(&mut v, &lines(&["Water Plants;1000000000", "Unknown;5", "junk"]));
    assert_eq!(v[0].name, "Pay Bills");
    assert_eq!(v[1].name, "Water Plants");
    assert_eq!(v[1].last_activity, 1000000000);
    assert_eq!(v[1].due_score(), 1000000000 + 2 * 43200);
}

#[test]
fn elapsed_days_text() {
    assert_eq!(get_elapsed_days(1000000000 + 3 * 43200 + 5, 1000000000), "3 Tage");
    assert_eq!(get_elapsed_days(10, 20), "0 Tage");
    assert_eq!(get_elapsed_days(43200 * 12, 0), "12 Tage");
}

#[test]
fn describe_activity_text() {
    let mut a = Activity::new("Water Plants", "Hydration", 2);
    assert_eq!(describe_activity(&a, 5), "Water Plants (Hydration - Alle 2 Tage) Letzte: Never");
    a.last_activity = 1000;
    assert_eq!(
        describe_activity(&a, 1000 + 43200 * 4),
        "Water Plants (Hydration - Alle 2 Tage) Letzte: 4 Tage"
    );
}

#[test]
fn log_entry_round_trips() {
    let a = Activity::new("Water Plants", "Hydration", 2);
    let line = log_entry(&a, 1234567890);
    assert_eq!(line, "Water Plants;1234567890");
    let e = parse_log_line(&line).unwrap();
    assert_eq!(e.name, "Water Plants");
    assert_eq!(e.timestamp, 1234567890);
}

#[test]
fn log_order_does_not_matter() {
    let defs = lines(&["a,x,1", "b,y,1", "c,z,100"]);
    let log1 = lines(&["a;500", "b;100", "a;300", "b;900000"]);
    let log2 = lines(&["b;900000", "a;300", "b;100", "a;500"]);
    let mut v1 = load_activities(&defs);
    let mut v2 = load_activities(&defs);
    sort_by_due_activity(&mut v1, &log1);
    sort_by_due_activity(&mut v2, &log2);
    assert_eq!(names(&v1), names(&v2));
    let last1: Vec<u64> = v1.iter().map(|a| a.last_activity).collect();
    let last2: Vec<u64> = v2.iter().map(|a| a.last_activity).collect();
    assert_eq!(last1, last2);
    // due scores: a = 43700, b = 943200, c = 4320000
    assert_eq!(names(&v1), vec!["a".to_string(), "b".to_string(), "c".to_string()]);
    assert_eq!(last1, vec![500, 900000, 0]);
}
