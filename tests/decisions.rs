use swyt::{
    is_allowed, parse_config_text, parse_rules_text, process_rules, Configuration, Moment,
    ProcessEntry, RuleStore, SwytError, TimeOfDay, Weekday, DEFAULT_CHECK_INTERVAL,
};

fn at(day: Weekday, h: u32, m: u32, s: u32) -> Moment {
    Moment::new(day, TimeOfDay::from_hms(h, m, s))
}

fn is_rule_parse_error(r: Result<RuleStore, SwytError>) -> bool {
    matches!(r, Err(SwytError::RuleParseError))
}

#[test]
fn single_period_reproduces_declared_window() {
    let rules = parse_rules_text("proc=08:00~10:00;MO,TU").unwrap();
    let periods = rules.get("proc").unwrap();
    assert_eq!(periods.len(), 1);
    let p = periods[0];
    assert!(p.days_of_week.contains(Weekday::Mon));
    assert!(p.days_of_week.contains(Weekday::Tue));
    assert!(!p.days_of_week.contains(Weekday::Wed));
    assert_eq!(p.begin_time, TimeOfDay::from_hms(8, 0, 0));
    assert_eq!(p.end_time, TimeOfDay::from_hms(10, 0, 0));
    assert!(is_allowed(&rules, "proc", &at(Weekday::Mon, 9, 0, 0)));
    assert!(!is_allowed(&rules, "proc", &at(Weekday::Mon, 15, 0, 0)));
    assert!(is_allowed(&rules, "proc", &at(Weekday::Tue, 9, 30, 0)));
    assert!(!is_allowed(&rules, "proc", &at(Weekday::Wed, 9, 0, 0)));
}

#[test]
fn wildcard_covers_whole_day() {
    let rules = parse_rules_text("proc=*;MO").unwrap();
    let p = rules.get("proc").unwrap()[0];
    assert_eq!(p.begin_time, TimeOfDay::from_hms(0, 0, 0));
    assert_eq!(p.end_time, TimeOfDay::from_hms(23, 59, 59));
    assert!(is_allowed(&rules, "proc", &at(Weekday::Mon, 0, 0, 0)));
    assert!(is_allowed(&rules, "proc", &at(Weekday::Mon, 23, 59, 59)));
    assert!(!is_allowed(&rules, "proc", &at(Weekday::Tue, 12, 0, 0)));
}

#[test]
fn multi_slot_expands_to_one_period_per_slot() {
    let rules = parse_rules_text("proc=08:00~10:00,14:00~16:00;MO").unwrap();
    let periods = rules.get("proc").unwrap();
    assert_eq!(periods.len(), 2);
    for p in periods.iter() {
        assert!(p.days_of_week.contains(Weekday::Mon));
        assert!(!p.days_of_week.contains(Weekday::Sun));
    }
    assert_eq!(periods[1].begin_time, TimeOfDay::from_hms(14, 0, 0));
    assert_eq!(periods[1].end_time, TimeOfDay::from_hms(16, 0, 0));
    assert!(is_allowed(&rules, "proc", &at(Weekday::Mon, 9, 0, 0)));
    assert!(is_allowed(&rules, "proc", &at(Weekday::Mon, 15, 0, 0)));
    assert!(!is_allowed(&rules, "proc", &at(Weekday::Mon, 12, 0, 0)));
}

#[test]
fn segments_combine_with_or() {
    let rules = parse_rules_text("proc=08:00~10:00;MO|14:00~16:00;TU").unwrap();
    assert_eq!(rules.get("proc").unwrap().len(), 2);
    assert!(is_allowed(&rules, "proc", &at(Weekday::Mon, 9, 0, 0)));
    assert!(is_allowed(&rules, "proc", &at(Weekday::Tue, 15, 0, 0)));
    assert!(!is_allowed(&rules, "proc", &at(Weekday::Mon, 15, 0, 0)));
    assert!(!is_allowed(&rules, "proc", &at(Weekday::Tue, 9, 0, 0)));
}

#[test]
fn bounds_are_inclusive() {
    let rules = parse_rules_text("proc=08:00~10:00;MO").unwrap();
    assert!(is_allowed(&rules, "proc", &at(Weekday::Mon, 8, 0, 0)));
    assert!(is_allowed(&rules, "proc", &at(Weekday::Mon, 10, 0, 0)));
    assert!(!is_allowed(&rules, "proc", &at(Weekday::Mon, 7, 59, 59)));
    assert!(!is_allowed(&rules, "proc", &at(Weekday::Mon, 10, 0, 1)));
    let p = rules.get("proc").unwrap()[0];
    assert!(p.admits(&at(Weekday::Mon, 8, 0, 0)));
    assert!(!p.admits(&at(Weekday::Mon, 10, 0, 1)));
}

#[test]
fn unmanaged_process_always_allowed() {
    let rules = parse_rules_text("proc=08:00~10:00;MO").unwrap();
    assert!(is_allowed(&rules, "other", &at(Weekday::Mon, 15, 0, 0)));
    assert!(is_allowed(&rules, "other", &at(Weekday::Sun, 0, 0, 0)));
    assert!(is_allowed(&rules, "Proc", &at(Weekday::Mon, 15, 0, 0)));
}

#[test]
fn empty_store_denies_nothing() {
    let rules = RuleStore::new();
    assert!(rules.is_empty());
    assert!(is_allowed(&rules, "anything", &at(Weekday::Wed, 3, 4, 5)));
    let parsed = parse_rules_text("").unwrap();
    assert!(is_allowed(&parsed, "anything", &at(Weekday::Fri, 23, 59, 59)));
}

#[test]
fn malformed_lines_fail_the_load() {
    assert!(is_rule_parse_error(parse_rules_text("proc=08:00;MO")));
    assert!(is_rule_parse_error(parse_rules_text("proc=08:00~10:00;XX")));
    assert!(is_rule_parse_error(parse_rules_text("proc08:00~10:00;MO")));
    assert!(is_rule_parse_error(parse_rules_text("proc=08:00~10:00")));
    assert!(is_rule_parse_error(parse_rules_text("proc=8h:00~10:00;MO")));
    assert!(is_rule_parse_error(parse_rules_text("proc=24:00~10:00;MO")));
    assert!(is_rule_parse_error(parse_rules_text("proc=08:60~10:00;MO")));
    assert!(is_rule_parse_error(parse_rules_text("proc=08:00~10:00;")));
    assert!(is_rule_parse_error(parse_rules_text(
        "good=08:00~10:00;MO\nbad=08:00~10:00;XX\nlater=*;SU"
    )));
}

#[test]
fn blank_lines_and_crlf_are_accepted() {
    let rules = parse_rules_text("a=*;MO\r\n\n   \r\nb=09:30~10:15;SU\r\n").unwrap();
    assert_eq!(rules.len(), 2);
    let b = rules.get("b").unwrap()[0];
    assert_eq!(b.begin_time.hour(), 9);
    assert_eq!(b.begin_time.minute(), 30);
    assert_eq!(b.end_time.num_seconds_from_midnight(), 10 * 3600 + 15 * 60);
}

#[test]
fn later_line_replaces_earlier_rule() {
    let rules = parse_rules_text("proc=08:00~10:00;MO\nproc=14:00~16:00;MO").unwrap();
    assert_eq!(rules.len(), 1);
    assert!(!is_allowed(&rules, "proc", &at(Weekday::Mon, 9, 0, 0)));
    assert!(is_allowed(&rules, "proc", &at(Weekday::Mon, 15, 0, 0)));
}

#[test]
fn reversed_bounds_cover_nothing() {
    let rules = parse_rules_text("proc=10:00~08:00;MO").unwrap();
    let p = rules.get("proc").unwrap()[0];
    assert_eq!(p.begin_time, TimeOfDay::from_hms(10, 0, 0));
    assert!(!is_allowed(&rules, "proc", &at(Weekday::Mon, 9, 0, 0)));
    assert!(!is_allowed(&rules, "proc", &at(Weekday::Mon, 10, 0, 0)));
}

#[test]
fn plus_sign_is_read_as_u32_from_str_does() {
    let rules = parse_rules_text("proc=+8:00~10:00;MO").unwrap();
    assert_eq!(rules.get("proc").unwrap()[0].begin_time, TimeOfDay::from_hms(8, 0, 0));
}

#[test]
fn decision_is_deterministic() {
    let rules = parse_rules_text("proc=08:00~10:00;MO|*;SA").unwrap();
    for m in [at(Weekday::Mon, 9, 0, 0), at(Weekday::Mon, 11, 0, 0), at(Weekday::Sat, 1, 2, 3)] {
        assert_eq!(is_allowed(&rules, "proc", &m), is_allowed(&rules, "proc", &m));
    }
}

#[test]
fn config_fallbacks_and_values() {
    assert_eq!(parse_config_text("").unwrap().check_interval(), 60);
    assert_eq!(parse_config_text("other=5\n").unwrap().check_interval(), 60);
    assert_eq!(parse_config_text("check_interval=abc").unwrap().check_interval(), 60);
    assert_eq!(parse_config_text("check_interval=0").unwrap().check_interval(), 60);
    assert_eq!(parse_config_text("check_interval=120").unwrap().check_interval(), 120);
    assert_eq!(parse_config_text("  check_interval =  45 \n").unwrap().check_interval(), 45);
    assert_eq!(
        parse_config_text("check_interval=30\ncheck_interval=x").unwrap().check_interval(),
        60
    );
    assert_eq!(Configuration::default().check_interval(), DEFAULT_CHECK_INTERVAL);
}

#[test]
fn config_line_without_separator_fails() {
    assert!(matches!(parse_config_text("check_interval 120"), Err(SwytError::ConfigParseError)));
}

#[test]
fn scan_pass_selects_denied_processes() {
    let rules = parse_rules_text("game=18:00~20:00;MO\nchat=*;MO,TU").unwrap();
    let processes = vec![
        ProcessEntry { pid: 1, name: Some("game".to_string()) },
        ProcessEntry { pid: 2, name: Some("chat".to_string()) },
        ProcessEntry { pid: 3, name: None },
        ProcessEntry { pid: 4, name: Some("editor".to_string()) },
        ProcessEntry { pid: 5, name: Some("game".to_string()) },
    ];
    assert_eq!(process_rules(&rules, &processes, &at(Weekday::Mon, 12, 0, 0)), vec![1, 5]);
    assert_eq!(process_rules(&rules, &processes, &at(Weekday::Mon, 19, 0, 0)), Vec::<i32>::new());
    assert_eq!(process_rules(&rules, &processes, &at(Weekday::Wed, 19, 0, 0)), vec![1, 2, 5]);
}

#[test]
fn error_messages() {
    assert_eq!(SwytError::RuleParseError.message(), "Couldn't parse rule");
    assert_eq!(SwytError::ConfigParseError.message(), "Couldn't parse config file");
    assert_eq!(SwytError::ConfigFileNotFound.message(), "Couldn't find config file");
    assert_eq!(SwytError::ProcessFetchError.message(), "Couldn't fetch process");
    assert_eq!(SwytError::ProcessKillError.message(), "Couldn't kill process");
    let io = std::io::Error::new(std::io::ErrorKind::Other, "disk gone");
    assert_eq!(SwytError::IoError(io).message(), "disk gone");
}

#[test]
fn time_and_moment_constructors() {
    assert!(TimeOfDay::from_hms_opt(24, 0, 0).is_none());
    assert!(TimeOfDay::from_hms_opt(23, 60, 0).is_none());
    assert_eq!(TimeOfDay::from_hms_opt(23, 59, 59).unwrap().num_seconds_from_midnight(), 86399);
    let t = TimeOfDay::from_hms(13, 14, 15);
    assert_eq!((t.hour(), t.minute(), t.second()), (13, 14, 15));
    assert!(TimeOfDay::from_num_seconds_from_midnight(86400).is_none());
    assert_eq!(Weekday::from_days_from_monday(6), Some(Weekday::Sun));
    assert_eq!(Weekday::Wed.num_days_from_monday(), 2);
    assert!(Weekday::from_days_from_monday(7).is_none());
    let m = Moment::from_parts(4, 3600).unwrap();
    assert_eq!(m.weekday, Weekday::Fri);
    assert_eq!(m.time, TimeOfDay::from_hms(1, 0, 0));
    assert!(Moment::from_parts(7, 0).is_none());
}

#[test]
fn wildcard_is_one_element_among_slots() {
    let rules = parse_rules_text("proc=*,08:00~10:00;SU").unwrap();
    let periods = rules.get("proc").unwrap();
    assert_eq!(periods.len(), 2);
    assert_eq!(periods[0].begin_time, TimeOfDay::from_hms(0, 0, 0));
    assert_eq!(periods[0].end_time, TimeOfDay::from_hms(23, 59, 59));
    assert_eq!(periods[1].begin_time, TimeOfDay::from_hms(8, 0, 0));
    assert!(is_allowed(&rules, "proc", &at(Weekday::Sun, 20, 0, 0)));
    assert!(!is_allowed(&rules, "proc", &at(Weekday::Mon, 20, 0, 0)));
    assert!(is_rule_parse_error(parse_rules_text("proc=**;SU")));
    assert!(is_rule_parse_error(parse_rules_text("proc=*~10:00;SU")));
}

#[test]
fn io_error_converts_into_library_error() {
    let io = std::io::Error::new(std::io::ErrorKind::NotFound, "missing");
    let e = SwytError::from(io);
    assert!(matches!(e, SwytError::IoError(_)));
    assert_eq!(e.message(), "missing");
}
