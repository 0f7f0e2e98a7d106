use swyt::{parse_config_text, parse_rules_text, SwytError, TimeOfDay, Weekday};

const VALID_RULES: &str = "process0=18:00~20:00;MO,TU,WE|12:00~14:00;TH,FR|*;SA,SU\n\
process1=10:00~11:00;MO,TU,WE\n\
process2=12:00~15:00;MO,TH,FR\n";

#[test]
fn load_config_valid() {
    let config = parse_config_text("check_interval=120\n").unwrap();
    assert_eq!(config.check_interval(), 120);
}

#[test]
fn load_config_missing_value() {
    let config = parse_config_text("check_interval=\n").unwrap();
    assert_eq!(config.check_interval(), 60);
}

#[test]
fn load_config_bad_value() {
    let config = parse_config_text("check_interval=abc\n").unwrap();
    assert_eq!(config.check_interval(), 60);
}

#[test]
fn load_rules_valid() {
    let rules = parse_rules_text(VALID_RULES).unwrap();

    assert_eq!(rules.len(), 3);

    let process0_rules = rules.get("process0").unwrap();
    let process0_rule0 = process0_rules.get(0).unwrap();
    assert_eq!(process0_rule0.begin_time, TimeOfDay::from_hms(18, 00, 00));
    assert_eq!(process0_rule0.end_time, TimeOfDay::from_hms(20, 00, 00));
    assert!(process0_rule0.days_of_week.contains(Weekday::Mon));
    assert!(process0_rule0.days_of_week.contains(Weekday::Tue));
    assert!(process0_rule0.days_of_week.contains(Weekday::Wed));

    let process0_rule1 = process0_rules.get(1).unwrap();
    assert_eq!(process0_rule1.begin_time, TimeOfDay::from_hms(12, 00, 00));
    assert_eq!(process0_rule1.end_time, TimeOfDay::from_hms(14, 00, 00));
    assert!(process0_rule1.days_of_week.contains(Weekday::Thu));
    assert!(process0_rule1.days_of_week.contains(Weekday::Fri));

    let process0_rule2 = process0_rules.get(2).unwrap();
    assert_eq!(process0_rule2.begin_time, TimeOfDay::from_hms(00, 00, 00));
    assert_eq!(process0_rule2.end_time, TimeOfDay::from_hms(23, 59, 59));
    assert!(process0_rule2.days_of_week.contains(Weekday::Sat));
    assert!(process0_rule2.days_of_week.contains(Weekday::Sun));

    let process1_rules = rules.get("process1").unwrap();
    let process1_rule0 = process1_rules.get(0).unwrap();
    assert_eq!(process1_rule0.begin_time, TimeOfDay::from_hms(10, 00, 00));
    assert_eq!(process1_rule0.end_time, TimeOfDay::from_hms(11, 00, 00));
    assert!(process1_rule0.days_of_week.contains(Weekday::Mon));
    assert!(process1_rule0.days_of_week.contains(Weekday::Tue));
    assert!(process1_rule0.days_of_week.contains(Weekday::Wed));

    let process2_rules = rules.get("process2").unwrap();
    let process2_rule0 = process2_rules.get(0).unwrap();
    assert_eq!(process2_rule0.begin_time, TimeOfDay::from_hms(12, 00, 00));
    assert_eq!(process2_rule0.end_time, TimeOfDay::from_hms(15, 00, 00));
    assert!(process2_rule0.days_of_week.contains(Weekday::Mon));
    assert!(process2_rule0.days_of_week.contains(Weekday::Thu));
    assert!(process2_rule0.days_of_week.contains(Weekday::Fri));
}

#[test]
fn load_invalid_rules() {
    match parse_rules_text("process0=18:00~20:00;MO\nprocess1=18:00;MO\n") {
        Err(SwytError::RuleParseError) => assert!(true),
        _ => assert!(false),
    }
}

#[test]
fn load_no_rule() {
    let rules = parse_rules_text("").unwrap();
    assert_eq!(rules.len(), 0);
}
