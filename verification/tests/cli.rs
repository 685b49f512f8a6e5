use scan_pool::cli::{plan, Command};

fn some(text: &str) -> Option<String> {
    Some(text.to_string())
}

fn scan_of(command: Command) -> (String, String) {
    match command {
        Command::Scan { rules, target } => (rules, target),
        other => panic!("expected a scan, got {:?}", other),
    }
}

#[test]
fn target_and_rules_give_a_scan() {
    let command = plan(false, some("rules.yar"), some("/srv/files"), None, None);
    assert_eq!(scan_of(command), ("rules.yar".to_string(), "/srv/files".to_string()));
}

#[test]
fn help_wins_over_everything() {
    assert!(matches!(plan(true, None, None, None, None), Command::Help));
    assert!(matches!(plan(true, some("r"), some("t"), some("d"), some("f")), Command::Help));
}

#[test]
fn missing_rules_stop_the_run() {
    assert!(matches!(plan(false, None, some("t"), None, None), Command::MissingRules));
    assert!(matches!(plan(false, None, None, some("d"), some("f")), Command::MissingRules));
}

#[test]
fn missing_rules_are_reported_before_a_missing_target() {
    assert!(matches!(plan(false, None, None, None, None), Command::MissingRules));
}

#[test]
fn missing_target_stops_the_run() {
    assert!(matches!(plan(false, some("r"), None, None, None), Command::MissingTarget));
}

#[test]
fn directory_or_file_can_stand_for_the_target() {
    assert_eq!(scan_of(plan(false, some("r"), None, some("d"), None)).1, "d");
    assert_eq!(scan_of(plan(false, some("r"), None, None, some("f"))).1, "f");
}

#[test]
fn directory_goes_before_file_and_target_before_both() {
    assert_eq!(scan_of(plan(false, some("r"), None, some("d"), some("f"))).1, "d");
    assert_eq!(scan_of(plan(false, some("r"), some("t"), some("d"), some("f"))).1, "t");
    assert_eq!(scan_of(plan(false, some("r"), some("t"), None, some("f"))).1, "t");
}
