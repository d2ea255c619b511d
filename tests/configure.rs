use goose::configure::{
    contains_text, first_run_extension, parse_timeout, plan_removal, toggled, validate_command, validate_extension_name,
    validate_uri, InputProblem, RemovalPlan,
};
use goose::extension::ExtensionConfig;
use goose::permission::{decide, parse_mode, Mode, PermissionStore, Verdict};

#[test]
fn names_must_be_new_and_not_empty() {
    let existing = vec!["developer".to_string()];
    assert_eq!(validate_extension_name("", &existing), Err(InputProblem::Empty));
    assert_eq!(validate_extension_name("developer", &existing), Err(InputProblem::NameTaken));
    assert_eq!(validate_extension_name("mine", &existing), Ok(()));
    assert_eq!(validate_command(""), Err(InputProblem::Empty));
    assert_eq!(validate_command("npx x"), Ok(()));
    assert_eq!(validate_uri(""), Err(InputProblem::Empty));
    assert_eq!(validate_uri("localhost:8000"), Err(InputProblem::NotHttp));
    assert_eq!(validate_uri("http://localhost:8000/events"), Ok(()));
    assert_eq!(InputProblem::NameTaken.message(), "An extension with this name already exists");
}

#[test]
fn timeouts_parse_like_u64() {
    assert_eq!(parse_timeout("300"), Some(300));
    assert_eq!(parse_timeout("+5"), Some(5));
    assert_eq!(parse_timeout("007"), Some(7));
    assert_eq!(parse_timeout(""), None);
    assert_eq!(parse_timeout("+"), None);
    assert_eq!(parse_timeout("-1"), None);
    assert_eq!(parse_timeout("12a"), None);
    assert_eq!(parse_timeout(" 1"), None);
    assert_eq!(parse_timeout("18446744073709551615"), Some(u64::MAX));
    assert_eq!(parse_timeout("18446744073709551616"), None);
    for s in ["0", "42", "+9", "x", "99999999999999999999"] {
        assert_eq!(parse_timeout(s), s.parse::<u64>().ok());
    }
}

#[test]
fn removal_offers_only_disabled_extensions() {
    assert!(matches!(plan_removal(&vec![]), RemovalPlan::NothingConfigured));
    assert!(matches!(plan_removal(&vec![("a".to_string(), true)]), RemovalPlan::AllEnabled));
    match plan_removal(&vec![("a".to_string(), true), ("b".to_string(), false), ("c".to_string(), false)]) {
        RemovalPlan::Choose(names) => assert_eq!(names, vec!["b", "c"]),
        other => panic!("unexpected {:?}", other),
    }
}

#[test]
fn toggling_enables_exactly_the_selected() {
    let names = vec!["a".to_string(), "b".to_string(), "c".to_string()];
    let selected = vec!["c".to_string(), "a".to_string()];
    assert_eq!(
        toggled(&names, &selected),
        vec![("a".to_string(), true), ("b".to_string(), false), ("c".to_string(), true)]
    );
    assert!(contains_text(&selected, &"a".to_string()));
    assert!(!contains_text(&selected, &"b".to_string()));
}

#[test]
fn first_run_enables_developer() {
    let e = first_run_extension();
    assert!(e.enabled);
    assert!(matches!(e.config, ExtensionConfig::Builtin { ref name, timeout: Some(300) } if name == "developer"));
}

#[test]
fn modes_parse_in_any_case() {
    assert_eq!(parse_mode("AUTO"), Some(Mode::Auto));
    assert_eq!(parse_mode("Approve"), Some(Mode::Approve));
    assert_eq!(parse_mode("chat"), Some(Mode::Chat));
    assert_eq!(parse_mode("smart"), None);
    assert_eq!(parse_mode(""), None);
    assert_eq!(Mode::Approve.as_str(), "approve");
}

#[test]
fn permission_decisions() {
    assert_eq!(decide(Mode::Chat, true, true), Verdict::Forbidden);
    assert_eq!(decide(Mode::Auto, false, false), Verdict::Proceed);
    assert_eq!(decide(Mode::Approve, true, false), Verdict::Proceed);
    assert_eq!(decide(Mode::Approve, false, true), Verdict::Proceed);
    assert_eq!(decide(Mode::Approve, false, false), Verdict::Confirm);
    let mut store = PermissionStore::new();
    assert!(!store.approved("shell"));
    store.record("shell".to_string(), true);
    assert!(store.approved("shell"));
    store.record("shell".to_string(), false);
    assert!(!store.approved("shell"));
}
