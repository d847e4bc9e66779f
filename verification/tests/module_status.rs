use chatbot::module_status::{ModuleStatus, ParseStatusError};

#[test]
fn status_to_string() {
    assert_eq!(ModuleStatus::Enabled.to_string(), "enabled");
    assert_eq!(ModuleStatus::Disabled.to_string(), "disabled");
}

#[test]
fn status_from_str_exact_words() {
    assert_eq!(ModuleStatus::from_str("enabled"), Ok(ModuleStatus::Enabled));
    assert_eq!(ModuleStatus::from_str("disabled"), Ok(ModuleStatus::Disabled));
}

#[test]
fn status_from_str_rejects_other_text() {
    assert_eq!(ModuleStatus::from_str(""), Err(ParseStatusError));
    assert_eq!(ModuleStatus::from_str(" enabled"), Err(ParseStatusError));
    assert_eq!(ModuleStatus::from_str("Enabled"), Err(ParseStatusError));
    assert_eq!(ModuleStatus::from_str("enable"), Err(ParseStatusError));
}

#[test]
fn status_parse_through_from_str_trait() {
    let s: Result<ModuleStatus, ParseStatusError> = "disabled".parse();
    assert_eq!(s, Ok(ModuleStatus::Disabled));
    let e: Result<ModuleStatus, ParseStatusError> = "on".parse();
    assert_eq!(e, Err(ParseStatusError));
}

#[test]
fn status_text_round_trip() {
    for status in [ModuleStatus::Enabled, ModuleStatus::Disabled] {
        assert_eq!(ModuleStatus::from_str(&status.to_string()), Ok(status));
    }
}

#[test]
fn parse_status_error_message() {
    assert_eq!(
        ParseStatusError.to_string(),
        "failed to parse string slice: it needs to be either \"enabled\" or \"disabled\""
    );
}
