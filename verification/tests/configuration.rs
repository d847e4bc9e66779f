use chatbot::configuration::{
    configuration_text, load_configuration, stored_token, token_file_text, ModuleSettings,
};
use chatbot::module_status::ModuleStatus;

fn names(list: &[&str]) -> Vec<String> {
    list.iter().map(|w| w.to_string()).collect()
}

#[test]
fn settings_get_and_insert() {
    let mut s = ModuleSettings::new();
    assert_eq!(s.get("profanity_filter"), None);
    s.insert("profanity_filter", ModuleStatus::Disabled);
    assert_eq!(s.get("profanity_filter"), Some(ModuleStatus::Disabled));
    s.insert("profanity_filter", ModuleStatus::Enabled);
    assert_eq!(s.get("profanity_filter"), Some(ModuleStatus::Enabled));
    s.insert("other", ModuleStatus::Disabled);
    assert_eq!(s.get("profanity_filter"), Some(ModuleStatus::Enabled));
    assert_eq!(s.get("other"), Some(ModuleStatus::Disabled));
    assert_eq!(s.get("missing"), None);
}

#[test]
fn load_empty_file_switches_modules_off() {
    let mut s = ModuleSettings::new();
    s.insert("a", ModuleStatus::Enabled);
    load_configuration(&mut s, &names(&["a", "b"]), "");
    assert_eq!(s.get("a"), Some(ModuleStatus::Disabled));
    assert_eq!(s.get("b"), Some(ModuleStatus::Disabled));
}

#[test]
fn load_reads_entries_of_known_modules() {
    let mut s = ModuleSettings::new();
    load_configuration(
        &mut s,
        &names(&["profanity_filter", "greeter"]),
        "profanity_filter: enabled;\n greeter :disabled; unknown: enabled",
    );
    assert_eq!(s.get("profanity_filter"), Some(ModuleStatus::Enabled));
    assert_eq!(s.get("greeter"), Some(ModuleStatus::Disabled));
    assert_eq!(s.get("unknown"), None);
}

#[test]
fn load_bad_status_and_later_entries() {
    let mut s = ModuleSettings::new();
    load_configuration(&mut s, &names(&["a"]), "a: enabled; a: maybe");
    assert_eq!(s.get("a"), Some(ModuleStatus::Disabled));
    load_configuration(&mut s, &names(&["a"]), "a: disabled; a: enabled");
    assert_eq!(s.get("a"), Some(ModuleStatus::Enabled));
    load_configuration(&mut s, &names(&["a"]), "a");
    assert_eq!(s.get("a"), Some(ModuleStatus::Disabled));
}

#[test]
fn load_keeps_modules_outside_the_valid_list() {
    let mut s = ModuleSettings::new();
    s.insert("old", ModuleStatus::Enabled);
    load_configuration(&mut s, &names(&["a"]), "old: disabled; a: enabled");
    assert_eq!(s.get("old"), Some(ModuleStatus::Disabled));
    assert_eq!(s.get("a"), Some(ModuleStatus::Enabled));
}

#[test]
fn configuration_text_format() {
    let mut s = ModuleSettings::new();
    s.insert("a", ModuleStatus::Enabled);
    assert_eq!(
        configuration_text(&s, &names(&["a", "b"])),
        "a: enabled;\nb: disabled"
    );
    assert_eq!(configuration_text(&s, &Vec::new()), "");
}

#[test]
fn configuration_round_trip() {
    let valid = names(&["profanity_filter", "greeter", "dice"]);
    let mut saved = ModuleSettings::new();
    saved.insert("profanity_filter", ModuleStatus::Enabled);
    saved.insert("dice", ModuleStatus::Enabled);
    let text = configuration_text(&saved, &valid);
    let mut loaded = ModuleSettings::new();
    loaded.insert("elsewhere", ModuleStatus::Enabled);
    load_configuration(&mut loaded, &valid, &text);
    assert_eq!(loaded.get("profanity_filter"), Some(ModuleStatus::Enabled));
    assert_eq!(loaded.get("greeter"), Some(ModuleStatus::Disabled));
    assert_eq!(loaded.get("dice"), Some(ModuleStatus::Enabled));
    assert_eq!(loaded.get("elsewhere"), Some(ModuleStatus::Enabled));
}

#[test]
fn stored_token_cases() {
    assert_eq!(stored_token(""), None);
    assert_eq!(stored_token("no colon here"), None);
    assert_eq!(stored_token("bot: abc.def \n"), Some("abc.def".to_string()));
    assert_eq!(stored_token("a:b:c"), Some("c".to_string()));
    assert_eq!(stored_token("name:"), Some("".to_string()));
}

#[test]
fn token_file_text_format() {
    assert_eq!(token_file_text("mybot", "tok.en"), "mybot: tok.en\n");
}

#[test]
fn token_round_trip() {
    let text = token_file_text("my: bot", " MTIz.abcdef.xyz ");
    assert_eq!(stored_token(&text), Some("MTIz.abcdef.xyz".to_string()));
}
