use chatbot::profanity_filter::{ParseError, WordList};

fn words(list: &[&str]) -> Vec<String> {
    list.iter().map(|w| w.to_string()).collect()
}

#[test]
fn word_list_to_string_format() {
    let list = WordList { warn_words: words(&["darn", "heck"]), kick_words: words(&["bad"]) };
    assert_eq!(list.to_string(), "warn_words: darn\nheck;\nkick_words: bad");
}

#[test]
fn word_list_to_string_of_empty_lists() {
    let list = WordList { warn_words: Vec::new(), kick_words: Vec::new() };
    assert_eq!(list.to_string(), "warn_words: ;\nkick_words: ");
}

#[test]
fn word_list_from_blank_content() {
    for content in ["", "   ", "\n\t "] {
        let list = WordList::from_str(content).unwrap();
        assert!(list.warn_words.is_empty());
        assert!(list.kick_words.is_empty());
    }
}

#[test]
fn word_list_from_str_reads_both_sections() {
    let list = WordList::from_str("warn_words: darn\n heck ;\nkick_words: bad").unwrap();
    assert_eq!(list.warn_words, words(&["darn", "heck"]));
    assert_eq!(list.kick_words, words(&["bad"]));
}

#[test]
fn word_list_from_str_sections_in_either_order() {
    let list = WordList::from_str("kick_words: k1\nk2; warn_words: w").unwrap();
    assert_eq!(list.warn_words, words(&["w"]));
    assert_eq!(list.kick_words, words(&["k1", "k2"]));
}

#[test]
fn word_list_from_str_same_keys_is_an_error() {
    assert_eq!(
        WordList::from_str("warn_words: a; warn_words: b").err(),
        Some(ParseError)
    );
    assert_eq!(WordList::from_str(":a;:b").err(), Some(ParseError));
}

#[test]
fn word_list_from_str_missing_and_unknown_sections() {
    // No second section: the kick words are one empty word.
    let list = WordList::from_str("warn_words: a").unwrap();
    assert_eq!(list.warn_words, words(&["a"]));
    assert_eq!(list.kick_words, words(&[""]));
    // Unknown keys give one empty word each.
    let list = WordList::from_str("foo: a; bar: b").unwrap();
    assert_eq!(list.warn_words, words(&[""]));
    assert_eq!(list.kick_words, words(&[""]));
    // Only the first two sections count; text after a second colon is dropped.
    let list = WordList::from_str("warn_words: a:b; kick_words: c; warn_words: d").unwrap();
    assert_eq!(list.warn_words, words(&["a"]));
    assert_eq!(list.kick_words, words(&["c"]));
}

#[test]
fn word_list_round_trip() {
    let list = WordList {
        warn_words: words(&["darn", "", "good grief"]),
        kick_words: words(&["x"]),
    };
    let back = WordList::from_str(&list.to_string()).unwrap();
    assert_eq!(back.warn_words, list.warn_words);
    assert_eq!(back.kick_words, list.kick_words);
}

#[test]
fn word_list_round_trip_fails_on_empty_list() {
    let list = WordList { warn_words: Vec::new(), kick_words: words(&["x"]) };
    let back = WordList::from_str(&list.to_string()).unwrap();
    assert_eq!(back.warn_words, words(&[""]));
}

#[test]
fn word_list_from_text_areas() {
    let list = WordList::from_text_areas("a\n b \n", "");
    assert_eq!(list.warn_words, words(&["a", " b ", ""]));
    assert_eq!(list.kick_words, words(&[""]));
}

#[test]
fn word_list_parse_error_message() {
    assert_eq!(ParseError.to_string(), "Failed to parse word list content");
}

#[test]
fn parsed_word_list_reprints() {
    for content in [
        "warn_words: darn\n heck ;\nkick_words: bad",
        "kick_words: k1\n\nk2; warn_words:",
        "abc",
        "warn_words: a:b; kick_words: c; warn_words: d",
        " x ",
    ] {
        let list = WordList::from_str(content).unwrap();
        let again = WordList::from_str(&list.to_string()).unwrap();
        assert_eq!(again.warn_words, list.warn_words, "{:?}", content);
        assert_eq!(again.kick_words, list.kick_words, "{:?}", content);
    }
}

#[test]
fn view_and_save_keeps_list() {
    let list = WordList::from_str("warn_words: a\nb c\n\nd; kick_words: e").unwrap();
    let shown_warn = list.warn_words.join("\n");
    let shown_kick = list.kick_words.join("\n");
    let saved = WordList::from_text_areas(&shown_warn, &shown_kick);
    assert_eq!(saved.warn_words, list.warn_words);
    assert_eq!(saved.kick_words, list.kick_words);
    let back = WordList::from_str(&saved.to_string()).unwrap();
    assert_eq!(back.warn_words, list.warn_words);
    assert_eq!(back.kick_words, list.kick_words);
}
