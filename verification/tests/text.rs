use chatbot::text::{
    chars_of, has_char, is_space_char, join_strings, pieces_of, same_chars, split_chars,
    string_of, trim_chars, trimmed_pieces_of,
};

#[test]
fn space_matches_char_is_whitespace_everywhere() {
    for u in 0u32..=0x10ffff {
        if let Some(c) = char::from_u32(u) {
            assert_eq!(is_space_char(c), c.is_whitespace(), "{:?}", c);
        }
    }
}

#[test]
fn trim_matches_str_trim() {
    for s in ["", "  ", " a ", "\n\tab c\r\n", "\u{3000}x\u{a0}", "abc", " \u{85}"] {
        let t: String = trim_chars(&chars_of(s)).into_iter().collect();
        assert_eq!(t, s.trim());
    }
}

#[test]
fn split_matches_str_split() {
    for s in ["", ";", "a;b", ";a;;b;", "abc"] {
        let got: Vec<String> = split_chars(&chars_of(s), ';')
            .into_iter()
            .map(|v| v.into_iter().collect())
            .collect();
        let want: Vec<String> = s.split(";").map(|p| p.to_string()).collect();
        assert_eq!(got, want);
        assert_eq!(pieces_of(&chars_of(s), ';'), want);
    }
}

#[test]
fn trimmed_pieces() {
    assert_eq!(trimmed_pieces_of(&chars_of(" a , b,c "), ','), vec!["a", "b", "c"]);
    assert_eq!(trimmed_pieces_of(&chars_of(""), ','), vec![""]);
}

#[test]
fn join_matches_slice_join() {
    let parts: Vec<String> = vec!["a".to_string(), "".to_string(), "bc".to_string()];
    assert_eq!(join_strings(&parts, "\n"), parts.join("\n"));
    assert_eq!(join_strings(&Vec::new(), ", "), "");
    assert_eq!(join_strings(&vec!["x".to_string()], ", "), "x");
}

#[test]
fn small_helpers() {
    assert_eq!(string_of(&chars_of("héllo")), "héllo");
    assert!(same_chars(&chars_of("ab"), &chars_of("ab")));
    assert!(!same_chars(&chars_of("ab"), &chars_of("abc")));
    assert!(!same_chars(&chars_of("ab"), &chars_of("ac")));
    assert!(has_char(&chars_of("a:b"), ':'));
    assert!(!has_char(&chars_of("ab"), ':'));
}
