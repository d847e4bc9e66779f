use chatbot::bot::{run_bot, BotError};

#[test]
fn run_bot_without_token() {
    assert_eq!(run_bot(None), Err(BotError::TokenUnavailable));
}

#[test]
fn run_bot_with_invalid_tokens() {
    for token in ["", "abc", "a.b.c", "a.bcdefg", " a.bcdefg.h", "a.bcdefg.h ", "a.b.c.d"] {
        assert_eq!(run_bot(Some(token.to_string())), Err(BotError::InvalidToken), "{:?}", token);
    }
}

#[test]
fn run_bot_with_valid_tokens() {
    for token in ["a.bcdefg.h", "MTIz.ABCDEF.ghijklmnop", ".éééé.", "a.bcdefg."] {
        assert_eq!(run_bot(Some(token.to_string())), Ok(token.to_string()), "{:?}", token);
    }
}

#[test]
fn second_part_counts_bytes() {
    // Three two-byte characters make six bytes.
    assert_eq!(run_bot(Some("x.ééé.y".to_string())), Ok("x.ééé.y".to_string()));
    assert_eq!(run_bot(Some("x.éé.y".to_string())), Err(BotError::InvalidToken));
}

#[test]
fn bot_error_messages() {
    assert_eq!(BotError::TokenUnavailable.message(), "Error: couldn't read application token.");
    assert_eq!(BotError::InvalidToken.message(), "Error: invalid token");
    assert_eq!(BotError::ClientStartFailed.message(), "Error: failed to start client.");
}
