//! The decisions of the bot thread: what it does with the application
//! token that the front end sends it.
use vstd::prelude::*;
use crate::text::{split, trim};

verus! {

/// The number of bytes in the UTF-8 encoding of `c`.
pub open spec fn utf8_width(c: char) -> nat {
    let u = c as u32;
    if u < 0x80 {
        1
    } else if u < 0x800 {
        2
    } else if u < 0x10000 {
        3
    } else {
        4
    }
}

/// The number of bytes in the UTF-8 encoding of `s` (`str::len`).
pub open spec fn utf8_len(s: Seq<char>) -> nat
    decreases s.len(),
{
    if s.len() == 0 {
        0
    } else {
        utf8_len(s.drop_last()) + utf8_width(s.last())
    }
}

/// A token of the form that the Discord client library accepts: not empty,
/// three parts separated by `.`, the second part at least six bytes long,
/// and no white space at either end.
pub open spec fn valid_token(token: Seq<char>) -> bool {
    &&& token.len() > 0
    &&& split(token, '.').len() == 3
    &&& utf8_len(split(token, '.')[1]) >= 6
    &&& trim(token) == token
}

#[verifier::external_type_specification]
#[verifier::external_body]
pub struct ExSerenityError(serenity::Error);

/// `serenity::client::validate_token`. Its source returns `Ok` exactly when
/// the token is not empty, splits at `.` into three parts of which the
/// second is at least six bytes long, and equals its trimmed self; this
/// contract states that, and nothing of the error it returns otherwise.
#[verifier::external_body]
fn check_token_form(token: &str) -> (r: Result<(), serenity::Error>)
    ensures
        r is Ok <==> valid_token(token@),
{
    serenity::client::validate_token(token)
}

/// Why the bot thread gave up.
#[derive(Clone, Copy, Debug, PartialEq, Eq, Structural)]
pub enum BotError {
    /// The front end closed the channel before sending a token.
    TokenUnavailable,
    /// The token is not of the form of a Discord token.
    InvalidToken,
    /// The client could not be started.
    ClientStartFailed,
}

/// The message shown to the user for each error.
pub open spec fn bot_error_text(e: BotError) -> Seq<char> {
    match e {
        BotError::TokenUnavailable => "Error: couldn't read application token."@,
        BotError::InvalidToken => "Error: invalid token"@,
        BotError::ClientStartFailed => "Error: failed to start client."@,
    }
}

impl BotError {
    /// The message shown to the user.
    pub fn message(&self) -> (s: String)
        ensures
            s@ == bot_error_text(*self),
    {
        match self {
            BotError::TokenUnavailable => String::from_str("Error: couldn't read application token."),
            BotError::InvalidToken => String::from_str("Error: invalid token"),
            BotError::ClientStartFailed => String::from_str("Error: failed to start client."),
        }
    }
}

/// What the bot thread does with what it received from the front end
/// (`None` where the channel closed): start the client with a token of
/// valid form, or give up with the error to show.
pub fn run_bot(received: Option<String>) -> (r: Result<String, BotError>)
    ensures
        r == (match received {
            None => Err(BotError::TokenUnavailable),
            Some(token) => if valid_token(token@) {
                Ok(token)
            } else {
                Err(BotError::InvalidToken)
            },
        }),
{
    match received {
        None => Err(BotError::TokenUnavailable),
        Some(token) => match check_token_form(token.as_str()) {
            Ok(()) => Ok(token),
            Err(_) => Err(BotError::InvalidToken),
        },
    }
}

} // verus!
