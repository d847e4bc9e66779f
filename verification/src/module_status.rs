//! Whether a bot module is switched on, and how that is written down.
use vstd::prelude::*;
use crate::text::{chars_of, is_space, lemma_trim_clean, same_chars, trim};

verus! {

broadcast use vstd::string::group_string_axioms;

/// Whether a bot module is switched on.
#[derive(Clone, Copy, Debug, PartialEq, Eq, Structural)]
pub enum ModuleStatus {
    Enabled,
    Disabled,
}

/// The error of reading a status from text that is neither `enabled` nor
/// `disabled`.
#[derive(Clone, Copy, Debug, PartialEq, Eq, Structural)]
pub struct ParseStatusError;

/// The text under which a status is written (`enabled` or `disabled`).
pub open spec fn status_text(status: ModuleStatus) -> Seq<char> {
    match status {
        ModuleStatus::Enabled => "enabled"@,
        ModuleStatus::Disabled => "disabled"@,
    }
}

/// The status that `text` names, if it names one: the text must be exactly
/// `enabled` or `disabled`.
pub open spec fn parse_status(text: Seq<char>) -> Result<ModuleStatus, ParseStatusError> {
    if text == "enabled"@ {
        Ok(ModuleStatus::Enabled)
    } else if text == "disabled"@ {
        Ok(ModuleStatus::Disabled)
    } else {
        Err(ParseStatusError)
    }
}

/// The message of a `ParseStatusError`.
pub open spec fn parse_status_error_text() -> Seq<char> {
    "failed to parse string slice: it needs to be either \"enabled\" or \"disabled\""@
}

impl ModuleStatus {
    /// Renders the status as `enabled` or `disabled`.
    pub fn to_string(&self) -> (s: String)
        ensures
            s@ == status_text(*self),
    {
        match self {
            ModuleStatus::Enabled => String::from_str("enabled"),
            ModuleStatus::Disabled => String::from_str("disabled"),
        }
    }

    /// Reads a status from its exact text, `enabled` or `disabled`.
    pub fn from_str(s: &str) -> (r: Result<ModuleStatus, ParseStatusError>)
        ensures
            r == parse_status(s@),
    {
        let text = chars_of(s);
        if same_chars(&text, &chars_of("enabled")) {
            Ok(ModuleStatus::Enabled)
        } else if same_chars(&text, &chars_of("disabled")) {
            Ok(ModuleStatus::Disabled)
        } else {
            Err(ParseStatusError)
        }
    }
}

impl ParseStatusError {
    /// The message that explains the error.
    pub fn to_string(&self) -> (s: String)
        ensures
            s@ == parse_status_error_text(),
    {
        String::from_str(
            "failed to parse string slice: it needs to be either \"enabled\" or \"disabled\"",
        )
    }
}

impl std::str::FromStr for ModuleStatus {
    type Err = ParseStatusError;

    fn from_str(s: &str) -> (r: Result<ModuleStatus, ParseStatusError>)
        ensures
            r == parse_status(s@),
    {
        ModuleStatus::from_str(s)
    }
}

/// Reading back the text of a status gives that status.
pub proof fn lemma_status_text_round_trip(status: ModuleStatus)
    ensures
        parse_status(status_text(status)) == Ok::<ModuleStatus, ParseStatusError>(status),
{
    reveal_strlit("enabled");
    reveal_strlit("disabled");
    assert("enabled"@[0] != "disabled"@[0]);
}


/// The text of a status holds no separator of the configuration files and
/// no white space at its ends.
pub proof fn lemma_status_text_plain(status: ModuleStatus)
    ensures
        !status_text(status).contains(':'),
        !status_text(status).contains(';'),
        trim(status_text(status)) == status_text(status),
        status_text(status).len() > 0,
        !is_space(status_text(status)[0]),
{
    reveal_strlit("enabled");
    reveal_strlit("disabled");
    let t = status_text(status);
    assert forall|i: int| 0 <= i < t.len() implies t[i] != ':' && t[i] != ';' by {
        if i == 0 {
        } else if i == 1 {
        } else if i == 2 {
        } else if i == 3 {
        } else if i == 4 {
        } else if i == 5 {
        } else if i == 6 {
        } else {
        }
    }
    assert(t.last() == 'd');
    lemma_trim_clean(t);
}

} // verus!
