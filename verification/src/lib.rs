//! Configuration logic of a chat bot front end: module switches, the
//! profanity filter's word list, the stored application token, and the
//! start-up decisions of the bot thread.

pub mod bot;
pub mod codegen;
pub mod configuration;
pub mod module_status;
pub mod profanity_filter;
pub mod text;
