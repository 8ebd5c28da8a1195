//! What the whole program shares: the redaction of API signatures from any
//! text that leaves it, and the choice of the log file's name.

use crate::external::{compile_pattern, pattern_replace_all, regex_rejection, regex_replaced};
use crate::text::contains_char;
use vstd::prelude::*;

verus! {

/// The expression that finds an API signature in a query string: the
/// parameter name, in any case, and its value up to `&` or white space.
pub open spec fn signature_pattern() -> Seq<char> {
    "(?i)(signature=)[^&\\s]+"@
}

/// What a found signature is replaced with: the parameter name as it was
/// written, then `<redacted>`.
pub open spec fn signature_replacement() -> Seq<char> {
    "${1}<redacted>"@
}

/// `text` with every API signature replaced by a placeholder. Should the
/// expression ever fail to compile, nothing of `text` is let through.
pub open spec fn redacted(text: Seq<char>) -> Seq<char> {
    if regex_rejection(signature_pattern()) is None {
        regex_replaced(signature_pattern(), text, signature_replacement())
    } else {
        "<redacted>"@
    }
}

/// Replaces API signatures in `text` with a placeholder.
///
/// A YOURLS signature is a credential and it travels in the query string,
/// so any URL that reaches a log file, an error message or a terminal
/// carries it in the clear.
pub fn redact_secrets(text: &str) -> (r: String)
    ensures
        r@ == redacted(text@),
{
    match compile_pattern("(?i)(signature=)[^&\\s]+") {
        Ok(p) => pattern_replace_all(&p, text, "${1}<redacted>"),
        Err(_) => String::from_str("<redacted>"),
    }
}

/// The name of the log file: the configured one, else the default.
pub open spec fn log_name(configured: Option<Seq<char>>) -> Seq<char> {
    match configured {
        Some(n) => n,
        None => "yourls-tray-app.log"@,
    }
}

/// The log file's name and whether it holds `%` date fields to fill in.
pub fn log_file_name(configured: Option<&str>) -> (r: (String, bool))
    ensures
        r.0@ == log_name(match configured {
            Some(n) => Some(n@),
            None => None,
        }),
        r.1 == r.0@.contains('%'),
{
    let name = match configured {
        Some(n) => String::from_str(n),
        None => String::from_str("yourls-tray-app.log"),
    };
    let dated = contains_char(name.as_str(), '%');
    (name, dated)
}

} // verus!
