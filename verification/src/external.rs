//! The calls this library makes into the `url`, `regex` and `serde_json`
//! crates and into the system clock. Each item here is trusted: its contract is believed, not
//! proved, and says no more than the called code's source and documentation
//! show.

use std::time::{Duration, SystemTime, UNIX_EPOCH};
use crate::text::{opt_string_view, views};
use vstd::prelude::*;

verus! {

/// What the library reads of a parsed URL.
#[derive(Debug)]
pub struct UrlParts {
    /// The whole URL as the `url` crate serializes it.
    pub serialization: String,
    /// The scheme, lower-cased, without the `:`.
    pub scheme: String,
    /// The path, percent-encoded.
    pub path: String,
    /// The host when it is a domain name (not an IP address).
    pub domain: Option<String>,
}

/// The plain values of a [`UrlParts`].
pub struct UrlPartsView {
    pub serialization: Seq<char>,
    pub scheme: Seq<char>,
    pub path: Seq<char>,
    pub domain: Option<Seq<char>>,
}

impl View for UrlParts {
    type V = UrlPartsView;

    open spec fn view(&self) -> UrlPartsView {
        UrlPartsView {
            serialization: self.serialization@,
            scheme: self.scheme@,
            path: self.path@,
            domain: match self.domain {
                Some(d) => Some(d@),
                None => None,
            },
        }
    }
}

/// The parts of the URL that `url::Url::parse` reads from `text`, or `None`
/// where it refuses `text`.
pub uninterp spec fn url_parsed(text: Seq<char>) -> Option<UrlPartsView>;

/// The parts of the URL that `url::Url::parse` reads from `serialization`
/// after `url::Url::set_path(path)`, or `None` where the parse fails.
pub uninterp spec fn url_path_set(serialization: Seq<char>, path: Seq<char>) -> Option<UrlPartsView>;

/// The parts of the URL that `url::Url::parse` reads from `serialization`
/// after `url::Url::set_query(None)`, or `None` where the parse fails.
pub uninterp spec fn url_query_cleared(serialization: Seq<char>) -> Option<UrlPartsView>;

/// The parts of the URL that `url::Url::parse` reads from `serialization`
/// after `url::Url::set_fragment(None)`, or `None` where the parse fails.
pub uninterp spec fn url_fragment_cleared(serialization: Seq<char>) -> Option<UrlPartsView>;

/// Whether `r` holds what `expected` names.
pub open spec fn parts_match(r: Option<UrlParts>, expected: Option<UrlPartsView>) -> bool {
    match r {
        Some(u) => expected == Some(u@),
        None => expected is None,
    }
}

/// Calls `url::Url::parse(text)` and reads the parts of the result. The
/// contract names the result; what `url` accepts is not restated.
#[verifier::external_body]
pub(crate) fn parse_url_parts(text: &str) -> (r: Option<UrlParts>)
    ensures
        parts_match(r, url_parsed(text@)),
{
    match url::Url::parse(text) {
        Ok(u) => Some(UrlParts {
            serialization: u.as_str().to_string(),
            scheme: u.scheme().to_string(),
            path: u.path().to_string(),
            domain: u.domain().map(String::from),
        }),
        Err(_) => None,
    }
}

/// Parses `serialization` and calls `url::Url::set_path(path)` on it; the
/// result is named, not restated.
#[verifier::external_body]
pub(crate) fn with_path(serialization: &str, path: &str) -> (r: Option<UrlParts>)
    ensures
        parts_match(r, url_path_set(serialization@, path@)),
{
    let Ok(mut u) = url::Url::parse(serialization) else { return None };
    u.set_path(path);
    Some(UrlParts {
        serialization: u.as_str().to_string(),
        scheme: u.scheme().to_string(),
        path: u.path().to_string(),
        domain: u.domain().map(String::from),
    })
}

/// Parses `serialization` and calls `url::Url::set_query(None)` on it; the
/// result is named, not restated.
#[verifier::external_body]
pub(crate) fn without_query(serialization: &str) -> (r: Option<UrlParts>)
    ensures
        parts_match(r, url_query_cleared(serialization@)),
{
    let Ok(mut u) = url::Url::parse(serialization) else { return None };
    u.set_query(None);
    Some(UrlParts {
        serialization: u.as_str().to_string(),
        scheme: u.scheme().to_string(),
        path: u.path().to_string(),
        domain: u.domain().map(String::from),
    })
}

/// Parses `serialization` and calls `url::Url::set_fragment(None)` on it;
/// the result is named, not restated.
#[verifier::external_body]
pub(crate) fn without_fragment(serialization: &str) -> (r: Option<UrlParts>)
    ensures
        parts_match(r, url_fragment_cleared(serialization@)),
{
    let Ok(mut u) = url::Url::parse(serialization) else { return None };
    u.set_fragment(None);
    Some(UrlParts {
        serialization: u.as_str().to_string(),
        scheme: u.scheme().to_string(),
        path: u.path().to_string(),
        domain: u.domain().map(String::from),
    })
}

/// Whether `form_urlencoded` passes byte `b` through unchanged.
pub open spec fn form_safe(b: u8) -> bool {
    ||| b == 42 || b == 45 || b == 46 || b == 95
    ||| 48 <= b <= 57
    ||| 65 <= b <= 90
    ||| 97 <= b <= 122
}

/// The upper-case hexadecimal digit for `v`.
pub open spec fn hex_digit(v: u8) -> char {
    if v < 10 {
        (48 + v) as char
    } else {
        (55 + v) as char
    }
}

/// What `application/x-www-form-urlencoded` makes of one byte: itself when
/// safe, `+` for a space, else `%` and two upper-case hexadecimal digits.
pub open spec fn form_encoded_byte(b: u8) -> Seq<char> {
    if form_safe(b) {
        seq![b as char]
    } else if b == 32 {
        seq!['+']
    } else {
        seq!['%', hex_digit(b / 16), hex_digit(b % 16)]
    }
}

/// The form encoding of `bytes`, byte by byte.
pub open spec fn form_encoded(bytes: Seq<u8>) -> Seq<char>
    decreases bytes.len(),
{
    if bytes.len() == 0 {
        Seq::empty()
    } else {
        form_encoded_byte(bytes[0]) + form_encoded(bytes.drop_first())
    }
}

/// Calls `url::form_urlencoded::byte_serialize` on the UTF-8 bytes of
/// `text` and collects the pieces: each byte in `*-._`, `0-9`, `A-Z`, `a-z`
/// stays, a space becomes `+`, any other byte becomes `%XX`.
#[verifier::external_body]
pub(crate) fn form_urlencode(text: &str) -> (r: String)
    ensures
        r@ == form_encoded(vstd::utf8::encode_utf8(text@)),
{
    url::form_urlencoded::byte_serialize(text.as_bytes()).collect()
}

#[verifier::external_type_specification]
#[verifier::external_body]
pub struct ExRegex(regex::Regex);

/// A regular expression compiled from its source text.
pub struct Pattern {
    source: String,
    compiled: regex::Regex,
}

impl Pattern {
    /// The text the expression was compiled from.
    pub closed spec fn source(&self) -> Seq<char> {
        self.source@
    }
}

/// The message of the error `regex::Regex::new` gives for `pattern`, or
/// `None` where it compiles.
pub uninterp spec fn regex_rejection(pattern: Seq<char>) -> Option<Seq<char>>;

/// Whether `regex::Regex::is_match` finds `pattern` anywhere in `text`.
pub uninterp spec fn regex_matches(pattern: Seq<char>, text: Seq<char>) -> bool;

/// What `regex::Regex::replace_all` makes of `text` with `replacement`
/// expanded at every non-overlapping match of `pattern`.
pub uninterp spec fn regex_replaced(
    pattern: Seq<char>,
    text: Seq<char>,
    replacement: Seq<char>,
) -> Seq<char>;

/// Calls `regex::Regex::new(pattern)`: the compiled expression, or the
/// error's message. Which patterns compile is named, not restated.
#[verifier::external_body]
pub(crate) fn compile_pattern(pattern: &str) -> (r: Result<Pattern, String>)
    ensures
        match r {
            Ok(p) => p.source() == pattern@ && regex_rejection(pattern@) is None,
            Err(m) => regex_rejection(pattern@) == Some(m@),
        },
{
    match regex::Regex::new(pattern) {
        Ok(compiled) => Ok(Pattern { source: pattern.to_string(), compiled }),
        Err(e) => Err(e.to_string()),
    }
}

/// Calls `regex::Regex::is_match` with the expression compiled from
/// `p.source()`.
#[verifier::external_body]
pub(crate) fn pattern_is_match(p: &Pattern, text: &str) -> (r: bool)
    ensures
        r == regex_matches(p.source(), text@),
{
    p.compiled.is_match(text)
}

/// Calls `regex::Regex::replace_all` with the expression compiled from
/// `p.source()`.
#[verifier::external_body]
pub(crate) fn pattern_replace_all(p: &Pattern, text: &str, replacement: &str) -> (r: String)
    ensures
        r@ == regex_replaced(p.source(), text@, replacement@),
{
    p.compiled.replace_all(text, replacement).into_owned()
}

/// The string that `serde_json` finds in the JSON document `text` at the
/// JSON pointer `pointer` (`Value::pointer`, then `Value::as_str`): `None`
/// where `text` is not JSON, nothing is at `pointer`, or what is there is
/// not a string.
pub uninterp spec fn json_str_at(text: Seq<char>, pointer: Seq<char>) -> Option<Seq<char>>;

/// The keys of the object that `serde_json` finds in the JSON document
/// `text` at the JSON pointer `pointer` (`Value::pointer`, then
/// `Value::as_object`), in the order its map yields them: `None` where
/// `text` is not JSON, nothing is at `pointer`, or what is there is not an
/// object.
pub uninterp spec fn json_keys_at(text: Seq<char>, pointer: Seq<char>) -> Option<Seq<Seq<char>>>;

/// Calls `serde_json::from_str::<Value>(text)` and reads the string at
/// `pointer`; the result is named, not restated.
#[verifier::external_body]
pub(crate) fn json_string_at(text: &str, pointer: &str) -> (r: Option<String>)
    ensures
        opt_string_view(r) == json_str_at(text@, pointer@),
{
    serde_json::from_str::<serde_json::Value>(text)
        .ok()
        .and_then(|v| v.pointer(pointer).and_then(serde_json::Value::as_str).map(String::from))
}

/// Calls `serde_json::from_str::<Value>(text)` and lists the keys of the
/// object at `pointer`; the result is named, not restated.
#[verifier::external_body]
pub(crate) fn json_object_keys_at(text: &str, pointer: &str) -> (r: Option<Vec<String>>)
    ensures
        match r {
            Some(keys) => json_keys_at(text@, pointer@) == Some(views(keys@)),
            None => json_keys_at(text@, pointer@) is None,
        },
{
    serde_json::from_str::<serde_json::Value>(text)
        .ok()
        .and_then(|v| v.pointer(pointer).and_then(serde_json::Value::as_object).map(|m| m.keys().cloned().collect()))
}

#[verifier::external_type_specification]
#[verifier::external_body]
pub struct ExSystemTime(SystemTime);

/// Calls `std::time::SystemTime::now`. Nothing is promised of the time.
#[verifier::external_body]
pub(crate) fn system_now() -> SystemTime {
    SystemTime::now()
}

/// Calls `SystemTime::duration_since(UNIX_EPOCH)`: `None` for a time before
/// the epoch. Nothing else is promised.
#[verifier::external_body]
pub(crate) fn since_unix_epoch(t: &SystemTime) -> Option<Duration> {
    t.duration_since(UNIX_EPOCH).ok()
}

/// Calls `Duration::subsec_nanos`, which the documentation says is always
/// less than one billion.
#[verifier::external_body]
pub(crate) fn subsec_nanos(d: &Duration) -> (r: u32)
    ensures
        r < 1_000_000_000,
{
    d.subsec_nanos()
}

} // verus!
