//! The configuration: one entry per YOURLS instance and the switches of the
//! clipboard tray, with the defaults a missing field takes, and the
//! completion that fills in whichever of a server's URLs and name is left
//! out.

use crate::external::{
    parse_url_parts, url_fragment_cleared, url_parsed, url_path_set, url_query_cleared,
    with_path, without_fragment, without_query, UrlPartsView,
};
use crate::text::{
    is_blank, is_blank_text, trim_end_char, trim_end_matches_char, has_prefix, has_suffix,
    starts_with, ends_with, same_text, skip_chars, take_chars,
};
use vstd::prelude::*;

verus! {

/// One YOURLS instance.
#[derive(Clone, Debug, Default)]
pub struct ServerConfig {
    /// The name shown in the menu and accepted by `--server`.
    pub name: String,
    /// Where the short links live, such as `https://sho.rt/`.
    pub base_url: String,
    /// The API endpoint, such as `https://sho.rt/yourls-api.php`.
    pub api_url: String,
    /// The API signature token.
    pub signature: String,
}

/// The plain values of a [`ServerConfig`].
pub struct ServerView {
    pub name: Seq<char>,
    pub base_url: Seq<char>,
    pub api_url: Seq<char>,
    pub signature: Seq<char>,
}

impl View for ServerConfig {
    type V = ServerView;

    open spec fn view(&self) -> ServerView {
        ServerView {
            name: self.name@,
            base_url: self.base_url@,
            api_url: self.api_url@,
            signature: self.signature@,
        }
    }
}

/// Whether a request can be made to this server: it has an API URL and a
/// signature that are not blank.
pub open spec fn is_complete(s: ServerView) -> bool {
    !is_blank(s.api_url) && !is_blank(s.signature)
}

/// The whole configuration.
#[derive(Clone, Debug)]
pub struct Config {
    /// Whether the tray starts with monitoring on.
    pub enabled: bool,
    /// URLs matching this regular expression are never shortened.
    pub blacklist_regex: String,
    /// Copying the same URL twice in a row leaves the second copy alone.
    pub bypass_double_copy: bool,
    /// Holding Shift while copying leaves that copy alone.
    pub bypass_shift_key: bool,
    /// Scroll Lock pauses all shortening.
    pub bypass_scroll_lock: bool,
    /// Ctrl+Backspace puts the last long URL back on the clipboard.
    pub enable_undo: bool,
    /// The configured instances.
    pub servers: Vec<ServerConfig>,
    /// The instance to use, or `Random`.
    pub selected_server: String,
    /// Mirror every new short link to all the other instances.
    pub shorten_on_all: bool,
    /// The interface language, or `auto`.
    pub locale: String,
    /// The log file's name; `%` tokens are date fields.
    pub log_file_name: String,
    /// Check for a new release at startup.
    pub check_update_on_startup: bool,
    /// Accept invalid TLS certificates and host names.
    pub ignore_ssl_errors: bool,
}

/// The value a missing switch that defaults to on takes.
pub fn default_true() -> (b: bool)
    ensures
        b,
{
    true
}

/// The server choice a missing `selected_server` takes.
pub fn default_selected_server() -> (s: String)
    ensures
        s@ == "Random"@,
{
    String::from_str("Random")
}

/// The locale a missing `locale` takes.
pub fn default_locale() -> (s: String)
    ensures
        s@ == "auto"@,
{
    String::from_str("auto")
}

/// The log file name a missing `log_file_name` takes.
pub fn default_log_file_name() -> (s: String)
    ensures
        s@ == "yourls-tray-app.log"@,
{
    String::from_str("yourls-tray-app.log")
}

/// Whether `c` is the configuration a fresh install starts with.
pub open spec fn is_default_config(c: Config) -> bool {
    &&& c.enabled
    &&& c.blacklist_regex@ == Seq::<char>::empty()
    &&& c.bypass_double_copy
    &&& c.bypass_shift_key
    &&& c.bypass_scroll_lock
    &&& c.enable_undo
    &&& c.servers@.len() == 0
    &&& c.selected_server@ == "Random"@
    &&& !c.shorten_on_all
    &&& c.locale@ == "auto"@
    &&& c.log_file_name@ == "yourls-tray-app.log"@
    &&& !c.check_update_on_startup
    &&& !c.ignore_ssl_errors
}

impl Default for Config {
    fn default() -> (c: Self)
        ensures
            is_default_config(c),
    {
        Config {
            enabled: default_true(),
            blacklist_regex: String::new(),
            bypass_double_copy: default_true(),
            bypass_shift_key: default_true(),
            bypass_scroll_lock: default_true(),
            enable_undo: default_true(),
            servers: Vec::new(),
            selected_server: default_selected_server(),
            shorten_on_all: false,
            locale: default_locale(),
            log_file_name: default_log_file_name(),
            check_update_on_startup: false,
            ignore_ssl_errors: false,
        }
    }
}

/// The file name of the YOURLS API endpoint.
pub open spec fn api_file() -> Seq<char> {
    "yourls-api.php"@
}

/// The path a base URL gets from its API URL's path: the path segments
/// without a last segment `yourls-api.php`, joined again and ending in `/`;
/// `/` for a URL without path segments.
pub open spec fn base_path_for(api_path: Seq<char>) -> Seq<char> {
    if has_prefix(api_path, "/"@) {
        let rest = api_path.drop_first();
        let kept = if rest == api_file() {
            Seq::<char>::empty()
        } else if has_suffix(rest, "/"@ + api_file()) {
            rest.take(rest.len() - api_file().len() - 1)
        } else {
            rest
        };
        if kept.len() == 0 {
            "/"@
        } else {
            kept + "/"@
        }
    } else {
        "/"@
    }
}

/// The path an API URL gets from its base URL's path.
pub open spec fn api_path_for(base_path: Seq<char>) -> Seq<char> {
    trim_end_char(base_path, '/') + "/"@ + api_file()
}

/// The serialization of `u` with its path set to `path` and its query and
/// fragment removed, or `None` where a step fails.
pub open spec fn rebuilt(u: UrlPartsView, path: Seq<char>) -> Option<Seq<char>> {
    match url_path_set(u.serialization, path) {
        Some(a) => match url_query_cleared(a.serialization) {
            Some(b) => match url_fragment_cleared(b.serialization) {
                Some(c) => Some(c.serialization),
                None => None,
            },
            None => None,
        },
        None => None,
    }
}

/// The base URL that an API URL implies, or `None` where it does not parse.
pub open spec fn inferred_base(api_url: Seq<char>) -> Option<Seq<char>> {
    match url_parsed(api_url) {
        Some(u) => rebuilt(u, base_path_for(u.path)),
        None => None,
    }
}

/// The API URL that a base URL implies, or `None` where it does not parse.
pub open spec fn inferred_api(base_url: Seq<char>) -> Option<Seq<char>> {
    match url_parsed(base_url) {
        Some(u) => rebuilt(u, api_path_for(u.path)),
        None => None,
    }
}

/// The name a server gets from `url`: its domain, or `Unknown`.
pub open spec fn inferred_name(url: Seq<char>) -> Seq<char> {
    match url_parsed(url) {
        Some(u) => match u.domain {
            Some(d) => d,
            None => "Unknown"@,
        },
        None => "Unknown"@,
    }
}

/// A server entry with whatever was left out inferred: the base URL from
/// the API URL or the API URL from the base URL when only one is given, and
/// a blank name from the domain of the (completed) base URL, else of the API
/// URL.
pub open spec fn completed(s: ServerView) -> ServerView {
    let base = if is_blank(s.base_url) && !is_blank(s.api_url) {
        match inferred_base(s.api_url) {
            Some(b) => b,
            None => s.base_url,
        }
    } else {
        s.base_url
    };
    let api = if !(is_blank(s.base_url) && !is_blank(s.api_url)) && is_blank(s.api_url)
        && !is_blank(s.base_url) {
        match inferred_api(s.base_url) {
            Some(a) => a,
            None => s.api_url,
        }
    } else {
        s.api_url
    };
    let name = if is_blank(s.name) {
        inferred_name(if !is_blank(base) { base } else { api })
    } else {
        s.name
    };
    ServerView { name, base_url: base, api_url: api, signature: s.signature }
}

/// The serialization of `u` with its path set to `path` and its query and
/// fragment removed.
fn rebuild(u: &crate::external::UrlParts, path: &str) -> (r: Option<String>)
    ensures
        r matches Some(v) ==> rebuilt(u@, path@) == Some(v@),
        r is None ==> rebuilt(u@, path@) is None,
{
    let a = with_path(u.serialization.as_str(), path);
    let a = match a {
        Some(a) => a,
        None => return None,
    };
    let b = match without_query(a.serialization.as_str()) {
        Some(b) => b,
        None => return None,
    };
    match without_fragment(b.serialization.as_str()) {
        Some(c) => Some(c.serialization),
        None => None,
    }
}

fn base_path(api_path: &str) -> (r: String)
    ensures
        r@ == base_path_for(api_path@),
{
    proof {
        reveal_strlit("/");
    }
    if !starts_with(api_path, "/") {
        return String::from_str("/");
    }
    let rest = skip_chars(api_path, 1);
    let kept: &str = if same_text(rest, "yourls-api.php") {
        ""
    } else if ends_with(rest, "/yourls-api.php") {
        proof {
            reveal_strlit("/yourls-api.php");
            reveal_strlit("yourls-api.php");
            reveal_strlit("/");
            assert("/"@ + api_file() =~= "/yourls-api.php"@);
        }
        take_chars(rest, rest.unicode_len() - 15)
    } else {
        rest
    };
    proof {
        reveal_strlit("/yourls-api.php");
        reveal_strlit("yourls-api.php");
        reveal_strlit("/");
        reveal_strlit("");
        assert("/"@ + api_file() =~= "/yourls-api.php"@);
    }
    if kept.unicode_len() == 0 {
        String::from_str("/")
    } else {
        let mut p = String::from_str(kept);
        p.append("/");
        p
    }
}

/// Fills in what `server` leaves out, as [`completed`] states it.
pub fn complete_server(server: &mut ServerConfig)
    ensures
        final(server)@ == completed(old(server)@),
{
    let ghost s0 = server@;
    let infer_base = is_blank_text(server.base_url.as_str()) && !is_blank_text(
        server.api_url.as_str(),
    );
    if infer_base {
        if let Some(u) = parse_url_parts(server.api_url.as_str()) {
            let p = base_path(u.path.as_str());
            if let Some(b) = rebuild(&u, p.as_str()) {
                server.base_url = b;
            }
        }
    } else if is_blank_text(server.api_url.as_str()) && !is_blank_text(server.base_url.as_str()) {
        if let Some(u) = parse_url_parts(server.base_url.as_str()) {
            let mut p = String::from_str(trim_end_matches_char(u.path.as_str(), '/'));
            p.append("/yourls-api.php");
            proof {
                reveal_strlit("/yourls-api.php");
                reveal_strlit("yourls-api.php");
                reveal_strlit("/");
                assert("/"@ + api_file() =~= "/yourls-api.php"@);
                assert(p@ =~= api_path_for(u@.path));
            }
            if let Some(a) = rebuild(&u, p.as_str()) {
                server.api_url = a;
            }
        }
    }
    let ghost c = completed(s0);
    assert(server.base_url@ == c.base_url);
    assert(server.api_url@ == c.api_url);
    if is_blank_text(server.name.as_str()) {
        let target: &str = if !is_blank_text(server.base_url.as_str()) {
            server.base_url.as_str()
        } else {
            server.api_url.as_str()
        };
        let name = match parse_url_parts(target) {
            Some(u) => match u.domain {
                Some(d) => d,
                None => String::from_str("Unknown"),
            },
            None => String::from_str("Unknown"),
        };
        assert(name@ == inferred_name(target@));
        server.name = name;
    }
}

/// Completes every server entry of `config` and leaves the rest alone.
pub fn complete_servers(config: &mut Config)
    ensures
        final(config).servers@.len() == old(config).servers@.len(),
        forall|i: int|
            0 <= i < old(config).servers@.len() ==> #[trigger] final(config).servers@[i]@
                == completed(old(config).servers@[i]@),
        *final(config) == (Config { servers: final(config).servers, ..*old(config) }),
{
    let n = config.servers.len();
    let mut i: usize = 0;
    while i < n
        invariant
            i <= n,
            n == old(config).servers@.len(),
            config.servers@.len() == n,
            forall|j: int| 0 <= j < i ==> #[trigger] config.servers@[j]@ == completed(old(config).servers@[j]@),
            forall|j: int| i <= j < n ==> #[trigger] config.servers@[j] == old(config).servers@[j],
            *config == (Config { servers: config.servers, ..*old(config) }),
        decreases n - i,
    {
        complete_server(&mut config.servers[i]);
        i = i + 1;
    }
}

} // verus!
