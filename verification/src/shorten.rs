//! Turning a long URL into a short one: which URLs qualify, which are left
//! alone, which server a request goes to, what is sent and what counts as
//! an answer. The request itself is made by the caller; everything it is
//! built from and judged by is here.

use crate::common::{redact_secrets, redacted};
use crate::config::{is_complete, Config, ServerConfig, ServerView};
use crate::external::{
    compile_pattern, parse_url_parts, pattern_is_match, regex_matches, regex_rejection,
    since_unix_epoch, subsec_nanos, system_now, url_parsed, UrlParts,
};
use crate::text::{
    eq_ignore_ascii_case, has_prefix, is_blank, is_blank_text, same_ignoring_ascii_case,
    same_text, starts_with, trim, trimmed, views,
};
use vstd::prelude::*;

verus! {

/// Why a URL could not be shortened.
#[derive(Debug)]
pub enum ShortenError {
    /// The text is not an absolute `http(s)` URL.
    NotAUrl(String),
    /// The configured `blacklist_regex` is not a valid regular expression.
    BadBlacklist(String),
    /// No server is configured.
    NoServers,
    /// No server of the given name is configured.
    UnknownServer(String),
    /// The chosen server lacks its API URL or signature.
    IncompleteServer(String),
    /// The request did not complete.
    Request { server: String, detail: String },
    /// The server answered with something that is not a URL.
    NotAUrlInReply { server: String, reply: String },
    /// An id was asked for and the server answered with a short URL that
    /// does not end in it: the id is taken, or the URL already has another.
    IdNotGranted { server: String, id: String, reply: String },
}

/// The text of `e`, with `config_path` as the place servers are configured.
pub open spec fn error_message(e: ShortenError, config_path: Seq<char>) -> Seq<char> {
    match e {
        ShortenError::NotAUrl(t) => "not a URL: "@ + t@,
        ShortenError::BadBlacklist(d) => "blacklist_regex is not a valid regular expression: "@
            + d@,
        ShortenError::NoServers => "no YOURLS server is configured; add one to "@ + config_path,
        ShortenError::UnknownServer(n) => "no server named `"@ + n@ + "` is configured"@,
        ShortenError::IncompleteServer(n) => "server `"@ + n@
            + "` is missing its api_url or signature"@,
        ShortenError::Request { server, detail } => server@ + ": "@ + detail@,
        ShortenError::NotAUrlInReply { server, reply } => server@
            + " answered with something that is not a URL: "@ + reply@,
        ShortenError::IdNotGranted { server, id, reply } => server@ + " did not give the id `"@
            + id@ + "`: it answered "@ + reply@,
    }
}

fn join2(a: &str, b: &str) -> (r: String)
    ensures
        r@ == a@ + b@,
{
    let mut s = String::from_str(a);
    s.append(b);
    s
}

fn join3(a: &str, b: &str, c: &str) -> (r: String)
    ensures
        r@ == a@ + b@ + c@,
{
    let mut s = String::from_str(a);
    s.append(b);
    s.append(c);
    s
}

impl ShortenError {
    /// What went wrong, in words, naming `config_path` where servers are
    /// configured.
    pub fn message(&self, config_path: &str) -> (r: String)
        ensures
            r@ == error_message(*self, config_path@),
    {
        match self {
            ShortenError::NotAUrl(t) => join2("not a URL: ", t.as_str()),
            ShortenError::BadBlacklist(d) => join2(
                "blacklist_regex is not a valid regular expression: ",
                d.as_str(),
            ),
            ShortenError::NoServers => join2(
                "no YOURLS server is configured; add one to ",
                config_path,
            ),
            ShortenError::UnknownServer(n) => join3(
                "no server named `",
                n.as_str(),
                "` is configured",
            ),
            ShortenError::IncompleteServer(n) => join3(
                "server `",
                n.as_str(),
                "` is missing its api_url or signature",
            ),
            ShortenError::Request { server, detail } => join3(
                server.as_str(),
                ": ",
                detail.as_str(),
            ),
            ShortenError::NotAUrlInReply { server, reply } => join3(
                server.as_str(),
                " answered with something that is not a URL: ",
                reply.as_str(),
            ),
            ShortenError::IdNotGranted { server, id, reply } => {
                let mut s = join3(server.as_str(), " did not give the id `", id.as_str());
                s.append("`: it answered ");
                s.append(reply.as_str());
                s
            },
        }
    }
}

/// Whether `scheme` is one a shortener can reach.
pub open spec fn is_web_scheme(scheme: Seq<char>) -> bool {
    scheme == "http"@ || scheme == "https"@
}

/// Checks that `text` is a URL worth shortening: an absolute `http(s)` URL
/// once trimmed. Anything else, a local file path included, is
/// [`ShortenError::NotAUrl`] with the trimmed text.
pub fn parse_url(text: &str) -> (r: Result<UrlParts, ShortenError>)
    ensures
        match url_parsed(trimmed(text@)) {
            Some(u) if is_web_scheme(u.scheme) => r matches Ok(p) && p@ == u,
            _ => r matches Err(ShortenError::NotAUrl(t)) && t@ == trimmed(text@),
        },
{
    let t = trim(text);
    match parse_url_parts(t) {
        Some(u) => {
            if same_text(u.scheme.as_str(), "http") || same_text(u.scheme.as_str(), "https") {
                Ok(u)
            } else {
                Err(ShortenError::NotAUrl(String::from_str(t)))
            }
        },
        None => Err(ShortenError::NotAUrl(String::from_str(t))),
    }
}

/// Whether `url` is blacklisted by the expression `pattern` (as
/// configured, untrimmed): an empty pattern blacklists nothing, a pattern
/// that does not compile is an error with its message, else the expression
/// is searched for in the whole URL as serialized.
pub open spec fn blacklist_verdict(pattern: Seq<char>, url: Seq<char>) -> Result<bool, Seq<char>> {
    let p = trimmed(pattern);
    if p.len() == 0 {
        Ok(false)
    } else {
        match regex_rejection(p) {
            Some(m) => Err(m),
            None => Ok(regex_matches(p, url)),
        }
    }
}

/// Whether `url` is one the user asked never to shorten. A pattern that does
/// not compile is refused loudly with [`ShortenError::BadBlacklist`]: treating
/// it as "allow everything" would shorten exactly the links it protects.
pub fn is_blacklisted(url: &UrlParts, config: &Config) -> (r: Result<bool, ShortenError>)
    ensures
        match blacklist_verdict(config.blacklist_regex@, url.serialization@) {
            Ok(b) => r == Ok::<bool, ShortenError>(b),
            Err(m) => r matches Err(ShortenError::BadBlacklist(d)) && d@ == m,
        },
{
    let pattern = trim(config.blacklist_regex.as_str());
    if pattern.unicode_len() == 0 {
        return Ok(false);
    }
    match compile_pattern(pattern) {
        Ok(p) => Ok(pattern_is_match(&p, url.serialization.as_str())),
        Err(m) => Err(ShortenError::BadBlacklist(m)),
    }
}

/// The view of an optional string.
pub open spec fn opt_view(o: Option<&str>) -> Option<Seq<char>> {
    match o {
        Some(s) => Some(s@),
        None => None,
    }
}

/// The views of the configured servers.
pub open spec fn server_views(servers: Seq<ServerConfig>) -> Seq<ServerView> {
    servers.map_values(|s: ServerConfig| s@)
}

/// The server name a request asks for: `wanted`, unless it is absent or
/// `auto` (in any case), which defer to `selected`.
pub open spec fn requested_name(selected: Seq<char>, wanted: Option<Seq<char>>) -> Seq<char> {
    match wanted {
        None => selected,
        Some(w) => if same_ignoring_ascii_case(w, "auto"@) {
            selected
        } else {
            w
        },
    }
}

/// The index of the first server whose name is `name`, ignoring ASCII
/// case.
pub open spec fn first_named(servers: Seq<ServerView>, name: Seq<char>) -> Option<int>
    decreases servers.len(),
{
    if servers.len() == 0 {
        None
    } else if same_ignoring_ascii_case(servers[0].name, name) {
        Some(0)
    } else {
        match first_named(servers.drop_first(), name) {
            Some(i) => Some(i + 1),
            None => None,
        }
    }
}

/// How the choice of a server ends.
pub enum Pick {
    NoServers,
    Unknown(Seq<char>),
    Incomplete(Seq<char>),
    Chosen(int),
}

/// The server a request goes to, when the clock's sub-second nanoseconds
/// read `nanos`: none without servers; for `random` (in any case) the one at
/// `nanos` modulo their number; else the first with the requested name,
/// ignoring ASCII case. A chosen server without credentials is refused by
/// name.
pub open spec fn pick(servers: Seq<ServerView>, selected: Seq<char>, wanted: Option<Seq<char>>, nanos: u32) -> Pick {
    let name = requested_name(selected, wanted);
    if servers.len() == 0 {
        Pick::NoServers
    } else {
        let index = if same_ignoring_ascii_case(name, "random"@) {
            Some(nanos as int % servers.len() as int)
        } else {
            first_named(servers, name)
        };
        match index {
            None => Pick::Unknown(name),
            Some(i) => if is_complete(servers[i]) {
                Pick::Chosen(i)
            } else {
                Pick::Incomplete(servers[i].name)
            },
        }
    }
}

/// Whether `r` is what `p` says, for the servers `servers`.
pub open spec fn picked(r: Result<&ServerConfig, ShortenError>, p: Pick, servers: Seq<ServerConfig>) -> bool {
    match p {
        Pick::NoServers => r matches Err(ShortenError::NoServers),
        Pick::Unknown(n) => r matches Err(ShortenError::UnknownServer(m)) && m@ == n,
        Pick::Incomplete(n) => r matches Err(ShortenError::IncompleteServer(m)) && m@ == n,
        Pick::Chosen(i) => 0 <= i < servers.len() && (r matches Ok(s) && *s == servers[i]),
    }
}

proof fn lemma_first_named(servers: Seq<ServerView>, name: Seq<char>, i: int)
    requires
        0 <= i <= servers.len(),
        forall|j: int| 0 <= j < i ==> !same_ignoring_ascii_case(#[trigger] servers[j].name, name),
    ensures
        i < servers.len() && same_ignoring_ascii_case(servers[i].name, name) ==> first_named(servers, name) == Some(i),
        i == servers.len() ==> first_named(servers, name) is None,
    decreases i,
{
    if i > 0 {
        let rest = servers.drop_first();
        assert forall|j: int| 0 <= j < i - 1 implies !same_ignoring_ascii_case(#[trigger] rest[j].name, name) by {
            assert(rest[j] == servers[j + 1]);
        }
        lemma_first_named(rest, name, i - 1);
        assert(!same_ignoring_ascii_case(servers[0].name, name));
    }
}

proof fn lemma_first_named_range(servers: Seq<ServerView>, name: Seq<char>)
    ensures
        first_named(servers, name) matches Some(i) ==> 0 <= i < servers.len(),
    decreases servers.len(),
{
    if servers.len() > 0 {
        lemma_first_named_range(servers.drop_first(), name);
    }
}

/// The server a request goes to, with `nanos` standing for the clock
/// reading that spreads `random` choices; exactly as [`pick`] states it.
pub fn pick_server_at<'a>(config: &'a Config, wanted: Option<&str>, nanos: u32) -> (r: Result<&'a ServerConfig, ShortenError>)
    ensures
        picked(r, pick(server_views(config.servers@), config.selected_server@, opt_view(wanted), nanos), config.servers@),
{
    let ghost sv = server_views(config.servers@);
    let n = config.servers.len();
    if n == 0 {
        return Err(ShortenError::NoServers);
    }
    let selected: &str = match wanted {
        None => config.selected_server.as_str(),
        Some(w) => if eq_ignore_ascii_case(w, "auto") {
            config.selected_server.as_str()
        } else {
            w
        },
    };
    assert(selected@ == requested_name(config.selected_server@, opt_view(wanted)));
    let index: usize = if eq_ignore_ascii_case(selected, "random") {
        (nanos as usize) % n
    } else {
        let mut i: usize = 0;
        while i < n
            invariant
                i <= n,
                n == config.servers@.len(),
                sv == server_views(config.servers@),
                forall|j: int| 0 <= j < i ==> !same_ignoring_ascii_case(#[trigger] sv[j].name, selected@),
            ensures
                i <= n,
                forall|j: int| 0 <= j < i ==> !same_ignoring_ascii_case(#[trigger] sv[j].name, selected@),
                i < n ==> same_ignoring_ascii_case(sv[i as int].name, selected@),
            decreases n - i,
        {
            assert(sv[i as int] == config.servers@[i as int]@);
            if eq_ignore_ascii_case(config.servers[i].name.as_str(), selected) {
                break;
            }
            i = i + 1;
        }
        proof {
            lemma_first_named(sv, selected@, i as int);
        }
        if i == n {
            return Err(ShortenError::UnknownServer(String::from_str(selected)));
        }
        assert(first_named(sv, selected@) == Some(i as int));
        i
    };
    assert(Some(index as int) == (if same_ignoring_ascii_case(selected@, "random"@) {
        Some(nanos as int % sv.len() as int)
    } else {
        first_named(sv, selected@)
    }));
    let server = &config.servers[index];
    assert(sv[index as int] == server@);
    if is_blank_text(server.api_url.as_str()) || is_blank_text(server.signature.as_str()) {
        return Err(ShortenError::IncompleteServer(server.name.clone()));
    }
    Ok(server)
}

/// The server a request goes to. `wanted` overrides the config for this one
/// request: `None`, or `auto`, leaves the choice to `selected_server`, which
/// spreads links across every configured instance (by the clock) unless it
/// names one.
pub fn pick_server<'a>(config: &'a Config, wanted: Option<&str>) -> (r: Result<&'a ServerConfig, ShortenError>)
    ensures
        exists|nanos: u32|
            picked(r, #[trigger] pick(server_views(config.servers@), config.selected_server@, opt_view(wanted), nanos), config.servers@),
{
    let nanos: u32 = match since_unix_epoch(&system_now()) {
        Some(d) => subsec_nanos(&d),
        None => 0,
    };
    pick_server_at(config, wanted, nanos)
}

/// What came back from a request to a server.
pub enum HttpReply {
    /// The server answered, with this body, whatever the status.
    Answer(String),
    /// No answer could be read; the transport's own words.
    Failure(String),
}

/// Whether `t` is an absolute `http(s)` URL by its first characters.
pub open spec fn looks_like_url(t: Seq<char>) -> bool {
    has_prefix(t, "http://"@) || has_prefix(t, "https://"@)
}

/// What a shortening request on the server `server` ends in, given its
/// reply and the id asked for: a transport failure is an error with its
/// signatures redacted; an answer, trimmed, is the short URL when it is an
/// `http(s)` URL and, if an id was asked for, ends in that id.
pub open spec fn reply_accepted(server: Seq<char>, reply: HttpReply, id: Option<Seq<char>>, r: Result<String, ShortenError>) -> bool {
    match reply {
        HttpReply::Failure(d) => r matches Err(ShortenError::Request { server: s, detail })
            && s@ == server && detail@ == redacted(d@),
        HttpReply::Answer(b) => {
            let t = trimmed(b@);
            if !looks_like_url(t) {
                r matches Err(ShortenError::NotAUrlInReply { server: s, reply: x }) && s@ == server
                    && x@ == t
            } else {
                match id {
                    Some(i) => if crate::requests::slug_of(t) != i {
                        r matches Err(ShortenError::IdNotGranted { server: s, id: k, reply: x })
                            && s@ == server && k@ == i && x@ == t
                    } else {
                        r matches Ok(u) && u@ == t
                    },
                    None => r matches Ok(u) && u@ == t,
                }
            }
        },
    }
}

/// Judges the reply of the server `server` to a shortening request that
/// asked for the id `id`, if any.
///
/// A URL the server already knows comes back as an error status with the
/// existing short URL as the body, which is the answer the caller wanted; so
/// any answer counts, whatever its status. With an id, an answer that does
/// not end in it is refused rather than returned.
pub fn finish_shorten(server: &str, reply: HttpReply, id: Option<&str>) -> (r: Result<String, ShortenError>)
    ensures
        reply_accepted(server@, reply, opt_view(id), r),
        match (r, id) {
            (Ok(u), Some(i)) => crate::requests::slug_of(u@) == i@,
            _ => true,
        },
{
    match reply {
        HttpReply::Failure(d) => Err(ShortenError::Request {
            server: String::from_str(server),
            detail: redact_secrets(d.as_str()),
        }),
        HttpReply::Answer(b) => {
            let t = trim(b.as_str());
            if !(starts_with(t, "http://") || starts_with(t, "https://")) {
                return Err(ShortenError::NotAUrlInReply {
                    server: String::from_str(server),
                    reply: String::from_str(t),
                });
            }
            match id {
                Some(i) => {
                    let got = crate::requests::slug(t);
                    if !same_text(got.as_str(), i) {
                        return Err(ShortenError::IdNotGranted {
                            server: String::from_str(server),
                            id: String::from_str(i),
                            reply: String::from_str(t),
                        });
                    }
                    Ok(String::from_str(t))
                },
                None => Ok(String::from_str(t)),
            }
        },
    }
}

/// An answer that, trimmed, begins with `http://` or `https://` is the
/// short URL, trimmed, when no id was asked for; any other answer is
/// refused as not a URL, naming the server and the trimmed answer.
pub proof fn law_web_url_answer_is_the_short_url(server: Seq<char>, body: String, r: Result<String, ShortenError>)
    requires
        reply_accepted(server, HttpReply::Answer(body), None, r),
    ensures
        has_prefix(trimmed(body@), "http://"@) || has_prefix(trimmed(body@), "https://"@) ==> (r matches Ok(u)
            && u@ == trimmed(body@)),
        !(has_prefix(trimmed(body@), "http://"@) || has_prefix(trimmed(body@), "https://"@)) ==> (r matches Err(
            ShortenError::NotAUrlInReply { server: s, reply: x },
        ) && s@ == server && x@ == trimmed(body@)),
{
}

/// With an id asked for, a web URL answer is the short URL exactly when
/// its last path segment is that id; otherwise the id was not granted.
pub proof fn law_asked_id_must_be_granted(server: Seq<char>, body: String, id: Seq<char>, r: Result<String, ShortenError>)
    requires
        reply_accepted(server, HttpReply::Answer(body), Some(id), r),
        has_prefix(trimmed(body@), "http://"@) || has_prefix(trimmed(body@), "https://"@),
    ensures
        crate::requests::slug_of(trimmed(body@)) == id ==> (r matches Ok(u) && u@ == trimmed(body@)),
        crate::requests::slug_of(trimmed(body@)) != id ==> (r matches Err(ShortenError::IdNotGranted { id: k, .. })
            && k@ == id),
{
}

/// Asking for `auto`, in any case, is the same as asking for nothing: the
/// configuration's choice stands.
pub proof fn law_auto_defers_to_config(servers: Seq<ServerView>, selected: Seq<char>, w: Seq<char>, nanos: u32)
    requires
        same_ignoring_ascii_case(w, "auto"@),
    ensures
        pick(servers, selected, Some(w), nanos) == pick(servers, selected, None, nanos),
{
}

/// A random choice is always one of the configured servers: it never
/// reports an unknown name.
pub proof fn law_random_picks_a_configured_server(servers: Seq<ServerView>, selected: Seq<char>, wanted: Option<Seq<char>>, nanos: u32)
    requires
        servers.len() > 0,
        same_ignoring_ascii_case(requested_name(selected, wanted), "random"@),
    ensures
        pick(servers, selected, wanted, nanos) matches Pick::Chosen(i) ==> 0 <= i < servers.len(),
        !(pick(servers, selected, wanted, nanos) is Unknown),
        !(pick(servers, selected, wanted, nanos) is NoServers),
{
}

/// A random choice can fall on any configured server: for each of them
/// there is a clock reading that chooses it (or refuses it by name, when it
/// lacks credentials).
pub proof fn law_random_reaches_every_server(servers: Seq<ServerView>, selected: Seq<char>, wanted: Option<Seq<char>>, i: int)
    requires
        0 <= i < servers.len(),
        servers.len() <= u32::MAX,
        same_ignoring_ascii_case(requested_name(selected, wanted), "random"@),
    ensures
        pick(servers, selected, wanted, i as u32) == if is_complete(servers[i]) {
            Pick::Chosen(i)
        } else {
            Pick::Incomplete(servers[i].name)
        },
{
    assert((i as u32) as int == i);
    assert(i % (servers.len() as int) == i) by (nonlinear_arith)
        requires
            0 <= i < servers.len(),
    ;
}

/// A chosen server is always one that a request can be made to.
pub proof fn law_chosen_server_is_complete(servers: Seq<ServerView>, selected: Seq<char>, wanted: Option<Seq<char>>, nanos: u32)
    ensures
        pick(servers, selected, wanted, nanos) matches Pick::Chosen(i) ==> 0 <= i < servers.len()
            && is_complete(servers[i]),
{
    let name = requested_name(selected, wanted);
    lemma_first_named_range(servers, name);
}

proof fn lemma_case_blind_transitive(a: Seq<char>, b: Seq<char>, c: Seq<char>)
    requires
        same_ignoring_ascii_case(a, b),
    ensures
        same_ignoring_ascii_case(a, c) == same_ignoring_ascii_case(b, c),
{
    if same_ignoring_ascii_case(a, c) {
        assert forall|i: int| 0 <= i < b.len() implies #[trigger] crate::text::folded(b[i]) == crate::text::folded(c[i]) by {
            assert(crate::text::folded(a[i]) == crate::text::folded(b[i]));
        }
    }
    if same_ignoring_ascii_case(b, c) {
        assert forall|i: int| 0 <= i < a.len() implies #[trigger] crate::text::folded(a[i]) == crate::text::folded(c[i]) by {
            assert(crate::text::folded(a[i]) == crate::text::folded(b[i]));
        }
    }
}

proof fn lemma_first_named_case_blind(servers: Seq<ServerView>, a: Seq<char>, b: Seq<char>)
    requires
        same_ignoring_ascii_case(a, b),
    ensures
        first_named(servers, a) == first_named(servers, b),
    decreases servers.len(),
{
    if servers.len() > 0 {
        lemma_case_blind_transitive(a, b, servers[0].name);
        assert(same_ignoring_ascii_case(servers[0].name, a) == same_ignoring_ascii_case(a, servers[0].name)) by {
            assert(forall|i: int| 0 <= i < a.len() && a.len() == servers[0].name.len() ==> (crate::text::folded(a[i]) == crate::text::folded(servers[0].name[i]) <==> crate::text::folded(servers[0].name[i]) == crate::text::folded(a[i])));
        }
        assert(same_ignoring_ascii_case(servers[0].name, b) == same_ignoring_ascii_case(b, servers[0].name)) by {
            assert(forall|i: int| 0 <= i < b.len() && b.len() == servers[0].name.len() ==> (crate::text::folded(b[i]) == crate::text::folded(servers[0].name[i]) <==> crate::text::folded(servers[0].name[i]) == crate::text::folded(b[i])));
        }
        lemma_first_named_case_blind(servers.drop_first(), a, b);
    }
}

/// Server names are matched without regard to ASCII case: asking for a name
/// in another case chooses the same server.
pub proof fn law_server_names_ignore_case(servers: Seq<ServerView>, selected: Seq<char>, a: Seq<char>, b: Seq<char>, nanos: u32)
    requires
        same_ignoring_ascii_case(a, b),
    ensures
        pick(servers, selected, Some(a), nanos) matches Pick::Chosen(i) ==> pick(servers, selected, Some(b), nanos) == Pick::Chosen(i),
{
    lemma_case_blind_transitive(a, b, "auto"@);
    lemma_case_blind_transitive(a, b, "random"@);
    lemma_first_named_case_blind(servers, a, b);
}

/// An empty (or blank) blacklist blacklists nothing.
pub proof fn law_blank_blacklist_allows_everything(pattern: Seq<char>, url: Seq<char>)
    requires
        is_blank(pattern),
    ensures
        blacklist_verdict(pattern, url) == Ok::<bool, Seq<char>>(false),
{
}

} // verus!
