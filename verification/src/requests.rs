//! The YOURLS API calls the program makes: one URL per call, with the
//! server's signature and the action's parameters in the query string.

use crate::config::{is_complete, ServerConfig, ServerView};
use crate::external::{form_encoded, form_urlencode, UrlParts};
use crate::shorten::server_views;
use crate::text::{
    is_blank_text, lemma_split_on_nonempty, same_text, split_char, split_on, trim_end_char,
    trim_end_matches_char, views,
};
use vstd::prelude::*;

verus! {

/// One call to a server's API.
#[derive(Debug)]
pub struct ApiRequest {
    /// The name of the server it goes to.
    pub server: String,
    /// The whole request URL, signature included.
    pub url: String,
}

/// The name and URL of each request.
pub open spec fn request_views(v: Seq<ApiRequest>) -> Seq<(Seq<char>, Seq<char>)> {
    v.map_values(|r: ApiRequest| (r.server@, r.url@))
}

/// The request URL for `server` with `query` after its signature.
pub open spec fn api_call(server: ServerView, query: Seq<char>) -> Seq<char> {
    server.api_url + "?signature="@ + server.signature + query
}

/// Whether a batch of requests goes to `server`: it is complete, and it is
/// not the one named `skip`.
pub open spec fn takes_part(server: ServerView, skip: Option<Seq<char>>) -> bool {
    is_complete(server) && match skip {
        Some(n) => server.name != n,
        None => true,
    }
}

/// One request with `query` to every server that takes part, in the
/// configured order.
pub open spec fn batch(servers: Seq<ServerView>, skip: Option<Seq<char>>, query: Seq<char>) -> Seq<(Seq<char>, Seq<char>)> {
    servers.filter(|s: ServerView| takes_part(s, skip)).map_values(
        |s: ServerView| (s.name, api_call(s, query)),
    )
}

fn call_url(server: &ServerConfig, query: &str) -> (r: String)
    ensures
        r@ == api_call(server@, query@),
{
    let mut u = String::from_str(server.api_url.as_str());
    u.append("?signature=");
    u.append(server.signature.as_str());
    u.append(query);
    u
}

/// A request with `query` to each complete server other than the one named
/// `skip`.
pub fn server_requests(servers: &Vec<ServerConfig>, skip: Option<&str>, query: &str) -> (r: Vec<ApiRequest>)
    ensures
        request_views(r@) == batch(
            server_views(servers@),
            match skip {
                Some(n) => Some(n@),
                None => None,
            },
            query@,
        ),
{
    let ghost sk = match skip {
        Some(n) => Some(n@),
        None => None,
    };
    let ghost sv = server_views(servers@);
    let ghost pred = |s: ServerView| takes_part(s, sk);
    let ghost f = |s: ServerView| (s.name, api_call(s, query@));
    let mut out: Vec<ApiRequest> = Vec::new();
    let n = servers.len();
    let mut i: usize = 0;
    assert(sv.take(0).filter(pred) =~= Seq::<ServerView>::empty()) by {
        reveal_with_fuel(Seq::<_>::filter, 1);
    }
    while i < n
        invariant
            i <= n,
            n == servers@.len(),
            sv == server_views(servers@),
            pred == (|s: ServerView| takes_part(s, sk)),
            f == (|s: ServerView| (s.name, api_call(s, query@))),
            sk == match skip {
                Some(n) => Some(n@),
                None => None::<Seq<char>>,
            },
            request_views(out@) =~= sv.take(i as int).filter(pred).map_values(f),
        decreases n - i,
    {
        let s = &servers[i];
        assert(sv[i as int] == s@);
        assert(sv.take(i + 1).drop_last() =~= sv.take(i as int));
        assert(sv.take(i + 1).last() == s@);
        reveal_with_fuel(Seq::<_>::filter, 1);
        let skipped = match skip {
            Some(name) => same_text(s.name.as_str(), name),
            None => false,
        };
        if !is_blank_text(s.api_url.as_str()) && !is_blank_text(s.signature.as_str()) && !skipped {
            assert(pred(s@));
            let url = call_url(s, query);
            let ghost before = out@;
            out.push(ApiRequest { server: s.name.clone(), url });
            assert(sv.take(i + 1).filter(pred) == sv.take(i as int).filter(pred).push(s@));
            assert(out@ == before.push(out@.last()));
            assert(request_views(out@) =~= request_views(before).push((s.name@, api_call(s@, query@))));
            assert(f(s@) == (s.name@, api_call(s@, query@)));
            assert(sv.take(i as int).filter(pred).push(s@).map_values(f) =~= sv.take(i as int).filter(pred).map_values(f).push(f(s@)));
            assert(request_views(out@) =~= sv.take(i + 1).filter(pred).map_values(f));
        } else {
            assert(!pred(s@));
            assert(request_views(out@) =~= sv.take(i + 1).filter(pred).map_values(f));
        }
        i = i + 1;
    }
    assert(sv.take(n as int) =~= sv);
    out
}

/// The last part of a short URL's path, its id: the text after the last
/// `/`, trailing slashes aside.
pub open spec fn slug_of(short_url: Seq<char>) -> Seq<char> {
    split_on(trim_end_char(short_url, '/'), '/').last()
}

/// The id of `short_url`, as [`slug_of`] states it.
pub fn slug(short_url: &str) -> (r: String)
    ensures
        r@ == slug_of(short_url@),
{
    let trimmed = trim_end_matches_char(short_url, '/');
    let pieces = split_char(trimmed, '/');
    proof {
        lemma_split_on_nonempty(trimmed@, '/');
    }
    let k = pieces.len();
    assert(views(pieces@)[k - 1] == pieces@[k - 1]@);
    pieces[k - 1].clone()
}

/// The query of a request that shortens the form-encoded URL `encoded`,
/// under the id `keyword` when one is given.
pub open spec fn shorten_query(encoded: Seq<char>, keyword: Option<Seq<char>>) -> Seq<char> {
    "&action=shorturl&url="@ + encoded + match keyword {
        Some(k) => "&keyword="@ + k,
        None => Seq::<char>::empty(),
    } + "&format=simple"@
}

/// The form encoding of the UTF-8 bytes of `s`.
pub open spec fn query_encoded(s: Seq<char>) -> Seq<char> {
    form_encoded(vstd::utf8::encode_utf8(s))
}

/// The request that shortens `url` on `server`, asking for the id `id` when
/// one is given; both go form-encoded into the query.
pub fn shorten_request(server: &ServerConfig, url: &UrlParts, id: Option<&str>) -> (r: ApiRequest)
    ensures
        r.server@ == server.name@,
        r.url@ == api_call(
            server@,
            shorten_query(
                query_encoded(url.serialization@),
                match id {
                    Some(i) => Some(query_encoded(i@)),
                    None => None,
                },
            ),
        ),
{
    let encoded = form_urlencode(url.serialization.as_str());
    let mut query = String::from_str("&action=shorturl&url=");
    query.append(encoded.as_str());
    match id {
        Some(i) => {
            let k = form_urlencode(i);
            query.append("&keyword=");
            query.append(k.as_str());
        },
        None => {},
    }
    query.append("&format=simple");
    proof {
        let kv = match id {
            Some(i) => Some(query_encoded(i@)),
            None => None,
        };
        assert(query@ =~= shorten_query(query_encoded(url.serialization@), kv));
    }
    ApiRequest { server: server.name.clone(), url: call_url(server, query.as_str()) }
}

/// The requests that give a new short link's id to every other complete
/// server, for the URL `encoded` that it shortens; none when the short URL
/// has no id.
pub open spec fn mirror_plan(servers: Seq<ServerView>, primary: Seq<char>, short_url: Seq<char>, encoded: Seq<char>) -> Seq<(Seq<char>, Seq<char>)> {
    let id = slug_of(short_url);
    if id.len() == 0 {
        Seq::empty()
    } else {
        batch(servers, Some(primary), shorten_query(encoded, Some(id)))
    }
}

/// The requests that mirror `short_url`, made on `primary` for `url`, to the
/// other servers.
pub fn mirror_requests(servers: &Vec<ServerConfig>, primary: &str, short_url: &str, url: &UrlParts) -> (r: Vec<ApiRequest>)
    ensures
        request_views(r@) == mirror_plan(
            server_views(servers@),
            primary@,
            short_url@,
            query_encoded(url.serialization@),
        ),
{
    let id = slug(short_url);
    if id.as_str().unicode_len() == 0 {
        let empty: Vec<ApiRequest> = Vec::new();
        assert(request_views(empty@) =~= Seq::<(Seq<char>, Seq<char>)>::empty());
        return empty;
    }
    let encoded = form_urlencode(url.serialization.as_str());
    let mut query = String::from_str("&action=shorturl&url=");
    query.append(encoded.as_str());
    query.append("&keyword=");
    query.append(id.as_str());
    query.append("&format=simple");
    assert(query@ =~= shorten_query(encoded@, Some(id@)));
    server_requests(servers, Some(primary), query.as_str())
}

/// The query that asks a server for its last 25 links.
pub open spec fn history_query() -> Seq<char> {
    "&action=stats&filter=last&limit=25&format=json"@
}

/// The requests for the recent links of every complete server.
pub fn history_requests(servers: &Vec<ServerConfig>) -> (r: Vec<ApiRequest>)
    ensures
        request_views(r@) == batch(server_views(servers@), None, history_query()),
{
    server_requests(servers, None, "&action=stats&filter=last&limit=25&format=json")
}

/// The query that deletes the short link with the id `keyword`.
pub open spec fn delete_query(keyword: Seq<char>) -> Seq<char> {
    "&action=delete&shorturl="@ + keyword + "&format=json"@
}

/// The requests that delete the short link with the id `keyword` from
/// every complete server.
pub fn delete_requests(servers: &Vec<ServerConfig>, keyword: &str) -> (r: Vec<ApiRequest>)
    ensures
        request_views(r@) == batch(server_views(servers@), None, delete_query(keyword@)),
{
    let mut query = String::from_str("&action=delete&shorturl=");
    query.append(keyword);
    query.append("&format=json");
    server_requests(servers, None, query.as_str())
}

} // verus!
