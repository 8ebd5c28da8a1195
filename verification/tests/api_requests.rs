use yourls::config::ServerConfig;
use yourls::requests::{mirror_requests, shorten_request, slug};
use yourls::shorten::parse_url;

fn server(name: &str, signature: &str) -> ServerConfig {
    ServerConfig {
        name: name.to_string(),
        base_url: format!("https://{name}/"),
        api_url: format!("https://{name}/yourls-api.php"),
        signature: signature.to_string(),
    }
}

#[test]
fn the_id_of_a_short_url_is_its_last_path_segment() {
    assert_eq!(slug("https://sho.rt/abc"), "abc");
    assert_eq!(slug("https://sho.rt/abc//"), "abc");
    assert_eq!(slug("abc"), "abc");
    assert_eq!(slug("///"), "");
}

#[test]
fn a_shortening_request_carries_the_url_form_encoded() {
    let url = parse_url("https://example.com/a?b=c d").expect("url");
    let r = shorten_request(&server("sho.rt", "sig"), &url, None);
    assert_eq!(r.server, "sho.rt");
    assert_eq!(
        r.url,
        "https://sho.rt/yourls-api.php?signature=sig&action=shorturl&url=https%3A%2F%2Fexample.com%2Fa%3Fb%3Dc%2520d&format=simple"
    );
    let with_id = shorten_request(&server("sho.rt", "sig"), &url, Some("my id"));
    assert!(with_id.url.ends_with("&keyword=my+id&format=simple"), "{}", with_id.url);
}

#[test]
fn a_new_link_is_mirrored_to_every_other_complete_server() {
    let servers = vec![server("one", "s1"), server("two", "s2"), server("three", " ")];
    let url = parse_url("https://example.com").expect("url");
    let r = mirror_requests(&servers, "one", "https://one/abc/", &url);
    assert_eq!(r.len(), 1);
    assert_eq!(r[0].server, "two");
    assert_eq!(
        r[0].url,
        "https://two/yourls-api.php?signature=s2&action=shorturl&url=https%3A%2F%2Fexample.com%2F&keyword=abc&format=simple"
    );
    assert!(mirror_requests(&servers, "one", "", &url).is_empty());
}
