use yourls::history::{link_id, links_of_reply, merge_histories, order_links, server_links};
use yourls::requests::history_requests;
use yourls::config::ServerConfig;

fn s(x: &str) -> String {
    x.to_string()
}

fn pair(a: &str, b: &str) -> (String, String) {
    (s(a), s(b))
}

#[test]
fn link_ids_are_read_from_the_keys() {
    assert_eq!(link_id("link_17"), 17);
    assert_eq!(link_id("link_+7"), 7);
    assert_eq!(link_id("link_"), 0);
    assert_eq!(link_id("link_-3"), 0);
    assert_eq!(link_id("link_99999999999"), 0);
    assert_eq!(link_id("link_4294967295"), 4294967295);
    assert_eq!(link_id("17"), 0);
}

#[test]
fn links_are_ordered_newest_first_and_ties_keep_their_order() {
    let entries = vec![
        (2, s("u2"), s("s2")),
        (10, s("u10"), s("s10")),
        (2, s("u2b"), s("s2b")),
        (0, s("u0"), s("s0")),
    ];
    assert_eq!(
        order_links(&entries),
        vec![pair("u10", "s10"), pair("u2", "s2"), pair("u2b", "s2b"), pair("u0", "s0")]
    );
}

#[test]
fn a_stats_reply_keeps_whole_entries_only() {
    let raw = vec![
        (s("link_2"), Some(s("u2")), Some(s("s2"))),
        (s("link_10"), Some(s("u10")), Some(s("s10"))),
        (s("link_3"), Some(s("u3")), None),
        (s("other"), Some(s("uo")), Some(s("so"))),
    ];
    assert_eq!(
        server_links(&raw),
        vec![pair("u10", "s10"), pair("u2", "s2"), pair("uo", "so")]
    );
}

#[test]
fn histories_are_merged_in_turns_with_the_selected_servers_short_urls() {
    let histories = vec![
        (s("a"), vec![pair("l1", "s1a"), pair("l2", "s2a")]),
        (s("b"), vec![pair("l3", "s3b"), pair("l1", "s1b"), pair("l4", "s4b")]),
    ];
    assert_eq!(
        merge_histories(&histories, "b"),
        vec![pair("l1", "s1b"), pair("l3", "s3b"), pair("l2", "s2a"), pair("l4", "s4b")]
    );
    assert_eq!(
        merge_histories(&histories, "Random"),
        vec![pair("l1", "s1a"), pair("l3", "s3b"), pair("l2", "s2a"), pair("l4", "s4b")]
    );
    assert_eq!(
        merge_histories(&histories, "c"),
        vec![pair("l1", "s1a"), pair("l3", "s3b"), pair("l2", "s2a"), pair("l4", "s4b")]
    );
    assert!(merge_histories(&Vec::new(), "a").is_empty());
}

#[test]
fn history_is_asked_of_complete_servers_only() {
    let servers = vec![
        ServerConfig { name: s("a"), base_url: s(""), api_url: s("https://a/yourls-api.php"), signature: s("k") },
        ServerConfig { name: s("b"), base_url: s(""), api_url: s(" "), signature: s("k") },
    ];
    let r = history_requests(&servers);
    assert_eq!(r.len(), 1);
    assert_eq!(r[0].server, "a");
    assert_eq!(
        r[0].url,
        "https://a/yourls-api.php?signature=k&action=stats&filter=last&limit=25&format=json"
    );
}

#[test]
fn a_stats_reply_body_is_read_into_links() {
    let body = r#"{"links":{
        "link_1":{"url":"https://a.example/","shorturl":"https://sho.rt/a"},
        "link_3":{"url":"https://c.example/","shorturl":"https://sho.rt/c"},
        "link_2":{"url":"https://b.example/"},
        "odd/~key":{"url":"https://d.example/","shorturl":"https://sho.rt/d"}
    },"stats":{"total_links":"4"}}"#;
    assert_eq!(
        links_of_reply(body),
        vec![
            pair("https://c.example/", "https://sho.rt/c"),
            pair("https://a.example/", "https://sho.rt/a"),
            pair("https://d.example/", "https://sho.rt/d"),
        ]
    );
}

#[test]
fn a_reply_that_is_not_json_or_has_no_links_gives_none() {
    assert!(links_of_reply("not json").is_empty());
    assert!(links_of_reply(r#"{"message":"error"}"#).is_empty());
    assert!(links_of_reply(r#"{"links":[1,2]}"#).is_empty());
}
