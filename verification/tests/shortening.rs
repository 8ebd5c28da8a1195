use yourls::config::{Config, ServerConfig};
use yourls::shorten::{
    finish_shorten, is_blacklisted, parse_url, pick_server, pick_server_at, HttpReply,
    ShortenError,
};

fn server(name: &str) -> ServerConfig {
    ServerConfig {
        name: name.to_string(),
        base_url: format!("https://{name}/"),
        api_url: format!("https://{name}/yourls-api.php"),
        signature: "secret".to_string(),
    }
}

#[test]
fn only_http_urls_are_accepted() {
    assert!(parse_url("https://example.com/a").is_ok());
    assert!(parse_url("  http://example.com  ").is_ok());
    for bad in ["", "not a url", "file:///etc/passwd", "mailto:a@b.c"] {
        assert!(parse_url(bad).is_err(), "{bad} should be refused");
    }
}

#[test]
fn a_named_server_is_used_and_an_unknown_one_is_reported() {
    let mut config = Config {
        servers: vec![server("one"), server("two")],
        selected_server: "two".to_string(),
        ..Config::default()
    };
    assert_eq!(pick_server(&config, None).expect("configured").name, "two");

    config.selected_server = "three".to_string();
    assert!(matches!(
        pick_server(&config, None),
        Err(ShortenError::UnknownServer(_))
    ));
}

#[test]
fn an_asked_for_server_overrides_the_configured_one() {
    let config = Config {
        servers: vec![server("one"), server("two")],
        selected_server: "one".to_string(),
        ..Config::default()
    };
    assert_eq!(
        pick_server(&config, Some("two")).expect("configured").name,
        "two"
    );
    assert_eq!(
        pick_server(&config, Some("TWO")).expect("configured").name,
        "two"
    );
    assert!(matches!(
        pick_server(&config, Some("three")),
        Err(ShortenError::UnknownServer(_))
    ));
}

#[test]
fn auto_and_nothing_both_defer_to_the_config() {
    let config = Config {
        servers: vec![server("one"), server("two")],
        selected_server: "two".to_string(),
        ..Config::default()
    };
    for wanted in [None, Some("auto"), Some("AUTO")] {
        assert_eq!(
            pick_server(&config, wanted).expect("configured").name,
            "two",
            "{wanted:?} should follow the config"
        );
    }
}

#[test]
fn a_blacklisted_url_is_recognised() {
    let config = Config {
        blacklist_regex: r"^https://discord\.com/users/\d{17,20}$".to_string(),
        ..Config::default()
    };
    let blacklisted = parse_url("https://discord.com/users/123456789012345678").expect("url");
    assert!(is_blacklisted(&blacklisted, &config).expect("valid pattern"));

    for allowed in [
        "https://discord.com/users/notanid",
        "https://example.com/users/123456789012345678",
        "https://discord.com/channels/1/2",
    ] {
        let url = parse_url(allowed).expect("url");
        assert!(
            !is_blacklisted(&url, &config).expect("valid pattern"),
            "{allowed} should not be blacklisted"
        );
    }
}

#[test]
fn a_signature_never_reaches_an_error_message() {
    let text = "https://x/yourls-api.php?signature=deadbeef1234&action=shorturl";
    let redacted = yourls::common::redact_secrets(text);
    assert!(!redacted.contains("deadbeef1234"), "{redacted}");
    assert!(redacted.contains("signature=<redacted>"), "{redacted}");
    assert!(redacted.contains("action=shorturl"), "{redacted}");
}

#[test]
fn no_blacklist_blocks_nothing() {
    let config = Config::default();
    let url = parse_url("https://example.com").expect("url");
    assert!(!is_blacklisted(&url, &config).expect("empty is valid"));
}

#[test]
fn an_unparseable_blacklist_is_an_error_rather_than_allow_everything() {
    let config = Config {
        blacklist_regex: "([unclosed".to_string(),
        ..Config::default()
    };
    let url = parse_url("https://example.com").expect("url");
    assert!(matches!(
        is_blacklisted(&url, &config),
        Err(ShortenError::BadBlacklist(_))
    ));
}

#[test]
fn random_picks_one_of_the_configured_servers() {
    let config = Config {
        servers: vec![server("one"), server("two")],
        ..Config::default()
    };
    let chosen = pick_server(&config, None).expect("configured");
    assert!(chosen.name == "one" || chosen.name == "two");
}

#[test]
fn nothing_configured_says_where_to_configure_it() {
    let config = Config::default();
    let message = pick_server(&config, None)
        .expect_err("none")
        .message("/home/user/.yourls-clipboard-shortener/config.toml");
    assert!(
        message.contains("no YOURLS server is configured"),
        "{message}"
    );
    assert!(message.contains("config.toml"), "{message}");
}

#[test]
fn a_server_without_credentials_is_refused_by_name() {
    let mut incomplete = server("one");
    incomplete.signature = String::new();
    let config = Config {
        servers: vec![incomplete],
        ..Config::default()
    };
    assert!(matches!(
        pick_server(&config, None),
        Err(ShortenError::IncompleteServer(name)) if name == "one"
    ));
}

#[test]
fn random_is_the_clock_reading_modulo_the_number_of_servers() {
    let config = Config {
        servers: vec![server("one"), server("two"), server("three")],
        selected_server: "RANDOM".to_string(),
        ..Config::default()
    };
    assert_eq!(pick_server_at(&config, None, 0).expect("configured").name, "one");
    assert_eq!(pick_server_at(&config, None, 4).expect("configured").name, "two");
    assert_eq!(pick_server_at(&config, Some("Auto"), 8).expect("configured").name, "three");
    assert_eq!(pick_server_at(&config, Some("random"), 7).expect("configured").name, "two");
}

#[test]
fn a_blank_signature_counts_as_missing_and_the_first_name_match_wins() {
    let mut blank = server("dup");
    blank.signature = "   ".to_string();
    let config = Config {
        servers: vec![blank, server("DUP")],
        selected_server: "dup".to_string(),
        ..Config::default()
    };
    assert!(matches!(
        pick_server_at(&config, None, 0),
        Err(ShortenError::IncompleteServer(name)) if name == "dup"
    ));
}

#[test]
fn a_url_is_trimmed_and_keeps_its_serialization() {
    let url = parse_url("  https://Example.com/a b  ").expect("url");
    assert_eq!(url.serialization, "https://example.com/a%20b");
    assert_eq!(url.scheme, "https");
    match parse_url(" ftp://example.com ") {
        Err(ShortenError::NotAUrl(t)) => assert_eq!(t, "ftp://example.com"),
        other => panic!("expected NotAUrl, got {other:?}"),
    }
}

#[test]
fn a_reply_that_is_a_url_is_the_short_url() {
    let r = finish_shorten("sho.rt", HttpReply::Answer("  https://sho.rt/abc \n".to_string()), None);
    assert_eq!(r.expect("short"), "https://sho.rt/abc");
}

#[test]
fn a_reply_that_is_not_a_url_is_refused() {
    match finish_shorten("sho.rt", HttpReply::Answer(" error: nope ".to_string()), None) {
        Err(ShortenError::NotAUrlInReply { server, reply }) => {
            assert_eq!(server, "sho.rt");
            assert_eq!(reply, "error: nope");
        }
        other => panic!("expected NotAUrlInReply, got {other:?}"),
    }
}

#[test]
fn an_id_that_was_not_granted_is_an_error() {
    match finish_shorten("sho.rt", HttpReply::Answer("https://sho.rt/other/".to_string()), Some("mine")) {
        Err(ShortenError::IdNotGranted { server, id, reply }) => {
            assert_eq!(server, "sho.rt");
            assert_eq!(id, "mine");
            assert_eq!(reply, "https://sho.rt/other/");
        }
        other => panic!("expected IdNotGranted, got {other:?}"),
    }
    let ok = finish_shorten("sho.rt", HttpReply::Answer("https://sho.rt/mine/".to_string()), Some("mine"));
    assert_eq!(ok.expect("granted"), "https://sho.rt/mine/");
}

#[test]
fn a_transport_failure_is_reported_without_the_signature() {
    let failure = HttpReply::Failure("https://sho.rt/yourls-api.php?SIGNATURE=abc&x=1: timed out".to_string());
    match finish_shorten("sho.rt", failure, None) {
        Err(ShortenError::Request { server, detail }) => {
            assert_eq!(server, "sho.rt");
            assert_eq!(detail, "https://sho.rt/yourls-api.php?SIGNATURE=<redacted>&x=1: timed out");
        }
        other => panic!("expected Request, got {other:?}"),
    }
}

#[test]
fn every_error_has_its_message() {
    let path = "/etc/yourls/config.toml";
    let cases = [
        (ShortenError::NotAUrl("x".to_string()), "not a URL: x"),
        (ShortenError::BadBlacklist("bad".to_string()), "blacklist_regex is not a valid regular expression: bad"),
        (ShortenError::NoServers, "no YOURLS server is configured; add one to /etc/yourls/config.toml"),
        (ShortenError::UnknownServer("a".to_string()), "no server named `a` is configured"),
        (ShortenError::IncompleteServer("a".to_string()), "server `a` is missing its api_url or signature"),
        (ShortenError::Request { server: "a".to_string(), detail: "d".to_string() }, "a: d"),
        (ShortenError::NotAUrlInReply { server: "a".to_string(), reply: "r".to_string() }, "a answered with something that is not a URL: r"),
        (ShortenError::IdNotGranted { server: "a".to_string(), id: "i".to_string(), reply: "r".to_string() }, "a did not give the id `i`: it answered r"),
    ];
    for (error, expected) in cases {
        assert_eq!(error.message(path), expected);
    }
}
