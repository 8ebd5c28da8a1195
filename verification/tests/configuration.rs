use yourls::config::{
    complete_server, complete_servers, default_locale, default_log_file_name,
    default_selected_server, default_true, Config, ServerConfig,
};

fn entry(name: &str, base: &str, api: &str) -> ServerConfig {
    ServerConfig {
        name: name.to_string(),
        base_url: base.to_string(),
        api_url: api.to_string(),
        signature: "sig".to_string(),
    }
}

#[test]
fn the_defaults_are_those_of_a_fresh_install() {
    let c = Config::default();
    assert!(c.enabled && c.bypass_double_copy && c.bypass_shift_key && c.bypass_scroll_lock);
    assert!(c.enable_undo && !c.shorten_on_all && !c.check_update_on_startup && !c.ignore_ssl_errors);
    assert!(c.servers.is_empty() && c.blacklist_regex.is_empty());
    assert_eq!(c.selected_server, "Random");
    assert_eq!(c.locale, "auto");
    assert_eq!(c.log_file_name, "yourls-tray-app.log");
    assert!(default_true());
    assert_eq!(default_selected_server(), "Random");
    assert_eq!(default_locale(), "auto");
    assert_eq!(default_log_file_name(), "yourls-tray-app.log");
}

#[test]
fn the_base_url_is_inferred_from_the_api_url() {
    let mut s = entry("", "", "https://sho.rt/yourls-api.php");
    complete_server(&mut s);
    assert_eq!(s.base_url, "https://sho.rt/");
    assert_eq!(s.api_url, "https://sho.rt/yourls-api.php");
    assert_eq!(s.name, "sho.rt");
}

#[test]
fn the_base_url_keeps_the_directory_and_drops_query_and_fragment() {
    let mut s = entry("mine", "  ", "https://h.example/a/yourls-api.php?x=1#top");
    complete_server(&mut s);
    assert_eq!(s.base_url, "https://h.example/a/");
    assert_eq!(s.name, "mine");
}

#[test]
fn the_api_url_is_inferred_from_the_base_url() {
    let mut s = entry("", "https://my.link/", "");
    complete_server(&mut s);
    assert_eq!(s.api_url, "https://my.link/yourls-api.php");
    assert_eq!(s.name, "my.link");

    let mut t = entry("x", "https://x.example/sub//?q=1#f", "");
    complete_server(&mut t);
    assert_eq!(t.api_url, "https://x.example/sub/yourls-api.php");
}

#[test]
fn a_name_without_a_domain_is_unknown() {
    let mut s = entry("", "", "http://127.0.0.1/yourls-api.php");
    complete_server(&mut s);
    assert_eq!(s.base_url, "http://127.0.0.1/");
    assert_eq!(s.name, "Unknown");

    let mut t = entry("", "", "not a url");
    complete_server(&mut t);
    assert_eq!(t.base_url, "");
    assert_eq!(t.name, "Unknown");
}

#[test]
fn a_complete_entry_is_left_alone_and_every_entry_is_completed() {
    let mut config = Config {
        servers: vec![
            entry("a", "https://a.example/", "https://a.example/api.php"),
            entry("", "", "https://b.example/yourls-api.php"),
        ],
        locale: "de".to_string(),
        ..Config::default()
    };
    complete_servers(&mut config);
    assert_eq!(config.servers[0].base_url, "https://a.example/");
    assert_eq!(config.servers[0].api_url, "https://a.example/api.php");
    assert_eq!(config.servers[1].base_url, "https://b.example/");
    assert_eq!(config.servers[1].name, "b.example");
    assert_eq!(config.locale, "de");
}
