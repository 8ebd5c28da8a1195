use yourls::cli::{parse_arguments, Invocation};

fn parse(arguments: &[&str]) -> Invocation {
    let owned: Vec<String> = arguments.iter().map(|a| (*a).to_string()).collect();
    parse_arguments(&owned)
}

#[test]
fn a_bare_url_is_shortened_with_no_server_preference() {
    match parse(&["https://example.com"]) {
        Invocation::Shorten { url, server, id } => {
            assert_eq!(url.as_deref(), Some("https://example.com"));
            assert_eq!(server, None);
            assert_eq!(id, None);
        }
        _ => panic!("expected Shorten"),
    }
}

#[test]
fn the_server_can_be_given_either_way_round() {
    for arguments in [
        &["--server", "sho.rt", "https://example.com"][..],
        &["https://example.com", "--server=sho.rt"][..],
    ] {
        match parse(arguments) {
            Invocation::Shorten { url, server, .. } => {
                assert_eq!(url.as_deref(), Some("https://example.com"));
                assert_eq!(server.as_deref(), Some("sho.rt"));
            }
            _ => panic!("expected Shorten for {arguments:?}"),
        }
    }
}

#[test]
fn a_server_with_no_name_is_an_error_rather_than_a_url() {
    assert!(matches!(
        parse(&["https://example.com", "--server"]),
        Invocation::Invalid(_)
    ));
}

#[test]
fn a_url_that_looks_like_a_server_name_is_still_the_value() {
    match parse(&["--server", "--tray"]) {
        Invocation::Shorten { server, .. } => assert_eq!(server.as_deref(), Some("--tray")),
        _ => panic!("the value after --server is a value, not a flag"),
    }
}

#[test]
fn an_id_can_be_given_either_way_round_and_under_both_names() {
    for arguments in [
        &["--id", "mine", "https://example.com"][..],
        &["https://example.com", "--id=mine"][..],
        &["--keyword", "mine", "https://example.com"][..],
        &["https://example.com", "--keyword=mine"][..],
        &["--slug", "mine", "https://example.com"][..],
        &["https://example.com", "--slug=mine"][..],
    ] {
        match parse(arguments) {
            Invocation::Shorten { url, id, .. } => {
                assert_eq!(url.as_deref(), Some("https://example.com"));
                assert_eq!(id.as_deref(), Some("mine"), "{arguments:?}");
            }
            _ => panic!("expected Shorten for {arguments:?}"),
        }
    }
}

#[test]
fn an_id_and_a_server_can_be_given_together() {
    match parse(&["--server", "a.de", "--id", "mine", "https://example.com"]) {
        Invocation::Shorten { url, server, id } => {
            assert_eq!(url.as_deref(), Some("https://example.com"));
            assert_eq!(server.as_deref(), Some("a.de"));
            assert_eq!(id.as_deref(), Some("mine"));
        }
        _ => panic!("expected Shorten"),
    }
}

#[test]
fn an_id_with_no_value_is_an_error() {
    assert!(matches!(
        parse(&["https://example.com", "--id"]),
        Invocation::Invalid(_)
    ));
}

#[test]
fn the_modes_are_recognised() {
    assert!(matches!(parse(&["--tray"]), Invocation::Tray));
    assert!(matches!(parse(&["-t"]), Invocation::Tray));
    assert!(matches!(parse(&["--help"]), Invocation::Help));
    assert!(matches!(parse(&["--version"]), Invocation::Version));
}

#[test]
fn no_arguments_reads_standard_input() {
    match parse(&[]) {
        Invocation::Shorten { url, server, id } => {
            assert_eq!(url, None);
            assert_eq!(server, None);
            assert_eq!(id, None);
        }
        _ => panic!("expected Shorten"),
    }
}

#[test]
fn the_messages_for_a_missing_value_name_the_flag() {
    match parse(&["--server"]) {
        Invocation::Invalid(m) => assert_eq!(m, "--server needs a name (or `auto`)"),
        _ => panic!("expected Invalid"),
    }
    match parse(&["--slug"]) {
        Invocation::Invalid(m) => assert_eq!(m, "--id needs a value"),
        _ => panic!("expected Invalid"),
    }
}

#[test]
fn a_mode_flag_wins_over_what_follows_and_the_last_url_counts() {
    assert!(matches!(parse(&["https://a.example", "--help", "--server"]), Invocation::Help));
    assert!(matches!(parse(&["-s", "-V"]), Invocation::Version));
    match parse(&["-s", "https://a.example", "https://b.example"]) {
        Invocation::Shorten { url, .. } => assert_eq!(url.as_deref(), Some("https://b.example")),
        _ => panic!("expected Shorten"),
    }
}

#[test]
fn a_flag_value_may_itself_look_like_a_flag_or_be_empty() {
    match parse(&["--id", "--help", "--server="]) {
        Invocation::Shorten { server, id, url } => {
            assert_eq!(id.as_deref(), Some("--help"));
            assert_eq!(server.as_deref(), Some(""));
            assert_eq!(url, None);
        }
        _ => panic!("expected Shorten"),
    }
}
