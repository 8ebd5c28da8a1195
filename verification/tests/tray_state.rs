use yourls::config::{Config, ServerConfig};
use yourls::session::{
    apply_menu_command, clipboard_step, history_label, record_shortened, take_rebuild, undo_step,
    AppState, ClipboardStep, ClipboardVerdict, MenuCommand, MenuEffect, UndoStep,
};

fn state() -> AppState {
    AppState {
        enabled: true,
        config: Config {
            servers: vec![
                ServerConfig {
                    name: "a".to_string(),
                    base_url: "https://a/".to_string(),
                    api_url: "https://a/yourls-api.php".to_string(),
                    signature: "k".to_string(),
                },
                ServerConfig {
                    name: "b".to_string(),
                    base_url: "https://b/".to_string(),
                    api_url: "https://b/yourls-api.php".to_string(),
                    signature: String::new(),
                },
            ],
            ..Config::default()
        },
        last_attempted_long_url: None,
        last_undo_pair: None,
        history: Vec::new(),
        needs_menu_rebuild: false,
        bypass_undo_write: false,
    }
}

#[test]
fn a_copied_url_is_shortened_once_and_a_second_copy_is_left() {
    let mut st = state();
    match clipboard_step(&mut st, "  https://example.com/x \n", false, false) {
        ClipboardStep::Shorten(url, text) => {
            assert_eq!(text, "https://example.com/x");
            assert_eq!(url.serialization, "https://example.com/x");
        }
        other => panic!("expected Shorten, got {other:?}"),
    }
    assert_eq!(st.last_attempted_long_url.as_deref(), Some("https://example.com/x"));
    assert!(matches!(
        clipboard_step(&mut st, "https://example.com/x", false, false),
        ClipboardStep::Leave(ClipboardVerdict::Bypassed)
    ));
}

#[test]
fn paths_drives_and_text_are_not_urls() {
    let mut st = state();
    for text in ["C:\\Users\\me", "file:///etc/passwd", "just words", ""] {
        assert!(matches!(
            clipboard_step(&mut st, text, false, false),
            ClipboardStep::Leave(ClipboardVerdict::NotAUrl)
        ), "{text}");
    }
}

#[test]
fn bypasses_disabling_and_the_blacklist_leave_the_clipboard_alone() {
    let mut st = state();
    assert!(matches!(clipboard_step(&mut st, "https://e.x", true, false), ClipboardStep::Leave(ClipboardVerdict::Bypassed)));
    assert!(matches!(clipboard_step(&mut st, "https://e.x", false, true), ClipboardStep::Leave(ClipboardVerdict::Bypassed)));
    st.config.bypass_shift_key = false;
    st.enabled = false;
    assert!(matches!(clipboard_step(&mut st, "https://e.x", true, false), ClipboardStep::Leave(ClipboardVerdict::Disabled)));
    st.enabled = true;
    st.config.blacklist_regex = "^https://e\\.x".to_string();
    assert!(matches!(clipboard_step(&mut st, "https://e.x", false, false), ClipboardStep::Leave(ClipboardVerdict::Blacklisted)));
    st.config.blacklist_regex = "(".to_string();
    assert!(matches!(clipboard_step(&mut st, "https://e.x", false, false), ClipboardStep::Refuse(_)));
    assert_eq!(st.last_attempted_long_url, None);
}

#[test]
fn the_undo_deletes_restores_and_skips_its_own_write() {
    let mut st = state();
    record_shortened(&mut st, "https://long.example/x".to_string(), "https://a/abc/".to_string(), vec![("l".to_string(), "s".to_string())]);
    assert!(st.needs_menu_rebuild);
    assert_eq!(st.history.len(), 1);
    match undo_step(&mut st) {
        UndoStep::Restore { long_url, short_url, deletes } => {
            assert_eq!(long_url, "https://long.example/x");
            assert_eq!(short_url, "https://a/abc/");
            assert_eq!(deletes.len(), 1);
            assert_eq!(deletes[0].server, "a");
            assert_eq!(deletes[0].url, "https://a/yourls-api.php?signature=k&action=delete&shorturl=abc&format=json");
        }
        other => panic!("expected Restore, got {other:?}"),
    }
    assert!(st.bypass_undo_write);
    assert!(matches!(undo_step(&mut st), UndoStep::NothingToUndo));
    assert!(matches!(
        clipboard_step(&mut st, "https://long.example/x", false, false),
        ClipboardStep::Leave(ClipboardVerdict::UndoEcho)
    ));
    assert!(!st.bypass_undo_write);
    st.config.enable_undo = false;
    assert!(matches!(undo_step(&mut st), UndoStep::Disabled));
}

#[test]
fn menu_commands_change_the_state_and_say_what_to_do() {
    let mut st = state();
    assert_eq!(apply_menu_command(&mut st, MenuCommand::SetEnabled(false)), MenuEffect::Nothing);
    assert!(!st.enabled);
    assert!(take_rebuild(&mut st));
    assert!(!take_rebuild(&mut st));
    assert_eq!(apply_menu_command(&mut st, MenuCommand::IconClicked), MenuEffect::Nothing);
    assert!(st.enabled);
    assert_eq!(apply_menu_command(&mut st, MenuCommand::SetBypassShiftKey(false)), MenuEffect::SaveConfig);
    assert!(!st.config.bypass_shift_key);
    assert_eq!(apply_menu_command(&mut st, MenuCommand::SelectServer("b".to_string())), MenuEffect::SaveConfig);
    assert_eq!(st.config.selected_server, "b");
    assert_eq!(apply_menu_command(&mut st, MenuCommand::SelectRandom), MenuEffect::SaveConfig);
    assert_eq!(st.config.selected_server, "Random");
    assert_eq!(apply_menu_command(&mut st, MenuCommand::SetShortenOnAll(true)), MenuEffect::SaveConfig);
    assert!(st.config.shorten_on_all);
    assert_eq!(
        apply_menu_command(&mut st, MenuCommand::HistoryItem("https://a/x".to_string())),
        MenuEffect::CopyToClipboard("https://a/x".to_string())
    );
    assert_eq!(apply_menu_command(&mut st, MenuCommand::Exit), MenuEffect::Exit);
}

#[test]
fn long_links_are_cut_in_the_menu() {
    let short = "https://example.com/short";
    assert_eq!(history_label(short), short);
    let long = format!("https://example.com/{}", "a".repeat(40));
    assert_eq!(history_label(&long), format!("{}...", &long[..47]));
    let wide = format!("é{}bcdef", "a".repeat(45));
    assert_eq!(history_label(&wide), format!("é{}...", "a".repeat(45)));
}
