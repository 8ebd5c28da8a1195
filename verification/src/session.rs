//! The tray's state and the decisions it makes: what a new clipboard text
//! leads to, what a shortening leaves behind, what the undo hotkey does,
//! and what each menu command changes.

use crate::config::Config;
use crate::external::{parse_url_parts, url_parsed, UrlParts, UrlPartsView};
use crate::config::{is_complete, ServerConfig, ServerView};
use crate::requests::{api_call, batch, delete_query, takes_part, delete_requests, request_views, slug, slug_of, ApiRequest};
use crate::shorten::{blacklist_verdict, is_blacklisted, server_views, ShortenError};
use crate::text::{same_text, trim, trimmed};
use vstd::prelude::*;

verus! {

/// What the tray keeps between events.
pub struct AppState {
    /// Whether clipboard monitoring is on.
    pub enabled: bool,
    /// The configuration in force.
    pub config: Config,
    /// The last URL that was sent for shortening.
    pub last_attempted_long_url: Option<String>,
    /// The last (long URL, short URL) the clipboard got, for the undo.
    pub last_undo_pair: Option<(String, String)>,
    /// The recent links shown in the menu.
    pub history: Vec<(String, String)>,
    /// Whether the menu must be rebuilt.
    pub needs_menu_rebuild: bool,
    /// Whether the next clipboard change is the undo's own write.
    pub bypass_undo_write: bool,
}

/// How a new clipboard text is dealt with.
#[derive(Debug)]
pub enum ClipboardVerdict {
    /// It is not a URL (or a file path or drive letter).
    NotAUrl,
    /// It is the URL the undo just put back; it is left, once.
    UndoEcho,
    /// A bypass applies: the same URL again, Shift held, or Scroll Lock on.
    Bypassed,
    /// Monitoring is off.
    Disabled,
    /// The blacklist names it.
    Blacklisted,
    /// The blacklist does not compile; nothing is shortened.
    BadBlacklist,
    /// It is to be shortened.
    Shorten,
}

/// The URL in a clipboard text: the trimmed text parsed, unless its scheme
/// is a single letter (a drive) or `file`.
pub open spec fn clipboard_url(text: Seq<char>) -> Option<UrlPartsView> {
    match url_parsed(trimmed(text)) {
        Some(u) => if u.scheme.len() <= 1 || u.scheme == "file"@ {
            None
        } else {
            Some(u)
        },
        None => None,
    }
}

/// How a new clipboard `text` is dealt with in state `s`, with Shift held
/// or not and Scroll Lock on or not.
pub open spec fn clipboard_verdict(s: AppState, text: Seq<char>, shift: bool, scroll_lock: bool) -> ClipboardVerdict {
    match clipboard_url(text) {
        None => ClipboardVerdict::NotAUrl,
        Some(u) => if s.bypass_undo_write {
            ClipboardVerdict::UndoEcho
        } else if (s.config.bypass_double_copy && (s.last_attempted_long_url matches Some(t) && t@ == trimmed(text)))
            || (s.config.bypass_shift_key && shift) || (s.config.bypass_scroll_lock && scroll_lock) {
            ClipboardVerdict::Bypassed
        } else if !s.enabled {
            ClipboardVerdict::Disabled
        } else {
            match blacklist_verdict(s.config.blacklist_regex@, u.serialization) {
                Ok(true) => ClipboardVerdict::Blacklisted,
                Ok(false) => ClipboardVerdict::Shorten,
                Err(_) => ClipboardVerdict::BadBlacklist,
            }
        },
    }
}

/// What to do with a new clipboard text.
#[derive(Debug)]
pub enum ClipboardStep {
    /// Leave it, for this reason.
    Leave(ClipboardVerdict),
    /// Leave it: the blacklist does not compile, with this message.
    Refuse(String),
    /// Shorten this URL; the text is the trimmed clipboard text.
    Shorten(UrlParts, String),
}

/// The verdict a step carries.
pub open spec fn step_verdict(step: ClipboardStep) -> ClipboardVerdict {
    match step {
        ClipboardStep::Leave(v) => v,
        ClipboardStep::Refuse(_) => ClipboardVerdict::BadBlacklist,
        ClipboardStep::Shorten(_, _) => ClipboardVerdict::Shorten,
    }
}

/// `s` once the undo's echo has been consumed.
pub open spec fn echo_consumed(s: AppState) -> AppState {
    AppState { bypass_undo_write: false, ..s }
}

/// `s` once `t` has been sent for shortening.
pub open spec fn attempted(s: AppState, t: String) -> AppState {
    AppState { last_attempted_long_url: Some(t), ..s }
}

/// Decides what a new clipboard `text` leads to, as [`clipboard_verdict`]
/// states it, and notes what the decision changes: the undo's echo is
/// consumed, and a URL sent for shortening is remembered.
pub fn clipboard_step(state: &mut AppState, text: &str, shift: bool, scroll_lock: bool) -> (r: ClipboardStep)
    ensures
        step_verdict(r) == clipboard_verdict(*old(state), text@, shift, scroll_lock),
        clipboard_verdict(*old(state), text@, shift, scroll_lock) == ClipboardVerdict::Shorten ==> r is Shorten,
        clipboard_verdict(*old(state), text@, shift, scroll_lock) == ClipboardVerdict::BadBlacklist ==> r is Refuse,
        match r {
            ClipboardStep::Leave(ClipboardVerdict::UndoEcho) => *final(state) == echo_consumed(*old(state)),
            ClipboardStep::Shorten(u, t) => {
                &&& t@ == trimmed(text@)
                &&& clipboard_url(text@) == Some(u@)
                &&& *final(state) == attempted(*old(state), final(state).last_attempted_long_url->Some_0)
                &&& final(state).last_attempted_long_url matches Some(a)
                &&& a@ == t@
            },
            ClipboardStep::Refuse(m) => {
                &&& *final(state) == *old(state)
                &&& clipboard_url(text@) matches Some(u)
                &&& blacklist_verdict(old(state).config.blacklist_regex@, u.serialization) == Err::<bool, Seq<char>>(m@)
            },
            _ => *final(state) == *old(state),
        },
{
    let t = trim(text);
    let url = match parse_url_parts(t) {
        Some(u) => u,
        None => return ClipboardStep::Leave(ClipboardVerdict::NotAUrl),
    };
    if url.scheme.as_str().unicode_len() <= 1 || same_text(url.scheme.as_str(), "file") {
        return ClipboardStep::Leave(ClipboardVerdict::NotAUrl);
    }
    if state.bypass_undo_write {
        state.bypass_undo_write = false;
        return ClipboardStep::Leave(ClipboardVerdict::UndoEcho);
    }
    let repeated = state.config.bypass_double_copy && match &state.last_attempted_long_url {
        Some(last) => same_text(last.as_str(), t),
        None => false,
    };
    if repeated || (state.config.bypass_shift_key && shift) || (state.config.bypass_scroll_lock && scroll_lock) {
        return ClipboardStep::Leave(ClipboardVerdict::Bypassed);
    }
    if !state.enabled {
        return ClipboardStep::Leave(ClipboardVerdict::Disabled);
    }
    match is_blacklisted(&url, &state.config) {
        Ok(true) => ClipboardStep::Leave(ClipboardVerdict::Blacklisted),
        Ok(false) => {
            state.last_attempted_long_url = Some(String::from_str(t));
            ClipboardStep::Shorten(url, String::from_str(t))
        },
        Err(ShortenError::BadBlacklist(m)) => ClipboardStep::Refuse(m),
        Err(_) => ClipboardStep::Refuse(String::new()),
    }
}

/// `s` once `long_url` was shortened to `short_url`, with `history` the
/// refreshed recent links.
pub open spec fn recorded(s: AppState, long_url: String, short_url: String, history: Vec<(String, String)>) -> AppState {
    AppState {
        last_undo_pair: Some((long_url, short_url)),
        history,
        needs_menu_rebuild: true,
        ..s
    }
}

/// Notes a shortening the clipboard now holds: it becomes what the undo
/// reverts, the recent links are replaced, and the menu is to be rebuilt.
pub fn record_shortened(state: &mut AppState, long_url: String, short_url: String, history: Vec<(String, String)>)
    ensures
        *final(state) == recorded(*old(state), long_url, short_url, history),
{
    state.last_undo_pair = Some((long_url, short_url));
    state.history = history;
    state.needs_menu_rebuild = true;
}

/// What the undo hotkey leads to.
#[derive(Debug)]
pub enum UndoStep {
    /// The undo is switched off.
    Disabled,
    /// There is nothing to undo.
    NothingToUndo,
    /// Delete the short link on every server and put the long URL back.
    Restore { long_url: String, short_url: String, deletes: Vec<ApiRequest> },
}

/// `s` once its last shortening has been undone: nothing is left to undo,
/// and the clipboard write that follows is the undo's own.
pub open spec fn undone(s: AppState) -> AppState {
    AppState { bypass_undo_write: true, last_undo_pair: None, ..s }
}

/// The deletions an undo of `short_url` sends: one per complete server for
/// its id, none when it has no id.
pub open spec fn undo_deletes(s: AppState, short_url: Seq<char>) -> Seq<(Seq<char>, Seq<char>)> {
    if slug_of(short_url).len() == 0 {
        Seq::empty()
    } else {
        batch(server_views(s.config.servers@), None, delete_query(slug_of(short_url)))
    }
}

/// What the undo hotkey does in state `s`: with the undo on and a
/// shortening to undo, put back its long URL and send the deletions of its
/// short URL; otherwise nothing.
pub open spec fn undo_plan(s: AppState) -> Option<(Seq<char>, Seq<char>, Seq<(Seq<char>, Seq<char>)>)> {
    if s.config.enable_undo && s.last_undo_pair is Some {
        let (l, sh) = s.last_undo_pair->Some_0;
        Some((l@, sh@, undo_deletes(s, sh@)))
    } else {
        None
    }
}

/// Decides what the undo hotkey does: with the undo on and a shortening to
/// undo, delete its short link everywhere and restore its long URL.
pub fn undo_step(state: &mut AppState) -> (r: UndoStep)
    ensures
        !old(state).config.enable_undo ==> r is Disabled && *final(state) == *old(state),
        old(state).config.enable_undo && old(state).last_undo_pair is None ==> r is NothingToUndo
            && *final(state) == *old(state),
        old(state).config.enable_undo && old(state).last_undo_pair is Some ==> ({
            let (l, s) = old(state).last_undo_pair->Some_0;
            &&& r matches UndoStep::Restore { long_url, short_url, deletes }
            &&& long_url == l
            &&& short_url == s
            &&& request_views(deletes@) == undo_deletes(*old(state), s@)
            &&& *final(state) == undone(*old(state))
        }),
        match r {
            UndoStep::Restore { long_url, short_url, deletes } => undo_plan(*old(state)) == Some(
                (long_url@, short_url@, request_views(deletes@)),
            ),
            _ => undo_plan(*old(state)) is None,
        },
{
    if !state.config.enable_undo {
        return UndoStep::Disabled;
    }
    let pair = state.last_undo_pair.take();
    match pair {
        None => UndoStep::NothingToUndo,
        Some((long_url, short_url)) => {
            let keyword = slug(short_url.as_str());
            let deletes = if keyword.as_str().unicode_len() == 0 {
                let none: Vec<ApiRequest> = Vec::new();
                assert(request_views(none@) =~= Seq::<(Seq<char>, Seq<char>)>::empty());
                none
            } else {
                delete_requests(&state.config.servers, keyword.as_str())
            };
            state.bypass_undo_write = true;
            UndoStep::Restore { long_url, short_url, deletes }
        },
    }
}

/// A command from the tray's menu or icon.
pub enum MenuCommand {
    /// The monitoring check box, now in this state.
    SetEnabled(bool),
    /// The double-copy bypass check box, now in this state.
    SetBypassDoubleCopy(bool),
    /// The Shift bypass check box, now in this state.
    SetBypassShiftKey(bool),
    /// The Scroll Lock bypass check box, now in this state.
    SetBypassScrollLock(bool),
    /// The undo hotkey check box, now in this state.
    SetUndo(bool),
    /// The `Random` server entry.
    SelectRandom,
    /// The entry of the server with this name.
    SelectServer(String),
    /// The mirroring check box, now in this state.
    SetShortenOnAll(bool),
    /// A left click on the icon.
    IconClicked,
    /// The title entry.
    Title,
    /// The update check entry.
    CheckForUpdates,
    /// The configuration entry.
    EditConfig,
    /// The exit entry.
    Exit,
    /// A recent link's entry, with its short URL.
    HistoryItem(String),
}

/// What the caller does after a menu command.
#[derive(Debug, PartialEq, Eq)]
pub enum MenuEffect {
    /// Nothing more.
    Nothing,
    /// Write the configuration to its file.
    SaveConfig,
    /// Open the project's page.
    OpenRepository,
    /// Check for a new release and report either way.
    CheckForUpdates,
    /// Open the configuration file in an editor.
    OpenConfigFile,
    /// Quit.
    Exit,
    /// Put this short URL on the clipboard.
    CopyToClipboard(String),
}

/// `s` with its configuration replaced by `c` and the menu to be rebuilt.
pub open spec fn reconfigured(s: AppState, c: Config) -> AppState {
    AppState { config: c, needs_menu_rebuild: true, ..s }
}

/// `s` after a click on the icon: monitoring switched over.
pub open spec fn clicked(s: AppState) -> AppState {
    AppState { enabled: !s.enabled, needs_menu_rebuild: true, ..s }
}

/// Applies a menu command to the state and says what the caller must do.
/// Each check box sets its switch to the box's state; a choice of server
/// sets `selected_server`; every change of the configuration is saved; a
/// click on the icon switches monitoring over.
pub fn apply_menu_command(state: &mut AppState, command: MenuCommand) -> (r: MenuEffect)
    ensures
        match command {
            MenuCommand::SetEnabled(b) => r is Nothing && *final(state) == (AppState {
                enabled: b,
                needs_menu_rebuild: true,
                ..*old(state)
            }),
            MenuCommand::SetBypassDoubleCopy(b) => r is SaveConfig && *final(state) == reconfigured(
                *old(state),
                (Config { bypass_double_copy: b, ..old(state).config }),
            ),
            MenuCommand::SetBypassShiftKey(b) => r is SaveConfig && *final(state) == reconfigured(
                *old(state),
                (Config { bypass_shift_key: b, ..old(state).config }),
            ),
            MenuCommand::SetBypassScrollLock(b) => r is SaveConfig && *final(state) == reconfigured(
                *old(state),
                (Config { bypass_scroll_lock: b, ..old(state).config }),
            ),
            MenuCommand::SetUndo(b) => r is SaveConfig && *final(state) == reconfigured(
                *old(state),
                (Config { enable_undo: b, ..old(state).config }),
            ),
            MenuCommand::SelectRandom => r is SaveConfig && final(state).config.selected_server@ == "Random"@
                && *final(state) == reconfigured(
                *old(state),
                (Config { selected_server: final(state).config.selected_server, ..old(state).config }),
            ),
            MenuCommand::SelectServer(name) => r is SaveConfig && *final(state) == reconfigured(
                *old(state),
                (Config { selected_server: name, ..old(state).config }),
            ),
            MenuCommand::SetShortenOnAll(b) => r is SaveConfig && *final(state) == reconfigured(
                *old(state),
                (Config { shorten_on_all: b, ..old(state).config }),
            ),
            MenuCommand::IconClicked => r is Nothing && *final(state) == clicked(*old(state)),
            MenuCommand::Title => r is OpenRepository && *final(state) == *old(state),
            MenuCommand::CheckForUpdates => r is CheckForUpdates && *final(state) == *old(state),
            MenuCommand::EditConfig => r is OpenConfigFile && *final(state) == *old(state),
            MenuCommand::Exit => r is Exit && *final(state) == *old(state),
            MenuCommand::HistoryItem(u) => r == MenuEffect::CopyToClipboard(u) && *final(state) == *old(state),
        },
{
    match command {
        MenuCommand::SetEnabled(b) => {
            state.enabled = b;
            state.needs_menu_rebuild = true;
            MenuEffect::Nothing
        },
        MenuCommand::SetBypassDoubleCopy(b) => {
            state.config.bypass_double_copy = b;
            state.needs_menu_rebuild = true;
            MenuEffect::SaveConfig
        },
        MenuCommand::SetBypassShiftKey(b) => {
            state.config.bypass_shift_key = b;
            state.needs_menu_rebuild = true;
            MenuEffect::SaveConfig
        },
        MenuCommand::SetBypassScrollLock(b) => {
            state.config.bypass_scroll_lock = b;
            state.needs_menu_rebuild = true;
            MenuEffect::SaveConfig
        },
        MenuCommand::SetUndo(b) => {
            state.config.enable_undo = b;
            state.needs_menu_rebuild = true;
            MenuEffect::SaveConfig
        },
        MenuCommand::SelectRandom => {
            state.config.selected_server = String::from_str("Random");
            state.needs_menu_rebuild = true;
            MenuEffect::SaveConfig
        },
        MenuCommand::SelectServer(name) => {
            state.config.selected_server = name;
            state.needs_menu_rebuild = true;
            MenuEffect::SaveConfig
        },
        MenuCommand::SetShortenOnAll(b) => {
            state.config.shorten_on_all = b;
            state.needs_menu_rebuild = true;
            MenuEffect::SaveConfig
        },
        MenuCommand::IconClicked => {
            state.enabled = !state.enabled;
            state.needs_menu_rebuild = true;
            MenuEffect::Nothing
        },
        MenuCommand::Title => MenuEffect::OpenRepository,
        MenuCommand::CheckForUpdates => MenuEffect::CheckForUpdates,
        MenuCommand::EditConfig => MenuEffect::OpenConfigFile,
        MenuCommand::Exit => MenuEffect::Exit,
        MenuCommand::HistoryItem(u) => MenuEffect::CopyToClipboard(u),
    }
}

/// Whether the menu is due for a rebuild; asking clears the request.
pub fn take_rebuild(state: &mut AppState) -> (r: bool)
    ensures
        r == old(state).needs_menu_rebuild,
        *final(state) == (AppState { needs_menu_rebuild: false, ..*old(state) }),
{
    let due = state.needs_menu_rebuild;
    state.needs_menu_rebuild = false;
    due
}

/// The clipboard write an undo makes is not shortened again: whatever URL
/// comes next is taken as the undo's echo and left alone, once.
pub proof fn law_undo_write_is_not_shortened_again(s: AppState, text: Seq<char>, shift: bool, scroll_lock: bool)
    requires
        clipboard_url(text) is Some,
    ensures
        clipboard_verdict(undone(s), text, shift, scroll_lock) == ClipboardVerdict::UndoEcho,
        !echo_consumed(undone(s)).bypass_undo_write,
{
}

/// The undo reverts the last shortening recorded: it puts that long URL
/// back and deletes that short URL's id on every complete server; after it
/// there is nothing left to undo, and the clipboard write that follows is
/// its own.
pub proof fn law_undo_reverts_last_shortening(s: AppState, long_url: String, short_url: String, history: Vec<(String, String)>)
    requires
        s.config.enable_undo,
    ensures
        undo_plan(recorded(s, long_url, short_url, history)) == Some(
            (long_url@, short_url@, undo_deletes(s, short_url@)),
        ),
        undo_plan(undone(recorded(s, long_url, short_url, history))) is None,
        undone(recorded(s, long_url, short_url, history)).bypass_undo_write,
{
}

/// The request that deletes the short link with the id `id` on `server`:
/// its API URL with its signature and the delete action for that id.
pub open spec fn deletion(server: ServerView, id: Seq<char>) -> (Seq<char>, Seq<char>) {
    (server.name, server.api_url + "?signature="@ + server.signature + "&action=delete&shorturl="@ + id
        + "&format=json"@)
}

/// Whether `request` is the deletion of the id `id` on one of the complete
/// servers among `servers`.
pub open spec fn deletes_on_a_complete_server(servers: Seq<ServerConfig>, request: (Seq<char>, Seq<char>), id: Seq<char>) -> bool {
    exists|i: int| 0 <= i < servers.len() && is_complete(#[trigger] servers[i]@) && request == deletion(servers[i]@, id)
}

proof fn lemma_deletion_comes_from_a_complete_server(s: AppState, short_url: Seq<char>, k: int)
    requires
        0 <= k < undo_deletes(s, short_url).len(),
    ensures
        deletes_on_a_complete_server(s.config.servers@, undo_deletes(s, short_url)[k], slug_of(short_url)),
{
    let sv = server_views(s.config.servers@);
    let id = slug_of(short_url);
    let q = delete_query(id);
    let pred = |v: ServerView| takes_part(v, None);
    let f = |v: ServerView| (v.name, api_call(v, q));
    let fl = sv.filter(pred);
    assert(undo_deletes(s, short_url) == fl.map_values(f));
    sv.lemma_filter_pred(pred, k);
    assert(fl.contains(fl[k]));
    sv.lemma_filter_contains_rev(pred, fl[k]);
    let i = choose|i: int| 0 <= i < sv.len() && sv[i] == fl[k];
    assert(sv[i] == s.config.servers@[i]@);
    assert(api_call(fl[k], q) =~= deletion(fl[k], id).1);
    assert(undo_deletes(s, short_url)[k] == deletion(s.config.servers@[i]@, id));
}

/// The undo of a short URL with an id deletes that id on every complete
/// server and sends nothing else: every complete server gets the deletion,
/// each request is the deletion on some complete server, and there are as
/// many as there are complete servers. A short URL without an id sends
/// nothing.
pub proof fn law_undo_deletes_the_id_on_every_complete_server(s: AppState, short_url: Seq<char>)
    ensures
        slug_of(short_url).len() == 0 ==> undo_deletes(s, short_url).len() == 0,
        slug_of(short_url).len() > 0 ==> forall|i: int|
            0 <= i < s.config.servers@.len() && is_complete(#[trigger] s.config.servers@[i]@) ==> undo_deletes(
                s,
                short_url,
            ).contains(deletion(s.config.servers@[i]@, slug_of(short_url))),
        forall|k: int|
            0 <= k < undo_deletes(s, short_url).len() ==> deletes_on_a_complete_server(
                s.config.servers@,
                #[trigger] undo_deletes(s, short_url)[k],
                slug_of(short_url),
            ),
        slug_of(short_url).len() > 0 ==> undo_deletes(s, short_url).len() == server_views(s.config.servers@).filter(
            |v: ServerView| is_complete(v),
        ).len(),
{
    let sv = server_views(s.config.servers@);
    let id = slug_of(short_url);
    let q = delete_query(id);
    let pred = |v: ServerView| takes_part(v, None);
    let f = |v: ServerView| (v.name, api_call(v, q));
    let fl = sv.filter(pred);
    assert forall|k: int| 0 <= k < undo_deletes(s, short_url).len() implies deletes_on_a_complete_server(
        s.config.servers@,
        #[trigger] undo_deletes(s, short_url)[k],
        slug_of(short_url),
    ) by {
        lemma_deletion_comes_from_a_complete_server(s, short_url, k);
    }
    if id.len() > 0 {
        assert(undo_deletes(s, short_url) == fl.map_values(f));
        assert forall|v: ServerView| #[trigger] f(v) == deletion(v, id) by {
            assert(api_call(v, q) =~= deletion(v, id).1);
        }
        assert forall|i: int|
            0 <= i < s.config.servers@.len() && is_complete(#[trigger] s.config.servers@[i]@) implies undo_deletes(
                s,
                short_url,
            ).contains(deletion(s.config.servers@[i]@, id)) by {
            assert(sv[i] == s.config.servers@[i]@);
            sv.lemma_filter_contains(pred, i);
            let j = choose|j: int| 0 <= j < fl.len() && fl[j] == sv[i];
            assert(fl.map_values(f)[j] == f(sv[i]));
        }
        assert((|v: ServerView| is_complete(v)) =~= pred);
    } else {
        assert(undo_deletes(s, short_url).len() == 0);
    }
}

/// Shift and Scroll Lock leave a copy alone only while their bypass is
/// switched on: with a bypass off, its key changes nothing. With it on,
/// the key leaves any URL alone that is not the undo's own write.
pub proof fn law_key_bypasses_apply_only_when_on(s: AppState, text: Seq<char>, shift: bool, scroll_lock: bool)
    ensures
        !s.config.bypass_scroll_lock ==> clipboard_verdict(s, text, shift, true) == clipboard_verdict(
            s,
            text,
            shift,
            false,
        ),
        !s.config.bypass_shift_key ==> clipboard_verdict(s, text, true, scroll_lock) == clipboard_verdict(
            s,
            text,
            false,
            scroll_lock,
        ),
        s.config.bypass_scroll_lock && clipboard_url(text) is Some && !s.bypass_undo_write ==> clipboard_verdict(
            s,
            text,
            shift,
            true,
        ) == ClipboardVerdict::Bypassed,
        s.config.bypass_shift_key && clipboard_url(text) is Some && !s.bypass_undo_write ==> clipboard_verdict(
            s,
            text,
            true,
            scroll_lock,
        ) == ClipboardVerdict::Bypassed,
        !s.config.bypass_double_copy ==> clipboard_verdict(s, text, shift, scroll_lock) == clipboard_verdict(
            AppState { last_attempted_long_url: None, ..s },
            text,
            shift,
            scroll_lock,
        ),
{
}

/// A URL is shortened when nothing stands in its way: it is not the undo's
/// write, no bypass applies, monitoring is on, and the blacklist compiles
/// and does not name it.
pub proof fn law_allowed_url_is_shortened(s: AppState, text: Seq<char>, shift: bool, scroll_lock: bool)
    requires
        clipboard_url(text) is Some,
        !s.bypass_undo_write,
        !(s.config.bypass_double_copy && (s.last_attempted_long_url matches Some(t) && t@ == trimmed(text))),
        !(s.config.bypass_shift_key && shift),
        !(s.config.bypass_scroll_lock && scroll_lock),
        s.enabled,
        blacklist_verdict(s.config.blacklist_regex@, clipboard_url(text)->Some_0.serialization) == Ok::<
            bool,
            Seq<char>,
        >(false),
    ensures
        clipboard_verdict(s, text, shift, scroll_lock) == ClipboardVerdict::Shorten,
{
}

/// With the double-copy bypass on, a URL copied again right after it was
/// sent for shortening is left alone the second time.
pub proof fn law_second_copy_is_left_alone(s: AppState, text: Seq<char>, t: String, shift: bool, scroll_lock: bool, long_url: String, short_url: String, history: Vec<(String, String)>, shift2: bool, scroll_lock2: bool)
    requires
        s.config.bypass_double_copy,
        clipboard_verdict(s, text, shift, scroll_lock) == ClipboardVerdict::Shorten,
        t@ == trimmed(text),
    ensures
        clipboard_verdict(attempted(s, t), text, shift2, scroll_lock2) == ClipboardVerdict::Bypassed,
        clipboard_verdict(recorded(attempted(s, t), long_url, short_url, history), text, shift2, scroll_lock2)
            == ClipboardVerdict::Bypassed,
{
}

/// Nothing is shortened while monitoring is off, nor anything the
/// blacklist names, nor anything at all while the blacklist does not
/// compile.
pub proof fn law_only_allowed_urls_are_shortened(s: AppState, text: Seq<char>, shift: bool, scroll_lock: bool)
    requires
        clipboard_verdict(s, text, shift, scroll_lock) == ClipboardVerdict::Shorten,
    ensures
        s.enabled,
        clipboard_url(text) matches Some(u) && blacklist_verdict(s.config.blacklist_regex@, u.serialization)
            == Ok::<bool, Seq<char>>(false),
        !(s.config.bypass_shift_key && shift),
        !(s.config.bypass_scroll_lock && scroll_lock),
{
}

/// Two clicks on the icon leave monitoring as it was.
pub proof fn law_two_clicks_restore_monitoring(s: AppState)
    ensures
        clicked(clicked(s)).enabled == s.enabled,
{
}

/// The length in bytes of the UTF-8 encoding of `s`.
pub open spec fn utf8_len(s: Seq<char>) -> nat {
    vstd::utf8::encode_utf8(s).len()
}

/// Whether the first `k` characters of `s` take exactly `bytes` bytes.
pub open spec fn cut_at_bytes(s: Seq<char>, k: int, bytes: nat) -> bool {
    0 <= k <= s.len() && utf8_len(s.take(k)) == bytes
}

/// The number of bytes UTF-8 takes for `c`.
pub open spec fn char_width(c: char) -> nat {
    let v = c as u32;
    if v <= 0x7F {
        1
    } else if v <= 0x7FF {
        2
    } else if v <= 0xFFFF {
        3
    } else {
        4
    }
}

proof fn lemma_encode_push(a: Seq<char>, c: char)
    ensures
        vstd::utf8::encode_utf8(a.push(c)) == vstd::utf8::encode_utf8(a) + vstd::utf8::encode_scalar(c as u32),
    decreases a.len(),
{
    if a.len() == 0 {
        assert(a.push(c).drop_first() =~= Seq::<char>::empty());
        assert(vstd::utf8::encode_utf8(Seq::<char>::empty()) =~= Seq::<u8>::empty());
        assert(vstd::utf8::encode_utf8(a.push(c)) =~= vstd::utf8::encode_scalar(c as u32));
        assert(vstd::utf8::encode_utf8(a) =~= Seq::<u8>::empty());
    } else {
        assert(a.push(c).drop_first() =~= a.drop_first().push(c));
        lemma_encode_push(a.drop_first(), c);
        assert(a.push(c)[0] == a[0]);
    }
}

proof fn lemma_width(c: char)
    ensures
        vstd::utf8::encode_scalar(c as u32).len() == char_width(c),
{
    broadcast use vstd::utf8::char_is_scalar;
    assert(vstd::utf8::is_scalar(c as u32));
}

proof fn lemma_len_step(s: Seq<char>, k: int)
    requires
        0 <= k < s.len(),
    ensures
        utf8_len(s.take(k + 1)) == utf8_len(s.take(k)) + char_width(s[k]),
{
    assert(s.take(k + 1) =~= s.take(k).push(s[k]));
    lemma_encode_push(s.take(k), s[k]);
    lemma_width(s[k]);
}

proof fn lemma_len_grows(s: Seq<char>, i: int, j: int)
    requires
        0 <= i <= j <= s.len(),
    ensures
        utf8_len(s.take(i)) + (j - i) <= utf8_len(s.take(j)),
    decreases j - i,
{
    if i < j {
        lemma_len_grows(s, i, j - 1);
        lemma_len_step(s, j - 1);
    }
}

fn width_of(c: char) -> (w: usize)
    ensures
        w == char_width(c),
{
    let v = c as u32;
    if v <= 0x7F {
        1
    } else if v <= 0x7FF {
        2
    } else if v <= 0xFFFF {
        3
    } else {
        4
    }
}

/// The text of a recent link's menu entry: the long URL, cut to its first
/// 47 bytes and `...` when it is longer than 50 bytes. (The cut must fall
/// between two characters.)
pub fn history_label(long_url: &str) -> (r: String)
    requires
        utf8_len(long_url@) > 50 ==> exists|k: int| cut_at_bytes(long_url@, k, 47),
    ensures
        utf8_len(long_url@) <= 50 ==> r@ == long_url@,
        utf8_len(long_url@) > 50 ==> exists|k: int|
            cut_at_bytes(long_url@, k, 47) && r@ == long_url@.take(k) + "..."@,
{
    let ghost s = long_url@;
    let n = long_url.unicode_len();
    let mut k: usize = 0;
    let mut acc: usize = 0;
    let mut cut: Option<usize> = None;
    assert(s.take(0) =~= Seq::<char>::empty());
    assert(vstd::utf8::encode_utf8(Seq::<char>::empty()) =~= Seq::<u8>::empty());
    while k < n && acc <= 50
        invariant
            n == s.len(),
            s == long_url@,
            k <= n,
            acc == utf8_len(s.take(k as int)),
            acc <= 54,
            match cut {
                Some(c) => c < k && cut_at_bytes(s, c as int, 47),
                None => forall|j: int| 0 <= j < k ==> !cut_at_bytes(s, j, 47),
            },
        decreases n - k,
    {
        if acc == 47 && cut.is_none() {
            cut = Some(k);
        }
        proof {
            lemma_len_step(s, k as int);
        }
        acc = acc + width_of(long_url.get_char(k));
        k = k + 1;
    }
    if acc <= 50 {
        assert(s.take(k as int) =~= s);
        return String::from_str(long_url);
    }
    proof {
        lemma_len_grows(s, k as int, n as int);
        assert(s.take(n as int) =~= s);
    }
    let c = match cut {
        Some(c) => c,
        None => {
            proof {
                let j = choose|j: int| cut_at_bytes(s, j, 47);
                if j >= k {
                    lemma_len_grows(s, k as int, j);
                }
                assert(false);
            }
            0
        },
    };
    let head = long_url.substring_char(0, c);
    assert(head@ =~= s.take(c as int));
    let mut label = String::from_str(head);
    label.append("...");
    label
}

} // verus!
