//! What a configuration file is for: which setting each of its entries changes,
//! what it leaves as it is, and which files are refused.

use crate::app_model::{AppView, Focus, Mode};
use crate::config::{
    bound, known_provider, named_key, named_theme, parsed_keys, provider_name, ConfigErrorView,
    ConfigView, FileView, KeyCode, KeysView,
};
use crate::config_text::{
    bindings_upto, bound_names, file_of, texts_upto, unknown_from, LLM_FIELDS, SECTIONS,
    THEME_FIELDS,
};
use crate::fuzzy::strs;
use crate::key_laws::{is_bound, is_live, Action};
use crate::panel_lists::hints;
use crate::text::{contains_text, is_blank, stands_at, trimmed};
use crate::toml_doc::{found, FieldView, ValueView};
use vstd::prelude::*;
use vstd::string::*;

verus! {

/// The name of an action in a configuration file.
pub open spec fn action_name(action: Action) -> Seq<char> {
    match action {
        Action::NavDown => "nav_down"@,
        Action::NavUp => "nav_up"@,
        Action::Stage => "stage"@,
        Action::Discard => "discard"@,
        Action::Commit => "commit"@,
        Action::Refresh => "refresh"@,
        Action::Quit => "quit"@,
        Action::FocusNext => "focus_next"@,
        Action::FocusStatus => "focus_status"@,
        Action::FocusBranches => "focus_branches"@,
        Action::FocusLog => "focus_log"@,
        Action::FocusStash => "focus_stash"@,
        Action::FocusDiff => "focus_diff"@,
        Action::ScrollUp => "scroll_up"@,
        Action::ScrollDown => "scroll_down"@,
        Action::BranchNew => "branch_new"@,
        Action::BranchDelete => "branch_delete"@,
        Action::Checkout => "checkout"@,
        Action::StashPop => "stash_pop"@,
        Action::StashPush => "stash_push"@,
        Action::StashDrop => "stash_drop"@,
        Action::FindFiles => "find_files"@,
        Action::ProjectNext => "project_next"@,
        Action::ProjectPrev => "project_prev"@,
        Action::ProjectOpen => "project_open"@,
        Action::ProjectClose => "project_close"@,
        Action::SyncPull => "sync_pull"@,
        Action::SyncPush => "sync_push"@,
        Action::LlmSettings => "llm_settings"@,
        Action::ToggleMarkdown => "toggle_markdown_preview"@,
    }
}

/// The keys that an action is bound to.
pub open spec fn keys_of(keys: KeysView, action: Action) -> Seq<KeyCode> {
    match action {
        Action::NavDown => keys.nav_down,
        Action::NavUp => keys.nav_up,
        Action::Stage => keys.stage,
        Action::Discard => keys.discard,
        Action::Commit => keys.commit,
        Action::Refresh => keys.refresh,
        Action::Quit => keys.quit,
        Action::FocusNext => keys.focus_next,
        Action::FocusStatus => keys.focus_status,
        Action::FocusBranches => keys.focus_branches,
        Action::FocusLog => keys.focus_log,
        Action::FocusStash => keys.focus_stash,
        Action::FocusDiff => keys.focus_diff,
        Action::ScrollUp => keys.scroll_up,
        Action::ScrollDown => keys.scroll_down,
        Action::BranchNew => keys.branch_new,
        Action::BranchDelete => keys.branch_delete,
        Action::Checkout => keys.checkout,
        Action::StashPop => keys.stash_pop,
        Action::StashPush => keys.stash_push,
        Action::StashDrop => keys.stash_drop,
        Action::FindFiles => keys.find_files,
        Action::ProjectNext => keys.project_next,
        Action::ProjectPrev => keys.project_prev,
        Action::ProjectOpen => keys.project_open,
        Action::ProjectClose => keys.project_close,
        Action::SyncPull => keys.sync_pull,
        Action::SyncPush => keys.sync_push,
        Action::LlmSettings => keys.llm_settings,
        Action::ToggleMarkdown => keys.toggle_markdown_preview,
    }
}

/// No two actions have the same name.
#[verifier::rlimit(60)]
#[verifier::spinoff_prover]
proof fn lemma_names_differ(a: Action, b: Action)
    requires
        a != b,
    ensures
        action_name(a) != action_name(b),
{
    reveal_strlit("nav_down");
    reveal_strlit("nav_up");
    reveal_strlit("stage");
    reveal_strlit("discard");
    reveal_strlit("commit");
    reveal_strlit("refresh");
    reveal_strlit("quit");
    reveal_strlit("focus_next");
    reveal_strlit("focus_status");
    reveal_strlit("focus_branches");
    reveal_strlit("focus_log");
    reveal_strlit("focus_stash");
    reveal_strlit("focus_diff");
    reveal_strlit("scroll_up");
    reveal_strlit("scroll_down");
    reveal_strlit("branch_new");
    reveal_strlit("branch_delete");
    reveal_strlit("checkout");
    reveal_strlit("stash_pop");
    reveal_strlit("stash_push");
    reveal_strlit("stash_drop");
    reveal_strlit("find_files");
    reveal_strlit("project_next");
    reveal_strlit("project_prev");
    reveal_strlit("project_open");
    reveal_strlit("project_close");
    reveal_strlit("sync_pull");
    reveal_strlit("sync_push");
    reveal_strlit("llm_settings");
    reveal_strlit("toggle_markdown_preview");
    assert("quit"@.len() == 4);
    assert("stage"@.len() == 5);
    assert("nav_up"@.len() == 6 && "nav_up"@[0] == 'n');
    assert("commit"@.len() == 6 && "commit"@[0] == 'c');
    assert("discard"@.len() == 7 && "discard"@[0] == 'd');
    assert("refresh"@.len() == 7 && "refresh"@[0] == 'r');
    assert("nav_down"@.len() == 8 && "nav_down"@[0] == 'n');
    assert("checkout"@.len() == 8 && "checkout"@[0] == 'c');
    assert("focus_log"@.len() == 9 && "focus_log"@[0] == 'f' && "focus_log"@[7] == 'o');
    assert("scroll_up"@.len() == 9 && "scroll_up"@[0] == 's' && "scroll_up"@[7] == 'u');
    assert("stash_pop"@.len() == 9 && "stash_pop"@[0] == 's' && "stash_pop"@[7] == 'o');
    assert("sync_pull"@.len() == 9 && "sync_pull"@[0] == 's' && "sync_pull"@[7] == 'l');
    assert("sync_push"@.len() == 9 && "sync_push"@[0] == 's' && "sync_push"@[7] == 's');
    assert("focus_next"@.len() == 10 && "focus_next"@[7] == 'e');
    assert("focus_diff"@.len() == 10 && "focus_diff"@[7] == 'i');
    assert("branch_new"@.len() == 10 && "branch_new"@[7] == 'n');
    assert("stash_push"@.len() == 10 && "stash_push"@[7] == 'u');
    assert("stash_drop"@.len() == 10 && "stash_drop"@[7] == 'r');
    assert("find_files"@.len() == 10 && "find_files"@[7] == 'l');
    assert("focus_stash"@.len() == 11 && "focus_stash"@[0] == 'f');
    assert("scroll_down"@.len() == 11 && "scroll_down"@[0] == 's');
    assert("focus_status"@.len() == 12 && "focus_status"@[8] == 'a');
    assert("project_next"@.len() == 12 && "project_next"@[8] == 'n');
    assert("project_prev"@.len() == 12 && "project_prev"@[8] == 'p');
    assert("project_open"@.len() == 12 && "project_open"@[8] == 'o');
    assert("llm_settings"@.len() == 12 && "llm_settings"@[8] == 'i');
    assert("branch_delete"@.len() == 13 && "branch_delete"@[0] == 'b');
    assert("project_close"@.len() == 13 && "project_close"@[0] == 'p');
    assert("focus_branches"@.len() == 14);
    assert("toggle_markdown_preview"@.len() == 23);
}

/// Binding an action binds it to these keys, and leaves every other action as it
/// was.
#[verifier::rlimit(60)]
#[verifier::spinoff_prover]
pub proof fn law_binding_replaces_one_action(
    keys: KeysView,
    action: Action,
    to: Seq<KeyCode>,
    other: Action,
)
    ensures
        keys.with(action_name(action), to) is Some,
        keys_of(keys.with(action_name(action), to)->0, action) == to,
        other != action ==> keys_of(keys.with(action_name(action), to)->0, other) == keys_of(
            keys,
            other,
        ),
{
    if action != Action::NavDown {
        lemma_names_differ(action, Action::NavDown);
    }
    if action != Action::NavUp {
        lemma_names_differ(action, Action::NavUp);
    }
    if action != Action::Stage {
        lemma_names_differ(action, Action::Stage);
    }
    if action != Action::Discard {
        lemma_names_differ(action, Action::Discard);
    }
    if action != Action::Commit {
        lemma_names_differ(action, Action::Commit);
    }
    if action != Action::Refresh {
        lemma_names_differ(action, Action::Refresh);
    }
    if action != Action::Quit {
        lemma_names_differ(action, Action::Quit);
    }
    if action != Action::FocusNext {
        lemma_names_differ(action, Action::FocusNext);
    }
    if action != Action::FocusStatus {
        lemma_names_differ(action, Action::FocusStatus);
    }
    if action != Action::FocusBranches {
        lemma_names_differ(action, Action::FocusBranches);
    }
    if action != Action::FocusLog {
        lemma_names_differ(action, Action::FocusLog);
    }
    if action != Action::FocusStash {
        lemma_names_differ(action, Action::FocusStash);
    }
    if action != Action::FocusDiff {
        lemma_names_differ(action, Action::FocusDiff);
    }
    if action != Action::ScrollUp {
        lemma_names_differ(action, Action::ScrollUp);
    }
    if action != Action::ScrollDown {
        lemma_names_differ(action, Action::ScrollDown);
    }
    if action != Action::BranchNew {
        lemma_names_differ(action, Action::BranchNew);
    }
    if action != Action::BranchDelete {
        lemma_names_differ(action, Action::BranchDelete);
    }
    if action != Action::Checkout {
        lemma_names_differ(action, Action::Checkout);
    }
    if action != Action::StashPop {
        lemma_names_differ(action, Action::StashPop);
    }
    if action != Action::StashPush {
        lemma_names_differ(action, Action::StashPush);
    }
    if action != Action::StashDrop {
        lemma_names_differ(action, Action::StashDrop);
    }
    if action != Action::FindFiles {
        lemma_names_differ(action, Action::FindFiles);
    }
    if action != Action::ProjectNext {
        lemma_names_differ(action, Action::ProjectNext);
    }
    if action != Action::ProjectPrev {
        lemma_names_differ(action, Action::ProjectPrev);
    }
    if action != Action::ProjectOpen {
        lemma_names_differ(action, Action::ProjectOpen);
    }
    if action != Action::ProjectClose {
        lemma_names_differ(action, Action::ProjectClose);
    }
    if action != Action::SyncPull {
        lemma_names_differ(action, Action::SyncPull);
    }
    if action != Action::SyncPush {
        lemma_names_differ(action, Action::SyncPush);
    }
    if action != Action::LlmSettings {
        lemma_names_differ(action, Action::LlmSettings);
    }
    if action != Action::ToggleMarkdown {
        lemma_names_differ(action, Action::ToggleMarkdown);
    }
}

/// A name that is none of an action's binds nothing.
pub proof fn law_unknown_actions_are_refused(keys: KeysView, name: Seq<char>, to: Seq<KeyCode>)
    requires
        forall|action: Action| name != #[trigger] action_name(action),
    ensures
        keys.with(name, to) is None,
{
    assert(name != action_name(Action::NavDown));
    assert(name != action_name(Action::NavUp));
    assert(name != action_name(Action::Stage));
    assert(name != action_name(Action::Discard));
    assert(name != action_name(Action::Commit));
    assert(name != action_name(Action::Refresh));
    assert(name != action_name(Action::Quit));
    assert(name != action_name(Action::FocusNext));
    assert(name != action_name(Action::FocusStatus));
    assert(name != action_name(Action::FocusBranches));
    assert(name != action_name(Action::FocusLog));
    assert(name != action_name(Action::FocusStash));
    assert(name != action_name(Action::FocusDiff));
    assert(name != action_name(Action::ScrollUp));
    assert(name != action_name(Action::ScrollDown));
    assert(name != action_name(Action::BranchNew));
    assert(name != action_name(Action::BranchDelete));
    assert(name != action_name(Action::Checkout));
    assert(name != action_name(Action::StashPop));
    assert(name != action_name(Action::StashPush));
    assert(name != action_name(Action::StashDrop));
    assert(name != action_name(Action::FindFiles));
    assert(name != action_name(Action::ProjectNext));
    assert(name != action_name(Action::ProjectPrev));
    assert(name != action_name(Action::ProjectOpen));
    assert(name != action_name(Action::ProjectClose));
    assert(name != action_name(Action::SyncPull));
    assert(name != action_name(Action::SyncPush));
    assert(name != action_name(Action::LlmSettings));
    assert(name != action_name(Action::ToggleMarkdown));
}

/// The name of a key in a configuration file, for the keys that have one.
pub open spec fn key_name(key: KeyCode) -> Option<Seq<char>> {
    match key {
        KeyCode::Char(c) => if c == ' ' {
            Some("space"@)
        } else {
            Some(seq![c])
        },
        KeyCode::Tab => Some("tab"@),
        KeyCode::Enter => Some("enter"@),
        KeyCode::Esc => Some("esc"@),
        KeyCode::Backspace => Some("backspace"@),
        KeyCode::Delete => Some("delete"@),
        KeyCode::Insert => Some("insert"@),
        KeyCode::Up => Some("up"@),
        KeyCode::Down => Some("down"@),
        KeyCode::Left => Some("left"@),
        KeyCode::Right => Some("right"@),
        KeyCode::PageUp => Some("pageup"@),
        KeyCode::PageDown => Some("pagedown"@),
        KeyCode::Home => Some("home"@),
        KeyCode::End => Some("end"@),
        _ => None,
    }
}

/// The name of a key is read as that key; a name of one character is that
/// character.
#[verifier::rlimit(40)]
pub proof fn law_key_names_are_read(key: KeyCode)
    requires
        key_name(key) is Some,
    ensures
        named_key(key_name(key)->0) == Some(key),
{
    reveal_strlit("space");
    reveal_strlit("tab");
    reveal_strlit("enter");
    reveal_strlit("esc");
    reveal_strlit("backspace");
    reveal_strlit("delete");
    reveal_strlit("insert");
    reveal_strlit("up");
    reveal_strlit("down");
    reveal_strlit("left");
    reveal_strlit("right");
    reveal_strlit("pageup");
    reveal_strlit("pagedown");
    reveal_strlit("home");
    reveal_strlit("end");
    assert("up"@.len() == 2);
    assert("tab"@.len() == 3 && "tab"@[1] == 'a');
    assert("esc"@.len() == 3 && "esc"@[1] == 's');
    assert("end"@.len() == 3 && "end"@[1] == 'n');
    assert("down"@.len() == 4 && "down"@[0] == 'd');
    assert("left"@.len() == 4 && "left"@[0] == 'l');
    assert("home"@.len() == 4 && "home"@[0] == 'h');
    assert("space"@.len() == 5 && "space"@[0] == 's');
    assert("enter"@.len() == 5 && "enter"@[0] == 'e');
    assert("right"@.len() == 5 && "right"@[0] == 'r');
    assert("delete"@.len() == 6 && "delete"@[0] == 'd');
    assert("insert"@.len() == 6 && "insert"@[0] == 'i');
    assert("pageup"@.len() == 6 && "pageup"@[0] == 'p');
    assert("pagedown"@.len() == 8);
    assert("backspace"@.len() == 9);
}

/// A name of more than one character that is no key's is refused.
pub proof fn law_unknown_keys_are_refused(name: Seq<char>)
    requires
        name.len() != 1,
        forall|key: KeyCode| #[trigger] key_name(key) != Some(name),
    ensures
        named_key(name) is None,
{
    assert(key_name(KeyCode::Char(' ')) == Some("space"@));
    assert(key_name(KeyCode::Tab) == Some("tab"@));
    assert(key_name(KeyCode::Enter) == Some("enter"@));
    assert(key_name(KeyCode::Esc) == Some("esc"@));
    assert(key_name(KeyCode::Backspace) == Some("backspace"@));
    assert(key_name(KeyCode::Delete) == Some("delete"@));
    assert(key_name(KeyCode::Insert) == Some("insert"@));
    assert(key_name(KeyCode::Up) == Some("up"@));
    assert(key_name(KeyCode::Down) == Some("down"@));
    assert(key_name(KeyCode::Left) == Some("left"@));
    assert(key_name(KeyCode::Right) == Some("right"@));
    assert(key_name(KeyCode::PageUp) == Some("pageup"@));
    assert(key_name(KeyCode::PageDown) == Some("pagedown"@));
    assert(key_name(KeyCode::Home) == Some("home"@));
    assert(key_name(KeyCode::End) == Some("end"@));
}

/// Whether an entry of the `[keys]` section can be taken: there is such an
/// action, and it is given at least one key and nothing but keys.
pub open spec fn is_binding(entry: (Seq<char>, Seq<Seq<char>>)) -> bool {
    &&& exists|action: Action| entry.0 == #[trigger] action_name(action)
    &&& entry.1.len() > 0
    &&& forall|i: int| 0 <= i < entry.1.len() ==> named_key(#[trigger] entry.1[i]) is Some
}

proof fn lemma_parsed_keys(names: Seq<Seq<char>>, k: nat)
    requires
        k <= names.len(),
    ensures
        parsed_keys(names, k) is Ok <==> forall|i: int|
            0 <= i < k ==> named_key(#[trigger] names[i]) is Some,
        parsed_keys(names, k) matches Ok(keys) ==> keys == Seq::new(
            k,
            |i: int| named_key(names[i])->0,
        ),
    decreases k,
{
    if k > 0 {
        lemma_parsed_keys(names, (k - 1) as nat);
        if let Ok(keys) = parsed_keys(names, k) {
            assert(keys =~= Seq::new(k, |i: int| named_key(names[i])->0));
        }
        if parsed_keys(names, k) is Err && parsed_keys(names, (k - 1) as nat) is Ok {
            assert(named_key(names[k - 1]) is None);
        }
    } else if let Ok(keys) = parsed_keys(names, k) {
        assert(keys =~= Seq::new(k, |i: int| named_key(names[i])->0));
    }
}

proof fn lemma_with_is_known(keys: KeysView, name: Seq<char>, to: Seq<KeyCode>)
    ensures
        keys.with(name, to) is Some <==> exists|action: Action|
            name == #[trigger] action_name(action),
{
    if exists|action: Action| name == #[trigger] action_name(action) {
        let action = choose|action: Action| name == #[trigger] action_name(action);
        law_binding_replaces_one_action(keys, action, to, action);
    } else {
        law_unknown_actions_are_refused(keys, name, to);
    }
}

/// The keys of a file are taken exactly when every entry can be. An action that
/// no entry names keeps the keys that it has out of the box; one that is named
/// has the keys of the last entry that names it, in their order.
pub proof fn law_keys_are_bound(
    entries: Seq<(Seq<char>, Seq<Seq<char>>)>,
    k: nat,
    action: Action,
)
    requires
        k <= entries.len(),
    ensures
        bound(entries, k) is Ok <==> forall|i: int|
            0 <= i < k ==> is_binding(#[trigger] entries[i]),
        bound(entries, k) is Ok && (forall|i: int|
            0 <= i < k ==> (#[trigger] entries[i]).0 != action_name(action)) ==> keys_of(
            bound(entries, k)->Ok_0,
            action,
        ) == keys_of(KeysView::defaults(), action),
        forall|j: int|
            #![trigger entries[j]]
            bound(entries, k) is Ok && 0 <= j < k && entries[j].0 == action_name(action) && (
            forall|i: int| j < i < k ==> (#[trigger] entries[i]).0 != action_name(action))
                ==> keys_of(bound(entries, k)->Ok_0, action) == Seq::new(
                entries[j].1.len(),
                |i: int| named_key(entries[j].1[i])->0,
            ),
    decreases k,
{
    if k > 0 {
        law_keys_are_bound(entries, (k - 1) as nat, action);
        let (name, names) = entries[k - 1];
        lemma_parsed_keys(names, names.len());
        if let Ok(before) = bound(entries, (k - 1) as nat) {
            if let Ok(keys) = parsed_keys(names, names.len()) {
                lemma_with_is_known(before, name, keys);
                if exists|a: Action| name == #[trigger] action_name(a) {
                    let a = choose|a: Action| name == #[trigger] action_name(a);
                    law_binding_replaces_one_action(before, a, keys, action);
                    if a != action {
                        lemma_names_differ(a, action);
                    }
                }
            }
            assert(bound(entries, k) is Ok == is_binding(entries[k - 1]));
        }
    }
}

/// A file is taken exactly when there is nothing wrong in it: its bindings, its
/// theme and its provider are known, and neither the model nor the address is
/// blank.
pub proof fn law_files_are_checked(file: FileView)
    ensures
        ConfigView::of(file) is Ok <==> {
            &&& forall|i: int| 0 <= i < file.keys.len() ==> is_binding(#[trigger] file.keys[i])
            &&& file.theme is Some ==> named_theme(file.theme->0) is Some
            &&& file.provider is Some ==> known_provider(provider_name(file.provider->0))
            &&& file.model is Some ==> !is_blank(file.model->0)
            &&& file.base_url is Some ==> !is_blank(file.base_url->0)
        },
{
    law_keys_are_bound(file.keys, file.keys.len(), Action::Quit);
}

/// Each setting of a file goes to its own place, without white space around it;
/// what the file does not say stays as it is out of the box.
pub proof fn law_settings_are_taken(file: FileView)
    requires
        ConfigView::of(file) is Ok,
    ensures
        ({
            let config = ConfigView::of(file)->Ok_0;
            let base = ConfigView::defaults();
            &&& file.theme is None ==> config.theme == base.theme
            &&& file.theme is Some ==> named_theme(file.theme->0) == Some(config.theme)
            &&& config.llm.provider == (match file.provider {
                Some(text) => provider_name(text),
                None => base.llm.provider,
            })
            &&& config.llm.model == (match file.model {
                Some(text) => trimmed(text),
                None => base.llm.model,
            })
            &&& config.llm.api_key == (match file.api_key {
                Some(text) => trimmed(text),
                None => base.llm.api_key,
            })
            &&& config.llm.base_url == (match file.base_url {
                Some(text) => Some(trimmed(text)),
                None => None,
            })
            &&& file.keys.len() == 0 ==> config.keys == base.keys
        }),
{
}

/// The text of a field of a table, if it has one.
pub open spec fn text_in(
    fields: Seq<(Seq<char>, FieldView)>,
    name: Seq<char>,
) -> Option<Seq<char>> {
    match found(fields, name) {
        Some(FieldView::Text(text)) => Some(text),
        _ => None,
    }
}

/// A document is read section by section: the settings of the model from `[llm]`
/// and the name of the theme from `[theme]`, each from the field of its name. A
/// section that is not there asks for nothing.
pub proof fn law_sections_are_read(
    doc: Seq<(Seq<char>, ValueView)>,
    llm: Seq<(Seq<char>, FieldView)>,
    theme: Seq<(Seq<char>, FieldView)>,
)
    requires
        file_of(doc) is Ok,
    ensures
        ({
            let file = file_of(doc)->Ok_0;
            &&& found(doc, "llm"@) == Some(ValueView::Table(llm)) ==> {
                &&& file.provider == text_in(llm, "provider"@)
                &&& file.model == text_in(llm, "model"@)
                &&& file.api_key == text_in(llm, "api_key"@)
                &&& file.base_url == text_in(llm, "base_url"@)
            }
            &&& found(doc, "llm"@) is None ==> {
                &&& file.provider is None
                &&& file.model is None
                &&& file.api_key is None
                &&& file.base_url is None
            }
            &&& found(doc, "theme"@) == Some(ValueView::Table(theme)) ==> file.theme == text_in(
                theme,
                "name"@,
            )
            &&& found(doc, "theme"@) is None ==> file.theme is None
            &&& found(doc, "keys"@) is None ==> file.keys.len() == 0
        }),
{
    reveal_with_fuel(texts_upto, 5);
    assert(strs(LLM_FIELDS@).len() == 4);
    assert(strs(THEME_FIELDS@).len() == 1);
}

/// The entries of `[keys]` are read one by one and in order: a text is one key, a
/// list is all of its own.
pub proof fn law_bindings_are_read(
    doc: Seq<(Seq<char>, ValueView)>,
    fields: Seq<(Seq<char>, FieldView)>,
    i: int,
)
    requires
        file_of(doc) is Ok,
        found(doc, "keys"@) == Some(ValueView::Table(fields)),
        0 <= i < fields.len(),
    ensures
        ({
            let keys = file_of(doc)->Ok_0.keys;
            &&& keys.len() == fields.len()
            &&& keys[i].0 == fields[i].0
            &&& (fields[i].1 matches FieldView::Text(name) ==> keys[i].1 == seq![name])
            &&& (fields[i].1 matches FieldView::List(items) ==> keys[i].1.len() == items.len()
                && forall|j: int| 0 <= j < items.len() ==> items[j] == Some(#[trigger] keys[i].1[j]))
        }),
{
    lemma_bindings(fields, fields.len(), i);
}

proof fn lemma_bindings(fields: Seq<(Seq<char>, FieldView)>, k: nat, i: int)
    requires
        k <= fields.len(),
        bindings_upto(fields, k) is Ok,
    ensures
        bindings_upto(fields, k)->Ok_0.len() == k,
        0 <= i < k ==> bindings_upto(fields, k)->Ok_0[i].0 == fields[i].0 && bound_names(
            fields[i].0,
            fields[i].1,
        ) == Ok::<Seq<Seq<char>>, ConfigErrorView>(bindings_upto(fields, k)->Ok_0[i].1),
    decreases k,
{
    if k > 0 {
        lemma_bindings(fields, (k - 1) as nat, i);
    }
}

/// A document with a section that is not known is refused.
pub proof fn law_unknown_sections_are_refused(doc: Seq<(Seq<char>, ValueView)>, i: int)
    requires
        0 <= i < doc.len(),
        doc[i].0 != "keys"@,
        doc[i].0 != "theme"@,
        doc[i].0 != "llm"@,
    ensures
        file_of(doc) is Err,
{
    assert(!strs(SECTIONS@).contains(doc[i].0)) by {
        if strs(SECTIONS@).contains(doc[i].0) {
            let j = choose|j: int| 0 <= j < strs(SECTIONS@).len() && strs(SECTIONS@)[j] == doc[i].0;
            assert(j == 0 || j == 1 || j == 2);
        }
    }
    lemma_unknown(doc, strs(SECTIONS@), 0, i);
}

proof fn lemma_unknown(
    doc: Seq<(Seq<char>, ValueView)>,
    known: Seq<Seq<char>>,
    from: nat,
    i: int,
)
    requires
        from <= i < doc.len(),
        !known.contains(doc[i].0),
    ensures
        unknown_from(doc, known, from) is Some,
    decreases i - from,
{
    if from < i {
        lemma_unknown(doc, known, from + 1, i);
    }
}

/// The panel whose footer names an action, the key that it names for it, and how.
pub open spec fn named_in_footer(action: Action) -> Option<(Focus, KeyCode, Seq<char>)> {
    match action {
        Action::Stage => Some((Focus::Status, KeyCode::Char(' '), "space stage"@)),
        Action::Commit => Some((Focus::Status, KeyCode::Char('c'), "c commit"@)),
        Action::LlmSettings => Some((Focus::Status, KeyCode::Char('A'), "A llm"@)),
        Action::SyncPull => Some((Focus::Status, KeyCode::Char('p'), "p pull"@)),
        Action::SyncPush => Some((Focus::Status, KeyCode::Char('P'), "P push"@)),
        Action::FindFiles => Some((Focus::Status, KeyCode::Char('/'), "/ find"@)),
        Action::ProjectOpen => Some((Focus::Status, KeyCode::Char('o'), "o open"@)),
        Action::Refresh => Some((Focus::Status, KeyCode::Char('r'), "r refresh"@)),
        Action::ProjectClose => Some((Focus::Status, KeyCode::Char('q'), "q close"@)),
        Action::Quit => Some((Focus::Status, KeyCode::Char('Q'), "Q quit"@)),
        Action::Checkout => Some((Focus::Branches, KeyCode::Enter, "enter checkout"@)),
        Action::BranchNew => Some((Focus::Branches, KeyCode::Char('a'), "a new branch"@)),
        Action::BranchDelete => Some((Focus::Branches, KeyCode::Char('D'), "D delete"@)),
        Action::FocusNext => Some((Focus::Branches, KeyCode::Tab, "tab commits"@)),
        Action::NavDown => Some((Focus::Log, KeyCode::Char('j'), "j/k scroll"@)),
        Action::NavUp => Some((Focus::Log, KeyCode::Char('k'), "k scroll"@)),
        Action::StashPop => Some((Focus::Stash, KeyCode::Enter, "enter pop"@)),
        Action::StashPush => Some((Focus::Stash, KeyCode::Char('a'), "a stash"@)),
        Action::StashDrop => Some((Focus::Stash, KeyCode::Char('D'), "D drop"@)),
        Action::ScrollUp => Some((Focus::Diff, KeyCode::PageUp, "PgUp"@)),
        Action::ScrollDown => Some((Focus::Diff, KeyCode::PageDown, "PgDn page"@)),
        Action::FocusStatus => Some((Focus::Diff, KeyCode::Char('1'), "1 files"@)),
        Action::FocusDiff => Some((Focus::Status, KeyCode::Char('5'), "5 file"@)),
        _ => None,
    }
}

/// The footer and the keys out of the box agree: the key that the footer of a
/// panel names for an action is bound to it.
#[verifier::rlimit(40)]
pub proof fn law_footer_agrees_with_keys(app: AppView, action: Action)
    requires
        app.mode == Mode::Normal,
        named_in_footer(action) is Some,
        (named_in_footer(action)->0).0 == app.focus,
    ensures
        is_bound(KeysView::defaults(), (named_in_footer(action)->0).1, action),
        contains_text(hints(app), (named_in_footer(action)->0).2),
{
    let keys = KeysView::defaults();
    let (_, key, part) = named_in_footer(action)->0;
    let at: int = match action {
        Action::Stage => {
            reveal_strlit("space stage · ▶ dir all · c commit · A llm · p pull · P push · / find · enter diff · Shift+→/5 file · o open · r refresh · q close · Q quit");
            reveal_strlit("space stage");
            assert(keys.stage[0] == key);
            0
        },
        Action::Commit => {
            reveal_strlit("space stage · ▶ dir all · c commit · A llm · p pull · P push · / find · enter diff · Shift+→/5 file · o open · r refresh · q close · Q quit");
            reveal_strlit("c commit");
            assert(keys.commit[0] == key);
            26
        },
        Action::LlmSettings => {
            reveal_strlit("space stage · ▶ dir all · c commit · A llm · p pull · P push · / find · enter diff · Shift+→/5 file · o open · r refresh · q close · Q quit");
            reveal_strlit("A llm");
            assert(keys.llm_settings[0] == key);
            37
        },
        Action::SyncPull => {
            reveal_strlit("space stage · ▶ dir all · c commit · A llm · p pull · P push · / find · enter diff · Shift+→/5 file · o open · r refresh · q close · Q quit");
            reveal_strlit("p pull");
            assert(keys.sync_pull[0] == key);
            45
        },
        Action::SyncPush => {
            reveal_strlit("space stage · ▶ dir all · c commit · A llm · p pull · P push · / find · enter diff · Shift+→/5 file · o open · r refresh · q close · Q quit");
            reveal_strlit("P push");
            assert(keys.sync_push[0] == key);
            54
        },
        Action::FindFiles => {
            reveal_strlit("space stage · ▶ dir all · c commit · A llm · p pull · P push · / find · enter diff · Shift+→/5 file · o open · r refresh · q close · Q quit");
            reveal_strlit("/ find");
            assert(keys.find_files[0] == key);
            63
        },
        Action::ProjectOpen => {
            reveal_strlit("space stage · ▶ dir all · c commit · A llm · p pull · P push · / find · enter diff · Shift+→/5 file · o open · r refresh · q close · Q quit");
            reveal_strlit("o open");
            assert(keys.project_open[0] == key);
            102
        },
        Action::Refresh => {
            reveal_strlit("space stage · ▶ dir all · c commit · A llm · p pull · P push · / find · enter diff · Shift+→/5 file · o open · r refresh · q close · Q quit");
            reveal_strlit("r refresh");
            assert(keys.refresh[0] == key);
            111
        },
        Action::ProjectClose => {
            reveal_strlit("space stage · ▶ dir all · c commit · A llm · p pull · P push · / find · enter diff · Shift+→/5 file · o open · r refresh · q close · Q quit");
            reveal_strlit("q close");
            assert(keys.project_close[0] == key);
            123
        },
        Action::Quit => {
            reveal_strlit("space stage · ▶ dir all · c commit · A llm · p pull · P push · / find · enter diff · Shift+→/5 file · o open · r refresh · q close · Q quit");
            reveal_strlit("Q quit");
            assert(keys.quit[0] == key);
            133
        },
        Action::Checkout => {
            reveal_strlit("enter checkout · a new branch · D delete · tab commits · q close · Q quit");
            reveal_strlit("enter checkout");
            assert(keys.checkout[0] == key);
            0
        },
        Action::BranchNew => {
            reveal_strlit("enter checkout · a new branch · D delete · tab commits · q close · Q quit");
            reveal_strlit("a new branch");
            assert(keys.branch_new[0] == key);
            17
        },
        Action::BranchDelete => {
            reveal_strlit("enter checkout · a new branch · D delete · tab commits · q close · Q quit");
            reveal_strlit("D delete");
            assert(keys.branch_delete[0] == key);
            32
        },
        Action::FocusNext => {
            reveal_strlit("enter checkout · a new branch · D delete · tab commits · q close · Q quit");
            reveal_strlit("tab commits");
            assert(keys.focus_next[0] == key);
            43
        },
        Action::NavDown => {
            reveal_strlit("j/k scroll · tab stash · r refresh · q close · Q quit");
            reveal_strlit("j/k scroll");
            assert(keys.nav_down[0] == key);
            0
        },
        Action::NavUp => {
            reveal_strlit("j/k scroll · tab stash · r refresh · q close · Q quit");
            reveal_strlit("k scroll");
            assert(keys.nav_up[0] == key);
            2
        },
        Action::StashPop => {
            reveal_strlit("enter pop · a stash · D drop · tab files · q close · Q quit");
            reveal_strlit("enter pop");
            assert(keys.stash_pop[0] == key);
            0
        },
        Action::StashPush => {
            reveal_strlit("enter pop · a stash · D drop · tab files · q close · Q quit");
            reveal_strlit("a stash");
            assert(keys.stash_push[0] == key);
            12
        },
        Action::StashDrop => {
            reveal_strlit("enter pop · a stash · D drop · tab files · q close · Q quit");
            reveal_strlit("D drop");
            assert(keys.stash_drop[0] == key);
            22
        },
        Action::ScrollUp => {
            reveal_strlit("j/k/↑/↓ scroll file · PgUp/PgDn page · enter full screen · ←/1 files · tab files · q close · Q quit");
            reveal_strlit("PgUp");
            assert(keys.scroll_up[0] == key);
            22
        },
        Action::ScrollDown => {
            reveal_strlit("j/k/↑/↓ scroll file · PgUp/PgDn page · enter full screen · ←/1 files · tab files · q close · Q quit");
            reveal_strlit("PgDn page");
            assert(keys.scroll_down[0] == key);
            27
        },
        Action::FocusStatus => {
            reveal_strlit("j/k/↑/↓ scroll file · PgUp/PgDn page · enter full screen · ←/1 files · tab files · q close · Q quit");
            reveal_strlit("1 files");
            assert(keys.focus_status[0] == key);
            61
        },
        Action::FocusDiff => {
            reveal_strlit("space stage · ▶ dir all · c commit · A llm · p pull · P push · / find · enter diff · Shift+→/5 file · o open · r refresh · q close · Q quit");
            reveal_strlit("5 file");
            assert(keys.focus_diff[0] == key);
            93
        },
        _ => 0,
    };
    let text = hints(app);
    assert(text.subrange(at, at + part.len()) =~= part);
    assert(stands_at(text, part, at));
}

/// Out of the box no key of a panel stands for two things.
#[verifier::rlimit(60)]
pub proof fn law_default_keys_are_clear(key: KeyCode, focus: Focus, a: Action, b: Action)
    requires
        is_bound(KeysView::defaults(), key, a),
        is_bound(KeysView::defaults(), key, b),
        is_live(a, focus),
        is_live(b, focus),
    ensures
        a == b,
{
    lemma_default_key(key, a);
    lemma_default_key(key, b);
}

/// The keys that an action has out of the box.
proof fn lemma_default_key(key: KeyCode, action: Action)
    requires
        is_bound(KeysView::defaults(), key, action),
    ensures
        match action {
            Action::NavDown => key == KeyCode::Char('j') || key == KeyCode::Down,
            Action::NavUp => key == KeyCode::Char('k') || key == KeyCode::Up,
            Action::Stage => key == KeyCode::Char(' ') || key == KeyCode::Char('s'),
            Action::Discard => key == KeyCode::Char('d'),
            Action::Commit => key == KeyCode::Char('c'),
            Action::Refresh => key == KeyCode::Char('r'),
            Action::Quit => key == KeyCode::Char('Q'),
            Action::FocusNext => key == KeyCode::Tab,
            Action::FocusStatus => key == KeyCode::Char('1') || key == KeyCode::Left,
            Action::FocusBranches => key == KeyCode::Char('2'),
            Action::FocusLog => key == KeyCode::Char('3'),
            Action::FocusStash => key == KeyCode::Char('4'),
            Action::FocusDiff => key == KeyCode::Char('5'),
            Action::ScrollUp => key == KeyCode::PageUp,
            Action::ScrollDown => key == KeyCode::PageDown,
            Action::BranchNew => key == KeyCode::Char('a'),
            Action::BranchDelete => key == KeyCode::Char('D'),
            Action::Checkout => key == KeyCode::Enter,
            Action::StashPop => key == KeyCode::Enter,
            Action::StashPush => key == KeyCode::Char('a'),
            Action::StashDrop => key == KeyCode::Char('D'),
            Action::FindFiles => key == KeyCode::Char('/'),
            Action::ProjectNext => key == KeyCode::Char(']'),
            Action::ProjectPrev => key == KeyCode::Char('['),
            Action::ProjectOpen => key == KeyCode::Char('o'),
            Action::ProjectClose => key == KeyCode::Char('q'),
            Action::SyncPull => key == KeyCode::Char('p'),
            Action::SyncPush => key == KeyCode::Char('P'),
            Action::LlmSettings => key == KeyCode::Char('A'),
            Action::ToggleMarkdown => key == KeyCode::Char('m'),
        },
{
    let keys = keys_of(KeysView::defaults(), action);
    let i = choose|i: int| 0 <= i < keys.len() && keys[i] == key;
    assert(i == 0 || i == 1);
}

} // verus!
