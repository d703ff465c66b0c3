//! Key bindings, LLM settings and the resolved configuration.

use crate::text::{is_blank, lemma_trim_bounds, lower, opt_text, same_text, texts, trim, trimmed};
use crate::theme::Theme;
use crate::toml_doc::{
    became, can_rewrite, can_write, marks_fit, pairs_view, rewritten, set_toml_table,
    spelled_marks_fit, written_view, DATE_NAME,
};
use vstd::prelude::*;
use vstd::string::*;
use vstd::utf8::is_ascii_chars;

verus! {

/// A key of the keyboard.
#[derive(Clone, Copy, Debug, PartialEq, Eq, Structural)]
pub enum KeyCode {
    Char(char),
    Enter,
    Esc,
    Tab,
    BackTab,
    Backspace,
    Delete,
    Insert,
    Up,
    Down,
    Left,
    Right,
    PageUp,
    PageDown,
    Home,
    End,
    F(u8),
    Other,
}

/// The key that a name stands for: a name of a special key, or the one
/// character of which the name consists.
pub open spec fn named_key(name: Seq<char>) -> Option<KeyCode> {
    if name == "space"@ {
        Some(KeyCode::Char(' '))
    } else if name == "tab"@ {
        Some(KeyCode::Tab)
    } else if name == "enter"@ {
        Some(KeyCode::Enter)
    } else if name == "esc"@ {
        Some(KeyCode::Esc)
    } else if name == "backspace"@ {
        Some(KeyCode::Backspace)
    } else if name == "delete"@ {
        Some(KeyCode::Delete)
    } else if name == "insert"@ {
        Some(KeyCode::Insert)
    } else if name == "up"@ {
        Some(KeyCode::Up)
    } else if name == "down"@ {
        Some(KeyCode::Down)
    } else if name == "left"@ {
        Some(KeyCode::Left)
    } else if name == "right"@ {
        Some(KeyCode::Right)
    } else if name == "pageup"@ {
        Some(KeyCode::PageUp)
    } else if name == "pagedown"@ {
        Some(KeyCode::PageDown)
    } else if name == "home"@ {
        Some(KeyCode::Home)
    } else if name == "end"@ {
        Some(KeyCode::End)
    } else if name.len() == 1 {
        Some(KeyCode::Char(name[0]))
    } else {
        None
    }
}

/// What is wrong with a configuration.
#[derive(Debug)]
pub enum ConfigError {
    UnknownKey { action: String, name: String },
    NoKeys { action: String },
    UnknownAction { action: String },
    UnknownTheme { name: String },
    UnknownProvider { provider: String },
    EmptyModel,
    EmptyBaseUrl,
    /// The text is no TOML.
    BadToml { why: String },
    UnknownSection { name: String },
    UnknownField { section: String, name: String },
    /// A name that something else stands behind than it should.
    WrongType { name: String },
}

/// What a [`ConfigError`] holds.
#[verifier::ext_equal]
pub enum ConfigErrorView {
    UnknownKey { action: Seq<char>, name: Seq<char> },
    NoKeys { action: Seq<char> },
    UnknownAction { action: Seq<char> },
    UnknownTheme { name: Seq<char> },
    UnknownProvider { provider: Seq<char> },
    EmptyModel,
    EmptyBaseUrl,
    BadToml { why: Seq<char> },
    UnknownSection { name: Seq<char> },
    UnknownField { section: Seq<char>, name: Seq<char> },
    WrongType { name: Seq<char> },
}

impl View for ConfigError {
    type V = ConfigErrorView;

    open spec fn view(&self) -> ConfigErrorView {
        match *self {
            ConfigError::UnknownKey { action, name } => ConfigErrorView::UnknownKey {
                action: action@,
                name: name@,
            },
            ConfigError::NoKeys { action } => ConfigErrorView::NoKeys { action: action@ },
            ConfigError::UnknownAction { action } => ConfigErrorView::UnknownAction {
                action: action@,
            },
            ConfigError::UnknownTheme { name } => ConfigErrorView::UnknownTheme { name: name@ },
            ConfigError::UnknownProvider { provider } => ConfigErrorView::UnknownProvider {
                provider: provider@,
            },
            ConfigError::EmptyModel => ConfigErrorView::EmptyModel,
            ConfigError::EmptyBaseUrl => ConfigErrorView::EmptyBaseUrl,
            ConfigError::BadToml { why } => ConfigErrorView::BadToml { why: why@ },
            ConfigError::UnknownSection { name } => ConfigErrorView::UnknownSection { name: name@ },
            ConfigError::UnknownField { section, name } => ConfigErrorView::UnknownField {
                section: section@,
                name: name@,
            },
            ConfigError::WrongType { name } => ConfigErrorView::WrongType { name: name@ },
        }
    }
}

/// The key of a name: a special key, or a single character.
pub fn parse_key(name: &str) -> (key: Option<KeyCode>)
    ensures
        key == named_key(name@),
{
    if same_text(name, "space") {
        Some(KeyCode::Char(' '))
    } else if same_text(name, "tab") {
        Some(KeyCode::Tab)
    } else if same_text(name, "enter") {
        Some(KeyCode::Enter)
    } else if same_text(name, "esc") {
        Some(KeyCode::Esc)
    } else if same_text(name, "backspace") {
        Some(KeyCode::Backspace)
    } else if same_text(name, "delete") {
        Some(KeyCode::Delete)
    } else if same_text(name, "insert") {
        Some(KeyCode::Insert)
    } else if same_text(name, "up") {
        Some(KeyCode::Up)
    } else if same_text(name, "down") {
        Some(KeyCode::Down)
    } else if same_text(name, "left") {
        Some(KeyCode::Left)
    } else if same_text(name, "right") {
        Some(KeyCode::Right)
    } else if same_text(name, "pageup") {
        Some(KeyCode::PageUp)
    } else if same_text(name, "pagedown") {
        Some(KeyCode::PageDown)
    } else if same_text(name, "home") {
        Some(KeyCode::Home)
    } else if same_text(name, "end") {
        Some(KeyCode::End)
    } else if name.unicode_len() == 1 {
        Some(KeyCode::Char(name.get_char(0)))
    } else {
        None
    }
}

/// The keys of each action.
#[derive(Debug)]
pub struct KeyBindings {
    pub nav_down: Vec<KeyCode>,
    pub nav_up: Vec<KeyCode>,
    pub stage: Vec<KeyCode>,
    /// Discard changes in the selected file.
    pub discard: Vec<KeyCode>,
    pub commit: Vec<KeyCode>,
    pub refresh: Vec<KeyCode>,
    pub quit: Vec<KeyCode>,
    pub focus_next: Vec<KeyCode>,
    pub focus_status: Vec<KeyCode>,
    pub focus_branches: Vec<KeyCode>,
    pub focus_log: Vec<KeyCode>,
    pub focus_stash: Vec<KeyCode>,
    pub focus_diff: Vec<KeyCode>,
    pub scroll_up: Vec<KeyCode>,
    pub scroll_down: Vec<KeyCode>,
    pub branch_new: Vec<KeyCode>,
    pub branch_delete: Vec<KeyCode>,
    pub checkout: Vec<KeyCode>,
    pub stash_pop: Vec<KeyCode>,
    pub stash_push: Vec<KeyCode>,
    pub stash_drop: Vec<KeyCode>,
    pub find_files: Vec<KeyCode>,
    pub project_next: Vec<KeyCode>,
    pub project_prev: Vec<KeyCode>,
    pub project_open: Vec<KeyCode>,
    pub project_close: Vec<KeyCode>,
    pub sync_pull: Vec<KeyCode>,
    pub sync_push: Vec<KeyCode>,
    /// Opens the LLM setup form.
    pub llm_settings: Vec<KeyCode>,
    /// Toggles the rendered Markdown preview.
    pub toggle_markdown_preview: Vec<KeyCode>,
}

/// What [`KeyBindings`] hold.
#[verifier::ext_equal]
pub struct KeysView {
    pub nav_down: Seq<KeyCode>,
    pub nav_up: Seq<KeyCode>,
    pub stage: Seq<KeyCode>,
    pub discard: Seq<KeyCode>,
    pub commit: Seq<KeyCode>,
    pub refresh: Seq<KeyCode>,
    pub quit: Seq<KeyCode>,
    pub focus_next: Seq<KeyCode>,
    pub focus_status: Seq<KeyCode>,
    pub focus_branches: Seq<KeyCode>,
    pub focus_log: Seq<KeyCode>,
    pub focus_stash: Seq<KeyCode>,
    pub focus_diff: Seq<KeyCode>,
    pub scroll_up: Seq<KeyCode>,
    pub scroll_down: Seq<KeyCode>,
    pub branch_new: Seq<KeyCode>,
    pub branch_delete: Seq<KeyCode>,
    pub checkout: Seq<KeyCode>,
    pub stash_pop: Seq<KeyCode>,
    pub stash_push: Seq<KeyCode>,
    pub stash_drop: Seq<KeyCode>,
    pub find_files: Seq<KeyCode>,
    pub project_next: Seq<KeyCode>,
    pub project_prev: Seq<KeyCode>,
    pub project_open: Seq<KeyCode>,
    pub project_close: Seq<KeyCode>,
    pub sync_pull: Seq<KeyCode>,
    pub sync_push: Seq<KeyCode>,
    pub llm_settings: Seq<KeyCode>,
    pub toggle_markdown_preview: Seq<KeyCode>,
}

impl View for KeyBindings {
    type V = KeysView;

    open spec fn view(&self) -> KeysView {
        KeysView {
            nav_down: self.nav_down@,
            nav_up: self.nav_up@,
            stage: self.stage@,
            discard: self.discard@,
            commit: self.commit@,
            refresh: self.refresh@,
            quit: self.quit@,
            focus_next: self.focus_next@,
            focus_status: self.focus_status@,
            focus_branches: self.focus_branches@,
            focus_log: self.focus_log@,
            focus_stash: self.focus_stash@,
            focus_diff: self.focus_diff@,
            scroll_up: self.scroll_up@,
            scroll_down: self.scroll_down@,
            branch_new: self.branch_new@,
            branch_delete: self.branch_delete@,
            checkout: self.checkout@,
            stash_pop: self.stash_pop@,
            stash_push: self.stash_push@,
            stash_drop: self.stash_drop@,
            find_files: self.find_files@,
            project_next: self.project_next@,
            project_prev: self.project_prev@,
            project_open: self.project_open@,
            project_close: self.project_close@,
            sync_pull: self.sync_pull@,
            sync_push: self.sync_push@,
            llm_settings: self.llm_settings@,
            toggle_markdown_preview: self.toggle_markdown_preview@,
        }
    }
}

impl KeysView {
    /// The keys out of the box.
    pub open spec fn defaults() -> KeysView {
        KeysView {
            nav_down: seq![KeyCode::Char('j'), KeyCode::Down],
            nav_up: seq![KeyCode::Char('k'), KeyCode::Up],
            stage: seq![KeyCode::Char(' '), KeyCode::Char('s')],
            discard: seq![KeyCode::Char('d')],
            commit: seq![KeyCode::Char('c')],
            refresh: seq![KeyCode::Char('r')],
            quit: seq![KeyCode::Char('Q')],
            focus_next: seq![KeyCode::Tab],
            focus_status: seq![KeyCode::Char('1'), KeyCode::Left],
            focus_branches: seq![KeyCode::Char('2')],
            focus_log: seq![KeyCode::Char('3')],
            focus_stash: seq![KeyCode::Char('4')],
            focus_diff: seq![KeyCode::Char('5')],
            scroll_up: seq![KeyCode::PageUp],
            scroll_down: seq![KeyCode::PageDown],
            branch_new: seq![KeyCode::Char('a')],
            branch_delete: seq![KeyCode::Char('D')],
            checkout: seq![KeyCode::Enter],
            stash_pop: seq![KeyCode::Enter],
            stash_push: seq![KeyCode::Char('a')],
            stash_drop: seq![KeyCode::Char('D')],
            find_files: seq![KeyCode::Char('/')],
            project_next: seq![KeyCode::Char(']')],
            project_prev: seq![KeyCode::Char('[')],
            project_open: seq![KeyCode::Char('o')],
            project_close: seq![KeyCode::Char('q')],
            sync_pull: seq![KeyCode::Char('p')],
            sync_push: seq![KeyCode::Char('P')],
            llm_settings: seq![KeyCode::Char('A')],
            toggle_markdown_preview: seq![KeyCode::Char('m')],
        }
    }

    /// The bindings with the keys of the named action replaced; none where
    /// there is no such action.
    pub open spec fn with(self, action: Seq<char>, keys: Seq<KeyCode>) -> Option<KeysView> {
        if action == "nav_down"@ {
            Some(KeysView { nav_down: keys, ..self })
        } else if action == "nav_up"@ {
            Some(KeysView { nav_up: keys, ..self })
        } else if action == "stage"@ {
            Some(KeysView { stage: keys, ..self })
        } else if action == "discard"@ {
            Some(KeysView { discard: keys, ..self })
        } else if action == "commit"@ {
            Some(KeysView { commit: keys, ..self })
        } else if action == "refresh"@ {
            Some(KeysView { refresh: keys, ..self })
        } else if action == "quit"@ {
            Some(KeysView { quit: keys, ..self })
        } else if action == "focus_next"@ {
            Some(KeysView { focus_next: keys, ..self })
        } else if action == "focus_status"@ {
            Some(KeysView { focus_status: keys, ..self })
        } else if action == "focus_branches"@ {
            Some(KeysView { focus_branches: keys, ..self })
        } else if action == "focus_log"@ {
            Some(KeysView { focus_log: keys, ..self })
        } else if action == "focus_stash"@ {
            Some(KeysView { focus_stash: keys, ..self })
        } else if action == "focus_diff"@ {
            Some(KeysView { focus_diff: keys, ..self })
        } else if action == "scroll_up"@ {
            Some(KeysView { scroll_up: keys, ..self })
        } else if action == "scroll_down"@ {
            Some(KeysView { scroll_down: keys, ..self })
        } else if action == "branch_new"@ {
            Some(KeysView { branch_new: keys, ..self })
        } else if action == "branch_delete"@ {
            Some(KeysView { branch_delete: keys, ..self })
        } else if action == "checkout"@ {
            Some(KeysView { checkout: keys, ..self })
        } else if action == "stash_pop"@ {
            Some(KeysView { stash_pop: keys, ..self })
        } else if action == "stash_push"@ {
            Some(KeysView { stash_push: keys, ..self })
        } else if action == "stash_drop"@ {
            Some(KeysView { stash_drop: keys, ..self })
        } else if action == "find_files"@ {
            Some(KeysView { find_files: keys, ..self })
        } else if action == "project_next"@ {
            Some(KeysView { project_next: keys, ..self })
        } else if action == "project_prev"@ {
            Some(KeysView { project_prev: keys, ..self })
        } else if action == "project_open"@ {
            Some(KeysView { project_open: keys, ..self })
        } else if action == "project_close"@ {
            Some(KeysView { project_close: keys, ..self })
        } else if action == "sync_pull"@ {
            Some(KeysView { sync_pull: keys, ..self })
        } else if action == "sync_push"@ {
            Some(KeysView { sync_push: keys, ..self })
        } else if action == "llm_settings"@ {
            Some(KeysView { llm_settings: keys, ..self })
        } else if action == "toggle_markdown_preview"@ {
            Some(KeysView { toggle_markdown_preview: keys, ..self })
        } else {
            None
        }
    }
}

/// A list of the given keys.
fn keys1(a: KeyCode) -> (v: Vec<KeyCode>)
    ensures
        v@ == seq![a],
{
    let mut v: Vec<KeyCode> = Vec::new();
    v.push(a);
    assert(v@ =~= seq![a]);
    v
}

fn keys2(a: KeyCode, b: KeyCode) -> (v: Vec<KeyCode>)
    ensures
        v@ == seq![a, b],
{
    let mut v: Vec<KeyCode> = Vec::new();
    v.push(a);
    v.push(b);
    assert(v@ =~= seq![a, b]);
    v
}

impl Default for KeyBindings {
    fn default() -> (keys: KeyBindings)
        ensures
            keys@ == KeysView::defaults(),
    {
        KeyBindings {
            nav_down: keys2(KeyCode::Char('j'), KeyCode::Down),
            nav_up: keys2(KeyCode::Char('k'), KeyCode::Up),
            stage: keys2(KeyCode::Char(' '), KeyCode::Char('s')),
            discard: keys1(KeyCode::Char('d')),
            commit: keys1(KeyCode::Char('c')),
            refresh: keys1(KeyCode::Char('r')),
            quit: keys1(KeyCode::Char('Q')),
            focus_next: keys1(KeyCode::Tab),
            focus_status: keys2(KeyCode::Char('1'), KeyCode::Left),
            focus_branches: keys1(KeyCode::Char('2')),
            focus_log: keys1(KeyCode::Char('3')),
            focus_stash: keys1(KeyCode::Char('4')),
            focus_diff: keys1(KeyCode::Char('5')),
            scroll_up: keys1(KeyCode::PageUp),
            scroll_down: keys1(KeyCode::PageDown),
            branch_new: keys1(KeyCode::Char('a')),
            branch_delete: keys1(KeyCode::Char('D')),
            checkout: keys1(KeyCode::Enter),
            stash_pop: keys1(KeyCode::Enter),
            stash_push: keys1(KeyCode::Char('a')),
            stash_drop: keys1(KeyCode::Char('D')),
            find_files: keys1(KeyCode::Char('/')),
            project_next: keys1(KeyCode::Char(']')),
            project_prev: keys1(KeyCode::Char('[')),
            project_open: keys1(KeyCode::Char('o')),
            project_close: keys1(KeyCode::Char('q')),
            sync_pull: keys1(KeyCode::Char('p')),
            sync_push: keys1(KeyCode::Char('P')),
            llm_settings: keys1(KeyCode::Char('A')),
            toggle_markdown_preview: keys1(KeyCode::Char('m')),
        }
    }
}

/// Whether an action has that key.
pub fn has_key(keys: &Vec<KeyCode>, code: KeyCode) -> (yes: bool)
    ensures
        yes == keys@.contains(code),
{
    let mut i: usize = 0;
    while i < keys.len()
        invariant
            i <= keys@.len(),
            forall|k: int| 0 <= k < i ==> keys@[k] != code,
        decreases keys@.len() - i,
    {
        if keys[i] == code {
            assert(keys@[i as int] == code);
            return true;
        }
        i += 1;
    }
    false
}

impl KeyBindings {
    /// Replaces the keys of the named action; says whether there is one.
    pub fn rebind(&mut self, action: &str, keys: Vec<KeyCode>) -> (known: bool)
        ensures
            known == (old(self)@.with(action@, keys@) is Some),
            known ==> Some(final(self)@) == old(self)@.with(action@, keys@),
            !known ==> final(self)@ == old(self)@,
    {
        if same_text(action, "nav_down") {
            self.nav_down = keys;
        } else if same_text(action, "nav_up") {
            self.nav_up = keys;
        } else if same_text(action, "stage") {
            self.stage = keys;
        } else if same_text(action, "discard") {
            self.discard = keys;
        } else if same_text(action, "commit") {
            self.commit = keys;
        } else if same_text(action, "refresh") {
            self.refresh = keys;
        } else if same_text(action, "quit") {
            self.quit = keys;
        } else if same_text(action, "focus_next") {
            self.focus_next = keys;
        } else if same_text(action, "focus_status") {
            self.focus_status = keys;
        } else if same_text(action, "focus_branches") {
            self.focus_branches = keys;
        } else if same_text(action, "focus_log") {
            self.focus_log = keys;
        } else if same_text(action, "focus_stash") {
            self.focus_stash = keys;
        } else if same_text(action, "focus_diff") {
            self.focus_diff = keys;
        } else if same_text(action, "scroll_up") {
            self.scroll_up = keys;
        } else if same_text(action, "scroll_down") {
            self.scroll_down = keys;
        } else if same_text(action, "branch_new") {
            self.branch_new = keys;
        } else if same_text(action, "branch_delete") {
            self.branch_delete = keys;
        } else if same_text(action, "checkout") {
            self.checkout = keys;
        } else if same_text(action, "stash_pop") {
            self.stash_pop = keys;
        } else if same_text(action, "stash_push") {
            self.stash_push = keys;
        } else if same_text(action, "stash_drop") {
            self.stash_drop = keys;
        } else if same_text(action, "find_files") {
            self.find_files = keys;
        } else if same_text(action, "project_next") {
            self.project_next = keys;
        } else if same_text(action, "project_prev") {
            self.project_prev = keys;
        } else if same_text(action, "project_open") {
            self.project_open = keys;
        } else if same_text(action, "project_close") {
            self.project_close = keys;
        } else if same_text(action, "sync_pull") {
            self.sync_pull = keys;
        } else if same_text(action, "sync_push") {
            self.sync_push = keys;
        } else if same_text(action, "llm_settings") {
            self.llm_settings = keys;
        } else if same_text(action, "toggle_markdown_preview") {
            self.toggle_markdown_preview = keys;
        } else {
            return false;
        }
        true
    }
}

/// Canonical action names for `[keys]`.
pub const ACTIONS: [&'static str; 30] = [
    "nav_down",
    "nav_up",
    "stage",
    "discard",
    "commit",
    "refresh",
    "quit",
    "focus_next",
    "focus_status",
    "focus_branches",
    "focus_log",
    "focus_stash",
    "focus_diff",
    "scroll_up",
    "scroll_down",
    "branch_new",
    "branch_delete",
    "checkout",
    "stash_pop",
    "stash_push",
    "stash_drop",
    "find_files",
    "project_next",
    "project_prev",
    "project_open",
    "project_close",
    "sync_pull",
    "sync_push",
    "llm_settings",
    "toggle_markdown_preview",
];

/// The theme of a name.
pub open spec fn named_theme(name: Seq<char>) -> Option<Theme> {
    if name == "default"@ {
        Some(Theme::default_theme())
    } else if name == "tokyo-night"@ {
        Some(Theme::tokyo_night())
    } else if name == "catppuccin"@ {
        Some(Theme::catppuccin())
    } else if name == "legacy"@ {
        Some(Theme::legacy())
    } else {
        None
    }
}

impl Theme {
    /// The theme of a name; an error that holds the name where there is none.
    pub fn by_name(name: &str) -> (theme: Result<Theme, ConfigError>)
        ensures
            (match theme {
                Ok(t) => named_theme(name@) == Some(t),
                Err(e) => named_theme(name@) is None && e@ == (ConfigErrorView::UnknownTheme {
                    name: name@,
                }),
            }),
    {
        if same_text(name, "default") {
            Ok(Theme::default_theme())
        } else if same_text(name, "tokyo-night") {
            Ok(Theme::tokyo_night())
        } else if same_text(name, "catppuccin") {
            Ok(Theme::catppuccin())
        } else if same_text(name, "legacy") {
            Ok(Theme::legacy())
        } else {
            Err(ConfigError::UnknownTheme { name: name.to_owned() })
        }
    }
}

/// The lower-case form of a text by the Unicode rules.
pub uninterp spec fn unicode_lower(s: Seq<char>) -> Seq<char>;

/// `str::to_lowercase`: a function of the text; on ASCII text, each letter in
/// lower case.
#[verifier::external_body]
pub(crate) fn lowercase(s: &str) -> (out: String)
    ensures
        out@ == unicode_lower(s@),
        is_ascii_chars(s@) ==> out@ == lower(s@),
{
    s.to_lowercase()
}

/// Which model writes commit messages, and how it is reached.
#[derive(Debug)]
pub struct LlmConfig {
    pub provider: String,
    pub model: String,
    pub api_key: String,
    pub base_url: Option<String>,
}

/// What an [`LlmConfig`] holds.
#[verifier::ext_equal]
pub struct LlmView {
    pub provider: Seq<char>,
    pub model: Seq<char>,
    pub api_key: Seq<char>,
    pub base_url: Option<Seq<char>>,
}

impl View for LlmConfig {
    type V = LlmView;

    open spec fn view(&self) -> LlmView {
        LlmView {
            provider: self.provider@,
            model: self.model@,
            api_key: self.api_key@,
            base_url: opt_text(self.base_url),
        }
    }
}

impl LlmView {
    /// The settings out of the box: OpenAI, no key.
    pub open spec fn defaults() -> LlmView {
        LlmView {
            provider: "openai"@,
            model: "gpt-4o-mini"@,
            api_key: Seq::empty(),
            base_url: None,
        }
    }
}

impl Default for LlmConfig {
    fn default() -> (llm: LlmConfig)
        ensures
            llm@ == LlmView::defaults(),
    {
        LlmConfig {
            provider: "openai".to_owned(),
            model: "gpt-4o-mini".to_owned(),
            api_key: String::new(),
            base_url: None,
        }
    }
}

pub fn copy_opt(s: &Option<String>) -> (out: Option<String>)
    ensures
        out == *s,
{
    match s {
        Some(t) => Some(t.clone()),
        None => None,
    }
}

impl LlmConfig {
    /// A copy of the settings.
    pub fn copy(&self) -> (out: LlmConfig)
        ensures
            out == *self,
    {
        LlmConfig {
            provider: self.provider.clone(),
            model: self.model.clone(),
            api_key: self.api_key.clone(),
            base_url: copy_opt(&self.base_url),
        }
    }
}

/// Whether there is a provider of that name.
pub open spec fn known_provider(name: Seq<char>) -> bool {
    name == "openai"@ || name == "openrouter"@ || name == "ollama"@ || name == "anthropic"@ || name
        == "gemini"@ || name == "custom"@
}

/// The providers, as they are listed to the user.
pub const PROVIDER_LIST: &'static str = "openai, openrouter, ollama, anthropic, gemini, custom";

pub fn is_provider(name: &str) -> (yes: bool)
    ensures
        yes == known_provider(name@),
{
    same_text(name, "openai") || same_text(name, "openrouter") || same_text(name, "ollama")
        || same_text(name, "anthropic") || same_text(name, "gemini") || same_text(name, "custom")
}

/// A provider name as it is looked up: trimmed, in lower case.
pub open spec fn provider_name(typed: Seq<char>) -> Seq<char> {
    unicode_lower(trimmed(typed))
}

/// What a configuration file says: the keys of each action it names, the name
/// of a theme, and the LLM settings.
#[derive(Debug)]
pub struct FileConfig {
    pub keys: Vec<(String, Vec<String>)>,
    pub theme: Option<String>,
    pub provider: Option<String>,
    pub model: Option<String>,
    pub api_key: Option<String>,
    pub base_url: Option<String>,
}

/// What a [`FileConfig`] holds.
#[verifier::ext_equal]
pub struct FileView {
    pub keys: Seq<(Seq<char>, Seq<Seq<char>>)>,
    pub theme: Option<Seq<char>>,
    pub provider: Option<Seq<char>>,
    pub model: Option<Seq<char>>,
    pub api_key: Option<Seq<char>>,
    pub base_url: Option<Seq<char>>,
}

pub open spec fn bindings_view(
    list: Seq<(String, Vec<String>)>,
) -> Seq<(Seq<char>, Seq<Seq<char>>)> {
    list.map_values(|b: (String, Vec<String>)| (b.0@, texts(b.1@)))
}

impl View for FileConfig {
    type V = FileView;

    open spec fn view(&self) -> FileView {
        FileView {
            keys: bindings_view(self.keys@),
            theme: opt_text(self.theme),
            provider: opt_text(self.provider),
            model: opt_text(self.model),
            api_key: opt_text(self.api_key),
            base_url: opt_text(self.base_url),
        }
    }
}

/// Resolved configuration.
#[derive(Debug)]
pub struct Config {
    pub keys: KeyBindings,
    pub theme: Theme,
    pub llm: LlmConfig,
}

/// What a [`Config`] holds.
#[verifier::ext_equal]
pub struct ConfigView {
    pub keys: KeysView,
    pub theme: Theme,
    pub llm: LlmView,
}

impl View for Config {
    type V = ConfigView;

    open spec fn view(&self) -> ConfigView {
        ConfigView { keys: self.keys@, theme: self.theme, llm: self.llm@ }
    }
}

impl Default for Config {
    fn default() -> (config: Config)
        ensures
            config@ == ConfigView::defaults(),
    {
        Config {
            keys: KeyBindings::default(),
            theme: Theme::default_theme(),
            llm: LlmConfig::default(),
        }
    }
}

/// The keys of the first `k` names; the first name that is no key otherwise.
pub open spec fn parsed_keys(names: Seq<Seq<char>>, k: nat) -> Result<Seq<KeyCode>, Seq<char>>
    decreases k,
{
    if k == 0 {
        Ok(Seq::empty())
    } else {
        match parsed_keys(names, (k - 1) as nat) {
            Err(name) => Err(name),
            Ok(keys) => match named_key(names[k - 1]) {
                Some(key) => Ok(keys.push(key)),
                None => Err(names[k - 1]),
            },
        }
    }
}

/// The bindings after the first `k` entries of `[keys]`.
pub open spec fn bound(
    entries: Seq<(Seq<char>, Seq<Seq<char>>)>,
    k: nat,
) -> Result<KeysView, ConfigErrorView>
    decreases k,
{
    if k == 0 {
        Ok(KeysView::defaults())
    } else {
        match bound(entries, (k - 1) as nat) {
            Err(e) => Err(e),
            Ok(view) => {
                let (action, names) = entries[k - 1];
                match parsed_keys(names, names.len()) {
                    Err(name) => Err(ConfigErrorView::UnknownKey { action, name }),
                    Ok(keys) => if keys.len() == 0 {
                        Err(ConfigErrorView::NoKeys { action })
                    } else {
                        match view.with(action, keys) {
                            None => Err(ConfigErrorView::UnknownAction { action }),
                            Some(next) => Ok(next),
                        }
                    },
                }
            },
        }
    }
}

/// The theme that a file asks for.
pub open spec fn chosen_theme(name: Option<Seq<char>>) -> Result<Theme, ConfigErrorView> {
    match name {
        None => Ok(Theme::default_theme()),
        Some(n) => match named_theme(n) {
            Some(t) => Ok(t),
            None => Err(ConfigErrorView::UnknownTheme { name: n }),
        },
    }
}

/// The LLM settings that a file asks for, over the ones out of the box.
pub open spec fn chosen_llm(file: FileView) -> Result<LlmView, ConfigErrorView> {
    let base = LlmView::defaults();
    if file.provider is Some && !known_provider(provider_name(file.provider->0)) {
        Err(ConfigErrorView::UnknownProvider { provider: file.provider->0 })
    } else if file.model is Some && is_blank(file.model->0) {
        Err(ConfigErrorView::EmptyModel)
    } else if file.base_url is Some && is_blank(file.base_url->0) {
        Err(ConfigErrorView::EmptyBaseUrl)
    } else {
        Ok(
            LlmView {
                provider: match file.provider {
                    Some(p) => provider_name(p),
                    None => base.provider,
                },
                model: match file.model {
                    Some(m) => trimmed(m),
                    None => base.model,
                },
                api_key: match file.api_key {
                    Some(k) => trimmed(k),
                    None => base.api_key,
                },
                base_url: match file.base_url {
                    Some(u) => Some(trimmed(u)),
                    None => None,
                },
            },
        )
    }
}

impl ConfigView {
    /// The configuration without a file.
    pub open spec fn defaults() -> ConfigView {
        ConfigView {
            keys: KeysView::defaults(),
            theme: Theme::default_theme(),
            llm: LlmView::defaults(),
        }
    }

    /// What a file asks for, over the defaults; its first fault otherwise.
    pub open spec fn of(file: FileView) -> Result<ConfigView, ConfigErrorView> {
        match bound(file.keys, file.keys.len()) {
            Err(e) => Err(e),
            Ok(keys) => match chosen_theme(file.theme) {
                Err(e) => Err(e),
                Ok(theme) => match chosen_llm(file) {
                    Err(e) => Err(e),
                    Ok(llm) => Ok(ConfigView { keys, theme, llm }),
                },
            },
        }
    }
}

/// The keys of a list of names; the first name that is no key otherwise.
fn parse_keys(names: &Vec<String>) -> (keys: Result<Vec<KeyCode>, String>)
    ensures
        (match keys {
            Ok(list) => parsed_keys(texts(names@), names@.len()) == Ok::<
                Seq<KeyCode>,
                Seq<char>,
            >(list@),
            Err(name) => parsed_keys(texts(names@), names@.len()) == Err::<
                Seq<KeyCode>,
                Seq<char>,
            >(name@),
        }),
{
    let ghost ns = texts(names@);
    let mut keys: Vec<KeyCode> = Vec::new();
    let mut i: usize = 0;
    while i < names.len()
        invariant
            i <= names@.len(),
            ns == texts(names@),
            parsed_keys(ns, i as nat) == Ok::<Seq<KeyCode>, Seq<char>>(keys@),
        decreases names@.len() - i,
    {
        assert(ns[i as int] == names@[i as int]@);
        match parse_key(names[i].as_str()) {
            Some(key) => keys.push(key),
            None => {
                proof {
                    lemma_parsed_keys_error(ns, (i + 1) as nat, names@.len());
                }
                return Err(names[i].clone());
            },
        }
        i += 1;
    }
    Ok(keys)
}

proof fn lemma_parsed_keys_error(names: Seq<Seq<char>>, k: nat, n: nat)
    requires
        k <= n,
        parsed_keys(names, k) is Err,
    ensures
        parsed_keys(names, n) == parsed_keys(names, k),
    decreases n,
{
    if k < n {
        lemma_parsed_keys_error(names, k, (n - 1) as nat);
    }
}

proof fn lemma_bound_error(entries: Seq<(Seq<char>, Seq<Seq<char>>)>, k: nat, n: nat)
    requires
        k <= n,
        bound(entries, k) is Err,
    ensures
        bound(entries, n) == bound(entries, k),
    decreases n,
{
    if k < n {
        lemma_bound_error(entries, k, (n - 1) as nat);
    }
}

fn bind_keys(entries: &Vec<(String, Vec<String>)>) -> (keys: Result<KeyBindings, ConfigError>)
    ensures
        (match keys {
            Ok(k) => bound(bindings_view(entries@), entries@.len()) == Ok::<
                KeysView,
                ConfigErrorView,
            >(k@),
            Err(e) => bound(bindings_view(entries@), entries@.len()) == Err::<
                KeysView,
                ConfigErrorView,
            >(e@),
        }),
{
    let ghost es = bindings_view(entries@);
    let mut keys = KeyBindings::default();
    let mut i: usize = 0;
    while i < entries.len()
        invariant
            i <= entries@.len(),
            es == bindings_view(entries@),
            bound(es, i as nat) == Ok::<KeysView, ConfigErrorView>(keys@),
        decreases entries@.len() - i,
    {
        let entry = &entries[i];
        assert(es[i as int] == (entry.0@, texts(entry.1@)));
        assert(texts(entry.1@).len() == entry.1@.len());
        match parse_keys(&entry.1) {
            Err(name) => {
                let action = entry.0.clone();
                proof {
                    lemma_bound_error(es, (i + 1) as nat, entries@.len());
                }
                return Err(ConfigError::UnknownKey { action, name });
            },
            Ok(list) => {
                if list.len() == 0 {
                    proof {
                        lemma_bound_error(es, (i + 1) as nat, entries@.len());
                    }
                    return Err(ConfigError::NoKeys { action: entry.0.clone() });
                }
                if !keys.rebind(entry.0.as_str(), list) {
                    proof {
                        lemma_bound_error(es, (i + 1) as nat, entries@.len());
                    }
                    return Err(ConfigError::UnknownAction { action: entry.0.clone() });
                }
            },
        }
        i += 1;
    }
    Ok(keys)
}

fn choose_llm(file: &FileConfig) -> (llm: Result<LlmConfig, ConfigError>)
    ensures
        (match llm {
            Ok(l) => chosen_llm(file@) == Ok::<LlmView, ConfigErrorView>(l@),
            Err(e) => chosen_llm(file@) == Err::<LlmView, ConfigErrorView>(e@),
        }),
{
    let mut llm = LlmConfig::default();
    if let Some(provider) = &file.provider {
        let p = lowercase(trim(provider.as_str()).as_str());
        if !is_provider(p.as_str()) {
            return Err(ConfigError::UnknownProvider { provider: provider.clone() });
        }
        llm.provider = p;
    }
    if let Some(model) = &file.model {
        let m = trim(model.as_str());
        proof {
            lemma_trim_bounds(model@);
        }
        if m.as_str().is_empty() {
            return Err(ConfigError::EmptyModel);
        }
        llm.model = m;
    }
    if let Some(key) = &file.api_key {
        llm.api_key = trim(key.as_str());
    }
    if let Some(url) = &file.base_url {
        let u = trim(url.as_str());
        proof {
            lemma_trim_bounds(url@);
        }
        if u.as_str().is_empty() {
            return Err(ConfigError::EmptyBaseUrl);
        }
        llm.base_url = Some(u);
    }
    assert(llm@ =~= chosen_llm(file@)->Ok_0);
    Ok(llm)
}

impl Config {
    /// Resolves what a file asks for over the defaults. Unknown names fail
    /// with the offending value.
    pub fn from_file(file: &FileConfig) -> (config: Result<Config, ConfigError>)
        ensures
            (match config {
                Ok(c) => ConfigView::of(file@) == Ok::<ConfigView, ConfigErrorView>(c@),
                Err(e) => ConfigView::of(file@) == Err::<ConfigView, ConfigErrorView>(e@),
            }),
    {
        assert(bindings_view(file.keys@).len() == file.keys@.len());
        let keys = match bind_keys(&file.keys) {
            Ok(k) => k,
            Err(e) => return Err(e),
        };
        let theme = match &file.theme {
            Some(name) => match Theme::by_name(name.as_str()) {
                Ok(t) => t,
                Err(e) => return Err(e),
            },
            None => Theme::default_theme(),
        };
        let llm = match choose_llm(file) {
            Ok(l) => l,
            Err(e) => return Err(e),
        };
        Ok(Config { keys, theme, llm })
    }
}

/// The entries of the `[llm]` section for given settings. A blank base URL is
/// left out.
pub open spec fn llm_section(llm: LlmView) -> Seq<(Seq<char>, Seq<char>)> {
    let three = seq![
        ("provider"@, llm.provider),
        ("model"@, llm.model),
        ("api_key"@, llm.api_key),
    ];
    match llm.base_url {
        Some(url) => if is_blank(url) {
            three
        } else {
            three.push(("base_url"@, url))
        },
        None => three,
    }
}

/// The entries of the `[llm]` section that hold the settings.
pub fn llm_entries(llm: &LlmConfig) -> (out: Vec<(String, String)>)
    ensures
        pairs_view(out@) == llm_section(llm@),
{
    let mut out: Vec<(String, String)> = Vec::new();
    out.push(("provider".to_owned(), llm.provider.clone()));
    out.push(("model".to_owned(), llm.model.clone()));
    out.push(("api_key".to_owned(), llm.api_key.clone()));
    if let Some(url) = &llm.base_url {
        let t = trim(url.as_str());
        proof {
            lemma_trim_bounds(url@);
        }
        if !t.as_str().is_empty() {
            out.push(("base_url".to_owned(), url.clone()));
        }
    }
    assert(pairs_view(out@) =~= llm_section(llm@));
    out
}

impl Config {
    /// The text of a configuration file with just its `[llm]` section replaced.
    /// `existing` is the text of the file, empty where there is none. Where that
    /// is no TOML, an error. What is written is the file with the new section and
    /// every other value just as it was, but for the sign of a `nan`. It reads
    /// back as that, unless the file is nested too deeply or a table in it has
    /// the name by which a date is known.
    pub fn save_llm(existing: &str, llm: &LlmConfig) -> (out: Result<String, String>)
        requires
            is_savable(existing@, llm@),
        ensures
            written_view(out) == rewritten(existing@, "llm"@, llm_section(llm@)),
            out matches Ok(text) ==> became(existing@, text@, "llm"@, llm_section(llm@)),
    {
        let entries = llm_entries(llm);
        proof {
            lemma_section_fits(llm@);
            let s = llm_section(llm@);
            assert(pairs_view(entries@) == s);
            assert forall|i: int| 0 <= i < entries@.len() implies marks_fit(
                (#[trigger] entries@[i]).1@,
            ) by {
                assert(s[i] == pairs_view(entries@)[i]);
                assert(marks_fit(s[i].1));
            }
        }
        set_toml_table(existing, "llm", &entries)
    }
}

/// Whether settings can be written into a text: neither holds too many
/// quotation marks in a row.
pub open spec fn is_savable(existing: Seq<char>, llm: LlmView) -> bool {
    &&& spelled_marks_fit(existing)
    &&& settings_fit(llm)
}

/// Whether settings can be written: none holds too many quotation marks in a
/// row.
pub open spec fn settings_fit(llm: LlmView) -> bool {
    &&& marks_fit(llm.provider)
    &&& marks_fit(llm.model)
    &&& marks_fit(llm.api_key)
    &&& llm.base_url matches Some(url) ==> marks_fit(url)
}

proof fn lemma_section_fits(llm: LlmView)
    requires
        settings_fit(llm),
    ensures
        forall|i: int|
            0 <= i < llm_section(llm).len() ==> marks_fit((#[trigger] llm_section(llm)[i]).1),
{
    let s = llm_section(llm);
    assert(s[0] == ("provider"@, llm.provider));
    assert(s[1] == ("model"@, llm.model));
    assert(s[2] == ("api_key"@, llm.api_key));
    if s.len() == 4 {
        assert(s[3] == ("base_url"@, llm.base_url->0));
    }
    assert forall|i: int| 0 <= i < s.len() implies marks_fit((#[trigger] s[i]).1) by {
        if i == 0 {
        } else if i == 1 {
        } else if i == 2 {
        } else {
            assert(i == 3);
        }
    }
}

/// The name by which a date is known is no action.
pub proof fn lemma_date_is_no_action(keys: KeysView, list: Seq<KeyCode>)
    ensures
        keys.with(DATE_NAME@, list) is None,
{
    reveal_strlit("$__toml_private_datetime");
    reveal_strlit("nav_down");
    reveal_strlit("nav_up");
    reveal_strlit("stage");
    reveal_strlit("discard");
    reveal_strlit("commit");
    reveal_strlit("refresh");
    reveal_strlit("quit");
    reveal_strlit("focus_next");
    reveal_strlit("focus_status");
    reveal_strlit("focus_branches");
    reveal_strlit("focus_log");
    reveal_strlit("focus_stash");
    reveal_strlit("focus_diff");
    reveal_strlit("scroll_up");
    reveal_strlit("scroll_down");
    reveal_strlit("branch_new");
    reveal_strlit("branch_delete");
    reveal_strlit("checkout");
    reveal_strlit("stash_pop");
    reveal_strlit("stash_push");
    reveal_strlit("stash_drop");
    reveal_strlit("find_files");
    reveal_strlit("project_next");
    reveal_strlit("project_prev");
    reveal_strlit("project_open");
    reveal_strlit("project_close");
    reveal_strlit("sync_pull");
    reveal_strlit("sync_push");
    reveal_strlit("llm_settings");
    reveal_strlit("toggle_markdown_preview");
    assert(DATE_NAME@.len() == 24);
}

/// Whether settings can be written into a text.
pub fn can_save_llm(existing: &str, llm: &LlmConfig) -> (yes: bool)
    ensures
        yes == is_savable(existing@, llm@),
{
    can_rewrite(existing) && can_write(llm.provider.as_str()) && can_write(llm.model.as_str())
        && can_write(llm.api_key.as_str()) && match &llm.base_url {
        Some(url) => can_write(url.as_str()),
        None => true,
    }
}

/// The value of a field of a section, if it has one.
pub open spec fn field(
    section: Seq<(Seq<char>, Seq<char>)>,
    name: Seq<char>,
    k: nat,
) -> Option<Seq<char>>
    decreases k,
{
    if k == 0 || k > section.len() {
        None
    } else if section[k - 1].0 == name {
        Some(section[k - 1].1)
    } else {
        field(section, name, (k - 1) as nat)
    }
}

/// A file with the LLM fields taken from a section.
pub open spec fn with_llm_section(
    file: FileView,
    section: Seq<(Seq<char>, Seq<char>)>,
) -> FileView {
    let n = section.len();
    FileView {
        provider: field(section, "provider"@, n),
        model: field(section, "model"@, n),
        api_key: field(section, "api_key"@, n),
        base_url: field(section, "base_url"@, n),
        ..file
    }
}

/// Saved settings read back as they were and leave keys and theme alone, if
/// the provider is a known one as it is written, no text has white space
/// around it, and neither model nor base URL is empty.
pub proof fn law_saved_llm_reads_back(file: FileView, llm: LlmView)
    requires
        ConfigView::of(file) is Ok,
        known_provider(llm.provider),
        provider_name(llm.provider) == llm.provider,
        llm.model.len() > 0,
        trimmed(llm.model) == llm.model,
        trimmed(llm.api_key) == llm.api_key,
        llm.base_url matches Some(url) ==> url.len() > 0 && trimmed(url) == url,
    ensures
        ConfigView::of(with_llm_section(file, llm_section(llm))) == Ok::<
            ConfigView,
            ConfigErrorView,
        >(ConfigView { llm, ..ConfigView::of(file)->Ok_0 }),
{
    lemma_llm_chosen(file, llm);
}

proof fn lemma_llm_chosen(file: FileView, llm: LlmView)
    requires
        known_provider(llm.provider),
        provider_name(llm.provider) == llm.provider,
        llm.model.len() > 0,
        trimmed(llm.model) == llm.model,
        trimmed(llm.api_key) == llm.api_key,
        llm.base_url matches Some(url) ==> url.len() > 0 && trimmed(url) == url,
    ensures
        chosen_llm(with_llm_section(file, llm_section(llm))) == Ok::<LlmView, ConfigErrorView>(llm),
{
    lemma_trim_bounds(llm.model);
    if let Some(url) = llm.base_url {
        lemma_trim_bounds(url);
    }
    let next = with_llm_section(file, llm_section(llm));
    assert(next.provider == Some(llm.provider) && next.model == Some(llm.model) && next.api_key
        == Some(llm.api_key) && next.base_url == llm.base_url) by {
        lemma_section_fields(llm);
    }
    let chosen = chosen_llm(next);
    assert(chosen is Ok);
    assert(chosen->Ok_0.provider == llm.provider);
    assert(chosen->Ok_0.base_url == llm.base_url);
}

/// The four field names differ.
pub proof fn lemma_field_names()
    ensures
        "provider"@ != "model"@,
        "provider"@ != "api_key"@,
        "provider"@ != "base_url"@,
        "model"@ != "api_key"@,
        "model"@ != "base_url"@,
        "api_key"@ != "base_url"@,
{
    reveal_strlit("provider");
    reveal_strlit("model");
    reveal_strlit("api_key");
    reveal_strlit("base_url");
    assert("provider"@[0] == 'p');
    assert("model"@[0] == 'm');
    assert("api_key"@[0] == 'a');
    assert("base_url"@[0] == 'b');
}

/// The section of settings holds them field by field.
pub proof fn lemma_section_fields(llm: LlmView)
    ensures
        field(llm_section(llm), "provider"@, llm_section(llm).len()) == Some(llm.provider),
        field(llm_section(llm), "model"@, llm_section(llm).len()) == Some(llm.model),
        field(llm_section(llm), "api_key"@, llm_section(llm).len()) == Some(llm.api_key),
        field(llm_section(llm), "base_url"@, llm_section(llm).len()) == (match llm.base_url {
            Some(url) => if is_blank(url) {
                None
            } else {
                Some(url)
            },
            None => None,
        }),
{
    lemma_field_names();
    let s = llm_section(llm);
    assert(s[0] == ("provider"@, llm.provider));
    assert(s[1] == ("model"@, llm.model));
    assert(s[2] == ("api_key"@, llm.api_key));
    assert(field(s, "provider"@, 1) == Some(llm.provider));
    assert(field(s, "provider"@, 2) == Some(llm.provider));
    assert(field(s, "provider"@, 3) == Some(llm.provider));
    assert(field(s, "model"@, 2) == Some(llm.model));
    assert(field(s, "model"@, 3) == Some(llm.model));
    assert(field(s, "api_key"@, 3) == Some(llm.api_key));
    assert(field(s, "base_url"@, 0) is None);
    assert(field(s, "base_url"@, 1) is None);
    assert(field(s, "base_url"@, 2) is None);
    assert(field(s, "base_url"@, 3) is None);
}

/// A text in quotation marks, with what is not printable escaped.
pub uninterp spec fn quoted_text(s: Seq<char>) -> Seq<char>;

/// The `Debug` form of a `str`, as `format!` writes it: a function of the
/// text.
#[verifier::external_body]
pub(crate) fn quote(s: &str) -> (out: String)
    ensures
        out@ == quoted_text(s@),
{
    format!("{s:?}")
}

/// The first `k` names of a list with a comma between them.
pub open spec fn comma_list(names: Seq<&'static str>, k: nat) -> Seq<char>
    decreases k,
{
    if k == 0 {
        Seq::empty()
    } else if k == 1 {
        names[0]@
    } else {
        comma_list(names, (k - 1) as nat) + ", "@ + names[k - 1]@
    }
}

/// The actions, as they are listed to the user.
fn action_list() -> (out: String)
    ensures
        out@ == comma_list(ACTIONS@, 30),
{
    let mut out = ACTIONS[0].to_owned();
    let mut k: usize = 1;
    while k < 30
        invariant
            1 <= k <= 30,
            out@ == comma_list(ACTIONS@, k as nat),
        decreases 30 - k,
    {
        out.append(", ");
        out.append(ACTIONS[k]);
        k += 1;
    }
    out
}

impl ConfigErrorView {
    /// What the user reads of an error.
    pub open spec fn message(self) -> Seq<char> {
        match self {
            ConfigErrorView::UnknownKey { action, name } => "bad key for ["@ + action
                + "]: unknown key name: "@ + quoted_text(name),
            ConfigErrorView::NoKeys { action } => "no keys listed for ["@ + action + "]"@,
            ConfigErrorView::UnknownAction { action } => "unknown action ["@ + action
                + "] (expected one of: "@ + comma_list(ACTIONS@, 30) + ")"@,
            ConfigErrorView::UnknownTheme { name } => "unknown theme "@ + quoted_text(name)
                + " (expected \"default\", \"tokyo-night\", \"catppuccin\", or \"legacy\")"@,
            ConfigErrorView::UnknownProvider { provider } => "unknown llm provider "@
                + quoted_text(provider) + " (expected one of: "@ + PROVIDER_LIST@ + ")"@,
            ConfigErrorView::EmptyModel => "llm model must not be empty"@,
            ConfigErrorView::EmptyBaseUrl => "llm base_url must not be empty"@,
            ConfigErrorView::BadToml { why } => "cannot parse TOML: "@ + why,
            ConfigErrorView::UnknownSection { name } => "cannot parse TOML: unknown field `"@ + name
                + "`, expected one of `keys`, `theme`, `llm`"@,
            ConfigErrorView::UnknownField { section, name } => "cannot parse TOML: unknown field `"@
                + name + "` in ["@ + section + "]"@,
            ConfigErrorView::WrongType { name } => "cannot parse TOML: invalid type for `"@ + name
                + "`"@,
        }
    }
}

impl ConfigError {
    /// What the user reads of the error.
    pub fn message(&self) -> (out: String)
        ensures
            out@ == self@.message(),
    {
        match self {
            ConfigError::UnknownKey { action, name } => "bad key for [".to_owned().concat(
                action.as_str(),
            ).concat("]: unknown key name: ").concat(quote(name.as_str()).as_str()),
            ConfigError::NoKeys { action } => "no keys listed for [".to_owned().concat(
                action.as_str(),
            ).concat("]"),
            ConfigError::UnknownAction { action } => "unknown action [".to_owned().concat(
                action.as_str(),
            ).concat("] (expected one of: ").concat(action_list().as_str()).concat(")"),
            ConfigError::UnknownTheme { name } => "unknown theme ".to_owned().concat(
                quote(name.as_str()).as_str(),
            ).concat(
                " (expected \"default\", \"tokyo-night\", \"catppuccin\", or \"legacy\")",
            ),
            ConfigError::UnknownProvider { provider } => "unknown llm provider ".to_owned().concat(
                quote(provider.as_str()).as_str(),
            ).concat(" (expected one of: ").concat(PROVIDER_LIST).concat(")"),
            ConfigError::EmptyModel => "llm model must not be empty".to_owned(),
            ConfigError::EmptyBaseUrl => "llm base_url must not be empty".to_owned(),
            ConfigError::BadToml { why } => "cannot parse TOML: ".to_owned().concat(why.as_str()),
            ConfigError::UnknownSection { name } => {
                let said = "cannot parse TOML: unknown field `".to_owned().concat(name.as_str());
                said.concat("`, expected one of `keys`, `theme`, `llm`")
            },
            ConfigError::UnknownField { section, name } => {
                let said = "cannot parse TOML: unknown field `".to_owned().concat(name.as_str());
                said.concat("` in [").concat(section.as_str()).concat("]")
            },
            ConfigError::WrongType { name } => {
                let said = "cannot parse TOML: invalid type for `".to_owned().concat(name.as_str());
                said.concat("`")
            },
        }
    }
}

fn copy_keys(keys: &Vec<KeyCode>) -> (out: Vec<KeyCode>)
    ensures
        out@ == keys@,
{
    let mut out: Vec<KeyCode> = Vec::new();
    let mut i: usize = 0;
    while i < keys.len()
        invariant
            i <= keys@.len(),
            out@ == keys@.take(i as int),
        decreases keys@.len() - i,
    {
        out.push(keys[i]);
        i += 1;
        assert(out@ =~= keys@.take(i as int));
    }
    assert(keys@.take(i as int) =~= keys@);
    out
}

impl KeyBindings {
    /// A copy of the bindings.
    pub fn copy(&self) -> (out: KeyBindings)
        ensures
            out@ == self@,
    {
        KeyBindings {
            nav_down: copy_keys(&self.nav_down),
            nav_up: copy_keys(&self.nav_up),
            stage: copy_keys(&self.stage),
            discard: copy_keys(&self.discard),
            commit: copy_keys(&self.commit),
            refresh: copy_keys(&self.refresh),
            quit: copy_keys(&self.quit),
            focus_next: copy_keys(&self.focus_next),
            focus_status: copy_keys(&self.focus_status),
            focus_branches: copy_keys(&self.focus_branches),
            focus_log: copy_keys(&self.focus_log),
            focus_stash: copy_keys(&self.focus_stash),
            focus_diff: copy_keys(&self.focus_diff),
            scroll_up: copy_keys(&self.scroll_up),
            scroll_down: copy_keys(&self.scroll_down),
            branch_new: copy_keys(&self.branch_new),
            branch_delete: copy_keys(&self.branch_delete),
            checkout: copy_keys(&self.checkout),
            stash_pop: copy_keys(&self.stash_pop),
            stash_push: copy_keys(&self.stash_push),
            stash_drop: copy_keys(&self.stash_drop),
            find_files: copy_keys(&self.find_files),
            project_next: copy_keys(&self.project_next),
            project_prev: copy_keys(&self.project_prev),
            project_open: copy_keys(&self.project_open),
            project_close: copy_keys(&self.project_close),
            sync_pull: copy_keys(&self.sync_pull),
            sync_push: copy_keys(&self.sync_push),
            llm_settings: copy_keys(&self.llm_settings),
            toggle_markdown_preview: copy_keys(&self.toggle_markdown_preview),
        }
    }
}

impl Config {
    /// A copy of the configuration.
    pub fn copy(&self) -> (out: Config)
        ensures
            out@ == self@,
    {
        Config { keys: self.keys.copy(), theme: self.theme, llm: self.llm.copy() }
    }
}

} // verus!
