//! The TUI's state machine: what each key press, and each result of the
//! work it asks for, does to the state, and which work it asks for next.
//!
//! The state machine does no I/O. Each transition returns the `Action`s to
//! perform, in order; the driver performs them and reports their results
//! back through `keys_loaded`, `projects_loaded`, `removal_keys_loaded`,
//! `secret_saved` and `check_value_fetch`.
use vstd::prelude::*;

use crate::config::Config;
use crate::display::{first16, first_chars16, obfuscate, obfuscated, obfuscation_defined};
use crate::keychain::{kv_views, string_views};
use crate::names::{is_key_char, is_valid_key};
use crate::text::{chars_of, string_of};

verus! {

/// Which pane has the keyboard.
#[derive(Debug, Clone, Copy, PartialEq, Eq, Structural)]
pub enum Focus {
    Projects,
    Keys,
}

/// Which field the add-secret dialog is reading.
#[derive(Debug, Clone, Copy, PartialEq, Eq, Structural)]
pub enum AddStep {
    KeyName,
    KeyValue,
}

/// How a status message is shown.
#[derive(Debug, Clone, Copy, PartialEq, Eq, Structural)]
pub enum MsgLevel {
    Info,
    Success,
    Error,
}

/// An open dialog.
pub enum Modal {
    AddKey { key_name: String, key_value: String, step: AddStep },
    ConfirmDeleteKey { key: String },
    ConfirmDeleteProject { project: String },
    Message { text: String, level: MsgLevel },
}

/// What the key list shows for one key: its name, the shortened value and
/// the whole value.
#[derive(Clone)]
pub struct KeyDisplayItem {
    pub name: String,
    pub obfuscated: String,
    pub full_value: String,
}

/// A key, as the TUI distinguishes keys.
#[derive(Debug, Clone, Copy, PartialEq, Eq, Structural)]
pub enum KeyCode {
    Char(char),
    Enter,
    Esc,
    Tab,
    Backspace,
    Up,
    Down,
    Other,
}

/// A key event: which key, and whether it is a press (not a release or
/// repeat). Modifiers make no difference to the TUI.
#[derive(Debug, Clone, Copy, PartialEq, Eq, Structural)]
pub struct KeyInput {
    pub code: KeyCode,
    pub press: bool,
}

/// A terminal event.
#[derive(Debug, Clone, Copy, PartialEq, Eq, Structural)]
pub enum InputEvent {
    Key(KeyInput),
    Resize,
    Other,
}

/// What became of the background read of a project's values.
pub enum FetchOutcome {
    /// The read for `generation` finished with these `(key, value)` pairs.
    Values { generation: u64, values: Vec<(String, String)> },
    /// Nothing has arrived yet.
    Empty,
    /// The read for `generation` ended without a result.
    Disconnected { generation: u64 },
}

/// Work that the state machine asks the driver to do.
pub enum Action {
    /// Read the key names of a project's index and report them with `keys_loaded`.
    ReadKeys { project: String },
    /// Read the values of these keys in the background and report them with
    /// `check_value_fetch`, tagged with `generation`.
    FetchValues { project: String, keys: Vec<String>, generation: u64 },
    /// Put this value on the clipboard.
    CopyToClipboard { value: String },
    /// Store a secret and report whether that worked with `secret_saved`.
    SaveSecret { project: String, key: String, value: String },
    /// Delete a secret from the Keychain (failures are ignored).
    DeleteSecret { project: String, key: String },
    /// Add a key name to a project's index (failures are ignored).
    AddKeyToIndex { project: String, key: String },
    /// Remove a key name from a project's index (failures are ignored).
    RemoveKeyFromIndex { project: String, key: String },
    /// Read the key names of a project about to be removed and report them
    /// with `removal_keys_loaded`.
    ReadKeysForRemoval { project: String },
    /// Remove a project's index file (failures are ignored).
    RemoveProjectIndex { project: String },
    /// Read the list of projects and report it with `projects_loaded`.
    ReadProjects,
}

// ─── Model ────────────────────────────────────────────────────────────

/// A dialog, by value.
pub enum ModalView {
    AddKey(Seq<char>, Seq<char>, AddStep),
    ConfirmDeleteKey(Seq<char>),
    ConfirmDeleteProject(Seq<char>),
    Message(Seq<char>, MsgLevel),
}

/// An action, by value.
pub enum ActionView {
    ReadKeys(Seq<char>),
    FetchValues(Seq<char>, Seq<Seq<char>>, u64),
    CopyToClipboard(Seq<char>),
    SaveSecret(Seq<char>, Seq<char>, Seq<char>),
    DeleteSecret(Seq<char>, Seq<char>),
    AddKeyToIndex(Seq<char>, Seq<char>),
    RemoveKeyFromIndex(Seq<char>, Seq<char>),
    ReadKeysForRemoval(Seq<char>),
    RemoveProjectIndex(Seq<char>),
    ReadProjects,
}

/// The state of the TUI, by value.
pub struct AppView {
    pub projects: Seq<Seq<char>>,
    pub selected_project: Option<usize>,
    pub selected_key: Option<usize>,
    pub focus: Focus,
    pub keys: Seq<Seq<char>>,
    pub key_values: Seq<(Seq<char>, Seq<char>)>,
    pub copied: Option<Seq<char>>,
    pub modal: Option<ModalView>,
    pub key_list_offset: usize,
    pub status: Option<(Seq<char>, MsgLevel)>,
    pub running: bool,
    pub display: Seq<(Seq<char>, Seq<char>, Seq<char>)>,
    /// The generation of the background read whose result is awaited.
    pub awaiting: Option<u64>,
    /// The project whose values are being read.
    pub pending: Option<Seq<char>>,
    pub fetch_gen: u64,
    /// Whether the selection is cleared once the project list is reloaded
    /// (after a project was removed).
    pub deselect: bool,
}

impl Modal {
    pub open spec fn view(&self) -> ModalView {
        match self {
            Modal::AddKey { key_name, key_value, step } => ModalView::AddKey(
                key_name@,
                key_value@,
                *step,
            ),
            Modal::ConfirmDeleteKey { key } => ModalView::ConfirmDeleteKey(key@),
            Modal::ConfirmDeleteProject { project } => ModalView::ConfirmDeleteProject(project@),
            Modal::Message { text, level } => ModalView::Message(text@, *level),
        }
    }
}

impl Action {
    pub open spec fn view(&self) -> ActionView {
        match self {
            Action::ReadKeys { project } => ActionView::ReadKeys(project@),
            Action::FetchValues { project, keys, generation } => ActionView::FetchValues(
                project@,
                string_views(keys@),
                *generation,
            ),
            Action::CopyToClipboard { value } => ActionView::CopyToClipboard(value@),
            Action::SaveSecret { project, key, value } => ActionView::SaveSecret(
                project@,
                key@,
                value@,
            ),
            Action::DeleteSecret { project, key } => ActionView::DeleteSecret(project@, key@),
            Action::AddKeyToIndex { project, key } => ActionView::AddKeyToIndex(project@, key@),
            Action::RemoveKeyFromIndex { project, key } => ActionView::RemoveKeyFromIndex(
                project@,
                key@,
            ),
            Action::ReadKeysForRemoval { project } => ActionView::ReadKeysForRemoval(project@),
            Action::RemoveProjectIndex { project } => ActionView::RemoveProjectIndex(project@),
            Action::ReadProjects => ActionView::ReadProjects,
        }
    }
}

/// The views of a list of actions.
pub open spec fn actions_view(v: Seq<Action>) -> Seq<ActionView> {
    v.map_values(|a: Action| a@)
}

/// The views of display items.
pub open spec fn display_view(v: Seq<KeyDisplayItem>) -> Seq<(Seq<char>, Seq<char>, Seq<char>)> {
    v.map_values(|d: KeyDisplayItem| (d.name@, d.obfuscated@, d.full_value@))
}

pub open spec fn opt_string_view(o: Option<String>) -> Option<Seq<char>> {
    match o {
        Some(s) => Some(s@),
        None => None,
    }
}

pub open spec fn status_view(o: Option<(String, MsgLevel)>) -> Option<(Seq<char>, MsgLevel)> {
    match o {
        Some(p) => Some((p.0@, p.1)),
        None => None,
    }
}

pub open spec fn modal_view(o: Option<Modal>) -> Option<ModalView> {
    match o {
        Some(m) => Some(m@),
        None => None,
    }
}

/// The key list while values are loading: names only.
pub open spec fn placeholder_display(keys: Seq<Seq<char>>) -> Seq<(Seq<char>, Seq<char>, Seq<char>)> {
    keys.map_values(|k: Seq<char>| (k, Seq::<char>::empty(), Seq::<char>::empty()))
}

/// The key list once values are known.
pub open spec fn value_display(values: Seq<(Seq<char>, Seq<char>)>) -> Seq<
    (Seq<char>, Seq<char>, Seq<char>),
> {
    values.map_values(|p: (Seq<char>, Seq<char>)| (p.0, obfuscated(p.1), p.1))
}

/// `Some(i)` stays inside the project list.
pub open spec fn selection_in_range(v: AppView) -> bool {
    (v.selected_project matches Some(i) ==> i < v.projects.len()) && (v.selected_key matches Some(
        k,
    ) ==> k < usize::MAX)
}

/// The lists of a state fit in memory, as those of every `App` do.
pub open spec fn bounded(v: AppView) -> bool {
    v.projects.len() <= usize::MAX && v.display.len() <= usize::MAX
}

/// The name of the selected project.
pub open spec fn selected_name(v: AppView) -> Option<Seq<char>> {
    match v.selected_project {
        Some(i) => Some(v.projects[i as int]),
        None => None,
    }
}

/// The work that reloading the selected project's keys asks for.
pub open spec fn load_keys_actions(v: AppView) -> Seq<ActionView> {
    match v.selected_project {
        Some(i) => if i < v.projects.len() {
            seq![ActionView::ReadKeys(v.projects[i as int])]
        } else {
            Seq::empty()
        },
        None => Seq::empty(),
    }
}

pub open spec fn next_gen(g: u64) -> u64 {
    if g == u64::MAX {
        0
    } else {
        (g + 1) as u64
    }
}

/// Selecting project `index` (ignored when out of range).
pub open spec fn select_project_next(v: AppView, index: usize) -> (AppView, Seq<ActionView>) {
    if index < v.projects.len() {
        let w = AppView { selected_project: Some(index), selected_key: None, key_list_offset: 0, ..v };
        (w, load_keys_actions(w))
    } else {
        (v, Seq::empty())
    }
}

/// The keys of `project` were read: they are shown at once, and their
/// values are read in the background under a new generation.
pub open spec fn keys_loaded_next(v: AppView, project: Seq<char>, keys: Seq<Seq<char>>) -> (
    AppView,
    Seq<ActionView>,
) {
    let g = next_gen(v.fetch_gen);
    (
        AppView {
            keys: keys,
            key_values: Seq::empty(),
            pending: Some(project),
            display: placeholder_display(keys),
            awaiting: Some(g),
            fetch_gen: g,
            ..v
        },
        seq![ActionView::FetchValues(project, keys, g)],
    )
}

/// The project list was read.
pub open spec fn projects_loaded_next(v: AppView, projects: Seq<Seq<char>>) -> (
    AppView,
    Seq<ActionView>,
) {
    let w = AppView { projects: projects, ..v };
    let acts = load_keys_actions(w);
    if v.deselect {
        (
            AppView {
                selected_project: None,
                selected_key: None,
                key_values: Seq::empty(),
                deselect: false,
                ..w
            },
            acts,
        )
    } else {
        (w, acts)
    }
}

/// The background read for `generation` finished: the values are shown if
/// it is the awaited read and its project is still selected.
pub open spec fn values_arrived_next(v: AppView, generation: u64, values: Seq<(Seq<char>, Seq<char>)>) -> AppView {
    if v.awaiting != Some(generation) {
        v
    } else {
        let w = AppView { awaiting: None, pending: None, ..v };
        match v.pending {
            Some(p) => if selected_name(v) == Some(p) {
                AppView { key_values: values, display: value_display(values), ..w }
            } else {
                w
            },
            None => w,
        }
    }
}

/// The background read for `generation` ended without a result.
pub open spec fn fetch_lost_next(v: AppView, generation: u64) -> AppView {
    if v.awaiting == Some(generation) {
        AppView { awaiting: None, pending: None, ..v }
    } else {
        v
    }
}

pub open spec fn with_status(v: AppView, msg: Seq<char>, level: MsgLevel) -> AppView {
    AppView { status: Some((msg, level)), ..v }
}

pub open spec fn navigate_up_next(v: AppView) -> (AppView, Seq<ActionView>) {
    match v.focus {
        Focus::Projects => match v.selected_project {
            Some(i) => if i > 0 {
                select_project_next(v, (i - 1) as usize)
            } else {
                (v, Seq::empty())
            },
            None => if v.projects.len() > 0 {
                select_project_next(v, (v.projects.len() - 1) as usize)
            } else {
                (v, Seq::empty())
            },
        },
        Focus::Keys => match v.selected_key {
            Some(k) => if k > 0 {
                (AppView { selected_key: Some((k - 1) as usize), ..v }, Seq::empty())
            } else {
                (v, Seq::empty())
            },
            None => if v.display.len() > 0 {
                (AppView { selected_key: Some((v.display.len() - 1) as usize), ..v }, Seq::empty())
            } else {
                (v, Seq::empty())
            },
        },
    }
}

pub open spec fn navigate_down_next(v: AppView) -> (AppView, Seq<ActionView>) {
    match v.focus {
        Focus::Projects => {
            let max = if v.projects.len() > 0 { v.projects.len() - 1 } else { 0 };
            let next: int = match v.selected_project {
                Some(i) => i + 1,
                None => 0,
            };
            if next <= max {
                select_project_next(v, next as usize)
            } else {
                (v, Seq::empty())
            }
        },
        Focus::Keys => {
            let max = if v.display.len() > 0 { v.display.len() - 1 } else { 0 };
            let next: int = match v.selected_key {
                Some(k) => k + 1,
                None => 0,
            };
            if next <= max {
                (AppView { selected_key: Some(next as usize), ..v }, Seq::empty())
            } else {
                (v, Seq::empty())
            }
        },
    }
}

/// Copying the selection: the selected key's value (nothing is copied
/// from the project list).
pub open spec fn copy_selected_next(v: AppView) -> (AppView, Seq<ActionView>) {
    let val: Option<Seq<char>> = match v.focus {
        Focus::Keys => match v.selected_key {
            Some(k) => if k < v.display.len() {
                Some(v.display[k as int].2)
            } else {
                None
            },
            None => None,
        },
        Focus::Projects => None,
    };
    match val {
        Some(s) => (
            with_status(
                AppView { copied: Some(first16(s)), ..v },
                "Copied to clipboard!"@,
                MsgLevel::Success,
            ),
            seq![ActionView::CopyToClipboard(s)],
        ),
        None => (v, Seq::empty()),
    }
}

pub open spec fn handle_enter_next(v: AppView) -> (AppView, Seq<ActionView>) {
    match v.focus {
        Focus::Projects => if v.selected_project is Some && v.display.len() > 0 {
            (AppView { focus: Focus::Keys, selected_key: Some(0), ..v }, Seq::empty())
        } else {
            (v, Seq::empty())
        },
        Focus::Keys => copy_selected_next(v),
    }
}

pub open spec fn delete_project_next(v: AppView) -> AppView {
    match v.selected_project {
        Some(i) => if i < v.projects.len() {
            AppView { modal: Some(ModalView::ConfirmDeleteProject(v.projects[i as int])), ..v }
        } else {
            v
        },
        None => v,
    }
}

pub open spec fn delete_selected_next(v: AppView) -> AppView {
    match v.focus {
        Focus::Keys => match v.selected_key {
            Some(k) => if k < v.display.len() {
                AppView { modal: Some(ModalView::ConfirmDeleteKey(v.display[k as int].0)), ..v }
            } else {
                v
            },
            None => v,
        },
        Focus::Projects => if v.selected_project is Some {
            delete_project_next(v)
        } else {
            v
        },
    }
}

pub open spec fn add_secret_next(v: AppView) -> AppView {
    if v.selected_project is Some {
        AppView {
            modal: Some(ModalView::AddKey(Seq::empty(), Seq::empty(), AddStep::KeyName)),
            ..v
        }
    } else {
        with_status(v, "Select a project first"@, MsgLevel::Error)
    }
}

/// What a key press does when no dialog is open.
pub open spec fn handle_key_next(v: AppView, code: KeyCode) -> (AppView, Seq<ActionView>) {
    match code {
        KeyCode::Char('q') | KeyCode::Esc => (AppView { running: false, ..v }, Seq::empty()),
        KeyCode::Up | KeyCode::Char('k') => navigate_up_next(v),
        KeyCode::Down | KeyCode::Char('j') => navigate_down_next(v),
        KeyCode::Tab => (
            AppView {
                focus: match v.focus {
                    Focus::Projects => Focus::Keys,
                    Focus::Keys => Focus::Projects,
                },
                ..v
            },
            Seq::empty(),
        ),
        KeyCode::Enter => handle_enter_next(v),
        KeyCode::Char('c') => copy_selected_next(v),
        KeyCode::Char('d') => (delete_selected_next(v), Seq::empty()),
        KeyCode::Char('a') => (add_secret_next(v), Seq::empty()),
        KeyCode::Char('p') => if v.focus == Focus::Keys {
            (AppView { focus: Focus::Projects, ..v }, Seq::empty())
        } else {
            (v, Seq::empty())
        },
        KeyCode::Char('D') => (delete_project_next(v), Seq::empty()),
        _ => (v, Seq::empty()),
    }
}

/// A character the key-name field takes: an ASCII letter (entered in
/// upper case), an ASCII digit or `_`, so that the name only ever holds
/// environment variable characters.
pub open spec fn is_name_input(c: char) -> bool {
    ('a' <= c && c <= 'z') || ('A' <= c && c <= 'Z') || ('0' <= c && c <= '9') || c == '_'
}

/// `to_ascii_uppercase`.
pub open spec fn ascii_upper(c: char) -> char {
    if 'a' <= c && c <= 'z' {
        ((c as u32) - 32) as char
    } else {
        c
    }
}

/// `String::pop`: the text without its last character.
pub open spec fn drop_last_char(s: Seq<char>) -> Seq<char> {
    if s.len() > 0 {
        s.drop_last()
    } else {
        s
    }
}

/// The add-secret dialog reading a key event; the result is the dialog
/// that stays open (if any), the new state and the work asked for.
pub open spec fn add_key_modal_next(
    v: AppView,
    ke: KeyInput,
    step: AddStep,
    name: Seq<char>,
    value: Seq<char>,
) -> (AppView, Option<ModalView>, Seq<ActionView>) {
    let keep = Some(ModalView::AddKey(name, value, step));
    if !ke.press {
        (v, keep, Seq::empty())
    } else {
        match step {
            AddStep::KeyName => match ke.code {
                KeyCode::Enter => if name.len() == 0 {
                    (v, None, Seq::empty())
                } else {
                    (v, Some(ModalView::AddKey(name, Seq::empty(), AddStep::KeyValue)), Seq::empty())
                },
                KeyCode::Esc => (v, None, Seq::empty()),
                KeyCode::Char(ch) => if is_name_input(ch) {
                    (v, Some(ModalView::AddKey(name.push(ascii_upper(ch)), value, step)), Seq::empty())
                } else {
                    (v, keep, Seq::empty())
                },
                KeyCode::Backspace => (
                    v,
                    Some(ModalView::AddKey(drop_last_char(name), value, step)),
                    Seq::empty(),
                ),
                _ => (v, keep, Seq::empty()),
            },
            AddStep::KeyValue => match ke.code {
                KeyCode::Enter => if value.len() == 0 {
                    (v, None, Seq::empty())
                } else {
                    match v.selected_project {
                        Some(i) => if i < v.projects.len() {
                            (v, None, seq![ActionView::SaveSecret(v.projects[i as int], name, value)])
                        } else {
                            (v, None, Seq::empty())
                        },
                        None => (v, None, Seq::empty()),
                    }
                },
                KeyCode::Esc => (v, None, Seq::empty()),
                KeyCode::Char(ch) => (
                    v,
                    Some(ModalView::AddKey(name, value.push(ch), step)),
                    Seq::empty(),
                ),
                KeyCode::Backspace => (
                    v,
                    Some(ModalView::AddKey(name, drop_last_char(value), step)),
                    Seq::empty(),
                ),
                _ => (v, keep, Seq::empty()),
            },
        }
    }
}

/// The delete-key dialog reading a key event.
pub open spec fn delete_key_modal_next(v: AppView, ke: KeyInput, key: Seq<char>) -> (
    AppView,
    Option<ModalView>,
    Seq<ActionView>,
) {
    let keep = Some(ModalView::ConfirmDeleteKey(key));
    if !ke.press {
        (v, keep, Seq::empty())
    } else {
        match ke.code {
            KeyCode::Char('y') | KeyCode::Enter => match v.selected_project {
                Some(i) => if i < v.projects.len() {
                    let p = v.projects[i as int];
                    (
                        with_status(
                            AppView { selected_key: None, ..v },
                            "Deleted "@ + key,
                            MsgLevel::Info,
                        ),
                        None,
                        seq![ActionView::DeleteSecret(p, key), ActionView::RemoveKeyFromIndex(p, key)]
                            + load_keys_actions(v),
                    )
                } else {
                    (v, None, Seq::empty())
                },
                None => (v, None, Seq::empty()),
            },
            KeyCode::Char('n') | KeyCode::Esc => (v, None, Seq::empty()),
            _ => (v, keep, Seq::empty()),
        }
    }
}

/// The remove-project dialog reading a key event.
pub open spec fn delete_project_modal_next(v: AppView, ke: KeyInput, project: Seq<char>) -> (
    AppView,
    Option<ModalView>,
    Seq<ActionView>,
) {
    let keep = Some(ModalView::ConfirmDeleteProject(project));
    if !ke.press {
        (v, keep, Seq::empty())
    } else {
        match ke.code {
            KeyCode::Char('y') | KeyCode::Enter => (
                with_status(
                    AppView { deselect: true, ..v },
                    "Removed project "@ + project,
                    MsgLevel::Info,
                ),
                None,
                seq![ActionView::ReadKeysForRemoval(project)],
            ),
            KeyCode::Char('n') | KeyCode::Esc => (v, None, Seq::empty()),
            _ => (v, keep, Seq::empty()),
        }
    }
}

/// An event while a dialog is open: the dialog handles it.
pub open spec fn modal_event_next(v: AppView, ev: InputEvent) -> (AppView, Seq<ActionView>) {
    match v.modal {
        None => (v, Seq::empty()),
        Some(m) => {
            let u = AppView { modal: None, ..v };
            let (w, nm, acts) = match ev {
                InputEvent::Key(ke) => match m {
                    ModalView::AddKey(name, value, step) => add_key_modal_next(u, ke, step, name, value),
                    ModalView::ConfirmDeleteKey(key) => delete_key_modal_next(u, ke, key),
                    ModalView::ConfirmDeleteProject(project) => delete_project_modal_next(u, ke, project),
                    ModalView::Message(text, level) => if ke.press {
                        (u, None, Seq::empty())
                    } else {
                        (u, Some(ModalView::Message(text, level)), Seq::empty())
                    },
                },
                _ => (u, Some(m), Seq::empty()),
            };
            (AppView { modal: nm, ..w }, acts)
        },
    }
}

/// What a terminal event does: a dialog takes it if one is open; otherwise
/// key presses are handled and other events ignored. The flag says whether
/// the TUI keeps running (always, after a dialog event).
pub open spec fn handle_event_next(v: AppView, ev: InputEvent) -> (AppView, Seq<ActionView>, bool) {
    if v.modal is Some {
        let (w, acts) = modal_event_next(v, ev);
        (w, acts, true)
    } else {
        let (w, acts) = match ev {
            InputEvent::Key(ke) => if ke.press {
                handle_key_next(v, ke.code)
            } else {
                (v, Seq::empty())
            },
            _ => (v, Seq::empty()),
        };
        (w, acts, w.running)
    }
}

/// A save finished: on success the key joins the index and the keys are
/// reloaded.
pub open spec fn secret_saved_next(v: AppView, project: Seq<char>, key: Seq<char>, ok: bool) -> (
    AppView,
    Seq<ActionView>,
) {
    if ok {
        (
            with_status(v, "Saved "@ + project + ":"@ + key, MsgLevel::Success),
            seq![ActionView::AddKeyToIndex(project, key)] + load_keys_actions(v),
        )
    } else {
        (with_status(v, "Failed to save secret"@, MsgLevel::Error), Seq::empty())
    }
}

/// The work that removing a project takes, once its keys are known.
pub open spec fn removal_actions(project: Seq<char>, keys: Seq<Seq<char>>) -> Seq<ActionView> {
    keys.map_values(|k: Seq<char>| ActionView::DeleteSecret(project, k)) + seq![
        ActionView::RemoveProjectIndex(project),
        ActionView::ReadProjects,
    ]
}

// ─── The state machine ────────────────────────────────────────────────

/// The TUI's state.
pub struct App {
    pub config: Config,
    pub projects: Vec<String>,
    pub selected_project: Option<usize>,
    pub selected_key: Option<usize>,
    pub focus: Focus,
    pub keys: Vec<String>,
    pub key_values: Vec<(String, String)>,
    pub copied: Option<String>,
    pub modal: Option<Modal>,
    pub key_list_offset: usize,
    pub status_msg: Option<(String, MsgLevel)>,
    pub running: bool,
    /// What the key list shows; rebuilt when the keys or values change.
    pub display_keys: Vec<KeyDisplayItem>,
    /// The generation of the background read whose result is awaited.
    pub awaiting_fetch: Option<u64>,
    /// The project being read in the background (stale results are ignored).
    pub pending_fetch_project: Option<String>,
    /// Bumped on each load of keys, to tell reads apart.
    pub fetch_gen: u64,
    /// Clear the selection once the project list is reloaded.
    pub deselect_after_refresh: bool,
}

/// Whether the key-name field takes `c`.
pub fn name_input_char(c: char) -> (r: bool)
    ensures
        r == is_name_input(c),
{
    ('a' <= c && c <= 'z') || ('A' <= c && c <= 'Z') || ('0' <= c && c <= '9') || c == '_'
}

/// The character `c` in ASCII upper case.
pub fn to_ascii_upper(c: char) -> (r: char)
    ensures
        r == ascii_upper(c),
{
    if 'a' <= c && c <= 'z' {
        let u = c as u32;
        let b = (u - 32) as u8;
        assert(b as u32 == u - 32);
        b as char
    } else {
        c
    }
}

fn pop_char(s: &String) -> (r: String)
    ensures
        r@ == drop_last_char(s@),
{
    let mut v = chars_of(s.as_str());
    if v.len() > 0 {
        v.pop();
    }
    string_of(&v)
}

fn push_to(s: &String, c: char) -> (r: String)
    ensures
        r@ == s@.push(c),
{
    let mut t = s.clone();
    crate::text::push_char(&mut t, c);
    t
}

fn concat2(a: &str, b: &str) -> (r: String)
    ensures
        r@ == a@ + b@,
{
    let mut s = String::from_str(a);
    s.append(b);
    s
}

/// Whether every value can be shown in the key list (see `obfuscation_defined`).
pub fn values_displayable(values: &Vec<(String, String)>) -> (r: bool)
    ensures
        r == forall|i: int| 0 <= i < values.len() ==> obfuscation_defined(#[trigger] values@[i].1@),
{
    let mut i: usize = 0;
    while i < values.len()
        invariant
            i <= values.len(),
            forall|t: int| 0 <= t < i ==> obfuscation_defined(#[trigger] values@[t].1@),
        decreases values.len() - i,
    {
        if !crate::display::can_obfuscate(&values[i].1) {
            return false;
        }
        i += 1;
    }
    true
}

impl App {
    /// The state, by value.
    pub open spec fn view(&self) -> AppView {
        AppView {
            projects: string_views(self.projects@),
            selected_project: self.selected_project,
            selected_key: self.selected_key,
            focus: self.focus,
            keys: string_views(self.keys@),
            key_values: kv_views(self.key_values@),
            copied: opt_string_view(self.copied),
            modal: modal_view(self.modal),
            key_list_offset: self.key_list_offset,
            status: status_view(self.status_msg),
            running: self.running,
            display: display_view(self.display_keys@),
            awaiting: self.awaiting_fetch,
            pending: opt_string_view(self.pending_fetch_project),
            fetch_gen: self.fetch_gen,
            deselect: self.deselect_after_refresh,
        }
    }

    /// A TUI on the project list `projects`, with nothing selected, the
    /// project pane focused, and no dialog.
    pub fn new(config: Config, projects: Vec<String>) -> (app: App)
        ensures
            app@ == (AppView {
                projects: string_views(projects@),
                selected_project: None,
                selected_key: None,
                focus: Focus::Projects,
                keys: Seq::empty(),
                key_values: Seq::empty(),
                copied: None,
                modal: None,
                key_list_offset: 0,
                status: None,
                running: true,
                display: Seq::empty(),
                awaiting: None,
                pending: None,
                fetch_gen: 0,
                deselect: false,
            }),
            app.config == config,
            selection_in_range(app@),
    {
        let app = App {
            config,
            projects,
            selected_project: None,
            selected_key: None,
            focus: Focus::Projects,
            keys: Vec::new(),
            key_values: Vec::new(),
            copied: None,
            modal: None,
            key_list_offset: 0,
            status_msg: None,
            running: true,
            display_keys: Vec::new(),
            awaiting_fetch: None,
            pending_fetch_project: None,
            fetch_gen: 0,
            deselect_after_refresh: false,
        };
        assert(string_views(app.keys@) =~= Seq::<Seq<char>>::empty());
        assert(kv_views(app.key_values@) =~= Seq::<(Seq<char>, Seq<char>)>::empty());
        assert(display_view(app.display_keys@) =~= Seq::<(Seq<char>, Seq<char>, Seq<char>)>::empty());
        app
    }

    /// Whether the selection lies inside the project list (and the key
    /// selection can still move down).
    pub fn is_consistent(&self) -> (r: bool)
        ensures
            r == selection_in_range(self@),
    {
        let p = match self.selected_project {
            Some(i) => i < self.projects.len(),
            None => true,
        };
        let k = match self.selected_key {
            Some(k) => k < usize::MAX,
            None => true,
        };
        p && k
    }

    /// Whether values are still being read in the background.
    pub fn is_loading_values(&self) -> (r: bool)
        ensures
            r == self@.awaiting is Some,
    {
        self.awaiting_fetch.is_some()
    }

    /// The name of the selected project.
    pub fn selected_project_name(&self) -> (r: Option<&str>)
        requires
            selection_in_range(self@),
        ensures
            match r {
                Some(s) => selected_name(self@) == Some(s@),
                None => selected_name(self@) is None,
            },
    {
        match self.selected_project {
            Some(i) => {
                assert(string_views(self.projects@)[i as int] == self.projects@[i as int]@);
                Some(self.projects[i].as_str())
            },
            None => None,
        }
    }

    fn set_status(&mut self, msg: String, level: MsgLevel)
        ensures
            final(self)@ == with_status(old(self)@, msg@, level),
            final(self).config == old(self).config,
    {
        self.status_msg = Some((msg, level));
    }

    fn load_keys(&self) -> (r: Vec<Action>)
        ensures
            actions_view(r@) == load_keys_actions(self@),
    {
        let mut r: Vec<Action> = Vec::new();
        match self.selected_project {
            Some(i) => {
                if i < self.projects.len() {
                    r.push(Action::ReadKeys { project: self.projects[i].clone() });
                    assert(actions_view(r@) =~= seq![ActionView::ReadKeys(self@.projects[i as int])]);
                } else {
                    assert(actions_view(r@) =~= Seq::<ActionView>::empty());
                }
            },
            None => {
                assert(actions_view(r@) =~= Seq::<ActionView>::empty());
            },
        }
        r
    }

    /// Selects project `index`, if it is in the list, clearing the key
    /// selection; asks for its keys.
    pub fn select_project(&mut self, index: usize) -> (r: Vec<Action>)
        ensures
            (final(self)@, actions_view(r@)) == select_project_next(old(self)@, index),
            final(self).config == old(self).config,
    {
        if index < self.projects.len() {
            self.selected_project = Some(index);
            self.selected_key = None;
            self.key_list_offset = 0;
            self.load_keys()
        } else {
            let r: Vec<Action> = Vec::new();
            assert(actions_view(r@) =~= Seq::<ActionView>::empty());
            r
        }
    }

    /// The keys of `project` were read: they are shown (without values)
    /// and a background read of their values is asked for.
    pub fn keys_loaded(&mut self, project: String, keys: Vec<String>) -> (r: Vec<Action>)
        ensures
            (final(self)@, actions_view(r@)) == keys_loaded_next(old(self)@, project@, string_views(keys@)),
            final(self).config == old(self).config,
    {
        let ghost pv = project@;
        let ghost kv = string_views(keys@);
        let g = if self.fetch_gen == u64::MAX {
            0
        } else {
            self.fetch_gen + 1
        };
        let mut display: Vec<KeyDisplayItem> = Vec::new();
        let mut i: usize = 0;
        while i < keys.len()
            invariant
                i <= keys.len(),
                display_view(display@) =~= placeholder_display(string_views(keys@)).subrange(0, i as int),
            decreases keys.len() - i,
        {
            let ghost before = display@;
            display.push(KeyDisplayItem { name: keys[i].clone(), obfuscated: String::new(), full_value: String::new() });
            assert(display_view(display@) =~= display_view(before).push((keys@[i as int]@, Seq::<char>::empty(), Seq::<char>::empty())));
            i += 1;
        }
        assert(placeholder_display(string_views(keys@)).subrange(0, keys.len() as int) =~= placeholder_display(string_views(keys@)));
        self.key_values = Vec::new();
        self.pending_fetch_project = Some(project.clone());
        self.display_keys = display;
        self.awaiting_fetch = Some(g);
        self.fetch_gen = g;
        let ks = keys.clone();
        self.keys = keys;
        let mut r: Vec<Action> = Vec::new();
        r.push(Action::FetchValues { project, keys: ks, generation: g });
        assert(kv_views(self.key_values@) =~= Seq::<(Seq<char>, Seq<char>)>::empty());
        assert(actions_view(r@) =~= seq![ActionView::FetchValues(pv, kv, g)]);
        r
    }

    fn empty_actions() -> (r: Vec<Action>)
        ensures
            actions_view(r@) == Seq::<ActionView>::empty(),
    {
        let r: Vec<Action> = Vec::new();
        assert(actions_view(r@) =~= Seq::<ActionView>::empty());
        r
    }

    /// Rebuilds the key list from the values: each key with its shortened
    /// value and its whole value.
    fn rebuild_display_cache(&mut self)
        requires
            forall|i: int| 0 <= i < old(self).key_values.len() ==> obfuscation_defined(
                #[trigger] old(self).key_values@[i].1@,
            ),
        ensures
            final(self)@ == (AppView { display: value_display(old(self)@.key_values), ..old(self)@ }),
            final(self).config == old(self).config,
    {
        let mut display: Vec<KeyDisplayItem> = Vec::new();
        let mut i: usize = 0;
        let ghost kv = kv_views(self.key_values@);
        while i < self.key_values.len()
            invariant
                i <= self.key_values.len(),
                kv == kv_views(self.key_values@),
                forall|t: int| 0 <= t < self.key_values.len() ==> obfuscation_defined(
                    #[trigger] self.key_values@[t].1@,
                ),
                display_view(display@) =~= value_display(kv).subrange(0, i as int),
            decreases self.key_values.len() - i,
        {
            let ghost before = display@;
            let (k, v) = (&self.key_values[i].0, &self.key_values[i].1);
            assert(obfuscation_defined(self.key_values@[i as int].1@));
            let item = KeyDisplayItem { name: k.clone(), obfuscated: obfuscate(v), full_value: v.clone() };
            display.push(item);
            assert(display_view(display@) =~= display_view(before).push(
                (kv[i as int].0, obfuscated(kv[i as int].1), kv[i as int].1),
            ));
            i += 1;
        }
        assert(value_display(kv).subrange(0, self.key_values.len() as int) =~= value_display(kv));
        self.display_keys = display;
    }

    /// Takes in what became of the background read: the values of the
    /// awaited read are shown if its project is still selected; stale
    /// results are ignored.
    pub fn check_value_fetch(&mut self, outcome: FetchOutcome)
        requires
            selection_in_range(old(self)@),
            outcome matches FetchOutcome::Values { values, .. } ==> forall|i: int|
                0 <= i < values.len() ==> obfuscation_defined(#[trigger] values@[i].1@),
        ensures
            final(self)@ == match outcome {
                FetchOutcome::Values { generation, values } => values_arrived_next(
                    old(self)@,
                    generation,
                    kv_views(values@),
                ),
                FetchOutcome::Empty => old(self)@,
                FetchOutcome::Disconnected { generation } => fetch_lost_next(old(self)@, generation),
            },
            final(self).config == old(self).config,
            selection_in_range(final(self)@),
    {
        match outcome {
            FetchOutcome::Values { generation, values } => {
                if self.awaiting_fetch != Some(generation) {
                    return;
                }
                self.awaiting_fetch = None;
                let mut project: Option<String> = None;
                std::mem::swap(&mut project, &mut self.pending_fetch_project);
                match project {
                    Some(p) => {
                        let same = match self.selected_project_name() {
                            Some(name) => {
                                let a = chars_of(name);
                                let b = chars_of(p.as_str());
                                crate::config::same_chars(&a, &b)
                            },
                            None => false,
                        };
                        if same {
                            self.key_values = values;
                            self.rebuild_display_cache();
                        }
                    },
                    None => {
                    },
                }
            },
            FetchOutcome::Empty => {
            },
            FetchOutcome::Disconnected { generation } => {
                if self.awaiting_fetch == Some(generation) {
                    self.awaiting_fetch = None;
                    self.pending_fetch_project = None;
                }
            },
        }
    }

    /// Asks for the project list to be read again (see `projects_loaded`).
    pub fn refresh_projects(&self) -> (r: Vec<Action>)
        ensures
            actions_view(r@) == seq![ActionView::ReadProjects],
    {
        let mut r: Vec<Action> = Vec::new();
        r.push(Action::ReadProjects);
        assert(actions_view(r@) =~= seq![ActionView::ReadProjects]);
        r
    }

    /// Asks for the selected project's keys to be read again.
    pub fn refresh_keys(&self) -> (r: Vec<Action>)
        ensures
            actions_view(r@) == load_keys_actions(self@),
    {
        self.load_keys()
    }

    /// The project list was read: it replaces the old one and the selected
    /// project's keys are asked for; after a project was removed the
    /// selection is then cleared.
    pub fn projects_loaded(&mut self, projects: Vec<String>) -> (r: Vec<Action>)
        ensures
            (final(self)@, actions_view(r@)) == projects_loaded_next(old(self)@, string_views(projects@)),
            final(self).config == old(self).config,
    {
        self.projects = projects;
        let r = self.load_keys();
        if self.deselect_after_refresh {
            self.selected_project = None;
            self.selected_key = None;
            self.key_values = Vec::new();
            self.deselect_after_refresh = false;
            assert(kv_views(self.key_values@) =~= Seq::<(Seq<char>, Seq<char>)>::empty());
        }
        r
    }

    /// The work that removing `project` takes once its keys are known:
    /// deleting each secret, removing the index file, and reading the
    /// project list again.
    pub fn removal_keys_loaded(&self, project: &str, keys: &Vec<String>) -> (r: Vec<Action>)
        ensures
            actions_view(r@) == removal_actions(project@, string_views(keys@)),
    {
        let mut r: Vec<Action> = Vec::new();
        let ghost ks = string_views(keys@);
        let mut i: usize = 0;
        while i < keys.len()
            invariant
                i <= keys.len(),
                ks == string_views(keys@),
                actions_view(r@) =~= ks.subrange(0, i as int).map_values(
                    |k: Seq<char>| ActionView::DeleteSecret(project@, k),
                ),
            decreases keys.len() - i,
        {
            let ghost before = r@;
            r.push(Action::DeleteSecret { project: String::from_str(project), key: keys[i].clone() });
            assert(actions_view(r@) =~= actions_view(before).push(ActionView::DeleteSecret(project@, ks[i as int])));
            assert(ks.subrange(0, i + 1).map_values(|k: Seq<char>| ActionView::DeleteSecret(project@, k))
                =~= ks.subrange(0, i as int).map_values(|k: Seq<char>| ActionView::DeleteSecret(project@, k)).push(ActionView::DeleteSecret(project@, ks[i as int])));
            i += 1;
        }
        let ghost mid = r@;
        r.push(Action::RemoveProjectIndex { project: String::from_str(project) });
        r.push(Action::ReadProjects);
        assert(ks.subrange(0, keys.len() as int) =~= ks);
        assert(actions_view(r@) =~= actions_view(mid) + seq![ActionView::RemoveProjectIndex(project@), ActionView::ReadProjects]);
        r
    }

    /// A save asked for by the add-secret dialog finished.
    pub fn secret_saved(&mut self, project: &str, key: &str, ok: bool) -> (r: Vec<Action>)
        ensures
            (final(self)@, actions_view(r@)) == secret_saved_next(old(self)@, project@, key@, ok),
            final(self).config == old(self).config,
    {
        if ok {
            let mut msg = concat2("Saved ", project);
            msg.append(":");
            msg.append(key);
            let mut r: Vec<Action> = Vec::new();
            r.push(Action::AddKeyToIndex { project: String::from_str(project), key: String::from_str(key) });
            let rest = self.load_keys();
            let ghost first = actions_view(r@);
            let mut rest = rest;
            r.append(&mut rest);
            assert(actions_view(r@) =~= first + load_keys_actions(self@));
            self.set_status(msg, MsgLevel::Success);
            r
        } else {
            self.set_status(String::from_str("Failed to save secret"), MsgLevel::Error);
            Self::empty_actions()
        }
    }

    /// Moves the selection up in the focused pane; with nothing selected,
    /// selects the last item.
    pub fn navigate_up(&mut self) -> (r: Vec<Action>)
        ensures
            (final(self)@, actions_view(r@)) == navigate_up_next(old(self)@),
            final(self).config == old(self).config,
    {
        match self.focus {
            Focus::Projects => {
                match self.selected_project {
                    Some(idx) => {
                        if idx > 0 {
                            self.select_project(idx - 1)
                        } else {
                            Self::empty_actions()
                        }
                    },
                    None => {
                        if self.projects.len() > 0 {
                            let last = self.projects.len() - 1;
                            self.select_project(last)
                        } else {
                            Self::empty_actions()
                        }
                    },
                }
            },
            Focus::Keys => {
                match self.selected_key {
                    Some(idx) => {
                        if idx > 0 {
                            self.selected_key = Some(idx - 1);
                        }
                    },
                    None => {
                        if self.display_keys.len() > 0 {
                            self.selected_key = Some(self.display_keys.len() - 1);
                        }
                    },
                }
                Self::empty_actions()
            },
        }
    }

    /// Moves the selection down in the focused pane; with nothing
    /// selected, selects the first item.
    pub fn navigate_down(&mut self) -> (r: Vec<Action>)
        requires
            selection_in_range(old(self)@),
        ensures
            (final(self)@, actions_view(r@)) == navigate_down_next(old(self)@),
            final(self).config == old(self).config,
    {
        match self.focus {
            Focus::Projects => {
                let max = if self.projects.len() > 0 { self.projects.len() - 1 } else { 0 };
                let next = match self.selected_project {
                    Some(i) => i + 1,
                    None => 0,
                };
                if next <= max {
                    self.select_project(next)
                } else {
                    Self::empty_actions()
                }
            },
            Focus::Keys => {
                let max = if self.display_keys.len() > 0 { self.display_keys.len() - 1 } else { 0 };
                let next = match self.selected_key {
                    Some(k) => k + 1,
                    None => 0,
                };
                if next <= max {
                    self.selected_key = Some(next);
                }
                Self::empty_actions()
            },
        }
    }

    /// Copies the selected key's value: the driver puts it on the
    /// clipboard; its first 16 characters are remembered and a status says so.
    fn copy_selected(&mut self) -> (r: Vec<Action>)
        ensures
            (final(self)@, actions_view(r@)) == copy_selected_next(old(self)@),
            final(self).config == old(self).config,
    {
        let val: Option<String> = match self.focus {
            Focus::Keys => match self.selected_key {
                Some(i) => {
                    if i < self.display_keys.len() {
                        Some(self.display_keys[i].full_value.clone())
                    } else {
                        None
                    }
                },
                None => None,
            },
            Focus::Projects => None,
        };
        match val {
            Some(v) => {
                self.copied = Some(first_chars16(&v));
                self.set_status(String::from_str("Copied to clipboard!"), MsgLevel::Success);
                let mut r: Vec<Action> = Vec::new();
                let ghost vv = v@;
                r.push(Action::CopyToClipboard { value: v });
                assert(actions_view(r@) =~= seq![ActionView::CopyToClipboard(vv)]);
                r
            },
            None => Self::empty_actions(),
        }
    }

    /// Enter: in the project pane, moves to the first key (if the project
    /// has keys); in the key pane, copies the selected value.
    fn handle_enter(&mut self) -> (r: Vec<Action>)
        ensures
            (final(self)@, actions_view(r@)) == handle_enter_next(old(self)@),
            final(self).config == old(self).config,
    {
        match self.focus {
            Focus::Projects => {
                if self.selected_project.is_some() && self.display_keys.len() > 0 {
                    self.focus = Focus::Keys;
                    self.selected_key = Some(0);
                }
                Self::empty_actions()
            },
            Focus::Keys => self.copy_selected(),
        }
    }

    /// Opens the dialog that confirms removing the selected project.
    fn delete_project(&mut self)
        ensures
            final(self)@ == delete_project_next(old(self)@),
            final(self).config == old(self).config,
    {
        match self.selected_project {
            Some(i) => {
                if i < self.projects.len() {
                    let project = self.projects[i].clone();
                    self.modal = Some(Modal::ConfirmDeleteProject { project });
                }
            },
            None => {
            },
        }
    }

    /// Opens the dialog that confirms deleting the selected key (or, in the
    /// project pane, removing the selected project).
    fn delete_selected(&mut self)
        ensures
            final(self)@ == delete_selected_next(old(self)@),
            final(self).config == old(self).config,
    {
        match self.focus {
            Focus::Keys => {
                match self.selected_key {
                    Some(i) => {
                        if i < self.display_keys.len() {
                            let key = self.display_keys[i].name.clone();
                            self.modal = Some(Modal::ConfirmDeleteKey { key });
                        }
                    },
                    None => {
                    },
                }
            },
            Focus::Projects => {
                if self.selected_project.is_some() {
                    self.delete_project();
                }
            },
        }
    }

    /// Opens the add-secret dialog, or says that a project must be selected first.
    fn add_secret(&mut self)
        ensures
            final(self)@ == add_secret_next(old(self)@),
            final(self).config == old(self).config,
    {
        if self.selected_project.is_some() {
            self.modal = Some(Modal::AddKey { key_name: String::new(), key_value: String::new(), step: AddStep::KeyName });
        } else {
            self.set_status(String::from_str("Select a project first"), MsgLevel::Error);
        }
    }

    /// A key press with no dialog open.
    fn handle_key(&mut self, code: KeyCode) -> (r: Vec<Action>)
        requires
            selection_in_range(old(self)@),
        ensures
            (final(self)@, actions_view(r@)) == handle_key_next(old(self)@, code),
            final(self).config == old(self).config,
    {
        match code {
            KeyCode::Char('q') | KeyCode::Esc => {
                self.running = false;
                Self::empty_actions()
            },
            KeyCode::Up | KeyCode::Char('k') => self.navigate_up(),
            KeyCode::Down | KeyCode::Char('j') => self.navigate_down(),
            KeyCode::Tab => {
                self.focus = match self.focus {
                    Focus::Projects => Focus::Keys,
                    Focus::Keys => Focus::Projects,
                };
                Self::empty_actions()
            },
            KeyCode::Enter => self.handle_enter(),
            KeyCode::Char('c') => self.copy_selected(),
            KeyCode::Char('d') => {
                self.delete_selected();
                Self::empty_actions()
            },
            KeyCode::Char('a') => {
                self.add_secret();
                Self::empty_actions()
            },
            KeyCode::Char('p') => {
                if self.focus == Focus::Keys {
                    self.focus = Focus::Projects;
                }
                Self::empty_actions()
            },
            KeyCode::Char('D') => {
                self.delete_project();
                Self::empty_actions()
            },
            _ => Self::empty_actions(),
        }
    }

    /// The add-secret dialog reading a key event; returns the dialog that
    /// stays open, if any, and the work asked for.
    fn handle_add_key_modal(&mut self, ke: KeyInput, step: AddStep, key_name: String, key_value: String) -> (r: (
        Option<Modal>,
        Vec<Action>,
    ))
        ensures
            (final(self)@, modal_view(r.0), actions_view(r.1@)) == add_key_modal_next(
                old(self)@,
                ke,
                step,
                key_name@,
                key_value@,
            ),
            final(self).config == old(self).config,
    {
        if !ke.press {
            return (Some(Modal::AddKey { key_name, key_value, step }), Self::empty_actions());
        }
        match step {
            AddStep::KeyName => {
                match ke.code {
                    KeyCode::Enter => {
                        if key_name.as_str().is_empty() {
                            return (None, Self::empty_actions());
                        }
                        (Some(Modal::AddKey { key_name, key_value: String::new(), step: AddStep::KeyValue }), Self::empty_actions())
                    },
                    KeyCode::Esc => (None, Self::empty_actions()),
                    KeyCode::Char(ch) => {
                        if name_input_char(ch) {
                            let name = push_to(&key_name, to_ascii_upper(ch));
                            (Some(Modal::AddKey { key_name: name, key_value, step }), Self::empty_actions())
                        } else {
                            (Some(Modal::AddKey { key_name, key_value, step }), Self::empty_actions())
                        }
                    },
                    KeyCode::Backspace => {
                        let name = pop_char(&key_name);
                        (Some(Modal::AddKey { key_name: name, key_value, step }), Self::empty_actions())
                    },
                    _ => (Some(Modal::AddKey { key_name, key_value, step }), Self::empty_actions()),
                }
            },
            AddStep::KeyValue => {
                match ke.code {
                    KeyCode::Enter => {
                        if key_value.as_str().is_empty() {
                            return (None, Self::empty_actions());
                        }
                        match self.selected_project {
                            Some(i) => {
                                if i < self.projects.len() {
                                    let project = self.projects[i].clone();
                                    let mut r: Vec<Action> = Vec::new();
                                    let ghost (pv, nv, vv) = (project@, key_name@, key_value@);
                                    r.push(Action::SaveSecret { project, key: key_name, value: key_value });
                                    assert(actions_view(r@) =~= seq![ActionView::SaveSecret(pv, nv, vv)]);
                                    (None, r)
                                } else {
                                    (None, Self::empty_actions())
                                }
                            },
                            None => (None, Self::empty_actions()),
                        }
                    },
                    KeyCode::Esc => (None, Self::empty_actions()),
                    KeyCode::Char(ch) => {
                        let value = push_to(&key_value, ch);
                        (Some(Modal::AddKey { key_name, key_value: value, step }), Self::empty_actions())
                    },
                    KeyCode::Backspace => {
                        let value = pop_char(&key_value);
                        (Some(Modal::AddKey { key_name, key_value: value, step }), Self::empty_actions())
                    },
                    _ => (Some(Modal::AddKey { key_name, key_value, step }), Self::empty_actions()),
                }
            },
        }
    }

    /// The delete-key dialog reading a key event.
    fn handle_delete_key_modal(&mut self, ke: KeyInput, key: String) -> (r: (Option<Modal>, Vec<Action>))
        ensures
            (final(self)@, modal_view(r.0), actions_view(r.1@)) == delete_key_modal_next(old(self)@, ke, key@),
            final(self).config == old(self).config,
    {
        if !ke.press {
            return (Some(Modal::ConfirmDeleteKey { key }), Self::empty_actions());
        }
        match ke.code {
            KeyCode::Char('y') | KeyCode::Enter => {
                match self.selected_project {
                    Some(i) => {
                        if i < self.projects.len() {
                            let project = self.projects[i].clone();
                            let mut r: Vec<Action> = Vec::new();
                            r.push(Action::DeleteSecret { project: project.clone(), key: key.clone() });
                            r.push(Action::RemoveKeyFromIndex { project: project.clone(), key: key.clone() });
                            let ghost first = actions_view(r@);
                            assert(first =~= seq![ActionView::DeleteSecret(project@, key@), ActionView::RemoveKeyFromIndex(project@, key@)]);
                            let mut rest = self.load_keys();
                            r.append(&mut rest);
                            assert(actions_view(r@) =~= first + load_keys_actions(old(self)@));
                            self.selected_key = None;
                            let msg = concat2("Deleted ", key.as_str());
                            self.set_status(msg, MsgLevel::Info);
                            (None, r)
                        } else {
                            (None, Self::empty_actions())
                        }
                    },
                    None => (None, Self::empty_actions()),
                }
            },
            KeyCode::Char('n') | KeyCode::Esc => (None, Self::empty_actions()),
            _ => (Some(Modal::ConfirmDeleteKey { key }), Self::empty_actions()),
        }
    }

    /// The remove-project dialog reading a key event.
    fn handle_delete_project_modal(&mut self, ke: KeyInput, project: String) -> (r: (Option<Modal>, Vec<Action>))
        ensures
            (final(self)@, modal_view(r.0), actions_view(r.1@)) == delete_project_modal_next(old(self)@, ke, project@),
            final(self).config == old(self).config,
    {
        if !ke.press {
            return (Some(Modal::ConfirmDeleteProject { project }), Self::empty_actions());
        }
        match ke.code {
            KeyCode::Char('y') | KeyCode::Enter => {
                let mut r: Vec<Action> = Vec::new();
                r.push(Action::ReadKeysForRemoval { project: project.clone() });
                assert(actions_view(r@) =~= seq![ActionView::ReadKeysForRemoval(project@)]);
                self.deselect_after_refresh = true;
                let msg = concat2("Removed project ", project.as_str());
                self.set_status(msg, MsgLevel::Info);
                (None, r)
            },
            KeyCode::Char('n') | KeyCode::Esc => (None, Self::empty_actions()),
            _ => (Some(Modal::ConfirmDeleteProject { project }), Self::empty_actions()),
        }
    }

    /// An event while a dialog is open: the dialog takes it.
    fn handle_modal_event(&mut self, ev: InputEvent) -> (r: Vec<Action>)
        ensures
            (final(self)@, actions_view(r@)) == modal_event_next(old(self)@, ev),
            final(self).config == old(self).config,
    {
        let mut taken: Option<Modal> = None;
        std::mem::swap(&mut taken, &mut self.modal);
        let m = match taken {
            Some(m) => m,
            None => {
                return Self::empty_actions();
            },
        };
        let ghost mv = m@;
        let (new_modal, acts) = match ev {
            InputEvent::Key(ke) => match m {
                Modal::AddKey { key_name, key_value, step } => self.handle_add_key_modal(ke, step, key_name, key_value),
                Modal::ConfirmDeleteKey { key } => self.handle_delete_key_modal(ke, key),
                Modal::ConfirmDeleteProject { project } => self.handle_delete_project_modal(ke, project),
                Modal::Message { text, level } => {
                    if ke.press {
                        (None, Self::empty_actions())
                    } else {
                        (Some(Modal::Message { text, level }), Self::empty_actions())
                    }
                },
            },
            _ => (Some(m), Self::empty_actions()),
        };
        self.modal = new_modal;
        acts
    }

    /// A terminal event: a dialog takes it if one is open; otherwise key
    /// presses are handled. Returns whether the TUI keeps running, and the
    /// work asked for.
    pub fn handle_event(&mut self, ev: InputEvent) -> (r: (bool, Vec<Action>))
        requires
            selection_in_range(old(self)@),
        ensures
            (final(self)@, actions_view(r.1@), r.0) == handle_event_next(old(self)@, ev),
            final(self).config == old(self).config,
    {
        if self.modal.is_some() {
            let acts = self.handle_modal_event(ev);
            return (true, acts);
        }
        let acts = match ev {
            InputEvent::Key(ke) => {
                if ke.press {
                    self.handle_key(ke.code)
                } else {
                    Self::empty_actions()
                }
            },
            _ => Self::empty_actions(),
        };
        (self.running, acts)
    }
}

// ─── Laws ─────────────────────────────────────────────────────────────

/// Every terminal event keeps the selection inside the project list.
pub proof fn lemma_event_keeps_selection(v: AppView, ev: InputEvent)
    requires
        bounded(v),
        selection_in_range(v),
    ensures
        selection_in_range(handle_event_next(v, ev).0),
{
    if v.modal is Some {
        lemma_modal_keeps_selection(v, ev);
    } else {
        match ev {
            InputEvent::Key(ke) => {
                if ke.press {
                    lemma_key_keeps_selection(v, ke.code);
                }
            },
            _ => {},
        }
    }
}

proof fn lemma_select_keeps_selection(v: AppView, index: usize)
    requires
        selection_in_range(v),
    ensures
        selection_in_range(select_project_next(v, index).0),
{
}

proof fn lemma_key_keeps_selection(v: AppView, code: KeyCode)
    requires
        bounded(v),
        selection_in_range(v),
    ensures
        selection_in_range(handle_key_next(v, code).0),
{
    match code {
        KeyCode::Up | KeyCode::Char('k') => {
            match v.focus {
                Focus::Projects => match v.selected_project {
                    Some(i) => if i > 0 {
                        lemma_select_keeps_selection(v, (i - 1) as usize);
                    },
                    None => if v.projects.len() > 0 {
                        lemma_select_keeps_selection(v, (v.projects.len() - 1) as usize);
                    },
                },
                Focus::Keys => {},
            }
        },
        KeyCode::Down | KeyCode::Char('j') => {
            match v.focus {
                Focus::Projects => {
                    let next: int = match v.selected_project {
                        Some(i) => i + 1,
                        None => 0,
                    };
                    lemma_select_keeps_selection(v, next as usize);
                },
                Focus::Keys => {},
            }
        },
        _ => {},
    }
}

proof fn lemma_modal_keeps_selection(v: AppView, ev: InputEvent)
    requires
        bounded(v),
        selection_in_range(v),
        v.modal is Some,
    ensures
        selection_in_range(handle_event_next(v, ev).0),
{
}

/// Values arriving, or a read being lost, keep the selection inside the
/// project list; so does reading the keys, and so does a finished save.
pub proof fn lemma_results_keep_selection(
    v: AppView,
    generation: u64,
    values: Seq<(Seq<char>, Seq<char>)>,
    project: Seq<char>,
    keys: Seq<Seq<char>>,
    ok: bool,
)
    requires
        selection_in_range(v),
    ensures
        selection_in_range(values_arrived_next(v, generation, values)),
        selection_in_range(fetch_lost_next(v, generation)),
        selection_in_range(keys_loaded_next(v, project, keys).0),
        selection_in_range(secret_saved_next(v, project, key_of(keys), ok).0),
{
}

/// Any key name, for stating laws over one.
pub open spec fn key_of(keys: Seq<Seq<char>>) -> Seq<char> {
    if keys.len() > 0 { keys[0] } else { Seq::empty() }
}

/// Once a project is removed and the project list reloaded, nothing is
/// selected any more.
pub proof fn lemma_removal_clears_selection(v: AppView, project: Seq<char>, projects: Seq<Seq<char>>)
    requires
        v.modal == Some(ModalView::ConfirmDeleteProject(project)),
    ensures
        ({
            let (w, acts, running) = handle_event_next(
                v,
                InputEvent::Key(KeyInput { code: KeyCode::Char('y'), press: true }),
            );
            &&& acts == seq![ActionView::ReadKeysForRemoval(project)]
            &&& w.modal is None
            &&& w.status == Some(("Removed project "@ + project, MsgLevel::Info))
            &&& projects_loaded_next(w, projects).0.selected_project is None
            &&& projects_loaded_next(w, projects).0.selected_key is None
            &&& projects_loaded_next(w, projects).0.key_values.len() == 0
        }),
{
}

/// A result of a read that a newer load of keys replaced changes nothing:
/// after keys are loaded, only the read they ask for is awaited.
pub proof fn lemma_stale_values_ignored(
    v: AppView,
    project: Seq<char>,
    keys: Seq<Seq<char>>,
    generation: u64,
    values: Seq<(Seq<char>, Seq<char>)>,
)
    requires
        generation != next_gen(v.fetch_gen),
    ensures
        values_arrived_next(keys_loaded_next(v, project, keys).0, generation, values)
            == keys_loaded_next(v, project, keys).0,
{
}

/// The values read for the keys just loaded are shown, when their project
/// is still the selected one.
pub proof fn lemma_fetched_values_shown(
    v: AppView,
    project: Seq<char>,
    keys: Seq<Seq<char>>,
    values: Seq<(Seq<char>, Seq<char>)>,
)
    requires
        selected_name(v) == Some(project),
    ensures
        ({
            let (w, acts) = keys_loaded_next(v, project, keys);
            let g = next_gen(v.fetch_gen);
            &&& acts == seq![ActionView::FetchValues(project, keys, g)]
            &&& w.keys == keys
            &&& values_arrived_next(w, g, values).key_values == values
            &&& values_arrived_next(w, g, values).display == value_display(values)
            &&& values_arrived_next(w, g, values).awaiting is None
        }),
{
}

/// Esc closes any open dialog and asks for nothing.
pub proof fn lemma_esc_closes_dialog(v: AppView)
    requires
        v.modal is Some,
    ensures
        ({
            let (w, acts, running) = handle_event_next(
                v,
                InputEvent::Key(KeyInput { code: KeyCode::Esc, press: true }),
            );
            &&& w.modal is None
            &&& acts.len() == 0
            &&& running
            &&& w == (AppView { modal: None, ..v })
        }),
{
}

/// Tab twice gives the keyboard back to the pane that had it.
pub proof fn lemma_tab_twice(v: AppView)
    requires
        v.modal is None,
    ensures
        ({
            let tab = InputEvent::Key(KeyInput { code: KeyCode::Tab, press: true });
            let (w, a1, r1) = handle_event_next(v, tab);
            let (x, a2, r2) = handle_event_next(w, tab);
            &&& x == v
            &&& a1.len() == 0
            &&& a2.len() == 0
        }),
{
}

/// `q` stops the TUI when no dialog is open.
pub proof fn lemma_q_quits(v: AppView)
    requires
        v.modal is None,
    ensures
        ({
            let (w, acts, running) = handle_event_next(
                v,
                InputEvent::Key(KeyInput { code: KeyCode::Char('q'), press: true }),
            );
            &&& !running
            &&& !w.running
            &&& acts.len() == 0
        }),
{
}

/// In the project pane, moving down and then up comes back to the project
/// that was selected (when it is not the last one).
pub proof fn lemma_down_then_up(v: AppView, i: usize)
    requires
        bounded(v),
        v.focus == Focus::Projects,
        v.selected_project == Some(i),
        i + 1 < v.projects.len(),
    ensures
        navigate_up_next(navigate_down_next(v).0).0.selected_project == Some(i),
        navigate_down_next(v).0.selected_project == Some((i + 1) as usize),
{
    let j = (i + 1) as usize;
    let w = navigate_down_next(v).0;
    assert(w == select_project_next(v, j).0);
    assert(w.selected_project == Some(j));
    assert(w.focus == Focus::Projects);
    assert(navigate_up_next(w).0 == select_project_next(w, (j - 1) as usize).0);
}

/// Confirming the deletion of a key asks to delete its secret, to remove it
/// from the index and to reload the project's keys.
pub proof fn lemma_confirm_delete_key(v: AppView, key: Seq<char>, i: usize)
    requires
        v.modal == Some(ModalView::ConfirmDeleteKey(key)),
        v.selected_project == Some(i),
        i < v.projects.len(),
    ensures
        ({
            let (w, acts, running) = handle_event_next(
                v,
                InputEvent::Key(KeyInput { code: KeyCode::Char('y'), press: true }),
            );
            let p = v.projects[i as int];
            &&& acts == seq![
                ActionView::DeleteSecret(p, key),
                ActionView::RemoveKeyFromIndex(p, key),
                ActionView::ReadKeys(p),
            ]
            &&& w.modal is None
            &&& w.selected_key is None
        }),
{
    let p = v.projects[i as int];
    let u = AppView { modal: None, ..v };
    assert(load_keys_actions(u) == seq![ActionView::ReadKeys(p)]);
    assert(seq![ActionView::DeleteSecret(p, key), ActionView::RemoveKeyFromIndex(p, key)]
        + seq![ActionView::ReadKeys(p)] =~= seq![
        ActionView::DeleteSecret(p, key),
        ActionView::RemoveKeyFromIndex(p, key),
        ActionView::ReadKeys(p),
    ]);
}

/// Entering a value and pressing Enter in the add-secret dialog asks to
/// save exactly that key name and value under the selected project.
pub proof fn lemma_add_secret_saves(v: AppView, name: Seq<char>, value: Seq<char>, i: usize)
    requires
        v.modal == Some(ModalView::AddKey(name, value, AddStep::KeyValue)),
        value.len() > 0,
        v.selected_project == Some(i),
        i < v.projects.len(),
    ensures
        ({
            let (w, acts, running) = handle_event_next(
                v,
                InputEvent::Key(KeyInput { code: KeyCode::Enter, press: true }),
            );
            &&& acts == seq![ActionView::SaveSecret(v.projects[i as int], name, value)]
            &&& w.modal is None
        }),
{
}

/// The key-name field of the add-secret dialog only ever holds environment
/// variable characters (uppercase ASCII letters, digits, `_`): whatever
/// event arrives, a name made of such characters stays made of them, and
/// the name carried on to the value step is the one typed.
pub proof fn lemma_name_field_holds_key_chars(v: AppView, ev: InputEvent, name: Seq<char>, value: Seq<char>)
    requires
        v.modal == Some(ModalView::AddKey(name, value, AddStep::KeyName)),
        forall|i: int| 0 <= i < name.len() ==> is_key_char(#[trigger] name[i]),
    ensures
        ({
            let w = handle_event_next(v, ev).0;
            &&& w.modal matches Some(ModalView::AddKey(n2, _, _)) ==> forall|i: int|
                0 <= i < n2.len() ==> is_key_char(#[trigger] n2[i])
            &&& w.modal matches Some(ModalView::AddKey(n2, _, AddStep::KeyValue)) ==> n2 == name
        }),
{
    let w = handle_event_next(v, ev).0;
    match ev {
        InputEvent::Key(ke) => {
            if ke.press {
                match ke.code {
                    KeyCode::Char(ch) => {
                        if is_name_input(ch) {
                            let u = ascii_upper(ch);
                            assert(is_key_char(u)) by {
                                if 'a' <= ch && ch <= 'z' {
                                    let x = (ch as u32) - 32;
                                    assert(65 <= x <= 90);
                                    assert((x as char) as u32 == x);
                                }
                            }
                            let n2 = name.push(u);
                            assert forall|i: int| 0 <= i < n2.len() implies is_key_char(#[trigger] n2[i]) by {
                                if i < name.len() {
                                    assert(n2[i] == name[i]);
                                }
                            }
                        }
                    },
                    KeyCode::Backspace => {
                        let n2 = drop_last_char(name);
                        assert forall|i: int| 0 <= i < n2.len() implies is_key_char(#[trigger] n2[i]) by {
                            assert(n2[i] == name[i]);
                        }
                    },
                    _ => {},
                }
            }
        },
        _ => {},
    }
}

/// What each key does when no dialog is open (the README's key table):
/// `q` and Esc stop the TUI and change nothing else; Tab switches panes and
/// changes nothing else; `p` in the key pane goes to the project pane;
/// Up/`k` and Down/`j` move the selection; Enter selects or copies; `c`
/// copies; `d` deletes the selected item; `a` opens the add-secret dialog;
/// `D` asks to delete the project; any other key changes nothing. Releases
/// and non-key events change nothing.
pub proof fn lemma_key_bindings(v: AppView, ke: KeyInput)
    requires
        v.modal is None,
    ensures
        ({
            let (w, acts, running) = handle_event_next(v, InputEvent::Key(ke));
            &&& running == w.running
            &&& !ke.press ==> w == v && acts.len() == 0
            &&& ke.press ==> match ke.code {
                KeyCode::Char('q') | KeyCode::Esc => w == (AppView { running: false, ..v })
                    && acts.len() == 0 && !running,
                KeyCode::Tab => w == (AppView {
                    focus: if v.focus == Focus::Projects { Focus::Keys } else { Focus::Projects },
                    ..v
                }) && acts.len() == 0,
                KeyCode::Char('p') => acts.len() == 0 && w == (if v.focus == Focus::Keys {
                    AppView { focus: Focus::Projects, ..v }
                } else {
                    v
                }),
                KeyCode::Up | KeyCode::Char('k') => (w, acts) == navigate_up_next(v),
                KeyCode::Down | KeyCode::Char('j') => (w, acts) == navigate_down_next(v),
                KeyCode::Enter => (w, acts) == handle_enter_next(v),
                KeyCode::Char('c') => (w, acts) == copy_selected_next(v),
                KeyCode::Char('d') => w == delete_selected_next(v) && acts.len() == 0,
                KeyCode::Char('a') => w == add_secret_next(v) && acts.len() == 0,
                KeyCode::Char('D') => w == delete_project_next(v) && acts.len() == 0,
                KeyCode::Char(ch) => w == v && acts.len() == 0,
                _ => w == v && acts.len() == 0,
            }
        }),
        handle_event_next(v, InputEvent::Resize) == (v, Seq::<ActionView>::empty(), v.running),
        handle_event_next(v, InputEvent::Other) == (v, Seq::<ActionView>::empty(), v.running),
{
}

/// Removing a project deletes every one of its secrets exactly once, in the
/// order of its keys, then drops its index file and reloads the project
/// list: action `i` deletes `keys[i]` for each key, and nothing else is
/// deleted.
pub proof fn lemma_removal_deletes_each_key(project: Seq<char>, keys: Seq<Seq<char>>)
    ensures
        removal_actions(project, keys).len() == keys.len() + 2,
        forall|i: int| 0 <= i < keys.len() ==> removal_actions(project, keys)[i]
            == ActionView::DeleteSecret(project, #[trigger] keys[i]),
        removal_actions(project, keys)[keys.len() as int] == ActionView::RemoveProjectIndex(project),
        removal_actions(project, keys)[keys.len() + 1int] == ActionView::ReadProjects,
{
}

/// Backspace in the add-secret dialog removes the last character typed:
/// at the value step the value loses its last character (an empty value
/// stays empty) and the key name and step are kept; at the name step the
/// name loses its last character. Nothing else changes and no work is asked.
pub proof fn lemma_backspace_in_dialog(v: AppView, name: Seq<char>, value: Seq<char>, step: AddStep)
    requires
        v.modal == Some(ModalView::AddKey(name, value, step)),
    ensures
        ({
            let (w, acts, running) = handle_event_next(
                v,
                InputEvent::Key(KeyInput { code: KeyCode::Backspace, press: true }),
            );
            let shorter_value = if value.len() > 0 { value.subrange(0, value.len() - 1) } else { value };
            let shorter_name = if name.len() > 0 { name.subrange(0, name.len() - 1) } else { name };
            &&& acts.len() == 0
            &&& running
            &&& step == AddStep::KeyValue ==> w == (AppView {
                modal: Some(ModalView::AddKey(name, shorter_value, AddStep::KeyValue)),
                ..v
            })
            &&& step == AddStep::KeyName ==> w == (AppView {
                modal: Some(ModalView::AddKey(shorter_name, value, AddStep::KeyName)),
                ..v
            })
        }),
{
    if value.len() > 0 {
        assert(value.drop_last() =~= value.subrange(0, value.len() - 1));
    }
    if name.len() > 0 {
        assert(name.drop_last() =~= name.subrange(0, name.len() - 1));
    }
}

/// In the key pane, Up moves the selection one key up (from key `k > 0` to
/// key `k - 1`), and Down then Up from key `k` comes back to key `k` when
/// there is a key below it; neither asks for work.
pub proof fn lemma_key_pane_up_down(v: AppView, k: usize)
    requires
        bounded(v),
        v.modal is None,
        v.focus == Focus::Keys,
        v.selected_key == Some(k),
    ensures
        ({
            let up = InputEvent::Key(KeyInput { code: KeyCode::Up, press: true });
            let (w, acts, _) = handle_event_next(v, up);
            k > 0 ==> w.selected_key == Some((k - 1) as usize) && acts.len() == 0 && w == (AppView {
                selected_key: Some((k - 1) as usize),
                ..v
            })
        }),
        ({
            let up = InputEvent::Key(KeyInput { code: KeyCode::Up, press: true });
            let down = InputEvent::Key(KeyInput { code: KeyCode::Down, press: true });
            let w = handle_event_next(v, down).0;
            k + 1 < v.display.len() ==> w.selected_key == Some((k + 1) as usize)
                && handle_event_next(w, up).0 == v
        }),
{
    if k + 1 < v.display.len() {
        let w = handle_event_next(v, InputEvent::Key(KeyInput { code: KeyCode::Down, press: true })).0;
        assert(w == AppView { selected_key: Some((k + 1) as usize), ..v });
        assert(handle_event_next(w, InputEvent::Key(KeyInput { code: KeyCode::Up, press: true })).0
            == AppView { selected_key: Some(k), ..v });
    }
}

/// The add-secret dialog reads the name, then the value: at the name step
/// Enter with a non-empty name moves to the value step keeping the name and
/// starting from an empty value, and Enter with an empty name closes the
/// dialog; at the value step each typed character is appended to the
/// value; Enter with an empty value closes the dialog and saves nothing.
pub proof fn lemma_add_dialog_steps(v: AppView, name: Seq<char>, value: Seq<char>, ch: char)
    ensures
        ({
            let enter = InputEvent::Key(KeyInput { code: KeyCode::Enter, press: true });
            let at_name = AppView { modal: Some(ModalView::AddKey(name, value, AddStep::KeyName)), ..v };
            let (w, acts, _) = handle_event_next(at_name, enter);
            &&& name.len() > 0 ==> w == (AppView {
                modal: Some(ModalView::AddKey(name, Seq::empty(), AddStep::KeyValue)),
                ..v
            }) && acts.len() == 0
            &&& name.len() == 0 ==> w == (AppView { modal: None, ..v }) && acts.len() == 0
        }),
        ({
            let typed = InputEvent::Key(KeyInput { code: KeyCode::Char(ch), press: true });
            let at_value = AppView { modal: Some(ModalView::AddKey(name, value, AddStep::KeyValue)), ..v };
            let (w, acts, _) = handle_event_next(at_value, typed);
            &&& w == (AppView { modal: Some(ModalView::AddKey(name, value.push(ch), AddStep::KeyValue)), ..v })
            &&& acts.len() == 0
        }),
        ({
            let enter = InputEvent::Key(KeyInput { code: KeyCode::Enter, press: true });
            let at_value = AppView {
                modal: Some(ModalView::AddKey(name, Seq::empty(), AddStep::KeyValue)),
                ..v
            };
            let (w, acts, _) = handle_event_next(at_value, enter);
            &&& w == (AppView { modal: None, ..v })
            &&& acts.len() == 0
        }),
{
}

/// The confirmation dialogs: `n` or Esc closes them with nothing asked and
/// nothing else changed; `y` or Enter on the project dialog asks for the
/// project's keys so that each secret can be deleted (see
/// `removal_keys_loaded`) and marks the selection to be cleared; a key
/// other than these leaves the dialog open.
pub proof fn lemma_confirm_dialogs(v: AppView, key: Seq<char>, project: Seq<char>, code: KeyCode)
    ensures
        ({
            let ask_key = AppView { modal: Some(ModalView::ConfirmDeleteKey(key)), ..v };
            let ask_project = AppView { modal: Some(ModalView::ConfirmDeleteProject(project)), ..v };
            let ev = InputEvent::Key(KeyInput { code, press: true });
            let (wk, ak, _) = handle_event_next(ask_key, ev);
            let (wp, ap, _) = handle_event_next(ask_project, ev);
            &&& (code == KeyCode::Char('n') || code == KeyCode::Esc) ==> wk == (AppView { modal: None, ..v })
                && ak.len() == 0 && wp == (AppView { modal: None, ..v }) && ap.len() == 0
            &&& (code == KeyCode::Char('y') || code == KeyCode::Enter) ==> ap == seq![
                ActionView::ReadKeysForRemoval(project),
            ] && wp.modal is None && wp.deselect
            &&& !(code == KeyCode::Char('n') || code == KeyCode::Esc || code == KeyCode::Char('y') || code
                == KeyCode::Enter) ==> wk == ask_key && ak.len() == 0 && wp == ask_project && ap.len() == 0
        }),
{
}

} // verus!
