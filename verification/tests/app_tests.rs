use ke::app::{
    values_displayable, Action, AddStep, App, FetchOutcome, Focus, InputEvent, KeyCode, KeyInput,
    Modal, MsgLevel,
};
use ke::config::{Config, IndexUpdate};

/// An index held in memory, read and written through the library's
/// index functions, standing in for the index directory.
struct Index {
    files: Vec<(String, String)>,
}

impl Index {
    fn new() -> Self {
        Index { files: Vec::new() }
    }

    fn content(&self, project: &str) -> Option<String> {
        self.files.iter().find(|(p, _)| p == project).map(|(_, c)| c.clone())
    }

    fn write(&mut self, project: &str, content: String) {
        self.files.retain(|(p, _)| p != project);
        self.files.push((project.to_string(), content));
    }

    fn list_keys(&self, project: &str) -> Vec<String> {
        Config::list_keys(&self.content(project).unwrap_or_default())
    }

    fn add_key(&mut self, project: &str, key: &str) {
        let keys = Config::add_key(&self.list_keys(project), key);
        self.write(project, Config::index_content(&keys));
    }

    fn remove_key(&mut self, project: &str, key: &str) {
        match Config::remove_key(&self.list_keys(project), key) {
            IndexUpdate::Write { content } => self.write(project, content),
            IndexUpdate::Delete => self.files.retain(|(p, _)| p != project),
        }
    }

    fn list_projects(&self) -> Vec<String> {
        let entries: Vec<(Option<String>, bool)> =
            self.files.iter().map(|(p, _)| (Some(p.clone()), true)).collect();
        Config::list_projects(&entries)
    }
}

/// Performs the work the state machine asks for against the in-memory
/// index; background reads are left pending and returned.
fn perform(app: &mut App, index: &mut Index, actions: Vec<Action>) -> Vec<(String, u64)> {
    let mut fetches = Vec::new();
    let mut queue: Vec<Action> = actions;
    while !queue.is_empty() {
        let action = queue.remove(0);
        let more = match action {
            Action::ReadKeys { project } => {
                let keys = index.list_keys(&project);
                app.keys_loaded(project, keys)
            }
            Action::ReadProjects => app.projects_loaded(index.list_projects()),
            Action::ReadKeysForRemoval { project } => {
                app.removal_keys_loaded(&project, &index.list_keys(&project))
            }
            Action::FetchValues { project, generation, .. } => {
                fetches.push((project, generation));
                Vec::new()
            }
            Action::AddKeyToIndex { project, key } => {
                index.add_key(&project, &key);
                Vec::new()
            }
            Action::RemoveKeyFromIndex { project, key } => {
                index.remove_key(&project, &key);
                Vec::new()
            }
            Action::RemoveProjectIndex { project } => {
                index.files.retain(|(p, _)| *p != project);
                Vec::new()
            }
            Action::SaveSecret { project, key, .. } => app.secret_saved(&project, &key, true),
            Action::DeleteSecret { .. } | Action::CopyToClipboard { .. } => Vec::new(),
        };
        let mut rest = more;
        rest.extend(queue);
        queue = rest;
    }
    fetches
}

/// Keeps the state machine and its index together.
struct TestApp {
    app: App,
    index: Index,
}

impl TestApp {
    fn run(&mut self, actions: Vec<Action>) -> Vec<(String, u64)> {
        perform(&mut self.app, &mut self.index, actions)
    }

    fn key(&mut self, code: KeyCode) -> bool {
        let (running, actions) =
            self.app.handle_event(InputEvent::Key(KeyInput { code, press: true }));
        self.run(actions);
        running
    }
}

fn test_app() -> TestApp {
    let mut index = Index::new();
    // Seed a project so the list isn't empty
    index.add_key("myapp", "KEY_A");
    let cfg = Config { index_dir: "/tmp/ke-test".to_string(), icloud_dir: None };
    let app = App::new(cfg, index.list_projects());
    TestApp { app, index }
}

#[test]
fn app_creates_with_project_list() {
    let ta = test_app();
    assert_eq!(ta.app.projects, vec!["myapp"]);
    assert_eq!(ta.app.focus, Focus::Projects);
    assert!(ta.app.running);
}

#[test]
fn app_select_project_loads_keys() {
    let mut ta = test_app();
    let actions = ta.app.select_project(0);
    ta.run(actions);
    assert_eq!(ta.app.selected_project, Some(0));
    assert_eq!(ta.app.focus, Focus::Projects); // unchanged by select
    assert_eq!(ta.app.keys, vec!["KEY_A"]);
}

#[test]
fn app_navigate_projects() {
    let mut ta = test_app();
    // Add a second project
    ta.index.add_key("another", "X");
    let actions = ta.app.refresh_projects();
    ta.run(actions);

    assert_eq!(ta.app.projects.len(), 2);

    // Start from no selection, navigate down once -> index 0
    let actions = ta.app.navigate_down();
    ta.run(actions);
    assert_eq!(ta.app.selected_project, Some(0));

    // Navigate down again -> index 1
    let actions = ta.app.navigate_down();
    ta.run(actions);
    assert_eq!(ta.app.selected_project, Some(1));

    // Navigate up -> index 0
    let actions = ta.app.navigate_up();
    ta.run(actions);
    assert_eq!(ta.app.selected_project, Some(0));
}

#[test]
fn app_focus_switch() {
    let mut ta = test_app();
    let actions = ta.app.select_project(0);
    ta.run(actions);
    assert_eq!(ta.app.focus, Focus::Projects);

    // Tab to keys
    ta.app.focus = Focus::Keys;
    assert_eq!(ta.app.focus, Focus::Keys);

    // Tab back
    ta.app.focus = Focus::Projects;
    assert_eq!(ta.app.focus, Focus::Projects);
}

#[test]
fn app_refresh_projects() {
    let mut ta = test_app();
    assert_eq!(ta.app.projects.len(), 1);

    ta.index.add_key("newproject", "X");
    let actions = ta.app.refresh_projects();
    ta.run(actions);
    assert_eq!(ta.app.projects.len(), 2);
}

#[test]
fn app_refresh_keys() {
    let mut ta = test_app();
    let actions = ta.app.select_project(0);
    ta.run(actions);
    assert_eq!(ta.app.keys, vec!["KEY_A"]);

    ta.index.add_key("myapp", "KEY_B");
    let actions = ta.app.refresh_keys();
    ta.run(actions);
    assert_eq!(ta.app.keys, vec!["KEY_A", "KEY_B"]);
}

#[test]
fn tab_switches_focus_and_q_quits() {
    let mut ta = test_app();
    assert!(ta.key(KeyCode::Tab));
    assert_eq!(ta.app.focus, Focus::Keys);
    assert!(ta.key(KeyCode::Tab));
    assert_eq!(ta.app.focus, Focus::Projects);
    assert!(!ta.key(KeyCode::Char('q')));
    assert!(!ta.app.running);
}

#[test]
fn values_arrive_for_the_selected_project() {
    let mut ta = test_app();
    let actions = ta.app.select_project(0);
    let fetches = ta.run(actions);
    assert_eq!(fetches.len(), 1);
    assert!(ta.app.is_loading_values());
    assert_eq!(ta.app.display_keys.len(), 1);
    assert_eq!(ta.app.display_keys[0].name, "KEY_A");
    assert_eq!(ta.app.display_keys[0].obfuscated, "");
    let (project, generation) = fetches[0].clone();
    assert_eq!(project, "myapp");
    let values = vec![("KEY_A".to_string(), "postgres://localhost/db".to_string())];
    assert!(values_displayable(&values));
    ta.app.check_value_fetch(FetchOutcome::Values { generation, values });
    assert!(!ta.app.is_loading_values());
    assert_eq!(ta.app.key_values.len(), 1);
    assert_eq!(ta.app.display_keys[0].obfuscated, "post…t/db");
    assert_eq!(ta.app.display_keys[0].full_value, "postgres://localhost/db");
}

#[test]
fn stale_values_are_ignored() {
    let mut ta = test_app();
    let first = ta.app.select_project(0);
    let old = ta.run(first);
    let again = ta.app.refresh_keys();
    let new = ta.run(again);
    assert_ne!(old[0].1, new[0].1);
    let values = vec![("KEY_A".to_string(), "v".to_string())];
    ta.app.check_value_fetch(FetchOutcome::Values { generation: old[0].1, values });
    assert!(ta.app.is_loading_values());
    assert!(ta.app.key_values.is_empty());
    ta.app.check_value_fetch(FetchOutcome::Empty);
    assert!(ta.app.is_loading_values());
    ta.app.check_value_fetch(FetchOutcome::Disconnected { generation: new[0].1 });
    assert!(!ta.app.is_loading_values());
}

#[test]
fn short_values_are_shown_whole() {
    let mut ta = test_app();
    let actions = ta.app.select_project(0);
    let f = ta.run(actions);
    let values = vec![("KEY_A".to_string(), "12345678".to_string())];
    ta.app.check_value_fetch(FetchOutcome::Values { generation: f[0].1, values });
    assert_eq!(ta.app.display_keys[0].obfuscated, "12345678");
    // a value whose 4th byte falls inside a character cannot be shortened
    assert!(!values_displayable(&vec![("K".to_string(), "abcé12345".to_string())]));
    assert!(values_displayable(&vec![("K".to_string(), "abcdé12345".to_string())]));
}

#[test]
fn add_secret_dialog_saves_and_reloads() {
    let mut ta = test_app();
    // without a project selected
    ta.key(KeyCode::Char('a'));
    assert!(ta.app.modal.is_none());
    assert_eq!(
        ta.app.status_msg,
        Some(("Select a project first".to_string(), MsgLevel::Error))
    );
    let actions = ta.app.select_project(0);
    ta.run(actions);
    ta.key(KeyCode::Char('a'));
    assert!(matches!(ta.app.modal, Some(Modal::AddKey { step: AddStep::KeyName, .. })));
    for c in ['n', 'e', 'w', '-', '_', 'k'] {
        ta.key(KeyCode::Char(c));
    }
    ta.key(KeyCode::Backspace);
    match &ta.app.modal {
        Some(Modal::AddKey { key_name, .. }) => assert_eq!(key_name, "NEW_"),
        _ => panic!("dialog closed"),
    }
    ta.key(KeyCode::Enter);
    assert!(matches!(ta.app.modal, Some(Modal::AddKey { step: AddStep::KeyValue, .. })));
    for c in ['s', 'e', 'c'] {
        ta.key(KeyCode::Char(c));
    }
    let (running, actions) =
        ta.app.handle_event(InputEvent::Key(KeyInput { code: KeyCode::Enter, press: true }));
    assert!(running);
    assert_eq!(actions.len(), 1);
    match &actions[0] {
        Action::SaveSecret { project, key, value } => {
            assert_eq!((project.as_str(), key.as_str(), value.as_str()), ("myapp", "NEW_", "sec"))
        }
        _ => panic!("expected a save"),
    }
    ta.run(actions);
    assert!(ta.app.modal.is_none());
    assert_eq!(ta.app.keys, vec!["KEY_A", "NEW_"]);
    assert_eq!(
        ta.app.status_msg,
        Some(("Saved myapp:NEW_".to_string(), MsgLevel::Success))
    );
}

#[test]
fn failed_save_is_reported() {
    let mut ta = test_app();
    let actions = ta.app.select_project(0);
    ta.run(actions);
    let actions = ta.app.secret_saved("myapp", "K", false);
    assert!(actions.is_empty());
    assert_eq!(
        ta.app.status_msg,
        Some(("Failed to save secret".to_string(), MsgLevel::Error))
    );
}

#[test]
fn delete_key_dialog() {
    let mut ta = test_app();
    ta.index.add_key("myapp", "KEY_B");
    let actions = ta.app.select_project(0);
    let f = ta.run(actions);
    let values = vec![
        ("KEY_A".to_string(), "a".to_string()),
        ("KEY_B".to_string(), "b".to_string()),
    ];
    ta.app.check_value_fetch(FetchOutcome::Values { generation: f[0].1, values });
    ta.key(KeyCode::Enter); // into the key list, first key selected
    assert_eq!(ta.app.focus, Focus::Keys);
    assert_eq!(ta.app.selected_key, Some(0));
    ta.key(KeyCode::Down);
    assert_eq!(ta.app.selected_key, Some(1));
    ta.key(KeyCode::Down);
    assert_eq!(ta.app.selected_key, Some(1));
    ta.key(KeyCode::Char('d'));
    match &ta.app.modal {
        Some(Modal::ConfirmDeleteKey { key }) => assert_eq!(key, "KEY_B"),
        _ => panic!("expected the delete dialog"),
    }
    // other keys keep the dialog open, `n` closes it
    ta.key(KeyCode::Char('x'));
    assert!(ta.app.modal.is_some());
    ta.key(KeyCode::Char('n'));
    assert!(ta.app.modal.is_none());
    ta.key(KeyCode::Char('d'));
    ta.key(KeyCode::Char('y'));
    assert!(ta.app.modal.is_none());
    assert_eq!(ta.app.selected_key, None);
    assert_eq!(ta.app.keys, vec!["KEY_A"]);
    assert_eq!(ta.app.status_msg, Some(("Deleted KEY_B".to_string(), MsgLevel::Info)));
}

#[test]
fn copy_remembers_a_short_form() {
    let mut ta = test_app();
    let actions = ta.app.select_project(0);
    let f = ta.run(actions);
    let values = vec![("KEY_A".to_string(), "0123456789abcdefXYZ".to_string())];
    ta.app.check_value_fetch(FetchOutcome::Values { generation: f[0].1, values });
    ta.key(KeyCode::Enter);
    let (_, actions) = ta
        .app
        .handle_event(InputEvent::Key(KeyInput { code: KeyCode::Char('c'), press: true }));
    match &actions[..] {
        [Action::CopyToClipboard { value }] => assert_eq!(value, "0123456789abcdefXYZ"),
        _ => panic!("expected a copy"),
    }
    assert_eq!(ta.app.copied, Some("0123456789abcdef".to_string()));
    assert_eq!(
        ta.app.status_msg,
        Some(("Copied to clipboard!".to_string(), MsgLevel::Success))
    );
    // nothing is copied from the project pane
    ta.key(KeyCode::Char('p'));
    assert_eq!(ta.app.focus, Focus::Projects);
    let (_, actions) = ta
        .app
        .handle_event(InputEvent::Key(KeyInput { code: KeyCode::Char('c'), press: true }));
    assert!(actions.is_empty());
}

#[test]
fn remove_project_dialog() {
    let mut ta = test_app();
    ta.index.add_key("other", "Y");
    let actions = ta.app.refresh_projects();
    ta.run(actions);
    assert_eq!(ta.app.projects, vec!["myapp", "other"]);
    let actions = ta.app.select_project(0);
    ta.run(actions);
    ta.key(KeyCode::Char('D'));
    match &ta.app.modal {
        Some(Modal::ConfirmDeleteProject { project }) => assert_eq!(project, "myapp"),
        _ => panic!("expected the remove dialog"),
    }
    let (_, actions) = ta
        .app
        .handle_event(InputEvent::Key(KeyInput { code: KeyCode::Enter, press: true }));
    match &actions[..] {
        [Action::ReadKeysForRemoval { project }] => assert_eq!(project, "myapp"),
        _ => panic!("expected the removal to start"),
    }
    let more = ta.app.removal_keys_loaded("myapp", &vec!["KEY_A".to_string()]);
    assert_eq!(more.len(), 3);
    assert!(matches!(&more[0], Action::DeleteSecret { key, .. } if key == "KEY_A"));
    assert!(matches!(&more[1], Action::RemoveProjectIndex { project } if project == "myapp"));
    assert!(matches!(&more[2], Action::ReadProjects));
    ta.run(more);
    assert_eq!(ta.app.projects, vec!["other"]);
    assert_eq!(ta.app.selected_project, None);
    assert_eq!(ta.app.selected_key, None);
    assert!(ta.app.key_values.is_empty());
    assert_eq!(
        ta.app.status_msg,
        Some(("Removed project myapp".to_string(), MsgLevel::Info))
    );
}

#[test]
fn dialogs_ignore_releases_and_close_on_esc() {
    let mut ta = test_app();
    let actions = ta.app.select_project(0);
    ta.run(actions);
    ta.key(KeyCode::Char('a'));
    let (running, actions) =
        ta.app.handle_event(InputEvent::Key(KeyInput { code: KeyCode::Char('x'), press: false }));
    assert!(running && actions.is_empty());
    assert!(ta.app.modal.is_some());
    let (running, _) = ta.app.handle_event(InputEvent::Resize);
    assert!(running);
    assert!(ta.app.modal.is_some());
    ta.key(KeyCode::Esc);
    assert!(ta.app.modal.is_none());
    assert!(ta.app.running);
}

#[test]
fn key_name_field_takes_only_env_var_characters() {
    let mut ta = test_app();
    let actions = ta.app.select_project(0);
    ta.run(actions);
    ta.key(KeyCode::Char('a'));
    for c in ['é', 'a', 'Ж', '9', '.', '_', 'Z', '٣'] {
        ta.key(KeyCode::Char(c));
    }
    match &ta.app.modal {
        Some(Modal::AddKey { key_name, .. }) => assert_eq!(key_name, "A9_Z"),
        _ => panic!("dialog closed"),
    }
}
