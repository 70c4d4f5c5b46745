use herdr_palette::bindings::{Binding, BindingStatus, Category, CommandBinding, KeyValue};
use herdr_palette::items::{
    binding_is_reference, item_from_binding, item_from_command, item_from_jump,
    item_from_plugin_action, kv_keys, Dispatch, Item, ItemKind,
};

fn cmd(name: &str, key: &str, ctype: Option<&str>, command: Option<&str>) -> CommandBinding {
    CommandBinding {
        name: Some(name.to_string()),
        description: None,
        key: Some(KeyValue::One(key.to_string())),
        command_type: ctype.map(str::to_string),
        command: command.map(str::to_string),
    }
}

fn binding(action: &str, keys: &[&str], category: Category, status: BindingStatus) -> Binding {
    Binding {
        action: action.to_string(),
        label: "Label".to_string(),
        keys: keys.iter().map(|k| k.to_string()).collect(),
        default_keys: vec![],
        category,
        tree_path: vec!["Panes".to_string(), "Layout".to_string()],
        status,
        hint: "Hint".to_string(),
    }
}

#[test]
fn plugin_action_item_runs_real_command_array() {
    let command = vec![
        "herdr".to_string(),
        "plugin".to_string(),
        "pane".to_string(),
        "open".to_string(),
        "--plugin".to_string(),
        "ramarivera.pretty-which".to_string(),
    ];
    let item = item_from_plugin_action(
        "ramarivera.pretty-which",
        "open",
        Some("Open pretty which"),
        &command,
    );
    assert_eq!(item.subtitle, "ramarivera.pretty-which.open");
    assert!(matches!(
        item.dispatch,
        Some(Dispatch::Cli(ref argv)) if argv == &command
    ));
}

#[test]
fn plugin_action_without_a_title_is_named_by_its_id() {
    let item = item_from_plugin_action("p", "open", None, &["x".to_string()]);
    assert_eq!(item.title, "p.open");
    let item = item_from_plugin_action("p", "q.open", None, &["x".to_string()]);
    assert_eq!((item.title.as_str(), item.subtitle.as_str()), ("q.open", "q.open"));
    assert!(item.keys.is_empty() && item.tree_path.is_empty() && item.binding.is_none());
}

#[test]
fn shell_command_is_reference_only_in_v1() {
    let item = item_from_command(&cmd("lazygit", "prefix+alt+g", Some("pane"), Some("lazygit")));
    assert!(item.dispatch.is_none());
    assert!(!item.is_dispatchable());
}

#[test]
fn plugin_action_commands_are_dispatchable() {
    let item = item_from_command(&cmd(
        "Pretty Which",
        "prefix+space",
        Some("plugin_action"),
        Some(" herdr plugin  pane open "),
    ));
    assert!(item.is_dispatchable());
    assert!(matches!(
        item.dispatch,
        Some(Dispatch::Cli(ref argv)) if argv == &["herdr", "plugin", "pane", "open"]
    ));
    assert_eq!(item.kind, ItemKind::CustomCommand);
    assert_eq!(item.title, "Pretty Which");

    let types = [None, Some("shell"), Some("pane"), Some("Plugin_Action"), Some("plugin_action ")];
    for ctype in types {
        assert!(!item_from_command(&cmd("x", "k", ctype, Some("y"))).is_dispatchable());
    }
    assert!(!item_from_command(&cmd("x", "k", Some("plugin_action"), None)).is_dispatchable());
}

#[test]
fn command_rows_fall_back_in_order() {
    let item = item_from_command(&cmd("lazygit", "prefix+alt+g", None, Some("lazygit -p")));
    assert_eq!(item.kind, ItemKind::CustomCommand);
    assert_eq!(item.title, "lazygit");
    assert_eq!(item.subtitle, "lazygit -p");
    assert_eq!(item.keys, vec!["prefix+alt+g"]);

    let mut described = cmd("lazygit", "k", None, Some("lazygit -p"));
    described.description = Some("Git".to_string());
    assert_eq!(item_from_command(&described).subtitle, "Git");

    let bare = CommandBinding {
        name: None,
        description: None,
        key: None,
        command_type: None,
        command: None,
    };
    let item = item_from_command(&bare);
    assert_eq!(item.title, "Unnamed command");
    assert_eq!(item.subtitle, "Custom Herdr command");
    assert!(item.keys.is_empty());
}

#[test]
fn haystack_includes_title_subtitle_kind_and_keys() {
    let item = Item {
        kind: ItemKind::Binding,
        title: "Split vertical".into(),
        subtitle: "Split side by side.".into(),
        keys: vec!["prefix+v".into()],
        tree_path: vec![],
        binding: None,
        dispatch: None,
    };
    let h = item.haystack();
    assert!(h.contains("Split vertical"));
    assert!(h.contains("prefix+v"));
    assert!(h.contains("Keybinding"));
    assert_eq!(h, "Split vertical Split side by side. Keybinding prefix+v");
}

#[test]
fn haystack_without_keys_ends_with_the_kind() {
    let item = item_from_jump(ItemKind::JumpTab, "logs", "w1:t2");
    assert_eq!(item.haystack(), "logs w1:t2 Tab");
}

#[test]
fn jump_items_are_dispatchable() {
    let ws = item_from_jump(ItemKind::JumpWorkspace, "api", "w1");
    assert!(matches!(ws.dispatch, Some(Dispatch::FocusWorkspace(_))));
    let tab = item_from_jump(ItemKind::JumpTab, "logs", "w1:t2");
    assert!(matches!(tab.dispatch, Some(Dispatch::FocusTab(_))));
    assert!(ws.is_dispatchable());
}

#[test]
fn jump_items_focus_their_id() {
    let agent = item_from_jump(ItemKind::JumpAgent, "codex", "term_1");
    assert!(matches!(agent.dispatch, Some(Dispatch::FocusAgent(ref id)) if id == "term_1"));
    assert_eq!((agent.title.as_str(), agent.subtitle.as_str()), ("codex", "term_1"));
    assert!(item_from_jump(ItemKind::Binding, "x", "y").dispatch.is_none());
}

#[test]
fn kinds_have_labels() {
    let labels = [
        (ItemKind::Binding, "Keybinding"),
        (ItemKind::PluginAction, "Plugin"),
        (ItemKind::CustomCommand, "Custom"),
        (ItemKind::JumpWorkspace, "Workspace"),
        (ItemKind::JumpTab, "Tab"),
        (ItemKind::JumpAgent, "Agent"),
    ];
    for (kind, label) in labels {
        assert_eq!(kind.category_label(), label);
    }
}

#[test]
fn binding_rows_carry_the_binding() {
    let b = binding("zoom", &["prefix+z"], Category::Panes, BindingStatus::Active);
    let item = item_from_binding(&b);
    assert_eq!(item.kind, ItemKind::Binding);
    assert_eq!((item.title.as_str(), item.subtitle.as_str()), ("Label", "Hint"));
    assert_eq!(item.keys, vec!["prefix+z"]);
    assert_eq!(item.tree_path, vec!["Panes", "Layout"]);
    assert_eq!(item.binding.unwrap().action, "zoom");
    assert!(matches!(item.dispatch, Some(Dispatch::Cli(_))));
    let help = binding("help", &["prefix+?"], Category::Core, BindingStatus::Active);
    assert!(item_from_binding(&help).dispatch.is_none());
}

#[test]
fn disabled_and_keyless_discovered_bindings_are_reference() {
    let active = BindingStatus::Active;
    assert!(binding_is_reference(&binding("a", &["k"], Category::Core, BindingStatus::Disabled)));
    assert!(binding_is_reference(&binding("a", &[], Category::Discovered, active)));
    assert!(!binding_is_reference(&binding("a", &["k"], Category::Discovered, active)));
    assert!(!binding_is_reference(&binding("a", &[], Category::Core, active)));
}

#[test]
fn key_values_flatten() {
    assert_eq!(kv_keys(&KeyValue::One("a".to_string())), vec!["a"]);
    let many = KeyValue::Many(vec!["a".to_string(), "b".to_string()]);
    assert_eq!(kv_keys(&many), vec!["a", "b"]);
}
