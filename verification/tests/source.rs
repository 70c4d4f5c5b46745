use herdr_palette::bindings::{Binding, BindingStatus, Category, CommandBinding};
use herdr_palette::dispatch::ListError;
use herdr_palette::items::{Dispatch, Item, ItemKind};
use herdr_palette::json::Json;
use herdr_palette::paths::display_path;
use herdr_palette::source::{
    collect, collect_rows, jump_agents, jump_tabs, jump_workspaces, jumps_from_entries,
    label_or_id, parse_plugin_actions, plugin_actions, plugin_actions_in, working_directory,
    Surfaces,
};
use herdr_pretty_which::model::{KeyValue, KeysSection};

fn nothing() -> Surfaces {
    Surfaces {
        theme_name: None,
        config_path: "/home/u/.config/herdr/config.toml".to_string(),
        home: Some("/home/u".to_string()),
        plugin_actions: None,
        workspaces: None,
        tabs: None,
        agents: None,
        pane_current: None,
        pane_list: None,
        process_cwd: None,
    }
}

fn some(s: &str) -> Option<String> {
    Some(s.to_string())
}

fn kinds(items: &[Item]) -> Vec<ItemKind> {
    items.iter().map(|i| i.kind).collect()
}

#[test]
fn parse_plugin_actions_handles_real_shape() {
    let real = r#"{"id":"cli:plugin","result":{"actions":[
        {"action_id":"open","command":["herdr","plugin","pane","open","--plugin","ramarivera.pretty-which"],"contexts":["workspace","tab","pane","global"],"platforms":["linux","macos"],"plugin_id":"ramarivera.pretty-which","title":"Open pretty which"},
        {"action_id":"open","command":["herdr","plugin","pane","open","--plugin","roxasroot.pretty-help"],"contexts":["workspace","tab","pane","global"],"platforms":["linux","macos"],"plugin_id":"roxasroot.pretty-help","title":"Open pretty help"}
    ],"type":"plugin_action_list"}}"#;
    let parsed = parse_plugin_actions(real).unwrap();
    assert_eq!(parsed.len(), 2);
    assert_eq!(parsed[0].plugin_id, "ramarivera.pretty-which");
    assert_eq!(parsed[0].action_id, "open");
    assert_eq!(parsed[0].command[0], "herdr");
    assert_eq!(parsed[1].plugin_id, "roxasroot.pretty-help");
}

#[test]
fn parse_plugin_actions_skips_incomplete_rows() {
    let partial = r#"{"result":{"actions":[
        {"action_id":"open","plugin_id":"x","command":[]},
        {"action_id":"open","plugin_id":"y","command":["herdr","ok"]}
    ]}}"#;
    let parsed = parse_plugin_actions(partial).unwrap();
    assert_eq!(parsed.len(), 1);
    assert_eq!(parsed[0].plugin_id, "y");
}

#[test]
fn plugin_rows_need_ids_and_a_command_of_strings() {
    let rows = r#"[
        {"plugin_id":"a","command":["x"]},
        {"action_id":"a","command":["x"]},
        {"action_id":"a","plugin_id":"b","command":[1,2]},
        {"action_id":"a","plugin_id":"b","command":[1,"x",null,"y"],"title":7},
        {"action_id":"a","plugin_id":"c","command":["z"],"title":""}
    ]"#;
    let parsed = parse_plugin_actions(rows).unwrap();
    assert_eq!(parsed.len(), 2);
    assert_eq!(parsed[0].command, vec!["x", "y"]);
    assert_eq!(parsed[0].title, None);
    assert_eq!(parsed[1].title, some(""));
    let items = plugin_actions(&parsed);
    assert_eq!(items[0].title, "b.a");
    assert_eq!(items[1].title, "");
    assert!(items.iter().all(|i| i.is_dispatchable()));
}

#[test]
fn plugin_actions_say_why_there_are_none() {
    assert!(matches!(parse_plugin_actions("x"), Err(ListError::NotJson)));
    assert!(matches!(parse_plugin_actions(r#"{"result":{}}"#), Err(ListError::NoArray)));
    assert!(matches!(plugin_actions_in(None), Err(ListError::NotJson)));
    assert!(plugin_actions_in(Some(&Json::Array(vec![Json::Null]))).unwrap().is_empty());
}

#[test]
fn display_path_tildifies_home() {
    let home = dirs::home_dir().unwrap();
    let path = home.join(".config").join("herdr").join("config.toml");
    let p = display_path(path.to_str().unwrap(), home.to_str());
    assert!(p.starts_with("~/"));
    assert!(p.contains("herdr/config.toml"));
}

#[test]
fn display_path_goes_by_whole_components() {
    let home = Some("/home/u");
    assert_eq!(display_path("/home/u/.config/x", home), "~/.config/x");
    assert_eq!(display_path("/home/u", home), "~/");
    assert_eq!(display_path("/home/u2/x", home), "/home/u2/x");
    assert_eq!(display_path("/home//u/x", home), "~/x");
    assert_eq!(display_path("/home/u/x", None), "/home/u/x");
    assert_eq!(display_path("/etc/x", home), "/etc/x");
}

#[test]
fn display_path_agrees_with_std() {
    let paths = [
        "/home/u/a//b", "/home/u/./a", "/home/./u/a", "/home/u/a/", "//home/u/a", "home/u/a",
        "/home/u/../u/a", "./home/u", "", "/", "/home", "/home/u/.", "/home/u//", "/home/u/a/./b/",
    ];
    for home in ["/home/u", "/home/u/", "/", "home/u", ""] {
        for path in paths {
            let std_path = std::path::Path::new(path);
            let want = match std_path.strip_prefix(home) {
                Ok(rest) => format!("~/{}", rest.display()),
                Err(_) => path.to_string(),
            };
            assert_eq!(display_path(path, Some(home)), want, "{path} under {home}");
        }
    }
}

#[test]
fn jumps_are_titled_by_label_or_id() {
    assert_eq!(label_or_id("api", "w1"), "api");
    assert_eq!(label_or_id("", "w1"), "w1");
    let entries = vec![("w1".to_string(), "api".to_string()), ("w2".to_string(), String::new())];
    let items = jumps_from_entries(ItemKind::JumpWorkspace, &entries);
    assert_eq!(items[0].title, "api");
    assert_eq!((items[1].title.as_str(), items[1].subtitle.as_str()), ("w2", "w2"));
    assert!(matches!(items[1].dispatch, Some(Dispatch::FocusWorkspace(ref id)) if id == "w2"));
}

#[test]
fn jumps_are_read_from_replies() {
    let ws = jump_workspaces(r#"{"result":{"workspaces":[{"workspace_id":"w1","label":"api"}]}}"#);
    assert_eq!(ws.unwrap()[0].kind, ItemKind::JumpWorkspace);
    let tabs = jump_tabs(r#"[{"tab_id":"t1"}]"#).unwrap();
    assert!(matches!(tabs[0].dispatch, Some(Dispatch::FocusTab(ref id)) if id == "t1"));
    let agents = jump_agents(r#"[{"terminal_id":"x","agent":"a","cwd":"/p/q"}]"#).unwrap();
    assert_eq!(agents[0].title, "a · q");
    assert!(matches!(jump_tabs("nope"), Err(ListError::NotJson)));
}

#[test]
fn working_directory_prefers_an_absolute_pane() {
    assert_eq!(working_directory(some("/pane"), Some("/proc")), "/pane");
    assert_eq!(working_directory(some("pane"), Some("/proc")), "/proc");
    assert_eq!(working_directory(None, Some("/proc")), "/proc");
    assert_eq!(working_directory(some(""), None), "/");
}

#[test]
fn every_source_is_collected_in_order() {
    let bindings = vec![Binding {
        action: "zoom".to_string(),
        label: "Zoom".to_string(),
        keys: vec!["prefix+z".to_string()],
        default_keys: vec![],
        category: Category::Panes,
        tree_path: vec!["Panes".to_string()],
        status: BindingStatus::Active,
        hint: String::new(),
    }];
    let mut s = nothing();
    let commands = vec![CommandBinding {
        name: some("git"),
        description: None,
        key: None,
        command_type: None,
        command: None,
    }];
    s.theme_name = some("nord");
    s.plugin_actions = some(r#"[{"action_id":"a","plugin_id":"p","command":["x"]}]"#);
    s.workspaces = some(r#"[{"workspace_id":"w1","label":"api"}]"#);
    s.tabs = some(r#"[{"tab_id":"t1","label":"logs"}]"#);
    s.agents = some(r#"[{"terminal_id":"x"}]"#);
    s.pane_list = some(r#"[{"cwd":"/pane","focused":true}]"#);
    let data = collect_rows(&bindings, &commands, &s);
    assert_eq!(
        kinds(&data.items),
        vec![
            ItemKind::Binding,
            ItemKind::PluginAction,
            ItemKind::CustomCommand,
            ItemKind::JumpWorkspace,
            ItemKind::JumpTab,
            ItemKind::JumpAgent,
        ]
    );
    let fires: Vec<bool> = data.items.iter().map(|i| i.is_dispatchable()).collect();
    assert_eq!(fires, vec![true, true, false, true, true, true]);
    assert_eq!(data.theme_name, "nord");
    assert_eq!(data.config_path, "~/.config/herdr/config.toml");
    assert_eq!(data.cwd, "/pane");
}

#[test]
fn a_source_that_fails_yields_no_rows() {
    let mut s = nothing();
    s.plugin_actions = some("garbage");
    s.workspaces = some("{}");
    s.tabs = some(r#"[{"tab_id":"t1"}]"#);
    s.process_cwd = some("/proc");
    let data = collect_rows(&vec![], &vec![], &s);
    assert_eq!(kinds(&data.items), vec![ItemKind::JumpTab]);
    assert_eq!(data.theme_name, "terminal");
    assert_eq!(data.cwd, "/proc");
}

#[test]
fn collect_takes_keys_from_the_config() {
    let mut keys = KeysSection::default();
    keys.next_tab = Some(KeyValue::Many(vec![
        "prefix+n".to_string(),
        "  ".to_string(),
        "ctrl+alt+n".to_string(),
    ]));
    keys.help = Some(KeyValue::One(String::new()));
    let named = vec![("brand_new_action".to_string(), vec!["prefix+9".to_string()])];
    let data = collect(&keys, &named, &nothing());
    assert!(data.items.iter().all(|i| i.kind == ItemKind::Binding));
    let find = |action: &str| {
        data.items
            .iter()
            .find(|i| i.binding.as_ref().is_some_and(|b| b.action == action))
            .unwrap()
    };
    assert_eq!(find("next_tab").keys, vec!["prefix+n", "ctrl+alt+n"]);
    assert!(matches!(find("next_tab").dispatch, Some(Dispatch::NextTab)));
    let help = find("help");
    assert!(help.keys.is_empty());
    assert_eq!(help.binding.as_ref().unwrap().status, BindingStatus::Disabled);
    assert_eq!(help.binding.as_ref().unwrap().category, Category::Core);
    assert_eq!(find("previous_tab").keys, find("previous_tab").binding.as_ref().unwrap().default_keys);
    assert_eq!(find("previous_tab").binding.as_ref().unwrap().status, BindingStatus::Active);
    let new = find("brand_new_action");
    assert_eq!(new.keys, vec!["prefix+9"]);
    assert_eq!(new.binding.as_ref().unwrap().category, Category::Discovered);
    assert_eq!(new.tree_path, vec!["Discovered", "Unmodeled"]);
}

#[test]
fn collect_takes_custom_commands_from_the_config() {
    let mut keys = KeysSection::default();
    keys.command = vec![
        herdr_pretty_which::model::CommandBinding {
            name: some("git"),
            description: some("Git client"),
            key: Some(KeyValue::One("prefix+g".to_string())),
            command: some("lazygit"),
            ..Default::default()
        },
        herdr_pretty_which::model::CommandBinding {
            key: Some(KeyValue::Many(vec!["a".to_string(), "b".to_string()])),
            command: some("htop"),
            ..Default::default()
        },
    ];
    let data = collect(&keys, &vec![], &nothing());
    let custom: Vec<&Item> =
        data.items.iter().filter(|i| i.kind == ItemKind::CustomCommand).collect();
    assert_eq!(custom.len(), 2);
    assert_eq!((custom[0].title.as_str(), custom[0].subtitle.as_str()), ("git", "Git client"));
    assert_eq!(custom[0].keys, vec!["prefix+g"]);
    assert_eq!((custom[1].title.as_str(), custom[1].subtitle.as_str()), ("Unnamed command", "htop"));
    assert_eq!(custom[1].keys, vec!["a", "b"]);
    let bound: Vec<&Item> = data
        .items
        .iter()
        .filter(|i| i.binding.as_ref().is_some_and(|b| b.category == Category::Custom))
        .collect();
    assert_eq!(bound.len(), 2);
    assert_eq!(bound[0].title, "git");
    assert!(bound.iter().all(|i| !i.is_dispatchable()));
}

fn entry(text: &str) -> herdr_pretty_which::model::CommandBinding {
    serde_json::from_str(text).unwrap()
}

#[test]
fn collect_tells_plugin_actions_among_custom_commands() {
    let mut keys = KeysSection::default();
    keys.command = vec![
        entry(r#"{"name":"listed","key":"a","type":"plugin_action","command":"p.open"}"#),
        entry(r#"{"name":"unlisted","type":"plugin_action","command":"herdr x"}"#),
        entry(r#"{"name":"lazygit","key":"prefix+alt+g","type":"pane","command":"p.open"}"#),
        entry(r#"{"name":"untyped","command":"p.open"}"#),
        entry(r#"{"name":"nothing","type":"plugin_action"}"#),
    ];
    let mut s = nothing();
    s.plugin_actions =
        some(r#"[{"action_id":"open","plugin_id":"p","title":"Open","command":["herdr","go"]}]"#);
    let data = collect(&keys, &vec![], &s);
    let rows: Vec<(&str, Option<Vec<&str>>)> = data
        .items
        .iter()
        .filter(|i| i.kind == ItemKind::CustomCommand)
        .map(|i| {
            let argv = match &i.dispatch {
                Some(Dispatch::Cli(argv)) => Some(argv.iter().map(String::as_str).collect()),
                Some(_) => unreachable!(),
                None => None,
            };
            (i.title.as_str(), argv)
        })
        .collect();
    let want = vec![
        ("listed", Some(vec!["herdr", "go"])),
        ("unlisted", Some(vec!["herdr", "x"])),
        ("lazygit", None),
        ("untyped", None),
        ("nothing", None),
    ];
    assert_eq!(rows, want);
    let listed = data.items.iter().find(|i| i.title == "listed" && i.binding.is_none()).unwrap();
    assert_eq!((listed.subtitle.as_str(), &listed.keys), ("p.open", &vec!["a".to_string()]));
}
