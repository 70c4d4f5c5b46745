use herdr_palette::dispatch::{
    dispatch_for_action, entries_in, extract_current_pane_cwd, extract_entries, extract_focused_id,
    focus_neighbor, focused_id_in, focused_pane_cwd, herdr_bin, id_field_for_kind,
    inject_cwd_for_creation, neighbor_of, neighbor_step_for, run, run_argv, vec_into, ArgvError,
    ListError, Neighbor, NeighborStep, RunStep,
};
use herdr_palette::items::Dispatch;
use herdr_palette::json::{parse_json, Json};

fn strings(list: &[&str]) -> Vec<String> {
    list.iter().map(|s| s.to_string()).collect()
}

fn pairs(list: &[(&str, &str)]) -> Vec<(String, String)> {
    list.iter().map(|(a, b)| (a.to_string(), b.to_string())).collect()
}

#[test]
fn dispatchable_actions_map_to_herdr_0_7_cli() {
    assert!(matches!(
        dispatch_for_action("new_workspace"),
        Some(Dispatch::Cli(_))
    ));
    assert!(matches!(
        dispatch_for_action("split_vertical"),
        Some(Dispatch::Cli(ref argv)) if argv == &vec_into(&["herdr", "pane", "split", "--direction", "right", "--focus"])
    ));
    assert!(matches!(
        dispatch_for_action("split_horizontal"),
        Some(Dispatch::Cli(ref argv)) if argv == &vec_into(&["herdr", "pane", "split", "--direction", "down", "--focus"])
    ));
    assert!(matches!(
        dispatch_for_action("focus_pane_left"),
        Some(Dispatch::Cli(ref argv)) if argv == &vec_into(&["herdr", "pane", "focus", "--direction", "left"])
    ));
    assert!(matches!(
        dispatch_for_action("zoom"),
        Some(Dispatch::Cli(ref argv)) if argv == &vec_into(&["herdr", "pane", "zoom", "--current", "--toggle"])
    ));
}

#[test]
fn id_or_prompt_required_actions_are_reference_only() {
    for action in [
        "rename_workspace",
        "close_workspace",
        "rename_tab",
        "close_tab",
        "rename_pane",
        "close_pane",
        "cycle_pane_next",
        "cycle_pane_previous",
    ] {
        assert!(
            dispatch_for_action(action).is_none(),
            "{action} should stay reference-only until palette can supply the required target/prompt"
        );
    }
}

#[test]
fn prev_next_map_to_neighbor_dispatch() {
    assert!(matches!(
        dispatch_for_action("next_workspace"),
        Some(Dispatch::NextWorkspace)
    ));
    assert!(matches!(
        dispatch_for_action("previous_tab"),
        Some(Dispatch::PrevTab)
    ));
    assert!(matches!(
        dispatch_for_action("next_agent"),
        Some(Dispatch::NextAgent)
    ));
}

#[test]
fn keybinding_only_actions_have_no_dispatch() {
    for action in [
        "help",
        "settings",
        "detach",
        "goto",
        "workspace_picker",
        "resize_mode",
        "toggle_sidebar",
        "edit_scrollback",
        "reload_config",
    ] {
        assert!(
            dispatch_for_action(action).is_none(),
            "{action} should be reference-only"
        );
    }
}

#[test]
fn every_dispatchable_action_has_its_command() {
    let cli = [
        ("new_workspace", &["herdr", "workspace", "create", "--focus"][..]),
        ("new_worktree", &["herdr", "worktree", "create", "--focus"][..]),
        ("new_tab", &["herdr", "tab", "create", "--focus"][..]),
        ("fullscreen", &["herdr", "pane", "zoom", "--current", "--toggle"][..]),
        ("focus_pane_down", &["herdr", "pane", "focus", "--direction", "down"][..]),
        ("focus_pane_up", &["herdr", "pane", "focus", "--direction", "up"][..]),
        ("focus_pane_right", &["herdr", "pane", "focus", "--direction", "right"][..]),
    ];
    for (action, argv) in cli {
        match dispatch_for_action(action) {
            Some(Dispatch::Cli(got)) => assert_eq!(got, strings(argv)),
            other => panic!("{action}: {other:?}"),
        }
    }
    assert!(matches!(dispatch_for_action("previous_workspace"), Some(Dispatch::PrevWorkspace)));
    assert!(matches!(dispatch_for_action("next_tab"), Some(Dispatch::NextTab)));
    assert!(matches!(dispatch_for_action("previous_agent"), Some(Dispatch::PrevAgent)));
    assert!(dispatch_for_action("").is_none());
}

#[test]
fn extract_focused_id_uses_focused_field_before_fallback() {
    let ws = r#"{"result":{"workspaces":[{"workspace_id":"w1","label":"one","focused":false},{"workspace_id":"w2","label":"two","focused":true}]}}"#;
    assert_eq!(extract_focused_id(ws, "workspace").unwrap(), "w2");

    let agents = r#"{"result":{"agents":[{"terminal_id":"term_1","focused":false},{"terminal_id":"term_2","focused":true}]}}"#;
    assert_eq!(extract_focused_id(agents, "agent").unwrap(), "term_2");
}

#[test]
fn focused_id_falls_back_to_the_first_id() {
    let none = r#"[{"label":"x"},{"tab_id":"t1"},{"tab_id":"t2"}]"#;
    assert_eq!(extract_focused_id(none, "tab").unwrap(), "t1");
    let nameless = r#"[{"tab_id":"t1"},{"focused":true},{"tab_id":"t3","focused":true}]"#;
    assert_eq!(extract_focused_id(nameless, "tab").unwrap(), "t1");
    let not_true = r#"[{"tab_id":"t1"},{"tab_id":"t2","focused":"true"}]"#;
    assert_eq!(extract_focused_id(not_true, "tab").unwrap(), "t1");
}

#[test]
fn focused_id_says_why_there_is_none() {
    assert_eq!(extract_focused_id("nope", "tab"), Err(ListError::NotJson));
    assert_eq!(extract_focused_id("{}", "tab"), Err(ListError::NoArray));
    assert_eq!(extract_focused_id("[]", "tab"), Err(ListError::NoId));
    assert_eq!(extract_focused_id(r#"[{"tab_id":7}]"#, "tab"), Err(ListError::NoId));
    assert_eq!(focused_id_in(None, "tab"), Err(ListError::NotJson));
}

#[test]
fn extract_entries_maps_kind_specific_id_fields() {
    let ws = r#"{"result":{"workspaces":[{"workspace_id":"w1","label":"toolbox"}]}}"#;
    assert_eq!(
        extract_entries(ws, "workspace").unwrap(),
        vec![("w1".into(), "toolbox".into())]
    );

    let tabs = r#"{"result":{"tabs":[{"tab_id":"w1:t1","label":"logs"}]}}"#;
    assert_eq!(
        extract_entries(tabs, "tab").unwrap(),
        vec![("w1:t1".into(), "logs".into())]
    );
}

#[test]
fn extract_entries_synthesizes_agent_label() {
    let agents = r#"{"result":{"agents":[{"terminal_id":"term_1","agent":"codex","cwd":"/Users/x/toolbox"}]}}"#;
    let e = extract_entries(agents, "agent").unwrap();
    assert_eq!(e.len(), 1);
    assert_eq!(e[0].0, "term_1");
    assert_eq!(e[0].1, "codex · toolbox");
}

#[test]
fn extract_entries_falls_back_to_flat_array() {
    let flat = r#"[{"workspace_id":"w1","label":"a"}]"#;
    assert_eq!(
        extract_entries(flat, "workspace").unwrap(),
        vec![("w1".into(), "a".into())]
    );
}

#[test]
fn entries_without_an_id_are_left_out() {
    let mixed = r#"[{"label":"a"},{"id":"x"},{"id":5,"label":"b"},{"id":"y","label":7}]"#;
    assert_eq!(extract_entries(mixed, "thing").unwrap(), pairs(&[("x", ""), ("y", "")]));
    let agents = r#"[{"terminal_id":"t1"},{"terminal_id":"t2","cwd":"/"},{"terminal_id":"t3","cwd":"/a/.."}]"#;
    assert_eq!(
        extract_entries(agents, "agent").unwrap(),
        pairs(&[("t1", "agent · "), ("t2", "agent · /"), ("t3", "agent · /a/..")])
    );
}

#[test]
fn entries_say_why_there_are_none() {
    assert_eq!(extract_entries("", "tab"), Err(ListError::NotJson));
    assert_eq!(extract_entries(r#"{"result":{"tabs":{}}}"#, "tab"), Err(ListError::NoArray));
    assert_eq!(extract_entries("[]", "tab"), Ok(vec![]));
    assert_eq!(entries_in(None, "tab"), Err(ListError::NotJson));
    let reply = Json::Array(vec![Json::Object(vec![(
        "tab_id".to_string(),
        Json::Str("t1".to_string()),
    )])]);
    assert_eq!(entries_in(Some(&reply), "tab"), Ok(pairs(&[("t1", "")])));
}

#[test]
fn ids_are_named_by_kind() {
    assert_eq!(id_field_for_kind("workspace"), "workspace_id");
    assert_eq!(id_field_for_kind("tab"), "tab_id");
    assert_eq!(id_field_for_kind("agent"), "terminal_id");
    assert_eq!(id_field_for_kind("pane"), "id");
}

#[test]
fn extract_current_pane_cwd_prefers_foreground_cwd() {
    let current = r#"{"result":{"pane":{"pane_id":"w1:p1","cwd":"/Users/x/base","foreground_cwd":"/Users/x/foreground"}}}"#;
    assert_eq!(
        extract_current_pane_cwd(current),
        Some("/Users/x/foreground".to_string())
    );

    let cwd_only = r#"{"result":{"pane":{"pane_id":"w1:p1","cwd":"/Users/x/base"}}}"#;
    assert_eq!(
        extract_current_pane_cwd(cwd_only),
        Some("/Users/x/base".to_string())
    );
}

#[test]
fn current_pane_cwd_takes_the_first_that_is_not_empty() {
    let empty = r#"{"pane":{"foreground_cwd":"","cwd":"/base"}}"#;
    assert_eq!(extract_current_pane_cwd(empty), Some("/base".to_string()));
    assert_eq!(extract_current_pane_cwd(r#"{"pane":{"cwd":""}}"#), None);
    assert_eq!(extract_current_pane_cwd("{}"), None);
    assert_eq!(extract_current_pane_cwd("not json"), None);
    let shadowed = r#"{"result":{"pane":5},"pane":{"cwd":"/base"}}"#;
    assert_eq!(extract_current_pane_cwd(shadowed), None);
}

#[test]
fn focused_pane_cwd_prefers_current_pane_over_focused_list() {
    let current = r#"{"id":"cli:pane:current","result":{"pane":{"pane_id":"w1:p1","cwd":"/base","foreground_cwd":"/Users/x/current","focused":false},"type":"pane_current"}}"#;
    let listed = r#"{"id":"cli:pane:list","result":{"panes":[{"pane_id":"w1:p1","cwd":"/Users/x/focused","focused":true}],"type":"pane_list"}}"#;
    let cwd = focused_pane_cwd(Some(current), Some(listed));
    assert_eq!(cwd, Some("/Users/x/current".to_string()));
}

#[test]
fn focused_pane_cwd_reads_focused_pane() {
    let listed = r#"{"id":"cli:pane:list","result":{"panes":[{"pane_id":"w1:p1","cwd":"/wrong","focused":false},{"pane_id":"w1:p2","cwd":"/Users/x/focused","focused":true}],"type":"pane_list"}}"#;
    let cwd = focused_pane_cwd(Some(""), Some(listed));
    assert_eq!(cwd, Some("/Users/x/focused".to_string()));
    assert_eq!(focused_pane_cwd(None, Some(listed)), cwd);
    assert_eq!(focused_pane_cwd(None, None), None);
}

#[test]
fn inject_cwd_adds_flag_to_creation_commands() {
    let cwd = "/Users/x/focused";

    let mut pane = vec![
        "herdr".into(),
        "pane".into(),
        "split".into(),
        "--direction".into(),
        "right".into(),
        "--focus".into(),
    ];
    inject_cwd_for_creation(&mut pane, cwd);
    assert_eq!(
        pane,
        vec![
            "herdr",
            "pane",
            "split",
            "--direction",
            "right",
            "--focus",
            "--cwd",
            "/Users/x/focused"
        ]
    );

    let mut workspace = vec![
        "herdr".into(),
        "workspace".into(),
        "create".into(),
        "--focus".into(),
    ];
    inject_cwd_for_creation(&mut workspace, cwd);
    assert_eq!(
        workspace,
        vec![
            "herdr",
            "workspace",
            "create",
            "--focus",
            "--cwd",
            "/Users/x/focused"
        ]
    );

    let mut tab = vec![
        "herdr".into(),
        "tab".into(),
        "create".into(),
        "--focus".into(),
    ];
    inject_cwd_for_creation(&mut tab, cwd);
    assert_eq!(
        tab,
        vec![
            "herdr",
            "tab",
            "create",
            "--focus",
            "--cwd",
            "/Users/x/focused"
        ]
    );

    let mut plugin = vec![
        "herdr".into(),
        "plugin".into(),
        "pane".into(),
        "open".into(),
        "--plugin".into(),
        "ramarivera.palette".into(),
        "--entrypoint".into(),
        "shell".into(),
    ];
    inject_cwd_for_creation(&mut plugin, cwd);
    assert_eq!(
        plugin,
        vec![
            "herdr",
            "plugin",
            "pane",
            "open",
            "--plugin",
            "ramarivera.palette",
            "--entrypoint",
            "shell",
            "--cwd",
            "/Users/x/focused"
        ]
    );
}

#[test]
fn inject_cwd_skips_non_creation_commands() {
    let cwd = "/Users/x/focused";
    let mut argv = vec![
        "herdr".into(),
        "pane".into(),
        "focus".into(),
        "--direction".into(),
        "left".into(),
    ];
    inject_cwd_for_creation(&mut argv, cwd);
    assert_eq!(argv, vec!["herdr", "pane", "focus", "--direction", "left"]);
}

#[test]
fn inject_cwd_does_not_duplicate_existing_flag() {
    let cwd = "/Users/x/focused";
    let mut argv = vec![
        "herdr".into(),
        "pane".into(),
        "split".into(),
        "--cwd".into(),
        "/other".into(),
        "--focus".into(),
    ];
    inject_cwd_for_creation(&mut argv, cwd);
    assert_eq!(
        argv,
        vec!["herdr", "pane", "split", "--cwd", "/other", "--focus"]
    );
}

#[test]
fn inject_cwd_twice_is_injecting_it_once() {
    let mut argv = strings(&["herdr", "tab", "create"]);
    inject_cwd_for_creation(&mut argv, "/a");
    inject_cwd_for_creation(&mut argv, "/b");
    assert_eq!(argv, strings(&["herdr", "tab", "create", "--cwd", "/a"]));
}

#[test]
fn inject_cwd_wants_the_program_and_the_subcommand() {
    for list in [
        &["other", "tab", "create"][..],
        &["herdr", "worktree", "create"][..],
        &["herdr", "tab"][..],
        &["herdr", "plugin", "pane"][..],
        &[][..],
    ] {
        let mut argv = strings(list);
        inject_cwd_for_creation(&mut argv, "/a");
        assert_eq!(argv, strings(list));
    }
}

#[test]
fn dispatch_run_injects_the_cwd_flag() {
    let dispatch = Dispatch::Cli(strings(&["herdr", "pane", "split", "--direction", "right", "--focus"]));
    match run(&dispatch, "/work") {
        RunStep::Run(argv) => assert_eq!(
            argv.join(" "),
            "herdr pane split --direction right --focus --cwd /work"
        ),
        other => panic!("{other:?}"),
    }
}

#[test]
fn focusing_runs_the_focus_command() {
    let cases = [
        (Dispatch::FocusWorkspace("w1".to_string()), ["herdr", "workspace", "focus", "w1"]),
        (Dispatch::FocusTab("w1:t2".to_string()), ["herdr", "tab", "focus", "w1:t2"]),
        (Dispatch::FocusAgent("term_1".to_string()), ["herdr", "agent", "focus", "term_1"]),
    ];
    for (dispatch, want) in cases {
        match run(&dispatch, "/work") {
            RunStep::Run(argv) => assert_eq!(argv, strings(&want)),
            other => panic!("{other:?}"),
        }
    }
}

#[test]
fn cycling_names_the_list_and_the_way() {
    let cases = [
        (Dispatch::NextWorkspace, "workspace", Neighbor::Next),
        (Dispatch::PrevWorkspace, "workspace", Neighbor::Prev),
        (Dispatch::NextTab, "tab", Neighbor::Next),
        (Dispatch::PrevTab, "tab", Neighbor::Prev),
        (Dispatch::NextAgent, "agent", Neighbor::Next),
        (Dispatch::PrevAgent, "agent", Neighbor::Prev),
    ];
    for (dispatch, kind, neighbor) in cases {
        match run(&dispatch, "/work") {
            RunStep::Cycle(k, n) => assert_eq!((k, n), (kind, neighbor)),
            other => panic!("{other:?}"),
        }
    }
}

#[test]
fn neighbors_wrap_and_undo_each_other() {
    let entries = pairs(&[("a", ""), ("b", ""), ("c", "")]);
    assert_eq!(neighbor_of(&entries, "a", Neighbor::Next), 1);
    assert_eq!(neighbor_of(&entries, "c", Neighbor::Next), 0);
    assert_eq!(neighbor_of(&entries, "a", Neighbor::Prev), 2);
    assert_eq!(neighbor_of(&entries, "missing", Neighbor::Next), 1);
    for (id, _) in &entries {
        let on = neighbor_of(&entries, id, Neighbor::Next);
        let back = neighbor_of(&entries, &entries[on].0, Neighbor::Prev);
        assert_eq!(&entries[back].0, id);
    }
}

#[test]
fn a_neighbor_is_focused_in_two_steps() {
    let reply = r#"{"result":{"tabs":[{"tab_id":"t1"},{"tab_id":"t2","focused":true},{"tab_id":"t3"}]}}"#;
    assert!(matches!(
        focus_neighbor("tab", Neighbor::Next, reply, None),
        Ok(NeighborStep::AskFocused)
    ));
    match focus_neighbor("tab", Neighbor::Next, reply, Some(reply)) {
        Ok(NeighborStep::Focus(argv)) => {
            assert_eq!(argv, strings(&["herdr", "tab", "focus", "t3"]))
        }
        other => panic!("{other:?}"),
    }
    match focus_neighbor("tab", Neighbor::Prev, reply, Some(reply)) {
        Ok(NeighborStep::Focus(argv)) => {
            assert_eq!(argv, strings(&["herdr", "tab", "focus", "t1"]))
        }
        other => panic!("{other:?}"),
    }
    assert!(matches!(
        focus_neighbor("tab", Neighbor::Prev, r#"[{"tab_id":"t1"}]"#, None),
        Ok(NeighborStep::Stay)
    ));
    assert!(matches!(
        focus_neighbor("tab", Neighbor::Prev, "?", None),
        Err(ListError::NotJson)
    ));
    assert!(matches!(
        focus_neighbor("tab", Neighbor::Prev, reply, Some("{}")),
        Err(ListError::NoArray)
    ));
}

#[test]
fn a_neighbor_step_passes_errors_on() {
    let two = pairs(&[("a", ""), ("b", "")]);
    assert!(matches!(
        neighbor_step_for("tab", Neighbor::Next, Ok(two), Some(Err(ListError::NoId))),
        Err(ListError::NoId)
    ));
    assert!(matches!(
        neighbor_step_for("tab", Neighbor::Next, Err(ListError::NoArray), None),
        Err(ListError::NoArray)
    ));
}

#[test]
fn herdr_stands_for_the_program_that_was_found() {
    let c = run_argv(&strings(&["herdr", "tab", "list"]), Some("/opt/herdr")).unwrap();
    assert_eq!(c.program, "/opt/herdr");
    assert_eq!(c.args, strings(&["tab", "list"]));
    let c = run_argv(&strings(&["echo"]), None).unwrap();
    assert_eq!(c.program, "echo");
    assert!(c.args.is_empty());
    assert!(matches!(run_argv(&vec![], Some("/opt/herdr")), Err(ArgvError::Empty)));
    assert!(matches!(run_argv(&strings(&["herdr"]), None), Err(ArgvError::NoHerdr)));
}

#[test]
fn the_configured_herdr_wins_unless_it_is_empty() {
    assert_eq!(herdr_bin(Some("/a"), Some("/b")), Some("/a".to_string()));
    assert_eq!(herdr_bin(Some(""), Some("/b")), Some("/b".to_string()));
    assert_eq!(herdr_bin(None, Some("/b")), Some("/b".to_string()));
    assert_eq!(herdr_bin(Some(""), None), None);
}

#[test]
fn json_is_read_as_it_is_written() {
    let v = parse_json(r#"{"a":[1,true,null,"x\n"],"b":{"c":"d"},"a":"last"}"#).unwrap();
    assert_eq!(v.get_str("a"), Some("last"));
    assert_eq!(v.get("b").and_then(|b| b.get_str("c")), Some("d"));
    assert!(v.get("missing").is_none());
    let list = parse_json(r#"["x\n",{"focused":true},{"focused":1}]"#).unwrap();
    let list = list.as_array().unwrap();
    assert_eq!(list[0].as_str(), Some("x\n"));
    assert!(list[1].get_true("focused"));
    assert!(!list[2].get_true("focused"));
    assert!(parse_json("{").is_none());
}

#[test]
fn cycling_visits_every_entry_once() {
    let entries = pairs(&[("a", ""), ("b", ""), ("c", ""), ("d", "")]);
    for next in [true, false] {
        let mut at = 2;
        let mut seen = vec![];
        for _ in 0..entries.len() {
            seen.push(at);
            let neighbor = if next { Neighbor::Next } else { Neighbor::Prev };
            at = neighbor_of(&entries, &entries[at].0, neighbor);
        }
        assert_eq!(at, 2);
        seen.sort();
        assert_eq!(seen, vec![0, 1, 2, 3]);
    }
}
