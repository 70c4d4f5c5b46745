use herdr_palette::items::{Dispatch, Item, ItemKind};
use herdr_palette::palette::{InputMode, NavigationViewMode, PaletteState};
use herdr_palette::screen::{render_snapshot, snapshot_of};
use herdr_palette::shell::{ShellEvent, ShellLine, ShellStream};
use herdr_palette::tree::{TreeRow, TreeRowKind};

fn item(kind: ItemKind, title: &str, path: &[&str], fires: bool) -> Item {
    Item {
        kind,
        title: title.to_string(),
        subtitle: String::new(),
        keys: vec![],
        tree_path: path.iter().map(|p| p.to_string()).collect(),
        binding: None,
        dispatch: if fires { Some(Dispatch::Cli(vec!["x".to_string()])) } else { None },
    }
}

fn sample_items() -> Vec<Item> {
    vec![
        Item {
            kind: ItemKind::Binding,
            title: "Split vertical".into(),
            subtitle: "Split side by side.".into(),
            keys: vec!["prefix+v".into()],
            tree_path: vec!["Panes".into(), "Layout".into()],
            binding: None,
            dispatch: Some(Dispatch::Cli(vec![
                "herdr".into(),
                "pane".into(),
                "split".into(),
                "--direction".into(),
                "right".into(),
            ])),
        },
        Item {
            kind: ItemKind::Binding,
            title: "Help".into(),
            subtitle: "Open key map.".into(),
            keys: vec!["prefix+?".into()],
            tree_path: vec!["Session".into(), "Core".into()],
            binding: None,
            dispatch: None,
        },
        Item {
            kind: ItemKind::PluginAction,
            title: "Open pretty which".into(),
            subtitle: "ramarivera.pretty-which.open".into(),
            keys: vec![],
            tree_path: vec!["Plugins".into(), "ramarivera.pretty-which".into()],
            binding: None,
            dispatch: Some(Dispatch::Cli(vec!["herdr".into()])),
        },
    ]
}

fn state(query: &str) -> PaletteState {
    PaletteState::new(sample_items(), "Palette".into(), query, "/tmp", Some("/bin/sh"))
}

fn titles(s: &PaletteState) -> Vec<&str> {
    s.matched.iter().map(|m| m.item.title.as_str()).collect()
}

fn labels(rows: &[TreeRow]) -> Vec<String> {
    rows.iter().map(|r| r.path.join("/")).collect()
}

fn selected_path(s: &PaletteState) -> String {
    s.selected_tree_row().unwrap().path.join("/")
}

fn render_shell_snapshot(
    header: &str,
    command: &str,
    lines: Vec<ShellLine>,
    running: bool,
    width: u16,
    height: u16,
) -> String {
    let mut state = PaletteState::new(Vec::new(), header.to_string(), "", "/tmp", Some("/bin/sh"));
    state.input_mode = InputMode::Shell;
    state.shell.command = if command.is_empty() { None } else { Some(command.to_string()) };
    state.shell.lines = lines;
    state.shell.running = running;
    snapshot_of(&mut state, width, height)
}

#[test]
fn empty_query_matches_everything() {
    let mut s = state("");
    assert_eq!(s.matched.len(), 3);
    s.query = "split".into();
    s.recompute_matches();
    assert!(s.matched.len() <= 3);
    assert!(s.matched.iter().any(|m| m.item.title.contains("Split")));
}

#[test]
fn fuzzy_ranks_split_above_help() {
    let mut s = state("split");
    s.navigation_view = NavigationViewMode::List;
    assert_eq!(
        s.matched.first().map(|m| m.item.title.as_str()),
        Some("Split vertical")
    );
}

#[test]
fn tree_snapshot_groups_matches_by_mnemonic_path() {
    let out = render_snapshot(sample_items(), "Palette", "split", 90, 16, "/tmp", None);
    assert!(out.contains("▾ Panes"));
    assert!(out.contains("▾ Layout"));
    assert!(out.contains("• Split vertical"));
}

#[test]
fn flat_sort_prefers_dispatchable_then_kind_priority_on_equal_scores() {
    let mut items = sample_items();
    items.push(Item {
        kind: ItemKind::Binding,
        title: "Open reference".into(),
        subtitle: "Reference-only keybinding".into(),
        keys: vec!["prefix+o".into()],
        tree_path: vec!["Session".into(), "Core".into()],
        binding: None,
        dispatch: None,
    });
    let mut s = PaletteState::new(items, "Palette".into(), "open", "/tmp", Some("/bin/sh"));
    s.navigation_view = NavigationViewMode::List;
    s.recompute_matches();
    assert_eq!(
        s.matched.first().map(|m| m.item.title.as_str()),
        Some("Open pretty which")
    );
}

#[test]
fn move_selection_wraps() {
    let mut s = state("");
    s.navigation_view = NavigationViewMode::List;
    s.selected = 0;
    s.move_selection(-1); // wrap to last
    assert_eq!(s.selected, 2);
    s.move_selection(1); // wrap back to first
    assert_eq!(s.selected, 0);
}

#[test]
fn snapshot_renders_without_panic() {
    let out = render_snapshot(sample_items(), "Palette", "", 90, 16, "/tmp", None);
    assert!(out.contains("Palette"));
    assert!(out.contains("Split vertical"));
}

#[test]
fn shell_mode_can_be_entered() {
    let mut s = state("");
    assert_eq!(s.input_mode, InputMode::Palette);

    s.enter_shell_mode();
    assert_eq!(s.input_mode, InputMode::Shell);
}

#[test]
fn shell_snapshot_renders_command_separator_output_and_status() {
    let out = render_shell_snapshot(
        "Palette",
        "printf hello",
        vec![
            ShellLine {
                stream: ShellStream::Stdout,
                text: "hello".into(),
            },
            ShellLine {
                stream: ShellStream::Status,
                text: "exit 0".into(),
            },
        ],
        false,
        90,
        20,
    );

    assert!(out.contains("Shell "));
    assert!(out.contains("command printf hello"));
    assert!(out.contains("────"));
    assert!(out.contains("hello"));
    assert!(out.contains("exit 0"));
}

#[test]
fn shell_snapshot_marks_omitted_output_when_capped() {
    let lines = (1..=30)
        .map(|n| ShellLine {
            stream: ShellStream::Stdout,
            text: format!("line {n}"),
        })
        .collect();
    let out = render_shell_snapshot("Palette", "seq 30", lines, false, 90, 20);

    assert!(out.contains("…"));
    assert!(out.contains("earlier lines"));
    assert!(out.contains("line 30"));
}

#[test]
fn a_snapshot_is_drawn_cell_by_cell() {
    let out = render_snapshot(sample_items(), "Palette", "", 40, 14, "/tmp", None);
    let want = [
        "",
        "    ┌ Palette ─────────────────────┐",
        "    │View TREE   > ▏               │",
        "    │▶ ▾ Panes                     │",
        "    │    ▾ Layout                  │",
        "    │      • Split vertical  prefix│",
        "    │  ▾ Session                   │",
        "    │    ▾ Core                    │",
        "    │      • Help  prefix+?  [Keybi│",
        "    │  ▾ Plugins                   │",
        "    │    ▾ ramarivera.pretty-which │",
        "    │Enter run · ! shell · Ctrl-t v│",
        "    └──────────────────────────────┘",
        "",
    ];
    assert_eq!(out.lines().collect::<Vec<_>>(), want);
    assert!(out.ends_with("┘\n\n"));
}

#[test]
fn snapshots_of_any_width_are_drawn() {
    for width in 0..=60 {
        for height in [14, 15, 16, 30] {
            let out = render_snapshot(sample_items(), "Palette", "e", width, height, "/", None);
            assert!(out.ends_with('\n'));
            assert!(out.lines().all(|l| l.chars().count() <= width as usize));
            assert_eq!(out.lines().count(), height as usize);
        }
        let out = render_shell_snapshot("Palette", "ls", vec![], true, width, 9);
        assert!(out.ends_with('\n'));
        assert_eq!(out.lines().count(), 9);
    }
}

#[test]
fn matches_are_ranked_without_a_query() {
    let s = state("");
    assert_eq!(titles(&s), vec!["Open pretty which", "Split vertical", "Help"]);
    assert!(s.matched.iter().all(|m| m.score.is_none()));
    assert_eq!((s.selected, s.highlighted), (0, Some(0)));
}

#[test]
fn the_tree_lists_groups_once() {
    let mut items = sample_items();
    items.push(item(ItemKind::Binding, "Zoom", &["Panes", "Layout"], true));
    items.push(item(ItemKind::JumpTab, "logs", &[], true));
    let s = PaletteState::new(items, String::new(), "", "/", None);
    let rows = s.visible_tree_rows();
    assert_eq!(
        labels(&rows),
        vec![
            "Panes",
            "Panes/Layout",
            "Panes/Layout/Split vertical",
            "Session",
            "Session/Core",
            "Session/Core/Help",
            "Plugins",
            "Plugins/ramarivera.pretty-which",
            "Plugins/ramarivera.pretty-which/Open pretty which",
            "Panes/Layout/Zoom",
            "Tab",
            "Tab/logs",
        ]
    );
    assert!(rows.iter().all(|r| r.selectable && !r.context_only));
    assert_eq!((rows[2].depth, rows[11].depth, rows[1].depth), (2, 1, 1));
    assert_eq!(s.selectable_len(), 12);
}

#[test]
fn a_query_makes_groups_context_and_selects_the_best() {
    let s = state("pretty");
    let rows = s.visible_tree_rows();
    assert_eq!(rows.len(), 3);
    assert!(rows[0].context_only && !rows[0].selectable && rows[0].expanded);
    assert_eq!(s.selectable_len(), 1);
    assert_eq!((s.selected, s.highlighted), (0, Some(2)));
    assert_eq!(s.selected().unwrap().title, "Open pretty which");
    assert_eq!(s.best_selectable_index(), Some(0));
}

#[test]
fn a_query_without_matches_selects_nothing() {
    let mut s = state("zzzz");
    assert!(s.matched.is_empty());
    assert_eq!((s.selected, s.highlighted), (0, None));
    assert!(s.selected().is_none());
    s.move_selection(1);
    assert_eq!((s.selected, s.highlighted), (0, None));
    s.toggle_navigation_view();
    assert_eq!(s.highlighted, None);
}

#[test]
fn whitespace_around_a_query_does_not_count() {
    let s = state("  \t ");
    assert!(!s.has_query());
    assert_eq!(s.matched.len(), 3);
    assert_eq!(titles(&state(" split ")), titles(&state("split")));
}

#[test]
fn moving_goes_round_and_back() {
    let mut s = state("");
    for delta in [1, -1, 5, -13, 9, 100, i32::MAX, i32::MIN + 1] {
        let before = (s.selected, s.highlighted);
        s.move_selection(delta);
        assert!(s.selected < 9);
        s.move_selection(-delta);
        assert_eq!((s.selected, s.highlighted), before);
    }
    s.move_selection(9);
    assert_eq!(s.selected, 0);
    s.move_selection(i32::MIN);
    assert_eq!(s.selected as i64, (i32::MIN as i64).rem_euclid(9));
}

#[test]
fn left_closes_a_group_and_right_opens_it() {
    let mut s = state("");
    assert_eq!(selected_path(&s), "Panes");
    s.tree_left();
    assert_eq!(selected_path(&s), "Panes");
    assert!(!s.selected_tree_row().unwrap().expanded);
    assert_eq!(s.visible_tree_rows().len(), 7);
    s.tree_left();
    assert_eq!(selected_path(&s), "Panes");
    s.tree_right();
    assert_eq!(s.visible_tree_rows().len(), 9);
    assert_eq!((s.selected, s.highlighted), (0, Some(0)));
    s.tree_right();
    assert_eq!(selected_path(&s), "Panes/Layout");
    s.tree_right();
    assert_eq!(selected_path(&s), "Panes/Layout/Split vertical");
    s.tree_right();
    assert_eq!(selected_path(&s), "Panes/Layout/Split vertical");
    s.tree_left();
    assert_eq!(selected_path(&s), "Panes/Layout");
    s.tree_left();
    assert!(!s.selected_tree_row().unwrap().expanded);
    s.tree_left();
    assert_eq!(selected_path(&s), "Panes");
}

#[test]
fn an_item_at_the_path_of_a_group_is_found_first() {
    let items = vec![
        item(ItemKind::Binding, "B", &["A"], true),
        item(ItemKind::Binding, "x", &["A", "B"], true),
    ];
    let mut s = PaletteState::new(items, String::new(), "", "/", None);
    assert_eq!(labels(&s.visible_tree_rows()), vec!["A", "A/B", "A/B", "A/B/x"]);
    s.move_selection(2);
    assert_eq!(s.selected_tree_row().unwrap().kind, TreeRowKind::Group);
    s.tree_left();
    assert_eq!(s.selected, 1);
    assert_eq!(s.selected_tree_row().unwrap().kind, TreeRowKind::Item);
}

#[test]
fn groups_cannot_be_closed_in_the_list_or_with_a_query() {
    let mut s = state("e");
    let rows = s.visible_tree_rows().len();
    s.tree_left();
    s.tree_right();
    assert_eq!(s.visible_tree_rows().len(), rows);
    let mut s = state("");
    s.toggle_navigation_view();
    s.tree_left();
    assert!(!s.collapsed_tree_paths.contains("Panes"));
}

#[test]
fn collapsing_and_expanding_all() {
    let mut s = state("");
    s.move_selection(5);
    s.collapse_all_tree_nodes();
    assert_eq!(labels(&s.visible_tree_rows()), vec!["Panes", "Session", "Plugins"]);
    assert!(s.visible_tree_rows().iter().all(|r| !r.expanded));
    assert!(s.collapsed_tree_paths.contains("Panes\u{1f}Layout"));
    assert_eq!((s.selected, s.highlighted), (0, Some(0)));
    s.tree_right();
    assert_eq!(s.visible_tree_rows().len(), 4);
    s.expand_all_tree_nodes();
    assert_eq!(s.visible_tree_rows().len(), 9);
    s.query = "help".to_string();
    s.collapse_all_tree_nodes();
    s.recompute_matches();
    assert_eq!(labels(&s.visible_tree_rows()).last().unwrap(), "Session/Core/Help");
}

#[test]
fn turning_the_view_keeps_the_item() {
    let mut s = state("");
    s.move_selection(5);
    assert_eq!(s.selected().unwrap().title, "Help");
    s.toggle_navigation_view();
    assert_eq!(s.navigation_view, NavigationViewMode::List);
    assert_eq!(s.selected().unwrap().title, "Help");
    assert_eq!((s.selected, s.highlighted), (2, Some(2)));
    s.toggle_navigation_view();
    assert_eq!(s.selected().unwrap().title, "Help");
    s.tree_left();
    s.toggle_navigation_view();
    assert_eq!(s.selected, 0);
    s.move_selection(2);
    s.collapsed_tree_paths.insert("Session".to_string());
    s.toggle_navigation_view();
    assert_eq!(s.selected, 0);
}

#[test]
fn turning_to_a_tree_that_shows_the_item_keeps_it() {
    let mut s = state("");
    s.toggle_navigation_view();
    s.move_selection(2);
    assert_eq!(s.selected().unwrap().title, "Help");
    s.collapsed_tree_paths.insert("Plugins".to_string());
    s.toggle_navigation_view();
    assert_eq!(s.navigation_view, NavigationViewMode::Tree);
    assert_eq!(s.selected().unwrap().title, "Help");
    assert_eq!(labels(&s.visible_tree_rows()).last().unwrap(), "Plugins");
}

#[test]
fn both_views_show_the_same_matches() {
    for query in ["", "e", "pretty"] {
        let s = state(query);
        let mut in_tree: Vec<String> = s
            .visible_tree_rows()
            .into_iter()
            .filter_map(|row| row.item)
            .map(|item| item.title)
            .collect();
        let mut in_list: Vec<String> = titles(&s).iter().map(|t| t.to_string()).collect();
        in_tree.sort();
        in_list.sort();
        assert_eq!(in_tree, in_list);
    }
}

#[test]
fn a_query_opens_closed_groups() {
    let mut s = state("e");
    let open = labels(&s.visible_tree_rows());
    s.collapse_all_tree_nodes();
    assert_eq!(labels(&s.visible_tree_rows()), open);
}

#[test]
fn views_have_labels() {
    assert_eq!(NavigationViewMode::List.label(), "LIST");
    assert_eq!(NavigationViewMode::Tree.label(), "TREE");
}

#[test]
fn the_selection_stays_in_range_when_rows_go() {
    let mut s = state("");
    s.move_selection(-1);
    assert_eq!(s.selected, 8);
    s.collapsed_tree_paths.insert("Plugins".to_string());
    s.recompute_matches();
    assert_eq!((s.selected, s.highlighted), (6, Some(6)));
}

#[test]
fn given_hits_are_taken_as_they_are() {
    let mut s = state("x");
    let hits = state("").matched;
    s.recompute_with(hits);
    assert_eq!(s.matched.len(), 3);
    assert_eq!(s.selected, 0);
}

#[test]
fn the_palette_opens_as_asked() {
    let s = PaletteState::open(
        sample_items(),
        "H".to_string(),
        "split",
        "~/c".to_string(),
        true,
        "/w",
        Some("/bin/zsh"),
    );
    assert_eq!(s.input_mode, InputMode::Shell);
    assert_eq!((s.config_path.as_str(), s.header.as_str(), s.query.as_str()), ("~/c", "H", "split"));
    assert_eq!((s.shell.cwd.as_str(), s.shell.shell_label.as_str()), ("/w", "zsh"));
    let s = PaletteState::open(vec![], String::new(), "", String::new(), false, "/", None);
    assert_eq!(s.input_mode, InputMode::Palette);
}

#[test]
fn shell_reports_reach_the_panel() {
    let mut s = state("");
    s.enter_shell_mode();
    s.shell.input = "ls".to_string();
    s.shell.start(None);
    s.drain_shell_events(vec![ShellEvent::exited(Some(0))]);
    assert_eq!(s.shell.lines[0].text, "exit 0");
}

#[test]
fn right_undoes_left_on_an_open_group() {
    let rows = state("").visible_tree_rows().len();
    for at in 0..rows as i32 {
        let mut s = state("");
        s.move_selection(at);
        let row = s.selected_tree_row().unwrap();
        if row.kind == TreeRowKind::Group {
            let before = (s.selected, labels(&s.visible_tree_rows()));
            s.tree_left();
            assert_eq!(s.selected_tree_row().unwrap().path, row.path);
            assert!(!s.selected_tree_row().unwrap().expanded);
            assert!(s.collapsed_tree_paths.contains(&row.path.join("\u{1f}")));
            s.tree_right();
            assert_eq!((s.selected, labels(&s.visible_tree_rows())), before);
            assert!(!s.collapsed_tree_paths.contains(&row.path.join("\u{1f}")));
        }
    }
}

#[test]
fn rows_stand_below_the_groups_of_their_path() {
    let mut items = sample_items();
    items.push(item(ItemKind::Binding, "Deep", &["A", "B", "C"], true));
    let s = PaletteState::new(items, String::new(), "", "/", None);
    let rows = s.visible_tree_rows();
    for (j, row) in rows.iter().enumerate() {
        assert_eq!(row.path.len(), row.depth + 1);
        assert_eq!(&row.label, row.path.last().unwrap());
        for n in 1..row.path.len() {
            let above = rows[..j]
                .iter()
                .filter(|r| r.kind == TreeRowKind::Group && r.path == row.path[..n])
                .count();
            assert_eq!(above, 1);
        }
    }
}
