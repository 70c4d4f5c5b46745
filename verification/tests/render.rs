use herdr_palette::items::{Dispatch, Item, ItemKind};
use herdr_palette::layout::Area;
use herdr_palette::palette::{NavigationViewMode, PaletteState};
use herdr_palette::render::{
    accent_for_kind, palette_prompt, render_palette_rows, render_row, render_shell_output,
    render_tree_row, shell_line_style, shell_prompt, Line, Role, Tone,
};
use herdr_palette::screen::{
    draw, header_for, render_buffer, render_snapshot, snapshot_of, Ground, Look, Screen,
};
use herdr_palette::shell::{ShellLine, ShellPanel, ShellStream};
use herdr_palette::tree::{TreeRow, TreeRowKind};
use ratatui::backend::TestBackend;
use ratatui::layout::Rect;
use ratatui::style::{Color, Style};
use ratatui::widgets::{Block, Borders, Clear, List, ListItem, ListState, Paragraph};
use ratatui::Terminal;

fn plain(role: Role) -> Tone {
    Tone { role, bold: false, dim: false }
}

fn faint() -> Tone {
    Tone { role: Role::Muted, bold: false, dim: true }
}

fn item(title: &str, subtitle: &str, keys: &[&str], fires: bool) -> Item {
    Item {
        kind: ItemKind::PluginAction,
        title: title.to_string(),
        subtitle: subtitle.to_string(),
        keys: keys.iter().map(|k| k.to_string()).collect(),
        tree_path: vec![],
        binding: None,
        dispatch: if fires { Some(Dispatch::NextTab) } else { None },
    }
}

fn row(kind: TreeRowKind, item: Option<Item>) -> TreeRow {
    TreeRow {
        path: vec!["P".to_string(), "Q".to_string()],
        label: "Q".to_string(),
        depth: 1,
        kind,
        selectable: true,
        context_only: false,
        expanded: true,
        item,
        score: None,
    }
}

fn text(line: &Line) -> String {
    line.spans.iter().map(|s| s.text.as_str()).collect()
}

fn tones(line: &Line) -> Vec<Tone> {
    line.spans.iter().map(|s| s.tone).collect()
}

#[test]
fn list_rows_show_title_subtitle_kind_and_keys() {
    let line = render_row(&item("Open", "p.open", &["a", "b"], true));
    assert_eq!(text(&line), "Open  p.open [Plugin]  a, b");
    assert_eq!(
        tones(&line),
        vec![plain(Role::Text), plain(Role::Muted), plain(Role::Success), plain(Role::Muted)]
    );
    assert_eq!(text(&render_row(&item("Open", "Open", &[], true))), "Open  [Plugin]");
    let line = render_row(&item("Open", "", &[], false));
    assert_eq!(text(&line), "Open  [Plugin]");
    assert_eq!(line.spans[0].tone, faint());
    assert_eq!(line.tone, plain(Role::Inherit));
}

#[test]
fn tree_rows_show_groups_and_items() {
    let group = row(TreeRowKind::Group, None);
    let line = render_tree_row(&group);
    assert_eq!(text(&line), "  ▾ Q");
    assert_eq!(line.tone, plain(Role::Text));

    let mut closed = row(TreeRowKind::Group, None);
    closed.expanded = false;
    closed.context_only = true;
    closed.depth = 0;
    let line = render_tree_row(&closed);
    assert_eq!(text(&line), "▸ Q");
    assert_eq!(tones(&line), vec![plain(Role::Inherit), faint(), faint()]);
    assert_eq!(line.tone, faint());

    let mut leaf = row(TreeRowKind::Item, Some(item("Open", "s", &["a", "b"], false)));
    leaf.depth = 2;
    let line = render_tree_row(&leaf);
    assert_eq!(text(&line), "    • Open  a, b  [Plugin]");
    assert_eq!(line.spans[2].tone, faint());
    assert_eq!(line.spans[3].tone, plain(Role::Accent2));
    leaf.score = Some(3);
    assert_eq!(text(&render_tree_row(&leaf)), "    • Open  a, b  [Plugin]  match");
}

#[test]
fn kinds_and_streams_have_colours() {
    assert_eq!(accent_for_kind(ItemKind::PluginAction), Role::Success);
    assert_eq!(accent_for_kind(ItemKind::CustomCommand), Role::Warning);
    for kind in [ItemKind::Binding, ItemKind::JumpWorkspace, ItemKind::JumpTab, ItemKind::JumpAgent] {
        assert_eq!(accent_for_kind(kind), Role::Accent);
    }
    assert_eq!(shell_line_style(ShellStream::Stdout), plain(Role::Text));
    assert_eq!(shell_line_style(ShellStream::Stderr), plain(Role::Danger));
    assert_eq!(shell_line_style(ShellStream::Status), plain(Role::Muted));
}

#[test]
fn prompts_show_the_view_and_the_shell() {
    let mut s = PaletteState::new(vec![], "H".to_string(), "q", "/", Some("/bin/zsh"));
    let line = palette_prompt(&s);
    assert_eq!(text(&line), "View TREE   > q▏");
    assert_eq!(line.spans[1].tone, Tone { role: Role::Accent2, bold: true, dim: false });
    s.shell.input = "ls".to_string();
    assert_eq!(text(&shell_prompt(&s)), "Shell zsh   ! ls▏");
    s.shell.running = true;
    assert_eq!(text(&shell_prompt(&s)), "Shell zsh running   ! ls");
}

#[test]
fn rows_follow_the_view() {
    let items = vec![item("Open", "s", &[], true)];
    let mut s = PaletteState::new(items, String::new(), "", "/", None);
    s.highlighted = None;
    let rows = render_palette_rows(&mut s);
    assert_eq!(rows.iter().map(text).collect::<Vec<_>>(), vec!["▾ Plugin", "  • Open  [Plugin]"]);
    assert_eq!(s.highlighted, Some(0));
    s.navigation_view = NavigationViewMode::List;
    let rows = render_palette_rows(&mut s);
    assert_eq!(rows.iter().map(text).collect::<Vec<_>>(), vec!["Open  s [Plugin]"]);
}

fn output(command: Option<&str>, lines: usize, width: u16, height: u16) -> Vec<String> {
    let mut panel = ShellPanel::new("/".to_string(), None);
    panel.command = command.map(str::to_string);
    panel.lines = (1..=lines)
        .map(|n| ShellLine { stream: ShellStream::Stdout, text: format!("line {n}") })
        .collect();
    render_shell_output(&panel, width, height).iter().map(text).collect()
}

#[test]
fn shell_output_shows_what_fits() {
    assert_eq!(output(None, 0, 5, 10), vec!["Type a shell command and press Enter."]);
    assert_eq!(output(Some("seq"), 0, 3, 10), vec!["command seq", "───"]);
    assert_eq!(output(Some("seq"), 2, 3, 4), vec!["command seq", "───", "line 1", "line 2"]);
    assert_eq!(
        output(Some("seq"), 9, 3, 5),
        vec!["command seq", "───", "… 6 earlier lines", "line 8", "line 9"]
    );
    assert_eq!(output(Some("seq"), 3, 3, 3), vec!["command seq", "───", "… 2 earlier lines"]);
    assert_eq!(output(Some("seq"), 1, 3, 3), vec!["command seq", "───", "line 1"]);
    assert_eq!(output(Some("seq"), 3, 3, 2), vec!["command seq", "───"]);
    assert_eq!(output(Some("seq"), 3, 0, 0), vec!["command seq", ""]);
    assert_eq!(output(None, 3, 9, 2), vec!["Type a shell command and press Enter.", "… 2 earlier lines"]);
}

#[test]
fn the_screen_is_laid_out() {
    let items = vec![item("Open", "s", &[], true)];
    let mut s = PaletteState::new(items, "Herdr".to_string(), "", "/", None);
    s.config_path = "~/c.toml".to_string();
    let screen = draw(&mut s, Area { x: 0, y: 0, width: 100, height: 40 });
    assert_eq!(screen.overlay, Area { x: 10, y: 8, width: 80, height: 24 });
    assert_eq!(text(&screen.title), " Herdr ");
    assert_eq!(screen.title.spans[0].tone, Tone { role: Role::Accent, bold: true, dim: false });
    assert_eq!(text(&screen.prompt), "View TREE   > ▏");
    assert_eq!(screen.rows.len(), 2);
    assert_eq!(screen.highlighted, Some(0));
    assert_eq!(screen.marker, "▶ ");
    assert_eq!(screen.looks.overlay, Look { ground: Ground::Panel, tone: plain(Role::Text) });
    assert_eq!(screen.looks.footer, Look { ground: Ground::Panel, tone: plain(Role::Muted) });
    let bold = Tone { role: Role::Inherit, bold: true, dim: false };
    assert_eq!(screen.looks.highlight, Look { ground: Ground::PanelAlt, tone: bold });
    assert_eq!(screen.looks.prompt, Look { ground: Ground::Panel, tone: plain(Role::Inherit) });
    assert_eq!(screen.looks.body, screen.looks.prompt);
    assert_eq!(
        text(&screen.footer),
        "Enter run · ! shell · Ctrl-t view · ←/→ tree · ↑↓/Ctrl-n-p select · Esc cancel · Ctrl-u clear · ~/c.toml"
    );

    s.enter_shell_mode();
    let screen = draw(&mut s, Area { x: 0, y: 0, width: 100, height: 40 });
    assert_eq!(screen.overlay, Area { x: 11, y: 16, width: 78, height: 7 });
    assert_eq!(text(&screen.prompt), "Shell bash   ! ▏");
    assert_eq!(screen.highlighted, None);
    assert_eq!(
        text(&screen.footer),
        "Enter run · empty Enter/Esc close · Ctrl-u clear · Ctrl-d cancel"
    );
}

fn grid(rows: &[&str]) -> Vec<Vec<String>> {
    rows.iter().map(|row| row.chars().map(|c| c.to_string()).collect()).collect()
}

#[test]
fn buffers_are_trimmed_row_by_row() {
    assert_eq!(render_buffer(&grid(&["ab ", "cd "])), "ab\ncd\n");
    assert_eq!(render_buffer(&grid(&["a  ", "bcd"])), "a\nbcd\n");
    assert_eq!(render_buffer(&grid(&["ab", "  ", "cd"])), "ab\n\ncd\n");
    assert_eq!(render_buffer(&grid(&["a", " ", "b"])), "a\n\nb\n");
    assert_eq!(render_buffer(&grid(&["  ", "ab"])), "\nab\n");
    assert_eq!(render_buffer(&grid(&["ab", "  "])), "ab\n\n");
    assert_eq!(render_buffer(&grid(&["", ""])), "\n\n");
    assert_eq!(render_buffer(&vec![]), "");
}

fn ratatui_line(line: &Line) -> ratatui::text::Line<'static> {
    let spans: Vec<_> = line
        .spans
        .iter()
        .map(|s| {
            let style = Style::default().fg(Color::Red);
            ratatui::text::Span::styled(s.text.clone(), style)
        })
        .collect();
    ratatui::text::Line::from(spans)
}

fn terminal_text(screen: &Screen, width: u16, height: u16) -> String {
    let rect = |a: Area| Rect::new(a.x, a.y, a.width, a.height);
    let panel = Style::default().bg(Color::Blue);
    let mut terminal = Terminal::new(TestBackend::new(width, height)).unwrap();
    terminal
        .draw(|f| {
            f.render_widget(Clear, f.area());
            let block = Block::default()
                .borders(Borders::ALL)
                .title(ratatui_line(&screen.title))
                .style(panel);
            f.render_widget(block, rect(screen.overlay));
            let prompt = Paragraph::new(ratatui_line(&screen.prompt)).style(panel);
            f.render_widget(prompt, rect(screen.prompt_area));
            let rows: Vec<_> =
                screen.rows.iter().map(|l| ListItem::new(ratatui_line(l))).collect();
            let list = List::new(rows).style(panel).highlight_symbol(screen.marker.as_str());
            let mut state = ListState::default();
            state.select(screen.highlighted);
            f.render_stateful_widget(list, rect(screen.body_area), &mut state);
            let footer = Paragraph::new(ratatui_line(&screen.footer)).style(panel);
            f.render_widget(footer, rect(screen.footer_area));
        })
        .unwrap();
    let buffer = terminal.backend().buffer().clone();
    let mut out = String::new();
    for y in 0..height {
        let row: String = (0..width).map(|x| buffer[(x, y)].symbol()).collect();
        out.push_str(row.trim_end());
        out.push('\n');
    }
    out
}

#[test]
fn snapshots_show_what_a_terminal_shows() {
    let items = || {
        (0..12)
            .map(|n| {
                let mut item = item(&format!("Öpen ☃ 漢字 {n}"), "sub\ttitle", &["é"], n % 2 == 0);
                item.tree_path = vec![format!("G{}", n / 3), "宽".to_string()];
                item
            })
            .collect::<Vec<_>>()
    };
    for width in [0, 1, 2, 3, 7, 20, 41, 90, 130] {
        for height in [14, 17, 40] {
            for query in ["", "pen", "漢"] {
                let header = "Herdr · 漢".to_string();
                let mut s = PaletteState::new(items(), header, query, "/", None);
                s.move_selection(7);
                let screen = draw(&mut s, Area { x: 0, y: 0, width, height });
                let want = terminal_text(&screen, width, height);
                assert_eq!(snapshot_of(&mut s, width, height), want, "{width}x{height} {query}");
                s.toggle_navigation_view();
                let screen = draw(&mut s, Area { x: 0, y: 0, width, height });
                let want = terminal_text(&screen, width, height);
                assert_eq!(snapshot_of(&mut s, width, height), want);
                s.enter_shell_mode();
                s.shell.command = Some("echo 漢字".to_string());
                let screen = draw(&mut s, Area { x: 0, y: 0, width, height });
                let want = terminal_text(&screen, width, height);
                assert_eq!(snapshot_of(&mut s, width, height), want);
            }
        }
    }
}

#[test]
fn the_header_names_the_theme() {
    assert_eq!(header_for("nord"), "Herdr Palette · nord");
}

#[test]
fn a_text_has_a_line_for_each_row() {
    for rows in [&["", "a", " "][..], &["x ", "", "", "y"], &[" "], &[]] {
        let out = render_buffer(&grid(rows));
        assert_eq!(out.matches('\n').count(), rows.len());
    }
}

#[test]
fn wide_screens_are_drawn() {
    let query = "漢".repeat(21_830);
    let out = render_snapshot(vec![], "Herdr", &query, 50_000, 14, "/", None);
    assert_eq!(out.lines().count(), 14);
    let prompt = out.lines().nth(2).unwrap();
    assert!(prompt.trim_start().starts_with("│View TREE   > 漢"));
    assert!(prompt.ends_with('│'));
    let out = render_snapshot(vec![], "Herdr", &"漢".repeat(40_000), 40_000, 14, "/", None);
    assert_eq!(out.lines().count(), 14);
}
