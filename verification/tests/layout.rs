use herdr_palette::layout::{
    centered_rect, overlay_chunks, overlay_rect, palette_overlay_height, shell_overlay_height, Area,
};
use herdr_palette::items::{Dispatch, Item, ItemKind};
use herdr_palette::palette::{InputMode, PaletteState};
use herdr_palette::shell::{ShellLine, ShellStream};

fn area(x: u16, y: u16, width: u16, height: u16) -> Area {
    Area { x, y, width, height }
}

fn sample_items() -> Vec<Item> {
    vec![Item {
        kind: ItemKind::PluginAction,
        title: "Open pretty which".into(),
        subtitle: "ramarivera.pretty-which.open".into(),
        keys: vec![],
        tree_path: vec!["Plugins".into(), "ramarivera.pretty-which".into()],
        binding: None,
        dispatch: Some(Dispatch::Cli(vec!["herdr".into()])),
    }]
}

fn sample_state() -> PaletteState {
    PaletteState::new(sample_items(), "Palette".into(), "", "/tmp", Some("/bin/sh"))
}

fn numbered(n: usize) -> Vec<ShellLine> {
    (1..=n)
        .map(|n| ShellLine { stream: ShellStream::Stdout, text: n.to_string() })
        .collect()
}

#[test]
fn shell_overlay_starts_compact_and_grows_with_output() {
    let area = area(0, 0, 100, 40);
    let mut s = sample_state();
    s.enter_shell_mode();

    assert_eq!(shell_overlay_height(area, &s), 7);

    s.shell.command = Some("seq 20".into());
    s.shell.lines = (1..=10)
        .map(|n| ShellLine {
            stream: ShellStream::Stdout,
            text: n.to_string(),
        })
        .collect();

    assert_eq!(shell_overlay_height(area, &s), 16);

    s.shell.lines = (1..=50)
        .map(|n| ShellLine {
            stream: ShellStream::Stdout,
            text: n.to_string(),
        })
        .collect();

    assert_eq!(shell_overlay_height(area, &s), 18);
}

#[test]
fn palette_overlay_takes_three_fifths() {
    assert_eq!(palette_overlay_height(area(0, 0, 80, 14)), 12);
    assert_eq!(palette_overlay_height(area(0, 0, 80, 24)), 14);
    assert_eq!(palette_overlay_height(area(0, 0, 80, 40)), 24);
    assert_eq!(palette_overlay_height(area(0, 0, 80, 65535)), 39321);
}

#[test]
fn heights_round_as_floats_do() {
    let mut s = sample_state();
    s.enter_shell_mode();
    s.shell.lines = numbered(100);
    for height in 14..=u16::MAX {
        let screen = area(0, 0, 80, height);
        let free = height.saturating_sub(2).max(1);
        let want = ((height as f32 * 0.60).round() as u16).clamp(12, free);
        assert_eq!(palette_overlay_height(screen), want);
        let most = ((height as f32 * 0.52).round() as u16).clamp(7, 18);
        assert_eq!(shell_overlay_height(screen, &s), 105u16.clamp(7, most.min(free)));
    }
}

#[test]
fn shell_overlay_on_small_screens() {
    let mut s = sample_state();
    s.enter_shell_mode();
    s.shell.lines = numbered(30);
    assert_eq!(shell_overlay_height(area(0, 0, 80, 9), &s), 7);
    assert_eq!(shell_overlay_height(area(0, 0, 80, 14), &s), 7);
    assert_eq!(shell_overlay_height(area(0, 0, 80, 20), &s), 10);
    s.shell.lines = numbered(3);
    assert_eq!(shell_overlay_height(area(0, 0, 80, 20), &s), 8);
}

#[test]
fn shell_overlay_counts_lines_in_sixteen_bits() {
    let mut s = sample_state();
    s.enter_shell_mode();
    s.shell.lines = numbered(65536);
    assert_eq!(shell_overlay_height(area(0, 0, 100, 40), &s), 7);
    s.shell.lines = numbered(65530);
    assert_eq!(shell_overlay_height(area(0, 0, 100, 40), &s), 18);
}

#[test]
fn centered_rects_are_centered() {
    assert_eq!(centered_rect(area(0, 0, 100, 40), 80, 24), area(10, 8, 80, 24));
    assert_eq!(centered_rect(area(0, 0, 100, 41), 80, 24), area(10, 8, 80, 24));
    assert_eq!(centered_rect(area(5, 7, 100, 40), 78, 7), area(16, 23, 78, 7));
    assert_eq!(centered_rect(area(0, 0, 90, 16), 80, 12), area(9, 2, 72, 12));
    assert_eq!(centered_rect(area(0, 0, 90, 16), 80, 99), area(9, 0, 72, 16));
    assert_eq!(centered_rect(area(0, 0, 0, 16), 80, 12), area(0, 2, 0, 12));
    assert_eq!(centered_rect(area(3, 4, 7, 5), 100, 5), area(3, 4, 7, 5));
}

fn want_centered(a: Area, width_pct: u32, height: u16) -> Area {
    let rows = height.min(a.height);
    let side = (100 - width_pct) / 2;
    let left = (a.width as u32 * side + 50) / 100;
    let right = (a.width as u32 * (side + width_pct) + 50) / 100;
    area(a.x + left as u16, a.y + (a.height - rows) / 2, (right - left) as u16, rows)
}

#[test]
fn centered_rects_round_each_edge() {
    for width in 0..=400 {
        for pct in [80u16, 78, 100, 0, 33, 51] {
            let a = area(width % 7, width % 5, width, 30);
            assert_eq!(centered_rect(a, pct, 12), want_centered(a, pct as u32, 12), "{width} {pct}");
        }
    }
    for width in (400..=65000).step_by(97) {
        let a = area(500, 3, width, 30);
        assert_eq!(centered_rect(a, 80, 12), want_centered(a, 80, 12), "{width}");
        assert_eq!(centered_rect(a, 78, 9), want_centered(a, 78, 9), "{width}");
    }
    for height in (0..=65000).step_by(83) {
        let a = area(0, 500, 90, height);
        assert_eq!(centered_rect(a, 80, 12), want_centered(a, 80, 12), "{height}");
    }
    for height in 0..=200 {
        let a = area(0, 0, 90, 100);
        assert_eq!(centered_rect(a, 80, height), want_centered(a, 80, height), "{height}");
    }
}

#[test]
fn chunks_lie_inside_the_frame() {
    assert_eq!(
        overlay_chunks(area(10, 8, 80, 24)),
        (area(11, 9, 78, 1), area(11, 10, 78, 20), area(11, 30, 78, 1))
    );
    for height in (5..=60).chain([1000, 30000, 65000]) {
        for width in [2, 3, 50, 65000] {
            let (prompt, body, footer) = overlay_chunks(area(4, 6, width, height));
            assert_eq!(prompt, area(5, 7, width - 2, 1));
            assert_eq!(body, area(5, 8, width - 2, height - 4));
            assert_eq!(footer, area(5, 6 + height - 2, width - 2, 1));
        }
        let nothing = area(0, 0, 0, 0);
        assert_eq!(overlay_chunks(area(4, 6, 1, height)), (nothing, nothing, nothing));
    }
}

#[test]
fn the_overlay_depends_on_the_mode() {
    let mut s = sample_state();
    assert_eq!(s.input_mode, InputMode::Palette);
    assert_eq!(overlay_rect(area(0, 0, 100, 40), &s), area(10, 8, 80, 24));
    s.enter_shell_mode();
    assert_eq!(overlay_rect(area(0, 0, 100, 40), &s), area(11, 16, 78, 7));
}
