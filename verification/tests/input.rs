use herdr_palette::input::{
    palette_action, shell_action, Key, KeyEvent, Mods, Outcome, PaletteAction, ShellAction, Step,
};
use herdr_palette::items::{Dispatch, Item, ItemKind};
use herdr_palette::palette::{InputMode, NavigationViewMode, PaletteState};

const NONE: Mods = Mods { control: false, other: false };
const CTRL: Mods = Mods { control: true, other: false };
const SHIFT: Mods = Mods { control: false, other: true };
const CTRL_SHIFT: Mods = Mods { control: true, other: true };

fn item(title: &str, fires: bool) -> Item {
    Item {
        kind: ItemKind::Binding,
        title: title.to_string(),
        subtitle: String::new(),
        keys: vec![],
        tree_path: vec!["G".to_string()],
        binding: None,
        dispatch: if fires { Some(Dispatch::NextTab) } else { None },
    }
}

fn state() -> PaletteState {
    let items = vec![item("alpha", true), item("beta", false)];
    PaletteState::new(items, "H".to_string(), "", "/w", Some("/bin/sh"))
}

fn press(s: &mut PaletteState, key: Key, mods: Mods) -> Step {
    s.handle_key(KeyEvent { key, mods, pressed: true }, Some("/bin/sh"))
}

fn is_cancelled(step: Step) -> bool {
    matches!(step, Step::Done(Outcome::Cancelled))
}

#[test]
fn palette_keys_mean_what_they_say() {
    let plain = [
        (Key::Esc, PaletteAction::Cancel),
        (Key::Enter, PaletteAction::Confirm),
        (Key::Down, PaletteAction::Next),
        (Key::Up, PaletteAction::Previous),
        (Key::Left, PaletteAction::Left),
        (Key::Right, PaletteAction::Right),
        (Key::Backspace, PaletteAction::Erase),
        (Key::Other, PaletteAction::Ignore),
        (Key::Char('!'), PaletteAction::OpenShell),
    ];
    for mods in [NONE, CTRL, SHIFT, CTRL_SHIFT] {
        for (key, action) in plain {
            assert_eq!(palette_action(key, mods), action);
        }
    }
    let control = [
        ('c', PaletteAction::Cancel),
        ('d', PaletteAction::Cancel),
        ('j', PaletteAction::Next),
        ('n', PaletteAction::Next),
        ('k', PaletteAction::Previous),
        ('p', PaletteAction::Previous),
        ('t', PaletteAction::ToggleView),
        ('[', PaletteAction::CollapseAll),
        (']', PaletteAction::ExpandAll),
        ('u', PaletteAction::ClearQuery),
        ('x', PaletteAction::Ignore),
    ];
    for (c, action) in control {
        assert_eq!(palette_action(Key::Char(c), CTRL), action);
        assert_eq!(palette_action(Key::Char(c), CTRL_SHIFT), PaletteAction::Ignore);
        assert_eq!(palette_action(Key::Char(c), NONE), PaletteAction::Insert(c));
        assert_eq!(palette_action(Key::Char(c), SHIFT), PaletteAction::Insert(c));
    }
}

#[test]
fn shell_keys_mean_what_they_say() {
    for mods in [NONE, CTRL, SHIFT, CTRL_SHIFT] {
        assert_eq!(shell_action(Key::Esc, mods), ShellAction::Close);
        assert_eq!(shell_action(Key::Enter, mods), ShellAction::Confirm);
        assert_eq!(shell_action(Key::Backspace, mods), ShellAction::Erase);
        for key in [Key::Up, Key::Down, Key::Left, Key::Right, Key::Other] {
            assert_eq!(shell_action(key, mods), ShellAction::Ignore);
        }
    }
    let control = [
        ('c', ShellAction::Close),
        ('d', ShellAction::Cancel),
        ('u', ShellAction::Clear),
        ('t', ShellAction::Ignore),
        ('!', ShellAction::Ignore),
    ];
    for (c, action) in control {
        assert_eq!(shell_action(Key::Char(c), CTRL), action);
        assert_eq!(shell_action(Key::Char(c), CTRL_SHIFT), ShellAction::Ignore);
        assert_eq!(shell_action(Key::Char(c), SHIFT), ShellAction::Insert(c));
    }
}

#[test]
fn only_presses_count() {
    let mut s = state();
    let event = KeyEvent { key: Key::Esc, mods: NONE, pressed: false };
    assert!(matches!(s.handle_key(event, None), Step::Continue));
    assert!(is_cancelled(press(&mut s, Key::Esc, NONE)));
}

#[test]
fn enter_picks_what_can_be_dispatched() {
    let mut s = state();
    assert!(is_cancelled(press(&mut s, Key::Enter, NONE)));
    s.move_selection(1);
    match press(&mut s, Key::Enter, NONE) {
        Step::Done(Outcome::Selected(item)) => assert_eq!(item.title, "alpha"),
        other => panic!("{other:?}"),
    }
    press(&mut s, Key::Down, NONE);
    assert!(matches!(press(&mut s, Key::Enter, NONE), Step::Continue));
}

#[test]
fn typing_filters_and_erasing_undoes_it() {
    let mut s = state();
    press(&mut s, Key::Char('b'), NONE);
    press(&mut s, Key::Char('E'), SHIFT);
    assert_eq!(s.query, "bE");
    assert_eq!(s.matched.len(), 1);
    press(&mut s, Key::Backspace, NONE);
    assert_eq!(s.query, "b");
    press(&mut s, Key::Char('q'), NONE);
    assert!(s.matched.is_empty());
    press(&mut s, Key::Char('u'), CTRL);
    assert_eq!(s.query, "");
    assert_eq!(s.matched.len(), 2);
    press(&mut s, Key::Backspace, NONE);
    assert_eq!(s.query, "");
}

#[test]
fn keys_move_and_turn() {
    let mut s = state();
    press(&mut s, Key::Char('n'), CTRL);
    assert_eq!(s.selected, 1);
    press(&mut s, Key::Char('k'), CTRL);
    press(&mut s, Key::Up, NONE);
    assert_eq!(s.selected, 2);
    press(&mut s, Key::Char('t'), CTRL);
    assert_eq!(s.navigation_view, NavigationViewMode::List);
    press(&mut s, Key::Char('t'), CTRL);
    press(&mut s, Key::Char('['), CTRL);
    assert_eq!(s.visible_tree_rows().len(), 1);
    press(&mut s, Key::Right, NONE);
    assert_eq!(s.visible_tree_rows().len(), 3);
    press(&mut s, Key::Left, NONE);
    assert_eq!(s.visible_tree_rows().len(), 1);
    press(&mut s, Key::Char(']'), CTRL);
    assert_eq!(s.visible_tree_rows().len(), 3);
}

#[test]
fn the_shell_takes_input_until_it_runs() {
    let mut s = state();
    press(&mut s, Key::Char('!'), NONE);
    assert_eq!(s.input_mode, InputMode::Shell);
    for c in "lsx".chars() {
        press(&mut s, Key::Char(c), NONE);
    }
    press(&mut s, Key::Backspace, NONE);
    assert_eq!(s.shell.input, "ls");
    match press(&mut s, Key::Enter, NONE) {
        Step::Launch(launch) => assert_eq!(launch.args, vec!["-lc", "ls"]),
        other => panic!("{other:?}"),
    }
    for key in [Key::Esc, Key::Enter, Key::Backspace, Key::Char('y')] {
        assert!(matches!(press(&mut s, key, NONE), Step::Continue));
    }
    assert!(matches!(press(&mut s, Key::Char('c'), CTRL), Step::Continue));
    assert_eq!(s.shell.input, "");
    assert!(s.shell.running);
    assert!(is_cancelled(press(&mut s, Key::Char('d'), CTRL)));
    press(&mut s, Key::Char('u'), CTRL);
    assert!(!s.shell.running && s.shell.command.is_none());
    assert!(is_cancelled(press(&mut s, Key::Enter, NONE)));
    assert!(is_cancelled(press(&mut s, Key::Esc, NONE)));
    assert!(is_cancelled(press(&mut s, Key::Char('c'), CTRL)));
}

#[test]
fn the_palette_stays_valid_under_any_keys() {
    let keys = [
        (Key::Down, NONE),
        (Key::Left, NONE),
        (Key::Right, NONE),
        (Key::Up, NONE),
        (Key::Char('t'), CTRL),
        (Key::Char('['), CTRL),
        (Key::Char('a'), NONE),
        (Key::Char(']'), CTRL),
        (Key::Backspace, NONE),
        (Key::Char('u'), CTRL),
    ];
    let mut s = state();
    let mut seed: u32 = 7;
    for _ in 0..400 {
        seed = seed.wrapping_mul(1664525).wrapping_add(1013904223);
        let (key, mods) = keys[(seed >> 16) as usize % keys.len()];
        assert!(matches!(press(&mut s, key, mods), Step::Continue));
        let len = s.selectable_len();
        assert!(if len == 0 { s.selected == 0 } else { s.selected < len });
        assert_eq!(s.highlighted, s.selected_visible_row_index());
    }
}
