use herdr_palette::items::{item_from_jump, Item, ItemKind};
use herdr_palette::report::{report_chords, report_kinds};

fn item(title: &str, keys: &[&str]) -> Item {
    let mut item = item_from_jump(ItemKind::Binding, title, "");
    item.keys = keys.iter().map(|k| k.to_string()).collect();
    item
}

#[test]
fn chords_are_listed_in_order_with_their_titles() {
    let items = vec![
        item("Zoom", &["prefix+z", "ctrl+z"]),
        item("None", &[]),
        item("Undo", &["ctrl+z"]),
        item("Twice", &["a", "a"]),
        item("Long", &["prefix+shift+alt+super+x"]),
    ];
    assert_eq!(
        report_chords(&items),
        vec![
            "occupied chords (4):",
            "  a                      → Twice, Twice",
            "  ctrl+z                 → Zoom, Undo",
            "  prefix+shift+alt+super+x → Long",
            "  prefix+z               → Zoom",
        ]
    );
    assert_eq!(report_chords(&vec![]), vec!["occupied chords (0):"]);
}

#[test]
fn chords_are_padded_as_format_pads() {
    for key in ["", "a", "ä→x", "exactly-twenty-two-ch", "exactly-twenty-two-chr", "twenty-three-characters"] {
        let lines = report_chords(&vec![item("T", &[key])]);
        assert_eq!(lines[1], format!("  {key:<22} → T"));
    }
}

#[test]
fn kinds_are_counted_by_label() {
    let items = vec![
        item_from_jump(ItemKind::JumpTab, "a", "1"),
        item_from_jump(ItemKind::JumpAgent, "b", "2"),
        item_from_jump(ItemKind::JumpTab, "c", "3"),
        item("d", &[]),
    ];
    assert_eq!(
        report_kinds(&items),
        vec!["collected 4 items:", "  Agent: 1", "  Keybinding: 1", "  Tab: 2"]
    );
    assert_eq!(report_kinds(&vec![]), vec!["collected 0 items:"]);
}
