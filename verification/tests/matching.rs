use fuzzy_matcher::skim::SkimMatcherV2;
use fuzzy_matcher::FuzzyMatcher;
use herdr_palette::bindings::{Binding, BindingStatus, Category};
use herdr_palette::items::{item_from_binding, Dispatch, Item, ItemKind};
use herdr_palette::keyset::KeySet;
use herdr_palette::matching::{
    compare_item_rank, find_best_match, find_hits, find_match, hits_with_scores, kind_priority,
    match_item, match_with_score, score_item, sort_flat_matches, MatchedItem,
};
use herdr_palette::text::{self, Order};
use herdr_palette::tree::{
    find_below, find_best_row, find_nth_selectable, find_path, item_identity, path_key,
    selectable_rows, tree_path_for_item, visible_tree_rows,
};

fn item(kind: ItemKind, title: &str, fires: bool) -> Item {
    Item {
        kind,
        title: title.to_string(),
        subtitle: String::new(),
        keys: vec![],
        tree_path: vec![],
        binding: None,
        dispatch: if fires { Some(Dispatch::NextTab) } else { None },
    }
}

fn hit(kind: ItemKind, title: &str, fires: bool, score: Option<i64>) -> MatchedItem {
    MatchedItem { item: item(kind, title, fires), score }
}

fn titles(list: &[MatchedItem]) -> Vec<&str> {
    list.iter().map(|m| m.item.title.as_str()).collect()
}

#[test]
fn rows_are_scored_by_their_haystack() {
    let row = item(ItemKind::JumpTab, "Split vertical", true);
    let want = SkimMatcherV2::default().ignore_case().fuzzy_match("Split vertical  Tab", "spv");
    assert!(want.is_some());
    assert_eq!(score_item(&row, "spv"), want);
    let want = SkimMatcherV2::default().ignore_case().fuzzy_match("Split vertical  Tab", "SPV");
    assert!(want.is_some());
    assert_eq!(score_item(&row, "SPV"), want);
    assert_eq!(score_item(&row, "zzz"), None);
}

#[test]
fn keybindings_are_scored_by_their_own_search() {
    let binding = Binding {
        action: "split_vertical".to_string(),
        label: "Split vertical".to_string(),
        keys: vec!["prefix+v".to_string()],
        default_keys: vec!["prefix+v".to_string()],
        category: Category::Panes,
        tree_path: vec!["Panes".to_string()],
        status: BindingStatus::Active,
        hint: "Side by side.".to_string(),
    };
    let outside = herdr_pretty_which::Binding {
        action: "split_vertical".to_string(),
        label: "Split vertical".to_string(),
        keys: vec!["prefix+v".to_string()],
        default_keys: vec!["prefix+v".to_string()],
        category: herdr_pretty_which::Category::Panes,
        tree_path: vec!["Panes".to_string()],
        source: herdr_pretty_which::BindingSource::Custom,
        status: herdr_pretty_which::BindingStatus::Disabled,
        hint: "Side by side.".to_string(),
    };
    let row = item_from_binding(&binding);
    for query in ["split", "prefix+v", "side", "panes", "zzz", "vert"] {
        let want = herdr_pretty_which::binding_search_score(&outside, query);
        assert_eq!(score_item(&row, query), want, "{query}");
    }
    assert!(score_item(&row, "split").is_some());
    assert_eq!(score_item(&row, "zzz"), None);
}

#[test]
fn scores_do_not_depend_on_what_was_scored_before() {
    let rows = ["Split vertical", "s", "Open pretty which", "Help me please", "ssss pppp"];
    for query in ["s", "sp", "pre", "e"] {
        let first: Vec<_> =
            rows.iter().map(|t| score_item(&item(ItemKind::JumpTab, t, true), query)).collect();
        let again: Vec<_> = rows
            .iter()
            .rev()
            .map(|t| score_item(&item(ItemKind::JumpTab, t, true), query))
            .collect();
        assert!(first.iter().eq(again.iter().rev()));
    }
}

#[test]
fn matches_need_a_score_unless_there_is_no_query() {
    let row = item(ItemKind::JumpTab, "logs", true);
    assert_eq!(match_item(&row, "").unwrap().score, None);
    assert!(match_item(&row, "log").unwrap().score.is_some());
    assert!(match_item(&row, "zzz").is_none());
    assert_eq!(match_with_score(&row, true, Some(7)).unwrap().score, Some(7));
    assert!(match_with_score(&row, true, None).is_none());
    assert_eq!(match_with_score(&row, false, Some(7)).unwrap().score, None);
}

#[test]
fn hits_keep_the_order_of_the_rows() {
    let rows = vec![
        item(ItemKind::JumpTab, "b", true),
        item(ItemKind::JumpTab, "a", true),
        item(ItemKind::JumpTab, "c", true),
    ];
    let hits = hits_with_scores(&rows, true, &vec![Some(1), None, Some(-4)]);
    assert_eq!(titles(&hits), vec!["b", "c"]);
    assert_eq!(hits[1].score, Some(-4));
    assert_eq!(titles(&find_hits(&rows, "")), vec!["b", "a", "c"]);
    assert_eq!(titles(&find_hits(&rows, "a")), vec!["b", "a", "c"]);
    assert_eq!(titles(&find_hits(&rows, "c")), vec!["c"]);
}

#[test]
fn ranks_go_by_score_dispatch_kind_and_title() {
    let a = item(ItemKind::JumpTab, "a", true);
    let b = item(ItemKind::JumpTab, "b", true);
    let reference = item(ItemKind::JumpTab, "a", false);
    let plugin = item(ItemKind::PluginAction, "z", true);
    assert_eq!(compare_item_rank(&a, Some(1), &b, Some(2)), Order::Less);
    assert_eq!(compare_item_rank(&a, None, &b, Some(-5)), Order::Less);
    assert_eq!(compare_item_rank(&reference, Some(1), &b, Some(1)), Order::Less);
    assert_eq!(compare_item_rank(&plugin, Some(1), &a, Some(1)), Order::Greater);
    assert_eq!(compare_item_rank(&a, Some(1), &b, Some(1)), Order::Greater);
    assert_eq!(compare_item_rank(&a, Some(1), &a, Some(1)), Order::Equal);
}

#[test]
fn kinds_have_priorities() {
    let kinds = [
        ItemKind::PluginAction,
        ItemKind::JumpWorkspace,
        ItemKind::JumpTab,
        ItemKind::JumpAgent,
        ItemKind::Binding,
        ItemKind::CustomCommand,
    ];
    for (n, kind) in kinds.into_iter().enumerate() {
        assert_eq!(kind_priority(kind) as usize, n);
    }
}

#[test]
fn sorting_is_stable_and_descending() {
    let mut first = hit(ItemKind::JumpTab, "same", true, Some(3));
    first.item.subtitle = "first".to_string();
    let mut second = hit(ItemKind::JumpTab, "same", true, Some(3));
    second.item.subtitle = "second".to_string();
    let sorted = sort_flat_matches(vec![
        hit(ItemKind::JumpTab, "low", true, Some(1)),
        first,
        hit(ItemKind::JumpTab, "high", false, Some(9)),
        second,
        hit(ItemKind::JumpTab, "none", true, None),
    ]);
    assert_eq!(titles(&sorted), vec!["high", "same", "same", "low", "none"]);
    assert_eq!(sorted[1].item.subtitle, "first");
    assert_eq!(sorted[2].item.subtitle, "second");
    assert_eq!(find_best_match(&sorted), Some(0));
    assert_eq!(find_best_match(&vec![]), None);
    let id = item_identity(&sorted[2].item);
    assert_eq!(find_match(&sorted, &id), Some(2));
}

#[test]
fn of_equals_the_last_is_best() {
    let twins = vec![
        hit(ItemKind::JumpTab, "t", true, Some(1)),
        hit(ItemKind::JumpTab, "t", true, Some(1)),
        hit(ItemKind::JumpTab, "t", true, Some(0)),
    ];
    assert_eq!(find_best_match(&twins), Some(1));
    let rows = selectable_rows(visible_tree_rows(twins, &KeySet::new(), true));
    assert_eq!(rows.len(), 3);
    assert_eq!(find_best_row(&rows), Some(1));
}

#[test]
fn rows_are_found_by_place_and_path() {
    let hits = vec![
        hit(ItemKind::JumpTab, "a", true, None),
        hit(ItemKind::JumpAgent, "b", true, None),
    ];
    let rows = visible_tree_rows(hits, &KeySet::new(), false);
    let path = |p: &[&str]| p.iter().map(|s| s.to_string()).collect::<Vec<String>>();
    assert_eq!(find_nth_selectable(&rows, 3), Some(3));
    assert_eq!(find_nth_selectable(&rows, 4), None);
    assert_eq!(find_path(&rows, &path(&["Agent"])), Some(2));
    assert_eq!(find_path(&rows, &path(&["Agent", "c"])), None);
    assert_eq!(find_below(&rows, &path(&["Agent"])), Some(path(&["Agent", "b"])));
    assert_eq!(find_below(&rows, &path(&["Agent", "b"])), None);
    assert_eq!(path_key(&path(&["Agent", "b"])), "Agent\u{1f}b");
    assert_eq!(tree_path_for_item(&item(ItemKind::JumpTab, "a", true)), vec!["Tab"]);
}

#[test]
fn context_rows_are_passed_over() {
    let hits = vec![
        hit(ItemKind::JumpTab, "a", true, Some(1)),
        hit(ItemKind::JumpAgent, "b", true, Some(1)),
    ];
    let rows = visible_tree_rows(hits, &KeySet::new(), true);
    assert_eq!(find_nth_selectable(&rows, 0), Some(1));
    assert_eq!(find_nth_selectable(&rows, 1), Some(3));
    assert_eq!(find_nth_selectable(&rows, 2), None);
}

#[test]
fn key_sets_hold_each_key_once() {
    let mut set = KeySet::new();
    assert!(set.insert("a".to_string()));
    assert!(!set.insert("a".to_string()));
    assert!(set.insert("b".to_string()));
    assert!(set.contains("a") && !set.contains("c"));
    assert!(set.remove("a"));
    assert!(!set.remove("a"));
    assert!(!set.contains("a") && set.contains("b"));
    set.clear();
    assert!(!set.contains("b"));
}

#[test]
fn texts_are_handled_as_std_handles_them() {
    let samples = ["", " ", "a", " a b ", "\u{a0}x\u{3000}", "a\tb\n", "\u{2003}", "é ü", "a\u{200b}"];
    for s in samples {
        assert_eq!(text::trim(s), s.trim());
        assert_eq!(text::trim_tail(s), s.trim_end());
        let words: Vec<String> = s.split_whitespace().map(str::to_string).collect();
        assert_eq!(text::split_runs(s, text::Separator::White), words);
        for t in samples {
            let want = match s.cmp(t) {
                std::cmp::Ordering::Less => Order::Less,
                std::cmp::Ordering::Equal => Order::Equal,
                std::cmp::Ordering::Greater => Order::Greater,
            };
            assert_eq!(text::order_texts(s, t), want);
            assert_eq!(text::ends_with(s, t), s.ends_with(t));
        }
    }
    for n in [0, 7, 10, -1, 1234567890, i64::MAX, i64::MIN] {
        assert_eq!(text::decimal_of(n), n.to_string());
    }
    assert_eq!(text::count_of(usize::MAX), usize::MAX.to_string());
    for n in 0..=0x3100u32 {
        if let Some(c) = char::from_u32(n) {
            assert_eq!(text::is_white(c), c.is_whitespace());
        }
    }
    assert_eq!(text::repeat("ab", 3), "ababab");
    assert_eq!(text::trim_leading("--a-", '-'), "a-");
}
