//! What holds of the palette, whatever keys are pressed.

use crate::input;
use crate::input::{Key, KeyEvent, Mods, OutcomeView, StepView};
use crate::items::{ItemKind, ItemView};
use crate::matching;
use crate::matching::MatchView;
use crate::palette;
use crate::palette::{InputMode, NavigationViewMode, PaletteView};
use crate::shell;
use crate::shell::{ShellEventView, ShellPanelView};
use crate::text;
use crate::text::Order;
use crate::tree;
use crate::tree::{TreeRowKind, TreeRowView};
use vstd::prelude::*;

verus! {

/// The position of a path is that of the first row with it.
proof fn lemma_path_position(rows: Seq<TreeRowView>, path: Seq<Seq<char>>)
    ensures
        match tree::path_position(rows, path) {
            Some(i) => 0 <= i < rows.len() && rows[i].path == path && forall|j: int|
                0 <= j < i ==> (#[trigger] rows[j]).path != path,
            None => forall|j: int| 0 <= j < rows.len() ==> (#[trigger] rows[j]).path != path,
        },
    decreases rows.len(),
{
    if rows.len() > 0 {
        let before = rows.drop_last();
        lemma_path_position(before, path);
        assert(forall|j: int| 0 <= j < before.len() ==> before[j] == #[trigger] rows[j]);
        assert(rows[rows.len() - 1] == rows.last());
    }
}

/// The position of an item's identity is that of the first row with it.
proof fn lemma_identity_position(rows: Seq<TreeRowView>, id: (ItemKind, Seq<char>, Seq<char>))
    ensures
        match tree::identity_position(rows, id) {
            Some(i) => 0 <= i < rows.len() && rows[i].item is Some && tree::identity(
                rows[i].item->0,
            ) == id,
            None => forall|j: int|
                0 <= j < rows.len() && (#[trigger] rows[j]).item is Some ==> tree::identity(
                    rows[j].item->0,
                ) != id,
        },
    decreases rows.len(),
{
    if rows.len() > 0 {
        let before = rows.drop_last();
        lemma_identity_position(before, id);
        assert(forall|j: int| 0 <= j < before.len() ==> before[j] == #[trigger] rows[j]);
        assert(rows[rows.len() - 1] == rows.last());
    }
}

/// The position of an item's identity is that of the first match with it.
proof fn lemma_match_position(list: Seq<MatchView>, id: (ItemKind, Seq<char>, Seq<char>))
    ensures
        match matching::match_position(list, id) {
            Some(i) => 0 <= i < list.len() && tree::identity(list[i].item) == id,
            None => forall|j: int|
                0 <= j < list.len() ==> tree::identity((#[trigger] list[j]).item) != id,
        },
    decreases list.len(),
{
    if list.len() > 0 {
        let before = list.drop_last();
        lemma_match_position(before, id);
        assert(forall|j: int| 0 <= j < before.len() ==> before[j] == #[trigger] list[j]);
        assert(list[list.len() - 1] == list.last());
    }
}

/// The best match lies in the list, and nothing in it ranks higher.
pub proof fn law_best_match_is_best(list: Seq<MatchView>)
    ensures
        matching::best_match(list) is Some <==> list.len() > 0,
        matching::best_match(list) is Some ==> {
            let best = matching::best_match(list)->0;
            &&& 0 <= best < list.len()
            &&& forall|i: int|
                0 <= i < list.len() ==> matching::rank_order(#[trigger] list[i], list[best])
                    != Order::Greater
        },
    decreases list.len(),
{
    if list.len() > 0 {
        let before = list.drop_last();
        law_best_match_is_best(before);
        let last = list.last();
        assert(forall|i: int| 0 <= i < before.len() ==> before[i] == #[trigger] list[i]);
        assert(list[list.len() - 1] == last);
        matching::law_rank_order_symmetric(last, last);
        if let Some(old) = matching::best_match(before) {
            let top = list[old];
            matching::law_rank_order_symmetric(top, last);
            assert forall|i: int| 0 <= i < list.len() implies matching::rank_order(
                #[trigger] list[i],
                list[matching::best_match(list)->0],
            ) != Order::Greater by {
                if i < before.len() {
                    assert(before[i] == list[i]);
                    if matching::best_match(list)->0 == list.len() - 1 {
                        matching::law_rank_order_transitive(list[i], top, last);
                    }
                }
            }
        }
    }
}

/// The rows that can be selected are numbered from the first one on.
proof fn lemma_nth_selectable(rows: Seq<TreeRowView>, n: int)
    requires
        n >= 0,
    ensures
        match tree::nth_selectable(rows, n) {
            Some(i) => 0 <= i < rows.len() && n < tree::selectable(rows).len() && rows[i]
                == tree::selectable(rows)[n],
            None => tree::selectable(rows).len() <= n,
        },
    decreases rows.len(),
{
    if rows.len() > 0 {
        lemma_nth_selectable(rows.drop_last(), n);
    }
}

/// A query, typed or given at the start, leaves the palette valid.
pub proof fn law_query_leaves_the_palette_valid(s: PaletteView, query: Seq<char>)
    requires
        s.selected >= 0,
    ensures
        s.with_query(query).valid(),
{
    let asked = PaletteView { query, ..s };
    let found = asked.recomputed();
    law_best_match_is_best(found.matched);
    tree::law_best_row_is_best(found.choices());
    lemma_nth_selectable(found.rows(), 0);
}

/// A palette opens valid.
pub proof fn law_palette_opens_valid(
    list: Seq<ItemView>,
    header: Seq<char>,
    query: Seq<char>,
    config_path: Seq<char>,
    start_shell: bool,
    cwd: Seq<char>,
    shell: Option<Seq<char>>,
)
    ensures
        PaletteView::fresh(list, header, query, cwd, shell).valid(),
        PaletteView::opened(list, header, query, config_path, start_shell, cwd, shell).valid(),
{
    let fresh = PaletteView::fresh(list, header, query, cwd, shell);
    let bare = PaletteView { matched: Seq::empty(), selected: 0, highlighted: None, ..fresh };
    law_query_leaves_the_palette_valid(bare, query);
    assert(bare.with_query(query) == fresh);
}

/// With the same query, fewer closed groups leave at least as many choices.
proof fn lemma_choices(s: PaletteView, fewer: Set<Seq<char>>)
    requires
        fewer.subset_of(s.closed),
    ensures
        s.choices().len() <= (PaletteView { closed: fewer, ..s }).choices().len(),
{
    if s.active() {
        tree::law_query_ignores_closed_groups(s.hits(), fewer, s.closed);
    } else {
        tree::law_every_row_is_selectable(s.hits(), s.closed);
        tree::law_every_row_is_selectable(s.hits(), fewer);
        tree::law_opening_groups_adds_rows(s.hits(), fewer, s.closed);
    }
}

/// While browsing, the selected group's row stays in reach when the group is
/// opened or closed.
proof fn lemma_group_stays(s: PaletteView, closed: Set<Seq<char>>)
    requires
        s.browsing(),
        s.selected_row() is Some,
        s.selected_row()->0.kind == TreeRowKind::Group,
        closed == s.closed.insert(tree::key_of(s.selected_row()->0.path)) || closed
            == s.closed.remove(tree::key_of(s.selected_row()->0.path)),
    ensures
        tree::path_position(
            (PaletteView { closed, ..s }).choices(),
            s.selected_row()->0.path,
        ) is Some,
{
    let row = s.selected_row()->0;
    let next = PaletteView { closed, ..s };
    tree::law_every_row_is_selectable(s.hits(), s.closed);
    tree::law_every_row_is_selectable(s.hits(), closed);
    assert(s.rows()[s.selected] == row);
    assert(tree::lists_group(s.rows(), row.path));
    tree::law_closing_a_group_keeps_its_row(s.hits(), s.closed, row.path);
    assert(tree::lists_group(next.rows(), row.path));
    lemma_path_position(next.choices(), row.path);
    let i = choose|i: int|
        0 <= i < next.rows().len() && (#[trigger] next.rows()[i]).kind == TreeRowKind::Group
            && next.rows()[i].path == row.path;
    assert(next.choices()[i].path == row.path);
}

/// Moving about the rows, opening and closing groups, changing the view and
/// entering the shell panel keep the palette valid.
pub proof fn law_navigation_keeps_the_palette_valid(s: PaletteView, delta: int)
    requires
        s.valid(),
    ensures
        s.moved(delta).valid(),
        s.left().valid(),
        s.right().valid(),
        s.toggled().valid(),
        s.all_expanded().valid(),
        s.all_collapsed().valid(),
        s.in_shell().valid(),
{
    let len = s.selectable_len() as int;
    if len > 0 {
        vstd::arithmetic::div_mod::lemma_mod_bound(s.selected + delta, len);
    }
    if s.selected_item() is Some {
        let id = tree::identity(s.selected_item()->0);
        lemma_match_position(s.matched, id);
        lemma_identity_position(s.choices(), id);
    }
    lemma_choices(s, Set::empty());
    lemma_left_valid(s);
    lemma_right_valid(s);
}

proof fn lemma_left_valid(s: PaletteView)
    requires
        s.valid(),
    ensures
        s.left().valid(),
{
    if s.browsing() && s.selected_row() is Some {
        let row = s.selected_row()->0;
        let parent = if row.path.len() == 0 {
            row.path
        } else {
            row.path.drop_last()
        };
        lemma_path_position(s.choices(), parent);
        if row.kind == TreeRowKind::Group && row.expanded {
            let closed = s.closed.insert(tree::key_of(row.path));
            lemma_group_stays(s, closed);
            lemma_path_position((PaletteView { closed, ..s }).choices(), row.path);
        }
    }
}

proof fn lemma_right_valid(s: PaletteView)
    requires
        s.valid(),
    ensures
        s.right().valid(),
{
    if s.browsing() && s.selected_row() is Some {
        let row = s.selected_row()->0;
        let key = tree::key_of(row.path);
        if row.kind == TreeRowKind::Group {
            if s.closed.contains(key) {
                let closed = s.closed.remove(key);
                lemma_group_stays(s, closed);
                lemma_path_position((PaletteView { closed, ..s }).choices(), row.path);
            } else if let Some(child) = tree::first_below(s.choices(), row.path) {
                lemma_path_position(s.choices(), child.path);
            }
        }
    }
}

/// Whatever key is pressed, the palette stays valid.
pub proof fn law_keys_keep_the_palette_valid(
    s: PaletteView,
    event: KeyEvent,
    login: Option<Seq<char>>,
)
    requires
        s.valid(),
    ensures
        input::after_key(s, event, login).0.valid(),
{
    law_navigation_keeps_the_palette_valid(s, 1);
    law_navigation_keeps_the_palette_valid(s, -1);
    law_query_leaves_the_palette_valid(s, Seq::empty());
    law_query_leaves_the_palette_valid(s, input::erased(s.query));
    if let input::Key::Char(c) = event.key {
        law_query_leaves_the_palette_valid(s, s.query.push(c));
    }
}

/// Whatever a shell command reports, the palette stays valid.
pub proof fn law_reports_keep_the_palette_valid(s: PaletteView, reports: Seq<ShellEventView>)
    requires
        s.valid(),
    ensures
        (PaletteView { shell: s.shell.drained(reports), ..s }).valid(),
{
}

/// Only a row that can be dispatched is ever picked, and it is the selected
/// one.
pub proof fn law_only_dispatchable_rows_are_picked(
    s: PaletteView,
    event: KeyEvent,
    login: Option<Seq<char>>,
    item: ItemView,
)
    requires
        input::after_key(s, event, login).1 == StepView::Done(OutcomeView::Selected(item)),
    ensures
        item.dispatch is Some,
        s.selected_item() == Some(item),
        s.input_mode == InputMode::Palette,
{
}

/// On a reference-only row Enter does nothing.
pub proof fn law_enter_ignores_reference_rows(
    s: PaletteView,
    event: KeyEvent,
    login: Option<Seq<char>>,
)
    requires
        event.key == input::Key::Enter,
        s.input_mode == InputMode::Palette,
        s.selected_item() is Some,
        s.selected_item()->0.dispatch is None,
    ensures
        input::after_key(s, event, login) == (s, StepView::Continue),
{
}

/// The highlighted row of the tree is the selected one, and a tree without a
/// selected row has no highlighted one.
pub proof fn law_highlight_is_the_selection(s: PaletteView)
    requires
        s.valid(),
        s.navigation_view == NavigationViewMode::Tree,
    ensures
        match s.highlighted {
            Some(i) => 0 <= i < s.rows().len() && s.selected_row() == Some(s.rows()[i]),
            None => s.selected_row() is None,
        },
{
    lemma_nth_selectable(s.rows(), s.selected);
}

/// Moving by `delta` rows and back again changes nothing.
pub proof fn law_moving_back_returns(s: PaletteView, delta: int)
    requires
        s.valid(),
    ensures
        s.moved(delta).moved(-delta) == s,
{
    let len = s.selectable_len() as int;
    if len > 0 {
        let at = (s.selected + delta) % len;
        vstd::arithmetic::div_mod::lemma_fundamental_div_mod(s.selected + delta, len);
        let q = (s.selected + delta) / len;
        assert(at - delta == s.selected + len * (-q)) by (nonlinear_arith)
            requires
                s.selected + delta == len * q + at,
        ;
        vstd::arithmetic::div_mod::lemma_mod_multiples_vanish(-q, s.selected, len);
        vstd::arithmetic::div_mod::lemma_small_mod(s.selected as nat, len as nat);
    }
}

/// Moving by as many rows as there are changes nothing.
pub proof fn law_moving_round_returns(s: PaletteView)
    requires
        s.valid(),
    ensures
        s.moved(s.selectable_len() as int) == s,
{
    let len = s.selectable_len() as int;
    if len > 0 {
        vstd::arithmetic::div_mod::lemma_mod_add_multiples_vanish(s.selected, len);
        vstd::arithmetic::div_mod::lemma_small_mod(s.selected as nat, len as nat);
    }
}

/// A query selects a row that no other match outranks.
pub proof fn law_query_selects_the_best(s: PaletteView, query: Seq<char>)
    requires
        (PaletteView { query, ..s }).active(),
        s.with_query(query).matched.len() > 0,
    ensures
        ({
            let after = s.with_query(query);
            &&& after.selected_item() is Some
            &&& match after.navigation_view {
                NavigationViewMode::List => forall|i: int|
                    0 <= i < after.matched.len() ==> matching::rank_order(
                        #[trigger] after.matched[i],
                        after.matched[after.selected],
                    ) != Order::Greater,
                NavigationViewMode::Tree => forall|i: int|
                    0 <= i < after.choices().len() && (#[trigger] after.choices()[i]).item is Some
                        ==> matching::rank_order(
                        tree::row_match(after.choices()[i]),
                        tree::row_match(after.choices()[after.selected]),
                    ) != Order::Greater,
            }
        }),
{
    let after = s.with_query(query);
    law_best_match_is_best(after.matched);
    tree::law_best_row_is_best(after.choices());
    matching::law_ranked_is_sorted(after.hits());
    tree::law_open_tree_shows_every_match(after.hits(), after.closed, true);
    tree::law_tree_is_well_formed(after.hits(), after.closed, true);
    let k = after.hits().len() - 1;
    lemma_leaf_is_a_row(after.rows(), k);
    let j = choose|j: int|
        0 <= j < after.rows().len() && (#[trigger] after.rows()[j]).item == Some(
            tree::leaves(after.rows())[k].item,
        );
    assert(tree::well_shaped(after.rows()[j], true));
    lemma_row_is_a_choice(after.rows(), j);
}

/// Each leaf of a tree is the item of a row.
proof fn lemma_leaf_is_a_row(rows: Seq<TreeRowView>, k: int)
    requires
        0 <= k < tree::leaves(rows).len(),
    ensures
        exists|j: int|
            0 <= j < rows.len() && (#[trigger] rows[j]).item == Some(tree::leaves(rows)[k].item),
    decreases rows.len(),
{
    let before = rows.drop_last();
    if k < tree::leaves(before).len() {
        lemma_leaf_is_a_row(before, k);
        let j = choose|j: int|
            0 <= j < before.len() && (#[trigger] before[j]).item == Some(
                tree::leaves(before)[k].item,
            );
        assert(rows[j] == before[j]);
    } else {
        assert(rows[rows.len() - 1] == rows.last());
    }
}

/// A row that can be selected is among those that can.
proof fn lemma_row_is_a_choice(rows: Seq<TreeRowView>, j: int)
    requires
        0 <= j < rows.len(),
        rows[j].selectable,
    ensures
        tree::selectable(rows).contains(rows[j]),
    decreases rows.len(),
{
    let before = rows.drop_last();
    let all = tree::selectable(rows);
    if j < before.len() {
        lemma_row_is_a_choice(before, j);
        let some = tree::selectable(before);
        let i = choose|i: int| 0 <= i < some.len() && some[i] == before[j];
        assert(all[i] == rows[j]);
    } else {
        assert(all[all.len() - 1] == rows[j]);
    }
}

/// The rows with an item, among those that can be selected, stand for matches.
proof fn lemma_choice_is_a_match(rows: Seq<TreeRowView>, i: int)
    requires
        0 <= i < tree::selectable(rows).len(),
        tree::selectable(rows)[i].item is Some,
    ensures
        tree::leaves(rows).contains(tree::row_match(tree::selectable(rows)[i])),
    decreases rows.len(),
{
    let before = rows.drop_last();
    let want = tree::row_match(tree::selectable(rows)[i]);
    if i < tree::selectable(before).len() {
        lemma_choice_is_a_match(before, i);
        let k = choose|k: int|
            0 <= k < tree::leaves(before).len() && tree::leaves(before)[k] == want;
        assert(tree::leaves(rows)[k] == want);
    } else {
        assert(tree::leaves(rows)[tree::leaves(rows).len() - 1] == want);
    }
}

proof fn lemma_unhidden_are_matches(
    hits: Seq<MatchView>,
    closed: Set<Seq<char>>,
    active: bool,
    x: MatchView,
)
    requires
        tree::unhidden(hits, closed, active).contains(x),
    ensures
        hits.contains(x),
    decreases hits.len(),
{
    if hits.len() > 0 {
        let before = hits.drop_last();
        if tree::unhidden(before, closed, active).contains(x) {
            lemma_unhidden_are_matches(before, closed, active, x);
            let k = choose|k: int| 0 <= k < before.len() && before[k] == x;
            assert(hits[k] == x);
        } else {
            let all = tree::unhidden(hits, closed, active);
            let k = choose|k: int| 0 <= k < all.len() && all[k] == x;
            if k < tree::unhidden(before, closed, active).len() {
                assert(tree::unhidden(before, closed, active)[k] == x);
            }
            assert(hits[hits.len() - 1] == x);
        }
    }
}

/// Turning from the tree to the list keeps the item that is selected, as far as
/// kind, title and subtitle tell items apart. The other way it is kept where
/// the tree shows it.
pub proof fn law_turning_the_view_keeps_the_item(s: PaletteView)
    requires
        s.valid(),
        s.selected_item() is Some,
        s.navigation_view == NavigationViewMode::Tree || exists|j: int|
            0 <= j < s.rows().len() && (#[trigger] s.rows()[j]).item == s.selected_item(),
    ensures
        s.toggled().selected_item() is Some,
        tree::identity(s.toggled().selected_item()->0) == tree::identity(s.selected_item()->0),
{
    let item = s.selected_item()->0;
    let id = tree::identity(item);
    lemma_match_position(s.matched, id);
    lemma_identity_position(s.choices(), id);
    matching::law_ranked_is_sorted(s.hits());
    broadcast use vstd::seq_lib::group_to_multiset_ensures;

    if s.navigation_view == NavigationViewMode::Tree {
        let x = tree::row_match(s.choices()[s.selected]);
        lemma_choice_is_a_match(s.rows(), s.selected);
        tree::law_leaves_are_the_unhidden_matches(s.hits(), s.closed, s.active());
        lemma_unhidden_are_matches(s.hits(), s.closed, s.active(), x);
        assert(s.hits().to_multiset().count(x) > 0);
        assert(s.matched.contains(x));
        let k = choose|k: int| 0 <= k < s.matched.len() && s.matched[k] == x;
        assert(tree::identity(s.matched[k].item) == id);
    } else {
        let j = choose|j: int|
            0 <= j < s.rows().len() && (#[trigger] s.rows()[j]).item == s.selected_item();
        tree::law_tree_is_well_formed(s.hits(), s.closed, s.active());
        assert(tree::well_shaped(s.rows()[j], s.active()));
        lemma_row_is_a_choice(s.rows(), j);
        let i = choose|i: int| 0 <= i < s.choices().len() && s.choices()[i] == s.rows()[j];
        assert(tree::identity(s.choices()[i].item->0) == id);
    }
}

/// While nothing is closed, or there is a query, the tree shows the item that is
/// selected in the list.
pub proof fn law_open_tree_shows_the_selected_item(s: PaletteView)
    requires
        s.valid(),
        s.navigation_view == NavigationViewMode::List,
        s.selected_item() is Some,
        s.active() || s.closed == Set::<Seq<char>>::empty(),
    ensures
        exists|j: int|
            0 <= j < s.rows().len() && (#[trigger] s.rows()[j]).item == s.selected_item(),
{
    let x = s.matched[s.selected];
    matching::law_ranked_is_sorted(s.hits());
    broadcast use vstd::seq_lib::group_to_multiset_ensures;

    assert(s.matched.to_multiset().count(x) > 0);
    assert(s.hits().contains(x));
    tree::law_open_tree_shows_every_match(s.hits(), s.closed, s.active());
    let k = choose|k: int| 0 <= k < s.hits().len() && s.hits()[k] == x;
    lemma_leaf_is_a_row(s.rows(), k);
}

/// No item of the matches stands at that path.
pub open spec fn no_item_at(hits: Seq<MatchView>, path: Seq<Seq<char>>) -> bool {
    forall|i: int|
        0 <= i < hits.len() ==> (#[trigger] tree::item_row(hits[i])).path != path
}

/// Left on an open group closes it and keeps it selected, and Right then brings
/// everything back. (Where an item stands at the very path of the group, Left
/// can select the item.)
pub proof fn law_right_undoes_left(s: PaletteView)
    requires
        s.valid(),
        s.browsing(),
        s.selected_row() is Some,
        s.selected_row()->0.kind == TreeRowKind::Group,
        s.selected_row()->0.expanded,
        no_item_at(s.hits(), s.selected_row()->0.path),
    ensures
        s.left().closed == s.closed.insert(tree::key_of(s.selected_row()->0.path)),
        s.left().selected_row() is Some,
        s.left().selected_row()->0.kind == TreeRowKind::Group,
        s.left().selected_row()->0.path == s.selected_row()->0.path,
        !s.left().selected_row()->0.expanded,
        s.left().right() == s,
{
    let row = s.selected_row()->0;
    let key = tree::key_of(row.path);
    let closed = s.closed.insert(key);
    let shut = PaletteView { closed, ..s };
    tree::law_every_row_is_selectable(s.hits(), s.closed);
    tree::law_every_row_is_selectable(s.hits(), closed);
    lemma_rows_at(s.hits(), s.closed, s.selected);
    assert(!s.closed.contains(key));
    lemma_group_stays(s, closed);
    lemma_path_position(shut.choices(), row.path);
    let at = tree::path_position(shut.choices(), row.path)->0;
    lemma_rows_at(s.hits(), closed, at);
    assert(closed.remove(key) =~= s.closed);
    assert(s.left() =~= shut.with_selected(at).synced());
    lemma_path_position(s.choices(), row.path);
    let back = tree::path_position(s.choices(), row.path)->0;
    assert(s.choices()[s.selected].path == row.path);
    lemma_rows_at(s.hits(), s.closed, back);
    tree::law_tree_is_well_formed(s.hits(), s.closed, false);
    assert(back == s.selected) by {
        if back < s.selected {
            assert(s.rows()[back].kind == TreeRowKind::Group);
            assert(s.rows()[s.selected].kind == TreeRowKind::Group);
        }
    }
    assert(s.left().right() =~= s);
}

/// Without a query a row of the tree is the row of a match or of a group, and
/// a group is open unless its key is among the closed ones.
proof fn lemma_rows_at(hits: Seq<MatchView>, closed: Set<Seq<char>>, j: int)
    requires
        0 <= j < tree::tree_rows(hits, closed, false).len(),
    ensures
        ({
            let row = tree::tree_rows(hits, closed, false)[j];
            match row.kind {
                TreeRowKind::Group => row.expanded == !closed.contains(tree::key_of(row.path)),
                TreeRowKind::Item => exists|i: int|
                    0 <= i < hits.len() && row == #[trigger] tree::item_row(hits[i]),
            }
        }),
{
    tree::lemma_row_origin(hits, closed, false, j);
}

/// Whether no two rows have the same path.
pub open spec fn distinct_paths(rows: Seq<TreeRowView>) -> bool {
    forall|i: int, j: int|
        #![trigger rows[i], rows[j]]
        0 <= i < j < rows.len() ==> rows[i].path != rows[j].path
}

/// Where the rows have distinct paths, no item stands at the path of a group
/// that is shown: the groups above it are open, so the item would be shown too.
proof fn lemma_no_item_at_a_group(hits: Seq<MatchView>, closed: Set<Seq<char>>, j: int)
    requires
        0 <= j < tree::tree_rows(hits, closed, false).len(),
        tree::tree_rows(hits, closed, false)[j].kind == TreeRowKind::Group,
        distinct_paths(tree::tree_rows(hits, closed, false)),
    ensures
        no_item_at(hits, tree::tree_rows(hits, closed, false)[j].path),
{
    let rows = tree::tree_rows(hits, closed, false);
    let row = rows[j];
    tree::lemma_row_origin(hits, closed, false, j);
    let (g, n) = choose|g: int, n: int|
        0 <= g < hits.len() && #[trigger] tree::is_group_of(row, hits[g], n, closed, false);
    let whole = tree::group_path(hits[g].item);
    assert forall|i: int| 0 <= i < hits.len() implies (#[trigger] tree::item_row(hits[i])).path
        != row.path by {
        if tree::item_row(hits[i]).path == row.path {
            let path = tree::group_path(hits[i].item);
            assert(path =~= tree::item_row(hits[i]).path.drop_last());
            assert forall|k: int| 0 <= k < path.len() implies tree::is_open(
                #[trigger] path.take(k + 1),
                closed,
                false,
            ) by {
                assert(path.take(k + 1) =~= whole.take(k + 1));
            }
            tree::lemma_match_has_a_row(hits, closed, false, i);
            let at = choose|at: int|
                0 <= at < rows.len() && #[trigger] rows[at] == tree::item_row(hits[i]);
            assert(rows[at].kind == TreeRowKind::Item);
            assert(rows[at].path != rows[j].path);
        }
    }
}

/// Among rows with distinct paths, Left on an open group closes the group and
/// keeps it selected, and Right then brings everything back.
pub proof fn law_right_undoes_left_among_distinct_paths(s: PaletteView)
    requires
        s.valid(),
        s.browsing(),
        s.selected_row() is Some,
        s.selected_row()->0.kind == TreeRowKind::Group,
        s.selected_row()->0.expanded,
        distinct_paths(s.rows()),
    ensures
        s.left().closed == s.closed.insert(tree::key_of(s.selected_row()->0.path)),
        s.left().selected_row() is Some,
        s.left().selected_row()->0.kind == TreeRowKind::Group,
        s.left().selected_row()->0.path == s.selected_row()->0.path,
        !s.left().selected_row()->0.expanded,
        s.left().right() == s,
        s.left().right().rows() == s.rows(),
{
    tree::law_every_row_is_selectable(s.hits(), s.closed);
    lemma_no_item_at_a_group(s.hits(), s.closed, s.selected);
    law_right_undoes_left(s);
}

/// In the list, and while there is a query, Left and Right change nothing.
pub proof fn law_left_and_right_are_for_browsing(s: PaletteView)
    requires
        s.navigation_view == NavigationViewMode::List || s.active(),
    ensures
        s.left() == s,
        s.right() == s,
{
}

/// With every group closed, and no query, the tree shows the outermost groups
/// and nothing else.
pub proof fn law_collapsing_leaves_the_outermost_groups(s: PaletteView)
    requires
        !s.active(),
    ensures
        forall|j: int|
            0 <= j < s.all_collapsed().rows().len() ==> {
                let row = #[trigger] s.all_collapsed().rows()[j];
                row.kind == TreeRowKind::Group && row.path.len() == 1 && !row.expanded
            },
{
    let shut = s.all_collapsed();
    assert(s.needle() =~= Seq::empty());
    matching::law_no_query_matches_everything(s.all);
    assert forall|i: int| 0 <= i < s.hits().len() implies shut.closed.contains(
        tree::key_of(tree::group_path((#[trigger] s.hits()[i]).item).take(1)),
    ) by {
        let path = tree::group_path(s.all[i]);
        assert(s.hits()[i].item == s.all[i]);
        assert(path.len() > 0);
        assert(tree::key_of(path.take(1)) == tree::key_of(tree::group_path(s.all[i]).take(1)));
        assert(palette::is_group_key(s.all, tree::key_of(path.take(1))));
    }
    lemma_outermost(s.hits(), shut.closed);
}

proof fn lemma_outermost(hits: Seq<MatchView>, closed: Set<Seq<char>>)
    requires
        forall|i: int|
            0 <= i < hits.len() ==> closed.contains(
                tree::key_of(tree::group_path((#[trigger] hits[i]).item).take(1)),
            ),
    ensures
        forall|j: int|
            0 <= j < tree::tree_rows(hits, closed, false).len() ==> {
                let row = #[trigger] tree::tree_rows(hits, closed, false)[j];
                row.kind == TreeRowKind::Group && row.path.len() == 1 && !row.expanded
            },
    decreases hits.len(),
{
    if hits.len() > 0 {
        let before = hits.drop_last();
        assert forall|i: int| 0 <= i < before.len() implies closed.contains(
            tree::key_of(tree::group_path((#[trigger] before[i]).item).take(1)),
        ) by {
            assert(before[i] == hits[i]);
        }
        lemma_outermost(before, closed);
        let path = tree::group_path(hits.last().item);
        assert(hits[hits.len() - 1] == hits.last());
        assert(path.len() > 0);
        assert(!tree::is_open(path.take(0int + 1), closed, false));
        assert(tree::shown_groups(path, 0, closed, false) == 1);
        let start = tree::tree(before, closed, false);
        assert(tree::with_groups(path, 0, 0, closed, false, start) == start);
        assert(path.take(1).len() == 1);
    }
}

/// Clearing the query shows every row again.
pub proof fn law_clearing_the_query_shows_everything(s: PaletteView)
    ensures
        s.with_query(Seq::empty()).hits() == s.all.map_values(
            |item: ItemView| MatchView { item, score: None },
        ),
        s.with_query(Seq::empty()).matched.to_multiset() == s.with_query(
            Seq::empty(),
        ).hits().to_multiset(),
        s.with_query(Seq::empty()).matched.len() == s.all.len(),
{
    matching::law_no_query_matches_everything(s.all);
    matching::law_ranked_is_sorted(s.with_query(Seq::empty()).hits());
}

/// Erasing a character just typed brings back the query and its matches.
pub proof fn law_erasing_undoes_typing(s: PaletteView, c: char)
    requires
        s.valid(),
    ensures
        ({
            let typed = s.with_query(s.query.push(c));
            let back = typed.with_query(input::erased(typed.query));
            back.query == s.query && back.matched == s.matched
        }),
{
    assert(s.query.push(c).drop_last() =~= s.query);
}

/// No key changes the rows that the palette was opened with, its header or its
/// configuration's path.
pub proof fn law_keys_leave_the_rows_alone(
    s: PaletteView,
    event: KeyEvent,
    login: Option<Seq<char>>,
)
    ensures
        input::after_key(s, event, login).0.all == s.all,
        input::after_key(s, event, login).0.header == s.header,
        input::after_key(s, event, login).0.config_path == s.config_path,
{
}

/// While every group is open, or there is a query, the list and the tree show
/// the same matches.
pub proof fn law_views_show_the_same_matches(s: PaletteView)
    requires
        s.valid(),
        s.active() || s.closed == Set::<Seq<char>>::empty(),
    ensures
        tree::leaves(s.rows()).to_multiset() == s.matched.to_multiset(),
{
    tree::law_open_tree_shows_every_match(s.hits(), s.closed, s.active());
    matching::law_ranked_is_sorted(s.hits());
}

/// While a shell command is running, Ctrl-d is the only key that leaves the
/// palette, and none but Ctrl-u changes the panel.
pub proof fn law_a_running_command_keeps_the_panel(
    s: PaletteView,
    event: KeyEvent,
    login: Option<Seq<char>>,
)
    requires
        s.input_mode == InputMode::Shell,
        s.shell.running,
    ensures
        input::after_key(s, event, login).1 is Done ==> event.key == input::Key::Char('d')
            && event.mods.just_control(),
        input::after_key(s, event, login).0 != s ==> event.key == input::Key::Char('u')
            && event.mods.just_control(),
{
}

/// A command that is running is listened to, whatever key is pressed.
pub proof fn law_keys_keep_listening(s: PaletteView, event: KeyEvent, login: Option<Seq<char>>)
    requires
        shell::panel_inv(s.shell),
    ensures
        shell::panel_inv(input::after_key(s, event, login).0.shell),
{
}

/// What is typed counts without the whitespace around it, and there is a query
/// exactly if something is left.
pub proof fn law_query_counts_without_whitespace(s: PaletteView)
    ensures
        s.needle() == text::trimmed(s.query),
        s.active() <==> text::trimmed(s.query).len() > 0,
        s.hits() == matching::hits(s.all, text::trimmed(s.query)),
        s.browsing() <==> s.navigation_view == NavigationViewMode::Tree && text::trimmed(
            s.query,
        ).len() == 0,
{
}

/// Moving on selects the next row, and from the last one the first; moving back
/// is the other way round. Nothing changes but the selection.
pub proof fn law_moving_selects_the_neighbour(s: PaletteView)
    requires
        s.valid(),
        s.selectable_len() > 0,
    ensures
        s.moved(1).selected == if s.selected == s.selectable_len() - 1 {
            0
        } else {
            s.selected + 1
        },
        s.moved(-1).selected == if s.selected == 0 {
            s.selectable_len() - 1
        } else {
            s.selected - 1
        },
        s.moved(1) == (PaletteView {
            selected: s.moved(1).selected,
            highlighted: s.moved(1).highlighted,
            ..s
        }),
        s.moved(-1) == (PaletteView {
            selected: s.moved(-1).selected,
            highlighted: s.moved(-1).highlighted,
            ..s
        }),
{
    let len = s.selectable_len() as int;
    if s.selected == len - 1 {
        vstd::arithmetic::div_mod::lemma_mod_self_0(len);
    } else {
        vstd::arithmetic::div_mod::lemma_small_mod((s.selected + 1) as nat, len as nat);
    }
    if s.selected == 0 {
        vstd::arithmetic::div_mod::lemma_fundamental_div_mod_converse(-1, len, -1, len - 1);
    } else {
        vstd::arithmetic::div_mod::lemma_small_mod((s.selected - 1) as nat, len as nat);
    }
}

/// Moving by some rows and then by others is moving by all of them.
pub proof fn law_moves_add_up(s: PaletteView, a: int, b: int)
    requires
        s.valid(),
    ensures
        s.moved(a).moved(b) == s.moved(a + b),
        s.moved(0) == s,
{
    let len = s.selectable_len() as int;
    if len > 0 {
        vstd::arithmetic::div_mod::lemma_add_mod_noop(s.selected + a, b, len);
        vstd::arithmetic::div_mod::lemma_mod_twice(s.selected + a, len);
        vstd::arithmetic::div_mod::lemma_add_mod_noop((s.selected + a) % len, b, len);
        vstd::arithmetic::div_mod::lemma_small_mod(s.selected as nat, len as nat);
    }
}

/// The list offers the matches, from the best on; the tree offers those of its
/// rows that can be selected. The selected item is that of the selected row.
pub proof fn law_selection_is_among_what_is_shown(s: PaletteView)
    requires
        s.valid(),
    ensures
        s.navigation_view == NavigationViewMode::List ==> s.selectable_len() == s.matched.len(),
        s.navigation_view == NavigationViewMode::Tree ==> s.selectable_len() == tree::selectable(
            tree::tree_rows(s.hits(), s.closed, s.active()),
        ).len(),
        s.navigation_view == NavigationViewMode::List && s.matched.len() > 0 ==> s.selected_item()
            == Some(s.matched[s.selected].item) && s.highlighted == Some(s.selected),
        s.navigation_view == NavigationViewMode::List && s.matched.len() == 0
            ==> s.selected_item() is None && s.highlighted is None,
        s.navigation_view == NavigationViewMode::Tree && s.selectable_len() > 0 ==> {
            let row = tree::selectable(tree::tree_rows(s.hits(), s.closed, s.active()))[s.selected];
            s.selected_row() == Some(row) && s.selected_item() == row.item
        },
{
}

/// A query, once typed, is the query; its matches are ranked; the view, the
/// closed groups and the shell panel stay as they are. Without a query the
/// selection stays too, as far as there are rows for it.
pub proof fn law_typing_changes_the_query_and_its_matches(s: PaletteView, query: Seq<char>)
    requires
        s.selected >= 0,
    ensures
        ({
            let now = s.with_query(query);
            &&& now.query == query && now.all == s.all
            &&& now.matched == matching::ranked(matching::hits(s.all, text::trimmed(query)))
            &&& now.navigation_view == s.navigation_view && now.closed == s.closed
            &&& now.input_mode == s.input_mode && now.shell == s.shell
            &&& now.header == s.header && now.config_path == s.config_path
            &&& text::trimmed(query).len() == 0 && now.selectable_len() > 0 ==> now.selected == if
                s.selected < now.selectable_len() {
                s.selected
            } else {
                now.selectable_len() - 1
            }
            &&& now.selectable_len() == 0 ==> now.selected == 0 && now.highlighted is None
        }),
{
    law_query_leaves_the_palette_valid(s, query);
    lemma_nth_selectable(s.with_query(query).rows(), 0);
}

/// A palette opens with all of its rows, as a tree with every group open, its
/// first query asked, and the first row selected where there is none.
pub proof fn law_palette_opens_as_asked(
    list: Seq<ItemView>,
    header: Seq<char>,
    query: Seq<char>,
    config_path: Seq<char>,
    start_shell: bool,
    cwd: Seq<char>,
    shell: Option<Seq<char>>,
)
    ensures
        ({
            let s = PaletteView::fresh(list, header, query, cwd, shell);
            &&& s.all == list && s.header == header && s.query == query
            &&& s.matched == matching::ranked(matching::hits(list, text::trimmed(query)))
            &&& s.navigation_view == NavigationViewMode::Tree
            &&& s.closed == Set::<Seq<char>>::empty()
            &&& s.input_mode == InputMode::Palette
            &&& s.shell == ShellPanelView::fresh(cwd, shell)
            &&& text::trimmed(query).len() == 0 ==> s.selected == 0
        }),
        ({
            let s = PaletteView::opened(list, header, query, config_path, start_shell, cwd, shell);
            let bare = PaletteView::fresh(list, header, query, cwd, shell);
            &&& s.config_path == config_path
            &&& s.input_mode == InputMode::Shell <==> start_shell
            &&& s.all == bare.all && s.query == bare.query && s.matched == bare.matched
            &&& s.selected == bare.selected && s.highlighted == bare.highlighted
            &&& s.navigation_view == bare.navigation_view && s.closed == bare.closed
            &&& s.shell == bare.shell && s.header == bare.header
        }),
{
    assert(ShellPanelView::fresh(cwd, shell).entered() =~= ShellPanelView::fresh(cwd, shell));
}

/// Opening the shell panel goes there, with nothing typed, and changes nothing
/// else.
pub proof fn law_shell_panel_opens_without_input(s: PaletteView)
    ensures
        s.in_shell().input_mode == InputMode::Shell,
        s.in_shell().shell == (ShellPanelView { input: Seq::empty(), ..s.shell }),
        s.in_shell() == (PaletteView {
            input_mode: InputMode::Shell,
            shell: s.in_shell().shell,
            ..s
        }),
{
}

/// Turning the view shows the other one, with the same query, matches and
/// groups; where nothing was selected the first row is.
pub proof fn law_turning_shows_the_other_view(s: PaletteView)
    ensures
        s.navigation_view == NavigationViewMode::List <==> s.toggled().navigation_view
            == NavigationViewMode::Tree,
        s.toggled() == (PaletteView {
            navigation_view: s.toggled().navigation_view,
            selected: s.toggled().selected,
            highlighted: s.toggled().highlighted,
            ..s
        }),
        s.selected_item() is None ==> s.toggled().selected == 0,
{
}

/// Expanding opens every group and keeps the selection; collapsing closes every
/// group of every item, and no other, and selects the first row.
pub proof fn law_all_groups_are_opened_or_closed(s: PaletteView, key: Seq<char>)
    ensures
        s.all_expanded().closed == Set::<Seq<char>>::empty(),
        s.all_expanded().selected == s.selected,
        s.all_collapsed().selected == 0,
        s.all_collapsed().closed.contains(key) <==> exists|i: int, k: int|
            0 <= i < s.all.len() && 0 < k <= tree::group_path(s.all[i]).len() && text::joined(
                #[trigger] tree::group_path(s.all[i]).take(k),
                "\u{1f}"@,
            ) == key,
        s.all_expanded() == (PaletteView {
            closed: Set::empty(),
            highlighted: s.all_expanded().highlighted,
            ..s
        }),
        s.all_collapsed() == (PaletteView {
            closed: s.all_collapsed().closed,
            selected: 0,
            highlighted: s.all_collapsed().highlighted,
            ..s
        }),
{
    assert(s.all_collapsed().closed.contains(key) <==> palette::is_group_key(s.all, key));
    if palette::is_group_key(s.all, key) {
        let (i, k) = choose|i: int, k: int|
            0 <= i < s.all.len() && 0 < k <= tree::group_path(s.all[i]).len() && tree::key_of(
                #[trigger] tree::group_path(s.all[i]).take(k),
            ) == key;
        assert(text::joined(tree::group_path(s.all[i]).take(k), "\u{1f}"@) == key);
    }
    if exists|i: int, k: int|
        0 <= i < s.all.len() && 0 < k <= tree::group_path(s.all[i]).len() && text::joined(
            #[trigger] tree::group_path(s.all[i]).take(k),
            "\u{1f}"@,
        ) == key {
        let (i, k) = choose|i: int, k: int|
            0 <= i < s.all.len() && 0 < k <= tree::group_path(s.all[i]).len() && text::joined(
                #[trigger] tree::group_path(s.all[i]).take(k),
                "\u{1f}"@,
            ) == key;
        assert(tree::key_of(tree::group_path(s.all[i]).take(k)) == key);
    }
}

/// Left on an item, or on a closed group that has one above it, selects the
/// group above, and opens or closes nothing. On a closed outermost group it
/// does nothing.
pub proof fn law_left_goes_up(s: PaletteView)
    requires
        s.valid(),
        s.browsing(),
        s.selected_row() is Some,
        s.selected_row()->0.kind == TreeRowKind::Item || !s.selected_row()->0.expanded,
        forall|i: int|
            0 <= i < s.hits().len() ==> tree::unparted(
                tree::group_path((#[trigger] s.hits()[i]).item),
            ),
    ensures
        s.left().closed == s.closed,
        s.selected_row()->0.path.len() > 1 ==> s.left().selected_row() is Some
            && s.left().selected_row()->0.path == s.selected_row()->0.path.drop_last(),
        s.selected_row()->0.path.len() == 1 ==> s.left() == s,
{
    let row = s.selected_row()->0;
    tree::law_every_row_is_selectable(s.hits(), s.closed);
    let parent = row.path.drop_last();
    lemma_path_position(s.choices(), parent);
    tree::lemma_row_origin(s.hits(), s.closed, false, s.selected);
    if row.path.len() > 1 {
        tree::law_groups_are_told_apart_by_path(s.hits(), s.closed, false);
        let n = row.path.len() - 1;
        assert(s.rows()[s.selected] == row);
        assert(s.rows()[s.selected].path.take(n) =~= parent);
        assert(tree::lists_before(s.rows(), s.selected, s.rows()[s.selected].path.take(n)));
        let i = choose|i: int|
            0 <= i < s.selected && (#[trigger] s.rows()[i]).kind == TreeRowKind::Group
                && s.rows()[i].path == parent;
        assert(s.choices()[i].path == parent);
    } else {
        assert(s.left() =~= s);
    }
}

/// Right on a closed group opens it and keeps it selected.
pub proof fn law_right_opens_a_closed_group(s: PaletteView)
    requires
        s.valid(),
        s.browsing(),
        s.selected_row() is Some,
        s.selected_row()->0.kind == TreeRowKind::Group,
        !s.selected_row()->0.expanded,
    ensures
        s.right().closed == s.closed.remove(text::joined(s.selected_row()->0.path, "\u{1f}"@)),
        s.right().selected_row() is Some,
        s.right().selected_row()->0.path == s.selected_row()->0.path,
{
    let row = s.selected_row()->0;
    let key = tree::key_of(row.path);
    tree::law_every_row_is_selectable(s.hits(), s.closed);
    lemma_rows_at(s.hits(), s.closed, s.selected);
    assert(s.closed.contains(key));
    let closed = s.closed.remove(key);
    lemma_group_stays(s, closed);
    lemma_path_position((PaletteView { closed, ..s }).choices(), row.path);
}

/// Right on an open group goes to the first row that stands below it, where
/// there is one, and opens or closes nothing. On an item it does nothing.
pub proof fn law_right_goes_down(s: PaletteView, i: int)
    requires
        s.valid(),
        s.browsing(),
        s.selected_row() is Some,
        s.selected_row()->0.kind == TreeRowKind::Group,
        s.selected_row()->0.expanded,
        0 <= i <= s.choices().len(),
        forall|j: int|
            0 <= j < i ==> !tree::stands_below(
                (#[trigger] s.choices()[j]).path,
                s.selected_row()->0.path,
            ),
        i < s.choices().len() ==> tree::stands_below(s.choices()[i].path, s.selected_row()->0.path),
    ensures
        s.right().closed == s.closed,
        i < s.choices().len() ==> s.right().selected == i,
        i == s.choices().len() ==> s.right() == s,
{
    let row = s.selected_row()->0;
    let key = tree::key_of(row.path);
    tree::law_every_row_is_selectable(s.hits(), s.closed);
    lemma_rows_at(s.hits(), s.closed, s.selected);
    assert(!s.closed.contains(key));
    tree::law_first_below_is_the_first(s.choices(), row.path, i);
    if i < s.choices().len() {
        lemma_path_position(s.choices(), s.choices()[i].path);
    } else {
        assert(s.right() =~= s);
    }
}

/// Right on an item does nothing.
pub proof fn law_right_on_an_item_does_nothing(s: PaletteView)
    requires
        s.selected_row() is Some,
        s.selected_row()->0.kind == TreeRowKind::Item,
    ensures
        s.right() == s,
{
}

/// A key that goes down, with nothing held down beside it.
pub open spec fn plain_key(key: Key) -> KeyEvent {
    KeyEvent { key, mods: Mods { control: false, other: false }, pressed: true }
}

/// A character that is typed while Control alone is held down.
pub open spec fn control_key(c: char) -> KeyEvent {
    KeyEvent { key: Key::Char(c), mods: Mods { control: true, other: false }, pressed: true }
}

/// A key that goes up or repeats does nothing.
pub proof fn law_only_keys_that_go_down_count(
    s: PaletteView,
    event: KeyEvent,
    login: Option<Seq<char>>,
)
    requires
        !event.pressed,
    ensures
        input::after_key(s, event, login) == (s, StepView::Continue),
{
}

/// In the palette a character is typed at the end of the query, whatever other
/// modifier than Control is held down; Backspace takes the last one back, and
/// Ctrl-u takes all of them.
pub proof fn law_typing_edits_the_query(
    s: PaletteView,
    c: char,
    mods: Mods,
    login: Option<Seq<char>>,
)
    requires
        s.input_mode == InputMode::Palette,
    ensures
        c != '!' && !mods.control ==> input::after_key(
            s,
            (KeyEvent { key: Key::Char(c), mods, pressed: true }),
            login,
        ) == (s.with_query(s.query + seq![c]), StepView::Continue),
        s.query.len() > 0 ==> input::after_key(s, plain_key(Key::Backspace), login) == (
            s.with_query(s.query.take(s.query.len() - 1)),
            StepView::Continue,
        ),
        s.query.len() == 0 ==> input::after_key(s, plain_key(Key::Backspace), login) == (
            s.with_query(Seq::empty()),
            StepView::Continue,
        ),
        input::after_key(s, control_key('u'), login) == (
            s.with_query(Seq::empty()),
            StepView::Continue,
        ),
{
    assert(s.query + seq![c] =~= s.query.push(c));
    if s.query.len() > 0 {
        assert(s.query.take(s.query.len() - 1) =~= s.query.drop_last());
    } else {
        assert(s.query =~= Seq::empty());
    }
}

/// In the palette Down, Ctrl-n and Ctrl-j move on by one row, Up, Ctrl-p and
/// Ctrl-k move back by one.
pub proof fn law_keys_move_the_selection(s: PaletteView, login: Option<Seq<char>>)
    requires
        s.input_mode == InputMode::Palette,
    ensures
        input::after_key(s, plain_key(Key::Down), login) == (s.moved(1), StepView::Continue),
        input::after_key(s, control_key('n'), login) == (s.moved(1), StepView::Continue),
        input::after_key(s, control_key('j'), login) == (s.moved(1), StepView::Continue),
        input::after_key(s, plain_key(Key::Up), login) == (s.moved(-1), StepView::Continue),
        input::after_key(s, control_key('p'), login) == (s.moved(-1), StepView::Continue),
        input::after_key(s, control_key('k'), login) == (s.moved(-1), StepView::Continue),
{
}

/// In the palette Left and Right walk the tree, Ctrl-t turns the view, and
/// Ctrl-[ and Ctrl-] close and open all groups; an exclamation mark opens the
/// shell panel.
pub proof fn law_keys_turn_and_fold_the_view(s: PaletteView, login: Option<Seq<char>>)
    requires
        s.input_mode == InputMode::Palette,
    ensures
        input::after_key(s, plain_key(Key::Left), login) == (s.left(), StepView::Continue),
        input::after_key(s, plain_key(Key::Right), login) == (s.right(), StepView::Continue),
        input::after_key(s, control_key('t'), login) == (s.toggled(), StepView::Continue),
        input::after_key(s, control_key('['), login) == (s.all_collapsed(), StepView::Continue),
        input::after_key(s, control_key(']'), login) == (s.all_expanded(), StepView::Continue),
        input::after_key(s, plain_key(Key::Char('!')), login) == (s.in_shell(), StepView::Continue),
{
}

/// In the palette Esc, Ctrl-c and Ctrl-d leave without a pick.
pub proof fn law_keys_cancel(s: PaletteView, login: Option<Seq<char>>)
    requires
        s.input_mode == InputMode::Palette,
    ensures
        input::after_key(s, plain_key(Key::Esc), login) == (
            s,
            StepView::Done(OutcomeView::Cancelled),
        ),
        input::after_key(s, control_key('c'), login) == (s, StepView::Done(OutcomeView::Cancelled)),
        input::after_key(s, control_key('d'), login) == (s, StepView::Done(OutcomeView::Cancelled)),
{
}

/// In the palette Enter picks the selected row where it can be dispatched, stays
/// where it cannot, and leaves where no row is selected.
pub proof fn law_enter_picks_the_selected_row(s: PaletteView, login: Option<Seq<char>>)
    requires
        s.input_mode == InputMode::Palette,
    ensures
        s.selected_item() is Some && s.selected_item()->0.dispatch is Some ==> input::after_key(
            s,
            plain_key(Key::Enter),
            login,
        ) == (s, StepView::Done(OutcomeView::Selected(s.selected_item()->0))),
        s.selected_item() is Some && s.selected_item()->0.dispatch is None ==> input::after_key(
            s,
            plain_key(Key::Enter),
            login,
        ) == (s, StepView::Continue),
        s.selected_item() is None ==> input::after_key(s, plain_key(Key::Enter), login) == (
            s,
            StepView::Done(OutcomeView::Cancelled),
        ),
{
}

/// Any other character with Control does nothing in the palette.
pub proof fn law_other_control_keys_do_nothing(
    s: PaletteView,
    c: char,
    login: Option<Seq<char>>,
)
    requires
        s.input_mode == InputMode::Palette,
        !seq!['c', 'd', 'j', 'k', 'n', 'p', 't', '[', ']', 'u', '!'].contains(c),
    ensures
        input::after_key(s, control_key(c), login) == (s, StepView::Continue),
{
    let all = seq!['c', 'd', 'j', 'k', 'n', 'p', 't', '[', ']', 'u', '!'];
    assert(all[0] == 'c' && all[1] == 'd' && all[2] == 'j' && all[3] == 'k' && all[4] == 'n'
        && all[5] == 'p' && all[6] == 't' && all[7] == '[' && all[8] == ']' && all[9] == 'u'
        && all[10] == '!');
}

/// In the shell panel, while nothing is running, a character is typed at the end
/// of the input, and Backspace takes the last one back. The rows stay as they
/// are.
pub proof fn law_typing_edits_the_command(
    s: PaletteView,
    c: char,
    mods: Mods,
    login: Option<Seq<char>>,
)
    requires
        s.input_mode == InputMode::Shell,
        !s.shell.running,
    ensures
        !mods.control ==> input::after_key(
            s,
            (KeyEvent { key: Key::Char(c), mods, pressed: true }),
            login,
        ) == (
            PaletteView {
                shell: (ShellPanelView { input: s.shell.input + seq![c], ..s.shell }),
                ..s
            },
            StepView::Continue,
        ),
        s.shell.input.len() > 0 ==> input::after_key(s, plain_key(Key::Backspace), login) == (
            PaletteView {
                shell: (ShellPanelView {
                    input: s.shell.input.take(s.shell.input.len() - 1),
                    ..s.shell
                }),
                ..s
            },
            StepView::Continue,
        ),
{
    assert(s.shell.input + seq![c] =~= s.shell.input.push(c));
    if s.shell.input.len() > 0 {
        assert(s.shell.input.take(s.shell.input.len() - 1) =~= s.shell.input.drop_last());
    }
}

/// In the shell panel, while nothing is running, Enter launches what is typed,
/// and leaves where nothing is.
pub proof fn law_enter_launches_what_is_typed(s: PaletteView, login: Option<Seq<char>>)
    requires
        s.input_mode == InputMode::Shell,
        !s.shell.running,
    ensures
        text::trimmed(s.shell.input).len() > 0 ==> input::after_key(
            s,
            plain_key(Key::Enter),
            login,
        ) == (
            PaletteView { shell: s.shell.started(login), ..s },
            StepView::Launch(s.shell.launch(login)),
        ),
        text::trimmed(s.shell.input).len() == 0 ==> input::after_key(
            s,
            plain_key(Key::Enter),
            login,
        ) == (s, StepView::Done(OutcomeView::Cancelled)),
{
}

/// In the shell panel Esc and Ctrl-c leave unless a command is running, Ctrl-d
/// leaves in any case, and Ctrl-u clears the panel.
pub proof fn law_keys_leave_and_clear_the_panel(s: PaletteView, login: Option<Seq<char>>)
    requires
        s.input_mode == InputMode::Shell,
    ensures
        !s.shell.running ==> input::after_key(s, plain_key(Key::Esc), login) == (
            s,
            StepView::Done(OutcomeView::Cancelled),
        ),
        !s.shell.running ==> input::after_key(s, control_key('c'), login) == (
            s,
            StepView::Done(OutcomeView::Cancelled),
        ),
        s.shell.running ==> input::after_key(s, plain_key(Key::Esc), login) == (
            s,
            StepView::Continue,
        ),
        s.shell.running ==> input::after_key(s, control_key('c'), login) == (s, StepView::Continue),
        input::after_key(s, control_key('d'), login) == (s, StepView::Done(OutcomeView::Cancelled)),
        input::after_key(s, control_key('u'), login) == (
            PaletteView { shell: s.shell.cleared(), ..s },
            StepView::Continue,
        ),
{
}

/// While a command is running the panel takes no input, and any other key does
/// nothing there.
pub proof fn law_a_running_command_takes_no_input(
    s: PaletteView,
    key: Key,
    mods: Mods,
    login: Option<Seq<char>>,
)
    requires
        s.input_mode == InputMode::Shell,
        s.shell.running || key == Key::Up || key == Key::Down || key == Key::Left || key
            == Key::Right || key == Key::Other,
        key != Key::Char('d') && key != Key::Char('u') || !(mods.control && !mods.other),
    ensures
        input::after_key(s, (KeyEvent { key, mods, pressed: true }), login) == (
            s,
            StepView::Continue,
        ),
{
}

/// Reports of a shell command reach the panel and change nothing else.
pub proof fn law_reports_reach_the_panel(s: PaletteView, events: Seq<ShellEventView>)
    ensures
        s.with_reports(events).shell == s.shell.drained(events),
        s.with_reports(events) == (PaletteView { shell: s.with_reports(events).shell, ..s }),
{
}

/// Given matches are ranked, and with a query one is selected that no other
/// outranks; without one the selection stays as far as there are rows for it.
pub proof fn law_given_matches_are_ranked_and_one_is_selected(
    s: PaletteView,
    hits: Seq<MatchView>,
    i: int,
)
    requires
        s.selected >= 0,
    ensures
        ({
            let now = s.recomputed_with(hits);
            let rows = tree::tree_rows(hits, s.closed, s.active());
            let choices = tree::selectable(rows);
            let list = s.navigation_view == NavigationViewMode::List;
            let len = if list {
                hits.len()
            } else {
                choices.len()
            };
            &&& now.matched == matching::ranked(hits)
            &&& now.query == s.query && now.all == s.all && now.closed == s.closed
            &&& now.navigation_view == s.navigation_view && now.shell == s.shell
            &&& now.input_mode == s.input_mode
            &&& len == 0 ==> now.selected == 0 && now.highlighted is None
            &&& len > 0 ==> 0 <= now.selected < len
            &&& len > 0 && !s.active() && s.selected < len ==> now.selected == s.selected
            &&& len > 0 && !s.active() && s.selected >= len ==> now.selected == len - 1
            &&& list && len > 0 ==> now.highlighted == Some(now.selected)
            &&& list && s.active() && 0 <= i < len ==> matching::rank_order(
                now.matched[i],
                now.matched[now.selected],
            ) != Order::Greater
            &&& !list && s.active() && 0 <= i < len && choices[i].item is Some
                ==> choices[now.selected].item is Some && matching::rank_order(
                tree::row_match(choices[i]),
                tree::row_match(choices[now.selected]),
            ) != Order::Greater
            &&& !list && len > 0 ==> now.highlighted is Some && rows[now.highlighted->0]
                == choices[now.selected]
        }),
{
    let now = s.recomputed_with(hits);
    let ranked = matching::ranked(hits);
    let rows = tree::tree_rows(hits, s.closed, s.active());
    let choices = tree::selectable(rows);
    matching::law_ranked_is_sorted(hits);
    law_best_match_is_best(ranked);
    tree::law_best_row_is_best(choices);
    if now.selected >= 0 {
        lemma_nth_selectable(rows, now.selected);
    }
}

/// The best row is that of the best match in the list, and of the best among
/// the rows that can be selected in the tree.
pub proof fn law_best_is_that_of_the_view(s: PaletteView)
    ensures
        s.navigation_view == NavigationViewMode::List ==> s.best() == matching::best_match(
            s.matched,
        ),
        s.navigation_view == NavigationViewMode::Tree ==> s.best() == tree::best_row(s.choices()),
{
}

/// Selecting a path, or an item, selects the first row that has it, and changes
/// nothing else; where no row has it nothing changes at all.
pub proof fn law_selecting_finds_the_first_row(s: PaletteView, path: Seq<Seq<char>>, i: int)
    requires
        0 <= i <= s.choices().len(),
        forall|j: int| 0 <= j < i ==> (#[trigger] s.choices()[j]).path != path,
        i < s.choices().len() ==> s.choices()[i].path == path,
    ensures
        i < s.choices().len() ==> s.at_path(path) == (PaletteView { selected: i, ..s }),
        i == s.choices().len() ==> s.at_path(path) == s,
{
    tree::law_paths_are_found_by_the_first(s.choices(), path, i);
}

/// In the list an item is selected by the first match that is recognised.
pub proof fn law_items_are_selected_in_the_list(
    s: PaletteView,
    id: (ItemKind, Seq<char>, Seq<char>),
    i: int,
)
    requires
        s.navigation_view == NavigationViewMode::List,
        0 <= i <= s.matched.len(),
        forall|j: int| 0 <= j < i ==> tree::identity((#[trigger] s.matched[j]).item) != id,
        i < s.matched.len() ==> tree::identity(s.matched[i].item) == id,
    ensures
        i < s.matched.len() ==> s.at_identity(id) == (PaletteView { selected: i, ..s }),
        i == s.matched.len() ==> s.at_identity(id) == s,
{
    matching::law_matches_are_found_by_the_first(s.matched, id, i);
}

/// In the tree an item is selected by the first row that is recognised.
pub proof fn law_items_are_selected_in_the_tree(
    s: PaletteView,
    id: (ItemKind, Seq<char>, Seq<char>),
    i: int,
)
    requires
        s.navigation_view == NavigationViewMode::Tree,
        0 <= i <= s.choices().len(),
        forall|j: int|
            0 <= j < i ==> (#[trigger] s.choices()[j]).item is None || tree::identity(
                s.choices()[j].item->0,
            ) != id,
        i < s.choices().len() ==> s.choices()[i].item is Some && tree::identity(
            s.choices()[i].item->0,
        ) == id,
    ensures
        i < s.choices().len() ==> s.at_identity(id) == (PaletteView { selected: i, ..s }),
        i == s.choices().len() ==> s.at_identity(id) == s,
{
    tree::law_rows_are_found_by_the_first(s.choices(), id, i);
}

/// Keys that are no characters do the same whatever is held down beside them,
/// and those that the palette does not know do nothing.
pub proof fn law_modifiers_count_for_characters_only(
    s: PaletteView,
    key: Key,
    mods: Mods,
    login: Option<Seq<char>>,
)
    requires
        !(key is Char),
    ensures
        input::after_key(s, (KeyEvent { key, mods, pressed: true }), login) == input::after_key(
            s,
            plain_key(key),
            login,
        ),
        key == Key::Other ==> input::after_key(s, (KeyEvent { key, mods, pressed: true }), login)
            == (s, StepView::Continue),
{
}

/// A character with Control and something else does nothing, but that the
/// palette takes an exclamation mark however it is typed.
pub proof fn law_control_with_others_does_nothing(
    s: PaletteView,
    c: char,
    mods: Mods,
    login: Option<Seq<char>>,
)
    requires
        mods.control,
        mods.other,
        c != '!' || s.input_mode == InputMode::Shell,
    ensures
        input::after_key(s, (KeyEvent { key: Key::Char(c), mods, pressed: true }), login) == (
            s,
            StepView::Continue,
        ),
{
}

/// An exclamation mark opens the shell panel whatever is held down beside it.
pub proof fn law_exclamation_mark_opens_the_panel(
    s: PaletteView,
    mods: Mods,
    login: Option<Seq<char>>,
)
    requires
        s.input_mode == InputMode::Palette,
    ensures
        input::after_key(s, (KeyEvent { key: Key::Char('!'), mods, pressed: true }), login) == (
            s.in_shell(),
            StepView::Continue,
        ),
{
}

/// In the shell panel any other character with Control does nothing.
pub proof fn law_other_control_keys_do_nothing_in_the_panel(
    s: PaletteView,
    c: char,
    login: Option<Seq<char>>,
)
    requires
        s.input_mode == InputMode::Shell,
        c != 'c' && c != 'd' && c != 'u',
    ensures
        input::after_key(s, control_key(c), login) == (s, StepView::Continue),
{
}

/// Left on an open group closes it, and closes and opens nothing else; the first
/// row with its path is selected.
pub proof fn law_left_closes_an_open_group(s: PaletteView, i: int)
    requires
        s.browsing(),
        s.selected_row() is Some,
        s.selected_row()->0.kind == TreeRowKind::Group,
        s.selected_row()->0.expanded,
        ({
            let rows = s.left().choices();
            &&& 0 <= i < rows.len()
            &&& rows[i].path == s.selected_row()->0.path
            &&& forall|j: int|
                0 <= j < i ==> (#[trigger] rows[j]).path != s.selected_row()->0.path
        }),
    ensures
        s.left().closed == s.closed.insert(text::joined(s.selected_row()->0.path, "\u{1f}"@)),
        s.left().selected == i,
{
    let path = s.selected_row()->0.path;
    let folded = PaletteView { closed: s.closed.insert(tree::key_of(path)), ..s };
    assert(s.left().choices() == folded.choices());
    tree::law_paths_are_found_by_the_first(folded.choices(), path, i);
}

/// Going about the rows changes which of them are shown, which is selected and
/// which is highlighted, and turning the view which view it is; all else stays.
pub proof fn law_going_about_changes_nothing_else(s: PaletteView, delta: int)
    ensures
        s.moved(delta) == (PaletteView {
            selected: s.moved(delta).selected,
            highlighted: s.moved(delta).highlighted,
            ..s
        }),
        s.left() == (PaletteView {
            closed: s.left().closed,
            selected: s.left().selected,
            highlighted: s.left().highlighted,
            ..s
        }),
        s.right() == (PaletteView {
            closed: s.right().closed,
            selected: s.right().selected,
            highlighted: s.right().highlighted,
            ..s
        }),
        s.toggled() == (PaletteView {
            navigation_view: s.toggled().navigation_view,
            selected: s.toggled().selected,
            highlighted: s.toggled().highlighted,
            ..s
        }),
        s.synced() == (PaletteView { highlighted: s.synced().highlighted, ..s }),
{
}

} // verus!
