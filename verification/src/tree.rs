//! The tree view: matching rows under the groups that they belong to.

use crate::items::{Item, ItemKind, ItemView};
use crate::keyset::KeySet;
use crate::matching;
use crate::matching::{MatchView, MatchedItem};
use crate::text;
use crate::text::Order;
use vstd::prelude::*;

verus! {

/// What a row of the tree stands for.
#[derive(Debug, Clone, Copy, PartialEq, Eq, Structural)]
pub enum TreeRowKind {
    Group,
    Item,
}

/// A row of the tree.
#[derive(Debug)]
pub struct TreeRow {
    /// The groups above the row, outermost first, and the row itself.
    pub path: Vec<String>,
    pub label: String,
    pub depth: usize,
    pub kind: TreeRowKind,
    pub selectable: bool,
    /// Whether the row is shown only to place the matches below it.
    pub context_only: bool,
    pub expanded: bool,
    pub item: Option<Item>,
    pub score: Option<i64>,
}

/// What a [`TreeRow`] holds.
pub struct TreeRowView {
    pub path: Seq<Seq<char>>,
    pub label: Seq<char>,
    pub depth: int,
    pub kind: TreeRowKind,
    pub selectable: bool,
    pub context_only: bool,
    pub expanded: bool,
    pub item: Option<ItemView>,
    pub score: Option<i64>,
}

/// What an optional [`Item`] holds.
pub open spec fn opt_item(item: Option<Item>) -> Option<ItemView> {
    match item {
        Some(item) => Some(item@),
        None => None,
    }
}

impl View for TreeRow {
    type V = TreeRowView;

    open spec fn view(&self) -> TreeRowView {
        TreeRowView {
            path: text::texts(self.path@),
            label: self.label@,
            depth: self.depth as int,
            kind: self.kind,
            selectable: self.selectable,
            context_only: self.context_only,
            expanded: self.expanded,
            item: opt_item(self.item),
            score: self.score,
        }
    }
}

/// What each row of a list holds.
pub open spec fn row_views(list: Seq<TreeRow>) -> Seq<TreeRowView> {
    list.map_values(|r: TreeRow| r@)
}

/// The groups of an item: its own path, or the group of its kind.
pub open spec fn group_path(item: ItemView) -> Seq<Seq<char>> {
    if item.tree_path.len() == 0 {
        seq![item.kind.label()]
    } else {
        item.tree_path
    }
}

/// The key that a group is remembered by.
pub open spec fn key_of(path: Seq<Seq<char>>) -> Seq<char> {
    text::joined(path, "\u{1f}"@)
}

/// The row of a group. A query makes groups mere context.
pub open spec fn group_row(path: Seq<Seq<char>>, active: bool, expanded: bool) -> TreeRowView {
    TreeRowView {
        path,
        label: path.last(),
        depth: path.len() - 1,
        kind: TreeRowKind::Group,
        selectable: !active,
        context_only: active,
        expanded,
        item: None,
        score: None,
    }
}

/// The row of a match.
pub open spec fn item_row(hit: MatchView) -> TreeRowView {
    TreeRowView {
        path: group_path(hit.item).push(hit.item.title),
        label: hit.item.title,
        depth: if hit.item.tree_path.len() == 0 {
            1
        } else {
            hit.item.tree_path.len() as int
        },
        kind: TreeRowKind::Item,
        selectable: true,
        context_only: false,
        expanded: false,
        item: Some(hit.item),
        score: hit.score,
    }
}

/// The rows so far, and the keys of the groups among them.
pub struct Walk {
    pub rows: Seq<TreeRowView>,
    pub seen: Set<Seq<char>>,
}

/// Whether the group `path` is open. A query opens every group.
pub open spec fn is_open(path: Seq<Seq<char>>, closed: Set<Seq<char>>, active: bool) -> bool {
    active || !closed.contains(key_of(path))
}

/// How many groups of a path are on show: those down to the first closed one.
pub open spec fn shown_groups(
    path: Seq<Seq<char>>,
    k: int,
    closed: Set<Seq<char>>,
    active: bool,
) -> int
    decreases path.len() - k,
{
    if k >= path.len() {
        k
    } else if is_open(path.take(k + 1), closed, active) {
        shown_groups(path, k + 1, closed, active)
    } else {
        k + 1
    }
}

/// Whether every group of a path is open.
pub open spec fn all_open(path: Seq<Seq<char>>, closed: Set<Seq<char>>, active: bool) -> bool {
    forall|k: int| 0 <= k < path.len() ==> is_open(#[trigger] path.take(k + 1), closed, active)
}

/// `w` with the rows of the groups `path.take(from + 1)` to `path.take(to)`
/// that it does not have yet.
pub open spec fn with_groups(
    path: Seq<Seq<char>>,
    from: int,
    to: int,
    closed: Set<Seq<char>>,
    active: bool,
    w: Walk,
) -> Walk
    decreases to - from,
{
    if from >= to {
        w
    } else {
        let before = with_groups(path, from, to - 1, closed, active, w);
        let group = path.take(to);
        Walk {
            rows: if before.seen.contains(key_of(group)) {
                before.rows
            } else {
                before.rows.push(group_row(group, active, is_open(group, closed, active)))
            },
            seen: before.seen.insert(key_of(group)),
        }
    }
}

/// The tree of the matches: each below its groups, where all of them are open,
/// and each group once, where those above it are open.
pub open spec fn tree(hits: Seq<MatchView>, closed: Set<Seq<char>>, active: bool) -> Walk
    decreases hits.len(),
{
    if hits.len() == 0 {
        Walk { rows: Seq::empty(), seen: Set::empty() }
    } else {
        let hit = hits.last();
        let path = group_path(hit.item);
        let w = with_groups(
            path,
            0,
            shown_groups(path, 0, closed, active),
            closed,
            active,
            tree(hits.drop_last(), closed, active),
        );
        if all_open(path, closed, active) {
            Walk { rows: w.rows.push(item_row(hit)), seen: w.seen }
        } else {
            w
        }
    }
}

/// The rows of the tree.
pub open spec fn tree_rows(
    hits: Seq<MatchView>,
    closed: Set<Seq<char>>,
    active: bool,
) -> Seq<TreeRowView> {
    tree(hits, closed, active).rows
}

/// The groups of an item: its own path, or the group of its kind.
pub fn tree_path_for_item(item: &Item) -> (r: Vec<String>)
    ensures
        text::texts(r@) == group_path(item@),
{
    if item.tree_path.len() == 0 {
        let mut out: Vec<String> = Vec::new();
        out.push(item.kind.category_label().to_owned());
        assert(text::texts(out@) =~= seq![item.kind.label()]);
        out
    } else {
        text::copy_texts(&item.tree_path)
    }
}

/// The key that a group is remembered by.
pub fn path_key(path: &Vec<String>) -> (r: String)
    ensures
        r@ == key_of(text::texts(path@)),
{
    text::join(path, "\u{1f}")
}

/// The shown groups end at a closed one, or all are open.
proof fn lemma_shown_groups(path: Seq<Seq<char>>, k: int, closed: Set<Seq<char>>, active: bool)
    requires
        0 <= k <= path.len(),
        forall|i: int| 0 <= i < k ==> is_open(#[trigger] path.take(i + 1), closed, active),
    ensures
        k <= shown_groups(path, k, closed, active) <= path.len(),
        k < path.len() ==> k < shown_groups(path, k, closed, active),
        shown_groups(path, k, closed, active) == shown_groups(path, 0, closed, active),
        all_open(path, closed, active) ==> shown_groups(path, k, closed, active) == path.len(),
        !all_open(path, closed, active) ==> {
            let n = shown_groups(path, k, closed, active);
            0 < n && !is_open(path.take(n), closed, active)
        },
        forall|i: int|
            0 <= i < shown_groups(path, k, closed, active) - 1 ==> is_open(
                #[trigger] path.take(i + 1),
                closed,
                active,
            ),
    decreases path.len() - k,
{
    if k < path.len() && is_open(path.take(k + 1), closed, active) {
        lemma_shown_groups(path, k + 1, closed, active);
    }
    lemma_shown_from_start(path, k, closed, active);
    if k < path.len() && !is_open(path.take(k + 1), closed, active) {
        assert(!all_open(path, closed, active));
    }
}

proof fn lemma_shown_from_start(path: Seq<Seq<char>>, k: int, closed: Set<Seq<char>>, active: bool)
    requires
        0 <= k <= path.len(),
        forall|i: int| 0 <= i < k ==> is_open(#[trigger] path.take(i + 1), closed, active),
    ensures
        shown_groups(path, k, closed, active) == shown_groups(path, 0, closed, active),
    decreases k,
{
    if k > 0 {
        assert(is_open(path.take((k - 1) + 1), closed, active));
        lemma_shown_from_start(path, k - 1, closed, active);
    }
}

/// Adds the rows of the groups on show, and says whether all are open.
fn add_groups(
    path: &Vec<String>,
    closed: &KeySet,
    active: bool,
    rows: &mut Vec<TreeRow>,
    seen: &mut KeySet,
) -> (r: bool)
    ensures
        r == all_open(text::texts(path@), closed@, active),
        (Walk { rows: row_views(final(rows)@), seen: final(seen)@ }) == with_groups(
            text::texts(path@),
            0,
            shown_groups(text::texts(path@), 0, closed@, active),
            closed@,
            active,
            (Walk { rows: row_views(old(rows)@), seen: old(seen)@ }),
        ),
{
    let ghost groups = text::texts(path@);
    let ghost start = Walk { rows: row_views(rows@), seen: seen@ };
    let mut parent: Vec<String> = Vec::new();
    let mut k: usize = 0;
    while k < path.len()
        invariant
            k <= path@.len(),
            groups == text::texts(path@),
            start == (Walk { rows: row_views(old(rows)@), seen: old(seen)@ }),
            text::texts(parent@) == groups.take(k as int),
            (Walk { rows: row_views(rows@), seen: seen@ }) == with_groups(
                groups,
                0,
                k as int,
                closed@,
                active,
                start,
            ),
            forall|i: int| 0 <= i < k ==> is_open(#[trigger] groups.take(i + 1), closed@, active),
        decreases path@.len() - k,
    {
        let ghost w = Walk { rows: row_views(rows@), seen: seen@ };
        let ghost above = text::texts(parent@);
        parent.push(path[k].clone());
        assert(text::texts(parent@) =~= above.push(groups[k as int]));
        assert(groups.take(k + 1) =~= groups.take(k as int).push(groups[k as int]));
        let key = path_key(&parent);
        let expanded = active || !closed.contains(key.as_str());
        if seen.insert(key) {
            let row = TreeRow {
                path: text::copy_texts(&parent),
                label: path[k].clone(),
                depth: k,
                kind: TreeRowKind::Group,
                selectable: !active,
                context_only: active,
                expanded,
                item: None,
                score: None,
            };
            assert(row@ == group_row(groups.take(k + 1), active, expanded));
            let ghost held = row@;
            rows.push(row);
            assert(row_views(rows@) =~= w.rows.push(held));
        }
        assert((Walk { rows: row_views(rows@), seen: seen@ }) == with_groups(
            groups,
            0,
            k + 1,
            closed@,
            active,
            start,
        ));
        if !expanded {
            proof {
                lemma_shown_groups(groups, k as int, closed@, active);
            }
            return false;
        }
        k += 1;
    }
    proof {
        lemma_shown_groups(groups, k as int, closed@, active);
    }
    true
}

/// The rows of the tree of the matches, where `closed` groups hide what is
/// below them unless a query is active.
pub fn visible_tree_rows(hits: Vec<MatchedItem>, closed: &KeySet, active: bool) -> (r: Vec<TreeRow>)
    ensures
        row_views(r@) == tree_rows(matching::match_views(hits@), closed@, active),
{
    let ghost given = hits@;
    let ghost all = matching::match_views(hits@);
    let mut rows: Vec<TreeRow> = Vec::new();
    let mut seen = KeySet::new();
    assert(row_views(rows@) =~= Seq::empty());
    for hit in it: hits
        invariant
            it.seq() == given,
            all == matching::match_views(given),
            (Walk { rows: row_views(rows@), seen: seen@ }) == tree(
                all.take(it.index() as int),
                closed@,
                active,
            ),
    {
        assert(all.take(it.index() + 1).drop_last() == all.take(it.index() as int));
        assert(all.take(it.index() + 1).last() == hit@);
        let groups = tree_path_for_item(&hit.item);
        let open = add_groups(&groups, closed, active, &mut rows, &mut seen);
        if open {
            let ghost before = row_views(rows@);
            let ghost matched = hit@;
            let depth: usize = groups.len();
            let label = hit.item.title.clone();
            let mut path = groups;
            let ghost above = text::texts(path@);
            path.push(hit.item.title.clone());
            assert(text::texts(path@) =~= above.push(hit.item.title@));
            let row = TreeRow {
                path,
                label,
                depth,
                kind: TreeRowKind::Item,
                selectable: true,
                context_only: false,
                expanded: false,
                item: Some(hit.item),
                score: hit.score,
            };
            assert(row@ == item_row(matched));
            rows.push(row);
            assert(row_views(rows@) =~= before.push(item_row(matched)));
        }
    }
    assert(all.take(all.len() as int) == all);
    rows
}

/// The rows that can be selected, in order.
pub open spec fn selectable(rows: Seq<TreeRowView>) -> Seq<TreeRowView>
    decreases rows.len(),
{
    if rows.len() == 0 {
        Seq::empty()
    } else if rows.last().selectable {
        selectable(rows.drop_last()).push(rows.last())
    } else {
        selectable(rows.drop_last())
    }
}

/// The index of the row that is number `n` of those that can be selected.
pub open spec fn nth_selectable(rows: Seq<TreeRowView>, n: int) -> Option<int>
    decreases rows.len(),
{
    if rows.len() == 0 {
        None
    } else {
        match nth_selectable(rows.drop_last(), n) {
            Some(i) => Some(i),
            None => if rows.last().selectable && selectable(rows.drop_last()).len() == n {
                Some(rows.len() - 1)
            } else {
                None
            },
        }
    }
}

/// The index of the first row with that path.
pub open spec fn path_position(rows: Seq<TreeRowView>, path: Seq<Seq<char>>) -> Option<int>
    decreases rows.len(),
{
    if rows.len() == 0 {
        None
    } else {
        match path_position(rows.drop_last(), path) {
            Some(i) => Some(i),
            None => if rows.last().path == path {
                Some(rows.len() - 1)
            } else {
                None
            },
        }
    }
}

/// What an item is recognised by: its kind, title and subtitle.
pub open spec fn identity(item: ItemView) -> (ItemKind, Seq<char>, Seq<char>) {
    (item.kind, item.title, item.subtitle)
}

/// The index of the first row whose item is recognised by `id`.
pub open spec fn identity_position(
    rows: Seq<TreeRowView>,
    id: (ItemKind, Seq<char>, Seq<char>),
) -> Option<int>
    decreases rows.len(),
{
    if rows.len() == 0 {
        None
    } else {
        match identity_position(rows.drop_last(), id) {
            Some(i) => Some(i),
            None => if rows.last().item is Some && identity(rows.last().item->0) == id {
                Some(rows.len() - 1)
            } else {
                None
            },
        }
    }
}

/// Whether `path` stands somewhere below `above`.
pub open spec fn stands_below(path: Seq<Seq<char>>, above: Seq<Seq<char>>) -> bool {
    path.len() > above.len() && path.take(above.len() as int) == above
}

/// The first row that stands below the group `above`.
pub open spec fn first_below(rows: Seq<TreeRowView>, above: Seq<Seq<char>>) -> Option<TreeRowView>
    decreases rows.len(),
{
    if rows.len() == 0 {
        None
    } else {
        match first_below(rows.drop_last(), above) {
            Some(row) => Some(row),
            None => if stands_below(rows.last().path, above) {
                Some(rows.last())
            } else {
                None
            },
        }
    }
}

/// The index of the row with the highest-ranked item; of equals, the last.
pub open spec fn best_row(rows: Seq<TreeRowView>) -> Option<int>
    decreases rows.len(),
{
    if rows.len() == 0 {
        None
    } else {
        match rows.last().item {
            Some(item) => match best_row(rows.drop_last()) {
                Some(best) => if matching::rank_order(row_match(rows[best]), row_match(rows.last()))
                    == Order::Greater {
                    Some(best)
                } else {
                    Some(rows.len() - 1)
                },
                None => Some(rows.len() - 1),
            },
            None => best_row(rows.drop_last()),
        }
    }
}

/// The match that an item's row stands for.
pub open spec fn row_match(row: TreeRowView) -> MatchView {
    MatchView { item: row.item->0, score: row.score }
}

/// The rows that can be selected, in order.
pub fn selectable_rows(rows: Vec<TreeRow>) -> (r: Vec<TreeRow>)
    ensures
        row_views(r@) == selectable(row_views(rows@)),
{
    let ghost given = rows@;
    let ghost all = row_views(rows@);
    let mut out: Vec<TreeRow> = Vec::new();
    for row in it: rows
        invariant
            it.seq() == given,
            all == row_views(given),
            row_views(out@) == selectable(all.take(it.index() as int)),
    {
        assert(all.take(it.index() + 1).drop_last() == all.take(it.index() as int));
        assert(all.take(it.index() + 1).last() == row@);
        if row.selectable {
            let ghost before = row_views(out@);
            let ghost held = row@;
            out.push(row);
            assert(row_views(out@) =~= before.push(held));
        }
    }
    assert(all.take(all.len() as int) == all);
    out
}

/// The index of the row that is number `n` of those that can be selected.
pub fn find_nth_selectable(rows: &Vec<TreeRow>, n: usize) -> (r: Option<usize>)
    ensures
        opt_index(r) == nth_selectable(row_views(rows@), n as int),
{
    let ghost all = row_views(rows@);
    let mut count: usize = 0;
    let mut i: usize = 0;
    while i < rows.len()
        invariant
            i <= rows@.len(),
            count <= i,
            all == row_views(rows@),
            count == selectable(all.take(i as int)).len(),
            nth_selectable(all.take(i as int), n as int) is None,
        decreases rows@.len() - i,
    {
        assert(all.take(i + 1).drop_last() == all.take(i as int));
        assert(all.take(i + 1).last() == rows@[i as int]@);
        if rows[i].selectable {
            if count == n {
                proof {
                    lemma_nth_stays(all, i + 1, n as int);
                }
                return Some(i);
            }
            count += 1;
        }
        i += 1;
    }
    assert(all.take(i as int) == all);
    None
}

/// A row that was found among the first `k` is found among all.
proof fn lemma_nth_stays(rows: Seq<TreeRowView>, k: int, n: int)
    requires
        0 <= k <= rows.len(),
        nth_selectable(rows.take(k), n) is Some,
    ensures
        nth_selectable(rows, n) == nth_selectable(rows.take(k), n),
    decreases rows.len(),
{
    if k == rows.len() {
        assert(rows.take(k) == rows);
    } else {
        assert(rows.drop_last().take(k) == rows.take(k));
        lemma_nth_stays(rows.drop_last(), k, n);
    }
}

/// What an optional index holds.
pub open spec fn opt_index(i: Option<usize>) -> Option<int> {
    match i {
        Some(i) => Some(i as int),
        None => None,
    }
}

/// The index of the first row with that path.
pub fn find_path(rows: &Vec<TreeRow>, path: &Vec<String>) -> (r: Option<usize>)
    ensures
        opt_index(r) == path_position(row_views(rows@), text::texts(path@)),
{
    let ghost all = row_views(rows@);
    let ghost want = text::texts(path@);
    let mut i: usize = 0;
    while i < rows.len()
        invariant
            i <= rows@.len(),
            all == row_views(rows@),
            want == text::texts(path@),
            path_position(all.take(i as int), want) is None,
        decreases rows@.len() - i,
    {
        assert(all.take(i + 1).drop_last() == all.take(i as int));
        assert(all.take(i + 1).last() == rows@[i as int]@);
        if text::same_texts(&rows[i].path, path) {
            proof {
                lemma_path_stays(all, i + 1, want);
            }
            return Some(i);
        }
        i += 1;
    }
    assert(all.take(i as int) == all);
    None
}

proof fn lemma_path_stays(rows: Seq<TreeRowView>, k: int, path: Seq<Seq<char>>)
    requires
        0 <= k <= rows.len(),
        path_position(rows.take(k), path) is Some,
    ensures
        path_position(rows, path) == path_position(rows.take(k), path),
    decreases rows.len(),
{
    if k == rows.len() {
        assert(rows.take(k) == rows);
    } else {
        assert(rows.drop_last().take(k) == rows.take(k));
        lemma_path_stays(rows.drop_last(), k, path);
    }
}

/// What an item is recognised by.
pub fn item_identity(item: &Item) -> (r: (ItemKind, String, String))
    ensures
        identity_text(r) == identity(item@),
{
    (item.kind, item.title.clone(), item.subtitle.clone())
}

/// What an identity holds.
pub open spec fn identity_text(id: (ItemKind, String, String)) -> (
    ItemKind,
    Seq<char>,
    Seq<char>,
) {
    (id.0, id.1@, id.2@)
}

/// Whether an item is recognised by `id`.
pub fn has_identity(item: &Item, id: &(ItemKind, String, String)) -> (r: bool)
    ensures
        r == (identity(item@) == identity_text(*id)),
{
    item.kind == id.0 && item.title.as_str().eq(id.1.as_str()) && item.subtitle.as_str().eq(
        id.2.as_str(),
    )
}

/// The index of the first row whose item is recognised by `id`.
pub fn find_identity(rows: &Vec<TreeRow>, id: &(ItemKind, String, String)) -> (r: Option<usize>)
    ensures
        opt_index(r) == identity_position(row_views(rows@), identity_text(*id)),
{
    let ghost all = row_views(rows@);
    let ghost want = identity_text(*id);
    let mut i: usize = 0;
    while i < rows.len()
        invariant
            i <= rows@.len(),
            all == row_views(rows@),
            want == identity_text(*id),
            identity_position(all.take(i as int), want) is None,
        decreases rows@.len() - i,
    {
        assert(all.take(i + 1).drop_last() == all.take(i as int));
        assert(all.take(i + 1).last() == rows@[i as int]@);
        if let Some(item) = &rows[i].item {
            if has_identity(item, id) {
                proof {
                    lemma_identity_stays(all, i + 1, want);
                }
                return Some(i);
            }
        }
        i += 1;
    }
    assert(all.take(i as int) == all);
    None
}

proof fn lemma_identity_stays(
    rows: Seq<TreeRowView>,
    k: int,
    id: (ItemKind, Seq<char>, Seq<char>),
)
    requires
        0 <= k <= rows.len(),
        identity_position(rows.take(k), id) is Some,
    ensures
        identity_position(rows, id) == identity_position(rows.take(k), id),
    decreases rows.len(),
{
    if k == rows.len() {
        assert(rows.take(k) == rows);
    } else {
        assert(rows.drop_last().take(k) == rows.take(k));
        lemma_identity_stays(rows.drop_last(), k, id);
    }
}

/// Whether `path` stands somewhere below `above`.
pub fn is_below(path: &Vec<String>, above: &Vec<String>) -> (r: bool)
    ensures
        r == stands_below(text::texts(path@), text::texts(above@)),
{
    if path.len() <= above.len() {
        return false;
    }
    let ghost p = text::texts(path@);
    let ghost a = text::texts(above@);
    let mut i: usize = 0;
    while i < above.len()
        invariant
            i <= above@.len() < path@.len(),
            p == text::texts(path@),
            a == text::texts(above@),
            forall|j: int| 0 <= j < i ==> #[trigger] p[j] == a[j],
        decreases above@.len() - i,
    {
        if !path[i].as_str().eq(above[i].as_str()) {
            assert(p.take(a.len() as int)[i as int] != a[i as int]);
            return false;
        }
        i += 1;
    }
    assert(p.take(a.len() as int) =~= a);
    true
}

/// The path of the first row that stands below the group `above`.
pub fn find_below(rows: &Vec<TreeRow>, above: &Vec<String>) -> (r: Option<Vec<String>>)
    ensures
        r is Some <==> first_below(row_views(rows@), text::texts(above@)) is Some,
        r is Some ==> text::texts(r->0@) == first_below(
            row_views(rows@),
            text::texts(above@),
        )->0.path,
{
    let ghost all = row_views(rows@);
    let ghost want = text::texts(above@);
    let mut i: usize = 0;
    while i < rows.len()
        invariant
            i <= rows@.len(),
            all == row_views(rows@),
            want == text::texts(above@),
            first_below(all.take(i as int), want) is None,
        decreases rows@.len() - i,
    {
        assert(all.take(i + 1).drop_last() == all.take(i as int));
        assert(all.take(i + 1).last() == rows@[i as int]@);
        if is_below(&rows[i].path, above) {
            proof {
                lemma_below_stays(all, i + 1, want);
            }
            return Some(text::copy_texts(&rows[i].path));
        }
        i += 1;
    }
    assert(all.take(i as int) == all);
    None
}

proof fn lemma_below_stays(rows: Seq<TreeRowView>, k: int, above: Seq<Seq<char>>)
    requires
        0 <= k <= rows.len(),
        first_below(rows.take(k), above) is Some,
    ensures
        first_below(rows, above) == first_below(rows.take(k), above),
    decreases rows.len(),
{
    if k == rows.len() {
        assert(rows.take(k) == rows);
    } else {
        assert(rows.drop_last().take(k) == rows.take(k));
        lemma_below_stays(rows.drop_last(), k, above);
    }
}

/// The best row lies among the rows and has an item, and no row ranks higher.
pub proof fn law_best_row_is_best(rows: Seq<TreeRowView>)
    ensures
        best_row(rows) is Some <==> exists|i: int|
            0 <= i < rows.len() && (#[trigger] rows[i]).item is Some,
        best_row(rows) is Some ==> {
            let best = best_row(rows)->0;
            &&& 0 <= best < rows.len()
            &&& rows[best].item is Some
            &&& forall|i: int|
                0 <= i < rows.len() && (#[trigger] rows[i]).item is Some ==> matching::rank_order(
                    row_match(rows[i]),
                    row_match(rows[best]),
                ) != Order::Greater
        },
    decreases rows.len(),
{
    if rows.len() > 0 {
        let before = rows.drop_last();
        law_best_row_is_best(before);
        assert(forall|i: int| 0 <= i < before.len() ==> before[i] == #[trigger] rows[i]);
        if exists|i: int| 0 <= i < before.len() && (#[trigger] before[i]).item is Some {
            let i = choose|i: int| 0 <= i < before.len() && (#[trigger] before[i]).item is Some;
            assert(rows[i].item is Some);
        }
        if rows.last().item is Some {
            assert(rows[rows.len() - 1].item is Some);
            let last = row_match(rows.last());
            assert forall|x: MatchView| matching::rank_order(x, x) == Order::Equal by {
                matching::law_rank_order_symmetric(x, x);
            }
            if let Some(old) = best_row(before) {
                let top = row_match(rows[old]);
                matching::law_rank_order_symmetric(top, last);
                assert forall|i: int| 0 <= i < rows.len() && (#[trigger] rows[i]).item is Some implies matching::rank_order(
                    row_match(rows[i]),
                    row_match(rows[best_row(rows)->0]),
                ) != Order::Greater by {
                    if i < before.len() {
                        assert(before[i] == rows[i]);
                        if best_row(rows)->0 == rows.len() - 1 {
                            matching::law_rank_order_transitive(row_match(rows[i]), top, last);
                        }
                    }
                }
            } else {
                assert forall|i: int| 0 <= i < rows.len() && (#[trigger] rows[i]).item is Some implies matching::rank_order(
                    row_match(rows[i]),
                    row_match(rows[best_row(rows)->0]),
                ) != Order::Greater by {
                    if i < before.len() {
                        assert(before[i] == rows[i]);
                    }
                }
            }
        } else {
            assert forall|i: int| 0 <= i < rows.len() && (#[trigger] rows[i]).item is Some implies i
                < before.len() && before[i] == rows[i] by {}
        }
    }
}

/// The index of the row with the highest-ranked item; of equals, the last.
pub fn find_best_row(rows: &Vec<TreeRow>) -> (r: Option<usize>)
    ensures
        opt_index(r) == best_row(row_views(rows@)),
{
    let ghost all = row_views(rows@);
    let mut best: Option<usize> = None;
    let mut i: usize = 0;
    while i < rows.len()
        invariant
            i <= rows@.len(),
            all == row_views(rows@),
            opt_index(best) == best_row(all.take(i as int)),
            best is Some ==> best->0 < i && rows@[best->0 as int].item is Some,
        decreases rows@.len() - i,
    {
        assert(all.take(i + 1).drop_last() == all.take(i as int));
        assert(all.take(i + 1).last() == rows@[i as int]@);
        if let Some(item) = &rows[i].item {
            let keeps = match best {
                Some(b) => match &rows[b].item {
                    Some(top) => {
                        assert(all.take(i as int)[b as int] == rows@[b as int]@);
                        matching::compare_item_rank(top, rows[b].score, item, rows[i].score)
                            == Order::Greater
                    },
                    None => false,
                },
                None => false,
            };
            if !keeps {
                best = Some(i);
            }
        }
        i += 1;
    }
    assert(all.take(i as int) == all);
    best
}

/// Whether a row is of the shape that its kind gives it: items can always be
/// selected, groups only without a query, which makes them mere context.
pub open spec fn well_shaped(row: TreeRowView, active: bool) -> bool {
    match row.kind {
        TreeRowKind::Item => row.selectable && !row.context_only && row.item is Some,
        TreeRowKind::Group => row.selectable == !active && row.context_only == active
            && row.item is None && row.path.len() > 0,
    }
}

/// Whether some row before `j` is the group that the row at `j` stands below.
pub open spec fn has_parent(rows: Seq<TreeRowView>, j: int) -> bool {
    exists|i: int|
        0 <= i < j && (#[trigger] rows[i]).kind == TreeRowKind::Group && key_of(rows[i].path)
            == key_of(rows[j].path.drop_last())
}

/// What holds of the rows of a tree: each is of its kind's shape, no group is
/// listed twice, and every row comes after the group that it stands below.
pub open spec fn well_formed_rows(rows: Seq<TreeRowView>, active: bool) -> bool {
    &&& forall|j: int| 0 <= j < rows.len() ==> well_shaped(#[trigger] rows[j], active)
    &&& forall|i: int, j: int|
        #![trigger rows[i], rows[j]]
        0 <= i < j < rows.len() && rows[i].kind == TreeRowKind::Group && rows[j].kind
            == TreeRowKind::Group ==> key_of(rows[i].path) != key_of(rows[j].path)
    &&& forall|j: int|
        0 <= j < rows.len() && (#[trigger] rows[j]).path.len() > 1 ==> has_parent(rows, j)
}

/// A walk remembers exactly the groups among its rows.
spec fn remembers(w: Walk) -> bool {
    &&& forall|j: int|
        #![trigger w.rows[j]]
        0 <= j < w.rows.len() && w.rows[j].kind == TreeRowKind::Group ==> w.seen.contains(
            key_of(w.rows[j].path),
        )
    &&& forall|key: Seq<char>| #[trigger]
        w.seen.contains(key) ==> exists|i: int|
            0 <= i < w.rows.len() && (#[trigger] w.rows[i]).kind == TreeRowKind::Group && key_of(
                w.rows[i].path,
            ) == key
}

proof fn lemma_parents_stay(rows: Seq<TreeRowView>, row: TreeRowView, j: int)
    requires
        0 <= j < rows.len(),
        has_parent(rows, j),
    ensures
        has_parent(rows.push(row), j),
{
    let i = choose|i: int|
        0 <= i < j && (#[trigger] rows[i]).kind == TreeRowKind::Group && key_of(rows[i].path)
            == key_of(rows[j].path.drop_last());
    assert(rows.push(row)[i] == rows[i]);
    assert(rows.push(row)[j] == rows[j]);
}

/// A row that is of its kind's shape, is no group that is there already and
/// stands below one that is, keeps the rows well formed.
proof fn lemma_push_row(w: Walk, row: TreeRowView, active: bool)
    requires
        well_formed_rows(w.rows, active),
        remembers(w),
        well_shaped(row, active),
        row.kind == TreeRowKind::Group ==> !w.seen.contains(key_of(row.path)),
        row.path.len() > 1 ==> w.seen.contains(key_of(row.path.drop_last())),
    ensures
        well_formed_rows(w.rows.push(row), active),
{
    let rows = w.rows.push(row);
    assert forall|j: int| 0 <= j < rows.len() implies well_shaped(#[trigger] rows[j], active) by {
        if j < w.rows.len() {
            assert(rows[j] == w.rows[j]);
        }
    }
    assert forall|i: int, j: int|
        #![trigger rows[i], rows[j]]
        0 <= i < j < rows.len() && rows[i].kind == TreeRowKind::Group && rows[j].kind
            == TreeRowKind::Group implies key_of(rows[i].path) != key_of(rows[j].path) by {
        assert(rows[i] == w.rows[i]);
        if j < w.rows.len() {
            assert(rows[j] == w.rows[j]);
        }
    }
    assert forall|j: int| 0 <= j < rows.len() && (#[trigger] rows[j]).path.len() > 1 implies has_parent(
        rows,
        j,
    ) by {
        if j < w.rows.len() {
            assert(rows[j] == w.rows[j]);
            lemma_parents_stay(w.rows, row, j);
        } else {
            let key = key_of(row.path.drop_last());
            let i = choose|i: int|
                0 <= i < w.rows.len() && (#[trigger] w.rows[i]).kind == TreeRowKind::Group
                    && key_of(w.rows[i].path) == key;
            assert(rows[i] == w.rows[i]);
        }
    }
}

proof fn lemma_with_groups(
    path: Seq<Seq<char>>,
    to: int,
    closed: Set<Seq<char>>,
    active: bool,
    w: Walk,
)
    requires
        0 <= to <= path.len(),
        well_formed_rows(w.rows, active),
        remembers(w),
    ensures
        well_formed_rows(with_groups(path, 0, to, closed, active, w).rows, active),
        remembers(with_groups(path, 0, to, closed, active, w)),
        to > 0 ==> with_groups(path, 0, to, closed, active, w).seen.contains(
            key_of(path.take(to)),
        ),
    decreases to,
{
    if to > 0 {
        lemma_with_groups(path, to - 1, closed, active, w);
        let before = with_groups(path, 0, to - 1, closed, active, w);
        let after = with_groups(path, 0, to, closed, active, w);
        let group = path.take(to);
        let row = group_row(group, active, is_open(group, closed, active));
        assert(group.drop_last() =~= path.take(to - 1));
        if !before.seen.contains(key_of(group)) {
            lemma_push_row(before, row, active);
            assert(after.rows[before.rows.len() as int] == row);
            assert forall|key: Seq<char>| #[trigger] after.seen.contains(key) implies exists|i: int|
                0 <= i < after.rows.len() && (#[trigger] after.rows[i]).kind == TreeRowKind::Group
                    && key_of(after.rows[i].path) == key by {
                if before.seen.contains(key) {
                    let i = choose|i: int|
                        0 <= i < before.rows.len() && (#[trigger] before.rows[i]).kind
                            == TreeRowKind::Group && key_of(before.rows[i].path) == key;
                    assert(after.rows[i] == before.rows[i]);
                }
            }
            assert forall|j: int|
                #![trigger after.rows[j]]
                0 <= j < after.rows.len() && after.rows[j].kind == TreeRowKind::Group implies after.seen.contains(
                key_of(after.rows[j].path),
            ) by {
                if j < before.rows.len() {
                    assert(after.rows[j] == before.rows[j]);
                }
            }
        } else {
            assert(after.seen =~= before.seen);
        }
    }
}

proof fn lemma_tree(hits: Seq<MatchView>, closed: Set<Seq<char>>, active: bool)
    ensures
        well_formed_rows(tree(hits, closed, active).rows, active),
        remembers(tree(hits, closed, active)),
    decreases hits.len(),
{
    if hits.len() > 0 {
        let before = tree(hits.drop_last(), closed, active);
        lemma_tree(hits.drop_last(), closed, active);
        let hit = hits.last();
        let path = group_path(hit.item);
        lemma_shown_groups(path, 0, closed, active);
        let n = shown_groups(path, 0, closed, active);
        lemma_with_groups(path, n, closed, active, before);
        if all_open(path, closed, active) {
            let w = with_groups(path, 0, n, closed, active, before);
            assert(item_row(hit).path.drop_last() =~= path);
            assert(path.take(path.len() as int) =~= path);
            lemma_push_row(w, item_row(hit), active);
            let after = tree(hits, closed, active);
            assert forall|key: Seq<char>| #[trigger] after.seen.contains(key) implies exists|i: int|
                0 <= i < after.rows.len() && (#[trigger] after.rows[i]).kind == TreeRowKind::Group
                    && key_of(after.rows[i].path) == key by {
                let i = choose|i: int|
                    0 <= i < w.rows.len() && (#[trigger] w.rows[i]).kind == TreeRowKind::Group
                        && key_of(w.rows[i].path) == key;
                assert(after.rows[i] == w.rows[i]);
            }
            assert forall|j: int|
                #![trigger after.rows[j]]
                0 <= j < after.rows.len() && after.rows[j].kind == TreeRowKind::Group implies after.seen.contains(
                key_of(after.rows[j].path),
            ) by {
                assert(after.rows[j] == w.rows[j]);
            }
        }
    }
}

/// In a tree each row is of its kind's shape, no group is listed twice, and
/// every row comes after the group that it stands below.
pub proof fn law_tree_is_well_formed(hits: Seq<MatchView>, closed: Set<Seq<char>>, active: bool)
    ensures
        well_formed_rows(tree_rows(hits, closed, active), active),
{
    lemma_tree(hits, closed, active);
}

/// Whether a row is that of the group of `n` segments above a match, whose own
/// groups are open.
pub open spec fn is_group_of(
    row: TreeRowView,
    hit: MatchView,
    n: int,
    closed: Set<Seq<char>>,
    active: bool,
) -> bool {
    let path = group_path(hit.item);
    &&& 0 < n <= path.len()
    &&& row == group_row(path.take(n), active, is_open(path.take(n), closed, active))
    &&& forall|k: int| 0 <= k < n - 1 ==> is_open(#[trigger] path.take(k + 1), closed, active)
}

/// Walking down a path adds the rows of groups of the path behind those that
/// are there.
proof fn lemma_grown(
    hit: MatchView,
    to: int,
    closed: Set<Seq<char>>,
    active: bool,
    w: Walk,
    j: int,
)
    requires
        0 <= to <= shown_groups(group_path(hit.item), 0, closed, active),
    ensures
        ({
            let after = with_groups(group_path(hit.item), 0, to, closed, active, w);
            &&& w.rows.len() <= after.rows.len()
            &&& 0 <= j < w.rows.len() ==> after.rows[j] == w.rows[j]
            &&& w.rows.len() <= j < after.rows.len() ==> exists|n: int|
                #[trigger] is_group_of(after.rows[j], hit, n, closed, active)
        }),
    decreases to,
{
    let path = group_path(hit.item);
    lemma_shown_groups(path, 0, closed, active);
    if to > 0 {
        lemma_grown(hit, to - 1, closed, active, w, j);
        let before = with_groups(path, 0, to - 1, closed, active, w);
        let after = with_groups(path, 0, to, closed, active, w);
        if j == before.rows.len() && j < after.rows.len() {
            assert(is_group_of(after.rows[j], hit, to, closed, active));
        }
    }
}

/// A row of the tree is the row of a match, or of a group above one.
pub proof fn lemma_row_origin(hits: Seq<MatchView>, closed: Set<Seq<char>>, active: bool, j: int)
    requires
        0 <= j < tree_rows(hits, closed, active).len(),
    ensures
        ({
            let row = tree_rows(hits, closed, active)[j];
            match row.kind {
                TreeRowKind::Group => exists|i: int, n: int|
                    0 <= i < hits.len() && #[trigger] is_group_of(row, hits[i], n, closed, active),
                TreeRowKind::Item => exists|i: int|
                    0 <= i < hits.len() && row == #[trigger] item_row(hits[i]),
            }
        }),
    decreases hits.len(),
{
    if hits.len() > 0 {
        let before = hits.drop_last();
        let start = tree(before, closed, active);
        let hit = hits.last();
        let path = group_path(hit.item);
        let to = shown_groups(path, 0, closed, active);
        let w = with_groups(path, 0, to, closed, active, start);
        let row = tree_rows(hits, closed, active)[j];
        assert(hits[hits.len() - 1] == hit);
        lemma_shown_groups(path, 0, closed, active);
        lemma_grown(hit, to, closed, active, start, j);
        if j < start.rows.len() {
            lemma_row_origin(before, closed, active, j);
            if row.kind == TreeRowKind::Item {
                let i = choose|i: int| 0 <= i < before.len() && row == #[trigger] item_row(before[i]);
                assert(row == item_row(hits[i]));
            } else {
                let (i, n) = choose|i: int, n: int|
                    0 <= i < before.len() && #[trigger] is_group_of(row, before[i], n, closed, active);
                assert(is_group_of(row, hits[i], n, closed, active));
            }
        } else if j < w.rows.len() {
            let n = choose|n: int| #[trigger] is_group_of(row, hit, n, closed, active);
            assert(is_group_of(row, hits[hits.len() - 1], n, closed, active));
        } else {
            assert(row == item_row(hits[hits.len() - 1]));
        }
    }
}

/// A match whose groups are all open has a row in the tree.
pub proof fn lemma_match_has_a_row(
    hits: Seq<MatchView>,
    closed: Set<Seq<char>>,
    active: bool,
    i: int,
)
    requires
        0 <= i < hits.len(),
        all_open(group_path(hits[i].item), closed, active),
    ensures
        exists|j: int|
            0 <= j < tree_rows(hits, closed, active).len() && #[trigger] tree_rows(
                hits,
                closed,
                active,
            )[j] == item_row(hits[i]),
    decreases hits.len(),
{
    let before = hits.drop_last();
    let start = tree(before, closed, active);
    let hit = hits.last();
    let path = group_path(hit.item);
    let to = shown_groups(path, 0, closed, active);
    let rows = tree_rows(hits, closed, active);
    lemma_shown_groups(path, 0, closed, active);
    if i < before.len() {
        lemma_match_has_a_row(before, closed, active, i);
        let j = choose|j: int|
            0 <= j < start.rows.len() && #[trigger] start.rows[j] == item_row(before[i]);
        lemma_grown(hit, to, closed, active, start, j);
        assert(rows[j] == item_row(hits[i]));
    } else {
        assert(rows[rows.len() - 1] == item_row(hits[i]));
    }
}

/// A row stands one segment deeper than it has groups above it, and is labelled
/// by the last segment.
pub proof fn law_depth_and_label_follow_the_path(
    hits: Seq<MatchView>,
    closed: Set<Seq<char>>,
    active: bool,
    j: int,
)
    requires
        0 <= j < tree_rows(hits, closed, active).len(),
    ensures
        ({
            let row = tree_rows(hits, closed, active)[j];
            row.path.len() == row.depth + 1 && row.label == row.path.last()
        }),
{
    lemma_row_origin(hits, closed, active, j);
}

/// Whether no segment of a path holds the separator of keys.
pub open spec fn unparted(path: Seq<Seq<char>>) -> bool {
    forall|i: int| 0 <= i < path.len() ==> !(#[trigger] path[i]).contains('\u{1f}')
}

/// Two texts parted at their last separator have the same two parts.
proof fn lemma_last_part(a: Seq<char>, u: Seq<char>, b: Seq<char>, v: Seq<char>, c: char)
    requires
        a + seq![c] + u == b + seq![c] + v,
        !u.contains(c),
        !v.contains(c),
    ensures
        a == b,
        u == v,
{
    let s = a + seq![c] + u;
    assert(s[a.len() as int] == c);
    assert(s[b.len() as int] == c) by {
        assert((b + seq![c] + v)[b.len() as int] == c);
    }
    assert(a.len() == b.len()) by {
        let x = a + seq![c];
        let y = b + seq![c];
        assert(s.len() == x.len() + u.len() && s.len() == y.len() + v.len());
        if a.len() < b.len() {
            assert((x + u)[b.len() as int] == u[b.len() - x.len()]);
        }
        if b.len() < a.len() {
            assert((y + v)[a.len() as int] == v[a.len() - y.len()]);
        }
    }
    let at = a.len() as int;
    assert(a =~= s.take(at) && b =~= s.take(at));
    assert(u =~= s.skip(at + 1) && v =~= s.skip(at + 1));
}

/// A key tells paths apart whose segments do not hold the separator.
proof fn lemma_keys_tell_apart(a: Seq<Seq<char>>, b: Seq<Seq<char>>)
    requires
        a.len() > 0,
        b.len() > 0,
        unparted(a),
        unparted(b),
        key_of(a) == key_of(b),
    ensures
        a == b,
    decreases a.len(),
{
    let c = '\u{1f}';
    reveal_strlit("\u{1f}");
    assert("\u{1f}"@ =~= seq![c]);
    assert(!a[a.len() - 1].contains(c) && !b[b.len() - 1].contains(c));
    if a.len() == 1 && b.len() == 1 {
        assert(a =~= b);
    } else if a.len() == 1 {
        let head = key_of(b.drop_last());
        assert(key_of(b) == head + seq![c] + b.last());
        assert(key_of(b)[head.len() as int] == c);
        assert(a[0].contains(c));
    } else if b.len() == 1 {
        let head = key_of(a.drop_last());
        assert(key_of(a) == head + seq![c] + a.last());
        assert(key_of(a)[head.len() as int] == c);
        assert(b[0].contains(c));
    } else {
        let x = a.drop_last();
        let y = b.drop_last();
        assert(key_of(a) == key_of(x) + seq![c] + a.last());
        assert(key_of(b) == key_of(y) + seq![c] + b.last());
        lemma_last_part(key_of(x), a.last(), key_of(y), b.last(), c);
        assert forall|i: int| 0 <= i < x.len() implies !(#[trigger] x[i]).contains(c) by {
            assert(x[i] == a[i]);
        }
        assert forall|i: int| 0 <= i < y.len() implies !(#[trigger] y[i]).contains(c) by {
            assert(y[i] == b[i]);
        }
        lemma_keys_tell_apart(x, y);
        assert(a =~= x.push(a.last()));
        assert(b =~= y.push(b.last()));
    }
}

/// The groups above a row have segments that do not hold the separator, where
/// those of the matches do not.
proof fn lemma_groups_are_unparted(
    hits: Seq<MatchView>,
    closed: Set<Seq<char>>,
    active: bool,
    j: int,
)
    requires
        forall|i: int| 0 <= i < hits.len() ==> unparted(group_path((#[trigger] hits[i]).item)),
        0 <= j < tree_rows(hits, closed, active).len(),
    ensures
        tree_rows(hits, closed, active)[j].path.len() > 0,
        unparted(tree_rows(hits, closed, active)[j].path.drop_last()),
        tree_rows(hits, closed, active)[j].kind == TreeRowKind::Group ==> unparted(
            tree_rows(hits, closed, active)[j].path,
        ),
{
    let row = tree_rows(hits, closed, active)[j];
    lemma_row_origin(hits, closed, active, j);
    if row.kind == TreeRowKind::Group {
        let (i, n) = choose|i: int, n: int|
            0 <= i < hits.len() && #[trigger] is_group_of(row, hits[i], n, closed, active);
        let path = group_path(hits[i].item);
        assert forall|k: int| 0 <= k < row.path.len() implies !(#[trigger] row.path[k]).contains(
            '\u{1f}',
        ) by {
            assert(row.path[k] == path[k]);
        }
        assert forall|k: int| 0 <= k < row.path.drop_last().len() implies !(
        #[trigger] row.path.drop_last()[k]).contains('\u{1f}') by {
            assert(row.path.drop_last()[k] == path[k]);
        }
    } else {
        let i = choose|i: int| 0 <= i < hits.len() && row == #[trigger] item_row(hits[i]);
        assert(row.path.drop_last() =~= group_path(hits[i].item));
    }
}

/// Where no segment holds the separator of keys, the groups of a tree have
/// distinct paths, and of every row's path each beginning is the path of a group
/// further up.
pub proof fn law_groups_are_told_apart_by_path(
    hits: Seq<MatchView>,
    closed: Set<Seq<char>>,
    active: bool,
)
    requires
        forall|i: int| 0 <= i < hits.len() ==> unparted(group_path((#[trigger] hits[i]).item)),
    ensures
        ({
            let rows = tree_rows(hits, closed, active);
            &&& forall|i: int, j: int|
                #![trigger rows[i], rows[j]]
                0 <= i < j < rows.len() && rows[i].kind == TreeRowKind::Group && rows[j].kind
                    == TreeRowKind::Group ==> rows[i].path != rows[j].path
            &&& forall|j: int, n: int|
                0 <= j < rows.len() && 0 < n < rows[j].path.len() ==> lists_before(
                    rows,
                    j,
                    #[trigger] rows[j].path.take(n),
                )
        }),
{
    let rows = tree_rows(hits, closed, active);
    law_tree_is_well_formed(hits, closed, active);
    assert forall|j: int, n: int| 0 <= j < rows.len() && 0 < n < rows[j].path.len() implies lists_before(
        rows,
        j,
        #[trigger] rows[j].path.take(n),
    ) by {
        lemma_beginnings_are_listed(hits, closed, active, j, n);
    }
}

/// Whether a row before `j` is that of the group `path`.
pub open spec fn lists_before(rows: Seq<TreeRowView>, j: int, path: Seq<Seq<char>>) -> bool {
    exists|i: int|
        0 <= i < j && (#[trigger] rows[i]).kind == TreeRowKind::Group && rows[i].path == path
}

proof fn lemma_beginnings_are_listed(
    hits: Seq<MatchView>,
    closed: Set<Seq<char>>,
    active: bool,
    j: int,
    n: int,
)
    requires
        forall|i: int| 0 <= i < hits.len() ==> unparted(group_path((#[trigger] hits[i]).item)),
        0 <= j < tree_rows(hits, closed, active).len(),
        0 < n < tree_rows(hits, closed, active)[j].path.len(),
    ensures
        lists_before(
            tree_rows(hits, closed, active),
            j,
            tree_rows(hits, closed, active)[j].path.take(n),
        ),
    decreases j,
{
    let rows = tree_rows(hits, closed, active);
    let path = rows[j].path;
    law_tree_is_well_formed(hits, closed, active);
    assert(has_parent(rows, j));
    let i = choose|i: int|
        0 <= i < j && (#[trigger] rows[i]).kind == TreeRowKind::Group && key_of(rows[i].path)
            == key_of(path.drop_last());
    lemma_groups_are_unparted(hits, closed, active, i);
    lemma_groups_are_unparted(hits, closed, active, j);
    lemma_keys_tell_apart(rows[i].path, path.drop_last());
    if n == path.len() - 1 {
        assert(path.take(n) =~= path.drop_last());
    } else {
        lemma_beginnings_are_listed(hits, closed, active, i, n);
        assert(rows[i].path.take(n) =~= path.take(n));
        let k = choose|k: int|
            0 <= k < i && (#[trigger] rows[k]).kind == TreeRowKind::Group && rows[k].path
                == path.take(n);
        assert(0 <= k < j);
    }
}

/// The items among the rows, in order, as the matches that they stand for.
pub open spec fn leaves(rows: Seq<TreeRowView>) -> Seq<MatchView>
    decreases rows.len(),
{
    if rows.len() == 0 {
        Seq::empty()
    } else {
        match rows.last().item {
            Some(item) => leaves(rows.drop_last()).push(
                MatchView { item, score: rows.last().score },
            ),
            None => leaves(rows.drop_last()),
        }
    }
}

proof fn lemma_groups_are_no_leaves(
    path: Seq<Seq<char>>,
    to: int,
    closed: Set<Seq<char>>,
    active: bool,
    w: Walk,
)
    requires
        0 <= to,
    ensures
        leaves(with_groups(path, 0, to, closed, active, w).rows) == leaves(w.rows),
    decreases to,
{
    if to > 0 {
        lemma_groups_are_no_leaves(path, to - 1, closed, active, w);
        let before = with_groups(path, 0, to - 1, closed, active, w);
        let group = path.take(to);
        let row = group_row(group, active, is_open(group, closed, active));
        assert(before.rows.push(row).drop_last() =~= before.rows);
        assert(before.rows.push(row).last() == row);
    }
}

/// The matches that stand below open groups only.
pub open spec fn unhidden(hits: Seq<MatchView>, closed: Set<Seq<char>>, active: bool) -> Seq<
    MatchView,
>
    decreases hits.len(),
{
    if hits.len() == 0 {
        Seq::empty()
    } else if all_open(group_path(hits.last().item), closed, active) {
        unhidden(hits.drop_last(), closed, active).push(hits.last())
    } else {
        unhidden(hits.drop_last(), closed, active)
    }
}

/// A tree shows the matches below open groups, and no other, in their order.
pub proof fn law_leaves_are_the_unhidden_matches(
    hits: Seq<MatchView>,
    closed: Set<Seq<char>>,
    active: bool,
)
    ensures
        leaves(tree_rows(hits, closed, active)) == unhidden(hits, closed, active),
    decreases hits.len(),
{
    if hits.len() > 0 {
        law_leaves_are_the_unhidden_matches(hits.drop_last(), closed, active);
        let before = tree(hits.drop_last(), closed, active);
        let hit = hits.last();
        let path = group_path(hit.item);
        let n = shown_groups(path, 0, closed, active);
        lemma_shown_groups(path, 0, closed, active);
        lemma_groups_are_no_leaves(path, n, closed, active, before);
        let w = with_groups(path, 0, n, closed, active, before);
        assert(w.rows.push(item_row(hit)).drop_last() =~= w.rows);
        assert(w.rows.push(item_row(hit)).last() == item_row(hit));
    }
}

/// While a query is active, and while no group is closed, a tree shows every
/// match.
pub proof fn law_open_tree_shows_every_match(
    hits: Seq<MatchView>,
    closed: Set<Seq<char>>,
    active: bool,
)
    requires
        active || closed == Set::<Seq<char>>::empty(),
    ensures
        leaves(tree_rows(hits, closed, active)) == hits,
    decreases hits.len(),
{
    law_leaves_are_the_unhidden_matches(hits, closed, active);
    if hits.len() > 0 {
        law_open_tree_shows_every_match(hits.drop_last(), closed, active);
        law_leaves_are_the_unhidden_matches(hits.drop_last(), closed, active);
        assert(hits.drop_last().push(hits.last()) =~= hits);
    }
}

/// The key of a group is longer than that of any group above it.
proof fn lemma_key_grows(path: Seq<Seq<char>>, i: int, j: int)
    requires
        1 <= i < j <= path.len(),
    ensures
        key_of(path.take(i)).len() < key_of(path.take(j)).len(),
    decreases j - i,
{
    reveal_strlit("\u{1f}");
    assert(path.take(j).drop_last() =~= path.take(j - 1));
    if i < j - 1 {
        lemma_key_grows(path, i, j - 1);
    }
}

/// Whether one of the first `n` groups of a path has the key `key`.
spec fn passes(path: Seq<Seq<char>>, n: int, key: Seq<char>) -> bool {
    exists|m: int| 0 < m <= n && key_of(#[trigger] path.take(m)) == key
}

/// Whether the rows hold a group of that path.
pub open spec fn lists_group(rows: Seq<TreeRowView>, path: Seq<Seq<char>>) -> bool {
    exists|i: int|
        0 <= i < rows.len() && (#[trigger] rows[i]).kind == TreeRowKind::Group && rows[i].path
            == path
}

proof fn lemma_listed_stays(rows: Seq<TreeRowView>, row: TreeRowView, path: Seq<Seq<char>>)
    ensures
        lists_group(rows, path) ==> lists_group(rows.push(row), path),
        row.kind == TreeRowKind::Group && row.path == path ==> lists_group(rows.push(row), path),
        lists_group(rows.push(row), path) ==> lists_group(rows, path) || (row.kind
            == TreeRowKind::Group && row.path == path),
{
    let all = rows.push(row);
    if lists_group(rows, path) {
        let i = choose|i: int|
            0 <= i < rows.len() && (#[trigger] rows[i]).kind == TreeRowKind::Group && rows[i].path
                == path;
        assert(all[i] == rows[i]);
    }
    assert(all[rows.len() as int] == row);
    if lists_group(all, path) {
        let i = choose|i: int|
            0 <= i < all.len() && (#[trigger] all[i]).kind == TreeRowKind::Group && all[i].path
                == path;
        if i < rows.len() {
            assert(rows[i] == all[i]);
        }
    }
}

/// What walking down the first `n` groups of a path does to a group `p`.
proof fn lemma_groups_and_key(
    path: Seq<Seq<char>>,
    n: int,
    closed: Set<Seq<char>>,
    active: bool,
    w: Walk,
    p: Seq<Seq<char>>,
)
    requires
        0 <= n <= path.len(),
    ensures
        ({
            let after = with_groups(path, 0, n, closed, active, w);
            &&& after.seen.contains(key_of(p)) <==> w.seen.contains(key_of(p)) || passes(
                path,
                n,
                key_of(p),
            )
            &&& lists_group(after.rows, p) <==> lists_group(w.rows, p) || (!w.seen.contains(
                key_of(p),
            ) && exists|m: int| 0 < m <= n && #[trigger] path.take(m) == p)
        }),
    decreases n,
{
    let key = key_of(p);
    let after = with_groups(path, 0, n, closed, active, w);
    if n > 0 {
        lemma_groups_and_key(path, n - 1, closed, active, w, p);
        let before = with_groups(path, 0, n - 1, closed, active, w);
        let group = path.take(n);
        let row = group_row(group, active, is_open(group, closed, active));
        lemma_listed_stays(before.rows, row, p);
        if passes(path, n - 1, key) {
            let m = choose|m: int| 0 < m <= n - 1 && key_of(#[trigger] path.take(m)) == key;
            lemma_key_grows(path, m, n);
            assert(passes(path, n, key));
        }
        if key_of(group) == key {
            assert(passes(path, n, key));
        }
        if passes(path, n, key) && !passes(path, n - 1, key) {
            let m = choose|m: int| 0 < m <= n && key_of(#[trigger] path.take(m)) == key;
            assert(m == n);
        }
        if exists|m: int| 0 < m <= n && #[trigger] path.take(m) == p {
            let m = choose|m: int| 0 < m <= n && #[trigger] path.take(m) == p;
            if m == n && passes(path, n - 1, key) {
                let l = choose|l: int| 0 < l <= n - 1 && key_of(#[trigger] path.take(l)) == key;
                lemma_key_grows(path, l, n);
            }
        }
    }
}

/// Closing a group changes nothing about which path of its key is listed.
proof fn lemma_closing_keeps_group(hits: Seq<MatchView>, closed: Set<Seq<char>>, p: Seq<Seq<char>>)
    ensures
        tree(hits, closed, false).seen.contains(key_of(p)) <==> tree(
            hits,
            closed.insert(key_of(p)),
            false,
        ).seen.contains(key_of(p)),
        lists_group(tree_rows(hits, closed, false), p) <==> lists_group(
            tree_rows(hits, closed.insert(key_of(p)), false),
            p,
        ),
    decreases hits.len(),
{
    if hits.len() > 0 {
        let key = key_of(p);
        let more = closed.insert(key);
        lemma_closing_keeps_group(hits.drop_last(), closed, p);
        let w1 = tree(hits.drop_last(), closed, false);
        let w2 = tree(hits.drop_last(), more, false);
        let hit = hits.last();
        let path = group_path(hit.item);
        lemma_shown_groups(path, 0, closed, false);
        lemma_shown_groups(path, 0, more, false);
        let n1 = shown_groups(path, 0, closed, false);
        let n2 = shown_groups(path, 0, more, false);
        lemma_groups_and_key(path, n1, closed, false, w1, p);
        lemma_groups_and_key(path, n2, more, false, w2, p);
        lemma_reach(path, closed, key);
        assert forall|m: int| 0 < m <= path.len() && key_of(#[trigger] path.take(m)) == key implies (m
            <= n1 <==> m <= n2) by {}
        if passes(path, n1, key) {
            let m = choose|m: int| 0 < m <= n1 && key_of(#[trigger] path.take(m)) == key;
            assert(m <= n2);
        }
        if passes(path, n2, key) {
            let m = choose|m: int| 0 < m <= n2 && key_of(#[trigger] path.take(m)) == key;
            assert(m <= n1);
        }
        if exists|m: int| 0 < m <= n1 && #[trigger] path.take(m) == p {
            let m = choose|m: int| 0 < m <= n1 && #[trigger] path.take(m) == p;
            assert(m <= n2);
        }
        if exists|m: int| 0 < m <= n2 && #[trigger] path.take(m) == p {
            let m = choose|m: int| 0 < m <= n2 && #[trigger] path.take(m) == p;
            assert(m <= n1);
        }
        lemma_listed_stays(with_groups(path, 0, n1, closed, false, w1).rows, item_row(hit), p);
        lemma_listed_stays(with_groups(path, 0, n2, more, false, w2).rows, item_row(hit), p);
    }
}

/// Closing the groups of a key does not change whether one of them is on show.
proof fn lemma_reach(path: Seq<Seq<char>>, closed: Set<Seq<char>>, key: Seq<char>)
    ensures
        forall|m: int|
            0 < m <= path.len() && key_of(#[trigger] path.take(m)) == key ==> (m <= shown_groups(
                path,
                0,
                closed,
                false,
            ) <==> m <= shown_groups(path, 0, closed.insert(key), false)),
{
    let more = closed.insert(key);
    lemma_shown_groups(path, 0, closed, false);
    lemma_shown_groups(path, 0, more, false);
    let n1 = shown_groups(path, 0, closed, false);
    let n2 = shown_groups(path, 0, more, false);
    assert forall|m: int| 0 < m <= path.len() && key_of(#[trigger] path.take(m)) == key implies (m
        <= n1 <==> m <= n2) by {
        if m <= n1 && n2 < m {
            assert(!all_open(path, more, false));
            assert(!is_open(path.take(n2), more, false));
            lemma_key_grows(path, n2, m);
            assert(!is_open(path.take(n2), closed, false));
            assert(is_open(path.take((n2 - 1) + 1), closed, false));
        }
        if m <= n2 && n1 < m {
            assert(!all_open(path, closed, false));
            assert(!is_open(path.take(n1), closed, false));
            assert(!is_open(path.take(n1), more, false));
            assert(is_open(path.take((n1 - 1) + 1), more, false));
        }
    }
}

/// Closing or opening a group leaves the group itself on show.
pub proof fn law_closing_a_group_keeps_its_row(
    hits: Seq<MatchView>,
    closed: Set<Seq<char>>,
    p: Seq<Seq<char>>,
)
    ensures
        lists_group(tree_rows(hits, closed, false), p) <==> lists_group(
            tree_rows(hits, closed.insert(key_of(p)), false),
            p,
        ),
        lists_group(tree_rows(hits, closed, false), p) <==> lists_group(
            tree_rows(hits, closed.remove(key_of(p)), false),
            p,
        ),
{
    lemma_closing_keeps_group(hits, closed, p);
    let key = key_of(p);
    if closed.contains(key) {
        lemma_closing_keeps_group(hits, closed.remove(key), p);
        assert(closed.remove(key).insert(key) =~= closed);
    } else {
        assert(closed.remove(key) =~= closed);
    }
}

/// A query shows the same tree whatever groups are closed.
pub proof fn law_query_ignores_closed_groups(
    hits: Seq<MatchView>,
    one: Set<Seq<char>>,
    other: Set<Seq<char>>,
)
    ensures
        tree(hits, one, true) == tree(hits, other, true),
    decreases hits.len(),
{
    if hits.len() > 0 {
        law_query_ignores_closed_groups(hits.drop_last(), one, other);
        let path = group_path(hits.last().item);
        lemma_shown_groups(path, 0, one, true);
        lemma_shown_groups(path, 0, other, true);
        let n = path.len() as int;
        lemma_groups_ignore_closed(path, n, one, other, tree(hits.drop_last(), one, true));
    }
}

proof fn lemma_groups_ignore_closed(
    path: Seq<Seq<char>>,
    n: int,
    one: Set<Seq<char>>,
    other: Set<Seq<char>>,
    w: Walk,
)
    requires
        0 <= n,
    ensures
        with_groups(path, 0, n, one, true, w) == with_groups(path, 0, n, other, true, w),
    decreases n,
{
    if n > 0 {
        lemma_groups_ignore_closed(path, n - 1, one, other, w);
    }
}

/// Without a query every row of a tree can be selected.
pub proof fn law_every_row_is_selectable(hits: Seq<MatchView>, closed: Set<Seq<char>>)
    ensures
        selectable(tree_rows(hits, closed, false)) == tree_rows(hits, closed, false),
{
    law_tree_is_well_formed(hits, closed, false);
    lemma_all_selectable(tree_rows(hits, closed, false));
}

proof fn lemma_all_selectable(rows: Seq<TreeRowView>)
    requires
        forall|j: int| 0 <= j < rows.len() ==> well_shaped(#[trigger] rows[j], false),
    ensures
        selectable(rows) == rows,
    decreases rows.len(),
{
    if rows.len() > 0 {
        assert(well_shaped(rows[rows.len() - 1], false));
        assert forall|j: int| 0 <= j < rows.drop_last().len() implies well_shaped(
            #[trigger] rows.drop_last()[j],
            false,
        ) by {
            assert(rows.drop_last()[j] == rows[j]);
        }
        lemma_all_selectable(rows.drop_last());
        assert(rows.drop_last().push(rows.last()) =~= rows);
    }
}

/// A walk has one row for each group that it remembers, and one for each leaf.
spec fn counted(w: Walk) -> bool {
    w.seen.finite() && w.rows.len() == w.seen.len() + leaves(w.rows).len()
}

proof fn lemma_counted(hits: Seq<MatchView>, closed: Set<Seq<char>>, active: bool)
    ensures
        counted(tree(hits, closed, active)),
    decreases hits.len(),
{
    if hits.len() > 0 {
        lemma_counted(hits.drop_last(), closed, active);
        let hit = hits.last();
        let path = group_path(hit.item);
        lemma_shown_groups(path, 0, closed, active);
        let n = shown_groups(path, 0, closed, active);
        let before = tree(hits.drop_last(), closed, active);
        lemma_groups_counted(path, n, closed, active, before);
        let w = with_groups(path, 0, n, closed, active, before);
        assert(w.rows.push(item_row(hit)).drop_last() =~= w.rows);
        assert(w.rows.push(item_row(hit)).last() == item_row(hit));
    }
}

proof fn lemma_groups_counted(
    path: Seq<Seq<char>>,
    n: int,
    closed: Set<Seq<char>>,
    active: bool,
    w: Walk,
)
    requires
        0 <= n,
        counted(w),
    ensures
        counted(with_groups(path, 0, n, closed, active, w)),
    decreases n,
{
    if n > 0 {
        lemma_groups_counted(path, n - 1, closed, active, w);
        let before = with_groups(path, 0, n - 1, closed, active, w);
        let group = path.take(n);
        let row = group_row(group, active, is_open(group, closed, active));
        assert(before.rows.push(row).drop_last() =~= before.rows);
        assert(before.rows.push(row).last() == row);
        if before.seen.contains(key_of(group)) {
            assert(before.seen.insert(key_of(group)) =~= before.seen);
        }
    }
}

/// With fewer groups closed, a walk remembers at least as many groups, and at
/// least as many matches are on show.
proof fn lemma_fewer_closed(hits: Seq<MatchView>, fewer: Set<Seq<char>>, more: Set<Seq<char>>)
    requires
        fewer.subset_of(more),
    ensures
        tree(hits, more, false).seen.subset_of(tree(hits, fewer, false).seen),
        unhidden(hits, more, false).len() <= unhidden(hits, fewer, false).len(),
    decreases hits.len(),
{
    if hits.len() > 0 {
        lemma_fewer_closed(hits.drop_last(), fewer, more);
        let path = group_path(hits.last().item);
        let w1 = tree(hits.drop_last(), fewer, false);
        let w2 = tree(hits.drop_last(), more, false);
        lemma_shown_groups(path, 0, fewer, false);
        lemma_shown_groups(path, 0, more, false);
        let n1 = shown_groups(path, 0, fewer, false);
        let n2 = shown_groups(path, 0, more, false);
        if n1 < n2 {
            assert(!is_open(path.take(n1), fewer, false));
            assert(is_open(path.take((n1 - 1) + 1), more, false));
        }
        if all_open(path, more, false) {
            assert forall|k: int| 0 <= k < path.len() implies is_open(
                #[trigger] path.take(k + 1),
                fewer,
                false,
            ) by {
                assert(is_open(path.take(k + 1), more, false));
            }
        }
        let after1 = with_groups(path, 0, n1, fewer, false, w1);
        let after2 = with_groups(path, 0, n2, more, false, w2);
        assert forall|key: Seq<char>| after2.seen.contains(key) implies after1.seen.contains(
            key,
        ) by {
            let p = seq![key];
            assert(p.drop_last() =~= Seq::empty());
            assert(key_of(p) =~= key);
            lemma_groups_and_key(path, n1, fewer, false, w1, p);
            lemma_groups_and_key(path, n2, more, false, w2, p);
            if passes(path, n2, key) {
                let m = choose|m: int| 0 < m <= n2 && key_of(#[trigger] path.take(m)) == key;
                assert(0 < m <= n1);
                assert(passes(path, n1, key));
            }
        }
    }
}

/// Opening groups never takes rows away.
pub proof fn law_opening_groups_adds_rows(
    hits: Seq<MatchView>,
    fewer: Set<Seq<char>>,
    more: Set<Seq<char>>,
)
    requires
        fewer.subset_of(more),
    ensures
        tree_rows(hits, more, false).len() <= tree_rows(hits, fewer, false).len(),
{
    lemma_counted(hits, fewer, false);
    lemma_counted(hits, more, false);
    lemma_fewer_closed(hits, fewer, more);
    law_leaves_are_the_unhidden_matches(hits, fewer, false);
    law_leaves_are_the_unhidden_matches(hits, more, false);
    vstd::set_lib::lemma_len_subset(tree(hits, more, false).seen, tree(hits, fewer, false).seen);
}

/// An item's row stands below the groups of the item, which are its own or that
/// of its kind, under its title, and carries its score.
pub proof fn law_item_rows_stand_below_their_groups(hit: MatchView)
    ensures
        ({
            let row = item_row(hit);
            &&& row.kind == TreeRowKind::Item
            &&& row.item == Some(hit.item) && row.score == hit.score
            &&& row.label == hit.item.title && row.path.last() == hit.item.title
            &&& hit.item.tree_path.len() > 0 ==> row.path.drop_last() == hit.item.tree_path
            &&& hit.item.tree_path.len() == 0 ==> row.path.drop_last() == seq![
                hit.item.kind.label(),
            ]
            &&& row.selectable && !row.context_only
        }),
{
    let row = item_row(hit);
    assert(row.path.drop_last() =~= group_path(hit.item));
}

/// A group is shown open exactly if there is a query or its key is not among
/// the closed ones, where the key is its path, joined.
pub proof fn law_groups_are_shown_open_or_closed(
    hits: Seq<MatchView>,
    closed: Set<Seq<char>>,
    active: bool,
    j: int,
)
    requires
        0 <= j < tree_rows(hits, closed, active).len(),
        tree_rows(hits, closed, active)[j].kind == TreeRowKind::Group,
    ensures
        ({
            let row = tree_rows(hits, closed, active)[j];
            let key = text::joined(row.path, "\u{1f}"@);
            &&& row.expanded <==> active || !closed.contains(key)
            &&& row.item is None && row.score is None
            &&& row.selectable <==> !active
            &&& row.context_only <==> active
        }),
{
    lemma_row_origin(hits, closed, active, j);
}

/// A match more leaves the rows as they are. What it adds behind them is its own
/// row, as the last, exactly if there is a query or none of its groups is
/// closed, and before that rows of its groups.
pub proof fn law_matches_add_their_rows_behind(
    hits: Seq<MatchView>,
    hit: MatchView,
    closed: Set<Seq<char>>,
    active: bool,
)
    ensures
        ({
            let before = tree_rows(hits, closed, active);
            let after = tree_rows(hits.push(hit), closed, active);
            let path = group_path(hit.item);
            let open = active || forall|k: int|
                0 < k <= path.len() ==> !closed.contains(key_of(#[trigger] path.take(k)));
            let groups = if open {
                after.len() - 1
            } else {
                after.len() as int
            };
            &&& before.len() <= groups
            &&& after.take(before.len() as int) == before
            &&& open ==> after.last() == item_row(hit)
            &&& forall|j: int|
                before.len() <= j < groups ==> (#[trigger] after[j]).kind == TreeRowKind::Group
                    && 0 < after[j].path.len() <= path.len() && after[j].path == path.take(
                    after[j].path.len() as int,
                )
        }),
{
    let more = hits.push(hit);
    assert(more.drop_last() =~= hits);
    assert(more.last() == hit);
    let start = tree(hits, closed, active);
    let path = group_path(hit.item);
    let to = shown_groups(path, 0, closed, active);
    let w = with_groups(path, 0, to, closed, active, start);
    let after = tree_rows(more, closed, active);
    let before = start.rows;
    lemma_shown_groups(path, 0, closed, active);
    assert forall|j: int| 0 <= j < before.len() implies #[trigger] after[j] == before[j] by {
        lemma_grown(hit, to, closed, active, start, j);
    }
    lemma_grown(hit, to, closed, active, start, 0);
    assert(after.take(before.len() as int) =~= before);
    let open = active || forall|k: int|
        0 < k <= path.len() ==> !closed.contains(key_of(#[trigger] path.take(k)));
    assert(open <==> all_open(path, closed, active)) by {
        if open {
            assert forall|k: int| 0 <= k < path.len() implies is_open(
                #[trigger] path.take(k + 1),
                closed,
                active,
            ) by {}
        }
        if all_open(path, closed, active) && !active {
            assert forall|k: int| 0 < k <= path.len() implies !closed.contains(
                key_of(#[trigger] path.take(k)),
            ) by {
                assert(is_open(path.take((k - 1) + 1), closed, active));
            }
        }
    }
    assert forall|j: int| before.len() <= j < w.rows.len() implies (#[trigger] after[j]).kind
        == TreeRowKind::Group && 0 < after[j].path.len() <= path.len() && after[j].path
        == path.take(after[j].path.len() as int) by {
        lemma_grown(hit, to, closed, active, start, j);
        assert(after[j] == w.rows[j]);
    }
}

/// Each group above a match is on show where the groups further up are open.
pub proof fn law_groups_below_open_ones_are_shown(
    hits: Seq<MatchView>,
    closed: Set<Seq<char>>,
    active: bool,
    i: int,
    n: int,
)
    requires
        0 <= i < hits.len(),
        0 < n <= group_path(hits[i].item).len(),
        active || forall|k: int|
            0 < k < n ==> !closed.contains(key_of(#[trigger] group_path(hits[i].item).take(k))),
    ensures
        exists|j: int|
            0 <= j < tree_rows(hits, closed, active).len() && (#[trigger] tree_rows(
                hits,
                closed,
                active,
            )[j]).kind == TreeRowKind::Group && key_of(tree_rows(hits, closed, active)[j].path)
                == key_of(group_path(hits[i].item).take(n)),
    decreases hits.len(),
{
    let before = hits.drop_last();
    let start = tree(before, closed, active);
    let hit = hits.last();
    let path = group_path(hit.item);
    let to = shown_groups(path, 0, closed, active);
    let rows = tree_rows(hits, closed, active);
    lemma_shown_groups(path, 0, closed, active);
    if i < before.len() {
        assert(before[i] == hits[i]);
        law_groups_below_open_ones_are_shown(before, closed, active, i, n);
        let j = choose|j: int|
            0 <= j < start.rows.len() && (#[trigger] start.rows[j]).kind == TreeRowKind::Group
                && key_of(start.rows[j].path) == key_of(group_path(hits[i].item).take(n));
        lemma_grown(hit, to, closed, active, start, j);
        assert(rows[j] == start.rows[j]);
    } else {
        assert forall|k: int| 0 <= k < n - 1 implies is_open(
            #[trigger] path.take(k + 1),
            closed,
            active,
        ) by {
            if !active {
                assert(!closed.contains(key_of(path.take(k + 1))));
            }
        }
        lemma_shown_groups(path, n - 1, closed, active);
        assert(n <= to);
        lemma_tree(before, closed, active);
        lemma_seen_on_the_way(path, n, to, closed, active, start);
        let w = with_groups(path, 0, to, closed, active, start);
        lemma_with_groups(path, to, closed, active, start);
        let j = choose|j: int|
            0 <= j < w.rows.len() && (#[trigger] w.rows[j]).kind == TreeRowKind::Group && key_of(
                w.rows[j].path,
            ) == key_of(path.take(n));
        assert(rows[j] == w.rows[j]);
    }
}

proof fn lemma_seen_on_the_way(
    path: Seq<Seq<char>>,
    n: int,
    to: int,
    closed: Set<Seq<char>>,
    active: bool,
    w: Walk,
)
    requires
        0 < n <= to <= path.len(),
    ensures
        with_groups(path, 0, to, closed, active, w).seen.contains(key_of(path.take(n))),
    decreases to,
{
    if n < to {
        lemma_seen_on_the_way(path, n, to - 1, closed, active, w);
    }
}

/// The rows that can be selected are those that say so, in order.
pub proof fn law_selectable_rows_are_kept_in_order(rows: Seq<TreeRowView>, row: TreeRowView)
    ensures
        selectable(Seq::<TreeRowView>::empty()).len() == 0,
        row.selectable ==> selectable(rows.push(row)) == selectable(rows).push(row),
        !row.selectable ==> selectable(rows.push(row)) == selectable(rows),
{
    assert(rows.push(row).drop_last() =~= rows);
}

/// Items are recognised by kind, title and subtitle, all three.
pub proof fn law_items_are_recognised(a: ItemView, b: ItemView)
    ensures
        identity(a) == identity(b) <==> a.kind == b.kind && a.title == b.title && a.subtitle
            == b.subtitle,
{
}

/// A path stands below another exactly if it is that path and something more.
pub proof fn law_standing_below(path: Seq<Seq<char>>, above: Seq<Seq<char>>)
    ensures
        stands_below(path, above) <==> exists|more: Seq<Seq<char>>|
            more.len() > 0 && path == #[trigger] (above + more),
{
    if stands_below(path, above) {
        let more = path.skip(above.len() as int);
        assert(path =~= above + more);
    }
    if exists|more: Seq<Seq<char>>| more.len() > 0 && path == #[trigger] (above + more) {
        let more = choose|more: Seq<Seq<char>>| more.len() > 0 && path == #[trigger] (above + more);
        assert(path.take(above.len() as int) =~= above);
    }
}

/// The first row below a group is the first one whose path stands below it.
pub proof fn law_first_below_is_the_first(rows: Seq<TreeRowView>, above: Seq<Seq<char>>, i: int)
    requires
        0 <= i <= rows.len(),
        forall|j: int| 0 <= j < i ==> !stands_below((#[trigger] rows[j]).path, above),
        i < rows.len() ==> stands_below(rows[i].path, above),
    ensures
        first_below(rows, above) == if i < rows.len() {
            Some(rows[i])
        } else {
            None
        },
    decreases rows.len(),
{
    if rows.len() > 0 {
        let before = rows.drop_last();
        assert(rows[rows.len() - 1] == rows.last());
        let k = if i < before.len() {
            i
        } else {
            before.len() as int
        };
        assert forall|j: int| 0 <= j < k implies !stands_below((#[trigger] before[j]).path, above) by {
            assert(before[j] == rows[j]);
        }
        law_first_below_is_the_first(before, above, k);
    }
}

/// Of the rows that nothing outranks, the best one is the last.
pub proof fn law_best_row_is_the_last_of_equals(rows: Seq<TreeRowView>, i: int)
    requires
        best_row(rows) is Some,
        best_row(rows)->0 < i < rows.len(),
        rows[i].item is Some,
    ensures
        0 <= best_row(rows)->0,
        rows[best_row(rows)->0].item is Some,
        matching::rank_order(row_match(rows[best_row(rows)->0]), row_match(rows[i]))
            == Order::Greater,
    decreases rows.len(),
{
    let before = rows.drop_last();
    law_best_row_is_best(rows);
    law_best_row_is_best(before);
    if i < rows.len() - 1 {
        assert(before[i] == rows[i]);
        law_best_row_is_the_last_of_equals(before, i);
    }
}

/// A row is found by the first whose item is recognised.
pub proof fn law_rows_are_found_by_the_first(
    rows: Seq<TreeRowView>,
    id: (ItemKind, Seq<char>, Seq<char>),
    i: int,
)
    requires
        0 <= i <= rows.len(),
        forall|j: int|
            0 <= j < i ==> (#[trigger] rows[j]).item is None || identity(rows[j].item->0) != id,
        i < rows.len() ==> rows[i].item is Some && identity(rows[i].item->0) == id,
    ensures
        identity_position(rows, id) == if i < rows.len() {
            Some(i)
        } else {
            None
        },
    decreases rows.len(),
{
    if rows.len() > 0 {
        let before = rows.drop_last();
        assert(rows[rows.len() - 1] == rows.last());
        let k = if i < before.len() {
            i
        } else {
            before.len() as int
        };
        assert forall|j: int| 0 <= j < k implies (#[trigger] before[j]).item is None || identity(
            before[j].item->0,
        ) != id by {
            assert(before[j] == rows[j]);
        }
        law_rows_are_found_by_the_first(before, id, k);
    }
}

/// A path is found by the first row that has it.
pub proof fn law_paths_are_found_by_the_first(
    rows: Seq<TreeRowView>,
    path: Seq<Seq<char>>,
    i: int,
)
    requires
        0 <= i <= rows.len(),
        forall|j: int| 0 <= j < i ==> (#[trigger] rows[j]).path != path,
        i < rows.len() ==> rows[i].path == path,
    ensures
        path_position(rows, path) == if i < rows.len() {
            Some(i)
        } else {
            None
        },
    decreases rows.len(),
{
    if rows.len() > 0 {
        let before = rows.drop_last();
        assert(rows[rows.len() - 1] == rows.last());
        let k = if i < before.len() {
            i
        } else {
            before.len() as int
        };
        assert forall|j: int| 0 <= j < k implies (#[trigger] before[j]).path != path by {
            assert(before[j] == rows[j]);
        }
        law_paths_are_found_by_the_first(before, path, k);
    }
}

} // verus!
