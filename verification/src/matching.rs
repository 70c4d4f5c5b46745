//! Matching rows against a query, and ranking the matches.

use crate::bindings::Binding;
use crate::items;
use crate::items::{Item, ItemKind, ItemView};
use crate::text;
use crate::text::Order;
use crate::tree;
use fuzzy_matcher::skim::SkimMatcherV2;
use fuzzy_matcher::FuzzyMatcher;
use vstd::prelude::*;

verus! {

/// A row that matches the query, with its score. An empty query scores
/// nothing.
#[derive(Debug)]
pub struct MatchedItem {
    pub item: Item,
    pub score: Option<i64>,
}

/// What a [`MatchedItem`] holds.
pub struct MatchView {
    pub item: ItemView,
    pub score: Option<i64>,
}

impl View for MatchedItem {
    type V = MatchView;

    open spec fn view(&self) -> MatchView {
        MatchView { item: self.item@, score: self.score }
    }
}

/// What each match of a list holds.
pub open spec fn match_views(list: Seq<MatchedItem>) -> Seq<MatchView> {
    list.map_values(|m: MatchedItem| m@)
}

/// `c` in lower case, where it is an ASCII letter.
pub open spec fn ascii_lower(c: char) -> int {
    if 'A' <= c && c <= 'Z' {
        c as int + 32
    } else {
        c as int
    }
}

/// Whether the characters of `query` occur in `text` in that order, not
/// necessarily next to each other; ASCII letters match in either case.
pub open spec fn occurs_in(query: Seq<char>, text: Seq<char>) -> bool
    decreases text.len(),
{
    if query.len() == 0 {
        true
    } else if text.len() == 0 {
        false
    } else if ascii_lower(text[0]) == ascii_lower(query[0]) {
        occurs_in(query.drop_first(), text.drop_first())
    } else {
        occurs_in(query, text.drop_first())
    }
}

/// The score that a fresh case-ignoring skim matcher gives `query` in `text`.
pub uninterp spec fn fuzzy_score_of(text: Seq<char>, query: Seq<char>) -> Option<i64>;

/// The score that Pretty Which's search gives `query` for a keybinding.
pub uninterp spec fn binding_score_of(
    label: Seq<char>,
    action: Seq<char>,
    keys: Seq<Seq<char>>,
    default_keys: Seq<Seq<char>>,
    hint: Seq<char>,
    query: Seq<char>,
) -> Option<i64>;

/// `SkimMatcherV2::fuzzy_match` on a fresh matcher that ignores case. The score
/// is a function of the two texts, and there is one exactly when the query's
/// characters occur in the text in order.
#[verifier::external_body]
fn fuzzy_score(text: &str, query: &str) -> (r: Option<i64>)
    ensures
        r == fuzzy_score_of(text@, query@),
        r is Some <==> occurs_in(query@, text@),
{
    SkimMatcherV2::default().ignore_case().fuzzy_match(text, query)
}

/// `herdr_pretty_which::binding_search_score`. The score is a function of the
/// query and of the binding's label, action, keys, default keys and hint; the
/// binding's other fields have no part in it.
#[verifier::external_body]
fn binding_score(b: &Binding, query: &str) -> (r: Option<i64>)
    ensures
        r == binding_score_of(
            b@.label,
            b@.action,
            b@.keys,
            b@.default_keys,
            b@.hint,
            query@,
        ),
{
    let binding = herdr_pretty_which::Binding {
        action: b.action.clone(),
        label: b.label.clone(),
        keys: b.keys.clone(),
        default_keys: b.default_keys.clone(),
        category: herdr_pretty_which::Category::Core,
        tree_path: b.tree_path.clone(),
        source: herdr_pretty_which::BindingSource::Default,
        status: herdr_pretty_which::BindingStatus::Active,
        hint: b.hint.clone(),
    };
    herdr_pretty_which::binding_search_score(&binding, query)
}

/// The score of a row for a query that is not empty: a keybinding's by its own
/// search, any other row's by its haystack.
pub open spec fn item_score(item: ItemView, query: Seq<char>) -> Option<i64> {
    match item.binding {
        Some(b) => binding_score_of(b.label, b.action, b.keys, b.default_keys, b.hint, query),
        None => fuzzy_score_of(item.haystack(), query),
    }
}

/// The scores of the rows for a query; an empty query asks for none.
pub open spec fn item_scores(list: Seq<ItemView>, query: Seq<char>) -> Seq<Option<i64>> {
    list.map_values(
        |item: ItemView|
            if query.len() == 0 {
                None
            } else {
                item_score(item, query)
            },
    )
}

/// The match of a row: without a query every row matches unscored, with one
/// those that have a score.
pub open spec fn match_with(item: ItemView, active: bool, score: Option<i64>) -> Option<MatchView> {
    if !active {
        Some(MatchView { item, score: None })
    } else {
        match score {
            Some(score) => Some(MatchView { item, score: Some(score) }),
            None => None,
        }
    }
}

/// The rows that match, in their own order. `active` says whether there is a
/// query, `scores` what it scored the rows.
pub open spec fn hits_with(
    list: Seq<ItemView>,
    active: bool,
    scores: Seq<Option<i64>>,
) -> Seq<MatchView>
    decreases list.len(),
{
    if list.len() == 0 {
        Seq::empty()
    } else {
        let before = hits_with(list.drop_last(), active, scores);
        match match_with(list.last(), active, scores[list.len() - 1]) {
            Some(hit) => before.push(hit),
            None => before,
        }
    }
}

/// The rows that match the query, in their own order.
pub open spec fn hits(list: Seq<ItemView>, query: Seq<char>) -> Seq<MatchView> {
    hits_with(list, query.len() > 0, item_scores(list, query))
}

/// The score of a row for a query that is not empty.
pub fn score_item(item: &Item, query: &str) -> (r: Option<i64>)
    ensures
        r == item_score(item@, query@),
        item@.binding is None ==> (r is Some <==> occurs_in(query@, item@.haystack())),
{
    match &item.binding {
        Some(b) => binding_score(b, query),
        None => {
            let haystack = item.haystack();
            fuzzy_score(haystack.as_str(), query)
        },
    }
}

/// The match of a row, from the score that the query gave it.
pub fn match_with_score(item: &Item, active: bool, score: Option<i64>) -> (r: Option<MatchedItem>)
    ensures
        (match r {
            Some(m) => Some(m@),
            None => None,
        }) == match_with(item@, active, score),
{
    if !active {
        return Some(MatchedItem { item: item.clone(), score: None });
    }
    match score {
        Some(score) => Some(MatchedItem { item: item.clone(), score: Some(score) }),
        None => None,
    }
}

/// The match of a row for a query.
pub fn match_item(item: &Item, query: &str) -> (r: Option<MatchedItem>)
    ensures
        (match r {
            Some(m) => Some(m@),
            None => None,
        }) == match_with(item@, query@.len() > 0, item_score(item@, query@)),
{
    if query.is_empty() {
        match_with_score(item, false, None)
    } else {
        match_with_score(item, true, score_item(item, query))
    }
}

/// The rows that match, in their own order, from the scores that the query
/// gave them.
pub fn hits_with_scores(list: &Vec<Item>, active: bool, scores: &Vec<Option<i64>>) -> (r: Vec<
    MatchedItem,
>)
    requires
        scores@.len() == list@.len(),
    ensures
        match_views(r@) == hits_with(items::item_views(list@), active, scores@),
{
    let ghost held = items::item_views(list@);
    let mut out: Vec<MatchedItem> = Vec::new();
    let mut i: usize = 0;
    while i < list.len()
        invariant
            i <= list@.len() == scores@.len(),
            held == items::item_views(list@),
            match_views(out@) == hits_with(held.take(i as int), active, scores@),
        decreases list@.len() - i,
    {
        let ghost before = match_views(out@);
        assert(held.take(i + 1).drop_last() == held.take(i as int));
        assert(held.take(i + 1).last() == list@[i as int]@);
        if let Some(hit) = match_with_score(&list[i], active, scores[i]) {
            let ghost kept = hit@;
            out.push(hit);
            assert(match_views(out@) == before.push(kept));
        }
        i += 1;
    }
    assert(held.take(i as int) == held);
    out
}

/// The rows that match the query, in their own order.
pub fn find_hits(list: &Vec<Item>, query: &str) -> (r: Vec<MatchedItem>)
    ensures
        match_views(r@) == hits(items::item_views(list@), query@),
{
    let ghost want = item_scores(items::item_views(list@), query@);
    let mut scores: Vec<Option<i64>> = Vec::new();
    let mut i: usize = 0;
    while i < list.len()
        invariant
            i <= list@.len(),
            want == item_scores(items::item_views(list@), query@),
            scores@ == want.take(i as int),
        decreases list@.len() - i,
    {
        let score: Option<i64> = if query.is_empty() {
            None
        } else {
            score_item(&list[i], query)
        };
        assert(score == want[i as int]);
        scores.push(score);
        i += 1;
    }
    assert(want.take(i as int) == want);
    hits_with_scores(list, !query.is_empty(), &scores)
}

/// The order of kinds among equally good matches: the lower comes first.
pub open spec fn priority(kind: ItemKind) -> int {
    match kind {
        ItemKind::PluginAction => 0,
        ItemKind::JumpWorkspace => 1,
        ItemKind::JumpTab => 2,
        ItemKind::JumpAgent => 3,
        ItemKind::Binding => 4,
        ItemKind::CustomCommand => 5,
    }
}

/// The order of kinds among equally good matches.
pub fn kind_priority(kind: ItemKind) -> (r: u8)
    ensures
        r == priority(kind),
{
    match kind {
        ItemKind::PluginAction => 0,
        ItemKind::JumpWorkspace => 1,
        ItemKind::JumpTab => 2,
        ItemKind::JumpAgent => 3,
        ItemKind::Binding => 4,
        ItemKind::CustomCommand => 5,
    }
}

/// The order of two scores; no score is below every score.
pub open spec fn score_order(a: Option<i64>, b: Option<i64>) -> Order {
    match (a, b) {
        (None, None) => Order::Equal,
        (None, Some(_)) => Order::Less,
        (Some(_), None) => Order::Greater,
        (Some(a), Some(b)) => text::int_order(a as int, b as int),
    }
}

/// The order of two truth values; `false` is below `true`.
pub open spec fn bool_order(a: bool, b: bool) -> Order {
    if a == b {
        Order::Equal
    } else if b {
        Order::Less
    } else {
        Order::Greater
    }
}

/// How two matches rank: by score, then the dispatchable above the
/// reference-only, then by kind, then by title, the earlier in the alphabet
/// above. The greater ranks higher.
pub open spec fn rank_order(a: MatchView, b: MatchView) -> Order {
    score_order(a.score, b.score).or_else(
        bool_order(a.item.dispatch is Some, b.item.dispatch is Some),
    ).or_else(text::int_order(priority(b.item.kind), priority(a.item.kind))).or_else(
        text::text_order(b.item.title, a.item.title),
    )
}

/// How two scored items rank.
pub fn compare_item_rank(a: &Item, a_score: Option<i64>, b: &Item, b_score: Option<i64>) -> (r:
    Order)
    ensures
        r == rank_order(
            (MatchView { item: a@, score: a_score }),
            (MatchView { item: b@, score: b_score }),
        ),
{
    match (a_score, b_score) {
        (None, None) => {},
        (None, Some(_)) => {
            return Order::Less;
        },
        (Some(_), None) => {
            return Order::Greater;
        },
        (Some(x), Some(y)) => {
            if x < y {
                return Order::Less;
            }
            if x > y {
                return Order::Greater;
            }
        },
    }
    if a.is_dispatchable() != b.is_dispatchable() {
        return if b.is_dispatchable() {
            Order::Less
        } else {
            Order::Greater
        };
    }
    let p = kind_priority(a.kind);
    let q = kind_priority(b.kind);
    if q < p {
        return Order::Less;
    }
    if q > p {
        return Order::Greater;
    }
    text::order_texts(b.title.as_str(), a.title.as_str())
}

/// How two matches rank.
pub fn compare_matches(a: &MatchedItem, b: &MatchedItem) -> (r: Order)
    ensures
        r == rank_order(a@, b@),
{
    compare_item_rank(&a.item, a.score, &b.item, b.score)
}

/// Where to put `x` among ranked matches: behind the last that it does not
/// outrank.
pub open spec fn slot(list: Seq<MatchView>, x: MatchView) -> int
    decreases list.len(),
{
    if list.len() == 0 {
        0
    } else if rank_order(list.last(), x) == Order::Less {
        slot(list.drop_last(), x)
    } else {
        list.len() as int
    }
}

/// The matches from the highest rank to the lowest; those of equal rank keep
/// their order.
pub open spec fn ranked(list: Seq<MatchView>) -> Seq<MatchView>
    decreases list.len(),
{
    if list.len() == 0 {
        Seq::empty()
    } else {
        let before = ranked(list.drop_last());
        before.insert(slot(before, list.last()), list.last())
    }
}

/// A slot lies within the list: what stands before it is not outranked, what
/// stands behind it, in a list that is ranked, is.
proof fn lemma_slot(list: Seq<MatchView>, x: MatchView)
    ensures
        0 <= slot(list, x) <= list.len(),
        slot(list, x) > 0 ==> rank_order(list[slot(list, x) - 1], x) != Order::Less,
        forall|i: int| slot(list, x) <= i < list.len() ==> rank_order(#[trigger] list[i], x)
            == Order::Less,
    decreases list.len(),
{
    if list.len() > 0 && rank_order(list.last(), x) == Order::Less {
        lemma_slot(list.drop_last(), x);
        assert forall|i: int| slot(list, x) <= i < list.len() implies rank_order(
            #[trigger] list[i],
            x,
        ) == Order::Less by {
            if i < list.len() - 1 {
                assert(list.drop_last()[i] == list[i]);
            }
        }
    }
}

/// Sorts matches from the highest rank to the lowest; those of equal rank keep
/// their order.
pub fn sort_flat_matches(hits: Vec<MatchedItem>) -> (r: Vec<MatchedItem>)
    ensures
        match_views(r@) == ranked(match_views(hits@)),
{
    let ghost all = match_views(hits@);
    let ghost given = hits@;
    let mut out: Vec<MatchedItem> = Vec::new();
    for hit in it: hits
        invariant
            it.seq() == given,
            all == match_views(given),
            match_views(out@) == ranked(all.take(it.index() as int)),
    {
        let ghost before = match_views(out@);
        let ghost x = hit@;
        assert(all.take(it.index() + 1).drop_last() == all.take(it.index() as int));
        assert(all.take(it.index() + 1).last() == x);
        let mut at: usize = out.len();
        assert(before.take(at as int) == before);
        while at > 0 && compare_matches(&out[at - 1], &hit) == Order::Less
            invariant
                at <= out@.len(),
                before == match_views(out@),
                x == hit@,
                slot(before.take(at as int), x) == slot(before, x),
            decreases at,
        {
            assert(before.take(at as int).last() == out@[at - 1]@);
            assert(before.take(at as int).drop_last() == before.take(at - 1));
            at -= 1;
        }
        proof {
            if at > 0 {
                assert(before.take(at as int).last() == out@[at - 1]@);
            }
            assert(at == slot(before, x));
        }
        out.insert(at, hit);
        assert(match_views(out@) == before.insert(at as int, x));
    }
    assert(all.take(all.len() as int) == all);
    out
}

/// A copy of a list of matches.
pub fn copy_matches(list: &Vec<MatchedItem>) -> (r: Vec<MatchedItem>)
    ensures
        match_views(r@) == match_views(list@),
{
    let mut out: Vec<MatchedItem> = Vec::new();
    let mut i: usize = 0;
    while i < list.len()
        invariant
            i <= list@.len(),
            match_views(out@) == match_views(list@).take(i as int),
        decreases list@.len() - i,
    {
        let ghost before = match_views(out@);
        out.push(MatchedItem { item: list[i].item.clone(), score: list[i].score });
        assert(match_views(out@) =~= before.push(list@[i as int]@));
        i += 1;
    }
    assert(match_views(list@).take(i as int) == match_views(list@));
    out
}

/// The index of the highest-ranked match; of equals, the last.
pub open spec fn best_match(list: Seq<MatchView>) -> Option<int>
    decreases list.len(),
{
    if list.len() == 0 {
        None
    } else {
        match best_match(list.drop_last()) {
            Some(best) => if rank_order(list[best], list.last()) == Order::Greater {
                Some(best)
            } else {
                Some(list.len() - 1)
            },
            None => Some(0),
        }
    }
}

/// The index of the highest-ranked match; of equals, the last.
pub fn find_best_match(list: &Vec<MatchedItem>) -> (r: Option<usize>)
    ensures
        tree::opt_index(r) == best_match(match_views(list@)),
{
    let ghost all = match_views(list@);
    let mut best: Option<usize> = None;
    let mut i: usize = 0;
    while i < list.len()
        invariant
            i <= list@.len(),
            all == match_views(list@),
            tree::opt_index(best) == best_match(all.take(i as int)),
            best is Some ==> best->0 < i,
            best is None ==> i == 0,
        decreases list@.len() - i,
    {
        assert(all.take(i + 1).drop_last() == all.take(i as int));
        assert(all.take(i + 1).last() == list@[i as int]@);
        let keeps = match best {
            Some(b) => {
                assert(all.take(i + 1)[b as int] == list@[b as int]@);
                compare_matches(&list[b], &list[i]) == Order::Greater
            },
            None => false,
        };
        if !keeps {
            best = Some(i);
        }
        i += 1;
    }
    assert(all.take(i as int) == all);
    best
}

/// The index of the first match whose item is recognised by `id`.
pub open spec fn match_position(
    list: Seq<MatchView>,
    id: (ItemKind, Seq<char>, Seq<char>),
) -> Option<int>
    decreases list.len(),
{
    if list.len() == 0 {
        None
    } else {
        match match_position(list.drop_last(), id) {
            Some(i) => Some(i),
            None => if tree::identity(list.last().item) == id {
                Some(list.len() - 1)
            } else {
                None
            },
        }
    }
}

/// The index of the first match whose item is recognised by `id`.
pub fn find_match(list: &Vec<MatchedItem>, id: &(ItemKind, String, String)) -> (r: Option<usize>)
    ensures
        tree::opt_index(r) == match_position(match_views(list@), tree::identity_text(*id)),
{
    let ghost all = match_views(list@);
    let ghost want = tree::identity_text(*id);
    let mut i: usize = 0;
    while i < list.len()
        invariant
            i <= list@.len(),
            all == match_views(list@),
            want == tree::identity_text(*id),
            match_position(all.take(i as int), want) is None,
        decreases list@.len() - i,
    {
        assert(all.take(i + 1).drop_last() == all.take(i as int));
        assert(all.take(i + 1).last() == list@[i as int]@);
        if tree::has_identity(&list[i].item, id) {
            proof {
                lemma_position_stays(all, i + 1, want);
            }
            return Some(i);
        }
        i += 1;
    }
    assert(all.take(i as int) == all);
    None
}

proof fn lemma_position_stays(
    list: Seq<MatchView>,
    k: int,
    id: (ItemKind, Seq<char>, Seq<char>),
)
    requires
        0 <= k <= list.len(),
        match_position(list.take(k), id) is Some,
    ensures
        match_position(list, id) == match_position(list.take(k), id),
    decreases list.len(),
{
    if k == list.len() {
        assert(list.take(k) == list);
    } else {
        assert(list.drop_last().take(k) == list.take(k));
        lemma_position_stays(list.drop_last(), k, id);
    }
}

/// Ranking is a total order up to equality: turning two matches round turns
/// the answer round.
pub proof fn law_rank_order_symmetric(a: MatchView, b: MatchView)
    ensures
        rank_order(b, a) == rank_order(a, b).flipped(),
{
    text::lemma_text_order_symmetric(b.item.title, a.item.title);
}

/// Ranking is transitive, and two matches rank equal only if all between them
/// do.
pub proof fn law_rank_order_transitive(a: MatchView, b: MatchView, c: MatchView)
    requires
        rank_order(a, b) != Order::Greater,
        rank_order(b, c) != Order::Greater,
    ensures
        rank_order(a, c) != Order::Greater,
        rank_order(a, c) == Order::Equal ==> rank_order(a, b) == Order::Equal && rank_order(b, c)
            == Order::Equal,
{
    text::lemma_text_order_symmetric(b.item.title, a.item.title);
    text::lemma_text_order_symmetric(c.item.title, b.item.title);
    text::lemma_text_order_symmetric(c.item.title, a.item.title);
    if text::text_order(c.item.title, b.item.title) != Order::Greater && text::text_order(
        b.item.title,
        a.item.title,
    ) != Order::Greater {
        text::lemma_text_order_transitive(c.item.title, b.item.title, a.item.title);
    }
}

/// No match stands behind one that it outranks.
pub open spec fn descending(list: Seq<MatchView>) -> bool {
    forall|i: int, j: int|
        0 <= i < j < list.len() ==> rank_order(#[trigger] list[i], #[trigger] list[j])
            != Order::Less
}

proof fn lemma_insert_keeps_descending(list: Seq<MatchView>, x: MatchView)
    requires
        descending(list),
    ensures
        descending(list.insert(slot(list, x), x)),
{
    lemma_slot(list, x);
    let k = slot(list, x);
    let r = list.insert(k, x);
    assert forall|i: int, j: int| 0 <= i < j < r.len() implies rank_order(
        #[trigger] r[i],
        #[trigger] r[j],
    ) != Order::Less by {
        if i < k && j == k {
            let y = list[k - 1];
            law_rank_order_symmetric(y, x);
            law_rank_order_symmetric(list[i], x);
            law_rank_order_symmetric(list[i], y);
            if i < k - 1 {
                assert(rank_order(list[i], y) != Order::Less);
                law_rank_order_transitive(x, y, list[i]);
            }
        } else if i == k {
            law_rank_order_symmetric(list[j - 1], x);
        } else {
            let a = if i < k {
                i
            } else {
                i - 1
            };
            let b = if j < k {
                j
            } else {
                j - 1
            };
            assert(r[i] == list[a] && r[j] == list[b]);
        }
    }
}

/// Ranked matches are the given ones, from the highest rank to the lowest.
pub proof fn law_ranked_is_sorted(list: Seq<MatchView>)
    ensures
        descending(ranked(list)),
        ranked(list).to_multiset() == list.to_multiset(),
        ranked(list).len() == list.len(),
    decreases list.len(),
{
    broadcast use vstd::seq_lib::group_to_multiset_ensures;

    if list.len() > 0 {
        let before = ranked(list.drop_last());
        law_ranked_is_sorted(list.drop_last());
        lemma_slot(before, list.last());
        lemma_insert_keeps_descending(before, list.last());
        vstd::seq_lib::to_multiset_insert(before, slot(before, list.last()), list.last());
        assert(list.drop_last().push(list.last()) == list);
    }
}

/// The matches of a list that rank equal to `x`.
pub open spec fn peers(list: Seq<MatchView>, x: MatchView) -> Seq<MatchView>
    decreases list.len(),
{
    if list.len() == 0 {
        Seq::empty()
    } else if rank_order(list.last(), x) == Order::Equal {
        peers(list.drop_last(), x).push(list.last())
    } else {
        peers(list.drop_last(), x)
    }
}

proof fn lemma_peers_add(a: Seq<MatchView>, b: Seq<MatchView>, x: MatchView)
    ensures
        peers(a + b, x) == peers(a, x) + peers(b, x),
    decreases b.len(),
{
    if b.len() == 0 {
        assert(a + b == a);
        assert(peers(a, x) + Seq::<MatchView>::empty() == peers(a, x));
    } else {
        assert((a + b).drop_last() == a + b.drop_last());
        assert((a + b).last() == b.last());
        lemma_peers_add(a, b.drop_last(), x);
        assert(peers(a + b, x) =~= peers(a, x) + peers(b, x));
    }
}

proof fn lemma_no_peers(list: Seq<MatchView>, x: MatchView)
    requires
        forall|i: int| 0 <= i < list.len() ==> rank_order(#[trigger] list[i], x) != Order::Equal,
    ensures
        peers(list, x) == Seq::<MatchView>::empty(),
    decreases list.len(),
{
    if list.len() > 0 {
        assert(list.last() == list[list.len() - 1]);
        assert forall|i: int| 0 <= i < list.drop_last().len() implies rank_order(
            #[trigger] list.drop_last()[i],
            x,
        ) != Order::Equal by {
            assert(list.drop_last()[i] == list[i]);
        }
        lemma_no_peers(list.drop_last(), x);
    }
}

/// Ranking is stable: matches of equal rank keep the order they had.
pub proof fn law_ranked_is_stable(list: Seq<MatchView>, x: MatchView)
    ensures
        peers(ranked(list), x) == peers(list, x),
    decreases list.len(),
{
    if list.len() > 0 {
        let before = ranked(list.drop_last());
        let y = list.last();
        law_ranked_is_stable(list.drop_last(), x);
        lemma_slot(before, y);
        let k = slot(before, y);
        let left = before.take(k);
        let right = before.skip(k);
        assert(before == left + right);
        assert(before.insert(k, y) == left + seq![y] + right);
        lemma_peers_add(left, right, x);
        lemma_peers_add(left + seq![y], right, x);
        lemma_peers_add(left, seq![y], x);
        assert(seq![y].drop_last() == Seq::<MatchView>::empty());
        assert(peers(seq![y].drop_last(), x) == Seq::<MatchView>::empty());
        if rank_order(y, x) == Order::Equal {
            assert forall|i: int| 0 <= i < right.len() implies rank_order(#[trigger] right[i], x)
                != Order::Equal by {
                assert(right[i] == before[k + i]);
                law_rank_order_symmetric(right[i], y);
                law_rank_order_symmetric(y, x);
                law_rank_order_symmetric(right[i], x);
                if rank_order(right[i], x) == Order::Equal {
                    law_rank_order_transitive(y, x, right[i]);
                }
            }
            lemma_no_peers(right, x);
            assert(peers(seq![y], x) =~= seq![y]);
            assert(peers(ranked(list), x) =~= peers(list, x));
        } else {
            assert(peers(seq![y], x) =~= Seq::<MatchView>::empty());
            assert(peers(ranked(list), x) =~= peers(list, x));
        }
    }
}

/// Without a query every row matches, unscored and in its place.
pub proof fn law_no_query_matches_everything(list: Seq<ItemView>)
    ensures
        hits(list, Seq::empty()) == list.map_values(
            |item: ItemView| MatchView { item, score: None },
        ),
{
    lemma_inactive_hits(list, item_scores(list, Seq::empty()));
}

proof fn lemma_inactive_hits(list: Seq<ItemView>, scores: Seq<Option<i64>>)
    ensures
        hits_with(list, false, scores) == list.map_values(
            |item: ItemView| MatchView { item, score: None },
        ),
    decreases list.len(),
{
    let want = list.map_values(|item: ItemView| MatchView { item, score: None });
    if list.len() > 0 {
        lemma_inactive_hits(list.drop_last(), scores);
        assert(want =~= list.drop_last().map_values(
            |item: ItemView| MatchView { item, score: None },
        ).push(MatchView { item: list.last(), score: None }));
    } else {
        assert(want =~= Seq::empty());
    }
}

/// A match is one of the rows, and with a query it has a score.
pub proof fn law_hits_are_rows(list: Seq<ItemView>, active: bool, scores: Seq<Option<i64>>, k: int)
    requires
        0 <= k < hits_with(list, active, scores).len(),
    ensures
        list.contains(hits_with(list, active, scores)[k].item),
        hits_with(list, active, scores)[k].score is Some <==> active,
    decreases list.len(),
{
    let before = hits_with(list.drop_last(), active, scores);
    if k < before.len() {
        law_hits_are_rows(list.drop_last(), active, scores, k);
        let item = before[k].item;
        let i = choose|i: int| 0 <= i < list.drop_last().len() && list.drop_last()[i] == item;
        assert(list[i] == item);
    } else {
        assert(list[list.len() - 1] == list.last());
    }
}

/// A row matches a query exactly when it has a score for it: no scored row is
/// missing.
pub proof fn law_scored_rows_are_hits(list: Seq<ItemView>, scores: Seq<Option<i64>>, i: int)
    requires
        0 <= i < list.len() == scores.len(),
        scores[i] is Some,
    ensures
        hits_with(list, true, scores).contains(MatchView { item: list[i], score: scores[i] }),
{
    lemma_scored_rows_are_hits(list, scores, i);
}

proof fn lemma_scored_rows_are_hits(list: Seq<ItemView>, scores: Seq<Option<i64>>, i: int)
    requires
        0 <= i < list.len() <= scores.len(),
        scores[i] is Some,
    ensures
        hits_with(list, true, scores).contains(MatchView { item: list[i], score: scores[i] }),
    decreases list.len(),
{
    let want = MatchView { item: list[i], score: scores[i] };
    let all = hits_with(list, true, scores);
    let before = hits_with(list.drop_last(), true, scores);
    if i == list.len() - 1 {
        assert(all[all.len() - 1] == want);
    } else {
        lemma_scored_rows_are_hits(list.drop_last(), scores, i);
        let k = choose|k: int| 0 <= k < before.len() && before[k] == want;
        assert(all[k] == want);
    }
}

/// A row without a keybinding matches a query exactly if the search over its
/// haystack scores it, and its match carries that score.
pub proof fn law_hits_carry_the_score_of_their_haystack(
    list: Seq<ItemView>,
    query: Seq<char>,
    k: int,
)
    requires
        query.len() > 0,
        0 <= k < hits(list, query).len(),
        hits(list, query)[k].item.binding is None,
    ensures
        list.contains(hits(list, query)[k].item),
        hits(list, query)[k].score is Some,
        hits(list, query)[k].score == fuzzy_score_of(hits(list, query)[k].item.haystack(), query),
{
    lemma_hit_scores(list, item_scores(list, query), query, k);
}

/// A keybinding matches a query exactly if Pretty Which's search scores it, and
/// its match carries that score.
pub proof fn law_hits_carry_the_score_of_their_binding(
    list: Seq<ItemView>,
    query: Seq<char>,
    k: int,
)
    requires
        query.len() > 0,
        0 <= k < hits(list, query).len(),
        hits(list, query)[k].item.binding is Some,
    ensures
        list.contains(hits(list, query)[k].item),
        hits(list, query)[k].score is Some,
        hits(list, query)[k].score == ({
            let b = hits(list, query)[k].item.binding->0;
            binding_score_of(b.label, b.action, b.keys, b.default_keys, b.hint, query)
        }),
{
    lemma_hit_scores(list, item_scores(list, query), query, k);
}

proof fn lemma_hit_scores(
    list: Seq<ItemView>,
    scores: Seq<Option<i64>>,
    query: Seq<char>,
    k: int,
)
    requires
        query.len() > 0,
        list.len() <= scores.len(),
        forall|i: int| 0 <= i < list.len() ==> #[trigger] scores[i] == item_score(list[i], query),
        0 <= k < hits_with(list, true, scores).len(),
    ensures
        list.contains(hits_with(list, true, scores)[k].item),
        hits_with(list, true, scores)[k].score is Some,
        hits_with(list, true, scores)[k].score == item_score(
            hits_with(list, true, scores)[k].item,
            query,
        ),
    decreases list.len(),
{
    let rest = list.drop_last();
    let before = hits_with(rest, true, scores);
    if k < before.len() {
        assert forall|i: int| 0 <= i < rest.len() implies #[trigger] scores[i] == item_score(
            rest[i],
            query,
        ) by {
            assert(rest[i] == list[i]);
        }
        lemma_hit_scores(rest, scores, query, k);
        let item = before[k].item;
        let i = choose|i: int| 0 <= i < rest.len() && rest[i] == item;
        assert(list[i] == item);
    } else {
        assert(scores[list.len() - 1] == item_score(list[list.len() - 1], query));
        assert(list[list.len() - 1] == list.last());
    }
}

/// A row matches on its own: another row more changes nothing about those
/// before it, and is a match itself, behind them, exactly if it has a score.
pub proof fn law_rows_match_on_their_own(list: Seq<ItemView>, query: Seq<char>, item: ItemView)
    ensures
        hits(Seq::<ItemView>::empty(), query).len() == 0,
        query.len() == 0 ==> hits(list.push(item), query) == hits(list, query).push(
            (MatchView { item, score: None }),
        ),
        query.len() > 0 && item.binding is None ==> hits(list.push(item), query)
            == match fuzzy_score_of(item.haystack(), query) {
            Some(score) => hits(list, query).push((MatchView { item, score: Some(score) })),
            None => hits(list, query),
        },
        query.len() > 0 && item.binding is Some ==> hits(list.push(item), query) == ({
            let b = item.binding->0;
            match binding_score_of(b.label, b.action, b.keys, b.default_keys, b.hint, query) {
                Some(score) => hits(list, query).push((MatchView { item, score: Some(score) })),
                None => hits(list, query),
            }
        }),
{
    let more = list.push(item);
    let scores = item_scores(more, query);
    assert(more.drop_last() =~= list);
    assert(scores[list.len() as int] == if query.len() == 0 {
        None
    } else {
        item_score(item, query)
    });
    lemma_same_scores(list, query.len() > 0, scores, item_scores(list, query));
}

proof fn lemma_same_scores(
    list: Seq<ItemView>,
    active: bool,
    a: Seq<Option<i64>>,
    b: Seq<Option<i64>>,
)
    requires
        list.len() <= a.len(),
        list.len() <= b.len(),
        forall|i: int| 0 <= i < list.len() ==> #[trigger] a[i] == b[i],
    ensures
        hits_with(list, active, a) == hits_with(list, active, b),
    decreases list.len(),
{
    if list.len() > 0 {
        lemma_same_scores(list.drop_last(), active, a, b);
        assert(a[list.len() - 1] == b[list.len() - 1]);
    }
}

/// Without a query a row matches unscored; with one it matches exactly if it
/// has a score, and with it.
pub proof fn law_match_of_one_row(item: ItemView, score: Option<i64>)
    ensures
        match_with(item, false, score) == Some((MatchView { item, score: None })),
        match_with(item, true, score) is Some <==> score is Some,
        score is Some ==> match_with(item, true, score) == Some((MatchView { item, score })),
{
}

/// The kinds of rows, from the one that ranks highest among equals to the one
/// that ranks lowest.
pub open spec fn kinds_by_rank() -> Seq<ItemKind> {
    seq![
        ItemKind::PluginAction,
        ItemKind::JumpWorkspace,
        ItemKind::JumpTab,
        ItemKind::JumpAgent,
        ItemKind::Binding,
        ItemKind::CustomCommand,
    ]
}

/// Among equally good matches plugin actions come first, then workspaces, tabs,
/// agents and keybindings, and custom commands last.
pub proof fn law_kinds_are_ranked(i: int, j: int)
    requires
        0 <= i < kinds_by_rank().len(),
        0 <= j < kinds_by_rank().len(),
    ensures
        priority(kinds_by_rank()[i]) < priority(kinds_by_rank()[j]) <==> i < j,
{
}

/// Whether a match may stand above another: it has the higher score, else it is
/// the one that can be dispatched, else it is of the kind that ranks higher,
/// else its title comes first in the alphabet.
pub open spec fn may_stand_above(a: MatchView, b: MatchView) -> bool {
    ||| a.score is Some && b.score is None
    ||| a.score is Some && b.score is Some && a.score->0 > b.score->0
    ||| {
        &&& a.score == b.score
        &&& {
            ||| a.item.dispatch is Some && b.item.dispatch is None
            ||| {
                &&& a.item.dispatch is Some <==> b.item.dispatch is Some
                &&& {
                    ||| exists|i: int, j: int|
                        0 <= i < j < kinds_by_rank().len() && #[trigger] kinds_by_rank()[i]
                            == a.item.kind && #[trigger] kinds_by_rank()[j] == b.item.kind
                    ||| a.item.kind == b.item.kind && text::text_order(
                        a.item.title,
                        b.item.title,
                    ) != Order::Greater
                }
            }
        }
    }
}

/// A match ranks at least as high as another exactly if it may stand above it,
/// and higher exactly if the other may not stand above it.
pub proof fn law_rank_is_standing(a: MatchView, b: MatchView)
    ensures
        rank_order(a, b) != Order::Less <==> may_stand_above(a, b),
        rank_order(a, b) == Order::Greater <==> !may_stand_above(b, a),
{
    lemma_standing(a, b);
    lemma_standing(b, a);
    law_rank_order_symmetric(a, b);
}

proof fn lemma_standing(a: MatchView, b: MatchView)
    ensures
        rank_order(a, b) != Order::Less <==> may_stand_above(a, b),
{
    text::lemma_text_order_symmetric(a.item.title, b.item.title);
    let i = priority(a.item.kind);
    let j = priority(b.item.kind);
    assert(kinds_by_rank()[i] == a.item.kind);
    assert(kinds_by_rank()[j] == b.item.kind);
    if exists|i: int, j: int|
        0 <= i < j < kinds_by_rank().len() && #[trigger] kinds_by_rank()[i] == a.item.kind
            && #[trigger] kinds_by_rank()[j] == b.item.kind {
        let (m, n) = choose|i: int, j: int|
            0 <= i < j < kinds_by_rank().len() && #[trigger] kinds_by_rank()[i] == a.item.kind
                && #[trigger] kinds_by_rank()[j] == b.item.kind;
        assert(priority(kinds_by_rank()[m]) == m && priority(kinds_by_rank()[n]) == n);
    }
}

/// Of two ranked matches the one further up has the higher score; of equal
/// scores it is the one that can be dispatched; of both or neither it is of the
/// higher kind; and of one kind its title comes first.
pub proof fn law_ranking_goes_by_score_first(list: Seq<MatchView>, i: int, j: int)
    requires
        0 <= i < j < ranked(list).len(),
    ensures
        may_stand_above(ranked(list)[i], ranked(list)[j]),
        ranked(list).to_multiset() == list.to_multiset(),
{
    law_ranked_is_sorted(list);
    assert(rank_order(ranked(list)[i], ranked(list)[j]) != Order::Less);
    law_rank_is_standing(ranked(list)[i], ranked(list)[j]);
}

/// For a query, of two matches without keybindings the one further up scores at
/// least as high in the search over the haystack.
pub proof fn law_better_matches_come_first(
    list: Seq<ItemView>,
    query: Seq<char>,
    i: int,
    j: int,
)
    requires
        query.len() > 0,
        0 <= i < j < ranked(hits(list, query)).len(),
        ranked(hits(list, query))[i].item.binding is None,
        ranked(hits(list, query))[j].item.binding is None,
    ensures
        ({
            let a = fuzzy_score_of(ranked(hits(list, query))[i].item.haystack(), query);
            let b = fuzzy_score_of(ranked(hits(list, query))[j].item.haystack(), query);
            a is Some && b is Some && a->0 >= b->0
        }),
{
    let all = hits(list, query);
    let up = ranked(all);
    law_ranking_goes_by_score_first(all, i, j);
    broadcast use vstd::seq_lib::group_to_multiset_ensures;

    assert(up.to_multiset().count(up[i]) > 0);
    assert(up.to_multiset().count(up[j]) > 0);
    assert(all.contains(up[i]) && all.contains(up[j]));
    let m = choose|m: int| 0 <= m < all.len() && all[m] == up[i];
    let n = choose|n: int| 0 <= n < all.len() && all[n] == up[j];
    law_hits_carry_the_score_of_their_haystack(list, query, m);
    law_hits_carry_the_score_of_their_haystack(list, query, n);
}

/// Of the matches that nothing outranks, the best one is the last.
pub proof fn law_best_match_is_the_last_of_equals(list: Seq<MatchView>, i: int)
    requires
        best_match(list) is Some,
        best_match(list)->0 < i < list.len(),
    ensures
        0 <= best_match(list)->0,
        rank_order(list[best_match(list)->0], list[i]) == Order::Greater,
    decreases list.len(),
{
    lemma_best_is_there(list);
    let before = list.drop_last();
    lemma_best_is_there(before);
    if i < list.len() - 1 {
        law_best_match_is_the_last_of_equals(before, i);
        assert(before[i] == list[i]);
    }
}

proof fn lemma_best_is_there(list: Seq<MatchView>)
    ensures
        best_match(list) is Some <==> list.len() > 0,
        best_match(list) is Some ==> 0 <= best_match(list)->0 < list.len(),
    decreases list.len(),
{
    if list.len() > 0 {
        lemma_best_is_there(list.drop_last());
    }
}

/// Each character of the query finds its place in the text, one behind the
/// other, whether or not its case is the same.
pub open spec fn places_in(query: Seq<char>, text: Seq<char>, at: Seq<int>) -> bool {
    &&& at.len() == query.len()
    &&& forall|k: int|
        0 <= k < at.len() ==> 0 <= #[trigger] at[k] < text.len() && ascii_lower(text[at[k]])
            == ascii_lower(query[k])
    &&& forall|k: int, m: int| 0 <= k < m < at.len() ==> #[trigger] at[k] < #[trigger] at[m]
}

/// What occurs in a text finds its places there.
pub proof fn law_what_occurs_has_its_places(query: Seq<char>, text: Seq<char>)
    requires
        occurs_in(query, text),
    ensures
        exists|at: Seq<int>| places_in(query, text, at),
    decreases text.len(),
{
    if query.len() == 0 {
        assert(places_in(query, text, Seq::empty()));
    } else {
        let rest = text.drop_first();
        let found = ascii_lower(text[0]) == ascii_lower(query[0]);
        let q = if found {
            query.drop_first()
        } else {
            query
        };
        law_what_occurs_has_its_places(q, rest);
        let inner = choose|at: Seq<int>| places_in(q, rest, at);
        let moved = inner.map_values(|i: int| i + 1);
        let at = if found {
            seq![0int] + moved
        } else {
            moved
        };
        assert forall|k: int| 0 <= k < at.len() implies 0 <= #[trigger] at[k] < text.len()
            && ascii_lower(text[at[k]]) == ascii_lower(query[k]) by {
            if found && k > 0 {
                assert(at[k] == inner[k - 1] + 1);
                assert(rest[inner[k - 1]] == text[at[k]]);
            } else if !found {
                assert(at[k] == inner[k] + 1);
                assert(rest[inner[k]] == text[at[k]]);
            }
        }
        assert forall|k: int, m: int| 0 <= k < m < at.len() implies #[trigger] at[k]
            < #[trigger] at[m] by {
            if found {
                assert(at[m] == inner[m - 1] + 1);
                if k > 0 {
                    assert(at[k] == inner[k - 1] + 1);
                }
            } else {
                assert(at[k] == inner[k] + 1 && at[m] == inner[m] + 1);
            }
        }
        assert(places_in(query, text, at));
    }
}

/// What has places in a text occurs there.
pub proof fn law_what_has_places_occurs(query: Seq<char>, text: Seq<char>, at: Seq<int>)
    requires
        places_in(query, text, at),
    ensures
        occurs_in(query, text),
    decreases text.len(),
{
    if query.len() > 0 {
        assert(0 <= at[0] < text.len());
        let rest = text.drop_first();
        if ascii_lower(text[0]) == ascii_lower(query[0]) {
            let q = query.drop_first();
            let next = at.drop_first().map_values(|i: int| i - 1);
            assert forall|k: int| 0 <= k < next.len() implies 0 <= #[trigger] next[k] < rest.len()
                && ascii_lower(rest[next[k]]) == ascii_lower(q[k]) by {
                assert(at[0] < at[k + 1]);
                assert(next[k] == at[k + 1] - 1);
                assert(rest[next[k]] == text[at[k + 1]]);
            }
            assert forall|k: int, m: int| 0 <= k < m < next.len() implies #[trigger] next[k]
                < #[trigger] next[m] by {
                assert(at[k + 1] < at[m + 1]);
            }
            law_what_has_places_occurs(q, rest, next);
        } else {
            let next = at.map_values(|i: int| i - 1);
            assert forall|k: int| 0 <= k < next.len() implies 0 <= #[trigger] next[k] < rest.len()
                && ascii_lower(rest[next[k]]) == ascii_lower(query[k]) by {
                if k > 0 {
                    assert(at[0] < at[k]);
                }
                assert(at[0] != 0);
                assert(0 <= at[k] < text.len());
                assert(rest[next[k]] == text[at[k]]);
            }
            assert forall|k: int, m: int| 0 <= k < m < next.len() implies #[trigger] next[k]
                < #[trigger] next[m] by {
                assert(at[k] < at[m]);
            }
            law_what_has_places_occurs(query, rest, next);
        }
    }
}

/// A row more, with its score, is a match more exactly if there is no query or
/// it has a score, and changes nothing about the others.
pub proof fn law_scored_rows_match_on_their_own(
    list: Seq<ItemView>,
    scores: Seq<Option<i64>>,
    item: ItemView,
    score: Option<i64>,
)
    requires
        list.len() == scores.len(),
    ensures
        hits_with(list.push(item), false, scores.push(score)) == hits_with(
            list,
            false,
            scores,
        ).push((MatchView { item, score: None })),
        score is Some ==> hits_with(list.push(item), true, scores.push(score)) == hits_with(
            list,
            true,
            scores,
        ).push((MatchView { item, score })),
        score is None ==> hits_with(list.push(item), true, scores.push(score)) == hits_with(
            list,
            true,
            scores,
        ),
{
    let more = scores.push(score);
    assert(list.push(item).drop_last() =~= list);
    lemma_same_scores(list, true, more, scores);
    lemma_same_scores(list, false, more, scores);
}

/// A match is found by the first that is recognised.
pub proof fn law_matches_are_found_by_the_first(
    list: Seq<MatchView>,
    id: (ItemKind, Seq<char>, Seq<char>),
    i: int,
)
    requires
        0 <= i <= list.len(),
        forall|j: int| 0 <= j < i ==> tree::identity((#[trigger] list[j]).item) != id,
        i < list.len() ==> tree::identity(list[i].item) == id,
    ensures
        match_position(list, id) == if i < list.len() {
            Some(i)
        } else {
            None
        },
    decreases list.len(),
{
    if list.len() > 0 {
        let before = list.drop_last();
        assert(list[list.len() - 1] == list.last());
        let k = if i < before.len() {
            i
        } else {
            before.len() as int
        };
        assert forall|j: int| 0 <= j < k implies tree::identity((#[trigger] before[j]).item)
            != id by {
            assert(before[j] == list[j]);
        }
        law_matches_are_found_by_the_first(before, id, k);
    }
}

} // verus!
