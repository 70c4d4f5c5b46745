//! Reports on what was collected: which chords are taken, and how many rows of
//! each kind there are.

use crate::items;
use crate::items::{Item, ItemView};
use crate::text;
use crate::text::Order;
use vstd::prelude::*;
use vstd::string::*;

verus! {

/// What is filed under a key.
#[derive(Debug)]
pub struct Entry {
    pub key: String,
    pub titles: Vec<String>,
}

/// What an [`Entry`] holds: the key, and what is filed under it.
pub type EntryView = (Seq<char>, Seq<Seq<char>>);

impl View for Entry {
    type V = EntryView;

    open spec fn view(&self) -> EntryView {
        (self.key@, text::texts(self.titles@))
    }
}

/// What each entry of an index holds.
pub open spec fn entry_views(list: Seq<Entry>) -> Seq<EntryView> {
    list.map_values(|e: Entry| e@)
}

/// An index with `title` filed under `key`, the keys in order.
pub open spec fn filed(index: Seq<EntryView>, key: Seq<char>, title: Seq<char>) -> Seq<EntryView>
    decreases index.len(),
{
    if index.len() == 0 {
        seq![(key, seq![title])]
    } else {
        match text::text_order(key, index[0].0) {
            Order::Less => seq![(key, seq![title])] + index,
            Order::Equal => seq![(index[0].0, index[0].1.push(title))] + index.drop_first(),
            Order::Greater => seq![index[0]] + filed(index.drop_first(), key, title),
        }
    }
}

/// An index with `title` filed under each of `keys`.
pub open spec fn filed_under(
    index: Seq<EntryView>,
    keys: Seq<Seq<char>>,
    title: Seq<char>,
) -> Seq<EntryView>
    decreases keys.len(),
{
    if keys.len() == 0 {
        index
    } else {
        filed(filed_under(index, keys.drop_last(), title), keys.last(), title)
    }
}

/// The titles of the rows, filed under their chords.
pub open spec fn chord_index(list: Seq<ItemView>) -> Seq<EntryView>
    decreases list.len(),
{
    if list.len() == 0 {
        Seq::empty()
    } else {
        filed_under(chord_index(list.drop_last()), list.last().keys, list.last().title)
    }
}

/// The titles of the rows, filed under the labels of their kinds.
pub open spec fn kind_index(list: Seq<ItemView>) -> Seq<EntryView>
    decreases list.len(),
{
    if list.len() == 0 {
        Seq::empty()
    } else {
        filed(kind_index(list.drop_last()), list.last().kind.label(), list.last().title)
    }
}

/// `s`, filled up with spaces to `width` characters.
pub open spec fn padded(s: Seq<char>, width: nat) -> Seq<char> {
    if s.len() < width {
        s + text::repeated(" "@, (width - s.len()) as nat)
    } else {
        s
    }
}

/// The line of a chord: the chord, and the titles of the rows that it is bound
/// to.
pub open spec fn chord_line(entry: EntryView) -> Seq<char> {
    "  "@ + padded(entry.0, 22) + " → "@ + text::joined(entry.1, ", "@)
}

/// The line of a kind: its label, and how many rows it has.
pub open spec fn kind_line(entry: EntryView) -> Seq<char> {
    "  "@ + entry.0 + ": "@ + text::digits(entry.1.len())
}

/// The report on the chords that are taken.
pub open spec fn chord_report(list: Seq<ItemView>) -> Seq<Seq<char>> {
    let index = chord_index(list);
    seq!["occupied chords ("@ + text::digits(index.len()) + "):"@] + index.map_values(
        |entry: EntryView| chord_line(entry),
    )
}

/// The report on the kinds of rows.
pub open spec fn kind_report(list: Seq<ItemView>) -> Seq<Seq<char>> {
    seq!["collected "@ + text::digits(list.len()) + " items:"@] + kind_index(list).map_values(
        |entry: EntryView| kind_line(entry),
    )
}

/// Files `title` under `key`.
fn file(index: &mut Vec<Entry>, key: &str, title: &str)
    ensures
        entry_views(final(index)@) == filed(entry_views(old(index)@), key@, title@),
{
    let ghost all = entry_views(index@);
    let mut i: usize = 0;
    assert(all.skip(0) =~= all);
    assert(all.take(0) + filed(all, key@, title@) =~= filed(all, key@, title@));
    while i < index.len() && text::order_texts(key, index[i].key.as_str()) == Order::Greater
        invariant
            i <= index@.len(),
            all == entry_views(index@),
            filed(all, key@, title@) == all.take(i as int) + filed(
                all.skip(i as int),
                key@,
                title@,
            ),
        decreases index@.len() - i,
    {
        assert(all.skip(i as int)[0] == index@[i as int]@);
        assert(all.skip(i as int).drop_first() =~= all.skip(i + 1));
        assert(all.take(i + 1) =~= all.take(i as int) + seq![all[i as int]]);
        i += 1;
        assert(filed(all, key@, title@) =~= all.take(i as int) + filed(
            all.skip(i as int),
            key@,
            title@,
        ));
    }
    if i < index.len() {
        assert(all.skip(i as int)[0] == index@[i as int]@);
    }
    if i < index.len() && text::order_texts(key, index[i].key.as_str()) == Order::Equal {
        let mut entry = index.remove(i);
        let ghost was = entry@;
        assert(was == all[i as int]);
        entry.titles.push(title.to_owned());
        assert(text::texts(entry.titles@) =~= was.1.push(title@));
        let ghost now = entry@;
        index.insert(i, entry);
        assert(all.skip(i as int).drop_first() =~= all.skip(i + 1));
        assert(entry_views(index@) =~= all.take(i as int) + (seq![now] + all.skip(i + 1)));
    } else {
        let mut titles: Vec<String> = Vec::new();
        titles.push(title.to_owned());
        assert(text::texts(titles@) =~= seq![title@]);
        let entry = Entry { key: key.to_owned(), titles };
        let ghost now = entry@;
        index.insert(i, entry);
        proof {
            if i == all.len() {
                assert(all.skip(i as int) =~= Seq::empty());
            }
        }
        assert(filed(all.skip(i as int), key@, title@) =~= seq![now] + all.skip(i as int));
        assert(entry_views(index@) =~= all.take(i as int) + (seq![now] + all.skip(i as int)));
    }
}

/// Files the titles of the rows under their chords.
fn index_chords(list: &Vec<Item>) -> (r: Vec<Entry>)
    ensures
        entry_views(r@) == chord_index(items::item_views(list@)),
{
    let ghost all = items::item_views(list@);
    let mut index: Vec<Entry> = Vec::new();
    assert(entry_views(index@) =~= Seq::empty());
    let mut i: usize = 0;
    while i < list.len()
        invariant
            i <= list@.len(),
            all == items::item_views(list@),
            entry_views(index@) == chord_index(all.take(i as int)),
        decreases list@.len() - i,
    {
        let ghost before = entry_views(index@);
        let ghost keys = text::texts(list@[i as int].keys@);
        let mut k: usize = 0;
        assert(keys.take(0) =~= Seq::empty());
        while k < list[i].keys.len()
            invariant
                i < list@.len(),
                k <= list@[i as int].keys@.len(),
                keys == text::texts(list@[i as int].keys@),
                entry_views(index@) == filed_under(
                    before,
                    keys.take(k as int),
                    list@[i as int].title@,
                ),
            decreases list@[i as int].keys@.len() - k,
        {
            file(&mut index, list[i].keys[k].as_str(), list[i].title.as_str());
            assert(keys.take(k + 1).drop_last() =~= keys.take(k as int));
            assert(keys.take(k + 1).last() == list@[i as int].keys@[k as int]@);
            k += 1;
        }
        assert(keys.take(k as int) =~= keys);
        assert(all.take(i + 1).drop_last() =~= all.take(i as int));
        assert(all.take(i + 1).last() == list@[i as int]@);
        i += 1;
    }
    assert(all.take(i as int) =~= all);
    index
}

/// Files the titles of the rows under the labels of their kinds.
fn index_kinds(list: &Vec<Item>) -> (r: Vec<Entry>)
    ensures
        entry_views(r@) == kind_index(items::item_views(list@)),
{
    let ghost all = items::item_views(list@);
    let mut index: Vec<Entry> = Vec::new();
    assert(entry_views(index@) =~= Seq::empty());
    let mut i: usize = 0;
    while i < list.len()
        invariant
            i <= list@.len(),
            all == items::item_views(list@),
            entry_views(index@) == kind_index(all.take(i as int)),
        decreases list@.len() - i,
    {
        file(&mut index, list[i].kind.category_label(), list[i].title.as_str());
        assert(all.take(i + 1).drop_last() =~= all.take(i as int));
        assert(all.take(i + 1).last() == list@[i as int]@);
        i += 1;
    }
    assert(all.take(i as int) =~= all);
    index
}

/// `s`, filled up with spaces to `width` characters.
fn pad(s: &str, width: usize) -> (r: String)
    ensures
        r@ == padded(s@, width as nat),
{
    let chars = text::chars_of(s);
    if chars.len() < width {
        let fill = text::repeat(" ", width - chars.len());
        text::concat(s, fill.as_str())
    } else {
        s.to_owned()
    }
}

/// The report on the chords that are taken: how many there are, and each with
/// the titles of the rows that it is bound to.
pub fn report_chords(list: &Vec<Item>) -> (r: Vec<String>)
    ensures
        text::texts(r@) == chord_report(items::item_views(list@)),
{
    let index = index_chords(list);
    let ghost entries = entry_views(index@);
    let ghost want = entries.map_values(|entry: EntryView| chord_line(entry));
    let mut head = "occupied chords (".to_owned();
    let count = text::count_of(index.len());
    head.append(count.as_str());
    head.append("):");
    let ghost first = head@;
    let mut out: Vec<String> = Vec::new();
    out.push(head);
    assert(text::texts(out@) =~= seq![first] + want.take(0));
    let mut i: usize = 0;
    while i < index.len()
        invariant
            i <= index@.len(),
            entries == entry_views(index@),
            want == entries.map_values(|entry: EntryView| chord_line(entry)),
            text::texts(out@) == seq![first] + want.take(i as int),
        decreases index@.len() - i,
    {
        let ghost before = text::texts(out@);
        let key = pad(index[i].key.as_str(), 22);
        let titles = text::join(&index[i].titles, ", ");
        let mut line = text::concat("  ", key.as_str());
        line.append(" → ");
        line.append(titles.as_str());
        let ghost made = line@;
        assert(made == want[i as int]);
        out.push(line);
        assert(text::texts(out@) =~= before.push(made));
        assert(want.take(i + 1) =~= want.take(i as int).push(want[i as int]));
        i += 1;
    }
    assert(want.take(i as int) =~= want);
    out
}

/// The report on the kinds of rows: how many rows there are, and how many of
/// each kind.
pub fn report_kinds(list: &Vec<Item>) -> (r: Vec<String>)
    ensures
        text::texts(r@) == kind_report(items::item_views(list@)),
{
    let index = index_kinds(list);
    let ghost entries = entry_views(index@);
    let ghost want = entries.map_values(|entry: EntryView| kind_line(entry));
    let mut head = "collected ".to_owned();
    let count = text::count_of(list.len());
    head.append(count.as_str());
    head.append(" items:");
    let ghost first = head@;
    let mut out: Vec<String> = Vec::new();
    out.push(head);
    assert(text::texts(out@) =~= seq![first] + want.take(0));
    let mut i: usize = 0;
    while i < index.len()
        invariant
            i <= index@.len(),
            entries == entry_views(index@),
            want == entries.map_values(|entry: EntryView| kind_line(entry)),
            text::texts(out@) == seq![first] + want.take(i as int),
        decreases index@.len() - i,
    {
        let ghost before = text::texts(out@);
        let count = text::count_of(index[i].titles.len());
        let mut line = text::concat("  ", index[i].key.as_str());
        line.append(": ");
        line.append(count.as_str());
        let ghost made = line@;
        assert(index@[i as int].titles@.len() == entries[i as int].1.len());
        assert(made == want[i as int]);
        out.push(line);
        assert(text::texts(out@) =~= before.push(made));
        assert(want.take(i + 1) =~= want.take(i as int).push(want[i as int]));
        i += 1;
    }
    assert(want.take(i as int) =~= want);
    out
}

/// Whether the keys of an index stand in order, none of them twice.
pub open spec fn in_order(index: Seq<EntryView>) -> bool {
    forall|i: int, j: int|
        0 <= i < j < index.len() ==> text::text_order(
            (#[trigger] index[i]).0,
            (#[trigger] index[j]).0,
        ) == Order::Less
}

/// What an index has under a key.
pub open spec fn under(index: Seq<EntryView>, key: Seq<char>) -> Seq<Seq<char>>
    decreases index.len(),
{
    if index.len() == 0 {
        Seq::empty()
    } else if index[0].0 == key {
        index[0].1
    } else {
        under(index.drop_first(), key)
    }
}

/// How many times a list of keys holds a chord.
pub open spec fn times(keys: Seq<Seq<char>>, chord: Seq<char>) -> nat
    decreases keys.len(),
{
    if keys.len() == 0 {
        0
    } else if keys.last() == chord {
        times(keys.drop_last(), chord) + 1
    } else {
        times(keys.drop_last(), chord)
    }
}

/// `n` copies of a title.
pub open spec fn copies(title: Seq<char>, n: nat) -> Seq<Seq<char>> {
    Seq::new(n, |i: int| title)
}

/// The titles of the rows bound to a chord, once for each time that they list
/// it.
pub open spec fn bound_to(list: Seq<ItemView>, chord: Seq<char>) -> Seq<Seq<char>>
    decreases list.len(),
{
    if list.len() == 0 {
        Seq::empty()
    } else {
        bound_to(list.drop_last(), chord) + copies(
            list.last().title,
            times(list.last().keys, chord),
        )
    }
}

/// Filing keeps the order, and adds the title under the key and nowhere else.
proof fn lemma_filed(index: Seq<EntryView>, key: Seq<char>, title: Seq<char>)
    requires
        in_order(index),
    ensures
        in_order(filed(index, key, title)),
        forall|other: Seq<char>| #[trigger]
            under(filed(index, key, title), other) == if other == key {
                under(index, other).push(title)
            } else {
                under(index, other)
            },
        forall|i: int|
            0 <= i < filed(index, key, title).len() ==> (#[trigger] filed(index, key, title)[i]).0
                == key || exists|j: int|
                0 <= j < index.len() && (#[trigger] index[j]).0 == filed(index, key, title)[i].0,
    decreases index.len(),
{
    let after = filed(index, key, title);
    reveal_with_fuel(under, 2);
    if index.len() == 0 {
        assert(after.drop_first() =~= Seq::empty());
        assert(Seq::<Seq<char>>::empty().push(title) =~= seq![title]);
    } else {
        let rest = index.drop_first();
        text::lemma_text_order_symmetric(key, index[0].0);
        assert forall|i: int, j: int| 0 <= i < j < rest.len() implies text::text_order(
            (#[trigger] rest[i]).0,
            (#[trigger] rest[j]).0,
        ) == Order::Less by {
            assert(rest[i] == index[i + 1] && rest[j] == index[j + 1]);
        }
        match text::text_order(key, index[0].0) {
            Order::Less => {
                assert(after.drop_first() =~= index);
                assert forall|i: int, j: int| 0 <= i < j < after.len() implies text::text_order(
                    (#[trigger] after[i]).0,
                    (#[trigger] after[j]).0,
                ) == Order::Less by {
                    assert(after[j] == index[j - 1]);
                    if i > 0 {
                        assert(after[i] == index[i - 1]);
                    } else if j > 1 {
                        lemma_order_chain(key, index[0].0, index[j - 1].0);
                    }
                }
                lemma_absent(index, key);
                assert(under(index, key).push(title) =~= seq![title]);
                assert forall|i: int| 0 <= i < after.len() implies (#[trigger] after[i]).0 == key
                    || exists|j: int|
                    0 <= j < index.len() && (#[trigger] index[j]).0 == after[i].0 by {
                    if i > 0 {
                        assert(after[i] == index[i - 1]);
                    }
                }
            },
            Order::Equal => {
                assert(after.drop_first() =~= rest);
                assert forall|i: int, j: int| 0 <= i < j < after.len() implies text::text_order(
                    (#[trigger] after[i]).0,
                    (#[trigger] after[j]).0,
                ) == Order::Less by {
                    assert(after[i].0 == index[i].0 && after[j].0 == index[j].0);
                }
                assert forall|i: int| 0 <= i < after.len() implies (#[trigger] after[i]).0 == key
                    || exists|j: int|
                    0 <= j < index.len() && (#[trigger] index[j]).0 == after[i].0 by {
                    assert(after[i].0 == index[i].0);
                }
            },
            Order::Greater => {
                let inner = filed(rest, key, title);
                lemma_filed(rest, key, title);
                assert(after.drop_first() =~= inner);
                assert forall|i: int, j: int| 0 <= i < j < after.len() implies text::text_order(
                    (#[trigger] after[i]).0,
                    (#[trigger] after[j]).0,
                ) == Order::Less by {
                    assert(after[j] == inner[j - 1]);
                    if i > 0 {
                        assert(after[i] == inner[i - 1]);
                    } else if inner[j - 1].0 != key {
                        let k = choose|k: int|
                            0 <= k < rest.len() && (#[trigger] rest[k]).0 == inner[j - 1].0;
                        assert(rest[k] == index[k + 1]);
                    }
                }
                assert forall|other: Seq<char>| #[trigger]
                    under(after, other) == if other == key {
                        under(index, other).push(title)
                    } else {
                        under(index, other)
                    } by {
                    assert(under(inner, other) == if other == key {
                        under(rest, other).push(title)
                    } else {
                        under(rest, other)
                    });
                }
                assert forall|i: int| 0 <= i < after.len() implies (#[trigger] after[i]).0 == key
                    || exists|j: int|
                    0 <= j < index.len() && (#[trigger] index[j]).0 == after[i].0 by {
                    if i == 0 {
                        assert(index[0].0 == after[i].0);
                    } else {
                        assert(after[i] == inner[i - 1]);
                        if inner[i - 1].0 != key {
                            let k = choose|k: int|
                                0 <= k < rest.len() && (#[trigger] rest[k]).0 == inner[i - 1].0;
                            assert(rest[k] == index[k + 1]);
                        }
                    }
                }
            },
        }
    }
}

proof fn lemma_order_chain(a: Seq<char>, b: Seq<char>, c: Seq<char>)
    requires
        text::text_order(a, b) == Order::Less,
        text::text_order(b, c) == Order::Less,
    ensures
        text::text_order(a, c) == Order::Less,
{
    text::lemma_text_order_transitive(a, b, c);
    text::lemma_text_order_symmetric(a, b);
    text::lemma_text_order_symmetric(b, c);
    text::lemma_text_order_symmetric(a, c);
}

/// A key in front of the first one is not in the index.
proof fn lemma_absent(index: Seq<EntryView>, key: Seq<char>)
    requires
        in_order(index),
        index.len() > 0 ==> text::text_order(key, index[0].0) == Order::Less,
    ensures
        under(index, key) == Seq::<Seq<char>>::empty(),
    decreases index.len(),
{
    if index.len() > 0 {
        text::lemma_text_order_symmetric(key, index[0].0);
        let rest = index.drop_first();
        assert forall|i: int, j: int| 0 <= i < j < rest.len() implies text::text_order(
            (#[trigger] rest[i]).0,
            (#[trigger] rest[j]).0,
        ) == Order::Less by {
            assert(rest[i] == index[i + 1] && rest[j] == index[j + 1]);
        }
        if rest.len() > 0 {
            assert(rest[0] == index[1]);
            lemma_order_chain(key, index[0].0, index[1].0);
        }
        lemma_absent(rest, key);
    }
}

proof fn lemma_filed_under(
    index: Seq<EntryView>,
    keys: Seq<Seq<char>>,
    title: Seq<char>,
    chord: Seq<char>,
)
    requires
        in_order(index),
    ensures
        in_order(filed_under(index, keys, title)),
        under(filed_under(index, keys, title), chord) == under(index, chord) + copies(
            title,
            times(keys, chord),
        ),
    decreases keys.len(),
{
    if keys.len() > 0 {
        lemma_filed_under(index, keys.drop_last(), title, chord);
        lemma_filed(filed_under(index, keys.drop_last(), title), keys.last(), title);
        let n = times(keys.drop_last(), chord);
        assert(copies(title, n + 1) =~= copies(title, n).push(title));
    }
    assert(under(filed_under(index, keys, title), chord) =~= under(index, chord) + copies(
        title,
        times(keys, chord),
    ));
}

/// The report lists each chord once, in order, with the titles of all rows
/// that are bound to it.
pub proof fn law_every_chord_is_reported(list: Seq<ItemView>, chord: Seq<char>)
    ensures
        in_order(chord_index(list)),
        under(chord_index(list), chord) == bound_to(list, chord),
    decreases list.len(),
{
    if list.len() > 0 {
        law_every_chord_is_reported(list.drop_last(), chord);
        lemma_filed_under(
            chord_index(list.drop_last()),
            list.last().keys,
            list.last().title,
            chord,
        );
    }
}

/// How many of the rows are of the kind with that label.
pub open spec fn rows_of_kind(list: Seq<ItemView>, label: Seq<char>) -> nat
    decreases list.len(),
{
    if list.len() == 0 {
        0
    } else {
        rows_of_kind(list.drop_last(), label) + if list.last().kind.label() == label {
            1nat
        } else {
            0
        }
    }
}

/// The report counts the rows of each kind, and lists each kind once, in order.
pub proof fn law_every_kind_is_counted(list: Seq<ItemView>, label: Seq<char>)
    ensures
        in_order(kind_index(list)),
        under(kind_index(list), label).len() == rows_of_kind(list, label),
    decreases list.len(),
{
    if list.len() > 0 {
        law_every_kind_is_counted(list.drop_last(), label);
        lemma_filed(
            kind_index(list.drop_last()),
            list.last().kind.label(),
            list.last().title,
        );
    }
}

/// An index has something under each of its keys.
proof fn lemma_nothing_is_filed_empty(index: Seq<EntryView>, key: Seq<char>, title: Seq<char>)
    requires
        forall|i: int| 0 <= i < index.len() ==> (#[trigger] index[i]).1.len() > 0,
    ensures
        forall|i: int|
            0 <= i < filed(index, key, title).len() ==> (#[trigger] filed(index, key, title)[i]).1.len()
                > 0,
    decreases index.len(),
{
    let after = filed(index, key, title);
    if index.len() > 0 {
        let rest = index.drop_first();
        assert forall|i: int| 0 <= i < rest.len() implies (#[trigger] rest[i]).1.len() > 0 by {
            assert(rest[i] == index[i + 1]);
        }
        lemma_nothing_is_filed_empty(rest, key, title);
        assert forall|i: int| 0 <= i < after.len() implies (#[trigger] after[i]).1.len() > 0 by {
            match text::text_order(key, index[0].0) {
                Order::Less => {
                    if i > 0 {
                        assert(after[i] == index[i - 1]);
                    }
                },
                Order::Equal => {
                    if i > 0 {
                        assert(after[i] == rest[i - 1]);
                    }
                },
                Order::Greater => {
                    if i > 0 {
                        assert(after[i] == filed(rest, key, title)[i - 1]);
                    } else {
                        assert(after[0] == index[0]);
                    }
                },
            }
        }
    }
}

/// What an index in order has under the key of one of its entries is that
/// entry's.
proof fn lemma_under_its_key(index: Seq<EntryView>, i: int)
    requires
        in_order(index),
        0 <= i < index.len(),
    ensures
        under(index, index[i].0) == index[i].1,
    decreases index.len(),
{
    if i > 0 {
        let rest = index.drop_first();
        assert forall|a: int, b: int| 0 <= a < b < rest.len() implies text::text_order(
            (#[trigger] rest[a]).0,
            (#[trigger] rest[b]).0,
        ) == Order::Less by {
            assert(rest[a] == index[a + 1] && rest[b] == index[b + 1]);
        }
        assert(text::text_order(index[0].0, index[i].0) == Order::Less);
        text::lemma_text_order_symmetric(index[0].0, index[i].0);
        assert(rest[i - 1] == index[i]);
        lemma_under_its_key(rest, i - 1);
    }
}

/// The report says how many chords are taken, and then of each, in order, the
/// titles of the rows that are bound to it.
pub proof fn law_chords_are_reported_with_their_rows(list: Seq<ItemView>, i: int)
    requires
        0 <= i < chord_index(list).len(),
    ensures
        chord_report(list).len() == chord_index(list).len() + 1,
        chord_report(list)[0] == "occupied chords ("@ + text::digits(chord_index(list).len())
            + "):"@,
        chord_report(list)[i + 1] == "  "@ + padded(chord_index(list)[i].0, 22) + " → "@
            + text::joined(bound_to(list, chord_index(list)[i].0), ", "@),
{
    let index = chord_index(list);
    law_every_chord_is_reported(list, index[i].0);
    lemma_under_its_key(index, i);
}

/// The report says how many rows there are, and then of each kind how many.
pub proof fn law_kinds_are_reported_with_their_number(list: Seq<ItemView>, i: int)
    requires
        0 <= i < kind_index(list).len(),
    ensures
        kind_report(list).len() == kind_index(list).len() + 1,
        kind_report(list)[0] == "collected "@ + text::digits(list.len()) + " items:"@,
        kind_report(list)[i + 1] == "  "@ + kind_index(list)[i].0 + ": "@ + text::digits(
            rows_of_kind(list, kind_index(list)[i].0),
        ),
{
    let index = kind_index(list);
    law_every_kind_is_counted(list, index[i].0);
    lemma_under_its_key(index, i);
}

/// A chord that no row has is not reported: what is filed under a key was filed
/// there.
pub proof fn law_reported_chords_are_bound(list: Seq<ItemView>, i: int)
    requires
        0 <= i < chord_index(list).len(),
    ensures
        bound_to(list, chord_index(list)[i].0).len() > 0,
{
    let index = chord_index(list);
    law_every_chord_is_reported(list, index[i].0);
    lemma_under_its_key(index, i);
    lemma_chords_are_filed(list);
}

proof fn lemma_chords_are_filed(list: Seq<ItemView>)
    ensures
        forall|i: int|
            0 <= i < chord_index(list).len() ==> (#[trigger] chord_index(list)[i]).1.len() > 0,
    decreases list.len(),
{
    if list.len() > 0 {
        lemma_chords_are_filed(list.drop_last());
        lemma_filed_under_something(
            chord_index(list.drop_last()),
            list.last().keys,
            list.last().title,
        );
    }
}

proof fn lemma_filed_under_something(
    index: Seq<EntryView>,
    keys: Seq<Seq<char>>,
    title: Seq<char>,
)
    requires
        forall|i: int| 0 <= i < index.len() ==> (#[trigger] index[i]).1.len() > 0,
    ensures
        forall|i: int|
            0 <= i < filed_under(index, keys, title).len() ==> (#[trigger] filed_under(
                index,
                keys,
                title,
            )[i]).1.len() > 0,
    decreases keys.len(),
{
    if keys.len() > 0 {
        lemma_filed_under_something(index, keys.drop_last(), title);
        lemma_nothing_is_filed_empty(
            filed_under(index, keys.drop_last(), title),
            keys.last(),
            title,
        );
    }
}

/// Padding keeps the text and fills it up with spaces to the width, and no
/// further.
pub proof fn law_padding_fills_up_with_spaces(s: Seq<char>, width: nat)
    ensures
        padded(s, width).len() == if s.len() < width {
            width
        } else {
            s.len()
        },
        padded(s, width).take(s.len() as int) == s,
        forall|i: int|
            s.len() <= i < padded(s, width).len() ==> #[trigger] padded(s, width)[i] == ' ',
{
    if s.len() < width {
        let n = (width - s.len()) as nat;
        lemma_spaces(n);
        let fill = text::repeated(" "@, n);
        assert forall|i: int| s.len() <= i < padded(s, width).len() implies #[trigger] padded(
            s,
            width,
        )[i] == ' ' by {
            assert(padded(s, width)[i] == fill[i - s.len()]);
        }
    }
    assert(padded(s, width).take(s.len() as int) =~= s);
}

proof fn lemma_spaces(n: nat)
    ensures
        text::repeated(" "@, n).len() == n,
        text::is_all(text::repeated(" "@, n), ' '),
    decreases n,
{
    reveal_strlit(" ");
    if n > 0 {
        lemma_spaces((n - 1) as nat);
        let before = text::repeated(" "@, (n - 1) as nat);
        let all = text::repeated(" "@, n);
        assert forall|i: int| 0 <= i < all.len() implies #[trigger] all[i] == ' ' by {
            if i < before.len() {
                assert(all[i] == before[i]);
            }
        }
    }
}

} // verus!
