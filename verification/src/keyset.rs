//! A set of texts.

use crate::text;
use vstd::prelude::*;

verus! {

/// A set of texts. Its view is the set of what they hold.
#[derive(Debug)]
pub struct KeySet {
    keys: Vec<String>,
}

impl View for KeySet {
    type V = Set<Seq<char>>;

    closed spec fn view(&self) -> Set<Seq<char>> {
        text::texts(self.keys@).to_set()
    }
}

impl KeySet {
    /// The empty set.
    pub fn new() -> (r: KeySet)
        ensures
            r@ == Set::<Seq<char>>::empty(),
    {
        let r = KeySet { keys: Vec::new() };
        assert(r@ =~= Set::<Seq<char>>::empty());
        r
    }

    /// Whether the set holds `key`.
    pub fn contains(&self, key: &str) -> (r: bool)
        ensures
            r == self@.contains(key@),
    {
        text::has_text(&self.keys, key)
    }

    /// Adds `key`, and says whether it was new.
    pub fn insert(&mut self, key: String) -> (r: bool)
        ensures
            r == !old(self)@.contains(key@),
            final(self)@ == old(self)@.insert(key@),
    {
        let ghost before = text::texts(self.keys@);
        if text::has_text(&self.keys, key.as_str()) {
            assert(self@.insert(key@) =~= self@);
            return false;
        }
        let ghost added = key@;
        self.keys.push(key);
        proof {
            let after = text::texts(self.keys@);
            assert(after =~= before.push(added));
            assert(after[before.len() as int] == added);
            assert forall|s: Seq<char>| before.contains(s) implies #[trigger] after.contains(s) by {
                let i = choose|i: int| 0 <= i < before.len() && before[i] == s;
                assert(after[i] == s);
            }
            assert(after.to_set() =~= before.to_set().insert(added));
        }
        true
    }

    /// Takes `key` out, and says whether it was there.
    pub fn remove(&mut self, key: &str) -> (r: bool)
        ensures
            r == old(self)@.contains(key@),
            final(self)@ == old(self)@.remove(key@),
    {
        let found = text::has_text(&self.keys, key);
        let ghost before = text::texts(self.keys@);
        let mut kept: Vec<String> = Vec::new();
        let mut i: usize = 0;
        while i < self.keys.len()
            invariant
                i <= self.keys@.len(),
                before == text::texts(self.keys@),
                self.keys@ == old(self).keys@,
                forall|j: int|
                    0 <= j < kept@.len() ==> #[trigger] text::texts(kept@)[j] != key@
                        && before.contains(text::texts(kept@)[j]),
                forall|j: int|
                    0 <= j < i && before[j] != key@ ==> text::texts(kept@).contains(
                        #[trigger] before[j],
                    ),
            decreases self.keys@.len() - i,
        {
            if !self.keys[i].as_str().eq(key) {
                let ghost held = text::texts(kept@);
                kept.push(self.keys[i].clone());
                proof {
                    let now = text::texts(kept@);
                    assert(now =~= held.push(before[i as int]));
                    assert(now[held.len() as int] == before[i as int]);
                    assert forall|j: int| 0 <= j < i && before[j] != key@ implies now.contains(
                        #[trigger] before[j],
                    ) by {
                        let m = choose|m: int| 0 <= m < held.len() && held[m] == before[j];
                        assert(now[m] == before[j]);
                    }
                    assert forall|j: int| 0 <= j < kept@.len() implies #[trigger] now[j] != key@
                        && before.contains(now[j]) by {
                        if j < held.len() {
                            assert(now[j] == held[j]);
                        }
                    }
                }
            }
            i += 1;
        }
        self.keys = kept;
        assert(text::texts(self.keys@).to_set() =~= before.to_set().remove(key@));
        found
    }

    /// Takes every key out.
    pub fn clear(&mut self)
        ensures
            final(self)@ == Set::<Seq<char>>::empty(),
    {
        self.keys = Vec::new();
        assert(self@ =~= Set::<Seq<char>>::empty());
    }
}

} // verus!
