//! Keyed texts: an option set of text keys with text values, where setting
//! a key again replaces its value (it stands for the JSON objects of options
//! that the engines are sent), and a set of texts.
use crate::text::{chars_of, seq_eq, string_of};
use vstd::prelude::*;

verus! {

pub struct OptionMap {
    entries: Vec<(Vec<char>, Vec<char>)>,
}

impl View for OptionMap {
    type V = Map<Seq<char>, Seq<char>>;

    closed spec fn view(&self) -> Map<Seq<char>, Seq<char>> {
        Map::new(
            |k: Seq<char>| exists|i: int| 0 <= i < self.entries@.len() && self.entries@[i].0@ == k,
            |k: Seq<char>|
                self.entries@[choose|i: int|
                    0 <= i < self.entries@.len() && self.entries@[i].0@ == k].1@,
        )
    }
}

impl OptionMap {
    /// No key appears twice.
    pub closed spec fn wf(&self) -> bool {
        forall|i: int, j: int|
            0 <= i < j < self.entries@.len() ==> self.entries@[i].0@ != self.entries@[j].0@
    }

    proof fn lemma_lookup(&self, k: Seq<char>, i: int)
        requires
            self.wf(),
            0 <= i < self.entries@.len(),
            self.entries@[i].0@ == k,
        ensures
            self@.contains_key(k),
            self@[k] == self.entries@[i].1@,
    {
        let c = choose|c: int| 0 <= c < self.entries@.len() && self.entries@[c].0@ == k;
        assert(0 <= c < self.entries@.len() && self.entries@[c].0@ == k);
        if c != i {
            if c < i {
                assert(self.entries@[c].0@ != self.entries@[i].0@);
            } else {
                assert(self.entries@[i].0@ != self.entries@[c].0@);
            }
        }
    }

    pub fn new() -> (m: Self)
        ensures
            m.wf(),
            m@ == Map::<Seq<char>, Seq<char>>::empty(),
    {
        let m = OptionMap { entries: Vec::new() };
        proof {
            assert(m@ =~= Map::<Seq<char>, Seq<char>>::empty());
        }
        m
    }

    /// Sets `key` to `value`, replacing any earlier value.
    pub fn insert(&mut self, key: Vec<char>, value: Vec<char>)
        requires
            old(self).wf(),
        ensures
            final(self).wf(),
            final(self)@ == old(self)@.insert(key@, value@),
    {
        let ghost k = key@;
        let ghost v = value@;
        let mut i: usize = 0;
        while i < self.entries.len()
            invariant
                i <= self.entries@.len(),
                self.wf(),
                self == old(self),
                key@ == k,
                value@ == v,
                forall|j: int| 0 <= j < i ==> self.entries@[j].0@ != k,
            decreases self.entries.len() - i,
        {
            if seq_eq(&self.entries[i].0, &key) {
                let ghost before = self.entries@;
                self.entries.set(i, (key, value));
                proof {
                    assert forall|a: int, b: int| 0 <= a < b < self.entries@.len() implies self.entries@[a].0@ != self.entries@[b].0@ by {
                        assert(before[a].0@ != before[b].0@);
                    }
                    assert(self.entries@[i as int].0@ == k);
                    assert(before[i as int].0@ == k);
                    assert forall|c: int| 0 <= c < before.len() && c != i implies self.entries@[c] == before[c] by {}
                    assert forall|kk: Seq<char>| #[trigger] self@.contains_key(kk) == old(self)@.insert(k, v).contains_key(kk) by {
                        if old(self)@.contains_key(kk) {
                            let c = choose|c: int| 0 <= c < before.len() && before[c].0@ == kk;
                            if c == i {
                                assert(self.entries@[i as int].0@ == kk);
                            } else {
                                assert(self.entries@[c].0@ == kk);
                            }
                        }
                        if kk == k {
                            assert(self.entries@[i as int].0@ == kk);
                        }
                        if self@.contains_key(kk) {
                            let c = choose|c: int| 0 <= c < self.entries@.len() && self.entries@[c].0@ == kk;
                            if c != i {
                                assert(before[c].0@ == kk);
                            }
                        }
                    }
                    assert forall|kk: Seq<char>| #[trigger] self@.contains_key(kk) implies self@[kk] == old(self)@.insert(k, v)[kk] by {
                        let c = choose|c: int| 0 <= c < self.entries@.len() && self.entries@[c].0@ == kk;
                        self.lemma_lookup(kk, c);
                        if c != i {
                            old(self).lemma_lookup(kk, c);
                        }
                    }
                    assert(self@ =~= old(self)@.insert(k, v));
                }
                return;
            }
            i = i + 1;
        }
        let ghost before = self.entries@;
        self.entries.push((key, value));
        proof {
            assert forall|a: int, b: int| 0 <= a < b < self.entries@.len() implies self.entries@[a].0@ != self.entries@[b].0@ by {
                if b < before.len() {
                    assert(before[a].0@ != before[b].0@);
                }
            }
            assert forall|kk: Seq<char>| #[trigger] self@.contains_key(kk) == old(self)@.insert(k, v).contains_key(kk) by {
                if old(self)@.contains_key(kk) {
                    let c = choose|c: int| 0 <= c < before.len() && before[c].0@ == kk;
                    assert(self.entries@[c].0@ == kk);
                }
                if kk == k {
                    assert(self.entries@[before.len() as int].0@ == kk);
                }
                if self@.contains_key(kk) {
                    let c = choose|c: int| 0 <= c < self.entries@.len() && self.entries@[c].0@ == kk;
                    if c < before.len() {
                        assert(before[c].0@ == kk);
                    }
                }
            }
            assert forall|kk: Seq<char>| #[trigger] self@.contains_key(kk) implies self@[kk] == old(self)@.insert(k, v)[kk] by {
                let c = choose|c: int| 0 <= c < self.entries@.len() && self.entries@[c].0@ == kk;
                self.lemma_lookup(kk, c);
                if c < before.len() {
                    old(self).lemma_lookup(kk, c);
                }
            }
            assert(self@ =~= old(self)@.insert(k, v));
        }
    }

    /// Sets the key named by `key` to `value`.
    pub fn set(&mut self, key: &str, value: Vec<char>)
        requires
            old(self).wf(),
        ensures
            final(self).wf(),
            final(self)@ == old(self)@.insert(key@, value@),
    {
        let k = chars_of(key);
        self.insert(k, value);
    }

    /// The value of `key`, if it is set.
    pub fn get(&self, key: &str) -> (r: Option<String>)
        requires
            self.wf(),
        ensures
            match r {
                Some(v) => self@.contains_key(key@) && self@[key@] == v@,
                None => !self@.contains_key(key@),
            },
    {
        let k = chars_of(key);
        let mut i: usize = 0;
        while i < self.entries.len()
            invariant
                i <= self.entries@.len(),
                self.wf(),
                k@ == key@,
                forall|j: int| 0 <= j < i ==> self.entries@[j].0@ != k@,
            decreases self.entries.len() - i,
        {
            if seq_eq(&self.entries[i].0, &k) {
                proof {
                    self.lemma_lookup(k@, i as int);
                }
                return Some(string_of(&self.entries[i].1));
            }
            i = i + 1;
        }
        None
    }

    /// The keys and values, each key once.
    pub fn pairs(&self) -> (r: Vec<(String, String)>)
        requires
            self.wf(),
        ensures
            forall|i: int| 0 <= i < r@.len() ==> self@.contains_key(#[trigger] r@[i].0@) && self@[r@[i].0@] == r@[i].1@,
            forall|k: Seq<char>| self@.contains_key(k) ==> exists|i: int| 0 <= i < r@.len() && #[trigger] r@[i].0@ == k,
    {
        let mut r: Vec<(String, String)> = Vec::new();
        let mut i: usize = 0;
        while i < self.entries.len()
            invariant
                i <= self.entries@.len(),
                self.wf(),
                r@.len() == i,
                forall|j: int| 0 <= j < i ==> (#[trigger] r@[j]).0@ == self.entries@[j].0@ && r@[j].1@ == self.entries@[j].1@,
            decreases self.entries.len() - i,
        {
            r.push((string_of(&self.entries[i].0), string_of(&self.entries[i].1)));
            i = i + 1;
        }
        proof {
            assert forall|j: int| 0 <= j < r@.len() implies self@.contains_key(#[trigger] r@[j].0@) && self@[r@[j].0@] == r@[j].1@ by {
                self.lemma_lookup(r@[j].0@, j);
            }
            assert forall|k: Seq<char>| self@.contains_key(k) implies exists|j: int|
                0 <= j < r@.len() && #[trigger] r@[j].0@ == k by {
                let c = choose|c: int| 0 <= c < self.entries@.len() && self.entries@[c].0@ == k;
                assert(r@[c].0@ == k);
            }
        }
        r
    }
}


/// A set of texts.
pub struct TextSet {
    items: Vec<String>,
}

impl View for TextSet {
    type V = Set<Seq<char>>;

    closed spec fn view(&self) -> Set<Seq<char>> {
        Set::new(|t: Seq<char>| exists|i: int| 0 <= i < self.items@.len() && self.items@[i]@ == t)
    }
}

impl TextSet {
    pub fn new() -> (r: Self)
        ensures
            r@ == Set::<Seq<char>>::empty(),
    {
        let r = TextSet { items: Vec::new() };
        proof {
            assert(r@ =~= Set::<Seq<char>>::empty());
        }
        r
    }

    pub fn contains(&self, text: &str) -> (r: bool)
        ensures
            r == self@.contains(text@),
    {
        let t = chars_of(text);
        let mut i: usize = 0;
        while i < self.items.len()
            invariant
                i <= self.items@.len(),
                t@ == text@,
                forall|j: int| 0 <= j < i ==> self.items@[j]@ != text@,
            decreases self.items.len() - i,
        {
            if seq_eq(&chars_of(self.items[i].as_str()), &t) {
                return true;
            }
            i = i + 1;
        }
        false
    }

    /// Adds `text`; says whether it was not there before.
    pub fn insert(&mut self, text: &str) -> (r: bool)
        ensures
            r == !old(self)@.contains(text@),
            final(self)@ == old(self)@.insert(text@),
    {
        if self.contains(text) {
            proof {
                assert(self@.insert(text@) =~= self@);
            }
            return false;
        }
        let ghost before = self@;
        let copy = string_of(&chars_of(text));
        self.items.push(copy);
        proof {
            assert forall|t: Seq<char>| #[trigger] self@.contains(t) == before.insert(text@).contains(t) by {
                if t == text@ {
                    assert(self.items@[self.items@.len() - 1]@ == t);
                }
                if before.contains(t) {
                    let i = choose|i: int| 0 <= i < old(self).items@.len() && old(self).items@[i]@ == t;
                    assert(self.items@[i]@ == t);
                }
                if self@.contains(t) && t != text@ {
                    let i = choose|i: int| 0 <= i < self.items@.len() && self.items@[i]@ == t;
                    assert(i < old(self).items@.len());
                    assert(old(self).items@[i]@ == t);
                }
            }
            assert(self@ =~= before.insert(text@));
        }
        true
    }
}

} // verus!
