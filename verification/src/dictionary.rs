//! Values that are found by a name.
use vstd::prelude::*;

use crate::text;

verus! {

/// Values, each under a name of its own.
pub struct Dictionary<V> {
    entries: Vec<(String, V)>,
}

impl<V> Dictionary<V> {
    /// The map that `entries` stand for, where a later entry replaces an earlier one.
    spec fn content(entries: Seq<(String, V)>) -> Map<Seq<char>, V>
        decreases entries.len(),
    {
        if entries.len() == 0 {
            Map::empty()
        } else {
            Self::content(entries.drop_last()).insert(entries.last().0@, entries.last().1)
        }
    }

    proof fn lemma_content(entries: Seq<(String, V)>, name: Seq<char>, i: int)
        requires
            -1 <= i < entries.len(),
            i >= 0 ==> entries[i].0@ == name,
            forall|k: int| i < k < entries.len() ==> (#[trigger] entries[k]).0@ != name,
        ensures
            Self::content(entries).dom().contains(name) <==> i >= 0,
            i >= 0 ==> Self::content(entries)[name] == entries[i].1,
        decreases entries.len(),
    {
        if entries.len() > 0 && i < entries.len() - 1 {
            let front = entries.drop_last();
            assert forall|k: int| i < k < front.len() implies (#[trigger] front[k]).0@ != name by {
                assert(front[k] == entries[k]);
            }
            assert(entries[entries.len() - 1].0@ != name);
            Self::lemma_content(front, name, i);
        }
    }

    proof fn lemma_content_update(entries: Seq<(String, V)>, i: int, entry: (String, V))
        requires
            0 <= i < entries.len(),
            entries[i].0@ == entry.0@,
            forall|k: int| i < k < entries.len() ==> (#[trigger] entries[k]).0@ != entry.0@,
        ensures
            Self::content(entries.update(i, entry)) == Self::content(entries).insert(
                entry.0@,
                entry.1,
            ),
        decreases entries.len(),
    {
        let front = entries.drop_last();
        let after = entries.update(i, entry);
        if i == entries.len() - 1 {
            assert(after.drop_last() =~= front);
            assert(Self::content(after) =~= Self::content(entries).insert(entry.0@, entry.1));
        } else {
            assert forall|k: int| i < k < front.len() implies (#[trigger] front[k]).0@
                != entry.0@ by {
                assert(front[k] == entries[k]);
            }
            Self::lemma_content_update(front, i, entry);
            assert(after.drop_last() =~= front.update(i, entry));
            assert(entries[entries.len() - 1].0@ != entry.0@);
            assert(Self::content(after) =~= Self::content(entries).insert(entry.0@, entry.1));
        }
    }

    /// A dictionary with nothing in it.
    pub fn new() -> (r: Dictionary<V>)
        ensures
            r@ == Map::<Seq<char>, V>::empty(),
    {
        Dictionary { entries: Vec::new() }
    }

    fn position(&self, name: &str) -> (r: Option<usize>)
        ensures
            match r {
                Some(i) => {
                    &&& i < self.entries.len()
                    &&& self.entries@[i as int].0@ == name@
                    &&& forall|k: int|
                        i < k < self.entries.len() ==> (#[trigger] self.entries@[k]).0@ != name@
                },
                None => forall|k: int|
                    0 <= k < self.entries.len() ==> (#[trigger] self.entries@[k]).0@ != name@,
            },
    {
        let mut i: usize = self.entries.len();
        while i > 0
            invariant
                i <= self.entries.len(),
                forall|k: int|
                    i <= k < self.entries.len() ==> (#[trigger] self.entries@[k]).0@ != name@,
            decreases i,
        {
            i = i - 1;
            if text::same_text(self.entries[i].0.as_str(), name) {
                return Some(i);
            }
        }
        None
    }

    /// The value under `name`.
    pub fn get(&self, name: &str) -> (r: Option<&V>)
        ensures
            match r {
                Some(value) => self@.dom().contains(name@) && self@[name@] == *value,
                None => !self@.dom().contains(name@),
            },
    {
        match self.position(name) {
            Some(i) => {
                proof {
                    Self::lemma_content(self.entries@, name@, i as int);
                }
                Some(&self.entries[i].1)
            },
            None => {
                proof {
                    Self::lemma_content(self.entries@, name@, -1);
                }
                None
            },
        }
    }

    /// Puts `value` under `name`, in the place of what was there.
    pub fn insert(&mut self, name: String, value: V)
        ensures
            final(self)@ == old(self)@.insert(name@, value),
    {
        match self.position(name.as_str()) {
            Some(i) => {
                proof {
                    Self::lemma_content_update(self.entries@, i as int, (name, value));
                }
                self.entries.set(i, (name, value));
            },
            None => {
                let ghost before = self.entries@;
                self.entries.push((name, value));
                assert(self.entries@.drop_last() =~= before);
            },
        }
    }
}

impl<V> View for Dictionary<V> {
    type V = Map<Seq<char>, V>;

    closed spec fn view(&self) -> Map<Seq<char>, V> {
        Self::content(self.entries@)
    }
}

} // verus!
