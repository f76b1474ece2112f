//! Putting lists in order.
use vstd::prelude::*;
use vstd::relations;
use vstd::seq_lib;
use vstd::utf8;

verus! {

/// What has a place in a total order.
pub trait Ranked: Sized {
    /// What the order looks at.
    type Key;

    spec fn key(self) -> Self::Key;

    spec fn key_le(a: Self::Key, b: Self::Key) -> bool;

    /// The order is total.
    proof fn key_order()
        ensures
            relations::total_ordering(|a: Self::Key, b: Self::Key| Self::key_le(a, b)),
    ;

    /// Whether this does not come after `other`.
    fn comes_before(&self, other: &Self) -> (r: bool)
        ensures
            r == Self::key_le(self.key(), other.key()),
    ;
}

/// What the order looks at in each of `list`.
pub open spec fn keys<T: Ranked>(list: Seq<T>) -> Seq<T::Key> {
    list.map_values(|item: T| item.key())
}

/// `list` in ascending order.
pub open spec fn ascending<T: Ranked>(list: Seq<T::Key>) -> Seq<T::Key> {
    list.sort_by(|a: T::Key, b: T::Key| T::key_le(a, b))
}

/// `ascending` gives a list in order that holds the same things as often.
pub proof fn law_ascending<T: Ranked>(list: Seq<T::Key>)
    ensures
        relations::sorted_by(ascending::<T>(list), |a: T::Key, b: T::Key| T::key_le(a, b)),
        ascending::<T>(list).to_multiset() == list.to_multiset(),
        ascending::<T>(list).len() == list.len(),
{
    T::key_order();
    list.lemma_sort_by_ensures(|a: T::Key, b: T::Key| T::key_le(a, b));
    seq_lib::to_multiset_len(list);
    seq_lib::to_multiset_len(ascending::<T>(list));
}

/// Puts a list in ascending order.
pub fn sort<T: Ranked>(list: Vec<T>) -> (r: Vec<T>)
    ensures
        keys(r@) == ascending::<T>(keys(list@)),
        r@.to_multiset() == list@.to_multiset(),
{
    let ghost le = |a: T::Key, b: T::Key| T::key_le(a, b);
    let ghost given = list@;
    let mut sorted: Vec<T> = Vec::new();
    proof {
        T::key_order();
        assert(given.take(0) =~= Seq::<T>::empty());
        assert(sorted@ =~= Seq::<T>::empty());
    }
    for item in it: list.into_iter()
        invariant
            it.seq() == given,
            le == (|a: T::Key, b: T::Key| T::key_le(a, b)),
            relations::total_ordering(le),
            relations::sorted_by(keys(sorted@), le),
            keys(sorted@).to_multiset() == keys(given.take(it.index() as int)).to_multiset(),
            sorted@.to_multiset() == given.take(it.index() as int).to_multiset(),
    {
        let ghost before = sorted@;
        let ghost n = it.index() as int;
        let mut at: usize = sorted.len();
        while at > 0 && !sorted[at - 1].comes_before(&item)
            invariant
                at <= sorted.len(),
                sorted@ == before,
                forall|k: int|
                    at <= k < sorted.len() ==> !T::key_le((#[trigger] sorted@[k]).key(), item.key()),
            decreases at,
        {
            at = at - 1;
        }
        proof {
            let old_keys = keys(before);
            let new_keys = old_keys.insert(at as int, item.key());
            assert(keys(before.insert(at as int, item)) =~= new_keys);
            assert forall|i: int, j: int| 0 <= i < j < new_keys.len() implies #[trigger] le(
                new_keys[i],
                new_keys[j],
            ) by {
                let x = if i < at { i } else { i - 1 };
                let y = if j < at { j } else { j - 1 };
                if i != at && j != at {
                    assert(new_keys[i] == old_keys[x] && new_keys[j] == old_keys[y]);
                    assert(le(old_keys[x], old_keys[y]));
                } else if i == at {
                    assert(new_keys[j] == old_keys[y]);
                    assert(!le(before[y].key(), item.key()));
                    assert(le(old_keys[y], new_keys[i]) || le(new_keys[i], old_keys[y]));
                } else {
                    assert(new_keys[i] == old_keys[i]);
                    assert(le(old_keys[at - 1], item.key()));
                    if i < at - 1 {
                        assert(le(old_keys[i], old_keys[at - 1]));
                    }
                }
            }
            seq_lib::to_multiset_insert(old_keys, at as int, item.key());
            seq_lib::to_multiset_insert(before, at as int, item);
            assert(given.take(n + 1) =~= given.take(n).push(item));
            assert(keys(given.take(n + 1)) =~= keys(given.take(n)).push(item.key()));
            seq_lib::to_multiset_build(given.take(n), item);
            seq_lib::to_multiset_build(keys(given.take(n)), item.key());
        }
        sorted.insert(at, item);
    }
    proof {
        assert(given.take(given.len() as int) =~= given);
        keys(given).lemma_sort_by_ensures(le);
        seq_lib::lemma_sorted_unique(keys(sorted@), keys(given).sort_by(le), le);
    }
    sorted
}

/// The order of byte strings: by the first byte in which they differ, and a shorter one before
/// any that it starts.
pub open spec fn bytes_le(a: Seq<u8>, b: Seq<u8>) -> bool
    decreases a.len(),
{
    if a.len() == 0 {
        true
    } else if b.len() == 0 {
        false
    } else if a[0] == b[0] {
        bytes_le(a.skip(1), b.skip(1))
    } else {
        a[0] < b[0]
    }
}

pub(crate) proof fn lemma_bytes_le(a: Seq<u8>, b: Seq<u8>, c: Seq<u8>)
    ensures
        bytes_le(a, a),
        bytes_le(a, b) || bytes_le(b, a),
        bytes_le(a, b) && bytes_le(b, a) ==> a == b,
        bytes_le(a, b) && bytes_le(b, c) ==> bytes_le(a, c),
    decreases a.len(),
{
    if a.len() > 0 {
        lemma_bytes_le(a.skip(1), b.skip(1), c.skip(1));
        if b.len() > 0 && a[0] == b[0] && a.skip(1) == b.skip(1) {
            assert(a =~= seq![a[0]] + a.skip(1));
            assert(b =~= seq![b[0]] + b.skip(1));
        }
    } else if b.len() == 0 {
        assert(a =~= b);
    }
}

/// Whether `a` does not come after `b`.
pub fn bytes_in_order(a: &[u8], b: &[u8]) -> (r: bool)
    ensures
        r == bytes_le(a@, b@),
{
    let mut i: usize = 0;
    assert(a@.skip(0) =~= a@);
    assert(b@.skip(0) =~= b@);
    while i < a.len() && i < b.len()
        invariant
            i <= a.len(),
            i <= b.len(),
            bytes_le(a@.skip(i as int), b@.skip(i as int)) == bytes_le(a@, b@),
        decreases a.len() - i,
    {
        if a[i] != b[i] {
            return a[i] < b[i];
        }
        assert(a@.skip(i as int).skip(1) =~= a@.skip(i + 1));
        assert(b@.skip(i as int).skip(1) =~= b@.skip(i + 1));
        i = i + 1;
    }
    i == a.len()
}

impl Ranked for Vec<u8> {
    type Key = Seq<u8>;

    open spec fn key(self) -> Seq<u8> {
        self@
    }

    open spec fn key_le(a: Seq<u8>, b: Seq<u8>) -> bool {
        bytes_le(a, b)
    }

    proof fn key_order() {
        assert forall|a: Seq<u8>, b: Seq<u8>, c: Seq<u8>| true implies {
            &&& #[trigger] bytes_le(a, b) && bytes_le(b, a) ==> a == b
            &&& bytes_le(a, b) && #[trigger] bytes_le(b, c) ==> bytes_le(a, c)
        } by {
            lemma_bytes_le(a, b, c);
        }
        assert forall|a: Seq<u8>, b: Seq<u8>| #[trigger] bytes_le(a, b) || bytes_le(b, a) by {
            lemma_bytes_le(a, b, a);
        }
        assert forall|a: Seq<u8>| #[trigger] bytes_le(a, a) by {
            lemma_bytes_le(a, a, a);
        }
    }

    fn comes_before(&self, other: &Vec<u8>) -> (r: bool) {
        bytes_in_order(self.as_slice(), other.as_slice())
    }
}

/// The order of texts: that of their bytes in UTF-8.
pub open spec fn text_le(a: Seq<char>, b: Seq<char>) -> bool {
    bytes_le(utf8::encode_utf8(a), utf8::encode_utf8(b))
}

proof fn lemma_text_le(a: Seq<char>, b: Seq<char>, c: Seq<char>)
    ensures
        text_le(a, a),
        text_le(a, b) || text_le(b, a),
        text_le(a, b) && text_le(b, a) ==> a == b,
        text_le(a, b) && text_le(b, c) ==> text_le(a, c),
{
    utf8::encode_utf8_decode_utf8(a);
    utf8::encode_utf8_decode_utf8(b);
    lemma_bytes_le(utf8::encode_utf8(a), utf8::encode_utf8(b), utf8::encode_utf8(c));
}

impl Ranked for String {
    type Key = Seq<char>;

    open spec fn key(self) -> Seq<char> {
        self@
    }

    open spec fn key_le(a: Seq<char>, b: Seq<char>) -> bool {
        text_le(a, b)
    }

    proof fn key_order() {
        assert forall|a: Seq<char>, b: Seq<char>, c: Seq<char>| true implies {
            &&& #[trigger] text_le(a, b) && text_le(b, a) ==> a == b
            &&& text_le(a, b) && #[trigger] text_le(b, c) ==> text_le(a, c)
        } by {
            lemma_text_le(a, b, c);
        }
        assert forall|a: Seq<char>, b: Seq<char>| #[trigger] text_le(a, b) || text_le(b, a) by {
            lemma_text_le(a, b, a);
        }
        assert forall|a: Seq<char>| #[trigger] text_le(a, a) by {
            lemma_text_le(a, a, a);
        }
    }

    fn comes_before(&self, other: &String) -> (r: bool) {
        bytes_in_order(self.as_str().as_bytes(), other.as_str().as_bytes())
    }
}

} // verus!
