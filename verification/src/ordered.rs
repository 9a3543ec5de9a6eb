use vstd::prelude::*;

verus! {

/// A key of an ordered list: a value with a place in a total order.
pub trait Key: Copy {
    /// The place of the key in the order.
    spec fn rank(self) -> int;

    /// Two keys with the same place are the same key.
    proof fn rank_is_injective(self, other: Self)
        requires
            self.rank() == other.rank(),
        ensures
            self == other,
    ;

    /// Whether this key comes strictly before `other`.
    fn precedes(&self, other: &Self) -> (r: bool)
        ensures
            r == (self.rank() < other.rank()),
    ;
}

impl Key for usize {
    open spec fn rank(self) -> int {
        self as int
    }

    proof fn rank_is_injective(self, other: Self) {
    }

    fn precedes(&self, other: &Self) -> (r: bool) {
        *self < *other
    }
}

/// Index `i` is where `key` stands in `s`, or would be put: every entry
/// before it comes before `key`, and the entry at `i`, if any, does not.
pub open spec fn is_slot<K: Key, V>(s: Seq<(K, V)>, key: K, i: int) -> bool {
    &&& 0 <= i <= s.len()
    &&& forall|j: int| 0 <= j < i ==> (#[trigger] s[j]).0.rank() < key.rank()
    &&& (i < s.len() ==> s[i].0.rank() >= key.rank())
}

/// The index where `key` stands in `s`, or would be put.
pub open spec fn slot<K: Key, V>(s: Seq<(K, V)>, key: K) -> int {
    choose|i: int| is_slot(s, key, i)
}

/// Whether `s` has an entry for `key` at the key's slot.
pub open spec fn holds<K: Key, V>(s: Seq<(K, V)>, key: K) -> bool {
    slot(s, key) < s.len() && s[slot(s, key)].0 == key
}

/// The value that `s` holds for `key`.
pub open spec fn value<K: Key, V>(s: Seq<(K, V)>, key: K) -> Option<V> {
    if holds(s, key) {
        Some(s[slot(s, key)].1)
    } else {
        None
    }
}

/// `s` with `v` as the value for `key`: in place of the old value where
/// there is one, else as a new entry at the key's slot.
pub open spec fn with<K: Key, V>(s: Seq<(K, V)>, key: K, v: V) -> Seq<(K, V)> {
    if holds(s, key) {
        s.update(slot(s, key), (key, v))
    } else {
        s.insert(slot(s, key), (key, v))
    }
}

/// The keys of `s` strictly ascend.
pub open spec fn ascending<K: Key, V>(s: Seq<(K, V)>) -> bool {
    forall|i: int, j: int|
        0 <= i < j < s.len() ==> (#[trigger] s[i]).0.rank() < (#[trigger] s[j]).0.rank()
}

/// A slot is unique: an index that meets `is_slot` is the slot.
pub proof fn lemma_slot_unique<K: Key, V>(s: Seq<(K, V)>, key: K, i: int)
    requires
        is_slot(s, key, i),
    ensures
        slot(s, key) == i,
{
    let c = slot(s, key);
    assert(is_slot(s, key, c));
    if c < i {
        assert(s[c].0.rank() < key.rank());
    }
    if i < c {
        assert(s[i].0.rank() < key.rank());
    }
}

/// Putting a value into an ascending list leaves it ascending.
pub proof fn lemma_with_ascending<K: Key, V>(s: Seq<(K, V)>, key: K, v: V)
    requires
        ascending(s),
    ensures
        ascending(with(s, key, v)),
{
    lemma_slot_exists(s, key);
    let p = slot(s, key);
    let t = with(s, key, v);
    assert forall|i: int, j: int| 0 <= i < j < t.len() implies (#[trigger] t[i]).0.rank() < (
    #[trigger] t[j]).0.rank() by {
        if holds(s, key) {
            assert(s[i].0.rank() < s[j].0.rank());
        } else {
            if p < s.len() {
                assert(s[p].0.rank() != key.rank()) by {
                    if s[p].0.rank() == key.rank() {
                        key.rank_is_injective(s[p].0);
                    }
                }
            }
            if j < p {
                assert(s[i].0.rank() < s[j].0.rank());
            } else if j == p {
                assert(t[i] == s[i]);
            } else if i < p {
                assert(t[j] == s[j - 1]);
                assert(t[i] == s[i]);
                if i < j - 1 {
                    assert(s[i].0.rank() < s[j - 1].0.rank());
                }
            } else if i == p {
                assert(t[j] == s[j - 1]);
                if p < j - 1 {
                    assert(s[p].0.rank() < s[j - 1].0.rank());
                }
            } else {
                assert(t[i] == s[i - 1]);
                assert(t[j] == s[j - 1]);
                assert(s[i - 1].0.rank() < s[j - 1].0.rank());
            }
        }
    }
}

/// Every list has a slot for every key.
pub proof fn lemma_slot_exists<K: Key, V>(s: Seq<(K, V)>, key: K)
    ensures
        is_slot(s, key, slot(s, key)),
    decreases s.len(),
{
    if s.len() == 0 {
        assert(is_slot(s, key, 0));
    } else {
        let t = s.drop_last();
        lemma_slot_exists(t, key);
        let c = slot(t, key);
        if c < t.len() {
            assert(is_slot(s, key, c)) by {
                assert forall|j: int| 0 <= j < c implies (#[trigger] s[j]).0.rank()
                    < key.rank() by {
                    assert(t[j] == s[j]);
                }
                assert(t[c] == s[c]);
            }
        } else if s.last().0.rank() < key.rank() {
            assert(is_slot(s, key, s.len() as int)) by {
                assert forall|j: int| 0 <= j < s.len() implies (#[trigger] s[j]).0.rank()
                    < key.rank() by {
                    if j < t.len() {
                        assert(t[j] == s[j]);
                    }
                }
            }
        } else {
            assert(is_slot(s, key, c)) by {
                assert forall|j: int| 0 <= j < c implies (#[trigger] s[j]).0.rank()
                    < key.rank() by {
                    assert(t[j] == s[j]);
                }
            }
        }
    }
}

/// In an ascending list, a key has the value last put for it, and putting a
/// value for one key leaves the values of the others.
pub proof fn lemma_value_with<K: Key, V>(s: Seq<(K, V)>, key: K, v: V, other: K)
    requires
        ascending(s),
    ensures
        value(with(s, key, v), other) == if other == key {
            Some(v)
        } else {
            value(s, other)
        },
{
    lemma_slot_exists(s, key);
    lemma_slot_exists(s, other);
    lemma_with_ascending(s, key, v);
    let p = slot(s, key);
    let q = slot(s, other);
    let t = with(s, key, v);
    if other == key {
        assert(is_slot(t, key, p)) by {
            assert forall|j: int| 0 <= j < p implies (#[trigger] t[j]).0.rank() < key.rank() by {
                assert(t[j] == s[j]);
            }
        }
        lemma_slot_unique(t, key, p);
    } else {
        assert(other.rank() != key.rank()) by {
            if other.rank() == key.rank() {
                other.rank_is_injective(key);
            }
        }
        if holds(s, key) {
            assert(is_slot(t, other, q)) by {
                assert forall|j: int| 0 <= j < q implies (#[trigger] t[j]).0.rank()
                    < other.rank() by {
                    if j != p {
                        assert(t[j] == s[j]);
                    } else {
                        assert(s[j].0.rank() < other.rank());
                    }
                }
            }
            lemma_slot_unique(t, other, q);
            if q == p {
                assert(!holds(s, other));
            }
        } else if other.rank() < key.rank() {
            assert(q <= p) by {
                if p < q {
                    assert(s[p].0.rank() < other.rank());
                }
            }
            assert(is_slot(t, other, q)) by {
                assert forall|j: int| 0 <= j < q implies (#[trigger] t[j]).0.rank()
                    < other.rank() by {
                    assert(t[j] == s[j]);
                }
                if q < p {
                    assert(t[q] == s[q]);
                }
            }
            lemma_slot_unique(t, other, q);
            if q < p {
                assert(t[q] == s[q]);
            } else {
                assert(!holds(s, other)) by {
                    if q < s.len() && s[q].0 == other {
                        assert(s[p].0.rank() >= key.rank());
                    }
                }
            }
        } else {
            assert(p <= q) by {
                if q < p {
                    assert(s[q].0.rank() < key.rank());
                }
            }
            assert(is_slot(t, other, q + 1)) by {
                assert forall|j: int| 0 <= j < q + 1 implies (#[trigger] t[j]).0.rank()
                    < other.rank() by {
                    if j < p {
                        assert(t[j] == s[j]);
                    } else if j > p {
                        assert(t[j] == s[j - 1]);
                        assert(s[j - 1].0.rank() < other.rank());
                    }
                }
                if q + 1 < t.len() {
                    assert(t[q + 1] == s[q]);
                }
            }
            lemma_slot_unique(t, other, q + 1);
            if q < s.len() {
                assert(t[q + 1] == s[q]);
            }
        }
    }
}

/// The slot of `key` in `entries`.
pub fn locate<K: Key, V>(entries: &Vec<(K, V)>, key: &K) -> (i: usize)
    ensures
        i as int == slot(entries@, *key),
        is_slot(entries@, *key, i as int),
{
    let mut i: usize = 0;
    while i < entries.len() && entries[i].0.precedes(key)
        invariant
            0 <= i <= entries.len(),
            forall|j: int| 0 <= j < i ==> (#[trigger] entries@[j]).0.rank() < key.rank(),
        decreases entries.len() - i,
    {
        i += 1;
    }
    proof {
        lemma_slot_unique(entries@, *key, i as int);
    }
    i
}

/// The value that `entries` holds for `key`.
pub fn find<K: Key, V: Copy>(entries: &Vec<(K, V)>, key: &K) -> (r: Option<V>)
    ensures
        r == value(entries@, *key),
{
    let i = locate(entries, key);
    if i < entries.len() && !key.precedes(&entries[i].0) {
        proof {
            key.rank_is_injective(entries@[i as int].0);
        }
        Some(entries[i].1)
    } else {
        None
    }
}

/// A list holds for a key the value that was last put for it.
pub proof fn lemma_value_after_with<K: Key, V>(s: Seq<(K, V)>, key: K, v: V)
    ensures
        value(with(s, key, v), key) == Some(v),
{
    lemma_slot_exists(s, key);
    let p = slot(s, key);
    let t = with(s, key, v);
    assert(is_slot(t, key, p)) by {
        assert forall|j: int| 0 <= j < p implies (#[trigger] t[j]).0.rank() < key.rank() by {
            assert(t[j] == s[j]);
        }
    }
    lemma_slot_unique(t, key, p);
}

/// Putting a value for a key a second time leaves the list as if only the second value
/// had been put.
pub proof fn lemma_with_twice<K: Key, V>(s: Seq<(K, V)>, key: K, v: V, w: V)
    ensures
        with(with(s, key, v), key, w) == with(s, key, w),
{
    lemma_slot_exists(s, key);
    let p = slot(s, key);
    let t = with(s, key, v);
    assert(is_slot(t, key, p)) by {
        assert forall|j: int| 0 <= j < p implies (#[trigger] t[j]).0.rank() < key.rank() by {
            assert(t[j] == s[j]);
        }
    }
    lemma_slot_unique(t, key, p);
    assert(with(t, key, w) =~= with(s, key, w));
}

/// Makes `v` the value that `entries` holds for `key`. A list in ascending order stays so.
pub fn put<K: Key, V>(entries: &mut Vec<(K, V)>, key: K, v: V)
    ensures
        final(entries)@ == with(old(entries)@, key, v),
        ascending(old(entries)@) ==> ascending(final(entries)@),
{
    proof {
        if ascending(entries@) {
            lemma_with_ascending(entries@, key, v);
        }
    }
    let i = locate(entries, &key);
    if i < entries.len() && !key.precedes(&entries[i].0) {
        proof {
            key.rank_is_injective(entries@[i as int].0);
        }
        entries[i] = (key, v);
    } else {
        entries.insert(i, (key, v));
    }
}

} // verus!
