//! Association lists: sequences of key-value pairs in which a key is looked up
//! from the front. They are the mathematical model of every ordered map here.

use vstd::prelude::*;

verus! {

/// The text of a string, as a sequence of characters.
pub type Text = Seq<char>;

/// The position of the first pair of `entries` whose key is `key`.
pub open spec fn position<V>(entries: Seq<(Text, V)>, key: Text) -> Option<int>
    decreases entries.len(),
{
    if entries.len() == 0 {
        None
    } else if entries[0].0 == key {
        Some(0)
    } else {
        match position(entries.drop_first(), key) {
            Some(i) => Some(i + 1),
            None => None,
        }
    }
}

/// The value under `key`: that of the first pair with this key.
pub open spec fn lookup<V>(entries: Seq<(Text, V)>, key: Text) -> Option<V> {
    match position(entries, key) {
        Some(i) => Some(entries[i].1),
        None => None,
    }
}

/// The keys of `entries`, in order.
pub open spec fn keys<V>(entries: Seq<(Text, V)>) -> Seq<Text> {
    Seq::new(entries.len(), |i: int| entries[i].0)
}

/// `entries` with `value` under `key`: in the place of the first pair with
/// that key where there is one, at the end otherwise.
pub open spec fn put<V>(entries: Seq<(Text, V)>, key: Text, value: V) -> Seq<(Text, V)> {
    match position(entries, key) {
        Some(i) => entries.update(i, (key, value)),
        None => entries.push((key, value)),
    }
}

/// No key occurs twice in `entries`.
pub open spec fn distinct_keys<V>(entries: Seq<(Text, V)>) -> bool {
    forall|i: int, j: int|
        0 <= i < j < entries.len() ==> (#[trigger] entries[i]).0 != (#[trigger] entries[j]).0
}

/// `position` finds exactly the first pair with the key: `Some(i)` where pair
/// `i` has the key and no earlier pair has, `None` where no pair has it.
pub proof fn lemma_position<V>(entries: Seq<(Text, V)>, key: Text)
    ensures
        match position(entries, key) {
            Some(i) => 0 <= i < entries.len() && entries[i].0 == key && forall|j: int|
                0 <= j < i ==> (#[trigger] entries[j]).0 != key,
            None => forall|j: int| 0 <= j < entries.len() ==> (#[trigger] entries[j]).0 != key,
        },
    decreases entries.len(),
{
    if entries.len() > 0 && entries[0].0 != key {
        let rest = entries.drop_first();
        lemma_position(rest, key);
        match position(rest, key) {
            Some(i) => {
                assert forall|j: int| 0 <= j < i + 1 implies (#[trigger] entries[j]).0 != key by {
                    if j > 0 {
                        assert(rest[j - 1] == entries[j]);
                    }
                }
            },
            None => {
                assert forall|j: int| 0 <= j < entries.len() implies (#[trigger] entries[j]).0
                    != key by {
                    if j > 0 {
                        assert(rest[j - 1] == entries[j]);
                    }
                }
            },
        }
    }
}

/// A pair that has the key while no earlier pair has it is the one that
/// `position` finds.
pub proof fn lemma_position_is<V>(entries: Seq<(Text, V)>, key: Text, i: int)
    requires
        0 <= i < entries.len(),
        entries[i].0 == key,
        forall|j: int| 0 <= j < i ==> (#[trigger] entries[j]).0 != key,
    ensures
        position(entries, key) == Some(i),
{
    lemma_position(entries, key);
}

/// Two lists with the same keys in the same places find a key in the same
/// place.
pub proof fn lemma_position_same_keys<V, W>(a: Seq<(Text, V)>, b: Seq<(Text, W)>, key: Text)
    requires
        a.len() == b.len(),
        forall|i: int| 0 <= i < a.len() ==> (#[trigger] a[i]).0 == (#[trigger] b[i]).0,
    ensures
        position(a, key) == position(b, key),
{
    lemma_position(a, key);
    lemma_position(b, key);
    match position(a, key) {
        Some(i) => {
            assert(a[i].0 == b[i].0);
            assert forall|j: int| 0 <= j < i implies (#[trigger] b[j]).0 != key by {
                assert(a[j].0 == b[j].0);
            }
            lemma_position_is(b, key, i);
        },
        None => {
            if let Some(i) = position(b, key) {
                assert(a[i].0 == b[i].0);
            }
        },
    }
}

/// `longer` begins with the keys of `shorter`, in the same places.
pub open spec fn extends<V>(longer: Seq<(Text, V)>, shorter: Seq<(Text, V)>) -> bool {
    &&& shorter.len() <= longer.len()
    &&& forall|i: int| 0 <= i < shorter.len() ==> (#[trigger] longer[i]).0 == shorter[i].0
}

/// A key that a list has keeps its place in every list that extends it.
pub proof fn lemma_position_extends<V>(longer: Seq<(Text, V)>, shorter: Seq<(Text, V)>, key: Text)
    requires
        extends(longer, shorter),
        position(shorter, key) is Some,
    ensures
        position(longer, key) == position(shorter, key),
{
    lemma_position(shorter, key);
    let p = position(shorter, key)->0;
    assert(longer[p].0 == shorter[p].0);
    assert forall|j: int| 0 <= j < p implies (#[trigger] longer[j]).0 != key by {
        assert(longer[j].0 == shorter[j].0);
    }
    lemma_position_is(longer, key, p);
}

/// Where `put` leaves a key: the key that was put is where it was, or last
/// where it was not there; every other key is where it was.
pub proof fn lemma_put_position<V>(entries: Seq<(Text, V)>, key: Text, value: V, other: Text)
    ensures
        position(put(entries, key, value), other) == (if other == key {
            match position(entries, key) {
                Some(i) => Some(i),
                None => Some(entries.len() as int),
            }
        } else {
            position(entries, other)
        }),
{
    let after = put(entries, key, value);
    lemma_position(entries, key);
    lemma_position(entries, other);
    match position(entries, key) {
        Some(i) => {
            assert forall|j: int| 0 <= j < after.len() implies (#[trigger] after[j]).0 == (
            #[trigger] entries[j]).0 by {}
            lemma_position_same_keys(after, entries, other);
        },
        None => {
            if other == key {
                assert forall|j: int| 0 <= j < entries.len() implies (#[trigger] after[j]).0
                    != key by {
                    assert(after[j] == entries[j]);
                }
                lemma_position_is(after, key, entries.len() as int);
            } else {
                match position(entries, other) {
                    Some(p) => {
                        assert(after[p] == entries[p]);
                        assert forall|j: int| 0 <= j < p implies (#[trigger] after[j]).0
                            != other by {
                            assert(after[j] == entries[j]);
                        }
                        lemma_position_is(after, other, p);
                    },
                    None => {
                        lemma_position(after, other);
                        if let Some(q) = position(after, other) {
                            if q < entries.len() {
                                assert(after[q] == entries[q]);
                            }
                        }
                    },
                }
            }
        },
    }
}

/// What `put` leaves under a key: the value that was put under the key that
/// was put, and under every other key what was there.
pub proof fn lemma_put_lookup<V>(entries: Seq<(Text, V)>, key: Text, value: V, other: Text)
    ensures
        lookup(put(entries, key, value), other) == (if other == key {
            Some(value)
        } else {
            lookup(entries, other)
        }),
{
    lemma_put_position(entries, key, value, other);
    lemma_position(entries, key);
    lemma_position(entries, other);
}

/// `put` extends the list it is given.
pub proof fn lemma_put_extends<V>(entries: Seq<(Text, V)>, key: Text, value: V)
    ensures
        extends(put(entries, key, value), entries),
{
    lemma_position(entries, key);
}

/// `put` keeps the keys distinct.
pub proof fn lemma_put_distinct<V>(entries: Seq<(Text, V)>, key: Text, value: V)
    requires
        distinct_keys(entries),
    ensures
        distinct_keys(put(entries, key, value)),
{
    let after = put(entries, key, value);
    lemma_position(entries, key);
    assert forall|i: int, j: int| 0 <= i < j < after.len() implies (#[trigger] after[i]).0 != (
    #[trigger] after[j]).0 by {
        match position(entries, key) {
            Some(p) => {
                assert(after[i].0 == entries[i].0);
                assert(after[j].0 == entries[j].0);
            },
            None => {
                assert(after[i] == entries[i]);
                if j < entries.len() {
                    assert(after[j] == entries[j]);
                }
            },
        }
    }
}

} // verus!
