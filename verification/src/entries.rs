//! Sequences of keyed entries: the model of every map in this crate.
//!
//! A map is modelled as the sequence of its entries in the order in which it
//! hands them out, each entry a key and a value. A map that keeps its
//! entries in insertion order changes by `put_last`; one that keeps them
//! sorted by key changes by `put_sorted`.

use crate::text::{lemma_text_lt_total, lemma_text_lt_transitive, text_lt};
use vstd::prelude::*;

verus! {

/// The entry at `i` has the key `key`.
pub open spec fn key_at<V>(entries: Seq<(Seq<char>, V)>, key: Seq<char>, i: int) -> bool {
    0 <= i < entries.len() && entries[i].0 == key
}

/// Some entry has the key `key`.
pub open spec fn has_key<V>(entries: Seq<(Seq<char>, V)>, key: Seq<char>) -> bool {
    exists|i: int| key_at(entries, key, i)
}

/// The place of an entry with the key `key`; the only one where keys are
/// distinct.
pub open spec fn index_of<V>(entries: Seq<(Seq<char>, V)>, key: Seq<char>) -> int {
    choose|i: int| key_at(entries, key, i)
}

/// The value that stands under `key`.
pub open spec fn lookup<V>(entries: Seq<(Seq<char>, V)>, key: Seq<char>) -> Option<V> {
    if has_key(entries, key) {
        Some(entries[index_of(entries, key)].1)
    } else {
        None
    }
}

/// No key stands twice.
pub open spec fn distinct_keys<V>(entries: Seq<(Seq<char>, V)>) -> bool {
    forall|i: int, j: int|
        0 <= i < j < entries.len() ==> (#[trigger] entries[i]).0 != (#[trigger] entries[j]).0
}

/// The keys stand in strictly rising order.
pub open spec fn sorted_keys<V>(entries: Seq<(Seq<char>, V)>) -> bool {
    forall|i: int, j: int|
        0 <= i < j < entries.len() ==> text_lt(
            (#[trigger] entries[i]).0,
            (#[trigger] entries[j]).0,
        )
}

/// The entries without the one under `key`.
pub open spec fn without_key<V>(entries: Seq<(Seq<char>, V)>, key: Seq<char>) -> Seq<
    (Seq<char>, V),
> {
    if has_key(entries, key) {
        entries.remove(index_of(entries, key))
    } else {
        entries
    }
}

/// The entries after `key` was given `value` in a map that keeps insertion
/// order: an entry that stood under `key` leaves, the new one comes last.
pub open spec fn put_last<V>(entries: Seq<(Seq<char>, V)>, key: Seq<char>, value: V) -> Seq<
    (Seq<char>, V),
> {
    without_key(entries, key).push((key, value))
}

/// `at` splits the entries into those with a key before `key` and the rest.
pub open spec fn splits_at<V>(entries: Seq<(Seq<char>, V)>, key: Seq<char>, at: int) -> bool {
    &&& 0 <= at <= entries.len()
    &&& forall|j: int| 0 <= j < at ==> text_lt((#[trigger] entries[j]).0, key)
    &&& forall|j: int| at <= j < entries.len() ==> !text_lt((#[trigger] entries[j]).0, key)
}

/// The number of entries whose key comes before `key`, in sorted entries.
pub open spec fn rank<V>(entries: Seq<(Seq<char>, V)>, key: Seq<char>) -> int {
    choose|at: int| splits_at(entries, key, at)
}

/// The entries after `key` was given `value` in a map that keeps its keys
/// sorted: the value under `key` is replaced, or the new entry goes where
/// the order puts it.
pub open spec fn put_sorted<V>(entries: Seq<(Seq<char>, V)>, key: Seq<char>, value: V) -> Seq<
    (Seq<char>, V),
> {
    if has_key(entries, key) {
        entries.update(index_of(entries, key), (key, value))
    } else {
        entries.insert(rank(entries, key), (key, value))
    }
}

/// Sorted keys are distinct.
pub proof fn lemma_sorted_distinct<V>(entries: Seq<(Seq<char>, V)>)
    requires
        sorted_keys(entries),
    ensures
        distinct_keys(entries),
{
    assert forall|i: int, j: int| 0 <= i < j < entries.len() implies (#[trigger] entries[i]).0 != (
    #[trigger] entries[j]).0 by {
        lemma_text_lt_total(entries[i].0, entries[j].0);
    }
}

/// Where keys are distinct, the entry under a key stands at one place only.
pub proof fn lemma_index_unique<V>(entries: Seq<(Seq<char>, V)>, key: Seq<char>, i: int)
    requires
        distinct_keys(entries),
        key_at(entries, key, i),
    ensures
        has_key(entries, key),
        index_of(entries, key) == i,
        lookup(entries, key) == Some(entries[i].1),
{
    let j = index_of(entries, key);
    assert(key_at(entries, key, j));
    if i < j {
        assert(entries[i].0 != entries[j].0);
    } else if j < i {
        assert(entries[j].0 != entries[i].0);
    }
}

/// In sorted entries, the place that splits them for a key is the key's rank.
pub proof fn lemma_rank_unique<V>(entries: Seq<(Seq<char>, V)>, key: Seq<char>, at: int)
    requires
        splits_at(entries, key, at),
    ensures
        rank(entries, key) == at,
{
    let r = rank(entries, key);
    assert(splits_at(entries, key, r));
    if r < at {
        assert(text_lt(entries[r].0, key));
    } else if at < r {
        assert(text_lt(entries[at].0, key));
    }
}

/// Taking an entry out keeps keys distinct, and the key is gone.
pub proof fn lemma_without_key<V>(entries: Seq<(Seq<char>, V)>, key: Seq<char>)
    requires
        distinct_keys(entries),
    ensures
        distinct_keys(without_key(entries, key)),
        !has_key(without_key(entries, key), key),
        forall|other: Seq<char>|
            other != key ==> (#[trigger] has_key(without_key(entries, key), other) <==> has_key(
                entries,
                other,
            )),
        forall|other: Seq<char>|
            other != key ==> #[trigger] lookup(without_key(entries, key), other) == lookup(
                entries,
                other,
            ),
{
    let out = without_key(entries, key);
    if has_key(entries, key) {
        let at = index_of(entries, key);
        assert(key_at(entries, key, at));
        assert forall|i: int| 0 <= i < out.len() implies #[trigger] out[i] == entries[if i < at {
            i
        } else {
            i + 1
        }] by {}
        assert forall|i: int, j: int| 0 <= i < j < out.len() implies (#[trigger] out[i]).0 != (
        #[trigger] out[j]).0 by {
            let i0 = if i < at {
                i
            } else {
                i + 1
            };
            let j0 = if j < at {
                j
            } else {
                j + 1
            };
            assert(entries[i0].0 != entries[j0].0);
        }
        if has_key(out, key) {
            let i = index_of(out, key);
            assert(key_at(out, key, i));
            let i0 = if i < at {
                i
            } else {
                i + 1
            };
            if i0 < at {
                assert(entries[i0].0 != entries[at].0);
            } else {
                assert(entries[at].0 != entries[i0].0);
            }
        }
        assert forall|other: Seq<char>| other != key implies (#[trigger] has_key(out, other)
            <==> has_key(entries, other)) && lookup(out, other) == lookup(entries, other) by {
            if has_key(out, other) {
                let i = index_of(out, other);
                assert(key_at(out, other, i));
                let i0 = if i < at {
                    i
                } else {
                    i + 1
                };
                assert(key_at(entries, other, i0));
                lemma_index_unique(entries, other, i0);
                lemma_index_unique(out, other, i);
            }
            if has_key(entries, other) {
                let i0 = index_of(entries, other);
                assert(key_at(entries, other, i0));
                let i = if i0 < at {
                    i0
                } else {
                    i0 - 1
                };
                assert(key_at(out, other, i));
                lemma_index_unique(entries, other, i0);
                lemma_index_unique(out, other, i);
            }
        }
    }
}

/// Taking an entry out twice is taking it out once.
pub proof fn lemma_without_key_twice<V>(entries: Seq<(Seq<char>, V)>, key: Seq<char>)
    requires
        distinct_keys(entries),
    ensures
        without_key(without_key(entries, key), key) == without_key(entries, key),
{
    lemma_without_key(entries, key);
}

/// `put_last` keeps keys distinct; the key then stands last, with the value.
pub proof fn lemma_put_last<V>(entries: Seq<(Seq<char>, V)>, key: Seq<char>, value: V)
    requires
        distinct_keys(entries),
    ensures
        distinct_keys(put_last(entries, key, value)),
        lookup(put_last(entries, key, value), key) == Some(value),
        has_key(put_last(entries, key, value), key),
        forall|other: Seq<char>|
            other != key ==> (#[trigger] has_key(put_last(entries, key, value), other)
                <==> has_key(entries, other)),
        forall|other: Seq<char>|
            other != key ==> #[trigger] lookup(put_last(entries, key, value), other) == lookup(
                entries,
                other,
            ),
        !has_key(entries, key) ==> put_last(entries, key, value) == entries.push((key, value)),
        put_last(entries, key, value).last() == (key, value),
        forall|i: int|
            0 <= i < put_last(entries, key, value).len() - 1 ==> entries.contains(
                #[trigger] put_last(entries, key, value)[i],
            ),
{
    lemma_without_key(entries, key);
    let mid = without_key(entries, key);
    let out = put_last(entries, key, value);
    assert forall|i: int, j: int| 0 <= i < j < out.len() implies (#[trigger] out[i]).0 != (
    #[trigger] out[j]).0 by {
        if j == mid.len() {
            if out[i].0 == key {
                assert(key_at(mid, key, i));
            }
        } else {
            assert(mid[i].0 != mid[j].0);
        }
    }
    assert(key_at(out, key, mid.len() as int));
    lemma_index_unique(out, key, mid.len() as int);
    assert forall|i: int| 0 <= i < out.len() - 1 implies entries.contains(#[trigger] out[i]) by {
        if has_key(entries, key) {
            let at = index_of(entries, key);
            assert(key_at(entries, key, at));
            assert(out[i] == entries[if i < at {
                i
            } else {
                i + 1
            }]);
        } else {
            assert(out[i] == entries[i]);
        }
    }
    assert forall|other: Seq<char>| other != key implies (#[trigger] has_key(out, other)
        <==> has_key(entries, other)) && lookup(out, other) == lookup(entries, other) by {
        if has_key(out, other) {
            let i = index_of(out, other);
            assert(key_at(out, other, i));
            assert(key_at(mid, other, i));
            lemma_index_unique(mid, other, i);
            lemma_index_unique(out, other, i);
        }
        if has_key(mid, other) {
            let i = index_of(mid, other);
            assert(key_at(mid, other, i));
            assert(key_at(out, other, i));
            lemma_index_unique(mid, other, i);
            lemma_index_unique(out, other, i);
        }
    }
}

/// `put_sorted` keeps the keys sorted.
pub proof fn lemma_put_sorted<V>(entries: Seq<(Seq<char>, V)>, key: Seq<char>, value: V)
    requires
        sorted_keys(entries),
        exists|at: int| splits_at(entries, key, at),
    ensures
        sorted_keys(put_sorted(entries, key, value)),
{
    let out = put_sorted(entries, key, value);
    if has_key(entries, key) {
        let at = index_of(entries, key);
        assert(key_at(entries, key, at));
        assert forall|i: int, j: int| 0 <= i < j < out.len() implies text_lt(
            (#[trigger] out[i]).0,
            (#[trigger] out[j]).0,
        ) by {
            assert(text_lt(entries[i].0, entries[j].0));
        }
    } else {
        let at = rank(entries, key);
        assert(splits_at(entries, key, at));
        assert forall|i: int, j: int| 0 <= i < j < out.len() implies text_lt(
            (#[trigger] out[i]).0,
            (#[trigger] out[j]).0,
        ) by {
            let i0 = if i < at {
                i
            } else {
                i - 1
            };
            let j0 = if j < at {
                j
            } else {
                j - 1
            };
            if i == at {
                assert(!text_lt(entries[j0].0, key));
                assert(!key_at(entries, key, j0));
                lemma_text_lt_total(entries[j0].0, key);
            } else if j == at {
                assert(text_lt(entries[i0].0, key));
            } else {
                assert(text_lt(entries[i0].0, entries[j0].0));
            }
        }
    }
}

/// Sorted entries can be split for every key.
pub proof fn lemma_split_exists<V>(entries: Seq<(Seq<char>, V)>, key: Seq<char>)
    requires
        sorted_keys(entries),
    ensures
        exists|at: int| splits_at(entries, key, at),
        splits_at(entries, key, rank(entries, key)),
    decreases entries.len(),
{
    if entries.len() == 0 {
        assert(splits_at(entries, key, 0));
    } else {
        let front = entries.drop_last();
        assert forall|i: int, j: int| 0 <= i < j < front.len() implies text_lt(
            (#[trigger] front[i]).0,
            (#[trigger] front[j]).0,
        ) by {
            assert(text_lt(entries[i].0, entries[j].0));
        }
        lemma_split_exists(front, key);
        let at = rank(front, key);
        let last = entries.len() - 1;
        if at < last {
            assert(!text_lt(front[at].0, key));
            assert forall|j: int| 0 <= j < at implies text_lt((#[trigger] entries[j]).0, key) by {
                assert(text_lt(front[j].0, key));
            }
            lemma_splits_at(entries, key, at);
        } else if text_lt(entries[last].0, key) {
            assert forall|j: int| 0 <= j < last + 1 implies text_lt(
                (#[trigger] entries[j]).0,
                key,
            ) by {
                if j < last {
                    assert(text_lt(front[j].0, key));
                }
            }
            lemma_splits_at(entries, key, last + 1);
        } else {
            assert forall|j: int| 0 <= j < last implies text_lt((#[trigger] entries[j]).0, key) by {
                assert(text_lt(front[j].0, key));
            }
            lemma_splits_at(entries, key, last);
        }
    }
}

/// What `put_sorted` holds: the new entry, and what was there under other
/// keys.
pub proof fn lemma_put_sorted_holds<V>(entries: Seq<(Seq<char>, V)>, key: Seq<char>, value: V)
    requires
        sorted_keys(entries),
    ensures
        sorted_keys(put_sorted(entries, key, value)),
        put_sorted(entries, key, value).len() > 0,
        forall|i: int|
            0 <= i < put_sorted(entries, key, value).len() ==> {
                ||| #[trigger] put_sorted(entries, key, value)[i] == (key, value)
                ||| entries.contains(put_sorted(entries, key, value)[i])
            },
{
    lemma_split_exists(entries, key);
    lemma_put_sorted(entries, key, value);
    let out = put_sorted(entries, key, value);
    if has_key(entries, key) {
        let at = index_of(entries, key);
        assert(key_at(entries, key, at));
        assert forall|i: int| 0 <= i < out.len() implies (#[trigger] out[i] == (key, value)
            || entries.contains(out[i])) by {
            if i != at {
                assert(out[i] == entries[i]);
            }
        }
    } else {
        let at = rank(entries, key);
        assert forall|i: int| 0 <= i < out.len() implies (#[trigger] out[i] == (key, value)
            || entries.contains(out[i])) by {
            if i < at {
                assert(out[i] == entries[i]);
            } else if i > at {
                assert(out[i] == entries[i - 1]);
            }
        }
    }
}

/// A key that comes after every key of sorted entries goes last.
pub proof fn lemma_put_sorted_last<V>(entries: Seq<(Seq<char>, V)>, key: Seq<char>, value: V)
    requires
        forall|j: int| 0 <= j < entries.len() ==> text_lt((#[trigger] entries[j]).0, key),
    ensures
        put_sorted(entries, key, value) == entries.push((key, value)),
{
    if has_key(entries, key) {
        let at = index_of(entries, key);
        assert(key_at(entries, key, at));
        assert(text_lt(entries[at].0, key));
        lemma_text_lt_total(key, key);
    }
    assert(splits_at(entries, key, entries.len() as int));
    lemma_rank_unique(entries, key, entries.len() as int);
    assert(entries.insert(entries.len() as int, (key, value)) =~= entries.push((key, value)));
}

/// In sorted entries, a place whose key is not before `key`, with only
/// smaller keys in front of it, splits the entries for `key`.
pub proof fn lemma_splits_at<V>(entries: Seq<(Seq<char>, V)>, key: Seq<char>, at: int)
    requires
        sorted_keys(entries),
        0 <= at <= entries.len(),
        forall|j: int| 0 <= j < at ==> text_lt((#[trigger] entries[j]).0, key),
        at < entries.len() ==> !text_lt(entries[at].0, key),
    ensures
        splits_at(entries, key, at),
        rank(entries, key) == at,
        has_key(entries, key) <==> (at < entries.len() && entries[at].0 == key),
{
    assert forall|j: int| at <= j < entries.len() implies !text_lt(
        (#[trigger] entries[j]).0,
        key,
    ) by {
        if at < j && text_lt(entries[j].0, key) {
            assert(text_lt(entries[at].0, entries[j].0));
            lemma_text_lt_transitive(entries[at].0, entries[j].0, key);
        }
    }
    lemma_rank_unique(entries, key, at);
    if has_key(entries, key) {
        let i = index_of(entries, key);
        assert(key_at(entries, key, i));
        lemma_text_lt_total(key, key);
        if i > at {
            assert(text_lt(entries[at].0, entries[i].0));
        }
    }
    if at < entries.len() && entries[at].0 == key {
        assert(key_at(entries, key, at));
    }
}

} // verus!
