//! Facts about sequences that the rest of the library leans on: the first
//! position of a key, and flattening a sequence of parts step by step.

use vstd::prelude::*;

verus! {

/// `i` is the first position at which `key` occurs in `keys`.
pub open spec fn is_first_at<K>(keys: Seq<K>, key: K, i: int) -> bool {
    &&& 0 <= i < keys.len()
    &&& keys[i] == key
    &&& forall|j: int| 0 <= j < i ==> keys[j] != key
}

/// The first position of `key` in `keys`, if it occurs at all.
pub open spec fn position<K>(keys: Seq<K>, key: K) -> Option<int> {
    if exists|i: int| is_first_at(keys, key, i) {
        Some(choose|i: int| is_first_at(keys, key, i))
    } else {
        None
    }
}

/// A first occurrence is the position.
pub proof fn lemma_position_found<K>(keys: Seq<K>, key: K, i: int)
    requires
        is_first_at(keys, key, i),
    ensures
        position(keys, key) == Some(i),
{
    let c = choose|c: int| is_first_at(keys, key, c);
    assert(is_first_at(keys, key, c));
    if c < i {
        assert(keys[c] != key);
    } else if i < c {
        assert(keys[i] != key);
    }
}

/// A key that occurs nowhere has no position.
pub proof fn lemma_position_absent<K>(keys: Seq<K>, key: K)
    requires
        forall|j: int| 0 <= j < keys.len() ==> keys[j] != key,
    ensures
        position(keys, key) is None,
{
}

/// What `position` returns, spelled out.
pub proof fn lemma_position<K>(keys: Seq<K>, key: K)
    ensures
        match position(keys, key) {
            Some(i) => is_first_at(keys, key, i),
            None => forall|j: int| 0 <= j < keys.len() ==> keys[j] != key,
        },
{
    if exists|i: int| is_first_at(keys, key, i) {
    } else {
        assert forall|j: int| 0 <= j < keys.len() implies keys[j] != key by {
            if keys[j] == key {
                lemma_some_first(keys, key, j);
            }
        }
    }
}

proof fn lemma_some_first<K>(keys: Seq<K>, key: K, j: int)
    requires
        0 <= j < keys.len(),
        keys[j] == key,
    ensures
        exists|i: int| is_first_at(keys, key, i),
    decreases j,
{
    if forall|k: int| 0 <= k < j ==> keys[k] != key {
        assert(is_first_at(keys, key, j));
    } else {
        let k = choose|k: int| 0 <= k < j && keys[k] == key;
        lemma_some_first(keys, key, k);
    }
}

/// Flattening one more part appends that part.
pub proof fn lemma_flatten_step<A>(parts: Seq<Seq<A>>, i: int)
    requires
        0 <= i < parts.len(),
    ensures
        parts.take(i + 1).flatten() == parts.take(i).flatten() + parts[i],
{
    assert(parts.take(i + 1) =~= parts.take(i).push(parts[i]));
    parts.take(i).lemma_flatten_push(parts[i]);
}

/// Flattening no parts gives nothing.
pub proof fn lemma_flatten_none<A>(parts: Seq<Seq<A>>)
    ensures
        parts.take(0).flatten() == Seq::<A>::empty(),
{
    assert(parts.take(0) =~= Seq::<Seq<A>>::empty());
}

/// Parts that are all empty flatten to nothing.
pub proof fn lemma_flatten_empty_parts<A>(parts: Seq<Seq<A>>)
    requires
        forall|i: int| 0 <= i < parts.len() ==> (#[trigger] parts[i]).len() == 0,
    ensures
        parts.flatten() == Seq::<A>::empty(),
    decreases parts.len(),
{
    if parts.len() > 0 {
        let rest = parts.drop_last();
        assert forall|i: int| 0 <= i < rest.len() implies (#[trigger] rest[i]).len() == 0 by {
            assert(rest[i] == parts[i]);
        }
        lemma_flatten_empty_parts(rest);
        assert(parts =~= rest.push(parts.last()));
        rest.lemma_flatten_push(parts.last());
        assert(parts.flatten() =~= Seq::<A>::empty());
    } else {
        assert(parts =~= parts.take(0));
        lemma_flatten_none(parts);
    }
}

/// Whatever stands in a flattened sequence stands in one of the parts.
pub proof fn lemma_flatten_member<A>(parts: Seq<Seq<A>>, k: int) -> (at: (int, int))
    requires
        0 <= k < parts.flatten().len(),
    ensures
        0 <= at.0 < parts.len(),
        0 <= at.1 < parts[at.0].len(),
        parts[at.0][at.1] == parts.flatten()[k],
    decreases parts.len(),
{
    if parts.len() == 0 {
        assert(parts =~= parts.take(0));
        lemma_flatten_none(parts);
        (0, 0)
    } else {
        let rest = parts.drop_last();
        assert(parts =~= rest.push(parts.last()));
        rest.lemma_flatten_push(parts.last());
        assert(parts.flatten() =~= rest.flatten() + parts.last());
        if k < rest.flatten().len() {
            let at = lemma_flatten_member(rest, k);
            assert(rest[at.0] == parts[at.0]);
            at
        } else {
            (parts.len() - 1, k - rest.flatten().len())
        }
    }
}

/// Whatever stands in one of the parts stands in the flattened sequence.
pub proof fn lemma_part_member<A>(parts: Seq<Seq<A>>, i: int, j: int) -> (k: int)
    requires
        0 <= i < parts.len(),
        0 <= j < parts[i].len(),
    ensures
        0 <= k < parts.flatten().len(),
        parts.flatten()[k] == parts[i][j],
    decreases parts.len(),
{
    let rest = parts.drop_last();
    assert(parts =~= rest.push(parts.last()));
    rest.lemma_flatten_push(parts.last());
    assert(parts.flatten() =~= rest.flatten() + parts.last());
    if i < parts.len() - 1 {
        assert(rest[i] == parts[i]);
        lemma_part_member(rest, i, j)
    } else {
        rest.flatten().len() + j
    }
}

} // verus!
