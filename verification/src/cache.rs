//! The order of a least-recently-used cache, as a sequence of entries with
//! the most recently used entry first.

use vstd::prelude::*;

use crate::shard::ShardBox;

verus! {

/// The entries of a cache, the most recently used one first.
pub type Entries = Seq<(Seq<u8>, ShardBox)>;

/// The entry at `i` is that of `id`.
pub open spec fn entry_at(entries: Entries, id: Seq<u8>, i: int) -> bool {
    0 <= i < entries.len() && entries[i].0 == id
}

/// Some entry is that of `id`.
pub open spec fn holds(entries: Entries, id: Seq<u8>) -> bool {
    exists|i: int| entry_at(entries, id, i)
}

/// Where the entry of `id` stands.
pub open spec fn position(entries: Entries, id: Seq<u8>) -> int {
    choose|i: int| entry_at(entries, id, i)
}

/// What is cached under `id`.
pub open spec fn lookup(entries: Entries, id: Seq<u8>) -> Option<ShardBox> {
    if holds(entries, id) {
        Some(entries[position(entries, id)].1)
    } else {
        None
    }
}

/// The entries other than that of `id`, in their order.
pub open spec fn without(entries: Entries, id: Seq<u8>) -> Entries {
    if holds(entries, id) {
        entries.remove(position(entries, id))
    } else {
        entries
    }
}

/// The entries after a use of `id`: its entry, if there is one, comes first.
pub open spec fn used(entries: Entries, id: Seq<u8>) -> Entries {
    match lookup(entries, id) {
        Some(shard) => seq![(id, shard)] + without(entries, id),
        None => entries,
    }
}

/// The entries after `shard` was put under `id` into a cache of the given
/// capacity: the new entry comes first, and what then stands past the
/// capacity is gone.
pub open spec fn put(entries: Entries, capacity: nat, id: Seq<u8>, shard: ShardBox) -> Entries {
    let all = seq![(id, shard)] + without(entries, id);
    if all.len() > capacity {
        all.take(capacity as int)
    } else {
        all
    }
}

/// No object is cached twice, and no more than `capacity` are cached.
pub open spec fn bounded(entries: Entries, capacity: nat) -> bool {
    &&& entries.len() <= capacity
    &&& forall|i: int, j: int|
        0 <= i < j < entries.len() ==> (#[trigger] entries[i]).0 != (#[trigger] entries[j]).0
}

/// In a bounded cache an object has one position.
pub proof fn lemma_position(entries: Entries, capacity: nat, id: Seq<u8>, i: int)
    requires
        bounded(entries, capacity),
        entry_at(entries, id, i),
    ensures
        holds(entries, id),
        position(entries, id) == i,
        lookup(entries, id) == Some(entries[i].1),
{
    let p = position(entries, id);
    assert(entry_at(entries, id, p));
    if p != i {
        assert(entries[p].0 == entries[i].0);
    }
}

/// Taking an object out of a bounded cache leaves the others as they were.
pub proof fn lemma_without(entries: Entries, capacity: nat, id: Seq<u8>)
    requires
        bounded(entries, capacity),
    ensures
        bounded(without(entries, id), capacity),
        !holds(without(entries, id), id),
        without(entries, id).len() == (if holds(entries, id) {
            entries.len() - 1
        } else {
            entries.len() as int
        }),
        forall|other: Seq<u8>| other != id ==>
            #[trigger] lookup(without(entries, id), other) == lookup(entries, other),
{
    let rest = without(entries, id);
    if holds(entries, id) {
        let p = position(entries, id);
        assert(entry_at(entries, id, p));
        assert forall|i: int| !entry_at(rest, id, i) by {
            if entry_at(rest, id, i) {
                let o = if i < p { i } else { i + 1 };
                assert(entry_at(entries, id, o));
                lemma_position(entries, capacity, id, o);
            }
        }
        assert forall|i: int, j: int| 0 <= i < j < rest.len() implies
            (#[trigger] rest[i]).0 != (#[trigger] rest[j]).0 by {
            let oi = if i < p { i } else { i + 1 };
            let oj = if j < p { j } else { j + 1 };
            assert(entries[oi].0 != entries[oj].0);
        }
        assert forall|other: Seq<u8>| other != id implies
            #[trigger] lookup(rest, other) == lookup(entries, other) by {
            if holds(entries, other) {
                let o = position(entries, other);
                assert(entry_at(entries, other, o));
                let i = if o < p { o } else { o - 1 };
                assert(entry_at(rest, other, i));
                lemma_position(rest, capacity, other, i);
            }
            if holds(rest, other) {
                let i = position(rest, other);
                assert(entry_at(rest, other, i));
                let o = if i < p { i } else { i + 1 };
                assert(entry_at(entries, other, o));
            }
        }
    }
}

/// Placing an object before a bounded cache that does not hold it.
proof fn lemma_front(rest: Entries, capacity: nat, id: Seq<u8>, shard: ShardBox)
    requires
        bounded(rest, capacity),
        !holds(rest, id),
    ensures
        bounded(seq![(id, shard)] + rest, capacity + 1),
        lookup(seq![(id, shard)] + rest, id) == Some(shard),
        forall|other: Seq<u8>| other != id ==>
            #[trigger] lookup(seq![(id, shard)] + rest, other) == lookup(rest, other),
{
    let all = seq![(id, shard)] + rest;
    assert forall|i: int, j: int| 0 <= i < j < all.len() implies
        (#[trigger] all[i]).0 != (#[trigger] all[j]).0 by {
        if i == 0 {
            assert(!entry_at(rest, id, j - 1));
        } else {
            assert(rest[i - 1].0 != rest[j - 1].0);
        }
    }
    assert(entry_at(all, id, 0));
    lemma_position(all, capacity + 1, id, 0);
    assert forall|other: Seq<u8>| other != id implies
        #[trigger] lookup(all, other) == lookup(rest, other) by {
        if holds(rest, other) {
            let i = position(rest, other);
            assert(entry_at(rest, other, i));
            assert(entry_at(all, other, i + 1));
            lemma_position(all, capacity + 1, other, i + 1);
        }
        if holds(all, other) {
            let i = position(all, other);
            assert(entry_at(all, other, i));
            assert(entry_at(rest, other, i - 1));
        }
    }
}

/// A use of an object keeps the cache bounded and every object cached.
pub proof fn lemma_used(entries: Entries, capacity: nat, id: Seq<u8>)
    requires
        bounded(entries, capacity),
    ensures
        bounded(used(entries, id), capacity),
        used(entries, id).len() == entries.len(),
        forall|other: Seq<u8>| #[trigger] lookup(used(entries, id), other) == lookup(entries, other),
{
    if holds(entries, id) {
        lemma_without(entries, capacity, id);
        let shard = lookup(entries, id)->0;
        lemma_front(without(entries, id), capacity, id, shard);
        assert forall|other: Seq<u8>| #[trigger] lookup(used(entries, id), other) == lookup(
            entries,
            other,
        ) by {
            if other != id {
                assert(lookup(without(entries, id), other) == lookup(entries, other));
            }
        }
    }
}

/// Putting an object keeps the cache bounded and caches the object. Another
/// object that is cached afterwards was cached before.
pub proof fn lemma_put(entries: Entries, capacity: nat, id: Seq<u8>, shard: ShardBox)
    requires
        bounded(entries, capacity),
        capacity > 0,
    ensures
        bounded(put(entries, capacity, id, shard), capacity),
        lookup(put(entries, capacity, id, shard), id) == Some(shard),
        put(entries, capacity, id, shard)[0] == (id, shard),
        forall|other: Seq<u8>| other != id && holds(put(entries, capacity, id, shard), other) ==>
            #[trigger] lookup(put(entries, capacity, id, shard), other) == lookup(entries, other),
{
    lemma_without(entries, capacity, id);
    let rest = without(entries, id);
    lemma_front(rest, capacity, id, shard);
    let all = seq![(id, shard)] + rest;
    let after = put(entries, capacity, id, shard);
    assert(forall|i: int| 0 <= i < after.len() ==> after[i] == all[i]);
    assert(entry_at(after, id, 0));
    assert(bounded(after, capacity)) by {
        assert forall|i: int, j: int| 0 <= i < j < after.len() implies
            (#[trigger] after[i]).0 != (#[trigger] after[j]).0 by {
            assert(all[i].0 != all[j].0);
        }
    }
    lemma_position(after, capacity, id, 0);
    assert forall|other: Seq<u8>| other != id && holds(after, other) implies
        #[trigger] lookup(after, other) == lookup(entries, other) by {
        let i = position(after, other);
        assert(entry_at(after, other, i));
        assert(entry_at(all, other, i));
        lemma_position(all, capacity + 1, other, i);
        assert(lookup(all, other) == lookup(rest, other));
        assert(lookup(rest, other) == lookup(entries, other));
    }
}

/// A use of an object before it is put makes no difference.
pub proof fn lemma_used_then_put(entries: Entries, capacity: nat, id: Seq<u8>, shard: ShardBox)
    requires
        bounded(entries, capacity),
    ensures
        put(used(entries, id), capacity, id, shard) == put(entries, capacity, id, shard),
{
    if holds(entries, id) {
        lemma_used(entries, capacity, id);
        assert(entry_at(used(entries, id), id, 0));
        lemma_position(used(entries, id), capacity, id, 0);
        assert(without(used(entries, id), id) =~= without(entries, id));
    }
}

} // verus!
