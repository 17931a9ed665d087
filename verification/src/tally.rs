//! Lists of counts by key, in the order in which the keys are first mentioned.
use vstd::prelude::*;

verus! {

/// A list of keys with their counts, in the order of their first mention.
pub type Tally<K> = Seq<(K, nat)>;

/// The key has an entry in the list.
pub open spec fn listed<K>(tally: Tally<K>, key: K) -> bool {
    exists|i: int| 0 <= i < tally.len() && (#[trigger] tally[i]).0 == key
}

/// Where in the list the key stands.
pub open spec fn slot<K>(tally: Tally<K>, key: K) -> int {
    choose|i: int| 0 <= i < tally.len() && (#[trigger] tally[i]).0 == key
}

/// The count of a key: 0 if it is not listed.
pub open spec fn count_of<K>(tally: Tally<K>, key: K) -> nat {
    if listed(tally, key) {
        tally[slot(tally, key)].1
    } else {
        0
    }
}

/// The list with the count of one key replaced, or added at the end.
pub open spec fn with_count<K>(tally: Tally<K>, key: K, count: nat) -> Tally<K> {
    if listed(tally, key) {
        tally.update(slot(tally, key), (key, count))
    } else {
        tally.push((key, count))
    }
}

/// The list after one more packet of a key.
pub open spec fn with_packet<K>(tally: Tally<K>, key: K) -> Tally<K> {
    with_count(tally, key, count_of(tally, key) + 1)
}

/// The list for a run of packets, by their keys.
pub open spec fn tally_of<K>(packets: Seq<K>) -> Tally<K>
    decreases packets.len(),
{
    if packets.len() == 0 {
        Seq::empty()
    } else {
        with_packet(tally_of(packets.drop_last()), packets.last())
    }
}

/// No key is listed twice.
pub open spec fn distinct<K>(tally: Tally<K>) -> bool {
    forall|i: int, j: int|
        0 <= i < tally.len() && 0 <= j < tally.len() && i != j ==> (#[trigger] tally[i]).0 != (
        #[trigger] tally[j]).0
}

/// Every listed key has been counted.
pub open spec fn all_positive<K>(tally: Tally<K>) -> bool {
    forall|i: int| 0 <= i < tally.len() ==> (#[trigger] tally[i]).1 > 0
}

/// The sum of all counts.
pub open spec fn total<K>(tally: Tally<K>) -> nat
    decreases tally.len(),
{
    if tally.len() == 0 {
        0
    } else {
        total(tally.drop_last()) + tally.last().1
    }
}

/// The counts that are not zero, in order.
pub open spec fn positive_counts<K>(tally: Tally<K>) -> Seq<nat>
    decreases tally.len(),
{
    if tally.len() == 0 {
        Seq::empty()
    } else if tally.last().1 > 0 {
        positive_counts(tally.drop_last()).push(tally.last().1)
    } else {
        positive_counts(tally.drop_last())
    }
}

/// Entry `i` is the first of those with the largest count.
pub open spec fn is_busiest<K>(tally: Tally<K>, i: int) -> bool {
    &&& 0 <= i < tally.len()
    &&& forall|j: int| 0 <= j < tally.len() ==> (#[trigger] tally[j]).1 <= tally[i].1
    &&& forall|j: int| 0 <= j < i ==> (#[trigger] tally[j]).1 < tally[i].1
}

/// A key stands where its entry stands.
pub proof fn lemma_slot_is<K>(tally: Tally<K>, i: int)
    requires
        distinct(tally),
        0 <= i < tally.len(),
    ensures
        listed(tally, tally[i].0),
        slot(tally, tally[i].0) == i,
        count_of(tally, tally[i].0) == tally[i].1,
{
    let s = slot(tally, tally[i].0);
    assert(tally[i].0 == tally[i].0);
    assert(tally[s].0 == tally[i].0);
}

/// Replacing one count moves the total by the difference.
proof fn lemma_total_of_update<K>(tally: Tally<K>, i: int, entry: (K, nat))
    requires
        0 <= i < tally.len(),
    ensures
        total(tally.update(i, entry)) + tally[i].1 == total(tally) + entry.1,
    decreases tally.len(),
{
    let changed = tally.update(i, entry);
    if i == tally.len() - 1 {
        assert(changed.drop_last() =~= tally.drop_last());
    } else {
        assert(changed.drop_last() =~= tally.drop_last().update(i, entry));
        lemma_total_of_update(tally.drop_last(), i, entry);
    }
}

/// No count exceeds the total.
pub proof fn lemma_count_within_total<K>(tally: Tally<K>, i: int)
    requires
        0 <= i < tally.len(),
    ensures
        tally[i].1 <= total(tally),
    decreases tally.len(),
{
    if i < tally.len() - 1 {
        lemma_count_within_total(tally.drop_last(), i);
    }
}

/// What one packet does to a well-formed list.
pub proof fn lemma_with_packet<K>(tally: Tally<K>, key: K)
    requires
        distinct(tally),
    ensures
        distinct(with_packet(tally, key)),
        all_positive(tally) ==> all_positive(with_packet(tally, key)),
        total(with_packet(tally, key)) == total(tally) + 1,
        forall|other: K| #[trigger]
            count_of(with_packet(tally, key), other) == count_of(tally, other) + if other == key {
                1nat
            } else {
                0nat
            },
{
    let after = with_packet(tally, key);
    if listed(tally, key) {
        let s = slot(tally, key);
        lemma_total_of_update(tally, s, (key, count_of(tally, key) + 1));
    } else {
        assert(after.drop_last() =~= tally);
        assert forall|i: int| 0 <= i < tally.len() implies (#[trigger] tally[i]).0 != key by {}
    }
    assert(distinct(after));
    assert forall|other: K| #[trigger]
        count_of(after, other) == count_of(tally, other) + if other == key {
            1nat
        } else {
            0nat
        } by {
        if listed(tally, other) {
            let i = slot(tally, other);
            assert(after[i].0 == other);
            lemma_slot_is(after, i);
        } else if other == key {
            lemma_slot_is(after, tally.len() as int);
        } else if listed(after, other) {
            let i = slot(after, other);
            if i < tally.len() {
                assert(tally[i].0 == other);
            }
        }
    }
}

/// A count that was set is the count of its key; the others stay what they are,
/// and the list has one entry more exactly if the key is new.
pub proof fn law_setting_a_count<K>(tally: Tally<K>, key: K, count: nat, other: K)
    requires
        distinct(tally),
    ensures
        distinct(with_count(tally, key, count)),
        count_of(with_count(tally, key, count), key) == count,
        other != key ==> count_of(with_count(tally, key, count), other) == count_of(tally, other),
        with_count(tally, key, count).len() == tally.len() + if listed(tally, key) {
            0nat
        } else {
            1nat
        },
{
    let after = with_count(tally, key, count);
    if !listed(tally, key) {
        assert forall|i: int| 0 <= i < tally.len() implies (#[trigger] tally[i]).0 != key by {}
    }
    assert(distinct(after));
    if listed(tally, key) {
        lemma_slot_is(after, slot(tally, key));
    } else {
        lemma_slot_is(after, tally.len() as int);
    }
    if other != key {
        if listed(tally, other) {
            let i = slot(tally, other);
            assert(after[i].0 == other);
            lemma_slot_is(after, i);
        } else if listed(after, other) {
            let i = slot(after, other);
            if i < tally.len() {
                assert(tally[i].0 == other);
            }
        }
    }
}

/// The list for a run of packets names each of their keys once, with the number
/// of its packets; the counts are positive and add up to the number of packets,
/// however many there are.
pub proof fn law_tally_counts_every_packet<K>(packets: Seq<K>)
    ensures
        distinct(tally_of(packets)),
        all_positive(tally_of(packets)),
        total(tally_of(packets)) == packets.len(),
        forall|key: K| #[trigger]
            count_of(tally_of(packets), key) == packets.to_multiset().count(key),
    decreases packets.len(),
{
    broadcast use vstd::seq_lib::group_to_multiset_ensures;

    if packets.len() > 0 {
        let before = packets.drop_last();
        law_tally_counts_every_packet(before);
        lemma_with_packet(tally_of(before), packets.last());
        assert(packets =~= before.push(packets.last()));
    } else {
        assert(packets =~= Seq::<K>::empty());
    }
}

} // verus!
