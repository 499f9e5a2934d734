use vstd::prelude::*;
use dashmap::DashMap;
use crate::models::{TransactionRecord, receiver_of, referenced};

verus! {

#[verifier::external_type_specification]
#[verifier::external_body]
#[verifier::reject_recursive_types(K)]
#[verifier::reject_recursive_types(V)]
#[verifier::reject_recursive_types(S)]
pub struct ExDashMap<K, V, S>(dashmap::DashMap<K, V, S>);

/// A map from a key text to the positions filed under it.
pub type BucketMap = DashMap<String, Vec<usize>>;

/// What a bucket index holds: for each key, the positions filed under it.
pub uninterp spec fn buckets(m: BucketMap) -> Map<Seq<char>, Seq<usize>>;

/// The index with no bucket.
pub open spec fn no_buckets() -> Map<Seq<char>, Seq<usize>> {
    Map::empty()
}

/// Relies on `DashMap::new`: an empty map.
#[verifier::external_body]
pub(crate) fn bucket_new() -> (r: BucketMap)
    ensures
        buckets(r) == no_buckets(),
{
    DashMap::new()
}

/// `m` with `i` appended to the bucket of `key`, a bucket being created
/// for a new key.
pub open spec fn filed(m: Map<Seq<char>, Seq<usize>>, key: Seq<char>, i: usize) -> Map<Seq<char>, Seq<usize>> {
    m.insert(
        key,
        if m.contains_key(key) {
            m[key].push(i)
        } else {
            seq![i]
        },
    )
}

/// Relies on `DashMap::entry` and `Entry::or_default`: the bucket of `key`,
/// created empty if absent, gets `i` pushed at its end; no other key
/// changes (keys compare as `String`s do).
#[verifier::external_body]
pub(crate) fn bucket_push(m: &mut BucketMap, key: &String, i: usize)
    ensures
        buckets(*final(m)) == filed(buckets(*old(m)), key@, i),
{
    m.entry(key.clone()).or_default().push(i);
}

/// Relies on `DashMap::get`: a copy of the bucket of `key`, if any.
#[verifier::external_body]
pub(crate) fn bucket_get(m: &BucketMap, key: &String) -> (r: Option<Vec<usize>>)
    ensures
        r matches Some(v) ==> buckets(*m).contains_key(key@) && v@ == buckets(*m)[key@],
        r is None ==> !buckets(*m).contains_key(key@),
{
    m.get(key).map(|b| b.value().clone())
}

/// The bucket index of `all` by sender.
pub open spec fn sender_index(all: Seq<TransactionRecord>) -> Map<Seq<char>, Seq<usize>>
    decreases all.len(),
{
    if all.len() == 0 {
        Map::empty()
    } else {
        filed(sender_index(all.drop_last()), all.last().from@, (all.len() - 1) as usize)
    }
}

/// The bucket index of `all` by receiver; contract creations are filed
/// nowhere.
pub open spec fn receiver_index(all: Seq<TransactionRecord>) -> Map<Seq<char>, Seq<usize>>
    decreases all.len(),
{
    if all.len() == 0 {
        Map::empty()
    } else {
        let rest = receiver_index(all.drop_last());
        match receiver_of(all.last()) {
            Some(t) => filed(rest, t, (all.len() - 1) as usize),
            None => rest,
        }
    }
}

/// The bucket of `key`, empty when absent.
pub open spec fn bucket_of(m: Map<Seq<char>, Seq<usize>>, key: Seq<char>) -> Seq<usize> {
    if m.contains_key(key) {
        m[key]
    } else {
        Seq::empty()
    }
}

/// The records at the given positions.
pub open spec fn at_positions(all: Seq<TransactionRecord>, p: Seq<usize>) -> Seq<TransactionRecord> {
    p.map_values(|i: usize| all[i as int])
}

/// The bucket of `key` in the index of `all` by sender lists, in order, the
/// positions of the records sent by `key`, all in range.
pub proof fn lemma_sender_index_selects(all: Seq<TransactionRecord>, key: Seq<char>)
    requires
        all.len() <= usize::MAX,
    ensures
        forall|j: int| 0 <= j < bucket_of(sender_index(all), key).len() ==> bucket_of(sender_index(all), key)[j] < all.len(),
        at_positions(all, bucket_of(sender_index(all), key)) == all.filter(crate::models::sent_by(key)),
    decreases all.len(),
{
    if all.len() == 0 {
        assert(at_positions(all, bucket_of(sender_index(all), key)) =~= all.filter(crate::models::sent_by(key)));
    } else {
        let init = all.drop_last();
        lemma_sender_index_selects(init, key);
        let b0 = bucket_of(sender_index(init), key);
        assert(all =~= init.push(all.last()));
        init.lemma_filter_push(all.last(), crate::models::sent_by(key));
        let n = (all.len() - 1) as usize;
        assert forall|j: int| 0 <= j < b0.len() implies at_positions(all, b0)[j] == at_positions(
            init,
            b0,
        )[j] by {
            assert(b0[j] < init.len());
        }
        assert(at_positions(all, b0) =~= at_positions(init, b0));
        if crate::models::sent_by(key)(all.last()) {
            assert(bucket_of(sender_index(all), key) == b0.push(n));
            assert(at_positions(all, b0.push(n)) =~= at_positions(all, b0).push(all.last()));
        } else {
            assert(bucket_of(sender_index(all), key) == b0);
        }
    }
}

/// The bucket of `key` in the index of `all` by receiver lists, in order, the
/// positions of the records addressed to `key`, all in range.
pub proof fn lemma_receiver_index_selects(all: Seq<TransactionRecord>, key: Seq<char>)
    requires
        all.len() <= usize::MAX,
    ensures
        forall|j: int| 0 <= j < bucket_of(receiver_index(all), key).len() ==> bucket_of(receiver_index(all), key)[j] < all.len(),
        at_positions(all, bucket_of(receiver_index(all), key)) == all.filter(crate::models::sent_to(key)),
    decreases all.len(),
{
    if all.len() == 0 {
        assert(at_positions(all, bucket_of(receiver_index(all), key)) =~= all.filter(crate::models::sent_to(key)));
    } else {
        let init = all.drop_last();
        lemma_receiver_index_selects(init, key);
        let b0 = bucket_of(receiver_index(init), key);
        assert(all =~= init.push(all.last()));
        init.lemma_filter_push(all.last(), crate::models::sent_to(key));
        let n = (all.len() - 1) as usize;
        assert forall|j: int| 0 <= j < b0.len() implies at_positions(all, b0)[j] == at_positions(
            init,
            b0,
        )[j] by {
            assert(b0[j] < init.len());
        }
        assert(at_positions(all, b0) =~= at_positions(init, b0));
        if crate::models::sent_to(key)(all.last()) {
            assert(bucket_of(receiver_index(all), key) == b0.push(n));
            assert(at_positions(all, b0.push(n)) =~= at_positions(all, b0).push(all.last()));
        } else {
            assert(bucket_of(receiver_index(all), key) == b0);
        }
    }
}

} // verus!
