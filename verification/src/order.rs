use vstd::prelude::*;
use vstd::multiset::Multiset;
use vstd::seq_lib::{
    lemma_multiset_commutative, to_multiset_contains, to_multiset_len, to_multiset_remove,
};
use crate::transaction::TransactionView;
use crate::transactions::{
    all_verified, coinbase_count, commitments_of, serial_numbers_of, well_formed, Network,
};

verus! {

/// The tags that `pick` takes from the members, each as often as it occurs.
pub open spec fn tags_of(
    txs: Seq<TransactionView>,
    pick: spec_fn(TransactionView) -> Seq<[u8; 32]>,
) -> Multiset<[u8; 32]> {
    txs.map_values(pick).flatten().to_multiset()
}

/// One for a value-creating member, zero for another.
pub open spec fn coinbase_weight(tx: TransactionView) -> nat {
    if tx.value_balance < 0 {
        1
    } else {
        0
    }
}

/// A member added at the end adds its tags.
pub proof fn lemma_tags_push(
    txs: Seq<TransactionView>,
    tx: TransactionView,
    pick: spec_fn(TransactionView) -> Seq<[u8; 32]>,
)
    ensures
        tags_of(txs.push(tx), pick) =~= tags_of(txs, pick).add(pick(tx).to_multiset()),
{
    assert(txs.push(tx).map_values(pick) =~= txs.map_values(pick).push(pick(tx)));
    txs.map_values(pick).lemma_flatten_push(pick(tx));
    lemma_multiset_commutative(txs.map_values(pick).flatten(), pick(tx));
}

/// A member taken out at any position takes its tags with it.
pub proof fn lemma_tags_remove(
    txs: Seq<TransactionView>,
    i: int,
    pick: spec_fn(TransactionView) -> Seq<[u8; 32]>,
)
    requires
        0 <= i < txs.len(),
    ensures
        tags_of(txs, pick) =~= tags_of(txs.remove(i), pick).add(pick(txs[i]).to_multiset()),
    decreases txs.len(),
{
    broadcast use vstd::multiset::group_multiset_axioms;

    let rest = txs.drop_last();
    let last = txs.last();
    assert(txs =~= rest.push(last));
    lemma_tags_push(rest, last, pick);
    if i == txs.len() - 1 {
        assert(txs.remove(i) =~= rest);
    } else {
        lemma_tags_remove(rest, i, pick);
        assert(txs.remove(i) =~= rest.remove(i).push(last));
        lemma_tags_push(rest.remove(i), last, pick);
    }
}

/// A member taken out at any position takes its weight out of the count.
pub proof fn lemma_coinbase_count_remove(txs: Seq<TransactionView>, i: int)
    requires
        0 <= i < txs.len(),
    ensures
        coinbase_count(txs) == coinbase_count(txs.remove(i)) + coinbase_weight(txs[i]),
    decreases txs.len(),
{
    let rest = txs.drop_last();
    let last = txs.last();
    if i == txs.len() - 1 {
        assert(txs.remove(i) =~= rest);
    } else {
        lemma_coinbase_count_remove(rest, i);
        assert(txs.remove(i).drop_last() =~= rest.remove(i));
        assert(txs.remove(i).last() == last);
    }
}

/// Two lists with the same members, in whatever order, have the same tags
/// and the same number of value-creating members.
pub proof fn lemma_reordering(
    first: Seq<TransactionView>,
    second: Seq<TransactionView>,
    pick: spec_fn(TransactionView) -> Seq<[u8; 32]>,
)
    requires
        first.to_multiset() == second.to_multiset(),
    ensures
        first.len() == second.len(),
        tags_of(first, pick) =~= tags_of(second, pick),
        coinbase_count(first) == coinbase_count(second),
    decreases first.len(),
{
    broadcast use vstd::multiset::group_multiset_axioms;

    to_multiset_len(first);
    to_multiset_len(second);
    if first.len() > 0 {
        let k = first.len() - 1;
        let tx = first[k];
        assert(first.contains(tx));
        to_multiset_contains(first, tx);
        to_multiset_contains(second, tx);
        let i = choose|i: int| 0 <= i < second.len() && second[i] == tx;
        to_multiset_remove(first, k);
        to_multiset_remove(second, i);
        lemma_reordering(first.remove(k), second.remove(i), pick);
        lemma_tags_remove(first, k, pick);
        lemma_tags_remove(second, i, pick);
        lemma_coinbase_count_remove(first, k);
        lemma_coinbase_count_remove(second, i);
    } else {
        assert(first =~= second);
    }
}

/// A list has no duplicates exactly when none of its items occurs more than
/// once in it.
pub proof fn lemma_no_duplicates_by_count(tags: Seq<[u8; 32]>)
    ensures
        tags.no_duplicates() <==> forall|tag: [u8; 32]| #[trigger]
            tags.to_multiset().count(tag) <= 1,
{
    broadcast use vstd::multiset::group_multiset_axioms;

    if tags.no_duplicates() {
        tags.lemma_multiset_has_no_duplicates();
    }
    if forall|tag: [u8; 32]| #[trigger] tags.to_multiset().count(tag) <= 1 {
        tags.lemma_multiset_has_no_duplicates_conv();
    }
}

/// Validity does not depend on the order of the members: two sets with the
/// same members, each as often in one as in the other, are both well-formed
/// or both not.
pub proof fn validity_ignores_order(
    first: Seq<TransactionView>,
    second: Seq<TransactionView>,
    network: Network,
)
    requires
        first.to_multiset() == second.to_multiset(),
    ensures
        well_formed(first, network) == well_formed(second, network),
{
    let serial_numbers = |t: TransactionView| t.serial_numbers;
    let commitments = |t: TransactionView| t.commitments;
    lemma_reordering(first, second, serial_numbers);
    lemma_reordering(first, second, commitments);
    lemma_no_duplicates_by_count(serial_numbers_of(first));
    lemma_no_duplicates_by_count(serial_numbers_of(second));
    lemma_no_duplicates_by_count(commitments_of(first));
    lemma_no_duplicates_by_count(commitments_of(second));
    assert(all_verified(first) == all_verified(second)) by {
        if all_verified(first) {
            assert forall|i: int| 0 <= i < second.len() implies (#[trigger] second[i]).verified by {
                assert(second.contains(second[i]));
                to_multiset_contains(second, second[i]);
                to_multiset_contains(first, second[i]);
                let k = choose|k: int| 0 <= k < first.len() && first[k] == second[i];
                assert(first[k].verified);
            }
        }
        if all_verified(second) {
            assert forall|i: int| 0 <= i < first.len() implies (#[trigger] first[i]).verified by {
                assert(first.contains(first[i]));
                to_multiset_contains(first, first[i]);
                to_multiset_contains(second, first[i]);
                let k = choose|k: int| 0 <= k < second.len() && second[k] == first[i];
                assert(second[k].verified);
            }
        }
    }
}

} // verus!
