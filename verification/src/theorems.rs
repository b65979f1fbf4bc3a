use vstd::prelude::*;
use vstd::seq_lib::lemma_flatten_concat;
use crate::error::Rejection;
use crate::transaction::{Transaction, TransactionView};
use crate::wire::{encodings_of, le_bytes, le_value, varint_bytes, wire_format};
use crate::transactions::{
    decoded_at, decoded_in_turn, member_result, read_from, refused_from,
    all_verified, coinbase_count, commitments_of, ids_of, net_value_balance, serial_numbers_of,
    value_balance_sum, verdict, well_formed, Network,
};

verus! {

/// Where an item of an inner list stands in the flattened list: behind all
/// items of the lists before it.
pub proof fn lemma_flatten_position<A>(lists: Seq<Seq<A>>, i: int, a: int)
    requires
        0 <= i < lists.len(),
        0 <= a < lists[i].len(),
    ensures
        lists.take(i + 1).flatten().len() == lists.take(i).flatten().len() + lists[i].len(),
        lists.take(i + 1).flatten().len() <= lists.flatten().len(),
        lists.flatten()[lists.take(i).flatten().len() + a] == lists[i][a],
{
    assert(lists.take(i + 1) =~= lists.take(i).push(lists[i]));
    lists.take(i).lemma_flatten_push(lists[i]);
    assert(lists =~= lists.take(i + 1) + lists.skip(i + 1));
    lemma_flatten_concat(lists.take(i + 1), lists.skip(i + 1));
}

/// The flattened length of a prefix grows with the prefix.
pub proof fn lemma_flatten_prefix_length<A>(lists: Seq<Seq<A>>, i: int, j: int)
    requires
        0 <= i <= j <= lists.len(),
    ensures
        lists.take(i).flatten().len() <= lists.take(j).flatten().len(),
{
    assert(lists.take(j) =~= lists.take(i) + lists.take(j).skip(i));
    lemma_flatten_concat(lists.take(i), lists.take(j).skip(i));
}

/// An item that two different inner lists share occurs twice in the
/// flattened list.
pub proof fn lemma_shared_item_is_duplicate<A>(lists: Seq<Seq<A>>, i: int, j: int, a: int, b: int)
    requires
        0 <= i < lists.len(),
        0 <= j < lists.len(),
        i != j,
        0 <= a < lists[i].len(),
        0 <= b < lists[j].len(),
        lists[i][a] == lists[j][b],
    ensures
        !lists.flatten().no_duplicates(),
{
    let flat = lists.flatten();
    let p = lists.take(i).flatten().len() + a;
    let q = lists.take(j).flatten().len() + b;
    lemma_flatten_position(lists, i, a);
    lemma_flatten_position(lists, j, b);
    if i < j {
        lemma_flatten_prefix_length(lists, i + 1, j);
    } else {
        lemma_flatten_prefix_length(lists, j + 1, i);
    }
    assert(p != q);
    assert(0 <= p < flat.len() && 0 <= q < flat.len());
    assert(flat[p] == flat[q]);
}

/// Double spends are refused: when two different members share a serial
/// number, the set is not well-formed, whatever else holds of it; and when
/// all members are valid by themselves, the duplicate serial number is the
/// reason given.
pub proof fn shared_serial_number_is_rejected(
    txs: Seq<TransactionView>,
    network: Network,
    i: int,
    j: int,
    a: int,
    b: int,
)
    requires
        0 <= i < txs.len(),
        0 <= j < txs.len(),
        i != j,
        0 <= a < txs[i].serial_numbers.len(),
        0 <= b < txs[j].serial_numbers.len(),
        txs[i].serial_numbers[a] == txs[j].serial_numbers[b],
    ensures
        !serial_numbers_of(txs).no_duplicates(),
        !well_formed(txs, network),
        all_verified(txs) ==> verdict(txs, network) == Err::<(), Rejection>(
            Rejection::DuplicateSerialNumbers,
        ),
{
    let lists = txs.map_values(|t: TransactionView| t.serial_numbers);
    lemma_shared_item_is_duplicate(lists, i, j, a, b);
}

/// Colliding commitments are refused: when two different members share a
/// commitment, the set is not well-formed; and when all members are valid by
/// themselves and no serial number occurs twice, the duplicate commitment is
/// the reason given.
pub proof fn shared_commitment_is_rejected(
    txs: Seq<TransactionView>,
    network: Network,
    i: int,
    j: int,
    a: int,
    b: int,
)
    requires
        0 <= i < txs.len(),
        0 <= j < txs.len(),
        i != j,
        0 <= a < txs[i].commitments.len(),
        0 <= b < txs[j].commitments.len(),
        txs[i].commitments[a] == txs[j].commitments[b],
    ensures
        !commitments_of(txs).no_duplicates(),
        !well_formed(txs, network),
        all_verified(txs) && serial_numbers_of(txs).no_duplicates() ==> verdict(txs, network)
            == Err::<(), Rejection>(Rejection::DuplicateCommitments),
{
    let lists = txs.map_values(|t: TransactionView| t.commitments);
    lemma_shared_item_is_duplicate(lists, i, j, a, b);
}

/// Validity is a matter of the members and the network alone: of two sets
/// with the same members, either both are well-formed or neither is, so
/// asking an unmodified set again gives the same answer.
pub proof fn validity_is_stable(
    first: Seq<TransactionView>,
    second: Seq<TransactionView>,
    network: Network,
)
    requires
        first == second,
    ensures
        well_formed(first, network) == well_formed(second, network),
        verdict(first, network) == verdict(second, network),
{
}

/// The leaves of the transactions tree follow the members: two sets have the
/// same leaves exactly when they have as many members and the same
/// identifier at each position. A reordering that moves a different
/// identifier to some position therefore changes the leaves.
pub proof fn leaves_follow_member_order(first: Seq<TransactionView>, second: Seq<TransactionView>)
    ensures
        ids_of(first) == ids_of(second) <==> first.len() == second.len() && forall|k: int|
            0 <= k < first.len() ==> (#[trigger] first[k]).id == second[k].id,
{
    if ids_of(first) == ids_of(second) {
        assert(first.len() == ids_of(first).len());
        assert(second.len() == ids_of(second).len());
        assert forall|k: int| 0 <= k < first.len() implies (#[trigger] first[k]).id
            == second[k].id by {
            assert(ids_of(first)[k] == first[k].id);
            assert(ids_of(second)[k] == second[k].id);
        }
    }
    if first.len() == second.len() && forall|k: int|
        0 <= k < first.len() ==> (#[trigger] first[k]).id == second[k].id {
        assert(ids_of(first) =~= ids_of(second));
    }
}

/// The coinbase count is enforced: a set whose number of value-creating
/// members differs from the network's is not well-formed, and a non-empty set
/// of valid members with that number of them and without repeated tags is.
pub proof fn coinbase_count_is_enforced(txs: Seq<TransactionView>, network: Network)
    ensures
        coinbase_count(txs) != network.block_coinbase_tx_count ==> !well_formed(txs, network),
        txs.len() > 0 && all_verified(txs) && serial_numbers_of(txs).no_duplicates()
            && commitments_of(txs).no_duplicates() && coinbase_count(txs)
            == network.block_coinbase_tx_count ==> well_formed(txs, network) && verdict(
            txs,
            network,
        ) == Ok::<(), Rejection>(()),
        well_formed(txs, network) <==> verdict(txs, network) is Ok,
{
}

/// While no partial sum leaves the 64-bit range, the net value balance is the
/// exact sum of the value balances.
pub proof fn net_value_balance_is_exact(txs: Seq<TransactionView>)
    requires
        forall|k: int|
            0 <= k <= txs.len() ==> i64::MIN <= #[trigger] value_balance_sum(txs.take(k))
                <= i64::MAX,
    ensures
        net_value_balance(txs) == value_balance_sum(txs),
    decreases txs.len(),
{
    if txs.len() > 0 {
        let rest = txs.drop_last();
        assert forall|k: int| 0 <= k <= rest.len() implies i64::MIN <= #[trigger] value_balance_sum(
            rest.take(k),
        ) <= i64::MAX by {
            assert(rest.take(k) =~= txs.take(k));
        }
        net_value_balance_is_exact(rest);
        assert(txs.take(txs.len() as int) =~= txs);
        assert(rest =~= txs.take(txs.len() - 1));
    }
}

/// 256 to the power of `width`.
pub open spec fn pow256(width: nat) -> nat
    decreases width,
{
    if width == 0 {
        1
    } else {
        256 * pow256((width - 1) as nat)
    }
}

/// Little-endian bytes of a sufficient width give the value back.
pub proof fn lemma_le_bytes_round_trip(value: nat, width: nat)
    requires
        value < pow256(width),
    ensures
        le_bytes(value, width).len() == width,
        le_value(le_bytes(value, width)) == value,
    decreases width,
{
    if width > 0 {
        let rest = le_bytes(value / 256, (width - 1) as nat);
        lemma_le_bytes_round_trip(value / 256, (width - 1) as nat);
        assert(le_bytes(value, width).drop_first() =~= rest);
    }
}

/// The encoding of a count is one of four forms, told apart by the first
/// byte, and gives the count back.
pub proof fn lemma_varint_forms(value: u64)
    ensures
        value <= 252 ==> varint_bytes(value).len() == 1 && varint_bytes(value)[0] == value,
        252 < value <= 0xffff ==> varint_bytes(value).len() == 3 && varint_bytes(value)[0] == 0xfd
            && le_value(varint_bytes(value).skip(1)) == value,
        0xffff < value <= 0xffff_ffff ==> varint_bytes(value).len() == 5 && varint_bytes(value)[0]
            == 0xfe && le_value(varint_bytes(value).skip(1)) == value,
        0xffff_ffff < value ==> varint_bytes(value).len() == 9 && varint_bytes(value)[0] == 0xff
            && le_value(varint_bytes(value).skip(1)) == value,
{
    reveal_with_fuel(pow256, 9);
    if 252 < value <= 0xffff {
        lemma_le_bytes_round_trip(value as nat, 2);
        assert(varint_bytes(value).skip(1) =~= le_bytes(value as nat, 2));
    } else if 0xffff < value <= 0xffff_ffff {
        lemma_le_bytes_round_trip(value as nat, 4);
        assert(varint_bytes(value).skip(1) =~= le_bytes(value as nat, 4));
    } else if 0xffff_ffff < value {
        lemma_le_bytes_round_trip(value as nat, 8);
        assert(varint_bytes(value).skip(1) =~= le_bytes(value as nat, 8));
    }
}

/// A count can be read back from the front of a byte string in one way only:
/// two encodings, each followed by more bytes, that give the same string are
/// encodings of the same count and are followed by the same bytes.
pub proof fn varint_prefix_is_unique(a: u64, rest_a: Seq<u8>, b: u64, rest_b: Seq<u8>)
    requires
        varint_bytes(a) + rest_a == varint_bytes(b) + rest_b,
    ensures
        a == b,
        rest_a == rest_b,
{
    let x = varint_bytes(a);
    let y = varint_bytes(b);
    lemma_varint_forms(a);
    lemma_varint_forms(b);
    assert((x + rest_a)[0] == x[0]);
    assert((y + rest_b)[0] == y[0]);
    assert(x.len() == y.len());
    assert(x =~= (x + rest_a).take(x.len() as int));
    assert(y =~= (y + rest_b).take(y.len() as int));
    assert(rest_a =~= (x + rest_a).skip(x.len() as int));
    assert(rest_b =~= (y + rest_b).skip(y.len() as int));
}

/// The wire form frames its members: whatever count and remainder a byte
/// string that is a wire form splits into, the count is the number of
/// members and the remainder is their encodings one after the other.
pub proof fn wire_format_frames(txs: Seq<TransactionView>, count: u64, rest: Seq<u8>)
    requires
        txs.len() <= u64::MAX,
        wire_format(txs) == varint_bytes(count) + rest,
    ensures
        count == txs.len(),
        rest == encodings_of(txs),
{
    varint_prefix_is_unique(txs.len() as u64, encodings_of(txs), count, rest);
}

/// A flattened list splits at any inner list into what stands before it, the
/// inner list itself and what stands behind it.
pub proof fn lemma_flatten_split<A>(lists: Seq<Seq<A>>, i: int)
    requires
        0 <= i < lists.len(),
    ensures
        lists.take(i + 1).flatten() =~= lists.take(i).flatten() + lists[i],
        lists.flatten() =~= lists.take(i).flatten() + lists[i] + lists.skip(i + 1).flatten(),
{
    assert(lists.take(i + 1) =~= lists.take(i).push(lists[i]));
    lists.take(i).lemma_flatten_push(lists[i]);
    assert(lists =~= lists.take(i + 1) + lists.skip(i + 1));
    lemma_flatten_concat(lists.take(i + 1), lists.skip(i + 1));
}

/// In the encodings of all members, the encoding of member `k` begins where
/// the encodings of the members before it end.
pub proof fn lemma_encoding_position(txs: Seq<TransactionView>, k: int)
    requires
        0 <= k < txs.len(),
    ensures
        encodings_of(txs.take(k + 1)).len() == encodings_of(txs.take(k)).len()
            + txs[k].encoding.len(),
        encodings_of(txs.take(k + 1)).len() <= encodings_of(txs).len(),
        txs[k].encoding.is_prefix_of(
            encodings_of(txs).skip(encodings_of(txs.take(k)).len() as int),
        ),
{
    let f = |t: TransactionView| t.encoding;
    let lists = txs.map_values(f);
    assert(lists.take(k) =~= txs.take(k).map_values(f));
    assert(lists.take(k + 1) =~= txs.take(k + 1).map_values(f));
    lemma_flatten_split(lists, k);
    let before = lists.take(k).flatten();
    let behind = lists.skip(k + 1).flatten();
    assert(lists.flatten().skip(before.len() as int) =~= lists[k] + behind);
}

/// The decoder restores the members of `txs`: handed bytes that begin with
/// the encoding of one of them, it gives a transaction that reads as that
/// member and the length of that encoding.
pub open spec fn restores<D: Fn(&[u8]) -> Option<(Transaction, usize)>>(
    decoder: D,
    txs: Seq<TransactionView>,
) -> bool {
    forall|k: int, input: &[u8], outcome: Option<(Transaction, usize)>|
        0 <= k < txs.len() && (#[trigger] txs[k]).encoding.is_prefix_of(input@) && #[trigger] call_ensures(
            decoder,
            (input,),
            outcome,
        ) ==> outcome is Some && outcome.unwrap().0@ == txs[k] && outcome.unwrap().1
            == txs[k].encoding.len()
}

/// Members that a restoring decoder gave in turn from the encodings of `txs`
/// are the first members of `txs`, and end where the encodings of those end.
pub proof fn lemma_decoded_members<D: Fn(&[u8]) -> Option<(Transaction, usize)>>(
    decoder: D,
    txs: Seq<TransactionView>,
    members: Seq<Transaction>,
    end: int,
)
    requires
        restores(decoder, txs),
        members.len() <= txs.len(),
        decoded_in_turn(decoder, encodings_of(txs), members, end),
    ensures
        end == encodings_of(txs.take(members.len() as int)).len(),
        forall|k: int| 0 <= k < members.len() ==> (#[trigger] members[k])@ == txs[k],
    decreases members.len(),
{
    let bytes = encodings_of(txs);
    let f = |t: TransactionView| t.encoding;
    if members.len() == 0 {
        assert(txs.take(0).map_values(f) =~= Seq::<Seq<u8>>::empty());
    } else {
        let j = members.len() - 1;
        let start = choose|start: int|
            decoded_in_turn(decoder, bytes, members.drop_last(), start) && #[trigger] decoded_at(
                decoder,
                bytes,
                members.last(),
                start,
                end,
            );
        lemma_decoded_members(decoder, txs, members.drop_last(), start);
        lemma_encoding_position(txs, j);
        let (input, taken) = choose|input: &[u8], taken: usize| #[trigger]
            call_ensures(decoder, (input,), Some((members.last(), taken))) && input@ == bytes.skip(
                start,
            ) && 0 <= start <= start + taken == end <= bytes.len();
        assert(txs[j].encoding.is_prefix_of(input@));
        assert(members.last()@ == txs[j]);
        assert forall|k: int| 0 <= k < members.len() implies (#[trigger] members[k])@ == txs[k] by {
            if k < j {
                assert(members.drop_last()[k] == members[k]);
            }
        }
    }
}

/// The wire form round-trips: whatever a restoring decoder reads from the
/// wire form of `txs` reads, member by member and in order, as `txs`.
pub proof fn wire_format_round_trips<D: Fn(&[u8]) -> Option<(Transaction, usize)>>(
    decoder: D,
    txs: Seq<TransactionView>,
    members: Seq<Transaction>,
)
    requires
        txs.len() <= usize::MAX,
        restores(decoder, txs),
        read_from(decoder, wire_format(txs), members),
    ensures
        members.map_values(|t: Transaction| t@) == txs,
{
    let (value, rest, end) = choose|value: u64, rest: Seq<u8>, end: int|
        wire_format(txs) == #[trigger] varint_bytes(value) + rest && members.len() == (
        #[verifier::truncate] (value as usize)) && #[trigger] decoded_in_turn(
            decoder,
            rest,
            members,
            end,
        );
    wire_format_frames(txs, value, rest);
    lemma_decoded_members(decoder, txs, members, end);
    assert(members.map_values(|t: Transaction| t@) =~= txs);
}

/// Reading the wire form of `txs` with a restoring decoder is never
/// refused.
pub proof fn wire_format_is_read<D: Fn(&[u8]) -> Option<(Transaction, usize)>>(
    decoder: D,
    txs: Seq<TransactionView>,
)
    requires
        txs.len() <= usize::MAX,
        restores(decoder, txs),
    ensures
        !refused_from(decoder, wire_format(txs)),
{
    let bytes = wire_format(txs);
    assert(varint_bytes(txs.len() as u64).is_prefix_of(bytes));
    if refused_from(decoder, bytes) {
        let (value, rest, members, end, input, outcome) = choose|
            value: u64,
            rest: Seq<u8>,
            members: Seq<Transaction>,
            end: int,
            input: &[u8],
            outcome: Option<(Transaction, usize)>,
        |
            bytes == #[trigger] varint_bytes(value) + rest && members.len() < (
            #[verifier::truncate] (value as usize)) && #[trigger] decoded_in_turn(
                decoder,
                rest,
                members,
                end,
            ) && input@ == rest.skip(end) && #[trigger] call_ensures(decoder, (input,), outcome)
                && member_result(outcome, input@.len() as int) is Err;
        wire_format_frames(txs, value, rest);
        lemma_decoded_members(decoder, txs, members, end);
        let k = members.len() as int;
        lemma_encoding_position(txs, k);
        assert(txs[k].encoding.is_prefix_of(input@));
        assert(outcome is Some && outcome.unwrap().1 == txs[k].encoding.len());
        assert(false);
    }
}

} // verus!
