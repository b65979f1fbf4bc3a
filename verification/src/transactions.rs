use vstd::prelude::*;
use crate::amount::{saturating_sum, AleoAmount};
use crate::error::{Rejection, TransactionsError};
use crate::outside::{count_prefix, encode_hex, has_duplicate_tags, read_count};
use crate::transaction::{Transaction, TransactionView};
use crate::wire::{encodings_of, hex_digits, varint_bytes, wire_format};
use vstd::slice::slice_subrange;

verus! {

/// The parameters of the network that a block is assembled for.
#[derive(Clone, Copy, Debug, PartialEq, Eq, Structural)]
pub struct Network {
    /// How many value-creating transactions a block must hold.
    pub block_coinbase_tx_count: usize,
}

/// Every member satisfies its own validity predicate.
pub open spec fn all_verified(txs: Seq<TransactionView>) -> bool {
    forall|i: int| 0 <= i < txs.len() ==> (#[trigger] txs[i]).verified
}

/// The serial numbers of all members, in member order.
pub open spec fn serial_numbers_of(txs: Seq<TransactionView>) -> Seq<[u8; 32]> {
    txs.map_values(|t: TransactionView| t.serial_numbers).flatten()
}

/// The commitments of all members, in member order.
pub open spec fn commitments_of(txs: Seq<TransactionView>) -> Seq<[u8; 32]> {
    txs.map_values(|t: TransactionView| t.commitments).flatten()
}

/// The identifiers of the members, in member order.
pub open spec fn ids_of(txs: Seq<TransactionView>) -> Seq<[u8; 32]> {
    txs.map_values(|t: TransactionView| t.id)
}

/// The number of value-creating members.
pub open spec fn coinbase_count(txs: Seq<TransactionView>) -> nat
    decreases txs.len(),
{
    if txs.len() == 0 {
        0
    } else {
        coinbase_count(txs.drop_last()) + if txs.last().value_balance < 0 {
            1nat
        } else {
            0nat
        }
    }
}

/// The exact sum of the value balances of the fee-paying members.
pub open spec fn fee_sum(txs: Seq<TransactionView>) -> int
    decreases txs.len(),
{
    if txs.len() == 0 {
        0
    } else {
        fee_sum(txs.drop_last()) + if txs.last().value_balance < 0 {
            0
        } else {
            txs.last().value_balance
        }
    }
}

/// The value balances of all members added from the first to the last, each
/// addition saturating.
pub open spec fn net_value_balance(txs: Seq<TransactionView>) -> int
    decreases txs.len(),
{
    if txs.len() == 0 {
        0
    } else {
        saturating_sum(net_value_balance(txs.drop_last()), txs.last().value_balance)
    }
}

/// The exact sum of the value balances of all members.
pub open spec fn value_balance_sum(txs: Seq<TransactionView>) -> int
    decreases txs.len(),
{
    if txs.len() == 0 {
        0
    } else {
        value_balance_sum(txs.drop_last()) + txs.last().value_balance
    }
}

/// The verdict of the full validation pass: the first rule, in the order of
/// the pass, that the members break.
pub open spec fn verdict(txs: Seq<TransactionView>, network: Network) -> Result<(), Rejection> {
    if txs.len() == 0 {
        Err(Rejection::Empty)
    } else if !all_verified(txs) {
        Err(Rejection::InvalidMember)
    } else if !serial_numbers_of(txs).no_duplicates() {
        Err(Rejection::DuplicateSerialNumbers)
    } else if !commitments_of(txs).no_duplicates() {
        Err(Rejection::DuplicateCommitments)
    } else if coinbase_count(txs) != network.block_coinbase_tx_count {
        Err(
            (Rejection::CoinbaseCount {
                expected: network.block_coinbase_tx_count,
                found: coinbase_count(txs) as usize,
            }),
        )
    } else {
        Ok(())
    }
}

/// The members are acceptable as the payload of one block.
pub open spec fn well_formed(txs: Seq<TransactionView>, network: Network) -> bool {
    &&& txs.len() > 0
    &&& all_verified(txs)
    &&& serial_numbers_of(txs).no_duplicates()
    &&& commitments_of(txs).no_duplicates()
    &&& coinbase_count(txs) == network.block_coinbase_tx_count
}

/// What the accumulator's outcome becomes: its root, or the failure to
/// produce one.
pub open spec fn root_result(outcome: Option<Vec<u8>>) -> Result<Vec<u8>, TransactionsError> {
    match outcome {
        Some(root) => Ok(root),
        None => Err(TransactionsError::Accumulator),
    }
}

/// Turns the accumulator's outcome into the result of the root query.
pub fn root_from(outcome: Option<Vec<u8>>) -> (r: Result<Vec<u8>, TransactionsError>)
    ensures
        r == root_result(outcome),
{
    match outcome {
        Some(root) => Ok(root),
        None => Err(TransactionsError::Accumulator),
    }
}

/// The decoder, handed the bytes from `start` on, gave `member` and took the
/// bytes up to `end`.
pub open spec fn decoded_at<D: Fn(&[u8]) -> Option<(Transaction, usize)>>(
    decoder: D,
    bytes: Seq<u8>,
    member: Transaction,
    start: int,
    end: int,
) -> bool {
    exists|input: &[u8], taken: usize| #[trigger]
        call_ensures(decoder, (input,), Some((member, taken))) && input@ == bytes.skip(start) && 0
            <= start <= start + taken == end <= bytes.len()
}

/// The members were decoded one after the other from the front of `bytes`,
/// each from what the one before it had left, and the last of them ended at
/// `end`.
pub open spec fn decoded_in_turn<D: Fn(&[u8]) -> Option<(Transaction, usize)>>(
    decoder: D,
    bytes: Seq<u8>,
    members: Seq<Transaction>,
    end: int,
) -> bool
    decreases members.len(),
{
    if members.len() == 0 {
        end == 0
    } else {
        exists|start: int|
            decoded_in_turn(decoder, bytes, members.drop_last(), start) && #[trigger] decoded_at(
                decoder,
                bytes,
                members.last(),
                start,
                end,
            )
    }
}

/// The bytes begin with a count, and that many members were decoded in turn
/// from what follows it. The count is taken as the machine holds it.
pub open spec fn read_from<D: Fn(&[u8]) -> Option<(Transaction, usize)>>(
    decoder: D,
    bytes: Seq<u8>,
    members: Seq<Transaction>,
) -> bool {
    exists|value: u64, rest: Seq<u8>, end: int|
        bytes == #[trigger] varint_bytes(value) + rest && members.len() == (
        #[verifier::truncate] (value as usize)) && #[trigger] decoded_in_turn(
            decoder,
            rest,
            members,
            end,
        )
}

/// What becomes of one outcome of the member decoder, with `remaining` bytes
/// at hand: the member and the bytes it took, unless nothing was decoded or
/// more bytes are claimed than there are.
pub open spec fn member_result(outcome: Option<(Transaction, usize)>, remaining: int) -> Result<
    (Transaction, usize),
    TransactionsError,
> {
    match outcome {
        Some((member, taken)) => if taken <= remaining {
            Ok((member, taken))
        } else {
            Err(TransactionsError::DecodeError)
        },
        None => Err(TransactionsError::DecodeError),
    }
}

/// Reading the bytes gives no set: they begin with no count, or, after fewer
/// members than the count were decoded in turn, the decoder's outcome on
/// what was left is refused.
pub open spec fn refused_from<D: Fn(&[u8]) -> Option<(Transaction, usize)>>(
    decoder: D,
    bytes: Seq<u8>,
) -> bool {
    ||| forall|value: u64| !(#[trigger] varint_bytes(value)).is_prefix_of(bytes)
    ||| exists|
        value: u64,
        rest: Seq<u8>,
        members: Seq<Transaction>,
        end: int,
        input: &[u8],
        outcome: Option<(Transaction, usize)>,
    |
        bytes == #[trigger] varint_bytes(value) + rest && members.len() < (
        #[verifier::truncate] (value as usize)) && #[trigger] decoded_in_turn(
            decoder,
            rest,
            members,
            end,
        ) && input@ == rest.skip(end) && #[trigger] call_ensures(decoder, (input,), outcome)
            && member_result(outcome, input@.len() as int) is Err
}

/// Accepts or refuses one outcome of the member decoder.
pub fn member_from(outcome: Option<(Transaction, usize)>, remaining: usize) -> (r: Result<
    (Transaction, usize),
    TransactionsError,
>)
    ensures
        r == member_result(outcome, remaining as int),
{
    match outcome {
        Some((member, taken)) => if taken <= remaining {
            Ok((member, taken))
        } else {
            Err(TransactionsError::DecodeError)
        },
        None => Err(TransactionsError::DecodeError),
    }
}

/// Appends bytes to a buffer.
pub fn append_bytes(out: &mut Vec<u8>, bytes: &Vec<u8>)
    ensures
        final(out)@ == old(out)@ + bytes@,
{
    let ghost before = out@;
    let mut j: usize = 0;
    while j < bytes.len()
        invariant
            j <= bytes.len(),
            out@ == before + bytes@.take(j as int),
        decreases bytes.len() - j,
    {
        out.push(bytes[j]);
        proof {
            assert(bytes@.take(j + 1) =~= bytes@.take(j as int).push(bytes@[j as int]));
            assert(out@ =~= before + bytes@.take(j + 1));
        }
        j += 1;
    }
    proof {
        assert(bytes@.take(bytes@.len() as int) =~= bytes@);
    }
}

/// The ordered transactions of one block.
#[derive(Debug, PartialEq, Eq)]
pub struct BlockTransactions(pub Vec<Transaction>);

impl View for BlockTransactions {
    type V = Seq<TransactionView>;

    open spec fn view(&self) -> Seq<TransactionView> {
        self.0@.map_values(|t: Transaction| t@)
    }
}

impl BlockTransactions {
    /// Initializes an empty list of transactions.
    pub fn new() -> (r: Self)
        ensures
            r@ == Seq::<TransactionView>::empty(),
    {
        let r = BlockTransactions(Vec::new());
        proof {
            assert(r@ =~= Seq::<TransactionView>::empty());
        }
        r
    }

    /// Initializes from a given list of transactions, which are taken as they
    /// are: none of them is checked.
    pub fn from(transactions: &[Transaction]) -> (r: Self)
        ensures
            r@ == transactions@.map_values(|t: Transaction| t@),
    {
        let mut out: Vec<Transaction> = Vec::new();
        let mut i: usize = 0;
        while i < transactions.len()
            invariant
                i <= transactions.len(),
                out@.len() == i,
                forall|k: int| 0 <= k < i ==> (#[trigger] out@[k])@ == transactions@[k]@,
            decreases transactions.len() - i,
        {
            out.push(transactions[i].clone());
            i += 1;
        }
        let r = BlockTransactions(out);
        proof {
            assert(r@ =~= transactions@.map_values(|t: Transaction| t@));
        }
        r
    }

    /// The number of transactions.
    pub fn len(&self) -> (r: usize)
        ensures
            r == self@.len(),
    {
        self.0.len()
    }

    /// Adds the given transaction to the list of transactions, if it is valid.
    /// The other rules of a block are not looked at here.
    pub fn push(&mut self, transaction: Transaction) -> (r: Result<(), TransactionsError>)
        ensures
            transaction@.verified ==> r == Ok::<(), TransactionsError>(()) && final(self)@ == old(
                self,
            )@.push(transaction@),
            !transaction@.verified ==> r == Err::<(), TransactionsError>(
                TransactionsError::InvalidTransaction,
            ) && final(self)@ == old(self)@,
    {
        if transaction.is_valid() {
            self.0.push(transaction);
            proof {
                assert(self@ =~= old(self)@.push(transaction@));
            }
            Ok(())
        } else {
            Err(TransactionsError::InvalidTransaction)
        }
    }

    /// Whether every member satisfies its own validity predicate.
    pub fn all_members_valid(&self) -> (r: bool)
        ensures
            r == all_verified(self@),
    {
        let mut i: usize = 0;
        while i < self.0.len()
            invariant
                i <= self.0.len(),
                forall|k: int| 0 <= k < i ==> (#[trigger] self@[k]).verified,
            decreases self.0.len() - i,
        {
            if !self.0[i].is_valid() {
                proof {
                    assert(!self@[i as int].verified);
                }
                return false;
            }
            i += 1;
        }
        true
    }

    /// The full validation pass, with the reason of a refusal: the rules are
    /// tried in a fixed order and the first one broken is reported.
    pub fn validate(&self, network: &Network) -> (r: Result<(), Rejection>)
        ensures
            r == verdict(self@, *network),
            r is Ok <==> well_formed(self@, *network),
    {
        if self.0.len() == 0 {
            return Err(Rejection::Empty);
        }
        if !self.all_members_valid() {
            return Err(Rejection::InvalidMember);
        }
        let serial_numbers = self.flatten_serial_numbers();
        if has_duplicate_tags(&serial_numbers) {
            return Err(Rejection::DuplicateSerialNumbers);
        }
        let commitments = self.flatten_commitments();
        if has_duplicate_tags(&commitments) {
            return Err(Rejection::DuplicateCommitments);
        }
        let found = self.to_coinbase_transaction_count();
        if found != network.block_coinbase_tx_count {
            return Err(
                Rejection::CoinbaseCount { expected: network.block_coinbase_tx_count, found },
            );
        }
        Ok(())
    }

    /// Returns `true` if the transactions are well-formed: there is at least
    /// one, each is valid by itself, no serial number and no commitment occurs
    /// twice, and the number of value-creating ones is the network's.
    pub fn is_valid(&self, network: &Network) -> (r: bool)
        ensures
            r == well_formed(self@, *network),
    {
        self.validate(network).is_ok()
    }

    fn flatten_serial_numbers(&self) -> (r: Vec<[u8; 32]>)
        ensures
            r@ == serial_numbers_of(self@),
    {
        let mut out: Vec<[u8; 32]> = Vec::new();
        let mut i: usize = 0;
        while i < self.0.len()
            invariant
                i <= self.0.len(),
                out@ == serial_numbers_of(self@.take(i as int)),
            decreases self.0.len() - i,
        {
            let tags = self.0[i].serial_numbers();
            let ghost before = out@;
            let mut j: usize = 0;
            while j < tags.len()
                invariant
                    j <= tags.len(),
                    out@ == before + tags@.take(j as int),
                decreases tags.len() - j,
            {
                out.push(tags[j]);
                proof {
                    assert(tags@.take(j + 1) =~= tags@.take(j as int).push(tags@[j as int]));
                    assert(out@ =~= before + tags@.take(j + 1));
                }
                j += 1;
            }
            proof {
                assert(tags@.take(tags@.len() as int) =~= tags@);
                let f = |t: TransactionView| t.serial_numbers;
                let prefix = self@.take(i as int);
                assert(self@.take(i + 1).map_values(f) =~= prefix.map_values(f).push(tags@));
                prefix.map_values(f).lemma_flatten_push(tags@);
            }
            i += 1;
        }
        proof {
            assert(self@.take(self@.len() as int) =~= self@);
        }
        out
    }

    fn flatten_commitments(&self) -> (r: Vec<[u8; 32]>)
        ensures
            r@ == commitments_of(self@),
    {
        let mut out: Vec<[u8; 32]> = Vec::new();
        let mut i: usize = 0;
        while i < self.0.len()
            invariant
                i <= self.0.len(),
                out@ == commitments_of(self@.take(i as int)),
            decreases self.0.len() - i,
        {
            let tags = self.0[i].commitments();
            let ghost before = out@;
            let mut j: usize = 0;
            while j < tags.len()
                invariant
                    j <= tags.len(),
                    out@ == before + tags@.take(j as int),
                decreases tags.len() - j,
            {
                out.push(tags[j]);
                proof {
                    assert(tags@.take(j + 1) =~= tags@.take(j as int).push(tags@[j as int]));
                    assert(out@ =~= before + tags@.take(j + 1));
                }
                j += 1;
            }
            proof {
                assert(tags@.take(tags@.len() as int) =~= tags@);
                let f = |t: TransactionView| t.commitments;
                let prefix = self@.take(i as int);
                assert(self@.take(i + 1).map_values(f) =~= prefix.map_values(f).push(tags@));
                prefix.map_values(f).lemma_flatten_push(tags@);
            }
            i += 1;
        }
        proof {
            assert(self@.take(self@.len() as int) =~= self@);
        }
        out
    }

    /// Returns the commitments, by constructing a flattened list of commitments
    /// from all transactions. Nothing is removed from it.
    pub fn to_commitments(&self) -> (r: Result<Vec<[u8; 32]>, TransactionsError>)
        requires
            self@.len() > 0,
        ensures
            r is Ok,
            r.unwrap()@ == commitments_of(self@),
    {
        Ok(self.flatten_commitments())
    }

    /// Returns the serial numbers, by constructing a flattened list of serial
    /// numbers from all transactions. Nothing is removed from it.
    pub fn to_serial_numbers(&self) -> (r: Result<Vec<[u8; 32]>, TransactionsError>)
        requires
            self@.len() > 0,
        ensures
            r is Ok,
            r.unwrap()@ == serial_numbers_of(self@),
    {
        Ok(self.flatten_serial_numbers())
    }

    /// Returns the identifiers of the transactions in order: the leaves of the
    /// transactions tree.
    pub fn to_transaction_ids(&self) -> (r: Vec<[u8; 32]>)
        ensures
            r@ == ids_of(self@),
    {
        let mut out: Vec<[u8; 32]> = Vec::new();
        let mut i: usize = 0;
        while i < self.0.len()
            invariant
                i <= self.0.len(),
                out@ == ids_of(self@.take(i as int)),
            decreases self.0.len() - i,
        {
            out.push(self.0[i].to_transaction_id());
            proof {
                assert(ids_of(self@.take(i + 1)) =~= ids_of(self@.take(i as int)).push(
                    self@[i as int].id,
                ));
            }
            i += 1;
        }
        proof {
            assert(self@.take(self@.len() as int) =~= self@);
        }
        out
    }

    /// Returns the transactions root: the root that the accumulator of the
    /// network gives for the identifiers of the transactions, taken in order
    /// as its leaves.
    pub fn to_transactions_root<F: Fn(&Vec<[u8; 32]>) -> Option<Vec<u8>>>(
        &self,
        accumulator: F,
    ) -> (r: Result<Vec<u8>, TransactionsError>)
        requires
            self@.len() > 0,
            forall|leaves: Vec<[u8; 32]>|
                leaves@ == ids_of(self@) ==> call_requires(accumulator, (&leaves,)),
        ensures
            exists|leaves: Vec<[u8; 32]>, outcome: Option<Vec<u8>>|
                leaves@ == ids_of(self@) && call_ensures(accumulator, (&leaves,), outcome) && r
                    == root_result(outcome),
    {
        let leaves = self.to_transaction_ids();
        let outcome = accumulator(&leaves);
        root_from(outcome)
    }

    /// Serializes the transactions into strings: the canonical bytes of each
    /// in lowercase hexadecimal, in order.
    pub fn serialize_as_str(&self) -> (r: Result<Vec<String>, TransactionsError>)
        ensures
            r is Ok,
            r.unwrap()@.len() == self@.len(),
            forall|k: int|
                0 <= k < self@.len() ==> (#[trigger] r.unwrap()@[k])@ == hex_digits(
                    self@[k].encoding,
                ),
    {
        let mut out: Vec<String> = Vec::new();
        let mut i: usize = 0;
        while i < self.0.len()
            invariant
                i <= self.0.len(),
                out@.len() == i,
                forall|k: int| 0 <= k < i ==> (#[trigger] out@[k])@ == hex_digits(self@[k].encoding),
            decreases self.0.len() - i,
        {
            out.push(encode_hex(&self.0[i].encoding));
            i += 1;
        }
        Ok(out)
    }

    /// The wire form: the number of transactions as a variable-length
    /// integer, then the canonical bytes of each transaction in order.
    pub fn write_le(&self) -> (r: Vec<u8>)
        ensures
            r@ == wire_format(self@),
    {
        let mut out = count_prefix(self.0.len() as u64);
        let mut i: usize = 0;
        while i < self.0.len()
            invariant
                i <= self.0.len(),
                out@ == varint_bytes(self@.len() as u64) + encodings_of(
                    self@.take(i as int),
                ),
            decreases self.0.len() - i,
        {
            append_bytes(&mut out, &self.0[i].encoding);
            proof {
                let f = |t: TransactionView| t.encoding;
                let prefix = self@.take(i as int);
                assert(self@.take(i + 1).map_values(f) =~= prefix.map_values(f).push(
                    self@[i as int].encoding,
                ));
                prefix.map_values(f).lemma_flatten_push(self@[i as int].encoding);
                assert(out@ =~= varint_bytes(self@.len() as u64) + encodings_of(
                    self@.take(i + 1),
                ));
            }
            i += 1;
        }
        proof {
            assert(self@.take(self@.len() as int) =~= self@);
        }
        out
    }

    /// Reads the wire form: the count, then that many transactions, each by
    /// the transaction decoder from the bytes that the one before it left.
    /// The decoder gives the transaction at the front of its input and the
    /// number of bytes that it occupies.
    pub fn read_le<D: Fn(&[u8]) -> Option<(Transaction, usize)>>(bytes: &[u8], decoder: D) -> (r:
        Result<Self, TransactionsError>)
        requires
            forall|input: &[u8]| call_requires(decoder, (input,)),
        ensures
            r is Ok ==> read_from(decoder, bytes@, r.unwrap().0@),
            r is Err ==> r.unwrap_err() == TransactionsError::DecodeError && refused_from(
                decoder,
                bytes@,
            ),
            (forall|value: u64| !(#[trigger] varint_bytes(value)).is_prefix_of(bytes@)) ==> r is Err,
    {
        let (count, all) = match read_count(bytes) {
            Some(pair) => pair,
            None => {
                return Err(TransactionsError::DecodeError);
            },
        };
        let ghost value: u64 = choose|value: u64|
            bytes@ == #[trigger] varint_bytes(value) + all@ && count == (
            #[verifier::truncate] (value as usize));
        proof {
            assert(varint_bytes(value).is_prefix_of(bytes@));
        }
        let mut rest: &[u8] = all;
        let mut members: Vec<Transaction> = Vec::new();
        let ghost mut end: int = 0;
        let mut k: usize = 0;
        while k < count
            invariant
                k <= count,
                members@.len() == k,
                bytes@ == varint_bytes(value) + all@,
                count == (#[verifier::truncate] (value as usize)),
                0 <= end <= all@.len(),
                rest@ == all@.skip(end),
                decoded_in_turn(decoder, all@, members@, end),
                forall|input: &[u8]| call_requires(decoder, (input,)),
            decreases count - k,
        {
            let input = rest;
            let outcome = decoder(input);
            let ghost decoded = outcome;
            let (member, taken) = match member_from(outcome, rest.len()) {
                Ok(pair) => pair,
                Err(e) => {
                    proof {
                        assert(call_ensures(decoder, (input,), decoded));
                        assert(refused_from(decoder, bytes@));
                    }
                    return Err(e);
                },
            };
            let ghost before = members@;
            let ghost start = end;
            rest = slice_subrange(rest, taken, rest.len());
            members.push(member);
            proof {
                end = start + taken;
                assert(rest@ =~= all@.skip(end));
                assert(members@.drop_last() =~= before);
                assert(call_ensures(decoder, (input,), Some((member, taken))));
                assert(decoded_at(decoder, all@, members@.last(), start, end));
            }
            k += 1;
        }
        let set = BlockTransactions(members);
        proof {
            assert(read_from(decoder, bytes@, set.0@));
        }
        Ok(set)
    }

    /// Returns the number of coinbase transactions: those with a negative
    /// value balance.
    pub fn to_coinbase_transaction_count(&self) -> (r: usize)
        ensures
            r == coinbase_count(self@),
    {
        let mut count: usize = 0;
        let mut i: usize = 0;
        while i < self.0.len()
            invariant
                i <= self.0.len(),
                count <= i,
                count == coinbase_count(self@.take(i as int)),
            decreases self.0.len() - i,
        {
            proof {
                assert(self@.take(i + 1).drop_last() =~= self@.take(i as int));
            }
            if self.0[i].value_balance().is_negative() {
                count += 1;
            }
            i += 1;
        }
        proof {
            assert(self@.take(self@.len() as int) =~= self@);
        }
        count
    }

    /// Returns the total transaction fees, by summing the value balance from
    /// all transactions whose value balance is not negative. The block reward
    /// is not part of it. The sum stays at the largest amount once it is
    /// reached. Without a fee-paying transaction there is no such sum.
    pub fn to_transaction_fees(&self) -> (r: Result<AleoAmount, TransactionsError>)
        ensures
            coinbase_count(self@) < self@.len() ==> r is Ok && r.unwrap().0 == (if fee_sum(self@)
                > i64::MAX {
                i64::MAX as int
            } else {
                fee_sum(self@)
            }),
            coinbase_count(self@) >= self@.len() ==> r == Err::<AleoAmount, TransactionsError>(
                TransactionsError::MalformedAggregate,
            ),
    {
        let mut total = AleoAmount::zero();
        let mut payers: usize = 0;
        let mut i: usize = 0;
        while i < self.0.len()
            invariant
                i <= self.0.len(),
                payers + coinbase_count(self@.take(i as int)) == i,
                0 <= fee_sum(self@.take(i as int)),
                total.0 == (if fee_sum(self@.take(i as int)) > i64::MAX {
                    i64::MAX as int
                } else {
                    fee_sum(self@.take(i as int))
                }),
            decreases self.0.len() - i,
        {
            proof {
                assert(self@.take(i + 1).drop_last() =~= self@.take(i as int));
            }
            let balance = *self.0[i].value_balance();
            if !balance.is_negative() {
                total = total.add(balance);
                payers += 1;
            }
            i += 1;
        }
        proof {
            assert(self@.take(self@.len() as int) =~= self@);
        }
        if payers == 0 {
            Err(TransactionsError::MalformedAggregate)
        } else {
            Ok(total)
        }
    }

    /// Returns the net value balance, by summing the value balance from all
    /// transactions, the coinbase ones included, from the first to the last.
    /// No addition wraps: each stays at the end of the range that it would
    /// pass. An empty list has no net value balance.
    pub fn to_net_value_balance(&self) -> (r: Result<AleoAmount, TransactionsError>)
        ensures
            self@.len() > 0 ==> r is Ok && r.unwrap().0 == net_value_balance(self@),
            self@.len() == 0 ==> r == Err::<AleoAmount, TransactionsError>(
                TransactionsError::MalformedAggregate,
            ),
    {
        if self.0.len() == 0 {
            return Err(TransactionsError::MalformedAggregate);
        }
        let mut total = AleoAmount::zero();
        let mut i: usize = 0;
        while i < self.0.len()
            invariant
                i <= self.0.len(),
                total.0 == net_value_balance(self@.take(i as int)),
            decreases self.0.len() - i,
        {
            proof {
                assert(self@.take(i + 1).drop_last() =~= self@.take(i as int));
            }
            total = total.add(*self.0[i].value_balance());
            i += 1;
        }
        proof {
            assert(self@.take(self@.len() as int) =~= self@);
        }
        Ok(total)
    }
}

impl Clone for BlockTransactions {
    fn clone(&self) -> (r: Self)
        ensures
            r@ == self@,
    {
        let r = BlockTransactions::from(self.0.as_slice());
        r
    }
}

impl std::ops::Deref for BlockTransactions {
    type Target = Vec<Transaction>;

    fn deref(&self) -> (r: &Vec<Transaction>)
        ensures
            *r == self.0,
    {
        &self.0
    }
}

impl std::ops::DerefMut for BlockTransactions {
    fn deref_mut(&mut self) -> (r: &mut Vec<Transaction>)
        ensures
            *r == old(self).0,
            final(self).0 == *final(r),
    {
        &mut self.0
    }
}

impl Default for BlockTransactions {
    fn default() -> (r: Self)
        ensures
            r@ == Seq::<TransactionView>::empty(),
    {
        BlockTransactions::new()
    }
}

} // verus!
