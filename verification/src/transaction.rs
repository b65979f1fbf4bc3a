use vstd::prelude::*;
use crate::amount::AleoAmount;

verus! {

/// What a transaction is to the contracts of this library.
pub struct TransactionView {
    pub id: [u8; 32],
    pub serial_numbers: Seq<[u8; 32]>,
    pub commitments: Seq<[u8; 32]>,
    pub value_balance: int,
    pub encoding: Seq<u8>,
    pub verified: bool,
}

/// One proven transaction, as the block layer reads it.
///
/// The proving engine establishes `verified`, the identifier and the tags, and
/// the transaction's own encoder gives `encoding`; this type carries them.
#[derive(Debug, PartialEq, Eq)]
pub struct Transaction {
    /// The identifier, the transaction's leaf in the transactions tree.
    pub id: [u8; 32],
    /// The tags of the outputs that the transaction spends, in order.
    pub serial_numbers: Vec<[u8; 32]>,
    /// The tags of the outputs that the transaction creates, in order.
    pub commitments: Vec<[u8; 32]>,
    /// Negative for a value-creating transaction, else the fee paid.
    pub value_balance: AleoAmount,
    /// The canonical, self-delimiting byte encoding.
    pub encoding: Vec<u8>,
    /// The verdict of the proving engine on this transaction.
    pub verified: bool,
}

impl View for Transaction {
    type V = TransactionView;

    open spec fn view(&self) -> TransactionView {
        TransactionView {
            id: self.id,
            serial_numbers: self.serial_numbers@,
            commitments: self.commitments@,
            value_balance: self.value_balance.0 as int,
            encoding: self.encoding@,
            verified: self.verified,
        }
    }
}

/// Copies a list of tags.
pub fn copy_tags(tags: &Vec<[u8; 32]>) -> (r: Vec<[u8; 32]>)
    ensures
        r@ == tags@,
{
    let mut out: Vec<[u8; 32]> = Vec::new();
    let mut i: usize = 0;
    while i < tags.len()
        invariant
            i <= tags.len(),
            out@ == tags@.take(i as int),
        decreases tags.len() - i,
    {
        out.push(tags[i]);
        proof {
            assert(tags@.take(i + 1) =~= tags@.take(i as int).push(tags@[i as int]));
        }
        i += 1;
    }
    proof {
        assert(tags@.take(tags@.len() as int) =~= tags@);
    }
    out
}

/// Copies a list of bytes.
pub fn copy_bytes(bytes: &Vec<u8>) -> (r: Vec<u8>)
    ensures
        r@ == bytes@,
{
    let mut out: Vec<u8> = Vec::new();
    let mut i: usize = 0;
    while i < bytes.len()
        invariant
            i <= bytes.len(),
            out@ == bytes@.take(i as int),
        decreases bytes.len() - i,
    {
        out.push(bytes[i]);
        proof {
            assert(bytes@.take(i + 1) =~= bytes@.take(i as int).push(bytes@[i as int]));
        }
        i += 1;
    }
    proof {
        assert(bytes@.take(bytes@.len() as int) =~= bytes@);
    }
    out
}

impl Transaction {
    /// The transaction's own validity predicate: the proving engine's verdict.
    pub fn is_valid(&self) -> (r: bool)
        ensures
            r == self@.verified,
    {
        self.verified
    }

    /// The identifier.
    pub fn to_transaction_id(&self) -> (r: [u8; 32])
        ensures
            r == self@.id,
    {
        self.id
    }

    /// The serial numbers, in order.
    pub fn serial_numbers(&self) -> (r: &Vec<[u8; 32]>)
        ensures
            r@ == self@.serial_numbers,
    {
        &self.serial_numbers
    }

    /// The commitments, in order.
    pub fn commitments(&self) -> (r: &Vec<[u8; 32]>)
        ensures
            r@ == self@.commitments,
    {
        &self.commitments
    }

    /// The value balance.
    pub fn value_balance(&self) -> (r: &AleoAmount)
        ensures
            r.0 == self@.value_balance,
    {
        &self.value_balance
    }
}

impl Clone for Transaction {
    fn clone(&self) -> (r: Self)
        ensures
            r@ == self@,
    {
        Transaction {
            id: self.id,
            serial_numbers: copy_tags(&self.serial_numbers),
            commitments: copy_tags(&self.commitments),
            value_balance: self.value_balance,
            encoding: copy_bytes(&self.encoding),
            verified: self.verified,
        }
    }
}

} // verus!
