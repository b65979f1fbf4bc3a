use block_transactions::amount::AleoAmount;
use block_transactions::error::TransactionsError;
use block_transactions::transaction::Transaction;
use block_transactions::transactions::{root_from, BlockTransactions};
use rand::Rng;
use snarkvm_algorithms::crh::PedersenCompressedCRH;
use snarkvm_algorithms::merkle_tree::{prng, MerkleTree};
use snarkvm_algorithms::traits::{MerkleParameters, CRH};
use snarkvm_curves::edwards_bls12::EdwardsProjective;
use snarkvm_utilities::ToBytes;
use std::sync::Arc;

type TreeCRH = PedersenCompressedCRH<EdwardsProjective, 256, 4>;

#[derive(Clone)]
struct TreeParameters(TreeCRH);

impl MerkleParameters for TreeParameters {
    type H = TreeCRH;

    const DEPTH: usize = 32;

    fn setup<R: Rng>(rng: &mut R) -> Self {
        Self(TreeCRH::setup(rng))
    }

    fn crh(&self) -> &Self::H {
        &self.0
    }

    fn parameters(&self) -> &<Self::H as CRH>::Parameters {
        self.0.parameters()
    }
}

impl Default for TreeParameters {
    fn default() -> Self {
        Self(TreeCRH::setup(&mut prng()))
    }
}

fn accumulate(leaves: &Vec<[u8; 32]>) -> Option<Vec<u8>> {
    let tree = MerkleTree::<TreeParameters>::new(Arc::new(TreeParameters::default()), &leaves[..]).ok()?;
    let mut root = Vec::new();
    tree.root().write_le(&mut root).ok()?;
    Some(root)
}

fn with_id(n: u8) -> Transaction {
    let mut id = [0u8; 32];
    id[0] = n;
    id[5] = 0x33;
    Transaction {
        id,
        serial_numbers: vec![],
        commitments: vec![],
        value_balance: AleoAmount(1),
        encoding: vec![n],
        verified: true,
    }
}

#[test]
fn root_is_the_accumulator_of_the_ids() {
    let set = BlockTransactions::from(&[with_id(1), with_id(2), with_id(3)]);
    let root = set.to_transactions_root(accumulate).unwrap();
    assert_eq!(root.len(), 32);
    assert_eq!(Some(root.clone()), accumulate(&set.to_transaction_ids()));
    assert_eq!(set.to_transactions_root(accumulate), Ok(root));
}

#[test]
fn root_depends_on_order() {
    let forward = BlockTransactions::from(&[with_id(1), with_id(2), with_id(3)]);
    let swapped = BlockTransactions::from(&[with_id(2), with_id(1), with_id(3)]);
    let rotated = BlockTransactions::from(&[with_id(3), with_id(1), with_id(2)]);
    let a = forward.to_transactions_root(accumulate).unwrap();
    let b = swapped.to_transactions_root(accumulate).unwrap();
    let c = rotated.to_transactions_root(accumulate).unwrap();
    assert_ne!(a, b);
    assert_ne!(a, c);
    assert_ne!(b, c);
}

#[test]
fn root_depends_on_content() {
    let one = BlockTransactions::from(&[with_id(1), with_id(2)]);
    let other = BlockTransactions::from(&[with_id(1), with_id(4)]);
    assert_ne!(one.to_transactions_root(accumulate), other.to_transactions_root(accumulate));
}

#[test]
fn root_hands_the_ids_to_the_accumulator() {
    let set = BlockTransactions::from(&[with_id(9), with_id(8)]);
    let echo = |leaves: &Vec<[u8; 32]>| Some(leaves.iter().map(|l| l[0]).collect::<Vec<u8>>());
    assert_eq!(set.to_transactions_root(echo), Ok(vec![9, 8]));
}

#[test]
fn root_reports_a_failing_accumulator() {
    let set = BlockTransactions::from(&[with_id(1)]);
    let fail = |_: &Vec<[u8; 32]>| None;
    assert_eq!(set.to_transactions_root(fail), Err(TransactionsError::Accumulator));
    assert_eq!(root_from(None), Err(TransactionsError::Accumulator));
    assert_eq!(root_from(Some(vec![1, 2])), Ok(vec![1, 2]));
}
