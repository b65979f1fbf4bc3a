use block_transactions::amount::AleoAmount;
use block_transactions::error::{Rejection, TransactionsError};
use block_transactions::transaction::Transaction;
use block_transactions::transactions::{BlockTransactions, Network};

fn tag(n: u8) -> [u8; 32] {
    let mut t = [0u8; 32];
    t[0] = n;
    t[31] = 0xa5;
    t
}

fn transaction(n: u8, balance: i64, serial_numbers: &[u8], commitments: &[u8], verified: bool) -> Transaction {
    Transaction {
        id: tag(n),
        serial_numbers: serial_numbers.iter().map(|s| tag(*s)).collect(),
        commitments: commitments.iter().map(|c| tag(*c)).collect(),
        value_balance: AleoAmount(balance),
        encoding: vec![n, 0xab, 0xff],
        verified,
    }
}

fn mainnet() -> Network {
    Network { block_coinbase_tx_count: 1 }
}

fn sample() -> BlockTransactions {
    BlockTransactions::from(&[
        transaction(1, -10, &[1, 2], &[11, 12], true),
        transaction(2, 2, &[3, 4], &[13, 14], true),
        transaction(3, 3, &[5, 6], &[15, 16], true),
    ])
}

#[test]
fn new_is_empty() {
    let set = BlockTransactions::new();
    assert_eq!(set.len(), 0);
    assert_eq!(set.0, vec![]);
    assert_eq!(BlockTransactions::default(), set);
}

#[test]
fn from_keeps_order_and_does_not_validate() {
    let members = vec![transaction(7, 1, &[1], &[2], false), transaction(8, -1, &[1], &[2], true)];
    let set = BlockTransactions::from(&members);
    assert_eq!(set.0, members);
    assert_eq!(set.len(), 2);
}

#[test]
fn clone_is_equal() {
    let set = sample();
    assert_eq!(set.clone(), set);
    let tx = transaction(4, 9, &[1, 2, 3], &[4], true);
    assert_eq!(tx.clone(), tx);
}

#[test]
fn push_appends_a_valid_transaction() {
    let mut set = BlockTransactions::new();
    assert_eq!(set.push(transaction(1, -10, &[1], &[2], true)), Ok(()));
    assert_eq!(set.push(transaction(2, 5, &[1], &[2], true)), Ok(()));
    assert_eq!(set.len(), 2);
    assert_eq!(set.0[0], transaction(1, -10, &[1], &[2], true));
    assert_eq!(set.0[1], transaction(2, 5, &[1], &[2], true));
}

#[test]
fn push_rejects_an_invalid_transaction() {
    let mut set = sample();
    let before = set.clone();
    let r = set.push(transaction(9, 1, &[9], &[19], false));
    assert_eq!(r, Err(TransactionsError::InvalidTransaction));
    assert_eq!(set.len(), 3);
    assert_eq!(set, before);
}

#[test]
fn fee_and_balance_arithmetic() {
    let set = sample();
    assert_eq!(set.to_transaction_fees(), Ok(AleoAmount(5)));
    assert_eq!(set.to_net_value_balance(), Ok(AleoAmount(-5)));
    assert_eq!(set.to_coinbase_transaction_count(), 1);
}

#[test]
fn fees_need_a_fee_paying_member() {
    let only_coinbase = BlockTransactions::from(&[transaction(1, -10, &[1], &[2], true)]);
    assert_eq!(only_coinbase.to_transaction_fees(), Err(TransactionsError::MalformedAggregate));
    assert_eq!(only_coinbase.to_net_value_balance(), Ok(AleoAmount(-10)));
    let zero_fee = BlockTransactions::from(&[transaction(1, 0, &[1], &[2], true)]);
    assert_eq!(zero_fee.to_transaction_fees(), Ok(AleoAmount(0)));
    assert_eq!(zero_fee.to_coinbase_transaction_count(), 0);
}

#[test]
fn empty_set_has_no_aggregates() {
    let set = BlockTransactions::new();
    assert_eq!(set.to_transaction_fees(), Err(TransactionsError::MalformedAggregate));
    assert_eq!(set.to_net_value_balance(), Err(TransactionsError::MalformedAggregate));
    assert_eq!(set.to_coinbase_transaction_count(), 0);
    assert!(!set.is_valid(&mainnet()));
    assert_eq!(set.validate(&mainnet()), Err(Rejection::Empty));
    assert!(!set.is_valid(&Network { block_coinbase_tx_count: 0 }));
}

#[test]
fn sums_saturate() {
    let set = BlockTransactions::from(&[
        transaction(1, i64::MAX, &[], &[], true),
        transaction(2, 1, &[], &[], true),
        transaction(3, -5, &[], &[], true),
    ]);
    assert_eq!(set.to_transaction_fees(), Ok(AleoAmount(i64::MAX)));
    assert_eq!(set.to_net_value_balance(), Ok(AleoAmount(i64::MAX - 5)));
    let low = BlockTransactions::from(&[
        transaction(1, i64::MIN, &[], &[], true),
        transaction(2, -1, &[], &[], true),
        transaction(3, 7, &[], &[], true),
    ]);
    assert_eq!(low.to_net_value_balance(), Ok(AleoAmount(i64::MIN + 7)));
    assert_eq!(low.to_transaction_fees(), Ok(AleoAmount(7)));
}

#[test]
fn amount_addition() {
    assert_eq!(AleoAmount(2).add(AleoAmount(3)), AleoAmount(5));
    assert_eq!(AleoAmount(-10).add(AleoAmount(3)), AleoAmount(-7));
    assert_eq!(AleoAmount(i64::MAX).add(AleoAmount(1)), AleoAmount(i64::MAX));
    assert_eq!(AleoAmount(i64::MIN).add(AleoAmount(-1)), AleoAmount(i64::MIN));
    assert_eq!(AleoAmount(i64::MIN).add(AleoAmount(i64::MAX)), AleoAmount(-1));
    assert_eq!(AleoAmount::zero(), AleoAmount(0));
    assert!(AleoAmount(-1).is_negative());
    assert!(!AleoAmount(0).is_negative());
    assert!(!AleoAmount(1).is_negative());
}

#[test]
fn tags_are_flattened_in_order() {
    let set = sample();
    assert_eq!(
        set.to_serial_numbers(),
        Ok(vec![tag(1), tag(2), tag(3), tag(4), tag(5), tag(6)])
    );
    assert_eq!(
        set.to_commitments(),
        Ok(vec![tag(11), tag(12), tag(13), tag(14), tag(15), tag(16)])
    );
    assert_eq!(set.to_transaction_ids(), vec![tag(1), tag(2), tag(3)]);
}

#[test]
fn flattening_keeps_duplicates() {
    let set = BlockTransactions::from(&[
        transaction(1, -1, &[1, 2], &[7], true),
        transaction(2, 1, &[], &[7, 7], true),
        transaction(3, 1, &[2], &[], true),
    ]);
    assert_eq!(set.to_serial_numbers(), Ok(vec![tag(1), tag(2), tag(2)]));
    assert_eq!(set.to_commitments(), Ok(vec![tag(7), tag(7), tag(7)]));
}

#[test]
fn accessors_give_the_fields() {
    let tx = transaction(5, -3, &[1, 2], &[3], true);
    assert_eq!(tx.to_transaction_id(), tag(5));
    assert_eq!(tx.serial_numbers(), &vec![tag(1), tag(2)]);
    assert_eq!(tx.commitments(), &vec![tag(3)]);
    assert_eq!(*tx.value_balance(), AleoAmount(-3));
    assert!(tx.is_valid());
    assert!(!transaction(5, -3, &[], &[], false).is_valid());
}

#[test]
fn valid_set_passes() {
    let set = sample();
    assert!(set.is_valid(&mainnet()));
    assert_eq!(set.validate(&mainnet()), Ok(()));
    assert!(set.all_members_valid());
}

#[test]
fn validity_is_idempotent() {
    let set = sample();
    assert!(set.is_valid(&mainnet()));
    assert!(set.is_valid(&mainnet()));
    let bad = BlockTransactions::from(&[transaction(1, 1, &[1], &[2], true)]);
    assert!(!bad.is_valid(&mainnet()));
    assert!(!bad.is_valid(&mainnet()));
}

#[test]
fn invalid_member_is_rejected() {
    let set = BlockTransactions::from(&[
        transaction(1, -10, &[1], &[11], true),
        transaction(2, 2, &[2], &[12], false),
    ]);
    assert!(!set.is_valid(&mainnet()));
    assert!(!set.all_members_valid());
    assert_eq!(set.validate(&mainnet()), Err(Rejection::InvalidMember));
}

#[test]
fn double_spend_is_rejected() {
    let set = BlockTransactions::from(&[
        transaction(1, -10, &[1, 2], &[11], true),
        transaction(2, 2, &[3, 2], &[12], true),
    ]);
    assert!(!set.is_valid(&mainnet()));
    assert_eq!(set.validate(&mainnet()), Err(Rejection::DuplicateSerialNumbers));
    let unproven = BlockTransactions::from(&[
        transaction(1, -10, &[1, 2], &[11], false),
        transaction(2, 2, &[3, 2], &[12], true),
    ]);
    assert!(!unproven.is_valid(&mainnet()));
}

#[test]
fn double_spend_within_one_transaction_is_rejected() {
    let set = BlockTransactions::from(&[transaction(1, -10, &[4, 4], &[11], true)]);
    assert_eq!(set.validate(&mainnet()), Err(Rejection::DuplicateSerialNumbers));
}

#[test]
fn commitment_collision_is_rejected() {
    let set = BlockTransactions::from(&[
        transaction(1, -10, &[1], &[11, 12], true),
        transaction(2, 2, &[2], &[12], true),
    ]);
    assert!(!set.is_valid(&mainnet()));
    assert_eq!(set.validate(&mainnet()), Err(Rejection::DuplicateCommitments));
}

#[test]
fn tags_that_differ_in_one_byte_are_distinct() {
    let mut other = tag(1);
    other[17] = 1;
    let mut a = transaction(1, -10, &[1], &[11], true);
    let mut b = transaction(2, 2, &[2], &[12], true);
    a.serial_numbers = vec![tag(1)];
    b.serial_numbers = vec![other];
    let set = BlockTransactions::from(&[a, b]);
    assert!(set.is_valid(&mainnet()));
}

#[test]
fn coinbase_count_is_enforced() {
    let none = BlockTransactions::from(&[
        transaction(1, 1, &[1], &[11], true),
        transaction(2, 2, &[2], &[12], true),
    ]);
    assert!(!none.is_valid(&mainnet()));
    assert_eq!(none.validate(&mainnet()), Err(Rejection::CoinbaseCount { expected: 1, found: 0 }));
    let two = BlockTransactions::from(&[
        transaction(1, -1, &[1], &[11], true),
        transaction(2, -2, &[2], &[12], true),
        transaction(3, 2, &[3], &[13], true),
    ]);
    assert!(!two.is_valid(&mainnet()));
    assert_eq!(two.validate(&mainnet()), Err(Rejection::CoinbaseCount { expected: 1, found: 2 }));
    assert!(two.is_valid(&Network { block_coinbase_tx_count: 2 }));
    let one = BlockTransactions::from(&[
        transaction(1, -1, &[1], &[11], true),
        transaction(3, 2, &[3], &[13], true),
    ]);
    assert!(one.is_valid(&mainnet()));
}

#[test]
fn an_invalid_member_is_reported_before_duplicates() {
    let set = BlockTransactions::from(&[
        transaction(1, -10, &[1, 2], &[11], false),
        transaction(2, 2, &[3, 2], &[11], true),
    ]);
    assert_eq!(set.validate(&mainnet()), Err(Rejection::InvalidMember));
    let proven = BlockTransactions::from(&[
        transaction(1, 10, &[1, 2], &[11], true),
        transaction(2, 2, &[3, 2], &[11], true),
    ]);
    assert_eq!(proven.validate(&mainnet()), Err(Rejection::DuplicateSerialNumbers));
}

#[test]
fn the_list_is_reachable_through_the_set() {
    let mut set = sample();
    assert_eq!(set.iter().count(), 3);
    assert_eq!(set.first(), Some(&transaction(1, -10, &[1, 2], &[11, 12], true)));
    set.truncate(1);
    assert_eq!(set.len(), 1);
    assert_eq!(set.to_net_value_balance(), Ok(AleoAmount(-10)));
}
