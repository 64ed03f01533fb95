use payments_engine::amount::{Amount, MAX_MANTISSA};
use payments_engine::client::{serialize, Client, ClientId};
use payments_engine::error::LedgerError;
use payments_engine::ledger::Ledger;
use payments_engine::transaction::{TransactionId, TransactionRecord, TxType};
use rust_decimal::Decimal;
use std::str::FromStr;

fn record(tx_type: TxType, client: u16, tx: u32, amount: Option<Amount>) -> TransactionRecord {
    TransactionRecord { tx_type, id: TransactionId(tx), client_id: ClientId(client), amount }
}

fn dec(a: Amount) -> Decimal {
    Decimal::from_i128_with_scale(a.mantissa(), a.scale())
}

fn amount(text: &str) -> Amount {
    let d = Decimal::from_str(text).unwrap();
    Amount::from_i128_with_scale(d.mantissa(), d.scale())
}

fn balances(c: &Client) -> (Decimal, Decimal, Decimal) {
    (dec(c.available()), dec(c.held()), dec(c.total()))
}

fn d(text: &str) -> Decimal {
    Decimal::from_str(text).unwrap()
}

#[test]
fn test_deposit() {
    let mut ledger = Ledger::new();
    let transaction = TransactionRecord {
        tx_type: TxType::Deposit,
        id: TransactionId(1),
        client_id: ClientId(1),
        amount: Some(Amount::new(100000, 4)), // $10.00
    };
    ledger.process_transaction(transaction).unwrap();
    let client = ledger.client(ClientId(1)).unwrap();
    assert_eq!(dec(client.available()), Decimal::new(100000, 4));
    assert_eq!(dec(client.total()), Decimal::new(100000, 4));
}

#[test]
fn client_starts_empty_and_unlocked() {
    let client = Client::new(ClientId(3));
    assert_eq!(client.id(), ClientId(3));
    assert_eq!(balances(&client), (d("0"), d("0"), d("0")));
    assert!(!client.locked());
    assert!(client.has_no_deposits());
}

#[test]
fn client_deposit_ignores_a_repeated_transaction_id() {
    let mut client = Client::new(ClientId(1));
    client.deposit(TransactionId(7), amount("5"));
    client.deposit(TransactionId(7), amount("9"));
    assert_eq!(balances(&client), (d("5"), d("0"), d("5")));
    assert!(!client.has_no_deposits());
}

#[test]
fn client_withdraw_needs_available_funds() {
    let mut client = Client::new(ClientId(1));
    client.deposit(TransactionId(1), amount("2"));
    client.withdraw(amount("3"));
    assert_eq!(balances(&client), (d("2"), d("0"), d("2")));
    client.withdraw(amount("2"));
    assert_eq!(balances(&client), (d("0"), d("0"), d("0")));
}

#[test]
fn client_dispute_resolve_and_chargeback_follow_the_workflow() {
    let mut client = Client::new(ClientId(1));
    client.deposit(TransactionId(1), amount("2"));
    client.deposit(TransactionId(2), amount("0.5"));
    client.resolve(TransactionId(1)); // not disputed: ignored
    client.chargeback(TransactionId(1)); // not disputed: ignored
    assert_eq!(balances(&client), (d("2.5"), d("0"), d("2.5")));
    client.dispute(TransactionId(1));
    assert_eq!(balances(&client), (d("0.5"), d("2"), d("2.5")));
    client.dispute(TransactionId(1)); // already disputed: ignored
    assert_eq!(balances(&client), (d("0.5"), d("2"), d("2.5")));
    client.resolve(TransactionId(1));
    assert_eq!(balances(&client), (d("2.5"), d("0"), d("2.5")));
    client.dispute(TransactionId(1)); // finalized: ignored
    assert_eq!(balances(&client), (d("2.5"), d("0"), d("2.5")));
    client.dispute(TransactionId(2));
    client.chargeback(TransactionId(2));
    assert_eq!(balances(&client), (d("2"), d("0"), d("2")));
    assert!(client.locked());
}

#[test]
fn a_dispute_may_take_available_below_zero() {
    let mut client = Client::new(ClientId(1));
    client.deposit(TransactionId(1), amount("5"));
    client.withdraw(amount("4"));
    client.dispute(TransactionId(1));
    assert_eq!(balances(&client), (d("-4"), d("5"), d("1")));
}

#[test]
fn serialize_trims_trailing_zeros() {
    assert_eq!(serialize(&amount("1.5000")), "1.5");
    assert_eq!(serialize(&amount("1.0000")), "1");
    assert_eq!(serialize(&amount("0.0000")), "0");
    assert_eq!(serialize(&amount("1.2341")), "1.2341");
    assert_eq!(serialize(&amount("-0.5")), "-0.5");
    assert_eq!(serialize(&amount("4920")), "4920");
    assert_eq!(serialize(&Amount::new(5, 3)), "0.005");
    assert_eq!(serialize(&Amount::from_i128_with_scale(MAX_MANTISSA, 0)), "79228162514264337593543950335");
}

#[test]
fn amounts_round_to_four_places_half_to_even() {
    assert_eq!(dec(Amount::new(12345, 5).round_dp(4)), d("0.1234"));
    assert_eq!(dec(Amount::new(12355, 5).round_dp(4)), d("0.1236"));
    assert_eq!(dec(Amount::new(-12355, 5).round_dp(4)), d("-0.1236"));
    assert_eq!(dec(Amount::new(12351, 5).round_dp(4)), d("0.1235"));
    assert_eq!(Amount::new(15, 1).round_dp(4).scale(), 1);
    assert_eq!(dec(Amount::new(5, 5).round_dp(4)), d("0"));
    assert_eq!(dec(Amount::new(15, 5).round_dp(4)), d("0.0002"));
    assert_eq!(dec(amount("1.23455").round_dp(4)), d("1.2346"));
    assert_eq!(dec(amount("1.23445").round_dp(4)), d("1.2344"));
}

#[test]
fn decimal_arithmetic_is_rust_decimals() {
    let a = amount("1.25");
    let b = amount("0.0005");
    assert_eq!(dec(a.checked_add(&b).unwrap()), d("1.2505"));
    assert_eq!(dec(a.checked_sub(&b).unwrap()), d("1.2495"));
    assert!(a.ge(&b));
    assert!(!b.ge(&a));
    assert!(a.ge(&amount("1.2500")));
    let max = Amount::from_i128_with_scale(MAX_MANTISSA, 0);
    assert!(max.checked_add(&max).is_none());
    assert_eq!(dec(max.checked_sub(&max).unwrap()), d("0"));
}

#[test]
fn a_deposit_that_rounds_to_zero_is_ignored() {
    let mut ledger = Ledger::new();
    ledger.process_transaction(record(TxType::Deposit, 4, 1, Some(Amount::new(4, 5)))).unwrap();
    assert!(ledger.client(ClientId(4)).is_none());
    ledger.process_transaction(record(TxType::Deposit, 4, 2, Some(Amount::new(5, 5)))).unwrap();
    assert!(ledger.client(ClientId(4)).is_none());
    ledger.process_transaction(record(TxType::Deposit, 4, 3, Some(Amount::new(6, 5)))).unwrap();
    assert_eq!(dec(ledger.client(ClientId(4)).unwrap().available()), d("0.0001"));
}

#[test]
fn large_deposits_are_taken_across_decimals_range() {
    let mut ledger = Ledger::new();
    let big = amount("10000000000000000000000000");
    ledger.process_transaction(record(TxType::Deposit, 1, 1, Some(big))).unwrap();
    ledger.process_transaction(record(TxType::Deposit, 1, 2, Some(big))).unwrap();
    assert_eq!(dec(ledger.client(ClientId(1)).unwrap().total()), d("20000000000000000000000000"));
    let rows = ledger.accounts();
    assert_eq!(rows[0].total, "20000000000000000000000000");
}

#[test]
fn an_overflowing_record_is_refused_and_changes_nothing() {
    let mut ledger = Ledger::new();
    let max = Amount::from_i128_with_scale(MAX_MANTISSA, 0);
    ledger.process_transaction(record(TxType::Deposit, 1, 1, Some(max))).unwrap();
    let r = record(TxType::Deposit, 1, 2, Some(Amount::new(1, 0)));
    assert!(!ledger.admits(&r));
    match ledger.apply_record(Ok(r)) {
        Err(LedgerError::AmountOverflow { client, tx }) => {
            assert_eq!((client, tx), (ClientId(1), TransactionId(2)))
        }
        other => panic!("expected AmountOverflow, got {other:?}"),
    }
    assert_eq!(dec(ledger.client(ClientId(1)).unwrap().total()), dec(max));
}

#[test]
fn disputes_and_withdrawals_with_or_without_amounts_are_ignored_when_malformed() {
    let mut ledger = Ledger::new();
    ledger.process_transaction(record(TxType::Deposit, 1, 1, Some(Amount::new(50, 1)))).unwrap();
    ledger.process_transaction(record(TxType::Dispute, 1, 1, Some(Amount::new(50, 1)))).unwrap();
    ledger.process_transaction(record(TxType::Withdrawal, 1, 2, None)).unwrap();
    ledger.process_transaction(record(TxType::Withdrawal, 1, 3, Some(Amount::new(-10, 1)))).unwrap();
    ledger.process_transaction(record(TxType::Deposit, 1, 4, Some(Amount::new(-10, 1)))).unwrap();
    let c = ledger.client(ClientId(1)).unwrap();
    assert_eq!(balances(c), (d("5"), d("0"), d("5")));
}
