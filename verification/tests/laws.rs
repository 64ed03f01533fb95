use payments_engine::amount::Amount;
use payments_engine::client::ClientId;
use payments_engine::error::LedgerError;
use payments_engine::ledger::{Ledger, Outcome};
use payments_engine::transaction::{TransactionId, TransactionRecord, TxType};
use rust_decimal::Decimal;

fn record(tx_type: TxType, client: u16, tx: u32, amount: Option<Amount>) -> TransactionRecord {
    TransactionRecord { tx_type, id: TransactionId(tx), client_id: ClientId(client), amount }
}

fn deposit(client: u16, tx: u32, units: i64) -> TransactionRecord {
    record(TxType::Deposit, client, tx, Some(Amount::new(units, 4)))
}

fn withdrawal(client: u16, tx: u32, units: i64) -> TransactionRecord {
    record(TxType::Withdrawal, client, tx, Some(Amount::new(units, 4)))
}

fn units(a: Amount) -> i128 {
    let d = (Decimal::from_i128_with_scale(a.mantissa(), a.scale()) * Decimal::new(10000, 0)).normalize();
    assert_eq!(d.scale(), 0);
    d.mantissa()
}

/// The balances in units of 0.0001, and whether the account is frozen.
fn balances(ledger: &Ledger, client: u16) -> (i128, i128, i128, bool) {
    let c = ledger.client(ClientId(client)).unwrap();
    (units(c.available()), units(c.held()), units(c.total()), c.locked())
}

fn ledger_of(records: Vec<TransactionRecord>) -> Ledger {
    let mut ledger = Ledger::new();
    for r in records {
        ledger.process_transaction(r).unwrap();
    }
    ledger
}

#[test]
fn balances_add_up_after_every_record() {
    let records = vec![
        deposit(1, 1, 30_000),
        withdrawal(1, 2, 10_000),
        record(TxType::Dispute, 1, 1, None),
        record(TxType::Chargeback, 1, 1, None),
        deposit(2, 3, 5_000),
        record(TxType::Dispute, 2, 3, None),
    ];
    let mut ledger = Ledger::new();
    for r in records {
        ledger.process_transaction(r).unwrap();
        for a in ledger.accounts() {
            let (av, h, t, _) = balances(&ledger, a.client);
            assert_eq!(av + h, t);
            assert!(h >= 0);
        }
    }
    assert_eq!(balances(&ledger, 1), (-10_000, 0, -10_000, true));
    assert_eq!(balances(&ledger, 2), (0, 5_000, 5_000, false));
}

#[test]
fn resolve_undoes_a_dispute() {
    let mut ledger = ledger_of(vec![deposit(1, 1, 40_000), deposit(1, 2, 7_000)]);
    let before = balances(&ledger, 1);
    ledger.process_transaction(record(TxType::Dispute, 1, 1, None)).unwrap();
    assert_eq!(balances(&ledger, 1), (7_000, 40_000, 47_000, false));
    ledger.process_transaction(record(TxType::Resolve, 1, 1, None)).unwrap();
    assert_eq!(balances(&ledger, 1), before);
}

#[test]
fn chargeback_reverses_a_deposit_and_freezes() {
    let mut ledger = ledger_of(vec![deposit(1, 1, 40_000), deposit(1, 2, 7_000)]);
    ledger.process_transaction(record(TxType::Dispute, 1, 1, None)).unwrap();
    ledger.process_transaction(record(TxType::Chargeback, 1, 1, None)).unwrap();
    assert_eq!(balances(&ledger, 1), (7_000, 0, 7_000, true));
}

#[test]
fn a_frozen_account_takes_nothing() {
    let mut ledger = ledger_of(vec![
        deposit(1, 1, 40_000),
        record(TxType::Dispute, 1, 1, None),
        record(TxType::Chargeback, 1, 1, None),
    ]);
    let before = balances(&ledger, 1);
    for r in [deposit(1, 9, 1_000), withdrawal(1, 10, 1), record(TxType::Dispute, 1, 9, None)] {
        ledger.process_transaction(r).unwrap();
        assert_eq!(balances(&ledger, 1), before);
    }
}

#[test]
fn records_only_touch_their_own_client() {
    let mut ledger = ledger_of(vec![deposit(1, 1, 40_000), deposit(2, 2, 3_000)]);
    let other = balances(&ledger, 2);
    ledger.process_transaction(record(TxType::Dispute, 1, 1, None)).unwrap();
    ledger.process_transaction(record(TxType::Dispute, 2, 1, None)).unwrap();
    assert_eq!(balances(&ledger, 2), other);
    assert_eq!(balances(&ledger, 1), (0, 40_000, 40_000, false));
}

#[test]
fn non_withdrawal_records_apply_once() {
    let mut once = ledger_of(vec![deposit(1, 1, 40_000)]);
    let mut twice = ledger_of(vec![deposit(1, 1, 40_000), deposit(1, 1, 40_000)]);
    assert_eq!(balances(&once, 1), balances(&twice, 1));
    for t in [TxType::Dispute, TxType::Resolve] {
        once.process_transaction(record(t, 1, 1, None)).unwrap();
        twice.process_transaction(record(t, 1, 1, None)).unwrap();
        twice.process_transaction(record(t, 1, 1, None)).unwrap();
        assert_eq!(balances(&once, 1), balances(&twice, 1));
    }
}

#[test]
fn withdrawals_never_overdraw() {
    let mut ledger = ledger_of(vec![deposit(1, 1, 10_000)]);
    ledger.process_transaction(withdrawal(1, 2, 10_001)).unwrap();
    assert_eq!(balances(&ledger, 1), (10_000, 0, 10_000, false));
    ledger.process_transaction(withdrawal(1, 3, 10_000)).unwrap();
    assert_eq!(balances(&ledger, 1), (0, 0, 0, false));
}

#[test]
fn only_a_deposit_opens_an_account() {
    let mut ledger = Ledger::new();
    for r in [
        withdrawal(5, 1, 10),
        record(TxType::Dispute, 5, 1, None),
        record(TxType::Resolve, 5, 1, None),
        record(TxType::Chargeback, 5, 1, None),
    ] {
        ledger.process_transaction(r).unwrap();
        assert!(ledger.client(ClientId(5)).is_none());
        assert!(ledger.accounts().is_empty());
    }
    ledger.process_transaction(deposit(5, 2, 1)).unwrap();
    assert_eq!(ledger.accounts().len(), 1);
}

#[test]
fn apply_record_reports_skips_and_stops_on_other_errors() {
    let bad: Result<(u16,), csv::Error> = csv::Reader::from_reader("a\nx\n".as_bytes())
        .deserialize::<(u16,)>()
        .next()
        .unwrap();
    let source = bad.unwrap_err();
    let mut ledger = Ledger::new();
    let r = ledger.apply_record(Err(LedgerError::DeserializeTransaction { source }));
    assert!(matches!(r, Ok(Outcome::Skipped { .. })));
    let r = ledger.apply_record(Ok(deposit(1, 1, 5)));
    assert!(matches!(r, Ok(Outcome::Applied)));
    let r = ledger.apply_record(Err(LedgerError::InvalidArguments { program: "p".to_string() }));
    assert!(matches!(r, Err(LedgerError::InvalidArguments { .. })));
    assert_eq!(balances(&ledger, 1), (5, 0, 5, false));
}

#[test]
fn from_iter_returns_the_first_fatal_error() {
    let records = vec![
        Ok(deposit(1, 1, 5)),
        Err(LedgerError::InvalidArguments { program: "first".to_string() }),
        Err(LedgerError::InvalidArguments { program: "second".to_string() }),
    ];
    match Ledger::from_iter(records) {
        Err(LedgerError::InvalidArguments { program }) => assert_eq!(program, "first"),
        other => panic!("unexpected {:?}", other.map(|_| ())),
    }
    let huge = Amount::from_i128_with_scale(payments_engine::amount::MAX_MANTISSA, 0);
    let records = vec![
        Ok(record(TxType::Deposit, 3, 7, Some(huge))),
        Ok(record(TxType::Deposit, 3, 8, Some(huge))),
    ];
    assert!(matches!(
        Ledger::from_iter(records),
        Err(LedgerError::AmountOverflow { client: ClientId(3), tx: TransactionId(8) })
    ));
}

#[test]
fn written_balances_read_back_as_the_balances() {
    let ledger = ledger_of(vec![
        deposit(1, 1, 12_500),
        withdrawal(1, 2, 2_500),
        deposit(1, 3, 3),
        record(TxType::Dispute, 1, 3, None),
        deposit(2, 4, 10_000),
        withdrawal(2, 5, 30_000),
    ]);
    let rows = ledger.accounts();
    assert_eq!(rows.len(), 2);
    for row in rows {
        let c = ledger.client(ClientId(row.client)).unwrap();
        let read = |text: &str| text.parse::<Decimal>().unwrap();
        let held = |a: Amount| Decimal::from_i128_with_scale(a.mantissa(), a.scale());
        assert_eq!(read(&row.available), held(c.available()));
        assert_eq!(read(&row.held), held(c.held()));
        assert_eq!(read(&row.total), held(c.total()));
        assert_eq!(row.locked, c.locked());
    }
    let c1 = ledger.client(ClientId(1)).unwrap();
    assert_eq!(units(c1.available()), 10_000);
    assert_eq!(units(c1.held()), 3);
}

#[test]
fn a_default_ledger_is_empty() {
    let ledger = Ledger::default();
    assert!(ledger.accounts().is_empty());
    assert!(ledger.client(ClientId(1)).is_none());
}
