use payments_engine::amount::Amount;
use payments_engine::client::ClientId;
use payments_engine::error::LedgerError;
use payments_engine::ledger::{Account, Ledger, Outcome};
use payments_engine::transaction::{TransactionId, TransactionRecord, TxType};
use rust_decimal::Decimal;
use std::collections::HashMap;
use std::str::FromStr;

type Row = (String, u16, u32, Option<Decimal>);

fn tx_type(name: &str) -> TxType {
    match name {
        "deposit" => TxType::Deposit,
        "withdrawal" => TxType::Withdrawal,
        "dispute" => TxType::Dispute,
        "resolve" => TxType::Resolve,
        "chargeback" => TxType::Chargeback,
        other => panic!("unknown transaction type {other}"),
    }
}

fn to_record(row: Row) -> TransactionRecord {
    let (name, client, tx, amount) = row;
    TransactionRecord {
        tx_type: tx_type(&name),
        id: TransactionId(tx),
        client_id: ClientId(client),
        amount: amount.map(|d| Amount::from_i128_with_scale(d.mantissa(), d.scale())),
    }
}

/// The records of a CSV text, read as the program reads its input.
fn parse_records(input: &str, trim: bool) -> Vec<Result<TransactionRecord, LedgerError>> {
    let mut builder = csv::ReaderBuilder::new();
    if trim {
        builder.trim(csv::Trim::All);
    }
    let mut reader = builder.from_reader(input.as_bytes());
    reader
        .deserialize::<Row>()
        .map(|r| r.map(to_record).map_err(|e| LedgerError::DeserializeTransaction { source: e }))
        .collect()
}

/// The accounts that the engine writes for a CSV input, by client. Every
/// record must be read and applied (the program writes nothing to stderr).
fn run_successfully(input: &str) -> HashMap<u16, Account> {
    let mut ledger = Ledger::new();
    for record in parse_records(input, true) {
        match ledger.apply_record(record) {
            Ok(Outcome::Applied) => {}
            Ok(Outcome::Skipped { source }) => panic!("successful run wrote to stderr: {source}"),
            Err(e) => panic!("engine failed:\n{e:?}"),
        }
    }
    let mut accounts = HashMap::new();
    for account in ledger.accounts() {
        let client = account.client;
        assert!(accounts.insert(client, account).is_none(), "client {client} appeared more than once");
    }
    accounts
}

fn decimal(value: &str) -> Decimal {
    Decimal::from_str(value).unwrap()
}

fn assert_account(
    accounts: &HashMap<u16, Account>,
    client: u16,
    available: &str,
    held: &str,
    total: &str,
    locked: bool,
) {
    let actual = accounts.get(&client).unwrap_or_else(|| panic!("missing client {client}"));
    let (a, h, t) = (decimal(&actual.available), decimal(&actual.held), decimal(&actual.total));
    assert_eq!(a, decimal(available), "available");
    assert_eq!(h, decimal(held), "held");
    assert_eq!(t, decimal(total), "total");
    assert_eq!(actual.locked, locked, "locked");
    assert_eq!(a + h, t, "available + held must equal total");
}

/// The CSV text that the program writes for a ledger.
fn output_csv(ledger: &Ledger) -> String {
    let mut wtr = csv::Writer::from_writer(vec![]);
    wtr.write_record(["client", "available", "held", "total", "locked"]).unwrap();
    for a in ledger.accounts() {
        let client = a.client.to_string();
        let locked = a.locked.to_string();
        wtr.write_record([client.as_str(), &a.available, &a.held, &a.total, locked.as_str()]).unwrap();
    }
    String::from_utf8(wtr.into_inner().unwrap()).unwrap()
}

#[test]
fn baseline() {
    let input = r#"type,client,tx,amount
deposit,1,1,1.0
deposit,2,2,2.0
deposit,1,3,2.0
withdrawal,1,4,1.5
withdrawal,2,5,1.0"#;
    let records: Vec<Result<TransactionRecord, LedgerError>> = parse_records(input, false)
        .into_iter()
        .map(|r| {
            r.map_err(|e| match e {
                LedgerError::DeserializeTransaction { source } => LedgerError::Csv(source),
                other => other,
            })
        })
        .collect();
    let ledger = Ledger::from_iter(records).unwrap();

    let expected = r#"client,available,held,total,locked
1,1.5,0,1.5,false
2,1,0,1,false"#;

    let output = output_csv(&ledger);
    assert!(
        output.trim() == expected.trim(),
        "Output did not match expected. Output: {}",
        output
    );
}

#[test]
fn malformed_csv_records_are_skipped_and_the_rest_still_process() {
    let input = "type,client,tx,amount\n\
                 deposit,1,1,10.0\n\
                 deposit,1,2,not-a-number\n\
                 deposit,1,3,5.0";
    let ledger = Ledger::from_iter(parse_records(input, false))
        .expect("a malformed record must not fail the run");

    let client = ledger.client(ClientId(1)).unwrap();
    let available = client.available();
    let total = client.total();
    assert_eq!(Decimal::from_i128_with_scale(available.mantissa(), available.scale()), Decimal::new(150000, 4));
    assert_eq!(Decimal::from_i128_with_scale(total.mantissa(), total.scale()), Decimal::new(150000, 4));
}

#[test]
fn implements_the_documented_cli_example_and_ignores_an_unfunded_withdrawal() {
    let accounts = run_successfully(
        "type, client, tx, amount\n\
         deposit, 1, 1, 1.0\n\
         deposit, 2, 2, 2.0\n\
         deposit, 1, 3, 2.0\n\
         withdrawal, 1, 4, 1.5\n\
         withdrawal, 2, 5, 3.0\n",
    );

    assert_eq!(accounts.len(), 2);
    assert_account(&accounts, 1, "1.5", "0", "1.5", false);
    assert_account(&accounts, 2, "2", "0", "2", false);
}

#[test]
fn accepts_whitespace_and_preserves_four_decimal_place_arithmetic() {
    let accounts = run_successfully(
        "type, client, tx, amount\n\
           deposit , 7 , 4294967295 , 1.2345\n\
           withdrawal , 7 , 1 , 0.0004\n\
           deposit, 65535, 2, 0.0001\n",
    );

    assert_eq!(accounts.len(), 2);
    assert_account(&accounts, 7, "1.2341", "0", "1.2341", false);
    assert_account(&accounts, u16::MAX, "0.0001", "0", "0.0001", false);
}

#[test]
fn a_dispute_moves_the_original_deposit_from_available_to_held() {
    let accounts = run_successfully(
        "type,client,tx,amount\n\
         deposit,1,10,5.0000\n\
         dispute,1,10,\n",
    );

    assert_account(&accounts, 1, "0", "5", "5", false);
}

#[test]
fn resolving_a_dispute_releases_the_held_funds() {
    let accounts = run_successfully(
        "type,client,tx,amount\n\
         deposit,1,10,5\n\
         deposit,1,11,2\n\
         dispute,1,10,\n\
         withdrawal,1,12,3\n\
         resolve,1,10,\n\
         withdrawal,1,13,6\n",
    );

    // The first withdrawal is rejected while 5 is held. The second succeeds
    // after resolution releases those funds.
    assert_account(&accounts, 1, "1", "0", "1", false);
}

#[test]
fn a_chargeback_removes_held_funds_and_locks_the_account() {
    let accounts = run_successfully(
        "type,client,tx,amount\n\
         deposit,1,10,5\n\
         deposit,1,11,2\n\
         dispute,1,10,\n\
         chargeback,1,10,\n",
    );

    assert_account(&accounts, 1, "2", "0", "2", true);
}

#[test]
fn invalid_or_out_of_order_dispute_actions_are_ignored() {
    let accounts = run_successfully(
        "type,client,tx,amount\n\
         deposit,1,10,5\n\
         resolve,1,10,\n\
         chargeback,1,10,\n\
         dispute,1,999,\n\
         resolve,1,999,\n\
         chargeback,1,999,\n",
    );

    assert_account(&accounts, 1, "5", "0", "5", false);
}

#[test]
fn dispute_actions_are_scoped_to_the_client_that_owns_the_transaction() {
    let accounts = run_successfully(
        "type,client,tx,amount\n\
         deposit,1,10,5\n\
         deposit,2,20,3\n\
         dispute,2,10,\n",
    );

    assert_account(&accounts, 1, "5", "0", "5", false);
    assert_account(&accounts, 2, "3", "0", "3", false);
}

#[test]
fn repeated_or_finalized_dispute_actions_do_not_apply_twice() {
    let accounts = run_successfully(
        "type,client,tx,amount\n\
         deposit,1,10,5\n\
         dispute,1,10,\n\
         dispute,1,10,\n\
         withdrawal,1,11,1\n\
         resolve,1,10,\n\
         resolve,1,10,\n\
         dispute,1,10,\n\
         chargeback,1,10,\n\
         withdrawal,1,12,5\n",
    );

    assert_account(&accounts, 1, "0", "0", "0", false);
}

#[test]
fn transactions_after_a_chargeback_do_not_change_a_frozen_account() {
    let accounts = run_successfully(
        "type,client,tx,amount\n\
         deposit,1,10,5\n\
         dispute,1,10,\n\
         chargeback,1,10,\n\
         deposit,1,11,100\n\
         withdrawal,1,12,1\n",
    );

    assert_account(&accounts, 1, "0", "0", "0", true);
}

#[test]
fn a_header_only_input_produces_zero_accounts() {
    let accounts = run_successfully("type, client, tx, amount\n");
    assert!(accounts.is_empty());
}

#[test]
fn nonfatal_edge_cases_are_ignored_or_applied_correctly() {
    let accounts = run_successfully(
        "type, client, tx, amount\n\
         deposit, 1, 1, 5.0000\n\
         withdrawal, 1, 2, 1.5000\n\
         resolve, 1, 1,\n\
         chargeback, 1, 1,\n\
         dispute, 1, 999,\n\
         resolve, 1, 999,\n\
         chargeback, 1, 999,\n\
         dispute, 1, 1,\n\
         dispute, 1, 1,\n\
         resolve, 1, 1,\n\
         withdrawal, 1, 3, 5.0000\n\
         deposit, 2, 4294967295, 1.2345\n\
         dispute, 1, 4294967295,\n",
    );
    assert_eq!(accounts.len(), 2);
    assert_account(&accounts, 1, "3.5", "0", "3.5", false);
    assert_account(&accounts, 2, "1.2345", "0", "1.2345", false);
}

#[test]
fn a_row_with_a_missing_amount_is_ignored() {
    let accounts = run_successfully(
        "type, client, tx, amount\n\
         deposit, 2, 1, 2.0000\n\
         deposit, 9, 2,\n\
         deposit, 9, 3, 5.0000\n",
    );
    assert_eq!(accounts.len(), 2);
    assert_account(&accounts, 2, "2", "0", "2", false);
    assert_account(&accounts, 9, "5", "0", "5", false);
}

#[test]
fn a_malformed_record_is_skipped_and_the_rest_still_process() {
    let records = parse_records(
        "type, client, tx, amount\n\
         deposit, nope, 1, 1.0000\n\
         deposit, 1, 2, 3.0000\n",
        true,
    );
    let mut ledger = Ledger::new();
    let mut outcomes = Vec::new();
    for record in records {
        match ledger.apply_record(record) {
            Ok(Outcome::Applied) => outcomes.push(None),
            Ok(Outcome::Skipped { source }) => outcomes.push(Some(source.to_string())),
            Err(e) => panic!("engine failed:\n{e:?}"),
        }
    }
    assert_eq!(outcomes.len(), 2);
    let skipped = outcomes[0].clone().expect("the malformed record was not skipped");
    assert!(skipped.contains("record 1"), "the skipped record's error does not name it: {skipped}");
    assert!(outcomes[1].is_none(), "the well-formed record was not applied");

    let mut accounts = HashMap::new();
    for account in ledger.accounts() {
        accounts.insert(account.client, account);
    }
    assert_eq!(accounts.len(), 1);
    assert_account(&accounts, 1, "3", "0", "3", false);
}

/// 500 clients over ~20k rows. Clients 1..=490 deposit and withdraw `ROUNDS` times then
/// dispute-and-resolve their first deposit, netting `ROUNDS * 0.5`. Clients 491..=500 charge back
/// their first deposit, which locks the account and makes the trailing deposit a no-op.
fn large_mixed_workload() -> String {
    const CLIENTS: u16 = 500;
    const CHARGEBACK_CLIENTS: u16 = 10;
    const ROUNDS: u32 = 20;

    let mut input = String::from("type, client, tx, amount\n");
    let mut tx: u32 = 0;
    let mut next_tx = move || {
        tx += 1;
        tx
    };

    for client in 1..=CLIENTS {
        if client > CLIENTS - CHARGEBACK_CLIENTS {
            let disputed = next_tx();
            input.push_str(&format!("deposit, {client}, {disputed}, 1.0000\n"));
            input.push_str(&format!("deposit, {client}, {}, 2.0000\n", next_tx()));
            input.push_str(&format!("dispute, {client}, {disputed},\n"));
            input.push_str(&format!("chargeback, {client}, {disputed},\n"));
            input.push_str(&format!("deposit, {client}, {}, 5.0000\n", next_tx()));
            continue;
        }

        let disputed = next_tx();
        input.push_str(&format!("deposit, {client}, {disputed}, 1.0000\n"));
        input.push_str(&format!("withdrawal, {client}, {}, 0.5000\n", next_tx()));
        for _ in 1..ROUNDS {
            input.push_str(&format!("deposit, {client}, {}, 1.0000\n", next_tx()));
            input.push_str(&format!("withdrawal, {client}, {}, 0.5000\n", next_tx()));
        }
        input.push_str(&format!("dispute, {client}, {disputed},\n"));
        input.push_str(&format!("resolve, {client}, {disputed},\n"));
    }
    input
}

#[test]
fn a_large_mixed_workload_processes_consistently() {
    let accounts = run_successfully(&large_mixed_workload());
    assert_eq!(accounts.len(), 500);

    assert_account(&accounts, 1, "10", "0", "10", false);
    assert_account(&accounts, 490, "10", "0", "10", false);
    assert_account(&accounts, 500, "2", "0", "2", true);

    let total: Decimal = accounts.values().map(|account| decimal(&account.total)).sum();
    assert_eq!(total, decimal("4920"));
}
