//! The ledger: every client's account, kept up to date by the stream of
//! transaction records.
use crate::amount::{is_decimal, opt_view, spec_round_dp, trimmed_text, val, Amount, Dec, LEDGER_DP};
use crate::client::{
    chargeback_cond, chargeback_view, deposit_cond, deposit_view, dispute_cond, dispute_view, exact_add,
    exact_sub, plain_sum, plain_difference, balances_decimal, history_decimal, new_view, no_add_overflow, no_sub_overflow,
    resolve_cond, resolve_view, serialize, withdraw_cond, withdraw_view, Client, ClientId, ClientView,
    History,
};
use crate::error::LedgerError;
use crate::fnv_map::{map_get, map_insert, map_keys, map_remove, FnvMap};
use crate::transaction::{TransactionRecord, TxType, TxnState};
use vstd::prelude::*;

verus! {

/// The ledger as a mathematical value: each client's account by client id.
pub type LedgerView = Map<u16, ClientView>;

/// What a history entry adds to the held funds: its amount while it is
/// disputed, nothing otherwise.
pub open spec fn held_part(e: (Dec, TxnState)) -> int {
    if e.1 == TxnState::Disputed {
        val(e.0)
    } else {
        0
    }
}

/// The sum of the values of the deposits under dispute in a history.
pub open spec fn disputed_sum(h: History) -> int
    decreases h.dom().len(),
    when h.dom().finite()
{
    if h.dom().len() == 0 {
        0
    } else {
        let k = h.dom().choose();
        held_part(h[k]) + disputed_sum(h.remove(k))
    }
}

/// What the ledger keeps true of every account it holds: it is filed under
/// its own id, and it has at least one deposit, each of a positive amount
/// that is a decimal.
pub open spec fn account_inv(id: u16, c: ClientView) -> bool {
    &&& c.id == id
    &&& c.history.dom().finite()
    &&& !c.history.is_empty()
    &&& forall|tx: u32| #[trigger] c.history.contains_key(tx) ==> val(c.history[tx].0) > 0
    &&& history_decimal(c.history)
}

/// Every account's balances are decimals.
pub open spec fn all_balances_decimal(m: LedgerView) -> bool {
    forall|id: u16| #[trigger] m.contains_key(id) ==> balances_decimal(m[id])
}

/// Whether the record's amount, if any, is a decimal.
pub open spec fn record_decimal(r: TransactionRecord) -> bool {
    r.amount matches Some(a) ==> is_decimal(a@.0, a@.1 as int)
}

/// The invariant of the ledger: every account satisfies `account_inv`.
pub open spec fn ledger_inv(m: LedgerView) -> bool {
    forall|id: u16| #[trigger] m.contains_key(id) ==> account_inv(id, m[id])
}

/// The balances of an account agree: available and held add up to total,
/// and held is the sum of the deposits under dispute. They keep agreeing
/// while `rust_decimal` computes exactly (see `laws`).
pub open spec fn balances_agree(c: ClientView) -> bool {
    &&& val(c.total) == val(c.available) + val(c.held)
    &&& val(c.held) == disputed_sum(c.history)
}

/// The account of client `id`: the one the ledger holds, or a new one.
pub open spec fn current(m: LedgerView, id: u16) -> ClientView {
    if m.contains_key(id) {
        m[id]
    } else {
        new_view(id)
    }
}

/// The amount of a record rounded to four places (`round_dp(4)`).
pub open spec fn record_amount(r: TransactionRecord) -> Option<Dec> {
    match r.amount {
        Some(a) => Some(spec_round_dp(a@.0, a@.1, LEDGER_DP as nat)),
        None => None,
    }
}

/// What a transaction of kind `t` on the transaction id `tx`, with the
/// rounded amount `amount` if there is one, does to an account. Deposits and
/// withdrawals need a positive amount; disputes, resolutions and chargebacks
/// need none. Any other combination is ignored.
pub open spec fn apply_op(c: ClientView, t: TxType, tx: u32, amount: Option<Dec>) -> ClientView {
    match (t, amount) {
        (TxType::Deposit, Some(a)) => if val(a) > 0 {
            deposit_view(c, tx, a)
        } else {
            c
        },
        (TxType::Withdrawal, Some(a)) => if val(a) > 0 {
            withdraw_view(c, a)
        } else {
            c
        },
        (TxType::Dispute, None) => dispute_view(c, tx),
        (TxType::Resolve, None) => resolve_view(c, tx),
        (TxType::Chargeback, None) => chargeback_view(c, tx),
        _ => c,
    }
}

/// Whether the sums and differences that `apply_op` computes satisfy `add`
/// and `sub`.
pub open spec fn op_cond(
    c: ClientView,
    t: TxType,
    tx: u32,
    amount: Option<Dec>,
    on_sum: spec_fn(Dec, Dec) -> bool,
    on_diff: spec_fn(Dec, Dec) -> bool,
) -> bool {
    match (t, amount) {
        (TxType::Deposit, Some(a)) => val(a) > 0 ==> deposit_cond(c, tx, a, on_sum),
        (TxType::Withdrawal, Some(a)) => val(a) > 0 ==> withdraw_cond(c, a, on_diff),
        (TxType::Dispute, None) => dispute_cond(c, tx, on_sum, on_diff),
        (TxType::Resolve, None) => resolve_cond(c, tx, on_sum, on_diff),
        (TxType::Chargeback, None) => chargeback_cond(c, tx, on_diff),
        _ => true,
    }
}

/// What the record `r` does to the account `c`.
pub open spec fn apply_record_to(c: ClientView, r: TransactionRecord) -> ClientView {
    apply_op(c, r.tx_type, r.id.0, record_amount(r))
}

/// Whether the sums and differences that the record `r` computes on the
/// ledger `m` satisfy `add` and `sub` (a frozen account computes none).
pub open spec fn step_cond(
    m: LedgerView,
    r: TransactionRecord,
    on_sum: spec_fn(Dec, Dec) -> bool,
    on_diff: spec_fn(Dec, Dec) -> bool,
) -> bool {
    let c = current(m, r.client_id.0);
    c.locked || op_cond(c, r.tx_type, r.id.0, record_amount(r), on_sum, on_diff)
}

/// The record does not overflow a balance (where it would, the `+=` or `-=`
/// of a `Decimal` balance panics).
pub open spec fn step_ok(m: LedgerView, r: TransactionRecord) -> bool {
    step_cond(m, r, no_add_overflow(), no_sub_overflow())
}

/// The record's sums and differences are plain (`add_is_plain`,
/// `sub_is_plain`): an operand is zero, or they fit in a mantissa at the
/// larger scale.
pub open spec fn step_plain(m: LedgerView, r: TransactionRecord) -> bool {
    step_cond(m, r, plain_sum(), plain_difference())
}

/// `rust_decimal` computes the record's sums and differences exactly.
pub open spec fn step_exact(m: LedgerView, r: TransactionRecord) -> bool {
    step_cond(m, r, exact_add(), exact_sub())
}

/// The ledger after the record `r`. A frozen account takes nothing. An
/// account that has no deposit after the record is not kept (so a client
/// appears once a deposit of theirs has gone through).
pub open spec fn ledger_step(m: LedgerView, r: TransactionRecord) -> LedgerView {
    let id = r.client_id.0;
    let c = current(m, id);
    if c.locked {
        m
    } else {
        let c2 = apply_record_to(c, r);
        if c2.history.is_empty() {
            m.remove(id)
        } else {
            m.insert(id, c2)
        }
    }
}

/// What a stream of records makes of the ledger `m`: records are taken in
/// order; a record that could not be read is skipped; any other error ends
/// the run with that error, and so does a record that would overflow a
/// balance.
pub open spec fn run_records(m: LedgerView, s: Seq<Result<TransactionRecord, LedgerError>>) -> Result<
    LedgerView,
    LedgerError,
>
    decreases s.len(),
{
    if s.len() == 0 {
        Ok(m)
    } else {
        match s[0] {
            Ok(r) => if step_ok(m, r) {
                run_records(ledger_step(m, r), s.drop_first())
            } else {
                Err(LedgerError::AmountOverflow { client: r.client_id, tx: r.id })
            },
            Err(e) => match e {
                LedgerError::DeserializeTransaction { .. } => run_records(m, s.drop_first()),
                _ => Err(e),
            },
        }
    }
}

/// The row written out for an account.
pub open spec fn account_row(c: ClientView) -> AccountView {
    AccountView {
        client: c.id,
        available: trimmed_text(c.available),
        held: trimmed_text(c.held),
        total: trimmed_text(c.total),
        locked: c.locked,
    }
}

/// One row of the output: a client's balances written out with trailing
/// zeros trimmed, and whether the account is frozen.
pub struct Account {
    pub client: u16,
    pub available: String,
    pub held: String,
    pub total: String,
    pub locked: bool,
}

/// The row as plain values, for contracts.
pub struct AccountView {
    pub client: u16,
    pub available: Seq<char>,
    pub held: Seq<char>,
    pub total: Seq<char>,
    pub locked: bool,
}

impl View for Account {
    type V = AccountView;

    open spec fn view(&self) -> AccountView {
        AccountView {
            client: self.client,
            available: self.available@,
            held: self.held@,
            total: self.total@,
            locked: self.locked,
        }
    }
}

/// What a record did, when it did not end the run.
#[derive(Debug)]
pub enum Outcome {
    /// The record was a transaction and the ledger took it.
    Applied,
    /// The record could not be read as a transaction and was skipped.
    Skipped { source: csv::Error },
}

/// The ledger of all clients.
pub struct Ledger {
    clients: FnvMap<u16, Client>,
}

impl View for Ledger {
    type V = LedgerView;

    closed spec fn view(&self) -> LedgerView {
        self.clients@.map_values(|c: Client| c@)
    }
}

/// `held_part` of the entry for `k`, plus the sum over the rest of the
/// history, is the sum over the whole history.
pub proof fn lemma_disputed_sum_remove(h: History, k: u32)
    requires
        h.dom().finite(),
        h.contains_key(k),
    ensures
        disputed_sum(h) == held_part(h[k]) + disputed_sum(h.remove(k)),
    decreases h.dom().len(),
{
    let j = h.dom().choose();
    if j != k {
        assert(h.remove(j).contains_key(k));
        lemma_disputed_sum_remove(h.remove(j), k);
        assert(h.remove(k).contains_key(j));
        lemma_disputed_sum_remove(h.remove(k), j);
        assert(h.remove(j).remove(k) =~= h.remove(k).remove(j));
    }
}

/// Setting the entry for `k` to `v` replaces what `k` added to the sum.
pub proof fn lemma_disputed_sum_insert(h: History, k: u32, v: (Dec, TxnState))
    requires
        h.dom().finite(),
    ensures
        !h.contains_key(k) ==> disputed_sum(h.insert(k, v)) == held_part(v) + disputed_sum(h),
        h.contains_key(k) ==> disputed_sum(h.insert(k, v)) == held_part(v) - held_part(h[k])
            + disputed_sum(h),
{
    lemma_disputed_sum_remove(h.insert(k, v), k);
    assert(h.insert(k, v).remove(k) =~= h.remove(k));
    if !h.contains_key(k) {
        assert(h.remove(k) =~= h);
    } else {
        lemma_disputed_sum_remove(h, k);
    }
}

/// With no negative amount in the history, the disputed sum is not
/// negative.
pub proof fn lemma_disputed_sum_nonnegative(h: History)
    requires
        h.dom().finite(),
        forall|tx: u32| #[trigger] h.contains_key(tx) ==> val(h[tx].0) >= 0,
    ensures
        disputed_sum(h) >= 0,
    decreases h.dom().len(),
{
    if h.dom().len() != 0 {
        let k = h.dom().choose();
        lemma_disputed_sum_nonnegative(h.remove(k));
    }
}

/// The empty history sums to zero.
pub proof fn lemma_disputed_sum_empty()
    ensures
        disputed_sum(Map::<u32, (Dec, TxnState)>::empty()) == 0,
{
    assert(Map::<u32, (Dec, TxnState)>::empty().dom() =~= Set::<u32>::empty());
}

/// Whether `a` is above zero.
fn is_positive(a: &Amount) -> (b: bool)
    ensures
        b == (val(a@) > 0),
{
    !Amount::zero().ge(a)
}

/// Whether the account `c` takes the transaction of kind `t` on `tx` with
/// the rounded amount `amount` without overflowing a balance.
fn account_admits(c: &Client, t: TxType, tx: u32, amount: Option<Amount>) -> (b: bool)
    ensures
        b == op_cond(c@, t, tx, opt_view(amount), no_add_overflow(), no_sub_overflow()),
{
    let available: Amount = c.available();
    let held: Amount = c.held();
    let total: Amount = c.total();
    match (t, amount) {
        (TxType::Deposit, Some(a)) => {
            if !is_positive(&a) {
                true
            } else {
                match c.history_entry(tx) {
                    Some(_) => true,
                    None => available.checked_add(&a).is_some() && total.checked_add(&a).is_some(),
                }
            }
        },
        (TxType::Withdrawal, Some(a)) => {
            if !is_positive(&a) || !available.ge(&a) {
                true
            } else {
                available.checked_sub(&a).is_some() && total.checked_sub(&a).is_some()
            }
        },
        (TxType::Dispute, None) => match c.history_entry(tx) {
            Some(e) => match e.1 {
                TxnState::Uncontested => available.checked_sub(&e.0).is_some() && held.checked_add(
                    &e.0,
                ).is_some(),
                _ => true,
            },
            None => true,
        },
        (TxType::Resolve, None) => match c.history_entry(tx) {
            Some(e) => match e.1 {
                TxnState::Disputed => available.checked_add(&e.0).is_some() && held.checked_sub(
                    &e.0,
                ).is_some(),
                _ => true,
            },
            None => true,
        },
        (TxType::Chargeback, None) => match c.history_entry(tx) {
            Some(e) => match e.1 {
                TxnState::Disputed => held.checked_sub(&e.0).is_some() && total.checked_sub(
                    &e.0,
                ).is_some(),
                _ => true,
            },
            None => true,
        },
        _ => true,
    }
}

/// The record's amount rounded to four places.
fn rounded_amount(r: &TransactionRecord) -> (a: Option<Amount>)
    ensures
        opt_view(a) == record_amount(*r),
{
    match r.amount {
        // Rescale the amount to 4 decimal places if it exists
        Some(a) => Some(a.round_dp(LEDGER_DP)),
        None => None,
    }
}

impl Ledger {
    /// What every ledger keeps true: the ledger's invariant holds, and every
    /// balance is a decimal.
    #[verifier::type_invariant]
    pub open spec fn wf(self) -> bool {
        ledger_inv(self@) && all_balances_decimal(self@)
    }

    /// An empty ledger.
    pub fn new() -> (l: Self)
        ensures
            l@ == Map::<u16, ClientView>::empty(),
    {
        let l = Ledger { clients: FnvMap::default() };
        assert(l@ =~= Map::<u16, ClientView>::empty());
        l
    }

    /// The account of the client `id`, if the ledger holds one.
    pub fn client(&self, id: ClientId) -> (r: Option<&Client>)
        ensures
            r is None <==> !self@.contains_key(id.0),
            r matches Some(c) ==> self@.contains_key(id.0) && c@ == self@[id.0],
    {
        map_get(&self.clients, &id.0)
    }

    /// Whether the record can be processed without overflowing a balance.
    pub fn admits(&self, txn_record: &TransactionRecord) -> (b: bool)
        ensures
            b == step_ok(self@, *txn_record),
    {
        let id: u16 = txn_record.client_id.0;
        let amount: Option<Amount> = rounded_amount(txn_record);
        match map_get(&self.clients, &id) {
            Some(client) => {
                assert(self@[id] == client@);
                client.locked() || account_admits(client, txn_record.tx_type, txn_record.id.0, amount)
            },
            None => {
                let client = Client::new(txn_record.client_id);
                account_admits(&client, txn_record.tx_type, txn_record.id.0, amount)
            },
        }
    }

    /// Applies one transaction record to the ledger. A frozen account takes
    /// nothing; a deposit or withdrawal needs a positive amount (rounded to
    /// four places); a dispute, resolution or chargeback needs none and
    /// concerns a deposit of the same client. A client appears in the
    /// ledger once a deposit of theirs has gone through. A record whose sum
    /// or difference would overflow a decimal (where `+=` or `-=` on a
    /// `Decimal` panics) is left out by `requires`; `admits` tells such a
    /// record.
    pub fn process_transaction(&mut self, txn_record: TransactionRecord) -> (r: Result<(), LedgerError>)
        requires
            step_ok(old(self)@, txn_record),
        ensures
            r is Ok,
            final(self)@ == ledger_step(old(self)@, txn_record),
    {
        proof {
            use_type_invariant(&*self);
        }
        let id: u16 = txn_record.client_id.0;
        let ghost m = self@;
        // Work on the map outside the ledger, which stays empty (and so
        // well-formed) until the map is put back.
        let mut clients: FnvMap<u16, Client> = FnvMap::default();
        std::mem::swap(&mut clients, &mut self.clients);
        assert(clients@.map_values(|c: Client| c@) =~= m);
        let existing: Option<Client> = map_remove(&mut clients, &id);
        assert(clients@.map_values(|c: Client| c@) =~= m.remove(id));
        let mut client: Client = match existing {
            Some(c) => c,
            None => Client::new(txn_record.client_id),
        };
        assert(client@ == current(m, id));
        assert(m.contains_key(id) ==> account_inv(id, m[id]));
        if client.locked() {
            // If a client's account is locked, any transaction should be ignored
            let _ = map_insert(&mut clients, id, client);
            assert(clients@.map_values(|c: Client| c@) =~= m);
            self.clients = clients;
            return Ok(());
        }
        let amount: Option<Amount> = rounded_amount(&txn_record);
        if let Some(a) = amount {
            proof {
                use_type_invariant(&a);
            }
        }
        let ghost before = client@;
        match (txn_record.tx_type, amount) {
            (TxType::Deposit, Some(a)) if is_positive(&a) => client.deposit(txn_record.id, a),
            (TxType::Withdrawal, Some(a)) if is_positive(&a) => client.withdraw(a),
            (TxType::Dispute, None) => client.dispute(txn_record.id),
            (TxType::Resolve, None) => client.resolve(txn_record.id),
            (TxType::Chargeback, None) => client.chargeback(txn_record.id),
            _ => {
                // Ignore invalid transactions
                // Including disputes/resolves/chargebacks that have amounts
                // and deposits/withdrawals that are negative or zero.
            },
        }
        assert(client@ == apply_record_to(before, txn_record));
        proof {
            lemma_step_keeps_account_inv(id, before, txn_record.tx_type, txn_record.id.0, record_amount(txn_record));
            assert(m.contains_key(id) ==> balances_decimal(m[id]));
        }
        // Remove the client from the ledger if there was no successful deposit.
        if !client.has_no_deposits() {
            let _ = map_insert(&mut clients, id, client);
            assert(clients@.map_values(|c: Client| c@) =~= m.insert(id, client@));
        } else {
            assert(clients@.map_values(|c: Client| c@) =~= m.remove(id));
        }
        self.clients = clients;
        Ok(())
    }

    /// Takes one record of the input stream. A transaction is processed; a
    /// record that could not be read is skipped, and its error handed back
    /// so that it can be reported; any other error ends the run, and so does
    /// a transaction that would overflow a balance (the ledger is then left
    /// as it was).
    pub fn apply_record(&mut self, record: Result<TransactionRecord, LedgerError>) -> (r: Result<
        Outcome,
        LedgerError,
    >)
        ensures
            match record {
                Ok(t) => if step_ok(old(self)@, t) {
                    r matches Ok(Outcome::Applied) && final(self)@ == ledger_step(old(self)@, t)
                } else {
                    r == Err::<Outcome, LedgerError>(
                        LedgerError::AmountOverflow { client: t.client_id, tx: t.id },
                    ) && final(self)@ == old(self)@
                },
                Err(e) => final(self)@ == old(self)@ && match e {
                    LedgerError::DeserializeTransaction { source } => r == Ok::<
                        Outcome,
                        LedgerError,
                    >(Outcome::Skipped { source }),
                    _ => r == Err::<Outcome, LedgerError>(e),
                },
            },
    {
        match record {
            Ok(transaction) => {
                if self.admits(&transaction) {
                    let _ = self.process_transaction(transaction);
                    Ok(Outcome::Applied)
                } else {
                    Err(LedgerError::AmountOverflow { client: transaction.client_id, tx: transaction.id })
                }
            },
            // Skipped rather than fatal so one bad row can't discard the whole ledger.
            Err(LedgerError::DeserializeTransaction { source }) => Ok(Outcome::Skipped { source }),
            Err(error) => Err(error),
        }
    }

    /// Builds a ledger from a stream of records, in order (see `run_records`):
    /// records that could not be read are skipped, and the first other error
    /// is returned.
    pub fn from_iter(records: Vec<Result<TransactionRecord, LedgerError>>) -> (r: Result<
        Ledger,
        LedgerError,
    >)
        ensures
            match r {
                Ok(l) => run_records(Map::empty(), records@) == Ok::<
                    LedgerView,
                    LedgerError,
                >(l@),
                Err(e) => run_records(Map::empty(), records@) == Err::<LedgerView, LedgerError>(e),
            },
    {
        let ghost s = records@;
        let mut ledger = Ledger::new();
        assert(s.skip(0) =~= s);
        for record in it: records.into_iter()
            invariant
                it.seq() == s,
                run_records(Map::empty(), s) == run_records(ledger@, s.skip(it.index() as int)),
        {
            let ghost i = it.index() as int;
            assert(s.skip(i)[0] == s[i]);
            assert(s.skip(i).drop_first() =~= s.skip(i + 1));
            match ledger.apply_record(record) {
                Ok(_) => {},
                Err(error) => {
                    return Err(error);
                },
            }
        }
        assert(s.skip(s.len() as int) =~= Seq::<Result<TransactionRecord, LedgerError>>::empty());
        Ok(ledger)
    }

    /// One row per account, with its balances written out with trailing
    /// zeros trimmed; each client appears exactly once, in the order in which
    /// the ledger's map is walked.
    pub fn accounts(&self) -> (rows: Vec<Account>)
        ensures
            forall|i: int| #![trigger rows@[i]]
                0 <= i < rows.len() ==> self@.contains_key(rows@[i].client) && rows@[i]@
                    == account_row(self@[rows@[i].client]),
            forall|i: int, j: int|
                0 <= i < j < rows.len() ==> #[trigger] rows@[i].client != #[trigger] rows@[j].client,
            forall|id: u16| #[trigger]
                self@.contains_key(id) ==> exists|i: int| 0 <= i < rows.len() && rows@[i].client == id,
    {
        proof {
            use_type_invariant(self);
        }
        let keys: Vec<u16> = map_keys(&self.clients);
        let mut rows: Vec<Account> = Vec::new();
        let n: usize = keys.len();
        for i in 0..n
            invariant
                n == keys.len(),
                keys@.no_duplicates(),
                keys@.to_set() == self.clients@.dom(),
                self.wf(),
                rows.len() == i,
                forall|j: int| #![trigger rows@[j]]
                    0 <= j < i ==> rows@[j].client == keys@[j] && self@.contains_key(keys@[j])
                        && rows@[j]@ == account_row(self@[keys@[j]]),
        {
            let id: u16 = keys[i];
            assert(keys@.to_set().contains(keys@[i as int]));
            match map_get(&self.clients, &id) {
                Some(client) => {
                    assert(self@.contains_key(id));
                    assert(self@[id] == client@);
                    let row = Account {
                        client: id,
                        available: serialize(&client.available()),
                        held: serialize(&client.held()),
                        total: serialize(&client.total()),
                        locked: client.locked(),
                    };
                    assert(account_inv(id, self@[id]));
                    rows.push(row);
                },
                None => {},
            }
        }
        proof {
            assert forall|id: u16| #[trigger] self@.contains_key(id) implies exists|i: int|
                0 <= i < rows.len() && rows@[i].client == id by {
                assert(keys@.to_set().contains(id));
                let i = choose|i: int| 0 <= i < keys.len() && keys@[i] == id;
                assert(rows@[i].client == id);
            }
        }
        rows
    }
}

impl Default for Ledger {
    /// An empty ledger (as `Ledger::new`).
    fn default() -> (l: Self)
        ensures
            l@ == Map::<u16, ClientView>::empty(),
    {
        Ledger::new()
    }
}

/// Every operation keeps an account's invariant, as long as the account
/// still has a deposit afterwards (a new account counts, before its first
/// deposit).
pub proof fn lemma_step_keeps_account_inv(id: u16, c: ClientView, t: TxType, tx: u32, amount: Option<Dec>)
    requires
        account_inv(id, c) || c == new_view(id),
        amount matches Some(a) ==> is_decimal(a.0, a.1 as int),
    ensures
        !apply_op(c, t, tx, amount).history.is_empty() ==> account_inv(id, apply_op(c, t, tx, amount)),
{
    let c2 = apply_op(c, t, tx, amount);
    if c == new_view(id) {
        assert(c.history.dom() =~= Set::<u32>::empty());
    }
    if !c2.history.is_empty() {
        assert forall|k: u32| #[trigger] c2.history.contains_key(k) implies val(c2.history[k].0) > 0
            && is_decimal(c2.history[k].0.0, c2.history[k].0.1 as int) by {
            if k != tx {
                assert(c.history.contains_key(k));
            }
        }
    }
}

} // verus!
