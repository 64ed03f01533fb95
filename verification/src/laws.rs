//! What holds of accounts and of the ledger across operations, records and
//! whole runs, stated over the specifications that the operations meet
//! (`apply_op`, `ledger_step`, `run_records`, and for a `Client` on its own
//! `deposit_view` and the rest). Laws on values hold where `rust_decimal`
//! computes the sums and differences involved exactly; it does wherever
//! they are plain (an operand is zero, or they fit in a mantissa at the
//! larger scale): see `law_plain_op_is_exact`.
use crate::amount::{
    add_exact, add_is_plain, is_decimal, lemma_normalize_keeps_value, minus, plus, sub_is_plain, lemma_plain_add_is_exact, spec_normalize, lemma_plain_sub_is_exact, lemma_round_dp_is_decimal,
    sub_exact, val, Dec, LEDGER_DP,
};
use crate::client::{
    balances_decimal, chargeback_cond, chargeback_view, deposit_cond, deposit_view, dispute_cond,
    dispute_view, exact_add, exact_sub, history_decimal, in_state, new_view, plain_difference,
    plain_sum, resolve_cond, resolve_view, withdraw_cond, withdraw_view, ClientId, ClientView,
};
use crate::error::LedgerError;
use crate::ledger::{
    account_inv, account_row, all_balances_decimal, apply_op, balances_agree, current, disputed_sum, ledger_inv,
    ledger_step, lemma_disputed_sum_empty, lemma_disputed_sum_insert, lemma_disputed_sum_nonnegative,
    lemma_step_keeps_account_inv, op_cond, record_amount, record_decimal, run_records, step_exact,
    step_ok, step_plain, LedgerView,
};
use crate::numeral::{is_numeral, lemma_decimal_text_reads_back, numeral_value};
use crate::transaction::{TransactionId, TransactionRecord, TxType, TxnState};
use vstd::prelude::*;

verus! {

/// A dispute, resolution or chargeback record of client `id` on `tx`.
pub open spec fn claim(t: TxType, id: u16, tx: u32) -> TransactionRecord {
    TransactionRecord { tx_type: t, id: TransactionId(tx), client_id: ClientId(id), amount: None }
}

/// Every record of the stream that is a transaction carries a decimal
/// amount, if any.
pub open spec fn records_decimal(s: Seq<Result<TransactionRecord, LedgerError>>) -> bool {
    forall|i: int| 0 <= i < s.len() && #[trigger] s[i] is Ok ==> record_decimal(s[i]->Ok_0)
}

/// Every account of the ledger has agreeing balances.
pub open spec fn all_balances_agree(m: LedgerView) -> bool {
    forall|id: u16| #[trigger] m.contains_key(id) ==> balances_agree(m[id])
}

// ---------------------------------------------------------------- accounts

/// A frozen account stays frozen, and an account is frozen only by the
/// chargeback of a disputed deposit.
pub proof fn law_client_locked_only_by_chargeback(c: ClientView, t: TxType, tx: u32, amount: Option<Dec>)
    ensures
        c.locked ==> apply_op(c, t, tx, amount).locked,
        !c.locked && apply_op(c, t, tx, amount).locked ==> t == TxType::Chargeback && amount is None
            && in_state(c, tx, TxnState::Disputed),
{
}

/// The history only grows: no deposit leaves it and no amount in it
/// changes; so once an account has a deposit it keeps one. A positive deposit
/// with a new id enters it.
pub proof fn law_client_history_grows(c: ClientView, t: TxType, tx: u32, amount: Option<Dec>)
    ensures
        forall|k: u32| #[trigger] c.history.contains_key(k) ==> apply_op(c, t, tx, amount).history.contains_key(k)
            && apply_op(c, t, tx, amount).history[k].0 == c.history[k].0,
        !c.history.is_empty() ==> !apply_op(c, t, tx, amount).history.is_empty(),
        t == TxType::Deposit && amount is Some && val(amount.unwrap()) > 0 && !c.history.contains_key(
            tx,
        ) ==> apply_op(c, t, tx, amount).history.contains_key(tx),
{
    let c2 = apply_op(c, t, tx, amount);
    if !c.history.is_empty() {
        let k = choose|k: u32| c.history.contains_key(k);
        assert(c.history.dom().contains(k));
        assert(c2.history.dom().contains(k));
    }
}

/// Where `rust_decimal` computes exactly, every operation keeps an
/// account's balances agreeing: available and held add up to total, and held
/// is the sum of the deposits under dispute.
pub proof fn law_client_balances_agree(c: ClientView, t: TxType, tx: u32, amount: Option<Dec>)
    requires
        c.history.dom().finite(),
        balances_agree(c),
        op_cond(c, t, tx, amount, exact_add(), exact_sub()),
    ensures
        balances_agree(apply_op(c, t, tx, amount)),
{
    let c2 = apply_op(c, t, tx, amount);
    match (t, amount) {
        (TxType::Deposit, Some(a)) => {
            if val(a) > 0 && !c.history.contains_key(tx) {
                lemma_disputed_sum_insert(c.history, tx, (a, TxnState::Uncontested));
                assert(add_exact(c.available, a));
                assert(add_exact(c.total, a));
            }
        },
        (TxType::Withdrawal, Some(a)) => {
            if val(a) > 0 && val(c.available) >= val(a) {
                assert(sub_exact(c.available, a));
                assert(sub_exact(c.total, a));
            }
        },
        (TxType::Dispute, None) => {
            if in_state(c, tx, TxnState::Uncontested) {
                let a = c.history[tx].0;
                lemma_disputed_sum_insert(c.history, tx, (a, TxnState::Disputed));
                assert(sub_exact(c.available, a));
                assert(add_exact(c.held, a));
            }
        },
        (TxType::Resolve, None) => {
            if in_state(c, tx, TxnState::Disputed) {
                let a = c.history[tx].0;
                lemma_disputed_sum_insert(c.history, tx, (a, TxnState::Finalized));
                assert(add_exact(c.available, a));
                assert(sub_exact(c.held, a));
            }
        },
        (TxType::Chargeback, None) => {
            if in_state(c, tx, TxnState::Disputed) {
                let a = c.history[tx].0;
                lemma_disputed_sum_insert(c.history, tx, (a, TxnState::Finalized));
                assert(sub_exact(c.held, a));
                assert(sub_exact(c.total, a));
            }
        },
        _ => {},
    }
}

/// A new account's balances agree.
pub proof fn law_new_account_balances_agree(id: u16)
    ensures
        balances_agree(new_view(id)),
{
    lemma_disputed_sum_empty();
    assert(val((0, 0)) == 0) by (nonlinear_arith);
}

/// Where `rust_decimal` computes exactly, a dispute followed by its
/// resolution gives the account back the values it had, and closes the
/// deposit's dispute for good.
pub proof fn law_client_resolve_undoes_dispute(c: ClientView, tx: u32)
    requires
        in_state(c, tx, TxnState::Uncontested),
        sub_exact(c.available, c.history[tx].0),
        add_exact(c.held, c.history[tx].0),
        add_exact(dispute_view(c, tx).available, c.history[tx].0),
        sub_exact(dispute_view(c, tx).held, c.history[tx].0),
    ensures
        ({
            let c2 = resolve_view(dispute_view(c, tx), tx);
            &&& val(c2.available) == val(c.available)
            &&& val(c2.held) == val(c.held)
            &&& c2.total == c.total
            &&& c2.locked == c.locked
            &&& c2.history == c.history.insert(tx, (c.history[tx].0, TxnState::Finalized))
        }),
{
    let c1 = dispute_view(c, tx);
    assert(in_state(c1, tx, TxnState::Disputed));
    assert(resolve_view(c1, tx).history =~= c.history.insert(tx, (c.history[tx].0, TxnState::Finalized)));
}

/// Where `rust_decimal` computes exactly, a dispute followed by a
/// chargeback takes the deposit back out: held is as it was, available and
/// total are lower by its amount, and the account is frozen.
pub proof fn law_client_chargeback_reverses_deposit(c: ClientView, tx: u32)
    requires
        in_state(c, tx, TxnState::Uncontested),
        sub_exact(c.available, c.history[tx].0),
        add_exact(c.held, c.history[tx].0),
        sub_exact(dispute_view(c, tx).held, c.history[tx].0),
        sub_exact(c.total, c.history[tx].0),
    ensures
        ({
            let a = c.history[tx].0;
            let c2 = chargeback_view(dispute_view(c, tx), tx);
            &&& val(c2.available) == val(c.available) - val(a)
            &&& val(c2.held) == val(c.held)
            &&& val(c2.total) == val(c.total) - val(a)
            &&& c2.locked
            &&& c2.history == c.history.insert(tx, (a, TxnState::Finalized))
        }),
{
    let c1 = dispute_view(c, tx);
    assert(in_state(c1, tx, TxnState::Disputed));
    assert(chargeback_view(c1, tx).history =~= c.history.insert(tx, (c.history[tx].0, TxnState::Finalized)));
}

/// Where an operation's sums and differences are plain, `rust_decimal`
/// computes them exactly, and the balances stay decimals.
pub proof fn law_plain_op_is_exact(c: ClientView, t: TxType, tx: u32, amount: Option<Dec>)
    requires
        balances_decimal(c),
        history_decimal(c.history),
        amount matches Some(a) ==> is_decimal(a.0, a.1 as int),
        op_cond(c, t, tx, amount, plain_sum(), plain_difference()),
    ensures
        op_cond(c, t, tx, amount, exact_add(), exact_sub()),
        balances_decimal(apply_op(c, t, tx, amount)),
{
    match (t, amount) {
        (TxType::Deposit, Some(a)) => {
            if val(a) > 0 && !c.history.contains_key(tx) {
                lemma_plain_add_is_exact(c.available, a);
                lemma_plain_add_is_exact(c.total, a);
            }
        },
        (TxType::Withdrawal, Some(a)) => {
            if val(a) > 0 && val(c.available) >= val(a) {
                lemma_plain_sub_is_exact(c.available, a);
                lemma_plain_sub_is_exact(c.total, a);
            }
        },
        (TxType::Dispute, None) => {
            if in_state(c, tx, TxnState::Uncontested) {
                let a = c.history[tx].0;
                lemma_plain_sub_is_exact(c.available, a);
                lemma_plain_add_is_exact(c.held, a);
            }
        },
        (TxType::Resolve, None) => {
            if in_state(c, tx, TxnState::Disputed) {
                let a = c.history[tx].0;
                lemma_plain_add_is_exact(c.available, a);
                lemma_plain_sub_is_exact(c.held, a);
            }
        },
        (TxType::Chargeback, None) => {
            if in_state(c, tx, TxnState::Disputed) {
                let a = c.history[tx].0;
                lemma_plain_sub_is_exact(c.held, a);
                lemma_plain_sub_is_exact(c.total, a);
            }
        },
        _ => {},
    }
}

// ------------------------------------------------- sequences of operations

/// An operation on a `Client`, as a mathematical value: what
/// `Client::deposit`, `withdraw`, `dispute`, `resolve` and `chargeback` are
/// called with.
pub enum ClientOp {
    Deposit(u32, Dec),
    Withdraw(Dec),
    Dispute(u32),
    Resolve(u32),
    Chargeback(u32),
}

/// The account after the operation (each `Client` method ends in this).
pub open spec fn client_op(c: ClientView, op: ClientOp) -> ClientView {
    match op {
        ClientOp::Deposit(tx, a) => deposit_view(c, tx, a),
        ClientOp::Withdraw(a) => withdraw_view(c, a),
        ClientOp::Dispute(tx) => dispute_view(c, tx),
        ClientOp::Resolve(tx) => resolve_view(c, tx),
        ClientOp::Chargeback(tx) => chargeback_view(c, tx),
    }
}

/// Whether the operation's sums and differences satisfy `on_sum` and
/// `on_diff` (with "does not overflow", this is what each method requires).
pub open spec fn client_op_cond(
    c: ClientView,
    op: ClientOp,
    on_sum: spec_fn(Dec, Dec) -> bool,
    on_diff: spec_fn(Dec, Dec) -> bool,
) -> bool {
    match op {
        ClientOp::Deposit(tx, a) => deposit_cond(c, tx, a, on_sum),
        ClientOp::Withdraw(a) => withdraw_cond(c, a, on_diff),
        ClientOp::Dispute(tx) => dispute_cond(c, tx, on_sum, on_diff),
        ClientOp::Resolve(tx) => resolve_cond(c, tx, on_sum, on_diff),
        ClientOp::Chargeback(tx) => chargeback_cond(c, tx, on_diff),
    }
}

/// The account after the operations `ops`, in order, starting from `c`.
pub open spec fn run_ops(c: ClientView, ops: Seq<ClientOp>) -> ClientView
    decreases ops.len(),
{
    if ops.len() == 0 {
        c
    } else {
        client_op(run_ops(c, ops.drop_last()), ops.last())
    }
}

/// The operations `ops` before the one at `i` are those of `ops` with its
/// last one dropped, where `i` is not the last.
proof fn lemma_prefix(ops: Seq<ClientOp>, i: int)
    requires
        ops.len() > 0,
        0 <= i < ops.len() - 1,
    ensures
        ops.drop_last().take(i) == ops.take(i),
        ops.drop_last()[i] == ops[i],
{
    assert(ops.drop_last().take(i) =~= ops.take(i));
}

/// Whether the operation at `i` is a chargeback that finds its deposit
/// disputed.
pub open spec fn charges_back_at(c: ClientView, ops: Seq<ClientOp>, i: int) -> bool {
    ops[i] matches ClientOp::Chargeback(tx) && in_state(run_ops(c, ops.take(i)), tx, TxnState::Disputed)
}

/// An account is frozen after a sequence of operations exactly when it was
/// frozen before, or some chargeback in the sequence found its deposit
/// disputed; so it never thaws.
pub proof fn law_ops_locked(c: ClientView, ops: Seq<ClientOp>)
    ensures
        run_ops(c, ops).locked <==> (c.locked || exists|i: int|
            0 <= i < ops.len() && #[trigger] charges_back_at(c, ops, i)),
    decreases ops.len(),
{
    if ops.len() > 0 {
        let p = ops.drop_last();
        let n = ops.len() - 1;
        law_ops_locked(c, p);
        assert(ops.take(n) =~= p);
        assert forall|i: int| 0 <= i < n implies #[trigger] charges_back_at(c, ops, i) == charges_back_at(c, p, i) by {
            lemma_prefix(ops, i);
        }
        if run_ops(c, ops).locked && !c.locked {
            if !run_ops(c, p).locked {
                assert(charges_back_at(c, ops, n));
            } else {
                let i = choose|i: int| 0 <= i < p.len() && #[trigger] charges_back_at(c, p, i);
                assert(charges_back_at(c, ops, i));
            }
        }
        if exists|i: int| 0 <= i < ops.len() && #[trigger] charges_back_at(c, ops, i) {
            let i = choose|i: int| 0 <= i < ops.len() && #[trigger] charges_back_at(c, ops, i);
            if i < n {
                assert(charges_back_at(c, p, i));
            }
        }
    }
}

/// An account has no deposits after a sequence of operations exactly when it
/// had none before and the sequence holds no deposit: only a deposit adds to
/// the history, and nothing takes from it.
pub proof fn law_ops_deposits(c: ClientView, ops: Seq<ClientOp>)
    ensures
        run_ops(c, ops).history.is_empty() <==> (c.history.is_empty() && forall|i: int|
            0 <= i < ops.len() ==> !(#[trigger] ops[i] is Deposit)),
    decreases ops.len(),
{
    if ops.len() > 0 {
        let p = ops.drop_last();
        let n = ops.len() - 1;
        law_ops_deposits(c, p);
        let c1 = run_ops(c, p);
        let c2 = run_ops(c, ops);
        match ops.last() {
            ClientOp::Deposit(tx, a) => {
                assert(c2.history.dom().contains(tx));
            },
            _ => {
                assert(c2.history.dom() =~= c1.history.dom());
            },
        }
        if c2.history.is_empty() {
            assert forall|i: int| 0 <= i < ops.len() implies !(#[trigger] ops[i] is Deposit) by {
                if i < n {
                    lemma_prefix(ops, i);
                }
            }
        }
        if !c2.history.is_empty() && c.history.is_empty() {
            if !c1.history.is_empty() {
                let i = choose|i: int| 0 <= i < p.len() && #[trigger] p[i] is Deposit;
                lemma_prefix(ops, i);
            }
        }
    }
}

/// Where every operation's sums and differences are plain, a sequence of
/// operations from an account with agreeing decimal balances ends in one too:
/// available and held add up to total, and held is the sum of the deposits
/// under dispute, which is never negative when no deposit is negative.
pub proof fn law_ops_balances_agree(c: ClientView, ops: Seq<ClientOp>)
    requires
        c.history.dom().finite(),
        balances_decimal(c),
        history_decimal(c.history),
        balances_agree(c),
        forall|i: int|
            0 <= i < ops.len() ==> (#[trigger] ops[i] matches ClientOp::Deposit(tx, a) ==> is_decimal(
                a.0,
                a.1 as int,
            )) && (ops[i] matches ClientOp::Withdraw(a) ==> is_decimal(a.0, a.1 as int)),
        forall|i: int|
            0 <= i < ops.len() ==> client_op_cond(
                run_ops(c, ops.take(i)),
                #[trigger] ops[i],
                plain_sum(),
                plain_difference(),
            ),
    ensures
        ({
            let c2 = run_ops(c, ops);
            &&& balances_agree(c2)
            &&& balances_decimal(c2)
            &&& c2.history.dom().finite()
            &&& history_decimal(c2.history)
            &&& (forall|tx: u32| #[trigger] c2.history.contains_key(tx) ==> val(c2.history[tx].0) >= 0)
                ==> val(c2.held) >= 0
        }),
    decreases ops.len(),
{
    if ops.len() > 0 {
        let p = ops.drop_last();
        let n = ops.len() - 1;
        assert forall|i: int| 0 <= i < p.len() implies client_op_cond(
            run_ops(c, p.take(i)),
            #[trigger] p[i],
            plain_sum(),
            plain_difference(),
        ) by {
            lemma_prefix(ops, i);
            assert(client_op_cond(run_ops(c, ops.take(i)), ops[i], plain_sum(), plain_difference()));
        }
        assert forall|i: int| 0 <= i < p.len() implies (#[trigger] p[i] matches ClientOp::Deposit(tx, a)
            ==> is_decimal(a.0, a.1 as int)) && (p[i] matches ClientOp::Withdraw(a)
            ==> is_decimal(a.0, a.1 as int)) by {
            lemma_prefix(ops, i);
            assert(ops[i] == p[i]);
        }
        law_ops_balances_agree(c, p);
        let c1 = run_ops(c, p);
        assert(ops.take(n) =~= p);
        assert(ops[n] == ops.last());
        lemma_client_op_keeps_agreement(c1, ops.last());
    }
    let c2 = run_ops(c, ops);
    if forall|tx: u32| #[trigger] c2.history.contains_key(tx) ==> val(c2.history[tx].0) >= 0 {
        lemma_disputed_sum_nonnegative(c2.history);
    }
}

/// What an account keeps through one operation whose sums and differences
/// are plain: agreeing decimal balances, and a finite history of decimal
/// deposits.
pub open spec fn sound_account(c: ClientView) -> bool {
    &&& c.history.dom().finite()
    &&& balances_decimal(c)
    &&& history_decimal(c.history)
    &&& balances_agree(c)
}

/// One operation with plain sums and differences, and a decimal amount if it
/// has one, keeps `sound_account`.
proof fn lemma_client_op_keeps_agreement(c: ClientView, op: ClientOp)
    requires
        sound_account(c),
        op matches ClientOp::Deposit(tx, a) ==> is_decimal(a.0, a.1 as int),
        op matches ClientOp::Withdraw(a) ==> is_decimal(a.0, a.1 as int),
        client_op_cond(c, op, plain_sum(), plain_difference()),
    ensures
        sound_account(client_op(c, op)),
{
    let c2 = client_op(c, op);
    match op {
        ClientOp::Deposit(tx, a) => {
            if !c.history.contains_key(tx) {
                lemma_plain_add_is_exact(c.available, a);
                lemma_plain_add_is_exact(c.total, a);
                lemma_disputed_sum_insert(c.history, tx, (a, TxnState::Uncontested));
            }
        },
        ClientOp::Withdraw(a) => {
            if val(c.available) >= val(a) {
                lemma_plain_sub_is_exact(c.available, a);
                lemma_plain_sub_is_exact(c.total, a);
            }
        },
        ClientOp::Dispute(tx) => {
            if in_state(c, tx, TxnState::Uncontested) {
                let a = c.history[tx].0;
                lemma_plain_sub_is_exact(c.available, a);
                lemma_plain_add_is_exact(c.held, a);
                lemma_disputed_sum_insert(c.history, tx, (a, TxnState::Disputed));
            }
        },
        ClientOp::Resolve(tx) => {
            if in_state(c, tx, TxnState::Disputed) {
                let a = c.history[tx].0;
                lemma_plain_add_is_exact(c.available, a);
                lemma_plain_sub_is_exact(c.held, a);
                lemma_disputed_sum_insert(c.history, tx, (a, TxnState::Finalized));
            }
        },
        ClientOp::Chargeback(tx) => {
            if in_state(c, tx, TxnState::Disputed) {
                let a = c.history[tx].0;
                lemma_plain_sub_is_exact(c.held, a);
                lemma_plain_sub_is_exact(c.total, a);
                lemma_disputed_sum_insert(c.history, tx, (a, TxnState::Finalized));
            }
        },
    }
    assert forall|k: u32| #[trigger] c2.history.contains_key(k) implies is_decimal(
        c2.history[k].0.0,
        c2.history[k].0.1 as int,
    ) by {
        if !c.history.contains_key(k) {
            assert(op is Deposit);
        }
    }
}

// ------------------------------------------------------------------ ledger

/// Where a record's sums and differences are plain, `rust_decimal` computes
/// them exactly, and every balance stays a decimal.
pub proof fn law_plain_step_is_exact(m: LedgerView, r: TransactionRecord)
    requires
        ledger_inv(m),
        all_balances_decimal(m),
        record_decimal(r),
        step_plain(m, r),
    ensures
        step_exact(m, r),
        all_balances_decimal(ledger_step(m, r)),
{
    if let Some(a) = r.amount {
        lemma_round_dp_is_decimal(a@.0, a@.1, LEDGER_DP as nat);
    }
    let id = r.client_id.0;
    let c = current(m, id);
    if m.contains_key(id) {
        assert(account_inv(id, m[id]));
        assert(balances_decimal(m[id]));
    } else {
        assert(c.history =~= Map::<u32, (Dec, TxnState)>::empty());
    }
    if !c.locked {
        law_plain_op_is_exact(c, r.tx_type, r.id.0, record_amount(r));
    }
    let m2 = ledger_step(m, r);
    assert forall|k: u16| #[trigger] m2.contains_key(k) implies balances_decimal(m2[k]) by {
        if k != id {
            assert(m.contains_key(k));
        }
    }
}

/// Whether every record that a run takes has plain sums and differences.
pub open spec fn run_plain(m: LedgerView, s: Seq<Result<TransactionRecord, LedgerError>>) -> bool
    decreases s.len(),
{
    if s.len() == 0 {
        true
    } else {
        match s[0] {
            Ok(r) => step_ok(m, r) ==> step_plain(m, r) && run_plain(ledger_step(m, r), s.drop_first()),
            Err(e) => match e {
                LedgerError::DeserializeTransaction { .. } => run_plain(m, s.drop_first()),
                _ => true,
            },
        }
    }
}

/// Over a whole run whose sums and differences are plain, every account of
/// the ledger that comes out has agreeing balances (available and held add
/// up to total, held is the sum of the deposits under dispute, and so is
/// never negative), all of them decimals.
pub proof fn law_plain_run_keeps_balances_agreeing(
    m: LedgerView,
    s: Seq<Result<TransactionRecord, LedgerError>>,
)
    requires
        ledger_inv(m),
        all_balances_decimal(m),
        all_balances_agree(m),
        records_decimal(s),
        run_plain(m, s),
    ensures
        run_records(m, s) matches Ok(m2) ==> {
            &&& ledger_inv(m2)
            &&& all_balances_decimal(m2)
            &&& all_balances_agree(m2)
        },
    decreases s.len(),
{
    if s.len() > 0 {
        match s[0] {
            Ok(r) => {
                assert(record_decimal(s[0]->Ok_0));
                if step_ok(m, r) {
                    law_plain_step_is_exact(m, r);
                    law_exact_step_keeps_balances_agreeing(m, r);
                    law_step_keeps_invariant(m, r);
                    law_plain_run_keeps_balances_agreeing(ledger_step(m, r), s.drop_first());
                }
            },
            Err(e) => {
                if let LedgerError::DeserializeTransaction { .. } = e {
                    law_plain_run_keeps_balances_agreeing(m, s.drop_first());
                }
            },
        }
    }
}

/// Every record keeps the ledger's invariant.
pub proof fn law_step_keeps_invariant(m: LedgerView, r: TransactionRecord)
    requires
        ledger_inv(m),
        record_decimal(r),
    ensures
        ledger_inv(ledger_step(m, r)),
{
    if let Some(a) = r.amount {
        lemma_round_dp_is_decimal(a@.0, a@.1, LEDGER_DP as nat);
    }
    let id = r.client_id.0;
    let c = current(m, id);
    if !c.locked {
        if m.contains_key(id) {
            assert(account_inv(id, m[id]));
        }
        lemma_step_keeps_account_inv(id, c, r.tx_type, r.id.0, record_amount(r));
    }
    let m2 = ledger_step(m, r);
    assert forall|k: u16| #[trigger] m2.contains_key(k) implies account_inv(k, m2[k]) by {
        if k != id {
            assert(m.contains_key(k));
        }
    }
}

/// A run over any stream of records, from a ledger that keeps its
/// invariant, ends in a ledger that keeps it too.
pub proof fn law_run_keeps_invariant(m: LedgerView, s: Seq<Result<TransactionRecord, LedgerError>>)
    requires
        ledger_inv(m),
        records_decimal(s),
    ensures
        run_records(m, s) matches Ok(m2) ==> ledger_inv(m2),
    decreases s.len(),
{
    if s.len() > 0 {
        match s[0] {
            Ok(r) => {
                assert(record_decimal(s[0]->Ok_0));
                if step_ok(m, r) {
                    law_step_keeps_invariant(m, r);
                    law_run_keeps_invariant(ledger_step(m, r), s.drop_first());
                }
            },
            Err(e) => {
                law_run_keeps_invariant(m, s.drop_first());
            },
        }
    }
}

/// Where `rust_decimal` computes the record's sums and differences exactly,
/// every account's balances keep agreeing: available and held add up to
/// total, and held is the sum of the deposits under dispute.
pub proof fn law_exact_step_keeps_balances_agreeing(m: LedgerView, r: TransactionRecord)
    requires
        ledger_inv(m),
        all_balances_agree(m),
        step_exact(m, r),
    ensures
        all_balances_agree(ledger_step(m, r)),
{
    let id = r.client_id.0;
    let c = current(m, id);
    if !c.locked {
        if m.contains_key(id) {
            assert(account_inv(id, m[id]));
            assert(balances_agree(m[id]));
        } else {
            law_new_account_balances_agree(id);
            assert(c.history.dom() =~= Set::<u32>::empty());
        }
        law_client_balances_agree(c, r.tx_type, r.id.0, record_amount(r));
    }
    let m2 = ledger_step(m, r);
    assert forall|k: u16| #[trigger] m2.contains_key(k) implies balances_agree(m2[k]) by {
        if k != id {
            assert(m.contains_key(k));
        }
    }
}

/// An account whose balances agree holds no negative amount in dispute.
pub proof fn law_held_is_never_negative(m: LedgerView, id: u16)
    requires
        ledger_inv(m),
        m.contains_key(id),
        balances_agree(m[id]),
    ensures
        val(m[id].held) == disputed_sum(m[id].history),
        val(m[id].held) >= 0,
        val(m[id].available) + val(m[id].held) == val(m[id].total),
{
    assert(account_inv(id, m[id]));
    lemma_disputed_sum_nonnegative(m[id].history);
}

/// Every account in the ledger has at least one deposit: a client appears
/// only once a deposit of theirs has gone through.
pub proof fn law_accounts_have_deposits(m: LedgerView, id: u16)
    requires
        ledger_inv(m),
        m.contains_key(id),
    ensures
        !m[id].history.is_empty(),
{
    assert(account_inv(id, m[id]));
}

/// A record that is not a deposit never brings a new client into the
/// ledger.
pub proof fn law_only_deposits_open_accounts(m: LedgerView, r: TransactionRecord)
    requires
        !m.contains_key(r.client_id.0),
        r.tx_type != TxType::Deposit,
    ensures
        ledger_step(m, r) == m,
{
    assert(current(m, r.client_id.0).history =~= Map::<u32, (Dec, TxnState)>::empty());
    assert(m.remove(r.client_id.0) =~= m);
}

/// A frozen account takes nothing: any record of its client leaves the
/// ledger as it is, and never overflows.
pub proof fn law_frozen_account_takes_nothing(m: LedgerView, r: TransactionRecord)
    requires
        m.contains_key(r.client_id.0),
        m[r.client_id.0].locked,
    ensures
        step_ok(m, r),
        ledger_step(m, r) == m,
{
}

/// A record concerns its own client only: every other account, and whether
/// the ledger holds it, stays as it was. (So a client cannot dispute another
/// client's transaction.)
pub proof fn law_records_are_client_scoped(m: LedgerView, r: TransactionRecord)
    ensures
        ledger_step(m, r).remove(r.client_id.0) == m.remove(r.client_id.0),
{
    let id = r.client_id.0;
    assert(ledger_step(m, r).remove(id) =~= m.remove(id));
}

/// A dispute, resolution or chargeback of a transaction that the client's
/// history does not hold changes nothing.
pub proof fn law_unknown_transaction_is_ignored(m: LedgerView, t: TxType, id: u16, tx: u32)
    requires
        ledger_inv(m),
        t == TxType::Dispute || t == TxType::Resolve || t == TxType::Chargeback,
        !current(m, id).history.contains_key(tx),
    ensures
        step_ok(m, claim(t, id, tx)),
        ledger_step(m, claim(t, id, tx)) == m,
{
    let c = current(m, id);
    if m.contains_key(id) {
        assert(account_inv(id, m[id]));
        assert(m.insert(id, c) =~= m);
    } else {
        assert(c.history =~= Map::<u32, (Dec, TxnState)>::empty());
        assert(m.remove(id) =~= m);
    }
}

/// A deposit whose transaction id the client's history already holds
/// changes nothing.
pub proof fn law_duplicate_deposit_is_ignored(m: LedgerView, r: TransactionRecord)
    requires
        ledger_inv(m),
        r.tx_type == TxType::Deposit,
        m.contains_key(r.client_id.0),
        m[r.client_id.0].history.contains_key(r.id.0),
    ensures
        step_ok(m, r),
        ledger_step(m, r) == m,
{
    let id = r.client_id.0;
    assert(account_inv(id, m[id]));
    assert(m.insert(id, m[id]) =~= m);
}

/// Applying the same record twice does what applying it once does, for
/// every kind but withdrawals: a deposit id is taken once, and a deposit is
/// disputed, resolved or charged back at most once.
pub proof fn law_records_apply_once(m: LedgerView, r: TransactionRecord)
    requires
        ledger_inv(m),
        record_decimal(r),
        r.tx_type != TxType::Withdrawal,
    ensures
        step_ok(ledger_step(m, r), r),
        ledger_step(ledger_step(m, r), r) == ledger_step(m, r),
{
    law_step_keeps_invariant(m, r);
    let id = r.client_id.0;
    let m1 = ledger_step(m, r);
    if m.contains_key(id) {
        assert(account_inv(id, m[id]));
    }
    if m1.contains_key(id) {
        assert(account_inv(id, m1[id]));
        assert(m1.insert(id, m1[id]) =~= m1);
    } else {
        assert(current(m1, id).history =~= Map::<u32, (Dec, TxnState)>::empty());
        assert(m1.remove(id) =~= m1);
    }
}

/// Disputes and resolutions move funds between available and held; they
/// never change the total.
pub proof fn law_disputes_keep_total(m: LedgerView, r: TransactionRecord)
    requires
        r.tx_type == TxType::Dispute || r.tx_type == TxType::Resolve,
        m.contains_key(r.client_id.0),
        ledger_inv(m),
    ensures
        ledger_step(m, r).contains_key(r.client_id.0),
        ledger_step(m, r)[r.client_id.0].total == m[r.client_id.0].total,
{
    assert(account_inv(r.client_id.0, m[r.client_id.0]));
}

/// A withdrawal never overdraws: it either changes nothing or, where
/// `rust_decimal` computes exactly, leaves the available funds at zero or
/// above and lowers available and total by the same value; held and the
/// history stay as they were (a withdrawal is never recorded, so it cannot
/// be disputed).
pub proof fn law_withdrawal_never_overdraws(m: LedgerView, r: TransactionRecord)
    requires
        r.tx_type == TxType::Withdrawal,
        m.contains_key(r.client_id.0),
        ledger_inv(m),
        step_exact(m, r),
    ensures
        ({
            let id = r.client_id.0;
            let m2 = ledger_step(m, r);
            &&& m2.contains_key(id)
            &&& m2[id].held == m[id].held
            &&& m2[id].history == m[id].history
            &&& m2[id] == m[id] || (val(m2[id].available) >= 0 && val(m2[id].available) - val(
                m[id].available,
            ) == val(m2[id].total) - val(m[id].total))
        }),
{
    assert(account_inv(r.client_id.0, m[r.client_id.0]));
}

/// Where `rust_decimal` computes exactly, a dispute followed by its
/// resolution gives the client back the values they had, closes the
/// deposit's dispute for good, and touches no other account.
pub proof fn law_resolve_undoes_dispute(m: LedgerView, id: u16, tx: u32)
    requires
        ledger_inv(m),
        m.contains_key(id),
        !m[id].locked,
        in_state(m[id], tx, TxnState::Uncontested),
        step_exact(m, claim(TxType::Dispute, id, tx)),
        step_exact(ledger_step(m, claim(TxType::Dispute, id, tx)), claim(TxType::Resolve, id, tx)),
    ensures
        ({
            let m1 = ledger_step(m, claim(TxType::Dispute, id, tx));
            let m2 = ledger_step(m1, claim(TxType::Resolve, id, tx));
            &&& m2.contains_key(id)
            &&& val(m2[id].available) == val(m[id].available)
            &&& val(m2[id].held) == val(m[id].held)
            &&& m2[id].total == m[id].total
            &&& !m2[id].locked
            &&& m2[id].history == m[id].history.insert(tx, (m[id].history[tx].0, TxnState::Finalized))
            &&& m2.remove(id) == m.remove(id)
        }),
{
    assert(account_inv(id, m[id]));
    let c = m[id];
    let m1 = ledger_step(m, claim(TxType::Dispute, id, tx));
    assert(m1[id] == dispute_view(c, tx));
    assert(in_state(m1[id], tx, TxnState::Disputed));
    law_client_resolve_undoes_dispute(c, tx);
    let m2 = ledger_step(m1, claim(TxType::Resolve, id, tx));
    assert(m2.remove(id) =~= m.remove(id));
}

/// Where `rust_decimal` computes exactly, a dispute followed by a
/// chargeback takes the deposit back out: held is as it was, available and
/// total are lower by its amount, and the account is frozen.
pub proof fn law_chargeback_reverses_deposit(m: LedgerView, id: u16, tx: u32)
    requires
        ledger_inv(m),
        m.contains_key(id),
        !m[id].locked,
        in_state(m[id], tx, TxnState::Uncontested),
        step_exact(m, claim(TxType::Dispute, id, tx)),
        step_exact(ledger_step(m, claim(TxType::Dispute, id, tx)), claim(TxType::Chargeback, id, tx)),
    ensures
        ({
            let a = m[id].history[tx].0;
            let m1 = ledger_step(m, claim(TxType::Dispute, id, tx));
            let m2 = ledger_step(m1, claim(TxType::Chargeback, id, tx));
            &&& m2.contains_key(id)
            &&& val(m2[id].available) == val(m[id].available) - val(a)
            &&& val(m2[id].held) == val(m[id].held)
            &&& val(m2[id].total) == val(m[id].total) - val(a)
            &&& m2[id].locked
            &&& m2[id].history == m[id].history.insert(tx, (a, TxnState::Finalized))
        }),
{
    assert(account_inv(id, m[id]));
    let c = m[id];
    let m1 = ledger_step(m, claim(TxType::Dispute, id, tx));
    assert(m1[id] == dispute_view(c, tx));
    assert(in_state(m1[id], tx, TxnState::Disputed));
    law_client_chargeback_reverses_deposit(c, tx);
}

// ------------------------------------------------- what each operation does

/// A deposit with a new transaction id credits the account, whatever is
/// held: available and total become `rust_decimal`'s sums with the amount,
/// which, where they are plain, are the old values plus the amount. Held and
/// the frozen flag stay; the deposit enters the history, uncontested. A
/// deposit whose id the history holds changes nothing.
pub proof fn law_deposit_credits(c: ClientView, tx: u32, a: Dec)
    requires
        balances_decimal(c),
        is_decimal(a.0, a.1 as int),
    ensures
        ({
            let c2 = deposit_view(c, tx, a);
            &&& !c.history.contains_key(tx) ==> {
                &&& c2.available == plus(c.available, a)
                &&& c2.total == plus(c.total, a)
                &&& add_is_plain(c.available, a) ==> val(c2.available) == val(c.available) + val(a)
                &&& add_is_plain(c.total, a) ==> val(c2.total) == val(c.total) + val(a)
                &&& c2.held == c.held
                &&& c2.locked == c.locked
                &&& c2.id == c.id
                &&& c2.history == c.history.insert(tx, (a, TxnState::Uncontested))
            }
            &&& c.history.contains_key(tx) ==> c2 == c
        }),
{
    if add_is_plain(c.available, a) {
        lemma_plain_add_is_exact(c.available, a);
    }
    if add_is_plain(c.total, a) {
        lemma_plain_add_is_exact(c.total, a);
    }
}

/// A withdrawal is taken exactly when enough is available, whatever is held:
/// then available and total become `rust_decimal`'s differences with the
/// amount, which, where they are plain, are the old values less the amount;
/// held, the frozen flag and the history stay. With less available than the
/// amount, nothing changes.
pub proof fn law_withdraw_debits(c: ClientView, a: Dec)
    requires
        balances_decimal(c),
        is_decimal(a.0, a.1 as int),
    ensures
        ({
            let c2 = withdraw_view(c, a);
            &&& val(c.available) >= val(a) ==> {
                &&& c2.available == minus(c.available, a)
                &&& c2.total == minus(c.total, a)
                &&& sub_is_plain(c.available, a) ==> val(c2.available) == val(c.available) - val(a)
                &&& sub_is_plain(c.total, a) ==> val(c2.total) == val(c.total) - val(a)
                &&& c2.held == c.held
                &&& c2.locked == c.locked
                &&& c2.id == c.id
                &&& c2.history == c.history
            }
            &&& val(c.available) < val(a) ==> c2 == c
        }),
{
    if sub_is_plain(c.available, a) {
        lemma_plain_sub_is_exact(c.available, a);
    }
    if sub_is_plain(c.total, a) {
        lemma_plain_sub_is_exact(c.total, a);
    }
}

/// A dispute of an uncontested deposit holds its amount, whatever else the
/// account holds: available loses it and held gains it (exactly, where the
/// difference and sum are plain), total and the frozen flag stay, and the
/// deposit becomes disputed. A dispute of anything else changes nothing.
pub proof fn law_dispute_holds(c: ClientView, tx: u32)
    requires
        balances_decimal(c),
        history_decimal(c.history),
    ensures
        ({
            let c2 = dispute_view(c, tx);
            let a = c.history[tx].0;
            &&& in_state(c, tx, TxnState::Uncontested) ==> {
                &&& c2.available == minus(c.available, a)
                &&& c2.held == plus(c.held, a)
                &&& sub_is_plain(c.available, a) ==> val(c2.available) == val(c.available) - val(a)
                &&& add_is_plain(c.held, a) ==> val(c2.held) == val(c.held) + val(a)
                &&& c2.total == c.total
                &&& c2.locked == c.locked
                &&& c2.id == c.id
                &&& c2.history == c.history.insert(tx, (a, TxnState::Disputed))
            }
            &&& !in_state(c, tx, TxnState::Uncontested) ==> c2 == c
        }),
{
    if in_state(c, tx, TxnState::Uncontested) {
        let a = c.history[tx].0;
        if sub_is_plain(c.available, a) {
            lemma_plain_sub_is_exact(c.available, a);
        }
        if add_is_plain(c.held, a) {
            lemma_plain_add_is_exact(c.held, a);
        }
    }
}

/// A resolution of a disputed deposit releases its amount: held loses it
/// and available gains it (exactly, where plain), total and the frozen flag
/// stay, and the dispute is over for good. A resolution of anything else
/// changes nothing.
pub proof fn law_resolve_releases(c: ClientView, tx: u32)
    requires
        balances_decimal(c),
        history_decimal(c.history),
    ensures
        ({
            let c2 = resolve_view(c, tx);
            let a = c.history[tx].0;
            &&& in_state(c, tx, TxnState::Disputed) ==> {
                &&& c2.available == plus(c.available, a)
                &&& c2.held == minus(c.held, a)
                &&& add_is_plain(c.available, a) ==> val(c2.available) == val(c.available) + val(a)
                &&& sub_is_plain(c.held, a) ==> val(c2.held) == val(c.held) - val(a)
                &&& c2.total == c.total
                &&& c2.locked == c.locked
                &&& c2.id == c.id
                &&& c2.history == c.history.insert(tx, (a, TxnState::Finalized))
            }
            &&& !in_state(c, tx, TxnState::Disputed) ==> c2 == c
        }),
{
    if in_state(c, tx, TxnState::Disputed) {
        let a = c.history[tx].0;
        if add_is_plain(c.available, a) {
            lemma_plain_add_is_exact(c.available, a);
        }
        if sub_is_plain(c.held, a) {
            lemma_plain_sub_is_exact(c.held, a);
        }
    }
}

/// A chargeback of a disputed deposit takes its amount out of held and
/// total (exactly, where plain), leaves available, freezes the account, and
/// ends the dispute for good. A chargeback of anything else changes nothing.
pub proof fn law_chargeback_withdraws_held(c: ClientView, tx: u32)
    requires
        balances_decimal(c),
        history_decimal(c.history),
    ensures
        ({
            let c2 = chargeback_view(c, tx);
            let a = c.history[tx].0;
            &&& in_state(c, tx, TxnState::Disputed) ==> {
                &&& c2.held == minus(c.held, a)
                &&& c2.total == minus(c.total, a)
                &&& sub_is_plain(c.held, a) ==> val(c2.held) == val(c.held) - val(a)
                &&& sub_is_plain(c.total, a) ==> val(c2.total) == val(c.total) - val(a)
                &&& c2.available == c.available
                &&& c2.locked
                &&& c2.id == c.id
                &&& c2.history == c.history.insert(tx, (a, TxnState::Finalized))
            }
            &&& !in_state(c, tx, TxnState::Disputed) ==> c2 == c
        }),
{
    if in_state(c, tx, TxnState::Disputed) {
        let a = c.history[tx].0;
        if sub_is_plain(c.held, a) {
            lemma_plain_sub_is_exact(c.held, a);
        }
        if sub_is_plain(c.total, a) {
            lemma_plain_sub_is_exact(c.total, a);
        }
    }
}

/// In the ledger, a deposit record of positive (rounded) amount with a new
/// transaction id, for a client whose account is not frozen, credits that
/// account, whatever it holds: where the sums are plain, available and total
/// grow by the amount; held stays; the deposit enters the history; the
/// account is in the ledger afterwards (a new client included); no other
/// account changes.
pub proof fn law_deposit_record_credits(m: LedgerView, r: TransactionRecord)
    requires
        all_balances_decimal(m),
        record_decimal(r),
        r.tx_type == TxType::Deposit,
        r.amount is Some,
        !current(m, r.client_id.0).locked,
        val(record_amount(r).unwrap()) > 0,
        !current(m, r.client_id.0).history.contains_key(r.id.0),
        add_is_plain(current(m, r.client_id.0).available, record_amount(r).unwrap()),
        add_is_plain(current(m, r.client_id.0).total, record_amount(r).unwrap()),
    ensures
        ({
            let id = r.client_id.0;
            let c = current(m, id);
            let a = record_amount(r).unwrap();
            let m2 = ledger_step(m, r);
            &&& m2.contains_key(id)
            &&& val(m2[id].available) == val(c.available) + val(a)
            &&& val(m2[id].total) == val(c.total) + val(a)
            &&& m2[id].held == c.held
            &&& !m2[id].locked
            &&& m2[id].history == c.history.insert(r.id.0, (a, TxnState::Uncontested))
            &&& m2.remove(id) == m.remove(id)
        }),
{
    let id = r.client_id.0;
    let c = current(m, id);
    let a = record_amount(r).unwrap();
    let am = r.amount.unwrap();
    lemma_round_dp_is_decimal(am@.0, am@.1, LEDGER_DP as nat);
    if !m.contains_key(id) {
        assert(val((0, 0)) == 0) by (nonlinear_arith);
    }
    assert(balances_decimal(c));
    law_deposit_credits(c, r.id.0, a);
    let c2 = deposit_view(c, r.id.0, a);
    assert(c2.history.contains_key(r.id.0));
    assert(!c2.history.is_empty());
    assert(ledger_step(m, r).remove(id) =~= m.remove(id));
}

/// In the ledger, a withdrawal record of positive (rounded) amount from an
/// account that is not frozen is taken exactly when enough is available,
/// whatever is held: where the differences are plain, available and total
/// shrink by the amount, and held and the history stay; with less available
/// than the amount the ledger is unchanged.
pub proof fn law_withdrawal_record_debits(m: LedgerView, r: TransactionRecord)
    requires
        ledger_inv(m),
        all_balances_decimal(m),
        record_decimal(r),
        r.tx_type == TxType::Withdrawal,
        r.amount is Some,
        m.contains_key(r.client_id.0),
        !m[r.client_id.0].locked,
        val(record_amount(r).unwrap()) > 0,
        sub_is_plain(m[r.client_id.0].available, record_amount(r).unwrap()),
        sub_is_plain(m[r.client_id.0].total, record_amount(r).unwrap()),
    ensures
        ({
            let id = r.client_id.0;
            let c = m[id];
            let a = record_amount(r).unwrap();
            let m2 = ledger_step(m, r);
            &&& val(c.available) >= val(a) ==> {
                &&& m2.contains_key(id)
                &&& val(m2[id].available) == val(c.available) - val(a)
                &&& val(m2[id].total) == val(c.total) - val(a)
                &&& m2[id].held == c.held
                &&& !m2[id].locked
                &&& m2[id].history == c.history
                &&& m2.remove(id) == m.remove(id)
            }
            &&& val(c.available) < val(a) ==> m2 == m
        }),
{
    let id = r.client_id.0;
    let c = m[id];
    let a = record_amount(r).unwrap();
    let am = r.amount.unwrap();
    lemma_round_dp_is_decimal(am@.0, am@.1, LEDGER_DP as nat);
    assert(account_inv(id, c));
    law_withdraw_debits(c, a);
    assert(ledger_step(m, r).remove(id) =~= m.remove(id));
    if val(c.available) < val(a) {
        assert(m.insert(id, c) =~= m);
    }
}

// ------------------------------------------------------------------- runs

/// A run over no records gives back the ledger it started from.
pub proof fn law_run_of_nothing(m: LedgerView)
    ensures
        run_records(m, Seq::empty()) == Ok::<LedgerView, LedgerError>(m),
{
}

/// A run is the record-by-record fold of `ledger_step`: running `s` and then
/// one more record gives what that record does to the ledger that `s` left
/// (a record that could not be read is skipped; any other error, or a
/// record that would overflow, ends the run with that error, and an ended
/// run stays ended).
pub proof fn law_run_extends(m: LedgerView, s: Seq<Result<TransactionRecord, LedgerError>>, x: Result<TransactionRecord, LedgerError>)
    ensures
        run_records(m, s.push(x)) == match run_records(m, s) {
            Err(e) => Err(e),
            Ok(m1) => match x {
                Ok(r) => if step_ok(m1, r) {
                    Ok(ledger_step(m1, r))
                } else {
                    Err(LedgerError::AmountOverflow { client: r.client_id, tx: r.id })
                },
                Err(e) => match e {
                    LedgerError::DeserializeTransaction { .. } => Ok(m1),
                    _ => Err(e),
                },
            },
        },
    decreases s.len(),
{
    if s.len() == 0 {
        let e = Seq::<Result<TransactionRecord, LedgerError>>::empty();
        assert(s.push(x).drop_first() =~= e);
        assert(s.push(x)[0] == x);
        assert(run_records(m, s) == Ok::<LedgerView, LedgerError>(m));
        match x {
            Ok(r) => {
                law_run_of_nothing(ledger_step(m, r));
            },
            Err(_) => {
                law_run_of_nothing(m);
            },
        }
    } else {
        assert(s.push(x)[0] == s[0]);
        assert(s.push(x).drop_first() =~= s.drop_first().push(x));
        match s[0] {
            Ok(r) => {
                if step_ok(m, r) {
                    law_run_extends(ledger_step(m, r), s.drop_first(), x);
                }
            },
            Err(e) => {
                if let LedgerError::DeserializeTransaction { .. } = e {
                    law_run_extends(m, s.drop_first(), x);
                }
            },
        }
    }
}

/// Every account the ledger holds has a deposit.
pub open spec fn accounts_have_deposits(m: LedgerView) -> bool {
    forall|id: u16| #[trigger] m.contains_key(id) ==> !m[id].history.is_empty()
}

/// No record removes an account from the ledger, and a frozen account comes
/// out of any record exactly as it was.
pub proof fn law_step_keeps_accounts(m: LedgerView, r: TransactionRecord)
    requires
        accounts_have_deposits(m),
    ensures
        accounts_have_deposits(ledger_step(m, r)),
        forall|id: u16| #[trigger] m.contains_key(id) ==> ledger_step(m, r).contains_key(id),
        forall|id: u16| #[trigger] m.contains_key(id) && m[id].locked ==> ledger_step(m, r)[id] == m[id],
{
    let id = r.client_id.0;
    let c = current(m, id);
    let m2 = ledger_step(m, r);
    if m.contains_key(id) {
        assert(!c.history.is_empty());
        law_client_history_grows(c, r.tx_type, r.id.0, record_amount(r));
    }
    assert forall|k: u16| #[trigger] m2.contains_key(k) implies !m2[k].history.is_empty() by {
        if k != id {
            assert(m.contains_key(k));
        }
    }
}

/// Over a whole run, no account leaves the ledger, and a frozen account
/// comes out exactly as it went in: a client whose deposit was charged back
/// is still written out, frozen.
pub proof fn law_run_keeps_accounts(m: LedgerView, s: Seq<Result<TransactionRecord, LedgerError>>)
    requires
        accounts_have_deposits(m),
    ensures
        run_records(m, s) matches Ok(m2) ==> {
            &&& accounts_have_deposits(m2)
            &&& forall|id: u16| #[trigger] m.contains_key(id) ==> m2.contains_key(id)
            &&& forall|id: u16| #[trigger] m.contains_key(id) && m[id].locked ==> m2[id] == m[id]
        },
    decreases s.len(),
{
    if s.len() > 0 {
        match s[0] {
            Ok(r) => {
                if step_ok(m, r) {
                    let m1 = ledger_step(m, r);
                    law_step_keeps_accounts(m, r);
                    law_run_keeps_accounts(m1, s.drop_first());
                    if let Ok(m2) = run_records(m, s) {
                        assert forall|id: u16| #[trigger] m.contains_key(id) implies m2.contains_key(id) by {
                            assert(m1.contains_key(id));
                        }
                        assert forall|id: u16| #[trigger] m.contains_key(id) && m[id].locked implies m2[id] == m[id] by {
                            assert(m1.contains_key(id));
                            assert(m1[id] == m[id]);
                        }
                    }
                }
            },
            Err(e) => {
                law_run_keeps_accounts(m, s.drop_first());
            },
        }
    }
}

// ------------------------------------------------------------ written rows

/// What is written for an account reads back as its balances: each balance's
/// text is a decimal numeral, and read as one it is the balance with the trailing zeros
/// of its fraction dropped, which has the same value. (Every account of a
/// `Ledger` has decimal balances: its type invariant says so.)
pub proof fn law_written_balances_read_back(c: ClientView)
    requires
        balances_decimal(c),
    ensures
        is_numeral(account_row(c).available),
        is_numeral(account_row(c).held),
        is_numeral(account_row(c).total),
        numeral_value(account_row(c).available) == spec_normalize(c.available.0, c.available.1),
        numeral_value(account_row(c).held) == spec_normalize(c.held.0, c.held.1),
        numeral_value(account_row(c).total) == spec_normalize(c.total.0, c.total.1),
        val(numeral_value(account_row(c).available)) == val(c.available),
        val(numeral_value(account_row(c).held)) == val(c.held),
        val(numeral_value(account_row(c).total)) == val(c.total),
        account_row(c).client == c.id,
        account_row(c).locked == c.locked,
{
    let a = spec_normalize(c.available.0, c.available.1);
    let h = spec_normalize(c.held.0, c.held.1);
    let t = spec_normalize(c.total.0, c.total.1);
    lemma_decimal_text_reads_back(a.0, a.1);
    lemma_decimal_text_reads_back(h.0, h.1);
    lemma_decimal_text_reads_back(t.0, t.1);
    lemma_normalize_keeps_value(c.available.0, c.available.1);
    lemma_normalize_keeps_value(c.held.0, c.held.1);
    lemma_normalize_keeps_value(c.total.0, c.total.1);
}

} // verus!
