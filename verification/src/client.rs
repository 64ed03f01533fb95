//! A client's asset account: its balances, whether it is frozen, and the
//! history of its deposits, which disputes refer back to. Balances are
//! decimals; every sum and difference is `rust_decimal`'s.
use crate::amount::{add_ok, is_decimal, minus, plus, sub_ok, trimmed_text, val, Amount, Dec};
use crate::fnv_map::{map_contains_key, map_get, map_insert, FnvMap};
use crate::transaction::{TransactionId, TxnState};
use vstd::prelude::*;

verus! {

/// A client identifier.
#[derive(Clone, Copy, Debug, Hash, PartialEq, Eq, Structural)]
pub struct ClientId(pub u16);

/// A history as mathematical values: each deposit's transaction id to its
/// amount and its state.
pub type History = Map<u32, (Dec, TxnState)>;

/// A client's account as a mathematical value.
pub struct ClientView {
    pub id: u16,
    pub available: Dec,
    pub held: Dec,
    pub total: Dec,
    pub locked: bool,
    pub history: History,
}

/// A new account: nothing in it, not frozen, no history.
pub open spec fn new_view(id: u16) -> ClientView {
    ClientView {
        id,
        available: (0, 0),
        held: (0, 0),
        total: (0, 0),
        locked: false,
        history: Map::empty(),
    }
}

/// Whether the deposit `tx` is in the history in the state `st`.
pub open spec fn in_state(c: ClientView, tx: u32, st: TxnState) -> bool {
    c.history.contains_key(tx) && c.history[tx].1 == st
}

/// A deposit credits the account: available and total grow by the amount,
/// and the deposit enters the history, uncontested. A transaction id that
/// the history already holds is ignored.
pub open spec fn deposit_view(c: ClientView, tx: u32, amount: Dec) -> ClientView {
    if c.history.contains_key(tx) {
        c
    } else {
        ClientView {
            available: plus(c.available, amount),
            total: plus(c.total, amount),
            history: c.history.insert(tx, (amount, TxnState::Uncontested)),
            ..c
        }
    }
}

/// A withdrawal debits the account when enough is available: available and
/// total shrink by the amount. Otherwise nothing changes.
pub open spec fn withdraw_view(c: ClientView, amount: Dec) -> ClientView {
    if val(c.available) >= val(amount) {
        ClientView { available: minus(c.available, amount), total: minus(c.total, amount), ..c }
    } else {
        c
    }
}

/// A dispute of an uncontested deposit holds its amount: available shrinks
/// and held grows by it, total stays. Anything else is ignored.
pub open spec fn dispute_view(c: ClientView, tx: u32) -> ClientView {
    if in_state(c, tx, TxnState::Uncontested) {
        let amount = c.history[tx].0;
        ClientView {
            available: minus(c.available, amount),
            held: plus(c.held, amount),
            history: c.history.insert(tx, (amount, TxnState::Disputed)),
            ..c
        }
    } else {
        c
    }
}

/// A resolution of a disputed deposit releases its amount: held shrinks and
/// available grows by it, total stays, and the dispute is over. Anything
/// else is ignored.
pub open spec fn resolve_view(c: ClientView, tx: u32) -> ClientView {
    if in_state(c, tx, TxnState::Disputed) {
        let amount = c.history[tx].0;
        ClientView {
            available: plus(c.available, amount),
            held: minus(c.held, amount),
            history: c.history.insert(tx, (amount, TxnState::Finalized)),
            ..c
        }
    } else {
        c
    }
}

/// A chargeback of a disputed deposit withdraws the held amount: held and
/// total shrink by it, the account is frozen, and the dispute is over.
/// Anything else is ignored.
pub open spec fn chargeback_view(c: ClientView, tx: u32) -> ClientView {
    if in_state(c, tx, TxnState::Disputed) {
        let amount = c.history[tx].0;
        ClientView {
            held: minus(c.held, amount),
            total: minus(c.total, amount),
            locked: true,
            history: c.history.insert(tx, (amount, TxnState::Finalized)),
            ..c
        }
    } else {
        c
    }
}

/// Whether the sums and differences of a deposit satisfy `add` (a property
/// of a sum's operands, such as "does not overflow" or "is exact").
pub open spec fn deposit_cond(
    c: ClientView,
    tx: u32,
    amount: Dec,
    on_sum: spec_fn(Dec, Dec) -> bool,
) -> bool {
    !c.history.contains_key(tx) ==> on_sum(c.available, amount) && on_sum(c.total, amount)
}

/// Whether the differences of a withdrawal satisfy `sub`.
pub open spec fn withdraw_cond(c: ClientView, amount: Dec, on_diff: spec_fn(Dec, Dec) -> bool) -> bool {
    val(c.available) >= val(amount) ==> on_diff(c.available, amount) && on_diff(c.total, amount)
}

/// Whether the sums and differences of a dispute satisfy `add` and `sub`.
pub open spec fn dispute_cond(
    c: ClientView,
    tx: u32,
    on_sum: spec_fn(Dec, Dec) -> bool,
    on_diff: spec_fn(Dec, Dec) -> bool,
) -> bool {
    in_state(c, tx, TxnState::Uncontested) ==> on_diff(c.available, c.history[tx].0) && on_sum(
        c.held,
        c.history[tx].0,
    )
}

/// Whether the sums and differences of a resolution satisfy `add` and
/// `sub`.
pub open spec fn resolve_cond(
    c: ClientView,
    tx: u32,
    on_sum: spec_fn(Dec, Dec) -> bool,
    on_diff: spec_fn(Dec, Dec) -> bool,
) -> bool {
    in_state(c, tx, TxnState::Disputed) ==> on_sum(c.available, c.history[tx].0) && on_diff(
        c.held,
        c.history[tx].0,
    )
}

/// Whether the differences of a chargeback satisfy `sub`.
pub open spec fn chargeback_cond(c: ClientView, tx: u32, on_diff: spec_fn(Dec, Dec) -> bool) -> bool {
    in_state(c, tx, TxnState::Disputed) ==> on_diff(c.held, c.history[tx].0) && on_diff(
        c.total,
        c.history[tx].0,
    )
}

/// "Does not overflow", for a sum.
pub open spec fn no_add_overflow() -> spec_fn(Dec, Dec) -> bool {
    |a: Dec, b: Dec| add_ok(a, b)
}

/// "Does not overflow", for a difference.
pub open spec fn no_sub_overflow() -> spec_fn(Dec, Dec) -> bool {
    |a: Dec, b: Dec| sub_ok(a, b)
}

/// "Is exact", for a sum.
pub open spec fn exact_add() -> spec_fn(Dec, Dec) -> bool {
    |a: Dec, b: Dec| crate::amount::add_exact(a, b)
}

/// "Is exact", for a difference.
pub open spec fn exact_sub() -> spec_fn(Dec, Dec) -> bool {
    |a: Dec, b: Dec| crate::amount::sub_exact(a, b)
}

/// "Is plain" (an operand is zero, or the sum fits in a mantissa at the
/// larger scale), for a sum.
pub open spec fn plain_sum() -> spec_fn(Dec, Dec) -> bool {
    |a: Dec, b: Dec| crate::amount::add_is_plain(a, b)
}

/// "Is plain", for a difference.
pub open spec fn plain_difference() -> spec_fn(Dec, Dec) -> bool {
    |a: Dec, b: Dec| crate::amount::sub_is_plain(a, b)
}

/// Whether the balances of `c` are decimals that `rust_decimal` can hold.
pub open spec fn balances_decimal(c: ClientView) -> bool {
    &&& is_decimal(c.available.0, c.available.1 as int)
    &&& is_decimal(c.held.0, c.held.1 as int)
    &&& is_decimal(c.total.0, c.total.1 as int)
}

/// Whether every amount in the history is a decimal.
pub open spec fn history_decimal(h: History) -> bool {
    forall|tx: u32| #[trigger] h.contains_key(tx) ==> is_decimal(h[tx].0.0, h[tx].0.1 as int)
}

/// A client's account.
pub struct Client {
    id: ClientId,
    available: Amount,
    held: Amount,
    total: Amount,
    locked: bool,
    movement_history: FnvMap<u32, (Amount, TxnState)>,
}

/// The history of deposits as mathematical values.
pub open spec fn history_view(h: Map<u32, (Amount, TxnState)>) -> History {
    h.map_values(|e: (Amount, TxnState)| (e.0@, e.1))
}

impl View for Client {
    type V = ClientView;

    closed spec fn view(&self) -> ClientView {
        ClientView {
            id: self.id.0,
            available: self.available@,
            held: self.held@,
            total: self.total@,
            locked: self.locked,
            history: history_view(self.movement_history@),
        }
    }
}

/// `a + b`, where it is known not to overflow.
fn sum_of(a: &Amount, b: &Amount) -> (r: Amount)
    requires
        add_ok(a@, b@),
    ensures
        r@ == plus(a@, b@),
{
    match a.checked_add(b) {
        Some(s) => s,
        None => *a,
    }
}

/// `a - b`, where it is known not to overflow.
fn difference_of(a: &Amount, b: &Amount) -> (r: Amount)
    requires
        sub_ok(a@, b@),
    ensures
        r@ == minus(a@, b@),
{
    match a.checked_sub(b) {
        Some(s) => s,
        None => *a,
    }
}

impl Client {
    /// The balances are decimals (each is an `Amount`).
    fn balances_are_decimal(&self)
        ensures
            balances_decimal(self@),
    {
        proof {
            use_type_invariant(&self.available);
            use_type_invariant(&self.held);
            use_type_invariant(&self.total);
        }
    }

    /// A new, empty account for the client `id`.
    pub fn new(id: ClientId) -> (c: Self)
        ensures
            c@ == new_view(id.0),
            balances_decimal(c@),
    {
        let c = Client {
            id,
            available: Amount::zero(),
            held: Amount::zero(),
            total: Amount::zero(),
            locked: false,
            movement_history: FnvMap::default(),
        };
        assert(c@.history =~= Map::<u32, (Dec, TxnState)>::empty());
        c.balances_are_decimal();
        c
    }

    /// A deposit is a credit to the client's asset account: available and
    /// total funds grow by `amount`. A transaction id that the account has
    /// seen before is ignored. (Where a sum would overflow a decimal, the
    /// `+=` of the balance panics; such an input is left out.)
    pub fn deposit(&mut self, txn_id: TransactionId, amount: Amount)
        requires
            deposit_cond(old(self)@, txn_id.0, amount@, no_add_overflow()),
        ensures
            final(self)@ == deposit_view(old(self)@, txn_id.0, amount@),
            balances_decimal(final(self)@),
    {
        if map_contains_key(&self.movement_history, &txn_id.0) {
            // Ignore duplicate transaction IDs
            self.balances_are_decimal();
            return;
        }
        let ghost h = self.movement_history@;
        let _ = map_insert(&mut self.movement_history, txn_id.0, (amount, TxnState::Uncontested));
        assert(history_view(self.movement_history@) =~= history_view(h).insert(
            txn_id.0,
            (amount@, TxnState::Uncontested),
        ));
        self.available = sum_of(&self.available, &amount);
        self.total = sum_of(&self.total, &amount);
        self.balances_are_decimal();
    }

    /// A withdrawal is a debit to the client's asset account: available and
    /// total funds shrink by `amount`, if that much is available.
    pub fn withdraw(&mut self, amount: Amount)
        requires
            withdraw_cond(old(self)@, amount@, no_sub_overflow()),
        ensures
            final(self)@ == withdraw_view(old(self)@, amount@),
            balances_decimal(final(self)@),
    {
        if self.available.ge(&amount) {
            self.available = difference_of(&self.available, &amount);
            self.total = difference_of(&self.total, &amount);
        }
        self.balances_are_decimal();
    }

    /// The deposit `tx`, copied out of the history.
    pub(crate) fn history_entry(&self, tx: u32) -> (r: Option<(Amount, TxnState)>)
        ensures
            r is None <==> !self@.history.contains_key(tx),
            r matches Some(e) ==> self@.history.contains_key(tx) && self@.history[tx] == (e.0@, e.1),
    {
        match map_get(&self.movement_history, &tx) {
            Some(e) => Some(*e),
            None => None,
        }
    }

    /// Sets the state of the deposit `tx`, which the history holds.
    fn set_state(&mut self, tx: u32, amount: Amount, state: TxnState)
        requires
            old(self)@.history.contains_key(tx),
            old(self)@.history[tx].0 == amount@,
        ensures
            final(self)@ == (ClientView {
                history: old(self)@.history.insert(tx, (amount@, state)),
                ..old(self)@
            }),
    {
        let ghost h = self.movement_history@;
        let _ = map_insert(&mut self.movement_history, tx, (amount, state));
        assert(history_view(self.movement_history@) =~= history_view(h).insert(tx, (amount@, state)));
    }

    /// A dispute claims that a deposit was erroneous. Its funds are held:
    /// available shrinks and held grows by the amount disputed, total stays.
    /// A transaction that is unknown, or not uncontested, is ignored.
    pub fn dispute(&mut self, transaction_id: TransactionId)
        requires
            dispute_cond(old(self)@, transaction_id.0, no_add_overflow(), no_sub_overflow()),
        ensures
            final(self)@ == dispute_view(old(self)@, transaction_id.0),
            balances_decimal(final(self)@),
    {
        let tx: u32 = transaction_id.0;
        // Ignore other states or an invalid txn_id. Can't dispute a transaction twice.
        if let Some(entry) = self.history_entry(tx) {
            let amount: Amount = entry.0;
            if let TxnState::Uncontested = entry.1 {
                self.available = difference_of(&self.available, &amount);
                self.held = sum_of(&self.held, &amount);
                self.set_state(tx, amount, TxnState::Disputed);
            }
        }
        self.balances_are_decimal();
    }

    /// A resolution ends a dispute by releasing the held funds: held shrinks
    /// and available grows by the amount disputed, total stays. A
    /// transaction that is unknown, or not disputed, is ignored.
    pub fn resolve(&mut self, transaction_id: TransactionId)
        requires
            resolve_cond(old(self)@, transaction_id.0, no_add_overflow(), no_sub_overflow()),
        ensures
            final(self)@ == resolve_view(old(self)@, transaction_id.0),
            balances_decimal(final(self)@),
    {
        let tx: u32 = transaction_id.0;
        // Ignore other states or an invalid txn_id. Can't resolve an uncontested or finalized transaction.
        if let Some(entry) = self.history_entry(tx) {
            let amount: Amount = entry.0;
            if let TxnState::Disputed = entry.1 {
                self.held = difference_of(&self.held, &amount);
                self.available = sum_of(&self.available, &amount);
                self.set_state(tx, amount, TxnState::Finalized);
            }
        }
        self.balances_are_decimal();
    }

    /// A chargeback ends a dispute by reversing the deposit: held and total
    /// shrink by the amount disputed, and the account is frozen. A
    /// transaction that is unknown, or not disputed, is ignored.
    pub fn chargeback(&mut self, transaction_id: TransactionId)
        requires
            chargeback_cond(old(self)@, transaction_id.0, no_sub_overflow()),
        ensures
            final(self)@ == chargeback_view(old(self)@, transaction_id.0),
            balances_decimal(final(self)@),
    {
        let tx: u32 = transaction_id.0;
        // Ignore other states or an invalid txn_id. Can't chargeback an uncontested or finalized transaction.
        if let Some(entry) = self.history_entry(tx) {
            let amount: Amount = entry.0;
            if let TxnState::Disputed = entry.1 {
                self.held = difference_of(&self.held, &amount);
                self.total = difference_of(&self.total, &amount);
                self.locked = true;
                self.set_state(tx, amount, TxnState::Finalized);
            }
        }
        self.balances_are_decimal();
    }

    /// Whether the client is locked (frozen) by a chargeback. A locked
    /// client takes no further transactions.
    pub fn locked(&self) -> (b: bool)
        ensures
            b == self@.locked,
    {
        self.locked
    }

    /// Whether the client has no deposits.
    pub fn has_no_deposits(&self) -> (b: bool)
        ensures
            b == self@.history.is_empty(),
    {
        let b = self.movement_history.is_empty();
        assert(history_view(self.movement_history@).dom() =~= self.movement_history@.dom());
        b
    }

    /// The client's identifier.
    pub fn id(&self) -> (id: ClientId)
        ensures
            id.0 == self@.id,
    {
        self.id
    }

    /// Available funds.
    pub fn available(&self) -> (a: Amount)
        ensures
            a@ == self@.available,
            balances_decimal(self@),
    {
        self.balances_are_decimal();
        self.available
    }

    /// Held funds.
    pub fn held(&self) -> (h: Amount)
        ensures
            h@ == self@.held,
    {
        self.held
    }

    /// Total funds.
    pub fn total(&self) -> (t: Amount)
        ensures
            t@ == self@.total,
    {
        self.total
    }
}

/// The text in which a balance is written out: the decimal with its
/// trailing zeros trimmed (`rust_decimal`'s `normalize`, then its
/// `Display`).
pub fn serialize(d: &Amount) -> (text: String)
    ensures
        text@ == trimmed_text(d@),
{
    // trim trailing zeros before serializing.
    let n = d.normalize();
    n.to_text()
}

} // verus!
