//! Transactions: their kinds, their identifiers, the records that the
//! ledger reads, and the states that a deposit goes through under dispute.
use crate::amount::Amount;
use crate::client::ClientId;
use vstd::prelude::*;

verus! {

/// Where a deposit stands in the dispute workflow: it may be disputed once,
/// and a dispute ends once, by a resolution or a chargeback.
#[derive(Clone, Copy, Debug, PartialEq, Eq, Structural)]
pub enum TxnState {
    Uncontested,
    Disputed,
    Finalized,
}

/// The kind of a transaction record.
#[derive(Clone, Copy, Debug, PartialEq, Eq, Structural)]
pub enum TxType {
    Deposit,
    Withdrawal,
    Dispute,
    Resolve,
    Chargeback,
}

/// A transaction identifier (globally unique per the input's promise; the
/// ledger scopes it to the client that made it).
#[derive(Clone, Copy, Debug, Hash, PartialEq, Eq, Structural)]
pub struct TransactionId(pub u32);

/// One row of the input: what happened, to which client, with which
/// transaction id, and with which amount if the row carries one.
#[derive(Clone, Copy, Debug)]
pub struct TransactionRecord {
    pub tx_type: TxType,
    pub id: TransactionId,
    pub client_id: ClientId,
    pub amount: Option<Amount>,
}

} // verus!
