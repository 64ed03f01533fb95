//! The ways in which building a ledger can fail.
use crate::client::ClientId;
use crate::transaction::TransactionId;
use vstd::prelude::*;

verus! {

#[verifier::external_type_specification]
#[verifier::external_body]
pub struct ExCsvError(csv::Error);

#[verifier::external_type_specification]
#[verifier::external_body]
pub struct ExIoError(std::io::Error);

/// An error of the engine. The outside errors are carried as they came.
#[derive(Debug)]
pub enum LedgerError {
    /// The program was not given exactly one input path.
    InvalidArguments { program: String },
    /// A record could not be read as a transaction; such a record is
    /// skipped.
    DeserializeTransaction { source: csv::Error },
    /// The CSV reader or writer failed.
    Csv(csv::Error),
    /// Reading or writing failed.
    Io(std::io::Error),
    /// The record would overflow a balance of its client: a sum or a
    /// difference beyond what a decimal holds (where the `+=` or `-=` of a
    /// balance panics).
    AmountOverflow { client: ClientId, tx: TransactionId },
}

} // verus!
