use vstd::prelude::*;
use crate::model::Digest;

verus! {

/// The conditions that stop the indexer: each means a bug or a corrupt feed.
pub enum IndexerError {
    /// A second header at a height carried a different hash.
    HeaderMismatch { height: u64 },
    /// A receipt already mapped to one transaction was mapped to another.
    ReceiptRemapped { receipt_id: Digest },
    /// A data id already pooled was given for a different receipt.
    DataReceiptRemapped { data_id: Digest },
    /// An executed receipt has no owning transaction, outside skip mode.
    MissingTransactionForReceipt { receipt_id: Digest },
    /// An executed receipt needs a data receipt that never arrived, outside skip mode.
    MissingDataReceipt { data_id: Digest },
    /// The receipt index pointed at a transaction that is not held.
    MissingTransaction { tx_hash: Digest },
    /// A data receipt appeared where an executed receipt belongs.
    DataReceiptExecuted { receipt_id: Digest },
    /// A watch-list entry marked as a pattern does not compile.
    InvalidWatchListPattern { pattern: String },
}

} // verus!
