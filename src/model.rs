use vstd::prelude::*;

verus! {

/// A 32-byte digest (block, transaction, receipt or data id), as four
/// big-endian 64-bit words.
pub type Digest = (u64, u64, u64, u64);

#[derive(Clone, Copy)]
pub struct BlockHeader {
    pub height: u64,
    pub hash: Digest,
    pub timestamp: u64,
}

/// An action of an action receipt: only function calls carry anything the
/// indexer reads (their argument blob).
pub enum Action {
    FunctionCall { args: Vec<u8> },
    Other,
}

pub enum ReceiptKind {
    Action { actions: Vec<Action>, input_data_ids: Vec<Digest> },
    Data { data_id: Digest },
}

/// A receipt; `json` is its full document as the feed gave it.
pub struct Receipt {
    pub receipt_id: Digest,
    pub receiver_id: String,
    pub kind: ReceiptKind,
    pub json: String,
}

/// An execution outcome, already stripped of its proof and gas profile;
/// `json` is its full document.
pub struct ExecutionOutcome {
    pub receipt_ids: Vec<Digest>,
    pub logs: Vec<String>,
    pub json: String,
}

/// A signed transaction: the indexer reads its hash and signer and carries
/// the rest through as `json`.
pub struct SignedTransaction {
    pub hash: Digest,
    pub signer_id: String,
    pub json: String,
}

pub struct TransactionWithOutcome {
    pub transaction: SignedTransaction,
    pub outcome: ExecutionOutcome,
}

pub struct OutcomeWithReceipt {
    pub receipt: Receipt,
    pub execution_outcome: ExecutionOutcome,
}

pub struct Chunk {
    pub transactions: Vec<TransactionWithOutcome>,
    pub receipts: Vec<Receipt>,
}

pub struct Shard {
    pub chunk: Option<Chunk>,
    pub receipt_execution_outcomes: Vec<OutcomeWithReceipt>,
}

pub struct Block {
    pub header: BlockHeader,
    pub shards: Vec<Shard>,
}

/// Everything known of a transaction so far: the signed transaction, its
/// own outcome, the executed receipts and the data receipts they consumed.
pub struct TransactionView {
    pub transaction: SignedTransaction,
    pub execution_outcome: ExecutionOutcome,
    pub receipts: Vec<OutcomeWithReceipt>,
    pub data_receipts: Vec<Receipt>,
}

/// A transaction whose tree of receipts has not fully executed yet.
pub struct PendingTransaction {
    pub tx_block_height: u64,
    pub tx_block_hash: Digest,
    pub tx_block_timestamp: u64,
    pub blocks: Vec<u64>,
    pub transaction: TransactionView,
    pub pending_receipt_ids: Vec<Digest>,
}

impl PendingTransaction {
    pub fn transaction_hash(&self) -> (r: Digest)
        ensures
            r == self.transaction.transaction.hash,
    {
        self.transaction.transaction.hash
    }
}

pub struct WatchListEntry {
    pub account_id: String,
    pub is_regex: bool,
}

impl WatchListEntry {
    pub fn from_pair(value: (String, bool)) -> (r: WatchListEntry)
        ensures
            r.account_id == value.0,
            r.is_regex == value.1,
    {
        WatchListEntry { account_id: value.0, is_regex: value.1 }
    }
}

impl From<(String, bool)> for WatchListEntry {
    fn from(value: (String, bool)) -> (r: WatchListEntry) {
        WatchListEntry::from_pair(value)
    }
}

impl vstd::std_specs::convert::FromSpecImpl<(String, bool)> for WatchListEntry {
    open spec fn obeys_from_spec() -> bool {
        true
    }

    open spec fn from_spec(v: (String, bool)) -> WatchListEntry {
        WatchListEntry { account_id: v.0, is_regex: v.1 }
    }
}

/// A strictly increasing sequence of heights.
pub open spec fn strictly_increasing(s: Seq<u64>) -> bool {
    forall|i: int, j: int| 0 <= i < j < s.len() ==> s[i] < s[j]
}

} // verus!

verus! {

/// Whether two digests are equal, word by word.
pub fn digest_eq(a: &Digest, b: &Digest) -> (r: bool)
    ensures
        r == (*a == *b),
{
    a.0 == b.0 && a.1 == b.1 && a.2 == b.2 && a.3 == b.3
}

} // verus!
