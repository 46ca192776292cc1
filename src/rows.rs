use vstd::prelude::*;
use vstd::string::StringExecFns;
use crate::model::{Digest, OutcomeWithReceipt, Receipt, TransactionView};

verus! {

pub struct TransactionRow {
    pub transaction_hash: Digest,
    pub signer_id: String,
    pub tx_block_height: u64,
    pub tx_block_hash: Digest,
    pub tx_block_timestamp: u64,
    /// The whole transaction as a JSON document.
    pub transaction: String,
    pub last_block_height: u64,
}

pub struct AccountTxRow {
    pub account_id: String,
    pub transaction_hash: Digest,
    pub signer_id: String,
    pub tx_block_height: u64,
    pub tx_block_timestamp: u64,
}

pub struct BlockTxRow {
    pub block_height: u64,
    pub block_hash: Digest,
    pub block_timestamp: u64,
    pub transaction_hash: Digest,
    pub signer_id: String,
    pub tx_block_height: u64,
}

pub struct ReceiptTxRow {
    pub receipt_id: Digest,
    pub transaction_hash: Digest,
    pub signer_id: String,
    pub tx_block_height: u64,
    pub tx_block_timestamp: u64,
}

/// A row of any of the four tables.
pub enum Row {
    TransactionRow(TransactionRow),
    AccountTxRow(AccountTxRow),
    BlockTxRow(BlockTxRow),
    ReceiptTxRow(ReceiptTxRow),
}

impl From<TransactionRow> for Row {
    fn from(value: TransactionRow) -> (r: Row) {
        Row::TransactionRow(value)
    }
}

impl vstd::std_specs::convert::FromSpecImpl<TransactionRow> for Row {
    open spec fn obeys_from_spec() -> bool {
        true
    }

    open spec fn from_spec(v: TransactionRow) -> Row {
        Row::TransactionRow(v)
    }
}

impl From<AccountTxRow> for Row {
    fn from(value: AccountTxRow) -> (r: Row) {
        Row::AccountTxRow(value)
    }
}

impl vstd::std_specs::convert::FromSpecImpl<AccountTxRow> for Row {
    open spec fn obeys_from_spec() -> bool {
        true
    }

    open spec fn from_spec(v: AccountTxRow) -> Row {
        Row::AccountTxRow(v)
    }
}

impl From<BlockTxRow> for Row {
    fn from(value: BlockTxRow) -> (r: Row) {
        Row::BlockTxRow(value)
    }
}

impl vstd::std_specs::convert::FromSpecImpl<BlockTxRow> for Row {
    open spec fn obeys_from_spec() -> bool {
        true
    }

    open spec fn from_spec(v: BlockTxRow) -> Row {
        Row::BlockTxRow(v)
    }
}

impl From<ReceiptTxRow> for Row {
    fn from(value: ReceiptTxRow) -> (r: Row) {
        Row::ReceiptTxRow(value)
    }
}

impl vstd::std_specs::convert::FromSpecImpl<ReceiptTxRow> for Row {
    open spec fn obeys_from_spec() -> bool {
        true
    }

    open spec fn from_spec(v: ReceiptTxRow) -> Row {
        Row::ReceiptTxRow(v)
    }
}

/// The rows waiting for the next commit, one buffer per table.
pub struct TxRows {
    pub transactions: Vec<TransactionRow>,
    pub account_txs: Vec<AccountTxRow>,
    pub block_txs: Vec<BlockTxRow>,
    pub receipt_txs: Vec<ReceiptTxRow>,
}

impl TxRows {
    pub fn new() -> (r: TxRows)
        ensures
            r.is_empty_spec(),
    {
        TxRows { transactions: Vec::new(), account_txs: Vec::new(), block_txs: Vec::new(), receipt_txs: Vec::new() }
    }

    pub open spec fn is_empty_spec(&self) -> bool {
        &&& self.transactions@.len() == 0
        &&& self.account_txs@.len() == 0
        &&& self.block_txs@.len() == 0
        &&& self.receipt_txs@.len() == 0
    }
}

/// One executed receipt as a JSON object.
pub open spec fn receipt_doc(r: OutcomeWithReceipt) -> Seq<char> {
    "{\"execution_outcome\":"@ + r.execution_outcome.json@ + ",\"receipt\":"@ + r.receipt.json@ + "}"@
}

/// The executed receipts, comma-separated.
pub open spec fn receipts_doc(rs: Seq<OutcomeWithReceipt>) -> Seq<char>
    decreases rs.len(),
{
    if rs.len() == 0 {
        Seq::empty()
    } else if rs.len() == 1 {
        receipt_doc(rs[0])
    } else {
        receipts_doc(rs.drop_last()) + ","@ + receipt_doc(rs.last())
    }
}

/// The data receipts, comma-separated.
pub open spec fn data_receipts_doc(ds: Seq<Receipt>) -> Seq<char>
    decreases ds.len(),
{
    if ds.len() == 0 {
        Seq::empty()
    } else if ds.len() == 1 {
        ds[0].json@
    } else {
        data_receipts_doc(ds.drop_last()) + ","@ + ds.last().json@
    }
}

/// The whole transaction as one JSON document.
pub open spec fn transaction_doc(v: TransactionView) -> Seq<char> {
    "{\"transaction\":"@ + v.transaction.json@
        + ",\"execution_outcome\":"@ + v.execution_outcome.json@
        + ",\"receipts\":["@ + receipts_doc(v.receipts@)
        + "],\"data_receipts\":["@ + data_receipts_doc(v.data_receipts@) + "]}"@
}

/// Writes the transaction as one JSON document.
pub fn transaction_json(v: &TransactionView) -> (r: String)
    ensures
        r@ == transaction_doc(*v),
{
    let mut s = String::new();
    s.append("{\"transaction\":");
    s.append(v.transaction.json.as_str());
    s.append(",\"execution_outcome\":");
    s.append(v.execution_outcome.json.as_str());
    s.append(",\"receipts\":[");
    let ghost head = s@;
    let mut i: usize = 0;
    while i < v.receipts.len()
        invariant
            i <= v.receipts.len(),
            s@ == head + receipts_doc(v.receipts@.subrange(0, i as int)),
        decreases v.receipts.len() - i,
    {
        let ghost pre = v.receipts@.subrange(0, i as int);
        let ghost post = v.receipts@.subrange(0, i + 1);
        assert(post.drop_last() == pre);
        if i > 0 {
            s.append(",");
        }
        s.append("{\"execution_outcome\":");
        s.append(v.receipts[i].execution_outcome.json.as_str());
        s.append(",\"receipt\":");
        s.append(v.receipts[i].receipt.json.as_str());
        s.append("}");
        assert(s@ == head + receipts_doc(post)) by {
            assert(post.last() == v.receipts@[i as int]);
            if i == 0 {
                assert(pre.len() == 0);
            }
        }
        i = i + 1;
    }
    assert(v.receipts@.subrange(0, v.receipts@.len() as int) == v.receipts@);
    s.append("],\"data_receipts\":[");
    let ghost mid = s@;
    let mut j: usize = 0;
    while j < v.data_receipts.len()
        invariant
            j <= v.data_receipts.len(),
            s@ == mid + data_receipts_doc(v.data_receipts@.subrange(0, j as int)),
        decreases v.data_receipts.len() - j,
    {
        let ghost pre = v.data_receipts@.subrange(0, j as int);
        let ghost post = v.data_receipts@.subrange(0, j + 1);
        assert(post.drop_last() == pre);
        if j > 0 {
            s.append(",");
        }
        s.append(v.data_receipts[j].json.as_str());
        assert(s@ == mid + data_receipts_doc(post)) by {
            assert(post.last() == v.data_receipts@[j as int]);
            if j == 0 {
                assert(pre.len() == 0);
            }
        }
        j = j + 1;
    }
    assert(v.data_receipts@.subrange(0, v.data_receipts@.len() as int) == v.data_receipts@);
    s.append("]}");
    s
}

} // verus!
