use vstd::prelude::*;
use crate::cache::{header_at, headers_sorted, TxCache};
use crate::model::{BlockHeader, Digest, PendingTransaction};
use crate::rows::{transaction_doc, transaction_json, AccountTxRow, BlockTxRow, ReceiptTxRow, TransactionRow, TxRows};

verus! {

/// A height at which a transaction appeared but whose header the cache no
/// longer holds; kept for offline reconciliation.
pub struct MissingHeader {
    pub block_height: u64,
    pub transaction_hash: Digest,
    pub signer_id: String,
    pub tx_block_height: u64,
}

pub open spec fn block_row(pt: PendingTransaction, h: BlockHeader) -> BlockTxRow {
    BlockTxRow {
        block_height: h.height,
        block_hash: h.hash,
        block_timestamp: h.timestamp,
        transaction_hash: pt.transaction.transaction.hash,
        signer_id: pt.transaction.transaction.signer_id,
        tx_block_height: pt.tx_block_height,
    }
}

pub open spec fn missing_header(pt: PendingTransaction, height: u64) -> MissingHeader {
    MissingHeader {
        block_height: height,
        transaction_hash: pt.transaction.transaction.hash,
        signer_id: pt.transaction.transaction.signer_id,
        tx_block_height: pt.tx_block_height,
    }
}

/// One row per height of `blocks` whose header `hs` holds, in order.
pub open spec fn block_rows(hs: Seq<BlockHeader>, blocks: Seq<u64>, pt: PendingTransaction) -> Seq<BlockTxRow>
    decreases blocks.len(),
{
    if blocks.len() == 0 {
        Seq::empty()
    } else {
        let prev = block_rows(hs, blocks.drop_last(), pt);
        match header_at(hs, blocks.last()) {
            Some(h) => prev.push(block_row(pt, h)),
            None => prev,
        }
    }
}

/// One record per height of `blocks` whose header `hs` does not hold, in order.
pub open spec fn missing_headers(hs: Seq<BlockHeader>, blocks: Seq<u64>, pt: PendingTransaction) -> Seq<MissingHeader>
    decreases blocks.len(),
{
    if blocks.len() == 0 {
        Seq::empty()
    } else {
        let prev = missing_headers(hs, blocks.drop_last(), pt);
        match header_at(hs, blocks.last()) {
            Some(h) => prev,
            None => prev.push(missing_header(pt, blocks.last())),
        }
    }
}

pub open spec fn receipt_row(pt: PendingTransaction, receipt_id: Digest) -> ReceiptTxRow {
    ReceiptTxRow {
        receipt_id,
        transaction_hash: pt.transaction.transaction.hash,
        signer_id: pt.transaction.transaction.signer_id,
        tx_block_height: pt.tx_block_height,
        tx_block_timestamp: pt.tx_block_timestamp,
    }
}

/// One row per executed receipt, then one per data receipt.
pub open spec fn receipt_rows(pt: PendingTransaction) -> Seq<ReceiptTxRow> {
    pt.transaction.receipts@.map_values(|r: crate::model::OutcomeWithReceipt| receipt_row(pt, r.receipt.receipt_id))
        + pt.transaction.data_receipts@.map_values(|d: crate::model::Receipt| receipt_row(pt, d.receipt_id))
}

pub open spec fn account_row(pt: PendingTransaction, account_id: String) -> AccountTxRow {
    AccountTxRow {
        account_id,
        transaction_hash: pt.transaction.transaction.hash,
        signer_id: pt.transaction.transaction.signer_id,
        tx_block_height: pt.tx_block_height,
        tx_block_timestamp: pt.tx_block_timestamp,
    }
}

/// One row per account.
pub open spec fn account_rows(pt: PendingTransaction, accounts: Seq<String>) -> Seq<AccountTxRow> {
    accounts.map_values(|a: String| account_row(pt, a))
}

/// `row` is the transaction row of `pt`.
pub open spec fn is_transaction_row(row: TransactionRow, pt: PendingTransaction) -> bool {
    &&& row.transaction_hash == pt.transaction.transaction.hash
    &&& row.signer_id == pt.transaction.transaction.signer_id
    &&& row.tx_block_height == pt.tx_block_height
    &&& row.tx_block_hash == pt.tx_block_hash
    &&& row.tx_block_timestamp == pt.tx_block_timestamp
    &&& row.transaction@ == transaction_doc(pt.transaction)
    &&& row.last_block_height == pt.blocks@.last()
}

/// Appends the rows of a complete transaction: a block row for each of its
/// heights whose header is still held, a receipt row for each executed and
/// data receipt, an account row for each of `accounts`, and its transaction
/// row. Heights whose header is gone are handed back.
pub fn project_transaction(
    cache: &TxCache,
    rows: &mut TxRows,
    transaction: &PendingTransaction,
    accounts: &Vec<String>,
) -> (r: Vec<MissingHeader>)
    requires
        headers_sorted(cache.block_headers@),
        transaction.blocks@.len() > 0,
    ensures
        final(rows).block_txs@ == old(rows).block_txs@ + block_rows(cache.block_headers@, transaction.blocks@, *transaction),
        r@ == missing_headers(cache.block_headers@, transaction.blocks@, *transaction),
        final(rows).receipt_txs@ == old(rows).receipt_txs@ + receipt_rows(*transaction),
        final(rows).account_txs@ == old(rows).account_txs@ + account_rows(*transaction, accounts@),
        final(rows).transactions@.len() == old(rows).transactions@.len() + 1,
        final(rows).transactions@.drop_last() == old(rows).transactions@,
        is_transaction_row(final(rows).transactions@.last(), *transaction),
{
    let pt = transaction;
    let tx_hash = pt.transaction_hash();
    let mut missing: Vec<MissingHeader> = Vec::new();
    let mut i: usize = 0;
    while i < pt.blocks.len()
        invariant
            i <= pt.blocks.len(),
            tx_hash == pt.transaction.transaction.hash,
            headers_sorted(cache.block_headers@),
            rows.block_txs@ == old(rows).block_txs@ + block_rows(cache.block_headers@, pt.blocks@.subrange(0, i as int), *pt),
            missing@ == missing_headers(cache.block_headers@, pt.blocks@.subrange(0, i as int), *pt),
            rows.receipt_txs@ == old(rows).receipt_txs@,
            rows.account_txs@ == old(rows).account_txs@,
            rows.transactions@ == old(rows).transactions@,
        decreases pt.blocks.len() - i,
    {
        let ghost post = pt.blocks@.subrange(0, i + 1);
        assert(post.drop_last() == pt.blocks@.subrange(0, i as int));
        assert(post.last() == pt.blocks@[i as int]);
        let height = pt.blocks[i];
        let found = cache.find_block_header(height);
        assert(found == header_at(cache.block_headers@, height));
        match found {
            Some(h) => {
                rows.block_txs.push(BlockTxRow {
                    block_height: height,
                    block_hash: h.hash,
                    block_timestamp: h.timestamp,
                    transaction_hash: tx_hash,
                    signer_id: pt.transaction.transaction.signer_id.clone(),
                    tx_block_height: pt.tx_block_height,
                });
                assert(h.height == height);
            },
            None => {
                missing.push(MissingHeader {
                    block_height: height,
                    transaction_hash: tx_hash,
                    signer_id: pt.transaction.transaction.signer_id.clone(),
                    tx_block_height: pt.tx_block_height,
                });
            },
        }
        i = i + 1;
    }
    assert(pt.blocks@.subrange(0, pt.blocks@.len() as int) == pt.blocks@);
    let mut j: usize = 0;
    while j < pt.transaction.receipts.len()
        invariant
            j <= pt.transaction.receipts.len(),
            tx_hash == pt.transaction.transaction.hash,
            rows.receipt_txs@ == old(rows).receipt_txs@ + pt.transaction.receipts@.subrange(0, j as int).map_values(
                |r: crate::model::OutcomeWithReceipt| receipt_row(*pt, r.receipt.receipt_id)),
            rows.block_txs@ == old(rows).block_txs@ + block_rows(cache.block_headers@, pt.blocks@, *pt),
            rows.account_txs@ == old(rows).account_txs@,
            rows.transactions@ == old(rows).transactions@,
        decreases pt.transaction.receipts.len() - j,
    {
        rows.receipt_txs.push(ReceiptTxRow {
            receipt_id: pt.transaction.receipts[j].receipt.receipt_id,
            transaction_hash: tx_hash,
            signer_id: pt.transaction.transaction.signer_id.clone(),
            tx_block_height: pt.tx_block_height,
            tx_block_timestamp: pt.tx_block_timestamp,
        });
        assert(pt.transaction.receipts@.subrange(0, j + 1).map_values(
                |r: crate::model::OutcomeWithReceipt| receipt_row(*pt, r.receipt.receipt_id))
            == pt.transaction.receipts@.subrange(0, j as int).map_values(
                |r: crate::model::OutcomeWithReceipt| receipt_row(*pt, r.receipt.receipt_id))
                .push(receipt_row(*pt, pt.transaction.receipts@[j as int].receipt.receipt_id)));
        j = j + 1;
    }
    assert(pt.transaction.receipts@.subrange(0, pt.transaction.receipts@.len() as int) == pt.transaction.receipts@);
    let ghost with_receipts = rows.receipt_txs@;
    let mut k: usize = 0;
    while k < pt.transaction.data_receipts.len()
        invariant
            k <= pt.transaction.data_receipts.len(),
            tx_hash == pt.transaction.transaction.hash,
            rows.receipt_txs@ == with_receipts + pt.transaction.data_receipts@.subrange(0, k as int).map_values(
                |d: crate::model::Receipt| receipt_row(*pt, d.receipt_id)),
            rows.block_txs@ == old(rows).block_txs@ + block_rows(cache.block_headers@, pt.blocks@, *pt),
            rows.account_txs@ == old(rows).account_txs@,
            rows.transactions@ == old(rows).transactions@,
        decreases pt.transaction.data_receipts.len() - k,
    {
        rows.receipt_txs.push(ReceiptTxRow {
            receipt_id: pt.transaction.data_receipts[k].receipt_id,
            transaction_hash: tx_hash,
            signer_id: pt.transaction.transaction.signer_id.clone(),
            tx_block_height: pt.tx_block_height,
            tx_block_timestamp: pt.tx_block_timestamp,
        });
        assert(pt.transaction.data_receipts@.subrange(0, k + 1).map_values(
                |d: crate::model::Receipt| receipt_row(*pt, d.receipt_id))
            == pt.transaction.data_receipts@.subrange(0, k as int).map_values(
                |d: crate::model::Receipt| receipt_row(*pt, d.receipt_id))
                .push(receipt_row(*pt, pt.transaction.data_receipts@[k as int].receipt_id)));
        k = k + 1;
    }
    assert(pt.transaction.data_receipts@.subrange(0, pt.transaction.data_receipts@.len() as int) == pt.transaction.data_receipts@);
    let mut a: usize = 0;
    while a < accounts.len()
        invariant
            a <= accounts.len(),
            tx_hash == pt.transaction.transaction.hash,
            rows.account_txs@ == old(rows).account_txs@ + accounts@.subrange(0, a as int).map_values(
                |x: String| account_row(*pt, x)),
            rows.receipt_txs@ == old(rows).receipt_txs@ + receipt_rows(*pt),
            rows.block_txs@ == old(rows).block_txs@ + block_rows(cache.block_headers@, pt.blocks@, *pt),
            rows.transactions@ == old(rows).transactions@,
        decreases accounts.len() - a,
    {
        rows.account_txs.push(AccountTxRow {
            account_id: accounts[a].clone(),
            transaction_hash: tx_hash,
            signer_id: pt.transaction.transaction.signer_id.clone(),
            tx_block_height: pt.tx_block_height,
            tx_block_timestamp: pt.tx_block_timestamp,
        });
        assert(accounts@.subrange(0, a + 1).map_values(|x: String| account_row(*pt, x))
            == accounts@.subrange(0, a as int).map_values(|x: String| account_row(*pt, x)).push(account_row(*pt, accounts@[a as int])));
        a = a + 1;
    }
    assert(accounts@.subrange(0, accounts@.len() as int) == accounts@);
    let last = pt.blocks[pt.blocks.len() - 1];
    rows.transactions.push(TransactionRow {
        transaction_hash: tx_hash,
        signer_id: pt.transaction.transaction.signer_id.clone(),
        tx_block_height: pt.tx_block_height,
        tx_block_hash: pt.tx_block_hash,
        tx_block_timestamp: pt.tx_block_timestamp,
        transaction: transaction_json(&pt.transaction),
        last_block_height: last,
    });
    assert(rows.transactions@.drop_last() == old(rows).transactions@);
    missing
}

} // verus!
