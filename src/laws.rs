use vstd::prelude::*;
use crate::cache::{header_at, TxCache};
use crate::model::{
    strictly_increasing, BlockHeader, Digest, OutcomeWithReceipt, PendingTransaction, Receipt, TransactionWithOutcome,
};
use crate::processor::{advanced, blocks_below, created_from, pending_nonempty};
use crate::projector::{account_rows, block_rows, missing_headers, receipt_rows};

verus! {

/// Every transaction that a well-formed cache holds, under the invariants
/// that block processing keeps, still waits for a receipt, has each pending
/// receipt indexed to its own hash, and appeared at strictly increasing
/// heights.
pub proof fn lemma_retained_transactions_sound(c: TxCache, bound: u64, h: Digest)
    requires
        c.wf(),
        pending_nonempty(c),
        blocks_below(c, bound),
        c.transactions@.contains_key(h),
    ensures
        c.transactions@[h].pending_receipt_ids@.len() > 0,
        forall|i: int| 0 <= i < c.transactions@[h].pending_receipt_ids@.len() ==> {
            &&& c.receipt_to_tx@.contains_key(#[trigger] c.transactions@[h].pending_receipt_ids@[i])
            &&& c.receipt_to_tx@[c.transactions@[h].pending_receipt_ids@[i]] == h
        },
        strictly_increasing(c.transactions@[h].blocks@),
{
}

/// Each height of a complete transaction gives either a block row or a
/// missing-header record, so there are at most as many block rows as
/// heights, and exactly as many when every header is held.
pub proof fn lemma_block_row_count(hs: Seq<BlockHeader>, blocks: Seq<u64>, pt: PendingTransaction)
    ensures
        block_rows(hs, blocks, pt).len() + missing_headers(hs, blocks, pt).len() == blocks.len(),
        block_rows(hs, blocks, pt).len() <= blocks.len(),
        (forall|i: int| 0 <= i < blocks.len() ==> #[trigger] header_at(hs, blocks[i]) is Some)
            ==> block_rows(hs, blocks, pt).len() == blocks.len(),
    decreases blocks.len(),
{
    if blocks.len() > 0 {
        lemma_block_row_count(hs, blocks.drop_last(), pt);
        if forall|i: int| 0 <= i < blocks.len() ==> #[trigger] header_at(hs, blocks[i]) is Some {
            assert forall|i: int| 0 <= i < blocks.drop_last().len() implies #[trigger] header_at(hs, blocks.drop_last()[i]) is Some by {
                assert(blocks.drop_last()[i] == blocks[i]);
            }
            assert(header_at(hs, blocks[blocks.len() - 1]) is Some);
        }
    }
}

/// A complete transaction gives one receipt row per executed and per data
/// receipt, and one account row per extracted account.
pub proof fn lemma_receipt_and_account_row_counts(pt: PendingTransaction, accounts: Seq<String>)
    ensures
        receipt_rows(pt).len() == pt.transaction.receipts@.len() + pt.transaction.data_receipts@.len(),
        account_rows(pt, accounts).len() == accounts.len(),
{
}

/// The receipt `id` was spawned by the transaction or by one of its executed
/// receipts.
pub open spec fn was_spawned(pt: PendingTransaction, id: Digest) -> bool {
    ||| pt.transaction.execution_outcome.receipt_ids@.contains(id)
    ||| exists|j: int| 0 <= j < pt.transaction.receipts@.len()
        && (#[trigger] pt.transaction.receipts@[j]).execution_outcome.receipt_ids@.contains(id)
}

/// The receipt `id` has executed within the transaction.
pub open spec fn executed(pt: PendingTransaction, id: Digest) -> bool {
    exists|j: int| 0 <= j < pt.transaction.receipts@.len() && (#[trigger] pt.transaction.receipts@[j]).receipt.receipt_id == id
}

/// Every receipt the transaction spawned is still pending or has executed.
pub open spec fn accounted(pt: PendingTransaction) -> bool {
    forall|id: Digest| #[trigger] was_spawned(pt, id) ==> pt.pending_receipt_ids@.contains(id) || executed(pt, id)
}

/// A transaction starts with every spawned receipt pending.
pub proof fn lemma_created_accounted(pt: PendingTransaction, item: TransactionWithOutcome, header: BlockHeader)
    requires
        created_from(pt, item, header),
    ensures
        accounted(pt),
{
}

/// Executing a receipt keeps every spawned receipt pending or executed.
pub proof fn lemma_advance_keeps_accounted(
    pt0: PendingTransaction,
    pt1: PendingTransaction,
    item: OutcomeWithReceipt,
    height: u64,
    pool: Map<Digest, Receipt>,
)
    requires
        advanced(pt0, pt1, item, height, pool),
        accounted(pt0),
    ensures
        accounted(pt1),
{
    let r = item.receipt.receipt_id;
    let f = |y: Digest| y != r;
    let kept = pt0.pending_receipt_ids@.filter(f);
    let n = pt0.transaction.receipts@.len();
    assert(pt1.transaction.receipts@[n as int] == item);
    assert forall|id: Digest| #[trigger] was_spawned(pt1, id) implies pt1.pending_receipt_ids@.contains(id) || executed(pt1, id) by {
        if item.execution_outcome.receipt_ids@.contains(id) {
            let k = choose|k: int| 0 <= k < item.execution_outcome.receipt_ids@.len() && item.execution_outcome.receipt_ids@[k] == id;
            assert(pt1.pending_receipt_ids@[kept.len() + k] == id);
        } else {
            if !pt0.transaction.execution_outcome.receipt_ids@.contains(id) {
                let j = choose|j: int| 0 <= j < pt1.transaction.receipts@.len()
                    && (#[trigger] pt1.transaction.receipts@[j]).execution_outcome.receipt_ids@.contains(id);
                assert(j < n);
                assert(pt0.transaction.receipts@[j] == pt1.transaction.receipts@[j]);
            }
            assert(was_spawned(pt0, id));
            if executed(pt0, id) {
                let j = choose|j: int| 0 <= j < pt0.transaction.receipts@.len() && (#[trigger] pt0.transaction.receipts@[j]).receipt.receipt_id == id;
                assert(pt1.transaction.receipts@[j] == pt0.transaction.receipts@[j]);
            } else if id == r {
                assert(executed(pt1, id));
            } else {
                let k = choose|k: int| 0 <= k < pt0.pending_receipt_ids@.len() && pt0.pending_receipt_ids@[k] == id;
                pt0.pending_receipt_ids@.lemma_filter_contains(f, k);
                assert(kept.contains(id));
                let m = choose|m: int| 0 <= m < kept.len() && kept[m] == id;
                assert(pt1.pending_receipt_ids@[m] == id);
            }
        }
    }
}

/// A transaction that waits for nothing more has executed every receipt it
/// spawned.
pub proof fn lemma_complete_has_every_receipt(pt: PendingTransaction, id: Digest)
    requires
        accounted(pt),
        pt.pending_receipt_ids@.len() == 0,
        was_spawned(pt, id),
    ensures
        executed(pt, id),
{
}

} // verus!
