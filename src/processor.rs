use vstd::prelude::*;
use crate::accounts::{
    distinct, get_accounts_from_transaction, holds, named_by_transaction, some_account_in_watch_list, texts,
    validate_watch_list, watch_list_valid, watch_scan,
};
use crate::cache::{headers_sorted, TxCache, BLOCK_HEADER_CLEANUP};
use crate::error::IndexerError;
use crate::laws::{accounted, lemma_advance_keeps_accounted, lemma_created_accounted};
use crate::model::{
    strictly_increasing, Block, BlockHeader, Chunk, Digest, OutcomeWithReceipt, PendingTransaction,
    Receipt, ReceiptKind, Shard, TransactionView, TransactionWithOutcome, WatchListEntry,
};
use crate::projector::{
    account_rows, block_rows, is_transaction_row, missing_headers, project_transaction, receipt_rows, MissingHeader,
};
use crate::rows::{AccountTxRow, BlockTxRow, ReceiptTxRow};
use crate::rows::TxRows;

verus! {

broadcast use vstd::laws_cmp::group_laws_cmp;

/// Every held transaction still waits for at least one receipt.
pub open spec fn pending_nonempty(c: TxCache) -> bool {
    forall|h: Digest| #[trigger] c.transactions@.contains_key(h) ==> c.transactions@[h].pending_receipt_ids@.len() > 0
}

/// The heights of every held transaction strictly increase and none
/// exceeds `bound`.
pub open spec fn blocks_below(c: TxCache, bound: u64) -> bool {
    forall|h: Digest| #[trigger] c.transactions@.contains_key(h) ==> {
        let b = c.transactions@[h].blocks@;
        &&& strictly_increasing(b)
        &&& forall|i: int| 0 <= i < b.len() ==> b[i] <= bound
    }
}

/// Every receipt that a held transaction spawned is still pending or has
/// executed.
pub open spec fn all_accounted(c: TxCache) -> bool {
    forall|h: Digest| #[trigger] c.transactions@.contains_key(h) ==> accounted(c.transactions@[h])
}

/// Every transaction submitted in the chunk spawns at least one receipt.
pub open spec fn chunk_spawns_receipts(c: Chunk) -> bool {
    forall|j: int| 0 <= j < c.transactions@.len() ==> (#[trigger] c.transactions@[j]).outcome.receipt_ids@.len() > 0
}

/// Every transaction submitted in the block spawns at least one receipt.
pub open spec fn block_spawns_receipts(block: Block) -> bool {
    forall|i: int| 0 <= i < block.shards@.len() ==> match (#[trigger] block.shards@[i]).chunk {
        Some(c) => chunk_spawns_receipts(c),
        None => true,
    }
}

/// A copy of the ids.
fn copy_ids(v: &Vec<Digest>) -> (r: Vec<Digest>)
    ensures
        r@ == v@,
{
    let mut r: Vec<Digest> = Vec::new();
    let mut i: usize = 0;
    while i < v.len()
        invariant
            i <= v.len(),
            r@ == v@.subrange(0, i as int),
        decreases v.len() - i,
    {
        r.push(v[i]);
        assert(r@ == v@.subrange(0, i + 1));
        i = i + 1;
    }
    assert(v@.subrange(0, v@.len() as int) == v@);
    r
}

/// The ids of `v` other than `x`, in order.
fn remove_all(v: &Vec<Digest>, x: &Digest) -> (r: Vec<Digest>)
    ensures
        r@ == v@.filter(|y: Digest| y != *x),
{
    let mut r: Vec<Digest> = Vec::new();
    let mut i: usize = 0;
    while i < v.len()
        invariant
            i <= v.len(),
            r@ == v@.subrange(0, i as int).filter(|y: Digest| y != *x),
        decreases v.len() - i,
    {
        let ghost pre = v@.subrange(0, i as int);
        assert(v@.subrange(0, i + 1) == pre.push(v@[i as int]));
        proof {
            pre.lemma_filter_push(v@[i as int], |y: Digest| y != *x);
        }
        if !crate::model::digest_eq(&v[i], x) {
            r.push(v[i]);
        }
        i = i + 1;
    }
    assert(v@.subrange(0, v@.len() as int) == v@);
    r
}

/// Appends `src` to `dst`.
fn append_ids(dst: &mut Vec<Digest>, src: &Vec<Digest>)
    ensures
        final(dst)@ == old(dst)@ + src@,
{
    let mut i: usize = 0;
    while i < src.len()
        invariant
            i <= src.len(),
            dst@ == old(dst)@ + src@.subrange(0, i as int),
        decreases src.len() - i,
    {
        dst.push(src[i]);
        assert(old(dst)@ + src@.subrange(0, i + 1) == old(dst)@ + src@.subrange(0, i as int) + seq![src@[i as int]]);
        i = i + 1;
    }
    assert(src@.subrange(0, src@.len() as int) == src@);
}

/// The elements of `v` in reverse order.
fn reversed<T>(v: Vec<T>) -> (r: Vec<T>)
    ensures
        r@ == v@.reverse(),
{
    let mut v = v;
    let ghost o = v@;
    let mut r: Vec<T> = Vec::new();
    while v.len() > 0
        invariant
            v@ == o.subrange(0, v@.len() as int),
            r@ == o.subrange(v@.len() as int, o.len() as int).reverse(),
            v@.len() <= o.len(),
        decreases v.len(),
    {
        let ghost n = v@.len();
        let x = v.pop().unwrap();
        r.push(x);
        assert(r@ == o.subrange(n - 1, o.len() as int).reverse());
    }
    assert(o.subrange(0, o.len() as int) == o);
    r
}

/// The two caches hold the same contents.
pub open spec fn same_cache(a: TxCache, b: TxCache) -> bool {
    &&& a.block_headers@ == b.block_headers@
    &&& a.receipt_to_tx@ == b.receipt_to_tx@
    &&& a.data_receipts@ == b.data_receipts@
    &&& a.transactions@ == b.transactions@
    &&& a.last_block_height == b.last_block_height
}

/// The two caches hold the same headers, data receipts and height.
pub open spec fn same_outside_txs(a: TxCache, b: TxCache) -> bool {
    &&& a.block_headers@ == b.block_headers@
    &&& a.data_receipts@ == b.data_receipts@
    &&& a.last_block_height == b.last_block_height
}

/// `pt` is the pending record that a transaction submitted in the block
/// `header` starts as.
pub open spec fn created_from(pt: PendingTransaction, item: TransactionWithOutcome, header: BlockHeader) -> bool {
    &&& pt.tx_block_height == header.height
    &&& pt.tx_block_hash == header.hash
    &&& pt.tx_block_timestamp == header.timestamp
    &&& pt.blocks@ == seq![header.height]
    &&& pt.transaction.transaction == item.transaction
    &&& pt.transaction.execution_outcome == item.outcome
    &&& pt.transaction.receipts@.len() == 0
    &&& pt.transaction.data_receipts@.len() == 0
    &&& pt.pending_receipt_ids@ == item.outcome.receipt_ids@
}

/// Registers a transaction submitted in a chunk of the block `header`: it
/// waits for the receipts its outcome spawned.
pub fn ingest_transaction(cache: &mut TxCache, item: TransactionWithOutcome, header: &BlockHeader) -> (r: Result<(), IndexerError>)
    requires
        old(cache).wf(),
    ensures
        r is Ok ==> final(cache).wf(),
        same_outside_txs(*old(cache), *final(cache)),
        r is Ok <==> !crate::cache::ids_conflict(old(cache).receipt_to_tx@, item.outcome.receipt_ids@, item.transaction.hash),
        r is Ok ==> final(cache).transactions@.contains_key(item.transaction.hash)
            && final(cache).transactions@ == old(cache).transactions@.insert(
                item.transaction.hash, final(cache).transactions@[item.transaction.hash])
            && created_from(final(cache).transactions@[item.transaction.hash], item, *header),
        r is Ok ==> crate::cache::ids_registered(old(cache).receipt_to_tx@, final(cache).receipt_to_tx@,
            item.outcome.receipt_ids@, item.transaction.hash),
        r is Ok && pending_nonempty(*old(cache)) && item.outcome.receipt_ids@.len() > 0 ==> pending_nonempty(*final(cache)),
        r is Ok && blocks_below(*old(cache), header.height) ==> blocks_below(*final(cache), header.height),
        r is Ok && all_accounted(*old(cache)) ==> all_accounted(*final(cache)),
        r is Err ==> r matches Err(IndexerError::ReceiptRemapped { .. }),
{
    let TransactionWithOutcome { transaction, outcome } = item;
    let pending_receipt_ids = copy_ids(&outcome.receipt_ids);
    let ids = copy_ids(&outcome.receipt_ids);
    let t = transaction.hash;
    let pt = PendingTransaction {
        tx_block_height: header.height,
        tx_block_hash: header.hash,
        tx_block_timestamp: header.timestamp,
        blocks: vec![header.height],
        transaction: TransactionView {
            transaction,
            execution_outcome: outcome,
            receipts: Vec::new(),
            data_receipts: Vec::new(),
        },
        pending_receipt_ids,
    };
    let ghost c0 = *cache;
    let ghost p = pt;
    assert(p.blocks@ == seq![header.height]);
    assert(p.transaction.transaction == item.transaction);
    assert(p.transaction.execution_outcome == item.outcome);
    assert(created_from(p, item, *header));
    proof {
        lemma_created_accounted(p, item, *header);
    }
    let res = cache.insert_transaction(pt, &ids);
    match res {
        Ok(()) => {},
        Err(e) => {
            return Err(e);
        },
    }
    let ghost c1 = *cache;
    assert forall|h: Digest| #[trigger] c1.transactions@.contains_key(h) implies {
        let q = c1.transactions@[h];
        &&& q.transaction.transaction.hash == h
        &&& q.blocks@.len() > 0
        &&& forall|i: int| 0 <= i < q.pending_receipt_ids.len() ==> {
            &&& c1.receipt_to_tx@.contains_key(#[trigger] q.pending_receipt_ids@[i])
            &&& c1.receipt_to_tx@[q.pending_receipt_ids@[i]] == h
        }
    } by {
        if h == t {
            assert forall|i: int| 0 <= i < p.pending_receipt_ids.len() implies {
                &&& c1.receipt_to_tx@.contains_key(#[trigger] p.pending_receipt_ids@[i])
                &&& c1.receipt_to_tx@[p.pending_receipt_ids@[i]] == t
            } by {
                assert(ids@.contains(p.pending_receipt_ids@[i]));
            }
        } else {
            let q = c0.transactions@[h];
            assert forall|i: int| 0 <= i < q.pending_receipt_ids.len() implies {
                &&& c1.receipt_to_tx@.contains_key(#[trigger] q.pending_receipt_ids@[i])
                &&& c1.receipt_to_tx@[q.pending_receipt_ids@[i]] == h
            } by {
                let k = q.pending_receipt_ids@[i];
                assert(c0.receipt_to_tx@.contains_key(k) && c0.receipt_to_tx@[k] == h);
                if ids@.contains(k) {
                    let j = choose|j: int| 0 <= j < ids@.len() && ids@[j] == k;
                    assert(c0.receipt_to_tx@.contains_key(ids@[j]));
                }
            }
        }
    }
    Ok(())
}

/// Drops every id of `ids` from the receipt index, where each is indexed to
/// the transaction `t` that the cache no longer holds.
fn purge_receipts(cache: &mut TxCache, ids: &Vec<Digest>, Ghost(t): Ghost<Digest>)
    requires
        old(cache).wf(),
        !old(cache).transactions@.contains_key(t),
        forall|i: int| 0 <= i < ids@.len() && old(cache).receipt_to_tx@.contains_key(#[trigger] ids@[i])
            ==> old(cache).receipt_to_tx@[ids@[i]] == t,
    ensures
        final(cache).wf(),
        same_outside_txs(*old(cache), *final(cache)),
        final(cache).transactions@ == old(cache).transactions@,
        forall|k: Digest| #[trigger] final(cache).receipt_to_tx@.contains_key(k) ==> old(cache).receipt_to_tx@.contains_key(k),
{
    let ghost m0 = cache.receipt_to_tx@;
    let mut i: usize = 0;
    while i < ids.len()
        invariant
            i <= ids.len(),
            same_outside_txs(*old(cache), *cache),
            cache.transactions@ == old(cache).transactions@,
            m0 == old(cache).receipt_to_tx@,
            forall|j: int| 0 <= j < ids@.len() && m0.contains_key(#[trigger] ids@[j]) ==> m0[ids@[j]] == t,
            forall|k: Digest| #[trigger] cache.receipt_to_tx@.contains_key(k) ==> m0.contains_key(k) && cache.receipt_to_tx@[k] == m0[k],
            forall|k: Digest| #[trigger] m0.contains_key(k) && m0[k] != t ==> cache.receipt_to_tx@.contains_key(k),
        decreases ids.len() - i,
    {
        let ghost k = ids@[i as int];
        cache.remove_receipt_to_tx(&ids[i]);
        assert(m0.contains_key(k) ==> m0[k] == t);
        i = i + 1;
    }
    assert forall|h: Digest| #[trigger] cache.transactions@.contains_key(h) implies {
        let q = cache.transactions@[h];
        &&& q.transaction.transaction.hash == h
        &&& q.blocks@.len() > 0
        &&& forall|j: int| 0 <= j < q.pending_receipt_ids.len() ==> {
            &&& cache.receipt_to_tx@.contains_key(#[trigger] q.pending_receipt_ids@[j])
            &&& cache.receipt_to_tx@[q.pending_receipt_ids@[j]] == h
        }
    } by {
        let q = cache.transactions@[h];
        assert forall|j: int| 0 <= j < q.pending_receipt_ids.len() implies {
            &&& cache.receipt_to_tx@.contains_key(#[trigger] q.pending_receipt_ids@[j])
            &&& cache.receipt_to_tx@[q.pending_receipt_ids@[j]] == h
        } by {
            let k = q.pending_receipt_ids@[j];
            assert(m0.contains_key(k) && m0[k] == h);
        }
    }
}

/// The data ids that an action receipt waits for.
pub open spec fn inputs_of(k: ReceiptKind) -> Seq<Digest> {
    match k {
        ReceiptKind::Action { input_data_ids, .. } => input_data_ids@,
        ReceiptKind::Data { .. } => Seq::empty(),
    }
}

/// Every id is pooled, and none is asked for twice.
pub open spec fn resolvable(pool: Map<Digest, Receipt>, ids: Seq<Digest>) -> bool {
    &&& ids.no_duplicates()
    &&& forall|i: int| 0 <= i < ids.len() ==> pool.contains_key(#[trigger] ids[i])
}

/// The pooled data receipts of the ids, in order.
pub open spec fn resolved(pool: Map<Digest, Receipt>, ids: Seq<Digest>) -> Seq<Receipt> {
    ids.map_values(|d: Digest| pool[d])
}

/// The receipts that `pt0` still waits for once `item` has executed.
pub open spec fn pending_after(pt0: PendingTransaction, item: OutcomeWithReceipt) -> Seq<Digest> {
    pt0.pending_receipt_ids@.filter(|y: Digest| y != item.receipt.receipt_id) + item.execution_outcome.receipt_ids@
}

/// `pt1` is `pt0` after the execution `item` in the block `height`, with
/// the data receipts it consumed from `pool`.
pub open spec fn advanced(pt0: PendingTransaction, pt1: PendingTransaction, item: OutcomeWithReceipt, height: u64, pool: Map<Digest, Receipt>) -> bool {
    &&& pt1.tx_block_height == pt0.tx_block_height
    &&& pt1.tx_block_hash == pt0.tx_block_hash
    &&& pt1.tx_block_timestamp == pt0.tx_block_timestamp
    &&& pt1.blocks@ == (if pt0.blocks@.last() == height { pt0.blocks@ } else { pt0.blocks@.push(height) })
    &&& pt1.transaction.transaction == pt0.transaction.transaction
    &&& pt1.transaction.execution_outcome == pt0.transaction.execution_outcome
    &&& pt1.transaction.receipts@ == pt0.transaction.receipts@.push(item)
    &&& pt1.transaction.data_receipts@ == pt0.transaction.data_receipts@ + resolved(pool, inputs_of(item.receipt.kind))
    &&& pt1.pending_receipt_ids@ == pending_after(pt0, item)
}

/// Applies the execution of one receipt to the transaction that owns it.
/// A transaction that waits for nothing more is handed back; otherwise it
/// stays held, waiting also for the receipts this execution spawned. In
/// skip mode a receipt of no known transaction is passed over, and a
/// transaction missing an input data receipt is abandoned.
pub fn apply_outcome(cache: &mut TxCache, item: OutcomeWithReceipt, height: u64, skip: bool) -> (r: Result<Option<PendingTransaction>, IndexerError>)
    requires
        old(cache).wf(),
    ensures
        r is Ok ==> final(cache).wf(),
        final(cache).block_headers@ == old(cache).block_headers@,
        final(cache).last_block_height == old(cache).last_block_height,
        !old(cache).receipt_to_tx@.contains_key(item.receipt.receipt_id) ==> if skip {
            r == Ok::<Option<PendingTransaction>, IndexerError>(None) && same_cache(*old(cache), *final(cache))
        } else {
            r == Err::<Option<PendingTransaction>, IndexerError>(
                IndexerError::MissingTransactionForReceipt { receipt_id: item.receipt.receipt_id })
        },
        ({
            let rid = item.receipt.receipt_id;
            let t = old(cache).receipt_to_tx@[rid];
            let pt0 = old(cache).transactions@[t];
            let pool = old(cache).data_receipts@;
            let inputs = inputs_of(item.receipt.kind);
            old(cache).receipt_to_tx@.contains_key(rid) ==> if !old(cache).transactions@.contains_key(t) {
                r == Err::<Option<PendingTransaction>, IndexerError>(IndexerError::MissingTransaction { tx_hash: t })
            } else if item.receipt.kind is Data {
                r == Err::<Option<PendingTransaction>, IndexerError>(IndexerError::DataReceiptExecuted { receipt_id: rid })
            } else if !resolvable(pool, inputs) {
                if skip {
                    r == Ok::<Option<PendingTransaction>, IndexerError>(None)
                        && final(cache).transactions@ == old(cache).transactions@.remove(t)
                } else {
                    r matches Err(IndexerError::MissingDataReceipt { .. })
                }
            } else {
                &&& final(cache).data_receipts@ == pool.remove_keys(inputs.to_set())
                &&& r is Ok ==> (r->Ok_0 is Some <==> pending_after(pt0, item).len() == 0)
                &&& r matches Ok(Some(pt1)) ==> {
                    &&& advanced(pt0, pt1, item, height, pool)
                    &&& final(cache).transactions@ == old(cache).transactions@.remove(t)
                    &&& final(cache).receipt_to_tx@ == old(cache).receipt_to_tx@.remove(rid)
                }
                &&& r == Ok::<Option<PendingTransaction>, IndexerError>(None) ==> {
                    &&& final(cache).transactions@.contains_key(t)
                    &&& advanced(pt0, final(cache).transactions@[t], item, height, pool)
                    &&& final(cache).transactions@ == old(cache).transactions@.insert(t, final(cache).transactions@[t])
                    &&& crate::cache::ids_registered(old(cache).receipt_to_tx@.remove(rid), final(cache).receipt_to_tx@,
                        item.execution_outcome.receipt_ids@, t)
                }
                &&& r is Err ==> (r matches Err(IndexerError::ReceiptRemapped { .. }))
                &&& r is Ok <==> !crate::cache::ids_conflict(old(cache).receipt_to_tx@.remove(rid),
                    item.execution_outcome.receipt_ids@, t)
            }
        }),
        r matches Err(IndexerError::MissingDataReceipt { .. }) ==> !skip,
        r matches Err(IndexerError::MissingTransactionForReceipt { .. }) ==> !skip,
        !(r matches Err(IndexerError::HeaderMismatch { .. })),
        r matches Ok(Some(pt)) ==> pt.pending_receipt_ids@.len() == 0 && pt.blocks@.len() > 0
            && pt.blocks@.last() == height,
        r is Ok && pending_nonempty(*old(cache)) ==> pending_nonempty(*final(cache)),
        r is Ok && blocks_below(*old(cache), height) ==> blocks_below(*final(cache), height),
        r is Ok && blocks_below(*old(cache), height) ==> (r matches Ok(Some(pt)) ==> strictly_increasing(pt.blocks@)),
        r is Ok && all_accounted(*old(cache)) ==> all_accounted(*final(cache)),
        all_accounted(*old(cache)) ==> (r matches Ok(Some(pt)) ==> accounted(pt)),
        r is Ok ==> forall|h: Digest| #[trigger] final(cache).transactions@.contains_key(h) ==> old(cache).transactions@.contains_key(h),
        r matches Ok(Some(pt)) ==> !final(cache).transactions@.contains_key(pt.transaction.transaction.hash),
        r is Ok ==> forall|k: Digest| #[trigger] final(cache).receipt_to_tx@.contains_key(k)
            ==> (old(cache).receipt_to_tx@.contains_key(k) && k != item.receipt.receipt_id)
                || item.execution_outcome.receipt_ids@.contains(k),
{
    let OutcomeWithReceipt { receipt, execution_outcome } = item;
    let receipt_id = receipt.receipt_id;
    let ghost c0 = *cache;
    let tx_hash = match cache.get_and_remove_receipt_to_tx(&receipt_id) {
        Some(t) => t,
        None => {
            if skip {
                assert(cache.receipt_to_tx@ =~= c0.receipt_to_tx@);
                return Ok(None);
            } else {
                return Err(IndexerError::MissingTransactionForReceipt { receipt_id });
            }
        },
    };
    let ghost m1 = cache.receipt_to_tx@;
    let mut pt = match cache.get_and_remove_transaction(&tx_hash) {
        Some(p) => p,
        None => {
            return Err(IndexerError::MissingTransaction { tx_hash });
        },
    };
    let ghost p0 = pt;
    assert(p0 == c0.transactions@[tx_hash]);
    // Every other transaction keeps its pending receipts indexed.
    assert forall|h: Digest| #[trigger] cache.transactions@.contains_key(h) implies {
        let q = cache.transactions@[h];
        &&& q.transaction.transaction.hash == h
        &&& q.blocks@.len() > 0
        &&& forall|j: int| 0 <= j < q.pending_receipt_ids.len() ==> {
            &&& cache.receipt_to_tx@.contains_key(#[trigger] q.pending_receipt_ids@[j])
            &&& cache.receipt_to_tx@[q.pending_receipt_ids@[j]] == h
        }
    } by {
        let q = cache.transactions@[h];
        assert forall|j: int| 0 <= j < q.pending_receipt_ids.len() implies {
            &&& cache.receipt_to_tx@.contains_key(#[trigger] q.pending_receipt_ids@[j])
            &&& cache.receipt_to_tx@[q.pending_receipt_ids@[j]] == h
        } by {
            let k = q.pending_receipt_ids@[j];
            assert(c0.receipt_to_tx@.contains_key(k) && c0.receipt_to_tx@[k] == h);
        }
    }
    let ghost c2 = *cache;
    let pending = remove_all(&pt.pending_receipt_ids, &receipt_id);
    pt.pending_receipt_ids = pending;
    assert forall|j: int| 0 <= j < pt.pending_receipt_ids@.len() implies {
        &&& m1.contains_key(#[trigger] pt.pending_receipt_ids@[j])
        &&& m1[pt.pending_receipt_ids@[j]] == tx_hash
    } by {
        let k = pt.pending_receipt_ids@[j];
        let f = |y: Digest| y != receipt_id;
        assert(p0.pending_receipt_ids@.filter(f).contains(k));
        p0.pending_receipt_ids@.lemma_filter_contains_rev(f, k);
        assert(p0.pending_receipt_ids@.contains(k));
        let jj = choose|jj: int| 0 <= jj < p0.pending_receipt_ids@.len() && p0.pending_receipt_ids@[jj] == k;
        assert(c0.receipt_to_tx@.contains_key(p0.pending_receipt_ids@[jj]));
    }
    let n = pt.blocks.len();
    if pt.blocks[n - 1] != height {
        pt.blocks.push(height);
    }
    assert(pt.blocks@.last() == height);
    assert(blocks_below(c0, height) ==> strictly_increasing(pt.blocks@)) by {
        if blocks_below(c0, height) {
            assert(c0.transactions@.contains_key(tx_hash));
            if pt.blocks@.len() > n {
                assert(p0.blocks@[n - 1] < height);
                assert forall|a: int, b: int| 0 <= a < b < pt.blocks@.len() implies pt.blocks@[a] < pt.blocks@[b] by {
                    if b == n {
                        if a < n - 1 {
                            assert(p0.blocks@[a] < p0.blocks@[n - 1]);
                        }
                    } else {
                        assert(p0.blocks@[a] < p0.blocks@[b]);
                    }
                }
            }
        }
    }
    assert(pt.blocks@ == (if p0.blocks@.last() == height { p0.blocks@ } else { p0.blocks@.push(height) }));
    let ghost pend = pt.pending_receipt_ids@;
    let ghost blks = pt.blocks@;
    let ghost pool = c0.data_receipts@;
    let ghost pre_data = pt;
    assert(pend == p0.pending_receipt_ids@.filter(|y: Digest| y != item.receipt.receipt_id));
    match &receipt.kind {
        ReceiptKind::Action { input_data_ids, .. } => {
            let ghost inputs = input_data_ids@;
            assert(inputs == inputs_of(item.receipt.kind));
            let mut i: usize = 0;
            while i < input_data_ids.len()
                invariant
                    i <= input_data_ids.len(),
                    inputs == input_data_ids@,
                    inputs == inputs_of(item.receipt.kind),
                    pool == old(cache).data_receipts@,
                    tx_hash == old(cache).receipt_to_tx@[item.receipt.receipt_id],
                    cache.receipt_to_tx@ == m1,
                    m1 == old(cache).receipt_to_tx@.remove(item.receipt.receipt_id),
                    cache.transactions@ == c2.transactions@,
                    cache.block_headers@ == old(cache).block_headers@,
                    cache.last_block_height == old(cache).last_block_height,
                    cache.transactions@ == old(cache).transactions@.remove(tx_hash),
                    old(cache).receipt_to_tx@.contains_key(item.receipt.receipt_id),
                    old(cache).transactions@.contains_key(tx_hash),
                    item.receipt.kind is Action,
                    cache.tx_indexed(),
                    headers_sorted(cache.block_headers@),
                    !cache.transactions@.contains_key(tx_hash),
                    pt.pending_receipt_ids@ == pend,
                    pt.blocks@ == blks,
                    pt.tx_block_height == pre_data.tx_block_height,
                    pt.tx_block_hash == pre_data.tx_block_hash,
                    pt.tx_block_timestamp == pre_data.tx_block_timestamp,
                    pt.transaction.transaction == pre_data.transaction.transaction,
                    pt.transaction.execution_outcome == pre_data.transaction.execution_outcome,
                    pt.transaction.receipts == pre_data.transaction.receipts,
                    pt.transaction.data_receipts@ == pre_data.transaction.data_receipts@
                        + resolved(pool, inputs.subrange(0, i as int)),
                    resolvable(pool, inputs.subrange(0, i as int)),
                    forall|k: Digest| #[trigger] cache.data_receipts@.contains_key(k)
                        <==> (pool.contains_key(k) && !inputs.subrange(0, i as int).contains(k)),
                    forall|k: Digest| #[trigger] cache.data_receipts@.contains_key(k) ==> cache.data_receipts@[k] == pool[k],
                    forall|j: int| 0 <= j < pend.len() ==> {
                        &&& m1.contains_key(#[trigger] pend[j])
                        &&& m1[pend[j]] == tx_hash
                    },
                decreases input_data_ids.len() - i,
            {
                let ghost sub = inputs.subrange(0, i as int);
                let ghost sub1 = inputs.subrange(0, i + 1);
                let ghost id = inputs[i as int];
                let ghost cur = cache.data_receipts@;
                assert(sub1 == sub.push(id));
                assert(forall|k: Digest| #[trigger] cur.contains_key(k) <==> (pool.contains_key(k) && !sub.contains(k)));
                assert(forall|k: Digest| #[trigger] cur.contains_key(k) ==> cur[k] == pool[k]);
                match cache.get_and_remove_data_receipt(&input_data_ids[i]) {
                    Some(d) => {
                        pt.transaction.data_receipts.push(d);
                        assert(resolved(pool, sub1) == resolved(pool, sub).push(pool[id]));
                        assert(resolvable(pool, sub1)) by {
                            assert(!sub.contains(id));
                            assert forall|x: int, y: int| 0 <= x < y < sub1.len() implies sub1[x] != sub1[y] by {
                                if y == i {
                                    assert(sub.contains(sub1[x]) || x == i);
                                }
                            }
                            assert forall|x: int| 0 <= x < sub1.len() implies pool.contains_key(#[trigger] sub1[x]) by {
                                if x < i {
                                    assert(sub1[x] == sub[x]);
                                }
                            }
                        }
                        assert forall|k: Digest| #[trigger] cache.data_receipts@.contains_key(k)
                            <==> (pool.contains_key(k) && !sub1.contains(k)) by {
                            assert(cache.data_receipts@.contains_key(k) <==> (cur.contains_key(k) && k != id));
                            if k == id {
                                assert(sub1[i as int] == id);
                            }
                            if sub1.contains(k) && !sub.contains(k) {
                                let x = choose|x: int| 0 <= x < sub1.len() && sub1[x] == k;
                                if x < i {
                                    assert(sub[x] == k);
                                }
                            }
                            if sub.contains(k) {
                                let x = choose|x: int| 0 <= x < sub.len() && sub[x] == k;
                                assert(sub1[x] == k);
                            }
                        }
                    },
                    None => {
                        assert(!resolvable(pool, inputs)) by {
                            if resolvable(pool, inputs) {
                                assert(pool.contains_key(inputs[i as int]));
                                assert(sub.contains(id));
                                let x = choose|x: int| 0 <= x < sub.len() && sub[x] == id;
                                assert(inputs[x] == inputs[i as int]);
                            }
                        }
                        if skip {
                            purge_receipts(cache, &pt.pending_receipt_ids, Ghost(tx_hash));
                            return Ok(None);
                        } else {
                            return Err(IndexerError::MissingDataReceipt { data_id: input_data_ids[i] });
                        }
                    },
                }
                i = i + 1;
            }
            assert(inputs.subrange(0, inputs.len() as int) == inputs);
            assert(cache.data_receipts@ =~= pool.remove_keys(inputs.to_set()));
        },
        ReceiptKind::Data { .. } => {
            return Err(IndexerError::DataReceiptExecuted { receipt_id });
        },
    }
    let ghost c3 = *cache;
    let spawned = copy_ids(&execution_outcome.receipt_ids);
    pt.transaction.receipts.push(OutcomeWithReceipt { receipt, execution_outcome });
    append_ids(&mut pt.pending_receipt_ids, &spawned);
    assert(pt.transaction.receipts@ == p0.transaction.receipts@.push(item));
    assert(advanced(p0, pt, item, height, c0.data_receipts@));
    proof {
        if all_accounted(c0) {
            assert(c0.transactions@.contains_key(tx_hash));
            lemma_advance_keeps_accounted(p0, pt, item, height, c0.data_receipts@);
        }
    }
    if pt.pending_receipt_ids.len() == 0 {
        assert(cache.receipt_to_tx@ == c0.receipt_to_tx@.remove(item.receipt.receipt_id));
        return Ok(Some(pt));
    }
    let ghost p = pt;
    match cache.insert_transaction(pt, &spawned) {
        Ok(()) => {},
        Err(e) => {
            return Err(e);
        },
    }
    let ghost c4 = *cache;
    assert(c4.transactions@ =~= c0.transactions@.insert(tx_hash, p));
    assert forall|h: Digest| #[trigger] c4.transactions@.contains_key(h) implies {
        let q = c4.transactions@[h];
        &&& q.transaction.transaction.hash == h
        &&& q.blocks@.len() > 0
        &&& forall|j: int| 0 <= j < q.pending_receipt_ids.len() ==> {
            &&& c4.receipt_to_tx@.contains_key(#[trigger] q.pending_receipt_ids@[j])
            &&& c4.receipt_to_tx@[q.pending_receipt_ids@[j]] == h
        }
    } by {
        if h == tx_hash {
            assert forall|j: int| 0 <= j < p.pending_receipt_ids.len() implies {
                &&& c4.receipt_to_tx@.contains_key(#[trigger] p.pending_receipt_ids@[j])
                &&& c4.receipt_to_tx@[p.pending_receipt_ids@[j]] == tx_hash
            } by {
                let k = p.pending_receipt_ids@[j];
                if j < pend.len() {
                    assert(k == pend[j]);
                    assert(m1.contains_key(k));
                } else {
                    assert(k == spawned@[j - pend.len()]);
                    assert(spawned@.contains(k));
                }
            }
        } else {
            let q = c3.transactions@[h];
            assert forall|j: int| 0 <= j < q.pending_receipt_ids.len() implies {
                &&& c4.receipt_to_tx@.contains_key(#[trigger] q.pending_receipt_ids@[j])
                &&& c4.receipt_to_tx@[q.pending_receipt_ids@[j]] == h
            } by {
                let k = q.pending_receipt_ids@[j];
                assert(c3.receipt_to_tx@.contains_key(k) && c3.receipt_to_tx@[k] == h);
                if spawned@.contains(k) {
                    let jj = choose|jj: int| 0 <= jj < spawned@.len() && spawned@[jj] == k;
                    assert(c3.receipt_to_tx@.contains_key(spawned@[jj]));
                }
            }
        }
    }
    Ok(None)
}

/// Registers the chunk's transactions, in order, then pools its data receipts.
fn ingest_chunk(cache: &mut TxCache, chunk: Chunk, header: &BlockHeader) -> (r: Result<(), IndexerError>)
    requires
        old(cache).wf(),
    ensures
        r is Ok ==> final(cache).wf(),
        final(cache).block_headers@ == old(cache).block_headers@,
        final(cache).last_block_height == old(cache).last_block_height,
        r is Ok && pending_nonempty(*old(cache)) && chunk_spawns_receipts(chunk) ==> pending_nonempty(*final(cache)),
        r is Ok && blocks_below(*old(cache), header.height) ==> blocks_below(*final(cache), header.height),
        r is Ok && all_accounted(*old(cache)) ==> all_accounted(*final(cache)),
        r is Err ==> r matches Err(IndexerError::ReceiptRemapped { .. }) || r matches Err(IndexerError::DataReceiptRemapped { .. }),
        r is Ok ==> forall|j: int| 0 <= j < chunk.transactions@.len()
            ==> final(cache).transactions@.contains_key((#[trigger] chunk.transactions@[j]).transaction.hash)
                && final(cache).transactions@[chunk.transactions@[j].transaction.hash].blocks@ == seq![header.height],
        r is Ok ==> forall|k: Digest| #[trigger] old(cache).transactions@.contains_key(k)
            && old(cache).transactions@[k].blocks@ == seq![header.height]
            ==> final(cache).transactions@.contains_key(k) && final(cache).transactions@[k].blocks@ == seq![header.height],
        r is Ok ==> forall|j: int| 0 <= j < chunk.receipts@.len() ==> match (#[trigger] chunk.receipts@[j]).kind {
            ReceiptKind::Data { data_id } => final(cache).data_receipts@.contains_key(data_id),
            ReceiptKind::Action { .. } => true,
        },
{
    let ghost acc0 = all_accounted(*cache);
    let ghost ts = chunk.transactions@;
    let ghost rcs = chunk.receipts@;
    let ghost spawns = chunk_spawns_receipts(chunk);
    let ghost ne0 = pending_nonempty(*cache);
    let ghost bb0 = blocks_below(*cache, header.height);
    let Chunk { transactions, receipts } = chunk;
    let mut txs = reversed(transactions);
    while txs.len() > 0
        invariant
            cache.wf(),
            cache.block_headers@ == old(cache).block_headers@,
            cache.last_block_height == old(cache).last_block_height,
            spawns ==> forall|i: int| 0 <= i < txs@.len() ==> (#[trigger] txs@[i]).outcome.receipt_ids@.len() > 0,
            ne0 && spawns ==> pending_nonempty(*cache),
            bb0 ==> blocks_below(*cache, header.height),
            acc0 ==> all_accounted(*cache),
            txs@.len() <= ts.len(),
            forall|i: int| 0 <= i < txs@.len() ==> #[trigger] txs@[i] == ts[ts.len() - 1 - i],
            forall|k: int| 0 <= k < ts.len() - txs@.len()
                ==> cache.transactions@.contains_key((#[trigger] ts[k]).transaction.hash)
                    && cache.transactions@[ts[k].transaction.hash].blocks@ == seq![header.height],
            forall|k: Digest| #[trigger] old(cache).transactions@.contains_key(k)
                && old(cache).transactions@[k].blocks@ == seq![header.height]
                ==> cache.transactions@.contains_key(k) && cache.transactions@[k].blocks@ == seq![header.height],
        decreases txs.len(),
    {
        let ghost before = cache.transactions@;
        let ghost done = ts.len() - txs@.len();
        assert(txs@[txs@.len() - 1] == ts[done]);
        let item = txs.pop().unwrap();
        match ingest_transaction(cache, item, header) {
            Ok(()) => {},
            Err(e) => {
                return Err(e);
            },
        }
        assert forall|k: int| 0 <= k < ts.len() - txs@.len()
            implies cache.transactions@.contains_key((#[trigger] ts[k]).transaction.hash)
                && cache.transactions@[ts[k].transaction.hash].blocks@ == seq![header.height] by {
            if k < done {
                assert(before.contains_key(ts[k].transaction.hash));
            }
        }
    }
    let mut rs = reversed(receipts);
    while rs.len() > 0
        invariant
            cache.wf(),
            cache.block_headers@ == old(cache).block_headers@,
            cache.last_block_height == old(cache).last_block_height,
            ne0 && spawns ==> pending_nonempty(*cache),
            bb0 ==> blocks_below(*cache, header.height),
            acc0 ==> all_accounted(*cache),
            forall|k: int| 0 <= k < ts.len() ==> cache.transactions@.contains_key((#[trigger] ts[k]).transaction.hash)
                && cache.transactions@[ts[k].transaction.hash].blocks@ == seq![header.height],
            forall|k: Digest| #[trigger] old(cache).transactions@.contains_key(k)
                && old(cache).transactions@[k].blocks@ == seq![header.height]
                ==> cache.transactions@.contains_key(k) && cache.transactions@[k].blocks@ == seq![header.height],
            rs@.len() <= rcs.len(),
            forall|i: int| 0 <= i < rs@.len() ==> #[trigger] rs@[i] == rcs[rcs.len() - 1 - i],
            forall|k: int| 0 <= k < rcs.len() - rs@.len() ==> match (#[trigger] rcs[k]).kind {
                ReceiptKind::Data { data_id } => cache.data_receipts@.contains_key(data_id),
                ReceiptKind::Action { .. } => true,
            },
        decreases rs.len(),
    {
        let ghost pool_before = cache.data_receipts@;
        let ghost done = rcs.len() - rs@.len();
        assert(rs@[rs@.len() - 1] == rcs[done]);
        let receipt = rs.pop().unwrap();
        match receipt.kind {
            ReceiptKind::Data { data_id } => {
                match cache.insert_data_receipt(&data_id, receipt) {
                    Ok(()) => {},
                    Err(e) => {
                        return Err(e);
                    },
                }
            },
            ReceiptKind::Action { .. } => {},
        }
        assert forall|k: int| 0 <= k < rcs.len() - rs@.len() implies match (#[trigger] rcs[k]).kind {
            ReceiptKind::Data { data_id } => cache.data_receipts@.contains_key(data_id),
            ReceiptKind::Action { .. } => true,
        } by {
            if k < done {
                match rcs[k].kind {
                    ReceiptKind::Data { data_id } => {
                        assert(pool_before.contains_key(data_id));
                    },
                    ReceiptKind::Action { .. } => {},
                }
            }
        }
    }
    Ok(())
}

/// The receipt executions of the shards, in order.
pub open spec fn block_outcomes(shards: Seq<Shard>) -> Seq<OutcomeWithReceipt>
    decreases shards.len(),
{
    if shards.len() == 0 {
        Seq::empty()
    } else {
        block_outcomes(shards.drop_last()) + shards.last().receipt_execution_outcomes@
    }
}

/// The transactions submitted in the chunks of the shards, in order.
pub open spec fn block_submitted(shards: Seq<Shard>) -> Seq<TransactionWithOutcome>
    decreases shards.len(),
{
    if shards.len() == 0 {
        Seq::empty()
    } else {
        block_submitted(shards.drop_last()) + match shards.last().chunk {
            Some(c) => c.transactions@,
            None => Seq::empty(),
        }
    }
}

/// Every transaction of `txs` that the cache holds appeared at `height` only.
pub open spec fn created_at(c: TxCache, txs: Seq<TransactionWithOutcome>, height: u64) -> bool {
    forall|j: int| 0 <= j < txs.len() && c.transactions@.contains_key((#[trigger] txs[j]).transaction.hash)
        ==> c.transactions@[txs[j].transaction.hash].blocks@ == seq![height]
}

/// Some execution among `outs` spawned the receipt `id`.
pub open spec fn spawned_among(outs: Seq<OutcomeWithReceipt>, id: Digest) -> bool {
    exists|j: int| 0 <= j < outs.len() && (#[trigger] outs[j]).execution_outcome.receipt_ids@.contains(id)
}

/// No receipt executed among `outs` is still indexed, unless one of them
/// spawned it again.
pub open spec fn executions_consumed(m: Map<Digest, Digest>, outs: Seq<OutcomeWithReceipt>) -> bool {
    forall|i: int| 0 <= i < outs.len() && m.contains_key((#[trigger] outs[i]).receipt.receipt_id)
        ==> spawned_among(outs, outs[i].receipt.receipt_id)
}

/// A complete transaction that the watch list kept, with the accounts it
/// refers to.
pub struct CompleteTransaction {
    pub transaction: PendingTransaction,
    pub accounts: Vec<String>,
}

/// `c` is a transaction that completed in the block `height` and that the
/// watch list keeps: it waits for nothing more, and its accounts are exactly
/// those it refers to.
pub open spec fn completed_in(c: CompleteTransaction, height: u64, watch_list: Seq<WatchListEntry>) -> bool {
    &&& c.transaction.pending_receipt_ids@.len() == 0
    &&& c.transaction.blocks@.len() > 0
    &&& c.transaction.blocks@.last() == height
    &&& distinct(c.accounts@)
    &&& forall|x: Seq<char>| #[trigger] holds(c.accounts@, x) <==> named_by_transaction(c.transaction, x)
    &&& watch_scan(watch_list, texts(c.accounts@)) == Some(true)
}

/// The block rows of the complete transactions, in order.
pub open spec fn all_block_rows(hs: Seq<BlockHeader>, cs: Seq<CompleteTransaction>) -> Seq<BlockTxRow>
    decreases cs.len(),
{
    if cs.len() == 0 {
        Seq::empty()
    } else {
        all_block_rows(hs, cs.drop_last()) + block_rows(hs, cs.last().transaction.blocks@, cs.last().transaction)
    }
}

/// The missing-header records of the complete transactions, in order.
pub open spec fn all_missing_headers(hs: Seq<BlockHeader>, cs: Seq<CompleteTransaction>) -> Seq<MissingHeader>
    decreases cs.len(),
{
    if cs.len() == 0 {
        Seq::empty()
    } else {
        all_missing_headers(hs, cs.drop_last()) + missing_headers(hs, cs.last().transaction.blocks@, cs.last().transaction)
    }
}

/// The receipt rows of the complete transactions, in order.
pub open spec fn all_receipt_rows(cs: Seq<CompleteTransaction>) -> Seq<ReceiptTxRow>
    decreases cs.len(),
{
    if cs.len() == 0 {
        Seq::empty()
    } else {
        all_receipt_rows(cs.drop_last()) + receipt_rows(cs.last().transaction)
    }
}

/// The account rows of the complete transactions, in order.
pub open spec fn all_account_rows(cs: Seq<CompleteTransaction>) -> Seq<AccountTxRow>
    decreases cs.len(),
{
    if cs.len() == 0 {
        Seq::empty()
    } else {
        all_account_rows(cs.drop_last()) + account_rows(cs.last().transaction, cs.last().accounts@)
    }
}

/// Appends `src` to `dst`.
fn append_all<T>(dst: &mut Vec<T>, src: Vec<T>)
    ensures
        final(dst)@ == old(dst)@ + src@,
{
    let mut rest = reversed(src);
    let ghost target = old(dst)@ + src@;
    while rest.len() > 0
        invariant
            dst@ + rest@.reverse() == target,
        decreases rest.len(),
    {
        let ghost before = rest@;
        let x = rest.pop().unwrap();
        assert(before.reverse() == seq![x] + rest@.reverse());
        dst.push(x);
        assert(dst@ + rest@.reverse() == target);
    }
    assert(rest@.reverse() == Seq::<T>::empty());
    assert(dst@ == dst@ + rest@.reverse());
}

/// What processing one block produced.
pub struct BlockReport {
    /// How many transactions completed in the block and were kept.
    pub complete: usize,
    /// The transactions that completed in the block and that the watch list
    /// kept, in the order they completed.
    pub completed: Vec<CompleteTransaction>,
    /// Heights of kept transactions whose headers were gone.
    pub missing_headers: Vec<MissingHeader>,
    /// Whether the buffered rows are due to be committed.
    pub commit: bool,
}

/// Blocks whose height is a multiple of this trigger a commit.
pub const SAVE_STEP: u64 = 1000;

/// The buffered rows are due for a commit after the block `block_height`.
pub open spec fn commit_due(buffered: nat, min_batch: nat, every_block: bool, block_height: u64) -> bool {
    buffered >= min_batch || block_height % SAVE_STEP == 0 || every_block
}

pub struct TransactionsData {
    pub commit_every_block: bool,
    pub min_batch: usize,
    pub tx_cache: TxCache,
    pub rows: TxRows,
    pub watch_list: Vec<WatchListEntry>,
}

impl TransactionsData {
    pub fn new(commit_every_block: bool, min_batch: usize, tx_cache: TxCache) -> (r: TransactionsData)
        ensures
            r.commit_every_block == commit_every_block,
            r.min_batch == min_batch,
            r.tx_cache == tx_cache,
            r.rows.is_empty_spec(),
            r.watch_list@.len() == 0,
    {
        TransactionsData { commit_every_block, min_batch, tx_cache, rows: TxRows::new(), watch_list: Vec::new() }
    }

    /// Adds the entries to the watch list, once every pattern among them
    /// compiles; otherwise the watch list stays as it was.
    pub fn set_watch_list(&mut self, watch_list: Vec<WatchListEntry>) -> (r: Result<(), IndexerError>)
        ensures
            r is Ok <==> watch_list_valid(watch_list@),
            r is Ok ==> final(self).watch_list@ == old(self).watch_list@ + watch_list@,
            r is Err ==> final(self).watch_list@ == old(self).watch_list@,
            r is Err ==> r matches Err(IndexerError::InvalidWatchListPattern { .. }),
            final(self).tx_cache == old(self).tx_cache,
            final(self).rows == old(self).rows,
            final(self).min_batch == old(self).min_batch,
            final(self).commit_every_block == old(self).commit_every_block,
    {
        match validate_watch_list(&watch_list) {
            Ok(()) => {},
            Err(e) => {
                return Err(e);
            },
        }
        let mut wl = reversed(watch_list);
        let ghost target = old(self).watch_list@ + watch_list@;
        while wl.len() > 0
            invariant
                self.watch_list@ + wl@.reverse() == target,
                self.tx_cache == old(self).tx_cache,
                self.rows == old(self).rows,
                self.min_batch == old(self).min_batch,
                self.commit_every_block == old(self).commit_every_block,
            decreases wl.len(),
        {
            let ghost before = wl@;
            let e = wl.pop().unwrap();
            assert(before.reverse() == seq![e] + wl@.reverse());
            self.watch_list.push(e);
            assert(self.watch_list@ + wl@.reverse() == target);
        }
        assert(wl@.reverse() == Seq::<WatchListEntry>::empty());
        assert(self.watch_list@ == self.watch_list@ + wl@.reverse());
        Ok(())
    }

    /// Whether the buffered rows are due to be committed after the block
    /// `block_height`.
    pub fn maybe_commit(&self, block_height: u64) -> (r: bool)
        ensures
            r == commit_due(self.rows.transactions@.len(), self.min_batch as nat, self.commit_every_block, block_height),
    {
        self.rows.transactions.len() >= self.min_batch || block_height % SAVE_STEP == 0 || self.commit_every_block
    }

    /// Hands over the buffered rows, leaving the buffers empty.
    pub fn commit(&mut self) -> (r: TxRows)
        ensures
            r == old(self).rows,
            final(self).rows.is_empty_spec(),
            final(self).tx_cache == old(self).tx_cache,
            final(self).watch_list == old(self).watch_list,
    {
        let mut rows = TxRows::new();
        std::mem::swap(&mut rows, &mut self.rows);
        rows
    }

    /// Processes one block: registers its header, its submitted
    /// transactions and data receipts, then applies its receipt executions
    /// in order. Complete transactions that the watch list keeps become rows,
    /// unless the block is at or below `last_db_block_height` (skip mode, in
    /// which gaps in the cache are tolerated).
    pub fn process_block(&mut self, block: Block, last_db_block_height: u64) -> (r: Result<BlockReport, IndexerError>)
        requires
            old(self).tx_cache.wf(),
        ensures
            r is Ok ==> final(self).tx_cache.wf(),
            r is Ok ==> final(self).tx_cache.block_headers@.len() <= BLOCK_HEADER_CLEANUP,
            r is Ok ==> final(self).tx_cache.last_block_height == block.header.height,
            !watch_list_valid(old(self).watch_list@) ==> r matches Err(IndexerError::InvalidWatchListPattern { .. }),
            r matches Err(IndexerError::InvalidWatchListPattern { .. }) ==> !watch_list_valid(old(self).watch_list@),
            watch_list_valid(old(self).watch_list@)
                && crate::cache::header_conflicts(old(self).tx_cache.block_headers@, block.header) ==> r == Err::<BlockReport, IndexerError>(
                IndexerError::HeaderMismatch { height: block.header.height }),
            r matches Err(IndexerError::HeaderMismatch { .. }) ==> crate::cache::header_conflicts(
                old(self).tx_cache.block_headers@, block.header),
            block.shards@.len() == 0 && watch_list_valid(old(self).watch_list@) && !crate::cache::header_conflicts(old(self).tx_cache.block_headers@, block.header)
                ==> r is Ok,
            r matches Err(IndexerError::MissingTransactionForReceipt { .. }) ==> block.header.height > last_db_block_height,
            r matches Err(IndexerError::MissingDataReceipt { .. }) ==> block.header.height > last_db_block_height,
            r is Ok && pending_nonempty(old(self).tx_cache) && block_spawns_receipts(block) ==> pending_nonempty(final(self).tx_cache),
            r is Ok && blocks_below(old(self).tx_cache, block.header.height) ==> blocks_below(final(self).tx_cache, block.header.height),
            r is Ok && all_accounted(old(self).tx_cache) ==> all_accounted(final(self).tx_cache),
            block.header.height <= last_db_block_height ==> final(self).rows == old(self).rows,
            r matches Ok(rep) ==> rep.complete == rep.completed@.len(),
            r is Ok ==> created_at(final(self).tx_cache, block_submitted(block.shards@), block.header.height),
            r is Ok ==> executions_consumed(final(self).tx_cache.receipt_to_tx@, block_outcomes(block.shards@)),
            r matches Ok(rep) ==> forall|i: int| 0 <= i < rep.completed@.len() ==> !final(self).tx_cache.transactions@.contains_key(
                (#[trigger] rep.completed@[i]).transaction.transaction.transaction.hash),
            r matches Ok(rep) ==> forall|i: int| 0 <= i < rep.completed@.len()
                ==> completed_in(#[trigger] rep.completed@[i], block.header.height, old(self).watch_list@),
            r matches Ok(rep) ==> (all_accounted(old(self).tx_cache) ==> forall|i: int| 0 <= i < rep.completed@.len()
                ==> accounted((#[trigger] rep.completed@[i]).transaction)),
            r matches Ok(rep) ==> (block.header.height <= last_db_block_height ==> rep.missing_headers@.len() == 0),
            r matches Ok(rep) ==> (block.header.height > last_db_block_height ==> {
                let hs = final(self).tx_cache.block_headers@;
                let cs = rep.completed@;
                let n = old(self).rows.transactions@.len();
                &&& final(self).rows.block_txs@ == old(self).rows.block_txs@ + all_block_rows(hs, cs)
                &&& final(self).rows.receipt_txs@ == old(self).rows.receipt_txs@ + all_receipt_rows(cs)
                &&& final(self).rows.account_txs@ == old(self).rows.account_txs@ + all_account_rows(cs)
                &&& rep.missing_headers@ == all_missing_headers(hs, cs)
                &&& final(self).rows.transactions@.len() == n + cs.len()
                &&& final(self).rows.transactions@.subrange(0, n as int) == old(self).rows.transactions@
                &&& forall|k: int| 0 <= k < cs.len() ==> is_transaction_row(#[trigger] final(self).rows.transactions@[n + k], cs[k].transaction)
            }),
            r matches Ok(rep) ==> rep.commit == commit_due(
                final(self).rows.transactions@.len(), old(self).min_batch as nat, old(self).commit_every_block, block.header.height),
            final(self).watch_list == old(self).watch_list,
            final(self).min_batch == old(self).min_batch,
            final(self).commit_every_block == old(self).commit_every_block,
    {
        let ghost spawns = block_spawns_receipts(block);
        let ghost ne0 = pending_nonempty(self.tx_cache);
        let ghost acc0 = all_accounted(self.tx_cache);
        let Block { header, shards } = block;
        let height = header.height;
        let ghost bb0 = blocks_below(self.tx_cache, height);
        let skip = height <= last_db_block_height;
        match validate_watch_list(&self.watch_list) {
            Ok(()) => {},
            Err(e) => {
                return Err(e);
            },
        }
        let ghost no_conflict = !crate::cache::header_conflicts(old(self).tx_cache.block_headers@, header);
        match self.tx_cache.insert_block_header(header) {
            Ok(()) => {},
            Err(e) => {
                return Err(e);
            },
        }
        assert(ne0 ==> pending_nonempty(self.tx_cache));
        assert(bb0 ==> blocks_below(self.tx_cache, height));
        let mut rev = reversed(shards);
        let mut outcome_lists: Vec<Vec<OutcomeWithReceipt>> = Vec::new();
        while rev.len() > 0
            invariant
                outcome_lists@.len() + rev@.len() == block.shards@.len(),
                forall|i: int| 0 <= i < rev@.len() ==> #[trigger] rev@[i] == block.shards@[block.shards@.len() - 1 - i],
                forall|k: int| 0 <= k < outcome_lists@.len() ==> #[trigger] outcome_lists@[k]
                    == block.shards@[k].receipt_execution_outcomes,
                forall|j: int| 0 <= j < block_submitted(block.shards@.subrange(0, outcome_lists@.len() as int)).len()
                    ==> self.tx_cache.transactions@.contains_key(
                        (#[trigger] block_submitted(block.shards@.subrange(0, outcome_lists@.len() as int))[j]).transaction.hash)
                    && self.tx_cache.transactions@[block_submitted(block.shards@.subrange(0, outcome_lists@.len() as int))[j].transaction.hash].blocks@
                        == seq![height],
                self.tx_cache.wf(),
                self.tx_cache.last_block_height == old(self).tx_cache.last_block_height,
                self.rows == old(self).rows,
                self.watch_list == old(self).watch_list,
                self.min_batch == old(self).min_batch,
                self.commit_every_block == old(self).commit_every_block,
                spawns ==> forall|i: int| 0 <= i < rev@.len() ==> match (#[trigger] rev@[i]).chunk {
                    Some(c) => chunk_spawns_receipts(c),
                    None => true,
                },
                ne0 && spawns ==> pending_nonempty(self.tx_cache),
                bb0 ==> blocks_below(self.tx_cache, height),
                acc0 ==> all_accounted(self.tx_cache),
                header.height == height,
                skip == (height <= last_db_block_height),
                height == block.header.height,
                no_conflict == !crate::cache::header_conflicts(old(self).tx_cache.block_headers@, block.header),
                no_conflict,
                watch_list_valid(self.watch_list@),
            decreases rev.len(),
        {
            let ghost si = outcome_lists@.len() as int;
            let ghost sub0 = block_submitted(block.shards@.subrange(0, si));
            let ghost t_before = self.tx_cache.transactions@;
            assert(rev@[rev@.len() - 1] == block.shards@[si]);
            assert(block.shards@.subrange(0, si + 1).drop_last() == block.shards@.subrange(0, si));
            assert(block.shards@.subrange(0, si + 1).last() == block.shards@[si]);
            let shard = rev.pop().unwrap();
            let Shard { chunk, receipt_execution_outcomes } = shard;
            outcome_lists.push(receipt_execution_outcomes);
            let ghost ch = chunk;
            match chunk {
                Some(c) => {
                    match ingest_chunk(&mut self.tx_cache, c, &header) {
                        Ok(()) => {},
                        Err(e) => {
                            return Err(e);
                        },
                    }
                },
                None => {},
            }
            proof {
                let sub1 = block_submitted(block.shards@.subrange(0, si + 1));
                let added = match ch {
                    Some(c) => c.transactions@,
                    None => Seq::<TransactionWithOutcome>::empty(),
                };
                assert(sub1 == sub0 + added);
                assert forall|j: int| 0 <= j < sub1.len() implies self.tx_cache.transactions@.contains_key(
                    (#[trigger] sub1[j]).transaction.hash)
                    && self.tx_cache.transactions@[sub1[j].transaction.hash].blocks@ == seq![height] by {
                    if j < sub0.len() {
                        assert(sub1[j] == sub0[j]);
                        assert(t_before.contains_key(sub0[j].transaction.hash));
                    } else {
                        assert(sub1[j] == added[j - sub0.len()]);
                    }
                }
            }
        }
        assert(block.shards@.subrange(0, block.shards@.len() as int) == block.shards@);
        let mut lists = reversed(outcome_lists);
        let mut complete: Vec<CompleteTransaction> = Vec::new();
        while lists.len() > 0
            invariant
                lists@.len() <= block.shards@.len(),
                forall|i: int| 0 <= i < lists@.len() ==> #[trigger] lists@[i]
                    == block.shards@[block.shards@.len() - 1 - i].receipt_execution_outcomes,
                executions_consumed(self.tx_cache.receipt_to_tx@,
                    block_outcomes(block.shards@.subrange(0, block.shards@.len() - lists@.len()))),
                created_at(self.tx_cache, block_submitted(block.shards@), height),
                self.tx_cache.wf(),
                self.rows == old(self).rows,
                self.watch_list == old(self).watch_list,
                self.min_batch == old(self).min_batch,
                self.commit_every_block == old(self).commit_every_block,
                ne0 && spawns ==> pending_nonempty(self.tx_cache),
                bb0 ==> blocks_below(self.tx_cache, height),
                acc0 ==> all_accounted(self.tx_cache),
                forall|i: int| 0 <= i < complete@.len() ==> completed_in(#[trigger] complete@[i], height, self.watch_list@),
                acc0 ==> forall|i: int| 0 <= i < complete@.len() ==> accounted((#[trigger] complete@[i]).transaction),
                forall|i: int| 0 <= i < complete@.len() ==> !self.tx_cache.transactions@.contains_key(
                    (#[trigger] complete@[i]).transaction.transaction.transaction.hash),
                skip == (height <= last_db_block_height),
                height == block.header.height,
                no_conflict == !crate::cache::header_conflicts(old(self).tx_cache.block_headers@, block.header),
                no_conflict,
                watch_list_valid(self.watch_list@),
            decreases lists.len(),
        {
            let ghost sidx = block.shards@.len() - lists@.len();
            let ghost prefix = block_outcomes(block.shards@.subrange(0, sidx));
            assert(lists@[lists@.len() - 1] == block.shards@[sidx].receipt_execution_outcomes);
            let list = lists.pop().unwrap();
            let ghost lv = list@;
            assert(block.shards@.subrange(0, sidx + 1).drop_last() == block.shards@.subrange(0, sidx));
            assert(block_outcomes(block.shards@.subrange(0, sidx + 1)) == prefix + lv);
            let mut items = reversed(list);
            while items.len() > 0
                invariant
                    block.shards@.len() > 0,
                    sidx == block.shards@.len() - lists@.len() - 1,
                    block_outcomes(block.shards@.subrange(0, sidx + 1)) == prefix + lv,
                    prefix == block_outcomes(block.shards@.subrange(0, sidx)),
                    items@.len() <= lv.len(),
                    forall|i: int| 0 <= i < items@.len() ==> #[trigger] items@[i] == lv[lv.len() - 1 - i],
                    executions_consumed(self.tx_cache.receipt_to_tx@, prefix + lv.subrange(0, lv.len() - items@.len())),
                    created_at(self.tx_cache, block_submitted(block.shards@), height),
                    forall|i: int| 0 <= i < lists@.len() ==> #[trigger] lists@[i]
                        == block.shards@[block.shards@.len() - 1 - i].receipt_execution_outcomes,
                    self.tx_cache.wf(),
                    self.rows == old(self).rows,
                    self.watch_list == old(self).watch_list,
                    self.min_batch == old(self).min_batch,
                    self.commit_every_block == old(self).commit_every_block,
                    ne0 && spawns ==> pending_nonempty(self.tx_cache),
                    bb0 ==> blocks_below(self.tx_cache, height),
                    acc0 ==> all_accounted(self.tx_cache),
                    forall|i: int| 0 <= i < complete@.len() ==> completed_in(#[trigger] complete@[i], height, self.watch_list@),
                acc0 ==> forall|i: int| 0 <= i < complete@.len() ==> accounted((#[trigger] complete@[i]).transaction),
                forall|i: int| 0 <= i < complete@.len() ==> !self.tx_cache.transactions@.contains_key(
                    (#[trigger] complete@[i]).transaction.transaction.transaction.hash),
                    skip == (height <= last_db_block_height),
                    height == block.header.height,
                    no_conflict == !crate::cache::header_conflicts(old(self).tx_cache.block_headers@, block.header),
                    no_conflict,
                watch_list_valid(self.watch_list@),
                decreases items.len(),
            {
                let ghost done = lv.len() - items@.len();
                let ghost outs0 = prefix + lv.subrange(0, done);
                let ghost outs1 = prefix + lv.subrange(0, done + 1);
                let ghost m0 = self.tx_cache.receipt_to_tx@;
                assert(items@[items@.len() - 1] == lv[done]);
                let item = items.pop().unwrap();
                let ghost it = item;
                assert(outs1 == outs0.push(it));
                let res = apply_outcome(&mut self.tx_cache, item, height, skip);
                proof {
                    if res is Ok {
                    let m1 = self.tx_cache.receipt_to_tx@;
                    assert forall|i: int| 0 <= i < outs1.len() && m1.contains_key((#[trigger] outs1[i]).receipt.receipt_id)
                        implies spawned_among(outs1, outs1[i].receipt.receipt_id) by {
                        let id = outs1[i].receipt.receipt_id;
                        if it.execution_outcome.receipt_ids@.contains(id) {
                            assert(outs1[outs0.len() as int] == it);
                        } else {
                            assert(m0.contains_key(id) && id != it.receipt.receipt_id);
                            assert(i < outs0.len());
                            assert(outs0[i] == outs1[i]);
                            let j = choose|j: int| 0 <= j < outs0.len() && (#[trigger] outs0[j]).execution_outcome.receipt_ids@.contains(id);
                            assert(outs1[j] == outs0[j]);
                        }
                    }
                    }
                }
                match res {
                    Err(e) => {
                        return Err(e);
                    },
                    Ok(None) => {},
                    Ok(Some(pt)) => {
                        let accounts = get_accounts_from_transaction(&pt);
                        match some_account_in_watch_list(&self.watch_list, &accounts) {
                            Err(e) => {
                                return Err(e);
                            },
                            Ok(true) => {
                                complete.push(CompleteTransaction { transaction: pt, accounts });
                            },
                            Ok(false) => {},
                        }
                    },
                }
            }
            assert(lv.subrange(0, lv.len() as int) == lv);
        }
        assert(block.shards@.subrange(0, block.shards@.len() as int) == block.shards@);
        self.tx_cache.trim_headers();
        self.tx_cache.last_block_height = height;
        let mut missing: Vec<MissingHeader> = Vec::new();
        let ghost settled = self.tx_cache;
        let ghost hs = self.tx_cache.block_headers@;
        let ghost old_len = old(self).rows.transactions@.len();
        if height > last_db_block_height {
            let mut i: usize = 0;
            while i < complete.len()
                invariant
                    i <= complete.len(),
                    headers_sorted(self.tx_cache.block_headers@),
                    self.tx_cache == settled,
                    hs == settled.block_headers@,
                    old_len == old(self).rows.transactions@.len(),
                    self.watch_list == old(self).watch_list,
                    self.min_batch == old(self).min_batch,
                    self.commit_every_block == old(self).commit_every_block,
                    forall|k: int| 0 <= k < complete@.len() ==> completed_in(#[trigger] complete@[k], height, self.watch_list@),
                    self.rows.block_txs@ == old(self).rows.block_txs@ + all_block_rows(hs, complete@.subrange(0, i as int)),
                    self.rows.receipt_txs@ == old(self).rows.receipt_txs@ + all_receipt_rows(complete@.subrange(0, i as int)),
                    self.rows.account_txs@ == old(self).rows.account_txs@ + all_account_rows(complete@.subrange(0, i as int)),
                    missing@ == all_missing_headers(hs, complete@.subrange(0, i as int)),
                    self.rows.transactions@.len() == old_len + i,
                    self.rows.transactions@.subrange(0, old_len as int) == old(self).rows.transactions@,
                    forall|k: int| 0 <= k < i ==> is_transaction_row(#[trigger] self.rows.transactions@[old_len + k], complete@[k].transaction),
                decreases complete.len() - i,
            {
                let ghost sub = complete@.subrange(0, i as int);
                let ghost sub1 = complete@.subrange(0, i + 1);
                assert(sub1.drop_last() == sub);
                assert(sub1.last() == complete@[i as int]);
                let ghost prev_tx = self.rows.transactions@;
                let ghost prev_b = self.rows.block_txs@;
                let ghost prev_r = self.rows.receipt_txs@;
                let ghost prev_a = self.rows.account_txs@;
                let m = project_transaction(&self.tx_cache, &mut self.rows, &complete[i].transaction, &complete[i].accounts);
                append_all(&mut missing, m);
                assert(self.rows.block_txs@ =~= old(self).rows.block_txs@ + all_block_rows(hs, sub1));
                assert(self.rows.receipt_txs@ =~= old(self).rows.receipt_txs@ + all_receipt_rows(sub1));
                assert(self.rows.account_txs@ =~= old(self).rows.account_txs@ + all_account_rows(sub1));
                assert(self.rows.transactions@.drop_last() == prev_tx);
                assert(self.rows.transactions@.subrange(0, old_len as int) =~= prev_tx.subrange(0, old_len as int));
                assert forall|k: int| 0 <= k < i + 1 implies is_transaction_row(#[trigger] self.rows.transactions@[old_len + k], complete@[k].transaction) by {
                    if k < i {
                        assert(self.rows.transactions@[old_len + k] == prev_tx[old_len + k]);
                    }
                }
                i = i + 1;
            }
            assert(complete@.subrange(0, complete@.len() as int) == complete@);
        }
        let commit = self.maybe_commit(height);
        let complete_count = complete.len();
        Ok(BlockReport { complete: complete_count, completed: complete, missing_headers: missing, commit })
    }

    /// The height to resume from: the larger of what the sink and the cache
    /// last saw (a sink that reports nothing counts as 0).
    pub fn last_block_height(&self, db_block: Option<u64>) -> (r: u64)
        ensures
            r == max_u64(
                match db_block {
                    Some(b) => b,
                    None => 0,
                },
                self.tx_cache.last_block_height,
            ),
    {
        let db = match db_block {
            Some(b) => b,
            None => 0,
        };
        if db >= self.tx_cache.last_block_height {
            db
        } else {
            self.tx_cache.last_block_height
        }
    }

    /// Whether the cache has seen every block up to `last_block_height`.
    pub fn is_cache_ready(&self, last_block_height: u64) -> (r: bool)
        ensures
            r == (self.tx_cache.last_block_height == last_block_height),
    {
        self.tx_cache.last_block_height == last_block_height
    }
}

/// How far back a restart with a stale cache rescans.
pub const SAFE_CATCH_UP_OFFSET: u64 = 1000;

pub open spec fn max_u64(a: u64, b: u64) -> u64 {
    if a >= b { a } else { b }
}

/// The first block to ask the feed for: right after `last_block_height` when
/// the cache is ready, else a safe distance before it, and never before the
/// feed's first block.
pub fn start_block_height(first_block_height: u64, last_block_height: u64, cache_ready: bool) -> (r: u64)
    requires
        cache_ready ==> last_block_height < u64::MAX,
    ensures
        r == max_u64(
            first_block_height,
            if cache_ready {
                (last_block_height + 1) as u64
            } else if last_block_height >= SAFE_CATCH_UP_OFFSET {
                (last_block_height - SAFE_CATCH_UP_OFFSET) as u64
            } else {
                0
            },
        ),
{
    let start = if cache_ready {
        last_block_height + 1
    } else if last_block_height >= SAFE_CATCH_UP_OFFSET {
        last_block_height - SAFE_CATCH_UP_OFFSET
    } else {
        0
    };
    if first_block_height >= start {
        first_block_height
    } else {
        start
    }
}

} // verus!
