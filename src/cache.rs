use vstd::prelude::*;
use std::collections::BTreeMap;
use crate::error::IndexerError;
use crate::model::{digest_eq, BlockHeader, Digest, PendingTransaction, Receipt};

verus! {

broadcast use vstd::laws_cmp::group_laws_cmp;

/// How many block headers the cache keeps.
pub const BLOCK_HEADER_CLEANUP: u64 = 2000;

/// Headers ordered by strictly increasing height.
pub open spec fn headers_sorted(s: Seq<BlockHeader>) -> bool {
    forall|i: int, j: int| 0 <= i < j < s.len() ==> s[i].height < s[j].height
}

/// The header sequence `n` is `o` with `h` put in place of any header at its height.
pub open spec fn headers_after_insert(o: Seq<BlockHeader>, n: Seq<BlockHeader>, h: BlockHeader) -> bool {
    &&& headers_sorted(n)
    &&& forall|x: BlockHeader| #[trigger] n.contains(x) <==> (x == h || (o.contains(x) && x.height != h.height))
}

/// Some header of `s` has this height and another hash.
pub open spec fn header_conflicts(s: Seq<BlockHeader>, h: BlockHeader) -> bool {
    exists|i: int| 0 <= i < s.len() && s[i].height == h.height && s[i].hash != h.hash
}

/// `n` is `o` with every id of `ids` mapped to `h`.
pub open spec fn ids_registered(o: Map<Digest, Digest>, n: Map<Digest, Digest>, ids: Seq<Digest>, h: Digest) -> bool {
    &&& forall|k: Digest| #[trigger] n.contains_key(k) <==> (o.contains_key(k) || ids.contains(k))
    &&& forall|k: Digest| #[trigger] ids.contains(k) ==> n[k] == h
    &&& forall|k: Digest| o.contains_key(k) && !ids.contains(k) ==> #[trigger] n[k] == o[k]
}

/// Some id of `ids` is already mapped to a transaction other than `h`.
pub open spec fn ids_conflict(m: Map<Digest, Digest>, ids: Seq<Digest>, h: Digest) -> bool {
    exists|i: int| 0 <= i < ids.len() && m.contains_key(ids[i]) && m[ids[i]] != h
}

/// The header held at height `h`, if any.
pub open spec fn header_at(s: Seq<BlockHeader>, h: u64) -> Option<BlockHeader> {
    if exists|i: int| 0 <= i < s.len() && s[i].height == h {
        Some(s[choose|i: int| 0 <= i < s.len() && s[i].height == h])
    } else {
        None
    }
}

/// Sizes of the four indexes.
pub struct CacheStats {
    pub transactions: usize,
    pub receipts: usize,
    pub data_receipts: usize,
    pub headers: usize,
}

pub struct TxCache {
    pub block_headers: Vec<BlockHeader>,
    pub receipt_to_tx: BTreeMap<Digest, Digest>,
    pub data_receipts: BTreeMap<Digest, Receipt>,
    pub transactions: BTreeMap<Digest, PendingTransaction>,
    pub last_block_height: u64,
}

impl TxCache {
    /// Every held transaction is keyed by its own hash, and each of its
    /// pending receipts is indexed to that hash.
    pub open spec fn tx_indexed(&self) -> bool {
        forall|h: Digest| #[trigger] self.transactions@.contains_key(h) ==> {
            let pt = self.transactions@[h];
            &&& pt.transaction.transaction.hash == h
            &&& pt.blocks@.len() > 0
            &&& forall|i: int| 0 <= i < pt.pending_receipt_ids.len() ==> {
                &&& self.receipt_to_tx@.contains_key(#[trigger] pt.pending_receipt_ids@[i])
                &&& self.receipt_to_tx@[pt.pending_receipt_ids@[i]] == h
            }
        }
    }

    /// The cache's invariant.
    pub open spec fn wf(&self) -> bool {
        &&& headers_sorted(self.block_headers@)
        &&& self.tx_indexed()
    }

    /// An empty cache that has seen no block.
    pub fn new() -> (r: TxCache)
        ensures
            r.wf(),
            r.block_headers@.len() == 0,
            r.receipt_to_tx@ == Map::<Digest, Digest>::empty(),
            r.data_receipts@ == Map::<Digest, Receipt>::empty(),
            r.transactions@ == Map::<Digest, PendingTransaction>::empty(),
            r.last_block_height == 0,
    {
        TxCache {
            block_headers: Vec::new(),
            receipt_to_tx: BTreeMap::new(),
            data_receipts: BTreeMap::new(),
            transactions: BTreeMap::new(),
            last_block_height: 0,
        }
    }

    pub fn stats(&self) -> (r: CacheStats)
        ensures
            r.transactions == self.transactions@.len(),
            r.receipts == self.receipt_to_tx@.len(),
            r.data_receipts == self.data_receipts@.len(),
            r.headers == self.block_headers@.len(),
    {
        CacheStats {
            transactions: self.transactions.len(),
            receipts: self.receipt_to_tx.len(),
            data_receipts: self.data_receipts.len(),
            headers: self.block_headers.len(),
        }
    }

    /// Drops the oldest headers while more than the retention bound are held.
    pub fn trim_headers(&mut self)
        ensures
            final(self).block_headers@ == (if old(self).block_headers@.len() > BLOCK_HEADER_CLEANUP {
                old(self).block_headers@.subrange(
                    old(self).block_headers@.len() - BLOCK_HEADER_CLEANUP,
                    old(self).block_headers@.len() as int,
                )
            } else {
                old(self).block_headers@
            }),
            final(self).receipt_to_tx@ == old(self).receipt_to_tx@,
            final(self).data_receipts@ == old(self).data_receipts@,
            final(self).transactions@ == old(self).transactions@,
            final(self).last_block_height == old(self).last_block_height,
    {
        let ghost o = self.block_headers@;
        while self.block_headers.len() > BLOCK_HEADER_CLEANUP as usize
            invariant
                o.len() >= self.block_headers@.len(),
                o.len() > BLOCK_HEADER_CLEANUP ==> self.block_headers@.len() >= BLOCK_HEADER_CLEANUP,
                o.len() <= BLOCK_HEADER_CLEANUP ==> self.block_headers@.len() == o.len(),
                self.block_headers@ == o.subrange(o.len() - self.block_headers@.len(), o.len() as int),
                self.receipt_to_tx@ == old(self).receipt_to_tx@,
                self.data_receipts@ == old(self).data_receipts@,
                self.transactions@ == old(self).transactions@,
                self.last_block_height == old(self).last_block_height,
                o == old(self).block_headers@,
            decreases self.block_headers.len(),
        {
            self.block_headers.remove(0);
        }
        assert(o.subrange(0, o.len() as int) == o);
    }

    /// The header held at `block_height`, if any, leaving it in place.
    pub fn find_block_header(&self, block_height: u64) -> (r: Option<BlockHeader>)
        requires
            headers_sorted(self.block_headers@),
        ensures
            r == header_at(self.block_headers@, block_height),
    {
        let mut i: usize = 0;
        while i < self.block_headers.len()
            invariant
                i <= self.block_headers.len(),
                headers_sorted(self.block_headers@),
                forall|k: int| 0 <= k < i ==> self.block_headers@[k].height != block_height,
            decreases self.block_headers.len() - i,
        {
            if self.block_headers[i].height == block_height {
                let ghost s = self.block_headers@;
                let ghost c = choose|k: int| 0 <= k < s.len() && s[k].height == block_height;
                assert(c == i as int) by {
                    if c < i {
                        assert(s[c].height < s[i as int].height);
                    } else if c > i {
                        assert(s[c].height > s[i as int].height);
                    }
                }
                return Some(self.block_headers[i]);
            }
            i = i + 1;
        }
        None
    }

    /// Removes and returns the header held at `block_height`, if any.
    pub fn get_and_remove_block_header(&mut self, block_height: u64) -> (r: Option<BlockHeader>)
        ensures
            match r {
                Some(h) => exists|i: int| {
                    &&& 0 <= i < old(self).block_headers@.len()
                    &&& old(self).block_headers@[i] == h
                    &&& h.height == block_height
                    &&& final(self).block_headers@ == old(self).block_headers@.remove(i)
                },
                None => {
                    &&& forall|i: int| 0 <= i < old(self).block_headers@.len() ==> old(self).block_headers@[i].height != block_height
                    &&& final(self).block_headers@ == old(self).block_headers@
                },
            },
            final(self).receipt_to_tx@ == old(self).receipt_to_tx@,
            final(self).data_receipts@ == old(self).data_receipts@,
            final(self).transactions@ == old(self).transactions@,
            final(self).last_block_height == old(self).last_block_height,
    {
        let mut i: usize = 0;
        while i < self.block_headers.len()
            invariant
                i <= self.block_headers.len(),
                self.block_headers@ == old(self).block_headers@,
                self.receipt_to_tx@ == old(self).receipt_to_tx@,
                self.data_receipts@ == old(self).data_receipts@,
                self.transactions@ == old(self).transactions@,
                self.last_block_height == old(self).last_block_height,
                forall|k: int| 0 <= k < i ==> self.block_headers@[k].height != block_height,
            decreases self.block_headers.len() - i,
        {
            if self.block_headers[i].height == block_height {
                let h = self.block_headers.remove(i);
                return Some(h);
            }
            i = i + 1;
        }
        None
    }

    /// Removes the receipt's owner from the index and returns it.
    pub fn get_and_remove_receipt_to_tx(&mut self, receipt_id: &Digest) -> (r: Option<Digest>)
        ensures
            final(self).receipt_to_tx@ == old(self).receipt_to_tx@.remove(*receipt_id),
            r == (if old(self).receipt_to_tx@.contains_key(*receipt_id) {
                Some(old(self).receipt_to_tx@[*receipt_id])
            } else {
                None::<Digest>
            }),
            final(self).block_headers@ == old(self).block_headers@,
            final(self).data_receipts@ == old(self).data_receipts@,
            final(self).transactions@ == old(self).transactions@,
            final(self).last_block_height == old(self).last_block_height,
    {
        self.receipt_to_tx.remove(receipt_id)
    }

    /// Drops the receipt from the index.
    pub fn remove_receipt_to_tx(&mut self, receipt_id: &Digest)
        ensures
            final(self).receipt_to_tx@ == old(self).receipt_to_tx@.remove(*receipt_id),
            final(self).block_headers@ == old(self).block_headers@,
            final(self).data_receipts@ == old(self).data_receipts@,
            final(self).transactions@ == old(self).transactions@,
            final(self).last_block_height == old(self).last_block_height,
    {
        self.receipt_to_tx.remove(receipt_id);
    }

    /// Maps a receipt to its transaction; an existing mapping to another
    /// transaction is refused.
    pub fn insert_receipt_to_tx(&mut self, receipt_id: &Digest, tx_hash: Digest) -> (r: Result<(), IndexerError>)
        ensures
            r is Ok <==> !(old(self).receipt_to_tx@.contains_key(*receipt_id)
                && old(self).receipt_to_tx@[*receipt_id] != tx_hash),
            r is Ok ==> final(self).receipt_to_tx@ == old(self).receipt_to_tx@.insert(*receipt_id, tx_hash),
            r is Err ==> r == Err::<(), IndexerError>(IndexerError::ReceiptRemapped { receipt_id: *receipt_id }),
            r is Err ==> final(self).receipt_to_tx@ == old(self).receipt_to_tx@,
            final(self).block_headers@ == old(self).block_headers@,
            final(self).data_receipts@ == old(self).data_receipts@,
            final(self).transactions@ == old(self).transactions@,
            final(self).last_block_height == old(self).last_block_height,
    {
        match self.receipt_to_tx.get(receipt_id) {
            Some(old_tx_hash) => {
                if !digest_eq(old_tx_hash, &tx_hash) {
                    return Err(IndexerError::ReceiptRemapped { receipt_id: *receipt_id });
                }
            },
            None => {},
        }
        self.receipt_to_tx.insert(*receipt_id, tx_hash);
        Ok(())
    }

    /// Pools a data receipt under its data id; the id already pooled for
    /// another receipt is refused.
    pub fn insert_data_receipt(&mut self, data_id: &Digest, receipt: Receipt) -> (r: Result<(), IndexerError>)
        ensures
            r is Ok <==> !(old(self).data_receipts@.contains_key(*data_id)
                && old(self).data_receipts@[*data_id].receipt_id != receipt.receipt_id),
            r is Ok ==> final(self).data_receipts@ == old(self).data_receipts@.insert(*data_id, receipt),
            r is Err ==> r == Err::<(), IndexerError>(IndexerError::DataReceiptRemapped { data_id: *data_id }),
            r is Err ==> final(self).data_receipts@ == old(self).data_receipts@,
            final(self).block_headers@ == old(self).block_headers@,
            final(self).receipt_to_tx@ == old(self).receipt_to_tx@,
            final(self).transactions@ == old(self).transactions@,
            final(self).last_block_height == old(self).last_block_height,
    {
        match self.data_receipts.get(data_id) {
            Some(old_receipt) => {
                if !digest_eq(&old_receipt.receipt_id, &receipt.receipt_id) {
                    return Err(IndexerError::DataReceiptRemapped { data_id: *data_id });
                }
            },
            None => {},
        }
        self.data_receipts.insert(*data_id, receipt);
        Ok(())
    }

    /// Removes and returns the data receipt pooled under `data_id`.
    pub fn get_and_remove_data_receipt(&mut self, data_id: &Digest) -> (r: Option<Receipt>)
        ensures
            final(self).data_receipts@ == old(self).data_receipts@.remove(*data_id),
            r == (if old(self).data_receipts@.contains_key(*data_id) {
                Some(old(self).data_receipts@[*data_id])
            } else {
                None::<Receipt>
            }),
            final(self).block_headers@ == old(self).block_headers@,
            final(self).receipt_to_tx@ == old(self).receipt_to_tx@,
            final(self).transactions@ == old(self).transactions@,
            final(self).last_block_height == old(self).last_block_height,
    {
        self.data_receipts.remove(data_id)
    }

    /// Removes and returns the pending transaction with this hash.
    pub fn get_and_remove_transaction(&mut self, tx_hash: &Digest) -> (r: Option<PendingTransaction>)
        ensures
            final(self).transactions@ == old(self).transactions@.remove(*tx_hash),
            r == (if old(self).transactions@.contains_key(*tx_hash) {
                Some(old(self).transactions@[*tx_hash])
            } else {
                None::<PendingTransaction>
            }),
            final(self).block_headers@ == old(self).block_headers@,
            final(self).receipt_to_tx@ == old(self).receipt_to_tx@,
            final(self).data_receipts@ == old(self).data_receipts@,
            final(self).last_block_height == old(self).last_block_height,
    {
        self.transactions.remove(tx_hash)
    }

    /// Holds the pending transaction under its hash and indexes every id of
    /// `pending_receipt_ids` to it. An id already indexed to another
    /// transaction is refused.
    pub fn insert_transaction(
        &mut self,
        pending_transaction: PendingTransaction,
        pending_receipt_ids: &Vec<Digest>,
    ) -> (r: Result<(), IndexerError>)
        ensures
            r is Ok <==> !ids_conflict(
                old(self).receipt_to_tx@,
                pending_receipt_ids@,
                pending_transaction.transaction.transaction.hash,
            ),
            r is Ok ==> ids_registered(
                old(self).receipt_to_tx@,
                final(self).receipt_to_tx@,
                pending_receipt_ids@,
                pending_transaction.transaction.transaction.hash,
            ),
            r is Ok ==> final(self).transactions@ == old(self).transactions@.insert(
                pending_transaction.transaction.transaction.hash,
                pending_transaction,
            ),
            r is Err ==> exists|i: int| 0 <= i < pending_receipt_ids@.len()
                && r == Err::<(), IndexerError>(IndexerError::ReceiptRemapped { receipt_id: pending_receipt_ids@[i] }),
            final(self).block_headers@ == old(self).block_headers@,
            final(self).data_receipts@ == old(self).data_receipts@,
            final(self).last_block_height == old(self).last_block_height,
    {
        let tx_hash = pending_transaction.transaction_hash();
        let ghost o = self.receipt_to_tx@;
        let ghost ids = pending_receipt_ids@;
        let mut i: usize = 0;
        while i < pending_receipt_ids.len()
            invariant
                i <= ids.len(),
                ids == pending_receipt_ids@,
                o == old(self).receipt_to_tx@,
                tx_hash == pending_transaction.transaction.transaction.hash,
                !ids_conflict(o, ids.subrange(0, i as int), tx_hash),
                ids_registered(o, self.receipt_to_tx@, ids.subrange(0, i as int), tx_hash),
                self.block_headers@ == old(self).block_headers@,
                self.data_receipts@ == old(self).data_receipts@,
                self.transactions@ == old(self).transactions@,
                self.last_block_height == old(self).last_block_height,
            decreases ids.len() - i,
        {
            let ghost before = self.receipt_to_tx@;
            let ghost pre = ids.subrange(0, i as int);
            let ghost post = ids.subrange(0, i + 1);
            assert(post == pre.push(ids[i as int]));
            let res = self.insert_receipt_to_tx(&pending_receipt_ids[i], tx_hash);
            match res {
                Ok(()) => {},
                Err(e) => {
                    let ghost k = ids[i as int];
                    assert(!pre.contains(k));
                    assert(o.contains_key(k));
                    assert(before[k] == o[k]);
                    assert(before[k] != tx_hash);
                    assert(0 <= i < ids.len() && o.contains_key(ids[i as int]) && o[ids[i as int]] != tx_hash);
                    assert(ids_conflict(o, ids, tx_hash));
                    return Err(e);
                },
            }
            assert(!ids_conflict(o, post, tx_hash)) by {
                if o.contains_key(ids[i as int]) && !pre.contains(ids[i as int]) {
                    assert(before[ids[i as int]] == o[ids[i as int]]);
                }
                assert forall|j: int| 0 <= j < post.len() && o.contains_key(post[j]) implies o[post[j]] == tx_hash by {
                    if j < i {
                        assert(pre[j] == post[j]);
                    }
                }
            }
            assert forall|k: Digest| #[trigger] post.contains(k) <==> (pre.contains(k) || k == ids[i as int]) by {
                if post.contains(k) {
                    let j = choose|j: int| 0 <= j < post.len() && post[j] == k;
                    if j < i {
                        assert(pre[j] == k);
                    }
                }
                if pre.contains(k) {
                    let j = choose|j: int| 0 <= j < pre.len() && pre[j] == k;
                    assert(post[j] == k);
                }
                if k == ids[i as int] {
                    assert(post[i as int] == k);
                }
            }
            i = i + 1;
        }
        assert(ids.subrange(0, ids.len() as int) == ids);
        self.transactions.insert(tx_hash, pending_transaction);
        Ok(())
    }
    /// Inserts a header. A header already held at that height must carry the
    /// same hash; it is then replaced.
    pub fn insert_block_header(&mut self, block_header: BlockHeader) -> (r: Result<(), IndexerError>)
        requires
            headers_sorted(old(self).block_headers@),
        ensures
            r is Ok <==> !header_conflicts(old(self).block_headers@, block_header),
            r is Ok ==> headers_after_insert(old(self).block_headers@, final(self).block_headers@, block_header),
            r is Err ==> r == Err::<(), IndexerError>(IndexerError::HeaderMismatch { height: block_header.height }),
            r is Err ==> final(self).block_headers@ == old(self).block_headers@,
            final(self).receipt_to_tx@ == old(self).receipt_to_tx@,
            final(self).data_receipts@ == old(self).data_receipts@,
            final(self).transactions@ == old(self).transactions@,
            final(self).last_block_height == old(self).last_block_height,
    {
        let ghost o = self.block_headers@;
        let h = block_header.height;
        let mut i: usize = self.block_headers.len();
        while i > 0 && self.block_headers[i - 1].height > h
            invariant
                i <= self.block_headers.len(),
                self.block_headers@ == o,
                headers_sorted(o),
                forall|k: int| i <= k < o.len() ==> o[k].height > h,
            decreases i,
        {
            i = i - 1;
        }
        if i > 0 && self.block_headers[i - 1].height == h {
            if !digest_eq(&self.block_headers[i - 1].hash, &block_header.hash) {
                return Err(IndexerError::HeaderMismatch { height: h });
            }
            assert(!header_conflicts(o, block_header)) by {
                assert forall|k: int| 0 <= k < o.len() && o[k].height == h implies o[k].hash == block_header.hash by {
                    if k != i - 1 {
                        assert(o[k].height != o[i - 1].height);
                    }
                }
            }
            self.block_headers.set(i - 1, block_header);
            let ghost n = self.block_headers@;
            assert forall|x: BlockHeader| #[trigger] n.contains(x) <==> (x == block_header || (o.contains(x) && x.height != h)) by {
                if n.contains(x) {
                    let k = choose|k: int| 0 <= k < n.len() && n[k] == x;
                    if k != i - 1 {
                        assert(o[k] == x);
                        assert(o[k].height != o[i - 1].height);
                    }
                }
                if o.contains(x) && x.height != h {
                    let k = choose|k: int| 0 <= k < o.len() && o[k] == x;
                    assert(n[k] == x);
                }
                if x == block_header {
                    assert(n[i - 1] == x);
                }
            }
        } else {
            assert(!header_conflicts(o, block_header)) by {
                assert forall|k: int| 0 <= k < o.len() implies o[k].height != h by {
                    if k < i - 1 {
                        assert(o[k].height < o[i - 1].height);
                    }
                }
            }
            self.block_headers.insert(i, block_header);
            let ghost n = self.block_headers@;
            assert(n == o.insert(i as int, block_header));
            assert forall|x: BlockHeader| #[trigger] n.contains(x) <==> (x == block_header || (o.contains(x) && x.height != h)) by {
                if n.contains(x) {
                    let k = choose|k: int| 0 <= k < n.len() && n[k] == x;
                    if k < i {
                        assert(o[k] == x);
                    } else if k > i {
                        assert(o[k - 1] == x);
                    }
                }
                if o.contains(x) && x.height != h {
                    let k = choose|k: int| 0 <= k < o.len() && o[k] == x;
                    if k < i {
                        assert(n[k] == x);
                    } else {
                        assert(n[k + 1] == x);
                    }
                }
                if x == block_header {
                    assert(n[i as int] == x);
                }
            }
        }
        Ok(())
    }
}

} // verus!
