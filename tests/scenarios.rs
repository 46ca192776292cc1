use tx_indexer::cache::TxCache;
use tx_indexer::commit::{InsertOutcome, RetryAction, RetryState};
use tx_indexer::error::IndexerError;
use tx_indexer::model::{
    Action, Block, BlockHeader, Chunk, Digest, ExecutionOutcome, OutcomeWithReceipt, Receipt, ReceiptKind,
    Shard, SignedTransaction, TransactionWithOutcome, WatchListEntry,
};
use tx_indexer::processor::{start_block_height, TransactionsData};

fn d(n: u64) -> Digest {
    (0, 0, 0, n)
}

fn header(height: u64) -> BlockHeader {
    BlockHeader { height, hash: (1, 0, 0, height), timestamp: height * 10 }
}

fn outcome(spawned: Vec<Digest>) -> ExecutionOutcome {
    ExecutionOutcome { receipt_ids: spawned, logs: vec![], json: "{}".to_string() }
}

fn submitted(hash: Digest, signer: &str, spawned: Vec<Digest>) -> TransactionWithOutcome {
    TransactionWithOutcome {
        transaction: SignedTransaction { hash, signer_id: signer.to_string(), json: "{\"tx\":1}".to_string() },
        outcome: outcome(spawned),
    }
}

fn action_receipt(id: Digest, receiver: &str, actions: Vec<Action>, inputs: Vec<Digest>) -> Receipt {
    Receipt {
        receipt_id: id,
        receiver_id: receiver.to_string(),
        kind: ReceiptKind::Action { actions, input_data_ids: inputs },
        json: "{\"r\":1}".to_string(),
    }
}

fn data_receipt(id: Digest, data_id: Digest) -> Receipt {
    Receipt { receipt_id: id, receiver_id: "bob.near".to_string(), kind: ReceiptKind::Data { data_id }, json: "{\"d\":1}".to_string() }
}

fn executed(receipt: Receipt, spawned: Vec<Digest>) -> OutcomeWithReceipt {
    OutcomeWithReceipt { receipt, execution_outcome: outcome(spawned) }
}

fn block(height: u64, txs: Vec<TransactionWithOutcome>, receipts: Vec<Receipt>, outcomes: Vec<OutcomeWithReceipt>) -> Block {
    Block {
        header: header(height),
        shards: vec![Shard { chunk: Some(Chunk { transactions: txs, receipts }), receipt_execution_outcomes: outcomes }],
    }
}

fn indexer(watch: &[(&str, bool)]) -> TransactionsData {
    let mut data = TransactionsData::new(false, 10000, TxCache::new());
    data.set_watch_list(watch.iter().map(|(a, r)| WatchListEntry::from_pair((a.to_string(), *r))).collect())
        .ok()
        .unwrap();
    data
}

#[test]
fn single_block_complete_transaction() {
    let mut data = indexer(&[("alice.near", false)]);
    let b = block(
        100,
        vec![submitted(d(1), "alice.near", vec![d(10)])],
        vec![],
        vec![executed(action_receipt(d(10), "bob.near", vec![], vec![]), vec![])],
    );
    let report = data.process_block(b, 0).ok().unwrap();
    assert_eq!(report.complete, 1);
    let rows = data.commit();
    assert_eq!(rows.transactions.len(), 1);
    assert_eq!(rows.transactions[0].last_block_height, 100);
    assert_eq!(rows.transactions[0].transaction_hash, d(1));
    assert_eq!(rows.block_txs.len(), 1);
    assert_eq!(rows.block_txs[0].block_height, 100);
    assert_eq!(rows.block_txs[0].block_hash, (1, 0, 0, 100));
    assert_eq!(rows.receipt_txs.len(), 1);
    assert_eq!(rows.receipt_txs[0].receipt_id, d(10));
    let accounts: Vec<&str> = rows.account_txs.iter().map(|r| r.account_id.as_str()).collect();
    assert_eq!(accounts, vec!["alice.near", "bob.near"]);
    assert!(data.tx_cache.transactions.is_empty());
    assert!(data.tx_cache.receipt_to_tx.is_empty());
}

#[test]
fn cross_block_fan_out() {
    let mut data = indexer(&[("alice.near", false)]);
    let r1 = data.process_block(block(100, vec![submitted(d(1), "alice.near", vec![d(10)])], vec![], vec![]), 0).ok().unwrap();
    assert_eq!(r1.complete, 0);
    let r2 = data
        .process_block(block(101, vec![], vec![], vec![executed(action_receipt(d(10), "bob.near", vec![], vec![]), vec![d(11)])]), 0)
        .ok()
        .unwrap();
    assert_eq!(r2.complete, 0);
    assert_eq!(data.tx_cache.transactions.get(&d(1)).unwrap().blocks, vec![100, 101]);
    let r3 = data
        .process_block(block(102, vec![], vec![], vec![executed(action_receipt(d(11), "bob.near", vec![], vec![]), vec![])]), 0)
        .ok()
        .unwrap();
    assert_eq!(r3.complete, 1);
    let rows = data.commit();
    let heights: Vec<u64> = rows.block_txs.iter().map(|r| r.block_height).collect();
    assert_eq!(heights, vec![100, 101, 102]);
    assert_eq!(rows.receipt_txs.len(), 2);
    assert_eq!(rows.transactions[0].last_block_height, 102);
}

#[test]
fn data_receipt_dependency() {
    let mut data = indexer(&[("alice.near", false)]);
    let b100 = block(
        100,
        vec![submitted(d(1), "alice.near", vec![d(10)])],
        vec![data_receipt(d(20), d(30))],
        vec![executed(action_receipt(d(10), "bob.near", vec![], vec![]), vec![d(11)])],
    );
    assert_eq!(data.process_block(b100, 0).ok().unwrap().complete, 0);
    let b101 = block(101, vec![], vec![], vec![executed(action_receipt(d(11), "bob.near", vec![], vec![d(30)]), vec![])]);
    assert_eq!(data.process_block(b101, 0).ok().unwrap().complete, 1);
    let rows = data.commit();
    let ids: Vec<Digest> = rows.receipt_txs.iter().map(|r| r.receipt_id).collect();
    assert_eq!(ids, vec![d(10), d(11), d(20)]);
    assert!(data.tx_cache.data_receipts.is_empty());
    assert_eq!(
        rows.transactions[0].transaction,
        "{\"transaction\":{\"tx\":1},\"execution_outcome\":{},\"receipts\":[{\"execution_outcome\":{},\"receipt\":{\"r\":1}},{\"execution_outcome\":{},\"receipt\":{\"r\":1}}],\"data_receipts\":[{\"d\":1}]}"
    );
}

#[test]
fn watch_list_filter() {
    let mut data = indexer(&[("alice", false)]);
    let dropped = block(
        100,
        vec![submitted(d(1), "bob", vec![d(10)])],
        vec![],
        vec![executed(action_receipt(d(10), "carol", vec![], vec![]), vec![])],
    );
    assert_eq!(data.process_block(dropped, 0).ok().unwrap().complete, 0);
    assert!(data.commit().transactions.is_empty());
    let call = Action::FunctionCall { args: br#"{"receiver_id":"alice","amount":"1"}"#.to_vec() };
    let kept = block(
        101,
        vec![submitted(d(2), "bob", vec![d(11)])],
        vec![],
        vec![executed(action_receipt(d(11), "carol", vec![call], vec![]), vec![])],
    );
    assert_eq!(data.process_block(kept, 0).ok().unwrap().complete, 1);
    let rows = data.commit();
    let accounts: Vec<&str> = rows.account_txs.iter().map(|r| r.account_id.as_str()).collect();
    assert_eq!(accounts, vec!["bob", "carol", "alice"]);
}

#[test]
fn event_log_accounts_and_regex_entry() {
    let mut data = indexer(&[(r"^dave\.(near|testnet)$", true)]);
    let mut out = outcome(vec![]);
    out.logs = vec![
        "EVENT_JSON:{\"version\":\"1.0.0\",\"standard\":\"nep141\",\"event\":\"ft_transfer\",\"data\":[{\"old_owner_id\":\"dave.near\",\"new_owner_id\":\"NOT VALID\"}]}".to_string(),
        "plain log".to_string(),
    ];
    let b = block(
        100,
        vec![submitted(d(1), "bob.near", vec![d(10)])],
        vec![],
        vec![OutcomeWithReceipt { receipt: action_receipt(d(10), "carol.near", vec![], vec![]), execution_outcome: out }],
    );
    assert_eq!(data.process_block(b, 0).ok().unwrap().complete, 1);
    let rows = data.commit();
    let accounts: Vec<&str> = rows.account_txs.iter().map(|r| r.account_id.as_str()).collect();
    assert_eq!(accounts, vec!["bob.near", "carol.near", "dave.near"]);
}

#[test]
fn restart_with_gap_skips_and_resumes() {
    assert_eq!(start_block_height(1, 500, false), 1);
    assert_eq!(start_block_height(1, 5000, false), 4000);
    assert_eq!(start_block_height(1, 500, true), 501);
    let mut data = indexer(&[("alice.near", false)]);
    // A receipt whose transaction was seen before the rescan began.
    let rescanned = block(400, vec![], vec![], vec![executed(action_receipt(d(10), "bob.near", vec![], vec![d(99)]), vec![])]);
    let report = data.process_block(rescanned, 500).ok().unwrap();
    assert_eq!(report.complete, 0);
    let full = block(
        450,
        vec![submitted(d(1), "alice.near", vec![d(11)])],
        vec![],
        vec![executed(action_receipt(d(11), "bob.near", vec![], vec![]), vec![])],
    );
    data.process_block(full, 500).ok().unwrap();
    assert!(data.commit().transactions.is_empty());
    let fresh = block(
        501,
        vec![submitted(d(2), "alice.near", vec![d(12)])],
        vec![],
        vec![executed(action_receipt(d(12), "bob.near", vec![], vec![]), vec![])],
    );
    assert_eq!(data.process_block(fresh, 500).ok().unwrap().complete, 1);
    assert_eq!(data.tx_cache.last_block_height, 501);
    assert_eq!(data.commit().transactions.len(), 1);
}

#[test]
fn missing_mapping_outside_skip_mode_is_fatal() {
    let mut data = indexer(&[]);
    let b = block(600, vec![], vec![], vec![executed(action_receipt(d(10), "bob.near", vec![], vec![]), vec![])]);
    let err = data.process_block(b, 500).err().unwrap();
    assert!(matches!(err, IndexerError::MissingTransactionForReceipt { receipt_id } if receipt_id == d(10)));
}

#[test]
fn missing_data_receipt_outside_skip_mode_is_fatal() {
    let mut data = indexer(&[]);
    let b = block(
        600,
        vec![submitted(d(1), "alice.near", vec![d(10)])],
        vec![],
        vec![executed(action_receipt(d(10), "bob.near", vec![], vec![d(40)]), vec![])],
    );
    let err = data.process_block(b, 0).err().unwrap();
    assert!(matches!(err, IndexerError::MissingDataReceipt { data_id } if data_id == d(40)));
}

#[test]
fn missing_data_receipt_in_skip_mode_abandons_transaction() {
    let mut data = indexer(&[]);
    let b = block(
        100,
        vec![submitted(d(1), "alice.near", vec![d(10), d(13)])],
        vec![],
        vec![executed(action_receipt(d(10), "bob.near", vec![], vec![d(40)]), vec![])],
    );
    data.process_block(b, 500).ok().unwrap();
    assert!(data.tx_cache.transactions.is_empty());
    assert!(data.tx_cache.receipt_to_tx.is_empty());
}

#[test]
fn header_hash_mismatch_is_fatal() {
    let mut data = indexer(&[]);
    data.process_block(block(100, vec![], vec![], vec![]), 0).ok().unwrap();
    let mut other = block(100, vec![], vec![], vec![]);
    other.header.hash = d(77);
    let err = data.process_block(other, 0).err().unwrap();
    assert!(matches!(err, IndexerError::HeaderMismatch { height: 100 }));
    assert!(data.process_block(block(100, vec![], vec![], vec![]), 0).is_ok());
}

#[test]
fn executed_data_receipt_is_fatal() {
    let mut data = indexer(&[]);
    let b = block(
        100,
        vec![submitted(d(1), "alice.near", vec![d(10)])],
        vec![],
        vec![executed(data_receipt(d(10), d(30)), vec![])],
    );
    let err = data.process_block(b, 0).err().unwrap();
    assert!(matches!(err, IndexerError::DataReceiptExecuted { .. }));
}

#[test]
fn receipt_remapped_to_other_transaction_is_fatal() {
    let mut data = indexer(&[]);
    let b = block(
        100,
        vec![submitted(d(1), "alice.near", vec![d(10)]), submitted(d(2), "bob.near", vec![d(10)])],
        vec![],
        vec![],
    );
    let err = data.process_block(b, 0).err().unwrap();
    assert!(matches!(err, IndexerError::ReceiptRemapped { receipt_id } if receipt_id == d(10)));
}

#[test]
fn data_id_reused_for_other_receipt_is_fatal() {
    let mut data = indexer(&[]);
    let b = block(100, vec![], vec![data_receipt(d(20), d(30)), data_receipt(d(21), d(30))], vec![]);
    let err = data.process_block(b, 0).err().unwrap();
    assert!(matches!(err, IndexerError::DataReceiptRemapped { data_id } if data_id == d(30)));
}

#[test]
fn invalid_watch_list_pattern_is_refused() {
    let mut data = indexer(&[]);
    let err = data
        .set_watch_list(vec![
            WatchListEntry::from(("alice.near".to_string(), false)),
            WatchListEntry::from(("(unclosed".to_string(), true)),
        ])
        .err()
        .unwrap();
    assert!(matches!(err, IndexerError::InvalidWatchListPattern { ref pattern } if pattern == "(unclosed"));
    assert!(data.watch_list.is_empty());
}

#[test]
fn invalid_watch_list_pattern_is_fatal_even_after_a_match() {
    let mut data = indexer(&[]);
    data.watch_list.push(WatchListEntry::from(("alice.near".to_string(), false)));
    data.watch_list.push(WatchListEntry::from(("(unclosed".to_string(), true)));
    let b = block(
        100,
        vec![submitted(d(1), "alice.near", vec![d(10)])],
        vec![],
        vec![executed(action_receipt(d(10), "bob.near", vec![], vec![]), vec![])],
    );
    let err = data.process_block(b, 0).err().unwrap();
    assert!(matches!(err, IndexerError::InvalidWatchListPattern { ref pattern } if pattern == "(unclosed"));
}

#[test]
fn event_in_array_form_and_completed_list() {
    let mut data = indexer(&[("erin.near", false)]);
    let mut out = outcome(vec![]);
    out.logs = vec![
        "EVENT_JSON:[\"1.0.0\",\"nep171\",\"nft_mint\",[{\"owner_id\":\"erin.near\"}]]".to_string(),
        "EVENT_JSON:{\"version\":\"1.0.0\",\"event\":\"x\",\"data\":[{\"owner_id\":\"frank.near\"}]}".to_string(),
    ];
    let b = block(
        100,
        vec![submitted(d(1), "bob.near", vec![d(10)])],
        vec![],
        vec![OutcomeWithReceipt { receipt: action_receipt(d(10), "carol.near", vec![], vec![]), execution_outcome: out }],
    );
    let report = data.process_block(b, 0).ok().unwrap();
    assert_eq!(report.complete, 1);
    assert_eq!(report.completed.len(), 1);
    let done = &report.completed[0];
    assert!(done.transaction.pending_receipt_ids.is_empty());
    assert_eq!(done.transaction.blocks, vec![100]);
    assert_eq!(done.accounts, vec!["bob.near".to_string(), "carol.near".to_string(), "erin.near".to_string()]);
}

#[test]
fn header_window_keeps_newest_two_thousand() {
    let mut data = indexer(&[]);
    for h in 1..=2005u64 {
        data.process_block(block(h, vec![], vec![], vec![]), 0).ok().unwrap();
    }
    assert_eq!(data.tx_cache.block_headers.len(), 2000);
    assert_eq!(data.tx_cache.block_headers[0].height, 6);
    assert_eq!(data.tx_cache.block_headers[1999].height, 2005);
}

#[test]
fn header_missing_for_old_height_is_reported() {
    let mut data = indexer(&[("alice.near", false)]);
    data.process_block(block(1, vec![submitted(d(1), "alice.near", vec![d(10)])], vec![], vec![]), 0).ok().unwrap();
    for h in 2..=2001u64 {
        data.process_block(block(h, vec![], vec![], vec![]), 0).ok().unwrap();
    }
    let last = block(2002, vec![], vec![], vec![executed(action_receipt(d(10), "bob.near", vec![], vec![]), vec![])]);
    let report = data.process_block(last, 0).ok().unwrap();
    assert_eq!(report.missing_headers.len(), 1);
    assert_eq!(report.missing_headers[0].block_height, 1);
    let rows = data.commit();
    assert_eq!(rows.block_txs.len(), 1);
    assert_eq!(rows.block_txs[0].block_height, 2002);
}

#[test]
fn commit_policy() {
    let mut data = indexer(&[]);
    assert!(data.maybe_commit(3000));
    assert!(!data.maybe_commit(3001));
    data.commit_every_block = true;
    assert!(data.maybe_commit(3001));
}

#[test]
fn duplicate_commit_counts_as_committed() {
    let mut st = RetryState::new();
    assert!(matches!(st.step(InsertOutcome::UniqueViolation), RetryAction::Done));
    let mut st2 = RetryState::new();
    let mut delays = vec![];
    loop {
        match st2.step(InsertOutcome::Failed) {
            RetryAction::Retry { delay_ms } => delays.push(delay_ms),
            RetryAction::Fail => break,
            RetryAction::Done => panic!("a failure is not a commit"),
        }
    }
    assert_eq!(delays, vec![100, 200, 400, 800, 1600, 3200, 6400, 12800, 25600]);
    assert!(matches!(st.step(InsertOutcome::Inserted), RetryAction::Done));
}

#[test]
fn resume_height() {
    let mut data = indexer(&[]);
    data.tx_cache.last_block_height = 300;
    assert_eq!(data.last_block_height(Some(500)), 500);
    assert_eq!(data.last_block_height(None), 300);
    assert!(data.is_cache_ready(300));
    assert!(!data.is_cache_ready(500));
}

#[test]
fn retained_transactions_stay_indexed() {
    let mut data = indexer(&[]);
    data.process_block(block(100, vec![submitted(d(1), "alice.near", vec![d(10), d(11)])], vec![], vec![]), 0).ok().unwrap();
    data.process_block(
        block(101, vec![], vec![], vec![executed(action_receipt(d(10), "bob.near", vec![], vec![]), vec![d(12)])]),
        0,
    )
    .ok()
    .unwrap();
    let pt = data.tx_cache.transactions.get(&d(1)).unwrap();
    assert_eq!(pt.pending_receipt_ids, vec![d(11), d(12)]);
    for id in &pt.pending_receipt_ids {
        assert_eq!(data.tx_cache.receipt_to_tx.get(id), Some(&d(1)));
    }
    assert_eq!(pt.blocks, vec![100, 101]);
    assert!(!data.tx_cache.receipt_to_tx.contains_key(&d(10)));
}

fn fan_out_blocks() -> Vec<Block> {
    vec![
        block(100, vec![submitted(d(1), "alice.near", vec![d(10)])], vec![], vec![]),
        block(101, vec![], vec![], vec![executed(action_receipt(d(10), "bob.near", vec![], vec![]), vec![d(11)])]),
        block(102, vec![submitted(d(2), "alice.near", vec![d(20)])], vec![], vec![]),
        block(103, vec![], vec![], vec![executed(action_receipt(d(11), "bob.near", vec![], vec![]), vec![])]),
        block(104, vec![], vec![], vec![executed(action_receipt(d(20), "carol.near", vec![], vec![]), vec![])]),
    ]
}

fn row_summary(rows: &tx_indexer::rows::TxRows) -> Vec<(Digest, u64, usize)> {
    rows.transactions.iter().map(|r| (r.transaction_hash, r.last_block_height, r.transaction.len())).collect()
}

#[test]
fn restart_with_saved_cache_matches_straight_run() {
    let mut straight = indexer(&[("alice.near", false)]);
    for b in fan_out_blocks() {
        straight.process_block(b, 0).ok().unwrap();
    }
    let all = straight.commit();

    let mut first = indexer(&[("alice.near", false)]);
    let mut blocks = fan_out_blocks();
    let rest = blocks.split_off(2);
    for b in blocks {
        first.process_block(b, 0).ok().unwrap();
    }
    let mut before = first.commit();
    let mut second = TransactionsData::new(false, 10000, first.tx_cache);
    second.set_watch_list(vec![WatchListEntry::from(("alice.near".to_string(), false))]).ok().unwrap();
    for b in rest {
        second.process_block(b, 0).ok().unwrap();
    }
    let after = second.commit();
    before.transactions.extend(after.transactions);
    assert_eq!(row_summary(&before), row_summary(&all));
    assert_eq!(row_summary(&all).len(), 2);
    assert_eq!(before.block_txs.len() + after.block_txs.len(), all.block_txs.len());
}
