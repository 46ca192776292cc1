use vstd::prelude::*;
use vstd::slice::slice_subrange;
use vstd::string::StringSliceAdditionalSpecFns;
use vstd::utf8::encode_utf8;
use crate::error::IndexerError;
use crate::json::{event_data, event_items, json_of, json_string_at, parse_json, string_field, Json};
use crate::model::{Action, OutcomeWithReceipt, PendingTransaction, Receipt, ReceiptKind, WatchListEntry};

verus! {

/// Prefix of an execution log that carries a structured event.
pub const EVENT_JSON_PREFIX: &'static str = "EVENT_JSON:";

/// Whether `s` is a well-formed account identifier.
pub uninterp spec fn account_id_valid(s: Seq<char>) -> bool;

/// Whether the regular expression `pattern`, where it compiles, matches
/// somewhere in `text`.
pub uninterp spec fn regex_is_match(pattern: Seq<char>, text: Seq<char>) -> bool;

/// Whether the regular expression `pattern` compiles.
pub uninterp spec fn regex_valid(pattern: Seq<char>) -> bool;

/// Relies on regex's `Regex::new`: whether the pattern compiles.
#[verifier::external_body]
fn pattern_compiles(pattern: &str) -> (r: bool)
    ensures
        r == regex_valid(pattern@),
{
    regex::Regex::new(pattern).is_ok()
}

/// Relies on near-account-id's `AccountId::validate`: whether the text is a
/// valid account identifier.
#[verifier::external_body]
fn is_valid_account_id(s: &str) -> (r: bool)
    ensures
        r == account_id_valid(s@),
{
    fastnear_primitives::near_primitives::types::AccountId::validate(s).is_ok()
}

/// Relies on regex's `Regex::new` and `Regex::is_match`: `None` where the
/// pattern does not compile, else whether it matches in `text`.
#[verifier::external_body]
fn pattern_matches(pattern: &str, text: &str) -> (r: Option<bool>)
    ensures
        r == (if regex_valid(pattern@) { Some(regex_is_match(pattern@, text@)) } else { None::<bool> }),
{
    match regex::Regex::new(pattern) {
        Ok(re) => Some(re.is_match(text)),
        Err(_) => None,
    }
}

/// Keys of function-call arguments that may name an account.
pub open spec fn account_arg_keys() -> Seq<&'static str> {
    seq![
        "receiver_id", "account_id", "sender_id", "new_account_id", "predecessor_account_id",
        "contract_id", "owner_id", "token_owner_id", "nft_contract_id", "token_account_id",
        "creator_id", "referral_id", "previous_owner_id", "seller_id", "buyer_id", "user_id",
        "beneficiary_id", "staking_pool_account_id", "owner_account_id", "claimer", "bounty_owner",
    ]
}

/// Keys of event data that may name an account.
pub open spec fn event_arg_keys() -> Seq<&'static str> {
    seq![
        "account_id", "owner_id", "old_owner_id", "new_owner_id", "payer_id", "farmer_id",
        "validator_id", "liquidation_account_id", "contract_id", "nft_contract_id",
    ]
}

fn potential_account_args() -> (r: Vec<&'static str>)
    ensures
        r@ == account_arg_keys(),
{
    vec![
        "receiver_id", "account_id", "sender_id", "new_account_id", "predecessor_account_id",
        "contract_id", "owner_id", "token_owner_id", "nft_contract_id", "token_account_id",
        "creator_id", "referral_id", "previous_owner_id", "seller_id", "buyer_id", "user_id",
        "beneficiary_id", "staking_pool_account_id", "owner_account_id", "claimer", "bounty_owner",
    ]
}

fn potential_event_args() -> (r: Vec<&'static str>)
    ensures
        r@ == event_arg_keys(),
{
    vec![
        "account_id", "owner_id", "old_owner_id", "new_owner_id", "payer_id", "farmer_id",
        "validator_id", "liquidation_account_id", "contract_id", "nft_contract_id",
    ]
}

/// Some element of `v` has the text `a`.
pub open spec fn holds(v: Seq<String>, a: Seq<char>) -> bool {
    exists|i: int| 0 <= i < v.len() && #[trigger] v[i]@ == a
}

/// No two elements of `v` have the same text.
pub open spec fn distinct(v: Seq<String>) -> bool {
    forall|i: int, j: int| 0 <= i < j < v.len() ==> v[i]@ != v[j]@
}

/// `a` is a valid account found at one of `keys` in the document `doc`.
pub open spec fn found_at(doc: Json, keys: Seq<&'static str>, a: Seq<char>) -> bool {
    &&& account_id_valid(a)
    &&& exists|k: int| 0 <= k < keys.len() && json_string_at(doc, #[trigger] keys[k]@) == Some(a)
}

/// `a` is named by a function call among `actions`.
pub open spec fn named_by_actions(actions: Seq<Action>, a: Seq<char>) -> bool {
    exists|i: int| 0 <= i < actions.len() && match #[trigger] actions[i] {
        Action::FunctionCall { args } => match json_of(args@) {
            Some(doc) => found_at(doc, account_arg_keys(), a),
            None => false,
        },
        Action::Other => false,
    }
}

/// `a` is the receiver of `r`, or named by one of its function calls.
pub open spec fn named_by_receipt(r: Receipt, a: Seq<char>) -> bool {
    ||| a == r.receiver_id@
    ||| match r.kind {
        ReceiptKind::Action { actions, .. } => named_by_actions(actions@, a),
        ReceiptKind::Data { .. } => false,
    }
}

/// The bytes of `log` after the event prefix, where it has the prefix.
pub open spec fn event_body(log: Seq<u8>) -> Option<Seq<u8>> {
    let p = EVENT_JSON_PREFIX.spec_bytes();
    if p.len() <= log.len() && log.subrange(0, p.len() as int) == p {
        Some(log.subrange(p.len() as int, log.len() as int))
    } else {
        None
    }
}

/// `a` is named in the data of an event logged in `log`.
pub open spec fn named_by_log(log: Seq<char>, a: Seq<char>) -> bool {
    match event_body(encode_utf8(log)) {
        Some(body) => named_in_event(body, a),
        None => false,
    }
}

/// `a` is a valid account at one of the event keys of an element of the
/// data of the event document `body`.
pub open spec fn named_in_event(body: Seq<u8>, a: Seq<char>) -> bool {
    match json_of(body) {
        Some(doc) => exists|j: int| 0 <= j < event_items(doc).len()
            && found_at(#[trigger] event_items(doc)[j], event_arg_keys(), a),
        None => false,
    }
}

/// `a` is named in one of the logs.
pub open spec fn named_by_logs(logs: Seq<String>, a: Seq<char>) -> bool {
    exists|i: int| 0 <= i < logs.len() && named_by_log(#[trigger] logs[i]@, a)
}

/// `a` is an account that the transaction refers to: its signer, or one
/// named by an executed receipt or by its logs.
pub open spec fn named_by_transaction(pt: PendingTransaction, a: Seq<char>) -> bool {
    ||| a == pt.transaction.transaction.signer_id@
    ||| exists|i: int| 0 <= i < pt.transaction.receipts.len() && {
        let r = #[trigger] pt.transaction.receipts@[i];
        named_by_receipt(r.receipt, a) || named_by_logs(r.execution_outcome.logs@, a)
    }
}

/// Adds `a` to `accounts` unless it is there.
fn add_account(accounts: &mut Vec<String>, a: String)
    requires
        distinct(old(accounts)@),
    ensures
        distinct(final(accounts)@),
        forall|x: Seq<char>| #[trigger] holds(final(accounts)@, x) <==> (holds(old(accounts)@, x) || x == a@),
{
    let mut i: usize = 0;
    while i < accounts.len()
        invariant
            i <= accounts.len(),
            accounts@ == old(accounts)@,
            distinct(accounts@),
            forall|k: int| 0 <= k < i ==> accounts@[k]@ != a@,
        decreases accounts.len() - i,
    {
        if accounts[i] == a {
            assert(holds(accounts@, a@) && accounts@[i as int]@ == a@);
            assert(distinct(accounts@));
            return;
        }
        i = i + 1;
    }
    let ghost o = accounts@;
    accounts.push(a);
    assert forall|x: Seq<char>| #[trigger] holds(accounts@, x) <==> (holds(o, x) || x == a@) by {
        if holds(accounts@, x) {
            let k = choose|k: int| 0 <= k < accounts@.len() && #[trigger] accounts@[k]@ == x;
            if k < o.len() {
                assert(o[k]@ == x);
            }
        }
        if holds(o, x) {
            let k = choose|k: int| 0 <= k < o.len() && #[trigger] o[k]@ == x;
            assert(accounts@[k]@ == x);
        }
        if x == a@ {
            assert(accounts@[o.len() as int]@ == x);
        }
    }
}

/// Adds each valid account found at one of `keys` of the document `doc`.
fn extract_accounts(accounts: &mut Vec<String>, doc: &Json, keys: &Vec<&'static str>)
    requires
        distinct(old(accounts)@),
    ensures
        distinct(final(accounts)@),
        forall|x: Seq<char>| #[trigger] holds(final(accounts)@, x) <==> (holds(old(accounts)@, x) || found_at(*doc, keys@, x)),
{
    let mut i: usize = 0;
    while i < keys.len()
        invariant
            i <= keys.len(),
            distinct(accounts@),
            forall|x: Seq<char>| #[trigger] holds(accounts@, x) <==> (holds(old(accounts)@, x) || found_at(*doc, keys@.subrange(0, i as int), x)),
        decreases keys.len() - i,
    {
        let ghost pre = keys@.subrange(0, i as int);
        let ghost post = keys@.subrange(0, i + 1);
        let ghost before = accounts@;
        let ghost key = keys@[i as int];
        let found = string_field(doc, keys[i]);
        let ghost fv = json_string_at(*doc, key@);
        match found {
            Some(s) => {
                if is_valid_account_id(s.as_str()) {
                    add_account(accounts, s);
                }
            },
            None => {},
        }
        assert forall|x: Seq<char>| #[trigger] holds(accounts@, x) <==> (holds(before, x) || (fv == Some(x) && account_id_valid(x))) by {
        }
        assert forall|x: Seq<char>| #[trigger] holds(accounts@, x) <==> (holds(old(accounts)@, x) || found_at(*doc, post, x)) by {
            assert(post[i as int] == key);
            if fv == Some(x) && account_id_valid(x) {
                assert(found_at(*doc, post, x));
            }
            if found_at(*doc, post, x) {
                let k = choose|k: int| 0 <= k < post.len() && json_string_at(*doc, #[trigger] post[k]@) == Some(x);
                if k < i {
                    assert(pre[k] == post[k]);
                }
            }
            if found_at(*doc, pre, x) {
                let k = choose|k: int| 0 <= k < pre.len() && json_string_at(*doc, #[trigger] pre[k]@) == Some(x);
                assert(pre[k] == post[k]);
            }
        }
        i = i + 1;
    }
    assert(keys@.subrange(0, keys@.len() as int) == keys@);
}


fn add_accounts_from_actions(accounts: &mut Vec<String>, actions: &Vec<Action>)
    requires
        distinct(old(accounts)@),
    ensures
        distinct(final(accounts)@),
        forall|x: Seq<char>| #[trigger] holds(final(accounts)@, x) <==> (holds(old(accounts)@, x) || named_by_actions(actions@, x)),
{
    let keys = potential_account_args();
    let mut i: usize = 0;
    while i < actions.len()
        invariant
            i <= actions.len(),
            keys@ == account_arg_keys(),
            distinct(accounts@),
            forall|x: Seq<char>| #[trigger] holds(accounts@, x) <==> (holds(old(accounts)@, x) || named_by_actions(actions@.subrange(0, i as int), x)),
        decreases actions.len() - i,
    {
        let ghost pre = actions@.subrange(0, i as int);
        let ghost post = actions@.subrange(0, i + 1);
        let ghost before = accounts@;
        match &actions[i] {
            Action::FunctionCall { args } => {
                match parse_json(args.as_slice()) {
                    Some(doc) => {
                        extract_accounts(accounts, &doc, &keys);
                    },
                    None => {},
                }
            },
            Action::Other => {},
        }
        assert forall|x: Seq<char>| #[trigger] holds(accounts@, x) <==> (holds(old(accounts)@, x) || named_by_actions(post, x)) by {
            assert(post[i as int] == actions@[i as int]);
            if named_by_actions(post, x) {
                let k = choose|k: int| 0 <= k < post.len() && match #[trigger] post[k] {
                    Action::FunctionCall { args } => match json_of(args@) {
                        Some(doc) => found_at(doc, account_arg_keys(), x),
                        None => false,
                    },
                    Action::Other => false,
                };
                if k < i {
                    assert(pre[k] == post[k]);
                }
            }
            if named_by_actions(pre, x) {
                let k = choose|k: int| 0 <= k < pre.len() && match #[trigger] pre[k] {
                    Action::FunctionCall { args } => match json_of(args@) {
                        Some(doc) => found_at(doc, account_arg_keys(), x),
                        None => false,
                    },
                    Action::Other => false,
                };
                assert(pre[k] == post[k]);
            }
        }
        i = i + 1;
    }
    assert(actions@.subrange(0, actions@.len() as int) == actions@);
}

/// Adds the receiver of `receipt` and every account named by its function calls.
fn add_accounts_from_receipt(accounts: &mut Vec<String>, receipt: &Receipt)
    requires
        distinct(old(accounts)@),
    ensures
        distinct(final(accounts)@),
        forall|x: Seq<char>| #[trigger] holds(final(accounts)@, x) <==> (holds(old(accounts)@, x) || named_by_receipt(*receipt, x)),
{
    let receiver = receipt.receiver_id.clone();
    add_account(accounts, receiver);
    let ghost mid = accounts@;
    match &receipt.kind {
        ReceiptKind::Action { actions, .. } => {
            add_accounts_from_actions(accounts, actions);
            assert forall|x: Seq<char>| #[trigger] holds(accounts@, x) <==> (holds(old(accounts)@, x) || named_by_receipt(*receipt, x)) by {
                assert(holds(accounts@, x) <==> (holds(mid, x) || named_by_actions(actions@, x)));
            }
        },
        ReceiptKind::Data { .. } => {},
    }
}

/// Whether `b` starts with `p`.
fn has_prefix(b: &[u8], p: &[u8]) -> (r: bool)
    ensures
        r == (p@.len() <= b@.len() && b@.subrange(0, p@.len() as int) == p@),
{
    if p.len() > b.len() {
        return false;
    }
    let mut i: usize = 0;
    while i < p.len()
        invariant
            i <= p@.len() <= b@.len(),
            forall|k: int| 0 <= k < i ==> b@[k] == p@[k],
        decreases p.len() - i,
    {
        if b[i] != p[i] {
            assert(b@.subrange(0, p@.len() as int)[i as int] != p@[i as int]);
            return false;
        }
        i = i + 1;
    }
    assert(b@.subrange(0, p@.len() as int) == p@);
    true
}

/// Adds every account named in the data of the events logged in `log`.
fn add_accounts_from_log(accounts: &mut Vec<String>, log: &String, keys: &Vec<&'static str>)
    requires
        distinct(old(accounts)@),
        keys@ == event_arg_keys(),
    ensures
        distinct(final(accounts)@),
        forall|x: Seq<char>| #[trigger] holds(final(accounts)@, x) <==> (holds(old(accounts)@, x) || named_by_log(log@, x)),
{
    let b = log.as_str().as_bytes();
    let p = EVENT_JSON_PREFIX.as_bytes();
    assert(b@ == encode_utf8(log@));
    if !has_prefix(b, p) {
        assert(event_body(encode_utf8(log@)) is None);
        return;
    }
    let body = slice_subrange(b, p.len(), b.len());
    assert(event_body(encode_utf8(log@)) == Some(body@));
    let doc = match parse_json(body) {
        Some(doc) => doc,
        None => {
            return;
        },
    };
    let ghost its = event_items(doc);
    let items = event_data(doc);
    let mut j: usize = 0;
    while j < items.len()
        invariant
            j <= items.len(),
            items@ == its,
            json_of(body@) is Some && its == event_items(json_of(body@)->Some_0),
            event_body(encode_utf8(log@)) == Some(body@),
            keys@ == event_arg_keys(),
            distinct(accounts@),
            forall|x: Seq<char>| #[trigger] holds(accounts@, x) <==> (holds(old(accounts)@, x)
                || exists|k: int| 0 <= k < j && found_at(#[trigger] its[k], event_arg_keys(), x)),
        decreases items.len() - j,
    {
        let ghost before = accounts@;
        extract_accounts(accounts, &items[j], keys);
        assert forall|x: Seq<char>| #[trigger] holds(accounts@, x) <==> (holds(old(accounts)@, x)
            || exists|k: int| 0 <= k < j + 1 && found_at(#[trigger] its[k], event_arg_keys(), x)) by {
            assert(holds(accounts@, x) <==> (holds(before, x) || found_at(its[j as int], event_arg_keys(), x)));
        }
        j = j + 1;
    }
    assert forall|x: Seq<char>| #[trigger] holds(accounts@, x) <==> (holds(old(accounts)@, x) || named_by_log(log@, x)) by {
        assert(named_by_log(log@, x) == named_in_event(body@, x));
    }
}

/// Adds every account named in the events of `logs`.
fn add_accounts_from_logs(accounts: &mut Vec<String>, logs: &Vec<String>)
    requires
        distinct(old(accounts)@),
    ensures
        distinct(final(accounts)@),
        forall|x: Seq<char>| #[trigger] holds(final(accounts)@, x) <==> (holds(old(accounts)@, x) || named_by_logs(logs@, x)),
{
    let keys = potential_event_args();
    let mut i: usize = 0;
    while i < logs.len()
        invariant
            i <= logs.len(),
            keys@ == event_arg_keys(),
            distinct(accounts@),
            forall|x: Seq<char>| #[trigger] holds(accounts@, x) <==> (holds(old(accounts)@, x) || named_by_logs(logs@.subrange(0, i as int), x)),
        decreases logs.len() - i,
    {
        let ghost pre = logs@.subrange(0, i as int);
        let ghost post = logs@.subrange(0, i + 1);
        let ghost before = accounts@;
        add_accounts_from_log(accounts, &logs[i], &keys);
        assert forall|x: Seq<char>| #[trigger] holds(accounts@, x) <==> (holds(old(accounts)@, x) || named_by_logs(post, x)) by {
            assert(post[i as int] == logs@[i as int]);
            assert(holds(accounts@, x) <==> (holds(before, x) || named_by_log(logs@[i as int]@, x)));
            if named_by_log(logs@[i as int]@, x) {
                assert(named_by_log(post[i as int]@, x));
            }
            if named_by_logs(post, x) {
                let k = choose|k: int| 0 <= k < post.len() && named_by_log(#[trigger] post[k]@, x);
                if k < i {
                    assert(pre[k] == post[k]);
                }
            }
            if named_by_logs(pre, x) {
                let k = choose|k: int| 0 <= k < pre.len() && named_by_log(#[trigger] pre[k]@, x);
                assert(pre[k] == post[k]);
            }
        }
        i = i + 1;
    }
    assert(logs@.subrange(0, logs@.len() as int) == logs@);
}

/// The accounts that a transaction refers to, each once, the signer first.
pub fn get_accounts_from_transaction(transaction: &PendingTransaction) -> (r: Vec<String>)
    ensures
        distinct(r@),
        forall|x: Seq<char>| #[trigger] holds(r@, x) <==> named_by_transaction(*transaction, x),
{
    let mut accounts: Vec<String> = Vec::new();
    accounts.push(transaction.transaction.transaction.signer_id.clone());
    assert forall|x: Seq<char>| #[trigger] holds(accounts@, x) <==> x == transaction.transaction.transaction.signer_id@ by {
        if x == transaction.transaction.transaction.signer_id@ {
            assert(accounts@[0]@ == x);
        }
    }
    let receipts = &transaction.transaction.receipts;
    let mut i: usize = 0;
    while i < receipts.len()
        invariant
            i <= receipts.len(),
            receipts == &transaction.transaction.receipts,
            distinct(accounts@),
            forall|x: Seq<char>| #[trigger] holds(accounts@, x) <==> (x == transaction.transaction.transaction.signer_id@
                || exists|k: int| 0 <= k < i && {
                    let r = #[trigger] receipts@[k];
                    named_by_receipt(r.receipt, x) || named_by_logs(r.execution_outcome.logs@, x)
                }),
        decreases receipts.len() - i,
    {
        let ghost before = accounts@;
        add_accounts_from_receipt(&mut accounts, &receipts[i].receipt);
        let ghost mid = accounts@;
        add_accounts_from_logs(&mut accounts, &receipts[i].execution_outcome.logs);
        assert forall|x: Seq<char>| #[trigger] holds(accounts@, x) <==> (x == transaction.transaction.transaction.signer_id@
            || exists|k: int| 0 <= k < i + 1 && {
                let r = #[trigger] receipts@[k];
                named_by_receipt(r.receipt, x) || named_by_logs(r.execution_outcome.logs@, x)
            }) by {
            let r = receipts@[i as int];
            assert(holds(mid, x) <==> (holds(before, x) || named_by_receipt(r.receipt, x)));
            assert(holds(accounts@, x) <==> (holds(mid, x) || named_by_logs(r.execution_outcome.logs@, x)));
        }
        i = i + 1;
    }
    accounts
}

/// What a watch-list entry says of one account: `None` where its pattern
/// does not compile.
pub open spec fn entry_matches(e: WatchListEntry, a: Seq<char>) -> Option<bool> {
    if e.is_regex {
        if regex_valid(e.account_id@) {
            Some(regex_is_match(e.account_id@, a))
        } else {
            None
        }
    } else {
        Some(e.account_id@ == a)
    }
}

/// Tries the entry against each account in turn: the first account it
/// matches ends the scan with `Some(true)`, a pattern that does not compile
/// ends it with `None`.
pub open spec fn entry_scan(e: WatchListEntry, accounts: Seq<Seq<char>>) -> Option<bool>
    decreases accounts.len(),
{
    if accounts.len() == 0 {
        Some(false)
    } else {
        match entry_matches(e, accounts[0]) {
            Some(false) => entry_scan(e, accounts.drop_first()),
            other => other,
        }
    }
}

/// Tries each entry of the watch list in turn against the accounts.
pub open spec fn watch_scan(watch_list: Seq<WatchListEntry>, accounts: Seq<Seq<char>>) -> Option<bool>
    decreases watch_list.len(),
{
    if watch_list.len() == 0 {
        Some(false)
    } else {
        match entry_scan(watch_list[0], accounts) {
            Some(false) => watch_scan(watch_list.drop_first(), accounts),
            other => other,
        }
    }
}

/// The texts of the accounts.
pub open spec fn texts(v: Seq<String>) -> Seq<Seq<char>> {
    v.map_values(|s: String| s@)
}

/// What `entry` says of `account`.
fn entry_check(entry: &WatchListEntry, account: &String) -> (r: Option<bool>)
    ensures
        r == entry_matches(*entry, account@),
{
    if entry.is_regex {
        pattern_matches(entry.account_id.as_str(), account.as_str())
    } else {
        Some(entry.account_id == *account)
    }
}

/// Tries `entry` against each account in turn.
fn entry_scan_exec(entry: &WatchListEntry, accounts: &Vec<String>) -> (r: Option<bool>)
    ensures
        r == entry_scan(*entry, texts(accounts@)),
{
    let ghost t = texts(accounts@);
    assert(t.subrange(0, t.len() as int) == t);
    let mut i: usize = 0;
    while i < accounts.len()
        invariant
            i <= accounts.len(),
            t == texts(accounts@),
            entry_scan(*entry, t) == entry_scan(*entry, t.subrange(i as int, t.len() as int)),
        decreases accounts.len() - i,
    {
        let ghost rest = t.subrange(i as int, t.len() as int);
        assert(rest[0] == accounts@[i as int]@);
        assert(rest.drop_first() == t.subrange(i + 1, t.len() as int));
        match entry_check(entry, &accounts[i]) {
            Some(false) => {},
            other => {
                return other;
            },
        }
        i = i + 1;
    }
    assert(t.subrange(i as int, t.len() as int).len() == 0);
    Some(false)
}

/// Whether some account matches some entry of the watch list, trying the
/// entries in order and, for each, the accounts in order. A pattern that
/// does not compile, once reached, is an error.
pub fn some_account_in_watch_list(watch_list: &Vec<WatchListEntry>, accounts: &Vec<String>) -> (r: Result<bool, IndexerError>)
    ensures
        match watch_scan(watch_list@, texts(accounts@)) {
            Some(b) => r == Ok::<bool, IndexerError>(b),
            None => r matches Err(IndexerError::InvalidWatchListPattern { .. }),
        },
        watch_list_valid(watch_list@) ==> r is Ok,
{
    proof {
        if watch_list_valid(watch_list@) {
            lemma_valid_watch_scan_decides(watch_list@, texts(accounts@));
        }
    }
    let ghost t = texts(accounts@);
    let ghost w = watch_list@;
    assert(w.subrange(0, w.len() as int) == w);
    let mut i: usize = 0;
    while i < watch_list.len()
        invariant
            i <= watch_list.len(),
            t == texts(accounts@),
            w == watch_list@,
            watch_list_valid(w) ==> watch_scan(w, t) is Some,
            watch_scan(w, t) == watch_scan(w.subrange(i as int, w.len() as int), t),
        decreases watch_list.len() - i,
    {
        let ghost rest = w.subrange(i as int, w.len() as int);
        assert(rest[0] == w[i as int]);
        assert(rest.drop_first() == w.subrange(i + 1, w.len() as int));
        match entry_scan_exec(&watch_list[i], accounts) {
            Some(false) => {},
            Some(true) => {
                return Ok(true);
            },
            None => {
                return Err(IndexerError::InvalidWatchListPattern { pattern: watch_list[i].account_id.clone() });
            },
        }
        i = i + 1;
    }
    assert(w.subrange(i as int, w.len() as int).len() == 0);
    Ok(false)
}

/// Every pattern entry of the watch list compiles.
pub open spec fn watch_list_valid(watch_list: Seq<WatchListEntry>) -> bool {
    forall|i: int| 0 <= i < watch_list.len() && (#[trigger] watch_list[i]).is_regex ==> regex_valid(watch_list[i].account_id@)
}

/// Checks every pattern of the watch list; the first that does not compile
/// is an error.
pub fn validate_watch_list(watch_list: &Vec<WatchListEntry>) -> (r: Result<(), IndexerError>)
    ensures
        r is Ok <==> watch_list_valid(watch_list@),
        r is Err ==> exists|i: int| 0 <= i < watch_list@.len() && watch_list@[i].is_regex
            && !regex_valid(watch_list@[i].account_id@)
            && r == Err::<(), IndexerError>(IndexerError::InvalidWatchListPattern { pattern: watch_list@[i].account_id }),
{
    let mut i: usize = 0;
    while i < watch_list.len()
        invariant
            i <= watch_list.len(),
            forall|k: int| 0 <= k < i && (#[trigger] watch_list@[k]).is_regex ==> regex_valid(watch_list@[k].account_id@),
        decreases watch_list.len() - i,
    {
        if watch_list[i].is_regex && !pattern_compiles(watch_list[i].account_id.as_str()) {
            let pattern = watch_list[i].account_id.clone();
            return Err(IndexerError::InvalidWatchListPattern { pattern });
        }
        i = i + 1;
    }
    Ok(())
}

/// With every pattern compiling, an entry's scan always decides.
pub proof fn lemma_valid_entry_scan_decides(e: WatchListEntry, accounts: Seq<Seq<char>>)
    requires
        e.is_regex ==> regex_valid(e.account_id@),
    ensures
        entry_scan(e, accounts) is Some,
    decreases accounts.len(),
{
    if accounts.len() > 0 {
        lemma_valid_entry_scan_decides(e, accounts.drop_first());
    }
}

/// With every pattern compiling, the watch-list scan always decides.
pub proof fn lemma_valid_watch_scan_decides(watch_list: Seq<WatchListEntry>, accounts: Seq<Seq<char>>)
    requires
        watch_list_valid(watch_list),
    ensures
        watch_scan(watch_list, accounts) is Some,
    decreases watch_list.len(),
{
    if watch_list.len() > 0 {
        assert(watch_list[0].is_regex ==> regex_valid(watch_list[0].account_id@));
        lemma_valid_entry_scan_decides(watch_list[0], accounts);
        let rest = watch_list.drop_first();
        assert forall|i: int| 0 <= i < rest.len() && (#[trigger] rest[i]).is_regex implies regex_valid(rest[i].account_id@) by {
            assert(rest[i] == watch_list[i + 1]);
        }
        lemma_valid_watch_scan_decides(rest, accounts);
    }
}

} // verus!
