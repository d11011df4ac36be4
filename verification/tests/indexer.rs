use inscribe_indexer::context::InscribeContext;
use inscribe_indexer::json::JsonValue;
use inscribe_indexer::json::str_eq;
use inscribe_indexer::store::Store;
use inscribe_indexer::types::InscribeFilter;
use inscribe_indexer::types::InscribeFilterConfig;
use inscribe_indexer::types::Inscription;
use inscribe_indexer::types::MimeCategory;
use inscribe_indexer::types::Token;
use inscribe_indexer::types::VerifiedStatus;
use inscribe_indexer::worker::WorkerInscribe;

fn tx(n: u8) -> String {
    format!("0x{:064x}", n)
}

fn empty_filter() -> InscribeFilter {
    InscribeFilter::new(InscribeFilterConfig {
        tx_filter: vec![],
        block_filter: vec![],
        mint_pass_tx: vec![],
    })
}

fn insc(id: u64, txh: &str, bn: u64, from: &str, to: &str, cat: MimeCategory, data: &str) -> Inscription {
    Inscription {
        id,
        tx_hash: txh.to_string(),
        blocknumber: bn,
        from: from.to_string(),
        to: to.to_string(),
        mime_category: cat,
        mime_data: data.to_string(),
        json: JsonValue::Null,
        signature: None,
        verified: VerifiedStatus::Pending,
    }
}

fn deploy_json(item_txs: &[&str]) -> JsonValue {
    let items: Vec<JsonValue> = item_txs
        .iter()
        .map(|t| JsonValue::Obj(vec![("tx".to_string(), JsonValue::Str(t.to_string()))]))
        .collect();
    JsonValue::Obj(vec![
        ("op".to_string(), JsonValue::Str("deploy".to_string())),
        ("items".to_string(), JsonValue::Arr(items)),
        ("name".to_string(), JsonValue::Str("set".to_string())),
        ("description".to_string(), JsonValue::Str("a set".to_string())),
        ("url".to_string(), JsonValue::Str("u".to_string())),
        ("image".to_string(), JsonValue::Str("i".to_string())),
        ("icon".to_string(), JsonValue::Str("c".to_string())),
    ])
}

/// Runs one worker cycle over a store whose pending inscriptions end at
/// `sync_id` in a fully synced chain.
fn run_block(store: &mut Store, filter: InscribeFilter) -> Result<bool, inscribe_indexer::store::StoreError> {
    let worker = WorkerInscribe::new(filter);
    worker.inscribe(store)
}

#[test]
fn str_eq_compares_content() {
    assert!(str_eq("deploy", "deploy"));
    assert!(!str_eq("deploy", "deplox"));
    assert!(!str_eq("deploy", "deplo"));
}

#[test]
fn filter_rejects_by_tx_and_block() {
    let filter = InscribeFilter::new(InscribeFilterConfig {
        tx_filter: vec![tx(9)],
        block_filter: vec![77],
        mint_pass_tx: vec![],
    });
    assert!(filter.should_reject(&tx(9), 1));
    assert!(filter.should_reject(&tx(1), 77));
    assert!(!filter.should_reject(&tx(1), 1));
}

#[test]
fn plain_inscription_gets_known_digest() {
    let mut store = Store::new();
    store.inscriptions.push(insc(1, &tx(1), 100, "alice", "alice", MimeCategory::Text, "hello"));
    store.top_sync_id = 1;
    store.sync_blocknumber = 101;
    let r = run_block(&mut store, empty_filter());
    assert_eq!(r, Ok(true));
    // the record is re-persisted with its terminal status and signature
    let committed = &store.inscriptions[1];
    assert_eq!(committed.verified, VerifiedStatus::Successful);
    assert_eq!(
        committed.signature.as_deref(),
        Some("aaf4c61ddcc5e8a2dabede0f3b482cd9aea9434d")
    );
    assert_eq!(store.signatures.len(), 1);
}

#[test]
fn dedup_same_block() {
    let mut store = Store::new();
    store.inscriptions.push(insc(1, &tx(1), 100, "a", "a", MimeCategory::Text, "same-bytes"));
    store.inscriptions.push(insc(2, &tx(2), 100, "b", "b", MimeCategory::Text, "same-bytes"));
    store.top_sync_id = 2;
    store.sync_blocknumber = 101;
    assert_eq!(run_block(&mut store, empty_filter()), Ok(true));
    assert_eq!(store.inscriptions[2].verified, VerifiedStatus::Successful);
    assert_eq!(store.inscriptions[3].verified, VerifiedStatus::Failed);
    assert!(store.inscriptions[3].signature.is_none());
}

#[test]
fn dedup_across_blocks() {
    let mut store = Store::new();
    store.inscriptions.push(insc(1, &tx(1), 100, "a", "a", MimeCategory::Text, "same-bytes"));
    store.inscriptions.push(insc(2, &tx(2), 101, "b", "b", MimeCategory::Image, "same-bytes"));
    store.top_sync_id = 2;
    store.sync_blocknumber = 102;
    assert_eq!(run_block(&mut store, empty_filter()), Ok(true));
    assert_eq!(run_block(&mut store, empty_filter()), Ok(true));
    let second = store
        .inscriptions
        .iter()
        .find(|i| i.id == 2 && i.verified != VerifiedStatus::Pending)
        .unwrap();
    assert_eq!(second.verified, VerifiedStatus::Failed);
}

#[test]
fn transfer_chain_success_records_indices() {
    let mut store = Store::new();
    store.inscriptions.push(insc(1, &tx(1), 90, "alice", "alice", MimeCategory::Text, "a"));
    store.inscriptions.push(insc(2, &tx(2), 90, "alice", "alice", MimeCategory::Text, "b"));
    store.nft_holders.push((1, "alice".to_string()));
    store.nft_holders.push((2, "alice".to_string()));
    store.top_inscription_id = 2;
    let payload = format!("{}{}", tx(1), tx(2));
    store.inscriptions.push(insc(3, &tx(3), 100, "alice", "bob", MimeCategory::Transfer, &payload));
    store.top_sync_id = 3;
    store.sync_blocknumber = 101;
    assert_eq!(run_block(&mut store, empty_filter()), Ok(true));
    let committed = store.inscriptions.iter().rfind(|i| i.id == 3).unwrap();
    assert_eq!(committed.verified, VerifiedStatus::Successful);
    assert_eq!(store.nft_transfers, vec![(3, 1, 0), (3, 2, 1)]);
    let holder1 = store.get_inscription_nft_holder_by_id(1).unwrap();
    let holder2 = store.get_inscription_nft_holder_by_id(2).unwrap();
    assert_eq!(holder1, "bob");
    assert_eq!(holder2, "bob");
}

#[test]
fn transfer_chain_is_all_or_nothing() {
    let mut store = Store::new();
    store.inscriptions.push(insc(1, &tx(1), 90, "alice", "alice", MimeCategory::Text, "a"));
    store.inscriptions.push(insc(2, &tx(2), 90, "carol", "carol", MimeCategory::Text, "b"));
    store.nft_holders.push((1, "alice".to_string()));
    store.nft_holders.push((2, "carol".to_string()));
    store.top_inscription_id = 2;
    let payload = format!("{}{}", tx(1), tx(2));
    store.inscriptions.push(insc(3, &tx(3), 100, "alice", "bob", MimeCategory::Transfer, &payload));
    store.top_sync_id = 3;
    store.sync_blocknumber = 101;
    assert_eq!(run_block(&mut store, empty_filter()), Ok(true));
    let committed = store.inscriptions.iter().rfind(|i| i.id == 3).unwrap();
    assert_eq!(committed.verified, VerifiedStatus::Failed);
    assert!(store.nft_transfers.is_empty());
    assert_eq!(store.get_inscription_nft_holder_by_id(1).unwrap(), "alice");
    assert_eq!(store.get_inscription_nft_holder_by_id(2).unwrap(), "carol");
}

#[test]
fn collection_deploy_sets_backrefs() {
    let mut store = Store::new();
    store.inscriptions.push(insc(1, &tx(1), 90, "alice", "alice", MimeCategory::Text, "art"));
    store.nft_holders.push((1, "alice".to_string()));
    store.top_inscription_id = 1;
    let mut deploy = insc(2, &tx(20), 100, "alice", "alice", MimeCategory::Json, "");
    deploy.json = deploy_json(&[&tx(1)]);
    store.inscriptions.push(deploy);
    store.top_sync_id = 2;
    store.sync_blocknumber = 101;
    assert_eq!(run_block(&mut store, empty_filter()), Ok(true));
    let committed = store.inscriptions.iter().rfind(|i| i.id == 2).unwrap();
    assert_eq!(committed.verified, VerifiedStatus::Successful);
    assert_eq!(store.get_inscription_nft_collection_by_id(1).unwrap(), tx(20));
    assert_eq!(store.collections.len(), 1);
}

#[test]
fn collection_membership_is_exclusive() {
    let mut store = Store::new();
    store.inscriptions.push(insc(1, &tx(1), 90, "alice", "alice", MimeCategory::Text, "art"));
    store.nft_holders.push((1, "alice".to_string()));
    store.memberships.push((1, tx(20)));
    store.top_inscription_id = 1;
    let mut deploy2 = insc(2, &tx(21), 100, "alice", "alice", MimeCategory::Json, "");
    deploy2.json = deploy_json(&[&tx(1)]);
    store.inscriptions.push(deploy2);
    store.top_sync_id = 2;
    store.sync_blocknumber = 101;
    assert_eq!(run_block(&mut store, empty_filter()), Ok(true));
    let committed = store.inscriptions.iter().rfind(|i| i.id == 2).unwrap();
    assert_eq!(committed.verified, VerifiedStatus::Failed);
    assert_eq!(store.get_inscription_nft_collection_by_id(1).unwrap(), tx(20));
}

#[test]
fn collection_rejects_foreign_holder_and_missing_item() {
    let mut store = Store::new();
    store.inscriptions.push(insc(1, &tx(1), 90, "carol", "carol", MimeCategory::Text, "art"));
    store.nft_holders.push((1, "carol".to_string()));
    store.top_inscription_id = 1;
    // item held by someone else
    let mut deploy = insc(2, &tx(20), 100, "alice", "alice", MimeCategory::Json, "");
    deploy.json = deploy_json(&[&tx(1)]);
    // item that does not exist
    let mut deploy_missing = insc(3, &tx(21), 100, "alice", "alice", MimeCategory::Json, "");
    deploy_missing.json = deploy_json(&[&tx(7)]);
    store.inscriptions.push(deploy);
    store.inscriptions.push(deploy_missing);
    store.top_sync_id = 3;
    store.sync_blocknumber = 101;
    assert_eq!(run_block(&mut store, empty_filter()), Ok(true));
    assert_eq!(store.inscriptions.iter().rfind(|i| i.id == 2).unwrap().verified, VerifiedStatus::Failed);
    assert_eq!(store.inscriptions.iter().rfind(|i| i.id == 3).unwrap().verified, VerifiedStatus::Failed);
}

#[test]
fn json_token_operations_are_rejected() {
    let mut store = Store::new();
    let mut mint = insc(1, &tx(1), 100, "a", "a", MimeCategory::Json, "");
    mint.json = JsonValue::Obj(vec![("op".to_string(), JsonValue::Str("mint".to_string()))]);
    store.inscriptions.push(mint);
    store.top_sync_id = 1;
    store.sync_blocknumber = 101;
    assert_eq!(run_block(&mut store, empty_filter()), Ok(true));
    assert_eq!(store.inscriptions[1].verified, VerifiedStatus::Failed);
}

#[test]
fn invoke_and_unknown_categories_fail() {
    let mut store = Store::new();
    store.inscriptions.push(insc(1, &tx(1), 100, "a", "a", MimeCategory::Invoke, "x"));
    store.inscriptions.push(insc(2, &tx(2), 100, "a", "a", MimeCategory::Other, "y"));
    store.top_sync_id = 2;
    store.sync_blocknumber = 101;
    assert_eq!(run_block(&mut store, empty_filter()), Ok(true));
    assert_eq!(store.inscriptions[2].verified, VerifiedStatus::Failed);
    assert_eq!(store.inscriptions[3].verified, VerifiedStatus::Failed);
}

#[test]
fn filter_precedence_blocks_valid_inscription() {
    let mut store = Store::new();
    store.inscriptions.push(insc(1, &tx(1), 100, "a", "a", MimeCategory::Text, "fresh"));
    store.top_sync_id = 1;
    store.sync_blocknumber = 101;
    let filter = InscribeFilter::new(InscribeFilterConfig {
        tx_filter: vec![tx(1)],
        block_filter: vec![],
        mint_pass_tx: vec![],
    });
    assert_eq!(run_block(&mut store, filter), Ok(true));
    let committed = &store.inscriptions[1];
    assert_eq!(committed.verified, VerifiedStatus::Failed);
    assert!(committed.signature.is_none());
    assert!(store.signatures.is_empty());
    assert!(store.nft_transfers.is_empty());
}

#[test]
fn cursor_advances_and_never_decreases() {
    let mut store = Store::new();
    store.inscriptions.push(insc(1, &tx(1), 100, "a", "a", MimeCategory::Text, "one"));
    store.inscriptions.push(insc(2, &tx(2), 100, "a", "a", MimeCategory::Text, "two"));
    store.top_sync_id = 2;
    store.sync_blocknumber = 101;
    assert_eq!(run_block(&mut store, empty_filter()), Ok(true));
    assert_eq!(store.top_inscription_id, 2);
    // nothing left: the cursor stays where it is
    assert_eq!(run_block(&mut store, empty_filter()), Ok(false));
    assert_eq!(store.top_inscription_id, 2);
}

#[test]
fn interrupted_commit_leaves_no_trace() {
    let mut store = Store::new();
    store.inscriptions.push(insc(1, &tx(1), 100, "alice", "bob", MimeCategory::Text, "data"));
    store.top_sync_id = 1;
    store.sync_blocknumber = 101;
    store.fail_commit = true;
    let r = run_block(&mut store, empty_filter());
    assert!(r.is_err());
    assert_eq!(store.top_inscription_id, 0);
    assert_eq!(store.inscriptions.len(), 1);
    assert_eq!(store.inscriptions[0].verified, VerifiedStatus::Pending);
    assert!(store.signatures.is_empty());
    assert!(store.nft_transfers.is_empty());
    assert!(store.nft_holders.is_empty());
    // the same block commits cleanly once the store recovers
    store.fail_commit = false;
    assert_eq!(run_block(&mut store, empty_filter()), Ok(true));
    assert_eq!(store.top_inscription_id, 1);
}

#[test]
fn worker_backs_off_without_work() {
    let mut store = Store::new();
    // no pending inscriptions at all
    assert_eq!(run_block(&mut store, empty_filter()), Ok(false));
    // a pending inscription whose block ingestion has not finished
    store.inscriptions.push(insc(1, &tx(1), 100, "a", "a", MimeCategory::Text, "x"));
    store.top_sync_id = 1;
    store.sync_blocknumber = 100;
    assert_eq!(run_block(&mut store, empty_filter()), Ok(false));
    assert_eq!(store.top_inscription_id, 0);
}

#[test]
fn load_block_stops_at_gap_and_block_change() {
    let mut store = Store::new();
    store.inscriptions.push(insc(1, &tx(1), 100, "a", "a", MimeCategory::Text, "x"));
    store.inscriptions.push(insc(2, &tx(2), 100, "a", "a", MimeCategory::Text, "y"));
    store.inscriptions.push(insc(3, &tx(3), 101, "a", "a", MimeCategory::Text, "z"));
    let worker = WorkerInscribe::new(empty_filter());
    let blk = worker.load_block(&store, 100);
    assert_eq!(blk.len(), 2);
    assert_eq!(blk[0].id, 1);
    assert_eq!(blk[1].id, 2);
    // a gap right after the cursor yields an empty block
    let mut gappy = Store::new();
    gappy.inscriptions.push(insc(2, &tx(2), 100, "a", "a", MimeCategory::Text, "y"));
    assert!(worker.load_block(&gappy, 100).is_empty());
}

#[test]
fn save_applies_token_effects() {
    let mut store = Store::new();
    store.inscriptions.push(insc(1, &tx(1), 100, "a", "a", MimeCategory::Text, "x"));
    store.top_sync_id = 1;
    store.sync_blocknumber = 101;
    let filter = empty_filter();
    let mut ctx = InscribeContext::new(&store, &filter);
    ctx.inscriptions = vec![insc(1, &tx(1), 100, "a", "a", MimeCategory::Text, "x")];
    ctx.inscribe(&store);
    ctx.token_cache.push(Token {
        tick: "abc".to_string(),
        deploy: true,
        holders: 0,
        updated: false,
    });
    ctx.token_balance_change.push(("abc".to_string(), "alice".to_string(), 5));
    ctx.token_transfers.push(("abc".to_string(), 1));
    assert!(ctx.save(&mut store).is_ok());
    assert_eq!(store.balances, vec![("abc".to_string(), "alice".to_string(), 5)]);
    assert_eq!(store.token_transfers, vec![("abc".to_string(), 1)]);
    assert_eq!(store.tokens.len(), 1);
    assert_eq!(store.tokens[0].holders, 1);
    assert!(store.tokens[0].updated);
    // draining the balance brings the holder count back down
    let mut ctx2 = InscribeContext::new(&store, &filter);
    ctx2.inscriptions = vec![insc(2, &tx(2), 101, "a", "a", MimeCategory::Text, "y")];
    ctx2.inscribe(&store);
    ctx2.token_balance_change.push(("abc".to_string(), "alice".to_string(), -5));
    assert!(ctx2.save(&mut store).is_ok());
    assert_eq!(store.balances, vec![("abc".to_string(), "alice".to_string(), 0)]);
    assert_eq!(store.tokens[0].holders, 0);
}

#[test]
fn get_nft_holder_prefers_block_override() {
    let mut store = Store::new();
    store.nft_holders.push((7, "alice".to_string()));
    let filter = empty_filter();
    let mut ctx = InscribeContext::new(&store, &filter);
    assert_eq!(ctx.get_nft_holder(&store, 7), "alice");
    ctx.nft_holders.push((7, "bob".to_string()));
    assert_eq!(ctx.get_nft_holder(&store, 7), "bob");
}

#[test]
fn end_to_end_block_of_three() {
    let mut store = Store::new();
    store.inscriptions.push(insc(1, &tx(1), 100, "alice", "alice", MimeCategory::Text, "payload"));
    store.inscriptions.push(insc(2, &tx(2), 100, "bob", "bob", MimeCategory::Text, "payload"));
    store.inscriptions.push(insc(3, &tx(3), 100, "mallory", "eve", MimeCategory::Transfer, &tx(1)));
    store.top_sync_id = 3;
    store.sync_blocknumber = 101;
    assert_eq!(run_block(&mut store, empty_filter()), Ok(true));
    let one = store.inscriptions.iter().rfind(|i| i.id == 1).unwrap();
    let two = store.inscriptions.iter().rfind(|i| i.id == 2).unwrap();
    let three = store.inscriptions.iter().rfind(|i| i.id == 3).unwrap();
    assert_eq!(one.verified, VerifiedStatus::Successful);
    assert!(one.signature.is_some());
    assert_eq!(two.verified, VerifiedStatus::Failed);
    assert_eq!(three.verified, VerifiedStatus::Failed);
    assert_eq!(store.top_inscription_id, 3);
    assert!(store.get_inscription_nft_holder_by_id(1).is_none());
    assert!(store.nft_transfers.is_empty());
    assert!(store.token_transfers.is_empty());
}
