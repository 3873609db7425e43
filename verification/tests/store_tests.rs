//! Tests for the store, the worker passes, discovery, the balance
//! aggregates and the query screen.

use daggboard::codec::{
    bridge_event_topic_bytes, claim_v1_topic_bytes, new_wrapped_token_topic_bytes,
    transfer_topic_bytes, RawLog,
};
use daggboard::database::Database;
use daggboard::discovery::{plan_rollups, register_rollups, RollupMeta};
use daggboard::indexer::{plan_window, Indexer, WorkerError};
use daggboard::query::{is_query_forbidden, matching_rows};
use daggboard::utils::{dec_string_of_amount, zero_address_bytes};

fn word_u64(v: u64) -> Vec<u8> {
    let mut w = vec![0u8; 24];
    w.extend_from_slice(&v.to_be_bytes());
    w
}

fn word_addr(a: &[u8]) -> Vec<u8> {
    let mut w = vec![0u8; 12];
    w.extend_from_slice(a);
    w
}

fn addr(b: u8) -> Vec<u8> {
    vec![b; 20]
}

fn mk_log_at(
    address: Vec<u8>,
    topics: Vec<Vec<u8>>,
    data: Vec<u8>,
    block: u64,
    log_index: u64,
) -> RawLog {
    let mut tx = vec![0u8; 32];
    tx[24..].copy_from_slice(&block.to_be_bytes());
    tx[0] = log_index as u8;
    RawLog {
        address,
        topics,
        data,
        tx_hash: tx,
        block_hash: vec![0x22u8; 32],
        block_number: block,
        tx_index: 0,
        log_index,
    }
}

fn bridge_deposit_log(block: u64, log_index: u64, amount: u64, deposit_count: u64) -> RawLog {
    let mut data = Vec::new();
    data.extend(word_u64(0));
    data.extend(word_u64(0));
    data.extend(word_addr(&addr(0xaa)));
    data.extend(word_u64(1));
    data.extend(word_addr(&addr(0xcc)));
    data.extend(word_u64(amount));
    data.extend(word_u64(256));
    data.extend(word_u64(deposit_count));
    data.extend(word_u64(0));
    mk_log_at(addr(0xbb), vec![bridge_event_topic_bytes()], data, block, log_index)
}

fn wrapped_token_log(block: u64, log_index: u64, token: u8) -> RawLog {
    let mut data = Vec::new();
    data.extend(word_u64(0));
    data.extend(word_addr(&addr(0x01)));
    data.extend(word_addr(&addr(token)));
    data.extend(word_u64(128));
    data.extend(word_u64(0));
    mk_log_at(addr(0xbb), vec![new_wrapped_token_topic_bytes()], data, block, log_index)
}

fn transfer_log(
    token: u8,
    from: Vec<u8>,
    to: Vec<u8>,
    value: u64,
    block: u64,
    log_index: u64,
) -> RawLog {
    mk_log_at(
        addr(token),
        vec![
            transfer_topic_bytes(),
            {
                let mut w = vec![0u8; 12];
                w.extend_from_slice(&from);
                w
            },
            {
                let mut w = vec![0u8; 12];
                w.extend_from_slice(&to);
                w
            },
        ],
        word_u64(value),
        block,
        log_index,
    )
}

#[test]
fn discovery_registers_l1_and_children() {
    let mut db = Database::new(true);
    let metas = vec![
        RollupMeta {
            network_name: "zkevm-a".to_string(),
            bridge_address: addr(0xaa),
            rpc_url: "https://a".to_string(),
        },
        RollupMeta {
            network_name: "zkevm-b".to_string(),
            bridge_address: addr(0xab),
            rpc_url: "https://b".to_string(),
        },
    ];
    let plans = plan_rollups(2, &metas, "https://l1");
    assert_eq!(plans.len(), 3);
    assert_eq!(plans[0].rpc_url, "https://l1");
    assert_eq!(plans[1].network_name, "zkevm-a");
    assert_eq!(plans[1].bridge_address, addr(0xaa));
    assert_eq!(plans[1].rpc_url, "https://a");
    register_rollups(&mut db, &plans);
    assert_eq!(db.rollups.len(), 3);
    assert_eq!(db.rollups[0].rollup_id, 0);
    assert_eq!(db.rollups[0].network_name, "l1");
    assert_eq!(db.rollups[0].latest_synced_block, -1);
    assert_eq!(db.rollups[1].rollup_id, 1);
    assert_eq!(db.rollups[1].network_name, "zkevm-a");
    assert_eq!(db.rollups[1].latest_synced_block, -1);
    assert_eq!(db.rollups[2].rollup_id, 2);
    // registering again never overwrites
    register_rollups(&mut db, &plans);
    assert_eq!(db.rollups.len(), 3);
    // a fresh row reads as checkpoint 0
    assert_eq!(db.last_indexed_block(1), 0);
}

#[test]
fn bridge_deposit_persists_one_exact_row() {
    let mut db = Database::new(true);
    db.insert_rollup(1, "zkevm-a");
    let mut worker = Indexer::new(addr(0xbb), 1, &db);
    let logs = vec![bridge_deposit_log(100, 0, 1000, 7)];
    worker.run_pass1(&mut db, &logs).expect("window decodes");
    worker.finish_window(&mut db, 100);
    assert_eq!(db.bridge_events.len(), 1);
    let row = &db.bridge_events[0];
    assert_eq!(dec_string_of_amount(&row.amount), "1000");
    assert_eq!(row.deposit_count, 7);
    assert_eq!(row.block_number, 100);
    assert_eq!(row.rollup_id, 1);
    assert_eq!(db.last_indexed_block(1), 100);
}

#[test]
fn legacy_claim_persists_version_and_widened_index() {
    let mut db = Database::new(true);
    let mut data = Vec::new();
    data.extend(word_u64(42));
    data.extend(word_u64(0));
    data.extend(word_addr(&addr(0xaa)));
    data.extend(word_addr(&addr(0xcc)));
    data.extend(word_u64(5));
    let log = mk_log_at(addr(0xbb), vec![claim_v1_topic_bytes()], data, 100, 0);
    let mut worker = Indexer::new(addr(0xbb), 1, &db);
    worker.run_pass1(&mut db, &vec![log]).expect("claim decodes");
    assert_eq!(db.claim_events.len(), 1);
    let row = &db.claim_events[0];
    assert_eq!(row.version, 1);
    assert_eq!(dec_string_of_amount(&row.global_index), "42");
    assert_eq!(dec_string_of_amount(&row.amount), "5");
}

#[test]
fn wrapped_token_joins_live_set_and_survives_restart() {
    let mut db = Database::new(true);
    let mut worker = Indexer::new(addr(0xbb), 1, &db);
    assert_eq!(worker.wrapped_tokens.len(), 0);
    let logs = vec![wrapped_token_log(100, 0, 0x05), wrapped_token_log(100, 1, 0x06)];
    worker.run_pass1(&mut db, &logs).expect("wrapped tokens decode");
    assert_eq!(worker.wrapped_tokens.len(), 2);
    assert_eq!(db.new_wrapped_token_events.len(), 2);
    // a restarted worker rebuilds the set from the store
    let restarted = Indexer::new(addr(0xbb), 1, &db);
    let mut set = restarted.wrapped_tokens.clone();
    set.sort();
    assert_eq!(set, vec![addr(0x05), addr(0x06)]);
    // another rollup's worker sees nothing
    let other = Indexer::new(addr(0xbb), 2, &db);
    assert_eq!(other.wrapped_tokens.len(), 0);
}

#[test]
fn replay_of_a_window_changes_nothing() {
    let mut db = Database::new(true);
    let mut worker = Indexer::new(addr(0xbb), 1, &db);
    let pass1 = vec![
        bridge_deposit_log(100, 0, 1000, 7),
        wrapped_token_log(101, 0, 0x05),
    ];
    let mints = vec![transfer_log(0x05, addr(0x00), addr(0x0a), 10, 102, 0)];
    worker.run_pass1(&mut db, &pass1).expect("pass 1");
    worker.run_transfer_pass(&mut db, &mints, true, false).expect("pass 2");
    worker.finish_window(&mut db, 200);
    let rows_once = (
        db.bridge_events.len(),
        db.claim_events.len(),
        db.new_wrapped_token_events.len(),
        db.wrapped_transfer_events.len(),
        db.bridge_transfer_events.len(),
    );
    // replay the same window, as a restarted worker would
    let mut again = Indexer::new(addr(0xbb), 1, &db);
    again.run_pass1(&mut db, &pass1).expect("replayed pass 1");
    again.run_transfer_pass(&mut db, &mints, true, false).expect("replayed pass 2");
    again.finish_window(&mut db, 200);
    let rows_twice = (
        db.bridge_events.len(),
        db.claim_events.len(),
        db.new_wrapped_token_events.len(),
        db.wrapped_transfer_events.len(),
        db.bridge_transfer_events.len(),
    );
    assert_eq!(rows_once, rows_twice);
}

#[test]
fn restart_mid_window_reaches_the_clean_run_state() {
    // clean run of the window [100, 200]
    let pass1 = vec![wrapped_token_log(100, 0, 0x05)];
    let mints = vec![
        transfer_log(0x05, addr(0x00), addr(0x0a), 10, 102, 0),
        transfer_log(0x05, addr(0x00), addr(0x0a), 4, 103, 0),
    ];
    let mut clean = Database::new(true);
    clean.insert_rollup(1, "zkevm-a");
    let mut w1 = Indexer::new(addr(0xbb), 1, &clean);
    w1.run_pass1(&mut clean, &pass1).expect("pass 1");
    w1.run_transfer_pass(&mut clean, &mints, true, false).expect("pass 2");
    w1.finish_window(&mut clean, 200);
    // interrupted run: killed between the two mint inserts, before the
    // checkpoint moved; then a restart rescans the same window
    let mut db = Database::new(true);
    db.insert_rollup(1, "zkevm-a");
    let mut w2 = Indexer::new(addr(0xbb), 1, &db);
    w2.run_pass1(&mut db, &pass1).expect("pass 1");
    w2.run_transfer_pass(&mut db, &mints[..1].to_vec(), true, false).expect("partial pass 2");
    assert_eq!(db.last_indexed_block(1), 0);
    let mut w3 = Indexer::new(addr(0xbb), 1, &db);
    w3.run_pass1(&mut db, &pass1).expect("rescan pass 1");
    w3.run_transfer_pass(&mut db, &mints, true, false).expect("rescan pass 2");
    w3.finish_window(&mut db, 200);
    assert_eq!(db.bridge_events.len(), clean.bridge_events.len());
    assert_eq!(db.new_wrapped_token_events.len(), clean.new_wrapped_token_events.len());
    assert_eq!(db.wrapped_transfer_events.len(), clean.wrapped_transfer_events.len());
    assert_eq!(db.last_indexed_block(1), clean.last_indexed_block(1));
}

#[test]
fn mint_burn_accounting_reaches_the_balance_endpoint() {
    let mut db = Database::new(true);
    let worker = Indexer::new(addr(0xbb), 1, &db);
    let mints = vec![transfer_log(0x54, addr(0x00), addr(0x0a), 10, 100, 0)];
    let burns = vec![transfer_log(0x54, addr(0x0b), addr(0x00), 3, 101, 0)];
    worker.run_transfer_pass(&mut db, &mints, true, false).expect("mints");
    worker.run_transfer_pass(&mut db, &burns, true, false).expect("burns");
    assert_eq!(db.wrapped_balance(1, &addr(0x54)), "7");
    // other rollups and other tokens see nothing
    assert_eq!(db.wrapped_balance(2, &addr(0x54)), "0");
    assert_eq!(db.wrapped_balance(1, &addr(0x55)), "0");
}

#[test]
fn over_burning_shows_a_negative_supply() {
    let mut db = Database::new(true);
    let worker = Indexer::new(addr(0xbb), 1, &db);
    let burns = vec![transfer_log(0x54, addr(0x0b), addr(0x00), 3, 101, 0)];
    worker.run_transfer_pass(&mut db, &burns, true, false).expect("burns");
    assert_eq!(db.wrapped_balance(1, &addr(0x54)), "-3");
}

#[test]
fn uncastable_amount_reads_as_zero_balance() {
    let mut db = Database::new(true);
    let worker = Indexer::new(addr(0xbb), 1, &db);
    // a mint whose value needs more than 127 bits cannot be cast
    let mut huge = transfer_log(0x54, addr(0x00), addr(0x0a), 0, 100, 0);
    huge.data = vec![0xffu8; 32];
    worker.run_transfer_pass(&mut db, &vec![huge], true, false).expect("mint");
    assert_eq!(db.wrapped_balance(1, &addr(0x54)), "0");
}

#[test]
fn bridge_flow_balance_sums_in_minus_out() {
    let mut db = Database::new(true);
    let worker = Indexer::new(addr(0xbb), 0, &db);
    let bridge: Vec<u8> = vec![
        0x2a, 0x3d, 0xd3, 0xeb, 0x83, 0x2a, 0xf9, 0x82, 0xec, 0x71, 0x66, 0x9e, 0x17, 0x84,
        0x24, 0xb1, 0x0d, 0xca, 0x2e, 0xde,
    ];
    let inflow = vec![transfer_log(0x54, addr(0x0a), bridge.clone(), 9, 100, 0)];
    let outflow = vec![transfer_log(0x54, bridge.clone(), addr(0x0b), 4, 101, 0)];
    worker.run_transfer_pass(&mut db, &outflow, false, false).expect("out");
    worker.run_transfer_pass(&mut db, &inflow, false, true).expect("in");
    assert_eq!(db.bridge_balance(0, &addr(0x54)), "5");
}

#[test]
fn unknown_bridge_log_aborts_with_the_tx_hash() {
    let mut db = Database::new(true);
    let mut worker = Indexer::new(addr(0xbb), 1, &db);
    let bad = mk_log_at(addr(0xbb), vec![vec![0x42u8; 32]], vec![], 100, 0);
    match worker.run_pass1(&mut db, &vec![bad.clone()]) {
        Err(WorkerError::DecodeUnknown { tx_hash }) => assert_eq!(tx_hash, bad.tx_hash),
        _ => panic!("an unknown log must abort the pass"),
    }
    assert_eq!(db.bridge_events.len(), 0);
}

#[test]
fn malformed_transfer_is_fatal_unless_skipped() {
    let mut db = Database::new(true);
    let worker = Indexer::new(addr(0xbb), 1, &db);
    let mut bad = transfer_log(0x54, addr(0x00), addr(0x0a), 1, 100, 0);
    bad.topics.pop();
    match worker.run_transfer_pass(&mut db, &vec![bad.clone()], true, false) {
        Err(WorkerError::MalformedTransfer { tx_hash }) => assert_eq!(tx_hash, bad.tx_hash),
        _ => panic!("a malformed transfer must abort the mint pass"),
    }
    // the inbound bridge-flow pass skips it instead
    worker.run_transfer_pass(&mut db, &vec![bad], false, true).expect("skips");
    assert_eq!(db.bridge_transfer_events.len(), 0);
}

#[test]
fn checkpoint_is_monotonic_and_isolated_per_rollup() {
    let mut db = Database::new(true);
    db.insert_rollup(1, "zkevm-a");
    db.insert_rollup(2, "zkevm-b");
    let w1 = Indexer::new(addr(0xbb), 1, &db);
    w1.finish_window(&mut db, 100);
    assert_eq!(db.last_indexed_block(1), 100);
    assert_eq!(db.last_indexed_block(2), 0);
    w1.finish_window(&mut db, 250);
    assert_eq!(db.last_indexed_block(1), 250);
    assert_eq!(db.last_indexed_block(2), 0);
    let w2 = Indexer::new(addr(0xbb), 2, &db);
    w2.finish_window(&mut db, 40);
    assert_eq!(db.last_indexed_block(1), 250);
    assert_eq!(db.last_indexed_block(2), 40);
}

#[test]
fn sync_distance_is_head_minus_checkpoint() {
    let mut db = Database::new(true);
    db.insert_rollup(1, "zkevm-a");
    let w = Indexer::new(addr(0xbb), 1, &db);
    w.finish_window(&mut db, 100);
    assert_eq!(w.distance_head(&db, 150), 50);
    assert_eq!(w.distance_head(&db, 100), 0);
}

#[test]
fn window_planning_matches_the_policy() {
    // caught up
    assert_eq!(plan_window(100, 100, 10000), None);
    assert_eq!(plan_window(100, 50, 10000), None);
    // capped by the increment
    assert_eq!(plan_window(100, 50000, 10000), Some((101, 10101)));
    // capped by the head
    assert_eq!(plan_window(100, 150, 10000), Some((101, 150)));
    // a fresh rollup starts at block 1
    assert_eq!(plan_window(0, 9, 10000), Some((1, 9)));
}

#[test]
fn block_increment_follows_the_rollup() {
    let db = Database::new(true);
    assert_eq!(Indexer::new(addr(0xbb), 3, &db).get_block_increment(), 1000);
    assert_eq!(Indexer::new(addr(0xbb), 15, &db).get_block_increment(), 1000);
    assert_eq!(Indexer::new(addr(0xbb), 0, &db).get_block_increment(), 10000);
    assert_eq!(Indexer::new(addr(0xbb), 7, &db).get_block_increment(), 10000);
}

#[test]
fn shutdown_flips_the_running_flag() {
    let db = Database::new(true);
    let mut w = Indexer::new(addr(0xbb), 1, &db);
    assert!(w.running);
    w.shutdown();
    assert!(!w.running);
}

#[test]
fn forbidden_queries_are_rejected() {
    assert!(is_query_forbidden("DROP TABLE rollups"));
    assert!(is_query_forbidden("select 1; dElEtE from bridge_events"));
    assert!(is_query_forbidden("insert into rollups values (9)"));
    assert!(is_query_forbidden("TRUNCATE bridge_events"));
    assert!(!is_query_forbidden("SELECT * FROM rollups"));
    assert!(!is_query_forbidden(""));
    // the screen looks at substrings, as the store's caller does
    assert!(is_query_forbidden("SELECT * FROM created_things"));
}

#[test]
fn duplicate_content_id_is_inserted_once() {
    let mut db = Database::new(true);
    let mut worker = Indexer::new(addr(0xbb), 1, &db);
    let log = bridge_deposit_log(100, 0, 1000, 7);
    worker.run_pass1(&mut db, &vec![log.clone(), log]).expect("pass 1");
    assert_eq!(db.bridge_events.len(), 1);
}

#[test]
fn zero_address_is_twenty_zero_bytes() {
    assert_eq!(zero_address_bytes(), vec![0u8; 20]);
}

#[test]
fn row_filter_selects_exactly_the_matching_rows() {
    let pair = |k: &str, v: &str| (k.to_string(), v.to_string());
    let rendered = vec![
        vec![pair("rollup_id", "1"), pair("amount", "1000")],
        vec![pair("rollup_id", "2"), pair("amount", "1000")],
        vec![pair("rollup_id", "1"), pair("amount", "5")],
        vec![pair("rollup_id", "1"), pair("amount", "1000")],
    ];
    let on_rollup = vec![pair("rollup_id", "1")];
    assert_eq!(matching_rows(&rendered, &on_rollup, None), vec![0, 2, 3]);
    assert_eq!(matching_rows(&rendered, &on_rollup, Some(2)), vec![0, 2]);
    let both = vec![pair("rollup_id", "1"), pair("amount", "1000")];
    assert_eq!(matching_rows(&rendered, &both, None), vec![0, 3]);
    // an unknown column matches nothing
    let unknown = vec![pair("no_such_column", "1")];
    assert_eq!(matching_rows(&rendered, &unknown, None), Vec::<usize>::new());
    // no filters: every row, cut to the limit
    assert_eq!(matching_rows(&rendered, &Vec::new(), Some(3)), vec![0, 1, 2]);
}
