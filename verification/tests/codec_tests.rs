//! Tests for the event codec: topic constants, canonical decodings,
//! and the identifier derivation.

use daggboard::codec::{
    admin_changed_topic_bytes, bridge_event_topic_bytes, claim_v1_topic_bytes,
    claim_v2_topic_bytes, decode_bridge_log, decode_transfer, emergency_activated_topic_bytes,
    emergency_deactivated_topic_bytes, initialized_topic_bytes, new_wrapped_token_topic_bytes,
    transfer_topic_bytes, upgraded_topic_bytes, Decoded, RawLog,
};
use daggboard::utils::{dec_string_of_amount, hash_log, hex_string_of, to_topic};
use sha3::Digest;

fn keccak_hex(sig: &str) -> String {
    let d = sha3::Keccak256::digest(sig.as_bytes());
    format!("0x{}", hex::encode(d))
}

fn word_u64(v: u64) -> Vec<u8> {
    let mut w = vec![0u8; 24];
    w.extend_from_slice(&v.to_be_bytes());
    w
}

fn word_addr(a: &[u8]) -> Vec<u8> {
    assert_eq!(a.len(), 20);
    let mut w = vec![0u8; 12];
    w.extend_from_slice(a);
    w
}

fn mk_log(address: Vec<u8>, topics: Vec<Vec<u8>>, data: Vec<u8>) -> RawLog {
    RawLog {
        address,
        topics,
        data,
        tx_hash: vec![0x11u8; 32],
        block_hash: vec![0x22u8; 32],
        block_number: 100,
        tx_index: 3,
        log_index: 5,
    }
}

fn addr(b: u8) -> Vec<u8> {
    vec![b; 20]
}

#[test]
fn topic_constants_match_keccak_of_signatures() {
    assert_eq!(
        hex_string_of(&bridge_event_topic_bytes()),
        keccak_hex("BridgeEvent(uint8,uint32,address,uint32,address,uint256,bytes,uint32)")
    );
    assert_eq!(
        hex_string_of(&claim_v1_topic_bytes()),
        keccak_hex("ClaimEvent(uint32,uint32,address,address,uint256)")
    );
    assert_eq!(
        hex_string_of(&claim_v2_topic_bytes()),
        keccak_hex("ClaimEvent(uint256,uint32,address,address,uint256)")
    );
    assert_eq!(
        hex_string_of(&new_wrapped_token_topic_bytes()),
        keccak_hex("NewWrappedToken(uint32,address,address,bytes)")
    );
    assert_eq!(
        hex_string_of(&transfer_topic_bytes()),
        keccak_hex("Transfer(address,address,uint256)")
    );
    assert_eq!(
        hex_string_of(&emergency_activated_topic_bytes()),
        keccak_hex("EmergencyStateActivated()")
    );
    assert_eq!(
        hex_string_of(&emergency_deactivated_topic_bytes()),
        keccak_hex("EmergencyStateDeactivated()")
    );
    assert_eq!(hex_string_of(&upgraded_topic_bytes()), keccak_hex("Upgraded(address)"));
    assert_eq!(hex_string_of(&initialized_topic_bytes()), keccak_hex("Initialized(uint8)"));
    assert_eq!(
        hex_string_of(&admin_changed_topic_bytes()),
        keccak_hex("AdminChanged(address,address)")
    );
}

#[test]
fn content_id_matches_sha256_of_preimage() {
    let log = mk_log(addr(0xbb), vec![transfer_topic_bytes()], vec![]);
    let id = hash_log(&log, 7);
    // Independent derivation: sha-256 over "0x" + tx-hash hex, the
    // decimal log index and the decimal rollup id, colon-separated.
    let mut h = sha2::Sha256::new();
    sha2::Digest::update(&mut h, format!("0x{}", hex::encode(vec![0x11u8; 32])));
    sha2::Digest::update(&mut h, ":5:7");
    let expected = hex::encode(sha2::Digest::finalize(h));
    assert_eq!(id, expected);
}

#[test]
fn content_id_is_deterministic_and_separates_rollups() {
    let log = mk_log(addr(0xbb), vec![transfer_topic_bytes()], vec![]);
    assert_eq!(hash_log(&log, 1), hash_log(&log, 1));
    assert_ne!(hash_log(&log, 1), hash_log(&log, 2));
    let mut other = mk_log(addr(0xbb), vec![transfer_topic_bytes()], vec![]);
    other.log_index = 6;
    assert_ne!(hash_log(&log, 1), hash_log(&other, 1));
}

fn bridge_event_data(amount: u64, deposit_count: u64) -> Vec<u8> {
    let mut data = Vec::new();
    data.extend(word_u64(0)); // leafType
    data.extend(word_u64(0)); // originNetwork
    data.extend(word_addr(&addr(0xaa))); // originAddress
    data.extend(word_u64(1)); // destinationNetwork
    data.extend(word_addr(&addr(0xcc))); // destinationAddress
    data.extend(word_u64(amount)); // amount
    data.extend(word_u64(256)); // metadata offset
    data.extend(word_u64(deposit_count)); // depositCount
    data.extend(word_u64(0)); // metadata length
    data
}

#[test]
fn bridge_event_decodes_with_exact_fields() {
    let log = mk_log(addr(0xbb), vec![bridge_event_topic_bytes()], bridge_event_data(1000, 7));
    match decode_bridge_log(&log) {
        Decoded::Bridge {
            leaf_type,
            origin_network,
            origin_address,
            destination_network,
            destination_address,
            amount,
            metadata,
            deposit_count,
        } => {
            assert_eq!(leaf_type, 0);
            assert_eq!(origin_network, 0);
            assert_eq!(origin_address, addr(0xaa));
            assert_eq!(destination_network, 1);
            assert_eq!(destination_address, addr(0xcc));
            assert_eq!(dec_string_of_amount(&amount), "1000");
            assert_eq!(metadata.len(), 0);
            assert_eq!(deposit_count, 7);
        },
        _ => panic!("expected a BridgeEvent"),
    }
}

#[test]
fn bridge_event_with_metadata_tail_decodes() {
    let mut data = bridge_event_data(5, 1);
    // length 3, padded to one word
    data.truncate(256);
    data.extend(word_u64(3));
    let mut tail = vec![0xde, 0xad, 0xbe];
    tail.extend(vec![0u8; 29]);
    data.extend(tail);
    let log = mk_log(addr(0xbb), vec![bridge_event_topic_bytes()], data);
    match decode_bridge_log(&log) {
        Decoded::Bridge { metadata, .. } => {
            assert_eq!(metadata, vec![0xde, 0xad, 0xbe]);
            assert_eq!(hex_string_of(&metadata), "0xdeadbe");
        },
        _ => panic!("expected a BridgeEvent"),
    }
}

#[test]
fn legacy_claim_decodes_and_widens_index() {
    let mut data = Vec::new();
    data.extend(word_u64(42)); // index
    data.extend(word_u64(0)); // originNetwork
    data.extend(word_addr(&addr(0xaa)));
    data.extend(word_addr(&addr(0xcc)));
    data.extend(word_u64(5)); // amount
    let log = mk_log(addr(0xbb), vec![claim_v1_topic_bytes()], data);
    match decode_bridge_log(&log) {
        Decoded::ClaimV1 { index, amount, .. } => {
            assert_eq!(index, 42);
            assert_eq!(dec_string_of_amount(&amount), "5");
        },
        _ => panic!("expected a legacy ClaimEvent"),
    }
}

#[test]
fn current_claim_decodes_with_native_global_index() {
    let mut data = Vec::new();
    data.extend(word_u64(99)); // globalIndex
    data.extend(word_u64(2)); // originNetwork
    data.extend(word_addr(&addr(0xaa)));
    data.extend(word_addr(&addr(0xcc)));
    data.extend(word_u64(123456789)); // amount
    let log = mk_log(addr(0xbb), vec![claim_v2_topic_bytes()], data);
    match decode_bridge_log(&log) {
        Decoded::ClaimV2 { global_index, origin_network, amount, .. } => {
            assert_eq!(dec_string_of_amount(&global_index), "99");
            assert_eq!(origin_network, 2);
            assert_eq!(dec_string_of_amount(&amount), "123456789");
        },
        _ => panic!("expected a ClaimEvent"),
    }
}

#[test]
fn new_wrapped_token_decodes() {
    let mut data = Vec::new();
    data.extend(word_u64(0)); // originNetwork
    data.extend(word_addr(&addr(0x01))); // originTokenAddress
    data.extend(word_addr(&addr(0x02))); // wrappedTokenAddress
    data.extend(word_u64(128)); // metadata offset
    data.extend(word_u64(0)); // metadata length
    let log = mk_log(addr(0xbb), vec![new_wrapped_token_topic_bytes()], data);
    match decode_bridge_log(&log) {
        Decoded::Wrapped { origin_token_address, wrapped_token_address, .. } => {
            assert_eq!(origin_token_address, addr(0x01));
            assert_eq!(wrapped_token_address, addr(0x02));
        },
        _ => panic!("expected a NewWrappedToken"),
    }
}

#[test]
fn administrative_events_are_ignored() {
    let log = mk_log(addr(0xbb), vec![emergency_activated_topic_bytes()], vec![]);
    assert!(matches!(decode_bridge_log(&log), Decoded::Ignored));
    let log = mk_log(addr(0xbb), vec![emergency_deactivated_topic_bytes()], vec![]);
    assert!(matches!(decode_bridge_log(&log), Decoded::Ignored));
    let log = mk_log(addr(0xbb), vec![initialized_topic_bytes()], word_u64(1));
    assert!(matches!(decode_bridge_log(&log), Decoded::Ignored));
    let mut data = word_addr(&addr(0x03));
    data.extend(word_addr(&addr(0x04)));
    let log = mk_log(addr(0xbb), vec![admin_changed_topic_bytes()], data);
    assert!(matches!(decode_bridge_log(&log), Decoded::Ignored));
    let log = mk_log(
        addr(0xbb),
        vec![upgraded_topic_bytes(), word_addr(&addr(0x05))],
        vec![],
    );
    assert!(matches!(decode_bridge_log(&log), Decoded::Ignored));
}

#[test]
fn unknown_topic_is_fatal_shape() {
    let log = mk_log(addr(0xbb), vec![vec![0x42u8; 32]], vec![]);
    assert!(matches!(decode_bridge_log(&log), Decoded::Unknown));
}

#[test]
fn malformed_bridge_event_is_unknown() {
    // data one word short
    let mut data = bridge_event_data(1, 1);
    data.truncate(256);
    let log = mk_log(addr(0xbb), vec![bridge_event_topic_bytes()], data);
    assert!(matches!(decode_bridge_log(&log), Decoded::Unknown));
    // dirty padding in a uint32 word
    let mut data = bridge_event_data(1, 1);
    data[33] = 0xff;
    let log = mk_log(addr(0xbb), vec![bridge_event_topic_bytes()], data);
    assert!(matches!(decode_bridge_log(&log), Decoded::Unknown));
}

#[test]
fn transfer_decodes_from_and_to_from_topics() {
    let log = mk_log(
        addr(0x77),
        vec![transfer_topic_bytes(), word_addr(&addr(0x01)), word_addr(&addr(0x02))],
        word_u64(10),
    );
    let t = decode_transfer(&log).expect("canonical transfer");
    assert_eq!(t.from_address, addr(0x01));
    assert_eq!(t.to_address, addr(0x02));
    assert_eq!(dec_string_of_amount(&t.value), "10");
}

#[test]
fn malformed_transfer_is_rejected() {
    // only two topics
    let log = mk_log(addr(0x77), vec![transfer_topic_bytes(), word_addr(&addr(0x01))], word_u64(1));
    assert!(decode_transfer(&log).is_none());
    // wrong data length
    let log = mk_log(
        addr(0x77),
        vec![transfer_topic_bytes(), word_addr(&addr(0x01)), word_addr(&addr(0x02))],
        vec![0u8; 31],
    );
    assert!(decode_transfer(&log).is_none());
}

#[test]
fn to_topic_left_pads_addresses() {
    let t = to_topic(&addr(0xaa));
    assert_eq!(t.len(), 32);
    assert_eq!(&t[..12], &[0u8; 12]);
    assert_eq!(&t[12..], addr(0xaa).as_slice());
}

#[test]
fn amount_rendering_covers_full_256_bits() {
    let max = vec![0xffu8; 32];
    assert_eq!(
        dec_string_of_amount(&max),
        "115792089237316195423570985008687907853269984665640564039457584007913129639935"
    );
    let zero = vec![0u8; 32];
    assert_eq!(dec_string_of_amount(&zero), "0");
}

#[test]
fn content_ids_are_collision_free_across_a_corpus() {
    let mut ids = Vec::new();
    for tx_byte in [0x00u8, 0x01, 0xfe] {
        for log_index in [0u64, 1, 9, 10, 123] {
            for rollup_id in [0u32, 1, 3, 15] {
                let mut log = mk_log(addr(0xbb), vec![transfer_topic_bytes()], vec![]);
                log.tx_hash = vec![tx_byte; 32];
                log.log_index = log_index;
                ids.push(hash_log(&log, rollup_id));
            }
        }
    }
    let total = ids.len();
    ids.sort();
    ids.dedup();
    assert_eq!(ids.len(), total);
}
