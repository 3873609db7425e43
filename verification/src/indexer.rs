//! Per-rollup indexing driver.
//!
//! A worker's life is a loop over block windows: read the checkpoint,
//! plan the next window, pull the window's logs, decode and persist
//! them in pass order — bridge-contract events, wrapped-token mints
//! and burns, then bridge in/out token flows — and advance the
//! checkpoint only once every persist of the window has succeeded.
//! The outside work (fetching logs, sleeping, retrying) happens in the
//! surrounding program; everything the worker decides and stores is
//! here.

use crate::codec::{
    decode_bridge_log, decode_transfer, spec_decode, transfer_fields, transfer_shape, Decoded,
    DecodedView, RawLog,
};
use crate::database::{
    addr_listed, has_bridge_id, has_claim_id, has_rollup, has_transfer_id, has_wrapped_token_id,
    spec_last_indexed, token_from_table, BridgeEventRow, ClaimEventRow, Database, TransferRow,
    WrappedTokenRow,
};
use crate::text::{be32_of_u32, be_nat, clone_bytes};
use crate::utils::{ascii_chars, content_id_chars, hash_log, hex0x, hex_string_of};
use vstd::prelude::*;
use vstd::seq_lib::*;

verus! {

/// Block-window size a rollup's RPC endpoint tolerates. Two rollups are
/// known to impose a 1,000-block cap; everything else accepts 10,000.
pub open spec fn spec_block_increment(rollup_id: u32) -> u64 {
    if rollup_id == 3 {
        1000
    } else if rollup_id == 15 {
        1000
    } else {
        10000
    }
}

/// The bounds of the next window to scan, given the last synced block
/// and the chain head: `None` when the worker has caught up, otherwise
/// the inclusive range starting right after `last` and capped both by
/// the window size and by the head.
pub open spec fn spec_plan_window(last: u64, head: u64, increment: u64) -> Option<(u64, u64)> {
    if last >= head {
        None
    } else if last + 1 + increment <= head {
        Some(((last + 1) as u64, (last + 1 + increment) as u64))
    } else {
        Some(((last + 1) as u64, head))
    }
}

pub fn plan_window(last: u64, head: u64, increment: u64) -> (r: Option<(u64, u64)>)
    ensures
        r == spec_plan_window(last, head, increment),
        r is Some ==> last < r->Some_0.0 <= r->Some_0.1 <= head,
{
    if last >= head {
        None
    } else {
        let start: u64 = last + 1;
        let end: u64 = if head - start >= increment {
            start + increment
        } else {
            head
        };
        Some((start, end))
    }
}

/// Why a worker aborts a window.
#[derive(Debug)]
pub enum WorkerError {
    /// A bridge-contract log matched no known event: schema drift that
    /// an operator must look at.
    DecodeUnknown { tx_hash: Vec<u8> },
    /// A token-transfer log without the canonical `Transfer` shape, in
    /// a pass where that is fatal.
    MalformedTransfer { tx_hash: Vec<u8> },
}

/// The content id a log gets under a rollup.
pub open spec fn log_id(l: RawLog, rid: u32) -> Seq<char> {
    content_id_chars(l.tx_hash@, l.log_index, rid)
}

/// Every log of a batch is well-shaped in the JSON-RPC sense.
pub open spec fn logs_wf(logs: Seq<RawLog>) -> bool {
    forall|k: int| 0 <= k < logs.len() ==> (#[trigger] logs[k]).wf()
}

// ---------------------------------------------------------------------
// What a persisted row holds, given the log it came from.
/// The position fields every event row copies from its log.
pub open spec fn row_position_matches(
    id: Seq<char>,
    row_rid: u32,
    tx_hash: Seq<char>,
    block_hash: Seq<char>,
    block_number: u64,
    tx_index: u64,
    log_index: u64,
    log: RawLog,
    rid: u32,
) -> bool {
    &&& id == log_id(log, rid)
    &&& row_rid == rid
    &&& tx_hash == ascii_chars(hex0x(log.tx_hash@))
    &&& block_hash == ascii_chars(hex0x(log.block_hash@))
    &&& block_number == log.block_number
    &&& tx_index == log.tx_index
    &&& log_index == log.log_index
}

pub open spec fn bridge_row_matches(r: BridgeEventRow, log: RawLog, rid: u32) -> bool {
    &&& row_position_matches(
        r.id@,
        r.rollup_id,
        r.tx_hash@,
        r.block_hash@,
        r.block_number,
        r.tx_index,
        r.log_index,
        log,
        rid,
    )
    &&& (spec_decode(log.topics_view(), log.data@) matches DecodedView::Bridge {
        leaf_type,
        origin_network,
        origin_address,
        destination_network,
        destination_address,
        amount,
        metadata,
        deposit_count,
    } && {
        &&& r.leaf_type == leaf_type
        &&& r.origin_network == origin_network
        &&& r.origin_address@ == origin_address
        &&& r.destination_network == destination_network
        &&& r.destination_address@ == destination_address
        &&& r.amount@ == amount
        &&& r.metadata@ == ascii_chars(hex0x(metadata))
        &&& r.deposit_count == deposit_count
    })
}

pub open spec fn claim_row_matches(r: ClaimEventRow, log: RawLog, rid: u32) -> bool {
    &&& row_position_matches(
        r.id@,
        r.rollup_id,
        r.tx_hash@,
        r.block_hash@,
        r.block_number,
        r.tx_index,
        r.log_index,
        log,
        rid,
    )
    &&& match spec_decode(log.topics_view(), log.data@) {
        DecodedView::ClaimV1 {
            index,
            origin_network,
            origin_address,
            destination_address,
            amount,
        } => {
            &&& r.version == 1
            &&& r.global_index@.len() == 32
            &&& be_nat(r.global_index@) == index as nat
            &&& r.origin_network == origin_network
            &&& r.origin_address@ == origin_address
            &&& r.destination_address@ == destination_address
            &&& r.amount@ == amount
        },
        DecodedView::ClaimV2 {
            global_index,
            origin_network,
            origin_address,
            destination_address,
            amount,
        } => {
            &&& r.version == 2
            &&& r.global_index@ == global_index
            &&& r.origin_network == origin_network
            &&& r.origin_address@ == origin_address
            &&& r.destination_address@ == destination_address
            &&& r.amount@ == amount
        },
        _ => false,
    }
}

pub open spec fn wrapped_row_matches(r: WrappedTokenRow, log: RawLog, rid: u32) -> bool {
    &&& row_position_matches(
        r.id@,
        r.rollup_id,
        r.tx_hash@,
        r.block_hash@,
        r.block_number,
        r.tx_index,
        r.log_index,
        log,
        rid,
    )
    &&& (spec_decode(log.topics_view(), log.data@) matches DecodedView::Wrapped {
        origin_network,
        origin_token_address,
        wrapped_token_address,
        metadata,
    } && {
        &&& r.origin_network == origin_network
        &&& r.origin_token_address@ == origin_token_address
        &&& r.wrapped_token_address@ == wrapped_token_address
        &&& r.metadata@ == ascii_chars(hex0x(metadata))
    })
}

pub open spec fn transfer_row_matches(r: TransferRow, log: RawLog, rid: u32) -> bool {
    &&& row_position_matches(
        r.id@,
        r.rollup_id,
        r.tx_hash@,
        r.block_hash@,
        r.block_number,
        r.tx_index,
        r.log_index,
        log,
        rid,
    )
    &&& transfer_shape(log.topics_view(), log.data@)
    &&& r.from_address@ == transfer_fields(log.topics_view(), log.data@).from_address
    &&& r.to_address@ == transfer_fields(log.topics_view(), log.data@).to_address
    &&& r.token_address@ == log.address@
    &&& r.value@ == transfer_fields(log.topics_view(), log.data@).value
}

/// A sequence is a prefix of itself.
pub proof fn lemma_is_prefix_refl<A>(a: Seq<A>)
    ensures
        a.is_prefix_of(a),
{
    assert(a =~= a.subrange(0, a.len() as int));
}

/// A sequence is a prefix of itself extended by one element.
pub proof fn lemma_is_prefix_push<A>(a: Seq<A>, x: A)
    ensures
        a.is_prefix_of(a.push(x)),
{
    assert(a =~= a.push(x).subrange(0, a.len() as int));
}

/// Prefixes compose.
pub proof fn lemma_is_prefix_transitive<A>(a: Seq<A>, b: Seq<A>, c: Seq<A>)
    requires
        a.is_prefix_of(b),
        b.is_prefix_of(c),
    ensures
        a.is_prefix_of(c),
{
    assert(a =~= c.subrange(0, a.len() as int));
}

// ---------------------------------------------------------------------
// Persisting one log.
/// Decode one bridge-contract log and store it: a deposit, claim or
/// wrapped-token creation lands in its table under its content id; a
/// wrapped-token creation also joins the in-memory token set; an
/// administrative event is discarded; an unknown log aborts with the
/// offending transaction hash and stores nothing.
pub fn persist_bridge_log(
    db: &mut Database,
    log: &RawLog,
    rollup_id: u32,
    wrapped_tokens: &mut Vec<Vec<u8>>,
) -> (r: Result<(), WorkerError>)
    requires
        log.wf(),
        old(db).wf(),
    ensures
        final(db).wf(),
        final(db).in_memory == old(db).in_memory,
        final(db).rollups == old(db).rollups,
        final(db).wrapped_transfer_events == old(db).wrapped_transfer_events,
        final(db).bridge_transfer_events == old(db).bridge_transfer_events,
        old(db).bridge_events@.is_prefix_of(final(db).bridge_events@),
        old(db).claim_events@.is_prefix_of(final(db).claim_events@),
        old(db).new_wrapped_token_events@.is_prefix_of(final(db).new_wrapped_token_events@),
        (r is Err) <==> (spec_decode(log.topics_view(), log.data@) is Unknown),
        r matches Err(e) ==> (e matches WorkerError::DecodeUnknown { tx_hash } && tx_hash@
            == log.tx_hash@),
        match spec_decode(log.topics_view(), log.data@) {
            DecodedView::Bridge { .. } => {
                &&& *final(wrapped_tokens) == *old(wrapped_tokens)
                &&& final(db).claim_events == old(db).claim_events
                &&& final(db).new_wrapped_token_events == old(db).new_wrapped_token_events
                &&& has_bridge_id(old(db).bridge_events@, log_id(*log, rollup_id)) ==> *final(db)
                    == *old(db)
                &&& !has_bridge_id(old(db).bridge_events@, log_id(*log, rollup_id)) ==> (final(db).bridge_events@ == old(db).bridge_events@.push(final(db).bridge_events@.last())
                    && bridge_row_matches(final(db).bridge_events@.last(), *log, rollup_id))
                &&& has_bridge_id(final(db).bridge_events@, log_id(*log, rollup_id))
            },
            DecodedView::ClaimV1 { .. } => {
                &&& *final(wrapped_tokens) == *old(wrapped_tokens)
                &&& final(db).bridge_events == old(db).bridge_events
                &&& final(db).new_wrapped_token_events == old(db).new_wrapped_token_events
                &&& has_claim_id(old(db).claim_events@, log_id(*log, rollup_id)) ==> *final(db)
                    == *old(db)
                &&& !has_claim_id(old(db).claim_events@, log_id(*log, rollup_id)) ==> (final(db).claim_events@ == old(db).claim_events@.push(final(db).claim_events@.last())
                    && claim_row_matches(final(db).claim_events@.last(), *log, rollup_id))
                &&& has_claim_id(final(db).claim_events@, log_id(*log, rollup_id))
            },
            DecodedView::ClaimV2 { .. } => {
                &&& *final(wrapped_tokens) == *old(wrapped_tokens)
                &&& final(db).bridge_events == old(db).bridge_events
                &&& final(db).new_wrapped_token_events == old(db).new_wrapped_token_events
                &&& has_claim_id(old(db).claim_events@, log_id(*log, rollup_id)) ==> *final(db)
                    == *old(db)
                &&& !has_claim_id(old(db).claim_events@, log_id(*log, rollup_id)) ==> (final(db).claim_events@ == old(db).claim_events@.push(final(db).claim_events@.last())
                    && claim_row_matches(final(db).claim_events@.last(), *log, rollup_id))
                &&& has_claim_id(final(db).claim_events@, log_id(*log, rollup_id))
            },
            DecodedView::Wrapped { .. } => {
                &&& final(db).bridge_events == old(db).bridge_events
                &&& final(db).claim_events == old(db).claim_events
                &&& has_wrapped_token_id(
                    old(db).new_wrapped_token_events@,
                    log_id(*log, rollup_id),
                ) ==> *final(db) == *old(db)
                &&& !has_wrapped_token_id(
                    old(db).new_wrapped_token_events@,
                    log_id(*log, rollup_id),
                ) ==> (final(db).new_wrapped_token_events@ == old(db).new_wrapped_token_events@.push(final(db).new_wrapped_token_events@.last())
                    && wrapped_row_matches(
                    final(db).new_wrapped_token_events@.last(),
                    *log,
                    rollup_id,
                ))
                &&& has_wrapped_token_id(
                    final(db).new_wrapped_token_events@,
                    log_id(*log, rollup_id),
                )
                &&& (spec_decode(log.topics_view(), log.data@) matches DecodedView::Wrapped {
                    wrapped_token_address,
                    ..
                } && final(wrapped_tokens)@ == old(wrapped_tokens)@.push(
                    final(wrapped_tokens)@.last(),
                ) && final(wrapped_tokens)@.last()@ == wrapped_token_address)
            },
            DecodedView::Ignored => {
                &&& *final(db) == *old(db)
                &&& *final(wrapped_tokens) == *old(wrapped_tokens)
            },
            DecodedView::Unknown => {
                &&& *final(db) == *old(db)
                &&& *final(wrapped_tokens) == *old(wrapped_tokens)
            },
        },
{
    let id = hash_log(log, rollup_id);
    let dec = decode_bridge_log(log);
    match dec {
        Decoded::Bridge {
            leaf_type,
            origin_network,
            origin_address,
            destination_network,
            destination_address,
            amount,
            metadata,
            deposit_count,
        } => {
            let row = BridgeEventRow {
                id,
                rollup_id,
                tx_hash: hex_string_of(&log.tx_hash),
                block_hash: hex_string_of(&log.block_hash),
                block_number: log.block_number,
                tx_index: log.tx_index,
                log_index: log.log_index,
                leaf_type,
                origin_network,
                origin_address,
                destination_network,
                destination_address,
                amount,
                metadata: hex_string_of(&metadata),
                deposit_count,
            };
            proof {
                assert(bridge_row_matches(row, *log, rollup_id));
            }
            db.insert_bridge_event(row);
            proof {
                let idc = log_id(*log, rollup_id);
                if !has_bridge_id(old(db).bridge_events@, idc) {
                    assert(db.bridge_events@.last().id@ == idc);
                    assert(has_bridge_id(db.bridge_events@, idc));
                    lemma_is_prefix_push(old(db).bridge_events@, db.bridge_events@.last());
                } else {
                    lemma_is_prefix_refl(old(db).bridge_events@);
                }
                lemma_is_prefix_refl(old(db).claim_events@);
                lemma_is_prefix_refl(old(db).new_wrapped_token_events@);
            }
            Ok(())
        },
        Decoded::ClaimV1 { index, origin_network, origin_address, destination_address, amount } => {
            let row = ClaimEventRow {
                id,
                rollup_id,
                tx_hash: hex_string_of(&log.tx_hash),
                block_hash: hex_string_of(&log.block_hash),
                block_number: log.block_number,
                tx_index: log.tx_index,
                log_index: log.log_index,
                version: 1,
                global_index: be32_of_u32(index),
                origin_network,
                origin_address,
                destination_address,
                amount,
            };
            proof {
                assert(claim_row_matches(row, *log, rollup_id));
            }
            db.insert_claim_event(row);
            proof {
                let idc = log_id(*log, rollup_id);
                if !has_claim_id(old(db).claim_events@, idc) {
                    assert(db.claim_events@.last().id@ == idc);
                    assert(has_claim_id(db.claim_events@, idc));
                    lemma_is_prefix_push(old(db).claim_events@, db.claim_events@.last());
                } else {
                    lemma_is_prefix_refl(old(db).claim_events@);
                }
                lemma_is_prefix_refl(old(db).bridge_events@);
                lemma_is_prefix_refl(old(db).new_wrapped_token_events@);
            }
            Ok(())
        },
        Decoded::ClaimV2 {
            global_index,
            origin_network,
            origin_address,
            destination_address,
            amount,
        } => {
            let row = ClaimEventRow {
                id,
                rollup_id,
                tx_hash: hex_string_of(&log.tx_hash),
                block_hash: hex_string_of(&log.block_hash),
                block_number: log.block_number,
                tx_index: log.tx_index,
                log_index: log.log_index,
                version: 2,
                global_index,
                origin_network,
                origin_address,
                destination_address,
                amount,
            };
            proof {
                assert(claim_row_matches(row, *log, rollup_id));
            }
            db.insert_claim_event(row);
            proof {
                let idc = log_id(*log, rollup_id);
                if !has_claim_id(old(db).claim_events@, idc) {
                    assert(db.claim_events@.last().id@ == idc);
                    assert(has_claim_id(db.claim_events@, idc));
                    lemma_is_prefix_push(old(db).claim_events@, db.claim_events@.last());
                } else {
                    lemma_is_prefix_refl(old(db).claim_events@);
                }
                lemma_is_prefix_refl(old(db).bridge_events@);
                lemma_is_prefix_refl(old(db).new_wrapped_token_events@);
            }
            Ok(())
        },
        Decoded::Wrapped { origin_network, origin_token_address, wrapped_token_address, metadata } => {
            let token_copy = clone_bytes(&wrapped_token_address);
            let row = WrappedTokenRow {
                id,
                rollup_id,
                tx_hash: hex_string_of(&log.tx_hash),
                block_hash: hex_string_of(&log.block_hash),
                block_number: log.block_number,
                tx_index: log.tx_index,
                log_index: log.log_index,
                origin_network,
                origin_token_address,
                wrapped_token_address,
                metadata: hex_string_of(&metadata),
            };
            proof {
                assert(wrapped_row_matches(row, *log, rollup_id));
            }
            db.insert_new_wrapped_token_event(row);
            wrapped_tokens.push(token_copy);
            proof {
                let idc = log_id(*log, rollup_id);
                if !has_wrapped_token_id(old(db).new_wrapped_token_events@, idc) {
                    assert(db.new_wrapped_token_events@.last().id@ == idc);
                    assert(has_wrapped_token_id(db.new_wrapped_token_events@, idc));
                    lemma_is_prefix_push(
                        old(db).new_wrapped_token_events@,
                        db.new_wrapped_token_events@.last(),
                    );
                } else {
                    lemma_is_prefix_refl(old(db).new_wrapped_token_events@);
                }
                lemma_is_prefix_refl(old(db).bridge_events@);
                lemma_is_prefix_refl(old(db).claim_events@);
            }
            Ok(())
        },
        Decoded::Ignored => {
            proof {
                lemma_is_prefix_refl(db.bridge_events@);
                lemma_is_prefix_refl(db.claim_events@);
                lemma_is_prefix_refl(db.new_wrapped_token_events@);
            }
            Ok(())
        },
        Decoded::Unknown => {
            proof {
                lemma_is_prefix_refl(db.bridge_events@);
                lemma_is_prefix_refl(db.claim_events@);
                lemma_is_prefix_refl(db.new_wrapped_token_events@);
            }
            Err(WorkerError::DecodeUnknown { tx_hash: clone_bytes(&log.tx_hash) })
        },
    }
}

/// Decode one ERC-20 `Transfer` log and store it in the chosen
/// transfer table; `None` from the decoder is reported, and the caller
/// decides whether that is fatal for its pass.
pub fn persist_transfer_log(
    db: &mut Database,
    log: &RawLog,
    rollup_id: u32,
    into_wrapped: bool,
) -> (r: Result<(), WorkerError>)
    requires
        log.wf(),
        old(db).wf(),
    ensures
        final(db).wf(),
        final(db).in_memory == old(db).in_memory,
        final(db).rollups == old(db).rollups,
        final(db).bridge_events == old(db).bridge_events,
        final(db).claim_events == old(db).claim_events,
        final(db).new_wrapped_token_events == old(db).new_wrapped_token_events,
        old(db).wrapped_transfer_events@.is_prefix_of(final(db).wrapped_transfer_events@),
        old(db).bridge_transfer_events@.is_prefix_of(final(db).bridge_transfer_events@),
        (r is Err) <==> !transfer_shape(log.topics_view(), log.data@),
        r matches Err(e) ==> (e matches WorkerError::MalformedTransfer { tx_hash } && tx_hash@
            == log.tx_hash@ && *final(db) == *old(db)),
        transfer_shape(log.topics_view(), log.data@) && into_wrapped ==> {
            &&& final(db).bridge_transfer_events == old(db).bridge_transfer_events
            &&& has_transfer_id(old(db).wrapped_transfer_events@, log_id(*log, rollup_id))
                ==> *final(db) == *old(db)
            &&& !has_transfer_id(old(db).wrapped_transfer_events@, log_id(*log, rollup_id)) ==> (
            final(db).wrapped_transfer_events@ == old(db).wrapped_transfer_events@.push(
                final(db).wrapped_transfer_events@.last(),
            ) && transfer_row_matches(
                final(db).wrapped_transfer_events@.last(),
                *log,
                rollup_id,
            ))
            &&& has_transfer_id(final(db).wrapped_transfer_events@, log_id(*log, rollup_id))
        },
        transfer_shape(log.topics_view(), log.data@) && !into_wrapped ==> {
            &&& final(db).wrapped_transfer_events == old(db).wrapped_transfer_events
            &&& has_transfer_id(old(db).bridge_transfer_events@, log_id(*log, rollup_id))
                ==> *final(db) == *old(db)
            &&& !has_transfer_id(old(db).bridge_transfer_events@, log_id(*log, rollup_id)) ==> (
            final(db).bridge_transfer_events@ == old(db).bridge_transfer_events@.push(
                final(db).bridge_transfer_events@.last(),
            ) && transfer_row_matches(final(db).bridge_transfer_events@.last(), *log, rollup_id))
            &&& has_transfer_id(final(db).bridge_transfer_events@, log_id(*log, rollup_id))
        },
{
    let id = hash_log(log, rollup_id);
    match decode_transfer(log) {
        Option::Some(t) => {
            let row = TransferRow {
                id,
                rollup_id,
                tx_hash: hex_string_of(&log.tx_hash),
                block_hash: hex_string_of(&log.block_hash),
                block_number: log.block_number,
                tx_index: log.tx_index,
                log_index: log.log_index,
                from_address: t.from_address,
                to_address: t.to_address,
                token_address: clone_bytes(&log.address),
                value: t.value,
            };
            proof {
                assert(transfer_row_matches(row, *log, rollup_id));
            }
            if into_wrapped {
                db.insert_wrapped_transfer_event(row);
                proof {
                    let idc = log_id(*log, rollup_id);
                    if !has_transfer_id(old(db).wrapped_transfer_events@, idc) {
                        assert(db.wrapped_transfer_events@.last().id@ == idc);
                        assert(has_transfer_id(db.wrapped_transfer_events@, idc));
                        lemma_is_prefix_push(
                            old(db).wrapped_transfer_events@,
                            db.wrapped_transfer_events@.last(),
                        );
                    } else {
                        lemma_is_prefix_refl(old(db).wrapped_transfer_events@);
                    }
                    lemma_is_prefix_refl(old(db).bridge_transfer_events@);
                }
            } else {
                db.insert_bridge_transfer_event(row);
                proof {
                    let idc = log_id(*log, rollup_id);
                    if !has_transfer_id(old(db).bridge_transfer_events@, idc) {
                        assert(db.bridge_transfer_events@.last().id@ == idc);
                        assert(has_transfer_id(db.bridge_transfer_events@, idc));
                        lemma_is_prefix_push(
                            old(db).bridge_transfer_events@,
                            db.bridge_transfer_events@.last(),
                        );
                    } else {
                        lemma_is_prefix_refl(old(db).bridge_transfer_events@);
                    }
                    lemma_is_prefix_refl(old(db).wrapped_transfer_events@);
                }
            }
            Ok(())
        },
        Option::None => {
            proof {
                lemma_is_prefix_refl(db.wrapped_transfer_events@);
                lemma_is_prefix_refl(db.bridge_transfer_events@);
            }
            Err(WorkerError::MalformedTransfer { tx_hash: clone_bytes(&log.tx_hash) })
        },
    }
}


// ---------------------------------------------------------------------
// Batches: one pass over one window's logs.
/// No log of the batch is of an unknown shape.
pub open spec fn bridge_batch_ok(logs: Seq<RawLog>) -> bool {
    forall|k: int|
        0 <= k < logs.len() ==> !((#[trigger] spec_decode(
            logs[k].topics_view(),
            logs[k].data@,
        )) is Unknown)
}

/// The store already holds this log's row, in the table its decoded
/// kind selects; logs that decode to nothing are absorbed trivially.
pub open spec fn log_absorbed(db: Database, l: RawLog, rid: u32) -> bool {
    match spec_decode(l.topics_view(), l.data@) {
        DecodedView::Bridge { .. } => has_bridge_id(db.bridge_events@, log_id(l, rid)),
        DecodedView::ClaimV1 { .. } => has_claim_id(db.claim_events@, log_id(l, rid)),
        DecodedView::ClaimV2 { .. } => has_claim_id(db.claim_events@, log_id(l, rid)),
        DecodedView::Wrapped { .. } => has_wrapped_token_id(
            db.new_wrapped_token_events@,
            log_id(l, rid),
        ),
        DecodedView::Ignored => true,
        DecodedView::Unknown => true,
    }
}

/// The store already holds every row of the batch.
pub open spec fn bridge_batch_absorbed(db: Database, logs: Seq<RawLog>, rid: u32) -> bool {
    forall|k: int| 0 <= k < logs.len() ==> #[trigger] log_absorbed(db, logs[k], rid)
}

/// Every log of the batch has the canonical `Transfer` shape.
pub open spec fn transfer_batch_ok(logs: Seq<RawLog>) -> bool {
    forall|k: int|
        0 <= k < logs.len() ==> #[trigger] transfer_shape(logs[k].topics_view(), logs[k].data@)
}

/// A transfer table already holds this log's row, if the log is
/// well-shaped at all.
pub open spec fn transfer_log_absorbed(rows: Seq<TransferRow>, l: RawLog, rid: u32) -> bool {
    transfer_shape(l.topics_view(), l.data@) ==> has_transfer_id(rows, log_id(l, rid))
}

/// A transfer table already holds every well-shaped row of the batch.
pub open spec fn transfer_batch_absorbed(rows: Seq<TransferRow>, logs: Seq<RawLog>, rid: u32) -> bool {
    forall|k: int| 0 <= k < logs.len() ==> #[trigger] transfer_log_absorbed(rows, logs[k], rid)
}

/// The live wrapped-token set covers a log: if the log decodes to a
/// wrapped-token creation, the created token's address is in the set.
pub open spec fn wrapped_tokens_cover(tokens: Seq<Vec<u8>>, l: RawLog) -> bool {
    spec_decode(l.topics_view(), l.data@) matches DecodedView::Wrapped {
        wrapped_token_address,
        ..
    } ==> addr_listed(tokens, wrapped_token_address)
}

/// Every row beyond `base` came from some log of the batch.
pub open spec fn bridge_rows_from_batch(
    rows: Seq<BridgeEventRow>,
    base: int,
    logs: Seq<RawLog>,
    rid: u32,
) -> bool {
    forall|j: int|
        base <= j < rows.len() ==> exists|k: int|
            0 <= k < logs.len() && bridge_row_matches(#[trigger] rows[j], logs[k], rid)
}

pub open spec fn claim_rows_from_batch(
    rows: Seq<ClaimEventRow>,
    base: int,
    logs: Seq<RawLog>,
    rid: u32,
) -> bool {
    forall|j: int|
        base <= j < rows.len() ==> exists|k: int|
            0 <= k < logs.len() && claim_row_matches(#[trigger] rows[j], logs[k], rid)
}

pub open spec fn wrapped_rows_from_batch(
    rows: Seq<WrappedTokenRow>,
    base: int,
    logs: Seq<RawLog>,
    rid: u32,
) -> bool {
    forall|j: int|
        base <= j < rows.len() ==> exists|k: int|
            0 <= k < logs.len() && wrapped_row_matches(#[trigger] rows[j], logs[k], rid)
}

pub open spec fn transfer_rows_from_batch(
    rows: Seq<TransferRow>,
    base: int,
    logs: Seq<RawLog>,
    rid: u32,
) -> bool {
    forall|j: int|
        base <= j < rows.len() ==> exists|k: int|
            0 <= k < logs.len() && transfer_row_matches(#[trigger] rows[j], logs[k], rid)
}

proof fn lemma_prefix_keeps_addr_listed(a: Seq<Vec<u8>>, b: Seq<Vec<u8>>, x: Seq<u8>)
    requires
        a.is_prefix_of(b),
        addr_listed(a, x),
    ensures
        addr_listed(b, x),
{
    let j = choose|j: int| 0 <= j < a.len() && a[j]@ == x;
    assert(b[j] == a[j]);
}

proof fn lemma_prefix_keeps_bridge_id(a: Seq<BridgeEventRow>, b: Seq<BridgeEventRow>, id: Seq<char>)
    requires
        a.is_prefix_of(b),
        has_bridge_id(a, id),
    ensures
        has_bridge_id(b, id),
{
    let j = choose|j: int| 0 <= j < a.len() && a[j].id@ == id;
    assert(b[j] == a[j]);
}

proof fn lemma_prefix_keeps_claim_id(a: Seq<ClaimEventRow>, b: Seq<ClaimEventRow>, id: Seq<char>)
    requires
        a.is_prefix_of(b),
        has_claim_id(a, id),
    ensures
        has_claim_id(b, id),
{
    let j = choose|j: int| 0 <= j < a.len() && a[j].id@ == id;
    assert(b[j] == a[j]);
}

proof fn lemma_prefix_keeps_wrapped_token_id(
    a: Seq<WrappedTokenRow>,
    b: Seq<WrappedTokenRow>,
    id: Seq<char>,
)
    requires
        a.is_prefix_of(b),
        has_wrapped_token_id(a, id),
    ensures
        has_wrapped_token_id(b, id),
{
    let j = choose|j: int| 0 <= j < a.len() && a[j].id@ == id;
    assert(b[j] == a[j]);
}

proof fn lemma_prefix_keeps_transfer_id(a: Seq<TransferRow>, b: Seq<TransferRow>, id: Seq<char>)
    requires
        a.is_prefix_of(b),
        has_transfer_id(a, id),
    ensures
        has_transfer_id(b, id),
{
    let j = choose|j: int| 0 <= j < a.len() && a[j].id@ == id;
    assert(b[j] == a[j]);
}

/// A log absorbed by a store stays absorbed when the store only grows.
proof fn lemma_log_absorbed_monotone(a: Database, b: Database, l: RawLog, rid: u32)
    requires
        a.bridge_events@.is_prefix_of(b.bridge_events@),
        a.claim_events@.is_prefix_of(b.claim_events@),
        a.new_wrapped_token_events@.is_prefix_of(b.new_wrapped_token_events@),
        log_absorbed(a, l, rid),
    ensures
        log_absorbed(b, l, rid),
{
    match spec_decode(l.topics_view(), l.data@) {
        DecodedView::Bridge { .. } => {
            lemma_prefix_keeps_bridge_id(a.bridge_events@, b.bridge_events@, log_id(l, rid));
        },
        DecodedView::ClaimV1 { .. } => {
            lemma_prefix_keeps_claim_id(a.claim_events@, b.claim_events@, log_id(l, rid));
        },
        DecodedView::ClaimV2 { .. } => {
            lemma_prefix_keeps_claim_id(a.claim_events@, b.claim_events@, log_id(l, rid));
        },
        DecodedView::Wrapped { .. } => {
            lemma_prefix_keeps_wrapped_token_id(
                a.new_wrapped_token_events@,
                b.new_wrapped_token_events@,
                log_id(l, rid),
            );
        },
        _ => {},
    }
}

// ---------------------------------------------------------------------
// The driver.
/// The per-rollup driver state: which rollup and bridge contract it
/// scans, the live wrapped-token set, and the cancellation flag that
/// the supervisor flips on shutdown.
pub struct Indexer {
    pub rollup_id: u32,
    pub bridge_address: Vec<u8>,
    pub wrapped_tokens: Vec<Vec<u8>>,
    pub running: bool,
}

impl Indexer {
    /// Start a driver for one rollup, rebuilding the live wrapped-token
    /// set from the store's `new_wrapped_token_events`.
    pub fn new(bridge_address: Vec<u8>, rollup_id: u32, database: &Database) -> (r: Indexer)
        ensures
            r.rollup_id == rollup_id,
            r.bridge_address == bridge_address,
            r.running == true,
            forall|i: int|
                0 <= i < r.wrapped_tokens@.len() ==> token_from_table(
                    database.new_wrapped_token_events@,
                    rollup_id,
                    (#[trigger] r.wrapped_tokens@[i])@,
                ),
            forall|j: int|
                0 <= j < database.new_wrapped_token_events@.len() && (
                #[trigger] database.new_wrapped_token_events@[j]).rollup_id == rollup_id
                    ==> addr_listed(
                    r.wrapped_tokens@,
                    database.new_wrapped_token_events@[j].wrapped_token_address@,
                ),
            forall|i: int, k: int|
                0 <= i < k < r.wrapped_tokens@.len() ==> r.wrapped_tokens@[i]@
                    != r.wrapped_tokens@[k]@,
    {
        let wrapped_tokens = database.fetch_wrapped_tokens(rollup_id);
        Indexer { rollup_id, bridge_address, wrapped_tokens, running: true }
    }

    /// The per-rollup window size.
    pub fn get_block_increment(&self) -> (r: u64)
        ensures
            r == spec_block_increment(self.rollup_id),
    {
        match self.rollup_id {
            3 => 1000,
            15 => 1000,
            _ => 10000,
        }
    }

    /// How far behind the chain head this rollup's checkpoint is.
    pub fn distance_head(&self, database: &Database, head: u64) -> (r: u64)
        requires
            database.wf(),
            spec_last_indexed(database.rollups@, self.rollup_id) <= head,
        ensures
            r == head - spec_last_indexed(database.rollups@, self.rollup_id),
    {
        let last = database.last_indexed_block(self.rollup_id);
        head - last
    }

    /// Ask the driver to stop at the next window boundary.
    pub fn shutdown(&mut self)
        ensures
            final(self).running == false,
            final(self).rollup_id == old(self).rollup_id,
            final(self).bridge_address == old(self).bridge_address,
            final(self).wrapped_tokens == old(self).wrapped_tokens,
    {
        self.running = false;
    }

    /// First pass of a window: decode and persist every bridge-contract
    /// log, growing the live wrapped-token set as wrapped tokens are
    /// created. An unknown log aborts the pass; what was already
    /// persisted stays. Replaying a batch whose rows the store already
    /// holds changes nothing.
    pub fn run_pass1(&mut self, db: &mut Database, logs: &Vec<RawLog>) -> (r: Result<
        (),
        WorkerError,
    >)
        requires
            old(db).wf(),
            logs_wf(logs@),
        ensures
            final(db).wf(),
            final(db).in_memory == old(db).in_memory,
            final(db).rollups == old(db).rollups,
            final(db).wrapped_transfer_events == old(db).wrapped_transfer_events,
            final(db).bridge_transfer_events == old(db).bridge_transfer_events,
            old(db).bridge_events@.is_prefix_of(final(db).bridge_events@),
            old(db).claim_events@.is_prefix_of(final(db).claim_events@),
            old(db).new_wrapped_token_events@.is_prefix_of(final(db).new_wrapped_token_events@),
            final(self).rollup_id == old(self).rollup_id,
            final(self).bridge_address == old(self).bridge_address,
            final(self).running == old(self).running,
            old(self).wrapped_tokens@.is_prefix_of(final(self).wrapped_tokens@),
            r is Ok ==> forall|k: int|
                0 <= k < logs@.len() ==> #[trigger] wrapped_tokens_cover(
                    final(self).wrapped_tokens@,
                    logs@[k],
                ),
            (r is Ok) <==> bridge_batch_ok(logs@),
            r matches Err(e) ==> (e matches WorkerError::DecodeUnknown { tx_hash } && exists|
                k: int,
            |
                0 <= k < logs@.len() && (#[trigger] spec_decode(
                    logs@[k].topics_view(),
                    logs@[k].data@,
                )) is Unknown && tx_hash@ == logs@[k].tx_hash@),
            r is Ok ==> bridge_batch_absorbed(*final(db), logs@, old(self).rollup_id),
            bridge_batch_absorbed(*old(db), logs@, old(self).rollup_id) ==> *final(db) == *old(db),
            bridge_rows_from_batch(
                final(db).bridge_events@,
                old(db).bridge_events@.len() as int,
                logs@,
                old(self).rollup_id,
            ),
            claim_rows_from_batch(
                final(db).claim_events@,
                old(db).claim_events@.len() as int,
                logs@,
                old(self).rollup_id,
            ),
            wrapped_rows_from_batch(
                final(db).new_wrapped_token_events@,
                old(db).new_wrapped_token_events@.len() as int,
                logs@,
                old(self).rollup_id,
            ),
    {
        let rid = self.rollup_id;
        let mut i: usize = 0;
        while i < logs.len()
            invariant
                i <= logs@.len(),
                logs_wf(logs@),
                rid == old(self).rollup_id,
                self.rollup_id == old(self).rollup_id,
                self.bridge_address == old(self).bridge_address,
                self.running == old(self).running,
                old(self).wrapped_tokens@.is_prefix_of(self.wrapped_tokens@),
                forall|k: int|
                    0 <= k < i ==> #[trigger] wrapped_tokens_cover(
                        self.wrapped_tokens@,
                        logs@[k],
                    ),
                db.wf(),
                db.in_memory == old(db).in_memory,
                db.rollups == old(db).rollups,
                db.wrapped_transfer_events == old(db).wrapped_transfer_events,
                db.bridge_transfer_events == old(db).bridge_transfer_events,
                old(db).bridge_events@.is_prefix_of(db.bridge_events@),
                old(db).claim_events@.is_prefix_of(db.claim_events@),
                old(db).new_wrapped_token_events@.is_prefix_of(db.new_wrapped_token_events@),
                forall|k: int|
                    0 <= k < i ==> !((#[trigger] spec_decode(
                        logs@[k].topics_view(),
                        logs@[k].data@,
                    )) is Unknown),
                forall|k: int| 0 <= k < i ==> #[trigger] log_absorbed(*db, logs@[k], rid),
                bridge_batch_absorbed(*old(db), logs@, rid) ==> *db == *old(db),
                bridge_rows_from_batch(
                    db.bridge_events@,
                    old(db).bridge_events@.len() as int,
                    logs@,
                    rid,
                ),
                claim_rows_from_batch(
                    db.claim_events@,
                    old(db).claim_events@.len() as int,
                    logs@,
                    rid,
                ),
                wrapped_rows_from_batch(
                    db.new_wrapped_token_events@,
                    old(db).new_wrapped_token_events@.len() as int,
                    logs@,
                    rid,
                ),
            decreases logs@.len() - i,
        {
            let ghost pre_db = *db;
            let ghost pre_tokens = self.wrapped_tokens@;
            match persist_bridge_log(db, &logs[i], rid, &mut self.wrapped_tokens) {
                Result::Ok(()) => {},
                Result::Err(e) => {
                    proof {
                        if bridge_batch_absorbed(*old(db), logs@, rid) {
                            assert(log_absorbed(*old(db), logs@[i as int], rid));
                        }
                        assert(spec_decode(
                            logs@[i as int].topics_view(),
                            logs@[i as int].data@,
                        ) is Unknown);
                    }
                    return Err(e);
                },
            }
            proof {
                if self.wrapped_tokens@ == pre_tokens {
                    lemma_is_prefix_refl(pre_tokens);
                } else {
                    assert(self.wrapped_tokens@ == pre_tokens.push(self.wrapped_tokens@.last()));
                    lemma_is_prefix_push(pre_tokens, self.wrapped_tokens@.last());
                }
                lemma_is_prefix_transitive(
                    old(self).wrapped_tokens@,
                    pre_tokens,
                    self.wrapped_tokens@,
                );
                assert forall|k: int| 0 <= k < i + 1 implies #[trigger] wrapped_tokens_cover(
                    self.wrapped_tokens@,
                    logs@[k],
                ) by {
                    if k < i {
                        assert(wrapped_tokens_cover(pre_tokens, logs@[k]));
                        match spec_decode(logs@[k].topics_view(), logs@[k].data@) {
                            DecodedView::Wrapped { wrapped_token_address, .. } => {
                                lemma_prefix_keeps_addr_listed(
                                    pre_tokens,
                                    self.wrapped_tokens@,
                                    wrapped_token_address,
                                );
                            },
                            _ => {},
                        }
                    } else {
                        match spec_decode(logs@[i as int].topics_view(), logs@[i as int].data@) {
                            DecodedView::Wrapped { wrapped_token_address, .. } => {
                                assert(self.wrapped_tokens@.last()@ == wrapped_token_address);
                                assert(addr_listed(self.wrapped_tokens@, wrapped_token_address));
                            },
                            _ => {},
                        }
                    }
                }
                lemma_is_prefix_transitive(
                    old(db).bridge_events@,
                    pre_db.bridge_events@,
                    db.bridge_events@,
                );
                lemma_is_prefix_transitive(
                    old(db).claim_events@,
                    pre_db.claim_events@,
                    db.claim_events@,
                );
                lemma_is_prefix_transitive(
                    old(db).new_wrapped_token_events@,
                    pre_db.new_wrapped_token_events@,
                    db.new_wrapped_token_events@,
                );
                let base_b = old(db).bridge_events@.len() as int;
                assert(bridge_rows_from_batch(pre_db.bridge_events@, base_b, logs@, rid));
                assert forall|j: int|
                    base_b <= j < db.bridge_events@.len() implies exists|k: int|
                    0 <= k < logs@.len() && bridge_row_matches(
                        #[trigger] db.bridge_events@[j],
                        logs@[k],
                        rid,
                    ) by {
                    if j < pre_db.bridge_events@.len() {
                        assert(db.bridge_events@[j] == pre_db.bridge_events@[j]);
                        let k0 = choose|k: int|
                            0 <= k < logs@.len() && bridge_row_matches(
                                pre_db.bridge_events@[j],
                                logs@[k],
                                rid,
                            );
                        assert(bridge_row_matches(db.bridge_events@[j], logs@[k0], rid));
                    } else {
                        assert(db.bridge_events@[j] == db.bridge_events@.last());
                        assert(bridge_row_matches(db.bridge_events@.last(), logs@[i as int], rid));
                    }
                }
                let base_c = old(db).claim_events@.len() as int;
                assert(claim_rows_from_batch(pre_db.claim_events@, base_c, logs@, rid));
                assert forall|j: int|
                    base_c <= j < db.claim_events@.len() implies exists|k: int|
                    0 <= k < logs@.len() && claim_row_matches(
                        #[trigger] db.claim_events@[j],
                        logs@[k],
                        rid,
                    ) by {
                    if j < pre_db.claim_events@.len() {
                        assert(db.claim_events@[j] == pre_db.claim_events@[j]);
                        let k0 = choose|k: int|
                            0 <= k < logs@.len() && claim_row_matches(
                                pre_db.claim_events@[j],
                                logs@[k],
                                rid,
                            );
                        assert(claim_row_matches(db.claim_events@[j], logs@[k0], rid));
                    } else {
                        assert(db.claim_events@[j] == db.claim_events@.last());
                        assert(claim_row_matches(db.claim_events@.last(), logs@[i as int], rid));
                    }
                }
                let base_w = old(db).new_wrapped_token_events@.len() as int;
                assert(wrapped_rows_from_batch(
                    pre_db.new_wrapped_token_events@,
                    base_w,
                    logs@,
                    rid,
                ));
                assert forall|j: int|
                    base_w <= j < db.new_wrapped_token_events@.len() implies exists|k: int|
                    0 <= k < logs@.len() && wrapped_row_matches(
                        #[trigger] db.new_wrapped_token_events@[j],
                        logs@[k],
                        rid,
                    ) by {
                    if j < pre_db.new_wrapped_token_events@.len() {
                        assert(db.new_wrapped_token_events@[j]
                            == pre_db.new_wrapped_token_events@[j]);
                        let k0 = choose|k: int|
                            0 <= k < logs@.len() && wrapped_row_matches(
                                pre_db.new_wrapped_token_events@[j],
                                logs@[k],
                                rid,
                            );
                        assert(wrapped_row_matches(
                            db.new_wrapped_token_events@[j],
                            logs@[k0],
                            rid,
                        ));
                    } else {
                        assert(db.new_wrapped_token_events@[j]
                            == db.new_wrapped_token_events@.last());
                        assert(wrapped_row_matches(
                            db.new_wrapped_token_events@.last(),
                            logs@[i as int],
                            rid,
                        ));
                    }
                }
                assert forall|k: int| 0 <= k < i + 1 implies #[trigger] log_absorbed(
                    *db,
                    logs@[k],
                    rid,
                ) by {
                    if k < i {
                        assert(log_absorbed(pre_db, logs@[k], rid));
                        lemma_log_absorbed_monotone(pre_db, *db, logs@[k], rid);
                    } else {
                        assert(log_absorbed(*db, logs@[i as int], rid));
                    }
                }
                if bridge_batch_absorbed(*old(db), logs@, rid) {
                    assert(log_absorbed(*old(db), logs@[i as int], rid));
                }
            }
            i = i + 1;
        }
        Ok(())
    }

    /// One transfer pass of a window: decode each `Transfer` log into
    /// the wrapped-token or bridge-flow table. A malformed log either
    /// aborts the pass or — in the inbound bridge-flow scan, where such
    /// logs occur in the wild — is skipped. Replaying a batch whose
    /// rows the store already holds changes nothing.
    pub fn run_transfer_pass(
        &self,
        db: &mut Database,
        logs: &Vec<RawLog>,
        into_wrapped: bool,
        skip_malformed: bool,
    ) -> (r: Result<(), WorkerError>)
        requires
            old(db).wf(),
            logs_wf(logs@),
        ensures
            final(db).wf(),
            final(db).in_memory == old(db).in_memory,
            final(db).rollups == old(db).rollups,
            final(db).bridge_events == old(db).bridge_events,
            final(db).claim_events == old(db).claim_events,
            final(db).new_wrapped_token_events == old(db).new_wrapped_token_events,
            old(db).wrapped_transfer_events@.is_prefix_of(final(db).wrapped_transfer_events@),
            old(db).bridge_transfer_events@.is_prefix_of(final(db).bridge_transfer_events@),
            into_wrapped ==> final(db).bridge_transfer_events == old(db).bridge_transfer_events,
            !into_wrapped ==> final(db).wrapped_transfer_events == old(db).wrapped_transfer_events,
            (r is Ok) <==> (skip_malformed || transfer_batch_ok(logs@)),
            r matches Err(e) ==> (e matches WorkerError::MalformedTransfer { tx_hash } && exists|
                k: int,
            |
                0 <= k < logs@.len() && !(#[trigger] transfer_shape(
                    logs@[k].topics_view(),
                    logs@[k].data@,
                )) && tx_hash@ == logs@[k].tx_hash@),
            r is Ok && into_wrapped ==> transfer_batch_absorbed(
                final(db).wrapped_transfer_events@,
                logs@,
                self.rollup_id,
            ),
            r is Ok && !into_wrapped ==> transfer_batch_absorbed(
                final(db).bridge_transfer_events@,
                logs@,
                self.rollup_id,
            ),
            into_wrapped && transfer_batch_absorbed(
                old(db).wrapped_transfer_events@,
                logs@,
                self.rollup_id,
            ) ==> *final(db) == *old(db),
            !into_wrapped && transfer_batch_absorbed(
                old(db).bridge_transfer_events@,
                logs@,
                self.rollup_id,
            ) ==> *final(db) == *old(db),
            into_wrapped ==> transfer_rows_from_batch(
                final(db).wrapped_transfer_events@,
                old(db).wrapped_transfer_events@.len() as int,
                logs@,
                self.rollup_id,
            ),
            !into_wrapped ==> transfer_rows_from_batch(
                final(db).bridge_transfer_events@,
                old(db).bridge_transfer_events@.len() as int,
                logs@,
                self.rollup_id,
            ),
    {
        let rid = self.rollup_id;
        let mut i: usize = 0;
        while i < logs.len()
            invariant
                i <= logs@.len(),
                logs_wf(logs@),
                rid == self.rollup_id,
                db.wf(),
                db.in_memory == old(db).in_memory,
                db.rollups == old(db).rollups,
                db.bridge_events == old(db).bridge_events,
                db.claim_events == old(db).claim_events,
                db.new_wrapped_token_events == old(db).new_wrapped_token_events,
                old(db).wrapped_transfer_events@.is_prefix_of(db.wrapped_transfer_events@),
                old(db).bridge_transfer_events@.is_prefix_of(db.bridge_transfer_events@),
                into_wrapped ==> db.bridge_transfer_events == old(db).bridge_transfer_events,
                !into_wrapped ==> db.wrapped_transfer_events == old(db).wrapped_transfer_events,
                !skip_malformed ==> forall|k: int|
                    0 <= k < i ==> #[trigger] transfer_shape(
                        logs@[k].topics_view(),
                        logs@[k].data@,
                    ),
                into_wrapped ==> forall|k: int|
                    0 <= k < i ==> #[trigger] transfer_log_absorbed(
                        db.wrapped_transfer_events@,
                        logs@[k],
                        rid,
                    ),
                !into_wrapped ==> forall|k: int|
                    0 <= k < i ==> #[trigger] transfer_log_absorbed(
                        db.bridge_transfer_events@,
                        logs@[k],
                        rid,
                    ),
                into_wrapped && transfer_batch_absorbed(
                    old(db).wrapped_transfer_events@,
                    logs@,
                    rid,
                ) ==> *db == *old(db),
                !into_wrapped && transfer_batch_absorbed(
                    old(db).bridge_transfer_events@,
                    logs@,
                    rid,
                ) ==> *db == *old(db),
                into_wrapped ==> transfer_rows_from_batch(
                    db.wrapped_transfer_events@,
                    old(db).wrapped_transfer_events@.len() as int,
                    logs@,
                    rid,
                ),
                !into_wrapped ==> transfer_rows_from_batch(
                    db.bridge_transfer_events@,
                    old(db).bridge_transfer_events@.len() as int,
                    logs@,
                    rid,
                ),
            decreases logs@.len() - i,
        {
            let ghost pre_db = *db;
            match persist_transfer_log(db, &logs[i], rid, into_wrapped) {
                Result::Ok(()) => {},
                Result::Err(e) => {
                    if !skip_malformed {
                        proof {
                            if into_wrapped && transfer_batch_absorbed(
                                old(db).wrapped_transfer_events@,
                                logs@,
                                rid,
                            ) {
                                assert(transfer_log_absorbed(
                                    old(db).wrapped_transfer_events@,
                                    logs@[i as int],
                                    rid,
                                ));
                            }
                            if !into_wrapped && transfer_batch_absorbed(
                                old(db).bridge_transfer_events@,
                                logs@,
                                rid,
                            ) {
                                assert(transfer_log_absorbed(
                                    old(db).bridge_transfer_events@,
                                    logs@[i as int],
                                    rid,
                                ));
                            }
                            assert(!transfer_shape(
                                logs@[i as int].topics_view(),
                                logs@[i as int].data@,
                            ));
                        }
                        return Err(e);
                    }
                },
            }
            proof {
                lemma_is_prefix_transitive(
                    old(db).wrapped_transfer_events@,
                    pre_db.wrapped_transfer_events@,
                    db.wrapped_transfer_events@,
                );
                lemma_is_prefix_transitive(
                    old(db).bridge_transfer_events@,
                    pre_db.bridge_transfer_events@,
                    db.bridge_transfer_events@,
                );
                if into_wrapped {
                    let base_t = old(db).wrapped_transfer_events@.len() as int;
                    assert(transfer_rows_from_batch(
                        pre_db.wrapped_transfer_events@,
                        base_t,
                        logs@,
                        rid,
                    ));
                    assert forall|j: int|
                        base_t <= j < db.wrapped_transfer_events@.len() implies exists|k: int|
                        0 <= k < logs@.len() && transfer_row_matches(
                            #[trigger] db.wrapped_transfer_events@[j],
                            logs@[k],
                            rid,
                        ) by {
                        if j < pre_db.wrapped_transfer_events@.len() {
                            assert(db.wrapped_transfer_events@[j]
                                == pre_db.wrapped_transfer_events@[j]);
                            let k0 = choose|k: int|
                                0 <= k < logs@.len() && transfer_row_matches(
                                    pre_db.wrapped_transfer_events@[j],
                                    logs@[k],
                                    rid,
                                );
                            assert(transfer_row_matches(
                                db.wrapped_transfer_events@[j],
                                logs@[k0],
                                rid,
                            ));
                        } else {
                            assert(db.wrapped_transfer_events@[j]
                                == db.wrapped_transfer_events@.last());
                            assert(transfer_row_matches(
                                db.wrapped_transfer_events@.last(),
                                logs@[i as int],
                                rid,
                            ));
                        }
                    }
                } else {
                    let base_t = old(db).bridge_transfer_events@.len() as int;
                    assert(transfer_rows_from_batch(
                        pre_db.bridge_transfer_events@,
                        base_t,
                        logs@,
                        rid,
                    ));
                    assert forall|j: int|
                        base_t <= j < db.bridge_transfer_events@.len() implies exists|k: int|
                        0 <= k < logs@.len() && transfer_row_matches(
                            #[trigger] db.bridge_transfer_events@[j],
                            logs@[k],
                            rid,
                        ) by {
                        if j < pre_db.bridge_transfer_events@.len() {
                            assert(db.bridge_transfer_events@[j]
                                == pre_db.bridge_transfer_events@[j]);
                            let k0 = choose|k: int|
                                0 <= k < logs@.len() && transfer_row_matches(
                                    pre_db.bridge_transfer_events@[j],
                                    logs@[k],
                                    rid,
                                );
                            assert(transfer_row_matches(
                                db.bridge_transfer_events@[j],
                                logs@[k0],
                                rid,
                            ));
                        } else {
                            assert(db.bridge_transfer_events@[j]
                                == db.bridge_transfer_events@.last());
                            assert(transfer_row_matches(
                                db.bridge_transfer_events@.last(),
                                logs@[i as int],
                                rid,
                            ));
                        }
                    }
                }
                if into_wrapped {
                    assert forall|k: int| 0 <= k < i + 1 implies #[trigger] transfer_log_absorbed(
                        db.wrapped_transfer_events@,
                        logs@[k],
                        rid,
                    ) by {
                        if k < i {
                            assert(transfer_log_absorbed(
                                pre_db.wrapped_transfer_events@,
                                logs@[k],
                                rid,
                            ));
                            if transfer_shape(logs@[k].topics_view(), logs@[k].data@) {
                                lemma_prefix_keeps_transfer_id(
                                    pre_db.wrapped_transfer_events@,
                                    db.wrapped_transfer_events@,
                                    log_id(logs@[k], rid),
                                );
                            }
                        }
                    }
                    if transfer_batch_absorbed(old(db).wrapped_transfer_events@, logs@, rid) {
                        assert(transfer_log_absorbed(
                            old(db).wrapped_transfer_events@,
                            logs@[i as int],
                            rid,
                        ));
                    }
                } else {
                    assert forall|k: int| 0 <= k < i + 1 implies #[trigger] transfer_log_absorbed(
                        db.bridge_transfer_events@,
                        logs@[k],
                        rid,
                    ) by {
                        if k < i {
                            assert(transfer_log_absorbed(
                                pre_db.bridge_transfer_events@,
                                logs@[k],
                                rid,
                            ));
                            if transfer_shape(logs@[k].topics_view(), logs@[k].data@) {
                                lemma_prefix_keeps_transfer_id(
                                    pre_db.bridge_transfer_events@,
                                    db.bridge_transfer_events@,
                                    log_id(logs@[k], rid),
                                );
                            }
                        }
                    }
                    if transfer_batch_absorbed(old(db).bridge_transfer_events@, logs@, rid) {
                        assert(transfer_log_absorbed(
                            old(db).bridge_transfer_events@,
                            logs@[i as int],
                            rid,
                        ));
                    }
                }
            }
            i = i + 1;
        }
        Ok(())
    }

    /// Close a window: advance this rollup's checkpoint to the window's
    /// end. The checkpoint only ever moves forward, and no other
    /// rollup's checkpoint moves at all.
    pub fn finish_window(&self, db: &mut Database, end: u64)
        requires
            old(db).wf(),
            end <= i64::MAX as u64,
            spec_last_indexed(old(db).rollups@, self.rollup_id) < end,
        ensures
            final(db).wf(),
            final(db).in_memory == old(db).in_memory,
            final(db).bridge_events == old(db).bridge_events,
            final(db).claim_events == old(db).claim_events,
            final(db).new_wrapped_token_events == old(db).new_wrapped_token_events,
            final(db).wrapped_transfer_events == old(db).wrapped_transfer_events,
            final(db).bridge_transfer_events == old(db).bridge_transfer_events,
            spec_last_indexed(final(db).rollups@, self.rollup_id) == if has_rollup(
                old(db).rollups@,
                self.rollup_id,
            ) {
                end
            } else {
                0
            },
            spec_last_indexed(final(db).rollups@, self.rollup_id) >= spec_last_indexed(
                old(db).rollups@,
                self.rollup_id,
            ),
            forall|other: u32|
                other != self.rollup_id ==> spec_last_indexed(final(db).rollups@, other)
                    == spec_last_indexed(old(db).rollups@, other),
    {
        db.synced_till_block(self.rollup_id, end);
    }
}

} // verus!
