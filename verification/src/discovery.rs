//! Rollup discovery: turning what the manager contract reports into
//! the registration plan the supervisor executes.
//!
//! The settlement layer is registered as rollup 0 under the name `l1`
//! with the hard-coded mainnet bridge; the child rollups carry the
//! ids 1 through `rollup_count` inclusive, `rollup_count` being the
//! highest valid id the manager reports.

use crate::database::{has_rollup, Database, RollupRow};
use crate::text::clone_bytes;
use crate::utils::l1_bridge_address_bytes;
use vstd::prelude::*;
use vstd::string::StringExecFns;

verus! {

/// Metadata fetched from a child rollup's own contract.
pub struct RollupMeta {
    pub network_name: String,
    pub bridge_address: Vec<u8>,
    pub rpc_url: String,
}

/// One rollup to register and index.
pub struct RollupPlan {
    pub rollup_id: u32,
    pub network_name: String,
    pub bridge_address: Vec<u8>,
    pub rpc_url: String,
}

/// The registration plan for the whole federation. The settlement
/// layer's own RPC endpoint is the one the program was started with,
/// handed in as `l1_rpc_url`.
pub fn plan_rollups(rollup_count: u32, metas: &Vec<RollupMeta>, l1_rpc_url: &str) -> (r: Vec<
    RollupPlan,
>)
    requires
        metas@.len() == rollup_count as nat,
    ensures
        r@.len() == rollup_count as nat + 1,
        r@[0].rollup_id == 0,
        r@[0].network_name@ == "l1"@,
        r@[0].bridge_address@ == crate::utils::l1_bridge_address(),
        r@[0].rpc_url@ == l1_rpc_url@,
        forall|i: int|
            1 <= i <= rollup_count as int ==> {
                &&& (#[trigger] r@[i]).rollup_id == i as u32
                &&& r@[i].network_name@ == metas@[i - 1].network_name@
                &&& r@[i].bridge_address@ == metas@[i - 1].bridge_address@
                &&& r@[i].rpc_url@ == metas@[i - 1].rpc_url@
            },
{
    let mut out: Vec<RollupPlan> = Vec::new();
    out.push(
        RollupPlan {
            rollup_id: 0,
            network_name: String::from_str("l1"),
            bridge_address: l1_bridge_address_bytes(),
            rpc_url: String::from_str(l1_rpc_url),
        },
    );
    let mut i: usize = 0;
    while i < metas.len()
        invariant
            metas@.len() == rollup_count as nat,
            i <= metas@.len(),
            out@.len() == i + 1,
            out@[0].rollup_id == 0,
            out@[0].network_name@ == "l1"@,
            out@[0].bridge_address@ == crate::utils::l1_bridge_address(),
            out@[0].rpc_url@ == l1_rpc_url@,
            forall|t: int|
                1 <= t <= i ==> {
                    &&& (#[trigger] out@[t]).rollup_id == t as u32
                    &&& out@[t].network_name@ == metas@[t - 1].network_name@
                    &&& out@[t].bridge_address@ == metas@[t - 1].bridge_address@
                    &&& out@[t].rpc_url@ == metas@[t - 1].rpc_url@
                },
        decreases metas@.len() - i,
    {
        out.push(
            RollupPlan {
                rollup_id: (i + 1) as u32,
                network_name: metas[i].network_name.clone(),
                bridge_address: clone_bytes(&metas[i].bridge_address),
                rpc_url: metas[i].rpc_url.clone(),
            },
        );
        i = i + 1;
    }
    out
}

/// Every row beyond `base` carries the rollup id of one of the first
/// `upto` plans.
pub open spec fn appended_from_plans(
    rows: Seq<RollupRow>,
    base: int,
    plans: Seq<RollupPlan>,
    upto: int,
) -> bool {
    forall|j: int|
        base <= j < rows.len() ==> exists|t: int|
            0 <= t < upto && (#[trigger] rows[j]).rollup_id == plans[t].rollup_id
}

/// Register every planned rollup: each id gets a `(id, name, -1)` row
/// unless the registry already has one, which is kept untouched.
#[verifier::rlimit(100)]
pub fn register_rollups(db: &mut Database, plans: &Vec<RollupPlan>)
    requires
        old(db).wf(),
        forall|a: int, b: int|
            0 <= a < b < plans@.len() ==> (#[trigger] plans@[a]).rollup_id != (
            #[trigger] plans@[b]).rollup_id,
    ensures
        final(db).wf(),
        final(db).in_memory == old(db).in_memory,
        final(db).bridge_events == old(db).bridge_events,
        final(db).claim_events == old(db).claim_events,
        final(db).new_wrapped_token_events == old(db).new_wrapped_token_events,
        final(db).wrapped_transfer_events == old(db).wrapped_transfer_events,
        final(db).bridge_transfer_events == old(db).bridge_transfer_events,
        old(db).rollups@.is_prefix_of(final(db).rollups@),
        forall|i: int|
            0 <= i < plans@.len() ==> has_rollup(
                final(db).rollups@,
                (#[trigger] plans@[i]).rollup_id,
            ),
        forall|i: int|
            0 <= i < plans@.len() && !has_rollup(old(db).rollups@, (#[trigger] plans@[i]).rollup_id)
                ==> exists|j: int|
                0 <= j < final(db).rollups@.len() && (#[trigger] final(db).rollups@[j]).rollup_id
                    == plans@[i].rollup_id && final(db).rollups@[j].network_name@
                    == plans@[i].network_name@ && final(db).rollups@[j].latest_synced_block == -1,
{
    let mut i: usize = 0;
    while i < plans.len()
        invariant
            i <= plans@.len(),
            forall|a: int, b: int|
                0 <= a < b < plans@.len() ==> (#[trigger] plans@[a]).rollup_id != (
                #[trigger] plans@[b]).rollup_id,
            db.wf(),
            db.in_memory == old(db).in_memory,
            db.bridge_events == old(db).bridge_events,
            db.claim_events == old(db).claim_events,
            db.new_wrapped_token_events == old(db).new_wrapped_token_events,
            db.wrapped_transfer_events == old(db).wrapped_transfer_events,
            db.bridge_transfer_events == old(db).bridge_transfer_events,
            old(db).rollups@.is_prefix_of(db.rollups@),
            forall|t: int|
                0 <= t < i ==> has_rollup(db.rollups@, (#[trigger] plans@[t]).rollup_id),
            forall|t: int|
                0 <= t < i && !has_rollup(old(db).rollups@, (#[trigger] plans@[t]).rollup_id)
                    ==> exists|j: int|
                    0 <= j < db.rollups@.len() && (#[trigger] db.rollups@[j]).rollup_id
                        == plans@[t].rollup_id && db.rollups@[j].network_name@
                        == plans@[t].network_name@ && db.rollups@[j].latest_synced_block == -1,
            appended_from_plans(db.rollups@, old(db).rollups@.len() as int, plans@, i as int),
        decreases plans@.len() - i,
    {
        let ghost pre = db.rollups@;
        db.insert_rollup(plans[i].rollup_id, plans[i].network_name.as_str());
        proof {
            if has_rollup(pre, plans@[i as int].rollup_id) {
                assert(db.rollups@ == pre);
                assert(pre.is_prefix_of(db.rollups@)) by {
                    assert(pre =~= db.rollups@.subrange(0, pre.len() as int));
                }
            } else {
                assert(db.rollups@ == pre.push(db.rollups@.last()));
                assert(pre.is_prefix_of(db.rollups@)) by {
                    assert(pre =~= db.rollups@.subrange(0, pre.len() as int));
                }
                assert(db.rollups@.last().rollup_id == plans@[i as int].rollup_id);
            }
            assert(old(db).rollups@.is_prefix_of(db.rollups@)) by {
                assert(old(db).rollups@ =~= db.rollups@.subrange(
                    0,
                    old(db).rollups@.len() as int,
                ));
            }
            assert forall|t: int| 0 <= t < i + 1 implies has_rollup(
                db.rollups@,
                (#[trigger] plans@[t]).rollup_id,
            ) by {
                if t < i {
                    assert(has_rollup(pre, plans@[t].rollup_id));
                    let j = choose|j: int|
                        0 <= j < pre.len() && pre[j].rollup_id == plans@[t].rollup_id;
                    assert(db.rollups@[j] == pre[j]);
                } else {
                    if has_rollup(pre, plans@[i as int].rollup_id) {
                        let j = choose|j: int|
                            0 <= j < pre.len() && pre[j].rollup_id == plans@[i as int].rollup_id;
                        assert(db.rollups@[j] == pre[j]);
                    } else {
                        assert(db.rollups@[db.rollups@.len() - 1].rollup_id == plans@[
                        i as int].rollup_id);
                    }
                }
            }
            assert forall|t: int|
                0 <= t < i + 1 && !has_rollup(
                    old(db).rollups@,
                    (#[trigger] plans@[t]).rollup_id,
                ) implies exists|j: int|
                0 <= j < db.rollups@.len() && (#[trigger] db.rollups@[j]).rollup_id
                    == plans@[t].rollup_id && db.rollups@[j].network_name@
                    == plans@[t].network_name@ && db.rollups@[j].latest_synced_block == -1 by {
                if t < i {
                    let j = choose|j: int|
                        0 <= j < pre.len() && (#[trigger] pre[j]).rollup_id == plans@[t].rollup_id
                            && pre[j].network_name@ == plans@[t].network_name@
                            && pre[j].latest_synced_block == -1;
                    assert(db.rollups@[j] == pre[j]);
                } else {
                    if has_rollup(pre, plans@[i as int].rollup_id) {
                        let j = choose|j: int|
                            0 <= j < pre.len() && pre[j].rollup_id == plans@[i as int].rollup_id;
                        if j < old(db).rollups@.len() {
                            assert(old(db).rollups@[j] == pre[j]);
                            assert(old(db).rollups@[j].rollup_id == plans@[i as int].rollup_id);
                            assert(has_rollup(old(db).rollups@, plans@[i as int].rollup_id));
                            assert(false);
                        } else {
                            assert(appended_from_plans(
                                pre,
                                old(db).rollups@.len() as int,
                                plans@,
                                i as int,
                            ));
                            assert(exists|t2: int|
                                0 <= t2 < i && (#[trigger] pre[j]).rollup_id
                                    == plans@[t2].rollup_id);
                            let t2 = choose|t2: int|
                                0 <= t2 < i && (#[trigger] pre[j]).rollup_id
                                    == plans@[t2].rollup_id;
                            assert(plans@[t2].rollup_id == plans@[i as int].rollup_id);
                            assert(false);
                        }
                    } else {
                        let j = db.rollups@.len() - 1;
                        assert(db.rollups@[j].rollup_id == plans@[i as int].rollup_id
                            && db.rollups@[j].network_name@ == plans@[i as int].network_name@
                            && db.rollups@[j].latest_synced_block == -1);
                    }
                }
            }
            assert(appended_from_plans(
                pre,
                old(db).rollups@.len() as int,
                plans@,
                i as int,
            ));
            assert forall|j: int|
                old(db).rollups@.len() <= j < db.rollups@.len() implies exists|t: int|
                0 <= t < i + 1 && (#[trigger] db.rollups@[j]).rollup_id == plans@[t].rollup_id by {
                if j < pre.len() {
                    assert(db.rollups@[j] == pre[j]);
                    assert(exists|t0: int|
                        0 <= t0 < i && (#[trigger] pre[j]).rollup_id == plans@[t0].rollup_id);
                    let t0 = choose|t0: int|
                        0 <= t0 < i && (#[trigger] pre[j]).rollup_id == plans@[t0].rollup_id;
                    assert(db.rollups@[j].rollup_id == plans@[t0].rollup_id);
                } else {
                    assert(db.rollups@[j].rollup_id == plans@[i as int].rollup_id);
                }
            }
            assert(appended_from_plans(
                db.rollups@,
                old(db).rollups@.len() as int,
                plans@,
                i as int + 1,
            ));
        }
        i = i + 1;
    }
}

} // verus!
