//! The store: keyed tables for each event family plus the `rollups`
//! registry that tracks each rollup's last-synced block.
//!
//! Every event row is keyed by its content id and inserted
//! idempotently: a row whose id is already present leaves the store
//! untouched, which is what absorbs replays after a restart. Addresses
//! and 256-bit values are held as raw bytes; hashes, ids and metadata
//! as the strings they are displayed with.

use crate::text::{be_nat, bytes_eq, dec_of_i128, sdec_bytes};
use crate::utils::ascii_chars;
use vstd::prelude::*;
use vstd::string::StringExecFns;

verus! {

/// One row of `bridge_events`: a cross-chain deposit.
pub struct BridgeEventRow {
    pub id: String,
    pub rollup_id: u32,
    pub tx_hash: String,
    pub block_hash: String,
    pub block_number: u64,
    pub tx_index: u64,
    pub log_index: u64,
    pub leaf_type: u8,
    pub origin_network: u32,
    pub origin_address: Vec<u8>,
    pub destination_network: u32,
    pub destination_address: Vec<u8>,
    pub amount: Vec<u8>,
    pub metadata: String,
    pub deposit_count: u32,
}

/// One row of `claim_events`; `version` tells which schema the log
/// carried, and a legacy `index` is widened into `global_index`.
pub struct ClaimEventRow {
    pub id: String,
    pub rollup_id: u32,
    pub tx_hash: String,
    pub block_hash: String,
    pub block_number: u64,
    pub tx_index: u64,
    pub log_index: u64,
    pub version: u32,
    pub global_index: Vec<u8>,
    pub origin_network: u32,
    pub origin_address: Vec<u8>,
    pub destination_address: Vec<u8>,
    pub amount: Vec<u8>,
}

/// One row of `new_wrapped_token_events`.
pub struct WrappedTokenRow {
    pub id: String,
    pub rollup_id: u32,
    pub tx_hash: String,
    pub block_hash: String,
    pub block_number: u64,
    pub tx_index: u64,
    pub log_index: u64,
    pub origin_network: u32,
    pub origin_token_address: Vec<u8>,
    pub wrapped_token_address: Vec<u8>,
    pub metadata: String,
}

/// One row of `wrapped_transfer_events` or `bridge_transfer_events`.
pub struct TransferRow {
    pub id: String,
    pub rollup_id: u32,
    pub tx_hash: String,
    pub block_hash: String,
    pub block_number: u64,
    pub tx_index: u64,
    pub log_index: u64,
    pub from_address: Vec<u8>,
    pub to_address: Vec<u8>,
    pub token_address: Vec<u8>,
    pub value: Vec<u8>,
}

/// One row of `rollups`; `latest_synced_block` is `-1` until the
/// rollup's worker completes its first window.
pub struct RollupRow {
    pub rollup_id: u32,
    pub network_name: String,
    pub latest_synced_block: i64,
}

// ---------------------------------------------------------------------
// Id-presence predicates, one per row family.
pub open spec fn has_bridge_id(rows: Seq<BridgeEventRow>, id: Seq<char>) -> bool {
    exists|j: int| 0 <= j < rows.len() && rows[j].id@ == id
}

pub open spec fn has_claim_id(rows: Seq<ClaimEventRow>, id: Seq<char>) -> bool {
    exists|j: int| 0 <= j < rows.len() && rows[j].id@ == id
}

pub open spec fn has_wrapped_token_id(rows: Seq<WrappedTokenRow>, id: Seq<char>) -> bool {
    exists|j: int| 0 <= j < rows.len() && rows[j].id@ == id
}

pub open spec fn has_transfer_id(rows: Seq<TransferRow>, id: Seq<char>) -> bool {
    exists|j: int| 0 <= j < rows.len() && rows[j].id@ == id
}

pub open spec fn has_rollup(rows: Seq<RollupRow>, rid: u32) -> bool {
    exists|j: int| 0 <= j < rows.len() && rows[j].rollup_id == rid
}

pub open spec fn bridge_ids_distinct(rows: Seq<BridgeEventRow>) -> bool {
    forall|j: int, k: int| 0 <= j < k < rows.len() ==> rows[j].id@ != rows[k].id@
}

pub open spec fn claim_ids_distinct(rows: Seq<ClaimEventRow>) -> bool {
    forall|j: int, k: int| 0 <= j < k < rows.len() ==> rows[j].id@ != rows[k].id@
}

pub open spec fn wrapped_token_ids_distinct(rows: Seq<WrappedTokenRow>) -> bool {
    forall|j: int, k: int| 0 <= j < k < rows.len() ==> rows[j].id@ != rows[k].id@
}

pub open spec fn transfer_ids_distinct(rows: Seq<TransferRow>) -> bool {
    forall|j: int, k: int| 0 <= j < k < rows.len() ==> rows[j].id@ != rows[k].id@
}

pub open spec fn rollup_ids_distinct(rows: Seq<RollupRow>) -> bool {
    forall|j: int, k: int| 0 <= j < k < rows.len() ==> rows[j].rollup_id != rows[k].rollup_id
}

/// The six tables. A `Database` opened for real persistence and one
/// opened in memory behave identically; the flag is kept so a caller
/// can tell which was asked for.
pub struct Database {
    pub in_memory: bool,
    pub bridge_events: Vec<BridgeEventRow>,
    pub claim_events: Vec<ClaimEventRow>,
    pub new_wrapped_token_events: Vec<WrappedTokenRow>,
    pub wrapped_transfer_events: Vec<TransferRow>,
    pub bridge_transfer_events: Vec<TransferRow>,
    pub rollups: Vec<RollupRow>,
}

impl Database {
    /// Primary keys hold: within each table no content id — and within
    /// the registry no rollup id — appears twice.
    pub open spec fn wf(self) -> bool {
        &&& bridge_ids_distinct(self.bridge_events@)
        &&& claim_ids_distinct(self.claim_events@)
        &&& wrapped_token_ids_distinct(self.new_wrapped_token_events@)
        &&& transfer_ids_distinct(self.wrapped_transfer_events@)
        &&& transfer_ids_distinct(self.bridge_transfer_events@)
        &&& rollup_ids_distinct(self.rollups@)
    }

    /// Open the store with all six tables empty.
    pub fn new(use_in_memory: bool) -> (r: Database)
        ensures
            r.wf(),
            r.in_memory == use_in_memory,
            r.bridge_events@.len() == 0,
            r.claim_events@.len() == 0,
            r.new_wrapped_token_events@.len() == 0,
            r.wrapped_transfer_events@.len() == 0,
            r.bridge_transfer_events@.len() == 0,
            r.rollups@.len() == 0,
    {
        Database {
            in_memory: use_in_memory,
            bridge_events: Vec::new(),
            claim_events: Vec::new(),
            new_wrapped_token_events: Vec::new(),
            wrapped_transfer_events: Vec::new(),
            bridge_transfer_events: Vec::new(),
            rollups: Vec::new(),
        }
    }

    fn contains_bridge_id(&self, id: &String) -> (r: bool)
        ensures
            r == has_bridge_id(self.bridge_events@, id@),
    {
        let mut i: usize = 0;
        while i < self.bridge_events.len()
            invariant
                i <= self.bridge_events@.len(),
                forall|j: int| 0 <= j < i ==> self.bridge_events@[j].id@ != id@,
            decreases self.bridge_events@.len() - i,
        {
            if self.bridge_events[i].id == *id {
                return true;
            }
            i = i + 1;
        }
        false
    }

    fn contains_claim_id(&self, id: &String) -> (r: bool)
        ensures
            r == has_claim_id(self.claim_events@, id@),
    {
        let mut i: usize = 0;
        while i < self.claim_events.len()
            invariant
                i <= self.claim_events@.len(),
                forall|j: int| 0 <= j < i ==> self.claim_events@[j].id@ != id@,
            decreases self.claim_events@.len() - i,
        {
            if self.claim_events[i].id == *id {
                return true;
            }
            i = i + 1;
        }
        false
    }

    fn contains_wrapped_token_id(&self, id: &String) -> (r: bool)
        ensures
            r == has_wrapped_token_id(self.new_wrapped_token_events@, id@),
    {
        let mut i: usize = 0;
        while i < self.new_wrapped_token_events.len()
            invariant
                i <= self.new_wrapped_token_events@.len(),
                forall|j: int| 0 <= j < i ==> self.new_wrapped_token_events@[j].id@ != id@,
            decreases self.new_wrapped_token_events@.len() - i,
        {
            if self.new_wrapped_token_events[i].id == *id {
                return true;
            }
            i = i + 1;
        }
        false
    }

    fn contains_transfer_id(rows: &Vec<TransferRow>, id: &String) -> (r: bool)
        ensures
            r == has_transfer_id(rows@, id@),
    {
        let mut i: usize = 0;
        while i < rows.len()
            invariant
                i <= rows@.len(),
                forall|j: int| 0 <= j < i ==> rows@[j].id@ != id@,
            decreases rows@.len() - i,
        {
            if rows[i].id == *id {
                return true;
            }
            i = i + 1;
        }
        false
    }

    /// Insert a deposit row; a duplicate content id is silently ignored.
    pub fn insert_bridge_event(&mut self, row: BridgeEventRow)
        requires
            old(self).wf(),
        ensures
            final(self).wf(),
            has_bridge_id(old(self).bridge_events@, row.id@) ==> *final(self) == *old(self),
            !has_bridge_id(old(self).bridge_events@, row.id@) ==> final(self).bridge_events@ == old(self).bridge_events@.push(row),
            final(self).in_memory == old(self).in_memory,
            final(self).claim_events == old(self).claim_events,
            final(self).new_wrapped_token_events == old(self).new_wrapped_token_events,
            final(self).wrapped_transfer_events == old(self).wrapped_transfer_events,
            final(self).bridge_transfer_events == old(self).bridge_transfer_events,
            final(self).rollups == old(self).rollups,
    {
        if self.contains_bridge_id(&row.id) {
            return ;
        }
        self.bridge_events.push(row);
    }

    /// Insert a claim row; a duplicate content id is silently ignored.
    pub fn insert_claim_event(&mut self, row: ClaimEventRow)
        requires
            old(self).wf(),
        ensures
            final(self).wf(),
            has_claim_id(old(self).claim_events@, row.id@) ==> *final(self) == *old(self),
            !has_claim_id(old(self).claim_events@, row.id@) ==> final(self).claim_events@ == old(self).claim_events@.push(row),
            final(self).in_memory == old(self).in_memory,
            final(self).bridge_events == old(self).bridge_events,
            final(self).new_wrapped_token_events == old(self).new_wrapped_token_events,
            final(self).wrapped_transfer_events == old(self).wrapped_transfer_events,
            final(self).bridge_transfer_events == old(self).bridge_transfer_events,
            final(self).rollups == old(self).rollups,
    {
        if self.contains_claim_id(&row.id) {
            return ;
        }
        self.claim_events.push(row);
    }

    /// Insert a wrapped-token creation row; duplicates are ignored.
    pub fn insert_new_wrapped_token_event(&mut self, row: WrappedTokenRow)
        requires
            old(self).wf(),
        ensures
            final(self).wf(),
            has_wrapped_token_id(old(self).new_wrapped_token_events@, row.id@) ==> *final(self)
                == *old(self),
            !has_wrapped_token_id(old(self).new_wrapped_token_events@, row.id@) ==> final(self).new_wrapped_token_events@ == old(self).new_wrapped_token_events@.push(row),
            final(self).in_memory == old(self).in_memory,
            final(self).bridge_events == old(self).bridge_events,
            final(self).claim_events == old(self).claim_events,
            final(self).wrapped_transfer_events == old(self).wrapped_transfer_events,
            final(self).bridge_transfer_events == old(self).bridge_transfer_events,
            final(self).rollups == old(self).rollups,
    {
        if self.contains_wrapped_token_id(&row.id) {
            return ;
        }
        self.new_wrapped_token_events.push(row);
    }

    /// Insert a mint-or-burn transfer row; duplicates are ignored.
    pub fn insert_wrapped_transfer_event(&mut self, row: TransferRow)
        requires
            old(self).wf(),
        ensures
            final(self).wf(),
            has_transfer_id(old(self).wrapped_transfer_events@, row.id@) ==> *final(self) == *old(self),
            !has_transfer_id(old(self).wrapped_transfer_events@, row.id@) ==> final(self).wrapped_transfer_events@ == old(self).wrapped_transfer_events@.push(row),
            final(self).in_memory == old(self).in_memory,
            final(self).bridge_events == old(self).bridge_events,
            final(self).claim_events == old(self).claim_events,
            final(self).new_wrapped_token_events == old(self).new_wrapped_token_events,
            final(self).bridge_transfer_events == old(self).bridge_transfer_events,
            final(self).rollups == old(self).rollups,
    {
        if Self::contains_transfer_id(&self.wrapped_transfer_events, &row.id) {
            return ;
        }
        self.wrapped_transfer_events.push(row);
    }

    /// Insert a bridge-flow transfer row; duplicates are ignored.
    pub fn insert_bridge_transfer_event(&mut self, row: TransferRow)
        requires
            old(self).wf(),
        ensures
            final(self).wf(),
            has_transfer_id(old(self).bridge_transfer_events@, row.id@) ==> *final(self) == *old(self),
            !has_transfer_id(old(self).bridge_transfer_events@, row.id@) ==> final(self).bridge_transfer_events@ == old(self).bridge_transfer_events@.push(row),
            final(self).in_memory == old(self).in_memory,
            final(self).bridge_events == old(self).bridge_events,
            final(self).claim_events == old(self).claim_events,
            final(self).new_wrapped_token_events == old(self).new_wrapped_token_events,
            final(self).wrapped_transfer_events == old(self).wrapped_transfer_events,
            final(self).rollups == old(self).rollups,
    {
        if Self::contains_transfer_id(&self.bridge_transfer_events, &row.id) {
            return ;
        }
        self.bridge_transfer_events.push(row);
    }

    /// Register a rollup: insert `(id, name, -1)` only when no row for
    /// the id exists; an existing row — its name included — is never
    /// overwritten.
    pub fn insert_rollup(&mut self, rollup_id: u32, network_name: &str)
        requires
            old(self).wf(),
        ensures
            final(self).wf(),
            has_rollup(old(self).rollups@, rollup_id) ==> *final(self) == *old(self),
            !has_rollup(old(self).rollups@, rollup_id) ==> {
                &&& final(self).rollups@.len() == old(self).rollups@.len() + 1
                &&& final(self).rollups@ == old(self).rollups@.push(final(self).rollups@.last())
                &&& final(self).rollups@.last().rollup_id == rollup_id
                &&& final(self).rollups@.last().network_name@ == network_name@
                &&& final(self).rollups@.last().latest_synced_block == -1
            },
            final(self).in_memory == old(self).in_memory,
            final(self).bridge_events == old(self).bridge_events,
            final(self).claim_events == old(self).claim_events,
            final(self).new_wrapped_token_events == old(self).new_wrapped_token_events,
            final(self).wrapped_transfer_events == old(self).wrapped_transfer_events,
            final(self).bridge_transfer_events == old(self).bridge_transfer_events,
    {
        let mut i: usize = 0;
        while i < self.rollups.len()
            invariant
                *self == *old(self),
                old(self).wf(),
                i <= self.rollups@.len(),
                forall|j: int| 0 <= j < i ==> self.rollups@[j].rollup_id != rollup_id,
            decreases self.rollups@.len() - i,
        {
            if self.rollups[i].rollup_id == rollup_id {
                return ;
            }
            i = i + 1;
        }
        self.rollups.push(
            RollupRow {
                rollup_id,
                network_name: String::from_str(network_name),
                latest_synced_block: -1,
            },
        );
    }

    /// The last block indexed for a rollup: 0 when the rollup is
    /// unknown or its checkpoint is still the `-1` sentinel.
    pub fn last_indexed_block(&self, rollup_id: u32) -> (r: u64)
        requires
            self.wf(),
        ensures
            r == spec_last_indexed(self.rollups@, rollup_id),
    {
        let mut i: usize = 0;
        while i < self.rollups.len()
            invariant
                self.wf(),
                i <= self.rollups@.len(),
                forall|j: int| 0 <= j < i ==> self.rollups@[j].rollup_id != rollup_id,
            decreases self.rollups@.len() - i,
        {
            if self.rollups[i].rollup_id == rollup_id {
                let b = self.rollups[i].latest_synced_block;
                proof {
                    let j = choose|j: int|
                        0 <= j < self.rollups@.len() && self.rollups@[j].rollup_id == rollup_id;
                    if j != i as int {
                        assert(self.rollups@[j].rollup_id != self.rollups@[i as int].rollup_id);
                    }
                }
                if b < 0 {
                    return 0;
                }
                return b as u64;
            }
            i = i + 1;
        }
        0
    }

    /// Unconditionally move a rollup's checkpoint to `block`. A rollup
    /// that was never registered is left alone, as an update that
    /// matches no row.
    pub fn synced_till_block(&mut self, rollup_id: u32, block: u64)
        requires
            old(self).wf(),
            block <= i64::MAX as u64,
        ensures
            final(self).wf(),
            !has_rollup(old(self).rollups@, rollup_id) ==> *final(self) == *old(self),
            has_rollup(old(self).rollups@, rollup_id) ==> {
                &&& final(self).rollups@.len() == old(self).rollups@.len()
                &&& forall|j: int|
                    0 <= j < old(self).rollups@.len() && old(self).rollups@[j].rollup_id
                        != rollup_id ==> final(self).rollups@[j] == old(self).rollups@[j]
                &&& forall|j: int|
                    0 <= j < old(self).rollups@.len() && old(self).rollups@[j].rollup_id
                        == rollup_id ==> {
                        &&& (#[trigger] final(self).rollups@[j]).rollup_id == rollup_id
                        &&& final(self).rollups@[j].network_name@ == old(self).rollups@[j].network_name@
                        &&& final(self).rollups@[j].latest_synced_block == block as i64
                    }
            },
            spec_last_indexed(final(self).rollups@, rollup_id) == if has_rollup(
                old(self).rollups@,
                rollup_id,
            ) {
                block
            } else {
                0
            },
            forall|other: u32|
                other != rollup_id ==> spec_last_indexed(final(self).rollups@, other)
                    == spec_last_indexed(old(self).rollups@, other),
            final(self).in_memory == old(self).in_memory,
            final(self).bridge_events == old(self).bridge_events,
            final(self).claim_events == old(self).claim_events,
            final(self).new_wrapped_token_events == old(self).new_wrapped_token_events,
            final(self).wrapped_transfer_events == old(self).wrapped_transfer_events,
            final(self).bridge_transfer_events == old(self).bridge_transfer_events,
    {
        let mut i: usize = 0;
        while i < self.rollups.len()
            invariant
                *self == *old(self),
                old(self).wf(),
                block <= i64::MAX as u64,
                i <= self.rollups@.len(),
                forall|j: int| 0 <= j < i ==> self.rollups@[j].rollup_id != rollup_id,
            decreases self.rollups@.len() - i,
        {
            if self.rollups[i].rollup_id == rollup_id {
                let name = self.rollups[i].network_name.clone();
                self.rollups.set(
                    i,
                    RollupRow {
                        rollup_id,
                        network_name: name,
                        latest_synced_block: block as i64,
                    },
                );
                proof {
                    let rows = self.rollups@;
                    assert(rows[i as int].rollup_id == rollup_id);
                    assert(has_rollup(old(self).rollups@, rollup_id)) by {
                        assert(old(self).rollups@[i as int].rollup_id == rollup_id);
                    }
                    assert(has_rollup(rows, rollup_id));
                    let j0 = choose|j: int|
                        0 <= j < rows.len() && rows[j].rollup_id == rollup_id;
                    if j0 != i as int {
                        assert(rows[j0] == old(self).rollups@[j0]);
                        assert(old(self).rollups@[j0].rollup_id != old(
                            self,
                        ).rollups@[i as int].rollup_id);
                        assert(false);
                    }
                    assert(spec_last_indexed(rows, rollup_id) == block);
                    assert forall|j: int, k: int|
                        0 <= j < k < rows.len() implies rows[j].rollup_id != rows[k].rollup_id by {
                        if j != i as int {
                            assert(rows[j] == old(self).rollups@[j]);
                        }
                        if k != i as int {
                            assert(rows[k] == old(self).rollups@[k]);
                        }
                        assert(old(self).rollups@[j].rollup_id != old(self).rollups@[k].rollup_id);
                    }
                    let orows = old(self).rollups@;
                    assert forall|other: u32| other != rollup_id implies spec_last_indexed(
                        rows,
                        other,
                    ) == spec_last_indexed(orows, other) by {
                        if has_rollup(orows, other) {
                            let w = choose|w: int|
                                0 <= w < orows.len() && orows[w].rollup_id == other;
                            assert(w != i as int);
                            assert(rows[w] == orows[w]);
                            assert(has_rollup(rows, other));
                            let w2 = choose|w2: int|
                                0 <= w2 < rows.len() && rows[w2].rollup_id == other;
                            if w2 != w {
                                assert(rows[w2].rollup_id != rows[w].rollup_id);
                            }
                            let ow2 = choose|ow2: int|
                                0 <= ow2 < orows.len() && orows[ow2].rollup_id == other;
                            if ow2 != w {
                                assert(orows[ow2].rollup_id != orows[w].rollup_id);
                            }
                        } else {
                            if has_rollup(rows, other) {
                                let w2 = choose|w2: int|
                                    0 <= w2 < rows.len() && rows[w2].rollup_id == other;
                                assert(w2 != i as int);
                                assert(orows[w2].rollup_id == other);
                                assert(false);
                            }
                        }
                    }
                }
                return ;
            }
            i = i + 1;
        }
    }

    /// The distinct wrapped-token addresses recorded so far for a
    /// rollup, each exactly once, in no promised order.
    pub fn fetch_wrapped_tokens(&self, rollup_id: u32) -> (r: Vec<Vec<u8>>)
        ensures
            forall|i: int|
                0 <= i < r@.len() ==> token_from_table(
                    self.new_wrapped_token_events@,
                    rollup_id,
                    (#[trigger] r@[i])@,
                ),
            forall|j: int|
                0 <= j < self.new_wrapped_token_events@.len() && (
                #[trigger] self.new_wrapped_token_events@[j]).rollup_id == rollup_id
                    ==> addr_listed(r@, self.new_wrapped_token_events@[j].wrapped_token_address@),
            forall|i: int, k: int| 0 <= i < k < r@.len() ==> r@[i]@ != r@[k]@,
    {
        let mut out: Vec<Vec<u8>> = Vec::new();
        let mut j: usize = 0;
        while j < self.new_wrapped_token_events.len()
            invariant
                j <= self.new_wrapped_token_events@.len(),
                forall|i: int|
                    0 <= i < out@.len() ==> token_from_table(
                        self.new_wrapped_token_events@,
                        rollup_id,
                        (#[trigger] out@[i])@,
                    ),
                forall|m: int|
                    0 <= m < j && (#[trigger] self.new_wrapped_token_events@[m]).rollup_id
                        == rollup_id ==> addr_listed(
                        out@,
                        self.new_wrapped_token_events@[m].wrapped_token_address@,
                    ),
                forall|i: int, k: int| 0 <= i < k < out@.len() ==> out@[i]@ != out@[k]@,
            decreases self.new_wrapped_token_events@.len() - j,
        {
            if self.new_wrapped_token_events[j].rollup_id == rollup_id {
                let ghost pre = out@;
                let present = addr_list_contains(
                    &out,
                    &self.new_wrapped_token_events[j].wrapped_token_address,
                );
                if !present {
                    let src = &self.new_wrapped_token_events[j].wrapped_token_address;
                    let copy = crate::text::clone_bytes(src);
                    out.push(copy);
                    proof {
                        assert(forall|i: int| 0 <= i < pre.len() ==> out@[i] == pre[i]);
                        assert(out@.last()@ == src@);
                        assert forall|i: int| 0 <= i < out@.len() implies token_from_table(
                            self.new_wrapped_token_events@,
                            rollup_id,
                            (#[trigger] out@[i])@,
                        ) by {
                            if i < pre.len() {
                                assert(out@[i] == pre[i]);
                                assert(token_from_table(
                                    self.new_wrapped_token_events@,
                                    rollup_id,
                                    pre[i]@,
                                ));
                            } else {
                                assert(i == out@.len() - 1);
                                assert((self.new_wrapped_token_events@[j as int]).rollup_id
                                    == rollup_id && self.new_wrapped_token_events@[
                                j as int].wrapped_token_address@ == out@[i]@);
                            }
                        }
                    }
                }
                proof {
                    assert forall|m: int|
                        0 <= m <= j && (#[trigger] self.new_wrapped_token_events@[m]).rollup_id
                            == rollup_id implies addr_listed(
                        out@,
                        self.new_wrapped_token_events@[m].wrapped_token_address@,
                    ) by {
                        if m < j {
                            assert(addr_listed(
                                pre,
                                self.new_wrapped_token_events@[m].wrapped_token_address@,
                            ));
                            let w = choose|i: int|
                                0 <= i < pre.len() && pre[i]@
                                    == self.new_wrapped_token_events@[m].wrapped_token_address@;
                            assert(out@[w]@
                                == self.new_wrapped_token_events@[m].wrapped_token_address@);
                        } else {
                            if present {
                                let w = choose|i: int|
                                    0 <= i < pre.len() && pre[i]@
                                        == self.new_wrapped_token_events@[
                                    j as int].wrapped_token_address@;
                                assert(out@[w]@
                                    == self.new_wrapped_token_events@[
                                j as int].wrapped_token_address@);
                            } else {
                                assert(out@[out@.len() - 1]@
                                    == self.new_wrapped_token_events@[
                                j as int].wrapped_token_address@);
                            }
                        }
                    }
                }
            }
            j = j + 1;
        }
        out
    }
}

/// Some row of the table carries this rollup id and this wrapped-token
/// address.
pub open spec fn token_from_table(rows: Seq<WrappedTokenRow>, rid: u32, a: Seq<u8>) -> bool {
    exists|m: int|
        0 <= m < rows.len() && (#[trigger] rows[m]).rollup_id == rid
            && rows[m].wrapped_token_address@ == a
}

/// An address occurs in a list of addresses.
pub open spec fn addr_listed(list: Seq<Vec<u8>>, a: Seq<u8>) -> bool {
    exists|i: int| 0 <= i < list.len() && list[i]@ == a
}

/// Whether a list of addresses holds the given one.
pub fn addr_list_contains(list: &Vec<Vec<u8>>, a: &Vec<u8>) -> (r: bool)
    ensures
        r == addr_listed(list@, a@),
{
    let mut i: usize = 0;
    while i < list.len()
        invariant
            i <= list@.len(),
            forall|j: int| 0 <= j < i ==> list@[j]@ != a@,
        decreases list@.len() - i,
    {
        if bytes_eq(&list[i], a) {
            return true;
        }
        i = i + 1;
    }
    false
}

/// The checkpoint a reader sees for a rollup: the stored block, with a
/// missing row or a negative sentinel both reading as 0.
pub open spec fn spec_last_indexed(rows: Seq<RollupRow>, rid: u32) -> u64 {
    if has_rollup(rows, rid) {
        let j = choose|j: int| 0 <= j < rows.len() && rows[j].rollup_id == rid;
        if rows[j].latest_synced_block < 0 {
            0
        } else {
            rows[j].latest_synced_block as u64
        }
    } else {
        0
    }
}


// ---------------------------------------------------------------------
// Bridge-accounting aggregates over the transfer tables.
/// What one transfer row contributes to a token-flow balance: rows of
/// another rollup or token count nothing; a row whose `from` side is
/// the special address counts `from_sign` times its value, one whose
/// `to` side is the special address counts the opposite. The `from`
/// side is checked first, as the aggregation does.
pub open spec fn flow_delta(
    r: TransferRow,
    rid: u32,
    token: Seq<u8>,
    special: Seq<u8>,
    from_sign: int,
) -> int {
    if r.rollup_id == rid && r.token_address@ == token {
        if r.from_address@ == special {
            from_sign * (be_nat(r.value@) as int)
        } else if r.to_address@ == special {
            -from_sign * (be_nat(r.value@) as int)
        } else {
            0
        }
    } else {
        0
    }
}

/// A counted row's value must cast into a 128-bit signed integer; a
/// row that counts nothing is never cast.
pub open spec fn flow_delta_ok(r: TransferRow, rid: u32, token: Seq<u8>, special: Seq<u8>) -> bool {
    (r.rollup_id == rid && r.token_address@ == token && (r.from_address@ == special
        || r.to_address@ == special)) ==> (r.value@.len() == 32 && be_nat(r.value@)
        < 0x80000000000000000000000000000000)
}

/// The balance a row-by-row aggregation reaches: `None` as soon as a
/// counted value cannot be cast or the running sum leaves the 128-bit
/// signed range, which the store reports as a zero balance.
pub open spec fn flow_sum_checked(
    rows: Seq<TransferRow>,
    rid: u32,
    token: Seq<u8>,
    special: Seq<u8>,
    from_sign: int,
) -> Option<int>
    decreases rows.len(),
{
    if rows.len() == 0 {
        Some(0)
    } else {
        match flow_sum_checked(rows.drop_last(), rid, token, special, from_sign) {
            Some(s) => {
                if flow_delta_ok(rows.last(), rid, token, special) && i128::MIN <= s + flow_delta(
                    rows.last(),
                    rid,
                    token,
                    special,
                    from_sign,
                ) <= i128::MAX {
                    Some(s + flow_delta(rows.last(), rid, token, special, from_sign))
                } else {
                    None
                }
            },
            None => None,
        }
    }
}

/// The same balance as an unbounded integer.
pub open spec fn flow_sum(
    rows: Seq<TransferRow>,
    rid: u32,
    token: Seq<u8>,
    special: Seq<u8>,
    from_sign: int,
) -> int
    decreases rows.len(),
{
    if rows.len() == 0 {
        0
    } else {
        flow_sum(rows.drop_last(), rid, token, special, from_sign) + flow_delta(
            rows.last(),
            rid,
            token,
            special,
            from_sign,
        )
    }
}

/// Whenever the row-by-row aggregation completes, it computes exactly
/// the unbounded sum.
pub proof fn lemma_flow_sum_checked_agrees(
    rows: Seq<TransferRow>,
    rid: u32,
    token: Seq<u8>,
    special: Seq<u8>,
    from_sign: int,
)
    ensures
        flow_sum_checked(rows, rid, token, special, from_sign) matches Some(s) ==> s == flow_sum(
            rows,
            rid,
            token,
            special,
            from_sign,
        ),
    decreases rows.len(),
{
    if rows.len() > 0 {
        lemma_flow_sum_checked_agrees(rows.drop_last(), rid, token, special, from_sign);
    }
}

/// A prefix on which the aggregation has failed keeps it failed.
proof fn lemma_flow_sum_checked_none(
    rows: Seq<TransferRow>,
    rid: u32,
    token: Seq<u8>,
    special: Seq<u8>,
    from_sign: int,
    i: int,
    k: int,
)
    requires
        0 <= i <= k <= rows.len(),
        flow_sum_checked(rows.subrange(0, i), rid, token, special, from_sign) is None,
    ensures
        flow_sum_checked(rows.subrange(0, k), rid, token, special, from_sign) is None,
    decreases k - i,
{
    if k > i {
        lemma_flow_sum_checked_none(rows, rid, token, special, from_sign, i, k - 1);
        assert(rows.subrange(0, k).drop_last() =~= rows.subrange(0, k - 1));
        assert(rows.subrange(0, k).len() > 0);
    }
}

impl Database {
    fn flow_balance(
        rows: &Vec<TransferRow>,
        rid: u32,
        token: &Vec<u8>,
        special: &Vec<u8>,
        from_positive: bool,
    ) -> (r: String)
        ensures
            r@ == ascii_chars(
                match flow_sum_checked(rows@, rid, token@, special@, if from_positive {
                    1int
                } else {
                    -1int
                }) {
                    Some(s) => sdec_bytes(s),
                    None => sdec_bytes(0),
                },
            ),
    {
        let ghost sign: int = if from_positive { 1int } else { -1int };
        let mut acc: i128 = 0;
        let mut failed: bool = false;
        let mut i: usize = 0;
        while i < rows.len()
            invariant
                i <= rows@.len(),
                !failed ==> flow_sum_checked(rows@.subrange(0, i as int), rid, token@, special@, sign)
                    == Some(acc as int),
                failed ==> flow_sum_checked(rows@.subrange(0, i as int), rid, token@, special@, sign)
                    is None,
                sign == if from_positive { 1int } else { -1int },
            decreases rows@.len() - i,
        {
            let ghost pre = rows@.subrange(0, i as int);
            proof {
                assert(rows@.subrange(0, i + 1 as int).drop_last() =~= pre);
                assert(rows@.subrange(0, i + 1 as int).last() == rows@[i as int]);
            }
            if !failed {
                let row = &rows[i];
                if row.rollup_id == rid && bytes_eq(&row.token_address, token) {
                    let from_special = bytes_eq(&row.from_address, special);
                    let to_special = bytes_eq(&row.to_address, special);
                    if from_special || to_special {
                        if row.value.len() != 32 {
                            failed = true;
                        } else {
                            match crate::text::be_bytes_to_u128(&row.value) {
                                Option::None => {
                                    failed = true;
                                },
                                Option::Some(v) => {
                                    if v >= 0x80000000000000000000000000000000u128 {
                                        failed = true;
                                    } else {
                                        let signed: i128 = v as i128;
                                        let positive: bool = if from_special {
                                            from_positive
                                        } else {
                                            !from_positive
                                        };
                                        let stepped: Option<i128> = if positive {
                                            acc.checked_add(signed)
                                        } else {
                                            acc.checked_sub(signed)
                                        };
                                        match stepped {
                                            Option::None => {
                                                failed = true;
                                            },
                                            Option::Some(next) => {
                                                acc = next;
                                            },
                                        }
                                    }
                                },
                            }
                        }
                    } else {
                        proof {
                            assert(flow_delta(rows@[i as int], rid, token@, special@, sign) == 0);
                        }
                    }
                } else {
                    proof {
                        assert(flow_delta(rows@[i as int], rid, token@, special@, sign) == 0);
                    }
                }
                proof {
                    if failed {
                        assert(flow_sum_checked(
                            rows@.subrange(0, i + 1 as int),
                            rid,
                            token@,
                            special@,
                            sign,
                        ) is None);
                    }
                }
            } else {
                proof {
                    assert(flow_sum_checked(
                        rows@.subrange(0, i + 1 as int),
                        rid,
                        token@,
                        special@,
                        sign,
                    ) is None);
                }
            }
            i = i + 1;
        }
        proof {
            assert(rows@.subrange(0, rows@.len() as int) =~= rows@);
        }
        if failed {
            let r = crate::utils::sdec_string_of_i128(0);
            return r;
        }
        crate::utils::sdec_string_of_i128(acc)
    }

    /// Circulating supply of a wrapped token on a rollup: mints minus
    /// burns over `wrapped_transfer_events`, reported as a decimal
    /// string, with a failed aggregation reading as zero.
    pub fn wrapped_balance(&self, rollup_id: u32, token_address: &Vec<u8>) -> (r: String)
        ensures
            r@ == ascii_chars(
                match flow_sum_checked(
                    self.wrapped_transfer_events@,
                    rollup_id,
                    token_address@,
                    crate::utils::zero_address(),
                    1int,
                ) {
                    Some(s) => sdec_bytes(s),
                    None => sdec_bytes(0),
                },
            ),
    {
        let zero = crate::utils::zero_address_bytes();
        Self::flow_balance(&self.wrapped_transfer_events, rollup_id, token_address, &zero, true)
    }

    /// Balance a token has accumulated in the bridge contract: inflows
    /// minus outflows over `bridge_transfer_events`, the bridge being
    /// the hard-coded settlement-layer address.
    pub fn bridge_balance(&self, rollup_id: u32, token_address: &Vec<u8>) -> (r: String)
        ensures
            r@ == ascii_chars(
                match flow_sum_checked(
                    self.bridge_transfer_events@,
                    rollup_id,
                    token_address@,
                    crate::utils::l1_bridge_address(),
                    -1int,
                ) {
                    Some(s) => sdec_bytes(s),
                    None => sdec_bytes(0),
                },
            ),
    {
        let bridge = crate::utils::l1_bridge_address_bytes();
        Self::flow_balance(&self.bridge_transfer_events, rollup_id, token_address, &bridge, false)
    }
}

/// Total minted for a token: the sum of the values of its mint rows.
pub open spec fn wrapped_minted(rows: Seq<TransferRow>, rid: u32, token: Seq<u8>) -> int
    decreases rows.len(),
{
    if rows.len() == 0 {
        0
    } else {
        wrapped_minted(rows.drop_last(), rid, token) + (if rows.last().rollup_id == rid
            && rows.last().token_address@ == token && rows.last().from_address@
            == crate::utils::zero_address() {
            be_nat(rows.last().value@) as int
        } else {
            0
        })
    }
}

/// Total burned for a token: the sum of the values of its burn rows.
pub open spec fn wrapped_burned(rows: Seq<TransferRow>, rid: u32, token: Seq<u8>) -> int
    decreases rows.len(),
{
    if rows.len() == 0 {
        0
    } else {
        wrapped_burned(rows.drop_last(), rid, token) + (if rows.last().rollup_id == rid
            && rows.last().token_address@ == token && rows.last().from_address@
            != crate::utils::zero_address() && rows.last().to_address@
            == crate::utils::zero_address() {
            be_nat(rows.last().value@) as int
        } else {
            0
        })
    }
}

/// The circulating supply is exactly what was minted less what was
/// burned.
pub proof fn lemma_wrapped_supply_decomposes(rows: Seq<TransferRow>, rid: u32, token: Seq<u8>)
    ensures
        flow_sum(rows, rid, token, crate::utils::zero_address(), 1int) == wrapped_minted(
            rows,
            rid,
            token,
        ) - wrapped_burned(rows, rid, token),
    decreases rows.len(),
{
    if rows.len() > 0 {
        lemma_wrapped_supply_decomposes(rows.drop_last(), rid, token);
    }
}

/// With well-formed inputs — no token burned beyond what was minted —
/// the circulating supply is never negative.
pub proof fn lemma_wrapped_supply_nonnegative(rows: Seq<TransferRow>, rid: u32, token: Seq<u8>)
    requires
        wrapped_burned(rows, rid, token) <= wrapped_minted(rows, rid, token),
    ensures
        flow_sum(rows, rid, token, crate::utils::zero_address(), 1int) >= 0,
{
    lemma_wrapped_supply_decomposes(rows, rid, token);
}

} // verus!
