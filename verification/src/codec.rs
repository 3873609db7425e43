//! Event codec: decodes raw bridge-contract logs into typed records.
//!
//! A raw log is matched against the known event signatures in a fixed
//! order — deposit, legacy claim, current claim, wrapped-token creation,
//! then the recognised-but-discarded administrative events — and the
//! first match is decoded from the log's canonically ABI-encoded data
//! words. ERC-20 `Transfer` logs are decoded separately since they come
//! from token contracts rather than the bridge. Encodings are accepted
//! in their canonical form only: integer words must carry zero padding
//! and dynamic `bytes` fields must sit at their standard head offset.

use crate::text::{be_nat, bytes_eq};
use vstd::arithmetic::div_mod::lemma_fundamental_div_mod;
use vstd::prelude::*;

verus! {

/// A raw EVM log as a chain client hands it over: the emitting contract,
/// the indexed topics, the data payload, and the log's position.
#[derive(Clone)]
pub struct RawLog {
    pub address: Vec<u8>,
    pub topics: Vec<Vec<u8>>,
    pub data: Vec<u8>,
    pub tx_hash: Vec<u8>,
    pub block_hash: Vec<u8>,
    pub block_number: u64,
    pub tx_index: u64,
    pub log_index: u64,
}

impl RawLog {
    /// Shape every log from a JSON-RPC endpoint has: a 20-byte address,
    /// 32-byte topics and 32-byte hashes.
    pub open spec fn wf(self) -> bool {
        &&& self.address@.len() == 20
        &&& forall|i: int|
            0 <= i < self.topics@.len() ==> (#[trigger] self.topics@[i])@.len() == 32
        &&& self.tx_hash@.len() == 32
        &&& self.block_hash@.len() == 32
    }

    /// The topics as mathematical byte strings.
    pub open spec fn topics_view(self) -> Seq<Seq<u8>> {
        self.topics@.map_values(|t: Vec<u8>| t@)
    }
}

/// A decoded bridge-contract event, tagged by schema. `Ignored` stands
/// for the administrative events that are recognised and discarded;
/// `Unknown` for a log no decoder accepts, which a worker treats as
/// fatal schema drift.
pub enum Decoded {
    Bridge {
        leaf_type: u8,
        origin_network: u32,
        origin_address: Vec<u8>,
        destination_network: u32,
        destination_address: Vec<u8>,
        amount: Vec<u8>,
        metadata: Vec<u8>,
        deposit_count: u32,
    },
    ClaimV1 {
        index: u32,
        origin_network: u32,
        origin_address: Vec<u8>,
        destination_address: Vec<u8>,
        amount: Vec<u8>,
    },
    ClaimV2 {
        global_index: Vec<u8>,
        origin_network: u32,
        origin_address: Vec<u8>,
        destination_address: Vec<u8>,
        amount: Vec<u8>,
    },
    Wrapped {
        origin_network: u32,
        origin_token_address: Vec<u8>,
        wrapped_token_address: Vec<u8>,
        metadata: Vec<u8>,
    },
    Ignored,
    Unknown,
}

/// Mathematical image of a decoded event; addresses and 256-bit values
/// appear as byte strings.
pub enum DecodedView {
    Bridge {
        leaf_type: u8,
        origin_network: u32,
        origin_address: Seq<u8>,
        destination_network: u32,
        destination_address: Seq<u8>,
        amount: Seq<u8>,
        metadata: Seq<u8>,
        deposit_count: u32,
    },
    ClaimV1 {
        index: u32,
        origin_network: u32,
        origin_address: Seq<u8>,
        destination_address: Seq<u8>,
        amount: Seq<u8>,
    },
    ClaimV2 {
        global_index: Seq<u8>,
        origin_network: u32,
        origin_address: Seq<u8>,
        destination_address: Seq<u8>,
        amount: Seq<u8>,
    },
    Wrapped {
        origin_network: u32,
        origin_token_address: Seq<u8>,
        wrapped_token_address: Seq<u8>,
        metadata: Seq<u8>,
    },
    Ignored,
    Unknown,
}

impl View for Decoded {
    type V = DecodedView;

    open spec fn view(&self) -> DecodedView {
        match self {
            Decoded::Bridge {
                leaf_type,
                origin_network,
                origin_address,
                destination_network,
                destination_address,
                amount,
                metadata,
                deposit_count,
            } => DecodedView::Bridge {
                leaf_type: *leaf_type,
                origin_network: *origin_network,
                origin_address: origin_address@,
                destination_network: *destination_network,
                destination_address: destination_address@,
                amount: amount@,
                metadata: metadata@,
                deposit_count: *deposit_count,
            },
            Decoded::ClaimV1 { index, origin_network, origin_address, destination_address, amount } => DecodedView::ClaimV1 {
                index: *index,
                origin_network: *origin_network,
                origin_address: origin_address@,
                destination_address: destination_address@,
                amount: amount@,
            },
            Decoded::ClaimV2 {
                global_index,
                origin_network,
                origin_address,
                destination_address,
                amount,
            } => DecodedView::ClaimV2 {
                global_index: global_index@,
                origin_network: *origin_network,
                origin_address: origin_address@,
                destination_address: destination_address@,
                amount: amount@,
            },
            Decoded::Wrapped {
                origin_network,
                origin_token_address,
                wrapped_token_address,
                metadata,
            } => DecodedView::Wrapped {
                origin_network: *origin_network,
                origin_token_address: origin_token_address@,
                wrapped_token_address: wrapped_token_address@,
                metadata: metadata@,
            },
            Decoded::Ignored => DecodedView::Ignored,
            Decoded::Unknown => DecodedView::Unknown,
        }
    }
}

/// An ERC-20 `Transfer(address,address,uint256)` event.
pub struct Transfer {
    pub from_address: Vec<u8>,
    pub to_address: Vec<u8>,
    pub value: Vec<u8>,
}

pub struct TransferView {
    pub from_address: Seq<u8>,
    pub to_address: Seq<u8>,
    pub value: Seq<u8>,
}

impl View for Transfer {
    type V = TransferView;

    open spec fn view(&self) -> TransferView {
        TransferView {
            from_address: self.from_address@,
            to_address: self.to_address@,
            value: self.value@,
        }
    }
}

// ---------------------------------------------------------------------
// ABI word helpers.
/// The unused high bytes of the `k`-th data word are zero, as the
/// canonical encoding of an `nb`-byte-wide unsigned value demands.
pub open spec fn uint_bytes_ok(d: Seq<u8>, k: int, nb: int) -> bool {
    forall|i: int| 32 * k <= i < 32 * k + 32 - nb ==> d[i] == 0
}

/// The 32-bit value carried in the `k`-th data word.
pub open spec fn word_u32(d: Seq<u8>, k: int) -> nat {
    be_nat(d.subrange(32 * k + 28, 32 * k + 32))
}

/// The address carried in the `k`-th data word.
pub open spec fn word_addr(d: Seq<u8>, k: int) -> Seq<u8> {
    d.subrange(32 * k + 12, 32 * k + 32)
}

/// The `k`-th data word whole, as a 256-bit value's 32 bytes.
pub open spec fn word_full(d: Seq<u8>, k: int) -> Seq<u8> {
    d.subrange(32 * k, 32 * k + 32)
}

/// Length of a dynamic `bytes` payload padded up to whole words.
pub open spec fn pad32(n: nat) -> nat {
    ((n + 31) / 32) * 32
}

proof fn lemma_pad32_ge(n: nat)
    ensures
        pad32(n) >= n,
{
    lemma_fundamental_div_mod(n as int + 31, 32);
}

fn zeros_in(v: &Vec<u8>, start: usize, end: usize) -> (r: bool)
    requires
        start <= end <= v@.len(),
    ensures
        r == (forall|i: int| start <= i < end ==> v@[i] == 0),
{
    let mut k: usize = start;
    while k < end
        invariant
            start <= k <= end,
            end <= v@.len(),
            forall|i: int| start <= i < k ==> v@[i] == 0,
        decreases end - k,
    {
        if v[k] != 0 {
            return false;
        }
        k = k + 1;
    }
    true
}

fn copy_range(v: &Vec<u8>, start: usize, len: usize) -> (r: Vec<u8>)
    requires
        start + len <= v@.len(),
    ensures
        r@ == v@.subrange(start as int, start as int + len as int),
{
    let n = v.len();
    let mut out: Vec<u8> = Vec::new();
    let mut i: usize = 0;
    while i < len
        invariant
            i <= len,
            n == v@.len(),
            start + len <= n,
            out@ == v@.subrange(start as int, start as int + i as int),
        decreases len - i,
    {
        out.push(v[start + i]);
        proof {
            assert(out@ =~= v@.subrange(start as int, start as int + i as int + 1));
        }
        i = i + 1;
    }
    out
}

fn be_u32_at(v: &Vec<u8>, off: usize) -> (r: u32)
    requires
        off + 4 <= v@.len(),
    ensures
        r as nat == be_nat(v@.subrange(off as int, off as int + 4)),
{
    let n = v.len();
    assert(off + 4 <= n);
    let b0 = v[off] as u32;
    let b1 = v[off + 1] as u32;
    let b2 = v[off + 2] as u32;
    let b3 = v[off + 3] as u32;
    let r = ((b0 * 256 + b1) * 256 + b2) * 256 + b3;
    proof {
        let o = off as int;
        let s1 = v@.subrange(o, o + 1);
        let s2 = v@.subrange(o, o + 2);
        let s3 = v@.subrange(o, o + 3);
        let s4 = v@.subrange(o, o + 4);
        assert(s1.drop_last() =~= Seq::<u8>::empty());
        assert(s2.drop_last() =~= s1);
        assert(s3.drop_last() =~= s2);
        assert(s4.drop_last() =~= s3);
        assert(be_nat(Seq::<u8>::empty()) == 0);
        assert(be_nat(s1) == v@[o]);
        assert(be_nat(s2) == be_nat(s1) * 256 + v@[o + 1]);
        assert(be_nat(s3) == be_nat(s2) * 256 + v@[o + 2]);
        assert(be_nat(s4) == be_nat(s3) * 256 + v@[o + 3]);
    }
    r
}

// ---------------------------------------------------------------------
// Event shapes and fields over canonical ABI data.
/// `BridgeEvent(uint8 leafType, uint32 originNetwork, address
/// originAddress, uint32 destinationNetwork, address destinationAddress,
/// uint256 amount, bytes metadata, uint32 depositCount)`: eight head
/// words with the metadata tail at its canonical offset.
pub open spec fn bridge_shape(d: Seq<u8>) -> bool {
    &&& d.len() >= 288
    &&& uint_bytes_ok(d, 0, 1)
    &&& uint_bytes_ok(d, 1, 4)
    &&& uint_bytes_ok(d, 2, 20)
    &&& uint_bytes_ok(d, 3, 4)
    &&& uint_bytes_ok(d, 4, 20)
    &&& uint_bytes_ok(d, 6, 4)
    &&& word_u32(d, 6) == 256
    &&& uint_bytes_ok(d, 7, 4)
    &&& uint_bytes_ok(d, 8, 4)
    &&& d.len() == 288 + pad32(word_u32(d, 8))
}

pub open spec fn bridge_fields(d: Seq<u8>) -> DecodedView {
    DecodedView::Bridge {
        leaf_type: d[31],
        origin_network: word_u32(d, 1) as u32,
        origin_address: word_addr(d, 2),
        destination_network: word_u32(d, 3) as u32,
        destination_address: word_addr(d, 4),
        amount: word_full(d, 5),
        metadata: d.subrange(288, 288 + word_u32(d, 8) as int),
        deposit_count: word_u32(d, 7) as u32,
    }
}

/// `ClaimEvent(uint32 index, uint32 originNetwork, address
/// originAddress, address destinationAddress, uint256 amount)` — the
/// legacy claim shape.
pub open spec fn claim_v1_shape(d: Seq<u8>) -> bool {
    &&& d.len() == 160
    &&& uint_bytes_ok(d, 0, 4)
    &&& uint_bytes_ok(d, 1, 4)
    &&& uint_bytes_ok(d, 2, 20)
    &&& uint_bytes_ok(d, 3, 20)
}

pub open spec fn claim_v1_fields(d: Seq<u8>) -> DecodedView {
    DecodedView::ClaimV1 {
        index: word_u32(d, 0) as u32,
        origin_network: word_u32(d, 1) as u32,
        origin_address: word_addr(d, 2),
        destination_address: word_addr(d, 3),
        amount: word_full(d, 4),
    }
}

/// `ClaimEvent(uint256 globalIndex, uint32 originNetwork, address
/// originAddress, address destinationAddress, uint256 amount)` — the
/// current claim shape.
pub open spec fn claim_v2_shape(d: Seq<u8>) -> bool {
    &&& d.len() == 160
    &&& uint_bytes_ok(d, 1, 4)
    &&& uint_bytes_ok(d, 2, 20)
    &&& uint_bytes_ok(d, 3, 20)
}

pub open spec fn claim_v2_fields(d: Seq<u8>) -> DecodedView {
    DecodedView::ClaimV2 {
        global_index: word_full(d, 0),
        origin_network: word_u32(d, 1) as u32,
        origin_address: word_addr(d, 2),
        destination_address: word_addr(d, 3),
        amount: word_full(d, 4),
    }
}

/// `NewWrappedToken(uint32 originNetwork, address originTokenAddress,
/// address wrappedTokenAddress, bytes metadata)`.
pub open spec fn wrapped_shape(d: Seq<u8>) -> bool {
    &&& d.len() >= 160
    &&& uint_bytes_ok(d, 0, 4)
    &&& uint_bytes_ok(d, 1, 20)
    &&& uint_bytes_ok(d, 2, 20)
    &&& uint_bytes_ok(d, 3, 4)
    &&& word_u32(d, 3) == 128
    &&& uint_bytes_ok(d, 4, 4)
    &&& d.len() == 160 + pad32(word_u32(d, 4))
}

pub open spec fn wrapped_fields(d: Seq<u8>) -> DecodedView {
    DecodedView::Wrapped {
        origin_network: word_u32(d, 0) as u32,
        origin_token_address: word_addr(d, 1),
        wrapped_token_address: word_addr(d, 2),
        metadata: d.subrange(160, 160 + word_u32(d, 4) as int),
    }
}

/// What decoding a bridge-contract log yields: the decoders are tried
/// in order and distinguish themselves by the signature topic, so a log
/// whose topic matches no known event — or whose data does not fit the
/// matched event's canonical encoding — is `Unknown`.
pub open spec fn spec_decode(topics: Seq<Seq<u8>>, d: Seq<u8>) -> DecodedView {
    if topics.len() == 1 {
        let t0 = topics[0];
        if t0 == bridge_event_topic() {
            if bridge_shape(d) {
                bridge_fields(d)
            } else {
                DecodedView::Unknown
            }
        } else if t0 == claim_v1_topic() {
            if claim_v1_shape(d) {
                claim_v1_fields(d)
            } else {
                DecodedView::Unknown
            }
        } else if t0 == claim_v2_topic() {
            if claim_v2_shape(d) {
                claim_v2_fields(d)
            } else {
                DecodedView::Unknown
            }
        } else if t0 == new_wrapped_token_topic() {
            if wrapped_shape(d) {
                wrapped_fields(d)
            } else {
                DecodedView::Unknown
            }
        } else if t0 == emergency_activated_topic() || t0 == emergency_deactivated_topic() {
            if d.len() == 0 {
                DecodedView::Ignored
            } else {
                DecodedView::Unknown
            }
        } else if t0 == initialized_topic() {
            if d.len() == 32 && uint_bytes_ok(d, 0, 1) {
                DecodedView::Ignored
            } else {
                DecodedView::Unknown
            }
        } else if t0 == admin_changed_topic() {
            if d.len() == 64 && uint_bytes_ok(d, 0, 20) && uint_bytes_ok(d, 1, 20) {
                DecodedView::Ignored
            } else {
                DecodedView::Unknown
            }
        } else {
            DecodedView::Unknown
        }
    } else if topics.len() == 2 {
        if topics[0] == upgraded_topic() && (forall|i: int| 0 <= i < 12 ==> topics[1][i] == 0)
            && d.len() == 0 {
            DecodedView::Ignored
        } else {
            DecodedView::Unknown
        }
    } else {
        DecodedView::Unknown
    }
}

fn try_bridge(log: &RawLog) -> (r: Decoded)
    requires
        log.wf(),
    ensures
        r@ == (if bridge_shape(log.data@) {
            bridge_fields(log.data@)
        } else {
            DecodedView::Unknown
        }),
{
    let d = &log.data;
    if d.len() < 288 {
        return Decoded::Unknown;
    }
    if !zeros_in(d, 0, 31) || !zeros_in(d, 32, 60) || !zeros_in(d, 64, 76) || !zeros_in(d, 96, 124)
        || !zeros_in(d, 128, 140) || !zeros_in(d, 192, 220) || !zeros_in(d, 224, 252) || !zeros_in(
        d,
        256,
        284,
    ) {
        return Decoded::Unknown;
    }
    if be_u32_at(d, 220) != 256 {
        return Decoded::Unknown;
    }
    let len = be_u32_at(d, 284);
    let pad: u64 = ((len as u64 + 31) / 32) * 32;
    if d.len() as u64 != 288 + pad {
        return Decoded::Unknown;
    }
    proof {
        lemma_pad32_ge(len as nat);
    }
    Decoded::Bridge {
        leaf_type: d[31],
        origin_network: be_u32_at(d, 60),
        origin_address: copy_range(d, 76, 20),
        destination_network: be_u32_at(d, 124),
        destination_address: copy_range(d, 140, 20),
        amount: copy_range(d, 160, 32),
        metadata: copy_range(d, 288, len as usize),
        deposit_count: be_u32_at(d, 252),
    }
}

fn try_claim_v1(log: &RawLog) -> (r: Decoded)
    requires
        log.wf(),
    ensures
        r@ == (if claim_v1_shape(log.data@) {
            claim_v1_fields(log.data@)
        } else {
            DecodedView::Unknown
        }),
{
    let d = &log.data;
    if d.len() != 160 {
        return Decoded::Unknown;
    }
    if !zeros_in(d, 0, 28) || !zeros_in(d, 32, 60) || !zeros_in(d, 64, 76) || !zeros_in(
        d,
        96,
        108,
    ) {
        return Decoded::Unknown;
    }
    Decoded::ClaimV1 {
        index: be_u32_at(d, 28),
        origin_network: be_u32_at(d, 60),
        origin_address: copy_range(d, 76, 20),
        destination_address: copy_range(d, 108, 20),
        amount: copy_range(d, 128, 32),
    }
}

fn try_claim_v2(log: &RawLog) -> (r: Decoded)
    requires
        log.wf(),
    ensures
        r@ == (if claim_v2_shape(log.data@) {
            claim_v2_fields(log.data@)
        } else {
            DecodedView::Unknown
        }),
{
    let d = &log.data;
    if d.len() != 160 {
        return Decoded::Unknown;
    }
    if !zeros_in(d, 32, 60) || !zeros_in(d, 64, 76) || !zeros_in(d, 96, 108) {
        return Decoded::Unknown;
    }
    Decoded::ClaimV2 {
        global_index: copy_range(d, 0, 32),
        origin_network: be_u32_at(d, 60),
        origin_address: copy_range(d, 76, 20),
        destination_address: copy_range(d, 108, 20),
        amount: copy_range(d, 128, 32),
    }
}

fn try_wrapped(log: &RawLog) -> (r: Decoded)
    requires
        log.wf(),
    ensures
        r@ == (if wrapped_shape(log.data@) {
            wrapped_fields(log.data@)
        } else {
            DecodedView::Unknown
        }),
{
    let d = &log.data;
    if d.len() < 160 {
        return Decoded::Unknown;
    }
    if !zeros_in(d, 0, 28) || !zeros_in(d, 32, 44) || !zeros_in(d, 64, 76) || !zeros_in(
        d,
        96,
        124,
    ) || !zeros_in(d, 128, 156) {
        return Decoded::Unknown;
    }
    if be_u32_at(d, 124) != 128 {
        return Decoded::Unknown;
    }
    let len = be_u32_at(d, 156);
    let pad: u64 = ((len as u64 + 31) / 32) * 32;
    if d.len() as u64 != 160 + pad {
        return Decoded::Unknown;
    }
    proof {
        lemma_pad32_ge(len as nat);
    }
    Decoded::Wrapped {
        origin_network: be_u32_at(d, 28),
        origin_token_address: copy_range(d, 44, 20),
        wrapped_token_address: copy_range(d, 76, 20),
        metadata: copy_range(d, 160, len as usize),
    }
}

/// Decode one log emitted by a bridge contract, trying the known events
/// in order.
pub fn decode_bridge_log(log: &RawLog) -> (r: Decoded)
    requires
        log.wf(),
    ensures
        r@ == spec_decode(log.topics_view(), log.data@),
{
    proof {
        assert(log.topics_view().len() == log.topics@.len());
        if log.topics@.len() >= 1 {
            assert(log.topics_view()[0] == log.topics@[0]@);
        }
        if log.topics@.len() >= 2 {
            assert(log.topics_view()[1] == log.topics@[1]@);
        }
    }
    if log.topics.len() == 1 {
        let t0 = &log.topics[0];
        if bytes_eq(t0, &bridge_event_topic_bytes()) {
            try_bridge(log)
        } else if bytes_eq(t0, &claim_v1_topic_bytes()) {
            try_claim_v1(log)
        } else if bytes_eq(t0, &claim_v2_topic_bytes()) {
            try_claim_v2(log)
        } else if bytes_eq(t0, &new_wrapped_token_topic_bytes()) {
            try_wrapped(log)
        } else if bytes_eq(t0, &emergency_activated_topic_bytes()) || bytes_eq(
            t0,
            &emergency_deactivated_topic_bytes(),
        ) {
            if log.data.len() == 0 {
                Decoded::Ignored
            } else {
                Decoded::Unknown
            }
        } else if bytes_eq(t0, &initialized_topic_bytes()) {
            if log.data.len() == 32 && zeros_in(&log.data, 0, 31) {
                Decoded::Ignored
            } else {
                Decoded::Unknown
            }
        } else if bytes_eq(t0, &admin_changed_topic_bytes()) {
            if log.data.len() == 64 && zeros_in(&log.data, 0, 12) && zeros_in(&log.data, 32, 44) {
                Decoded::Ignored
            } else {
                Decoded::Unknown
            }
        } else {
            Decoded::Unknown
        }
    } else if log.topics.len() == 2 {
        if bytes_eq(&log.topics[0], &upgraded_topic_bytes()) && zeros_in(&log.topics[1], 0, 12)
            && log.data.len() == 0 {
            Decoded::Ignored
        } else {
            Decoded::Unknown
        }
    } else {
        Decoded::Unknown
    }
}

/// The shape of a canonical ERC-20 `Transfer` log: the signature topic
/// plus the two indexed addresses, and a single value word of data.
pub open spec fn transfer_shape(topics: Seq<Seq<u8>>, d: Seq<u8>) -> bool {
    &&& topics.len() == 3
    &&& topics[0] == transfer_topic()
    &&& forall|i: int| 0 <= i < 12 ==> topics[1][i] == 0
    &&& forall|i: int| 0 <= i < 12 ==> topics[2][i] == 0
    &&& d.len() == 32
}

pub open spec fn transfer_fields(topics: Seq<Seq<u8>>, d: Seq<u8>) -> TransferView {
    TransferView {
        from_address: topics[1].subrange(12, 32),
        to_address: topics[2].subrange(12, 32),
        value: d,
    }
}

/// Decode one ERC-20 `Transfer` log. `None` marks a malformed log; in
/// the bridge-flow pass those are logged and skipped, not fatal.
pub fn decode_transfer(log: &RawLog) -> (r: Option<Transfer>)
    requires
        log.wf(),
    ensures
        match r {
            Some(t) => transfer_shape(log.topics_view(), log.data@) && t@ == transfer_fields(
                log.topics_view(),
                log.data@,
            ),
            None => !transfer_shape(log.topics_view(), log.data@),
        },
{
    proof {
        assert(log.topics_view().len() == log.topics@.len());
        if log.topics@.len() >= 3 {
            assert(log.topics_view()[0] == log.topics@[0]@);
            assert(log.topics_view()[1] == log.topics@[1]@);
            assert(log.topics_view()[2] == log.topics@[2]@);
        }
    }
    if log.topics.len() != 3 {
        return None;
    }
    if !bytes_eq(&log.topics[0], &transfer_topic_bytes()) {
        return None;
    }
    if !zeros_in(&log.topics[1], 0, 12) || !zeros_in(&log.topics[2], 0, 12) {
        return None;
    }
    if log.data.len() != 32 {
        return None;
    }
    proof {
        assert(log.data@.subrange(0, 32) =~= log.data@);
    }
    Some(
        Transfer {
            from_address: copy_range(&log.topics[1], 12, 20),
            to_address: copy_range(&log.topics[2], 12, 20),
            value: copy_range(&log.data, 0, 32),
        },
    )
}

// ---------------------------------------------------------------------
// Event signature topics (keccak-256 of each event's signature).
/// Keccak-256 of `BridgeEvent(uint8,uint32,address,uint32,address,uint256,bytes,uint32)`.
pub open spec fn bridge_event_topic() -> Seq<u8> {
    seq![0x50u8, 0x17, 0x81, 0x20, 0x9a, 0x1f, 0x88, 0x99, 0x32, 0x3b, 0x96, 0xb4, 0xef, 0x08, 0xb1, 0x68, 0xdf, 0x93, 0xe0, 0xa9, 0x0c, 0x67, 0x3d, 0x1e, 0x4c, 0xce, 0x39, 0x36, 0x6c, 0xb6, 0x2f, 0x9b]
}

pub fn bridge_event_topic_bytes() -> (r: Vec<u8>)
    ensures
        r@ == bridge_event_topic(),
{
    let v: Vec<u8> = vec![0x50, 0x17, 0x81, 0x20, 0x9a, 0x1f, 0x88, 0x99, 0x32, 0x3b, 0x96, 0xb4, 0xef, 0x08, 0xb1, 0x68, 0xdf, 0x93, 0xe0, 0xa9, 0x0c, 0x67, 0x3d, 0x1e, 0x4c, 0xce, 0x39, 0x36, 0x6c, 0xb6, 0x2f, 0x9b];
    proof {
        assert(v@ =~= bridge_event_topic());
    }
    v
}

/// Keccak-256 of `ClaimEvent(uint32,uint32,address,address,uint256)`.
pub open spec fn claim_v1_topic() -> Seq<u8> {
    seq![0x25u8, 0x30, 0x8c, 0x93, 0xce, 0xee, 0xd1, 0x62, 0xda, 0x95, 0x5b, 0x3f, 0x7c, 0xe3, 0xe3, 0xf9, 0x36, 0x06, 0x57, 0x9e, 0x40, 0xfb, 0x92, 0x02, 0x9f, 0xaa, 0x9e, 0xfe, 0x27, 0x54, 0x59, 0x83]
}

pub fn claim_v1_topic_bytes() -> (r: Vec<u8>)
    ensures
        r@ == claim_v1_topic(),
{
    let v: Vec<u8> = vec![0x25, 0x30, 0x8c, 0x93, 0xce, 0xee, 0xd1, 0x62, 0xda, 0x95, 0x5b, 0x3f, 0x7c, 0xe3, 0xe3, 0xf9, 0x36, 0x06, 0x57, 0x9e, 0x40, 0xfb, 0x92, 0x02, 0x9f, 0xaa, 0x9e, 0xfe, 0x27, 0x54, 0x59, 0x83];
    proof {
        assert(v@ =~= claim_v1_topic());
    }
    v
}

/// Keccak-256 of `ClaimEvent(uint256,uint32,address,address,uint256)`.
pub open spec fn claim_v2_topic() -> Seq<u8> {
    seq![0x1du8, 0xf3, 0xf2, 0xa9, 0x73, 0xa0, 0x0d, 0x66, 0x35, 0x91, 0x17, 0x55, 0xc2, 0x60, 0x70, 0x4e, 0x95, 0xe8, 0xa5, 0x87, 0x69, 0x97, 0x54, 0x67, 0x98, 0x77, 0x0f, 0x76, 0x39, 0x6f, 0xda, 0x4d]
}

pub fn claim_v2_topic_bytes() -> (r: Vec<u8>)
    ensures
        r@ == claim_v2_topic(),
{
    let v: Vec<u8> = vec![0x1d, 0xf3, 0xf2, 0xa9, 0x73, 0xa0, 0x0d, 0x66, 0x35, 0x91, 0x17, 0x55, 0xc2, 0x60, 0x70, 0x4e, 0x95, 0xe8, 0xa5, 0x87, 0x69, 0x97, 0x54, 0x67, 0x98, 0x77, 0x0f, 0x76, 0x39, 0x6f, 0xda, 0x4d];
    proof {
        assert(v@ =~= claim_v2_topic());
    }
    v
}

/// Keccak-256 of `NewWrappedToken(uint32,address,address,bytes)`.
pub open spec fn new_wrapped_token_topic() -> Seq<u8> {
    seq![0x49u8, 0x0e, 0x59, 0xa1, 0x70, 0x1b, 0x93, 0x87, 0x86, 0xac, 0x72, 0x57, 0x0a, 0x1e, 0xfe, 0xac, 0x99, 0x4a, 0x3d, 0xbe, 0x96, 0xe2, 0xe8, 0x83, 0xe1, 0x9e, 0x90, 0x2a, 0xce, 0x6e, 0x6a, 0x39]
}

pub fn new_wrapped_token_topic_bytes() -> (r: Vec<u8>)
    ensures
        r@ == new_wrapped_token_topic(),
{
    let v: Vec<u8> = vec![0x49, 0x0e, 0x59, 0xa1, 0x70, 0x1b, 0x93, 0x87, 0x86, 0xac, 0x72, 0x57, 0x0a, 0x1e, 0xfe, 0xac, 0x99, 0x4a, 0x3d, 0xbe, 0x96, 0xe2, 0xe8, 0x83, 0xe1, 0x9e, 0x90, 0x2a, 0xce, 0x6e, 0x6a, 0x39];
    proof {
        assert(v@ =~= new_wrapped_token_topic());
    }
    v
}

/// Keccak-256 of `Transfer(address,address,uint256)`.
pub open spec fn transfer_topic() -> Seq<u8> {
    seq![0xddu8, 0xf2, 0x52, 0xad, 0x1b, 0xe2, 0xc8, 0x9b, 0x69, 0xc2, 0xb0, 0x68, 0xfc, 0x37, 0x8d, 0xaa, 0x95, 0x2b, 0xa7, 0xf1, 0x63, 0xc4, 0xa1, 0x16, 0x28, 0xf5, 0x5a, 0x4d, 0xf5, 0x23, 0xb3, 0xef]
}

pub fn transfer_topic_bytes() -> (r: Vec<u8>)
    ensures
        r@ == transfer_topic(),
{
    let v: Vec<u8> = vec![0xdd, 0xf2, 0x52, 0xad, 0x1b, 0xe2, 0xc8, 0x9b, 0x69, 0xc2, 0xb0, 0x68, 0xfc, 0x37, 0x8d, 0xaa, 0x95, 0x2b, 0xa7, 0xf1, 0x63, 0xc4, 0xa1, 0x16, 0x28, 0xf5, 0x5a, 0x4d, 0xf5, 0x23, 0xb3, 0xef];
    proof {
        assert(v@ =~= transfer_topic());
    }
    v
}

/// Keccak-256 of `EmergencyStateActivated()`.
pub open spec fn emergency_activated_topic() -> Seq<u8> {
    seq![0x22u8, 0x61, 0xef, 0xe5, 0xae, 0xf6, 0xfe, 0xdc, 0x1f, 0xd1, 0x55, 0x0b, 0x25, 0xfa, 0xcc, 0x91, 0x81, 0x74, 0x56, 0x23, 0x04, 0x9c, 0x79, 0x01, 0x28, 0x70, 0x30, 0xb9, 0xad, 0x1a, 0x54, 0x97]
}

pub fn emergency_activated_topic_bytes() -> (r: Vec<u8>)
    ensures
        r@ == emergency_activated_topic(),
{
    let v: Vec<u8> = vec![0x22, 0x61, 0xef, 0xe5, 0xae, 0xf6, 0xfe, 0xdc, 0x1f, 0xd1, 0x55, 0x0b, 0x25, 0xfa, 0xcc, 0x91, 0x81, 0x74, 0x56, 0x23, 0x04, 0x9c, 0x79, 0x01, 0x28, 0x70, 0x30, 0xb9, 0xad, 0x1a, 0x54, 0x97];
    proof {
        assert(v@ =~= emergency_activated_topic());
    }
    v
}

/// Keccak-256 of `EmergencyStateDeactivated()`.
pub open spec fn emergency_deactivated_topic() -> Seq<u8> {
    seq![0x1eu8, 0x5e, 0x34, 0xee, 0xa3, 0x35, 0x01, 0xae, 0xcf, 0x2e, 0xbe, 0xc9, 0xfe, 0x0e, 0x88, 0x4a, 0x40, 0x80, 0x42, 0x75, 0xea, 0x7f, 0xe1, 0x0b, 0x2b, 0xa0, 0x84, 0xc8, 0x37, 0x43, 0x08, 0xb3]
}

pub fn emergency_deactivated_topic_bytes() -> (r: Vec<u8>)
    ensures
        r@ == emergency_deactivated_topic(),
{
    let v: Vec<u8> = vec![0x1e, 0x5e, 0x34, 0xee, 0xa3, 0x35, 0x01, 0xae, 0xcf, 0x2e, 0xbe, 0xc9, 0xfe, 0x0e, 0x88, 0x4a, 0x40, 0x80, 0x42, 0x75, 0xea, 0x7f, 0xe1, 0x0b, 0x2b, 0xa0, 0x84, 0xc8, 0x37, 0x43, 0x08, 0xb3];
    proof {
        assert(v@ =~= emergency_deactivated_topic());
    }
    v
}

/// Keccak-256 of `Upgraded(address)`.
pub open spec fn upgraded_topic() -> Seq<u8> {
    seq![0xbcu8, 0x7c, 0xd7, 0x5a, 0x20, 0xee, 0x27, 0xfd, 0x9a, 0xde, 0xba, 0xb3, 0x20, 0x41, 0xf7, 0x55, 0x21, 0x4d, 0xbc, 0x6b, 0xff, 0xa9, 0x0c, 0xc0, 0x22, 0x5b, 0x39, 0xda, 0x2e, 0x5c, 0x2d, 0x3b]
}

pub fn upgraded_topic_bytes() -> (r: Vec<u8>)
    ensures
        r@ == upgraded_topic(),
{
    let v: Vec<u8> = vec![0xbc, 0x7c, 0xd7, 0x5a, 0x20, 0xee, 0x27, 0xfd, 0x9a, 0xde, 0xba, 0xb3, 0x20, 0x41, 0xf7, 0x55, 0x21, 0x4d, 0xbc, 0x6b, 0xff, 0xa9, 0x0c, 0xc0, 0x22, 0x5b, 0x39, 0xda, 0x2e, 0x5c, 0x2d, 0x3b];
    proof {
        assert(v@ =~= upgraded_topic());
    }
    v
}

/// Keccak-256 of `Initialized(uint8)`.
pub open spec fn initialized_topic() -> Seq<u8> {
    seq![0x7fu8, 0x26, 0xb8, 0x3f, 0xf9, 0x6e, 0x1f, 0x2b, 0x6a, 0x68, 0x2f, 0x13, 0x38, 0x52, 0xf6, 0x79, 0x8a, 0x09, 0xc4, 0x65, 0xda, 0x95, 0x92, 0x14, 0x60, 0xce, 0xfb, 0x38, 0x47, 0x40, 0x24, 0x98]
}

pub fn initialized_topic_bytes() -> (r: Vec<u8>)
    ensures
        r@ == initialized_topic(),
{
    let v: Vec<u8> = vec![0x7f, 0x26, 0xb8, 0x3f, 0xf9, 0x6e, 0x1f, 0x2b, 0x6a, 0x68, 0x2f, 0x13, 0x38, 0x52, 0xf6, 0x79, 0x8a, 0x09, 0xc4, 0x65, 0xda, 0x95, 0x92, 0x14, 0x60, 0xce, 0xfb, 0x38, 0x47, 0x40, 0x24, 0x98];
    proof {
        assert(v@ =~= initialized_topic());
    }
    v
}

/// Keccak-256 of `AdminChanged(address,address)`.
pub open spec fn admin_changed_topic() -> Seq<u8> {
    seq![0x7eu8, 0x64, 0x4d, 0x79, 0x42, 0x2f, 0x17, 0xc0, 0x1e, 0x48, 0x94, 0xb5, 0xf4, 0xf5, 0x88, 0xd3, 0x31, 0xeb, 0xfa, 0x28, 0x65, 0x3d, 0x42, 0xae, 0x83, 0x2d, 0xc5, 0x9e, 0x38, 0xc9, 0x79, 0x8f]
}

pub fn admin_changed_topic_bytes() -> (r: Vec<u8>)
    ensures
        r@ == admin_changed_topic(),
{
    let v: Vec<u8> = vec![0x7e, 0x64, 0x4d, 0x79, 0x42, 0x2f, 0x17, 0xc0, 0x1e, 0x48, 0x94, 0xb5, 0xf4, 0xf5, 0x88, 0xd3, 0x31, 0xeb, 0xfa, 0x28, 0x65, 0x3d, 0x42, 0xae, 0x83, 0x2d, 0xc5, 0x9e, 0x38, 0xc9, 0x79, 0x8f];
    proof {
        assert(v@ =~= admin_changed_topic());
    }
    v
}


} // verus!
