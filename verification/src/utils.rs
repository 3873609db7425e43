//! The content id that keys every persisted row, the topic form of an
//! address filter, and the string renderings rows are displayed with.

use crate::codec::RawLog;
use crate::text::{
    be_nat, dec_bytes, dec_of_be_bytes, dec_of_u64, hex_bytes, hex_of_bytes,
    lemma_dec_bytes_ascii, lemma_hex_bytes_ascii,
};
use sha2::{Digest, Sha256};
use vstd::prelude::*;

verus! {

/// What SHA-256 returns, named: the digest is a function of the input
/// bytes alone, identical in every process and on every machine.
pub uninterp spec fn sha256_of(s: Seq<u8>) -> Seq<u8>;

/// Relies on sha2's `Sha256`: a 32-byte digest of the input bytes.
#[verifier::external_body]
fn sha256(b: &Vec<u8>) -> (r: Vec<u8>)
    ensures
        r@ == sha256_of(b@),
        r@.len() == 32,
{
    Sha256::digest(b.as_slice()).as_slice().to_vec()
}

/// The characters of an ASCII byte string, one per byte.
pub open spec fn ascii_chars(s: Seq<u8>) -> Seq<char> {
    s.map_values(|b: u8| b as char)
}

/// Relies on `String::from_utf8`: ASCII bytes decode to one character
/// per byte, each character carrying the byte's code.
#[verifier::external_body]
fn ascii_string(b: &Vec<u8>) -> (r: String)
    requires
        forall|i: int| 0 <= i < b@.len() ==> b@[i] < 128,
    ensures
        r@ == ascii_chars(b@),
{
    String::from_utf8(b.clone()).unwrap_or_default()
}

/// A byte string rendered as `0x`-prefixed lowercase hex.
pub open spec fn hex0x(s: Seq<u8>) -> Seq<u8> {
    seq![48u8, 120u8] + hex_bytes(s)
}

/// The bytes hashed for one log's content id: the `0x`-prefixed hex of
/// its transaction hash, the decimal log index and the decimal rollup
/// id, separated by colons. The separators keep the encoding
/// injective — without them the digits of the log index and the rollup
/// id would run together and distinct pairs could collide.
pub open spec fn id_preimage(tx_hash: Seq<u8>, log_index: u64, rollup_id: u32) -> Seq<u8> {
    hex0x(tx_hash) + seq![58u8] + dec_bytes(log_index as nat) + seq![58u8] + dec_bytes(
        rollup_id as nat,
    )
}

/// A log's content id: SHA-256 over the preimage, in lowercase hex.
/// The id depends on the transaction hash, log index and rollup id
/// alone, which is what makes inserts idempotent under replay.
pub open spec fn content_id(tx_hash: Seq<u8>, log_index: u64, rollup_id: u32) -> Seq<u8> {
    hex_bytes(sha256_of(id_preimage(tx_hash, log_index, rollup_id)))
}

/// The content id as the characters of a `String`.
pub open spec fn content_id_chars(tx_hash: Seq<u8>, log_index: u64, rollup_id: u32) -> Seq<char> {
    ascii_chars(content_id(tx_hash, log_index, rollup_id))
}

/// Distinct logs feed distinct bytes to the digest: the preimage
/// encoding is injective over 32-byte transaction hashes. Two distinct
/// (transaction hash, log index, rollup id) triples can therefore only
/// share a content id by exhibiting a SHA-256 collision.
pub proof fn lemma_id_preimage_injective(
    t1: Seq<u8>,
    i1: u64,
    r1: u32,
    t2: Seq<u8>,
    i2: u64,
    r2: u32,
)
    requires
        t1.len() == 32,
        t2.len() == 32,
        id_preimage(t1, i1, r1) == id_preimage(t2, i2, r2),
    ensures
        t1 == t2,
        i1 == i2,
        r1 == r2,
{
    let p1 = id_preimage(t1, i1, r1);
    let p2 = id_preimage(t2, i2, r2);
    let d1 = dec_bytes(i1 as nat);
    let d2 = dec_bytes(i2 as nat);
    let e1 = dec_bytes(r1 as nat);
    let e2 = dec_bytes(r2 as nat);
    crate::text::lemma_hex_bytes_len(t1);
    crate::text::lemma_hex_bytes_len(t2);
    assert(hex0x(t1).len() == 66);
    assert(hex0x(t2).len() == 66);
    assert(p1.len() == 68 + d1.len() + e1.len());
    assert(p2.len() == 68 + d2.len() + e2.len());
    assert(forall|k: int| 0 <= k < 66 ==> p1[k] == #[trigger] hex0x(t1)[k]);
    assert(forall|k: int| 0 <= k < 66 ==> p2[k] == #[trigger] hex0x(t2)[k]);
    assert(forall|k: int| 0 <= k < d1.len() ==> p1[67 + k] == #[trigger] d1[k]);
    assert(forall|k: int| 0 <= k < d2.len() ==> p2[67 + k] == #[trigger] d2[k]);
    assert(p1[66] == 58 && p1[67 + d1.len() as int] == 58);
    assert(p2[66] == 58 && p2[67 + d2.len() as int] == 58);
    assert(forall|k: int| 0 <= k < e1.len() ==> p1[68 + d1.len() as int + k] == #[trigger] e1[k]);
    assert(forall|k: int| 0 <= k < e2.len() ==> p2[68 + d2.len() as int + k] == #[trigger] e2[k]);
    lemma_dec_bytes_ascii(i1 as nat);
    lemma_dec_bytes_ascii(i2 as nat);
    // the transaction hashes sit at a fixed position
    assert(hex_bytes(t1) =~= hex_bytes(t2)) by {
        assert forall|k: int| 0 <= k < hex_bytes(t1).len() implies hex_bytes(t1)[k] == hex_bytes(
            t2,
        )[k] by {
            assert(hex0x(t1)[k + 2] == hex_bytes(t1)[k]);
            assert(hex0x(t2)[k + 2] == hex_bytes(t2)[k]);
            assert(p1[k + 2] == p2[k + 2]);
        }
    }
    crate::text::lemma_hex_bytes_injective(t1, t2);
    // the log-index numerals have the same width: a shorter one would
    // put a separator where the other still has a digit
    if d1.len() < d2.len() {
        assert(p1[67 + d1.len() as int] == 58);
        assert(p2[67 + d1.len() as int] == d2[d1.len() as int]);
        assert(false);
    }
    if d2.len() < d1.len() {
        assert(p2[67 + d2.len() as int] == 58);
        assert(p1[67 + d2.len() as int] == d1[d2.len() as int]);
        assert(false);
    }
    assert(d1 =~= d2) by {
        assert forall|k: int| 0 <= k < d1.len() implies d1[k] == d2[k] by {
            assert(p1[67 + k] == p2[67 + k]);
        }
    }
    crate::text::lemma_dec_bytes_injective(i1 as nat, i2 as nat);
    assert(e1.len() == e2.len());
    assert(e1 =~= e2) by {
        assert forall|k: int| 0 <= k < e1.len() implies e1[k] == e2[k] by {
            assert(p1[68 + d1.len() as int + k] == p2[68 + d1.len() as int + k]);
        }
    }
    crate::text::lemma_dec_bytes_injective(r1 as nat, r2 as nat);
}

/// The content id is a function of the transaction hash, the log index
/// and the rollup id alone: equal inputs always give equal ids.
pub proof fn lemma_content_id_deterministic(
    t1: Seq<u8>,
    i1: u64,
    r1: u32,
    t2: Seq<u8>,
    i2: u64,
    r2: u32,
)
    requires
        t1 == t2,
        i1 == i2,
        r1 == r2,
    ensures
        content_id(t1, i1, r1) == content_id(t2, i2, r2),
{
}

/// Unique identifier of a log: the hash of its transaction hash, its
/// log index and its rollup id, rendered as lowercase hex.
pub fn hash_log(log: &RawLog, rollup_id: u32) -> (r: String)
    requires
        log.wf(),
    ensures
        r@ == content_id_chars(log.tx_hash@, log.log_index, rollup_id),
{
    let mut pre: Vec<u8> = Vec::new();
    pre.push(48);
    pre.push(120);
    let mut h = hex_of_bytes(&log.tx_hash);
    pre.append(&mut h);
    pre.push(58);
    let mut ix = dec_of_u64(log.log_index);
    pre.append(&mut ix);
    pre.push(58);
    let mut rid = dec_of_u64(rollup_id as u64);
    pre.append(&mut rid);
    proof {
        assert(pre@ =~= id_preimage(log.tx_hash@, log.log_index, rollup_id));
    }
    let digest = sha256(&pre);
    let id_bytes = hex_of_bytes(&digest);
    proof {
        lemma_hex_bytes_ascii(digest@);
    }
    ascii_string(&id_bytes)
}

/// An address left-padded with twelve zero bytes to a 32-byte topic, as
/// JSON-RPC log filters expect address-valued topics.
pub open spec fn topic_of_address(a: Seq<u8>) -> Seq<u8> {
    Seq::new(12, |i: int| 0u8) + a
}

pub fn to_topic(address: &Vec<u8>) -> (r: Vec<u8>)
    requires
        address@.len() == 20,
    ensures
        r@ == topic_of_address(address@),
        r@.len() == 32,
{
    let mut out: Vec<u8> = Vec::new();
    let mut i: usize = 0;
    while i < 12
        invariant
            i <= 12,
            out@ == Seq::new(i as nat, |j: int| 0u8),
        decreases 12 - i,
    {
        out.push(0);
        proof {
            assert(out@ =~= Seq::new(i as nat + 1, |j: int| 0u8));
        }
        i = i + 1;
    }
    let mut j: usize = 0;
    while j < address.len()
        invariant
            j <= address@.len(),
            out@ == Seq::new(12, |k: int| 0u8) + address@.subrange(0, j as int),
        decreases address@.len() - j,
    {
        out.push(address[j]);
        proof {
            assert(out@ =~= Seq::new(12, |k: int| 0u8) + address@.subrange(0, j + 1 as int));
        }
        j = j + 1;
    }
    proof {
        assert(address@.subrange(0, address@.len() as int) =~= address@);
    }
    out
}

/// A 64-bit value rendered as a decimal `String`.
pub fn dec_string_of_u64(n: u64) -> (r: String)
    ensures
        r@ == ascii_chars(dec_bytes(n as nat)),
{
    let b = dec_of_u64(n);
    proof {
        lemma_dec_bytes_ascii(n as nat);
    }
    ascii_string(&b)
}

/// A 256-bit amount, given as its 32 big-endian bytes, rendered as a
/// decimal `String`; this is the form amounts are stored in.
pub fn dec_string_of_amount(v: &Vec<u8>) -> (r: String)
    ensures
        r@ == ascii_chars(dec_bytes(be_nat(v@))),
{
    let b = dec_of_be_bytes(v);
    proof {
        lemma_dec_bytes_ascii(be_nat(v@));
    }
    ascii_string(&b)
}

/// A byte string rendered as a `0x`-prefixed lowercase hex `String`;
/// this is the form hashes, addresses and metadata are stored in.
pub fn hex_string_of(v: &Vec<u8>) -> (r: String)
    ensures
        r@ == ascii_chars(hex0x(v@)),
{
    let mut b: Vec<u8> = Vec::new();
    b.push(48);
    b.push(120);
    let mut h = hex_of_bytes(v);
    b.append(&mut h);
    proof {
        assert(b@ =~= hex0x(v@));
        lemma_hex_bytes_ascii(v@);
    }
    ascii_string(&b)
}

/// The zero address, the mint/burn sentinel in ERC-20 transfers.
pub open spec fn zero_address() -> Seq<u8> {
    Seq::new(20, |i: int| 0u8)
}

pub fn zero_address_bytes() -> (r: Vec<u8>)
    ensures
        r@ == zero_address(),
        r@.len() == 20,
{
    let mut out: Vec<u8> = Vec::new();
    let mut i: usize = 0;
    while i < 20
        invariant
            i <= 20,
            out@ == Seq::new(i as nat, |j: int| 0u8),
        decreases 20 - i,
    {
        out.push(0);
        proof {
            assert(out@ =~= Seq::new(i as nat + 1, |j: int| 0u8));
        }
        i = i + 1;
    }
    proof {
        assert(out@ =~= zero_address());
    }
    out
}

/// The mainnet bridge contract on the settlement layer, which doubles
/// as the counterparty of every bridge-flow transfer.
pub open spec fn l1_bridge_address() -> Seq<u8> {
    seq![
        0x2au8, 0x3d, 0xd3, 0xeb, 0x83, 0x2a, 0xf9, 0x82, 0xec, 0x71, 0x66, 0x9e, 0x17, 0x84,
        0x24, 0xb1, 0x0d, 0xca, 0x2e, 0xde,
    ]
}

pub fn l1_bridge_address_bytes() -> (r: Vec<u8>)
    ensures
        r@ == l1_bridge_address(),
        r@.len() == 20,
{
    let v: Vec<u8> = vec![
        0x2a, 0x3d, 0xd3, 0xeb, 0x83, 0x2a, 0xf9, 0x82, 0xec, 0x71, 0x66, 0x9e, 0x17, 0x84, 0x24,
        0xb1, 0x0d, 0xca, 0x2e, 0xde,
    ];
    proof {
        assert(v@ =~= l1_bridge_address());
    }
    v
}

/// A signed 128-bit value rendered as a decimal `String`.
pub fn sdec_string_of_i128(s: i128) -> (r: String)
    ensures
        r@ == ascii_chars(crate::text::sdec_bytes(s as int)),
{
    let b = crate::text::dec_of_i128(s);
    proof {
        crate::text::lemma_sdec_bytes_ascii(s as int);
    }
    ascii_string(&b)
}

} // verus!
