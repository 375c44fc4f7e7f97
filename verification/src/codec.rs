//! The serialized form of a preserved counter resource.
//!
//! The store holds opaque blobs; this module fixes the one blob format the
//! library ships, the bincode encoding of a 64-bit unsigned counter, and
//! proves it round-trips. Systems that mutate a preserved counter write
//! [`encode_counter`] blobs; a module's registration decodes the stored blob
//! with [`decode_counter`], and a short blob is the one decode failure.

use vstd::prelude::*;

verus! {

/// The wire form of a counter: its eight bytes, least significant first.
pub open spec fn u64_le_bytes(x: u64) -> Seq<u8> {
    seq![
        (x & 0xff) as u8,
        ((x >> 8) & 0xff) as u8,
        ((x >> 16) & 0xff) as u8,
        ((x >> 24) & 0xff) as u8,
        ((x >> 32) & 0xff) as u8,
        ((x >> 40) & 0xff) as u8,
        ((x >> 48) & 0xff) as u8,
        ((x >> 56) & 0xff) as u8,
    ]
}

/// The counter read back from a blob's first eight bytes, least significant
/// first.
pub open spec fn le_bytes_val(b: Seq<u8>) -> u64
    recommends
        b.len() >= 8,
{
    ((b[0] as u64) | ((b[1] as u64) << 8) | ((b[2] as u64) << 16) | ((b[3] as u64) << 24) | (
    (b[4] as u64) << 32) | ((b[5] as u64) << 40) | ((b[6] as u64) << 48) | ((b[7] as u64) << 56))
        as u64
}

/// Law: the counter encoding round-trips. Reading back the eight bytes
/// written for any counter value yields that value exactly.
pub proof fn lemma_counter_round_trip(x: u64)
    ensures
        u64_le_bytes(x).len() == 8,
        le_bytes_val(u64_le_bytes(x)) == x,
{
    let b0 = (x & 0xff) as u8;
    let b1 = ((x >> 8) & 0xff) as u8;
    let b2 = ((x >> 16) & 0xff) as u8;
    let b3 = ((x >> 24) & 0xff) as u8;
    let b4 = ((x >> 32) & 0xff) as u8;
    let b5 = ((x >> 40) & 0xff) as u8;
    let b6 = ((x >> 48) & 0xff) as u8;
    let b7 = ((x >> 56) & 0xff) as u8;
    assert(((b0 as u64) | ((b1 as u64) << 8) | ((b2 as u64) << 16) | ((b3 as u64) << 24) | ((
    b4 as u64) << 32) | ((b5 as u64) << 40) | ((b6 as u64) << 48) | ((b7 as u64) << 56)) as u64
        == x) by (bit_vector)
        requires
            b0 == (x & 0xff) as u8,
            b1 == ((x >> 8) & 0xff) as u8,
            b2 == ((x >> 16) & 0xff) as u8,
            b3 == ((x >> 24) & 0xff) as u8,
            b4 == ((x >> 32) & 0xff) as u8,
            b5 == ((x >> 40) & 0xff) as u8,
            b6 == ((x >> 48) & 0xff) as u8,
            b7 == ((x >> 56) & 0xff) as u8,
    ;
}

/// Relies on bincode::serialize, whose default configuration uses fixed-size
/// integers, little-endian byte order and no byte limit: a u64 is written as
/// exactly its eight bytes, least significant first. Writing into a growable
/// buffer under no limit cannot fail, so the unwrap cannot panic.
#[verifier::external_body]
fn encode_u64_raw(x: &u64) -> (r: Vec<u8>)
    ensures
        r@ == u64_le_bytes(*x),
{
    bincode::serialize(x).unwrap()
}

/// Relies on bincode::deserialize, whose default configuration uses
/// fixed-size integers, little-endian byte order and allows trailing bytes: a
/// u64 is read from the blob's first eight bytes, least significant first,
/// and the only failure is a blob shorter than eight bytes.
#[verifier::external_body]
fn decode_u64_raw(b: &[u8]) -> (r: Option<u64>)
    ensures
        r == if b@.len() >= 8 {
            Some(le_bytes_val(b@))
        } else {
            None::<u64>
        },
{
    bincode::deserialize::<u64>(b).ok()
}

/// The blob a preserved counter is captured and stored as.
pub fn encode_counter(x: u64) -> (r: Vec<u8>)
    ensures
        r@ == u64_le_bytes(x),
{
    encode_u64_raw(&x)
}

/// The counter a stored blob restores to, or nothing if the blob is corrupt
/// (too short to hold a counter).
pub fn decode_counter(b: &Vec<u8>) -> (r: Option<u64>)
    ensures
        r == if b@.len() >= 8 {
            Some(le_bytes_val(b@))
        } else {
            None::<u64>
        },
{
    decode_u64_raw(b.as_slice())
}

/// Law: a preserved counter round-trips across a reload. If, when the capture
/// pass runs, the live blob of a registered identifier encodes the counter
/// value `v`, then the blob the pass leaves in the store decodes to exactly
/// `v` — so the next run's registration observes `v`, not its default.
pub proof fn lemma_preserved_counter_round_trip(
    st: Map<Seq<char>, Seq<u8>>,
    reg: Seq<Seq<char>>,
    live: Map<Seq<char>, Seq<u8>>,
    id: Seq<char>,
    v: u64,
)
    requires
        reg.contains(id),
        live[id] == u64_le_bytes(v),
    ensures
        crate::harness::captured(st, reg, live).contains_key(id),
        crate::harness::captured(st, reg, live)[id].len() >= 8,
        le_bytes_val(crate::harness::captured(st, reg, live)[id]) == v,
{
    crate::harness::lemma_capture_stores_live(st, reg, live, id);
    lemma_counter_round_trip(v);
}

} // verus!
