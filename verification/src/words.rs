//! Little-endian numbers in byte strings.
use vstd::prelude::*;

use crate::keymap::Key;

verus! {

/// The number that bytes write, the least significant first.
pub open spec fn le_value(b: Seq<u8>) -> nat
    decreases b.len(),
{
    if b.len() == 0 {
        0
    } else {
        b[0] as nat + 256 * le_value(b.skip(1))
    }
}

/// 256 to the power of `n`.
pub open spec fn pow256(n: nat) -> nat
    decreases n,
{
    if n == 0 {
        1
    } else {
        256 * pow256((n - 1) as nat)
    }
}

/// The `n` low bytes of a number, the least significant first.
pub open spec fn le_bytes(v: nat, n: nat) -> Seq<u8>
    decreases n,
{
    if n == 0 {
        Seq::empty()
    } else {
        seq![(v % 256) as u8] + le_bytes(v / 256, (n - 1) as nat)
    }
}

/// So many bytes write a number below that power of 256.
pub proof fn lemma_le_bound(b: Seq<u8>)
    ensures
        le_value(b) < pow256(b.len()),
    decreases b.len(),
{
    if b.len() > 0 {
        lemma_le_bound(b.skip(1));
    }
}

/// A number that fits is read back from its bytes.
pub proof fn law_le_round_trip(v: nat, n: nat)
    requires
        v < pow256(n),
    ensures
        le_bytes(v, n).len() == n,
        le_value(le_bytes(v, n)) == v,
    decreases n,
{
    if n > 0 {
        let rest = le_bytes(v / 256, (n - 1) as nat);
        law_le_round_trip(v / 256, (n - 1) as nat);
        let b = le_bytes(v, n);
        assert(b.skip(1) =~= rest);
        assert(b[0] == (v % 256) as u8);
    }
}

fn read_le(data: &[u8], n: usize) -> (v: u128)
    requires
        n <= 16,
        n <= data@.len(),
    ensures
        v == le_value(data@.take(n as int)),
        v < pow256(n as nat),
{
    let mut v: u128 = 0;
    let mut i: usize = n;
    let ghost all = data@.take(n as int);
    proof {
        reveal_with_fuel(pow256, 17);
        assert(all.skip(n as int) =~= Seq::empty());
    }
    while i > 0
        invariant
            i <= n <= 16,
            n <= data@.len(),
            all == data@.take(n as int),
            v == le_value(all.skip(i as int)),
        decreases i,
    {
        i = i - 1;
        let ghost tail = all.skip(i as int);
        proof {
            assert(tail.skip(1) =~= all.skip(i + 1));
            assert(tail[0] == data@[i as int]);
            lemma_le_bound(tail);
            reveal_with_fuel(pow256, 17);
        }
        v = v * 256 + data[i] as u128;
    }
    proof {
        assert(all.skip(0) =~= all);
        lemma_le_bound(all);
    }
    v
}

/// The number in the first sixteen bytes, zero where there are fewer.
pub fn decode_u128(data: &[u8]) -> (v: u128)
    ensures
        v == if data@.len() >= 16 {
            le_value(data@.take(16))
        } else {
            0
        },
{
    if data.len() >= 16 {
        read_le(data, 16)
    } else {
        0
    }
}

/// The number in the first eight bytes, zero where there are fewer.
pub fn decode_u64(data: &[u8]) -> (v: u64)
    ensures
        v == if data@.len() >= 8 {
            le_value(data@.take(8))
        } else {
            0
        },
{
    if data.len() >= 8 {
        let v: u128 = read_le(data, 8);
        proof {
            reveal_with_fuel(pow256, 9);
        }
        v as u64
    } else {
        0
    }
}

/// The number in the first four bytes.
pub fn decode_u32(data: &[u8]) -> (v: u32)
    requires
        data@.len() >= 4,
    ensures
        v == le_value(data@.take(4)),
{
    let v: u128 = read_le(data, 4);
    proof {
        reveal_with_fuel(pow256, 5);
    }
    v as u32
}

/// The `n` low bytes of a number, the least significant first.
pub fn encode_le(v: u64, n: usize) -> (r: Vec<u8>)
    ensures
        r@ == le_bytes(v as nat, n as nat),
{
    let mut out: Vec<u8> = Vec::new();
    let mut rest: u64 = v;
    let mut i: usize = 0;
    while i < n
        invariant
            i <= n,
            out@ + le_bytes(rest as nat, (n - i) as nat) == le_bytes(v as nat, n as nat),
        decreases n - i,
    {
        let ghost o = out@;
        let ghost r0 = rest;
        out.push((rest % 256) as u8);
        rest = rest / 256;
        i = i + 1;
        assert(o + (seq![(r0 % 256) as u8] + le_bytes(rest as nat, (n - i) as nat)) =~= out@
            + le_bytes(rest as nat, (n - i) as nat));
    }
    assert(out@ + Seq::<u8>::empty() =~= out@);
    out
}

/// `ethnum::U256::from_le_bytes`, split by `into_words`: the high and the low
/// half of the number that the 32 bytes write, the least significant byte first.
#[verifier::external_body]
fn u256_from_le(bytes: &Key) -> (r: (u128, u128))
    ensures
        r.1 == le_value(bytes@.take(16)),
        r.0 == le_value(bytes@.skip(16)),
{
    ethnum::U256::from_le_bytes(*bytes).into_words()
}

/// A 256-bit word, as its high and its low half.
#[derive(Clone, Copy, Debug, PartialEq, Eq, Structural)]
pub struct Word {
    pub high: u128,
    pub low: u128,
}

/// The word that a key's bytes write, the least significant first.
pub open spec fn word_of(k: Key) -> Word {
    Word { high: le_value(k@.skip(16)) as u128, low: le_value(k@.take(16)) as u128 }
}

/// The word that a key's bytes write, the least significant first.
pub fn key_word(k: &Key) -> (w: Word)
    ensures
        w == word_of(*k),
{
    let w = u256_from_le(k);
    Word { high: w.0, low: w.1 }
}

} // verus!
