//! Conversion between byte sequences and bit streams.
//!
//! Every byte is expanded into exactly eight bits, least significant bit first,
//! whatever its value; packing reads the bits back in the same order.
use vstd::prelude::*;

verus! {

/// Bit `j` (0 is the least significant) of the byte `b`.
pub open spec fn bit_of(b: u8, j: u8) -> bool {
    (b >> j) & 1u8 == 1u8
}

/// The bit stream of a byte sequence: eight bits per byte, least significant
/// bit first, bytes in order.
pub open spec fn bits_of_bytes(bytes: Seq<u8>) -> Seq<bool> {
    Seq::new(8 * bytes.len(), |k: int| bit_of(bytes[k / 8], (k % 8) as u8))
}

/// The number of bytes that a stream of `n` bits packs into: one per started
/// group of eight, and one (all zero) for an empty stream.
pub open spec fn packed_len(n: nat) -> nat {
    if n == 0 {
        1
    } else {
        ((n + 7) / 8) as nat
    }
}

/// `bytes` is the packing of `bits`: bit `j` of byte `i` is bit `8 * i + j` of
/// the stream, and zero past its end.
pub open spec fn packs(bits: Seq<bool>, bytes: Seq<u8>) -> bool {
    &&& bytes.len() == packed_len(bits.len())
    &&& forall|i: int, j: int|
        0 <= i < bytes.len() && 0 <= j < 8 ==> #[trigger] bit_of(bytes[i], j as u8) == (8 * i
            + j < bits.len() && bits[8 * i + j])
}

proof fn lemma_set_bit(acc: u8, j: u8, t: u8)
    by (bit_vector)
    requires
        j < 8,
        t < 8,
    ensures
        ((acc | (1u8 << j)) >> t) & 1u8 == 1u8 <==> (t == j || (acc >> t) & 1u8 == 1u8),
{
}

proof fn lemma_zero_bits(t: u8)
    by (bit_vector)
    ensures
        (0u8 >> t) & 1u8 != 1u8,
{
}

/// Two bytes that agree on all eight bits are equal.
proof fn lemma_bits_determine_byte(a: u8, b: u8)
    requires
        forall|j: u8| j < 8 ==> #[trigger] bit_of(a, j) == bit_of(b, j),
    ensures
        a == b,
{
    assert(bit_of(a, 0) == bit_of(b, 0));
    assert(bit_of(a, 1) == bit_of(b, 1));
    assert(bit_of(a, 2) == bit_of(b, 2));
    assert(bit_of(a, 3) == bit_of(b, 3));
    assert(bit_of(a, 4) == bit_of(b, 4));
    assert(bit_of(a, 5) == bit_of(b, 5));
    assert(bit_of(a, 6) == bit_of(b, 6));
    assert(bit_of(a, 7) == bit_of(b, 7));
    assert(a == b) by (bit_vector)
        requires
            ((a >> 0u8) & 1u8 == 1u8) == ((b >> 0u8) & 1u8 == 1u8),
            ((a >> 1u8) & 1u8 == 1u8) == ((b >> 1u8) & 1u8 == 1u8),
            ((a >> 2u8) & 1u8 == 1u8) == ((b >> 2u8) & 1u8 == 1u8),
            ((a >> 3u8) & 1u8 == 1u8) == ((b >> 3u8) & 1u8 == 1u8),
            ((a >> 4u8) & 1u8 == 1u8) == ((b >> 4u8) & 1u8 == 1u8),
            ((a >> 5u8) & 1u8 == 1u8) == ((b >> 5u8) & 1u8 == 1u8),
            ((a >> 6u8) & 1u8 == 1u8) == ((b >> 6u8) & 1u8 == 1u8),
            ((a >> 7u8) & 1u8 == 1u8) == ((b >> 7u8) & 1u8 == 1u8),
    ;
}

/// Expands bytes into bits: eight per byte, least significant bit first.
pub fn bytes_to_bits(bytes: &Vec<u8>) -> (bits: Vec<bool>)
    ensures
        bits@ == bits_of_bytes(bytes@),
{
    let mut bits: Vec<bool> = Vec::new();
    for i in 0..bytes.len()
        invariant
            bits@.len() == 8 * i,
            forall|k: int| 0 <= k < bits@.len() ==> bits@[k] == bit_of(bytes@[k / 8], (k % 8) as u8),
    {
        let b = bytes[i];
        for j in 0..8u8
            invariant
                0 <= i < bytes@.len(),
                b == bytes@[i as int],
                bits@.len() == 8 * i + j,
                forall|k: int| 0 <= k < bits@.len() ==> bits@[k] == bit_of(bytes@[k / 8], (k % 8) as u8),
        {
            bits.push((b >> j) & 1u8 == 1u8);
        }
    }
    assert(bits@ =~= bits_of_bytes(bytes@));
    bits
}

/// Packs bits into bytes, eight at a time, the first bit of each group being
/// the least significant; the last group is padded with zero bits, and an
/// empty stream gives a single zero byte.
pub fn bits_to_bytes(bits: &Vec<bool>) -> (bytes: Vec<u8>)
    ensures
        packs(bits@, bytes@),
{
    let mut bytes: Vec<u8> = Vec::new();
    let mut acc: u8 = 0;
    let mut j: u8 = 0;
    assert forall|t: int| 0 <= t < 8 implies !#[trigger] bit_of(acc, t as u8) by {
        lemma_zero_bits(t as u8);
    }
    for k in 0..bits.len()
        invariant
            j < 8,
            bytes@.len() * 8 + j == k,
            forall|i: int, t: int|
                0 <= i < bytes@.len() && 0 <= t < 8 ==> #[trigger] bit_of(bytes@[i], t as u8)
                    == bits@[8 * i + t],
            forall|t: int| 0 <= t < j ==> #[trigger] bit_of(acc, t as u8) == bits@[8 * bytes@.len() + t],
            forall|t: int| j <= t < 8 ==> !#[trigger] bit_of(acc, t as u8),
    {
        let ghost old_acc = acc;
        if bits[k] {
            acc = acc | (1u8 << j);
        }
        assert forall|t: int| 0 <= t < 8 implies #[trigger] bit_of(acc, t as u8) == (if t == j {
            bits@[k as int]
        } else {
            bit_of(old_acc, t as u8)
        }) by {
            lemma_set_bit(old_acc, j, t as u8);
        }
        j = j + 1;
        if j == 8 {
            bytes.push(acc);
            acc = 0;
            j = 0;
            assert forall|t: int| 0 <= t < 8 implies !#[trigger] bit_of(acc, t as u8) by {
                lemma_zero_bits(t as u8);
            }
        }
    }
    if j > 0 || bits.len() == 0 {
        bytes.push(acc);
    }
    bytes
}

/// Packing the expansion of a non-empty byte sequence gives that sequence back.
pub proof fn lemma_round_trip(bytes: Seq<u8>, packed: Seq<u8>)
    requires
        bytes.len() > 0,
        packs(bits_of_bytes(bytes), packed),
    ensures
        packed == bytes,
{
    let bits = bits_of_bytes(bytes);
    assert forall|i: int| 0 <= i < bytes.len() implies packed[i] == bytes[i] by {
        assert forall|j: u8| j < 8 implies #[trigger] bit_of(packed[i], j) == bit_of(bytes[i], j) by {
            let k = 8 * i + j;
            assert(bit_of(packed[i], (j as int) as u8) == (k < bits.len() && bits[k]));
            assert(k / 8 == i && k % 8 == j as int);
        }
        lemma_bits_determine_byte(packed[i], bytes[i]);
    }
    assert(packed =~= bytes);
}

/// A bit stream has one packing.
pub proof fn lemma_packing_unique(bits: Seq<bool>, a: Seq<u8>, b: Seq<u8>)
    requires
        packs(bits, a),
        packs(bits, b),
    ensures
        a == b,
{
    assert forall|i: int| 0 <= i < a.len() implies a[i] == b[i] by {
        assert forall|j: u8| j < 8 implies #[trigger] bit_of(a[i], j) == bit_of(b[i], j) by {
            assert(bit_of(a[i], (j as int) as u8) == bit_of(b[i], (j as int) as u8));
        }
        lemma_bits_determine_byte(a[i], b[i]);
    }
    assert(a =~= b);
}

} // verus!
