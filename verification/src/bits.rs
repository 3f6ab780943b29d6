//! Bit-granular access to a byte buffer.
//!
//! The wire format packs fields at arbitrary bit offsets, most significant bit
//! first, so everything here is built from a single primitive: the bit at
//! position `i` of a byte sequence. An N-bit read applies that primitive N
//! times and combines the bits into an unsigned value, independent of byte
//! alignment; an N-bit write does the reverse.

use vstd::arithmetic::div_mod::lemma_div_basics;
use vstd::arithmetic::div_mod::lemma_div_denominator;
use vstd::arithmetic::div_mod::lemma_fundamental_div_mod;
use vstd::arithmetic::power2::lemma2_to64;
use vstd::arithmetic::power2::lemma_pow2_adds;
use vstd::arithmetic::power2::lemma_pow2_pos;
use vstd::arithmetic::power2::lemma_pow2_strictly_increases;
use vstd::arithmetic::power2::pow2;
use vstd::prelude::*;
use vstd::slice::slice_index_get;

verus! {

/// Bit `i` of a byte sequence, in network bit order: bit 0 is the most
/// significant bit of the first byte, bit 8 the most significant bit of the
/// second byte, and so on.
pub open spec fn bit_at(bytes: Seq<u8>, i: int) -> bool {
    (bytes[i / 8] >> ((7 - i % 8) as u8)) & 1 == 1
}

/// The unsigned value of the `width` bits starting at bit `start`, combined
/// most significant bit first.
pub open spec fn bits_at(bytes: Seq<u8>, start: int, width: nat) -> nat
    decreases width,
{
    if width == 0 {
        0
    } else {
        2 * bits_at(bytes, start, (width - 1) as nat) + (if bit_at(bytes, start + width - 1) {
            1nat
        } else {
            0nat
        })
    }
}

/// Bit `k` of the value `v`, counting up from the least significant bit.
pub open spec fn bit_of(v: nat, k: nat) -> bool {
    v / pow2(k) % 2 == 1
}

/// A one-bit range holds 1 where its bit is set and 0 where it is clear.
pub proof fn lemma_bits_at_single(bytes: Seq<u8>, start: int)
    ensures
        bits_at(bytes, start, 1) == (if bit_at(bytes, start) {
            1nat
        } else {
            0nat
        }),
{
    assert(bits_at(bytes, start, 0) == 0);
}

/// An extracted field is bounded by its width: `width` bits never hold a value
/// of `pow2(width)` or more.
pub proof fn lemma_bits_at_bound(bytes: Seq<u8>, start: int, width: nat)
    ensures
        bits_at(bytes, start, width) < pow2(width),
    decreases width,
{
    lemma2_to64();
    if width > 0 {
        lemma_bits_at_bound(bytes, start, (width - 1) as nat);
        lemma_pow2_adds((width - 1) as nat, 1);
    }
}

/// Two buffers that agree on every bit of a range agree on the value of that
/// range.
pub proof fn lemma_bits_at_agree(b1: Seq<u8>, b2: Seq<u8>, start: int, width: nat)
    requires
        forall|j: int| start <= j < start + width ==> bit_at(b1, j) == bit_at(b2, j),
    ensures
        bits_at(b1, start, width) == bits_at(b2, start, width),
    decreases width,
{
    if width > 0 {
        lemma_bits_at_agree(b1, b2, start, (width - 1) as nat);
    }
}

/// A range whose bits are, most significant first, the bits of `v` holds
/// exactly the value `v`.
pub proof fn lemma_bits_at_from_bits(bytes: Seq<u8>, start: int, width: nat, v: nat)
    requires
        v < pow2(width),
        forall|j: int|
            0 <= j < width ==> #[trigger] bit_at(bytes, start + j) == bit_of(
                v,
                (width - 1 - j) as nat,
            ),
    ensures
        bits_at(bytes, start, width) == v,
    decreases width,
{
    lemma2_to64();
    if width == 0 {
    } else {
        let w1 = (width - 1) as nat;
        let jlast: int = width - 1;
        assert(bit_at(bytes, start + jlast) == bit_of(v, (width - 1 - jlast) as nat));
        assert(bit_at(bytes, start + width - 1) == bit_of(v, 0));
        lemma_div_basics(v as int);
        assert(bit_of(v, 0) == (v % 2 == 1));
        assert forall|j: int| 0 <= j < w1 implies #[trigger] bit_at(bytes, start + j) == bit_of(
            v / 2,
            (w1 - 1 - j) as nat,
        ) by {
            let k = (w1 - 1 - j) as nat;
            lemma_pow2_adds(1, k);
            lemma_pow2_pos(k);
            lemma_div_denominator(v as int, 2, pow2(k) as int);
            assert(v / 2 / pow2(k) == v / pow2((k + 1) as nat));
            assert(bit_at(bytes, start + j) == bit_of(v, (width - 1 - j) as nat));
            assert((width - 1 - j) as nat == (k + 1) as nat);
        }
        lemma_pow2_adds(w1, 1);
        lemma_bits_at_from_bits(bytes, start, w1, v / 2);
        lemma_fundamental_div_mod(v as int, 2);
    }
}

/// Reads the single bit at position `pos` of the buffer.
pub fn read_bit(input: &[u8], pos: usize) -> (r: bool)
    requires
        pos < 8 * input@.len(),
    ensures
        r == bit_at(input@, pos as int),
{
    let idx = pos / 8;
    let byte = *slice_index_get(input, idx);
    let sh: u8 = 7u8 - (pos % 8) as u8;
    ((byte >> sh) & 1) == 1
}

/// Reads the `width` bits starting at position `pos`, most significant bit
/// first, as an unsigned value.
pub fn read_bits(input: &[u8], pos: usize, width: usize) -> (r: u16)
    requires
        width <= 16,
        pos + width <= 8 * input@.len(),
        pos + width <= usize::MAX,
    ensures
        r as nat == bits_at(input@, pos as int, width as nat),
        (r as nat) < pow2(width as nat),
{
    let mut acc: u16 = 0;
    let mut i: usize = 0;
    proof {
        lemma2_to64();
    }
    while i < width
        invariant
            i <= width,
            width <= 16,
            pos + width <= 8 * input@.len(),
            pos + width <= usize::MAX,
            acc as nat == bits_at(input@, pos as int, i as nat),
            (acc as nat) < pow2(i as nat),
        decreases width - i,
    {
        proof {
            lemma2_to64();
            if (i as nat) < 15 {
                lemma_pow2_strictly_increases(i as nat, 15);
            }
            lemma_pow2_adds(i as nat, 1);
        }
        let bit = read_bit(input, pos + i);
        acc = acc * 2 + (if bit {
            1
        } else {
            0
        });
        i = i + 1;
        proof {
            assert(bits_at(input@, pos as int, i as nat) == 2 * bits_at(
                input@,
                pos as int,
                (i - 1) as nat,
            ) + (if bit_at(input@, pos as int + i - 1) {
                1nat
            } else {
                0nat
            }));
        }
    }
    proof {
        lemma_bits_at_bound(input@, pos as int, width as nat);
    }
    acc
}

/// Sets the single bit at position `pos` of the buffer to `b`, leaving every
/// other bit and the buffer's length unchanged.
pub fn set_bit(buf: &mut Vec<u8>, pos: usize, b: bool)
    requires
        pos < 8 * old(buf)@.len(),
    ensures
        final(buf)@.len() == old(buf)@.len(),
        bit_at(final(buf)@, pos as int) == b,
        forall|j: int|
            0 <= j < 8 * old(buf)@.len() && j != pos ==> #[trigger] bit_at(final(buf)@, j)
                == bit_at(old(buf)@, j),
{
    let idx = pos / 8;
    let sh: u8 = 7u8 - (pos % 8) as u8;
    let old_byte = buf[idx];
    let new_byte = if b {
        old_byte | (1u8 << sh)
    } else {
        old_byte & !(1u8 << sh)
    };
    buf[idx] = new_byte;
    proof {
        assert(buf@ == old(buf)@.update(idx as int, new_byte));
        if b {
            assert(((old_byte | (1u8 << sh)) >> sh) & 1 == 1) by (bit_vector)
                requires
                    sh < 8,
            ;
        } else {
            assert(((old_byte & !(1u8 << sh)) >> sh) & 1 == 0) by (bit_vector)
                requires
                    sh < 8,
            ;
        }
        assert(bit_at(buf@, pos as int) == b);
        assert forall|j: int|
            0 <= j < 8 * old(buf)@.len() && j != pos implies #[trigger] bit_at(buf@, j) == bit_at(
            old(buf)@,
            j,
        ) by {
            if j / 8 == idx {
                let t: u8 = (7 - j % 8) as u8;
                assert(8 * (j / 8) + j % 8 == j);
                assert(8 * (pos as int / 8) + pos as int % 8 == pos);
                assert(t != sh);
                assert(new_byte == old_byte | (1u8 << sh) || new_byte == old_byte & !(1u8 << sh));
                assert(((new_byte >> t) & 1) == ((old_byte >> t) & 1)) by (bit_vector)
                    requires
                        sh < 8,
                        t < 8,
                        t != sh,
                        new_byte == old_byte | (1u8 << sh) || new_byte == old_byte & !(1u8 << sh),
                ;
            } else {
                assert(buf@[j / 8] == old(buf)@[j / 8]);
            }
        }
    }
}

/// Writes the `width` bits of `v`, most significant bit first, into the bit
/// range starting at `pos`, leaving every bit outside that range and the
/// buffer's length unchanged.
pub fn write_bits(buf: &mut Vec<u8>, pos: usize, width: usize, v: u16)
    requires
        width <= 16,
        pos + width <= 8 * old(buf)@.len(),
        pos + width <= usize::MAX,
        (v as nat) < pow2(width as nat),
    ensures
        final(buf)@.len() == old(buf)@.len(),
        bits_at(final(buf)@, pos as int, width as nat) == v as nat,
        forall|j: int|
            0 <= j < 8 * old(buf)@.len() && !(pos <= j < pos + width) ==> #[trigger] bit_at(
                final(buf)@,
                j,
            ) == bit_at(old(buf)@, j),
        forall|s2: int, w2: nat|
            0 <= s2 && s2 + w2 <= 8 * old(buf)@.len() && (s2 + w2 <= pos || pos + width <= s2)
                ==> #[trigger] bits_at(final(buf)@, s2, w2) == bits_at(old(buf)@, s2, w2),
{
    let mut rem: u16 = v;
    let mut i: usize = width;
    proof {
        lemma2_to64();
        lemma_div_basics(v as int);
    }
    while i > 0
        invariant
            i <= width,
            width <= 16,
            pos + width <= 8 * old(buf)@.len(),
            pos + width <= usize::MAX,
            buf@.len() == old(buf)@.len(),
            rem as nat == (v as nat) / pow2((width - i) as nat),
            forall|j: int|
                pos + i <= j < pos + width ==> #[trigger] bit_at(buf@, j) == bit_of(
                    v as nat,
                    (pos + width - 1 - j) as nat,
                ),
            forall|j: int|
                0 <= j < 8 * old(buf)@.len() && !(pos + i <= j < pos + width) ==> #[trigger] bit_at(
                    buf@,
                    j,
                ) == bit_at(old(buf)@, j),
        decreases i,
    {
        i = i - 1;
        let b = rem % 2 == 1;
        proof {
            lemma_pow2_pos((width - i - 1) as nat);
            assert(bit_of(v as nat, (width - 1 - i) as nat) == b);
        }
        set_bit(buf, pos + i, b);
        rem = rem / 2;
        proof {
            lemma2_to64();
            lemma_pow2_adds((width - i - 1) as nat, 1);
            lemma_pow2_pos((width - i - 1) as nat);
            lemma_div_denominator(v as int, pow2((width - i - 1) as nat) as int, 2);
            assert(rem as nat == (v as nat) / pow2((width - i) as nat));
        }
    }
    proof {
        assert forall|j: int| 0 <= j < width implies #[trigger] bit_at(buf@, pos + j) == bit_of(
            v as nat,
            (width - 1 - j) as nat,
        ) by {
            assert(bit_at(buf@, pos + j) == bit_of(v as nat, (pos + width - 1 - (pos + j)) as nat));
        }
        lemma_bits_at_from_bits(buf@, pos as int, width as nat, v as nat);
        assert forall|s2: int, w2: nat|
            0 <= s2 && s2 + w2 <= 8 * old(buf)@.len() && (s2 + w2 <= pos || pos + width
                <= s2) implies #[trigger] bits_at(buf@, s2, w2) == bits_at(old(buf)@, s2, w2) by {
            lemma_bits_at_agree(buf@, old(buf)@, s2, w2);
        }
    }
}

} // verus!
