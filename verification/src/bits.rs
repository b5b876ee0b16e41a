//! Bit-level cursor over byte buffers, most significant bit first.
//!
//! The sprite compressor works on a stream of variable-width fields
//! (1-bit flags, 8-bit literals, 9-bit offsets, 7-bit lengths).  Bits are
//! modelled as `Seq<bool>`; a byte contributes its bits most significant
//! first, and a multi-bit field holds its most significant bit first.

use vstd::prelude::*;
use vstd::arithmetic::power2::pow2;

verus! {

/// The unsigned value of a bit string, most significant bit first.
pub open spec fn spec_bits_val(s: Seq<bool>) -> nat
    decreases s.len(),
{
    if s.len() == 0 {
        0
    } else {
        2 * spec_bits_val(s.drop_last()) + if s.last() {
            1nat
        } else {
            0nat
        }
    }
}

/// The `n` low bits of `v` as a bit string, most significant bit first.
pub open spec fn spec_val_bits(v: u32, n: nat) -> Seq<bool> {
    Seq::new(n, |j: int| (v >> ((n - 1 - j) as u32)) & 1 == 1)
}

/// Bit `i % 8` (most significant bit first) of byte `i / 8` of a buffer.
pub open spec fn spec_byte_bit(bytes: Seq<u8>, i: int) -> bool {
    spec_val_bits(bytes[i / 8] as u32, 8)[i % 8]
}

/// The bits of a byte buffer: byte `i` supplies bits `8 i .. 8 i + 8`,
/// most significant first.
pub open spec fn spec_bits_of_bytes(bytes: Seq<u8>) -> Seq<bool> {
    Seq::new(8 * bytes.len(), |i: int| spec_byte_bit(bytes, i))
}

/// A bit string's value is below two to its length.
pub proof fn lemma_bits_val_bound(s: Seq<bool>)
    ensures
        spec_bits_val(s) < pow2(s.len()),
    decreases s.len(),
{
    vstd::arithmetic::power2::lemma_pow2_pos(s.len());
    if s.len() == 0 {
        vstd::arithmetic::power2::lemma2_to64();
    } else {
        lemma_bits_val_bound(s.drop_last());
        vstd::arithmetic::power2::lemma_pow2_unfold(s.len());
    }
}

/// Reading back the bit string of a value yields the value: the encoding
/// of `v` in `n` bits round-trips whenever `v` fits in `n` bits.
pub proof fn lemma_val_bits_roundtrip(v: u32, n: nat)
    requires
        n <= 32,
        v < pow2(n),
    ensures
        spec_bits_val(spec_val_bits(v, n)) == v,
    decreases n,
{
    if n == 0 {
        vstd::arithmetic::power2::lemma2_to64();
    } else {
        let half: u32 = v >> 1;
        assert(v >> 1 == v / 2 && (v & 1) == v % 2 && v >> 0 == v) by (bit_vector);
        vstd::arithmetic::power2::lemma_pow2_unfold(n);
        assert(half < pow2((n - 1) as nat));
        lemma_val_bits_roundtrip(half, (n - 1) as nat);
        assert(spec_val_bits(v, n).drop_last() =~= spec_val_bits(half, (n - 1) as nat)) by {
            assert forall|j: int| 0 <= j < n - 1 implies spec_val_bits(v, n).drop_last()[j]
                == spec_val_bits(half, (n - 1) as nat)[j] by {
                let b: u32 = (n - 2 - j) as u32;
                assert(b < 31 ==> (v >> 1) >> b == v >> (b + 1)) by (bit_vector);
                assert((b + 1) as u32 == (n - 1 - j) as u32);
            }
        }
        assert(spec_val_bits(v, n).last() == ((v >> 0u32) & 1 == 1));
        assert(v >> 0 == v) by (bit_vector);
        assert(spec_bits_val(spec_val_bits(v, n)) == 2 * (v / 2) + (v % 2));
    }
}

/// The reverse direction: the bit string of a bit string's value is the
/// bit string itself.
pub proof fn lemma_bits_val_inverse(s: Seq<bool>)
    requires
        s.len() <= 32,
    ensures
        spec_val_bits(spec_bits_val(s) as u32, s.len()) =~= s,
    decreases s.len(),
{
    lemma_bits_val_bound(s);
    vstd::arithmetic::power2::lemma2_to64();
    if s.len() > 0 {
        let n = s.len();
        lemma_bits_val_bound(s.drop_last());
        if n < 32 {
            vstd::arithmetic::power2::lemma_pow2_strictly_increases(n, 32);
        }
        vstd::arithmetic::power2::lemma_pow2_strictly_increases((n - 1) as nat, 32);
        lemma_bits_val_inverse(s.drop_last());
        let v: u32 = spec_bits_val(s) as u32;
        let vd: u32 = spec_bits_val(s.drop_last()) as u32;
        let b: u32 = if s.last() {
            1
        } else {
            0
        };
        assert(v == 2 * vd + b);
        assert(v == 2 * vd + b && b <= 1 && vd < 0x80000000 ==> v >> 1 == vd && ((v >> 0) & 1 == 1)
            == (b == 1)) by (bit_vector);
        assert forall|j: int| 0 <= j < n implies spec_val_bits(v, n as nat)[j] == s[j] by {
            if j < n - 1 {
                let c: u32 = (n - 2 - j) as u32;
                assert(c < 31 ==> (v >> 1) >> c == v >> (c + 1)) by (bit_vector);
                assert((c + 1) as u32 == (n - 1 - j) as u32);
                assert(spec_val_bits(vd, (n - 1) as nat)[j] == s.drop_last()[j]);
            }
        }
    }
}

/// Unpacks a byte buffer into its bit string.
pub fn bytes_to_bits(bytes: &Vec<u8>) -> (r: Vec<bool>)
    requires
        bytes@.len() <= usize::MAX / 8,
    ensures
        r@ == spec_bits_of_bytes(bytes@),
{
    let mut out: Vec<bool> = Vec::new();
    let mut index: usize = 0;
    while index < bytes.len()
        invariant
            index <= bytes@.len(),
            bytes@.len() <= usize::MAX / 8,
            out@.len() == 8 * index,
            forall|i: int| 0 <= i < out@.len() ==> out@[i] == spec_byte_bit(bytes@, i),
        decreases bytes@.len() - index,
    {
        let wide: u32 = bytes[index] as u32;
        let mut shift: usize = 0;
        while shift < 8
            invariant
                shift <= 8,
                index < bytes@.len(),
                bytes@.len() <= usize::MAX / 8,
                wide == bytes@[index as int] as u32,
                out@.len() == 8 * index + shift,
                forall|i: int| 0 <= i < out@.len() ==> out@[i] == spec_byte_bit(bytes@, i),
        decreases 8 - shift,
        {
            out.push((wide >> (7 - shift) as u32) & 1 == 1);
            assert((8 * index + shift) as int / 8 == index);
            assert((8 * index + shift) as int % 8 == shift);
            shift += 1;
        }
        index += 1;
    }
    assert(out@ =~= spec_bits_of_bytes(bytes@));
    out
}

/// Packs a bit string into bytes, most significant bit first, padding the
/// final partial byte with zero bits.
pub fn bits_to_bytes(bits: &Vec<bool>) -> (r: Vec<u8>)
    requires
        bits@.len() <= usize::MAX - 8,
    ensures
        r@.len() == (bits@.len() + 7) / 8,
        forall|i: int| 0 <= i < bits@.len() ==> spec_bits_of_bytes(r@)[i] == bits@[i],
        forall|i: int| bits@.len() <= i < 8 * r@.len() ==> spec_bits_of_bytes(r@)[i] == false,
{
    let mut out: Vec<u8> = Vec::new();
    let mut index: usize = 0;
    while index < bits.len()
        invariant
            index <= bits@.len() + 7,
            bits@.len() <= usize::MAX - 8,
            index % 8 == 0,
            out@.len() == index / 8,
            forall|i: int| 0 <= i < index && i < bits@.len() ==> #[trigger] spec_byte_bit(out@, i)
                == bits@[i],
            forall|i: int| bits@.len() <= i < 8 * out@.len() ==> #[trigger] spec_byte_bit(out@, i)
                == false,
        decreases bits@.len() + 8 - index,
    {
        let ghost chunk = Seq::new(8, |j: int| index + j < bits@.len() && bits@[index + j]);
        let mut value: u32 = 0;
        let mut shift: usize = 0;
        proof {
            vstd::arithmetic::power2::lemma2_to64();
        }
        while shift < 8
            invariant
                shift <= 8,
                index < bits@.len(),
                chunk == Seq::new(8, |j: int| index + j < bits@.len() && bits@[index + j]),
                bits@.len() <= usize::MAX - 8,
                value == spec_bits_val(chunk.subrange(0, shift as int)),
                value < pow2(shift as nat),
            decreases 8 - shift,
        {
            proof {
                vstd::arithmetic::power2::lemma_pow2_unfold((shift + 1) as nat);
                vstd::arithmetic::power2::lemma_pow2_strictly_increases((shift + 1) as nat, 9);
                vstd::arithmetic::power2::lemma2_to64();
                assert(chunk.subrange(0, shift + 1).drop_last() =~= chunk.subrange(
                    0,
                    shift as int,
                ));
            }
            let bit: bool = index + shift < bits.len() && bits[index + shift];
            value = 2 * value + if bit {
                1
            } else {
                0
            };
            proof {
                assert(chunk[shift as int] == bit);
            }
            shift += 1;
        }
        proof {
            assert(chunk.subrange(0, 8) =~= chunk);
            lemma_bits_val_bound(chunk);
            vstd::arithmetic::power2::lemma2_to64();
        }
        let byte: u8 = value as u8;
        let ghost prev = out@;
        out.push(byte);
        proof {
            lemma_bits_val_inverse(chunk);
            let b = out@.len() - 1;
            assert forall|i: int| 8 * b <= i < 8 * b + 8 implies #[trigger] spec_byte_bit(out@, i)
                == chunk[i - 8 * b] by {
                vstd::arithmetic::div_mod::lemma_fundamental_div_mod_converse(i, 8, b, i - 8 * b);
                assert(out@[i / 8] == byte);
                assert(spec_val_bits(byte as u32, 8)[i % 8] == chunk[i % 8]);
            }
            assert forall|i: int| 0 <= i < 8 * b implies #[trigger] spec_byte_bit(out@, i)
                == spec_byte_bit(prev, i) by {
                assert(i / 8 < b);
            }
        }
        index += 8;
    }
    proof {
        assert(out@.len() == (bits@.len() + 7) / 8);
        assert forall|i: int| 0 <= i < bits@.len() implies spec_bits_of_bytes(out@)[i]
            == bits@[i] by {
            assert(spec_byte_bit(out@, i) == bits@[i]);
        }
        assert forall|i: int| bits@.len() <= i < 8 * out@.len() implies spec_bits_of_bytes(out@)[i]
            == false by {
            assert(spec_byte_bit(out@, i) == false);
        }
    }
    out
}

/// Reads the `n`-bit field at `pos`, most significant bit first.
pub fn read_bits(bits: &Vec<bool>, pos: usize, n: usize) -> (r: u32)
    requires
        pos + n <= bits@.len(),
        n <= 32,
    ensures
        r == spec_bits_val(bits@.subrange(pos as int, pos + n)),
        r < pow2(n as nat),
{
    let _total: usize = bits.len();
    let mut value: u32 = 0;
    let mut j: usize = 0;
    proof {
        vstd::arithmetic::power2::lemma2_to64();
    }
    while j < n
        invariant
            j <= n,
            n <= 32,
            pos + n <= bits@.len(),
            bits@.len() <= usize::MAX,
            value == spec_bits_val(bits@.subrange(pos as int, pos + j)),
            value < pow2(j as nat),
        decreases n - j,
    {
        proof {
            vstd::arithmetic::power2::lemma_pow2_unfold((j + 1) as nat);
            vstd::arithmetic::power2::lemma_pow2_strictly_increases((j + 1) as nat, 33);
            vstd::arithmetic::power2::lemma2_to64();
            vstd::arithmetic::power2::lemma_pow2_adds(32, 1);
            assert(bits@.subrange(pos as int, pos + j + 1).drop_last() =~= bits@.subrange(
                pos as int,
                pos + j,
            ));
        }
        value = 2 * value + if bits[pos + j] {
            1
        } else {
            0
        };
        j += 1;
    }
    value
}

/// Appends the low `n` bits of `value`, most significant bit first.
pub fn write_bits(bits: &mut Vec<bool>, value: u32, n: usize)
    requires
        n <= 32,
        value < pow2(n as nat),
        old(bits)@.len() + n <= usize::MAX,
    ensures
        final(bits)@ == old(bits)@ + spec_val_bits(value, n as nat),
{
    let mut j: usize = 0;
    while j < n
        invariant
            j <= n,
            n <= 32,
            bits@.len() == old(bits)@.len() + j,
            old(bits)@.len() + n <= usize::MAX,
            bits@ == old(bits)@ + spec_val_bits(value, n as nat).subrange(0, j as int),
        decreases n - j,
    {
        bits.push((value >> (n - 1 - j) as u32) & 1 == 1);
        proof {
            assert(bits@ =~= old(bits)@ + spec_val_bits(value, n as nat).subrange(0, j + 1));
        }
        j += 1;
    }
    proof {
        assert(spec_val_bits(value, n as nat).subrange(0, n as int) =~= spec_val_bits(
            value,
            n as nat,
        ));
    }
}

} // verus!
