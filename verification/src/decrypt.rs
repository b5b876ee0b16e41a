//! The archive obfuscation layer: a byte stream cipher that XORs each
//! 32-bit little-endian word with MT19937 output and the previous plain
//! word, seeded from the uppercased file name.

use vstd::prelude::*;
use crate::bytes::{spec_u32_le, spec_u32_le_bytes, push_u32_le, u32_from_le};

verus! {

/// MT19937 state length.
pub const MERSENNE_LENGTH: usize = 624;

/// MT19937 seeding multiplier.
pub const MERSENNE_INIT: u32 = 0x6C078965;

/// Trailing file signature of an encrypted archive (read little-endian
/// from the last four bytes in reverse order).
pub const ENCRYPTED_SIGNATURE: u32 = 0x41534743;

/// Chaining constant: the initial previous-output word.
pub const LAST_OUT: u32 = 0x43415046;

/// Cell `i` of the MT19937 seed table: the standard multiplicative
/// recurrence over the previous cell, truncated to 32 bits.
pub open spec fn spec_mt_cell(seed: u32, i: nat) -> u32
    decreases i,
{
    if i == 0 {
        seed
    } else {
        let prev = spec_mt_cell(seed, (i - 1) as nat);
        ((0x6C078965 * (prev ^ (prev >> 30u32)) + i) % 0x100000000) as u32
    }
}

/// The full 624-entry seed table.
pub open spec fn spec_mt_seed_table(seed: u32) -> Seq<u32> {
    Seq::new(624, |i: int| spec_mt_cell(seed, i as nat))
}

/// One in-place twist assignment: the new value of cell `i`, computed
/// from the current table (which already holds updated cells below `i`).
pub open spec fn spec_twist_cell(t: Seq<u32>, i: int) -> u32 {
    let value = ((t[i] & 0x80000000) + (t[(i + 1) % 624] & 0x7FFFFFFF)) as u32;
    let x = t[(i + 397) % 624] ^ (value >> 1u32);
    if value & 1 == 1 {
        x ^ 0x9908B0DF
    } else {
        x
    }
}

/// The table after the first `k` twist assignments, applied in order
/// (later cells read the values earlier assignments wrote).
pub open spec fn spec_twist_upto(t: Seq<u32>, k: nat) -> Seq<u32>
    decreases k,
{
    if k == 0 {
        t
    } else {
        let t1 = spec_twist_upto(t, (k - 1) as nat);
        t1.update(k - 1, spec_twist_cell(t1, k - 1))
    }
}

/// A full twist of the 624-entry table.
pub open spec fn spec_twist(t: Seq<u32>) -> Seq<u32> {
    spec_twist_upto(t, 624)
}

/// The MT19937 output tempering: the four standard shift/mask/XOR steps.
pub open spec fn spec_temper(x: u32) -> u32 {
    let a = x ^ (x >> 11u32);
    let b = a ^ ((a << 7u32) & 0x9D2C5680);
    let c = b ^ ((b << 15u32) & 0xEFC60000);
    c ^ (c >> 18u32)
}

/// A Mersenne Twister PRNG: the 624-word state and the output cursor.
pub struct MersenneTwister {
    pub index: usize,
    pub table: Vec<u32>,
}

/// A usable twister state: full table, cursor within it.
pub open spec fn spec_mt_wf(m: MersenneTwister) -> bool {
    &&& m.table@.len() == 624
    &&& m.index <= 624
}

impl MersenneTwister {
    /// Fills an empty state from a seed with the standard MT19937
    /// multiplicative recurrence, leaving the cursor at the end so the
    /// first output triggers a twist.
    pub fn initialize(&mut self, seed: u32)
        requires
            old(self).table@.len() == 0,
        ensures
            spec_mt_wf(*final(self)),
            final(self).table@ == spec_mt_seed_table(seed),
            final(self).index == 624,
    {
        self.table.push(seed);
        let mut i: usize = 1;
        while i < MERSENNE_LENGTH
            invariant
                1 <= i <= 624,
                self.table@.len() == i,
                forall|j: int| 0 <= j < i ==> self.table@[j] == spec_mt_cell(seed, j as nat),
            decreases 624 - i,
        {
            let previous: u32 = self.table[i - 1];
            self.table.push(MERSENNE_INIT.wrapping_mul(previous ^ (previous >> 30)).wrapping_add(
                i as u32,
            ));
            proof {
                let prev = spec_mt_cell(seed, (i - 1) as nat);
                assert(self.table@[i as int] == ((0x6C078965 * (prev ^ (prev >> 30u32)) + i)
                    % 0x100000000) as u32) by {
                    vstd::arithmetic::div_mod::lemma_mod_adds(
                        0x6C078965 * (prev ^ (prev >> 30u32)) as int,
                        i as int,
                        0x100000000,
                    );
                    vstd::arithmetic::div_mod::lemma_mod_twice(
                        0x6C078965 * (prev ^ (prev >> 30u32)) as int,
                        0x100000000,
                    );
                    vstd::arithmetic::div_mod::lemma_small_mod(i as nat, 0x100000000);
                }
            }
            i += 1;
        }
        self.index = MERSENNE_LENGTH;
        proof {
            assert(self.table@ =~= spec_mt_seed_table(seed));
        }
    }

    /// Regenerates the whole state in place (the standard twist).
    fn twist(&mut self)
        requires
            spec_mt_wf(*old(self)),
        ensures
            spec_mt_wf(*final(self)),
            final(self).table@ == spec_twist(old(self).table@),
            final(self).index == 0,
    {
        let mut i: usize = 0;
        while i < MERSENNE_LENGTH
            invariant
                i <= 624,
                self.table@.len() == 624,
                self.table@ == spec_twist_upto(old(self).table@, i as nat),
            decreases 624 - i,
        {
            proof {
                let x = self.table@[i as int];
                let y = self.table@[((i + 1) % 624) as int];
                assert((x & 0x80000000) <= 0x80000000 && (y & 0x7FFFFFFF)
                    <= 0x7FFFFFFF) by (bit_vector);
            }
            let value: u32 = (self.table[i] & 0x80000000) + (self.table[(i + 1) % MERSENNE_LENGTH]
                & 0x7FFFFFFF);
            let mut new_val: u32 = self.table[(i + 397) % MERSENNE_LENGTH] ^ (value >> 1);
            if (value & 1) != 0 {
                new_val = new_val ^ 0x9908B0DF;
            }
            proof {
                let t1 = self.table@;
                assert(value & 1 == 0 || value & 1 == 1) by (bit_vector);
                assert(new_val == spec_twist_cell(t1, i as int));
            }
            self.table.set(i, new_val);
            proof {
                assert(self.table@ =~= spec_twist_upto(old(self).table@, (i + 1) as nat));
            }
            i += 1;
        }
        self.index = 0;
    }

    /// Draws the next tempered output, twisting first when the state is
    /// exhausted.
    pub fn get_next_number(&mut self) -> (r: u32)
        requires
            spec_mt_wf(*old(self)),
        ensures
            spec_mt_wf(*final(self)),
            ({
                let t = if old(self).index >= 624 {
                    spec_twist(old(self).table@)
                } else {
                    old(self).table@
                };
                let idx = if old(self).index >= 624 {
                    0int
                } else {
                    old(self).index as int
                };
                &&& r == spec_temper(t[idx])
                &&& final(self).table@ == t
                &&& final(self).index == idx + 1
            }),
    {
        if self.index >= MERSENNE_LENGTH {
            self.twist();
        }
        let mut value: u32 = self.table[self.index];
        value = value ^ (value >> 11);
        value = value ^ ((value << 7) & 0x9D2C5680);
        value = value ^ ((value << 15) & 0xEFC60000);
        value = value ^ (value >> 18);
        self.index += 1;
        value
    }
}

/// The keystream state after `k` outputs from a freshly seeded twister:
/// the table and cursor.
pub open spec fn spec_mt_state(seed: u32, k: nat) -> (Seq<u32>, int)
    decreases k,
{
    if k == 0 {
        (spec_mt_seed_table(seed), 624int)
    } else {
        let prev = spec_mt_state(seed, (k - 1) as nat);
        if prev.1 >= 624 {
            (spec_twist(prev.0), 1int)
        } else {
            (prev.0, prev.1 + 1)
        }
    }
}

/// Output `k` (zero-based) of a twister seeded with `seed`.
pub open spec fn spec_keystream(seed: u32, k: nat) -> u32 {
    let st = spec_mt_state(seed, k + 1);
    spec_temper(st.0[st.1 - 1])
}

/// An ASCII letter uppercased; every other byte unchanged.
pub open spec fn spec_ascii_upper(b: u8) -> u8 {
    if 97 <= b <= 122 {
        (b - 32) as u8
    } else {
        b
    }
}

/// The file-name seed: a fold of `seed * 137 + byte` over the
/// uppercased name bytes, truncated to 32 bits.
pub open spec fn spec_name_seed(name: Seq<u8>) -> u32
    decreases name.len(),
{
    if name.len() == 0 {
        0
    } else {
        ((spec_name_seed(name.drop_last()) * 137 + spec_ascii_upper(name.last()))
            % 0x100000000) as u32
    }
}

/// The 32-bit little-endian words of a byte buffer (trailing bytes
/// beyond the last whole word are ignored).
pub open spec fn spec_words_of(s: Seq<u8>) -> Seq<u32> {
    Seq::new(
        (s.len() as int / 4) as nat,
        |i: int| spec_u32_le(s[4 * i], s[4 * i + 1], s[4 * i + 2], s[4 * i + 3]),
    )
}

/// Words flattened back to little-endian bytes.
pub open spec fn spec_bytes_of_words(w: Seq<u32>) -> Seq<u8> {
    Seq::new(4 * w.len(), |i: int| spec_u32_le_bytes(w[i / 4])[i % 4])
}

/// The decrypted words: each ciphertext word XORed with the keystream
/// word and the previous plain word, starting from the chaining
/// constant.
pub open spec fn spec_decrypt_words(cipher: Seq<u32>, ks: Seq<u32>) -> Seq<u32>
    decreases cipher.len(),
{
    if cipher.len() == 0 {
        Seq::empty()
    } else {
        let prefix = spec_decrypt_words(cipher.drop_last(), ks);
        let prev: u32 = if prefix.len() == 0 {
            0x43415046
        } else {
            prefix.last()
        };
        prefix.push(prev ^ cipher.last() ^ ks[cipher.len() - 1])
    }
}

/// The matching encryption direction: each plain word XORed with the
/// keystream word and the previous plain word.
pub open spec fn spec_encrypt_words(plain: Seq<u32>, ks: Seq<u32>) -> Seq<u32> {
    Seq::new(
        plain.len(),
        |i: int|
            {
                let prev: u32 = if i == 0 {
                    0x43415046
                } else {
                    plain[i - 1]
                };
                prev ^ plain[i] ^ ks[i]
            },
    )
}

/// Decrypting a ciphertext produced with the same chaining rule and
/// keystream recovers the plaintext.
pub proof fn lemma_decrypt_encrypt_inverse(plain: Seq<u32>, ks: Seq<u32>)
    requires
        ks.len() >= plain.len(),
    ensures
        spec_decrypt_words(spec_encrypt_words(plain, ks), ks) =~= plain,
    decreases plain.len(),
{
    if plain.len() > 0 {
        let cipher = spec_encrypt_words(plain, ks);
        assert(cipher.drop_last() =~= spec_encrypt_words(plain.drop_last(), ks));
        lemma_decrypt_encrypt_inverse(plain.drop_last(), ks);
        let prefix = spec_decrypt_words(cipher.drop_last(), ks);
        let prev: u32 = if prefix.len() == 0 {
            0x43415046
        } else {
            prefix.last()
        };
        let p = plain.last();
        let c = cipher.last();
        let k = ks[plain.len() - 1];
        assert(c == prev ^ p ^ k);
        assert(prev ^ (prev ^ p ^ k) ^ k == p) by (bit_vector);
    }
}

/// Decrypts a buffer word by word with the keystream seeded from the
/// uppercased file name, chaining each plain word into the next mask.
/// Trailing bytes beyond the last whole word are dropped, as the
/// game's own decryptor drops them.
pub fn decrypt_data(name: &Vec<u8>, bin_data: &Vec<u8>) -> (r: Vec<u8>)
    requires
        bin_data@.len() <= usize::MAX - 8,
    ensures
        r@ == spec_bytes_of_words(
            spec_decrypt_words(
                spec_words_of(bin_data@),
                Seq::new((bin_data@.len() as int / 4) as nat, |i: int| spec_keystream(
                    spec_name_seed(name@),
                    i as nat,
                )),
            ),
        ),
{
    let mut seed: u32 = 0;
    let mut c: usize = 0;
    while c < name.len()
        invariant
            c <= name@.len(),
            seed == spec_name_seed(name@.subrange(0, c as int)),
        decreases name@.len() - c,
    {
        let byte: u8 = name[c];
        let upper: u8 = if 97 <= byte && byte <= 122 {
            byte - 32
        } else {
            byte
        };
        seed = seed.wrapping_mul(137).wrapping_add(upper as u32);
        proof {
            let pre = name@.subrange(0, c as int);
            let cur = name@.subrange(0, c + 1);
            assert(cur.drop_last() =~= pre);
            assert(cur.last() == name@[c as int]);
            vstd::arithmetic::div_mod::lemma_mod_adds(
                (spec_name_seed(pre) * 137) as int,
                spec_ascii_upper(name@[c as int]) as int,
                0x100000000,
            );
            vstd::arithmetic::div_mod::lemma_mod_twice(
                (spec_name_seed(pre) * 137) as int,
                0x100000000,
            );
            vstd::arithmetic::div_mod::lemma_small_mod(
                spec_ascii_upper(name@[c as int]) as nat,
                0x100000000,
            );
        }
        c += 1;
    }
    proof {
        assert(name@.subrange(0, name@.len() as int) =~= name@);
    }

    let mut twister = MersenneTwister { index: 0, table: Vec::new() };
    twister.initialize(seed);

    let ghost nwords = bin_data@.len() as int / 4;
    let ghost ks = Seq::new(nwords as nat, |i: int| spec_keystream(seed, i as nat));
    let ghost cipher = spec_words_of(bin_data@);
    let mut last_out: u32 = LAST_OUT;
    let mut cursor: usize = 0;
    let mut output: Vec<u8> = Vec::new();
    let mut w: usize = 0;
    while cursor + 4 <= bin_data.len()
        invariant
            spec_mt_wf(twister),
            cursor == 4 * w,
            w <= nwords,
            cursor + 4 <= bin_data@.len() + 4,
            bin_data@.len() <= usize::MAX - 8,
            nwords == bin_data@.len() as int / 4,
            ks == Seq::new(nwords as nat, |i: int| spec_keystream(seed, i as nat)),
            cipher == spec_words_of(bin_data@),
            (twister.table@, twister.index as int) == spec_mt_state(seed, w as nat),
            output@.len() == 4 * w,
            output@ == spec_bytes_of_words(spec_decrypt_words(cipher.subrange(0, w as int), ks)),
            last_out == if w == 0 {
                0x43415046u32
            } else {
                spec_decrypt_words(cipher.subrange(0, w as int), ks).last()
            },
        decreases bin_data@.len() - cursor,
    {
        proof {
            assert(4 * w + 4 <= bin_data@.len());
            vstd::arithmetic::div_mod::lemma_fundamental_div_mod(bin_data@.len() as int, 4);
            assert(w < nwords);
        }
        let value_in: u32 = u32_from_le(
            bin_data[cursor],
            bin_data[cursor + 1],
            bin_data[cursor + 2],
            bin_data[cursor + 3],
        );
        let key: u32 = twister.get_next_number();
        proof {
            assert(spec_mt_state(seed, (w + 1) as nat) == (twister.table@, twister.index as int));
            assert(key == spec_keystream(seed, w as nat));
            assert(ks[w as int] == key);
            assert(cipher[w as int] == value_in);
        }
        last_out = last_out ^ value_in ^ key;
        push_u32_le(&mut output, last_out);
        proof {
            let part = cipher.subrange(0, w + 1);
            assert(part.drop_last() =~= cipher.subrange(0, w as int));
            assert(part.last() == cipher[w as int]);
            let dec = spec_decrypt_words(part, ks);
            assert(dec.last() == last_out);
            assert(output@ =~= spec_bytes_of_words(dec));
        }
        cursor += 4;
        w += 1;
    }
    proof {
        vstd::arithmetic::div_mod::lemma_fundamental_div_mod(bin_data@.len() as int, 4);
        assert(w == nwords);
        assert(cipher.subrange(0, w as int) =~= cipher);
    }
    output
}

/// Whether a buffer carries the trailing encryption signature: the
/// last four bytes, read in reverse order as a little-endian word,
/// equal the signature constant.
pub open spec fn spec_is_encrypted(d: Seq<u8>) -> bool {
    d.len() >= 4 && spec_u32_le(d[d.len() - 1], d[d.len() - 2], d[d.len() - 3], d[d.len() - 4])
        == ENCRYPTED_SIGNATURE
}

/// Checks the trailing encryption signature.
pub fn is_encrypted(bin_data: &Vec<u8>) -> (r: bool)
    ensures
        r == spec_is_encrypted(bin_data@),
{
    if bin_data.len() < 4 {
        return false;
    }
    let n = bin_data.len();
    u32_from_le(bin_data[n - 1], bin_data[n - 2], bin_data[n - 3], bin_data[n - 4])
        == ENCRYPTED_SIGNATURE
}

} // verus!
