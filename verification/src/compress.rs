//! The LZ-style sprite codec.
//!
//! A compressed sprite is a bit stream of tokens, read for exactly the
//! iteration count stored in the container:
//! - flag bit 1: an 8-bit literal pixel follows; a second literal byte
//!   follows immediately unless the output is within one pixel of the
//!   stored pixel count;
//! - flag bit 0: a 9-bit offset and a 7-bit length follow; `length + 3`
//!   bytes are copied one by one from `window + offset`, where the window
//!   starts 512 bytes behind the output cursor (overlapping copies read
//!   bytes the same copy has just written).
//!
//! The decoder is specified by `spec_decode_iter`; the compressor
//! guarantees that decoding its output restores its input exactly.

use vstd::prelude::*;
use vstd::arithmetic::power2::pow2;
use crate::bits::{bits_to_bytes, bytes_to_bits, lemma_val_bits_roundtrip, read_bits, spec_bits_of_bytes, spec_bits_val, spec_val_bits, write_bits};
use crate::error::CodecError;

verus! {

/// A decoded sprite: one byte per pixel, plus the embedded palette if
/// the record carried one.
pub struct SpriteData {
    pub width: u16,
    pub height: u16,
    pub bit_depth: u16,
    pub pixels: Vec<u8>,
    pub palette: Vec<u8>,
}

impl Default for SpriteData {
    /// An empty sprite with the default color depth.
    fn default() -> (r: SpriteData)
        ensures
            r.width == 0 && r.height == 0 && r.bit_depth == 8,
            r.pixels@.len() == 0 && r.palette@.len() == 0,
    {
        SpriteData { width: 0, height: 0, bit_depth: 8, pixels: Vec::new(), palette: Vec::new() }
    }
}

/// A compressed pixel stream and the token count the container stores
/// beside it.
pub struct CompressedData {
    pub stream: Vec<u8>,
    pub iterations: u32,
}

/// The window copy: appends `len` bytes starting at `src`, one at a
/// time, so an overlapping copy reads bytes it has just produced.
pub open spec fn spec_lz_extend(out: Seq<u8>, src: int, len: nat) -> Seq<u8>
    decreases len,
{
    if len == 0 {
        out
    } else {
        spec_lz_extend(out.push(out[src]), src + 1, (len - 1) as nat)
    }
}

/// One decoder token at bit position `pos` with output `out`:
/// the new position and output, or `None` on stream overrun or a
/// back-reference outside the produced output.
pub open spec fn spec_decode_step(bits: Seq<bool>, pos: int, out: Seq<u8>, pc: nat) -> Option<
    (int, Seq<u8>),
> {
    if pos < 0 || pos >= bits.len() {
        None
    } else if bits[pos] {
        if pos + 9 > bits.len() {
            None
        } else {
            let v = spec_bits_val(bits.subrange(pos + 1, pos + 9));
            let out1 = out.push(v as u8);
            if out1.len() + 1 < pc {
                if pos + 17 > bits.len() {
                    None
                } else {
                    let v2 = spec_bits_val(bits.subrange(pos + 9, pos + 17));
                    Some((pos + 17, out1.push(v2 as u8)))
                }
            } else {
                Some((pos + 9, out1))
            }
        }
    } else {
        if pos + 17 > bits.len() {
            None
        } else {
            let offset = spec_bits_val(bits.subrange(pos + 1, pos + 10)) as int;
            let length = (3 + spec_bits_val(bits.subrange(pos + 10, pos + 17))) as nat;
            let origin: int = if out.len() > 512 {
                out.len() - 512
            } else {
                0
            };
            if origin + offset >= out.len() {
                None
            } else {
                Some((pos + 17, spec_lz_extend(out, origin + offset, length)))
            }
        }
    }
}

/// The decoder state after `n` tokens: bit position and output bytes.
pub open spec fn spec_decode_iter(bits: Seq<bool>, n: nat, pc: nat) -> Option<(int, Seq<u8>)>
    decreases n,
{
    if n == 0 {
        Some((0, Seq::empty()))
    } else {
        match spec_decode_iter(bits, (n - 1) as nat, pc) {
            None => None,
            Some(state) => spec_decode_step(bits, state.0, state.1, pc),
        }
    }
}

/// The decoded bytes after `n` tokens (empty when decoding fails).
pub open spec fn spec_decode_out(bits: Seq<bool>, n: nat, pc: nat) -> Seq<u8> {
    match spec_decode_iter(bits, n, pc) {
        Some(state) => state.1,
        None => Seq::empty(),
    }
}

/// The bit position after `n` tokens (zero when decoding fails).
pub open spec fn spec_decode_pos(bits: Seq<bool>, n: nat, pc: nat) -> int {
    match spec_decode_iter(bits, n, pc) {
        Some(state) => state.0,
        None => 0,
    }
}

/// A successful decode never moves its cursor outside the stream.
pub proof fn lemma_decode_pos_bounds(bits: Seq<bool>, n: nat, pc: nat)
    requires
        spec_decode_iter(bits, n, pc) is Some,
    ensures
        0 <= spec_decode_pos(bits, n, pc) <= bits.len(),
    decreases n,
{
    if n > 0 {
        lemma_decode_pos_bounds(bits, (n - 1) as nat, pc);
    }
}

/// Once decoding fails it stays failed for every larger token count.
pub proof fn lemma_decode_none_persists(bits: Seq<bool>, n: nat, m: nat, pc: nat)
    requires
        n <= m,
        spec_decode_iter(bits, n, pc) is None,
    ensures
        spec_decode_iter(bits, m, pc) is None,
    decreases m,
{
    if m > n {
        lemma_decode_none_persists(bits, n, (m - 1) as nat, pc);
    }
}

/// A successful token step only looks at bits below the final cursor, so
/// appending bits to the stream does not change it.
proof fn lemma_decode_step_prefix(bits1: Seq<bool>, bits2: Seq<bool>, pos: int, out: Seq<u8>, pc: nat)
    requires
        bits1.len() <= bits2.len(),
        bits2.subrange(0, bits1.len() as int) == bits1,
        spec_decode_step(bits1, pos, out, pc) is Some,
        0 <= pos,
    ensures
        spec_decode_step(bits2, pos, out, pc) == spec_decode_step(bits1, pos, out, pc),
{
    assert forall|i: int| 0 <= i < bits1.len() implies bits2[i] == bits1[i] by {
        assert(bits2.subrange(0, bits1.len() as int)[i] == bits2[i]);
    }
    assert forall|a: int, b: int| 0 <= a <= b <= bits1.len() implies bits2.subrange(a, b)
        =~= bits1.subrange(a, b) by {
        assert forall|i: int| 0 <= i < b - a implies bits2.subrange(a, b)[i] == bits1.subrange(
            a,
            b,
        )[i] by {
            assert(bits2[a + i] == bits1[a + i]);
        }
    }
}

/// A successful decode is unchanged by appending bits to the stream.
pub proof fn lemma_decode_iter_prefix(bits1: Seq<bool>, bits2: Seq<bool>, n: nat, pc: nat)
    requires
        bits1.len() <= bits2.len(),
        bits2.subrange(0, bits1.len() as int) == bits1,
        spec_decode_iter(bits1, n, pc) is Some,
    ensures
        spec_decode_iter(bits2, n, pc) == spec_decode_iter(bits1, n, pc),
    decreases n,
{
    if n > 0 {
        lemma_decode_iter_prefix(bits1, bits2, (n - 1) as nat, pc);
        let state = spec_decode_iter(bits1, (n - 1) as nat, pc)->Some_0;
        lemma_decode_pos_bounds(bits1, (n - 1) as nat, pc);
        lemma_decode_step_prefix(bits1, bits2, state.0, state.1, pc);
    }
}

/// The window copy grows the output by the copy length and reads only
/// positions below the output end at each step; copying a range that
/// matches the bytes at the cursor reproduces those bytes.
pub proof fn lemma_lz_extend_from_input(inp: Seq<u8>, p: int, s: int, k: nat)
    requires
        0 <= s < p,
        p + k <= inp.len(),
        forall|j: int| 0 <= j < k ==> inp[s + j] == #[trigger] inp[p + j],
    ensures
        spec_lz_extend(inp.subrange(0, p), s, k) == inp.subrange(0, p + k),
    decreases k,
{
    if k > 0 {
        let out = inp.subrange(0, p);
        assert(out[s] == inp[s]);
        assert(inp[s + 0] == inp[p + 0]);
        assert(inp[s] == inp[p]);
        assert(out.push(inp[p]) =~= inp.subrange(0, p + 1));
        assert forall|j: int| 0 <= j < k - 1 implies inp[s + 1 + j] == #[trigger] inp[p + 1 + j] by {
            assert(inp[s + (j + 1)] == inp[p + (j + 1)]);
        }
        lemma_lz_extend_from_input(inp, p + 1, s + 1, (k - 1) as nat);
    }
}

/// Runs the token decoder for `iterations` tokens over a bit stream.
///
/// Returns the raw decoded bytes; fails with `DecodeOverrun` exactly
/// when the specified decode fails (stream exhausted or bad
/// back-reference).
pub fn decode_stream(bits: &Vec<bool>, iterations: u32, pixel_count: usize) -> (r: Result<
    Vec<u8>,
    CodecError,
>)
    requires
        bits@.len() <= usize::MAX - 32,
    ensures
        match r {
            Ok(out) => spec_decode_iter(bits@, iterations as nat, pixel_count as nat) is Some
                && out@ == spec_decode_out(bits@, iterations as nat, pixel_count as nat),
            Err(e) => spec_decode_iter(bits@, iterations as nat, pixel_count as nat) is None && e
                == CodecError::DecodeOverrun,
        },
{
    let mut out: Vec<u8> = Vec::new();
    let mut pos: usize = 0;
    let mut i: u32 = 0;
    while i < iterations
        invariant
            i <= iterations,
            pos <= bits@.len(),
            bits@.len() <= usize::MAX - 32,
            spec_decode_iter(bits@, i as nat, pixel_count as nat) == Some((pos as int, out@)),
        decreases iterations - i,
    {
        let ghost prev_out = out@;
        let ghost prev_pos = pos as int;
        if pos >= bits.len() {
            proof {
                lemma_decode_none_persists(
                    bits@,
                    (i + 1) as nat,
                    iterations as nat,
                    pixel_count as nat,
                );
            }
            return Err(CodecError::DecodeOverrun);
        }
        if bits[pos] {
            // Literal token
            if pos + 9 > bits.len() {
                proof {
                    lemma_decode_none_persists(
                        bits@,
                        (i + 1) as nat,
                        iterations as nat,
                        pixel_count as nat,
                    );
                }
                return Err(CodecError::DecodeOverrun);
            }
            let v = read_bits(bits, pos + 1, 8);
            proof {
                vstd::arithmetic::power2::lemma2_to64();
            }
            out.push(v as u8);
            if pixel_count > 1 && out.len() < pixel_count - 1 {
                if pos + 17 > bits.len() {
                    proof {
                        lemma_decode_none_persists(
                            bits@,
                            (i + 1) as nat,
                            iterations as nat,
                            pixel_count as nat,
                        );
                    }
                    return Err(CodecError::DecodeOverrun);
                }
                let v2 = read_bits(bits, pos + 9, 8);
                out.push(v2 as u8);
                pos += 17;
            } else {
                pos += 9;
            }
        } else {
            // Back-reference token
            if pos + 17 > bits.len() {
                proof {
                    lemma_decode_none_persists(
                        bits@,
                        (i + 1) as nat,
                        iterations as nat,
                        pixel_count as nat,
                    );
                }
                return Err(CodecError::DecodeOverrun);
            }
            let offset = read_bits(bits, pos + 1, 9) as usize;
            proof {
                vstd::arithmetic::power2::lemma2_to64();
            }
            let length = 3 + read_bits(bits, pos + 10, 7) as usize;
            let origin: usize = if out.len() > 512 {
                out.len() - 512
            } else {
                0
            };
            let src0: usize = origin + offset;
            if src0 >= out.len() {
                proof {
                    lemma_decode_none_persists(
                        bits@,
                        (i + 1) as nat,
                        iterations as nat,
                        pixel_count as nat,
                    );
                }
                return Err(CodecError::DecodeOverrun);
            }
            let ghost out0 = out@;
            let mut c: usize = 0;
            while c < length
                invariant
                    c <= length,
                    src0 + c < out@.len(),
                    out@.len() <= usize::MAX,
                    out@.len() == out0.len() + c,
                    spec_lz_extend(out0, src0 as int, length as nat) == spec_lz_extend(
                        out@,
                        src0 + c,
                        (length - c) as nat,
                    ),
                decreases length - c,
            {
                let b = out[src0 + c];
                out.push(b);
                let _grown: usize = out.len();
                c += 1;
            }
            pos += 17;
        }
        i += 1;
    }
    Ok(out)
}

/// Searches the 512-byte window before `p` for the longest match of at
/// least 3 and at most 130 bytes (overlapping matches allowed).  Any
/// match returned is valid; no match of length 3 or more may exist even
/// when `None` is returned only if no candidate reached length 3.
fn find_best_match(data: &Vec<u8>, p: usize) -> (r: Option<(usize, usize)>)
    requires
        p < data@.len(),
    ensures
        match r {
            Some(m) => ({
                let origin = if p > 512 {
                    p - 512
                } else {
                    0
                };
                &&& 3 <= m.1 <= 130
                &&& p + m.1 <= data@.len()
                &&& m.0 < 512
                &&& origin + m.0 < p
                &&& forall|j: int| 0 <= j < m.1 ==> data@[origin + m.0 + j] == #[trigger] data@[p
                    + j]
            }),
            None => true,
        },
{
    let origin: usize = if p > 512 {
        p - 512
    } else {
        0
    };
    let remaining: usize = data.len() - p;
    let limit: usize = if remaining < 130 {
        remaining
    } else {
        130
    };
    let mut best_len: usize = 0;
    let mut best_off: usize = 0;
    let mut s: usize = origin;
    while s < p
        invariant
            origin <= s <= p,
            p < data@.len(),
            data@.len() <= usize::MAX,
            origin == if p > 512 {
                p - 512
            } else {
                0
            },
            limit <= 130,
            p + limit <= data@.len(),
            best_len <= limit,
            best_len > 0 ==> best_off < 512 && origin + best_off < p && (forall|j: int| 0 <= j
                < best_len ==> data@[origin + best_off + j] == #[trigger] data@[p + j]),
        decreases p - s,
    {
        let mut ml: usize = 0;
        while ml < limit && data[s + ml] == data[p + ml]
            invariant
                ml <= limit,
                origin <= s < p,
                p < data@.len(),
                data@.len() <= usize::MAX,
                limit <= 130,
                p + limit <= data@.len(),
                forall|j: int| 0 <= j < ml ==> data@[s + j] == #[trigger] data@[p + j],
            decreases limit - ml,
        {
            ml += 1;
        }
        if ml > best_len {
            best_len = ml;
            best_off = s - origin;
        }
        s += 1;
    }
    if best_len >= 3 {
        Some((best_off, best_len))
    } else {
        None
    }
}

/// Both halves of a concatenation read back from it.
proof fn lemma_concat_parts(a: Seq<bool>, b: Seq<bool>)
    ensures
        (a + b).subrange(0, a.len() as int) == a,
        (a + b).subrange(a.len() as int, (a.len() + b.len()) as int) == b,
{
    assert((a + b).subrange(0, a.len() as int) =~= a);
    assert((a + b).subrange(a.len() as int, (a.len() + b.len()) as int) =~= b);
}

/// Greedily tokenizes a pixel buffer into the compressed bit stream.
///
/// The returned bit string decodes, for the returned token count and
/// the given stored pixel count, to the input buffer itself - followed
/// by at most one zero padding byte, which the decoder's final resize
/// discards.  The padding byte appears only when the literal-pair rule
/// demands a second literal that the buffer no longer has.
#[verifier::rlimit(100)]
pub fn compress_stream(data: &Vec<u8>, pixel_count: usize) -> (r: (Vec<bool>, u32))
    requires
        data@.len() <= 0x0800_0000,
    ensures
        spec_decode_iter(r.0@, r.1 as nat, pixel_count as nat) is Some,
        spec_decode_pos(r.0@, r.1 as nat, pixel_count as nat) == r.0@.len(),
        data@.len() <= spec_decode_out(r.0@, r.1 as nat, pixel_count as nat).len() <= data@.len()
            + 1,
        spec_decode_out(r.0@, r.1 as nat, pixel_count as nat).subrange(0, data@.len() as int)
            == data@,
        r.0@.len() <= 17 * data@.len(),
{
    let mut bits: Vec<bool> = Vec::new();
    let mut iterations: u32 = 0;
    let mut p: usize = 0;
    let ghost mut extra: Seq<u8> = Seq::empty();
    proof {
        vstd::arithmetic::power2::lemma2_to64();
        assert(spec_decode_iter(bits@, 0, pixel_count as nat) == Some((0int, Seq::<u8>::empty())));
        assert(data@.subrange(0, 0) + extra =~= Seq::<u8>::empty());
    }
    while p < data.len()
        invariant
            p <= data@.len(),
            data@.len() <= 0x0800_0000,
            iterations <= p,
            bits@.len() <= 17 * iterations,
            extra.len() <= 1,
            p < data@.len() ==> extra.len() == 0,
            extra.len() == 1 ==> extra[0] == 0,
            spec_decode_iter(bits@, iterations as nat, pixel_count as nat) == Some(
                (bits@.len() as int, data@.subrange(0, p as int) + extra),
            ),
        decreases data@.len() - p,
    {
        let ghost old_bits = bits@;
        let ghost decoded = data@.subrange(0, p as int);
        let ghost pc = pixel_count as nat;
        proof {
            vstd::arithmetic::power2::lemma2_to64();
            assert(data@.subrange(0, p as int) + extra =~= decoded);
        }
        match find_best_match(data, p) {
            Some(m) => {
                let off: usize = m.0;
                let len: usize = m.1;
                write_bits(&mut bits, 0, 1);
                write_bits(&mut bits, off as u32, 9);
                write_bits(&mut bits, (len - 3) as u32, 7);
                proof {
                    let t1 = spec_val_bits(0, 1);
                    let t9 = spec_val_bits(off as u32, 9);
                    let t7 = spec_val_bits((len - 3) as u32, 7);
                    assert(bits@ =~= old_bits + (t1 + t9 + t7));
                    lemma_concat_parts(old_bits, t1 + t9 + t7);
                    lemma_decode_iter_prefix(old_bits, bits@, iterations as nat, pc);
                    let pos = old_bits.len() as int;
                    assert((0u32 >> 0u32) & 1 == 0) by (bit_vector);
                    assert(bits@[pos] == t1[0]);
                    assert(bits@.subrange(pos + 1, pos + 10) =~= t9);
                    assert(bits@.subrange(pos + 10, pos + 17) =~= t7);
                    vstd::arithmetic::power2::lemma2_to64();
                    lemma_val_bits_roundtrip(off as u32, 9);
                    lemma_val_bits_roundtrip((len - 3) as u32, 7);
                    let origin = if p > 512 {
                        p - 512
                    } else {
                        0
                    };
                    assert(decoded.len() == p);
                    let s0 = origin + off;
                    lemma_lz_extend_from_input(data@, p as int, s0 as int, len as nat);
                    assert(data@.subrange(0, p as int) =~= data@.subrange(0, data@.len() as int)
                        .subrange(0, p as int));
                    assert(spec_decode_step(bits@, pos, decoded, pc) == Some(
                        (pos + 17, data@.subrange(0, (p + len) as int)),
                    ));
                    assert(spec_decode_iter(bits@, (iterations + 1) as nat, pc) == Some(
                        (bits@.len() as int, data@.subrange(0, (p + len) as int)),
                    ));
                    assert(data@.subrange(0, (p + len) as int) =~= data@.subrange(
                        0,
                        (p + len) as int,
                    ) + extra);
                }
                p += len;
            },
            None => {
                let px: u8 = data[p];
                write_bits(&mut bits, 1, 1);
                write_bits(&mut bits, px as u32, 8);
                let ghost t1 = spec_val_bits(1, 1);
                let ghost t8 = spec_val_bits(px as u32, 8);
                proof {
                    vstd::arithmetic::power2::lemma2_to64();
                    lemma_val_bits_roundtrip(px as u32, 8);
                    assert((1u32 >> 0u32) & 1 == 1) by (bit_vector);
                }
                if p + 2 < pixel_count {
                    // The format demands a second literal byte here.
                    if p + 1 < data.len() {
                        let px2: u8 = data[p + 1];
                        write_bits(&mut bits, px2 as u32, 8);
                        proof {
                            let t8b = spec_val_bits(px2 as u32, 8);
                            assert(bits@ =~= old_bits + (t1 + t8 + t8b));
                            lemma_concat_parts(old_bits, t1 + t8 + t8b);
                            lemma_decode_iter_prefix(old_bits, bits@, iterations as nat, pc);
                            let pos = old_bits.len() as int;
                            assert(bits@[pos] == t1[0]);
                            assert(bits@.subrange(pos + 1, pos + 9) =~= t8);
                            assert(bits@.subrange(pos + 9, pos + 17) =~= t8b);
                            lemma_val_bits_roundtrip(px2 as u32, 8);
                            assert(decoded.push(px) =~= data@.subrange(0, p + 1));
                            assert(decoded.push(px).push(px2) =~= data@.subrange(0, p + 2));
                            assert(spec_decode_step(bits@, pos, decoded, pc) == Some(
                                (pos + 17, data@.subrange(0, p + 2)),
                            ));
                            assert(data@.subrange(0, p + 2) =~= data@.subrange(0, p + 2) + extra);
                        }
                        p += 2;
                    } else {
                        // Final byte of an odd-length buffer: the pair rule
                        // still wants a second byte, so a zero is written;
                        // the decoder's resize discards it.
                        write_bits(&mut bits, 0, 8);
                        proof {
                            let t8b = spec_val_bits(0, 8);
                            assert(bits@ =~= old_bits + (t1 + t8 + t8b));
                            lemma_concat_parts(old_bits, t1 + t8 + t8b);
                            lemma_decode_iter_prefix(old_bits, bits@, iterations as nat, pc);
                            let pos = old_bits.len() as int;
                            assert(bits@[pos] == t1[0]);
                            assert(bits@.subrange(pos + 1, pos + 9) =~= t8);
                            assert(bits@.subrange(pos + 9, pos + 17) =~= t8b);
                            lemma_val_bits_roundtrip(0, 8);
                            assert(decoded.push(px) =~= data@.subrange(0, p + 1));
                            assert(spec_decode_step(bits@, pos, decoded, pc) == Some(
                                (pos + 17, data@.subrange(0, p + 1).push(0u8)),
                            ));
                            extra = seq![0u8];
                            assert(data@.subrange(0, p + 1).push(0u8) =~= data@.subrange(0, p + 1)
                                + extra);
                        }
                        p += 1;
                    }
                } else {
                    proof {
                        assert(bits@ =~= old_bits + (t1 + t8));
                        lemma_concat_parts(old_bits, t1 + t8);
                        lemma_decode_iter_prefix(old_bits, bits@, iterations as nat, pc);
                        let pos = old_bits.len() as int;
                        assert(bits@[pos] == t1[0]);
                        assert(bits@.subrange(pos + 1, pos + 9) =~= t8);
                        assert(decoded.push(px) =~= data@.subrange(0, p + 1));
                        assert(spec_decode_step(bits@, pos, decoded, pc) == Some(
                            (pos + 9, data@.subrange(0, p + 1)),
                        ));
                        assert(data@.subrange(0, p + 1) =~= data@.subrange(0, p + 1) + extra);
                    }
                    p += 1;
                }
            },
        }
        iterations += 1;
        proof {
            assert(data@.subrange(0, p as int) + extra == data@.subrange(0, p as int) + extra);
        }
    }
    proof {
        assert(p == data@.len());
        assert(data@.subrange(0, p as int) =~= data@);
        let out = data@ + extra;
        assert(out.subrange(0, data@.len() as int) =~= data@);
    }
    (bits, iterations)
}

/// The decoder state over a byte stream's bits.
pub open spec fn spec_stream_decode(stream: Seq<u8>, iters: nat, pc: nat) -> Option<
    (int, Seq<u8>),
> {
    spec_decode_iter(spec_bits_of_bytes(stream), iters, pc)
}

/// The decoded bytes of a byte stream (empty when decoding fails).
pub open spec fn spec_stream_decode_out(stream: Seq<u8>, iters: nat, pc: nat) -> Seq<u8> {
    spec_decode_out(spec_bits_of_bytes(stream), iters, pc)
}

/// Truncation or zero-padding to an exact pixel count, as the sprite
/// decoder applies after running the token stream.
pub open spec fn spec_resize(s: Seq<u8>, n: nat) -> Seq<u8> {
    if s.len() >= n {
        s.subrange(0, n as int)
    } else {
        s + Seq::new((n - s.len()) as nat, |j: int| 0u8)
    }
}

/// What the compressor guarantees about its output stream: decoding it
/// for the stored token count yields the compressed buffer, with at
/// most one trailing zero padding byte.
pub open spec fn spec_compressed_for(stream: Seq<u8>, iters: nat, pc: nat, data: Seq<u8>) -> bool {
    &&& spec_stream_decode(stream, iters, pc) is Some
    &&& data.len() <= spec_stream_decode_out(stream, iters, pc).len() <= data.len() + 1
    &&& spec_stream_decode_out(stream, iters, pc).subrange(0, data.len() as int) == data
}

/// Round-trip identity: resizing the decode of a compressed stream to
/// the compressed buffer's length restores the buffer exactly.
pub proof fn lemma_compress_roundtrip(stream: Seq<u8>, iters: nat, pc: nat, data: Seq<u8>)
    requires
        spec_compressed_for(stream, iters, pc, data),
    ensures
        spec_resize(spec_stream_decode_out(stream, iters, pc), data.len()) == data,
{
}

/// Compresses a pixel buffer to an even-length byte stream and its
/// token count.  Decoding the stream restores the buffer (see
/// `spec_compressed_for` and `lemma_compress_roundtrip`).
#[verifier::rlimit(60)]
pub fn compress_pixels(data: &Vec<u8>, pixel_count: usize) -> (r: CompressedData)
    requires
        data@.len() <= 0x0800_0000,
    ensures
        spec_compressed_for(r.stream@, r.iterations as nat, pixel_count as nat, data@),
        r.stream@.len() % 2 == 0,
        r.stream@.len() <= 3 * data@.len() + 16,
{
    let (bits, iterations) = compress_stream(data, pixel_count);
    let mut stream: Vec<u8> = bits_to_bytes(&bits);
    let ghost packed = stream@;
    proof {
        assert(spec_bits_of_bytes(packed).subrange(0, bits@.len() as int) =~= bits@);
        lemma_decode_iter_prefix(
            bits@,
            spec_bits_of_bytes(packed),
            iterations as nat,
            pixel_count as nat,
        );
    }
    if stream.len() % 2 == 1 {
        stream.push(0x00);
        proof {
            assert forall|i: int| 0 <= i < 8 * packed.len() implies spec_bits_of_bytes(stream@)[i]
                == spec_bits_of_bytes(packed)[i] by {
                assert(stream@[i / 8] == packed[i / 8]);
            }
            assert(spec_bits_of_bytes(stream@).subrange(0, 8 * packed.len() as int) =~= spec_bits_of_bytes(
                packed,
            ));
            assert(spec_bits_of_bytes(packed).subrange(
                0,
                bits@.len() as int,
            ) =~= spec_bits_of_bytes(stream@).subrange(0, bits@.len() as int));
            lemma_decode_iter_prefix(
                bits@,
                spec_bits_of_bytes(stream@),
                iterations as nat,
                pixel_count as nat,
            );
        }
    }
    CompressedData { stream, iterations }
}

/// Decodes a compressed byte stream for its stored token count.
pub fn decompress_pixels(stream: &Vec<u8>, iterations: u32, pixel_count: usize) -> (r: Result<
    Vec<u8>,
    CodecError,
>)
    requires
        stream@.len() <= usize::MAX / 16,
    ensures
        match r {
            Ok(out) => spec_stream_decode(stream@, iterations as nat, pixel_count as nat) is Some
                && out@ == spec_stream_decode_out(stream@, iterations as nat, pixel_count as nat),
            Err(e) => spec_stream_decode(stream@, iterations as nat, pixel_count as nat) is None
                && e == CodecError::DecodeOverrun,
        },
{
    let bits = bytes_to_bits(stream);
    decode_stream(&bits, iterations, pixel_count)
}

/// The embedded palette's byte length implied by the header fields: 64
/// or 1024 bytes when the clut flag is set, none otherwise.
pub open spec fn spec_pal_len(clut: u16, bit_depth: u16) -> int {
    if clut == 0x20 {
        if bit_depth == 4 {
            64
        } else {
            1024
        }
    } else {
        0
    }
}

/// Adjacent byte pairs exchanged: the container stores the bit stream
/// as 16-bit little-endian words, which must be swapped to big-endian
/// byte order before bit-level parsing.
pub open spec fn spec_swap_pairs(s: Seq<u8>) -> Seq<u8> {
    Seq::new(
        s.len(),
        |i: int|
            if i % 2 == 0 {
                if i + 1 < s.len() {
                    s[i + 1]
                } else {
                    0u8
                }
            } else {
                s[i - 1]
            },
    )
}

/// Swapping byte pairs twice restores an even-length buffer.
pub proof fn lemma_swap_pairs_involution(s: Seq<u8>)
    requires
        s.len() % 2 == 0,
    ensures
        spec_swap_pairs(spec_swap_pairs(s)) =~= s,
{
    assert forall|i: int| 0 <= i < s.len() implies spec_swap_pairs(spec_swap_pairs(s))[i]
        == s[i] by {
        if i % 2 == 0 {
            assert((i + 1) % 2 == 1);
        } else {
            assert((i - 1) % 2 == 0);
            assert(i - 1 + 1 < s.len());
        }
    }
}

/// A packed 4 bit-per-pixel buffer expanded to one byte per pixel, low
/// nibble first (the convention of the sprite records).
pub open spec fn spec_expand4lo(s: Seq<u8>) -> Seq<u8> {
    Seq::new(2 * s.len(), |k: int| crate::transform::spec_nibbles(s[k / 2], true)[k % 2])
}

/// A one-byte-per-pixel buffer packed to 4 bits per pixel, low nibble
/// first, values clamped to 4 bits, with a zero nibble closing an odd
/// pixel count.
pub open spec fn spec_pack4_seq(s: Seq<u8>) -> Seq<u8> {
    Seq::new(
        (s.len() + 1) / 2,
        |k: int|
            if 2 * k + 1 < s.len() {
                crate::transform::spec_pack4(s[2 * k], s[2 * k + 1], true)
            } else {
                crate::transform::spec_pack4_last(s[2 * k], true)
            },
    )
}

/// The byte buffer the token stream actually encodes: the pixels
/// themselves at 8 bits per pixel, or their 4-bit packing.
pub open spec fn spec_pix_packed(pixels: Seq<u8>, bit_depth: u16) -> Seq<u8> {
    if bit_depth == 4 {
        spec_pack4_seq(pixels)
    } else {
        pixels
    }
}

/// Expanding a packed buffer restores each pixel clamped to 4 bits.
pub proof fn lemma_expand_pack(s: Seq<u8>, k: int)
    requires
        0 <= k < s.len(),
    ensures
        spec_expand4lo(spec_pack4_seq(s))[k] == crate::transform::spec_clamp4(s[k]),
{
    let packed = spec_pack4_seq(s);
    assert(0 <= k / 2 < packed.len());
    if 2 * (k / 2) + 1 < s.len() {
        let a: u8 = crate::transform::spec_clamp4(s[2 * (k / 2)]);
        let b: u8 = crate::transform::spec_clamp4(s[2 * (k / 2) + 1]);
        assert(a < 16 && b < 16);
        let byte: u8 = packed[k / 2];
        assert(byte == (b << 4) | (a & 0xF));
        assert(a < 16 && b < 16 ==> (((b << 4) | (a & 0xF)) & 0xF == a && ((b << 4) | (a & 0xF))
            >> 4 == b)) by (bit_vector);
        if k % 2 == 0 {
            assert(s[2 * (k / 2)] == s[k]);
        } else {
            assert(s[2 * (k / 2) + 1] == s[k]);
        }
    } else {
        assert(k % 2 == 0);
        let a: u8 = crate::transform::spec_clamp4(s[2 * (k / 2)]);
        assert(a < 16);
        let byte: u8 = packed[k / 2];
        assert(byte == a & 0xF);
        assert(a < 16 ==> ((a & 0xF) & 0xF == a)) by (bit_vector);
        assert(s[2 * (k / 2)] == s[k]);
    }
}

/// Round-trip identity for sprite pixel buffers: decoding a compressed
/// sprite stream, expanding 4 bit-per-pixel data, and resizing to the
/// sprite's pixel count restores the pixels exactly, at either depth.
pub proof fn lemma_sprite_pixels_roundtrip(
    stream: Seq<u8>,
    iters: nat,
    pixels: Seq<u8>,
    bit_depth: u16,
    wh: nat,
)
    requires
        bit_depth == 4 || bit_depth == 8,
        pixels.len() == wh,
        bit_depth == 4 ==> forall|i: int| 0 <= i < pixels.len() ==> pixels[i] < 16,
        spec_compressed_for(stream, iters, wh, spec_pix_packed(pixels, bit_depth)),
    ensures
        ({
            let out = spec_stream_decode_out(stream, iters, wh);
            let expanded = if bit_depth == 4 {
                spec_expand4lo(out)
            } else {
                out
            };
            spec_resize(expanded, wh) == pixels
        }),
{
    let out = spec_stream_decode_out(stream, iters, wh);
    let packed = spec_pix_packed(pixels, bit_depth);
    if bit_depth == 8 {
        assert(spec_resize(out, wh) =~= pixels);
    } else {
        let expanded = spec_expand4lo(out);
        assert(packed.len() == (wh + 1) / 2);
        assert(expanded.len() == 2 * out.len() >= wh);
        assert forall|k: int| 0 <= k < wh implies spec_resize(expanded, wh)[k] == pixels[k] by {
            assert(k / 2 < packed.len());
            assert(out[k / 2] == out.subrange(0, packed.len() as int)[k / 2]);
            assert(out[k / 2] == packed[k / 2]);
            assert(expanded[k] == spec_expand4lo(packed)[k]);
            lemma_expand_pack(pixels, k);
            assert(crate::transform::spec_clamp4(pixels[k]) == pixels[k]);
        }
        assert(spec_resize(expanded, wh) =~= pixels);
    }
}

/// The pixel buffer a sprite record decodes to, or `None` when the
/// record is shorter than its header promises, has an odd stream, the
/// token stream fails to decode, or the decode exceeds the resource
/// bound.
pub open spec fn spec_decompress_pixels(bin: Seq<u8>, header: crate::sprite::BinHeader) -> Option<
    Seq<u8>,
> {
    let ptr = 16 + spec_pal_len(header.clut, header.bit_depth);
    let wh = (header.width as int * header.height as int) as nat;
    if bin.len() < ptr + 4 || (bin.len() - ptr - 4) % 2 != 0 {
        None
    } else {
        let iters = crate::bytes::spec_u32_le(bin[ptr + 2], bin[ptr + 3], bin[ptr], bin[ptr + 1]);
        let body = spec_swap_pairs(bin.subrange(ptr + 4, bin.len() as int));
        match spec_stream_decode(body, iters as nat, wh) {
            None => None,
            Some(st) => if st.1.len() > 0x2000_0000 {
                None
            } else {
                Some(
                    spec_resize(
                        if header.bit_depth == 4 {
                            spec_expand4lo(st.1)
                        } else {
                            st.1
                        },
                        wh,
                    ),
                )
            },
        }
    }
}

/// Decodes a compressed sprite record: reads the embedded palette and
/// the iteration count, un-swaps the 16-bit words of the stream, runs
/// the token decoder, expands 4 bit-per-pixel output, and resizes to
/// exactly `width * height` pixels.
///
/// Fails with `TooShort` when the record cannot hold the promised
/// palette and iteration count or its stream has an odd byte count, and
/// with `DecodeOverrun` when the token stream fails to decode (or the
/// decode exceeds the resource bound).
#[verifier::rlimit(60)]
pub fn decompress(bin_data: &Vec<u8>, header: &crate::sprite::BinHeader) -> (r: Result<
    SpriteData,
    CodecError,
>)
    requires
        header.bit_depth == 4 || header.bit_depth == 8,
        bin_data@.len() <= usize::MAX / 16,
    ensures
        match r {
            Ok(s) => {
                &&& spec_decompress_pixels(bin_data@, *header) == Some(s.pixels@)
                &&& s.width == header.width
                &&& s.height == header.height
                &&& s.bit_depth == header.bit_depth
                &&& s.palette@ == bin_data@.subrange(
                    16,
                    16 + spec_pal_len(header.clut, header.bit_depth),
                )
            },
            Err(e) => {
                &&& spec_decompress_pixels(bin_data@, *header) is None
                &&& (e == CodecError::TooShort || e == CodecError::DecodeOverrun)
            },
        },
{
    let pal_len: usize = if header.clut == 0x20 {
        if header.bit_depth == 4 {
            64
        } else {
            1024
        }
    } else {
        0
    };
    let pointer: usize = 16 + pal_len;
    if bin_data.len() < pointer + 4 {
        return Err(CodecError::TooShort);
    }
    if (bin_data.len() - pointer - 4) % 2 != 0 {
        return Err(CodecError::TooShort);
    }
    let mut palette: Vec<u8> = Vec::new();
    let mut i: usize = 0;
    while i < pal_len
        invariant
            i <= pal_len,
            pal_len + 20 <= bin_data@.len(),
            bin_data@.len() <= usize::MAX / 16,
            palette@.len() == i,
            forall|j: int| 0 <= j < i ==> palette@[j] == bin_data@[16 + j],
        decreases pal_len - i,
    {
        palette.push(bin_data[16 + i]);
        i += 1;
    }
    proof {
        assert(palette@ =~= bin_data@.subrange(16, 16 + pal_len as int));
    }
    let iterations: u32 = crate::bytes::u32_from_le(
        bin_data[pointer + 2],
        bin_data[pointer + 3],
        bin_data[pointer],
        bin_data[pointer + 1],
    );
    let ghost region = bin_data@.subrange(pointer + 4, bin_data@.len() as int);
    let mut byte_data: Vec<u8> = Vec::new();
    let mut i: usize = pointer + 4;
    while i < bin_data.len()
        invariant
            pointer + 4 <= i <= bin_data@.len(),
            (i - pointer - 4) % 2 == 0,
            (bin_data@.len() - pointer - 4) % 2 == 0,
            bin_data@.len() <= usize::MAX / 16,
            region == bin_data@.subrange(pointer + 4, bin_data@.len() as int),
            byte_data@.len() == i - pointer - 4,
            forall|j: int| 0 <= j < byte_data@.len() ==> byte_data@[j] == spec_swap_pairs(region)[j],
        decreases bin_data@.len() - i,
    {
        byte_data.push(bin_data[i + 1]);
        byte_data.push(bin_data[i]);
        proof {
            let base = pointer + 4;
            assert forall|j: int| i - base <= j < i - base + 2 implies byte_data@[j]
                == spec_swap_pairs(region)[j] by {
                if j == i - base {
                    assert(j % 2 == 0);
                    assert(region[j + 1] == bin_data@[base + j + 1]);
                } else {
                    assert(j == i - base + 1);
                    assert(j % 2 == 1);
                    assert(region[j - 1] == bin_data@[base + j - 1]);
                }
            }
        }
        i += 2;
    }
    proof {
        assert(byte_data@ =~= spec_swap_pairs(region));
    }
    proof {
        vstd::arithmetic::mul::lemma_mul_upper_bound(
            header.width as int,
            0xFFFF,
            header.height as int,
            0xFFFF,
        );
    }
    let wh: usize = header.width as usize * header.height as usize;
    match decompress_pixels(&byte_data, iterations, wh) {
        Err(_) => Err(CodecError::DecodeOverrun),
        Ok(out) => {
            if out.len() > 0x2000_0000 {
                return Err(CodecError::DecodeOverrun);
            }
            let ghost decoded = out@;
            let mut pixels: Vec<u8> = out;
            if header.bit_depth == 4 {
                pixels = crate::transform::bpp_from_4(pixels, true);
                proof {
                    assert(pixels@ =~= spec_expand4lo(decoded));
                }
            }
            let ghost expanded = pixels@;
            pixels.truncate(wh);
            while pixels.len() < wh
                invariant
                    pixels@.len() <= wh,
                    wh <= usize::MAX,
                    expanded.len() >= wh ==> pixels@ == expanded.subrange(0, wh as int),
                    expanded.len() < wh ==> pixels@.len() >= expanded.len() && pixels@.subrange(
                        0,
                        expanded.len() as int,
                    ) == expanded && (forall|j: int| expanded.len() <= j < pixels@.len()
                        ==> pixels@[j] == 0),
                decreases wh - pixels@.len(),
            {
                pixels.push(0u8);
                proof {
                    if expanded.len() < wh {
                        assert(pixels@.subrange(0, expanded.len() as int) =~= expanded);
                    }
                }
            }
            proof {
                assert(pixels@ =~= spec_resize(expanded, wh as nat));
            }
            Ok(
                SpriteData {
                    width: header.width,
                    height: header.height,
                    bit_depth: header.bit_depth,
                    pixels,
                    palette,
                },
            )
        },
    }
}

/// Compresses a sprite's pixel buffer: packs 4 bit-per-pixel sprites
/// two pixels to the byte, then tokenizes greedily.  The stored pixel
/// count is `width * height`; decoding the stream restores the packed
/// buffer (see `lemma_sprite_pixels_roundtrip`).
pub fn compress(sprite_data: SpriteData) -> (r: CompressedData)
    requires
        sprite_data.pixels@.len() <= 0x0800_0000,
        sprite_data.bit_depth == 4 || sprite_data.bit_depth == 8,
    ensures
        spec_compressed_for(
            r.stream@,
            r.iterations as nat,
            (sprite_data.width as int * sprite_data.height as int) as nat,
            spec_pix_packed(sprite_data.pixels@, sprite_data.bit_depth),
        ),
        r.stream@.len() % 2 == 0,
        r.stream@.len() <= 3 * sprite_data.pixels@.len() + 16,
{
    proof {
        vstd::arithmetic::mul::lemma_mul_upper_bound(
            sprite_data.width as int,
            0xFFFF,
            sprite_data.height as int,
            0xFFFF,
        );
    }
    let wh: usize = sprite_data.width as usize * sprite_data.height as usize;
    let ghost orig = sprite_data.pixels@;
    let packed: Vec<u8> = if sprite_data.bit_depth == 4 {
        crate::transform::bpp_to_4(sprite_data.pixels, true)
    } else {
        sprite_data.pixels
    };
    proof {
        assert(packed@ =~= spec_pix_packed(orig, sprite_data.bit_depth));
    }
    compress_pixels(&packed, wh)
}

} // verus!
