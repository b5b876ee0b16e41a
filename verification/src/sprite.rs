//! The sprite container record: a 16-byte header, an optional embedded
//! palette, and either raw bit-packed pixels or a compressed stream
//! prefixed by its iteration count in `[2, 3, 0, 1]` byte order.

use vstd::prelude::*;
use crate::bytes::{spec_u16_le, push_u16_le, u16_from_le, spec_u16_le_bytes};
use crate::compress::{
    compress, decompress, lemma_sprite_pixels_roundtrip, lemma_swap_pairs_involution,
    spec_compressed_for, spec_decompress_pixels, spec_expand4lo, spec_pal_len, spec_pix_packed,
    spec_resize, spec_swap_pairs, CompressedData, SpriteData,
};
use crate::transform::{bpp_from_4, reindex_vector, spec_transform_index};

verus! {

/// The record header is always 16 bytes.
pub const HEADER_SIZE: usize = 16;

/// The decoded fields of a sprite record's 16-byte header.
pub struct BinHeader {
    pub compressed: bool,
    pub clut: u16,
    pub bit_depth: u16,
    pub width: u16,
    pub height: u16,
    pub tw: u16,
    pub th: u16,
    pub hash: u16,
}

/// The header parsed from the first 16 bytes of a record.
pub open spec fn spec_header_of(data: Seq<u8>) -> BinHeader {
    BinHeader {
        compressed: data[0] == 1,
        clut: spec_u16_le(data[2], data[3]),
        bit_depth: spec_u16_le(data[4], data[5]),
        width: spec_u16_le(data[6], data[7]),
        height: spec_u16_le(data[8], data[9]),
        tw: spec_u16_le(data[10], data[11]),
        th: spec_u16_le(data[12], data[13]),
        hash: spec_u16_le(data[14], data[15]),
    }
}

/// Parses the 16-byte record header.
pub fn get_header(data: &Vec<u8>) -> (r: BinHeader)
    requires
        data@.len() >= 16,
    ensures
        r == spec_header_of(data@),
{
    BinHeader {
        compressed: data[0] == 1,
        clut: u16_from_le(data[2], data[3]),
        bit_depth: u16_from_le(data[4], data[5]),
        width: u16_from_le(data[6], data[7]),
        height: u16_from_le(data[8], data[9]),
        tw: u16_from_le(data[10], data[11]),
        th: u16_from_le(data[12], data[13]),
        hash: u16_from_le(data[14], data[15]),
    }
}

/// The 16 bytes of a record header with the given fields.
pub open spec fn spec_make_header(
    compressed: bool,
    clut: u16,
    bit_depth: u16,
    width: u16,
    height: u16,
    tw: u16,
    th: u16,
    hash: u16,
) -> Seq<u8> {
    seq![
        if compressed {
            1u8
        } else {
            0u8
        },
        0u8,
    ] + spec_u16_le_bytes(clut) + spec_u16_le_bytes(bit_depth) + spec_u16_le_bytes(width)
        + spec_u16_le_bytes(height) + spec_u16_le_bytes(tw) + spec_u16_le_bytes(th)
        + spec_u16_le_bytes(hash)
}

/// Serializes a record header: mode byte, reserved zero, then the six
/// little-endian 16-bit fields and the advisory hash.
pub fn make_header(
    compressed: bool,
    clut: u16,
    bit_depth: u16,
    width: u16,
    height: u16,
    tw: u16,
    th: u16,
    hash: u16,
) -> (r: Vec<u8>)
    ensures
        r@ == spec_make_header(compressed, clut, bit_depth, width, height, tw, th, hash),
        r@.len() == 16,
{
    let mut return_vector: Vec<u8> = Vec::new();
    if compressed {
        return_vector.push(0x01);
    } else {
        return_vector.push(0x00);
    }
    return_vector.push(0x00);
    push_u16_le(&mut return_vector, clut);
    push_u16_le(&mut return_vector, bit_depth);
    push_u16_le(&mut return_vector, width);
    push_u16_le(&mut return_vector, height);
    push_u16_le(&mut return_vector, tw);
    push_u16_le(&mut return_vector, th);
    push_u16_le(&mut return_vector, hash);
    proof {
        assert(return_vector@ =~= spec_make_header(
            compressed,
            clut,
            bit_depth,
            width,
            height,
            tw,
            th,
            hash,
        ));
    }
    return_vector
}

/// Parsing the serialized header restores every field.
proof fn lemma_header_parse(
    s: Seq<u8>,
    compressed: bool,
    clut: u16,
    bit_depth: u16,
    width: u16,
    height: u16,
    tw: u16,
    th: u16,
    hash: u16,
)
    requires
        s.len() >= 16,
        s.subrange(0, 16) == spec_make_header(
            compressed,
            clut,
            bit_depth,
            width,
            height,
            tw,
            th,
            hash,
        ),
    ensures
        spec_header_of(s) == (BinHeader {
            compressed,
            clut,
            bit_depth,
            width,
            height,
            tw,
            th,
            hash,
        }),
{
    let h = spec_make_header(compressed, clut, bit_depth, width, height, tw, th, hash);
    assert forall|k: int| 0 <= k < 16 implies s[k] == h[k] by {
        assert(s.subrange(0, 16)[k] == s[k]);
    }
    assert(h[0] == if compressed {
        1u8
    } else {
        0u8
    });
    assert(h[2] == (clut % 256) as u8 && h[3] == (clut / 256) as u8);
    assert(h[4] == (bit_depth % 256) as u8 && h[5] == (bit_depth / 256) as u8);
    assert(h[6] == (width % 256) as u8 && h[7] == (width / 256) as u8);
    assert(h[8] == (height % 256) as u8 && h[9] == (height / 256) as u8);
    assert(h[10] == (tw % 256) as u8 && h[11] == (tw / 256) as u8);
    assert(h[12] == (th % 256) as u8 && h[13] == (th / 256) as u8);
    assert(h[14] == (hash % 256) as u8 && h[15] == (hash / 256) as u8);
}

/// The four bytes the container stores for the iteration count, in
/// `[2, 3, 0, 1]` byte order.
pub open spec fn spec_iter_bytes(it: u32) -> Seq<u8> {
    seq![
        ((it / 0x10000) % 0x100) as u8,
        (it / 0x1000000) as u8,
        (it % 0x100) as u8,
        ((it / 0x100) % 0x100) as u8,
    ]
}

/// A record assembled as header, palette, iteration count and
/// word-swapped stream parses back to its header fields and
/// decompresses to the pixels the stream encodes.
#[verifier::rlimit(100)]
proof fn lemma_record_decodes(
    bin: Seq<u8>,
    clut: u16,
    bit_depth: u16,
    width: u16,
    height: u16,
    hash: u16,
    palette: Seq<u8>,
    iterations: u32,
    stream: Seq<u8>,
    pixels: Seq<u8>,
)
    requires
        bin == spec_make_header(true, clut, bit_depth, width, height, 0, 0, hash) + palette
            + spec_iter_bytes(iterations) + spec_swap_pairs(stream),
        stream.len() % 2 == 0,
        bit_depth == 4 || bit_depth == 8,
        clut == if palette.len() == 0 {
            0u16
        } else {
            0x20u16
        },
        palette.len() == 0 || palette.len() == spec_pal_len(0x20, bit_depth),
        pixels.len() == width as int * height as int,
        pixels.len() <= 0x0400_0000,
        bit_depth == 4 ==> forall|i: int| 0 <= i < pixels.len() ==> pixels[i] < 16,
        spec_compressed_for(
            stream,
            iterations as nat,
            (width as int * height as int) as nat,
            spec_pix_packed(pixels, bit_depth),
        ),
    ensures
        spec_header_of(bin) == (BinHeader {
            compressed: true,
            clut,
            bit_depth,
            width,
            height,
            tw: 0u16,
            th: 0u16,
            hash,
        }),
        bin.subrange(16, 16 + palette.len() as int) == palette,
        spec_decompress_pixels(bin, spec_header_of(bin)) == Some(pixels),
        bin.len() >= 20,
{
    let wh = (width as int * height as int) as nat;
    assert(bin.subrange(0, 16) =~= spec_make_header(
        true,
        clut,
        bit_depth,
        width,
        height,
        0,
        0,
        hash,
    ));
    lemma_header_parse(bin, true, clut, bit_depth, width, height, 0, 0, hash);
    let h = spec_header_of(bin);
    let ptr = 16 + spec_pal_len(h.clut, h.bit_depth);
    assert(spec_pal_len(h.clut, h.bit_depth) == palette.len());
    assert(bin.len() == ptr + 4 + stream.len());
    assert((bin.len() - ptr - 4) % 2 == 0);
    assert(bin[ptr] == spec_iter_bytes(iterations)[0] && bin[ptr + 1] == spec_iter_bytes(
        iterations,
    )[1] && bin[ptr + 2] == spec_iter_bytes(iterations)[2] && bin[ptr + 3] == spec_iter_bytes(
        iterations,
    )[3]);
    assert(crate::bytes::spec_u32_le(bin[ptr + 2], bin[ptr + 3], bin[ptr], bin[ptr + 1])
        == iterations);
    assert(bin.subrange(ptr + 4, bin.len() as int) =~= spec_swap_pairs(stream));
    lemma_swap_pairs_involution(stream);
    assert(spec_swap_pairs(bin.subrange(ptr + 4, bin.len() as int)) =~= stream);
    lemma_sprite_pixels_roundtrip(stream, iterations as nat, pixels, bit_depth, wh);
    assert(spec_decompress_pixels(bin, h) == Some(pixels));
    assert(bin.subrange(16, 16 + palette.len() as int) =~= palette);
}

/// The XOR-fold of the first `k` 16-bit little-endian words of a byte
/// stream: the advisory hash of a compressed sprite record.
pub open spec fn spec_words_xor(s: Seq<u8>, k: nat) -> u16
    decreases k,
{
    if k == 0 {
        0
    } else {
        spec_words_xor(s, (k - 1) as nat) ^ spec_u16_le(s[2 * (k - 1)], s[2 * (k - 1) + 1])
    }
}

/// The same fold read from a word-swapped region: word `w` of the
/// original stream sits byte-reversed at `base + 2 w`.
pub open spec fn spec_swapped_words_xor(d: Seq<u8>, base: int, k: nat) -> u16
    decreases k,
{
    if k == 0 {
        0
    } else {
        spec_swapped_words_xor(d, base, (k - 1) as nat) ^ spec_u16_le(
            d[base + 2 * (k - 1) + 1],
            d[base + 2 * (k - 1)],
        )
    }
}

/// Folding the swapped region equals folding the stream it swaps.
proof fn lemma_swapped_hash(d: Seq<u8>, base: int, stream: Seq<u8>, k: nat)
    requires
        0 <= base,
        2 * k <= stream.len(),
        base + stream.len() <= d.len(),
        forall|j: int| 0 <= j < stream.len() ==> #[trigger] d[base + j] == spec_swap_pairs(
            stream,
        )[j],
    ensures
        spec_swapped_words_xor(d, base, k) == spec_words_xor(stream, k),
    decreases k,
{
    if k > 0 {
        lemma_swapped_hash(d, base, stream, (k - 1) as nat);
        let w = 2 * (k - 1);
        let w1 = w + 1;
        assert(d[base + w] == spec_swap_pairs(stream)[w]);
        assert(d[base + w1] == spec_swap_pairs(stream)[w1]);
        assert(spec_swap_pairs(stream)[w] == stream[w + 1]);
        assert(spec_swap_pairs(stream)[w1] == stream[w]);
    }
}

/// A loaded sprite: a flat indexed pixel buffer, its dimensions and
/// color depth, and the embedded RGBA palette if the record carried one.
pub struct BinSprite {
    pub pixels: Vec<u8>,
    pub width: u16,
    pub height: u16,
    pub bit_depth: u16,
    pub palette: Vec<u8>,
}

/// A sprite whose fields agree: the pixel buffer covers the dimensions
/// exactly, the depth is 4 or 8, pixel values fit the depth, and the
/// palette is absent or exactly full.
pub open spec fn spec_sprite_wf(s: BinSprite) -> bool {
    &&& s.pixels@.len() == s.width as int * s.height as int
    &&& s.bit_depth == 4 || s.bit_depth == 8
    &&& s.bit_depth == 4 ==> forall|i: int| 0 <= i < s.pixels@.len() ==> s.pixels@[i] < 16
    &&& s.palette@.len() == 0 || s.palette@.len() == spec_pal_len(0x20, s.bit_depth)
}

impl BinSprite {
    /// Builds a sprite from decoded parts.
    pub fn new_from_data(
        pixels: Vec<u8>,
        width: u16,
        height: u16,
        bit_depth: u16,
        palette: Vec<u8>,
    ) -> (r: BinSprite)
        ensures
            r.pixels == pixels,
            r.width == width,
            r.height == height,
            r.bit_depth == bit_depth,
            r.palette == palette,
    {
        BinSprite { pixels, width, height, bit_depth, palette }
    }

    /// Reorders every pixel's palette index between the stored 1-3-2-4
    /// order and linear order (its own inverse).
    pub fn reindex(&mut self)
        ensures
            final(self).pixels@.len() == old(self).pixels@.len(),
            forall|i: int| 0 <= i < old(self).pixels@.len() ==> final(self).pixels@[i]
                == spec_transform_index(old(self).pixels@[i]),
            final(self).width == old(self).width,
            final(self).height == old(self).height,
            final(self).bit_depth == old(self).bit_depth,
            final(self).palette == old(self).palette,
    {
        let mut pixels: Vec<u8> = Vec::new();
        core::mem::swap(&mut pixels, &mut self.pixels);
        self.pixels = reindex_vector(pixels);
    }

    /// Serializes the sprite as a compressed record: header (with the
    /// advisory hash), embedded palette, iteration count in
    /// `[2, 3, 0, 1]` byte order, then the word-swapped token stream.
    ///
    /// The contract is the record-level round trip: the result parses
    /// back to the same header fields and palette (including the
    /// reserved zero byte), the hash field is the XOR-fold of the
    /// stream's 16-bit words, and decompressing the record restores
    /// `self.pixels` exactly.
    #[verifier::rlimit(100)]
    pub fn to_bin(&self) -> (r: Vec<u8>)
        requires
            spec_sprite_wf(*self),
            self.width as int * self.height as int <= 0x0400_0000,
        ensures
            r@.len() >= 20,
            r@.len() <= 36 + 0x400 + 3 * self.pixels@.len(),
            spec_header_of(r@) == (BinHeader {
                compressed: true,
                clut: if self.palette@.len() == 0 {
                    0u16
                } else {
                    0x20u16
                },
                bit_depth: self.bit_depth,
                width: self.width,
                height: self.height,
                tw: 0u16,
                th: 0u16,
                hash: spec_header_of(r@).hash,
            }),
            r@[0] == 1 && r@[1] == 0,
            ({
                let stream_base = 16 + self.palette@.len() + 4;
                &&& (r@.len() - stream_base) % 2 == 0
                &&& spec_header_of(r@).hash == spec_swapped_words_xor(
                    r@,
                    stream_base as int,
                    ((r@.len() - stream_base) / 2) as nat,
                )
            }),
            r@.subrange(16, 16 + self.palette@.len() as int) == self.palette@,
            spec_decompress_pixels(r@, spec_header_of(r@)) == Some(self.pixels@),
    {
        let pixels: Vec<u8> = self.pixels.clone();
        proof {
            assert(pixels@ =~= self.pixels@);
        }
        let sprite_data = SpriteData {
            width: self.width,
            height: self.height,
            bit_depth: self.bit_depth,
            pixels,
            palette: Vec::new(),
        };
        let compressed_data: CompressedData = compress(sprite_data);
        let stream: Vec<u8> = compressed_data.stream;
        let iterations: u32 = compressed_data.iterations;
        proof {
            assert(stream@.len() <= 3 * self.pixels@.len() + 16);
        }
        let ghost wh = (self.width as int * self.height as int) as nat;
        let ghost packed = spec_pix_packed(self.pixels@, self.bit_depth);

        // Advisory hash: the XOR-fold of the stream's 16-bit
        // little-endian words.
        let mut hash: u16 = 0;
        let mut b: usize = 0;
        while b < stream.len() / 2
            invariant
                b <= stream@.len() / 2,
                stream@.len() % 2 == 0,
                stream@.len() <= usize::MAX,
                hash == spec_words_xor(stream@, b as nat),
            decreases stream@.len() / 2 - b,
        {
            proof {
                vstd::arithmetic::div_mod::lemma_fundamental_div_mod(stream@.len() as int, 2);
            }
            hash = hash ^ u16_from_le(stream[2 * b], stream[2 * b + 1]);
            b += 1;
        }

        let clut: u16 = if self.palette.len() != 0 {
            0x20
        } else {
            0x00
        };
        let header: Vec<u8> = make_header(
            true,
            clut,
            self.bit_depth,
            self.width,
            self.height,
            0x0000,
            0x0000,
            hash,
        );
        let mut bin_data: Vec<u8> = Vec::new();
        let mut i: usize = 0;
        while i < 16
            invariant
                i <= 16,
                header@.len() == 16,
                bin_data@.len() == i,
                bin_data@ == header@.subrange(0, i as int),
            decreases 16 - i,
        {
            bin_data.push(header[i]);
            proof {
                assert(bin_data@ =~= header@.subrange(0, i + 1));
            }
            i += 1;
        }
        proof {
            assert(bin_data@ =~= header@);
        }
        let mut i: usize = 0;
        while i < self.palette.len()
            invariant
                i <= self.palette@.len(),
                self.palette@.len() <= 0x400,
                header@.len() == 16,
                bin_data@.len() == 16 + i,
                bin_data@ == header@ + self.palette@.subrange(0, i as int),
            decreases self.palette@.len() - i,
        {
            bin_data.push(self.palette[i]);
            proof {
                assert(bin_data@ =~= header@ + self.palette@.subrange(0, i + 1));
            }
            i += 1;
        }
        proof {
            assert(header@ + self.palette@.subrange(
                0,
                self.palette@.len() as int,
            ) =~= header@ + self.palette@);
        }
        // Iteration count in [2, 3, 0, 1] byte order.
        let ghost iter_bytes = spec_iter_bytes(iterations);
        bin_data.push(((iterations / 0x10000) % 0x100) as u8);
        bin_data.push((iterations / 0x1000000) as u8);
        bin_data.push((iterations % 0x100) as u8);
        bin_data.push(((iterations / 0x100) % 0x100) as u8);
        proof {
            assert(bin_data@ =~= header@ + self.palette@ + iter_bytes);
        }
        // Word-swapped stream.
        let ghost swap_base = bin_data@.len() as int;
        let ghost before_swap = bin_data@;
        let mut i: usize = 0;
        while i < stream.len() / 2
            invariant
                i <= stream@.len() / 2,
                stream@.len() % 2 == 0,
                stream@.len() <= usize::MAX - 64,
                swap_base + stream@.len() <= usize::MAX,
                swap_base == before_swap.len(),
                bin_data@.len() == swap_base + 2 * i,
                bin_data@.subrange(0, swap_base) == before_swap,
                forall|j: int| 0 <= j < 2 * i ==> bin_data@[swap_base + j] == spec_swap_pairs(
                    stream@,
                )[j],
            decreases stream@.len() / 2 - i,
        {
            bin_data.push(stream[2 * i + 1]);
            bin_data.push(stream[2 * i]);
            proof {
                assert(bin_data@.subrange(0, swap_base) =~= before_swap);
                assert forall|j: int| 2 * i <= j < 2 * (i + 1) implies bin_data@[swap_base + j]
                    == spec_swap_pairs(stream@)[j] by {
                    if j == 2 * i {
                        assert(spec_swap_pairs(stream@)[j] == stream@[j + 1]);
                    } else {
                        assert(j == 2 * i + 1);
                        assert(spec_swap_pairs(stream@)[j] == stream@[j - 1]);
                    }
                }
            }
            i += 1;
        }
        proof {
            assert(bin_data@ =~= header@ + self.palette@ + iter_bytes + spec_swap_pairs(stream@));
            let stream_base = 16 + self.palette@.len() + 4;
            assert forall|j: int| 0 <= j < stream@.len() implies #[trigger] bin_data@[stream_base
                + j] == spec_swap_pairs(stream@)[j] by {}
            lemma_swapped_hash(bin_data@, stream_base as int, stream@, (stream@.len() / 2) as nat);
            assert((bin_data@.len() - stream_base) / 2 == stream@.len() / 2);
            lemma_record_decodes(
                bin_data@,
                clut,
                self.bit_depth,
                self.width,
                self.height,
                hash,
                self.palette@,
                iterations,
                stream@,
                self.pixels@,
            );
        }
        bin_data
    }
}

/// The pixels of an uncompressed record: the bytes after the header
/// and optional palette, truncated to the pixel count, then expanded
/// low nibble first for 4 bit-per-pixel records.
pub open spec fn spec_uncompressed_pixels(bin: Seq<u8>, header: BinHeader) -> Seq<u8> {
    let ptr = 16 + spec_pal_len(header.clut, header.bit_depth);
    let wh = (header.width as int * header.height as int) as nat;
    let raw = bin.subrange(ptr, bin.len() as int);
    let taken = if raw.len() >= wh {
        raw.subrange(0, wh as int)
    } else {
        raw
    };
    if header.bit_depth == 4 {
        spec_expand4lo(taken)
    } else {
        taken
    }
}

/// Whether a record is decodable at all: long enough, a sprite mode
/// byte, a supported depth, room for the promised palette, and (for
/// compressed records) a decodable stream.
pub open spec fn spec_record_ok(bin: Seq<u8>, header: BinHeader) -> bool {
    &&& bin.len() >= 0x20
    &&& bin[0] <= 1
    &&& (header.bit_depth == 4 || header.bit_depth == 8)
    &&& (header.compressed ==> spec_decompress_pixels(bin, header) is Some)
    &&& (!header.compressed && header.clut == 0x20 ==> bin.len() >= 16 + spec_pal_len(
        0x20,
        header.bit_depth,
    ))
}

/// Decodes a sprite record into pixel data.
///
/// Mirrors the container reader: rejects records shorter than 32 bytes
/// or whose mode byte is not 0 or 1; decompresses compressed records
/// (depth 4 or 8 only); for uncompressed records, takes the bit-packed
/// pixels after the header and optional palette, truncates to the pixel
/// count, and expands 4 bit-per-pixel data low nibble first.
pub fn get_bin_data(bin_data: &Vec<u8>) -> (r: Option<SpriteData>)
    requires
        bin_data@.len() <= usize::MAX / 16,
    ensures
        ({
            let header = spec_header_of(bin_data@);
            match r {
                Some(s) => {
                    &&& spec_record_ok(bin_data@, header)
                    &&& s.width == header.width
                    &&& s.height == header.height
                    &&& s.bit_depth == header.bit_depth
                    &&& (header.compressed ==> spec_decompress_pixels(bin_data@, header) == Some(
                        s.pixels@,
                    ))
                    &&& (!header.compressed ==> s.pixels@ == spec_uncompressed_pixels(
                        bin_data@,
                        header,
                    ))
                    &&& (!header.compressed ==> s.palette@ == (if header.clut == 0x20 {
                        bin_data@.subrange(16, 16 + spec_pal_len(0x20, header.bit_depth))
                    } else {
                        Seq::<u8>::empty()
                    }))
                },
                None => !spec_record_ok(bin_data@, header),
            }
        }),
{
    if bin_data.len() < 0x20 {
        return None;
    }
    if bin_data[0] > 0x01 {
        return None;
    }
    let header = get_header(bin_data);
    if header.bit_depth != 4 && header.bit_depth != 8 {
        return None;
    }
    if header.compressed {
        match decompress(bin_data, &header) {
            Ok(sprite_data) => Some(sprite_data),
            Err(_) => None,
        }
    } else {
        let color_count: usize = if header.bit_depth == 4 {
            16
        } else {
            256
        };
        let mut palette: Vec<u8> = Vec::new();
        let mut pointer: usize = HEADER_SIZE;
        if header.clut == 0x20 {
            if bin_data.len() < 16 + color_count * 4 {
                return None;
            }
            let mut i: usize = 0;
            while i < color_count * 4
                invariant
                    i <= color_count * 4,
                    color_count * 4 <= 1024,
                    bin_data@.len() >= 16 + color_count * 4,
                    palette@.len() == i,
                    forall|j: int| 0 <= j < i ==> palette@[j] == bin_data@[16 + j],
                decreases color_count * 4 - i,
            {
                palette.push(bin_data[16 + i]);
                i += 1;
            }
            pointer = HEADER_SIZE + color_count * 4;
            proof {
                assert(palette@ =~= bin_data@.subrange(
                    16,
                    16 + spec_pal_len(0x20, header.bit_depth),
                ));
            }
        }
        let mut pixels: Vec<u8> = Vec::new();
        let mut i: usize = pointer;
        while i < bin_data.len()
            invariant
                pointer <= i,
                i <= bin_data@.len() || i == pointer,
                bin_data@.len() <= usize::MAX / 16,
                pixels@.len() == i - pointer,
                forall|q: int| 0 <= q < pixels@.len() ==> pixels@[q] == bin_data@[pointer + q],
            decreases bin_data@.len() - i,
        {
            pixels.push(bin_data[i]);
            i += 1;
        }
        let ghost raw = bin_data@.subrange(pointer as int, bin_data@.len() as int);
        proof {
            if pointer <= bin_data@.len() {
                assert(pixels@ =~= raw);
            }
        }
        proof {
            vstd::arithmetic::mul::lemma_mul_upper_bound(
                header.width as int,
                0xFFFF,
                header.height as int,
                0xFFFF,
            );
        }
        let pixel_count: usize = header.width as usize * header.height as usize;
        pixels.truncate(pixel_count);
        let ghost taken = pixels@;
        proof {
            if raw.len() >= pixel_count {
                assert(taken =~= raw.subrange(0, pixel_count as int));
            }
        }
        if header.bit_depth == 4 {
            pixels = bpp_from_4(pixels, true);
            proof {
                assert(pixels@ =~= spec_expand4lo(taken));
            }
        }
        proof {
            assert(pointer as int == 16 + spec_pal_len(header.clut, header.bit_depth));
            assert(pixels@ == spec_uncompressed_pixels(bin_data@, spec_header_of(bin_data@)));
        }
        Some(
            SpriteData {
                width: header.width,
                height: header.height,
                bit_depth: header.bit_depth,
                pixels,
                palette,
            },
        )
    }
}

/// Loads a sprite from record bytes, rejecting empty images.
pub fn load_sprite_data(bin_data: &Vec<u8>) -> (r: Option<BinSprite>)
    requires
        bin_data@.len() <= usize::MAX / 16,
    ensures
        ({
            let header = spec_header_of(bin_data@);
            match r {
                Some(s) => {
                    &&& spec_record_ok(bin_data@, header)
                    &&& s.width == header.width && s.width > 0
                    &&& s.height == header.height && s.height > 0
                    &&& s.bit_depth == header.bit_depth
                    &&& (header.compressed ==> spec_decompress_pixels(bin_data@, header) == Some(
                        s.pixels@,
                    ))
                    &&& (!header.compressed ==> s.pixels@ == spec_uncompressed_pixels(
                        bin_data@,
                        header,
                    ))
                },
                None => !spec_record_ok(bin_data@, header) || header.width == 0 || header.height
                    == 0,
            }
        }),
{
    match get_bin_data(bin_data) {
        None => None,
        Some(data) => {
            if data.width == 0 || data.height == 0 {
                None
            } else {
                Some(
                    BinSprite {
                        pixels: data.pixels,
                        width: data.width,
                        height: data.height,
                        bit_depth: data.bit_depth,
                        palette: data.palette,
                    },
                )
            }
        },
    }
}

} // verus!
