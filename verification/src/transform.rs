//! Pixel bit-depth transcoding and palette-order transforms.
//!
//! Sprites are stored one byte per pixel in memory; on disk they may be
//! packed 1, 2 or 4 bits per pixel.  Palettes follow the hardware-native
//! 1-3-2-4 index order, which `transform_index` converts to and from
//! (the transform is its own inverse).

use vstd::prelude::*;

verus! {

/// The hardware palette-index swap: within each 32-index block, the
/// groups 8..=15 and 16..=23 trade places; everything else is unchanged.
pub open spec fn spec_transform_index(v: u8) -> u8 {
    if ((v / 8) + 2) % 4 == 0 {
        (v - 8) as u8
    } else if ((v / 8) + 3) % 4 == 0 {
        (v + 8) as u8
    } else {
        v
    }
}

/// Divide the value by 8:
/// - if remainder + 2 divides evenly by 4, the output is value - 8;
/// - if remainder + 3 divides evenly by 4, the output is value + 8;
/// - the value passes through otherwise.
pub fn transform_index(value: u8) -> (r: u8)
    ensures
        r == spec_transform_index(value),
{
    if ((value / 8) + 2) % 4 == 0 {
        value - 8
    } else if ((value / 8) + 3) % 4 == 0 {
        value + 8
    } else {
        value
    }
}

/// The index swap undoes itself: applying it twice restores the value.
pub proof fn lemma_transform_index_involution(v: u8)
    ensures
        spec_transform_index(spec_transform_index(v)) == v,
{
    let q = v / 8;
    if (q + 2) % 4 == 0 {
        assert(v >= 16);
        assert((v - 8) / 8 == q - 1);
    } else if (q + 3) % 4 == 0 {
        assert(v < 240);
        assert((v + 8) / 8 == q + 1);
    }
}

/// Applies the index swap to every pixel of an indexed-color buffer.
pub fn reindex_vector(vector: Vec<u8>) -> (r: Vec<u8>)
    ensures
        r@.len() == vector@.len(),
        forall|i: int| 0 <= i < vector@.len() ==> r@[i] == spec_transform_index(vector@[i]),
{
    let mut temp_vec: Vec<u8> = Vec::new();
    let mut pixel: usize = 0;
    while pixel < vector.len()
        invariant
            pixel <= vector@.len(),
            temp_vec@.len() == pixel,
            forall|i: int| 0 <= i < pixel ==> temp_vec@[i] == spec_transform_index(vector@[i]),
        decreases vector@.len() - pixel,
    {
        temp_vec.push(transform_index(vector[pixel]));
        pixel += 1;
    }
    temp_vec
}

/// Reindexing a pixel buffer twice gives back the same buffer.
pub proof fn lemma_reindex_vector_involution(s: Seq<u8>)
    ensures
        s.map_values(|v: u8| spec_transform_index(v)).map_values(|v: u8| spec_transform_index(v))
            =~= s,
{
    assert forall|i: int| 0 <= i < s.len() implies s.map_values(|v: u8| spec_transform_index(v))
        .map_values(|v: u8| spec_transform_index(v))[i] == s[i] by {
        lemma_transform_index_involution(s[i]);
    }
}

/// An RGBA palette with its colors moved to swapped index order: entry `i`
/// of the result is entry `spec_transform_index(i)` of the source.
pub open spec fn spec_reindex_rgba(s: Seq<u8>) -> Seq<u8> {
    Seq::new(s.len(), |j: int| s[4 * (spec_transform_index((j / 4) as u8) as int) + (j % 4)])
}

/// Moves whole RGBA palette entries into swapped index order.
///
/// The swap permutes indices within 32-entry blocks, so the color count
/// must be a multiple of 32 (and at most 256) for every source index to
/// stay inside the palette.
pub fn reindex_rgba_vector(vector: Vec<u8>) -> (r: Vec<u8>)
    requires
        vector@.len() % 128 == 0,
        vector@.len() <= 0x400,
    ensures
        r@ == spec_reindex_rgba(vector@),
{
    let mut temp_vec: Vec<u8> = Vec::new();
    let color_count: usize = vector.len() / 4;
    let mut index: usize = 0;
    while index < color_count
        invariant
            index <= color_count,
            color_count == vector@.len() / 4,
            vector@.len() % 128 == 0,
            vector@.len() <= 0x400,
            temp_vec@.len() == 4 * index,
            forall|j: int| 0 <= j < 4 * index ==> temp_vec@[j] == spec_reindex_rgba(vector@)[j],
        decreases color_count - index,
    {
        proof {
            lemma_transform_in_block(index as u8);
        }
        let new_index: usize = transform_index(index as u8) as usize;
        temp_vec.push(vector[4 * new_index + 0]);
        temp_vec.push(vector[4 * new_index + 1]);
        temp_vec.push(vector[4 * new_index + 2]);
        temp_vec.push(vector[4 * new_index + 3]);
        assert forall|j: int| 4 * index <= j < 4 * (index + 1) implies temp_vec@[j]
            == spec_reindex_rgba(vector@)[j] by {
            assert(j / 4 == index);
        }
        index += 1;
    }
    assert(temp_vec@ =~= spec_reindex_rgba(vector@));
    temp_vec
}

/// The index swap never leaves the 32-index block of its argument.
proof fn lemma_transform_in_block(v: u8)
    ensures
        spec_transform_index(v) / 32 == v / 32,
        v < 32 ==> spec_transform_index(v) < 32,
{
    let q = v / 8;
    if (q + 2) % 4 == 0 {
        assert(v >= 16);
        assert((v - 8) / 32 == v / 32) by {
            assert(v % 32 >= 16);
        }
    } else if (q + 3) % 4 == 0 {
        assert(v % 32 < 16 && v % 32 >= 8);
        assert((v + 8) / 32 == v / 32);
    }
}

/// Reindexing an RGBA palette twice gives back the same palette,
/// for any palette whose color count is a multiple of 32 (at most 256).
pub proof fn lemma_reindex_rgba_involution(s: Seq<u8>)
    requires
        s.len() % 128 == 0,
        s.len() <= 0x400,
    ensures
        spec_reindex_rgba(spec_reindex_rgba(s)) =~= s,
{
    assert forall|j: int| 0 <= j < s.len() implies spec_reindex_rgba(spec_reindex_rgba(s))[j]
        == s[j] by {
        let i = (j / 4) as u8;
        lemma_transform_in_block(i);
        lemma_transform_index_involution(i);
        let t = spec_transform_index(i) as int;
        assert((4 * t + (j % 4)) / 4 == t);
        assert((4 * t + (j % 4)) % 4 == j % 4);
    }
}

/// Replaces each palette index with the red channel of its palette color.
pub fn indexed_as_rgb(input_pixels: Vec<u8>, palette: &Vec<u8>) -> (r: Vec<u8>)
    requires
        forall|i: int| 0 <= i < input_pixels@.len() ==> 4 * (input_pixels@[i] as int) < palette@.len(),
    ensures
        r@.len() == input_pixels@.len(),
        forall|i: int| 0 <= i < input_pixels@.len() ==> r@[i] == palette@[4 * (input_pixels@[i] as int)],
{
    let mut output_pixels: Vec<u8> = Vec::new();
    let mut pixel: usize = 0;
    while pixel < input_pixels.len()
        invariant
            pixel <= input_pixels@.len(),
            output_pixels@.len() == pixel,
            forall|i: int| 0 <= i < input_pixels@.len() ==> 4 * (input_pixels@[i] as int) < palette@.len(),
            forall|i: int| 0 <= i < pixel ==> output_pixels@[i] == palette@[4 * (input_pixels@[i] as int)],
        decreases input_pixels@.len() - pixel,
    {
        output_pixels.push(palette[4 * input_pixels[pixel] as usize]);
        pixel += 1;
    }
    output_pixels
}

/// Bit `j` (most significant first) of a packed 1 bit-per-pixel byte.
pub open spec fn spec_bit1(b: u8, j: int) -> u8 {
    (b >> (7 - j)) & 1
}

/// Unpacks a 1 bit-per-pixel buffer: each byte becomes eight pixels,
/// most significant bit first.
pub fn bpp_from_1(input_pixels: Vec<u8>) -> (r: Vec<u8>)
    requires
        input_pixels@.len() <= usize::MAX / 8,
    ensures
        r@.len() == 8 * input_pixels@.len(),
        forall|k: int| 0 <= k < r@.len() ==> r@[k] == spec_bit1(input_pixels@[k / 8], k % 8),
{
    let mut output_pixels: Vec<u8> = Vec::new();
    let mut index: usize = 0;
    while index < input_pixels.len()
        invariant
            index <= input_pixels@.len(),
            input_pixels@.len() <= usize::MAX / 8,
            output_pixels@.len() == 8 * index,
            forall|k: int| 0 <= k < output_pixels@.len() ==> output_pixels@[k] == spec_bit1(
                input_pixels@[k / 8],
                k % 8,
            ),
        decreases input_pixels@.len() - index,
    {
        let byte: u8 = input_pixels[index];
        let mut shift: usize = 0;
        while shift < 8
            invariant
                shift <= 8,
                index < input_pixels@.len(),
                input_pixels@.len() <= usize::MAX / 8,
                byte == input_pixels@[index as int],
                output_pixels@.len() == 8 * index + shift,
                forall|k: int| 0 <= k < output_pixels@.len() ==> output_pixels@[k] == spec_bit1(
                    input_pixels@[k / 8],
                    k % 8,
                ),
            decreases 8 - shift,
        {
            output_pixels.push((byte >> (7 - shift) as u8) & 1);
            assert((8 * index + shift) as int / 8 == index);
            assert((8 * index + shift) as int % 8 == shift);
            shift += 1;
        }
        index += 1;
    }
    output_pixels
}

/// Pixel `j` (most significant pair first) of a packed 2 bit-per-pixel byte.
pub open spec fn spec_crumb(b: u8, j: int) -> u8 {
    (b >> (6 - 2 * j)) & 3
}

/// Unpacks a 2 bit-per-pixel buffer: each byte becomes four pixels,
/// most significant pair first.
pub fn bpp_from_2(input_pixels: Vec<u8>) -> (r: Vec<u8>)
    requires
        input_pixels@.len() <= usize::MAX / 4,
    ensures
        r@.len() == 4 * input_pixels@.len(),
        forall|k: int| 0 <= k < r@.len() ==> r@[k] == spec_crumb(input_pixels@[k / 4], k % 4),
{
    let mut output_pixels: Vec<u8> = Vec::new();
    let mut index: usize = 0;
    while index < input_pixels.len()
        invariant
            index <= input_pixels@.len(),
            input_pixels@.len() <= usize::MAX / 4,
            output_pixels@.len() == 4 * index,
            forall|k: int| 0 <= k < output_pixels@.len() ==> output_pixels@[k] == spec_crumb(
                input_pixels@[k / 4],
                k % 4,
            ),
        decreases input_pixels@.len() - index,
    {
        let byte: u8 = input_pixels[index];
        output_pixels.push((byte >> 6) & 0x3);
        output_pixels.push((byte >> 4) & 0x3);
        output_pixels.push((byte >> 2) & 0x3);
        output_pixels.push((byte >> 0) & 0x3);
        assert forall|k: int| 4 * index <= k < 4 * (index + 1) implies output_pixels@[k]
            == spec_crumb(input_pixels@[k / 4], k % 4) by {
            assert(k / 4 == index);
            let j = k % 4;
            if j == 0 {
            } else if j == 1 {
            } else if j == 2 {
            } else {
                assert(j == 3);
            }
        }
        index += 1;
    }
    output_pixels
}

/// High and low nibble of a packed 4 bit-per-pixel byte, in the order
/// selected by `flip` (false: high nibble first).
pub open spec fn spec_nibbles(b: u8, flip: bool) -> (Seq<u8>) {
    if flip {
        seq![b & 0xF, b >> 4]
    } else {
        seq![b >> 4, b & 0xF]
    }
}

/// Unpacks a 4 bit-per-pixel buffer: each byte becomes two pixels.
/// `flip` selects low-nibble-first order.
pub fn bpp_from_4(input_pixels: Vec<u8>, flip: bool) -> (r: Vec<u8>)
    requires
        input_pixels@.len() <= usize::MAX / 2,
    ensures
        r@.len() == 2 * input_pixels@.len(),
        forall|k: int| 0 <= k < r@.len() ==> r@[k] == spec_nibbles(input_pixels@[k / 2], flip)[k
            % 2],
{
    let mut output_pixels: Vec<u8> = Vec::new();
    let mut index: usize = 0;
    while index < input_pixels.len()
        invariant
            index <= input_pixels@.len(),
            input_pixels@.len() <= usize::MAX / 2,
            output_pixels@.len() == 2 * index,
            forall|k: int| 0 <= k < output_pixels@.len() ==> output_pixels@[k] == spec_nibbles(
                input_pixels@[k / 2],
                flip,
            )[k % 2],
        decreases input_pixels@.len() - index,
    {
        if flip {
            output_pixels.push(input_pixels[index] & 0xF);
            output_pixels.push(input_pixels[index] >> 4);
        } else {
            output_pixels.push(input_pixels[index] >> 4);
            output_pixels.push(input_pixels[index] & 0xF);
        }
        assert forall|k: int| 2 * index <= k < 2 * (index + 1) implies output_pixels@[k]
            == spec_nibbles(input_pixels@[k / 2], flip)[k % 2] by {
            assert(k / 2 == index);
        }
        index += 1;
    }
    output_pixels
}

/// The value clamped to the 4-bit range.
pub open spec fn spec_clamp4(v: u8) -> u8 {
    if v < 0xF {
        v
    } else {
        0xF
    }
}

/// Packs a one-byte-per-pixel buffer down to 4 bits per pixel: adjacent
/// pixel pairs are clamped to 4 bits and joined into one byte, in the
/// nibble order selected by `flip`.  An odd pixel count leaves the final
/// nibble zero.
pub fn bpp_to_4(input_pixels: Vec<u8>, flip: bool) -> (r: Vec<u8>)
    ensures
        r@.len() == (input_pixels@.len() + 1) / 2,
        forall|k: int| 0 <= k && 2 * k + 1 < input_pixels@.len() ==> r@[k] == spec_pack4(
            input_pixels@[2 * k],
            input_pixels@[2 * k + 1],
            flip,
        ),
        input_pixels@.len() % 2 == 1 ==> r@[r@.len() - 1] == spec_pack4_last(
            input_pixels@[input_pixels@.len() - 1],
            flip,
        ),
{
    let mut output_pixels: Vec<u8> = Vec::new();
    let mut index: usize = 0;
    loop
        invariant
            index % 2 == 0,
            index <= input_pixels@.len(),
            output_pixels@.len() == index / 2,
            forall|k: int| 0 <= k && 2 * k + 1 < index ==> output_pixels@[k] == spec_pack4(
                input_pixels@[2 * k],
                input_pixels@[2 * k + 1],
                flip,
            ),
        ensures
            index % 2 == 0,
            index <= input_pixels@.len(),
            input_pixels@.len() - index <= 1,
            output_pixels@.len() == index / 2,
            forall|k: int| 0 <= k && 2 * k + 1 < index ==> output_pixels@[k] == spec_pack4(
                input_pixels@[2 * k],
                input_pixels@[2 * k + 1],
                flip,
            ),
        decreases input_pixels@.len() - index,
    {
        if !(index < input_pixels.len() && index + 1 < input_pixels.len()) {
            break ;
        }
        let first: u8 = if input_pixels[index + if flip { 1 } else { 0 }] < 0xF {
            input_pixels[index + if flip { 1 } else { 0 }]
        } else {
            0xF
        };
        let second: u8 = if input_pixels[index + if flip { 0 } else { 1 }] < 0xF {
            input_pixels[index + if flip { 0 } else { 1 }]
        } else {
            0xF
        };
        output_pixels.push((first << 4) | (second & 0xF));
        index += 2;
    }
    if index < input_pixels.len() {
        let clamped: u8 = if input_pixels[index] < 0xF {
            input_pixels[index]
        } else {
            0xF
        };
        if flip {
            output_pixels.push(clamped & 0xF);
        } else {
            output_pixels.push(clamped << 4);
        }
    }
    output_pixels
}

/// Two clamped pixels joined into one packed byte; with `flip` the second
/// pixel takes the high nibble.
pub open spec fn spec_pack4(a: u8, b: u8, flip: bool) -> u8 {
    if flip {
        (spec_clamp4(b) << 4) | (spec_clamp4(a) & 0xF)
    } else {
        (spec_clamp4(a) << 4) | (spec_clamp4(b) & 0xF)
    }
}

/// A final unpaired pixel packed alone: it fills the low nibble when
/// `flip` is set, the high nibble otherwise.
pub open spec fn spec_pack4_last(a: u8, flip: bool) -> u8 {
    if flip {
        spec_clamp4(a) & 0xF
    } else {
        spec_clamp4(a) << 4
    }
}

/// Pads every row of a pixel buffer to an even width with zero pixels,
/// so that 4 bit-per-pixel packing keeps rows byte-aligned.
///
/// The element at output index `k` comes from row `k / (w + w % 2)` and
/// column `k % (w + w % 2)` where `w` is the source row width; padding
/// columns are zero.
pub fn align_to_4(input_pixels: Vec<u8>, height: usize) -> (r: Vec<u8>)
    requires
        height > 0,
        input_pixels@.len() as int % (height as int) == 0,
    ensures
        r@.len() == input_pixels@.len() + (height as int) * ((input_pixels@.len() as int / (
        height as int)) % 2),
        forall|k: int|
            {
                let w = input_pixels@.len() as int / (height as int);
                let ow = w + w % 2;
                0 <= k < r@.len() ==> #[trigger] r@[k] == if k % ow < w {
                    input_pixels@[(k / ow) * w + k % ow]
                } else {
                    0
                }
            },
{
    let mut output_pixels: Vec<u8> = Vec::new();
    let width: usize = input_pixels.len() / height;
    let padding: usize = width % 2;
    let ghost w = width as int;
    let ghost ow = w + w % 2;
    proof {
        vstd::arithmetic::div_mod::lemma_fundamental_div_mod(
            input_pixels@.len() as int,
            height as int,
        );
    }
    let mut y: usize = 0;
    while y < height
        invariant
            y <= height,
            w == input_pixels@.len() as int / (height as int),
            ow == w + w % 2,
            width == w,
            padding == w % 2,
            height > 0,
            input_pixels@.len() == (height as int) * w,
            input_pixels@.len() <= usize::MAX,
            output_pixels@.len() == y * ow,
            forall|k: int| 0 <= k < output_pixels@.len() ==> #[trigger] output_pixels@[k] == if k
                % ow < w {
                input_pixels@[(k / ow) * w + k % ow]
            } else {
                0
            },
        decreases height - y,
    {
        proof {
            vstd::arithmetic::mul::lemma_mul_inequality(y + 1 as int, height as int, w);
            vstd::arithmetic::mul::lemma_mul_is_distributive_add_other_way(w, y as int, 1);
            vstd::arithmetic::mul::lemma_mul_is_distributive_add_other_way(ow, y as int, 1);
        }
        let mut x: usize = 0;
        while x < width
            invariant
                x <= width,
                y < height,
                width == w,
                padding == w % 2,
                ow == w + w % 2,
                y * w + w <= input_pixels@.len(),
                input_pixels@.len() <= usize::MAX,
                output_pixels@.len() == y * ow + x,
                forall|k: int| 0 <= k < output_pixels@.len() ==> #[trigger] output_pixels@[k]
                    == if k % ow < w {
                    input_pixels@[(k / ow) * w + k % ow]
                } else {
                    0
                },
            decreases width - x,
        {
            output_pixels.push(input_pixels[y * width + x]);
            proof {
                vstd::arithmetic::div_mod::lemma_fundamental_div_mod_converse(
                    y * ow + x,
                    ow,
                    y as int,
                    x as int,
                );
            }
            x += 1;
        }
        if padding == 1 {
            output_pixels.push(0x00);
            proof {
                vstd::arithmetic::div_mod::lemma_fundamental_div_mod_converse(
                    y * ow + w,
                    ow,
                    y as int,
                    w,
                );
            }
        }
        y += 1;
    }
    proof {
        vstd::arithmetic::mul::lemma_mul_is_distributive_add(height as int, w, w % 2);
    }
    output_pixels
}

/// Cuts each row of a row-padded buffer back down to `width` pixels:
/// output index `k` comes from row `k / width`, column `k % width` of the
/// padded source rows.
pub fn trim_padding(input_pixels: Vec<u8>, width: usize, height: usize) -> (r: Vec<u8>)
    requires
        height > 0,
        width > 0,
        width <= input_pixels@.len() as int / (height as int),
    ensures
        r@.len() == (width as int) * (height as int),
        forall|k: int|
            {
                let rw = input_pixels@.len() as int / (height as int);
                0 <= k < r@.len() ==> #[trigger] r@[k] == input_pixels@[(k / (width as int)) * rw
                    + k % (width as int)]
            },
{
    let mut output_pixels: Vec<u8> = Vec::new();
    let row_width: usize = input_pixels.len() / height;
    let ghost rw = row_width as int;
    let ghost w = width as int;
    proof {
        vstd::arithmetic::div_mod::lemma_fundamental_div_mod(
            input_pixels@.len() as int,
            height as int,
        );
    }
    let mut y: usize = 0;
    while y < height
        invariant
            y <= height,
            rw == input_pixels@.len() as int / (height as int),
            row_width == rw,
            w == width,
            height > 0,
            0 < width <= rw,
            input_pixels@.len() == (height as int) * rw + input_pixels@.len() as int % (
            height as int),
            input_pixels@.len() <= usize::MAX,
            output_pixels@.len() == y * w,
            forall|k: int| 0 <= k < output_pixels@.len() ==> #[trigger] output_pixels@[k]
                == input_pixels@[(k / w) * rw + k % w],
        decreases height - y,
    {
        proof {
            vstd::arithmetic::mul::lemma_mul_inequality(y + 1 as int, height as int, rw);
            vstd::arithmetic::mul::lemma_mul_is_distributive_add_other_way(rw, y as int, 1);
            vstd::arithmetic::mul::lemma_mul_is_distributive_add_other_way(w, y as int, 1);
        }
        let mut x: usize = 0;
        while x < width
            invariant
                x <= width,
                y < height,
                row_width == rw,
                w == width,
                0 < width <= rw,
                y * rw + rw <= input_pixels@.len(),
                input_pixels@.len() <= usize::MAX,
                output_pixels@.len() == y * w + x,
                forall|k: int| 0 <= k < output_pixels@.len() ==> #[trigger] output_pixels@[k]
                    == input_pixels@[(k / w) * rw + k % w],
            decreases width - x,
        {
            output_pixels.push(input_pixels[y * row_width + x]);
            proof {
                vstd::arithmetic::div_mod::lemma_fundamental_div_mod_converse(
                    y * w + x,
                    w,
                    y as int,
                    x as int,
                );
            }
            x += 1;
        }
        y += 1;
    }
    proof {
        vstd::arithmetic::mul::lemma_mul_is_commutative(height as int, w);
    }
    output_pixels
}

/// Clamps every pixel to the 4-bit range.
pub fn limit_16_colors(input_pixels: Vec<u8>) -> (r: Vec<u8>)
    ensures
        r@.len() == input_pixels@.len(),
        forall|i: int| 0 <= i < input_pixels@.len() ==> r@[i] == spec_clamp4(input_pixels@[i]),
{
    let mut output_pixels: Vec<u8> = Vec::new();
    let mut pixel: usize = 0;
    while pixel < input_pixels.len()
        invariant
            pixel <= input_pixels@.len(),
            output_pixels@.len() == pixel,
            forall|i: int| 0 <= i < pixel ==> output_pixels@[i] == spec_clamp4(input_pixels@[i]),
        decreases input_pixels@.len() - pixel,
    {
        if input_pixels[pixel] < 0xF {
            output_pixels.push(input_pixels[pixel]);
        } else {
            output_pixels.push(0xF);
        }
        pixel += 1;
    }
    output_pixels
}

/// The halved alpha value: 0xFF maps to 0x80, everything else to half.
pub open spec fn spec_alpha_halve(v: u8) -> u8 {
    if v == 0xFF {
        0x80
    } else {
        v / 2
    }
}

/// The doubled alpha value: 0x80 maps to 0xFF, everything else doubles,
/// saturating at 0xFF.
pub open spec fn spec_alpha_double(v: u8) -> u8 {
    if v == 0x80 {
        0xFF
    } else if v >= 0x80 {
        0xFF
    } else {
        (v * 2) as u8
    }
}

/// Halves the alpha byte of every RGBA palette entry (0xFF becomes 0x80).
pub fn alpha_halve(input_palette: Vec<u8>) -> (r: Vec<u8>)
    ensures
        r@.len() == input_palette@.len(),
        forall|i: int| 0 <= i < input_palette@.len() ==> r@[i] == if i % 4 == 3 && i
            < 4 * (input_palette@.len() / 4) {
            spec_alpha_halve(input_palette@[i])
        } else {
            input_palette@[i]
        },
{
    let mut palette: Vec<u8> = input_palette;
    let color_count: usize = palette.len() / 4;
    let ghost orig = palette@;
    let mut color: usize = 0;
    while color < color_count
        invariant
            color <= color_count,
            color_count == orig.len() / 4,
            palette@.len() == orig.len(),
            orig.len() <= usize::MAX,
            4 * color_count <= orig.len(),
            forall|i: int| 0 <= i < orig.len() ==> palette@[i] == if i % 4 == 3 && i < 4 * color {
                spec_alpha_halve(orig[i])
            } else {
                orig[i]
            },
        decreases color_count - color,
    {
        let alpha: usize = 4 * color + 3;
        if palette[alpha] == 0xFF {
            palette.set(alpha, 0x80);
        } else {
            let halved: u8 = palette[alpha] / 2;
            palette.set(alpha, halved);
        }
        assert(4 * (color + 1) - 1 == alpha);
        assert(alpha % 4 == 3);
        color += 1;
    }
    palette
}

/// Doubles the alpha byte of every RGBA palette entry (0x80 becomes 0xFF,
/// larger values saturate).
pub fn alpha_double(input_palette: Vec<u8>) -> (r: Vec<u8>)
    ensures
        r@.len() == input_palette@.len(),
        forall|i: int| 0 <= i < input_palette@.len() ==> r@[i] == if i % 4 == 3 && i
            < 4 * (input_palette@.len() / 4) {
            spec_alpha_double(input_palette@[i])
        } else {
            input_palette@[i]
        },
{
    let mut palette: Vec<u8> = input_palette;
    let color_count: usize = palette.len() / 4;
    let ghost orig = palette@;
    let mut color: usize = 0;
    while color < color_count
        invariant
            color <= color_count,
            color_count == orig.len() / 4,
            palette@.len() == orig.len(),
            orig.len() <= usize::MAX,
            4 * color_count <= orig.len(),
            forall|i: int| 0 <= i < orig.len() ==> palette@[i] == if i % 4 == 3 && i < 4 * color {
                spec_alpha_double(orig[i])
            } else {
                orig[i]
            },
        decreases color_count - color,
    {
        let alpha: usize = 4 * color + 3;
        if palette[alpha] >= 0x80 {
            palette.set(alpha, 0xFF);
        } else {
            let doubled: u8 = palette[alpha] * 2;
            palette.set(alpha, doubled);
        }
        assert(4 * (color + 1) - 1 == alpha);
        assert(alpha % 4 == 3);
        color += 1;
    }
    palette
}

/// Mirrors a `width` x `height` pixel buffer horizontally: output index
/// `k` holds the pixel of the same row at the opposite column.
pub fn flip_h(input_pixels: Vec<u8>, width: usize, height: usize) -> (r: Vec<u8>)
    requires
        width > 0,
        input_pixels@.len() == (width as int) * (height as int),
    ensures
        r@.len() == input_pixels@.len(),
        forall|k: int| 0 <= k < r@.len() ==> #[trigger] r@[k] == input_pixels@[(k / (
        width as int)) * (width as int) + (width - 1 - k % (width as int))],
{
    let mut output_pixels: Vec<u8> = Vec::new();
    let _total: usize = input_pixels.len();
    let ghost w = width as int;
    let mut y: usize = 0;
    while y < height
        invariant
            y <= height,
            input_pixels@.len() == w * (height as int),
            input_pixels@.len() <= usize::MAX,
            w == width,
            width > 0,
            output_pixels@.len() == y * w,
            forall|k: int| 0 <= k < output_pixels@.len() ==> #[trigger] output_pixels@[k]
                == input_pixels@[(k / w) * w + (w - 1 - k % w)],
        decreases height - y,
    {
        proof {
            vstd::arithmetic::mul::lemma_mul_inequality(y + 1 as int, height as int, w);
            vstd::arithmetic::mul::lemma_mul_is_distributive_add_other_way(w, y as int, 1);
            vstd::arithmetic::mul::lemma_mul_is_commutative(w, height as int);
        }
        let mut x: usize = 0;
        while x < width
            invariant
                x <= width,
                y < height,
                w == width,
                width > 0,
                y * w + w <= input_pixels@.len(),
                input_pixels@.len() <= usize::MAX,
                output_pixels@.len() == y * w + x,
                forall|k: int| 0 <= k < output_pixels@.len() ==> #[trigger] output_pixels@[k]
                    == input_pixels@[(k / w) * w + (w - 1 - k % w)],
            decreases width - x,
        {
            output_pixels.push(input_pixels[y * width + width - x - 1]);
            proof {
                vstd::arithmetic::div_mod::lemma_fundamental_div_mod_converse(
                    y * w + x,
                    w,
                    y as int,
                    x as int,
                );
            }
            x += 1;
        }
        y += 1;
    }
    proof {
        vstd::arithmetic::mul::lemma_mul_is_commutative(height as int, w);
    }
    output_pixels
}

/// Mirrors a `width` x `height` pixel buffer vertically: output index
/// `k` holds the pixel of the same column in the opposite row.
pub fn flip_v(input_pixels: Vec<u8>, width: usize, height: usize) -> (r: Vec<u8>)
    requires
        width > 0,
        input_pixels@.len() == (width as int) * (height as int),
    ensures
        r@.len() == input_pixels@.len(),
        forall|k: int| 0 <= k < r@.len() ==> #[trigger] r@[k] == input_pixels@[(height - 1 - k / (
        width as int)) * (width as int) + k % (width as int)],
{
    let mut output_pixels: Vec<u8> = Vec::new();
    let _total: usize = input_pixels.len();
    let ghost w = width as int;
    let mut y: usize = 0;
    while y < height
        invariant
            y <= height,
            input_pixels@.len() == w * (height as int),
            input_pixels@.len() <= usize::MAX,
            w == width,
            width > 0,
            output_pixels@.len() == y * w,
            forall|k: int| 0 <= k < output_pixels@.len() ==> #[trigger] output_pixels@[k]
                == input_pixels@[(height - 1 - k / w) * w + k % w],
        decreases height - y,
    {
        proof {
            vstd::arithmetic::mul::lemma_mul_inequality(
                (height - y - 1) + 1 as int,
                height as int,
                w,
            );
            vstd::arithmetic::mul::lemma_mul_is_distributive_add_other_way(
                w,
                (height - y - 1) as int,
                1,
            );
            vstd::arithmetic::mul::lemma_mul_is_commutative(w, height as int);
            vstd::arithmetic::mul::lemma_mul_inequality(y + 1 as int, height as int, w);
            vstd::arithmetic::mul::lemma_mul_is_distributive_add_other_way(w, y as int, 1);
            vstd::arithmetic::mul::lemma_mul_nonnegative((height - y - 1) as int, w);
        }
        let pointer: usize = (height - y - 1) * width;
        let mut x: usize = 0;
        while x < width
            invariant
                x <= width,
                y < height,
                w == width,
                width > 0,
                pointer == (height - y - 1) * w,
                pointer + w <= input_pixels@.len(),
                input_pixels@.len() <= usize::MAX,
                output_pixels@.len() == y * w + x,
                forall|k: int| 0 <= k < output_pixels@.len() ==> #[trigger] output_pixels@[k]
                    == input_pixels@[(height - 1 - k / w) * w + k % w],
            decreases width - x,
        {
            output_pixels.push(input_pixels[pointer + x]);
            proof {
                vstd::arithmetic::div_mod::lemma_fundamental_div_mod_converse(
                    y * w + x,
                    w,
                    y as int,
                    x as int,
                );
            }
            x += 1;
        }
        y += 1;
    }
    proof {
        vstd::arithmetic::mul::lemma_mul_is_commutative(height as int, w);
    }
    output_pixels
}

} // verus!
