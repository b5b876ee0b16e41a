//! Sprite codec, transforms and bit-stream behaviour on concrete data.

use ggbin::compress::{compress_pixels, decompress_pixels, SpriteData};
use ggbin::bits::{bits_to_bytes, bytes_to_bits, read_bits, write_bits};
use ggbin::error::CodecError;
use ggbin::sprite::{get_bin_data, get_header, make_header, BinSprite};
use ggbin::transform::{
    alpha_double, alpha_halve, bpp_from_1, bpp_from_2, bpp_from_4, bpp_to_4, flip_h, flip_v,
    indexed_as_rgb, limit_16_colors, reindex_rgba_vector, reindex_vector, transform_index,
};

#[test]
fn transform_index_fixtures() {
    // Index 0: (0/8+2)%4 == 2, (0/8+3)%4 == 3 -> unchanged.
    assert_eq!(transform_index(0), 0);
    // Index 8: (8/8+3)%4 == 0 -> +8.
    assert_eq!(transform_index(8), 16);
    // Index 16: (16/8+2)%4 == 0 -> -8.
    assert_eq!(transform_index(16), 8);
    assert_eq!(transform_index(7), 7);
    assert_eq!(transform_index(24), 24);
    assert_eq!(transform_index(40), 48);
    assert_eq!(transform_index(48), 40);
}

#[test]
fn reindex_involution_all_values() {
    for v in 0..=255u8 {
        assert_eq!(transform_index(transform_index(v)), v);
    }
}

#[test]
fn reindex_vector_involution() {
    let pixels: Vec<u8> = (0..=255u8).collect();
    let twice = reindex_vector(reindex_vector(pixels.clone()));
    assert_eq!(twice, pixels);
}

#[test]
fn reindex_rgba_involution() {
    let palette: Vec<u8> = (0..1024).map(|i| (i % 251) as u8).collect();
    let twice = reindex_rgba_vector(reindex_rgba_vector(palette.clone()));
    assert_eq!(twice, palette);
}

#[test]
fn bpp_expansion_and_packing() {
    assert_eq!(bpp_from_1(vec![0b1010_0001]), vec![1, 0, 1, 0, 0, 0, 0, 1]);
    assert_eq!(bpp_from_2(vec![0b11_01_00_10]), vec![3, 1, 0, 2]);
    assert_eq!(bpp_from_4(vec![0xAB], false), vec![0xA, 0xB]);
    assert_eq!(bpp_from_4(vec![0xAB], true), vec![0xB, 0xA]);
    // Packing clamps to 4 bits and pairs pixels.
    assert_eq!(bpp_to_4(vec![0x1, 0x2, 0xFF, 0x3], false), vec![0x12, 0xF3]);
    assert_eq!(bpp_to_4(vec![0x1, 0x2, 0x3], false), vec![0x12, 0x30]);
    assert_eq!(bpp_to_4(vec![0x1, 0x2, 0x3], true), vec![0x21, 0x03]);
}

#[test]
fn alpha_transforms() {
    let palette = vec![1, 2, 3, 0xFF, 4, 5, 6, 0x40];
    let halved = alpha_halve(palette.clone());
    assert_eq!(halved, vec![1, 2, 3, 0x80, 4, 5, 6, 0x20]);
    let doubled = alpha_double(halved);
    assert_eq!(doubled, vec![1, 2, 3, 0xFF, 4, 5, 6, 0x40]);
    // Doubling saturates above 0x80.
    assert_eq!(alpha_double(vec![0, 0, 0, 0x90]), vec![0, 0, 0, 0xFF]);
}

#[test]
fn flips() {
    let pixels = vec![1, 2, 3, 4, 5, 6];
    assert_eq!(flip_h(pixels.clone(), 3, 2), vec![3, 2, 1, 6, 5, 4]);
    assert_eq!(flip_v(pixels, 3, 2), vec![4, 5, 6, 1, 2, 3]);
}

#[test]
fn misc_transforms() {
    assert_eq!(limit_16_colors(vec![3, 16, 255]), vec![3, 15, 15]);
    let palette = vec![9, 0, 0, 0, 7, 0, 0, 0];
    assert_eq!(indexed_as_rgb(vec![0, 1, 0], &palette), vec![9, 7, 9]);
}

#[test]
fn bit_stream_roundtrip() {
    let mut bits: Vec<bool> = Vec::new();
    write_bits(&mut bits, 0b101, 3);
    write_bits(&mut bits, 0x1FF, 9);
    write_bits(&mut bits, 42, 7);
    assert_eq!(read_bits(&bits, 0, 3), 0b101);
    assert_eq!(read_bits(&bits, 3, 9), 0x1FF);
    assert_eq!(read_bits(&bits, 12, 7), 42);
    let bytes = bits_to_bytes(&bits);
    let back = bytes_to_bits(&bytes);
    assert_eq!(&back[..bits.len()], &bits[..]);
}

#[test]
fn compress_four_zero_pixels_fixture() {
    // 2x2 8bpp buffer of literal zeros: a literal pair, then two single
    // literals (the pair rule stops within one pixel of the count), so
    // three tokens.
    let (stream, iterations) = {
        let r = compress_pixels(&vec![0, 0, 0, 0], 4);
        (r.stream, r.iterations)
    };
    assert_eq!(iterations, 3);
    assert_eq!(stream, vec![0x80, 0x00, 0x40, 0x20, 0x00, 0x00]);
    let decoded = decompress_pixels(&stream, iterations, 4).unwrap();
    assert_eq!(decoded, vec![0, 0, 0, 0]);
}

#[test]
fn compress_roundtrip_8bpp() {
    let pixels: Vec<u8> = (0..64).map(|i| (i * 7 % 31) as u8).collect();
    let compressed = compress_pixels(&pixels, 64);
    let decoded = decompress_pixels(&compressed.stream, compressed.iterations, 64).unwrap();
    assert_eq!(&decoded[..64], &pixels[..]);
}

#[test]
fn compress_roundtrip_with_matches() {
    // Repetitive data exercises the back-reference path.
    let mut pixels: Vec<u8> = Vec::new();
    for _ in 0..16 {
        pixels.extend_from_slice(&[1, 2, 3, 4, 5, 6, 7, 8]);
    }
    let compressed = compress_pixels(&pixels, 128);
    // Back-references must make the stream shorter than the input.
    assert!(compressed.stream.len() < pixels.len());
    let decoded = decompress_pixels(&compressed.stream, compressed.iterations, 128).unwrap();
    assert_eq!(&decoded[..128], &pixels[..]);
}

#[test]
fn decompress_overrun_is_detected() {
    // One literal token's worth of bits but ten iterations claimed.
    assert_eq!(
        decompress_pixels(&vec![0x80, 0x00], 10, 4),
        Err(CodecError::DecodeOverrun)
    );
}

#[test]
fn record_hash_is_word_fold() {
    // The compressed stream for [0,0,0,0] is pinned above; its 16-bit
    // little-endian words are 0x0080, 0x2040, 0x0000, whose XOR-fold
    // is 0x20C0.  The record stores the stream word-swapped after the
    // header and iteration count.
    let sprite = BinSprite {
        pixels: vec![0, 0, 0, 0],
        width: 2,
        height: 2,
        bit_depth: 8,
        palette: vec![],
    };
    let record = sprite.to_bin();
    let header = get_header(&record);
    assert_eq!(header.hash, 0x0080 ^ 0x2040 ^ 0x0000);
}

#[test]
fn sprite_record_roundtrip_8bpp() {
    let sprite = BinSprite {
        pixels: (0..32).map(|i| (i % 13) as u8).collect(),
        width: 8,
        height: 4,
        bit_depth: 8,
        palette: vec![],
    };
    let record = sprite.to_bin();
    let header = get_header(&record);
    assert!(header.compressed);
    assert_eq!(header.clut, 0);
    assert_eq!(header.bit_depth, 8);
    assert_eq!(header.width, 8);
    assert_eq!(header.height, 4);
    let decoded = get_bin_data(&record).unwrap();
    assert_eq!(decoded.pixels, sprite.pixels);
    assert_eq!(decoded.width, 8);
    assert_eq!(decoded.height, 4);
}

#[test]
fn sprite_record_roundtrip_4bpp_with_palette() {
    let palette: Vec<u8> = (0..64).map(|i| i as u8).collect();
    let sprite = BinSprite {
        pixels: (0..16).map(|i| (i % 16) as u8).collect(),
        width: 4,
        height: 4,
        bit_depth: 4,
        palette: palette.clone(),
    };
    let record = sprite.to_bin();
    let header = get_header(&record);
    assert_eq!(header.clut, 0x20);
    assert_eq!(header.bit_depth, 4);
    let decoded = get_bin_data(&record).unwrap();
    assert_eq!(decoded.pixels, sprite.pixels);
    assert_eq!(decoded.palette, palette);
}

#[test]
fn uncompressed_record_parses() {
    // Header for an uncompressed 2x2 8bpp sprite, then raw pixels
    // padded past the 32-byte record minimum.
    let mut record = make_header(false, 0, 8, 2, 2, 0, 0, 0);
    record.extend_from_slice(&[9, 8, 7, 6]);
    record.resize(0x20, 0);
    let decoded = get_bin_data(&record).unwrap();
    assert_eq!(decoded.pixels, vec![9, 8, 7, 6]);
    assert_eq!(decoded.width, 2);
    assert_eq!(decoded.height, 2);
}

#[test]
fn sprite_data_default_is_empty() {
    let d = SpriteData::default();
    assert_eq!(d.width, 0);
    assert_eq!(d.height, 0);
    assert_eq!(d.bit_depth, 8);
    assert!(d.pixels.is_empty());
    assert!(d.palette.is_empty());
}
