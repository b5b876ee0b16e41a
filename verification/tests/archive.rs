//! Container, identification, decryption and per-format codecs on
//! concrete archives.

use ggbin::cell::{pack_box_type, unpack_box_type, BoxInfo, Cell};
use ggbin::container::{
    finalize_pointers, get_objects, load_binary_data, load_resource_file, serialize_resource,
    ResourceObject,
};
use ggbin::error::CodecError;
use ggbin::decrypt::{decrypt_data, is_encrypted, MersenneTwister};
use ggbin::identify::{get_pointers, identify_object, identify_sprite, ObjectType};
use ggbin::palette::BinPalette;
use ggbin::sprite::BinSprite;

fn sample_sprite_record() -> Vec<u8> {
    let sprite = BinSprite {
        pixels: (0..32).map(|i| (i % 7) as u8).collect(),
        width: 8,
        height: 4,
        bit_depth: 8,
        palette: vec![],
    };
    sprite.to_bin()
}

#[test]
fn mt19937_reference_vectors() {
    // The standard published output sequence for seed 5489.
    let mut twister = MersenneTwister { index: 0, table: Vec::new() };
    twister.initialize(5489);
    let expected: [u32; 10] = [
        3499211612, 581869302, 3890346734, 3586334585, 545404204, 4161255391, 3922919429,
        949333985, 2715962298, 1323567403,
    ];
    for value in expected {
        assert_eq!(twister.get_next_number(), value);
    }
    // A second seed, cross-checked against a reference implementation.
    let mut twister = MersenneTwister { index: 0, table: Vec::new() };
    twister.initialize(1);
    assert_eq!(twister.get_next_number(), 1791095845);
}

#[test]
fn decrypt_known_ciphertext() {
    // Ciphertext produced by an independent encoder with the same
    // chaining rule, keyed from the uppercased name "TEST.BIN".
    let name = b"test.bin".to_vec();
    let cipher: Vec<u8> = vec![169, 122, 234, 171, 138, 129, 20, 176, 213, 144, 129, 120];
    let plain = decrypt_data(&name, &cipher);
    assert_eq!(
        plain,
        vec![17, 17, 17, 17, 34, 34, 34, 34, 51, 51, 51, 51]
    );
}

#[test]
fn encrypted_signature_detection() {
    assert!(is_encrypted(&vec![0, 0, 0, 0, 0x41, 0x53, 0x47, 0x43]));
    assert!(!is_encrypted(&vec![0, 0, 0, 0, 0x43, 0x47, 0x53, 0x41]));
    assert!(!is_encrypted(&vec![1, 2, 3]));
}

#[test]
fn pointer_table_roundtrip() {
    // Two objects serialized behind a finalized table parse back
    // byte-identically.
    let objects: Vec<Vec<u8>> = vec![vec![1, 2, 3, 4], vec![5, 6, 7, 8, 9]];
    let offsets: Vec<u32> = vec![0, 4];
    let mut file = finalize_pointers(offsets);
    // Table: 2 pointers + sentinel padded to 4 entries = 16 bytes.
    assert_eq!(file.len(), 16);
    for o in &objects {
        file.extend_from_slice(o);
    }
    let parsed = get_objects(&file);
    assert_eq!(parsed.len(), 2);
    assert_eq!(parsed[0], objects[0]);
    assert_eq!(parsed[1], objects[1]);
}

#[test]
fn finalize_pointers_rebases_offsets() {
    let table = finalize_pointers(vec![0, 10, 20]);
    // 3 pointers + sentinel = 4 entries, 16 bytes; offsets gain 16.
    assert_eq!(table.len(), 16);
    assert_eq!(&table[0..4], &[16, 0, 0, 0]);
    assert_eq!(&table[4..8], &[26, 0, 0, 0]);
    assert_eq!(&table[8..12], &[36, 0, 0, 0]);
    assert_eq!(&table[12..16], &[0xFF, 0xFF, 0xFF, 0xFF]);
}

#[test]
fn identification_is_deterministic() {
    let record = sample_sprite_record();
    let first = identify_object(&record);
    let second = identify_object(&record);
    assert_eq!(first, ObjectType::Sprite);
    assert_eq!(first, second);
    assert!(identify_sprite(&record));
}

#[test]
fn identification_unmatched_blob() {
    // A blob of 0xFF sentinels has no pointers; the vacuous
    // multi-scriptable check catches it last.
    let blob = vec![0xFF; 64];
    assert_eq!(identify_object(&blob), ObjectType::MultiScriptable);
    // A short unstructured blob with pointer-like words falls through.
    let blob2 = vec![0x01, 0x00, 0x00, 0x00, 0xFF, 0xFF, 0xFF, 0xFF];
    assert_eq!(identify_object(&blob2), ObjectType::Unsupported);
}

#[test]
fn load_sprite_list_archive() {
    // A whole archive holding one sprite-list entry.
    let record = sample_sprite_record();
    let entry_offsets: Vec<u32> = vec![0];
    let mut entry = finalize_pointers(entry_offsets);
    entry.extend_from_slice(&record);
    let mut file = finalize_pointers(vec![0]);
    file.extend_from_slice(&entry);
    let loaded = load_resource_file(&file);
    assert_eq!(loaded.len(), 1);
    match &loaded[0] {
        ResourceObject::SpriteList(sprites) => {
            assert_eq!(sprites.len(), 1);
            assert_eq!(sprites[0].width, 8);
            assert_eq!(sprites[0].height, 4);
            let expected: Vec<u8> = (0..32).map(|i| (i % 7) as u8).collect();
            assert_eq!(sprites[0].pixels, expected);
        },
        _ => panic!("expected a sprite list"),
    }
}

#[test]
fn cell_serialization_sizes() {
    let hitbox = BoxInfo {
        x_offset: -4,
        y_offset: 2,
        width: 10,
        height: 20,
        box_type: 1,
        crop_x_offset: 0,
        crop_y_offset: 0,
    };
    let cell = Cell {
        boxes: vec![hitbox, hitbox],
        sprite_x_offset: 1,
        sprite_y_offset: 2,
        unknown_1: 3,
        sprite_index: 4,
        unknown_2: 5,
    };
    let bytes = cell.to_bin();
    // 16 + 24 = 40 bytes before padding, 48 after 16-byte alignment.
    assert_eq!(bytes.len(), 48);
    assert_eq!(&bytes[40..48], &[0xFF; 8]);
    let parsed = Cell::from_binary_data(&bytes).unwrap();
    assert_eq!(parsed.boxes.len(), 2);
    assert_eq!(parsed.boxes[0], hitbox);
    assert_eq!(parsed.sprite_x_offset, 1);
    assert_eq!(parsed.sprite_index, 4);
}

#[test]
fn cell_empty_serializes_to_one_block() {
    let cell = Cell {
        boxes: vec![],
        sprite_x_offset: 0,
        sprite_y_offset: 0,
        unknown_1: 0,
        sprite_index: 0,
        unknown_2: 0,
    };
    // 16 bytes before padding: already aligned.
    assert_eq!(cell.to_bin().len(), 16);
}

#[test]
fn cell_parse_rejects_short_buffers() {
    assert!(Cell::from_binary_data(&vec![1, 2]).is_none());
    // Count of 2 boxes but no room for them.
    assert!(Cell::from_binary_data(&vec![2, 0, 0, 0, 9, 9, 9, 9]).is_none());
}

#[test]
fn box_type_packing() {
    let packed = pack_box_type(3, 1, 2);
    assert_eq!(packed, 0x0201_0003);
    assert_eq!(unpack_box_type(packed), (3, 1, 2));
    // Negative crop offsets are zero-extended byte-wise, so packing is
    // lossless.
    let packed = pack_box_type(1, -1, 0);
    assert_eq!(packed, 0x00FF_0001);
    assert_eq!(unpack_box_type(packed), (1, -1, 0));
    let packed = pack_box_type(5, -1, -2);
    assert_eq!(unpack_box_type(packed), (5, -1, -2));
}

#[test]
fn palette_bin_roundtrip() {
    let palette: Vec<u8> = (0..1024).map(|i| (i % 256) as u8).collect();
    let pal = BinPalette { palette: palette.clone() };
    let bytes = pal.to_bin();
    assert_eq!(bytes.len(), 16 + 1024);
    assert_eq!(bytes[4], 0x08);
    let parsed = BinPalette::from_bin_data(bytes).unwrap();
    assert_eq!(parsed.palette, palette);
}

#[test]
fn palette_16_color_header_byte() {
    let pal = BinPalette { palette: vec![0; 64] };
    let bytes = pal.to_bin();
    assert_eq!(bytes[4], 0x04);
    let parsed = BinPalette::from_bin_data(bytes).unwrap();
    assert_eq!(parsed.palette.len(), 64);
}

#[test]
fn palette_rejects_missing_clut() {
    let mut data = vec![0u8; 0x410];
    data[2] = 0x10;
    assert!(BinPalette::from_bin_data(data).is_none());
}

#[test]
fn act_alpha_banding() {
    // Alpha 0 at index 0 and at every 32nd slot of both ladders,
    // except index 8 itself.
    let act = vec![0u8; 0x304];
    let pal = BinPalette::from_act_data(&act).unwrap();
    assert_eq!(pal.palette[4 * 0 + 3], 0x00);
    assert_eq!(pal.palette[4 * 8 + 3], 0x80);
    assert_eq!(pal.palette[4 * 32 + 3], 0x00);
    assert_eq!(pal.palette[4 * 40 + 3], 0x00);
    assert_eq!(pal.palette[4 * 33 + 3], 0x80);
    assert_eq!(pal.palette[4 * 64 + 3], 0x00);
}

#[test]
fn palette_act_conversion() {
    let mut act = vec![0u8; 0x304];
    act[0] = 10;
    act[1] = 20;
    act[2] = 30;
    act[3] = 40;
    let pal = BinPalette::from_act_data(&act).unwrap();
    assert_eq!(&pal.palette[0..4], &[10, 20, 30, 0x00]);
    assert_eq!(&pal.palette[4..8], &[40, 0, 0, 0x80]);
    let back = pal.to_act_data();
    assert_eq!(back.len(), 772);
    assert_eq!(&back[0..4], &[10, 20, 30, 40]);
    assert_eq!(&back[768..772], &[1, 0, 0, 0]);
    assert!(BinPalette::from_act_data(&vec![0; 0x100]).is_none());
}

#[test]
fn get_pointers_stops_at_sentinel() {
    let data = vec![
        4, 0, 0, 0, 8, 0, 0, 0, 0xFF, 0xFF, 0xFF, 0xFF, 1, 2, 3, 4,
    ];
    assert_eq!(get_pointers(&data, 0, false), vec![4, 8]);
}

#[test]
fn load_binary_data_error_taxonomy() {
    // Too short for the smallest sprite-list file.
    match load_binary_data(&vec![0u8; 0x10]) {
        Err(e) => assert_eq!(e, CodecError::TooShort),
        Ok(_) => panic!("short file must be rejected"),
    }
    // Carrying the trailing encryption signature.
    let mut encrypted = vec![0u8; 0x30];
    encrypted[0x2C] = 0x41;
    encrypted[0x2D] = 0x53;
    encrypted[0x2E] = 0x47;
    encrypted[0x2F] = 0x43;
    match load_binary_data(&encrypted) {
        Err(e) => assert_eq!(e, CodecError::Encrypted),
        Ok(_) => panic!("encrypted file must be rejected"),
    }
    // An immediate sentinel: a table with no pointers at all.
    let mut empty_table = vec![0xFFu8; 0x30];
    match load_binary_data(&empty_table) {
        Err(e) => assert_eq!(e, CodecError::Unidentified),
        Ok(_) => panic!("pointerless file must be rejected"),
    }
    // A table whose first offset resolves outside the buffer.
    empty_table[0] = 0x40;
    empty_table[1] = 0x01;
    empty_table[2] = 0x00;
    empty_table[3] = 0x00;
    match load_binary_data(&empty_table) {
        Err(e) => assert_eq!(e, CodecError::MalformedPointerTable),
        Ok(_) => panic!("out-of-bounds pointer must be rejected"),
    }
}

#[test]
fn load_binary_data_sprite_list_file() {
    // A file whose single entry is itself a sprite record loads as one
    // sprite-list entry.
    let record = sample_sprite_record();
    let mut file = finalize_pointers(vec![0]);
    file.extend_from_slice(&record);
    let entries = load_binary_data(&file).unwrap();
    assert_eq!(entries.len(), 1);
    match &entries[0] {
        ResourceObject::SpriteList(sprites) => {
            assert_eq!(sprites.len(), 1);
            assert_eq!(sprites[0].width, 8);
        },
        _ => panic!("expected a sprite-list file"),
    }
}

#[test]
fn archive_write_read_roundtrip() {
    // Serialize a one-entry sprite-list archive and read it back.
    let sprite = ggbin::sprite::BinSprite {
        pixels: (0..64).map(|i| (i % 61) as u8).collect(),
        width: 8,
        height: 8,
        bit_depth: 8,
        palette: vec![],
    };
    let objects = vec![ResourceObject::SpriteList(vec![sprite])];
    let file = serialize_resource(&objects);
    let loaded = load_binary_data(&file).unwrap();
    assert_eq!(loaded.len(), 1);
    match &loaded[0] {
        ResourceObject::SpriteList(sprites) => {
            assert_eq!(sprites.len(), 1);
            assert_eq!(sprites[0].width, 8);
            assert_eq!(sprites[0].height, 8);
            let expected: Vec<u8> = (0..64).map(|i| (i % 61) as u8).collect();
            assert_eq!(sprites[0].pixels, expected);
        },
        _ => panic!("expected a sprite list"),
    }
}

#[test]
fn unsupported_entry_passes_through() {
    // An unrecognized blob survives a write/read cycle byte for byte.
    let blob: Vec<u8> = (0..48).map(|i| (200 + i) as u8).collect();
    let objects = vec![ResourceObject::Unsupported(blob.clone())];
    let file = serialize_resource(&objects);
    let parsed = get_objects(&file);
    assert_eq!(parsed.len(), 1);
    assert_eq!(parsed[0], blob);
}
