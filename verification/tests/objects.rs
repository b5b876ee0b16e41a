//! Object-level bookkeeping and directory-mode serialization.

use ggbin::cell::Cell;
use ggbin::container::load_scriptable;
use ggbin::identify::get_pointers;
use ggbin::object_data::ObjectData;
use ggbin::sprite::BinSprite;

fn cell_with_index(index: u16) -> Cell {
    Cell {
        boxes: vec![],
        sprite_x_offset: 0,
        sprite_y_offset: 0,
        unknown_1: 0,
        sprite_index: index,
        unknown_2: 0,
    }
}

fn blank_sprite() -> BinSprite {
    BinSprite { pixels: vec![0; 4], width: 2, height: 2, bit_depth: 8, palette: vec![] }
}

#[test]
fn clamp_sprite_indices_limits_to_sprite_count() {
    let mut object = ObjectData {
        cells: vec![cell_with_index(0), cell_with_index(5), cell_with_index(2)],
        sprites: vec![blank_sprite(), blank_sprite(), blank_sprite()],
        scripts: vec![],
        palettes: vec![],
    };
    let affected = object.clamp_get_affected_cells(2);
    assert_eq!(affected, vec![1]);
    object.clamp_sprite_indices();
    assert_eq!(object.cells[0].sprite_index, 0);
    assert_eq!(object.cells[1].sprite_index, 2);
    assert_eq!(object.cells[2].sprite_index, 2);
}

#[test]
fn redirect_sprite_indices_after_deletion() {
    let mut object = ObjectData {
        cells: vec![
            cell_with_index(0),
            cell_with_index(2),
            cell_with_index(3),
            cell_with_index(7),
        ],
        sprites: vec![],
        scripts: vec![],
        palettes: vec![],
    };
    let affected = object.redirect_get_affected_cells(2);
    assert_eq!(affected, vec![1, 2, 3]);
    // Delete sprites 2 and 3: indices below stay, deleted drop to 0,
    // higher indices shift down by two.
    object.redirect_sprite_indices(2, 2);
    assert_eq!(object.cells[0].sprite_index, 0);
    assert_eq!(object.cells[1].sprite_index, 0);
    assert_eq!(object.cells[2].sprite_index, 0);
    assert_eq!(object.cells[3].sprite_index, 5);
}

#[test]
fn getters_and_counts() {
    let object = ObjectData {
        cells: vec![cell_with_index(1)],
        sprites: vec![blank_sprite(), blank_sprite()],
        scripts: vec![1, 2, 3],
        palettes: vec![],
    };
    assert!(object.has_cells());
    assert!(!object.has_palettes());
    assert_eq!(object.sprite_get_count(), 2);
    assert_eq!(object.palette_get_count(), 0);
    assert!(object.sprite_get(1).is_some());
    assert!(object.sprite_get(2).is_none());
    assert!(object.palette_get(0).is_none());
}

#[test]
fn object_binary_has_scriptable_layout() {
    let object = ObjectData {
        cells: vec![cell_with_index(0)],
        sprites: vec![blank_sprite()],
        scripts: vec![0xFD, 0x00],
        palettes: vec![],
    };
    let binary = object.get_as_binary();
    // Three header pointers (cells, sprites, scripts) in a table of
    // four entries: each pointer is rebased past the 16-byte table.
    let pointers = get_pointers(&binary, 0, false);
    assert_eq!(pointers.len(), 3);
    assert_eq!(pointers[0], 16);
    assert!(pointers[1] > pointers[0]);
    assert!(pointers[2] > pointers[1]);
    // The cell block behind the first pointer starts with its own
    // finalized table: one cell pointer rebased past a 16-byte table.
    let cell_pointers = get_pointers(&binary, pointers[0], false);
    assert_eq!(cell_pointers, vec![16]);
}

#[test]
fn object_binary_roundtrip_through_loader() {
    // Serializing an object and loading the bytes back as a scriptable
    // restores its cells, sprites, script and palette count.
    let object = ObjectData {
        cells: vec![cell_with_index(3)],
        sprites: vec![BinSprite {
            pixels: (0..32).map(|i| (i % 9) as u8).collect(),
            width: 8,
            height: 4,
            bit_depth: 8,
            palette: vec![],
        }],
        scripts: vec![1, 2, 3, 0xFD, 0x00],
        palettes: vec![],
    };
    let binary = object.get_as_binary();
    let loaded = load_scriptable(&binary);
    assert_eq!(loaded.cells.len(), 1);
    assert_eq!(loaded.cells[0].sprite_index, 3);
    assert_eq!(loaded.sprites.len(), 1);
    assert_eq!(loaded.sprites[0].width, 8);
    let expected: Vec<u8> = (0..32).map(|i| (i % 9) as u8).collect();
    assert_eq!(loaded.sprites[0].pixels, expected);
    assert_eq!(loaded.scripts, vec![1, 2, 3, 0xFD, 0x00]);
    assert!(loaded.palettes.is_empty());
}
