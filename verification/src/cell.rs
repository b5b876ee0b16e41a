//! Cells: hitbox lists plus sprite-reference metadata, stored as a
//! 32-bit box count, twelve bytes per box, a twelve-byte trailer, and
//! `0xFF` padding to the next 16-byte boundary.

use vstd::prelude::*;
use crate::bytes::{spec_u16_le, spec_u16_le_bytes, spec_u32_le, spec_u32_le_bytes, push_u16_le,
    push_u32_le, u16_from_le, u32_from_le};

verus! {

/// A single hitbox record.
#[derive(Clone, Copy, Debug, PartialEq, Eq, Structural)]
pub struct BoxInfo {
    pub x_offset: i16,
    pub y_offset: i16,
    pub width: u16,
    pub height: u16,
    pub box_type: u16,
    pub crop_x_offset: i8,
    pub crop_y_offset: i8,
}

/// A cell: its hitboxes and the sprite-reference trailer fields.
pub struct Cell {
    pub boxes: Vec<BoxInfo>,
    pub sprite_x_offset: i16,
    pub sprite_y_offset: i16,
    pub unknown_1: u32,
    pub sprite_index: u16,
    pub unknown_2: u16,
}

/// The twelve on-disk bytes of one hitbox.
pub open spec fn spec_box_bytes(b: BoxInfo) -> Seq<u8> {
    spec_u16_le_bytes(b.x_offset as u16) + spec_u16_le_bytes(b.y_offset as u16)
        + spec_u16_le_bytes(b.width) + spec_u16_le_bytes(b.height) + spec_u16_le_bytes(b.box_type)
        + seq![b.crop_x_offset as u8, b.crop_y_offset as u8]
}

/// The hitbox read from offset `p` of a buffer.
pub open spec fn spec_box_at(d: Seq<u8>, p: int) -> BoxInfo {
    BoxInfo {
        x_offset: spec_u16_le(d[p], d[p + 1]) as i16,
        y_offset: spec_u16_le(d[p + 2], d[p + 3]) as i16,
        width: spec_u16_le(d[p + 4], d[p + 5]),
        height: spec_u16_le(d[p + 6], d[p + 7]),
        box_type: spec_u16_le(d[p + 8], d[p + 9]),
        crop_x_offset: d[p + 10] as i8,
        crop_y_offset: d[p + 11] as i8,
    }
}

/// All hitboxes of a cell flattened to bytes, twelve per box.
pub open spec fn spec_boxes_bytes(bs: Seq<BoxInfo>) -> Seq<u8> {
    Seq::new(12 * bs.len(), |i: int| spec_box_bytes(bs[i / 12])[i % 12])
}

/// The twelve-byte sprite-reference trailer of a cell.
pub open spec fn spec_cell_trailer(c: Cell) -> Seq<u8> {
    spec_u16_le_bytes(c.sprite_x_offset as u16) + spec_u16_le_bytes(c.sprite_y_offset as u16)
        + spec_u32_le_bytes(c.unknown_1) + spec_u16_le_bytes(c.sprite_index) + spec_u16_le_bytes(
        c.unknown_2,
    )
}

/// The unpadded on-disk form: box count, boxes, trailer.  Its length is
/// exactly `16 + 12 * box_count`.
pub open spec fn spec_cell_raw_bytes(c: Cell) -> Seq<u8> {
    spec_u32_le_bytes(c.boxes@.len() as u32) + spec_boxes_bytes(c.boxes@) + spec_cell_trailer(c)
}

/// The padded on-disk form: the raw bytes followed by `0xFF` up to the
/// next 16-byte boundary.
pub open spec fn spec_cell_bytes(c: Cell) -> Seq<u8> {
    let raw = spec_cell_raw_bytes(c);
    raw + Seq::new(((16 - raw.len() as int % 16) % 16) as nat, |j: int| 0xFFu8)
}

impl Cell {
    /// Serializes the cell: a 32-bit box count, twelve bytes per box,
    /// the twelve-byte trailer, then `0xFF` padding to a 16-byte
    /// boundary.  The unpadded length is exactly `16 + 12 * box_count`.
    pub fn to_bin(&self) -> (r: Vec<u8>)
        requires
            self.boxes@.len() <= 0x0100_0000,
        ensures
            r@ == spec_cell_bytes(*self),
            spec_cell_raw_bytes(*self).len() == 16 + 12 * self.boxes@.len(),
            r@.len() == 16 + 12 * self.boxes@.len() + ((16 - (16 + 12 * self.boxes@.len()) % 16)
                % 16),
    {
        let mut bin_data: Vec<u8> = Vec::new();
        push_u32_le(&mut bin_data, self.boxes.len() as u32);
        let ghost count_bytes = spec_u32_le_bytes(self.boxes@.len() as u32);
        let mut i: usize = 0;
        while i < self.boxes.len()
            invariant
                i <= self.boxes@.len(),
                self.boxes@.len() <= 0x0100_0000,
                count_bytes == spec_u32_le_bytes(self.boxes@.len() as u32),
                bin_data@.len() == 4 + 12 * i,
                bin_data@ == count_bytes + spec_boxes_bytes(self.boxes@.subrange(0, i as int)),
            decreases self.boxes@.len() - i,
        {
            let b = self.boxes[i];
            push_u16_le(&mut bin_data, b.x_offset as u16);
            push_u16_le(&mut bin_data, b.y_offset as u16);
            push_u16_le(&mut bin_data, b.width);
            push_u16_le(&mut bin_data, b.height);
            push_u16_le(&mut bin_data, b.box_type);
            bin_data.push(b.crop_x_offset as u8);
            bin_data.push(b.crop_y_offset as u8);
            proof {
                let part = self.boxes@.subrange(0, i + 1);
                assert forall|k: int| 0 <= k < 12 * part.len() implies spec_boxes_bytes(part)[k]
                    == bin_data@[4 + k] by {
                    if k < 12 * i {
                        assert(part[k / 12] == self.boxes@.subrange(0, i as int)[k / 12]);
                        assert(spec_boxes_bytes(self.boxes@.subrange(0, i as int))[k]
                            == bin_data@[4 + k]);
                    } else {
                        assert(k / 12 == i && part[k / 12] == b);
                        assert(spec_box_bytes(b)[k % 12] == bin_data@[4 + k]);
                    }
                }
                assert(bin_data@ =~= count_bytes + spec_boxes_bytes(part));
            }
            i += 1;
        }
        proof {
            assert(self.boxes@.subrange(0, self.boxes@.len() as int) =~= self.boxes@);
        }
        push_u16_le(&mut bin_data, self.sprite_x_offset as u16);
        push_u16_le(&mut bin_data, self.sprite_y_offset as u16);
        push_u32_le(&mut bin_data, self.unknown_1);
        push_u16_le(&mut bin_data, self.sprite_index);
        push_u16_le(&mut bin_data, self.unknown_2);
        proof {
            assert(bin_data@ =~= spec_cell_raw_bytes(*self));
        }
        let ghost raw = bin_data@;
        let pad: usize = (16 - (bin_data.len() % 16)) % 16;
        let mut k: usize = 0;
        while k < pad
            invariant
                k <= pad,
                pad <= 15,
                raw == spec_cell_raw_bytes(*self),
                bin_data@.len() == raw.len() + k,
                bin_data@.subrange(0, raw.len() as int) == raw,
                forall|j: int| raw.len() <= j < bin_data@.len() ==> bin_data@[j] == 0xFF,
            decreases pad - k,
        {
            bin_data.push(0xFF);
            proof {
                assert(bin_data@.subrange(0, raw.len() as int) =~= raw);
            }
            k += 1;
        }
        proof {
            assert(pad as int == (16 - raw.len() as int % 16) % 16);
            assert(bin_data@ =~= spec_cell_bytes(*self));
        }
        bin_data
    }

    /// Parses a cell from its binary form: fails only when the buffer
    /// cannot hold the box count, the boxes and the trailer.
    pub fn from_binary_data(bin_data: &Vec<u8>) -> (r: Option<Cell>)
        ensures
            ({
                let ok = bin_data@.len() >= 4 && {
                    let count = spec_u32_le(
                        bin_data@[0],
                        bin_data@[1],
                        bin_data@[2],
                        bin_data@[3],
                    ) as int;
                    bin_data@.len() >= 12 * count + 16
                };
                match r {
                    Some(c) => {
                        let count = spec_u32_le(
                            bin_data@[0],
                            bin_data@[1],
                            bin_data@[2],
                            bin_data@[3],
                        ) as int;
                        let cursor = 12 * count + 4;
                        &&& ok
                        &&& c.boxes@.len() == count
                        &&& forall|j: int| 0 <= j < count ==> c.boxes@[j] == spec_box_at(
                            bin_data@,
                            12 * j + 4,
                        )
                        &&& c.sprite_x_offset == spec_u16_le(
                            bin_data@[cursor],
                            bin_data@[cursor + 1],
                        ) as i16
                        &&& c.sprite_y_offset == spec_u16_le(
                            bin_data@[cursor + 2],
                            bin_data@[cursor + 3],
                        ) as i16
                        &&& c.unknown_1 == spec_u32_le(
                            bin_data@[cursor + 4],
                            bin_data@[cursor + 5],
                            bin_data@[cursor + 6],
                            bin_data@[cursor + 7],
                        )
                        &&& c.sprite_index == spec_u16_le(
                            bin_data@[cursor + 8],
                            bin_data@[cursor + 9],
                        )
                        &&& c.unknown_2 == spec_u16_le(
                            bin_data@[cursor + 10],
                            bin_data@[cursor + 11],
                        )
                    },
                    None => !ok,
                }
            }),
    {
        if bin_data.len() < 0x04 {
            return None;
        }
        let hitbox_count = u32_from_le(bin_data[0], bin_data[1], bin_data[2], bin_data[3]);
        let count: usize = hitbox_count as usize;
        if count > (usize::MAX - 16) / 12 {
            return None;
        }
        if bin_data.len() < 12 * count + 16 {
            return None;
        }
        let mut boxes: Vec<BoxInfo> = Vec::new();
        let mut j: usize = 0;
        while j < count
            invariant
                j <= count,
                12 * count + 16 <= bin_data@.len(),
                bin_data@.len() <= usize::MAX,
                boxes@.len() == j,
                forall|k: int| 0 <= k < j ==> boxes@[k] == spec_box_at(bin_data@, 12 * k + 4),
            decreases count - j,
        {
            let p: usize = 12 * j + 4;
            boxes.push(
                BoxInfo {
                    x_offset: u16_from_le(bin_data[p], bin_data[p + 1]) as i16,
                    y_offset: u16_from_le(bin_data[p + 2], bin_data[p + 3]) as i16,
                    width: u16_from_le(bin_data[p + 4], bin_data[p + 5]),
                    height: u16_from_le(bin_data[p + 6], bin_data[p + 7]),
                    box_type: u16_from_le(bin_data[p + 8], bin_data[p + 9]),
                    crop_x_offset: bin_data[p + 10] as i8,
                    crop_y_offset: bin_data[p + 11] as i8,
                },
            );
            j += 1;
        }
        let cursor: usize = 12 * count + 4;
        Some(
            Cell {
                boxes,
                sprite_x_offset: u16_from_le(bin_data[cursor], bin_data[cursor + 1]) as i16,
                sprite_y_offset: u16_from_le(bin_data[cursor + 2], bin_data[cursor + 3]) as i16,
                unknown_1: u32_from_le(
                    bin_data[cursor + 4],
                    bin_data[cursor + 5],
                    bin_data[cursor + 6],
                    bin_data[cursor + 7],
                ),
                sprite_index: u16_from_le(bin_data[cursor + 8], bin_data[cursor + 9]),
                unknown_2: u16_from_le(bin_data[cursor + 10], bin_data[cursor + 11]),
            },
        )
    }

    /// Clamps the sprite index to the given maximum.
    pub fn clamp_sprite_index(&mut self, sprite_max: u16)
        ensures
            final(self).sprite_index == if old(self).sprite_index > sprite_max {
                sprite_max
            } else {
                old(self).sprite_index
            },
            final(self).boxes == old(self).boxes,
            final(self).sprite_x_offset == old(self).sprite_x_offset,
            final(self).sprite_y_offset == old(self).sprite_y_offset,
            final(self).unknown_1 == old(self).unknown_1,
            final(self).unknown_2 == old(self).unknown_2,
    {
        if self.sprite_index > sprite_max {
            self.sprite_index = sprite_max;
        }
    }
}

/// The packed 32-bit `box_type` field of the JSON form: the type in
/// the low 16 bits, the crop X offset's byte in bits 16..24 and the
/// crop Y offset's byte in bits 24..32 (each crop byte zero-extended,
/// so packing loses nothing).
pub open spec fn spec_pack_box_type(box_type: u16, crop_x: i8, crop_y: i8) -> u32 {
    (box_type as u32) | (((crop_x as u8) as u32) << 16u32) | (((crop_y as u8) as u32) << 24u32)
}

/// Packs a hitbox's type and crop offsets into the JSON `box_type` word.
pub fn pack_box_type(box_type: u16, crop_x: i8, crop_y: i8) -> (r: u32)
    ensures
        r == spec_pack_box_type(box_type, crop_x, crop_y),
{
    (box_type as u32) | (((crop_x as u8) as u32) << 16) | (((crop_y as u8) as u32) << 24)
}

/// Splits the JSON `box_type` word back into type and crop offsets.
pub fn unpack_box_type(v: u32) -> (r: (u16, i8, i8))
    ensures
        r.0 == (v & 0xFFFF) as u16,
        r.1 == ((v >> 16u32) & 0xFF) as i8,
        r.2 == ((v >> 24u32) & 0xFF) as i8,
{
    (((v & 0xFFFF) as u16), ((v >> 16) & 0xFF) as i8, ((v >> 24) & 0xFF) as i8)
}

/// The JSON packing is lossless: unpacking a packed word restores the
/// type and both crop offsets exactly.
pub proof fn lemma_box_type_pack_roundtrip(box_type: u16, crop_x: i8, crop_y: i8)
    ensures
        (spec_pack_box_type(box_type, crop_x, crop_y) & 0xFFFF) as u16 == box_type,
        ((spec_pack_box_type(box_type, crop_x, crop_y) >> 16u32) & 0xFF) as i8 == crop_x,
        ((spec_pack_box_type(box_type, crop_x, crop_y) >> 24u32) & 0xFF) as i8 == crop_y,
{
    let t = box_type;
    let x: u8 = crop_x as u8;
    let y: u8 = crop_y as u8;
    let p: u32 = spec_pack_box_type(box_type, crop_x, crop_y);
    assert((crop_x as u8) as i8 == crop_x) by (bit_vector);
    assert((crop_y as u8) as i8 == crop_y) by (bit_vector);
    assert(p == (t as u32) | ((x as u32) << 16u32) | ((y as u32) << 24u32) ==> ((p & 0xFFFF) as u16
        == t && ((p >> 16u32) & 0xFF) as i8 == x as i8 && ((p >> 24u32) & 0xFF) as i8
        == y as i8)) by (bit_vector);
}

} // verus!
