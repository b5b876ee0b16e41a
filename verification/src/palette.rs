//! Color palettes: fixed-size RGBA tables stored behind a 16-byte
//! header, with `.act` import/export and the hardware index-order and
//! alpha transforms.

use vstd::prelude::*;
use crate::transform::{alpha_double, alpha_halve, reindex_rgba_vector, spec_alpha_double,
    spec_alpha_halve, spec_reindex_rgba};

verus! {

/// A loaded palette: RGBA quads, 16 or 256 colors.
pub struct BinPalette {
    pub palette: Vec<u8>,
}

/// The default 16-byte header written before palette data; byte 4 drops
/// to 4 for 16-color palettes.
pub open spec fn spec_palette_header(color_count: int) -> Seq<u8> {
    seq![
        0x03u8,
        0x00u8,
        0x20u8,
        0x00u8,
        if color_count < 17 {
            0x04u8
        } else {
            0x08u8
        },
        0x00u8,
        0xC0u8,
        0x00u8,
        0x20u8,
        0x01u8,
        0x08u8,
        0x00u8,
        0x09u8,
        0x00u8,
        0xFFu8,
        0xFFu8,
    ]
}

/// The fixed `.act` alpha for palette index `c`: 0 at index 0 and at
/// every 32nd slot of both ladders (the multiples of 32, and 8 plus a
/// multiple of 32, except index 8 itself), 0x80 everywhere else.
pub open spec fn spec_act_alpha(c: int) -> u8 {
    if c % 32 == 0 || (c % 32 == 8 && c != 8) {
        0x00
    } else {
        0x80
    }
}

impl BinPalette {
    /// Parses a palette record: the clut flag must be set, and the
    /// depth byte selects 16 or 256 colors of RGBA data after the
    /// 16-byte header.
    pub fn from_bin_data(bin_data: Vec<u8>) -> (r: Option<BinPalette>)
        ensures
            ({
                let ok = bin_data@.len() >= 0x10 && bin_data@[2] == 0x20 && (if bin_data@[4] == 4 {
                    bin_data@.len() >= 0x50
                } else {
                    bin_data@.len() >= 0x410
                });
                match r {
                    Some(p) => ok && p.palette@ == bin_data@.subrange(
                        0x10,
                        if bin_data@[4] == 4 {
                            0x50int
                        } else {
                            0x410int
                        },
                    ),
                    None => !ok,
                }
            }),
    {
        if bin_data.len() < 0x10 {
            return None;
        }
        if bin_data[0x02] != 0x20 {
            return None;
        }
        let end: usize = if bin_data[0x04] == 0x04 {
            0x50
        } else {
            0x410
        };
        if bin_data.len() < end {
            return None;
        }
        let mut palette: Vec<u8> = Vec::new();
        let mut i: usize = 0x10;
        while i < end
            invariant
                0x10 <= i <= end,
                end <= bin_data@.len(),
                palette@.len() == i - 0x10,
                forall|j: int| 0 <= j < palette@.len() ==> palette@[j] == bin_data@[0x10 + j],
            decreases end - i,
        {
            palette.push(bin_data[i]);
            i += 1;
        }
        proof {
            assert(palette@ =~= bin_data@.subrange(0x10, end as int));
        }
        Some(BinPalette { palette })
    }

    /// Builds a palette from `.act` bytes: 256 RGB triples become RGBA
    /// quads with the fixed `.act` alpha banding: alpha 0 at index 0
    /// and at every 32nd slot of both ladders (multiples of 32, and
    /// 8 plus a multiple of 32 except index 8 itself), alpha 0x80
    /// everywhere else.  This policy is distinct from the `.bin` alpha
    /// convention.
    pub fn from_act_data(act_data: &Vec<u8>) -> (r: Option<BinPalette>)
        ensures
            ({
                match r {
                    Some(p) => {
                        &&& act_data@.len() >= 0x304
                        &&& p.palette@.len() == 0x400
                        &&& forall|c: int| 0 <= c < 256 ==> #[trigger] p.palette@[4 * c]
                            == act_data@[3 * c]
                        &&& forall|c: int| 0 <= c < 256 ==> #[trigger] p.palette@[4 * c + 1]
                            == act_data@[3 * c + 1]
                        &&& forall|c: int| 0 <= c < 256 ==> #[trigger] p.palette@[4 * c + 2]
                            == act_data@[3 * c + 2]
                        &&& forall|c: int| 0 <= c < 256 ==> #[trigger] p.palette@[4 * c + 3]
                            == spec_act_alpha(c)
                    },
                    None => act_data@.len() < 0x304,
                }
            }),
    {
        if act_data.len() < 0x304 {
            return None;
        }
        let mut palette: Vec<u8> = Vec::new();
        let mut color: usize = 0;
        while color < 256
            invariant
                color <= 256,
                act_data@.len() >= 0x304,
                palette@.len() == 4 * color,
                forall|c: int| 0 <= c < color ==> #[trigger] palette@[4 * c] == act_data@[3 * c],
                forall|c: int| 0 <= c < color ==> #[trigger] palette@[4 * c + 1] == act_data@[3 * c
                    + 1],
                forall|c: int| 0 <= c < color ==> #[trigger] palette@[4 * c + 2] == act_data@[3 * c
                    + 2],
                forall|c: int| 0 <= c < color ==> #[trigger] palette@[4 * c + 3] == spec_act_alpha(
                    c,
                ),
            decreases 256 - color,
        {
            palette.push(act_data[3 * color]);
            palette.push(act_data[3 * color + 1]);
            palette.push(act_data[3 * color + 2]);
            if color % 32 == 0 || (color % 32 == 8 && color != 8) {
                palette.push(0x00);
            } else {
                palette.push(0x80);
            }
            color += 1;
        }
        Some(BinPalette { palette })
    }

    /// The `.act` export: 256 RGB triples (alpha dropped, shorter
    /// palettes zero-filled) and the fixed four-byte trailer.
    pub fn to_act_data(&self) -> (r: Vec<u8>)
        requires
            self.palette@.len() <= 0x400,
        ensures
            r@.len() == 772,
            forall|c: int| 0 <= c < self.palette@.len() as int / 4 ==> #[trigger] r@[3 * c]
                == self.palette@[4 * c],
            forall|c: int| 0 <= c < self.palette@.len() as int / 4 ==> #[trigger] r@[3 * c + 1]
                == self.palette@[4 * c + 1],
            forall|c: int| 0 <= c < self.palette@.len() as int / 4 ==> #[trigger] r@[3 * c + 2]
                == self.palette@[4 * c + 2],
            forall|j: int| 3 * (self.palette@.len() as int / 4) <= j < 768 ==> r@[j] == 0,
            r@[768] == 0x01 && r@[769] == 0x00 && r@[770] == 0x00 && r@[771] == 0x00,
    {
        let color_count: usize = self.palette.len() / 4;
        let mut act_pal: Vec<u8> = Vec::new();
        let mut color: usize = 0;
        while color < color_count
            invariant
                color <= color_count,
                color_count == self.palette@.len() as int / 4,
                4 * color_count <= self.palette@.len(),
                self.palette@.len() <= 0x400,
                act_pal@.len() == 3 * color,
                forall|c: int| 0 <= c < color ==> #[trigger] act_pal@[3 * c] == self.palette@[4
                    * c],
                forall|c: int| 0 <= c < color ==> #[trigger] act_pal@[3 * c + 1] == self.palette@[4
                    * c + 1],
                forall|c: int| 0 <= c < color ==> #[trigger] act_pal@[3 * c + 2] == self.palette@[4
                    * c + 2],
            decreases color_count - color,
        {
            proof {
                vstd::arithmetic::div_mod::lemma_fundamental_div_mod(
                    self.palette@.len() as int,
                    4,
                );
            }
            act_pal.push(self.palette[4 * color]);
            act_pal.push(self.palette[4 * color + 1]);
            act_pal.push(self.palette[4 * color + 2]);
            color += 1;
        }
        proof {
            vstd::arithmetic::div_mod::lemma_fundamental_div_mod(self.palette@.len() as int, 4);
        }
        while act_pal.len() < 768
            invariant
                act_pal@.len() >= 3 * (self.palette@.len() as int / 4),
                act_pal@.len() <= 768 || act_pal@.len() == 3 * (self.palette@.len() as int / 4),
                forall|c: int| 0 <= c < self.palette@.len() as int / 4 ==> #[trigger] act_pal@[3
                    * c] == self.palette@[4 * c],
                forall|c: int| 0 <= c < self.palette@.len() as int / 4 ==> #[trigger] act_pal@[3
                    * c + 1] == self.palette@[4 * c + 1],
                forall|c: int| 0 <= c < self.palette@.len() as int / 4 ==> #[trigger] act_pal@[3
                    * c + 2] == self.palette@[4 * c + 2],
                forall|j: int| 3 * (self.palette@.len() as int / 4) <= j < act_pal@.len()
                    ==> act_pal@[j] == 0,
            decreases 768 - act_pal@.len(),
        {
            act_pal.push(0u8);
        }
        act_pal.push(0x01);
        act_pal.push(0x00);
        act_pal.push(0x00);
        act_pal.push(0x00);
        act_pal
    }

    /// Serializes the palette behind the default header (depth byte 4
    /// for palettes of at most 16 colors).
    pub fn to_bin(&self) -> (r: Vec<u8>)
        requires
            self.palette@.len() + 16 <= usize::MAX,
        ensures
            r@ == spec_palette_header(self.palette@.len() as int / 4) + self.palette@,
    {
        let color_count: usize = self.palette.len() / 4;
        let mut bin_data: Vec<u8> = Vec::new();
        bin_data.push(0x03);
        bin_data.push(0x00);
        bin_data.push(0x20);
        bin_data.push(0x00);
        if color_count < 17 {
            bin_data.push(0x04);
        } else {
            bin_data.push(0x08);
        }
        bin_data.push(0x00);
        bin_data.push(0xC0);
        bin_data.push(0x00);
        bin_data.push(0x20);
        bin_data.push(0x01);
        bin_data.push(0x08);
        bin_data.push(0x00);
        bin_data.push(0x09);
        bin_data.push(0x00);
        bin_data.push(0xFF);
        bin_data.push(0xFF);
        let mut i: usize = 0;
        while i < self.palette.len()
            invariant
                i <= self.palette@.len(),
                bin_data@.len() == 16 + i,
                bin_data@.subrange(0, 16) == spec_palette_header(self.palette@.len() as int / 4),
                forall|j: int| 0 <= j < i ==> bin_data@[16 + j] == self.palette@[j],
            decreases self.palette@.len() - i,
        {
            bin_data.push(self.palette[i]);
            proof {
                assert(bin_data@.subrange(0, 16) =~= spec_palette_header(
                    self.palette@.len() as int / 4,
                ));
            }
            i += 1;
        }
        proof {
            assert(bin_data@ =~= spec_palette_header(self.palette@.len() as int / 4)
                + self.palette@);
        }
        bin_data
    }

    /// Moves whole palette entries between the stored 1-3-2-4 index
    /// order and linear order (its own inverse).  The swap permutes
    /// indices within 32-entry blocks, so only palettes whose color
    /// count is a multiple of 32 keep every source index inside the
    /// table; on a 16-color palette the swap would send index 8 to 16,
    /// past the table's end.
    pub fn reindex(&mut self)
        requires
            old(self).palette@.len() % 128 == 0,
            old(self).palette@.len() <= 0x400,
        ensures
            final(self).palette@ == spec_reindex_rgba(old(self).palette@),
    {
        let mut palette: Vec<u8> = Vec::new();
        core::mem::swap(&mut palette, &mut self.palette);
        self.palette = reindex_rgba_vector(palette);
    }

    /// Halves every alpha byte (0xFF becomes 0x80).
    pub fn alpha_halve(&mut self)
        ensures
            final(self).palette@.len() == old(self).palette@.len(),
            forall|i: int| 0 <= i < old(self).palette@.len() ==> final(self).palette@[i] == if i % 4
                == 3 && i < 4 * (old(self).palette@.len() / 4) {
                spec_alpha_halve(old(self).palette@[i])
            } else {
                old(self).palette@[i]
            },
    {
        let mut palette: Vec<u8> = Vec::new();
        core::mem::swap(&mut palette, &mut self.palette);
        self.palette = alpha_halve(palette);
    }

    /// Doubles every alpha byte (0x80 becomes 0xFF, larger values
    /// saturate).
    pub fn alpha_double(&mut self)
        ensures
            final(self).palette@.len() == old(self).palette@.len(),
            forall|i: int| 0 <= i < old(self).palette@.len() ==> final(self).palette@[i] == if i % 4
                == 3 && i < 4 * (old(self).palette@.len() / 4) {
                spec_alpha_double(old(self).palette@[i])
            } else {
                old(self).palette@[i]
            },
    {
        let mut palette: Vec<u8> = Vec::new();
        core::mem::swap(&mut palette, &mut self.palette);
        self.palette = alpha_double(palette);
    }
}

} // verus!
