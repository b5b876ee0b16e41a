//! One object's decoded data: cells, sprites, script bytes and
//! palettes, with the index bookkeeping the editor needs and the
//! directory-mode binary serialization.

use vstd::prelude::*;
use crate::cell::Cell;
use crate::container::serialize_scriptable_parts;
use crate::palette::BinPalette;
use crate::sprite::BinSprite;

verus! {

/// All data of a single object from a binary archive.
pub struct ObjectData {
    pub cells: Vec<Cell>,
    pub sprites: Vec<BinSprite>,
    pub scripts: Vec<u8>,
    pub palettes: Vec<BinPalette>,
}

impl ObjectData {
    /// Whether the object has any cells.
    pub fn has_cells(&self) -> (r: bool)
        ensures
            r == (self.cells@.len() > 0),
    {
        self.cells.len() > 0
    }

    /// Whether the object has any palettes.
    pub fn has_palettes(&self) -> (r: bool)
        ensures
            r == (self.palettes@.len() > 0),
    {
        self.palettes.len() > 0
    }

    /// The number of sprites in the object.
    pub fn sprite_get_count(&self) -> (r: usize)
        ensures
            r == self.sprites@.len(),
    {
        self.sprites.len()
    }

    /// The number of palettes in the object.
    pub fn palette_get_count(&self) -> (r: usize)
        ensures
            r == self.palettes@.len(),
    {
        self.palettes.len()
    }

    /// A sprite by index, when the index is in range.
    pub fn sprite_get(&self, index: u16) -> (r: Option<&BinSprite>)
        ensures
            match r {
                Some(s) => index < self.sprites@.len() && *s == self.sprites@[index as int],
                None => index >= self.sprites@.len(),
            },
    {
        if (index as usize) < self.sprites.len() {
            Some(&self.sprites[index as usize])
        } else {
            None
        }
    }

    /// A palette by index, when the index is in range.
    pub fn palette_get(&self, index: usize) -> (r: Option<&BinPalette>)
        ensures
            match r {
                Some(p) => index < self.palettes@.len() && *p == self.palettes@[index as int],
                None => index >= self.palettes@.len(),
            },
    {
        if index < self.palettes.len() {
            Some(&self.palettes[index])
        } else {
            None
        }
    }

    /// The cell numbers whose sprite index exceeds the given maximum:
    /// exactly the cells clamping would change, in ascending order.
    pub fn clamp_get_affected_cells(&self, sprite_max: u16) -> (r: Vec<usize>)
        ensures
            forall|k: int| 0 <= k < r@.len() ==> #[trigger] r@[k] < self.cells@.len()
                && self.cells@[r@[k] as int].sprite_index > sprite_max,
            forall|c: int| 0 <= c < self.cells@.len() && (#[trigger] self.cells@[c]).sprite_index
                > sprite_max ==> r@.contains(c as usize),
    {
        let mut return_array: Vec<usize> = Vec::new();
        let mut i: usize = 0;
        while i < self.cells.len()
            invariant
                i <= self.cells@.len(),
                forall|k: int| 0 <= k < return_array@.len() ==> #[trigger] return_array@[k]
                    < self.cells@.len() && self.cells@[return_array@[k] as int].sprite_index
                    > sprite_max,
                forall|c: int| 0 <= c < i && (#[trigger] self.cells@[c]).sprite_index > sprite_max
                    ==> return_array@.contains(c as usize),
            decreases self.cells@.len() - i,
        {
            let ghost prev = return_array@;
            if self.cells[i].sprite_index > sprite_max {
                return_array.push(i);
            }
            proof {
                assert forall|c: int| 0 <= c < i + 1 && (#[trigger] self.cells@[c]).sprite_index
                    > sprite_max implies return_array@.contains(c as usize) by {
                    if c < i {
                        let w = choose|w: int| 0 <= w < prev.len() && prev[w] == c as usize;
                        assert(return_array@[w] == c as usize);
                    } else {
                        assert(return_array@.last() == i);
                    }
                }
            }
            i += 1;
        }
        return_array
    }

    /// Clamps every cell's sprite index to the available sprites.
    pub fn clamp_sprite_indices(&mut self)
        requires
            old(self).sprites@.len() >= 1,
        ensures
            final(self).cells@.len() == old(self).cells@.len(),
            forall|k: int| 0 <= k < old(self).cells@.len() ==> (#[trigger] final(self).cells@[k]).sprite_index == (if old(self).cells@[k].sprite_index > old(self).sprites@.len() - 1 {
                (old(self).sprites@.len() - 1) as u16
            } else {
                old(self).cells@[k].sprite_index
            }),
            final(self).sprites == old(self).sprites,
            final(self).scripts == old(self).scripts,
            final(self).palettes == old(self).palettes,
    {
        let count: usize = self.sprites.len();
        let sprite_max: u16 = if count - 1 > 0xFFFF {
            0xFFFF
        } else {
            (count - 1) as u16
        };
        let n: usize = self.cells.len();
        let mut i: usize = 0;
        while i < n
            invariant
                i <= n,
                n == self.cells@.len(),
                n == old(self).cells@.len(),
                old(self).sprites@.len() >= 1,
                sprite_max as int == (if old(self).sprites@.len() - 1 > 0xFFFF {
                    0xFFFFint
                } else {
                    old(self).sprites@.len() - 1
                }),
                self.sprites == old(self).sprites,
                self.scripts == old(self).scripts,
                self.palettes == old(self).palettes,
                forall|k: int| i <= k < n ==> #[trigger] self.cells@[k] == old(self).cells@[k],
                forall|k: int| 0 <= k < i ==> (#[trigger] self.cells@[k]).sprite_index == (if old(self).cells@[k].sprite_index > sprite_max {
                    sprite_max
                } else {
                    old(self).cells@[k].sprite_index
                }) && self.cells@[k].boxes == old(self).cells@[k].boxes && self.cells@[k].sprite_x_offset
                    == old(self).cells@[k].sprite_x_offset && self.cells@[k].sprite_y_offset == old(self).cells@[k].sprite_y_offset && self.cells@[k].unknown_1 == old(self).cells@[k].unknown_1 && self.cells@[k].unknown_2 == old(self).cells@[k].unknown_2,
            decreases n - i,
        {
            let cell = &mut self.cells[i];
            cell.clamp_sprite_index(sprite_max);
            i += 1;
        }
        proof {
            assert forall|k: int| 0 <= k < old(self).cells@.len() implies (#[trigger] self.cells@[k]).sprite_index
                == (if old(self).cells@[k].sprite_index > old(self).sprites@.len() - 1 {
                (old(self).sprites@.len() - 1) as u16
            } else {
                old(self).cells@[k].sprite_index
            }) by {
                if old(self).sprites@.len() - 1 > 0xFFFF {
                    assert(old(self).cells@[k].sprite_index <= 0xFFFF);
                }
            }
        }
    }

    /// The cell numbers whose sprite index is at or above `from`:
    /// exactly the cells redirection would change, in ascending order.
    pub fn redirect_get_affected_cells(&self, from: u16) -> (r: Vec<usize>)
        ensures
            forall|k: int| 0 <= k < r@.len() ==> #[trigger] r@[k] < self.cells@.len()
                && self.cells@[r@[k] as int].sprite_index >= from,
            forall|c: int| 0 <= c < self.cells@.len() && (#[trigger] self.cells@[c]).sprite_index
                >= from ==> r@.contains(c as usize),
    {
        let mut return_array: Vec<usize> = Vec::new();
        let mut i: usize = 0;
        while i < self.cells.len()
            invariant
                i <= self.cells@.len(),
                forall|k: int| 0 <= k < return_array@.len() ==> #[trigger] return_array@[k]
                    < self.cells@.len() && self.cells@[return_array@[k] as int].sprite_index
                    >= from,
                forall|c: int| 0 <= c < i && (#[trigger] self.cells@[c]).sprite_index >= from
                    ==> return_array@.contains(c as usize),
            decreases self.cells@.len() - i,
        {
            let ghost prev = return_array@;
            if self.cells[i].sprite_index >= from {
                return_array.push(i);
            }
            proof {
                assert forall|c: int| 0 <= c < i + 1 && (#[trigger] self.cells@[c]).sprite_index
                    >= from implies return_array@.contains(c as usize) by {
                    if c < i {
                        let w = choose|w: int| 0 <= w < prev.len() && prev[w] == c as usize;
                        assert(return_array@[w] == c as usize);
                    } else {
                        assert(return_array@.last() == i);
                    }
                }
            }
            i += 1;
        }
        return_array
    }

    /// After deleting `how_many` sprites starting at `from`: indices
    /// below `from` stay, indices inside the deleted range drop to
    /// zero, and indices above shift down by the deleted count.
    pub fn redirect_sprite_indices(&mut self, from: u16, how_many: u16)
        requires
            how_many >= 1,
            from + how_many - 1 <= u16::MAX,
        ensures
            final(self).cells@.len() == old(self).cells@.len(),
            forall|k: int| 0 <= k < old(self).cells@.len() ==> (#[trigger] final(self).cells@[k]).sprite_index == (if old(self).cells@[k].sprite_index < from {
                old(self).cells@[k].sprite_index
            } else if old(self).cells@[k].sprite_index <= from + how_many - 1 {
                0u16
            } else {
                (old(self).cells@[k].sprite_index - how_many) as u16
            }),
            final(self).sprites == old(self).sprites,
            final(self).scripts == old(self).scripts,
            final(self).palettes == old(self).palettes,
    {
        let to: u16 = from + (how_many - 1);
        let n: usize = self.cells.len();
        let mut i: usize = 0;
        while i < n
            invariant
                i <= n,
                n == self.cells@.len(),
                n == old(self).cells@.len(),
                to == from + how_many - 1,
                how_many >= 1,
                self.sprites == old(self).sprites,
                self.scripts == old(self).scripts,
                self.palettes == old(self).palettes,
                forall|k: int| i <= k < n ==> #[trigger] self.cells@[k] == old(self).cells@[k],
                forall|k: int| 0 <= k < i ==> (#[trigger] self.cells@[k]).sprite_index == (if old(self).cells@[k].sprite_index < from {
                    old(self).cells@[k].sprite_index
                } else if old(self).cells@[k].sprite_index <= from + how_many - 1 {
                    0u16
                } else {
                    (old(self).cells@[k].sprite_index - how_many) as u16
                }),
            decreases n - i,
        {
            let idx = self.cells[i].sprite_index;
            if idx >= from {
                let cell = &mut self.cells[i];
                if idx <= to {
                    cell.sprite_index = 0;
                } else {
                    cell.sprite_index = idx - how_many;
                }
            }
            i += 1;
        }
    }

    /// Serializes the object as a scriptable container: a top-level
    /// pointer table (three or four entries), then the cell block, the
    /// sprite block, the script bytes, and the palette block when
    /// palettes are present.  The result holds exactly the object's
    /// parts.
    pub fn get_as_binary(&self) -> (r: Vec<u8>)
        requires
            self.cells@.len() <= 0x1000,
            forall|i: int| 0 <= i < self.cells@.len() ==> (#[trigger] self.cells@[i]).boxes@.len()
                <= 0x1000,
            crate::container::spec_sprites_serializable(self.sprites@),
            self.scripts@.len() <= 0x1000000,
            self.palettes@.len() <= 0x1000,
            forall|i: int| 0 <= i < self.palettes@.len() ==> (#[trigger] self.palettes@[i]).palette@.len()
                <= 0x400,
        ensures
            r@.len() >= 0x10,
            crate::container::spec_scriptable_parts_ok(
                r@,
                self.cells@,
                self.sprites@,
                self.scripts@,
                self.palettes@,
            ),
    {
        crate::container::serialize_scriptable_parts(
            &self.cells,
            &self.sprites,
            &self.scripts,
            &self.palettes,
        )
    }
}

} // verus!
