//! Format identification: a priority-ordered chain of structural
//! predicates that classifies an untyped blob from pointer counts,
//! magic bytes and size arithmetic alone.
//!
//! Each predicate is specified exactly; where the byte layout would
//! send a check outside the buffer the predicate is false rather than a
//! fault, so identification never rejects a blob - an unmatched blob is
//! passed through unchanged.

use vstd::prelude::*;
use crate::bytes::{spec_u32_be, spec_u32_le, u32_from_be, u32_from_le};

verus! {

/// The `CHARIDX` magic of plain-text index blobs.
pub const CHARIDX_SIGNATURE: u32 = 0x082A2000;

/// The Wii TPL texture magic.
pub const WII_TPL_SIGNATURE: u32 = 0x0020AF30;

/// The WBND audio-bank magic, read big-endian.
pub const WBND_SIGNATURE: u32 = 0x444E4257;

/// The VAGp audio-stream magic, read big-endian.
pub const VAGP_SIGNATURE: u32 = 0x56414770;

/// The palette-block magic, read big-endian.
pub const PALETTE_SIGNATURE: u32 = 0x03002000;

/// The classification of one archive entry.
#[derive(Clone, Copy, Debug, PartialEq, Eq, Structural)]
pub enum ObjectType {
    Sprite,
    SpriteList,
    SpriteListSelect,
    JPFPlainText,
    WiiTPL,
    Scriptable,
    MultiScriptable,
    Unsupported,
}

/// The little-endian 32-bit word at byte offset `p`.
pub open spec fn spec_u32le_at(d: Seq<u8>, p: int) -> u32 {
    spec_u32_le(d[p], d[p + 1], d[p + 2], d[p + 3])
}

/// The big-endian 32-bit word at byte offset `p`.
pub open spec fn spec_u32be_at(d: Seq<u8>, p: int) -> u32 {
    spec_u32_be(d[p], d[p + 1], d[p + 2], d[p + 3])
}

/// The pointer table at `cursor`: 32-bit words until the sentinel
/// `0xFFFFFFFF` or until fewer than four bytes remain.
pub open spec fn spec_pointers(d: Seq<u8>, cursor: int, big_endian: bool) -> Seq<int>
    decreases d.len() - cursor,
{
    if cursor < 0 || cursor + 3 >= d.len() {
        Seq::empty()
    } else {
        let ptr = if big_endian {
            spec_u32be_at(d, cursor)
        } else {
            spec_u32le_at(d, cursor)
        };
        if ptr == 0xFFFFFFFF {
            Seq::empty()
        } else {
            seq![ptr as int] + spec_pointers(d, cursor + 4, big_endian)
        }
    }
}

/// Reads the pointer table at `cursor` until the sentinel or the end of
/// the buffer.
pub fn get_pointers(bin_data: &Vec<u8>, cursor: usize, big_endian: bool) -> (r: Vec<usize>)
    ensures
        r@.len() == spec_pointers(bin_data@, cursor as int, big_endian).len(),
        forall|i: int| 0 <= i < r@.len() ==> r@[i] as int == spec_pointers(
            bin_data@,
            cursor as int,
            big_endian,
        )[i],
        forall|i: int| 0 <= i < r@.len() ==> r@[i] < 0x100000000,
{
    let mut pointers: Vec<usize> = Vec::new();
    let mut cur: usize = cursor;
    let ghost whole = spec_pointers(bin_data@, cursor as int, big_endian);
    let _total: usize = bin_data.len();
    while cur <= usize::MAX - 4 && cur + 3 < bin_data.len()
        invariant
            cursor <= cur,
            bin_data@.len() <= usize::MAX,
            whole == spec_pointers(bin_data@, cursor as int, big_endian),
            pointers@.len() <= whole.len(),
            forall|i: int| 0 <= i < pointers@.len() ==> pointers@[i] as int == whole[i],
            forall|i: int| 0 <= i < pointers@.len() ==> pointers@[i] < 0x100000000,
            spec_pointers(bin_data@, cur as int, big_endian) =~= whole.subrange(
                pointers@.len() as int,
                whole.len() as int,
            ),
        decreases bin_data@.len() - cur,
    {
        let pointer: usize;
        if big_endian {
            pointer = u32_from_be(
                bin_data[cur],
                bin_data[cur + 1],
                bin_data[cur + 2],
                bin_data[cur + 3],
            ) as usize;
        } else {
            pointer = u32_from_le(
                bin_data[cur],
                bin_data[cur + 1],
                bin_data[cur + 2],
                bin_data[cur + 3],
            ) as usize;
        }
        if pointer == 0xFFFFFFFF {
            proof {
                assert(spec_pointers(bin_data@, cur as int, big_endian) =~= Seq::<int>::empty());
                assert(pointers@.len() == whole.len());
            }
            return pointers;
        }
        proof {
            let tail = spec_pointers(bin_data@, cur as int, big_endian);
            assert(tail == seq![pointer as int] + spec_pointers(
                bin_data@,
                cur + 4,
                big_endian,
            ));
            assert(tail.len() >= 1);
            assert(whole[pointers@.len() as int] == tail[0]);
            assert(tail[0] == pointer as int);
            let rest = spec_pointers(bin_data@, cur + 4, big_endian);
            assert forall|i: int| 0 <= i < tail.len() - 1 implies #[trigger] rest[i]
                == whole.subrange(pointers@.len() + 1 as int, whole.len() as int)[i] by {
                assert(tail[i + 1] == rest[i]);
            }
            assert(spec_pointers(bin_data@, cur + 4, big_endian) =~= whole.subrange(
                pointers@.len() + 1 as int,
                whole.len() as int,
            ));
        }
        pointers.push(pointer);
        cur += 4;
    }
    proof {
        assert(spec_pointers(bin_data@, cur as int, big_endian) =~= Seq::<int>::empty());
        assert(pointers@.len() == whole.len());
    }
    pointers
}

/// Whether `start + need` bytes fit inside a buffer of length `len`.
fn has_range(len: usize, start: usize, need: usize) -> (r: bool)
    ensures
        r == (start + need <= len),
{
    start <= len && len - start >= need
}

/// A six-byte sprite record signature at offset `p`: a mode byte of 0
/// or 1, a clut flag of 0 or 0x20 and a depth of 4 or 8, each padded
/// with a zero byte.
pub open spec fn spec_sprite_sig_at(d: Seq<u8>, p: int) -> bool {
    &&& p >= 0
    &&& p + 6 <= d.len()
    &&& (d[p] == 0 || d[p] == 1)
    &&& d[p + 1] == 0
    &&& (d[p + 2] == 0 || d[p + 2] == 0x20)
    &&& d[p + 3] == 0
    &&& (d[p + 4] == 4 || d[p + 4] == 8)
    &&& d[p + 5] == 0
}

/// Checks the six-byte sprite signature at `p`.
fn sprite_sig_at(bin_data: &Vec<u8>, p: usize) -> (r: bool)
    ensures
        r == spec_sprite_sig_at(bin_data@, p as int),
{
    if !has_range(bin_data.len(), p, 6) {
        return false;
    }
    (bin_data[p] == 0 || bin_data[p] == 1) && bin_data[p + 1] == 0 && (bin_data[p + 2] == 0
        || bin_data[p + 2] == 0x20) && bin_data[p + 3] == 0 && (bin_data[p + 4] == 4 || bin_data[p
        + 4] == 8) && bin_data[p + 5] == 0
}

/// An audio bank: the first big-endian pointer is the WBND magic.
pub open spec fn spec_identify_audio_wbnd(d: Seq<u8>) -> bool {
    let hp = spec_pointers(d, 0, true);
    hp.len() > 0 && hp[0] == WBND_SIGNATURE
}

/// Whether the blob is a WBND audio bank.
pub fn identify_audio_wbnd(bin_data: &Vec<u8>) -> (r: bool)
    ensures
        r == spec_identify_audio_wbnd(bin_data@),
{
    let pointers = get_pointers(bin_data, 0, true);
    if pointers.len() == 0 {
        return false;
    }
    pointers[0] == WBND_SIGNATURE as usize
}

/// An audio stream: the first big-endian pointer's target holds the
/// VAGp magic.
pub open spec fn spec_identify_audio_vagp(d: Seq<u8>) -> bool {
    let hp = spec_pointers(d, 0, true);
    &&& hp.len() > 0
    &&& hp[0] + 4 <= d.len()
    &&& spec_u32be_at(d, hp[0]) == VAGP_SIGNATURE
}

/// Whether the blob is a VAGp audio stream.
pub fn identify_audio_vagp(bin_data: &Vec<u8>) -> (r: bool)
    ensures
        r == spec_identify_audio_vagp(bin_data@),
{
    let pointers = get_pointers(bin_data, 0, true);
    if pointers.len() == 0 {
        return false;
    }
    let p0 = pointers[0];
    if !has_range(bin_data.len(), p0, 4) {
        return false;
    }
    u32_from_be(bin_data[p0], bin_data[p0 + 1], bin_data[p0 + 2], bin_data[p0 + 3])
        == VAGP_SIGNATURE
}

/// A single sprite: at least 32 bytes and a sprite signature at the
/// start.
pub open spec fn spec_identify_sprite(d: Seq<u8>) -> bool {
    d.len() >= 0x20 && spec_sprite_sig_at(d, 0)
}

/// Whether the blob is a single sprite record.
pub fn identify_sprite(bin_data: &Vec<u8>) -> (r: bool)
    ensures
        r == spec_identify_sprite(bin_data@),
{
    if bin_data.len() < 0x20 {
        return false;
    }
    sprite_sig_at(bin_data, 0)
}

/// A sprite list: the first pointer's target carries a sprite
/// signature.
pub open spec fn spec_identify_sprite_list(d: Seq<u8>) -> bool {
    let hp = spec_pointers(d, 0, false);
    &&& hp.len() >= 1
    &&& hp[0] + 6 <= d.len()
    &&& spec_sprite_sig_at(d, hp[0])
}

/// Whether the blob is a sprite list.
pub fn identify_sprite_list(bin_data: &Vec<u8>) -> (r: bool)
    ensures
        r == spec_identify_sprite_list(bin_data@),
{
    let header_pointers = get_pointers(bin_data, 0, false);
    if header_pointers.len() < 1 {
        return false;
    }
    let cursor = header_pointers[0];
    if !has_range(bin_data.len(), cursor, 6) {
        return false;
    }
    sprite_sig_at(bin_data, cursor)
}

/// A sprite list followed by the select-screen bitmask: the blob past
/// the bitmask pointer decodes as a width, a height, and exactly
/// `width * height` mask bytes (padded to a 16-byte boundary).
pub open spec fn spec_identify_sprite_list_select(d: Seq<u8>) -> bool {
    let hp = spec_pointers(d, 0, false);
    &&& spec_identify_sprite_list(d)
    &&& ({
        let select = if hp.len() > 179 {
            hp[178]
        } else {
            hp[hp.len() - 1]
        };
        let end = if hp.len() > 179 {
            hp[179]
        } else {
            d.len() as int
        };
        &&& 0 <= select <= end <= d.len()
        &&& end - select >= 8
        &&& ({
            let w = spec_u32le_at(d, select) as int;
            let h = spec_u32le_at(d, select + 4) as int;
            let target = 8 + w * h;
            end - select == target + target % 16
        })
    })
}

/// Whether the blob is a sprite list with a select-screen bitmask.
pub fn identify_sprite_list_select(bin_data: &Vec<u8>) -> (r: bool)
    ensures
        r == spec_identify_sprite_list_select(bin_data@),
{
    if !identify_sprite_list(bin_data) {
        return false;
    }
    let header_pointers = get_pointers(bin_data, 0, false);
    let pointer_select: usize;
    let bitmask_end: usize;
    if header_pointers.len() > 179 {
        pointer_select = header_pointers[178];
        bitmask_end = header_pointers[179];
    } else {
        pointer_select = header_pointers[header_pointers.len() - 1];
        bitmask_end = bin_data.len();
    }
    if !(pointer_select <= bitmask_end && bitmask_end <= bin_data.len()) {
        return false;
    }
    let bitmask_len: usize = bitmask_end - pointer_select;
    if bitmask_len < 8 {
        return false;
    }
    let w = u32_from_le(
        bin_data[pointer_select],
        bin_data[pointer_select + 1],
        bin_data[pointer_select + 2],
        bin_data[pointer_select + 3],
    );
    let h = u32_from_le(
        bin_data[pointer_select + 4],
        bin_data[pointer_select + 5],
        bin_data[pointer_select + 6],
        bin_data[pointer_select + 7],
    );
    proof {
        vstd::arithmetic::mul::lemma_mul_upper_bound(w as int, 0xFFFFFFFF, h as int, 0xFFFFFFFF);
        vstd::arithmetic::mul::lemma_mul_nonnegative(w as int, h as int);
    }
    let target: u64 = 8 + (w as u64) * (h as u64);
    (bitmask_len as u64) == target + target % 16
}

/// A plain-text index: the first pointer's target is the `CHARIDX`
/// magic and the second pointer's target is a sprite signature.
pub open spec fn spec_identify_jpf_plain_text(d: Seq<u8>) -> bool {
    let hp = spec_pointers(d, 0, false);
    &&& hp.len() >= 2
    &&& hp[0] + 4 <= d.len()
    &&& spec_u32be_at(d, hp[0]) == CHARIDX_SIGNATURE
    &&& hp[1] + 6 <= d.len()
    &&& spec_sprite_sig_at(d, hp[1])
}

/// Whether the blob is a plain-text-indexed sprite list.
pub fn identify_jpf_plain_text(bin_data: &Vec<u8>) -> (r: bool)
    ensures
        r == spec_identify_jpf_plain_text(bin_data@),
{
    let header_pointers = get_pointers(bin_data, 0, false);
    if header_pointers.len() < 2 {
        return false;
    }
    let c0 = header_pointers[0];
    if !has_range(bin_data.len(), c0, 4) {
        return false;
    }
    if u32_from_be(bin_data[c0], bin_data[c0 + 1], bin_data[c0 + 2], bin_data[c0 + 3])
        != CHARIDX_SIGNATURE {
        return false;
    }
    let c1 = header_pointers[1];
    if !has_range(bin_data.len(), c1, 6) {
        return false;
    }
    sprite_sig_at(bin_data, c1)
}

/// A Wii TPL texture: the big-endian TPL magic at the start.
pub open spec fn spec_identify_wii_tpl(d: Seq<u8>) -> bool {
    d.len() >= 4 && spec_u32be_at(d, 0) == WII_TPL_SIGNATURE
}

/// Whether the blob is a Wii TPL texture.
pub fn identify_wii_tpl(bin_data: &Vec<u8>) -> (r: bool)
    ensures
        r == spec_identify_wii_tpl(bin_data@),
{
    if bin_data.len() < 4 {
        return false;
    }
    u32_from_be(bin_data[0], bin_data[1], bin_data[2], bin_data[3]) == WII_TPL_SIGNATURE
}

/// Up to `fuel` cell pointers read from `cursor` (sentinel- and
/// end-terminated like a pointer table, but capped).
pub open spec fn spec_cell_ptrs(d: Seq<u8>, cursor: int, fuel: nat) -> Seq<int>
    decreases fuel,
{
    if fuel == 0 {
        Seq::empty()
    } else if cursor < 0 || cursor + 4 > d.len() {
        Seq::empty()
    } else {
        let p = spec_u32le_at(d, cursor);
        if p == 0xFFFFFFFF {
            Seq::empty()
        } else {
            seq![p as int] + spec_cell_ptrs(d, cursor + 4, (fuel - 1) as nat)
        }
    }
}

/// One candidate cell slice: its bounds lie in the buffer, it holds a
/// box count, and its length is exactly the cell size that count
/// implies, rounded up to 16 bytes.
pub open spec fn spec_cell_pair_ok(d: Seq<u8>, base: int, a: int, b: int) -> bool {
    let start = base + a;
    let end = base + b;
    &&& 0 <= start <= end <= d.len()
    &&& end - start >= 4
    &&& ({
        let bc = spec_u32le_at(d, start) as int;
        let t = 16 + 12 * bc;
        let t2 = if t % 16 != 0 {
            t + 16 - t % 16
        } else {
            t
        };
        end - start == t2
    })
}

/// Every adjacent pair of cell pointers delimits a well-sized cell.
pub open spec fn spec_cells_ok(d: Seq<u8>, base: int, cps: Seq<int>) -> bool {
    forall|i: int| 0 <= i < cps.len() - 1 ==> #[trigger] spec_cell_pair_ok(d, base, cps[i], cps[i + 1])
}

/// The palette block check behind the fourth header pointer.
pub open spec fn spec_palette_check(d: Seq<u8>, p3: int) -> bool {
    &&& 0 <= p3
    &&& p3 + 4 <= d.len()
    &&& ({
        let pp = p3 + spec_u32le_at(d, p3) as int;
        pp + 4 <= d.len() && spec_u32be_at(d, pp) == PALETTE_SIGNATURE
    })
}

/// A scriptable object: two to four header pointers; the cell blob
/// behind the first pointer passes the cell-size checks; the sprite
/// blob behind the second resolves to a sprite signature; with exactly
/// four pointers, the fourth resolves to the palette magic.
pub open spec fn spec_identify_scriptable(d: Seq<u8>) -> bool {
    let hp = spec_pointers(d, 0, false);
    &&& 2 <= hp.len() <= 4
    &&& (hp.len() == 4 ==> spec_palette_check(d, hp[3]))
    &&& ({
        let cps0 = spec_cell_ptrs(d, hp[0], 3);
        if cps0.len() < 2 {
            hp[1] >= hp[0] && spec_cells_ok(d, hp[0], cps0.push(hp[1] - hp[0]))
        } else {
            spec_cells_ok(d, hp[0], cps0)
        }
    })
    &&& hp[1] + 4 <= d.len()
    &&& ({
        let sp = hp[1] + spec_u32le_at(d, hp[1]) as int;
        sp + 0x20 <= d.len() && spec_sprite_sig_at(d, sp)
    })
}

/// Whether the blob is a scriptable object (cells, sprites, script,
/// and possibly palettes).
pub fn identify_scriptable(bin_data: &Vec<u8>) -> (r: bool)
    ensures
        r == spec_identify_scriptable(bin_data@),
{
    let _total: usize = bin_data.len();
    let header_pointers = get_pointers(bin_data, 0, false);
    let ghost hp = spec_pointers(bin_data@, 0, false);
    if header_pointers.len() < 2 {
        return false;
    }
    if header_pointers.len() > 4 {
        return false;
    }
    // Palette magic speedup for player objects.
    if header_pointers.len() == 4 {
        let p3 = header_pointers[3];
        if !has_range(bin_data.len(), p3, 4) {
            return false;
        }
        let rel = u32_from_le(bin_data[p3], bin_data[p3 + 1], bin_data[p3 + 2], bin_data[p3 + 3]);
        if !has_range(bin_data.len(), p3, 4) {
            return false;
        }
        if p3 > usize::MAX - rel as usize {
            return false;
        }
        let pp: usize = p3 + rel as usize;
        if !has_range(bin_data.len(), pp, 4) {
            return false;
        }
        if u32_from_be(bin_data[pp], bin_data[pp + 1], bin_data[pp + 2], bin_data[pp + 3])
            != PALETTE_SIGNATURE {
            return false;
        }
    }
    // Cell check: walk up to three pointers.
    let base = header_pointers[0];
    let mut cell_pointers: Vec<usize> = Vec::new();
    let mut cursor: usize = base;
    let mut fuel: usize = 3;
    loop
        invariant
            fuel <= 3,
            cell_pointers@.len() + fuel == 3,
            cursor == base + 4 * cell_pointers@.len(),
            base < 0x100000000,
            bin_data@.len() <= usize::MAX,
            spec_cell_ptrs(bin_data@, base as int, 3) =~= cell_pointers@.map_values(
                |x: usize| x as int,
            ) + spec_cell_ptrs(bin_data@, cursor as int, fuel as nat),
            forall|i: int| 0 <= i < cell_pointers@.len() ==> cell_pointers@[i] < 0x100000000,
        ensures
            cell_pointers@.map_values(|x: usize| x as int) =~= spec_cell_ptrs(
                bin_data@,
                base as int,
                3,
            ),
            forall|i: int| 0 <= i < cell_pointers@.len() ==> cell_pointers@[i] < 0x100000000,
            cell_pointers@.len() <= 3,
        decreases fuel,
    {
        if fuel == 0 {
            break ;
        }
        if !has_range(bin_data.len(), cursor, 4) {
            proof {
                assert(spec_cell_ptrs(bin_data@, cursor as int, fuel as nat)
                    =~= Seq::<int>::empty());
            }
            break ;
        }
        let this_pointer = u32_from_le(
            bin_data[cursor],
            bin_data[cursor + 1],
            bin_data[cursor + 2],
            bin_data[cursor + 3],
        ) as usize;
        if this_pointer == 0xFFFFFFFF {
            proof {
                assert(spec_cell_ptrs(bin_data@, cursor as int, fuel as nat)
                    =~= Seq::<int>::empty());
            }
            break ;
        }
        let ghost prev = cell_pointers@;
        cell_pointers.push(this_pointer);
        proof {
            assert(cell_pointers@.map_values(|x: usize| x as int) =~= prev.map_values(
                |x: usize| x as int,
            ) + seq![this_pointer as int]);
        }
        cursor += 4;
        fuel -= 1;
    }
    if cell_pointers.len() < 2 {
        if header_pointers[1] < base {
            return false;
        }
        cell_pointers.push(header_pointers[1] - base);
    }
    let ghost cps = spec_cell_ptrs(bin_data@, base as int, 3);
    let ghost checked = if cps.len() < 2 {
        cps.push(header_pointers@[1] as int - base as int)
    } else {
        cps
    };
    proof {
        assert(cell_pointers@.map_values(|x: usize| x as int) =~= checked);
    }
    // Adjacent pairs must delimit well-sized cells.
    let mut pair: usize = 0;
    while pair + 1 < cell_pointers.len()
        invariant
            pair <= cell_pointers@.len(),
            cell_pointers@.len() <= 4,
            base < 0x100000000,
            forall|i: int| 0 <= i < cell_pointers@.len() ==> cell_pointers@[i] <= usize::MAX,
            checked == cell_pointers@.map_values(|x: usize| x as int),
            bin_data@.len() <= usize::MAX,
            hp == spec_pointers(bin_data@, 0, false),
            2 <= hp.len() <= 4,
            hp[0] == base as int,
            ({
                let cps0 = spec_cell_ptrs(bin_data@, hp[0], 3);
                if cps0.len() < 2 {
                    checked == cps0.push(hp[1] - hp[0]) && hp[1] >= hp[0]
                } else {
                    checked == cps0
                }
            }),
            forall|i: int| 0 <= i < pair && i < cell_pointers@.len() - 1
                ==> #[trigger] spec_cell_pair_ok(bin_data@, base as int, checked[i], checked[i + 1]),
        decreases cell_pointers@.len() - pair,
    {
        let a = cell_pointers[pair];
        let b = cell_pointers[pair + 1];
        if base > usize::MAX - a || base > usize::MAX - b {
            proof {
                assert(!spec_cell_pair_ok(
                    bin_data@,
                    base as int,
                    checked[pair as int],
                    checked[pair as int + 1],
                ));
            }
            return false;
        }
        let start: usize = base + a;
        let end: usize = base + b;
        if !(start <= end && end <= bin_data.len()) {
            proof {
                assert(!spec_cell_pair_ok(
                    bin_data@,
                    base as int,
                    checked[pair as int],
                    checked[pair as int + 1],
                ));
            }
            return false;
        }
        if end - start < 4 {
            proof {
                assert(!spec_cell_pair_ok(
                    bin_data@,
                    base as int,
                    checked[pair as int],
                    checked[pair as int + 1],
                ));
            }
            return false;
        }
        let box_count = u32_from_le(
            bin_data[start],
            bin_data[start + 1],
            bin_data[start + 2],
            bin_data[start + 3],
        );
        let target: u64 = 16 + 12 * (box_count as u64);
        let target2: u64 = if target % 16 != 0 {
            target + 16 - target % 16
        } else {
            target
        };
        if (end - start) as u64 != target2 {
            proof {
                assert(!spec_cell_pair_ok(
                    bin_data@,
                    base as int,
                    checked[pair as int],
                    checked[pair as int + 1],
                ));
            }
            return false;
        }
        pair += 1;
    }
    // Sprite check behind the second pointer.
    let p1 = header_pointers[1];
    if !has_range(bin_data.len(), p1, 4) {
        return false;
    }
    let rel = u32_from_le(bin_data[p1], bin_data[p1 + 1], bin_data[p1 + 2], bin_data[p1 + 3]);
    if p1 > usize::MAX - rel as usize {
        return false;
    }
    let sprite_pointer: usize = p1 + rel as usize;
    if !has_range(bin_data.len(), sprite_pointer, 0x20) {
        return false;
    }
    sprite_sig_at(bin_data, sprite_pointer)
}

/// One entry of a multi-scriptable container: exactly three
/// sub-pointers, the second of which resolves to a sprite signature.
pub open spec fn spec_multi_entry_ok(d: Seq<u8>, base: int) -> bool {
    let pts = spec_pointers(d, base, false);
    &&& pts.len() == 3
    &&& base + pts[1] + 4 <= d.len()
    &&& base + pts[1] >= 0
    &&& ({
        let sp = base + pts[1] + spec_u32le_at(d, base + pts[1]) as int;
        sp + 6 <= d.len() && spec_sprite_sig_at(d, sp)
    })
}

/// A container of scriptable objects: every top-level pointer's target
/// has exactly three sub-pointers whose second resolves to a sprite
/// signature.  (A blob with no pointers passes vacuously, which is why
/// this check comes last.)
pub open spec fn spec_identify_multi_scriptable(d: Seq<u8>) -> bool {
    let hp = spec_pointers(d, 0, false);
    forall|i: int| 0 <= i < hp.len() ==> #[trigger] spec_multi_entry_ok(d, hp[i])
}

/// Whether the blob is a multi-scriptable container.
pub fn identify_multi_scriptable(bin_data: &Vec<u8>) -> (r: bool)
    ensures
        r == spec_identify_multi_scriptable(bin_data@),
{
    let _total: usize = bin_data.len();
    let header_pointers = get_pointers(bin_data, 0, false);
    let ghost hp = spec_pointers(bin_data@, 0, false);
    let mut i: usize = 0;
    while i < header_pointers.len()
        invariant
            i <= header_pointers@.len(),
            hp == spec_pointers(bin_data@, 0, false),
            header_pointers@.len() == hp.len(),
            forall|j: int| 0 <= j < hp.len() ==> header_pointers@[j] as int == hp[j],
            forall|j: int| 0 <= j < hp.len() ==> header_pointers@[j] < 0x100000000,
            bin_data@.len() <= usize::MAX,
            forall|j: int| 0 <= j < i ==> #[trigger] spec_multi_entry_ok(bin_data@, hp[j]),
        decreases header_pointers@.len() - i,
    {
        let base = header_pointers[i];
        let pts = get_pointers(bin_data, base, false);
        if pts.len() != 3 {
            proof {
                assert(!spec_multi_entry_ok(bin_data@, hp[i as int]));
                assert(!spec_identify_multi_scriptable(bin_data@));
            }
            return false;
        }
        let p1 = pts[1];
        if base > usize::MAX - p1 {
            proof {
                assert(!spec_multi_entry_ok(bin_data@, hp[i as int]));
            }
            return false;
        }
        let at: usize = base + p1;
        if !has_range(bin_data.len(), at, 4) {
            proof {
                assert(!spec_multi_entry_ok(bin_data@, hp[i as int]));
            }
            return false;
        }
        let rel = u32_from_le(bin_data[at], bin_data[at + 1], bin_data[at + 2], bin_data[at + 3]);
        if at > usize::MAX - rel as usize {
            proof {
                assert(!spec_multi_entry_ok(bin_data@, hp[i as int]));
            }
            return false;
        }
        let sp: usize = at + rel as usize;
        if !has_range(bin_data.len(), sp, 6) {
            proof {
                assert(!spec_multi_entry_ok(bin_data@, hp[i as int]));
            }
            return false;
        }
        if !sprite_sig_at(bin_data, sp) {
            proof {
                assert(!spec_multi_entry_ok(bin_data@, hp[i as int]));
            }
            return false;
        }
        i += 1;
    }
    true
}

/// The classification chain, in priority order: audio passthrough,
/// single sprite, sprite list with select bitmask, plain sprite list,
/// plain-text index, Wii TPL, scriptable, multi-scriptable, and
/// finally raw passthrough.
pub open spec fn spec_identify_object(d: Seq<u8>) -> ObjectType {
    if spec_identify_audio_wbnd(d) {
        ObjectType::Unsupported
    } else if spec_identify_audio_vagp(d) {
        ObjectType::Unsupported
    } else if spec_identify_sprite(d) {
        ObjectType::Sprite
    } else if spec_identify_sprite_list_select(d) {
        ObjectType::SpriteListSelect
    } else if spec_identify_sprite_list(d) {
        ObjectType::SpriteList
    } else if spec_identify_jpf_plain_text(d) {
        ObjectType::JPFPlainText
    } else if spec_identify_wii_tpl(d) {
        ObjectType::WiiTPL
    } else if spec_identify_scriptable(d) {
        ObjectType::Scriptable
    } else if spec_identify_multi_scriptable(d) {
        ObjectType::MultiScriptable
    } else {
        ObjectType::Unsupported
    }
}

/// Classifies a blob.  The result is a function of the bytes alone, so
/// identification is deterministic: the same blob always classifies
/// the same way.
pub fn identify_object(bin_data: &Vec<u8>) -> (r: ObjectType)
    ensures
        r == spec_identify_object(bin_data@),
{
    if identify_audio_wbnd(bin_data) {
        return ObjectType::Unsupported;
    }
    if identify_audio_vagp(bin_data) {
        return ObjectType::Unsupported;
    }
    if identify_sprite(bin_data) {
        return ObjectType::Sprite;
    }
    if identify_sprite_list_select(bin_data) {
        return ObjectType::SpriteListSelect;
    }
    if identify_sprite_list(bin_data) {
        return ObjectType::SpriteList;
    }
    if identify_jpf_plain_text(bin_data) {
        return ObjectType::JPFPlainText;
    }
    if identify_wii_tpl(bin_data) {
        return ObjectType::WiiTPL;
    }
    if identify_scriptable(bin_data) {
        return ObjectType::Scriptable;
    }
    if identify_multi_scriptable(bin_data) {
        return ObjectType::MultiScriptable;
    }
    ObjectType::Unsupported
}

} // verus!
