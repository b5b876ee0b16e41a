//! The pointer-table container: little-endian 32-bit offset tables
//! terminated by `0xFFFFFFFF`, padded to a multiple of four entries,
//! with offsets measured from the start of the table itself.  Adjacent
//! offsets delimit sub-objects; the last sub-object runs to the end of
//! the buffer.

use vstd::prelude::*;
use crate::bytes::{spec_u16_le, spec_u32_le, spec_u32_le_bytes, push_u32_le, u32_from_le};
use crate::cell::{spec_cell_bytes, Cell};
use crate::error::CodecError;
use crate::identify::{get_pointers, spec_identify_object, spec_pointers, spec_u32le_at,
    identify_object, ObjectType};
use crate::palette::BinPalette;
use crate::sprite::{load_sprite_data, BinSprite};

verus! {

/// The entry count of a finalized table: the pointer count plus the
/// sentinel, rounded up to a multiple of four.
pub open spec fn spec_table_count(n: int) -> int {
    ((n + 1) + 3) / 4 * 4
}

/// Entry `k` of the finalized table: the offset rebased past the table
/// itself, or the sentinel.
pub open spec fn spec_finalize_entry(ptrs: Seq<u32>, k: int) -> u32 {
    if 0 <= k < ptrs.len() {
        (ptrs[k] + 4 * spec_table_count(ptrs.len() as int)) as u32
    } else {
        0xFFFFFFFFu32
    }
}

/// The bytes of the finalized table.
pub open spec fn spec_finalize_bytes(ptrs: Seq<u32>) -> Seq<u8> {
    Seq::new(
        (4 * spec_table_count(ptrs.len() as int)) as nat,
        |i: int| spec_u32_le_bytes(spec_finalize_entry(ptrs, i / 4))[i % 4],
    )
}

/// Serializes a pointer table: appends the sentinel, pads the entry
/// count to a multiple of four with further sentinels, and adds the
/// table's own byte size to every real offset.
pub fn finalize_pointers(source_pointers: Vec<u32>) -> (r: Vec<u8>)
    requires
        source_pointers@.len() <= 0x0100_0000,
        forall|i: int| 0 <= i < source_pointers@.len() ==> source_pointers@[i] + 4
            * spec_table_count(source_pointers@.len() as int) < 0xFFFFFFFF,
    ensures
        r@ == spec_finalize_bytes(source_pointers@),
        r@.len() == 4 * spec_table_count(source_pointers@.len() as int),
{
    let n: usize = source_pointers.len();
    let count: usize = ((n + 1) + 3) / 4 * 4;
    let mut target_vector: Vec<u8> = Vec::new();
    let mut k: usize = 0;
    while k < count
        invariant
            k <= count,
            n == source_pointers@.len(),
            n <= 0x0100_0000,
            count == spec_table_count(n as int),
            forall|i: int| 0 <= i < n ==> source_pointers@[i] + 4 * spec_table_count(n as int)
                < 0xFFFFFFFF,
            target_vector@.len() == 4 * k,
            forall|i: int| 0 <= i < target_vector@.len() ==> target_vector@[i]
                == spec_finalize_bytes(source_pointers@)[i],
        decreases count - k,
    {
        let entry: u32 = if k < n {
            source_pointers[k] + 4 * (count as u32)
        } else {
            0xFFFFFFFF
        };
        push_u32_le(&mut target_vector, entry);
        proof {
            assert(entry == spec_finalize_entry(source_pointers@, k as int));
            assert forall|i: int| 4 * k <= i < 4 * (k + 1) implies target_vector@[i]
                == spec_finalize_bytes(source_pointers@)[i] by {
                vstd::arithmetic::div_mod::lemma_fundamental_div_mod_converse(
                    i,
                    4,
                    k as int,
                    i - 4 * k,
                );
            }
        }
        k += 1;
    }
    proof {
        assert(target_vector@ =~= spec_finalize_bytes(source_pointers@));
    }
    target_vector
}

/// The sub-objects delimited by the remaining pointers from index `i`:
/// each pointer to the next (the last to the end of the buffer).
/// Walking stops at a pointer outside the buffer or a backwards pair,
/// as the reader does.
pub open spec fn spec_objects_from(d: Seq<u8>, hp: Seq<int>, i: int) -> Seq<Seq<u8>>
    decreases hp.len() - i,
{
    if i < 0 || i >= hp.len() {
        Seq::empty()
    } else if hp[i] >= d.len() || hp[i] < 0 {
        Seq::empty()
    } else {
        let end = if i == hp.len() - 1 {
            d.len() as int
        } else {
            hp[i + 1]
        };
        if end < hp[i] || end > d.len() {
            Seq::empty()
        } else {
            seq![d.subrange(hp[i], end)] + spec_objects_from(d, hp, i + 1)
        }
    }
}

/// The top-level sub-objects of a buffer.
pub open spec fn spec_objects(d: Seq<u8>) -> Seq<Seq<u8>> {
    spec_objects_from(d, spec_pointers(d, 0, false), 0)
}

/// Splits a buffer into its top-level sub-objects along the pointer
/// table (stopping at a pointer outside the buffer or a backwards
/// pair).
pub fn get_objects(bin_data: &Vec<u8>) -> (r: Vec<Vec<u8>>)
    ensures
        r@.len() == spec_objects(bin_data@).len(),
        forall|i: int| 0 <= i < r@.len() ==> r@[i]@ == spec_objects(bin_data@)[i],
{
    let _total: usize = bin_data.len();
    let header_pointers = get_pointers(bin_data, 0, false);
    let ghost hp = spec_pointers(bin_data@, 0, false);
    let mut objects: Vec<Vec<u8>> = Vec::new();
    let n: usize = header_pointers.len();
    let mut i: usize = 0;
    while i < n
        invariant
            i <= n,
            n == header_pointers@.len(),
            hp == spec_pointers(bin_data@, 0, false),
            n == hp.len(),
            forall|j: int| 0 <= j < n ==> header_pointers@[j] as int == hp[j],
            forall|j: int| 0 <= j < n ==> header_pointers@[j] < 0x100000000,
            bin_data@.len() <= usize::MAX,
            objects@.len() == i,
            spec_objects_from(bin_data@, hp, 0) =~= objects@.map_values(|v: Vec<u8>| v@)
                + spec_objects_from(bin_data@, hp, i as int),
            forall|j: int| 0 <= j < i ==> objects@[j]@ == spec_objects_from(bin_data@, hp, 0)[j],
        decreases n - i,
    {
        let start = header_pointers[i];
        if start >= bin_data.len() {
            proof {
                assert(spec_objects_from(bin_data@, hp, i as int) =~= Seq::<Seq<u8>>::empty());
                assert(objects@.map_values(|v: Vec<u8>| v@) =~= spec_objects_from(
                    bin_data@,
                    hp,
                    0,
                ));
            }
            return objects;
        }
        let end: usize = if i == n - 1 {
            bin_data.len()
        } else {
            if header_pointers[i + 1] > bin_data.len() {
                bin_data.len() + 1
            } else {
                header_pointers[i + 1]
            }
        };
        if end < start || end > bin_data.len() {
            proof {
                assert(spec_objects_from(bin_data@, hp, i as int) =~= Seq::<Seq<u8>>::empty());
                assert(objects@.map_values(|v: Vec<u8>| v@) =~= spec_objects_from(
                    bin_data@,
                    hp,
                    0,
                ));
            }
            return objects;
        }
        let mut piece: Vec<u8> = Vec::new();
        let mut p: usize = start;
        while p < end
            invariant
                start <= p <= end,
                end <= bin_data@.len(),
                piece@.len() == p - start,
                forall|q: int| 0 <= q < piece@.len() ==> piece@[q] == bin_data@[start + q],
            decreases end - p,
        {
            piece.push(bin_data[p]);
            p += 1;
        }
        proof {
            assert(piece@ =~= bin_data@.subrange(hp[i as int], if i == n - 1 {
                bin_data@.len() as int
            } else {
                hp[i as int + 1]
            }));
        }
        let ghost prev = objects@;
        objects.push(piece);
        proof {
            assert(objects@.map_values(|v: Vec<u8>| v@) =~= prev.map_values(|v: Vec<u8>| v@)
                + seq![piece@]);
            let tail = spec_objects_from(bin_data@, hp, i as int);
            assert(tail == seq![piece@] + spec_objects_from(bin_data@, hp, i as int + 1));
        }
        i += 1;
    }
    proof {
        assert(spec_objects_from(bin_data@, hp, n as int) =~= Seq::<Seq<u8>>::empty());
        assert(objects@.map_values(|v: Vec<u8>| v@) =~= spec_objects_from(bin_data@, hp, 0));
    }
    objects
}

/// The total byte length of a list of sub-objects.
pub open spec fn spec_total_len(objs: Seq<Seq<u8>>) -> int
    decreases objs.len(),
{
    if objs.len() == 0 {
        0
    } else {
        objs[0].len() + spec_total_len(objs.subrange(1, objs.len() as int))
    }
}

/// The sub-objects flattened into one data blob.
pub open spec fn spec_concat(objs: Seq<Seq<u8>>) -> Seq<u8>
    decreases objs.len(),
{
    if objs.len() == 0 {
        Seq::empty()
    } else {
        objs[0] + spec_concat(objs.subrange(1, objs.len() as int))
    }
}

/// The table offset of sub-object `i`: the total length of the objects
/// before it.
pub open spec fn spec_offsets(objs: Seq<Seq<u8>>) -> Seq<u32> {
    Seq::new(objs.len(), |i: int| spec_total_len(objs.subrange(0, i)) as u32)
}

/// A list of sub-objects serialized as a container: the finalized
/// pointer table followed by the concatenated objects.
pub open spec fn spec_serialize_table(objs: Seq<Seq<u8>>) -> Seq<u8> {
    spec_finalize_bytes(spec_offsets(objs)) + spec_concat(objs)
}

/// The total length of a list is never negative.
pub proof fn lemma_total_len_nonneg(objs: Seq<Seq<u8>>)
    ensures
        spec_total_len(objs) >= 0,
    decreases objs.len(),
{
    if objs.len() > 0 {
        lemma_total_len_nonneg(objs.subrange(1, objs.len() as int));
    }
}

/// The total length splits at any index.
pub proof fn lemma_total_split(objs: Seq<Seq<u8>>, i: int)
    requires
        0 <= i <= objs.len(),
    ensures
        spec_total_len(objs.subrange(0, i)) + spec_total_len(objs.subrange(i, objs.len() as int))
            == spec_total_len(objs),
    decreases i,
{
    if i == 0 {
        assert(objs.subrange(0, 0) =~= Seq::<Seq<u8>>::empty());
        assert(objs.subrange(0, objs.len() as int) =~= objs);
    } else {
        let rest = objs.subrange(1, objs.len() as int);
        lemma_total_split(rest, i - 1);
        assert(objs.subrange(0, i)[0] == objs[0]);
        assert(objs.subrange(0, i).subrange(1, i) =~= rest.subrange(0, i - 1));
        assert(objs.subrange(i, objs.len() as int) =~= rest.subrange(i - 1, rest.len() as int));
    }
}

/// Flattening produces exactly the total length.
pub proof fn lemma_concat_len(objs: Seq<Seq<u8>>)
    ensures
        spec_concat(objs).len() == spec_total_len(objs),
    decreases objs.len(),
{
    if objs.len() > 0 {
        lemma_concat_len(objs.subrange(1, objs.len() as int));
    }
}

/// Each object reads back from the flattened blob at its offset.
pub proof fn lemma_concat_slice(objs: Seq<Seq<u8>>, i: int)
    requires
        0 <= i < objs.len(),
    ensures
        spec_total_len(objs.subrange(0, i)) >= 0,
        spec_total_len(objs.subrange(0, i)) + objs[i].len() <= spec_concat(objs).len(),
        spec_concat(objs).subrange(
            spec_total_len(objs.subrange(0, i)),
            spec_total_len(objs.subrange(0, i)) + objs[i].len(),
        ) == objs[i],
    decreases i,
{
    lemma_total_len_nonneg(objs.subrange(0, i));
    lemma_concat_len(objs);
    lemma_total_split(objs, i);
    assert(objs.subrange(i, objs.len() as int)[0] == objs[i]);
    lemma_total_len_nonneg(objs.subrange(i, objs.len() as int).subrange(
        1,
        objs.len() - i,
    ));
    let off = spec_total_len(objs.subrange(0, i));
    if i == 0 {
        assert(objs.subrange(0, 0) =~= Seq::<Seq<u8>>::empty());
        assert(off == 0);
        let rest = objs.subrange(1, objs.len() as int);
        assert(spec_concat(objs) == objs[0] + spec_concat(rest));
        assert(spec_concat(objs).subrange(0, objs[0].len() as int) =~= objs[0]);
    } else {
        let rest = objs.subrange(1, objs.len() as int);
        lemma_concat_slice(rest, i - 1);
        assert(objs.subrange(0, i)[0] == objs[0]);
        assert(objs.subrange(0, i).subrange(1, i) =~= rest.subrange(0, i - 1));
        let off_rest = spec_total_len(rest.subrange(0, i - 1));
        assert(off == objs[0].len() + off_rest);
        assert(rest[i - 1] == objs[i]);
        lemma_concat_len(rest);
        assert(spec_concat(objs) == objs[0] + spec_concat(rest));
        assert forall|q: int| 0 <= q < objs[i].len() implies spec_concat(objs)[off + q]
            == #[trigger] objs[i][q] by {
            assert(spec_concat(objs)[objs[0].len() + (off_rest + q)] == spec_concat(rest)[off_rest
                + q]);
            assert(spec_concat(rest).subrange(off_rest, off_rest + rest[i - 1].len())[q]
                == spec_concat(rest)[off_rest + q]);
        }
        assert(spec_concat(objs).subrange(off, off + objs[i].len()) =~= objs[i]);
    }
}

/// One more object adds its length to the running offset.
pub proof fn lemma_total_step(objs: Seq<Seq<u8>>, i: int)
    requires
        0 <= i < objs.len(),
    ensures
        spec_total_len(objs.subrange(0, i + 1)) == spec_total_len(objs.subrange(0, i))
            + objs[i].len(),
{
    let a = objs.subrange(0, i + 1);
    lemma_total_split(a, i);
    assert(a.subrange(0, i) =~= objs.subrange(0, i));
    let t = a.subrange(i, i + 1);
    assert(t.len() == 1);
    assert(t[0] == objs[i]);
    assert(t.subrange(1, 1) =~= Seq::<Seq<u8>>::empty());
    assert(spec_total_len(t) == t[0].len() + spec_total_len(t.subrange(1, 1)));
    assert(spec_total_len(Seq::<Seq<u8>>::empty()) == 0);
}

/// One table entry reads back from the serialized bytes.
proof fn lemma_table_entry(d: Seq<u8>, base: int, ptrs: Seq<u32>, m: int)
    requires
        0 <= m <= ptrs.len(),
        0 <= base,
        ptrs.len() <= 0x0100_0000,
        base + 4 * spec_table_count(ptrs.len() as int) <= d.len(),
        forall|i: int| 0 <= i < 4 * spec_table_count(ptrs.len() as int) ==> #[trigger] d[base + i]
            == spec_finalize_bytes(ptrs)[i],
    ensures
        spec_u32le_at(d, base + 4 * m) == spec_finalize_entry(ptrs, m),
{
    let n = ptrs.len() as int;
    assert(spec_table_count(n) >= n + 1);
    assert forall|j: int| 0 <= j < 4 implies d[base + 4 * m + j] == spec_u32_le_bytes(
        spec_finalize_entry(ptrs, m),
    )[j] by {
        vstd::arithmetic::div_mod::lemma_fundamental_div_mod_converse(4 * m + j, 4, m, j);
        assert(d[base + (4 * m + j)] == spec_finalize_bytes(ptrs)[4 * m + j]);
    }
    crate::bytes::lemma_u32_le_roundtrip(spec_finalize_entry(ptrs, m));
}

/// Reading a finalized table back from offset `base` of a serialized
/// container yields the rebased offsets, one per object.
proof fn lemma_table_pointers(d: Seq<u8>, base: int, ptrs: Seq<u32>, k: int)
    requires
        0 <= k <= ptrs.len(),
        0 <= base,
        ptrs.len() <= 0x0100_0000,
        base + 4 * spec_table_count(ptrs.len() as int) <= d.len(),
        forall|i: int| 0 <= i < 4 * spec_table_count(ptrs.len() as int) ==> #[trigger] d[base + i]
            == spec_finalize_bytes(ptrs)[i],
        forall|i: int| 0 <= i < ptrs.len() ==> ptrs[i] + 4 * spec_table_count(ptrs.len() as int)
            < 0xFFFFFFFF,
    ensures
        spec_pointers(d, base + 4 * k, false) =~= Seq::new(
            (ptrs.len() - k) as nat,
            |j: int| ptrs[k + j] + 4 * spec_table_count(ptrs.len() as int),
        ),
    decreases ptrs.len() - k,
{
    let n = ptrs.len() as int;
    let tb = 4 * spec_table_count(n);
    assert(4 * (n + 1) <= tb) by {
        assert(spec_table_count(n) >= n + 1);
    }
    lemma_table_entry(d, base, ptrs, k);
    if k == ptrs.len() {
        assert(spec_u32le_at(d, base + 4 * k) == 0xFFFFFFFF);
        assert(spec_pointers(d, base + 4 * k, false) =~= Seq::<int>::empty());
    } else {
        assert(spec_u32le_at(d, base + 4 * k) == spec_finalize_entry(ptrs, k));
        assert(spec_finalize_entry(ptrs, k) != 0xFFFFFFFF);
        lemma_table_pointers(d, base, ptrs, k + 1);
        assert(spec_pointers(d, base + 4 * k, false) == seq![spec_finalize_entry(ptrs, k) as int]
            + spec_pointers(d, base + 4 * k + 4, false));
        assert(base + 4 * (k + 1) == base + 4 * k + 4);
    }
}

/// Pointer-table round trip: parsing the serialized container restores
/// every sub-object byte for byte.
pub proof fn lemma_table_roundtrip(objs: Seq<Seq<u8>>)
    requires
        1 <= objs.len() <= 0x0100_0000,
        forall|i: int| 0 <= i < objs.len() ==> #[trigger] objs[i].len() >= 1,
        spec_total_len(objs) + 4 * spec_table_count(objs.len() as int) < 0xFFFFFFFF,
    ensures
        spec_objects(spec_serialize_table(objs)) =~= objs,
    decreases objs.len(),
{
    let n = objs.len() as int;
    let ptrs = spec_offsets(objs);
    let tb = 4 * spec_table_count(n);
    let d = spec_serialize_table(objs);
    lemma_concat_len(objs);
    assert(d.len() == tb + spec_total_len(objs));
    // Offsets are bounded by the total length.
    assert forall|i: int| 0 <= i < n implies 0 <= spec_total_len(objs.subrange(0, i)) && #[trigger]
    spec_total_len(objs.subrange(0, i)) + objs[i].len() <= spec_total_len(objs) by {
        lemma_total_len_nonneg(objs.subrange(0, i));
        lemma_total_split(objs, i);
        assert(objs.subrange(i, n)[0] == objs[i]);
        lemma_total_len_nonneg(objs.subrange(i, n).subrange(1, n - i));
    }
    assert forall|i: int| 0 <= i < n implies ptrs[i] + tb < 0xFFFFFFFF by {
        assert(spec_total_len(objs.subrange(0, i)) + objs[i].len() <= spec_total_len(objs));
    }
    // The table reads back as the rebased offsets.
    assert forall|i: int| 0 <= i < tb implies d[i] == spec_finalize_bytes(ptrs)[i] by {
        assert(d[i] == (spec_finalize_bytes(ptrs) + spec_concat(objs))[i]);
    }
    lemma_table_pointers(d, 0, ptrs, 0);
    let hp = spec_pointers(d, 0, false);
    assert(hp =~= Seq::new(n as nat, |j: int| ptrs[j] + tb));
    // Each slice is the corresponding object.
    lemma_objects_from_suffix(objs, d, hp, n);
    assert(spec_objects_from(d, hp, 0) =~= objs.subrange(0, n));
    assert(objs.subrange(0, n) =~= objs);
}

/// The suffix induction behind the round trip: walking the last `i`
/// pointers yields the last `i` objects.
proof fn lemma_objects_from_suffix(objs: Seq<Seq<u8>>, d: Seq<u8>, hp: Seq<int>, i: int)
    requires
        0 <= i <= objs.len(),
        1 <= objs.len() <= 0x0100_0000,
        forall|j: int| 0 <= j < objs.len() ==> #[trigger] objs[j].len() >= 1,
        spec_total_len(objs) + 4 * spec_table_count(objs.len() as int) < 0xFFFFFFFF,
        d == spec_serialize_table(objs),
        hp =~= Seq::new(
            objs.len(),
            |j: int| spec_total_len(objs.subrange(0, j)) + 4 * spec_table_count(
                objs.len() as int,
            ),
        ),
    ensures
        spec_objects_from(d, hp, objs.len() - i) =~= objs.subrange(
            objs.len() - i,
            objs.len() as int,
        ),
    decreases i,
{
    let n = objs.len() as int;
    let tb = 4 * spec_table_count(n);
    lemma_concat_len(objs);
    assert(d.len() == tb + spec_total_len(objs));
    if i == 0 {
        assert(spec_objects_from(d, hp, n) =~= Seq::<Seq<u8>>::empty());
        assert(objs.subrange(n, n) =~= Seq::<Seq<u8>>::empty());
    } else {
        let k = n - i;
        lemma_concat_slice(objs, k);
        let off = spec_total_len(objs.subrange(0, k));
        lemma_total_split(objs, k);
        assert(objs.subrange(k, n)[0] == objs[k]);
        lemma_total_len_nonneg(objs.subrange(k, n).subrange(1, n - k));
        assert(off + objs[k].len() <= spec_total_len(objs));
        assert(hp[k] == off + tb);
        assert(hp[k] < d.len());
        let end = if k == n - 1 {
            d.len() as int
        } else {
            hp[k + 1]
        };
        if k == n - 1 {
            assert(spec_total_len(objs.subrange(0, n)) == spec_total_len(objs)) by {
                assert(objs.subrange(0, n) =~= objs);
            }
            lemma_total_split(objs, n - 1);
            assert(objs.subrange(n - 1, n)[0] == objs[n - 1]);
            assert(objs.subrange(n - 1, n).subrange(1, 1) =~= Seq::<Seq<u8>>::empty());
            assert(spec_total_len(objs.subrange(n - 1, n)) == objs[n - 1].len());
            assert(end == tb + off + objs[k].len());
        } else {
            lemma_total_step(objs, k);
            assert(end == tb + off + objs[k].len());
        }
        // The slice at the rebased offset is the object itself.
        assert forall|q: int| 0 <= q < objs[k].len() implies d[hp[k] + q] == #[trigger] objs[k][q] by {
            assert(d[tb + (off + q)] == spec_concat(objs)[off + q]);
            assert(spec_concat(objs).subrange(off, off + objs[k].len())[q] == spec_concat(
                objs,
            )[off + q]);
        }
        assert(d.subrange(hp[k], end) =~= objs[k]);
        lemma_objects_from_suffix(objs, d, hp, i - 1);
        assert(spec_objects_from(d, hp, k) == seq![d.subrange(hp[k], end)] + spec_objects_from(
            d,
            hp,
            k + 1,
        ));
        assert(objs.subrange(k, n) =~= seq![objs[k]] + objs.subrange(k + 1, n));
    }
}

/// One scriptable entry: cells, sprites, raw script bytes, palettes.
pub struct Scriptable {
    pub cells: Vec<Cell>,
    pub sprites: Vec<BinSprite>,
    pub scripts: Vec<u8>,
    pub palettes: Vec<BinPalette>,
}

/// A decoded archive entry, tagged by the classification the format
/// identifier gave its bytes.  Entries no predicate matched pass
/// through as raw bytes, so re-serializing an archive is lossless even
/// for unknown formats.
pub enum ResourceObject {
    Sprite(Vec<BinSprite>),
    SpriteList(Vec<BinSprite>),
    SpriteListSelect(Vec<BinSprite>, u32, u32, Vec<u8>),
    JPFPlainText(Vec<u8>, Vec<BinSprite>),
    ScriptableObject(Scriptable),
    MultiScriptable(Vec<Scriptable>),
    Unsupported(Vec<u8>),
}

/// The tag a resource object carries.
pub open spec fn spec_object_tag(o: ResourceObject) -> ObjectType {
    match o {
        ResourceObject::Sprite(_) => ObjectType::Sprite,
        ResourceObject::SpriteList(_) => ObjectType::SpriteList,
        ResourceObject::SpriteListSelect(_, _, _, _) => ObjectType::SpriteListSelect,
        ResourceObject::JPFPlainText(_, _) => ObjectType::JPFPlainText,
        ResourceObject::ScriptableObject(_) => ObjectType::Scriptable,
        ResourceObject::MultiScriptable(_) => ObjectType::MultiScriptable,
        ResourceObject::Unsupported(_) => ObjectType::Unsupported,
    }
}

/// Whether a loaded sprite is what a record slice holds: the decoded
/// sprite when the slice is a decodable, non-empty record, the empty
/// sprite otherwise.
pub open spec fn spec_loaded_sprite_ok(sub: Seq<u8>, s: BinSprite) -> bool {
    let header = crate::sprite::spec_header_of(sub);
    if crate::sprite::spec_record_ok(sub, header) && header.width > 0 && header.height > 0 {
        &&& s.width == header.width
        &&& s.height == header.height
        &&& s.bit_depth == header.bit_depth
        &&& (header.compressed ==> crate::compress::spec_decompress_pixels(sub, header) == Some(
            s.pixels@,
        ))
        &&& (!header.compressed ==> s.pixels@ == crate::sprite::spec_uncompressed_pixels(
            sub,
            header,
        ))
    } else {
        &&& s.width == 0
        &&& s.height == 0
        &&& s.pixels@.len() == 0
    }
}

/// The slice of sprite `i` of a sprite-list blob: its pointer to the
/// next pointer (or the end), empty when the range is malformed.
pub open spec fn spec_sprite_slice(d: Seq<u8>, hp: Seq<int>, i: int) -> Seq<u8> {
    let start = hp[i];
    let end = if i < hp.len() - 1 {
        hp[i + 1]
    } else {
        d.len() as int
    };
    if 0 <= start <= end <= d.len() {
        d.subrange(start, end)
    } else {
        Seq::empty()
    }
}

/// Loads the sprites of a sprite-list blob: one per pointer (from
/// `from` on), each decoded from its slice; slices that fail to decode
/// are kept as empty sprites, as the reader keeps them.
pub fn load_sprite_list(bin_data: &Vec<u8>, from: usize) -> (r: Vec<BinSprite>)
    requires
        bin_data@.len() <= usize::MAX / 16,
    ensures
        r@.len() == (if spec_pointers(bin_data@, 0, false).len() >= from {
            spec_pointers(bin_data@, 0, false).len() - from
        } else {
            0
        }),
        forall|i: int| 0 <= i < r@.len() ==> spec_loaded_sprite_ok(
            spec_sprite_slice(bin_data@, spec_pointers(bin_data@, 0, false), from + i),
            #[trigger] r@[i],
        ),
{
    let _total: usize = bin_data.len();
    let sprite_pointers = get_pointers(bin_data, 0, false);
    let ghost hp = spec_pointers(bin_data@, 0, false);
    let mut sprites: Vec<BinSprite> = Vec::new();
    let n: usize = sprite_pointers.len();
    let mut i: usize = from;
    while i < n
        invariant
            from <= i <= n || (i == from && from >= n),
            n == sprite_pointers@.len(),
            hp == spec_pointers(bin_data@, 0, false),
            n == hp.len(),
            forall|j: int| 0 <= j < n ==> sprite_pointers@[j] as int == hp[j],
            forall|j: int| 0 <= j < n ==> sprite_pointers@[j] < 0x100000000,
            bin_data@.len() <= usize::MAX / 16,
            sprites@.len() == (if i >= from {
                i - from
            } else {
                0
            }),
            forall|k: int| 0 <= k < sprites@.len() ==> spec_loaded_sprite_ok(
                spec_sprite_slice(bin_data@, hp, from + k),
                #[trigger] sprites@[k],
            ),
        decreases n - i,
    {
        let start = sprite_pointers[i];
        let end: usize = if i < n - 1 {
            sprite_pointers[i + 1]
        } else {
            bin_data.len()
        };
        let piece: Vec<u8> = slice_range(bin_data, start, end);
        proof {
            assert(piece@ == spec_sprite_slice(bin_data@, hp, i as int));
        }
        match load_sprite_data(&piece) {
            Some(sprite) => sprites.push(sprite),
            None => sprites.push(
                BinSprite {
                    pixels: Vec::new(),
                    width: 0,
                    height: 0,
                    bit_depth: 8,
                    palette: Vec::new(),
                },
            ),
        }
        i += 1;
    }
    sprites
}

/// Copies `bin_data[start..end]`, or nothing when the range is
/// malformed.
fn slice_range(bin_data: &Vec<u8>, start: usize, end: usize) -> (r: Vec<u8>)
    ensures
        r@ == (if start <= end && end <= bin_data@.len() {
            bin_data@.subrange(start as int, end as int)
        } else {
            Seq::<u8>::empty()
        }),
{
    let mut piece: Vec<u8> = Vec::new();
    if start <= end && end <= bin_data.len() {
        let mut p: usize = start;
        while p < end
            invariant
                start <= p <= end,
                end <= bin_data@.len(),
                piece@.len() == p - start,
                forall|q: int| 0 <= q < piece@.len() ==> piece@[q] == bin_data@[start + q],
            decreases end - p,
        {
            piece.push(bin_data[p]);
            p += 1;
        }
        proof {
            assert(piece@ =~= bin_data@.subrange(start as int, end as int));
        }
    }
    piece
}

/// Whether the buffer can hold the cell addressed at `cur`: its box
/// count word and the record that count implies.
pub open spec fn spec_cell_slice_ok(d: Seq<u8>, cur: int) -> bool {
    &&& cur >= 0
    &&& cur + 4 <= d.len()
    &&& cur + 16 + 12 * (spec_u32le_at(d, cur) as int) <= d.len()
}

/// Loads the cells of a scriptable blob: walks the cell pointer table
/// behind the first header pointer and parses each slice.  A cell
/// whose slice lies outside the buffer is kept as an empty cell, as
/// the reader keeps it.
pub fn load_cells(bin_data: &Vec<u8>, base: usize) -> (r: Vec<Cell>)
    ensures
        r@.len() == spec_pointers(bin_data@, base as int, false).len(),
        forall|i: int| 0 <= i < r@.len() ==> spec_loaded_cell_ok(
            bin_data@,
            base + spec_pointers(bin_data@, base as int, false)[i],
            #[trigger] r@[i],
        ),
{
    let _total: usize = bin_data.len();
    let cell_pointers = get_pointers(bin_data, base, false);
    let ghost hp = spec_pointers(bin_data@, base as int, false);
    let mut cells: Vec<Cell> = Vec::new();
    let n: usize = cell_pointers.len();
    let mut i: usize = 0;
    while i < n
        invariant
            i <= n,
            n == cell_pointers@.len(),
            hp == spec_pointers(bin_data@, base as int, false),
            n == hp.len(),
            forall|j: int| 0 <= j < n ==> cell_pointers@[j] as int == hp[j],
            forall|j: int| 0 <= j < n ==> cell_pointers@[j] < 0x100000000,
            bin_data@.len() <= usize::MAX,
            cells@.len() == i,
            forall|k: int| 0 <= k < i ==> spec_loaded_cell_ok(
                bin_data@,
                base + hp[k],
                #[trigger] cells@[k],
            ),
        decreases n - i,
    {
        let cell = load_cell_at(bin_data, base, cell_pointers[i]);
        cells.push(cell);
        i += 1;
    }
    cells
}

/// Whether a loaded cell is what the buffer holds at `cur`: the parsed
/// record when its slice fits, the empty cell otherwise.
pub open spec fn spec_loaded_cell_ok(d: Seq<u8>, cur: int, c: Cell) -> bool {
    if spec_cell_slice_ok(d, cur) {
        let count = spec_u32le_at(d, cur) as int;
        let trailer = cur + 4 + 12 * count;
        &&& c.boxes@.len() == count
        &&& (forall|j: int| 0 <= j < count ==> c.boxes@[j] == crate::cell::spec_box_at(
            d,
            cur + 4 + 12 * j,
        ))
        &&& c.sprite_x_offset == spec_u16_le(d[trailer], d[trailer + 1]) as i16
        &&& c.sprite_y_offset == spec_u16_le(d[trailer + 2], d[trailer + 3]) as i16
        &&& c.unknown_1 == spec_u32le_at(d, trailer + 4)
        &&& c.sprite_index == spec_u16_le(d[trailer + 8], d[trailer + 9])
        &&& c.unknown_2 == spec_u16_le(d[trailer + 10], d[trailer + 11])
    } else {
        &&& c.boxes@.len() == 0
        &&& c.sprite_index == 0
    }
}

/// Loads the cell addressed at `base + ptr`, or the empty cell when
/// its slice lies outside the buffer.
fn load_cell_at(bin_data: &Vec<u8>, base: usize, ptr: usize) -> (r: Cell)
    requires
        ptr < 0x100000000,
    ensures
        spec_loaded_cell_ok(bin_data@, base + ptr, r),
{
    let _total: usize = bin_data.len();
    if base <= usize::MAX - ptr {
        let cursor: usize = base + ptr;
        if cursor <= bin_data.len() && bin_data.len() - cursor >= 4 {
            let count = u32_from_le(
                bin_data[cursor],
                bin_data[cursor + 1],
                bin_data[cursor + 2],
                bin_data[cursor + 3],
            ) as usize;
            if count <= (usize::MAX - 16) / 12 && cursor <= usize::MAX - (16 + 12 * count)
                && cursor + 16 + 12 * count <= bin_data.len() {
                let piece = slice_range(bin_data, cursor, cursor + 16 + 12 * count);
                proof {
                    assert(piece@ == bin_data@.subrange(cursor as int, cursor + 16 + 12 * count));
                    assert(spec_u32_le(piece@[0], piece@[1], piece@[2], piece@[3]) == count);
                }
                match Cell::from_binary_data(&piece) {
                    Some(cell) => {
                        proof {
                            let cur = cursor as int;
                            let trailer = cur + 4 + 12 * count;
                            assert forall|j: int| 0 <= j < count implies cell.boxes@[j]
                                == crate::cell::spec_box_at(bin_data@, cur + 4 + 12 * j) by {
                                assert(cell.boxes@[j] == crate::cell::spec_box_at(
                                    piece@,
                                    12 * j + 4,
                                ));
                            }
                        }
                        return cell;
                    },
                    None => {
                        proof {
                            assert(false);
                        }
                    },
                }
            }
        }
    }
    proof {
        assert(!spec_cell_slice_ok(bin_data@, base + ptr));
    }
    Cell {
        boxes: Vec::new(),
        sprite_x_offset: 0,
        sprite_y_offset: 0,
        unknown_1: 0,
        sprite_index: 0,
        unknown_2: 0,
    }
}

/// Loads one scriptable blob: cells behind the first pointer, sprites
/// behind the second, the script between the third pointer and the
/// fourth (or the end), and palettes behind the fourth when present.
pub fn load_scriptable(bin_data: &Vec<u8>) -> (r: Scriptable)
    requires
        bin_data@.len() <= usize::MAX / 16,
    ensures
        spec_loaded_scriptable_ok(bin_data@, r),
{
    let _total: usize = bin_data.len();
    let pointers = get_pointers(bin_data, 0, false);
    let ghost hp = spec_pointers(bin_data@, 0, false);
    let mut cells: Vec<Cell> = Vec::new();
    let mut sprites: Vec<BinSprite> = Vec::new();
    let mut scripts: Vec<u8> = Vec::new();
    let mut palettes: Vec<BinPalette> = Vec::new();
    if pointers.len() >= 3 {
        cells = load_cells(bin_data, pointers[0]);
        // Sprites: pointer table behind the second header pointer,
        // each sprite sliced up to the next or up to the third pointer.
        let base = pointers[1];
        let sprite_pointers = get_pointers(bin_data, base, false);
        let m: usize = sprite_pointers.len();
        let mut k: usize = 0;
        while k < m
            invariant
                k <= m,
                m == sprite_pointers@.len(),
                hp == spec_pointers(bin_data@, 0, false),
                hp.len() >= 3,
                sprite_pointers@.len() == spec_pointers(bin_data@, base as int, false).len(),
                forall|j: int| 0 <= j < m ==> sprite_pointers@[j] as int == spec_pointers(
                    bin_data@,
                    base as int,
                    false,
                )[j],
                pointers@.len() == hp.len(),
                forall|j: int| 0 <= j < pointers@.len() ==> pointers@[j] as int == hp[j],
                base == pointers@[1],
                forall|j: int| 0 <= j < m ==> sprite_pointers@[j] < 0x100000000,
                forall|j: int| 0 <= j < pointers@.len() ==> pointers@[j] < 0x100000000,
                base < 0x100000000,
                bin_data@.len() <= usize::MAX / 16,
                sprites@.len() == k,
                forall|j: int| 0 <= j < k ==> spec_loaded_sprite_ok(
                    spec_scriptable_sprite_slice(bin_data@, base as int, hp[2], j),
                    #[trigger] sprites@[j],
                ),
            decreases m - k,
        {
            let mut piece: Vec<u8> = Vec::new();
            if base <= usize::MAX - sprite_pointers[k] {
                let start: usize = base + sprite_pointers[k];
                let fin: usize = if k < m - 1 {
                    if base <= usize::MAX - sprite_pointers[k + 1] {
                        base + sprite_pointers[k + 1]
                    } else {
                        start
                    }
                } else {
                    pointers[2]
                };
                piece = slice_range(bin_data, start, fin);
                proof {
                    if k < m - 1 && base > usize::MAX - sprite_pointers@[k + 1] as usize {
                        assert(base + spec_pointers(bin_data@, base as int, false)[k + 1]
                            > bin_data@.len());
                        assert(piece@ =~= spec_scriptable_sprite_slice(
                            bin_data@,
                            base as int,
                            hp[2],
                            k as int,
                        ));
                    } else {
                        assert(piece@ =~= spec_scriptable_sprite_slice(
                            bin_data@,
                            base as int,
                            hp[2],
                            k as int,
                        ));
                    }
                }
            } else {
                proof {
                    assert(base + spec_pointers(bin_data@, base as int, false)[k as int]
                        > bin_data@.len());
                    assert(piece@ =~= spec_scriptable_sprite_slice(
                        bin_data@,
                        base as int,
                        hp[2],
                        k as int,
                    ));
                }
            }
            proof {
                assert(piece@.len() <= bin_data@.len());
            }
            match load_sprite_data(&piece) {
                Some(sprite) => sprites.push(sprite),
                None => sprites.push(
                    BinSprite {
                        pixels: Vec::new(),
                        width: 0,
                        height: 0,
                        bit_depth: 8,
                        palette: Vec::new(),
                    },
                ),
            }
            k += 1;
        }
        // Script region.
        let script_end: usize = if pointers.len() == 4 {
            pointers[3]
        } else {
            bin_data.len()
        };
        scripts = slice_range(bin_data, pointers[2], script_end);
        // Palettes behind the fourth pointer.
        if pointers.len() == 4 {
            let pbase = pointers[3];
            let palette_pointers = get_pointers(bin_data, pbase, false);
            let pm: usize = palette_pointers.len();
            let mut q: usize = 0;
            while q < pm
                invariant
                    q <= pm,
                    pm == palette_pointers@.len(),
                    palette_pointers@.len() == spec_pointers(
                        bin_data@,
                        pbase as int,
                        false,
                    ).len(),
                    forall|j: int| 0 <= j < pm ==> palette_pointers@[j] as int == spec_pointers(
                        bin_data@,
                        pbase as int,
                        false,
                    )[j],
                    pbase < 0x100000000,
                    forall|j: int| 0 <= j < pm ==> palette_pointers@[j] < 0x100000000,
                    bin_data@.len() <= usize::MAX / 16,
                    palettes@.len() == q,
                    forall|j: int| 0 <= j < q ==> spec_loaded_palette_ok(
                        bin_data@,
                        pbase + spec_pointers(bin_data@, pbase as int, false)[j],
                        #[trigger] palettes@[j],
                    ),
                decreases pm - q,
            {
                let mut piece: Vec<u8> = Vec::new();
                let ghost cur = pbase + spec_pointers(bin_data@, pbase as int, false)[q as int];
                if pbase <= usize::MAX - palette_pointers[q] {
                    let cursor: usize = pbase + palette_pointers[q];
                    if cursor <= usize::MAX - 0x410 {
                        piece = slice_range(bin_data, cursor, cursor + 0x410);
                    }
                }
                proof {
                    if cur + 0x410 <= bin_data@.len() {
                        assert(piece@ =~= bin_data@.subrange(cur, cur + 0x410));
                    }
                }
                let ghost pv = piece@;
                match BinPalette::from_bin_data(piece) {
                    Some(p) => {
                        proof {
                            assert(pv.len() >= 0x10);
                            assert(cur + 0x410 <= bin_data@.len());
                            assert(pv[2] == bin_data@[cur + 2]);
                            assert(pv[4] == bin_data@[cur + 4]);
                            assert(p.palette@ =~= bin_data@.subrange(
                                cur + 0x10,
                                if bin_data@[cur + 4] == 4 {
                                    cur + 0x50
                                } else {
                                    cur + 0x410
                                },
                            ));
                            assert(spec_loaded_palette_ok(bin_data@, cur, p));
                        }
                        palettes.push(p);
                    },
                    None => {
                        proof {
                            if cur + 0x410 <= bin_data@.len() && bin_data@[cur + 2] == 0x20 {
                                assert(pv[2] == bin_data@[cur + 2]);
                                assert(false);
                            }
                        }
                        palettes.push(BinPalette { palette: Vec::new() });
                    },
                }
                q += 1;
            }
        }
    }
    Scriptable { cells, sprites, scripts, palettes }
}

/// Whether a decoded entry is what its slice holds, by the
/// classification of the slice's bytes:
/// - a single-sprite slice decodes to a one-sprite entry, or passes
///   through unchanged when its record cannot be decoded;
/// - sprite-list (and select, and plain-text-index) slices load one
///   sprite per pointer, each per `spec_loaded_sprite_ok`;
/// - a scriptable slice loads its cells, sprites, script and palettes
///   per the scriptable loader; a multi-scriptable slice loads one
///   scriptable per sub-object;
/// - anything else passes through unchanged.
pub open spec fn spec_loaded_entry_ok(sub: Seq<u8>, o: ResourceObject) -> bool {
    match o {
        ResourceObject::Sprite(ss) => {
            &&& crate::identify::spec_identify_object(sub) == ObjectType::Sprite
            &&& ss@.len() == 1
            &&& spec_loaded_sprite_ok(sub, ss@[0])
            &&& ss@[0].width > 0
        },
        ResourceObject::SpriteList(ss) => {
            &&& crate::identify::spec_identify_object(sub) == ObjectType::SpriteList
            &&& ss@.len() == spec_pointers(sub, 0, false).len()
            &&& forall|k: int| 0 <= k < ss@.len() ==> spec_loaded_sprite_ok(
                spec_sprite_slice(sub, spec_pointers(sub, 0, false), k),
                #[trigger] ss@[k],
            )
        },
        ResourceObject::SpriteListSelect(ss, w, h, px) => {
            &&& crate::identify::spec_identify_object(sub) == ObjectType::SpriteListSelect
            &&& ss@.len() == spec_pointers(sub, 0, false).len()
            &&& forall|k: int| 0 <= k < ss@.len() ==> spec_loaded_sprite_ok(
                spec_sprite_slice(sub, spec_pointers(sub, 0, false), k),
                #[trigger] ss@[k],
            )
        },
        ResourceObject::JPFPlainText(ci, ss) => {
            let hp = spec_pointers(sub, 0, false);
            &&& crate::identify::spec_identify_object(sub) == ObjectType::JPFPlainText
            &&& (hp.len() >= 2 && 0 <= hp[0] <= hp[1] <= sub.len() ==> ci@ == sub.subrange(
                hp[0],
                hp[1],
            ))
            &&& ss@.len() == (if hp.len() >= 1 {
                hp.len() - 1
            } else {
                0
            })
            &&& forall|k: int| 0 <= k < ss@.len() ==> spec_loaded_sprite_ok(
                spec_sprite_slice(sub, hp, 1 + k),
                #[trigger] ss@[k],
            )
        },
        ResourceObject::ScriptableObject(e) => {
            &&& crate::identify::spec_identify_object(sub) == ObjectType::Scriptable
            &&& spec_loaded_scriptable_ok(sub, e)
        },
        ResourceObject::MultiScriptable(es) => {
            &&& crate::identify::spec_identify_object(sub) == ObjectType::MultiScriptable
            &&& es@.len() == spec_objects(sub).len()
            &&& forall|j: int| 0 <= j < es@.len() ==> spec_loaded_scriptable_ok(
                spec_objects(sub)[j],
                #[trigger] es@[j],
            )
        },
        ResourceObject::Unsupported(d) => {
            &&& d@ == sub
            &&& (crate::identify::spec_identify_object(sub) == ObjectType::Unsupported
                || crate::identify::spec_identify_object(sub) == ObjectType::WiiTPL || (
            crate::identify::spec_identify_object(sub) == ObjectType::Sprite
                && !spec_sprite_loadable(sub)))
        },
    }
}

/// Whether a record slice yields a loadable, non-empty sprite.
pub open spec fn spec_sprite_loadable(sub: Seq<u8>) -> bool {
    let header = crate::sprite::spec_header_of(sub);
    &&& crate::sprite::spec_record_ok(sub, header)
    &&& header.width > 0
    &&& header.height > 0
}

/// The slice of sprite `k` inside a scriptable: from its table-relative
/// pointer to the next (the last to `end2`), empty when malformed.
pub open spec fn spec_scriptable_sprite_slice(d: Seq<u8>, base: int, end2: int, k: int) -> Seq<
    u8,
> {
    let sp = spec_pointers(d, base, false);
    let start = base + sp[k];
    let fin = if k < sp.len() - 1 {
        base + sp[k + 1]
    } else {
        end2
    };
    if 0 <= start <= fin <= d.len() {
        d.subrange(start, fin)
    } else {
        Seq::empty()
    }
}

/// Whether a loaded palette is what the 0x410-byte record at `cur`
/// holds: the parsed palette when the record fits and carries the clut
/// flag, the empty palette otherwise.
pub open spec fn spec_loaded_palette_ok(d: Seq<u8>, cur: int, p: BinPalette) -> bool {
    let ok = 0 <= cur && cur + 0x410 <= d.len() && d[cur + 2] == 0x20;
    if ok {
        p.palette@ == d.subrange(cur + 0x10, if d[cur + 4] == 4 {
            cur + 0x50
        } else {
            cur + 0x410
        })
    } else {
        p.palette@.len() == 0
    }
}

/// What the scriptable loader guarantees of its result, restated of a
/// slice.
pub open spec fn spec_loaded_scriptable_ok(sub: Seq<u8>, e: Scriptable) -> bool {
    let hp = spec_pointers(sub, 0, false);
    if hp.len() >= 3 {
        &&& e.cells@.len() == spec_pointers(sub, hp[0], false).len()
        &&& (forall|i: int| 0 <= i < e.cells@.len() ==> spec_loaded_cell_ok(
            sub,
            hp[0] + spec_pointers(sub, hp[0], false)[i],
            #[trigger] e.cells@[i],
        ))
        &&& e.sprites@.len() == spec_pointers(sub, hp[1], false).len()
        &&& (forall|k: int| 0 <= k < e.sprites@.len() ==> spec_loaded_sprite_ok(
            spec_scriptable_sprite_slice(sub, hp[1], hp[2], k),
            #[trigger] e.sprites@[k],
        ))
        &&& ({
            let send = if hp.len() == 4 {
                hp[3]
            } else {
                sub.len() as int
            };
            e.scripts@ == if hp[2] <= send <= sub.len() {
                sub.subrange(hp[2], send)
            } else {
                Seq::<u8>::empty()
            }
        })
        &&& (hp.len() == 4 ==> e.palettes@.len() == spec_pointers(sub, hp[3], false).len()
            && forall|q: int| 0 <= q < e.palettes@.len() ==> spec_loaded_palette_ok(
            sub,
            hp[3] + spec_pointers(sub, hp[3], false)[q],
            #[trigger] e.palettes@[q],
        ))
        &&& (hp.len() == 3 ==> e.palettes@.len() == 0)
    } else {
        &&& e.cells@.len() == 0
        &&& e.sprites@.len() == 0
        &&& e.scripts@.len() == 0
        &&& e.palettes@.len() == 0
    }
}

/// Decodes every top-level entry of an archive: slices the pointer
/// table, classifies each slice, and loads it by its classification.
/// Each entry holds what its slice's classification says it holds;
/// entries pass through as raw bytes only when nothing matched (or a
/// single-sprite slice failed to decode).
#[verifier::rlimit(100)]
pub fn load_resource_file(bin_data: &Vec<u8>) -> (r: Vec<ResourceObject>)
    requires
        bin_data@.len() <= usize::MAX / 16,
    ensures
        r@.len() == spec_objects(bin_data@).len(),
        forall|i: int| 0 <= i < r@.len() ==> spec_loaded_entry_ok(
            spec_objects(bin_data@)[i],
            #[trigger] r@[i],
        ),
{
    let objects = get_objects(bin_data);
    let mut result: Vec<ResourceObject> = Vec::new();
    let n: usize = objects.len();
    let mut i: usize = 0;
    while i < n
        invariant
            i <= n,
            n == objects@.len(),
            objects@.len() == spec_objects(bin_data@).len(),
            forall|j: int| 0 <= j < n ==> objects@[j]@ == spec_objects(bin_data@)[j],
            bin_data@.len() <= usize::MAX / 16,
            result@.len() == i,
            forall|j: int| 0 <= j < i ==> spec_loaded_entry_ok(
                spec_objects(bin_data@)[j],
                #[trigger] result@[j],
            ),
        decreases n - i,
    {
        let object = &objects[i];
        proof {
            assert(object@.len() <= bin_data@.len()) by {
                lemma_object_len(bin_data@, spec_pointers(bin_data@, 0, false), i as int);
            }
        }
        let entry: ResourceObject = match identify_object(object) {
            ObjectType::Sprite => {
                match crate::sprite::load_sprite_data(object) {
                    Some(sprite) => {
                        let mut v: Vec<BinSprite> = Vec::new();
                        v.push(sprite);
                        ResourceObject::Sprite(v)
                    },
                    None => {
                        let raw = slice_range(object, 0, object.len());
                        proof {
                            assert(raw@ =~= object@);
                        }
                        ResourceObject::Unsupported(raw)
                    },
                }
            },
            ObjectType::SpriteListSelect => {
                let sprites = load_sprite_list(object, 0);
                let pointers = get_pointers(object, 0, false);
                let mut select_w: u32 = 0;
                let mut select_h: u32 = 0;
                let mut select_pixels: Vec<u8> = Vec::new();
                if pointers.len() > 0 {
                    let last = pointers[pointers.len() - 1];
                    if last <= usize::MAX - 8 && last + 8 <= object.len() {
                        select_w = u32_from_le(
                            object[last],
                            object[last + 1],
                            object[last + 2],
                            object[last + 3],
                        );
                        select_h = u32_from_le(
                            object[last + 4],
                            object[last + 5],
                            object[last + 6],
                            object[last + 7],
                        );
                        proof {
                            vstd::arithmetic::mul::lemma_mul_upper_bound(
                                select_w as int,
                                0xFFFFFFFF,
                                select_h as int,
                                0xFFFFFFFF,
                            );
                            vstd::arithmetic::mul::lemma_mul_nonnegative(
                                select_w as int,
                                select_h as int,
                            );
                        }
                        let pixel_count: u64 = (select_w as u64) * (select_h as u64);
                        if pixel_count <= (object.len() as u64) && last as u64 + 8 + pixel_count
                            <= object.len() as u64 {
                            select_pixels = slice_range(
                                object,
                                last + 8,
                                last + 8 + pixel_count as usize,
                            );
                        }
                    }
                }
                ResourceObject::SpriteListSelect(sprites, select_w, select_h, select_pixels)
            },
            ObjectType::SpriteList => ResourceObject::SpriteList(load_sprite_list(object, 0)),
            ObjectType::JPFPlainText => {
                let pointers = get_pointers(object, 0, false);
                let mut char_index: Vec<u8> = Vec::new();
                if pointers.len() >= 2 {
                    char_index = slice_range(object, pointers[0], pointers[1]);
                }
                let sprites = load_sprite_list(object, 1);
                proof {
                    let hp = spec_pointers(object@, 0, false);
                    if hp.len() >= 2 && 0 <= hp[0] <= hp[1] <= object@.len() {
                        assert(char_index@ == object@.subrange(hp[0], hp[1]));
                    }
                }
                ResourceObject::JPFPlainText(char_index, sprites)
            },
            ObjectType::Scriptable => ResourceObject::ScriptableObject(load_scriptable(object)),
            ObjectType::MultiScriptable => {
                let subobjects = get_objects(object);
                proof {
                    assert forall|j: int| 0 <= j < subobjects@.len() implies (
                    #[trigger] subobjects@[j])@.len() <= object@.len() by {
                        lemma_object_len(object@, spec_pointers(object@, 0, false), j);
                    }
                }
                let mut entries: Vec<Scriptable> = Vec::new();
                let sm: usize = subobjects.len();
                let mut k: usize = 0;
                while k < sm
                    invariant
                        k <= sm,
                        sm == subobjects@.len(),
                        sm == spec_objects(object@).len(),
                        forall|j: int| 0 <= j < sm ==> (#[trigger] subobjects@[j])@.len()
                            <= object@.len(),
                        forall|j: int| 0 <= j < sm ==> (#[trigger] subobjects@[j])@
                            == spec_objects(object@)[j],
                        object@.len() <= usize::MAX / 16,
                        entries@.len() == k,
                        forall|j: int| 0 <= j < k ==> spec_loaded_scriptable_ok(
                            spec_objects(object@)[j],
                            #[trigger] entries@[j],
                        ),
                    decreases sm - k,
                {
                    entries.push(load_scriptable(&subobjects[k]));
                    k += 1;
                }
                ResourceObject::MultiScriptable(entries)
            },
            _ => {
                let raw = slice_range(object, 0, object.len());
                proof {
                    assert(raw@ =~= object@);
                }
                ResourceObject::Unsupported(raw)
            },
        };
        result.push(entry);
        i += 1;
    }
    result
}

/// A sub-object sliced from a buffer is never longer than the buffer./// A sub-object sliced from a buffer is never longer than the buffer.
proof fn lemma_object_len(d: Seq<u8>, hp: Seq<int>, i: int)
    requires
        0 <= i < spec_objects_from(d, hp, 0).len(),
    ensures
        spec_objects_from(d, hp, 0)[i].len() <= d.len(),
{
    lemma_objects_from_pieces(d, hp, 0, i);
}

/// Every piece a pointer walk produces is a subrange of the buffer.
proof fn lemma_objects_from_pieces(d: Seq<u8>, hp: Seq<int>, start: int, i: int)
    requires
        0 <= i < spec_objects_from(d, hp, start).len(),
    ensures
        spec_objects_from(d, hp, start)[i].len() <= d.len(),
    decreases spec_objects_from(d, hp, start).len() - i + (hp.len() - start),
{
    if !(start < 0 || start >= hp.len() || hp[start] >= d.len() || hp[start] < 0) {
        let end = if start == hp.len() - 1 {
            d.len() as int
        } else {
            hp[start + 1]
        };
        if !(end < hp[start] || end > d.len()) {
            if i == 0 {
            } else {
                lemma_objects_from_pieces(d, hp, start + 1, i - 1);
            }
        }
    }
}

/// The concatenated serialized cells.
pub open spec fn spec_cells_concat(cells: Seq<Cell>) -> Seq<u8>
    decreases cells.len(),
{
    if cells.len() == 0 {
        Seq::empty()
    } else {
        spec_cell_bytes(cells[0]) + spec_cells_concat(cells.subrange(1, cells.len() as int))
    }
}

/// Appending one cell extends the blob by its bytes.
proof fn lemma_cells_concat_snoc(cells: Seq<Cell>, i: int)
    requires
        0 <= i < cells.len(),
    ensures
        spec_cells_concat(cells.subrange(0, i + 1)) == spec_cells_concat(cells.subrange(0, i))
            + spec_cell_bytes(cells[i]),
    decreases i,
{
    if i == 0 {
        let s1 = cells.subrange(0, 1);
        assert(s1.len() == 1);
        assert(s1[0] == cells[0]);
        assert(s1.subrange(1, 1) =~= Seq::<Cell>::empty());
        assert(spec_cells_concat(Seq::<Cell>::empty()) =~= Seq::<u8>::empty());
        assert(spec_cells_concat(s1) == spec_cell_bytes(s1[0]) + spec_cells_concat(
            s1.subrange(1, 1),
        ));
        assert(spec_cells_concat(cells.subrange(0, 0)) =~= Seq::<u8>::empty());
        assert(spec_cells_concat(s1) =~= spec_cell_bytes(cells[0]));
        assert(spec_cells_concat(cells.subrange(0, 0)) + spec_cell_bytes(cells[0])
            =~= spec_cell_bytes(cells[0]));
    } else {
        let rest = cells.subrange(1, cells.len() as int);
        lemma_cells_concat_snoc(rest, i - 1);
        assert(cells.subrange(0, i + 1)[0] == cells[0]);
        assert(cells.subrange(0, i + 1).subrange(1, i + 1) =~= rest.subrange(0, i));
        assert(cells.subrange(0, i)[0] == cells[0]);
        assert(cells.subrange(0, i).subrange(1, i) =~= rest.subrange(0, i - 1));
        assert(rest[i - 1] == cells[i]);
        assert(spec_cells_concat(cells.subrange(0, i + 1)) =~= spec_cells_concat(
            cells.subrange(0, i),
        ) + spec_cell_bytes(cells[i]));
    }
}

/// Serializes a cell list into its pointer offsets and data blob: the
/// offsets are the running lengths and the blob is the concatenation
/// of the serialized cells.
pub fn get_cell_block(cells: &Vec<Cell>) -> (r: (Vec<u32>, Vec<u8>))
    requires
        cells@.len() <= 0x10000,
        forall|i: int| 0 <= i < cells@.len() ==> (#[trigger] cells@[i]).boxes@.len() <= 0x1000,
    ensures
        r.0@.len() == cells@.len(),
        r.1@ == spec_cells_concat(cells@),
        r.1@.len() <= 0x10000 * cells@.len(),
        forall|i: int| 0 <= i < cells@.len() ==> #[trigger] r.0@[i] <= r.1@.len(),
        forall|i: int| 0 <= i < cells@.len() ==> r.0@[i] == spec_cells_concat(
            cells@.subrange(0, i),
        ).len(),
{
    let mut pointer_vector: Vec<u32> = Vec::new();
    let mut cell_vector: Vec<u8> = Vec::new();
    let n: usize = cells.len();
    let mut i: usize = 0;
    while i < n
        invariant
            i <= n,
            n == cells@.len(),
            n <= 0x10000,
            forall|k: int| 0 <= k < cells@.len() ==> (#[trigger] cells@[k]).boxes@.len() <= 0x1000,
            pointer_vector@.len() == i,
            cell_vector@ == spec_cells_concat(cells@.subrange(0, i as int)),
            cell_vector@.len() <= 0x10000 * i,
            forall|k: int| 0 <= k < i ==> #[trigger] pointer_vector@[k] <= cell_vector@.len(),
            forall|k: int| 0 <= k < i ==> pointer_vector@[k] == spec_cells_concat(
                cells@.subrange(0, k),
            ).len(),
        decreases n - i,
    {
        pointer_vector.push(cell_vector.len() as u32);
        let mut piece = cells[i].to_bin();
        cell_vector.append(&mut piece);
        proof {
            lemma_cells_concat_snoc(cells@, i as int);
        }
        i += 1;
    }
    proof {
        assert(cells@.subrange(0, n as int) =~= cells@);
    }
    (pointer_vector, cell_vector)
}

/// Whether a record slice decodes to exactly this sprite: the parsed
/// header carries its dimensions and depth, and decompression yields
/// its pixels.
pub open spec fn spec_record_decodes_to(sub: Seq<u8>, s: BinSprite) -> bool {
    let header = crate::sprite::spec_header_of(sub);
    &&& header.width == s.width
    &&& header.height == s.height
    &&& header.bit_depth == s.bit_depth
    &&& crate::compress::spec_decompress_pixels(sub, header) == Some(s.pixels@)
}

/// The record region of sprite `k` in a serialized block: from its
/// rebased offset to the next sprite's (or the end of the blob).
pub open spec fn spec_sprite_record_at(ptrs: Seq<u32>, data: Seq<u8>, offset: u32, k: int) -> Seq<
    u8,
> {
    let lo = ptrs[k] - offset;
    let hi = if k + 1 < ptrs.len() {
        ptrs[k + 1] - offset
    } else {
        data.len() as int
    };
    data.subrange(lo, hi)
}

/// Serializes a sprite list into offsets and a data blob: each offset
/// (plus the base) marks where its sprite's record begins; each record
/// region parses back to its sprite's header fields and decompresses
/// to its sprite's pixels.
pub fn get_sprite_block(sprites: &Vec<BinSprite>, offset: u32) -> (r: (Vec<u32>, Vec<u8>))
    requires
        spec_sprites_serializable(sprites@),
        offset <= 0x10000000,
    ensures
        r.0@.len() == sprites@.len(),
        r.1@.len() <= 0x300500 * sprites@.len(),
        (forall|i: int| 0 <= i < sprites@.len() ==> (#[trigger] sprites@[i]).pixels@.len()
            <= 0x10000) ==> r.1@.len() <= 0x30500 * sprites@.len(),
        forall|i: int| 0 <= i < r.0@.len() ==> offset <= #[trigger] r.0@[i] && r.0@[i] - offset
            <= r.1@.len(),
        forall|k: int| 0 <= k < sprites@.len() - 1 ==> #[trigger] r.0@[k] <= r.0@[k + 1],
        forall|k: int| 0 <= k < sprites@.len() ==> spec_record_decodes_to(
            #[trigger] spec_sprite_record_at(r.0@, r.1@, offset, k),
            sprites@[k],
        ),
{
    let mut pointer_vector: Vec<u32> = Vec::new();
    let mut sprite_vector: Vec<u8> = Vec::new();
    let n: usize = sprites.len();
    let mut i: usize = 0;
    while i < n
        invariant
            i <= n,
            n == sprites@.len(),
            n <= 0x400,
            offset <= 0x10000000,
            forall|k: int| 0 <= k < sprites@.len() ==> crate::sprite::spec_sprite_wf(
                #[trigger] sprites@[k],
            ) && sprites@[k].width as int * sprites@[k].height as int <= 0x100000
                && sprites@[k].pixels@.len() <= 0x100000,
            pointer_vector@.len() == i,
            sprite_vector@.len() <= 0x300500 * i,
            (forall|k: int| 0 <= k < sprites@.len() ==> (#[trigger] sprites@[k]).pixels@.len()
                <= 0x10000) ==> sprite_vector@.len() <= 0x30500 * i,
            forall|k: int| 0 <= k < i ==> offset <= #[trigger] pointer_vector@[k]
                && pointer_vector@[k] - offset <= sprite_vector@.len(),
            forall|k: int| 0 <= k < i - 1 ==> #[trigger] pointer_vector@[k + 1]
                >= pointer_vector@[k],
            i > 0 ==> pointer_vector@[i - 1] - offset <= sprite_vector@.len(),
            forall|k: int| 0 <= k < i ==> ({
                let sub = #[trigger] spec_sprite_record_at(
                    pointer_vector@,
                    sprite_vector@,
                    offset,
                    k,
                );
                let header = crate::sprite::spec_header_of(sub);
                &&& header.width == sprites@[k].width
                &&& header.height == sprites@[k].height
                &&& header.bit_depth == sprites@[k].bit_depth
                &&& crate::compress::spec_decompress_pixels(sub, header) == Some(
                    sprites@[k].pixels@,
                )
            }),
        decreases n - i,
    {
        let ghost prev_ptrs = pointer_vector@;
        let ghost prev_data = sprite_vector@;
        pointer_vector.push(sprite_vector.len() as u32 + offset);
        let mut piece = sprites[i].to_bin();
        let ghost pv = piece@;
        sprite_vector.append(&mut piece);
        proof {
            assert forall|k: int| 0 <= k < i + 1 implies ({
                let sub = #[trigger] spec_sprite_record_at(
                    pointer_vector@,
                    sprite_vector@,
                    offset,
                    k,
                );
                let header = crate::sprite::spec_header_of(sub);
                &&& header.width == sprites@[k].width
                &&& header.height == sprites@[k].height
                &&& header.bit_depth == sprites@[k].bit_depth
                &&& crate::compress::spec_decompress_pixels(sub, header) == Some(
                    sprites@[k].pixels@,
                )
            }) by {
                if k < i {
                    let old_sub = spec_sprite_record_at(prev_ptrs, prev_data, offset, k);
                    let new_sub = spec_sprite_record_at(
                        pointer_vector@,
                        sprite_vector@,
                        offset,
                        k,
                    );
                    assert(new_sub =~= old_sub);
                } else {
                    let new_sub = spec_sprite_record_at(
                        pointer_vector@,
                        sprite_vector@,
                        offset,
                        k,
                    );
                    assert(new_sub =~= pv);
                }
            }
        }
        i += 1;
    }
    (pointer_vector, sprite_vector)
}

/// One palette's serialized bytes: the default header then its data.
pub open spec fn spec_palette_record(p: BinPalette) -> Seq<u8> {
    crate::palette::spec_palette_header(p.palette@.len() as int / 4) + p.palette@
}

/// The concatenated serialized palettes.
pub open spec fn spec_palettes_concat(ps: Seq<BinPalette>) -> Seq<u8>
    decreases ps.len(),
{
    if ps.len() == 0 {
        Seq::empty()
    } else {
        spec_palette_record(ps[0]) + spec_palettes_concat(ps.subrange(1, ps.len() as int))
    }
}

/// Appending one palette extends the blob by its record.
proof fn lemma_palettes_concat_snoc(ps: Seq<BinPalette>, i: int)
    requires
        0 <= i < ps.len(),
    ensures
        spec_palettes_concat(ps.subrange(0, i + 1)) == spec_palettes_concat(ps.subrange(0, i))
            + spec_palette_record(ps[i]),
    decreases i,
{
    if i == 0 {
        let s1 = ps.subrange(0, 1);
        assert(s1.len() == 1);
        assert(s1[0] == ps[0]);
        assert(s1.subrange(1, 1) =~= Seq::<BinPalette>::empty());
        assert(spec_palettes_concat(Seq::<BinPalette>::empty()) =~= Seq::<u8>::empty());
        assert(spec_palettes_concat(s1) == spec_palette_record(s1[0]) + spec_palettes_concat(
            s1.subrange(1, 1),
        ));
        assert(ps.subrange(0, 0) =~= Seq::<BinPalette>::empty());
        assert(spec_palettes_concat(s1) =~= spec_palette_record(ps[0]));
        assert(spec_palettes_concat(ps.subrange(0, 0)) + spec_palette_record(ps[0])
            =~= spec_palette_record(ps[0]));
    } else {
        let rest = ps.subrange(1, ps.len() as int);
        lemma_palettes_concat_snoc(rest, i - 1);
        assert(ps.subrange(0, i + 1)[0] == ps[0]);
        assert(ps.subrange(0, i + 1).subrange(1, i + 1) =~= rest.subrange(0, i));
        assert(ps.subrange(0, i)[0] == ps[0]);
        assert(ps.subrange(0, i).subrange(1, i) =~= rest.subrange(0, i - 1));
        assert(rest[i - 1] == ps[i]);
        assert(spec_palettes_concat(ps.subrange(0, i + 1)) =~= spec_palettes_concat(
            ps.subrange(0, i),
        ) + spec_palette_record(ps[i]));
    }
}

/// Serializes a palette list into offsets and a data blob: the offsets
/// are the running lengths and the blob is the concatenation of the
/// serialized palettes.
pub fn get_palette_block(palettes: &Vec<BinPalette>) -> (r: (Vec<u32>, Vec<u8>))
    requires
        palettes@.len() <= 0x1000,
        forall|i: int| 0 <= i < palettes@.len() ==> (#[trigger] palettes@[i]).palette@.len()
            <= 0x400,
    ensures
        r.0@.len() == palettes@.len(),
        r.1@ == spec_palettes_concat(palettes@),
        r.1@.len() <= 0x410 * palettes@.len(),
        forall|i: int| 0 <= i < r.0@.len() ==> #[trigger] r.0@[i] <= r.1@.len(),
        forall|i: int| 0 <= i < palettes@.len() ==> r.0@[i] == spec_palettes_concat(
            palettes@.subrange(0, i),
        ).len(),
{
    let mut pointer_vector: Vec<u32> = Vec::new();
    let mut palette_vector: Vec<u8> = Vec::new();
    let n: usize = palettes.len();
    let mut i: usize = 0;
    while i < n
        invariant
            i <= n,
            n == palettes@.len(),
            n <= 0x1000,
            forall|k: int| 0 <= k < palettes@.len() ==> (#[trigger] palettes@[k]).palette@.len()
                <= 0x400,
            pointer_vector@.len() == i,
            palette_vector@ == spec_palettes_concat(palettes@.subrange(0, i as int)),
            palette_vector@.len() <= 0x410 * i,
            forall|k: int| 0 <= k < i ==> #[trigger] pointer_vector@[k] <= palette_vector@.len(),
            forall|k: int| 0 <= k < i ==> pointer_vector@[k] == spec_palettes_concat(
                palettes@.subrange(0, k),
            ).len(),
        decreases n - i,
    {
        pointer_vector.push(palette_vector.len() as u32);
        let mut piece = palettes[i].to_bin();
        palette_vector.append(&mut piece);
        proof {
            lemma_palettes_concat_snoc(palettes@, i as int);
        }
        i += 1;
    }
    proof {
        assert(palettes@.subrange(0, n as int) =~= palettes@);
    }
    (pointer_vector, palette_vector)
}

/// Whether every top-level slice of an archive classifies as a single
/// sprite (making the file a sprite-list file, whose pointers address
/// the sprites directly).
pub open spec fn spec_all_sprites(d: Seq<u8>) -> bool {
    forall|k: int| 0 <= k < spec_objects(d).len() ==> crate::identify::spec_identify_object(
        #[trigger] spec_objects(d)[k],
    ) == ObjectType::Sprite
}

/// Decodes a whole archive file.
///
/// Fails with `TooShort` exactly for files under the 48-byte minimum
/// (the smallest sprite-list file), `Encrypted` exactly for longer
/// files still carrying the trailing signature, `Unidentified` exactly
/// when no pointer table is found, and `MalformedPointerTable` exactly
/// when the table exists but its first offset resolves outside the
/// buffer.  A file whose slices all classify as single sprites loads
/// as one sprite-list entry over the whole file's pointers; any other
/// file loads entry by entry, each entry holding what its slice's
/// classification says.
#[verifier::rlimit(100)]
pub fn load_binary_data(bin_data: &Vec<u8>) -> (r: Result<Vec<ResourceObject>, CodecError>)
    requires
        bin_data@.len() <= usize::MAX / 16,
    ensures
        match r {
            Ok(entries) => {
                &&& bin_data@.len() >= 0x30
                &&& !crate::decrypt::spec_is_encrypted(bin_data@)
                &&& spec_objects(bin_data@).len() >= 1
                &&& (spec_all_sprites(bin_data@) ==> entries@.len() == 1 && match entries@[0] {
                    ResourceObject::SpriteList(ss) => ss@.len() == spec_pointers(
                        bin_data@,
                        0,
                        false,
                    ).len() && forall|k: int| 0 <= k < ss@.len() ==> spec_loaded_sprite_ok(
                        spec_sprite_slice(bin_data@, spec_pointers(bin_data@, 0, false), k),
                        #[trigger] ss@[k],
                    ),
                    _ => false,
                })
                &&& (!spec_all_sprites(bin_data@) ==> entries@.len() == spec_objects(
                    bin_data@,
                ).len() && forall|i: int| 0 <= i < entries@.len() ==> spec_loaded_entry_ok(
                    spec_objects(bin_data@)[i],
                    #[trigger] entries@[i],
                ))
            },
            Err(e) => {
                &&& ((e == CodecError::TooShort) <==> bin_data@.len() < 0x30)
                &&& ((e == CodecError::Encrypted) <==> (bin_data@.len() >= 0x30
                    && crate::decrypt::spec_is_encrypted(bin_data@)))
                &&& ((e == CodecError::Unidentified) <==> (bin_data@.len() >= 0x30
                    && !crate::decrypt::spec_is_encrypted(bin_data@) && spec_pointers(
                    bin_data@,
                    0,
                    false,
                ).len() == 0))
                &&& ((e == CodecError::MalformedPointerTable) <==> (bin_data@.len() >= 0x30
                    && !crate::decrypt::spec_is_encrypted(bin_data@) && spec_pointers(
                    bin_data@,
                    0,
                    false,
                ).len() > 0 && spec_objects(bin_data@).len() == 0))
            },
        },
{
    if bin_data.len() < 0x30 {
        return Err(CodecError::TooShort);
    }
    if crate::decrypt::is_encrypted(bin_data) {
        return Err(CodecError::Encrypted);
    }
    let objects = get_objects(bin_data);
    if objects.len() == 0 {
        let pointers = get_pointers(bin_data, 0, false);
        if pointers.len() == 0 {
            return Err(CodecError::Unidentified);
        }
        return Err(CodecError::MalformedPointerTable);
    }
    // A file whose entries are all single sprites is a sprite-list
    // file: its pointers address the sprites directly.
    proof {
        assert forall|j: int| 0 <= j < objects@.len() implies (#[trigger] objects@[j])@.len()
            <= bin_data@.len() by {
            lemma_object_len(bin_data@, spec_pointers(bin_data@, 0, false), j);
        }
    }
    let mut all_sprites: bool = true;
    let n: usize = objects.len();
    let mut i: usize = 0;
    while i < n
        invariant
            i <= n,
            n == objects@.len(),
            n == spec_objects(bin_data@).len(),
            forall|j: int| 0 <= j < n ==> (#[trigger] objects@[j])@.len() <= bin_data@.len(),
            forall|j: int| 0 <= j < n ==> (#[trigger] objects@[j])@ == spec_objects(bin_data@)[j],
            bin_data@.len() <= usize::MAX / 16,
            all_sprites <==> (forall|j: int| 0 <= j < i
                ==> crate::identify::spec_identify_object(#[trigger] spec_objects(bin_data@)[j])
                == ObjectType::Sprite),
        decreases n - i,
    {
        match identify_object(&objects[i]) {
            ObjectType::Sprite => {},
            _ => {
                all_sprites = false;
            },
        }
        i += 1;
    }
    if all_sprites {
        let mut entries: Vec<ResourceObject> = Vec::new();
        entries.push(ResourceObject::SpriteList(load_sprite_list(bin_data, 0)));
        Ok(entries)
    } else {
        Ok(load_resource_file(bin_data))
    }
}

/// Sprites a block serializer accepts: well formed, with dimensions
/// and pixel counts bounded so that every record offset stays inside
/// the format's 32-bit pointer range (up to 1024 sprites of up to a
/// million pixels each).
pub open spec fn spec_sprites_serializable(ss: Seq<BinSprite>) -> bool {
    &&& ss.len() <= 0x400
    &&& forall|i: int| 0 <= i < ss.len() ==> crate::sprite::spec_sprite_wf(#[trigger] ss[i])
        && ss[i].width as int * ss[i].height as int <= 0x100000 && ss[i].pixels@.len() <= 0x100000
}

/// A scriptable entry a serializer accepts.
pub open spec fn spec_scriptable_serializable(s: Scriptable) -> bool {
    &&& s.cells@.len() <= 0x1000
    &&& forall|i: int| 0 <= i < s.cells@.len() ==> (#[trigger] s.cells@[i]).boxes@.len() <= 0x1000
    &&& spec_sprites_serializable(s.sprites@)
    &&& s.scripts@.len() <= 0x1000000
    &&& s.palettes@.len() <= 0x1000
    &&& forall|i: int| 0 <= i < s.palettes@.len() ==> (#[trigger] s.palettes@[i]).palette@.len()
        <= 0x400
}

/// Compact scriptable parts: the sizes a multi-scriptable container
/// can hold while every cumulative offset stays in the format's 32-bit
/// pointer range.
pub open spec fn spec_scriptable_compact_parts(
    cells: Seq<Cell>,
    sprites: Seq<BinSprite>,
    scripts: Seq<u8>,
    palettes: Seq<BinPalette>,
) -> bool {
    &&& cells.len() <= 0x100
    &&& sprites.len() <= 0x100
    &&& (forall|i: int| 0 <= i < sprites.len() ==> (#[trigger] sprites[i]).pixels@.len()
        <= 0x10000)
    &&& scripts.len() <= 0x100000
    &&& palettes.len() == 0
}

/// A compact scriptable entry (see `spec_scriptable_compact_parts`).
pub open spec fn spec_scriptable_compact(s: Scriptable) -> bool {
    &&& spec_scriptable_serializable(s)
    &&& spec_scriptable_compact_parts(s.cells@, s.sprites@, s.scripts@, s.palettes@)
}

/// An archive entry a serializer accepts.
pub open spec fn spec_object_serializable(o: ResourceObject) -> bool {
    match o {
        ResourceObject::Sprite(ss) => spec_sprites_serializable(ss@) && ss@.len() >= 1,
        ResourceObject::SpriteList(ss) => spec_sprites_serializable(ss@),
        ResourceObject::SpriteListSelect(ss, _, _, px) => spec_sprites_serializable(ss@)
            && px@.len() <= 0x100000,
        ResourceObject::JPFPlainText(ci, ss) => ci@.len() <= 0x100000 && spec_sprites_serializable(
            ss@,
        ),
        ResourceObject::ScriptableObject(s) => spec_scriptable_serializable(s),
        ResourceObject::MultiScriptable(es) => es@.len() <= 0x30 && forall|i: int|
            0 <= i < es@.len() ==> spec_scriptable_compact(#[trigger] es@[i]),
        ResourceObject::Unsupported(d) => 1 <= d@.len() <= 0x10000000,
    }
}

/// Whether the sprite table at `base` holds exactly these sprites:
/// one pointer per sprite, each record slice (to the next pointer, the
/// last to `end`) decoding to its sprite.
pub open spec fn spec_sprite_records_ok(d: Seq<u8>, base: int, end: int, ss: Seq<BinSprite>) -> bool {
    let sp = spec_pointers(d, base, false);
    &&& sp.len() == ss.len()
    &&& forall|k: int| 0 <= k < ss.len() ==> spec_record_decodes_to(
        #[trigger] spec_record_region(d, base, end, k),
        ss[k],
    )
}

/// The record region of sprite `k` behind the table at `base`: from
/// its pointer to the next (the last to `end`).
pub open spec fn spec_record_region(d: Seq<u8>, base: int, end: int, k: int) -> Seq<u8> {
    let sp = spec_pointers(d, base, false);
    d.subrange(
        base + sp[k],
        if k + 1 < sp.len() {
            base + sp[k + 1]
        } else {
            end
        },
    )
}

/// Whether a blob is a serialized sprite list holding exactly these
/// sprites.
pub open spec fn spec_sprite_list_bytes_ok(sub: Seq<u8>, ss: Seq<BinSprite>) -> bool {
    spec_sprite_records_ok(sub, 0, sub.len() as int, ss)
}

/// Serializes a sprite list entry: a finalized pointer table, then the
/// sprite records.  The result holds exactly the given sprites.
pub fn get_bin_sprite_list(sprites: &Vec<BinSprite>) -> (r: Vec<u8>)
    requires
        spec_sprites_serializable(sprites@),
    ensures
        r@.len() >= 16,
        r@.len() <= 0xC1000000,
        spec_sprite_list_bytes_ok(r@, sprites@),
{
    let block = get_sprite_block(sprites, 0);
    proof {
        assert(spec_table_count(block.0@.len() as int) <= block.0@.len() + 4);
        assert(spec_table_count(block.0@.len() as int) >= 4);
    }
    let mut out = finalize_pointers(block.0);
    let ghost bptrs = block.0@;
    let ghost bdata = block.1@;
    let mut data = block.1;
    out.append(&mut data);
    proof {
        lemma_sprite_table_embeds(out@, 0, bptrs, bdata, sprites@);
        assert(out@.len() == 4 * spec_table_count(bptrs.len() as int) + bdata.len());
    }
    out
}

/// A finalized sprite-pointer table followed by its record blob,
/// sitting at `base` of a larger buffer and ending at
/// `base + table + blob`, reads back as exactly its sprites.
#[verifier::rlimit(100)]
proof fn lemma_sprite_table_embeds(
    d: Seq<u8>,
    base: int,
    bptrs: Seq<u32>,
    bdata: Seq<u8>,
    ss: Seq<BinSprite>,
)
    requires
        0 <= base,
        bptrs.len() == ss.len(),
        ss.len() <= 0x400,
        bdata.len() <= 0x300500 * ss.len(),
        base + 4 * spec_table_count(bptrs.len() as int) + bdata.len() <= d.len(),
        forall|k: int| 0 <= k < bptrs.len() ==> 0 <= #[trigger] bptrs[k] <= bdata.len(),
        forall|k: int| 0 <= k < bptrs.len() - 1 ==> #[trigger] bptrs[k] <= bptrs[k + 1],
        forall|k: int| 0 <= k < ss.len() ==> spec_record_decodes_to(
            #[trigger] spec_sprite_record_at(bptrs, bdata, 0, k),
            ss[k],
        ),
        forall|i: int| 0 <= i < 4 * spec_table_count(bptrs.len() as int) ==> #[trigger] d[base + i]
            == spec_finalize_bytes(bptrs)[i],
        forall|j: int| 0 <= j < bdata.len() ==> #[trigger] d[base + 4 * spec_table_count(
            bptrs.len() as int,
        ) + j] == bdata[j],
    ensures
        spec_sprite_records_ok(
            d,
            base,
            base + 4 * spec_table_count(bptrs.len() as int) + bdata.len(),
            ss,
        ),
{
    let n = bptrs.len() as int;
    let tb = 4 * spec_table_count(n);
    let end = base + tb + bdata.len();
    assert(spec_table_count(n) <= n + 4);
    assert forall|i: int| 0 <= i < n implies bptrs[i] + tb < 0xFFFFFFFF by {
        assert(bptrs[i] <= bdata.len());
    }
    lemma_table_pointers(d, base, bptrs, 0);
    let sp = spec_pointers(d, base, false);
    assert(sp.len() == n);
    assert forall|k: int| 0 <= k < ss.len() implies spec_record_decodes_to(
        #[trigger] spec_record_region(d, base, end, k),
        ss[k],
    ) by {
        assert(sp[k] == bptrs[k] + tb);
        let lo = bptrs[k] as int;
        let hi = if k + 1 < n {
            assert(sp[k + 1] == bptrs[k + 1] + tb);
            bptrs[k + 1] as int
        } else {
            bdata.len() as int
        };
        let region = spec_record_region(d, base, end, k);
        assert(region =~= bdata.subrange(lo, hi)) by {
            assert forall|q: int| 0 <= q < hi - lo implies #[trigger] bdata.subrange(lo, hi)[q]
                == region[q] by {
                assert(d[base + tb + (lo + q)] == bdata[lo + q]);
            }
        }
        assert(spec_sprite_record_at(bptrs, bdata, 0, k) == bdata.subrange(lo, hi));
    }
}

/// Serializes a sprite list with the select-screen bitmask appended:
/// the bitmask's width, height and mask bytes sit behind one extra
/// pointer, padded to a 16-byte boundary.
#[verifier::rlimit(100)]
pub fn get_bin_sprite_list_select(
    sprites: &Vec<BinSprite>,
    select_width: u32,
    select_height: u32,
    select_pixels: &Vec<u8>,
) -> (r: Vec<u8>)
    requires
        spec_sprites_serializable(sprites@),
        select_pixels@.len() <= 0x100000,
    ensures
        r@.len() >= 16,
        r@.len() <= 0xC1000000,
        ({
            let hp = spec_pointers(r@, 0, false);
            &&& hp.len() == sprites@.len() + 1
            &&& 0 <= hp[sprites@.len() as int] && hp[sprites@.len() as int] + 8 <= r@.len()
            &&& spec_u32le_at(r@, hp[sprites@.len() as int]) == select_width
            &&& spec_u32le_at(r@, hp[sprites@.len() as int] + 4) == select_height
            &&& forall|k: int| 0 <= k < sprites@.len() ==> spec_record_decodes_to(
                #[trigger] r@.subrange(hp[k], hp[k + 1]),
                sprites@[k],
            )
        }),
{
    let block = get_sprite_block(sprites, 0);
    let ghost bptrs = block.0@;
    let ghost bdata = block.1@;
    let mut pointers = block.0;
    let mut data = block.1;
    pointers.push(data.len() as u32);
    let ghost select_off = data@.len() as int;
    crate::bytes::push_u32_le(&mut data, select_width);
    crate::bytes::push_u32_le(&mut data, select_height);
    proof {
        assert(data@.subrange(select_off, select_off + 4) =~= crate::bytes::spec_u32_le_bytes(
            select_width,
        ));
        assert(data@.subrange(select_off + 4, select_off + 8) =~= crate::bytes::spec_u32_le_bytes(
            select_height,
        ));
    }
    let ghost after_wh = data@;
    proof {
        assert(after_wh.subrange(0, bdata.len() as int) =~= bdata);
        assert forall|q: int| 0 <= q < bdata.len() implies #[trigger] after_wh[q]
            == bdata[q] by {}
    }
    let mut k: usize = 0;
    while k < select_pixels.len()
        invariant
            k <= select_pixels@.len(),
            select_pixels@.len() <= 0x100000,
            data@.len() == after_wh.len() + k,
            data@.subrange(0, after_wh.len() as int) == after_wh,
            after_wh.len() <= 0x300500 * 0x400 + 8,
        decreases select_pixels@.len() - k,
    {
        data.push(select_pixels[k]);
        proof {
            assert(data@.subrange(0, after_wh.len() as int) =~= after_wh);
        }
        k += 1;
    }
    let pad: usize = (16 - (data.len() % 16)) % 16;
    let mut j: usize = 0;
    while j < pad
        invariant
            j <= pad,
            pad <= 15,
            data@.len() <= 0x300500 * 0x400 + 8 + 0x100000 + j,
            data@.len() >= after_wh.len(),
            after_wh.len() <= 0x300500 * 0x400 + 8,
            data@.subrange(0, after_wh.len() as int) == after_wh,
        decreases pad - j,
    {
        data.push(0xFF);
        proof {
            assert(data@.subrange(0, after_wh.len() as int) =~= after_wh);
        }
        j += 1;
    }
    proof {
        assert(spec_table_count(pointers@.len() as int) <= pointers@.len() + 4);
    }
    let ghost ptrs = pointers@;
    let mut out = finalize_pointers(pointers);
    let ghost tb = out@.len() as int;
    let ghost body = data@;
    out.append(&mut data);
    proof {
        assert forall|i: int| 0 <= i < ptrs.len() implies ptrs[i] + tb < 0xFFFFFFFF by {}
        lemma_table_pointers(out@, 0, ptrs, 0);
        let hp = spec_pointers(out@, 0, false);
        let n = sprites@.len() as int;
        assert(hp.len() == n + 1);
        assert(hp[n] == select_off + tb);
        assert(select_off == bdata.len());
        assert forall|q: int| 0 <= q < body.len() implies #[trigger] out@[tb + q] == body[q] by {}
        crate::bytes::lemma_u32_le_roundtrip(select_width);
        crate::bytes::lemma_u32_le_roundtrip(select_height);
        assert forall|q: int| 0 <= q < 8 implies #[trigger] after_wh[select_off + q] == out@[tb
            + select_off + q] by {
            assert(body.subrange(0, after_wh.len() as int)[select_off + q] == body[select_off
                + q]);
            assert(out@[tb + (select_off + q)] == body[select_off + q]);
        }
        assert(spec_u32le_at(out@, hp[n]) == select_width);
        assert(spec_u32le_at(out@, hp[n] + 4) == select_height);
        // Record slices: pointer to pointer, the last ending at the
        // select pointer, which sits exactly at the end of the block
        // data.
        assert forall|k: int| 0 <= k < n implies spec_record_decodes_to(
            #[trigger] out@.subrange(hp[k], hp[k + 1]),
            sprites@[k],
        ) by {
            assert(hp[k] == bptrs[k] + tb);
            assert(ptrs[k] == bptrs[k]);
            let lo = bptrs[k] as int;
            let hi = if k + 1 < n {
                assert(ptrs[k + 1] == bptrs[k + 1]);
                bptrs[k + 1] as int
            } else {
                assert(ptrs[n] == select_off);
                bdata.len() as int
            };
            assert(hp[k + 1] == hi + tb);
            assert(out@.subrange(hp[k], hp[k + 1]) =~= bdata.subrange(lo, hi)) by {
                assert forall|q: int| 0 <= q < hi - lo implies #[trigger] bdata.subrange(lo, hi)[q]
                    == out@.subrange(hp[k], hp[k + 1])[q] by {
                    assert(after_wh[lo + q] == bdata[lo + q]);
                    assert(body.subrange(0, after_wh.len() as int)[lo + q] == body[lo + q]);
                    assert(out@[tb + (lo + q)] == body[lo + q]);
                }
            }
            assert(spec_sprite_record_at(bptrs, bdata, 0, k) == bdata.subrange(lo, hi));
        }
    }
    out
}

/// Serializes a plain-text index entry: the index blob (padded to 16
/// bytes) behind the first pointer, then the sprite records.
pub fn get_bin_jpf_plain_text(char_index: &Vec<u8>, sprites: &Vec<BinSprite>) -> (r: Vec<u8>)
    requires
        char_index@.len() <= 0x100000,
        spec_sprites_serializable(sprites@),
    ensures
        r@.len() >= 16,
        r@.len() <= 0xC1000000,
        ({
            let hp = spec_pointers(r@, 0, false);
            &&& hp.len() == 1 + sprites@.len()
            &&& 0 <= hp[0] && hp[0] + char_index@.len() <= r@.len()
            &&& r@.subrange(hp[0], hp[0] + char_index@.len() as int) == char_index@
            &&& forall|k: int| 0 <= k < sprites@.len() ==> spec_record_decodes_to(
                #[trigger] spec_record_region(r@, 0, r@.len() as int, 1 + k),
                sprites@[k],
            )
        }),
{
    let mut data: Vec<u8> = char_index.clone();
    proof {
        assert(data@ =~= char_index@);
    }
    let pad: usize = (16 - (data.len() % 16)) % 16;
    let mut j: usize = 0;
    while j < pad
        invariant
            j <= pad,
            pad <= 15,
            data@.len() == char_index@.len() + j,
            data@.subrange(0, char_index@.len() as int) == char_index@,
        decreases pad - j,
    {
        data.push(0xFF);
        proof {
            assert(data@.subrange(0, char_index@.len() as int) =~= char_index@);
        }
        j += 1;
    }
    let mut pointers: Vec<u32> = Vec::new();
    pointers.push(0);
    let block = get_sprite_block(sprites, data.len() as u32);
    let ghost off = data@.len() as int;
    let ghost bptrs = block.0@;
    let ghost bdata = block.1@;
    let mut sprite_pointers = block.0;
    let mut sprite_data = block.1;
    let mut i: usize = 0;
    while i < sprite_pointers.len()
        invariant
            i <= sprite_pointers@.len(),
            sprite_pointers@.len() <= 0x400,
            forall|j2: int| 0 <= j2 < sprite_pointers@.len() ==> #[trigger] sprite_pointers@[j2]
                <= 0x300500 * 0x400 + 0x100000 + 16,
            pointers@.len() == 1 + i,
            pointers@[0] == 0,
            sprite_pointers@ == bptrs,
            forall|j2: int| 0 <= j2 < i ==> #[trigger] pointers@[1 + j2] == bptrs[j2],
            forall|j2: int| 0 <= j2 < pointers@.len() ==> #[trigger] pointers@[j2] <= 0x300500
                * 0x400 + 0x100000 + 16,
        decreases sprite_pointers@.len() - i,
    {
        pointers.push(sprite_pointers[i]);
        i += 1;
    }
    proof {
        assert(spec_table_count(pointers@.len() as int) <= pointers@.len() + 4);
    }
    let ghost ptrs = pointers@;
    let ghost ci_padded = data@;
    let mut out = finalize_pointers(pointers);
    let ghost tb = out@.len() as int;
    out.append(&mut data);
    let mut more = sprite_data;
    out.append(&mut more);
    proof {
        assert forall|q: int| 0 <= q < ptrs.len() implies ptrs[q] + tb < 0xFFFFFFFF by {}
        lemma_table_pointers(out@, 0, ptrs, 0);
        let hp = spec_pointers(out@, 0, false);
        assert(hp.len() == 1 + sprites@.len());
        assert(hp[0] == tb);
        assert(out@.subrange(hp[0], hp[0] + char_index@.len() as int) =~= char_index@) by {
            assert forall|q: int| 0 <= q < char_index@.len() implies #[trigger] char_index@[q]
                == out@[tb + q] by {
                assert(ci_padded.subrange(0, char_index@.len() as int)[q] == ci_padded[q]);
            }
        }
        // Record slices: each sprite pointer to the next (the last to
        // the end of the file), matching the block's record regions.
        let n = sprites@.len() as int;
        assert(out@.len() == tb + off + bdata.len());
        assert forall|k: int| 0 <= k < n implies spec_record_decodes_to(
            #[trigger] spec_record_region(out@, 0, out@.len() as int, 1 + k),
            sprites@[k],
        ) by {
            assert(ptrs[1 + k] == bptrs[k]);
            assert(hp[1 + k] == bptrs[k] + tb);
            let lo = bptrs[k] - off;
            let hi = if k + 1 < n {
                assert(ptrs[1 + (k + 1)] == bptrs[k + 1]);
                assert(hp[2 + k] == bptrs[k + 1] + tb);
                bptrs[k + 1] - off
            } else {
                bdata.len() as int
            };
            let region = spec_record_region(out@, 0, out@.len() as int, 1 + k);
            assert(region =~= bdata.subrange(lo, hi)) by {
                assert forall|q: int| 0 <= q < hi - lo implies #[trigger] bdata.subrange(lo, hi)[q]
                    == region[q] by {
                    assert(out@[tb + (off + (lo + q))] == bdata[lo + q]);
                }
            }
            assert(spec_sprite_record_at(bptrs, bdata, off as u32, k) == bdata.subrange(lo, hi));
        }
    }
    out
}

/// The cell-table offsets of a cell list: the running lengths of the
/// serialized cells.
pub open spec fn spec_cell_offsets(cells: Seq<Cell>) -> Seq<u32> {
    Seq::new(cells.len(), |i: int| spec_cells_concat(cells.subrange(0, i)).len() as u32)
}

/// The palette-table offsets of a palette list.
pub open spec fn spec_palette_offsets(ps: Seq<BinPalette>) -> Seq<u32> {
    Seq::new(ps.len(), |i: int| spec_palettes_concat(ps.subrange(0, i)).len() as u32)
}

/// The serialized cell section of a scriptable entry: a finalized cell
/// table and the concatenated cells.
pub open spec fn spec_cell_section(cells: Seq<Cell>) -> Seq<u8> {
    spec_finalize_bytes(spec_cell_offsets(cells)) + spec_cells_concat(cells)
}

/// The serialized palette section of a scriptable entry.
pub open spec fn spec_palette_section(ps: Seq<BinPalette>) -> Seq<u8> {
    spec_finalize_bytes(spec_palette_offsets(ps)) + spec_palettes_concat(ps)
}

/// Whether a blob is a serialized scriptable entry holding exactly
/// these parts: three or four header pointers; the cell section behind
/// the first; the sprite table behind the second, one record per
/// sprite, each decoding to its sprite; the script bytes behind the
/// third; and the palette section behind the fourth when palettes are
/// present.
pub open spec fn spec_scriptable_parts_ok(
    sub: Seq<u8>,
    cells: Seq<Cell>,
    sprites: Seq<BinSprite>,
    scripts: Seq<u8>,
    palettes: Seq<BinPalette>,
) -> bool {
    let hp = spec_pointers(sub, 0, false);
    &&& hp.len() == (if palettes.len() > 0 {
        4int
    } else {
        3int
    })
    &&& 0 <= hp[0] <= hp[1] <= hp[2] <= sub.len()
    &&& sub.subrange(hp[0], hp[1]) == spec_cell_section(cells)
    &&& spec_sprite_records_ok(sub, hp[1], hp[2], sprites)
    &&& sub.subrange(hp[2], if hp.len() == 4 {
        hp[3]
    } else {
        sub.len() as int
    }) == scripts
    &&& (palettes.len() > 0 ==> hp[3] <= sub.len() && sub.subrange(hp[3], sub.len() as int)
        == spec_palette_section(palettes))
}

/// The same layout stated of a scriptable value.
pub open spec fn spec_scriptable_bytes_ok(sub: Seq<u8>, e: Scriptable) -> bool {
    spec_scriptable_parts_ok(sub, e.cells@, e.sprites@, e.scripts@, e.palettes@)
}

/// Serializes scriptable parts: cells, sprites and script behind three
/// pointers, palettes behind a fourth when present.  The result holds
/// exactly the given parts.
#[verifier::rlimit(100)]
pub fn serialize_scriptable_parts(
    cells: &Vec<Cell>,
    sprites: &Vec<BinSprite>,
    scripts: &Vec<u8>,
    palettes: &Vec<BinPalette>,
) -> (r: Vec<u8>)
    requires
        cells@.len() <= 0x1000,
        forall|i: int| 0 <= i < cells@.len() ==> (#[trigger] cells@[i]).boxes@.len() <= 0x1000,
        spec_sprites_serializable(sprites@),
        scripts@.len() <= 0x1000000,
        palettes@.len() <= 0x1000,
        forall|i: int| 0 <= i < palettes@.len() ==> (#[trigger] palettes@[i]).palette@.len()
            <= 0x400,
    ensures
        r@.len() >= 16,
        r@.len() <= 0xD2000000,
        spec_scriptable_compact_parts(cells@, sprites@, scripts@, palettes@) ==> r@.len()
            <= 0x4200000,
        spec_scriptable_parts_ok(r@, cells@, sprites@, scripts@, palettes@),
{
    let cell_block = get_cell_block(cells);
    proof {
        assert(spec_table_count(cell_block.0@.len() as int) <= cell_block.0@.len() + 4);
        assert(cell_block.0@ =~= spec_cell_offsets(cells@));
    }
    let cell_pointers = finalize_pointers(cell_block.0);
    let sprite_block = get_sprite_block(sprites, 0);
    proof {
        assert(spec_table_count(sprite_block.0@.len() as int) <= sprite_block.0@.len() + 4);
    }
    let sprite_pointers = finalize_pointers(sprite_block.0);
    let ghost sptrs = sprite_block.0@;
    let ghost sdata = sprite_block.1@;

    let mut header: Vec<u32> = Vec::new();
    let mut data: Vec<u8> = Vec::new();
    let mut piece = cell_pointers;
    header.push(data.len() as u32);
    data.append(&mut piece);
    let mut piece = cell_block.1;
    data.append(&mut piece);
    proof {
        assert(data@ =~= spec_cell_section(cells@));
        assert(data@.len() <= 0x4010 + 0x10000 * cells@.len());
    }
    let ghost c1 = data@.len() as int;
    let mut piece = sprite_pointers;
    header.push(data.len() as u32);
    data.append(&mut piece);
    let mut piece = sprite_block.1;
    data.append(&mut piece);
    proof {
        assert(data@ =~= spec_cell_section(cells@) + (spec_finalize_bytes(sptrs) + sdata));
        assert(data@.len() <= c1 + 0x1010 + 0x300500 * sprites@.len());
        if spec_scriptable_compact_parts(cells@, sprites@, scripts@, palettes@) {
            assert(data@.len() <= c1 + 0x1010 + 0x30500 * sprites@.len());
        }
    }
    let ghost c2 = data@.len() as int;
    header.push(data.len() as u32);
    let mut piece = scripts.clone();
    data.append(&mut piece);
    let ghost c3 = data@.len() as int;
    let ghost with_palettes = palettes@.len() > 0;
    if palettes.len() > 0 {
        let palette_block = get_palette_block(palettes);
        proof {
            assert(spec_table_count(palette_block.0@.len() as int) <= palette_block.0@.len() + 4);
            assert(palette_block.0@ =~= spec_palette_offsets(palettes@));
        }
        let mut piece = finalize_pointers(palette_block.0);
        header.push(data.len() as u32);
        data.append(&mut piece);
        let mut piece = palette_block.1;
        data.append(&mut piece);
        proof {
            assert(data@.subrange(c3, data@.len() as int) =~= spec_palette_section(
                palettes@,
            ));
        }
    }
    proof {
        assert(spec_table_count(header@.len() as int) <= header@.len() + 4);
    }
    let ghost hdr = header@;
    let ghost body = data@;
    let mut out = finalize_pointers(header);
    let ghost tb = out@.len() as int;
    out.append(&mut data);
    proof {
        lemma_table_pointers(out@, 0, hdr, 0);
        let hp = spec_pointers(out@, 0, false);
        assert(hp.len() == hdr.len());
        assert(hp[0] == tb && hp[1] == tb + c1 && hp[2] == tb + c2);
        assert forall|q: int| 0 <= q < body.len() implies #[trigger] out@[tb + q] == body[q] by {}
        assert(out@.subrange(hp[0], hp[1]) =~= spec_cell_section(cells@)) by {
            assert forall|q: int| 0 <= q < c1 implies #[trigger] spec_cell_section(
                cells@,
            )[q] == out@[tb + q] by {}
        }
        let script_end = if hp.len() == 4 {
            hp[3]
        } else {
            out@.len() as int
        };
        assert(script_end == tb + c3);
        assert(out@.subrange(hp[2], script_end) =~= scripts@) by {
            assert forall|q: int| 0 <= q < scripts@.len() implies #[trigger] scripts@[q]
                == out@[tb + c2 + q] by {
                assert(out@[tb + (c2 + q)] == body[c2 + q]);
            }
        }
        if with_palettes {
            assert(out@.subrange(hp[3], out@.len() as int) =~= spec_palette_section(
                palettes@,
            )) by {
                assert forall|q: int| 0 <= q < body.len() - c3 implies #[trigger] body.subrange(
                    c3,
                    body.len() as int,
                )[q] == out@[tb + c3 + q] by {
                    assert(out@[tb + (c3 + q)] == body[c3 + q]);
                }
            }
        }
        assert forall|i: int| 0 <= i < 4 * spec_table_count(sptrs.len() as int)
            implies #[trigger] out@[(tb + c1) + i] == spec_finalize_bytes(sptrs)[i] by {
            assert(out@[tb + (c1 + i)] == body[c1 + i]);
        }
        assert forall|j: int| 0 <= j < sdata.len() implies #[trigger] out@[(tb + c1) + 4
            * spec_table_count(sptrs.len() as int) + j] == sdata[j] by {
            assert(out@[tb + (c1 + 4 * spec_table_count(sptrs.len() as int) + j)] == body[c1 + 4
                * spec_table_count(sptrs.len() as int) + j]);
        }
        lemma_sprite_table_embeds(out@, tb + c1, sptrs, sdata, sprites@);
        assert(tb + c1 + 4 * spec_table_count(sptrs.len() as int) + sdata.len() == tb + c2);
    }
    out
}


/// Serializes a scriptable entry.  The result holds exactly the
/// entry's parts.
pub fn get_bin_scriptable(entry: &Scriptable) -> (r: Vec<u8>)
    requires
        spec_scriptable_serializable(*entry),
    ensures
        r@.len() >= 16,
        r@.len() <= 0xD2000000,
        spec_scriptable_compact(*entry) ==> r@.len() <= 0x4200000,
        spec_scriptable_bytes_ok(r@, *entry),
{
    serialize_scriptable_parts(&entry.cells, &entry.sprites, &entry.scripts, &entry.palettes)
}

/// Serializes a multi-scriptable entry: each scriptable container
/// behind its own top-level pointer.  The result parses back into one
/// scriptable blob per entry, each holding exactly its entry's parts.
#[verifier::rlimit(100)]
pub fn get_bin_multi_scriptable(entries: &Vec<Scriptable>) -> (r: Vec<u8>)
    requires
        entries@.len() <= 0x30,
        forall|i: int| 0 <= i < entries@.len() ==> spec_scriptable_compact(#[trigger] entries@[i]),
    ensures
        r@.len() >= 16,
        r@.len() <= 0xC7000000,
        spec_objects(r@).len() == entries@.len(),
        forall|k: int| 0 <= k < entries@.len() ==> spec_scriptable_bytes_ok(
            #[trigger] spec_objects(r@)[k],
            entries@[k],
        ),
{
    let mut header: Vec<u32> = Vec::new();
    let mut data: Vec<u8> = Vec::new();
    let ghost mut blobs: Seq<Seq<u8>> = Seq::empty();
    let n: usize = entries.len();
    let mut i: usize = 0;
    proof {
        assert(data@ =~= spec_concat(blobs));
        assert(header@ =~= spec_offsets(blobs));
    }
    while i < n
        invariant
            i <= n,
            n == entries@.len(),
            n <= 0x30,
            forall|j: int| 0 <= j < entries@.len() ==> spec_scriptable_compact(
                #[trigger] entries@[j],
            ),
            blobs.len() == i,
            header@.len() == i,
            data@ == spec_concat(blobs),
            header@ =~= spec_offsets(blobs),
            data@.len() <= 0x4200000 * i,
            forall|j: int| 0 <= j < header@.len() ==> #[trigger] header@[j] <= 0xC6000000,
            forall|b: int| 0 <= b < i ==> 16 <= (#[trigger] blobs[b]).len() <= 0x4200000,
            forall|b: int| 0 <= b < i ==> spec_scriptable_bytes_ok(
                #[trigger] blobs[b],
                entries@[b],
            ),
        decreases n - i,
    {
        let piece = get_bin_scriptable(&entries[i]);
        let ghost pv = piece@;
        header.push(data.len() as u32);
        let mut piece_data = piece;
        data.append(&mut piece_data);
        proof {
            let prev = blobs;
            blobs = blobs.push(pv);
            assert(blobs.drop_last() =~= prev);
            lemma_concat_snoc(blobs);
            assert(data@ =~= spec_concat(blobs));
            lemma_offsets_snoc(blobs);
            lemma_concat_len(prev);
            assert(header@ =~= spec_offsets(blobs));
        }
        i += 1;
    }
    proof {
        assert(spec_table_count(header@.len() as int) <= header@.len() + 4);
        assert(spec_total_len(blobs) == data@.len()) by {
            lemma_concat_len(blobs);
        }
    }
    let mut out = finalize_pointers(header);
    out.append(&mut data);
    proof {
        assert(out@ =~= spec_serialize_table(blobs));
        if blobs.len() == 0 {
            assert(spec_pointers(out@, 0, false) =~= Seq::<int>::empty());
            assert(spec_objects(out@) =~= Seq::<Seq<u8>>::empty());
        } else {
            lemma_table_roundtrip(blobs);
        }
    }
    out
}

/// Offsets of a list with one more blob gain that blob's offset.
proof fn lemma_offsets_snoc(blobs: Seq<Seq<u8>>)
    requires
        blobs.len() >= 1,
    ensures
        spec_offsets(blobs) =~= spec_offsets(blobs.drop_last()).push(
            spec_total_len(blobs.drop_last()) as u32,
        ),
{
    assert forall|b: int| 0 <= b < blobs.len() implies spec_offsets(blobs)[b] == spec_offsets(
        blobs.drop_last(),
    ).push(spec_total_len(blobs.drop_last()) as u32)[b] by {
        assert(blobs.subrange(0, b) =~= blobs.drop_last().subrange(0, b));
        if b == blobs.len() - 1 {
            assert(blobs.drop_last().subrange(0, b) =~= blobs.drop_last());
        }
    }
}

/// Concatenation of a list with one more blob appends that blob.
proof fn lemma_concat_snoc(blobs: Seq<Seq<u8>>)
    requires
        blobs.len() >= 1,
    ensures
        spec_concat(blobs) == spec_concat(blobs.drop_last()) + blobs.last(),
    decreases blobs.len(),
{
    if blobs.len() == 1 {
        assert(blobs.drop_last() =~= Seq::<Seq<u8>>::empty());
        assert(blobs.subrange(1, 1) =~= Seq::<Seq<u8>>::empty());
        assert(spec_concat(Seq::<Seq<u8>>::empty()) =~= Seq::<u8>::empty());
        assert(spec_concat(blobs) =~= blobs[0]);
        assert(spec_concat(blobs.drop_last()) + blobs.last() =~= blobs[0]);
    } else {
        let rest = blobs.subrange(1, blobs.len() as int);
        lemma_concat_snoc(rest);
        assert(blobs.drop_last()[0] == blobs[0]);
        assert(blobs.drop_last().subrange(1, blobs.len() - 1) =~= rest.drop_last());
        assert(rest.last() == blobs.last());
        assert(spec_concat(blobs) =~= spec_concat(blobs.drop_last()) + blobs.last());
    }
}

/// Serializes a whole archive/// Whether an archive slice holds exactly this entry's serialization:
/// for each variant, the structural facts its serializer guarantees.
pub open spec fn spec_entry_bytes_ok(sub: Seq<u8>, o: ResourceObject) -> bool {
    match o {
        ResourceObject::Sprite(ss) => ss@.len() >= 1 && spec_record_decodes_to(sub, ss@[0]),
        ResourceObject::SpriteList(ss) => spec_sprite_list_bytes_ok(sub, ss@),
        ResourceObject::SpriteListSelect(ss, w, h, px) => ({
            let hp = spec_pointers(sub, 0, false);
            &&& hp.len() == ss@.len() + 1
            &&& 0 <= hp[ss@.len() as int] && hp[ss@.len() as int] + 8 <= sub.len()
            &&& spec_u32le_at(sub, hp[ss@.len() as int]) == w
            &&& spec_u32le_at(sub, hp[ss@.len() as int] + 4) == h
            &&& forall|k: int| 0 <= k < ss@.len() ==> spec_record_decodes_to(
                #[trigger] sub.subrange(hp[k], hp[k + 1]),
                ss@[k],
            )
        }),
        ResourceObject::JPFPlainText(ci, ss) => ({
            let hp = spec_pointers(sub, 0, false);
            &&& hp.len() == 1 + ss@.len()
            &&& 0 <= hp[0] && hp[0] + ci@.len() <= sub.len()
            &&& sub.subrange(hp[0], hp[0] + ci@.len() as int) == ci@
            &&& forall|k: int| 0 <= k < ss@.len() ==> spec_record_decodes_to(
                #[trigger] spec_record_region(sub, 0, sub.len() as int, 1 + k),
                ss@[k],
            )
        }),
        ResourceObject::ScriptableObject(e) => spec_scriptable_bytes_ok(sub, e),
        ResourceObject::MultiScriptable(es) => spec_objects(sub).len() == es@.len() && forall|
            j: int,
        | 0 <= j < es@.len() ==> spec_scriptable_bytes_ok(#[trigger] spec_objects(sub)[j], es@[j]),
        ResourceObject::Unsupported(d) => sub == d@,
    }
}

/// Serializes a whole archive: every entry's bytes behind the
/// top-level pointer table.  Parsing the result back yields one slice
/// per written entry, each holding exactly its entry's serialization.
/// Entries are written in order until the format's 32-bit offset range
/// is exhausted; the unwritten tail, if any, begins only once the file
/// already holds hundreds of megabytes.
#[verifier::rlimit(100)]
pub fn serialize_resource(objects: &Vec<ResourceObject>) -> (r: Vec<u8>)
    requires
        objects@.len() <= 0x100,
        forall|i: int| 0 <= i < objects@.len() ==> spec_object_serializable(
            #[trigger] objects@[i],
        ),
    ensures
        r@.len() >= 16,
        spec_objects(r@).len() <= objects@.len(),
        forall|k: int| 0 <= k < spec_objects(r@).len() ==> spec_entry_bytes_ok(
            #[trigger] spec_objects(r@)[k],
            objects@[k],
        ),
        spec_objects(r@).len() < objects@.len() ==> r@.len() >= 0xE000000,
{
    let mut header: Vec<u32> = Vec::new();
    let mut data: Vec<u8> = Vec::new();
    let ghost mut blobs: Seq<Seq<u8>> = Seq::empty();
    let n: usize = objects.len();
    let mut i: usize = 0;
    proof {
        assert(data@ =~= spec_concat(blobs));
        assert(header@ =~= spec_offsets(blobs));
    }
    let mut full: bool = false;
    while i < n
        invariant
            i <= n,
            n == objects@.len(),
            n <= 0x100,
            forall|j: int| 0 <= j < objects@.len() ==> spec_object_serializable(
                #[trigger] objects@[j],
            ),
            blobs.len() <= i,
            header@.len() == blobs.len(),
            !full ==> blobs.len() == i,
            full ==> i == n,
            data@ == spec_concat(blobs),
            header@ =~= spec_offsets(blobs),
            data@.len() <= 0xE0000000,
            full ==> data@.len() >= 0xE000000,
            forall|j: int| 0 <= j < header@.len() ==> #[trigger] header@[j] <= 0xE0000000,
            forall|b: int| 0 <= b < blobs.len() ==> 1 <= (#[trigger] blobs[b]).len()
                <= 0xD2000000,
            forall|b: int| 0 <= b < blobs.len() ==> spec_entry_bytes_ok(
                #[trigger] blobs[b],
                objects@[b],
            ),
        decreases n - i,
    {
        {
            let piece: Vec<u8> = match &objects[i] {
                ResourceObject::Sprite(sprites) => sprites[0].to_bin(),
                ResourceObject::SpriteList(sprites) => get_bin_sprite_list(sprites),
                ResourceObject::SpriteListSelect(sprites, w, h, px) => get_bin_sprite_list_select(
                    sprites,
                    *w,
                    *h,
                    px,
                ),
                ResourceObject::JPFPlainText(char_index, sprites) => get_bin_jpf_plain_text(
                    char_index,
                    sprites,
                ),
                ResourceObject::ScriptableObject(entry) => get_bin_scriptable(entry),
                ResourceObject::MultiScriptable(entries) => get_bin_multi_scriptable(entries),
                ResourceObject::Unsupported(bytes) => bytes.clone(),
            };
            let ghost pv = piece@;
            proof {
                assert(1 <= pv.len() <= 0xD2000000);
                assert(spec_entry_bytes_ok(pv, objects@[i as int]));
            }
            if piece.len() <= 0xE0000000 - data.len() {
                header.push(data.len() as u32);
                let mut piece_data = piece;
                data.append(&mut piece_data);
                proof {
                    let prev = blobs;
                    blobs = blobs.push(pv);
                    assert(blobs.drop_last() =~= prev);
                    lemma_concat_snoc(blobs);
                    assert(data@ =~= spec_concat(blobs));
                    lemma_offsets_snoc(blobs);
                    lemma_concat_len(prev);
                    assert(header@ =~= spec_offsets(blobs));
                }
                i += 1;
            } else {
                full = true;
                i = n;
                proof {
                    assert(data@.len() > 0xE0000000 - pv.len());
                }
            }
        }
    }
    proof {
        assert(spec_table_count(header@.len() as int) <= header@.len() + 4);
        lemma_concat_len(blobs);
    }
    let mut out = finalize_pointers(header);
    out.append(&mut data);
    proof {
        assert(out@ =~= spec_serialize_table(blobs));
        if blobs.len() == 0 {
            assert(spec_pointers(out@, 0, false) =~= Seq::<int>::empty());
            assert(spec_objects(out@) =~= Seq::<Seq<u8>>::empty());
        } else {
            lemma_table_roundtrip(blobs);
        }
        if full {
            assert(out@.len() >= data@.len());
        }
    }
    out
}

} // verus!
