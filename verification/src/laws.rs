//! What downloads and their parts are for, said in elementary terms.

use vstd::arithmetic::div_mod::{
    lemma_div_is_ordered, lemma_mod_bound,
};
use vstd::prelude::*;

use crate::download::{
    delivered, lemma_plan_delivers, lemma_plan_takes_overlaps, lemma_range_covers,
    lemma_range_rows, object_bytes, overlap_end, overlap_start, overlaps, plan, readable, row_size,
    shard_of, shard_pos, slab_range, DownloadOptions, SlabRange,
};
use crate::object::{lemma_stream_pos_monotonic, object_size, stream_pos, Sector, Slab};
use crate::rhp::{SECTOR_SIZE, SEGMENT_SIZE};

verus! {

/// A segment has 64 bytes and a sector four mebibytes.
pub proof fn lemma_sizes()
    ensures
        SEGMENT_SIZE == 64,
        SECTOR_SIZE == 4194304,
{
}

/// The slabs of an object lie one after the other: the first begins at its first byte, each
/// begins where the one before it ends, and the object ends with the last.
pub proof fn lemma_slabs_in_a_row(slabs: Seq<Slab>, i: int)
    requires
        0 <= i < slabs.len(),
    ensures
        stream_pos(slabs, 0) == 0,
        stream_pos(slabs, i + 1) == stream_pos(slabs, i) + slabs[i].length,
        object_size(slabs) == stream_pos(slabs, slabs.len() as int),
{
}

/// A slab overlaps a request exactly where one of the requested bytes of the object is in it.
pub proof fn lemma_overlap_is_a_common_byte(slabs: Seq<Slab>, i: int, a: int, b: int)
    requires
        0 <= i < slabs.len(),
    ensures
        overlaps(slabs, i, a, b) <==> exists|p: int|
            a <= p < b && stream_pos(slabs, i) <= p && #[trigger] (p - stream_pos(slabs, i))
                < slabs[i].length,
{
    if overlaps(slabs, i, a, b) {
        let p = if a > stream_pos(slabs, i) {
            a
        } else {
            stream_pos(slabs, i)
        };
        assert(p - stream_pos(slabs, i) < slabs[i].length);
    }
}

/// A request ends as many bytes after its beginning as it asks for, and where it does not say how
/// many, as many as the object has.
pub proof fn lemma_request_end(options: DownloadOptions, size: int)
    ensures
        options.length matches Some(n) ==> options.end(size) == options.offset + n,
        options.length is None ==> options.end(size) == options.offset + size,
{
}

/// A slab's data is striped over its shards 64 bytes at a time: byte `y` is in the shard whose turn
/// it is, in the row of as many times 64 bytes as there are shards.
pub proof fn lemma_striping(min_shards: u8, y: int)
    ensures
        shard_of(min_shards, y) == y / 64 % (min_shards as int),
        shard_pos(min_shards, y) == y / (64 * min_shards) * 64 + y % 64,
{
}

/// Each planned range is of a slab that it names, and reads the rows of that slab's shards that
/// hold the bytes to deliver, no more and no fewer. The slab's data is striped over its own
/// `min_shards` shards, 64 bytes at a time. Byte `y` of the slab's data is among what is read of
/// the shard that holds it, and stands in what is read, striped in the same way, `y - slab_offset`
/// bytes after the ones to skip.
pub proof fn lemma_plan_reads_rows(
    slabs: Seq<Slab>,
    count: int,
    a: int,
    b: int,
    k: int,
    y: int,
)
    requires
        0 <= count <= slabs.len() <= usize::MAX,
        readable(slabs, count, a, b),
        0 <= k < plan(slabs, count, a, b).len(),
        plan(slabs, count, a, b)[k].slab_offset <= y,
        y < plan(slabs, count, a, b)[k].slab_offset + plan(slabs, count, a, b)[k].slab_length,
    ensures
        ({
            let r = plan(slabs, count, a, b)[k];
            let slab = slabs[r.slab_index as int];
            let m = slab.min_shards as int;
            let q = r.skip + (y - r.slab_offset);
            let start = stream_pos(slabs, r.slab_index as int);
            let end = start + slab.length;
            let from = if a > start {
                a
            } else {
                start
            };
            let to = if b < end {
                b
            } else {
                end
            };
            &&& r.slab_index < count
            &&& r.slab_offset == slab.offset + (from - start)
            &&& r.slab_length == to - from
            &&& m > 0
            &&& slab.offset <= r.slab_offset
            &&& r.slab_offset + r.slab_length <= slab.offset + slab.length
            &&& r.shard_offset == r.slab_offset as int / (64 * m) * 64
            &&& r.shard_offset + r.shard_length == ((r.slab_offset + r.slab_length - 1) / (64 * m)
                + 1) * 64
            &&& r.skip < 64 * m
            &&& r.shard_offset <= y / (64 * m) * 64 + y % 64
            &&& y / (64 * m) * 64 + y % 64 < r.shard_offset + r.shard_length
            &&& y / (64 * m) * 64 + y % 64 == r.shard_offset + (q / (64 * m) * 64 + q % 64)
            &&& y / 64 % m == q / 64 % m
        }),
{
    lemma_plan_takes_overlaps(slabs, count, a, b);
    let r = plan(slabs, count, a, b)[k];
    let i = r.slab_index as int;
    let slab = slabs[i];
    let m = slab.min_shards as int;
    assert(overlaps(slabs, i, a, b));
    lemma_stream_pos_monotonic(slabs, 0, i);
    let start = overlap_start(slabs, i, a);
    let x = slab.offset + (start - stream_pos(slabs, i));
    let n = overlap_end(slabs, i, b) - start;
    lemma_range_rows(i, slab.min_shards, x, n);
    lemma_range_covers(i, slab.min_shards, x, n, y);
    assert(r == slab_range(i, slab.min_shards, x, n));
    assert(row_size(slab.min_shards) == 64 * m);
    let q = r.skip + (y - r.slab_offset);
    assert(shard_pos(slab.min_shards, y) == y / (64 * m) * 64 + y % 64);
    assert(shard_pos(slab.min_shards, q) == q / (64 * m) * 64 + q % 64);
    assert(shard_of(slab.min_shards, y) == y / 64 % m);
    assert(shard_of(slab.min_shards, q) == q / 64 % m);
}

/// Byte `y` of the data that is striped over `m` shards, 64 bytes at a time.
pub open spec fn striped_byte(shards: Seq<Seq<u8>>, m: int, y: int) -> u8 {
    shards[y / 64 % m][y / (64 * m) * 64 + y % 64]
}

/// The bytes that a range delivers of a slab with these shards: what is read of each shard,
/// without the bytes to skip.
pub open spec fn bytes_of_range(shards: Seq<Seq<u8>>, m: int, r: SlabRange) -> Seq<u8> {
    let parts = Seq::new(
        shards.len(),
        |s: int| shards[s].subrange(r.shard_offset as int, r.shard_offset + r.shard_length),
    );
    Seq::new(r.slab_length as nat, |j: int| striped_byte(parts, m, r.skip + j))
}

/// The bytes that ranges deliver, one range after the other, where `shards` holds the shards of
/// each slab.
pub open spec fn bytes_of_ranges(
    slabs: Seq<Slab>,
    shards: Seq<Seq<Seq<u8>>>,
    ranges: Seq<SlabRange>,
) -> Seq<u8>
    decreases ranges.len(),
{
    if ranges.len() == 0 {
        Seq::empty()
    } else {
        let r = ranges.last();
        let i = r.slab_index as int;
        bytes_of_ranges(slabs, shards, ranges.drop_last()) + bytes_of_range(
            shards[i],
            slabs[i].min_shards as int,
            r,
        )
    }
}

/// The bytes of the object in the first `count` slabs, where `shards` holds the shards of each
/// slab.
pub open spec fn object_in_shards(
    slabs: Seq<Slab>,
    shards: Seq<Seq<Seq<u8>>>,
    count: int,
) -> Seq<u8>
    decreases count,
{
    if count <= 0 {
        Seq::empty()
    } else {
        let slab = slabs[count - 1];
        object_in_shards(slabs, shards, count - 1) + Seq::new(
            slab.length as nat,
            |j: int| striped_byte(shards[count - 1], slab.min_shards as int, slab.offset + j),
        )
    }
}

/// Whether `shards` are the data shards of `slab`, as long as its data takes.
pub open spec fn are_shards_of(slab: Slab, shards: Seq<Seq<u8>>) -> bool {
    &&& slab.min_shards > 0
    &&& shards.len() == slab.min_shards
    &&& forall|s: int|
        0 <= s < shards.len() ==> (#[trigger] shards[s]).len() >= ((slab.offset + slab.length) / (64
            * slab.min_shards) + 1) * 64
}

/// A download gives exactly the requested bytes of the object, in order. The object's bytes are
/// those that are striped over the shards of its slabs, and the download reads parts of the
/// shards and delivers what is striped over these parts.
pub proof fn lemma_download_gives_requested_bytes(
    slabs: Seq<Slab>,
    shards: Seq<Seq<Seq<u8>>>,
    a: int,
    b: int,
)
    requires
        slabs.len() <= usize::MAX,
        shards.len() == slabs.len(),
        forall|i: int| 0 <= i < slabs.len() ==> are_shards_of(slabs[i], #[trigger] shards[i]),
        0 <= a <= b,
    ensures
        ({
            let n = slabs.len() as int;
            let object = object_in_shards(slabs, shards, n);
            let size = object.len() as int;
            let from = if a < size {
                a
            } else {
                size
            };
            let to = if b < size {
                b
            } else {
                size
            };
            bytes_of_ranges(slabs, shards, plan(slabs, n, a, b)) == object.subrange(from, to)
        }),
{
    let n = slabs.len() as int;
    let data = Seq::new(
        slabs.len(),
        |i: int|
            Seq::new(
                (slabs[i].offset + slabs[i].length) as nat,
                |y: int| striped_byte(shards[i], slabs[i].min_shards as int, y),
            ),
    );
    assert forall|i: int| 0 <= i < slabs.len() implies (#[trigger] data[i]).len()
        >= slabs[i].offset + slabs[i].length by {}
    lemma_plan_delivers(slabs, data, a, b);
    lemma_object_in_shards(slabs, shards, data, n);
    assert forall|i: int| 0 <= i < n implies slabs[i].min_shards > 0 by {
        assert(are_shards_of(slabs[i], shards[i]));
    }
    lemma_ranges_in_shards(slabs, shards, data, n, a, b);
}

proof fn lemma_object_in_shards(
    slabs: Seq<Slab>,
    shards: Seq<Seq<Seq<u8>>>,
    data: Seq<Seq<u8>>,
    count: int,
)
    requires
        0 <= count <= slabs.len(),
        shards.len() == slabs.len(),
        data == Seq::new(
            slabs.len(),
            |i: int|
                Seq::new(
                    (slabs[i].offset + slabs[i].length) as nat,
                    |y: int| striped_byte(shards[i], slabs[i].min_shards as int, y),
                ),
        ),
    ensures
        object_in_shards(slabs, shards, count) == object_bytes(slabs, data, count),
    decreases count,
{
    if count > 0 {
        lemma_object_in_shards(slabs, shards, data, count - 1);
        let slab = slabs[count - 1];
        assert(data[count - 1].subrange(slab.offset as int, slab.offset + slab.length)
            =~= Seq::new(
            slab.length as nat,
            |j: int| striped_byte(shards[count - 1], slab.min_shards as int, slab.offset + j),
        ));
    }
}

proof fn lemma_ranges_in_shards(
    slabs: Seq<Slab>,
    shards: Seq<Seq<Seq<u8>>>,
    data: Seq<Seq<u8>>,
    count: int,
    a: int,
    b: int,
)
    requires
        0 <= count <= slabs.len() <= usize::MAX,
        shards.len() == slabs.len(),
        forall|i: int| 0 <= i < slabs.len() ==> are_shards_of(slabs[i], #[trigger] shards[i]),
        data == Seq::new(
            slabs.len(),
            |i: int|
                Seq::new(
                    (slabs[i].offset + slabs[i].length) as nat,
                    |y: int| striped_byte(shards[i], slabs[i].min_shards as int, y),
                ),
        ),
    ensures
        bytes_of_ranges(slabs, shards, plan(slabs, count, a, b)) == delivered(
            data,
            plan(slabs, count, a, b),
        ),
    decreases count,
{
    if count > 0 {
        lemma_ranges_in_shards(slabs, shards, data, count - 1, a, b);
        let ranges = plan(slabs, count, a, b);
        if overlaps(slabs, count - 1, a, b) {
            assert(ranges.drop_last() =~= plan(slabs, count - 1, a, b));
            assert(readable(slabs, count, a, b)) by {
                assert forall|i: int|
                    0 <= i < count && #[trigger] overlaps(
                        slabs,
                        i,
                        a,
                        b,
                    ) implies slabs[i].min_shards > 0 by {
                    assert(are_shards_of(slabs[i], shards[i]));
                }
            }
            lemma_range_in_shards(slabs, shards, data, count, a, b, ranges.len() - 1);
        }
    }
}

proof fn lemma_range_in_shards(
    slabs: Seq<Slab>,
    shards: Seq<Seq<Seq<u8>>>,
    data: Seq<Seq<u8>>,
    count: int,
    a: int,
    b: int,
    k: int,
)
    requires
        0 <= count <= slabs.len() <= usize::MAX,
        shards.len() == slabs.len(),
        readable(slabs, count, a, b),
        0 <= k < plan(slabs, count, a, b).len(),
        forall|i: int| 0 <= i < slabs.len() ==> are_shards_of(slabs[i], #[trigger] shards[i]),
        data == Seq::new(
            slabs.len(),
            |i: int|
                Seq::new(
                    (slabs[i].offset + slabs[i].length) as nat,
                    |y: int| striped_byte(shards[i], slabs[i].min_shards as int, y),
                ),
        ),
    ensures
        ({
            let r = plan(slabs, count, a, b)[k];
            let i = r.slab_index as int;
            bytes_of_range(shards[i], slabs[i].min_shards as int, r) == data[i].subrange(
                r.slab_offset as int,
                r.slab_offset + r.slab_length,
            )
        }),
{
    let r = plan(slabs, count, a, b)[k];
    let i = r.slab_index as int;
    lemma_plan_takes_overlaps(slabs, count, a, b);
    assert(overlaps(slabs, i, a, b));
    let slab = slabs[i];
    let m = slab.min_shards as int;
    assert(are_shards_of(slab, shards[i]));
    lemma_stream_pos_monotonic(slabs, 0, i);
    let left = bytes_of_range(shards[i], m, r);
    let parts = Seq::new(
        shards[i].len(),
        |s: int| shards[i][s].subrange(r.shard_offset as int, r.shard_offset + r.shard_length),
    );
    assert(r.slab_length > 0 && r.slab_offset + r.slab_length <= slab.offset + slab.length);
    assert forall|j: int| 0 <= j < r.slab_length implies left[j] == data[i][r.slab_offset + j] by {
        let y = r.slab_offset + j;
        lemma_plan_reads_rows(slabs, count, a, b, k, y);
        let s = y / 64 % m;
        lemma_mod_bound(y / 64, m);
        let end = slab.offset + slab.length;
        lemma_div_is_ordered(
            r.slab_offset + r.slab_length - 1,
            end as int,
            64 * m,
        );
        assert(shards[i][s].len() >= (end as int / (64 * m) + 1) * 64);
        assert(data[i][y] == striped_byte(shards[i], m, y));
        assert(parts[s] == shards[i][s].subrange(
            r.shard_offset as int,
            r.shard_offset + r.shard_length,
        ));
    }
    assert(left =~= data[i].subrange(r.slab_offset as int, r.slab_offset + r.slab_length));
}

/// What is in a sector's and a slab's descriptor is seen under its own name.
pub proof fn lemma_descriptors(sector: Sector, slab: Slab)
    ensures
        sector@.root == sector.root@,
        sector@.host_key == sector.host_key@,
        slab@.encryption_key == slab.encryption_key@,
        slab@.min_shards == slab.min_shards,
        slab@.offset == slab.offset,
        slab@.length == slab.length,
        slab@.sectors.len() == slab.sectors@.len(),
        forall|i: int|
            0 <= i < slab.sectors@.len() ==> (#[trigger] slab@.sectors[i]).root
                == slab.sectors@[i].root@ && slab@.sectors[i].host_key
                == slab.sectors@[i].host_key@,
{
}

} // verus!
