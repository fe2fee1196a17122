//! Planning a download: which part of which slab answers a byte range of an object.

use vstd::arithmetic::div_mod::{
    lemma_basic_div, lemma_div_pos_is_pos, lemma_fundamental_div_mod,
    lemma_fundamental_div_mod_converse, lemma_mod_bound, lemma_mod_multiples_basic,
    lemma_mod_multiples_vanish,
};
use vstd::prelude::*;
use vstd::string::*;

use crate::laws::lemma_plan_reads_rows;
use crate::object::{lemma_stream_pos_monotonic, object_size, size_of_slabs, stream_pos, Slab};
use crate::rhp::{ceil_div, div_ceil, lemma_ceil_div, segment_size, SEGMENT_SIZE};
use crate::text::{decimal, decimal_text, labelled};

verus! {

/// Why a download failed. Where the cause is an error of another layer, the variant carries
/// that error's message.
#[derive(Clone, Debug, PartialEq, Eq)]
pub enum DownloadError {
    Io(String),
    Encoder(String),
    /// Shards that were downloaded, and shards that were needed.
    NotEnoughShards(u8, u8),
    /// First byte of the range, and last.
    OutOfRange(usize, usize),
    Timeout(String),
    SemaphoreError(String),
    JoinError(String),
    InvalidSlab(String),
    Rhp4(String),
    Custom(String),
}

impl DownloadError {
    /// The message of the error.
    pub open spec fn text(self) -> Seq<char> {
        match self {
            DownloadError::Io(e) => "I/O error: "@ + e@,
            DownloadError::Encoder(e) => "encoder error: "@ + e@,
            DownloadError::NotEnoughShards(have, need) => "not enough shards: "@ + decimal(
                have as nat,
            ) + "/"@ + decimal(need as nat),
            DownloadError::OutOfRange(first, last) => "invalid range: "@ + decimal(first as nat)
                + "-"@ + decimal(last as nat),
            DownloadError::Timeout(e) => "timeout error: "@ + e@,
            DownloadError::SemaphoreError(e) => "semaphore error: "@ + e@,
            DownloadError::JoinError(e) => "join error: "@ + e@,
            DownloadError::InvalidSlab(e) => "invalid slab: "@ + e@,
            DownloadError::Rhp4(e) => "rhp4 error: "@ + e@,
            DownloadError::Custom(e) => "custom error: "@ + e@,
        }
    }

    /// Writes the message of the error.
    pub fn message(&self) -> (message: String)
        ensures
            message@ == self.text(),
            match *self {
                DownloadError::Io(e) => message@ == "I/O error: "@ + e@,
                DownloadError::Encoder(e) => message@ == "encoder error: "@ + e@,
                DownloadError::NotEnoughShards(have, need) => message@
                    == "not enough shards: "@ + decimal(have as nat) + "/"@ + decimal(
                    need as nat,
                ),
                DownloadError::OutOfRange(first, last) => message@ == "invalid range: "@
                    + decimal(first as nat) + "-"@ + decimal(last as nat),
                DownloadError::Timeout(e) => message@ == "timeout error: "@ + e@,
                DownloadError::SemaphoreError(e) => message@ == "semaphore error: "@ + e@,
                DownloadError::JoinError(e) => message@ == "join error: "@ + e@,
                DownloadError::InvalidSlab(e) => message@ == "invalid slab: "@ + e@,
                DownloadError::Rhp4(e) => message@ == "rhp4 error: "@ + e@,
                DownloadError::Custom(e) => message@ == "custom error: "@ + e@,
            },
    {
        match self {
            DownloadError::Io(e) => labelled("I/O error: ", e),
            DownloadError::Encoder(e) => labelled("encoder error: ", e),
            DownloadError::NotEnoughShards(have, need) => {
                let mut message: String = "not enough shards: ".to_string();
                message.append(decimal_text(*have as u64).as_str());
                message.append("/");
                message.append(decimal_text(*need as u64).as_str());
                message
            },
            DownloadError::OutOfRange(first, last) => {
                let mut message: String = "invalid range: ".to_string();
                message.append(decimal_text(*first as u64).as_str());
                message.append("-");
                message.append(decimal_text(*last as u64).as_str());
                message
            },
            DownloadError::Timeout(e) => labelled("timeout error: ", e),
            DownloadError::SemaphoreError(e) => labelled("semaphore error: ", e),
            DownloadError::JoinError(e) => labelled("join error: ", e),
            DownloadError::InvalidSlab(e) => labelled("invalid slab: ", e),
            DownloadError::Rhp4(e) => labelled("rhp4 error: ", e),
            DownloadError::Custom(e) => labelled("custom error: ", e),
        }
    }
}

/// What to download of an object.
#[derive(Clone, Copy, Debug, PartialEq, Eq)]
pub struct DownloadOptions {
    /// Maximum number of concurrent sector downloads.
    pub max_inflight: usize,
    /// First byte of the object to deliver.
    pub offset: u64,
    /// Number of bytes to deliver; the whole object's size where absent.
    pub length: Option<u64>,
}

impl Default for DownloadOptions {
    /// The defaults outside of a browser.
    fn default() -> (options: Self)
        ensures
            options.max_inflight == 20,
            options.offset == 0,
            options.length is None,
    {
        DownloadOptions::for_target(false)
    }
}

impl DownloadOptions {
    /// The defaults, in a browser or outside of one. Browsers cannot handle many concurrent
    /// connections.
    pub fn for_target(browser: bool) -> (options: DownloadOptions)
        ensures
            options.max_inflight == if browser {
                8usize
            } else {
                20usize
            },
            options.offset == 0,
            options.length is None,
    {
        let max_inflight: usize = if browser {
            8
        } else {
            20
        };
        DownloadOptions { max_inflight, offset: 0, length: None }
    }

    /// The position after the last requested byte, in an object of `size` bytes.
    pub open spec fn end(self, size: int) -> int {
        self.offset + match self.length {
            Some(n) => n as int,
            None => size,
        }
    }
}

/// The part of one slab that a download needs.
#[derive(Clone, Copy, Debug, PartialEq, Eq)]
pub struct SlabRange {
    /// Position of the slab in the object.
    pub slab_index: usize,
    /// First byte to deliver, as a position in the slab's data.
    pub slab_offset: u64,
    /// Number of bytes to deliver.
    pub slab_length: u64,
    /// First byte to read of every sector.
    pub shard_offset: u64,
    /// Number of bytes to read of every sector.
    pub shard_length: u64,
    /// Bytes of the recovered region that precede the first byte to deliver.
    pub skip: usize,
}

/// Bytes of slab data in one row of segments, one segment for each data shard.
pub open spec fn row_size(min_shards: u8) -> int {
    SEGMENT_SIZE * min_shards
}

/// The range of slab `index` that holds `n` bytes from position `x` of its data: the rows
/// of segments that these bytes touch.
pub open spec fn slab_range(index: int, min_shards: u8, x: int, n: int) -> SlabRange {
    let row = row_size(min_shards);
    let start = x / row * SEGMENT_SIZE;
    let end = ceil_div(x + n, row) * SEGMENT_SIZE;
    SlabRange {
        slab_index: index as usize,
        slab_offset: x as u64,
        slab_length: n as u64,
        shard_offset: start as u64,
        shard_length: (end - start) as u64,
        skip: (x % row) as usize,
    }
}

/// Where the requested bytes `a..b` of the object begin inside slab `i`, as a position in
/// the object.
pub open spec fn overlap_start(slabs: Seq<Slab>, i: int, a: int) -> int {
    if a > stream_pos(slabs, i) {
        a
    } else {
        stream_pos(slabs, i)
    }
}

/// Where the requested bytes `a..b` of the object end inside slab `i`, as a position in the
/// object.
pub open spec fn overlap_end(slabs: Seq<Slab>, i: int, b: int) -> int {
    if b < stream_pos(slabs, i + 1) {
        b
    } else {
        stream_pos(slabs, i + 1)
    }
}

/// Whether slab `i` holds any of the bytes `a..b` of the object.
pub open spec fn overlaps(slabs: Seq<Slab>, i: int, a: int, b: int) -> bool {
    overlap_start(slabs, i, a) < overlap_end(slabs, i, b)
}

/// The range of slab `i` that holds its share of the bytes `a..b` of the object.
pub open spec fn overlap_range(slabs: Seq<Slab>, i: int, a: int, b: int) -> SlabRange {
    let start = overlap_start(slabs, i, a);
    slab_range(
        i,
        slabs[i].min_shards,
        slabs[i].offset + (start - stream_pos(slabs, i)),
        overlap_end(slabs, i, b) - start,
    )
}

/// The ranges of the first `count` slabs that hold any of the bytes `a..b`, in order.
pub open spec fn plan(slabs: Seq<Slab>, count: int, a: int, b: int) -> Seq<SlabRange>
    decreases count,
{
    if count <= 0 {
        Seq::empty()
    } else if overlaps(slabs, count - 1, a, b) {
        plan(slabs, count - 1, a, b).push(overlap_range(slabs, count - 1, a, b))
    } else {
        plan(slabs, count - 1, a, b)
    }
}

proof fn lemma_plan_rest_empty(slabs: Seq<Slab>, i: int, count: int, a: int, b: int)
    requires
        0 <= i <= count <= slabs.len(),
        overlap_start(slabs, i, a) >= b,
    ensures
        plan(slabs, count, a, b) == plan(slabs, i, a, b),
    decreases count,
{
    if i < count {
        lemma_stream_pos_monotonic(slabs, i, count - 1);
        lemma_plan_rest_empty(slabs, i, count - 1, a, b);
    }
}

proof fn lemma_range_fits(min_shards: u8, x: int, n: int)
    requires
        min_shards > 0,
        0 <= x,
        0 < n,
        x + n <= 0x2_0000_0000,
    ensures
        0 <= x / row_size(min_shards) <= x,
        ceil_div(x + n, row_size(min_shards)) <= x + n,
        x / row_size(min_shards) < ceil_div(x + n, row_size(min_shards)),
        0 <= x % row_size(min_shards) < row_size(min_shards),
{
    let row = row_size(min_shards);
    lemma_ceil_div(x + n, row);
    lemma_fundamental_div_mod(x, row);
    let q = x / row;
    let c = ceil_div(x + n, row);
    assert(q <= x) by (nonlinear_arith)
        requires
            x == row * q + x % row,
            0 <= x % row,
            row >= 1,
            x >= 0,
    ;
    assert(0 <= q) by (nonlinear_arith)
        requires
            x == row * q + x % row,
            x % row < row,
            row >= 1,
            x >= 0,
    ;
    assert(c <= x + n) by (nonlinear_arith)
        requires
            c * row < x + n + row,
            row >= 1,
            x + n > 0,
    ;
    assert(q < c) by (nonlinear_arith)
        requires
            x == row * q + x % row,
            0 <= x % row,
            c * row >= x + n,
            n > 0,
            row >= 1,
    ;
}

fn make_range(slab_index: usize, min_shards: u8, slab_offset: u64, slab_length: u64) -> (range:
    SlabRange)
    requires
        min_shards > 0,
        slab_length > 0,
        slab_offset + slab_length <= 0x2_0000_0000,
    ensures
        range == slab_range(slab_index as int, min_shards, slab_offset as int, slab_length as int),
{
    let segment: u64 = segment_size() as u64;
    proof {
        lemma_range_fits(min_shards, slab_offset as int, slab_length as int);
    }
    let chunk_size: u64 = segment * min_shards as u64;
    let start: u64 = (slab_offset / chunk_size) * segment;
    let end: u64 = div_ceil(slab_offset + slab_length, chunk_size) * segment;
    SlabRange {
        slab_index,
        slab_offset,
        slab_length,
        shard_offset: start,
        shard_length: end - start,
        skip: (slab_offset % chunk_size) as usize,
    }
}

/// Whether every slab among the first `count` that holds any of the requested bytes has shards
/// to recover them from.
pub open spec fn readable(slabs: Seq<Slab>, count: int, a: int, b: int) -> bool {
    forall|i: int|
        0 <= i < count && #[trigger] overlaps(slabs, i, a, b) ==> slabs[i].min_shards > 0
}

/// Lists the slab ranges that hold the requested bytes of an object, in the order in which
/// their bytes are delivered. Only slabs that overlap the request are listed.
pub fn plan_download(slabs: &Vec<Slab>, options: &DownloadOptions) -> (ranges: Vec<SlabRange>)
    requires
        object_size(slabs@) <= u64::MAX,
        readable(
            slabs@,
            slabs.len() as int,
            options.offset as int,
            options.end(object_size(slabs@)),
        ),
    ensures
        ranges@ == plan(
            slabs@,
            slabs.len() as int,
            options.offset as int,
            options.end(object_size(slabs@)),
        ),
        ranges@ == plan(
            slabs@,
            slabs.len() as int,
            options.offset as int,
            options.offset + match options.length {
                Some(n) => n as int,
                None => object_size(slabs@),
            },
        ),
        forall|k: int, y: int|
            0 <= k < ranges@.len() && ranges@[k].slab_offset <= y < ranges@[k].slab_offset
                + ranges@[k].slab_length ==> {
                let r = ranges@[k];
                let m = slabs@[r.slab_index as int].min_shards;
                let q = r.skip + (y - r.slab_offset);
                &&& r.shard_offset <= #[trigger] shard_pos(
                    slabs@[ranges@[k].slab_index as int].min_shards,
                    y,
                )
                &&& shard_pos(m, y) < r.shard_offset + r.shard_length
                &&& shard_pos(m, y) == r.shard_offset + shard_pos(m, q)
                &&& shard_of(m, y) == shard_of(m, q)
            },
{
    plan_slabs(slabs, slabs.len(), options)
}

/// Tells whether a request is for nothing: it begins beyond the end of the object, or has no
/// length.
pub fn requests_nothing(slabs: &Vec<Slab>, options: &DownloadOptions) -> (b: bool)
    requires
        object_size(slabs@) <= u64::MAX,
    ensures
        b <==> options.offset > object_size(slabs@) || options.end(object_size(slabs@))
            == options.offset,
        b <==> options.offset > object_size(slabs@) || options.length == Some(0u64) || (
        options.length is None && object_size(slabs@) == 0),
{
    let max_length: u64 = size_of_slabs(slabs);
    options.offset > max_length || options.length.unwrap_or(max_length) == 0
}

/// Lists those of the slab ranges of a download that lie in the first `count` slabs.
pub fn plan_slabs(slabs: &Vec<Slab>, count: usize, options: &DownloadOptions) -> (ranges: Vec<
    SlabRange,
>)
    requires
        count <= slabs.len(),
        object_size(slabs@) <= u64::MAX,
        readable(
            slabs@,
            count as int,
            options.offset as int,
            options.end(object_size(slabs@)),
        ),
    ensures
        ranges@ == plan(
            slabs@,
            count as int,
            options.offset as int,
            options.end(object_size(slabs@)),
        ),
        ranges@ == plan(
            slabs@,
            count as int,
            options.offset as int,
            options.offset + match options.length {
                Some(n) => n as int,
                None => object_size(slabs@),
            },
        ),
        forall|k: int, y: int|
            0 <= k < ranges@.len() && ranges@[k].slab_offset <= y < ranges@[k].slab_offset
                + ranges@[k].slab_length ==> {
                let r = ranges@[k];
                let m = slabs@[r.slab_index as int].min_shards;
                let q = r.skip + (y - r.slab_offset);
                &&& r.shard_offset <= #[trigger] shard_pos(
                    slabs@[ranges@[k].slab_index as int].min_shards,
                    y,
                )
                &&& shard_pos(m, y) < r.shard_offset + r.shard_length
                &&& shard_pos(m, y) == r.shard_offset + shard_pos(m, q)
                &&& shard_of(m, y) == shard_of(m, q)
            },
{
    let ranges = plan_ranges(slabs, count, options);
    proof {
        let a = options.offset as int;
        let b = options.end(object_size(slabs@));
        assert forall|k: int, y: int|
            0 <= k < ranges@.len() && ranges@[k].slab_offset <= y < ranges@[k].slab_offset
                + ranges@[k].slab_length implies {
            let r = ranges@[k];
            let m = slabs@[r.slab_index as int].min_shards;
            let q = r.skip + (y - r.slab_offset);
            &&& r.shard_offset <= #[trigger] shard_pos(
                slabs@[ranges@[k].slab_index as int].min_shards,
                y,
            )
            &&& shard_pos(m, y) < r.shard_offset + r.shard_length
            &&& shard_pos(m, y) == r.shard_offset + shard_pos(m, q)
            &&& shard_of(m, y) == shard_of(m, q)
        } by {
            lemma_plan_reads_rows(slabs@, count as int, a, b, k, y);
        }
    }
    ranges
}

fn plan_ranges(slabs: &Vec<Slab>, count: usize, options: &DownloadOptions) -> (ranges: Vec<
    SlabRange,
>)
    requires
        count <= slabs.len(),
        object_size(slabs@) <= u64::MAX,
        readable(
            slabs@,
            count as int,
            options.offset as int,
            options.end(object_size(slabs@)),
        ),
    ensures
        ranges@ == plan(
            slabs@,
            count as int,
            options.offset as int,
            options.end(object_size(slabs@)),
        ),
{
    let ghost a = options.offset as int;
    let ghost b = options.end(object_size(slabs@));
    let mut ranges: Vec<SlabRange> = Vec::new();
    if requests_nothing(slabs, options) {
        proof {
            lemma_nothing_requested(slabs@, count as int, a, b);
        }
        return ranges;
    }
    let mut offset: u64 = options.offset;
    let mut length: u64 = options.length.unwrap_or(size_of_slabs(slabs));
    let mut i: usize = 0;
    while i < count
        invariant
            i <= count <= slabs.len(),
            object_size(slabs@) <= u64::MAX,
            readable(slabs@, count as int, a, b),
            ranges@ == plan(slabs@, i as int, a, b),
            offset == overlap_start(slabs@, i as int, a) - stream_pos(slabs@, i as int),
            length == b - overlap_start(slabs@, i as int, a),
            length > 0,
            a == options.offset,
            b == options.end(object_size(slabs@)),
        decreases count - i,
    {
        let slab = &slabs[i];
        let slab_length: u64 = slab.length as u64;
        if offset >= slab_length {
            offset = offset - slab_length;
        } else {
            // adjust the slab's range to the offset and the length
            let slab_offset: u64 = slab.offset as u64 + offset;
            let rest: u64 = slab_length - offset;
            let slab_length: u64 = if rest < length {
                rest
            } else {
                length
            };
            offset = 0;
            assert(overlaps(slabs@, i as int, a, b));
            ranges.push(make_range(i, slab.min_shards, slab_offset, slab_length));
            length = length - slab_length;
            if length == 0 {
                proof {
                    lemma_plan_rest_empty(slabs@, i + 1, count as int, a, b);
                }
                return ranges;
            }
        }
        i = i + 1;
    }
    ranges
}

/// Counts the slabs before the first one that holds requested bytes but has no shards to recover
/// them from. All slabs count where there is no such slab.
pub fn readable_slabs(slabs: &Vec<Slab>, options: &DownloadOptions) -> (count: usize)
    requires
        object_size(slabs@) <= u64::MAX,
    ensures
        ({
            let a = options.offset as int;
            let b = options.end(object_size(slabs@));
            &&& count <= slabs.len()
            &&& readable(slabs@, count as int, a, b)
            &&& count < slabs.len() ==> overlaps(slabs@, count as int, a, b)
                && slabs@[count as int].min_shards == 0
        }),
        ({
            let a = options.offset as int;
            let b = options.offset + match options.length {
                Some(n) => n as int,
                None => object_size(slabs@),
            };
            &&& forall|i: int|
                0 <= i < count && a < (#[trigger] stream_pos(slabs@, i)) + slabs@[i].length
                    && stream_pos(slabs@, i) < b && a < b && slabs@[i].length > 0
                    ==> slabs@[i].min_shards > 0
            &&& count < slabs.len() ==> {
                &&& a < stream_pos(slabs@, count as int) + slabs@[count as int].length
                &&& stream_pos(slabs@, count as int) < b
                &&& slabs@[count as int].min_shards == 0
            }
        }),
{
    let max_length: u64 = size_of_slabs(slabs);
    let length: u64 = match options.length {
        Some(n) => n,
        None => max_length,
    };
    let a: u128 = options.offset as u128;
    let b: u128 = a + length as u128;
    let mut start: u128 = 0;
    let mut i: usize = 0;
    while i < slabs.len()
        invariant
            i <= slabs.len(),
            a == options.offset,
            b == options.end(object_size(slabs@)),
            start == stream_pos(slabs@, i as int),
            object_size(slabs@) <= u64::MAX,
            readable(slabs@, i as int, a as int, b as int),
        decreases slabs.len() - i,
    {
        proof {
            lemma_stream_pos_monotonic(slabs@, i + 1, slabs.len() as int);
        }
        let end: u128 = start + slabs[i].length as u128;
        let from: u128 = if a > start {
            a
        } else {
            start
        };
        let to: u128 = if b < end {
            b
        } else {
            end
        };
        if from < to && slabs[i].min_shards == 0 {
            proof {
                lemma_readable_means(slabs@, i as int, a as int, b as int);
            }
            return i;
        }
        start = end;
        i = i + 1;
    }
    proof {
        lemma_readable_means(slabs@, i as int, a as int, b as int);
    }
    i
}

proof fn lemma_readable_means(slabs: Seq<Slab>, count: int, a: int, b: int)
    requires
        readable(slabs, count, a, b),
        0 <= count <= slabs.len(),
    ensures
        forall|i: int|
            0 <= i < count && a < (#[trigger] stream_pos(slabs, i)) + slabs[i].length
                && stream_pos(slabs, i) < b && a < b && slabs[i].length > 0
                ==> slabs[i].min_shards > 0,
{
    assert forall|i: int|
        0 <= i < count && a < (#[trigger] stream_pos(slabs, i)) + slabs[i].length && stream_pos(
            slabs,
            i,
        ) < b && a < b && slabs[i].length > 0 implies slabs[i].min_shards > 0 by {
        assert(overlaps(slabs, i, a, b));
    }
}

proof fn lemma_nothing_requested(slabs: Seq<Slab>, count: int, a: int, b: int)
    requires
        0 <= count <= slabs.len(),
        a > object_size(slabs) || b <= a,
    ensures
        plan(slabs, count, a, b) == Seq::<SlabRange>::empty(),
    decreases count,
{
    if count > 0 {
        lemma_stream_pos_monotonic(slabs, count, slabs.len() as int);
        lemma_nothing_requested(slabs, count - 1, a, b);
    }
}

/// A download takes exactly the slabs that overlap the request, each once, in the order of the
/// object.
pub proof fn lemma_plan_takes_overlaps(slabs: Seq<Slab>, count: int, a: int, b: int)
    requires
        0 <= count <= slabs.len() <= usize::MAX,
    ensures
        ({
            let ranges = plan(slabs, count, a, b);
            &&& forall|k: int|
                0 <= k < ranges.len() ==> {
                    let i = (#[trigger] ranges[k]).slab_index as int;
                    &&& 0 <= i < count
                    &&& overlaps(slabs, i, a, b)
                    &&& ranges[k] == overlap_range(slabs, i, a, b)
                }
            &&& forall|k: int, l: int|
                0 <= k < l < ranges.len() ==> (#[trigger] ranges[k]).slab_index < (
                #[trigger] ranges[l]).slab_index
            &&& forall|i: int|
                0 <= i < count && #[trigger] overlaps(slabs, i, a, b) ==> ranges.contains(
                    overlap_range(slabs, i, a, b),
                )
        }),
    decreases count,
{
    if count > 0 {
        let rest = plan(slabs, count - 1, a, b);
        let ranges = plan(slabs, count, a, b);
        lemma_plan_takes_overlaps(slabs, count - 1, a, b);
        assert forall|i: int| 0 <= i < count && #[trigger] overlaps(slabs, i, a, b) implies
            ranges.contains(overlap_range(slabs, i, a, b)) by {
            if i < count - 1 {
                let k = choose|k: int|
                    0 <= k < rest.len() && rest[k] == overlap_range(slabs, i, a, b);
                assert(ranges[k] == rest[k]);
            } else {
                assert(ranges[rest.len() as int] == overlap_range(slabs, i, a, b));
            }
        }
    }
}

/// The position in a data shard of byte `y` of a slab's data: the data is striped over
/// `min_shards` shards, a segment at a time.
pub open spec fn shard_pos(min_shards: u8, y: int) -> int {
    y / row_size(min_shards) * SEGMENT_SIZE + y % (SEGMENT_SIZE as int)
}

/// The data shard that holds byte `y` of a slab's data.
pub open spec fn shard_of(min_shards: u8, y: int) -> int {
    y / (SEGMENT_SIZE as int) % (min_shards as int)
}

/// Byte `y` of the data that is striped over `shards`.
pub open spec fn striped(shards: Seq<Seq<u8>>, min_shards: u8, y: int) -> u8 {
    shards[shard_of(min_shards, y)][shard_pos(min_shards, y)]
}

proof fn lemma_stripe(min_shards: u8, rows: int, q: int)
    requires
        min_shards > 0,
        rows >= 0,
        q >= 0,
    ensures
        shard_pos(min_shards, rows * row_size(min_shards) + q) == rows * SEGMENT_SIZE + shard_pos(
            min_shards,
            q,
        ),
        shard_of(min_shards, rows * row_size(min_shards) + q) == shard_of(min_shards, q),
{
    let segment = SEGMENT_SIZE as int;
    let m = min_shards as int;
    let row = row_size(min_shards);
    let y = rows * row + q;
    lemma_fundamental_div_mod(q, row);
    lemma_mod_bound(q, row);
    assert(y == (rows + q / row) * row + q % row) by (nonlinear_arith)
        requires
            y == rows * row + q,
            q == row * (q / row) + q % row,
    ;
    lemma_fundamental_div_mod_converse(y, row, rows + q / row, q % row);
    lemma_fundamental_div_mod(q, segment);
    lemma_mod_bound(q, segment);
    assert(y == (rows * m + q / segment) * segment + q % segment) by (nonlinear_arith)
        requires
            y == rows * row + q,
            row == segment * m,
            q == segment * (q / segment) + q % segment,
    ;
    lemma_fundamental_div_mod_converse(y, segment, rows * m + q / segment, q % segment);
    lemma_mod_multiples_vanish(rows, q / segment, m);
    assert(rows * m == m * rows) by (nonlinear_arith);
    assert((rows + q / row) * segment == rows * segment + (q / row) * segment)
        by (nonlinear_arith);
}

/// The part of the sectors that a range reads holds every byte to deliver, and nothing but the
/// rows of segments that these bytes touch. Inside that part, the bytes to deliver follow one
/// another after the first `skip`, striped over the shards as in the whole slab.
pub proof fn lemma_range_covers(index: int, min_shards: u8, x: int, n: int, y: int)
    requires
        min_shards > 0,
        0 <= x <= y < x + n,
        x + n <= 0x2_0000_0000,
    ensures
        ({
            let r = slab_range(index, min_shards, x, n);
            let q = r.skip + (y - x);
            &&& r.slab_offset == x
            &&& r.slab_length == n
            &&& r.skip < row_size(min_shards)
            &&& r.shard_offset % SEGMENT_SIZE as u64 == 0
            &&& r.shard_length % SEGMENT_SIZE as u64 == 0
            &&& r.shard_offset <= shard_pos(min_shards, x)
            &&& shard_pos(min_shards, x) < r.shard_offset + SEGMENT_SIZE
            &&& r.shard_offset + r.shard_length - SEGMENT_SIZE <= shard_pos(min_shards, x + n - 1)
            &&& r.shard_offset <= shard_pos(min_shards, y) < r.shard_offset + r.shard_length
            &&& shard_pos(min_shards, y) == r.shard_offset + shard_pos(min_shards, q)
            &&& shard_of(min_shards, y) == shard_of(min_shards, q)
        }),
{
    let row = row_size(min_shards);
    let segment = SEGMENT_SIZE as int;
    let first = x / row;
    let last = ceil_div(x + n, row);
    lemma_range_fits(min_shards, x, n);
    lemma_fundamental_div_mod(x, row);
    let r = slab_range(index, min_shards, x, n);
    assert(r.skip == x % row);
    assert(r.shard_offset == first * segment);
    assert(r.shard_length == last * segment - first * segment);
    let q = r.skip + (y - x);
    assert(y == first * row + q) by (nonlinear_arith)
        requires
            x == row * first + x % row,
            q == x % row + (y - x),
    ;
    lemma_stripe(min_shards, first, q);
    lemma_stripe(min_shards, first, x % row);
    assert(first * row == row * first) by (nonlinear_arith);
    lemma_basic_div(x % row, row);
    lemma_div_pos_is_pos(q, row);
    assert(q % segment >= 0 && q / row * segment >= 0);
    lemma_ceil_div(x + n, row);
    lemma_rows_below(y, last, row);
    lemma_last_row(x + n - 1, last, row);
    lemma_mod_multiples_basic(first, segment);
    assert(last * segment - first * segment == (last - first) * segment) by (nonlinear_arith);
    lemma_mod_multiples_basic(last - first, segment);
}

/// A range reads from the row of its first byte through the row of its last.
pub(crate) proof fn lemma_range_rows(index: int, min_shards: u8, x: int, n: int)
    requires
        min_shards > 0,
        0 <= x,
        0 < n,
        x + n <= 0x2_0000_0000,
    ensures
        ({
            let r = slab_range(index, min_shards, x, n);
            let m = min_shards as int;
            &&& r.slab_offset == x
            &&& r.slab_length == n
            &&& r.shard_offset == x / (64 * m) * 64
            &&& r.shard_offset + r.shard_length == ((x + n - 1) / (64 * m) + 1) * 64
            &&& r.skip == x % (64 * m)
            &&& r.skip < 64 * m
        }),
{
    let row = row_size(min_shards);
    lemma_range_fits(min_shards, x, n);
    lemma_ceil_div(x + n, row);
    let last = ceil_div(x + n, row);
    lemma_rows_below(x + n - 1, last, row);
    lemma_last_row(x + n - 1, last, row);
    assert(row == 64 * (min_shards as int));
    assert((x + n - 1) / row + 1 == last);
}

proof fn lemma_rows_below(y: int, last: int, row: int)
    requires
        row > 0,
        0 <= y < last * row,
    ensures
        y / row <= last - 1,
{
    lemma_fundamental_div_mod(y, row);
    lemma_mod_bound(y, row);
    assert(y / row <= last - 1) by (nonlinear_arith)
        requires
            y == row * (y / row) + y % row,
            0 <= y % row,
            y < last * row,
            row > 0,
    ;
}

proof fn lemma_last_row(z: int, last: int, row: int)
    requires
        row > 0,
        last * row < z + 1 + row,
        0 <= z,
    ensures
        z / row >= last - 1,
{
    lemma_fundamental_div_mod(z, row);
    lemma_mod_bound(z, row);
    assert(z / row >= last - 1) by (nonlinear_arith)
        requires
            z == row * (z / row) + z % row,
            z % row < row,
            last * row < z + 1 + row,
            row > 0,
    ;
}

/// Reading the range's part of every data shard, and skipping, gives the bytes of the slab's
/// data that the range is to deliver.
pub proof fn lemma_range_bytes(
    index: int,
    min_shards: u8,
    x: int,
    n: int,
    shards: Seq<Seq<u8>>,
    k: int,
)
    requires
        min_shards > 0,
        0 <= x,
        0 <= k < n,
        x + n <= 0x2_0000_0000,
        shards.len() == min_shards,
        ({
            let r = slab_range(index, min_shards, x, n);
            forall|s: int|
                0 <= s < shards.len() ==> (#[trigger] shards[s]).len() >= r.shard_offset
                    + r.shard_length
        }),
    ensures
        ({
            let r = slab_range(index, min_shards, x, n);
            let parts = Seq::new(
                shards.len(),
                |s: int|
                    shards[s].subrange(
                        r.shard_offset as int,
                        r.shard_offset + r.shard_length,
                    ),
            );
            striped(parts, min_shards, r.skip + k) == striped(shards, min_shards, x + k)
        }),
{
    lemma_range_covers(index, min_shards, x, n, x + k);
    lemma_mod_bound((x + k) / (SEGMENT_SIZE as int), min_shards as int);
    let r = slab_range(index, min_shards, x, n);
    let s = shard_of(min_shards, x + k);
    assert(shards[s].len() >= r.shard_offset + r.shard_length);
}

/// The bytes of the object in the first `count` slabs, where `data` holds the whole data of
/// each slab.
pub open spec fn object_bytes(slabs: Seq<Slab>, data: Seq<Seq<u8>>, count: int) -> Seq<u8>
    decreases count,
{
    if count <= 0 {
        Seq::empty()
    } else {
        let slab = slabs[count - 1];
        object_bytes(slabs, data, count - 1) + data[count - 1].subrange(
            slab.offset as int,
            slab.offset + slab.length,
        )
    }
}

/// The bytes that the ranges deliver, one range after the other.
pub open spec fn delivered(data: Seq<Seq<u8>>, ranges: Seq<SlabRange>) -> Seq<u8>
    decreases ranges.len(),
{
    if ranges.len() == 0 {
        Seq::empty()
    } else {
        let r = ranges.last();
        delivered(data, ranges.drop_last()) + data[r.slab_index as int].subrange(
            r.slab_offset as int,
            r.slab_offset + r.slab_length,
        )
    }
}

/// `x`, or `limit` where `x` lies beyond it.
pub open spec fn at_most(x: int, limit: int) -> int {
    if x < limit {
        x
    } else {
        limit
    }
}

/// A download delivers exactly the requested bytes of the object, in order: those from `a` up
/// to `b` or to the end of the object.
pub proof fn lemma_plan_delivers(slabs: Seq<Slab>, data: Seq<Seq<u8>>, a: int, b: int)
    requires
        data.len() == slabs.len(),
        slabs.len() <= usize::MAX,
        forall|i: int|
            0 <= i < slabs.len() ==> (#[trigger] data[i]).len() >= slabs[i].offset
                + slabs[i].length,
        0 <= a <= b,
    ensures
        object_bytes(slabs, data, slabs.len() as int).len() == object_size(slabs),
        delivered(data, plan(slabs, slabs.len() as int, a, b)) == object_bytes(
            slabs,
            data,
            slabs.len() as int,
        ).subrange(at_most(a, object_size(slabs)), at_most(b, object_size(slabs))),
{
    lemma_plan_delivers_part(slabs, data, slabs.len() as int, a, b);
}

proof fn lemma_plan_delivers_part(
    slabs: Seq<Slab>,
    data: Seq<Seq<u8>>,
    count: int,
    a: int,
    b: int,
)
    requires
        data.len() == slabs.len(),
        slabs.len() <= usize::MAX,
        forall|i: int|
            0 <= i < slabs.len() ==> (#[trigger] data[i]).len() >= slabs[i].offset
                + slabs[i].length,
        0 <= a <= b,
        0 <= count <= slabs.len(),
    ensures
        object_bytes(slabs, data, count).len() == stream_pos(slabs, count),
        delivered(data, plan(slabs, count, a, b)) == object_bytes(slabs, data, count).subrange(
            at_most(a, stream_pos(slabs, count)),
            at_most(b, stream_pos(slabs, count)),
        ),
    decreases count,
{
    lemma_stream_pos_monotonic(slabs, 0, count);
    if count == 0 {
        assert(delivered(data, plan(slabs, count, a, b)) =~= object_bytes(
            slabs,
            data,
            count,
        ).subrange(0, 0));
    } else {
        let i = count - 1;
        lemma_plan_delivers_part(slabs, data, i, a, b);
        lemma_stream_pos_monotonic(slabs, i, count);
        let before = object_bytes(slabs, data, i);
        let after = object_bytes(slabs, data, count);
        let start = stream_pos(slabs, i);
        let end = stream_pos(slabs, count);
        assert(data[i].len() >= slabs[i].offset + slabs[i].length);
        let old_part = before.subrange(at_most(a, start), at_most(b, start));
        let new_part = after.subrange(at_most(a, end), at_most(b, end));
        if overlaps(slabs, i, a, b) {
            let r = overlap_range(slabs, i, a, b);
            let ranges = plan(slabs, count, a, b);
            assert(ranges.drop_last() =~= plan(slabs, i, a, b));
            let piece = data[i].subrange(r.slab_offset as int, r.slab_offset + r.slab_length);
            assert(old_part + piece =~= new_part);
        } else {
            assert(old_part =~= new_part);
        }
    }
}

/// The download of as many bytes as a slab holds, from the position in the object at which it
/// begins, delivers the bytes of the object that are in that slab, and no others.
pub proof fn lemma_slab_by_index_delivers(slabs: Seq<Slab>, data: Seq<Seq<u8>>, index: int)
    requires
        data.len() == slabs.len(),
        slabs.len() <= usize::MAX,
        forall|i: int|
            0 <= i < slabs.len() ==> (#[trigger] data[i]).len() >= slabs[i].offset
                + slabs[i].length,
        0 <= index < slabs.len(),
    ensures
        ({
            let start = stream_pos(slabs, index);
            let end = start + slabs[index].length;
            delivered(data, plan(slabs, slabs.len() as int, start, end)) == data[index].subrange(
                slabs[index].offset as int,
                slabs[index].offset + slabs[index].length,
            )
        }),
{
    let start = stream_pos(slabs, index);
    let end = start + slabs[index].length;
    assert(end == stream_pos(slabs, index + 1));
    lemma_stream_pos_monotonic(slabs, 0, index);
    lemma_plan_delivers(slabs, data, start, end);
    lemma_stream_pos_monotonic(slabs, index, index + 1);
    lemma_stream_pos_monotonic(slabs, index + 1, slabs.len() as int);
    lemma_object_bytes_prefix(slabs, data, index + 1, slabs.len() as int);
    lemma_object_bytes_prefix(slabs, data, index, index + 1);
    let all = object_bytes(slabs, data, slabs.len() as int);
    let piece = data[index].subrange(
        slabs[index].offset as int,
        slabs[index].offset + slabs[index].length,
    );
    let upto = object_bytes(slabs, data, index + 1);
    assert(upto == object_bytes(slabs, data, index) + piece);
    assert(all.subrange(start, end) =~= all.subrange(0, end).subrange(start, end));
    assert(upto.subrange(start, end) =~= piece);
}

proof fn lemma_object_bytes_prefix(slabs: Seq<Slab>, data: Seq<Seq<u8>>, i: int, j: int)
    requires
        data.len() == slabs.len(),
        forall|i: int|
            0 <= i < slabs.len() ==> (#[trigger] data[i]).len() >= slabs[i].offset
                + slabs[i].length,
        0 <= i <= j <= slabs.len(),
    ensures
        object_bytes(slabs, data, i).len() == stream_pos(slabs, i),
        object_bytes(slabs, data, j).len() == stream_pos(slabs, j),
        stream_pos(slabs, i) <= stream_pos(slabs, j),
        object_bytes(slabs, data, j).subrange(0, stream_pos(slabs, i)) == object_bytes(
            slabs,
            data,
            i,
        ),
    decreases j,
{
    if j > 0 {
        assert(data[j - 1].len() >= slabs[j - 1].offset + slabs[j - 1].length);
        lemma_object_bytes_prefix(slabs, data, if i < j { i } else { j - 1 }, j - 1);
    }
    assert(object_bytes(slabs, data, j).subrange(0, stream_pos(slabs, i)) =~= object_bytes(
        slabs,
        data,
        i,
    ));
}

} // verus!
