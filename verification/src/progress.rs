//! What upload and download callbacks are told.

use vstd::arithmetic::div_mod::{
    lemma_div_multiples_vanish, lemma_fundamental_div_mod, lemma_mod_bound,
    lemma_mod_multiples_basic,
};
use vstd::prelude::*;

use crate::rhp::{ceil_div, div_ceil, lemma_ceil_div, sector_size, SECTOR_SIZE};

verus! {

/// Counts shards or slabs that are done.
#[derive(Clone, Copy, Debug, PartialEq, Eq)]
pub struct Progress {
    pub count: u64,
    pub total: u64,
}

impl Progress {
    /// Nothing of `total` is done.
    pub fn new(total: u64) -> (progress: Progress)
        ensures
            progress == (Progress { count: 0, total }),
    {
        Progress { count: 0, total }
    }

    /// Counts one more, and returns the count and the total to report.
    pub fn advance(&mut self) -> (report: (u64, u64))
        requires
            old(self).count < u64::MAX,
        ensures
            final(self).count == old(self).count + 1,
            final(self).total == old(self).total,
            report == (final(self).count, old(self).total),
    {
        self.count = self.count + 1;
        (self.count, self.total)
    }
}

/// Counts the bytes of an upload whose size is not known beforehand, by the sectors that were
/// stored.
#[derive(Clone, Copy, Debug, PartialEq, Eq)]
pub struct UploadProgress {
    pub sectors: u64,
    pub total_shards: u64,
}

/// The bytes in `sectors` sectors.
pub open spec fn stored_size(sectors: int) -> int {
    sectors * SECTOR_SIZE
}

/// The bytes in the slabs that `sectors` sectors belong to, where a slab has `total_shards`.
pub open spec fn slabs_size(sectors: int, total_shards: int) -> int {
    ceil_div(sectors, total_shards) * (total_shards * SECTOR_SIZE)
}

impl UploadProgress {
    /// No sector is stored.
    pub fn new(data_shards: u8, parity_shards: u8) -> (progress: UploadProgress)
        ensures
            progress == (UploadProgress {
                sectors: 0,
                total_shards: (data_shards + parity_shards) as u64,
            }),
    {
        UploadProgress { sectors: 0, total_shards: data_shards as u64 + parity_shards as u64 }
    }

    /// Counts one more sector. Returns the bytes stored so far, and the bytes of the slabs that
    /// were begun.
    pub fn advance(&mut self) -> (report: (u64, u64))
        requires
            old(self).total_shards > 0,
            slabs_size(old(self).sectors + 1, old(self).total_shards as int) <= u64::MAX,
        ensures
            final(self).sectors == old(self).sectors + 1,
            final(self).total_shards == old(self).total_shards,
            report.0 == stored_size(old(self).sectors + 1),
            report.1 == slabs_size(old(self).sectors + 1, old(self).total_shards as int),
            report.0 == (old(self).sectors + 1) * 4194304,
            report.0 <= report.1,
            report.1 < report.0 + old(self).total_shards * 4194304,
            report.1 as int % (old(self).total_shards * 4194304) == 0,
    {
        let ghost sectors = self.sectors + 1;
        let ghost total = self.total_shards as int;
        proof {
            lemma_upload_progress(sectors, total);
            lemma_mod_multiples_basic(ceil_div(sectors, total), total * SECTOR_SIZE);
            lemma_ceil_div(sectors, total);
            assert(total * SECTOR_SIZE <= slabs_size(sectors, total)) by (nonlinear_arith)
                requires
                    total > 0,
                    sectors > 0,
                    ceil_div(sectors, total) * total >= sectors,
                    slabs_size(sectors, total) == ceil_div(sectors, total) * (total
                        * SECTOR_SIZE),
            ;
        }
        self.sectors = self.sectors + 1;
        let sector: u64 = sector_size() as u64;
        let slab_encoded_size: u64 = self.total_shards * sector;
        let size: u64 = self.sectors * sector;
        let slabs: u64 = div_ceil(self.sectors, self.total_shards) * slab_encoded_size;
        (size, slabs)
    }
}

/// The bytes stored never exceed those of the slabs that were begun, fall short of them by less
/// than a slab, and reach them exactly when no slab is half done.
pub proof fn lemma_upload_progress(sectors: int, total_shards: int)
    requires
        sectors >= 0,
        total_shards > 0,
    ensures
        stored_size(sectors) <= slabs_size(sectors, total_shards),
        slabs_size(sectors, total_shards) < stored_size(sectors) + total_shards * SECTOR_SIZE,
        stored_size(sectors) == slabs_size(sectors, total_shards) <==> sectors % total_shards
            == 0,
        stored_size(sectors) == sectors * 4194304,
{
    let q = ceil_div(sectors, total_shards);
    lemma_ceil_div(sectors, total_shards);
    lemma_fundamental_div_mod(sectors, total_shards);
    lemma_mod_bound(sectors, total_shards);
    assert(slabs_size(sectors, total_shards) == (q * total_shards) * SECTOR_SIZE)
        by (nonlinear_arith)
        requires
            slabs_size(sectors, total_shards) == q * (total_shards * SECTOR_SIZE),
    ;
    if sectors % total_shards == 0 {
        assert(q * total_shards == sectors) by (nonlinear_arith)
            requires
                q == sectors / total_shards,
                sectors == total_shards * (sectors / total_shards),
        ;
    } else {
        assert(q * total_shards > sectors) by (nonlinear_arith)
            requires
                q == sectors / total_shards + 1,
                sectors == total_shards * (sectors / total_shards) + sectors % total_shards,
                sectors % total_shards < total_shards,
        ;
    }
}

/// The data bytes in a slab with `data_shards` data shards.
pub open spec fn slab_data_bytes(data_shards: u8) -> int {
    data_shards * SECTOR_SIZE
}

/// Size in bytes of data per slab.
pub fn slab_data_size(data_shards: u8) -> (size: usize)
    ensures
        size == slab_data_bytes(data_shards),
        size == data_shards * 4194304,
{
    data_shards as usize * sector_size()
}

/// The number of slabs that hold `size` bytes.
pub open spec fn slab_count(size: int, data_shards: u8) -> int {
    if size == 0 {
        0
    } else {
        ceil_div(size, slab_data_bytes(data_shards))
    }
}

/// The number of shards that an upload of `size` bytes stores.
pub fn total_upload_shards(size: usize, data_shards: u8, parity_shards: u8) -> (total: u32)
    requires
        size > 0 ==> data_shards > 0,
        slab_count(size as int, data_shards) * (data_shards + parity_shards) <= u32::MAX,
    ensures
        total == slab_count(size as int, data_shards) * (data_shards + parity_shards),
        size == 0 ==> total == 0,
        size > 0 ==> {
            let slabs = total as int / (data_shards + parity_shards);
            &&& total == slabs * (data_shards + parity_shards)
            &&& size <= slabs * (data_shards * 4194304)
            &&& (slabs - 1) * (data_shards * 4194304) < size
        },
{
    if size == 0 {
        return 0;
    }
    let slab: u64 = slab_data_size(data_shards) as u64;
    let slabs: u64 = div_ceil(size as u64, slab);
    let per_slab: u64 = data_shards as u64 + parity_shards as u64;
    proof {
        assert(slabs <= slabs * per_slab) by (nonlinear_arith)
            requires
                per_slab >= 1,
                slabs >= 0,
        ;
        lemma_slab_count(size as int, data_shards);
        lemma_div_multiples_vanish(slabs as int, per_slab as int);
        assert(slabs * per_slab == per_slab * slabs) by (nonlinear_arith);
    }
    (slabs as u32) * (per_slab as u32)
}

/// The slabs of an upload hold all of its bytes, and one slab fewer would not.
pub proof fn lemma_slab_count(size: int, data_shards: u8)
    requires
        size > 0,
        data_shards > 0,
    ensures
        (slab_count(size, data_shards) - 1) * slab_data_bytes(data_shards) < size,
        size <= slab_count(size, data_shards) * slab_data_bytes(data_shards),
        (slab_count(size, data_shards) - 1) * (data_shards * 4194304) < size,
        size <= slab_count(size, data_shards) * (data_shards * 4194304),
{
    let slab = slab_data_bytes(data_shards);
    let q = slab_count(size, data_shards);
    lemma_ceil_div(size, slab);
    assert((q - 1) * slab == q * slab - slab) by (nonlinear_arith);
}

} // verus!
