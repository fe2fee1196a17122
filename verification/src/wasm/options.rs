//! Options of the browser bindings.

use vstd::prelude::*;

use crate::progress::{slab_count, slab_data_bytes, slab_data_size, total_upload_shards};

verus! {

/// Upload configuration exposed to JavaScript.
#[derive(Clone, Copy, Debug, PartialEq, Eq)]
pub struct UploadOptions {
    pub data_shards: u8,
    pub parity_shards: u8,
    pub max_inflight: usize,
}

impl UploadOptions {
    /// The shards that an upload of `size` bytes stores.
    pub open spec fn shards_for(self, size: int) -> int {
        slab_count(size, self.data_shards) * (self.data_shards + self.parity_shards)
    }

    /// The given configuration.
    pub fn new(data_shards: u8, parity_shards: u8, max_inflight: usize) -> (options: UploadOptions)
        ensures
            options == (UploadOptions { data_shards, parity_shards, max_inflight }),
    {
        UploadOptions { data_shards, parity_shards, max_inflight }
    }

    /// The shards in a slab, data and parity.
    pub fn total_shards_per_slab(&self) -> (n: u32)
        ensures
            n == self.data_shards + self.parity_shards,
    {
        self.data_shards as u32 + self.parity_shards as u32
    }

    /// Size in bytes of data per slab.
    pub fn slab_data_size(&self) -> (size: usize)
        ensures
            size == slab_data_bytes(self.data_shards),
            size == self.data_shards * 4194304,
    {
        slab_data_size(self.data_shards)
    }

    /// The shards that an upload of `size` bytes stores.
    pub fn total_shards(&self, size: usize) -> (n: u32)
        requires
            size > 0 ==> self.data_shards > 0,
            self.shards_for(size as int) <= u32::MAX,
        ensures
            n == self.shards_for(size as int),
            size == 0 ==> n == 0,
            size > 0 ==> {
                let slabs = n as int / (self.data_shards + self.parity_shards);
                &&& n == slabs * (self.data_shards + self.parity_shards)
                &&& size <= slabs * (self.data_shards * 4194304)
                &&& (slabs - 1) * (self.data_shards * 4194304) < size
            },
    {
        total_upload_shards(size, self.data_shards, self.parity_shards)
    }

    /// A copy of the configuration.
    pub fn js_clone(&self) -> (options: UploadOptions)
        ensures
            options == *self,
    {
        UploadOptions {
            data_shards: self.data_shards,
            parity_shards: self.parity_shards,
            max_inflight: self.max_inflight,
        }
    }
}

/// Download configuration exposed to JavaScript.
#[derive(Clone, Copy, Debug, PartialEq, Eq)]
pub struct DownloadOptions {
    pub max_inflight: usize,
}

impl DownloadOptions {
    /// The default configuration. Browsers cannot handle many concurrent connections, so eight
    /// sectors are downloaded at a time.
    pub fn new() -> (options: DownloadOptions)
        ensures
            options.max_inflight == 8,
    {
        DownloadOptions {
            max_inflight: crate::download::DownloadOptions::for_target(true).max_inflight,
        }
    }

    /// A copy of the configuration.
    pub fn js_clone(&self) -> (options: DownloadOptions)
        ensures
            options == *self,
    {
        DownloadOptions { max_inflight: self.max_inflight }
    }

    /// The download of a whole object.
    pub fn into_indexd(self) -> (options: crate::download::DownloadOptions)
        ensures
            options == (crate::download::DownloadOptions {
                max_inflight: self.max_inflight,
                offset: 0,
                length: None,
            }),
    {
        crate::download::DownloadOptions {
            max_inflight: self.max_inflight,
            offset: 0,
            length: None,
        }
    }

    /// The download of `length` bytes from `offset`.
    pub fn into_indexd_ranged(self, offset: u64, length: u64) -> (options:
        crate::download::DownloadOptions)
        ensures
            options == (crate::download::DownloadOptions {
                max_inflight: self.max_inflight,
                offset,
                length: Some(length),
            }),
    {
        crate::download::DownloadOptions {
            max_inflight: self.max_inflight,
            offset,
            length: Some(length),
        }
    }
}

} // verus!
