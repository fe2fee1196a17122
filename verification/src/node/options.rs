//! Options of the Node.js bindings.

use vstd::prelude::*;

use crate::download::DownloadOptions;

verus! {

/// Upload options as JavaScript passes them; each may be left out.
#[derive(Clone, Copy, Debug, PartialEq, Eq)]
pub struct NativeUploadOptions {
    pub data_shards: Option<u32>,
    pub parity_shards: Option<u32>,
    pub max_inflight: Option<u32>,
}

/// Download options as JavaScript passes them; each may be left out.
#[derive(Clone, Copy, Debug, PartialEq, Eq)]
pub struct NativeDownloadOptions {
    pub max_inflight: Option<u32>,
}

/// Upload options with every default filled in.
#[derive(Clone, Copy, Debug, PartialEq, Eq)]
pub struct ResolvedUploadOptions {
    pub data_shards: u8,
    pub parity_shards: u8,
    pub max_inflight: usize,
}

/// `value`, or `default` where it was left out.
pub open spec fn or_default(value: Option<u32>, default: u32) -> u32 {
    match value {
        Some(v) => v,
        None => default,
    }
}

impl NativeUploadOptions {
    /// The options with 10 data shards, 20 parity shards and 10 uploads at a time by default. Of
    /// a shard count the low eight bits are kept.
    pub open spec fn resolved(self) -> ResolvedUploadOptions {
        ResolvedUploadOptions {
            data_shards: (or_default(self.data_shards, 10) % 256) as u8,
            parity_shards: (or_default(self.parity_shards, 20) % 256) as u8,
            max_inflight: or_default(self.max_inflight, 10) as usize,
        }
    }

    /// Fills in the defaults.
    pub fn resolve(&self) -> (options: ResolvedUploadOptions)
        ensures
            options == self.resolved(),
            self.data_shards matches Some(n) ==> options.data_shards == n % 256,
            self.data_shards is None ==> options.data_shards == 10,
            self.parity_shards matches Some(n) ==> options.parity_shards == n % 256,
            self.parity_shards is None ==> options.parity_shards == 20,
            self.max_inflight matches Some(n) ==> options.max_inflight == n,
            self.max_inflight is None ==> options.max_inflight == 10,
    {
        let data_shards: u32 = self.data_shards.unwrap_or(10);
        let parity_shards: u32 = self.parity_shards.unwrap_or(20);
        let max_inflight: u32 = self.max_inflight.unwrap_or(10);
        ResolvedUploadOptions {
            data_shards: (data_shards % 256) as u8,
            parity_shards: (parity_shards % 256) as u8,
            max_inflight: max_inflight as usize,
        }
    }
}

impl NativeDownloadOptions {
    /// The download of a whole object, with 10 sectors at a time by default.
    pub fn whole(&self) -> (options: DownloadOptions)
        ensures
            options == (DownloadOptions {
                max_inflight: or_default(self.max_inflight, 10) as usize,
                offset: 0,
                length: None,
            }),
            self.max_inflight matches Some(n) ==> options.max_inflight == n,
            self.max_inflight is None ==> options.max_inflight == 10,
    {
        let max_inflight: u32 = self.max_inflight.unwrap_or(10);
        DownloadOptions { max_inflight: max_inflight as usize, offset: 0, length: None }
    }

    /// The download of `length` bytes from `offset`, with 10 sectors at a time by default.
    pub fn ranged(&self, offset: u64, length: u64) -> (options: DownloadOptions)
        ensures
            options == (DownloadOptions {
                max_inflight: or_default(self.max_inflight, 10) as usize,
                offset,
                length: Some(length),
            }),
            self.max_inflight matches Some(n) ==> options.max_inflight == n,
            self.max_inflight is None ==> options.max_inflight == 10,
    {
        let max_inflight: u32 = self.max_inflight.unwrap_or(10);
        DownloadOptions { max_inflight: max_inflight as usize, offset, length: Some(length) }
    }
}

/// An option that was left out has its default: 10 data shards, 20 parity shards, 10 at a time. Of
/// a shard count that was given the low eight bits are kept.
pub proof fn lemma_resolved(options: NativeUploadOptions)
    ensures
        options.data_shards matches Some(n) ==> options.resolved().data_shards == n % 256,
        options.data_shards is None ==> options.resolved().data_shards == 10,
        options.parity_shards matches Some(n) ==> options.resolved().parity_shards == n % 256,
        options.parity_shards is None ==> options.resolved().parity_shards == 20,
        options.max_inflight matches Some(n) ==> options.resolved().max_inflight == n,
        options.max_inflight is None ==> options.resolved().max_inflight == 10,
{
}

/// An option is what was given, or its default where nothing was.
pub proof fn lemma_or_default(value: Option<u32>, default: u32)
    ensures
        value matches Some(v) ==> or_default(value, default) == v,
        value is None ==> or_default(value, default) == default,
{
}

} // verus!
