//! Objects as the browser bindings show them.

use vstd::prelude::*;

use crate::bytes::bytes_of;
use crate::ids::{format_hash, format_key, hash_text, key_text};
use crate::object::{
    count_slabs, lengths_of_slabs, object_size, size_of_slabs, Object, Sector, Slab,
};
use crate::timestamp::Timestamp;

verus! {

/// The layout of a slab: which part of its data belongs to the object, how many shards recover
/// it, and which hosts store it.
pub struct SlabLayout {
    pub offset: u32,
    pub length: u32,
    pub min_shards: u8,
    pub host_keys: Vec<String>,
}

/// Whether `layout` is the layout of `slab`.
pub open spec fn is_layout(layout: SlabLayout, slab: Slab) -> bool {
    &&& layout.offset == slab.offset
    &&& layout.length == slab.length
    &&& layout.min_shards == slab.min_shards
    &&& layout.host_keys@.len() == slab.sectors@.len()
    &&& forall|i: int|
        0 <= i < slab.sectors@.len() ==> (#[trigger] layout.host_keys@[i])@ == key_text(
            slab.sectors@[i].host_key@,
        )
}

fn host_keys(sectors: &Vec<Sector>) -> (keys: Vec<String>)
    ensures
        keys@.len() == sectors@.len(),
        forall|i: int|
            0 <= i < sectors@.len() ==> (#[trigger] keys@[i])@ == key_text(
                sectors@[i].host_key@,
            ),
{
    let mut keys: Vec<String> = Vec::new();
    let mut i: usize = 0;
    while i < sectors.len()
        invariant
            i <= sectors.len(),
            keys@.len() == i,
            forall|k: int|
                0 <= k < i ==> (#[trigger] keys@[k])@ == key_text(sectors@[k].host_key@),
        decreases sectors.len() - i,
    {
        keys.push(format_key(&sectors[i].host_key));
        i = i + 1;
    }
    keys
}

/// An object that is stored with the indexer.
pub struct PinnedObject {
    pub inner: Object,
}

impl PinnedObject {
    /// Shows an object.
    pub fn from_object(object: Object) -> (pinned: PinnedObject)
        ensures
            pinned.inner == object,
    {
        PinnedObject { inner: object }
    }

    /// Returns the total size of the object in bytes.
    pub fn size(&self) -> (size: u64)
        requires
            object_size(self.inner.slabs@) <= u64::MAX,
        ensures
            size == object_size(self.inner.slabs@),
    {
        size_of_slabs(&self.inner.slabs)
    }

    /// Returns the metadata.
    pub fn metadata(&self) -> (metadata: Vec<u8>)
        ensures
            metadata@ == self.inner.metadata@,
    {
        bytes_of(self.inner.metadata.as_slice())
    }

    /// Updates the metadata.
    pub fn update_metadata(&mut self, metadata: &[u8])
        ensures
            final(self).inner.metadata@ == metadata@,
            final(self).inner == (Object {
                metadata: final(self).inner.metadata,
                ..old(self).inner
            }),
    {
        self.inner.metadata = bytes_of(metadata);
    }

    /// Returns the slab layout: for each slab its offset, length, the shards that recover it and
    /// the public keys of the hosts that store each of its sectors.
    pub fn slabs(&self) -> (layout: Vec<SlabLayout>)
        ensures
            layout@.len() == self.inner.slabs@.len(),
            forall|i: int|
                0 <= i < layout@.len() ==> is_layout(
                    #[trigger] layout@[i],
                    self.inner.slabs@[i],
                ),
            forall|i: int|
                0 <= i < layout@.len() ==> {
                    let slab = self.inner.slabs@[i];
                    &&& (#[trigger] layout@[i]).offset == slab.offset
                    &&& layout@[i].length == slab.length
                    &&& layout@[i].min_shards == slab.min_shards
                    &&& layout@[i].host_keys@.len() == slab.sectors@.len()
                    &&& forall|k: int|
                        0 <= k < slab.sectors@.len() ==> (
                        #[trigger] layout@[i].host_keys@[k])@ == key_text(
                            slab.sectors@[k].host_key@,
                        )
                },
    {
        let slabs = &self.inner.slabs;
        let mut layout: Vec<SlabLayout> = Vec::new();
        let mut i: usize = 0;
        while i < slabs.len()
            invariant
                i <= slabs.len(),
                layout@.len() == i,
                forall|k: int| 0 <= k < i ==> is_layout(#[trigger] layout@[k], slabs@[k]),
            decreases slabs.len() - i,
        {
            let slab = &slabs[i];
            layout.push(
                SlabLayout {
                    offset: slab.offset,
                    length: slab.length,
                    min_shards: slab.min_shards,
                    host_keys: host_keys(&slab.sectors),
                },
            );
            i = i + 1;
        }
        layout
    }

    /// Returns the number of slabs in the object.
    pub fn slab_count(&self) -> (n: u32)
        ensures
            n == self.inner.slabs@.len() % 0x1_0000_0000,
    {
        count_slabs(&self.inner.slabs)
    }

    /// Returns the actual data length of each slab.
    pub fn slab_lengths(&self) -> (lengths: Vec<u32>)
        ensures
            lengths@ == Seq::new(
                self.inner.slabs@.len(),
                |i: int| self.inner.slabs@[i].length,
            ),
    {
        lengths_of_slabs(&self.inner.slabs)
    }
}

/// A change of an object, as it is shown: the ID of the object, whether it was deleted, and when
/// the change happened, in milliseconds since the Unix epoch.
#[derive(Clone, Debug, PartialEq, Eq)]
pub struct EventRow {
    pub id: String,
    pub deleted: bool,
    pub updated_at: i64,
}

/// Shows a change of an object.
pub fn event_row(id: &[u8; 32], deleted: bool, updated_at: Timestamp) -> (row: EventRow)
    requires
        updated_at.valid(),
    ensures
        row.id@ == hash_text(id@),
        row.deleted == deleted,
        row.updated_at == updated_at.millis(),
        row.updated_at == updated_at.secs * 1000 + updated_at.nanos as int / 1_000_000,
{
    EventRow { id: format_hash(id), deleted, updated_at: updated_at.timestamp_millis() }
}

} // verus!
