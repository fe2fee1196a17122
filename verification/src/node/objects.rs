//! Objects as the Node.js bindings show them.

use vstd::prelude::*;

use crate::bytes::bytes_of;
use crate::ids::{format_hash, hash_text};
use crate::object::{
    count_slabs, lengths_of_slabs, object_size, size_of_slabs, slab_views, Object,
};
use crate::sealed::{slab_json_views, slabs_from_indexd, slabs_json, writes_slab, SlabJson};
use crate::timestamp::{epoch_ms, system_time_to_epoch_ms, Timestamp};

verus! {

/// An object that is stored with the indexer.
pub struct NativePinnedObject {
    pub inner: Object,
}

impl NativePinnedObject {
    /// Shows an object.
    pub fn from_object(object: Object) -> (pinned: NativePinnedObject)
        ensures
            pinned.inner == object,
    {
        NativePinnedObject { inner: object }
    }

    /// The size of the object in bytes.
    pub fn size(&self) -> (size: u64)
        requires
            object_size(self.inner.slabs@) <= u64::MAX,
        ensures
            size == object_size(self.inner.slabs@),
    {
        size_of_slabs(&self.inner.slabs)
    }

    /// The number of slabs.
    pub fn slab_count(&self) -> (n: u32)
        ensures
            n == self.inner.slabs@.len() % 0x1_0000_0000,
    {
        count_slabs(&self.inner.slabs)
    }

    /// The slabs, ready to be written as JSON.
    pub fn slabs(&self) -> (json: Vec<SlabJson>)
        ensures
            slab_json_views(json@) == slabs_json(slab_views(self.inner.slabs@)),
            json@.len() == self.inner.slabs@.len(),
            forall|k: int|
                0 <= k < json@.len() ==> writes_slab(#[trigger] json@[k], self.inner.slabs@[k]),
    {
        slabs_from_indexd(&self.inner.slabs)
    }

    /// The metadata.
    pub fn metadata(&self) -> (metadata: Vec<u8>)
        ensures
            metadata@ == self.inner.metadata@,
    {
        bytes_of(self.inner.metadata.as_slice())
    }

    /// Replaces the metadata.
    pub fn update_metadata(&mut self, metadata: &[u8])
        ensures
            final(self).inner.metadata@ == metadata@,
            final(self).inner == (Object {
                metadata: final(self).inner.metadata,
                ..old(self).inner
            }),
    {
        self.inner.metadata = bytes_of(metadata);
    }

    /// When the object was created, in milliseconds since the Unix epoch.
    pub fn created_at(&self) -> (ms: u64)
        requires
            self.inner.created_at.valid(),
        ensures
            ms == epoch_ms(self.inner.created_at),
            self.inner.created_at.secs < 0 ==> ms == 0,
            self.inner.created_at.secs >= 0 ==> ms == self.inner.created_at.secs * 1000
                + self.inner.created_at.nanos as int / 1_000_000,
    {
        system_time_to_epoch_ms(self.inner.created_at)
    }

    /// When the object was last changed, in milliseconds since the Unix epoch.
    pub fn updated_at(&self) -> (ms: u64)
        requires
            self.inner.updated_at.valid(),
        ensures
            ms == epoch_ms(self.inner.updated_at),
            self.inner.updated_at.secs < 0 ==> ms == 0,
            self.inner.updated_at.secs >= 0 ==> ms == self.inner.updated_at.secs * 1000
                + self.inner.updated_at.nanos as int / 1_000_000,
    {
        system_time_to_epoch_ms(self.inner.updated_at)
    }

    /// The length of the data in each slab.
    pub fn slab_lengths(&self) -> (lengths: Vec<u32>)
        ensures
            lengths@ == Seq::new(
                self.inner.slabs@.len(),
                |i: int| self.inner.slabs@[i].length,
            ),
    {
        lengths_of_slabs(&self.inner.slabs)
    }
}

/// A change of an object.
pub struct NativeObjectEvent {
    event_id: String,
    event_deleted: bool,
    event_updated_at: u64,
    event_object: Option<NativePinnedObject>,
}

/// The contents of an event.
#[verifier::ext_equal]
pub struct ObjectEventView {
    pub id: Seq<char>,
    pub deleted: bool,
    pub updated_at: u64,
    pub object: Option<NativePinnedObject>,
}

impl View for NativeObjectEvent {
    type V = ObjectEventView;

    closed spec fn view(&self) -> ObjectEventView {
        ObjectEventView {
            id: self.event_id@,
            deleted: self.event_deleted,
            updated_at: self.event_updated_at,
            object: self.event_object,
        }
    }
}

impl NativeObjectEvent {
    /// Shows an event.
    pub fn new(
        id: &[u8; 32],
        deleted: bool,
        updated_at: Timestamp,
        object: Option<NativePinnedObject>,
    ) -> (event: NativeObjectEvent)
        requires
            updated_at.valid(),
        ensures
            event@ == (ObjectEventView {
                id: hash_text(id@),
                deleted,
                updated_at: epoch_ms(updated_at) as u64,
                object,
            }),
            event@.id == hash_text(id@),
            event@.deleted == deleted,
            event@.object == object,
            updated_at.secs < 0 ==> event@.updated_at == 0,
            updated_at.secs >= 0 ==> event@.updated_at == updated_at.secs * 1000
                + updated_at.nanos as int / 1_000_000,
    {
        NativeObjectEvent {
            event_id: format_hash(id),
            event_deleted: deleted,
            event_updated_at: system_time_to_epoch_ms(updated_at),
            event_object: object,
        }
    }

    /// The ID of the object.
    pub fn id(&self) -> (id: String)
        ensures
            id@ == self@.id,
    {
        self.event_id.clone()
    }

    /// Whether the object was deleted.
    pub fn deleted(&self) -> (deleted: bool)
        ensures
            deleted == self@.deleted,
    {
        self.event_deleted
    }

    /// When the change happened, in milliseconds since the Unix epoch.
    pub fn updated_at(&self) -> (ms: u64)
        ensures
            ms == self@.updated_at,
    {
        self.event_updated_at
    }

    /// The object, where there still is one.
    pub fn object(&self) -> (object: Option<&NativePinnedObject>)
        ensures
            object is Some <==> self@.object is Some,
            object matches Some(o) ==> self@.object == Some(*o),
    {
        self.event_object.as_ref()
    }
}

} // verus!
