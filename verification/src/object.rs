//! Objects and the slabs that hold their data.

use vstd::prelude::*;

use crate::timestamp::Timestamp;

verus! {

/// One shard of a slab: the root of the sector and the key of the host that stores it.
#[derive(Clone, Copy, Debug, PartialEq, Eq)]
pub struct Sector {
    pub root: [u8; 32],
    pub host_key: [u8; 32],
}

/// An erasure-coded piece of an object.
#[derive(Clone, Debug, PartialEq, Eq)]
pub struct Slab {
    pub encryption_key: [u8; 32],
    /// Shards needed to recover the data.
    pub min_shards: u8,
    pub sectors: Vec<Sector>,
    /// Where the object's bytes begin in the slab's data.
    pub offset: u32,
    /// How many bytes of the object the slab holds.
    pub length: u32,
}

/// The position in the object at which slab `i` begins.
pub open spec fn stream_pos(slabs: Seq<Slab>, i: int) -> int
    decreases i,
{
    if i <= 0 {
        0
    } else {
        stream_pos(slabs, i - 1) + slabs[i - 1].length
    }
}

/// The bytes in the object.
pub open spec fn object_size(slabs: Seq<Slab>) -> int {
    stream_pos(slabs, slabs.len() as int)
}

/// Later slabs begin no earlier.
pub proof fn lemma_stream_pos_monotonic(slabs: Seq<Slab>, i: int, j: int)
    requires
        i <= j,
    ensures
        0 <= stream_pos(slabs, i) <= stream_pos(slabs, j),
    decreases j,
{
    if j > 0 {
        lemma_stream_pos_monotonic(slabs, if i < j { i } else { j - 1 }, j - 1);
    }
}

/// The total size of the slabs of an object.
pub fn size_of_slabs(slabs: &Vec<Slab>) -> (size: u64)
    requires
        object_size(slabs@) <= u64::MAX,
    ensures
        size == object_size(slabs@),
{
    slab_start(slabs, slabs.len())
}

/// The contents of a sector's descriptor.
#[verifier::ext_equal]
pub struct SectorView {
    pub root: Seq<u8>,
    pub host_key: Seq<u8>,
}

/// The contents of a slab's descriptor.
#[verifier::ext_equal]
pub struct SlabView {
    pub encryption_key: Seq<u8>,
    pub min_shards: u8,
    pub sectors: Seq<SectorView>,
    pub offset: u32,
    pub length: u32,
}

impl View for Sector {
    type V = SectorView;

    open spec fn view(&self) -> SectorView {
        SectorView { root: self.root@, host_key: self.host_key@ }
    }
}

impl View for Slab {
    type V = SlabView;

    open spec fn view(&self) -> SlabView {
        SlabView {
            encryption_key: self.encryption_key@,
            min_shards: self.min_shards,
            sectors: sector_views(self.sectors@),
            offset: self.offset,
            length: self.length,
        }
    }
}

/// The contents of a list of sectors.
pub open spec fn sector_views(sectors: Seq<Sector>) -> Seq<SectorView> {
    Seq::new(sectors.len(), |i: int| sectors[i]@)
}

/// The contents of a list of slabs.
pub open spec fn slab_views(slabs: Seq<Slab>) -> Seq<SlabView> {
    Seq::new(slabs.len(), |i: int| slabs[i]@)
}

impl SectorView {
    /// Roots and keys have 32 bytes.
    pub open spec fn valid(self) -> bool {
        self.root.len() == 32 && self.host_key.len() == 32
    }
}

impl SlabView {
    /// Roots and keys have 32 bytes.
    pub open spec fn valid(self) -> bool {
        &&& self.encryption_key.len() == 32
        &&& forall|i: int| 0 <= i < self.sectors.len() ==> (#[trigger] self.sectors[i]).valid()
    }
}

/// What is in a slab has the lengths of its fields' types.
pub proof fn lemma_slab_valid(slab: Slab)
    ensures
        slab@.valid(),
{
    assert forall|i: int| 0 <= i < slab@.sectors.len() implies (
    #[trigger] slab@.sectors[i]).valid() by {
        assert(slab@.sectors[i] == slab.sectors@[i]@);
    }
}

/// Copies a slab.
pub fn clone_slab(slab: &Slab) -> (copy: Slab)
    ensures
        copy@ == slab@,
        copy.encryption_key == slab.encryption_key,
        copy.min_shards == slab.min_shards,
        copy.sectors@ == slab.sectors@,
        copy.offset == slab.offset,
        copy.length == slab.length,
{
    let mut sectors: Vec<Sector> = Vec::new();
    let mut i: usize = 0;
    while i < slab.sectors.len()
        invariant
            i <= slab.sectors.len(),
            sectors@ =~= slab.sectors@.take(i as int),
        decreases slab.sectors.len() - i,
    {
        sectors.push(slab.sectors[i]);
        i = i + 1;
    }
    let copy = Slab {
        encryption_key: slab.encryption_key,
        min_shards: slab.min_shards,
        sectors,
        offset: slab.offset,
        length: slab.length,
    };
    assert(copy.sectors@ =~= slab.sectors@);
    assert(copy@ =~= slab@);
    copy
}

/// An object whose keys and metadata are encrypted for its owner.
#[derive(Clone, Debug, PartialEq, Eq)]
pub struct SealedObject {
    pub encrypted_data_key: Vec<u8>,
    pub encrypted_metadata_key: Vec<u8>,
    pub slabs: Vec<Slab>,
    pub encrypted_metadata: Vec<u8>,
    pub data_signature: [u8; 64],
    pub metadata_signature: [u8; 64],
    pub created_at: Timestamp,
    pub updated_at: Timestamp,
}

/// The contents of a sealed object.
#[verifier::ext_equal]
pub struct SealedObjectView {
    pub encrypted_data_key: Seq<u8>,
    pub encrypted_metadata_key: Seq<u8>,
    pub slabs: Seq<SlabView>,
    pub encrypted_metadata: Seq<u8>,
    pub data_signature: Seq<u8>,
    pub metadata_signature: Seq<u8>,
    pub created_at: Timestamp,
    pub updated_at: Timestamp,
}

impl View for SealedObject {
    type V = SealedObjectView;

    open spec fn view(&self) -> SealedObjectView {
        SealedObjectView {
            encrypted_data_key: self.encrypted_data_key@,
            encrypted_metadata_key: self.encrypted_metadata_key@,
            slabs: slab_views(self.slabs@),
            encrypted_metadata: self.encrypted_metadata@,
            data_signature: self.data_signature@,
            metadata_signature: self.metadata_signature@,
            created_at: self.created_at,
            updated_at: self.updated_at,
        }
    }
}

impl SealedObjectView {
    /// The fields have the lengths of their types, and calendar dates can be given to the
    /// times.
    pub open spec fn valid(self) -> bool {
        &&& forall|i: int| 0 <= i < self.slabs.len() ==> (#[trigger] self.slabs[i]).valid()
        &&& self.data_signature.len() == 64
        &&& self.metadata_signature.len() == 64
        &&& self.created_at.valid()
        &&& self.updated_at.valid()
    }
}

/// An object that its owner has opened.
#[derive(Clone, Debug, PartialEq, Eq)]
pub struct Object {
    pub encryption_key: [u8; 32],
    pub slabs: Vec<Slab>,
    pub metadata: Vec<u8>,
    pub created_at: Timestamp,
    pub updated_at: Timestamp,
}

/// The low 32 bits of the number of slabs, which is all of it but for absurd objects.
pub fn count_slabs(slabs: &Vec<Slab>) -> (n: u32)
    ensures
        n == slabs@.len() % 0x1_0000_0000,
{
    (slabs.len() as u64 % 0x1_0000_0000) as u32
}

/// The lengths of slabs, in order.
pub fn lengths_of_slabs(slabs: &Vec<Slab>) -> (lengths: Vec<u32>)
    ensures
        lengths@ == Seq::new(slabs@.len(), |i: int| slabs@[i].length),
{
    let mut lengths: Vec<u32> = Vec::new();
    let mut i: usize = 0;
    while i < slabs.len()
        invariant
            i <= slabs.len(),
            lengths@ =~= Seq::new(i as nat, |k: int| slabs@[k].length),
        decreases slabs.len() - i,
    {
        lengths.push(slabs[i].length);
        i = i + 1;
    }
    lengths
}

/// The position in the object at which slab `index` begins.
pub fn slab_start(slabs: &Vec<Slab>, index: usize) -> (start: u64)
    requires
        index <= slabs.len(),
        object_size(slabs@) <= u64::MAX,
    ensures
        start == stream_pos(slabs@, index as int),
{
    let mut start: u64 = 0;
    let mut i: usize = 0;
    while i < index
        invariant
            i <= index <= slabs.len(),
            start == stream_pos(slabs@, i as int),
            object_size(slabs@) <= u64::MAX,
        decreases index - i,
    {
        proof {
            lemma_stream_pos_monotonic(slabs@, i + 1, slabs.len() as int);
        }
        start = start + slabs[i].length as u64;
        i = i + 1;
    }
    start
}

} // verus!
