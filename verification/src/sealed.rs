//! The JSON forms of slabs and sealed objects, field by field.

use vstd::prelude::*;
use vstd::string::*;

use crate::base64_text::{
    base64_decode, base64_encode, base64_error, base64_len, base64_text, base64_value,
    lemma_base64_round_trip,
};
use crate::bytes::{array_of_64, encryption_key};
use crate::ids::{
    format_hash, format_key, hash_error, hash_text, hash_value, key_error, key_text, key_value,
    lemma_hash_text, lemma_key_text, parse_hash, parse_key,
};
use crate::object::{
    clone_slab, lemma_slab_valid, sector_views, slab_views, SealedObject, SealedObjectView, Sector,
    SectorView, Slab, SlabView,
};
use crate::timestamp::{
    at_millis, epoch_ms, epoch_ms_to_system_time, system_time_to_epoch_ms, MAX_MILLIS,
};

verus! {

/// A sector in JSON.
#[derive(Clone, Debug, PartialEq, Eq)]
pub struct SectorJson {
    pub root: String,
    pub host_key: String,
}

/// A slab in JSON. The key is in base64.
#[derive(Clone, Debug, PartialEq, Eq)]
pub struct SlabJson {
    pub encryption_key: String,
    pub min_shards: u8,
    pub sectors: Vec<SectorJson>,
    pub offset: u32,
    pub length: u32,
}

/// The contents of a sector in JSON.
#[verifier::ext_equal]
pub struct SectorJsonView {
    pub root: Seq<char>,
    pub host_key: Seq<char>,
}

/// The contents of a slab in JSON.
#[verifier::ext_equal]
pub struct SlabJsonView {
    pub encryption_key: Seq<char>,
    pub min_shards: u8,
    pub sectors: Seq<SectorJsonView>,
    pub offset: u32,
    pub length: u32,
}

impl View for SectorJson {
    type V = SectorJsonView;

    open spec fn view(&self) -> SectorJsonView {
        SectorJsonView { root: self.root@, host_key: self.host_key@ }
    }
}

impl View for SlabJson {
    type V = SlabJsonView;

    open spec fn view(&self) -> SlabJsonView {
        SlabJsonView {
            encryption_key: self.encryption_key@,
            min_shards: self.min_shards,
            sectors: Seq::new(self.sectors@.len(), |i: int| self.sectors@[i]@),
            offset: self.offset,
            length: self.length,
        }
    }
}

/// The JSON form of a sector.
pub open spec fn sector_json(sector: SectorView) -> SectorJsonView {
    SectorJsonView { root: hash_text(sector.root), host_key: key_text(sector.host_key) }
}

/// The JSON form of a slab.
pub open spec fn slab_json(slab: SlabView) -> SlabJsonView {
    SlabJsonView {
        encryption_key: base64_text(slab.encryption_key),
        min_shards: slab.min_shards,
        sectors: Seq::new(slab.sectors.len(), |i: int| sector_json(slab.sectors[i])),
        offset: slab.offset,
        length: slab.length,
    }
}

/// The sector that a JSON form stands for, or what is wrong with it.
pub open spec fn sector_value(json: SectorJsonView) -> Result<SectorView, Seq<char>> {
    match hash_value(json.root) {
        None => Err(hash_error(json.root)),
        Some(root) => match key_value(json.host_key) {
            None => Err(key_error(json.host_key)),
            Some(host_key) => Ok(SectorView { root, host_key }),
        },
    }
}

/// The sectors that JSON forms stand for, or what is wrong with the first bad one.
pub open spec fn sectors_value(json: Seq<SectorJsonView>) -> Result<Seq<SectorView>, Seq<char>>
    decreases json.len(),
{
    if json.len() == 0 {
        Ok(Seq::empty())
    } else {
        match sectors_value(json.drop_last()) {
            Err(e) => Err(e),
            Ok(sectors) => match sector_value(json.last()) {
                Err(e) => Err(e),
                Ok(sector) => Ok(sectors.push(sector)),
            },
        }
    }
}

/// The slab that a JSON form stands for, or what is wrong with it.
pub open spec fn slab_value(json: SlabJsonView) -> Result<SlabView, Seq<char>> {
    match base64_value(json.encryption_key) {
        None => Err(base64_error(json.encryption_key)),
        Some(encryption_key) => if encryption_key.len() != 32 {
            Err("invalid key length"@)
        } else {
            match sectors_value(json.sectors) {
                Err(e) => Err(e),
                Ok(sectors) => Ok(
                    SlabView {
                        encryption_key,
                        min_shards: json.min_shards,
                        sectors,
                        offset: json.offset,
                        length: json.length,
                    },
                ),
            }
        },
    }
}

/// The contents of a list of slabs in JSON.
pub open spec fn slab_json_views(json: Seq<SlabJson>) -> Seq<SlabJsonView> {
    Seq::new(json.len(), |i: int| json[i]@)
}

/// The JSON forms of slabs.
pub open spec fn slabs_json(slabs: Seq<SlabView>) -> Seq<SlabJsonView> {
    Seq::new(slabs.len(), |i: int| slab_json(slabs[i]))
}

/// The slabs that JSON forms stand for, or what is wrong with the first bad one.
pub open spec fn slabs_value(json: Seq<SlabJsonView>) -> Result<Seq<SlabView>, Seq<char>>
    decreases json.len(),
{
    if json.len() == 0 {
        Ok(Seq::empty())
    } else {
        match slabs_value(json.drop_last()) {
            Err(e) => Err(e),
            Ok(slabs) => match slab_value(json.last()) {
                Err(e) => Err(e),
                Ok(slab) => Ok(slabs.push(slab)),
            },
        }
    }
}

proof fn lemma_sectors_value_prefix(json: Seq<SectorJsonView>, n: int)
    requires
        0 <= n <= json.len(),
        sectors_value(json.take(n)) is Err,
    ensures
        sectors_value(json) == sectors_value(json.take(n)),
    decreases json.len(),
{
    if n < json.len() {
        assert(json.drop_last().take(n) =~= json.take(n));
        lemma_sectors_value_prefix(json.drop_last(), n);
    } else {
        assert(json.take(n) =~= json);
    }
}

proof fn lemma_slabs_value_prefix(json: Seq<SlabJsonView>, n: int)
    requires
        0 <= n <= json.len(),
        slabs_value(json.take(n)) is Err,
    ensures
        slabs_value(json) == slabs_value(json.take(n)),
    decreases json.len(),
{
    if n < json.len() {
        assert(json.drop_last().take(n) =~= json.take(n));
        lemma_slabs_value_prefix(json.drop_last(), n);
    } else {
        assert(json.take(n) =~= json);
    }
}

/// Whether `json` holds the texts of `slab`: its key in base64, and for each sector the text of
/// its root and of its host's key.
pub open spec fn writes_slab(json: SlabJson, slab: Slab) -> bool {
    &&& json.encryption_key@ == base64_text(slab.encryption_key@)
    &&& json.min_shards == slab.min_shards
    &&& json.offset == slab.offset
    &&& json.length == slab.length
    &&& json.sectors@.len() == slab.sectors@.len()
    &&& forall|k: int|
        0 <= k < slab.sectors@.len() ==> (#[trigger] json.sectors@[k]).root@ == hash_text(
            slab.sectors@[k].root@,
        ) && json.sectors@[k].host_key@ == key_text(slab.sectors@[k].host_key@)
}

/// Whether `slab` is what the texts in `json` stand for.
pub open spec fn reads_slab(json: SlabJson, slab: Slab) -> bool {
    &&& base64_value(json.encryption_key@) == Some(slab.encryption_key@)
    &&& slab.min_shards == json.min_shards
    &&& slab.offset == json.offset
    &&& slab.length == json.length
    &&& slab.sectors@.len() == json.sectors@.len()
    &&& forall|k: int|
        0 <= k < json.sectors@.len() ==> hash_value((#[trigger] json.sectors@[k]).root@) == Some(
            slab.sectors@[k].root@,
        ) && key_value(json.sectors@[k].host_key@) == Some(slab.sectors@[k].host_key@)
}

/// Sectors are read one for one; of several faults the first is reported, of a sector's root before
/// its host's key.
pub proof fn lemma_sectors_read(json: Seq<SectorJsonView>)
    ensures
        sectors_value(json) matches Ok(sectors) ==> {
            &&& sectors.len() == json.len()
            &&& forall|k: int|
                0 <= k < json.len() ==> hash_value((#[trigger] json[k]).root) == Some(
                    sectors[k].root,
                ) && key_value(json[k].host_key) == Some(sectors[k].host_key)
        },
        sectors_value(json) matches Err(e) ==> exists|k: int|
            {
                &&& 0 <= k < json.len()
                &&& forall|j: int|
                    0 <= j < k ==> hash_value((#[trigger] json[j]).root) is Some && key_value(
                        json[j].host_key,
                    ) is Some
                &&& if hash_value((#[trigger] json[k]).root) is None {
                    e == hash_error(json[k].root)
                } else {
                    key_value(json[k].host_key) is None && e == key_error(json[k].host_key)
                }
            },
    decreases json.len(),
{
    if json.len() > 0 {
        let rest = json.drop_last();
        lemma_sectors_read(rest);
        match sectors_value(rest) {
            Ok(sectors) => {
                assert forall|j: int| 0 <= j < rest.len() implies hash_value(
                    (#[trigger] json[j]).root,
                ) == Some(sectors[j].root) && key_value(json[j].host_key) == Some(
                    sectors[j].host_key,
                ) by {
                    assert(rest[j] == json[j]);
                }
                assert(json[json.len() - 1] == json.last());
                if sectors_value(json) is Ok {
                    let all = sectors_value(json)->Ok_0;
                    assert forall|k: int| 0 <= k < json.len() implies hash_value(
                        (#[trigger] json[k]).root,
                    ) == Some(all[k].root) && key_value(json[k].host_key) == Some(
                        all[k].host_key,
                    ) by {
                        if k < rest.len() {
                            assert(all[k] == sectors[k]);
                        }
                    }
                }
            },
            Err(e) => {
                let k = choose|k: int|
                    {
                        &&& 0 <= k < rest.len()
                        &&& forall|j: int|
                            0 <= j < k ==> hash_value((#[trigger] rest[j]).root) is Some
                                && key_value(rest[j].host_key) is Some
                        &&& if hash_value((#[trigger] rest[k]).root) is None {
                            e == hash_error(rest[k].root)
                        } else {
                            key_value(rest[k].host_key) is None && e == key_error(rest[k].host_key)
                        }
                    };
                assert(rest[k] == json[k]);
                assert forall|j: int| 0 <= j < k implies hash_value(
                    (#[trigger] json[j]).root,
                ) is Some && key_value(json[j].host_key) is Some by {
                    assert(rest[j] == json[j]);
                }
            },
        }
    }
}

impl SectorJson {
    /// Reads the sector.
    pub fn to_indexd(&self) -> (result: Result<Sector, String>)
        ensures
            result is Ok <==> sector_value(self@) is Ok,
            result matches Ok(sector) ==> sector_value(self@) == Ok::<SectorView, Seq<char>>(
                sector@,
            ),
            result matches Err(e) ==> sector_value(self@) == Err::<SectorView, Seq<char>>(e@),
            result is Ok <==> hash_value(self.root@) is Some && key_value(self.host_key@) is Some,
            result matches Ok(sector) ==> {
                &&& hash_value(self.root@) == Some(sector.root@)
                &&& key_value(self.host_key@) == Some(sector.host_key@)
            },
            result matches Err(e) ==> e@ == if hash_value(self.root@) is None {
                hash_error(self.root@)
            } else {
                key_error(self.host_key@)
            },
    {
        let root = match parse_hash(self.root.as_str()) {
            Ok(root) => root,
            Err(e) => {
                return Err(e);
            },
        };
        match parse_key(self.host_key.as_str()) {
            Ok(host_key) => Ok(Sector { root, host_key }),
            Err(e) => Err(e),
        }
    }
}

impl SlabJson {
    /// Writes the slab.
    pub fn from_indexd(s: Slab) -> (json: SlabJson)
        ensures
            json@ == slab_json(s@),
            json.encryption_key@ == base64_text(s.encryption_key@),
            json.min_shards == s.min_shards,
            json.offset == s.offset,
            json.length == s.length,
            json.sectors@.len() == s.sectors@.len(),
            forall|k: int|
                0 <= k < s.sectors@.len() ==> (#[trigger] json.sectors@[k]).root@ == hash_text(
                    s.sectors@[k].root@,
                ) && json.sectors@[k].host_key@ == key_text(s.sectors@[k].host_key@),
            writes_slab(json, s),
    {
        let mut sectors: Vec<SectorJson> = Vec::new();
        let mut i: usize = 0;
        while i < s.sectors.len()
            invariant
                i <= s.sectors.len(),
                sectors.len() == i,
                forall|k: int|
                    0 <= k < i ==> (#[trigger] sectors@[k])@ == sector_json(s.sectors@[k]@),
                forall|k: int|
                    0 <= k < i ==> (#[trigger] sectors@[k]).root@ == hash_text(
                        s.sectors@[k].root@,
                    ) && sectors@[k].host_key@ == key_text(s.sectors@[k].host_key@),
            decreases s.sectors.len() - i,
        {
            let sector = &s.sectors[i];
            sectors.push(
                SectorJson {
                    root: format_hash(&sector.root),
                    host_key: format_key(&sector.host_key),
                },
            );
            i = i + 1;
        }
        let json = SlabJson {
            encryption_key: base64_encode(s.encryption_key.as_slice()),
            min_shards: s.min_shards,
            sectors,
            offset: s.offset,
            length: s.length,
        };
        assert(json@ =~= slab_json(s@));
        json
    }

    /// Reads the slab.
    pub fn to_indexd(&self) -> (result: Result<Slab, String>)
        ensures
            result is Ok <==> slab_value(self@) is Ok,
            result matches Ok(slab) ==> slab_value(self@) == Ok::<SlabView, Seq<char>>(slab@),
            result matches Err(e) ==> slab_value(self@) == Err::<SlabView, Seq<char>>(e@),
            result matches Ok(slab) ==> {
                &&& base64_value(self.encryption_key@) == Some(slab.encryption_key@)
                &&& slab.min_shards == self.min_shards
                &&& slab.offset == self.offset
                &&& slab.length == self.length
                &&& slab.sectors@.len() == self.sectors@.len()
                &&& forall|k: int|
                    0 <= k < self.sectors@.len() ==> hash_value(
                        (#[trigger] self.sectors@[k]).root@,
                    ) == Some(slab.sectors@[k].root@) && key_value(self.sectors@[k].host_key@)
                        == Some(slab.sectors@[k].host_key@)
                &&& reads_slab(*self, slab)
            },
            result matches Err(e) ==> match base64_value(self.encryption_key@) {
                None => e@ == base64_error(self.encryption_key@),
                Some(key) => if key.len() != 32 {
                    e@ == "invalid key length"@
                } else {
                    exists|k: int|
                        {
                            &&& 0 <= k < self.sectors@.len()
                            &&& forall|j: int|
                                0 <= j < k ==> hash_value(
                                    (#[trigger] self.sectors@[j]).root@,
                                ) is Some && key_value(self.sectors@[j].host_key@) is Some
                            &&& if hash_value((#[trigger] self.sectors@[k]).root@) is None {
                                e@ == hash_error(self.sectors@[k].root@)
                            } else {
                                key_value(self.sectors@[k].host_key@) is None && e@ == key_error(
                                    self.sectors@[k].host_key@,
                                )
                            }
                        }
                },
            },
            result is Ok ==> base64_value(self.encryption_key@)->0.len() == 32,
    {
        let key = match base64_decode(self.encryption_key.as_str()) {
            Ok(key) => key,
            Err(e) => {
                return Err(e);
            },
        };
        let encryption_key = match encryption_key(key.as_slice()) {
            Ok(encryption_key) => encryption_key,
            Err(e) => {
                return Err(e);
            },
        };
        let ghost json = self@.sectors;
        let mut sectors: Vec<Sector> = Vec::new();
        let mut i: usize = 0;
        proof {
            assert(json.take(0) =~= Seq::<SectorJsonView>::empty());
            assert(sector_views(sectors@) =~= Seq::<SectorView>::empty());
        }
        while i < self.sectors.len()
            invariant
                i <= self.sectors.len(),
                json == self@.sectors,
                sectors_value(json.take(i as int)) == Ok::<Seq<SectorView>, Seq<char>>(
                    sector_views(sectors@),
                ),
                base64_value(self.encryption_key@) == Some(encryption_key@),
                encryption_key@.len() == 32,
                sectors@.len() == i,
                forall|k: int|
                    0 <= k < i ==> hash_value((#[trigger] self.sectors@[k]).root@) == Some(
                        sectors@[k].root@,
                    ) && key_value(self.sectors@[k].host_key@) == Some(sectors@[k].host_key@),
            decreases self.sectors.len() - i,
        {
            proof {
                assert(json.take(i + 1).drop_last() =~= json.take(i as int));
                assert(json.take(i + 1).last() == self.sectors@[i as int]@);
            }
            match self.sectors[i].to_indexd() {
                Ok(sector) => {
                    let ghost before = sector_views(sectors@);
                    sectors.push(sector);
                    assert(sector_views(sectors@) =~= before.push(
                        sector@,
                    ));
                },
                Err(e) => {
                    proof {
                        lemma_sectors_value_prefix(json, i + 1);
                        assert(hash_value(self.sectors@[i as int].root@) is None || key_value(
                            self.sectors@[i as int].host_key@,
                        ) is None);
                    }
                    return Err(e);
                },
            }
            i = i + 1;
        }
        assert(json.take(i as int) =~= json);
        let slab = Slab {
            encryption_key,
            min_shards: self.min_shards,
            sectors,
            offset: self.offset,
            length: self.length,
        };
        Ok(slab)
    }
}

/// Writes slabs, in order.
pub fn slabs_from_indexd(slabs: &Vec<Slab>) -> (json: Vec<SlabJson>)
    ensures
        slab_json_views(json@) == slabs_json(slab_views(slabs@)),
        json@.len() == slabs@.len(),
        forall|k: int|
            0 <= k < slabs@.len() ==> writes_slab(#[trigger] json@[k], slabs@[k]),
{
    let mut json: Vec<SlabJson> = Vec::new();
    let mut i: usize = 0;
    while i < slabs.len()
        invariant
            i <= slabs.len(),
            json.len() == i,
            forall|k: int| 0 <= k < i ==> (#[trigger] json@[k])@ == slab_json(slabs@[k]@),
            forall|k: int| 0 <= k < i ==> writes_slab(#[trigger] json@[k], slabs@[k]),
        decreases slabs.len() - i,
    {
        json.push(SlabJson::from_indexd(clone_slab(&slabs[i])));
        i = i + 1;
    }
    assert(slab_json_views(json@) =~= slabs_json(slab_views(slabs@)));
    json
}

/// Reads slabs, up to the first that is wrong.
pub fn slabs_to_indexd(json: &Vec<SlabJson>) -> (result: Result<Vec<Slab>, String>)
    ensures
        ({
            let value = slabs_value(slab_json_views(json@));
            &&& result is Ok <==> value is Ok
            &&& result matches Ok(slabs) ==> value == Ok::<Seq<SlabView>, Seq<char>>(
                slab_views(slabs@),
            )
            &&& result matches Err(e) ==> value == Err::<Seq<SlabView>, Seq<char>>(e@)
        }),
        result matches Ok(slabs) ==> slabs@.len() == json@.len() && forall|k: int|
            0 <= k < json@.len() ==> reads_slab(#[trigger] json@[k], slabs@[k]),
        result matches Err(e) ==> exists|k: int|
            {
                &&& 0 <= k < json@.len()
                &&& forall|j: int| 0 <= j < k ==> slab_value((#[trigger] json@[j])@) is Ok
                &&& slab_value((#[trigger] json@[k])@) == Err::<SlabView, Seq<char>>(e@)
            },
{
    let ghost views = slab_json_views(json@);
    let mut slabs: Vec<Slab> = Vec::new();
    let mut i: usize = 0;
    proof {
        assert(views.take(0) =~= Seq::<SlabJsonView>::empty());
        assert(slab_views(slabs@) =~= Seq::<SlabView>::empty());
    }
    while i < json.len()
        invariant
            i <= json.len(),
            views == slab_json_views(json@),
            slabs_value(views.take(i as int)) == Ok::<Seq<SlabView>, Seq<char>>(
                slab_views(slabs@),
            ),
            slabs@.len() == i,
            forall|k: int| 0 <= k < i ==> reads_slab(#[trigger] json@[k], slabs@[k]),
            forall|k: int| 0 <= k < i ==> slab_value((#[trigger] json@[k])@) is Ok,
        decreases json.len() - i,
    {
        proof {
            assert(views.take(i + 1).drop_last() =~= views.take(i as int));
            assert(views.take(i + 1).last() == json@[i as int]@);
        }
        match json[i].to_indexd() {
            Ok(slab) => {
                let ghost before = slab_views(slabs@);
                slabs.push(slab);
                assert(slab_views(slabs@) =~= before.push(slab@));
            },
            Err(e) => {
                proof {
                    lemma_slabs_value_prefix(views, i + 1);
                    assert(slab_value(json@[i as int]@) == Err::<SlabView, Seq<char>>(e@));
                }
                return Err(e);
            },
        }
        i = i + 1;
    }
    assert(views.take(i as int) =~= views);
    Ok(slabs)
}

proof fn lemma_sectors_round_trip(sectors: Seq<SectorView>)
    requires
        forall|i: int| 0 <= i < sectors.len() ==> (#[trigger] sectors[i]).valid(),
    ensures
        sectors_value(Seq::new(sectors.len(), |i: int| sector_json(sectors[i]))) == Ok::<
            Seq<SectorView>,
            Seq<char>,
        >(sectors),
    decreases sectors.len(),
{
    let json = Seq::new(sectors.len(), |i: int| sector_json(sectors[i]));
    if sectors.len() > 0 {
        let rest = sectors.drop_last();
        assert forall|i: int| 0 <= i < rest.len() implies (#[trigger] rest[i]).valid() by {
            assert(rest[i] == sectors[i]);
        }
        lemma_sectors_round_trip(rest);
        assert(json.drop_last() =~= Seq::new(rest.len(), |i: int| sector_json(rest[i])));
        let last = sectors.last();
        assert(last == sectors[sectors.len() - 1]);
        lemma_hash_text(last.root);
        lemma_key_text(last.host_key);
        assert(rest.push(last) =~= sectors);
    } else {
        assert(sectors =~= Seq::<SectorView>::empty());
    }
}

/// A slab is read back from its JSON form.
pub proof fn lemma_slab_round_trip(slab: SlabView)
    requires
        slab.valid(),
    ensures
        slab_value(slab_json(slab)) == Ok::<SlabView, Seq<char>>(slab),
{
    lemma_base64_round_trip(slab.encryption_key);
    lemma_sectors_round_trip(slab.sectors);
}

/// Slabs are read back from their JSON forms.
pub proof fn lemma_slabs_round_trip(slabs: Seq<SlabView>)
    requires
        forall|i: int| 0 <= i < slabs.len() ==> (#[trigger] slabs[i]).valid(),
    ensures
        slabs_value(slabs_json(slabs)) == Ok::<Seq<SlabView>, Seq<char>>(slabs),
    decreases slabs.len(),
{
    if slabs.len() > 0 {
        let rest = slabs.drop_last();
        assert forall|i: int| 0 <= i < rest.len() implies (#[trigger] rest[i]).valid() by {
            assert(rest[i] == slabs[i]);
        }
        lemma_slabs_round_trip(rest);
        assert(slabs_json(slabs).drop_last() =~= slabs_json(rest));
        assert(slabs.last() == slabs[slabs.len() - 1]);
        lemma_slab_round_trip(slabs.last());
        assert(rest.push(slabs.last()) =~= slabs);
    } else {
        assert(slabs =~= Seq::<SlabView>::empty());
    }
}

/// A sealed object in JSON. Binary fields are in base64, times in milliseconds since the Unix
/// epoch.
#[derive(Clone, Debug, PartialEq, Eq)]
pub struct SealedObjectJson {
    pub id: String,
    pub encrypted_data_key: String,
    pub encrypted_metadata_key: String,
    pub slabs: Vec<SlabJson>,
    pub encrypted_metadata: String,
    pub data_signature: String,
    pub metadata_signature: String,
    pub created_at: u64,
    pub updated_at: u64,
}

/// The contents of a sealed object in JSON.
#[verifier::ext_equal]
pub struct SealedObjectJsonView {
    pub id: Seq<char>,
    pub encrypted_data_key: Seq<char>,
    pub encrypted_metadata_key: Seq<char>,
    pub slabs: Seq<SlabJsonView>,
    pub encrypted_metadata: Seq<char>,
    pub data_signature: Seq<char>,
    pub metadata_signature: Seq<char>,
    pub created_at: u64,
    pub updated_at: u64,
}

impl View for SealedObjectJson {
    type V = SealedObjectJsonView;

    open spec fn view(&self) -> SealedObjectJsonView {
        SealedObjectJsonView {
            id: self.id@,
            encrypted_data_key: self.encrypted_data_key@,
            encrypted_metadata_key: self.encrypted_metadata_key@,
            slabs: slab_json_views(self.slabs@),
            encrypted_metadata: self.encrypted_metadata@,
            data_signature: self.data_signature@,
            metadata_signature: self.metadata_signature@,
            created_at: self.created_at,
            updated_at: self.updated_at,
        }
    }
}

/// The JSON form of a sealed object whose ID is `id`.
pub open spec fn sealed_json(sealed: SealedObjectView, id: Seq<u8>) -> SealedObjectJsonView {
    SealedObjectJsonView {
        id: hash_text(id),
        encrypted_data_key: base64_text(sealed.encrypted_data_key),
        encrypted_metadata_key: base64_text(sealed.encrypted_metadata_key),
        slabs: slabs_json(sealed.slabs),
        encrypted_metadata: base64_text(sealed.encrypted_metadata),
        data_signature: base64_text(sealed.data_signature),
        metadata_signature: base64_text(sealed.metadata_signature),
        created_at: epoch_ms(sealed.created_at) as u64,
        updated_at: epoch_ms(sealed.updated_at) as u64,
    }
}

/// The bytes that a base64 field stands for, or what is wrong with it.
pub open spec fn base64_field(s: Seq<char>) -> Result<Seq<u8>, Seq<char>> {
    match base64_value(s) {
        Some(bytes) => Ok(bytes),
        None => Err(base64_error(s)),
    }
}

/// The sealed object that a JSON form stands for, or what is wrong with it. Of several faults
/// the first is reported: those of the two signatures' text, of the data key, the metadata key,
/// the slabs and the metadata, and last the lengths of the signatures. The ID is not read.
pub open spec fn sealed_value(json: SealedObjectJsonView) -> Result<SealedObjectView, Seq<char>> {
    match base64_field(json.data_signature) {
        Err(e) => Err(e),
        Ok(data_signature) => match base64_field(json.metadata_signature) {
            Err(e) => Err(e),
            Ok(metadata_signature) => match base64_field(json.encrypted_data_key) {
                Err(e) => Err(e),
                Ok(encrypted_data_key) => match base64_field(json.encrypted_metadata_key) {
                    Err(e) => Err(e),
                    Ok(encrypted_metadata_key) => match slabs_value(json.slabs) {
                        Err(e) => Err(e),
                        Ok(slabs) => match base64_field(json.encrypted_metadata) {
                            Err(e) => Err(e),
                            Ok(encrypted_metadata) => if data_signature.len() != 64
                                || metadata_signature.len() != 64 {
                                Err("Invalid length"@)
                            } else {
                                Ok(
                                    SealedObjectView {
                                        encrypted_data_key,
                                        encrypted_metadata_key,
                                        slabs,
                                        encrypted_metadata,
                                        data_signature,
                                        metadata_signature,
                                        created_at: at_millis(json.created_at as int),
                                        updated_at: at_millis(json.updated_at as int),
                                    },
                                )
                            },
                        },
                    },
                },
            },
        },
    }
}

impl SealedObjectJson {
    /// Writes the sealed object whose ID is `id`.
    pub fn from_indexd(s: SealedObject, id: &[u8; 32]) -> (json: SealedObjectJson)
        requires
            s.created_at.valid(),
            s.updated_at.valid(),
            base64_len(s.encrypted_data_key@.len() as int) <= isize::MAX,
            base64_len(s.encrypted_metadata_key@.len() as int) <= isize::MAX,
            base64_len(s.encrypted_metadata@.len() as int) <= isize::MAX,
        ensures
            json@ == sealed_json(s@, id@),
            json.id@ == hash_text(id@),
            json.encrypted_data_key@ == base64_text(s.encrypted_data_key@),
            json.encrypted_metadata_key@ == base64_text(s.encrypted_metadata_key@),
            json.encrypted_metadata@ == base64_text(s.encrypted_metadata@),
            json.data_signature@ == base64_text(s.data_signature@),
            json.metadata_signature@ == base64_text(s.metadata_signature@),
            json.slabs@.len() == s.slabs@.len(),
            forall|k: int|
                0 <= k < s.slabs@.len() ==> writes_slab(#[trigger] json.slabs@[k], s.slabs@[k]),
            s.created_at.secs < 0 ==> json.created_at == 0,
            s.created_at.secs >= 0 ==> json.created_at == s.created_at.secs * 1000
                + s.created_at.nanos as int / 1_000_000,
            s.updated_at.secs < 0 ==> json.updated_at == 0,
            s.updated_at.secs >= 0 ==> json.updated_at == s.updated_at.secs * 1000
                + s.updated_at.nanos as int / 1_000_000,
    {
        SealedObjectJson {
            id: format_hash(id),
            encrypted_data_key: base64_encode(s.encrypted_data_key.as_slice()),
            encrypted_metadata_key: base64_encode(s.encrypted_metadata_key.as_slice()),
            slabs: slabs_from_indexd(&s.slabs),
            encrypted_metadata: base64_encode(s.encrypted_metadata.as_slice()),
            data_signature: base64_encode(s.data_signature.as_slice()),
            metadata_signature: base64_encode(s.metadata_signature.as_slice()),
            created_at: system_time_to_epoch_ms(s.created_at),
            updated_at: system_time_to_epoch_ms(s.updated_at),
        }
    }

    /// Reads the sealed object. The times need not be ones that a calendar date can be given
    /// to.
    pub fn to_indexd(&self) -> (result: Result<SealedObject, String>)
        ensures
            result is Ok <==> sealed_value(self@) is Ok,
            result matches Ok(sealed) ==> {
                &&& sealed_value(self@) == Ok::<SealedObjectView, Seq<char>>(sealed@)
                &&& sealed@.valid() <==> self.created_at <= MAX_MILLIS && self.updated_at
                    <= MAX_MILLIS
            },
            result matches Err(e) ==> sealed_value(self@) == Err::<SealedObjectView, Seq<char>>(
                e@,
            ),
            result matches Ok(sealed) ==> {
                &&& base64_value(self.encrypted_data_key@) == Some(sealed.encrypted_data_key@)
                &&& base64_value(self.encrypted_metadata_key@) == Some(
                    sealed.encrypted_metadata_key@,
                )
                &&& base64_value(self.encrypted_metadata@) == Some(sealed.encrypted_metadata@)
                &&& base64_value(self.data_signature@) == Some(sealed.data_signature@)
                &&& base64_value(self.metadata_signature@) == Some(sealed.metadata_signature@)
                &&& sealed.slabs@.len() == self.slabs@.len()
                &&& forall|k: int|
                    0 <= k < self.slabs@.len() ==> reads_slab(
                        #[trigger] self.slabs@[k],
                        sealed.slabs@[k],
                    )
                &&& sealed.created_at.secs * 1000 + sealed.created_at.nanos as int / 1_000_000
                    == self.created_at
                &&& sealed.created_at.nanos < 1_000_000_000 && sealed.created_at.nanos % 1_000_000
                    == 0
                &&& sealed.updated_at.secs * 1000 + sealed.updated_at.nanos as int / 1_000_000
                    == self.updated_at
                &&& sealed.updated_at.nanos < 1_000_000_000 && sealed.updated_at.nanos % 1_000_000
                    == 0
            },
            result matches Err(e) ==> if base64_value(self.data_signature@) is None {
                e@ == base64_error(self.data_signature@)
            } else if base64_value(self.metadata_signature@) is None {
                e@ == base64_error(self.metadata_signature@)
            } else if base64_value(self.encrypted_data_key@) is None {
                e@ == base64_error(self.encrypted_data_key@)
            } else if base64_value(self.encrypted_metadata_key@) is None {
                e@ == base64_error(self.encrypted_metadata_key@)
            } else if slabs_value(slab_json_views(self.slabs@)) is Err {
                exists|k: int|
                    {
                        &&& 0 <= k < self.slabs@.len()
                        &&& forall|j: int|
                            0 <= j < k ==> slab_value((#[trigger] self.slabs@[j])@) is Ok
                        &&& slab_value((#[trigger] self.slabs@[k])@) == Err::<SlabView, Seq<char>>(
                            e@,
                        )
                    }
            } else if base64_value(self.encrypted_metadata@) is None {
                e@ == base64_error(self.encrypted_metadata@)
            } else {
                &&& base64_value(self.data_signature@)->0.len() != 64 || base64_value(
                    self.metadata_signature@,
                )->0.len() != 64
                &&& e@ == "Invalid length"@
            },
    {
        let data_signature = match base64_decode(self.data_signature.as_str()) {
            Ok(bytes) => bytes,
            Err(e) => {
                return Err(e);
            },
        };
        let metadata_signature = match base64_decode(self.metadata_signature.as_str()) {
            Ok(bytes) => bytes,
            Err(e) => {
                return Err(e);
            },
        };
        let encrypted_data_key = match base64_decode(self.encrypted_data_key.as_str()) {
            Ok(bytes) => bytes,
            Err(e) => {
                return Err(e);
            },
        };
        let encrypted_metadata_key = match base64_decode(self.encrypted_metadata_key.as_str()) {
            Ok(bytes) => bytes,
            Err(e) => {
                return Err(e);
            },
        };
        let slabs = match slabs_to_indexd(&self.slabs) {
            Ok(slabs) => slabs,
            Err(e) => {
                return Err(e);
            },
        };
        let encrypted_metadata = match base64_decode(self.encrypted_metadata.as_str()) {
            Ok(bytes) => bytes,
            Err(e) => {
                return Err(e);
            },
        };
        if data_signature.len() != 64 || metadata_signature.len() != 64 {
            return Err("Invalid length".to_string());
        }
        let sealed = SealedObject {
            encrypted_data_key,
            encrypted_metadata_key,
            slabs,
            encrypted_metadata,
            data_signature: array_of_64(data_signature.as_slice()),
            metadata_signature: array_of_64(metadata_signature.as_slice()),
            created_at: epoch_ms_to_system_time(self.created_at),
            updated_at: epoch_ms_to_system_time(self.updated_at),
        };
        proof {
            assert forall|i: int| 0 <= i < sealed@.slabs.len() implies (
            #[trigger] sealed@.slabs[i]).valid() by {
                lemma_slab_valid(sealed.slabs@[i]);
            }
        }
        Ok(sealed)
    }
}

/// A sealed object is read back from its JSON form, with its times rounded down to the
/// millisecond and those before the Unix epoch moved to it.
pub proof fn lemma_sealed_round_trip(sealed: SealedObjectView, id: Seq<u8>)
    requires
        sealed.valid(),
    ensures
        sealed_value(sealed_json(sealed, id)) == Ok::<SealedObjectView, Seq<char>>(
            SealedObjectView {
                created_at: at_millis(epoch_ms(sealed.created_at)),
                updated_at: at_millis(epoch_ms(sealed.updated_at)),
                ..sealed
            },
        ),
{
    lemma_base64_round_trip(sealed.data_signature);
    lemma_base64_round_trip(sealed.metadata_signature);
    lemma_base64_round_trip(sealed.encrypted_data_key);
    lemma_base64_round_trip(sealed.encrypted_metadata_key);
    lemma_base64_round_trip(sealed.encrypted_metadata);
    lemma_slabs_round_trip(sealed.slabs);
}

/// Each field of a sealed object is written under its own name: binary fields in base64, the ID in
/// hexadecimal, times in whole milliseconds since the Unix epoch, slabs one for one.
pub proof fn lemma_sealed_json_fields(sealed: SealedObjectView, id: Seq<u8>)
    requires
        sealed.valid(),
    ensures
        ({
            let json = sealed_json(sealed, id);
            &&& json.id == hash_text(id)
            &&& json.encrypted_data_key == base64_text(sealed.encrypted_data_key)
            &&& json.encrypted_metadata_key == base64_text(sealed.encrypted_metadata_key)
            &&& json.encrypted_metadata == base64_text(sealed.encrypted_metadata)
            &&& json.data_signature == base64_text(sealed.data_signature)
            &&& json.metadata_signature == base64_text(sealed.metadata_signature)
            &&& sealed.created_at.secs >= 0 ==> json.created_at == sealed.created_at.secs * 1000
                + sealed.created_at.nanos as int / 1_000_000
            &&& sealed.updated_at.secs >= 0 ==> json.updated_at == sealed.updated_at.secs * 1000
                + sealed.updated_at.nanos as int / 1_000_000
            &&& sealed.created_at.secs < 0 ==> json.created_at == 0
            &&& sealed.updated_at.secs < 0 ==> json.updated_at == 0
            &&& json.slabs.len() == sealed.slabs.len()
            &&& forall|i: int|
                0 <= i < sealed.slabs.len() ==> {
                    &&& (#[trigger] json.slabs[i]).encryption_key == base64_text(
                        sealed.slabs[i].encryption_key,
                    )
                    &&& json.slabs[i].min_shards == sealed.slabs[i].min_shards
                    &&& json.slabs[i].offset == sealed.slabs[i].offset
                    &&& json.slabs[i].length == sealed.slabs[i].length
                    &&& json.slabs[i].sectors.len() == sealed.slabs[i].sectors.len()
                }
            &&& forall|i: int, k: int|
                0 <= i < sealed.slabs.len() && 0 <= k < sealed.slabs[i].sectors.len() ==> {
                    &&& (#[trigger] json.slabs[i].sectors[k]).root == hash_text(
                        sealed.slabs[i].sectors[k].root,
                    )
                    &&& json.slabs[i].sectors[k].host_key == key_text(
                        sealed.slabs[i].sectors[k].host_key,
                    )
                }
        }),
{
}

/// Each field of a sealed object is read from the field of the same name.
pub proof fn lemma_sealed_value_fields(json: SealedObjectJsonView)
    ensures
        sealed_value(json) matches Ok(sealed) ==> {
            &&& base64_value(json.encrypted_data_key) == Some(sealed.encrypted_data_key)
            &&& base64_value(json.encrypted_metadata_key) == Some(sealed.encrypted_metadata_key)
            &&& base64_value(json.encrypted_metadata) == Some(sealed.encrypted_metadata)
            &&& base64_value(json.data_signature) == Some(sealed.data_signature)
            &&& base64_value(json.metadata_signature) == Some(sealed.metadata_signature)
            &&& sealed.data_signature.len() == 64
            &&& sealed.metadata_signature.len() == 64
            &&& sealed.created_at.secs * 1000 + sealed.created_at.nanos as int / 1_000_000
                == json.created_at
            &&& sealed.updated_at.secs * 1000 + sealed.updated_at.nanos as int / 1_000_000
                == json.updated_at
            &&& slabs_value(json.slabs) == Ok::<Seq<SlabView>, Seq<char>>(sealed.slabs)
        },
{
}

/// Slabs are read one for one, each field from the field of the same name; of several bad slabs
/// the first is reported.
pub proof fn lemma_slabs_read(json: Seq<SlabJsonView>)
    ensures
        slabs_value(json) matches Ok(slabs) ==> {
            &&& slabs.len() == json.len()
            &&& forall|k: int|
                0 <= k < json.len() ==> {
                    &&& base64_value((#[trigger] json[k]).encryption_key) == Some(
                        slabs[k].encryption_key,
                    )
                    &&& slabs[k].encryption_key.len() == 32
                    &&& slabs[k].min_shards == json[k].min_shards
                    &&& slabs[k].offset == json[k].offset
                    &&& slabs[k].length == json[k].length
                    &&& sectors_value(json[k].sectors) == Ok::<Seq<SectorView>, Seq<char>>(
                        slabs[k].sectors,
                    )
                }
        },
        slabs_value(json) matches Err(e) ==> exists|k: int|
            {
                &&& 0 <= k < json.len()
                &&& forall|j: int| 0 <= j < k ==> slab_value(#[trigger] json[j]) is Ok
                &&& slab_value(#[trigger] json[k]) == Err::<SlabView, Seq<char>>(e)
            },
    decreases json.len(),
{
    if json.len() > 0 {
        let rest = json.drop_last();
        lemma_slabs_read(rest);
        assert(json[json.len() - 1] == json.last());
        match slabs_value(rest) {
            Ok(slabs) => {
                assert forall|j: int| 0 <= j < rest.len() implies slab_value(
                    #[trigger] json[j],
                ) is Ok by {
                    assert(rest[j] == json[j]);
                }
                if slabs_value(json) is Ok {
                    let all = slabs_value(json)->Ok_0;
                    assert forall|k: int| 0 <= k < json.len() implies {
                        &&& base64_value((#[trigger] json[k]).encryption_key) == Some(
                            all[k].encryption_key,
                        )
                        &&& all[k].encryption_key.len() == 32
                        &&& all[k].min_shards == json[k].min_shards
                        &&& all[k].offset == json[k].offset
                        &&& all[k].length == json[k].length
                        &&& sectors_value(json[k].sectors) == Ok::<Seq<SectorView>, Seq<char>>(
                            all[k].sectors,
                        )
                    } by {
                        if k < rest.len() {
                            assert(all[k] == slabs[k]);
                            assert(rest[k] == json[k]);
                        }
                    }
                }
            },
            Err(e) => {
                let k = choose|k: int|
                    {
                        &&& 0 <= k < rest.len()
                        &&& forall|j: int| 0 <= j < k ==> slab_value(#[trigger] rest[j]) is Ok
                        &&& slab_value(#[trigger] rest[k]) == Err::<SlabView, Seq<char>>(e)
                    };
                assert(rest[k] == json[k]);
                assert forall|j: int| 0 <= j < k implies slab_value(#[trigger] json[j]) is Ok by {
                    assert(rest[j] == json[j]);
                }
            },
        }
    }
}

} // verus!
