//! Recovery of a slab's data shards.

use vstd::prelude::*;

use crate::download::{lemma_range_bytes, slab_range, striped, DownloadError};
use crate::slab_download::{filled, lemma_shards_present, slots, SlabDownloadView};

verus! {

/// Shards that a slab can have at most.
pub const MAX_SHARDS: usize = 256;

/// Whether enough shards are present to recover the `data` data shards of a slab that has
/// `parity` more: at least as many as there are data shards, all of one length.
pub open spec fn recoverable(data: nat, parity: nat, shards: Seq<Option<Seq<u8>>>) -> bool {
    &&& data > 0
    &&& parity > 0
    &&& data + parity <= MAX_SHARDS
    &&& shards.len() == data + parity
    &&& filled(shards) >= data
    &&& forall|i: int|
        0 <= i < shards.len() && (#[trigger] shards[i]) is Some ==> shards[i]->0.len() > 0
    &&& forall|i: int, j: int|
        0 <= i < shards.len() && 0 <= j < shards.len() && (#[trigger] shards[i]) is Some && (
        #[trigger] shards[j]) is Some ==> shards[i]->0.len() == shards[j]->0.len()
}

/// Whether `after` is `before` with every missing data shard filled in, at the length of the
/// shards that are present, and nothing else changed.
pub open spec fn completes(
    data: nat,
    before: Seq<Option<Seq<u8>>>,
    after: Seq<Option<Seq<u8>>>,
) -> bool {
    &&& after.len() == before.len()
    &&& forall|i: int|
        0 <= i < before.len() && (i >= data || before[i] is Some) ==> (#[trigger] after[i])
            == before[i]
    &&& forall|i: int| 0 <= i < before.len() && i < data ==> (#[trigger] after[i]) is Some
    &&& forall|i: int, j: int|
        0 <= i < before.len() && i < data && 0 <= j < before.len() && before[j] is Some ==> (
        #[trigger] after[i])->0.len() == (#[trigger] before[j])->0.len()
}

/// What `sia::erasure_coding` makes of the shards of a slab with `data` data shards and
/// `parity` parity shards: the shards with the data shards recovered, or the message of the
/// error.
pub uninterp spec fn reconstructed(
    data: nat,
    parity: nat,
    shards: Seq<Option<Seq<u8>>>,
) -> Result<Seq<Option<Seq<u8>>>, Seq<char>>;

/// Makes a `sia::erasure_coding::ErasureCoder` with `new` and calls `reconstruct_data_shards`
/// on it. The contract claims that this succeeds exactly where the shards are recoverable,
/// that success fills in the missing data shards and touches no other, and that after an
/// error the shards are as they were. Which bytes are filled in, and the words of an error,
/// are those of a function of the arguments.
#[verifier::external_body]
pub(crate) fn reconstruct_data_shards(
    data: usize,
    parity: usize,
    shards: &mut Vec<Option<Vec<u8>>>,
) -> (result: Result<(), String>)
    requires
        data + parity <= usize::MAX,
    ensures
        result is Ok <==> recoverable(data as nat, parity as nat, slots(old(shards)@)),
        result is Ok ==> {
            &&& reconstructed(data as nat, parity as nat, slots(old(shards)@)) == Ok::<
                Seq<Option<Seq<u8>>>,
                Seq<char>,
            >(slots(final(shards)@))
            &&& completes(data as nat, slots(old(shards)@), slots(final(shards)@))
        },
        result matches Err(message) ==> {
            &&& reconstructed(data as nat, parity as nat, slots(old(shards)@)) == Err::<
                Seq<Option<Seq<u8>>>,
                Seq<char>,
            >(message@)
            &&& final(shards)@ == old(shards)@
        },
{
    let coder = sia::erasure_coding::ErasureCoder::new(data, parity).map_err(|e| e.to_string())?;
    coder.reconstruct_data_shards(shards).map_err(|e| e.to_string())
}

/// Recovers the data shards of a slab from the shards that were downloaded.
pub fn recover_slab(min_shards: u8, shards: Vec<Option<Vec<u8>>>) -> (result: Result<
    Vec<Option<Vec<u8>>>,
    DownloadError,
>)
    requires
        min_shards <= shards.len(),
    ensures
        ({
            let data = min_shards as nat;
            let parity = (shards.len() - min_shards) as nat;
            let outcome = reconstructed(data, parity, slots(shards@));
            &&& result is Ok <==> recoverable(data, parity, slots(shards@))
            &&& result matches Ok(recovered) ==> {
                &&& outcome is Ok
                &&& completes(data, slots(shards@), outcome->Ok_0)
                &&& slots(recovered@) == outcome->Ok_0.take(min_shards as int)
            }
            &&& result matches Err(e) ==> {
                &&& e is Encoder
                &&& outcome == Err::<Seq<Option<Seq<u8>>>, Seq<char>>(e->Encoder_0@)
            }
        }),
        result matches Ok(recovered) ==> {
            &&& recovered@.len() == min_shards
            &&& forall|i: int|
                0 <= i < min_shards ==> {
                    &&& (#[trigger] recovered@[i]) is Some
                    &&& shards@[i] is Some ==> recovered@[i]->0@ == shards@[i]->0@
                }
        },
{
    let ghost given = shards@;
    let mut shards = shards;
    let data_shards: usize = min_shards as usize;
    let parity_shards: usize = shards.len() - data_shards;
    match reconstruct_data_shards(data_shards, parity_shards, &mut shards) {
        Ok(()) => {
            let ghost all = shards@;
            shards.truncate(data_shards);
            assert(slots(shards@) =~= slots(all).take(min_shards as int));
            assert forall|i: int| 0 <= i < min_shards implies {
                &&& (#[trigger] shards@[i]) is Some
                &&& given[i] is Some ==> shards@[i]->0@ == given[i]->0@
            } by {
                assert(slots(all)[i] is Some);
                assert(slots(given)[i] is Some ==> slots(all)[i] == slots(given)[i]);
            }
            Ok(shards)
        },
        Err(message) => Err(DownloadError::Encoder(message)),
    }
}

/// Whichever sectors answered, a finished download can be recovered, provided that the slab
/// has parity shards, that its shards are no more than the code allows, and that the reads
/// brought parts of one length.
pub proof fn lemma_finished_is_recoverable(v: SlabDownloadView, length: nat)
    requires
        v.inv(),
        v.remaining() == 0,
        0 < v.min_shards < v.sectors.len() <= MAX_SHARDS,
        length > 0,
        forall|i: int|
            0 <= i < v.shards.len() && (#[trigger] v.shards[i]) is Some ==> v.shards[i]->0.len()
                == length,
    ensures
        recoverable(
            v.min_shards as nat,
            (v.sectors.len() - v.min_shards) as nat,
            v.shards,
        ),
{
    lemma_shards_present(v);
}

/// Where the data shards themselves were read, the bytes that are delivered are those of the
/// slab: byte `k` after the skipped ones, striped over the recovered shards, is byte `x + k` of
/// the data that is striped over the whole shards.
pub proof fn lemma_data_shards_deliver(
    v: SlabDownloadView,
    shards: Seq<Seq<u8>>,
    recovered: Seq<Option<Seq<u8>>>,
    index: int,
    x: int,
    n: int,
    k: int,
)
    requires
        v.inv(),
        v.min_shards > 0,
        0 <= x,
        0 <= k < n,
        x + n <= 0x2_0000_0000,
        shards.len() == v.min_shards,
        v.offset == slab_range(index, v.min_shards, x, n).shard_offset,
        v.length == slab_range(index, v.min_shards, x, n).shard_length,
        forall|i: int|
            0 <= i < shards.len() ==> (#[trigger] shards[i]).len() >= v.offset + v.length,
        forall|i: int|
            0 <= i < shards.len() ==> (#[trigger] v.shards[i]) == Some(
                shards[i].subrange(v.offset as int, v.offset + v.length),
            ),
        completes(v.min_shards as nat, v.shards, recovered),
    ensures
        ({
            let skip = slab_range(index, v.min_shards, x, n).skip;
            let parts = Seq::new(shards.len(), |i: int| recovered[i]->0);
            striped(parts, v.min_shards, skip + k) == striped(shards, v.min_shards, x + k)
        }),
{
    lemma_range_bytes(index, v.min_shards, x, n, shards, k);
    let parts = Seq::new(shards.len(), |i: int| recovered[i]->0);
    assert forall|i: int| 0 <= i < shards.len() implies parts[i] == shards[i].subrange(
        v.offset as int,
        v.offset + v.length,
    ) by {
        assert(v.shards[i] is Some);
        assert(recovered[i] == v.shards[i]);
    }
    assert(parts =~= Seq::new(
        shards.len(),
        |s: int|
            shards[s].subrange(v.offset as int, v.offset + v.length),
    ));
}

} // verus!
