//! The download of one slab: which sectors to ask for, and when to stop.
//!
//! A `SlabDownload` decides and keeps the shards; its owner performs the reads. The owner starts
//! the reads that a step hands out, calls `poll` until it says to wait, and reports how each read
//! ended. What a read brought is looked at by `poll`, one read at a time in the order in which
//! they ended, and not while a read is held back for want of room.

use std::collections::VecDeque;
use vstd::prelude::*;
use vstd::string::*;

use crate::bytes::option_bytes;
use crate::download::DownloadError;
use crate::encryption::{
    decrypt_shard, lemma_cipher_of_part, shard_cipher, shard_keystream, KEYSTREAM_SIZE,
};
use crate::object::Sector;
use crate::slab_laws::{
    lemma_end_of_read, lemma_poll_finishes, lemma_poll_keeps_shard, lemma_poll_notes_failure,
    lemma_step_starts_reads,
};
use crate::text::{decimal, decimal_text};

verus! {

/// Failed reads after which the download of a slab is given up.
pub const MAX_TOTAL_FAILURES: usize = 30;

/// What became of a sector so far.
#[derive(Clone, Copy, Debug, PartialEq, Eq, Structural)]
pub enum SectorStatus {
    /// Not asked for.
    Queued,
    /// Its read has not ended.
    InFlight,
    /// Its read has ended and was not looked at.
    Ended,
    /// Its shard is there.
    Done,
    /// Its read failed.
    Failed,
}

/// A read of one sector: `length` bytes from `offset`. `index` is the position of the shard
/// in the slab.
#[derive(Clone, Copy, Debug, PartialEq, Eq)]
pub struct SectorDownloadTask {
    pub sector: Sector,
    pub offset: u64,
    pub length: u64,
    pub index: usize,
}

/// What the owner of a download has to do next.
#[derive(Debug)]
pub enum Step {
    /// Start these reads.
    Spawn(Vec<SectorDownloadTask>),
    /// The shard of this sector was kept. Poll again.
    Delivered(usize),
    /// A failed read was noted. Poll again.
    Again,
    /// Wait for a read to end.
    Wait,
    /// Enough shards are there.
    Finished,
    /// The slab cannot be recovered.
    Failed(DownloadError),
}

/// The contents of a step.
#[verifier::ext_equal]
pub enum StepView {
    Spawn(Seq<SectorDownloadTask>),
    Delivered(usize),
    Again,
    Wait,
    Finished,
    Failed(DownloadError),
}

impl StepView {
    /// The reads that the step starts.
    pub open spec fn reads(self) -> Seq<SectorDownloadTask> {
        match self {
            StepView::Spawn(tasks) => tasks,
            _ => Seq::empty(),
        }
    }
}

/// Something that happens to a download.
pub enum SlabEvent {
    /// `poll` is called.
    Poll,
    /// The read of a sector ends; it brings data or fails.
    Ended(usize, Option<Seq<u8>>),
    /// `tick` is called.
    Tick,
}

impl View for Step {
    type V = StepView;

    open spec fn view(&self) -> StepView {
        match *self {
            Step::Spawn(tasks) => StepView::Spawn(tasks@),
            Step::Delivered(index) => StepView::Delivered(index),
            Step::Again => StepView::Again,
            Step::Wait => StepView::Wait,
            Step::Finished => StepView::Finished,
            Step::Failed(e) => StepView::Failed(e),
        }
    }
}

/// How many entries of `status` are `s`.
pub open spec fn count(status: Seq<SectorStatus>, s: SectorStatus) -> nat
    decreases status.len(),
{
    if status.len() == 0 {
        0
    } else {
        count(status.drop_last(), s) + if status.last() == s {
            1nat
        } else {
            0nat
        }
    }
}

/// The state of a slab's download.
#[verifier::ext_equal]
pub struct SlabDownloadView {
    pub encryption_key: Seq<u8>,
    pub min_shards: u8,
    pub offset: u64,
    pub length: u64,
    /// Reads that may be in flight at a time.
    pub max_inflight: usize,
    pub sectors: Seq<Sector>,
    /// The sectors that were not asked for yet, most promising host first.
    pub queue: Seq<usize>,
    /// How many sectors at the front of the queue are to be read as soon as there is room.
    pub held: nat,
    /// The reads that have ended and were not looked at, in the order in which they ended: the
    /// sector, and the bytes where the read brought any.
    pub ended: Seq<(usize, Option<Seq<u8>>)>,
    pub status: Seq<SectorStatus>,
    /// The decrypted shards, by their position in the slab.
    pub shards: Seq<Option<Seq<u8>>>,
}

impl SlabDownloadView {
    /// Reads that have not ended.
    pub open spec fn in_flight(self) -> nat {
        count(self.status, SectorStatus::InFlight)
    }

    /// Reads that brought a shard.
    pub open spec fn successful(self) -> nat {
        count(self.status, SectorStatus::Done)
    }

    /// Reads that failed.
    pub open spec fn failures(self) -> nat {
        count(self.status, SectorStatus::Failed)
    }

    /// Shards that are still needed.
    pub open spec fn remaining(self) -> int {
        self.min_shards - self.successful()
    }

    /// Whether the cipher can decrypt what a read brought.
    pub open spec fn decryptable(self, data: Option<Seq<u8>>) -> bool {
        data matches Some(bytes) ==> self.offset <= usize::MAX && self.offset + bytes.len()
            <= KEYSTREAM_SIZE
    }

    /// The sectors in the queue are those that were not asked for, each once, and the reads that
    /// were not looked at are those that have ended, each once; a shard is present where its read
    /// succeeded; no more shards were taken than are needed, and no more reads are in flight than
    /// allowed.
    pub open spec fn well_formed(self) -> bool {
        &&& self.status.len() == self.sectors.len()
        &&& self.shards.len() == self.sectors.len()
        &&& self.min_shards <= self.sectors.len()
        &&& self.encryption_key.len() == 32
        &&& self.queue.no_duplicates()
        &&& self.queue.len() == count(self.status, SectorStatus::Queued)
        &&& forall|k: int|
            0 <= k < self.queue.len() ==> (#[trigger] self.queue[k]) < self.sectors.len()
                && self.status[self.queue[k] as int] is Queued
        &&& self.ended.len() == count(self.status, SectorStatus::Ended)
        &&& forall|k: int|
            0 <= k < self.ended.len() ==> (#[trigger] self.ended[k]).0 < self.sectors.len()
                && self.status[self.ended[k].0 as int] is Ended && self.decryptable(
                self.ended[k].1,
            )
        &&& forall|k: int, l: int|
            0 <= k < l < self.ended.len() ==> (#[trigger] self.ended[k]).0 != (
            #[trigger] self.ended[l]).0
        &&& forall|i: int|
            0 <= i < self.shards.len() ==> ((#[trigger] self.shards[i]) is Some
                <==> self.status[i] is Done)
        &&& self.successful() <= self.min_shards
        &&& self.in_flight() <= self.max_inflight
        &&& self.held <= self.queue.len()
        &&& self.max_inflight > 0 || self.min_shards == 0
    }

    /// Between two steps the state is well formed, and a read is held back only where no more
    /// may be in flight.
    pub open spec fn inv(self) -> bool {
        &&& self.well_formed()
        &&& self.held > 0 ==> self.in_flight() == self.max_inflight && self.max_inflight > 0
    }

    /// The read of the sector at position `i`.
    pub open spec fn task(self, i: usize) -> SectorDownloadTask {
        SectorDownloadTask {
            sector: self.sectors[i as int],
            offset: self.offset,
            length: self.length,
            index: i,
        }
    }

    /// The reads of the first `n` sectors in the queue.
    pub open spec fn tasks(self, n: int) -> Seq<SectorDownloadTask> {
        Seq::new(n as nat, |k: int| self.task(self.queue[k]))
    }

    /// The state after the first `n` reads of those that are held were started.
    pub open spec fn spawn(self, n: int) -> SlabDownloadView
        decreases n,
    {
        if n <= 0 {
            self
        } else {
            let before = self.spawn(n - 1);
            SlabDownloadView {
                status: before.status.update(before.queue[0] as int, SectorStatus::InFlight),
                queue: before.queue.skip(1),
                held: (before.held - 1) as nat,
                ..before
            }
        }
    }

    /// The state in which `n` more sectors are to be read.
    pub open spec fn owe(self, n: int) -> SlabDownloadView {
        SlabDownloadView { held: (self.held + n) as nat, ..self }
    }

    /// How many of the reads that are held there is room for.
    pub open spec fn startable(self) -> int {
        if self.held < self.max_inflight - self.in_flight() {
            self.held as int
        } else {
            self.max_inflight - self.in_flight()
        }
    }

    /// The reads that are held and that there is room for.
    pub open spec fn starts(self) -> Seq<SectorDownloadTask> {
        self.tasks(self.startable())
    }

    /// The state after these reads were started.
    pub open spec fn started(self) -> SlabDownloadView {
        self.spawn(self.startable())
    }

    /// The state after the read of sector `i` ended.
    pub open spec fn end_read(self, i: usize, data: Option<Seq<u8>>) -> SlabDownloadView {
        SlabDownloadView {
            status: self.status.update(i as int, SectorStatus::Ended),
            ended: self.ended.push((i, data)),
            ..self
        }
    }

    /// The state after the first read that ended was looked at, which had failed.
    pub open spec fn fail(self) -> SlabDownloadView {
        SlabDownloadView {
            status: self.status.update(self.ended[0].0 as int, SectorStatus::Failed),
            ended: self.ended.skip(1),
            ..self
        }
    }

    /// The state after the first read that ended was looked at, which had brought `data`: the
    /// shard is decrypted and kept.
    pub open spec fn deliver(self, data: Seq<u8>) -> SlabDownloadView {
        let i = self.ended[0].0 as int;
        SlabDownloadView {
            status: self.status.update(i, SectorStatus::Done),
            ended: self.ended.skip(1),
            shards: self.shards.update(i, Some(self.decrypted(i, data))),
            ..self
        }
    }

    /// The shard of sector `i`, where its read brought `data`.
    pub open spec fn decrypted(self, i: int, data: Seq<u8>) -> Seq<u8> {
        shard_cipher(self.encryption_key, (i % 256) as u8, self.offset as int, data)
    }

    /// Whether too many reads have failed, or the reads that were not looked at and those in the
    /// queue cannot bring the shards that are still needed.
    pub open spec fn gives_up(self) -> bool {
        self.failures() >= MAX_TOTAL_FAILURES || self.in_flight() + self.ended.len()
            + self.queue.len() < self.remaining()
    }

    /// The error with which the download is given up in this state.
    pub open spec fn not_enough(self) -> DownloadError {
        DownloadError::NotEnoughShards(self.successful() as u8, self.min_shards)
    }

    /// The step that starts the reads that are held and that there is room for, or waits where
    /// there are none, and the state after it.
    pub open spec fn go_on(self) -> (StepView, SlabDownloadView) {
        if self.startable() > 0 {
            (StepView::Spawn(self.starts()), self.started())
        } else {
            (StepView::Wait, self.started())
        }
    }

    /// How many reads are wanted where none is in flight: as many as shards are needed, or all
    /// that are left.
    pub open spec fn wanted(self) -> int {
        if self.remaining() < self.queue.len() {
            self.remaining()
        } else {
            self.queue.len() as int
        }
    }

    /// What `poll` does: while a read is held back, nothing. Otherwise the first read that ended
    /// is looked at. A shard is kept. After a failure the download is given up where it is
    /// hopeless; one more read is wanted unless more reads are under way than shards are needed.
    /// Where no read is under way, as many are wanted as shards are needed.
    pub open spec fn poll(self) -> (StepView, SlabDownloadView) {
        if self.held > 0 {
            (StepView::Wait, self)
        } else if self.remaining() == 0 {
            (StepView::Finished, self)
        } else if self.ended.len() > 0 {
            match self.ended[0].1 {
                Some(data) => (StepView::Delivered(self.ended[0].0), self.deliver(data)),
                None => {
                    let v = self.fail();
                    if v.gives_up() {
                        (StepView::Failed(v.not_enough()), v)
                    } else if v.in_flight() + v.ended.len() <= v.remaining() && v.queue.len() > 0 {
                        v.owe(1).go_on()
                    } else {
                        (StepView::Again, v)
                    }
                },
            }
        } else if self.in_flight() > 0 {
            (StepView::Wait, self)
        } else if self.queue.len() == 0 {
            (StepView::Failed(self.not_enough()), self)
        } else {
            self.owe(self.wanted()).go_on()
        }
    }

    /// What the end of a read does: there is room for a read that was held back.
    pub open spec fn read_ended(self, i: usize, data: Option<Seq<u8>>) -> (
        StepView,
        SlabDownloadView,
    ) {
        self.end_read(i, data).go_on()
    }

    /// Whether the event can happen: a read ends only where it is in flight.
    pub open spec fn allows(self, event: SlabEvent) -> bool {
        event matches SlabEvent::Ended(i, data) ==> {
            &&& i < self.status.len()
            &&& self.status[i as int] is InFlight
            &&& self.decryptable(data)
        }
    }

    /// What the event does.
    pub open spec fn step(self, event: SlabEvent) -> (StepView, SlabDownloadView) {
        match event {
            SlabEvent::Poll => self.poll(),
            SlabEvent::Ended(i, data) => self.read_ended(i, data),
            SlabEvent::Tick => self.tick(),
        }
    }

    /// Whether no read has ended yet.
    pub open spec fn begins(self) -> bool {
        &&& self.inv()
        &&& self.ended.len() == 0
        &&& forall|i: int|
            0 <= i < self.status.len() ==> (#[trigger] self.status[i]) is Queued
                || self.status[i] is InFlight
    }

    /// Whether `tasks` are the reads that were started, each once: one for each sector that has
    /// left the queue.
    pub open spec fn has_started(self, tasks: Seq<SectorDownloadTask>) -> bool {
        &&& forall|k: int|
            0 <= k < tasks.len() ==> {
                let i = (#[trigger] tasks[k]).index;
                &&& i < self.sectors.len()
                &&& !(self.status[i as int] is Queued)
                &&& tasks[k] == self.task(i)
            }
        &&& forall|k: int, l: int|
            0 <= k < l < tasks.len() ==> (#[trigger] tasks[k]).index != (
            #[trigger] tasks[l]).index
        &&& forall|i: usize|
            i < self.sectors.len() && !((#[trigger] self.status[i as int]) is Queued)
                ==> tasks.contains(self.task(i))
    }

    /// What `tick` does: where every read that ended was looked at and more reads may be in
    /// flight, one more of those in the queue is started.
    pub open spec fn tick(self) -> (StepView, SlabDownloadView) {
        if self.held == 0 && self.ended.len() == 0 && self.in_flight() < self.max_inflight
            && self.queue.len() > 0 {
            self.owe(1).go_on()
        } else {
            (StepView::Wait, self)
        }
    }
}

/// Whether `order` lists the positions `0..n`, each once.
pub open spec fn is_order(order: Seq<usize>, n: int) -> bool {
    &&& order.len() == n
    &&& order.no_duplicates()
    &&& forall|k: int| 0 <= k < n ==> (#[trigger] order[k]) < n
}

proof fn lemma_count_update(
    status: Seq<SectorStatus>,
    i: int,
    new: SectorStatus,
    s: SectorStatus,
)
    requires
        0 <= i < status.len(),
    ensures
        count(status.update(i, new), s) == count(status, s) - (if status[i] == s {
            1int
        } else {
            0int
        }) + (if new == s {
            1int
        } else {
            0int
        }),
    decreases status.len(),
{
    let updated = status.update(i, new);
    if i == status.len() - 1 {
        assert(updated.drop_last() =~= status.drop_last());
    } else {
        assert(updated.drop_last() =~= status.drop_last().update(i, new));
        lemma_count_update(status.drop_last(), i, new, s);
    }
}

/// Every sector is queued, in flight, ended, done or failed.
proof fn lemma_count_total(status: Seq<SectorStatus>)
    ensures
        count(status, SectorStatus::Queued) + count(status, SectorStatus::InFlight) + count(
            status,
            SectorStatus::Ended,
        ) + count(status, SectorStatus::Done) + count(status, SectorStatus::Failed)
            == status.len(),
    decreases status.len(),
{
    if status.len() > 0 {
        lemma_count_total(status.drop_last());
    }
}

/// Where one sector's status changes, so do the counts of the old and of the new status.
proof fn lemma_counts_update(status: Seq<SectorStatus>, i: int, new: SectorStatus)
    requires
        0 <= i < status.len(),
        status[i] != new,
    ensures
        forall|s: SectorStatus|
            #[trigger] count(status.update(i, new), s) == count(status, s) - (if status[i] == s {
                1int
            } else {
                0int
            }) + (if new == s {
                1int
            } else {
                0int
            }),
{
    assert forall|s: SectorStatus|
        #[trigger] count(status.update(i, new), s) == count(status, s) - (if status[i] == s {
            1int
        } else {
            0int
        }) + (if new == s {
            1int
        } else {
            0int
        }) by {
        lemma_count_update(status, i, new, s);
    }
}

proof fn lemma_count_uniform(status: Seq<SectorStatus>, s: SectorStatus, t: SectorStatus)
    requires
        forall|i: int| 0 <= i < status.len() ==> status[i] == s,
    ensures
        count(status, t) == if s == t {
            status.len()
        } else {
            0
        },
    decreases status.len(),
{
    if status.len() > 0 {
        lemma_count_uniform(status.drop_last(), s, t);
    }
}

pub(crate) proof fn lemma_spawn(v: SlabDownloadView, n: int)
    requires
        v.well_formed(),
        0 <= n <= v.held,
        v.in_flight() + n <= v.max_inflight,
    ensures
        v.spawn(n).well_formed(),
        v.spawn(n).held == v.held - n,
        v.spawn(n).queue =~= v.queue.skip(n),
        v.spawn(n) == (SlabDownloadView {
            held: v.spawn(n).held,
            queue: v.spawn(n).queue,
            status: v.spawn(n).status,
            ..v
        }),
        v.spawn(n).in_flight() == v.in_flight() + n,
        v.spawn(n).successful() == v.successful(),
        v.spawn(n).failures() == v.failures(),
        forall|i: int|
            0 <= i < v.status.len() && !(v.status[i] is Queued) ==> v.spawn(n).status[i]
                == v.status[i],
        forall|i: int|
            0 <= i < v.status.len() && v.status[i] is Queued ==> v.spawn(n).status[i] is Queued
                || v.spawn(n).status[i] is InFlight,
    decreases n,
{
    if n > 0 {
        lemma_spawn(v, n - 1);
        let before = v.spawn(n - 1);
        let after = v.spawn(n);
        let i = before.queue[0] as int;
        assert(before.status[i] is Queued);
        lemma_counts_update(before.status, i, SectorStatus::InFlight);
        assert(after.queue =~= v.queue.skip(n));
        assert forall|k: int| 0 <= k < after.queue.len() implies (#[trigger] after.queue[k])
            < after.sectors.len() && after.status[after.queue[k] as int] is Queued by {
            assert(after.queue[k] == before.queue[k + 1]);
            assert(before.queue[k + 1] != before.queue[0]);
        }
        assert forall|a: int, b: int|
            0 <= a < after.queue.len() && 0 <= b < after.queue.len() && a
                != b implies after.queue[a] != after.queue[b] by {
            assert(after.queue[a] == before.queue[a + 1]);
            assert(after.queue[b] == before.queue[b + 1]);
        }
        assert forall|k: int| 0 <= k < after.ended.len() implies (#[trigger] after.ended[k]).0
            < after.sectors.len() && after.status[after.ended[k].0 as int] is Ended
            && after.decryptable(after.ended[k].1) by {
            assert(after.ended[k] == before.ended[k]);
        }
        assert forall|k: int, l: int| 0 <= k < l < after.ended.len() implies (
        #[trigger] after.ended[k]).0 != (#[trigger] after.ended[l]).0 by {
            assert(after.ended[k] == before.ended[k]);
            assert(after.ended[l] == before.ended[l]);
        }
    }
}

pub(crate) proof fn lemma_started(v: SlabDownloadView)
    requires
        v.well_formed(),
        v.held > 0 ==> v.max_inflight > 0,
    ensures
        0 <= v.startable() <= v.held,
        v.in_flight() + v.startable() <= v.max_inflight,
        v.started().inv(),
        v.started().in_flight() == v.in_flight() + v.startable(),
        v.started().max_inflight == v.max_inflight,
{
    lemma_spawn(v, v.startable());
}

pub(crate) proof fn lemma_end_read(v: SlabDownloadView, i: usize, data: Option<Seq<u8>>)
    requires
        v.well_formed(),
        i < v.status.len(),
        v.status[i as int] is InFlight,
        v.decryptable(data),
    ensures
        v.end_read(i, data).well_formed(),
        v.end_read(i, data).in_flight() == v.in_flight() - 1,
        v.end_read(i, data).successful() == v.successful(),
        v.end_read(i, data).failures() == v.failures(),
{
    lemma_counts_update(v.status, i as int, SectorStatus::Ended);
    let after = v.end_read(i, data);
    assert forall|k: int| 0 <= k < after.ended.len() implies (#[trigger] after.ended[k]).0
        < after.sectors.len() && after.status[after.ended[k].0 as int] is Ended
        && after.decryptable(after.ended[k].1) by {
        if k < v.ended.len() {
            assert(after.ended[k] == v.ended[k]);
        }
    }
    assert forall|k: int, l: int| 0 <= k < l < after.ended.len() implies (
    #[trigger] after.ended[k]).0 != (#[trigger] after.ended[l]).0 by {
        assert(after.ended[k] == v.ended[k]);
        if l < v.ended.len() {
            assert(after.ended[l] == v.ended[l]);
        }
    }
}

proof fn lemma_ended_rest(v: SlabDownloadView, after: SlabDownloadView, new: SectorStatus)
    requires
        v.well_formed(),
        v.ended.len() > 0,
        after.ended == v.ended.skip(1),
        after.offset == v.offset,
        after.sectors == v.sectors,
        after.status == v.status.update(v.ended[0].0 as int, new),
    ensures
        forall|k: int|
            0 <= k < after.ended.len() ==> (#[trigger] after.ended[k]).0 < after.sectors.len()
                && after.status[after.ended[k].0 as int] is Ended && after.decryptable(
                after.ended[k].1,
            ),
        forall|k: int, l: int|
            0 <= k < l < after.ended.len() ==> (#[trigger] after.ended[k]).0 != (
            #[trigger] after.ended[l]).0,
{
    assert forall|k: int| 0 <= k < after.ended.len() implies (#[trigger] after.ended[k]).0
        < after.sectors.len() && after.status[after.ended[k].0 as int] is Ended
        && after.decryptable(after.ended[k].1) by {
        assert(after.ended[k] == v.ended[k + 1]);
        assert(v.ended[0].0 != v.ended[k + 1].0);
    }
    assert forall|k: int, l: int| 0 <= k < l < after.ended.len() implies (
    #[trigger] after.ended[k]).0 != (#[trigger] after.ended[l]).0 by {
        assert(after.ended[k] == v.ended[k + 1]);
        assert(after.ended[l] == v.ended[l + 1]);
    }
}

pub(crate) proof fn lemma_fail(v: SlabDownloadView)
    requires
        v.well_formed(),
        v.ended.len() > 0,
    ensures
        v.fail().well_formed(),
        v.fail().in_flight() == v.in_flight(),
        v.fail().failures() == v.failures() + 1,
        v.fail().successful() == v.successful(),
{
    let i = v.ended[0].0 as int;
    assert(v.status[i] is Ended);
    lemma_counts_update(v.status, i, SectorStatus::Failed);
    lemma_ended_rest(v, v.fail(), SectorStatus::Failed);
}

proof fn lemma_deliver(v: SlabDownloadView, data: Seq<u8>)
    requires
        v.well_formed(),
        v.ended.len() > 0,
        v.remaining() > 0,
    ensures
        v.deliver(data).well_formed(),
        v.deliver(data).in_flight() == v.in_flight(),
        v.deliver(data).successful() == v.successful() + 1,
        v.deliver(data).failures() == v.failures(),
{
    let i = v.ended[0].0 as int;
    assert(v.status[i] is Ended);
    lemma_counts_update(v.status, i, SectorStatus::Done);
    lemma_ended_rest(v, v.deliver(data), SectorStatus::Done);
}

/// Every step keeps the invariant and the bound on the reads in flight.
proof fn lemma_go_on(v: SlabDownloadView)
    requires
        v.well_formed(),
        v.held > 0 ==> v.max_inflight > 0,
    ensures
        v.go_on().1.inv(),
        v.go_on().1.max_inflight == v.max_inflight,
{
    lemma_started(v);
}

proof fn lemma_poll(v: SlabDownloadView)
    requires
        v.inv(),
    ensures
        v.poll().1.inv(),
        v.poll().1.max_inflight == v.max_inflight,
        v.poll().0 is Wait || v.poll().0 is Spawn ==> v.poll().1.in_flight() > 0,
        v.poll().0 is Finished ==> v.poll().1.remaining() == 0,
        v.poll().0 is Failed ==> v.poll().1.gives_up(),
{
    if v.held == 0 && v.remaining() > 0 {
        if v.ended.len() > 0 {
            match v.ended[0].1 {
                Some(data) => {
                    lemma_deliver(v, data);
                },
                None => {
                    lemma_fail(v);
                    if !v.fail().gives_up() && v.fail().queue.len() > 0 {
                        lemma_started(v.fail().owe(1));
                    }
                },
            }
        } else if v.in_flight() == 0 && v.queue.len() > 0 {
            lemma_started(v.owe(v.wanted()));
        }
    }
}

proof fn lemma_read_ended(v: SlabDownloadView, i: usize, data: Option<Seq<u8>>)
    requires
        v.inv(),
        i < v.status.len(),
        v.status[i as int] is InFlight,
        v.decryptable(data),
    ensures
        v.read_ended(i, data).1.inv(),
        v.read_ended(i, data).1.max_inflight == v.max_inflight,
{
    lemma_end_read(v, i, data);
    lemma_go_on(v.end_read(i, data));
}

proof fn lemma_tick(v: SlabDownloadView)
    requires
        v.inv(),
    ensures
        v.tick().1.inv(),
        v.tick().1.max_inflight == v.max_inflight,
{
    if v.held == 0 && v.ended.len() == 0 && v.in_flight() < v.max_inflight && v.queue.len() > 0 {
        lemma_go_on(v.owe(1));
    }
}

/// The download of one slab.
pub struct SlabDownload {
    encryption_key: [u8; 32],
    min_shards: u8,
    offset: u64,
    length: u64,
    max_inflight: usize,
    sectors: Vec<Sector>,
    order: Vec<usize>,
    next: usize,
    held: usize,
    ended: VecDeque<(usize, Option<Vec<u8>>)>,
    status: Vec<SectorStatus>,
    shards: Vec<Option<Vec<u8>>>,
    in_flight: usize,
    successful: u8,
    total_failures: usize,
}

/// The contents of a shard slot.
pub open spec fn slot(shard: Option<Vec<u8>>) -> Option<Seq<u8>> {
    match shard {
        Some(data) => Some(data@),
        None => None,
    }
}

/// The contents of the shard slots of a slab.
pub open spec fn slots(shards: Seq<Option<Vec<u8>>>) -> Seq<Option<Seq<u8>>> {
    Seq::new(shards.len(), |i: int| slot(shards[i]))
}

/// How many shard slots are filled.
pub open spec fn filled(shards: Seq<Option<Seq<u8>>>) -> nat
    decreases shards.len(),
{
    if shards.len() == 0 {
        0
    } else {
        filled(shards.drop_last()) + if shards.last() is Some {
            1nat
        } else {
            0nat
        }
    }
}

/// What a slab with too few sectors is refused with.
pub open spec fn too_few_sectors(have: nat, need: nat) -> Seq<char> {
    "not enough sectors: have "@ + decimal(have) + ", need at least "@ + decimal(need)
}

/// The contents of a list of reads that have ended.
pub open spec fn ended_views(ended: Seq<(usize, Option<Vec<u8>>)>) -> Seq<
    (usize, Option<Seq<u8>>),
> {
    Seq::new(ended.len(), |k: int| (ended[k].0, option_bytes(ended[k].1)))
}

impl View for SlabDownload {
    type V = SlabDownloadView;

    closed spec fn view(&self) -> SlabDownloadView {
        SlabDownloadView {
            encryption_key: self.encryption_key@,
            min_shards: self.min_shards,
            offset: self.offset,
            length: self.length,
            max_inflight: self.max_inflight,
            sectors: self.sectors@,
            queue: self.order@.skip(self.next as int),
            held: self.held as nat,
            ended: ended_views(self.ended@),
            status: self.status@,
            shards: slots(self.shards@),
        }
    }
}

impl SlabDownload {
    /// The invariant of a download: that of its state, and that the counters agree with it.
    pub closed spec fn inv(self) -> bool {
        self@.inv() && self.counted()
    }

    spec fn counted(self) -> bool {
        &&& self.next <= self.order.len()
        &&& self.in_flight == self@.in_flight()
        &&& self.successful == self@.successful()
        &&& self.total_failures == self@.failures()
    }

    /// The invariant covers that of the state.
    pub proof fn lemma_inv(self)
        requires
            self.inv(),
        ensures
            self@.inv(),
    {
    }

    /// Begins the download of `length` bytes from `offset` of the shards of a slab. `order`
    /// lists the sectors in the order in which they are to be tried. As many reads are wanted at
    /// first as shards are needed; those that may be in flight at a time are returned with the
    /// download, and the others are held back.
    pub fn start(
        encryption_key: &[u8; 32],
        sectors: &Vec<Sector>,
        min_shards: u8,
        order: Vec<usize>,
        offset: u64,
        length: u64,
        max_inflight: usize,
    ) -> (result: Result<(SlabDownload, Vec<SectorDownloadTask>), DownloadError>)
        requires
            is_order(order@, sectors.len() as int),
            max_inflight > 0 || min_shards == 0 || sectors.len() < min_shards,
        ensures
            result is Ok <==> sectors.len() >= min_shards,
            result matches Ok((download, tasks)) ==> {
                let fresh = Self::fresh(
                    encryption_key@,
                    sectors@,
                    min_shards,
                    order@,
                    offset,
                    length,
                    max_inflight,
                );
                &&& download.inv()
                &&& download@ == fresh.started()
                &&& tasks@ == fresh.starts()
                &&& download@.in_flight() <= max_inflight
                &&& download@.begins()
                &&& download@.has_started(tasks@)
                &&& download@.encryption_key == encryption_key@
                &&& download@.min_shards == min_shards
                &&& download@.offset == offset
                &&& download@.length == length
                &&& download@.max_inflight == max_inflight
                &&& download@.sectors == sectors@
                &&& tasks@.len() == if min_shards < max_inflight {
                    min_shards as int
                } else {
                    max_inflight as int
                }
                &&& download@.held == min_shards - tasks@.len()
                &&& download@.queue == order@.skip(tasks@.len() as int)
                &&& download@.shards.len() == sectors@.len()
                &&& forall|k: int|
                    0 <= k < tasks@.len() ==> {
                        let t = #[trigger] tasks@[k];
                        &&& t.index == order@[k]
                        &&& t.sector == sectors@[t.index as int]
                        &&& t.offset == offset
                        &&& t.length == length
                    }
                &&& forall|i: int|
                    0 <= i < download@.shards.len() ==> (#[trigger] download@.shards[i]) is None
            },
            result matches Err(e) ==> {
                &&& e is InvalidSlab
                &&& e->InvalidSlab_0@ == too_few_sectors(sectors.len() as nat, min_shards as nat)
                &&& e->InvalidSlab_0@ == "not enough sectors: have "@ + decimal(
                    sectors.len() as nat,
                ) + ", need at least "@ + decimal(min_shards as nat)
            },
    {
        if sectors.len() < min_shards as usize {
            let mut message: String = "not enough sectors: have ".to_string();
            message.append(decimal_text(sectors.len() as u64).as_str());
            message.append(", need at least ");
            message.append(decimal_text(min_shards as u64).as_str());
            return Err(DownloadError::InvalidSlab(message));
        }
        let n: usize = sectors.len();
        let mut own: Vec<Sector> = Vec::new();
        let mut status: Vec<SectorStatus> = Vec::new();
        let mut shards: Vec<Option<Vec<u8>>> = Vec::new();
        let mut i: usize = 0;
        while i < n
            invariant
                i <= n,
                n == sectors.len(),
                own@ == sectors@.take(i as int),
                status.len() == i,
                shards.len() == i,
                forall|k: int| 0 <= k < i ==> status[k] is Queued,
                forall|k: int| 0 <= k < i ==> shards[k] is None,
            decreases n - i,
        {
            own.push(sectors[i]);
            status.push(SectorStatus::Queued);
            shards.push(None);
            i = i + 1;
        }
        let ghost fresh = Self::fresh(
            encryption_key@,
            sectors@,
            min_shards,
            order@,
            offset,
            length,
            max_inflight,
        );
        proof {
            lemma_count_uniform(status@, SectorStatus::Queued, SectorStatus::Queued);
            lemma_count_uniform(status@, SectorStatus::Queued, SectorStatus::InFlight);
            lemma_count_uniform(status@, SectorStatus::Queued, SectorStatus::Ended);
            lemma_count_uniform(status@, SectorStatus::Queued, SectorStatus::Done);
            lemma_count_uniform(status@, SectorStatus::Queued, SectorStatus::Failed);
        }
        let mut download = SlabDownload {
            encryption_key: *encryption_key,
            min_shards,
            offset,
            length,
            max_inflight,
            sectors: own,
            order,
            next: 0,
            held: min_shards as usize,
            ended: VecDeque::new(),
            status,
            shards,
            in_flight: 0,
            successful: 0,
            total_failures: 0,
        };
        assert(download@ =~= fresh);
        proof {
            lemma_started(fresh);
            lemma_spawn(fresh, fresh.startable());
            assert(fresh.has_started(Seq::empty()));
            lemma_go_on_reads(fresh, Seq::empty());
            assert(Seq::<SectorDownloadTask>::empty() + fresh.starts() =~= fresh.starts());
        }
        let tasks = download.start_held();
        proof {
            let n = fresh.startable();
            assert(fresh.in_flight() == 0);
            assert(tasks@.len() == n);
            assert(download@.queue =~= order@.skip(n));
            assert forall|k: int| 0 <= k < tasks@.len() implies {
                let t = #[trigger] tasks@[k];
                &&& t.index == order@[k]
                &&& t.sector == sectors@[t.index as int]
                &&& t.offset == offset
                &&& t.length == length
            } by {
                assert(tasks@[k] == fresh.task(fresh.queue[k]));
            }
            assert forall|i: int| 0 <= i < download@.shards.len() implies (
            #[trigger] download@.shards[i]) is None by {
                assert(download@.shards == fresh.shards);
            }
            assert forall|i: int| 0 <= i < download@.status.len() implies (
            #[trigger] download@.status[i]) is Queued || download@.status[i] is InFlight by {
                assert(fresh.status[i] is Queued);
            }
            assert(download@.begins());
            assert(download@.has_started(tasks@));
            assert(download@.held == min_shards - tasks@.len());
        }
        Ok((download, tasks))
    }

    /// A download none of whose reads was started; as many are held as shards are needed.
    pub open spec fn fresh(
        encryption_key: Seq<u8>,
        sectors: Seq<Sector>,
        min_shards: u8,
        order: Seq<usize>,
        offset: u64,
        length: u64,
        max_inflight: usize,
    ) -> SlabDownloadView {
        SlabDownloadView {
            encryption_key,
            min_shards,
            offset,
            length,
            max_inflight,
            sectors,
            queue: order,
            held: min_shards as nat,
            ended: Seq::empty(),
            status: Seq::new(sectors.len(), |i: int| SectorStatus::Queued),
            shards: Seq::new(sectors.len(), |i: int| None),
        }
    }

    fn take_task(&mut self) -> (task: SectorDownloadTask)
        requires
            old(self)@.well_formed(),
            old(self).counted(),
            old(self)@.held > 0,
            old(self)@.in_flight() < old(self)@.max_inflight,
        ensures
            final(self)@.well_formed(),
            final(self).counted(),
            final(self)@ == old(self)@.spawn(1),
            task == old(self)@.task(old(self)@.queue[0]),
    {
        proof {
            lemma_spawn(self@, 1);
            assert(self@.spawn(0) == self@);
            assert(self@.spawn(1).status == self@.status.update(
                self@.queue[0] as int,
                SectorStatus::InFlight,
            )) by {
                reveal_with_fuel(SlabDownloadView::spawn, 2);
            }
        }
        let index: usize = self.order[self.next];
        assert(index == self@.queue[0]);
        self.next = self.next + 1;
        self.held = self.held - 1;
        self.status.set(index, SectorStatus::InFlight);
        self.in_flight = self.in_flight + 1;
        assert(self@ =~= old(self)@.spawn(1));
        SectorDownloadTask {
            sector: self.sectors[index],
            offset: self.offset,
            length: self.length,
            index,
        }
    }

    fn start_held(&mut self) -> (tasks: Vec<SectorDownloadTask>)
        requires
            old(self)@.well_formed(),
            old(self).counted(),
            old(self)@.held > 0 ==> old(self)@.max_inflight > 0,
        ensures
            final(self).inv(),
            final(self)@ == old(self)@.started(),
            tasks@ == old(self)@.starts(),
    {
        proof {
            lemma_started(self@);
        }
        let room: usize = self.max_inflight - self.in_flight;
        let n: usize = if self.held < room {
            self.held
        } else {
            room
        };
        let mut tasks: Vec<SectorDownloadTask> = Vec::new();
        let mut i: usize = 0;
        while i < n
            invariant
                i <= n,
                n == old(self)@.startable(),
                n <= old(self)@.held,
                old(self)@.in_flight() + n <= old(self)@.max_inflight,
                old(self)@.well_formed(),
                self@.well_formed(),
                self.counted(),
                self@ == old(self)@.spawn(i as int),
                tasks@ =~= old(self)@.tasks(i as int),
            decreases n - i,
        {
            proof {
                lemma_spawn(old(self)@, i as int);
                reveal_with_fuel(SlabDownloadView::spawn, 2);
            }
            let ghost before = self@;
            tasks.push(self.take_task());
            assert(before.spawn(1) == old(self)@.spawn(i + 1));
            i = i + 1;
        }
        tasks
    }

    /// Starts the reads that are held and that there is room for, or waits where there are none.
    fn go_on(&mut self) -> (step: Step)
        requires
            old(self)@.well_formed(),
            old(self).counted(),
            old(self)@.held > 0 ==> old(self)@.max_inflight > 0,
        ensures
            final(self).inv(),
            (step@, final(self)@) == old(self)@.go_on(),
    {
        let tasks = self.start_held();
        if tasks.len() > 0 {
            Step::Spawn(tasks)
        } else {
            Step::Wait
        }
    }

    /// Whether the read of sector `index` has been started and has not ended.
    pub fn is_in_flight(&self, index: usize) -> (b: bool)
        requires
            self.inv(),
        ensures
            b <==> index < self@.status.len() && self@.status[index as int] is InFlight,
    {
        index < self.status.len() && self.status[index] == SectorStatus::InFlight
    }

    /// To be called before waiting. Looks at the first read that has ended, unless one is held
    /// back. Where no read is under way and shards are still needed, reads are wanted; the
    /// download is given up where none is queued. So there is always a read to wait for.
    pub fn poll(&mut self) -> (step: Step)
        requires
            old(self).inv(),
        ensures
            final(self).inv(),
            (step@, final(self)@) == old(self)@.poll(),
            final(self)@.max_inflight == old(self)@.max_inflight,
            final(self)@.in_flight() <= old(self)@.max_inflight,
            final(self)@.encryption_key == old(self)@.encryption_key,
            final(self)@.min_shards == old(self)@.min_shards,
            final(self)@.offset == old(self)@.offset,
            final(self)@.length == old(self)@.length,
            final(self)@.sectors == old(self)@.sectors,
            step matches Step::Spawn(tasks) ==> {
                &&& 0 < tasks@.len() <= old(self)@.queue.len()
                &&& final(self)@.queue == old(self)@.queue.skip(tasks@.len() as int)
                &&& forall|k: int|
                    0 <= k < tasks@.len() ==> {
                        let t = #[trigger] tasks@[k];
                        &&& t.index == old(self)@.queue[k]
                        &&& t.sector == old(self)@.sectors[t.index as int]
                        &&& t.offset == old(self)@.offset
                        &&& t.length == old(self)@.length
                    }
            },
            !(step is Spawn) ==> final(self)@.queue == old(self)@.queue,
            (step is Wait || step is Spawn) ==> final(self)@.in_flight() > 0,
            step is Finished ==> final(self)@.remaining() == 0,
            step is Failed ==> final(self)@.gives_up(),
            step is Finished <==> old(self)@.held == 0 && old(self)@.remaining() == 0,
            step matches Step::Delivered(i) ==> {
                let ended = old(self)@.ended;
                let shard = final(self)@.shards[i as int];
                &&& ended.len() > 0
                &&& ended[0].0 == i
                &&& ended[0].1 is Some
                &&& final(self)@.ended == ended.skip(1)
                &&& shard is Some
                &&& shard->0.len() == ended[0].1->0.len()
                &&& forall|k: int|
                    0 <= k < shard->0.len() ==> (#[trigger] shard->0[k]) == ended[0].1->0[k]
                        ^ shard_keystream(
                        old(self)@.encryption_key,
                        (i % 256) as u8,
                        old(self)@.offset + k,
                    )
            },
            forall|i: int|
                0 <= i < old(self)@.shards.len() && step != Step::Delivered(i as usize) ==> (
                #[trigger] final(self)@.shards[i]) == old(self)@.shards[i],
            step matches Step::Failed(e) ==> e == DownloadError::NotEnoughShards(
                old(self)@.successful() as u8,
                old(self)@.min_shards,
            ),
    {
        proof {
            lemma_poll(self@);
            lemma_step_starts_reads(self@, SlabEvent::Poll);
            lemma_poll_finishes(self@);
            lemma_step(self@, SlabEvent::Poll);
            if self@.held == 0 && self@.remaining() > 0 && self@.ended.len() > 0 {
                match self@.ended[0].1 {
                    Some(data) => lemma_poll_keeps_shard(self@, data),
                    None => lemma_poll_notes_failure(self@),
                }
            }
            assert(self@.queue.skip(0) =~= self@.queue);
        }
        if self.held > 0 {
            return Step::Wait;
        }
        let rem: usize = self.min_shards.saturating_sub(self.successful) as usize;
        if rem == 0 {
            return Step::Finished;
        }
        let queued: usize = self.order.len() - self.next;
        match self.ended.pop_front() {
            Some((index, Some(data))) => {
                assert(old(self)@.ended[0] == (index, Some(data@)));
                proof {
                    lemma_deliver(old(self)@, data@);
                }
                let shard: u8 = (index % 256) as u8;
                let plain = decrypt_shard(&self.encryption_key, shard, self.offset as usize, data);
                self.shards.set(index, Some(plain));
                self.status.set(index, SectorStatus::Done);
                self.successful = self.successful + 1;
                assert(self@ =~= old(self)@.deliver(data@));
                Step::Delivered(index)
            },
            Some((index, None)) => {
                assert(old(self)@.ended[0] == (index, None::<Seq<u8>>));
                let ghost v = old(self)@.fail();
                proof {
                    lemma_fail(old(self)@);
                    lemma_count_total(v.status);
                    assert(v.failures() + v.in_flight() + v.ended.len() + v.queue.len()
                        <= self.sectors.len());
                }
                self.status.set(index, SectorStatus::Failed);
                self.total_failures = self.total_failures + 1;
                assert(self@ =~= v);
                if self.total_failures >= MAX_TOTAL_FAILURES || self.in_flight + self.ended.len()
                    + queued < rem {
                    Step::Failed(DownloadError::NotEnoughShards(self.successful, self.min_shards))
                } else if self.in_flight + self.ended.len() <= rem && queued > 0 {
                    self.held = self.held + 1;
                    assert(self@ =~= v.owe(1));
                    self.go_on()
                } else {
                    Step::Again
                }
            },
            None => {
                assert(self@ =~= old(self)@);
                if self.in_flight > 0 {
                    return Step::Wait;
                }
                if queued == 0 {
                    return Step::Failed(
                        DownloadError::NotEnoughShards(self.successful, self.min_shards),
                    );
                }
                let n: usize = if rem < queued {
                    rem
                } else {
                    queued
                };
                self.held = self.held + n;
                assert(self@ =~= old(self)@.owe(n as int));
                self.go_on()
            },
        }
    }

    fn read_ended(&mut self, index: usize, data: Option<Vec<u8>>) -> (step: Step)
        requires
            old(self).inv(),
            index < old(self)@.status.len(),
            old(self)@.status[index as int] is InFlight,
            old(self)@.decryptable(option_bytes(data)),
        ensures
            final(self).inv(),
            (step@, final(self)@) == old(self)@.read_ended(index, option_bytes(data)),
            final(self)@.ended == old(self)@.ended.push((index, option_bytes(data))),
            final(self)@.shards == old(self)@.shards,
            final(self)@.max_inflight == old(self)@.max_inflight,
            final(self)@.in_flight() <= old(self)@.max_inflight,
            final(self)@.encryption_key == old(self)@.encryption_key,
            final(self)@.min_shards == old(self)@.min_shards,
            final(self)@.offset == old(self)@.offset,
            final(self)@.length == old(self)@.length,
            final(self)@.sectors == old(self)@.sectors,
            step matches Step::Spawn(tasks) ==> {
                &&& 0 < tasks@.len() <= old(self)@.queue.len()
                &&& final(self)@.queue == old(self)@.queue.skip(tasks@.len() as int)
                &&& forall|k: int|
                    0 <= k < tasks@.len() ==> {
                        let t = #[trigger] tasks@[k];
                        &&& t.index == old(self)@.queue[k]
                        &&& t.sector == old(self)@.sectors[t.index as int]
                        &&& t.offset == old(self)@.offset
                        &&& t.length == old(self)@.length
                    }
            },
            !(step is Spawn) ==> final(self)@.queue == old(self)@.queue,
    {
        proof {
            lemma_end_read(self@, index, option_bytes(data));
            lemma_read_ended(self@, index, option_bytes(data));
            lemma_step_starts_reads(self@, SlabEvent::Ended(index, option_bytes(data)));
            lemma_end_of_read(self@, index, option_bytes(data));
            assert(self@.queue.skip(0) =~= self@.queue);
        }
        self.status.set(index, SectorStatus::Ended);
        self.in_flight = self.in_flight - 1;
        self.ended.push_back((index, data));
        assert(self@.ended =~= old(self)@.ended.push((index, option_bytes(data))));
        assert(self@ =~= old(self)@.end_read(index, option_bytes(data)));
        self.go_on()
    }

    /// Takes the bytes that the read of sector `index` brought. There is room for a read that was
    /// held back.
    pub fn shard_downloaded(&mut self, index: usize, data: Vec<u8>) -> (step: Step)
        requires
            old(self).inv(),
            index < old(self)@.status.len(),
            old(self)@.status[index as int] is InFlight,
            old(self)@.offset <= usize::MAX,
            old(self)@.offset + data.len() <= KEYSTREAM_SIZE,
        ensures
            final(self).inv(),
            (step@, final(self)@) == old(self)@.read_ended(index, Some(data@)),
            final(self)@.ended == old(self)@.ended.push((index, Some(data@))),
            final(self)@.shards == old(self)@.shards,
            final(self)@.max_inflight == old(self)@.max_inflight,
            final(self)@.in_flight() <= old(self)@.max_inflight,
            final(self)@.encryption_key == old(self)@.encryption_key,
            final(self)@.min_shards == old(self)@.min_shards,
            final(self)@.offset == old(self)@.offset,
            final(self)@.length == old(self)@.length,
            final(self)@.sectors == old(self)@.sectors,
            step matches Step::Spawn(tasks) ==> {
                &&& 0 < tasks@.len() <= old(self)@.queue.len()
                &&& final(self)@.queue == old(self)@.queue.skip(tasks@.len() as int)
                &&& forall|k: int|
                    0 <= k < tasks@.len() ==> {
                        let t = #[trigger] tasks@[k];
                        &&& t.index == old(self)@.queue[k]
                        &&& t.sector == old(self)@.sectors[t.index as int]
                        &&& t.offset == old(self)@.offset
                        &&& t.length == old(self)@.length
                    }
            },
            !(step is Spawn) ==> final(self)@.queue == old(self)@.queue,
    {
        self.read_ended(index, Some(data))
    }

    /// Takes note that the read of sector `index` failed. There is room for a read that was held
    /// back.
    pub fn shard_failed(&mut self, index: usize) -> (step: Step)
        requires
            old(self).inv(),
            index < old(self)@.status.len(),
            old(self)@.status[index as int] is InFlight,
        ensures
            final(self).inv(),
            (step@, final(self)@) == old(self)@.read_ended(index, None),
            final(self)@.ended == old(self)@.ended.push((index, None)),
            final(self)@.shards == old(self)@.shards,
            final(self)@.max_inflight == old(self)@.max_inflight,
            final(self)@.in_flight() <= old(self)@.max_inflight,
            final(self)@.encryption_key == old(self)@.encryption_key,
            final(self)@.min_shards == old(self)@.min_shards,
            final(self)@.offset == old(self)@.offset,
            final(self)@.length == old(self)@.length,
            final(self)@.sectors == old(self)@.sectors,
            step matches Step::Spawn(tasks) ==> {
                &&& 0 < tasks@.len() <= old(self)@.queue.len()
                &&& final(self)@.queue == old(self)@.queue.skip(tasks@.len() as int)
                &&& forall|k: int|
                    0 <= k < tasks@.len() ==> {
                        let t = #[trigger] tasks@[k];
                        &&& t.index == old(self)@.queue[k]
                        &&& t.sector == old(self)@.sectors[t.index as int]
                        &&& t.offset == old(self)@.offset
                        &&& t.length == old(self)@.length
                    }
            },
            !(step is Spawn) ==> final(self)@.queue == old(self)@.queue,
    {
        self.read_ended(index, None)
    }

    /// Called when no read has ended for a while: where more reads may be in flight, one more of
    /// those in the queue is started to overtake slow hosts.
    pub fn tick(&mut self) -> (step: Step)
        requires
            old(self).inv(),
        ensures
            final(self).inv(),
            (step@, final(self)@) == old(self)@.tick(),
            final(self)@.max_inflight == old(self)@.max_inflight,
            final(self)@.in_flight() <= old(self)@.max_inflight,
            final(self)@.encryption_key == old(self)@.encryption_key,
            final(self)@.min_shards == old(self)@.min_shards,
            final(self)@.offset == old(self)@.offset,
            final(self)@.length == old(self)@.length,
            final(self)@.sectors == old(self)@.sectors,
            step matches Step::Spawn(tasks) ==> {
                &&& 0 < tasks@.len() <= old(self)@.queue.len()
                &&& final(self)@.queue == old(self)@.queue.skip(tasks@.len() as int)
                &&& forall|k: int|
                    0 <= k < tasks@.len() ==> {
                        let t = #[trigger] tasks@[k];
                        &&& t.index == old(self)@.queue[k]
                        &&& t.sector == old(self)@.sectors[t.index as int]
                        &&& t.offset == old(self)@.offset
                        &&& t.length == old(self)@.length
                    }
            },
            !(step is Spawn) ==> final(self)@.queue == old(self)@.queue,
    {
        proof {
            lemma_tick(self@);
            lemma_step_starts_reads(self@, SlabEvent::Tick);
            assert(self@.queue.skip(0) =~= self@.queue);
        }
        if self.held == 0 && self.ended.len() == 0 && self.in_flight < self.max_inflight
            && self.next < self.order.len() {
            self.held = self.held + 1;
            assert(self@ =~= old(self)@.owe(1));
            self.go_on()
        } else {
            Step::Wait
        }
    }

    /// Hands the shards over, each in its place, absent where its sector was not read.
    pub fn into_shards(self) -> (shards: Vec<Option<Vec<u8>>>)
        ensures
            slots(shards@) == self@.shards,
            shards@.len() == self@.shards.len(),
            forall|i: int|
                0 <= i < shards@.len() ==> {
                    &&& (#[trigger] shards@[i]) is Some <==> self@.shards[i] is Some
                    &&& shards@[i] matches Some(data) ==> self@.shards[i] == Some(data@)
                },
    {
        self.shards
    }
}

/// Tells whether `order` lists the positions `0..n`, each once.
pub fn check_order(order: &Vec<usize>, n: usize) -> (b: bool)
    ensures
        b <==> is_order(order@, n as int),
        b <==> {
            &&& order@.len() == n
            &&& forall|k: int| 0 <= k < order@.len() ==> (#[trigger] order@[k]) < n
            &&& forall|k: int, l: int| 0 <= k < l < order@.len() ==> order@[k] != order@[l]
        },
{
    if order.len() != n {
        return false;
    }
    let mut i: usize = 0;
    while i < n
        invariant
            i <= n,
            n == order.len(),
            forall|k: int| 0 <= k < i ==> (#[trigger] order[k]) < n,
            forall|k: int, l: int| 0 <= k < l < i ==> order[k] != order[l],
        decreases n - i,
    {
        if order[i] >= n {
            assert(order@[i as int] >= n);
            return false;
        }
        let mut j: usize = 0;
        while j < i
            invariant
                j <= i < n,
                n == order.len(),
                forall|k: int| 0 <= k < j ==> order[k] != order[i as int],
            decreases i - j,
        {
            if order[j] == order[i] {
                assert(!order@.no_duplicates());
                return false;
            }
            j = j + 1;
        }
        i = i + 1;
    }
    true
}

/// Every sector of a slab is in exactly one place: in the queue, in flight, ended, read, or
/// failed.
pub proof fn lemma_sectors_accounted(v: SlabDownloadView)
    requires
        v.inv(),
    ensures
        v.queue.len() + v.in_flight() + v.ended.len() + v.successful() + v.failures()
            == v.sectors.len(),
{
    lemma_count_total(v.status);
}

/// No more reads are in flight at a time than allowed, and one is held back only where as many
/// are in flight.
pub proof fn lemma_reads_bounded(v: SlabDownloadView)
    requires
        v.inv(),
    ensures
        v.in_flight() <= v.max_inflight,
        v.held > 0 ==> v.in_flight() == v.max_inflight,
        v.startable() == 0,
{
}

/// A download is given up exactly when so many reads have failed that the limit is reached, or
/// that fewer than `min_shards` sectors are left. So whichever sectors fail, as long as the
/// others are enough and the limit is not reached, the download goes on.
pub proof fn lemma_gives_up(v: SlabDownloadView)
    requires
        v.inv(),
    ensures
        v.gives_up() <==> v.failures() >= MAX_TOTAL_FAILURES || v.sectors.len() - v.failures()
            < v.min_shards,
{
    lemma_count_total(v.status);
}

/// As many shards are present as reads succeeded; at the end, exactly as many as are needed.
pub proof fn lemma_shards_present(v: SlabDownloadView)
    requires
        v.inv(),
    ensures
        filled(v.shards) == v.successful(),
        v.remaining() == 0 ==> filled(v.shards) == v.min_shards,
{
    lemma_filled(v.shards, v.status);
}

proof fn lemma_filled(shards: Seq<Option<Seq<u8>>>, status: Seq<SectorStatus>)
    requires
        shards.len() == status.len(),
        forall|i: int|
            0 <= i < shards.len() ==> ((#[trigger] shards[i]) is Some <==> status[i] is Done),
    ensures
        filled(shards) == count(status, SectorStatus::Done),
    decreases shards.len(),
{
    if shards.len() > 0 {
        let s = shards.drop_last();
        assert forall|i: int| 0 <= i < s.len() implies ((#[trigger] s[i]) is Some
            <==> status.drop_last()[i] is Done) by {
            assert(s[i] == shards[i]);
        }
        lemma_filled(s, status.drop_last());
    }
}

/// The shard that a read brings is the part of the shard that was asked for, as it was before it
/// was encrypted and stored.
pub proof fn lemma_read_gives_shard(v: SlabDownloadView, i: int, shard: Seq<u8>)
    requires
        v.inv(),
        0 <= i < v.sectors.len(),
        v.offset + v.length <= shard.len(),
    ensures
        ({
            let stored = shard_cipher(v.encryption_key, (i % 256) as u8, 0, shard);
            let read = stored.subrange(v.offset as int, v.offset + v.length);
            v.decrypted(i, read) == shard.subrange(v.offset as int, v.offset + v.length)
        }),
{
    lemma_cipher_of_part(
        v.encryption_key,
        (i % 256) as u8,
        shard,
        v.offset as int,
        v.offset + v.length,
    );
}

/// A sector is read at most once: the reads that are started are of sectors that were queued,
/// no two of them of one sector, and what has left the queue does not come back to it.
pub proof fn lemma_read_once(v: SlabDownloadView, n: int)
    requires
        v.well_formed(),
        0 <= n <= v.held,
        v.in_flight() + n <= v.max_inflight,
    ensures
        v.spawn(n).well_formed(),
        forall|k: int|
            0 <= k < n ==> {
                &&& v.status[(#[trigger] v.tasks(n)[k]).index as int] is Queued
                &&& v.spawn(n).status[v.tasks(n)[k].index as int] is InFlight
            },
        forall|k: int, l: int|
            0 <= k < l < n ==> (#[trigger] v.tasks(n)[k]).index != (
            #[trigger] v.tasks(n)[l]).index,
        forall|i: int|
            0 <= i < v.status.len() && !(v.status[i] is Queued) ==> !((
            #[trigger] v.spawn(n).status[i]) is Queued),
    decreases n,
{
    lemma_spawn(v, n);
    if n > 0 {
        lemma_read_once(v, n - 1);
        lemma_spawn(v, n - 1);
        let before = v.spawn(n - 1);
        assert forall|k: int| 0 <= k < n implies {
            &&& v.status[(#[trigger] v.tasks(n)[k]).index as int] is Queued
            &&& v.spawn(n).status[v.tasks(n)[k].index as int] is InFlight
        } by {
            assert(v.queue[k] < v.sectors.len());
            assert(before.queue[0] == v.queue[n - 1]);
            if k < n - 1 {
                assert(v.tasks(n - 1)[k] == v.tasks(n)[k]);
                assert(before.status[v.queue[k] as int] is InFlight);
            }
        }
    }
}

/// An upper bound on how often a read can still be started, end or be looked at.
pub open spec fn work_left(v: SlabDownloadView) -> nat {
    3 * v.queue.len() + 2 * v.in_flight() + v.ended.len()
}

/// Every read that is started, every one that ends and every one that is looked at brings the
/// download closer to its end, so there are at most three times as many of these steps as the
/// slab has sectors.
pub proof fn lemma_progress(v: SlabDownloadView, i: usize, data: Option<Seq<u8>>)
    requires
        v.inv(),
    ensures
        work_left(v) <= 3 * v.sectors.len(),
        v.poll().0 is Spawn || v.poll().0 is Delivered || v.poll().0 is Again ==> work_left(
            v.poll().1,
        ) < work_left(v),
        work_left(v.poll().1) <= work_left(v),
        i < v.status.len() && v.status[i as int] is InFlight && v.decryptable(data) ==> work_left(
            v.read_ended(i, data).1,
        ) < work_left(v),
        v.tick().0 is Spawn ==> work_left(v.tick().1) < work_left(v),
        work_left(v.tick().1) <= work_left(v),
{
    lemma_count_total(v.status);
    if v.held == 0 && v.remaining() > 0 {
        if v.ended.len() > 0 {
            match v.ended[0].1 {
                Some(bytes) => {
                    lemma_deliver(v, bytes);
                },
                None => {
                    lemma_fail(v);
                    if !v.fail().gives_up() && v.fail().queue.len() > 0 {
                        lemma_started(v.fail().owe(1));
                        lemma_spawn(v.fail().owe(1), v.fail().owe(1).startable());
                    }
                },
            }
        } else if v.in_flight() == 0 && v.queue.len() > 0 {
            lemma_started(v.owe(v.wanted()));
            lemma_spawn(v.owe(v.wanted()), v.owe(v.wanted()).startable());
        }
    }
    if i < v.status.len() && v.status[i as int] is InFlight && v.decryptable(data) {
        let ended = v.end_read(i, data);
        lemma_end_read(v, i, data);
        lemma_started(ended);
        lemma_spawn(ended, ended.startable());
    }
    if v.held == 0 && v.ended.len() == 0 && v.in_flight() < v.max_inflight && v.queue.len() > 0 {
        lemma_started(v.owe(1));
        lemma_spawn(v.owe(1), v.owe(1).startable());
    }
}

proof fn lemma_spawn_exact(v: SlabDownloadView, n: int)
    requires
        v.well_formed(),
        0 <= n <= v.held,
        v.in_flight() + n <= v.max_inflight,
    ensures
        forall|i: usize|
            i < v.sectors.len() && v.status[i as int] is Queued && !(
            (#[trigger] v.spawn(n).status[i as int]) is Queued) ==> v.tasks(n).contains(v.task(i)),
    decreases n,
{
    if n > 0 {
        lemma_spawn_exact(v, n - 1);
        lemma_spawn(v, n - 1);
        let before = v.spawn(n - 1);
        assert forall|i: usize|
            i < v.sectors.len() && v.status[i as int] is Queued && !(
            (#[trigger] v.spawn(n).status[i as int]) is Queued) implies v.tasks(n).contains(
            v.task(i),
        ) by {
            assert(before.queue[0] == v.queue[n - 1]);
            if i == before.queue[0] {
                assert(v.tasks(n)[n - 1] == v.task(i));
            } else {
                assert(!(before.status[i as int] is Queued));
                let earlier = v.tasks(n - 1);
                let k = choose|k: int| 0 <= k < earlier.len() && earlier[k] == v.task(i);
                assert(v.tasks(n)[k] == earlier[k]);
            }
        }
    }
}

proof fn lemma_go_on_reads(v: SlabDownloadView, tasks: Seq<SectorDownloadTask>)
    requires
        v.well_formed(),
        v.held > 0 ==> v.max_inflight > 0,
        v.has_started(tasks),
    ensures
        v.started().has_started(tasks + v.starts()),
        v.go_on().1.has_started(tasks + v.go_on().0.reads()),
{
    let n = v.startable();
    lemma_started(v);
    lemma_spawn(v, n);
    lemma_read_once(v, n);
    lemma_spawn_exact(v, n);
    let after = v.started();
    let all = tasks + v.starts();
    assert forall|k: int| 0 <= k < all.len() implies {
        let i = (#[trigger] all[k]).index;
        &&& i < after.sectors.len()
        &&& !(after.status[i as int] is Queued)
        &&& all[k] == after.task(i)
    } by {
        if k < tasks.len() {
            assert(all[k] == tasks[k]);
        } else {
            assert(all[k] == v.tasks(n)[k - tasks.len()]);
            assert(v.queue[k - tasks.len()] < v.sectors.len());
        }
    }
    assert forall|k: int, l: int| 0 <= k < l < all.len() implies (#[trigger] all[k]).index != (
    #[trigger] all[l]).index by {
        if l < tasks.len() {
            assert(all[k] == tasks[k] && all[l] == tasks[l]);
        } else if k < tasks.len() {
            assert(all[k] == tasks[k]);
            assert(all[l] == v.tasks(n)[l - tasks.len()]);
        } else {
            assert(all[k] == v.tasks(n)[k - tasks.len()]);
            assert(all[l] == v.tasks(n)[l - tasks.len()]);
        }
    }
    assert forall|i: usize|
        i < after.sectors.len() && !((
        #[trigger] after.status[i as int]) is Queued) implies all.contains(after.task(i)) by {
        if v.status[i as int] is Queued {
            let new = v.starts();
            let k = choose|k: int| 0 <= k < new.len() && new[k] == v.task(i);
            assert(all[tasks.len() + k] == v.task(i));
        } else {
            let k = choose|k: int| 0 <= k < tasks.len() && tasks[k] == v.task(i);
            assert(all[k] == v.task(i));
        }
    }
    if n <= 0 {
        assert(all =~= tasks + v.go_on().0.reads());
    }
}

/// A step starts reads of sectors that were in the queue only, and no sector comes back to the
/// queue.
pub proof fn lemma_step_reads(
    v: SlabDownloadView,
    event: SlabEvent,
    tasks: Seq<SectorDownloadTask>,
)
    requires
        v.inv(),
        v.allows(event),
        v.has_started(tasks),
    ensures
        v.step(event).1.has_started(tasks + v.step(event).0.reads()),
{
    assert(tasks + Seq::<SectorDownloadTask>::empty() =~= tasks);
    match event {
        SlabEvent::Poll => {
            if v.held == 0 && v.remaining() > 0 {
                if v.ended.len() > 0 {
                    assert(v.status[v.ended[0].0 as int] is Ended);
                    match v.ended[0].1 {
                        Some(data) => {
                            lemma_same_queued(v, v.deliver(data), tasks);
                        },
                        None => {
                            lemma_fail(v);
                            lemma_same_queued(v, v.fail(), tasks);
                            if !v.fail().gives_up() && v.fail().queue.len() > 0 {
                                lemma_same_queued(v, v.fail().owe(1), tasks);
                                lemma_go_on_reads(v.fail().owe(1), tasks);
                            }
                        },
                    }
                } else if v.in_flight() == 0 && v.queue.len() > 0 {
                    lemma_same_queued(v, v.owe(v.wanted()), tasks);
                    lemma_go_on_reads(v.owe(v.wanted()), tasks);
                }
            }
        },
        SlabEvent::Ended(i, data) => {
            lemma_end_read(v, i, data);
            lemma_same_queued(v, v.end_read(i, data), tasks);
            lemma_go_on_reads(v.end_read(i, data), tasks);
        },
        SlabEvent::Tick => {
            if v.held == 0 && v.ended.len() == 0 && v.in_flight() < v.max_inflight
                && v.queue.len() > 0 {
                lemma_same_queued(v, v.owe(1), tasks);
                lemma_go_on_reads(v.owe(1), tasks);
            }
        },
    }
}

proof fn lemma_same_queued(
    v: SlabDownloadView,
    after: SlabDownloadView,
    tasks: Seq<SectorDownloadTask>,
)
    requires
        v.has_started(tasks),
        v.status.len() == v.sectors.len(),
        after.sectors == v.sectors,
        after.offset == v.offset,
        after.length == v.length,
        after.status.len() == v.status.len(),
        forall|i: int|
            0 <= i < v.status.len() ==> ((#[trigger] after.status[i]) is Queued
                <==> v.status[i] is Queued),
    ensures
        after.has_started(tasks),
{
    assert forall|k: int| 0 <= k < tasks.len() implies {
        let i = (#[trigger] tasks[k]).index;
        &&& i < after.sectors.len()
        &&& !(after.status[i as int] is Queued)
        &&& tasks[k] == after.task(i)
    } by {
        assert(tasks[k] == v.task(tasks[k].index));
    }
    assert forall|i: usize|
        i < after.sectors.len() && !((
        #[trigger] after.status[i as int]) is Queued) implies tasks.contains(after.task(i)) by {
        assert(!(v.status[i as int] is Queued));
        assert(after.task(i) == v.task(i));
    }
}

/// Going on changes the queue and the status of sectors that were in it, and nothing else.
pub(crate) proof fn lemma_frame(v: SlabDownloadView)
    requires
        v.well_formed(),
        v.held > 0 ==> v.max_inflight > 0,
    ensures
        ({
            let after = v.go_on().1;
            &&& after == (SlabDownloadView {
                held: after.held,
                queue: after.queue,
                status: after.status,
                ..v
            })
            &&& after.status.len() == v.status.len()
            &&& forall|i: int|
                0 <= i < v.status.len() ==> (#[trigger] after.status[i]) == v.status[i]
                    || after.status[i] is InFlight
        }),
{
    lemma_started(v);
    lemma_spawn(v, v.startable());
    let after = v.go_on().1;
    assert forall|i: int| 0 <= i < v.status.len() implies (#[trigger] after.status[i])
        == v.status[i] || after.status[i] is InFlight by {
        if !(v.status[i] is Queued) {
            assert(v.spawn(v.startable()).status[i] == v.status[i]);
        }
    }
}

/// What a step changes: the invariant and what the download is of stay; a shard is delivered
/// exactly where the first read that ended is looked at and had brought data; only that read
/// becomes done or failed; a download ends finished with all shards, or failed where it is
/// hopeless.
pub proof fn lemma_step(v: SlabDownloadView, event: SlabEvent)
    requires
        v.inv(),
        v.allows(event),
    ensures
        ({
            let (step, after) = v.step(event);
            let looked = after.ended == v.ended.skip(1) && v.ended.len() > 0 && !(event is Ended);
            &&& after.inv()
            &&& after.sectors == v.sectors
            &&& after.min_shards == v.min_shards
            &&& after.encryption_key == v.encryption_key
            &&& after.offset == v.offset
            &&& step is Finished ==> after.remaining() == 0
            &&& step is Failed ==> after.gives_up()
            &&& match event {
                SlabEvent::Ended(i, data) => after.ended == v.ended.push((i, data)),
                _ => after.ended == v.ended || looked,
            }
            &&& step is Delivered ==> {
                &&& looked
                &&& v.ended[0].1 is Some
                &&& step == StepView::Delivered(v.ended[0].0)
                &&& after.shards == v.shards.update(
                    v.ended[0].0 as int,
                    Some(v.decrypted(v.ended[0].0 as int, v.ended[0].1->0)),
                )
            }
            &&& !(step is Delivered) ==> after.shards == v.shards
            &&& forall|i: int|
                0 <= i < v.status.len() && (#[trigger] after.status[i]) is Done && !(
                v.status[i] is Done) ==> looked && i == v.ended[0].0 && v.ended[0].1 is Some
            &&& forall|i: int|
                0 <= i < v.status.len() && (#[trigger] after.status[i]) is Failed && !(
                v.status[i] is Failed) ==> looked && i == v.ended[0].0 && v.ended[0].1 is None
        }),
{
    match event {
        SlabEvent::Poll => {
            lemma_poll(v);
            if v.held == 0 && v.remaining() > 0 {
                if v.ended.len() > 0 {
                    match v.ended[0].1 {
                        Some(data) => {},
                        None => {
                            lemma_fail(v);
                            if !v.fail().gives_up() && v.fail().queue.len() > 0 {
                                lemma_frame(v.fail().owe(1));
                            }
                        },
                    }
                } else if v.in_flight() == 0 && v.queue.len() > 0 {
                    lemma_frame(v.owe(v.wanted()));
                }
            }
        },
        SlabEvent::Ended(i, data) => {
            lemma_read_ended(v, i, data);
            lemma_end_read(v, i, data);
            lemma_frame(v.end_read(i, data));
        },
        SlabEvent::Tick => {
            lemma_tick(v);
            if v.held == 0 && v.ended.len() == 0 && v.in_flight() < v.max_inflight
                && v.queue.len() > 0 {
                lemma_frame(v.owe(1));
            }
        },
    }
}

} // verus!
