//! What each step of a slab's download does, said of the fields of its state.

use vstd::prelude::*;

use crate::download::DownloadError;
use crate::encryption::shard_keystream;
use crate::slab_download::{
    count, lemma_end_read, lemma_fail, lemma_frame, lemma_spawn, lemma_started, lemma_step, slots,
    SectorStatus, SlabDownloadView, SlabEvent, Step, StepView,
};

verus! {

/// The reads in flight, those that succeeded and those that failed are the sectors of that status.
pub proof fn lemma_counts_are_of_statuses(v: SlabDownloadView)
    ensures
        v.in_flight() == v.status.filter(|s: SectorStatus| s is InFlight).len(),
        v.successful() == v.status.filter(|s: SectorStatus| s is Done).len(),
        v.failures() == v.status.filter(|s: SectorStatus| s is Failed).len(),
        v.remaining() == v.min_shards - v.status.filter(|s: SectorStatus| s is Done).len(),
{
    lemma_count_filter(v.status, SectorStatus::InFlight, |s: SectorStatus| s is InFlight);
    lemma_count_filter(v.status, SectorStatus::Done, |s: SectorStatus| s is Done);
    lemma_count_filter(v.status, SectorStatus::Failed, |s: SectorStatus| s is Failed);
}

proof fn lemma_count_filter(
    status: Seq<SectorStatus>,
    s: SectorStatus,
    is_s: spec_fn(SectorStatus) -> bool,
)
    requires
        forall|x: SectorStatus| #[trigger] is_s(x) <==> x == s,
    ensures
        count(status, s) == status.filter(is_s).len(),
    decreases status.len(),
{
    reveal(Seq::filter);
    if status.len() > 0 {
        lemma_count_filter(status.drop_last(), s, is_s);
        assert(is_s(status.last()) <==> status.last() == s);
    }
}

/// What a step leaves as it was: what the download is of. The reads that it starts are of the
/// first sectors in the queue, which leave it; each read asks for its own sector, at the offset
/// and of the length of the download. A step that says to start reads names one.
pub proof fn lemma_step_starts_reads(v: SlabDownloadView, event: SlabEvent)
    requires
        v.inv(),
        v.allows(event),
    ensures
        ({
            let (step, w) = v.step(event);
            let n = step.reads().len() as int;
            &&& w.inv()
            &&& w.encryption_key == v.encryption_key
            &&& w.min_shards == v.min_shards
            &&& w.offset == v.offset
            &&& w.length == v.length
            &&& w.max_inflight == v.max_inflight
            &&& w.sectors == v.sectors
            &&& w.queue == v.queue.skip(n)
            &&& step is Spawn <==> n > 0
            &&& n <= v.queue.len()
            &&& forall|k: int|
                0 <= k < n ==> {
                    let t = #[trigger] step.reads()[k];
                    &&& t.index == v.queue[k]
                    &&& t.sector == v.sectors[t.index as int]
                    &&& t.offset == v.offset
                    &&& t.length == v.length
                }
        }),
{
    lemma_step(v, event);
    let (step, w) = v.step(event);
    assert(v.queue.skip(0) =~= v.queue);
    match event {
        SlabEvent::Poll => {
            if v.held == 0 && v.remaining() > 0 {
                if v.ended.len() > 0 {
                    match v.ended[0].1 {
                        Some(data) => {},
                        None => {
                            lemma_fail(v);
                            let f = v.fail();
                            if !f.gives_up() && f.queue.len() > 0 {
                                lemma_going_on(f.owe(1));
                            }
                        },
                    }
                } else if v.in_flight() == 0 && v.queue.len() > 0 {
                    lemma_going_on(v.owe(v.wanted()));
                }
            }
        },
        SlabEvent::Ended(i, data) => {
            lemma_end_read(v, i, data);
            lemma_going_on(v.end_read(i, data));
        },
        SlabEvent::Tick => {
            if v.held == 0 && v.ended.len() == 0 && v.in_flight() < v.max_inflight
                && v.queue.len() > 0 {
                lemma_going_on(v.owe(1));
            }
        },
    }
}

proof fn lemma_going_on(v: SlabDownloadView)
    requires
        v.well_formed(),
        v.held > 0 ==> v.max_inflight > 0,
    ensures
        ({
            let (step, w) = v.go_on();
            let n = step.reads().len() as int;
            let room = v.max_inflight - v.in_flight();
            &&& w.inv()
            &&& w == (SlabDownloadView { held: w.held, queue: w.queue, status: w.status, ..v })
            &&& w.queue == v.queue.skip(n)
            &&& n == if v.held < room {
                v.held as int
            } else {
                room
            }
            &&& w.held == v.held - n
            &&& w.in_flight() == v.in_flight() + n
            &&& n > 0 ==> step is Spawn
            &&& n == 0 ==> step is Wait
            &&& n <= v.queue.len()
            &&& forall|k: int|
                0 <= k < n ==> {
                    let t = #[trigger] step.reads()[k];
                    &&& t.index == v.queue[k]
                    &&& t.sector == v.sectors[t.index as int]
                    &&& t.offset == v.offset
                    &&& t.length == v.length
                }
        }),
{
    lemma_started(v);
    lemma_spawn(v, v.startable());
    assert(v.queue.skip(0) =~= v.queue);
}

/// A read that ends waits to be looked at, behind those that ended before it. Its end makes room
/// for one read, which is started where one was held back.
pub proof fn lemma_end_of_read(v: SlabDownloadView, i: usize, data: Option<Seq<u8>>)
    requires
        v.inv(),
        v.allows(SlabEvent::Ended(i, data)),
    ensures
        ({
            let (step, w) = v.read_ended(i, data);
            let n = step.reads().len() as int;
            &&& w.ended == v.ended.push((i, data))
            &&& w.status[i as int] is Ended
            &&& w.shards == v.shards
            &&& n == if v.held > 0 {
                1int
            } else {
                0int
            }
            &&& n == 0 ==> step is Wait
            &&& w.held == v.held - n
            &&& w.in_flight() == v.in_flight() - 1 + n
        }),
{
    lemma_end_read(v, i, data);
    lemma_going_on(v.end_read(i, data));
    lemma_step(v, SlabEvent::Ended(i, data));
    let e = v.end_read(i, data);
    lemma_frame(e);
    assert(e.status[i as int] is Ended);
    lemma_spawn(e, e.startable());
}

/// Nothing is looked at while a read is held back. Otherwise a download with all shards that it
/// needs is finished.
pub proof fn lemma_poll_finishes(v: SlabDownloadView)
    requires
        v.inv(),
    ensures
        v.held > 0 ==> v.poll().0 is Wait && v.poll().1 == v,
        v.held == 0 && v.remaining() == 0 ==> v.poll().0 is Finished && v.poll().1 == v,
        v.poll().0 is Finished ==> v.remaining() == 0,
{
    lemma_step(v, SlabEvent::Poll);
}

/// The first read that ended is looked at, where shards are still needed and no read is held back.
/// If it brought data, its shard is kept: each byte with the byte of the keystream taken off that
/// belongs to its place in the shard. Nothing else changes.
pub proof fn lemma_poll_keeps_shard(v: SlabDownloadView, data: Seq<u8>)
    requires
        v.inv(),
        v.held == 0,
        v.remaining() > 0,
        v.ended.len() > 0,
        v.ended[0].1 == Some(data),
    ensures
        ({
            let (step, w) = v.poll();
            let i = v.ended[0].0;
            &&& step == StepView::Delivered(i)
            &&& w.ended == v.ended.skip(1)
            &&& w.status == v.status.update(i as int, SectorStatus::Done)
            &&& w.queue == v.queue
            &&& w.held == 0
            &&& w.shards.len() == v.shards.len()
            &&& forall|j: int|
                0 <= j < v.shards.len() && j != i ==> (#[trigger] w.shards[j]) == v.shards[j]
            &&& w.shards[i as int] is Some
            &&& w.shards[i as int]->0.len() == data.len()
            &&& forall|k: int|
                0 <= k < data.len() ==> (#[trigger] w.shards[i as int]->0[k]) == data[k]
                    ^ shard_keystream(v.encryption_key, (i % 256) as u8, v.offset + k)
        }),
{
    lemma_step(v, SlabEvent::Poll);
}

/// The first read that ended is looked at, where shards are still needed and no read is held back.
/// If it failed, the download is given up with the thirtieth failure, and where the reads that
/// were not looked at and the sectors in the queue are fewer than the shards still needed.
/// Otherwise one more read is wanted, unless more reads were not looked at than shards are needed
/// or the queue is empty; it is started, or held back where no more may be in flight.
pub proof fn lemma_poll_notes_failure(v: SlabDownloadView)
    requires
        v.inv(),
        v.held == 0,
        v.remaining() > 0,
        v.ended.len() > 0,
        v.ended[0].1 is None,
    ensures
        ({
            let (step, w) = v.poll();
            let n = step.reads().len() as int;
            let under_way = v.in_flight() + v.ended.len() - 1;
            let hopeless = v.failures() + 1 >= 30 || under_way + v.queue.len() < v.remaining();
            let wanted = !hopeless && under_way <= v.remaining() && v.queue.len() > 0;
            &&& w.ended == v.ended.skip(1)
            &&& w.shards == v.shards
            &&& w.status[v.ended[0].0 as int] is Failed
            &&& w.failures() == v.failures() + 1
            &&& w.successful() == v.successful()
            &&& hopeless <==> step is Failed
            &&& step is Failed ==> step == StepView::Failed(
                DownloadError::NotEnoughShards(v.successful() as u8, v.min_shards),
            )
            &&& wanted && v.in_flight() < v.max_inflight ==> step is Spawn && n == 1 && w.held == 0
            &&& wanted && v.in_flight() == v.max_inflight ==> step is Wait && n == 0 && w.held == 1
            &&& !hopeless && !wanted ==> step is Again && n == 0 && w.held == 0
        }),
{
    lemma_step(v, SlabEvent::Poll);
    lemma_fail(v);
    let f = v.fail();
    if !f.gives_up() && f.queue.len() > 0 {
        lemma_going_on(f.owe(1));
        lemma_frame(f.owe(1));
        let o = f.owe(1);
        lemma_spawn(o, o.startable());
        let i = v.ended[0].0 as int;
        assert(v.status[i] is Ended);
        assert(o.status[i] is Failed);
        assert(o.spawn(o.startable()).status[i] == o.status[i]);
        assert(o.started().failures() == f.failures());
        assert(o.started().successful() == f.successful());
    }
}

/// Where no read has ended that was not looked at, `poll` waits for one that is in flight. Where
/// none is in flight either, the download is given up if the queue is empty; otherwise as many
/// reads are wanted as shards are needed or as the queue has, and as many of them are started as
/// may be in flight.
pub proof fn lemma_poll_wants_reads(v: SlabDownloadView)
    requires
        v.inv(),
        v.held == 0,
        v.remaining() > 0,
        v.ended.len() == 0,
    ensures
        ({
            let (step, w) = v.poll();
            let n = step.reads().len() as int;
            &&& w.ended == v.ended
            &&& w.shards == v.shards
            &&& v.in_flight() > 0 ==> step is Wait && w == v
            &&& v.in_flight() == 0 && v.queue.len() == 0 ==> w == v && step == StepView::Failed(
                DownloadError::NotEnoughShards(v.successful() as u8, v.min_shards),
            )
            &&& v.in_flight() == 0 && v.queue.len() > 0 ==> {
                &&& step is Spawn
                &&& n <= v.max_inflight && n <= v.remaining() && n <= v.queue.len()
                &&& n == v.max_inflight || n == v.remaining() || n == v.queue.len()
                &&& n + w.held <= v.remaining() && n + w.held <= v.queue.len()
                &&& n + w.held == v.remaining() || n + w.held == v.queue.len()
            }
        }),
{
    lemma_step(v, SlabEvent::Poll);
    if v.in_flight() == 0 && v.queue.len() > 0 {
        lemma_going_on(v.owe(v.wanted()));
    }
}

/// When no read has ended for a while, one more is started, where all that ended were looked at,
/// none is held back, more may be in flight and the queue is not empty. Otherwise nothing happens.
pub proof fn lemma_tick_races(v: SlabDownloadView)
    requires
        v.inv(),
    ensures
        ({
            let (step, w) = v.tick();
            let races = v.held == 0 && v.ended.len() == 0 && v.in_flight() < v.max_inflight
                && v.queue.len() > 0;
            &&& races ==> step is Spawn && step.reads().len() == 1
            &&& races ==> w.ended == v.ended && w.shards == v.shards && w.held == 0
            &&& races ==> w.in_flight() == v.in_flight() + 1
            &&& !races ==> step is Wait && w == v
        }),
{
    if v.held == 0 && v.ended.len() == 0 && v.in_flight() < v.max_inflight && v.queue.len() > 0 {
        lemma_going_on(v.owe(1));
    }
}

/// A step is seen as what it is.
pub proof fn lemma_step_seen(step: Step)
    ensures
        step is Spawn <==> step@ is Spawn,
        step matches Step::Spawn(tasks) ==> step@ == StepView::Spawn(tasks@),
        step is Delivered <==> step@ is Delivered,
        step matches Step::Delivered(i) ==> step@ == StepView::Delivered(i),
        step is Again <==> step@ is Again,
        step is Wait <==> step@ is Wait,
        step is Finished <==> step@ is Finished,
        step is Failed <==> step@ is Failed,
        step matches Step::Failed(e) ==> step@ == StepView::Failed(e),
        step@ matches StepView::Spawn(tasks) ==> step@.reads() == tasks,
        !(step is Spawn) ==> step@.reads().len() == 0,
{
}

/// Shard slots are seen in their places, with what they hold.
pub proof fn lemma_slots_seen(shards: Seq<Option<Vec<u8>>>)
    ensures
        slots(shards).len() == shards.len(),
        forall|i: int|
            0 <= i < shards.len() ==> {
                &&& (#[trigger] slots(shards)[i]) is Some <==> shards[i] is Some
                &&& shards[i] matches Some(data) ==> slots(shards)[i] == Some(data@)
            },
{
}

} // verus!
