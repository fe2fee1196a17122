//! Whole runs of a slab's download: what holds after every schedule of reads that end, of polls
//! and of ticks.

use vstd::prelude::*;

use crate::slab_download::{
    count, filled, lemma_gives_up, lemma_shards_present, lemma_step, lemma_step_reads,
    SectorDownloadTask, SectorStatus, SlabDownloadView, SlabEvent, StepView, MAX_TOTAL_FAILURES,
};

verus! {

/// The state after the given events.
pub open spec fn run(v: SlabDownloadView, events: Seq<SlabEvent>) -> SlabDownloadView
    decreases events.len(),
{
    if events.len() == 0 {
        v
    } else {
        run(v, events.drop_last()).step(events.last()).1
    }
}

/// The steps that the given events give, one for each.
pub open spec fn steps(v: SlabDownloadView, events: Seq<SlabEvent>) -> Seq<StepView>
    decreases events.len(),
{
    if events.len() == 0 {
        Seq::empty()
    } else {
        steps(v, events.drop_last()).push(run(v, events.drop_last()).step(events.last()).0)
    }
}

/// Whether each of the events can happen: a read ends only once it was started, and once.
pub open spec fn is_run(v: SlabDownloadView, events: Seq<SlabEvent>) -> bool
    decreases events.len(),
{
    events.len() == 0 || is_run(v, events.drop_last()) && run(v, events.drop_last()).allows(
        events.last(),
    )
}

/// The reads that were started: those that were handed out `first`, and those that the steps hand
/// out.
pub open spec fn reads(
    v: SlabDownloadView,
    first: Seq<SectorDownloadTask>,
    events: Seq<SlabEvent>,
) -> Seq<SectorDownloadTask>
    decreases events.len(),
{
    if events.len() == 0 {
        first
    } else {
        reads(v, first, events.drop_last()) + run(v, events.drop_last()).step(
            events.last(),
        ).0.reads()
    }
}

/// How many of the first `n` sectors are readable.
pub open spec fn readable_count(readable: spec_fn(int) -> bool, n: nat) -> nat
    decreases n,
{
    if n == 0 {
        0
    } else {
        readable_count(readable, (n - 1) as nat) + if readable(n - 1) {
            1nat
        } else {
            0nat
        }
    }
}

/// Whether exactly the reads of readable sectors bring data.
pub open spec fn reads_succeed_where(
    events: Seq<SlabEvent>,
    readable: spec_fn(int) -> bool,
) -> bool {
    forall|k: int|
        0 <= k < events.len() ==> ((#[trigger] events[k]) matches SlabEvent::Ended(i, data) ==> (
        data is Some <==> readable(i as int)))
}

/// Whether the state agrees with which sectors are readable.
spec fn agrees(v: SlabDownloadView, readable: spec_fn(int) -> bool) -> bool {
    &&& forall|i: int|
        0 <= i < v.status.len() ==> ((#[trigger] v.status[i]) is Done ==> readable(i)) && (
        v.status[i] is Failed ==> !readable(i))
    &&& forall|k: int|
        0 <= k < v.ended.len() ==> ((#[trigger] v.ended[k]).1 is Some <==> readable(
            v.ended[k].0 as int,
        ))
}

proof fn lemma_agrees(
    v: SlabDownloadView,
    events: Seq<SlabEvent>,
    readable: spec_fn(int) -> bool,
)
    requires
        v.begins(),
        is_run(v, events),
        reads_succeed_where(events, readable),
    ensures
        run(v, events).inv(),
        run(v, events).sectors == v.sectors,
        run(v, events).min_shards == v.min_shards,
        agrees(run(v, events), readable),
    decreases events.len(),
{
    if events.len() > 0 {
        let rest = events.drop_last();
        let e = events.last();
        assert forall|k: int| 0 <= k < rest.len() implies ((
        #[trigger] rest[k]) matches SlabEvent::Ended(i, data) ==> (data is Some <==> readable(
            i as int,
        ))) by {
            assert(rest[k] == events[k]);
        }
        lemma_agrees(v, rest, readable);
        let before = run(v, rest);
        let after = run(v, events);
        lemma_step(before, e);
        assert(events[events.len() - 1] == e);
        assert forall|k: int| 0 <= k < after.ended.len() implies ((#[trigger] after.ended[k]).1
            is Some <==> readable(after.ended[k].0 as int)) by {
            if e is Ended {
                if k < before.ended.len() {
                    assert(after.ended[k] == before.ended[k]);
                }
            } else if after.ended.len() == before.ended.len() {
                assert(after.ended[k] == before.ended[k]);
            } else {
                assert(after.ended[k] == before.ended[k + 1]);
            }
        }
        assert forall|i: int| 0 <= i < after.status.len() implies ((
        #[trigger] after.status[i]) is Done ==> readable(i)) && (after.status[i] is Failed
            ==> !readable(i)) by {
            if after.status[i] is Done && !(before.status[i] is Done) {
                assert(before.ended[0].1 is Some);
            }
            if after.status[i] is Failed && !(before.status[i] is Failed) {
                assert(before.ended[0].1 is None);
            }
        }
    }
}

proof fn lemma_counts_agree(status: Seq<SectorStatus>, readable: spec_fn(int) -> bool)
    requires
        forall|i: int|
            0 <= i < status.len() ==> ((#[trigger] status[i]) is Done ==> readable(i)) && (
            status[i] is Failed ==> !readable(i)),
    ensures
        count(status, SectorStatus::Done) <= readable_count(readable, status.len()),
        count(status, SectorStatus::Failed) <= status.len() - readable_count(
            readable,
            status.len(),
        ),
    decreases status.len(),
{
    if status.len() > 0 {
        let rest = status.drop_last();
        assert forall|i: int| 0 <= i < rest.len() implies ((
        #[trigger] rest[i]) is Done ==> readable(i)) && (rest[i] is Failed ==> !readable(i)) by {
            assert(rest[i] == status[i]);
        }
        lemma_counts_agree(rest, readable);
        assert(status[status.len() - 1] == status.last());
    }
}

/// A run of a download that ends is finished exactly where enough sectors are readable, provided
/// that fewer sectors than the limit on failures are unreadable. The order in which reads end
/// makes no difference.
pub proof fn lemma_run_outcome(
    v: SlabDownloadView,
    events: Seq<SlabEvent>,
    readable: spec_fn(int) -> bool,
)
    requires
        v.begins(),
        events.len() > 0,
        is_run(v, events),
        reads_succeed_where(events, readable),
    ensures
        ({
            let last = steps(v, events).last();
            let enough = readable_count(readable, v.sectors.len()) >= v.min_shards;
            let tolerable = v.sectors.len() - readable_count(readable, v.sectors.len())
                < MAX_TOTAL_FAILURES;
            &&& last is Finished ==> enough
            &&& last is Failed && tolerable ==> !enough
            &&& (last is Finished || last is Failed) && tolerable ==> (last is Finished
                <==> enough)
        }),
{
    let before = run(v, events.drop_last());
    let after = run(v, events);
    lemma_agrees(v, events, readable);
    assert forall|k: int| 0 <= k < events.drop_last().len() implies ((
    #[trigger] events.drop_last()[k]) matches SlabEvent::Ended(i, data) ==> (data is Some
        <==> readable(i as int))) by {
        assert(events.drop_last()[k] == events[k]);
    }
    lemma_agrees(v, events.drop_last(), readable);
    lemma_step(before, events.last());
    lemma_counts_agree(after.status, readable);
    lemma_gives_up(after);
}

/// No sector is read twice in a run: the reads that were started are of different sectors, each
/// with the offset and the length of the download, and only sectors that were read have left the
/// queue.
pub proof fn lemma_run_reads_once(
    v: SlabDownloadView,
    first: Seq<SectorDownloadTask>,
    events: Seq<SlabEvent>,
)
    requires
        v.inv(),
        v.has_started(first),
        is_run(v, events),
    ensures
        run(v, events).inv(),
        run(v, events).has_started(reads(v, first, events)),
    decreases events.len(),
{
    if events.len() > 0 {
        lemma_run_reads_once(v, first, events.drop_last());
        lemma_step(run(v, events.drop_last()), events.last());
        lemma_step_reads(
            run(v, events.drop_last()),
            events.last(),
            reads(v, first, events.drop_last()),
        );
    }
}

/// Exactly the slots of the shards that were delivered are filled in a run, each with what the
/// read of its sector brought, decrypted. At the end of a finished run as many are filled as are
/// needed.
pub proof fn lemma_run_slots(v: SlabDownloadView, events: Seq<SlabEvent>)
    requires
        v.begins(),
        is_run(v, events),
    ensures
        run(v, events).inv(),
        forall|i: usize|
            i < v.sectors.len() ==> (run(v, events).shards[i as int] is Some
                <==> #[trigger] steps(v, events).contains(StepView::Delivered(i))),
        forall|i: usize|
            i < v.sectors.len() && (#[trigger] run(v, events).shards[i as int]) is Some
                ==> exists|data: Seq<u8>| #[trigger]
                events.contains(SlabEvent::Ended(i, Some(data))) && run(
                    v,
                    events,
                ).shards[i as int] == Some(v.decrypted(i as int, data)),
        events.len() > 0 && steps(v, events).last() is Finished ==> filled(
            run(v, events).shards,
        ) == v.min_shards,
{
    lemma_slots(v, events);
    lemma_shards_present(run(v, events));
    if events.len() > 0 {
        lemma_slots(v, events.drop_last());
        lemma_step(run(v, events.drop_last()), events.last());
    }
}

proof fn lemma_slots(v: SlabDownloadView, events: Seq<SlabEvent>)
    requires
        v.begins(),
        is_run(v, events),
    ensures
        run(v, events).inv(),
        run(v, events).sectors == v.sectors,
        run(v, events).min_shards == v.min_shards,
        run(v, events).encryption_key == v.encryption_key,
        run(v, events).offset == v.offset,
        forall|k: int|
            0 <= k < run(v, events).ended.len() ==> events.contains(
                SlabEvent::Ended(
                    (#[trigger] run(v, events).ended[k]).0,
                    run(v, events).ended[k].1,
                ),
            ),
        forall|i: usize|
            i < v.sectors.len() ==> (run(v, events).shards[i as int] is Some
                <==> #[trigger] steps(v, events).contains(StepView::Delivered(i))),
        forall|i: usize|
            i < v.sectors.len() && (#[trigger] run(v, events).shards[i as int]) is Some
                ==> exists|data: Seq<u8>| #[trigger]
                events.contains(SlabEvent::Ended(i, Some(data))) && run(
                    v,
                    events,
                ).shards[i as int] == Some(v.decrypted(i as int, data)),
    decreases events.len(),
{
    if events.len() == 0 {
        assert forall|i: usize| i < v.sectors.len() implies (run(v, events).shards[i as int] is Some
            <==> #[trigger] steps(v, events).contains(StepView::Delivered(i))) by {
            assert(v.status[i as int] is Queued || v.status[i as int] is InFlight);
        }
        assert forall|i: usize|
            i < v.sectors.len() && (
            #[trigger] run(v, events).shards[i as int]) is Some implies exists|data: Seq<u8>|
            #[trigger] events.contains(SlabEvent::Ended(i, Some(data))) && run(
                v,
                events,
            ).shards[i as int] == Some(v.decrypted(i as int, data)) by {
            assert(v.status[i as int] is Queued || v.status[i as int] is InFlight);
        }
    } else {
        let rest = events.drop_last();
        let e = events.last();
        let before = run(v, rest);
        let after = run(v, events);
        let step = before.step(e).0;
        lemma_slots(v, rest);
        lemma_step(before, e);
        assert(events =~= rest.push(e));
        assert(events[rest.len() as int] == e);
        assert forall|x: SlabEvent| #[trigger] rest.contains(x) implies events.contains(x) by {
            let k = choose|k: int| 0 <= k < rest.len() && rest[k] == x;
            assert(events[k] == x);
        }
        let old_steps = steps(v, rest);
        let new_steps = steps(v, events);
        assert(new_steps == old_steps.push(step));
        assert(new_steps[old_steps.len() as int] == step);
        assert forall|x: StepView| #[trigger] new_steps.contains(x) <==> old_steps.contains(x) || x
            == step by {
            if old_steps.contains(x) {
                let k = choose|k: int| 0 <= k < old_steps.len() && old_steps[k] == x;
                assert(new_steps[k] == x);
            }
        }
        assert forall|k: int| 0 <= k < after.ended.len() implies events.contains(
            SlabEvent::Ended((#[trigger] after.ended[k]).0, after.ended[k].1),
        ) by {
            if e is Ended {
                if k < before.ended.len() {
                    assert(after.ended[k] == before.ended[k]);
                }
            } else if after.ended.len() == before.ended.len() {
                assert(after.ended[k] == before.ended[k]);
            } else {
                assert(after.ended[k] == before.ended[k + 1]);
            }
        }
        assert forall|i: usize| i < v.sectors.len() implies (after.shards[i as int] is Some
            <==> #[trigger] new_steps.contains(StepView::Delivered(i))) by {
            assert(before.shards[i as int] is Some <==> old_steps.contains(
                StepView::Delivered(i),
            ));
        }
        assert forall|i: usize|
            i < v.sectors.len() && (
            #[trigger] after.shards[i as int]) is Some implies exists|data: Seq<u8>| #[trigger]
            events.contains(SlabEvent::Ended(i, Some(data))) && after.shards[i as int] == Some(
                v.decrypted(i as int, data),
            ) by {
            if step == StepView::Delivered(i) {
                let data = before.ended[0].1->0;
                assert(rest.contains(SlabEvent::Ended(before.ended[0].0, before.ended[0].1)));
                assert(events.contains(SlabEvent::Ended(i, Some(data))));
                assert(after.shards[i as int] == Some(v.decrypted(i as int, data)));
            } else {
                assert(after.shards[i as int] == before.shards[i as int]);
                let data = choose|data: Seq<u8>| #[trigger]
                    rest.contains(SlabEvent::Ended(i, Some(data))) && before.shards[i as int]
                        == Some(v.decrypted(i as int, data));
                assert(events.contains(SlabEvent::Ended(i, Some(data))));
            }
        }
    }
}

} // verus!
