//! What a frame does, told by who is where before and after it.

use vstd::prelude::*;

use crate::model::{least, OutputtingView, QueuedView, SourceKey, StateView};
use crate::proofs::{
    lemma_done_rank, lemma_filter_keeps, lemma_filter_order, lemma_grown, lemma_grown_keeps,
    lemma_grown_origin, lemma_grown_slot, lemma_grown_stable, lemma_next_frame_same,
    lemma_next_frame_wf, lemma_outputters_cleared, lemma_queue_cleared, lemma_refilled,
    lemma_regrouped, lemma_regrouped_slot, lemma_rotated, lemma_silent_before, seated,
};

verus! {

/// Who waits once silent sources have left the queue: each is a queued source that was heard.
proof fn lemma_waiting(v: StateView, p: int) -> (i: int)
    requires
        0 <= p < v.queue_cleared().queue.len(),
    ensures
        0 <= i < v.queue.len(),
        v.queue[i] == v.queue_cleared().queue[p],
        v.frame - v.queue[i].last_packet <= v.timeout,
{
    let waiting = v.queue_cleared().queue;
    lemma_filter_keeps(v.queue, v.queue_heard());
    assert(v.queue.contains(waiting[p]));
    assert((v.queue_heard())(waiting[p]));
    choose|i: int| 0 <= i < v.queue.len() && v.queue[i] == waiting[p]
}

/// Every queued source that was heard waits.
proof fn lemma_waits(v: StateView, i: int) -> (p: int)
    requires
        0 <= i < v.queue.len(),
        v.frame - v.queue[i].last_packet <= v.timeout,
    ensures
        0 <= p < v.queue_cleared().queue.len(),
        v.queue_cleared().queue[p] == v.queue[i],
{
    let waiting = v.queue_cleared().queue;
    lemma_filter_keeps(v.queue, v.queue_heard());
    assert((v.queue_heard())(v.queue[i]));
    assert(waiting.contains(v.queue[i]));
    choose|p: int| 0 <= p < waiting.len() && waiting[p] == v.queue[i]
}

/// Sources wait in the order of the queue.
proof fn lemma_waiting_order(v: StateView, p1: int, p2: int, i1: int, i2: int)
    requires
        v.consistent(),
        0 <= p1 < p2 < v.queue_cleared().queue.len(),
        0 <= i1 < v.queue.len(),
        0 <= i2 < v.queue.len(),
        v.queue_cleared().queue[p1].id == v.queue[i1].id,
        v.queue_cleared().queue[p2].id == v.queue[i2].id,
    ensures
        i1 < i2,
{
    let (k1, k2) = lemma_filter_order(v.queue, v.queue_heard(), p1, p2);
    assert(v.queue[k1].id == v.queue[i1].id);
    assert(v.queue[k2].id == v.queue[i2].id);
}

/// What the queue holds after a frame: first those that wait and were not served, then those that
/// gave their slots up, which were outputting in the same slots before.
proof fn lemma_next_queue(v: StateView)
    requires
        v.consistent(),
    ensures
        0 <= v.served() <= v.queue_cleared().queue.len(),
        v.next_frame().queue.len() == v.grown().queue.len(),
        v.next_frame().queue.len() >= v.queue_cleared().queue.len() - v.served(),
        forall|k: int|
            0 <= k < v.queue_cleared().queue.len() - v.served() ==> #[trigger]
                v.next_frame().queue[k] == v.queue_cleared().queue[v.served() + k],
        forall|k: int|
            v.queue_cleared().queue.len() - v.served() <= k < v.next_frame().queue.len() ==> {
                let slot = v.grown().done_order()[k - (v.queue_cleared().queue.len() - v.served())];
                &&& 0 <= k - (v.queue_cleared().queue.len() - v.served()) < v.grown().rotations()
                &&& 0 <= slot < v.outputters.len()
                &&& slot < v.grown().outputters.len()
                &&& v.grown().outputters[slot] == v.outputters[slot]
                &&& v.grown().done(slot)
                &&& #[trigger] v.next_frame().queue[k] == v.outputters[slot].requeued()
            },
{
    lemma_grown(v);
    lemma_grown_origin(v);
    lemma_regrouped(v);
    lemma_next_frame_same(v);
    let waiting = v.queue_cleared().queue;
    let g = v.grown();
    let next = v.next_frame();
    lemma_done_rank(g);
    lemma_rotated(g);
    let left = waiting.len() - v.served();
    assert forall|k: int| 0 <= k < left implies #[trigger] next.queue[k] == waiting[v.served()
        + k] by {
        if g.queue.len() > 0 {
            assert(next.queue[k] == g.queue[k + g.rotations()]);
        }
    }
    assert forall|k: int| left <= k < next.queue.len() implies {
        let slot = g.done_order()[k - left];
        &&& 0 <= k - left < g.rotations()
        &&& 0 <= slot < v.outputters.len()
        &&& slot < g.outputters.len()
        &&& g.outputters[slot] == v.outputters[slot]
        &&& g.done(slot)
        &&& #[trigger] next.queue[k] == v.outputters[slot].requeued()
    } by {
        let slot = g.done_order()[k - left];
        assert(g.queue.len() > 0);
        assert(next.queue[k] == g.outputters[slot].requeued());
        lemma_same_slot(v, slot);
    }
}

/// While sources wait, an outputter that is done before the rotation of a frame is one that was in
/// the same slot before.
proof fn lemma_same_slot(v: StateView, slot: int)
    requires
        v.consistent(),
        v.grown().queue.len() > 0,
        0 <= slot < v.grown().outputters.len(),
        v.grown().done(slot),
    ensures
        slot < v.outputters.len(),
        v.grown().outputters[slot] == v.outputters[slot],
        v.frame - v.outputters[slot].last_packet <= v.timeout,
{
    lemma_grown(v);
    lemma_grown_origin(v);
    let g = v.grown();
    lemma_grown_slot(v, slot);
    assert(v.outputters.contains(g.outputters[slot]));
    let i = choose|i: int| 0 <= i < v.outputters.len() && v.outputters[i] == g.outputters[slot];
    assert(v.outputters[i].id == g.outputters[slot].id);
    lemma_grown_stable(v, i, slot);
    assert(!g.silent(g.outputters[slot].last_packet));
}

/// A source leaves in a frame if it sent no packet for more than `timeout` frames, and only then,
/// whether it is queued or outputting.
pub proof fn law_timeout_decides_who_stays(v: StateView, id: SourceKey, last_packet: int)
    requires
        v.wf(),
        (exists|i: int|
            0 <= i < v.queue.len() && (#[trigger] v.queue[i]).id == id && v.queue[i].last_packet
                == last_packet) || (exists|i: int|
            0 <= i < v.outputters.len() && (#[trigger] v.outputters[i]).id == id
                && v.outputters[i].last_packet == last_packet),
    ensures
        v.frame - last_packet <= v.timeout <==> (exists|k: int|
            0 <= k < v.next_frame().queue.len() && (#[trigger] v.next_frame().queue[k]).id == id)
            || (exists|k: int|
            0 <= k < v.next_frame().outputters.len() && (
            #[trigger] v.next_frame().outputters[k]).id == id),
{
    lemma_regrouped(v);
    lemma_next_frame_same(v);
    let mid = v.regrouped();
    let next = v.next_frame();
    assert(mid.heard(id) == v.heard(id));
    assert(v.heard(id) <==> v.frame - last_packet <= v.timeout) by {
        if v.heard(id) {
            if exists|i: int|
                0 <= i < v.queue.len() && (#[trigger] v.queue[i]).id == id && !v.silent(
                    v.queue[i].last_packet,
                ) {
            }
        }
    }
    if exists|k: int| 0 <= k < next.outputters.len() && (#[trigger] next.outputters[k]).id == id {
        let k = choose|k: int|
            0 <= k < next.outputters.len() && (#[trigger] next.outputters[k]).id == id;
        assert(mid.outputters[k].id == id);
    }
    if mid.heard(id) && !(exists|k: int|
        0 <= k < next.queue.len() && (#[trigger] next.queue[k]).id == id) {
        let k = choose|k: int|
            0 <= k < mid.outputters.len() && (#[trigger] mid.outputters[k]).id == id;
        assert(next.outputters[k].id == id);
    }
}

/// A frame makes nobody up: a source that is queued after it was listed before it, and its last
/// packet is the one that it was.
pub proof fn law_queued_sources_were_known(v: StateView, k: int)
    requires
        v.wf(),
        0 <= k < v.next_frame().queue.len(),
    ensures
        (exists|i: int|
            0 <= i < v.queue.len() && (#[trigger] v.queue[i]).id == v.next_frame().queue[k].id
                && v.queue[i].last_packet == v.next_frame().queue[k].last_packet) || (exists|i: int|
            0 <= i < v.outputters.len() && (#[trigger] v.outputters[i]).id
                == v.next_frame().queue[k].id && v.outputters[i].last_packet
                == v.next_frame().queue[k].last_packet),
{
    lemma_next_queue(v);
    let waiting = v.queue_cleared().queue;
    let left = waiting.len() - v.served();
    if k < left {
        let i = lemma_waiting(v, v.served() + k);
        assert(v.queue[i] == v.next_frame().queue[k]);
    } else {
        let slot = v.grown().done_order()[k - left];
        assert(v.next_frame().queue[k] == v.outputters[slot].requeued());
        assert(v.outputters[slot].id == v.next_frame().queue[k].id);
    }
}

/// A source that outputs after a frame was listed before it, and its last packet is the one that
/// it was.
pub proof fn law_outputting_sources_were_known(v: StateView, j: int)
    requires
        v.wf(),
        0 <= j < v.next_frame().outputters.len(),
    ensures
        (exists|i: int|
            0 <= i < v.queue.len() && (#[trigger] v.queue[i]).id == v.next_frame().outputters[j].id
                && v.queue[i].last_packet == v.next_frame().outputters[j].last_packet) || (exists|
            i: int,
        |
            0 <= i < v.outputters.len() && (#[trigger] v.outputters[i]).id
                == v.next_frame().outputters[j].id && v.outputters[i].last_packet
                == v.next_frame().outputters[j].last_packet),
{
    lemma_regrouped(v);
    lemma_next_frame_same(v);
    lemma_regrouped_slot(v, j);
    let mid = v.regrouped().outputters[j];
    let now = v.next_frame().outputters[j];
    assert(now.id == mid.id && now.last_packet == mid.last_packet);
    if exists|i: int| 0 <= i < v.queue.len() && mid == v.started(#[trigger] v.queue[i]) {
        let i = choose|i: int| 0 <= i < v.queue.len() && mid == v.started(#[trigger] v.queue[i]);
        assert(v.queue[i].id == now.id);
    } else {
        let i = choose|i: int|
            0 <= i < v.outputters.len() && {
                ||| mid == #[trigger] v.outputters[i]
                ||| mid == (OutputtingView {
                    start_frame: v.frame - v.output_time / 2,
                    ..v.outputters[i]
                }) && v.overdue(i)
            };
        assert(v.outputters[i].id == now.id);
    }
}

/// After a frame nobody is listed twice.
pub proof fn law_nobody_is_listed_twice(v: StateView)
    requires
        v.wf(),
    ensures
        forall|i: int, j: int|
            0 <= i < j < v.next_frame().queue.len() ==> (#[trigger] v.next_frame().queue[i]).id != (
            #[trigger] v.next_frame().queue[j]).id,
        forall|i: int, j: int|
            0 <= i < j < v.next_frame().outputters.len() ==> (
            #[trigger] v.next_frame().outputters[i]).id != (
            #[trigger] v.next_frame().outputters[j]).id,
        forall|i: int, j: int|
            0 <= i < v.next_frame().queue.len() && 0 <= j < v.next_frame().outputters.len() ==> (
            #[trigger] v.next_frame().queue[i]).id != (#[trigger] v.next_frame().outputters[j]).id,
{
    lemma_regrouped(v);
    lemma_next_frame_same(v);
    let mid = v.regrouped();
    assert(mid.distinct());
    assert forall|i: int| 0 <= i < v.next_frame().outputters.len() implies (
    #[trigger] v.next_frame().outputters[i]).id == mid.outputters[i].id by {}
}

/// There are never more outputters than allowed, and while there are fewer nobody waits.
pub proof fn law_slots_are_filled(v: StateView)
    requires
        v.wf(),
    ensures
        v.next_frame().outputters.len() <= v.outputter_capacity,
        v.next_frame().queue.len() > 0 ==> v.next_frame().outputters.len() == v.outputter_capacity,
{
    lemma_grown(v);
    lemma_regrouped(v);
    lemma_next_frame_same(v);
}

/// If a source that waited is still waiting after a frame, then every outputter that is heard and
/// has reached the maximum output time has gone back to the queue. So one that has reached it
/// stays only if all who waited got a slot.
pub proof fn law_done_outputters_yield_while_sources_wait(v: StateView, i: int, a: int, k: int)
    requires
        v.wf(),
        0 <= i < v.queue.len(),
        0 <= a < v.next_frame().queue.len(),
        v.next_frame().queue[a].id == v.queue[i].id,
        0 <= k < v.outputters.len(),
        v.frame - v.outputters[k].last_packet <= v.timeout,
        v.outputters[k].start_frame + v.output_time <= v.frame,
    ensures
        exists|b: int|
            0 <= b < v.next_frame().queue.len() && (#[trigger] v.next_frame().queue[b]).id
                == v.outputters[k].id,
{
    lemma_next_queue(v);
    lemma_grown(v);
    let g = v.grown();
    lemma_done_rank(g);
    let waiting = v.queue_cleared().queue;
    let left = waiting.len() - v.served();
    let next = v.next_frame();
    if a >= left {
        assert(next.queue[a] == v.outputters[g.done_order()[a - left]].requeued());
    }
    assert(a < left);
    assert(g.rotations() == g.done_order().len());
    let j = lemma_grown_keeps(v, k);
    assert(g.done(j));
    let r = g.done_order().index_of(j);
    let b = left + r;
    assert(b < next.queue.len()) by {
        lemma_grown_origin(v);
    }
    assert(next.queue[b] == v.outputters[g.done_order()[r]].requeued());
    assert(next.queue[b].id == v.outputters[k].id);
}

/// An outputter that is heard goes back to the queue only when it has reached the maximum output
/// time.
pub proof fn law_only_done_outputters_yield(v: StateView, i: int, k: int)
    requires
        v.wf(),
        0 <= i < v.outputters.len(),
        0 <= k < v.next_frame().queue.len(),
        v.next_frame().queue[k].id == v.outputters[i].id,
    ensures
        v.outputters[i].start_frame + v.output_time <= v.frame,
{
    lemma_next_queue(v);
    lemma_grown(v);
    let waiting = v.queue_cleared().queue;
    let left = waiting.len() - v.served();
    if k < left {
        let q = lemma_waiting(v, v.served() + k);
        assert(v.queue[q] == v.next_frame().queue[k]);
    } else {
        let slot = v.grown().done_order()[k - left];
        assert(v.next_frame().queue[k] == v.outputters[slot].requeued());
        assert(v.outputters[slot].id == v.outputters[i].id);
    }
}

/// Who has been outputting longest goes first: if an outputter goes back to the queue, so does
/// every other that is heard and started before it, or with it in a lower slot.
pub proof fn law_earliest_start_yields_first(v: StateView, i: int, a: int, k: int)
    requires
        v.wf(),
        0 <= i < v.outputters.len(),
        0 <= a < v.next_frame().queue.len(),
        v.next_frame().queue[a].id == v.outputters[i].id,
        0 <= k < v.outputters.len(),
        v.frame - v.outputters[k].last_packet <= v.timeout,
        v.outputters[k].start_frame < v.outputters[i].start_frame || (v.outputters[k].start_frame
            == v.outputters[i].start_frame && k < i),
    ensures
        exists|b: int|
            0 <= b < a && (#[trigger] v.next_frame().queue[b]).id == v.outputters[k].id,
{
    lemma_next_queue(v);
    lemma_grown(v);
    lemma_grown_origin(v);
    let g = v.grown();
    lemma_done_rank(g);
    let waiting = v.queue_cleared().queue;
    let left = waiting.len() - v.served();
    let next = v.next_frame();
    if a < left {
        let q = lemma_waiting(v, v.served() + a);
        assert(v.queue[q] == next.queue[a]);
    }
    let ra = a - left;
    let slot = g.done_order()[ra];
    assert(next.queue[a] == v.outputters[slot].requeued());
    assert(v.outputters[slot].id == v.outputters[i].id);
    assert(slot == i);
    let j = lemma_grown_keeps(v, k);
    assert(g.outputters[j].id == v.outputters[k].id);
    lemma_grown_stable(v, k, j);
    assert(g.done(k));
    let r = g.done_order().index_of(k);
    if r > ra {
        assert(g.yields_before()(g.done_order()[ra], g.done_order()[r]));
    }
    assert(r < ra);
    let b = left + r;
    assert(next.queue[b] == v.outputters[g.done_order()[r]].requeued());
    assert(next.queue[b].id == v.outputters[k].id);
}

/// The queue is served from the front: of two queued sources that are heard, the later gets no
/// slot unless the earlier does.
pub proof fn law_queue_is_served_from_the_front(v: StateView, i1: int, i2: int, j2: int)
    requires
        v.wf(),
        0 <= i1 < i2 < v.queue.len(),
        v.frame - v.queue[i1].last_packet <= v.timeout,
        0 <= j2 < v.next_frame().outputters.len(),
        v.next_frame().outputters[j2].id == v.queue[i2].id,
    ensures
        exists|j1: int|
            0 <= j1 < v.next_frame().outputters.len() && (
            #[trigger] v.next_frame().outputters[j1]).id == v.queue[i1].id,
{
    lemma_next_queue(v);
    lemma_regrouped(v);
    lemma_next_frame_same(v);
    let waiting = v.queue_cleared().queue;
    let next = v.next_frame();
    let mid = v.regrouped();
    let left = waiting.len() - v.served();
    let id1 = v.queue[i1].id;
    let p1 = lemma_waits(v, i1);
    assert(v.heard(id1));
    assert(mid.heard(id1));
    if exists|k: int| 0 <= k < mid.queue.len() && (#[trigger] mid.queue[k]).id == id1 {
        let k = choose|k: int| 0 <= k < mid.queue.len() && (#[trigger] mid.queue[k]).id == id1;
        assert(next.queue[k].id == id1);
        if k >= left {
            assert(next.queue[k] == v.outputters[v.grown().done_order()[k - left]].requeued());
        }
        let q = lemma_waiting(v, v.served() + k);
        assert(v.queue[q].id == id1);
        law_outputting_sources_were_known(v, j2);
        assert(mid.outputters[j2].id == v.queue[i2].id);
        assert(mid.outputters[j2].last_packet == next.outputters[j2].last_packet);
        assert(!v.silent(mid.outputters[j2].last_packet));
        assert(v.queue[i2].last_packet == next.outputters[j2].last_packet) by {
            assert forall|i: int|
                0 <= i < v.outputters.len() implies (#[trigger] v.outputters[i]).id
                != next.outputters[j2].id by {
                assert(v.queue[i2].id != v.outputters[i].id);
            }
            let i = choose|i: int|
                0 <= i < v.queue.len() && (#[trigger] v.queue[i]).id == next.outputters[j2].id
                    && v.queue[i].last_packet == next.outputters[j2].last_packet;
            assert(v.queue[i].id == v.queue[i2].id);
        }
        let p2 = lemma_waits(v, i2);
        if p2 < v.served() + k {
            lemma_waiting_order(v, p2, v.served() + k, i2, i1);
        } else if p2 == v.served() + k {
            assert(v.queue[i2].id == id1);
        }
        let at = p2 - v.served();
        assert(next.queue[at] == waiting[p2]);
        assert(mid.queue[at].id == mid.outputters[j2].id);
        assert(mid.distinct());
    } else {
        let j1 = choose|j: int|
            0 <= j < mid.outputters.len() && (#[trigger] mid.outputters[j]).id == id1;
        assert(next.outputters[j1].id == id1);
    }
}

/// Sources that go on waiting keep their order.
pub proof fn law_waiting_order_is_kept(v: StateView, i1: int, i2: int, k1: int, k2: int)
    requires
        v.wf(),
        0 <= i1 < i2 < v.queue.len(),
        0 <= k1 < v.next_frame().queue.len(),
        0 <= k2 < v.next_frame().queue.len(),
        v.next_frame().queue[k1].id == v.queue[i1].id,
        v.next_frame().queue[k2].id == v.queue[i2].id,
    ensures
        k1 < k2,
{
    lemma_next_queue(v);
    let waiting = v.queue_cleared().queue;
    let left = waiting.len() - v.served();
    let next = v.next_frame();
    if k1 >= left {
        assert(next.queue[k1] == v.outputters[v.grown().done_order()[k1 - left]].requeued());
    }
    if k2 >= left {
        assert(next.queue[k2] == v.outputters[v.grown().done_order()[k2 - left]].requeued());
    }
    if k2 < k1 {
        lemma_waiting_order(v, v.served() + k2, v.served() + k1, i2, i1);
    } else if k1 == k2 {
        assert(v.queue[i1].id == v.queue[i2].id);
    }
}

/// Sources that gave their slots up join the queue behind all who go on waiting.
pub proof fn law_replaced_sources_join_the_end(v: StateView, i1: int, i2: int, k1: int, k2: int)
    requires
        v.wf(),
        0 <= i1 < v.queue.len(),
        0 <= i2 < v.outputters.len(),
        0 <= k1 < v.next_frame().queue.len(),
        0 <= k2 < v.next_frame().queue.len(),
        v.next_frame().queue[k1].id == v.queue[i1].id,
        v.next_frame().queue[k2].id == v.outputters[i2].id,
    ensures
        k1 < k2,
{
    lemma_next_queue(v);
    let waiting = v.queue_cleared().queue;
    let left = waiting.len() - v.served();
    let next = v.next_frame();
    if k1 >= left {
        assert(next.queue[k1] == v.outputters[v.grown().done_order()[k1 - left]].requeued());
    }
    if k2 < left {
        let q = lemma_waiting(v, v.served() + k2);
        assert(v.queue[q] == next.queue[k2]);
    }
}

/// The frame from which the time of an outputter that stays is counted: the one that it had,
/// unless others wait after the frame and it was past the maximum output time. Then it has half of
/// that time ahead of it.
pub proof fn law_start_frames_of_those_who_stay(v: StateView, i: int, j: int)
    requires
        v.wf(),
        0 <= i < v.outputters.len(),
        0 <= j < v.next_frame().outputters.len(),
        v.next_frame().outputters[j].id == v.outputters[i].id,
    ensures
        v.next_frame().outputters[j].start_frame == if v.next_frame().queue.len() > 0
            && v.outputters[i].start_frame + v.output_time < v.frame {
            v.frame - v.output_time / 2
        } else {
            v.outputters[i].start_frame
        },
{
    lemma_grown(v);
    lemma_grown_origin(v);
    lemma_regrouped(v);
    lemma_next_frame_same(v);
    let g = v.grown();
    let mid = v.regrouped();
    lemma_done_rank(g);
    lemma_rotated(g);
    assert(mid.outputters[j].id == v.outputters[i].id);
    if g.queue.len() > 0 {
        assert(mid.outputters[j] == g.rotated_slot(j));
        if g.done(j) && g.done_order().index_of(j) < g.rotations() {
            let k = g.done_order().index_of(j);
            let p = seated(v) + k;
            assert(g.queue[k] == v.queue_cleared().queue[p]);
            let q = lemma_waiting(v, p);
            assert(v.queue[q].id == v.outputters[i].id);
        }
    }
    assert(g.outputters[j].id == v.outputters[i].id);
    lemma_grown_slot(v, j);
    assert(g.outputters[j] == v.outputters[i]);
}

/// The values of an outputter that stays: those that it had, as many as it now has channels, and 0
/// on channels that it did not have.
pub proof fn law_values_of_those_who_stay(v: StateView, i: int, j: int)
    requires
        v.wf(),
        0 <= i < v.outputters.len(),
        0 <= j < v.next_frame().outputters.len(),
        v.next_frame().outputters[j].id == v.outputters[i].id,
    ensures
        v.next_frame().outputters[j].data.len() == v.next_frame().input_channel_count,
        v.next_frame().outputters[j].last_packet == v.outputters[i].last_packet,
        forall|c: int|
            0 <= c < v.next_frame().input_channel_count ==> #[trigger]
                v.next_frame().outputters[j].data[c] == if c < v.outputters[i].data.len() {
                    v.outputters[i].data[c]
                } else {
                    0u8
                },
{
    lemma_next_frame_same(v);
    lemma_regrouped_slot(v, j);
    let mid = v.regrouped().outputters[j];
    assert(v.next_frame().outputters[j].id == mid.id);
    if exists|q: int| 0 <= q < v.queue.len() && mid == v.started(#[trigger] v.queue[q]) {
        let q = choose|q: int| 0 <= q < v.queue.len() && mid == v.started(#[trigger] v.queue[q]);
        assert(v.queue[q].id == v.outputters[i].id);
    }
}

/// A source that gets a slot starts in this frame, with 0 on all of its channels.
pub proof fn law_those_who_get_a_slot_start_dark(v: StateView, i: int, j: int)
    requires
        v.wf(),
        0 <= i < v.queue.len(),
        0 <= j < v.next_frame().outputters.len(),
        v.next_frame().outputters[j].id == v.queue[i].id,
    ensures
        v.next_frame().outputters[j].start_frame == v.frame,
        v.next_frame().outputters[j].last_packet == v.queue[i].last_packet,
        v.next_frame().outputters[j].data.len() == v.next_frame().input_channel_count,
        forall|c: int|
            0 <= c < v.next_frame().input_channel_count ==> #[trigger]
                v.next_frame().outputters[j].data[c] == 0,
{
    lemma_next_frame_same(v);
    lemma_regrouped_slot(v, j);
    let mid = v.regrouped().outputters[j];
    assert(v.next_frame().outputters[j].id == mid.id);
    if exists|q: int| 0 <= q < v.queue.len() && mid == v.started(#[trigger] v.queue[q]) {
        let q = choose|q: int| 0 <= q < v.queue.len() && mid == v.started(#[trigger] v.queue[q]);
        assert(v.queue[q].id == v.queue[i].id);
    }
}

/// Which of those who wait gets slot `j`, if it goes to one of them and no outputter leaves: slots
/// of silent outputters go first, then free ones, then those of outputters that are done.
spec fn seat(v: StateView, j: int) -> int {
    let a = v.queue_cleared();
    let n = v.outputters.len() as int;
    if j >= n {
        least(a.queue.len(), a.silent_before(n)) + (j - n)
    } else if v.silent(v.outputters[j].last_packet) {
        a.silent_before(j) as int
    } else {
        seated(v) + v.grown().done_order().index_of(j)
    }
}

proof fn lemma_seat(v: StateView, i: int, j: int)
    requires
        v.consistent(),
        v.next_frame().outputters.len() >= v.outputters.len(),
        0 <= i < v.queue.len(),
        0 <= j < v.next_frame().outputters.len(),
        v.next_frame().outputters[j].id == v.queue[i].id,
    ensures
        0 <= seat(v, j) < v.queue_cleared().queue.len(),
        v.queue_cleared().queue[seat(v, j)].id == v.queue[i].id,
        (j >= v.outputters.len() || v.silent(v.outputters[j].last_packet)) ==> seat(v, j) < seated(
            v,
        ),
        !(j >= v.outputters.len() || v.silent(v.outputters[j].last_packet)) ==> {
            &&& v.grown().outputters.len() == v.next_frame().outputters.len()
            &&& v.grown().outputters[j] == v.outputters[j]
            &&& v.grown().done(j)
            &&& seat(v, j) >= seated(v)
        },
{
    let a = v.queue_cleared();
    let b = a.refilled();
    let c = b.outputters_cleared();
    let g = v.grown();
    let n = v.outputters.len() as int;
    lemma_queue_cleared(v);
    lemma_refilled(a);
    lemma_outputters_cleared(b);
    lemma_grown(v);
    lemma_grown_origin(v);
    lemma_regrouped(v);
    lemma_next_frame_same(v);
    lemma_done_rank(g);
    lemma_rotated(g);
    let mid = v.regrouped();
    assert(mid.outputters[j].id == v.queue[i].id);
    assert(c == b);
    let rotates = g.queue.len() > 0 && g.done(j) && g.done_order().index_of(j) < g.rotations();
    if rotates {
        lemma_same_slot(v, j);
        let k = g.done_order().index_of(j);
        assert(mid.outputters[j] == g.rotated_slot(j));
        assert(g.queue[k] == a.queue[seated(v) + k]);
    } else {
        assert(mid.outputters[j].id == g.outputters[j].id);
        if j < n {
            assert(g.outputters[j] == a.refilled_slot(j));
            lemma_silent_before(a, j, n);
            assert(b.outputters[j] == a.refilled_slot(j));
            assert(!b.silent(b.outputters[j].last_packet));
        } else {
            let taken = least(a.queue.len(), a.silent_before(n)) as int;
            assert(b.queue[j - n] == a.queue[taken + (j - n)]);
            assert(g.outputters[j] == v.started(a.queue[taken + (j - n)]));
        }
    }
}

/// Who gets which slot, if no outputter leaves: the slots of silent outputters go to those who
/// wait, first slot to first source; then free slots; then those of outputters that have reached
/// the maximum output time, earliest start first, and lowest slot first of those that started
/// together.
pub proof fn law_slots_are_given_in_order(v: StateView, i1: int, i2: int, j1: int, j2: int)
    requires
        v.wf(),
        v.next_frame().outputters.len() >= v.outputters.len(),
        0 <= i1 < v.queue.len(),
        0 <= i2 < v.queue.len(),
        0 <= j1 < v.next_frame().outputters.len(),
        0 <= j2 < v.next_frame().outputters.len(),
        v.next_frame().outputters[j1].id == v.queue[i1].id,
        v.next_frame().outputters[j2].id == v.queue[i2].id,
        ({
            let n = v.outputters.len();
            let vacant1 = j1 >= n || v.outputters[j1].last_packet + v.timeout < v.frame;
            let vacant2 = j2 >= n || v.outputters[j2].last_packet + v.timeout < v.frame;
            ||| vacant1 && vacant2 && j1 < j2
            ||| vacant1 && !vacant2
            ||| !vacant1 && !vacant2 && v.outputters[j1].start_frame < v.outputters[j2].start_frame
            ||| !vacant1 && !vacant2 && v.outputters[j1].start_frame == v.outputters[j2].start_frame
                && j1 < j2
        }),
    ensures
        i1 < i2,
{
    lemma_seat(v, i1, j1);
    lemma_seat(v, i2, j2);
    lemma_grown(v);
    let a = v.queue_cleared();
    let g = v.grown();
    let n = v.outputters.len() as int;
    lemma_done_rank(g);
    if j1 < n {
        if v.silent(v.outputters[j1].last_packet) {
            lemma_silent_before(a, j1, n);
            if j1 < j2 && j2 < n {
                lemma_silent_before(a, j1, j2);
            }
        } else {
            let r1 = g.done_order().index_of(j1);
            let r2 = g.done_order().index_of(j2);
            if r2 < r1 {
                assert(g.yields_before()(g.done_order()[r2], g.done_order()[r1]));
            }
        }
    }
    assert(seat(v, j1) < seat(v, j2));
    lemma_waiting_order(v, seat(v, j1), seat(v, j2), i1, i2);
}

/// Where an outputter that stays is after a frame: before it are those that were before it and are
/// heard, and those who took the slots of silent outputters before it, as far as sources waited.
pub proof fn law_position_of_those_who_stay(v: StateView, i: int, j: int)
    requires
        v.wf(),
        0 <= i < v.outputters.len(),
        0 <= j < v.next_frame().outputters.len(),
        v.next_frame().outputters[j].id == v.outputters[i].id,
    ensures
        ({
            let waiting = v.queue.filter(
                |q: QueuedView| v.frame - q.last_packet <= v.timeout,
            ).len();
            let heard = v.outputters.take(i).filter(
                |o: OutputtingView| v.frame - o.last_packet <= v.timeout,
            ).len();
            let silent = v.outputters.take(i).filter(
                |o: OutputtingView| v.frame - o.last_packet > v.timeout,
            ).len();
            j == heard + if silent <= waiting { silent } else { waiting }
        }),
{
    let a = v.queue_cleared();
    let b = a.refilled();
    let c = b.outputters_cleared();
    let g = v.grown();
    let n = v.outputters.len() as int;
    lemma_queue_cleared(v);
    lemma_refilled(a);
    lemma_outputters_cleared(b);
    lemma_grown(v);
    lemma_grown_origin(v);
    lemma_regrouped(v);
    lemma_next_frame_same(v);
    crate::proofs::lemma_regrouped_place(v, j);
    assert(v.regrouped().outputters[j].id == v.outputters[i].id);
    assert(g.outputters[j].id == v.outputters[i].id);
    assert((|q: QueuedView| v.frame - q.last_packet <= v.timeout) =~= v.queue_heard());
    assert((|o: OutputtingView| v.frame - o.last_packet <= v.timeout) =~= v.outputter_heard());
    assert((|o: OutputtingView| v.frame - o.last_packet > v.timeout) =~= a.outputter_silent());
    lemma_kept_before(v, i);
    // The outputter is heard, and so in the same slot before silent ones leave
    lemma_grown_slot(v, j);
    assert(g.outputters[j] == v.outputters[i]);
    assert(!g.silent(g.outputters[j].last_packet));
    assert(b.outputters[i] == a.refilled_slot(i));
    assert(b.outputters[i] == v.outputters[i]);
    lemma_filter_at(b.outputters, b.outputter_heard(), i);
    let at = b.outputters.take(i).filter(b.outputter_heard()).len() as int;
    assert(c.outputters[at] == v.outputters[i]);
    assert(g.outputters[at] == c.outputters[at]);
    assert(g.outputters[at].id == g.outputters[j].id);
    assert(at == j);
}

/// The place of an element that passes a filter.
proof fn lemma_filter_at<A>(s: Seq<A>, keep: spec_fn(A) -> bool, i: int)
    requires
        0 <= i < s.len(),
        keep(s[i]),
    ensures
        s.take(i).filter(keep).len() < s.filter(keep).len(),
        s.filter(keep)[s.take(i).filter(keep).len() as int] == s[i],
    decreases s.len(),
{
    reveal(Seq::filter);
    let rest = s.drop_last();
    if i < s.len() - 1 {
        lemma_filter_at(rest, keep, i);
        assert(rest.take(i) =~= s.take(i));
    } else {
        assert(s.take(i) =~= rest);
    }
}

/// How many of the first `i` slots are kept when silent outputters leave.
proof fn lemma_kept_before(v: StateView, i: int)
    requires
        v.consistent(),
        0 <= i <= v.outputters.len(),
    ensures
        ({
            let a = v.queue_cleared();
            let b = a.refilled();
            b.outputters.take(i).filter(b.outputter_heard()).len() == v.outputters.take(i).filter(
                v.outputter_heard(),
            ).len() + least(a.queue.len(), a.silent_before(i))
        }),
    decreases i,
{
    let a = v.queue_cleared();
    let b = a.refilled();
    reveal(Seq::filter);
    if i > 0 {
        lemma_kept_before(v, i - 1);
        lemma_queue_cleared(v);
        assert(b.outputters.take(i).drop_last() =~= b.outputters.take(i - 1));
        assert(v.outputters.take(i).drop_last() =~= v.outputters.take(i - 1));
        assert(b.outputters.take(i).last() == a.refilled_slot(i - 1));
        assert(v.outputters.take(i).last() == v.outputters[i - 1]);
    }
}

/// Those who get a slot stand in the order of the queue also when outputters leave.
pub proof fn law_order_of_those_who_get_a_slot(v: StateView, i1: int, i2: int, j1: int, j2: int)
    requires
        v.wf(),
        v.next_frame().outputters.len() < v.outputters.len(),
        0 <= i1 < v.queue.len(),
        0 <= i2 < v.queue.len(),
        0 <= j1 < j2 < v.next_frame().outputters.len(),
        v.next_frame().outputters[j1].id == v.queue[i1].id,
        v.next_frame().outputters[j2].id == v.queue[i2].id,
    ensures
        i1 < i2,
{
    let a = v.queue_cleared();
    let b = a.refilled();
    let c = b.outputters_cleared();
    let g = v.grown();
    lemma_queue_cleared(v);
    lemma_refilled(a);
    lemma_grown(v);
    lemma_grown_origin(v);
    lemma_regrouped(v);
    lemma_next_frame_same(v);
    if b.outputters_all_heard() {
        lemma_outputters_cleared(b);
    }
    assert(b.queue.len() == 0);
    assert(g.outputters =~= c.outputters);
    let (k1, k2) = lemma_filter_order(b.outputters, b.outputter_heard(), j1, j2);
    assert(b.outputters[k1].id == v.queue[i1].id);
    assert(b.outputters[k2].id == v.queue[i2].id);
    assert(b.outputters[k1] == a.refilled_slot(k1));
    assert(b.outputters[k2] == a.refilled_slot(k2));
    assert(v.outputters[k1].id != v.queue[i1].id);
    assert(v.outputters[k2].id != v.queue[i2].id);
    lemma_silent_before(a, k1, k2);
    lemma_waiting_order(v, a.silent_before(k1) as int, a.silent_before(k2) as int, i1, i2);
}

/// The channels that each outputter has after a frame: whole groups, equally many for all, and as
/// many as fit into the output. All of them if nobody outputs.
pub proof fn law_channels_are_divided(v: StateView)
    requires
        v.wf(),
        v.channel_group_size > 0 || v.next_frame().outputters.len() == 0,
    ensures
        ({
            let next = v.next_frame();
            let share = next.input_channel_count;
            let n = next.outputters.len();
            &&& n == 0 ==> share == v.output_channel_count
            &&& n > 0 ==> {
                &&& share % v.channel_group_size == 0
                &&& share * n <= v.output_channel_count
                &&& (share + v.channel_group_size) * n > v.output_channel_count
            }
        }),
{
    lemma_next_frame_wf(v);
    lemma_regrouped(v);
    let n = v.next_frame().outputters.len();
    if n > 0 {
        crate::laws::law_shares_are_whole_groups(v.output_channel_count, n, v.channel_group_size);
    }
}

} // verus!
