use vstd::prelude::*;
use vstd::relations::{sorted_by, total_ordering};
use vstd::seq_lib::group_to_multiset_ensures;

use crate::model::{least, resized, OutputtingView, QueuedView, SourceKey, StateView};
use crate::state::{SourcePosition, State};

verus! {

/// What a filter leaves comes from the sequence and passes the filter.
pub proof fn lemma_filter_keeps<A>(s: Seq<A>, keep: spec_fn(A) -> bool)
    ensures
        s.filter(keep).len() <= s.len(),
        forall|j: int|
            0 <= j < s.filter(keep).len() ==> keep(#[trigger] s.filter(keep)[j]) && s.contains(
                s.filter(keep)[j],
            ),
        forall|i: int|
            0 <= i < s.len() && keep(#[trigger] s[i]) ==> s.filter(keep).contains(s[i]),
    decreases s.len(),
{
    broadcast use vstd::seq_lib::group_filter_ensures;

    assert forall|j: int| 0 <= j < s.filter(keep).len() implies s.contains(
        #[trigger] s.filter(keep)[j],
    ) by {
        assert(s.filter(keep).contains(s.filter(keep)[j]));
        s.lemma_filter_contains_rev(keep, s.filter(keep)[j]);
    }
}

/// A filter makes no two elements share a key.
pub proof fn lemma_filter_distinct<A, K>(s: Seq<A>, keep: spec_fn(A) -> bool, key: spec_fn(A) -> K)
    requires
        forall|i: int, j: int|
            0 <= i < j < s.len() ==> key(#[trigger] s[i]) != key(#[trigger] s[j]),
    ensures
        forall|i: int, j: int|
            0 <= i < j < s.filter(keep).len() ==> key(#[trigger] s.filter(keep)[i]) != key(
                #[trigger] s.filter(keep)[j],
            ),
    decreases s.len(),
{
    reveal(Seq::filter);
    if s.len() > 0 {
        let rest = s.drop_last();
        lemma_filter_distinct(rest, keep, key);
        lemma_filter_keeps(rest, keep);
        assert forall|i: int, j: int| 0 <= i < j < s.filter(keep).len() implies key(
            #[trigger] s.filter(keep)[i],
        ) != key(#[trigger] s.filter(keep)[j]) by {
            assert(rest.contains(rest.filter(keep)[i]));
        }
    }
}

/// A filter that everything passes changes nothing.
pub proof fn lemma_filter_all<A>(s: Seq<A>, keep: spec_fn(A) -> bool)
    requires
        forall|i: int| 0 <= i < s.len() ==> keep(#[trigger] s[i]),
    ensures
        s.filter(keep) =~= s,
    decreases s.len(),
{
    reveal(Seq::filter);
    if s.len() > 0 {
        lemma_filter_all(s.drop_last(), keep);
        assert(keep(s[s.len() - 1]));
        assert(s.drop_last().push(s.last()) =~= s);
    }
}

/// The order in which slots are given up is a total order.
pub proof fn lemma_yields_before_total(v: StateView)
    ensures
        total_ordering(v.yields_before()),
{
}

/// The slots that are given up are those of the outputters that are done, each once, in order.
pub proof fn lemma_done_order(v: StateView)
    ensures
        sorted_by(v.done_order(), v.yields_before()),
        v.done_order().to_multiset() == v.done_slots().to_multiset(),
        v.done_order().no_duplicates(),
        v.done_order().len() <= v.outputters.len(),
        forall|i: int|
            #![trigger v.done_order().contains(i)]
            v.done_order().contains(i) <==> (0 <= i < v.outputters.len() && v.done(i)),
{
    broadcast use group_to_multiset_ensures;

    let all = Seq::new(v.outputters.len(), |i: int| i);
    let done = |i: int| v.done(i);
    lemma_yields_before_total(v);
    v.done_slots().lemma_sort_by_ensures(v.yields_before());
    lemma_filter_distinct(all, done, |i: int| i);
    lemma_filter_keeps(all, done);
    assert(v.done_slots().no_duplicates());
    v.done_slots().lemma_multiset_has_no_duplicates();
    v.done_order().lemma_multiset_has_no_duplicates_conv();
    assert(v.done_order().len() == v.done_order().to_multiset().len());
    assert(v.done_slots().len() == v.done_slots().to_multiset().len());
    assert forall|i: int|
        #![trigger v.done_order().contains(i)]
        v.done_order().contains(i) <==> (0 <= i < v.outputters.len() && v.done(i)) by {
        assert(v.done_order().contains(i) <==> v.done_order().to_multiset().count(i) > 0);
        assert(v.done_slots().contains(i) <==> v.done_slots().to_multiset().count(i) > 0);
        if v.done_slots().contains(i) {
            assert(all.contains(i));
        }
        if 0 <= i < v.outputters.len() && v.done(i) {
            assert(all[i] == i);
            assert(done(all[i]));
        }
    }
}

/// Clearing the queue keeps the state consistent, and keeps who is heard.
pub proof fn lemma_queue_cleared(v: StateView)
    requires
        v.consistent(),
    ensures
        v.queue_cleared().consistent(),
        v.queue_cleared().queue_all_heard(),
        forall|id: SourceKey| v.queue_cleared().heard(id) <==> #[trigger] v.heard(id),
{
    let next = v.queue_cleared();
    let heard = v.queue_heard();
    lemma_filter_keeps(v.queue, heard);
    lemma_filter_distinct(v.queue, heard, |q: QueuedView| q.id);
    assert forall|i: int, j: int| 0 <= i < j < next.queue.len() implies (#[trigger] next.queue[i]).id
        != (#[trigger] next.queue[j]).id by {}
    assert forall|i: int| 0 <= i < next.queue.len() implies v.queue.contains(
        #[trigger] next.queue[i],
    ) && heard(next.queue[i]) by {}
    assert forall|id: SourceKey| v.queue_cleared().heard(id) <==> #[trigger] v.heard(id) by {
        if v.heard(id) {
            if exists|i: int|
                0 <= i < v.queue.len() && (#[trigger] v.queue[i]).id == id && !v.silent(
                    v.queue[i].last_packet,
                ) {
                let i = choose|i: int|
                    0 <= i < v.queue.len() && (#[trigger] v.queue[i]).id == id && !v.silent(
                        v.queue[i].last_packet,
                    );
                assert(heard(v.queue[i]));
                assert(next.queue.contains(v.queue[i]));
            } else {
                assert(next.outputters == v.outputters);
            }
        }
    }
}

/// Of two slots the later has at least as many silent outputters before it, and more if the first
/// is silent itself.
pub proof fn lemma_silent_before(v: StateView, i: int, j: int)
    requires
        0 <= i < j <= v.outputters.len(),
    ensures
        v.silent_before(i) <= v.silent_before(j),
        v.silent(v.outputters[i].last_packet) ==> v.silent_before(i) < v.silent_before(j),
    decreases j,
{
    reveal(Seq::filter);
    assert(v.outputters.take(j).drop_last() =~= v.outputters.take(j - 1));
    if i < j - 1 {
        lemma_silent_before(v, i, j - 1);
    }
}

/// Every number below that of the silent outputters in the first `j` slots belongs to one.
pub proof fn lemma_silent_slot(v: StateView, r: int, j: int) -> (slot: int)
    requires
        0 <= j <= v.outputters.len(),
        0 <= r < v.silent_before(j),
    ensures
        0 <= slot < j,
        v.silent(v.outputters[slot].last_packet),
        v.silent_before(slot) == r,
    decreases j,
{
    reveal(Seq::filter);
    assert(v.outputters.take(j).drop_last() =~= v.outputters.take(j - 1));
    if r < v.silent_before(j - 1) {
        lemma_silent_slot(v, r, j - 1)
    } else {
        j - 1
    }
}

/// Refilling the slots of silent outputters keeps the state consistent, and keeps who is heard.
pub proof fn lemma_refilled(v: StateView)
    requires
        v.consistent(),
        v.queue_all_heard(),
    ensures
        v.refilled().consistent(),
        v.refilled().queue_all_heard(),
        v.refilled().queue.len() == 0 || v.refilled().outputters_all_heard(),
        forall|id: SourceKey| v.refilled().heard(id) <==> #[trigger] v.heard(id),
{
    let next = v.refilled();
    let n = v.outputters.len() as int;
    let taken = least(v.queue.len(), v.silent_before(n)) as int;
    assert forall|i: int| 0 <= i < n && v.silent(v.outputters[i].last_packet) implies (
    #[trigger] v.silent_before(i)) < v.silent_before(n) by {
        lemma_silent_before(v, i, n);
    }
    assert forall|i: int, j: int|
        0 <= i < j < n && v.silent(v.outputters[i].last_packet) implies (
    #[trigger] v.silent_before(i)) < (#[trigger] v.silent_before(j)) by {
        lemma_silent_before(v, i, j);
    }
    assert forall|i: int| 0 <= i < n implies #[trigger] next.outputters[i] == v.refilled_slot(i) by {}
    assert forall|i: int| 0 <= i < next.queue.len() implies #[trigger] next.queue[i] == v.queue[i
        + taken] by {}
    assert(next.distinct());
    assert(next.stamped());
    assert(next.data_complete());
    if next.queue.len() > 0 {
        assert(next.outputters_all_heard());
    }
    assert forall|id: SourceKey| v.refilled().heard(id) <==> #[trigger] v.heard(id) by {
        if v.heard(id) {
            if exists|i: int|
                0 <= i < v.queue.len() && (#[trigger] v.queue[i]).id == id && !v.silent(
                    v.queue[i].last_packet,
                ) {
                let i = choose|i: int|
                    0 <= i < v.queue.len() && (#[trigger] v.queue[i]).id == id && !v.silent(
                        v.queue[i].last_packet,
                    );
                if i < taken {
                    let slot = lemma_silent_slot(v, i, n);
                    assert(next.outputters[slot] == v.started(v.queue[i]));
                } else {
                    assert(next.queue[i - taken] == v.queue[i]);
                }
            } else {
                let i = choose|i: int|
                    0 <= i < v.outputters.len() && (#[trigger] v.outputters[i]).id == id
                        && !v.silent(v.outputters[i].last_packet);
                assert(next.outputters[i] == v.outputters[i]);
            }
        }
        if next.heard(id) {
            if exists|i: int|
                0 <= i < next.queue.len() && (#[trigger] next.queue[i]).id == id && !v.silent(
                    next.queue[i].last_packet,
                ) {
                let i = choose|i: int|
                    0 <= i < next.queue.len() && (#[trigger] next.queue[i]).id == id && !v.silent(
                        next.queue[i].last_packet,
                    );
                assert(next.queue[i] == v.queue[i + taken]);
            } else {
                let i = choose|i: int|
                    0 <= i < next.outputters.len() && (#[trigger] next.outputters[i]).id == id
                        && !v.silent(next.outputters[i].last_packet);
                assert(next.outputters[i] == v.refilled_slot(i));
                if v.silent(v.outputters[i].last_packet) {
                    assert(v.queue[v.silent_before(i) as int].id == id);
                } else {
                    assert(v.outputters[i].id == id);
                }
            }
        }
    }
}

/// Clearing the outputters keeps the state consistent, and keeps who is heard.
pub proof fn lemma_outputters_cleared(v: StateView)
    requires
        v.consistent(),
        v.queue_all_heard(),
    ensures
        v.outputters_cleared().consistent(),
        v.outputters_cleared().queue_all_heard(),
        v.outputters_cleared().outputters_all_heard(),
        v.outputters_all_heard() ==> v.outputters_cleared() == v,
        forall|id: SourceKey| v.outputters_cleared().heard(id) <==> #[trigger] v.heard(id),
{
    let next = v.outputters_cleared();
    let heard = v.outputter_heard();
    lemma_filter_keeps(v.outputters, heard);
    lemma_filter_distinct(v.outputters, heard, |o: OutputtingView| o.id);
    assert forall|i: int, j: int| 0 <= i < j < next.outputters.len() implies (
    #[trigger] next.outputters[i]).id != (#[trigger] next.outputters[j]).id by {}
    assert forall|i: int| 0 <= i < next.outputters.len() implies v.outputters.contains(
        #[trigger] next.outputters[i],
    ) && heard(next.outputters[i]) by {}
    if v.outputters_all_heard() {
        lemma_filter_all(v.outputters, heard);
        assert(next =~= v);
    }
    assert forall|id: SourceKey| v.outputters_cleared().heard(id) <==> #[trigger] v.heard(id) by {
        if v.heard(id) {
            if exists|i: int|
                0 <= i < v.outputters.len() && (#[trigger] v.outputters[i]).id == id && !v.silent(
                    v.outputters[i].last_packet,
                ) {
                let i = choose|i: int|
                    0 <= i < v.outputters.len() && (#[trigger] v.outputters[i]).id == id
                        && !v.silent(v.outputters[i].last_packet);
                assert(heard(v.outputters[i]));
                assert(next.outputters.contains(v.outputters[i]));
            } else {
                assert(next.queue == v.queue);
            }
        }
    }
}

/// Filling free slots keeps the state consistent, and keeps who is heard. If sources still wait,
/// there are no free slots left.
pub proof fn lemma_expanded(v: StateView)
    requires
        v.consistent(),
        v.queue_all_heard(),
        v.outputters_all_heard(),
    ensures
        v.expanded().consistent(),
        v.expanded().queue_all_heard(),
        v.expanded().outputters_all_heard(),
        v.expanded().queue.len() > 0 ==> v.expanded().outputters.len() == v.outputter_capacity,
        forall|id: SourceKey| v.expanded().heard(id) <==> #[trigger] v.heard(id),
{
    let next = v.expanded();
    let n = v.outputters.len() as int;
    let moved = v.admissible() as int;
    assert forall|i: int| 0 <= i < next.outputters.len() implies #[trigger] next.outputters[i]
        == if i < n {
        v.outputters[i]
    } else {
        v.started(v.queue[i - n])
    } by {}
    assert forall|i: int| 0 <= i < next.queue.len() implies #[trigger] next.queue[i] == v.queue[i
        + moved] by {}
    assert forall|id: SourceKey| v.expanded().heard(id) <==> #[trigger] v.heard(id) by {
        if v.heard(id) {
            if exists|i: int|
                0 <= i < v.queue.len() && (#[trigger] v.queue[i]).id == id && !v.silent(
                    v.queue[i].last_packet,
                ) {
                let i = choose|i: int|
                    0 <= i < v.queue.len() && (#[trigger] v.queue[i]).id == id && !v.silent(
                        v.queue[i].last_packet,
                    );
                if i < moved {
                    assert(next.outputters[n + i] == v.started(v.queue[i]));
                } else {
                    assert(next.queue[i - moved] == v.queue[i]);
                }
            } else {
                let i = choose|i: int|
                    0 <= i < v.outputters.len() && (#[trigger] v.outputters[i]).id == id
                        && !v.silent(v.outputters[i].last_packet);
                assert(next.outputters[i] == v.outputters[i]);
            }
        }
        if next.heard(id) {
            if exists|i: int|
                0 <= i < next.queue.len() && (#[trigger] next.queue[i]).id == id && !v.silent(
                    next.queue[i].last_packet,
                ) {
                let i = choose|i: int|
                    0 <= i < next.queue.len() && (#[trigger] next.queue[i]).id == id && !v.silent(
                        next.queue[i].last_packet,
                    );
                assert(next.queue[i] == v.queue[i + moved]);
            } else {
                let i = choose|i: int|
                    0 <= i < next.outputters.len() && (#[trigger] next.outputters[i]).id == id
                        && !v.silent(next.outputters[i].last_packet);
                if i < n {
                    assert(v.outputters[i].id == id);
                } else {
                    assert(v.queue[i - n].id == id);
                }
            }
        }
    }
}

/// Where in the order of the outputters that are done each of them stands.
pub proof fn lemma_done_rank(v: StateView)
    ensures
        v.rotations() <= v.queue.len(),
        v.rotations() <= v.done_order().len(),
        forall|i: int|
            0 <= i < v.outputters.len() && #[trigger] v.done(i) ==> {
                &&& 0 <= v.done_order().index_of(i) < v.done_order().len()
                &&& v.done_order()[v.done_order().index_of(i)] == i
            },
        forall|r: int|
            0 <= r < v.done_order().len() ==> {
                &&& 0 <= #[trigger] v.done_order()[r] < v.outputters.len()
                &&& v.done(v.done_order()[r])
                &&& v.done_order().index_of(v.done_order()[r]) == r
            },
        forall|q: int, r: int|
            0 <= q < r < v.done_order().len() ==> (#[trigger] v.done_order()[q]) != (
            #[trigger] v.done_order()[r]) && v.yields_before()(
                v.done_order()[q],
                v.done_order()[r],
            ),
{
    lemma_done_order(v);
    let order = v.done_order();
    assert forall|i: int| 0 <= i < v.outputters.len() && #[trigger] v.done(i) implies 0
        <= order.index_of(i) < order.len() && order[order.index_of(i)] == i by {
        assert(order.contains(i));
    }
    assert forall|r: int| 0 <= r < order.len() implies 0 <= #[trigger] order[r]
        < v.outputters.len() && v.done(order[r]) && order.index_of(order[r]) == r by {
        assert(order.contains(order[r]));
    }
}

/// A rotation keeps the state consistent, and keeps who is heard. It changes neither how many
/// sources wait nor how many output.
pub proof fn lemma_rotated(v: StateView)
    requires
        v.consistent(),
        v.queue_all_heard(),
        v.outputters_all_heard(),
    ensures
        v.rotated().consistent(),
        v.rotated().queue_all_heard(),
        v.rotated().outputters_all_heard(),
        v.rotated().queue.len() == v.queue.len(),
        v.rotated().outputters.len() == v.outputters.len(),
        forall|id: SourceKey| v.rotated().heard(id) <==> #[trigger] v.heard(id),
{
    lemma_done_rank(v);
    let next = v.rotated();
    let order = v.done_order();
    let m = v.rotations() as int;
    let left = v.queue.len() - m;
    assert forall|i: int| 0 <= i < next.outputters.len() implies #[trigger] next.outputters[i]
        == v.rotated_slot(i) by {}
    assert forall|i: int| 0 <= i < next.queue.len() implies #[trigger] next.queue[i] == if i
        < left {
        v.queue[i + m]
    } else {
        v.outputters[order[i - left]].requeued()
    } by {}
    assert(next.stamped());
    assert(next.data_complete());
    assert(next.distinct());
    assert forall|id: SourceKey| v.rotated().heard(id) <==> #[trigger] v.heard(id) by {
        if v.heard(id) {
            if exists|i: int|
                0 <= i < v.queue.len() && (#[trigger] v.queue[i]).id == id && !v.silent(
                    v.queue[i].last_packet,
                ) {
                let i = choose|i: int|
                    0 <= i < v.queue.len() && (#[trigger] v.queue[i]).id == id && !v.silent(
                        v.queue[i].last_packet,
                    );
                if i < m {
                    assert(next.outputters[order[i]] == v.started(v.queue[i]));
                } else {
                    assert(next.queue[i - m] == v.queue[i]);
                }
            } else {
                let i = choose|i: int|
                    0 <= i < v.outputters.len() && (#[trigger] v.outputters[i]).id == id
                        && !v.silent(v.outputters[i].last_packet);
                assert(next.outputters[i] == v.rotated_slot(i));
                if v.done(i) && order.index_of(i) < m {
                    assert(next.queue[left + order.index_of(i)] == v.outputters[i].requeued());
                }
            }
        }
        if next.heard(id) {
            if exists|i: int|
                0 <= i < next.queue.len() && (#[trigger] next.queue[i]).id == id && !v.silent(
                    next.queue[i].last_packet,
                ) {
                let i = choose|i: int|
                    0 <= i < next.queue.len() && (#[trigger] next.queue[i]).id == id && !v.silent(
                        next.queue[i].last_packet,
                    );
                if i < left {
                    assert(v.queue[i + m].id == id);
                } else {
                    assert(v.outputters[order[i - left]].id == id);
                }
            } else {
                let i = choose|i: int|
                    0 <= i < next.outputters.len() && (#[trigger] next.outputters[i]).id == id
                        && !v.silent(next.outputters[i].last_packet);
                assert(next.outputters[i] == v.rotated_slot(i));
                if v.done(i) && order.index_of(i) < m {
                    assert(v.queue[order.index_of(i)].id == id);
                } else {
                    assert(v.outputters[i].id == id);
                }
            }
        }
    }
}

/// The state before the rotation of a frame.
pub proof fn lemma_grown(v: StateView)
    requires
        v.consistent(),
    ensures
        v.grown().consistent(),
        v.grown().queue_all_heard(),
        v.grown().outputters_all_heard(),
        v.grown().queue.len() > 0 ==> v.grown().outputters.len() == v.outputter_capacity,
        v.grown() == (StateView {
            queue: v.grown().queue,
            outputters: v.grown().outputters,
            ..v
        }),
        forall|id: SourceKey| v.grown().heard(id) <==> #[trigger] v.heard(id),
{
    lemma_queue_cleared(v);
    lemma_refilled(v.queue_cleared());
    lemma_outputters_cleared(v.queue_cleared().refilled());
    lemma_expanded(v.queue_cleared().refilled().outputters_cleared());
    assert forall|id: SourceKey| v.grown().heard(id) <==> #[trigger] v.heard(id) by {
        let a = v.queue_cleared();
        let b = a.refilled();
        let c = b.outputters_cleared();
        assert(a.heard(id) == v.heard(id));
        assert(b.heard(id) == a.heard(id));
        assert(c.heard(id) == b.heard(id));
    }
}

/// The state before the channels are divided anew.
pub proof fn lemma_regrouped(v: StateView)
    requires
        v.consistent(),
    ensures
        v.regrouped().consistent(),
        v.regrouped().queue_all_heard(),
        v.regrouped().outputters_all_heard(),
        v.regrouped().queue.len() == v.grown().queue.len(),
        v.regrouped().outputters.len() == v.grown().outputters.len(),
        v.regrouped() == (StateView {
            queue: v.regrouped().queue,
            outputters: v.regrouped().outputters,
            ..v
        }),
        forall|id: SourceKey| v.regrouped().heard(id) <==> #[trigger] v.heard(id),
{
    lemma_grown(v);
    let grown = v.grown();
    lemma_rotated(grown);
    assert forall|id: SourceKey| v.regrouped().heard(id) <==> #[trigger] v.heard(id) by {
        assert(grown.heard(id) == v.heard(id));
    }
}

/// A frame keeps the state well formed.
pub proof fn lemma_next_frame_wf(v: StateView)
    requires
        v.wf(),
        v.channel_group_size > 0 || v.next_frame().outputters.len() == 0,
    ensures
        v.next_frame().wf(),
{
    lemma_regrouped(v);
    let next = v.regrouped();
    let shared = if next.outputters.len() != v.outputters.len() { next.reshared() } else { next };
    assert forall|i: int| 0 <= i < next.outputters.len() implies (
    #[trigger] shared.outputters[i]).id == next.outputters[i].id && shared.outputters[i].last_packet
        == next.outputters[i].last_packet && shared.outputters[i].start_frame
        == next.outputters[i].start_frame by {}
    assert(shared.data_complete());
    assert(shared.distinct());
    assert(v.next_frame().stamped());
}

/// A filter that something does not pass makes the sequence shorter.
pub proof fn lemma_filter_shorter<A>(s: Seq<A>, keep: spec_fn(A) -> bool, i: int)
    requires
        0 <= i < s.len(),
        !keep(s[i]),
    ensures
        s.filter(keep).len() < s.len(),
    decreases s.len(),
{
    reveal(Seq::filter);
    if i < s.len() - 1 {
        lemma_filter_shorter(s.drop_last(), keep, i);
    } else {
        lemma_filter_keeps(s.drop_last(), keep);
    }
}

/// The number of queued sources, out of those that are heard, that have a slot before the
/// rotation of a frame.
pub open spec fn seated(v: StateView) -> int {
    v.queue_cleared().queue.len() - v.grown().queue.len()
}

/// Who is where before the rotation of a frame: the queue has lost the sources at its front, which
/// now output; every other outputter was one before, in the same slot unless outputters left.
pub proof fn lemma_grown_origin(v: StateView)
    requires
        v.consistent(),
    ensures
        0 <= seated(v) <= v.queue_cleared().queue.len(),
        v.grown().queue =~= v.queue_cleared().queue.skip(seated(v)),
        forall|i: int|
            0 <= i < v.queue_cleared().queue.len() ==> v.queue.contains(
                #[trigger] v.queue_cleared().queue[i],
            ),
        forall|i: int|
            0 <= i < seated(v) ==> v.grown().outputters.contains(
                v.started(#[trigger] v.queue_cleared().queue[i]),
            ),
        forall|j: int|
            0 <= j < v.grown().outputters.len() ==> {
                ||| exists|i: int|
                    0 <= i < v.queue.len() && (#[trigger] v.grown().outputters[j]) == v.started(
                        #[trigger] v.queue[i],
                    )
                ||| v.outputters.contains(v.grown().outputters[j])
            },
        v.grown().outputters.len() >= v.outputters.len() ==> {
            &&& v.queue_cleared().refilled().outputters_all_heard()
            &&& forall|i: int|
                0 <= i < v.outputters.len() ==> #[trigger] v.grown().outputters[i]
                    == v.queue_cleared().refilled_slot(i)
        },
        v.grown().outputters.len() < v.outputters.len() ==> v.grown().queue.len() == 0,
{
    let a = v.queue_cleared();
    let b = a.refilled();
    let c = b.outputters_cleared();
    let g = c.expanded();
    let n = v.outputters.len() as int;
    lemma_queue_cleared(v);
    lemma_refilled(a);
    lemma_outputters_cleared(b);
    lemma_expanded(c);
    lemma_filter_keeps(v.queue, v.queue_heard());
    lemma_filter_keeps(b.outputters, b.outputter_heard());
    let taken = least(a.queue.len(), a.silent_before(n)) as int;
    let admitted = c.admissible() as int;
    assert(g.queue =~= a.queue.skip(taken + admitted));
    assert(seated(v) == taken + admitted);
    if !b.outputters_all_heard() {
        let i = choose|i: int|
            0 <= i < b.outputters.len() && b.silent((#[trigger] b.outputters[i]).last_packet);
        lemma_filter_shorter(b.outputters, b.outputter_heard(), i);
        assert(b.queue.len() == 0);
        assert(g.outputters.len() < n);
    } else {
        assert(c == b);
        assert forall|i: int| 0 <= i < n implies #[trigger] g.outputters[i] == a.refilled_slot(
            i,
        ) by {}
    }
    assert forall|i: int| 0 <= i < seated(v) implies g.outputters.contains(
        v.started(#[trigger] a.queue[i]),
    ) by {
        if i < taken {
            let slot = lemma_silent_slot(a, i, n);
            assert(b.outputters[slot] == v.started(a.queue[i]));
            assert(!b.silent(a.queue[i].last_packet));
            assert((b.outputter_heard())(b.outputters[slot]));
            assert(c.outputters.contains(b.outputters[slot]));
            let at = choose|at: int|
                0 <= at < c.outputters.len() && c.outputters[at] == b.outputters[slot];
            assert(g.outputters[at] == c.outputters[at]);
        } else {
            assert(c.queue[i - taken] == a.queue[i]);
            assert(g.outputters[c.outputters.len() + (i - taken)] == v.started(a.queue[i]));
        }
    }
    assert forall|j: int| 0 <= j < g.outputters.len() implies (exists|i: int|
        0 <= i < v.queue.len() && (#[trigger] g.outputters[j]) == v.started(#[trigger] v.queue[i]))
        || v.outputters.contains(g.outputters[j]) by {
        if j < c.outputters.len() {
            assert(g.outputters[j] == c.outputters[j]);
            assert(b.outputters.contains(c.outputters[j]));
            let slot = choose|slot: int|
                0 <= slot < b.outputters.len() && b.outputters[slot] == c.outputters[j];
            assert(b.outputters[slot] == a.refilled_slot(slot));
            if a.silent(a.outputters[slot].last_packet) && a.silent_before(slot)
                < a.queue.len() {
                let q = a.queue[a.silent_before(slot) as int];
                assert(v.queue.contains(q));
                let i = choose|i: int| 0 <= i < v.queue.len() && v.queue[i] == q;
                assert(g.outputters[j] == v.started(v.queue[i]));
            } else {
                assert(v.outputters[slot] == g.outputters[j]);
            }
        } else {
            let q = a.queue[taken + (j - c.outputters.len())];
            assert(c.queue[j - c.outputters.len()] == q);
            assert(v.queue.contains(q));
            let i = choose|i: int| 0 <= i < v.queue.len() && v.queue[i] == q;
            assert(g.outputters[j] == v.started(v.queue[i]));
        }
    }
}

/// Dividing the channels anew changes nothing of an outputter but its data.
pub proof fn lemma_next_frame_same(v: StateView)
    requires
        v.consistent(),
    ensures
        v.next_frame().queue == v.regrouped().queue,
        v.next_frame().outputters.len() == v.regrouped().outputters.len(),
        forall|i: int|
            0 <= i < v.regrouped().outputters.len() ==> (#[trigger] v.next_frame().outputters[i])
                == (OutputtingView {
                data: resized(
                    v.regrouped().outputters[i].data,
                    v.next_frame().input_channel_count,
                ),
                ..v.regrouped().outputters[i]
            }),
{
    lemma_regrouped(v);
    let next = v.regrouped();
    assert forall|i: int| 0 <= i < next.outputters.len() implies (
    #[trigger] v.next_frame().outputters[i]) == (OutputtingView {
        data: resized(next.outputters[i].data, v.next_frame().input_channel_count),
        ..next.outputters[i]
    }) by {
        if next.outputters.len() == v.outputters.len() {
            assert(next.outputters[i].data.len() == v.input_channel_count);
            assert(next.outputters[i].data =~= resized(
                next.outputters[i].data,
                v.next_frame().input_channel_count,
            ));
        }
    }
}

/// Who has a slot after a frame, apart from the data: a source that waited before, and starts now,
/// or one that was outputting before. The latter has its old start frame unless it was overdue.
pub proof fn lemma_regrouped_slot(v: StateView, j: int)
    requires
        v.consistent(),
        0 <= j < v.regrouped().outputters.len(),
    ensures
        ({
            let now = v.regrouped().outputters[j];
            ||| exists|i: int| 0 <= i < v.queue.len() && now == v.started(#[trigger] v.queue[i])
            ||| exists|i: int|
                0 <= i < v.outputters.len() && {
                    ||| now == #[trigger] v.outputters[i]
                    ||| now == (OutputtingView {
                        start_frame: v.frame - v.output_time / 2,
                        ..v.outputters[i]
                    }) && v.overdue(i)
                }
        }),
{
    lemma_grown(v);
    lemma_grown_origin(v);
    let g = v.grown();
    lemma_rotated(g);
    lemma_done_rank(g);
    let now = v.regrouped().outputters[j];
    if g.queue.len() > 0 {
        assert(now == g.rotated_slot(j));
        if g.done(j) && g.done_order().index_of(j) < g.rotations() {
            let k = g.done_order().index_of(j);
            let heard = v.queue_cleared().queue;
            assert(g.queue[k] == heard[seated(v) + k]);
            assert(v.queue.contains(heard[seated(v) + k]));
            let i = choose|i: int| 0 <= i < v.queue.len() && v.queue[i] == g.queue[k];
            assert(now == v.started(v.queue[i]));
        } else {
            lemma_grown_slot(v, j);
            if exists|i: int|
                0 <= i < v.queue.len() && g.outputters[j] == v.started(#[trigger] v.queue[i]) {
                let i = choose|i: int|
                    0 <= i < v.queue.len() && g.outputters[j] == v.started(#[trigger] v.queue[i]);
                assert(!g.done(j));
                assert(now == v.started(v.queue[i]));
            } else {
                let i = choose|i: int|
                    0 <= i < v.outputters.len() && v.outputters[i] == g.outputters[j];
                assert(g.overdue(j) == v.overdue(i));
                assert(now == v.outputters[i] || v.overdue(i));
            }
        }
    } else {
        lemma_grown_slot(v, j);
        if v.outputters.contains(g.outputters[j]) {
            let i = choose|i: int| 0 <= i < v.outputters.len() && v.outputters[i] == g.outputters[j];
            assert(now == v.outputters[i]);
        }
    }
}

/// Who has a slot before the rotation of a frame.
pub proof fn lemma_grown_slot(v: StateView, j: int)
    requires
        v.consistent(),
        0 <= j < v.grown().outputters.len(),
    ensures
        (exists|i: int|
            0 <= i < v.queue.len() && v.grown().outputters[j] == v.started(#[trigger] v.queue[i]))
            || v.outputters.contains(v.grown().outputters[j]),
{
    lemma_grown_origin(v);
    let now = v.grown().outputters[j];
    if !v.outputters.contains(now) {
        let i = choose|i: int|
            0 <= i < v.queue.len() && (#[trigger] v.grown().outputters[j]) == v.started(
                #[trigger] v.queue[i],
            );
        assert(now == v.started(v.queue[i]));
    }
}

/// A filter keeps elements in their order.
pub proof fn lemma_filter_order<A>(s: Seq<A>, keep: spec_fn(A) -> bool, a: int, b: int) -> (at: (
    int,
    int,
))
    requires
        0 <= a < b < s.filter(keep).len(),
    ensures
        0 <= at.0 < at.1 < s.len(),
        s[at.0] == s.filter(keep)[a],
        s[at.1] == s.filter(keep)[b],
    decreases s.len(),
{
    reveal(Seq::filter);
    let rest = s.drop_last();
    if b < rest.filter(keep).len() {
        lemma_filter_order(rest, keep, a, b)
    } else {
        lemma_filter_keeps(rest, keep);
        assert(rest.contains(rest.filter(keep)[a]));
        let i = choose|i: int| 0 <= i < rest.len() && rest[i] == rest.filter(keep)[a];
        (i, s.len() - 1)
    }
}

/// An outputter that is not silent is still one, unchanged, before the rotation of a frame.
pub proof fn lemma_grown_keeps(v: StateView, i: int) -> (j: int)
    requires
        v.consistent(),
        0 <= i < v.outputters.len(),
        !v.silent(v.outputters[i].last_packet),
    ensures
        0 <= j < v.grown().outputters.len(),
        v.grown().outputters[j] == v.outputters[i],
{
    lemma_grown(v);
    lemma_grown_origin(v);
    let g = v.grown();
    let id = v.outputters[i].id;
    assert(v.heard(id));
    assert(g.heard(id));
    assert forall|k: int| 0 <= k < g.queue.len() implies (#[trigger] g.queue[k]).id != id by {
        let q = v.queue_cleared().queue[seated(v) + k];
        assert(g.queue[k] == q);
        assert(v.queue.contains(q));
    }
    let j = choose|j: int| 0 <= j < g.outputters.len() && (#[trigger] g.outputters[j]).id == id;
    lemma_grown_slot(v, j);
    j
}

/// The slots before the rotation of a frame, if no outputter left: those of the outputters before
/// it are where they were, or taken by sources that waited.
pub proof fn lemma_grown_stable(v: StateView, i: int, j: int)
    requires
        v.consistent(),
        v.grown().outputters.len() >= v.outputters.len(),
        0 <= i < v.outputters.len(),
        0 <= j < v.grown().outputters.len(),
        v.grown().outputters[j].id == v.outputters[i].id,
    ensures
        i == j,
{
    let a = v.queue_cleared();
    let b = a.refilled();
    let c = b.outputters_cleared();
    let g = v.grown();
    let n = v.outputters.len() as int;
    lemma_queue_cleared(v);
    lemma_refilled(a);
    lemma_outputters_cleared(b);
    lemma_grown_origin(v);
    assert(c == b);
    if j < n {
        assert(g.outputters[j] == a.refilled_slot(j));
        if a.silent(a.outputters[j].last_packet) && a.silent_before(j) < a.queue.len() {
            assert(v.queue.contains(a.queue[a.silent_before(j) as int]));
        }
    } else {
        let taken = least(a.queue.len(), a.silent_before(n)) as int;
        assert(b.queue[j - n] == a.queue[taken + (j - n)]);
        assert(g.outputters[j] == v.started(a.queue[taken + (j - n)]));
        assert(v.queue.contains(a.queue[taken + (j - n)]));
    }
}

/// Outputters that leave leave the others in their order.
pub proof fn lemma_grown_ordered(v: StateView, i1: int, i2: int, j1: int, j2: int)
    requires
        v.consistent(),
        0 <= i1 < i2 < v.outputters.len(),
        0 <= j1 < v.grown().outputters.len(),
        0 <= j2 < v.grown().outputters.len(),
        v.grown().outputters[j1].id == v.outputters[i1].id,
        v.grown().outputters[j2].id == v.outputters[i2].id,
    ensures
        j1 < j2,
{
    let a = v.queue_cleared();
    let b = a.refilled();
    let c = b.outputters_cleared();
    let g = v.grown();
    lemma_queue_cleared(v);
    lemma_refilled(a);
    lemma_grown_origin(v);
    if g.outputters.len() >= v.outputters.len() {
        lemma_grown_stable(v, i1, j1);
        lemma_grown_stable(v, i2, j2);
    } else {
        if b.outputters_all_heard() {
            lemma_outputters_cleared(b);
        }
        assert(b.queue.len() == 0);
        assert(g.outputters =~= c.outputters);
        if j2 < j1 {
            let (k2, k1) = lemma_filter_order(b.outputters, b.outputter_heard(), j2, j1);
            assert forall|k: int| 0 <= k < b.outputters.len() implies (
            #[trigger] b.outputters[k]).id == v.outputters[k].id || v.queued(
                b.outputters[k].id,
            ) by {
                assert(b.outputters[k] == a.refilled_slot(k));
                if a.silent(a.outputters[k].last_packet) && a.silent_before(k) < a.queue.len() {
                    let q = a.queue[a.silent_before(k) as int];
                    assert(v.queue.contains(q));
                    let i = choose|i: int| 0 <= i < v.queue.len() && v.queue[i] == q;
                    assert(v.queue[i].id == b.outputters[k].id);
                }
            }
            assert(b.outputters[k1].id == v.outputters[i1].id);
            assert(b.outputters[k2].id == v.outputters[i2].id);
        }
    }
}

/// A slot after the rotation of a frame holds a source that waited, or who was in it before.
pub proof fn lemma_regrouped_place(v: StateView, j: int)
    requires
        v.consistent(),
        0 <= j < v.regrouped().outputters.len(),
    ensures
        v.regrouped().outputters.len() == v.grown().outputters.len(),
        v.queued(v.regrouped().outputters[j].id) || v.regrouped().outputters[j].id
            == v.grown().outputters[j].id,
{
    lemma_grown(v);
    lemma_grown_origin(v);
    let g = v.grown();
    lemma_rotated(g);
    lemma_done_rank(g);
    if g.queue.len() > 0 {
        assert(v.regrouped().outputters[j] == g.rotated_slot(j));
        if g.done(j) && g.done_order().index_of(j) < g.rotations() {
            let k = g.done_order().index_of(j);
            let q = v.queue_cleared().queue[seated(v) + k];
            assert(g.queue[k] == q);
            assert(v.queue.contains(q));
            let i = choose|i: int| 0 <= i < v.queue.len() && v.queue[i] == q;
            assert(v.queue[i].id == v.regrouped().outputters[j].id);
        }
    }
}

/// A packet keeps the state well formed, and every listed source where it is.
pub proof fn lemma_received_wf(v: StateView, id: SourceKey, universe: int, values: Seq<u8>)
    requires
        v.wf(),
        id.portless(),
    ensures
        v.received(id, universe, values).wf(),
        v.received(id, universe, values).outputters.len() == v.outputters.len(),
        v.received(id, universe, values).queue.len() >= v.queue.len(),
        forall|i: int|
            0 <= i < v.queue.len() ==> (#[trigger] v.received(id, universe, values).queue[i]).id
                == v.queue[i].id,
        forall|i: int|
            0 <= i < v.outputters.len() ==> (#[trigger] v.received(
                id,
                universe,
                values,
            ).outputters[i]).id == v.outputters[i].id,
{
    let next = v.received(id, universe, values);
    if v.queued(id) || v.outputting(id) {
        assert(next.distinct());
        assert(next.stamped());
        assert(next.data_complete());
    } else {
        assert forall|i: int| 0 <= i < next.queue.len() implies #[trigger] next.queue[i] == if i
            < v.queue.len() {
            v.queue[i]
        } else {
            QueuedView { id, last_packet: v.frame }
        } by {}
        assert(next.distinct());
        assert(next.stamped());
    }
}

/// Sources that keep their places keep their entries in the lookup table.
pub proof fn lemma_still_indexed(before: State, after: State)
    requires
        before.indexed(),
        after.sources@ == before.sources@,
        after@.queue.len() == before@.queue.len(),
        after@.outputters.len() == before@.outputters.len(),
        forall|i: int|
            0 <= i < before@.queue.len() ==> (#[trigger] after@.queue[i]).id == before@.queue[i].id,
        forall|i: int|
            0 <= i < before@.outputters.len() ==> (#[trigger] after@.outputters[i]).id
                == before@.outputters[i].id,
    ensures
        after.indexed(),
{
    assert forall|id: SourceKey| #[trigger] after.sources@.dom().contains(id) implies after@.queued(
        id,
    ) || after@.outputting(id) by {
        assert(before.sources@.dom().contains(id));
        if before@.queued(id) {
            let i = choose|i: int|
                0 <= i < before@.queue.len() && (#[trigger] before@.queue[i]).id == id;
            assert(after@.queue[i].id == id);
        } else {
            let i = choose|i: int|
                0 <= i < before@.outputters.len() && (#[trigger] before@.outputters[i]).id == id;
            assert(after@.outputters[i].id == id);
        }
    }
}

/// A source that joins the end of the queue, and the lookup table, is indexed like the others.
pub proof fn lemma_joined_indexed(before: State, after: State, source: QueuedView)
    requires
        before.indexed(),
        !before.sources@.dom().contains(source.id),
        after@ == (StateView { queue: before@.queue.push(source), ..before@ }),
        after.sources@ == before.sources@.insert(
            source.id,
            SourcePosition::Queue(before@.queue.len() as usize),
        ),
    ensures
        after.indexed(),
{
    assert forall|i: int| 0 <= i < after@.queue.len() implies after.sources@.contains_pair(
        (#[trigger] after@.queue[i]).id,
        SourcePosition::Queue(i as usize),
    ) by {
        if i < before@.queue.len() {
            assert(after@.queue[i] == before@.queue[i]);
        }
    }
    assert forall|id: SourceKey| #[trigger] after.sources@.dom().contains(id) implies after@.queued(
        id,
    ) || after@.outputting(id) by {
        if id == source.id {
            assert(after@.queue[before@.queue.len() as int] == source);
        } else {
            assert(before.sources@.dom().contains(id));
            if before@.queued(id) {
                let i = choose|i: int|
                    0 <= i < before@.queue.len() && (#[trigger] before@.queue[i]).id == id;
                assert(after@.queue[i].id == id);
            } else {
                assert(after@.outputters == before@.outputters);
            }
        }
    }
}

/// A source that the lookup table lists stands where the table says, and nowhere else.
pub proof fn lemma_listed(state: State, id: SourceKey)
    requires
        state@.distinct(),
        state.indexed(),
        state.sources@.dom().contains(id),
    ensures
        match state.sources@[id] {
            SourcePosition::Queue(i) => {
                &&& i < state@.queue.len()
                &&& state@.queue[i as int].id == id
                &&& state@.queued(id)
            },
            SourcePosition::Outputting(i) => {
                &&& i < state@.outputters.len()
                &&& state@.outputters[i as int].id == id
                &&& state@.outputting(id)
            },
        },
{
    let v = state@;
    assert(v.queue.len() == state.queue.len());
    assert(v.outputters.len() == state.outputters.len());
    if v.queued(id) {
        let i = choose|i: int| 0 <= i < v.queue.len() && (#[trigger] v.queue[i]).id == id;
        assert(state.sources@.contains_pair(v.queue[i].id, SourcePosition::Queue(i as usize)));
    } else {
        let i = choose|i: int| 0 <= i < v.outputters.len() && (#[trigger] v.outputters[i]).id == id;
        assert(state.sources@.contains_pair(
            v.outputters[i].id,
            SourcePosition::Outputting(i as usize),
        ));
    }
}

} // verus!
