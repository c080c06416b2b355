use vstd::prelude::*;
use vstd::relations::sorted_by;

use crate::model::{
    channel_share, joined, least, resized, universe_count, OutputtingView, StateView,
};
use crate::packet::{
    packet_bytes, HEADER_SIZE, PACKET_HEADER, PACKET_SIZE, UNIVERSE_CHANNELS, UNIVERSE_SIZE,
};
use crate::proofs::{
    lemma_done_order, lemma_grown, lemma_next_frame_wf, lemma_outputters_cleared,
    lemma_queue_cleared, lemma_refilled, lemma_regrouped, lemma_yields_before_total,
};
use crate::state::{OutputtingSource, QueuedSource, State};

verus! {

/// The E1.31 packet that carries `data` for a universe, with a sequence number.
pub fn e131_packet(data: &[u8; UNIVERSE_SIZE], universe: u16, seq_number: u8) -> (packet:
    [u8; PACKET_SIZE])
    ensures
        packet@ == packet_bytes(data@, universe as int, seq_number as int),
{
    let mut packet: [u8; PACKET_SIZE] = [0u8; PACKET_SIZE];
    let ghost expected = packet_bytes(data@, universe as int, seq_number as int);
    let mut i: usize = 0;
    while i < HEADER_SIZE
        invariant
            i <= HEADER_SIZE,
            forall|j: int| 0 <= j < i ==> packet@[j] == #[trigger] PACKET_HEADER@[j],
        decreases HEADER_SIZE - i,
    {
        packet[i] = PACKET_HEADER[i];
        i += 1;
    }
    packet[111] = seq_number;
    packet[113] = (universe / 256) as u8;
    packet[114] = (universe % 256) as u8;
    assert(packet@.take(HEADER_SIZE as int) =~= expected.take(HEADER_SIZE as int));
    assert(forall|j: int|
        0 <= j < HEADER_SIZE ==> packet@[j] == packet@.take(HEADER_SIZE as int)[j] && expected[j]
            == expected.take(HEADER_SIZE as int)[j]);
    let mut i: usize = 0;
    while i < UNIVERSE_SIZE
        invariant
            i <= UNIVERSE_SIZE,
            expected == packet_bytes(data@, universe as int, seq_number as int),
            forall|j: int| 0 <= j < HEADER_SIZE + i ==> packet@[j] == expected[j],
        decreases UNIVERSE_SIZE - i,
    {
        packet[HEADER_SIZE + i] = data[i];
        i += 1;
    }
    assert(packet@ =~= expected);
    packet
}

/// The values of all output channels.
fn output_channels(state: &State) -> (channels: Vec<u8>)
    ensures
        channels@ == state@.channels(),
{
    let mut channels: Vec<u8> = Vec::new();
    let mut i: usize = 0;
    while i < state.outputters.len()
        invariant
            i <= state.outputters.len(),
            channels@ =~= joined(state@.outputters.take(i as int)),
        decreases state.outputters.len() - i,
    {
        let ghost before = channels@;
        channels.extend_from_slice(&state.outputters[i].data);
        assert(channels@ =~= before + state@.outputters[i as int].data);
        assert(state@.outputters.take(i + 1).drop_last() =~= state@.outputters.take(i as int));
        i += 1;
    }
    assert(state@.outputters.take(i as int) =~= state@.outputters);
    resize(&mut channels, state.output_channel_count);
    channels
}

/// Cuts or pads data with 0 to `len` bytes.
fn resize(data: &mut Vec<u8>, len: usize)
    ensures
        final(data)@ == resized(old(data)@, len as nat),
{
    let ghost before = data@;
    data.resize(len, 0);
    assert forall|c: int| 0 <= c < before.len() && before.len() < len implies data@[c]
        == before[c] by {
        assert(data@.subrange(0, before.len() as int)[c] == data@[c]);
    }
    assert(data@ =~= resized(before, len as nat));
}

/// The packets that a frame sends.
fn frame_packets(state: &State) -> (packets: Vec<[u8; PACKET_SIZE]>)
    requires
        universe_count(state@.output_channel_count) <= u16::MAX,
    ensures
        packets@.len() == state@.packets().len(),
        forall|u: int| 0 <= u < packets@.len() ==> (#[trigger] packets@[u])@ == state@.packets()[u],
{
    let channels = output_channels(state);
    let count: usize = state.output_channel_count;
    let mut packets: Vec<[u8; PACKET_SIZE]> = Vec::new();
    let universes: usize = (count + (UNIVERSE_CHANNELS - 1)) / UNIVERSE_CHANNELS;
    let mut universe: usize = 0;
    while universe < universes
        invariant
            universes == universe_count(state@.output_channel_count),
            universes <= u16::MAX,
            channels@ == state@.channels(),
            count == state@.output_channel_count,
            universe <= universes,
            universe == packets@.len(),
            forall|u: int|
                0 <= u < packets@.len() ==> (#[trigger] packets@[u])@ == state@.packets()[u],
        decreases universes - universe,
    {
        let at: usize = universe * UNIVERSE_CHANNELS;
        let left: usize = count - at;
        let to_copy: usize = if left < UNIVERSE_CHANNELS { left } else { UNIVERSE_CHANNELS };
        let mut data: [u8; UNIVERSE_SIZE] = [0u8; UNIVERSE_SIZE];
        let mut i: usize = 0;
        while i < to_copy
            invariant
                channels@ == state@.channels(),
                count == state@.output_channel_count,
                at + to_copy <= count,
                to_copy <= UNIVERSE_CHANNELS,
                i <= to_copy,
                forall|c: int|
                    0 <= c < UNIVERSE_SIZE ==> data@[c] == if c < i {
                        channels@[at + c]
                    } else {
                        0u8
                    },
            decreases to_copy - i,
        {
            data[i] = channels[at + i];
            i += 1;
        }
        assert(data@ =~= state@.universe_values(universe as int));
        packets.push(e131_packet(&data, universe as u16 + 1, (state.frame % 256) as u8));
        universe += 1;
    }
    packets
}

/// Whether a source whose last packet came at frame `last_packet` has been inactive for too long.
fn is_silent(state: &State, last_packet: usize) -> (silent: bool)
    requires
        last_packet <= state.frame,
    ensures
        silent == state@.silent(last_packet as int),
{
    state.frame - last_packet > state.timeout
}

/// Removes the sources from the queue that have disconnected.
fn clear_queue(state: &mut State)
    requires
        old(state)@.stamped(),
    ensures
        final(state)@ == old(state)@.queue_cleared(),
{
    let ghost before = state@;
    let ghost heard = before.queue_heard();
    let ghost mut seen: int = 0;
    let mut i: usize = 0;
    assert(before.queue.take(0).filter(heard) =~= Seq::empty()) by {
        reveal(Seq::filter);
    }
    while i < state.queue.len()
        invariant
            before.stamped(),
            heard == before.queue_heard(),
            0 <= seen <= before.queue.len(),
            i == before.queue.take(seen).filter(heard).len(),
            state@.queue =~= before.queue.take(seen).filter(heard) + before.queue.skip(seen),
            state@ == (StateView { queue: state@.queue, ..before }),
        decreases before.queue.len() - seen,
    {
        assert(state@.queue[i as int] == before.queue[seen]);
        proof {
            assert(before.queue.take(seen + 1).drop_last() =~= before.queue.take(seen));
            reveal(Seq::filter);
        }
        let last_packet: usize = state.queue[i].common.last_packet;
        if is_silent(state, last_packet) {
            let ghost queue = state@.queue;
            state.queue.remove(i);
            assert(state@.queue =~= queue.remove(i as int));
        } else {
            i += 1;
        }
        proof {
            seen = seen + 1;
        }
    }
    assert(before.queue.take(seen) =~= before.queue);
}

/// Lets queued sources take the slots of outputters that have disconnected.
fn refill(state: &mut State)
    requires
        old(state)@.stamped(),
    ensures
        final(state)@ == old(state)@.refilled(),
{
    let ghost before = state@;
    let ghost silent = before.outputter_silent();
    let mut i: usize = 0;
    assert(before.outputters.take(0).filter(silent) =~= Seq::empty()) by {
        reveal(Seq::filter);
    }
    while i < state.outputters.len()
        invariant
            before.stamped(),
            silent == before.outputter_silent(),
            i <= before.outputters.len(),
            state@.outputters.len() == before.outputters.len(),
            state@.queue =~= before.queue.skip(
                least(before.queue.len(), before.silent_before(i as int)) as int,
            ),
            state@.outputters =~= Seq::new(
                before.outputters.len(),
                |j: int| if j < i { before.refilled_slot(j) } else { before.outputters[j] },
            ),
            state@ == (StateView {
                queue: state@.queue,
                outputters: state@.outputters,
                ..before
            }),
        decreases before.outputters.len() - i,
    {
        assert(i < state@.outputters.len());
        assert(state@.outputters[i as int] == before.outputters[i as int]);
        proof {
            assert(before.outputters.take(i + 1).drop_last() =~= before.outputters.take(i as int));
            reveal(Seq::filter);
        }
        let last_packet: usize = state.outputters[i].common.last_packet;
        if is_silent(state, last_packet) {
            let ghost queue = state@.queue;
            let ghost outputters = state@.outputters;
            match state.queue.pop_front() {
                Some(queued) => {
                    assert(queued@ == queue[0]);
                    assert(state@.queue =~= queue.skip(1));
                    let source = OutputtingSource::from(queued, state);
                    let ghost started = source@;
                    state.outputters[i] = source;
                    assert(state@.outputters =~= outputters.update(i as int, started));
                },
                None => {
                    assert(state@.queue =~= queue);
                },
            }
        }
        i += 1;
    }
    assert(before.outputters.take(i as int) =~= before.outputters);
}

/// Removes the outputters that have disconnected.
fn clear_outputters(state: &mut State)
    requires
        old(state)@.stamped(),
    ensures
        final(state)@ == old(state)@.outputters_cleared(),
{
    let ghost before = state@;
    let ghost heard = before.outputter_heard();
    let ghost mut seen: int = 0;
    let mut i: usize = 0;
    assert(before.outputters.take(0).filter(heard) =~= Seq::empty()) by {
        reveal(Seq::filter);
    }
    while i < state.outputters.len()
        invariant
            before.stamped(),
            heard == before.outputter_heard(),
            0 <= seen <= before.outputters.len(),
            i == before.outputters.take(seen).filter(heard).len(),
            state@.outputters =~= before.outputters.take(seen).filter(heard)
                + before.outputters.skip(seen),
            state@ == (StateView { outputters: state@.outputters, ..before }),
        decreases before.outputters.len() - seen,
    {
        assert(state@.outputters[i as int] == before.outputters[seen]);
        proof {
            assert(before.outputters.take(seen + 1).drop_last() =~= before.outputters.take(seen));
            reveal(Seq::filter);
        }
        let last_packet: usize = state.outputters[i].common.last_packet;
        if is_silent(state, last_packet) {
            let ghost outputters = state@.outputters;
            state.outputters.remove(i);
            assert(state@.outputters =~= outputters.remove(i as int));
        } else {
            i += 1;
        }
        proof {
            seen = seen + 1;
        }
    }
    assert(before.outputters.take(seen) =~= before.outputters);
}

/// Lets queued sources take free slots.
fn expand(state: &mut State)
    ensures
        final(state)@ == old(state)@.expanded(),
{
    let ghost before = state@;
    let ghost mut moved: nat = 0;
    while state.outputters.len() < state.outputter_capacity && state.queue.len() > 0
        invariant
            moved <= before.admissible(),
            state@.queue =~= before.queue.skip(moved as int),
            state@.outputters =~= before.outputters + Seq::new(
                moved,
                |i: int| before.started(before.queue[i]),
            ),
            state@ == (StateView {
                queue: state@.queue,
                outputters: state@.outputters,
                ..before
            }),
        decreases before.admissible() - moved,
    {
        let ghost queue = state@.queue;
        let ghost outputters = state@.outputters;
        if let Some(queued) = state.queue.pop_front() {
            assert(queued@ == queue[0]);
            assert(state@.queue =~= queue.skip(1));
            let source = OutputtingSource::from(queued, state);
            let ghost started = source@;
            state.outputters.push(source);
            assert(state@.outputters =~= outputters.push(started));
        }
        proof {
            moved = moved + 1;
        }
    }
}

/// The slots of the outputters that have reached the maximum output time, in the order in which
/// they are given up.
fn done_slots(state: &State) -> (order: Vec<usize>)
    requires
        state@.stamped(),
    ensures
        Seq::new(order@.len(), |k: int| order@[k] as int) == state@.done_order(),
{
    broadcast use vstd::seq_lib::group_to_multiset_ensures;

    let ghost view = state@;
    let ghost leq = view.yields_before();
    let ghost all = Seq::new(view.outputters.len(), |i: int| i);
    let ghost done = |i: int| view.done(i);
    let mut order: Vec<usize> = Vec::new();
    let ghost mut slots: Seq<int> = Seq::empty();
    let mut i: usize = 0;
    assert(all.take(0).filter(done) =~= Seq::empty()) by {
        reveal(Seq::filter);
    }
    while i < state.outputters.len()
        invariant
            state@.stamped(),
            view == state@,
            leq == view.yields_before(),
            all == Seq::new(view.outputters.len(), |i: int| i),
            done == (|i: int| view.done(i)),
            i <= state.outputters.len(),
            slots =~= Seq::new(order@.len(), |k: int| order@[k] as int),
            slots.to_multiset() == all.take(i as int).filter(done).to_multiset(),
            forall|k: int| 0 <= k < slots.len() ==> 0 <= #[trigger] slots[k] < i,
            sorted_by(slots, leq),
        decreases state.outputters.len() - i,
    {
        assert(state@.outputters[i as int] == state.outputters@[i as int]@);
        let ghost listed = all.take(i as int).filter(done);
        proof {
            assert(all.take(i + 1).drop_last() =~= all.take(i as int));
            reveal(Seq::filter);
            assert(all.take(i + 1).last() == i as int);
            vstd::seq_lib::to_multiset_build(listed, i as int);
        }
        let start_frame: usize = state.outputters[i].start_frame;
        assert(done(i as int) == (start_frame + state.output_time <= state.frame));
        if state.frame - start_frame >= state.output_time {
            let mut at: usize = order.len();
            while at > 0 && state.outputters[order[at - 1]].start_frame > start_frame
                invariant
                    view == state@,
                    leq == view.yields_before(),
                    i < state.outputters.len(),
                    start_frame == view.outputters[i as int].start_frame,
                    at <= order.len(),
                    slots =~= Seq::new(order@.len(), |k: int| order@[k] as int),
                    forall|k: int| 0 <= k < slots.len() ==> 0 <= #[trigger] slots[k] < i,
                    forall|k: int|
                        at <= k < slots.len() ==> view.outputters[#[trigger] slots[k]].start_frame
                            > start_frame,
                    forall|k: int| 0 <= k < order@.len() ==> slots[k] == #[trigger] order@[k],
                decreases at,
            {
                assert(slots[at - 1] == order@[at - 1]);
                assert(view.outputters[slots[at - 1]] == state.outputters@[slots[at - 1]]@);
                at -= 1;
            }
            let ghost inserted = slots.insert(at as int, i as int);
            assert(sorted_by(inserted, leq)) by {
                if at > 0 {
                    assert(slots[at - 1] == order@[at - 1]);
                    assert(view.outputters[slots[at - 1]] == state.outputters@[slots[at - 1]]@);
                }
                assert forall|a: int, b: int| 0 <= a < b < inserted.len() implies #[trigger] leq(
                    inserted[a],
                    inserted[b],
                ) by {
                    if b < at {
                        assert(leq(slots[a], slots[b]));
                    } else if b == at {
                        if a < at - 1 {
                            assert(leq(slots[a], slots[at - 1]));
                        }
                    } else if a < at {
                        assert(leq(slots[a], slots[b - 1]));
                    } else if a == at {
                        assert(slots[b - 1] == inserted[b]);
                    } else {
                        assert(leq(slots[a - 1], slots[b - 1]));
                    }
                }
            }
            assert(inserted.to_multiset() == slots.to_multiset().insert(i as int)) by {
                vstd::seq_lib::to_multiset_insert(slots, at as int, i as int);
            }
            order.insert(at, i);
            proof {
                assert(inserted =~= Seq::new(order@.len(), |k: int| order@[k] as int));
                slots = inserted;
            }
        }
        i += 1;
    }
    proof {
        lemma_done_order(view);
        lemma_yields_before_total(view);
        assert(all.take(i as int) =~= all);
        vstd::seq_lib::lemma_sorted_unique(slots, view.done_order(), leq);
    }
    order
}

/// `order` holds the slots of the outputters that are done, in the order in which they are given
/// up.
spec fn lists_done_slots(order: Seq<usize>, view: StateView) -> bool {
    let slots = view.done_order();
    &&& slots.len() == order.len()
    &&& forall|k: int|
        0 <= k < order.len() ==> {
            &&& (#[trigger] order[k]) as int == slots[k]
            &&& slots.index_of(slots[k]) == k
            &&& 0 <= slots[k] < view.outputters.len()
            &&& view.done(slots[k])
        }
    &&& forall|i: int|
        0 <= i < view.outputters.len() && #[trigger] view.done(i) ==> {
            &&& 0 <= slots.index_of(i) < slots.len()
            &&& slots[slots.index_of(i)] == i
        }
}

/// Lets outputters that have reached the maximum output time change places with queued sources.
///
/// Outputters that are past that time and that nobody replaced get half of it again. Otherwise a
/// source that has just been replaced, and waits at the front of the queue in the next frame,
/// would replace one of them, and so be the last to be replaced in its turn. One that is just at
/// the limit is left alone, for when several reach it in the same frame.
fn rotate(state: &mut State)
    requires
        old(state)@.stamped(),
    ensures
        final(state)@ == old(state)@.rotated(),
{
    let ghost before = state@;
    let order = done_slots(state);
    let ghost slots = before.done_order();
    proof {
        lemma_done_order(before);
        assert forall|k: int| 0 <= k < order@.len() implies (#[trigger] order@[k]) as int
            == slots[k] && slots.index_of(slots[k]) == k && 0 <= slots[k]
            < before.outputters.len() && before.done(slots[k]) by {
            assert(Seq::new(order@.len(), |k: int| order@[k] as int)[k] == order@[k] as int);
            assert(slots.contains(slots[k]));
        }
        assert forall|i: int| 0 <= i < before.outputters.len() && #[trigger] before.done(
            i,
        ) implies 0 <= slots.index_of(i) < slots.len() && slots[slots.index_of(i)] == i by {
            assert(slots.contains(i));
        }
        assert(lists_done_slots(order@, before));
    }
    let rotations: usize = if state.queue.len() < order.len() {
        state.queue.len()
    } else {
        order.len()
    };
    let mut r: usize = 0;
    while r < rotations
        invariant
            before.stamped(),
            slots == before.done_order(),
            lists_done_slots(order@, before),
            r <= rotations,
            rotations == before.rotations(),
            state@.outputters.len() == before.outputters.len(),
            state@.queue =~= before.queue.skip(r as int) + Seq::new(
                r as nat,
                |k: int| before.outputters[slots[k]].requeued(),
            ),
            state@.outputters =~= Seq::new(
                before.outputters.len(),
                |i: int|
                    if before.done(i) && slots.index_of(i) < r {
                        before.started(before.queue[slots.index_of(i)])
                    } else {
                        before.outputters[i]
                    },
            ),
            state@ == (StateView {
                queue: state@.queue,
                outputters: state@.outputters,
                ..before
            }),
        decreases rotations - r,
    {
        let slot: usize = order[r];
        let ghost queue = state@.queue;
        let ghost outputters = state@.outputters;
        assert(slot as int == slots[r as int]);
        assert(outputters[slot as int] == before.outputters[slot as int]);
        assert(queue[0] == before.queue[r as int]);
        if let Some(queued) = state.queue.pop_front() {
            assert(state@.queue =~= queue.skip(1));
            let mut source = OutputtingSource::from(queued, state);
            let ghost started = source@;
            std::mem::swap(&mut source, &mut state.outputters[slot]);
            assert(source@ == outputters[slot as int]);
            assert(state@.outputters =~= outputters.update(slot as int, started));
            let requeued = QueuedSource::from(source);
            let ghost back = requeued@;
            state.queue.push_back(requeued);
            assert(state@.queue =~= queue.skip(1).push(back));
        }
        r += 1;
    }
    let ghost swapped = state@;
    while r < order.len()
        invariant
            before.stamped(),
            slots == before.done_order(),
            lists_done_slots(order@, before),
            before.rotations() <= r <= order.len(),
            swapped == (StateView {
                queue: swapped.queue,
                outputters: swapped.outputters,
                ..before
            }),
            swapped.outputters =~= Seq::new(
                before.outputters.len(),
                |i: int|
                    if before.done(i) && slots.index_of(i) < before.rotations() {
                        before.started(before.queue[slots.index_of(i)])
                    } else {
                        before.outputters[i]
                    },
            ),
            state@.outputters.len() == before.outputters.len(),
            state@.outputters =~= Seq::new(
                before.outputters.len(),
                |i: int|
                    if before.done(i) && slots.index_of(i) < r {
                        before.rotated_slot(i)
                    } else {
                        before.outputters[i]
                    },
            ),
            state@ == (StateView { outputters: state@.outputters, ..swapped }),
        decreases order.len() - r,
    {
        let slot: usize = order[r];
        let ghost outputters = state@.outputters;
        assert(slot as int == slots[r as int]);
        assert(outputters[slot as int] == before.outputters[slot as int]);
        assert(state.outputters@[slot as int]@ == outputters[slot as int]);
        let start_frame: usize = state.outputters[slot].start_frame;
        if state.frame - start_frame > state.output_time {
            let restart: usize = state.frame - state.output_time / 2;
            state.outputters[slot].start_frame = restart;
            assert(state@.outputters =~= outputters.update(
                slot as int,
                OutputtingView { start_frame: restart as int, ..outputters[slot as int] },
            ));
        }
        r += 1;
    }
}

/// Divides the channels between the outputters anew.
fn reshare(state: &mut State)
    requires
        old(state)@.channel_group_size > 0 || old(state)@.outputters.len() == 0,
    ensures
        final(state)@ == old(state)@.reshared(),
{
    let ghost before = state@;
    let share: usize = if state.outputters.len() == 0 {
        state.output_channel_count
    } else {
        let equal: usize = state.output_channel_count / state.outputters.len();
        proof {
            vstd::arithmetic::div_mod::lemma_mod_decreases(
                equal as nat,
                state.channel_group_size as nat,
            );
        }
        equal - equal % state.channel_group_size
    };
    state.input_channel_count = share;
    let mut i: usize = 0;
    while i < state.outputters.len()
        invariant
            share == channel_share(
                before.output_channel_count,
                before.outputters.len(),
                before.channel_group_size,
            ),
            i <= before.outputters.len(),
            state@.outputters.len() == before.outputters.len(),
            state@.outputters =~= Seq::new(
                before.outputters.len(),
                |j: int|
                    if j < i {
                        OutputtingView {
                            data: resized(before.outputters[j].data, share as nat),
                            ..before.outputters[j]
                        }
                    } else {
                        before.outputters[j]
                    },
            ),
            state@ == (StateView {
                outputters: state@.outputters,
                input_channel_count: share as nat,
                ..before
            }),
        decreases before.outputters.len() - i,
    {
        let ghost outputters = state@.outputters;
        assert(i < outputters.len());
        assert(outputters[i as int] == before.outputters[i as int]);
        assert(state.outputters@[i as int]@ == outputters[i as int]);
        resize(&mut state.outputters[i].data, share);
        assert(state@.outputters =~= outputters.update(
            i as int,
            OutputtingView {
                data: resized(outputters[i as int].data, share as nat),
                ..outputters[i as int]
            },
        ));
        i += 1;
    }
}

/// Performs one frame of the main loop, and returns the packets to send to the physical
/// controller.
///
/// The packets carry the data from before the update, because no data is stored for queued
/// sources. Positions in `outputters` are stable as long as it does not shrink: a queued source
/// takes the slot of the outputter that it replaces.
pub fn run_frame(state: &mut State) -> (packets: Vec<[u8; PACKET_SIZE]>)
    requires
        old(state).wf(),
        universe_count(old(state)@.output_channel_count) <= u16::MAX,
        old(state)@.channel_group_size > 0 || old(state)@.next_frame().outputters.len() == 0,
        old(state)@.frame < usize::MAX,
    ensures
        final(state).wf(),
        final(state)@ == old(state)@.next_frame(),
        packets@.len() == old(state)@.packets().len(),
        forall|u: int|
            0 <= u < packets@.len() ==> (#[trigger] packets@[u])@ == old(state)@.packets()[u],
{
    let ghost before = state@;
    proof {
        lemma_queue_cleared(before);
        lemma_refilled(before.queue_cleared());
        lemma_outputters_cleared(before.queue_cleared().refilled());
        lemma_grown(before);
        lemma_regrouped(before);
        lemma_next_frame_wf(before);
    }
    let packets = frame_packets(state);
    let outputter_count: usize = state.outputters.len();
    clear_queue(state);
    refill(state);
    clear_outputters(state);
    expand(state);
    if state.queue.len() > 0 {
        rotate(state);
    }
    assert(state@ == before.regrouped());
    if state.outputters.len() != outputter_count {
        reshare(state);
    }
    state.frame += 1;
    assert(state@ =~= before.next_frame());
    state.reindex();
    packets
}

} // verus!
