//! What holds of the library as a whole.
//!
//! The laws speak of the states and packets of [`crate::model`] and [`crate::packet`], as the
//! contracts of the functions do.

use vstd::prelude::*;
use vstd::utf8::{
    encode_utf8, encode_utf8_decode_utf8, encode_utf8_valid_utf8, is_ascii_chars,
    is_ascii_chars_encode_utf8,
};

use crate::model::{
    all_zero, channel_share, joined, resized, universe_count, OutputtingView, SourceKey, StateView,
};
use crate::packet::{
    be16, is_data_packet, name_field, packet_bytes, parsed, DMP_START, FRAME_VECTOR, HEADER_SIZE,
    PACKET_HEADER, PACKET_SIZE, ROOT_START, ROOT_VECTOR, UNIVERSE_CHANNELS, UNIVERSE_SIZE,
};
use crate::proofs::{
    lemma_done_rank, lemma_grown, lemma_grown_keeps, lemma_grown_ordered, lemma_grown_origin,
    lemma_grown_slot, lemma_grown_stable, lemma_listed, lemma_next_frame_same, lemma_regrouped,
    lemma_regrouped_place, lemma_regrouped_slot, lemma_rotated, seated,
};
use crate::state::{SourceAddr, SourcePosition, State};

verus! {

/// The name under which packets are sent: 64 characters, filled up with NUL.
pub open spec fn sender_name() -> Seq<char> {
    "E1.31 Divider"@ + Seq::new(51, |i: int| '\0')
}

/// Packets that are sent are read back: of every packet for a whole universe, reading gives the
/// sender's name, the universe and the values that went into it.
pub proof fn law_packets_are_read_back(values: Seq<u8>, universe: int, seq_number: int)
    requires
        values.len() == UNIVERSE_SIZE,
        0 <= universe <= 0xffff,
    ensures
        parsed(packet_bytes(values, universe, seq_number)) == Some(
            (sender_name(), universe, values),
        ),
{
    let bytes = packet_bytes(values, universe, seq_number);
    assert(bytes.len() == 638);
    assert(forall|i: int|
        0 <= i < HEADER_SIZE && i != 111 && i != 113 && i != 114 ==> bytes[i] == #[trigger]
            PACKET_HEADER@[i]);
    assert(bytes.subrange(0, 16) =~= ROOT_START@);
    assert(bytes.subrange(18, 22) =~= ROOT_VECTOR@);
    assert(bytes.subrange(40, 44) =~= FRAME_VECTOR@);
    assert(bytes.subrange(117, 123) =~= DMP_START@);
    assert(is_data_packet(bytes));
    let name = sender_name();
    reveal_strlit("E1.31 Divider");
    assert(name.len() == 64);
    assert(is_ascii_chars(name));
    is_ascii_chars_encode_utf8(name);
    assert(encode_utf8(name) =~= name_field(bytes));
    encode_utf8_valid_utf8(name);
    encode_utf8_decode_utf8(name);
    assert(bytes.skip(HEADER_SIZE as int) =~= values);
    assert(be16(bytes, 113) == universe);
}

/// A state that is well formed upholds every invariant that [`State::validate`] looks at: there
/// are no more outputters than allowed, their channels fit into the output, and the lookup table
/// holds exactly the sources that there are, each where it is.
pub proof fn law_well_formed_states_validate(state: State)
    requires
        state.wf(),
    ensures
        state.outputters_allowed(),
        state.channels_fit(),
        state.sources_counted(),
        state.sources_placed(),
{
    let v = state@;
    if v.outputters.len() > 0 {
        law_shares_are_whole_groups(
            v.output_channel_count,
            v.outputters.len(),
            v.channel_group_size,
        );
    }
    let n = v.queue.len();
    let ids = Seq::new(
        n + v.outputters.len(),
        |i: int| if i < n { v.queue[i].id } else { v.outputters[i - n].id },
    );
    assert(ids.no_duplicates());
    ids.unique_seq_to_set();
    assert forall|id: SourceKey| ids.contains(id) implies state.sources@.dom().contains(id) by {
        let i = choose|i: int| 0 <= i < ids.len() && ids[i] == id;
        if i < n {
            assert(state.sources@.contains_pair(v.queue[i].id, SourcePosition::Queue(i as usize)));
        } else {
            assert(state.sources@.contains_pair(
                v.outputters[i - n].id,
                SourcePosition::Outputting((i - n) as usize),
            ));
        }
    }
    assert forall|id: SourceKey| state.sources@.dom().contains(id) implies ids.contains(id) by {
        if v.queued(id) {
            let i = choose|i: int| 0 <= i < v.queue.len() && (#[trigger] v.queue[i]).id == id;
            assert(ids[i] == id);
        } else {
            let i = choose|i: int|
                0 <= i < v.outputters.len() && (#[trigger] v.outputters[i]).id == id;
            assert(ids[n + i] == id);
        }
    }
    assert(state.sources@.dom() =~= ids.to_set());
    assert forall|id: SourceKey| #[trigger] state.sources@.dom().contains(id) implies state.at(
        id,
        state.sources@[id],
    ) by {
        lemma_listed(state, id);
    }
}

/// The channels that each outputter gets are whole groups, fit into the output together, and are
/// as many as that allows.
pub proof fn law_shares_are_whole_groups(channels: nat, outputters: nat, group: nat)
    requires
        outputters > 0,
        group > 0,
    ensures
        channel_share(channels, outputters, group) % group == 0,
        channel_share(channels, outputters, group) <= channels / outputters,
        channel_share(channels, outputters, group) * outputters <= channels,
        (channel_share(channels, outputters, group) + group) * outputters > channels,
{
    let equal = channels / outputters;
    let share = channel_share(channels, outputters, group);
    let groups = equal / group;
    assert(share == group * groups && share <= equal && equal < share + group) by {
        vstd::arithmetic::div_mod::lemma_fundamental_div_mod(equal as int, group as int);
        vstd::arithmetic::div_mod::lemma_mod_division_less_than_divisor(equal as int, group as int);
    }
    assert(share % group == 0) by {
        vstd::arithmetic::div_mod::lemma_mod_multiples_basic(groups as int, group as int);
        assert(share == groups * group) by (nonlinear_arith)
            requires
                share == group * groups,
        ;
    }
    vstd::arithmetic::div_mod::lemma_fundamental_div_mod(channels as int, outputters as int);
    vstd::arithmetic::div_mod::lemma_mod_division_less_than_divisor(
        channels as int,
        outputters as int,
    );
    let rest = channels as int % outputters as int;
    assert(share * outputters <= channels && (share + group) * outputters > channels)
        by (nonlinear_arith)
        requires
            channels == outputters * equal + rest,
            0 <= rest < outputters,
            share <= equal,
            equal < share + group,
    ;
}

/// The data of outputters that have `len` channels each is as long as all of them together.
proof fn lemma_joined_len(outputters: Seq<OutputtingView>, len: nat)
    requires
        forall|i: int| 0 <= i < outputters.len() ==> (#[trigger] outputters[i]).data.len() == len,
    ensures
        joined(outputters).len() == outputters.len() * len,
    decreases outputters.len(),
{
    let n = outputters.len();
    if n > 0 {
        lemma_joined_len(outputters.drop_last(), len);
        assert((n - 1) * len + len == n * len) by (nonlinear_arith);
    } else {
        assert(0 * len == 0) by (nonlinear_arith);
    }
}

/// Where the data of an outputter stands in the data of all.
proof fn lemma_joined_at(outputters: Seq<OutputtingView>, len: nat, i: int, c: int)
    requires
        forall|i: int| 0 <= i < outputters.len() ==> (#[trigger] outputters[i]).data.len() == len,
        0 <= i < outputters.len(),
        0 <= c < len,
    ensures
        0 <= i * len + c < outputters.len() * len,
        joined(outputters)[i * len + c] == outputters[i].data[c],
    decreases outputters.len(),
{
    let n = outputters.len();
    let rest = outputters.drop_last();
    lemma_joined_len(rest, len);
    assert(0 <= i * len && (n - 1) * len + len == n * len && i * len + len <= n * len)
        by (nonlinear_arith)
        requires
            0 <= i < n,
    ;
    if i < n - 1 {
        lemma_joined_at(rest, len, i, c);
    }
}

/// The outputters are put side by side, in the order of their slots: each has its own stretch of
/// the output, as long as the share of an outputter.
pub proof fn law_outputters_side_by_side(v: StateView, i: int, c: int)
    requires
        v.wf(),
        0 <= i < v.outputters.len(),
        0 <= c < v.input_channel_count,
    ensures
        0 <= i * v.input_channel_count + c < v.output_channel_count,
        v.channels()[i * v.input_channel_count + c] == v.outputters[i].data[c],
{
    let n = v.outputters.len();
    let share = v.input_channel_count;
    law_shares_are_whole_groups(v.output_channel_count, n, v.channel_group_size);
    assert(n * share == share * n) by (nonlinear_arith);
    lemma_joined_len(v.outputters, share);
    lemma_joined_at(v.outputters, share, i, c);
}

/// The output always has all of its channels, and those after the last outputter are 0.
pub proof fn law_left_over_channels_are_dark(v: StateView)
    requires
        v.wf(),
    ensures
        v.channels().len() == v.output_channel_count,
        forall|c: int|
            v.outputters.len() * v.input_channel_count <= c < v.output_channel_count
                ==> #[trigger] v.channels()[c] == 0,
{
    lemma_joined_len(v.outputters, v.input_channel_count);
}

/// Every output channel is sent in each frame, in the packet of its universe, and a reader of the
/// packets finds the universes numbered from 1.
pub proof fn law_packets_carry_all_channels(v: StateView)
    requires
        universe_count(v.output_channel_count) <= 0xffff,
    ensures
        forall|c: int|
            0 <= c < v.output_channel_count ==> {
                &&& 0 <= (c / UNIVERSE_CHANNELS as int) < v.packets().len()
                &&& v.universe_values(c / UNIVERSE_CHANNELS as int)[c % UNIVERSE_CHANNELS as int]
                    == #[trigger] v.channels()[c]
            },
        forall|u: int|
            0 <= u < v.packets().len() ==> parsed(#[trigger] v.packets()[u]) == Some(
                (sender_name(), u + 1, v.universe_values(u)),
            ),
{
    assert forall|u: int| 0 <= u < v.packets().len() implies parsed(#[trigger] v.packets()[u])
        == Some((sender_name(), u + 1, v.universe_values(u))) by {
        law_packets_are_read_back(v.universe_values(u), u + 1, v.frame % 256);
    }
}

/// After a frame the sources that are listed are those that were listed before and were not
/// silent: nobody who is heard is lost, and nobody who is silent stays, whether queued or
/// outputting.
pub proof fn law_silent_leave_and_heard_stay(v: StateView, id: SourceKey)
    requires
        v.wf(),
    ensures
        v.next_frame().queued(id) || v.next_frame().outputting(id) <==> v.heard(id),
{
    lemma_regrouped(v);
    lemma_next_frame_same(v);
    let mid = v.regrouped();
    let next = v.next_frame();
    assert(mid.heard(id) == v.heard(id));
    if next.outputting(id) {
        let i = choose|i: int|
            0 <= i < next.outputters.len() && (#[trigger] next.outputters[i]).id == id;
        assert(mid.outputters[i].id == id);
    }
    if mid.heard(id) && !next.queued(id) {
        let i = choose|i: int|
            0 <= i < mid.outputters.len() && (#[trigger] mid.outputters[i]).id == id;
        assert(next.outputters[i].id == id);
    }
}

/// Sources wait only while all slots are taken.
pub proof fn law_nobody_waits_for_a_free_slot(v: StateView)
    requires
        v.wf(),
    ensures
        v.next_frame().queue.len() > 0 ==> v.next_frame().outputters.len() == v.outputter_capacity,
{
    lemma_grown(v);
    lemma_regrouped(v);
    lemma_next_frame_same(v);
}

/// As long as the number of outputters does not shrink, an outputter that stays keeps its slot.
pub proof fn law_slots_are_stable(v: StateView, i: int, j: int)
    requires
        v.wf(),
        v.next_frame().outputters.len() >= v.outputters.len(),
        0 <= i < v.outputters.len(),
        0 <= j < v.next_frame().outputters.len(),
        v.next_frame().outputters[j].id == v.outputters[i].id,
    ensures
        i == j,
{
    lemma_next_frame_same(v);
    lemma_regrouped_place(v, j);
    assert(v.regrouped().outputters[j].id == v.outputters[i].id);
    lemma_grown_stable(v, i, j);
}

/// Outputters that stay keep their order, also when others leave.
pub proof fn law_order_is_preserved(v: StateView, i1: int, i2: int, j1: int, j2: int)
    requires
        v.wf(),
        0 <= i1 < i2 < v.outputters.len(),
        0 <= j1 < v.next_frame().outputters.len(),
        0 <= j2 < v.next_frame().outputters.len(),
        v.next_frame().outputters[j1].id == v.outputters[i1].id,
        v.next_frame().outputters[j2].id == v.outputters[i2].id,
    ensures
        j1 < j2,
{
    lemma_next_frame_same(v);
    lemma_regrouped_place(v, j1);
    lemma_regrouped_place(v, j2);
    assert(v.regrouped().outputters[j1].id == v.outputters[i1].id);
    assert(v.regrouped().outputters[j2].id == v.outputters[i2].id);
    lemma_grown_ordered(v, i1, i2, j1, j2);
}

/// The queue is first in, first out. Of the queued sources that are not silent, a frame gives
/// slots to those at the front; the others stay in their order, and behind them come only sources
/// that gave their slot up in this frame.
pub proof fn law_queue_is_first_in_first_out(v: StateView)
    requires
        v.wf(),
    ensures
        ({
            let waiting = v.queue_cleared().queue;
            let next = v.next_frame();
            &&& 0 <= v.served() <= waiting.len()
            &&& forall|i: int|
                0 <= i < v.served() ==> next.outputting((#[trigger] waiting[i]).id)
            &&& next.queue.len() >= waiting.len() - v.served()
            &&& next.queue.take(waiting.len() - v.served()) =~= waiting.skip(v.served())
            &&& forall|i: int|
                waiting.len() - v.served() <= i < next.queue.len() ==> v.outputting(
                    (#[trigger] next.queue[i]).id,
                )
        }),
{
    lemma_grown(v);
    lemma_grown_origin(v);
    lemma_next_frame_same(v);
    let waiting = v.queue_cleared().queue;
    let g = v.grown();
    let mid = v.regrouped();
    let next = v.next_frame();
    let order = g.done_order();
    lemma_done_rank(g);
    lemma_rotated(g);
    let m = if g.queue.len() > 0 { g.rotations() as int } else { 0 };
    assert forall|i: int| 0 <= i < v.served() implies next.outputting(
        (#[trigger] waiting[i]).id,
    ) by {
        if i < seated(v) {
            let started = v.started(waiting[i]);
            assert(g.outputters.contains(started));
            let j = choose|j: int| 0 <= j < g.outputters.len() && g.outputters[j] == started;
            assert(!g.done(j));
            assert(mid.outputters[j] == started);
            assert(next.outputters[j].id == waiting[i].id);
        } else {
            let j = order[i - seated(v)];
            assert(g.queue[i - seated(v)] == waiting[i]);
            assert(mid.outputters[j] == g.started(waiting[i]));
            assert(next.outputters[j].id == waiting[i].id);
        }
    }
    assert forall|i: int| waiting.len() - v.served() <= i < next.queue.len() implies v.outputting(
        (#[trigger] next.queue[i]).id,
    ) by {
        let j = order[i - (waiting.len() - v.served())];
        assert(next.queue[i] == g.outputters[j].requeued());
        lemma_grown_slot(v, j);
        assert(g.done(j));
        assert(v.outputters.contains(g.outputters[j]));
        let k = choose|k: int| 0 <= k < v.outputters.len() && v.outputters[k] == g.outputters[j];
        assert(v.outputters[k].id == next.queue[i].id);
    }
}

/// An outputter that is heard keeps its slot until it has had its time and somebody waits for it:
/// if it has not reached the maximum output time, or if no source is left waiting for a free slot,
/// it goes on, with the start frame that it had.
pub proof fn law_output_time_is_granted(v: StateView, i: int)
    requires
        v.wf(),
        0 <= i < v.outputters.len(),
        !v.silent(v.outputters[i].last_packet),
        !v.done(i) || v.grown().queue.len() == 0,
    ensures
        exists|j: int|
            0 <= j < v.next_frame().outputters.len() && {
                &&& (#[trigger] v.next_frame().outputters[j]).id == v.outputters[i].id
                &&& v.next_frame().outputters[j].start_frame == v.outputters[i].start_frame
            },
{
    lemma_regrouped(v);
    lemma_next_frame_same(v);
    let j = lemma_grown_keeps(v, i);
    assert(v.grown().done(j) == v.done(i)) by {
        lemma_grown(v);
    }
    assert(v.regrouped().outputters[j] == v.outputters[i]);
    assert(v.next_frame().outputters[j].id == v.outputters[i].id);
}

/// Time is limited while others wait: once an outputter has reached the maximum output time, the
/// source that has waited longest gets a slot.
pub proof fn law_done_outputters_make_room(v: StateView, i: int)
    requires
        v.wf(),
        0 <= i < v.outputters.len(),
        !v.silent(v.outputters[i].last_packet),
        v.done(i),
        v.grown().queue.len() > 0,
    ensures
        v.next_frame().outputting(v.grown().queue[0].id),
{
    lemma_grown(v);
    lemma_regrouped(v);
    lemma_next_frame_same(v);
    let g = v.grown();
    lemma_done_rank(g);
    let j = lemma_grown_keeps(v, i);
    assert(g.done(j));
    let first = g.done_order()[0];
    assert(v.regrouped().outputters[first] == g.started(g.queue[0]));
    assert(v.next_frame().outputters[first].id == g.queue[0].id);
}

/// The outputters that give their slots up are those that have been at it longest: one that
/// started before an outputter that goes back to the queue goes back too.
pub proof fn law_longest_output_yields_first(v: StateView, i: int, k: int)
    requires
        v.wf(),
        0 <= i < v.outputters.len(),
        0 <= k < v.outputters.len(),
        !v.silent(v.outputters[i].last_packet),
        !v.silent(v.outputters[k].last_packet),
        v.outputters[k].start_frame < v.outputters[i].start_frame,
        v.next_frame().queued(v.outputters[i].id),
    ensures
        v.next_frame().queued(v.outputters[k].id),
{
    lemma_grown(v);
    lemma_grown_origin(v);
    lemma_next_frame_same(v);
    let g = v.grown();
    let order = g.done_order();
    let next = v.next_frame();
    let left = g.queue.len() - g.rotations();
    lemma_done_rank(g);
    lemma_rotated(g);
    let gi = lemma_grown_keeps(v, i);
    let gk = lemma_grown_keeps(v, k);
    let q = choose|q: int|
        0 <= q < next.queue.len() && (#[trigger] next.queue[q]).id == v.outputters[i].id;
    assert forall|p: int| 0 <= p < g.queue.len() implies (#[trigger] g.queue[p]).id
        != v.outputters[i].id by {
        assert(g.outputters[gi].id == v.outputters[i].id);
    }
    assert(g.queue.len() > 0);
    if q < left {
        assert(next.queue[q] == g.queue[q + g.rotations()]);
    }
    assert(next.queue[q] == g.outputters[order[q - left]].requeued());
    assert(order[q - left] == gi);
    assert(g.done(gi));
    assert(g.done(gk));
    let rk = order.index_of(gk);
    if rk >= q - left {
        if rk > q - left {
            assert(g.yields_before()(order[q - left], order[rk]));
        }
    }
    assert(next.queue[left + rk] == g.outputters[gk].requeued());
}

/// While sources wait, nobody is left past the maximum output time: an outputter that is, and that
/// is not replaced, gets half of the time again, and is not done before that has passed.
pub proof fn law_overdue_outputters_are_put_off(v: StateView, j: int)
    requires
        v.wf(),
        v.next_frame().queue.len() > 0,
        0 <= j < v.next_frame().outputters.len(),
    ensures
        v.next_frame().outputters[j].start_frame + v.output_time >= v.frame,
        forall|i: int|
            0 <= i < v.outputters.len() && v.overdue(i) && (#[trigger] v.outputters[i]).id
                == v.next_frame().outputters[j].id
                ==> v.next_frame().outputters[j].start_frame + v.output_time >= v.frame
                + v.output_time / 2,
{
    lemma_grown(v);
    lemma_regrouped(v);
    lemma_next_frame_same(v);
    let g = v.grown();
    lemma_done_rank(g);
    lemma_grown_slot(v, j);
    let mid = v.regrouped();
    assert(mid.outputters[j] == g.rotated_slot(j));
    assert forall|i: int|
        0 <= i < v.outputters.len() && v.overdue(i) && (#[trigger] v.outputters[i]).id
            == v.next_frame().outputters[j].id implies v.next_frame().outputters[j].start_frame
        + v.output_time >= v.frame + v.output_time / 2 by {
        if !(g.done(j) && g.done_order().index_of(j) < g.rotations()) {
            assert(g.outputters[j].id == v.outputters[i].id);
            assert(v.outputters.contains(g.outputters[j]) ==> g.outputters[j] == v.outputters[i]);
        }
    }
}

/// A source that gets a slot starts in this frame, with 0 on all of its channels. One that goes on
/// keeps its values, cut or filled up with 0 where its share of the channels has changed.
pub proof fn law_newcomers_start_dark_and_others_keep_their_values(v: StateView, j: int)
    requires
        v.wf(),
        0 <= j < v.next_frame().outputters.len(),
    ensures
        ({
            let next = v.next_frame();
            let now = next.outputters[j];
            &&& !v.outputting(now.id) ==> {
                &&& v.queued(now.id)
                &&& now.start_frame == v.frame
                &&& now.data =~= Seq::new(next.input_channel_count, |c: int| 0u8)
            }
            &&& forall|i: int|
                0 <= i < v.outputters.len() && (#[trigger] v.outputters[i]).id == now.id ==> {
                    &&& now.last_packet == v.outputters[i].last_packet
                    &&& now.data =~= resized(v.outputters[i].data, next.input_channel_count)
                }
        }),
{
    lemma_regrouped(v);
    lemma_next_frame_same(v);
    lemma_regrouped_slot(v, j);
    let mid = v.regrouped().outputters[j];
    let now = v.next_frame().outputters[j];
    assert(now.id == mid.id);
    if exists|i: int| 0 <= i < v.queue.len() && mid == v.started(#[trigger] v.queue[i]) {
        let i = choose|i: int| 0 <= i < v.queue.len() && mid == v.started(#[trigger] v.queue[i]);
        assert(v.queue[i].id == now.id);
    } else {
        let i = choose|i: int|
            0 <= i < v.outputters.len() && {
                ||| mid == #[trigger] v.outputters[i]
                ||| mid == (OutputtingView {
                    start_frame: v.frame - v.output_time / 2,
                    ..v.outputters[i]
                }) && v.overdue(i)
            };
        assert(v.outputters[i].id == now.id);
    }
}

/// A frame moves the frame counter on by one, and leaves the configuration alone.
pub proof fn law_configuration_is_kept(v: StateView)
    requires
        v.wf(),
    ensures
        v.next_frame().frame == v.frame + 1,
        v.next_frame().outputter_capacity == v.outputter_capacity,
        v.next_frame().output_channel_count == v.output_channel_count,
        v.next_frame().channel_group_size == v.channel_group_size,
        v.next_frame().timeout == v.timeout,
        v.next_frame().output_time == v.output_time,
{
    lemma_regrouped(v);
}

/// The port that a packet comes from makes no difference.
pub proof fn law_ports_are_ignored(v: StateView, addr: SourceAddr, port: u16, bytes: Seq<u8>)
    ensures
        v.after_packet(addr.with_port(port), bytes) == v.after_packet(addr, bytes),
{
    assert(addr.with_port(port).with_port(0) == addr.with_port(0));
}

/// Bytes that are no data packet change nothing, and neither does a data packet whose values are
/// all 0.
pub proof fn law_other_packets_are_discarded(v: StateView, addr: SourceAddr, bytes: Seq<u8>)
    requires
        parsed(bytes) matches Some((_, _, values)) ==> all_zero(values),
    ensures
        v.after_packet(addr, bytes) == v,
{
}

/// Bytes that are more than a packet for a whole universe are no data packet, and change nothing.
pub proof fn law_oversized_packets_are_discarded(v: StateView, addr: SourceAddr, bytes: Seq<u8>)
    requires
        bytes.len() > PACKET_SIZE,
    ensures
        parsed(bytes) is None,
        v.after_packet(addr, bytes) == v,
{
}

/// A packet that counts makes its sender known and heard, and leaves every other source as it
/// was, and where it was.
pub proof fn law_packets_concern_their_sender(
    v: StateView,
    id: SourceKey,
    universe: int,
    values: Seq<u8>,
)
    requires
        v.wf(),
    ensures
        v.received(id, universe, values).heard(id),
        forall|i: int|
            0 <= i < v.queue.len() && (#[trigger] v.queue[i]).id != id ==> i < v.received(
                id,
                universe,
                values,
            ).queue.len() && v.received(id, universe, values).queue[i] == v.queue[i],
        forall|i: int|
            0 <= i < v.outputters.len() && (#[trigger] v.outputters[i]).id != id ==> i < v.received(
                id,
                universe,
                values,
            ).outputters.len() && v.received(id, universe, values).outputters[i]
                == v.outputters[i],
{
    let next = v.received(id, universe, values);
    if v.queued(id) {
        let i = choose|i: int| 0 <= i < v.queue.len() && (#[trigger] v.queue[i]).id == id;
        assert(next.queue[i].id == id);
    } else if v.outputting(id) {
        let i = choose|i: int| 0 <= i < v.outputters.len() && (#[trigger] v.outputters[i]).id == id;
        assert(next.outputters[i].id == id);
    } else {
        assert(next.queue[v.queue.len() as int].id == id);
    }
}

/// Within a frame, a packet that comes twice changes no more than one that comes once.
pub proof fn law_repeated_packets_change_nothing(v: StateView, addr: SourceAddr, bytes: Seq<u8>)
    requires
        v.wf(),
    ensures
        v.after_packet(addr, bytes).after_packet(addr, bytes) == v.after_packet(addr, bytes),
{
    if let Some((name, universe, values)) = parsed(bytes) {
        if !all_zero(values) {
            let id = SourceKey { addr: addr.with_port(0), name };
            let once = v.received(id, universe, values);
            let twice = once.received(id, universe, values);
            if v.queued(id) {
                let i = choose|i: int| 0 <= i < v.queue.len() && (#[trigger] v.queue[i]).id == id;
                assert(once.queue[i].id == id);
            } else if v.outputting(id) {
                let i = choose|i: int|
                    0 <= i < v.outputters.len() && (#[trigger] v.outputters[i]).id == id;
                assert(once.outputters[i].id == id);
            } else {
                assert(once.queue[v.queue.len() as int].id == id);
            }
            assert forall|i: int| 0 <= i < once.outputters.len() implies #[trigger]
                twice.outputters[i] == once.outputters[i] by {
                if once.outputters[i].id == id {
                    assert(v.outputting(id)) by {
                        assert(v.outputters[i].id == id);
                    }
                    assert(twice.outputters[i].data =~= once.outputters[i].data);
                }
            }
            assert(twice.queue =~= once.queue);
            assert(twice.outputters =~= once.outputters);
        }
    }
}

} // verus!
