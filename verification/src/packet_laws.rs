//! What packets are, what an incoming one changes and what an outgoing one holds, byte by byte.

use vstd::prelude::*;
use vstd::utf8::{
    decode_utf8_encode_utf8, encode_utf8, encode_utf8_decode_utf8, encode_utf8_valid_utf8,
};

use crate::laws::{law_left_over_channels_are_dark, law_outputters_side_by_side};
use crate::laws::{law_packets_are_read_back, sender_name};
use crate::model::{SourceKey, StateView};
use crate::packet::{
    is_data_packet, name_field, packet_bytes, parsed, DMP_START, FRAME_VECTOR, PACKET_HEADER,
    ROOT_START, ROOT_VECTOR,
};
use crate::state::{SourceAddr, SourcePosition, State};
use crate::website::site_summary;

verus! {

/// The two bytes of a number, most significant byte first.
pub open spec fn two_bytes(value: int) -> Seq<u8> {
    seq![(value / 256) as u8, (value % 256) as u8]
}

/// An E1.31 data packet, put together from what it says: the identifier of the sender (16 bytes),
/// the source name (64 bytes once encoded), priority, synchronization address, sequence number and
/// options (5 bytes), the universe and the values.
pub open spec fn data_packet(
    cid: Seq<u8>,
    name: Seq<char>,
    options: Seq<u8>,
    universe: int,
    values: Seq<u8>,
) -> Seq<u8> {
    // Root layer
    seq![
        0x00u8, 0x10u8, 0x00u8, 0x00u8, 0x41u8, 0x53u8, 0x43u8, 0x2Du8,
        0x45u8, 0x31u8, 0x2Eu8, 0x31u8, 0x37u8, 0x00u8, 0x00u8, 0x00u8,
    ] + two_bytes(0x7000 + 110 + values.len() as int) + seq![0u8, 0u8, 0u8, 4u8] + cid
    // Framing layer
     + two_bytes(0x7000 + 88 + values.len() as int) + seq![0u8, 0u8, 0u8, 2u8] + encode_utf8(name)
        + options + two_bytes(universe)
    // DMP layer
     + two_bytes(0x7000 + 11 + values.len() as int) + seq![0x02u8, 0xa1u8, 0u8, 0u8, 0u8, 1u8]
        + two_bytes(1 + values.len() as int) + seq![0u8] + values
}

/// Every data packet is read: whatever its sender, name and options are, and whether it has no
/// values, those of a whole universe or any number between, reading gives exactly the name, the
/// universe and the values that it was put together from.
pub proof fn law_every_data_packet_is_read(
    cid: Seq<u8>,
    name: Seq<char>,
    options: Seq<u8>,
    universe: int,
    values: Seq<u8>,
)
    requires
        cid.len() == 16,
        encode_utf8(name).len() == 64,
        options.len() == 5,
        0 <= universe <= 0xffff,
        values.len() <= 512,
    ensures
        parsed(data_packet(cid, name, options, universe, values)) == Some((name, universe, values)),
{
    let bytes = data_packet(cid, name, options, universe, values);
    let size = values.len() as int;
    assert(bytes.len() == 126 + size);
    assert(bytes.subrange(0, 16) =~= ROOT_START@);
    assert(bytes.subrange(18, 22) =~= ROOT_VECTOR@);
    assert(bytes.subrange(40, 44) =~= FRAME_VECTOR@);
    assert(bytes.subrange(117, 123) =~= DMP_START@);
    assert(bytes.subrange(16, 18) =~= two_bytes(0x7000 + 110 + size));
    assert(bytes.subrange(38, 40) =~= two_bytes(0x7000 + 88 + size));
    assert(bytes.subrange(115, 117) =~= two_bytes(0x7000 + 11 + size));
    assert(bytes.subrange(123, 125) =~= two_bytes(1 + size));
    assert(bytes.subrange(113, 115) =~= two_bytes(universe));
    assert(is_data_packet(bytes));
    assert(name_field(bytes) =~= encode_utf8(name));
    encode_utf8_valid_utf8(name);
    encode_utf8_decode_utf8(name);
    assert(bytes.skip(126) =~= values);
}

/// Nothing else is read: bytes that are read are the data packet of what was read, with one
/// universe's values at most and a name of 64 bytes.
pub proof fn law_only_data_packets_are_read(
    bytes: Seq<u8>,
    name: Seq<char>,
    universe: int,
    values: Seq<u8>,
)
    requires
        parsed(bytes) == Some((name, universe, values)),
    ensures
        values.len() <= 512,
        bytes.len() == 126 + values.len(),
        0 <= universe <= 0xffff,
        encode_utf8(name).len() == 64,
        bytes == data_packet(
            bytes.subrange(22, 38),
            name,
            bytes.subrange(108, 113),
            universe,
            values,
        ),
{
    let size = values.len() as int;
    decode_utf8_encode_utf8(name_field(bytes));
    assert(bytes.subrange(16, 18) =~= two_bytes(0x7000 + 110 + size));
    assert(bytes.subrange(38, 40) =~= two_bytes(0x7000 + 88 + size));
    assert(bytes.subrange(113, 115) =~= two_bytes(universe));
    assert(bytes.subrange(115, 117) =~= two_bytes(0x7000 + 11 + size));
    assert(bytes.subrange(123, 125) =~= two_bytes(1 + size));
    assert(bytes.subrange(125, 126) =~= seq![0u8]);
    assert(ROOT_START@ =~= seq![
        0x00u8, 0x10u8, 0x00u8, 0x00u8, 0x41u8, 0x53u8, 0x43u8, 0x2Du8,
        0x45u8, 0x31u8, 0x2Eu8, 0x31u8, 0x37u8, 0x00u8, 0x00u8, 0x00u8,
    ]);
    assert(ROOT_VECTOR@ =~= seq![0u8, 0u8, 0u8, 4u8]);
    assert(FRAME_VECTOR@ =~= seq![0u8, 0u8, 0u8, 2u8]);
    assert(DMP_START@ =~= seq![0x02u8, 0xa1u8, 0u8, 0u8, 0u8, 1u8]);
    assert(bytes =~= bytes.subrange(0, 16) + bytes.subrange(16, 18) + bytes.subrange(18, 22)
        + bytes.subrange(22, 38) + bytes.subrange(38, 40) + bytes.subrange(40, 44)
        + bytes.subrange(44, 108) + bytes.subrange(108, 113) + bytes.subrange(113, 115)
        + bytes.subrange(115, 117) + bytes.subrange(117, 123) + bytes.subrange(123, 125)
        + bytes.subrange(125, 126) + bytes.skip(126));
}

/// The identifier of the sender and the options of a packet that is sent.
proof fn lemma_sent_fields(values: Seq<u8>, universe: int, seq_number: int)
    requires
        0 <= seq_number <= 0xff,
    ensures
        packet_bytes(values, universe, seq_number).subrange(22, 38) == Seq::new(16, |i: int| 0u8),
        packet_bytes(values, universe, seq_number).subrange(108, 113) == seq![
            0u8,
            0u8,
            0u8,
            seq_number as u8,
            0u8,
        ],
{
    let bytes = packet_bytes(values, universe, seq_number);
    let header = PACKET_HEADER@;
    assert(forall|i: int|
        0 <= i < 126 && i != 111 && i != 113 && i != 114 ==> #[trigger] bytes[i] == header[i]);
    assert(forall|i: int| 22 <= i < 38 ==> #[trigger] header[i] == 0);
}

/// A packet that is sent is a data packet for a whole universe from "E1.31 Divider", with the
/// sequence number, the universe and the values that went into it. The identifier of the sender,
/// the priority, the synchronization address and the options are 0.
pub proof fn law_sent_packets_are_data_packets(values: Seq<u8>, universe: int, seq_number: int)
    requires
        values.len() == 512,
        0 <= universe <= 0xffff,
        0 <= seq_number <= 0xff,
    ensures
        packet_bytes(values, universe, seq_number) == data_packet(
            Seq::new(16, |i: int| 0u8),
            "E1.31 Divider"@ + Seq::new(51, |i: int| '\0'),
            seq![0u8, 0u8, 0u8, seq_number as u8, 0u8],
            universe,
            values,
        ),
{
    let bytes = packet_bytes(values, universe, seq_number);
    law_packets_are_read_back(values, universe, seq_number);
    law_only_data_packets_are_read(bytes, sender_name(), universe, values);
    lemma_sent_fields(values, universe, seq_number);
}

/// The header of a packet that is sent is always the same but for the sequence number and the
/// universe, and after it come the values.
pub proof fn law_sent_packets_keep_the_header(values: Seq<u8>, universe: int, seq_number: int)
    requires
        0 <= universe <= 0xffff,
        0 <= seq_number <= 0xff,
    ensures
        ({
            let bytes = packet_bytes(values, universe, seq_number);
            &&& bytes.len() == 126 + values.len()
            &&& forall|i: int|
                0 <= i < 126 && i != 111 && i != 113 && i != 114 ==> #[trigger] bytes[i]
                    == PACKET_HEADER@[i]
            &&& bytes[111] == seq_number
            &&& bytes[113] * 256 + bytes[114] == universe
            &&& forall|c: int| 0 <= c < values.len() ==> bytes[126 + c] == #[trigger] values[c]
        }),
{
}

/// Every value of every outputter is sent in each frame: channel `c` of slot `i` is at its place
/// in the output, and so in the packet of the universe that the place falls into, 510 to each.
pub proof fn law_every_value_is_sent(v: StateView, i: int, c: int)
    requires
        v.wf(),
        0 <= i < v.outputters.len(),
        0 <= c < v.input_channel_count,
    ensures
        ({
            let place = i * v.input_channel_count + c;
            &&& 0 <= place / 510 < v.packets().len()
            &&& v.packets()[place / 510][126 + place % 510] == v.outputters[i].data[c]
        }),
{
    law_outputters_side_by_side(v, i, c);
    let place = i * v.input_channel_count + c;
    let u = place / 510;
    assert(u * 510 + place % 510 == place);
    assert(v.universe_values(u)[place % 510] == v.channels()[place]);
    let values = v.universe_values(u);
    assert(v.packets()[u] == packet_bytes(values, u + 1, v.frame % 256));
    assert(packet_bytes(values, u + 1, v.frame % 256)[126 + place % 510] == values[place % 510]);
}

/// A frame sends as many packets as the output channels need, 510 in each. They are numbered by
/// the frame, and their universes count from 1; a value that no outputter has is 0.
pub proof fn law_frames_send_whole_packets(v: StateView, u: int, k: int)
    requires
        v.wf(),
        0 <= u < v.packets().len() <= 0xffff,
        0 <= k < 512,
    ensures
        v.packets()[u].len() == 638,
        v.packets()[u][111] == v.frame % 256,
        v.packets()[u][113] * 256 + v.packets()[u][114] == u + 1,
        k >= 510 || u * 510 + k >= v.outputters.len() * v.input_channel_count
            ==> v.packets()[u][126 + k] == 0,
{
    law_left_over_channels_are_dark(v);
    let values = v.universe_values(u);
    law_sent_packets_keep_the_header(values, u + 1, v.frame % 256);
    assert(v.packets()[u] == packet_bytes(values, u + 1, v.frame % 256));
    assert(v.packets()[u][126 + k] == values[k]);
    if k < 510 && u * 510 + k < v.output_channel_count {
        assert(values[k] == v.channels()[u * 510 + k]);
    }
}

/// There are packets for all output channels, and none that holds none of them.
pub proof fn law_number_of_packets(v: StateView)
    ensures
        v.packets().len() * 510 >= v.output_channel_count,
        v.packets().len() > 0 ==> (v.packets().len() - 1) * 510 < v.output_channel_count,
        v.output_channel_count == 0 ==> v.packets().len() == 0,
{
}

/// Changing the port of an address changes nothing else of it.
pub proof fn law_port_is_all_that_changes(
    ip4: u32,
    ip6: u128,
    flowinfo: u32,
    scope_id: u32,
    before: u16,
    after: u16,
)
    ensures
        (SourceAddr::V4 { ip: ip4, port: before }).with_port(after) == (SourceAddr::V4 {
            ip: ip4,
            port: after,
        }),
        (SourceAddr::V6 { ip: ip6, port: before, flowinfo, scope_id }).with_port(after) == (
        SourceAddr::V6 { ip: ip6, port: after, flowinfo, scope_id }),
{
}

/// A data packet that has some value other than 0 is received from its sender: the address it
/// came from, whatever the port, and the name in it.
pub proof fn law_data_packets_are_received(
    v: StateView,
    addr: SourceAddr,
    bytes: Seq<u8>,
    name: Seq<char>,
    universe: int,
    values: Seq<u8>,
    c: int,
)
    requires
        parsed(bytes) == Some((name, universe, values)),
        0 <= c < values.len(),
        values[c] != 0,
    ensures
        v.after_packet(addr, bytes) == v.received(
            SourceKey { addr: addr.with_port(0), name },
            universe,
            values,
        ),
{
}

/// A packet that has no value other than 0 changes nothing, and neither do bytes that are no data
/// packet.
pub proof fn law_dark_packets_change_nothing(v: StateView, addr: SourceAddr, bytes: Seq<u8>)
    requires
        parsed(bytes) matches Some((_, _, values)) ==> (forall|c: int|
            0 <= c < values.len() ==> #[trigger] values[c] == 0),
    ensures
        v.after_packet(addr, bytes) == v,
{
}

/// What a packet does to a source that is outputting: it has been heard in this frame, and from
/// the first channel of the universe on it has the values of the packet, whatever was there
/// before. Its other values stay, and everything else does.
pub proof fn law_values_are_written_over(
    v: StateView,
    i: int,
    universe: int,
    values: Seq<u8>,
)
    requires
        v.wf(),
        0 <= i < v.outputters.len(),
        universe >= 0,
    ensures
        ({
            let id = v.outputters[i].id;
            let next = v.received(id, universe, values);
            let at = if universe >= 1 { (universe - 1) * 510 } else { 0 };
            &&& next.outputters.len() == v.outputters.len()
            &&& next.outputters[i].id == id
            &&& next.outputters[i].last_packet == v.frame
            &&& next.outputters[i].start_frame == v.outputters[i].start_frame
            &&& next.outputters[i].data.len() == v.outputters[i].data.len()
            &&& forall|c: int|
                0 <= c < values.len() && at + c < v.outputters[i].data.len()
                    ==> next.outputters[i].data[at + c] == #[trigger] values[c]
            &&& forall|k: int|
                0 <= k < v.outputters[i].data.len() && !(at <= k < at + values.len())
                    ==> #[trigger] next.outputters[i].data[k] == v.outputters[i].data[k]
            &&& forall|j: int|
                0 <= j < v.outputters.len() && j != i ==> #[trigger] next.outputters[j]
                    == v.outputters[j]
            &&& next.queue == v.queue
        }),
{
    let id = v.outputters[i].id;
    let next = v.received(id, universe, values);
    assert(v.outputting(id));
    assert forall|j: int| 0 <= j < v.outputters.len() && j != i implies #[trigger]
        next.outputters[j] == v.outputters[j] by {
        assert(v.outputters[j].id != id);
    }
    assert(next.queue =~= v.queue);
}

/// From the bytes to the channels: a data packet that an outputting source sends puts its values
/// on the channels of its universe, the first at channel `(universe - 1) * 510`, whatever was there
/// before. All other values stay, and with a packet of nothing but 0 all values do.
pub proof fn law_sent_values_arrive(
    v: StateView,
    i: int,
    addr: SourceAddr,
    cid: Seq<u8>,
    options: Seq<u8>,
    universe: int,
    values: Seq<u8>,
    k: int,
)
    requires
        v.wf(),
        0 <= i < v.outputters.len(),
        v.outputters[i].id.addr == addr.with_port(0),
        cid.len() == 16,
        encode_utf8(v.outputters[i].id.name).len() == 64,
        options.len() == 5,
        1 <= universe <= 0xffff,
        values.len() <= 512,
        0 <= k < v.outputters[i].data.len(),
    ensures
        ({
            let bytes = data_packet(cid, v.outputters[i].id.name, options, universe, values);
            let at = (universe - 1) * 510;
            let now = v.after_packet(addr, bytes).outputters[i].data[k];
            if at <= k < at + values.len() && (exists|c: int|
                0 <= c < values.len() && #[trigger] values[c] != 0) {
                now == values[k - at]
            } else {
                now == v.outputters[i].data[k]
            }
        }),
{
    let id = v.outputters[i].id;
    let bytes = data_packet(cid, id.name, options, universe, values);
    law_every_data_packet_is_read(cid, id.name, options, universe, values);
    if exists|c: int| 0 <= c < values.len() && #[trigger] values[c] != 0 {
        let c = choose|c: int| 0 <= c < values.len() && #[trigger] values[c] != 0;
        law_data_packets_are_received(v, addr, bytes, id.name, universe, values, c);
        law_values_are_written_over(v, i, universe, values);
        assert(SourceKey { addr: addr.with_port(0), name: id.name } == id);
        let at = (universe - 1) * 510;
        if at <= k < at + values.len() {
            assert(v.received(id, universe, values).outputters[i].data[at + (k - at)]
                == values[k - at]);
        }
    } else {
        law_dark_packets_change_nothing(v, addr, bytes);
    }
}

/// What a packet does to a source that waits: it has been heard in this frame. It stays where it
/// is in the queue, and everything else stays as it is.
pub proof fn law_waiting_sources_are_heard(
    v: StateView,
    i: int,
    universe: int,
    values: Seq<u8>,
)
    requires
        v.wf(),
        0 <= i < v.queue.len(),
    ensures
        ({
            let id = v.queue[i].id;
            let next = v.received(id, universe, values);
            &&& next.queue.len() == v.queue.len()
            &&& next.queue[i].id == id
            &&& next.queue[i].last_packet == v.frame
            &&& forall|j: int|
                0 <= j < v.queue.len() && j != i ==> #[trigger] next.queue[j] == v.queue[j]
            &&& next.outputters == v.outputters
        }),
{
    let id = v.queue[i].id;
    let next = v.received(id, universe, values);
    assert(v.queued(id));
    assert forall|j: int| 0 <= j < v.queue.len() && j != i implies #[trigger] next.queue[j]
        == v.queue[j] by {
        assert(v.queue[j].id != id);
    }
    assert(next.outputters =~= v.outputters);
}

/// What a packet from a source that is not listed does: the source joins the end of the queue, as
/// heard in this frame, and everything else stays as it is.
pub proof fn law_unknown_sources_join_the_queue(
    v: StateView,
    id: SourceKey,
    universe: int,
    values: Seq<u8>,
)
    requires
        forall|i: int| 0 <= i < v.queue.len() ==> (#[trigger] v.queue[i]).id != id,
        forall|i: int| 0 <= i < v.outputters.len() ==> (#[trigger] v.outputters[i]).id != id,
    ensures
        ({
            let next = v.received(id, universe, values);
            &&& next.queue.len() == v.queue.len() + 1
            &&& next.queue[v.queue.len() as int].id == id
            &&& next.queue[v.queue.len() as int].last_packet == v.frame
            &&& forall|j: int|
                0 <= j < v.queue.len() ==> #[trigger] next.queue[j] == v.queue[j]
            &&& next.outputters == v.outputters
        }),
{
}

/// A packet leaves the frame counter, the configuration and the number of channels alone.
pub proof fn law_packets_keep_the_configuration(v: StateView, addr: SourceAddr, bytes: Seq<u8>)
    ensures
        v.after_packet(addr, bytes).outputter_capacity == v.outputter_capacity,
        v.after_packet(addr, bytes).output_channel_count == v.output_channel_count,
        v.after_packet(addr, bytes).channel_group_size == v.channel_group_size,
        v.after_packet(addr, bytes).input_channel_count == v.input_channel_count,
        v.after_packet(addr, bytes).timeout == v.timeout,
        v.after_packet(addr, bytes).output_time == v.output_time,
        v.after_packet(addr, bytes).frame == v.frame,
{
}

/// Values that are received leave the frame counter, the configuration and the number of channels
/// alone, whoever sent them.
pub proof fn law_receiving_keeps_the_configuration(
    v: StateView,
    id: SourceKey,
    universe: int,
    values: Seq<u8>,
)
    ensures
        v.received(id, universe, values).outputter_capacity == v.outputter_capacity,
        v.received(id, universe, values).output_channel_count == v.output_channel_count,
        v.received(id, universe, values).channel_group_size == v.channel_group_size,
        v.received(id, universe, values).input_channel_count == v.input_channel_count,
        v.received(id, universe, values).timeout == v.timeout,
        v.received(id, universe, values).output_time == v.output_time,
        v.received(id, universe, values).frame == v.frame,
{
}

/// The model of a state has what the fields of the state hold.
pub proof fn law_model_shows_the_fields(state: State)
    ensures
        state@.queue.len() == state.queue@.len(),
        forall|i: int|
            0 <= i < state.queue@.len() ==> {
                &&& (#[trigger] state@.queue[i]).id.addr == state.queue@[i].common.addr
                &&& state@.queue[i].id.name == state.queue@[i].common.name@
                &&& state@.queue[i].last_packet == state.queue@[i].common.last_packet
            },
        state@.outputters.len() == state.outputters@.len(),
        forall|i: int|
            0 <= i < state.outputters@.len() ==> {
                &&& (#[trigger] state@.outputters[i]).id.addr == state.outputters@[i].common.addr
                &&& state@.outputters[i].id.name == state.outputters@[i].common.name@
                &&& state@.outputters[i].last_packet == state.outputters@[i].common.last_packet
                &&& state@.outputters[i].start_frame == state.outputters@[i].start_frame
                &&& state@.outputters[i].data == state.outputters@[i].data@
            },
        state@.outputter_capacity == state.outputter_capacity,
        state@.output_channel_count == state.output_channel_count,
        state@.channel_group_size == state.channel_group_size,
        state@.input_channel_count == state.input_channel_count,
        state@.timeout == state.timeout,
        state@.output_time == state.output_time,
        state@.frame == state.frame,
{
}

/// What [`State::validate`] looks at, in terms of the fields of the state.
pub proof fn law_what_validation_means(state: State)
    ensures
        state.outputters_allowed() <==> state.outputters@.len() <= state.outputter_capacity,
        state.channels_fit() <==> state.input_channel_count * state.outputters@.len()
            <= state.output_channel_count,
        state.sources_counted() <==> state.queue@.len() + state.outputters@.len()
            == state.sources@.len(),
        state.sources_placed() <==> (forall|id: SourceKey| #[trigger]
            state.sources@.dom().contains(id) ==> match state.sources@[id] {
                SourcePosition::Queue(i) => {
                    &&& i < state.queue@.len()
                    &&& state.queue@[i as int].common.addr == id.addr
                    &&& state.queue@[i as int].common.name@ == id.name
                },
                SourcePosition::Outputting(i) => {
                    &&& i < state.outputters@.len()
                    &&& state.outputters@[i as int].common.addr == id.addr
                    &&& state.outputters@[i as int].common.name@ == id.name
                },
            }),
{
    assert forall|id: SourceKey| state.sources@.dom().contains(id) implies #[trigger] state.at(
        id,
        state.sources@[id],
    ) == match state.sources@[id] {
        SourcePosition::Queue(i) => {
            &&& i < state.queue@.len()
            &&& state.queue@[i as int].common.addr == id.addr
            &&& state.queue@[i as int].common.name@ == id.name
        },
        SourcePosition::Outputting(i) => {
            &&& i < state.outputters@.len()
            &&& state.outputters@[i as int].common.addr == id.addr
            &&& state.outputters@[i as int].common.name@ == id.name
        },
    } by {}
}

/// The site shows every source, in order, with the frames since its last packet, and of an
/// outputter also the frames since its start and its values.
pub proof fn law_site_shows_every_source(v: StateView)
    ensures
        site_summary(v).frame == v.frame,
        site_summary(v).queued.len() == v.queue.len(),
        site_summary(v).outputting.len() == v.outputters.len(),
        forall|i: int|
            0 <= i < v.queue.len() ==> {
                &&& (#[trigger] site_summary(v).queued[i]).id == v.queue[i].id
                &&& site_summary(v).queued[i].since_last + v.queue[i].last_packet == v.frame
            },
        forall|i: int|
            0 <= i < v.outputters.len() ==> {
                &&& (#[trigger] site_summary(v).outputting[i]).id == v.outputters[i].id
                &&& site_summary(v).outputting[i].since_last + v.outputters[i].last_packet
                    == v.frame
                &&& site_summary(v).outputting[i].output_time + v.outputters[i].start_frame
                    == v.frame
                &&& site_summary(v).outputting[i].data == v.outputters[i].data
            },
{
}

} // verus!
