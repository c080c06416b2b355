use vstd::prelude::*;
use vstd::slice::slice_subrange;
use vstd::utf8::{decode_utf8, valid_utf8};

use crate::model::{all_zero, overlaid, SourceKey};
use crate::packet::{
    be16, parsed, pdu_length_at, stands_at, DMP_START, FRAME_VECTOR, HEADER_SIZE, ROOT_START,
    ROOT_VECTOR, UNIVERSE_CHANNELS, UNIVERSE_SIZE,
};
use crate::proofs::{
    lemma_joined_indexed, lemma_listed, lemma_received_wf, lemma_still_indexed,
};
use crate::state::{QueuedSource, SourceAddr, SourceId, SourcePosition, State};

verus! {

/// Reads bytes as text, with `std::str::from_utf8`: bytes that are not UTF-8 are no text, and
/// bytes that are give the characters that they encode.
#[verifier::external_body]
fn text(bytes: &[u8]) -> (text: Option<&str>)
    ensures
        text is Some <==> valid_utf8(bytes@),
        text matches Some(text) ==> text@ == decode_utf8(bytes@),
{
    std::str::from_utf8(bytes).ok()
}

/// Whether `part` stands in `data` from index `at` on.
fn has_bytes(data: &Vec<u8>, at: usize, part: &[u8]) -> (found: bool)
    requires
        at + part@.len() <= data.len(),
    ensures
        found == stands_at(data@, at as int, part@),
{
    let ghost window = data@.subrange(at as int, at + part@.len());
    let mut i: usize = 0;
    while i < part.len()
        invariant
            at + part@.len() <= data.len(),
            window == data@.subrange(at as int, at + part@.len()),
            i <= part@.len(),
            forall|j: int| 0 <= j < i ==> window[j] == #[trigger] part@[j],
        decreases part@.len() - i,
    {
        if data[at + i] != part[i] {
            assert(window[i as int] != part@[i as int]);
            return false;
        }
        i += 1;
    }
    true
}

/// The number that two bytes of `data` make, most significant byte first.
fn read_be16(data: &Vec<u8>, at: usize) -> (value: usize)
    requires
        at + 1 < data.len(),
    ensures
        value == be16(data@, at as int),
        value <= 0xffff,
{
    data[at] as usize * 256 + data[at + 1] as usize
}

/// Whether two bytes of `data` give the flags of a protocol data unit and the length `length`.
fn has_pdu_length(data: &Vec<u8>, at: usize, length: usize) -> (found: bool)
    requires
        at + 1 < data.len(),
    ensures
        found == pdu_length_at(data@, at as int, length as int),
{
    let value: usize = read_be16(data, at);
    value / 0x1000 == 0x7 && value % 0x1000 == length
}

/// Validates an E1.31 data packet, returning the source name, universe, and data if valid.
pub fn validate(data: &Vec<u8>) -> (packet: Option<(&str, usize, &[u8])>)
    ensures
        match packet {
            Some((name, universe, values)) => parsed(data@) == Some(
                (name@, universe as int, values@),
            ),
            None => parsed(data@) is None,
        },
{
    if data.len() < HEADER_SIZE {
        return None;
    }
    let size: usize = data.len() - HEADER_SIZE;
    if size > UNIVERSE_SIZE {
        // Larger than a packet for a whole universe
        return None;
    }
    // Root layer: we ignore the sender CID (bytes 22..38)
    if !has_bytes(data, 0, &ROOT_START) || !has_pdu_length(data, 16, 110 + size) || !has_bytes(
        data,
        18,
        &ROOT_VECTOR,
    ) {
        return None;
    }
    // Framing layer: we ignore priority (byte 108), synchronization address (bytes 109..111),
    // sequence number (byte 111), and options (byte 112)
    if !has_pdu_length(data, 38, 88 + size) || !has_bytes(data, 40, &FRAME_VECTOR) {
        return None;
    }
    let name = match text(slice_subrange(data.as_slice(), 44, 108)) {
        Some(name) => name,
        None => {
            return None;
        },
    };
    let universe: usize = read_be16(data, 113);
    // DMP layer
    if !has_pdu_length(data, 115, 11 + size) || !has_bytes(data, 117, &DMP_START) {
        return None;
    }
    // The number of property values, and the first of them, the DMX start code
    if read_be16(data, 123) != 1 + size || data[125] != 0x00 {
        return None;
    }
    let values = slice_subrange(data.as_slice(), HEADER_SIZE, data.len());
    assert(values@ =~= data@.skip(HEADER_SIZE as int));
    Some((name, universe, values))
}

/// Writes `values` over `data` from index `at` on, as far as `data` reaches.
fn overlay(data: &mut Vec<u8>, at: usize, values: &[u8])
    ensures
        final(data)@ == overlaid(old(data)@, at as int, values@),
{
    let ghost before = data@;
    let room: usize = data.len().saturating_sub(at);
    let to_copy: usize = if room < values.len() { room } else { values.len() };
    let mut i: usize = 0;
    while i < to_copy
        invariant
            i <= to_copy,
            to_copy <= values@.len(),
            to_copy > 0 ==> at + to_copy <= data.len(),
            data@.len() == before.len(),
            data@ =~= overlaid(before, at as int, values@.take(i as int)),
        decreases to_copy - i,
    {
        data[at + i] = values[i];
        i += 1;
    }
    assert(data@ =~= overlaid(before, at as int, values@));
}

/// Whether all values are 0.
fn only_zeros(values: &[u8]) -> (zeros: bool)
    ensures
        zeros == all_zero(values@),
{
    let mut i: usize = 0;
    while i < values.len()
        invariant
            i <= values@.len(),
            forall|j: int| 0 <= j < i ==> #[trigger] values@[j] == 0,
        decreases values@.len() - i,
    {
        if values[i] != 0 {
            return false;
        }
        i += 1;
    }
    true
}

/// Handles values that a source sent for the channels of a universe.
pub fn receive(state: &mut State, addr: SourceAddr, name: &str, universe: usize, values: &[u8])
    requires
        old(state).wf(),
        addr == addr.with_port(0),
        universe <= 0xffff,
    ensures
        final(state).wf(),
        final(state)@ == old(state)@.received(
            SourceKey { addr, name: name@ },
            universe as int,
            values@,
        ),
{
    let id = SourceId::new(addr, name.to_owned());
    let ghost before = *state;
    let ghost view = state@;
    let ghost next = view.received(id@, universe as int, values@);
    let ghost key = id@;
    proof {
        lemma_received_wf(view, key, universe as int, values@);
    }
    match state.sources.get(&id) {
        Some(SourcePosition::Outputting(i)) => {
            proof {
                lemma_listed(before, id@);
            }
            assert(state.outputters@[i as int]@ == view.outputters[i as int]);
            let frame: usize = state.frame;
            let at: usize = universe.saturating_sub(1) * UNIVERSE_CHANNELS;
            state.outputters[i].common.last_packet = frame;
            overlay(&mut state.outputters[i].data, at, values);
            assert(state@ =~= next);
            proof {
                lemma_still_indexed(before, *state);
            }
        },
        Some(SourcePosition::Queue(i)) => {
            proof {
                lemma_listed(before, id@);
            }
            assert(state.queue@[i as int]@ == view.queue[i as int]);
            if let Some(mut source) = state.queue.remove(i) {
                source.common.last_packet = state.frame;
                state.queue.insert(i, source);
            }
            assert(state@ =~= next);
            proof {
                lemma_still_indexed(before, *state);
            }
        },
        None => {
            let position = SourcePosition::Queue(state.queue.len());
            let source = QueuedSource::new(id.name.clone(), id.addr, state);
            state.sources.add(id, position);
            state.queue.push_back(source);
            assert(state@ =~= next);
            proof {
                lemma_joined_indexed(before, *state, next.queue.last());
            }
        },
    }
}

/// Handles one input from a source.
pub fn handle_input(state: &mut State, addr: SourceAddr, data: Vec<u8>)
    requires
        old(state).wf(),
    ensures
        final(state).wf(),
        final(state)@ == old(state)@.after_packet(addr, data@),
{
    // Ignore port for equality checks
    let mut addr = addr;
    addr.set_port(0);
    if let Some((name, universe, values)) = validate(&data) {
        if !only_zeros(values) {
            receive(state, addr, name, universe, values);
        }
    }
}

} // verus!
