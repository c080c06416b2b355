use vstd::prelude::*;

use crate::packet::{packet_bytes, parsed, UNIVERSE_CHANNELS, UNIVERSE_SIZE};
use crate::state::SourceAddr;

verus! {

/// The identity of a source: its address and its name. The port of the address does not count, and
/// is 0 for every source that is listed.
pub struct SourceKey {
    pub addr: SourceAddr,
    pub name: Seq<char>,
}

impl SourceKey {
    /// The port of the address is 0.
    pub open spec fn portless(self) -> bool {
        self.addr == self.addr.with_port(0)
    }
}

/// A source that waits in the queue.
pub struct QueuedView {
    pub id: SourceKey,
    pub last_packet: int,
}

/// A source that outputs.
#[verifier::ext_equal]
pub struct OutputtingView {
    pub id: SourceKey,
    pub last_packet: int,
    pub start_frame: int,
    pub data: Seq<u8>,
}

impl OutputtingView {
    /// The source as it goes back to the queue.
    pub open spec fn requeued(self) -> QueuedView {
        QueuedView { id: self.id, last_packet: self.last_packet }
    }
}

/// The state of all sources.
#[verifier::ext_equal]
pub struct StateView {
    pub queue: Seq<QueuedView>,
    pub outputters: Seq<OutputtingView>,
    pub outputter_capacity: nat,
    pub output_channel_count: nat,
    pub channel_group_size: nat,
    pub input_channel_count: nat,
    pub timeout: int,
    pub output_time: int,
    pub frame: int,
}

/// `data` cut or padded with 0 to `len` bytes.
pub open spec fn resized(data: Seq<u8>, len: nat) -> Seq<u8> {
    Seq::new(len, |i: int| if i < data.len() { data[i] } else { 0u8 })
}

/// `base` with `patch` written over it from index `at` on, as far as `base` reaches.
pub open spec fn overlaid(base: Seq<u8>, at: int, patch: Seq<u8>) -> Seq<u8> {
    Seq::new(
        base.len(),
        |i: int| if at <= i < at + patch.len() { patch[i - at] } else { base[i] },
    )
}

/// Whether all values are 0.
pub open spec fn all_zero(values: Seq<u8>) -> bool {
    forall|i: int| 0 <= i < values.len() ==> #[trigger] values[i] == 0
}

/// The index of the first channel of a universe. Universes count from 1.
pub open spec fn first_channel(universe: int) -> int {
    if universe > 0 { (universe - 1) * UNIVERSE_CHANNELS } else { 0 }
}

/// The smaller of two lengths.
pub open spec fn least(a: nat, b: nat) -> nat {
    if a <= b { a } else { b }
}

/// The number of channels that each of `outputters` sources gets out of `channels`: an equal
/// part, rounded down to whole groups of `group` channels. Without outputters, all of them.
pub open spec fn channel_share(channels: nat, outputters: nat, group: nat) -> nat {
    if outputters == 0 {
        channels
    } else {
        ((channels / outputters) - (channels / outputters) % group) as nat
    }
}

/// The data of all outputters, one after the other.
pub open spec fn joined(outputters: Seq<OutputtingView>) -> Seq<u8>
    decreases outputters.len(),
{
    if outputters.len() == 0 {
        Seq::empty()
    } else {
        joined(outputters.drop_last()) + outputters.last().data
    }
}

/// The number of universes that it takes to output `channels` channels.
pub open spec fn universe_count(channels: nat) -> nat {
    (channels + UNIVERSE_CHANNELS - 1) as nat / UNIVERSE_CHANNELS as nat
}

impl StateView {
    /// The values of all output channels: the data of the outputters side by side, and 0 on the
    /// channels that are left over.
    pub open spec fn channels(self) -> Seq<u8> {
        resized(joined(self.outputters), self.output_channel_count)
    }

    /// The values that are sent for the universe at index `u`. Those that no channel belongs to
    /// are 0.
    pub open spec fn universe_values(self, u: int) -> Seq<u8> {
        Seq::new(
            UNIVERSE_SIZE as nat,
            |c: int|
                if c < UNIVERSE_CHANNELS && u * UNIVERSE_CHANNELS + c < self.output_channel_count {
                    self.channels()[u * UNIVERSE_CHANNELS + c]
                } else {
                    0u8
                },
        )
    }

    /// The packets of a frame, one for each universe. They are numbered by the frame.
    pub open spec fn packets(self) -> Seq<Seq<u8>> {
        Seq::new(
            universe_count(self.output_channel_count),
            |u: int| packet_bytes(self.universe_values(u), u + 1, self.frame % 256),
        )
    }

    /// No source carries a frame number that lies ahead.
    pub open spec fn stamped(self) -> bool {
        &&& forall|i: int|
            0 <= i < self.queue.len() ==> 0 <= (#[trigger] self.queue[i]).last_packet <= self.frame
        &&& forall|i: int|
            0 <= i < self.outputters.len() ==> {
                &&& 0 <= (#[trigger] self.outputters[i]).last_packet <= self.frame
                &&& 0 <= self.outputters[i].start_frame <= self.frame
            }
    }

    /// No source is listed twice.
    pub open spec fn distinct(self) -> bool {
        &&& forall|i: int, j: int|
            0 <= i < j < self.queue.len() ==> (#[trigger] self.queue[i]).id != (
            #[trigger] self.queue[j]).id
        &&& forall|i: int, j: int|
            0 <= i < j < self.outputters.len() ==> (#[trigger] self.outputters[i]).id != (
            #[trigger] self.outputters[j]).id
        &&& forall|i: int, j: int|
            0 <= i < self.queue.len() && 0 <= j < self.outputters.len() ==> (
            #[trigger] self.queue[i]).id != (#[trigger] self.outputters[j]).id
    }

    /// Every outputter has a value for each of the channels that are taken from it.
    pub open spec fn data_complete(self) -> bool {
        forall|i: int|
            0 <= i < self.outputters.len() ==> (#[trigger] self.outputters[i]).data.len()
                == self.input_channel_count
    }

    /// Sources are told apart by their addresses without the port.
    pub open spec fn portless(self) -> bool {
        &&& forall|i: int|
            0 <= i < self.queue.len() ==> (#[trigger] self.queue[i]).id.portless()
        &&& forall|i: int|
            0 <= i < self.outputters.len() ==> (#[trigger] self.outputters[i]).id.portless()
    }

    /// What holds between any two steps of a frame.
    pub open spec fn consistent(self) -> bool {
        &&& self.distinct()
        &&& self.portless()
        &&& self.stamped()
        &&& self.data_complete()
        &&& self.outputters.len() <= self.outputter_capacity
        &&& self.timeout > 0
        &&& self.output_time > 0
        &&& self.frame >= 0
    }

    /// What holds between any two frames or packets: sources are listed once, there are no more
    /// outputters than allowed, and the channels are divided between them.
    pub open spec fn wf(self) -> bool {
        &&& self.consistent()
        &&& self.outputters.len() > 0 ==> self.channel_group_size > 0
        &&& self.input_channel_count == channel_share(
            self.output_channel_count,
            self.outputters.len(),
            self.channel_group_size,
        )
    }

    /// Whether a source waits in the queue.
    pub open spec fn queued(self, id: SourceKey) -> bool {
        exists|i: int| 0 <= i < self.queue.len() && (#[trigger] self.queue[i]).id == id
    }

    /// Whether a source is outputting.
    pub open spec fn outputting(self, id: SourceKey) -> bool {
        exists|i: int| 0 <= i < self.outputters.len() && (#[trigger] self.outputters[i]).id == id
    }

    /// Whether a source is listed and not silent.
    pub open spec fn heard(self, id: SourceKey) -> bool {
        ||| exists|i: int|
            0 <= i < self.queue.len() && (#[trigger] self.queue[i]).id == id && !self.silent(
                self.queue[i].last_packet,
            )
        ||| exists|i: int|
            0 <= i < self.outputters.len() && (#[trigger] self.outputters[i]).id == id
                && !self.silent(self.outputters[i].last_packet)
    }

    /// No queued source is silent.
    pub open spec fn queue_all_heard(self) -> bool {
        forall|i: int|
            0 <= i < self.queue.len() ==> !self.silent((#[trigger] self.queue[i]).last_packet)
    }

    /// No outputter is silent.
    pub open spec fn outputters_all_heard(self) -> bool {
        forall|i: int|
            0 <= i < self.outputters.len() ==> !self.silent(
                (#[trigger] self.outputters[i]).last_packet,
            )
    }

    /// Whether a source whose last packet came at `last_packet` has been inactive for too long.
    pub open spec fn silent(self, last_packet: int) -> bool {
        last_packet + self.timeout < self.frame
    }

    /// A queued source as it starts to output.
    pub open spec fn started(self, source: QueuedView) -> OutputtingView {
        OutputtingView {
            id: source.id,
            last_packet: source.last_packet,
            start_frame: self.frame,
            data: Seq::new(self.input_channel_count, |i: int| 0u8),
        }
    }

    /// The queued sources that are not silent.
    pub open spec fn queue_heard(self) -> spec_fn(QueuedView) -> bool {
        |source: QueuedView| !self.silent(source.last_packet)
    }

    /// The outputters that are not silent.
    pub open spec fn outputter_heard(self) -> spec_fn(OutputtingView) -> bool {
        |source: OutputtingView| !self.silent(source.last_packet)
    }

    /// The outputters that are silent.
    pub open spec fn outputter_silent(self) -> spec_fn(OutputtingView) -> bool {
        |source: OutputtingView| self.silent(source.last_packet)
    }

    /// The first step of a frame: silent sources leave the queue.
    pub open spec fn queue_cleared(self) -> StateView {
        StateView { queue: self.queue.filter(self.queue_heard()), ..self }
    }

    /// The number of silent outputters in the slots before slot `i`.
    pub open spec fn silent_before(self, i: int) -> nat {
        self.outputters.take(i).filter(self.outputter_silent()).len()
    }

    /// Who is in slot `i` once the queued sources, in their order, have taken the slots of silent
    /// outputters, in theirs.
    pub open spec fn refilled_slot(self, i: int) -> OutputtingView {
        if self.silent(self.outputters[i].last_packet) && self.silent_before(i) < self.queue.len() {
            self.started(self.queue[self.silent_before(i) as int])
        } else {
            self.outputters[i]
        }
    }

    /// The second step: queued sources take the slots of silent outputters, as far as there are
    /// queued sources.
    pub open spec fn refilled(self) -> StateView {
        StateView {
            queue: self.queue.skip(
                least(self.queue.len(), self.silent_before(self.outputters.len() as int)) as int,
            ),
            outputters: Seq::new(self.outputters.len(), |i: int| self.refilled_slot(i)),
            ..self
        }
    }

    /// The third step: silent outputters that nobody replaced leave.
    pub open spec fn outputters_cleared(self) -> StateView {
        StateView { outputters: self.outputters.filter(self.outputter_heard()), ..self }
    }

    /// The number of queued sources for which there are free slots.
    pub open spec fn admissible(self) -> nat {
        if self.outputters.len() < self.outputter_capacity {
            least((self.outputter_capacity - self.outputters.len()) as nat, self.queue.len())
        } else {
            0
        }
    }

    /// The fourth step: queued sources take free slots.
    pub open spec fn expanded(self) -> StateView {
        StateView {
            queue: self.queue.skip(self.admissible() as int),
            outputters: self.outputters + Seq::new(
                self.admissible(),
                |i: int| self.started(self.queue[i]),
            ),
            ..self
        }
    }

    /// Whether the outputter in slot `i` has reached the maximum output time.
    pub open spec fn done(self, i: int) -> bool {
        self.outputters[i].start_frame + self.output_time <= self.frame
    }

    /// Whether the outputter in slot `i` is past the maximum output time.
    pub open spec fn overdue(self, i: int) -> bool {
        self.outputters[i].start_frame + self.output_time < self.frame
    }

    /// The order in which outputters give their slots up: the one that started first goes first,
    /// and of two that started together the one in the lower slot.
    pub open spec fn yields_before(self) -> spec_fn(int, int) -> bool {
        |i: int, j: int|
            self.outputters[i].start_frame < self.outputters[j].start_frame || (
            self.outputters[i].start_frame == self.outputters[j].start_frame && i <= j)
    }

    /// The slots of all outputters that have reached the maximum output time.
    pub open spec fn done_slots(self) -> Seq<int> {
        Seq::new(self.outputters.len(), |i: int| i).filter(|i: int| self.done(i))
    }

    /// Those slots in the order in which they are given up.
    pub open spec fn done_order(self) -> Seq<int> {
        self.done_slots().sort_by(self.yields_before())
    }

    /// The number of outputters that give their slots up to queued sources.
    pub open spec fn rotations(self) -> nat {
        least(self.queue.len(), self.done_order().len())
    }

    /// Who is in slot `i` after a rotation: the next queued source where the outputter gave the
    /// slot up; otherwise the same outputter, with half of the output time ahead of it if it was
    /// overdue.
    pub open spec fn rotated_slot(self, i: int) -> OutputtingView {
        if !self.done(i) {
            self.outputters[i]
        } else if self.done_order().index_of(i) < self.rotations() {
            self.started(self.queue[self.done_order().index_of(i)])
        } else if self.overdue(i) {
            OutputtingView {
                start_frame: self.frame - self.output_time / 2,
                ..self.outputters[i]
            }
        } else {
            self.outputters[i]
        }
    }

    /// The fifth step, for when sources are still waiting: outputters that have had their time
    /// change places with queued sources, and join the end of the queue.
    pub open spec fn rotated(self) -> StateView {
        StateView {
            queue: self.queue.skip(self.rotations() as int) + Seq::new(
                self.rotations(),
                |r: int| self.outputters[self.done_order()[r]].requeued(),
            ),
            outputters: Seq::new(self.outputters.len(), |i: int| self.rotated_slot(i)),
            ..self
        }
    }

    /// The last step, for when the number of outputters has changed: the channels are divided
    /// anew.
    pub open spec fn reshared(self) -> StateView {
        let share = channel_share(
            self.output_channel_count,
            self.outputters.len(),
            self.channel_group_size,
        );
        StateView {
            outputters: Seq::new(
                self.outputters.len(),
                |i: int|
                    OutputtingView {
                        data: resized(self.outputters[i].data, share),
                        ..self.outputters[i]
                    },
            ),
            input_channel_count: share,
            ..self
        }
    }

    /// The sources once silent ones are gone and free slots are filled.
    pub open spec fn grown(self) -> StateView {
        self.queue_cleared().refilled().outputters_cleared().expanded()
    }

    /// The sources after a frame, before the channels are divided anew.
    pub open spec fn regrouped(self) -> StateView {
        let grown = self.grown();
        if grown.queue.len() > 0 { grown.rotated() } else { grown }
    }

    /// The number of queued sources, out of those that are not silent, that a frame gives a slot.
    pub open spec fn served(self) -> int {
        let grown = self.grown();
        self.queue_cleared().queue.len() - grown.queue.len() + if grown.queue.len() > 0 {
            grown.rotations() as int
        } else {
            0
        }
    }

    /// The state after a source sent values for the channels of a universe. A source that is
    /// listed has now been heard; if it is outputting, the values are written over its data, from
    /// the first channel of the universe on. Any other source joins the end of the queue.
    pub open spec fn received(self, id: SourceKey, universe: int, values: Seq<u8>) -> StateView {
        if self.queued(id) || self.outputting(id) {
            StateView {
                queue: Seq::new(
                    self.queue.len(),
                    |i: int|
                        if self.queue[i].id == id {
                            QueuedView { last_packet: self.frame, ..self.queue[i] }
                        } else {
                            self.queue[i]
                        },
                ),
                outputters: Seq::new(
                    self.outputters.len(),
                    |i: int|
                        if self.outputters[i].id == id {
                            OutputtingView {
                                last_packet: self.frame,
                                data: overlaid(
                                    self.outputters[i].data,
                                    first_channel(universe),
                                    values,
                                ),
                                ..self.outputters[i]
                            }
                        } else {
                            self.outputters[i]
                        },
                ),
                ..self
            }
        } else {
            StateView {
                queue: self.queue.push(QueuedView { id, last_packet: self.frame }),
                ..self
            }
        }
    }

    /// The state after bytes came in from an address. Only data packets with some value other than
    /// 0 count, and the port of the address does not.
    pub open spec fn after_packet(self, addr: SourceAddr, bytes: Seq<u8>) -> StateView {
        match parsed(bytes) {
            Some((name, universe, values)) => if all_zero(values) {
                self
            } else {
                self.received(SourceKey { addr: addr.with_port(0), name }, universe, values)
            },
            None => self,
        }
    }

    /// The state after a frame.
    pub open spec fn next_frame(self) -> StateView {
        let next = self.regrouped();
        let shared = if next.outputters.len() != self.outputters.len() {
            next.reshared()
        } else {
            next
        };
        StateView { frame: self.frame + 1, ..shared }
    }
}

} // verus!
