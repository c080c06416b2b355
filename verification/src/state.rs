use std::collections::VecDeque;
use vstd::prelude::*;

use crate::model::{OutputtingView, QueuedView, SourceKey, StateView};
use crate::table::SourceTable;

verus! {

/// The address that a packet came from: an IP address and a port, and for IPv6 the two numbers
/// that go with the address. Addresses are held as numbers, most significant byte first.
#[derive(Debug, Clone, Copy, PartialEq, Eq, Structural)]
#[allow(inconsistent_fields)]
pub enum SourceAddr {
    V4 { ip: u32, port: u16 },
    V6 { ip: u128, port: u16, flowinfo: u32, scope_id: u32 },
}

impl SourceAddr {
    /// The same address with another port.
    pub open spec fn with_port(self, port: u16) -> SourceAddr {
        match self {
            SourceAddr::V4 { ip, .. } => SourceAddr::V4 { ip, port },
            SourceAddr::V6 { ip, flowinfo, scope_id, .. } => SourceAddr::V6 {
                ip,
                port,
                flowinfo,
                scope_id,
            },
        }
    }

    /// Changes the port and nothing else.
    pub fn set_port(&mut self, port: u16)
        ensures
            *final(self) == old(self).with_port(port),
            match *old(self) {
                SourceAddr::V4 { ip, .. } => *final(self) == (SourceAddr::V4 { ip, port }),
                SourceAddr::V6 { ip, flowinfo, scope_id, .. } => *final(self) == (SourceAddr::V6 {
                    ip,
                    port,
                    flowinfo,
                    scope_id,
                }),
            },
    {
        *self = match *self {
            SourceAddr::V4 { ip, .. } => SourceAddr::V4 { ip, port },
            SourceAddr::V6 { ip, flowinfo, scope_id, .. } => SourceAddr::V6 {
                ip,
                port,
                flowinfo,
                scope_id,
            },
        };
    }
}

/// What tells one source from another: where its packets come from and what it calls itself.
#[derive(Debug)]
pub struct SourceId {
    pub addr: SourceAddr,
    pub name: String,
}

impl View for SourceId {
    type V = SourceKey;

    open spec fn view(&self) -> SourceKey {
        SourceKey { addr: self.addr, name: self.name@ }
    }
}

impl SourceId {
    /// Puts an identity together.
    pub fn new(addr: SourceAddr, name: String) -> (id: Self)
        ensures
            id@ == (SourceKey { addr, name: name@ }),
    {
        SourceId { addr, name }
    }

    /// Whether two identities are the same source.
    pub fn same(&self, other: &SourceId) -> (same: bool)
        ensures
            same == (self@ == other@),
    {
        self.addr == other.addr && self.name == other.name
    }
}

impl Clone for SourceId {
    fn clone(&self) -> (copy: Self)
        ensures
            copy@ == self@,
    {
        SourceId { addr: self.addr, name: self.name.clone() }
    }
}

/// The info we keep track of for all sources.
#[derive(Debug)]
pub struct SourceCommon {
    /// The source's IP address.
    pub addr: SourceAddr,
    /// The source's name, as sent in packets.
    pub name: String,
    /// The frame at which the last packet was received.
    pub last_packet: usize,
}

impl Clone for SourceCommon {
    fn clone(&self) -> (copy: Self)
        ensures
            copy == *self,
    {
        SourceCommon {
            addr: self.addr,
            name: self.name.clone(),
            last_packet: self.last_packet,
        }
    }
}

impl SourceCommon {
    /// The identity of the source.
    pub open spec fn key(self) -> SourceKey {
        SourceKey { addr: self.addr, name: self.name@ }
    }

    /// The identity of the source.
    pub fn id(&self) -> (id: SourceId)
        ensures
            id@ == self.key(),
    {
        SourceId::new(self.addr, self.name.clone())
    }
}

/// The position of a source, either in the queue or outputting.
#[derive(Debug, Clone, Copy, PartialEq, Eq, Structural)]
pub enum SourcePosition {
    Queue(usize),
    Outputting(usize),
}

/// A source that is queued to output.
#[derive(Debug)]
pub struct QueuedSource {
    /// The source's common info.
    pub common: SourceCommon,
}

impl View for QueuedSource {
    type V = QueuedView;

    open spec fn view(&self) -> QueuedView {
        QueuedView { id: self.common.key(), last_packet: self.common.last_packet as int }
    }
}

impl Clone for QueuedSource {
    fn clone(&self) -> (copy: Self)
        ensures
            copy@ == self@,
    {
        QueuedSource { common: self.common.clone() }
    }
}

impl QueuedSource {
    /// Creates a new `QueuedSource` given the source's name and address, along with the current
    /// state: its last packet is one of the current frame.
    pub fn new(name: String, addr: SourceAddr, current_state: &State) -> (source: Self)
        ensures
            source@ == (QueuedView {
                id: SourceKey { addr, name: name@ },
                last_packet: current_state@.frame,
            }),
    {
        QueuedSource { common: SourceCommon { addr, name, last_packet: current_state.frame } }
    }

    /// Creates a new `QueuedSource` from the given `OutputtingSource` that is moving back to the
    /// queue.
    pub fn from(outputting: OutputtingSource) -> (source: Self)
        ensures
            source@ == outputting@.requeued(),
            source.common == outputting.common,
    {
        QueuedSource { common: outputting.common }
    }
}

/// A source that is currently outputting.
#[derive(Debug)]
pub struct OutputtingSource {
    /// The source's common info.
    pub common: SourceCommon,
    /// The frame at which the source started outputting.
    pub start_frame: usize,
    /// The current output data, as long as the current `input_channel_count`.
    pub data: Vec<u8>,
}

impl View for OutputtingSource {
    type V = OutputtingView;

    open spec fn view(&self) -> OutputtingView {
        OutputtingView {
            id: self.common.key(),
            last_packet: self.common.last_packet as int,
            start_frame: self.start_frame as int,
            data: self.data@,
        }
    }
}

impl Clone for OutputtingSource {
    fn clone(&self) -> (copy: Self)
        ensures
            copy@ == self@,
    {
        let data: Vec<u8> = self.data.clone();
        assert(data@ =~= self.data@);
        OutputtingSource { common: self.common.clone(), start_frame: self.start_frame, data }
    }
}

impl OutputtingSource {
    /// Creates a new `OutputtingSource` from the given `QueuedSource` that is moving to
    /// outputting. It starts at the current frame, with 0 on all `input_channel_count` channels.
    pub fn from(queued: QueuedSource, current_state: &State) -> (source: Self)
        ensures
            source@ == current_state@.started(queued@),
            source.common == queued.common,
            source.start_frame == current_state.frame,
            source.data@.len() == current_state.input_channel_count,
            forall|c: int| 0 <= c < source.data@.len() ==> #[trigger] source.data@[c] == 0,
    {
        let data: Vec<u8> = vec![0; current_state.input_channel_count];
        let source = OutputtingSource {
            common: queued.common,
            start_frame: current_state.frame,
            data,
        };
        assert(source@.data =~= current_state@.started(queued@).data);
        source
    }
}

/// The current state of all sources.
#[derive(Debug)]
pub struct State {
    /// A map from source to source position (either `Queue` or `Outputting`). Used for quick
    /// lookup on incoming packets.
    pub sources: SourceTable,
    /// A queue of sources that are waiting to output.
    pub queue: VecDeque<QueuedSource>,
    /// A list of sources that are currently outputting, which preserves order (corresponds to
    /// positions in actual output).
    pub outputters: Vec<OutputtingSource>,
    /// The maximum number of outputters we allow.
    pub outputter_capacity: usize,
    /// The total number of channels we output.
    pub output_channel_count: usize,
    /// The number of channels per indivisible group for the purposes of dividing between
    /// outputters (3 for RGB).
    pub channel_group_size: usize,
    /// The current number of channels we take from each source: at most
    /// `output_channel_count / outputters.len()`, and less where that splits a group.
    pub input_channel_count: usize,
    /// The number of frames of inactivity before a source is removed.
    pub timeout: usize,
    /// The number of frames of output before an active source is removed.
    pub output_time: usize,
    /// The current frame counter.
    pub frame: usize,
}

/// What a state is made with.
#[derive(Debug, Clone, Copy)]
pub struct Settings {
    /// The number of output channels to use.
    pub output_channels: usize,
    /// The size of an indivisible group of channels.
    pub group_size: usize,
    /// The inactivity timeout in frames.
    pub timeout: usize,
    /// The output timeout in frames.
    pub output_time: usize,
    /// The maximum number of outputters.
    pub outputter_capacity: usize,
}

/// An invariant of the state that does not hold.
#[derive(Debug, Clone, Copy, PartialEq, Eq, Structural)]
pub enum Violation {
    /// There are more outputters than allowed.
    Outputters,
    /// The outputters have more channels than there are.
    Channels,
    /// The lookup table holds more or fewer sources than there are.
    SourceCount,
    /// The lookup table has a source where it is not.
    SourcePositions,
}

/// The queue as the model sees it.
pub open spec fn queue_view(queue: Seq<QueuedSource>) -> Seq<QueuedView> {
    Seq::new(queue.len(), |i: int| queue[i]@)
}

/// The outputters as the model sees them.
pub open spec fn outputters_view(outputters: Seq<OutputtingSource>) -> Seq<OutputtingView> {
    Seq::new(outputters.len(), |i: int| outputters[i]@)
}

impl View for State {
    type V = StateView;

    open spec fn view(&self) -> StateView {
        StateView {
            queue: queue_view(self.queue@),
            outputters: outputters_view(self.outputters@),
            outputter_capacity: self.outputter_capacity as nat,
            output_channel_count: self.output_channel_count as nat,
            channel_group_size: self.channel_group_size as nat,
            input_channel_count: self.input_channel_count as nat,
            timeout: self.timeout as int,
            output_time: self.output_time as int,
            frame: self.frame as int,
        }
    }
}

impl Clone for State {
    fn clone(&self) -> (copy: Self)
        ensures
            copy@ == self@,
            copy.sources@ == self.sources@,
    {
        let copy = State {
            sources: self.sources.clone(),
            queue: self.queue.clone(),
            outputters: self.outputters.clone(),
            outputter_capacity: self.outputter_capacity,
            output_channel_count: self.output_channel_count,
            channel_group_size: self.channel_group_size,
            input_channel_count: self.input_channel_count,
            timeout: self.timeout,
            output_time: self.output_time,
            frame: self.frame,
        };
        assert(copy@.queue =~= self@.queue);
        assert(copy@.outputters =~= self@.outputters);
        copy
    }
}

impl State {
    /// The lookup table lists every source with its position, and nothing else.
    pub open spec fn indexed(&self) -> bool {
        &&& forall|i: int|
            0 <= i < self@.queue.len() ==> self.sources@.contains_pair(
                (#[trigger] self@.queue[i]).id,
                SourcePosition::Queue(i as usize),
            )
        &&& forall|i: int|
            0 <= i < self@.outputters.len() ==> self.sources@.contains_pair(
                (#[trigger] self@.outputters[i]).id,
                SourcePosition::Outputting(i as usize),
            )
        &&& forall|id: SourceKey| #[trigger]
            self.sources@.dom().contains(id) ==> self@.queued(id) || self@.outputting(id)
    }

    /// What holds of the state between any two frames or packets.
    pub open spec fn wf(&self) -> bool {
        &&& self@.wf()
        &&& self.indexed()
    }

    /// There are no more outputters than allowed.
    pub open spec fn outputters_allowed(&self) -> bool {
        self@.outputters.len() <= self@.outputter_capacity
    }

    /// The channels of all outputters fit into the output.
    pub open spec fn channels_fit(&self) -> bool {
        self@.input_channel_count * self@.outputters.len() <= self@.output_channel_count
    }

    /// The lookup table holds as many sources as there are.
    pub open spec fn sources_counted(&self) -> bool {
        self@.queue.len() + self@.outputters.len() == self.sources@.len()
    }

    /// A source is at a position.
    pub open spec fn at(&self, id: SourceKey, position: SourcePosition) -> bool {
        match position {
            SourcePosition::Queue(i) => i < self@.queue.len() && self@.queue[i as int].id == id,
            SourcePosition::Outputting(i) => i < self@.outputters.len()
                && self@.outputters[i as int].id == id,
        }
    }

    /// Every source in the lookup table is where the table says.
    pub open spec fn sources_placed(&self) -> bool {
        forall|id: SourceKey| #[trigger]
            self.sources@.dom().contains(id) ==> self.at(id, self.sources@[id])
    }

    /// Creates a new `State` with the given configuration.
    pub fn new(settings: &Settings) -> (state: Self)
        requires
            settings.timeout > 0,
            settings.output_time > 0,
        ensures
            state.wf(),
            state.sources@ == Map::<SourceKey, SourcePosition>::empty(),
            state@ == (StateView {
                queue: Seq::empty(),
                outputters: Seq::empty(),
                outputter_capacity: settings.outputter_capacity as nat,
                output_channel_count: settings.output_channels as nat,
                channel_group_size: settings.group_size as nat,
                input_channel_count: settings.output_channels as nat,
                timeout: settings.timeout as int,
                output_time: settings.output_time as int,
                frame: 0,
            }),
    {
        let state = State {
            sources: SourceTable::new(),
            queue: VecDeque::new(),
            outputters: Vec::new(),
            outputter_capacity: settings.outputter_capacity,
            output_channel_count: settings.output_channels,
            channel_group_size: settings.group_size,
            // We start with no outputters, so just cap to output channel count as placeholder
            input_channel_count: settings.output_channels,
            timeout: settings.timeout,
            output_time: settings.output_time,
            frame: 0,
        };
        assert(state@.queue =~= Seq::empty());
        assert(state@.outputters =~= Seq::empty());
        state
    }

    /// Whether a source is at a position.
    fn has_at(&self, id: &SourceId, position: SourcePosition) -> (found: bool)
        ensures
            found == self.at(id@, position),
    {
        match position {
            SourcePosition::Queue(i) => i < self.queue.len() && self.queue[i].common.id().same(id),
            SourcePosition::Outputting(i) => i < self.outputters.len()
                && self.outputters[i].common.id().same(id),
        }
    }

    /// Validates that state invariants are upheld, and returns the first that is not.
    pub fn validate(&self) -> (result: Result<(), Violation>)
        ensures
            match result {
                Ok(()) => {
                    &&& self.outputters_allowed()
                    &&& self.channels_fit()
                    &&& self.sources_counted()
                    &&& self.sources_placed()
                },
                Err(Violation::Outputters) => !self.outputters_allowed(),
                Err(Violation::Channels) => {
                    &&& self.outputters_allowed()
                    &&& !self.channels_fit()
                },
                Err(Violation::SourceCount) => {
                    &&& self.outputters_allowed()
                    &&& self.channels_fit()
                    &&& !self.sources_counted()
                },
                Err(Violation::SourcePositions) => {
                    &&& self.outputters_allowed()
                    &&& self.channels_fit()
                    &&& self.sources_counted()
                    &&& !self.sources_placed()
                },
            },
    {
        if self.outputters.len() > self.outputter_capacity {
            return Err(Violation::Outputters);
        }
        match self.input_channel_count.checked_mul(self.outputters.len()) {
            Some(channels) => {
                if channels > self.output_channel_count {
                    return Err(Violation::Channels);
                }
            },
            None => {
                return Err(Violation::Channels);
            },
        }
        let listed: usize = self.sources.len();
        match self.queue.len().checked_add(self.outputters.len()) {
            Some(count) => {
                if count != listed {
                    return Err(Violation::SourceCount);
                }
            },
            None => {
                return Err(Violation::SourceCount);
            },
        }
        let mut i: usize = 0;
        while i < listed
            invariant
                i <= listed,
                listed == self.sources.listing().len(),
                self.outputters_allowed(),
                self.channels_fit(),
                self.sources_counted(),
                forall|j: int|
                    0 <= j < i ==> self.at(
                        (#[trigger] self.sources.listing()[j]).0,
                        self.sources.listing()[j].1,
                    ),
            decreases listed - i,
        {
            let (id, position) = self.sources.entry(i);
            if !self.has_at(id, position) {
                assert(self.sources@.dom().contains(id@));
                return Err(Violation::SourcePositions);
            }
            i += 1;
        }
        assert forall|id: SourceKey| #[trigger] self.sources@.dom().contains(id) implies self.at(
            id,
            self.sources@[id],
        ) by {
            self.sources.lemma_listed(id);
        }
        Ok(())
    }

    /// Builds the lookup table from the positions of all sources.
    pub(crate) fn reindex(&mut self)
        requires
            old(self)@.distinct(),
        ensures
            final(self)@ == old(self)@,
            final(self).indexed(),
    {
        let ghost view = self@;
        let mut table = SourceTable::new();
        let mut i: usize = 0;
        while i < self.queue.len()
            invariant
                view == self@,
                view.distinct(),
                i <= self.queue.len(),
                forall|j: int|
                    0 <= j < i ==> table@.contains_pair(
                        (#[trigger] view.queue[j]).id,
                        SourcePosition::Queue(j as usize),
                    ),
                forall|id: SourceKey| #[trigger]
                    table@.dom().contains(id) ==> exists|j: int|
                        0 <= j < i && (#[trigger] view.queue[j]).id == id,
            decreases self.queue.len() - i,
        {
            assert(view.queue[i as int] == self.queue@[i as int]@);
            table.add(self.queue[i].common.id(), SourcePosition::Queue(i));
            i += 1;
        }
        let queued: usize = i;
        let mut i: usize = 0;
        while i < self.outputters.len()
            invariant
                view == self@,
                view.distinct(),
                queued == view.queue.len(),
                i <= self.outputters.len(),
                forall|j: int|
                    0 <= j < queued ==> table@.contains_pair(
                        (#[trigger] view.queue[j]).id,
                        SourcePosition::Queue(j as usize),
                    ),
                forall|j: int|
                    0 <= j < i ==> table@.contains_pair(
                        (#[trigger] view.outputters[j]).id,
                        SourcePosition::Outputting(j as usize),
                    ),
                forall|id: SourceKey| #[trigger]
                    table@.dom().contains(id) ==> (exists|j: int|
                        0 <= j < queued && (#[trigger] view.queue[j]).id == id) || (exists|j: int|
                        0 <= j < i && (#[trigger] view.outputters[j]).id == id),
            decreases self.outputters.len() - i,
        {
            assert(view.outputters[i as int] == self.outputters@[i as int]@);
            table.add(self.outputters[i].common.id(), SourcePosition::Outputting(i));
            i += 1;
        }
        self.sources = table;
        assert(self@ == view);
    }
}

} // verus!
