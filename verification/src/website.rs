use vstd::prelude::*;

use crate::model::{OutputtingView, QueuedView, SourceKey, StateView};
use crate::state;
use crate::state::{SourceAddr, State};

verus! {

/// What the site shows of a queued source.
pub struct QueuedSummary {
    pub id: SourceKey,
    pub since_last: int,
}

/// What the site shows of an outputting source.
pub struct OutputtingSummary {
    pub id: SourceKey,
    pub since_last: int,
    pub output_time: int,
    pub data: Seq<u8>,
}

/// What the site shows.
pub struct SiteSummary {
    pub queued: Seq<QueuedSummary>,
    pub outputting: Seq<OutputtingSummary>,
    pub frame: int,
}

/// A queued source as the site shows it at a frame.
pub open spec fn queued_summary(source: QueuedView, frame: int) -> QueuedSummary {
    QueuedSummary { id: source.id, since_last: frame - source.last_packet }
}

/// An outputting source as the site shows it at a frame.
pub open spec fn outputting_summary(source: OutputtingView, frame: int) -> OutputtingSummary {
    OutputtingSummary {
        id: source.id,
        since_last: frame - source.last_packet,
        output_time: frame - source.start_frame,
        data: source.data,
    }
}

/// A state as the site shows it.
pub open spec fn site_summary(view: StateView) -> SiteSummary {
    SiteSummary {
        queued: Seq::new(view.queue.len(), |i: int| queued_summary(view.queue[i], view.frame)),
        outputting: Seq::new(
            view.outputters.len(),
            |i: int| outputting_summary(view.outputters[i], view.frame),
        ),
        frame: view.frame,
    }
}

/// A queued source, for the site.
#[derive(Debug, Clone)]
pub struct QueuedSource {
    pub addr: SourceAddr,
    pub name: String,
    /// Frames since the last packet.
    pub since_last: usize,
}

impl View for QueuedSource {
    type V = QueuedSummary;

    open spec fn view(&self) -> QueuedSummary {
        QueuedSummary {
            id: SourceKey { addr: self.addr, name: self.name@ },
            since_last: self.since_last as int,
        }
    }
}

impl QueuedSource {
    /// Describes a queued source at a frame.
    pub fn new(source: &state::QueuedSource, frame: usize) -> (summary: Self)
        requires
            source@.last_packet <= frame,
        ensures
            summary@ == queued_summary(source@, frame as int),
            summary.addr == source.common.addr,
            summary.name@ == source.common.name@,
            summary.since_last == frame - source.common.last_packet,
    {
        QueuedSource {
            addr: source.common.addr,
            name: source.common.name.clone(),
            since_last: frame - source.common.last_packet,
        }
    }
}

/// An outputting source, for the site.
#[derive(Debug, Clone)]
pub struct OutputtingSource {
    pub addr: SourceAddr,
    pub name: String,
    /// Frames since the last packet.
    pub since_last: usize,
    /// Frames since the source started outputting.
    pub output_time: usize,
    /// The current output data.
    pub data: Vec<u8>,
}

impl View for OutputtingSource {
    type V = OutputtingSummary;

    open spec fn view(&self) -> OutputtingSummary {
        OutputtingSummary {
            id: SourceKey { addr: self.addr, name: self.name@ },
            since_last: self.since_last as int,
            output_time: self.output_time as int,
            data: self.data@,
        }
    }
}

impl OutputtingSource {
    /// Describes an outputting source at a frame.
    pub fn new(source: &state::OutputtingSource, frame: usize) -> (summary: Self)
        requires
            source@.last_packet <= frame,
            source@.start_frame <= frame,
        ensures
            summary@ == outputting_summary(source@, frame as int),
            summary.addr == source.common.addr,
            summary.name@ == source.common.name@,
            summary.since_last == frame - source.common.last_packet,
            summary.output_time == frame - source.start_frame,
            summary.data@ == source.data@,
    {
        let data: Vec<u8> = source.data.clone();
        assert(data@ =~= source.data@);
        OutputtingSource {
            addr: source.common.addr,
            name: source.common.name.clone(),
            since_last: frame - source.common.last_packet,
            output_time: frame - source.start_frame,
            data,
        }
    }
}

/// Represents the website's state. This should be updated with `update()` every frame.
#[derive(Debug, Clone)]
pub struct SiteState {
    pub queued: Vec<QueuedSource>,
    pub outputting: Vec<OutputtingSource>,
    pub frame: usize,
}

impl View for SiteState {
    type V = SiteSummary;

    open spec fn view(&self) -> SiteSummary {
        SiteSummary {
            queued: Seq::new(self.queued@.len(), |i: int| self.queued@[i]@),
            outputting: Seq::new(self.outputting@.len(), |i: int| self.outputting@[i]@),
            frame: self.frame as int,
        }
    }
}

impl SiteState {
    /// The site before the first frame.
    pub fn new() -> (site: Self)
        ensures
            site@ == (SiteSummary {
                queued: Seq::empty(),
                outputting: Seq::empty(),
                frame: 0,
            }),
    {
        let site = SiteState { queued: Vec::new(), outputting: Vec::new(), frame: 0 };
        assert(site@.queued =~= Seq::empty());
        assert(site@.outputting =~= Seq::empty());
        site
    }

    /// The site state given the state of all sources.
    pub fn update(state: &State) -> (site: Self)
        requires
            state@.stamped(),
        ensures
            site@ == site_summary(state@),
    {
        let mut queued: Vec<QueuedSource> = Vec::new();
        let mut i: usize = 0;
        while i < state.queue.len()
            invariant
                state@.stamped(),
                i <= state.queue.len(),
                queued@.len() == i,
                forall|j: int|
                    0 <= j < i ==> (#[trigger] queued@[j])@ == queued_summary(
                        state@.queue[j],
                        state@.frame,
                    ),
            decreases state.queue.len() - i,
        {
            assert(state@.queue[i as int] == state.queue@[i as int]@);
            queued.push(QueuedSource::new(&state.queue[i], state.frame));
            i += 1;
        }
        let mut outputting: Vec<OutputtingSource> = Vec::new();
        let mut i: usize = 0;
        while i < state.outputters.len()
            invariant
                state@.stamped(),
                i <= state.outputters.len(),
                outputting@.len() == i,
                forall|j: int|
                    0 <= j < i ==> (#[trigger] outputting@[j])@ == outputting_summary(
                        state@.outputters[j],
                        state@.frame,
                    ),
            decreases state.outputters.len() - i,
        {
            assert(state@.outputters[i as int] == state.outputters@[i as int]@);
            outputting.push(OutputtingSource::new(&state.outputters[i], state.frame));
            i += 1;
        }
        let site = SiteState { queued, outputting, frame: state.frame };
        assert(site@.queued =~= site_summary(state@).queued);
        assert(site@.outputting =~= site_summary(state@).outputting);
        site
    }
}

} // verus!
