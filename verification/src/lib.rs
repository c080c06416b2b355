//! Divides the channels of one E1.31 (streaming ACN) output between several sources that send to
//! it.
//!
//! Sources send E1.31 data packets. A source that is heard for the first time joins a queue; from
//! there it moves to one of a fixed number of output slots, where its channels are shown for a
//! limited time while other sources wait. Every frame the channels of all outputting sources are
//! put side by side and cut into E1.31 packets again.
//!
//! - [`state`]: the state of all sources, and the types that it is made of
//! - [`table`]: the lookup table from a source to its position
//! - [`model`]: what the state means, and what a frame and a packet do to it, as mathematics
//! - [`packet`]: what an E1.31 data packet is
//! - [`input`]: reading packets, and what an incoming one changes
//! - [`output`]: one frame of the main loop, and the packets that it sends
//! - [`website`]: the summary of the state that the status site shows
//! - [`laws`]: what holds of the library as a whole
//! - [`frame_laws`]: what a frame does, told by who is where before and after it
//! - [`packet_laws`]: what packets hold and what an incoming one changes, byte by byte
//! - [`proofs`]: what the proofs of the functions and the laws share

pub mod frame_laws;
pub mod input;
pub mod laws;
pub mod model;
pub mod output;
pub mod packet;
pub mod packet_laws;
pub mod proofs;
pub mod state;
pub mod table;
pub mod website;

pub use state::{
    OutputtingSource, QueuedSource, Settings, SourceAddr, SourceCommon, SourceId, SourcePosition,
    State, Violation,
};
