//! Resolution of declarative video-edit timelines: timecodes, effects that spill over
//! from one entry into the next, and contiguous layout of entries and feeds.
use vstd::prelude::*;

pub mod doc;
pub mod effects;
pub mod encoding;
pub mod entry;
pub mod error;
pub mod feed;
pub mod laws;
pub mod project;
pub mod timestamp;

pub use effects::{Effect, EffectKind, TimeCompressionEffect, TimedEffects, Token, TrimEffect, VolumeEffect};
pub use doc::{parse_effect, Value};
pub use encoding::EncodingProfileNames;
pub use entry::Entry;
pub use error::{DiscovererError, Error};
pub use feed::Feed;
pub use project::Project;
pub use timestamp::parse_timecode;

verus! {

} // verus!
