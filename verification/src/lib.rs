//! Be-Tween
//!
//! Drives values over time along a timeline that is put together from a few
//! combinators: a leaf that eases one value, a pause, a repeat, a sequence and
//! a parallel group.
//!
//! A timeline is a [`Tween`]. Each tick the host calls [`Tween::advance`] with
//! the time that has passed; the call moves the clocks of the timeline, hands
//! every leaf that it reaches to its [`TweenApplier`], records completion
//! events in an [`EventSink`] and reports whether the timeline is still
//! [`TweenProgress::Running`] or [`TweenProgress::Done`], and with how much of
//! the time left over.
//!
//! What a call does is stated over [`Timeline`], the mathematical model of a
//! timeline: [`Timeline::advanced`] says what [`Tween::advance`] does, and
//! [`Timeline::skipped`] what [`Tween::skip`] does. The module [`laws`] holds
//! what follows from the two for every timeline.

pub mod buffer;
pub mod capability;
pub mod clocks;
pub mod completion;
pub mod duration;
pub mod laws;
pub mod play;
pub mod progress;
pub mod rewind;
pub mod shape;
pub mod span;
pub mod timeline;
pub mod tween;

pub use buffer::{BufferApplier, TweenBuffer};
pub use capability::{
    Completion, Diagnostic, EventSink, Interpolator, Lerp, NoEvent, Position, Store, TweenApplier,
};
pub use duration::Duration;
pub use play::{Cleanup, PlayTween};
pub use progress::{Progress, RepeatTimes, TweenProgress};
pub use timeline::{Outcome, Timeline};
pub use tween::{ToTween, Tween};
