//! A timeline with what its host is to do once it is done.
use vstd::prelude::*;
use crate::capability::{Completion, EventSink, Interpolator, TweenApplier};
use crate::duration::Duration;
use crate::progress::Progress;
use crate::timeline::Timeline;
use crate::tween::Tween;

verus! {

/// What the host is to do after a tick with the entity that plays a timeline.
#[derive(Clone, Copy, Debug, PartialEq, Eq, Structural)]
pub struct Cleanup {
    /// Take the timeline off the entity.
    pub remove: bool,
    /// Take the entity out of the world.
    pub despawn: bool,
}

/// A timeline that a host plays on one entity, with what is to happen to the
/// entity when the timeline is done: nothing unless asked for.
pub struct PlayTween<F, A, E> {
    pub tween: Tween<F, A, E>,
    pub despawn: bool,
    pub remove: bool,
}

impl<F, A, E> Default for PlayTween<F, A, E> {
    /// Plays a pause of no length and asks for nothing.
    fn default() -> (play: Self)
        ensures
            play.tween@ == (Timeline::<F, A, E>::Pause {
                duration: 0,
                elapsed: 0,
                completed: Completion::Silent,
            }),
            play.tween.wf(),
            !play.despawn,
            !play.remove,
    {
        PlayTween { tween: Tween::default(), despawn: false, remove: false }
    }
}

impl<F: Clone, A: Clone, E: Clone> Clone for PlayTween<F, A, E> {
    fn clone(&self) -> (copy: Self)
        ensures
            copy.tween@.clocks() == self.tween@.clocks(),
            copy.tween.wf() == self.tween.wf(),
            copy.despawn == self.despawn,
            copy.remove == self.remove,
    {
        PlayTween { tween: self.tween.duplicate(), despawn: self.despawn, remove: self.remove }
    }
}

impl<F, A, E> PlayTween<F, A, E> {
    pub fn new(tween: Tween<F, A, E>) -> (play: Self)
        ensures
            play.tween == tween,
            !play.despawn,
            !play.remove,
    {
        PlayTween { tween, despawn: false, remove: false }
    }

    /// After completing this tween, despawn the entity.
    pub fn despawn(self) -> (play: Self)
        ensures
            play.tween == self.tween,
            play.despawn,
            play.remove == self.remove,
    {
        PlayTween { tween: self.tween, despawn: true, remove: self.remove }
    }

    /// After completing this tween, remove it from the entity.
    pub fn remove_when_done(self) -> (play: Self)
        ensures
            play.tween == self.tween,
            play.despawn == self.despawn,
            play.remove,
    {
        PlayTween { tween: self.tween, despawn: self.despawn, remove: true }
    }

    /// What is to be done with the entity after a tick that reported
    /// `progress`: while the timeline runs, nothing; once it is done, what was
    /// asked for.
    pub open spec fn cleanup_after(self, progress: Progress) -> Cleanup {
        if progress is Done {
            Cleanup { remove: self.remove, despawn: self.despawn }
        } else {
            Cleanup { remove: false, despawn: false }
        }
    }

    /// One tick: advances the timeline by `delta` as [`Tween::advance`] does,
    /// and says what the host is to do with the entity.
    pub fn tick<T>(&mut self, target: &mut T, sink: &mut EventSink<E>, delta: Duration) -> (cleanup:
        Cleanup) where F: Interpolator, A: TweenApplier<T, F::Value>, E: Copy
        requires
            old(self).tween.wf(),
        ensures
            final(self).tween@ == old(self).tween@.advanced(*old(target), delta@).node,
            *final(target) == old(self).tween@.advanced(*old(target), delta@).target,
            final(sink).events@ == old(sink).events@ + old(self).tween@.advanced(
                *old(target),
                delta@,
            ).events,
            final(sink).diagnostics@ == old(sink).diagnostics@ + old(self).tween@.advanced(
                *old(target),
                delta@,
            ).diagnostics,
            final(self).despawn == old(self).despawn,
            final(self).remove == old(self).remove,
            final(self).tween.wf(),
            cleanup == old(self).cleanup_after(old(self).tween@.advanced(*old(target), delta@).progress),
    {
        let progress = self.tween.advance(target, sink, delta);
        if progress.is_done() {
            Cleanup { remove: self.remove, despawn: self.despawn }
        } else {
            Cleanup { remove: false, despawn: false }
        }
    }
}

} // verus!
