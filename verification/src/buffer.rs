//! A timeline whose applier is itself the target of other timelines.
//!
//! A [`TweenBuffer`] holds an applier where timelines can reach it as a
//! target, so that they can move, say, its start and its end. A
//! [`BufferApplier`] is the applier of the timeline that then plays the
//! buffered applier: its target is the pair of the value to write to and the
//! buffer.
use std::marker::PhantomData;
use vstd::prelude::*;
use crate::capability::TweenApplier;

verus! {

/// Holds an applier as a target for timelines.
#[derive(Debug)]
pub struct TweenBuffer<T> {
    pub tween: T,
}

impl<T: Clone> Clone for TweenBuffer<T> {
    fn clone(&self) -> (copy: Self) {
        Self { tween: self.tween.clone() }
    }
}

impl<T: Default> Default for TweenBuffer<T> {
    fn default() -> (buffer: Self) {
        Self { tween: T::default() }
    }
}

impl<T> TweenBuffer<T> {
    pub fn new(tween: T) -> (buffer: Self)
        ensures
            buffer.tween == tween,
    {
        Self { tween }
    }
}

/// Applies the applier of type `W` that the buffer of its target holds.
pub struct BufferApplier<W> {
    _phantom: PhantomData<W>,
}

impl<W> BufferApplier<W> {
    pub fn new() -> (applier: Self) {
        Self { _phantom: PhantomData }
    }
}

impl<W> Default for BufferApplier<W> {
    fn default() -> (applier: Self) {
        Self { _phantom: PhantomData }
    }
}

impl<W> Clone for BufferApplier<W> {
    fn clone(&self) -> (copy: Self) {
        Self { _phantom: PhantomData }
    }
}

impl<T, V, W: TweenApplier<T, V>> TweenApplier<(T, TweenBuffer<W>), V> for BufferApplier<W> {
    /// The buffered applier writes to the first part of the target.
    open spec fn applied(&self, target: (T, TweenBuffer<W>), value: V) -> (T, TweenBuffer<W>) {
        (
            target.1.tween.applied(target.0, value),
            TweenBuffer { tween: target.1.tween.afterwards(target.0, value) },
        )
    }

    open spec fn afterwards(&self, target: (T, TweenBuffer<W>), value: V) -> Self {
        *self
    }

    fn apply(&mut self, target: &mut (T, TweenBuffer<W>), value: V) {
        target.1.tween.apply(&mut target.0, value);
    }
}

} // verus!
