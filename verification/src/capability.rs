//! What a timeline is handed from outside: how a leaf eases its position, how
//! it writes the eased value to its target, and where signals go.
use vstd::prelude::*;
use crate::duration::Duration;

verus! {

/// Where a leaf's clock stands: `elapsed` out of `duration`.
///
/// It stands for the fraction `elapsed / duration`, kept exact. The engine
/// only makes positions with `elapsed <= duration`. For a leaf of zero
/// duration the fraction has no value; the position is handed on as it is.
#[derive(Clone, Copy, Debug, PartialEq, Eq, Structural)]
pub struct Position {
    pub elapsed: Duration,
    pub duration: Duration,
}

impl Position {
    /// The position of a clock that shows `elapsed` nanoseconds out of
    /// `duration`.
    pub open spec fn at(elapsed: nat, duration: nat) -> Position {
        Position { elapsed: Duration::of(elapsed), duration: Duration::of(duration) }
    }

    /// The position at the end of a leaf of the given duration: the fraction 1.
    pub open spec fn end(duration: nat) -> Position {
        Position::at(duration, duration)
    }
}

/// Maps a position to an eased value. It has no state of its own.
///
/// `eased` names what `interpolate` returns. An implementation that is
/// verified gives `eased` a body and proves `interpolate` against it. For an
/// implementation that is not, `eased` stays an unknown function of the
/// interpolator and the position: the contracts of the engine then say which
/// positions are eased, and leave open what easing makes of them. Such an
/// implementation owes what the name claims: the same interpolator returns
/// the same value for the same position.
pub trait Interpolator: Sized {
    /// What an eased position is: a number for most, the position itself for
    /// [`Lerp`].
    type Value;

    open spec fn eased(&self, position: Position) -> Self::Value {
        arbitrary::<spec_fn(Self, Position) -> Self::Value>()(*self, position)
    }

    /// Eases a position that the engine hands in: one whose clock is not past
    /// its end.
    fn interpolate(&self, position: Position) -> (value: Self::Value)
        requires
            position.elapsed@ <= position.duration@,
        ensures
            value == self.eased(position),
    ;
}

/// Writes an eased value into a target of type `T`. It may keep state of its
/// own from one call to the next.
///
/// `applied` names the target after `apply`, `afterwards` the applier after
/// it. As with [`Interpolator::eased`], an implementation that is not verified
/// leaves both unknown functions of the applier, the target and the value,
/// and owes that they are functions of these three alone.
pub trait TweenApplier<T, V>: Sized {
    open spec fn applied(&self, target: T, value: V) -> T {
        arbitrary::<spec_fn(Self, T, V) -> T>()(*self, target, value)
    }

    open spec fn afterwards(&self, target: T, value: V) -> Self {
        arbitrary::<spec_fn(Self, T, V) -> Self>()(*self, target, value)
    }

    fn apply(&mut self, target: &mut T, value: V)
        ensures
            *final(target) == old(self).applied(*old(target), value),
            *final(self) == old(self).afterwards(*old(target), value),
    ;
}

/// The interpolator that eases nothing: it hands the position on as it is.
#[derive(Copy, Clone, Debug, PartialEq, Eq, Structural)]
pub struct Lerp;

impl Interpolator for Lerp {
    type Value = Position;

    open spec fn eased(&self, position: Position) -> Position {
        position
    }

    fn interpolate(&self, position: Position) -> (value: Position) {
        position
    }
}

/// The applier that makes nothing of the eased value: it stores the value in
/// the target as it is.
#[derive(Copy, Clone, Debug, PartialEq, Eq, Structural)]
pub struct Store;

impl<V> TweenApplier<V, V> for Store {
    open spec fn applied(&self, target: V, value: V) -> V {
        value
    }

    open spec fn afterwards(&self, target: V, value: V) -> Self {
        *self
    }

    fn apply(&mut self, target: &mut V, value: V) {
        *target = value;
    }
}

/// What a node sends when it completes: nothing, or its payload.
#[derive(Debug, PartialEq, Eq, Structural)]
pub enum Completion<E> {
    Silent,
    Emit(E),
}

impl<E: Clone> Clone for Completion<E> {
    fn clone(&self) -> (copy: Self)
        ensures
            (copy is Silent) == (self is Silent),
    {
        match self {
            Completion::Silent => Completion::Silent,
            Completion::Emit(event) => Completion::Emit(event.clone()),
        }
    }
}

impl<E> Completion<E> {
    /// The payload as a sequence: empty for `Silent`, of one item for `Emit`.
    pub open spec fn payload(self) -> Seq<E> {
        match self {
            Completion::Silent => Seq::empty(),
            Completion::Emit(event) => seq![event],
        }
    }
}

/// The payload type for a timeline that sends no completion events.
#[derive(Clone, Copy, Debug, PartialEq, Eq, Structural)]
pub struct NoEvent;

/// A condition that the engine reports without failing.
#[derive(Clone, Copy, Debug, PartialEq, Eq, Structural)]
pub enum Diagnostic {
    /// A repeat without end ran a child that used up none of the time it was
    /// given. The call that met it reported `Running` and looped no further.
    ZeroProgressRepeat,
}

/// Where `advance` leaves its signals: the payloads of the nodes that
/// completed, in the order in which they completed, and the diagnostics.
///
/// The host reads and empties both between calls.
pub struct EventSink<E> {
    pub events: Vec<E>,
    pub diagnostics: Vec<Diagnostic>,
}

impl<E> EventSink<E> {
    pub fn new() -> (sink: Self)
        ensures
            sink.events@ == Seq::<E>::empty(),
            sink.diagnostics@ == Seq::<Diagnostic>::empty(),
    {
        EventSink { events: Vec::new(), diagnostics: Vec::new() }
    }
}

} // verus!
