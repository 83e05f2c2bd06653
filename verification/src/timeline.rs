//! The model of a timeline, and what one call does to it.
//!
//! A [`Timeline`] is a tree of clocks and counters over natural numbers. The
//! spec functions here say what a call of `advance` or `skip` makes of such a
//! tree: [`Timeline::advanced`] and [`Timeline::skipped`]. Both are
//! [`Timeline::run`], which is written once for the two.
use vstd::prelude::*;
use crate::capability::{Completion, Diagnostic, Interpolator, Position, TweenApplier};
use crate::progress::{Progress, RepeatTimes};

verus! {

/// What a live call does at a `Once` leaf: from the leaf's interpolator and
/// applier, the target and the position of the leaf's clock, the applier and
/// the target after the call.
pub type Effect<F, A, T> = spec_fn(F, A, T, Position) -> (A, T);

/// The model of a timeline: durations, clocks, counters and cursors as
/// natural numbers, children as sequences.
pub enum Timeline<F, A, E> {
    /// A leaf that eases its target while its clock runs from 0 to `duration`.
    Once { duration: nat, elapsed: nat, function: F, applier: A, completed: Completion<E> },
    /// Runs `child` again and again; `count` runs are complete.
    Repeat { child: Box<Timeline<F, A, E>>, times: RepeatTimes, count: nat, completed: Completion<E> },
    /// Runs `children` one after the other; `index` is the one that is active.
    Sequence { index: nat, children: Seq<Timeline<F, A, E>>, completed: Completion<E> },
    /// Runs all `children` side by side.
    Parallel { children: Seq<Timeline<F, A, E>>, completed: Completion<E> },
    /// A leaf whose clock runs from 0 to `duration` and touches nothing.
    Pause { duration: nat, elapsed: nat, completed: Completion<E> },
}

/// What one call leaves behind.
pub struct Outcome<T, F, A, E> {
    /// The timeline after the call.
    pub node: Timeline<F, A, E>,
    /// The target after the call.
    pub target: T,
    /// The completion payloads that the call sent, in order.
    pub events: Seq<E>,
    /// The diagnostics that the call reported, in order.
    pub diagnostics: Seq<Diagnostic>,
    /// What the call returned.
    pub progress: Progress,
}

/// What a leaf reports whose clock stood at `elapsed` of `duration` when `dt`
/// came in.
pub open spec fn tick(elapsed: nat, duration: nat, dt: nat) -> Progress {
    if elapsed + dt >= duration {
        Progress::Done { surplus: (elapsed + dt - duration) as nat }
    } else {
        Progress::Running
    }
}

/// Where the clock of a leaf stands after `dt` came in: it stops at
/// `duration`.
pub open spec fn clamped(elapsed: nat, duration: nat, dt: nat) -> nat {
    if elapsed + dt >= duration {
        duration
    } else {
        elapsed + dt
    }
}

/// The count of a repeat after one more run. A count that has reached the
/// largest `usize` stays there.
pub open spec fn counted(count: nat) -> nat {
    if count < usize::MAX {
        count + 1
    } else {
        count
    }
}

/// What bounds the runs that a repeat can still make in one call: the runs
/// that are left, or for a repeat without end the time that is left.
pub open spec fn repeat_fuel(times: RepeatTimes, count: nat, dt: nat) -> nat {
    match times {
        RepeatTimes::N(amount) => if count < amount {
            (amount - count) as nat
        } else {
            0
        },
        RepeatTimes::Infinite => dt,
    }
}

impl<T, F, A, E> Outcome<T, F, A, E> {
    /// The outcome of two steps in a row, the second of which is `self`:
    /// the signals of the first stand before those of the second.
    pub open spec fn after(self, events: Seq<E>, diagnostics: Seq<Diagnostic>) -> Self {
        Outcome {
            events: events + self.events,
            diagnostics: diagnostics + self.diagnostics,
            ..self
        }
    }
}

impl<T, F, A, E> Outcome<T, F, A, E> {
    /// Signals put before an outcome one after the other are put before it
    /// joined, and no signals leave it as it is.
    pub proof fn after_joins(
        self,
        events: Seq<E>,
        diagnostics: Seq<Diagnostic>,
        earlier_events: Seq<E>,
        earlier_diagnostics: Seq<Diagnostic>,
    )
        ensures
            self.after(events, diagnostics).after(earlier_events, earlier_diagnostics) == self.after(
                earlier_events + events,
                earlier_diagnostics + diagnostics,
            ),
            self.after(Seq::empty(), Seq::empty()) == self,
    {
        assert(earlier_events + (events + self.events) =~= (earlier_events + events) + self.events);
        assert(earlier_diagnostics + (diagnostics + self.diagnostics) =~= (earlier_diagnostics
            + diagnostics) + self.diagnostics);
        assert(Seq::<E>::empty() + self.events =~= self.events);
        assert(Seq::<Diagnostic>::empty() + self.diagnostics =~= self.diagnostics);
    }
}

impl<F, A, E> Timeline<F, A, E> {
    /// The number of nodes in the tree.
    pub open spec fn size(self) -> nat
        decreases self,
    {
        match self {
            Timeline::Once { .. } => 1,
            Timeline::Pause { .. } => 1,
            Timeline::Repeat { child, .. } => 1 + child.size(),
            Timeline::Sequence { children, .. } => 1 + Self::total_size(children),
            Timeline::Parallel { children, .. } => 1 + Self::total_size(children),
        }
    }

    /// The number of nodes in all the trees of `nodes`.
    pub open spec fn total_size(nodes: Seq<Self>) -> nat
        decreases nodes,
    {
        if nodes.len() == 0 {
            0
        } else {
            Self::total_size(nodes.drop_last()) + nodes.last().size()
        }
    }

    /// The invariant of a timeline: no clock is past its end, no cursor past
    /// its list.
    pub open spec fn wf(self) -> bool
        decreases self,
    {
        match self {
            Timeline::Once { duration, elapsed, .. } => elapsed <= duration,
            Timeline::Pause { duration, elapsed, .. } => elapsed <= duration,
            Timeline::Repeat { child, .. } => child.wf(),
            Timeline::Sequence { index, children, .. } => {
                &&& index <= children.len()
                &&& forall|i: int| 0 <= i < children.len() ==> (#[trigger] children[i]).wf()
            },
            Timeline::Parallel { children, .. } => {
                forall|i: int| 0 <= i < children.len() ==> (#[trigger] children[i]).wf()
            },
        }
    }

    /// Whether the timeline has reached its end: a call on it reports `Done`
    /// with all of its time as surplus and sends nothing.
    pub open spec fn complete(self) -> bool
        decreases self,
    {
        match self {
            Timeline::Once { duration, elapsed, .. } => elapsed >= duration,
            Timeline::Pause { duration, elapsed, .. } => elapsed >= duration,
            Timeline::Repeat { times, count, .. } => times.exhausted_by(count),
            Timeline::Sequence { index, children, .. } => index >= children.len(),
            Timeline::Parallel { children, .. } => {
                forall|i: int| 0 <= i < children.len() ==> (#[trigger] children[i]).complete()
            },
        }
    }

    /// The completion payload of the node itself.
    pub open spec fn completed(self) -> Completion<E> {
        match self {
            Timeline::Once { completed, .. } => completed,
            Timeline::Pause { completed, .. } => completed,
            Timeline::Repeat { completed, .. } => completed,
            Timeline::Sequence { completed, .. } => completed,
            Timeline::Parallel { completed, .. } => completed,
        }
    }

    /// The timeline with `completed` as the payload of its root.
    pub open spec fn with_completed(self, completed: Completion<E>) -> Self {
        match self {
            Timeline::Once { duration, elapsed, function, applier, .. } => Timeline::Once {
                duration,
                elapsed,
                function,
                applier,
                completed,
            },
            Timeline::Pause { duration, elapsed, .. } => Timeline::Pause { duration, elapsed, completed },
            Timeline::Repeat { child, times, count, .. } => Timeline::Repeat {
                child,
                times,
                count,
                completed,
            },
            Timeline::Sequence { index, children, .. } => Timeline::Sequence {
                index,
                children,
                completed,
            },
            Timeline::Parallel { children, .. } => Timeline::Parallel { children, completed },
        }
    }

    /// What a call with `dt` nanoseconds makes of the timeline and of
    /// `target`.
    ///
    /// A live call (`advance`) works `effect` at each `Once` leaf that it
    /// reaches, and sends signals. A call that is not live (`skip`) moves
    /// clocks, counters and cursors in the same way and does nothing else.
    ///
    /// The node's own payload is sent by a live call that finds the node not
    /// complete and reports `Done`. It comes after whatever the nodes below
    /// sent.
    pub open spec fn run<T>(self, target: T, dt: nat, effect: Effect<F, A, T>, live: bool) -> Outcome<T, F, A, E>
        decreases self.size(), 2nat, 0nat,
    {
        let driven = self.drive(target, dt, effect, live);
        if live && !self.complete() && driven.progress is Done {
            Outcome { events: driven.events + self.completed().payload(), ..driven }
        } else {
            driven
        }
    }

    /// What a call makes of the timeline and of `target`, but for the node's
    /// own payload.
    ///
    /// A leaf moves its clock on by `dt`, stops it at its duration and
    /// reports as [`tick`] says. A `Once` leaf of a live call then works
    /// `effect` at the position that its clock has reached, also when that
    /// is the end.
    pub open spec fn drive<T>(self, target: T, dt: nat, effect: Effect<F, A, T>, live: bool) -> Outcome<T, F, A, E>
        decreases self.size(), 1nat, 0nat,
    {
        match self {
            Timeline::Once { duration, elapsed, function, applier, completed } => {
                let reached = clamped(elapsed, duration, dt);
                let (applier_after, target_after) = if live {
                    effect(function, applier, target, Position::at(reached, duration))
                } else {
                    (applier, target)
                };
                Outcome {
                    node: Timeline::Once {
                        duration,
                        elapsed: reached,
                        function,
                        applier: applier_after,
                        completed,
                    },
                    target: target_after,
                    events: Seq::empty(),
                    diagnostics: Seq::empty(),
                    progress: tick(elapsed, duration, dt),
                }
            },
            Timeline::Pause { duration, elapsed, completed } => Outcome {
                node: Timeline::Pause { duration, elapsed: clamped(elapsed, duration, dt), completed },
                target,
                events: Seq::empty(),
                diagnostics: Seq::empty(),
                progress: tick(elapsed, duration, dt),
            },
            Timeline::Repeat { child, times, count, completed } => Self::run_repeat(
                self.size(),
                *child,
                times,
                count,
                completed,
                target,
                dt,
                effect,
                live,
            ),
            Timeline::Sequence { index, children, completed } => Self::run_sequence(
                self.size(),
                children,
                index,
                completed,
                target,
                dt,
                effect,
                live,
            ),
            Timeline::Parallel { children, completed } => Self::run_parallel(
                self.size(),
                children,
                0,
                Progress::Done { surplus: dt },
                completed,
                target,
                dt,
                effect,
                live,
            ),
        }
    }

    /// What a call makes of a repeat whose child is `child` and whose count
    /// is `count`.
    ///
    /// While runs are left, the child is run. When it reports `Done`, the
    /// count goes up by one, the child is reset, and the surplus goes to the
    /// next run. A child that reports `Running` ends the call. A repeat
    /// without end whose child used up none of the time reports a diagnostic
    /// and `Running`, and leaves the child as it is.
    ///
    /// `bound` is more than the size of any child that comes here; it serves
    /// to show that the definition ends.
    pub open spec fn run_repeat<T>(
        bound: nat,
        child: Self,
        times: RepeatTimes,
        count: nat,
        completed: Completion<E>,
        target: T,
        dt: nat,
        effect: Effect<F, A, T>,
        live: bool,
    ) -> Outcome<T, F, A, E>
        decreases bound, 0nat, repeat_fuel(times, count, dt),
    {
        let unmoved = Outcome {
            node: Timeline::Repeat { child: Box::new(child), times, count, completed },
            target,
            events: Seq::empty(),
            diagnostics: Seq::empty(),
            progress: Progress::Done { surplus: dt },
        };
        if times.exhausted_by(count) || child.size() >= bound {
            unmoved
        } else {
            let ran = child.run(target, dt, effect, live);
            match ran.progress {
                Progress::Running => Outcome {
                    node: Timeline::Repeat { child: Box::new(ran.node), times, count, completed },
                    ..ran
                },
                Progress::Done { surplus } => {
                    if times is Infinite && dt <= surplus {
                        Outcome {
                            node: Timeline::Repeat {
                                child: Box::new(ran.node),
                                times,
                                count: counted(count),
                                completed,
                            },
                            diagnostics: if live {
                                ran.diagnostics.push(Diagnostic::ZeroProgressRepeat)
                            } else {
                                ran.diagnostics
                            },
                            progress: Progress::Running,
                            ..ran
                        }
                    } else {
                        Self::run_repeat(
                            bound,
                            ran.node.reset(),
                            times,
                            counted(count),
                            completed,
                            ran.target,
                            surplus,
                            effect,
                            live,
                        ).after(ran.events, ran.diagnostics)
                    }
                },
            }
        }
    }

    /// What a call makes of a sequence whose cursor is at `index`.
    ///
    /// The active child is run. When it reports `Done`, the cursor moves on
    /// and the surplus goes to the next child, in the same call. A child that
    /// reports `Running` ends the call. Past the last child the sequence
    /// reports `Done` with what is left.
    ///
    /// `bound` is more than the size of any child, as in
    /// [`Timeline::run_repeat`].
    pub open spec fn run_sequence<T>(
        bound: nat,
        children: Seq<Self>,
        index: nat,
        completed: Completion<E>,
        target: T,
        dt: nat,
        effect: Effect<F, A, T>,
        live: bool,
    ) -> Outcome<T, F, A, E>
        decreases bound, 0nat, children.len() - index,
    {
        if index >= children.len() || children[index as int].size() >= bound {
            Outcome {
                node: Timeline::Sequence { index, children, completed },
                target,
                events: Seq::empty(),
                diagnostics: Seq::empty(),
                progress: Progress::Done { surplus: dt },
            }
        } else {
            let ran = children[index as int].run(target, dt, effect, live);
            let moved = children.update(index as int, ran.node);
            match ran.progress {
                Progress::Running => Outcome {
                    node: Timeline::Sequence { index, children: moved, completed },
                    ..ran
                },
                Progress::Done { surplus } => Self::run_sequence(
                    bound,
                    moved,
                    index + 1,
                    completed,
                    ran.target,
                    surplus,
                    effect,
                    live,
                ).after(ran.events, ran.diagnostics),
            }
        }
    }

    /// What a call makes of the children of a parallel group from position
    /// `from` on.
    ///
    /// Every child is run with the same `dt`, in list order. `so_far` is what
    /// the children before `from` amount to. The group is done when all of
    /// its children are, with the smallest of their surpluses; a group
    /// without children is done with `dt`.
    ///
    /// `bound` is more than the size of any child, as in
    /// [`Timeline::run_repeat`].
    pub open spec fn run_parallel<T>(
        bound: nat,
        children: Seq<Self>,
        from: nat,
        so_far: Progress,
        completed: Completion<E>,
        target: T,
        dt: nat,
        effect: Effect<F, A, T>,
        live: bool,
    ) -> Outcome<T, F, A, E>
        decreases bound, 0nat, children.len() - from,
    {
        if from >= children.len() || children[from as int].size() >= bound {
            Outcome {
                node: Timeline::Parallel { children, completed },
                target,
                events: Seq::empty(),
                diagnostics: Seq::empty(),
                progress: so_far,
            }
        } else {
            let ran = children[from as int].run(target, dt, effect, live);
            Self::run_parallel(
                bound,
                children.update(from as int, ran.node),
                from + 1,
                so_far.meet(ran.progress),
                completed,
                ran.target,
                dt,
                effect,
                live,
            ).after(ran.events, ran.diagnostics)
        }
    }

    /// The timeline after `reset`: clocks and counters at 0, cursors at the
    /// first child.
    ///
    /// A sequence resets the children before its cursor and no others.
    pub open spec fn reset(self) -> Self
        decreases self,
    {
        match self {
            Timeline::Once { duration, elapsed, function, applier, completed } => Timeline::Once {
                duration,
                elapsed: 0,
                function,
                applier,
                completed,
            },
            Timeline::Pause { duration, elapsed, completed } => Timeline::Pause {
                duration,
                elapsed: 0,
                completed,
            },
            Timeline::Repeat { child, times, count, completed } => Timeline::Repeat {
                child: Box::new(child.reset()),
                times,
                count: 0,
                completed,
            },
            Timeline::Sequence { index, children, completed } => Timeline::Sequence {
                index: 0,
                children: Seq::new(
                    children.len(),
                    |i: int|
                        if 0 <= i < children.len() && i < index {
                            children[i].reset()
                        } else {
                            children[i]
                        },
                ),
                completed,
            },
            Timeline::Parallel { children, completed } => Timeline::Parallel {
                children: Seq::new(
                    children.len(),
                    |i: int|
                        if 0 <= i < children.len() {
                            children[i].reset()
                        } else {
                            children[i]
                        },
                ),
                completed,
            },
        }
    }

    /// What `skip` makes of the timeline when `dt` nanoseconds come in.
    pub open spec fn skipped(self, dt: nat) -> Outcome<(), F, A, E> {
        self.run((), dt, idle::<F, A>(), false)
    }
}

/// The effect of a call that is not live: none.
pub open spec fn idle<F, A>() -> Effect<F, A, ()> {
    |function: F, applier: A, target: (), position: Position| (applier, target)
}

/// The effect of a live call: the leaf's interpolator eases the position, and
/// the leaf's applier writes the eased value to the target.
pub open spec fn eases<T, F: Interpolator, A: TweenApplier<T, F::Value>>() -> Effect<F, A, T> {
    |function: F, applier: A, target: T, position: Position|
        (
            applier.afterwards(target, function.eased(position)),
            applier.applied(target, function.eased(position)),
        )
}

impl<F: Interpolator, A, E> Timeline<F, A, E> {
    /// What `advance` makes of the timeline and of `target` when `dt`
    /// nanoseconds come in.
    pub open spec fn advanced<T>(self, target: T, dt: nat) -> Outcome<T, F, A, E> where
        A: TweenApplier<T, F::Value>,
     {
        self.run(target, dt, eases::<T, F, A>(), true)
    }
}

} // verus!
