//! The timeline itself: how it is built, reset, skipped and advanced.
use vstd::prelude::*;
use crate::capability::{Completion, Diagnostic, EventSink, Interpolator, Position, TweenApplier};
use crate::duration::Duration;
use crate::progress::{Progress, RepeatTimes, TweenProgress};
use crate::timeline::{clamped, counted, eases, idle, repeat_fuel, tick, Outcome, Timeline};

verus! {

/// A timeline: a tree of leaves and combinators with their clocks.
///
/// `F` is the type of the interpolators of its leaves, `A` that of their
/// appliers and `E` that of the completion payloads. Its view is the
/// [`Timeline`] with the same shape and the same numbers.
pub enum Tween<F, A, E> {
    /// A leaf: while `elapsed` runs up to `duration`, `function` eases the
    /// position of the clock and `applier` writes the eased value.
    Once { duration: Duration, elapsed: Duration, function: F, applier: A, completed: Completion<E> },
    /// Runs `tween` as often as `times` says; `count` runs are complete.
    Repeat { tween: Box<Tween<F, A, E>>, times: RepeatTimes, count: usize, completed: Completion<E> },
    /// Runs `tweens` one after the other; `index` is the one that is active.
    Sequence { index: usize, tweens: Vec<Tween<F, A, E>>, completed: Completion<E> },
    /// Runs all of `tweens` side by side.
    Parallel { tweens: Vec<Tween<F, A, E>>, completed: Completion<E> },
    /// A leaf that lets `duration` pass and touches nothing.
    Pause { duration: Duration, elapsed: Duration, completed: Completion<E> },
}

impl<F, A, E> Tween<F, A, E> {
    /// The model of the timeline.
    pub open spec fn model(&self) -> Timeline<F, A, E>
        decreases self,
    {
        match self {
            Tween::Once { duration, elapsed, function, applier, completed } => Timeline::Once {
                duration: duration@,
                elapsed: elapsed@,
                function: *function,
                applier: *applier,
                completed: *completed,
            },
            Tween::Repeat { tween, times, count, completed } => Timeline::Repeat {
                child: Box::new(tween.model()),
                times: *times,
                count: *count as nat,
                completed: *completed,
            },
            Tween::Sequence { index, tweens, completed } => Timeline::Sequence {
                index: *index as nat,
                children: Seq::new(
                    tweens.len() as nat,
                    |i: int|
                        if 0 <= i < tweens.len() {
                            tweens[i].model()
                        } else {
                            arbitrary()
                        },
                ),
                completed: *completed,
            },
            Tween::Parallel { tweens, completed } => Timeline::Parallel {
                children: Seq::new(
                    tweens.len() as nat,
                    |i: int|
                        if 0 <= i < tweens.len() {
                            tweens[i].model()
                        } else {
                            arbitrary()
                        },
                ),
                completed: *completed,
            },
            Tween::Pause { duration, elapsed, completed } => Timeline::Pause {
                duration: duration@,
                elapsed: elapsed@,
                completed: *completed,
            },
        }
    }
}

impl<F, A, E> View for Tween<F, A, E> {
    type V = Timeline<F, A, E>;

    open spec fn view(&self) -> Timeline<F, A, E> {
        self.model()
    }
}

/// The models of the timelines in `tweens`, in the same order.
pub open spec fn views<F, A, E>(tweens: Seq<Tween<F, A, E>>) -> Seq<Timeline<F, A, E>> {
    Seq::new(tweens.len(), |i: int| tweens[i]@)
}

impl<F, A, E> Tween<F, A, E> {
    /// The children of the model are the models of the children.
    pub proof fn children_are_views(&self)
        ensures
            self matches Tween::Sequence { tweens, .. } ==> self@->Sequence_children == views(tweens@),
            self matches Tween::Parallel { tweens, .. } ==> self@->Parallel_children == views(tweens@),
    {
        match self {
            Tween::Sequence { tweens, .. } => {
                assert(self@->Sequence_children =~= views(tweens@));
            },
            Tween::Parallel { tweens, .. } => {
                assert(self@->Parallel_children =~= views(tweens@));
            },
            _ => {},
        }
    }
}

impl<F, A, E> Default for Tween<F, A, E> {
    /// A pause of no length.
    fn default() -> (tween: Self)
        ensures
            tween@ == (Timeline::<F, A, E>::Pause { duration: 0, elapsed: 0, completed: Completion::Silent }),
            tween.wf(),
            tween@.pristine(),
    {
        Tween::Pause {
            duration: Duration::zero(),
            elapsed: Duration::zero(),
            completed: Completion::Silent,
        }
    }
}

impl<F, A, E> Tween<F, A, E> {
    /// A leaf that runs for `duration` and, on every call of `advance`, has
    /// `function` ease the position of its clock and `applier` write the
    /// eased value to the target. It sends no completion event.
    pub fn new(duration: Duration, function: F, applier: A) -> (tween: Self)
        ensures
            tween@ == (Timeline::Once {
                duration: duration@,
                elapsed: 0,
                function,
                applier,
                completed: Completion::<E>::Silent,
            }),
            tween.wf(),
            tween@.pristine(),
    {
        Tween::Once {
            duration,
            elapsed: Duration::zero(),
            function,
            applier,
            completed: Completion::Silent,
        }
    }

    /// A leaf that lets `duration` pass and touches nothing.
    pub fn pause(duration: Duration) -> (tween: Self)
        ensures
            tween@ == (Timeline::<F, A, E>::Pause {
                duration: duration@,
                elapsed: 0,
                completed: Completion::Silent,
            }),
            tween.wf(),
            tween@.pristine(),
    {
        Tween::Pause { duration, elapsed: Duration::zero(), completed: Completion::Silent }
    }

    /// Runs `tween` as often as `times` says.
    pub fn repeat(times: RepeatTimes, tween: Tween<F, A, E>) -> (repeated: Self)
        ensures
            repeated@ == (Timeline::Repeat {
                child: Box::new(tween@),
                times,
                count: 0,
                completed: Completion::Silent,
            }),
            repeated.wf() == tween.wf(),
            repeated@.pristine() == tween@.pristine(),
    {
        Tween::Repeat { times, count: 0, tween: Box::new(tween), completed: Completion::Silent }
    }

    /// Runs `tweens` one after the other, starting with the first.
    pub fn sequence(tweens: Vec<Tween<F, A, E>>) -> (sequence: Self)
        ensures
            sequence@ == (Timeline::Sequence {
                index: 0,
                children: views(tweens@),
                completed: Completion::Silent,
            }),
            sequence.wf() == (forall|i: int| 0 <= i < tweens.len() ==> (#[trigger] tweens[i]).wf()),
            sequence@.pristine() == (forall|i: int|
                0 <= i < tweens.len() ==> (#[trigger] tweens[i])@.pristine()),
    {
        let sequence = Tween::Sequence { index: 0, tweens, completed: Completion::Silent };
        proof {
            sequence.children_are_views();
            assert forall|i: int| 0 <= i < tweens.len() implies (#[trigger] tweens[i]).wf() == views(
                tweens@,
            )[i].wf() by {}
            assert(sequence.wf() == (forall|i: int|
                0 <= i < tweens.len() ==> (#[trigger] views(tweens@)[i]).wf()));
            Timeline::pristine_pointwise(views(tweens@));
            assert(sequence@.fresh()->Sequence_children == Timeline::all_fresh(views(tweens@)));
            assert forall|i: int| 0 <= i < tweens.len() implies (#[trigger] tweens[i])@.pristine() == views(
                tweens@,
            )[i].pristine() by {}
            assert(sequence@.pristine() == (forall|i: int|
                0 <= i < tweens.len() ==> (#[trigger] views(tweens@)[i]).pristine()));
        }
        sequence
    }

    /// The same timeline, which now sends `event` when it completes: a call of
    /// `advance` that finds it not complete and reports `Done` adds `event`
    /// to the sink, once.
    pub fn with_completed(self, event: E) -> (tween: Self)
        ensures
            tween@ == self@.with_completed(Completion::Emit(event)),
            tween.wf() == self.wf(),
            tween@.pristine() == self@.pristine(),
    {
        proof {
            self.children_are_views();
        }
        let tween = match self {
            Tween::Once { duration, elapsed, function, applier, .. } => Tween::Once {
                duration,
                elapsed,
                function,
                applier,
                completed: Completion::Emit(event),
            },
            Tween::Pause { duration, elapsed, .. } => Tween::Pause {
                duration,
                elapsed,
                completed: Completion::Emit(event),
            },
            Tween::Repeat { tween, times, count, .. } => Tween::Repeat {
                tween,
                times,
                count,
                completed: Completion::Emit(event),
            },
            Tween::Sequence { index, tweens, .. } => Tween::Sequence {
                index,
                tweens,
                completed: Completion::Emit(event),
            },
            Tween::Parallel { tweens, .. } => Tween::Parallel {
                tweens,
                completed: Completion::Emit(event),
            },
        };
        proof {
            tween.children_are_views();
        }
        tween
    }

    /// Runs all of `tweens` side by side.
    pub fn parallel(tweens: Vec<Tween<F, A, E>>) -> (parallel: Self)
        ensures
            parallel@ == (Timeline::Parallel { children: views(tweens@), completed: Completion::Silent }),
            parallel.wf() == (forall|i: int| 0 <= i < tweens.len() ==> (#[trigger] tweens[i]).wf()),
            parallel@.pristine() == (forall|i: int|
                0 <= i < tweens.len() ==> (#[trigger] tweens[i])@.pristine()),
    {
        let parallel = Tween::Parallel { tweens, completed: Completion::Silent };
        proof {
            parallel.children_are_views();
            assert forall|i: int| 0 <= i < tweens.len() implies (#[trigger] tweens[i]).wf() == views(
                tweens@,
            )[i].wf() by {}
            assert(parallel.wf() == (forall|i: int|
                0 <= i < tweens.len() ==> (#[trigger] views(tweens@)[i]).wf()));
            Timeline::pristine_pointwise(views(tweens@));
            assert(parallel@.fresh()->Parallel_children == Timeline::all_fresh(views(tweens@)));
            assert forall|i: int| 0 <= i < tweens.len() implies (#[trigger] tweens[i])@.pristine() == views(
                tweens@,
            )[i].pristine() by {}
            assert(parallel@.pristine() == (forall|i: int|
                0 <= i < tweens.len() ==> (#[trigger] views(tweens@)[i]).pristine()));
        }
        parallel
    }
}

impl<F, A, E> Tween<F, A, E> {
    /// Whether the invariant of the timeline holds: see [`Timeline::wf`].
    pub open spec fn wf(&self) -> bool {
        self@.wf()
    }

    /// Takes the timeline back to its start: clocks and counters to 0,
    /// cursors to the first child.
    ///
    /// A sequence resets the children before its cursor, and no others.
    pub fn reset(&mut self)
        ensures
            final(self)@ == old(self)@.reset(),
            old(self).wf() ==> final(self).wf(),
        decreases old(self)@.size(),
    {
        proof {
            self@.reset_keeps_shape();
        }
        match self {
            Tween::Once { elapsed, .. } => {
                *elapsed = Duration::zero();
            },
            Tween::Pause { elapsed, .. } => {
                *elapsed = Duration::zero();
            },
            Tween::Repeat { tween, count, .. } => {
                *count = 0;
                tween.reset();
            },
            Tween::Sequence { index, tweens, .. } => {
                let ghost before = views(tweens@);
                assert(before =~= old(self)@->Sequence_children);
                let mut i: usize = 0;
                while i < tweens.len() && i < *index
                    invariant
                        before.len() == tweens.len(),
                        i <= tweens.len(),
                        *index == old(self)->index,
                        i <= *index,
                        1 + Timeline::total_size(before) == old(self)@.size(),
                        forall|j: int| 0 <= j < i ==> (#[trigger] tweens[j])@ == before[j].reset(),
                        forall|j: int| i <= j < tweens.len() ==> (#[trigger] tweens[j])@ == before[j],
                    decreases tweens.len() - i,
                {
                    proof {
                        Timeline::member_size(before, i as int);
                    }
                    tweens[i].reset();
                    i += 1;
                }
                assert(views(tweens@) =~= old(self)@.reset()->Sequence_children);
                *index = 0;
            },
            Tween::Parallel { tweens, .. } => {
                let ghost before = views(tweens@);
                assert(before =~= old(self)@->Parallel_children);
                let mut i: usize = 0;
                while i < tweens.len()
                    invariant
                        before.len() == tweens.len(),
                        i <= tweens.len(),
                        1 + Timeline::total_size(before) == old(self)@.size(),
                        forall|j: int| 0 <= j < i ==> (#[trigger] tweens[j])@ == before[j].reset(),
                        forall|j: int| i <= j < tweens.len() ==> (#[trigger] tweens[j])@ == before[j],
                    decreases tweens.len() - i,
                {
                    proof {
                        Timeline::member_size(before, i as int);
                    }
                    tweens[i].reset();
                    i += 1;
                }
                assert(views(tweens@) =~= old(self)@.reset()->Parallel_children);
            },
        }
        proof {
            self.children_are_views();
        }
    }
}

/// Makes a leaf of an applier: `applier.tween(duration, function)` is
/// `Tween::new(duration, function, applier)`.
pub trait ToTween<T, F: Interpolator, E>: TweenApplier<T, F::Value> {
    fn tween(self, duration: Duration, function: F) -> (tween: Tween<F, Self, E>)
        ensures
            tween@ == (Timeline::Once {
                duration: duration@,
                elapsed: 0,
                function,
                applier: self,
                completed: Completion::<E>::Silent,
            }),
            tween.wf(),
            tween@.pristine(),
    ;
}

impl<T, F: Interpolator, E, A: TweenApplier<T, F::Value>> ToTween<T, F, E> for A {
    fn tween(self, duration: Duration, function: F) -> (tween: Tween<F, Self, E>) {
        Tween::new(duration, function, self)
    }
}

/// Moves the clock of a leaf on by `dt` and says what the leaf reports.
fn tick_clock(elapsed: &mut Duration, duration: Duration, dt: Duration) -> (progress: TweenProgress)
    requires
        old(elapsed)@ <= duration@,
    ensures
        final(elapsed)@ == clamped(old(elapsed)@, duration@, dt@),
        progress@ == tick(old(elapsed)@, duration@, dt@),
{
    let remaining: u128 = duration.nanos - elapsed.nanos;
    if dt.nanos >= remaining {
        *elapsed = duration;
        TweenProgress::Done { surplus: Duration { nanos: dt.nanos - remaining } }
    } else {
        *elapsed = Duration { nanos: elapsed.nanos + dt.nanos };
        TweenProgress::Running
    }
}

impl<F, A, E> Tween<F, A, E> {
    /// Moves the timeline on by `duration` without touching any target and
    /// without sending anything: clocks, counters and cursors end where
    /// `advance` would leave them, and the same progress is reported.
    #[verifier::loop_isolation(false)]
    pub fn skip(&mut self, duration: Duration) -> (progress: TweenProgress)
        requires
            old(self).wf(),
        ensures
            final(self)@ == old(self)@.skipped(duration@).node,
            progress@ == old(self)@.skipped(duration@).progress,
            final(self).wf(),
            progress@ matches Progress::Done { surplus } ==> {
                &&& surplus <= duration@
                &&& final(self)@.complete()
            },
        decreases old(self)@.size(),
    {
        let ghost start = self@;
        let ghost bound = start.size();
        proof {
            self.children_are_views();
            start.run_keeps_shape((), duration@, idle::<F, A>(), false);
            start.run_settles((), duration@, idle::<F, A>(), false);
        }
        match self {
            Tween::Once { duration: total, elapsed, .. } => tick_clock(elapsed, *total, duration),
            Tween::Pause { duration: total, elapsed, .. } => tick_clock(elapsed, *total, duration),
            Tween::Repeat { tween, times, count, completed } => {
                let ghost goal = Timeline::run_repeat(
                    bound,
                    tween@,
                    *times,
                    *count as nat,
                    *completed,
                    (),
                    duration@,
                    idle::<F, A>(),
                    false,
                );
                let ghost mut events: Seq<E> = Seq::empty();
                let ghost mut diagnostics: Seq<Diagnostic> = Seq::empty();
                let mut left = duration;
                proof {
                    goal.after_joins(events, diagnostics, events, diagnostics);
                }
                loop
                    invariant
                        tween@.wf(),
                        tween@.size() < bound,
                        goal == Timeline::run_repeat(
                            bound,
                            tween@,
                            *times,
                            *count as nat,
                            *completed,
                            (),
                            left@,
                            idle::<F, A>(),
                            false,
                        ).after(events, diagnostics),
                    decreases repeat_fuel(*times, *count as nat, left@),
                {
                    let exhausted = match times {
                        RepeatTimes::N(amount) => *count >= *amount,
                        RepeatTimes::Infinite => false,
                    };
                    if exhausted {
                        return TweenProgress::Done { surplus: left };
                    }
                    let ghost child = tween@;
                    let ghost ran = child.run((), left@, idle::<F, A>(), false);
                    let result = tween.skip(left);
                    proof {
                        child.run_keeps_shape((), left@, idle::<F, A>(), false);
                    }
                    match result {
                        TweenProgress::Done { surplus } => {
                            if *count < usize::MAX {
                                *count += 1;
                            }
                            let endless = match times {
                                RepeatTimes::N(_) => false,
                                RepeatTimes::Infinite => true,
                            };
                            if endless && left.nanos <= surplus.nanos {
                                return TweenProgress::Running;
                            }
                            proof {
                                ran.node.reset_keeps_shape();
                                Timeline::run_repeat(
                                    bound,
                                    ran.node.reset(),
                                    *times,
                                    *count as nat,
                                    *completed,
                                    (),
                                    surplus@,
                                    idle::<F, A>(),
                                    false,
                                ).after_joins(ran.events, ran.diagnostics, events, diagnostics);
                                events = events + ran.events;
                                diagnostics = diagnostics + ran.diagnostics;
                            }
                            left = surplus;
                            tween.reset();
                        },
                        TweenProgress::Running => {
                            return TweenProgress::Running;
                        },
                    }
                }
            },
            Tween::Sequence { index, tweens, completed } => {
                let ghost goal = Timeline::run_sequence(
                    bound,
                    views(tweens@),
                    *index as nat,
                    *completed,
                    (),
                    duration@,
                    idle::<F, A>(),
                    false,
                );
                let ghost mut events: Seq<E> = Seq::empty();
                let ghost mut diagnostics: Seq<Diagnostic> = Seq::empty();
                let mut left = duration;
                proof {
                    goal.after_joins(events, diagnostics, events, diagnostics);
                    assert forall|j: int| 0 <= j < tweens.len() implies (#[trigger] tweens[j])@.size()
                        < bound && tweens[j]@.wf() by {
                        Timeline::member_size(views(tweens@), j);
                        assert(views(tweens@)[j].wf());
                    }
                }
                while *index < tweens.len()
                    invariant
                        *index <= tweens.len(),
                        forall|j: int| 0 <= j < tweens.len() ==> (#[trigger] tweens[j])@.wf(),
                        forall|j: int| 0 <= j < tweens.len() ==> (#[trigger] tweens[j])@.size() < bound,
                        goal == Timeline::run_sequence(
                            bound,
                            views(tweens@),
                            *index as nat,
                            *completed,
                            (),
                            left@,
                            idle::<F, A>(),
                            false,
                        ).after(events, diagnostics),
                    decreases tweens.len() - *index,
                {
                    let ghost children = views(tweens@);
                    let ghost child = tweens[*index as int]@;
                    let ghost ran = child.run((), left@, idle::<F, A>(), false);
                    let result = tweens[*index].skip(left);
                    proof {
                        child.run_keeps_shape((), left@, idle::<F, A>(), false);
                        assert(views(tweens@) =~= children.update(*index as int, ran.node));
                    }
                    match result {
                        TweenProgress::Done { surplus } => {
                            proof {
                                Timeline::run_sequence(
                                    bound,
                                    views(tweens@),
                                    (*index + 1) as nat,
                                    *completed,
                                    (),
                                    surplus@,
                                    idle::<F, A>(),
                                    false,
                                ).after_joins(ran.events, ran.diagnostics, events, diagnostics);
                                events = events + ran.events;
                                diagnostics = diagnostics + ran.diagnostics;
                            }
                            *index += 1;
                            left = surplus;
                        },
                        TweenProgress::Running => {
                            proof {
                                (Tween::Sequence {
                                    index: *index,
                                    tweens: *tweens,
                                    completed: *completed,
                                }).children_are_views();
                            }
                            return TweenProgress::Running;
                        },
                    }
                }
                proof {
                    (Tween::Sequence {
                        index: *index,
                        tweens: *tweens,
                        completed: *completed,
                    }).children_are_views();
                }
                TweenProgress::Done { surplus: left }
            },
            Tween::Parallel { tweens, completed } => {
                let ghost goal = Timeline::run_parallel(
                    bound,
                    views(tweens@),
                    0,
                    Progress::Done { surplus: duration@ },
                    *completed,
                    (),
                    duration@,
                    idle::<F, A>(),
                    false,
                );
                let ghost mut events: Seq<E> = Seq::empty();
                let ghost mut diagnostics: Seq<Diagnostic> = Seq::empty();
                let mut overall = TweenProgress::Done { surplus: duration };
                let mut i: usize = 0;
                proof {
                    goal.after_joins(events, diagnostics, events, diagnostics);
                    assert forall|j: int| 0 <= j < tweens.len() implies (#[trigger] tweens[j])@.size()
                        < bound && tweens[j]@.wf() by {
                        Timeline::member_size(views(tweens@), j);
                        assert(views(tweens@)[j].wf());
                    }
                }
                while i < tweens.len()
                    invariant
                        i <= tweens.len(),
                        forall|j: int| 0 <= j < tweens.len() ==> (#[trigger] tweens[j])@.wf(),
                        forall|j: int| 0 <= j < tweens.len() ==> (#[trigger] tweens[j])@.size() < bound,
                        goal == Timeline::run_parallel(
                            bound,
                            views(tweens@),
                            i as nat,
                            overall@,
                            *completed,
                            (),
                            duration@,
                            idle::<F, A>(),
                            false,
                        ).after(events, diagnostics),
                    decreases tweens.len() - i,
                {
                    let ghost children = views(tweens@);
                    let ghost child = tweens[i as int]@;
                    let ghost ran = child.run((), duration@, idle::<F, A>(), false);
                    let result = tweens[i].skip(duration);
                    proof {
                        child.run_keeps_shape((), duration@, idle::<F, A>(), false);
                        assert(views(tweens@) =~= children.update(i as int, ran.node));
                        Timeline::run_parallel(
                            bound,
                            views(tweens@),
                            (i + 1) as nat,
                            overall@.meet(ran.progress),
                            *completed,
                            (),
                            duration@,
                            idle::<F, A>(),
                            false,
                        ).after_joins(ran.events, ran.diagnostics, events, diagnostics);
                        events = events + ran.events;
                        diagnostics = diagnostics + ran.diagnostics;
                    }
                    overall = meet(overall, result);
                    i += 1;
                }
                proof {
                    (Tween::Parallel { tweens: *tweens, completed: *completed }).children_are_views();
                }
                overall
            },
        }
    }
}

impl<F, A, E> Tween<F, A, E> {
    /// The completion payload of the node itself.
    pub fn completed(&self) -> (completed: &Completion<E>)
        ensures
            *completed == self@.completed(),
    {
        match self {
            Tween::Once { completed, .. } => completed,
            Tween::Pause { completed, .. } => completed,
            Tween::Repeat { completed, .. } => completed,
            Tween::Sequence { completed, .. } => completed,
            Tween::Parallel { completed, .. } => completed,
        }
    }

    /// Whether the invariant of the timeline holds. A timeline that was built
    /// by the functions of this type and driven by its methods is well
    /// formed; one whose fields were written to may not be.
    #[verifier::loop_isolation(false)]
    pub fn is_well_formed(&self) -> (ok: bool)
        ensures
            ok == self.wf(),
        decreases self@.size(),
    {
        proof {
            self.children_are_views();
        }
        match self {
            Tween::Once { duration, elapsed, .. } => elapsed.nanos <= duration.nanos,
            Tween::Pause { duration, elapsed, .. } => elapsed.nanos <= duration.nanos,
            Tween::Repeat { tween, .. } => tween.is_well_formed(),
            Tween::Sequence { index, tweens, .. } => {
                if *index > tweens.len() {
                    return false;
                }
                let mut i: usize = 0;
                while i < tweens.len()
                    invariant
                        i <= tweens.len(),
                        forall|j: int| 0 <= j < i ==> (#[trigger] views(tweens@)[j]).wf(),
                    decreases tweens.len() - i,
                {
                    proof {
                        Timeline::member_size(views(tweens@), i as int);
                    }
                    if !tweens[i].is_well_formed() {
                        assert(!views(tweens@)[i as int].wf());
                        return false;
                    }
                    i += 1;
                }
                true
            },
            Tween::Parallel { tweens, .. } => {
                let mut i: usize = 0;
                while i < tweens.len()
                    invariant
                        i <= tweens.len(),
                        forall|j: int| 0 <= j < i ==> (#[trigger] views(tweens@)[j]).wf(),
                    decreases tweens.len() - i,
                {
                    proof {
                        Timeline::member_size(views(tweens@), i as int);
                    }
                    if !tweens[i].is_well_formed() {
                        assert(!views(tweens@)[i as int].wf());
                        return false;
                    }
                    i += 1;
                }
                true
            },
        }
    }

    /// Whether the timeline has reached its end: see [`Timeline::complete`].
    #[verifier::loop_isolation(false)]
    pub fn is_complete(&self) -> (complete: bool)
        ensures
            complete == self@.complete(),
        decreases self@.size(),
    {
        proof {
            self.children_are_views();
        }
        match self {
            Tween::Once { duration, elapsed, .. } => elapsed.nanos >= duration.nanos,
            Tween::Pause { duration, elapsed, .. } => elapsed.nanos >= duration.nanos,
            Tween::Repeat { times, count, .. } => match times {
                RepeatTimes::N(amount) => *count >= *amount,
                RepeatTimes::Infinite => false,
            },
            Tween::Sequence { index, tweens, .. } => *index >= tweens.len(),
            Tween::Parallel { tweens, .. } => {
                let mut i: usize = 0;
                while i < tweens.len()
                    invariant
                        i <= tweens.len(),
                        self@->Parallel_children == views(tweens@),
                        forall|j: int| 0 <= j < i ==> (#[trigger] views(tweens@)[j]).complete(),
                    decreases tweens.len() - i,
                {
                    proof {
                        Timeline::member_size(views(tweens@), i as int);
                    }
                    if !tweens[i].is_complete() {
                        assert(!views(tweens@)[i as int].complete());
                        return false;
                    }
                    i += 1;
                }
                true
            },
        }
    }

    /// Moves the timeline on by `duration`, writes to `target` through the
    /// leaves that the call reaches, and leaves its signals in `sink`.
    ///
    /// What the call does is [`Timeline::advanced`]: the timeline and the
    /// target end as it says, the events and diagnostics that it lists are
    /// added to the sink in its order, and its progress is returned.
    pub fn advance<T>(
        &mut self,
        target: &mut T,
        sink: &mut EventSink<E>,
        duration: Duration,
    ) -> (progress: TweenProgress) where F: Interpolator, A: TweenApplier<T, F::Value>, E: Copy
        requires
            old(self).wf(),
        ensures
            final(self)@ == old(self)@.advanced(*old(target), duration@).node,
            *final(target) == old(self)@.advanced(*old(target), duration@).target,
            final(sink).events@ == old(sink).events@ + old(self)@.advanced(
                *old(target),
                duration@,
            ).events,
            final(sink).diagnostics@ == old(sink).diagnostics@ + old(self)@.advanced(
                *old(target),
                duration@,
            ).diagnostics,
            progress@ == old(self)@.advanced(*old(target), duration@).progress,
            final(self).wf(),
            progress@ matches Progress::Done { surplus } ==> {
                &&& surplus <= duration@
                &&& final(self)@.complete()
            },
        decreases old(self)@.size(), 1nat,
    {
        let ghost driven = self@.drive(*target, duration@, eases::<T, F, A>(), true);
        proof {
            self@.run_settles(*target, duration@, eases::<T, F, A>(), true);
        }
        let payload = match self.completed() {
            Completion::Silent => None,
            Completion::Emit(event) => if self.is_complete() {
                None
            } else {
                Some(*event)
            },
        };
        let progress = self.drive(target, sink, duration);
        if progress.is_done() {
            if let Some(event) = payload {
                sink.events.push(event);
                assert(sink.events@ =~= old(sink).events@ + (driven.events + seq![event]));
            }
        }
        assert(driven.events + Seq::<E>::empty() =~= driven.events);
        progress
    }

    /// `advance` but for the node's own payload: see [`Timeline::drive`].
    #[verifier::loop_isolation(false)]
    fn drive<T>(
        &mut self,
        target: &mut T,
        sink: &mut EventSink<E>,
        duration: Duration,
    ) -> (progress: TweenProgress) where F: Interpolator, A: TweenApplier<T, F::Value>, E: Copy
        requires
            old(self).wf(),
        ensures
            final(self)@ == old(self)@.drive(*old(target), duration@, eases::<T, F, A>(), true).node,
            *final(target) == old(self)@.drive(
                *old(target),
                duration@,
                eases::<T, F, A>(),
                true,
            ).target,
            final(sink).events@ == old(sink).events@ + old(self)@.drive(
                *old(target),
                duration@,
                eases::<T, F, A>(),
                true,
            ).events,
            final(sink).diagnostics@ == old(sink).diagnostics@ + old(self)@.drive(
                *old(target),
                duration@,
                eases::<T, F, A>(),
                true,
            ).diagnostics,
            progress@ == old(self)@.drive(*old(target), duration@, eases::<T, F, A>(), true).progress,
            final(self).wf(),
        decreases old(self)@.size(), 0nat,
    {
        let ghost start = self@;
        let ghost bound = start.size();
        let ghost effect = eases::<T, F, A>();
        let ghost sent = sink.events@;
        let ghost reported = sink.diagnostics@;
        proof {
            self.children_are_views();
            start.run_keeps_shape(*target, duration@, effect, true);
            assert(sent + Seq::<E>::empty() =~= sent);
            assert(reported + Seq::<Diagnostic>::empty() =~= reported);
        }
        match self {
            Tween::Once { duration: total, elapsed, function, applier, .. } => {
                let progress = tick_clock(elapsed, *total, duration);
                let value = function.interpolate(Position { elapsed: *elapsed, duration: *total });
                applier.apply(target, value);
                progress
            },
            Tween::Pause { duration: total, elapsed, .. } => tick_clock(elapsed, *total, duration),
            Tween::Repeat { tween, times, count, completed } => {
                let ghost goal = Timeline::run_repeat(
                    bound,
                    tween@,
                    *times,
                    *count as nat,
                    *completed,
                    *target,
                    duration@,
                    effect,
                    true,
                );
                let ghost mut events: Seq<E> = Seq::empty();
                let ghost mut diagnostics: Seq<Diagnostic> = Seq::empty();
                let mut left = duration;
                proof {
                    goal.after_joins(events, diagnostics, events, diagnostics);
                }
                loop
                    invariant
                        tween@.wf(),
                        tween@.size() < bound,
                        sink.events@ == sent + events,
                        sink.diagnostics@ == reported + diagnostics,
                        goal == Timeline::run_repeat(
                            bound,
                            tween@,
                            *times,
                            *count as nat,
                            *completed,
                            *target,
                            left@,
                            effect,
                            true,
                        ).after(events, diagnostics),
                    decreases repeat_fuel(*times, *count as nat, left@),
                {
                    let exhausted = match times {
                        RepeatTimes::N(amount) => *count >= *amount,
                        RepeatTimes::Infinite => false,
                    };
                    if exhausted {
                        proof {
                            assert(events + Seq::<E>::empty() =~= events);
                            assert(diagnostics + Seq::<Diagnostic>::empty() =~= diagnostics);
                        }
                        return TweenProgress::Done { surplus: left };
                    }
                    let ghost child = tween@;
                    let ghost ran = child.run(*target, left@, effect, true);
                    let result = tween.advance(target, sink, left);
                    proof {
                        child.run_keeps_shape(*old(target), left@, effect, true);
                        assert(sink.events@ =~= sent + (events + ran.events));
                        assert(sink.diagnostics@ =~= reported + (diagnostics + ran.diagnostics));
                    }
                    match result {
                        TweenProgress::Done { surplus } => {
                            if *count < usize::MAX {
                                *count += 1;
                            }
                            let endless = match times {
                                RepeatTimes::N(_) => false,
                                RepeatTimes::Infinite => true,
                            };
                            if endless && left.nanos <= surplus.nanos {
                                sink.diagnostics.push(Diagnostic::ZeroProgressRepeat);
                                proof {
                                    assert(sink.diagnostics@ =~= reported + (diagnostics
                                        + ran.diagnostics.push(Diagnostic::ZeroProgressRepeat)));
                                }
                                return TweenProgress::Running;
                            }
                            proof {
                                ran.node.reset_keeps_shape();
                                Timeline::run_repeat(
                                    bound,
                                    ran.node.reset(),
                                    *times,
                                    *count as nat,
                                    *completed,
                                    ran.target,
                                    surplus@,
                                    effect,
                                    true,
                                ).after_joins(ran.events, ran.diagnostics, events, diagnostics);
                                events = events + ran.events;
                                diagnostics = diagnostics + ran.diagnostics;
                            }
                            left = surplus;
                            tween.reset();
                        },
                        TweenProgress::Running => {
                            return TweenProgress::Running;
                        },
                    }
                }
            },
            Tween::Sequence { index, tweens, completed } => {
                let ghost goal = Timeline::run_sequence(
                    bound,
                    views(tweens@),
                    *index as nat,
                    *completed,
                    *target,
                    duration@,
                    effect,
                    true,
                );
                let ghost mut events: Seq<E> = Seq::empty();
                let ghost mut diagnostics: Seq<Diagnostic> = Seq::empty();
                let mut left = duration;
                proof {
                    goal.after_joins(events, diagnostics, events, diagnostics);
                    assert forall|j: int| 0 <= j < tweens.len() implies (#[trigger] tweens[j])@.size()
                        < bound && tweens[j]@.wf() by {
                        Timeline::member_size(views(tweens@), j);
                        assert(views(tweens@)[j].wf());
                    }
                }
                while *index < tweens.len()
                    invariant
                        *index <= tweens.len(),
                        forall|j: int| 0 <= j < tweens.len() ==> (#[trigger] tweens[j])@.wf(),
                        forall|j: int| 0 <= j < tweens.len() ==> (#[trigger] tweens[j])@.size() < bound,
                        sink.events@ == sent + events,
                        sink.diagnostics@ == reported + diagnostics,
                        goal == Timeline::run_sequence(
                            bound,
                            views(tweens@),
                            *index as nat,
                            *completed,
                            *target,
                            left@,
                            effect,
                            true,
                        ).after(events, diagnostics),
                    decreases tweens.len() - *index,
                {
                    let ghost children = views(tweens@);
                    let ghost child = tweens[*index as int]@;
                    let ghost ran = child.run(*target, left@, effect, true);
                    let ghost target_before = *target;
                    let result = tweens[*index].advance(target, sink, left);
                    proof {
                        child.run_keeps_shape(target_before, left@, effect, true);
                        assert(views(tweens@) =~= children.update(*index as int, ran.node));
                        assert(sink.events@ =~= sent + (events + ran.events));
                        assert(sink.diagnostics@ =~= reported + (diagnostics + ran.diagnostics));
                    }
                    match result {
                        TweenProgress::Done { surplus } => {
                            proof {
                                Timeline::run_sequence(
                                    bound,
                                    views(tweens@),
                                    (*index + 1) as nat,
                                    *completed,
                                    ran.target,
                                    surplus@,
                                    effect,
                                    true,
                                ).after_joins(ran.events, ran.diagnostics, events, diagnostics);
                                events = events + ran.events;
                                diagnostics = diagnostics + ran.diagnostics;
                            }
                            *index += 1;
                            left = surplus;
                        },
                        TweenProgress::Running => {
                            proof {
                                (Tween::Sequence {
                                    index: *index,
                                    tweens: *tweens,
                                    completed: *completed,
                                }).children_are_views();
                            }
                            return TweenProgress::Running;
                        },
                    }
                }
                proof {
                    (Tween::Sequence {
                        index: *index,
                        tweens: *tweens,
                        completed: *completed,
                    }).children_are_views();
                    assert(events + Seq::<E>::empty() =~= events);
                    assert(diagnostics + Seq::<Diagnostic>::empty() =~= diagnostics);
                }
                TweenProgress::Done { surplus: left }
            },
            Tween::Parallel { tweens, completed } => {
                let ghost goal = Timeline::run_parallel(
                    bound,
                    views(tweens@),
                    0,
                    Progress::Done { surplus: duration@ },
                    *completed,
                    *target,
                    duration@,
                    effect,
                    true,
                );
                let ghost mut events: Seq<E> = Seq::empty();
                let ghost mut diagnostics: Seq<Diagnostic> = Seq::empty();
                let mut overall = TweenProgress::Done { surplus: duration };
                let mut i: usize = 0;
                proof {
                    goal.after_joins(events, diagnostics, events, diagnostics);
                    assert forall|j: int| 0 <= j < tweens.len() implies (#[trigger] tweens[j])@.size()
                        < bound && tweens[j]@.wf() by {
                        Timeline::member_size(views(tweens@), j);
                        assert(views(tweens@)[j].wf());
                    }
                }
                while i < tweens.len()
                    invariant
                        i <= tweens.len(),
                        forall|j: int| 0 <= j < tweens.len() ==> (#[trigger] tweens[j])@.wf(),
                        forall|j: int| 0 <= j < tweens.len() ==> (#[trigger] tweens[j])@.size() < bound,
                        sink.events@ == sent + events,
                        sink.diagnostics@ == reported + diagnostics,
                        goal == Timeline::run_parallel(
                            bound,
                            views(tweens@),
                            i as nat,
                            overall@,
                            *completed,
                            *target,
                            duration@,
                            effect,
                            true,
                        ).after(events, diagnostics),
                    decreases tweens.len() - i,
                {
                    let ghost children = views(tweens@);
                    let ghost child = tweens[i as int]@;
                    let ghost ran = child.run(*target, duration@, effect, true);
                    let ghost target_before = *target;
                    let result = tweens[i].advance(target, sink, duration);
                    proof {
                        child.run_keeps_shape(target_before, duration@, effect, true);
                        assert(views(tweens@) =~= children.update(i as int, ran.node));
                        assert(sink.events@ =~= sent + (events + ran.events));
                        assert(sink.diagnostics@ =~= reported + (diagnostics + ran.diagnostics));
                        Timeline::run_parallel(
                            bound,
                            views(tweens@),
                            (i + 1) as nat,
                            overall@.meet(ran.progress),
                            *completed,
                            ran.target,
                            duration@,
                            effect,
                            true,
                        ).after_joins(ran.events, ran.diagnostics, events, diagnostics);
                        events = events + ran.events;
                        diagnostics = diagnostics + ran.diagnostics;
                    }
                    overall = meet(overall, result);
                    i += 1;
                }
                proof {
                    (Tween::Parallel { tweens: *tweens, completed: *completed }).children_are_views();
                    assert(events + Seq::<E>::empty() =~= events);
                    assert(diagnostics + Seq::<Diagnostic>::empty() =~= diagnostics);
                }
                overall
            },
        }
    }
}

impl<F: Clone, A: Clone, E: Clone> Tween<F, A, E> {
    /// A copy of the timeline in the state in which it is: same shape, same
    /// durations, same clocks, counters and cursors, with a clone of each
    /// capability and payload.
    pub fn duplicate(&self) -> (copy: Self)
        ensures
            copy@.clocks() == self@.clocks(),
            copy.wf() == self.wf(),
            copy@.complete() == self@.complete(),
        decreases self@.size(), 0nat,
    {
        proof {
            self.children_are_views();
        }
        let copy = match self {
            Tween::Once { duration, elapsed, function, applier, completed } => Tween::Once {
                duration: *duration,
                elapsed: *elapsed,
                function: function.clone(),
                applier: applier.clone(),
                completed: completed.clone(),
            },
            Tween::Pause { duration, elapsed, completed } => Tween::Pause {
                duration: *duration,
                elapsed: *elapsed,
                completed: completed.clone(),
            },
            Tween::Repeat { tween, times, count, completed } => Tween::Repeat {
                tween: Box::new(tween.duplicate()),
                times: *times,
                count: *count,
                completed: completed.clone(),
            },
            Tween::Sequence { index, tweens, completed } => Tween::Sequence {
                index: *index,
                tweens: duplicates(tweens),
                completed: completed.clone(),
            },
            Tween::Parallel { tweens, completed } => Tween::Parallel {
                tweens: duplicates(tweens),
                completed: completed.clone(),
            },
        };
        proof {
            copy.children_are_views();
            copy@.clocks_keep_shape();
            self@.clocks_keep_shape();
        }
        copy
    }
}

/// A copy of each timeline of `tweens`, in the same order.
fn duplicates<F: Clone, A: Clone, E: Clone>(tweens: &Vec<Tween<F, A, E>>) -> (copies: Vec<Tween<F, A, E>>)
    ensures
        Timeline::clocks_of(views(copies@)) == Timeline::clocks_of(views(tweens@)),
    decreases Timeline::total_size(views(tweens@)), 1nat,
{
    let mut copies: Vec<Tween<F, A, E>> = Vec::new();
    let mut i: usize = 0;
    while i < tweens.len()
        invariant
            i <= tweens.len(),
            copies.len() == i,
            forall|j: int| 0 <= j < i ==> (#[trigger] copies[j])@.clocks() == tweens[j]@.clocks(),
        decreases tweens.len() - i,
    {
        proof {
            Timeline::member_size(views(tweens@), i as int);
        }
        copies.push(tweens[i].duplicate());
        i += 1;
    }
    proof {
        Timeline::clocks_keep_shapes(views(copies@));
        Timeline::clocks_keep_shapes(views(tweens@));
        assert(Timeline::clocks_of(views(copies@)) =~= Timeline::clocks_of(views(tweens@)));
    }
    copies
}

impl<F: Clone, A: Clone, E: Clone> Clone for Tween<F, A, E> {
    fn clone(&self) -> (copy: Self)
        ensures
            copy@.clocks() == self@.clocks(),
            copy.wf() == self.wf(),
            copy@.complete() == self@.complete(),
    {
        self.duplicate()
    }
}

/// The progress of a group whose members report `ours` and `theirs`.
fn meet(ours: TweenProgress, theirs: TweenProgress) -> (both: TweenProgress)
    ensures
        both@ == ours@.meet(theirs@),
{
    match (ours, theirs) {
        (TweenProgress::Done { surplus: a }, TweenProgress::Done { surplus: b }) => TweenProgress::Done {
            surplus: if a.nanos <= b.nanos {
                a
            } else {
                b
            },
        },
        _ => TweenProgress::Running,
    }
}

} // verus!
