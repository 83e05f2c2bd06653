//! What holds of every timeline, stated over [`Timeline::advanced`] and
//! [`Timeline::skipped`] and proved from their definitions.
use vstd::prelude::*;
use vstd::arithmetic::div_mod::{
    lemma_fundamental_div_mod, lemma_fundamental_div_mod_converse, lemma_mod_bound,
};
use crate::capability::{Completion, Diagnostic, Interpolator, Position, TweenApplier};
use crate::progress::{Progress, RepeatTimes};
use crate::span::less;
use crate::timeline::{clamped, counted, eases, idle, repeat_fuel, tick, Effect, Outcome, Timeline};

verus! {

impl<F: Interpolator, A, E> Timeline<F, A, E> {
    /// `advance` and `skip` keep the same time: on the same timeline and the
    /// same input they report the same progress and leave the same clocks,
    /// counters and cursors, whatever the target is and whatever the
    /// capabilities do.
    pub proof fn advance_keeps_time_with_skip<T>(self, target: T, dt: nat) where
        A: TweenApplier<T, F::Value>,

        ensures
            self.advanced(target, dt).progress == self.skipped(dt).progress,
            self.advanced(target, dt).node.clocks() == self.skipped(dt).node.clocks(),
    {
        self.run_by_clocks(target, dt, eases::<T, F, A>(), true);
        self.run_by_clocks((), dt, idle::<F, A>(), false);
    }

    /// The surplus is part of the input: a well-formed timeline that reports
    /// `Done` reports no more surplus than the time that came in.
    pub proof fn surplus_within_input<T>(self, target: T, dt: nat) where A: TweenApplier<T, F::Value>
        requires
            self.wf(),
        ensures
            self.advanced(target, dt).progress matches Progress::Done { surplus } ==> surplus <= dt,
            self.skipped(dt).progress matches Progress::Done { surplus } ==> surplus <= dt,
    {
        self.run_settles(target, dt, eases::<T, F, A>(), true);
        self.run_settles((), dt, idle::<F, A>(), false);
    }

    /// A completion event is sent once for each time that its node
    /// completes.
    ///
    /// The call of `advance` that takes a well-formed timeline from not
    /// complete to `Done` sends the payload of the root, after everything
    /// that the nodes below sent in that call, and leaves the timeline
    /// complete. A call that reports `Running` sends nothing for the root. A
    /// call that finds the timeline complete reports `Done` with all of its
    /// input as surplus, moves no clock and sends nothing at all, so the
    /// calls that follow a completion send nothing until the timeline is
    /// reset.
    pub proof fn completion_is_sent_once<T>(self, target: T, dt: nat) where
        A: TweenApplier<T, F::Value>,

        requires
            self.wf(),
        ensures
            ({
                let outcome = self.advanced(target, dt);
                let below = self.drive(target, dt, eases::<T, F, A>(), true);
                &&& outcome.events == below.events + (if !self.complete() && outcome.progress is Done {
                    self.completed().payload()
                } else {
                    Seq::empty()
                })
                &&& outcome.progress is Done ==> outcome.node.complete()
                &&& self.complete() ==> {
                    &&& outcome.progress == Progress::Done { surplus: dt }
                    &&& outcome.events == Seq::<E>::empty()
                    &&& outcome.diagnostics == Seq::<Diagnostic>::empty()
                    &&& outcome.node.clocks() == self.clocks()
                }
            }),
    {
        self.run_settles(target, dt, eases::<T, F, A>(), true);
        let below = self.drive(target, dt, eases::<T, F, A>(), true);
        assert(below.events + Seq::<E>::empty() =~= below.events);
    }

    /// A `Once` leaf whose clock reaches its end, or stood there already, is
    /// done with what the input exceeds the end by, stands at its duration,
    /// and has written to the target what its applier makes of the eased end
    /// position. The same holds of every later call, since the leaf then
    /// stands at its end.
    pub proof fn once_ends_on_its_last_value<T>(self, target: T, dt: nat) where
        A: TweenApplier<T, F::Value>,

        requires
            self is Once,
            self.wf(),
            self->Once_elapsed + dt >= self->Once_duration,
        ensures
            ({
                let outcome = self.advanced(target, dt);
                let value = self->function.eased(Position::end(self->Once_duration));
                &&& outcome.progress == Progress::Done {
                    surplus: (self->Once_elapsed + dt - self->Once_duration) as nat,
                }
                &&& outcome.target == self->applier.applied(target, value)
                &&& outcome.node == Timeline::Once {
                    duration: self->Once_duration,
                    elapsed: self->Once_duration,
                    function: self->function,
                    applier: self->applier.afterwards(target, value),
                    completed: self->Once_completed,
                }
            }),
    {
    }
}

impl<F, A, E> Timeline<F, A, E> {
    /// `skip` touches nothing but time: it sends no event and reports no
    /// diagnostic.
    pub proof fn skip_is_quiet(self, dt: nat)
        requires
            self.wf(),
        ensures
            self.skipped(dt).events == Seq::<E>::empty(),
            self.skipped(dt).diagnostics == Seq::<Diagnostic>::empty(),
    {
        self.run_settles((), dt, idle::<F, A>(), false);
    }
}

/// The sum of the inputs of a run of calls.
pub open spec fn total(dts: Seq<nat>) -> nat
    decreases dts.len(),
{
    if dts.len() == 0 {
        0
    } else {
        total(dts.drop_last()) + dts.last()
    }
}

impl<F, A, E> Timeline<F, A, E> {
    /// Whether the timeline is a leaf.
    pub open spec fn is_leaf(self) -> bool {
        self is Once || self is Pause
    }

    /// What the clock of a leaf shows.
    pub open spec fn clock(self) -> nat {
        match self {
            Timeline::Once { elapsed, .. } => elapsed,
            Timeline::Pause { elapsed, .. } => elapsed,
            _ => 0,
        }
    }

    /// The leaf with its clock at `elapsed`.
    pub open spec fn with_clock(self, elapsed: nat) -> Self {
        match self {
            Timeline::Once { duration, function, applier, completed, .. } => Timeline::Once {
                duration,
                elapsed,
                function,
                applier,
                completed,
            },
            Timeline::Pause { duration, completed, .. } => Timeline::Pause { duration, elapsed, completed },
            _ => self,
        }
    }

    /// The timeline after one call of `skip` for each of `dts`, in order.
    pub open spec fn fed(self, dts: Seq<nat>) -> Self
        decreases dts.len(),
    {
        if dts.len() == 0 {
            self
        } else {
            self.fed(dts.drop_last()).skipped(dts.last()).node
        }
    }

    /// However the time is handed out over the calls, an orderly timeline
    /// whose repeats all have an end has left, after the calls, what the sum
    /// of their inputs leaves of its rest.
    pub proof fn calls_add_up(self, dts: Seq<nat>)
        requires
            self.orderly(),
            self.ends(),
        ensures
            self.fed(dts).orderly(),
            self.fed(dts).ends(),
            self.fed(dts).span() == self.span(),
            self.fed(dts).rest() == less(self.rest(), total(dts)),
        decreases dts.len(),
    {
        if dts.len() > 0 {
            self.calls_add_up(dts.drop_last());
            let before = self.fed(dts.drop_last());
            before.run_takes_the_rest((), dts.last(), idle::<F, A>(), false);
            before.run_keeps_order((), dts.last(), idle::<F, A>(), false);
            before.run_keeps_span((), dts.last(), idle::<F, A>(), false);
        }
    }

    /// A timeline is done when it has been given its span, and the surplus is
    /// what it has been given beyond that.
    ///
    /// Of a timeline that was just built and whose repeats all have an end,
    /// after any run of calls: the last call reports `Done` exactly when the
    /// inputs of all the calls sum up to the span of the timeline or more.
    /// The call that gets there reports as surplus what the sum exceeds the
    /// span by; every call after that reports all of its input.
    pub proof fn timeline_is_done_after_its_span(self, dts: Seq<nat>)
        requires
            self.pristine(),
            self.ends(),
            dts.len() > 0,
        ensures
            ({
                let earlier = total(dts.drop_last());
                let last = self.fed(dts.drop_last()).skipped(dts.last());
                &&& last.progress is Done <==> total(dts) >= self.span()
                &&& last.progress matches Progress::Done { surplus } ==> {
                    &&& earlier < self.span() ==> surplus == total(dts) - self.span()
                    &&& earlier >= self.span() ==> surplus == dts.last()
                }
            }),
    {
        self.pristine_is_orderly();
        self.fresh_has_its_span_left();
        self.calls_add_up(dts.drop_last());
        let before = self.fed(dts.drop_last());
        before.run_takes_the_rest((), dts.last(), idle::<F, A>(), false);
    }

    /// The clock of a leaf shows the sum of what came in since it stood at 0,
    /// and stops at the leaf's duration.
    pub proof fn leaf_clock_shows_the_sum(self, dts: Seq<nat>)
        requires
            self.is_leaf(),
            self.clock() == 0,
        ensures
            self.fed(dts) == self.with_clock(
                if total(dts) <= self.span() {
                    total(dts)
                } else {
                    self.span()
                },
            ),
        decreases dts.len(),
    {
        if dts.len() > 0 {
            self.leaf_clock_shows_the_sum(dts.drop_last());
        }
    }

    /// A leaf reports `Done` exactly when the inputs since it stood at 0 sum
    /// up to its duration or more, and its clock then stands at its
    /// duration. The call that gets it there reports as surplus what the sum
    /// exceeds the duration by; every call after that reports all of its
    /// input.
    pub proof fn leaf_surplus_is_the_excess(self, dts: Seq<nat>)
        requires
            self.is_leaf(),
            self.clock() == 0,
            dts.len() > 0,
        ensures
            ({
                let earlier = total(dts.drop_last());
                let last = self.fed(dts.drop_last()).skipped(dts.last());
                &&& last.progress is Done <==> total(dts) >= self.span()
                &&& last.progress matches Progress::Done { surplus } ==> {
                    &&& last.node.clock() == self.span()
                    &&& earlier < self.span() ==> surplus == total(dts) - self.span()
                    &&& earlier >= self.span() ==> surplus == dts.last()
                }
            }),
    {
        self.leaf_clock_shows_the_sum(dts.drop_last());
    }

    /// A repeat of a number of runs counts up to that number and is done
    /// exactly when it has got there. The count does not go down.
    pub proof fn finite_repeat_counts_to_its_limit<T>(
        self,
        target: T,
        dt: nat,
        effect: Effect<F, A, T>,
        live: bool,
    )
        requires
            self is Repeat,
            self->times is N,
            self->count <= self->times->0,
        ensures
            ({
                let after = self.run(target, dt, effect, live);
                &&& after.node is Repeat
                &&& after.node->times == self->times
                &&& self->count <= after.node->count <= self->times->0
                &&& after.progress is Done <==> after.node->count == self->times->0
            }),
    {
        Self::run_repeat_counts(
            self.size(),
            *self->child,
            self->times,
            self->count,
            self->Repeat_completed,
            target,
            dt,
            effect,
            live,
        );
    }

    /// A repeat without end is never done: every call on it reports
    /// `Running`.
    pub proof fn endless_repeat_keeps_running<T>(
        self,
        target: T,
        dt: nat,
        effect: Effect<F, A, T>,
        live: bool,
    )
        requires
            self is Repeat,
            self->times is Infinite,
        ensures
            self.run(target, dt, effect, live).progress is Running,
            self.run(target, dt, effect, live).node is Repeat,
            self.run(target, dt, effect, live).node->count >= self->count,
    {
        Self::run_repeat_counts(
            self.size(),
            *self->child,
            self->times,
            self->count,
            self->Repeat_completed,
            target,
            dt,
            effect,
            live,
        );
    }

    /// What [`Timeline::run_repeat`] does to the count: it does not go down;
    /// under a policy of a number of runs it stays within that number, and
    /// the call is done exactly when the count has reached it; under a policy
    /// without end the call is never done.
    pub proof fn run_repeat_counts<T>(
        bound: nat,
        child: Self,
        times: RepeatTimes,
        count: nat,
        completed: Completion<E>,
        target: T,
        dt: nat,
        effect: Effect<F, A, T>,
        live: bool,
    )
        requires
            child.size() < bound,
        ensures
            ({
                let ran = Self::run_repeat(bound, child, times, count, completed, target, dt, effect, live);
                &&& ran.node is Repeat
                &&& ran.node->times == times
                &&& count <= ran.node->count
                &&& times is Infinite ==> ran.progress is Running
                &&& times is N && count <= times->0 ==> {
                    &&& ran.node->count <= times->0
                    &&& ran.progress is Done <==> ran.node->count == times->0
                }
            }),
        decreases bound, 0nat, repeat_fuel(times, count, dt),
    {
        if times.exhausted_by(count) {
        } else {
            child.run_keeps_shape(target, dt, effect, live);
            let ran = child.run(target, dt, effect, live);
            match ran.progress {
                Progress::Running => {},
                Progress::Done { surplus } => {
                    if times is Infinite && dt <= surplus {
                    } else {
                        ran.node.reset_keeps_shape();
                        Self::run_repeat_counts(
                            bound,
                            ran.node.reset(),
                            times,
                            counted(count),
                            completed,
                            ran.target,
                            surplus,
                            effect,
                            live,
                        );
                    }
                },
            }
        }
    }

    /// A repeat without end whose child uses up none of the time it is given
    /// does not loop: the call runs the child once, counts the run, leaves
    /// the child as the run left it, reports the condition if it is live,
    /// and reports `Running`. A child that is complete is such a child, and
    /// so is a leaf of zero duration.
    pub proof fn zero_progress_is_reported<T>(self, target: T, dt: nat, effect: Effect<F, A, T>, live: bool)
        requires
            self is Repeat,
            self->times is Infinite,
            self.wf(),
            self->child.complete(),
        ensures
            ({
                let after = self.run(target, dt, effect, live);
                let ran = self->child.run(target, dt, effect, live);
                &&& after.progress is Running
                &&& after.node == Timeline::Repeat {
                    child: Box::new(ran.node),
                    times: RepeatTimes::Infinite,
                    count: counted(self->count),
                    completed: self->Repeat_completed,
                }
                &&& ran.node.clocks() == self->child.clocks()
                &&& after.target == ran.target
                &&& after.events == Seq::<E>::empty()
                &&& after.diagnostics == if live {
                    seq![Diagnostic::ZeroProgressRepeat]
                } else {
                    Seq::empty()
                }
            }),
    {
        let ran = self->child.run(target, dt, effect, live);
        self->child.run_settles(target, dt, effect, live);
        assert(ran.diagnostics.push(Diagnostic::ZeroProgressRepeat) =~= seq![
            Diagnostic::ZeroProgressRepeat,
        ]);
    }

    /// A repeat hands the surplus on to the next run. While runs are left,
    /// the call runs the child. When the child reports `Running`, so does
    /// the repeat. When it reports `Done`, the run is counted, and unless the
    /// repeat is without end and the run used up no time, the child is reset
    /// and driven again in the same call with exactly the surplus that it
    /// reported. A repeat without runs left reports `Done` with all that
    /// came in.
    pub proof fn repeat_hands_surplus_on<T>(self, target: T, dt: nat, effect: Effect<F, A, T>, live: bool)
        requires
            self is Repeat,
        ensures
            ({
                let child = *self->child;
                let times = self->times;
                let count = self->count;
                let completed = self->Repeat_completed;
                let ran = child.run(target, dt, effect, live);
                self.drive(target, dt, effect, live) == (if times.exhausted_by(count) {
                    Outcome {
                        node: self,
                        target,
                        events: Seq::empty(),
                        diagnostics: Seq::empty(),
                        progress: Progress::Done { surplus: dt },
                    }
                } else if ran.progress is Running {
                    Outcome {
                        node: Timeline::Repeat { child: Box::new(ran.node), times, count, completed },
                        ..ran
                    }
                } else if times is Infinite && dt <= ran.progress->surplus {
                    Outcome {
                        node: Timeline::Repeat {
                            child: Box::new(ran.node),
                            times,
                            count: counted(count),
                            completed,
                        },
                        diagnostics: if live {
                            ran.diagnostics.push(Diagnostic::ZeroProgressRepeat)
                        } else {
                            ran.diagnostics
                        },
                        progress: Progress::Running,
                        ..ran
                    }
                } else {
                    (Timeline::Repeat {
                        child: Box::new(ran.node.reset()),
                        times,
                        count: counted(count),
                        completed,
                    }).drive(ran.target, ran.progress->surplus, effect, live).after(
                        ran.events,
                        ran.diagnostics,
                    )
                })
            }),
    {
        let child = *self->child;
        child.run_keeps_shape(target, dt, effect, live);
        child.run(target, dt, effect, live).node.reset_keeps_shape();
    }

    /// A sequence hands the surplus on. When the active child reports `Done`,
    /// the cursor moves to the next child, and that child is driven in the
    /// same call with exactly the surplus that the first reported. When it
    /// reports `Running`, so does the sequence, and the cursor stays. A
    /// sequence whose cursor is past its last child reports `Done` with all
    /// that came in.
    pub proof fn sequence_hands_surplus_on<T>(self, target: T, dt: nat, effect: Effect<F, A, T>, live: bool)
        requires
            self is Sequence,
        ensures
            ({
                let index = self->index;
                let children = self->Sequence_children;
                let completed = self->Sequence_completed;
                if index < children.len() {
                    let ran = children[index as int].run(target, dt, effect, live);
                    let moved = children.update(index as int, ran.node);
                    self.drive(target, dt, effect, live) == (match ran.progress {
                        Progress::Running => Outcome {
                            node: Timeline::Sequence { index, children: moved, completed },
                            ..ran
                        },
                        Progress::Done { surplus } => (Timeline::Sequence {
                            index: index + 1,
                            children: moved,
                            completed,
                        }).drive(ran.target, surplus, effect, live).after(ran.events, ran.diagnostics),
                    })
                } else {
                    self.drive(target, dt, effect, live) == (Outcome {
                        node: self,
                        target,
                        events: Seq::empty(),
                        diagnostics: Seq::empty(),
                        progress: Progress::Done { surplus: dt },
                    })
                }
            }),
    {
        let index = self->index;
        let children = self->Sequence_children;
        if index < children.len() {
            Self::member_size(children, index as int);
            let ran = children[index as int].run(target, dt, effect, live);
            children[index as int].run_keeps_shape(target, dt, effect, live);
            let moved = children.update(index as int, ran.node);
            Self::total_size_pointwise(children, moved);
        }
    }

    /// A parallel group is done only when every child is: it reports `Done`
    /// exactly when each child, given the same input, reports `Done`. Its
    /// surplus is then the smallest of the children's surpluses: it is no
    /// more than any of them, and it is the surplus of one of them. A group
    /// without children reports all of its input.
    pub proof fn parallel_waits_for_all<T>(self, target: T, dt: nat, effect: Effect<F, A, T>, live: bool)
        requires
            self is Parallel,
            self.wf(),
        ensures
            ({
                let children = self->Parallel_children;
                let after = self.run(target, dt, effect, live);
                &&& after.progress is Done <==> forall|i: int|
                    0 <= i < children.len() ==> (#[trigger] children[i]).skipped(dt).progress is Done
                &&& after.progress matches Progress::Done { surplus } ==> {
                    &&& forall|i: int|
                        0 <= i < children.len() ==> surplus <= (#[trigger] children[i]).skipped(
                            dt,
                        ).progress->surplus
                    &&& if children.len() == 0 {
                        surplus == dt
                    } else {
                        exists|i: int|
                            0 <= i < children.len() && (#[trigger] children[i]).skipped(dt).progress
                                == (Progress::Done { surplus })
                    }
                }
            }),
    {
        let children = self->Parallel_children;
        assert forall|i: int| 0 <= i < children.len() implies (#[trigger] children[i]).size()
            < self.size() by {
            Self::member_size(children, i);
        }
        Self::run_parallel_meets(
            self.size(),
            children,
            0,
            Progress::Done { surplus: dt },
            self->Parallel_completed,
            target,
            dt,
            effect,
            live,
        );
        let after = self.run(target, dt, effect, live);
        if after.progress is Done && children.len() > 0 {
            let surplus = after.progress->surplus;
            if surplus == dt {
                children[0].run_settles((), dt, idle::<F, A>(), false);
                assert(children[0].skipped(dt).progress == (Progress::Done { surplus }));
            }
        }
    }

    /// A parallel group drives every child in every call, each with all of
    /// the input: no child is left out because another is still running or
    /// already done. After the call each child stands where a call with the
    /// same input on it alone would leave it.
    pub proof fn parallel_drives_every_child<T>(
        self,
        target: T,
        dt: nat,
        effect: Effect<F, A, T>,
        live: bool,
    )
        requires
            self is Parallel,
        ensures
            ({
                let children = self->Parallel_children;
                let after = self.run(target, dt, effect, live).node;
                &&& after is Parallel
                &&& after->Parallel_children.len() == children.len()
                &&& forall|i: int|
                    0 <= i < children.len() ==> (#[trigger] after->Parallel_children[i]).clocks()
                        == children[i].skipped(dt).node.clocks()
            }),
    {
        let children = self->Parallel_children;
        assert forall|i: int| 0 <= i < children.len() implies (#[trigger] children[i]).size()
            < self.size() by {
            Self::member_size(children, i);
        }
        Self::run_parallel_drives_all(
            self.size(),
            children,
            0,
            Progress::Done { surplus: dt },
            self->Parallel_completed,
            target,
            dt,
            effect,
            live,
        );
    }

    /// [`Timeline::parallel_drives_every_child`] for the children from `from`
    /// on; those before `from` stay as they are.
    pub proof fn run_parallel_drives_all<T>(
        bound: nat,
        children: Seq<Self>,
        from: nat,
        so_far: Progress,
        completed: Completion<E>,
        target: T,
        dt: nat,
        effect: Effect<F, A, T>,
        live: bool,
    )
        requires
            from <= children.len(),
            forall|i: int| 0 <= i < children.len() ==> (#[trigger] children[i]).size() < bound,
        ensures
            ({
                let after = Self::run_parallel(
                    bound,
                    children,
                    from,
                    so_far,
                    completed,
                    target,
                    dt,
                    effect,
                    live,
                ).node;
                &&& after is Parallel
                &&& after->Parallel_children.len() == children.len()
                &&& forall|i: int| 0 <= i < from ==> (#[trigger] after->Parallel_children[i]) == children[i]
                &&& forall|i: int|
                    from <= i < children.len() ==> (#[trigger] after->Parallel_children[i]).clocks()
                        == children[i].skipped(dt).node.clocks()
            }),
        decreases bound, 0nat, children.len() - from,
    {
        if from >= children.len() {
        } else {
            let child = children[from as int];
            child.run_by_clocks(target, dt, effect, live);
            child.run_by_clocks((), dt, idle::<F, A>(), false);
            child.run_keeps_shape(target, dt, effect, live);
            let ran = child.run(target, dt, effect, live);
            let moved = children.update(from as int, ran.node);
            Self::run_parallel_drives_all(
                bound,
                moved,
                from + 1,
                so_far.meet(ran.progress),
                completed,
                ran.target,
                dt,
                effect,
                live,
            );
            let after = Self::run_parallel(
                bound,
                children,
                from,
                so_far,
                completed,
                target,
                dt,
                effect,
                live,
            ).node;
            assert(after->Parallel_children[from as int] == moved[from as int]);
            assert forall|i: int| from < i < children.len() implies (#[trigger] after->Parallel_children[i]).clocks()
                == children[i].skipped(dt).node.clocks() by {
                assert(moved[i] == children[i]);
            }
        }
    }

    /// What [`Timeline::run_parallel`] reports: `Done` exactly when `so_far`
    /// is `Done` and each child from `from` on, given `dt`, reports `Done`;
    /// and then the smallest of the surpluses of these.
    pub proof fn run_parallel_meets<T>(
        bound: nat,
        children: Seq<Self>,
        from: nat,
        so_far: Progress,
        completed: Completion<E>,
        target: T,
        dt: nat,
        effect: Effect<F, A, T>,
        live: bool,
    )
        requires
            from <= children.len(),
            forall|i: int| 0 <= i < children.len() ==> (#[trigger] children[i]).size() < bound,
        ensures
            ({
                let ran = Self::run_parallel(
                    bound,
                    children,
                    from,
                    so_far,
                    completed,
                    target,
                    dt,
                    effect,
                    live,
                );
                &&& ran.progress is Done <==> so_far is Done && forall|i: int|
                    from <= i < children.len() ==> (#[trigger] children[i]).skipped(dt).progress is Done
                &&& ran.progress matches Progress::Done { surplus } ==> {
                    &&& surplus <= so_far->surplus
                    &&& forall|i: int|
                        from <= i < children.len() ==> surplus <= (#[trigger] children[i]).skipped(
                            dt,
                        ).progress->surplus
                    &&& surplus == so_far->surplus || exists|i: int|
                        from <= i < children.len() && (#[trigger] children[i]).skipped(dt).progress
                            == (Progress::Done { surplus })
                }
            }),
        decreases bound, 0nat, children.len() - from,
    {
        if from >= children.len() {
        } else {
            let child = children[from as int];
            child.run_by_clocks(target, dt, effect, live);
            child.run_by_clocks((), dt, idle::<F, A>(), false);
            child.run_keeps_shape(target, dt, effect, live);
            let ran = child.run(target, dt, effect, live);
            let moved = children.update(from as int, ran.node);
            Self::run_parallel_meets(
                bound,
                moved,
                from + 1,
                so_far.meet(ran.progress),
                completed,
                ran.target,
                dt,
                effect,
                live,
            );
            assert forall|i: int| from + 1 <= i < children.len() implies (#[trigger] moved[i])
                == children[i] by {}
            let rest = Self::run_parallel(
                bound,
                moved,
                from + 1,
                so_far.meet(ran.progress),
                completed,
                ran.target,
                dt,
                effect,
                live,
            );
            if rest.progress is Done {
                let surplus = rest.progress->surplus;
                assert forall|i: int| from <= i < children.len() implies (#[trigger] children[i]).skipped(
                    dt,
                ).progress is Done && surplus <= children[i].skipped(dt).progress->surplus by {
                    if i > from {
                        assert(moved[i] == children[i]);
                    }
                }
                if surplus != so_far->surplus {
                    if surplus == so_far.meet(ran.progress)->surplus {
                        assert(children[from as int].skipped(dt).progress == (Progress::Done { surplus }));
                    } else {
                        let i = choose|i: int|
                            from + 1 <= i < moved.len() && (#[trigger] moved[i]).skipped(dt).progress == (
                            Progress::Done { surplus });
                        assert(moved[i] == children[i]);
                    }
                }
            } else {
                if so_far is Done && forall|i: int|
                    from <= i < children.len() ==> (#[trigger] children[i]).skipped(dt).progress is Done {
                    assert(children[from as int].skipped(dt).progress is Done);
                    assert forall|i: int| from + 1 <= i < moved.len() implies (#[trigger] moved[i]).skipped(
                        dt,
                    ).progress is Done by {
                        assert(moved[i] == children[i]);
                        assert(children[i].skipped(dt).progress is Done);
                    }
                }
            }
        }
    }
}

/// The time that a repeat of `amount` runs, `count` of them complete, still
/// needs when its child is a leaf of `span` nanoseconds whose clock shows
/// `clock`.
pub open spec fn leaf_repeat_needs(amount: nat, count: nat, span: nat, clock: nat) -> nat {
    if count < amount {
        ((amount - count) * span - clock) as nat
    } else {
        0
    }
}

/// How often a clock that starts over every `span` nanoseconds has done so
/// after `time`.
pub open spec fn turns(time: nat, span: nat) -> nat {
    time / span
}

/// What a clock that starts over every `span` nanoseconds shows after
/// `time`.
pub open spec fn shown(time: nat, span: nat) -> nat {
    time % span
}

/// How a clock that shows `clock` of `span` moves on by `dt` when it starts
/// over at each end: the ends that it passes, and what it shows then.
proof fn wrapped_clock(span: nat, clock: nat, dt: nat)
    requires
        span > 0,
        clock <= span,
    ensures
        clock + dt < span ==> turns(clock + dt, span) == 0 && shown(clock + dt, span) == clock + dt,
        clock + dt >= span ==> turns(clock + dt, span) == 1 + turns((clock + dt - span) as nat, span)
            && shown(clock + dt, span) == shown((clock + dt - span) as nat, span),
{
    let sum = (clock + dt) as int;
    let width = span as int;
    if sum < width {
        lemma_fundamental_div_mod_converse(sum, width, 0, sum);
    } else {
        let rest = sum - width;
        lemma_fundamental_div_mod(rest, width);
        lemma_mod_bound(rest, width);
        let passed = rest / width;
        let left = rest % width;
        assert(sum == (1 + passed) * width + left) by (nonlinear_arith)
            requires
                rest == width * passed + left,
                sum == rest + width,
        ;
        lemma_fundamental_div_mod_converse(sum, width, 1 + passed, left);
    }
}

impl<F, A, E> Timeline<F, A, E> {
    /// A repeat of a number of runs of a leaf is done after all remaining
    /// runs of the leaf, to the nanosecond, and reports as surplus all the
    /// time that these runs did not use.
    ///
    /// The repeat needs what [`leaf_repeat_needs`] says. Given that much or
    /// more, it reports `Done` with the rest, its count stands at the number
    /// of runs, and the leaf stands at 0. Given less, it reports `Running`,
    /// has counted the ends that the leaf's clock passed, and the leaf shows
    /// what is left of the time.
    pub proof fn repeat_of_leaf_uses_its_runs(self, dt: nat)
        requires
            self is Repeat,
            self->times is N,
            self->count <= self->times->0,
            self->child.is_leaf(),
            self->child.wf(),
        ensures
            ({
                let amount = self->times->0 as nat;
                let count = self->count;
                let child = *self->child;
                let need = leaf_repeat_needs(amount, count, child.span(), child.clock());
                let after = self.skipped(dt);
                if dt >= need {
                    &&& after.progress == Progress::Done { surplus: (dt - need) as nat }
                    &&& after.node == Timeline::Repeat {
                        child: Box::new(
                            if count < amount {
                                child.with_clock(0)
                            } else {
                                child
                            },
                        ),
                        times: self->times,
                        count: amount,
                        completed: self->Repeat_completed,
                    }
                } else {
                    &&& after.progress == Progress::Running
                    &&& after.node == Timeline::Repeat {
                        child: Box::new(child.with_clock(shown(child.clock() + dt, child.span()))),
                        times: self->times,
                        count: count + turns(child.clock() + dt, child.span()),
                        completed: self->Repeat_completed,
                    }
                }
            }),
    {
        Self::run_repeat_of_leaf(
            self.size(),
            *self->child,
            self->times->0,
            self->count,
            self->Repeat_completed,
            dt,
        );
    }

    /// [`Timeline::repeat_of_leaf_uses_its_runs`], by induction on the runs
    /// that are left.
    pub proof fn run_repeat_of_leaf(
        bound: nat,
        child: Self,
        amount: usize,
        count: nat,
        completed: Completion<E>,
        dt: nat,
    )
        requires
            count <= amount,
            child.is_leaf(),
            child.wf(),
            bound > 1,
        ensures
            ({
                let times = RepeatTimes::N(amount);
                let need = leaf_repeat_needs(amount as nat, count, child.span(), child.clock());
                let after = Self::run_repeat(
                    bound,
                    child,
                    times,
                    count,
                    completed,
                    (),
                    dt,
                    idle::<F, A>(),
                    false,
                );
                if dt >= need {
                    &&& after.progress == Progress::Done { surplus: (dt - need) as nat }
                    &&& after.node == Timeline::Repeat {
                        child: Box::new(
                            if count < amount {
                                child.with_clock(0)
                            } else {
                                child
                            },
                        ),
                        times,
                        count: amount as nat,
                        completed,
                    }
                } else {
                    &&& after.progress == Progress::Running
                    &&& after.node == Timeline::Repeat {
                        child: Box::new(child.with_clock(shown(child.clock() + dt, child.span()))),
                        times,
                        count: count + turns(child.clock() + dt, child.span()),
                        completed,
                    }
                }
            }),
        decreases amount - count,
    {
        let times = RepeatTimes::N(amount);
        let span = child.span();
        let clock = child.clock();
        let need = leaf_repeat_needs(amount as nat, count, span, clock);
        if count < amount {
            let left = (amount - count) as nat;
            assert(left * span == span + (left - 1) * span) by (nonlinear_arith)
                requires
                    left >= 1,
            ;
            assert((left - 1) * span >= 0) by (nonlinear_arith)
                requires
                    left >= 1,
                    span >= 0,
            ;
            let ran = child.run((), dt, idle::<F, A>(), false);
            assert(ran.progress == tick(clock, span, dt));
            assert(ran.node == child.with_clock(clamped(clock, span, dt)));
            if clock + dt < span {
                wrapped_clock(span, clock, dt);
            } else {
                let surplus = (clock + dt - span) as nat;
                let again = ran.node.reset();
                assert(again == child.with_clock(0));
                assert(counted(count) == count + 1);
                Self::run_repeat_of_leaf(bound, again, amount, count + 1, completed, surplus);
                let rest = Self::run_repeat(
                    bound,
                    again,
                    times,
                    count + 1,
                    completed,
                    (),
                    surplus,
                    idle::<F, A>(),
                    false,
                );
                let after = Self::run_repeat(
                    bound,
                    child,
                    times,
                    count,
                    completed,
                    (),
                    dt,
                    idle::<F, A>(),
                    false,
                );
                assert(after == rest.after(ran.events, ran.diagnostics));
                let need_then = leaf_repeat_needs(amount as nat, count + 1, span, 0);
                let left_then = (amount - (count + 1)) as nat;
                assert(left_then * span == (left - 1) * span) by (nonlinear_arith)
                    requires
                        left_then == left - 1,
                ;
                assert(need == left * span - clock);
                assert(need_then == left_then * span) by (nonlinear_arith)
                    requires
                        need_then == (if left_then > 0 {
                            (left_then * span - 0) as nat
                        } else {
                            0
                        }),
                        span >= 0,
                        left_then >= 0,
                ;
                assert(need_then + span == need + clock);
                if surplus < need_then {
                    wrapped_clock(span, clock, dt);
                    assert(again.with_clock(shown(surplus, span)) == child.with_clock(
                        shown(clock + dt, span),
                    ));
                }
            }
        }
    }
}

} // verus!
