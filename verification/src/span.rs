//! How long a timeline takes, and how much of that is left.
//!
//! A timeline whose repeats all have an end takes a definite time from its
//! start to its end: its [`Timeline::span`]. In any state that calls can lead
//! to, a definite part of that is left: its [`Timeline::rest`]. A call gives
//! the timeline time; the timeline takes what is left of its span, and the
//! excess is the surplus.
use vstd::prelude::*;
use crate::capability::Completion;
use crate::progress::{Progress, RepeatTimes};
use crate::timeline::{counted, repeat_fuel, Effect, Timeline};

verus! {

/// The larger of two numbers.
pub open spec fn larger(a: nat, b: nat) -> nat {
    if a >= b {
        a
    } else {
        b
    }
}

/// What is left of `a` after `b` is taken from it, and 0 if that is more than
/// all of it.
pub open spec fn less(a: nat, b: nat) -> nat {
    if a >= b {
        (a - b) as nat
    } else {
        0
    }
}

impl<F, A, E> Timeline<F, A, E> {
    /// Whether every repeat in the timeline has an end.
    pub open spec fn ends(self) -> bool
        decreases self,
    {
        match self {
            Timeline::Once { .. } => true,
            Timeline::Pause { .. } => true,
            Timeline::Repeat { child, times, .. } => times is N && child.ends(),
            Timeline::Sequence { children, .. } => forall|i: int|
                0 <= i < children.len() ==> (#[trigger] children[i]).ends(),
            Timeline::Parallel { children, .. } => forall|i: int|
                0 <= i < children.len() ==> (#[trigger] children[i]).ends(),
        }
    }

    /// The time that the timeline takes from its start to its end: for a
    /// leaf its duration, for a repeat as many times the span of its child as
    /// it has runs, for a sequence the sum of the spans of its children, for
    /// a parallel group the longest of them. It says nothing of a timeline
    /// that holds a repeat without end.
    pub open spec fn span(self) -> nat
        decreases self, 0nat,
    {
        match self {
            Timeline::Once { duration, .. } => duration,
            Timeline::Pause { duration, .. } => duration,
            Timeline::Repeat { child, times, .. } => match times {
                RepeatTimes::N(amount) => (amount * child.span()) as nat,
                RepeatTimes::Infinite => 0,
            },
            Timeline::Sequence { children, .. } => Self::spans_from(children, 0),
            Timeline::Parallel { children, .. } => Self::longest_span_from(children, 0),
        }
    }

    /// The sum of the spans of the timelines of `nodes` from position `from`
    /// on.
    pub open spec fn spans_from(nodes: Seq<Self>, from: nat) -> nat
        decreases nodes, nodes.len() - from,
    {
        if from >= nodes.len() {
            0
        } else {
            nodes[from as int].span() + Self::spans_from(nodes, from + 1)
        }
    }

    /// The longest of the spans of the timelines of `nodes` from position
    /// `from` on, and 0 if there is none.
    pub open spec fn longest_span_from(nodes: Seq<Self>, from: nat) -> nat
        decreases nodes, nodes.len() - from,
    {
        if from >= nodes.len() {
            0
        } else {
            larger(nodes[from as int].span(), Self::longest_span_from(nodes, from + 1))
        }
    }

    /// The time that the timeline still takes to its end from the state in
    /// which it is: for a leaf what its clock lacks to its duration, for a
    /// repeat the rest of the run that is under way and the span of each run
    /// to come, for a sequence the sum of the rests of the children from the
    /// cursor on, for a parallel group the longest of the rests of its
    /// children.
    pub open spec fn rest(self) -> nat
        decreases self, 0nat,
    {
        match self {
            Timeline::Once { duration, elapsed, .. } => less(duration, elapsed),
            Timeline::Pause { duration, elapsed, .. } => less(duration, elapsed),
            Timeline::Repeat { child, times, count, .. } => match times {
                RepeatTimes::N(amount) => if count < amount {
                    (child.rest() + (amount - count - 1) * child.span()) as nat
                } else {
                    0
                },
                RepeatTimes::Infinite => 0,
            },
            Timeline::Sequence { index, children, .. } => Self::rests_from(children, index),
            Timeline::Parallel { children, .. } => Self::longest_rest_from(children, 0),
        }
    }

    /// The sum of the rests of the timelines of `nodes` from position `from`
    /// on.
    pub open spec fn rests_from(nodes: Seq<Self>, from: nat) -> nat
        decreases nodes, nodes.len() - from,
    {
        if from >= nodes.len() {
            0
        } else {
            nodes[from as int].rest() + Self::rests_from(nodes, from + 1)
        }
    }

    /// The longest of the rests of the timelines of `nodes` from position
    /// `from` on, and 0 if there is none.
    pub open spec fn longest_rest_from(nodes: Seq<Self>, from: nat) -> nat
        decreases nodes, nodes.len() - from,
    {
        if from >= nodes.len() {
            0
        } else {
            larger(nodes[from as int].rest(), Self::longest_rest_from(nodes, from + 1))
        }
    }

    /// Lists whose timelines have the same spans, one by one, have the same
    /// sum of spans and the same longest span.
    pub proof fn spans_pointwise(ours: Seq<Self>, theirs: Seq<Self>, from: nat)
        requires
            ours.len() == theirs.len(),
            forall|i: int| from <= i < ours.len() ==> (#[trigger] ours[i]).span() == theirs[i].span(),
        ensures
            Self::spans_from(ours, from) == Self::spans_from(theirs, from),
            Self::longest_span_from(ours, from) == Self::longest_span_from(theirs, from),
        decreases ours.len() - from,
    {
        if from < ours.len() {
            Self::spans_pointwise(ours, theirs, from + 1);
        }
    }

    /// Lists whose timelines have the same rests, one by one, have the same
    /// sum of rests and the same longest rest.
    pub proof fn rests_pointwise(ours: Seq<Self>, theirs: Seq<Self>, from: nat)
        requires
            ours.len() == theirs.len(),
            forall|i: int| from <= i < ours.len() ==> (#[trigger] ours[i]).rest() == theirs[i].rest(),
        ensures
            Self::rests_from(ours, from) == Self::rests_from(theirs, from),
            Self::longest_rest_from(ours, from) == Self::longest_rest_from(theirs, from),
        decreases ours.len() - from,
    {
        if from < ours.len() {
            Self::rests_pointwise(ours, theirs, from + 1);
        }
    }

    /// Where each timeline of one list has as its rest the span of its like
    /// in another, the sum of the rests is the sum of the spans, and the
    /// longest rest is the longest span.
    pub proof fn rests_are_spans(ours: Seq<Self>, theirs: Seq<Self>, from: nat)
        requires
            ours.len() == theirs.len(),
            forall|i: int| from <= i < ours.len() ==> (#[trigger] ours[i]).rest() == theirs[i].span(),
        ensures
            Self::rests_from(ours, from) == Self::spans_from(theirs, from),
            Self::longest_rest_from(ours, from) == Self::longest_span_from(theirs, from),
        decreases ours.len() - from,
    {
        if from < ours.len() {
            Self::rests_are_spans(ours, theirs, from + 1);
        }
    }

    /// Where each timeline of one list has as its rest what is left of the
    /// rest of its like in another after `dt`, the longest rest of the one
    /// list is what is left of the longest rest of the other after `dt`.
    pub proof fn longest_rest_shrinks(ours: Seq<Self>, theirs: Seq<Self>, from: nat, dt: nat)
        requires
            ours.len() == theirs.len(),
            forall|i: int|
                from <= i < ours.len() ==> (#[trigger] ours[i]).rest() == less(theirs[i].rest(), dt),
        ensures
            Self::longest_rest_from(ours, from) == less(Self::longest_rest_from(theirs, from), dt),
        decreases ours.len() - from,
    {
        if from < ours.len() {
            Self::longest_rest_shrinks(ours, theirs, from + 1, dt);
        }
    }

    /// `reset` changes neither the span of a timeline nor whether it ends.
    pub proof fn reset_keeps_span(self)
        ensures
            self.reset().span() == self.span(),
            self.reset().ends() == self.ends(),
        decreases self,
    {
        match self {
            Timeline::Once { .. } => {},
            Timeline::Pause { .. } => {},
            Timeline::Repeat { child, .. } => {
                child.reset_keeps_span();
            },
            Timeline::Sequence { children, .. } => {
                let after = self.reset()->Sequence_children;
                assert forall|i: int| 0 <= i < children.len() implies (#[trigger] after[i]).span()
                    == children[i].span() && after[i].ends() == children[i].ends() by {
                    children[i].reset_keeps_span();
                }
                Self::spans_pointwise(after, children, 0);
                Self::ends_pointwise(after, children);
            },
            Timeline::Parallel { children, .. } => {
                let after = self.reset()->Parallel_children;
                assert forall|i: int| 0 <= i < children.len() implies (#[trigger] after[i]).span()
                    == children[i].span() && after[i].ends() == children[i].ends() by {
                    children[i].reset_keeps_span();
                }
                Self::spans_pointwise(after, children, 0);
                Self::ends_pointwise(after, children);
            },
        }
    }

    /// Lists whose timelines end together, one by one, end together as a
    /// whole.
    pub proof fn ends_pointwise(ours: Seq<Self>, theirs: Seq<Self>)
        requires
            ours.len() == theirs.len(),
            forall|i: int| 0 <= i < ours.len() ==> (#[trigger] ours[i]).ends() == theirs[i].ends(),
        ensures
            (forall|i: int| 0 <= i < ours.len() ==> (#[trigger] ours[i]).ends()) == (forall|i: int|
                0 <= i < theirs.len() ==> (#[trigger] theirs[i]).ends()),
    {
        if forall|i: int| 0 <= i < ours.len() ==> (#[trigger] ours[i]).ends() {
            assert forall|i: int| 0 <= i < theirs.len() implies (#[trigger] theirs[i]).ends() by {
                assert(ours[i].ends());
            }
        }
        if forall|i: int| 0 <= i < theirs.len() ==> (#[trigger] theirs[i]).ends() {
            assert forall|i: int| 0 <= i < ours.len() implies (#[trigger] ours[i]).ends() by {
                assert(theirs[i].ends());
            }
        }
    }

    /// A timeline as it was built has all of its span before it: its rest is
    /// its span. Building anew changes neither the span nor whether the
    /// timeline ends.
    pub proof fn fresh_has_its_span_left(self)
        ensures
            self.fresh().rest() == self.span(),
            self.fresh().span() == self.span(),
            self.fresh().ends() == self.ends(),
        decreases self,
    {
        match self {
            Timeline::Once { .. } => {},
            Timeline::Pause { .. } => {},
            Timeline::Repeat { child, times, .. } => {
                child.fresh_has_its_span_left();
                if let RepeatTimes::N(amount) = times {
                    let runs = amount as int;
                    let one = child.span() as int;
                    if amount > 0 {
                        assert(one + (runs - 0 - 1) * one == runs * one) by (nonlinear_arith);
                        assert(self.fresh().rest() == child.fresh().rest() + (amount - 0 - 1)
                            * child.fresh().span());
                    } else {
                        assert(runs * one == 0) by (nonlinear_arith)
                            requires
                                runs == 0,
                        ;
                    }
                }
            },
            Timeline::Sequence { children, .. } => {
                let built = Self::all_fresh(children);
                Self::all_fresh_at(children);
                assert forall|i: int| 0 <= i < children.len() implies (#[trigger] built[i]).rest()
                    == children[i].span() && built[i].span() == children[i].span() && built[i].ends()
                    == children[i].ends() by {
                    children[i].fresh_has_its_span_left();
                }
                Self::rests_are_spans(built, children, 0);
                Self::spans_pointwise(built, children, 0);
                Self::ends_pointwise(built, children);
            },
            Timeline::Parallel { children, .. } => {
                let built = Self::all_fresh(children);
                Self::all_fresh_at(children);
                assert forall|i: int| 0 <= i < children.len() implies (#[trigger] built[i]).rest()
                    == children[i].span() && built[i].span() == children[i].span() && built[i].ends()
                    == children[i].ends() by {
                    children[i].fresh_has_its_span_left();
                }
                Self::rests_are_spans(built, children, 0);
                Self::spans_pointwise(built, children, 0);
                Self::ends_pointwise(built, children);
            },
        }
    }

    /// A call changes neither the span of a timeline nor whether it ends.
    pub proof fn run_keeps_span<T>(self, target: T, dt: nat, effect: Effect<F, A, T>, live: bool)
        ensures
            self.run(target, dt, effect, live).node.span() == self.span(),
            self.run(target, dt, effect, live).node.ends() == self.ends(),
        decreases self.size(), 1nat, 0nat,
    {
        match self {
            Timeline::Once { .. } => {},
            Timeline::Pause { .. } => {},
            Timeline::Repeat { child, times, count, completed } => {
                Self::run_repeat_keeps_span(
                    self.size(),
                    *child,
                    times,
                    count,
                    completed,
                    target,
                    dt,
                    effect,
                    live,
                );
            },
            Timeline::Sequence { index, children, completed } => {
                Self::run_sequence_keeps_span(
                    self.size(),
                    children,
                    index,
                    completed,
                    target,
                    dt,
                    effect,
                    live,
                );
                let after = Self::run_sequence(
                    self.size(),
                    children,
                    index,
                    completed,
                    target,
                    dt,
                    effect,
                    live,
                ).node->Sequence_children;
                Self::spans_pointwise(after, children, 0);
                Self::ends_pointwise(after, children);
            },
            Timeline::Parallel { children, completed } => {
                Self::run_parallel_keeps_span(
                    self.size(),
                    children,
                    0,
                    Progress::Done { surplus: dt },
                    completed,
                    target,
                    dt,
                    effect,
                    live,
                );
                let after = Self::run_parallel(
                    self.size(),
                    children,
                    0,
                    Progress::Done { surplus: dt },
                    completed,
                    target,
                    dt,
                    effect,
                    live,
                ).node->Parallel_children;
                Self::spans_pointwise(after, children, 0);
                Self::ends_pointwise(after, children);
            },
        }
    }

    /// [`Timeline::run_keeps_span`] for the runs of a repeat.
    pub proof fn run_repeat_keeps_span<T>(
        bound: nat,
        child: Self,
        times: RepeatTimes,
        count: nat,
        completed: Completion<E>,
        target: T,
        dt: nat,
        effect: Effect<F, A, T>,
        live: bool,
    )
        ensures
            ({
                let after = Self::run_repeat(bound, child, times, count, completed, target, dt, effect, live).node;
                &&& after is Repeat
                &&& after->times == times
                &&& after->child.span() == child.span()
                &&& after->child.ends() == child.ends()
            }),
        decreases bound, 0nat, repeat_fuel(times, count, dt),
    {
        if times.exhausted_by(count) || child.size() >= bound {
        } else {
            child.run_keeps_span(target, dt, effect, live);
            child.run_keeps_shape(target, dt, effect, live);
            let ran = child.run(target, dt, effect, live);
            match ran.progress {
                Progress::Running => {},
                Progress::Done { surplus } => {
                    if times is Infinite && dt <= surplus {
                    } else {
                        ran.node.reset_keeps_span();
                        ran.node.reset_keeps_shape();
                        Self::run_repeat_keeps_span(
                            bound,
                            ran.node.reset(),
                            times,
                            counted(count),
                            completed,
                            ran.target,
                            surplus,
                            effect,
                            live,
                        );
                    }
                },
            }
        }
    }

    /// [`Timeline::run_keeps_span`] for the children of a sequence.
    pub proof fn run_sequence_keeps_span<T>(
        bound: nat,
        children: Seq<Self>,
        index: nat,
        completed: Completion<E>,
        target: T,
        dt: nat,
        effect: Effect<F, A, T>,
        live: bool,
    )
        ensures
            ({
                let after = Self::run_sequence(bound, children, index, completed, target, dt, effect, live).node;
                &&& after is Sequence
                &&& after->Sequence_children.len() == children.len()
                &&& forall|i: int|
                    0 <= i < children.len() ==> {
                        &&& (#[trigger] after->Sequence_children[i]).span() == children[i].span()
                        &&& after->Sequence_children[i].ends() == children[i].ends()
                    }
            }),
        decreases bound, 0nat, children.len() - index,
    {
        if index >= children.len() || children[index as int].size() >= bound {
        } else {
            children[index as int].run_keeps_span(target, dt, effect, live);
            let ran = children[index as int].run(target, dt, effect, live);
            let moved = children.update(index as int, ran.node);
            match ran.progress {
                Progress::Running => {},
                Progress::Done { surplus } => {
                    Self::run_sequence_keeps_span(
                        bound,
                        moved,
                        index + 1,
                        completed,
                        ran.target,
                        surplus,
                        effect,
                        live,
                    );
                },
            }
        }
    }

    /// [`Timeline::run_keeps_span`] for the children of a parallel group.
    pub proof fn run_parallel_keeps_span<T>(
        bound: nat,
        children: Seq<Self>,
        from: nat,
        so_far: Progress,
        completed: Completion<E>,
        target: T,
        dt: nat,
        effect: Effect<F, A, T>,
        live: bool,
    )
        ensures
            ({
                let after = Self::run_parallel(
                    bound,
                    children,
                    from,
                    so_far,
                    completed,
                    target,
                    dt,
                    effect,
                    live,
                ).node;
                &&& after is Parallel
                &&& after->Parallel_children.len() == children.len()
                &&& forall|i: int|
                    0 <= i < children.len() ==> {
                        &&& (#[trigger] after->Parallel_children[i]).span() == children[i].span()
                        &&& after->Parallel_children[i].ends() == children[i].ends()
                    }
            }),
        decreases bound, 0nat, children.len() - from,
    {
        if from >= children.len() || children[from as int].size() >= bound {
        } else {
            children[from as int].run_keeps_span(target, dt, effect, live);
            let ran = children[from as int].run(target, dt, effect, live);
            Self::run_parallel_keeps_span(
                bound,
                children.update(from as int, ran.node),
                from + 1,
                so_far.meet(ran.progress),
                completed,
                ran.target,
                dt,
                effect,
                live,
            );
        }
    }

    /// What a call reports on a timeline that has `rest` nanoseconds left
    /// when `dt` come in: `Done` with the excess if that is enough, and
    /// `Running` if it is not.
    pub open spec fn report(rest: nat, dt: nat) -> Progress {
        if dt >= rest {
            Progress::Done { surplus: (dt - rest) as nat }
        } else {
            Progress::Running
        }
    }

    /// A timeline takes what is left of its span, and no more.
    ///
    /// A call on an orderly timeline whose repeats all have an end reports
    /// `Done` exactly when the time that comes in is the rest of the timeline
    /// or more; the surplus is then what the time exceeds the rest by. While
    /// the time is less, the call reports `Running`. Either way the rest of
    /// the timeline goes down by the time that came in, and not below 0.
    pub proof fn run_takes_the_rest<T>(self, target: T, dt: nat, effect: Effect<F, A, T>, live: bool)
        requires
            self.orderly(),
            self.ends(),
        ensures
            self.run(target, dt, effect, live).progress == Self::report(self.rest(), dt),
            self.run(target, dt, effect, live).node.rest() == less(self.rest(), dt),
        decreases self.size(), 1nat, 0nat,
    {
        match self {
            Timeline::Once { .. } => {},
            Timeline::Pause { .. } => {},
            Timeline::Repeat { child, times, count, completed } => {
                Self::run_repeat_takes_the_rest(
                    self.size(),
                    *child,
                    times,
                    count,
                    completed,
                    target,
                    dt,
                    effect,
                    live,
                );
            },
            Timeline::Sequence { index, children, completed } => {
                assert forall|i: int| 0 <= i < children.len() implies (#[trigger] children[i]).size()
                    < self.size() by {
                    Self::member_size(children, i);
                }
                Self::run_sequence_takes_the_rest(
                    self.size(),
                    children,
                    index,
                    completed,
                    target,
                    dt,
                    effect,
                    live,
                );
            },
            Timeline::Parallel { children, completed } => {
                assert forall|i: int| 0 <= i < children.len() implies (#[trigger] children[i]).size()
                    < self.size() by {
                    Self::member_size(children, i);
                }
                Self::run_parallel_takes_the_rest(
                    self.size(),
                    children,
                    0,
                    Progress::Done { surplus: dt },
                    completed,
                    target,
                    dt,
                    effect,
                    live,
                );
                let after = Self::run_parallel(
                    self.size(),
                    children,
                    0,
                    Progress::Done { surplus: dt },
                    completed,
                    target,
                    dt,
                    effect,
                    live,
                ).node->Parallel_children;
                Self::longest_rest_shrinks(after, children, 0, dt);
            },
        }
    }

    /// [`Timeline::run_takes_the_rest`] for the runs of a repeat.
    pub proof fn run_repeat_takes_the_rest<T>(
        bound: nat,
        child: Self,
        times: RepeatTimes,
        count: nat,
        completed: Completion<E>,
        target: T,
        dt: nat,
        effect: Effect<F, A, T>,
        live: bool,
    )
        requires
            (Timeline::Repeat { child: Box::new(child), times, count, completed }).orderly(),
            (Timeline::Repeat { child: Box::new(child), times, count, completed }).ends(),
            child.size() < bound,
        ensures
            ({
                let before = Timeline::Repeat { child: Box::new(child), times, count, completed };
                let ran = Self::run_repeat(bound, child, times, count, completed, target, dt, effect, live);
                &&& ran.progress == Self::report(before.rest(), dt)
                &&& ran.node.rest() == less(before.rest(), dt)
            }),
        decreases bound, 0nat, repeat_fuel(times, count, dt),
    {
        let amount = times->0;
        if times.exhausted_by(count) {
        } else {
            let to_come = (amount - count - 1) as nat;
            let one = child.span();
            assert(to_come * one >= 0) by (nonlinear_arith)
                requires
                    to_come >= 0,
                    one >= 0,
            ;
            child.run_takes_the_rest(target, dt, effect, live);
            child.run_keeps_span(target, dt, effect, live);
            child.run_keeps_shape(target, dt, effect, live);
            child.run_keeps_order(target, dt, effect, live);
            let ran = child.run(target, dt, effect, live);
            match ran.progress {
                Progress::Running => {
                    let after = Timeline::Repeat { child: Box::new(ran.node), times, count, completed };
                    assert(after.rest() == ran.node.rest() + to_come * ran.node.span());
                },
                Progress::Done { surplus } => {
                    let again = ran.node.reset();
                    ran.node.reset_keeps_shape();
                    ran.node.reset_keeps_span();
                    ran.node.reset_restores_what_rewinds();
                    ran.node.fresh_is_orderly();
                    ran.node.fresh_has_its_span_left();
                    assert(counted(count) == count + 1);
                    let then = Timeline::Repeat {
                        child: Box::new(again),
                        times,
                        count: count + 1,
                        completed,
                    };
                    if count + 1 < amount {
                        let left = (amount - (count + 1) - 1) as nat;
                        assert(then.rest() == again.rest() + left * again.span());
                        assert(one + left * one == to_come * one) by (nonlinear_arith)
                            requires
                                to_come == left + 1,
                        ;
                    } else {
                        assert(to_come * one == 0) by (nonlinear_arith)
                            requires
                                to_come == 0,
                        ;
                    }
                    assert(then.rest() == to_come * one);
                    Self::run_repeat_takes_the_rest(
                        bound,
                        again,
                        times,
                        count + 1,
                        completed,
                        ran.target,
                        surplus,
                        effect,
                        live,
                    );
                },
            }
        }
    }

    /// The sum of the rests from a position on is the rest of the timeline
    /// there and the sum from the next position on.
    pub proof fn rests_from_unfolds(nodes: Seq<Self>, from: nat)
        ensures
            Self::rests_from(nodes, from) == if from >= nodes.len() {
                0
            } else {
                nodes[from as int].rest() + Self::rests_from(nodes, from + 1)
            },
    {
    }

    /// The rests of the timelines after a position do not change when a
    /// timeline at or before that position does.
    pub proof fn rests_from_later(nodes: Seq<Self>, at: int, node: Self, from: nat)
        requires
            0 <= at < from,
            at < nodes.len(),
        ensures
            Self::rests_from(nodes.update(at, node), from) == Self::rests_from(nodes, from),
            Self::longest_rest_from(nodes.update(at, node), from) == Self::longest_rest_from(nodes, from),
    {
        Self::rests_pointwise(nodes.update(at, node), nodes, from);
    }

    /// [`Timeline::run_takes_the_rest`] for the children of a sequence.
    pub proof fn run_sequence_takes_the_rest<T>(
        bound: nat,
        children: Seq<Self>,
        index: nat,
        completed: Completion<E>,
        target: T,
        dt: nat,
        effect: Effect<F, A, T>,
        live: bool,
    )
        requires
            (Timeline::Sequence { index, children, completed }).orderly(),
            (Timeline::Sequence { index, children, completed }).ends(),
            forall|i: int| 0 <= i < children.len() ==> (#[trigger] children[i]).size() < bound,
        ensures
            ({
                let ran = Self::run_sequence(bound, children, index, completed, target, dt, effect, live);
                &&& ran.progress == Self::report(Self::rests_from(children, index), dt)
                &&& ran.node.rest() == less(Self::rests_from(children, index), dt)
            }),
        decreases bound, 0nat, children.len() - index,
    {
        Self::rests_from_unfolds(children, index);
        if index >= children.len() {
        } else {
            let child = children[index as int];
            child.run_takes_the_rest(target, dt, effect, live);
            child.run_keeps_span(target, dt, effect, live);
            child.run_keeps_shape(target, dt, effect, live);
            child.run_keeps_order(target, dt, effect, live);
            let ran = child.run(target, dt, effect, live);
            ran.node.orderly_is_wf();
            let moved = children.update(index as int, ran.node);
            Self::rests_from_later(children, index as int, ran.node, index + 1);
            match ran.progress {
                Progress::Running => {
                    Self::rests_from_unfolds(moved, index);
                },
                Progress::Done { surplus } => {
                    assert forall|i: int| 0 <= i < moved.len() implies {
                        &&& (#[trigger] moved[i]).wf()
                        &&& moved[i].ends()
                        &&& i < index + 1 ==> moved[i].rewinds()
                        &&& i == index + 1 ==> moved[i].orderly()
                        &&& i > index + 1 ==> moved[i].pristine()
                    } by {
                        if i != index {
                            assert(moved[i] == children[i]);
                            if i == index + 1 {
                                children[i].pristine_is_orderly();
                            }
                        }
                    }
                    Self::run_sequence_takes_the_rest(
                        bound,
                        moved,
                        index + 1,
                        completed,
                        ran.target,
                        surplus,
                        effect,
                        live,
                    );
                },
            }
        }
    }

    /// [`Timeline::run_takes_the_rest`] for the children of a parallel group
    /// from `from` on: the call reports what `so_far` and the longest of
    /// their rests make together, and each of them has given up `dt` of its
    /// rest. The children before `from` stay as they are.
    pub proof fn run_parallel_takes_the_rest<T>(
        bound: nat,
        children: Seq<Self>,
        from: nat,
        so_far: Progress,
        completed: Completion<E>,
        target: T,
        dt: nat,
        effect: Effect<F, A, T>,
        live: bool,
    )
        requires
            from <= children.len(),
            forall|i: int| 0 <= i < children.len() ==> (#[trigger] children[i]).orderly(),
            forall|i: int| 0 <= i < children.len() ==> (#[trigger] children[i]).ends(),
            forall|i: int| 0 <= i < children.len() ==> (#[trigger] children[i]).size() < bound,
            so_far matches Progress::Done { surplus } ==> surplus <= dt,
        ensures
            ({
                let ran = Self::run_parallel(
                    bound,
                    children,
                    from,
                    so_far,
                    completed,
                    target,
                    dt,
                    effect,
                    live,
                );
                &&& ran.progress == so_far.meet(Self::report(Self::longest_rest_from(children, from), dt))
                &&& ran.node is Parallel
                &&& ran.node->Parallel_children.len() == children.len()
                &&& forall|i: int| 0 <= i < from ==> (#[trigger] ran.node->Parallel_children[i]) == children[i]
                &&& forall|i: int|
                    from <= i < children.len() ==> (#[trigger] ran.node->Parallel_children[i]).rest()
                        == less(children[i].rest(), dt)
            }),
        decreases bound, 0nat, children.len() - from,
    {
        if from >= children.len() {
        } else {
            let child = children[from as int];
            child.run_takes_the_rest(target, dt, effect, live);
            child.run_keeps_span(target, dt, effect, live);
            child.run_keeps_shape(target, dt, effect, live);
            child.run_keeps_order(target, dt, effect, live);
            let ran = child.run(target, dt, effect, live);
            let moved = children.update(from as int, ran.node);
            Self::rests_from_later(children, from as int, ran.node, from + 1);
            assert forall|i: int| 0 <= i < moved.len() implies (#[trigger] moved[i]).orderly()
                && moved[i].ends() && moved[i].size() < bound by {
                if i != from {
                    assert(moved[i] == children[i]);
                }
            }
            Self::run_parallel_takes_the_rest(
                bound,
                moved,
                from + 1,
                so_far.meet(ran.progress),
                completed,
                ran.target,
                dt,
                effect,
                live,
            );
            let after = Self::run_parallel(
                bound,
                children,
                from,
                so_far,
                completed,
                target,
                dt,
                effect,
                live,
            ).node;
            assert(after->Parallel_children[from as int] == moved[from as int]);
            assert forall|i: int| from < i < children.len() implies (#[trigger] after->Parallel_children[i]).rest()
                == less(children[i].rest(), dt) by {
                assert(moved[i] == children[i]);
            }
        }
    }
}

} // verus!
