//! How a call ends: what `Done` says of the timeline, what a complete
//! timeline does, and what a call that is not live leaves alone.
use vstd::prelude::*;
use crate::capability::{Completion, Diagnostic};
use crate::progress::{Progress, RepeatTimes};
use crate::timeline::{counted, repeat_fuel, Effect, Outcome, Timeline};

verus! {

impl<T, F, A, E> Outcome<T, F, A, E> {
    /// Whether the call did no more than move time: it sent nothing and left
    /// `target` as it was.
    pub open spec fn quiet(self, target: T) -> bool {
        &&& self.events == Seq::<E>::empty()
        &&& self.diagnostics == Seq::<Diagnostic>::empty()
        &&& self.target == target
    }

    /// Whether the call sent nothing.
    pub open spec fn silent(self) -> bool {
        &&& self.events == Seq::<E>::empty()
        &&& self.diagnostics == Seq::<Diagnostic>::empty()
    }

    /// Whether the call found `before` complete and did what is owed then:
    /// it reported `Done` with all of `dt` as surplus, sent nothing and moved
    /// no clock.
    pub open spec fn passed_through(self, before: Timeline<F, A, E>, dt: nat) -> bool {
        &&& self.progress == Progress::Done { surplus: dt }
        &&& self.silent()
        &&& self.node.clocks() == before.clocks()
    }

    /// Whether a report of `Done` is in order: the surplus is no more than
    /// the time that came in, and the timeline is complete.
    pub open spec fn settled(self, dt: nat) -> bool {
        self.progress matches Progress::Done { surplus } ==> surplus <= dt && self.node.complete()
    }
}

impl<F, A, E> Timeline<F, A, E> {
    /// Of a call on a well-formed timeline: `Done` comes with a surplus of no
    /// more than `dt` and leaves the timeline complete; a timeline that was
    /// complete is passed through; a call that is not live is quiet.
    pub proof fn run_settles<T>(self, target: T, dt: nat, effect: Effect<F, A, T>, live: bool)
        requires
            self.wf(),
        ensures
            self.run(target, dt, effect, live).settled(dt),
            self.complete() ==> self.run(target, dt, effect, live).passed_through(self, dt),
            !live ==> self.run(target, dt, effect, live).quiet(target),
        decreases self.size(), 1nat, 0nat,
    {
        self.run_keeps_shape(target, dt, effect, live);
        match self {
            Timeline::Once { .. } => {},
            Timeline::Pause { .. } => {},
            Timeline::Repeat { child, times, count, completed } => {
                Self::run_repeat_settles(
                    self.size(),
                    *child,
                    times,
                    count,
                    completed,
                    target,
                    dt,
                    effect,
                    live,
                );
            },
            Timeline::Sequence { index, children, completed } => {
                assert forall|i: int| 0 <= i < children.len() implies (#[trigger] children[i]).size()
                    < self.size() by {
                    Self::member_size(children, i);
                }
                Self::run_sequence_settles(
                    self.size(),
                    children,
                    index,
                    completed,
                    target,
                    dt,
                    effect,
                    live,
                );
            },
            Timeline::Parallel { children, completed } => {
                assert forall|i: int| 0 <= i < children.len() implies (#[trigger] children[i]).size()
                    < self.size() by {
                    Self::member_size(children, i);
                }
                Self::run_parallel_settles(
                    self.size(),
                    children,
                    0,
                    Progress::Done { surplus: dt },
                    completed,
                    target,
                    dt,
                    effect,
                    live,
                );
            },
        }
    }

    /// [`Timeline::run_settles`] for the runs of a repeat. `Done` means that
    /// the policy is exhausted; an exhausted repeat is passed through.
    pub proof fn run_repeat_settles<T>(
        bound: nat,
        child: Self,
        times: RepeatTimes,
        count: nat,
        completed: Completion<E>,
        target: T,
        dt: nat,
        effect: Effect<F, A, T>,
        live: bool,
    )
        requires
            child.wf(),
            child.size() < bound,
        ensures
            ({
                let before = Timeline::Repeat { child: Box::new(child), times, count, completed };
                let ran = Self::run_repeat(bound, child, times, count, completed, target, dt, effect, live);
                &&& ran.settled(dt)
                &&& before.complete() ==> ran.passed_through(before, dt)
                &&& !live ==> ran.quiet(target)
            }),
        decreases bound, 0nat, repeat_fuel(times, count, dt),
    {
        Self::run_repeat_keeps_shape(bound, child, times, count, completed, target, dt, effect, live);
        if times.exhausted_by(count) {
        } else {
            child.run_settles(target, dt, effect, live);
            child.run_keeps_shape(target, dt, effect, live);
            let ran = child.run(target, dt, effect, live);
            match ran.progress {
                Progress::Running => {},
                Progress::Done { surplus } => {
                    if times is Infinite && dt <= surplus {
                    } else {
                        ran.node.reset_keeps_shape();
                        Self::run_repeat_settles(
                            bound,
                            ran.node.reset(),
                            times,
                            counted(count),
                            completed,
                            ran.target,
                            surplus,
                            effect,
                            live,
                        );
                        let rest = Self::run_repeat(
                            bound,
                            ran.node.reset(),
                            times,
                            counted(count),
                            completed,
                            ran.target,
                            surplus,
                            effect,
                            live,
                        );
                        if !live {
                            assert(ran.events + rest.events =~= Seq::<E>::empty());
                            assert(ran.diagnostics + rest.diagnostics =~= Seq::<Diagnostic>::empty());
                        }
                    }
                },
            }
        }
    }

    /// [`Timeline::run_settles`] for the children of a sequence. `Done`
    /// means that the cursor is past the last child; a sequence whose cursor
    /// is there is passed through.
    pub proof fn run_sequence_settles<T>(
        bound: nat,
        children: Seq<Self>,
        index: nat,
        completed: Completion<E>,
        target: T,
        dt: nat,
        effect: Effect<F, A, T>,
        live: bool,
    )
        requires
            index <= children.len(),
            forall|i: int| 0 <= i < children.len() ==> (#[trigger] children[i]).wf(),
            forall|i: int| 0 <= i < children.len() ==> (#[trigger] children[i]).size() < bound,
        ensures
            ({
                let before = Timeline::Sequence { index, children, completed };
                let ran = Self::run_sequence(bound, children, index, completed, target, dt, effect, live);
                &&& ran.settled(dt)
                &&& before.complete() ==> ran.passed_through(before, dt)
                &&& !live ==> ran.quiet(target)
            }),
        decreases bound, 0nat, children.len() - index,
    {
        if index >= children.len() {
        } else {
            let child = children[index as int];
            child.run_settles(target, dt, effect, live);
            child.run_keeps_shape(target, dt, effect, live);
            let ran = child.run(target, dt, effect, live);
            let moved = children.update(index as int, ran.node);
            match ran.progress {
                Progress::Running => {},
                Progress::Done { surplus } => {
                    Self::run_sequence_settles(
                        bound,
                        moved,
                        index + 1,
                        completed,
                        ran.target,
                        surplus,
                        effect,
                        live,
                    );
                    let rest = Self::run_sequence(
                        bound,
                        moved,
                        index + 1,
                        completed,
                        ran.target,
                        surplus,
                        effect,
                        live,
                    );
                    if !live {
                        assert(ran.events + rest.events =~= Seq::<E>::empty());
                        assert(ran.diagnostics + rest.diagnostics =~= Seq::<Diagnostic>::empty());
                    }
                },
            }
        }
    }

    /// [`Timeline::run_settles`] for the children of a parallel group from
    /// `from` on. The children before `from` stay as they are. `Done` means
    /// that `so_far` was `Done` and that every child from `from` on is now
    /// complete; where all of them were complete before, the call reports
    /// `so_far`, sends nothing and moves no clock.
    pub proof fn run_parallel_settles<T>(
        bound: nat,
        children: Seq<Self>,
        from: nat,
        so_far: Progress,
        completed: Completion<E>,
        target: T,
        dt: nat,
        effect: Effect<F, A, T>,
        live: bool,
    )
        requires
            from <= children.len(),
            forall|i: int| 0 <= i < children.len() ==> (#[trigger] children[i]).wf(),
            forall|i: int| 0 <= i < children.len() ==> (#[trigger] children[i]).size() < bound,
            so_far matches Progress::Done { surplus } ==> surplus <= dt,
        ensures
            ({
                let ran = Self::run_parallel(
                    bound,
                    children,
                    from,
                    so_far,
                    completed,
                    target,
                    dt,
                    effect,
                    live,
                );
                &&& ran.node is Parallel
                &&& ran.node->Parallel_children.len() == children.len()
                &&& forall|i: int| 0 <= i < from ==> (#[trigger] ran.node->Parallel_children[i]) == children[i]
                &&& ran.progress matches Progress::Done { surplus } ==> {
                    &&& surplus <= dt
                    &&& so_far is Done
                    &&& forall|i: int|
                        from <= i < children.len() ==> (#[trigger] ran.node->Parallel_children[i]).complete()
                }
                &&& (forall|i: int| from <= i < children.len() ==> (#[trigger] children[i]).complete()) ==> {
                    &&& ran.progress == so_far
                    &&& ran.silent()
                    &&& ran.node.clocks() == (Timeline::Parallel { children, completed }).clocks()
                }
                &&& !live ==> ran.quiet(target)
            }),
        decreases bound, 0nat, children.len() - from,
    {
        if from >= children.len() {
        } else {
            let child = children[from as int];
            child.run_settles(target, dt, effect, live);
            child.run_keeps_shape(target, dt, effect, live);
            let ran = child.run(target, dt, effect, live);
            let moved = children.update(from as int, ran.node);
            Self::run_parallel_settles(
                bound,
                moved,
                from + 1,
                so_far.meet(ran.progress),
                completed,
                ran.target,
                dt,
                effect,
                live,
            );
            let rest = Self::run_parallel(
                bound,
                moved,
                from + 1,
                so_far.meet(ran.progress),
                completed,
                ran.target,
                dt,
                effect,
                live,
            );
            let all = rest.after(ran.events, ran.diagnostics);
            assert(all.node->Parallel_children[from as int] == ran.node);
            if !live {
                assert(ran.events + rest.events =~= Seq::<E>::empty());
                assert(ran.diagnostics + rest.diagnostics =~= Seq::<Diagnostic>::empty());
            }
            if forall|i: int| from <= i < children.len() ==> (#[trigger] children[i]).complete() {
                assert(child.complete());
                assert forall|i: int| from + 1 <= i < moved.len() implies (#[trigger] moved[i]).complete() by {
                    assert(moved[i] == children[i]);
                }
                assert(ran.events + rest.events =~= Seq::<E>::empty());
                assert(ran.diagnostics + rest.diagnostics =~= Seq::<Diagnostic>::empty());
                Self::clocks_keep_shapes(moved);
                Self::clocks_keep_shapes(children);
                assert(Self::clocks_of(moved) =~= Self::clocks_of(children));
            }
        }
    }
}

} // verus!
