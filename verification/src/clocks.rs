//! Time alone: what a timeline is when capabilities and payloads are left
//! out, and the proof that a call moves it without regard to them.
use vstd::prelude::*;
use crate::capability::Completion;
use crate::progress::{Progress, RepeatTimes};
use crate::timeline::{counted, idle, repeat_fuel, Effect, Timeline};

verus! {

/// A timeline without capabilities and payloads: durations, clocks, policies,
/// counters and cursors.
pub type Clocks = Timeline<(), (), ()>;

impl<F, A, E> Timeline<F, A, E> {
    /// The timeline with its interpolators, appliers and payloads left out.
    pub open spec fn clocks(self) -> Clocks
        decreases self,
    {
        match self {
            Timeline::Once { duration, elapsed, .. } => Timeline::Once {
                duration,
                elapsed,
                function: (),
                applier: (),
                completed: Completion::Silent,
            },
            Timeline::Pause { duration, elapsed, .. } => Timeline::Pause {
                duration,
                elapsed,
                completed: Completion::Silent,
            },
            Timeline::Repeat { child, times, count, .. } => Timeline::Repeat {
                child: Box::new(child.clocks()),
                times,
                count,
                completed: Completion::Silent,
            },
            Timeline::Sequence { index, children, .. } => Timeline::Sequence {
                index,
                children: Self::clocks_of(children),
                completed: Completion::Silent,
            },
            Timeline::Parallel { children, .. } => Timeline::Parallel {
                children: Self::clocks_of(children),
                completed: Completion::Silent,
            },
        }
    }

    /// The clocks of each timeline of a list.
    pub open spec fn clocks_of(nodes: Seq<Self>) -> Seq<Clocks>
        decreases nodes,
    {
        Seq::new(
            nodes.len(),
            |i: int|
                if 0 <= i < nodes.len() {
                    nodes[i].clocks()
                } else {
                    arbitrary()
                },
        )
    }

    /// Leaving out capabilities and payloads changes neither the size of a
    /// timeline, nor whether it is complete, nor whether it is well formed.
    pub proof fn clocks_keep_shape(self)
        ensures
            self.clocks().size() == self.size(),
            self.clocks().complete() == self.complete(),
            self.clocks().wf() == self.wf(),
        decreases self,
    {
        match self {
            Timeline::Once { .. } => {},
            Timeline::Pause { .. } => {},
            Timeline::Repeat { child, .. } => {
                child.clocks_keep_shape();
            },
            Timeline::Sequence { children, .. } => {
                Self::clocks_keep_shapes(children);
                Self::wf_by_clocks(children);
            },
            Timeline::Parallel { children, .. } => {
                Self::clocks_keep_shapes(children);
                Self::wf_by_clocks(children);
            },
        }
    }

    /// The timelines of a list are all well formed, or all complete, exactly
    /// when their clocks are.
    proof fn wf_by_clocks(nodes: Seq<Self>)
        requires
            forall|i: int|
                #![trigger nodes[i]]
                #![trigger Self::clocks_of(nodes)[i]]
                0 <= i < nodes.len() ==> {
                    &&& Self::clocks_of(nodes)[i].complete() == nodes[i].complete()
                    &&& Self::clocks_of(nodes)[i].wf() == nodes[i].wf()
                },
        ensures
            (forall|i: int| 0 <= i < nodes.len() ==> (#[trigger] nodes[i]).wf()) == (forall|i: int|
                0 <= i < nodes.len() ==> (#[trigger] Self::clocks_of(nodes)[i]).wf()),
            (forall|i: int| 0 <= i < nodes.len() ==> (#[trigger] nodes[i]).complete()) == (forall|
                i: int,
            |
                0 <= i < nodes.len() ==> (#[trigger] Self::clocks_of(nodes)[i]).complete()),
    {
    }

    /// [`Timeline::clocks_keep_shape`] for the timelines of a list.
    pub proof fn clocks_keep_shapes(nodes: Seq<Self>)
        ensures
            Self::clocks_of(nodes).len() == nodes.len(),
            Clocks::total_size(Self::clocks_of(nodes)) == Self::total_size(nodes),
            forall|i: int|
                #![trigger nodes[i]]
                #![trigger Self::clocks_of(nodes)[i]]
                0 <= i < nodes.len() ==> {
                    &&& Self::clocks_of(nodes)[i] == nodes[i].clocks()
                    &&& Self::clocks_of(nodes)[i].size() == nodes[i].size()
                    &&& Self::clocks_of(nodes)[i].complete() == nodes[i].complete()
                    &&& Self::clocks_of(nodes)[i].wf() == nodes[i].wf()
                },
        decreases nodes,
    {
        let erased = Self::clocks_of(nodes);
        assert forall|i: int|
            #![trigger nodes[i]]
            #![trigger erased[i]]
            0 <= i < nodes.len() implies {
            &&& erased[i] == nodes[i].clocks()
            &&& erased[i].size() == nodes[i].size()
            &&& erased[i].complete() == nodes[i].complete()
            &&& erased[i].wf() == nodes[i].wf()
        } by {
            nodes[i].clocks_keep_shape();
        }
        Self::total_size_across(nodes, erased);
    }

    /// Two lists, of timelines of any two kinds, whose trees have the same
    /// sizes one by one, have the same size.
    pub proof fn total_size_across<G, B, D>(ours: Seq<Self>, theirs: Seq<Timeline<G, B, D>>)
        requires
            ours.len() == theirs.len(),
            forall|i: int| 0 <= i < ours.len() ==> (#[trigger] ours[i]).size() == theirs[i].size(),
        ensures
            Self::total_size(ours) == Timeline::<G, B, D>::total_size(theirs),
        decreases ours.len(),
    {
        if ours.len() > 0 {
            Self::total_size_across(ours.drop_last(), theirs.drop_last());
        }
    }

    /// Resetting and leaving out capabilities can be done in either order.
    pub proof fn reset_by_clocks(self)
        ensures
            self.reset().clocks() == self.clocks().reset(),
        decreases self,
    {
        match self {
            Timeline::Once { .. } => {},
            Timeline::Pause { .. } => {},
            Timeline::Repeat { child, .. } => {
                child.reset_by_clocks();
            },
            Timeline::Sequence { index, children, .. } => {
                let ours = self.reset().clocks()->Sequence_children;
                let theirs = self.clocks().reset()->Sequence_children;
                let rewound = self.reset()->Sequence_children;
                Self::clocks_keep_shapes(children);
                Self::clocks_keep_shapes(rewound);
                assert forall|i: int| 0 <= i < children.len() implies ours[i] == theirs[i] by {
                    children[i].reset_by_clocks();
                    assert(ours[i] == rewound[i].clocks());
                    assert(Self::clocks_of(children)[i] == children[i].clocks());
                }
                assert(ours =~= theirs);
            },
            Timeline::Parallel { children, .. } => {
                let ours = self.reset().clocks()->Parallel_children;
                let theirs = self.clocks().reset()->Parallel_children;
                let rewound = self.reset()->Parallel_children;
                Self::clocks_keep_shapes(children);
                Self::clocks_keep_shapes(rewound);
                assert forall|i: int| 0 <= i < children.len() implies ours[i] == theirs[i] by {
                    children[i].reset_by_clocks();
                    assert(ours[i] == rewound[i].clocks());
                    assert(Self::clocks_of(children)[i] == children[i].clocks());
                }
                assert(ours =~= theirs);
            },
        }
    }

    /// A call moves the clocks of a timeline as `skip` moves the clocks
    /// alone, and reports what `skip` reports on them: neither the target,
    /// nor what the capabilities do, nor whether the call is live makes a
    /// difference to time.
    pub proof fn run_by_clocks<T>(self, target: T, dt: nat, effect: Effect<F, A, T>, live: bool)
        ensures
            self.run(target, dt, effect, live).progress == self.clocks().skipped(dt).progress,
            self.run(target, dt, effect, live).node.clocks() == self.clocks().skipped(dt).node,
        decreases self.size(), 1nat, 0nat,
    {
        self.clocks_keep_shape();
        match self {
            Timeline::Once { .. } => {},
            Timeline::Pause { .. } => {},
            Timeline::Repeat { child, times, count, completed } => {
                Self::run_repeat_by_clocks(
                    self.size(),
                    *child,
                    times,
                    count,
                    completed,
                    target,
                    dt,
                    effect,
                    live,
                );
            },
            Timeline::Sequence { index, children, completed } => {
                Self::run_sequence_by_clocks(
                    self.size(),
                    children,
                    index,
                    completed,
                    target,
                    dt,
                    effect,
                    live,
                );
            },
            Timeline::Parallel { children, completed } => {
                Self::run_parallel_by_clocks(
                    self.size(),
                    children,
                    0,
                    Progress::Done { surplus: dt },
                    completed,
                    target,
                    dt,
                    effect,
                    live,
                );
            },
        }
    }

    /// [`Timeline::run_by_clocks`] for the runs of a repeat.
    pub proof fn run_repeat_by_clocks<T>(
        bound: nat,
        child: Self,
        times: RepeatTimes,
        count: nat,
        completed: Completion<E>,
        target: T,
        dt: nat,
        effect: Effect<F, A, T>,
        live: bool,
    )
        ensures
            ({
                let ours = Self::run_repeat(bound, child, times, count, completed, target, dt, effect, live);
                let theirs = Clocks::run_repeat(
                    bound,
                    child.clocks(),
                    times,
                    count,
                    Completion::Silent,
                    (),
                    dt,
                    idle(),
                    false,
                );
                &&& ours.progress == theirs.progress
                &&& ours.node.clocks() == theirs.node
            }),
        decreases bound, 0nat, repeat_fuel(times, count, dt),
    {
        child.clocks_keep_shape();
        if times.exhausted_by(count) || child.size() >= bound {
        } else {
            child.run_by_clocks(target, dt, effect, live);
            let ran = child.run(target, dt, effect, live);
            match ran.progress {
                Progress::Running => {},
                Progress::Done { surplus } => {
                    if times is Infinite && dt <= surplus {
                    } else {
                        ran.node.reset_by_clocks();
                        Self::run_repeat_by_clocks(
                            bound,
                            ran.node.reset(),
                            times,
                            counted(count),
                            completed,
                            ran.target,
                            surplus,
                            effect,
                            live,
                        );
                    }
                },
            }
        }
    }

    /// [`Timeline::run_by_clocks`] for the children of a sequence.
    pub proof fn run_sequence_by_clocks<T>(
        bound: nat,
        children: Seq<Self>,
        index: nat,
        completed: Completion<E>,
        target: T,
        dt: nat,
        effect: Effect<F, A, T>,
        live: bool,
    )
        ensures
            ({
                let ours = Self::run_sequence(bound, children, index, completed, target, dt, effect, live);
                let theirs = Clocks::run_sequence(
                    bound,
                    Self::clocks_of(children),
                    index,
                    Completion::Silent,
                    (),
                    dt,
                    idle(),
                    false,
                );
                &&& ours.progress == theirs.progress
                &&& ours.node.clocks() == theirs.node
            }),
        decreases bound, 0nat, children.len() - index,
    {
        Self::clocks_keep_shapes(children);
        if index >= children.len() || children[index as int].size() >= bound {
        } else {
            let child = children[index as int];
            child.run_by_clocks(target, dt, effect, live);
            let ran = child.run(target, dt, effect, live);
            let moved = children.update(index as int, ran.node);
            Self::clocks_keep_shapes(moved);
            assert(Self::clocks_of(moved) =~= Self::clocks_of(children).update(
                index as int,
                ran.node.clocks(),
            ));
            match ran.progress {
                Progress::Running => {},
                Progress::Done { surplus } => {
                    Self::run_sequence_by_clocks(
                        bound,
                        moved,
                        index + 1,
                        completed,
                        ran.target,
                        surplus,
                        effect,
                        live,
                    );
                },
            }
        }
    }

    /// [`Timeline::run_by_clocks`] for the children of a parallel group.
    pub proof fn run_parallel_by_clocks<T>(
        bound: nat,
        children: Seq<Self>,
        from: nat,
        so_far: Progress,
        completed: Completion<E>,
        target: T,
        dt: nat,
        effect: Effect<F, A, T>,
        live: bool,
    )
        ensures
            ({
                let ours = Self::run_parallel(
                    bound,
                    children,
                    from,
                    so_far,
                    completed,
                    target,
                    dt,
                    effect,
                    live,
                );
                let theirs = Clocks::run_parallel(
                    bound,
                    Self::clocks_of(children),
                    from,
                    so_far,
                    Completion::Silent,
                    (),
                    dt,
                    idle(),
                    false,
                );
                &&& ours.progress == theirs.progress
                &&& ours.node.clocks() == theirs.node
            }),
        decreases bound, 0nat, children.len() - from,
    {
        Self::clocks_keep_shapes(children);
        if from >= children.len() || children[from as int].size() >= bound {
        } else {
            let child = children[from as int];
            child.run_by_clocks(target, dt, effect, live);
            let ran = child.run(target, dt, effect, live);
            let moved = children.update(from as int, ran.node);
            Self::clocks_keep_shapes(moved);
            assert(Self::clocks_of(moved) =~= Self::clocks_of(children).update(
                from as int,
                ran.node.clocks(),
            ));
            Self::run_parallel_by_clocks(
                bound,
                moved,
                from + 1,
                so_far.meet(ran.progress),
                completed,
                ran.target,
                dt,
                effect,
                live,
            );
        }
    }
}

} // verus!
