//! `reset`, and when it takes a timeline back to the state in which it was
//! built.
use vstd::prelude::*;
use crate::capability::Completion;
use crate::progress::{Progress, RepeatTimes};
use crate::timeline::{counted, repeat_fuel, Effect, Timeline};

verus! {

impl<F, A, E> Timeline<F, A, E> {
    /// The timeline as it was when it was built: every clock and every
    /// counter at 0, every cursor at the first child. Capabilities and
    /// payloads stay as they are.
    pub open spec fn fresh(self) -> Self
        decreases self,
    {
        match self {
            Timeline::Once { duration, function, applier, completed, .. } => Timeline::Once {
                duration,
                elapsed: 0,
                function,
                applier,
                completed,
            },
            Timeline::Pause { duration, completed, .. } => Timeline::Pause {
                duration,
                elapsed: 0,
                completed,
            },
            Timeline::Repeat { child, times, completed, .. } => Timeline::Repeat {
                child: Box::new(child.fresh()),
                times,
                count: 0,
                completed,
            },
            Timeline::Sequence { children, completed, .. } => Timeline::Sequence {
                index: 0,
                children: Self::all_fresh(children),
                completed,
            },
            Timeline::Parallel { children, completed } => Timeline::Parallel {
                children: Self::all_fresh(children),
                completed,
            },
        }
    }

    /// Each timeline of a list as it was when it was built.
    pub open spec fn all_fresh(nodes: Seq<Self>) -> Seq<Self>
        decreases nodes,
    {
        Seq::new(
            nodes.len(),
            |i: int|
                if 0 <= i < nodes.len() {
                    nodes[i].fresh()
                } else {
                    arbitrary()
                },
        )
    }

    /// What [`Timeline::all_fresh`] holds.
    pub proof fn all_fresh_at(nodes: Seq<Self>)
        ensures
            Self::all_fresh(nodes).len() == nodes.len(),
            forall|i: int| 0 <= i < nodes.len() ==> (#[trigger] Self::all_fresh(nodes)[i]) == nodes[i].fresh(),
    {
    }

    /// A list is as it was built exactly when each of its timelines is
    /// pristine.
    pub proof fn pristine_pointwise(nodes: Seq<Self>)
        ensures
            (Self::all_fresh(nodes) == nodes) == (forall|i: int|
                0 <= i < nodes.len() ==> (#[trigger] nodes[i]).pristine()),
    {
        Self::all_fresh_at(nodes);
        if forall|i: int| 0 <= i < nodes.len() ==> (#[trigger] nodes[i]).pristine() {
            assert(Self::all_fresh(nodes) =~= nodes);
        }
        if Self::all_fresh(nodes) == nodes {
            assert forall|i: int| 0 <= i < nodes.len() implies (#[trigger] nodes[i]).pristine() by {
                assert(Self::all_fresh(nodes)[i] == nodes[i].fresh());
            }
        }
    }

    /// Whether the timeline is in the state in which it was built.
    pub open spec fn pristine(self) -> bool {
        self == self.fresh()
    }

    /// Whether `reset` takes the timeline back to the state in which it was
    /// built.
    ///
    /// It does so for a leaf. For a sequence it does so when the children
    /// before the cursor rewind and those from the cursor on are pristine,
    /// since `reset` leaves these as they are: a sequence whose active child
    /// has run for a while does not rewind.
    pub open spec fn rewinds(self) -> bool
        decreases self,
    {
        match self {
            Timeline::Once { .. } => true,
            Timeline::Pause { .. } => true,
            Timeline::Repeat { child, .. } => child.rewinds(),
            Timeline::Sequence { index, children, .. } => forall|i: int|
                0 <= i < children.len() ==> if i < index {
                    (#[trigger] children[i]).rewinds()
                } else {
                    children[i].pristine()
                },
            Timeline::Parallel { children, .. } => forall|i: int|
                0 <= i < children.len() ==> (#[trigger] children[i]).rewinds(),
        }
    }

    /// `reset` returns clocks, counters and cursors to the values with which
    /// the timeline was built exactly when the timeline rewinds; and then a
    /// timeline that was reset cannot be told from one that was just built,
    /// whatever is done with the two.
    pub proof fn reset_restores_what_rewinds(self)
        ensures
            self.rewinds() <==> self.reset() == self.fresh(),
        decreases self,
    {
        match self {
            Timeline::Once { .. } => {},
            Timeline::Pause { .. } => {},
            Timeline::Repeat { child, .. } => {
                child.reset_restores_what_rewinds();
            },
            Timeline::Sequence { index, children, .. } => {
                let rewound = self.reset()->Sequence_children;
                let built = self.fresh()->Sequence_children;
                Self::all_fresh_at(children);
                assert forall|i: int| 0 <= i < children.len() implies (if i < index {
                    (#[trigger] children[i]).rewinds()
                } else {
                    children[i].pristine()
                }) == (rewound[i] == built[i]) by {
                    children[i].reset_restores_what_rewinds();
                }
                if self.rewinds() {
                    assert(rewound =~= built);
                }
                if self.reset() == self.fresh() {
                    assert forall|i: int| 0 <= i < children.len() implies if i < index {
                        (#[trigger] children[i]).rewinds()
                    } else {
                        children[i].pristine()
                    } by {
                        assert(rewound[i] == built[i]);
                    }
                }
            },
            Timeline::Parallel { children, .. } => {
                let rewound = self.reset()->Parallel_children;
                let built = self.fresh()->Parallel_children;
                Self::all_fresh_at(children);
                assert forall|i: int| 0 <= i < children.len() implies (#[trigger] children[i]).rewinds() == (
                rewound[i] == built[i]) by {
                    children[i].reset_restores_what_rewinds();
                }
                if self.rewinds() {
                    assert(rewound =~= built);
                }
                if self.reset() == self.fresh() {
                    assert forall|i: int| 0 <= i < children.len() implies (#[trigger] children[i]).rewinds() by {
                        assert(rewound[i] == built[i]);
                    }
                }
            },
        }
    }

    /// A timeline that rewinds and was reset runs as one that was just built:
    /// given the same target and the same input, the two calls leave the same
    /// timeline and the same target, send the same signals and report the
    /// same progress; and so for every call after that.
    pub proof fn reset_timeline_runs_as_new<T>(
        self,
        target: T,
        dt: nat,
        effect: Effect<F, A, T>,
        live: bool,
    )
        requires
            self.rewinds(),
        ensures
            self.reset().run(target, dt, effect, live) == self.fresh().run(target, dt, effect, live),
    {
        self.reset_restores_what_rewinds();
    }

    /// Whether the timeline is in a state that building it and calling
    /// `advance` and `skip` on it can lead to.
    ///
    /// It is well formed. A repeat that is exhausted has a child that
    /// rewinds. In a sequence the children before the cursor rewind, the one
    /// at the cursor is orderly, and those after it are pristine.
    pub open spec fn orderly(self) -> bool
        decreases self,
    {
        match self {
            Timeline::Once { duration, elapsed, .. } => elapsed <= duration,
            Timeline::Pause { duration, elapsed, .. } => elapsed <= duration,
            Timeline::Repeat { child, times, count, .. } => {
                &&& child.orderly()
                &&& times.exhausted_by(count) ==> child.rewinds()
            },
            Timeline::Sequence { index, children, .. } => {
                &&& index <= children.len()
                &&& forall|i: int|
                    0 <= i < children.len() ==> {
                        &&& (#[trigger] children[i]).wf()
                        &&& i < index ==> children[i].rewinds()
                        &&& i == index ==> children[i].orderly()
                        &&& i > index ==> children[i].pristine()
                    }
            },
            Timeline::Parallel { children, .. } => forall|i: int|
                0 <= i < children.len() ==> (#[trigger] children[i]).orderly(),
        }
    }

    /// An orderly timeline is well formed.
    pub proof fn orderly_is_wf(self)
        requires
            self.orderly(),
        ensures
            self.wf(),
        decreases self,
    {
        match self {
            Timeline::Once { .. } => {},
            Timeline::Pause { .. } => {},
            Timeline::Repeat { child, .. } => {
                child.orderly_is_wf();
            },
            Timeline::Sequence { .. } => {},
            Timeline::Parallel { children, .. } => {
                assert forall|i: int| 0 <= i < children.len() implies (#[trigger] children[i]).wf() by {
                    children[i].orderly_is_wf();
                }
            },
        }
    }

    /// A timeline as it was built is pristine, well formed and orderly, and
    /// it rewinds.
    pub proof fn fresh_is_orderly(self)
        ensures
            self.fresh().pristine(),
            self.fresh().wf(),
            self.fresh().orderly(),
            self.fresh().rewinds(),
        decreases self,
    {
        match self {
            Timeline::Once { .. } => {},
            Timeline::Pause { .. } => {},
            Timeline::Repeat { child, .. } => {
                child.fresh_is_orderly();
            },
            Timeline::Sequence { children, .. } => {
                let built = Self::all_fresh(children);
                Self::all_fresh_at(children);
                Self::all_fresh_at(built);
                assert forall|i: int| 0 <= i < children.len() implies {
                    &&& (#[trigger] built[i]).pristine()
                    &&& built[i].wf()
                    &&& built[i].orderly()
                    &&& built[i].rewinds()
                } by {
                    children[i].fresh_is_orderly();
                }
                assert(Self::all_fresh(built) =~= built);
            },
            Timeline::Parallel { children, .. } => {
                let built = Self::all_fresh(children);
                Self::all_fresh_at(children);
                Self::all_fresh_at(built);
                assert forall|i: int| 0 <= i < children.len() implies {
                    &&& (#[trigger] built[i]).pristine()
                    &&& built[i].wf()
                    &&& built[i].orderly()
                    &&& built[i].rewinds()
                } by {
                    children[i].fresh_is_orderly();
                }
                assert(Self::all_fresh(built) =~= built);
            },
        }
    }

    /// A pristine timeline is orderly, and it rewinds.
    pub proof fn pristine_is_orderly(self)
        requires
            self.pristine(),
        ensures
            self.wf(),
            self.orderly(),
            self.rewinds(),
    {
        self.fresh_is_orderly();
    }

    /// A call keeps an orderly timeline orderly; and when it reports `Done`,
    /// the timeline rewinds.
    pub proof fn run_keeps_order<T>(self, target: T, dt: nat, effect: Effect<F, A, T>, live: bool)
        requires
            self.orderly(),
        ensures
            self.run(target, dt, effect, live).node.orderly(),
            self.run(target, dt, effect, live).progress is Done ==> self.run(
                target,
                dt,
                effect,
                live,
            ).node.rewinds(),
        decreases self.size(), 1nat, 0nat,
    {
        match self {
            Timeline::Once { .. } => {},
            Timeline::Pause { .. } => {},
            Timeline::Repeat { child, times, count, completed } => {
                Self::run_repeat_keeps_order(
                    self.size(),
                    *child,
                    times,
                    count,
                    completed,
                    target,
                    dt,
                    effect,
                    live,
                );
            },
            Timeline::Sequence { index, children, completed } => {
                assert forall|i: int| 0 <= i < children.len() implies (#[trigger] children[i]).size()
                    < self.size() by {
                    Self::member_size(children, i);
                }
                Self::run_sequence_keeps_order(
                    self.size(),
                    children,
                    index,
                    completed,
                    target,
                    dt,
                    effect,
                    live,
                );
            },
            Timeline::Parallel { children, completed } => {
                assert forall|i: int| 0 <= i < children.len() implies (#[trigger] children[i]).size()
                    < self.size() by {
                    Self::member_size(children, i);
                }
                Self::run_parallel_keeps_order(
                    self.size(),
                    children,
                    0,
                    Progress::Done { surplus: dt },
                    completed,
                    target,
                    dt,
                    effect,
                    live,
                );
            },
        }
    }

    /// [`Timeline::run_keeps_order`] for the runs of a repeat.
    pub proof fn run_repeat_keeps_order<T>(
        bound: nat,
        child: Self,
        times: RepeatTimes,
        count: nat,
        completed: Completion<E>,
        target: T,
        dt: nat,
        effect: Effect<F, A, T>,
        live: bool,
    )
        requires
            (Timeline::Repeat { child: Box::new(child), times, count, completed }).orderly(),
            child.size() < bound,
        ensures
            ({
                let ran = Self::run_repeat(bound, child, times, count, completed, target, dt, effect, live);
                &&& ran.node.orderly()
                &&& ran.progress is Done ==> ran.node.rewinds()
            }),
        decreases bound, 0nat, repeat_fuel(times, count, dt),
    {
        if times.exhausted_by(count) {
        } else {
            child.run_keeps_order(target, dt, effect, live);
            child.run_keeps_shape(target, dt, effect, live);
            let ran = child.run(target, dt, effect, live);
            match ran.progress {
                Progress::Running => {},
                Progress::Done { surplus } => {
                    if times is Infinite && dt <= surplus {
                    } else {
                        ran.node.reset_keeps_shape();
                        ran.node.reset_restores_what_rewinds();
                        ran.node.fresh_is_orderly();
                        Self::run_repeat_keeps_order(
                            bound,
                            ran.node.reset(),
                            times,
                            counted(count),
                            completed,
                            ran.target,
                            surplus,
                            effect,
                            live,
                        );
                    }
                },
            }
        }
    }

    /// [`Timeline::run_keeps_order`] for the children of a sequence.
    pub proof fn run_sequence_keeps_order<T>(
        bound: nat,
        children: Seq<Self>,
        index: nat,
        completed: Completion<E>,
        target: T,
        dt: nat,
        effect: Effect<F, A, T>,
        live: bool,
    )
        requires
            (Timeline::Sequence { index, children, completed }).orderly(),
            forall|i: int| 0 <= i < children.len() ==> (#[trigger] children[i]).size() < bound,
        ensures
            ({
                let ran = Self::run_sequence(bound, children, index, completed, target, dt, effect, live);
                &&& ran.node.orderly()
                &&& ran.progress is Done ==> ran.node.rewinds()
            }),
        decreases bound, 0nat, children.len() - index,
    {
        if index >= children.len() {
        } else {
            let child = children[index as int];
            child.run_keeps_order(target, dt, effect, live);
            child.run_keeps_shape(target, dt, effect, live);
            let ran = child.run(target, dt, effect, live);
            ran.node.orderly_is_wf();
            let moved = children.update(index as int, ran.node);
            match ran.progress {
                Progress::Running => {
                    let after = Timeline::Sequence { index, children: moved, completed };
                    assert forall|i: int| 0 <= i < moved.len() implies {
                        &&& (#[trigger] moved[i]).wf()
                        &&& i < index ==> moved[i].rewinds()
                        &&& i == index ==> moved[i].orderly()
                        &&& i > index ==> moved[i].pristine()
                    } by {
                        if i != index {
                            assert(moved[i] == children[i]);
                        }
                    }
                },
                Progress::Done { surplus } => {
                    assert forall|i: int| 0 <= i < moved.len() implies {
                        &&& (#[trigger] moved[i]).wf()
                        &&& i < index + 1 ==> moved[i].rewinds()
                        &&& i == index + 1 ==> moved[i].orderly()
                        &&& i > index + 1 ==> moved[i].pristine()
                    } by {
                        if i != index {
                            assert(moved[i] == children[i]);
                            if i == index + 1 {
                                children[i].pristine_is_orderly();
                            }
                        }
                    }
                    Self::run_sequence_keeps_order(
                        bound,
                        moved,
                        index + 1,
                        completed,
                        ran.target,
                        surplus,
                        effect,
                        live,
                    );
                },
            }
        }
    }

    /// [`Timeline::run_keeps_order`] for the children of a parallel group
    /// from `from` on, where those before `from` rewind if `so_far` is
    /// `Done`.
    pub proof fn run_parallel_keeps_order<T>(
        bound: nat,
        children: Seq<Self>,
        from: nat,
        so_far: Progress,
        completed: Completion<E>,
        target: T,
        dt: nat,
        effect: Effect<F, A, T>,
        live: bool,
    )
        requires
            from <= children.len(),
            forall|i: int| 0 <= i < children.len() ==> (#[trigger] children[i]).orderly(),
            forall|i: int| 0 <= i < children.len() ==> (#[trigger] children[i]).size() < bound,
            so_far is Done ==> forall|i: int| 0 <= i < from ==> (#[trigger] children[i]).rewinds(),
        ensures
            ({
                let ran = Self::run_parallel(
                    bound,
                    children,
                    from,
                    so_far,
                    completed,
                    target,
                    dt,
                    effect,
                    live,
                );
                &&& ran.node.orderly()
                &&& ran.progress is Done ==> ran.node.rewinds()
            }),
        decreases bound, 0nat, children.len() - from,
    {
        if from >= children.len() {
        } else {
            let child = children[from as int];
            child.run_keeps_order(target, dt, effect, live);
            child.run_keeps_shape(target, dt, effect, live);
            let ran = child.run(target, dt, effect, live);
            let moved = children.update(from as int, ran.node);
            assert forall|i: int| 0 <= i < moved.len() implies (#[trigger] moved[i]).orderly() by {
                if i != from {
                    assert(moved[i] == children[i]);
                }
            }
            if so_far.meet(ran.progress) is Done {
                assert forall|i: int| 0 <= i < from + 1 implies (#[trigger] moved[i]).rewinds() by {
                    if i != from {
                        assert(moved[i] == children[i]);
                    }
                }
            }
            Self::run_parallel_keeps_order(
                bound,
                moved,
                from + 1,
                so_far.meet(ran.progress),
                completed,
                ran.target,
                dt,
                effect,
                live,
            );
        }
    }

    /// After a call that reported `Done`, `reset` takes an orderly timeline
    /// back to the state in which it was built: a timeline that was built,
    /// driven to its end and reset starts over as a new one.
    pub proof fn reset_after_done_restores_the_start<T>(
        self,
        target: T,
        dt: nat,
        effect: Effect<F, A, T>,
        live: bool,
    )
        requires
            self.orderly(),
            self.run(target, dt, effect, live).progress is Done,
        ensures
            self.run(target, dt, effect, live).node.reset() == self.run(
                target,
                dt,
                effect,
                live,
            ).node.fresh(),
            self.run(target, dt, effect, live).node.reset().orderly(),
    {
        self.run_keeps_order(target, dt, effect, live);
        let after = self.run(target, dt, effect, live).node;
        after.reset_restores_what_rewinds();
        after.fresh_is_orderly();
    }
}

} // verus!
