//! What no call changes: the size of a timeline and its invariant.
use vstd::prelude::*;
use crate::capability::Completion;
use crate::progress::{Progress, RepeatTimes};
use crate::timeline::{Effect, Timeline};

verus! {

impl<F, A, E> Timeline<F, A, E> {
    /// Each tree of a list is no larger than the list.
    pub proof fn member_size(nodes: Seq<Self>, i: int)
        requires
            0 <= i < nodes.len(),
        ensures
            nodes[i].size() <= Self::total_size(nodes),
        decreases nodes.len(),
    {
        if i < nodes.len() - 1 {
            Self::member_size(nodes.drop_last(), i);
        }
    }

    /// Two lists whose trees have the same sizes, one by one, have the same
    /// size.
    pub proof fn total_size_pointwise(ours: Seq<Self>, theirs: Seq<Self>)
        requires
            ours.len() == theirs.len(),
            forall|i: int| 0 <= i < ours.len() ==> (#[trigger] ours[i]).size() == theirs[i].size(),
        ensures
            Self::total_size(ours) == Self::total_size(theirs),
        decreases ours.len(),
    {
        if ours.len() > 0 {
            Self::total_size_pointwise(ours.drop_last(), theirs.drop_last());
        }
    }

    /// `reset` keeps the size and the invariant, and what it returns is well
    /// formed whatever came in.
    pub proof fn reset_keeps_shape(self)
        ensures
            self.reset().size() == self.size(),
            self.wf() ==> self.reset().wf(),
        decreases self,
    {
        match self {
            Timeline::Once { .. } => {},
            Timeline::Pause { .. } => {},
            Timeline::Repeat { child, .. } => {
                child.reset_keeps_shape();
            },
            Timeline::Sequence { children, .. } => {
                let after = self.reset()->Sequence_children;
                assert forall|i: int| 0 <= i < children.len() implies (#[trigger] children[i]).size()
                    == after[i].size() && (children[i].wf() ==> after[i].wf()) by {
                    children[i].reset_keeps_shape();
                }
                Self::total_size_pointwise(children, after);
            },
            Timeline::Parallel { children, .. } => {
                let after = self.reset()->Parallel_children;
                assert forall|i: int| 0 <= i < children.len() implies (#[trigger] children[i]).size()
                    == after[i].size() && (children[i].wf() ==> after[i].wf()) by {
                    children[i].reset_keeps_shape();
                }
                Self::total_size_pointwise(children, after);
            },
        }
    }

    /// A call keeps the size and the invariant.
    pub proof fn run_keeps_shape<T>(self, target: T, dt: nat, effect: Effect<F, A, T>, live: bool)
        ensures
            self.run(target, dt, effect, live).node == self.drive(target, dt, effect, live).node,
            self.run(target, dt, effect, live).node.size() == self.size(),
            self.wf() ==> self.run(target, dt, effect, live).node.wf(),
        decreases self.size(), 1nat, 0nat,
    {
        match self {
            Timeline::Once { .. } => {},
            Timeline::Pause { .. } => {},
            Timeline::Repeat { child, times, count, completed } => {
                Self::run_repeat_keeps_shape(
                    self.size(),
                    *child,
                    times,
                    count,
                    completed,
                    target,
                    dt,
                    effect,
                    live,
                );
            },
            Timeline::Sequence { index, children, completed } => {
                Self::run_sequence_keeps_shape(
                    self.size(),
                    children,
                    index,
                    completed,
                    target,
                    dt,
                    effect,
                    live,
                );
                let after = Self::run_sequence(
                    self.size(),
                    children,
                    index,
                    completed,
                    target,
                    dt,
                    effect,
                    live,
                ).node;
                Self::total_size_pointwise(after->Sequence_children, children);
            },
            Timeline::Parallel { children, completed } => {
                Self::run_parallel_keeps_shape(
                    self.size(),
                    children,
                    0,
                    Progress::Done { surplus: dt },
                    completed,
                    target,
                    dt,
                    effect,
                    live,
                );
                let after = Self::run_parallel(
                    self.size(),
                    children,
                    0,
                    Progress::Done { surplus: dt },
                    completed,
                    target,
                    dt,
                    effect,
                    live,
                ).node;
                Self::total_size_pointwise(after->Parallel_children, children);
            },
        }
    }

    /// What [`Timeline::run_repeat`] returns is a repeat with the same
    /// policy and payload, whose child has the size of `child` and is well
    /// formed if `child` is.
    pub proof fn run_repeat_keeps_shape<T>(
        bound: nat,
        child: Self,
        times: RepeatTimes,
        count: nat,
        completed: Completion<E>,
        target: T,
        dt: nat,
        effect: Effect<F, A, T>,
        live: bool,
    )
        ensures
            ({
                let after = Self::run_repeat(bound, child, times, count, completed, target, dt, effect, live).node;
                &&& after is Repeat
                &&& after->times == times
                &&& after->Repeat_completed == completed
                &&& after->child.size() == child.size()
                &&& child.wf() ==> after->child.wf()
            }),
        decreases bound, 0nat, crate::timeline::repeat_fuel(times, count, dt),
    {
        if times.exhausted_by(count) || child.size() >= bound {
        } else {
            child.run_keeps_shape(target, dt, effect, live);
            let ran = child.run(target, dt, effect, live);
            match ran.progress {
                Progress::Running => {},
                Progress::Done { surplus } => {
                    if times is Infinite && dt <= surplus {
                    } else {
                        ran.node.reset_keeps_shape();
                        Self::run_repeat_keeps_shape(
                            bound,
                            ran.node.reset(),
                            times,
                            crate::timeline::counted(count),
                            completed,
                            ran.target,
                            surplus,
                            effect,
                            live,
                        );
                    }
                },
            }
        }
    }

    /// What [`Timeline::run_sequence`] returns is a sequence with the same
    /// payload and as many children, each of the size it had and well formed
    /// if it was, and a cursor that has not gone back nor past the end.
    pub proof fn run_sequence_keeps_shape<T>(
        bound: nat,
        children: Seq<Self>,
        index: nat,
        completed: Completion<E>,
        target: T,
        dt: nat,
        effect: Effect<F, A, T>,
        live: bool,
    )
        ensures
            ({
                let after = Self::run_sequence(bound, children, index, completed, target, dt, effect, live).node;
                &&& after is Sequence
                &&& after->Sequence_completed == completed
                &&& after->Sequence_children.len() == children.len()
                &&& index <= after->index
                &&& index <= children.len() ==> after->index <= children.len()
                &&& forall|i: int|
                    0 <= i < children.len() ==> {
                        &&& (#[trigger] after->Sequence_children[i]).size() == children[i].size()
                        &&& children[i].wf() ==> after->Sequence_children[i].wf()
                    }
            }),
        decreases bound, 0nat, children.len() - index,
    {
        if index >= children.len() || children[index as int].size() >= bound {
        } else {
            children[index as int].run_keeps_shape(target, dt, effect, live);
            let ran = children[index as int].run(target, dt, effect, live);
            let moved = children.update(index as int, ran.node);
            match ran.progress {
                Progress::Running => {},
                Progress::Done { surplus } => {
                    Self::run_sequence_keeps_shape(
                        bound,
                        moved,
                        index + 1,
                        completed,
                        ran.target,
                        surplus,
                        effect,
                        live,
                    );
                },
            }
        }
    }

    /// What [`Timeline::run_parallel`] returns is a group with the same
    /// payload and as many children, each of the size it had and well formed
    /// if it was.
    pub proof fn run_parallel_keeps_shape<T>(
        bound: nat,
        children: Seq<Self>,
        from: nat,
        so_far: Progress,
        completed: Completion<E>,
        target: T,
        dt: nat,
        effect: Effect<F, A, T>,
        live: bool,
    )
        ensures
            ({
                let after = Self::run_parallel(
                    bound,
                    children,
                    from,
                    so_far,
                    completed,
                    target,
                    dt,
                    effect,
                    live,
                ).node;
                &&& after is Parallel
                &&& after->Parallel_completed == completed
                &&& after->Parallel_children.len() == children.len()
                &&& forall|i: int|
                    0 <= i < children.len() ==> {
                        &&& (#[trigger] after->Parallel_children[i]).size() == children[i].size()
                        &&& children[i].wf() ==> after->Parallel_children[i].wf()
                    }
            }),
        decreases bound, 0nat, children.len() - from,
    {
        if from >= children.len() || children[from as int].size() >= bound {
        } else {
            children[from as int].run_keeps_shape(target, dt, effect, live);
            let ran = children[from as int].run(target, dt, effect, live);
            Self::run_parallel_keeps_shape(
                bound,
                children.update(from as int, ran.node),
                from + 1,
                so_far.meet(ran.progress),
                completed,
                ran.target,
                dt,
                effect,
                live,
            );
        }
    }
}

} // verus!
