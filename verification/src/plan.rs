//! The order of work within one time step.

use vstd::prelude::*;

verus! {

/// One unit of work within a time step.
#[derive(Clone, Copy, Debug, PartialEq, Eq, Structural)]
pub enum Task {
    /// Advance the body at this index by the elapsed time and answer the walls.
    Integrate(usize),
    /// Resolve contact between the bodies at these two indices, the lower one first.
    Resolve(usize, usize),
}

/// The integration of every body, by ascending index.
pub open spec fn integrations(count: int) -> Seq<Task> {
    Seq::new(count as nat, |k: int| Task::Integrate(k as usize))
}

/// The resolution of every pair whose lower index is `i`, by ascending upper
/// index.
pub open spec fn resolutions_of(count: int, i: int) -> Seq<Task> {
    Seq::new((count - 1 - i) as nat, |k: int| Task::Resolve(i as usize, (i + 1 + k) as usize))
}

/// The resolution of every pair whose lower index is `i` or more, by
/// ascending lower index.
pub open spec fn resolutions_from(count: int, i: int) -> Seq<Task>
    decreases count - i,
{
    if i + 1 >= count {
        Seq::empty()
    } else {
        resolutions_of(count, i) + resolutions_from(count, i + 1)
    }
}

/// Everything one step does for `count` bodies, in order: each body is
/// integrated, then each pair is resolved.
pub open spec fn step_tasks(count: usize) -> Seq<Task> {
    integrations(count as int) + resolutions_from(count as int, 0)
}

/// Whether `task` is due in a step over `count` bodies: the integration of a
/// body that exists, or the resolution of two distinct bodies that exist, the
/// lower index named first.
pub open spec fn due(count: usize, task: Task) -> bool {
    match task {
        Task::Integrate(index) => index < count,
        Task::Resolve(first, second) => first < second && second < count,
    }
}

/// Whether `earlier` stands before `later` in the order of a step: every
/// integration before every resolution, integrations by index, resolutions by
/// lower index and then by upper index.
pub open spec fn precedes(earlier: Task, later: Task) -> bool {
    match (earlier, later) {
        (Task::Integrate(a), Task::Integrate(b)) => a < b,
        (Task::Integrate(_), Task::Resolve(_, _)) => true,
        (Task::Resolve(_, _), Task::Integrate(_)) => false,
        (Task::Resolve(a, b), Task::Resolve(c, d)) => a < c || (a == c && b < d),
    }
}

proof fn lemma_rows_len(count: int, i: int)
    requires
        0 <= i <= count,
    ensures
        resolutions_from(count, i).len() == (count - i) * (count - i - 1) / 2,
    decreases count - i,
{
    let m = count - i;
    if i + 1 >= count {
        assert(m * (m - 1) / 2 == 0) by (nonlinear_arith)
            requires
                0 <= m <= 1,
        ;
    } else {
        lemma_rows_len(count, i + 1);
        assert((m - 1) + (m - 1) * (m - 2) / 2 == m * (m - 1) / 2) by (nonlinear_arith)
            requires
                m >= 2,
        ;
    }
}

proof fn lemma_rows_entry(count: int, i: int, k: int)
    requires
        0 <= i,
        count <= usize::MAX,
        0 <= k < resolutions_from(count, i).len(),
    ensures
        resolutions_from(count, i)[k] matches Task::Resolve(a, b) && i <= a < b < count,
    decreases count - i,
{
    if i + 1 < count {
        let here = resolutions_of(count, i);
        if k >= here.len() {
            lemma_rows_entry(count, i + 1, k - here.len());
        }
    }
}

proof fn lemma_rows_ascend(count: int, i: int, k: int, l: int)
    requires
        0 <= i,
        count <= usize::MAX,
        0 <= k < l < resolutions_from(count, i).len(),
    ensures
        precedes(resolutions_from(count, i)[k], resolutions_from(count, i)[l]),
    decreases count - i,
{
    if i + 1 < count {
        let here = resolutions_of(count, i);
        if k >= here.len() {
            lemma_rows_ascend(count, i + 1, k - here.len(), l - here.len());
        } else if l >= here.len() {
            lemma_rows_entry(count, i + 1, l - here.len());
        }
    }
}

proof fn lemma_rows_hold(count: int, i: int, a: int, b: int)
    requires
        0 <= i <= a < b < count,
        count <= usize::MAX,
    ensures
        resolutions_from(count, i).contains(Task::Resolve(a as usize, b as usize)),
    decreases count - i,
{
    let here = resolutions_of(count, i);
    let rest = resolutions_from(count, i + 1);
    let wanted = Task::Resolve(a as usize, b as usize);
    if a == i {
        assert((here + rest)[b - i - 1] == wanted);
    } else {
        lemma_rows_hold(count, i + 1, a, b);
        let k = choose|k: int| 0 <= k < rest.len() && rest[k] == wanted;
        assert((here + rest)[here.len() + k] == wanted);
    }
}

/// A step hands out one task for each body and one for each pair of bodies.
pub proof fn lemma_task_count(count: usize)
    ensures
        step_tasks(count).len() == count + count * (count - 1) / 2,
{
    lemma_rows_len(count as int, 0);
}

/// The tasks of a step are exactly those that are due: every body is
/// integrated, every pair of distinct bodies is resolved, and nothing else is
/// done.
pub proof fn lemma_tasks_are_the_due_ones(count: usize, task: Task)
    ensures
        step_tasks(count).contains(task) <==> due(count, task),
{
    let moves = integrations(count as int);
    let pairs = resolutions_from(count as int, 0);
    let all = step_tasks(count);
    if all.contains(task) {
        let k = choose|k: int| 0 <= k < all.len() && all[k] == task;
        if k >= moves.len() {
            lemma_rows_entry(count as int, 0, k - moves.len());
        }
    }
    if due(count, task) {
        match task {
            Task::Integrate(index) => {
                assert(all[index as int] == task);
            },
            Task::Resolve(first, second) => {
                lemma_rows_hold(count as int, 0, first as int, second as int);
                let k = choose|k: int| 0 <= k < pairs.len() && pairs[k] == task;
                assert(all[moves.len() + k] == task);
            },
        }
    }
}

/// The tasks of a step come in strictly ascending order, so none is handed
/// out twice, no pair is resolved before every body has been integrated, and
/// pairs are taken by lower index and then by upper index.
pub proof fn lemma_tasks_ascend(count: usize, k: int, l: int)
    requires
        0 <= k < l < step_tasks(count).len(),
    ensures
        precedes(step_tasks(count)[k], step_tasks(count)[l]),
{
    let moves = integrations(count as int);
    if k >= moves.len() {
        lemma_rows_ascend(count as int, 0, k - moves.len(), l - moves.len());
    } else if l >= moves.len() {
        lemma_rows_entry(count as int, 0, l - moves.len());
    }
}

/// A cursor over the tasks of one step.
pub struct StepPlan {
    count: usize,
    moved: usize,
    first: usize,
    second: usize,
}

impl View for StepPlan {
    type V = Seq<Task>;

    /// The tasks that are still to be handed out, in order.
    closed spec fn view(&self) -> Seq<Task> {
        integrations(self.count as int).skip(self.moved as int) + self.pairs_left()
    }
}

impl StepPlan {
    #[verifier::type_invariant]
    spec fn inv(self) -> bool {
        self.moved <= self.count && self.first < self.second
    }

    /// The number of bodies the plan was made for.
    pub closed spec fn bodies(&self) -> usize {
        self.count
    }

    spec fn pairs_left(&self) -> Seq<Task> {
        if self.second < self.count {
            resolutions_of(self.count as int, self.first as int).skip(
                self.second - self.first - 1,
            ) + resolutions_from(self.count as int, self.first + 1)
        } else {
            Seq::empty()
        }
    }

    /// A plan for one step over `count` bodies, with nothing handed out yet.
    pub fn new(count: usize) -> (plan: StepPlan)
        ensures
            plan.bodies() == count,
            plan@ == step_tasks(count),
    {
        StepPlan { count, moved: 0, first: 0, second: 1 }
    }

    /// Hands out the next task, or `None` once the step is complete. A task
    /// that is handed out names only bodies that exist.
    pub fn next_task(&mut self) -> (task: Option<Task>)
        ensures
            final(self).bodies() == old(self).bodies(),
            task matches Some(t) ==> due(old(self).bodies(), t),
            old(self)@.len() == 0 ==> task is None && final(self)@ == old(self)@,
            old(self)@.len() > 0 ==> task == Some(old(self)@[0])
                && final(self)@ == old(self)@.skip(1),
    {
        proof {
            use_type_invariant(&*self);
        }
        let count = self.count;
        if self.moved < count {
            let index = self.moved;
            self.moved = index + 1;
            Some(Task::Integrate(index))
        } else if self.second < count {
            let first = self.first;
            let second = self.second;
            if second + 1 < count {
                self.second = second + 1;
            } else {
                self.second = first + 2;
                self.first = first + 1;
            }
            Some(Task::Resolve(first, second))
        } else {
            None
        }
    }
}

} // verus!
