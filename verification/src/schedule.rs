//! The order of the per-frame stages, as an explicit graph.
//!
//! A task graph is a number of tasks and a list of edges, each saying that
//! one task must be over before another starts.  A schedule lists every task
//! once, no task before one it waits for.

use vstd::prelude::*;

verus! {

/// `before` must be over when `after` starts.
#[derive(Clone, Copy, Debug, PartialEq, Eq, Structural)]
pub struct Edge {
    pub before: usize,
    pub after: usize,
}

/// Whether every edge joins two of the `tasks` tasks.
pub open spec fn edges_valid(tasks: int, edges: Seq<Edge>) -> bool {
    forall|e: int| 0 <= e < edges.len() ==> (#[trigger] edges[e]).before < tasks && edges[e].after < tasks
}

/// Whether `order` is a schedule: it lists each task once and nothing
/// else, and for every edge it lists `before` earlier than `after`.
pub open spec fn is_schedule(tasks: int, edges: Seq<Edge>, order: Seq<usize>) -> bool {
    &&& forall|i: int| 0 <= i < order.len() ==> (#[trigger] order[i]) < tasks
    &&& forall|i: int, j: int| 0 <= i < j < order.len() ==> order[i] != order[j]
    &&& forall|t: usize| t < tasks ==> order.contains(t)
    &&& forall|e: int, i: int, j: int|
        #![trigger edges[e], order[i], order[j]]
        0 <= e < edges.len() && 0 <= i < order.len() && 0 <= j < order.len() && order[i]
            == edges[e].before && order[j] == edges[e].after ==> i < j
}

/// How many tasks are not placed yet.
pub open spec fn unplaced(placed: Seq<bool>) -> nat
    decreases placed.len(),
{
    if placed.len() == 0 {
        0
    } else {
        unplaced(placed.drop_last()) + if placed.last() {
            0nat
        } else {
            1nat
        }
    }
}

/// Whether task `t` waits for a task that is not placed.
pub open spec fn blocked(edges: Seq<Edge>, placed: Seq<bool>, t: usize) -> bool {
    exists|e: int|
        0 <= e < edges.len() && (#[trigger] edges[e]).after == t && !placed[edges[e].before as int]
}

/// Placing one more task leaves one task fewer to place.
pub proof fn lemma_place_one(placed: Seq<bool>, t: int)
    requires
        0 <= t < placed.len(),
        !placed[t],
    ensures
        unplaced(placed.update(t, true)) == unplaced(placed) - 1,
    decreases placed.len(),
{
    let after = placed.update(t, true);
    if t == placed.len() - 1 {
        assert(after.drop_last() =~= placed.drop_last());
    } else {
        assert(after.drop_last() =~= placed.drop_last().update(t, true));
        lemma_place_one(placed.drop_last(), t);
    }
}

/// When nothing is left to place, every task is placed; when something is
/// left, some task is not placed.
pub proof fn lemma_unplaced_witness(placed: Seq<bool>)
    ensures
        unplaced(placed) == 0 ==> forall|t: int| 0 <= t < placed.len() ==> #[trigger] placed[t],
        unplaced(placed) > 0 ==> exists|t: int| 0 <= t < placed.len() && !#[trigger] placed[t],
        unplaced(placed) <= placed.len(),
    decreases placed.len(),
{
    if placed.len() > 0 {
        let rest = placed.drop_last();
        lemma_unplaced_witness(rest);
        if unplaced(placed) == 0 {
            assert forall|t: int| 0 <= t < placed.len() implies #[trigger] placed[t] by {
                if t < rest.len() {
                    assert(rest[t]);
                }
            }
        }
        if unplaced(placed) > 0 {
            if !placed.last() {
                assert(!placed[placed.len() - 1]);
            } else {
                let t = choose|t: int| 0 <= t < rest.len() && !#[trigger] rest[t];
                assert(!placed[t]);
            }
        }
    }
}

/// No schedule gets past tasks that wait for each other: when every task
/// that is not placed waits for a task that is not placed, a schedule lists
/// only placed tasks up to any position.
pub proof fn lemma_schedule_lists_placed(
    tasks: int,
    edges: Seq<Edge>,
    placed: Seq<bool>,
    order: Seq<usize>,
    upto: int,
)
    requires
        is_schedule(tasks, edges, order),
        edges_valid(tasks, edges),
        placed.len() == tasks,
        forall|t: usize| t < tasks && !placed[t as int] ==> blocked(edges, placed, t),
        0 <= upto <= order.len(),
    ensures
        forall|i: int| 0 <= i < upto ==> placed[(#[trigger] order[i]) as int],
    decreases upto,
{
    if upto > 0 {
        lemma_schedule_lists_placed(tasks, edges, placed, order, upto - 1);
        let t = order[upto - 1];
        if !placed[t as int] {
            let e = choose|e: int|
                0 <= e < edges.len() && (#[trigger] edges[e]).after == t && !placed[edges[e].before as int];
            let b = edges[e].before;
            assert(order.contains(b));
            let j = choose|j: int| 0 <= j < order.len() && order[j] == b;
            assert(order[j] == edges[e].before && order[upto - 1] == edges[e].after);
            assert(j < upto - 1);
            assert(placed[order[j] as int]);
        }
    }
}

/// A number of tasks and the edges between them.
#[derive(Clone, Debug)]
pub struct TaskGraph {
    tasks: usize,
    edges: Vec<Edge>,
}

impl TaskGraph {
    /// The number of tasks; tasks are named `0 .. tasks`.
    pub closed spec fn tasks(&self) -> usize {
        self.tasks
    }

    /// The edges.
    pub closed spec fn edges(&self) -> Seq<Edge> {
        self.edges@
    }

    /// Every edge joins two tasks of the graph.
    pub open spec fn wf(&self) -> bool {
        edges_valid(self.tasks() as int, self.edges())
    }

    /// Makes a graph; `None` when an edge names a task that is not there.
    pub fn new(tasks: usize, edges: Vec<Edge>) -> (graph: Option<TaskGraph>)
        ensures
            graph is Some <==> edges_valid(tasks as int, edges@),
            graph matches Some(g) ==> g.wf() && g.tasks() == tasks && g.edges() == edges@,
    {
        let mut e: usize = 0;
        while e < edges.len()
            invariant
                0 <= e <= edges@.len(),
                edges_valid(tasks as int, edges@.take(e as int)),
            decreases edges@.len() - e,
        {
            if edges[e].before >= tasks || edges[e].after >= tasks {
                assert(!edges_valid(tasks as int, edges@));
                return None;
            }
            proof {
                let longer = edges@.take(e + 1);
                assert forall|k: int| 0 <= k < longer.len() implies (#[trigger] longer[k]).before
                    < tasks && longer[k].after < tasks by {
                    if k < e {
                        assert(edges@.take(e as int)[k] == longer[k]);
                    }
                }
            }
            e += 1;
        }
        assert(edges@.take(e as int) =~= edges@);
        Some(TaskGraph { tasks, edges })
    }

    /// The number of tasks.
    pub fn task_count(&self) -> (tasks: usize)
        ensures
            tasks == self.tasks(),
    {
        self.tasks
    }

    /// The edges.
    pub fn edge_list(&self) -> (edges: &Vec<Edge>)
        ensures
            edges@ == self.edges(),
    {
        &self.edges
    }

    /// Whether every task that `task` waits for is placed.
    fn is_ready(&self, task: usize, placed: &Vec<bool>) -> (ready: bool)
        requires
            self.wf(),
            placed@.len() == self.tasks(),
        ensures
            ready == !blocked(self.edges(), placed@, task),
    {
        let mut e: usize = 0;
        while e < self.edges.len()
            invariant
                0 <= e <= self.edges@.len(),
                self.wf(),
                placed@.len() == self.tasks(),
                forall|k: int|
                    0 <= k < e ==> !((#[trigger] self.edges@[k]).after == task
                        && !placed@[self.edges@[k].before as int]),
            decreases self.edges@.len() - e,
        {
            let edge = self.edges[e];
            if edge.after == task && !placed[edge.before] {
                assert(self.edges@[e as int].after == task);
                return false;
            }
            e += 1;
        }
        true
    }

    /// A task that is not placed and waits for none that is not placed, if
    /// there is one.
    fn find_ready(&self, placed: &Vec<bool>) -> (found: Option<usize>)
        requires
            self.wf(),
            placed@.len() == self.tasks(),
        ensures
            found matches Some(t) ==> t < self.tasks() && !placed@[t as int] && !blocked(
                self.edges(),
                placed@,
                t,
            ),
            found is None ==> forall|t: usize|
                t < self.tasks() && !placed@[t as int] ==> blocked(self.edges(), placed@, t),
    {
        let mut t: usize = 0;
        while t < self.tasks
            invariant
                0 <= t <= self.tasks,
                self.wf(),
                placed@.len() == self.tasks(),
                forall|u: usize| u < t && !placed@[u as int] ==> blocked(self.edges(), placed@, u),
            decreases self.tasks - t,
        {
            if !placed[t] && self.is_ready(t, placed) {
                return Some(t);
            }
            t += 1;
        }
        None
    }

    /// Puts the tasks in an order that respects every edge.
    ///
    /// `None` when there is no such order, which is when tasks wait for
    /// each other in a circle.
    pub fn schedule(&self) -> (order: Option<Vec<usize>>)
        requires
            self.wf(),
        ensures
            order matches Some(o) ==> is_schedule(self.tasks() as int, self.edges(), o@),
            order is None ==> forall|o: Seq<usize>|
                !is_schedule(self.tasks() as int, self.edges(), o),
    {
        let n: usize = self.tasks;
        let mut placed: Vec<bool> = Vec::new();
        let mut k: usize = 0;
        while k < n
            invariant
                0 <= k <= n,
                placed@.len() == k,
                unplaced(placed@) == k,
                forall|t: int| 0 <= t < k ==> !#[trigger] placed@[t],
            decreases n - k,
        {
            let ghost shorter = placed@;
            placed.push(false);
            assert(placed@.drop_last() =~= shorter);
            k += 1;
        }
        let mut order: Vec<usize> = Vec::new();
        let mut remaining: usize = n;
        while remaining > 0
            invariant
                self.wf(),
                n == self.tasks(),
                placed@.len() == n,
                remaining == unplaced(placed@),
                forall|i: int| 0 <= i < order@.len() ==> (#[trigger] order@[i]) < n,
                forall|i: int, j: int| 0 <= i < j < order@.len() ==> order@[i] != order@[j],
                forall|t: usize| t < n ==> (placed@[t as int] <==> order@.contains(t)),
                forall|e: int|
                    0 <= e < self.edges().len() && placed@[(#[trigger] self.edges()[e]).after as int]
                        ==> placed@[self.edges()[e].before as int],
                forall|e: int, i: int, j: int|
                    #![trigger self.edges()[e], order@[i], order@[j]]
                    0 <= e < self.edges().len() && 0 <= i < order@.len() && 0 <= j < order@.len()
                        && order@[i] == self.edges()[e].before && order@[j] == self.edges()[e].after
                        ==> i < j,
            decreases remaining,
        {
            match self.find_ready(&placed) {
                None => {
                    proof {
                        lemma_unplaced_witness(placed@);
                        let u = choose|u: int| 0 <= u < placed@.len() && !#[trigger] placed@[u];
                        assert forall|o: Seq<usize>|
                            !is_schedule(self.tasks() as int, self.edges(), o) by {
                            if is_schedule(self.tasks() as int, self.edges(), o) {
                                lemma_schedule_lists_placed(
                                    n as int,
                                    self.edges(),
                                    placed@,
                                    o,
                                    o.len() as int,
                                );
                                assert(o.contains(u as usize));
                                let at = choose|i: int| 0 <= i < o.len() && o[i] == u as usize;
                                assert(placed@[o[at] as int]);
                            }
                        }
                    }
                    return None;
                },
                Some(t) => {
                    let ghost before_order = order@;
                    let ghost before_placed = placed@;
                    proof {
                        lemma_place_one(placed@, t as int);
                    }
                    placed.set(t, true);
                    order.push(t);
                    remaining -= 1;
                    proof {
                        assert forall|u: usize| u < n implies (placed@[u as int]
                            <==> order@.contains(u)) by {
                            if order@.contains(u) {
                                let at = choose|i: int| 0 <= i < order@.len() && order@[i] == u;
                                if at < before_order.len() {
                                    assert(before_order[at] == u);
                                    assert(before_order.contains(u));
                                }
                            }
                            if placed@[u as int] {
                                if u == t {
                                    assert(order@[before_order.len() as int] == u);
                                } else {
                                    assert(before_order.contains(u));
                                    let at = choose|i: int|
                                        0 <= i < before_order.len() && before_order[i] == u;
                                    assert(order@[at] == u);
                                }
                            }
                        }
                        assert forall|i: int, j: int|
                            0 <= i < j < order@.len() implies order@[i] != order@[j] by {
                            if j == before_order.len() && order@[i] == t {
                                assert(before_order[i] == t);
                                assert(before_order.contains(t));
                            }
                        }
                        assert forall|e: int|
                            0 <= e < self.edges().len() && placed@[(
                            #[trigger] self.edges()[e]).after as int] implies placed@[self.edges()[e].before as int] by {
                            let edge = self.edges()[e];
                            if edge.after == t {
                                if !before_placed[edge.before as int] {
                                    assert(blocked(self.edges(), before_placed, t));
                                }
                            }
                        }
                        assert forall|e: int, i: int, j: int|
                            #![trigger self.edges()[e], order@[i], order@[j]]
                            0 <= e < self.edges().len() && 0 <= i < order@.len() && 0 <= j
                                < order@.len() && order@[i] == self.edges()[e].before && order@[j]
                                == self.edges()[e].after implies i < j by {
                            let edge = self.edges()[e];
                            let last = before_order.len() as int;
                            if i == last && j == last {
                                // The task would wait for itself.
                                assert(blocked(self.edges(), before_placed, t));
                            } else if i == last {
                                // A task listed earlier would wait for the new one.
                                assert(before_order[j] == edge.after);
                                assert(before_order.contains(edge.after));
                                assert(before_placed[edge.after as int]);
                                assert(before_placed[edge.before as int]);
                            } else if j == last {
                            } else {
                                assert(before_order[i] == edge.before);
                                assert(before_order[j] == edge.after);
                            }
                        }
                    }
                },
            }
        }
        proof {
            lemma_unplaced_witness(placed@);
            assert forall|t: usize| t < n implies order@.contains(t) by {
                assert(placed@[t as int]);
            }
        }
        Some(order)
    }
}

} // verus!
