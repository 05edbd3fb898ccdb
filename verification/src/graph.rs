//! The graph builder: from the declared tasks and the names they wait for to
//! a validated dependency graph and the order in which to walk it.
//!
//! A node of the graph is a task name, written as the index of the first task
//! that carries it. An edge runs from a dependency to the task that waits for
//! it.

use vstd::prelude::*;
use vstd::string::*;
use crate::error::{InvalidWorkflow, InvalidWorkflowView};
use crate::order::{closed_graph, declaration_order, edge_set, has_cycle, node_set, sort_by_declaration};
use crate::types::{QFlowTask, QFlowTaskView};

verus! {

/// Some task carries `name`.
pub open spec fn declared(tasks: Seq<QFlowTaskView>, name: Seq<char>) -> bool {
    exists|i: int| 0 <= i < tasks.len() && (#[trigger] tasks[i]).name == name
}

/// The task at `i` is the first that carries `name`.
pub open spec fn first_named(tasks: Seq<QFlowTaskView>, name: Seq<char>, i: usize) -> bool {
    &&& i < tasks.len()
    &&& tasks[i as int].name == name
    &&& forall|j: int| 0 <= j < i ==> (#[trigger] tasks[j]).name != name
}

/// The nodes of the dependency graph: one for each task name.
pub open spec fn task_nodes(tasks: Seq<QFlowTaskView>) -> Set<usize> {
    Set::new(|i: usize| i < tasks.len() && first_named(tasks, tasks[i as int].name, i))
}

/// Task `j` waits, with its `k`-th dependency, for node `a`, and is itself
/// written as node `b`.
pub open spec fn edge_from(tasks: Seq<QFlowTaskView>, j: int, k: int, a: usize, b: usize) -> bool {
    &&& 0 <= j < tasks.len()
    &&& 0 <= k < tasks[j].dependencies().len()
    &&& first_named(tasks, tasks[j].dependencies()[k], a)
    &&& first_named(tasks, tasks[j].name, b)
}

/// The edges of the dependency graph, each from a dependency to its
/// dependent.
pub open spec fn task_edges(tasks: Seq<QFlowTaskView>) -> Set<(usize, usize)> {
    Set::new(|e: (usize, usize)| exists|j: int, k: int| #[trigger] edge_from(tasks, j, k, e.0, e.1))
}

/// The `k`-th dependency of task `j` names no declared task.
pub open spec fn dangling_at(tasks: Seq<QFlowTaskView>, j: int, k: int) -> bool {
    &&& 0 <= j < tasks.len()
    &&& 0 <= k < tasks[j].dependencies().len()
    &&& !declared(tasks, tasks[j].dependencies()[k])
}

/// Some dependency names no declared task.
pub open spec fn has_dangling(tasks: Seq<QFlowTaskView>) -> bool {
    exists|j: int, k: int| #[trigger] dangling_at(tasks, j, k)
}

/// `(j, k)` is the first dangling dependency in declaration order.
pub open spec fn first_dangling(tasks: Seq<QFlowTaskView>, j: int, k: int) -> bool {
    &&& dangling_at(tasks, j, k)
    &&& forall|j2: int, k2: int|
        (j2 < j || (j2 == j && k2 < k)) ==> !#[trigger] dangling_at(tasks, j2, k2)
}

/// The tasks wait for one another in a circle.
pub open spec fn cyclic(tasks: Seq<QFlowTaskView>) -> bool {
    has_cycle(task_edges(tasks))
}

/// `order` is the order in which the tasks are walked: every task name once,
/// each after all it waits for, and wherever several could come next the one
/// declared first.
pub open spec fn walk_order(tasks: Seq<QFlowTaskView>, order: Seq<usize>) -> bool {
    declaration_order(order, task_nodes(tasks), task_edges(tasks))
}

/// Some order walks the tasks.
pub open spec fn orderable(tasks: Seq<QFlowTaskView>) -> bool {
    exists|order: Seq<usize>| walk_order(tasks, order)
}

/// What validation makes of the declared tasks: the first dangling
/// dependency where there is one, else the walk order where there is one,
/// else `Cycle`. (`build_graph` shows that the tasks have no walk order
/// exactly where they wait for one another in a circle.)
pub open spec fn validated(tasks: Seq<QFlowTaskView>) -> Result<Seq<usize>, InvalidWorkflowView> {
    if has_dangling(tasks) {
        let (j, k) = choose|j: int, k: int| #[trigger] first_dangling(tasks, j, k);
        Err(
            InvalidWorkflowView::DanglingDependency {
                task: tasks[j].name,
                dependency: tasks[j].dependencies()[k],
            },
        )
    } else if orderable(tasks) {
        Ok(choose|order: Seq<usize>| walk_order(tasks, order))
    } else {
        Err(InvalidWorkflowView::Cycle)
    }
}

/// Tasks that wait for one another in a circle have no walk order.
pub proof fn lemma_cyclic_not_orderable(tasks: Seq<QFlowTaskView>)
    requires
        cyclic(tasks),
    ensures
        !orderable(tasks),
{
    if orderable(tasks) {
        let order = choose|order: Seq<usize>| walk_order(tasks, order);
        assert forall|a: usize, b: usize| #[trigger] task_edges(tasks).contains((a, b)) implies task_nodes(
            tasks,
        ).contains(b) by {
            let (j, k) = choose|j: int, k: int| #[trigger] edge_from(tasks, j, k, a, b);
            assert(edge_from(tasks, j, k, a, b));
            assert(tasks[b as int].name == tasks[j].name);
        }
        crate::order::lemma_ordered_is_acyclic(order, task_nodes(tasks), task_edges(tasks));
    }
}

/// Only one dependency is the first dangling one.
pub proof fn lemma_first_dangling_unique(tasks: Seq<QFlowTaskView>, j: int, k: int, j2: int, k2: int)
    requires
        first_dangling(tasks, j, k),
        first_dangling(tasks, j2, k2),
    ensures
        j == j2,
        k == k2,
{
    if j2 < j || (j2 == j && k2 < k) {
        assert(!dangling_at(tasks, j2, k2));
    }
    if j < j2 || (j == j2 && k < k2) {
        assert(!dangling_at(tasks, j, k));
    }
}

/// No other task is the first to carry a name.
pub proof fn lemma_first_named_unique(
    tasks: Seq<QFlowTaskView>,
    name: Seq<char>,
    i: usize,
    j: usize,
)
    requires
        first_named(tasks, name, i),
        first_named(tasks, name, j),
    ensures
        i == j,
{
    if i < j {
        assert(tasks[i as int].name == name);
    } else if j < i {
        assert(tasks[j as int].name == name);
    }
}

/// The index of the first task that carries `name`, if any does.
pub fn find_task(tasks: &Vec<QFlowTask>, name: &String) -> (r: Option<usize>)
    ensures
        match r {
            Some(i) => first_named(tasks.deep_view(), name@, i),
            None => !declared(tasks.deep_view(), name@),
        },
{
    let mut i: usize = 0;
    while i < tasks.len()
        invariant
            i <= tasks.len(),
            forall|j: int| 0 <= j < i ==> (#[trigger] tasks.deep_view()[j]).name != name@,
        decreases tasks.len() - i,
    {
        if tasks[i].name == *name {
            assert(tasks.deep_view()[i as int].name == name@);
            return Some(i);
        }
        i += 1;
    }
    None
}

/// The index of the last task that carries `name`, if any does. Where a name
/// is declared more than once, the last declaration is the one that is run.
pub fn find_last_task(tasks: &Vec<QFlowTask>, name: &String) -> (r: Option<usize>)
    ensures
        match r {
            Some(i) => last_named(tasks.deep_view(), name@, i),
            None => !declared(tasks.deep_view(), name@),
        },
{
    let mut i: usize = tasks.len();
    while i > 0
        invariant
            i <= tasks.len(),
            forall|j: int| i <= j < tasks.len() ==> (#[trigger] tasks.deep_view()[j]).name != name@,
        decreases i,
    {
        i -= 1;
        if tasks[i].name == *name {
            assert(tasks.deep_view()[i as int].name == name@);
            return Some(i);
        }
    }
    None
}

/// The task at `i` is the last that carries `name`.
pub open spec fn last_named(tasks: Seq<QFlowTaskView>, name: Seq<char>, i: usize) -> bool {
    &&& i < tasks.len()
    &&& tasks[i as int].name == name
    &&& forall|j: int| i < j < tasks.len() ==> (#[trigger] tasks[j]).name != name
}

/// Listing one more node under a node keeps a graph closed.
proof fn lemma_push_keeps_closed(
    is_node: Seq<bool>,
    before: Seq<Vec<usize>>,
    after: Seq<Vec<usize>>,
    a: usize,
    b: usize,
)
    requires
        closed_graph(is_node, before),
        after.len() == before.len(),
        a < is_node.len(),
        b < is_node.len(),
        is_node[a as int],
        is_node[b as int],
        after[b as int]@ == before[b as int]@.push(a),
        forall|x: int| 0 <= x < after.len() && x != b ==> after[x] == before[x],
    ensures
        closed_graph(is_node, after),
{
    assert forall|x: int| 0 <= x < after.len() && (#[trigger] after[x])@.len() > 0 implies is_node[x] by {
        if x != b {
            assert(after[x] == before[x]);
        }
    }
    assert forall|x: int, y: int| 0 <= x < after.len() && 0 <= y < after[x]@.len() implies (
    #[trigger] after[x]@[y]) < is_node.len() && is_node[after[x]@[y] as int] by {
        if x == b {
            if y < before[x]@.len() {
                assert(after[x]@[y] == before[x]@[y]);
            }
        } else {
            assert(after[x]@[y] == before[x]@[y]);
        }
    }
}

/// The edges that the dependencies before the `k`-th of task `j` give.
spec fn edges_before(tasks: Seq<QFlowTaskView>, j: int, k: int) -> Set<(usize, usize)> {
    Set::new(
        |e: (usize, usize)|
            exists|j2: int, k2: int|
                (j2 < j || (j2 == j && k2 < k)) && #[trigger] edge_from(tasks, j2, k2, e.0, e.1),
    )
}

/// Validates the declared tasks and orders them for the walk.
///
/// Fails with the first dangling dependency, in declaration order, where
/// there is one; else with `Cycle` where the tasks wait for one another in a
/// circle; else returns the walk order.
pub fn build_graph(tasks: &Vec<QFlowTask>) -> (r: Result<Vec<usize>, InvalidWorkflow>)
    ensures
        match r {
            Ok(order) => !has_dangling(tasks.deep_view()) && !cyclic(tasks.deep_view())
                && walk_order(tasks.deep_view(), order@),
            Err(InvalidWorkflow::DanglingDependency { task, dependency }) => exists|j: int, k: int|
                #[trigger] first_dangling(tasks.deep_view(), j, k) && task@
                    == tasks.deep_view()[j].name && dependency@
                    == tasks.deep_view()[j].dependencies()[k],
            Err(InvalidWorkflow::Cycle) => !has_dangling(tasks.deep_view()) && cyclic(
                tasks.deep_view(),
            ),
        },
        match r {
            Ok(order) => validated(tasks.deep_view()) == Ok::<Seq<usize>, InvalidWorkflowView>(order@),
            Err(reason) => validated(tasks.deep_view()) == Err::<Seq<usize>, InvalidWorkflowView>(
                reason.deep_view(),
            ),
        },
{
    let ghost view = tasks.deep_view();
    let n = tasks.len();
    // Which task stands for each name.
    let mut node_of: Vec<usize> = Vec::new();
    let mut is_node: Vec<bool> = Vec::new();
    let mut preds: Vec<Vec<usize>> = Vec::new();
    let mut j: usize = 0;
    while j < n
        invariant
            j <= n,
            n == tasks.len(),
            view == tasks.deep_view(),
            node_of.len() == j,
            is_node.len() == j,
            preds.len() == j,
            forall|i: int| 0 <= i < j ==> first_named(view, view[i].name, #[trigger] node_of[i]),
            forall|i: int| 0 <= i < j ==> #[trigger] is_node[i] == first_named(view, view[i].name, i as usize),
            forall|i: int| 0 <= i < j ==> (#[trigger] preds[i])@.len() == 0,
        decreases n - j,
    {
        let first = find_task(tasks, &tasks[j].name);
        let f = match first {
            Some(f) => f,
            None => {
                assert(view[j as int].name == tasks[j as int].name@);
                j
            },
        };
        proof {
            if f != j {
                assert(view[f as int].name == view[j as int].name);
            }
        }
        node_of.push(f);
        is_node.push(f == j);
        preds.push(Vec::new());
        j += 1;
    }
    assert(edge_set(preds@) =~= edges_before(view, 0, 0));
    assert(node_set(is_node@) =~= task_nodes(view));
    j = 0;
    while j < n
        invariant
            j <= n,
            n == tasks.len(),
            view == tasks.deep_view(),
            node_of.len() == n,
            is_node.len() == n,
            preds.len() == n,
            forall|i: int| 0 <= i < n ==> first_named(view, view[i].name, #[trigger] node_of[i]),
            forall|i: int| 0 <= i < n ==> #[trigger] is_node[i] == first_named(view, view[i].name, i as usize),
            closed_graph(is_node@, preds@),
            edge_set(preds@) == edges_before(view, j as int, 0),
            forall|j2: int, k2: int| j2 < j ==> !#[trigger] dangling_at(view, j2, k2),
        decreases n - j,
    {
        let task = &tasks[j];
        let b = node_of[j];
        let count = task.dependency_count();
        let mut k: usize = 0;
        while k < count
            invariant
                k <= count,
                j < n,
                n == tasks.len(),
                view == tasks.deep_view(),
                task == tasks[j as int],
                count == view[j as int].dependencies().len(),
                b == node_of[j as int],
                node_of.len() == n,
                is_node.len() == n,
                preds.len() == n,
                forall|i: int| 0 <= i < n ==> first_named(view, view[i].name, #[trigger] node_of[i]),
                forall|i: int| 0 <= i < n ==> #[trigger] is_node[i] == first_named(view, view[i].name, i as usize),
                closed_graph(is_node@, preds@),
                edge_set(preds@) == edges_before(view, j as int, k as int),
                forall|j2: int, k2: int|
                    (j2 < j || (j2 == j && k2 < k)) ==> !#[trigger] dangling_at(view, j2, k2),
            decreases count - k,
        {
            let dep = task.dependency(k);
            match find_task(tasks, dep) {
                None => {
                    assert(dangling_at(view, j as int, k as int));
                    assert(first_dangling(view, j as int, k as int));
                    proof {
                        let (j2, k2) = choose|j2: int, k2: int| #[trigger]
                            first_dangling(view, j2, k2);
                        lemma_first_dangling_unique(view, j as int, k as int, j2, k2);
                    }
                    return Err(
                        InvalidWorkflow::DanglingDependency {
                            task: task.name.clone(),
                            dependency: dep.clone(),
                        },
                    );
                },
                Some(a) => {
                    let ghost before = preds@;
                    assert(first_named(view, view[b as int].name, b)) by {
                        assert(first_named(view, view[j as int].name, node_of[j as int]));
                    }
                    assert(first_named(view, view[a as int].name, a));
                    assert(is_node[b as int]);
                    assert(is_node[a as int]);
                    let mut list: Vec<usize> = Vec::new();
                    core::mem::swap(&mut list, &mut preds[b]);
                    list.push(a);
                    core::mem::swap(&mut list, &mut preds[b]);
                    proof {
                        assert(preds@[b as int]@ == before[b as int]@.push(a));
                        assert forall|x: int| 0 <= x < preds.len() && x != b implies preds@[x]
                            == before[x] by {}
                        lemma_push_keeps_closed(is_node@, before, preds@, a, b);
                        assert(edge_from(view, j as int, k as int, a, b));
                        assert(edge_set(preds@) =~= edges_before(view, j as int, k + 1)) by {
                            assert forall|e: (usize, usize)| edge_set(preds@).contains(e)
                                == edges_before(view, j as int, k + 1).contains(e) by {
                                if edge_set(preds@).contains(e) {
                                    if e.1 == b && !before[b as int]@.contains(e.0) {
                                        let y = choose|y: int|
                                            0 <= y < preds@[b as int]@.len() && preds@[b as int]@[y]
                                                == e.0;
                                        if y < before[b as int]@.len() {
                                            assert(before[b as int]@[y] == e.0);
                                        }
                                        assert(e.0 == a);
                                        assert(edge_from(view, j as int, k as int, e.0, e.1));
                                    } else {
                                        assert(edge_set(before).contains(e));
                                        assert(edges_before(view, j as int, k as int).contains(e));
                                        let (j2, k2) = choose|j2: int, k2: int|
                                            (j2 < j || (j2 == j && k2 < k)) && #[trigger] edge_from(
                                                view,
                                                j2,
                                                k2,
                                                e.0,
                                                e.1,
                                            );
                                        assert(edge_from(view, j2, k2, e.0, e.1));
                                    }
                                }
                                if edges_before(view, j as int, k + 1).contains(e) {
                                    let (j2, k2) = choose|j2: int, k2: int|
                                        (j2 < j || (j2 == j && k2 < k + 1)) && #[trigger] edge_from(
                                            view,
                                            j2,
                                            k2,
                                            e.0,
                                            e.1,
                                        );
                                    if j2 == j && k2 == k {
                                        lemma_first_named_unique(
                                            view,
                                            view[j as int].dependencies()[k as int],
                                            a,
                                            e.0,
                                        );
                                        lemma_first_named_unique(view, view[j as int].name, b, e.1);
                                        assert(preds@[b as int]@[before[b as int]@.len() as int]
                                            == a);
                                    } else {
                                        assert(edges_before(view, j as int, k as int).contains(e));
                                        assert(edge_set(before).contains(e));
                                        let y = choose|y: int|
                                            0 <= y < before[e.1 as int]@.len() && before[e.1 as int]@[y]
                                                == e.0;
                                        if e.1 == b {
                                            assert(preds@[b as int]@[y] == e.0);
                                        } else {
                                            assert(preds@[e.1 as int]@[y] == e.0);
                                        }
                                    }
                                }
                            }
                        }
                    }
                },
            }
            k += 1;
        }
        proof {
            assert(edges_before(view, j as int, count as int) =~= edges_before(view, j + 1, 0)) by {
                assert forall|e: (usize, usize)| edges_before(view, j as int, count as int).contains(
                    e,
                ) == edges_before(view, j + 1, 0).contains(e) by {
                    if edges_before(view, j as int, count as int).contains(e) {
                        let (j2, k2) = choose|j2: int, k2: int|
                            (j2 < j || (j2 == j && k2 < count)) && #[trigger] edge_from(
                                view,
                                j2,
                                k2,
                                e.0,
                                e.1,
                            );
                        assert(edge_from(view, j2, k2, e.0, e.1));
                    }
                    if edges_before(view, j + 1, 0).contains(e) {
                        let (j2, k2) = choose|j2: int, k2: int|
                            (j2 < j + 1 || (j2 == j + 1 && k2 < 0)) && #[trigger] edge_from(
                                view,
                                j2,
                                k2,
                                e.0,
                                e.1,
                            );
                        assert(edge_from(view, j2, k2, e.0, e.1));
                    }
                }
            }
        }
        j += 1;
    }
    proof {
        assert(edges_before(view, n as int, 0) =~= task_edges(view)) by {
            assert forall|e: (usize, usize)| edges_before(view, n as int, 0).contains(e)
                == task_edges(view).contains(e) by {
                if edges_before(view, n as int, 0).contains(e) {
                    let (j2, k2) = choose|j2: int, k2: int|
                        (j2 < n || (j2 == n && k2 < 0)) && #[trigger] edge_from(view, j2, k2, e.0, e.1);
                    assert(edge_from(view, j2, k2, e.0, e.1));
                }
                if task_edges(view).contains(e) {
                    let (j2, k2) = choose|j2: int, k2: int| #[trigger]
                        edge_from(view, j2, k2, e.0, e.1);
                    assert(edge_from(view, j2, k2, e.0, e.1));
                }
            }
        }
        assert(node_set(is_node@) =~= task_nodes(view));
        assert(!has_dangling(view)) by {
            if has_dangling(view) {
                let (j2, k2) = choose|j2: int, k2: int| #[trigger] dangling_at(view, j2, k2);
                assert(dangling_at(view, j2, k2));
            }
        }
    }
    match sort_by_declaration(&is_node, &preds) {
        Some(order) => {
            proof {
                assert(walk_order(view, order@));
                let chosen = choose|chosen: Seq<usize>| walk_order(view, chosen);
                crate::order::lemma_order_unique(
                    order@,
                    chosen,
                    task_nodes(view),
                    task_edges(view),
                );
            }
            Ok(order)
        },
        None => {
            proof {
                lemma_cyclic_not_orderable(view);
            }
            Err(InvalidWorkflow::Cycle)
        },
    }
}

} // verus!
