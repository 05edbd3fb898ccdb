//! The scheduling rules of a reconcile pass, as functions from one status map
//! to the next: applying what the jobs report, recording tasks that the
//! status does not know yet, and starting every task whose dependencies have
//! all succeeded.

use vstd::prelude::*;
use vstd::string::*;
use crate::graph::{declared, find_last_task, first_named, last_named};
use crate::manifest::{training_json, training_json_of};
use crate::phase::{distinct_names, names_task, observed, phase_of, place_of, JobCounts, Phase, StatusMap};
use crate::types::{QFlowTask, QFlowTaskView};

verus! {

/// The entries of a status map: task names with their phases.
pub type Entries = Seq<(Seq<char>, Phase)>;

/// The entries after each was held against the report of its job.
/// `reports[i]` is what the job of the task at `i` reports, `None` where the
/// job was not found.
pub open spec fn polled(entries: Entries, reports: Seq<Option<JobCounts>>) -> Entries {
    Seq::new(entries.len(), |i: int| (entries[i].0, observed(entries[i].1, reports[i])))
}

/// The entries after the first `n` tasks were recorded: each task that has no
/// entry gets one, as Pending, behind the entries that are there.
pub open spec fn filled_upto(tasks: Seq<QFlowTaskView>, entries: Entries, n: nat) -> Entries
    decreases n,
{
    if n == 0 {
        entries
    } else {
        let before = filled_upto(tasks, entries, (n - 1) as nat);
        if names_task(before, tasks[n - 1].name) {
            before
        } else {
            before.push((tasks[n - 1].name, Phase::Pending))
        }
    }
}

/// The entries after every declared task was recorded.
pub open spec fn filled(tasks: Seq<QFlowTaskView>, entries: Entries) -> Entries {
    filled_upto(tasks, entries, tasks.len())
}

/// The index of the last task that carries `name`.
pub open spec fn last_index(tasks: Seq<QFlowTaskView>, name: Seq<char>) -> usize {
    choose|i: usize| last_named(tasks, name, i)
}

/// The task that runs under `name`: the last one declared with it.
pub open spec fn runs_as(tasks: Seq<QFlowTaskView>, name: Seq<char>) -> QFlowTaskView {
    tasks[last_index(tasks, name) as int]
}

/// Every one of `names` is recorded as Succeeded.
pub open spec fn all_succeeded(entries: Entries, names: Seq<Seq<char>>) -> bool {
    forall|k: int|
        0 <= k < names.len() ==> phase_of(entries, #[trigger] names[k]) == Some(Phase::Succeeded)
}

/// The step from Pending to Running is open: the task is declared, is recorded as
/// Pending, and every one of its dependencies is recorded as Succeeded.
pub open spec fn startable(tasks: Seq<QFlowTaskView>, entries: Entries, name: Seq<char>) -> bool {
    &&& declared(tasks, name)
    &&& phase_of(entries, name) == Some(Phase::Pending)
    &&& all_succeeded(entries, runs_as(tasks, name).dependencies())
}

/// The entries after every startable task was started.
pub open spec fn launched(tasks: Seq<QFlowTaskView>, entries: Entries) -> Entries {
    Seq::new(
        entries.len(),
        |j: int|
            (
                entries[j].0,
                if startable(tasks, entries, entries[j].0) {
                    Phase::Running
                } else {
                    entries[j].1
                },
            ),
    )
}

/// No task has been started while a dependency of it had not succeeded.
pub open spec fn gated(tasks: Seq<QFlowTaskView>, entries: Entries) -> bool {
    forall|name: Seq<char>|
        declared(tasks, name) && #[trigger] names_task(entries, name) && entries[place_of(
            entries,
            name,
        )].1.started() ==> all_succeeded(entries, runs_as(tasks, name).dependencies())
}

/// One task to start: the index of the task that runs, and its training data
/// written out (see `training_json_of`).
pub struct Launch {
    pub task: usize,
    pub training: Option<String>,
}

pub struct LaunchView {
    pub task: usize,
    pub training: Option<Seq<char>>,
}

impl DeepView for Launch {
    type V = LaunchView;

    open spec fn deep_view(&self) -> LaunchView {
        LaunchView { task: self.task, training: self.training.deep_view() }
    }
}

/// The launch of the task that runs under the name of the task at `node`.
pub open spec fn launch_of(tasks: Seq<QFlowTaskView>, node: usize) -> LaunchView {
    let task = last_index(tasks, tasks[node as int].name);
    LaunchView { task, training: training_json_of(tasks[task as int].spec) }
}

/// The launches among the first `n` places of a walk order, in that order.
pub open spec fn plan_upto(
    tasks: Seq<QFlowTaskView>,
    entries: Entries,
    order: Seq<usize>,
    n: nat,
) -> Seq<LaunchView>
    decreases n,
{
    if n == 0 {
        Seq::empty()
    } else {
        let before = plan_upto(tasks, entries, order, (n - 1) as nat);
        let node = order[n - 1];
        if node < tasks.len() && startable(tasks, entries, tasks[node as int].name) {
            before.push(launch_of(tasks, node))
        } else {
            before
        }
    }
}

/// The tasks to start, in walk order.
pub open spec fn launch_plan(
    tasks: Seq<QFlowTaskView>,
    entries: Entries,
    order: Seq<usize>,
) -> Seq<LaunchView> {
    plan_upto(tasks, entries, order, order.len())
}

/// A plan holds no more launches than the part of the order it was read from.
pub proof fn lemma_plan_upto_bounded(
    tasks: Seq<QFlowTaskView>,
    entries: Entries,
    order: Seq<usize>,
    n: nat,
)
    ensures
        plan_upto(tasks, entries, order, n).len() <= n,
    decreases n,
{
    if n > 0 {
        lemma_plan_upto_bounded(tasks, entries, order, (n - 1) as nat);
    }
}

/// A plan holds no more launches than there are tasks.
pub proof fn lemma_plan_bounded(tasks: Seq<QFlowTaskView>, entries: Entries, order: Seq<usize>)
    requires
        crate::graph::walk_order(tasks, order),
    ensures
        launch_plan(tasks, entries, order).len() <= tasks.len(),
{
    lemma_plan_upto_bounded(tasks, entries, order, order.len());
    assert forall|k: int| 0 <= k < order.len() implies order[k] < tasks.len() by {
        assert(order.contains(order[k]));
        assert(crate::graph::task_nodes(tasks).contains(order[k]));
    }
    crate::order::lemma_distinct_below(order, tasks.len());
}

/// No other task is the last to carry a name.
pub proof fn lemma_last_named_unique(tasks: Seq<QFlowTaskView>, name: Seq<char>, i: usize, j: usize)
    requires
        last_named(tasks, name, i),
        last_named(tasks, name, j),
    ensures
        i == j,
{
    if i < j {
        assert(tasks[j as int].name == name);
    } else if j < i {
        assert(tasks[i as int].name == name);
    }
}

/// Records every declared task that the status does not know yet as Pending.
pub fn fill_missing(tasks: &Vec<QFlowTask>, statuses: &mut StatusMap)
    ensures
        final(statuses).entries() == filled(tasks.deep_view(), old(statuses).entries()),
{
    let mut j: usize = 0;
    while j < tasks.len()
        invariant
            j <= tasks.len(),
            statuses.entries() == filled_upto(
                tasks.deep_view(),
                old(statuses).entries(),
                j as nat,
            ),
        decreases tasks.len() - j,
    {
        assert(tasks.deep_view()[j as int].name == tasks[j as int].name@);
        if statuses.position(&tasks[j].name).is_none() {
            statuses.insert(tasks[j].name.clone(), Phase::Pending);
        }
        j += 1;
    }
}

/// Whether every dependency of `task` is recorded as Succeeded.
pub fn dependencies_succeeded(task: &QFlowTask, statuses: &StatusMap) -> (r: bool)
    ensures
        r == all_succeeded(statuses.entries(), task.deep_view().dependencies()),
{
    let count = task.dependency_count();
    let mut k: usize = 0;
    while k < count
        invariant
            k <= count,
            count == task.deep_view().dependencies().len(),
            forall|i: int|
                0 <= i < k ==> phase_of(
                    statuses.entries(),
                    #[trigger] task.deep_view().dependencies()[i],
                ) == Some(Phase::Succeeded),
        decreases count - k,
    {
        match statuses.get(task.dependency(k)) {
            Some(Phase::Succeeded) => {},
            _ => {
                return false;
            },
        }
        k += 1;
    }
    true
}

/// Whether the task that runs under `name` may start now.
pub fn can_start(tasks: &Vec<QFlowTask>, statuses: &StatusMap, name: &String) -> (r: bool)
    ensures
        r == startable(tasks.deep_view(), statuses.entries(), name@),
{
    match find_last_task(tasks, name) {
        None => false,
        Some(e) => {
            proof {
                let chosen = last_index(tasks.deep_view(), name@);
                lemma_last_named_unique(tasks.deep_view(), name@, e, chosen);
                assert(tasks.deep_view()[e as int] == tasks[e as int].deep_view());
            }
            match statuses.get(name) {
                Some(Phase::Pending) => dependencies_succeeded(&tasks[e], statuses),
                _ => false,
            }
        },
    }
}

/// Starts every startable task: each goes from Pending to Running.
pub fn start_all(tasks: &Vec<QFlowTask>, statuses: &mut StatusMap)
    ensures
        final(statuses).entries() == launched(tasks.deep_view(), old(statuses).entries()),
{
    let n = statuses.len();
    let mut flags: Vec<bool> = Vec::new();
    let mut j: usize = 0;
    while j < n
        invariant
            j <= n,
            n == statuses.entries().len(),
            statuses.entries() == old(statuses).entries(),
            flags.len() == j,
            forall|i: int|
                0 <= i < j ==> #[trigger] flags[i] == startable(
                    tasks.deep_view(),
                    statuses.entries(),
                    statuses.entries()[i].0,
                ),
        decreases n - j,
    {
        let flag = can_start(tasks, statuses, statuses.name_at(j));
        flags.push(flag);
        j += 1;
    }
    let ghost before = statuses.entries();
    j = 0;
    while j < n
        invariant
            j <= n,
            n == before.len(),
            before == old(statuses).entries(),
            flags.len() == n,
            forall|i: int|
                0 <= i < n ==> #[trigger] flags[i] == startable(
                    tasks.deep_view(),
                    before,
                    before[i].0,
                ),
            statuses.entries().len() == n,
            forall|i: int| 0 <= i < j ==> #[trigger] statuses.entries()[i] == launched(tasks.deep_view(), before)[i],
            forall|i: int| j <= i < n ==> #[trigger] statuses.entries()[i] == before[i],
        decreases n - j,
    {
        if flags[j] {
            statuses.set_at(j, Phase::Running);
        }
        j += 1;
    }
    assert(statuses.entries() =~= launched(tasks.deep_view(), before));
}

/// Lists the tasks to start, in walk order.
pub fn plan_launches(tasks: &Vec<QFlowTask>, statuses: &StatusMap, order: &Vec<usize>) -> (plan: Vec<
    Launch,
>)
    ensures
        plan.deep_view() == launch_plan(tasks.deep_view(), statuses.entries(), order@),
        forall|k: int| 0 <= k < plan.len() ==> (#[trigger] plan[k]).task < tasks.len(),
{
    let mut plan: Vec<Launch> = Vec::new();
    let mut k: usize = 0;
    assert(plan.deep_view() =~= plan_upto(tasks.deep_view(), statuses.entries(), order@, 0));
    while k < order.len()
        invariant
            k <= order.len(),
            plan.deep_view() == plan_upto(
                tasks.deep_view(),
                statuses.entries(),
                order@,
                k as nat,
            ),
            forall|i: int| 0 <= i < plan.len() ==> (#[trigger] plan[i]).task < tasks.len(),
        decreases order.len() - k,
    {
        let node = order[k];
        if node < tasks.len() {
            assert(tasks.deep_view()[node as int].name == tasks[node as int].name@);
            if can_start(tasks, statuses, &tasks[node].name) {
                match find_last_task(tasks, &tasks[node].name) {
                    Some(e) => {
                        let training = match training_json(&tasks[e]) {
                            Ok(text) => Some(text),
                            Err(_) => None,
                        };
                        proof {
                            let chosen = last_index(tasks.deep_view(), tasks[node as int].name@);
                            lemma_last_named_unique(
                                tasks.deep_view(),
                                tasks[node as int].name@,
                                e,
                                chosen,
                            );
                            assert(tasks.deep_view()[e as int] == tasks[e as int].deep_view());
                        }
                        let ghost before = plan.deep_view();
                        let launch = Launch { task: e, training };
                        assert(launch.deep_view() == launch_of(tasks.deep_view(), node));
                        plan.push(launch);
                        assert(plan.deep_view() =~= before.push(
                            launch_of(tasks.deep_view(), node),
                        ));
                    },
                    None => {},
                }
            }
        }
        k += 1;
    }
    plan
}

} // verus!
