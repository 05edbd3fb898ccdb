//! What holds of every reconcile pass.

use vstd::prelude::*;
use crate::cluster::ClusterView;
use crate::error::ErrorView;
use crate::graph::{declared, first_named, task_nodes, validated, walk_order};
use crate::machine::{initial_status, recorded_entries, steady_delay, Requeue};
use crate::phase::{
    aggregate_phase, distinct_names, lemma_place_of_entry, names_task, observed, phase_of, place_of,
    JobCounts, Phase,
};
use crate::manifest::job_name_of;
use crate::reconciler::{cluster_reports, launch_one, pass_outcome, provision_from, steady, Outcome};
use crate::schedule::{
    all_succeeded, filled, filled_upto, gated, launch_of, launch_plan, launched, plan_upto, polled,
    runs_as, startable, Entries, LaunchView,
};
use crate::types::{QFlowTaskView, QuantumWorkflowStatusView, QuantumWorkflowView};

verus! {

/// `later` records every name that `earlier` records, at the same place.
pub open spec fn extends(earlier: Entries, later: Entries) -> bool {
    &&& earlier.len() <= later.len()
    &&& forall|i: int| 0 <= i < earlier.len() ==> (#[trigger] later[i]).0 == earlier[i].0
}

/// A name that is recorded stays recorded, at the same place.
pub proof fn lemma_place_kept(earlier: Entries, later: Entries, name: Seq<char>)
    requires
        extends(earlier, later),
        distinct_names(later),
        names_task(earlier, name),
    ensures
        names_task(later, name),
        place_of(later, name) == place_of(earlier, name),
        place_of(earlier, name) < earlier.len(),
{
    let p = place_of(earlier, name);
    assert(later[p].0 == name);
    lemma_place_of_entry(later, p);
}

/// A name that is recorded at a place that `earlier` has, is recorded by
/// `earlier`. With that, names and places agree both ways where the two
/// record the same number of names.
pub proof fn lemma_place_back(earlier: Entries, later: Entries, name: Seq<char>)
    requires
        extends(earlier, later),
        earlier.len() == later.len(),
        distinct_names(later),
        names_task(later, name),
    ensures
        names_task(earlier, name),
        place_of(later, name) == place_of(earlier, name),
{
    let p = place_of(later, name);
    assert(earlier[p].0 == name);
    lemma_place_kept(earlier, later, name);
}

/// Names that are distinct stay distinct where no name changes.
pub proof fn lemma_distinct_kept(earlier: Entries, later: Entries)
    requires
        extends(earlier, later),
        earlier.len() == later.len(),
        distinct_names(earlier),
    ensures
        distinct_names(later),
{
    assert forall|i: int, j: int|
        0 <= i < later.len() && 0 <= j < later.len() && #[trigger] later[i].0
            == #[trigger] later[j].0 implies i == j by {
        assert(earlier[i].0 == later[i].0);
        assert(earlier[j].0 == later[j].0);
    }
}

/// What recording the first `n` tasks does: the entries that were there stay
/// first and unchanged, every entry behind them is Pending and new, no name
/// occurs twice, and each of the `n` tasks is recorded.
pub proof fn lemma_filled_upto(tasks: Seq<QFlowTaskView>, entries: Entries, n: nat)
    requires
        n <= tasks.len(),
        distinct_names(entries),
    ensures
        ({
            let full = filled_upto(tasks, entries, n);
            &&& entries.len() <= full.len()
            &&& forall|i: int| 0 <= i < entries.len() ==> #[trigger] full[i] == entries[i]
            &&& forall|i: int|
                entries.len() <= i < full.len() ==> (#[trigger] full[i]).1 == Phase::Pending
                    && !names_task(entries, full[i].0)
            &&& distinct_names(full)
            &&& forall|j: int| 0 <= j < n ==> names_task(full, (#[trigger] tasks[j]).name)
        }),
    decreases n,
{
    if n > 0 {
        lemma_filled_upto(tasks, entries, (n - 1) as nat);
        let before = filled_upto(tasks, entries, (n - 1) as nat);
        let full = filled_upto(tasks, entries, n);
        let name = tasks[n - 1].name;
        if names_task(before, name) {
        } else {
            assert(full == before.push((name, Phase::Pending)));
            assert forall|i: int, j: int|
                0 <= i < full.len() && 0 <= j < full.len() && #[trigger] full[i].0
                    == #[trigger] full[j].0 implies i == j by {
                if i < before.len() {
                    assert(full[i] == before[i]);
                }
                if j < before.len() {
                    assert(full[j] == before[j]);
                }
            }
            assert forall|i: int| entries.len() <= i < full.len() implies (#[trigger] full[i]).1
                == Phase::Pending && !names_task(entries, full[i].0) by {
                if i < before.len() {
                    assert(full[i] == before[i]);
                } else {
                    if names_task(entries, name) {
                        let p = place_of(entries, name);
                        assert(before[p] == entries[p]);
                    }
                }
            }
            assert forall|j: int| 0 <= j < n implies names_task(full, (#[trigger] tasks[j]).name) by {
                if j < n - 1 {
                    let p = place_of(before, tasks[j].name);
                    assert(full[p] == before[p]);
                } else {
                    assert(full[before.len() as int].0 == name);
                }
            }
        }
    }
}

/// A task that was recorded as Succeeded still is, where later entries keep
/// every name at its place and every Succeeded entry as it is.
pub proof fn lemma_success_kept(earlier: Entries, later: Entries, names: Seq<Seq<char>>)
    requires
        extends(earlier, later),
        distinct_names(later),
        forall|i: int|
            0 <= i < earlier.len() && (#[trigger] earlier[i]).1 == Phase::Succeeded ==> later[i].1
                == Phase::Succeeded,
        all_succeeded(earlier, names),
    ensures
        all_succeeded(later, names),
{
    assert forall|k: int| 0 <= k < names.len() implies phase_of(later, #[trigger] names[k]) == Some(
        Phase::Succeeded,
    ) by {
        assert(phase_of(earlier, names[k]) == Some(Phase::Succeeded));
        lemma_place_kept(earlier, later, names[k]);
        let p = place_of(earlier, names[k]);
        assert(earlier[p].1 == Phase::Succeeded);
    }
}

/// Holding the entries against the reports of the jobs starts no task.
pub proof fn lemma_polled_gated(
    tasks: Seq<QFlowTaskView>,
    entries: Entries,
    reports: Seq<Option<JobCounts>>,
)
    requires
        distinct_names(entries),
        gated(tasks, entries),
    ensures
        distinct_names(polled(entries, reports)),
        gated(tasks, polled(entries, reports)),
{
    let seen = polled(entries, reports);
    lemma_distinct_kept(entries, seen);
    assert forall|name: Seq<char>|
        declared(tasks, name) && #[trigger] names_task(seen, name) && seen[place_of(
            seen,
            name,
        )].1.started() implies all_succeeded(seen, runs_as(tasks, name).dependencies()) by {
        lemma_place_back(entries, seen, name);
        let p = place_of(entries, name);
        assert(entries[p].1.started());
        lemma_success_kept(entries, seen, runs_as(tasks, name).dependencies());
    }
}

/// Recording the tasks that are not recorded yet starts no task.
pub proof fn lemma_filled_gated(tasks: Seq<QFlowTaskView>, entries: Entries)
    requires
        distinct_names(entries),
        gated(tasks, entries),
    ensures
        distinct_names(filled(tasks, entries)),
        gated(tasks, filled(tasks, entries)),
{
    let known = filled(tasks, entries);
    lemma_filled_upto(tasks, entries, tasks.len());
    assert forall|name: Seq<char>|
        declared(tasks, name) && #[trigger] names_task(known, name) && known[place_of(
            known,
            name,
        )].1.started() implies all_succeeded(known, runs_as(tasks, name).dependencies()) by {
        let p = place_of(known, name);
        assert(p < entries.len());
        assert(known[p] == entries[p]);
        assert(entries[p].0 == name);
        assert(names_task(entries, name));
        lemma_place_kept(entries, known, name);
        assert(entries[place_of(entries, name)].1.started());
        lemma_success_kept(entries, known, runs_as(tasks, name).dependencies());
    }
}

/// Starting the startable tasks starts no task before its dependencies have
/// succeeded.
pub proof fn lemma_launched_gated(tasks: Seq<QFlowTaskView>, entries: Entries)
    requires
        distinct_names(entries),
        gated(tasks, entries),
    ensures
        distinct_names(launched(tasks, entries)),
        gated(tasks, launched(tasks, entries)),
{
    let begun = launched(tasks, entries);
    lemma_distinct_kept(entries, begun);
    assert forall|name: Seq<char>|
        declared(tasks, name) && #[trigger] names_task(begun, name) && begun[place_of(
            begun,
            name,
        )].1.started() implies all_succeeded(begun, runs_as(tasks, name).dependencies()) by {
        lemma_place_back(entries, begun, name);
        let p = place_of(entries, name);
        assert(entries[p].0 == name);
        if startable(tasks, entries, name) {
        } else {
            assert(begun[p].1 == entries[p].1);
        }
        assert forall|i: int|
            0 <= i < entries.len() && (#[trigger] entries[i]).1 == Phase::Succeeded implies begun[i].1
            == Phase::Succeeded by {
            if startable(tasks, entries, entries[i].0) {
                lemma_place_of_entry(entries, i);
            }
        }
        lemma_success_kept(entries, begun, runs_as(tasks, name).dependencies());
    }
}

/// The status that first sight records starts no task.
pub proof fn lemma_initial_gated(tasks: Seq<QFlowTaskView>)
    ensures
        distinct_names(filled(tasks, Seq::empty())),
        gated(tasks, filled(tasks, Seq::empty())),
{
    let none = Seq::<(Seq<char>, Phase)>::empty();
    lemma_filled_upto(tasks, none, tasks.len());
    let known = filled(tasks, none);
    assert forall|name: Seq<char>|
        declared(tasks, name) && #[trigger] names_task(known, name) && known[place_of(
            known,
            name,
        )].1.started() implies all_succeeded(known, runs_as(tasks, name).dependencies()) by {
        let p = place_of(known, name);
        assert(known[p].1 == Phase::Pending);
    }
}

/// Dependency ordering. Whatever a reconcile pass writes as status, it
/// records no task as Running, Succeeded or Failed while one of the
/// dependencies of that task is not recorded as Succeeded, provided that the
/// status it started from recorded none so.
pub proof fn lemma_dependency_ordering(workflow: QuantumWorkflowView, cluster: ClusterView)
    requires
        workflow.status is Some ==> distinct_names(recorded_entries(workflow.status->0)) && gated(
            workflow.spec.tasks,
            recorded_entries(workflow.status->0),
        ),
    ensures
        match pass_outcome(workflow, cluster).written {
            Some(status) => status.task_statuses is Some && distinct_names(status.task_statuses->0)
                && gated(workflow.spec.tasks, status.task_statuses->0),
            None => true,
        },
{
    let tasks = workflow.spec.tasks;
    if workflow.namespace is Some && workflow.name is Some {
        match workflow.status {
            None => {
                lemma_initial_gated(tasks);
            },
            Some(status) => {
                let recorded = recorded_entries(status);
                let reports = cluster_reports(workflow.name->0, recorded, cluster);
                lemma_polled_gated(tasks, recorded, reports);
                lemma_filled_gated(tasks, polled(recorded, reports));
                lemma_launched_gated(tasks, filled(tasks, polled(recorded, reports)));
            },
        }
    }
}

/// Phase aggregation. Where every task has succeeded, the workflow has
/// succeeded; where any task has failed, the workflow has failed, whatever
/// the others do; where none has failed and not all have succeeded, the
/// workflow is running.
pub proof fn lemma_aggregation(entries: Entries)
    ensures
        (forall|i: int| 0 <= i < entries.len() ==> (#[trigger] entries[i]).1 == Phase::Succeeded)
            ==> aggregate_phase(entries) == Phase::Succeeded,
        (exists|i: int| 0 <= i < entries.len() && (#[trigger] entries[i]).1 == Phase::Failed)
            ==> aggregate_phase(entries) == Phase::Failed,
        (forall|i: int| 0 <= i < entries.len() ==> (#[trigger] entries[i]).1 != Phase::Failed) && (
        exists|i: int| 0 <= i < entries.len() && (#[trigger] entries[i]).1 != Phase::Succeeded)
            ==> aggregate_phase(entries) == Phase::Running,
        aggregate_phase(entries) != Phase::Pending,
{
}

/// Rejection of invalid workflows. A steady pass over a workflow whose tasks
/// do not validate fails with the finding, creates nothing and writes
/// nothing.
pub proof fn lemma_invalid_changes_nothing(workflow: QuantumWorkflowView, cluster: ClusterView)
    requires
        workflow.namespace is Some,
        workflow.name is Some,
        workflow.status is Some,
        validated(workflow.spec.tasks) is Err,
    ensures
        pass_outcome(workflow, cluster) == (Outcome {
            cluster,
            written: None,
            result: Err(ErrorView::InvalidWorkflow(validated(workflow.spec.tasks)->Err_0)),
        }),
{
}

/// Once the startable tasks are started, none is startable.
pub proof fn lemma_none_startable(tasks: Seq<QFlowTaskView>, entries: Entries, name: Seq<char>)
    requires
        distinct_names(entries),
    ensures
        !startable(tasks, launched(tasks, entries), name),
{
    let begun = launched(tasks, entries);
    lemma_distinct_kept(entries, begun);
    if startable(tasks, begun, name) {
        lemma_place_back(entries, begun, name);
        let p = place_of(entries, name);
        assert(entries[p].0 == name);
        assert(begun[p].1 == Phase::Pending);
        assert(!startable(tasks, entries, name));
        assert(phase_of(entries, name) == Some(Phase::Pending));
        let deps = runs_as(tasks, name).dependencies();
        let k = choose|k: int|
            0 <= k < deps.len() && phase_of(entries, #[trigger] deps[k]) != Some(Phase::Succeeded);
        assert(phase_of(begun, deps[k]) == Some(Phase::Succeeded));
        lemma_place_back(entries, begun, deps[k]);
        let q = place_of(entries, deps[k]);
        assert(entries[q].0 == deps[k]);
        assert(begun[q].1 == Phase::Succeeded);
        if startable(tasks, entries, entries[q].0) {
        }
    }
}

/// A plan over entries in which no task is startable is empty.
pub proof fn lemma_plan_empty(tasks: Seq<QFlowTaskView>, entries: Entries, order: Seq<usize>, n: nat)
    requires
        forall|name: Seq<char>| !startable(tasks, entries, name),
    ensures
        plan_upto(tasks, entries, order, n).len() == 0,
    decreases n,
{
    if n > 0 {
        lemma_plan_empty(tasks, entries, order, (n - 1) as nat);
    }
}

/// Entries that record every task are not added to.
pub proof fn lemma_filled_full(tasks: Seq<QFlowTaskView>, entries: Entries, n: nat)
    requires
        n <= tasks.len(),
        forall|j: int| 0 <= j < tasks.len() ==> names_task(entries, (#[trigger] tasks[j]).name),
    ensures
        filled_upto(tasks, entries, n) == entries,
    decreases n,
{
    if n > 0 {
        lemma_filled_full(tasks, entries, (n - 1) as nat);
    }
}

/// The workflow as the next pass finds it: with the status that this pass
/// wrote, if it wrote one.
pub open spec fn after_pass(workflow: QuantumWorkflowView, outcome: Outcome) -> QuantumWorkflowView {
    QuantumWorkflowView {
        status: match outcome.written {
            Some(status) => Some(status),
            None => workflow.status,
        },
        ..workflow
    }
}

/// No job moves a task that the status records: every running task has a
/// job that reports no completion yet, or has none.
pub open spec fn jobs_at_rest(workflow: QuantumWorkflowView, cluster: ClusterView) -> bool {
    let recorded = recorded_entries(workflow.status->0);
    polled(recorded, cluster_reports(workflow.name->0, recorded, cluster)) == recorded
}

/// No-op stability. After a steady pass that ended well, a second pass over
/// the workflow as the first left it, against the control plane as the first
/// left it, writes no status and creates nothing, as long as no job moves a
/// task that the status now records.
pub proof fn lemma_second_pass_rests(workflow: QuantumWorkflowView, cluster: ClusterView)
    requires
        workflow.namespace is Some,
        workflow.name is Some,
        workflow.status is Some,
        distinct_names(recorded_entries(workflow.status->0)),
        pass_outcome(workflow, cluster).result is Ok,
        jobs_at_rest(
            after_pass(workflow, pass_outcome(workflow, cluster)),
            pass_outcome(workflow, cluster).cluster,
        ),
    ensures
        ({
            let first = pass_outcome(workflow, cluster);
            let second = pass_outcome(after_pass(workflow, first), first.cluster);
            &&& second.cluster == first.cluster
            &&& second.written is None
            &&& second.result == Ok::<Requeue, ErrorView>(Requeue { after_secs: steady_delay() })
        }),
{
    let tasks = workflow.spec.tasks;
    let first = pass_outcome(workflow, cluster);
    let next = after_pass(workflow, first);
    let recorded = recorded_entries(workflow.status->0);
    let reports = cluster_reports(workflow.name->0, recorded, cluster);
    let seen = polled(recorded, reports);
    let known = filled(tasks, seen);
    let order = validated(tasks)->Ok_0;
    let plan = launch_plan(tasks, known, order);
    let statuses = launched(tasks, known);
    lemma_distinct_kept(recorded, seen);
    lemma_filled_upto(tasks, seen, tasks.len());
    lemma_distinct_kept(known, statuses);
    match first.written {
        None => {
            // Nothing moved and nothing was planned: the second pass finds
            // what the first found.
            assert(plan.len() == 0);
            assert(first.cluster == cluster);
            assert(next == workflow);
        },
        Some(status) => {
            assert(status.task_statuses == Some(statuses));
            let again = recorded_entries(next.status->0);
            assert(again == statuses);
            assert forall|j: int| 0 <= j < tasks.len() implies names_task(
                statuses,
                (#[trigger] tasks[j]).name,
            ) by {
                assert(names_task(known, tasks[j].name));
                lemma_place_kept(known, statuses, tasks[j].name);
            }
            lemma_filled_full(tasks, statuses, tasks.len());
            assert forall|name: Seq<char>| !startable(tasks, statuses, name) by {
                lemma_none_startable(tasks, known, name);
            }
            lemma_plan_empty(tasks, statuses, order, order.len());
            assert(launched(tasks, statuses) =~= statuses);
        },
    }
}

/// A declared name has a first task that carries it.
pub proof fn lemma_first_exists(tasks: Seq<QFlowTaskView>, name: Seq<char>, upto: nat)
    requires
        upto <= tasks.len(),
        tasks.len() <= usize::MAX,
        exists|i: int| 0 <= i < tasks.len() && (#[trigger] tasks[i]).name == name,
        forall|j: int| 0 <= j < upto ==> (#[trigger] tasks[j]).name != name,
    ensures
        exists|i: usize| first_named(tasks, name, i),
    decreases tasks.len() - upto,
{
    if upto == tasks.len() {
        let i = choose|i: int| 0 <= i < tasks.len() && (#[trigger] tasks[i]).name == name;
        assert(tasks[i].name != name);
    } else if tasks[upto as int].name == name {
        assert(first_named(tasks, name, upto as usize));
    } else {
        lemma_first_exists(tasks, name, upto + 1);
    }
}

/// What a call that creates leaves behind stays: a job that exists still
/// exists after one more task was provided for.
pub proof fn lemma_launch_keeps_job(
    workflow: QuantumWorkflowView,
    launch: LaunchView,
    cluster: ClusterView,
    job: Seq<char>,
)
    requires
        cluster.has_job(job),
    ensures
        launch_one(workflow, launch, cluster).0.has_job(job),
{
    let i = choose|i: int| 0 <= i < cluster.jobs.len() && (#[trigger] cluster.jobs[i]).job.name == job;
    let after = launch_one(workflow, launch, cluster).0;
    assert(after.jobs.len() >= cluster.jobs.len());
    assert(after.jobs[i] == cluster.jobs[i]);
}

/// A job that exists still exists after the rest of the plan was provided
/// for.
pub proof fn lemma_provision_keeps_job(
    workflow: QuantumWorkflowView,
    plan: Seq<LaunchView>,
    k: nat,
    cluster: ClusterView,
    job: Seq<char>,
)
    requires
        cluster.has_job(job),
    ensures
        provision_from(workflow, plan, k, cluster).0.has_job(job),
    decreases plan.len() - k,
{
    if k < plan.len() {
        lemma_launch_keeps_job(workflow, plan[k as int], cluster, job);
        let (after, ok) = launch_one(workflow, plan[k as int], cluster);
        if ok {
            lemma_provision_keeps_job(workflow, plan, k + 1, after, job);
        }
    }
}

/// Once the plan is provided for, the job of each of its tasks exists.
pub proof fn lemma_provision_has_jobs(
    workflow: QuantumWorkflowView,
    plan: Seq<LaunchView>,
    k: nat,
    cluster: ClusterView,
    i: int,
)
    requires
        k <= i < plan.len(),
        provision_from(workflow, plan, k, cluster).1,
    ensures
        provision_from(workflow, plan, k, cluster).0.has_job(
            job_name_of(workflow.name->0, workflow.spec.tasks[plan[i].task as int].name),
        ),
    decreases plan.len() - k,
{
    let (after, ok) = launch_one(workflow, plan[k as int], cluster);
    if i == k {
        let name = job_name_of(workflow.name->0, workflow.spec.tasks[plan[k as int].task as int].name);
        assert(after.has_job(name)) by {
            if !after.has_job(name) {
                let last = after.jobs.len() - 1;
                assert(after.jobs[last].job.name == name);
            }
        }
        lemma_provision_keeps_job(workflow, plan, k + 1, after, name);
    } else {
        lemma_provision_has_jobs(workflow, plan, k + 1, after, i);
    }
}

/// A task that is startable and stands in the order stands in the plan.
pub proof fn lemma_plan_holds(
    tasks: Seq<QFlowTaskView>,
    entries: Entries,
    order: Seq<usize>,
    n: nat,
    p: int,
)
    requires
        0 <= p < n <= order.len(),
        order[p] < tasks.len(),
        startable(tasks, entries, tasks[order[p] as int].name),
    ensures
        exists|k: int|
            0 <= k < plan_upto(tasks, entries, order, n).len() && #[trigger] plan_upto(
                tasks,
                entries,
                order,
                n,
            )[k] == launch_of(tasks, order[p]),
    decreases n,
{
    let before = plan_upto(tasks, entries, order, (n - 1) as nat);
    let plan = plan_upto(tasks, entries, order, n);
    if p == n - 1 {
        assert(plan[before.len() as int] == launch_of(tasks, order[p]));
    } else {
        lemma_plan_holds(tasks, entries, order, (n - 1) as nat, p);
        let k = choose|k: int| 0 <= k < before.len() && #[trigger] before[k] == launch_of(tasks, order[p]);
        assert(plan[k] == before[k]);
    }
}

/// Started tasks have their jobs. After a steady pass that ended well, the
/// job of every task that the pass started exists.
pub proof fn lemma_started_have_jobs(
    workflow: QuantumWorkflowView,
    cluster: ClusterView,
    name: Seq<char>,
)
    requires
        workflow.namespace is Some,
        workflow.name is Some,
        workflow.status is Some,
        workflow.spec.tasks.len() <= usize::MAX,
        pass_outcome(workflow, cluster).result is Ok,
        startable(
            workflow.spec.tasks,
            filled(
                workflow.spec.tasks,
                polled(
                    recorded_entries(workflow.status->0),
                    cluster_reports(workflow.name->0, recorded_entries(workflow.status->0), cluster),
                ),
            ),
            name,
        ),
    ensures
        pass_outcome(workflow, cluster).cluster.has_job(job_name_of(workflow.name->0, name)),
{
    let tasks = workflow.spec.tasks;
    let recorded = recorded_entries(workflow.status->0);
    let reports = cluster_reports(workflow.name->0, recorded, cluster);
    let known = filled(tasks, polled(recorded, reports));
    let order = validated(tasks)->Ok_0;
    assert(walk_order(tasks, order));
    let plan = launch_plan(tasks, known, order);
    lemma_first_exists(tasks, name, 0);
    let node = choose|i: usize| first_named(tasks, name, i);
    assert(task_nodes(tasks).contains(node));
    assert(order.contains(node));
    let p = choose|p: int| 0 <= p < order.len() && order[p] == node;
    lemma_plan_holds(tasks, known, order, order.len(), p);
    let k = choose|k: int| 0 <= k < plan.len() && #[trigger] plan[k] == launch_of(tasks, node);
    crate::reconciler::lemma_last_exists(tasks, name);
    assert(tasks[plan[k].task as int].name == name);
    lemma_provision_has_jobs(workflow, plan, 0, cluster, k);
    let provided = provision_from(workflow, plan, 0, cluster).0;
    let job = job_name_of(workflow.name->0, name);
    let i = choose|i: int| 0 <= i < provided.jobs.len() && (#[trigger] provided.jobs[i]).job.name == job;
    assert(provided.with_status_write().jobs[i].job.name == job);
}

} // verus!
