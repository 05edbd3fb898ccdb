//! The reconciler: one pass over a workflow against a control plane, and
//! what the pass comes to.
//!
//! `pass_outcome` states the result of a pass directly, from the workflow and
//! what the control plane holds. `reconcile` runs the state machine of
//! `machine` against a control plane held in memory and is proved to come to
//! that result.

use vstd::prelude::*;
use vstd::string::*;
use crate::cluster::{Cluster, ClusterView};
use crate::control::{Request, RequestView, Response};
use crate::error::{Error, ErrorView, ObjectKey};
use crate::graph::{declared, last_named, orderable, validated, walk_order};
use crate::machine::{
    after_poll, ask_init, ask_job, bundle_ref, finish_pass, first_sight_delay, first_step,
    initial_status, launch_from, next_running, next_step, poll_from, recorded_entries, result_view,
    steady_delay, Pass, PassView, Requeue, Stage, Step, StepView,
};
use crate::manifest::{bundle_for, bundle_name_of, claim_for, claim_name_of, job_for, job_name_of, needs_bundle};
use crate::phase::{aggregate_phase, observed, JobCounts, Phase};
use crate::schedule::{
    filled, last_index, launch_of, launch_plan, launched, lemma_plan_bounded, plan_upto, polled,
    startable, Entries, LaunchView,
};
use crate::types::{QFlowTaskView, QuantumWorkflow, QuantumWorkflowStatus, QuantumWorkflowStatusView, QuantumWorkflowView};

verus! {

/// What a pass comes to: what the control plane holds after it, the status
/// it wrote (if it wrote one), and how it ended.
pub struct Outcome {
    pub cluster: ClusterView,
    pub written: Option<QuantumWorkflowStatusView>,
    pub result: Result<Requeue, ErrorView>,
}

/// The status written last, after `request` was made.
pub open spec fn noted(
    written: Option<QuantumWorkflowStatusView>,
    request: RequestView,
) -> Option<QuantumWorkflowStatusView> {
    match request {
        RequestView::WriteStatus(status) => Some(status),
        _ => written,
    }
}

/// Runs the machine from `step` against `cluster` until the pass ends: each
/// call that is asked is made, and its answer handed back.
pub open spec fn run(
    step: StepView,
    cluster: ClusterView,
    written: Option<QuantumWorkflowStatusView>,
) -> Outcome
    decreases step.rank(),
{
    match step {
        StepView::Finish(result) => Outcome { cluster, written, result },
        StepView::Ask(pass, request) => {
            let (after, response) = cluster.performed(request);
            let next = next_step(pass, response);
            if next.rank() < step.rank() {
                run(next, after, noted(written, request))
            } else {
                Outcome {
                    cluster: after,
                    written: noted(written, request),
                    result: Err(ErrorView::KubeError),
                }
            }
        },
    }
}

/// What the jobs of the recorded tasks report.
pub open spec fn cluster_reports(workflow: Seq<char>, entries: Entries, cluster: ClusterView) -> Seq<
    Option<JobCounts>,
> {
    Seq::new(entries.len(), |i: int| cluster.job_report(job_name_of(workflow, entries[i].0)))
}

/// The control plane after one task was provided for, and whether that
/// worked. The input bundle of the task, where it has one, and its job are
/// each created unless they exist. It fails where something has to be created
/// and the training data of the task cannot be written out.
pub open spec fn launch_one(
    workflow: QuantumWorkflowView,
    launch: LaunchView,
    cluster: ClusterView,
) -> (ClusterView, bool) {
    let name = workflow.name->0;
    let task = workflow.spec.tasks[launch.task as int];
    let bundle = bundle_name_of(name, task.name);
    let wants_bundle = needs_bundle(task.spec) && !cluster.has_bundle(bundle);
    if wants_bundle && launch.training is None {
        (cluster, false)
    } else {
        let bundled = if wants_bundle {
            cluster.with_bundle(bundle_for(name, task, launch.training->0)->0)
        } else {
            cluster
        };
        if bundled.has_job(job_name_of(name, task.name)) {
            (bundled, true)
        } else if launch.training is None {
            (bundled, false)
        } else {
            (
                bundled.with_job(
                    job_for(
                        name,
                        task,
                        if needs_bundle(task.spec) {
                            Some(bundle)
                        } else {
                            None
                        },
                        launch.training->0,
                    ),
                ),
                true,
            )
        }
    }
}

/// The control plane after the tasks of the plan from the `k`-th on were
/// provided for in turn, up to the first for which that failed.
pub open spec fn provision_from(
    workflow: QuantumWorkflowView,
    plan: Seq<LaunchView>,
    k: nat,
    cluster: ClusterView,
) -> (ClusterView, bool)
    decreases plan.len() - k,
{
    if k >= plan.len() {
        (cluster, true)
    } else {
        let (after, ok) = launch_one(workflow, plan[k as int], cluster);
        if ok {
            provision_from(workflow, plan, k + 1, after)
        } else {
            (after, false)
        }
    }
}

/// First sight of a workflow: the shared volume is created unless it exists,
/// every task is recorded as Pending, and the pass is due again in a second.
pub open spec fn first_sight(workflow: QuantumWorkflowView, cluster: ClusterView) -> Outcome {
    let claim = claim_for(workflow.name->0, workflow.spec.volume);
    let provided = if cluster.has_volume(claim.name) {
        cluster
    } else {
        cluster.with_volume(claim)
    };
    Outcome {
        cluster: provided.with_status_write(),
        written: Some(initial_status(workflow.spec.tasks)),
        result: Ok(Requeue { after_secs: first_sight_delay() }),
    }
}

/// A steady pass.
///
/// The recorded tasks are held against the reports of their jobs, and the
/// tasks that are not recorded yet are recorded as Pending. An invalid
/// workflow ends the pass there: nothing is created and nothing written.
/// Otherwise every startable task is provided for, in walk order, and
/// recorded as Running. The status is written if a task moved or the
/// rolled-up phase is not the recorded one. The pass is due again in fifteen
/// seconds.
pub open spec fn steady(workflow: QuantumWorkflowView, cluster: ClusterView) -> Outcome {
    let tasks = workflow.spec.tasks;
    let recorded = recorded_entries(workflow.status->0);
    let seen = polled(recorded, cluster_reports(workflow.name->0, recorded, cluster));
    let known = filled(tasks, seen);
    match validated(tasks) {
        Err(reason) => Outcome {
            cluster,
            written: None,
            result: Err(ErrorView::InvalidWorkflow(reason)),
        },
        Ok(order) => {
            let plan = launch_plan(tasks, known, order);
            let (provided, ok) = provision_from(workflow, plan, 0, cluster);
            let statuses = launched(tasks, known);
            let phase = aggregate_phase(statuses);
            if !ok {
                Outcome { cluster: provided, written: None, result: Err(ErrorView::Serialization) }
            } else if seen != recorded || plan.len() > 0 || workflow.status->0.phase != Some(phase) {
                Outcome {
                    cluster: provided.with_status_write(),
                    written: Some(
                        QuantumWorkflowStatusView { phase: Some(phase), task_statuses: Some(statuses) },
                    ),
                    result: Ok(Requeue { after_secs: steady_delay() }),
                }
            } else {
                Outcome {
                    cluster: provided,
                    written: None,
                    result: Ok(Requeue { after_secs: steady_delay() }),
                }
            }
        },
    }
}

/// What one reconcile pass over `workflow` comes to against `cluster`.
pub open spec fn pass_outcome(workflow: QuantumWorkflowView, cluster: ClusterView) -> Outcome {
    if workflow.namespace is None {
        Outcome {
            cluster,
            written: None,
            result: Err(ErrorView::MissingObjectKey(ObjectKey::Namespace)),
        }
    } else if workflow.name is None {
        Outcome { cluster, written: None, result: Err(ErrorView::MissingObjectKey(ObjectKey::Name)) }
    } else if workflow.status is None {
        first_sight(workflow, cluster)
    } else {
        steady(workflow, cluster)
    }
}

/// What the machine needs of a workflow and a plan in a steady pass.
pub open spec fn steady_base(workflow: QuantumWorkflowView, plan: Seq<LaunchView>) -> bool {
    &&& workflow.name is Some
    &&& workflow.namespace is Some
    &&& workflow.status is Some
    &&& workflow.spec.tasks.len() <= usize::MAX
    &&& plan.len() <= workflow.spec.tasks.len()
    &&& forall|k: int| 0 <= k < plan.len() ==> (#[trigger] plan[k]).task < workflow.spec.tasks.len()
}

proof fn lemma_next_running(entries: Entries, from: nat)
    requires
        from <= entries.len(),
    ensures
        from <= next_running(entries, from) <= entries.len(),
        next_running(entries, from) < entries.len() ==> entries[next_running(entries, from) as int].1
            == Phase::Running,
        forall|j: int|
            from <= j < next_running(entries, from) ==> (#[trigger] entries[j]).1 != Phase::Running,
    decreases entries.len() - from,
{
    if from < entries.len() && entries[from as int].1 != Phase::Running {
        lemma_next_running(entries, from + 1);
    }
}

proof fn lemma_finish_valid(workflow: QuantumWorkflowView, statuses: Entries, changed: bool)
    requires
        steady_base(workflow, Seq::empty()),
    ensures
        finish_pass(workflow, statuses, changed).valid(),
        finish_pass(workflow, statuses, changed).rank() <= 1,
{
}

proof fn lemma_launch_valid(
    workflow: QuantumWorkflowView,
    statuses: Entries,
    plan: Seq<LaunchView>,
    changed: bool,
    k: nat,
)
    requires
        steady_base(workflow, plan),
    ensures
        launch_from(workflow, statuses, plan, changed, k).valid(),
        k < plan.len() ==> launch_from(workflow, statuses, plan, changed, k).rank() <= 4 * (plan.len()
            - k) + 4,
        k >= plan.len() ==> launch_from(workflow, statuses, plan, changed, k).rank() <= 1,
{
    if k >= plan.len() {
        lemma_finish_valid(workflow, statuses, changed);
    }
}

/// A declared name has a last task that carries it.
pub proof fn lemma_last_exists(tasks: Seq<QFlowTaskView>, name: Seq<char>)
    requires
        declared(tasks, name),
        tasks.len() <= usize::MAX,
    ensures
        last_named(tasks, name, last_index(tasks, name)),
{
    let i = choose|i: int| 0 <= i < tasks.len() && (#[trigger] tasks[i]).name == name;
    lemma_last_below(tasks, name, tasks.len());
}

proof fn lemma_last_below(tasks: Seq<QFlowTaskView>, name: Seq<char>, hi: nat)
    requires
        hi <= tasks.len(),
        tasks.len() <= usize::MAX,
        exists|i: int| 0 <= i < hi && (#[trigger] tasks[i]).name == name,
        forall|j: int| hi <= j < tasks.len() ==> (#[trigger] tasks[j]).name != name,
    ensures
        exists|i: usize| last_named(tasks, name, i),
    decreases hi,
{
    if hi == 0 {
    } else if tasks[hi - 1].name == name {
        assert(last_named(tasks, name, (hi - 1) as usize));
    } else {
        let i = choose|i: int| 0 <= i < hi && (#[trigger] tasks[i]).name == name;
        assert(i < hi - 1);
        lemma_last_below(tasks, name, (hi - 1) as nat);
    }
}

proof fn lemma_plan_tasks(tasks: Seq<QFlowTaskView>, entries: Entries, order: Seq<usize>, n: nat)
    requires
        n <= order.len(),
        tasks.len() <= usize::MAX,
    ensures
        forall|k: int|
            0 <= k < plan_upto(tasks, entries, order, n).len() ==> (#[trigger] plan_upto(
                tasks,
                entries,
                order,
                n,
            )[k]).task < tasks.len(),
    decreases n,
{
    if n > 0 {
        lemma_plan_tasks(tasks, entries, order, (n - 1) as nat);
        let node = order[n - 1];
        if node < tasks.len() && startable(tasks, entries, tasks[node as int].name) {
            lemma_last_exists(tasks, tasks[node as int].name);
        }
    }
}

proof fn lemma_after_poll_valid(workflow: QuantumWorkflowView, statuses: Entries, changed: bool)
    requires
        steady_base(workflow, Seq::empty()),
    ensures
        after_poll(workflow, statuses, changed).valid(),
        after_poll(workflow, statuses, changed).rank() <= 4 * workflow.spec.tasks.len() + 4,
{
    let tasks = workflow.spec.tasks;
    let known = filled(tasks, statuses);
    match validated(tasks) {
        Err(_) => {},
        Ok(order) => {
            assert(walk_order(tasks, order));
            let plan = launch_plan(tasks, known, order);
            lemma_plan_bounded(tasks, known, order);
            lemma_plan_tasks(tasks, known, order, order.len());
            lemma_launch_valid(workflow, launched(tasks, known), plan, changed || plan.len() > 0, 0);
        },
    }
}

proof fn lemma_poll_valid(workflow: QuantumWorkflowView, statuses: Entries, changed: bool, from: nat)
    requires
        steady_base(workflow, Seq::empty()),
        from <= statuses.len(),
    ensures
        poll_from(workflow, statuses, changed, from).valid(),
        poll_from(workflow, statuses, changed, from).rank() <= (statuses.len() - from) + 4
            * workflow.spec.tasks.len() + 6,
        from == statuses.len() ==> poll_from(workflow, statuses, changed, from).rank() <= 4
            * workflow.spec.tasks.len() + 4,
{
    lemma_next_running(statuses, from);
    lemma_after_poll_valid(workflow, statuses, changed);
}

/// Every turn of the machine leaves a valid pass with fewer turns to go.
pub proof fn lemma_turn(pass: PassView, response: Response)
    requires
        pass.valid(),
    ensures
        next_step(pass, response).valid(),
        next_step(pass, response).rank() < pass.rank(),
{
    match pass.stage {
        Stage::Poll => {
            let entry = pass.statuses[pass.cursor as int];
            let phase = observed(entry.1, response.report());
            lemma_poll_valid(
                pass.workflow,
                pass.statuses.update(pass.cursor as int, (entry.0, phase)),
                pass.changed || phase != entry.1,
                pass.cursor + 1,
            );
        },
        Stage::JobLookup => {
            lemma_launch_valid(pass.workflow, pass.statuses, pass.plan, pass.changed, pass.cursor + 1);
        },
        Stage::JobCreate => {
            lemma_launch_valid(pass.workflow, pass.statuses, pass.plan, pass.changed, pass.cursor + 1);
        },
        _ => {},
    }
}

/// Running on from a call is running on from the turn that follows its
/// answer.
proof fn lemma_run_ask(
    pass: PassView,
    request: RequestView,
    cluster: ClusterView,
    written: Option<QuantumWorkflowStatusView>,
)
    requires
        pass.valid(),
    ensures
        run(StepView::Ask(pass, request), cluster, written) == run(
            next_step(pass, cluster.performed(request).1),
            cluster.performed(request).0,
            noted(written, request),
        ),
{
    lemma_turn(pass, cluster.performed(request).1);
}

/// How a steady pass ends once every planned task is provided for.
pub open spec fn closing(
    workflow: QuantumWorkflowView,
    statuses: Entries,
    changed: bool,
    cluster: ClusterView,
    written: Option<QuantumWorkflowStatusView>,
) -> Outcome {
    let phase = aggregate_phase(statuses);
    if changed || workflow.status->0.phase != Some(phase) {
        Outcome {
            cluster: cluster.with_status_write(),
            written: Some(
                QuantumWorkflowStatusView { phase: Some(phase), task_statuses: Some(statuses) },
            ),
            result: Ok(Requeue { after_secs: steady_delay() }),
        }
    } else {
        Outcome { cluster, written, result: Ok(Requeue { after_secs: steady_delay() }) }
    }
}

proof fn lemma_run_finish(
    workflow: QuantumWorkflowView,
    statuses: Entries,
    changed: bool,
    cluster: ClusterView,
    written: Option<QuantumWorkflowStatusView>,
)
    requires
        steady_base(workflow, Seq::empty()),
    ensures
        run(finish_pass(workflow, statuses, changed), cluster, written) == closing(
            workflow,
            statuses,
            changed,
            cluster,
            written,
        ),
{
    let step = finish_pass(workflow, statuses, changed);
    match step {
        StepView::Ask(pass, request) => {
            lemma_run_ask(pass, request, cluster, written);
            let next = next_step(pass, cluster.performed(request).1);
            assert(next == StepView::Finish(Ok(Requeue { after_secs: steady_delay() })));
        },
        StepView::Finish(_) => {},
    }
}

/// Running the machine through the plan from the `k`-th task on provides for
/// these tasks in turn.
proof fn lemma_run_launch(
    workflow: QuantumWorkflowView,
    statuses: Entries,
    plan: Seq<LaunchView>,
    changed: bool,
    k: nat,
    cluster: ClusterView,
    written: Option<QuantumWorkflowStatusView>,
)
    requires
        steady_base(workflow, plan),
    ensures
        ({
            let (provided, ok) = provision_from(workflow, plan, k, cluster);
            run(launch_from(workflow, statuses, plan, changed, k), cluster, written) == if ok {
                closing(workflow, statuses, changed, provided, written)
            } else {
                Outcome { cluster: provided, written, result: Err(ErrorView::Serialization) }
            }
        }),
    decreases plan.len() - k,
{
    if k >= plan.len() {
        lemma_run_finish(workflow, statuses, changed, cluster, written);
    } else {
        let name = workflow.name->0;
        let launch = plan[k as int];
        let task = workflow.spec.tasks[launch.task as int];
        let bundle = bundle_name_of(name, task.name);
        let job = job_name_of(name, task.name);
        lemma_launch_valid(workflow, statuses, plan, changed, k);
        let first = launch_from(workflow, statuses, plan, changed, k);
        let lookup = PassView { workflow, stage: Stage::JobLookup, statuses, plan, cursor: k, changed };
        assert(lookup.valid());
        assert(lookup.task() == task);
        if needs_bundle(task.spec) {
            let pass = PassView { workflow, stage: Stage::BundleLookup, statuses, plan, cursor: k, changed };
            assert(first == StepView::Ask(pass, RequestView::GetBundle(bundle)));
            assert(pass.task() == task);
            lemma_run_ask(pass, RequestView::GetBundle(bundle), cluster, written);
            if cluster.has_bundle(bundle) {
                lemma_run_job(workflow, statuses, plan, changed, k, cluster, written);
            } else {
                match launch.training {
                    None => {},
                    Some(json) => {
                        let create = PassView { stage: Stage::BundleCreate, ..pass };
                        assert(create.task() == task);
                        let made = bundle_for(name, task, json)->0;
                        assert(made.name == bundle);
                        lemma_run_ask(create, RequestView::CreateBundle(made), cluster, written);
                        lemma_run_job(
                            workflow,
                            statuses,
                            plan,
                            changed,
                            k,
                            cluster.with_bundle(made),
                            written,
                        );
                    },
                }
            }
        } else {
            assert(first == StepView::Ask(lookup, RequestView::GetJob(job)));
            lemma_run_job(workflow, statuses, plan, changed, k, cluster, written);
        }
    }
}

/// Running on from the lookup of the job of the `k`-th task of the plan.
proof fn lemma_run_job(
    workflow: QuantumWorkflowView,
    statuses: Entries,
    plan: Seq<LaunchView>,
    changed: bool,
    k: nat,
    cluster: ClusterView,
    written: Option<QuantumWorkflowStatusView>,
)
    requires
        steady_base(workflow, plan),
        k < plan.len(),
    ensures
        ({
            let name = workflow.name->0;
            let launch = plan[k as int];
            let task = workflow.spec.tasks[launch.task as int];
            let job = job_name_of(name, task.name);
            let pass = PassView { workflow, stage: Stage::JobLookup, statuses, plan, cursor: k, changed };
            let made = job_for(
                name,
                task,
                if needs_bundle(task.spec) {
                    Some(bundle_name_of(name, task.name))
                } else {
                    None
                },
                launch.training->0,
            );
            run(StepView::Ask(pass, RequestView::GetJob(job)), cluster, written) == if cluster.has_job(
                job,
            ) {
                let (provided, ok) = provision_from(workflow, plan, k + 1, cluster);
                if ok {
                    closing(workflow, statuses, changed, provided, written)
                } else {
                    Outcome { cluster: provided, written, result: Err(ErrorView::Serialization) }
                }
            } else if launch.training is None {
                Outcome { cluster, written, result: Err(ErrorView::Serialization) }
            } else {
                let (provided, ok) = provision_from(workflow, plan, k + 1, cluster.with_job(made));
                if ok {
                    closing(workflow, statuses, changed, provided, written)
                } else {
                    Outcome { cluster: provided, written, result: Err(ErrorView::Serialization) }
                }
            }
        }),
    decreases plan.len() - k, 0nat,
{
    let name = workflow.name->0;
    let launch = plan[k as int];
    let task = workflow.spec.tasks[launch.task as int];
    let job = job_name_of(name, task.name);
    let pass = PassView { workflow, stage: Stage::JobLookup, statuses, plan, cursor: k, changed };
    assert(pass.valid());
    assert(pass.task() == task);
    lemma_run_ask(pass, RequestView::GetJob(job), cluster, written);
    if cluster.has_job(job) {
        lemma_run_launch(workflow, statuses, plan, changed, k + 1, cluster, written);
    } else {
        match launch.training {
            None => {},
            Some(json) => {
                let create = PassView { stage: Stage::JobCreate, ..pass };
                assert(create.task() == task);
                let made = job_for(name, task, bundle_ref(pass), json);
                assert(made.name == job);
                lemma_run_ask(create, RequestView::CreateJob(made), cluster, written);
                lemma_run_launch(
                    workflow,
                    statuses,
                    plan,
                    changed,
                    k + 1,
                    cluster.with_job(made),
                    written,
                );
            },
        }
    }
}

/// The entries with those from `from` on held against their reports.
pub open spec fn polled_from(entries: Entries, reports: Seq<Option<JobCounts>>, from: nat) -> Entries {
    Seq::new(
        entries.len(),
        |j: int|
            if j >= from {
                (entries[j].0, observed(entries[j].1, reports[j]))
            } else {
                entries[j]
            },
    )
}

/// Some entry from `from` on moves when it is held against its report.
pub open spec fn moves_from(entries: Entries, reports: Seq<Option<JobCounts>>, from: nat) -> bool {
    exists|j: int|
        from <= j < entries.len() && observed((#[trigger] entries[j]).1, reports[j]) != entries[j].1
}

/// Running the machine through the polling from `from` on holds every entry
/// from there on against the report of its job.
proof fn lemma_run_poll(
    workflow: QuantumWorkflowView,
    statuses: Entries,
    changed: bool,
    from: nat,
    cluster: ClusterView,
    written: Option<QuantumWorkflowStatusView>,
)
    requires
        steady_base(workflow, Seq::empty()),
        from <= statuses.len(),
    ensures
        ({
            let reports = cluster_reports(workflow.name->0, statuses, cluster);
            run(poll_from(workflow, statuses, changed, from), cluster, written) == run(
                after_poll(
                    workflow,
                    polled_from(statuses, reports, from),
                    changed || moves_from(statuses, reports, from),
                ),
                cluster,
                written,
            )
        }),
    decreases statuses.len() - from,
{
    let name = workflow.name->0;
    let reports = cluster_reports(name, statuses, cluster);
    let at = next_running(statuses, from);
    lemma_next_running(statuses, from);
    if at >= statuses.len() {
        assert(polled_from(statuses, reports, from) =~= statuses);
        assert(!moves_from(statuses, reports, from));
    } else {
        let pass = PassView {
            workflow,
            stage: Stage::Poll,
            statuses,
            plan: Seq::empty(),
            cursor: at,
            changed,
        };
        let request = RequestView::GetJobStatus(job_name_of(name, statuses[at as int].0));
        lemma_run_ask(pass, request, cluster, written);
        let response = cluster.performed(request).1;
        assert(response.report() == reports[at as int]);
        let entry = statuses[at as int];
        let phase = observed(entry.1, response.report());
        let updated = statuses.update(at as int, (entry.0, phase));
        let moved = changed || phase != entry.1;
        lemma_run_poll(workflow, updated, moved, at + 1, cluster, written);
        let later = cluster_reports(name, updated, cluster);
        assert(later =~= reports);
        assert(polled_from(updated, later, at + 1) =~= polled_from(statuses, reports, from));
        assert((moved || moves_from(updated, later, at + 1)) == (changed || moves_from(
            statuses,
            reports,
            from,
        ))) by {
            if phase != entry.1 {
                assert(observed(statuses[at as int].1, reports[at as int]) != statuses[at as int].1);
            }
            if moves_from(updated, later, at + 1) {
                let j = choose|j: int|
                    at + 1 <= j < updated.len() && observed((#[trigger] updated[j]).1, later[j])
                        != updated[j].1;
                assert(observed(statuses[j].1, reports[j]) != statuses[j].1);
            }
            if moves_from(statuses, reports, from) {
                let j = choose|j: int|
                    from <= j < statuses.len() && observed((#[trigger] statuses[j]).1, reports[j])
                        != statuses[j].1;
                if j > at {
                    assert(observed(updated[j].1, later[j]) != updated[j].1);
                }
            }
        }
    }
}

/// Running the machine from the first turn of a pass comes to the outcome of
/// the pass.
pub proof fn lemma_run_is_pass(workflow: QuantumWorkflowView, cluster: ClusterView)
    requires
        workflow.spec.tasks.len() <= usize::MAX,
    ensures
        run(first_step(workflow), cluster, None) == pass_outcome(workflow, cluster),
{
    if workflow.namespace is None || workflow.name is None {
    } else {
        let name = workflow.name->0;
        match workflow.status {
            None => {
                let pass = PassView {
                    workflow,
                    stage: Stage::VolumeLookup,
                    statuses: Seq::empty(),
                    plan: Seq::empty(),
                    cursor: 0,
                    changed: false,
                };
                let claim = claim_for(name, workflow.spec.volume);
                let lookup = RequestView::GetVolume(claim_name_of(name));
                lemma_run_ask(pass, lookup, cluster, None);
                let init = PassView { stage: Stage::StatusInit, ..pass };
                let write = RequestView::WriteStatus(initial_status(workflow.spec.tasks));
                if cluster.has_volume(claim.name) {
                    lemma_run_ask(init, write, cluster, None);
                } else {
                    let create = PassView { stage: Stage::VolumeCreate, ..pass };
                    lemma_run_ask(create, RequestView::CreateVolume(claim), cluster, None);
                    lemma_run_ask(init, write, cluster.with_volume(claim), None);
                }
            },
            Some(status) => {
                let tasks = workflow.spec.tasks;
                let recorded = recorded_entries(status);
                let reports = cluster_reports(name, recorded, cluster);
                lemma_run_poll(workflow, recorded, false, 0, cluster, None);
                let seen = polled(recorded, reports);
                assert(polled_from(recorded, reports, 0) =~= seen);
                assert(moves_from(recorded, reports, 0) == (seen != recorded)) by {
                    if moves_from(recorded, reports, 0) {
                        let j = choose|j: int|
                            0 <= j < recorded.len() && observed((#[trigger] recorded[j]).1, reports[j])
                                != recorded[j].1;
                        assert(seen[j] != recorded[j]);
                    }
                    if seen != recorded {
                        assert(!(seen =~= recorded));
                        let j = choose|j: int| 0 <= j < recorded.len() && seen[j] != recorded[j];
                        assert(observed(recorded[j].1, reports[j]) != recorded[j].1);
                    }
                }
                let known = filled(tasks, seen);
                match validated(tasks) {
                    Err(_) => {},
                    Ok(order) => {
                        assert(walk_order(tasks, order));
                        let plan = launch_plan(tasks, known, order);
                        lemma_plan_bounded(tasks, known, order);
                        lemma_plan_tasks(tasks, known, order, order.len());
                        lemma_run_launch(
                            workflow,
                            launched(tasks, known),
                            plan,
                            seen != recorded || plan.len() > 0,
                            0,
                            cluster,
                            None,
                        );
                    },
                }
            },
        }
    }
}

/// What a pass hands back: how it ended, and the status it wrote.
pub struct PassReport {
    pub result: Result<Requeue, Error>,
    pub written: Option<QuantumWorkflowStatus>,
}

/// Runs one reconcile pass over `wf` against the control plane `cluster`.
pub fn run_pass(wf: &QuantumWorkflow, cluster: &mut Cluster) -> (r: PassReport)
    ensures
        final(cluster).deep_view() == pass_outcome(wf.deep_view(), old(cluster).deep_view()).cluster,
        r.written.deep_view() == pass_outcome(wf.deep_view(), old(cluster).deep_view()).written,
        result_view(r.result) == pass_outcome(wf.deep_view(), old(cluster).deep_view()).result,
{
    let mut step = Pass::begin(wf);
    let mut written: Option<QuantumWorkflowStatus> = None;
    proof {
        crate::machine::lemma_tasks_bounded(wf);
        lemma_run_is_pass(wf.deep_view(), cluster.deep_view());
    }
    loop
        invariant
            run(step.deep_view(), cluster.deep_view(), written.deep_view()) == pass_outcome(
                wf.deep_view(),
                old(cluster).deep_view(),
            ),
        decreases step.deep_view().rank(),
    {
        match step {
            Step::Finish(result) => {
                return PassReport { result, written };
            },
            Step::Ask(pass, request) => {
                pass.check();
                proof {
                    lemma_run_ask(
                        pass.deep_view(),
                        request.deep_view(),
                        cluster.deep_view(),
                        written.deep_view(),
                    );
                    lemma_turn(pass.deep_view(), cluster.deep_view().performed(request.deep_view()).1);
                }
                let response = match request {
                    Request::WriteStatus(status) => {
                        let response = cluster.note_status_write();
                        written = Some(status);
                        response
                    },
                    other => cluster.perform(other),
                };
                step = pass.step(response);
            },
        }
    }
}

/// Reconciles `wf` once against the control plane `cluster`. The status that
/// the pass writes, if it writes one, becomes the status of `wf`.
pub fn reconcile(wf: &mut QuantumWorkflow, cluster: &mut Cluster) -> (r: Result<Requeue, Error>)
    ensures
        final(cluster).deep_view() == pass_outcome(old(wf).deep_view(), old(cluster).deep_view()).cluster,
        result_view(r) == pass_outcome(old(wf).deep_view(), old(cluster).deep_view()).result,
        final(wf).deep_view() == (QuantumWorkflowView {
            status: match pass_outcome(old(wf).deep_view(), old(cluster).deep_view()).written {
                Some(status) => Some(status),
                None => old(wf).deep_view().status,
            },
            ..old(wf).deep_view()
        }),
{
    let report = run_pass(&*wf, cluster);
    match report.written {
        Some(status) => {
            wf.status = Some(status);
        },
        None => {},
    }
    report.result
}

/// What follows a failed pass, whatever failed: the pass is run again after
/// five seconds.
pub fn on_error(error: &Error) -> (r: Requeue)
    ensures
        r == (Requeue { after_secs: crate::machine::error_delay() }),
{
    Requeue { after_secs: 5 }
}

} // verus!
