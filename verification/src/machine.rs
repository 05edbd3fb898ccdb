//! One reconcile pass as a state machine. The machine decides; whoever runs
//! it talks to the control plane. It starts with `Pass::begin`, and each turn
//! either asks one call of the control plane, to be answered to `Pass::step`,
//! or finishes the pass.
//!
//! First sight of a workflow (it has no status): the shared volume is created
//! unless it exists, every task is recorded as Pending, and the pass asks to
//! be run again after one second.
//!
//! Steady pass: every running task is held against the report of its job;
//! tasks that the status does not know are recorded as Pending; the tasks are
//! validated and ordered; every startable task gets its input bundle and its
//! job, each created unless it exists, and is recorded as Running; the
//! workflow phase is rolled up; the status is written only if something
//! changed; the pass asks to be run again after fifteen seconds.

use vstd::prelude::*;
use vstd::string::*;
use crate::control::{Request, RequestView, Response};
use crate::error::{Error, ErrorView, ObjectKey};
use crate::graph::{build_graph, validated};
use crate::manifest::{
    build_bundle, build_claim, bundle_for, bundle_name, bundle_name_of, claim_for, claim_name,
    claim_name_of, job_for, job_for_task, job_name, job_name_of, needs_bundle,
};
use crate::phase::{aggregate, aggregate_phase, distinct_names, observe, observed, Phase, StatusMap};
use crate::schedule::{
    fill_missing, filled, launch_plan, launched, plan_launches, start_all, Entries, Launch,
    LaunchView,
};
use crate::types::{
    QFlowTaskSpec, QFlowTaskView, QuantumWorkflow, QuantumWorkflowStatus,
    QuantumWorkflowStatusView, QuantumWorkflowView,
};

verus! {

/// When a pass asks to be run again.
#[derive(Clone, Copy, Debug, PartialEq, Eq, Structural)]
pub struct Requeue {
    pub after_secs: u64,
}

/// Seconds until the pass that follows first sight.
pub open spec fn first_sight_delay() -> u64 {
    1
}

/// Seconds between steady passes.
pub open spec fn steady_delay() -> u64 {
    15
}

/// Seconds until the pass that follows a failed one.
pub open spec fn error_delay() -> u64 {
    5
}

/// Which answer the machine is waiting for.
#[derive(Clone, Copy, Debug, PartialEq, Eq, Structural)]
pub enum Stage {
    VolumeLookup,
    VolumeCreate,
    StatusInit,
    Poll,
    BundleLookup,
    BundleCreate,
    JobLookup,
    JobCreate,
    StatusWrite,
}

impl Stage {
    /// The stages in which the task at the cursor of the plan is started.
    pub open spec fn launching(self) -> bool {
        self is BundleLookup || self is BundleCreate || self is JobLookup || self is JobCreate
    }
}

pub struct PassView {
    pub workflow: QuantumWorkflowView,
    pub stage: Stage,
    pub statuses: Entries,
    pub plan: Seq<LaunchView>,
    pub cursor: nat,
    pub changed: bool,
}

pub enum StepView {
    Ask(PassView, RequestView),
    Finish(Result<Requeue, ErrorView>),
}

impl PassView {
    pub open spec fn tasks(self) -> Seq<QFlowTaskView> {
        self.workflow.spec.tasks
    }

    /// The name of the workflow.
    pub open spec fn name(self) -> Seq<char> {
        self.workflow.name->0
    }

    /// The task that is being started.
    pub open spec fn task(self) -> QFlowTaskView {
        self.tasks()[self.plan[self.cursor as int].task as int]
    }

    /// What holds of every pass that the machine hands out.
    pub open spec fn valid(self) -> bool {
        &&& self.workflow.name is Some
        &&& self.workflow.namespace is Some
        &&& self.tasks().len() <= usize::MAX
        &&& self.stage is Poll ==> self.cursor < self.statuses.len()
        &&& self.stage.launching() ==> self.cursor < self.plan.len()
        &&& (self.stage is BundleLookup || self.stage is BundleCreate) ==> needs_bundle(
            self.task().spec,
        )
        &&& self.plan.len() <= self.tasks().len()
        &&& forall|k: int| 0 <= k < self.plan.len() ==> (#[trigger] self.plan[k]).task < self.tasks().len()
        &&& (self.stage is VolumeLookup || self.stage is VolumeCreate || self.stage is StatusInit)
            == (self.workflow.status is None)
    }

    /// How many more turns the pass can take at most.
    pub open spec fn rank(self) -> nat {
        let left = (self.plan.len() - self.cursor) as nat;
        match self.stage {
            Stage::VolumeLookup => 3,
            Stage::VolumeCreate => 2,
            Stage::StatusInit => 1,
            Stage::StatusWrite => 1,
            Stage::Poll => ((self.statuses.len() - self.cursor) as nat) + 4 * self.tasks().len() + 6,
            Stage::BundleLookup => 4 * left + 4,
            Stage::BundleCreate => 4 * left + 3,
            Stage::JobLookup => 4 * left + 2,
            Stage::JobCreate => 4 * left + 1,
        }
    }
}

impl StepView {
    pub open spec fn rank(self) -> nat {
        match self {
            StepView::Ask(pass, _) => pass.rank(),
            StepView::Finish(_) => 0,
        }
    }

    pub open spec fn valid(self) -> bool {
        match self {
            StepView::Ask(pass, _) => pass.valid(),
            StepView::Finish(_) => true,
        }
    }
}

/// The entries that a status records; none where it records no map.
pub open spec fn recorded_entries(status: QuantumWorkflowStatusView) -> Entries {
    match status.task_statuses {
        Some(entries) => entries,
        None => Seq::empty(),
    }
}

/// The status that is written at first sight: the workflow and every task
/// Pending.
pub open spec fn initial_status(tasks: Seq<QFlowTaskView>) -> QuantumWorkflowStatusView {
    QuantumWorkflowStatusView {
        phase: Some(Phase::Pending),
        task_statuses: Some(filled(tasks, Seq::empty())),
    }
}

/// The place of the first running entry at or behind `from`; the number of
/// entries where there is none.
pub open spec fn next_running(entries: Entries, from: nat) -> nat
    decreases entries.len() - from,
{
    if from >= entries.len() {
        entries.len()
    } else if entries[from as int].1 == Phase::Running {
        from
    } else {
        next_running(entries, from + 1)
    }
}

/// The end of a steady pass: the status is written if a task moved or the
/// rolled-up phase differs from the recorded one, and is left alone
/// otherwise.
pub open spec fn finish_pass(workflow: QuantumWorkflowView, statuses: Entries, changed: bool) -> StepView {
    let phase = aggregate_phase(statuses);
    if changed || workflow.status->0.phase != Some(phase) {
        StepView::Ask(
            PassView {
                workflow,
                stage: Stage::StatusWrite,
                statuses: Seq::empty(),
                plan: Seq::empty(),
                cursor: 0,
                changed,
            },
            RequestView::WriteStatus(
                QuantumWorkflowStatusView { phase: Some(phase), task_statuses: Some(statuses) },
            ),
        )
    } else {
        StepView::Finish(Ok(Requeue { after_secs: steady_delay() }))
    }
}

/// Turns to the `k`-th task of the plan: asks for its input bundle where it
/// has one, for its job where it has none; ends the pass where the plan is
/// done.
pub open spec fn launch_from(
    workflow: QuantumWorkflowView,
    statuses: Entries,
    plan: Seq<LaunchView>,
    changed: bool,
    k: nat,
) -> StepView {
    if k < plan.len() {
        let task = workflow.spec.tasks[plan[k as int].task as int];
        if needs_bundle(task.spec) {
            StepView::Ask(
                PassView { workflow, stage: Stage::BundleLookup, statuses, plan, cursor: k, changed },
                RequestView::GetBundle(bundle_name_of(workflow.name->0, task.name)),
            )
        } else {
            StepView::Ask(
                PassView { workflow, stage: Stage::JobLookup, statuses, plan, cursor: k, changed },
                RequestView::GetJob(job_name_of(workflow.name->0, task.name)),
            )
        }
    } else {
        finish_pass(workflow, statuses, changed)
    }
}

/// What follows the polling: unknown tasks are recorded, the tasks are
/// validated, and every startable task is planned for launch and recorded as
/// Running. An invalid workflow ends the pass.
pub open spec fn after_poll(workflow: QuantumWorkflowView, statuses: Entries, changed: bool) -> StepView {
    let tasks = workflow.spec.tasks;
    let known = filled(tasks, statuses);
    match validated(tasks) {
        Err(reason) => StepView::Finish(Err(ErrorView::InvalidWorkflow(reason))),
        Ok(order) => {
            let plan = launch_plan(tasks, known, order);
            launch_from(workflow, launched(tasks, known), plan, changed || plan.len() > 0, 0)
        },
    }
}

/// Asks for the report of the first running task at or behind `from`; goes
/// on behind the polling where there is none.
pub open spec fn poll_from(
    workflow: QuantumWorkflowView,
    statuses: Entries,
    changed: bool,
    from: nat,
) -> StepView {
    let at = next_running(statuses, from);
    if at < statuses.len() {
        StepView::Ask(
            PassView {
                workflow,
                stage: Stage::Poll,
                statuses,
                plan: Seq::empty(),
                cursor: at,
                changed,
            },
            RequestView::GetJobStatus(job_name_of(workflow.name->0, statuses[at as int].0)),
        )
    } else {
        after_poll(workflow, statuses, changed)
    }
}

/// The first turn of a pass.
pub open spec fn first_step(workflow: QuantumWorkflowView) -> StepView {
    if workflow.namespace is None {
        StepView::Finish(Err(ErrorView::MissingObjectKey(ObjectKey::Namespace)))
    } else if workflow.name is None {
        StepView::Finish(Err(ErrorView::MissingObjectKey(ObjectKey::Name)))
    } else {
        match workflow.status {
            None => StepView::Ask(
                PassView {
                    workflow,
                    stage: Stage::VolumeLookup,
                    statuses: Seq::empty(),
                    plan: Seq::empty(),
                    cursor: 0,
                    changed: false,
                },
                RequestView::GetVolume(claim_name_of(workflow.name->0)),
            ),
            Some(status) => poll_from(workflow, recorded_entries(status), false, 0),
        }
    }
}

/// Asks to record the first status.
pub open spec fn ask_init(pass: PassView) -> StepView {
    StepView::Ask(
        PassView { stage: Stage::StatusInit, ..pass },
        RequestView::WriteStatus(initial_status(pass.tasks())),
    )
}

/// Asks for the job of the task that is being started.
pub open spec fn ask_job(pass: PassView) -> StepView {
    StepView::Ask(
        PassView { stage: Stage::JobLookup, ..pass },
        RequestView::GetJob(job_name_of(pass.name(), pass.task().name)),
    )
}

/// The name under which the job of the task that is being started finds its
/// input bundle.
pub open spec fn bundle_ref(pass: PassView) -> Option<Seq<char>> {
    if needs_bundle(pass.task().spec) {
        Some(bundle_name_of(pass.name(), pass.task().name))
    } else {
        None
    }
}

/// The turn that follows the answer `response`.
pub open spec fn next_step(pass: PassView, response: Response) -> StepView {
    match pass.stage {
        Stage::VolumeLookup => if response.present() {
            ask_init(pass)
        } else {
            StepView::Ask(
                PassView { stage: Stage::VolumeCreate, ..pass },
                RequestView::CreateVolume(claim_for(pass.name(), pass.workflow.spec.volume)),
            )
        },
        Stage::VolumeCreate => if response.settled() {
            ask_init(pass)
        } else {
            StepView::Finish(Err(ErrorView::KubeError))
        },
        Stage::StatusInit => if response is Done {
            StepView::Finish(Ok(Requeue { after_secs: first_sight_delay() }))
        } else {
            StepView::Finish(Err(ErrorView::KubeError))
        },
        Stage::Poll => {
            let entry = pass.statuses[pass.cursor as int];
            let phase = observed(entry.1, response.report());
            poll_from(
                pass.workflow,
                pass.statuses.update(pass.cursor as int, (entry.0, phase)),
                pass.changed || phase != entry.1,
                pass.cursor + 1,
            )
        },
        Stage::BundleLookup => if response.present() {
            ask_job(pass)
        } else {
            match pass.plan[pass.cursor as int].training {
                Some(json) => StepView::Ask(
                    PassView { stage: Stage::BundleCreate, ..pass },
                    RequestView::CreateBundle(bundle_for(pass.name(), pass.task(), json)->0),
                ),
                None => StepView::Finish(Err(ErrorView::Serialization)),
            }
        },
        Stage::BundleCreate => if response.settled() {
            ask_job(pass)
        } else {
            StepView::Finish(Err(ErrorView::KubeError))
        },
        Stage::JobLookup => if response.present() {
            launch_from(pass.workflow, pass.statuses, pass.plan, pass.changed, pass.cursor + 1)
        } else {
            match pass.plan[pass.cursor as int].training {
                Some(json) => StepView::Ask(
                    PassView { stage: Stage::JobCreate, ..pass },
                    RequestView::CreateJob(job_for(pass.name(), pass.task(), bundle_ref(pass), json)),
                ),
                None => StepView::Finish(Err(ErrorView::Serialization)),
            }
        },
        Stage::JobCreate => if response.settled() {
            launch_from(pass.workflow, pass.statuses, pass.plan, pass.changed, pass.cursor + 1)
        } else {
            StepView::Finish(Err(ErrorView::KubeError))
        },
        Stage::StatusWrite => if response is Done {
            StepView::Finish(Ok(Requeue { after_secs: steady_delay() }))
        } else {
            StepView::Finish(Err(ErrorView::KubeError))
        },
    }
}

/// A reconcile pass in progress.
pub struct Pass<'a> {
    wf: &'a QuantumWorkflow,
    stage: Stage,
    statuses: StatusMap,
    plan: Vec<Launch>,
    cursor: usize,
    changed: bool,
}

impl<'a> DeepView for Pass<'a> {
    type V = PassView;

    closed spec fn deep_view(&self) -> PassView {
        PassView {
            workflow: self.wf.deep_view(),
            stage: self.stage,
            statuses: self.statuses.entries(),
            plan: self.plan.deep_view(),
            cursor: self.cursor as nat,
            changed: self.changed,
        }
    }
}

/// One turn of the machine: a call to make and the pass to answer it to, or
/// the end of the pass.
pub enum Step<'a> {
    Ask(Pass<'a>, Request),
    Finish(Result<Requeue, Error>),
}

/// The end of a pass, with the error by its view.
pub open spec fn result_view(result: Result<Requeue, Error>) -> Result<Requeue, ErrorView> {
    match result {
        Ok(requeue) => Ok(requeue),
        Err(error) => Err(error.deep_view()),
    }
}

impl<'a> DeepView for Step<'a> {
    type V = StepView;

    open spec fn deep_view(&self) -> StepView {
        match self {
            Step::Ask(pass, request) => StepView::Ask(pass.deep_view(), request.deep_view()),
            Step::Finish(result) => StepView::Finish(result_view(*result)),
        }
    }
}

/// The view of a pass that is made of these parts.
pub open spec fn parts(
    wf: &QuantumWorkflow,
    stage: Stage,
    statuses: &StatusMap,
    plan: &Vec<Launch>,
    cursor: usize,
    changed: bool,
) -> PassView {
    PassView {
        workflow: wf.deep_view(),
        stage,
        statuses: statuses.entries(),
        plan: plan.deep_view(),
        cursor: cursor as nat,
        changed,
    }
}

/// The number of tasks of a workflow that is held in memory has a bound.
pub proof fn lemma_tasks_bounded(wf: &QuantumWorkflow)
    ensures
        wf.deep_view().spec.tasks.len() <= usize::MAX,
{
    assert(wf.deep_view().spec.tasks.len() == wf.spec.tasks@.len());
    assert(wf.spec.tasks.len() <= usize::MAX);
}

/// The status that is written at first sight.
pub fn build_initial_status(wf: &QuantumWorkflow) -> (r: QuantumWorkflowStatus)
    ensures
        r.deep_view() == initial_status(wf.deep_view().spec.tasks),
{
    let mut statuses = StatusMap::new();
    fill_missing(&wf.spec.tasks, &mut statuses);
    QuantumWorkflowStatus { phase: Some(Phase::Pending), task_statuses: Some(statuses) }
}

impl<'a> Pass<'a> {
    #[verifier::type_invariant]
    spec fn inv(self) -> bool {
        self.deep_view().valid()
    }

    /// Every pass in progress is valid.
    pub fn check(&self)
        ensures
            self.deep_view().valid(),
    {
        proof {
            use_type_invariant(self);
        }
    }

    fn finish(wf: &'a QuantumWorkflow, statuses: StatusMap, changed: bool) -> (r: Step<'a>)
        requires
            wf.name is Some,
            wf.namespace is Some,
            wf.status is Some,
        ensures
            r.deep_view() == finish_pass(wf.deep_view(), statuses.entries(), changed),
    {
        let phase = aggregate(&statuses);
        let recorded = match &wf.status {
            Some(status) => status.phase,
            None => None,
        };
        let differs = match recorded {
            Some(known) => known != phase,
            None => true,
        };
        if changed || differs {
            proof {
                lemma_tasks_bounded(wf);
            }
            let pass = Pass {
                wf,
                stage: Stage::StatusWrite,
                statuses: StatusMap::new(),
                plan: Vec::new(),
                cursor: 0,
                changed,
            };
            assert(pass.plan.deep_view() =~= Seq::<LaunchView>::empty());
            Step::Ask(
                pass,
                Request::WriteStatus(
                    QuantumWorkflowStatus { phase: Some(phase), task_statuses: Some(statuses) },
                ),
            )
        } else {
            Step::Finish(Ok(Requeue { after_secs: 15 }))
        }
    }

    fn launch(
        wf: &'a QuantumWorkflow,
        statuses: StatusMap,
        plan: Vec<Launch>,
        changed: bool,
        k: usize,
    ) -> (r: Step<'a>)
        requires
            wf.name is Some,
            wf.namespace is Some,
            wf.status is Some,
            plan.len() <= wf.spec.tasks.len(),
            forall|i: int| 0 <= i < plan.len() ==> (#[trigger] plan[i]).task < wf.spec.tasks.len(),
        ensures
            r.deep_view() == launch_from(
                wf.deep_view(),
                statuses.entries(),
                plan.deep_view(),
                changed,
                k as nat,
            ),
    {
        if k < plan.len() {
            let name = wf.name.as_ref().unwrap();
            let task = &wf.spec.tasks[plan[k].task];
            assert(plan.deep_view()[k as int].task == plan[k as int].task);
            assert(wf.deep_view().spec.tasks[plan[k as int].task as int] == task.deep_view());
            assert forall|i: int| 0 <= i < plan.deep_view().len() implies (
            #[trigger] plan.deep_view()[i]).task < wf.deep_view().spec.tasks.len() by {
                assert(plan.deep_view()[i].task == plan[i].task);
            }
            match &task.spec {
                QFlowTaskSpec::Classical { .. } => {
                    let request = Request::GetJob(job_name(name, &task.name));
                    Step::Ask(
                        Pass { wf, stage: Stage::JobLookup, statuses, plan, cursor: k, changed },
                        request,
                    )
                },
                _ => {
                    let request = Request::GetBundle(bundle_name(name, &task.name));
                    Step::Ask(
                        Pass { wf, stage: Stage::BundleLookup, statuses, plan, cursor: k, changed },
                        request,
                    )
                },
            }
        } else {
            Self::finish(wf, statuses, changed)
        }
    }

    fn plan(wf: &'a QuantumWorkflow, statuses: StatusMap, changed: bool) -> (r: Step<'a>)
        requires
            wf.name is Some,
            wf.namespace is Some,
            wf.status is Some,
        ensures
            r.deep_view() == after_poll(wf.deep_view(), statuses.entries(), changed),
    {
        let mut statuses = statuses;
        fill_missing(&wf.spec.tasks, &mut statuses);
        match build_graph(&wf.spec.tasks) {
            Err(reason) => Step::Finish(Err(Error::InvalidWorkflow(reason))),
            Ok(order) => {
                let plan = plan_launches(&wf.spec.tasks, &statuses, &order);
                proof {
                    crate::schedule::lemma_plan_bounded(
                        wf.spec.tasks.deep_view(),
                        statuses.entries(),
                        order@,
                    );
                    assert(plan.deep_view().len() == plan.len());
                }
                let launches = plan.len() > 0;
                start_all(&wf.spec.tasks, &mut statuses);
                Self::launch(wf, statuses, plan, changed || launches, 0)
            },
        }
    }

    fn poll(wf: &'a QuantumWorkflow, statuses: StatusMap, changed: bool, from: usize) -> (r: Step<'a>)
        requires
            wf.name is Some,
            wf.namespace is Some,
            wf.status is Some,
            from <= statuses.entries().len(),
        ensures
            r.deep_view() == poll_from(wf.deep_view(), statuses.entries(), changed, from as nat),
    {
        let mut at: usize = from;
        let n = statuses.len();
        while at < n && !matches!(statuses.phase_at(at), Phase::Running)
            invariant
                from <= at <= n,
                n == statuses.entries().len(),
                next_running(statuses.entries(), from as nat) == next_running(
                    statuses.entries(),
                    at as nat,
                ),
            decreases n - at,
        {
            at += 1;
        }
        if at < n {
            let name = wf.name.as_ref().unwrap();
            let request = Request::GetJobStatus(job_name(name, statuses.name_at(at)));
            proof {
                lemma_tasks_bounded(wf);
            }
            let pass = Pass {
                wf,
                stage: Stage::Poll,
                statuses,
                plan: Vec::new(),
                cursor: at,
                changed,
            };
            assert(pass.plan.deep_view() =~= Seq::<LaunchView>::empty());
            Step::Ask(pass, request)
        } else {
            Self::plan(wf, statuses, changed)
        }
    }

    /// The first turn of a pass over `wf`.
    pub fn begin(wf: &'a QuantumWorkflow) -> (r: Step<'a>)
        ensures
            r.deep_view() == first_step(wf.deep_view()),
    {
        if wf.namespace.is_none() {
            return Step::Finish(Err(Error::MissingObjectKey(ObjectKey::Namespace)));
        }
        let name = match &wf.name {
            Some(name) => name,
            None => {
                return Step::Finish(Err(Error::MissingObjectKey(ObjectKey::Name)));
            },
        };
        match &wf.status {
            None => {
                let request = Request::GetVolume(claim_name(name));
                proof {
                    lemma_tasks_bounded(wf);
                }
                let pass = Pass {
                    wf,
                    stage: Stage::VolumeLookup,
                    statuses: StatusMap::new(),
                    plan: Vec::new(),
                    cursor: 0,
                    changed: false,
                };
                assert(pass.plan.deep_view() =~= Seq::<LaunchView>::empty());
                Step::Ask(pass, request)
            },
            Some(status) => {
                let statuses = match &status.task_statuses {
                    Some(known) => known.duplicate(),
                    None => StatusMap::new(),
                };
                Self::poll(wf, statuses, false, 0)
            },
        }
    }

    fn ask_for_job(
        wf: &'a QuantumWorkflow,
        statuses: StatusMap,
        plan: Vec<Launch>,
        cursor: usize,
        changed: bool,
    ) -> (r: Step<'a>)
        requires
            parts(wf, Stage::JobLookup, &statuses, &plan, cursor, changed).valid(),
        ensures
            r.deep_view() == ask_job(parts(wf, Stage::JobLookup, &statuses, &plan, cursor, changed)),
    {
        let name = wf.name.as_ref().unwrap();
        assert(plan.deep_view()[cursor as int].task == plan[cursor as int].task);
        let task = &wf.spec.tasks[plan[cursor].task];
        assert(wf.deep_view().spec.tasks[plan[cursor as int].task as int] == task.deep_view());
        let request = Request::GetJob(job_name(name, &task.name));
        Step::Ask(Pass { wf, stage: Stage::JobLookup, statuses, plan, cursor, changed }, request)
    }

    fn on_bundle_lookup(
        wf: &'a QuantumWorkflow,
        statuses: StatusMap,
        plan: Vec<Launch>,
        cursor: usize,
        changed: bool,
        response: Response,
    ) -> (r: Step<'a>)
        requires
            parts(wf, Stage::BundleLookup, &statuses, &plan, cursor, changed).valid(),
        ensures
            r.deep_view() == next_step(
                parts(wf, Stage::BundleLookup, &statuses, &plan, cursor, changed),
                response,
            ),
    {
        let ghost before = parts(wf, Stage::BundleLookup, &statuses, &plan, cursor, changed);
        let name = wf.name.as_ref().unwrap();
        assert(plan.deep_view()[cursor as int].task == plan[cursor as int].task);
        let task = &wf.spec.tasks[plan[cursor].task];
        assert(before.task() == task.deep_view());
        if response.is_present() {
            Self::ask_for_job(wf, statuses, plan, cursor, changed)
        } else {
            match &plan[cursor].training {
                Some(json) => {
                    assert(before.plan[cursor as int].training == Some(json@));
                    match build_bundle(name, task, json) {
                        Some(bundle) => {
                            let request = Request::CreateBundle(bundle);
                            Step::Ask(
                                Pass { wf, stage: Stage::BundleCreate, statuses, plan, cursor, changed },
                                request,
                            )
                        },
                        None => Step::Finish(Err(Error::KubeError)),
                    }
                },
                None => {
                    assert(before.plan[cursor as int].training is None);
                    Step::Finish(Err(Error::Serialization))
                },
            }
        }
    }

    fn on_job_lookup(
        wf: &'a QuantumWorkflow,
        statuses: StatusMap,
        plan: Vec<Launch>,
        cursor: usize,
        changed: bool,
        response: Response,
    ) -> (r: Step<'a>)
        requires
            parts(wf, Stage::JobLookup, &statuses, &plan, cursor, changed).valid(),
            wf.status is Some,
        ensures
            r.deep_view() == next_step(
                parts(wf, Stage::JobLookup, &statuses, &plan, cursor, changed),
                response,
            ),
    {
        let ghost before = parts(wf, Stage::JobLookup, &statuses, &plan, cursor, changed);
        let name = wf.name.as_ref().unwrap();
        assert(plan.deep_view()[cursor as int].task == plan[cursor as int].task);
        let task = &wf.spec.tasks[plan[cursor].task];
        assert(before.task() == task.deep_view());
        assert forall|i: int| 0 <= i < plan.len() implies (#[trigger] plan[i]).task
            < wf.spec.tasks.len() by {
            assert(plan.deep_view()[i].task == plan[i].task);
        }
        if response.is_present() {
            Self::launch(wf, statuses, plan, changed, cursor + 1)
        } else {
            match &plan[cursor].training {
                Some(json) => {
                    assert(before.plan[cursor as int].training == Some(json@));
                    let cm_name = match &task.spec {
                        QFlowTaskSpec::Classical { .. } => None,
                        _ => Some(bundle_name(name, &task.name)),
                    };
                    let request = Request::CreateJob(job_for_task(name, task, cm_name, json));
                    Step::Ask(
                        Pass { wf, stage: Stage::JobCreate, statuses, plan, cursor, changed },
                        request,
                    )
                },
                None => {
                    assert(before.plan[cursor as int].training is None);
                    Step::Finish(Err(Error::Serialization))
                },
            }
        }
    }

    fn on_poll(
        wf: &'a QuantumWorkflow,
        statuses: StatusMap,
        cursor: usize,
        changed: bool,
        response: Response,
    ) -> (r: Step<'a>)
        requires
            wf.name is Some,
            wf.namespace is Some,
            wf.status is Some,
            cursor < statuses.entries().len(),
        ensures
            r.deep_view() == poll_from(
                wf.deep_view(),
                statuses.entries().update(
                    cursor as int,
                    (
                        statuses.entries()[cursor as int].0,
                        observed(statuses.entries()[cursor as int].1, response.report()),
                    ),
                ),
                changed || observed(statuses.entries()[cursor as int].1, response.report())
                    != statuses.entries()[cursor as int].1,
                cursor as nat + 1,
            ),
    {
        let mut statuses = statuses;
        let n = statuses.len();
        assert(cursor < n);
        let known = statuses.phase_at(cursor);
        let phase = observe(known, response.job_report());
        statuses.set_at(cursor, phase);
        Self::poll(wf, statuses, changed || phase != known, cursor + 1)
    }

    fn ask_for_init(wf: &'a QuantumWorkflow, statuses: StatusMap, plan: Vec<Launch>, cursor: usize, changed: bool) -> (r: Step<'a>)
        requires
            parts(wf, Stage::StatusInit, &statuses, &plan, cursor, changed).valid(),
        ensures
            r.deep_view() == ask_init(parts(wf, Stage::StatusInit, &statuses, &plan, cursor, changed)),
    {
        let request = Request::WriteStatus(build_initial_status(wf));
        Step::Ask(Pass { wf, stage: Stage::StatusInit, statuses, plan, cursor, changed }, request)
    }

    /// The turn that follows the answer to the call that was asked with this
    /// pass.
    pub fn step(self, response: Response) -> (r: Step<'a>)
        ensures
            r.deep_view() == next_step(self.deep_view(), response),
    {
        proof {
            use_type_invariant(&self);
        }
        let ghost before = self.deep_view();
        let Pass { wf, stage, statuses, plan, cursor, changed } = self;
        assert(before == parts(wf, stage, &statuses, &plan, cursor, changed));
        match stage {
            Stage::VolumeLookup => {
                if response.is_present() {
                    Self::ask_for_init(wf, statuses, plan, cursor, changed)
                } else {
                    let name = wf.name.as_ref().unwrap();
                    let request = Request::CreateVolume(build_claim(name, &wf.spec.volume));
                    Step::Ask(
                        Pass { wf, stage: Stage::VolumeCreate, statuses, plan, cursor, changed },
                        request,
                    )
                }
            },
            Stage::VolumeCreate => {
                if response.is_settled() {
                    Self::ask_for_init(wf, statuses, plan, cursor, changed)
                } else {
                    Step::Finish(Err(Error::KubeError))
                }
            },
            Stage::StatusInit => {
                match response {
                    Response::Done => Step::Finish(Ok(Requeue { after_secs: 1 })),
                    _ => Step::Finish(Err(Error::KubeError)),
                }
            },
            Stage::Poll => Self::on_poll(wf, statuses, cursor, changed, response),
            Stage::BundleLookup => Self::on_bundle_lookup(wf, statuses, plan, cursor, changed, response),
            Stage::BundleCreate => {
                if response.is_settled() {
                    Self::ask_for_job(wf, statuses, plan, cursor, changed)
                } else {
                    Step::Finish(Err(Error::KubeError))
                }
            },
            Stage::JobLookup => Self::on_job_lookup(wf, statuses, plan, cursor, changed, response),
            Stage::JobCreate => {
                if response.is_settled() {
                    assert forall|i: int| 0 <= i < plan.len() implies (#[trigger] plan[i]).task
                        < wf.spec.tasks.len() by {
                        assert(plan.deep_view()[i].task == plan[i].task);
                    }
                    Self::launch(wf, statuses, plan, changed, cursor + 1)
                } else {
                    Step::Finish(Err(Error::KubeError))
                }
            },
            Stage::StatusWrite => {
                match response {
                    Response::Done => Step::Finish(Ok(Requeue { after_secs: 15 })),
                    _ => Step::Finish(Err(Error::KubeError)),
                }
            },
        }
    }
}

} // verus!
