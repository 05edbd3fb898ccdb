//! What the API front end tells of a workflow: the phase of each task, read
//! off the jobs that run them.

use vstd::prelude::*;
use vstd::string::*;
use crate::phase::{phase_word, Phase};
use crate::types::{QFlowTask, QFlowTaskSpec, QFlowTaskSpecView, QFlowTaskView};

verus! {

/// The query of a request for a workflow.
pub struct FetchWorkflowParams {
    pub namespace: String,
}

/// What a job says of itself: how many of its runs succeeded, failed, and
/// are under way.
#[derive(Clone, Copy, Debug, PartialEq, Eq, Structural)]
pub struct JobProgress {
    pub succeeded: i32,
    pub failed: i32,
    pub active: i32,
}

/// A job as the front end sees it: who owns it, which task it is labelled
/// with, and how far it is.
pub struct JobSummary {
    pub owners: Vec<String>,
    pub task: Option<String>,
    pub progress: Option<JobProgress>,
}

pub struct JobSummaryView {
    pub owners: Seq<Seq<char>>,
    pub task: Option<Seq<char>>,
    pub progress: Option<JobProgress>,
}

impl DeepView for JobSummary {
    type V = JobSummaryView;

    open spec fn deep_view(&self) -> JobSummaryView {
        JobSummaryView {
            owners: self.owners.deep_view(),
            task: self.task.deep_view(),
            progress: self.progress,
        }
    }
}

/// The phase that a job stands for: Succeeded once a run succeeded, else
/// Failed once a run failed, else Running while a run is under way, else
/// Pending.
pub open spec fn phase_shown(progress: Option<JobProgress>) -> Phase {
    match progress {
        Some(p) => if p.succeeded > 0 {
            Phase::Succeeded
        } else if p.failed > 0 {
            Phase::Failed
        } else if p.active > 0 {
            Phase::Running
        } else {
            Phase::Pending
        },
        None => Phase::Pending,
    }
}

/// The phase that a job stands for.
pub fn job_phase(progress: Option<JobProgress>) -> (r: Phase)
    ensures
        r == phase_shown(progress),
{
    match progress {
        Some(p) => {
            if p.succeeded > 0 {
                Phase::Succeeded
            } else if p.failed > 0 {
                Phase::Failed
            } else if p.active > 0 {
                Phase::Running
            } else {
                Phase::Pending
            }
        },
        None => Phase::Pending,
    }
}

/// The job belongs to `workflow` and is labelled with `task`.
pub open spec fn runs_task(job: JobSummaryView, workflow: Seq<char>, task: Seq<char>) -> bool {
    job.owners.contains(workflow) && job.task == Some(task)
}

/// The phase of `task` as the first `n` jobs show it: that of the last job
/// among them that runs the task; Pending where none does.
pub open spec fn shown_upto(jobs: Seq<JobSummaryView>, n: nat, workflow: Seq<char>, task: Seq<char>) -> Phase
    decreases n,
{
    if n == 0 {
        Phase::Pending
    } else if runs_task(jobs[n - 1], workflow, task) {
        phase_shown(jobs[n - 1].progress)
    } else {
        shown_upto(jobs, (n - 1) as nat, workflow, task)
    }
}

fn owned_by(job: &JobSummary, workflow: &String) -> (r: bool)
    ensures
        r == job.deep_view().owners.contains(workflow@),
{
    let mut i: usize = 0;
    while i < job.owners.len()
        invariant
            i <= job.owners.len(),
            forall|j: int| 0 <= j < i ==> job.deep_view().owners[j] != workflow@,
        decreases job.owners.len() - i,
    {
        if job.owners[i] == *workflow {
            assert(job.deep_view().owners[i as int] == workflow@);
            return true;
        }
        i += 1;
    }
    false
}

/// The phase of `task` of `workflow` as the jobs show it.
pub fn task_phase(jobs: &Vec<JobSummary>, workflow: &String, task: &String) -> (r: Phase)
    ensures
        r == shown_upto(jobs.deep_view(), jobs.len() as nat, workflow@, task@),
{
    let mut shown = Phase::Pending;
    let mut i: usize = 0;
    while i < jobs.len()
        invariant
            i <= jobs.len(),
            shown == shown_upto(jobs.deep_view(), i as nat, workflow@, task@),
        decreases jobs.len() - i,
    {
        assert(jobs.deep_view()[i as int] == jobs[i as int].deep_view());
        let labelled = match &jobs[i].task {
            Some(name) => *name == *task,
            None => false,
        };
        if labelled && owned_by(&jobs[i], workflow) {
            shown = job_phase(jobs[i].progress);
        }
        i += 1;
    }
    shown
}

/// The phases of the tasks of `workflow`, in the order of the tasks.
pub fn task_phases(jobs: &Vec<JobSummary>, workflow: &String, tasks: &Vec<QFlowTask>) -> (r: Vec<
    (String, Phase),
>)
    ensures
        r.len() == tasks.len(),
        forall|i: int|
            0 <= i < r.len() ==> (#[trigger] r[i]).0@ == tasks[i].name@ && r[i].1 == shown_upto(
                jobs.deep_view(),
                jobs.len() as nat,
                workflow@,
                tasks[i].name@,
            ),
{
    let mut out: Vec<(String, Phase)> = Vec::new();
    let mut i: usize = 0;
    while i < tasks.len()
        invariant
            i <= tasks.len(),
            out.len() == i,
            forall|k: int|
                0 <= k < i ==> (#[trigger] out[k]).0@ == tasks[k].name@ && out[k].1 == shown_upto(
                    jobs.deep_view(),
                    jobs.len() as nat,
                    workflow@,
                    tasks[k].name@,
                ),
        decreases tasks.len() - i,
    {
        let phase = task_phase(jobs, workflow, &tasks[i].name);
        out.push((tasks[i].name.clone(), phase));
        i += 1;
    }
    out
}

/// The task that runs a circuit handed in as OpenQASM text.
pub open spec fn qasm_task_for(qasm: Seq<char>) -> QFlowTaskView {
    QFlowTaskView {
        name: "qasm-task"@,
        depends_on: None,
        spec: QFlowTaskSpecView::Quantum {
            image: "your-quantum-image:latest"@,
            circuit: qasm,
            params: Seq::empty(),
        },
    }
}

/// Builds the task that runs a circuit handed in as OpenQASM text.
pub fn qasm_task(qasm_data: &String) -> (r: QFlowTask)
    ensures
        r.deep_view() == qasm_task_for(qasm_data@),
{
    QFlowTask {
        name: "qasm-task".to_owned(),
        depends_on: None,
        spec: QFlowTaskSpec::Quantum {
            image: "your-quantum-image:latest".to_owned(),
            circuit: qasm_data.clone(),
            params: String::new(),
        },
    }
}

} // verus!
