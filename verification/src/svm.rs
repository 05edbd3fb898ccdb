//! The quantum SVM workflow: one experiment that generates a data set on a
//! volume of its own and trains a classifier on it. Its reconcile pass walks
//! the workflow through its phases, one phase each pass.

use vstd::prelude::*;
use vstd::string::*;
use crate::error::{Error, ErrorView, ObjectKey};
use crate::manifest::{
    ContainerSpec, ContainerSpecView, JobVolume, JobVolumeView, Mount, MountView, VolumeClaim,
    VolumeClaimView, VolumeSource, VolumeSourceView,
};
use crate::phase::JobCounts;
use crate::text::{decimal, is_text, push_decimal, with_suffix};

verus! {

/// The data set of an experiment. Noise and test share are kept as the
/// decimal text that is handed on.
pub struct DatasetSpec {
    pub generator: String,
    pub samples: u32,
    pub noise: String,
    pub test_size: String,
}

/// The image that computes the quantum kernel.
pub struct KernelSpec {
    pub image: String,
}

/// Parameters of the classifier. The regularization parameter is kept as
/// decimal text.
pub struct SvmParameters {
    pub c: String,
}

pub struct TrainerSpec {
    pub svm_parameters: SvmParameters,
}

/// File names of what the experiment leaves behind.
pub struct OutputSpec {
    pub model_name: String,
    pub plot_name: String,
}

pub struct QuantumSVMWorkflowSpec {
    pub dataset: DatasetSpec,
    pub kernel: KernelSpec,
    pub trainer: TrainerSpec,
    pub output: OutputSpec,
}

/// Where an experiment stands, and why.
pub struct QuantumSVMWorkflowStatus {
    pub phase: Option<String>,
    pub message: Option<String>,
}

pub struct QuantumSVMWorkflowStatusView {
    pub phase: Option<Seq<char>>,
    pub message: Option<Seq<char>>,
}

impl DeepView for QuantumSVMWorkflowStatus {
    type V = QuantumSVMWorkflowStatusView;

    open spec fn deep_view(&self) -> QuantumSVMWorkflowStatusView {
        QuantumSVMWorkflowStatusView {
            phase: self.phase.deep_view(),
            message: self.message.deep_view(),
        }
    }
}

/// The experiment object as the control plane holds it.
pub struct QuantumSVMWorkflow {
    pub name: Option<String>,
    pub namespace: Option<String>,
    pub spec: QuantumSVMWorkflowSpec,
    pub status: Option<QuantumSVMWorkflowStatus>,
}

pub struct QuantumSVMWorkflowView {
    pub name: Option<Seq<char>>,
    pub namespace: Option<Seq<char>>,
    pub samples: u32,
    pub noise: Seq<char>,
    pub phase: Option<Seq<char>>,
}

impl DeepView for QuantumSVMWorkflow {
    type V = QuantumSVMWorkflowView;

    open spec fn deep_view(&self) -> QuantumSVMWorkflowView {
        QuantumSVMWorkflowView {
            name: self.name.deep_view(),
            namespace: self.namespace.deep_view(),
            samples: self.spec.dataset.samples,
            noise: self.spec.dataset.noise@,
            phase: match self.status {
                Some(status) => status.phase.deep_view(),
                None => None,
            },
        }
    }
}

/// Number of samples of a data set that names none.
pub fn default_samples() -> (r: u32)
    ensures
        r == 100,
{
    100
}

/// Noise of a data set that names none.
pub fn default_noise() -> (r: String)
    ensures
        r@ == "0.3"@,
{
    "0.3".to_owned()
}

/// Test share of a data set that names none.
pub fn default_test_size() -> (r: String)
    ensures
        r@ == "0.3"@,
{
    "0.3".to_owned()
}

/// Regularization parameter of a classifier that names none.
pub fn default_c_param() -> (r: String)
    ensures
        r@ == "1"@,
{
    "1".to_owned()
}

/// The job that generates the data set.
pub struct DataGenJob {
    pub name: String,
    pub container: ContainerSpec,
    pub volumes: Vec<JobVolume>,
    pub restart_policy: String,
    pub backoff_limit: i32,
}

pub struct DataGenJobView {
    pub name: Seq<char>,
    pub container: ContainerSpecView,
    pub volumes: Seq<JobVolumeView>,
    pub restart_policy: Seq<char>,
    pub backoff_limit: int,
}

impl DeepView for DataGenJob {
    type V = DataGenJobView;

    open spec fn deep_view(&self) -> DataGenJobView {
        DataGenJobView {
            name: self.name@,
            container: self.container.deep_view(),
            volumes: self.volumes.deep_view(),
            restart_policy: self.restart_policy@,
            backoff_limit: self.backoff_limit as int,
        }
    }
}

/// The volume claim of an experiment: one gibibyte, labelled with its owner.
pub open spec fn pvc_for(owner: Seq<char>, name: Seq<char>) -> VolumeClaimView {
    VolumeClaimView { name, owner, access_mode: "ReadWriteOnce"@, storage: "1Gi"@ }
}

/// Builds the volume claim of an experiment.
pub fn build_pvc(owner_name: &String, pvc_name: &String) -> (r: VolumeClaim)
    ensures
        r.deep_view() == pvc_for(owner_name@, pvc_name@),
{
    VolumeClaim {
        name: pvc_name.clone(),
        owner: owner_name.clone(),
        access_mode: "ReadWriteOnce".to_owned(),
        storage: "1Gi".to_owned(),
    }
}

/// The name under which an experiment goes: its own, or the empty name.
pub open spec fn name_of(workflow: QuantumSVMWorkflowView) -> Seq<char> {
    match workflow.name {
        Some(name) => name,
        None => Seq::empty(),
    }
}

/// The shell script that generates the data set.
pub open spec fn data_gen_script(samples: u32, noise: Seq<char>) -> Seq<char> {
    "pip install numpy scikit-learn && python -c 'import numpy as np; from sklearn.datasets import make_moons; X, y = make_moons(n_samples="@
        + decimal(samples as nat) + ", noise="@ + noise
        + "); np.save(\"/data/X.npy\", X); np.save(\"/data/y.npy\", y)'"@
}

/// The job that generates the data set of an experiment onto its volume.
pub open spec fn data_gen_job_for(workflow: QuantumSVMWorkflowView, pvc_name: Seq<char>) -> DataGenJobView {
    DataGenJobView {
        name: name_of(workflow) + "-datagen"@,
        container: ContainerSpecView {
            name: "data-generator"@,
            image: "python:3.9-slim"@,
            command: Some(seq!["sh"@, "-c"@, data_gen_script(workflow.samples, workflow.noise)]),
            args: None,
            mounts: seq![MountView { name: "workdir"@, mount_path: "/data"@, read_only: false }],
            image_pull_policy: Seq::empty(),
        },
        volumes: seq![
            JobVolumeView { name: "workdir"@, source: VolumeSourceView::Claim { claim_name: pvc_name } },
        ],
        restart_policy: "Never"@,
        backoff_limit: 2,
    }
}

fn experiment_name(qsvm: &QuantumSVMWorkflow) -> (r: String)
    ensures
        r@ == name_of(qsvm.deep_view()),
{
    match &qsvm.name {
        Some(name) => name.clone(),
        None => String::new(),
    }
}

/// Builds the job that generates the data set.
pub fn build_data_gen_job(qsvm: &QuantumSVMWorkflow, pvc_name: &String) -> (r: Result<DataGenJob, Error>)
    ensures
        r is Ok,
        r->Ok_0.deep_view() == data_gen_job_for(qsvm.deep_view(), pvc_name@),
{
    let name = experiment_name(qsvm);
    let mut script = "pip install numpy scikit-learn && python -c 'import numpy as np; from sklearn.datasets import make_moons; X, y = make_moons(n_samples=".to_owned();
    push_decimal(&mut script, qsvm.spec.dataset.samples as u64);
    script.append(", noise=");
    script.append(qsvm.spec.dataset.noise.as_str());
    script.append("); np.save(\"/data/X.npy\", X); np.save(\"/data/y.npy\", y)'");
    let mut command: Vec<String> = Vec::new();
    command.push("sh".to_owned());
    command.push("-c".to_owned());
    command.push(script);
    assert(command.deep_view() =~= seq![
        "sh"@,
        "-c"@,
        data_gen_script(qsvm.spec.dataset.samples, qsvm.spec.dataset.noise@),
    ]);
    let mut mounts: Vec<Mount> = Vec::new();
    mounts.push(Mount { name: "workdir".to_owned(), mount_path: "/data".to_owned(), read_only: false });
    assert(mounts.deep_view() =~= seq![
        MountView { name: "workdir"@, mount_path: "/data"@, read_only: false },
    ]);
    let mut volumes: Vec<JobVolume> = Vec::new();
    volumes.push(
        JobVolume {
            name: "workdir".to_owned(),
            source: VolumeSource::Claim { claim_name: pvc_name.clone() },
        },
    );
    assert(volumes.deep_view() =~= seq![
        JobVolumeView { name: "workdir"@, source: VolumeSourceView::Claim { claim_name: pvc_name@ } },
    ]);
    Ok(
        DataGenJob {
            name: with_suffix(&name, "-datagen"),
            container: ContainerSpec {
                name: "data-generator".to_owned(),
                image: "python:3.9-slim".to_owned(),
                command: Some(command),
                args: None,
                mounts,
                image_pull_policy: String::new(),
            },
            volumes,
            restart_policy: "Never".to_owned(),
            backoff_limit: 2,
        },
    )
}

/// One call of the experiment's pass to the control plane.
pub enum SvmRequest {
    CreateVolume(VolumeClaim),
    GetVolume(String),
    CreateJob(DataGenJob),
    GetJob(String),
    WriteStatus(QuantumSVMWorkflowStatus),
}

pub enum SvmRequestView {
    CreateVolume(VolumeClaimView),
    GetVolume(Seq<char>),
    CreateJob(DataGenJobView),
    GetJob(Seq<char>),
    WriteStatus(QuantumSVMWorkflowStatusView),
}

impl DeepView for SvmRequest {
    type V = SvmRequestView;

    open spec fn deep_view(&self) -> SvmRequestView {
        match self {
            SvmRequest::CreateVolume(claim) => SvmRequestView::CreateVolume(claim.deep_view()),
            SvmRequest::GetVolume(name) => SvmRequestView::GetVolume(name@),
            SvmRequest::CreateJob(job) => SvmRequestView::CreateJob(job.deep_view()),
            SvmRequest::GetJob(name) => SvmRequestView::GetJob(name@),
            SvmRequest::WriteStatus(status) => SvmRequestView::WriteStatus(status.deep_view()),
        }
    }
}

/// The answer to one call.
#[derive(Clone, Copy, Debug, PartialEq, Eq, Structural)]
pub enum SvmResponse {
    /// The object was created, or the status recorded.
    Done,
    /// The volume claim exists; `bound` says whether it is bound to a volume.
    Volume { bound: bool },
    /// The job exists and reports these counts.
    Job(JobCounts),
    /// The call failed.
    Failed,
}

/// When the pass is due again.
#[derive(Clone, Copy, Debug, PartialEq, Eq, Structural)]
pub enum SvmNext {
    After { secs: u64 },
    AwaitChange,
}

/// Which answer the pass is waiting for.
#[derive(Clone, Copy, Debug, PartialEq, Eq, Structural)]
pub enum SvmStage {
    VolumeCreate,
    VolumeLookup,
    JobCreate,
    JobLookup,
    /// A status is being written, after which the pass ends as `then` says.
    Status { then: SvmNext },
}

pub enum SvmStepView {
    Ask(SvmStage, SvmRequestView),
    Finish(Result<SvmNext, ErrorView>),
}

/// A status with this phase and this message.
pub open spec fn status_of(phase: Seq<char>, message: Seq<char>) -> QuantumSVMWorkflowStatusView {
    QuantumSVMWorkflowStatusView { phase: Some(phase), message: Some(message) }
}

/// The phase that an experiment is in: the recorded one, or Pending.
pub open spec fn phase_of(workflow: QuantumSVMWorkflowView) -> Seq<char> {
    match workflow.phase {
        Some(phase) => phase,
        None => "Pending"@,
    }
}

/// The first turn of a pass, by the phase of the experiment.
pub open spec fn svm_first_step(workflow: QuantumSVMWorkflowView) -> SvmStepView {
    let name = name_of(workflow);
    let phase = phase_of(workflow);
    if workflow.namespace is None {
        SvmStepView::Finish(Err(ErrorView::MissingObjectKey(ObjectKey::Namespace)))
    } else if phase == "Pending"@ {
        SvmStepView::Ask(
            SvmStage::VolumeCreate,
            SvmRequestView::CreateVolume(pvc_for(name, name + "-pvc"@)),
        )
    } else if phase == "CreatingVolume"@ {
        SvmStepView::Ask(SvmStage::VolumeLookup, SvmRequestView::GetVolume(name + "-pvc"@))
    } else if phase == "GeneratingData"@ {
        SvmStepView::Ask(SvmStage::JobLookup, SvmRequestView::GetJob(name + "-datagen"@))
    } else if phase == "Completed"@ || phase == "Failed"@ {
        SvmStepView::Finish(Ok(SvmNext::AwaitChange))
    } else {
        SvmStepView::Finish(Ok(SvmNext::After { secs: 10 }))
    }
}

/// Asks to record a status, after which the pass ends as `then` says.
pub open spec fn ask_status(phase: Seq<char>, message: Seq<char>, then: SvmNext) -> SvmStepView {
    SvmStepView::Ask(SvmStage::Status { then }, SvmRequestView::WriteStatus(status_of(phase, message)))
}

/// The turn that follows the answer `response`.
pub open spec fn svm_next_step(
    workflow: QuantumSVMWorkflowView,
    stage: SvmStage,
    response: SvmResponse,
) -> SvmStepView {
    let name = name_of(workflow);
    match stage {
        SvmStage::VolumeCreate => if response is Done {
            ask_status(
                "CreatingVolume"@,
                "PersistentVolumeClaim created"@,
                SvmNext::After { secs: 5 },
            )
        } else {
            SvmStepView::Finish(Err(ErrorView::KubeError))
        },
        SvmStage::VolumeLookup => match response {
            SvmResponse::Volume { bound } => if bound {
                SvmStepView::Ask(
                    SvmStage::JobCreate,
                    SvmRequestView::CreateJob(data_gen_job_for(workflow, name + "-pvc"@)),
                )
            } else {
                SvmStepView::Finish(Ok(SvmNext::After { secs: 5 }))
            },
            _ => SvmStepView::Finish(Err(ErrorView::KubeError)),
        },
        SvmStage::JobCreate => if response is Done {
            ask_status(
                "GeneratingData"@,
                "Data generation job started"@,
                SvmNext::After { secs: 10 },
            )
        } else {
            SvmStepView::Finish(Err(ErrorView::KubeError))
        },
        SvmStage::JobLookup => match response {
            SvmResponse::Job(counts) => if counts.succeeded > 0 {
                ask_status(
                    "TrainingModel"@,
                    "Data generation complete, starting training."@,
                    SvmNext::After { secs: 10 },
                )
            } else if counts.failed > 0 {
                ask_status("Failed"@, "Data generation job failed."@, SvmNext::AwaitChange)
            } else {
                SvmStepView::Finish(Ok(SvmNext::After { secs: 10 }))
            },
            _ => SvmStepView::Finish(Err(ErrorView::KubeError)),
        },
        SvmStage::Status { then } => if response is Done {
            SvmStepView::Finish(Ok(then))
        } else {
            SvmStepView::Finish(Err(ErrorView::KubeError))
        },
    }
}

/// One turn of the pass: a call to make and the stage to answer it in, or
/// the end of the pass.
pub enum SvmStep {
    Ask(SvmStage, SvmRequest),
    Finish(Result<SvmNext, Error>),
}

impl DeepView for SvmStep {
    type V = SvmStepView;

    open spec fn deep_view(&self) -> SvmStepView {
        match self {
            SvmStep::Ask(stage, request) => SvmStepView::Ask(*stage, request.deep_view()),
            SvmStep::Finish(result) => SvmStepView::Finish(
                match result {
                    Ok(next) => Ok(*next),
                    Err(error) => Err(error.deep_view()),
                },
            ),
        }
    }
}

fn status_step(phase: &str, message: &str, then: SvmNext) -> (r: SvmStep)
    ensures
        r.deep_view() == ask_status(phase@, message@, then),
{
    SvmStep::Ask(
        SvmStage::Status { then },
        SvmRequest::WriteStatus(
            QuantumSVMWorkflowStatus { phase: Some(phase.to_owned()), message: Some(message.to_owned()) },
        ),
    )
}

/// The first turn of a reconcile pass over the experiment `qsvm`.
pub fn reconcile(qsvm: &QuantumSVMWorkflow) -> (r: SvmStep)
    ensures
        r.deep_view() == svm_first_step(qsvm.deep_view()),
{
    if qsvm.namespace.is_none() {
        return SvmStep::Finish(Err(Error::MissingObjectKey(ObjectKey::Namespace)));
    }
    let name = experiment_name(qsvm);
    let phase = match &qsvm.status {
        Some(status) => match &status.phase {
            Some(phase) => phase.clone(),
            None => "Pending".to_owned(),
        },
        None => "Pending".to_owned(),
    };
    if is_text(&phase, "Pending") {
        let pvc_name = with_suffix(&name, "-pvc");
        SvmStep::Ask(SvmStage::VolumeCreate, SvmRequest::CreateVolume(build_pvc(&name, &pvc_name)))
    } else if is_text(&phase, "CreatingVolume") {
        SvmStep::Ask(SvmStage::VolumeLookup, SvmRequest::GetVolume(with_suffix(&name, "-pvc")))
    } else if is_text(&phase, "GeneratingData") {
        SvmStep::Ask(SvmStage::JobLookup, SvmRequest::GetJob(with_suffix(&name, "-datagen")))
    } else if is_text(&phase, "Completed") || is_text(&phase, "Failed") {
        SvmStep::Finish(Ok(SvmNext::AwaitChange))
    } else {
        SvmStep::Finish(Ok(SvmNext::After { secs: 10 }))
    }
}

/// The turn of the pass over `qsvm` that follows the answer `response` to
/// the call that was asked in `stage`.
pub fn reconcile_step(qsvm: &QuantumSVMWorkflow, stage: SvmStage, response: SvmResponse) -> (r: SvmStep)
    ensures
        r.deep_view() == svm_next_step(qsvm.deep_view(), stage, response),
{
    match stage {
        SvmStage::VolumeCreate => match response {
            SvmResponse::Done => status_step(
                "CreatingVolume",
                "PersistentVolumeClaim created",
                SvmNext::After { secs: 5 },
            ),
            _ => SvmStep::Finish(Err(Error::KubeError)),
        },
        SvmStage::VolumeLookup => match response {
            SvmResponse::Volume { bound } => {
                if bound {
                    let name = experiment_name(qsvm);
                    let pvc_name = with_suffix(&name, "-pvc");
                    match build_data_gen_job(qsvm, &pvc_name) {
                        Ok(job) => SvmStep::Ask(SvmStage::JobCreate, SvmRequest::CreateJob(job)),
                        Err(e) => SvmStep::Finish(Err(e)),
                    }
                } else {
                    SvmStep::Finish(Ok(SvmNext::After { secs: 5 }))
                }
            },
            _ => SvmStep::Finish(Err(Error::KubeError)),
        },
        SvmStage::JobCreate => match response {
            SvmResponse::Done => status_step(
                "GeneratingData",
                "Data generation job started",
                SvmNext::After { secs: 10 },
            ),
            _ => SvmStep::Finish(Err(Error::KubeError)),
        },
        SvmStage::JobLookup => match response {
            SvmResponse::Job(counts) => {
                if counts.succeeded > 0 {
                    status_step(
                        "TrainingModel",
                        "Data generation complete, starting training.",
                        SvmNext::After { secs: 10 },
                    )
                } else if counts.failed > 0 {
                    status_step("Failed", "Data generation job failed.", SvmNext::AwaitChange)
                } else {
                    SvmStep::Finish(Ok(SvmNext::After { secs: 10 }))
                }
            },
            _ => SvmStep::Finish(Err(Error::KubeError)),
        },
        SvmStage::Status { then } => match response {
            SvmResponse::Done => SvmStep::Finish(Ok(then)),
            _ => SvmStep::Finish(Err(Error::KubeError)),
        },
    }
}

/// What follows a failed pass, whatever failed: the pass is run again after
/// five seconds.
pub fn error_policy(error: &Error) -> (r: SvmNext)
    ensures
        r == (SvmNext::After { secs: 5 }),
{
    SvmNext::After { secs: 5 }
}

} // verus!
