//! The child resources of a workflow, as typed manifests: the shared volume
//! claim, the input bundle of a task, and the execution job of a task. Each
//! carries the name of the workflow that owns it.

use vstd::prelude::*;
use vstd::string::*;
use crate::error::Error;
use crate::json::{json_array_text, to_json_array};
use crate::text::{dashed, decimal_text, join_dash, signed_decimal, signed_decimal_text, with_suffix};
use crate::types::{
    default_epochs, default_learning_rate, QFlowTask, QFlowTaskSpec, QFlowTaskSpecView,
    QFlowTaskView, QcbmOptimizerSpecView, QcbmTaskSpec, QcbmTaskSpecView, QuantumWorkflow,
    VolumeSpec,
};

verus! {

/// The claim for the volume that all tasks of a workflow share.
pub struct VolumeClaim {
    pub name: String,
    pub owner: String,
    pub access_mode: String,
    pub storage: String,
}

pub struct VolumeClaimView {
    pub name: Seq<char>,
    pub owner: Seq<char>,
    pub access_mode: Seq<char>,
    pub storage: Seq<char>,
}

impl DeepView for VolumeClaim {
    type V = VolumeClaimView;

    open spec fn deep_view(&self) -> VolumeClaimView {
        VolumeClaimView {
            name: self.name@,
            owner: self.owner@,
            access_mode: self.access_mode@,
            storage: self.storage@,
        }
    }
}

/// One file of an input bundle.
pub struct BundleFile {
    pub name: String,
    pub content: String,
}

pub struct BundleFileView {
    pub name: Seq<char>,
    pub content: Seq<char>,
}

impl DeepView for BundleFile {
    type V = BundleFileView;

    open spec fn deep_view(&self) -> BundleFileView {
        BundleFileView { name: self.name@, content: self.content@ }
    }
}

/// The read-only bundle that holds the payload of a task as files.
pub struct InputBundle {
    pub name: String,
    pub owner: String,
    pub files: Vec<BundleFile>,
}

pub struct InputBundleView {
    pub name: Seq<char>,
    pub owner: Seq<char>,
    pub files: Seq<BundleFileView>,
}

impl DeepView for InputBundle {
    type V = InputBundleView;

    open spec fn deep_view(&self) -> InputBundleView {
        InputBundleView { name: self.name@, owner: self.owner@, files: self.files.deep_view() }
    }
}

/// Where a container sees a volume.
pub struct Mount {
    pub name: String,
    pub mount_path: String,
    pub read_only: bool,
}

pub struct MountView {
    pub name: Seq<char>,
    pub mount_path: Seq<char>,
    pub read_only: bool,
}

impl DeepView for Mount {
    type V = MountView;

    open spec fn deep_view(&self) -> MountView {
        MountView { name: self.name@, mount_path: self.mount_path@, read_only: self.read_only }
    }
}

/// What backs a volume of a job: the shared claim or an input bundle.
pub enum VolumeSource {
    Claim { claim_name: String },
    Bundle { bundle_name: String },
}

pub enum VolumeSourceView {
    Claim { claim_name: Seq<char> },
    Bundle { bundle_name: Seq<char> },
}

impl DeepView for VolumeSource {
    type V = VolumeSourceView;

    open spec fn deep_view(&self) -> VolumeSourceView {
        match self {
            VolumeSource::Claim { claim_name } => VolumeSourceView::Claim { claim_name: claim_name@ },
            VolumeSource::Bundle { bundle_name } => VolumeSourceView::Bundle {
                bundle_name: bundle_name@,
            },
        }
    }
}

/// A volume of a job.
pub struct JobVolume {
    pub name: String,
    pub source: VolumeSource,
}

pub struct JobVolumeView {
    pub name: Seq<char>,
    pub source: VolumeSourceView,
}

impl DeepView for JobVolume {
    type V = JobVolumeView;

    open spec fn deep_view(&self) -> JobVolumeView {
        JobVolumeView { name: self.name@, source: self.source.deep_view() }
    }
}

/// The one container of a job.
pub struct ContainerSpec {
    pub name: String,
    pub image: String,
    pub command: Option<Vec<String>>,
    pub args: Option<Vec<String>>,
    pub mounts: Vec<Mount>,
    pub image_pull_policy: String,
}

pub struct ContainerSpecView {
    pub name: Seq<char>,
    pub image: Seq<char>,
    pub command: Option<Seq<Seq<char>>>,
    pub args: Option<Seq<Seq<char>>>,
    pub mounts: Seq<MountView>,
    pub image_pull_policy: Seq<char>,
}

impl DeepView for ContainerSpec {
    type V = ContainerSpecView;

    open spec fn deep_view(&self) -> ContainerSpecView {
        ContainerSpecView {
            name: self.name@,
            image: self.image@,
            command: self.command.deep_view(),
            args: self.args.deep_view(),
            mounts: self.mounts.deep_view(),
            image_pull_policy: self.image_pull_policy@,
        }
    }
}

/// The job that runs one task to completion or failure. `task` is the value
/// of the label by which the job is found again.
pub struct ExecutionJob {
    pub name: String,
    pub owner: String,
    pub task: String,
    pub container: ContainerSpec,
    pub volumes: Vec<JobVolume>,
    pub restart_policy: String,
    pub backoff_limit: i32,
}

pub struct ExecutionJobView {
    pub name: Seq<char>,
    pub owner: Seq<char>,
    pub task: Seq<char>,
    pub container: ContainerSpecView,
    pub volumes: Seq<JobVolumeView>,
    pub restart_policy: Seq<char>,
    pub backoff_limit: int,
}

impl DeepView for ExecutionJob {
    type V = ExecutionJobView;

    open spec fn deep_view(&self) -> ExecutionJobView {
        ExecutionJobView {
            name: self.name@,
            owner: self.owner@,
            task: self.task@,
            container: self.container.deep_view(),
            volumes: self.volumes.deep_view(),
            restart_policy: self.restart_policy@,
            backoff_limit: self.backoff_limit as int,
        }
    }
}

/// The label key under which a job carries the name of its task.
pub fn task_name_label() -> (r: String)
    ensures
        r@ == "qflow.io/task-name"@,
{
    "qflow.io/task-name".to_owned()
}

/// How often the control plane retries a failing job before it gives up.
pub open spec fn retry_limit() -> int {
    4
}

/// Name of the shared volume claim of a workflow.
pub open spec fn claim_name_of(workflow: Seq<char>) -> Seq<char> {
    dashed(workflow, "qflow-workspace"@)
}

/// Name of the execution job of a task.
pub open spec fn job_name_of(workflow: Seq<char>, task: Seq<char>) -> Seq<char> {
    dashed(workflow, task)
}

/// Name of the input bundle of a task.
pub open spec fn bundle_name_of(workflow: Seq<char>, task: Seq<char>) -> Seq<char> {
    dashed(workflow, task) + "-input"@
}

/// Name of the shared volume claim of a workflow.
pub fn claim_name(workflow: &String) -> (r: String)
    ensures
        r@ == claim_name_of(workflow@),
{
    let suffix = "qflow-workspace".to_owned();
    join_dash(workflow, &suffix)
}

/// Name of the execution job of a task.
pub fn job_name(workflow: &String, task: &String) -> (r: String)
    ensures
        r@ == job_name_of(workflow@, task@),
{
    join_dash(workflow, task)
}

/// Name of the input bundle of a task.
pub fn bundle_name(workflow: &String, task: &String) -> (r: String)
    ensures
        r@ == bundle_name_of(workflow@, task@),
{
    let base = join_dash(workflow, task);
    with_suffix(&base, "-input")
}

/// The volume that a workflow gets: the size it is created with.
pub struct WorkflowVolumeSpec {
    pub size: String,
}

/// The volume that a workflow gets: of the declared size, or of one
/// gibibyte.
pub fn workflow_volume(volume: &Option<VolumeSpec>) -> (r: WorkflowVolumeSpec)
    ensures
        r.size@ == storage_request(declared_size(*volume)),
{
    WorkflowVolumeSpec {
        size: match volume {
            Some(spec) => spec.size.clone(),
            None => "1Gi".to_owned(),
        },
    }
}

/// The size that the shared volume is asked to have: the declared one, or
/// one gibibyte.
pub open spec fn storage_request(volume: Option<Seq<char>>) -> Seq<char> {
    match volume {
        Some(size) => size,
        None => "1Gi"@,
    }
}

/// The shared volume claim of a workflow.
pub open spec fn claim_for(workflow: Seq<char>, volume: Option<Seq<char>>) -> VolumeClaimView {
    VolumeClaimView {
        name: claim_name_of(workflow),
        owner: workflow,
        access_mode: "ReadWriteOnce"@,
        storage: storage_request(volume),
    }
}

/// The size declared by a volume spec, if one is given.
pub open spec fn declared_size(volume: Option<VolumeSpec>) -> Option<Seq<char>> {
    match volume {
        Some(spec) => Some(spec.size@),
        None => None,
    }
}

/// Builds the shared volume claim of a workflow.
pub fn build_claim(workflow: &String, volume: &Option<VolumeSpec>) -> (r: VolumeClaim)
    ensures
        r.deep_view() == claim_for(workflow@, declared_size(*volume)),
{
    VolumeClaim {
        name: claim_name(workflow),
        owner: workflow.clone(),
        access_mode: "ReadWriteOnce".to_owned(),
        storage: workflow_volume(volume).size,
    }
}

/// Whether a task of this kind reads its payload from an input bundle.
pub open spec fn needs_bundle(spec: QFlowTaskSpecView) -> bool {
    !(spec is Classical)
}

/// The files that hold the payload of a task, one for each payload field.
/// `training_json` is the training data of a model-training task, written
/// out as JSON.
pub open spec fn bundle_files(spec: QFlowTaskSpecView, training_json: Seq<char>) -> Seq<
    BundleFileView,
> {
    match spec {
        QFlowTaskSpecView::Classical { .. } => Seq::empty(),
        QFlowTaskSpecView::Quantum { circuit, params, .. } => seq![
            BundleFileView { name: "circuit.qasm"@, content: circuit },
            BundleFileView { name: "params.json"@, content: params },
        ],
        QFlowTaskSpecView::Qcbm(payload) => seq![
            BundleFileView { name: "ansatz.txt"@, content: payload.ansatz },
            BundleFileView { name: "training_data.json"@, content: training_json },
        ],
    }
}

/// The input bundle of a task; none for a classical task.
pub open spec fn bundle_for(
    workflow: Seq<char>,
    task: QFlowTaskView,
    training_json: Seq<char>,
) -> Option<InputBundleView> {
    if needs_bundle(task.spec) {
        Some(
            InputBundleView {
                name: bundle_name_of(workflow, task.name),
                owner: workflow,
                files: bundle_files(task.spec, training_json),
            },
        )
    } else {
        None
    }
}

/// Builds the input bundle of a task; none for a classical task.
pub fn build_bundle(workflow: &String, task: &QFlowTask, training_json: &String) -> (r: Option<
    InputBundle,
>)
    ensures
        r.deep_view() == bundle_for(workflow@, task.deep_view(), training_json@),
{
    let mut files: Vec<BundleFile> = Vec::new();
    match &task.spec {
        QFlowTaskSpec::Classical { .. } => {
            return None;
        },
        QFlowTaskSpec::Quantum { circuit, params, .. } => {
            files.push(BundleFile { name: "circuit.qasm".to_owned(), content: circuit.clone() });
            files.push(BundleFile { name: "params.json".to_owned(), content: params.clone() });
        },
        QFlowTaskSpec::Qcbm(payload) => {
            files.push(
                BundleFile { name: "ansatz.txt".to_owned(), content: payload.ansatz.clone() },
            );
            files.push(
                BundleFile {
                    name: "training_data.json".to_owned(),
                    content: training_json.clone(),
                },
            );
        },
    }
    assert(files.deep_view() =~= bundle_files(task.deep_view().spec, training_json@));
    Some(InputBundle { name: bundle_name(workflow, &task.name), owner: workflow.clone(), files })
}

/// The mount of the shared volume.
pub open spec fn workspace_mount() -> MountView {
    MountView { name: "qflow-workspace"@, mount_path: "/workspace"@, read_only: false }
}

/// The read-only mount of the input bundle.
pub open spec fn input_mount() -> MountView {
    MountView { name: "qflow-input"@, mount_path: "/workspace/input"@, read_only: true }
}

/// The optimizer settings that a model-training task runs with: its own, or
/// Adam for 100 epochs at a learning rate of 0.01.
pub open spec fn optimizer_of(payload: QcbmTaskSpecView) -> QcbmOptimizerSpecView {
    match payload.optimizer {
        Some(optimizer) => optimizer,
        None => QcbmOptimizerSpecView {
            name: "Adam"@,
            epochs: 100,
            learning_rate: "0.01"@,
            initial_params: None,
        },
    }
}

/// The command line of a model-training container.
pub open spec fn training_args(payload: QcbmTaskSpecView, training_json: Seq<char>) -> Seq<
    Seq<char>,
> {
    let optimizer = optimizer_of(payload);
    let fixed = seq![
        "--ansatz"@,
        payload.ansatz,
        "--training-data"@,
        training_json,
        "--optimizer"@,
        optimizer.name,
        "--epochs"@,
        signed_decimal(optimizer.epochs),
        "--learning-rate"@,
        optimizer.learning_rate,
    ];
    match optimizer.initial_params {
        Some(params) => fixed + seq!["--initial-params"@, params],
        None => fixed,
    }
}

/// The container that runs a task.
pub open spec fn container_for(spec: QFlowTaskSpecView, training_json: Seq<char>) -> ContainerSpecView {
    match spec {
        QFlowTaskSpecView::Classical { image } => ContainerSpecView {
            name: "task-runner"@,
            image: image,
            command: Some(seq!["/qsim"@]),
            args: None,
            mounts: seq![workspace_mount()],
            image_pull_policy: "Never"@,
        },
        QFlowTaskSpecView::Quantum { .. } => ContainerSpecView {
            name: "task-runner"@,
            image: "qsim:latest"@,
            command: Some(seq!["/qsim"@]),
            args: Some(seq!["--input-file"@, "/workspace/input/circuit.qasm"@]),
            mounts: seq![workspace_mount(), input_mount()],
            image_pull_policy: "Never"@,
        },
        QFlowTaskSpecView::Qcbm(payload) => ContainerSpecView {
            name: "task-runner"@,
            image: payload.image,
            command: None,
            args: Some(training_args(payload, training_json)),
            mounts: seq![workspace_mount()],
            image_pull_policy: "Never"@,
        },
    }
}

/// The volumes of the job of a task: the shared claim, and for a quantum
/// task that has an input bundle, the bundle.
pub open spec fn volumes_for(
    workflow: Seq<char>,
    spec: QFlowTaskSpecView,
    bundle: Option<Seq<char>>,
) -> Seq<JobVolumeView> {
    let shared = JobVolumeView {
        name: "qflow-workspace"@,
        source: VolumeSourceView::Claim { claim_name: claim_name_of(workflow) },
    };
    match (spec, bundle) {
        (QFlowTaskSpecView::Quantum { .. }, Some(bundle_name)) => seq![
            shared,
            JobVolumeView {
                name: "qflow-input"@,
                source: VolumeSourceView::Bundle { bundle_name },
            },
        ],
        _ => seq![shared],
    }
}

/// The execution job of a task. It never restarts a finished container and
/// gives up after a bounded number of retries.
pub open spec fn job_for(
    workflow: Seq<char>,
    task: QFlowTaskView,
    bundle: Option<Seq<char>>,
    training_json: Seq<char>,
) -> ExecutionJobView {
    ExecutionJobView {
        name: job_name_of(workflow, task.name),
        owner: workflow,
        task: task.name,
        container: container_for(task.spec, training_json),
        volumes: volumes_for(workflow, task.spec, bundle),
        restart_policy: "Never"@,
        backoff_limit: retry_limit(),
    }
}

fn build_workspace_mount() -> (r: Mount)
    ensures
        r.deep_view() == workspace_mount(),
{
    Mount {
        name: "qflow-workspace".to_owned(),
        mount_path: "/workspace".to_owned(),
        read_only: false,
    }
}

fn build_input_mount() -> (r: Mount)
    ensures
        r.deep_view() == input_mount(),
{
    Mount {
        name: "qflow-input".to_owned(),
        mount_path: "/workspace/input".to_owned(),
        read_only: true,
    }
}

fn build_training_args(payload: &QcbmTaskSpec, training_json: &String) -> (r: Vec<String>)
    ensures
        r.deep_view() == training_args(payload.deep_view(), training_json@),
{
    let mut args: Vec<String> = Vec::new();
    args.push("--ansatz".to_owned());
    args.push(payload.ansatz.clone());
    args.push("--training-data".to_owned());
    args.push(training_json.clone());
    args.push("--optimizer".to_owned());
    match &payload.optimizer {
        Some(optimizer) => {
            args.push(optimizer.name.clone());
            args.push("--epochs".to_owned());
            args.push(signed_decimal_text(optimizer.epochs));
            args.push("--learning-rate".to_owned());
            args.push(optimizer.learning_rate.clone());
            match &optimizer.initial_params {
                Some(params) => {
                    args.push("--initial-params".to_owned());
                    args.push(params.clone());
                },
                None => {},
            }
        },
        None => {
            args.push("Adam".to_owned());
            args.push("--epochs".to_owned());
            args.push(signed_decimal_text(default_epochs()));
            args.push("--learning-rate".to_owned());
            args.push(default_learning_rate());
        },
    }
    assert(args.deep_view() =~= training_args(payload.deep_view(), training_json@));
    args
}

/// Builds the execution job of a task. `cm_name` is the name of the input
/// bundle of the task, where it has one; `training_json` is the training
/// data of a model-training task, written out as JSON.
pub fn job_for_task(
    workflow: &String,
    task: &QFlowTask,
    cm_name: Option<String>,
    training_json: &String,
) -> (r: ExecutionJob)
    ensures
        r.deep_view() == job_for(workflow@, task.deep_view(), cm_name.deep_view(), training_json@),
{
    let mut volumes: Vec<JobVolume> = Vec::new();
    volumes.push(
        JobVolume {
            name: "qflow-workspace".to_owned(),
            source: VolumeSource::Claim { claim_name: claim_name(workflow) },
        },
    );
    let mut mounts: Vec<Mount> = Vec::new();
    mounts.push(build_workspace_mount());
    let container = match &task.spec {
        QFlowTaskSpec::Classical { image } => {
            let mut command: Vec<String> = Vec::new();
            command.push("/qsim".to_owned());
            assert(command.deep_view() =~= seq!["/qsim"@]);
            assert(mounts.deep_view() =~= seq![workspace_mount()]);
            ContainerSpec {
                name: "task-runner".to_owned(),
                image: image.clone(),
                command: Some(command),
                args: None,
                mounts,
                image_pull_policy: "Never".to_owned(),
            }
        },
        QFlowTaskSpec::Quantum { .. } => {
            mounts.push(build_input_mount());
            match cm_name {
                Some(bundle_name) => {
                    volumes.push(
                        JobVolume {
                            name: "qflow-input".to_owned(),
                            source: VolumeSource::Bundle { bundle_name },
                        },
                    );
                },
                None => {},
            }
            let mut command: Vec<String> = Vec::new();
            command.push("/qsim".to_owned());
            let mut args: Vec<String> = Vec::new();
            args.push("--input-file".to_owned());
            args.push("/workspace/input/circuit.qasm".to_owned());
            assert(command.deep_view() =~= seq!["/qsim"@]);
            assert(args.deep_view() =~= seq!["--input-file"@, "/workspace/input/circuit.qasm"@]);
            assert(mounts.deep_view() =~= seq![workspace_mount(), input_mount()]);
            ContainerSpec {
                name: "task-runner".to_owned(),
                image: "qsim:latest".to_owned(),
                command: Some(command),
                args: Some(args),
                mounts,
                image_pull_policy: "Never".to_owned(),
            }
        },
        QFlowTaskSpec::Qcbm(payload) => {
            let args = build_training_args(payload, training_json);
            assert(mounts.deep_view() =~= seq![workspace_mount()]);
            ContainerSpec {
                name: "task-runner".to_owned(),
                image: payload.image.clone(),
                command: None,
                args: Some(args),
                mounts,
                image_pull_policy: "Never".to_owned(),
            }
        },
    };
    assert(volumes.deep_view() =~= volumes_for(
        workflow@,
        task.deep_view().spec,
        cm_name.deep_view(),
    ));
    ExecutionJob {
        name: job_name(workflow, &task.name),
        owner: workflow.clone(),
        task: task.name.clone(),
        container,
        volumes,
        restart_policy: "Never".to_owned(),
        backoff_limit: 4,
    }
}

/// The training data that the manifests of a task hold: for a
/// model-training task its training data as JSON, for any other task the
/// empty text. `None` where the training data cannot be written out.
pub open spec fn training_json_of(spec: QFlowTaskSpecView) -> Option<Seq<char>> {
    match spec {
        QFlowTaskSpecView::Qcbm(payload) => json_array_text(payload.training_data),
        _ => Some(Seq::empty()),
    }
}

/// Writes out the training data of a task for its manifests.
pub fn training_json(task: &QFlowTask) -> (r: Result<String, Error>)
    ensures
        match r {
            Ok(text) => training_json_of(task.deep_view().spec) == Some(text@),
            Err(Error::Serialization) => training_json_of(task.deep_view().spec) is None,
            Err(_) => false,
        },
{
    match &task.spec {
        QFlowTaskSpec::Qcbm(payload) => match to_json_array(&payload.training_data) {
            Some(text) => Ok(text),
            None => Err(Error::Serialization),
        },
        _ => Ok(String::new()),
    }
}

/// Builds the execution job of a task of `wf`. `cm_name` is the name of the
/// input bundle of the task, where it has one.
///
/// Fails only for a model-training task whose training data cannot be
/// written out.
pub fn create_job_for_task(wf: &QuantumWorkflow, task: &QFlowTask, cm_name: Option<String>) -> (r:
    Result<ExecutionJob, Error>)
    requires
        wf.name is Some,
    ensures
        match r {
            Ok(job) => training_json_of(task.deep_view().spec) is Some && job.deep_view()
                == job_for(
                wf.name->0@,
                task.deep_view(),
                cm_name.deep_view(),
                training_json_of(task.deep_view().spec)->0,
            ),
            Err(Error::Serialization) => training_json_of(task.deep_view().spec) is None,
            Err(_) => false,
        },
{
    let workflow = wf.name.as_ref().unwrap();
    match training_json(task) {
        Ok(text) => Ok(job_for_task(workflow, task, cm_name, &text)),
        Err(e) => Err(e),
    }
}

} // verus!
