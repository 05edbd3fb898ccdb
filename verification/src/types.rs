//! The workflow object: what a user declares (the spec) and what the
//! reconciler has observed of it (the status).

use vstd::prelude::*;
use vstd::string::*;
use crate::phase::{Phase, StatusMap};

verus! {

/// Size request for the volume that the tasks of a workflow share.
pub struct VolumeSpec {
    pub size: String,
}

/// Optimizer settings of a model-training task. The learning rate is kept as
/// the decimal text that is handed to the training container.
pub struct QcbmOptimizerSpec {
    pub name: String,
    pub epochs: i32,
    pub learning_rate: String,
    pub initial_params: Option<String>,
}

pub struct QcbmOptimizerSpecView {
    pub name: Seq<char>,
    pub epochs: int,
    pub learning_rate: Seq<char>,
    pub initial_params: Option<Seq<char>>,
}

impl DeepView for QcbmOptimizerSpec {
    type V = QcbmOptimizerSpecView;

    open spec fn deep_view(&self) -> QcbmOptimizerSpecView {
        QcbmOptimizerSpecView {
            name: self.name@,
            epochs: self.epochs as int,
            learning_rate: self.learning_rate@,
            initial_params: self.initial_params.deep_view(),
        }
    }
}

/// Epoch count of an optimizer that names none.
pub fn default_epochs() -> (r: i32)
    ensures
        r == 100,
{
    100
}

/// Learning rate of an optimizer that names none, as decimal text.
pub fn default_learning_rate() -> (r: String)
    ensures
        r@ == "0.01"@,
{
    "0.01".to_owned()
}

/// Payload of a model-training task.
pub struct QcbmTaskSpec {
    pub image: String,
    pub ansatz: String,
    pub training_data: Vec<String>,
    pub optimizer: Option<QcbmOptimizerSpec>,
}

pub struct QcbmTaskSpecView {
    pub image: Seq<char>,
    pub ansatz: Seq<char>,
    pub training_data: Seq<Seq<char>>,
    pub optimizer: Option<QcbmOptimizerSpecView>,
}

impl DeepView for QcbmTaskSpec {
    type V = QcbmTaskSpecView;

    open spec fn deep_view(&self) -> QcbmTaskSpecView {
        QcbmTaskSpecView {
            image: self.image@,
            ansatz: self.ansatz@,
            training_data: self.training_data.deep_view(),
            optimizer: self.optimizer.deep_view(),
        }
    }
}

/// What a task runs: exactly one of three kinds.
pub enum QFlowTaskSpec {
    Classical { image: String },
    Quantum { image: String, circuit: String, params: String },
    Qcbm(QcbmTaskSpec),
}

pub enum QFlowTaskSpecView {
    Classical { image: Seq<char> },
    Quantum { image: Seq<char>, circuit: Seq<char>, params: Seq<char> },
    Qcbm(QcbmTaskSpecView),
}

impl DeepView for QFlowTaskSpec {
    type V = QFlowTaskSpecView;

    open spec fn deep_view(&self) -> QFlowTaskSpecView {
        match self {
            QFlowTaskSpec::Classical { image } => QFlowTaskSpecView::Classical { image: image@ },
            QFlowTaskSpec::Quantum { image, circuit, params } => QFlowTaskSpecView::Quantum {
                image: image@,
                circuit: circuit@,
                params: params@,
            },
            QFlowTaskSpec::Qcbm(spec) => QFlowTaskSpecView::Qcbm(spec.deep_view()),
        }
    }
}

impl Default for QFlowTaskSpec {
    fn default() -> (r: QFlowTaskSpec)
        ensures
            r.deep_view() == (QFlowTaskSpecView::Classical { image: Seq::<char>::empty() }),
    {
        QFlowTaskSpec::Classical { image: String::new() }
    }
}

/// One schedulable unit of a workflow.
pub struct QFlowTask {
    pub name: String,
    pub depends_on: Option<Vec<String>>,
    pub spec: QFlowTaskSpec,
}

pub struct QFlowTaskView {
    pub name: Seq<char>,
    pub depends_on: Option<Seq<Seq<char>>>,
    pub spec: QFlowTaskSpecView,
}

impl QFlowTaskView {
    /// The names that the task waits for; none where no list is given.
    pub open spec fn dependencies(self) -> Seq<Seq<char>> {
        match self.depends_on {
            Some(names) => names,
            None => Seq::empty(),
        }
    }
}

impl DeepView for QFlowTask {
    type V = QFlowTaskView;

    open spec fn deep_view(&self) -> QFlowTaskView {
        QFlowTaskView {
            name: self.name@,
            depends_on: self.depends_on.deep_view(),
            spec: self.spec.deep_view(),
        }
    }
}

impl Default for QFlowTask {
    fn default() -> (r: QFlowTask)
        ensures
            r.deep_view() == (QFlowTaskView {
                name: Seq::<char>::empty(),
                depends_on: None,
                spec: QFlowTaskSpecView::Classical { image: Seq::<char>::empty() },
            }),
    {
        QFlowTask { name: String::new(), depends_on: None, spec: QFlowTaskSpec::default() }
    }
}

impl QFlowTask {
    /// How many names the task waits for.
    pub fn dependency_count(&self) -> (r: usize)
        ensures
            r == self.deep_view().dependencies().len(),
    {
        match &self.depends_on {
            Some(names) => names.len(),
            None => 0,
        }
    }

    /// The `k`-th name that the task waits for.
    pub fn dependency(&self, k: usize) -> (r: &String)
        requires
            k < self.deep_view().dependencies().len(),
        ensures
            r@ == self.deep_view().dependencies()[k as int],
    {
        match &self.depends_on {
            Some(names) => &names[k],
            None => &self.name,
        }
    }
}

/// What a user declares of a workflow.
pub struct QuantumWorkflowSpec {
    pub volume: Option<VolumeSpec>,
    pub tasks: Vec<QFlowTask>,
}

pub struct QuantumWorkflowSpecView {
    pub volume: Option<Seq<char>>,
    pub tasks: Seq<QFlowTaskView>,
}

impl DeepView for QuantumWorkflowSpec {
    type V = QuantumWorkflowSpecView;

    open spec fn deep_view(&self) -> QuantumWorkflowSpecView {
        QuantumWorkflowSpecView {
            volume: match self.volume {
                Some(volume) => Some(volume.size@),
                None => None,
            },
            tasks: self.tasks.deep_view(),
        }
    }
}

/// What the reconciler has observed of a workflow.
pub struct QuantumWorkflowStatus {
    pub phase: Option<Phase>,
    pub task_statuses: Option<StatusMap>,
}

pub struct QuantumWorkflowStatusView {
    pub phase: Option<Phase>,
    pub task_statuses: Option<Seq<(Seq<char>, Phase)>>,
}

impl DeepView for QuantumWorkflowStatus {
    type V = QuantumWorkflowStatusView;

    open spec fn deep_view(&self) -> QuantumWorkflowStatusView {
        QuantumWorkflowStatusView {
            phase: self.phase,
            task_statuses: self.task_statuses.deep_view(),
        }
    }
}

impl Default for QuantumWorkflowStatus {
    fn default() -> (r: QuantumWorkflowStatus)
        ensures
            r.phase is None,
            r.task_statuses is None,
    {
        QuantumWorkflowStatus { phase: None, task_statuses: None }
    }
}

/// The workflow object as the control plane holds it.
pub struct QuantumWorkflow {
    pub name: Option<String>,
    pub namespace: Option<String>,
    pub spec: QuantumWorkflowSpec,
    pub status: Option<QuantumWorkflowStatus>,
}

pub struct QuantumWorkflowView {
    pub name: Option<Seq<char>>,
    pub namespace: Option<Seq<char>>,
    pub spec: QuantumWorkflowSpecView,
    pub status: Option<QuantumWorkflowStatusView>,
}

impl DeepView for QuantumWorkflow {
    type V = QuantumWorkflowView;

    open spec fn deep_view(&self) -> QuantumWorkflowView {
        QuantumWorkflowView {
            name: self.name.deep_view(),
            namespace: self.namespace.deep_view(),
            spec: self.spec.deep_view(),
            status: self.status.deep_view(),
        }
    }
}

/// Identity of a workflow manifest.
pub struct Metadata {
    pub name: String,
}

/// A workflow as it is handed to the control plane for creation.
pub struct QuantumWorkflowResource {
    pub api_version: String,
    pub kind: String,
    pub metadata: Metadata,
    pub spec: QuantumWorkflowSpec,
}

} // verus!
