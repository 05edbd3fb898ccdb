//! What can go wrong in a reconcile pass.

use vstd::prelude::*;
use vstd::string::*;

verus! {

/// Why a workflow cannot be scheduled at all.
pub enum InvalidWorkflow {
    /// `task` waits for `dependency`, and no task of that name is declared.
    DanglingDependency { task: String, dependency: String },
    /// The tasks wait for one another in a circle.
    Cycle,
}

/// An identity field that a workflow object must carry.
#[derive(Clone, Copy, Debug, PartialEq, Eq, Structural)]
pub enum ObjectKey {
    Namespace,
    Name,
}

/// Failure of a reconcile pass. Every one of them is answered by running the
/// pass again later.
pub enum Error {
    /// A call to the control plane failed.
    KubeError,
    /// A task payload could not be written out for its container.
    Serialization,
    /// The workflow object lacks an identity field.
    MissingObjectKey(ObjectKey),
    /// The declared tasks do not form a schedulable graph.
    InvalidWorkflow(InvalidWorkflow),
}

pub enum InvalidWorkflowView {
    DanglingDependency { task: Seq<char>, dependency: Seq<char> },
    Cycle,
}

impl DeepView for InvalidWorkflow {
    type V = InvalidWorkflowView;

    open spec fn deep_view(&self) -> InvalidWorkflowView {
        match self {
            InvalidWorkflow::DanglingDependency { task, dependency } => {
                InvalidWorkflowView::DanglingDependency { task: task@, dependency: dependency@ }
            },
            InvalidWorkflow::Cycle => InvalidWorkflowView::Cycle,
        }
    }
}

pub enum ErrorView {
    KubeError,
    Serialization,
    MissingObjectKey(ObjectKey),
    InvalidWorkflow(InvalidWorkflowView),
}

impl DeepView for Error {
    type V = ErrorView;

    open spec fn deep_view(&self) -> ErrorView {
        match self {
            Error::KubeError => ErrorView::KubeError,
            Error::Serialization => ErrorView::Serialization,
            Error::MissingObjectKey(key) => ErrorView::MissingObjectKey(*key),
            Error::InvalidWorkflow(reason) => ErrorView::InvalidWorkflow(reason.deep_view()),
        }
    }
}

/// The text of an invalid-workflow finding.
pub open spec fn invalid_message(reason: InvalidWorkflowView) -> Seq<char> {
    match reason {
        InvalidWorkflowView::DanglingDependency { task, dependency } => "Task '"@ + task
            + "' depends on non-existent task '"@ + dependency + "'"@,
        InvalidWorkflowView::Cycle => "Workflow has a cycle"@,
    }
}

/// The text of an error.
pub open spec fn error_message(error: ErrorView) -> Seq<char> {
    match error {
        ErrorView::KubeError => "Kubernetes API Error"@,
        ErrorView::Serialization => "An error occurred: serialization failed"@,
        ErrorView::MissingObjectKey(ObjectKey::Namespace) => "MissingObjectKey: namespace"@,
        ErrorView::MissingObjectKey(ObjectKey::Name) => "MissingObjectKey: name"@,
        ErrorView::InvalidWorkflow(reason) => "Workflow is invalid: "@ + invalid_message(reason),
    }
}

impl InvalidWorkflow {
    /// The finding in words.
    pub fn message(&self) -> (r: String)
        ensures
            r@ == invalid_message(self.deep_view()),
    {
        match self {
            InvalidWorkflow::DanglingDependency { task, dependency } => {
                let mut r = "Task '".to_owned();
                r.append(task.as_str());
                r.append("' depends on non-existent task '");
                r.append(dependency.as_str());
                r.append("'");
                r
            },
            InvalidWorkflow::Cycle => "Workflow has a cycle".to_owned(),
        }
    }
}

impl Error {
    /// The error in words.
    pub fn message(&self) -> (r: String)
        ensures
            r@ == error_message(self.deep_view()),
    {
        match self {
            Error::KubeError => "Kubernetes API Error".to_owned(),
            Error::Serialization => "An error occurred: serialization failed".to_owned(),
            Error::MissingObjectKey(ObjectKey::Namespace) => "MissingObjectKey: namespace".to_owned(),
            Error::MissingObjectKey(ObjectKey::Name) => "MissingObjectKey: name".to_owned(),
            Error::InvalidWorkflow(reason) => {
                let mut r = "Workflow is invalid: ".to_owned();
                let detail = reason.message();
                r.append(detail.as_str());
                r
            },
        }
    }
}

} // verus!
