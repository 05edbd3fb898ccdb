//! What the reconciler asks of the control plane, and what the control plane
//! answers.

use vstd::prelude::*;
use vstd::string::*;
use crate::manifest::{
    ExecutionJob, ExecutionJobView, InputBundle, InputBundleView, VolumeClaim, VolumeClaimView,
};
use crate::phase::JobCounts;
use crate::types::{QuantumWorkflowStatus, QuantumWorkflowStatusView};

verus! {

/// One call to the control plane.
pub enum Request {
    /// Is there a volume claim of this name?
    GetVolume(String),
    /// Create this volume claim.
    CreateVolume(VolumeClaim),
    /// What does the job of this name report?
    GetJobStatus(String),
    /// Is there an input bundle of this name?
    GetBundle(String),
    /// Create this input bundle.
    CreateBundle(InputBundle),
    /// Is there a job of this name?
    GetJob(String),
    /// Create this job.
    CreateJob(ExecutionJob),
    /// Record this as the status of the workflow.
    WriteStatus(QuantumWorkflowStatus),
}

pub enum RequestView {
    GetVolume(Seq<char>),
    CreateVolume(VolumeClaimView),
    GetJobStatus(Seq<char>),
    GetBundle(Seq<char>),
    CreateBundle(InputBundleView),
    GetJob(Seq<char>),
    CreateJob(ExecutionJobView),
    WriteStatus(QuantumWorkflowStatusView),
}

impl DeepView for Request {
    type V = RequestView;

    open spec fn deep_view(&self) -> RequestView {
        match self {
            Request::GetVolume(name) => RequestView::GetVolume(name@),
            Request::CreateVolume(claim) => RequestView::CreateVolume(claim.deep_view()),
            Request::GetJobStatus(name) => RequestView::GetJobStatus(name@),
            Request::GetBundle(name) => RequestView::GetBundle(name@),
            Request::CreateBundle(bundle) => RequestView::CreateBundle(bundle.deep_view()),
            Request::GetJob(name) => RequestView::GetJob(name@),
            Request::CreateJob(job) => RequestView::CreateJob(job.deep_view()),
            Request::WriteStatus(status) => RequestView::WriteStatus(status.deep_view()),
        }
    }
}

/// The answer of the control plane to one call.
#[derive(Clone, Copy, Debug, PartialEq, Eq, Structural)]
pub enum Response {
    /// The object asked for exists.
    Found,
    /// The job asked for exists and reports these counts.
    JobStatus(JobCounts),
    /// The object asked for was not found.
    Missing,
    /// The object was created, or the status recorded.
    Done,
    /// Nothing was created: an object of that name exists.
    AlreadyExists,
    /// The call failed.
    Failed,
}

impl Response {
    /// A lookup found the object.
    pub open spec fn present(self) -> bool {
        self is Found || self is JobStatus
    }

    /// After a create call the object exists: it was created now, or was
    /// there already.
    pub open spec fn settled(self) -> bool {
        self is Done || self is AlreadyExists
    }

    /// What a job reports, as far as the answer says.
    pub open spec fn report(self) -> Option<JobCounts> {
        match self {
            Response::JobStatus(counts) => Some(counts),
            _ => None,
        }
    }

    pub fn is_present(&self) -> (r: bool)
        ensures
            r == self.present(),
    {
        match self {
            Response::Found => true,
            Response::JobStatus(_) => true,
            _ => false,
        }
    }

    pub fn is_settled(&self) -> (r: bool)
        ensures
            r == self.settled(),
    {
        match self {
            Response::Done => true,
            Response::AlreadyExists => true,
            _ => false,
        }
    }

    pub fn job_report(&self) -> (r: Option<JobCounts>)
        ensures
            r == self.report(),
    {
        match self {
            Response::JobStatus(counts) => Some(*counts),
            _ => None,
        }
    }
}

} // verus!
