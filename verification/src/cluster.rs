//! A control plane held in memory: the volume claims, input bundles and jobs
//! of one namespace, each kind keyed by name, and a log of every change made
//! to them. It answers the calls of the reconciler as a real control plane
//! answers them when nothing fails.

use vstd::prelude::*;
use vstd::string::*;
use crate::control::{Request, RequestView, Response};
use crate::manifest::{
    ExecutionJob, ExecutionJobView, InputBundle, InputBundleView, VolumeClaim, VolumeClaimView,
};
use crate::phase::JobCounts;
use crate::types::QuantumWorkflowStatus;

verus! {

/// One change to what the control plane holds.
#[derive(Clone, Copy, Debug, PartialEq, Eq, Structural)]
pub enum Mutation {
    VolumeCreated,
    BundleCreated,
    JobCreated,
    StatusWritten,
}

/// A job as the control plane holds it: its manifest, and what it reports.
pub struct JobRecord {
    pub job: ExecutionJob,
    pub counts: JobCounts,
}

pub struct JobRecordView {
    pub job: ExecutionJobView,
    pub counts: JobCounts,
}

impl DeepView for JobRecord {
    type V = JobRecordView;

    open spec fn deep_view(&self) -> JobRecordView {
        JobRecordView { job: self.job.deep_view(), counts: self.counts }
    }
}

pub struct ClusterView {
    pub volumes: Seq<VolumeClaimView>,
    pub bundles: Seq<InputBundleView>,
    pub jobs: Seq<JobRecordView>,
    pub log: Seq<Mutation>,
}

/// A job that was just created has run nothing yet.
pub open spec fn fresh_counts() -> JobCounts {
    JobCounts { succeeded: 0, failed: 0 }
}

impl ClusterView {
    pub open spec fn has_volume(self, name: Seq<char>) -> bool {
        exists|i: int| 0 <= i < self.volumes.len() && (#[trigger] self.volumes[i]).name == name
    }

    pub open spec fn has_bundle(self, name: Seq<char>) -> bool {
        exists|i: int| 0 <= i < self.bundles.len() && (#[trigger] self.bundles[i]).name == name
    }

    pub open spec fn has_job(self, name: Seq<char>) -> bool {
        exists|i: int| 0 <= i < self.jobs.len() && (#[trigger] self.jobs[i]).job.name == name
    }

    /// The place of the job of this name.
    pub open spec fn job_place(self, name: Seq<char>) -> int {
        choose|i: int| 0 <= i < self.jobs.len() && (#[trigger] self.jobs[i]).job.name == name
    }

    /// What the job of this name reports; `None` where there is no such job.
    pub open spec fn job_report(self, name: Seq<char>) -> Option<JobCounts> {
        if self.has_job(name) {
            Some(self.jobs[self.job_place(name)].counts)
        } else {
            None
        }
    }

    /// How many jobs carry this name.
    pub open spec fn jobs_named(self, name: Seq<char>) -> nat {
        self.jobs.filter(|record: JobRecordView| record.job.name == name).len()
    }

    /// No two objects of one kind carry the same name.
    pub open spec fn well_formed(self) -> bool {
        &&& forall|i: int, j: int|
            0 <= i < self.volumes.len() && 0 <= j < self.volumes.len() && (
            #[trigger] self.volumes[i]).name == (#[trigger] self.volumes[j]).name ==> i == j
        &&& forall|i: int, j: int|
            0 <= i < self.bundles.len() && 0 <= j < self.bundles.len() && (
            #[trigger] self.bundles[i]).name == (#[trigger] self.bundles[j]).name ==> i == j
        &&& forall|i: int, j: int|
            0 <= i < self.jobs.len() && 0 <= j < self.jobs.len() && (
            #[trigger] self.jobs[i]).job.name == (#[trigger] self.jobs[j]).job.name ==> i == j
    }

    /// The same objects: everything but the log agrees.
    pub open spec fn same_objects(self, other: ClusterView) -> bool {
        &&& self.volumes == other.volumes
        &&& self.bundles == other.bundles
        &&& self.jobs == other.jobs
    }

    pub open spec fn with_volume(self, claim: VolumeClaimView) -> ClusterView {
        ClusterView {
            volumes: self.volumes.push(claim),
            log: self.log.push(Mutation::VolumeCreated),
            ..self
        }
    }

    pub open spec fn with_bundle(self, bundle: InputBundleView) -> ClusterView {
        ClusterView {
            bundles: self.bundles.push(bundle),
            log: self.log.push(Mutation::BundleCreated),
            ..self
        }
    }

    pub open spec fn with_job(self, job: ExecutionJobView) -> ClusterView {
        ClusterView {
            jobs: self.jobs.push(JobRecordView { job, counts: fresh_counts() }),
            log: self.log.push(Mutation::JobCreated),
            ..self
        }
    }

    pub open spec fn with_status_write(self) -> ClusterView {
        ClusterView { log: self.log.push(Mutation::StatusWritten), ..self }
    }

    /// The control plane after one call, and its answer. A lookup changes
    /// nothing. A create call adds the object unless its name is taken. A
    /// status write is logged.
    pub open spec fn performed(self, request: RequestView) -> (ClusterView, Response) {
        match request {
            RequestView::GetVolume(name) => (
                self,
                if self.has_volume(name) {
                    Response::Found
                } else {
                    Response::Missing
                },
            ),
            RequestView::CreateVolume(claim) => if self.has_volume(claim.name) {
                (self, Response::AlreadyExists)
            } else {
                (self.with_volume(claim), Response::Done)
            },
            RequestView::GetJobStatus(name) => (
                self,
                match self.job_report(name) {
                    Some(counts) => Response::JobStatus(counts),
                    None => Response::Missing,
                },
            ),
            RequestView::GetBundle(name) => (
                self,
                if self.has_bundle(name) {
                    Response::Found
                } else {
                    Response::Missing
                },
            ),
            RequestView::CreateBundle(bundle) => if self.has_bundle(bundle.name) {
                (self, Response::AlreadyExists)
            } else {
                (self.with_bundle(bundle), Response::Done)
            },
            RequestView::GetJob(name) => (
                self,
                if self.has_job(name) {
                    Response::Found
                } else {
                    Response::Missing
                },
            ),
            RequestView::CreateJob(job) => if self.has_job(job.name) {
                (self, Response::AlreadyExists)
            } else {
                (self.with_job(job), Response::Done)
            },
            RequestView::WriteStatus(_) => (self.with_status_write(), Response::Done),
        }
    }
}

/// A call leaves the control plane well formed.
pub proof fn lemma_performed_well_formed(cluster: ClusterView, request: RequestView)
    requires
        cluster.well_formed(),
    ensures
        cluster.performed(request).0.well_formed(),
{
    let after = cluster.performed(request).0;
    match request {
        RequestView::CreateVolume(claim) => {
            if !cluster.has_volume(claim.name) {
                assert forall|i: int, j: int|
                    0 <= i < after.volumes.len() && 0 <= j < after.volumes.len() && (
                    #[trigger] after.volumes[i]).name == (#[trigger] after.volumes[j]).name implies i
                    == j by {
                    if i < cluster.volumes.len() {
                        assert(after.volumes[i] == cluster.volumes[i]);
                    }
                    if j < cluster.volumes.len() {
                        assert(after.volumes[j] == cluster.volumes[j]);
                    }
                }
            }
        },
        RequestView::CreateBundle(bundle) => {
            if !cluster.has_bundle(bundle.name) {
                assert forall|i: int, j: int|
                    0 <= i < after.bundles.len() && 0 <= j < after.bundles.len() && (
                    #[trigger] after.bundles[i]).name == (#[trigger] after.bundles[j]).name implies i
                    == j by {
                    if i < cluster.bundles.len() {
                        assert(after.bundles[i] == cluster.bundles[i]);
                    }
                    if j < cluster.bundles.len() {
                        assert(after.bundles[j] == cluster.bundles[j]);
                    }
                }
            }
        },
        RequestView::CreateJob(job) => {
            if !cluster.has_job(job.name) {
                assert forall|i: int, j: int|
                    0 <= i < after.jobs.len() && 0 <= j < after.jobs.len() && (
                    #[trigger] after.jobs[i]).job.name == (#[trigger] after.jobs[j]).job.name implies i
                    == j by {
                    if i < cluster.jobs.len() {
                        assert(after.jobs[i] == cluster.jobs[i]);
                    }
                    if j < cluster.jobs.len() {
                        assert(after.jobs[j] == cluster.jobs[j]);
                    }
                }
            }
        },
        _ => {},
    }
}

/// The control plane in memory.
pub struct Cluster {
    volumes: Vec<VolumeClaim>,
    bundles: Vec<InputBundle>,
    jobs: Vec<JobRecord>,
    log: Vec<Mutation>,
}

impl DeepView for Cluster {
    type V = ClusterView;

    closed spec fn deep_view(&self) -> ClusterView {
        ClusterView {
            volumes: self.volumes.deep_view(),
            bundles: self.bundles.deep_view(),
            jobs: self.jobs.deep_view(),
            log: self.log@,
        }
    }
}

impl Cluster {
    #[verifier::type_invariant]
    spec fn inv(self) -> bool {
        self.deep_view().well_formed()
    }

    /// A control plane that holds nothing.
    pub fn new() -> (r: Cluster)
        ensures
            r.deep_view().volumes.len() == 0,
            r.deep_view().bundles.len() == 0,
            r.deep_view().jobs.len() == 0,
            r.deep_view().log.len() == 0,
    {
        Cluster { volumes: Vec::new(), bundles: Vec::new(), jobs: Vec::new(), log: Vec::new() }
    }

    /// Nothing is asked of the name lists but that names are distinct.
    pub fn check(&self)
        ensures
            self.deep_view().well_formed(),
    {
        proof {
            use_type_invariant(self);
        }
    }

    fn find_volume(&self, name: &String) -> (r: Option<usize>)
        ensures
            match r {
                Some(i) => i < self.deep_view().volumes.len() && self.deep_view().volumes[i as int].name
                    == name@,
                None => !self.deep_view().has_volume(name@),
            },
    {
        let mut i: usize = 0;
        while i < self.volumes.len()
            invariant
                i <= self.volumes.len(),
                forall|j: int| 0 <= j < i ==> (#[trigger] self.deep_view().volumes[j]).name != name@,
            decreases self.volumes.len() - i,
        {
            if self.volumes[i].name == *name {
                return Some(i);
            }
            i += 1;
        }
        None
    }

    fn find_bundle(&self, name: &String) -> (r: Option<usize>)
        ensures
            match r {
                Some(i) => i < self.deep_view().bundles.len() && self.deep_view().bundles[i as int].name
                    == name@,
                None => !self.deep_view().has_bundle(name@),
            },
    {
        let mut i: usize = 0;
        while i < self.bundles.len()
            invariant
                i <= self.bundles.len(),
                forall|j: int| 0 <= j < i ==> (#[trigger] self.deep_view().bundles[j]).name != name@,
            decreases self.bundles.len() - i,
        {
            if self.bundles[i].name == *name {
                return Some(i);
            }
            i += 1;
        }
        None
    }

    fn find_job(&self, name: &String) -> (r: Option<usize>)
        ensures
            match r {
                Some(i) => i < self.deep_view().jobs.len() && self.deep_view().jobs[i as int].job.name
                    == name@ && self.deep_view().job_place(name@) == i,
                None => !self.deep_view().has_job(name@),
            },
    {
        proof {
            use_type_invariant(self);
        }
        let mut i: usize = 0;
        while i < self.jobs.len()
            invariant
                i <= self.jobs.len(),
                self.deep_view().well_formed(),
                forall|j: int| 0 <= j < i ==> (#[trigger] self.deep_view().jobs[j]).job.name != name@,
            decreases self.jobs.len() - i,
        {
            if self.jobs[i].job.name == *name {
                return Some(i);
            }
            i += 1;
        }
        None
    }

    /// Whether a volume claim of this name exists.
    pub fn has_volume(&self, name: &String) -> (r: bool)
        ensures
            r == self.deep_view().has_volume(name@),
    {
        self.find_volume(name).is_some()
    }

    /// Whether an input bundle of this name exists.
    pub fn has_bundle(&self, name: &String) -> (r: bool)
        ensures
            r == self.deep_view().has_bundle(name@),
    {
        self.find_bundle(name).is_some()
    }

    /// Whether a job of this name exists.
    pub fn has_job(&self, name: &String) -> (r: bool)
        ensures
            r == self.deep_view().has_job(name@),
    {
        self.find_job(name).is_some()
    }

    /// What the job of this name reports; `None` where there is no such job.
    pub fn job_report(&self, name: &String) -> (r: Option<JobCounts>)
        ensures
            r == self.deep_view().job_report(name@),
    {
        match self.find_job(name) {
            Some(i) => Some(self.jobs[i].counts),
            None => None,
        }
    }

    /// The volume claim of this name.
    pub fn volume(&self, name: &String) -> (r: Option<&VolumeClaim>)
        ensures
            r is Some == self.deep_view().has_volume(name@),
            r is Some ==> r->0.name@ == name@,
    {
        match self.find_volume(name) {
            Some(i) => Some(&self.volumes[i]),
            None => None,
        }
    }

    /// The input bundle of this name.
    pub fn bundle(&self, name: &String) -> (r: Option<&InputBundle>)
        ensures
            r is Some == self.deep_view().has_bundle(name@),
            r is Some ==> r->0.name@ == name@,
    {
        match self.find_bundle(name) {
            Some(i) => Some(&self.bundles[i]),
            None => None,
        }
    }

    /// The manifest of the job of this name.
    pub fn job(&self, name: &String) -> (r: Option<&ExecutionJob>)
        ensures
            r is Some == self.deep_view().has_job(name@),
            r is Some ==> r->0.deep_view() == self.deep_view().jobs[self.deep_view().job_place(
                name@,
            )].job,
    {
        match self.find_job(name) {
            Some(i) => Some(&self.jobs[i].job),
            None => None,
        }
    }

    pub fn volume_count(&self) -> (r: usize)
        ensures
            r == self.deep_view().volumes.len(),
    {
        self.volumes.len()
    }

    pub fn bundle_count(&self) -> (r: usize)
        ensures
            r == self.deep_view().bundles.len(),
    {
        self.bundles.len()
    }

    pub fn job_count(&self) -> (r: usize)
        ensures
            r == self.deep_view().jobs.len(),
    {
        self.jobs.len()
    }

    /// How many changes were made so far.
    pub fn mutation_count(&self) -> (r: usize)
        ensures
            r == self.deep_view().log.len(),
    {
        self.log.len()
    }

    /// The `i`-th change that was made.
    pub fn mutation(&self, i: usize) -> (r: Mutation)
        requires
            i < self.deep_view().log.len(),
        ensures
            r == self.deep_view().log[i as int],
    {
        self.log[i]
    }

    /// Lets the job of this name report `counts` from now on. Returns whether
    /// there is such a job.
    pub fn set_job_counts(&mut self, name: &String, counts: JobCounts) -> (r: bool)
        ensures
            r == old(self).deep_view().has_job(name@),
            !r ==> final(self).deep_view() == old(self).deep_view(),
            r ==> final(self).deep_view() == (ClusterView {
                jobs: old(self).deep_view().jobs.update(
                    old(self).deep_view().job_place(name@),
                    JobRecordView {
                        job: old(self).deep_view().jobs[old(self).deep_view().job_place(name@)].job,
                        counts,
                    },
                ),
                ..old(self).deep_view()
            }),
    {
        proof {
            use_type_invariant(&*self);
        }
        match self.find_job(name) {
            None => false,
            Some(i) => {
                let ghost before = self.deep_view();
                let ghost after = ClusterView {
                    jobs: before.jobs.update(
                        i as int,
                        JobRecordView { job: before.jobs[i as int].job, counts },
                    ),
                    ..before
                };
                assert(after.well_formed()) by {
                    assert forall|a: int, b: int|
                        0 <= a < after.jobs.len() && 0 <= b < after.jobs.len() && (
                        #[trigger] after.jobs[a]).job.name == (#[trigger] after.jobs[b]).job.name implies a
                        == b by {
                        assert(after.jobs[a].job.name == before.jobs[a].job.name);
                        assert(after.jobs[b].job.name == before.jobs[b].job.name);
                    }
                }
                let mut jobs: Vec<JobRecord> = Vec::new();
                core::mem::swap(&mut self.jobs, &mut jobs);
                jobs[i].counts = counts;
                assert(jobs.deep_view() =~= after.jobs);
                core::mem::swap(&mut self.jobs, &mut jobs);
                assert(self.deep_view().jobs == after.jobs);
                true
            },
        }
    }

    /// Answers one call, as `performed` says.
    pub fn perform(&mut self, request: Request) -> (r: Response)
        ensures
            (final(self).deep_view(), r) == old(self).deep_view().performed(request.deep_view()),
    {
        proof {
            use_type_invariant(&*self);
            lemma_performed_well_formed(self.deep_view(), request.deep_view());
        }
        let ghost before = self.deep_view();
        match request {
            Request::GetVolume(name) => {
                if self.has_volume(&name) {
                    Response::Found
                } else {
                    Response::Missing
                }
            },
            Request::CreateVolume(claim) => {
                if self.has_volume(&claim.name) {
                    Response::AlreadyExists
                } else {
                    let ghost after = before.with_volume(claim.deep_view());
                    let mut volumes: Vec<VolumeClaim> = Vec::new();
                    let mut log: Vec<Mutation> = Vec::new();
                    core::mem::swap(&mut self.log, &mut log);
                    log.push(Mutation::VolumeCreated);
                    core::mem::swap(&mut self.log, &mut log);
                    core::mem::swap(&mut self.volumes, &mut volumes);
                    volumes.push(claim);
                    assert(volumes.deep_view() =~= after.volumes);
                    core::mem::swap(&mut self.volumes, &mut volumes);
                    assert(self.deep_view() == after);
                    Response::Done
                }
            },
            Request::GetJobStatus(name) => {
                match self.job_report(&name) {
                    Some(counts) => Response::JobStatus(counts),
                    None => Response::Missing,
                }
            },
            Request::GetBundle(name) => {
                if self.has_bundle(&name) {
                    Response::Found
                } else {
                    Response::Missing
                }
            },
            Request::CreateBundle(bundle) => {
                if self.has_bundle(&bundle.name) {
                    Response::AlreadyExists
                } else {
                    let ghost after = before.with_bundle(bundle.deep_view());
                    let mut bundles: Vec<InputBundle> = Vec::new();
                    let mut log: Vec<Mutation> = Vec::new();
                    core::mem::swap(&mut self.log, &mut log);
                    log.push(Mutation::BundleCreated);
                    core::mem::swap(&mut self.log, &mut log);
                    core::mem::swap(&mut self.bundles, &mut bundles);
                    bundles.push(bundle);
                    assert(bundles.deep_view() =~= after.bundles);
                    core::mem::swap(&mut self.bundles, &mut bundles);
                    assert(self.deep_view() == after);
                    Response::Done
                }
            },
            Request::GetJob(name) => {
                if self.has_job(&name) {
                    Response::Found
                } else {
                    Response::Missing
                }
            },
            Request::CreateJob(job) => {
                if self.has_job(&job.name) {
                    Response::AlreadyExists
                } else {
                    let ghost after = before.with_job(job.deep_view());
                    let mut jobs: Vec<JobRecord> = Vec::new();
                    let mut log: Vec<Mutation> = Vec::new();
                    core::mem::swap(&mut self.log, &mut log);
                    log.push(Mutation::JobCreated);
                    core::mem::swap(&mut self.log, &mut log);
                    core::mem::swap(&mut self.jobs, &mut jobs);
                    jobs.push(JobRecord { job, counts: JobCounts { succeeded: 0, failed: 0 } });
                    assert(jobs.deep_view() =~= after.jobs);
                    core::mem::swap(&mut self.jobs, &mut jobs);
                    assert(self.deep_view() == after);
                    Response::Done
                }
            },
            Request::WriteStatus(_) => {
                let mut log: Vec<Mutation> = Vec::new();
                core::mem::swap(&mut self.log, &mut log);
                log.push(Mutation::StatusWritten);
                core::mem::swap(&mut self.log, &mut log);
                Response::Done
            },
        }
    }

    /// Logs that the status of a workflow was written.
    pub fn note_status_write(&mut self) -> (r: Response)
        ensures
            final(self).deep_view() == old(self).deep_view().with_status_write(),
            r == Response::Done,
    {
        self.perform(Request::WriteStatus(QuantumWorkflowStatus { phase: None, task_statuses: None }))
    }
}

} // verus!
