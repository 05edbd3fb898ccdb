//! The resource provisioner: the child resources of a workflow, each created
//! unless it exists. Whether a resource exists is asked of the control plane
//! by name before every creation, never remembered.

use vstd::prelude::*;
use vstd::string::*;
use crate::cluster::{Cluster, ClusterView};
use crate::control::{Request, Response};
use crate::error::{Error, ErrorView, ObjectKey};
use crate::manifest::{
    build_bundle, build_claim, bundle_for, bundle_name, bundle_name_of, claim_for, claim_name,
    claim_name_of, job_for, job_for_task, job_name, job_name_of, needs_bundle, training_json,
    training_json_of, ExecutionJobView, InputBundleView, VolumeClaimView,
};
use crate::types::{QFlowTask, QFlowTaskSpec, QuantumWorkflow};

verus! {

/// The control plane once it holds a volume claim of the name of `claim`.
pub open spec fn volume_ensured(cluster: ClusterView, claim: VolumeClaimView) -> ClusterView {
    if cluster.has_volume(claim.name) {
        cluster
    } else {
        cluster.with_volume(claim)
    }
}

/// The control plane once it holds an input bundle of the name of `bundle`.
pub open spec fn bundle_ensured(cluster: ClusterView, bundle: InputBundleView) -> ClusterView {
    if cluster.has_bundle(bundle.name) {
        cluster
    } else {
        cluster.with_bundle(bundle)
    }
}

/// The control plane once it holds a job of the name of `job`.
pub open spec fn job_ensured(cluster: ClusterView, job: ExecutionJobView) -> ClusterView {
    if cluster.has_job(job.name) {
        cluster
    } else {
        cluster.with_job(job)
    }
}

/// Exactly one job carries `name`.
pub open spec fn holds_one_job(cluster: ClusterView, name: Seq<char>) -> bool {
    exists|i: int|
        0 <= i < cluster.jobs.len() && (#[trigger] cluster.jobs[i]).job.name == name && forall|j: int|
            0 <= j < cluster.jobs.len() && (#[trigger] cluster.jobs[j]).job.name == name ==> j == i
}

/// Idempotent provisioning. Ensuring a job twice is ensuring it once: the
/// second call changes nothing, and exactly one job of that name exists.
pub proof fn lemma_ensure_job_twice(cluster: ClusterView, job: ExecutionJobView)
    requires
        cluster.well_formed(),
    ensures
        job_ensured(job_ensured(cluster, job), job) == job_ensured(cluster, job),
        holds_one_job(job_ensured(cluster, job), job.name),
        job_ensured(cluster, job).well_formed(),
{
    let once = job_ensured(cluster, job);
    crate::cluster::lemma_performed_well_formed(cluster, crate::control::RequestView::CreateJob(job));
    if cluster.has_job(job.name) {
        let i = cluster.job_place(job.name);
        assert(cluster.jobs[i].job.name == job.name);
    } else {
        let i = cluster.jobs.len() as int;
        assert(once.jobs[i].job.name == job.name);
        assert(once.has_job(job.name));
        assert forall|j: int| 0 <= j < once.jobs.len() && (#[trigger] once.jobs[j]).job.name
            == job.name implies j == i by {
            if j < i {
                assert(cluster.jobs[j] == once.jobs[j]);
            }
        }
    }
}

/// Ensuring a volume claim or an input bundle twice is ensuring it once.
pub proof fn lemma_ensure_twice(cluster: ClusterView, claim: VolumeClaimView, bundle: InputBundleView)
    ensures
        volume_ensured(volume_ensured(cluster, claim), claim) == volume_ensured(cluster, claim),
        bundle_ensured(bundle_ensured(cluster, bundle), bundle) == bundle_ensured(cluster, bundle),
{
    if !cluster.has_volume(claim.name) {
        let once = cluster.with_volume(claim);
        assert(once.volumes[cluster.volumes.len() as int].name == claim.name);
    }
    if !cluster.has_bundle(bundle.name) {
        let once = cluster.with_bundle(bundle);
        assert(once.bundles[cluster.bundles.len() as int].name == bundle.name);
    }
}

/// Creates the shared volume of `wf` unless it exists, sized as the workflow
/// asks or at one gibibyte. Returns the name of the claim.
pub fn ensure_shared_volume(cluster: &mut Cluster, wf: &QuantumWorkflow) -> (r: Result<String, Error>)
    ensures
        match r {
            Ok(name) => wf.namespace is Some && wf.name is Some && name@ == claim_name_of(
                wf.name->0@,
            ) && final(cluster).deep_view() == volume_ensured(
                old(cluster).deep_view(),
                claim_for(wf.name->0@, wf.deep_view().spec.volume),
            ),
            Err(Error::MissingObjectKey(ObjectKey::Namespace)) => wf.namespace is None && final(cluster).deep_view() == old(cluster).deep_view(),
            Err(Error::MissingObjectKey(ObjectKey::Name)) => wf.namespace is Some && wf.name is None
                && final(cluster).deep_view() == old(cluster).deep_view(),
            Err(_) => false,
        },
{
    if wf.namespace.is_none() {
        return Err(Error::MissingObjectKey(ObjectKey::Namespace));
    }
    let workflow = match &wf.name {
        Some(name) => name,
        None => {
            return Err(Error::MissingObjectKey(ObjectKey::Name));
        },
    };
    let name = claim_name(workflow);
    let found = cluster.perform(Request::GetVolume(claim_name(workflow)));
    if !found.is_present() {
        let created = cluster.perform(Request::CreateVolume(build_claim(workflow, &wf.spec.volume)));
    }
    Ok(name)
}

/// Creates the input bundle of `task` unless it exists. Returns the name of
/// the bundle; `None` for a classical task, which has none.
///
/// Fails only where the bundle has to be created and the training data of
/// the task cannot be written out.
pub fn ensure_input_bundle(cluster: &mut Cluster, wf: &QuantumWorkflow, task: &QFlowTask) -> (r:
    Result<Option<String>, Error>)
    requires
        wf.name is Some,
    ensures
        match r {
            Ok(None) => !needs_bundle(task.deep_view().spec) && final(cluster).deep_view() == old(cluster).deep_view(),
            Ok(Some(name)) => {
                &&& needs_bundle(task.deep_view().spec)
                &&& name@ == bundle_name_of(wf.name->0@, task.name@)
                &&& old(cluster).deep_view().has_bundle(name@) ==> final(cluster).deep_view() == old(cluster).deep_view()
                &&& !old(cluster).deep_view().has_bundle(name@) ==> training_json_of(
                    task.deep_view().spec,
                ) is Some && final(cluster).deep_view() == old(cluster).deep_view().with_bundle(
                    bundle_for(
                        wf.name->0@,
                        task.deep_view(),
                        training_json_of(task.deep_view().spec)->0,
                    )->0,
                )
            },
            Err(Error::Serialization) => needs_bundle(task.deep_view().spec) && !old(cluster).deep_view().has_bundle(bundle_name_of(wf.name->0@, task.name@)) && training_json_of(
                task.deep_view().spec,
            ) is None && final(cluster).deep_view() == old(cluster).deep_view(),
            Err(_) => false,
        },
{
    let workflow = wf.name.as_ref().unwrap();
    match &task.spec {
        QFlowTaskSpec::Classical { .. } => {
            return Ok(None);
        },
        _ => {},
    }
    let name = bundle_name(workflow, &task.name);
    let found = cluster.perform(Request::GetBundle(bundle_name(workflow, &task.name)));
    if !found.is_present() {
        match training_json(task) {
            Err(e) => {
                return Err(e);
            },
            Ok(text) => {
                match build_bundle(workflow, task, &text) {
                    Some(bundle) => {
                        let created = cluster.perform(Request::CreateBundle(bundle));
                    },
                    None => {},
                }
            },
        }
    }
    Ok(Some(name))
}

/// Creates the execution job of `task` unless it exists. `bundle_ref` is the
/// name of the input bundle of the task, where it has one. Returns the name
/// of the job.
///
/// Fails only where the job has to be created and the training data of the
/// task cannot be written out.
pub fn ensure_execution_job(
    cluster: &mut Cluster,
    wf: &QuantumWorkflow,
    task: &QFlowTask,
    bundle_ref: Option<String>,
) -> (r: Result<String, Error>)
    requires
        wf.name is Some,
    ensures
        match r {
            Ok(name) => {
                &&& name@ == job_name_of(wf.name->0@, task.name@)
                &&& old(cluster).deep_view().has_job(name@) ==> final(cluster).deep_view() == old(cluster).deep_view()
                &&& !old(cluster).deep_view().has_job(name@) ==> training_json_of(
                    task.deep_view().spec,
                ) is Some && final(cluster).deep_view() == old(cluster).deep_view().with_job(
                    job_for(
                        wf.name->0@,
                        task.deep_view(),
                        bundle_ref.deep_view(),
                        training_json_of(task.deep_view().spec)->0,
                    ),
                )
            },
            Err(Error::Serialization) => !old(cluster).deep_view().has_job(
                job_name_of(wf.name->0@, task.name@),
            ) && training_json_of(task.deep_view().spec) is None && final(cluster).deep_view() == old(cluster).deep_view(),
            Err(_) => false,
        },
{
    let workflow = wf.name.as_ref().unwrap();
    let name = job_name(workflow, &task.name);
    let found = cluster.perform(Request::GetJob(job_name(workflow, &task.name)));
    if !found.is_present() {
        match training_json(task) {
            Err(e) => {
                return Err(e);
            },
            Ok(text) => {
                let job = job_for_task(workflow, task, bundle_ref, &text);
                let created = cluster.perform(Request::CreateJob(job));
            },
        }
    }
    Ok(name)
}

} // verus!
