use qflow::cluster::{Cluster, Mutation};
use qflow::control::{Request, Response};
use qflow::error::{Error, InvalidWorkflow, ObjectKey};
use qflow::machine::{Pass, Requeue, Step};
use qflow::phase::{aggregate, observe, JobCounts, Phase, StatusMap};
use qflow::provision::{ensure_execution_job, ensure_input_bundle, ensure_shared_volume};
use qflow::reconciler::{on_error, reconcile, run_pass};
use qflow::schedule::{can_start, fill_missing, start_all};
use qflow::types::{
    QFlowTask, QFlowTaskSpec, QcbmTaskSpec, QuantumWorkflow, QuantumWorkflowSpec,
    QuantumWorkflowStatus, VolumeSpec,
};

fn classical(name: &str, deps: &[&str]) -> QFlowTask {
    QFlowTask {
        name: name.to_string(),
        depends_on: if deps.is_empty() {
            None
        } else {
            Some(deps.iter().map(|d| d.to_string()).collect())
        },
        spec: QFlowTaskSpec::Classical { image: "busybox".to_string() },
    }
}

fn quantum(name: &str, deps: &[&str]) -> QFlowTask {
    QFlowTask {
        name: name.to_string(),
        depends_on: if deps.is_empty() {
            None
        } else {
            Some(deps.iter().map(|d| d.to_string()).collect())
        },
        spec: QFlowTaskSpec::Quantum {
            image: "qsim".to_string(),
            circuit: "h q[0];".to_string(),
            params: "{}".to_string(),
        },
    }
}

fn workflow(name: &str, tasks: Vec<QFlowTask>) -> QuantumWorkflow {
    QuantumWorkflow {
        name: Some(name.to_string()),
        namespace: Some("default".to_string()),
        spec: QuantumWorkflowSpec { volume: None, tasks },
        status: None,
    }
}

fn phase_of(wf: &QuantumWorkflow, task: &str) -> Option<Phase> {
    wf.status.as_ref().unwrap().task_statuses.as_ref().unwrap().get(&task.to_string())
}

fn workflow_phase(wf: &QuantumWorkflow) -> Option<Phase> {
    wf.status.as_ref().unwrap().phase
}

fn succeed(cluster: &mut Cluster, job: &str) {
    assert!(cluster.set_job_counts(&job.to_string(), JobCounts { succeeded: 1, failed: 0 }));
}

fn fail(cluster: &mut Cluster, job: &str) {
    assert!(cluster.set_job_counts(&job.to_string(), JobCounts { succeeded: 0, failed: 1 }));
}

fn steady(result: Result<Requeue, Error>) {
    assert_eq!(result.ok().unwrap(), Requeue { after_secs: 15 });
}

#[test]
fn one_classical_task_runs_to_success() {
    let mut cluster = Cluster::new();
    let mut wf = workflow("wf", vec![classical("t1", &[])]);

    // pass 1: first sight
    let first = reconcile(&mut wf, &mut cluster);
    assert_eq!(first.ok().unwrap(), Requeue { after_secs: 1 });
    assert_eq!(phase_of(&wf, "t1"), Some(Phase::Pending));
    assert_eq!(workflow_phase(&wf), Some(Phase::Pending));
    assert!(cluster.has_volume(&"wf-qflow-workspace".to_string()));
    assert_eq!(cluster.volume(&"wf-qflow-workspace".to_string()).unwrap().storage, "1Gi");
    assert_eq!(cluster.job_count(), 0);

    // pass 2: the task starts
    steady(reconcile(&mut wf, &mut cluster));
    assert_eq!(phase_of(&wf, "t1"), Some(Phase::Running));
    assert_eq!(workflow_phase(&wf), Some(Phase::Running));
    assert_eq!(cluster.job_count(), 1);
    assert!(cluster.has_job(&"wf-t1".to_string()));
    assert_eq!(cluster.job(&"wf-t1".to_string()).unwrap().task, "t1");
    assert_eq!(cluster.job(&"wf-t1".to_string()).unwrap().owner, "wf");
    assert_eq!(cluster.bundle_count(), 0);

    // pass 3: the job reports success
    succeed(&mut cluster, "wf-t1");
    steady(reconcile(&mut wf, &mut cluster));
    assert_eq!(phase_of(&wf, "t1"), Some(Phase::Succeeded));
    assert_eq!(workflow_phase(&wf), Some(Phase::Succeeded));
    assert_eq!(cluster.job_count(), 1);
}

#[test]
fn a_dependent_waits_for_its_dependency() {
    let mut cluster = Cluster::new();
    let mut wf = workflow("wf", vec![classical("a", &[]), classical("b", &["a"])]);
    assert!(reconcile(&mut wf, &mut cluster).is_ok());
    steady(reconcile(&mut wf, &mut cluster));
    assert_eq!(phase_of(&wf, "a"), Some(Phase::Running));
    assert_eq!(phase_of(&wf, "b"), Some(Phase::Pending));
    for _ in 0..3 {
        steady(reconcile(&mut wf, &mut cluster));
        assert_eq!(phase_of(&wf, "a"), Some(Phase::Running));
        assert_eq!(phase_of(&wf, "b"), Some(Phase::Pending));
        assert!(!cluster.has_job(&"wf-b".to_string()));
    }
    succeed(&mut cluster, "wf-a");
    steady(reconcile(&mut wf, &mut cluster));
    assert_eq!(phase_of(&wf, "a"), Some(Phase::Succeeded));
    assert_eq!(phase_of(&wf, "b"), Some(Phase::Running));
    assert!(cluster.has_job(&"wf-b".to_string()));
    assert_eq!(workflow_phase(&wf), Some(Phase::Running));
}

#[test]
fn a_cycle_never_leaves_pending() {
    let mut cluster = Cluster::new();
    let mut wf = workflow("wf", vec![classical("a", &["b"]), classical("b", &["a"])]);
    assert_eq!(reconcile(&mut wf, &mut cluster).ok().unwrap(), Requeue { after_secs: 1 });
    let writes = cluster.mutation_count();
    for _ in 0..4 {
        match reconcile(&mut wf, &mut cluster) {
            Err(Error::InvalidWorkflow(InvalidWorkflow::Cycle)) => {}
            _ => panic!("every pass must report the cycle"),
        }
        assert_eq!(phase_of(&wf, "a"), Some(Phase::Pending));
        assert_eq!(phase_of(&wf, "b"), Some(Phase::Pending));
        assert_eq!(workflow_phase(&wf), Some(Phase::Pending));
        assert_eq!(cluster.job_count(), 0);
        assert_eq!(cluster.mutation_count(), writes);
    }
}

#[test]
fn a_dangling_dependency_fails_every_pass() {
    let mut cluster = Cluster::new();
    let mut wf = workflow("wf", vec![classical("x", &["y"])]);
    assert!(reconcile(&mut wf, &mut cluster).is_ok());
    for _ in 0..3 {
        match reconcile(&mut wf, &mut cluster) {
            Err(Error::InvalidWorkflow(InvalidWorkflow::DanglingDependency { task, dependency })) => {
                assert_eq!(task, "x");
                assert_eq!(dependency, "y");
            }
            _ => panic!("every pass must report the dangling dependency"),
        }
        assert_eq!(phase_of(&wf, "x"), Some(Phase::Pending));
        assert_eq!(cluster.job_count(), 0);
    }
}

#[test]
fn a_failed_task_fails_the_workflow_at_once() {
    let mut cluster = Cluster::new();
    let mut wf = workflow(
        "wf",
        vec![classical("a", &[]), classical("b", &["a"]), classical("c", &[])],
    );
    assert!(reconcile(&mut wf, &mut cluster).is_ok());
    steady(reconcile(&mut wf, &mut cluster));
    assert_eq!(phase_of(&wf, "a"), Some(Phase::Running));
    assert_eq!(phase_of(&wf, "c"), Some(Phase::Running));
    fail(&mut cluster, "wf-a");
    steady(reconcile(&mut wf, &mut cluster));
    assert_eq!(phase_of(&wf, "a"), Some(Phase::Failed));
    assert_eq!(phase_of(&wf, "b"), Some(Phase::Pending));
    assert_eq!(phase_of(&wf, "c"), Some(Phase::Running));
    assert_eq!(workflow_phase(&wf), Some(Phase::Failed));
    succeed(&mut cluster, "wf-c");
    steady(reconcile(&mut wf, &mut cluster));
    assert_eq!(phase_of(&wf, "c"), Some(Phase::Succeeded));
    assert_eq!(phase_of(&wf, "b"), Some(Phase::Pending));
    assert_eq!(workflow_phase(&wf), Some(Phase::Failed));
    for _ in 0..3 {
        steady(reconcile(&mut wf, &mut cluster));
        assert_eq!(phase_of(&wf, "b"), Some(Phase::Pending));
        assert!(!cluster.has_job(&"wf-b".to_string()));
    }
}

#[test]
fn a_failure_outweighs_a_success() {
    let both = Some(JobCounts { succeeded: 2, failed: 1 });
    assert_eq!(observe(Phase::Running, both), Phase::Failed);
    assert_eq!(observe(Phase::Running, Some(JobCounts { succeeded: 1, failed: 0 })), Phase::Succeeded);
    assert_eq!(observe(Phase::Running, Some(JobCounts { succeeded: 0, failed: 0 })), Phase::Running);
    assert_eq!(observe(Phase::Running, None), Phase::Running);
    // finished and pending tasks do not move
    assert_eq!(observe(Phase::Succeeded, Some(JobCounts { succeeded: 0, failed: 3 })), Phase::Succeeded);
    assert_eq!(observe(Phase::Failed, Some(JobCounts { succeeded: 3, failed: 0 })), Phase::Failed);
    assert_eq!(observe(Phase::Pending, both), Phase::Pending);
}

#[test]
fn a_second_pass_over_an_unchanged_world_does_nothing() {
    let mut cluster = Cluster::new();
    let mut wf = workflow("wf", vec![classical("a", &[]), quantum("b", &["a"])]);
    assert!(reconcile(&mut wf, &mut cluster).is_ok());
    steady(reconcile(&mut wf, &mut cluster));
    let done = cluster.mutation_count();
    let jobs = cluster.job_count();
    for _ in 0..3 {
        steady(reconcile(&mut wf, &mut cluster));
        assert_eq!(cluster.mutation_count(), done);
        assert_eq!(cluster.job_count(), jobs);
    }
    succeed(&mut cluster, "wf-a");
    steady(reconcile(&mut wf, &mut cluster));
    // one bundle, one job, one status write
    assert_eq!(cluster.mutation_count(), done + 3);
    assert_eq!(cluster.mutation(done), Mutation::BundleCreated);
    assert_eq!(cluster.mutation(done + 1), Mutation::JobCreated);
    assert_eq!(cluster.mutation(done + 2), Mutation::StatusWritten);
    let done = cluster.mutation_count();
    steady(reconcile(&mut wf, &mut cluster));
    assert_eq!(cluster.mutation_count(), done);
    succeed(&mut cluster, "wf-b");
    steady(reconcile(&mut wf, &mut cluster));
    assert_eq!(workflow_phase(&wf), Some(Phase::Succeeded));
    let done = cluster.mutation_count();
    // a finished workflow is still visited, and nothing changes
    for _ in 0..3 {
        steady(reconcile(&mut wf, &mut cluster));
        assert_eq!(cluster.mutation_count(), done);
    }
}

#[test]
fn ensuring_a_job_twice_leaves_one_job() {
    let mut cluster = Cluster::new();
    let wf = workflow("wf", vec![quantum("q", &[])]);
    let task = &wf.spec.tasks[0];
    let bundle = ensure_input_bundle(&mut cluster, &wf, task).ok().unwrap();
    assert_eq!(bundle, Some("wf-q-input".to_string()));
    let first = ensure_execution_job(&mut cluster, &wf, task, bundle.clone()).ok().unwrap();
    assert_eq!(first, "wf-q");
    assert_eq!(cluster.job_count(), 1);
    let after_first = cluster.mutation_count();
    let second = ensure_execution_job(&mut cluster, &wf, task, bundle).ok().unwrap();
    assert_eq!(second, "wf-q");
    assert_eq!(cluster.job_count(), 1);
    assert_eq!(cluster.mutation_count(), after_first);
    assert_eq!(ensure_input_bundle(&mut cluster, &wf, task).ok().unwrap(), Some("wf-q-input".to_string()));
    assert_eq!(cluster.bundle_count(), 1);
    assert_eq!(cluster.bundle(&"wf-q-input".to_string()).unwrap().files.len(), 2);
}

#[test]
fn ensuring_the_shared_volume_twice_leaves_one_volume() {
    let mut cluster = Cluster::new();
    let mut wf = workflow("wf", Vec::new());
    wf.spec.volume = Some(VolumeSpec { size: "5Gi".to_string() });
    assert_eq!(ensure_shared_volume(&mut cluster, &wf).ok().unwrap(), "wf-qflow-workspace");
    assert_eq!(ensure_shared_volume(&mut cluster, &wf).ok().unwrap(), "wf-qflow-workspace");
    assert_eq!(cluster.volume_count(), 1);
    assert_eq!(cluster.volume(&"wf-qflow-workspace".to_string()).unwrap().storage, "5Gi");
    wf.namespace = None;
    assert!(matches!(
        ensure_shared_volume(&mut cluster, &wf),
        Err(Error::MissingObjectKey(ObjectKey::Namespace))
    ));
}

#[test]
fn a_classical_task_has_no_bundle() {
    let mut cluster = Cluster::new();
    let wf = workflow("wf", vec![classical("c", &[])]);
    assert_eq!(ensure_input_bundle(&mut cluster, &wf, &wf.spec.tasks[0]).ok().unwrap(), None);
    assert_eq!(cluster.bundle_count(), 0);
    assert_eq!(cluster.mutation_count(), 0);
}

#[test]
fn the_workflow_phase_is_rolled_up_from_the_tasks() {
    let mut all = StatusMap::new();
    all.insert("a".to_string(), Phase::Succeeded);
    all.insert("b".to_string(), Phase::Succeeded);
    assert_eq!(aggregate(&all), Phase::Succeeded);

    let mut failed = StatusMap::new();
    failed.insert("a".to_string(), Phase::Failed);
    failed.insert("b".to_string(), Phase::Pending);
    failed.insert("c".to_string(), Phase::Running);
    failed.insert("d".to_string(), Phase::Succeeded);
    assert_eq!(aggregate(&failed), Phase::Failed);

    let mut mixed = StatusMap::new();
    mixed.insert("a".to_string(), Phase::Pending);
    mixed.insert("b".to_string(), Phase::Running);
    mixed.insert("c".to_string(), Phase::Succeeded);
    assert_eq!(aggregate(&mixed), Phase::Running);

    let mut pending = StatusMap::new();
    pending.insert("a".to_string(), Phase::Pending);
    assert_eq!(aggregate(&pending), Phase::Running);

    assert_eq!(aggregate(&StatusMap::new()), Phase::Succeeded);
}

#[test]
fn a_status_map_records_each_name_once() {
    let mut map = StatusMap::new();
    map.insert("a".to_string(), Phase::Pending);
    map.insert("b".to_string(), Phase::Pending);
    map.insert("a".to_string(), Phase::Running);
    assert_eq!(map.len(), 2);
    assert_eq!(map.get(&"a".to_string()), Some(Phase::Running));
    assert_eq!(map.get(&"b".to_string()), Some(Phase::Pending));
    assert_eq!(map.get(&"c".to_string()), None);
    assert_eq!(map.position(&"b".to_string()), Some(1));
    assert_eq!(map.name_at(0), "a");
    assert_eq!(map.phase_at(0), Phase::Running);
    map.set_at(1, Phase::Failed);
    assert_eq!(map.get(&"b".to_string()), Some(Phase::Failed));
    let copy = map.duplicate();
    assert_eq!(copy.len(), 2);
    assert_eq!(copy.get(&"b".to_string()), Some(Phase::Failed));
}

#[test]
fn phases_are_recorded_by_their_words() {
    for phase in [Phase::Pending, Phase::Running, Phase::Succeeded, Phase::Failed] {
        assert_eq!(Phase::from_word(&phase.word()), Some(phase));
    }
    assert_eq!(Phase::Succeeded.word(), "Succeeded");
    assert_eq!(Phase::from_word(&"Done".to_string()), None);
    assert!(Phase::Failed.is_terminal());
    assert!(Phase::Succeeded.is_terminal());
    assert!(!Phase::Running.is_terminal());
    assert!(!Phase::Pending.is_terminal());
}

#[test]
fn a_task_starts_only_when_every_dependency_has_succeeded() {
    let tasks = vec![classical("a", &[]), classical("b", &[]), classical("c", &["a", "b"])];
    let mut statuses = StatusMap::new();
    statuses.insert("a".to_string(), Phase::Succeeded);
    statuses.insert("b".to_string(), Phase::Running);
    fill_missing(&tasks, &mut statuses);
    assert_eq!(statuses.len(), 3);
    assert_eq!(statuses.get(&"c".to_string()), Some(Phase::Pending));
    assert!(!can_start(&tasks, &statuses, &"c".to_string()));
    assert!(!can_start(&tasks, &statuses, &"a".to_string()));
    assert!(!can_start(&tasks, &statuses, &"unknown".to_string()));
    statuses.insert("b".to_string(), Phase::Succeeded);
    assert!(can_start(&tasks, &statuses, &"c".to_string()));
    start_all(&tasks, &mut statuses);
    assert_eq!(statuses.get(&"c".to_string()), Some(Phase::Running));
    assert_eq!(statuses.get(&"a".to_string()), Some(Phase::Succeeded));
}

#[test]
fn a_workflow_without_identity_is_malformed() {
    let mut cluster = Cluster::new();
    let mut wf = workflow("wf", vec![classical("a", &[])]);
    wf.namespace = None;
    assert!(matches!(
        reconcile(&mut wf, &mut cluster),
        Err(Error::MissingObjectKey(ObjectKey::Namespace))
    ));
    wf.namespace = Some("default".to_string());
    wf.name = None;
    assert!(matches!(
        reconcile(&mut wf, &mut cluster),
        Err(Error::MissingObjectKey(ObjectKey::Name))
    ));
    assert!(wf.status.is_none());
    assert_eq!(cluster.mutation_count(), 0);
    assert_eq!(on_error(&Error::KubeError), Requeue { after_secs: 5 });
}

#[test]
fn a_task_added_later_is_recorded_and_started() {
    let mut cluster = Cluster::new();
    let mut wf = workflow("wf", vec![classical("a", &[])]);
    assert!(reconcile(&mut wf, &mut cluster).is_ok());
    steady(reconcile(&mut wf, &mut cluster));
    wf.spec.tasks.push(classical("late", &[]));
    steady(reconcile(&mut wf, &mut cluster));
    assert_eq!(phase_of(&wf, "late"), Some(Phase::Running));
    assert!(cluster.has_job(&"wf-late".to_string()));
}

#[test]
fn a_job_that_exists_is_not_created_again() {
    let mut cluster = Cluster::new();
    let mut wf = workflow("wf", vec![classical("a", &[])]);
    assert!(reconcile(&mut wf, &mut cluster).is_ok());
    ensure_execution_job(&mut cluster, &wf, &wf.spec.tasks[0], None).ok().unwrap();
    let before = cluster.mutation_count();
    steady(reconcile(&mut wf, &mut cluster));
    assert_eq!(phase_of(&wf, "a"), Some(Phase::Running));
    assert_eq!(cluster.job_count(), 1);
    // only the status was written
    assert_eq!(cluster.mutation_count(), before + 1);
    assert_eq!(cluster.mutation(before), Mutation::StatusWritten);
}

#[test]
fn the_machine_asks_one_call_at_a_time() {
    let mut wf = workflow("wf", vec![quantum("q", &[])]);
    let mut statuses = StatusMap::new();
    statuses.insert("q".to_string(), Phase::Pending);
    wf.status = Some(QuantumWorkflowStatus { phase: Some(Phase::Pending), task_statuses: Some(statuses) });

    let pass = match Pass::begin(&wf) {
        Step::Ask(pass, Request::GetBundle(name)) => {
            assert_eq!(name, "wf-q-input");
            pass
        }
        _ => panic!("the bundle is looked up first"),
    };
    let pass = match pass.step(Response::Missing) {
        Step::Ask(pass, Request::CreateBundle(bundle)) => {
            assert_eq!(bundle.name, "wf-q-input");
            pass
        }
        _ => panic!("a missing bundle is created"),
    };
    // a bundle that came into being meanwhile is as good as a created one
    let pass = match pass.step(Response::AlreadyExists) {
        Step::Ask(pass, Request::GetJob(name)) => {
            assert_eq!(name, "wf-q");
            pass
        }
        _ => panic!("then the job is looked up"),
    };
    let pass = match pass.step(Response::Missing) {
        Step::Ask(pass, Request::CreateJob(job)) => {
            assert_eq!(job.name, "wf-q");
            assert_eq!(job.volumes.len(), 2);
            pass
        }
        _ => panic!("a missing job is created"),
    };
    let pass = match pass.step(Response::Done) {
        Step::Ask(pass, Request::WriteStatus(status)) => {
            assert_eq!(status.phase, Some(Phase::Running));
            assert_eq!(
                status.task_statuses.as_ref().unwrap().get(&"q".to_string()),
                Some(Phase::Running)
            );
            pass
        }
        _ => panic!("then the status is written"),
    };
    match pass.step(Response::Done) {
        Step::Finish(Ok(requeue)) => assert_eq!(requeue, Requeue { after_secs: 15 }),
        _ => panic!("the pass ends"),
    }
}

#[test]
fn a_failed_call_fails_the_pass() {
    let mut wf = workflow("wf", vec![classical("a", &[])]);
    // first sight: the volume cannot be created
    let pass = match Pass::begin(&wf) {
        Step::Ask(pass, Request::GetVolume(name)) => {
            assert_eq!(name, "wf-qflow-workspace");
            pass
        }
        _ => panic!("the volume is looked up first"),
    };
    let pass = match pass.step(Response::Failed) {
        Step::Ask(pass, Request::CreateVolume(_)) => pass,
        _ => panic!("a volume that is not found is created"),
    };
    assert!(matches!(pass.step(Response::Failed), Step::Finish(Err(Error::KubeError))));

    // steady pass: the job cannot be created
    let mut statuses = StatusMap::new();
    statuses.insert("a".to_string(), Phase::Pending);
    wf.status = Some(QuantumWorkflowStatus { phase: Some(Phase::Pending), task_statuses: Some(statuses) });
    let pass = match Pass::begin(&wf) {
        Step::Ask(pass, Request::GetJob(_)) => pass,
        _ => panic!("the job is looked up"),
    };
    let pass = match pass.step(Response::Missing) {
        Step::Ask(pass, Request::CreateJob(_)) => pass,
        _ => panic!("the job is created"),
    };
    assert!(matches!(pass.step(Response::Failed), Step::Finish(Err(Error::KubeError))));
}

#[test]
fn a_running_task_whose_job_is_gone_stays_running() {
    let mut wf = workflow("wf", vec![classical("a", &[])]);
    let mut statuses = StatusMap::new();
    statuses.insert("a".to_string(), Phase::Running);
    wf.status = Some(QuantumWorkflowStatus { phase: Some(Phase::Running), task_statuses: Some(statuses) });
    let pass = match Pass::begin(&wf) {
        Step::Ask(pass, Request::GetJobStatus(name)) => {
            assert_eq!(name, "wf-a");
            pass
        }
        _ => panic!("the running task is polled"),
    };
    match pass.step(Response::Missing) {
        Step::Finish(Ok(requeue)) => assert_eq!(requeue, Requeue { after_secs: 15 }),
        _ => panic!("nothing changed, so nothing is written"),
    }
}

#[test]
fn a_pass_reports_what_it_wrote() {
    let mut cluster = Cluster::new();
    let wf = workflow("wf", vec![classical("a", &[])]);
    let report = run_pass(&wf, &mut cluster);
    assert!(report.result.is_ok());
    let status = report.written.unwrap();
    assert_eq!(status.phase, Some(Phase::Pending));
    assert_eq!(status.task_statuses.unwrap().get(&"a".to_string()), Some(Phase::Pending));
}

#[test]
fn a_training_task_gets_a_bundle_and_a_job() {
    let mut cluster = Cluster::new();
    let mut wf = workflow(
        "wf",
        vec![QFlowTask {
            name: "train".to_string(),
            depends_on: None,
            spec: QFlowTaskSpec::Qcbm(QcbmTaskSpec {
                image: "qcbm:1".to_string(),
                ansatz: "ring".to_string(),
                training_data: vec!["01".to_string(), "10".to_string()],
                optimizer: None,
            }),
        }],
    );
    assert!(reconcile(&mut wf, &mut cluster).is_ok());
    steady(reconcile(&mut wf, &mut cluster));
    assert_eq!(phase_of(&wf, "train"), Some(Phase::Running));
    let bundle = cluster.bundle(&"wf-train-input".to_string()).unwrap();
    assert_eq!(bundle.files[1].content, "[\"01\",\"10\"]");
    let job = cluster.job(&"wf-train".to_string()).unwrap();
    assert_eq!(job.container.args.as_ref().unwrap()[3], "[\"01\",\"10\"]");
    assert_eq!(job.container.image, "qcbm:1");
}
