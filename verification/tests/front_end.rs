use qflow::backend::{job_phase, qasm_task, task_phase, task_phases, JobProgress, JobSummary};
use qflow::error::{Error, ObjectKey};
use qflow::manifest::{workflow_volume, VolumeSource};
use qflow::phase::{JobCounts, Phase};
use qflow::svm::{
    build_data_gen_job, build_pvc, default_c_param, default_noise, default_samples,
    default_test_size, error_policy, reconcile, reconcile_step, DatasetSpec, KernelSpec,
    OutputSpec, QuantumSVMWorkflow, QuantumSVMWorkflowSpec, QuantumSVMWorkflowStatus, SvmNext,
    SvmParameters, SvmRequest, SvmResponse, SvmStage, SvmStep, TrainerSpec,
};
use qflow::types::{QFlowTask, QFlowTaskSpec, VolumeSpec};

fn progress(succeeded: i32, failed: i32, active: i32) -> Option<JobProgress> {
    Some(JobProgress { succeeded, failed, active })
}

fn job(owner: &str, task: Option<&str>, progress: Option<JobProgress>) -> JobSummary {
    JobSummary { owners: vec![owner.to_string()], task: task.map(|t| t.to_string()), progress }
}

#[test]
fn a_job_shows_as_a_phase() {
    assert_eq!(job_phase(progress(1, 1, 1)), Phase::Succeeded);
    assert_eq!(job_phase(progress(0, 2, 1)), Phase::Failed);
    assert_eq!(job_phase(progress(0, 0, 1)), Phase::Running);
    assert_eq!(job_phase(progress(0, 0, 0)), Phase::Pending);
    assert_eq!(job_phase(None), Phase::Pending);
}

#[test]
fn tasks_show_the_phase_of_their_job() {
    let jobs = vec![
        job("wf", Some("a"), progress(1, 0, 0)),
        job("other", Some("b"), progress(1, 0, 0)),
        job("wf", Some("b"), progress(0, 0, 1)),
        job("wf", None, progress(0, 1, 0)),
        job("wf", Some("a"), progress(0, 1, 0)),
    ];
    let wf = "wf".to_string();
    assert_eq!(task_phase(&jobs, &wf, &"a".to_string()), Phase::Failed);
    assert_eq!(task_phase(&jobs, &wf, &"b".to_string()), Phase::Running);
    assert_eq!(task_phase(&jobs, &wf, &"c".to_string()), Phase::Pending);
    let tasks: Vec<QFlowTask> = ["b", "c", "a"]
        .iter()
        .map(|n| QFlowTask {
            name: n.to_string(),
            depends_on: None,
            spec: QFlowTaskSpec::Classical { image: String::new() },
        })
        .collect();
    assert_eq!(
        task_phases(&jobs, &wf, &tasks),
        vec![
            ("b".to_string(), Phase::Running),
            ("c".to_string(), Phase::Pending),
            ("a".to_string(), Phase::Failed),
        ]
    );
}

#[test]
fn qasm_handed_in_becomes_a_quantum_task() {
    let task = qasm_task(&"h q[0];".to_string());
    assert_eq!(task.name, "qasm-task");
    assert!(task.depends_on.is_none());
    match task.spec {
        QFlowTaskSpec::Quantum { image, circuit, params } => {
            assert_eq!(image, "your-quantum-image:latest");
            assert_eq!(circuit, "h q[0];");
            assert_eq!(params, "");
        }
        _ => panic!("a quantum task"),
    }
}

#[test]
fn the_workflow_volume_has_a_size() {
    assert_eq!(workflow_volume(&None).size, "1Gi");
    assert_eq!(workflow_volume(&Some(VolumeSpec { size: "3Gi".to_string() })).size, "3Gi");
}

fn experiment(phase: Option<&str>) -> QuantumSVMWorkflow {
    QuantumSVMWorkflow {
        name: Some("exp".to_string()),
        namespace: Some("lab".to_string()),
        spec: QuantumSVMWorkflowSpec {
            dataset: DatasetSpec {
                generator: "make_moons".to_string(),
                samples: default_samples(),
                noise: default_noise(),
                test_size: default_test_size(),
            },
            kernel: KernelSpec { image: "kernel:1".to_string() },
            trainer: TrainerSpec { svm_parameters: SvmParameters { c: default_c_param() } },
            output: OutputSpec { model_name: "m.pkl".to_string(), plot_name: "p.png".to_string() },
        },
        status: phase.map(|p| QuantumSVMWorkflowStatus {
            phase: Some(p.to_string()),
            message: None,
        }),
    }
}

fn written(step: SvmStep) -> (SvmStage, String, String) {
    match step {
        SvmStep::Ask(stage, SvmRequest::WriteStatus(status)) => {
            (stage, status.phase.unwrap(), status.message.unwrap())
        }
        _ => panic!("a status is written"),
    }
}

#[test]
fn defaults_of_an_experiment() {
    assert_eq!(default_samples(), 100);
    assert_eq!(default_noise(), 0.3f64.to_string());
    assert_eq!(default_test_size(), 0.3f64.to_string());
    assert_eq!(default_c_param(), 1.0f64.to_string());
}

#[test]
fn a_new_experiment_gets_its_volume() {
    let qsvm = experiment(None);
    let stage = match reconcile(&qsvm) {
        SvmStep::Ask(stage, SvmRequest::CreateVolume(claim)) => {
            assert_eq!(claim.name, "exp-pvc");
            assert_eq!(claim.owner, "exp");
            assert_eq!(claim.storage, "1Gi");
            assert_eq!(claim.access_mode, "ReadWriteOnce");
            stage
        }
        _ => panic!("the volume is created"),
    };
    assert_eq!(stage, SvmStage::VolumeCreate);
    let (stage, phase, message) = written(reconcile_step(&qsvm, stage, SvmResponse::Done));
    assert_eq!(phase, "CreatingVolume");
    assert_eq!(message, "PersistentVolumeClaim created");
    match reconcile_step(&qsvm, stage, SvmResponse::Done) {
        SvmStep::Finish(Ok(next)) => assert_eq!(next, SvmNext::After { secs: 5 }),
        _ => panic!("the pass ends"),
    }
    assert!(matches!(
        reconcile_step(&qsvm, SvmStage::VolumeCreate, SvmResponse::Failed),
        SvmStep::Finish(Err(Error::KubeError))
    ));
    // a recorded phase of Pending is the same
    assert!(matches!(
        reconcile(&experiment(Some("Pending"))),
        SvmStep::Ask(SvmStage::VolumeCreate, SvmRequest::CreateVolume(_))
    ));
}

#[test]
fn data_is_generated_once_the_volume_is_bound() {
    let qsvm = experiment(Some("CreatingVolume"));
    let stage = match reconcile(&qsvm) {
        SvmStep::Ask(stage, SvmRequest::GetVolume(name)) => {
            assert_eq!(name, "exp-pvc");
            stage
        }
        _ => panic!("the volume is looked up"),
    };
    match reconcile_step(&qsvm, stage, SvmResponse::Volume { bound: false }) {
        SvmStep::Finish(Ok(next)) => assert_eq!(next, SvmNext::After { secs: 5 }),
        _ => panic!("the pass waits"),
    }
    let stage = match reconcile_step(&qsvm, stage, SvmResponse::Volume { bound: true }) {
        SvmStep::Ask(stage, SvmRequest::CreateJob(job)) => {
            assert_eq!(job.name, "exp-datagen");
            assert_eq!(job.backoff_limit, 2);
            assert_eq!(job.restart_policy, "Never");
            assert_eq!(job.container.name, "data-generator");
            assert_eq!(job.container.image, "python:3.9-slim");
            let command = job.container.command.unwrap();
            assert_eq!(command[0], "sh");
            assert_eq!(command[1], "-c");
            assert_eq!(
                command[2],
                "pip install numpy scikit-learn && python -c 'import numpy as np; from sklearn.datasets import make_moons; X, y = make_moons(n_samples=100, noise=0.3); np.save(\"/data/X.npy\", X); np.save(\"/data/y.npy\", y)'"
            );
            assert_eq!(job.container.mounts[0].mount_path, "/data");
            match &job.volumes[0].source {
                VolumeSource::Claim { claim_name } => assert_eq!(claim_name, "exp-pvc"),
                _ => panic!("the work directory is the claim"),
            }
            stage
        }
        _ => panic!("the job is created"),
    };
    let (stage, phase, message) = written(reconcile_step(&qsvm, stage, SvmResponse::Done));
    assert_eq!(phase, "GeneratingData");
    assert_eq!(message, "Data generation job started");
    match reconcile_step(&qsvm, stage, SvmResponse::Done) {
        SvmStep::Finish(Ok(next)) => assert_eq!(next, SvmNext::After { secs: 10 }),
        _ => panic!("the pass ends"),
    }
    assert!(matches!(
        reconcile_step(&qsvm, SvmStage::VolumeLookup, SvmResponse::Failed),
        SvmStep::Finish(Err(Error::KubeError))
    ));
}

#[test]
fn training_follows_the_data() {
    let qsvm = experiment(Some("GeneratingData"));
    let stage = match reconcile(&qsvm) {
        SvmStep::Ask(stage, SvmRequest::GetJob(name)) => {
            assert_eq!(name, "exp-datagen");
            stage
        }
        _ => panic!("the job is looked up"),
    };
    let done = SvmResponse::Job(JobCounts { succeeded: 1, failed: 1 });
    let (after, phase, message) = written(reconcile_step(&qsvm, stage, done));
    assert_eq!(phase, "TrainingModel");
    assert_eq!(message, "Data generation complete, starting training.");
    assert_eq!(after, SvmStage::Status { then: SvmNext::After { secs: 10 } });
    let failed = SvmResponse::Job(JobCounts { succeeded: 0, failed: 1 });
    let (after, phase, message) = written(reconcile_step(&qsvm, stage, failed));
    assert_eq!(phase, "Failed");
    assert_eq!(message, "Data generation job failed.");
    match reconcile_step(&qsvm, after, SvmResponse::Done) {
        SvmStep::Finish(Ok(next)) => assert_eq!(next, SvmNext::AwaitChange),
        _ => panic!("the pass ends"),
    }
    let idle = SvmResponse::Job(JobCounts { succeeded: 0, failed: 0 });
    assert!(matches!(
        reconcile_step(&qsvm, stage, idle),
        SvmStep::Finish(Ok(SvmNext::After { secs: 10 }))
    ));
}

#[test]
fn a_finished_experiment_waits_for_a_change() {
    for phase in ["Completed", "Failed"] {
        assert!(matches!(
            reconcile(&experiment(Some(phase))),
            SvmStep::Finish(Ok(SvmNext::AwaitChange))
        ));
    }
    for phase in ["TrainingModel", "Whatever"] {
        assert!(matches!(
            reconcile(&experiment(Some(phase))),
            SvmStep::Finish(Ok(SvmNext::After { secs: 10 }))
        ));
    }
    let mut homeless = experiment(None);
    homeless.namespace = None;
    assert!(matches!(
        reconcile(&homeless),
        SvmStep::Finish(Err(Error::MissingObjectKey(ObjectKey::Namespace)))
    ));
    assert_eq!(error_policy(&Error::KubeError), SvmNext::After { secs: 5 });
    let claim = build_pvc(&"o".to_string(), &"o-pvc".to_string());
    assert_eq!(claim.name, "o-pvc");
    let mut nameless = experiment(None);
    nameless.name = None;
    assert_eq!(build_data_gen_job(&nameless, &"x".to_string()).ok().unwrap().name, "-datagen");
}
