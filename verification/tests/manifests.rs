use qflow::error::Error;
use qflow::manifest::{
    build_bundle, build_claim, bundle_name, claim_name, create_job_for_task, job_for_task,
    job_name, task_name_label, training_json, VolumeSource,
};
use qflow::types::{
    default_epochs, default_learning_rate, QFlowTask, QFlowTaskSpec, QcbmOptimizerSpec,
    QcbmTaskSpec, QuantumWorkflow, QuantumWorkflowSpec, VolumeSpec,
};

fn workflow(name: &str) -> QuantumWorkflow {
    QuantumWorkflow {
        name: Some(name.to_string()),
        namespace: Some("default".to_string()),
        spec: QuantumWorkflowSpec { volume: None, tasks: Vec::new() },
        status: None,
    }
}

fn strings(items: &[&str]) -> Vec<String> {
    items.iter().map(|s| s.to_string()).collect()
}

#[test]
fn names_are_derived_from_workflow_and_task() {
    let wf = "wf".to_string();
    let t = "t1".to_string();
    assert_eq!(job_name(&wf, &t), "wf-t1");
    assert_eq!(bundle_name(&wf, &t), "wf-t1-input");
    assert_eq!(claim_name(&wf), "wf-qflow-workspace");
    assert_eq!(task_name_label(), "qflow.io/task-name");
}

#[test]
fn the_shared_volume_defaults_to_one_gibibyte() {
    let claim = build_claim(&"wf".to_string(), &None);
    assert_eq!(claim.name, "wf-qflow-workspace");
    assert_eq!(claim.owner, "wf");
    assert_eq!(claim.access_mode, "ReadWriteOnce");
    assert_eq!(claim.storage, "1Gi");
    let sized = build_claim(&"wf".to_string(), &Some(VolumeSpec { size: "20Gi".to_string() }));
    assert_eq!(sized.storage, "20Gi");
}

#[test]
fn a_classical_job_runs_the_image_of_the_task() {
    let task = QFlowTask {
        name: "prep".to_string(),
        depends_on: None,
        spec: QFlowTaskSpec::Classical { image: "prep:1".to_string() },
    };
    let job = create_job_for_task(&workflow("wf"), &task, None).ok().unwrap();
    assert_eq!(job.name, "wf-prep");
    assert_eq!(job.owner, "wf");
    assert_eq!(job.task, "prep");
    assert_eq!(job.restart_policy, "Never");
    assert_eq!(job.backoff_limit, 4);
    assert_eq!(job.container.name, "task-runner");
    assert_eq!(job.container.image, "prep:1");
    assert_eq!(job.container.command, Some(strings(&["/qsim"])));
    assert_eq!(job.container.args, None);
    assert_eq!(job.container.image_pull_policy, "Never");
    assert_eq!(job.container.mounts.len(), 1);
    assert_eq!(job.container.mounts[0].name, "qflow-workspace");
    assert_eq!(job.container.mounts[0].mount_path, "/workspace");
    assert!(!job.container.mounts[0].read_only);
    assert_eq!(job.volumes.len(), 1);
    assert_eq!(job.volumes[0].name, "qflow-workspace");
    match &job.volumes[0].source {
        VolumeSource::Claim { claim_name } => assert_eq!(claim_name, "wf-qflow-workspace"),
        _ => panic!("the workspace is backed by the shared claim"),
    }
    assert!(build_bundle(&"wf".to_string(), &task, &String::new()).is_none());
}

#[test]
fn a_quantum_job_mounts_its_bundle_read_only() {
    let task = QFlowTask {
        name: "sim".to_string(),
        depends_on: None,
        spec: QFlowTaskSpec::Quantum {
            image: "ignored:1".to_string(),
            circuit: "h q[0];".to_string(),
            params: "{}".to_string(),
        },
    };
    let job =
        create_job_for_task(&workflow("wf"), &task, Some("wf-sim-input".to_string())).ok().unwrap();
    assert_eq!(job.name, "wf-sim");
    assert_eq!(job.container.image, "qsim:latest");
    assert_eq!(job.container.command, Some(strings(&["/qsim"])));
    assert_eq!(
        job.container.args,
        Some(strings(&["--input-file", "/workspace/input/circuit.qasm"]))
    );
    assert_eq!(job.container.mounts.len(), 2);
    assert_eq!(job.container.mounts[1].name, "qflow-input");
    assert_eq!(job.container.mounts[1].mount_path, "/workspace/input");
    assert!(job.container.mounts[1].read_only);
    assert_eq!(job.volumes.len(), 2);
    assert_eq!(job.volumes[1].name, "qflow-input");
    match &job.volumes[1].source {
        VolumeSource::Bundle { bundle_name } => assert_eq!(bundle_name, "wf-sim-input"),
        _ => panic!("the input is backed by the bundle"),
    }
    let without = create_job_for_task(&workflow("wf"), &task, None).ok().unwrap();
    assert_eq!(without.volumes.len(), 1);
    assert_eq!(without.container.mounts.len(), 2);

    let bundle = build_bundle(&"wf".to_string(), &task, &String::new()).unwrap();
    assert_eq!(bundle.name, "wf-sim-input");
    assert_eq!(bundle.owner, "wf");
    assert_eq!(bundle.files.len(), 2);
    assert_eq!(bundle.files[0].name, "circuit.qasm");
    assert_eq!(bundle.files[0].content, "h q[0];");
    assert_eq!(bundle.files[1].name, "params.json");
    assert_eq!(bundle.files[1].content, "{}");
}

fn training_task(optimizer: Option<QcbmOptimizerSpec>) -> QFlowTask {
    QFlowTask {
        name: "train".to_string(),
        depends_on: None,
        spec: QFlowTaskSpec::Qcbm(QcbmTaskSpec {
            image: "qcbm:2".to_string(),
            ansatz: "ring".to_string(),
            training_data: strings(&["0101", "10\"10"]),
            optimizer,
        }),
    }
}

#[test]
fn a_training_job_defaults_to_adam() {
    let task = training_task(None);
    let job = create_job_for_task(&workflow("wf"), &task, None).ok().unwrap();
    assert_eq!(job.container.image, "qcbm:2");
    assert_eq!(job.container.command, None);
    assert_eq!(
        job.container.args,
        Some(strings(&[
            "--ansatz",
            "ring",
            "--training-data",
            "[\"0101\",\"10\\\"10\"]",
            "--optimizer",
            "Adam",
            "--epochs",
            "100",
            "--learning-rate",
            "0.01",
        ]))
    );
    assert_eq!(job.container.mounts.len(), 1);
    assert_eq!(job.volumes.len(), 1);
    assert_eq!(default_epochs(), 100);
    assert_eq!(default_learning_rate(), "0.01");
    assert_eq!(default_learning_rate(), 0.01f64.to_string());
}

#[test]
fn a_training_job_carries_its_optimizer() {
    let task = training_task(Some(QcbmOptimizerSpec {
        name: "SGD".to_string(),
        epochs: -7,
        learning_rate: "0.5".to_string(),
        initial_params: Some("[0.1,0.2]".to_string()),
    }));
    let job = job_for_task(
        &"wf".to_string(),
        &task,
        Some("wf-train-input".to_string()),
        &"[]".to_string(),
    );
    assert_eq!(
        job.container.args,
        Some(strings(&[
            "--ansatz",
            "ring",
            "--training-data",
            "[]",
            "--optimizer",
            "SGD",
            "--epochs",
            "-7",
            "--learning-rate",
            "0.5",
            "--initial-params",
            "[0.1,0.2]",
        ]))
    );
    // only a quantum job mounts its bundle
    assert_eq!(job.volumes.len(), 1);
}

#[test]
fn training_data_is_written_out_as_a_json_array() {
    let task = training_task(None);
    match training_json(&task) {
        Ok(text) => {
            assert_eq!(text, "[\"0101\",\"10\\\"10\"]");
            assert_eq!(text, serde_json::to_string(&strings(&["0101", "10\"10"])).unwrap());
        }
        Err(_) => panic!("a list of strings can be written out"),
    }
    let classical = QFlowTask {
        name: "c".to_string(),
        depends_on: None,
        spec: QFlowTaskSpec::Classical { image: "i".to_string() },
    };
    assert!(matches!(training_json(&classical), Ok(text) if text.is_empty()));

    let bundle = build_bundle(&"wf".to_string(), &task, &"[\"0101\"]".to_string()).unwrap();
    assert_eq!(bundle.name, "wf-train-input");
    assert_eq!(bundle.files.len(), 2);
    assert_eq!(bundle.files[0].name, "ansatz.txt");
    assert_eq!(bundle.files[0].content, "ring");
    assert_eq!(bundle.files[1].name, "training_data.json");
    assert_eq!(bundle.files[1].content, "[\"0101\"]");
}

#[test]
fn errors_are_told_in_words() {
    assert_eq!(Error::KubeError.message(), "Kubernetes API Error");
    assert_eq!(
        Error::MissingObjectKey(qflow::error::ObjectKey::Namespace).message(),
        "MissingObjectKey: namespace"
    );
    assert_eq!(
        Error::InvalidWorkflow(qflow::error::InvalidWorkflow::Cycle).message(),
        "Workflow is invalid: Workflow has a cycle"
    );
}
