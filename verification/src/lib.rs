//! Orchestration of quantum and classical computation workflows on a
//! cluster: a workflow is a set of named tasks that wait for one another, and
//! a control loop starts each task once all it waits for has succeeded.
//!
//! The heart of the crate is the workflow reconciler: `graph` validates and
//! orders the tasks, `phase` and `schedule` hold the task state machine,
//! `manifest` and `provision` build and ensure the child resources,
//! `machine` is one reconcile pass as a state machine, `reconciler` runs it
//! against the control plane held in memory by `cluster`, and `laws` states
//! what holds of every pass. Around it stand the readers and writers of
//! circuits (`qasm`, `circuit`, `encoding`, `gate`), Hamiltonians, and the
//! reconcile pass of the quantum SVM experiment (`svm`).

pub mod api;
pub mod backend;
pub mod chars;
pub mod circuit;
pub mod cluster;
pub mod control;
pub mod encoding;
pub mod error;
pub mod events;
pub mod facade;
pub mod gate;
pub mod graph;
pub mod hamiltonian;
pub mod json;
pub mod laws;
pub mod machine;
pub mod manifest;
pub mod number;
pub mod order;
pub mod phase;
pub mod provision;
pub mod qasm;
pub mod qcl;
pub mod reconciler;
pub mod schedule;
pub mod svm;
pub mod text;
pub mod types;
