//! What a simulation run reports at its start.

use vstd::prelude::*;
use vstd::string::*;
use crate::qasm::{parse_qasm, read_qasm};

verus! {

/// The size of a simulation run: how many qubits it has and how many gates
/// it applies.
#[derive(Clone, Copy, Debug, PartialEq, Eq, Structural)]
pub struct SimulationStartInfo {
    pub num_qubits: usize,
    pub num_gates: usize,
}

/// How the run of the circuit that `qasm_input` writes starts. There is no
/// run where the text declares no qubits.
pub fn simulation_start(qasm_input: &str) -> (r: Option<SimulationStartInfo>)
    ensures
        r == (if read_qasm(qasm_input@).num_qubits == 0 {
            None
        } else {
            Some(
                SimulationStartInfo {
                    num_qubits: read_qasm(qasm_input@).num_qubits,
                    num_gates: read_qasm(qasm_input@).gates.len() as usize,
                },
            )
        }),
{
    let (num_qubits, gates) = parse_qasm(qasm_input);
    if num_qubits == 0 {
        return None;
    }
    assert(gates.deep_view().len() == gates.len());
    Some(SimulationStartInfo { num_qubits, num_gates: gates.len() })
}

} // verus!
