use qflow::number::Real;
use qflow::api::SimError;
use qflow::circuit::{circuit_to_qasm, gates_to_circuit, Circuit};
use qflow::events::{simulation_start, SimulationStartInfo};
use qflow::facade::{run_qasm_counts, run_qasm_measure, write_bitstring};
use qflow::gate::Gate;
use qflow::qasm::{infer_qubits_from_gates, parse_qasm};

#[test]
fn test_qasm_parser_with_measure() {
    let qasm_input = r#"
            OPENQASM 2.0;
            qreg q[2];
            h q[0];
            cx q[0],q[1];
            measure q -> c;
        "#;
    let (num_qubits, gates) = parse_qasm(qasm_input);

    assert_eq!(num_qubits, 2);
    assert_eq!(gates.len(), 3);
    assert_eq!(gates[0], Gate::H { qubit: 0 });
    assert_eq!(gates[1], Gate::CX { control: 0, target: 1 });
    assert_eq!(gates[2], Gate::Measure);
}

#[test]
fn test_gates_to_circuit() {
    let gates = vec![
        Gate::H { qubit: 0 },
        Gate::CX { control: 0, target: 1 },
        Gate::X { qubit: 1 },
    ];
    let circuit = gates_to_circuit(gates);
    assert_eq!(circuit.num_moments(), 3);
    assert_eq!(circuit.num_qubits, 2);
}

#[test]
fn circuit_to_qasm_test() {
    let mut circuit = Circuit::new();
    circuit.num_qubits = 2;
    circuit.add_moment(vec![Gate::H { qubit: 0 }]);
    circuit.add_moment(vec![Gate::CX { control: 0, target: 1 }]);
    circuit.add_moment(vec![Gate::X { qubit: 1 }]);

    let qasm = circuit_to_qasm(&circuit);
    let expected_qasm =
        "OPENQASM 2.0;\ninclude \"qelib1.inc\";\nqreg q[2];\nH q[0];\nCX q[0],q[1];\nX q[1];\n";
    assert_eq!(qasm, expected_qasm);
}

#[test]
fn parse_qasm_passes_over_what_it_cannot_read() {
    let text = "qreg q[3];\r\nh q[0];\nh q[x];\nx q[1]\ny  q[ 2];\ny q[2];\nz q[+1];\ncx q[0], q[2];\ncx q0 q1;\ncx q[0],q[1],q[2];\nqreg q]2[;\ncreg c[3];\nmeasure q[0] -> c[0];\nmeasure q[1] -> c[1];\nswap q[0],q[1];\n";
    let (num_qubits, gates) = parse_qasm(text);
    assert_eq!(num_qubits, 3);
    assert_eq!(
        gates,
        vec![
            Gate::H { qubit: 0 },
            Gate::X { qubit: 1 },
            Gate::Y { qubit: 2 },
            Gate::Z { qubit: 1 },
            Gate::CX { control: 0, target: 2 },
            Gate::Measure,
        ]
    );
}

#[test]
fn parse_qasm_of_nothing_is_nothing() {
    let (num_qubits, gates) = parse_qasm("");
    assert_eq!(num_qubits, 0);
    assert!(gates.is_empty());
}

#[test]
fn the_last_register_declaration_counts() {
    let (num_qubits, _) = parse_qasm("qreg q[2];\nqreg r[5];\nqreg s[many];");
    assert_eq!(num_qubits, 5);
}

#[test]
fn gates_write_themselves() {
    assert_eq!(Gate::I { qubit: 3 }.to_string(), "I q[3]");
    assert_eq!(Gate::H { qubit: 0 }.to_string(), "H q[0]");
    assert_eq!(Gate::CX { control: 10, target: 2 }.to_string(), "CX q[10],q[2]");
    assert_eq!(Gate::CNOT { control: 1, target: 0 }.to_string(), "CX q[1],q[0]");
    assert_eq!(
        Gate::RY { qubit: 4, theta: Real::from_text("0.25").unwrap() }.to_string(),
        "RY q[4],0.25"
    );
    assert_eq!(Gate::Measure.to_string(), "Measure");
}

#[test]
fn gates_name_their_targets() {
    assert_eq!(Gate::X { qubit: 5 }.target(), vec![5]);
    assert_eq!(Gate::CX { control: 1, target: 7 }.target(), vec![7]);
    assert_eq!(Gate::I { qubit: 5 }.target(), Vec::<usize>::new());
    assert_eq!(Gate::Measure.target(), Vec::<usize>::new());
}

#[test]
fn qubits_are_inferred_from_hadamards_rotations_and_cnots() {
    let gates = vec![
        Gate::H { qubit: 1 },
        Gate::X { qubit: 9 },
        Gate::CX { control: 8, target: 7 },
        Gate::CNOT { control: 4, target: 2 },
        Gate::RZ { qubit: 3, theta: Real::from_text("1").unwrap() },
    ];
    let refs: Vec<&Gate> = gates.iter().collect();
    assert_eq!(infer_qubits_from_gates(refs), 5);
    assert_eq!(infer_qubits_from_gates(Vec::new()), 0);
}

#[test]
fn a_circuit_read_from_text_holds_one_gate_a_moment() {
    let circuit = Circuit::from_qasm("qreg q[2];\nh q[0];\ncx q[0],q[1];\n").unwrap();
    assert_eq!(circuit.num_qubits, 2);
    assert_eq!(circuit.num_moments(), 2);
    assert_eq!(circuit.moments()[0], vec![Gate::H { qubit: 0 }]);
    assert_eq!(circuit.moments()[1], vec![Gate::CX { control: 0, target: 1 }]);
    let flat = circuit.gates_flat();
    assert_eq!(flat.len(), 2);
    assert_eq!(*flat[1], Gate::CX { control: 0, target: 1 });
}

#[test]
fn rotations_are_written_with_their_angle() {
    let mut circuit = Circuit::with_qubits(1);
    circuit.add_gate(Gate::RX { qubit: 0, theta: Real::from_text("0.5").unwrap() });
    circuit.add_gate(Gate::CNOT { control: 0, target: 0 });
    assert_eq!(
        circuit_to_qasm(&circuit),
        "OPENQASM 2.0;\ninclude \"qelib1.inc\";\nqreg q[1];\nRX q[0], 0.5;\nCX q[0],q[0];\n"
    );
}

#[test]
fn measuring_reads_the_bit_of_the_qubit() {
    let qasm = "qreg q[2];\nx q[0];\n";
    // basis state 1: qubit 0 is set, qubit 1 is not
    assert_eq!(run_qasm_measure(qasm, 0, 1).unwrap(), 1);
    assert_eq!(run_qasm_measure(qasm, 1, 1).unwrap(), 0);
    assert_eq!(run_qasm_measure(qasm, 1, 2).unwrap(), 1);
    match run_qasm_measure(qasm, 2, 1) {
        Err(SimError::Qubit(2)) => {}
        other => panic!("expected a qubit error, got {:?}", other),
    }
    assert_eq!(run_qasm_measure(qasm, 2, 1).unwrap_err().to_string(), "Invalid qubit index: 2");
}

#[test]
fn measuring_a_qubit_beyond_the_word_reads_zero() {
    let qasm = "qreg q[100];";
    assert_eq!(run_qasm_measure(qasm, 70, usize::MAX).unwrap(), 0);
    assert_eq!(run_qasm_measure(qasm, 63, usize::MAX).unwrap(), 1);
}

#[test]
fn counts_are_kept_by_bitstring() {
    let qasm = "qreg q[2];\nh q[0];\n";
    let counts = run_qasm_counts(qasm, &vec![0, 1, 1, 0, 1, 3]).unwrap();
    assert_eq!(
        counts,
        vec![("00".to_string(), 2), ("01".to_string(), 3), ("11".to_string(), 1)]
    );
    assert!(run_qasm_counts(qasm, &Vec::new()).unwrap().is_empty());
}

#[test]
fn bitstrings_are_padded_to_the_width_and_never_cut() {
    assert_eq!(write_bitstring(0, 0), "0");
    assert_eq!(write_bitstring(0, 3), "000");
    assert_eq!(write_bitstring(5, 3), "101");
    assert_eq!(write_bitstring(5, 6), "000101");
    assert_eq!(write_bitstring(5, 1), "101");
    assert_eq!(write_bitstring(5, 3), format!("{:0width$b}", 5, width = 3));
}

#[test]
fn a_run_starts_with_its_size() {
    assert_eq!(
        simulation_start("qreg q[2];\nh q[0];\ncx q[0],q[1];\nmeasure q -> c;\nmeasure q -> c;"),
        Some(SimulationStartInfo { num_qubits: 2, num_gates: 3 })
    );
    assert_eq!(simulation_start("h q[0];"), None);
}
