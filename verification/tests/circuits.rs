use qflow::circuit::Circuit;
use qflow::gate::Gate;
use qflow::number::Real;
use qflow::qcl::preprocess_qcl;

#[test]
fn test_circuit_display() {
    let mut circuit = Circuit::new();
    circuit.num_qubits = 2;
    circuit.add_moment(vec![Gate::H { qubit: 0 }]);
    circuit.add_moment(vec![Gate::CX { control: 0, target: 1 }]);
    circuit.add_moment(vec![Gate::X { qubit: 1 }]);

    let expected_output = "q0: [H]─●────\nq1: ────⊕─[X]\n";
    assert_eq!(format!("{}", circuit.to_string()), expected_output);
    println!("{}", circuit.to_string());
}

#[test]
fn an_empty_circuit_says_so() {
    assert_eq!(Circuit::new().to_string(), "Empty Circuit");
    assert_eq!(Circuit::with_qubits(2).to_string(), "q0: \nq1: \n");
}

#[test]
fn a_controlled_gate_draws_a_line_between_its_qubits() {
    let mut circuit = Circuit::with_qubits(4);
    circuit.add_moment(vec![Gate::CNOT { control: 3, target: 0 }, Gate::Y { qubit: 2 }]);
    circuit.add_moment(vec![Gate::Z { qubit: 1 }, Gate::CX { control: 2, target: 2 }]);
    assert_eq!(
        circuit.to_string(),
        "q0: ─⊕────\nq1:  │ [Z]\nq2: [Y]─⊕─\nq3: ─●────\n"
    );
}

#[test]
fn gates_that_are_not_drawn_leave_their_cell() {
    let mut circuit = Circuit::with_qubits(1);
    circuit.add_gate(Gate::RX { qubit: 0, theta: Real::from_text("1").unwrap() });
    circuit.add_gate(Gate::Measure);
    circuit.add_gate(Gate::H { qubit: 7 });
    assert_eq!(circuit.to_string(), "q0: ─────────\n");
}

#[test]
fn qcl_is_stripped_of_comments_and_line_breaks() {
    let code = "(defparam 'a 1.0) ; first\r\n\n   ; only a comment\n  (run)  \n(x;y;z)";
    assert_eq!(preprocess_qcl(code), "(defparam 'a 1.0)(run)(x");
    assert_eq!(preprocess_qcl(""), "");
    assert_eq!(preprocess_qcl(" \n \n"), "");
    let expected: String = code
        .lines()
        .map(|line| line.split(';').next().unwrap_or("").trim())
        .filter(|line| !line.is_empty())
        .collect::<Vec<_>>()
        .join("");
    assert_eq!(preprocess_qcl(code), expected);
}
