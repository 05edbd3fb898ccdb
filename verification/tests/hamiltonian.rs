use qflow::api::Pauli;
use qflow::gate::Gate;
use qflow::hamiltonian::{pauli_to_gate, Hamiltonian, PauliTerm, PauliTermParseError};
use qflow::number::Real;

#[test]
fn test_parse_pauli_term() {
    let term_str = "0.5 * X0 Z1";
    let term = PauliTerm::from_str(term_str).unwrap();
    assert_eq!(term.coefficient.text().parse::<f64>().unwrap(), 0.5);
    assert_eq!(term.operators, vec![(Pauli::X, 0), (Pauli::Z, 1)]);
}

#[test]
fn test_hamiltonian_display() {
    let h2_hamiltonian = Hamiltonian::new()
        .with_term(PauliTerm::from_str("-0.8126 * I0").unwrap())
        .with_term(PauliTerm::from_str("0.1712 * Z0").unwrap())
        .with_term(PauliTerm::from_str("-0.2228 * Z1").unwrap())
        .with_term(PauliTerm::from_str("0.1686 * Z0 Z1").unwrap())
        .with_term(PauliTerm::from_str("0.0453 * X0 X1").unwrap());

    let display_str = h2_hamiltonian.to_string();
    println!("H2 Hamiltonian:\n{}", display_str);
    assert!(display_str.contains("-0.8126"));
    assert!(display_str.contains("X0 X1"));
    assert_eq!(
        display_str,
        "-0.8126\n+ 0.1712 * Z0\n+ -0.2228 * Z1\n+ 0.1686 * Z0 Z1\n+ 0.0453 * X0 X1"
    );
}

#[test]
fn operators_are_kept_in_the_order_of_their_qubits() {
    let term = PauliTerm::from_str("1 * Z3 x1 Y2 i0 y1 Z0").unwrap();
    assert_eq!(
        term.operators,
        vec![(Pauli::Z, 0), (Pauli::X, 1), (Pauli::Y, 1), (Pauli::Y, 2), (Pauli::Z, 3)]
    );
    assert_eq!(term.to_string(), "1 * Z0 X1 Y1 Y2 Z3");
}

#[test]
fn adding_a_pauli_sorts_whatever_is_there() {
    let term = PauliTerm {
        coefficient: Real::from_text("2").unwrap(),
        operators: vec![(Pauli::X, 5), (Pauli::Y, 1), (Pauli::Z, 5)],
    };
    let term = term.with_pauli(3, Pauli::Z);
    assert_eq!(term.operators, vec![(Pauli::Y, 1), (Pauli::Z, 3), (Pauli::X, 5), (Pauli::Z, 5)]);
    let same = term.with_pauli(0, Pauli::I);
    assert_eq!(same.operators, vec![(Pauli::Y, 1), (Pauli::Z, 3), (Pauli::X, 5), (Pauli::Z, 5)]);
}

#[test]
fn a_new_term_is_one() {
    let term = PauliTerm::new();
    assert_eq!(term.coefficient.text(), "1");
    assert_eq!(term.coefficient.text().parse::<f64>().unwrap(), 1.0);
    assert!(term.operators.is_empty());
    assert_eq!(term.to_string(), "1");
    let other = PauliTerm::default().with_coefficient(Real::from_text("-2.5").unwrap());
    assert_eq!(other.to_string(), "-2.5");
}

#[test]
fn what_is_no_term_is_refused() {
    for text in [
        "",
        "0.5",
        "0.5 X0",
        "0.5 * X0 * Z1",
        "half * X0",
        " * X0",
        "0.5 * X",
        "0.5 * 0",
        "0.5 * Q0",
        "0.5 * Xa",
        "0.5 * X-1",
        "0.5 * X0 Z",
        "0.5 * X99999999999999999999999",
    ] {
        assert_eq!(PauliTerm::from_str(text).err(), Some(PauliTermParseError), "{:?}", text);
    }
    assert!(PauliTerm::from_str("3 *").unwrap().operators.is_empty());
    assert!(PauliTerm::from_str("  1e-3  *   \t ").unwrap().operators.is_empty());
    assert_eq!(PauliTerm::from_str("1*X+2").unwrap().operators, vec![(Pauli::X, 2)]);
}

#[test]
fn paulis_become_gates_on_the_first_qubit() {
    assert_eq!(pauli_to_gate(Pauli::I), Gate::I { qubit: 0 });
    assert_eq!(pauli_to_gate(Pauli::X), Gate::X { qubit: 0 });
    assert_eq!(pauli_to_gate(Pauli::Y), Gate::Y { qubit: 0 });
    assert_eq!(pauli_to_gate(Pauli::Z), Gate::Z { qubit: 0 });
}

#[test]
fn a_sum_grows_term_by_term() {
    let mut sum = Hamiltonian::new();
    assert_eq!(sum.to_string(), "");
    sum.add_term(PauliTerm::from_str("1 * X0").unwrap());
    assert_eq!(sum.to_string(), "1 * X0");
    sum.add_term(PauliTerm::new());
    assert_eq!(sum.terms.len(), 2);
    assert_eq!(sum.to_string(), "1 * X0\n+ 1");
}
