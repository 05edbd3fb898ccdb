use qflow::number::Real;
use qflow::encoding::parse_circuit;
use qflow::gate::Gate;

#[test]
fn test_parse_simple_gate() {
    let qasm = "h q[0];";
    let gates = parse_circuit(qasm).unwrap();
    assert_eq!(gates.len(), 1);
    assert_eq!(gates[0], Gate::H { qubit: 0 });
}

#[test]
fn test_parse_parameterized_gate() {
    let qasm = "rz(1.57) q[1];";
    let gates = parse_circuit(qasm).unwrap();
    assert_eq!(gates.len(), 1);
    assert_eq!(gates[0], Gate::RZ { qubit: 1, theta: Real::from_text("1.57").unwrap() });
    match &gates[0] {
        Gate::RZ { qubit, theta } => {
            assert_eq!(*qubit, 1);
            assert_eq!(theta.text().parse::<f64>().unwrap(), 1.57);
        }
        other => panic!("not a rotation: {:?}", other),
    }
}

#[test]
fn test_parse_two_qubit_gate() {
    let qasm = "cx q[0], q[1];";
    let gates = parse_circuit(qasm).unwrap();
    assert_eq!(gates.len(), 1);
    assert_eq!(gates[0], Gate::CX { control: 0, target: 1 });
}

#[test]
fn test_empty_and_comment_only_input() {
    assert!(parse_circuit("").unwrap().is_empty());
    let qasm_comments = r#"
            // This is a circuit with only comments
            // and blank lines.
        "#;
    assert!(parse_circuit(qasm_comments).unwrap().is_empty());
}

#[test]
fn test_invalid_qubit_format() {
    let qasm = "h q[a];";
    assert!(parse_circuit(qasm).is_err());
}

#[test]
fn test_cx_gate_wrong_qubit_count() {
    let qasm = "cx q[0];";
    assert!(parse_circuit(qasm).is_err());
    let qasm2 = "cx q[0], q[1], q[2];";
    assert!(parse_circuit(qasm2).is_err());
}

#[test]
fn test_parameterized_gate_invalid_param() {
    let qasm = "rz(not_a_number) q[0];";
    assert!(parse_circuit(qasm).is_err());
}

#[test]
fn parse_circuit_reports_each_fault_in_words() {
    assert_eq!(
        parse_circuit("h q[a];").unwrap_err(),
        "Invalid qubit index in 'q[a]': invalid digit found in string"
    );
    assert_eq!(
        parse_circuit("h q[];").unwrap_err(),
        "Invalid qubit index in 'q[]': cannot parse integer from empty string"
    );
    assert_eq!(
        parse_circuit("h q[99999999999999999999999999];").unwrap_err(),
        "Invalid qubit index in 'q[99999999999999999999999999]': number too large to fit in target type"
    );
    assert_eq!(parse_circuit("h").unwrap_err(), "Missing qubit arguments in line: 'h'");
    assert_eq!(
        parse_circuit("rz() q[0];").unwrap_err(),
        "Invalid parameterized gate format: rz()"
    );
    assert_eq!(
        parse_circuit("rz(not_a_number) q[0];").unwrap_err(),
        "Invalid gate parameter in 'rz(not_a_number)': invalid float literal"
    );
    assert_eq!(
        parse_circuit("cx q[0];").unwrap_err(),
        "CX gate requires 2 qubits, found 1: 'cx q[0]'"
    );
    assert_eq!(
        parse_circuit("rz(0.5) q[0], q[1];").unwrap_err(),
        "Rz gate requires 1 qubit, found 2: 'rz(0.5) q[0], q[1]'"
    );
    assert_eq!(
        parse_circuit("rz q[0];").unwrap_err(),
        "Rz gate requires a parameter, found none in 'rz q[0]'"
    );
    assert_eq!(
        parse_circuit("h q[0], q[1];").unwrap_err(),
        "Hadamard gate requires 1 qubit, found 2: 'h q[0], q[1]'"
    );
    assert_eq!(parse_circuit("swap q[0];").unwrap_err(), "Invalid gate specified: 'swap'");
}

#[test]
fn parse_circuit_reads_a_whole_encoding() {
    let text = "OPENQASM 2.0;\ninclude \"qelib1.inc\";\n\nqreg q[2];\ncreg c[2];\n\n// layer\nh q[0];\nh q[1];\n\nrz(1.5707963267948966) q[0];\nrz(-2.5e-3) q[1];\n\ncx q[0], q[1];\n\nmeasure q -> c;\n";
    let gates = parse_circuit(text).unwrap();
    assert_eq!(gates.len(), 5);
    assert_eq!(gates[0], Gate::H { qubit: 0 });
    assert_eq!(gates[1], Gate::H { qubit: 1 });
    assert_eq!(
        gates[2],
        Gate::RZ { qubit: 0, theta: Real::from_text("1.5707963267948966").unwrap() }
    );
    assert_eq!(gates[3], Gate::RZ { qubit: 1, theta: Real::from_text("-2.5e-3").unwrap() });
    assert_eq!(gates[4], Gate::CX { control: 0, target: 1 });
}

#[test]
fn a_cx_line_always_gives_the_gate_on_qubits_zero_and_one() {
    let gates = parse_circuit("cx q[3], q[2];").unwrap();
    assert_eq!(gates[0], Gate::CX { control: 0, target: 1 });
}

#[test]
fn qubit_arguments_shed_repeated_prefixes_and_brackets() {
    let gates = parse_circuit("h q[q[7]]];").unwrap();
    assert_eq!(gates[0], Gate::H { qubit: 7 });
    let gates = parse_circuit("h   +4 ;").unwrap();
    assert_eq!(gates[0], Gate::H { qubit: 4 });
}

#[test]
fn angle_text_is_what_a_float_reads() {
    let good = [
        "0", "1.57", "-1.57", "+3", "1.", ".5", "1e5", "1E5", "1.5e-3", "+.5E+10", "inf", "-inf",
        "Infinity", "NaN", "nan", "+nan", "007", "1.e2",
    ];
    for text in good {
        assert!(text.parse::<f64>().is_ok(), "{}", text);
        assert!(Real::from_text(text).is_some(), "{}", text);
    }
    let bad = [
        "", "+", "-", ".", "e5", "1e", "1e+", "1.5.2", " 1", "1 ", "1_0", "0x10", "not_a_number",
        "infinit", "na", "1f64", "--1", "+-1", ".e1", "1e1.5",
    ];
    for text in bad {
        assert!(text.parse::<f64>().is_err(), "{}", text);
        assert!(Real::from_text(text).is_none(), "{}", text);
    }
}
