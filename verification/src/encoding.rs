//! Reading the circuits that encode data points for the quantum kernel:
//! lines of the form `h q[0];`, `rz(0.5) q[1];` and `cx q[0], q[1];`.

use vstd::prelude::*;
use vstd::string::*;
use crate::number::{float_text, is_float_text, Real};
use crate::chars::{
    chars_of, fault_message, fault_text, find, has_prefix, parse_unsigned_checked, place, reads,
    slice, split, split_at, starts_with, trim, trim_end_matches, trimmed, unsigned_result, views,
    without_trailing, IntFault,
};
use crate::gate::{Gate, GateView};
use crate::qasm::{lines, lines_of};
use crate::text::{decimal, push_decimal};

verus! {

/// `s` without every `prefix` that is repeated at its start.
pub open spec fn without_prefixes(s: Seq<char>, prefix: Seq<char>) -> Seq<char>
    decreases s.len(),
{
    if prefix.len() > 0 && has_prefix(s, prefix) {
        without_prefixes(s.skip(prefix.len() as int), prefix)
    } else {
        s
    }
}

/// The qubit that one argument names: the number in `q[..]`.
pub open spec fn qubit_result(piece: Seq<char>) -> Result<usize, IntFault> {
    unsigned_result(
        without_trailing(without_prefixes(trimmed(piece), "q["@), |c: char| c == ']'),
    )
}

/// The qubits that the first `n` arguments name, or the first fault.
pub open spec fn qubits_upto(pieces: Seq<Seq<char>>, n: nat) -> Result<Seq<usize>, IntFault>
    decreases n,
{
    if n == 0 {
        Ok(Seq::empty())
    } else {
        match qubits_upto(pieces, (n - 1) as nat) {
            Err(fault) => Err(fault),
            Ok(before) => match qubit_result(pieces[n - 1]) {
                Err(fault) => Err(fault),
                Ok(qubit) => Ok(before.push(qubit)),
            },
        }
    }
}

/// The qubits that the arguments of a line name: the pieces between commas.
pub open spec fn qubits_of(args: Seq<char>) -> Result<Seq<usize>, IntFault> {
    let pieces = split(args, |c: char| c == ',');
    qubits_upto(pieces, pieces.len())
}

/// A character that parts an operation from its parameter.
pub open spec fn is_paren(c: char) -> bool {
    c == '(' || c == ')'
}

/// The name of an operation and its parameter, if it has one, or what is
/// wrong with it.
pub open spec fn operation_of(op: Seq<char>) -> Result<(Seq<char>, Option<Seq<char>>), Seq<char>> {
    if op.contains('(') {
        let parts = split(op, |c: char| is_paren(c));
        if parts.len() < 2 || parts[1].len() == 0 {
            Err("Invalid parameterized gate format: "@ + op)
        } else if !is_float_text(parts[1]) {
            Err("Invalid gate parameter in '"@ + op + "': invalid float literal"@)
        } else {
            Ok((parts[0], Some(parts[1])))
        }
    } else {
        Ok((op, None))
    }
}

/// What a line reads as.
pub enum LineView {
    /// Nothing: the line is empty, a comment or a declaration.
    Skip,
    Gate(GateView),
    Fail(Seq<char>),
}

/// A line that is passed over.
pub open spec fn passed_over(line: Seq<char>) -> bool {
    ||| line.len() == 0
    ||| has_prefix(line, "OPENQASM"@)
    ||| has_prefix(line, "include"@)
    ||| has_prefix(line, "//"@)
    ||| has_prefix(line, "qreg"@)
    ||| has_prefix(line, "creg"@)
    ||| has_prefix(line, "measure"@)
}

/// The words `found N: 'line'` that end a complaint about the number of
/// qubits.
pub open spec fn found(count: nat, line: Seq<char>) -> Seq<char> {
    decimal(count) + ": '"@ + line + "'"@
}

/// What a line gives once its operation and qubits are read. A `cx` acts on
/// qubits 0 and 1 whichever two qubits the line names.
pub open spec fn gate_of(
    name: Seq<char>,
    parameter: Option<Seq<char>>,
    qubits: Seq<usize>,
    line: Seq<char>,
) -> LineView {
    if name == "cx"@ {
        if qubits.len() != 2 {
            LineView::Fail("CX gate requires 2 qubits, found "@ + found(qubits.len(), line))
        } else {
            LineView::Gate(GateView::CX { control: 0, target: 1 })
        }
    } else if name == "rz"@ {
        if qubits.len() != 1 {
            LineView::Fail("Rz gate requires 1 qubit, found "@ + found(qubits.len(), line))
        } else {
            match parameter {
                Some(theta) => LineView::Gate(GateView::RZ { qubit: qubits[0], theta }),
                None => LineView::Fail(
                    "Rz gate requires a parameter, found none in '"@ + line + "'"@,
                ),
            }
        }
    } else if name == "h"@ {
        if qubits.len() != 1 {
            LineView::Fail("Hadamard gate requires 1 qubit, found "@ + found(qubits.len(), line))
        } else {
            LineView::Gate(GateView::H { qubit: qubits[0] })
        }
    } else {
        LineView::Fail("Invalid gate specified: '"@ + name + "'"@)
    }
}

/// What a line reads as: the operation up to the first blank, then the
/// qubits, parted by commas.
pub open spec fn circuit_line(raw: Seq<char>) -> LineView {
    let line = trimmed(raw);
    if passed_over(line) {
        LineView::Skip
    } else {
        let clean = trimmed(without_trailing(line, |c: char| c == ';'));
        match place(clean, ' ') {
            None => LineView::Fail("Missing qubit arguments in line: '"@ + clean + "'"@),
            Some(blank) => {
                let op = clean.take(blank);
                let args = clean.skip(blank + 1);
                match qubits_of(args) {
                    Err(fault) => LineView::Fail(
                        "Invalid qubit index in '"@ + args + "': "@ + fault_text(fault),
                    ),
                    Ok(qubits) => match operation_of(op) {
                        Err(message) => LineView::Fail(message),
                        Ok((name, parameter)) => gate_of(name, parameter, qubits, clean),
                    },
                }
            },
        }
    }
}

/// The gates of the first `n` lines, or what is wrong with the first line
/// that cannot be read.
pub open spec fn circuit_upto(all: Seq<Seq<char>>, n: nat) -> Result<Seq<GateView>, Seq<char>>
    decreases n,
{
    if n == 0 {
        Ok(Seq::empty())
    } else {
        match circuit_upto(all, (n - 1) as nat) {
            Err(message) => Err(message),
            Ok(gates) => match circuit_line(all[n - 1]) {
                LineView::Skip => Ok(gates),
                LineView::Gate(gate) => Ok(gates.push(gate)),
                LineView::Fail(message) => Err(message),
            },
        }
    }
}

/// The gates that a text writes, or what is wrong with it.
pub open spec fn circuit_of(text: Seq<char>) -> Result<Seq<GateView>, Seq<char>> {
    circuit_upto(lines_of(text), lines_of(text).len())
}

/// Appends characters to a text.
pub fn append_chars(out: &mut String, chars: &Vec<char>)
    ensures
        final(out)@ == old(out)@ + chars@,
{
    let mut i: usize = 0;
    assert(out@ =~= old(out)@ + chars@.take(0));
    while i < chars.len()
        invariant
            i <= chars.len(),
            out@ == old(out)@ + chars@.take(i as int),
        decreases chars.len() - i,
    {
        out.push(chars[i]);
        assert(chars@.take(i + 1) =~= chars@.take(i as int).push(chars@[i as int]));
        assert(out@ =~= old(out)@ + chars@.take(i + 1));
        i += 1;
    }
    assert(chars@.take(chars.len() as int) =~= chars@);
}

fn strip_prefixes(text: &Vec<char>, prefix: &str) -> (r: Vec<char>)
    ensures
        r@ == without_prefixes(text@, prefix@),
{
    let want = chars_of(prefix);
    let mut from: usize = 0;
    if want.len() == 0 {
        let r = slice(text, 0, text.len());
        assert(r@ =~= text@);
        return r;
    }
    assert(text@.skip(0) =~= text@);
    loop
        invariant
            from <= text.len(),
            want@ == prefix@,
            want.len() > 0,
            without_prefixes(text@, prefix@) == without_prefixes(text@.skip(from as int), prefix@),
        decreases text.len() - from,
    {
        let rest = slice(text, from, text.len());
        assert(rest@ =~= text@.skip(from as int));
        if starts_with(&rest, prefix) {
            assert(text@.skip(from as int).skip(want.len() as int) =~= text@.skip(
                from + want.len(),
            ));
            from = from + want.len();
        } else {
            return rest;
        }
    }
}

/// What a line reads as.
pub enum Line {
    Skip,
    Gate(Gate),
    Fail(String),
}

impl DeepView for Line {
    type V = LineView;

    open spec fn deep_view(&self) -> LineView {
        match self {
            Line::Skip => LineView::Skip,
            Line::Gate(gate) => LineView::Gate(gate.deep_view()),
            Line::Fail(message) => LineView::Fail(message@),
        }
    }
}

fn read_qubits(args: &Vec<char>) -> (r: Result<Vec<usize>, IntFault>)
    ensures
        match r {
            Ok(qubits) => qubits_of(args@) == Ok::<Seq<usize>, IntFault>(qubits@),
            Err(fault) => qubits_of(args@) == Err::<Seq<usize>, IntFault>(fault),
        },
{
    let mut comma: Vec<char> = Vec::new();
    comma.push(',');
    let pieces = split_at(args, &comma);
    proof {
        let by_list = |c: char| comma@.contains(c);
        let by_char = |c: char| c == ',';
        assert(comma@ =~= seq![',']);
        assert forall|c: char| #[trigger] by_list(c) == by_char(c) by {
            if c == ',' {
                assert(comma@[0] == c);
            }
        }
        assert(by_list =~= by_char);
    }
    let ghost all = views(pieces@);
    let mut qubits: Vec<usize> = Vec::new();
    let mut i: usize = 0;
    while i < pieces.len()
        invariant
            i <= pieces.len(),
            all == views(pieces@),
            all == split(args@, |c: char| c == ','),
            qubits_upto(all, i as nat) == Ok::<Seq<usize>, IntFault>(qubits@),
        decreases pieces.len() - i,
    {
        assert(all[i as int] == pieces[i as int]@);
        let piece = trim(&pieces[i]);
        let bare = strip_prefixes(&piece, "q[");
        let digits = trim_end_matches(&bare, ']');
        match parse_unsigned_checked(&digits) {
            Ok(qubit) => {
                qubits.push(qubit);
            },
            Err(fault) => {
                proof {
                    lemma_qubits_fail(all, (i + 1) as nat, all.len());
                }
                return Err(fault);
            },
        }
        i += 1;
    }
    Ok(qubits)
}

/// Once an argument cannot be read, reading on does not change the fault.
proof fn lemma_qubits_fail(pieces: Seq<Seq<char>>, n: nat, m: nat)
    requires
        n <= m,
        qubits_upto(pieces, n) is Err,
    ensures
        qubits_upto(pieces, m) == qubits_upto(pieces, n),
    decreases m - n,
{
    if n < m {
        lemma_qubits_fail(pieces, n, (m - 1) as nat);
    }
}

struct Operation {
    name: Vec<char>,
    parameter: Option<Real>,
}

fn read_operation(op: &Vec<char>) -> (r: Result<Operation, String>)
    ensures
        match r {
            Ok(operation) => operation_of(op@) == Ok::<(Seq<char>, Option<Seq<char>>), Seq<char>>(
                (operation.name@, operation.parameter.deep_view()),
            ),
            Err(message) => operation_of(op@) == Err::<(Seq<char>, Option<Seq<char>>), Seq<char>>(
                message@,
            ),
        },
{
    match find(op, '(') {
        None => {
            let name = slice(op, 0, op.len());
            assert(name@ =~= op@);
            Ok(Operation { name, parameter: None })
        },
        Some(_) => {
            let mut parens: Vec<char> = Vec::new();
            parens.push('(');
            parens.push(')');
            let parts = split_at(op, &parens);
            proof {
                let by_list = |c: char| parens@.contains(c);
                let by_char = |c: char| is_paren(c);
                assert(parens@ =~= seq!['(', ')']);
                assert forall|c: char| #[trigger] by_list(c) == by_char(c) by {
                    if c == '(' {
                        assert(parens@[0] == c);
                    }
                    if c == ')' {
                        assert(parens@[1] == c);
                    }
                }
                assert(by_list =~= by_char);
                assert(views(parts@).len() == parts.len());
            }
            if parts.len() < 2 {
                let mut message = "Invalid parameterized gate format: ".to_owned();
                append_chars(&mut message, op);
                return Err(message);
            }
            assert(views(parts@)[0] == parts[0]@);
            assert(views(parts@)[1] == parts[1]@);
            if parts[1].len() == 0 {
                let mut message = "Invalid parameterized gate format: ".to_owned();
                append_chars(&mut message, op);
                return Err(message);
            }
            match Real::parse(&parts[1]) {
                None => {
                    let mut message = "Invalid gate parameter in '".to_owned();
                    append_chars(&mut message, op);
                    message.append("': invalid float literal");
                    Err(message)
                },
                Some(theta) => {
                    let name = slice(&parts[0], 0, parts[0].len());
                    assert(name@ =~= parts[0]@);
                    Ok(Operation { name, parameter: Some(theta) })
                },
            }
        },
    }
}

fn complain(start: &str, count: usize, line: &Vec<char>) -> (r: String)
    ensures
        r@ == start@ + found(count as nat, line@),
{
    let mut message = start.to_owned();
    push_decimal(&mut message, count as u64);
    message.append(": '");
    append_chars(&mut message, line);
    message.append("'");
    assert(message@ =~= start@ + found(count as nat, line@));
    message
}

fn build_gate(operation: Operation, qubits: &Vec<usize>, line: &Vec<char>) -> (r: Line)
    ensures
        r.deep_view() == gate_of(
            operation.name@,
            operation.parameter.deep_view(),
            qubits@,
            line@,
        ),
{
    let Operation { name, parameter } = operation;
    if reads(&name, "cx") {
        if qubits.len() != 2 {
            Line::Fail(complain("CX gate requires 2 qubits, found ", qubits.len(), line))
        } else {
            Line::Gate(Gate::CX { control: 0, target: 1 })
        }
    } else if reads(&name, "rz") {
        if qubits.len() != 1 {
            Line::Fail(complain("Rz gate requires 1 qubit, found ", qubits.len(), line))
        } else {
            match parameter {
                Some(theta) => Line::Gate(Gate::RZ { qubit: qubits[0], theta }),
                None => {
                    let mut message = "Rz gate requires a parameter, found none in '".to_owned();
                    append_chars(&mut message, line);
                    message.append("'");
                    Line::Fail(message)
                },
            }
        }
    } else if reads(&name, "h") {
        if qubits.len() != 1 {
            Line::Fail(complain("Hadamard gate requires 1 qubit, found ", qubits.len(), line))
        } else {
            Line::Gate(Gate::H { qubit: qubits[0] })
        }
    } else {
        let mut message = "Invalid gate specified: '".to_owned();
        append_chars(&mut message, &name);
        message.append("'");
        Line::Fail(message)
    }
}

/// Reads one line.
pub fn read_line(raw: &Vec<char>) -> (r: Line)
    ensures
        r.deep_view() == circuit_line(raw@),
{
    let line = trim(raw);
    if line.len() == 0 || starts_with(&line, "OPENQASM") || starts_with(&line, "include")
        || starts_with(&line, "//") || starts_with(&line, "qreg") || starts_with(&line, "creg")
        || starts_with(&line, "measure") {
        return Line::Skip;
    }
    let bare = trim_end_matches(&line, ';');
    let clean = trim(&bare);
    match find(&clean, ' ') {
        None => {
            let mut message = "Missing qubit arguments in line: '".to_owned();
            append_chars(&mut message, &clean);
            message.append("'");
            Line::Fail(message)
        },
        Some(blank) => {
            assert(blank < clean.len());
            let op = slice(&clean, 0, blank);
            let args = slice(&clean, blank + 1, clean.len());
            assert(op@ =~= clean@.take(blank as int));
            assert(args@ =~= clean@.skip(blank + 1));
            match read_qubits(&args) {
                Err(fault) => {
                    let mut message = "Invalid qubit index in '".to_owned();
                    append_chars(&mut message, &args);
                    message.append("': ");
                    let detail = fault_message(fault);
                    message.append(detail.as_str());
                    Line::Fail(message)
                },
                Ok(qubits) => match read_operation(&op) {
                    Err(message) => Line::Fail(message),
                    Ok(operation) => build_gate(operation, &qubits, &clean),
                },
            }
        },
    }
}

/// Reads the gates of an encoding circuit. Fails with a message on the
/// first line that cannot be read.
pub fn parse_circuit(circuit_str: &str) -> (r: Result<Vec<Gate>, String>)
    ensures
        match r {
            Ok(gates) => circuit_of(circuit_str@) == Ok::<Seq<GateView>, Seq<char>>(
                gates.deep_view(),
            ),
            Err(message) => circuit_of(circuit_str@) == Err::<Seq<GateView>, Seq<char>>(message@),
        },
{
    let text = chars_of(circuit_str);
    let all = lines(&text);
    let mut gates: Vec<Gate> = Vec::new();
    let mut i: usize = 0;
    assert(gates.deep_view() =~= Seq::<GateView>::empty());
    while i < all.len()
        invariant
            i <= all.len(),
            views(all@) == lines_of(circuit_str@),
            circuit_upto(views(all@), i as nat) == Ok::<Seq<GateView>, Seq<char>>(gates.deep_view()),
        decreases all.len() - i,
    {
        assert(views(all@)[i as int] == all[i as int]@);
        let ghost seen = gates.deep_view();
        match read_line(&all[i]) {
            Line::Skip => {},
            Line::Gate(gate) => {
                let ghost view = gate.deep_view();
                gates.push(gate);
                assert(gates.deep_view() =~= seen.push(view));
            },
            Line::Fail(message) => {
                proof {
                    lemma_circuit_fail(views(all@), (i + 1) as nat, all.len() as nat);
                }
                return Err(message);
            },
        }
        i += 1;
    }
    Ok(gates)
}

/// Once a line cannot be read, reading on does not change the complaint.
proof fn lemma_circuit_fail(all: Seq<Seq<char>>, n: nat, m: nat)
    requires
        n <= m,
        circuit_upto(all, n) is Err,
    ensures
        circuit_upto(all, m) == circuit_upto(all, n),
    decreases m - n,
{
    if n < m {
        lemma_circuit_fail(all, n, (m - 1) as nat);
    }
}

} // verus!
