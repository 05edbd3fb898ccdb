//! Reading a circuit from OpenQASM text, line by line.
//!
//! A line declares the number of qubits (`qreg q[2];`), applies a gate
//! (`h q[0];`, `x`, `y`, `z`, `cx q[0],q[1];`) or measures (`measure ...`).
//! Comments, the version line, `include` lines and `creg` lines are passed
//! over, and so is every line that cannot be read.

use vstd::prelude::*;
use vstd::string::*;
use crate::chars::{
    chars_of, find, has_prefix, parse_unsigned, place, reads, slice, split, split_at, starts_with,
    trim, trim_end_matches, trimmed, unsigned_of, views, without_trailing, words, words_of,
};
use crate::gate::{Gate, GateView};

verus! {

/// What has been read of a circuit so far.
pub struct Reading {
    pub num_qubits: usize,
    pub gates: Seq<GateView>,
    pub measured: bool,
}

/// The number written between the first `[` and the first `]` of a line.
pub open spec fn bracketed(line: Seq<char>) -> Option<usize> {
    match (place(line, '['), place(line, ']')) {
        (Some(open), Some(close)) => if open < close {
            unsigned_of(line.subrange(open + 1, close))
        } else {
            None
        },
        _ => None,
    }
}

/// A character that parts the words of a `cx` line.
pub open spec fn parts_words(c: char) -> bool {
    c == ' ' || c == ',' || c == '[' || c == ']'
}

/// The control and the target of a `cx` line: the line, without semicolons
/// at its end, is made of the five words `cx`, `q`, a number, `q` and a
/// number.
pub open spec fn controlled(line: Seq<char>) -> Option<(usize, usize)> {
    let parts = words(without_trailing(line, |c: char| c == ';'), |c: char| parts_words(c));
    if parts.len() == 5 && parts[0] == "cx"@ && parts[1] == "q"@ && parts[3] == "q"@ {
        match (unsigned_of(parts[2]), unsigned_of(parts[4])) {
            (Some(control), Some(target)) => Some((control, target)),
            _ => None,
        }
    } else {
        None
    }
}

/// `reading` with one more gate.
pub open spec fn with_gate(reading: Reading, gate: GateView) -> Reading {
    Reading { gates: reading.gates.push(gate), ..reading }
}

/// `reading` with what `make` builds for the qubit that the line
/// names; unchanged where the line names none.
pub open spec fn with_gate_on(
    reading: Reading,
    line: Seq<char>,
    make: spec_fn(usize) -> GateView,
) -> Reading {
    match bracketed(line) {
        Some(qubit) => with_gate(reading, make(qubit)),
        None => reading,
    }
}

/// What has been read after one more line.
pub open spec fn read_line(reading: Reading, raw: Seq<char>) -> Reading {
    let line = trimmed(raw);
    if line.len() == 0 || has_prefix(line, "//"@) || has_prefix(line, "OPENQASM"@) || has_prefix(
        line,
        "include"@,
    ) {
        reading
    } else if has_prefix(line, "qreg"@) {
        match bracketed(line) {
            Some(count) => Reading { num_qubits: count, ..reading },
            None => reading,
        }
    } else if has_prefix(line, "creg"@) {
        reading
    } else if has_prefix(line, "h "@) {
        with_gate_on(reading, line, |qubit: usize| GateView::H { qubit })
    } else if has_prefix(line, "x "@) {
        with_gate_on(reading, line, |qubit: usize| GateView::X { qubit })
    } else if has_prefix(line, "y "@) {
        with_gate_on(reading, line, |qubit: usize| GateView::Y { qubit })
    } else if has_prefix(line, "z "@) {
        with_gate_on(reading, line, |qubit: usize| GateView::Z { qubit })
    } else if has_prefix(line, "cx "@) {
        match controlled(line) {
            Some((control, target)) => with_gate(reading, GateView::CX { control, target }),
            None => reading,
        }
    } else if has_prefix(line, "measure"@) {
        if reading.measured {
            reading
        } else {
            Reading { measured: true, ..with_gate(reading, GateView::Measure) }
        }
    } else {
        reading
    }
}

/// What has been read after the first `n` lines.
pub open spec fn read_lines(lines: Seq<Seq<char>>, n: nat) -> Reading
    decreases n,
{
    if n == 0 {
        Reading { num_qubits: 0, gates: Seq::empty(), measured: false }
    } else {
        read_line(read_lines(lines, (n - 1) as nat), lines[n - 1])
    }
}

/// The lines of a text: its pieces between line feeds.
pub open spec fn lines_of(text: Seq<char>) -> Seq<Seq<char>> {
    split(text, |c: char| c == '\n')
}

/// What a whole text reads as.
pub open spec fn read_qasm(text: Seq<char>) -> Reading {
    read_lines(lines_of(text), lines_of(text).len())
}

/// The lines of a text.
pub fn lines(text: &Vec<char>) -> (r: Vec<Vec<char>>)
    ensures
        views(r@) == lines_of(text@),
{
    let mut feed: Vec<char> = Vec::new();
    feed.push('\n');
    let r = split_at(text, &feed);
    proof {
        let by_list = |c: char| feed@.contains(c);
        let by_char = |c: char| c == '\n';
        assert(feed@ =~= seq!['\n']);
        assert forall|c: char| #[trigger] by_list(c) == by_char(c) by {
            if c == '\n' {
                assert(feed@[0] == c);
            }
        }
        assert(by_list =~= by_char);
    }
    r
}

/// The number written between the first `[` and the first `]` of a line.
pub fn read_bracketed(line: &Vec<char>) -> (r: Option<usize>)
    ensures
        r == bracketed(line@),
{
    match find(line, '[') {
        None => None,
        Some(open) => match find(line, ']') {
            None => None,
            Some(close) => {
                if open < close {
                    let inner = slice(line, open + 1, close);
                    parse_unsigned(&inner)
                } else {
                    None
                }
            },
        },
    }
}

/// The control and the target of a `cx` line.
pub fn read_controlled(line: &Vec<char>) -> (r: Option<(usize, usize)>)
    ensures
        r == controlled(line@),
{
    let clean = trim_end_matches(line, ';');
    let mut seps: Vec<char> = Vec::new();
    seps.push(' ');
    seps.push(',');
    seps.push('[');
    seps.push(']');
    let parts = words_of(&clean, &seps);
    proof {
        let by_list = |c: char| seps@.contains(c);
        let by_char = |c: char| parts_words(c);
        assert(seps@ =~= seq![' ', ',', '[', ']']);
        assert forall|c: char| #[trigger] by_list(c) == by_char(c) by {
            if c == ' ' {
                assert(seps@[0] == c);
            }
            if c == ',' {
                assert(seps@[1] == c);
            }
            if c == '[' {
                assert(seps@[2] == c);
            }
            if c == ']' {
                assert(seps@[3] == c);
            }
        }
        assert(by_list =~= by_char);
        assert(views(parts@).len() == parts.len());
    }
    if parts.len() == 5 {
        assert(views(parts@)[0] == parts[0]@);
        assert(views(parts@)[1] == parts[1]@);
        assert(views(parts@)[2] == parts[2]@);
        assert(views(parts@)[3] == parts[3]@);
        assert(views(parts@)[4] == parts[4]@);
        if reads(&parts[0], "cx") && reads(&parts[1], "q") && reads(&parts[3], "q") {
            match (parse_unsigned(&parts[2]), parse_unsigned(&parts[4])) {
                (Some(control), Some(target)) => Some((control, target)),
                _ => None,
            }
        } else {
            None
        }
    } else {
        None
    }
}

/// The views of a list of gates.
pub open spec fn gate_views(gates: Seq<Gate>) -> Seq<GateView> {
    Seq::new(gates.len(), |i: int| gates[i].deep_view())
}

/// Reads a circuit from OpenQASM text: the number of qubits that it
/// declares (0 where it declares none) and its gates, in order. Only the
/// first measurement is kept.
pub fn parse_qasm(qasm_str: &str) -> (r: (usize, Vec<Gate>))
    ensures
        r.0 == read_qasm(qasm_str@).num_qubits,
        r.1.deep_view() == read_qasm(qasm_str@).gates,
{
    let text = chars_of(qasm_str);
    let all = lines(&text);
    let mut num_qubits: usize = 0;
    let mut gates: Vec<Gate> = Vec::new();
    let mut has_measured = false;
    let mut i: usize = 0;
    assert(gates.deep_view() =~= Seq::<GateView>::empty());
    while i < all.len()
        invariant
            i <= all.len(),
            views(all@) == lines_of(qasm_str@),
            read_lines(views(all@), i as nat) == (Reading {
                num_qubits,
                gates: gates.deep_view(),
                measured: has_measured,
            }),
        decreases all.len() - i,
    {
        let ghost before = read_lines(views(all@), i as nat);
        assert(views(all@)[i as int] == all[i as int]@);
        let line = trim(&all[i]);
        let ghost seen = gates.deep_view();
        if line.len() == 0 || starts_with(&line, "//") || starts_with(&line, "OPENQASM") || starts_with(
            &line,
            "include",
        ) {
        } else if starts_with(&line, "qreg") {
            match read_bracketed(&line) {
                Some(count) => {
                    num_qubits = count;
                },
                None => {},
            }
        } else if starts_with(&line, "creg") {
        } else if starts_with(&line, "h ") {
            match read_bracketed(&line) {
                Some(qubit) => {
                    gates.push(Gate::H { qubit });
                    assert(gates.deep_view() =~= seen.push(GateView::H { qubit }));
                },
                None => {},
            }
        } else if starts_with(&line, "x ") {
            match read_bracketed(&line) {
                Some(qubit) => {
                    gates.push(Gate::X { qubit });
                    assert(gates.deep_view() =~= seen.push(GateView::X { qubit }));
                },
                None => {},
            }
        } else if starts_with(&line, "y ") {
            match read_bracketed(&line) {
                Some(qubit) => {
                    gates.push(Gate::Y { qubit });
                    assert(gates.deep_view() =~= seen.push(GateView::Y { qubit }));
                },
                None => {},
            }
        } else if starts_with(&line, "z ") {
            match read_bracketed(&line) {
                Some(qubit) => {
                    gates.push(Gate::Z { qubit });
                    assert(gates.deep_view() =~= seen.push(GateView::Z { qubit }));
                },
                None => {},
            }
        } else if starts_with(&line, "cx ") {
            match read_controlled(&line) {
                Some((control, target)) => {
                    gates.push(Gate::CX { control, target });
                    assert(gates.deep_view() =~= seen.push(GateView::CX { control, target }));
                },
                None => {},
            }
        } else if starts_with(&line, "measure") {
            if !has_measured {
                gates.push(Gate::Measure);
                assert(gates.deep_view() =~= seen.push(GateView::Measure));
                has_measured = true;
            }
        }
        i += 1;
    }
    (num_qubits, gates)
}

/// The number of qubits that the gates reach: one more than the highest
/// qubit of a Hadamard gate, a rotation or a `CNOT`; 0 where there is no
/// such gate. Other gates are not counted.
pub open spec fn qubits_reached(gates: Seq<GateView>, n: nat) -> nat
    decreases n,
{
    if n == 0 {
        0
    } else {
        let before = qubits_reached(gates, (n - 1) as nat);
        let here: nat = match gates[n - 1] {
            GateView::RX { qubit, .. } => (qubit + 1) as nat,
            GateView::RY { qubit, .. } => (qubit + 1) as nat,
            GateView::RZ { qubit, .. } => (qubit + 1) as nat,
            GateView::H { qubit } => (qubit + 1) as nat,
            GateView::CNOT { control, target } => if control >= target {
                (control + 1) as nat
            } else {
                (target + 1) as nat
            },
            _ => 0,
        };
        if here > before {
            here
        } else {
            before
        }
    }
}

/// The views of the gates that a list refers to.
pub open spec fn ref_views(gates: Seq<&Gate>) -> Seq<GateView> {
    Seq::new(gates.len(), |i: int| gates[i].deep_view())
}

/// The number of qubits that the gates reach.
pub fn infer_qubits_from_gates(gates: Vec<&Gate>) -> (r: usize)
    requires
        qubits_reached(ref_views(gates@), gates.len() as nat) <= usize::MAX,
    ensures
        r == qubits_reached(ref_views(gates@), gates.len() as nat),
{
    let mut reach: usize = 0;
    let mut i: usize = 0;
    while i < gates.len()
        invariant
            i <= gates.len(),
            reach == qubits_reached(ref_views(gates@), i as nat),
            qubits_reached(ref_views(gates@), gates.len() as nat) <= usize::MAX,
        decreases gates.len() - i,
    {
        proof {
            lemma_reach_grows(ref_views(gates@), i + 1, gates.len() as int);
        }
        assert(ref_views(gates@)[i as int] == gates[i as int].deep_view());
        let top: Option<usize> = match gates[i] {
            Gate::RX { qubit, .. } => Some(*qubit),
            Gate::RY { qubit, .. } => Some(*qubit),
            Gate::RZ { qubit, .. } => Some(*qubit),
            Gate::H { qubit } => Some(*qubit),
            Gate::CNOT { control, target } => if *control >= *target {
                Some(*control)
            } else {
                Some(*target)
            },
            _ => None,
        };
        match top {
            Some(qubit) => {
                if qubit >= reach {
                    reach = qubit + 1;
                }
            },
            None => {},
        }
        i += 1;
    }
    reach
}

/// The reach only grows as more gates are counted.
pub proof fn lemma_reach_grows(gates: Seq<GateView>, n: int, m: int)
    requires
        0 <= n <= m,
    ensures
        qubits_reached(gates, n as nat) <= qubits_reached(gates, m as nat),
    decreases m - n,
{
    if n < m {
        lemma_reach_grows(gates, n, m - 1);
    }
}

} // verus!
