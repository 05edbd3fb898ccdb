//! A circuit: a number of qubits and moments of gates, applied one moment
//! after the other.

use vstd::prelude::*;
use vstd::string::*;
use crate::api::SimError;
use crate::gate::{targets, Gate, GateView};
use crate::qasm::{parse_qasm, read_qasm};
use crate::text::{decimal, push_decimal};

verus! {

pub struct Circuit {
    pub num_qubits: usize,
    pub moments: Vec<Vec<Gate>>,
}

pub struct CircuitView {
    pub num_qubits: usize,
    pub moments: Seq<Seq<GateView>>,
}

impl DeepView for Circuit {
    type V = CircuitView;

    open spec fn deep_view(&self) -> CircuitView {
        CircuitView { num_qubits: self.num_qubits, moments: self.moments.deep_view() }
    }
}

/// Each gate in a moment of its own.
pub open spec fn one_by_one(gates: Seq<GateView>) -> Seq<Seq<GateView>> {
    Seq::new(gates.len(), |i: int| seq![gates[i]])
}

/// The gates of all moments, in order.
pub open spec fn flattened(moments: Seq<Seq<GateView>>, n: nat) -> Seq<GateView>
    decreases n,
{
    if n == 0 {
        Seq::empty()
    } else {
        flattened(moments, (n - 1) as nat) + moments[n - 1]
    }
}

/// The views of the gates that a list refers to.
pub open spec fn views_of(gates: Seq<&Gate>) -> Seq<GateView> {
    Seq::new(gates.len(), |i: int| gates[i].deep_view())
}

impl Circuit {
    /// A circuit without qubits and without gates.
    pub fn new() -> (r: Circuit)
        ensures
            r.deep_view() == (CircuitView { num_qubits: 0, moments: Seq::empty() }),
    {
        let r = Circuit { num_qubits: 0, moments: Vec::new() };
        assert(r.moments.deep_view() =~= Seq::<Seq<GateView>>::empty());
        r
    }

    /// A circuit on `num_qubits` qubits, without gates.
    pub fn with_qubits(num_qubits: usize) -> (r: Circuit)
        ensures
            r.deep_view() == (CircuitView { num_qubits, moments: Seq::empty() }),
    {
        let r = Circuit { num_qubits, moments: Vec::new() };
        assert(r.moments.deep_view() =~= Seq::<Seq<GateView>>::empty());
        r
    }

    /// Adds a moment that holds `gate` alone.
    pub fn add_gate(&mut self, gate: Gate)
        ensures
            final(self).deep_view() == (CircuitView {
                moments: old(self).deep_view().moments.push(seq![gate.deep_view()]),
                ..old(self).deep_view()
            }),
    {
        let ghost before = self.moments.deep_view();
        let mut moment: Vec<Gate> = Vec::new();
        moment.push(gate);
        assert(moment.deep_view() =~= seq![gate.deep_view()]);
        self.moments.push(moment);
        assert(self.moments.deep_view() =~= before.push(seq![gate.deep_view()]));
    }

    /// Adds a moment.
    pub fn add_moment(&mut self, gates: Vec<Gate>)
        ensures
            final(self).deep_view() == (CircuitView {
                moments: old(self).deep_view().moments.push(gates.deep_view()),
                ..old(self).deep_view()
            }),
    {
        let ghost before = self.moments.deep_view();
        let ghost added = gates.deep_view();
        self.moments.push(gates);
        assert(self.moments.deep_view() =~= before.push(added));
    }

    pub fn num_moments(&self) -> (r: usize)
        ensures
            r == self.deep_view().moments.len(),
    {
        self.moments.len()
    }

    pub fn set_num_qubits(&mut self, num_qubits: usize)
        ensures
            final(self).deep_view() == (CircuitView { num_qubits, ..old(self).deep_view() }),
    {
        self.num_qubits = num_qubits;
    }

    pub fn moments(&self) -> (r: &Vec<Vec<Gate>>)
        ensures
            r == &self.moments,
    {
        &self.moments
    }

    /// The gates of all moments, in order.
    pub fn gates_flat(&self) -> (r: Vec<&Gate>)
        ensures
            views_of(r@) == flattened(
                self.deep_view().moments,
                self.deep_view().moments.len() as nat,
            ),
    {
        let ghost all = self.deep_view().moments;
        let mut out: Vec<&Gate> = Vec::new();
        let mut m: usize = 0;
        assert(views_of(out@) =~= flattened(all, 0));
        while m < self.moments.len()
            invariant
                m <= self.moments.len(),
                all == self.deep_view().moments,
                views_of(out@) == flattened(all, m as nat),
            decreases self.moments.len() - m,
        {
            let moment = &self.moments[m];
            let ghost before = views_of(out@);
            assert(all[m as int] == moment.deep_view());
            let mut g: usize = 0;
            while g < moment.len()
                invariant
                    g <= moment.len(),
                    views_of(out@) == before + moment.deep_view().take(g as int),
                decreases moment.len() - g,
            {
                let ghost seen = views_of(out@);
                out.push(&moment[g]);
                assert(views_of(out@) =~= seen.push(moment[g as int].deep_view()));
                assert(moment.deep_view().take(g + 1) =~= moment.deep_view().take(g as int).push(
                    moment[g as int].deep_view(),
                ));
                g += 1;
            }
            assert(moment.deep_view().take(moment.len() as int) =~= moment.deep_view());
            m += 1;
        }
        out
    }

    /// Reads a circuit from OpenQASM text, with each gate in a moment of its
    /// own. Every text reads as some circuit.
    pub fn from_qasm(src: &str) -> (r: Result<Circuit, SimError>)
        ensures
            r is Ok,
            r->Ok_0.deep_view() == (CircuitView {
                num_qubits: read_qasm(src@).num_qubits,
                moments: one_by_one(read_qasm(src@).gates),
            }),
    {
        let (num_qubits, gates) = parse_qasm(src);
        let ghost all = gates.deep_view();
        let mut circuit = Circuit::with_qubits(num_qubits);
        let mut i: usize = 0;
        assert(circuit.moments.deep_view() =~= one_by_one(all.take(0)));
        while i < gates.len()
            invariant
                i <= gates.len(),
                all == gates.deep_view(),
                circuit.num_qubits == num_qubits,
                circuit.moments.deep_view() == one_by_one(all.take(i as int)),
            decreases gates.len() - i,
        {
            let gate = gates[i].duplicate();
            circuit.add_gate(gate);
            assert(one_by_one(all.take(i + 1)) =~= one_by_one(all.take(i as int)).push(
                seq![all[i as int]],
            ));
            i += 1;
        }
        assert(all.take(gates.len() as int) =~= all);
        Ok(circuit)
    }
}

/// The highest qubit that the first `n` gates are aimed at; 0 where they are
/// aimed at none.
pub open spec fn highest_target(gates: Seq<GateView>, n: nat) -> nat
    decreases n,
{
    if n == 0 {
        0
    } else {
        let before = highest_target(gates, (n - 1) as nat);
        let aimed = targets(gates[n - 1]);
        if aimed.len() > 0 && aimed[0] > before {
            aimed[0] as nat
        } else {
            before
        }
    }
}

/// The circuit that applies the gates one by one. It has one qubit more than
/// the highest qubit that a gate is aimed at.
pub fn gates_to_circuit(gates: Vec<Gate>) -> (r: Circuit)
    requires
        highest_target(gates.deep_view(), gates.len() as nat) < usize::MAX,
    ensures
        r.deep_view() == (CircuitView {
            num_qubits: (highest_target(gates.deep_view(), gates.len() as nat) + 1) as usize,
            moments: one_by_one(gates.deep_view()),
        }),
{
    let ghost all = gates.deep_view();
    let mut circuit = Circuit::new();
    let mut highest: usize = 0;
    let mut i: usize = 0;
    assert(circuit.moments.deep_view() =~= one_by_one(all.take(0)));
    while i < gates.len()
        invariant
            i <= gates.len(),
            all == gates.deep_view(),
            circuit.num_qubits == 0,
            circuit.moments.deep_view() == one_by_one(all.take(i as int)),
            highest == highest_target(all, i as nat),
        decreases gates.len() - i,
    {
        let aimed = gates[i].target();
        if aimed.len() > 0 && aimed[0] > highest {
            highest = aimed[0];
        }
        let gate = gates[i].duplicate();
        circuit.add_gate(gate);
        assert(one_by_one(all.take(i + 1)) =~= one_by_one(all.take(i as int)).push(
            seq![all[i as int]],
        ));
        i += 1;
    }
    assert(all.take(gates.len() as int) =~= all);
    circuit.set_num_qubits(highest + 1);
    circuit
}

/// A gate that OpenQASM text can be written for: any but the identity and
/// the measurement.
pub open spec fn writable(gate: GateView) -> bool {
    !(gate is I) && !(gate is Measure)
}

/// The OpenQASM line of a gate.
pub open spec fn qasm_line(gate: GateView) -> Seq<char> {
    match gate {
        GateView::H { qubit } => "H q["@ + decimal(qubit as nat) + "];\n"@,
        GateView::X { qubit } => "X q["@ + decimal(qubit as nat) + "];\n"@,
        GateView::Y { qubit } => "Y q["@ + decimal(qubit as nat) + "];\n"@,
        GateView::Z { qubit } => "Z q["@ + decimal(qubit as nat) + "];\n"@,
        GateView::RX { qubit, theta } => "RX q["@ + decimal(qubit as nat) + "], "@ + theta + ";\n"@,
        GateView::RY { qubit, theta } => "RY q["@ + decimal(qubit as nat) + "], "@ + theta + ";\n"@,
        GateView::RZ { qubit, theta } => "RZ q["@ + decimal(qubit as nat) + "], "@ + theta + ";\n"@,
        GateView::CX { control, target } => "CX q["@ + decimal(control as nat) + "],q["@ + decimal(
            target as nat,
        ) + "];\n"@,
        GateView::CNOT { control, target } => "CX q["@ + decimal(control as nat) + "],q["@
            + decimal(target as nat) + "];\n"@,
        _ => Seq::empty(),
    }
}

/// The lines of the first `n` gates.
pub open spec fn qasm_lines(gates: Seq<GateView>, n: nat) -> Seq<char>
    decreases n,
{
    if n == 0 {
        Seq::empty()
    } else {
        qasm_lines(gates, (n - 1) as nat) + qasm_line(gates[n - 1])
    }
}

/// The lines of the first `n` moments.
pub open spec fn qasm_moments(moments: Seq<Seq<GateView>>, n: nat) -> Seq<char>
    decreases n,
{
    if n == 0 {
        Seq::empty()
    } else {
        qasm_moments(moments, (n - 1) as nat) + qasm_lines(moments[n - 1], moments[n - 1].len())
    }
}

/// The OpenQASM text of a circuit: the version line, the include line, the
/// register of qubits, and one line for each gate.
pub open spec fn qasm_text(circuit: CircuitView) -> Seq<char> {
    "OPENQASM 2.0;\ninclude \"qelib1.inc\";\nqreg q["@ + decimal(circuit.num_qubits as nat)
        + "];\n"@ + qasm_moments(circuit.moments, circuit.moments.len())
}

fn push_qasm_line(out: &mut String, gate: &Gate)
    requires
        writable(gate.deep_view()),
    ensures
        final(out)@ == old(out)@ + qasm_line(gate.deep_view()),
{
    let ghost start = out@;
    match gate {
        Gate::H { qubit } => {
            out.append("H q[");
            push_decimal(out, *qubit as u64);
            out.append("];\n");
        },
        Gate::X { qubit } => {
            out.append("X q[");
            push_decimal(out, *qubit as u64);
            out.append("];\n");
        },
        Gate::Y { qubit } => {
            out.append("Y q[");
            push_decimal(out, *qubit as u64);
            out.append("];\n");
        },
        Gate::Z { qubit } => {
            out.append("Z q[");
            push_decimal(out, *qubit as u64);
            out.append("];\n");
        },
        Gate::RX { qubit, theta } => {
            out.append("RX q[");
            push_decimal(out, *qubit as u64);
            out.append("], ");
            out.append(theta.text().as_str());
            out.append(";\n");
        },
        Gate::RY { qubit, theta } => {
            out.append("RY q[");
            push_decimal(out, *qubit as u64);
            out.append("], ");
            out.append(theta.text().as_str());
            out.append(";\n");
        },
        Gate::RZ { qubit, theta } => {
            out.append("RZ q[");
            push_decimal(out, *qubit as u64);
            out.append("], ");
            out.append(theta.text().as_str());
            out.append(";\n");
        },
        Gate::CX { control, target } => {
            out.append("CX q[");
            push_decimal(out, *control as u64);
            out.append("],q[");
            push_decimal(out, *target as u64);
            out.append("];\n");
        },
        Gate::CNOT { control, target } => {
            out.append("CX q[");
            push_decimal(out, *control as u64);
            out.append("],q[");
            push_decimal(out, *target as u64);
            out.append("];\n");
        },
        _ => {},
    }
    assert(out@ =~= start + qasm_line(gate.deep_view()));
}

/// Writes a circuit out as OpenQASM text.
pub fn circuit_to_qasm(circuit: &Circuit) -> (r: String)
    requires
        forall|m: int, g: int|
            0 <= m < circuit.deep_view().moments.len() && 0 <= g
                < circuit.deep_view().moments[m].len() ==> writable(
                #[trigger] circuit.deep_view().moments[m][g],
            ),
    ensures
        r@ == qasm_text(circuit.deep_view()),
{
    let ghost all = circuit.deep_view().moments;
    let mut qasm = String::new();
    qasm.append("OPENQASM 2.0;\ninclude \"qelib1.inc\";\nqreg q[");
    push_decimal(&mut qasm, circuit.num_qubits as u64);
    qasm.append("];\n");
    let ghost head = qasm@;
    assert(head =~= "OPENQASM 2.0;\ninclude \"qelib1.inc\";\nqreg q["@ + decimal(
        circuit.num_qubits as nat,
    ) + "];\n"@);
    let mut m: usize = 0;
    assert(qasm@ =~= head + qasm_moments(all, 0));
    while m < circuit.moments.len()
        invariant
            m <= circuit.moments.len(),
            all == circuit.deep_view().moments,
            qasm@ == head + qasm_moments(all, m as nat),
            forall|i: int, g: int|
                0 <= i < all.len() && 0 <= g < all[i].len() ==> writable(#[trigger] all[i][g]),
        decreases circuit.moments.len() - m,
    {
        let moment = &circuit.moments[m];
        let ghost before = qasm@;
        assert(all[m as int] == moment.deep_view());
        let mut g: usize = 0;
        assert(qasm@ =~= before + qasm_lines(all[m as int], 0));
        while g < moment.len()
            invariant
                g <= moment.len(),
                m < all.len(),
                all[m as int] == moment.deep_view(),
                qasm@ == before + qasm_lines(all[m as int], g as nat),
                forall|i: int, k: int|
                    0 <= i < all.len() && 0 <= k < all[i].len() ==> writable(#[trigger] all[i][k]),
            decreases moment.len() - g,
        {
            assert(all[m as int][g as int] == moment[g as int].deep_view());
            let ghost seen = qasm@;
            push_qasm_line(&mut qasm, &moment[g]);
            assert(qasm@ =~= before + qasm_lines(all[m as int], (g + 1) as nat));
            g += 1;
        }
        assert(qasm@ =~= head + qasm_moments(all, (m + 1) as nat));
        m += 1;
    }
    qasm
}

/// What a controlled gate shows on `qubit`: its target, its control, the
/// line between the two, or nothing (`before` stays).
pub open spec fn controlled_cell(control: usize, target: usize, qubit: usize, before: Seq<char>) -> Seq<
    char,
> {
    let low = if control <= target {
        control
    } else {
        target
    };
    let high = if control <= target {
        target
    } else {
        control
    };
    if target == qubit {
        "─⊕─"@
    } else if control == qubit {
        "─●─"@
    } else if low < qubit < high {
        " │ "@
    } else {
        before
    }
}

/// What the first `n` gates of a moment show on `qubit`: a later gate draws
/// over an earlier one.
pub open spec fn cell(gates: Seq<GateView>, n: nat, qubit: usize) -> Seq<char>
    decreases n,
{
    if n == 0 {
        "───"@
    } else {
        let before = cell(gates, (n - 1) as nat, qubit);
        match gates[n - 1] {
            GateView::H { qubit: q } => if q == qubit {
                "[H]"@
            } else {
                before
            },
            GateView::X { qubit: q } => if q == qubit {
                "[X]"@
            } else {
                before
            },
            GateView::Y { qubit: q } => if q == qubit {
                "[Y]"@
            } else {
                before
            },
            GateView::Z { qubit: q } => if q == qubit {
                "[Z]"@
            } else {
                before
            },
            GateView::CX { control, target } => controlled_cell(control, target, qubit, before),
            GateView::CNOT { control, target } => controlled_cell(control, target, qubit, before),
            _ => before,
        }
    }
}

/// The cells of `qubit` in the first `n` moments.
pub open spec fn cells(moments: Seq<Seq<GateView>>, n: nat, qubit: usize) -> Seq<char>
    decreases n,
{
    if n == 0 {
        Seq::empty()
    } else {
        cells(moments, (n - 1) as nat, qubit) + cell(moments[n - 1], moments[n - 1].len(), qubit)
    }
}

/// The line of `qubit`: `q`, its number, a colon, its cells.
pub open spec fn row(circuit: CircuitView, qubit: usize) -> Seq<char> {
    "q"@ + decimal(qubit as nat) + ": "@ + cells(circuit.moments, circuit.moments.len(), qubit)
        + "\n"@
}

/// The lines of the first `n` qubits.
pub open spec fn rows(circuit: CircuitView, n: nat) -> Seq<char>
    decreases n,
{
    if n == 0 {
        Seq::empty()
    } else {
        rows(circuit, (n - 1) as nat) + row(circuit, (n - 1) as usize)
    }
}

/// The diagram of a circuit: one line for each qubit, one cell of three
/// characters for each moment.
pub open spec fn diagram(circuit: CircuitView) -> Seq<char> {
    if circuit.num_qubits == 0 {
        "Empty Circuit"@
    } else {
        rows(circuit, circuit.num_qubits as nat)
    }
}

fn controlled_symbol(control: usize, target: usize, qubit: usize, before: &'static str) -> (r:
    &'static str)
    ensures
        r@ == controlled_cell(control, target, qubit, before@),
{
    let low = if control <= target {
        control
    } else {
        target
    };
    let high = if control <= target {
        target
    } else {
        control
    };
    if target == qubit {
        "─⊕─"
    } else if control == qubit {
        "─●─"
    } else if low < qubit && qubit < high {
        " │ "
    } else {
        before
    }
}

fn cell_symbol(gates: &Vec<Gate>, qubit: usize) -> (r: &'static str)
    ensures
        r@ == cell(gates.deep_view(), gates.len() as nat, qubit),
{
    let mut symbol: &'static str = "───";
    let mut g: usize = 0;
    while g < gates.len()
        invariant
            g <= gates.len(),
            symbol@ == cell(gates.deep_view(), g as nat, qubit),
        decreases gates.len() - g,
    {
        assert(gates.deep_view()[g as int] == gates[g as int].deep_view());
        match &gates[g] {
            Gate::H { qubit: q } => {
                if *q == qubit {
                    symbol = "[H]";
                }
            },
            Gate::X { qubit: q } => {
                if *q == qubit {
                    symbol = "[X]";
                }
            },
            Gate::Y { qubit: q } => {
                if *q == qubit {
                    symbol = "[Y]";
                }
            },
            Gate::Z { qubit: q } => {
                if *q == qubit {
                    symbol = "[Z]";
                }
            },
            Gate::CX { control, target } => {
                symbol = controlled_symbol(*control, *target, qubit, symbol);
            },
            Gate::CNOT { control, target } => {
                symbol = controlled_symbol(*control, *target, qubit, symbol);
            },
            _ => {},
        }
        g += 1;
    }
    symbol
}

impl Circuit {
    /// Draws the circuit. Hadamard gates, Pauli gates and controlled nots
    /// are drawn; other gates leave their cell as it is.
    pub fn to_string(&self) -> (r: String)
        ensures
            r@ == diagram(self.deep_view()),
    {
        if self.num_qubits == 0 {
            return "Empty Circuit".to_owned();
        }
        let ghost view = self.deep_view();
        let mut out = String::new();
        let mut qubit: usize = 0;
        assert(out@ =~= rows(view, 0));
        while qubit < self.num_qubits
            invariant
                qubit <= self.num_qubits,
                view == self.deep_view(),
                out@ == rows(view, qubit as nat),
            decreases self.num_qubits - qubit,
        {
            let ghost before = out@;
            out.append("q");
            push_decimal(&mut out, qubit as u64);
            out.append(": ");
            let ghost head = out@;
            let mut m: usize = 0;
            assert(out@ =~= head + cells(view.moments, 0, qubit));
            while m < self.moments.len()
                invariant
                    m <= self.moments.len(),
                    view == self.deep_view(),
                    out@ == head + cells(view.moments, m as nat, qubit),
                decreases self.moments.len() - m,
            {
                assert(view.moments[m as int] == self.moments[m as int].deep_view());
                out.append(cell_symbol(&self.moments[m], qubit));
                assert(out@ =~= head + cells(view.moments, (m + 1) as nat, qubit));
                m += 1;
            }
            out.append("\n");
            assert(out@ =~= before + row(view, qubit));
            qubit += 1;
        }
        out
    }
}

} // verus!
