//! The gates of a quantum circuit.

use vstd::prelude::*;
use vstd::string::*;
use vstd::std_specs::cmp::PartialEqSpecImpl;
use crate::number::Real;
use crate::text::{decimal, push_decimal};

verus! {

/// One gate, by the qubits it acts on. A rotation carries its angle.
#[derive(Debug)]
pub enum Gate {
    I { qubit: usize },
    H { qubit: usize },
    X { qubit: usize },
    Y { qubit: usize },
    Z { qubit: usize },
    CX { control: usize, target: usize },
    /// Another name for `CX`.
    CNOT { control: usize, target: usize },
    RX { qubit: usize, theta: Real },
    RY { qubit: usize, theta: Real },
    RZ { qubit: usize, theta: Real },
    /// Measures every qubit.
    Measure,
}

pub enum GateView {
    I { qubit: usize },
    H { qubit: usize },
    X { qubit: usize },
    Y { qubit: usize },
    Z { qubit: usize },
    CX { control: usize, target: usize },
    CNOT { control: usize, target: usize },
    RX { qubit: usize, theta: Seq<char> },
    RY { qubit: usize, theta: Seq<char> },
    RZ { qubit: usize, theta: Seq<char> },
    Measure,
}

impl DeepView for Gate {
    type V = GateView;

    open spec fn deep_view(&self) -> GateView {
        match self {
            Gate::I { qubit } => GateView::I { qubit: *qubit },
            Gate::H { qubit } => GateView::H { qubit: *qubit },
            Gate::X { qubit } => GateView::X { qubit: *qubit },
            Gate::Y { qubit } => GateView::Y { qubit: *qubit },
            Gate::Z { qubit } => GateView::Z { qubit: *qubit },
            Gate::CX { control, target } => GateView::CX { control: *control, target: *target },
            Gate::CNOT { control, target } => GateView::CNOT { control: *control, target: *target },
            Gate::RX { qubit, theta } => GateView::RX { qubit: *qubit, theta: theta@ },
            Gate::RY { qubit, theta } => GateView::RY { qubit: *qubit, theta: theta@ },
            Gate::RZ { qubit, theta } => GateView::RZ { qubit: *qubit, theta: theta@ },
            Gate::Measure => GateView::Measure,
        }
    }
}

impl PartialEq for Gate {
    fn eq(&self, other: &Gate) -> (r: bool) {
        match (self, other) {
            (Gate::I { qubit: a }, Gate::I { qubit: b }) => *a == *b,
            (Gate::H { qubit: a }, Gate::H { qubit: b }) => *a == *b,
            (Gate::X { qubit: a }, Gate::X { qubit: b }) => *a == *b,
            (Gate::Y { qubit: a }, Gate::Y { qubit: b }) => *a == *b,
            (Gate::Z { qubit: a }, Gate::Z { qubit: b }) => *a == *b,
            (Gate::CX { control: a, target: s }, Gate::CX { control: b, target: t }) => *a == *b
                && *s == *t,
            (Gate::CNOT { control: a, target: s }, Gate::CNOT { control: b, target: t }) => *a
                == *b && *s == *t,
            (Gate::RX { qubit: a, theta: s }, Gate::RX { qubit: b, theta: t }) => *a == *b
                && s.same(t),
            (Gate::RY { qubit: a, theta: s }, Gate::RY { qubit: b, theta: t }) => *a == *b
                && s.same(t),
            (Gate::RZ { qubit: a, theta: s }, Gate::RZ { qubit: b, theta: t }) => *a == *b
                && s.same(t),
            (Gate::Measure, Gate::Measure) => true,
            _ => false,
        }
    }
}

impl PartialEqSpecImpl for Gate {
    open spec fn obeys_eq_spec() -> bool {
        true
    }

    open spec fn eq_spec(&self, other: &Gate) -> bool {
        self.deep_view() == other.deep_view()
    }
}

/// The qubits that a gate is aimed at: the one qubit of a gate on one qubit,
/// the target of a controlled gate; none for the identity and for a
/// measurement.
pub open spec fn targets(gate: GateView) -> Seq<usize> {
    match gate {
        GateView::X { qubit } => seq![qubit],
        GateView::Y { qubit } => seq![qubit],
        GateView::Z { qubit } => seq![qubit],
        GateView::H { qubit } => seq![qubit],
        GateView::RX { qubit, .. } => seq![qubit],
        GateView::RY { qubit, .. } => seq![qubit],
        GateView::RZ { qubit, .. } => seq![qubit],
        GateView::CX { target, .. } => seq![target],
        GateView::CNOT { target, .. } => seq![target],
        _ => Seq::empty(),
    }
}

/// `name`, then `q[`, the number of the qubit and `]`.
pub open spec fn on_qubit(name: Seq<char>, qubit: usize) -> Seq<char> {
    name + " q["@ + decimal(qubit as nat) + "]"@
}

/// How a gate is written out.
pub open spec fn gate_text(gate: GateView) -> Seq<char> {
    match gate {
        GateView::I { qubit } => on_qubit("I"@, qubit),
        GateView::H { qubit } => on_qubit("H"@, qubit),
        GateView::X { qubit } => on_qubit("X"@, qubit),
        GateView::Y { qubit } => on_qubit("Y"@, qubit),
        GateView::Z { qubit } => on_qubit("Z"@, qubit),
        GateView::CX { control, target } => on_qubit("CX"@, control) + ",q["@ + decimal(
            target as nat,
        ) + "]"@,
        GateView::CNOT { control, target } => on_qubit("CX"@, control) + ",q["@ + decimal(
            target as nat,
        ) + "]"@,
        GateView::RX { qubit, theta } => on_qubit("RX"@, qubit) + ","@ + theta,
        GateView::RY { qubit, theta } => on_qubit("RY"@, qubit) + ","@ + theta,
        GateView::RZ { qubit, theta } => on_qubit("RZ"@, qubit) + ","@ + theta,
        GateView::Measure => "Measure"@,
    }
}

fn write_on_qubit(name: &str, qubit: usize) -> (r: String)
    ensures
        r@ == on_qubit(name@, qubit),
{
    let mut out = name.to_owned();
    out.append(" q[");
    push_decimal(&mut out, qubit as u64);
    out.append("]");
    out
}

impl Gate {
    /// A gate equal to this one.
    pub fn duplicate(&self) -> (r: Gate)
        ensures
            r.deep_view() == self.deep_view(),
    {
        match self {
            Gate::I { qubit } => Gate::I { qubit: *qubit },
            Gate::H { qubit } => Gate::H { qubit: *qubit },
            Gate::X { qubit } => Gate::X { qubit: *qubit },
            Gate::Y { qubit } => Gate::Y { qubit: *qubit },
            Gate::Z { qubit } => Gate::Z { qubit: *qubit },
            Gate::CX { control, target } => Gate::CX { control: *control, target: *target },
            Gate::CNOT { control, target } => Gate::CNOT { control: *control, target: *target },
            Gate::RX { qubit, theta } => Gate::RX { qubit: *qubit, theta: theta.duplicate() },
            Gate::RY { qubit, theta } => Gate::RY { qubit: *qubit, theta: theta.duplicate() },
            Gate::RZ { qubit, theta } => Gate::RZ { qubit: *qubit, theta: theta.duplicate() },
            Gate::Measure => Gate::Measure,
        }
    }

    /// The qubits that this gate is aimed at.
    pub fn target(&self) -> (r: Vec<usize>)
        ensures
            r@ == targets(self.deep_view()),
    {
        let mut out: Vec<usize> = Vec::new();
        match self {
            Gate::X { qubit } => out.push(*qubit),
            Gate::Y { qubit } => out.push(*qubit),
            Gate::Z { qubit } => out.push(*qubit),
            Gate::H { qubit } => out.push(*qubit),
            Gate::RX { qubit, .. } => out.push(*qubit),
            Gate::RY { qubit, .. } => out.push(*qubit),
            Gate::RZ { qubit, .. } => out.push(*qubit),
            Gate::CX { target, .. } => out.push(*target),
            Gate::CNOT { target, .. } => out.push(*target),
            _ => {},
        }
        assert(out@ =~= targets(self.deep_view()));
        out
    }

    /// This gate, written out.
    pub fn to_string(&self) -> (r: String)
        ensures
            r@ == gate_text(self.deep_view()),
    {
        match self {
            Gate::I { qubit } => write_on_qubit("I", *qubit),
            Gate::H { qubit } => write_on_qubit("H", *qubit),
            Gate::X { qubit } => write_on_qubit("X", *qubit),
            Gate::Y { qubit } => write_on_qubit("Y", *qubit),
            Gate::Z { qubit } => write_on_qubit("Z", *qubit),
            Gate::CX { control, target } => {
                let mut out = write_on_qubit("CX", *control);
                out.append(",q[");
                push_decimal(&mut out, *target as u64);
                out.append("]");
                out
            },
            Gate::CNOT { control, target } => {
                let mut out = write_on_qubit("CX", *control);
                out.append(",q[");
                push_decimal(&mut out, *target as u64);
                out.append("]");
                out
            },
            Gate::RX { qubit, theta } => {
                let mut out = write_on_qubit("RX", *qubit);
                out.append(",");
                out.append(theta.text().as_str());
                out
            },
            Gate::RY { qubit, theta } => {
                let mut out = write_on_qubit("RY", *qubit);
                out.append(",");
                out.append(theta.text().as_str());
                out
            },
            Gate::RZ { qubit, theta } => {
                let mut out = write_on_qubit("RZ", *qubit);
                out.append(",");
                out.append(theta.text().as_str());
                out
            },
            Gate::Measure => "Measure".to_owned(),
        }
    }
}

} // verus!
