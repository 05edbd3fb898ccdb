//! What a simulator reports back, and the Pauli operators it is asked about.

use vstd::prelude::*;
use vstd::string::*;
use crate::text::{decimal, push_decimal};

verus! {

/// Why a simulation could not be carried out.
#[derive(Debug)]
pub enum SimError {
    /// The OpenQASM text could not be read.
    Qasm(String),
    /// The circuit has no qubit of this number.
    Qubit(usize),
    /// The simulator itself failed.
    Internal(String),
}

pub enum SimErrorView {
    Qasm(Seq<char>),
    Qubit(usize),
    Internal(Seq<char>),
}

impl DeepView for SimError {
    type V = SimErrorView;

    open spec fn deep_view(&self) -> SimErrorView {
        match self {
            SimError::Qasm(text) => SimErrorView::Qasm(text@),
            SimError::Qubit(qubit) => SimErrorView::Qubit(*qubit),
            SimError::Internal(text) => SimErrorView::Internal(text@),
        }
    }
}

/// The text of a simulation error.
pub open spec fn sim_error_text(error: SimErrorView) -> Seq<char> {
    match error {
        SimErrorView::Qasm(text) => "QASM parse error: "@ + text,
        SimErrorView::Qubit(qubit) => "Invalid qubit index: "@ + decimal(qubit as nat),
        SimErrorView::Internal(text) => "Internal error: "@ + text,
    }
}

impl SimError {
    /// The error in words.
    pub fn to_string(&self) -> (r: String)
        ensures
            r@ == sim_error_text(self.deep_view()),
    {
        match self {
            SimError::Qasm(text) => {
                let mut out = "QASM parse error: ".to_owned();
                out.append(text.as_str());
                out
            },
            SimError::Qubit(qubit) => {
                let mut out = "Invalid qubit index: ".to_owned();
                push_decimal(&mut out, *qubit as u64);
                out
            },
            SimError::Internal(text) => {
                let mut out = "Internal error: ".to_owned();
                out.append(text.as_str());
                out
            },
        }
    }
}

/// A Pauli operator on one qubit.
#[derive(Clone, Copy, Debug, PartialEq, Eq, Structural)]
pub enum Pauli {
    I,
    X,
    Y,
    Z,
}

} // verus!
