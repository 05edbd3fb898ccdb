//! Hamiltonians as sums of Pauli terms. A term is a coefficient and one Pauli
//! operator for each of some qubits, kept in the order of the qubits.

use vstd::prelude::*;
use vstd::string::*;
use crate::api::Pauli;
use crate::chars::{
    chars_of, is_space, parse_unsigned, slice, split, split_at, trim, trimmed, unsigned_of, views,
    words, words_by_space,
};
use crate::gate::{Gate, GateView};
use crate::number::{is_float_text, Real};
use crate::text::{decimal, push_decimal};

verus! {

/// A gate on qubit 0 that applies a Pauli operator.
pub fn pauli_to_gate(pauli: Pauli) -> (r: Gate)
    ensures
        r.deep_view() == match pauli {
            Pauli::I => GateView::I { qubit: 0 },
            Pauli::X => GateView::X { qubit: 0 },
            Pauli::Y => GateView::Y { qubit: 0 },
            Pauli::Z => GateView::Z { qubit: 0 },
        },
{
    match pauli {
        Pauli::I => Gate::I { qubit: 0 },
        Pauli::X => Gate::X { qubit: 0 },
        Pauli::Y => Gate::Y { qubit: 0 },
        Pauli::Z => Gate::Z { qubit: 0 },
    }
}

/// The letter of a Pauli operator.
pub open spec fn pauli_letter(pauli: Pauli) -> Seq<char> {
    match pauli {
        Pauli::I => "I"@,
        Pauli::X => "X"@,
        Pauli::Y => "Y"@,
        Pauli::Z => "Z"@,
    }
}

/// The letter of a Pauli operator.
pub fn pauli_name(pauli: Pauli) -> (r: &'static str)
    ensures
        r@ == pauli_letter(pauli),
{
    match pauli {
        Pauli::I => "I",
        Pauli::X => "X",
        Pauli::Y => "Y",
        Pauli::Z => "Z",
    }
}

/// The text was no Pauli term.
#[derive(Clone, Copy, Debug, PartialEq, Eq, Structural)]
pub struct PauliTermParseError;

/// A coefficient, and the Pauli operators that act on some qubits.
#[derive(Debug)]
pub struct PauliTerm {
    pub coefficient: Real,
    pub operators: Vec<(Pauli, usize)>,
}

pub struct PauliTermView {
    pub coefficient: Seq<char>,
    pub operators: Seq<(Pauli, usize)>,
}

impl DeepView for PauliTerm {
    type V = PauliTermView;

    open spec fn deep_view(&self) -> PauliTermView {
        PauliTermView { coefficient: self.coefficient@, operators: self.operators@ }
    }
}

/// The operators are in the order of their qubits.
pub open spec fn sorted_by_qubit(operators: Seq<(Pauli, usize)>) -> bool {
    forall|i: int, j: int| 0 <= i <= j < operators.len() ==> operators[i].1 <= operators[j].1
}

/// The operators that act on `qubit`, in the order in which they stand.
pub open spec fn acting_on(operators: Seq<(Pauli, usize)>, qubit: usize) -> Seq<(Pauli, usize)> {
    operators.filter(|operator: (Pauli, usize)| operator.1 == qubit)
}

/// `result` holds the operators of `source` in the order of their qubits,
/// and operators on the same qubit in the order in which `source` holds
/// them.
pub open spec fn arranged(result: Seq<(Pauli, usize)>, source: Seq<(Pauli, usize)>) -> bool {
    &&& sorted_by_qubit(result)
    &&& forall|qubit: usize| #[trigger] acting_on(result, qubit) == acting_on(source, qubit)
}

/// Calls `sort_by_key` of the standard library with the qubit as key. The
/// sort is stable: afterwards the operators stand in the order of their
/// qubits, and those on the same qubit in the order they had before.
#[verifier::external_body]
fn sort_by_qubit(operators: &mut Vec<(Pauli, usize)>)
    ensures
        arranged(final(operators)@, old(operators)@),
{
    operators.sort_by_key(|&(_, qubit)| qubit);
}

/// What one more operator adds to the operators on a qubit.
pub proof fn lemma_acting_on_push(operators: Seq<(Pauli, usize)>, added: (Pauli, usize), qubit: usize)
    ensures
        acting_on(operators.push(added), qubit) == if added.1 == qubit {
            acting_on(operators, qubit).push(added)
        } else {
            acting_on(operators, qubit)
        },
{
    reveal(Seq::filter);
    assert(operators.push(added).drop_last() =~= operators);
}

/// Arranging what was arranged before, with one more operator, arranges the
/// source with that operator.
pub proof fn lemma_arranged_push(
    before: Seq<(Pauli, usize)>,
    after: Seq<(Pauli, usize)>,
    source: Seq<(Pauli, usize)>,
    added: (Pauli, usize),
)
    requires
        arranged(before, source),
        arranged(after, before.push(added)),
    ensures
        arranged(after, source.push(added)),
{
    assert forall|qubit: usize| #[trigger]
        acting_on(after, qubit) == acting_on(source.push(added), qubit) by {
        lemma_acting_on_push(before, added, qubit);
        lemma_acting_on_push(source, added, qubit);
        assert(acting_on(before, qubit) == acting_on(source, qubit));
        assert(acting_on(after, qubit) == acting_on(before.push(added), qubit));
    }
}

impl PauliTerm {
    /// The term with coefficient one and no operators.
    pub fn new() -> (r: PauliTerm)
        ensures
            r.deep_view() == (PauliTermView { coefficient: seq!['1'], operators: Seq::empty() }),
    {
        PauliTerm { coefficient: Real::one(), operators: Vec::new() }
    }

    /// The term with `pauli` on the qubit `qubit_index` as well. The identity
    /// is not recorded.
    pub fn with_pauli(self, qubit_index: usize, pauli: Pauli) -> (r: PauliTerm)
        ensures
            r.coefficient@ == self.coefficient@,
            pauli == Pauli::I ==> r.operators@ == self.operators@,
            pauli != Pauli::I ==> arranged(
                r.operators@,
                self.operators@.push((pauli, qubit_index)),
            ),
    {
        let PauliTerm { coefficient, operators } = self;
        let mut operators = operators;
        match pauli {
            Pauli::I => {},
            _ => {
                operators.push((pauli, qubit_index));
                sort_by_qubit(&mut operators);
            },
        }
        PauliTerm { coefficient, operators }
    }

    /// The term with another coefficient.
    pub fn with_coefficient(self, coefficient: Real) -> (r: PauliTerm)
        ensures
            r.coefficient@ == coefficient@,
            r.operators@ == self.operators@,
    {
        let PauliTerm { coefficient: _, operators } = self;
        PauliTerm { coefficient, operators }
    }
}

/// The Pauli operator that a letter names, in either case.
pub open spec fn pauli_of(c: char) -> Option<Pauli> {
    if c == 'X' || c == 'x' {
        Some(Pauli::X)
    } else if c == 'Y' || c == 'y' {
        Some(Pauli::Y)
    } else if c == 'Z' || c == 'z' {
        Some(Pauli::Z)
    } else if c == 'I' || c == 'i' {
        Some(Pauli::I)
    } else {
        None
    }
}

/// The operator that a word writes: a letter and the number of a qubit.
pub open spec fn operator_of(word: Seq<char>) -> Option<(Pauli, usize)> {
    if word.len() < 2 {
        None
    } else {
        match (pauli_of(word[0]), unsigned_of(word.skip(1))) {
            (Some(pauli), Some(qubit)) => Some((pauli, qubit)),
            _ => None,
        }
    }
}

/// The operators, other than the identity, that the first `n` words write;
/// `None` where one of them writes none.
pub open spec fn operators_upto(all: Seq<Seq<char>>, n: nat) -> Option<Seq<(Pauli, usize)>>
    decreases n,
{
    if n == 0 {
        Some(Seq::empty())
    } else {
        match (operators_upto(all, (n - 1) as nat), operator_of(all[n - 1])) {
            (Some(before), Some(operator)) => if operator.0 == Pauli::I {
                Some(before)
            } else {
                Some(before.push(operator))
            },
            _ => None,
        }
    }
}

/// What a text writes as a Pauli term: a coefficient, a star, and operators
/// parted by white space, as in `0.5 * X0 Z1`. `None` for any other text.
pub open spec fn term_source(text: Seq<char>) -> Option<(Seq<char>, Seq<(Pauli, usize)>)> {
    let parts = split(text, |c: char| c == '*');
    if parts.len() != 2 {
        None
    } else {
        let coefficient = trimmed(parts[0]);
        let all = words(trimmed(parts[1]), |c: char| is_space(c));
        match operators_upto(all, all.len()) {
            Some(operators) => if is_float_text(coefficient) {
                Some((coefficient, operators))
            } else {
                None
            },
            None => None,
        }
    }
}

fn read_pauli(c: char) -> (r: Option<Pauli>)
    ensures
        r == pauli_of(c),
{
    if c == 'X' || c == 'x' {
        Some(Pauli::X)
    } else if c == 'Y' || c == 'y' {
        Some(Pauli::Y)
    } else if c == 'Z' || c == 'z' {
        Some(Pauli::Z)
    } else if c == 'I' || c == 'i' {
        Some(Pauli::I)
    } else {
        None
    }
}

fn read_operator(word: &Vec<char>) -> (r: Option<(Pauli, usize)>)
    ensures
        r == operator_of(word@),
{
    if word.len() < 2 {
        return None;
    }
    let digits = slice(word, 1, word.len());
    assert(digits@ =~= word@.skip(1));
    match (read_pauli(word[0]), parse_unsigned(&digits)) {
        (Some(pauli), Some(qubit)) => Some((pauli, qubit)),
        _ => None,
    }
}

impl PauliTerm {
    /// Reads a term such as `0.5 * X0 Z1`. The operators are kept in the
    /// order of their qubits; identities are left out.
    pub fn from_str(s: &str) -> (r: Result<PauliTerm, PauliTermParseError>)
        ensures
            match r {
                Ok(term) => match term_source(s@) {
                    Some((coefficient, operators)) => term.coefficient@ == coefficient
                        && arranged(term.operators@, operators),
                    None => false,
                },
                Err(_) => term_source(s@) is None,
            },
    {
        let text = chars_of(s);
        let mut star: Vec<char> = Vec::new();
        star.push('*');
        let parts = split_at(&text, &star);
        proof {
            let by_list = |c: char| star@.contains(c);
            let by_char = |c: char| c == '*';
            assert(star@ =~= seq!['*']);
            assert forall|c: char| #[trigger] by_list(c) == by_char(c) by {
                if c == '*' {
                    assert(star@[0] == c);
                }
            }
            assert(by_list =~= by_char);
            assert(views(parts@).len() == parts.len());
        }
        if parts.len() != 2 {
            return Err(PauliTermParseError);
        }
        assert(views(parts@)[0] == parts[0]@);
        assert(views(parts@)[1] == parts[1]@);
        let coefficient = match Real::parse(&trim(&parts[0])) {
            Some(coefficient) => coefficient,
            None => {
                return Err(PauliTermParseError);
            },
        };
        let written = trim(&parts[1]);
        let all = words_by_space(&written);
        let ghost source = views(all@);
        let mut term = PauliTerm::new().with_coefficient(coefficient);
        let mut i: usize = 0;
        let ghost mut read: Seq<(Pauli, usize)> = Seq::empty();
        assert(arranged(term.operators@, read)) by {
            assert(term.operators@ =~= read);
        }
        while i < all.len()
            invariant
                i <= all.len(),
                parts.len() == 2,
                views(parts@).len() == 2,
                views(parts@) == split(s@, |c: char| c == '*'),
                is_float_text(trimmed(views(parts@)[0])),
                source == views(all@),
                source == words(trimmed(views(parts@)[1]), |c: char| is_space(c)),
                term.coefficient@ == trimmed(views(parts@)[0]),
                operators_upto(source, i as nat) == Some(read),
                arranged(term.operators@, read),
            decreases all.len() - i,
        {
            assert(source[i as int] == all[i as int]@);
            match read_operator(&all[i]) {
                None => {
                    proof {
                        lemma_operators_fail(source, (i + 1) as nat, source.len());
                    }
                    return Err(PauliTermParseError);
                },
                Some((pauli, qubit)) => {
                    let ghost before = term.operators@;
                    term = term.with_pauli(qubit, pauli);
                    proof {
                        if pauli != Pauli::I {
                            lemma_arranged_push(before, term.operators@, read, (pauli, qubit));
                            read = read.push((pauli, qubit));
                        }
                    }
                },
            }
            i += 1;
        }
        Ok(term)
    }
}

/// Once a word writes no operator, reading on changes nothing.
proof fn lemma_operators_fail(all: Seq<Seq<char>>, n: nat, m: nat)
    requires
        n <= m,
        operators_upto(all, n) is None,
    ensures
        operators_upto(all, m) is None,
    decreases m - n,
{
    if n < m {
        lemma_operators_fail(all, n, (m - 1) as nat);
    }
}

/// The first `n` operators written out, each after a blank.
pub open spec fn operators_text(operators: Seq<(Pauli, usize)>, n: nat) -> Seq<char>
    decreases n,
{
    if n == 0 {
        Seq::empty()
    } else {
        operators_text(operators, (n - 1) as nat) + " "@ + pauli_letter(operators[n - 1].0)
            + decimal(operators[n - 1].1 as nat)
    }
}

/// A term written out: the coefficient as it is held and, where there are
/// operators, a star and the operators.
pub open spec fn term_text(term: PauliTermView) -> Seq<char> {
    if term.operators.len() == 0 {
        term.coefficient
    } else {
        term.coefficient + " *"@ + operators_text(term.operators, term.operators.len())
    }
}

impl PauliTerm {
    /// The term written out.
    pub fn to_string(&self) -> (r: String)
        ensures
            r@ == term_text(self.deep_view()),
    {
        let mut out = self.coefficient.text().clone();
        if self.operators.len() == 0 {
            return out;
        }
        out.append(" *");
        let ghost head = out@;
        let mut i: usize = 0;
        assert(out@ =~= head + operators_text(self.operators@, 0));
        while i < self.operators.len()
            invariant
                i <= self.operators.len(),
                out@ == head + operators_text(self.operators@, i as nat),
            decreases self.operators.len() - i,
        {
            let (pauli, qubit) = self.operators[i];
            out.append(" ");
            out.append(pauli_name(pauli));
            push_decimal(&mut out, qubit as u64);
            assert(out@ =~= head + operators_text(self.operators@, (i + 1) as nat));
            i += 1;
        }
        out
    }
}

impl Default for PauliTerm {
    fn default() -> (r: PauliTerm)
        ensures
            r.deep_view() == (PauliTermView { coefficient: seq!['1'], operators: Seq::empty() }),
    {
        PauliTerm::new()
    }
}

/// A sum of Pauli terms.
#[derive(Debug)]
pub struct Hamiltonian {
    pub terms: Vec<PauliTerm>,
}

/// The first `n` terms written out, one on each line, with a plus before
/// each but the first.
pub open spec fn terms_text(terms: Seq<PauliTermView>, n: nat) -> Seq<char>
    decreases n,
{
    if n == 0 {
        Seq::empty()
    } else if n == 1 {
        term_text(terms[0])
    } else {
        terms_text(terms, (n - 1) as nat) + "\n+ "@ + term_text(terms[n - 1])
    }
}

impl Hamiltonian {
    /// The empty sum.
    pub fn new() -> (r: Hamiltonian)
        ensures
            r.terms.deep_view() == Seq::<PauliTermView>::empty(),
    {
        let r = Hamiltonian { terms: Vec::new() };
        assert(r.terms.deep_view() =~= Seq::<PauliTermView>::empty());
        r
    }

    /// Adds a term.
    pub fn add_term(&mut self, term: PauliTerm)
        ensures
            final(self).terms.deep_view() == old(self).terms.deep_view().push(term.deep_view()),
    {
        let ghost before = self.terms.deep_view();
        let ghost added = term.deep_view();
        self.terms.push(term);
        assert(self.terms.deep_view() =~= before.push(added));
    }

    /// The sum with one more term.
    pub fn with_term(self, term: PauliTerm) -> (r: Hamiltonian)
        ensures
            r.terms.deep_view() == self.terms.deep_view().push(term.deep_view()),
    {
        let mut sum = self;
        sum.add_term(term);
        sum
    }

    /// The sum written out.
    pub fn to_string(&self) -> (r: String)
        ensures
            r@ == terms_text(self.terms.deep_view(), self.terms.len() as nat),
    {
        let ghost all = self.terms.deep_view();
        let mut out = String::new();
        let mut i: usize = 0;
        while i < self.terms.len()
            invariant
                i <= self.terms.len(),
                all == self.terms.deep_view(),
                out@ == terms_text(all, i as nat),
            decreases self.terms.len() - i,
        {
            assert(all[i as int] == self.terms[i as int].deep_view());
            if i > 0 {
                out.append("\n+ ");
            }
            let written = self.terms[i].to_string();
            out.append(written.as_str());
            assert(out@ =~= terms_text(all, (i + 1) as nat));
            i += 1;
        }
        out
    }
}

} // verus!
